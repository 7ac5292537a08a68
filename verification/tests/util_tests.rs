use wealthcast::api::ApiResponse;
use wealthcast::errors::AppError;
use wealthcast::search::QueryBuilder;
use wealthcast::strmap::StrMap;
use wealthcast::strutil::u64_to_string;
use wealthcast::search::highlight_text;

#[test]
fn numbers_render_in_decimal() {
    assert_eq!(u64_to_string(0), "0");
    assert_eq!(u64_to_string(7), "7");
    assert_eq!(u64_to_string(12_345), "12345");
    assert_eq!(u64_to_string(u64::MAX), "18446744073709551615");
}

#[test]
fn strmap_behaves_like_a_map() {
    let mut m: StrMap<i64> = StrMap::new();
    assert_eq!(m.len(), 0);
    m.insert("a".to_string(), 1);
    m.insert("b".to_string(), 2);
    m.insert("a".to_string(), 3);
    assert_eq!(m.len(), 2);
    assert_eq!(m.get(&"a".to_string()), Some(&3));
    assert_eq!(m.get(&"b".to_string()), Some(&2));
    assert!(m.get(&"c".to_string()).is_none());
    m.remove(&"a".to_string());
    assert!(m.get(&"a".to_string()).is_none());
    assert_eq!(m.len(), 1);
    // Removing an absent key is harmless.
    m.remove(&"a".to_string());
    assert_eq!(m.len(), 1);
}

#[test]
fn query_builder_numbers_parameters() {
    let mut qb = QueryBuilder::new();
    qb.add_text_condition("industry", "tech");
    qb.add_in_condition("country", &vec!["USA".to_string(), "UK".to_string()]);
    let (clause, params) = qb.build();
    assert_eq!(clause, "1=1 AND industry ILIKE $1 AND country IN ($2, $3)");
    assert_eq!(params, vec!["%tech%".to_string(), "USA".to_string(), "UK".to_string()]);
}

#[test]
fn query_builder_skips_empty_value_lists() {
    let mut qb = QueryBuilder::new();
    qb.add_in_condition("country", &vec![]);
    let (clause, params) = qb.build();
    assert_eq!(clause, "1=1");
    assert!(params.is_empty());
}

#[test]
fn api_response_wraps_results() {
    let ok: ApiResponse<Vec<String>> = ApiResponse::success(vec!["x".to_string()]);
    assert!(ok.success);
    assert_eq!(ok.data, Some(vec!["x".to_string()]));
    assert!(ok.error.is_none());

    let bad: ApiResponse<Vec<String>> = ApiResponse::error("boom".to_string());
    assert!(!bad.success);
    assert!(bad.data.is_none());
    assert_eq!(bad.error, Some("boom".to_string()));
}

#[test]
fn errors_carry_their_message() {
    let e = AppError::DataSourceUnavailable("feed down".to_string());
    assert_eq!(e.message(), "feed down");
    let e = AppError::Validation("missing field".to_string());
    assert_eq!(e.message(), "missing field");
    let e = AppError::RateLimitExceeded("too many requests".to_string());
    assert_eq!(e.message(), "too many requests");
    let e = AppError::Configuration("no credential".to_string());
    assert_eq!(e.message(), "no credential");
}

#[test]
fn highlight_wraps_matches_ignoring_case() {
    assert_eq!(
        highlight_text("Hello World", &vec!["world".to_string()]),
        "Hello <mark>World</mark>"
    );
    assert_eq!(
        highlight_text("aaa", &vec!["a".to_string()]),
        "<mark>a</mark><mark>a</mark><mark>a</mark>"
    );
    assert_eq!(highlight_text("hello", &vec!["LO".to_string()]), "hel<mark>lo</mark>");
    assert_eq!(highlight_text("nothing here", &vec!["zzz".to_string()]), "nothing here");
    assert_eq!(highlight_text("text", &vec![]), "text");
    assert_eq!(highlight_text("text", &vec!["".to_string()]), "text");
}
