use wealthcast::events::UpdateMessage;
use wealthcast::money::{BILLION, MONEY_SCALE};
use wealthcast::monitor::{
    determine_change_reason, is_significant_change, percent_change, Billionaire, WealthCalculator,
};
use wealthcast::price_cache::PriceCache;

fn usd(units: i64) -> i64 {
    units * MONEY_SCALE
}

#[test]
fn materiality_needs_a_billion_or_one_percent() {
    let base = 100 * BILLION;
    // A move of exactly one billion is not material; a hair more is.
    assert!(!is_significant_change(base, base + BILLION));
    assert!(is_significant_change(base, base + BILLION + 1));
    // One percent of a small figure: 0.6 billion on a 50 billion base is
    // 1.2 percent, material even though it is under a billion.
    let small = 50 * BILLION;
    assert!(is_significant_change(small, small + 6 * BILLION / 10));
    // Half a percent on the same base stays quiet.
    assert!(!is_significant_change(small, small + BILLION / 4));
    // From zero, any nonzero value is material.
    assert!(is_significant_change(0, 1));
    assert!(!is_significant_change(0, 0));
}

#[test]
fn percent_change_is_exact_and_saturating() {
    // 50% gain: 5000 at a scale of one hundred per percent.
    assert_eq!(percent_change(2 * BILLION, 3 * BILLION), 5_000);
    // 25% loss.
    assert_eq!(percent_change(4 * BILLION, 3 * BILLION), -2_500);
    // From zero the figure saturates.
    assert_eq!(percent_change(0, 5), i64::MAX);
    assert_eq!(percent_change(0, 0), 0);
}

#[test]
fn change_reason_renders_one_decimal() {
    assert_eq!(determine_change_reason(2 * BILLION, 3 * BILLION), "Portfolio gains of 50.0%");
    assert_eq!(determine_change_reason(4 * BILLION, 3 * BILLION), "Portfolio losses of 25.0%");
    assert_eq!(determine_change_reason(8 * BILLION, 9 * BILLION), "Portfolio gains of 12.5%");
}

#[test]
fn observe_emits_only_material_changes() {
    let mut calc = WealthCalculator::new();
    let name = "Ada".to_string();
    let baseline = 100 * BILLION;
    // A quiet move: no event, and the last-broadcast value stays put.
    assert!(calc.observe_subject(&name, baseline, baseline + BILLION / 2).is_none());
    // The drift accumulates against the untouched baseline until it
    // crosses the threshold.
    let update = calc
        .observe_subject(&name, baseline, baseline + BILLION + 1)
        .expect("material change");
    match update {
        UpdateMessage::WealthUpdate { previous_net_worth, new_net_worth, reason, .. } => {
            assert_eq!(previous_net_worth, baseline);
            assert_eq!(new_net_worth, baseline + BILLION + 1);
            assert!(reason.starts_with("Portfolio gains of "));
        },
        _ => panic!("expected a wealth update"),
    }
    // The last broadcast value was updated; the same figure is quiet now.
    assert!(calc.observe_subject(&name, baseline, baseline + BILLION + 1).is_none());
}

#[test]
fn emitted_events_respect_threshold_over_their_fields() {
    let mut calc = WealthCalculator::new();
    let subjects = vec![
        Billionaire {
            name: "Someone New".to_string(),
            net_worth: 0,
            source_of_wealth: "Industry".to_string(),
            industry: "Tech".to_string(),
            country: "USA".to_string(),
        },
    ];
    let prices = PriceCache::new();
    let events = calc.monitor_wealth_changes(&subjects, &prices);
    // The default profile is worth one billion against a zero baseline:
    // material, so one event comes out.
    assert_eq!(events.len(), 1);
    match &events[0] {
        UpdateMessage::WealthUpdate { previous_net_worth, new_net_worth, .. } => {
            let change = (new_net_worth - previous_net_worth).abs();
            let pct_material =
                *previous_net_worth != 0 && 100 * change > previous_net_worth.abs();
            let zero_base = *previous_net_worth == 0 && new_net_worth != previous_net_worth;
            assert!(change > BILLION || pct_material || zero_base);
        },
        _ => panic!("expected a wealth update"),
    }
}

#[test]
fn sample_profile_values_public_equity_from_cache() {
    let calc = WealthCalculator::new();
    let mut prices = PriceCache::new();
    prices.insert_quote(wealthcast::feed::make_stock_price(
        "TSLA".to_string(),
        usd(250),
        usd(250),
        0,
    ));
    let worth = calc
        .calculate_net_worth(&"Elon Musk".to_string(), &prices)
        .expect("within range");
    // 411,000,000 shares at 250.0 plus the private stakes:
    // 102.75e9 + 63e9 + 4.5e9 + 5.13e9.
    assert_eq!(
        worth,
        usd(102_750_000_000) + usd(63_000_000_000) + usd(4_500_000_000) + usd(5_130_000_000)
    );
}

#[test]
fn cycle_emits_per_subject_and_updates_cache_only_on_emission() {
    let mut calc = WealthCalculator::new();
    // The default sample portfolio is worth exactly one billion. "Quiet"
    // starts at that baseline, so nothing changes; "Loud" starts at zero,
    // so its first valuation is material.
    let quiet = Billionaire {
        name: "Quiet".to_string(),
        net_worth: BILLION,
        source_of_wealth: "s".to_string(),
        industry: "i".to_string(),
        country: "c".to_string(),
    };
    let loud = Billionaire {
        name: "Loud".to_string(),
        net_worth: 0,
        source_of_wealth: "s".to_string(),
        industry: "i".to_string(),
        country: "c".to_string(),
    };
    let prices = PriceCache::new();
    let events = calc.monitor_wealth_changes(&vec![quiet, loud], &prices);
    assert_eq!(events.len(), 1);
    match &events[0] {
        UpdateMessage::WealthUpdate { name, previous_net_worth, new_net_worth, .. } => {
            assert_eq!(name, "Loud");
            assert_eq!(*previous_net_worth, 0);
            assert_eq!(*new_net_worth, BILLION);
        },
        _ => panic!("expected a wealth update"),
    }
    // The last-broadcast cache was updated only for the emitting subject.
    assert_eq!(calc.wealth_cache.get(&"Loud".to_string()), Some(&BILLION));
    assert!(calc.wealth_cache.get(&"Quiet".to_string()).is_none());
}
