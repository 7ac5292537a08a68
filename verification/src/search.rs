//! Query building for the search surface.
//!
//! The search engine itself delegates text search and fuzzy matching to
//! the relational database; what remains here is the construction of
//! multi-criteria WHERE clauses with numbered placeholders, which the
//! HTTP layer hands to that engine.

use crate::strutil::{spec_u64_str, u64_to_string};
use vstd::prelude::*;
use vstd::string::{StringExecFns, StrSliceExecFns};

verus! {

/// Fields that can be searched.
#[derive(Debug, Clone, PartialEq, Eq, Structural)]
pub enum SearchField {
    Biography,
    SourceOfWealth,
    NotableAchievements,
    Philanthropy,
    Quote,
    All,
}

/// Sort options.
#[derive(Debug, Clone, PartialEq, Eq, Structural)]
pub enum SortBy {
    Relevance,
    NetWorth,
    Name,
    Rating,
    Age,
}

/// Sort direction.
#[derive(Debug, Clone, PartialEq, Eq, Structural)]
pub enum SortOrder {
    Asc,
    Desc,
}

/// The text of one numbered placeholder.
pub open spec fn spec_placeholder(n: int) -> Seq<char> {
    "$"@ + spec_u64_str(n)
}

/// The text of a comma-separated run of placeholders `start+1 ..= start+count`.
pub open spec fn spec_placeholder_list(start: int, count: int) -> Seq<char>
    decreases count,
{
    if count <= 0 {
        Seq::empty()
    } else if count == 1 {
        spec_placeholder(start + 1)
    } else {
        spec_placeholder_list(start, count - 1) + ", "@ + spec_placeholder(start + count)
    }
}

/// The conditions joined with AND.
pub open spec fn spec_join_and(s: Seq<String>) -> Seq<char>
    decreases s.len(),
{
    if s.len() == 0 {
        Seq::empty()
    } else if s.len() == 1 {
        s[0]@
    } else {
        spec_join_and(s.drop_last()) + " AND "@ + s.last()@
    }
}

/// Builds a multi-criteria WHERE clause with numbered parameters.
pub struct QueryBuilder {
    pub conditions: Vec<String>,
    pub params: Vec<String>,
    pub param_count: usize,
}

impl QueryBuilder {
    pub fn new() -> (r: QueryBuilder)
        ensures
            r.conditions@.len() == 1,
            r.conditions@[0]@ == "1=1"@,
            r.params@.len() == 0,
            r.param_count == 0,
    {
        let mut conditions: Vec<String> = Vec::new();
        conditions.push(String::from_str("1=1"));
        QueryBuilder { conditions, params: Vec::new(), param_count: 0 }
    }

    /// Adds a case-insensitive containment condition on a text field,
    /// binding the pattern to the next numbered parameter.
    pub fn add_text_condition(&mut self, field: &str, value: &str)
        requires
            old(self).param_count < usize::MAX,
        ensures
            final(self).param_count == old(self).param_count + 1,
            final(self).conditions@.len() == old(self).conditions@.len() + 1,
            forall|i: int|
                0 <= i < old(self).conditions@.len() ==> final(self).conditions@[i] == old(
                    self,
                ).conditions@[i],
            final(self).conditions@.last()@ == field@ + " ILIKE "@ + spec_placeholder(
                old(self).param_count + 1,
            ),
            final(self).params@.len() == old(self).params@.len() + 1,
            forall|i: int|
                0 <= i < old(self).params@.len() ==> final(self).params@[i] == old(
                    self,
                ).params@[i],
            final(self).params@.last()@ == "%"@ + value@ + "%"@,
    {
        self.param_count = self.param_count + 1;
        let mut cond = String::from_str(field);
        cond.append(" ILIKE ");
        cond.append("$");
        let num = u64_to_string(self.param_count as u64);
        cond.append(num.as_str());
        self.conditions.push(cond);
        let mut pattern = String::from_str("%");
        pattern.append(value);
        pattern.append("%");
        self.params.push(pattern);
    }

    /// Adds a membership condition on a field, binding each value to the
    /// next numbered parameters; an empty value list adds nothing.
    pub fn add_in_condition(&mut self, field: &str, values: &Vec<String>)
        requires
            old(self).param_count + values@.len() <= usize::MAX,
        ensures
            values@.len() == 0 ==> *final(self) == *old(self),
            values@.len() > 0 ==> {
                &&& final(self).param_count == old(self).param_count + values@.len()
                &&& final(self).conditions@.len() == old(self).conditions@.len() + 1
                &&& forall|i: int|
                    0 <= i < old(self).conditions@.len() ==> final(self).conditions@[i] == old(
                        self,
                    ).conditions@[i]
                &&& final(self).conditions@.last()@ == field@ + " IN ("@ + spec_placeholder_list(
                    old(self).param_count as int,
                    values@.len() as int,
                ) + ")"@
                &&& final(self).params@.len() == old(self).params@.len() + values@.len()
                &&& forall|i: int|
                    0 <= i < old(self).params@.len() ==> final(self).params@[i] == old(
                        self,
                    ).params@[i]
                &&& forall|i: int|
                    0 <= i < values@.len() ==> final(self).params@[old(self).params@.len() + i]@
                        == values@[i]@
            },
    {
        let n = values.len();
        if n == 0 {
            return ;
        }
        let ghost start = self.param_count as int;
        let mut placeholders = String::new();
        let mut j: usize = 0;
        while j < n
            invariant
                n == values@.len(),
                j <= n,
                self.param_count == old(self).param_count + j,
                old(self).param_count + n <= usize::MAX,
                placeholders@ == spec_placeholder_list(start, j as int),
                start == old(self).param_count as int,
                self.conditions@ == old(self).conditions@,
                self.params@.len() == old(self).params@.len() + j,
                forall|i: int|
                    0 <= i < old(self).params@.len() ==> self.params@[i] == old(self).params@[i],
                forall|i: int|
                    0 <= i < j ==> self.params@[old(self).params@.len() + i]@ == values@[i]@,
            decreases n - j,
        {
            if j > 0 {
                placeholders.append(", ");
            }
            self.param_count = self.param_count + 1;
            placeholders.append("$");
            let num = u64_to_string(self.param_count as u64);
            placeholders.append(num.as_str());
            self.params.push(values[j].clone());
            proof {
                if j == 0 {
                    assert(placeholders@ =~= spec_placeholder(start + 1));
                } else {
                    assert(placeholders@ =~= spec_placeholder_list(start, j as int) + ", "@
                        + spec_placeholder(start + j + 1));
                }
            }
            j = j + 1;
        }
        let mut cond = String::from_str(field);
        cond.append(" IN (");
        cond.append(placeholders.as_str());
        cond.append(")");
        self.conditions.push(cond);
    }

    /// The WHERE clause and its bound parameters.
    pub fn build(&self) -> (r: (String, Vec<String>))
        ensures
            r.0@ == spec_join_and(self.conditions@),
            r.1@ =~= self.params@,
    {
        let mut clause = String::new();
        let n = self.conditions.len();
        let mut i: usize = 0;
        while i < n
            invariant
                n == self.conditions@.len(),
                i <= n,
                clause@ == spec_join_and(self.conditions@.take(i as int)),
            decreases n - i,
        {
            if i > 0 {
                clause.append(" AND ");
            }
            clause.append(self.conditions[i].as_str());
            proof {
                assert(self.conditions@.take(i as int + 1).drop_last() =~= self.conditions@.take(
                    i as int,
                ));
                assert(self.conditions@.take(i as int + 1).last() == self.conditions@[i as int]);
                if i == 0 {
                    assert(clause@ =~= spec_join_and(self.conditions@.take(1)));
                }
            }
            i = i + 1;
        }
        proof {
            assert(self.conditions@.take(n as int) =~= self.conditions@);
        }
        let params = crate::strutil::clone_string_vec(&self.params);
        (clause, params)
    }
}

/// The caseless identity of a character: ASCII letters compare without
/// case, every other character by its code point.
pub open spec fn spec_canon(c: char) -> int {
    if 'A' <= c && c <= 'Z' {
        c as int + 32
    } else {
        c as int
    }
}

/// Whether the term occurs at position `i` of the text, ignoring ASCII
/// case.
pub open spec fn spec_matches_at(text: Seq<char>, term: Seq<char>, i: int) -> bool {
    &&& 0 <= i
    &&& i + term.len() <= text.len()
    &&& forall|j: int|
        0 <= j < term.len() ==> spec_canon(text[i + j]) == spec_canon(#[trigger] term[j])
}

/// One highlighting pass: scanning left to right, every occurrence of the
/// term is wrapped in mark tags, with scanning resuming after it; an
/// empty term changes nothing.
pub open spec fn spec_highlight_one(text: Seq<char>, term: Seq<char>) -> Seq<char>
    decreases text.len(),
{
    if term.len() == 0 || text.len() == 0 {
        text
    } else if spec_matches_at(text, term, 0) {
        "<mark>"@ + text.take(term.len() as int) + "</mark>"@ + spec_highlight_one(
            text.skip(term.len() as int),
            term,
        )
    } else {
        seq![text[0]] + spec_highlight_one(text.drop_first(), term)
    }
}

/// All passes, one per term in order; each term scans the output of the
/// one before it.
pub open spec fn spec_highlight_all(text: Seq<char>, terms: Seq<Seq<char>>) -> Seq<char>
    decreases terms.len(),
{
    if terms.len() == 0 {
        text
    } else {
        spec_highlight_all(spec_highlight_one(text, terms.first()), terms.drop_first())
    }
}

fn chars_eq_ci(a: char, b: char) -> (r: bool)
    ensures
        r == (spec_canon(a) == spec_canon(b)),
{
    let ua: u32 = if 'A' <= a && a <= 'Z' {
        a as u32 + 32
    } else {
        a as u32
    };
    let ub: u32 = if 'A' <= b && b <= 'Z' {
        b as u32 + 32
    } else {
        b as u32
    };
    ua == ub
}

fn matches_at(text: &str, n: usize, term: &str, tlen: usize, i: usize) -> (r: bool)
    requires
        n == text@.len(),
        tlen == term@.len(),
        i <= n,
    ensures
        r == spec_matches_at(text@, term@, i as int),
{
    if tlen > n - i {
        return false;
    }
    let mut j: usize = 0;
    while j < tlen
        invariant
            n == text@.len(),
            tlen == term@.len(),
            i + tlen <= n,
            j <= tlen,
            forall|p: int|
                0 <= p < j ==> spec_canon(text@[i as int + p]) == spec_canon(#[trigger] term@[p]),
        decreases tlen - j,
    {
        if !chars_eq_ci(text.get_char(i + j), term.get_char(j)) {
            proof {
                assert(spec_canon(text@[i as int + j as int]) != spec_canon(term@[j as int]));
            }
            return false;
        }
        j = j + 1;
    }
    true
}

/// Shifting the text aligns a match at `i` with a match at the front.
proof fn lemma_matches_at_shift(text: Seq<char>, term: Seq<char>, i: int)
    requires
        0 <= i <= text.len(),
    ensures
        spec_matches_at(text, term, i) == spec_matches_at(text.skip(i), term, 0),
{
    if spec_matches_at(text, term, i) {
        assert forall|j: int| 0 <= j < term.len() implies spec_canon(text.skip(i)[0 + j])
            == spec_canon(#[trigger] term[j]) by {
            assert(text.skip(i)[j] == text[i + j]);
        }
    }
    if spec_matches_at(text.skip(i), term, 0) {
        assert forall|j: int| 0 <= j < term.len() implies spec_canon(text[i + j]) == spec_canon(
            #[trigger] term[j],
        ) by {
            assert(text.skip(i)[j] == text[i + j]);
        }
    }
}

/// One pass of term highlighting over a text.
fn highlight_pass(text: &str, term: &str) -> (r: String)
    ensures
        r@ == spec_highlight_one(text@, term@),
{
    let n = text.unicode_len();
    let tlen = term.unicode_len();
    let mut out = String::new();
    if tlen == 0 {
        out.append(text);
        return out;
    }
    let mut i: usize = 0;
    proof {
        assert(text@.skip(0) =~= text@);
        assert(Seq::<char>::empty() + spec_highlight_one(text@, term@) =~= spec_highlight_one(
            text@,
            term@,
        ));
    }
    while i < n
        invariant
            n == text@.len(),
            tlen == term@.len(),
            tlen >= 1,
            i <= n,
            spec_highlight_one(text@, term@) == out@ + spec_highlight_one(
                text@.skip(i as int),
                term@,
            ),
        decreases n - i,
    {
        let ghost pre = out@;
        let ghost rest = text@.skip(i as int);
        if matches_at(text, n, term, tlen, i) {
            proof {
                lemma_matches_at_shift(text@, term@, i as int);
                assert(spec_matches_at(rest, term@, 0));
                assert(rest.take(tlen as int) =~= text@.subrange(i as int, i as int + tlen as int));
                assert(rest.skip(tlen as int) =~= text@.skip(i as int + tlen as int));
            }
            out.append("<mark>");
            out.append(text.substring_char(i, i + tlen));
            out.append("</mark>");
            proof {
                assert(out@ =~= pre + "<mark>"@ + rest.take(tlen as int) + "</mark>"@);
                assert(spec_highlight_one(rest, term@) == "<mark>"@ + rest.take(tlen as int)
                    + "</mark>"@ + spec_highlight_one(rest.skip(tlen as int), term@));
                assert(spec_highlight_one(text@, term@) =~= out@ + spec_highlight_one(
                    text@.skip(i as int + tlen as int),
                    term@,
                ));
            }
            i = i + tlen;
        } else {
            proof {
                lemma_matches_at_shift(text@, term@, i as int);
                assert(!spec_matches_at(rest, term@, 0));
                assert(rest[0] == text@[i as int]);
                assert(rest.drop_first() =~= text@.skip(i as int + 1));
            }
            out.append(text.substring_char(i, i + 1));
            proof {
                assert(text@.subrange(i as int, i as int + 1) =~= seq![text@[i as int]]);
                assert(out@ =~= pre + seq![rest[0]]);
                assert(spec_highlight_one(rest, term@) == seq![rest[0]] + spec_highlight_one(
                    rest.drop_first(),
                    term@,
                ));
                assert(spec_highlight_one(text@, term@) =~= out@ + spec_highlight_one(
                    text@.skip(i as int + 1),
                    term@,
                ));
            }
            i = i + 1;
        }
    }
    proof {
        assert(text@.skip(n as int) =~= Seq::<char>::empty());
        assert(out@ + Seq::<char>::empty() =~= out@);
    }
    out
}

/// Wraps every occurrence of each search term in mark tags, one pass per
/// term in order; matching ignores ASCII case.
pub fn highlight_text(text: &str, search_terms: &Vec<String>) -> (r: String)
    ensures
        r@ == spec_highlight_all(text@, crate::strutil::name_views(search_terms@)),
{
    let ghost vs = crate::strutil::name_views(search_terms@);
    let mut current = String::new();
    current.append(text);
    proof {
        assert(vs.skip(0) =~= vs);
    }
    let m = search_terms.len();
    let mut k: usize = 0;
    while k < m
        invariant
            m == search_terms@.len(),
            vs == crate::strutil::name_views(search_terms@),
            k <= m,
            spec_highlight_all(text@, vs) == spec_highlight_all(current@, vs.skip(k as int)),
        decreases m - k,
    {
        proof {
            assert(vs.skip(k as int).first() == vs[k as int]);
            assert(vs.skip(k as int).drop_first() =~= vs.skip(k as int + 1));
        }
        current = highlight_pass(current.as_str(), search_terms[k].as_str());
        k = k + 1;
    }
    proof {
        assert(vs.skip(m as int) =~= Seq::<Seq<char>>::empty());
    }
    current
}

} // verus!
