//! Small helpers over strings and vectors of strings, and decimal
//! rendering of numbers.

use vstd::prelude::*;
use vstd::string::StringExecFns;

verus! {

/// The character of one decimal digit.
pub open spec fn spec_digit_char(d: int) -> char {
    if d == 0 {
        '0'
    } else if d == 1 {
        '1'
    } else if d == 2 {
        '2'
    } else if d == 3 {
        '3'
    } else if d == 4 {
        '4'
    } else if d == 5 {
        '5'
    } else if d == 6 {
        '6'
    } else if d == 7 {
        '7'
    } else if d == 8 {
        '8'
    } else {
        '9'
    }
}

/// The decimal rendering of a number, most significant digit first.
pub open spec fn spec_u64_str(n: int) -> Seq<char>
    decreases n,
{
    if n < 10 {
        seq![spec_digit_char(n)]
    } else {
        spec_u64_str(n / 10).push(spec_digit_char(n % 10))
    }
}

/// The characters of a digit list, read back to front.
pub open spec fn spec_digits_reversed(ds: Seq<u8>) -> Seq<char>
    decreases ds.len(),
{
    if ds.len() == 0 {
        Seq::empty()
    } else {
        seq![spec_digit_char(ds.last() as int)] + spec_digits_reversed(ds.drop_last())
    }
}

/// Dropping the front element of the suffix moves its character to the end.
proof fn lemma_digits_reversed_step(ds: Seq<u8>, i: int)
    requires
        0 <= i < ds.len(),
    ensures
        spec_digits_reversed(ds.skip(i)) == spec_digits_reversed(ds.skip(i + 1)) + seq![
            spec_digit_char(ds[i] as int),
        ],
    decreases ds.len(),
{
    if i == ds.len() - 1 {
        assert(ds.skip(i) =~= seq![ds[i]]);
        assert(ds.skip(i + 1) =~= Seq::<u8>::empty());
        assert(seq![ds[i]].drop_last() =~= Seq::<u8>::empty());
        assert(spec_digits_reversed(seq![ds[i]]) =~= seq![spec_digit_char(ds[i] as int)]);
        assert(spec_digits_reversed(ds.skip(i)) =~= spec_digits_reversed(ds.skip(i + 1)) + seq![
            spec_digit_char(ds[i] as int),
        ]);
    } else {
        lemma_digits_reversed_step(ds.drop_last(), i);
        assert(ds.skip(i).drop_last() =~= ds.drop_last().skip(i));
        assert(ds.skip(i + 1).drop_last() =~= ds.drop_last().skip(i + 1));
        assert(ds.skip(i).last() == ds.last());
        assert(ds.skip(i + 1).last() == ds.last());
        assert(ds.drop_last()[i] == ds[i]);
        assert(spec_digits_reversed(ds.skip(i)) =~= spec_digits_reversed(ds.skip(i + 1)) + seq![
            spec_digit_char(ds[i] as int),
        ]);
    }
}

/// One decimal digit as a string slice.
fn digit_str(d: u8) -> (r: &'static str)
    requires
        d < 10,
    ensures
        r@ == seq![spec_digit_char(d as int)],
{
    proof {
        reveal_strlit("0");
        reveal_strlit("1");
        reveal_strlit("2");
        reveal_strlit("3");
        reveal_strlit("4");
        reveal_strlit("5");
        reveal_strlit("6");
        reveal_strlit("7");
        reveal_strlit("8");
        reveal_strlit("9");
    }
    match d {
        0 => "0",
        1 => "1",
        2 => "2",
        3 => "3",
        4 => "4",
        5 => "5",
        6 => "6",
        7 => "7",
        8 => "8",
        _ => "9",
    }
}

/// Renders a number in decimal.
pub fn u64_to_string(n: u64) -> (s: String)
    ensures
        s@ == spec_u64_str(n as int),
{
    let mut digits: Vec<u8> = Vec::new();
    let mut m: u64 = n;
    while m >= 10
        invariant
            spec_u64_str(n as int) == spec_u64_str(m as int) + spec_digits_reversed(digits@),
            forall|j: int| 0 <= j < digits@.len() ==> (#[trigger] digits@[j]) < 10,
        decreases m,
    {
        let d: u8 = (m % 10) as u8;
        let ghost pre = digits@;
        digits.push(d);
        proof {
            assert(digits@.drop_last() =~= pre);
            assert(spec_digits_reversed(digits@) == seq![spec_digit_char(d as int)]
                + spec_digits_reversed(pre));
            assert(spec_u64_str(m as int) == spec_u64_str(m as int / 10).push(
                spec_digit_char(m as int % 10),
            ));
            assert(spec_u64_str(m as int) =~= spec_u64_str(m as int / 10) + seq![
                spec_digit_char(m as int % 10),
            ]);
            assert(spec_u64_str(n as int) =~= spec_u64_str((m / 10) as int) + spec_digits_reversed(
                digits@,
            ));
        }
        m = m / 10;
    }
    let d: u8 = m as u8;
    let ghost pre = digits@;
    digits.push(d);
    proof {
        assert(digits@.drop_last() =~= pre);
        assert(spec_u64_str(m as int) =~= seq![spec_digit_char(d as int)]);
        assert(spec_u64_str(n as int) =~= spec_digits_reversed(digits@));
    }
    let mut s = String::new();
    let total = digits.len();
    let mut i: usize = total;
    while i > 0
        invariant
            i <= total,
            total == digits@.len(),
            forall|j: int| 0 <= j < digits@.len() ==> (#[trigger] digits@[j]) < 10,
            s@ == spec_digits_reversed(digits@.skip(i as int)),
        decreases i,
    {
        i = i - 1;
        s.append(digit_str(digits[i]));
        proof {
            lemma_digits_reversed_step(digits@, i as int);
        }
    }
    proof {
        assert(digits@.skip(0) =~= digits@);
    }
    s
}

/// The views of a sequence of strings.
pub open spec fn name_views(s: Seq<String>) -> Seq<Seq<char>> {
    s.map_values(|x: String| x@)
}

/// Whether some element of `v` has view `s`.
pub open spec fn seq_has_str(v: Seq<Seq<char>>, s: Seq<char>) -> bool {
    exists|i: int| 0 <= i < v.len() && v[i] == s
}

/// Membership of a string in a vector of strings, by contents.
pub fn vec_contains_string(v: &Vec<String>, s: &String) -> (r: bool)
    ensures
        r == seq_has_str(name_views(v@), s@),
{
    let n = v.len();
    for i in 0..n
        invariant
            n == v@.len(),
            forall|j: int| 0 <= j < i ==> name_views(v@)[j] != s@,
    {
        if v[i] == *s {
            assert(name_views(v@)[i as int] == s@);
            return true;
        }
    }
    false
}

/// Membership among the views survives appending another string.
pub proof fn lemma_name_views_push(pre: Seq<String>, x: String, s: Seq<char>)
    requires
        seq_has_str(name_views(pre), s),
    ensures
        seq_has_str(name_views(pre.push(x)), s),
{
    let t = choose|t: int| 0 <= t < name_views(pre).len() && name_views(pre)[t] == s;
    assert(name_views(pre.push(x))[t] == s);
}

/// An element-wise copy of a vector of strings.
pub fn clone_string_vec(v: &Vec<String>) -> (r: Vec<String>)
    ensures
        r@ =~= v@,
{
    let mut out: Vec<String> = Vec::new();
    let n = v.len();
    for i in 0..n
        invariant
            n == v@.len(),
            out@.len() == i,
            forall|j: int| 0 <= j < i ==> out@[j] == v@[j],
    {
        out.push(v[i].clone());
    }
    out
}

} // verus!
