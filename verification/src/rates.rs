//! The exchange-rate table: the latest multiplier per currency code.
//!
//! Rates are scaled by `RATE_SCALE`. The table is seeded with defaults for
//! major currencies and refreshed periodically; absent a real currency
//! source, the refresh perturbs the last known table by a small random
//! factor per non-reference currency.

use crate::money::{MAX_MONEY, MAX_RATE, RATE_SCALE};
use crate::strmap::StrMap;
use vstd::prelude::*;
use vstd::string::StringExecFns;

verus! {

/// Largest perturbation, in ten-thousandths: half a percent per refresh.
pub const PERTURB_BOUND: i64 = 50;

/// The reference currency code.
pub open spec fn spec_usd() -> Seq<char> {
    "USD"@
}

/// A conversion into the reference currency: the reference currency and
/// unknown codes pass through unchanged; a known code multiplies by its
/// rate.
pub open spec fn spec_convert(amount: int, currency: Seq<char>, rates: Map<Seq<char>, i64>) -> int {
    if currency == spec_usd() {
        amount
    } else if rates.contains_key(currency) {
        (amount * rates[currency]) / (RATE_SCALE as int)
    } else {
        amount
    }
}

/// The refreshed rate is the old rate scaled by a factor within half a
/// percent of one.
pub open spec fn perturbed_ok(old_rate: i64, new_rate: i64) -> bool {
    exists|d: int|
        -PERTURB_BOUND <= d <= PERTURB_BOUND && new_rate == spec_perturbed(old_rate as int, d)
}

/// One refresh step of a single rate: scale by `10000 + d` ten-thousandths
/// and keep the result within the table's range.
pub open spec fn spec_perturbed(rate: int, d: int) -> int {
    let scaled = (rate * (10000 + d)) / 10000;
    if scaled > MAX_RATE {
        MAX_RATE as int
    } else {
        scaled
    }
}

/// Relies on rand's `random_range`: a sample that lies within the given
/// bounds; nothing more is promised of a random draw.
#[verifier::external_body]
fn random_perturbation() -> (r: i64)
    ensures
        -PERTURB_BOUND <= r <= PERTURB_BOUND,
{
    rand::random_range(-PERTURB_BOUND..=PERTURB_BOUND)
}

/// The exchange-rate table, keyed by currency code; every stored rate is
/// within range.
pub struct ExchangeRateTable {
    table: StrMap<i64>,
}

impl ExchangeRateTable {
    /// The rates held, keyed by currency code.
    pub closed spec fn rates(self) -> Map<Seq<char>, i64> {
        self.table@
    }

    pub closed spec fn entries(self) -> Seq<(String, i64)> {
        self.table.entries_seq()
    }

    /// The backing map's own invariant.
    pub closed spec fn table_wf(self) -> bool {
        self.table.wf()
    }

    pub open spec fn wf(self) -> bool {
        &&& self.table_wf()
        &&& forall|k: Seq<char>|
            self.rates().dom().contains(k) ==> 0 <= #[trigger] self.rates()[k] <= MAX_RATE
    }

    /// Every rate of the model is within range.
    pub proof fn lemma_rates_in_range(self, k: Seq<char>)
        requires
            self.wf(),
            self.rates().contains_key(k),
        ensures
            0 <= self.rates()[k] <= MAX_RATE,
    {
    }

    pub fn new() -> (r: ExchangeRateTable)
        ensures
            r.wf(),
            r.rates() == Map::<Seq<char>, i64>::empty(),
    {
        ExchangeRateTable { table: StrMap::new() }
    }

    /// Stores or replaces the rate of one currency.
    pub fn set_rate(&mut self, currency: String, rate: i64)
        requires
            old(self).wf(),
            0 <= rate <= MAX_RATE,
        ensures
            final(self).wf(),
            final(self).rates() == old(self).rates().insert(currency@, rate),
    {
        self.table.insert(currency, rate);
        proof {
            assert forall|k: Seq<char>| self.rates().dom().contains(k) implies 0 <= (
            #[trigger] self.rates()[k]) <= MAX_RATE by {
                if k != currency@ {
                    assert(old(self).rates().dom().contains(k));
                    assert(self.rates()[k] == old(self).rates()[k]);
                }
            }
        }
    }

    /// The stored rate of a currency, if any.
    pub fn get_rate(&self, currency: &String) -> (r: Option<i64>)
        requires
            self.wf(),
        ensures
            match r {
                Some(v) => self.rates().contains_key(currency@) && v == self.rates()[currency@]
                    && 0 <= v <= MAX_RATE,
                None => !self.rates().contains_key(currency@),
            },
    {
        proof {
            if self.rates().contains_key(currency@) {
                self.lemma_rates_in_range(currency@);
            }
        }
        match self.table.get(currency) {
            Some(v) => Some(*v),
            None => None,
        }
    }

    /// A table seeded with the default rates of the major currencies.
    pub fn with_defaults() -> (r: ExchangeRateTable)
        ensures
            r.wf(),
            r.rates() == Map::<Seq<char>, i64>::empty().insert(
                "USD"@,
                1_000_000,
            ).insert("EUR"@, 1_080_000).insert("GBP"@, 1_270_000).insert(
                "JPY"@,
                6_700,
            ).insert("CNY"@, 140_000),
    {
        let mut t = ExchangeRateTable::new();
        t.set_rate(String::from_str("USD"), 1_000_000);
        t.set_rate(String::from_str("EUR"), 1_080_000);
        t.set_rate(String::from_str("GBP"), 1_270_000);
        t.set_rate(String::from_str("JPY"), 6_700);
        t.set_rate(String::from_str("CNY"), 140_000);
        t
    }

    /// Converts an amount to the reference currency, or reports that the
    /// converted amount would leave the engine's range.
    pub fn convert_to_usd(&self, amount: i64, currency: &String) -> (r: Option<i64>)
        requires
            self.wf(),
            0 <= amount <= MAX_MONEY,
        ensures
            match r {
                Some(v) => v == spec_convert(amount as int, currency@, self.rates()) && 0 <= v
                    <= MAX_MONEY,
                None => spec_convert(amount as int, currency@, self.rates()) > MAX_MONEY,
            },
    {
        let usd = String::from_str("USD");
        if *currency == usd {
            return Some(amount);
        }
        match self.get_rate(currency) {
            Some(rate) => {
                proof {
                    assert(0 <= (amount as int) * (rate as int) <= (MAX_MONEY as int) * (
                    MAX_RATE as int)) by (nonlinear_arith)
                        requires
                            0 <= amount <= MAX_MONEY,
                            0 <= rate <= MAX_RATE,
                    ;
                }
                let product: u128 = (amount as u128) * (rate as u128);
                let scaled: u128 = product / (RATE_SCALE as u128);
                proof {
                    assert(product == (amount as int) * (rate as int));
                    assert(scaled == ((amount as int) * (rate as int)) / (RATE_SCALE as int));
                }
                if scaled > (MAX_MONEY as u128) {
                    None
                } else {
                    Some(scaled as i64)
                }
            },
            None => Some(amount),
        }
    }

    /// Refreshes the table: every non-reference rate is scaled by a random
    /// factor within half a percent of one, staying within range; the
    /// reference currency and the set of known codes are unchanged.
    pub fn update_exchange_rates(&mut self)
        requires
            old(self).wf(),
        ensures
            final(self).wf(),
            final(self).rates().dom() == old(self).rates().dom(),
            old(self).rates().contains_key(spec_usd()) ==> final(self).rates()[spec_usd()] == old(
                self,
            ).rates()[spec_usd()],
            forall|k: Seq<char>|
                #![trigger final(self).rates()[k]]
                old(self).rates().contains_key(k) && k != spec_usd() ==> perturbed_ok(
                    old(self).rates()[k],
                    final(self).rates()[k],
                ),
    {
        let ghost orig = *old(self);
        let usd = String::from_str("USD");
        let n = self.table.len();
        let mut i: usize = 0;
        while i < n
            invariant
                self.table.wf(),
                n == self.entries().len(),
                i <= n,
                usd@ == spec_usd(),
                orig.wf(),
                self.entries().len() == orig.entries().len(),
                forall|j: int|
                    0 <= j < self.entries().len() ==> (#[trigger] self.entries()[j]).0
                        == orig.entries()[j].0,
                forall|j: int|
                    i <= j < self.entries().len() ==> (#[trigger] self.entries()[j]).1
                        == orig.entries()[j].1,
                forall|k: Seq<char>|
                    self.rates().dom().contains(k) ==> 0 <= #[trigger] self.rates()[k] <= MAX_RATE,
                forall|j: int|
                    0 <= j < i && (#[trigger] self.entries()[j]).0@ == spec_usd()
                        ==> self.entries()[j].1 == orig.entries()[j].1,
                forall|j: int|
                    0 <= j < i && (#[trigger] self.entries()[j]).0@ != spec_usd()
                        ==> perturbed_ok(orig.entries()[j].1, self.entries()[j].1),
            decreases n - i,
        {
            let entry = self.table.entry_at(i);
            proof {
                self.table.lemma_entry_in_model(i as int);
                assert(self.rates().dom().contains(self.entries()[i as int].0@));
                assert(self.entries()[i as int].1 == self.rates()[self.entries()[i as int].0@]);
            }
            let rate = entry.1;
            if !(entry.0 == usd) {
                let d = random_perturbation();
                let factor: i64 = 10000 + d;
                proof {
                    assert(0 <= (rate as int) * (factor as int) <= (MAX_RATE as int) * 10050)
                        by (nonlinear_arith)
                        requires
                            0 <= rate <= MAX_RATE,
                            0 < factor <= 10050,
                    ;
                }
                let product: u128 = (rate as u128) * (factor as u128);
                let scaled_wide: u128 = product / 10000u128;
                proof {
                    assert(product == (rate as int) * (factor as int));
                    assert(scaled_wide == ((rate as int) * (factor as int)) / 10000);
                }
                let new_rate: i64 = if scaled_wide > (MAX_RATE as u128) {
                    MAX_RATE
                } else {
                    scaled_wide as i64
                };
                proof {
                    assert(new_rate == spec_perturbed(rate as int, d as int));
                    assert(perturbed_ok(rate, new_rate));
                }
                self.table.set_value_at(i, new_rate);
            }
            i = i + 1;
        }
        proof {
            assert forall|k: Seq<char>|
                #![trigger self.rates()[k]]
                old(self).rates().contains_key(k) && k != spec_usd() implies perturbed_ok(
                old(self).rates()[k],
                self.rates()[k],
            ) by {
                orig.table.lemma_model_in_entries(k);
                let j = choose|j: int|
                    0 <= j < orig.entries().len() && orig.entries()[j].0@ == k;
                orig.table.lemma_entry_in_model(j);
                self.table.lemma_entry_in_model(j);
                assert(self.entries()[j].0 == orig.entries()[j].0);
                assert((self.entries()[j]).0@ != spec_usd());
                assert(perturbed_ok(orig.entries()[j].1, self.entries()[j].1));
                assert(self.rates()[k] == self.entries()[j].1);
                assert(orig.rates()[k] == orig.entries()[j].1);
            }
            assert forall|k: Seq<char>| true implies self.rates().dom().contains(k) == orig
                .rates().dom().contains(k) by {
                if self.rates().contains_key(k) {
                    self.table.lemma_model_in_entries(k);
                    let j = choose|j: int|
                        0 <= j < self.entries().len() && self.entries()[j].0@ == k;
                    orig.table.lemma_entry_in_model(j);
                }
                if orig.rates().contains_key(k) {
                    orig.table.lemma_model_in_entries(k);
                    let j = choose|j: int|
                        0 <= j < orig.entries().len() && orig.entries()[j].0@ == k;
                    self.table.lemma_entry_in_model(j);
                }
            }
            assert(self.rates().dom() =~= orig.rates().dom());
            if orig.rates().contains_key(spec_usd()) {
                orig.table.lemma_model_in_entries(spec_usd());
                let j = choose|j: int|
                    0 <= j < orig.entries().len() && orig.entries()[j].0@ == spec_usd();
                orig.table.lemma_entry_in_model(j);
                self.table.lemma_entry_in_model(j);
            }
        }
    }
}

} // verus!
