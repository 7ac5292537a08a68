//! The wealth monitor: revalues subjects and emits change events.
//!
//! Each cycle compares a subject's fresh valuation against the last
//! broadcast valuation (falling back to the subject's stored baseline) and
//! emits a wealth-change event only when the change is material: more than
//! one billion reference-currency units in absolute terms, or more than
//! one percent of the previous value. The last-broadcast value is updated
//! only when an event is emitted, so small drifts accumulate until they
//! cross the threshold instead of being reset every cycle.

use crate::events::UpdateMessage;
use crate::money::{BILLION, MAX_MONEY, PCT_SCALE};
use crate::price_cache::{PriceCache, StockPrice};
use crate::rates::ExchangeRateTable;
use crate::strmap::StrMap;
use crate::strutil::{spec_u64_str, u64_to_string};
use crate::valuation::{calculate_net_worth, spec_asset_value, spec_portfolio_value, wf_assets,
    AssetType, WealthProfile};
use vstd::prelude::*;
use vstd::string::{StringExecFns, StringSliceAdditionalSpecFns, StrSliceExecFns};

verus! {

/// A tracked subject: its name and its baseline valuation in ticks, as
/// supplied by the persistence collaborator.
#[derive(Debug, Clone)]
pub struct Billionaire {
    pub name: String,
    pub net_worth: i64,
    pub source_of_wealth: String,
    pub industry: String,
    pub country: String,
}

pub open spec fn spec_abs(x: int) -> int {
    if x < 0 {
        -x
    } else {
        x
    }
}

/// The materiality rule: the absolute change is more than one billion, or
/// more than one percent of the previous value; against a previous value
/// of zero any nonzero change is material.
pub open spec fn spec_significant_change(previous: int, new_worth: int) -> bool {
    ||| spec_abs(new_worth - previous) > BILLION
    ||| (previous != 0 && 100 * spec_abs(new_worth - previous) > spec_abs(previous))
    ||| (previous == 0 && new_worth != previous)
}

/// The percent change from `previous` to `new_worth`, scaled by
/// `PCT_SCALE` and clamped to the `i64` range; against a previous value of
/// zero it saturates.
pub open spec fn spec_percent_change(previous: int, new_worth: int) -> int {
    if previous == 0 {
        if new_worth > 0 {
            i64::MAX as int
        } else if new_worth < 0 {
            -(i64::MAX as int)
        } else {
            0
        }
    } else {
        let mag = (spec_abs(new_worth - previous) * (100 * (PCT_SCALE as int))) / spec_abs(
            previous,
        );
        let clamped = if mag > i64::MAX as int {
            i64::MAX as int
        } else {
            mag
        };
        if new_worth >= previous {
            clamped
        } else {
            -clamped
        }
    }
}

/// Decides materiality at run time.
pub fn is_significant_change(previous: i64, new_worth: i64) -> (r: bool)
    requires
        0 <= previous <= MAX_MONEY,
        0 <= new_worth <= MAX_MONEY,
    ensures
        r == spec_significant_change(previous as int, new_worth as int),
{
    let change: i64 = if new_worth >= previous {
        new_worth - previous
    } else {
        previous - new_worth
    };
    if change > BILLION {
        return true;
    }
    if previous == 0 {
        return new_worth != 0;
    }
    (change as i128) * 100 > (previous as i128)
}

/// Computes the percent-change figure carried in wealth events.
pub fn percent_change(previous: i64, new_worth: i64) -> (r: i64)
    requires
        0 <= previous <= MAX_MONEY,
        0 <= new_worth <= MAX_MONEY,
    ensures
        r == spec_percent_change(previous as int, new_worth as int),
{
    if previous == 0 {
        if new_worth > 0 {
            i64::MAX
        } else {
            0
        }
    } else {
        let change: i64 = if new_worth >= previous {
            new_worth - previous
        } else {
            previous - new_worth
        };
        let scaled: u128 = (change as u128) * 10000u128;
        let mag: u128 = scaled / (previous as u128);
        proof {
            assert(scaled == spec_abs(new_worth as int - previous as int) * (100 * (
            PCT_SCALE as int)));
            assert(mag == (spec_abs(new_worth as int - previous as int) * (100 * (
            PCT_SCALE as int))) / spec_abs(previous as int));
        }
        let clamped: i64 = if mag > (i64::MAX as u128) {
            i64::MAX
        } else {
            mag as i64
        };
        if new_worth >= previous {
            clamped
        } else {
            -clamped
        }
    }
}

/// The wording of a change reason: the direction and the percent change
/// with one decimal place.
pub open spec fn spec_change_reason(previous: int, new_worth: int) -> Seq<char> {
    let tenths = spec_abs(spec_percent_change(previous, new_worth)) / 10;
    let prefix = if new_worth >= previous {
        "Portfolio gains of "@
    } else {
        "Portfolio losses of "@
    };
    prefix + spec_u64_str(tenths / 10) + "."@ + spec_u64_str(tenths % 10) + "%"@
}

/// Renders the human-readable reason carried in wealth events.
pub fn determine_change_reason(previous: i64, new_worth: i64) -> (r: String)
    requires
        0 <= previous <= MAX_MONEY,
        0 <= new_worth <= MAX_MONEY,
    ensures
        r@ == spec_change_reason(previous as int, new_worth as int),
{
    let pct = percent_change(previous, new_worth);
    let mag: i64 = if pct < 0 {
        -pct
    } else {
        pct
    };
    let tenths: i64 = mag / 10;
    let mut s = if new_worth >= previous {
        String::from_str("Portfolio gains of ")
    } else {
        String::from_str("Portfolio losses of ")
    };
    let whole = u64_to_string((tenths / 10) as u64);
    s.append(whole.as_str());
    s.append(".");
    let tenth = u64_to_string((tenths % 10) as u64);
    s.append(tenth.as_str());
    s.append("%");
    s
}

/// The valuation of a subject's sample portfolio against the cached
/// quotes: its public-equity position at the cached price (zero without a
/// quote) plus its fixed non-market contributions. The sample data prices
/// everything in the reference currency, so the rate table drops out.
pub open spec fn spec_sample_value(name: Seq<char>, quotes: Map<Seq<char>, StockPrice>) -> int {
    if name == "Elon Musk"@ {
        (if quotes.contains_key("TSLA"@) {
            411_000_000 * (quotes["TSLA"@].price as int)
        } else {
            0
        }) + 630_000_000_000_000 + 45_000_000_000_000 + 51_300_000_000_000
    } else if name == "Jeff Bezos"@ {
        (if quotes.contains_key("AMZN"@) {
            990_000_000 * (quotes["AMZN"@].price as int)
        } else {
            0
        }) + 120_000_000_000_000 + 1_650_000_000_000 + 230_000_000_000
    } else {
        10_000_000_000_000
    }
}

/// The wealth events one monitoring cycle owes, in subject order: one
/// (name, previous, new) triple per subject whose sample valuation is
/// within the engine's range and materially different from the last
/// broadcast value, falling back to the subject's baseline. The cache
/// evolves as events are emitted, so a repeated subject compares against
/// the value just broadcast.
pub open spec fn spec_cycle_events(
    cache: Map<Seq<char>, i64>,
    subjects: Seq<Billionaire>,
    quotes: Map<Seq<char>, StockPrice>,
) -> Seq<(Seq<char>, int, int)>
    decreases subjects.len(),
{
    if subjects.len() == 0 {
        Seq::empty()
    } else {
        let b = subjects.first();
        let worth = spec_sample_value(b.name@, quotes);
        let prev = if cache.contains_key(b.name@) {
            cache[b.name@] as int
        } else {
            b.net_worth as int
        };
        if 0 <= worth <= MAX_MONEY && spec_significant_change(prev, worth) {
            seq![(b.name@, prev, worth)] + spec_cycle_events(
                cache.insert(b.name@, worth as i64),
                subjects.drop_first(),
                quotes,
            )
        } else {
            spec_cycle_events(cache, subjects.drop_first(), quotes)
        }
    }
}

/// The last-broadcast cache after one cycle: updated exactly for the
/// subjects that emit.
pub open spec fn spec_cycle_cache(
    cache: Map<Seq<char>, i64>,
    subjects: Seq<Billionaire>,
    quotes: Map<Seq<char>, StockPrice>,
) -> Map<Seq<char>, i64>
    decreases subjects.len(),
{
    if subjects.len() == 0 {
        cache
    } else {
        let b = subjects.first();
        let worth = spec_sample_value(b.name@, quotes);
        let prev = if cache.contains_key(b.name@) {
            cache[b.name@] as int
        } else {
            b.net_worth as int
        };
        if 0 <= worth <= MAX_MONEY && spec_significant_change(prev, worth) {
            spec_cycle_cache(cache.insert(b.name@, worth as i64), subjects.drop_first(), quotes)
        } else {
            spec_cycle_cache(cache, subjects.drop_first(), quotes)
        }
    }
}

/// The (name, previous, new) triples of a list of wealth events.
pub open spec fn spec_event_triples(s: Seq<UpdateMessage>) -> Seq<(Seq<char>, int, int)> {
    s.map_values(
        |u: UpdateMessage|
            match u {
                UpdateMessage::WealthUpdate {
                    name,
                    previous_net_worth,
                    new_net_worth,
                    ..
                } => (name@, previous_net_worth as int, new_net_worth as int),
                _ => (Seq::<char>::empty(), 0int, 0int),
            },
    )
}

/// The wealth calculator: the exchange-rate table it refreshes and the
/// last broadcast valuation per subject.
pub struct WealthCalculator {
    pub exchange_rates: ExchangeRateTable,
    pub wealth_cache: StrMap<i64>,
}

impl WealthCalculator {
    pub open spec fn wf(self) -> bool {
        &&& self.exchange_rates.wf()
        &&& self.wealth_cache.wf()
        &&& forall|k: Seq<char>|
            self.wealth_cache@.dom().contains(k) ==> 0 <= #[trigger] self.wealth_cache@[k]
                <= MAX_MONEY
    }

    /// The previous value a subject is compared against: the last
    /// broadcast valuation, or the supplied baseline before any broadcast.
    pub open spec fn spec_previous(self, name: Seq<char>, baseline: int) -> int {
        if self.wealth_cache@.contains_key(name) {
            self.wealth_cache@[name] as int
        } else {
            baseline
        }
    }

    /// A calculator seeded with the default exchange rates and no
    /// broadcast history.
    pub fn new() -> (r: WealthCalculator)
        ensures
            r.wf(),
            r.wealth_cache@ == Map::<Seq<char>, i64>::empty(),
            r.exchange_rates.rates() == Map::<Seq<char>, i64>::empty().insert(
                "USD"@,
                1_000_000,
            ).insert("EUR"@, 1_080_000).insert("GBP"@, 1_270_000).insert(
                "JPY"@,
                6_700,
            ).insert("CNY"@, 140_000),
    {
        WealthCalculator {
            exchange_rates: ExchangeRateTable::with_defaults(),
            wealth_cache: StrMap::new(),
        }
    }

    /// One subject's step of the monitoring cycle: compares the fresh
    /// valuation against the previous one and emits an event exactly when
    /// the change is material, updating the last-broadcast value only
    /// then.
    pub fn observe_subject(&mut self, name: &String, baseline: i64, new_worth: i64) -> (r: Option<
        UpdateMessage,
    >)
        requires
            old(self).wf(),
            0 <= baseline <= MAX_MONEY,
            0 <= new_worth <= MAX_MONEY,
        ensures
            final(self).wf(),
            final(self).exchange_rates == old(self).exchange_rates,
            match r {
                Some(u) => {
                    let previous = old(self).spec_previous(name@, baseline as int);
                    &&& spec_significant_change(previous, new_worth as int)
                    &&& final(self).wealth_cache@ == old(self).wealth_cache@.insert(
                        name@,
                        new_worth,
                    )
                    &&& match u {
                        UpdateMessage::WealthUpdate {
                            name: event_name,
                            previous_net_worth,
                            new_net_worth,
                            change_percentage,
                            reason,
                        } => {
                            &&& event_name@ == name@
                            &&& previous_net_worth == previous
                            &&& new_net_worth == new_worth
                            &&& change_percentage == spec_percent_change(
                                previous,
                                new_worth as int,
                            )
                            &&& reason@ == spec_change_reason(previous, new_worth as int)
                        },
                        _ => false,
                    }
                },
                None => {
                    &&& !spec_significant_change(
                        old(self).spec_previous(name@, baseline as int),
                        new_worth as int,
                    )
                    &&& final(self).wealth_cache@ == old(self).wealth_cache@
                },
            },
    {
        let previous: i64 = match self.wealth_cache.get(name) {
            Some(v) => *v,
            None => baseline,
        };
        if is_significant_change(previous, new_worth) {
            let reason = determine_change_reason(previous, new_worth);
            let pct = percent_change(previous, new_worth);
            let update = UpdateMessage::WealthUpdate {
                name: name.clone(),
                previous_net_worth: previous,
                new_net_worth: new_worth,
                change_percentage: pct,
                reason,
            };
            self.wealth_cache.insert(name.clone(), new_worth);
            Some(update)
        } else {
            None
        }
    }

    /// One full monitoring cycle: revalues every given subject against
    /// the price cache and collects exactly the material change events,
    /// in subject order, with the last-broadcast cache updated for
    /// exactly the emitting subjects. A subject whose valuation leaves
    /// the engine's range is skipped; it never aborts the cycle for the
    /// others. The exchange-rate table is untouched.
    pub fn monitor_wealth_changes(&mut self, subjects: &Vec<Billionaire>, prices: &PriceCache) -> (
    events: Vec<UpdateMessage>)
        requires
            old(self).wf(),
            prices.wf(),
            forall|i: int|
                0 <= i < subjects@.len() ==> 0 <= (#[trigger] subjects@[i]).net_worth <= MAX_MONEY,
        ensures
            final(self).wf(),
            final(self).exchange_rates == old(self).exchange_rates,
            final(self).wealth_cache@ == spec_cycle_cache(
                old(self).wealth_cache@,
                subjects@,
                prices.quotes(),
            ),
            spec_event_triples(events@) == spec_cycle_events(
                old(self).wealth_cache@,
                subjects@,
                prices.quotes(),
            ),
            forall|t: int|
                0 <= t < events@.len() ==> match #[trigger] events@[t] {
                    UpdateMessage::WealthUpdate {
                        previous_net_worth,
                        new_net_worth,
                        change_percentage,
                        reason,
                        ..
                    } => {
                        &&& spec_significant_change(
                            previous_net_worth as int,
                            new_net_worth as int,
                        )
                        &&& change_percentage == spec_percent_change(
                            previous_net_worth as int,
                            new_net_worth as int,
                        )
                        &&& reason@ == spec_change_reason(
                            previous_net_worth as int,
                            new_net_worth as int,
                        )
                    },
                    _ => false,
                },
    {
        let ghost cache0 = old(self).wealth_cache@;
        let ghost quotes = prices.quotes();
        let mut events: Vec<UpdateMessage> = Vec::new();
        let n = subjects.len();
        let mut i: usize = 0;
        proof {
            assert(subjects@.skip(0) =~= subjects@);
            assert(spec_event_triples(events@) =~= Seq::<(Seq<char>, int, int)>::empty());
            assert(spec_event_triples(events@) + spec_cycle_events(
                self.wealth_cache@,
                subjects@,
                quotes,
            ) =~= spec_cycle_events(cache0, subjects@, quotes));
        }
        while i < n
            invariant
                self.wf(),
                prices.wf(),
                quotes == prices.quotes(),
                self.exchange_rates == old(self).exchange_rates,
                n == subjects@.len(),
                i <= n,
                forall|j: int|
                    0 <= j < subjects@.len() ==> 0 <= (#[trigger] subjects@[j]).net_worth
                        <= MAX_MONEY,
                spec_cycle_events(cache0, subjects@, quotes) =~= spec_event_triples(events@)
                    + spec_cycle_events(self.wealth_cache@, subjects@.skip(i as int), quotes),
                spec_cycle_cache(cache0, subjects@, quotes) == spec_cycle_cache(
                    self.wealth_cache@,
                    subjects@.skip(i as int),
                    quotes,
                ),
                forall|t: int|
                    0 <= t < events@.len() ==> match #[trigger] events@[t] {
                        UpdateMessage::WealthUpdate {
                            previous_net_worth,
                            new_net_worth,
                            change_percentage,
                            reason,
                            ..
                        } => {
                            &&& spec_significant_change(
                                previous_net_worth as int,
                                new_net_worth as int,
                            )
                            &&& change_percentage == spec_percent_change(
                                previous_net_worth as int,
                                new_net_worth as int,
                            )
                            &&& reason@ == spec_change_reason(
                                previous_net_worth as int,
                                new_net_worth as int,
                            )
                        },
                        _ => false,
                    },
            decreases n - i,
        {
            let subject = &subjects[i];
            let ghost rest = subjects@.skip(i as int);
            let ghost cache_pre = self.wealth_cache@;
            proof {
                assert(rest.first() == subjects@[i as int]);
                assert(rest.drop_first() =~= subjects@.skip(i as int + 1));
            }
            let profile = self.get_wealth_profile(&subject.name);
            match calculate_net_worth(&profile.assets, prices, &self.exchange_rates) {
                Some(worth) => {
                    proof {
                        assert(spec_portfolio_value(
                            profile.assets@,
                            quotes,
                            self.exchange_rates.rates(),
                        ) == spec_sample_value(subject.name@, quotes));
                    }
                    match self.observe_subject(&subject.name, subject.net_worth, worth) {
                        Some(update) => {
                            let ghost pre = events@;
                            events.push(update);
                            proof {
                                let triple = (
                                    subjects@[i as int].name@,
                                    spec_event_triples(events@).last().1,
                                    spec_event_triples(events@).last().2,
                                );
                                assert(spec_event_triples(events@) =~= spec_event_triples(
                                    pre,
                                ).push(spec_event_triples(events@).last()));
                                assert(spec_cycle_events(cache_pre, rest, quotes)
                                    =~= seq![spec_event_triples(events@).last()]
                                    + spec_cycle_events(
                                    self.wealth_cache@,
                                    subjects@.skip(i as int + 1),
                                    quotes,
                                ));
                                assert(spec_event_triples(pre) + seq![spec_event_triples(
                                    events@,
                                ).last()] =~= spec_event_triples(events@));
                                assert(spec_cycle_events(cache0, subjects@, quotes)
                                    =~= spec_event_triples(events@) + spec_cycle_events(
                                    self.wealth_cache@,
                                    subjects@.skip(i as int + 1),
                                    quotes,
                                ));
                                assert(spec_cycle_cache(cache_pre, rest, quotes)
                                    == spec_cycle_cache(
                                    self.wealth_cache@,
                                    subjects@.skip(i as int + 1),
                                    quotes,
                                ));
                            }
                        },
                        None => {
                            proof {
                                assert(spec_cycle_events(cache_pre, rest, quotes)
                                    =~= spec_cycle_events(
                                    self.wealth_cache@,
                                    subjects@.skip(i as int + 1),
                                    quotes,
                                ));
                                assert(spec_cycle_cache(cache_pre, rest, quotes)
                                    == spec_cycle_cache(
                                    self.wealth_cache@,
                                    subjects@.skip(i as int + 1),
                                    quotes,
                                ));
                            }
                        },
                    }
                },
                None => {
                    proof {
                        assert(spec_sample_value(subject.name@, quotes) > MAX_MONEY);
                        assert(spec_cycle_events(cache_pre, rest, quotes) =~= spec_cycle_events(
                            self.wealth_cache@,
                            subjects@.skip(i as int + 1),
                            quotes,
                        ));
                        assert(spec_cycle_cache(cache_pre, rest, quotes) == spec_cycle_cache(
                            self.wealth_cache@,
                            subjects@.skip(i as int + 1),
                            quotes,
                        ));
                    }
                },
            }
            i = i + 1;
        }
        proof {
            assert(subjects@.skip(n as int) =~= Seq::<Billionaire>::empty());
            assert(spec_event_triples(events@) + Seq::<(Seq<char>, int, int)>::empty()
                =~= spec_event_triples(events@));
            assert(spec_event_triples(events@) =~= spec_cycle_events(cache0, subjects@, quotes));
        }
        events
    }

    /// The sample portfolio of a subject. Stands in for the persistence
    /// collaborator's detailed asset data: two fully specified subjects,
    /// and a flat diversified holding for everyone else. Whatever the
    /// quotes and rates, the portfolio is worth exactly the subject's
    /// sample valuation.
    pub fn get_wealth_profile(&self, name: &String) -> (r: WealthProfile)
        ensures
            r.name@ == name@,
            wf_assets(r.assets@),
            forall|quotes: Map<Seq<char>, StockPrice>, rates: Map<Seq<char>, i64>|
                #[trigger] spec_portfolio_value(r.assets@, quotes, rates) == spec_sample_value(
                    name@,
                    quotes,
                ),
    {
        let elon = String::from_str("Elon Musk");
        let jeff = String::from_str("Jeff Bezos");
        let mut assets: Vec<AssetType> = Vec::new();
        if *name == elon {
            assets.push(
                AssetType::PublicStock { symbol: String::from_str("TSLA"), shares: 411_000_000 },
            );
            let ghost v1 = assets@;
            assets.push(
                AssetType::PrivateEquity {
                    company: String::from_str("SpaceX"),
                    stake: 4_200,
                    valuation: 1_500_000_000_000_000,
                },
            );
            let ghost v2 = assets@;
            assets.push(
                AssetType::PrivateEquity {
                    company: String::from_str("Neuralink"),
                    stake: 9_000,
                    valuation: 50_000_000_000_000,
                },
            );
            let ghost v3 = assets@;
            assets.push(
                AssetType::PrivateEquity {
                    company: String::from_str("The Boring Company"),
                    stake: 9_000,
                    valuation: 57_000_000_000_000,
                },
            );
            proof {
                let s = assets@;
                assert(s.drop_last() =~= v3);
                assert(v3.drop_last() =~= v2);
                assert(v2.drop_last() =~= v1);
                assert(v1.drop_last() =~= Seq::<AssetType>::empty());
                assert forall|quotes: Map<Seq<char>, StockPrice>, rates: Map<Seq<char>, i64>|
                    #[trigger] spec_portfolio_value(s, quotes, rates) == spec_sample_value(
                        name@,
                        quotes,
                    ) by {
                    assert(spec_portfolio_value(Seq::<AssetType>::empty(), quotes, rates) == 0);
                    assert(spec_asset_value(v1.last(), quotes, rates) == (
                    if quotes.contains_key("TSLA"@) {
                        411_000_000 * (quotes["TSLA"@].price as int)
                    } else {
                        0
                    }));
                    assert((4_200 * 1_500_000_000_000_000) / 10_000 == 630_000_000_000_000int)
                        by (nonlinear_arith);
                    assert((9_000 * 50_000_000_000_000) / 10_000 == 45_000_000_000_000int)
                        by (nonlinear_arith);
                    assert((9_000 * 57_000_000_000_000) / 10_000 == 51_300_000_000_000int)
                        by (nonlinear_arith);
                    assert(spec_asset_value(v2.last(), quotes, rates) == 630_000_000_000_000);
                    assert(spec_asset_value(v3.last(), quotes, rates) == 45_000_000_000_000);
                    assert(spec_asset_value(s.last(), quotes, rates) == 51_300_000_000_000);
                    assert(spec_portfolio_value(v1, quotes, rates) == spec_asset_value(
                        v1.last(),
                        quotes,
                        rates,
                    ));
                    assert(spec_portfolio_value(v2, quotes, rates) == spec_portfolio_value(
                        v1,
                        quotes,
                        rates,
                    ) + 630_000_000_000_000);
                    assert(spec_portfolio_value(v3, quotes, rates) == spec_portfolio_value(
                        v2,
                        quotes,
                        rates,
                    ) + 45_000_000_000_000);
                    assert(spec_portfolio_value(s, quotes, rates) == spec_portfolio_value(
                        v3,
                        quotes,
                        rates,
                    ) + 51_300_000_000_000);
                }
            }
        } else if *name == jeff {
            assets.push(
                AssetType::PublicStock { symbol: String::from_str("AMZN"), shares: 990_000_000 },
            );
            let ghost v1 = assets@;
            assets.push(
                AssetType::PrivateEquity {
                    company: String::from_str("Blue Origin"),
                    stake: 10_000,
                    valuation: 120_000_000_000_000,
                },
            );
            let ghost v2 = assets@;
            let mut properties: Vec<crate::valuation::Property> = Vec::new();
            properties.push(
                crate::valuation::Property {
                    name: String::from_str("Beverly Hills Mansion"),
                    location: String::from_str("California, USA"),
                    value: 1_650_000_000_000,
                    currency: String::from_str("USD"),
                },
            );
            let ghost p1 = properties@;
            properties.push(
                crate::valuation::Property {
                    name: String::from_str("Washington D.C. Mansion"),
                    location: String::from_str("Washington, USA"),
                    value: 230_000_000_000,
                    currency: String::from_str("USD"),
                },
            );
            let ghost pv = properties@;
            assets.push(AssetType::RealEstate { properties });
            proof {
                let s = assets@;
                assert(s.drop_last() =~= v2);
                assert(v2.drop_last() =~= v1);
                assert(v1.drop_last() =~= Seq::<AssetType>::empty());
                assert(pv.drop_last() =~= p1);
                assert(p1.drop_last() =~= Seq::<crate::valuation::Property>::empty());
                assert forall|quotes: Map<Seq<char>, StockPrice>, rates: Map<Seq<char>, i64>|
                    #[trigger] spec_portfolio_value(s, quotes, rates) == spec_sample_value(
                        name@,
                        quotes,
                    ) by {
                    assert(spec_portfolio_value(Seq::<AssetType>::empty(), quotes, rates) == 0);
                    assert(spec_asset_value(v1.last(), quotes, rates) == (
                    if quotes.contains_key("AMZN"@) {
                        990_000_000 * (quotes["AMZN"@].price as int)
                    } else {
                        0
                    }));
                    assert((10_000 * 120_000_000_000_000) / 10_000 == 120_000_000_000_000int)
                        by (nonlinear_arith);
                    assert(spec_asset_value(v2.last(), quotes, rates) == 120_000_000_000_000);
                    assert(crate::valuation::spec_props_value(
                        Seq::<crate::valuation::Property>::empty(),
                        rates,
                    ) == 0);
                    assert(crate::rates::spec_convert(1_650_000_000_000, "USD"@, rates)
                        == 1_650_000_000_000);
                    assert(crate::rates::spec_convert(230_000_000_000, "USD"@, rates)
                        == 230_000_000_000);
                    assert(crate::valuation::spec_props_value(p1, rates) == 1_650_000_000_000);
                    assert(crate::valuation::spec_props_value(pv, rates) == 1_650_000_000_000
                        + 230_000_000_000);
                    assert(spec_asset_value(s.last(), quotes, rates) == 1_650_000_000_000
                        + 230_000_000_000);
                    assert(spec_portfolio_value(v1, quotes, rates) == spec_asset_value(
                        v1.last(),
                        quotes,
                        rates,
                    ));
                    assert(spec_portfolio_value(v2, quotes, rates) == spec_portfolio_value(
                        v1,
                        quotes,
                        rates,
                    ) + 120_000_000_000_000);
                    assert(spec_portfolio_value(s, quotes, rates) == spec_portfolio_value(
                        v2,
                        quotes,
                        rates,
                    ) + 1_650_000_000_000 + 230_000_000_000);
                }
            }
        } else {
            assets.push(
                AssetType::Other {
                    description: String::from_str("Diversified holdings"),
                    value: 10_000_000_000_000,
                },
            );
            proof {
                let s = assets@;
                assert(s.drop_last() =~= Seq::<AssetType>::empty());
                assert forall|quotes: Map<Seq<char>, StockPrice>, rates: Map<Seq<char>, i64>|
                    #[trigger] spec_portfolio_value(s, quotes, rates) == spec_sample_value(
                        name@,
                        quotes,
                    ) by {
                    assert(spec_portfolio_value(Seq::<AssetType>::empty(), quotes, rates) == 0);
                    assert(spec_asset_value(s.last(), quotes, rates) == 10_000_000_000_000);
                }
            }
        }
        let now = crate::feed::now_epoch_seconds();
        WealthProfile {
            name: name.clone(),
            assets,
            total_net_worth: 0,
            currency: String::from_str("USD"),
            last_updated: now,
        }
    }

    /// A subject's net worth from its sample profile, the price cache and
    /// the calculator's exchange rates: exactly the subject's sample
    /// valuation, or nothing exactly when that valuation leaves the
    /// engine's range.
    pub fn calculate_net_worth(&self, name: &String, prices: &PriceCache) -> (r: Option<i64>)
        requires
            self.wf(),
            prices.wf(),
        ensures
            match r {
                Some(v) => v == spec_sample_value(name@, prices.quotes()) && 0 <= v <= MAX_MONEY,
                None => spec_sample_value(name@, prices.quotes()) > MAX_MONEY,
            },
    {
        let profile = self.get_wealth_profile(name);
        let r = calculate_net_worth(&profile.assets, prices, &self.exchange_rates);
        proof {
            assert(spec_portfolio_value(profile.assets@, prices.quotes(), self.exchange_rates.rates())
                == spec_sample_value(name@, prices.quotes()));
        }
        r
    }
}

/// Whether a byte is a decimal digit.
pub open spec fn spec_is_digit(b: u8) -> bool {
    48 <= b <= 57
}

/// The value of a digit byte.
pub open spec fn spec_digit_of(b: u8) -> int {
    b - 48
}

/// The input with every dollar sign and B marker removed, as the stored
/// net-worth strings carry them.
pub open spec fn spec_strip_money_marks(s: Seq<u8>) -> Seq<u8>
    decreases s.len(),
{
    if s.len() == 0 {
        Seq::empty()
    } else {
        let r = spec_strip_money_marks(s.drop_last());
        if s.last() == 36 || s.last() == 66 {
            r
        } else {
            r.push(s.last())
        }
    }
}

/// The value of a run of digit bytes.
pub open spec fn spec_digits_value(s: Seq<u8>) -> int
    decreases s.len(),
{
    if s.len() == 0 {
        0
    } else {
        spec_digits_value(s.drop_last()) * 10 + spec_digit_of(s.last())
    }
}

pub open spec fn spec_all_digits(s: Seq<u8>) -> bool {
    forall|i: int| 0 <= i < s.len() ==> spec_is_digit(#[trigger] s[i])
}

/// The index of the first decimal point, or the length when there is none.
pub open spec fn spec_find_dot(s: Seq<u8>) -> int
    decreases s.len(),
{
    if s.len() == 0 {
        0
    } else if s.first() == 46 {
        0
    } else {
        1 + spec_find_dot(s.drop_first())
    }
}

/// The ticks contributed by the fraction digits of a billions figure:
/// each successive digit weighs a tenth of the one before, sub-tick
/// remainders truncated.
pub open spec fn spec_frac_ticks(s: Seq<u8>) -> int
    decreases s.len(),
{
    if s.len() == 0 {
        0
    } else {
        (spec_digit_of(s.first()) * (BILLION as int) + spec_frac_ticks(s.drop_first())) / 10
    }
}

/// Ten to the given power.
pub open spec fn spec_pow10(n: nat) -> int
    decreases n,
{
    if n == 0 {
        1
    } else {
        10 * spec_pow10((n - 1) as nat)
    }
}

/// The stripped text is a decimal literal the parser accepts: digits with
/// at most one decimal point, at least one digit, and no more than five
/// integer digits (larger figures are beyond the engine's range).
pub open spec fn spec_valid_decimal(t: Seq<u8>) -> bool {
    let d = spec_find_dot(t);
    let ip = t.take(d);
    let fp = if d < t.len() {
        t.skip(d + 1)
    } else {
        Seq::empty()
    };
    &&& t.len() > 0
    &&& spec_all_digits(ip)
    &&& spec_all_digits(fp)
    &&& ip.len() + fp.len() > 0
    &&& ip.len() <= 5
}

/// The parsed net worth, in ticks, of a stored net-worth string read as
/// billions of the reference currency; anything unparsable is zero.
pub open spec fn spec_parse_net_worth(s: Seq<u8>) -> int {
    let t = spec_strip_money_marks(s);
    if spec_valid_decimal(t) {
        let d = spec_find_dot(t);
        let fp = if d < t.len() {
            t.skip(d + 1)
        } else {
            Seq::empty()
        };
        spec_digits_value(t.take(d)) * (BILLION as int) + spec_frac_ticks(fp)
    } else {
        0
    }
}

proof fn lemma_digits_value_bound(s: Seq<u8>)
    requires
        spec_all_digits(s),
    ensures
        0 <= spec_digits_value(s) < spec_pow10(s.len()),
    decreases s.len(),
{
    if s.len() > 0 {
        lemma_digits_value_bound(s.drop_last());
    }
}

proof fn lemma_frac_ticks_bound(s: Seq<u8>)
    requires
        spec_all_digits(s),
    ensures
        0 <= spec_frac_ticks(s) < BILLION,
    decreases s.len(),
{
    if s.len() > 0 {
        assert(spec_all_digits(s.drop_first())) by {
            assert forall|i: int| 0 <= i < s.drop_first().len() implies spec_is_digit(
                #[trigger] s.drop_first()[i],
            ) by {
                assert(s.drop_first()[i] == s[i + 1]);
            }
        }
        lemma_frac_ticks_bound(s.drop_first());
        assert(spec_is_digit(s.first())) by {
            assert(s[0] == s.first());
        }
    }
}

proof fn lemma_find_dot_at(s: Seq<u8>, i: int)
    requires
        0 <= i <= s.len(),
        forall|j: int| 0 <= j < i ==> s[j] != 46,
        i < s.len() ==> s[i] == 46,
        i == s.len() ==> forall|j: int| 0 <= j < s.len() ==> s[j] != 46,
    ensures
        spec_find_dot(s) == i,
    decreases s.len(),
{
    if s.len() > 0 {
        if i == 0 {
        } else {
            assert(s.first() == s[0]);
            assert(s[0] != 46);
            lemma_find_dot_at(s.drop_first(), i - 1);
        }
    }
}

/// Parses a stored net-worth string, read as billions of the reference
/// currency, into ticks: dollar signs and B markers are stripped, the
/// rest must be a plain decimal literal, and anything unparsable counts
/// as zero.
pub fn parse_net_worth(net_worth_str: &str) -> (r: i64)
    ensures
        r == spec_parse_net_worth(net_worth_str.spec_bytes()),
        0 <= r <= MAX_MONEY,
{
    let bytes = net_worth_str.as_bytes_vec();
    let mut t: Vec<u8> = Vec::new();
    let bn = bytes.len();
    let mut bi: usize = 0;
    while bi < bn
        invariant
            bn == bytes@.len(),
            bi <= bn,
            t@ == spec_strip_money_marks(bytes@.take(bi as int)),
        decreases bn - bi,
    {
        let b = bytes[bi];
        proof {
            assert(bytes@.take(bi as int + 1).drop_last() =~= bytes@.take(bi as int));
            assert(bytes@.take(bi as int + 1).last() == bytes@[bi as int]);
        }
        if b != 36 && b != 66 {
            t.push(b);
        }
        bi = bi + 1;
    }
    proof {
        assert(bytes@.take(bn as int) =~= bytes@);
    }
    let ghost stripped = t@;
    let n = t.len();
    let mut dot: usize = 0;
    while dot < n && t[dot] != 46
        invariant
            n == t@.len(),
            dot <= n,
            forall|j: int| 0 <= j < dot ==> t@[j] != 46,
        decreases n - dot,
    {
        dot = dot + 1;
    }
    proof {
        lemma_find_dot_at(t@, dot as int);
    }
    if n == 0 {
        return 0;
    }
    if dot > 5 {
        return 0;
    }
    let mut ok: bool = true;
    let mut j: usize = 0;
    while j < dot
        invariant
            n == t@.len(),
            dot <= n,
            j <= dot,
            ok <==> (forall|p: int| 0 <= p < j ==> spec_is_digit(#[trigger] t@[p])),
        decreases dot - j,
    {
        let b = t[j];
        if !(48 <= b && b <= 57) {
            ok = false;
        }
        j = j + 1;
    }
    if !ok {
        proof {
            let p = choose|p: int| 0 <= p < dot && !spec_is_digit(#[trigger] t@[p]);
            assert(stripped.take(dot as int)[p] == t@[p]);
            assert(!spec_all_digits(stripped.take(dot as int)));
        }
        return 0;
    }
    let flen: usize = if dot < n {
        n - dot - 1
    } else {
        0
    };
    let ghost fp: Seq<u8> = if (dot as int) < stripped.len() {
        stripped.skip(dot as int + 1)
    } else {
        Seq::empty()
    };
    let mut fok: bool = true;
    let mut k: usize = 0;
    while k < flen
        invariant
            n == t@.len(),
            dot < n || flen == 0,
            flen == (if dot < n {
                n - dot - 1
            } else {
                0
            }),
            k <= flen,
            fp == (if (dot as int) < t@.len() {
                t@.skip(dot as int + 1)
            } else {
                Seq::<u8>::empty()
            }),
            fp.len() == flen,
            fok <==> (forall|p: int| 0 <= p < k ==> spec_is_digit(#[trigger] fp[p])),
        decreases flen - k,
    {
        let b = t[dot + 1 + k];
        proof {
            assert(fp[k as int] == t@[dot as int + 1 + k as int]);
        }
        if !(48 <= b && b <= 57) {
            fok = false;
        }
        k = k + 1;
    }
    if !fok {
        proof {
            assert(!spec_all_digits(fp));
        }
        return 0;
    }
    if dot == 0 && flen == 0 {
        return 0;
    }
    proof {
        assert(spec_all_digits(stripped.take(dot as int)));
        assert(spec_all_digits(fp));
        assert(spec_valid_decimal(stripped));
    }
    let ghost ip = stripped.take(dot as int);
    let mut acc: i64 = 0;
    let mut j2: usize = 0;
    while j2 < dot
        invariant
            n == t@.len(),
            dot <= n,
            dot <= 5,
            j2 <= dot,
            ip == t@.take(dot as int),
            spec_all_digits(ip),
            acc == spec_digits_value(ip.take(j2 as int)),
            0 <= acc < spec_pow10(j2 as nat),
            acc <= 99999,
        decreases dot - j2,
    {
        let b = t[j2];
        proof {
            assert(ip.take(j2 as int + 1).drop_last() =~= ip.take(j2 as int));
            assert(ip.take(j2 as int + 1).last() == ip[j2 as int]);
            assert(ip[j2 as int] == t@[j2 as int]);
            assert(spec_is_digit(ip[j2 as int]));
            lemma_digits_value_bound(ip.take(j2 as int + 1));
            reveal_with_fuel(spec_pow10, 7);
            assert(spec_pow10((j2 + 1) as nat) <= 100000);
        }
        acc = acc * 10 + ((b - 48) as i64);
        j2 = j2 + 1;
    }
    let mut facc: i64 = 0;
    let mut k2: usize = flen;
    while k2 > 0
        invariant
            n == t@.len(),
            dot < n || flen == 0,
            flen == (if dot < n {
                n - dot - 1
            } else {
                0
            }),
            k2 <= flen,
            fp == (if (dot as int) < t@.len() {
                t@.skip(dot as int + 1)
            } else {
                Seq::<u8>::empty()
            }),
            fp.len() == flen,
            spec_all_digits(fp),
            facc == spec_frac_ticks(fp.skip(k2 as int)),
            0 <= facc < BILLION,
        decreases k2,
    {
        k2 = k2 - 1;
        let b = t[dot + 1 + k2];
        proof {
            assert(fp.skip(k2 as int).first() == fp[k2 as int]);
            assert(fp.skip(k2 as int).drop_first() =~= fp.skip(k2 as int + 1));
            assert(fp[k2 as int] == t@[dot as int + 1 + k2 as int]);
            assert(spec_is_digit(fp[k2 as int]));
            assert(spec_all_digits(fp.skip(k2 as int))) by {
                assert forall|p: int| 0 <= p < fp.skip(k2 as int).len() implies spec_is_digit(
                    #[trigger] fp.skip(k2 as int)[p],
                ) by {
                    assert(fp.skip(k2 as int)[p] == fp[k2 as int + p]);
                }
            }
            lemma_frac_ticks_bound(fp.skip(k2 as int));
        }
        facc = (((b - 48) as i64) * BILLION + facc) / 10;
    }
    proof {
        assert(fp.skip(0) =~= fp);
        assert(ip.take(dot as int) =~= ip);
        assert(acc * (BILLION as int) <= 99999 * (BILLION as int)) by (nonlinear_arith)
            requires
                0 <= acc <= 99999,
        ;
        assert(acc * (BILLION as int) >= 0) by (nonlinear_arith)
            requires
                acc >= 0,
        ;
    }
    let result: i64 = acc * BILLION + facc;
    result
}

/// Every emitted wealth-change event satisfies the materiality threshold
/// over its own fields: the absolute change exceeds one billion, or the
/// change exceeds one percent of the previous value (any nonzero change
/// when the previous value is zero).
pub proof fn lemma_wealth_event_material(previous: int, new_worth: int)
    requires
        spec_significant_change(previous, new_worth),
    ensures
        spec_abs(new_worth - previous) > BILLION || (previous != 0 && 100 * spec_abs(
            new_worth - previous,
        ) > spec_abs(previous)) || (previous == 0 && new_worth != previous),
{
}

} // verus!
