//! Fixed-point money.
//!
//! One unit of the reference currency is `MONEY_SCALE` ticks; every amount,
//! price and valuation in the engine is an `i64` number of ticks. Ownership
//! fractions are scaled by `STAKE_SCALE` (so `STAKE_SCALE` means the whole),
//! exchange rates by `RATE_SCALE`, and percentages by `PCT_SCALE`
//! (so a stored value of `PCT_SCALE` means one percent).

use vstd::prelude::*;

verus! {

/// Ticks per unit of the reference currency.
pub const MONEY_SCALE: i64 = 10_000;

/// Scale of ownership fractions: `STAKE_SCALE` stands for a fraction of 1.
pub const STAKE_SCALE: i64 = 10_000;

/// Scale of exchange rates: a rate of `RATE_SCALE` converts one to one.
pub const RATE_SCALE: i64 = 1_000_000;

/// Scale of percentages: a stored value of `PCT_SCALE` means one percent.
pub const PCT_SCALE: i64 = 100;

/// One billion reference-currency units, in ticks.
pub const BILLION: i64 = 10_000_000_000_000;

/// Largest amount the engine works with, in ticks. Keeping every amount
/// below this bound keeps every product taken in the valuator inside `u128`.
pub const MAX_MONEY: i64 = 1_000_000_000_000_000_000;

/// Largest share count of a single public-equity position.
pub const MAX_SHARES: u64 = 1_000_000_000_000;

/// Largest exchange-rate multiplier, scaled by `RATE_SCALE`.
pub const MAX_RATE: i64 = 1_000_000_000_000;

/// Whether an amount lies in the engine's range.
pub fn money_in_range(v: i64) -> (r: bool)
    ensures
        r == (0 <= v <= MAX_MONEY),
{
    0 <= v && v <= MAX_MONEY
}

} // verus!
