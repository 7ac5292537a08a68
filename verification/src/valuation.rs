//! The portfolio valuator.
//!
//! A subject's net worth is the sum of the contributions of its holdings,
//! in ticks of the reference currency: public equity contributes shares
//! times the cached price (zero when no quote is cached — valuation is
//! never blocked by a missing quote), a private stake contributes its
//! fraction of the entity valuation, real estate converts each property
//! through the exchange-rate table, crypto contributes amount times unit
//! price, and other assets contribute their flat value.

use crate::money::{MAX_MONEY, MAX_SHARES, MONEY_SCALE, STAKE_SCALE};
use crate::price_cache::{PriceCache, StockPrice};
use crate::rates::{spec_convert, ExchangeRateTable};
use vstd::prelude::*;

verus! {

/// One property of a real-estate bundle; `value` is in ticks of the named
/// currency.
#[derive(Debug, Clone)]
pub struct Property {
    pub name: String,
    pub location: String,
    pub value: i64,
    pub currency: String,
}

/// One crypto position; `amount` and `price_usd` are in ticks, the unit
/// price already reference-currency denominated.
#[derive(Debug, Clone)]
pub struct CryptoHolding {
    pub symbol: String,
    pub amount: i64,
    pub price_usd: i64,
}

/// One holding of a subject's portfolio. `stake` is an ownership fraction
/// scaled by `STAKE_SCALE`.
#[derive(Debug, Clone)]
pub enum AssetType {
    PublicStock { symbol: String, shares: u64 },
    PrivateEquity { company: String, stake: i64, valuation: i64 },
    RealEstate { properties: Vec<Property> },
    Cryptocurrency { holdings: Vec<CryptoHolding> },
    Other { description: String, value: i64 },
}

/// A subject's portfolio with its latest computed total.
#[derive(Debug, Clone)]
pub struct WealthProfile {
    pub name: String,
    pub assets: Vec<AssetType>,
    pub total_net_worth: i64,
    pub currency: String,
    pub last_updated: i64,
}

pub open spec fn wf_property(p: Property) -> bool {
    0 <= p.value <= MAX_MONEY
}

pub open spec fn wf_crypto(c: CryptoHolding) -> bool {
    &&& 0 <= c.amount <= MAX_MONEY
    &&& 0 <= c.price_usd <= MAX_MONEY
}

pub open spec fn wf_asset(a: AssetType) -> bool {
    match a {
        AssetType::PublicStock { shares, .. } => shares <= MAX_SHARES,
        AssetType::PrivateEquity { stake, valuation, .. } => 0 <= stake <= STAKE_SCALE && 0
            <= valuation <= MAX_MONEY,
        AssetType::RealEstate { properties } => forall|i: int|
            0 <= i < properties@.len() ==> wf_property(#[trigger] properties@[i]),
        AssetType::Cryptocurrency { holdings } => forall|i: int|
            0 <= i < holdings@.len() ==> wf_crypto(#[trigger] holdings@[i]),
        AssetType::Other { value, .. } => 0 <= value <= MAX_MONEY,
    }
}

pub open spec fn wf_assets(s: Seq<AssetType>) -> bool {
    forall|i: int| 0 <= i < s.len() ==> wf_asset(#[trigger] s[i])
}

/// The rates map holds only rates in range.
pub open spec fn rates_nonneg(m: Map<Seq<char>, i64>) -> bool {
    forall|k: Seq<char>| m.dom().contains(k) ==> 0 <= #[trigger] m[k]
}

/// The contribution of one real-estate property.
pub open spec fn spec_prop_value(p: Property, rates: Map<Seq<char>, i64>) -> int {
    spec_convert(p.value as int, p.currency@, rates)
}

/// The contribution of a real-estate bundle.
pub open spec fn spec_props_value(s: Seq<Property>, rates: Map<Seq<char>, i64>) -> int
    decreases s.len(),
{
    if s.len() == 0 {
        0
    } else {
        spec_props_value(s.drop_last(), rates) + spec_prop_value(s.last(), rates)
    }
}

/// The contribution of one crypto position.
pub open spec fn spec_crypto_one(c: CryptoHolding) -> int {
    ((c.amount as int) * (c.price_usd as int)) / (MONEY_SCALE as int)
}

/// The contribution of a crypto bundle.
pub open spec fn spec_crypto_value(s: Seq<CryptoHolding>) -> int
    decreases s.len(),
{
    if s.len() == 0 {
        0
    } else {
        spec_crypto_value(s.drop_last()) + spec_crypto_one(s.last())
    }
}

/// The contribution of one holding, given the cached quotes and rates.
pub open spec fn spec_asset_value(
    a: AssetType,
    prices: Map<Seq<char>, StockPrice>,
    rates: Map<Seq<char>, i64>,
) -> int {
    match a {
        AssetType::PublicStock { symbol, shares } => if prices.contains_key(symbol@) {
            (shares as int) * (prices[symbol@].price as int)
        } else {
            0
        },
        AssetType::PrivateEquity { stake, valuation, .. } => ((stake as int) * (valuation as int))
            / (STAKE_SCALE as int),
        AssetType::RealEstate { properties } => spec_props_value(properties@, rates),
        AssetType::Cryptocurrency { holdings } => spec_crypto_value(holdings@),
        AssetType::Other { value, .. } => value as int,
    }
}

/// A subject's total net worth: the sum of all contributions.
pub open spec fn spec_portfolio_value(
    s: Seq<AssetType>,
    prices: Map<Seq<char>, StockPrice>,
    rates: Map<Seq<char>, i64>,
) -> int
    decreases s.len(),
{
    if s.len() == 0 {
        0
    } else {
        spec_portfolio_value(s.drop_last(), prices, rates) + spec_asset_value(
            s.last(),
            prices,
            rates,
        )
    }
}

pub proof fn lemma_convert_nonneg(amount: int, currency: Seq<char>, rates: Map<Seq<char>, i64>)
    requires
        0 <= amount,
        rates_nonneg(rates),
    ensures
        spec_convert(amount, currency, rates) >= 0,
{
    if currency != crate::rates::spec_usd() && rates.contains_key(currency) {
        let r = rates[currency] as int;
        assert((amount * r) / (crate::money::RATE_SCALE as int) >= 0) by (nonlinear_arith)
            requires
                amount >= 0,
                r >= 0,
        ;
    }
}

pub proof fn lemma_props_value_nonneg(s: Seq<Property>, rates: Map<Seq<char>, i64>)
    requires
        forall|i: int| 0 <= i < s.len() ==> wf_property(#[trigger] s[i]),
        rates_nonneg(rates),
    ensures
        spec_props_value(s, rates) >= 0,
    decreases s.len(),
{
    if s.len() > 0 {
        lemma_props_value_nonneg(s.drop_last(), rates);
        lemma_convert_nonneg(s.last().value as int, s.last().currency@, rates);
    }
}

pub proof fn lemma_crypto_value_nonneg(s: Seq<CryptoHolding>)
    requires
        forall|i: int| 0 <= i < s.len() ==> wf_crypto(#[trigger] s[i]),
    ensures
        spec_crypto_value(s) >= 0,
    decreases s.len(),
{
    if s.len() > 0 {
        lemma_crypto_value_nonneg(s.drop_last());
        let c = s.last();
        assert(((c.amount as int) * (c.price_usd as int)) / (MONEY_SCALE as int) >= 0)
            by (nonlinear_arith)
            requires
                c.amount >= 0,
                c.price_usd >= 0,
        ;
    }
}

pub proof fn lemma_asset_value_nonneg(
    a: AssetType,
    prices: Map<Seq<char>, StockPrice>,
    rates: Map<Seq<char>, i64>,
)
    requires
        wf_asset(a),
        rates_nonneg(rates),
        forall|k: Seq<char>|
            prices.dom().contains(k) ==> crate::price_cache::wf_quote(#[trigger] prices[k]),
    ensures
        spec_asset_value(a, prices, rates) >= 0,
{
    match a {
        AssetType::PublicStock { symbol, shares } => {
            if prices.contains_key(symbol@) {
                let p = prices[symbol@].price as int;
                assert((shares as int) * p >= 0) by (nonlinear_arith)
                    requires
                        shares >= 0,
                        p >= 0,
                ;
            }
        },
        AssetType::PrivateEquity { stake, valuation, .. } => {
            assert(((stake as int) * (valuation as int)) / (STAKE_SCALE as int) >= 0)
                by (nonlinear_arith)
                requires
                    stake >= 0,
                    valuation >= 0,
            ;
        },
        AssetType::RealEstate { properties } => {
            lemma_props_value_nonneg(properties@, rates);
        },
        AssetType::Cryptocurrency { holdings } => {
            lemma_crypto_value_nonneg(holdings@);
        },
        AssetType::Other { .. } => {},
    }
}

pub proof fn lemma_portfolio_value_nonneg(
    s: Seq<AssetType>,
    prices: Map<Seq<char>, StockPrice>,
    rates: Map<Seq<char>, i64>,
)
    requires
        wf_assets(s),
        rates_nonneg(rates),
        forall|k: Seq<char>|
            prices.dom().contains(k) ==> crate::price_cache::wf_quote(#[trigger] prices[k]),
    ensures
        spec_portfolio_value(s, prices, rates) >= 0,
    decreases s.len(),
{
    if s.len() > 0 {
        lemma_portfolio_value_nonneg(s.drop_last(), prices, rates);
        lemma_asset_value_nonneg(s.last(), prices, rates);
    }
}

/// A prefix of the portfolio is worth no more than the whole.
pub proof fn lemma_portfolio_value_prefix(
    s: Seq<AssetType>,
    i: int,
    prices: Map<Seq<char>, StockPrice>,
    rates: Map<Seq<char>, i64>,
)
    requires
        wf_assets(s),
        rates_nonneg(rates),
        forall|k: Seq<char>|
            prices.dom().contains(k) ==> crate::price_cache::wf_quote(#[trigger] prices[k]),
        0 <= i <= s.len(),
    ensures
        spec_portfolio_value(s, prices, rates) >= spec_portfolio_value(s.take(i), prices, rates),
    decreases s.len(),
{
    if i == s.len() {
        assert(s.take(i) =~= s);
    } else {
        lemma_portfolio_value_prefix(s.drop_last(), i, prices, rates);
        assert(s.drop_last().take(i) =~= s.take(i));
        lemma_asset_value_nonneg(s.last(), prices, rates);
    }
}

/// Extending a prefix by one asset adds that asset's contribution.
pub proof fn lemma_portfolio_take_succ(
    s: Seq<AssetType>,
    i: int,
    prices: Map<Seq<char>, StockPrice>,
    rates: Map<Seq<char>, i64>,
)
    requires
        0 <= i < s.len(),
    ensures
        spec_portfolio_value(s.take(i + 1), prices, rates) == spec_portfolio_value(
            s.take(i),
            prices,
            rates,
        ) + spec_asset_value(s[i], prices, rates),
{
    assert(s.take(i + 1).drop_last() =~= s.take(i));
    assert(s.take(i + 1).last() == s[i]);
}

pub proof fn lemma_props_take_succ(s: Seq<Property>, i: int, rates: Map<Seq<char>, i64>)
    requires
        0 <= i < s.len(),
    ensures
        spec_props_value(s.take(i + 1), rates) == spec_props_value(s.take(i), rates)
            + spec_prop_value(s[i], rates),
{
    assert(s.take(i + 1).drop_last() =~= s.take(i));
    assert(s.take(i + 1).last() == s[i]);
}

pub proof fn lemma_props_value_prefix(s: Seq<Property>, i: int, rates: Map<Seq<char>, i64>)
    requires
        forall|j: int| 0 <= j < s.len() ==> wf_property(#[trigger] s[j]),
        rates_nonneg(rates),
        0 <= i <= s.len(),
    ensures
        spec_props_value(s, rates) >= spec_props_value(s.take(i), rates),
    decreases s.len(),
{
    if i == s.len() {
        assert(s.take(i) =~= s);
    } else {
        lemma_props_value_prefix(s.drop_last(), i, rates);
        assert(s.drop_last().take(i) =~= s.take(i));
        lemma_convert_nonneg(s.last().value as int, s.last().currency@, rates);
    }
}

pub proof fn lemma_crypto_take_succ(s: Seq<CryptoHolding>, i: int)
    requires
        0 <= i < s.len(),
    ensures
        spec_crypto_value(s.take(i + 1)) == spec_crypto_value(s.take(i)) + spec_crypto_one(s[i]),
{
    assert(s.take(i + 1).drop_last() =~= s.take(i));
    assert(s.take(i + 1).last() == s[i]);
}

pub proof fn lemma_crypto_value_prefix(s: Seq<CryptoHolding>, i: int)
    requires
        forall|j: int| 0 <= j < s.len() ==> wf_crypto(#[trigger] s[j]),
        0 <= i <= s.len(),
    ensures
        spec_crypto_value(s) >= spec_crypto_value(s.take(i)),
    decreases s.len(),
{
    if i == s.len() {
        assert(s.take(i) =~= s);
    } else {
        lemma_crypto_value_prefix(s.drop_last(), i);
        assert(s.drop_last().take(i) =~= s.take(i));
        let c = s.last();
        assert(((c.amount as int) * (c.price_usd as int)) / (MONEY_SCALE as int) >= 0)
            by (nonlinear_arith)
            requires
                c.amount >= 0,
                c.price_usd >= 0,
        ;
    }
}

/// The contribution of a real-estate bundle, or a report that it would
/// leave the engine's range.
fn props_value_checked(properties: &Vec<Property>, rates: &ExchangeRateTable) -> (r: Option<i64>)
    requires
        rates.wf(),
        forall|i: int| 0 <= i < properties@.len() ==> wf_property(#[trigger] properties@[i]),
    ensures
        match r {
            Some(v) => v == spec_props_value(properties@, rates.rates()) && 0 <= v <= MAX_MONEY,
            None => spec_props_value(properties@, rates.rates()) > MAX_MONEY,
        },
{
    let mut acc: i64 = 0;
    let n = properties.len();
    let mut i: usize = 0;
    while i < n
        invariant
            rates.wf(),
            forall|j: int| 0 <= j < properties@.len() ==> wf_property(#[trigger] properties@[j]),
            n == properties@.len(),
            i <= n,
            acc == spec_props_value(properties@.take(i as int), rates.rates()),
            0 <= acc <= MAX_MONEY,
        decreases n - i,
    {
        let p = &properties[i];
        match rates.convert_to_usd(p.value, &p.currency) {
            Some(v) => {
                proof {
                    lemma_props_take_succ(properties@, i as int, rates.rates());
                }
                if v > MAX_MONEY - acc {
                    proof {
                        lemma_props_value_prefix(properties@, i as int + 1, rates.rates());
                    }
                    return None;
                }
                acc = acc + v;
            },
            None => {
                proof {
                    lemma_props_take_succ(properties@, i as int, rates.rates());
                    lemma_props_value_prefix(properties@, i as int + 1, rates.rates());
                }
                return None;
            },
        }
        i = i + 1;
    }
    proof {
        assert(properties@.take(n as int) =~= properties@);
    }
    Some(acc)
}

/// The contribution of a crypto bundle, or a report that it would leave
/// the engine's range.
fn crypto_value_checked(holdings: &Vec<CryptoHolding>) -> (r: Option<i64>)
    requires
        forall|i: int| 0 <= i < holdings@.len() ==> wf_crypto(#[trigger] holdings@[i]),
    ensures
        match r {
            Some(v) => v == spec_crypto_value(holdings@) && 0 <= v <= MAX_MONEY,
            None => spec_crypto_value(holdings@) > MAX_MONEY,
        },
{
    let mut acc: i64 = 0;
    let n = holdings.len();
    let mut i: usize = 0;
    while i < n
        invariant
            forall|j: int| 0 <= j < holdings@.len() ==> wf_crypto(#[trigger] holdings@[j]),
            n == holdings@.len(),
            i <= n,
            acc == spec_crypto_value(holdings@.take(i as int)),
            0 <= acc <= MAX_MONEY,
        decreases n - i,
    {
        let c = &holdings[i];
        proof {
            assert(0 <= (c.amount as int) * (c.price_usd as int) <= (MAX_MONEY as int) * (
            MAX_MONEY as int)) by (nonlinear_arith)
                requires
                    0 <= c.amount <= MAX_MONEY,
                    0 <= c.price_usd <= MAX_MONEY,
            ;
        }
        let product: u128 = (c.amount as u128) * (c.price_usd as u128);
        let one: u128 = product / (MONEY_SCALE as u128);
        proof {
            assert(product == (c.amount as int) * (c.price_usd as int));
            assert(one == spec_crypto_one(holdings@[i as int]));
            lemma_crypto_take_succ(holdings@, i as int);
        }
        if one > (MAX_MONEY as u128) {
            proof {
                lemma_crypto_value_prefix(holdings@, i as int + 1);
            }
            return None;
        }
        let v: i64 = one as i64;
        if v > MAX_MONEY - acc {
            proof {
                lemma_crypto_value_prefix(holdings@, i as int + 1);
            }
            return None;
        }
        acc = acc + v;
        i = i + 1;
    }
    proof {
        assert(holdings@.take(n as int) =~= holdings@);
    }
    Some(acc)
}

/// The contribution of one holding, or a report that it would leave the
/// engine's range.
fn asset_value_checked(a: &AssetType, prices: &PriceCache, rates: &ExchangeRateTable) -> (r: Option<
    i64,
>)
    requires
        wf_asset(*a),
        prices.wf(),
        rates.wf(),
    ensures
        match r {
            Some(v) => v == spec_asset_value(*a, prices.quotes(), rates.rates()) && 0 <= v
                <= MAX_MONEY,
            None => spec_asset_value(*a, prices.quotes(), rates.rates()) > MAX_MONEY,
        },
{
    match a {
        AssetType::PublicStock { symbol, shares } => {
            match prices.get_quote(symbol) {
                Some(q) => {
                    proof {
                        assert(crate::price_cache::wf_quote(prices.quotes()[symbol@]));
                        assert(0 <= (*shares as int) * (q.price as int) <= (MAX_SHARES as int) * (
                        MAX_MONEY as int)) by (nonlinear_arith)
                            requires
                                0 <= *shares <= MAX_SHARES,
                                0 <= q.price <= MAX_MONEY,
                        ;
                    }
                    let product: u128 = (*shares as u128) * (q.price as u128);
                    proof {
                        assert(product == (*shares as int) * (q.price as int));
                    }
                    if product > (MAX_MONEY as u128) {
                        None
                    } else {
                        Some(product as i64)
                    }
                },
                None => Some(0),
            }
        },
        AssetType::PrivateEquity { stake, valuation, .. } => {
            proof {
                assert(0 <= (*stake as int) * (*valuation as int) <= (STAKE_SCALE as int) * (
                MAX_MONEY as int)) by (nonlinear_arith)
                    requires
                        0 <= *stake <= STAKE_SCALE,
                        0 <= *valuation <= MAX_MONEY,
                ;
            }
            let product: u128 = (*stake as u128) * (*valuation as u128);
            let one: u128 = product / (STAKE_SCALE as u128);
            proof {
                assert(product == (*stake as int) * (*valuation as int));
                assert(one == ((*stake as int) * (*valuation as int)) / (STAKE_SCALE as int));
            }
            if one > (MAX_MONEY as u128) {
                None
            } else {
                Some(one as i64)
            }
        },
        AssetType::RealEstate { properties } => props_value_checked(properties, rates),
        AssetType::Cryptocurrency { holdings } => crypto_value_checked(holdings),
        AssetType::Other { value, .. } => Some(*value),
    }
}

/// Computes a subject's total net worth from its holdings, the price
/// cache and the exchange-rate table. Returns the exact sum of all
/// contributions, or nothing exactly when that sum would leave the
/// engine's range. Missing quotes contribute zero; no input is rejected.
pub fn calculate_net_worth(
    assets: &Vec<AssetType>,
    prices: &PriceCache,
    rates: &ExchangeRateTable,
) -> (r: Option<i64>)
    requires
        wf_assets(assets@),
        prices.wf(),
        rates.wf(),
    ensures
        match r {
            Some(v) => v == spec_portfolio_value(assets@, prices.quotes(), rates.rates()) && 0 <= v
                <= MAX_MONEY,
            None => spec_portfolio_value(assets@, prices.quotes(), rates.rates()) > MAX_MONEY,
        },
{
    let mut acc: i64 = 0;
    let n = assets.len();
    let mut i: usize = 0;
    while i < n
        invariant
            wf_assets(assets@),
            prices.wf(),
            rates.wf(),
            n == assets@.len(),
            i <= n,
            acc == spec_portfolio_value(assets@.take(i as int), prices.quotes(), rates.rates()),
            0 <= acc <= MAX_MONEY,
        decreases n - i,
    {
        let a = &assets[i];
        match asset_value_checked(a, prices, rates) {
            Some(v) => {
                proof {
                    lemma_portfolio_take_succ(assets@, i as int, prices.quotes(), rates.rates());
                }
                if v > MAX_MONEY - acc {
                    proof {
                        lemma_portfolio_value_prefix(
                            assets@,
                            i as int + 1,
                            prices.quotes(),
                            rates.rates(),
                        );
                    }
                    return None;
                }
                acc = acc + v;
            },
            None => {
                proof {
                    lemma_portfolio_take_succ(assets@, i as int, prices.quotes(), rates.rates());
                    lemma_portfolio_value_prefix(
                        assets@,
                        i as int + 1,
                        prices.quotes(),
                        rates.rates(),
                    );
                }
                return None;
            },
        }
        i = i + 1;
    }
    proof {
        assert(assets@.take(n as int) =~= assets@);
    }
    Some(acc)
}

/// Whether a holding is a public-equity position on a symbol with a
/// cached price.
pub open spec fn spec_holds_cached_symbol(a: AssetType, prices: Map<Seq<char>, StockPrice>) -> bool {
    match a {
        AssetType::PublicStock { symbol, .. } => prices.contains_key(symbol@),
        _ => false,
    }
}

/// For a portfolio in which no holding references a symbol with a cached
/// price, the valuation equals the valuation against an empty price
/// cache: the sum of the non-market contributions. Missing quotes
/// contribute zero, never an error.
pub proof fn lemma_missing_quotes_contribute_zero(
    s: Seq<AssetType>,
    prices: Map<Seq<char>, StockPrice>,
    rates: Map<Seq<char>, i64>,
)
    requires
        forall|i: int| 0 <= i < s.len() ==> !spec_holds_cached_symbol(#[trigger] s[i], prices),
    ensures
        spec_portfolio_value(s, prices, rates) == spec_portfolio_value(
            s,
            crate::price_cache::empty_quotes(),
            rates,
        ),
    decreases s.len(),
{
    if s.len() > 0 {
        lemma_missing_quotes_contribute_zero(s.drop_last(), prices, rates);
        assert(spec_asset_value(s.last(), prices, rates) == spec_asset_value(
            s.last(),
            crate::price_cache::empty_quotes(),
            rates,
        ));
    }
}

} // verus!
