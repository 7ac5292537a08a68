//! The price cache: the latest known quote per instrument symbol.
//!
//! The cache is a concurrent hash map from dashmap; newer observations
//! overwrite older ones by arrival order. The engine reads it through a
//! small verified wrapper type whose model is a finite map from symbol
//! to quote.

use crate::money::MAX_MONEY;
use vstd::prelude::*;

verus! {

/// The latest known price data of one symbol. `price` and `change` are in
/// ticks, `change_percent` is scaled by `PCT_SCALE`, and `timestamp` is the
/// observation time in epoch seconds.
#[derive(Debug, Clone)]
pub struct StockPrice {
    pub symbol: String,
    pub price: i64,
    pub change: i64,
    pub change_percent: i64,
    pub timestamp: i64,
}

/// A quote the valuator can consume: a price that is not negative and not
/// beyond the largest amount the engine works with.
pub open spec fn wf_quote(q: StockPrice) -> bool {
    0 <= q.price <= MAX_MONEY
}

/// dashmap's concurrent hash map, which backs the price cache.
#[verifier::external_type_specification]
#[verifier::external_body]
#[verifier::reject_recursive_types(K)]
#[verifier::reject_recursive_types(V)]
#[verifier::reject_recursive_types(S)]
pub struct ExDashMap<K, V, S>(dashmap::DashMap<K, V, S>);

/// What a quote map holds: the bindings from symbol to stored quote.
pub uninterp spec fn dashmap_quotes(m: dashmap::DashMap<String, StockPrice>) -> Map<Seq<char>, StockPrice>;

/// The empty quote map.
pub open spec fn empty_quotes() -> Map<Seq<char>, StockPrice> {
    Map::empty()
}

/// Relies on dashmap's `DashMap::new`: a fresh map holds no binding.
#[verifier::external_body]
fn dashmap_new() -> (r: dashmap::DashMap<String, StockPrice>)
    ensures
        dashmap_quotes(r) == empty_quotes(),
{
    dashmap::DashMap::new()
}

/// Relies on dashmap's `DashMap::insert`: stores the value under the key,
/// replacing any earlier binding of that key and touching no other.
#[verifier::external_body]
fn dashmap_insert(m: &mut dashmap::DashMap<String, StockPrice>, key: String, value: StockPrice)
    ensures
        dashmap_quotes(*final(m)) == dashmap_quotes(*old(m)).insert(key@, value),
{
    m.insert(key, value);
}

/// Relies on dashmap's `DashMap::get`: returns the value stored under the
/// key, or nothing when the key is unbound.
#[verifier::external_body]
fn dashmap_get(m: &dashmap::DashMap<String, StockPrice>, key: &String) -> (r: Option<StockPrice>)
    ensures
        match r {
            Some(q) => dashmap_quotes(*m).contains_key(key@) && q == dashmap_quotes(*m)[key@],
            None => !dashmap_quotes(*m).contains_key(key@),
        },
{
    m.get(key).map(|e| e.value().clone())
}

/// Relies on dashmap's `DashMap::len`: the number of bindings.
#[verifier::external_body]
fn dashmap_len(m: &dashmap::DashMap<String, StockPrice>) -> (r: usize)
    ensures
        dashmap_quotes(*m).dom().finite() ==> r == dashmap_quotes(*m).dom().len(),
{
    m.len()
}

/// The price cache: at most one quote per symbol, every stored quote
/// well formed.
pub struct PriceCache {
    map: dashmap::DashMap<String, StockPrice>,
}

impl PriceCache {
    /// The quotes held, keyed by symbol.
    pub closed spec fn quotes(self) -> Map<Seq<char>, StockPrice> {
        dashmap_quotes(self.map)
    }

    pub open spec fn wf(self) -> bool {
        &&& self.quotes().dom().finite()
        &&& forall|k: Seq<char>|
            self.quotes().dom().contains(k) ==> wf_quote(#[trigger] self.quotes()[k])
    }

    pub fn new() -> (r: PriceCache)
        ensures
            r.wf(),
            r.quotes() == empty_quotes(),
    {
        PriceCache { map: dashmap_new() }
    }

    /// Caches a quote under its symbol; last write wins.
    pub fn insert_quote(&mut self, q: StockPrice)
        requires
            old(self).wf(),
            wf_quote(q),
        ensures
            final(self).wf(),
            final(self).quotes() == old(self).quotes().insert(q.symbol@, q),
    {
        let ghost symbol_view = q.symbol@;
        let key = q.symbol.clone();
        dashmap_insert(&mut self.map, key, q);
        proof {
            assert forall|k: Seq<char>| self.quotes().dom().contains(k) implies wf_quote(
                #[trigger] self.quotes()[k],
            ) by {
                if k != symbol_view {
                    assert(old(self).quotes().dom().contains(k));
                }
            }
        }
    }

    /// The cached quote of a symbol, if any.
    pub fn get_quote(&self, symbol: &String) -> (r: Option<StockPrice>)
        ensures
            match r {
                Some(q) => self.quotes().contains_key(symbol@) && q == self.quotes()[symbol@],
                None => !self.quotes().contains_key(symbol@),
            },
    {
        dashmap_get(&self.map, symbol)
    }

    /// The number of cached quotes.
    pub fn quote_count(&self) -> (r: usize)
        requires
            self.wf(),
        ensures
            r == self.quotes().dom().len(),
    {
        dashmap_len(&self.map)
    }
}

} // verus!
