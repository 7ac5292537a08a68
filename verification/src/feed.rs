//! The price feed aggregator.
//!
//! External price sources are polled per symbol in a fixed priority
//! order; the first source that answers wins, its quote is cached, and a
//! market update naming the affected subjects is broadcast. When every
//! source fails the cache keeps its stale quote: stale data is preferred
//! over no data. The set of tracked symbols is the union of the symbols
//! held by subjects and the symbols subscribers filter on, and requests
//! are paced in small batches.

use crate::errors::AppError;
use crate::events::UpdateMessage;
use crate::money::MAX_MONEY;
use crate::monitor::{is_significant_change, percent_change, spec_percent_change,
    spec_significant_change};
use crate::registry::spec_dispatch_attempts;
use crate::price_cache::{wf_quote, PriceCache, StockPrice};
use crate::registry::{wf_positions, RealtimeState, StockPosition};
use crate::strutil::{name_views, seq_has_str, vec_contains_string};
use vstd::prelude::*;
use vstd::string::StringExecFns;

verus! {

/// Relies on chrono's `Utc::now`: the clock's current reading, of which
/// nothing can be promised. chrono aborts when the host clock cannot be
/// read as a time after the Unix epoch; that is environmental, not a
/// function of any input.
#[verifier::external_body]
pub fn now_epoch_seconds() -> i64 {
    chrono::Utc::now().timestamp()
}

/// Builds a quote from a source's price and previous close: the change is
/// their difference and the percent change is relative to the previous
/// close.
pub fn make_stock_price(symbol: String, price: i64, previous_close: i64, timestamp: i64) -> (r:
    StockPrice)
    requires
        0 <= price <= MAX_MONEY,
        0 <= previous_close <= MAX_MONEY,
    ensures
        r.symbol@ == symbol@,
        r.price == price,
        r.change == price - previous_close,
        r.change_percent == spec_percent_change(previous_close as int, price as int),
        r.timestamp == timestamp,
        wf_quote(r),
{
    let change_percent = percent_change(previous_close, price);
    StockPrice { symbol, price, change: price - previous_close, change_percent, timestamp }
}

/// The index of the first successful outcome, or the length when every
/// source failed.
pub open spec fn spec_first_success(s: Seq<Option<StockPrice>>) -> int
    decreases s.len(),
{
    if s.len() == 0 {
        0
    } else if s.first() is Some {
        0
    } else {
        1 + spec_first_success(s.drop_first())
    }
}

/// The first success comes after failures only, and points at a success
/// when one exists.
pub proof fn lemma_first_success(s: Seq<Option<StockPrice>>)
    ensures
        0 <= spec_first_success(s) <= s.len(),
        spec_first_success(s) < s.len() ==> s[spec_first_success(s)] is Some,
        forall|j: int| 0 <= j < spec_first_success(s) ==> s[j] is None,
    decreases s.len(),
{
    if s.len() > 0 && s.first() is None {
        lemma_first_success(s.drop_first());
        assert forall|j: int| 0 <= j < spec_first_success(s) implies s[j] is None by {
            if j > 0 {
                assert(s.drop_first()[j - 1] is None);
            }
        }
        if spec_first_success(s) < s.len() {
            assert(s[spec_first_success(s)] == s.drop_first()[spec_first_success(s) - 1]);
        }
    }
}

/// Whether some position is on the given symbol.
pub open spec fn spec_holds_symbol(positions: Seq<StockPosition>, sym: Seq<char>) -> bool {
    exists|i: int| 0 <= i < positions.len() && positions[i].symbol@ == sym
}

/// Whether any position of `v` is on `sym`, decided at run time.
pub fn positions_contain_symbol(v: &Vec<StockPosition>, sym: &String) -> (r: bool)
    ensures
        r == spec_holds_symbol(v@, sym@),
{
    let n = v.len();
    let mut i: usize = 0;
    while i < n
        invariant
            n == v@.len(),
            i <= n,
            forall|j: int| 0 <= j < i ==> v@[j].symbol@ != sym@,
        decreases n - i,
    {
        if v[i].symbol == *sym {
            return true;
        }
        i = i + 1;
    }
    false
}

/// The subjects whose holdings reference a symbol: exactly those entries
/// of the holdings map with a position on it, each named once.
pub fn affected_subjects_of_symbol(state: &RealtimeState, symbol: &String) -> (r: Vec<String>)
    requires
        state.wf(),
    ensures
        forall|t: int|
            0 <= t < r@.len() ==> state.holdings.holdings@.contains_key(#[trigger] r@[t]@)
                && spec_holds_symbol(state.holdings.holdings@[r@[t]@]@, symbol@),
        forall|k: Seq<char>|
            state.holdings.holdings@.contains_key(k) && spec_holds_symbol(
                state.holdings.holdings@[k]@,
                symbol@,
            ) ==> seq_has_str(name_views(r@), k),
{
    let mut out: Vec<String> = Vec::new();
    let ghost entries = state.holdings.holdings.entries_seq();
    let n = state.holdings.holdings.len();
    let mut i: usize = 0;
    while i < n
        invariant
            state.wf(),
            entries == state.holdings.holdings.entries_seq(),
            n == entries.len(),
            i <= n,
            forall|t: int|
                0 <= t < out@.len() ==> state.holdings.holdings@.contains_key(#[trigger] out@[t]@)
                    && spec_holds_symbol(state.holdings.holdings@[out@[t]@]@, symbol@),
            forall|j: int|
                0 <= j < i && spec_holds_symbol((#[trigger] entries[j]).1@, symbol@)
                    ==> seq_has_str(name_views(out@), entries[j].0@),
        decreases n - i,
    {
        let entry = state.holdings.holdings.entry_at(i);
        proof {
            state.holdings.holdings.lemma_entry_in_model(i as int);
        }
        if positions_contain_symbol(&entry.1, symbol) {
            let ghost pre = out@;
            out.push(entry.0.clone());
            proof {
                assert(out@[pre.len() as int]@ == entries[i as int].0@);
                assert(name_views(out@)[pre.len() as int] == entries[i as int].0@);
                assert forall|j: int|
                    0 <= j < i + 1 && spec_holds_symbol(
                        (#[trigger] entries[j]).1@,
                        symbol@,
                    ) implies seq_has_str(name_views(out@), entries[j].0@) by {
                    if j < i {
                        let t = choose|t: int|
                            0 <= t < name_views(pre).len() && name_views(pre)[t] == entries[j].0@;
                        assert(name_views(out@)[t] == entries[j].0@);
                    }
                }
            }
        }
        i = i + 1;
    }
    proof {
        assert forall|k: Seq<char>|
            state.holdings.holdings@.contains_key(k) && spec_holds_symbol(
                state.holdings.holdings@[k]@,
                symbol@,
            ) implies seq_has_str(name_views(out@), k) by {
            state.holdings.holdings.lemma_model_in_entries(k);
            let j = choose|j: int| 0 <= j < entries.len() && entries[j].0@ == k;
            state.holdings.holdings.lemma_entry_in_model(j);
            assert(entries[j].1 == state.holdings.holdings@[k]);
            assert(spec_holds_symbol(entries[j].1@, symbol@));
        }
    }
    out
}

/// A market update built exactly from a quote: it carries the quote's
/// symbol, price and change, and its affected list names exactly the
/// subjects whose holdings reference the symbol.
pub open spec fn spec_stock_update_for(
    u: UpdateMessage,
    q: StockPrice,
    holdings: Map<Seq<char>, Vec<StockPosition>>,
) -> bool {
    match u {
        UpdateMessage::StockUpdate { symbol, price, change, affected_billionaires } => {
            &&& symbol@ == q.symbol@
            &&& price == q.price
            &&& change == q.change
            &&& forall|t: int|
                0 <= t < affected_billionaires@.len() ==> holdings.contains_key(
                    (#[trigger] affected_billionaires@[t])@,
                ) && spec_holds_symbol(holdings[affected_billionaires@[t]@]@, q.symbol@)
            &&& forall|k: Seq<char>|
                holdings.contains_key(k) && spec_holds_symbol(holdings[k]@, q.symbol@)
                    ==> seq_has_str(name_views(affected_billionaires@), k)
        },
        _ => false,
    }
}

/// Manages the multi-source price ingestion pipeline and its cache.
pub struct PriceFeedManager {
    pub price_cache: PriceCache,
}

impl PriceFeedManager {
    pub open spec fn wf(self) -> bool {
        self.price_cache.wf()
    }

    pub fn new() -> (r: PriceFeedManager)
        ensures
            r.wf(),
            r.price_cache.quotes() == crate::price_cache::empty_quotes(),
    {
        PriceFeedManager { price_cache: PriceCache::new() }
    }

    /// Broadcasts a market update for a fresh quote and returns the
    /// update beside the delivery attempts: the update carries the
    /// quote's symbol, price and change and names exactly the subjects
    /// whose holdings reference the symbol, and the attempts are the
    /// dispatch rule's — one per matching connection, covering all of
    /// them, none twice.
    pub fn broadcast_stock_update(&self, state: &RealtimeState, price: StockPrice) -> (r: (
        UpdateMessage,
        Vec<(String, bool)>,
    ))
        requires
            state.wf(),
        ensures
            spec_stock_update_for(r.0, price, state.holdings.holdings@),
            spec_dispatch_attempts(*state, r.0, r.1@),
    {
        let affected_billionaires = affected_subjects_of_symbol(state, &price.symbol);
        let update = UpdateMessage::StockUpdate {
            symbol: price.symbol,
            price: price.price,
            change: price.change,
            affected_billionaires,
        };
        let attempts = state.broadcast_update(&update);
        (update, attempts)
    }

    /// Applies the outcomes of polling the ordered sources for one
    /// symbol. The first successful quote is cached and broadcast, and
    /// the result returns that quote, the market update built from it,
    /// and the delivery attempts of its fan-out. When every source
    /// failed, the cache is untouched, nothing is returned to offer to
    /// any queue, and the failure is reported.
    pub fn update_stock_price(
        &mut self,
        state: &RealtimeState,
        symbol: &String,
        outcomes: &Vec<Option<StockPrice>>,
    ) -> (r: Result<(StockPrice, UpdateMessage, Vec<(String, bool)>), AppError>)
        requires
            old(self).wf(),
            state.wf(),
            forall|i: int|
                0 <= i < outcomes@.len() ==> ((#[trigger] outcomes@[i]) is Some ==> wf_quote(
                    outcomes@[i]->Some_0,
                )),
        ensures
            final(self).wf(),
            match r {
                Ok(out) => {
                    let i = spec_first_success(outcomes@);
                    &&& i < outcomes@.len()
                    &&& outcomes@[i] is Some
                    &&& out.0 == outcomes@[i]->Some_0
                    &&& forall|j: int| 0 <= j < i ==> outcomes@[j] is None
                    &&& final(self).price_cache.quotes() == old(self).price_cache.quotes().insert(
                        out.0.symbol@,
                        out.0,
                    )
                    &&& spec_stock_update_for(out.1, out.0, state.holdings.holdings@)
                    &&& spec_dispatch_attempts(*state, out.1, out.2@)
                },
                Err(e) => {
                    &&& forall|j: int| 0 <= j < outcomes@.len() ==> outcomes@[j] is None
                    &&& final(self).price_cache.quotes() == old(self).price_cache.quotes()
                    &&& e matches AppError::DataSourceUnavailable(m) && m@
                        == "All price feeds failed for "@ + symbol@
                },
            },
    {
        proof {
            lemma_first_success(outcomes@);
        }
        let n = outcomes.len();
        let mut i: usize = 0;
        while i < n
            invariant
                n == outcomes@.len(),
                i <= n,
                forall|j: int| 0 <= j < i ==> outcomes@[j] is None,
                old(self).wf(),
                *self == *old(self),
                state.wf(),
                forall|j: int|
                    0 <= j < outcomes@.len() ==> ((#[trigger] outcomes@[j]) is Some ==> wf_quote(
                        outcomes@[j]->Some_0,
                    )),
            decreases n - i,
        {
            match &outcomes[i] {
                Some(q) => {
                    proof {
                        lemma_first_success(outcomes@);
                        assert(spec_first_success(outcomes@) == i) by {
                            if spec_first_success(outcomes@) < i {
                                assert(outcomes@[spec_first_success(outcomes@)] is None);
                            }
                            if spec_first_success(outcomes@) > i {
                                assert(outcomes@[i as int] is None);
                            }
                        }
                    }
                    let quote = q.clone_quote();
                    self.price_cache.insert_quote(quote);
                    let fanout = self.broadcast_stock_update(state, q.clone_quote());
                    return Ok((q.clone_quote(), fanout.0, fanout.1));
                },
                None => {},
            }
            i = i + 1;
        }
        let mut m = String::from_str("All price feeds failed for ");
        m.append(symbol.as_str());
        Err(AppError::DataSourceUnavailable(m))
    }
}

impl StockPrice {
    /// A field-for-field copy of the quote.
    pub fn clone_quote(&self) -> (r: StockPrice)
        ensures
            r == *self,
    {
        StockPrice {
            symbol: self.symbol.clone(),
            price: self.price,
            change: self.change,
            change_percent: self.change_percent,
            timestamp: self.timestamp,
        }
    }
}

/// The views of a list of batches.
pub open spec fn chunk_views(s: Seq<Vec<String>>) -> Seq<Seq<String>> {
    s.map_values(|c: Vec<String>| c@)
}

/// The concatenation of a list of batches.
pub open spec fn spec_concat(s: Seq<Seq<String>>) -> Seq<String>
    decreases s.len(),
{
    if s.len() == 0 {
        Seq::empty()
    } else {
        spec_concat(s.drop_last()) + s.last()
    }
}

/// Splits the tracked symbols into batches of at most `size`, in order:
/// request pacing sends one batch, waits, and sends the next. Every batch
/// but the last is full, and the batches concatenate back to the input.
pub fn plan_batches(symbols: &Vec<String>, size: usize) -> (r: Vec<Vec<String>>)
    requires
        size > 0,
    ensures
        forall|i: int| 0 <= i < r@.len() ==> (#[trigger] r@[i])@.len() <= size,
        forall|i: int| 0 <= i < r@.len() - 1 ==> (#[trigger] r@[i])@.len() == size,
        spec_concat(chunk_views(r@)) == symbols@,
        r@.len() == 0 <==> symbols@.len() == 0,
{
    let mut out: Vec<Vec<String>> = Vec::new();
    let mut start: usize = 0;
    let n = symbols.len();
    proof {
        assert(chunk_views(out@) =~= Seq::<Seq<String>>::empty());
        assert(spec_concat(chunk_views(out@)) =~= symbols@.take(0));
    }
    while start < n
        invariant
            n == symbols@.len(),
            start <= n,
            size > 0,
            start > 0 ==> out@.len() > 0,
            forall|i: int| 0 <= i < out@.len() ==> (#[trigger] out@[i])@.len() == size,
            spec_concat(chunk_views(out@)) == symbols@.take(start as int),
        decreases n - start,
    {
        let mut chunk: Vec<String> = Vec::new();
        let mut j: usize = 0;
        while j < size && start + j < n
            invariant
                n == symbols@.len(),
                j <= size,
                start + j <= n,
                start < n,
                chunk@.len() == j,
                chunk@ =~= symbols@.subrange(start as int, start as int + j),
            decreases size - j,
        {
            chunk.push(symbols[start + j].clone());
            proof {
                assert(chunk@ =~= symbols@.subrange(start as int, start as int + j + 1));
            }
            j = j + 1;
        }
        let consumed = j;
        let ghost pre = out@;
        let ghost chunk_snapshot = chunk@;
        out.push(chunk);
        proof {
            assert(chunk_views(out@).drop_last() =~= chunk_views(pre));
            assert(chunk_views(out@).last() == chunk_snapshot);
            assert(spec_concat(chunk_views(out@)) == spec_concat(chunk_views(pre))
                + chunk_snapshot);
            assert(symbols@.take(start as int + consumed) =~= symbols@.take(start as int)
                + symbols@.subrange(start as int, start as int + consumed));
            assert(spec_concat(chunk_views(out@)) =~= symbols@.take(start as int + consumed));
        }
        if consumed < size {
            proof {
                assert(start + consumed == n);
                assert(symbols@.take(n as int) =~= symbols@);
                assert forall|i: int| 0 <= i < out@.len() - 1 implies (#[trigger] out@[i])@.len()
                    == size by {
                    assert(out@[i] == pre[i]);
                }
                assert forall|i: int| 0 <= i < out@.len() implies (#[trigger] out@[i])@.len()
                    <= size by {
                    if i < out@.len() - 1 {
                        assert(out@[i] == pre[i]);
                    }
                }
            }
            return out;
        }
        start = start + size;
    }
    proof {
        assert(symbols@.take(n as int) =~= symbols@);
    }
    out
}

/// Whether a symbol needs tracking: some subject holds it, or some
/// subscriber filters on it.
pub open spec fn spec_tracked_symbol(state: RealtimeState, sym: Seq<char>) -> bool {
    ||| exists|k: Seq<char>|
        #[trigger] state.holdings.holdings@.contains_key(k) && spec_holds_symbol(
            state.holdings.holdings@[k]@,
            sym,
        )
    ||| exists|k: Seq<char>|
        #[trigger] state.subscriptions@.contains_key(k) && seq_has_str(
            name_views(state.subscriptions@[k].symbols@),
            sym,
        )
}

/// The contribution of one position at its last recorded price; symbols
/// without a cached quote are left out of the comparison.
pub open spec fn spec_prev_position_value(p: StockPosition, prices: Map<
    Seq<char>,
    StockPrice,
>) -> int {
    if prices.contains_key(p.symbol@) {
        (p.shares as int) * (p.last_price as int)
    } else {
        0
    }
}

/// The contribution of one position at the cached price.
pub open spec fn spec_new_position_value(p: StockPosition, prices: Map<
    Seq<char>,
    StockPrice,
>) -> int {
    if prices.contains_key(p.symbol@) {
        (p.shares as int) * (prices[p.symbol@].price as int)
    } else {
        0
    }
}

/// A subject's position value at the last recorded prices.
pub open spec fn spec_prev_total(s: Seq<StockPosition>, prices: Map<Seq<char>, StockPrice>) -> int
    decreases s.len(),
{
    if s.len() == 0 {
        0
    } else {
        spec_prev_total(s.drop_last(), prices) + spec_prev_position_value(s.last(), prices)
    }
}

/// A subject's position value at the cached prices.
pub open spec fn spec_new_total(s: Seq<StockPosition>, prices: Map<Seq<char>, StockPrice>) -> int
    decreases s.len(),
{
    if s.len() == 0 {
        0
    } else {
        spec_new_total(s.drop_last(), prices) + spec_new_position_value(s.last(), prices)
    }
}

proof fn lemma_totals_take_succ(s: Seq<StockPosition>, i: int, prices: Map<Seq<char>, StockPrice>)
    requires
        0 <= i < s.len(),
    ensures
        spec_prev_total(s.take(i + 1), prices) == spec_prev_total(s.take(i), prices)
            + spec_prev_position_value(s[i], prices),
        spec_new_total(s.take(i + 1), prices) == spec_new_total(s.take(i), prices)
            + spec_new_position_value(s[i], prices),
{
    assert(s.take(i + 1).drop_last() =~= s.take(i));
    assert(s.take(i + 1).last() == s[i]);
}

/// A prefix of the positions is worth no more than the whole, under
/// either pricing.
proof fn lemma_totals_prefix(s: Seq<StockPosition>, i: int, prices: Map<Seq<char>, StockPrice>)
    requires
        wf_positions(s),
        forall|k: Seq<char>|
            prices.dom().contains(k) ==> crate::price_cache::wf_quote(#[trigger] prices[k]),
        0 <= i <= s.len(),
    ensures
        spec_prev_total(s, prices) >= spec_prev_total(s.take(i), prices),
        spec_new_total(s, prices) >= spec_new_total(s.take(i), prices),
    decreases s.len(),
{
    if i == s.len() {
        assert(s.take(i) =~= s);
    } else {
        lemma_totals_prefix(s.drop_last(), i, prices);
        assert(s.drop_last().take(i) =~= s.take(i));
        let p = s.last();
        assert((p.shares as int) * (p.last_price as int) >= 0) by (nonlinear_arith)
            requires
                p.shares >= 0,
                p.last_price >= 0,
        ;
        if prices.contains_key(p.symbol@) {
            let pr = prices[p.symbol@].price as int;
            assert((p.shares as int) * pr >= 0) by (nonlinear_arith)
                requires
                    p.shares >= 0,
                    pr >= 0,
            ;
        }
    }
}

/// The wealth events one feed cycle owes, in holdings order: for each
/// subject whose totals at the last recorded and at the cached prices are
/// within the engine's range and materially different, one
/// (name, previous, new) triple.
pub open spec fn spec_feed_events(
    s: Seq<(String, Vec<StockPosition>)>,
    quotes: Map<Seq<char>, StockPrice>,
) -> Seq<(Seq<char>, int, int)>
    decreases s.len(),
{
    if s.len() == 0 {
        Seq::empty()
    } else {
        let r = spec_feed_events(s.drop_last(), quotes);
        let prev = spec_prev_total(s.last().1@, quotes);
        let fresh = spec_new_total(s.last().1@, quotes);
        if 0 <= prev <= MAX_MONEY && 0 <= fresh <= MAX_MONEY && spec_significant_change(
            prev,
            fresh,
        ) {
            r.push((s.last().0@, prev, fresh))
        } else {
            r
        }
    }
}

/// Both running totals of one subject's positions, or a report that one
/// of them leaves the engine's range — exactly then.
fn position_totals(positions: &Vec<StockPosition>, cache: &PriceCache) -> (r: Option<(i64, i64)>)
    requires
        wf_positions(positions@),
        cache.wf(),
    ensures
        match r {
            Some(t) => t.0 == spec_prev_total(positions@, cache.quotes()) && t.1 == spec_new_total(
                positions@,
                cache.quotes(),
            ) && 0 <= t.0 <= MAX_MONEY && 0 <= t.1 <= MAX_MONEY,
            None => spec_prev_total(positions@, cache.quotes()) > MAX_MONEY || spec_new_total(
                positions@,
                cache.quotes(),
            ) > MAX_MONEY,
        },
{
    let mut prev: i64 = 0;
    let mut fresh: i64 = 0;
    let n = positions.len();
    let mut i: usize = 0;
    while i < n
        invariant
            wf_positions(positions@),
            cache.wf(),
            n == positions@.len(),
            i <= n,
            prev == spec_prev_total(positions@.take(i as int), cache.quotes()),
            fresh == spec_new_total(positions@.take(i as int), cache.quotes()),
            0 <= prev <= MAX_MONEY,
            0 <= fresh <= MAX_MONEY,
        decreases n - i,
    {
        let p = &positions[i];
        proof {
            lemma_totals_take_succ(positions@, i as int, cache.quotes());
        }
        match cache.get_quote(&p.symbol) {
            Some(q) => {
                proof {
                    assert(crate::price_cache::wf_quote(cache.quotes()[p.symbol@]));
                    assert(0 <= (p.shares as int) * (p.last_price as int) <= (
                    crate::money::MAX_SHARES as int) * (MAX_MONEY as int)) by (nonlinear_arith)
                        requires
                            0 <= p.shares <= crate::money::MAX_SHARES,
                            0 <= p.last_price <= MAX_MONEY,
                    ;
                    assert(0 <= (p.shares as int) * (q.price as int) <= (
                    crate::money::MAX_SHARES as int) * (MAX_MONEY as int)) by (nonlinear_arith)
                        requires
                            0 <= p.shares <= crate::money::MAX_SHARES,
                            0 <= q.price <= MAX_MONEY,
                    ;
                }
                let old_value: u128 = (p.shares as u128) * (p.last_price as u128);
                let new_value: u128 = (p.shares as u128) * (q.price as u128);
                if old_value > (MAX_MONEY as u128) || new_value > (MAX_MONEY as u128) {
                    proof {
                        lemma_totals_prefix(positions@, i as int + 1, cache.quotes());
                    }
                    return None;
                }
                let ov: i64 = old_value as i64;
                let nv: i64 = new_value as i64;
                if ov > MAX_MONEY - prev || nv > MAX_MONEY - fresh {
                    proof {
                        lemma_totals_prefix(positions@, i as int + 1, cache.quotes());
                    }
                    return None;
                }
                prev = prev + ov;
                fresh = fresh + nv;
            },
            None => {},
        }
        i = i + 1;
    }
    proof {
        assert(positions@.take(n as int) =~= positions@);
    }
    Some((prev, fresh))
}

impl PriceFeedManager {
    /// The symbols the aggregator must poll: the union of every subject's
    /// held symbols and every subscriber's symbol filters, each symbol
    /// once.
    pub fn get_tracked_symbols(&self, state: &RealtimeState) -> (r: Vec<String>)
        requires
            state.wf(),
        ensures
            forall|t: int| 0 <= t < r@.len() ==> spec_tracked_symbol(*state, (#[trigger] r@[t])@),
            forall|sym: Seq<char>|
                spec_tracked_symbol(*state, sym) ==> seq_has_str(name_views(r@), sym),
            forall|t1: int, t2: int| 0 <= t1 < t2 < r@.len() ==> r@[t1]@ != r@[t2]@,
    {
        let mut out: Vec<String> = Vec::new();
        let ghost hentries = state.holdings.holdings.entries_seq();
        let hn = state.holdings.holdings.len();
        let mut i: usize = 0;
        while i < hn
            invariant
                state.wf(),
                hentries == state.holdings.holdings.entries_seq(),
                hn == hentries.len(),
                i <= hn,
                forall|t: int|
                    0 <= t < out@.len() ==> spec_tracked_symbol(*state, (#[trigger] out@[t])@),
                forall|t1: int, t2: int| 0 <= t1 < t2 < out@.len() ==> out@[t1]@ != out@[t2]@,
                forall|j: int, p: int|
                    0 <= j < i && 0 <= p < (#[trigger] hentries[j]).1@.len() ==> seq_has_str(
                        name_views(out@),
                        (#[trigger] hentries[j].1@[p]).symbol@,
                    ),
            decreases hn - i,
        {
            let entry = state.holdings.holdings.entry_at(i);
            proof {
                state.holdings.holdings.lemma_entry_in_model(i as int);
            }
            let pn = entry.1.len();
            let mut p: usize = 0;
            while p < pn
                invariant
                    state.wf(),
                    hentries == state.holdings.holdings.entries_seq(),
                    hn == hentries.len(),
                    i < hn,
                    *entry == hentries[i as int],
                    state.holdings.holdings@.contains_key(hentries[i as int].0@),
                    state.holdings.holdings@[hentries[i as int].0@] == hentries[i as int].1,
                    pn == entry.1@.len(),
                    p <= pn,
                    forall|t: int|
                        0 <= t < out@.len() ==> spec_tracked_symbol(*state, (#[trigger] out@[t])@),
                    forall|t1: int, t2: int| 0 <= t1 < t2 < out@.len() ==> out@[t1]@ != out@[t2]@,
                    forall|j: int, p2: int|
                        0 <= j < i && 0 <= p2 < (#[trigger] hentries[j]).1@.len() ==> seq_has_str(
                            name_views(out@),
                            (#[trigger] hentries[j].1@[p2]).symbol@,
                        ),
                    forall|p2: int|
                        0 <= p2 < p ==> seq_has_str(
                            name_views(out@),
                            (#[trigger] entry.1@[p2]).symbol@,
                        ),
                decreases pn - p,
            {
                let sym = &entry.1[p];
                if !vec_contains_string(&out, &sym.symbol) {
                    let ghost pre = out@;
                    out.push(sym.symbol.clone());
                    proof {
                        assert(name_views(out@)[pre.len() as int] == entry.1@[p as int].symbol@);
                        assert forall|t1: int, t2: int|
                            0 <= t1 < t2 < out@.len() implies out@[t1]@ != out@[t2]@ by {
                            assert(out@[t1] == pre[t1]);
                            if t2 == pre.len() {
                                assert(name_views(pre)[t1] == pre[t1]@);
                            } else {
                                assert(out@[t2] == pre[t2]);
                            }
                        }
                        assert(spec_tracked_symbol(*state, entry.1@[p as int].symbol@)) by {
                            assert(state.holdings.holdings@.contains_key(hentries[i as int].0@)
                                && spec_holds_symbol(
                                state.holdings.holdings@[hentries[i as int].0@]@,
                                entry.1@[p as int].symbol@,
                            ));
                        }
                        assert forall|j: int, p2: int|
                            0 <= j < i && 0 <= p2 < (#[trigger] hentries[j]).1@.len() implies
                            seq_has_str(
                            name_views(out@),
                            (#[trigger] hentries[j].1@[p2]).symbol@,
                        ) by {
                            crate::strutil::lemma_name_views_push(
                                pre,
                                out@.last(),
                                hentries[j].1@[p2].symbol@,
                            );
                            assert(pre.push(out@.last()) =~= out@);
                        }
                        assert forall|p2: int| 0 <= p2 < p + 1 implies seq_has_str(
                            name_views(out@),
                            (#[trigger] entry.1@[p2]).symbol@,
                        ) by {
                            if p2 < p {
                                crate::strutil::lemma_name_views_push(
                                    pre,
                                    out@.last(),
                                    entry.1@[p2].symbol@,
                                );
                                assert(pre.push(out@.last()) =~= out@);
                            }
                        }
                    }
                }
                p = p + 1;
            }
            i = i + 1;
        }
        let ghost sentries = state.subscriptions.entries_seq();
        let sn = state.subscriptions.len();
        let mut i2: usize = 0;
        while i2 < sn
            invariant
                state.wf(),
                hentries == state.holdings.holdings.entries_seq(),
                hn == hentries.len(),
                sentries == state.subscriptions.entries_seq(),
                sn == sentries.len(),
                i2 <= sn,
                forall|t: int|
                    0 <= t < out@.len() ==> spec_tracked_symbol(*state, (#[trigger] out@[t])@),
                forall|t1: int, t2: int| 0 <= t1 < t2 < out@.len() ==> out@[t1]@ != out@[t2]@,
                forall|j: int, p2: int|
                    0 <= j < hn && 0 <= p2 < (#[trigger] hentries[j]).1@.len() ==> seq_has_str(
                        name_views(out@),
                        (#[trigger] hentries[j].1@[p2]).symbol@,
                    ),
                forall|j: int, p2: int|
                    0 <= j < i2 && 0 <= p2 < (#[trigger] sentries[j]).1.symbols@.len()
                        ==> seq_has_str(
                        name_views(out@),
                        (#[trigger] sentries[j].1.symbols@[p2])@,
                    ),
            decreases sn - i2,
        {
            let entry = state.subscriptions.entry_at(i2);
            proof {
                state.subscriptions.lemma_entry_in_model(i2 as int);
            }
            let pn = entry.1.symbols.len();
            let mut p: usize = 0;
            while p < pn
                invariant
                    state.wf(),
                    hentries == state.holdings.holdings.entries_seq(),
                    hn == hentries.len(),
                    sentries == state.subscriptions.entries_seq(),
                    sn == sentries.len(),
                    i2 < sn,
                    *entry == sentries[i2 as int],
                    state.subscriptions@.contains_key(sentries[i2 as int].0@),
                    state.subscriptions@[sentries[i2 as int].0@] == sentries[i2 as int].1,
                    pn == entry.1.symbols@.len(),
                    p <= pn,
                    forall|t: int|
                        0 <= t < out@.len() ==> spec_tracked_symbol(*state, (#[trigger] out@[t])@),
                    forall|t1: int, t2: int| 0 <= t1 < t2 < out@.len() ==> out@[t1]@ != out@[t2]@,
                    forall|j: int, p2: int|
                        0 <= j < hn && 0 <= p2 < (#[trigger] hentries[j]).1@.len() ==> seq_has_str(
                            name_views(out@),
                            (#[trigger] hentries[j].1@[p2]).symbol@,
                        ),
                    forall|j: int, p2: int|
                        0 <= j < i2 && 0 <= p2 < (#[trigger] sentries[j]).1.symbols@.len()
                            ==> seq_has_str(
                            name_views(out@),
                            (#[trigger] sentries[j].1.symbols@[p2])@,
                        ),
                    forall|p2: int|
                        0 <= p2 < p ==> seq_has_str(
                            name_views(out@),
                            (#[trigger] entry.1.symbols@[p2])@,
                        ),
                decreases pn - p,
            {
                let sym = &entry.1.symbols[p];
                if !vec_contains_string(&out, sym) {
                    let ghost pre = out@;
                    out.push(sym.clone());
                    proof {
                        assert(name_views(out@)[pre.len() as int] == entry.1.symbols@[p as int]@);
                        assert forall|t1: int, t2: int|
                            0 <= t1 < t2 < out@.len() implies out@[t1]@ != out@[t2]@ by {
                            assert(out@[t1] == pre[t1]);
                            if t2 == pre.len() {
                                assert(name_views(pre)[t1] == pre[t1]@);
                            } else {
                                assert(out@[t2] == pre[t2]);
                            }
                        }
                        assert(spec_tracked_symbol(*state, entry.1.symbols@[p as int]@)) by {
                            assert(name_views(
                                state.subscriptions@[sentries[i2 as int].0@].symbols@,
                            )[p as int] == entry.1.symbols@[p as int]@);
                            assert(state.subscriptions@.contains_key(sentries[i2 as int].0@)
                                && seq_has_str(
                                name_views(state.subscriptions@[sentries[i2 as int].0@].symbols@),
                                entry.1.symbols@[p as int]@,
                            ));
                        }
                        assert forall|j: int, p2: int|
                            0 <= j < hn && 0 <= p2 < (#[trigger] hentries[j]).1@.len() implies
                            seq_has_str(
                            name_views(out@),
                            (#[trigger] hentries[j].1@[p2]).symbol@,
                        ) by {
                            crate::strutil::lemma_name_views_push(
                                pre,
                                out@.last(),
                                hentries[j].1@[p2].symbol@,
                            );
                            assert(pre.push(out@.last()) =~= out@);
                        }
                        assert forall|j: int, p2: int|
                            0 <= j < i2 && 0 <= p2 < (#[trigger] sentries[j]).1.symbols@.len()
                            implies seq_has_str(
                            name_views(out@),
                            (#[trigger] sentries[j].1.symbols@[p2])@,
                        ) by {
                            crate::strutil::lemma_name_views_push(
                                pre,
                                out@.last(),
                                sentries[j].1.symbols@[p2]@,
                            );
                            assert(pre.push(out@.last()) =~= out@);
                        }
                        assert forall|p2: int| 0 <= p2 < p + 1 implies seq_has_str(
                            name_views(out@),
                            (#[trigger] entry.1.symbols@[p2])@,
                        ) by {
                            if p2 < p {
                                crate::strutil::lemma_name_views_push(
                                    pre,
                                    out@.last(),
                                    entry.1.symbols@[p2]@,
                                );
                                assert(pre.push(out@.last()) =~= out@);
                            }
                        }
                    }
                }
                p = p + 1;
            }
            i2 = i2 + 1;
        }
        proof {
            assert forall|sym: Seq<char>| spec_tracked_symbol(*state, sym) implies seq_has_str(
                name_views(out@),
                sym,
            ) by {
                if exists|k: Seq<char>|
                    #[trigger] state.holdings.holdings@.contains_key(k) && spec_holds_symbol(
                        state.holdings.holdings@[k]@,
                        sym,
                    ) {
                    let k = choose|k: Seq<char>|
                        #[trigger] state.holdings.holdings@.contains_key(k) && spec_holds_symbol(
                            state.holdings.holdings@[k]@,
                            sym,
                        );
                    state.holdings.holdings.lemma_model_in_entries(k);
                    let j = choose|j: int| 0 <= j < hentries.len() && hentries[j].0@ == k;
                    state.holdings.holdings.lemma_entry_in_model(j);
                    let p2 = choose|p2: int|
                        0 <= p2 < state.holdings.holdings@[k]@.len()
                            && state.holdings.holdings@[k]@[p2].symbol@ == sym;
                    assert(hentries[j].1@[p2].symbol@ == sym);
                } else {
                    let k = choose|k: Seq<char>|
                        #[trigger] state.subscriptions@.contains_key(k) && seq_has_str(
                            name_views(state.subscriptions@[k].symbols@),
                            sym,
                        );
                    state.subscriptions.lemma_model_in_entries(k);
                    let j = choose|j: int| 0 <= j < sentries.len() && sentries[j].0@ == k;
                    state.subscriptions.lemma_entry_in_model(j);
                    let p2 = choose|p2: int|
                        0 <= p2 < name_views(state.subscriptions@[k].symbols@).len() && name_views(
                            state.subscriptions@[k].symbols@,
                        )[p2] == sym;
                    assert(sentries[j].1.symbols@[p2]@ == sym);
                }
            }
        }
        out
    }

    /// Recomputes every subject's position value against the cached
    /// prices and broadcasts a wealth update for every subject whose
    /// totals are within the engine's range and materially different:
    /// the returned events are exactly, in holdings order, one per such
    /// subject, carrying its name, old and new totals, the exact percent
    /// figure and the fixed reason wording.
    pub fn calculate_wealth_updates(&self, state: &RealtimeState) -> (events: Vec<UpdateMessage>)
        requires
            self.wf(),
            state.wf(),
        ensures
            ({
                let expected = spec_feed_events(
                    state.holdings.holdings.entries_seq(),
                    self.price_cache.quotes(),
                );
                &&& events@.len() == expected.len()
                &&& forall|t: int|
                    0 <= t < events@.len() ==> match #[trigger] events@[t] {
                        UpdateMessage::WealthUpdate {
                            name,
                            previous_net_worth,
                            new_net_worth,
                            change_percentage,
                            reason,
                        } => {
                            &&& name@ == expected[t].0
                            &&& previous_net_worth == expected[t].1
                            &&& new_net_worth == expected[t].2
                            &&& change_percentage == spec_percent_change(
                                expected[t].1,
                                expected[t].2,
                            )
                            &&& reason@ == "Stock portfolio value change"@
                        },
                        _ => false,
                    }
            }),
    {
        let ghost entries = state.holdings.holdings.entries_seq();
        let ghost quotes = self.price_cache.quotes();
        let mut events: Vec<UpdateMessage> = Vec::new();
        let n = state.holdings.holdings.len();
        let mut i: usize = 0;
        while i < n
            invariant
                self.wf(),
                state.wf(),
                entries == state.holdings.holdings.entries_seq(),
                quotes == self.price_cache.quotes(),
                n == entries.len(),
                i <= n,
                events@.len() == spec_feed_events(entries.take(i as int), quotes).len(),
                forall|t: int|
                    0 <= t < events@.len() ==> match #[trigger] events@[t] {
                        UpdateMessage::WealthUpdate {
                            name,
                            previous_net_worth,
                            new_net_worth,
                            change_percentage,
                            reason,
                        } => {
                            &&& name@ == spec_feed_events(entries.take(i as int), quotes)[t].0
                            &&& previous_net_worth == spec_feed_events(
                                entries.take(i as int),
                                quotes,
                            )[t].1
                            &&& new_net_worth == spec_feed_events(
                                entries.take(i as int),
                                quotes,
                            )[t].2
                            &&& change_percentage == spec_percent_change(
                                previous_net_worth as int,
                                new_net_worth as int,
                            )
                            &&& reason@ == "Stock portfolio value change"@
                        },
                        _ => false,
                    },
            decreases n - i,
        {
            let entry = state.holdings.holdings.entry_at(i);
            proof {
                state.holdings.holdings.lemma_entry_in_model(i as int);
                assert(entries.take(i as int + 1).drop_last() =~= entries.take(i as int));
                assert(entries.take(i as int + 1).last() == entries[i as int]);
            }
            let ghost before = spec_feed_events(entries.take(i as int), quotes);
            let ghost after = spec_feed_events(entries.take(i as int + 1), quotes);
            match position_totals(&entry.1, &self.price_cache) {
                Some(totals) => {
                    let previous_total = totals.0;
                    let new_total = totals.1;
                    if is_significant_change(previous_total, new_total) {
                        let pct = percent_change(previous_total, new_total);
                        let update = UpdateMessage::WealthUpdate {
                            name: entry.0.clone(),
                            previous_net_worth: previous_total,
                            new_net_worth: new_total,
                            change_percentage: pct,
                            reason: String::from_str("Stock portfolio value change"),
                        };
                        let _attempts = state.broadcast_update(&update);
                        let ghost pre = events@;
                        events.push(update);
                        proof {
                            assert(after =~= before.push(
                                (
                                    entries[i as int].0@,
                                    previous_total as int,
                                    new_total as int,
                                ),
                            ));
                            assert forall|t: int|
                                0 <= t < events@.len() implies match #[trigger] events@[t] {
                                UpdateMessage::WealthUpdate {
                                    name,
                                    previous_net_worth,
                                    new_net_worth,
                                    change_percentage,
                                    reason,
                                } => {
                                    &&& name@ == after[t].0
                                    &&& previous_net_worth == after[t].1
                                    &&& new_net_worth == after[t].2
                                    &&& change_percentage == spec_percent_change(
                                        previous_net_worth as int,
                                        new_net_worth as int,
                                    )
                                    &&& reason@ == "Stock portfolio value change"@
                                },
                                _ => false,
                            } by {
                                if t < pre.len() {
                                    assert(events@[t] == pre[t]);
                                    assert(after[t] == before[t]);
                                }
                            }
                        }
                    } else {
                        proof {
                            assert(after =~= before);
                        }
                    }
                },
                None => {
                    proof {
                        assert(after =~= before);
                    }
                },
            }
            i = i + 1;
        }
        proof {
            assert(entries.take(n as int) =~= entries);
        }
        events
    }
}

/// The holdings map binds the name to a single position with exactly the
/// given figures.
pub open spec fn spec_seeded_position(
    m: Map<Seq<char>, Vec<StockPosition>>,
    name: Seq<char>,
    sym: Seq<char>,
    shares: u64,
    last_price: i64,
    value: i64,
) -> bool {
    &&& m.contains_key(name)
    &&& m[name]@.len() == 1
    &&& m[name]@[0].symbol@ == sym
    &&& m[name]@[0].shares == shares
    &&& m[name]@[0].last_price == last_price
    &&& m[name]@[0].value == value
}

/// Seeds the holdings of three well-known subjects, standing in for the
/// persistence collaborator during demonstrations: exactly one position
/// each, and no other entry is touched.
pub fn load_sample_holdings(state: &mut RealtimeState)
    requires
        old(state).wf(),
    ensures
        final(state).wf(),
        final(state).connections@ == old(state).connections@,
        final(state).subscriptions@ == old(state).subscriptions@,
        spec_seeded_position(
            final(state).holdings.holdings@,
            "Elon Musk"@,
            "TSLA"@,
            411_000_000,
            2_500_000,
            1_027_500_000_000_000,
        ),
        spec_seeded_position(
            final(state).holdings.holdings@,
            "Jeff Bezos"@,
            "AMZN"@,
            990_000_000,
            1_500_000,
            1_485_000_000_000_000,
        ),
        spec_seeded_position(
            final(state).holdings.holdings@,
            "Warren Buffett"@,
            "BRK-A"@,
            230_000,
            5_500_000_000,
            1_265_000_000_000_000,
        ),
        forall|k: Seq<char>|
            #![trigger final(state).holdings.holdings@.dom().contains(k)]
            k != "Elon Musk"@ && k != "Jeff Bezos"@ && k != "Warren Buffett"@
                ==> final(state).holdings.holdings@.contains_key(k)
                == old(state).holdings.holdings@.contains_key(k)
                && (old(state).holdings.holdings@.contains_key(k)
                ==> final(state).holdings.holdings@[k] == old(state).holdings.holdings@[k]),
{
    let mut musk: Vec<StockPosition> = Vec::new();
    musk.push(
        StockPosition {
            symbol: String::from_str("TSLA"),
            shares: 411_000_000,
            last_price: 2_500_000,
            value: 1_027_500_000_000_000,
        },
    );
    state.set_holdings(String::from_str("Elon Musk"), musk);
    let mut bezos: Vec<StockPosition> = Vec::new();
    bezos.push(
        StockPosition {
            symbol: String::from_str("AMZN"),
            shares: 990_000_000,
            last_price: 1_500_000,
            value: 1_485_000_000_000_000,
        },
    );
    state.set_holdings(String::from_str("Jeff Bezos"), bezos);
    let mut buffett: Vec<StockPosition> = Vec::new();
    buffett.push(
        StockPosition {
            symbol: String::from_str("BRK-A"),
            shares: 230_000,
            last_price: 5_500_000_000,
            value: 1_265_000_000_000_000,
        },
    );
    state.set_holdings(String::from_str("Warren Buffett"), buffett);
    proof {
        reveal_strlit("Elon Musk");
        reveal_strlit("Jeff Bezos");
        reveal_strlit("Warren Buffett");
        assert("Elon Musk"@.len() == 9);
        assert("Jeff Bezos"@.len() == 10);
        assert("Warren Buffett"@.len() == 14);
        assert("Elon Musk"@ != "Jeff Bezos"@);
        assert("Elon Musk"@ != "Warren Buffett"@);
        assert("Jeff Bezos"@ != "Warren Buffett"@);
    }
}

} // verus!
