//! Subscription filters and the matching rule of the dispatcher.

use crate::events::{spec_affected, spec_is_system, UpdateMessage};
use crate::strutil::{name_views, seq_has_str, vec_contains_string};
use vstd::prelude::*;

verus! {

/// A connection's filter preferences. When `all_updates` is set the other
/// fields are ignored for filtering.
#[derive(Debug)]
pub struct Subscription {
    /// Subjects subscribed to by name.
    pub billionaires: Vec<String>,
    /// Industry labels subscribed to.
    pub industries: Vec<String>,
    /// Instrument symbols subscribed to.
    pub symbols: Vec<String>,
    /// Receive every event.
    pub all_updates: bool,
}

/// Some affected subject of the update is in the subscription's subject set.
pub open spec fn spec_affected_overlap(sub: Subscription, u: UpdateMessage) -> bool {
    exists|i: int|
        0 <= i < spec_affected(u).len() && seq_has_str(
            name_views(sub.billionaires@),
            spec_affected(u)[i],
        )
}

/// The update is a stock update whose symbol is in the subscription's symbols.
pub open spec fn spec_symbol_match(sub: Subscription, u: UpdateMessage) -> bool {
    match u {
        UpdateMessage::StockUpdate { symbol, .. } => seq_has_str(
            name_views(sub.symbols@),
            symbol@,
        ),
        _ => false,
    }
}

/// The matching rule: all-events subscriptions match everything; otherwise
/// an update matches when it names a subscribed subject, when it is a stock
/// update for a subscribed symbol, or when it is a system notice, which
/// bypasses filtering.
pub open spec fn spec_update_matches(sub: Subscription, u: UpdateMessage) -> bool {
    ||| sub.all_updates
    ||| spec_affected_overlap(sub, u)
    ||| spec_symbol_match(sub, u)
    ||| spec_is_system(u)
}

/// Decides whether an update should be delivered under a subscription.
pub fn should_send_update(sub: &Subscription, u: &UpdateMessage) -> (r: bool)
    ensures
        r == spec_update_matches(*sub, *u),
{
    if sub.all_updates {
        return true;
    }
    let affected = crate::events::affected_subjects(u);
    let n = affected.len();
    for i in 0..n
        invariant
            n == affected@.len(),
            name_views(affected@) =~= spec_affected(*u),
            forall|j: int|
                0 <= j < i ==> !seq_has_str(name_views(sub.billionaires@), spec_affected(*u)[j]),
    {
        if vec_contains_string(&sub.billionaires, &affected[i]) {
            assert(spec_affected(*u)[i as int] == name_views(affected@)[i as int]);
            assert(spec_affected_overlap(*sub, *u));
            return true;
        }
        assert(name_views(affected@)[i as int] == spec_affected(*u)[i as int]);
    }
    assert(!spec_affected_overlap(*sub, *u));
    match u {
        UpdateMessage::StockUpdate { symbol, .. } => {
            if vec_contains_string(&sub.symbols, symbol) {
                return true;
            }
            assert(!spec_symbol_match(*sub, *u));
        },
        _ => {
            assert(!spec_symbol_match(*sub, *u));
        },
    }
    match u {
        UpdateMessage::SystemUpdate { .. } => true,
        _ => false,
    }
}

/// A subscription with "all events" set matches every update, whatever its
/// kind: completeness of the all-events path.
pub proof fn lemma_all_updates_matches(sub: Subscription, u: UpdateMessage)
    requires
        sub.all_updates,
    ensures
        spec_update_matches(sub, u),
{
}

/// An update that is not a system notice and names only subjects outside the
/// subscription's subject set, and is not a stock update for a subscribed
/// symbol, does not match: correctness of the filter.
pub proof fn lemma_no_match_without_subscription_hit(sub: Subscription, u: UpdateMessage)
    requires
        !sub.all_updates,
        !spec_is_system(u),
        forall|i: int|
            0 <= i < spec_affected(u).len() ==> !seq_has_str(
                name_views(sub.billionaires@),
                spec_affected(u)[i],
            ),
        !spec_symbol_match(sub, u),
    ensures
        !spec_update_matches(sub, u),
{
}

} // verus!
