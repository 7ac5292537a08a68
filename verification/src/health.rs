//! The connection health monitor.
//!
//! Each sweep offers a lightweight probe notice to every registered
//! connection's queue; a connection whose queue refuses the probe is stale
//! and is removed from both the registry and the subscription store. This
//! is the sole mechanism that reclaims connections whose transport died
//! without a clean close.

use crate::channel::try_send_update;
use crate::events::{Severity, UpdateMessage};
use crate::registry::RealtimeState;
use vstd::prelude::*;
use vstd::string::StringExecFns;

verus! {

/// The keys of the probes that failed.
pub open spec fn failed_keys(s: Seq<(String, bool)>) -> Set<Seq<char>> {
    Set::new(|k: Seq<char>| exists|i: int| 0 <= i < s.len() && s[i].1 == false && s[i].0@ == k)
}

/// The probe the health monitor offers: a lightweight "ping" notice.
pub fn ping_probe() -> (u: UpdateMessage)
    ensures
        u matches UpdateMessage::SystemUpdate { message, severity } && message@ == "ping"@
            && severity is Info,
{
    UpdateMessage::SystemUpdate { message: String::from_str("ping"), severity: Severity::Info }
}

/// Offers the given probe to every registered connection and records, per
/// connection, whether its queue accepted it. Every registered connection
/// appears exactly once; the registry is not changed.
pub fn probe_connections(state: &RealtimeState, probe: &UpdateMessage) -> (probes: Vec<
    (String, bool),
>)
    requires
        state.wf(),
    ensures
        probes@.len() == state.connections.entries_seq().len(),
        forall|t: int|
            0 <= t < probes@.len() ==> probes@[t].0@ == state.connections.entries_seq()[t].0@,
        forall|t: int|
            0 <= t < probes@.len() ==> state.connections@.contains_key(probes@[t].0@),
{
    let mut probes: Vec<(String, bool)> = Vec::new();
    let n = state.connections.len();
    let mut i: usize = 0;
    while i < n
        invariant
            state.wf(),
            n == state.connections.entries_seq().len(),
            i <= n,
            probes@.len() == i,
            forall|t: int|
                0 <= t < i ==> probes@[t].0@ == state.connections.entries_seq()[t].0@,
        decreases n - i,
    {
        let entry = state.connections.entry_at(i);
        let accepted = try_send_update(&entry.1, probe);
        probes.push((entry.0.clone(), accepted));
        i = i + 1;
    }
    proof {
        assert forall|t: int| 0 <= t < probes@.len() implies state.connections@.contains_key(
            probes@[t].0@,
        ) by {
            state.connections.lemma_entry_in_model(t);
        }
    }
    probes
}

/// Removes every connection whose probe failed from both the registry and
/// the subscription store, and returns the removed ids. Connections whose
/// probe was accepted are untouched.
pub fn prune_stale(state: &mut RealtimeState, probes: &Vec<(String, bool)>) -> (removed: Vec<
    String,
>)
    requires
        old(state).wf(),
    ensures
        final(state).wf(),
        final(state).holdings.holdings@ == old(state).holdings.holdings@,
        forall|t: int|
            0 <= t < removed@.len() ==> failed_keys(probes@).contains(removed@[t]@),
        forall|k: Seq<char>|
            failed_keys(probes@).contains(k) ==> !final(state).connections@.contains_key(k)
                && !final(state).subscriptions@.contains_key(k),
        forall|k: Seq<char>|
            !failed_keys(probes@).contains(k) ==> (final(state).connections@.contains_key(k)
                == old(state).connections@.contains_key(k)) && (
            final(state).subscriptions@.contains_key(k) == old(state).subscriptions@.contains_key(k)),
        forall|k: Seq<char>|
            #![trigger final(state).connections@[k]]
            !failed_keys(probes@).contains(k) && old(state).connections@.contains_key(k)
                ==> final(state).connections@[k] == old(state).connections@[k],
        forall|k: Seq<char>|
            #![trigger final(state).subscriptions@[k]]
            !failed_keys(probes@).contains(k) && old(state).subscriptions@.contains_key(k)
                ==> final(state).subscriptions@[k] == old(state).subscriptions@[k],
{
    let ghost orig = *old(state);
    let mut removed: Vec<String> = Vec::new();
    let n = probes.len();
    let mut i: usize = 0;
    while i < n
        invariant
            state.wf(),
            n == probes@.len(),
            i <= n,
            state.holdings.holdings@ == orig.holdings.holdings@,
            forall|t: int| 0 <= t < removed@.len() ==> failed_keys(probes@).contains(removed@[t]@),
            forall|k: Seq<char>|
                #![trigger state.connections@.dom().contains(k)]
                state.connections@.contains_key(k) ==> orig.connections@.contains_key(k)
                    && state.connections@[k] == orig.connections@[k],
            forall|k: Seq<char>|
                #![trigger state.subscriptions@.dom().contains(k)]
                state.subscriptions@.contains_key(k) ==> orig.subscriptions@.contains_key(k)
                    && state.subscriptions@[k] == orig.subscriptions@[k],
            forall|k: Seq<char>|
                orig.connections@.contains_key(k) && !failed_keys(probes@).contains(k)
                    ==> state.connections@.contains_key(k),
            forall|k: Seq<char>|
                orig.subscriptions@.contains_key(k) && !failed_keys(probes@).contains(k)
                    ==> state.subscriptions@.contains_key(k),
            forall|j: int|
                0 <= j < i && probes@[j].1 == false ==> !state.connections@.contains_key(
                    probes@[j].0@,
                ) && !state.subscriptions@.contains_key(probes@[j].0@),
        decreases n - i,
    {
        let p = &probes[i];
        if !p.1 {
            let ghost prev = *state;
            state.disconnect_client(&p.0);
            removed.push(p.0.clone());
            proof {
                assert(failed_keys(probes@).contains(probes@[i as int].0@));
                assert forall|k: Seq<char>| state.connections@.contains_key(k) implies orig.connections@.contains_key(k) && state.connections@[k] == orig.connections@[k] by {
                    assert(state.connections@ == prev.connections@.remove(probes@[i as int].0@));
                    assert(prev.connections@.dom().contains(k));
                    assert(orig.connections@.contains_key(k));
                    assert(prev.connections@[k] == orig.connections@[k]);
                    assert(state.connections@[k] == prev.connections@[k]);
                }
                assert forall|k: Seq<char>| state.subscriptions@.contains_key(k) implies orig.subscriptions@.contains_key(k) && state.subscriptions@[k] == orig.subscriptions@[k] by {
                    assert(state.subscriptions@ == prev.subscriptions@.remove(probes@[i as int].0@));
                    assert(prev.subscriptions@.dom().contains(k));
                    assert(orig.subscriptions@.contains_key(k));
                    assert(prev.subscriptions@[k] == orig.subscriptions@[k]);
                    assert(state.subscriptions@[k] == prev.subscriptions@[k]);
                }
            }
        }
        i = i + 1;
    }
    proof {
        assert forall|k: Seq<char>| failed_keys(probes@).contains(k) implies !state
            .connections@.contains_key(k) && !state.subscriptions@.contains_key(k) by {
            let j = choose|j: int|
                0 <= j < probes@.len() && probes@[j].1 == false && probes@[j].0@ == k;
            assert(!state.connections@.contains_key(probes@[j].0@));
        }
    }
    removed
}

/// One health-check cycle: probes every registered connection and prunes
/// the stale ones. After the sweep a connection whose queue refused the
/// probe is absent from the registry and the subscription store.
pub fn monitor_client_health(state: &mut RealtimeState) -> (removed: Vec<String>)
    requires
        old(state).wf(),
    ensures
        final(state).wf(),
        final(state).holdings.holdings@ == old(state).holdings.holdings@,
        forall|k: Seq<char>|
            final(state).connections@.contains_key(k) ==> old(state).connections@.contains_key(k),
        forall|t: int|
            0 <= t < removed@.len() ==> old(state).connections@.contains_key(removed@[t]@)
                && !final(state).connections@.contains_key(removed@[t]@)
                && !final(state).subscriptions@.contains_key(removed@[t]@),
{
    let probe = ping_probe();
    let probes = probe_connections(state, &probe);
    let removed = prune_stale(state, &probes);
    proof {
        assert forall|k: Seq<char>| state.connections@.contains_key(k) implies old(
            state,
        ).connections@.contains_key(k) by {
            if failed_keys(probes@).contains(k) {
                assert(!state.connections@.contains_key(k));
            } else {
                assert(state.connections@.contains_key(k) == old(
                    state,
                ).connections@.contains_key(k));
            }
        }
        assert forall|t: int| 0 <= t < removed@.len() implies old(
            state,
        ).connections@.contains_key(removed@[t]@) && !state.connections@.contains_key(removed@[t]@)
            && !state.subscriptions@.contains_key(removed@[t]@) by {
            assert(failed_keys(probes@).contains(removed@[t]@));
            let j = choose|j: int|
                0 <= j < probes@.len() && probes@[j].1 == false && probes@[j].0@ == removed@[t]@;
            assert(old(state).connections@.contains_key(probes@[j].0@));
        }
    }
    removed
}

} // verus!
