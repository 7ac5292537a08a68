//! The connection registry, subscription store and broadcast dispatcher.

use crate::channel::try_send_update;
use crate::events::{spec_is_system, Severity, UpdateMessage};
use crate::money::{MAX_MONEY, MAX_SHARES};
use crate::strmap::StrMap;
use crate::strutil::{seq_has_str, spec_u64_str, u64_to_string};
use crate::subscription::{should_send_update, spec_update_matches, Subscription};
use tokio::sync::mpsc::Sender;
use vstd::string::StringExecFns;
use vstd::prelude::*;

verus! {

/// One public-equity position of a subject. `shares` is a plain count;
/// `last_price` and `value` are in ticks.
#[derive(Debug, Clone)]
pub struct StockPosition {
    pub symbol: String,
    pub shares: u64,
    pub last_price: i64,
    pub value: i64,
}

/// A position the engine can work with: bounded shares and prices.
pub open spec fn wf_position(p: StockPosition) -> bool {
    &&& p.shares <= MAX_SHARES
    &&& 0 <= p.last_price <= MAX_MONEY
    &&& 0 <= p.value <= MAX_MONEY
}

pub open spec fn wf_positions(s: Seq<StockPosition>) -> bool {
    forall|i: int| 0 <= i < s.len() ==> wf_position(#[trigger] s[i])
}

/// The subjects' public-equity positions, keyed by subject name.
pub struct BillionaireHoldings {
    pub holdings: StrMap<Vec<StockPosition>>,
}

/// Shared state of the realtime engine: who is connected, what each
/// connection subscribed to, and the subjects' holdings.
pub struct RealtimeState {
    /// Outbound queue of each live connection, keyed by connection id.
    pub connections: StrMap<Sender<UpdateMessage>>,
    /// Filter preferences, keyed by connection id; at most one per connection.
    pub subscriptions: StrMap<Subscription>,
    /// Subject holdings for wealth calculations.
    pub holdings: BillionaireHoldings,
}

/// The keys of a sequence of delivery attempts.
pub open spec fn attempt_keys(s: Seq<(String, bool)>) -> Seq<Seq<char>> {
    s.map_values(|p: (String, bool)| p.0@)
}

/// What a fan-out of `u` owes: every attempt names a connection the
/// dispatch rule matches, every connection the rule matches is attempted,
/// and no connection is attempted twice.
pub open spec fn spec_dispatch_attempts(
    state: RealtimeState,
    u: UpdateMessage,
    attempts: Seq<(String, bool)>,
) -> bool {
    &&& forall|t: int| 0 <= t < attempts.len() ==> state.spec_should_deliver(attempts[t].0@, u)
    &&& forall|k: Seq<char>|
        state.spec_should_deliver(k, u) ==> seq_has_str(attempt_keys(attempts), k)
    &&& forall|t1: int, t2: int|
        0 <= t1 < t2 < attempts.len() ==> attempts[t1].0@ != attempts[t2].0@
}

/// The reply an inbound protocol message owes: an Info system notice with
/// the given wording, accepted only if the connection was registered.
pub open spec fn spec_notice_reply(
    reply: Option<(UpdateMessage, bool)>,
    wording: Seq<char>,
    registered: bool,
) -> bool {
    match reply {
        Some(p) => match p.0 {
            UpdateMessage::SystemUpdate { message, severity } => message@ == wording
                && severity is Info && (p.1 ==> registered),
            _ => false,
        },
        None => false,
    }
}

/// A message of the inbound subscription protocol.
#[derive(Debug)]
pub enum ClientMessage {
    Subscribe { subscription: Subscription },
    Unsubscribe,
    Ping,
}

impl RealtimeState {
    pub open spec fn wf(self) -> bool {
        &&& self.connections.wf()
        &&& self.subscriptions.wf()
        &&& self.holdings.holdings.wf()
        &&& forall|k: Seq<char>|
            self.holdings.holdings@.dom().contains(k) ==> wf_positions(
                (#[trigger] self.holdings.holdings@[k])@,
            )
    }

    /// Stores or replaces one subject's positions.
    pub fn set_holdings(&mut self, name: String, positions: Vec<StockPosition>)
        requires
            old(self).wf(),
            wf_positions(positions@),
        ensures
            final(self).wf(),
            final(self).holdings.holdings@ == old(self).holdings.holdings@.insert(
                name@,
                positions,
            ),
            final(self).connections@ == old(self).connections@,
            final(self).subscriptions@ == old(self).subscriptions@,
    {
        let ghost ps = positions@;
        self.holdings.holdings.insert(name, positions);
        proof {
            assert forall|k: Seq<char>|
                self.holdings.holdings@.dom().contains(k) implies wf_positions(
                (#[trigger] self.holdings.holdings@[k])@,
            ) by {
                if k != name@ {
                    assert(old(self).holdings.holdings@.dom().contains(k));
                    assert(self.holdings.holdings@[k] == old(self).holdings.holdings@[k]);
                }
            }
        }
    }

    /// The dispatch rule per connection: the connection must be registered;
    /// a stored subscription filters by the matching rule, and a connection
    /// without one receives only system notices.
    pub open spec fn spec_should_deliver(self, id: Seq<char>, u: UpdateMessage) -> bool {
        &&& self.connections@.contains_key(id)
        &&& if self.subscriptions@.contains_key(id) {
            spec_update_matches(self.subscriptions@[id], u)
        } else {
            spec_is_system(u)
        }
    }

    pub fn new() -> (r: RealtimeState)
        ensures
            r.wf(),
            r.connections@ == Map::<Seq<char>, Sender<UpdateMessage>>::empty(),
            r.subscriptions@ == Map::<Seq<char>, Subscription>::empty(),
            r.holdings.holdings@ == Map::<Seq<char>, Vec<StockPosition>>::empty(),
    {
        RealtimeState {
            connections: StrMap::new(),
            subscriptions: StrMap::new(),
            holdings: BillionaireHoldings { holdings: StrMap::new() },
        }
    }

    /// Registers a connection's outbound queue under its id.
    pub fn register(&mut self, id: String, queue: Sender<UpdateMessage>)
        requires
            old(self).wf(),
        ensures
            final(self).wf(),
            final(self).connections@ == old(self).connections@.insert(id@, queue),
            final(self).subscriptions@ == old(self).subscriptions@,
            final(self).holdings.holdings@ == old(self).holdings.holdings@,
    {
        self.connections.insert(id, queue);
    }

    /// Removes a connection from the registry; safe to repeat.
    pub fn deregister(&mut self, id: &String)
        requires
            old(self).wf(),
        ensures
            final(self).wf(),
            final(self).connections@ == old(self).connections@.remove(id@),
            final(self).subscriptions@ == old(self).subscriptions@,
            final(self).holdings.holdings@ == old(self).holdings.holdings@,
    {
        self.connections.remove(id);
    }

    /// The outbound queue of a connection, if it is registered.
    pub fn get_queue(&self, id: &String) -> (r: Option<&Sender<UpdateMessage>>)
        requires
            self.wf(),
        ensures
            match r {
                Some(q) => self.connections@.contains_key(id@) && *q == self.connections@[id@],
                None => !self.connections@.contains_key(id@),
            },
    {
        self.connections.get(id)
    }

    /// The number of live connections.
    pub fn active_connections(&self) -> (r: usize)
        requires
            self.wf(),
        ensures
            r == self.connections@.dom().len(),
    {
        self.connections.len()
    }

    /// The number of stored subscriptions.
    pub fn active_subscriptions(&self) -> (r: usize)
        requires
            self.wf(),
        ensures
            r == self.subscriptions@.dom().len(),
    {
        self.subscriptions.len()
    }

    /// Stores or replaces a connection's subscription.
    pub fn set_subscription(&mut self, id: String, sub: Subscription)
        requires
            old(self).wf(),
        ensures
            final(self).wf(),
            final(self).subscriptions@ == old(self).subscriptions@.insert(id@, sub),
            final(self).connections@ == old(self).connections@,
            final(self).holdings.holdings@ == old(self).holdings.holdings@,
    {
        self.subscriptions.insert(id, sub);
    }

    /// Drops a connection's subscription; safe to repeat.
    pub fn clear_subscription(&mut self, id: &String)
        requires
            old(self).wf(),
        ensures
            final(self).wf(),
            final(self).subscriptions@ == old(self).subscriptions@.remove(id@),
            final(self).connections@ == old(self).connections@,
            final(self).holdings.holdings@ == old(self).holdings.holdings@,
    {
        self.subscriptions.remove(id);
    }

    /// A connection's stored subscription, if any.
    pub fn get_subscription(&self, id: &String) -> (r: Option<&Subscription>)
        requires
            self.wf(),
        ensures
            match r {
                Some(s) => self.subscriptions@.contains_key(id@) && *s == self.subscriptions@[id@],
                None => !self.subscriptions@.contains_key(id@),
            },
    {
        self.subscriptions.get(id)
    }

    /// Removes a connection from both the registry and the subscription
    /// store, the complete teardown of one client.
    pub fn disconnect_client(&mut self, client_id: &String)
        requires
            old(self).wf(),
        ensures
            final(self).wf(),
            final(self).connections@ == old(self).connections@.remove(client_id@),
            final(self).subscriptions@ == old(self).subscriptions@.remove(client_id@),
            final(self).holdings.holdings@ == old(self).holdings.holdings@,
    {
        self.connections.remove(client_id);
        self.subscriptions.remove(client_id);
    }

    /// Fans an update out: offers it to the queue of every connection whose
    /// subscription matches. Returns one `(id, accepted)` attempt per
    /// matching connection; a full or closed queue never stalls the others.
    pub fn broadcast_update(&self, u: &UpdateMessage) -> (attempts: Vec<(String, bool)>)
        requires
            self.wf(),
        ensures
            spec_dispatch_attempts(*self, *u, attempts@),
    {
        let mut attempts: Vec<(String, bool)> = Vec::new();
        let ghost entries = self.connections.entries_seq();
        let n = self.connections.len();
        let mut i: usize = 0;
        while i < n
            invariant
                self.wf(),
                entries == self.connections.entries_seq(),
                n == entries.len(),
                i <= n,
                forall|t: int|
                    0 <= t < attempts@.len() ==> self.spec_should_deliver(attempts@[t].0@, *u),
                forall|j: int|
                    0 <= j < i && self.spec_should_deliver(entries[j].0@, *u) ==> seq_has_str(
                        attempt_keys(attempts@),
                        entries[j].0@,
                    ),
                forall|t: int|
                    0 <= t < attempts@.len() ==> exists|j: int|
                        0 <= j < i && (#[trigger] attempts@[t]).0@ == (#[trigger] entries[j]).0@,
                forall|t1: int, t2: int|
                    0 <= t1 < t2 < attempts@.len() ==> attempts@[t1].0@ != attempts@[t2].0@,
            decreases n - i,
        {
            let entry = self.connections.entry_at(i);
            proof {
                self.connections.lemma_entry_in_model(i as int);
            }
            let deliver = match self.subscriptions.get(&entry.0) {
                Some(sub) => should_send_update(sub, u),
                None => is_system_update(u),
            };
            if deliver {
                let accepted = try_send_update(&entry.1, u);
                let ghost before = attempts@;
                attempts.push((entry.0.clone(), accepted));
                proof {
                    let m = before.len() as int;
                    assert(attempts@[m].0@ == entries[i as int].0@);
                    assert forall|t: int| 0 <= t < attempts@.len() implies exists|j: int|
                        0 <= j < i + 1 && (#[trigger] attempts@[t]).0@ == (
                        #[trigger] entries[j]).0@ by {
                        if t < m {
                            let j = choose|j: int|
                                0 <= j < i && (before[t]).0@ == (entries[j]).0@;
                            assert(attempts@[t] == before[t]);
                            assert((attempts@[t]).0@ == (entries[j]).0@);
                        } else {
                            assert((attempts@[t]).0@ == (entries[i as int]).0@);
                        }
                    }
                    assert forall|t1: int, t2: int|
                        0 <= t1 < t2 < attempts@.len() implies attempts@[t1].0@
                        != attempts@[t2].0@ by {
                        if t2 == m {
                            let j = choose|j: int|
                                0 <= j < i && (#[trigger] attempts@[t1]).0@ == (
                                #[trigger] entries[j]).0@;
                            assert(entries[j].0@ != entries[i as int].0@);
                        } else {
                            assert(attempts@[t1] == before[t1]);
                            assert(attempts@[t2] == before[t2]);
                        }
                    }
                    assert forall|j: int|
                        0 <= j < i + 1 && self.spec_should_deliver(
                            entries[j].0@,
                            *u,
                        ) implies seq_has_str(attempt_keys(attempts@), entries[j].0@) by {
                        if j < i {
                            assert(seq_has_str(attempt_keys(before), entries[j].0@));
                            let t = choose|t: int|
                                0 <= t < attempt_keys(before).len() && attempt_keys(before)[t]
                                    == entries[j].0@;
                            assert(attempt_keys(attempts@)[t] == entries[j].0@);
                        } else {
                            assert(attempt_keys(attempts@)[before.len() as int] == entries[i as int].0@);
                        }
                    }
                }
            } else {
                proof {
                    assert(!self.spec_should_deliver(entries[i as int].0@, *u));
                    assert forall|t: int| 0 <= t < attempts@.len() implies exists|j: int|
                        0 <= j < i + 1 && (#[trigger] attempts@[t]).0@ == (
                        #[trigger] entries[j]).0@ by {
                        let j = choose|j: int|
                            0 <= j < i && (attempts@[t]).0@ == (entries[j]).0@;
                        assert((attempts@[t]).0@ == (entries[j]).0@);
                    }
                }
            }
            i = i + 1;
        }
        proof {
            assert forall|k: Seq<char>| self.spec_should_deliver(k, *u) implies seq_has_str(
                attempt_keys(attempts@),
                k,
            ) by {
                self.connections.lemma_model_in_entries(k);
                let j = choose|j: int| 0 <= j < entries.len() && entries[j].0@ == k;
                assert(seq_has_str(attempt_keys(attempts@), entries[j].0@));
            }
        }
        attempts
    }

    /// Offers an update to one specific connection's queue. Returns false
    /// when the connection is unknown or its queue refused the message.
    pub fn send_to_client(&self, client_id: &String, update: &UpdateMessage) -> (r: bool)
        requires
            self.wf(),
        ensures
            r ==> self.connections@.contains_key(client_id@),
            !self.connections@.contains_key(client_id@) ==> r == false,
    {
        match self.connections.get(client_id) {
            Some(queue) => try_send_update(queue, update),
            None => false,
        }
    }

    /// Broadcasts a system notice, which reaches every registered
    /// connection: the attempts cover the registry exactly.
    pub fn broadcast_system_message(&self, message: String, severity: Severity) -> (attempts: Vec<
        (String, bool),
    >)
        requires
            self.wf(),
        ensures
            forall|t: int|
                0 <= t < attempts@.len() ==> self.connections@.contains_key(attempts@[t].0@),
            forall|k: Seq<char>|
                self.connections@.contains_key(k) ==> seq_has_str(attempt_keys(attempts@), k),
    {
        let u = UpdateMessage::SystemUpdate { message, severity };
        let attempts = self.broadcast_update(&u);
        proof {
            assert forall|k: Seq<char>| self.connections@.contains_key(k) implies seq_has_str(
                attempt_keys(attempts@),
                k,
            ) by {
                assert(self.spec_should_deliver(k, u));
            }
        }
        attempts
    }

    /// Applies one inbound protocol message for a connection: Subscribe
    /// replaces the stored subscription and acknowledges with a system
    /// notice, Unsubscribe drops it, Ping is answered with a pong notice.
    /// Returns the reply offered to that connection's queue, with whether
    /// the queue accepted it; Unsubscribe has no reply.
    pub fn apply_client_message(&mut self, client_id: &String, msg: ClientMessage) -> (reply:
        Option<(UpdateMessage, bool)>)
        requires
            old(self).wf(),
        ensures
            final(self).wf(),
            final(self).connections@ == old(self).connections@,
            final(self).holdings.holdings@ == old(self).holdings.holdings@,
            match msg {
                ClientMessage::Subscribe { subscription } => final(self).subscriptions@ == old(
                    self,
                ).subscriptions@.insert(client_id@, subscription) && spec_notice_reply(
                    reply,
                    "Subscription successful"@,
                    old(self).connections@.contains_key(client_id@),
                ),
                ClientMessage::Unsubscribe => final(self).subscriptions@ == old(
                    self,
                ).subscriptions@.remove(client_id@) && reply is None,
                ClientMessage::Ping => final(self).subscriptions@ == old(self).subscriptions@
                    && spec_notice_reply(
                    reply,
                    "pong"@,
                    old(self).connections@.contains_key(client_id@),
                ),
            },
    {
        match msg {
            ClientMessage::Subscribe { subscription } => {
                self.subscriptions.insert(client_id.clone(), subscription);
                let ack = UpdateMessage::SystemUpdate {
                    message: String::from_str("Subscription successful"),
                    severity: Severity::Info,
                };
                let accepted = self.send_to_client(client_id, &ack);
                Some((ack, accepted))
            },
            ClientMessage::Unsubscribe => {
                self.subscriptions.remove(client_id);
                None
            },
            ClientMessage::Ping => {
                let pong = UpdateMessage::SystemUpdate {
                    message: String::from_str("pong"),
                    severity: Severity::Info,
                };
                let accepted = self.send_to_client(client_id, &pong);
                Some((pong, accepted))
            },
        }
    }
}

/// How many stored subscriptions ask for everything.
pub open spec fn spec_count_all_updates(s: Seq<(String, Subscription)>) -> int
    decreases s.len(),
{
    if s.len() == 0 {
        0
    } else {
        spec_count_all_updates(s.drop_last()) + if s.last().1.all_updates {
            1int
        } else {
            0int
        }
    }
}

/// The total number of subject names across stored subscriptions.
pub open spec fn spec_sum_billionaires(s: Seq<(String, Subscription)>) -> int
    decreases s.len(),
{
    if s.len() == 0 {
        0
    } else {
        spec_sum_billionaires(s.drop_last()) + s.last().1.billionaires@.len()
    }
}

/// The total number of industry labels across stored subscriptions.
pub open spec fn spec_sum_industries(s: Seq<(String, Subscription)>) -> int
    decreases s.len(),
{
    if s.len() == 0 {
        0
    } else {
        spec_sum_industries(s.drop_last()) + s.last().1.industries@.len()
    }
}

/// The total number of symbol filters across stored subscriptions.
pub open spec fn spec_sum_symbols(s: Seq<(String, Subscription)>) -> int
    decreases s.len(),
{
    if s.len() == 0 {
        0
    } else {
        spec_sum_symbols(s.drop_last()) + s.last().1.symbols@.len()
    }
}

/// Aggregate figures over the stored subscriptions.
#[derive(Debug, Default)]
pub struct SubscriptionStats {
    pub total_subscriptions: usize,
    pub all_updates_count: usize,
    pub billionaire_subscriptions: usize,
    pub industry_subscriptions: usize,
    pub symbol_subscriptions: usize,
}

impl RealtimeState {
    /// Tallies the stored subscriptions: how many there are, how many ask
    /// for everything, and how many subject, industry and symbol filters
    /// they carry in total.
    pub fn get_subscription_stats(&self) -> (r: SubscriptionStats)
        requires
            self.wf(),
            spec_sum_billionaires(self.subscriptions.entries_seq()) <= usize::MAX,
            spec_sum_industries(self.subscriptions.entries_seq()) <= usize::MAX,
            spec_sum_symbols(self.subscriptions.entries_seq()) <= usize::MAX,
        ensures
            r.total_subscriptions == self.subscriptions.entries_seq().len(),
            r.all_updates_count == spec_count_all_updates(self.subscriptions.entries_seq()),
            r.billionaire_subscriptions == spec_sum_billionaires(self.subscriptions.entries_seq()),
            r.industry_subscriptions == spec_sum_industries(self.subscriptions.entries_seq()),
            r.symbol_subscriptions == spec_sum_symbols(self.subscriptions.entries_seq()),
    {
        let ghost entries = self.subscriptions.entries_seq();
        let mut stats = SubscriptionStats {
            total_subscriptions: 0,
            all_updates_count: 0,
            billionaire_subscriptions: 0,
            industry_subscriptions: 0,
            symbol_subscriptions: 0,
        };
        let n = self.subscriptions.len();
        let mut i: usize = 0;
        while i < n
            invariant
                self.wf(),
                entries == self.subscriptions.entries_seq(),
                n == entries.len(),
                i <= n,
                stats.total_subscriptions == i,
                stats.all_updates_count == spec_count_all_updates(entries.take(i as int)),
                stats.billionaire_subscriptions == spec_sum_billionaires(entries.take(i as int)),
                stats.industry_subscriptions == spec_sum_industries(entries.take(i as int)),
                stats.symbol_subscriptions == spec_sum_symbols(entries.take(i as int)),
                spec_sum_billionaires(entries) <= usize::MAX,
                spec_sum_industries(entries) <= usize::MAX,
                spec_sum_symbols(entries) <= usize::MAX,
                stats.all_updates_count <= i,
            decreases n - i,
        {
            let entry = self.subscriptions.entry_at(i);
            proof {
                assert(entries.take(i as int + 1).drop_last() =~= entries.take(i as int));
                assert(entries.take(i as int + 1).last() == entries[i as int]);
                lemma_sum_take_bound(entries, i as int + 1);
            }
            stats.total_subscriptions = stats.total_subscriptions + 1;
            if entry.1.all_updates {
                stats.all_updates_count = stats.all_updates_count + 1;
            }
            stats.billionaire_subscriptions = stats.billionaire_subscriptions
                + entry.1.billionaires.len();
            stats.industry_subscriptions = stats.industry_subscriptions + entry.1.industries.len();
            stats.symbol_subscriptions = stats.symbol_subscriptions + entry.1.symbols.len();
            i = i + 1;
        }
        proof {
            assert(entries.take(n as int) =~= entries);
        }
        stats
    }
}

/// Partial sums of the subscription tallies never exceed the full sums.
proof fn lemma_sum_take_bound(s: Seq<(String, Subscription)>, i: int)
    requires
        0 <= i <= s.len(),
    ensures
        spec_sum_billionaires(s.take(i)) <= spec_sum_billionaires(s),
        spec_sum_industries(s.take(i)) <= spec_sum_industries(s),
        spec_sum_symbols(s.take(i)) <= spec_sum_symbols(s),
    decreases s.len(),
{
    if i == s.len() {
        assert(s.take(i) =~= s);
    } else {
        lemma_sum_take_bound(s.drop_last(), i);
        assert(s.drop_last().take(i) =~= s.take(i));
    }
}

impl SubscriptionStats {
    /// The formatted statistics, one figure per line.
    pub fn print_summary(&self) -> (r: String)
        ensures
            r@ == "=== Subscription Statistics ===\n"@ + "Total subscriptions: "@ + spec_u64_str(
                self.total_subscriptions as int,
            ) + "\n"@ + "All updates subscriptions: "@ + spec_u64_str(self.all_updates_count as int)
                + "\n"@ + "Billionaire subscriptions: "@ + spec_u64_str(
                self.billionaire_subscriptions as int,
            ) + "\n"@ + "Industry subscriptions: "@ + spec_u64_str(
                self.industry_subscriptions as int,
            ) + "\n"@ + "Symbol subscriptions: "@ + spec_u64_str(self.symbol_subscriptions as int)
                + "\n"@,
    {
        let mut s = String::from_str("=== Subscription Statistics ===\n");
        s.append("Total subscriptions: ");
        let v1 = u64_to_string(self.total_subscriptions as u64);
        s.append(v1.as_str());
        s.append("\n");
        s.append("All updates subscriptions: ");
        let v2 = u64_to_string(self.all_updates_count as u64);
        s.append(v2.as_str());
        s.append("\n");
        s.append("Billionaire subscriptions: ");
        let v3 = u64_to_string(self.billionaire_subscriptions as u64);
        s.append(v3.as_str());
        s.append("\n");
        s.append("Industry subscriptions: ");
        let v4 = u64_to_string(self.industry_subscriptions as u64);
        s.append(v4.as_str());
        s.append("\n");
        s.append("Symbol subscriptions: ");
        let v5 = u64_to_string(self.symbol_subscriptions as u64);
        s.append(v5.as_str());
        s.append("\n");
        s
    }
}

/// A connection whose subscription was cleared receives nothing but
/// system notices from then on: the dispatch rule refuses every other
/// event for it.
pub proof fn lemma_unsubscribed_gets_only_system(
    state: RealtimeState,
    id: Seq<char>,
    u: UpdateMessage,
)
    requires
        !state.subscriptions@.contains_key(id),
        !spec_is_system(u),
    ensures
        !state.spec_should_deliver(id, u),
{
}

/// Whether an update is a system notice, decided at run time.
pub fn is_system_update(u: &UpdateMessage) -> (r: bool)
    ensures
        r == spec_is_system(*u),
{
    match u {
        UpdateMessage::SystemUpdate { .. } => true,
        _ => false,
    }
}

} // verus!
