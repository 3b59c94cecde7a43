//! What gossip comes to over several messages and rounds: facts spread, silent
//! members are found out, and changes of the ring arrive in order.

use crate::authority::{NodeId, ThreadId};
use crate::clock::{elapsed, Tick};
use crate::failure_detector::{probed, DetectorModel, TimeoutAction};
use crate::gossip_loop::{acted, acted_all, alive_list, buried, suspected, LoopModel};
use crate::gossip_state::{
    leavers, lists_facts, max_epoch, reconciled, touches_compute, updates_of, ClusterModel,
    FactModel, GossipModel, MemberRole,
};
use crate::membership::{alive_nodes, is_alive, merged, MemberStatus, MemberUpdate};
use crate::ring::{has_node, law_leave, others, Slot};
use crate::sequencer::{is_lowest, LogModel, RingMutation};
use vstd::prelude::*;

verus! {

// ---- facts ----

/// How bad a status is.
pub open spec fn severity(s: MemberStatus) -> int {
    match s {
        MemberStatus::Alive => 0,
        MemberStatus::Suspect => 1,
        MemberStatus::Dead => 2,
    }
}

/// Whether a fact is as recent as another: of a later incarnation, or of the same
/// and no less severe.
pub open spec fn as_recent(a: MemberUpdate, b: MemberUpdate) -> bool {
    a.incarnation.0 > b.incarnation.0 || a.incarnation.0 == b.incarnation.0 && severity(a.status)
        >= severity(b.status)
}

/// Of two facts about a member the more recent one stays, in whichever order they
/// arrive: one of a later incarnation, and at the same incarnation the worse. The
/// other members stay as they are.
pub proof fn law_recent_and_worse_news_win(
    m: Map<u64, MemberUpdate>,
    u: MemberUpdate,
    v: MemberUpdate,
    other: u64,
)
    requires
        u.node_id == v.node_id,
        other != u.node_id.0,
    ensures
        ({
            let k = u.node_id.0;
            let after = merged(merged(m, u), v);
            &&& after.contains_key(k)
            &&& as_recent(after[k], u)
            &&& as_recent(after[k], v)
            &&& m.contains_key(k) ==> as_recent(after[k], m[k])
            &&& after[k] == u || after[k] == v || m.contains_key(k) && after[k] == m[k]
            &&& after.contains_key(other) == m.contains_key(other)
            &&& after[other] == m[other]
        }),
{
}

/// Every fact that was heard counts: whatever else is heard with it, what is known
/// of its member afterwards is as recent.
pub proof fn law_heard_facts_count(g: GossipModel, facts: Seq<FactModel>, i: int)
    requires
        0 <= i < facts.len(),
    ensures
        ({
            let after = g.with_facts(facts).members;
            let k = facts[i].update.node_id.0;
            after.contains_key(k) && as_recent(after[k], facts[i].update)
        }),
    decreases facts.len(),
{
    let head = facts.drop_last();
    if i < head.len() {
        law_heard_facts_count(g, head, i);
        assert(head[i] == facts[i]);
    }
}

proof fn lemma_known_stays(g: GossipModel, facts: Seq<FactModel>, k: u64)
    requires
        g.members.contains_key(k),
    ensures
        g.with_facts(facts).members.contains_key(k),
        as_recent(g.with_facts(facts).members[k], g.members[k]),
    decreases facts.len(),
{
    if facts.len() > 0 {
        lemma_known_stays(g, facts.drop_last(), k);
    }
}

/// Gossip spreads: a node that has heard what another passes on knows every member
/// that the other knows, and of each member something as recent as either of them
/// knew.
pub proof fn law_gossip_spreads(
    g: GossipModel,
    other: GossipModel,
    facts: Seq<FactModel>,
    k: u64,
)
    requires
        other.wf(),
        lists_facts(other, facts),
    ensures
        ({
            let after = g.with_facts(facts).members;
            &&& other.members.contains_key(k) ==> after.contains_key(k) && as_recent(
                after[k],
                other.members[k],
            )
            &&& g.members.contains_key(k) ==> after.contains_key(k) && as_recent(
                after[k],
                g.members[k],
            )
        }),
{
    if g.members.contains_key(k) {
        lemma_known_stays(g, facts, k);
    }
    if other.members.contains_key(k) {
        let updates = updates_of(facts);
        assert(updates.contains(other.members[k]));
        let i = choose|i: int| 0 <= i < updates.len() && updates[i] == other.members[k];
        law_heard_facts_count(g, facts, i);
    }
}

/// A suspicion or a death changes the status of the one member and nothing else.
/// Only a member that is believed alive becomes suspect, and a dead one stays
/// dead.
pub proof fn law_only_the_status_changes(m: Map<u64, MemberUpdate>, n: NodeId, k: u64)
    ensures
        suspected(m, n).dom() == m.dom(),
        buried(m, n).dom() == m.dom(),
        k != n.0 ==> suspected(m, n)[k] == m[k] && buried(m, n)[k] == m[k],
        m.contains_key(n.0) ==> {
            let s = suspected(m, n)[n.0];
            let d = buried(m, n)[n.0];
            &&& s.status == (if m[n.0].status == MemberStatus::Alive {
                MemberStatus::Suspect
            } else {
                m[n.0].status
            })
            &&& d.status == MemberStatus::Dead
            &&& s.incarnation == m[n.0].incarnation && d.incarnation == m[n.0].incarnation
            &&& s.node_id == m[n.0].node_id && d.node_id == m[n.0].node_id
        },
        !is_alive(suspected(m, n), n),
        !is_alive(buried(m, n), n),
{
    assert(suspected(m, n).dom() =~= m.dom());
    assert(buried(m, n).dom() =~= m.dom());
}

// ---- silence ----

/// A member that stays silent is found out step by step: at the first look after
/// the probe timeout it is to be probed through others, at the first look after a
/// second one it is suspected, and at the first look after the suspicion timeout
/// it is dead; then it is forgotten. Nothing of it is due any earlier.
pub proof fn law_silent_member_is_found_out(
    m: DetectorModel,
    n: NodeId,
    t: Tick,
    a: Tick,
    b: Tick,
    c: Tick,
    soon: Tick,
)
    requires
        m.suspicion_timeout > 0,
        !m.suspected_since.contains_key(n.0),
        elapsed(a, t) >= m.probe_timeout,
        elapsed(b, a) >= m.probe_timeout,
        elapsed(c, b) >= m.suspicion_timeout,
    ensures
        ({
            let escalate = TimeoutAction::EscalateToIndirect(n);
            let suspect = TimeoutAction::MarkSuspect(n);
            let dead = TimeoutAction::MarkDead(n);
            let first = probed(m, n, t);
            let second = first.checked(a);
            let third = second.checked(b);
            let last = third.checked(c);
            &&& first.due(a, escalate) && !first.due(a, suspect) && !first.due(a, dead)
            &&& second.due(b, suspect) && !second.due(b, escalate) && !second.due(b, dead)
            &&& third.due(c, dead) && !third.due(c, escalate) && !third.due(c, suspect)
            &&& !last.due(soon, escalate) && !last.due(soon, suspect) && !last.due(soon, dead)
            &&& elapsed(soon, t) < m.probe_timeout ==> !first.due(soon, escalate)
            &&& elapsed(soon, a) < m.probe_timeout ==> !second.due(soon, suspect)
            &&& elapsed(soon, b) < m.suspicion_timeout ==> !third.due(soon, dead)
        }),
{
}

/// A look at the detector acts on no member but those that were silent: one that is
/// neither probed nor suspected stays so, and what is known of a member whose time
/// has not come stays as it is.
pub proof fn law_look_leaves_others_alone(m: DetectorModel, now: Tick, n: NodeId)
    requires
        !m.due(now, TimeoutAction::EscalateToIndirect(n)),
        !m.due(now, TimeoutAction::MarkSuspect(n)),
        !m.due(now, TimeoutAction::MarkDead(n)),
    ensures
        m.checked(now).probes.contains_key(n.0) == m.probes.contains_key(n.0),
        m.probes.contains_key(n.0) ==> m.checked(now).probes[n.0] == m.probes[n.0],
        m.checked(now).suspected_since.contains_key(n.0) == m.suspected_since.contains_key(n.0),
        m.suspected_since.contains_key(n.0) ==> m.checked(now).suspected_since[n.0]
            == m.suspected_since[n.0],
{
}

/// A member that answers is in the clear: after that round nothing of it is ever
/// due, until it is probed again, and somebody else can be probed.
pub proof fn law_answer_clears_the_member(l: LoopModel, n: NodeId, end: Tick, later: Tick)
    requires
        l.outstanding == Some(n),
    ensures
        !l.ended(true, end).detector.due(later, TimeoutAction::EscalateToIndirect(n)),
        !l.ended(true, end).detector.due(later, TimeoutAction::MarkSuspect(n)),
        !l.ended(true, end).detector.due(later, TimeoutAction::MarkDead(n)),
        l.ended(true, end).outstanding is None,
{
}

/// The loop waits for the answer of a silent member until that is dead, and only
/// until then.
pub proof fn law_silence_is_waited_out(l: LoopModel, n: NodeId, end: Tick)
    requires
        l.outstanding == Some(n),
    ensures
        l.ended(false, end).outstanding == (if l.detector.due(end, TimeoutAction::MarkDead(n)) {
            None
        } else {
            Some(n)
        }),
{
}

/// A member that is found dead is dead to this node, and where this node is the
/// lowest of those that then live, its departure is numbered, with a number above
/// all that are passed on, and is passed on itself.
pub proof fn law_dead_member_leaves(
    g: GossipModel,
    self_id: NodeId,
    n: NodeId,
    alive: Seq<NodeId>,
    i: int,
)
    requires
        g.members.contains_key(n.0),
        alive_nodes(buried(g.members, n), alive),
        max_epoch(g.recent) < u64::MAX,
    ensures
        ({
            let after = acted(g, self_id, TimeoutAction::MarkDead(n));
            &&& after.members[n.0].status == MemberStatus::Dead
            &&& is_lowest(self_id, alive) ==> after.recent.len() > 0 && after.recent.last().1 == (
            RingMutation::Leave { node_id: n }) && (0 <= i < g.recent.len() ==> g.recent[i].0
                < after.recent.last().0)
            &&& !is_lowest(self_id, alive) ==> after.recent == g.recent && after.log == g.log
        }),
{
    crate::gossip_loop::lemma_alive_unique(
        buried(g.members, n),
        alive,
        alive_list(buried(g.members, n)),
    );
    if 0 <= i < g.recent.len() {
        lemma_max_epoch(g.recent, i);
    }
}

proof fn lemma_max_epoch(recent: Seq<(u64, RingMutation)>, i: int)
    requires
        0 <= i < recent.len(),
    ensures
        recent[i].0 <= max_epoch(recent),
    decreases recent.len(),
{
    if i < recent.len() - 1 {
        lemma_max_epoch(recent.drop_last(), i);
        assert(recent.drop_last()[i] == recent[i]);
    }
}

/// The highest number in a list is in it and above all others; an empty list has
/// none.
pub proof fn law_highest_number(recent: Seq<(u64, RingMutation)>, i: int)
    ensures
        0 <= i < recent.len() ==> recent[i].0 <= max_epoch(recent),
        max_epoch(recent) > 0 ==> exists|j: int|
            0 <= j < recent.len() && (#[trigger] recent[j]).0 == max_epoch(recent),
    decreases recent.len(),
{
    if recent.len() > 0 {
        let head = recent.drop_last();
        law_highest_number(head, i);
        if 0 <= i < recent.len() {
            lemma_max_epoch(recent, i);
        }
        if recent.last().0 > max_epoch(head) {
            assert(recent[recent.len() - 1].0 == max_epoch(recent));
        } else if max_epoch(recent) > 0 {
            let j = choose|j: int|
                0 <= j < head.len() && (#[trigger] head[j]).0 == max_epoch(head);
            assert(recent[j].0 == max_epoch(recent));
        }
    }
}

// ---- changes of the ring ----

/// As long as anybody lives there is somebody who numbers the changes.
pub proof fn law_there_is_a_sequencer(alive: Seq<NodeId>)
    requires
        alive.len() > 0,
    ensures
        exists|n: NodeId| #[trigger] is_lowest(n, alive),
    decreases alive.len(),
{
    let last = alive.last();
    assert(alive[alive.len() - 1] == last);
    if alive.len() == 1 {
        assert(is_lowest(last, alive));
    } else {
        let head = alive.drop_last();
        law_there_is_a_sequencer(head);
        let n = choose|n: NodeId| #[trigger] is_lowest(n, head);
        let at = choose|i: int| 0 <= i < head.len() && head[i] == n;
        assert(alive[at] == n);
        if last.0 < n.0 {
            assert forall|i: int| 0 <= i < alive.len() implies last.0 <= (#[trigger] alive[i]).0 by {
                if i < head.len() {
                    assert(head[i] == alive[i]);
                }
            }
            assert(is_lowest(last, alive));
        } else {
            assert forall|i: int| 0 <= i < alive.len() implies n.0 <= (#[trigger] alive[i]).0 by {
                if i < head.len() {
                    assert(head[i] == alive[i]);
                }
            }
            assert(is_lowest(n, alive));
        }
    }
}

/// Numbered changes are handed out in the order of their numbers, in whatever order
/// they were heard: where all numbers from the next one up to some are there, the
/// change of each is handed out in its place.
pub proof fn law_changes_are_handed_out_by_number(
    g: GossipModel,
    heard: Seq<(u64, RingMutation)>,
    n: nat,
    j: int,
)
    requires
        g.log.pending.dom().is_empty(),
        g.log.applied + n <= u64::MAX,
        forall|a: int, b: int|
            0 <= a < heard.len() && 0 <= b < heard.len() && (#[trigger] heard[a]).0 == (
            #[trigger] heard[b]).0 ==> heard[a].1 == heard[b].1,
        forall|e: u64|
            g.log.applied < e <= g.log.applied + n ==> #[trigger] has_number(heard, e),
        0 <= j < heard.len(),
        g.log.applied < heard[j].0 <= g.log.applied + n,
    ensures
        ({
            let log = g.with_mutations(heard).log;
            &&& log.applied == g.log.applied
            &&& log.ready().len() >= n
            &&& log.ready()[heard[j].0 - g.log.applied - 1] == heard[j].1
        }),
{
    let log = g.with_mutations(heard).log;
    lemma_heard_pending(g, heard);
    assert forall|e: u64| g.log.applied < e <= g.log.applied + n implies
        #[trigger] log.pending.contains_key(e) by {
        assert(has_number(heard, e));
    }
    lemma_ready_len(log, n);
    assert(has_number(heard, heard[j].0));
    crate::sequencer::law_drain_order(log, heard[j].0 - g.log.applied - 1);
    let e = heard[j].0;
    let c = choose|c: int|
        0 <= c < heard.len() && (#[trigger] heard[c]).0 == e && log.pending[e] == heard[c].1;
    assert(heard[c].1 == heard[j].1);
}

/// Whether a list has a change of some number.
pub open spec fn has_number(heard: Seq<(u64, RingMutation)>, e: u64) -> bool {
    exists|j: int| 0 <= j < heard.len() && (#[trigger] heard[j]).0 == e
}

proof fn lemma_heard_pending(g: GossipModel, heard: Seq<(u64, RingMutation)>)
    requires
        g.log.pending.dom().is_empty(),
    ensures
        ({
            let log = g.with_mutations(heard).log;
            &&& log.applied == g.log.applied
            &&& forall|e: u64|
                e > g.log.applied && #[trigger] has_number(heard, e) ==> log.pending.contains_key(e)
                    && exists|j: int|
                    0 <= j < heard.len() && (#[trigger] heard[j]).0 == e && log.pending[e]
                        == heard[j].1
        }),
    decreases heard.len(),
{
    if heard.len() > 0 {
        let head = heard.drop_last();
        let last = heard.last();
        lemma_heard_pending(g, head);
        let log = g.with_mutations(heard).log;
        let before = g.with_mutations(head).log;
        assert forall|e: u64| e > g.log.applied && #[trigger] has_number(heard, e) implies log.pending.contains_key(
            e,
        ) && exists|j: int|
            0 <= j < heard.len() && (#[trigger] heard[j]).0 == e && log.pending[e]
                == heard[j].1 by {
            if e == last.0 {
                assert(heard[heard.len() - 1] == last);
            } else {
                let j = choose|j: int| 0 <= j < heard.len() && (#[trigger] heard[j]).0 == e;
                assert(head[j].0 == e);
                assert(has_number(head, e));
                let c = choose|c: int|
                    0 <= c < head.len() && (#[trigger] head[c]).0 == e && before.pending[e]
                        == head[c].1;
                assert(heard[c] == head[c]);
            }
        }
    }
}

proof fn lemma_ready_len(log: LogModel, n: nat)
    requires
        log.applied + n <= u64::MAX,
        forall|e: u64|
            log.applied < e <= log.applied + n ==> #[trigger] log.pending.contains_key(e),
    ensures
        log.ready().len() >= n,
    decreases n,
{
    if n > 0 {
        assert(log.pending.contains_key((log.applied + 1) as u64));
        lemma_ready_len(log.advanced(), (n - 1) as nat);
    }
}

/// A change that was heard is passed on, behind those that were heard before, of
/// which at most the oldest makes room: there are never more than sixteen.
pub proof fn law_heard_change_is_passed_on(g: GossipModel, e: u64, m: RingMutation, i: int)
    requires
        g.recent.len() <= 16,
    ensures
        ({
            let after = g.with_mutation(e, m).recent;
            &&& after.last() == (e, m)
            &&& g.recent.len() < 16 ==> after == g.recent.push((e, m))
            &&& g.recent.len() == 16 ==> after.len() == 16 && (0 <= i < 15 ==> after[i]
                == g.recent[i + 1])
        }),
{
}

/// A compute member that joins has all its slots behind those that were there, and
/// one that leaves has none, while the slots of all others stay. The storage ring
/// is not touched.
pub proof fn law_compute_changes_move_the_compute_ring(
    c: ClusterModel,
    g: GossipModel,
    node_id: NodeId,
    thread_count: u32,
    t: u32,
)
    requires
        g.role(node_id) == MemberRole::Compute,
    ensures
        ({
            let more = c.routed(g, RingMutation::Join { node_id, thread_count });
            &&& more.compute.len() == c.compute.len() + thread_count
            &&& more.compute.take(c.compute.len() as int) == c.compute
            &&& t < thread_count ==> more.compute[c.compute.len() + t] == (node_id, ThreadId(t))
            &&& more.storage == c.storage && more.halt == c.halt && more.addresses == c.addresses
        }),
        ({
            let less = c.routed(g, RingMutation::Leave { node_id });
            &&& !has_node(less.compute, node_id)
            &&& less.compute.to_multiset() == c.compute.to_multiset().filter(
                |s: Slot| s.0 != node_id,
            )
            &&& less.storage == c.storage && less.halt == c.halt && less.addresses == c.addresses
        }),
{
    law_leave(c.compute, node_id);
    let more = c.routed(g, RingMutation::Join { node_id, thread_count });
    assert(more.compute.take(c.compute.len() as int) =~= c.compute);
    assert(others(c.compute, node_id) =~= c.compute.to_multiset().filter(
        |s: Slot| s.0 != node_id,
    ));
}

/// A storage member that joins is entered in the books, as far as it said where it
/// is and which log it has; what it did not say stays as it was.
pub proof fn law_storage_member_is_entered(
    c: ClusterModel,
    g: GossipModel,
    node_id: NodeId,
    thread_count: u32,
    other: u64,
)
    requires
        g.profiles.contains_key(node_id.0),
        g.profiles[node_id.0].role == MemberRole::Storage,
        other != node_id.0,
    ensures
        ({
            let p = g.profiles[node_id.0];
            let after = c.routed(g, RingMutation::Join { node_id, thread_count });
            &&& p.store_address.len() > 0 ==> after.addresses.contains_pair(
                node_id.0,
                p.store_address,
            )
            &&& p.store_address.len() == 0 ==> after.addresses == c.addresses
            &&& p.log_id.rank() != 0 ==> after.identities.contains_pair(node_id.0, p.log_id)
            &&& p.log_id.rank() == 0 ==> after.identities == c.identities
            &&& after.addresses.contains_key(other) == c.addresses.contains_key(other)
            &&& after.identities.contains_key(other) == c.identities.contains_key(other)
            &&& after.addresses[other] == c.addresses[other]
            &&& after.identities[other] == c.identities[other]
        }),
{
}

/// The members that departed are those that left in one of the changes.
pub proof fn law_leavers_left(ms: Seq<RingMutation>, n: NodeId)
    ensures
        leavers(ms).contains(n) <==> exists|i: int|
            0 <= i < ms.len() && #[trigger] ms[i] == (RingMutation::Leave { node_id: n }),
    decreases ms.len(),
{
    if ms.len() > 0 {
        let head = ms.drop_last();
        law_leavers_left(head, n);
        let before = leavers(head);
        let after = leavers(ms);
        if exists|i: int|
            0 <= i < head.len() && #[trigger] head[i] == (RingMutation::Leave { node_id: n }) {
            let i = choose|i: int|
                0 <= i < head.len() && #[trigger] head[i] == (RingMutation::Leave { node_id: n });
            assert(ms[i] == head[i]);
            let j = choose|j: int| 0 <= j < before.len() && before[j] == n;
            assert(after[j] == n);
        }
        if ms.last() == (RingMutation::Leave { node_id: n }) {
            assert(ms[ms.len() - 1] == ms.last());
            assert(after[before.len() as int] == n);
        }
        if after.contains(n) && ms.last() != (RingMutation::Leave { node_id: n }) {
            let j = choose|j: int| 0 <= j < after.len() && after[j] == n;
            assert(before[j] == n);
        }
        if exists|i: int|
            0 <= i < ms.len() && #[trigger] ms[i] == (RingMutation::Leave { node_id: n }) {
            let i = choose|i: int|
                0 <= i < ms.len() && #[trigger] ms[i] == (RingMutation::Leave { node_id: n });
            if i < head.len() {
                assert(head[i] == ms[i]);
            }
        }
    }
}

/// The book of identities takes over the log of every storage member that told it,
/// and keeps all others.
pub proof fn law_book_takes_over_what_is_told(
    book: Map<u64, crate::datum::DatumId>,
    g: GossipModel,
    k: u64,
)
    ensures
        ({
            let told = g.profiles.contains_key(k) && g.profiles[k].role == MemberRole::Storage
                && g.profiles[k].log_id.rank() != 0;
            let after = reconciled(book, g);
            &&& told ==> after.contains_pair(k, g.profiles[k].log_id)
            &&& !told ==> after.contains_key(k) == book.contains_key(k)
            &&& !told && book.contains_key(k) ==> after[k] == book[k]
        }),
{
}

/// The departure that the sequencer numbers is the next change: where it has carried
/// out everything that it has heard of, it carries out the departure at once, and
/// nothing else.
pub proof fn law_numbered_departure_is_next(
    g: GossipModel,
    self_id: NodeId,
    n: NodeId,
    alive: Seq<NodeId>,
)
    requires
        alive_nodes(buried(g.members, n), alive),
        is_lowest(self_id, alive),
        max_epoch(g.recent) < u64::MAX,
        g.log.applied == max_epoch(g.recent),
        g.log.pending.dom().is_empty(),
    ensures
        acted(g, self_id, TimeoutAction::MarkDead(n)).log.ready() == seq![
            RingMutation::Leave { node_id: n },
        ],
{
    crate::gossip_loop::lemma_alive_unique(
        buried(g.members, n),
        alive,
        alive_list(buried(g.members, n)),
    );
    let log = acted(g, self_id, TimeoutAction::MarkDead(n)).log;
    reveal_with_fuel(LogModel::ready, 3);
    assert(log.has_next());
    assert(!log.advanced().has_next());
    assert(log.ready() =~= seq![RingMutation::Leave { node_id: n }]);
}

/// The workers evict what is no longer at home exactly where a member that computes
/// has joined or left.
pub proof fn law_compute_changes_evict(
    g: GossipModel,
    ms: Seq<RingMutation>,
    i: int,
    node_id: NodeId,
)
    ensures
        0 <= i < ms.len() && g.role(node_id) == MemberRole::Compute && (ms[i] == (
        RingMutation::Leave { node_id }) || (ms[i] matches RingMutation::Join { node_id: n, .. }
            && n == node_id)) ==> touches_compute(g, ms),
        touches_compute(g, ms) ==> exists|j: int|
            0 <= j < ms.len() && match #[trigger] ms[j] {
                RingMutation::Join { node_id: n, .. } => g.role(n) == MemberRole::Compute,
                RingMutation::Leave { node_id: n } => g.role(n) == MemberRole::Compute,
            },
{
    if touches_compute(g, ms) {
        let j = choose|j: int|
            0 <= j < ms.len() && g.role(crate::gossip_state::subject(#[trigger] ms[j]))
                == MemberRole::Compute;
        assert(match ms[j] {
            RingMutation::Join { node_id: n, .. } => g.role(n) == MemberRole::Compute,
            RingMutation::Leave { node_id: n } => g.role(n) == MemberRole::Compute,
        });
    }
    if 0 <= i < ms.len() && g.role(node_id) == MemberRole::Compute && (ms[i] == (
    RingMutation::Leave { node_id }) || (ms[i] matches RingMutation::Join { node_id: n, .. } && n
        == node_id)) {
        assert(g.role(crate::gossip_state::subject(ms[i])) == MemberRole::Compute);
    }
}

// ---- several at once ----

/// Every action that is due is carried out, whatever others are due with it: a known
/// member that is found dead is dead afterwards, and one that is suspected is not
/// believed alive. A member of which nothing is due stays as it is.
pub proof fn law_every_due_action_is_carried_out(
    g: GossipModel,
    self_id: NodeId,
    actions: Seq<TimeoutAction>,
    n: NodeId,
)
    requires
        g.members.contains_key(n.0),
    ensures
        ({
            let after = acted_all(g, self_id, actions);
            &&& after.members.contains_key(n.0)
            &&& actions.contains(TimeoutAction::MarkDead(n)) ==> after.members[n.0].status
                == MemberStatus::Dead
            &&& actions.contains(TimeoutAction::MarkSuspect(n)) ==> after.members[n.0].status
                != MemberStatus::Alive
            &&& !actions.contains(TimeoutAction::MarkDead(n)) && !actions.contains(
                TimeoutAction::MarkSuspect(n),
            ) ==> after.members[n.0] == g.members[n.0]
            &&& g.members[n.0].status == MemberStatus::Dead ==> after.members[n.0].status
                == MemberStatus::Dead
            &&& g.members[n.0].status != MemberStatus::Alive ==> after.members[n.0].status
                != MemberStatus::Alive
        }),
    decreases actions.len(),
{
    if actions.len() > 0 {
        let head = actions.drop_last();
        law_every_due_action_is_carried_out(g, self_id, head, n);
        lemma_contains_last(actions, TimeoutAction::MarkDead(n));
        lemma_contains_last(actions, TimeoutAction::MarkSuspect(n));
    }
}

proof fn lemma_contains_last(actions: Seq<TimeoutAction>, a: TimeoutAction)
    requires
        actions.len() > 0,
    ensures
        actions.contains(a) <==> actions.drop_last().contains(a) || actions.last() == a,
{
    let head = actions.drop_last();
    if head.contains(a) {
        let i = choose|i: int| 0 <= i < head.len() && head[i] == a;
        assert(actions[i] == a);
    }
    if actions.last() == a {
        assert(actions[actions.len() - 1] == a);
    }
    if actions.contains(a) && actions.last() != a {
        let i = choose|i: int| 0 <= i < actions.len() && actions[i] == a;
        assert(head[i] == a);
    }
}

/// Changes are carried out in order: a compute member that leaves, and does not join
/// again behind that, has no slot in the end, and one that joins, and does not leave
/// behind that, has its slots.
pub proof fn law_last_change_of_a_member_counts(
    c: ClusterModel,
    g: GossipModel,
    ms: Seq<RingMutation>,
    i: int,
    node_id: NodeId,
)
    requires
        0 <= i < ms.len(),
        g.role(node_id) == MemberRole::Compute,
        forall|j: int|
            i < j < ms.len() ==> match #[trigger] ms[j] {
                RingMutation::Join { node_id: n, .. } => n != node_id,
                RingMutation::Leave { node_id: n } => n != node_id,
            },
    ensures
        ms[i] == (RingMutation::Leave { node_id }) ==> !has_node(
            c.routed_all(g, ms).compute,
            node_id,
        ),
        ms[i] matches RingMutation::Join { node_id: n, thread_count } && n == node_id
            && thread_count > 0 ==> has_node(c.routed_all(g, ms).compute, node_id),
    decreases ms.len(),
{
    let head = ms.drop_last();
    let last = ms.last();
    let before = c.routed_all(g, head);
    let after = c.routed_all(g, ms);
    if i == ms.len() - 1 {
        if let RingMutation::Leave { node_id: n } = last {
            if n == node_id {
                law_leave(before.compute, node_id);
            }
        }
        if let RingMutation::Join { node_id: n, thread_count } = last {
            if n == node_id && thread_count > 0 {
                assert(after.compute[before.compute.len() as int].0 == node_id);
            }
        }
    } else {
        assert forall|j: int| i < j < head.len() implies match #[trigger] head[j] {
            RingMutation::Join { node_id: n, .. } => n != node_id,
            RingMutation::Leave { node_id: n } => n != node_id,
        } by {
            assert(head[j] == ms[j]);
        }
        law_last_change_of_a_member_counts(c, g, head, i, node_id);
        assert(ms[ms.len() - 1] == last);
        lemma_other_change(before, g, last, node_id);
    }
}

/// A change of another member neither gives a node a slot nor takes its slots.
proof fn lemma_other_change(c: ClusterModel, g: GossipModel, m: RingMutation, node_id: NodeId)
    requires
        match m {
            RingMutation::Join { node_id: n, .. } => n != node_id,
            RingMutation::Leave { node_id: n } => n != node_id,
        },
    ensures
        has_node(c.routed(g, m).compute, node_id) == has_node(c.compute, node_id),
{
    let (a, b) = (c.compute, c.routed(g, m).compute);
    match m {
        RingMutation::Join { node_id: n, thread_count } => {
            if has_node(a, node_id) {
                let i = choose|i: int| 0 <= i < a.len() && (#[trigger] a[i]).0 == node_id;
                if g.role(n) == MemberRole::Compute {
                    assert(b[i] == a[i]);
                }
            }
            if has_node(b, node_id) && g.role(n) == MemberRole::Compute {
                let i = choose|i: int| 0 <= i < b.len() && (#[trigger] b[i]).0 == node_id;
                assert(i < a.len());
                assert(a[i] == b[i]);
            }
        },
        RingMutation::Leave { node_id: n } => {
            if g.role(n) == MemberRole::Compute {
                law_leave(a, n);
                lemma_node_in_multiset(a, node_id);
                lemma_node_in_multiset(b, node_id);
                if has_node(a, node_id) {
                    let s = choose|s: Slot| s.0 == node_id && #[trigger] a.to_multiset().count(s) > 0;
                    assert(others(a, n).count(s) > 0);
                    assert(b.to_multiset().count(s) > 0);
                }
                if has_node(b, node_id) {
                    let s = choose|s: Slot| s.0 == node_id && #[trigger] b.to_multiset().count(s) > 0;
                    assert(others(a, n).count(s) > 0);
                    assert(a.to_multiset().count(s) > 0);
                }
            }
        },
    }
}

proof fn lemma_node_in_multiset(slots: Seq<Slot>, node_id: NodeId)
    ensures
        has_node(slots, node_id) <==> exists|s: Slot|
            s.0 == node_id && #[trigger] slots.to_multiset().count(s) > 0,
{
    broadcast use vstd::seq_lib::group_to_multiset_ensures;

    if has_node(slots, node_id) {
        let i = choose|i: int| 0 <= i < slots.len() && (#[trigger] slots[i]).0 == node_id;
        assert(slots.contains(slots[i]));
        assert(slots.to_multiset().count(slots[i]) > 0);
    }
    if exists|s: Slot| s.0 == node_id && #[trigger] slots.to_multiset().count(s) > 0 {
        let s = choose|s: Slot| s.0 == node_id && #[trigger] slots.to_multiset().count(s) > 0;
        assert(slots.contains(s));
        let i = choose|i: int| 0 <= i < slots.len() && slots[i] == s;
        assert(slots[i].0 == node_id);
    }
}

} // verus!
