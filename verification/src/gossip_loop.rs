//! One round of gossip: probe a member, act on what has timed out, and apply
//! what has come in.
//!
//! A round has two halves. [`GossipLoop::begin`] says whom to probe, and
//! [`GossipLoop::finish`] is told whether an answer came.

use crate::authority::NodeId;
use crate::clock::Tick;
use crate::failure_detector::{DetectorModel, FailureDetector, ProbeState, TimeoutAction};
use crate::gossip_state::{
    apply_ready_mutations, facts_view, leavers, lists_facts, max_epoch, touches_compute, Applied,
    ClusterState, GossipModel, GossipState, MemberFact,
};
use crate::membership::{alive_nodes, is_alive, MemberStatus, MemberUpdate};
use crate::sequencer::{is_lowest, is_sequencer, RingMutation};
use vstd::prelude::*;

verus! {

/// The members believed alive, in ascending order.
pub open spec fn alive_list(m: Map<u64, MemberUpdate>) -> Seq<NodeId> {
    choose|alive: Seq<NodeId>| alive_nodes(m, alive)
}

/// The list of live members is unique.
pub proof fn lemma_alive_unique(m: Map<u64, MemberUpdate>, a: Seq<NodeId>, b: Seq<NodeId>)
    requires
        alive_nodes(m, a),
        alive_nodes(m, b),
    ensures
        a == b,
{
    assert forall|n: NodeId| a.contains(n) <==> b.contains(n) by {
        assert(a.contains(n) <==> is_alive(m, n));
        assert(b.contains(n) <==> is_alive(m, n));
    }
    lemma_ascending_unique(a, b);
}

proof fn lemma_ascending_unique(a: Seq<NodeId>, b: Seq<NodeId>)
    requires
        forall|i: int, j: int| 0 <= i < j < a.len() ==> (#[trigger] a[i]).0 < (#[trigger] a[j]).0,
        forall|i: int, j: int| 0 <= i < j < b.len() ==> (#[trigger] b[i]).0 < (#[trigger] b[j]).0,
        forall|n: NodeId| #[trigger] a.contains(n) <==> b.contains(n),
    ensures
        a == b,
    decreases a.len(),
{
    if a.len() == 0 {
        if b.len() > 0 {
            assert(b.contains(b[0]));
            assert(a.contains(b[0]));
        }
        assert(a =~= b);
    } else {
        assert(a.contains(a.last()));
        let j = choose|j: int| 0 <= j < b.len() && b[j] == a.last();
        assert(b.contains(b.last()));
        assert(a.contains(b.last()));
        let i = choose|i: int| 0 <= i < a.len() && a[i] == b.last();
        assert(a.last() == b.last()) by {
            if i < a.len() - 1 {
                assert(a[i].0 < a[a.len() - 1].0);
            }
            if j < b.len() - 1 {
                assert(b[j].0 < b[b.len() - 1].0);
            }
        }
        let a1 = a.drop_last();
        let b1 = b.drop_last();
        assert forall|n: NodeId| #[trigger] a1.contains(n) <==> b1.contains(n) by {
            if a1.contains(n) {
                let p = choose|p: int| 0 <= p < a1.len() && a1[p] == n;
                assert(a[p].0 < a[a.len() - 1].0);
                assert(a.contains(a[p]));
                let q = choose|q: int| 0 <= q < b.len() && b[q] == n;
                assert(b1[q] == n);
            }
            if b1.contains(n) {
                let p = choose|p: int| 0 <= p < b1.len() && b1[p] == n;
                assert(b[p].0 < b[b.len() - 1].0);
                assert(b.contains(b[p]));
                assert(a.contains(n));
                let q = choose|q: int| 0 <= q < a.len() && a[q] == n;
                assert(a1[q] == n);
            }
        }
        lemma_ascending_unique(a1, b1);
        assert(a =~= a1.push(a.last()));
        assert(b =~= b1.push(b.last()));
    }
}

/// The members that this node may probe.
pub open spec fn candidates(m: Map<u64, MemberUpdate>, self_id: NodeId) -> Seq<NodeId> {
    alive_list(m).filter(|n: NodeId| n != self_id)
}

/// What is known of the members once this node has refuted a suspicion of
/// itself.
pub open spec fn self_refuted(m: Map<u64, MemberUpdate>, self_id: NodeId) -> Map<
    u64,
    MemberUpdate,
> {
    if m.contains_key(self_id.0) && m[self_id.0].status == MemberStatus::Suspect {
        m.insert(self_id.0, m[self_id.0].refuted())
    } else {
        m
    }
}

/// Whether this node can refute a suspicion: its incarnation can still rise.
pub open spec fn can_refute(m: Map<u64, MemberUpdate>, self_id: NodeId) -> bool {
    m.contains_key(self_id.0) && m[self_id.0].status == MemberStatus::Suspect
        ==> m[self_id.0].incarnation.0 < u64::MAX
}

/// What is known once a member is suspected.
pub open spec fn suspected(m: Map<u64, MemberUpdate>, n: NodeId) -> Map<u64, MemberUpdate> {
    if m.contains_key(n.0) && m[n.0].status == MemberStatus::Alive {
        m.insert(n.0, m[n.0].with_status(MemberStatus::Suspect))
    } else {
        m
    }
}

/// What is known once a member is dead.
pub open spec fn buried(m: Map<u64, MemberUpdate>, n: NodeId) -> Map<u64, MemberUpdate> {
    if m.contains_key(n.0) && m[n.0].status != MemberStatus::Dead {
        m.insert(n.0, m[n.0].with_status(MemberStatus::Dead))
    } else {
        m
    }
}

/// The state once the departure of a dead member has been numbered, which only
/// the sequencer does. The numbers end with the largest there is.
pub open spec fn minted(g: GossipModel, self_id: NodeId, dead: NodeId) -> GossipModel {
    if is_lowest(self_id, alive_list(g.members)) && max_epoch(g.recent) < u64::MAX {
        g.with_mutation((max_epoch(g.recent) + 1) as u64, RingMutation::Leave { node_id: dead })
    } else {
        g
    }
}

/// The state after an action. A probe through others is not made: the second
/// timeout decides.
pub open spec fn acted(g: GossipModel, self_id: NodeId, a: TimeoutAction) -> GossipModel {
    match a {
        TimeoutAction::EscalateToIndirect(_) => g,
        TimeoutAction::MarkSuspect(n) => GossipModel { members: suspected(g.members, n), ..g },
        TimeoutAction::MarkDead(n) => minted(
            GossipModel { members: buried(g.members, n), ..g },
            self_id,
            n,
        ),
    }
}

/// The state after some actions, one after the other.
pub open spec fn acted_all(g: GossipModel, self_id: NodeId, actions: Seq<TimeoutAction>) -> GossipModel
    decreases actions.len(),
{
    if actions.len() == 0 {
        g
    } else {
        acted(acted_all(g, self_id, actions.drop_last()), self_id, actions.last())
    }
}

/// The mathematical content of a [`GossipLoop`].
pub struct LoopModel {
    pub self_id: NodeId,
    pub detector: DetectorModel,
    /// How many probes have been started, wrapping.
    pub turn: usize,
    /// Whose answer is awaited.
    pub outstanding: Option<NodeId>,
}

impl LoopModel {
    /// The loop once it has picked someone to probe: whoever's turn it is,
    /// unless an answer is still awaited or there is nobody.
    pub open spec fn begun(self, m: Map<u64, MemberUpdate>, now: Tick) -> LoopModel {
        let c = candidates(m, self.self_id);
        if self.outstanding is Some || c.len() == 0 {
            self
        } else {
            let target = c[self.turn as int % c.len() as int];
            LoopModel {
                detector: DetectorModel {
                    probes: self.detector.probes.insert(
                        target.0,
                        ProbeState::AwaitingDirectAck { started_at: now },
                    ),
                    ..self.detector
                },
                turn: self.turn.wrapping_add(1),
                outstanding: Some(target),
                ..self
            }
        }
    }

    /// The loop once an answer has come, or not.
    pub open spec fn heard(self, answered: bool) -> LoopModel {
        match self.outstanding {
            Some(t) => if answered {
                LoopModel {
                    detector: DetectorModel {
                        probes: self.detector.probes.remove(t.0),
                        suspected_since: self.detector.suspected_since.remove(t.0),
                        ..self.detector
                    },
                    outstanding: None,
                    ..self
                }
            } else {
                self
            },
            None => self,
        }
    }

    /// The loop at the end of a round: what has timed out was acted upon, and
    /// nobody waits any longer for the answer of a member that is dead.
    pub open spec fn ended(self, answered: bool, now: Tick) -> LoopModel {
        let heard = self.heard(answered);
        LoopModel {
            detector: heard.detector.checked(now),
            outstanding: match heard.outstanding {
                Some(t) => if heard.detector.due(now, TimeoutAction::MarkDead(t)) {
                    None
                } else {
                    Some(t)
                },
                None => None,
            },
            ..heard
        }
    }
}

/// What a round of gossip came to.
#[derive(Debug, PartialEq, Eq)]
pub struct Round {
    /// What had timed out.
    pub actions: Vec<TimeoutAction>,
    /// What the workers are to do.
    pub applied: Applied,
}

/// A node's part in gossip.
pub struct GossipLoop {
    self_id: NodeId,
    detector: FailureDetector,
    turn: usize,
    outstanding: Option<NodeId>,
}

impl View for GossipLoop {
    type V = LoopModel;

    closed spec fn view(&self) -> LoopModel {
        LoopModel {
            self_id: self.self_id,
            detector: self.detector@,
            turn: self.turn,
            outstanding: self.outstanding,
        }
    }
}

fn live_members(gossip: &GossipState) -> (alive: Vec<NodeId>)
    requires
        gossip@.wf(),
    ensures
        alive@ == alive_list(gossip@.members),
{
    let alive = gossip.member_table.alive_members();
    proof {
        assert(alive_nodes(gossip@.members, alive@));
        lemma_alive_unique(gossip@.members, alive@, alive_list(gossip@.members));
    }
    alive
}

/// Refutes a suspicion of this node itself.
pub fn self_refute_if_falsely_suspected(self_id: NodeId, gossip: &mut GossipState)
    requires
        old(gossip)@.wf(),
        can_refute(old(gossip)@.members, self_id),
    ensures
        final(gossip)@ == (GossipModel {
            members: self_refuted(old(gossip)@.members, self_id),
            ..old(gossip)@
        }),
        final(gossip)@.wf(),
{
    let suspected = match gossip.member_table.get(self_id) {
        Some(update) => update.status == MemberStatus::Suspect,
        None => false,
    };
    if suspected {
        gossip.member_table.confirm_alive_self(self_id);
    }
}

/// Numbers the departure of a dead member, where this node is the sequencer.
pub fn mint_leave_if_sequencer(self_id: NodeId, gossip: &mut GossipState, dead: NodeId)
    requires
        old(gossip)@.wf(),
    ensures
        final(gossip)@ == minted(old(gossip)@, self_id, dead),
        final(gossip)@.wf(),
{
    let alive = live_members(gossip);
    if !is_sequencer(self_id, alive.as_slice()) {
        return ;
    }
    let highest: u64 = gossip.highest_seen_epoch();
    if highest < u64::MAX {
        gossip.record_mutation(highest + 1, RingMutation::Leave { node_id: dead });
    }
}

impl GossipLoop {
    pub fn new(self_id: NodeId, probe_timeout: u64, suspicion_timeout: u64) -> (l: Self)
        ensures
            l@ == (LoopModel {
                self_id,
                detector: DetectorModel {
                    probe_timeout,
                    suspicion_timeout,
                    probes: Map::empty(),
                    suspected_since: Map::empty(),
                },
                turn: 0,
                outstanding: None,
            }),
    {
        Self {
            self_id,
            detector: FailureDetector::with_timeouts(probe_timeout, suspicion_timeout),
            turn: 0,
            outstanding: None,
        }
    }

    /// Starts a round: refutes a suspicion of this node, and says whom to
    /// probe.
    pub fn begin(&mut self, gossip: &mut GossipState, now: Tick) -> (target: Option<NodeId>)
        requires
            old(gossip)@.wf(),
            can_refute(old(gossip)@.members, old(self)@.self_id),
        ensures
            final(gossip)@ == (GossipModel {
                members: self_refuted(old(gossip)@.members, old(self)@.self_id),
                ..old(gossip)@
            }),
            final(gossip)@.wf(),
            final(self)@ == old(self)@.begun(final(gossip)@.members, now),
            target == final(self)@.outstanding,
    {
        self_refute_if_falsely_suspected(self.self_id, gossip);
        if self.outstanding.is_none() {
            let alive = live_members(gossip);
            let self_id = self.self_id;
            let mut others: Vec<NodeId> = Vec::new();
            let mut i: usize = 0;
            assert(without_self(alive@.take(0), self_id) =~= seq![]) by {
                reveal(Seq::filter);
            }
            while i < alive.len()
                invariant
                    i <= alive.len(),
                    others@ == without_self(alive@.take(i as int), self_id),
                decreases alive.len() - i,
            {
                proof {
                    assert(alive@.take(i + 1).drop_last() =~= alive@.take(i as int));
                    assert(alive@.take(i + 1).last() == alive@[i as int]);
                    reveal(Seq::filter);
                }
                if alive[i] != self_id {
                    others.push(alive[i]);
                }
                i = i + 1;
            }
            assert(alive@.take(i as int) =~= alive@);
            assert(others@ == candidates(gossip@.members, self_id));
            if others.len() > 0 {
                let target = others[self.turn % others.len()];
                self.turn = self.turn.wrapping_add(1);
                self.detector.begin_direct_probe(target, now);
                self.outstanding = Some(target);
            }
        }
        self.outstanding
    }

    /// Ends a round. `answered` says whether the probed member answered; what
    /// came along with its answer has been merged.
    pub fn finish(
        &mut self,
        gossip: &mut GossipState,
        cluster: &mut ClusterState,
        answered: bool,
        now: Tick,
    ) -> (round: Round)
        requires
            old(gossip)@.wf(),
        ensures
            ({
                let heard = old(self)@.heard(answered);
                let acted = acted_all(old(gossip)@, heard.self_id, round.actions@);
                &&& round.actions@.no_duplicates()
                &&& forall|a: TimeoutAction|
                    #[trigger] round.actions@.contains(a) <==> heard.detector.due(now, a)
                &&& final(self)@ == old(self)@.ended(answered, now)
                &&& final(gossip)@ == (GossipModel { log: acted.log.drained(), ..acted })
                &&& final(cluster)@ == old(cluster)@.routed_all(acted, acted.log.ready())
                &&& round.applied.evict == touches_compute(acted, acted.log.ready())
                &&& round.applied.departed@ == if round.applied.evict {
                    leavers(acted.log.ready())
                } else {
                    seq![]
                }
            }),
            final(gossip)@.wf(),
    {
        if answered {
            if let Some(target) = self.outstanding {
                self.detector.on_ack(target);
                self.outstanding = None;
            }
        }
        let ghost heard = self@;
        let ghost g = gossip@;
        let actions = self.detector.check_timeouts(now);
        let awaited = self.outstanding;
        let mut i: usize = 0;
        while i < actions.len()
            invariant
                i <= actions.len(),
                gossip@.wf(),
                gossip@ == acted_all(g, heard.self_id, actions@.take(i as int)),
                self.self_id == heard.self_id,
                self.turn == heard.turn,
                self.detector@ == heard.detector.checked(now),
                awaited == heard.outstanding,
                self.outstanding == match awaited {
                    Some(t) => if actions@.take(i as int).contains(TimeoutAction::MarkDead(t)) {
                        None
                    } else {
                        Some(t)
                    },
                    None => None,
                },
            decreases actions.len() - i,
        {
            let action = actions[i];
            let ghost seen = actions@.take(i as int);
            let ghost more = actions@.take(i + 1);
            let ghost before = gossip@;
            assert(more.drop_last() =~= seen);
            assert(more =~= seen.push(action));
            proof {
                if let Some(t) = awaited {
                    let d = TimeoutAction::MarkDead(t);
                    if seen.contains(d) {
                        let j = choose|j: int| 0 <= j < seen.len() && seen[j] == d;
                        assert(more[j] == d);
                    }
                    if action == d {
                        assert(more[i as int] == d);
                    }
                    if more.contains(d) && action != d {
                        let j = choose|j: int| 0 <= j < more.len() && more[j] == d;
                        assert(seen[j] == d);
                    }
                }
            }
            match action {
                TimeoutAction::EscalateToIndirect(_) => {},
                TimeoutAction::MarkSuspect(target) => {
                    gossip.member_table.mark_suspect(target);
                    assert(gossip@.members == suspected(before.members, target));
                },
                TimeoutAction::MarkDead(target) => {
                    gossip.member_table.mark_dead(target);
                    assert(gossip@.members == buried(before.members, target));
                    mint_leave_if_sequencer(self.self_id, gossip, target);
                    if let Some(t) = self.outstanding {
                        if t == target {
                            self.outstanding = None;
                        }
                    }
                },
            }
            i = i + 1;
        }
        assert(actions@.take(i as int) =~= actions@);
        assert(heard.outstanding matches Some(t) ==> (actions@.contains(
            TimeoutAction::MarkDead(t),
        ) <==> heard.detector.due(now, TimeoutAction::MarkDead(t))));
        let applied = apply_ready_mutations(gossip, cluster);
        Round { actions, applied }
    }
}

/// The nodes other than one.
spec fn without_self(nodes: Seq<NodeId>, self_id: NodeId) -> Seq<NodeId> {
    nodes.filter(|n: NodeId| n != self_id)
}

/// Takes in what came along with a message of another node, and says what goes
/// along with the answer.
pub fn answer_gossip(
    gossip: &mut GossipState,
    cluster: &mut ClusterState,
    facts: Vec<MemberFact>,
    mutations: Vec<(u64, RingMutation)>,
) -> (r: (Applied, Vec<MemberFact>, Vec<(u64, RingMutation)>))
    requires
        old(gossip)@.wf(),
    ensures
        ({
            let heard = old(gossip)@.with_facts(facts_view(facts@)).with_mutations(mutations@);
            &&& final(gossip)@ == (GossipModel { log: heard.log.drained(), ..heard })
            &&& final(cluster)@ == old(cluster)@.routed_all(heard, heard.log.ready())
            &&& r.0.evict == touches_compute(heard, heard.log.ready())
            &&& r.0.departed@ == if r.0.evict {
                leavers(heard.log.ready())
            } else {
                seq![]
            }
            &&& lists_facts(heard, facts_view(r.1@))
            &&& r.2@ == heard.recent
        }),
        final(gossip)@.wf(),
{
    gossip.merge_incoming(facts, mutations);
    let applied = apply_ready_mutations(gossip, cluster);
    let (facts, mutations) = gossip.piggyback();
    (applied, facts, mutations)
}

// ---- laws ----

/// A node that is suspected says so no longer after its own round has begun.
pub proof fn law_suspicion_is_refuted(m: Map<u64, MemberUpdate>, self_id: NodeId)
    ensures
        self_refuted(m, self_id).contains_key(self_id.0) ==> self_refuted(
            m,
            self_id,
        )[self_id.0].status != MemberStatus::Suspect,
{
}

impl LoopModel {
    /// The loop after rounds in which every probe was answered, each with the
    /// time when it began and the time when it ended.
    pub open spec fn after_rounds(
        self,
        m: Map<u64, MemberUpdate>,
        times: Seq<(Tick, Tick)>,
    ) -> LoopModel
        decreases times.len(),
    {
        if times.len() == 0 {
            self
        } else {
            self.after_rounds(m, times.drop_last()).begun(m, times.last().0).ended(
                true,
                times.last().1,
            )
        }
    }

    /// Whom a round of them probes.
    pub open spec fn probed_in(
        self,
        m: Map<u64, MemberUpdate>,
        times: Seq<(Tick, Tick)>,
        i: int,
    ) -> Option<NodeId> {
        self.after_rounds(m, times.take(i)).begun(m, times[i].0).outstanding
    }
}

/// Probes go round: among as many rounds in a row as there are other live
/// members, while those stay the same and answer, each of them is probed in
/// exactly one, and nobody else is. The count of the rounds must not wrap
/// meanwhile.
pub proof fn law_probes_go_round(
    l: LoopModel,
    m: Map<u64, MemberUpdate>,
    alive: Seq<NodeId>,
    times: Seq<(Tick, Tick)>,
    node: NodeId,
)
    requires
        alive_nodes(m, alive),
        l.outstanding is None,
        times.len() == alive.len() - (if alive.contains(l.self_id) {
            1int
        } else {
            0int
        }),
        l.turn + times.len() <= usize::MAX,
    ensures
        is_alive(m, node) && node != l.self_id ==> exists|i: int|
            0 <= i < times.len() && #[trigger] l.probed_in(m, times, i) == Some(node),
        forall|i: int, j: int|
            0 <= i < j < times.len() ==> #[trigger] l.probed_in(m, times, i)
                != #[trigger] l.probed_in(m, times, j),
        forall|i: int|
            0 <= i < times.len() ==> (#[trigger] l.probed_in(m, times, i) matches Some(n)
                && is_alive(m, n) && n != l.self_id),
{
    lemma_alive_unique(m, alive, alive_list(m));
    let c = candidates(m, l.self_id);
    lemma_without_self(alive, l.self_id);
    assert(c == without_self(alive, l.self_id));
    let n = times.len() as int;
    assert forall|i: int| 0 <= i < n implies #[trigger] l.probed_in(m, times, i) == Some(
        c[(l.turn + i) % n],
    ) && 0 <= (l.turn + i) % n < n by {
        lemma_rounds(l, m, times.take(i));
        vstd::arithmetic::div_mod::lemma_mod_bound(l.turn + i, n);
    }
    assert forall|i: int| 0 <= i < n implies (#[trigger] l.probed_in(m, times, i) matches Some(x)
        && is_alive(m, x) && x != l.self_id) by {
        let x = c[(l.turn + i) % n];
        assert(c.contains(x));
        assert(alive.contains(x));
    }
    assert forall|i: int, j: int| 0 <= i < j < n implies #[trigger] l.probed_in(m, times, i)
        != #[trigger] l.probed_in(m, times, j) by {
        lemma_turns_differ(l.turn as int, n, i, j);
    }
    if is_alive(m, node) && node != l.self_id {
        assert(alive.contains(node));
        assert(c.contains(node));
        let p = choose|p: int| 0 <= p < c.len() && c[p] == node;
        let i = lemma_turn_comes(l.turn as int, n, p);
        assert(l.probed_in(m, times, i) == Some(node));
    }
}

/// While an answer is awaited nobody else is probed, and a probe that was
/// started is waited for from the moment it was.
pub proof fn law_one_probe_at_a_time(l: LoopModel, m: Map<u64, MemberUpdate>, now: Tick)
    ensures
        l.outstanding is Some ==> l.begun(m, now) == l,
        l.outstanding is None ==> (l.begun(m, now).outstanding matches Some(n) ==> l.begun(
            m,
            now,
        ).detector.probes.contains_pair(n.0, ProbeState::AwaitingDirectAck { started_at: now })),
        l.begun(m, now).detector.suspected_since == l.detector.suspected_since,
        l.outstanding is Some ==> l.ended(true, now).outstanding is None,
{
}

proof fn lemma_rounds(l: LoopModel, m: Map<u64, MemberUpdate>, times: Seq<(Tick, Tick)>)
    requires
        l.outstanding is None,
        candidates(m, l.self_id).len() > 0,
        l.turn + times.len() <= usize::MAX,
    ensures
        l.after_rounds(m, times).outstanding is None,
        l.after_rounds(m, times).self_id == l.self_id,
        l.after_rounds(m, times).turn == l.turn + times.len(),
    decreases times.len(),
{
    if times.len() > 0 {
        lemma_rounds(l, m, times.drop_last());
    }
}

proof fn lemma_without_self(nodes: Seq<NodeId>, self_id: NodeId)
    requires
        forall|i: int, j: int|
            0 <= i < j < nodes.len() ==> (#[trigger] nodes[i]).0 < (#[trigger] nodes[j]).0,
    ensures
        ({
            let c = without_self(nodes, self_id);
            &&& forall|n: NodeId| #[trigger]
                c.contains(n) <==> nodes.contains(n) && n != self_id
            &&& forall|i: int, j: int| 0 <= i < j < c.len() ==> #[trigger] c[i] != #[trigger] c[j]
            &&& c.len() == nodes.len() - (if nodes.contains(self_id) {
                1int
            } else {
                0int
            })
        }),
    decreases nodes.len(),
{
    reveal(Seq::filter);
    let c = without_self(nodes, self_id);
    if nodes.len() > 0 {
        let head = nodes.drop_last();
        let last = nodes.last();
        lemma_without_self(head, self_id);
        let d = without_self(head, self_id);
        assert(c == if last != self_id {
            d.push(last)
        } else {
            d
        });
        assert forall|n: NodeId| #[trigger] nodes.contains(n) <==> head.contains(n) || n == last by {
            if head.contains(n) {
                let i = choose|i: int| 0 <= i < head.len() && head[i] == n;
                assert(nodes[i] == n);
            }
            if nodes.contains(n) && n != last {
                let i = choose|i: int| 0 <= i < nodes.len() && nodes[i] == n;
                assert(head[i] == n);
            }
            if n == last {
                assert(nodes[nodes.len() - 1] == n);
            }
        }
        assert(!head.contains(last)) by {
            if head.contains(last) {
                let i = choose|i: int| 0 <= i < head.len() && head[i] == last;
                assert(nodes[i].0 < nodes[nodes.len() - 1].0);
            }
        }
        assert forall|n: NodeId| #[trigger] c.contains(n) <==> nodes.contains(n) && n
            != self_id by {
            if last != self_id {
                if d.contains(n) {
                    let i = choose|i: int| 0 <= i < d.len() && d[i] == n;
                    assert(c[i] == n);
                }
                if n == last {
                    assert(c[c.len() - 1] == n);
                }
                if c.contains(n) && n != last {
                    let i = choose|i: int| 0 <= i < c.len() && c[i] == n;
                    assert(d[i] == n);
                }
            }
        }
        assert forall|i: int, j: int| 0 <= i < j < c.len() implies #[trigger] c[i]
            != #[trigger] c[j] by {
            if last != self_id && j == c.len() - 1 {
                assert(d.contains(d[i]));
            }
        }
    } else {
        assert(c =~= seq![]);
    }
}

proof fn lemma_turns_differ(turn: int, n: int, i: int, j: int)
    requires
        0 <= i < j < n,
        0 <= turn,
    ensures
        (turn + i) % n != (turn + j) % n,
{
    if (turn + i) % n == (turn + j) % n {
        let a = (turn + i) / n;
        let b = (turn + j) / n;
        vstd::arithmetic::div_mod::lemma_fundamental_div_mod(turn + i, n);
        vstd::arithmetic::div_mod::lemma_fundamental_div_mod(turn + j, n);
        assert(n * b - n * a == j - i);
        assert(false) by (nonlinear_arith)
            requires
                n * b - n * a == j - i,
                0 < j - i < n,
        ;
    }
}

proof fn lemma_turn_comes(turn: int, n: int, p: int) -> (i: int)
    requires
        0 <= p < n,
        0 <= turn,
    ensures
        0 <= i < n,
        (turn + i) % n == p,
{
    let r = turn % n;
    let q = turn / n;
    vstd::arithmetic::div_mod::lemma_fundamental_div_mod(turn, n);
    vstd::arithmetic::div_mod::lemma_mod_bound(turn, n);
    if p >= r {
        assert(turn + (p - r) == q * n + p) by (nonlinear_arith)
            requires
                turn == n * q + r,
        ;
        vstd::arithmetic::div_mod::lemma_fundamental_div_mod_converse(turn + (p - r), n, q, p);
        p - r
    } else {
        assert(turn + (p - r + n) == (q + 1) * n + p) by (nonlinear_arith)
            requires
                turn == n * q + r,
        ;
        vstd::arithmetic::div_mod::lemma_fundamental_div_mod_converse(
            turn + (p - r + n),
            n,
            q + 1,
            p,
        );
        p - r + n
    }
}

/// Only the sequencer numbers departures: of two nodes that see the same
/// members alive, one at most does.
pub proof fn law_only_sequencer_mints(g: GossipModel, a: NodeId, b: NodeId, dead: NodeId)
    requires
        minted(g, a, dead) != g,
        minted(g, b, dead) != g,
    ensures
        a == b,
{
    crate::sequencer::law_one_sequencer(a, b, alive_list(g.members));
}

} // verus!
