//! From an unanswered probe to a dead member: a direct probe that times out is
//! tried again through other members, and if that times out too the member is
//! suspected, and after a longer time dead.
//!
//! The detector neither picks members nor sends anything. It is told the time
//! and says what to do.

use crate::authority::NodeId;
use crate::clock::{elapsed, Tick};
use crate::maps::{ascending, sorted_keys};
use std::collections::BTreeMap;
use vstd::prelude::*;

verus! {

broadcast use {vstd::std_specs::btree::group_btree_axioms, vstd::laws_cmp::group_laws_cmp};

/// How long an answer to a probe may take.
pub const PROBE_TIMEOUT_MILLIS: u64 = 1_000;

/// How long a member stays suspected before it counts as dead.
pub const SUSPICION_TIMEOUT_MILLIS: u64 = 5_000;

/// An unanswered probe.
#[derive(Debug, Clone, Copy, PartialEq, Eq, Structural)]
pub enum ProbeState {
    AwaitingDirectAck { started_at: Tick },
    AwaitingIndirectAck { started_at: Tick },
}

/// What the caller is to do about a member.
#[derive(Debug, Clone, Copy, PartialEq, Eq, Structural)]
pub enum TimeoutAction {
    /// Ask other members to probe it.
    EscalateToIndirect(NodeId),
    MarkSuspect(NodeId),
    MarkDead(NodeId),
}

/// The mathematical content of a [`FailureDetector`], by node id.
pub struct DetectorModel {
    pub probe_timeout: u64,
    pub suspicion_timeout: u64,
    pub probes: Map<u64, ProbeState>,
    pub suspected_since: Map<u64, Tick>,
}

impl DetectorModel {
    /// Whether a direct probe of a member has gone unanswered for too long.
    pub open spec fn direct_expired(self, now: Tick, k: u64) -> bool {
        self.probes.contains_key(k) && (self.probes[k] matches ProbeState::AwaitingDirectAck {
            started_at,
        } && elapsed(now, started_at) >= self.probe_timeout)
    }

    /// Whether an indirect probe of a member has gone unanswered for too long.
    pub open spec fn indirect_expired(self, now: Tick, k: u64) -> bool {
        self.probes.contains_key(k) && (self.probes[k] matches ProbeState::AwaitingIndirectAck {
            started_at,
        } && elapsed(now, started_at) >= self.probe_timeout)
    }

    /// Since when a member is suspected, counting those whose probes expire
    /// now.
    pub open spec fn suspicion(self, now: Tick, k: u64) -> Option<Tick> {
        if self.indirect_expired(now, k) {
            Some(now)
        } else if self.suspected_since.contains_key(k) {
            Some(self.suspected_since[k])
        } else {
            None
        }
    }

    /// Whether a member has been suspected for too long.
    pub open spec fn suspicion_expired(self, now: Tick, k: u64) -> bool {
        self.suspicion(now, k) matches Some(since) && elapsed(now, since) >= self.suspicion_timeout
    }

    /// Whether an action is due.
    pub open spec fn due(self, now: Tick, a: TimeoutAction) -> bool {
        match a {
            TimeoutAction::EscalateToIndirect(n) => self.direct_expired(now, n.0),
            TimeoutAction::MarkSuspect(n) => self.indirect_expired(now, n.0),
            TimeoutAction::MarkDead(n) => self.suspicion_expired(now, n.0),
        }
    }

    /// The detector once the actions that are due have been handed out.
    pub open spec fn checked(self, now: Tick) -> DetectorModel {
        DetectorModel {
            probes: Map::new(
                |k: u64| self.probes.contains_key(k) && !self.indirect_expired(now, k),
                |k: u64|
                    if self.direct_expired(now, k) {
                        ProbeState::AwaitingIndirectAck { started_at: now }
                    } else {
                        self.probes[k]
                    },
            ),
            suspected_since: Map::new(
                |k: u64| self.suspicion(now, k) is Some && !self.suspicion_expired(now, k),
                |k: u64| self.suspicion(now, k).unwrap(),
            ),
            ..self
        }
    }
}

/// The detector once a member was probed at `t`.
pub open spec fn probed(m: DetectorModel, n: NodeId, t: Tick) -> DetectorModel {
    DetectorModel {
        probes: m.probes.insert(n.0, ProbeState::AwaitingDirectAck { started_at: t }),
        ..m
    }
}

/// Tracks unanswered probes and suspicions.
pub struct FailureDetector {
    probe_timeout: u64,
    suspicion_timeout: u64,
    probes: BTreeMap<u64, ProbeState>,
    suspected_since: BTreeMap<u64, Tick>,
}

impl View for FailureDetector {
    type V = DetectorModel;

    closed spec fn view(&self) -> DetectorModel {
        DetectorModel {
            probe_timeout: self.probe_timeout,
            suspicion_timeout: self.suspicion_timeout,
            probes: self.probes@,
            suspected_since: self.suspected_since@,
        }
    }
}

fn millis_between(now: Tick, since: Tick) -> (millis: u64)
    ensures
        millis == elapsed(now, since),
{
    now.0.saturating_sub(since.0)
}

impl FailureDetector {
    pub fn new() -> (detector: Self)
        ensures
            detector@ == (DetectorModel {
                probe_timeout: PROBE_TIMEOUT_MILLIS,
                suspicion_timeout: SUSPICION_TIMEOUT_MILLIS,
                probes: Map::empty(),
                suspected_since: Map::empty(),
            }),
    {
        Self::with_timeouts(PROBE_TIMEOUT_MILLIS, SUSPICION_TIMEOUT_MILLIS)
    }

    /// A detector with timeouts of its own, in milliseconds.
    pub fn with_timeouts(probe_timeout: u64, suspicion_timeout: u64) -> (detector: Self)
        ensures
            detector@ == (DetectorModel {
                probe_timeout,
                suspicion_timeout,
                probes: Map::empty(),
                suspected_since: Map::empty(),
            }),
    {
        Self {
            probe_timeout,
            suspicion_timeout,
            probes: BTreeMap::new(),
            suspected_since: BTreeMap::new(),
        }
    }

    /// A direct probe of `target` has just been sent.
    pub fn begin_direct_probe(&mut self, target: NodeId, now: Tick)
        ensures
            final(self)@ == probed(old(self)@, target, now),
    {
        self.probes.insert(target.0, ProbeState::AwaitingDirectAck { started_at: now });
    }

    /// `target` answered, directly or through another member.
    pub fn on_ack(&mut self, target: NodeId)
        ensures
            final(self)@ == (DetectorModel {
                probes: old(self)@.probes.remove(target.0),
                suspected_since: old(self)@.suspected_since.remove(target.0),
                ..old(self)@
            }),
    {
        self.probes.remove(&target.0);
        self.suspected_since.remove(&target.0);
    }

    /// Moves on what has timed out, and returns what is to be done about it:
    /// each action that is due, once.
    pub fn check_timeouts(&mut self, now: Tick) -> (actions: Vec<TimeoutAction>)
        ensures
            final(self)@ == old(self)@.checked(now),
            actions@.no_duplicates(),
            forall|a: TimeoutAction|
                #[trigger] actions@.contains(a) <==> old(self)@.due(now, a),
    {
        let ghost before = self@;
        let (mut actions, suspects) = self.escalate(now);
        self.suspect(now, &suspects, &mut actions, Ghost(before));
        self.bury(now, &mut actions, Ghost(before));
        assert(self@.probes =~= before.checked(now).probes);
        assert(self@.suspected_since =~= before.checked(now).suspected_since);
        actions
    }

    /// Turns expired direct probes into indirect ones. Also returns whose
    /// indirect probes have expired.
    fn escalate(&mut self, now: Tick) -> (r: (Vec<TimeoutAction>, Vec<u64>))
        ensures
            final(self)@.probe_timeout == old(self)@.probe_timeout,
            final(self)@.suspicion_timeout == old(self)@.suspicion_timeout,
            final(self)@.suspected_since == old(self)@.suspected_since,
            final(self)@.probes == Map::new(
                |k: u64| old(self)@.probes.contains_key(k),
                |k: u64|
                    if old(self)@.direct_expired(now, k) {
                        ProbeState::AwaitingIndirectAck { started_at: now }
                    } else {
                        old(self)@.probes[k]
                    },
            ),
            r.0@.no_duplicates(),
            forall|a: TimeoutAction|
                #[trigger] r.0@.contains(a) <==> (a is EscalateToIndirect && old(self)@.due(now, a)),
            r.1@.no_duplicates(),
            forall|k: u64| #[trigger] r.1@.contains(k) <==> old(self)@.indirect_expired(now, k),
    {
        let keys = sorted_keys(&self.probes);
        let mut actions: Vec<TimeoutAction> = Vec::new();
        let mut suspects: Vec<u64> = Vec::new();
        let mut i: usize = 0;
        while i < keys.len()
            invariant
                i <= keys.len(),
                ascending(keys@),
                forall|k: u64| keys@.contains(k) <==> old(self)@.probes.contains_key(k),
                self@.probe_timeout == old(self)@.probe_timeout,
                self@.suspicion_timeout == old(self)@.suspicion_timeout,
                self@.suspected_since == old(self)@.suspected_since,
                forall|k: u64|
                    #[trigger] self@.probes.contains_key(k) <==> old(self)@.probes.contains_key(k),
                forall|j: int|
                    0 <= j < keys.len() ==> self@.probes[#[trigger] keys@[j]] == if j < i
                        && old(self)@.direct_expired(now, keys@[j]) {
                        ProbeState::AwaitingIndirectAck { started_at: now }
                    } else {
                        old(self)@.probes[keys@[j]]
                    },
                escalations(old(self)@, now, keys@.take(i as int), actions@),
                expiries(old(self)@, now, keys@.take(i as int), suspects@),
            decreases keys.len() - i,
        {
            let k: u64 = keys[i];
            assert(keys@.contains(keys@[i as int]));
            assert(self@.probes.contains_key(k));
            let ghost a0 = actions@;
            let ghost s0 = suspects@;
            let ghost seen = keys@.take(i as int);
            assert(!seen.contains(k)) by {
                if seen.contains(k) {
                    let j = choose|j: int| 0 <= j < seen.len() && seen[j] == k;
                    assert(keys@[j] < keys@[i as int]);
                }
            }
            assert(keys@.take(i + 1) =~= seen.push(k));
            match *self.probes.get(&k).unwrap() {
                ProbeState::AwaitingDirectAck { started_at } => {
                    if millis_between(now, started_at) >= self.probe_timeout {
                        self.probes.insert(k, ProbeState::AwaitingIndirectAck { started_at: now });
                        actions.push(TimeoutAction::EscalateToIndirect(NodeId(k)));
                    }
                },
                ProbeState::AwaitingIndirectAck { started_at } => {
                    if millis_between(now, started_at) >= self.probe_timeout {
                        suspects.push(k);
                    }
                },
            }
            proof {
                lemma_escalations_step(old(self)@, now, seen, k, a0, actions@);
                lemma_expiries_step(old(self)@, now, seen, k, s0, suspects@);
            }
            i = i + 1;
        }
        assert(keys@.take(i as int) =~= keys@);
        assert forall|k: u64| self@.probes.contains_key(k) implies self@.probes[k] == (if old(
            self,
        )@.direct_expired(now, k) {
            ProbeState::AwaitingIndirectAck { started_at: now }
        } else {
            old(self)@.probes[k]
        }) by {
            assert(keys@.contains(k));
            let j = choose|j: int| 0 <= j < keys@.len() && keys@[j] == k;
            assert(self@.probes[keys@[j]] == self@.probes[k]);
        }
        (actions, suspects)
    }

    /// Suspects those whose indirect probes have expired.
    fn suspect(
        &mut self,
        now: Tick,
        suspects: &Vec<u64>,
        actions: &mut Vec<TimeoutAction>,
        Ghost(start): Ghost<DetectorModel>,
    )
        requires
            suspects@.no_duplicates(),
            forall|k: u64| #[trigger] suspects@.contains(k) <==> start.indirect_expired(now, k),
            old(self)@.suspected_since == start.suspected_since,
            old(actions)@.no_duplicates(),
            forall|a: TimeoutAction|
                #[trigger] old(actions)@.contains(a) <==> (a is EscalateToIndirect && start.due(
                    now,
                    a,
                )),
        ensures
            final(self)@.probe_timeout == old(self)@.probe_timeout,
            final(self)@.suspicion_timeout == old(self)@.suspicion_timeout,
            final(self)@.probes == Map::new(
                |k: u64|
                    old(self)@.probes.contains_key(k) && !start.indirect_expired(now, k),
                |k: u64| old(self)@.probes[k],
            ),
            final(self)@.suspected_since == Map::new(
                |k: u64| start.suspicion(now, k) is Some,
                |k: u64| start.suspicion(now, k).unwrap(),
            ),
            final(actions)@.no_duplicates(),
            forall|a: TimeoutAction|
                #[trigger] final(actions)@.contains(a) <==> (!(a is MarkDead) && start.due(now, a)),
    {
        let mut i: usize = 0;
        while i < suspects.len()
            invariant
                i <= suspects.len(),
                suspects@.no_duplicates(),
                forall|k: u64| #[trigger] suspects@.contains(k) <==> start.indirect_expired(now, k),
                self@.probe_timeout == old(self)@.probe_timeout,
                self@.suspicion_timeout == old(self)@.suspicion_timeout,
                forall|k: u64|
                    #[trigger] self.probes@.contains_key(k) <==> (old(self).probes@.contains_key(k)
                        && !suspects@.take(i as int).contains(k)),
                forall|k: u64|
                    #[trigger] self.probes@.contains_key(k) ==> self.probes@[k]
                        == old(self).probes@[k],
                forall|k: u64|
                    #[trigger] self.suspected_since@.contains_key(k) <==> (
                    start.suspected_since.contains_key(k) || suspects@.take(i as int).contains(k)),
                forall|k: u64| #[trigger]
                    self.suspected_since@.contains_key(k) ==> self.suspected_since@[k] == if suspects@.take(
                        i as int,
                    ).contains(k) {
                        now
                    } else {
                        start.suspected_since[k]
                    },
                actions@.no_duplicates(),
                forall|a: TimeoutAction|
                    #[trigger] actions@.contains(a) <==> match a {
                        TimeoutAction::EscalateToIndirect(_) => start.due(now, a),
                        TimeoutAction::MarkSuspect(n) => suspects@.take(i as int).contains(n.0),
                        TimeoutAction::MarkDead(_) => false,
                    },
            decreases suspects.len() - i,
        {
            let k: u64 = suspects[i];
            let ghost seen = suspects@.take(i as int);
            let ghost a0 = actions@;
            assert(!seen.contains(k)) by {
                if seen.contains(k) {
                    let j = choose|j: int| 0 <= j < seen.len() && seen[j] == k;
                    assert(suspects@[j] == suspects@[i as int]);
                }
            }
            assert(suspects@.take(i + 1) =~= seen.push(k));
            assert forall|x: u64| seen.push(k).contains(x) <==> (seen.contains(x) || x == k) by {
                lemma_push_contains(seen, k, x);
            }
            let ghost probes0 = self.probes@;
            let ghost suspected0 = self.suspected_since@;
            self.probes.remove(&k);
            assert(self.probes@ == probes0.remove(k));
            self.suspected_since.insert(k, now);
            assert(self.suspected_since@ == suspected0.insert(k, now));
            let ghost new = TimeoutAction::MarkSuspect(NodeId(k));
            assert(!a0.contains(new));
            proof {
                lemma_push_distinct(a0, new);
            }
            actions.push(TimeoutAction::MarkSuspect(NodeId(k)));
            assert forall|a: TimeoutAction| #[trigger] actions@.contains(a) <==> match a {
                TimeoutAction::EscalateToIndirect(_) => start.due(now, a),
                TimeoutAction::MarkSuspect(n) => seen.push(k).contains(n.0),
                TimeoutAction::MarkDead(_) => false,
            } by {
                lemma_push_contains(a0, new, a);
                if let TimeoutAction::MarkSuspect(n) = a {
                    lemma_push_contains(seen, k, n.0);
                }
            }
            i = i + 1;
        }
        assert(suspects@.take(i as int) =~= suspects@);
        assert(self@.probes =~= Map::new(
            |k: u64| old(self)@.probes.contains_key(k) && !start.indirect_expired(now, k),
            |k: u64| old(self)@.probes[k],
        ));
        assert(self@.suspected_since =~= Map::new(
            |k: u64| start.suspicion(now, k) is Some,
            |k: u64| start.suspicion(now, k).unwrap(),
        ));
    }

    /// Declares dead those suspected for too long.
    fn bury(
        &mut self,
        now: Tick,
        actions: &mut Vec<TimeoutAction>,
        Ghost(start): Ghost<DetectorModel>,
    )
        requires
            old(self)@.suspicion_timeout == start.suspicion_timeout,
            old(self)@.suspected_since == Map::new(
                |k: u64| start.suspicion(now, k) is Some,
                |k: u64| start.suspicion(now, k).unwrap(),
            ),
            old(actions)@.no_duplicates(),
            forall|a: TimeoutAction|
                #[trigger] old(actions)@.contains(a) <==> (!(a is MarkDead) && start.due(now, a)),
        ensures
            final(self)@.probe_timeout == old(self)@.probe_timeout,
            final(self)@.suspicion_timeout == old(self)@.suspicion_timeout,
            final(self)@.probes == old(self)@.probes,
            final(self)@.suspected_since == start.checked(now).suspected_since,
            final(actions)@.no_duplicates(),
            forall|a: TimeoutAction| #[trigger] final(actions)@.contains(a) <==> start.due(now, a),
    {
        let keys = sorted_keys(&self.suspected_since);
        let mut i: usize = 0;
        while i < keys.len()
            invariant
                i <= keys.len(),
                ascending(keys@),
                forall|k: u64| #[trigger] keys@.contains(k) <==> start.suspicion(now, k) is Some,
                self@.probe_timeout == old(self)@.probe_timeout,
                self@.suspicion_timeout == start.suspicion_timeout,
                old(self)@.suspicion_timeout == start.suspicion_timeout,
                self@.probes == old(self)@.probes,
                forall|k: u64|
                    #[trigger] self@.suspected_since.contains_key(k) <==> (start.suspicion(
                        now,
                        k,
                    ) is Some && !(keys@.take(i as int).contains(k) && start.suspicion_expired(
                        now,
                        k,
                    ))),
                forall|k: u64| #[trigger]
                    self@.suspected_since.contains_key(k) ==> self@.suspected_since[k]
                        == start.suspicion(now, k).unwrap(),
                actions@.no_duplicates(),
                forall|a: TimeoutAction|
                    #[trigger] actions@.contains(a) <==> (start.due(now, a) && (
                    a matches TimeoutAction::MarkDead(n) ==> keys@.take(i as int).contains(n.0))),
            decreases keys.len() - i,
        {
            let k: u64 = keys[i];
            let ghost seen = keys@.take(i as int);
            let ghost a0 = actions@;
            let ghost new = TimeoutAction::MarkDead(NodeId(k));
            assert(keys@.contains(keys@[i as int]));
            assert(start.suspicion(now, k) is Some);
            assert(!seen.contains(k)) by {
                if seen.contains(k) {
                    let j = choose|j: int| 0 <= j < seen.len() && seen[j] == k;
                    assert(keys@[j] < keys@[i as int]);
                }
            }
            assert(keys@.take(i + 1) =~= seen.push(k));
            assert forall|x: u64| seen.push(k).contains(x) <==> (seen.contains(x) || x == k) by {
                lemma_push_contains(seen, k, x);
            }
            assert(self@.suspected_since.contains_key(k));
            assert(start.due(now, new) == start.suspicion_expired(now, k));
            if millis_between(now, *self.suspected_since.get(&k).unwrap())
                >= self.suspicion_timeout {
                let ghost suspected0 = self.suspected_since@;
                self.suspected_since.remove(&k);
                assert(self.suspected_since@ == suspected0.remove(k));
                assert(!a0.contains(new));
                proof {
                    lemma_push_distinct(a0, new);
                }
                actions.push(TimeoutAction::MarkDead(NodeId(k)));
                assert forall|a: TimeoutAction| #[trigger] actions@.contains(a) <==> (a0.contains(a)
                    || a == new) by {
                    lemma_push_contains(a0, new, a);
                }
            }
            assert forall|a: TimeoutAction| #[trigger] actions@.contains(a) <==> (start.due(now, a)
                && (a matches TimeoutAction::MarkDead(n) ==> seen.push(k).contains(n.0))) by {
                assert(actions@.contains(a) <==> (a0.contains(a) || (a == new && start.due(
                    now,
                    new,
                ))));
                if let TimeoutAction::MarkDead(n) = a {
                    assert(seen.push(k).contains(n.0) <==> (seen.contains(n.0) || n.0 == k));
                }
            }
            i = i + 1;
        }
        assert(keys@.take(i as int) =~= keys@);
        assert(self@.suspected_since =~= start.checked(now).suspected_since);
        assert forall|a: TimeoutAction| #[trigger] actions@.contains(a) <==> start.due(now, a) by {
            if let TimeoutAction::MarkDead(n) = a {
                if start.due(now, a) {
                    assert(keys@.contains(n.0));
                }
            }
        }
    }
}

impl Default for FailureDetector {
    fn default() -> (detector: Self)
        ensures
            detector@ == (DetectorModel {
                probe_timeout: PROBE_TIMEOUT_MILLIS,
                suspicion_timeout: SUSPICION_TIMEOUT_MILLIS,
                probes: Map::empty(),
                suspected_since: Map::empty(),
            }),
    {
        Self::new()
    }
}

proof fn lemma_push_distinct<A>(s: Seq<A>, a: A)
    requires
        s.no_duplicates(),
        !s.contains(a),
    ensures
        s.push(a).no_duplicates(),
{
    let t = s.push(a);
    assert forall|i: int, j: int| 0 <= i < t.len() && 0 <= j < t.len() && i != j implies t[i]
        != t[j] by {
        if i < s.len() {
            assert(s.contains(s[i]));
        }
        if j < s.len() {
            assert(s.contains(s[j]));
        }
    }
}

proof fn lemma_push_contains<A>(s: Seq<A>, a: A, x: A)
    ensures
        s.push(a).contains(x) <==> (s.contains(x) || x == a),
{
    if s.contains(x) {
        let i = choose|i: int| 0 <= i < s.len() && s[i] == x;
        assert(s.push(a)[i] == x);
    }
    if x == a {
        assert(s.push(a)[s.len() as int] == x);
    }
    if s.push(a).contains(x) {
        let i = choose|i: int| 0 <= i < s.push(a).len() && s.push(a)[i] == x;
        if i < s.len() {
            assert(s[i] == x);
        }
    }
}

/// Whether `actions` holds the escalations that are due among `seen`, once
/// each.
spec fn escalations(
    m: DetectorModel,
    now: Tick,
    seen: Seq<u64>,
    actions: Seq<TimeoutAction>,
) -> bool {
    &&& actions.no_duplicates()
    &&& forall|a: TimeoutAction|
        #[trigger] actions.contains(a) <==> (m.due(now, a) && (
        a matches TimeoutAction::EscalateToIndirect(n) && seen.contains(n.0)))
}

/// Whether `suspects` holds those among `seen` whose indirect probes have
/// expired, once each.
spec fn expiries(m: DetectorModel, now: Tick, seen: Seq<u64>, suspects: Seq<u64>) -> bool {
    &&& suspects.no_duplicates()
    &&& forall|k: u64|
        #[trigger] suspects.contains(k) <==> (m.indirect_expired(now, k) && seen.contains(k))
}

proof fn lemma_escalations_step(
    m: DetectorModel,
    now: Tick,
    seen: Seq<u64>,
    k: u64,
    a0: Seq<TimeoutAction>,
    a1: Seq<TimeoutAction>,
)
    requires
        escalations(m, now, seen, a0),
        !seen.contains(k),
        a1 == if m.direct_expired(now, k) {
            a0.push(TimeoutAction::EscalateToIndirect(NodeId(k)))
        } else {
            a0
        },
    ensures
        escalations(m, now, seen.push(k), a1),
{
    let new = TimeoutAction::EscalateToIndirect(NodeId(k));
    assert(m.due(now, new) == m.direct_expired(now, k));
    if m.direct_expired(now, k) {
        lemma_push_distinct(a0, new);
    }
    assert forall|a: TimeoutAction| #[trigger] a1.contains(a) <==> (m.due(now, a) && (
    a matches TimeoutAction::EscalateToIndirect(n) && seen.push(k).contains(n.0))) by {
        lemma_push_contains(a0, new, a);
        if let TimeoutAction::EscalateToIndirect(n) = a {
            lemma_push_contains(seen, k, n.0);
        }
    }
}

proof fn lemma_expiries_step(
    m: DetectorModel,
    now: Tick,
    seen: Seq<u64>,
    k: u64,
    s0: Seq<u64>,
    s1: Seq<u64>,
)
    requires
        expiries(m, now, seen, s0),
        !seen.contains(k),
        s1 == if m.indirect_expired(now, k) {
            s0.push(k)
        } else {
            s0
        },
    ensures
        expiries(m, now, seen.push(k), s1),
{
    if m.indirect_expired(now, k) {
        lemma_push_distinct(s0, k);
    }
    assert forall|x: u64| #[trigger] s1.contains(x) <==> (m.indirect_expired(now, x) && seen.push(
        k,
    ).contains(x)) by {
        lemma_push_contains(s0, k, x);
        lemma_push_contains(seen, k, x);
    }
}

// ---- laws ----

/// A member that has answered is not acted upon, however much time passes,
/// until it is probed again.
pub proof fn law_ack_clears(m: DetectorModel, now: Tick, n: NodeId)
    requires
        !m.probes.contains_key(n.0),
        !m.suspected_since.contains_key(n.0),
    ensures
        !m.due(now, TimeoutAction::EscalateToIndirect(n)),
        !m.due(now, TimeoutAction::MarkSuspect(n)),
        !m.due(now, TimeoutAction::MarkDead(n)),
{
}

/// A probe leads to a suspicion only through both timeouts, and to a death only
/// through the third: a member probed at `t` is due for nothing before the
/// probe timeout, then for escalation alone.
pub proof fn law_probe_steps(m: DetectorModel, t: Tick, now: Tick, n: NodeId)
    requires
        m.probes.contains_key(n.0),
        m.probes[n.0] == (ProbeState::AwaitingDirectAck { started_at: t }),
        !m.suspected_since.contains_key(n.0),
    ensures
        m.due(now, TimeoutAction::EscalateToIndirect(n)) <==> elapsed(now, t) >= m.probe_timeout,
        !m.due(now, TimeoutAction::MarkSuspect(n)),
        !m.due(now, TimeoutAction::MarkDead(n)),
        elapsed(now, t) >= m.probe_timeout ==> m.checked(now).probes[n.0] == (
        ProbeState::AwaitingIndirectAck { started_at: now }),
{
}

/// Each timeout is reported once: a second look at the same time finds nothing
/// due. In particular a member that was just suspected is not dead at once.
pub proof fn law_reported_once(m: DetectorModel, now: Tick, a: TimeoutAction)
    requires
        m.probe_timeout > 0,
        m.suspicion_timeout > 0,
    ensures
        !m.checked(now).due(now, a),
{
}

/// A new probe of a member starts its wait anew, whatever was known of it: until
/// the probe timeout has passed since then it is neither probed through others
/// nor suspected, however often one looks. A suspicion that was running goes on
/// from when it began, and all other members are as they were.
pub proof fn law_probe_restarts_the_wait(
    m: DetectorModel,
    n: NodeId,
    t: Tick,
    looks: Seq<Tick>,
    now: Tick,
)
    requires
        elapsed(now, t) < m.probe_timeout,
        forall|i: int| 0 <= i < looks.len() ==> elapsed(#[trigger] looks[i], t) < m.probe_timeout,
    ensures
        ({
            let p = probed(m, n, t);
            let later = looked(p, looks);
            &&& !later.due(now, TimeoutAction::EscalateToIndirect(n))
            &&& !later.due(now, TimeoutAction::MarkSuspect(n))
            &&& later.suspected_since.contains_key(n.0) ==> m.suspected_since.contains_key(n.0)
                && later.suspected_since[n.0] == m.suspected_since[n.0]
            &&& forall|at: Tick| #[trigger]
                p.due(at, TimeoutAction::MarkDead(n)) <==> (m.suspected_since.contains_key(n.0)
                    && elapsed(at, m.suspected_since[n.0]) >= m.suspicion_timeout)
            &&& forall|k: u64| #![trigger p.probes.contains_key(k)]
                k != n.0 ==> p.probes.contains_key(k) == m.probes.contains_key(k) && p.probes[k]
                    == m.probes[k]
            &&& p.suspected_since == m.suspected_since
        }),
{
    lemma_wait_goes_on(probed(m, n, t), n, t, looks);
}

/// The detector after some looks at it, one after the other.
pub open spec fn looked(m: DetectorModel, looks: Seq<Tick>) -> DetectorModel
    decreases looks.len(),
{
    if looks.len() == 0 {
        m
    } else {
        looked(m, looks.drop_last()).checked(looks.last())
    }
}

proof fn lemma_wait_goes_on(m: DetectorModel, n: NodeId, t: Tick, looks: Seq<Tick>)
    requires
        m.probes.contains_key(n.0),
        m.probes[n.0] == (ProbeState::AwaitingDirectAck { started_at: t }),
        forall|i: int| 0 <= i < looks.len() ==> elapsed(#[trigger] looks[i], t) < m.probe_timeout,
    ensures
        ({
            let later = looked(m, looks);
            &&& later.probe_timeout == m.probe_timeout
            &&& later.probes.contains_key(n.0)
            &&& later.probes[n.0] == m.probes[n.0]
            &&& later.suspected_since.contains_key(n.0) ==> m.suspected_since.contains_key(n.0)
                && later.suspected_since[n.0] == m.suspected_since[n.0]
        }),
    decreases looks.len(),
{
    if looks.len() > 0 {
        let head = looks.drop_last();
        assert forall|i: int| 0 <= i < head.len() implies elapsed(#[trigger] head[i], t)
            < m.probe_timeout by {
            assert(head[i] == looks[i]);
        }
        lemma_wait_goes_on(m, n, t, head);
        assert(elapsed(looks[looks.len() - 1], t) < m.probe_timeout);
    }
}

} // verus!
