//! The order of changes of the ring.
//!
//! The live member with the lowest id numbers the changes. Every node works out
//! for itself who that is, and applies the changes in the order of their
//! numbers, without a gap, however gossip delivers them.

use crate::authority::NodeId;
use crate::ring::{left, member_slots, Ring, Slot};
use std::collections::BTreeMap;
use vstd::prelude::*;

verus! {

broadcast use {vstd::std_specs::btree::group_btree_axioms, vstd::laws_cmp::group_laws_cmp};

/// Whether `self_id` is the lowest of `alive`.
pub open spec fn is_lowest(self_id: NodeId, alive: Seq<NodeId>) -> bool {
    alive.contains(self_id) && forall|i: int|
        0 <= i < alive.len() ==> self_id.0 <= (#[trigger] alive[i]).0
}

/// Whether this node numbers the changes.
pub fn is_sequencer(self_id: NodeId, alive_members: &[NodeId]) -> (b: bool)
    ensures
        b == is_lowest(self_id, alive_members@),
{
    let mut found = false;
    let mut i: usize = 0;
    while i < alive_members.len()
        invariant
            i <= alive_members.len(),
            found <==> exists|j: int| 0 <= j < i && #[trigger] alive_members@[j] == self_id,
            forall|j: int| 0 <= j < i ==> self_id.0 <= (#[trigger] alive_members@[j]).0,
        decreases alive_members.len() - i,
    {
        if alive_members[i].0 < self_id.0 {
            assert(!is_lowest(self_id, alive_members@));
            return false;
        }
        if alive_members[i] == self_id {
            found = true;
        }
        i = i + 1;
    }
    found
}

/// Of two nodes that agree on who is alive, at most one numbers the changes.
pub proof fn law_one_sequencer(a: NodeId, b: NodeId, alive: Seq<NodeId>)
    requires
        is_lowest(a, alive),
        is_lowest(b, alive),
    ensures
        a == b,
{
    let i = choose|i: int| 0 <= i < alive.len() && alive[i] == a;
    let j = choose|j: int| 0 <= j < alive.len() && alive[j] == b;
    assert(a.0 <= alive[j].0);
    assert(b.0 <= alive[i].0);
}

/// A change of the ring.
#[derive(Debug, Clone, Copy, PartialEq, Eq, Structural)]
pub enum RingMutation {
    Join { node_id: NodeId, thread_count: u32 },
    Leave { node_id: NodeId },
}

/// The slots after a change.
pub open spec fn mutated(slots: Seq<Slot>, m: RingMutation) -> Seq<Slot> {
    match m {
        RingMutation::Join { node_id, thread_count } => slots + member_slots(
            node_id,
            thread_count,
        ),
        RingMutation::Leave { node_id } => left(slots, node_id),
    }
}

/// The slots after some changes, one after the other.
pub open spec fn mutated_by(slots: Seq<Slot>, ms: Seq<RingMutation>) -> Seq<Slot>
    decreases ms.len(),
{
    if ms.len() == 0 {
        slots
    } else {
        mutated(mutated_by(slots, ms.drop_last()), ms.last())
    }
}

/// Carries out a change.
pub fn apply_mutation(ring: &mut Ring, m: RingMutation)
    ensures
        final(ring)@ == mutated(old(ring)@, m),
{
    match m {
        RingMutation::Join { node_id, thread_count } => ring.apply_join(node_id, thread_count),
        RingMutation::Leave { node_id } => ring.apply_leave(node_id),
    }
}

/// The mathematical content of a [`MutationLog`].
pub struct LogModel {
    /// The number of the last change that was handed out.
    pub applied: u64,
    /// The changes that wait for their turn, by number.
    pub pending: Map<u64, RingMutation>,
}

impl LogModel {
    /// The log after hearing of a numbered change.
    pub open spec fn recorded(self, epoch: u64, m: RingMutation) -> LogModel {
        if epoch > self.applied {
            LogModel { pending: self.pending.insert(epoch, m), ..self }
        } else {
            self
        }
    }

    /// Whether the next change is here.
    pub open spec fn has_next(self) -> bool {
        self.applied < u64::MAX && self.pending.contains_key((self.applied + 1) as u64)
    }

    /// The log once the next change has been handed out.
    pub open spec fn advanced(self) -> LogModel {
        let next = (self.applied + 1) as u64;
        LogModel { applied: next, pending: self.pending.remove(next) }
    }

    /// The changes whose turn has come, in order.
    pub open spec fn ready(self) -> Seq<RingMutation>
        decreases u64::MAX - self.applied,
    {
        if self.has_next() {
            seq![self.pending[(self.applied + 1) as u64]] + self.advanced().ready()
        } else {
            seq![]
        }
    }

    /// The log once all changes whose turn has come have been handed out.
    pub open spec fn drained(self) -> LogModel
        decreases u64::MAX - self.applied,
    {
        if self.has_next() {
            self.advanced().drained()
        } else {
            self
        }
    }

    /// Nothing waits that was handed out.
    pub open spec fn wf(self) -> bool {
        forall|k: u64| #[trigger] self.pending.contains_key(k) ==> k > self.applied
    }
}

/// Numbered changes, handed out in the order of their numbers.
pub struct MutationLog {
    applied_epoch: u64,
    pending: BTreeMap<u64, RingMutation>,
}

impl View for MutationLog {
    type V = LogModel;

    closed spec fn view(&self) -> LogModel {
        LogModel { applied: self.applied_epoch, pending: self.pending@ }
    }
}

impl MutationLog {
    pub fn new() -> (log: Self)
        ensures
            log@ == (LogModel { applied: 0, pending: Map::empty() }),
            log@.wf(),
    {
        Self { applied_epoch: 0, pending: BTreeMap::new() }
    }

    /// Takes in a numbered change. One that was handed out is ignored.
    pub fn record(&mut self, epoch: u64, mutation: RingMutation)
        ensures
            final(self)@ == old(self)@.recorded(epoch, mutation),
            old(self)@.wf() ==> final(self)@.wf(),
    {
        if epoch > self.applied_epoch {
            self.pending.insert(epoch, mutation);
        }
    }

    /// The changes whose turn has come, in order. A missing number holds back
    /// all that follow it.
    pub fn drain_applicable(&mut self) -> (ready: Vec<RingMutation>)
        ensures
            ready@ == old(self)@.ready(),
            final(self)@ == old(self)@.drained(),
            old(self)@.wf() ==> final(self)@.wf(),
    {
        let mut ready: Vec<RingMutation> = Vec::new();
        assert(ready@ + old(self)@.ready() =~= old(self)@.ready());
        while self.applied_epoch < u64::MAX
            invariant_except_break
                ready@ + self@.ready() == old(self)@.ready(),
            invariant
                self@.drained() == old(self)@.drained(),
                old(self)@.wf() ==> self@.wf(),
            ensures
                !self@.has_next(),
                ready@ == old(self)@.ready(),
            decreases u64::MAX - self.applied_epoch,
        {
            let next: u64 = self.applied_epoch + 1;
            let ghost here = self@;
            let ghost before = ready@;
            match self.pending.remove(&next) {
                Some(mutation) => {
                    ready.push(mutation);
                    self.applied_epoch = next;
                    assert(self@ == here.advanced());
                    assert(ready@ + self@.ready() =~= before + here.ready());
                },
                None => {
                    assert(self@.pending =~= here.pending);
                    assert(ready@ + here.ready() =~= ready@);
                    break;
                },
            }
        }
        assert(ready@ + self@.ready() =~= ready@);
        ready
    }

    /// The number of the last change that was handed out.
    pub fn applied_epoch(&self) -> (epoch: u64)
        ensures
            epoch == self@.applied,
    {
        self.applied_epoch
    }
}

impl Default for MutationLog {
    fn default() -> (log: Self)
        ensures
            log@ == (LogModel { applied: 0, pending: Map::empty() }),
            log@.wf(),
    {
        Self::new()
    }
}

/// A change that was handed out is not handed out again.
pub proof fn law_no_redelivery(log: LogModel, epoch: u64, m: RingMutation)
    requires
        epoch <= log.applied,
    ensures
        log.recorded(epoch, m) == log,
{
}

/// Where the next number is missing nothing is handed out.
pub proof fn law_gap_holds_back(log: LogModel)
    requires
        !log.has_next(),
    ensures
        log.ready() == Seq::<RingMutation>::empty(),
        log.drained() == log,
{
}

/// Two numbered changes may be recorded in either order.
pub proof fn law_record_order(log: LogModel, e: u64, m: RingMutation, f: u64, n: RingMutation)
    requires
        e != f,
    ensures
        log.recorded(e, m).recorded(f, n) == log.recorded(f, n).recorded(e, m),
{
    assert(log.recorded(e, m).recorded(f, n).pending =~= log.recorded(f, n).recorded(
        e,
        m,
    ).pending);
}

/// What is handed out in place `i` has the number `i` places behind the next.
pub proof fn law_drain_order(log: LogModel, i: int)
    requires
        0 <= i < log.ready().len(),
    ensures
        log.applied + 1 + i <= u64::MAX,
        log.pending.contains_key((log.applied + 1 + i) as u64),
        log.ready()[i] == log.pending[(log.applied + 1 + i) as u64],
    decreases i,
{
    if i > 0 {
        law_drain_order(log.advanced(), i - 1);
        assert(log.ready()[i] == log.advanced().ready()[i - 1]);
    }
}

/// Draining hands out exactly one change for each number it moves past, and
/// stops before the first number that is missing.
pub proof fn law_drain_is_gapless(log: LogModel)
    ensures
        log.drained().applied == log.applied + log.ready().len(),
        !log.drained().has_next(),
    decreases u64::MAX - log.applied,
{
    if log.has_next() {
        law_drain_is_gapless(log.advanced());
    }
}

} // verus!
