//! The lock on a single datum, kept where the datum has its home.
//!
//! Contention is settled by op ids: an older op never waits for a younger one.
//! It has the holder recalled, whereas a younger op queues. Waiters stand in
//! the order of their op ids, so that a released datum goes to the oldest.

use crate::authority::{NodeId, ThreadId};
use crate::datum::DatumId;
use vstd::prelude::*;

verus! {

/// Where an answer goes: to a thread of this node, or back over the connection
/// that the question came on.
#[derive(Debug, Clone, Copy, PartialEq, Eq, Structural)]
pub enum ReplyTo {
    Thread(ThreadId),
    Link { link: u64, correlation_id: u64 },
}

/// Who holds a datum, and for which op.
#[derive(Debug, Clone, Copy, PartialEq, Eq, Structural)]
pub struct Holder {
    pub node_id: NodeId,
    pub thread_id: ThreadId,
    pub op_id: DatumId,
}

/// Who waits for a datum, for which op, and where the grant is to go.
#[derive(Debug, Clone, Copy, PartialEq, Eq, Structural)]
pub struct Waiter {
    pub op_id: DatumId,
    pub node_id: NodeId,
    pub thread_id: ThreadId,
    pub reply: ReplyTo,
}

impl Waiter {
    /// The waiter once it has been granted the datum.
    pub open spec fn granted(self) -> Holder {
        Holder { node_id: self.node_id, thread_id: self.thread_id, op_id: self.op_id }
    }
}

/// What a request for a lock led to.
#[derive(Debug, Clone, Copy, PartialEq, Eq, Structural)]
pub enum AcquireOutcome {
    /// Nobody held the datum. The requester does now, and is to be told.
    GrantedImmediately,
    /// The requester is older than the holder, which is to be recalled. The
    /// requester waits for its release.
    RecallNeeded(Holder),
    /// The requester is not older than the holder and waits.
    Queued,
}

/// The mathematical content of a [`NativeLock`].
pub struct LockModel {
    pub holder: Option<Holder>,
    pub waiters: Seq<Waiter>,
}

/// The number of leading waiters that an op does not go before.
pub open spec fn queue_place(waiters: Seq<Waiter>, op_id: DatumId) -> nat
    decreases waiters.len(),
{
    if waiters.len() == 0 || op_id.rank() < waiters[0].op_id.rank() {
        0
    } else {
        1 + queue_place(waiters.skip(1), op_id)
    }
}

/// The waiters without those of a node.
pub open spec fn without_node(waiters: Seq<Waiter>, node_id: NodeId) -> Seq<Waiter> {
    waiters.filter(|w: Waiter| w.node_id != node_id)
}

impl LockModel {
    /// A lock that nobody holds or waits for.
    pub open spec fn idle() -> LockModel {
        LockModel { holder: None, waiters: seq![] }
    }

    /// Waiters stand oldest first, and nobody waits for a lock that is free.
    pub open spec fn wf(self) -> bool {
        &&& forall|i: int, j: int|
            0 <= i < j < self.waiters.len() ==> (#[trigger] self.waiters[i]).op_id.rank() <= (
            #[trigger] self.waiters[j]).op_id.rank()
        &&& self.holder is None ==> self.waiters.len() == 0
    }

    /// What a request leads to.
    pub open spec fn outcome(self, op_id: DatumId) -> AcquireOutcome {
        match self.holder {
            None => AcquireOutcome::GrantedImmediately,
            Some(h) => if op_id.rank() < h.op_id.rank() {
                AcquireOutcome::RecallNeeded(h)
            } else {
                AcquireOutcome::Queued
            },
        }
    }

    /// The lock after a request: the requester holds it, or stands among the
    /// waiters behind all that are not younger.
    pub open spec fn requested(self, w: Waiter) -> LockModel {
        match self.holder {
            None => LockModel { holder: Some(w.granted()), ..self },
            Some(_) => LockModel {
                waiters: self.waiters.insert(queue_place(self.waiters, w.op_id) as int, w),
                ..self
            },
        }
    }

    /// Who gets the datum when it is released.
    pub open spec fn next(self) -> Option<Waiter> {
        if self.waiters.len() == 0 {
            None
        } else {
            Some(self.waiters[0])
        }
    }

    /// The lock after its release: the oldest waiter holds it.
    pub open spec fn released(self) -> LockModel {
        if self.waiters.len() == 0 {
            LockModel { holder: None, ..self }
        } else {
            LockModel { holder: Some(self.waiters[0].granted()), waiters: self.waiters.skip(1) }
        }
    }

    /// Whether a node holds the datum.
    pub open spec fn held_by(self, node_id: NodeId) -> bool {
        self.holder matches Some(h) && h.node_id == node_id
    }

    /// The lock without the waiters of a node.
    pub open spec fn pruned(self, node_id: NodeId) -> LockModel {
        LockModel { waiters: without_node(self.waiters, node_id), ..self }
    }

    /// The lock after a node has died: its requests are gone, and where it held
    /// the datum that is released.
    pub open spec fn after_death(self, node_id: NodeId) -> LockModel {
        if self.held_by(node_id) {
            self.pruned(node_id).released()
        } else {
            self.pruned(node_id)
        }
    }

    /// Who gets the datum when a node dies.
    pub open spec fn heir(self, node_id: NodeId) -> Option<Waiter> {
        if self.held_by(node_id) {
            self.pruned(node_id).next()
        } else {
            None
        }
    }
}

/// The lock on one datum.
pub struct NativeLock {
    current_holder: Option<Holder>,
    waiters: Vec<Waiter>,
}

impl View for NativeLock {
    type V = LockModel;

    closed spec fn view(&self) -> LockModel {
        LockModel { holder: self.current_holder, waiters: self.waiters@ }
    }
}

impl NativeLock {
    pub fn new() -> (lock: Self)
        ensures
            lock@ == LockModel::idle(),
            lock@.wf(),
    {
        Self { current_holder: None, waiters: Vec::new() }
    }

    pub fn current_holder(&self) -> (holder: Option<Holder>)
        ensures
            holder == self@.holder,
    {
        self.current_holder
    }

    /// Requests the lock for an op. `reply` is where the grant is to go.
    pub fn request(
        &mut self,
        op_id: DatumId,
        node_id: NodeId,
        thread_id: ThreadId,
        reply: ReplyTo,
    ) -> (outcome: AcquireOutcome)
        requires
            old(self)@.wf(),
        ensures
            outcome == old(self)@.outcome(op_id),
            final(self)@ == old(self)@.requested(Waiter { op_id, node_id, thread_id, reply }),
            final(self)@.wf(),
    {
        let waiter = Waiter { op_id, node_id, thread_id, reply };
        match self.current_holder {
            None => {
                self.current_holder = Some(Holder { node_id, thread_id, op_id });
                AcquireOutcome::GrantedImmediately
            },
            Some(holder) => {
                let mut place: usize = 0;
                assert(self.waiters@.skip(0) =~= self.waiters@);
                while place < self.waiters.len() && op_id.as_rank()
                    >= self.waiters[place].op_id.as_rank()
                    invariant
                        place <= self.waiters.len(),
                        queue_place(self.waiters@, op_id) == place + queue_place(
                            self.waiters@.skip(place as int),
                            op_id,
                        ),
                    decreases self.waiters.len() - place,
                {
                    assert(self.waiters@.skip(place as int).skip(1) =~= self.waiters@.skip(
                        place + 1,
                    ));
                    place = place + 1;
                }
                proof {
                    lemma_queue_place(self.waiters@, op_id);
                }
                self.waiters.insert(place, waiter);
                if op_id.as_rank() < holder.op_id.as_rank() {
                    AcquireOutcome::RecallNeeded(holder)
                } else {
                    AcquireOutcome::Queued
                }
            },
        }
    }

    /// Releases the lock and grants it to the oldest waiter, which is returned
    /// and is to be told.
    pub fn release(&mut self) -> (granted: Option<Waiter>)
        requires
            old(self)@.wf(),
        ensures
            granted == old(self)@.next(),
            final(self)@ == old(self)@.released(),
            final(self)@.wf(),
    {
        if self.waiters.len() == 0 {
            self.current_holder = None;
            None
        } else {
            let ghost before = self.waiters@;
            let waiter = self.waiters.remove(0);
            assert(self.waiters@ =~= before.skip(1));
            self.current_holder = Some(
                Holder {
                    node_id: waiter.node_id,
                    thread_id: waiter.thread_id,
                    op_id: waiter.op_id,
                },
            );
            Some(waiter)
        }
    }

    /// A node has died: drops its requests, and where it held the lock grants
    /// that to the oldest waiter left, which is returned and is to be told.
    pub fn handle_node_death(&mut self, node_id: NodeId) -> (granted: Option<Waiter>)
        requires
            old(self)@.wf(),
        ensures
            granted == old(self)@.heir(node_id),
            final(self)@ == old(self)@.after_death(node_id),
            final(self)@.wf(),
    {
        let ghost before = self.waiters@;
        let ghost keep = |w: Waiter| w.node_id != node_id;
        let mut kept: Vec<Waiter> = Vec::new();
        let mut i: usize = 0;
        assert(before.take(0).filter(keep) =~= seq![]) by {
            reveal(Seq::filter);
        }
        while i < self.waiters.len()
            invariant
                i <= self.waiters.len(),
                self.waiters@ == before,
                self.current_holder == old(self).current_holder,
                keep == (|w: Waiter| w.node_id != node_id),
                kept@ == before.take(i as int).filter(keep),
            decreases self.waiters.len() - i,
        {
            let waiter = self.waiters[i];
            proof {
                assert(before.take(i + 1).drop_last() =~= before.take(i as int));
                assert(before.take(i + 1).last() == waiter);
                reveal(Seq::filter);
            }
            if waiter.node_id != node_id {
                kept.push(waiter);
            }
            i = i + 1;
        }
        assert(before.take(i as int) =~= before);
        proof {
            lemma_pruned_wf(old(self)@, node_id);
        }
        self.waiters = kept;
        match self.current_holder {
            Some(holder) => if holder.node_id == node_id {
                self.release()
            } else {
                None
            },
            None => None,
        }
    }
}

impl Default for NativeLock {
    fn default() -> (lock: Self)
        ensures
            lock@ == LockModel::idle(),
            lock@.wf(),
    {
        Self::new()
    }
}

// ---- lemmas and laws ----

/// In an ordered queue the place of an op parts those that are not younger from
/// those that are.
proof fn lemma_queue_place(waiters: Seq<Waiter>, op_id: DatumId)
    requires
        forall|i: int, j: int|
            0 <= i < j < waiters.len() ==> (#[trigger] waiters[i]).op_id.rank() <= (
            #[trigger] waiters[j]).op_id.rank(),
    ensures
        queue_place(waiters, op_id) <= waiters.len(),
        forall|i: int|
            0 <= i < queue_place(waiters, op_id) ==> (#[trigger] waiters[i]).op_id.rank()
                <= op_id.rank(),
        forall|i: int|
            queue_place(waiters, op_id) <= i < waiters.len() ==> op_id.rank() < (
            #[trigger] waiters[i]).op_id.rank(),
    decreases waiters.len(),
{
    if waiters.len() == 0 {
    } else if op_id.rank() < waiters[0].op_id.rank() {
        assert forall|i: int| 0 <= i < waiters.len() implies op_id.rank() < (
        #[trigger] waiters[i]).op_id.rank() by {
            if i > 0 {
                assert(waiters[0].op_id.rank() <= waiters[i].op_id.rank());
            }
        }
    } else {
        let t = waiters.skip(1);
        assert forall|i: int, j: int| 0 <= i < j < t.len() implies (#[trigger] t[i]).op_id.rank()
            <= (#[trigger] t[j]).op_id.rank() by {
            assert(t[i] == waiters[i + 1]);
            assert(t[j] == waiters[j + 1]);
        }
        lemma_queue_place(t, op_id);
        let p = queue_place(waiters, op_id);
        assert forall|i: int| 0 <= i < p implies (#[trigger] waiters[i]).op_id.rank()
            <= op_id.rank() by {
            if i > 0 {
                assert(t[i - 1] == waiters[i]);
            }
        }
        assert forall|i: int| p <= i < waiters.len() implies op_id.rank() < (
        #[trigger] waiters[i]).op_id.rank() by {
            assert(t[i - 1] == waiters[i]);
        }
    }
}

/// Dropping waiters keeps the others in order.
proof fn lemma_filter_ordered(waiters: Seq<Waiter>, node_id: NodeId)
    requires
        forall|i: int, j: int|
            0 <= i < j < waiters.len() ==> (#[trigger] waiters[i]).op_id.rank() <= (
            #[trigger] waiters[j]).op_id.rank(),
    ensures
        ({
            let f = without_node(waiters, node_id);
            &&& forall|i: int, j: int|
                0 <= i < j < f.len() ==> (#[trigger] f[i]).op_id.rank() <= (
                #[trigger] f[j]).op_id.rank()
            &&& forall|i: int| 0 <= i < f.len() ==> (#[trigger] f[i]).node_id != node_id
            &&& waiters.len() == 0 ==> f.len() == 0
            &&& waiters.len() > 0 ==> forall|i: int|
                0 <= i < f.len() ==> (#[trigger] f[i]).op_id.rank()
                    <= waiters.last().op_id.rank()
        }),
    decreases waiters.len(),
{
    reveal(Seq::filter);
    if waiters.len() > 0 {
        let head = waiters.drop_last();
        lemma_filter_ordered(head, node_id);
        let f = without_node(waiters, node_id);
        let g = without_node(head, node_id);
        assert(f == if waiters.last().node_id != node_id {
            g.push(waiters.last())
        } else {
            g
        });
        if head.len() > 0 {
            assert(head.last() == waiters[waiters.len() - 2]);
            assert(head.last().op_id.rank() <= waiters.last().op_id.rank());
        }
        assert forall|i: int| 0 <= i < g.len() implies (#[trigger] g[i]).op_id.rank()
            <= waiters.last().op_id.rank() by {
            assert(g[i].op_id.rank() <= head.last().op_id.rank());
        }
    }
}

proof fn lemma_pruned_wf(lock: LockModel, node_id: NodeId)
    requires
        lock.wf(),
    ensures
        lock.pruned(node_id).wf(),
        forall|i: int|
            0 <= i < lock.pruned(node_id).waiters.len() ==> (#[trigger] lock.pruned(
                node_id,
            ).waiters[i]).node_id != node_id,
{
    lemma_filter_ordered(lock.waiters, node_id);
}

/// A request leaves the holder in place, unless there is none, and loses no
/// waiter: the requester is the holder or one more waiter.
pub proof fn law_request_keeps_everyone(lock: LockModel, w: Waiter)
    requires
        lock.wf(),
    ensures
        lock.holder is Some ==> lock.requested(w).holder == lock.holder,
        lock.holder is Some ==> lock.requested(w).waiters.to_multiset()
            == lock.waiters.to_multiset().insert(w),
        lock.holder is None ==> lock.requested(w).holder == Some(w.granted())
            && lock.requested(w).waiters == lock.waiters,
        lock.requested(w).wf(),
{
    lemma_queue_place(lock.waiters, w.op_id);
    if lock.holder is Some {
        let p = queue_place(lock.waiters, w.op_id) as int;
        vstd::seq_lib::to_multiset_insert(lock.waiters, p, w);
    }
}

/// A recall is asked for exactly where the requester is older than the holder:
/// an older op never waits for a younger one to finish.
pub proof fn law_older_op_recalls(lock: LockModel, op_id: DatumId, h: Holder)
    requires
        lock.holder == Some(h),
    ensures
        lock.outcome(op_id) == AcquireOutcome::RecallNeeded(h) <==> op_id.rank() < h.op_id.rank(),
{
}

/// A release grants the datum to a waiter that no other waiter is older than,
/// and to nobody only where nobody waits.
pub proof fn law_release_grants_oldest(lock: LockModel)
    requires
        lock.wf(),
    ensures
        lock.next() is None <==> lock.waiters.len() == 0,
        lock.next() matches Some(w) ==> lock.released().holder == Some(w.granted()) && forall|
            i: int,
        |
            0 <= i < lock.waiters.len() ==> w.op_id.rank() <= (
            #[trigger] lock.waiters[i]).op_id.rank(),
        lock.released().wf(),
{
}

/// After a node's death it neither holds the datum nor waits for it, and nobody
/// else loses the datum.
pub proof fn law_dead_node_forgotten(lock: LockModel, node_id: NodeId)
    requires
        lock.wf(),
    ensures
        !lock.after_death(node_id).held_by(node_id),
        forall|i: int|
            0 <= i < lock.after_death(node_id).waiters.len() ==> (#[trigger] lock.after_death(
                node_id,
            ).waiters[i]).node_id != node_id,
        !lock.held_by(node_id) ==> lock.after_death(node_id).holder == lock.holder,
        lock.after_death(node_id).wf(),
{
    lemma_pruned_wf(lock, node_id);
    let p = lock.pruned(node_id);
    if lock.held_by(node_id) && p.waiters.len() > 0 {
        assert(p.waiters[0].node_id != node_id);
        let d = lock.after_death(node_id);
        assert forall|i: int| 0 <= i < d.waiters.len() implies (#[trigger] d.waiters[i]).node_id
            != node_id by {
            assert(d.waiters[i] == p.waiters[i + 1]);
        }
    }
}

/// A requester that has to wait stands behind every waiter that is not younger
/// and before every one that is; the waiters keep their order.
pub proof fn law_request_waits_in_age_order(lock: LockModel, w: Waiter)
    requires
        lock.wf(),
        lock.holder is Some,
    ensures
        exists|p: int|
            0 <= p <= lock.waiters.len() && lock.requested(w).waiters == #[trigger] lock.waiters.insert(
                p,
                w,
            ) && (forall|i: int|
                0 <= i < p ==> (#[trigger] lock.waiters[i]).op_id.rank() <= w.op_id.rank()) && (
            forall|i: int|
                p <= i < lock.waiters.len() ==> w.op_id.rank() < (
                #[trigger] lock.waiters[i]).op_id.rank()),
{
    lemma_queue_place(lock.waiters, w.op_id);
    let p = queue_place(lock.waiters, w.op_id) as int;
    assert(lock.requested(w).waiters == lock.waiters.insert(p, w));
}

/// A release loses nobody: whoever waited either holds the datum now or still
/// waits, in the order of before. A lock that nobody waits for becomes free.
pub proof fn law_release_keeps_everyone(lock: LockModel)
    requires
        lock.wf(),
    ensures
        lock.next() matches Some(w) ==> seq![w] + lock.released().waiters == lock.waiters
            && lock.released().holder == Some(w.granted()),
        lock.next() is None ==> lock.waiters.len() == 0 && lock.released().holder is None
            && lock.released().waiters.len() == 0,
{
    if lock.waiters.len() > 0 {
        assert(seq![lock.waiters[0]] + lock.released().waiters =~= lock.waiters);
    }
}

/// A node's death takes the requests of that node from the queue and no others:
/// each waiter of another node still waits, as often as before, or is the one
/// that gets the datum. Somebody gets it exactly where the dead node held it and
/// a waiter of another node was there, and nobody who still waits is older.
pub proof fn law_death_keeps_the_living(lock: LockModel, node_id: NodeId, w: Waiter)
    requires
        lock.wf(),
    ensures
        ({
            let after = lock.after_death(node_id);
            let heir = lock.heir(node_id);
            let held = lock.holder matches Some(h) && h.node_id == node_id;
            let survives = exists|i: int|
                0 <= i < lock.waiters.len() && (#[trigger] lock.waiters[i]).node_id != node_id;
            &&& after.waiters.to_multiset().count(w) + (if heir == Some(w) {
                1int
            } else {
                0int
            }) == (if w.node_id == node_id {
                0int
            } else {
                lock.waiters.to_multiset().count(w) as int
            })
            &&& heir is Some <==> held && survives
            &&& heir matches Some(g) ==> after.holder == Some(g.granted()) && forall|i: int|
                0 <= i < after.waiters.len() ==> g.op_id.rank() <= (
                #[trigger] after.waiters[i]).op_id.rank()
            &&& held && !survives ==> after.holder is None
            &&& !held ==> after.holder == lock.holder
        }),
{
    lemma_pruned_wf(lock, node_id);
    lemma_filter_counts(lock.waiters, node_id, w);
    let p = lock.pruned(node_id);
    if exists|i: int|
        0 <= i < lock.waiters.len() && (#[trigger] lock.waiters[i]).node_id != node_id {
        let i = choose|i: int|
            0 <= i < lock.waiters.len() && (#[trigger] lock.waiters[i]).node_id != node_id;
        let other = lock.waiters[i];
        lemma_filter_counts(lock.waiters, node_id, other);
        lemma_counted(lock.waiters, i);
        if p.waiters.len() == 0 {
            vstd::seq_lib::to_multiset_len(p.waiters);
            assert(p.waiters.to_multiset().count(other) == 0);
        }
    } else if p.waiters.len() > 0 {
        let other = p.waiters[0];
        lemma_filter_counts(lock.waiters, node_id, other);
        lemma_counted(p.waiters, 0);
        lemma_counted_is_there(lock.waiters, other);
    }
    if lock.held_by(node_id) && p.waiters.len() > 0 {
        let rest = p.waiters.skip(1);
        assert(rest.insert(0, p.waiters[0]) =~= p.waiters);
        vstd::seq_lib::to_multiset_insert(rest, 0, p.waiters[0]);
    }
}

proof fn lemma_counted(waiters: Seq<Waiter>, i: int)
    requires
        0 <= i < waiters.len(),
    ensures
        waiters.to_multiset().count(waiters[i]) > 0,
{
    broadcast use vstd::seq_lib::group_to_multiset_ensures;

    assert(waiters.contains(waiters[i]));
}

proof fn lemma_counted_is_there(waiters: Seq<Waiter>, w: Waiter)
    requires
        waiters.to_multiset().count(w) > 0,
    ensures
        exists|i: int| 0 <= i < waiters.len() && #[trigger] waiters[i] == w,
{
    broadcast use vstd::seq_lib::group_to_multiset_ensures;

    assert(waiters.contains(w));
}

/// Dropping a node's waiters keeps each other one as often as it was there.
proof fn lemma_filter_counts(waiters: Seq<Waiter>, node_id: NodeId, w: Waiter)
    ensures
        without_node(waiters, node_id).to_multiset().count(w) == (if w.node_id == node_id {
            0
        } else {
            waiters.to_multiset().count(w)
        }),
    decreases waiters.len(),
{
    broadcast use vstd::seq_lib::group_to_multiset_ensures;

    reveal(Seq::filter);
    if waiters.len() > 0 {
        let head = waiters.drop_last();
        lemma_filter_counts(head, node_id, w);
        assert(head.push(waiters.last()) =~= waiters);
    } else {
        assert(waiters =~= Seq::<Waiter>::empty());
    }
}

impl LockModel {
    /// The lock after some releases.
    pub open spec fn released_often(self, times: nat) -> LockModel
        decreases times,
    {
        if times == 0 {
            self
        } else {
            self.released().released_often((times - 1) as nat)
        }
    }
}

/// Everybody who waits gets the datum, in turn: the waiter at a place is granted
/// it by the release that follows as many others as stand before it.
pub proof fn law_everyone_gets_a_turn(lock: LockModel, i: int)
    requires
        lock.wf(),
        0 <= i < lock.waiters.len(),
    ensures
        lock.released_often(i as nat).next() == Some(lock.waiters[i]),
        lock.released_often((i + 1) as nat).holder == Some(lock.waiters[i].granted()),
    decreases i,
{
    law_release_grants_oldest(lock);
    if i > 0 {
        law_everyone_gets_a_turn(lock.released(), i - 1);
        assert(lock.released().waiters[i - 1] == lock.waiters[i]);
    } else {
        assert(lock.released_often(1) == lock.released().released_often(0));
    }
}

/// Something that happens to a lock.
pub enum LockEvent {
    Request(Waiter),
    Release,
    Death(NodeId),
}

impl LockModel {
    /// The lock after an event.
    pub open spec fn after(self, e: LockEvent) -> LockModel {
        match e {
            LockEvent::Request(w) => self.requested(w),
            LockEvent::Release => self.released(),
            LockEvent::Death(node_id) => self.after_death(node_id),
        }
    }

    /// Whether an event has the datum granted to somebody.
    pub open spec fn grants(self, e: LockEvent) -> bool {
        match e {
            LockEvent::Request(w) => self.outcome(w.op_id) is GrantedImmediately,
            LockEvent::Release => self.next() is Some,
            LockEvent::Death(node_id) => self.heir(node_id) is Some,
        }
    }

    /// Whether an event takes the datum from somebody.
    pub open spec fn takes_back(self, e: LockEvent) -> bool {
        match e {
            LockEvent::Request(_) => false,
            LockEvent::Release => self.holder is Some,
            LockEvent::Death(node_id) => self.held_by(node_id),
        }
    }

    /// The lock after some events.
    pub open spec fn after_all(self, events: Seq<LockEvent>) -> LockModel
        decreases events.len(),
    {
        if events.len() == 0 {
            self
        } else {
            self.after_all(events.drop_last()).after(events.last())
        }
    }

    /// How often the datum was granted in some events.
    pub open spec fn granted_times(self, events: Seq<LockEvent>) -> nat
        decreases events.len(),
    {
        if events.len() == 0 {
            0
        } else {
            let before = self.granted_times(events.drop_last());
            if self.after_all(events.drop_last()).grants(events.last()) {
                before + 1
            } else {
                before
            }
        }
    }

    /// How often the datum was taken back in some events.
    pub open spec fn taken_times(self, events: Seq<LockEvent>) -> nat
        decreases events.len(),
    {
        if events.len() == 0 {
            0
        } else {
            let before = self.taken_times(events.drop_last());
            if self.after_all(events.drop_last()).takes_back(events.last()) {
                before + 1
            } else {
                before
            }
        }
    }
}

/// A lock never grants its datum twice without taking it back in between: however
/// requests, releases and deaths follow each other, there was one grant more than
/// returns while somebody holds the datum, and else as many.
pub proof fn law_one_holder_at_a_time(events: Seq<LockEvent>)
    ensures
        ({
            let idle = LockModel::idle();
            let lock = idle.after_all(events);
            &&& lock.wf()
            &&& lock.holder is Some <==> idle.granted_times(events) == idle.taken_times(events) + 1
            &&& lock.holder is None <==> idle.granted_times(events) == idle.taken_times(events)
        }),
    decreases events.len(),
{
    if events.len() > 0 {
        let head = events.drop_last();
        law_one_holder_at_a_time(head);
        let lock = LockModel::idle().after_all(head);
        match events.last() {
            LockEvent::Request(w) => law_request_keeps_everyone(lock, w),
            LockEvent::Release => law_release_grants_oldest(lock),
            LockEvent::Death(node_id) => {
                law_dead_node_forgotten(lock, node_id);
                lemma_pruned_wf(lock, node_id);
            },
        }
    }
}

} // verus!
