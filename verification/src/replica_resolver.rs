//! Which storage nodes serve a datum, and what becomes of a write or a read that
//! goes to several of them.
//!
//! A node that fails a call is stale from then on and serves nothing, until it
//! is replicated to again. A write needs one node that acknowledges it, a read
//! one that answers. Where there is none, the datum is lost, and the whole
//! cluster halts.

use crate::authority::NodeId;
use crate::books::{book_get, entry};
use crate::datum::DatumId;
use crate::gossip_state::{ClusterModel, ClusterState};
use crate::ring::{law_replicas, replicas_of};
use crate::text::{copy_text, decimal, id_text, push_decimal, push_id};
use vstd::prelude::*;
use vstd::string::*;

verus! {

broadcast use {vstd::std_specs::btree::group_btree_axioms, vstd::laws_cmp::group_laws_cmp};

/// Those of some nodes that are alive and not stale.
pub open spec fn serving_of(c: ClusterModel, nodes: Seq<NodeId>) -> Seq<NodeId> {
    nodes.filter(|node: NodeId| c.alive.contains(node.0) && !c.stale.contains(node.0))
}

/// The nodes that serve a datum with `n` copies, the first of them first.
pub open spec fn serving(c: ClusterModel, id: DatumId, n: u16) -> Seq<NodeId> {
    serving_of(c, replicas_of(c.storage, id, n as nat))
}

/// What is kept on storage nodes.
#[derive(Debug, Clone, Copy, PartialEq, Eq, Structural)]
pub enum Kept {
    Datum,
    Collection,
}

/// Why a cluster halts that has lost every copy of something.
pub open spec fn total_loss_text(kept: Kept, id: DatumId) -> Seq<char> {
    (match kept {
        Kept::Datum => "cluster halted: every replica of datum DatumId("@,
        Kept::Collection => "cluster halted: every replica of DatumId("@,
    }) + id_text(id) + ") is unreachable — total shard loss"@
}

/// Why a storage node cannot be called.
pub open spec fn no_store_address_text(node: NodeId) -> Seq<char> {
    "no store address configured for storage node NodeId("@ + decimal(node.0 as nat) + ")"@
}

impl ClusterModel {
    /// The cluster once a node serves nothing any more.
    pub open spec fn with_stale(self, node: NodeId) -> ClusterModel {
        ClusterModel { stale: self.stale.insert(node.0), ..self }
    }

    /// The cluster once every copy of something is lost.
    pub open spec fn after_total_loss(self, kept: Kept, id: DatumId) -> ClusterModel {
        ClusterModel { halt: self.halt.after_halt(total_loss_text(kept, id)), ..self }
    }
}

/// Looks for the nodes that serve data.
pub struct ReplicaResolver<'a> {
    pub cluster: &'a mut ClusterState,
}

impl<'a> View for ReplicaResolver<'a> {
    type V = ClusterModel;

    open spec fn view(&self) -> ClusterModel {
        (*self.cluster)@
    }
}

impl<'a> ReplicaResolver<'a> {
    pub fn new(cluster: &'a mut ClusterState) -> (resolver: Self)
        ensures
            resolver@ == old(cluster)@,
            *final(resolver.cluster) == *final(cluster),
    {
        ReplicaResolver { cluster }
    }

    /// The cluster.
    pub fn cluster(&self) -> (cluster: &ClusterState)
        ensures
            cluster@ == self@,
    {
        &*self.cluster
    }

    /// The nodes that can serve a datum now, in the order of its replicas.
    pub fn serving_replicas(&self, id: DatumId, n: u16) -> (nodes: Vec<NodeId>)
        ensures
            nodes@ == serving(self@, id, n),
    {
        serving_replicas(&*self.cluster, id, n)
    }

    /// Takes a node out of service.
    pub fn mark_stale(&mut self, node: NodeId)
        ensures
            final(self)@ == old(self)@.with_stale(node),
            *final(final(self).cluster) == *final(old(self).cluster),
    {
        mark_stale(&mut *self.cluster, node);
    }

    /// Halts the cluster for a collection that is lost, and says why.
    pub fn halt_total_loss(&mut self, id: DatumId) -> (reason: String)
        ensures
            reason@ == total_loss_text(Kept::Collection, id),
            final(self)@ == old(self)@.after_total_loss(Kept::Collection, id),
            *final(final(self).cluster) == *final(old(self).cluster),
    {
        halt_total_loss(&mut *self.cluster, Kept::Collection, id)
    }
}

fn serving_replicas(cluster: &ClusterState, id: DatumId, n: u16) -> (nodes: Vec<NodeId>)
    ensures
        nodes@ == serving(cluster@, id, n),
{
    let replicas = cluster.storage_ring.replicas(id, n as usize);
    let mut nodes: Vec<NodeId> = Vec::new();
    let mut i: usize = 0;
    assert(serving_of(cluster@, replicas@.take(0)) =~= seq![]) by {
        reveal(Seq::filter);
    }
    while i < replicas.len()
        invariant
            i <= replicas.len(),
            nodes@ == serving_of(cluster@, replicas@.take(i as int)),
        decreases replicas.len() - i,
    {
        let node = replicas[i];
        proof {
            reveal(Seq::filter);
            assert(replicas@.take(i + 1).drop_last() =~= replicas@.take(i as int));
        }
        if cluster.storage_alive.contains(&node.0) && !cluster.storage_stale.contains(&node.0) {
            nodes.push(node);
        }
        i = i + 1;
    }
    assert(replicas@.take(i as int) =~= replicas@);
    nodes
}

fn mark_stale(cluster: &mut ClusterState, node: NodeId)
    ensures
        final(cluster)@ == old(cluster)@.with_stale(node),
{
    cluster.storage_stale.insert(node.0);
}

fn halt_total_loss(cluster: &mut ClusterState, kept: Kept, id: DatumId) -> (reason: String)
    ensures
        reason@ == total_loss_text(kept, id),
        final(cluster)@ == old(cluster)@.after_total_loss(kept, id),
{
    let mut reason = match kept {
        Kept::Datum => copy_text("cluster halted: every replica of datum DatumId("),
        Kept::Collection => copy_text("cluster halted: every replica of DatumId("),
    };
    push_id(&mut reason, id);
    reason.append(") is unreachable — total shard loss");
    cluster.halt.halt(copy_text(reason.as_str()));
    reason
}

/// Where a storage node is reached.
pub fn store_address(cluster: &ClusterState, node: NodeId) -> (address: Result<String, String>)
    ensures
        (match address {
            Ok(a) => entry(cluster@.addresses, node) == Some(a@),
            Err(e) => entry(cluster@.addresses, node) is None && e@ == no_store_address_text(node),
        }),
{
    match book_get(&cluster.store_addresses, node) {
        Some(address) => Ok(address),
        None => {
            let mut text = copy_text("no store address configured for storage node NodeId(");
            push_decimal(&mut text, node.0 as u128);
            text.append(")");
            Err(text)
        },
    }
}

// ---- writes ----

/// What is sent to a node that is written to.
#[derive(Debug, Clone, Copy, PartialEq, Eq, Structural)]
pub enum WriteForm {
    /// The difference from what it has.
    Patch,
    /// Everything.
    Full,
}

/// What came back of a call that writes.
#[derive(Debug, Clone, Copy, PartialEq, Eq, Structural)]
pub enum WriteReply {
    Acked,
    /// The node has nothing that a difference could be applied to.
    NeedFull,
    Failed,
}

/// A write on its way to the nodes that serve a datum.
#[derive(Debug)]
pub struct ReplicaWrite {
    pub kept: Kept,
    pub id: DatumId,
    pub targets: Vec<NodeId>,
    /// The nodes that are done with.
    pub next: usize,
    /// Whether a difference can be sent.
    pub patch: bool,
    /// Whether the node at hand has asked for everything.
    pub full: bool,
    pub acked: bool,
}

/// The mathematical content of a [`ReplicaWrite`].
pub struct WriteModel {
    pub kept: Kept,
    pub id: DatumId,
    pub targets: Seq<NodeId>,
    pub next: int,
    pub patch: bool,
    pub full: bool,
    pub acked: bool,
}

impl View for ReplicaWrite {
    type V = WriteModel;

    open spec fn view(&self) -> WriteModel {
        WriteModel {
            kept: self.kept,
            id: self.id,
            targets: self.targets@,
            next: self.next as int,
            patch: self.patch,
            full: self.full,
            acked: self.acked,
        }
    }
}

impl WriteModel {
    pub open spec fn begun(
        c: ClusterModel,
        kept: Kept,
        id: DatumId,
        n: u16,
        patch: bool,
    ) -> WriteModel {
        WriteModel {
            kept,
            id,
            targets: serving(c, id, n),
            next: 0,
            patch,
            full: false,
            acked: false,
        }
    }

    pub open spec fn wf(self) -> bool {
        0 <= self.next <= self.targets.len()
    }

    /// What is to be sent, and to whom.
    pub open spec fn asks(self) -> Option<(NodeId, WriteForm)> {
        if self.next < self.targets.len() {
            Some(
                (
                    self.targets[self.next],
                    if self.patch && !self.full {
                        WriteForm::Patch
                    } else {
                        WriteForm::Full
                    },
                ),
            )
        } else {
            None
        }
    }

    /// The write after a call. A node that asks for everything is called once
    /// more.
    pub open spec fn after(self, reply: WriteReply) -> WriteModel {
        if self.next >= self.targets.len() {
            self
        } else if reply == WriteReply::NeedFull && self.patch && !self.full {
            WriteModel { full: true, ..self }
        } else {
            WriteModel {
                next: self.next + 1,
                full: false,
                acked: self.acked || reply == WriteReply::Acked,
                ..self
            }
        }
    }

    /// Whether a call has shown that the node at hand cannot serve.
    pub open spec fn fails_with(self, reply: WriteReply) -> bool {
        self.next < self.targets.len() && reply != WriteReply::Acked && !(reply
            == WriteReply::NeedFull && self.patch && !self.full)
    }

    /// The cluster after a call.
    pub open spec fn touches(self, c: ClusterModel, reply: WriteReply) -> ClusterModel {
        if self.fails_with(reply) {
            c.with_stale(self.targets[self.next])
        } else {
            c
        }
    }

    /// What the write comes to: an error where no node has it.
    pub open spec fn result(self) -> Result<(), Seq<char>> {
        if self.acked {
            Ok(())
        } else {
            Err(total_loss_text(self.kept, self.id))
        }
    }

    /// The cluster once the write has ended.
    pub open spec fn leaves(self, c: ClusterModel) -> ClusterModel {
        if self.acked {
            c
        } else {
            c.after_total_loss(self.kept, self.id)
        }
    }

    /// The write and the cluster after some calls.
    pub open spec fn run(self, c: ClusterModel, replies: Seq<WriteReply>) -> (
        WriteModel,
        ClusterModel,
    )
        decreases replies.len(),
    {
        if replies.len() == 0 {
            (self, c)
        } else {
            let (w, d) = self.run(c, replies.drop_last());
            (w.after(replies.last()), w.touches(d, replies.last()))
        }
    }

    /// The nodes that have acknowledged the write in some calls.
    pub open spec fn holders(self, c: ClusterModel, replies: Seq<WriteReply>) -> Set<u64>
        decreases replies.len(),
    {
        if replies.len() == 0 {
            Set::empty()
        } else {
            let (w, _) = self.run(c, replies.drop_last());
            let before = self.holders(c, replies.drop_last());
            if w.asks() is Some && replies.last() == WriteReply::Acked {
                before.insert(w.targets[w.next].0)
            } else {
                before
            }
        }
    }
}

impl ReplicaWrite {
    /// Begins to write a datum with `n` copies.
    pub fn begin(cluster: &ClusterState, kept: Kept, id: DatumId, n: u16, patch: bool) -> (write:
        Self)
        ensures
            write@ == WriteModel::begun(cluster@, kept, id, n, patch),
            write@.wf(),
    {
        ReplicaWrite {
            kept,
            id,
            targets: serving_replicas(cluster, id, n),
            next: 0,
            patch,
            full: false,
            acked: false,
        }
    }

    /// What is to be sent next, and to whom; nothing, once every node is done
    /// with.
    pub fn ask(&self) -> (ask: Option<(NodeId, WriteForm)>)
        requires
            self@.wf(),
        ensures
            ask == self@.asks(),
    {
        if self.next < self.targets.len() {
            let form = if self.patch && !self.full {
                WriteForm::Patch
            } else {
                WriteForm::Full
            };
            Some((self.targets[self.next], form))
        } else {
            None
        }
    }

    /// Takes what came back.
    pub fn answer(&mut self, cluster: &mut ClusterState, reply: WriteReply)
        requires
            old(self)@.wf(),
        ensures
            final(self)@ == old(self)@.after(reply),
            final(self)@.wf(),
            final(cluster)@ == old(self)@.touches(old(cluster)@, reply),
    {
        if self.next >= self.targets.len() {
            return;
        }
        if reply == WriteReply::NeedFull && self.patch && !self.full {
            self.full = true;
            return;
        }
        if reply == WriteReply::Acked {
            self.acked = true;
        } else {
            mark_stale(cluster, self.targets[self.next]);
        }
        self.next = self.next + 1;
        self.full = false;
    }

    /// Ends a write: an error where no node has it, which halts the cluster.
    pub fn finish(self, cluster: &mut ClusterState) -> (r: Result<(), String>)
        ensures
            r is Ok == self@.acked,
            r matches Err(e) ==> e@ == total_loss_text(self@.kept, self@.id),
            (match r {
                Ok(()) => Ok::<(), Seq<char>>(()),
                Err(e) => Err(e@),
            }) == self@.result(),
            final(cluster)@ == self@.leaves(old(cluster)@),
    {
        if self.acked {
            Ok(())
        } else {
            Err(halt_total_loss(cluster, self.kept, self.id))
        }
    }
}

// ---- reads ----

/// What came back of a call that reads.
#[derive(Debug, Clone, Copy, PartialEq, Eq, Structural)]
pub enum ReadReply {
    /// What was asked for.
    Answered,
    /// The node has no such datum.
    Absent,
    Failed,
}

/// A read that goes from one node to the next.
#[derive(Debug)]
pub struct ReplicaRead {
    pub kept: Kept,
    pub id: DatumId,
    pub targets: Vec<NodeId>,
    /// The nodes that are done with.
    pub next: usize,
    pub answered: bool,
    /// Whether a node has said that there is no such datum.
    pub absent: bool,
}

/// The mathematical content of a [`ReplicaRead`].
pub struct ReadModel {
    pub kept: Kept,
    pub id: DatumId,
    pub targets: Seq<NodeId>,
    pub next: int,
    pub answered: bool,
    pub absent: bool,
}

impl View for ReplicaRead {
    type V = ReadModel;

    open spec fn view(&self) -> ReadModel {
        ReadModel {
            kept: self.kept,
            id: self.id,
            targets: self.targets@,
            next: self.next as int,
            answered: self.answered,
            absent: self.absent,
        }
    }
}

/// How a read ended.
#[derive(Debug, PartialEq, Eq)]
pub enum ReadOutcome {
    Answered,
    Absent,
    /// The datum is lost, for the reason given.
    Lost(String),
}

impl ReadModel {
    pub open spec fn begun(c: ClusterModel, kept: Kept, id: DatumId, n: u16) -> ReadModel {
        ReadModel { kept, id, targets: serving(c, id, n), next: 0, answered: false, absent: false }
    }

    pub open spec fn wf(self) -> bool {
        0 <= self.next <= self.targets.len()
    }

    /// Who is to be asked next.
    pub open spec fn asks(self) -> Option<NodeId> {
        if !self.answered && self.next < self.targets.len() {
            Some(self.targets[self.next])
        } else {
            None
        }
    }

    /// The read after a call.
    pub open spec fn after(self, reply: ReadReply) -> ReadModel {
        if self.asks() is None {
            self
        } else {
            ReadModel {
                next: self.next + 1,
                answered: reply == ReadReply::Answered,
                absent: self.absent || reply == ReadReply::Absent,
                ..self
            }
        }
    }

    /// The cluster after a call.
    pub open spec fn touches(self, c: ClusterModel, reply: ReadReply) -> ClusterModel {
        if self.asks() is Some && reply == ReadReply::Failed {
            c.with_stale(self.targets[self.next])
        } else {
            c
        }
    }

    /// The cluster once the read has ended.
    pub open spec fn leaves(self, c: ClusterModel) -> ClusterModel {
        if self.answered || self.absent {
            c
        } else {
            c.after_total_loss(self.kept, self.id)
        }
    }

    /// The read and the cluster after some calls.
    pub open spec fn run(self, c: ClusterModel, replies: Seq<ReadReply>) -> (
        ReadModel,
        ClusterModel,
    )
        decreases replies.len(),
    {
        if replies.len() == 0 {
            (self, c)
        } else {
            let (r, d) = self.run(c, replies.drop_last());
            (r.after(replies.last()), r.touches(d, replies.last()))
        }
    }
}

impl ReplicaRead {
    /// Begins to read a datum with `n` copies.
    pub fn begin(cluster: &ClusterState, kept: Kept, id: DatumId, n: u16) -> (read: Self)
        ensures
            read@ == ReadModel::begun(cluster@, kept, id, n),
            read@.wf(),
    {
        ReplicaRead {
            kept,
            id,
            targets: serving_replicas(cluster, id, n),
            next: 0,
            answered: false,
            absent: false,
        }
    }

    /// Who is to be asked next; nobody, once there is an answer or every node
    /// is done with.
    pub fn ask(&self) -> (ask: Option<NodeId>)
        requires
            self@.wf(),
        ensures
            ask == self@.asks(),
    {
        if !self.answered && self.next < self.targets.len() {
            Some(self.targets[self.next])
        } else {
            None
        }
    }

    /// Takes what came back.
    pub fn answer(&mut self, cluster: &mut ClusterState, reply: ReadReply)
        requires
            old(self)@.wf(),
        ensures
            final(self)@ == old(self)@.after(reply),
            final(self)@.wf(),
            final(cluster)@ == old(self)@.touches(old(cluster)@, reply),
    {
        if self.answered || self.next >= self.targets.len() {
            return;
        }
        match reply {
            ReadReply::Answered => {
                self.answered = true;
            },
            ReadReply::Absent => {
                self.absent = true;
            },
            ReadReply::Failed => {
                mark_stale(cluster, self.targets[self.next]);
            },
        }
        self.next = self.next + 1;
    }

    /// Ends a read. Where no node could be asked, the cluster halts.
    pub fn finish(self, cluster: &mut ClusterState) -> (outcome: ReadOutcome)
        ensures
            (match outcome {
                ReadOutcome::Answered => self@.answered && final(cluster)@ == old(cluster)@,
                ReadOutcome::Absent => !self@.answered && self@.absent && final(cluster)@ == old(
                    cluster,
                )@,
                ReadOutcome::Lost(e) => !self@.answered && !self@.absent && e@ == total_loss_text(
                    self@.kept,
                    self@.id,
                ) && final(cluster)@ == old(cluster)@.after_total_loss(self@.kept, self@.id),
            }),
            final(cluster)@ == self@.leaves(old(cluster)@),
    {
        if self.answered {
            ReadOutcome::Answered
        } else if self.absent {
            ReadOutcome::Absent
        } else {
            ReadOutcome::Lost(halt_total_loss(cluster, self.kept, self.id))
        }
    }
}

// ---- laws ----

/// A node that serves a datum is one of its replicas, is alive and is not
/// stale.
pub proof fn law_serving(c: ClusterModel, id: DatumId, n: u16, node: NodeId)
    requires
        serving(c, id, n).contains(node),
    ensures
        replicas_of(c.storage, id, n as nat).contains(node),
        c.alive.contains(node.0),
        !c.stale.contains(node.0),
{
    let all = replicas_of(c.storage, id, n as nat);
    let keep = |node: NodeId| c.alive.contains(node.0) && !c.stale.contains(node.0);
    let i = choose|i: int| 0 <= i < serving(c, id, n).len() && serving(c, id, n)[i] == node;
    all.lemma_filter_contains_rev(keep, node);
    all.lemma_filter_pred(keep, i);
}

/// A stale node serves nothing.
pub proof fn law_stale_is_not_served(c: ClusterModel, id: DatumId, n: u16, node: NodeId)
    ensures
        !serving(c.with_stale(node), id, n).contains(node),
{
    if serving(c.with_stale(node), id, n).contains(node) {
        law_serving(c.with_stale(node), id, n, node);
    }
}

/// A write of everything to its nodes, one after the other, succeeds where one
/// of them acknowledges it; exactly those that do not are stale afterwards.
pub proof fn law_write_needs_one_ack(
    c: ClusterModel,
    kept: Kept,
    id: DatumId,
    n: u16,
    replies: Seq<WriteReply>,
)
    requires
        replies.len() <= serving(c, id, n).len(),
    ensures
        ({
            let (w, d) = WriteModel::begun(c, kept, id, n, false).run(c, replies);
            &&& w.next == replies.len()
            &&& w.acked <==> replies.contains(WriteReply::Acked)
            &&& forall|i: int|
                0 <= i < replies.len() && #[trigger] replies[i] != WriteReply::Acked
                    ==> d.stale.contains(serving(c, id, n)[i].0)
            &&& forall|k: u64| #[trigger]
                d.stale.contains(k) ==> c.stale.contains(k) || exists|i: int|
                    0 <= i < replies.len() && serving(c, id, n)[i].0 == k && #[trigger] replies[i]
                        != WriteReply::Acked
            &&& d.halt == c.halt
        }),
    decreases replies.len(),
{
    let targets = serving(c, id, n);
    let begun = WriteModel::begun(c, kept, id, n, false);
    lemma_write_keeps(begun, c, replies);
    if replies.len() > 0 {
        let head = replies.drop_last();
        law_write_needs_one_ack(c, kept, id, n, head);
        lemma_write_keeps(begun, c, head);
        let (w, d) = begun.run(c, head);
        let (w2, d2) = begun.run(c, replies);
        let last = replies.last();
        assert(replies =~= head.push(last));
        if head.contains(WriteReply::Acked) {
            let i = choose|i: int| 0 <= i < head.len() && head[i] == WriteReply::Acked;
            assert(replies[i] == WriteReply::Acked);
        }
        if last == WriteReply::Acked {
            assert(replies[replies.len() - 1] == WriteReply::Acked);
        }
        if replies.contains(WriteReply::Acked) {
            let i = choose|i: int| 0 <= i < replies.len() && replies[i] == WriteReply::Acked;
            if i < head.len() {
                assert(head[i] == WriteReply::Acked);
            }
        }
        assert forall|i: int|
            0 <= i < replies.len() && #[trigger] replies[i]
                != WriteReply::Acked implies d2.stale.contains(targets[i].0) by {
            if i < head.len() {
                assert(head[i] == replies[i]);
            }
        }
        assert forall|k: u64| #[trigger] d2.stale.contains(k) implies c.stale.contains(k) || exists|
            i: int,
        |
            0 <= i < replies.len() && targets[i].0 == k && #[trigger] replies[i]
                != WriteReply::Acked by {
            if d.stale.contains(k) {
                if !c.stale.contains(k) {
                    let i = choose|i: int|
                        0 <= i < head.len() && targets[i].0 == k && #[trigger] head[i]
                            != WriteReply::Acked;
                    assert(replies[i] == head[i]);
                }
            } else {
                assert(replies[replies.len() - 1] != WriteReply::Acked);
            }
        }
    }
}

proof fn lemma_write_keeps(w: WriteModel, c: ClusterModel, replies: Seq<WriteReply>)
    ensures
        w.run(c, replies).0.targets == w.targets,
        w.run(c, replies).0.patch == w.patch,
        w.run(c, replies).0.id == w.id,
    decreases replies.len(),
{
    if replies.len() > 0 {
        lemma_write_keeps(w, c, replies.drop_last());
    }
}

/// How far a write has come: each node that is done with has either
/// acknowledged it or is stale.
proof fn lemma_write_progress(w0: WriteModel, c: ClusterModel, replies: Seq<WriteReply>)
    requires
        w0.next == 0,
        !w0.acked,
        w0.targets.no_duplicates(),
        forall|i: int| 0 <= i < w0.targets.len() ==> !c.stale.contains(#[trigger] w0.targets[i].0),
    ensures
        ({
            let (w, d) = w0.run(c, replies);
            let t = w0.targets;
            let h = w0.holders(c, replies);
            &&& w.targets == t
            &&& 0 <= w.next <= t.len()
            &&& d.alive == c.alive
            &&& d.storage == c.storage
            &&& forall|i: int|
                0 <= i < w.next ==> (h.contains(#[trigger] t[i].0) <==> !d.stale.contains(t[i].0))
            &&& forall|k: u64| #[trigger]
                h.contains(k) ==> w.acked && exists|i: int|
                    0 <= i < w.next && #[trigger] t[i].0 == k
            &&& w.acked ==> exists|i: int| 0 <= i < w.next && h.contains(#[trigger] t[i].0)
            &&& forall|k: u64| #[trigger]
                d.stale.contains(k) ==> c.stale.contains(k) || exists|i: int|
                    0 <= i < w.next && #[trigger] t[i].0 == k
            &&& c.stale.subset_of(d.stale)
        }),
    decreases replies.len(),
{
    if replies.len() > 0 {
        let head = replies.drop_last();
        lemma_write_progress(w0, c, head);
        let (v, e) = w0.run(c, head);
        let (w, d) = w0.run(c, replies);
        let t = w0.targets;
        let g = w0.holders(c, head);
        let h = w0.holders(c, replies);
        if v.next < t.len() && w.next > v.next {
            let at = t[v.next];
            assert(forall|i: int| 0 <= i < v.next ==> #[trigger] t[i].0 != at.0) by {
                assert(forall|i: int| 0 <= i < v.next ==> #[trigger] t[i] != at);
            }
            assert(!g.contains(at.0));
            assert(!e.stale.contains(at.0));
            assert(t[w.next - 1].0 == at.0);
            if v.acked {
                let i = choose|i: int| 0 <= i < v.next && g.contains(#[trigger] t[i].0);
                assert(h.contains(t[i].0));
            }
            assert forall|k: u64| #[trigger] h.contains(k) implies w.acked && exists|i: int|
                0 <= i < w.next && #[trigger] t[i].0 == k by {
                if g.contains(k) {
                    let i = choose|i: int| 0 <= i < v.next && #[trigger] t[i].0 == k;
                    assert(0 <= i < w.next && t[i].0 == k);
                }
            }
            assert forall|k: u64| #[trigger] d.stale.contains(k) implies c.stale.contains(k)
                || exists|i: int| 0 <= i < w.next && #[trigger] t[i].0 == k by {
                if e.stale.contains(k) && !c.stale.contains(k) {
                    let i = choose|i: int| 0 <= i < v.next && #[trigger] t[i].0 == k;
                    assert(0 <= i < w.next && t[i].0 == k);
                }
            }
        }
    }
}

proof fn lemma_serving_distinct(c: ClusterModel, id: DatumId, n: u16)
    ensures
        serving(c, id, n).no_duplicates(),
{
    let all = replicas_of(c.storage, id, n as nat);
    if c.storage.len() > 0 && n > 0 {
        law_replicas(c.storage, id, n as nat);
    }
    lemma_filter_distinct(
        all,
        |node: NodeId| c.alive.contains(node.0) && !c.stale.contains(node.0),
    );
}

proof fn lemma_filter_distinct(s: Seq<NodeId>, keep: spec_fn(NodeId) -> bool)
    requires
        s.no_duplicates(),
    ensures
        s.filter(keep).no_duplicates(),
    decreases s.len(),
{
    reveal(Seq::filter);
    if s.len() > 0 {
        let head = s.drop_last();
        lemma_filter_distinct(head, keep);
        if keep(s.last()) {
            let kept = head.filter(keep);
            if kept.contains(s.last()) {
                head.lemma_filter_contains_rev(keep, s.last());
                let i = choose|i: int| 0 <= i < head.len() && head[i] == s.last();
                assert(s[i] == s[s.len() - 1]);
            }
            assert forall|i: int, j: int|
                0 <= i < s.filter(keep).len() && 0 <= j < s.filter(keep).len() && i
                    != j implies s.filter(keep)[i] != s.filter(keep)[j] by {
                assert(s.filter(keep) =~= kept.push(s.last()));
                if i == kept.len() {
                    assert(kept[j] == s.filter(keep)[j]);
                } else if j == kept.len() {
                    assert(kept[i] == s.filter(keep)[i]);
                }
            }
        }
    }
}

/// What a read gives back of a write: once a write has gone to all its nodes,
/// every node that still serves the datum has acknowledged it, and there is one
/// exactly if the write succeeds.
pub proof fn law_servers_hold_the_write(
    c: ClusterModel,
    kept: Kept,
    id: DatumId,
    n: u16,
    patch: bool,
    replies: Seq<WriteReply>,
)
    requires
        WriteModel::begun(c, kept, id, n, patch).run(c, replies).0.asks() is None,
    ensures
        ({
            let begun = WriteModel::begun(c, kept, id, n, patch);
            let (w, d) = begun.run(c, replies);
            &&& forall|node: NodeId| #[trigger]
                serving(d, id, n).contains(node) <==> begun.holders(c, replies).contains(node.0)
            &&& w.acked <==> serving(d, id, n).len() > 0
        }),
{
    let begun = WriteModel::begun(c, kept, id, n, patch);
    let (w, d) = begun.run(c, replies);
    let t = serving(c, id, n);
    let h = begun.holders(c, replies);
    lemma_serving_distinct(c, id, n);
    assert forall|i: int| 0 <= i < t.len() implies !c.stale.contains(#[trigger] t[i].0) by {
        law_serving(c, id, n, t[i]);
    }
    lemma_write_progress(begun, c, replies);
    let all = replicas_of(c.storage, id, n as nat);
    let before = |node: NodeId| c.alive.contains(node.0) && !c.stale.contains(node.0);
    let after = |node: NodeId| d.alive.contains(node.0) && !d.stale.contains(node.0);
    assert forall|node: NodeId| #[trigger] serving(d, id, n).contains(node) == h.contains(
        node.0,
    ) by {
        if serving(d, id, n).contains(node) {
            law_serving(d, id, n, node);
            let j = choose|j: int| 0 <= j < all.len() && all[j] == node;
            all.lemma_filter_contains(before, j);
            let i = choose|i: int| 0 <= i < t.len() && t[i] == node;
            assert(t[i].0 == node.0);
        }
        if h.contains(node.0) {
            let i = choose|i: int| 0 <= i < w.next && #[trigger] t[i].0 == node.0;
            assert(t[i] == node);
            assert(t.contains(node));
            law_serving(c, id, n, node);
            let j = choose|j: int| 0 <= j < all.len() && all[j] == node;
            all.lemma_filter_contains(after, j);
        }
    }
    if w.acked {
        let i = choose|i: int| 0 <= i < w.next && h.contains(#[trigger] t[i].0);
        assert(serving(d, id, n).contains(t[i]));
    }
    if serving(d, id, n).len() > 0 {
        assert(serving(d, id, n).contains(serving(d, id, n)[0]));
    }
}

/// The first value wins, whatever the nodes before it answered: of the replies
/// that the nodes would give, one for each, a read takes them in order up to the
/// first that is an answer, and takes those nodes out of service that failed by
/// then. It finds nothing exactly if no node has an answer and one says that there
/// is no such datum, and the datum is lost exactly if all of them fail.
pub proof fn law_read_fails_over(
    c: ClusterModel,
    kept: Kept,
    id: DatumId,
    n: u16,
    replies: Seq<ReadReply>,
)
    requires
        replies.len() == serving(c, id, n).len(),
    ensures
        ({
            let t = serving(c, id, n);
            let (r, d) = ReadModel::begun(c, kept, id, n).run(c, replies);
            &&& r.asks() is None
            &&& r.answered <==> replies.contains(ReadReply::Answered)
            &&& r.answered ==> replies.index_of_first(ReadReply::Answered) == Some(r.next - 1)
            &&& !r.answered ==> r.next == t.len() && (r.absent <==> replies.contains(
                ReadReply::Absent,
            ))
            &&& !r.answered && !r.absent <==> forall|i: int|
                0 <= i < replies.len() ==> #[trigger] replies[i] == ReadReply::Failed
            &&& forall|i: int|
                0 <= i < r.next && #[trigger] replies[i] == ReadReply::Failed ==> d.stale.contains(
                    t[i].0,
                )
            &&& forall|k: u64| #[trigger]
                d.stale.contains(k) ==> c.stale.contains(k) || exists|i: int|
                    0 <= i < r.next && t[i].0 == k && #[trigger] replies[i] == ReadReply::Failed
            &&& d.halt == c.halt
        }),
{
    let (r, d) = ReadModel::begun(c, kept, id, n).run(c, replies);
    lemma_read_progress(ReadModel::begun(c, kept, id, n), c, replies);
    replies.index_of_first_ensures(ReadReply::Answered);
    if r.answered {
        assert(replies[r.next - 1] == ReadReply::Answered);
        let p = replies.index_of_first(ReadReply::Answered).unwrap();
        if p < r.next - 1 {
            assert(replies[p] != ReadReply::Answered);
        }
    } else if replies.contains(ReadReply::Answered) {
        let p = choose|p: int| 0 <= p < replies.len() && replies[p] == ReadReply::Answered;
        assert(replies[p] != ReadReply::Answered);
    }
    if !r.answered {
        if r.absent {
            let p = choose|p: int| 0 <= p < r.next && #[trigger] replies[p] == ReadReply::Absent;
            assert(replies.contains(replies[p]));
        }
        if replies.contains(ReadReply::Absent) {
            let p = choose|p: int| 0 <= p < replies.len() && replies[p] == ReadReply::Absent;
            assert(replies[p] == ReadReply::Absent);
        }
        if !r.absent {
            assert forall|i: int| 0 <= i < replies.len() implies #[trigger] replies[i]
                == ReadReply::Failed by {
                assert(replies[i] != ReadReply::Answered);
            }
        }
    }
}

/// How far a read has come: the replies that it took are those before the first
/// that is an answer, and that one.
proof fn lemma_read_progress(r0: ReadModel, c: ClusterModel, replies: Seq<ReadReply>)
    requires
        r0.next == 0,
        !r0.answered,
        !r0.absent,
        replies.len() <= r0.targets.len(),
    ensures
        ({
            let t = r0.targets;
            let (r, d) = r0.run(c, replies);
            &&& r.targets == t
            &&& 0 <= r.next <= replies.len()
            &&& !r.answered ==> r.next == replies.len()
            &&& r.answered ==> r.next > 0 && replies[r.next - 1] == ReadReply::Answered
            &&& forall|i: int|
                0 <= i < r.next - (if r.answered {
                    1int
                } else {
                    0
                }) ==> #[trigger] replies[i] != ReadReply::Answered
            &&& r.absent <==> exists|i: int|
                0 <= i < r.next && #[trigger] replies[i] == ReadReply::Absent
            &&& forall|i: int|
                0 <= i < r.next && #[trigger] replies[i] == ReadReply::Failed ==> d.stale.contains(
                    t[i].0,
                )
            &&& forall|k: u64| #[trigger]
                d.stale.contains(k) ==> c.stale.contains(k) || exists|i: int|
                    0 <= i < r.next && t[i].0 == k && #[trigger] replies[i] == ReadReply::Failed
            &&& d.halt == c.halt
        }),
    decreases replies.len(),
{
    if replies.len() > 0 {
        let head = replies.drop_last();
        lemma_read_progress(r0, c, head);
        let t = r0.targets;
        let (q, e) = r0.run(c, head);
        let (r, d) = r0.run(c, replies);
        assert forall|i: int| 0 <= i < head.len() implies #[trigger] replies[i] == head[i] by {}
        if q.absent {
            let i = choose|i: int| 0 <= i < q.next && #[trigger] head[i] == ReadReply::Absent;
            assert(replies[i] == ReadReply::Absent);
        }
        if q.asks() is Some {
            assert(replies[q.next] == replies.last());
        }
        if exists|i: int| 0 <= i < r.next && #[trigger] replies[i] == ReadReply::Absent {
            let i = choose|i: int| 0 <= i < r.next && #[trigger] replies[i] == ReadReply::Absent;
            if i < q.next {
                assert(head[i] == ReadReply::Absent);
            }
        }
        assert forall|i: int|
            0 <= i < r.next && #[trigger] replies[i]
                == ReadReply::Failed implies d.stale.contains(t[i].0) by {
            if i < q.next {
                assert(head[i] == ReadReply::Failed);
            }
        }
        assert forall|k: u64| #[trigger] d.stale.contains(k) implies c.stale.contains(k) || exists|
            i: int,
        |
            0 <= i < r.next && t[i].0 == k && #[trigger] replies[i] == ReadReply::Failed by {
            if e.stale.contains(k) {
                if !c.stale.contains(k) {
                    let i = choose|i: int|
                        0 <= i < q.next && t[i].0 == k && #[trigger] head[i] == ReadReply::Failed;
                    assert(replies[i] == ReadReply::Failed);
                }
            } else {
                assert(replies[q.next] == ReadReply::Failed);
            }
        }
    }
}

/// A datum of which no copy can be served is lost at once: a write or a read of
/// it calls nobody.
pub proof fn law_total_loss(c: ClusterModel, kept: Kept, id: DatumId, n: u16, patch: bool)
    requires
        serving(c, id, n).len() == 0,
    ensures
        WriteModel::begun(c, kept, id, n, patch).asks() is None,
        !WriteModel::begun(c, kept, id, n, patch).acked,
        ReadModel::begun(c, kept, id, n).asks() is None,
        !ReadModel::begun(c, kept, id, n).answered && !ReadModel::begun(c, kept, id, n).absent,
        c.after_total_loss(kept, id).halt.refusal() is Some,
{
}

/// Every replica that is alive and not stale serves, and they serve in the order of
/// the replicas: a replica that comes before another is asked before it.
pub proof fn law_live_replicas_serve(c: ClusterModel, id: DatumId, n: u16, i: int, j: int)
    requires
        0 <= i < j < replicas_of(c.storage, id, n as nat).len(),
    ensures
        ({
            let all = replicas_of(c.storage, id, n as nat);
            let serves = |node: NodeId| c.alive.contains(node.0) && !c.stale.contains(node.0);
            &&& serves(all[i]) ==> serving(c, id, n).contains(all[i])
            &&& serves(all[j]) ==> serving(c, id, n).contains(all[j])
            &&& serves(all[i]) && serves(all[j]) ==> exists|a: int, b: int|
                0 <= a < b < serving(c, id, n).len() && #[trigger] serving(c, id, n)[a] == all[i]
                    && #[trigger] serving(c, id, n)[b] == all[j]
        }),
{
    lemma_serving_order(c, replicas_of(c.storage, id, n as nat), i, j);
}

proof fn lemma_serving_order(c: ClusterModel, all: Seq<NodeId>, i: int, j: int)
    requires
        0 <= i < j < all.len(),
    ensures
        ({
            let s = serving_of(c, all);
            let serves = |node: NodeId| c.alive.contains(node.0) && !c.stale.contains(node.0);
            &&& serves(all[i]) ==> s.contains(all[i])
            &&& serves(all[j]) ==> s.contains(all[j])
            &&& serves(all[i]) && serves(all[j]) ==> exists|a: int, b: int|
                0 <= a < b < s.len() && #[trigger] s[a] == all[i] && #[trigger] s[b] == all[j]
        }),
    decreases all.len(),
{
    reveal(Seq::filter);
    let head = all.drop_last();
    let s = serving_of(c, all);
    let h = serving_of(c, head);
    if c.alive.contains(all[i].0) && !c.stale.contains(all[i].0) {
        lemma_serves(c, all, i);
        lemma_serves(c, head, i);
    }
    if c.alive.contains(all[j].0) && !c.stale.contains(all[j].0) {
        lemma_serves(c, all, j);
    }
    if c.alive.contains(all[i].0) && !c.stale.contains(all[i].0) && c.alive.contains(all[j].0)
        && !c.stale.contains(all[j].0) {
        if j == all.len() - 1 {
            assert(s == h.push(all[j]));
            let a = choose|a: int| 0 <= a < h.len() && h[a] == all[i];
            assert(s[a] == all[i]);
            assert(s[h.len() as int] == all[j]);
        } else {
            lemma_serving_order(c, head, i, j);
            let (a, b) = choose|a: int, b: int|
                0 <= a < b < h.len() && #[trigger] h[a] == head[i] && #[trigger] h[b] == head[j];
            assert(s[a] == all[i] && s[b] == all[j]);
        }
    }
}

proof fn lemma_serves(c: ClusterModel, all: Seq<NodeId>, i: int)
    requires
        0 <= i < all.len(),
        c.alive.contains(all[i].0),
        !c.stale.contains(all[i].0),
    ensures
        serving_of(c, all).contains(all[i]),
    decreases all.len(),
{
    reveal(Seq::filter);
    let head = all.drop_last();
    let s = serving_of(c, all);
    let h = serving_of(c, head);
    if i == all.len() - 1 {
        assert(s[h.len() as int] == all[i]);
    } else {
        lemma_serves(c, head, i);
        let a = choose|a: int| 0 <= a < h.len() && h[a] == head[i];
        assert(s[a] == all[i]);
    }
}

/// Where a difference can be sent, each node is first sent that; one that asks for
/// everything is sent everything, and stays in service; the next node is sent the
/// difference again. Where it cannot, each node is sent everything.
pub proof fn law_whole_follows_a_refused_difference(
    w: WriteModel,
    c: ClusterModel,
    node: NodeId,
    reply: WriteReply,
)
    requires
        w.wf(),
        w.asks() == Some((node, WriteForm::Patch)),
    ensures
        w.after(WriteReply::NeedFull).asks() == Some((node, WriteForm::Full)),
        w.touches(c, WriteReply::NeedFull) == c,
        w.after(WriteReply::NeedFull).acked == w.acked,
        reply != WriteReply::NeedFull ==> (w.after(reply).asks() matches Some((next, form)) ==> next
            == w.targets[w.next + 1] && form == WriteForm::Patch),
        w.after(WriteReply::NeedFull).after(reply).asks() matches Some((next, form)) ==> next
            == w.targets[w.next + 1] && form == WriteForm::Patch,
        w.after(WriteReply::NeedFull).after(WriteReply::Acked).acked,
{
}

/// A write begins with the first node that serves the datum, a read too, and the
/// form of the write is what it can be.
pub proof fn law_first_server_is_asked_first(
    c: ClusterModel,
    kept: Kept,
    id: DatumId,
    n: u16,
    patch: bool,
)
    requires
        serving(c, id, n).len() > 0,
    ensures
        WriteModel::begun(c, kept, id, n, patch).asks() == Some(
            (
                serving(c, id, n)[0],
                if patch {
                    WriteForm::Patch
                } else {
                    WriteForm::Full
                },
            ),
        ),
        ReadModel::begun(c, kept, id, n).asks() == Some(serving(c, id, n)[0]),
{
}

/// A node that has failed once is not asked again, for whatever datum, and the
/// others go on serving.
pub proof fn law_failed_node_is_out(
    c: ClusterModel,
    id: DatumId,
    n: u16,
    failed: NodeId,
    other: NodeId,
)
    requires
        other.0 != failed.0,
    ensures
        !serving(c.with_stale(failed), id, n).contains(failed),
        serving(c.with_stale(failed), id, n).contains(other) == serving(c, id, n).contains(other),
        c.with_stale(failed).storage == c.storage,
        c.with_stale(failed).alive == c.alive,
        c.with_stale(failed).halt == c.halt,
{
    let d = c.with_stale(failed);
    law_stale_is_not_served(c, id, n, failed);
    let all = replicas_of(c.storage, id, n as nat);
    if serving(d, id, n).contains(other) {
        law_serving(d, id, n, other);
        let i = choose|i: int| 0 <= i < all.len() && all[i] == other;
        lemma_serves(c, all, i);
    }
    if serving(c, id, n).contains(other) {
        law_serving(c, id, n, other);
        let i = choose|i: int| 0 <= i < all.len() && all[i] == other;
        lemma_serves(d, all, i);
    }
}

/// A write that has gone to all its nodes succeeds exactly where one of them has it,
/// and then the cluster goes on. Where none has it, the cluster halts.
pub proof fn law_write_that_nobody_has_halts(
    c: ClusterModel,
    kept: Kept,
    id: DatumId,
    n: u16,
    patch: bool,
    replies: Seq<WriteReply>,
)
    requires
        WriteModel::begun(c, kept, id, n, patch).run(c, replies).0.asks() is None,
    ensures
        ({
            let begun = WriteModel::begun(c, kept, id, n, patch);
            let (w, d) = begun.run(c, replies);
            let end = w.leaves(d);
            &&& w.result() is Ok <==> exists|node: NodeId| #[trigger]
                begun.holders(c, replies).contains(node.0)
            &&& w.result() is Ok ==> end == d
            &&& w.result() is Err ==> end.halt.halted && end.halt.refusal() is Some
            &&& end.storage == d.storage && end.stale == d.stale && end.alive == d.alive
        }),
{
    law_servers_hold_the_write(c, kept, id, n, patch, replies);
    let begun = WriteModel::begun(c, kept, id, n, patch);
    let (w, d) = begun.run(c, replies);
    let s = serving(d, id, n);
    if w.acked {
        assert(s.contains(s[0]));
        assert(begun.holders(c, replies).contains(s[0].0));
    }
    if exists|node: NodeId| #[trigger] begun.holders(c, replies).contains(node.0) {
        let node = choose|node: NodeId| #[trigger] begun.holders(c, replies).contains(node.0);
        assert(s.contains(node));
        assert(s.len() > 0);
    }
}

/// A read halts the cluster exactly where every node that was to be asked failed: an
/// answer that there is no such datum is an answer.
pub proof fn law_read_that_all_fail_halts(
    c: ClusterModel,
    kept: Kept,
    id: DatumId,
    n: u16,
    replies: Seq<ReadReply>,
)
    requires
        replies.len() == serving(c, id, n).len(),
        !c.halt.halted,
    ensures
        ({
            let (r, d) = ReadModel::begun(c, kept, id, n).run(c, replies);
            r.leaves(d).halt.halted <==> forall|i: int|
                0 <= i < replies.len() ==> #[trigger] replies[i] == ReadReply::Failed
        }),
{
    law_read_fails_over(c, kept, id, n, replies);
}

} // verus!
