//! Collections on storage nodes, as a compute node uses them: every replica is
//! changed, and the first that answers is read.

use crate::authority::NodeId;
use crate::collection_store::{CollectionReply, CollectionRequest};
use crate::datum::DatumId;
use crate::gossip_state::{ClusterModel, ClusterState};
use crate::replica_resolver::{
    total_loss_text, Kept, ReadModel, ReadOutcome, ReadReply, ReplicaRead, ReplicaWrite, WriteModel,
    WriteReply,
};
use vstd::prelude::*;

verus! {

/// The collections of a cluster.
pub struct RemoteCollectionStore<'a> {
    pub cluster: &'a ClusterState,
}

/// A change of a collection on its way to the nodes that serve it.
#[derive(Debug)]
pub struct CollectionWrite {
    /// What every node is sent.
    pub request: CollectionRequest,
    pub write: ReplicaWrite,
}

/// A look at a collection that goes from one node to the next.
#[derive(Debug)]
pub struct CollectionRead {
    /// What a node is asked.
    pub request: CollectionRequest,
    pub read: ReplicaRead,
    /// What the first node answered that did.
    pub reply: Option<CollectionReply>,
}

/// Whether a change has just begun.
pub open spec fn write_begun(w: CollectionWrite, c: ClusterModel, id: DatumId, n: u16) -> bool {
    w.wf() && w.write@ == WriteModel::begun(c, Kept::Collection, id, n, false)
}

/// Whether a look has just begun.
pub open spec fn read_begun(r: CollectionRead, c: ClusterModel, id: DatumId, n: u16) -> bool {
    r.wf() && r.read@ == ReadModel::begun(c, Kept::Collection, id, n) && r.reply is None
}

impl<'a> RemoteCollectionStore<'a> {
    pub fn new(cluster: &'a ClusterState) -> (store: Self)
        ensures
            store.cluster == cluster,
    {
        RemoteCollectionStore { cluster }
    }

    fn write_all(&self, id: DatumId, n: u16, request: CollectionRequest) -> (w: CollectionWrite)
        ensures
            write_begun(w, self.cluster@, id, n),
            w.request == request,
    {
        CollectionWrite {
            request,
            write: ReplicaWrite::begin(self.cluster, Kept::Collection, id, n, false),
        }
    }

    fn read_one(&self, id: DatumId, n: u16, request: CollectionRequest) -> (r: CollectionRead)
        ensures
            read_begun(r, self.cluster@, id, n),
            r.request == request,
    {
        CollectionRead {
            request,
            read: ReplicaRead::begin(self.cluster, Kept::Collection, id, n),
            reply: None,
        }
    }

    /// Makes a collection, unless it is there.
    pub fn create(&self, collection_id: DatumId, key_size: u32, value_size: u32, n: u16) -> (w:
        CollectionWrite)
        ensures
            write_begun(w, self.cluster@, collection_id, n),
            w.request == (CollectionRequest::Create { collection_id, key_size, value_size }),
    {
        self.write_all(
            collection_id,
            n,
            CollectionRequest::Create { collection_id, key_size, value_size },
        )
    }

    pub fn insert(&self, collection_id: DatumId, key: Vec<u8>, value: Vec<u8>, n: u16) -> (w:
        CollectionWrite)
        ensures
            write_begun(w, self.cluster@, collection_id, n),
            w.request == (CollectionRequest::Insert { collection_id, key, value }),
    {
        self.write_all(collection_id, n, CollectionRequest::Insert { collection_id, key, value })
    }

    pub fn remove(&self, collection_id: DatumId, key: Vec<u8>, n: u16) -> (w: CollectionWrite)
        ensures
            write_begun(w, self.cluster@, collection_id, n),
            w.request == (CollectionRequest::Remove { collection_id, key }),
    {
        self.write_all(collection_id, n, CollectionRequest::Remove { collection_id, key })
    }

    pub fn get(&self, collection_id: DatumId, key: Vec<u8>, n: u16) -> (r: CollectionRead)
        ensures
            read_begun(r, self.cluster@, collection_id, n),
            r.request == (CollectionRequest::Get { collection_id, key }),
    {
        self.read_one(collection_id, n, CollectionRequest::Get { collection_id, key })
    }

    /// The best, best first.
    pub fn scan_forward(&self, collection_id: DatumId, limit: u32, n: u16) -> (r: CollectionRead)
        ensures
            read_begun(r, self.cluster@, collection_id, n),
            r.request == (CollectionRequest::ScanForward { collection_id, limit }),
    {
        self.read_one(collection_id, n, CollectionRequest::ScanForward { collection_id, limit })
    }

    /// The worst, worst first.
    pub fn scan_backward(&self, collection_id: DatumId, limit: u32, n: u16) -> (r: CollectionRead)
        ensures
            read_begun(r, self.cluster@, collection_id, n),
            r.request == (CollectionRequest::ScanBackward { collection_id, limit }),
    {
        self.read_one(collection_id, n, CollectionRequest::ScanBackward { collection_id, limit })
    }

    pub fn sample(&self, collection_id: DatumId, k: u32, n: u16) -> (r: CollectionRead)
        ensures
            read_begun(r, self.cluster@, collection_id, n),
            r.request == (CollectionRequest::Sample { collection_id, k }),
    {
        self.read_one(collection_id, n, CollectionRequest::Sample { collection_id, k })
    }

    /// The rank of a key, worst first.
    pub fn rank_of_key(&self, collection_id: DatumId, key: Vec<u8>, n: u16) -> (r: CollectionRead)
        ensures
            read_begun(r, self.cluster@, collection_id, n),
            r.request == (CollectionRequest::RankOfKey { collection_id, key }),
    {
        self.read_one(collection_id, n, CollectionRequest::RankOfKey { collection_id, key })
    }

    pub fn scan_from_rank(&self, collection_id: DatumId, rank: u64, limit: u32, n: u16) -> (r:
        CollectionRead)
        ensures
            read_begun(r, self.cluster@, collection_id, n),
            r.request == (CollectionRequest::ScanFromRank { collection_id, rank, limit }),
    {
        self.read_one(
            collection_id,
            n,
            CollectionRequest::ScanFromRank { collection_id, rank, limit },
        )
    }

    pub fn count(&self, collection_id: DatumId, n: u16) -> (r: CollectionRead)
        ensures
            read_begun(r, self.cluster@, collection_id, n),
            r.request == (CollectionRequest::Count { collection_id }),
    {
        self.read_one(collection_id, n, CollectionRequest::Count { collection_id })
    }
}

// ---- changes ----

/// What an answer says of a change: none where the node could not be reached.
pub open spec fn as_change_reply(reply: Option<CollectionReply>) -> WriteReply {
    match reply {
        Some(CollectionReply::Ack) => WriteReply::Acked,
        _ => WriteReply::Failed,
    }
}

impl CollectionWrite {
    pub open spec fn wf(self) -> bool {
        self.write@.wf() && !self.write@.patch
    }

    /// The node that is sent the request next; none, once every node is done
    /// with.
    pub open spec fn asks(self) -> Option<NodeId> {
        match self.write@.asks() {
            Some((node, _)) => Some(node),
            None => None,
        }
    }

    pub fn ask(&self) -> (ask: Option<NodeId>)
        requires
            self.wf(),
        ensures
            ask == self.asks(),
    {
        match self.write.ask() {
            Some((node, _)) => Some(node),
            None => None,
        }
    }

    /// Takes what came back. A node that does not acknowledge the change is
    /// taken out of service.
    pub fn answer(&mut self, cluster: &mut ClusterState, reply: &Option<CollectionReply>)
        requires
            old(self).wf(),
        ensures
            final(self).wf(),
            final(self).request == old(self).request,
            final(self).write@ == old(self).write@.after(as_change_reply(*reply)),
            final(cluster)@ == old(self).write@.touches(old(cluster)@, as_change_reply(*reply)),
    {
        let taken = match reply {
            Some(CollectionReply::Ack) => WriteReply::Acked,
            _ => WriteReply::Failed,
        };
        self.write.answer(cluster, taken);
    }

    /// Ends a change: an error where no node has it, which halts the cluster.
    pub fn finish(self, cluster: &mut ClusterState) -> (r: Result<(), String>)
        ensures
            r is Ok == self.write@.acked,
            r matches Err(e) ==> e@ == total_loss_text(self.write@.kept, self.write@.id),
            final(cluster)@ == if self.write@.acked {
                old(cluster)@
            } else {
                old(cluster)@.after_total_loss(self.write@.kept, self.write@.id)
            },
    {
        self.write.finish(cluster)
    }
}

// ---- looks ----

/// What an answer says of a look: whatever a node answers is an answer.
pub open spec fn as_look_reply(reply: Option<CollectionReply>) -> ReadReply {
    match reply {
        Some(_) => ReadReply::Answered,
        None => ReadReply::Failed,
    }
}

impl CollectionRead {
    pub open spec fn wf(self) -> bool {
        &&& self.read@.wf()
        &&& !self.read@.absent
        &&& self.read@.answered <==> self.reply is Some
    }

    /// The node that is asked next; none, once there is an answer or every node
    /// is done with.
    pub fn ask(&self) -> (ask: Option<NodeId>)
        requires
            self.wf(),
        ensures
            ask == self.read@.asks(),
    {
        self.read.ask()
    }

    /// Takes what came back. A node that could not be reached is taken out of
    /// service.
    pub fn answer(&mut self, cluster: &mut ClusterState, reply: Option<CollectionReply>)
        requires
            old(self).wf(),
        ensures
            final(self).wf(),
            final(self).request == old(self).request,
            final(self).read@ == old(self).read@.after(as_look_reply(reply)),
            final(self).reply == if old(self).read@.asks() is Some {
                reply
            } else {
                old(self).reply
            },
            final(cluster)@ == old(self).read@.touches(old(cluster)@, as_look_reply(reply)),
    {
        if self.read.ask().is_none() {
            return;
        }
        let taken = if reply.is_some() {
            ReadReply::Answered
        } else {
            ReadReply::Failed
        };
        self.read.answer(cluster, taken);
        self.reply = reply;
    }

    /// Ends a look with what was answered: an error where no node did, which
    /// halts the cluster.
    pub fn finish(self, cluster: &mut ClusterState) -> (r: Result<CollectionReply, String>)
        requires
            self.wf(),
        ensures
            (match r {
                Ok(reply) => self.reply == Some(reply) && final(cluster)@ == old(cluster)@,
                Err(e) => self.reply is None && e@ == total_loss_text(
                    self.read@.kept,
                    self.read@.id,
                ) && final(cluster)@ == old(cluster)@.after_total_loss(
                    self.read@.kept,
                    self.read@.id,
                ),
            }),
    {
        match self.reply {
            Some(reply) => Ok(reply),
            None => match self.read.finish(cluster) {
                ReadOutcome::Lost(reason) => Err(reason),
                _ => {
                    proof {
                        assert(false);
                    }
                    Err(String::new())
                },
            },
        }
    }
}

impl CollectionReply {
    /// The value in an answer to a request for one. Any other answer is handed
    /// back.
    pub fn into_entry(self) -> (r: Result<Option<Vec<u8>>, CollectionReply>)
        ensures
            (match r {
                Ok(value) => self == (CollectionReply::Entry { value }),
                Err(other) => other == self && !(self is Entry),
            }),
    {
        match self {
            CollectionReply::Entry { value } => Ok(value),
            other => Err(other),
        }
    }

    /// The entries in an answer to a scan or a request for a sample. Any other
    /// answer is handed back.
    pub fn into_entries(self) -> (r: Result<Vec<(Vec<u8>, Vec<u8>)>, CollectionReply>)
        ensures
            (match r {
                Ok(entries) => self == (CollectionReply::Entries { entries }),
                Err(other) => other == self && !(self is Entries),
            }),
    {
        match self {
            CollectionReply::Entries { entries } => Ok(entries),
            other => Err(other),
        }
    }

    /// The rank in an answer to a request for one. Any other answer is handed
    /// back.
    pub fn into_rank(self) -> (r: Result<Option<u64>, CollectionReply>)
        ensures
            (match r {
                Ok(rank) => self == (CollectionReply::Rank { rank }),
                Err(other) => other == self && !(self is Rank),
            }),
    {
        match self {
            CollectionReply::Rank { rank } => Ok(rank),
            other => Err(other),
        }
    }

    /// The number of entries in an answer to a request for it. Any other answer
    /// is handed back.
    pub fn into_count(self) -> (r: Result<u64, CollectionReply>)
        ensures
            (match r {
                Ok(total) => self == (CollectionReply::Count { total }),
                Err(other) => other == self && !(self is Count),
            }),
    {
        match self {
            CollectionReply::Count { total } => Ok(total),
            other => Err(other),
        }
    }
}

} // verus!
