//! What a compute node sends to the storage nodes that serve a datum, and how
//! it takes their answers.

use crate::authority::NodeId;
use crate::bytes::copy_of;
use crate::datum::DatumId;
use crate::gossip_state::ClusterState;
use crate::replica_resolver::{
    total_loss_text, Kept, ReadModel, ReadOutcome, ReadReply, ReplicaRead, ReplicaWrite, WriteForm,
    WriteModel, WriteReply,
};
use crate::store_wire::{
    optional_bytes, StoreRequest, StoreRequestModel, StoreResponse, StoreResponseModel,
};
use vstd::prelude::*;

verus! {

/// Whether a difference is sent in place of everything: only if it is less than
/// half as long.
pub fn worth_a_patch(delta_len: usize, content_len: usize) -> (b: bool)
    ensures
        b == (delta_len < content_len / 2),
{
    delta_len < content_len / 2
}

/// The request that writes a datum.
pub open spec fn write_request_model(
    id: DatumId,
    content: Seq<u8>,
    delta: Option<Seq<u8>>,
    n: u16,
    form: WriteForm,
) -> StoreRequestModel {
    match (form, delta) {
        (WriteForm::Patch, Some(delta)) => StoreRequestModel::Patch { id, delta, n },
        _ => StoreRequestModel::Put { id, bytes: content, n },
    }
}

/// The request that writes a datum, in the form asked for.
pub fn write_request(
    id: DatumId,
    content: &Vec<u8>,
    delta: &Option<Vec<u8>>,
    n: u16,
    form: WriteForm,
) -> (request: StoreRequest)
    ensures
        request@ == write_request_model(id, content@, optional_bytes(*delta), n, form),
{
    if form == WriteForm::Patch {
        if let Some(delta) = delta {
            return StoreRequest::Patch { id, delta: copy_of(delta.as_slice()), n };
        }
    }
    StoreRequest::Put { id, bytes: copy_of(content.as_slice()), n }
}

/// An answer, viewed: none where the node could not be reached.
pub open spec fn reply_view(reply: Option<StoreResponse>) -> Option<StoreResponseModel> {
    match reply {
        Some(r) => Some(r@),
        None => None,
    }
}

/// What an answer says of a write.
pub open spec fn as_write_reply(reply: Option<StoreResponseModel>) -> WriteReply {
    match reply {
        Some(StoreResponseModel::Ack) => WriteReply::Acked,
        Some(StoreResponseModel::NeedFull) => WriteReply::NeedFull,
        _ => WriteReply::Failed,
    }
}

/// Takes an answer to a write or a deletion.
pub fn write_reply(reply: &Option<StoreResponse>) -> (r: WriteReply)
    ensures
        r == as_write_reply(reply_view(*reply)),
{
    match reply {
        Some(StoreResponse::Ack) => WriteReply::Acked,
        Some(StoreResponse::NeedFull) => WriteReply::NeedFull,
        _ => WriteReply::Failed,
    }
}

/// What an answer says of a read, and the content that it brings.
pub open spec fn as_read_reply(reply: Option<StoreResponseModel>) -> (ReadReply, Option<Seq<u8>>) {
    match reply {
        Some(StoreResponseModel::Value { bytes: Some(bytes) }) => (
            ReadReply::Answered,
            Some(bytes),
        ),
        Some(StoreResponseModel::Value { bytes: None }) => (ReadReply::Absent, None),
        _ => (ReadReply::Failed, None),
    }
}

/// Takes an answer to a read. One that is no value counts as a failure of the
/// node.
pub fn read_reply(reply: Option<StoreResponse>) -> (r: (ReadReply, Option<Vec<u8>>))
    ensures
        (r.0, optional_bytes(r.1)) == as_read_reply(reply_view(reply)),
{
    match reply {
        Some(StoreResponse::Value { bytes: Some(bytes) }) => (ReadReply::Answered, Some(bytes)),
        Some(StoreResponse::Value { bytes: None }) => (ReadReply::Absent, None),
        _ => (ReadReply::Failed, None),
    }
}

// ---- the store ----

/// The data of a cluster, as a compute node uses them.
pub struct RemoteStore<'a> {
    pub cluster: &'a ClusterState,
}

/// What is done to a datum.
#[derive(Debug)]
pub enum Change {
    /// It is given a content; the difference from what it was, if that is to be
    /// sent.
    Put { content: Vec<u8>, delta: Option<Vec<u8>>, n: u16 },
    Delete,
}

/// A change of a datum on its way to the nodes that serve it.
#[derive(Debug)]
pub struct DatumWrite {
    pub change: Change,
    pub write: ReplicaWrite,
}

/// A read of a datum that goes from one node to the next.
#[derive(Debug)]
pub struct DatumRead {
    pub read: ReplicaRead,
    /// The content, once a node had it.
    pub content: Option<Vec<u8>>,
}

impl<'a> RemoteStore<'a> {
    pub fn new(cluster: &'a ClusterState) -> (store: Self)
        ensures
            store.cluster == cluster,
    {
        RemoteStore { cluster }
    }

    /// Reads a datum.
    pub fn get_replicated(&self, id: DatumId, n: u16) -> (r: DatumRead)
        ensures
            r.wf(),
            r.read@ == ReadModel::begun(self.cluster@, Kept::Datum, id, n),
            r.content is None,
    {
        DatumRead {
            read: ReplicaRead::begin(self.cluster, Kept::Datum, id, n),
            content: None,
        }
    }

    /// Writes everything of a datum.
    pub fn put_replicated(&self, id: DatumId, content: Vec<u8>, n: u16) -> (w: DatumWrite)
        ensures
            w.wf(),
            w.change == (Change::Put { content, delta: None, n }),
            w.write@ == WriteModel::begun(self.cluster@, Kept::Datum, id, n, false),
    {
        self.put_with_delta_replicated(id, content, None, n)
    }

    /// Writes a datum of which the nodes have something. The difference from
    /// that is sent only if it is worth it.
    pub fn put_with_delta_replicated(
        &self,
        id: DatumId,
        content: Vec<u8>,
        delta: Option<Vec<u8>>,
        n: u16,
    ) -> (w: DatumWrite)
        ensures
            w.wf(),
            w.change == (Change::Put { content, delta: kept_delta(delta, content), n }),
            w.write@ == WriteModel::begun(
                self.cluster@,
                Kept::Datum,
                id,
                n,
                kept_delta(delta, content) is Some,
            ),
    {
        let delta = match delta {
            Some(d) => if worth_a_patch(d.len(), content.len()) {
                Some(d)
            } else {
                None
            },
            None => None,
        };
        let patch = delta.is_some();
        DatumWrite {
            change: Change::Put { content, delta, n },
            write: ReplicaWrite::begin(self.cluster, Kept::Datum, id, n, patch),
        }
    }

    /// Deletes a datum.
    pub fn delete_replicated(&self, id: DatumId, n: u16) -> (w: DatumWrite)
        ensures
            w.wf(),
            w.change is Delete,
            w.write@ == WriteModel::begun(self.cluster@, Kept::Datum, id, n, false),
    {
        DatumWrite {
            change: Change::Delete,
            write: ReplicaWrite::begin(self.cluster, Kept::Datum, id, n, false),
        }
    }
}

/// The difference that is sent, if one is.
pub open spec fn kept_delta(delta: Option<Vec<u8>>, content: Vec<u8>) -> Option<Vec<u8>> {
    match delta {
        Some(d) if d@.len() < content@.len() / 2 => Some(d),
        _ => None,
    }
}

impl DatumWrite {
    pub open spec fn wf(self) -> bool {
        &&& self.write@.wf()
        &&& self.write@.patch <==> (self.change matches Change::Put { delta, .. } && delta is Some)
    }

    /// The request that a node is sent.
    pub open spec fn request(self, form: WriteForm) -> StoreRequestModel {
        match self.change {
            Change::Put { content, delta, n } => write_request_model(
                self.write@.id,
                content@,
                optional_bytes(delta),
                n,
                form,
            ),
            Change::Delete => StoreRequestModel::Delete { id: self.write@.id },
        }
    }

    /// What is to be sent next, and to whom; nothing, once every node is done
    /// with.
    pub fn ask(&self) -> (ask: Option<(NodeId, StoreRequest)>)
        requires
            self.wf(),
        ensures
            (match ask {
                Some((node, request)) => self.write@.asks() matches Some((to, form)) && to == node
                    && request@ == self.request(form),
                None => self.write@.asks() is None,
            }),
    {
        match self.write.ask() {
            None => None,
            Some((node, form)) => {
                let id = self.write.id;
                let request = match &self.change {
                    Change::Put { content, delta, n } => write_request(
                        id,
                        content,
                        delta,
                        *n,
                        form,
                    ),
                    Change::Delete => StoreRequest::Delete { id },
                };
                Some((node, request))
            },
        }
    }

    /// Takes what came back: nothing, where the node could not be reached. A node
    /// that does not have the change afterwards is taken out of service.
    pub fn answer(&mut self, cluster: &mut ClusterState, reply: &Option<StoreResponse>)
        requires
            old(self).wf(),
        ensures
            final(self).wf(),
            final(self).change == old(self).change,
            final(self).write@ == old(self).write@.after(as_write_reply(reply_view(*reply))),
            final(cluster)@ == old(self).write@.touches(
                old(cluster)@,
                as_write_reply(reply_view(*reply)),
            ),
    {
        self.write.answer(cluster, write_reply(reply));
    }

    /// Ends a change: an error where no node has it, which halts the cluster.
    pub fn finish(self, cluster: &mut ClusterState) -> (r: Result<(), String>)
        ensures
            r is Ok == self.write@.acked,
            r matches Err(e) ==> e@ == total_loss_text(self.write@.kept, self.write@.id),
            final(cluster)@ == if self.write@.acked {
                old(cluster)@
            } else {
                old(cluster)@.after_total_loss(self.write@.kept, self.write@.id)
            },
    {
        self.write.finish(cluster)
    }
}

impl DatumRead {
    pub open spec fn wf(self) -> bool {
        self.read@.wf() && (self.read@.answered <==> self.content is Some)
    }

    /// What is to be sent next, and to whom; nothing, once there is a content or
    /// every node is done with.
    pub fn ask(&self) -> (ask: Option<(NodeId, StoreRequest)>)
        requires
            self.wf(),
        ensures
            (match ask {
                Some((node, request)) => self.read@.asks() == Some(node) && request@ == (
                StoreRequestModel::Get { id: self.read@.id }),
                None => self.read@.asks() is None,
            }),
    {
        match self.read.ask() {
            None => None,
            Some(node) => Some((node, StoreRequest::Get { id: self.read.id })),
        }
    }

    /// Takes what came back: nothing, where the node could not be reached. A node
    /// that says neither that it has the datum nor that it has not is taken out
    /// of service.
    pub fn answer(&mut self, cluster: &mut ClusterState, reply: Option<StoreResponse>)
        requires
            old(self).wf(),
        ensures
            final(self).wf(),
            final(self).read@ == old(self).read@.after(as_read_reply(reply_view(reply)).0),
            optional_bytes(final(self).content) == if old(self).read@.asks() is Some {
                as_read_reply(reply_view(reply)).1
            } else {
                optional_bytes(old(self).content)
            },
            final(cluster)@ == old(self).read@.touches(
                old(cluster)@,
                as_read_reply(reply_view(reply)).0,
            ),
    {
        if self.read.ask().is_none() {
            return;
        }
        let (taken, content) = read_reply(reply);
        self.read.answer(cluster, taken);
        self.content = content;
    }

    /// Ends a read with the content, or with nothing where every node that could
    /// be asked says that there is none; an error where none could be asked,
    /// which halts the cluster.
    pub fn finish(self, cluster: &mut ClusterState) -> (r: Result<Option<Vec<u8>>, String>)
        requires
            self.wf(),
        ensures
            (match r {
                Ok(content) => (self.read@.answered || self.read@.absent) && content
                    == self.content && final(cluster)@ == old(cluster)@,
                Err(e) => !self.read@.answered && !self.read@.absent && e@ == total_loss_text(
                    self.read@.kept,
                    self.read@.id,
                ) && final(cluster)@ == old(cluster)@.after_total_loss(
                    self.read@.kept,
                    self.read@.id,
                ),
            }),
    {
        match self.read.finish(cluster) {
            ReadOutcome::Answered => Ok(self.content),
            ReadOutcome::Absent => Ok(None),
            ReadOutcome::Lost(reason) => Err(reason),
        }
    }
}

} // verus!
