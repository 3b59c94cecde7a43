//! What a storage node does with a request.
//!
//! A node keeps its data in a log. A request turns into a call of the log, or
//! is answered at once; what the log says turns into the answer. A node that has
//! not heard from the cluster for too long answers nothing but that.

use crate::authority::NodeId;
use crate::datum::DatumId;
use crate::store_wire::{
    optional_bytes, StoreRequest, StoreRequestModel, StoreResponse, StoreResponseModel,
};
use crate::text::{copy_text, decimal, id_text, push_decimal, push_id};
use crate::transfer::{
    after_copies, after_last_copy, after_write, lists_ranks, ranks_of, TransferManager,
    TransferModel,
};
use vstd::prelude::*;
use vstd::string::*;

verus! {

broadcast use {vstd::std_specs::btree::group_btree_axioms, vstd::laws_cmp::group_laws_cmp};

/// A call of the log.
#[derive(Debug, PartialEq, Eq)]
pub enum LogCall {
    PutFull { id: DatumId, bytes: Vec<u8>, n: u16 },
    PutDelta { id: DatumId, delta: Vec<u8>, n: u16 },
    Get { id: DatumId },
    Delete { id: DatumId },
    /// Up to `limit` ids behind `after`, with their replication factors.
    ListIds { after: Option<DatumId>, limit: u32 },
    /// The log's own id.
    LogId,
}

/// The mathematical content of a [`LogCall`].
pub enum LogCallModel {
    PutFull { id: DatumId, bytes: Seq<u8>, n: u16 },
    PutDelta { id: DatumId, delta: Seq<u8>, n: u16 },
    Get { id: DatumId },
    Delete { id: DatumId },
    ListIds { after: Option<DatumId>, limit: u32 },
    LogId,
}

impl View for LogCall {
    type V = LogCallModel;

    open spec fn view(&self) -> LogCallModel {
        match self {
            LogCall::PutFull { id, bytes, n } => LogCallModel::PutFull {
                id: *id,
                bytes: bytes@,
                n: *n,
            },
            LogCall::PutDelta { id, delta, n } => LogCallModel::PutDelta {
                id: *id,
                delta: delta@,
                n: *n,
            },
            LogCall::Get { id } => LogCallModel::Get { id: *id },
            LogCall::Delete { id } => LogCallModel::Delete { id: *id },
            LogCall::ListIds { after, limit } => LogCallModel::ListIds {
                after: *after,
                limit: *limit,
            },
            LogCall::LogId => LogCallModel::LogId,
        }
    }
}

/// What the log says.
#[derive(Debug, PartialEq, Eq)]
pub enum LogReply {
    Done,
    /// There is nothing that a difference could be applied to.
    NeedFull,
    Content(Option<Vec<u8>>),
    Ids(Vec<(DatumId, u16)>),
    LogId(DatumId),
    /// The disk failed.
    Failed,
}

/// The mathematical content of a [`LogReply`].
pub enum LogReplyModel {
    Done,
    NeedFull,
    Content(Option<Seq<u8>>),
    Ids(Seq<(DatumId, u16)>),
    LogId(DatumId),
    Failed,
}

impl View for LogReply {
    type V = LogReplyModel;

    open spec fn view(&self) -> LogReplyModel {
        match self {
            LogReply::Done => LogReplyModel::Done,
            LogReply::NeedFull => LogReplyModel::NeedFull,
            LogReply::Content(c) => LogReplyModel::Content(optional_bytes(*c)),
            LogReply::Ids(ids) => LogReplyModel::Ids(ids@),
            LogReply::LogId(id) => LogReplyModel::LogId(*id),
            LogReply::Failed => LogReplyModel::Failed,
        }
    }
}

/// What is to be done with a request.
#[derive(Debug, PartialEq, Eq)]
pub enum StorePlan {
    Answer(StoreResponse),
    /// Call the log, and answer with what it says.
    Log(LogCall),
    /// Acknowledge, and copy a transfer's data meanwhile.
    Copy { transfer_id: DatumId },
    /// Send data as they are now to an address, then acknowledge.
    Tail { dest: String, ids: Vec<DatumId> },
    /// Delete data, then acknowledge.
    Retire { ids: Vec<DatumId> },
}

/// Why a node does not serve.
pub open spec fn self_halted_text(node_id: NodeId, threshold_ms: u128) -> Seq<char> {
    "storage node NodeId("@ + decimal(node_id.0 as nat)
        + ") self-halted: no gossip contact within "@ + decimal(threshold_ms as nat) + "ms"@
}

/// Why nothing can be said of a transfer.
pub open spec fn unknown_transfer_text(transfer_id: DatumId) -> Seq<char> {
    "unknown transfer DatumId("@ + id_text(transfer_id) + ")"@
}

/// The call of the log that a request stands for.
pub open spec fn log_call(request: StoreRequestModel) -> Option<LogCallModel> {
    match request {
        StoreRequestModel::Put { id, bytes, n } => Some(LogCallModel::PutFull { id, bytes, n }),
        StoreRequestModel::Patch { id, delta, n } => Some(LogCallModel::PutDelta { id, delta, n }),
        StoreRequestModel::Get { id } => Some(LogCallModel::Get { id }),
        StoreRequestModel::Delete { id } => Some(LogCallModel::Delete { id }),
        StoreRequestModel::Identify => Some(LogCallModel::LogId),
        StoreRequestModel::ListIds { after, limit } => Some(LogCallModel::ListIds { after, limit }),
        _ => None,
    }
}

/// What is said of a transfer.
pub open spec fn progress(m: Map<u128, TransferModel>, transfer_id: DatumId) -> StoreResponseModel {
    if m.contains_key(transfer_id.rank()) {
        let (copied, dirty, done) = m[transfer_id.rank()].status();
        StoreResponseModel::TransferProgress { copied, dirty: dirty as u64, done }
    } else {
        StoreResponseModel::Error { message: unknown_transfer_text(transfer_id) }
    }
}

/// The transfers after a request was taken in.
pub open spec fn taken_in(m: Map<u128, TransferModel>, request: StoreRequestModel) -> Map<
    u128,
    TransferModel,
> {
    match request {
        StoreRequestModel::Transfer { transfer_id, ids, dest_address } => m.insert(
            transfer_id.rank(),
            TransferModel::begun(ids, dest_address),
        ),
        StoreRequestModel::FinishTransfer { transfer_id } => if m.contains_key(
            transfer_id.rank(),
        ) {
            m.insert(
                transfer_id.rank(),
                TransferModel { dirty: Set::empty(), ..m[transfer_id.rank()] },
            )
        } else {
            m
        },
        StoreRequestModel::Retire { transfer_id } => m.remove(transfer_id.rank()),
        _ => m,
    }
}

/// Whether a plan is the right one for a request.
pub open spec fn plans(
    m: Map<u128, TransferModel>,
    request: StoreRequestModel,
    plan: StorePlan,
) -> bool {
    match log_call(request) {
        Some(call) => plan matches StorePlan::Log(c) && c@ == call,
        None => match request {
            StoreRequestModel::Transfer { transfer_id, .. } => plan == (StorePlan::Copy {
                transfer_id,
            }),
            StoreRequestModel::TransferStatus { transfer_id } => plan matches StorePlan::Answer(r)
                && r@ == progress(m, transfer_id),
            StoreRequestModel::FinishTransfer { transfer_id } => if m.contains_key(
                transfer_id.rank(),
            ) {
                plan matches StorePlan::Tail { dest, ids } && dest@ == m[transfer_id.rank()].dest
                    && lists_ranks(ids@, m[transfer_id.rank()].dirty)
            } else {
                plan matches StorePlan::Answer(r) && r@ == (StoreResponseModel::Error {
                    message: unknown_transfer_text(transfer_id),
                })
            },
            StoreRequestModel::Retire { transfer_id } => plan matches StorePlan::Retire { ids }
                && lists_ranks(
                ids@,
                if m.contains_key(transfer_id.rank()) {
                    m[transfer_id.rank()].ids
                } else {
                    Set::empty()
                },
            ),
            _ => false,
        },
    }
}

fn unknown_transfer(transfer_id: DatumId) -> (r: StoreResponse)
    ensures
        r@ == (StoreResponseModel::Error { message: unknown_transfer_text(transfer_id) }),
{
    let mut text = copy_text("unknown transfer DatumId(");
    push_id(&mut text, transfer_id);
    text.append(")");
    StoreResponse::Error { message: text }
}

/// A storage node, without its log.
pub struct StoreState {
    pub node_id: NodeId,
    /// How long the node serves without contact, in milliseconds.
    pub self_halt_threshold_ms: u128,
    pub transfers: TransferManager,
}

impl StoreState {
    /// Says what is to be done with a request. `stale` tells that there was no
    /// contact for too long.
    pub fn plan(&mut self, stale: bool, request: StoreRequest) -> (plan: StorePlan)
        ensures
            final(self).node_id == old(self).node_id,
            final(self).self_halt_threshold_ms == old(self).self_halt_threshold_ms,
            stale ==> final(self).transfers@ == old(self).transfers@ && (plan matches
                StorePlan::Answer(r) && r@ == (StoreResponseModel::Error {
                message: self_halted_text(old(self).node_id, old(self).self_halt_threshold_ms),
            })),
            !stale ==> plans(old(self).transfers@, request@, plan) && final(self).transfers@
                == taken_in(old(self).transfers@, request@),
    {
        if stale {
            let mut text = copy_text("storage node NodeId(");
            push_decimal(&mut text, self.node_id.0 as u128);
            text.append(") self-halted: no gossip contact within ");
            push_decimal(&mut text, self.self_halt_threshold_ms);
            text.append("ms");
            return StorePlan::Answer(StoreResponse::Error { message: text });
        }
        match request {
            StoreRequest::Put { id, bytes, n } => StorePlan::Log(LogCall::PutFull { id, bytes, n }),
            StoreRequest::Patch { id, delta, n } => StorePlan::Log(
                LogCall::PutDelta { id, delta, n },
            ),
            StoreRequest::Get { id } => StorePlan::Log(LogCall::Get { id }),
            StoreRequest::Delete { id } => StorePlan::Log(LogCall::Delete { id }),
            StoreRequest::Identify => StorePlan::Log(LogCall::LogId),
            StoreRequest::ListIds { after, limit } => StorePlan::Log(
                LogCall::ListIds { after, limit },
            ),
            StoreRequest::Transfer { transfer_id, ids, dest_address } => {
                self.transfers.start(transfer_id, ids, dest_address);
                StorePlan::Copy { transfer_id }
            },
            StoreRequest::TransferStatus { transfer_id } => {
                match self.transfers.status(transfer_id) {
                    Some((copied, dirty, done)) => StorePlan::Answer(
                        StoreResponse::TransferProgress { copied, dirty, done },
                    ),
                    None => StorePlan::Answer(unknown_transfer(transfer_id)),
                }
            },
            StoreRequest::FinishTransfer { transfer_id } => {
                match self.transfers.dest(transfer_id) {
                    Some(dest) => {
                        let ids = self.transfers.take_dirty(transfer_id);
                        StorePlan::Tail { dest, ids }
                    },
                    None => StorePlan::Answer(unknown_transfer(transfer_id)),
                }
            },
            StoreRequest::Retire { transfer_id } => {
                let ids = self.transfers.retire(transfer_id);
                assert(ids@.len() == 0 ==> ranks_of(ids@) =~= Set::empty());
                StorePlan::Retire { ids }
            },
        }
    }

    /// Answers with what the log said; nothing, where the disk failed and the
    /// connection is to be closed. `call` is what the log was called with, as
    /// far as the answer depends on it. A datum that was written is noted in the
    /// transfers that move it.
    pub fn answer(&mut self, call: &LogCall, reply: LogReply) -> (answer: Option<StoreResponse>)
        ensures
            (match answer {
                Some(r) => Some(r@),
                None => None,
            }) == answered(old(self).node_id, call@, reply@),
            final(self).node_id == old(self).node_id,
            final(self).self_halt_threshold_ms == old(self).self_halt_threshold_ms,
            final(self).transfers@ == noted(old(self).transfers@, call@, reply@),
    {
        match (call, reply) {
            (LogCall::PutFull { id, .. }, LogReply::Done) => {
                self.transfers.note_write(*id);
                Some(StoreResponse::Ack)
            },
            (LogCall::PutDelta { id, .. }, LogReply::Done) => {
                self.transfers.note_write(*id);
                Some(StoreResponse::Ack)
            },
            (LogCall::PutDelta { .. }, LogReply::NeedFull) => Some(StoreResponse::NeedFull),
            (LogCall::Get { .. }, LogReply::Content(bytes)) => Some(StoreResponse::Value { bytes }),
            (LogCall::Delete { id }, LogReply::Done) => {
                self.transfers.note_write(*id);
                Some(StoreResponse::Ack)
            },
            (LogCall::ListIds { limit, .. }, LogReply::Ids(ids)) => {
                let done = ids.len() < *limit as usize;
                Some(StoreResponse::IdList { ids, done })
            },
            (LogCall::LogId, LogReply::LogId(log_id)) => Some(
                StoreResponse::Identity { node_id: self.node_id, log_id },
            ),
            _ => None,
        }
    }
}

/// The answer to a request that called the log. A page of ids is the last where
/// it is not full.
pub open spec fn answered(node_id: NodeId, call: LogCallModel, reply: LogReplyModel) -> Option<
    StoreResponseModel,
> {
    match (call, reply) {
        (LogCallModel::PutFull { .. }, LogReplyModel::Done) => Some(StoreResponseModel::Ack),
        (LogCallModel::PutDelta { .. }, LogReplyModel::Done) => Some(StoreResponseModel::Ack),
        (LogCallModel::PutDelta { .. }, LogReplyModel::NeedFull) => Some(
            StoreResponseModel::NeedFull,
        ),
        (LogCallModel::Get { .. }, LogReplyModel::Content(bytes)) => Some(
            StoreResponseModel::Value { bytes },
        ),
        (LogCallModel::Delete { .. }, LogReplyModel::Done) => Some(StoreResponseModel::Ack),
        (LogCallModel::ListIds { limit, .. }, LogReplyModel::Ids(ids)) => Some(
            StoreResponseModel::IdList { ids, done: ids.len() < limit },
        ),
        (LogCallModel::LogId, LogReplyModel::LogId(log_id)) => Some(
            StoreResponseModel::Identity { node_id, log_id },
        ),
        _ => None,
    }
}

/// The datum that a call of the log has written.
pub open spec fn written(call: LogCallModel, reply: LogReplyModel) -> Option<DatumId> {
    match (call, reply) {
        (LogCallModel::PutFull { id, .. }, LogReplyModel::Done) => Some(id),
        (LogCallModel::PutDelta { id, .. }, LogReplyModel::Done) => Some(id),
        (LogCallModel::Delete { id }, LogReplyModel::Done) => Some(id),
        _ => None,
    }
}

/// The transfers after the log has answered a call.
pub open spec fn noted(
    m: Map<u128, TransferModel>,
    call: LogCallModel,
    reply: LogReplyModel,
) -> Map<u128, TransferModel> {
    match written(call, reply) {
        Some(id) => after_write(m, id),
        None => m,
    }
}

// ---- transfers ----

/// A datum with its replication factor, which is one where none is stored.
pub fn stored_value(bytes: Option<Vec<u8>>, n: Option<u16>) -> (value: Option<(Vec<u8>, u16)>)
    ensures
        (match value {
            Some((b, m)) => bytes == Some(b) && m == (match n {
                Some(n) => n,
                None => 1u16,
            }),
            None => bytes is None,
        }),
{
    match bytes {
        None => None,
        Some(b) => Some(
            (
                b,
                match n {
                    Some(n) => n,
                    None => 1,
                },
            ),
        ),
    }
}

/// What is sent to copy a datum.
pub open spec fn copied(id: DatumId, value: Option<(Seq<u8>, u16)>) -> Option<StoreRequestModel> {
    match value {
        Some((bytes, n)) => Some(StoreRequestModel::Put { id, bytes, n }),
        None => None,
    }
}

/// What is sent to copy a datum: nothing, where there is none.
pub fn copy_request(id: DatumId, value: Option<(Vec<u8>, u16)>) -> (request: Option<StoreRequest>)
    ensures
        (match request {
            Some(r) => Some(r@),
            None => None,
        }) == (match value {
            Some((bytes, n)) => Some(StoreRequestModel::Put { id, bytes: bytes@, n }),
            None => None,
        }),
        (match request {
            Some(r) => Some(r@),
            None => None,
        }) == copied(
            id,
            match value {
                Some((bytes, n)) => Some((bytes@, n)),
                None => None,
            },
        ),
{
    match value {
        Some((bytes, n)) => Some(StoreRequest::Put { id, bytes, n }),
        None => None,
    }
}

/// What is sent at the end for a datum that was written during the copy.
pub open spec fn tail(id: DatumId, value: Option<(Seq<u8>, u16)>) -> StoreRequestModel {
    match value {
        Some((bytes, n)) => StoreRequestModel::Put { id, bytes, n },
        None => StoreRequestModel::Delete { id },
    }
}

/// What is sent at the end for a datum that was written during the copy: its
/// content, or that it is gone.
pub fn tail_request(id: DatumId, value: Option<(Vec<u8>, u16)>) -> (request: StoreRequest)
    ensures
        request@ == tail(
            id,
            match value {
                Some((bytes, n)) => Some((bytes@, n)),
                None => None,
            },
        ),
{
    match value {
        Some((bytes, n)) => StoreRequest::Put { id, bytes, n },
        None => StoreRequest::Delete { id },
    }
}

// ---- laws ----

/// Something that happens to the transfers of a node.
pub enum StoreEvent {
    /// A request was taken in.
    Request(StoreRequestModel),
    /// A call of the log was answered.
    Logged(LogCallModel, LogReplyModel),
    /// Some data of a transfer were copied.
    Copied(DatumId, u64),
    /// The last datum of a transfer was copied.
    CopiedAll(DatumId),
}

/// The transfers after an event.
pub open spec fn after_event(m: Map<u128, TransferModel>, e: StoreEvent) -> Map<
    u128,
    TransferModel,
> {
    match e {
        StoreEvent::Request(request) => taken_in(m, request),
        StoreEvent::Logged(call, reply) => noted(m, call, reply),
        StoreEvent::Copied(transfer_id, n) => after_copies(m, transfer_id, n),
        StoreEvent::CopiedAll(transfer_id) => after_last_copy(m, transfer_id),
    }
}

/// The transfers after some events.
pub open spec fn after_events(m: Map<u128, TransferModel>, events: Seq<StoreEvent>) -> Map<
    u128,
    TransferModel,
>
    decreases events.len(),
{
    if events.len() == 0 {
        m
    } else {
        after_event(after_events(m, events.drop_last()), events.last())
    }
}

/// Whether an event neither begins, finishes nor retires a transfer.
pub open spec fn leaves_alone(e: StoreEvent, transfer_id: DatumId) -> bool {
    match e {
        StoreEvent::Request(StoreRequestModel::Transfer { transfer_id: t, .. }) => t.rank()
            != transfer_id.rank(),
        StoreEvent::Request(StoreRequestModel::FinishTransfer { transfer_id: t }) => t.rank()
            != transfer_id.rank(),
        StoreEvent::Request(StoreRequestModel::Retire { transfer_id: t }) => t.rank()
            != transfer_id.rank(),
        _ => true,
    }
}

/// The datum that an event has written, if any.
pub open spec fn event_written(e: StoreEvent) -> Option<DatumId> {
    match e {
        StoreEvent::Logged(call, reply) => written(call, reply),
        _ => None,
    }
}

/// Every datum that is written while a transfer moves it is sent again, to where
/// it moves, when the transfer is finished, whatever else happens meanwhile.
pub proof fn law_writes_reach_the_destination(
    m: Map<u128, TransferModel>,
    transfer_id: DatumId,
    ids: Seq<DatumId>,
    dest_address: Seq<char>,
    events: Seq<StoreEvent>,
    i: int,
    plan: StorePlan,
)
    requires
        forall|j: int|
            0 <= j < events.len() ==> leaves_alone(#[trigger] events[j], transfer_id),
        0 <= i < events.len(),
        event_written(events[i]) matches Some(id) && ids.contains(id),
        plans(
            after_events(
                taken_in(m, StoreRequestModel::Transfer { transfer_id, ids, dest_address }),
                events,
            ),
            StoreRequestModel::FinishTransfer { transfer_id },
            plan,
        ),
    ensures
        plan matches StorePlan::Tail { dest, ids: tail } && dest@ == dest_address && exists|k: int|
            0 <= k < tail@.len() && (#[trigger] tail@[k]).rank() == event_written(
                events[i],
            )->Some_0.rank(),
{
    let start = taken_in(m, StoreRequestModel::Transfer { transfer_id, ids, dest_address });
    let id = event_written(events[i])->Some_0;
    let j = choose|j: int| 0 <= j < ids.len() && ids[j] == id;
    assert(ids[j].rank() == id.rank());
    assert(ranks_of(ids).contains(id.rank()));
    lemma_written_stays_dirty(start, transfer_id, events, i);
    if let StorePlan::Tail { dest, ids: tail } = plan {
        assert(ranks_of(tail@).contains(id.rank()));
    }
}

proof fn lemma_written_stays_dirty(
    start: Map<u128, TransferModel>,
    transfer_id: DatumId,
    events: Seq<StoreEvent>,
    i: int,
)
    requires
        start.contains_key(transfer_id.rank()),
        forall|j: int|
            0 <= j < events.len() ==> leaves_alone(#[trigger] events[j], transfer_id),
        0 <= i < events.len() && event_written(events[i]) is Some
            ==> start[transfer_id.rank()].ids.contains(event_written(events[i])->Some_0.rank()),
    ensures
        ({
            let k = transfer_id.rank();
            let m = after_events(start, events);
            &&& m.contains_key(k)
            &&& m[k].ids == start[k].ids
            &&& m[k].dest == start[k].dest
            &&& 0 <= i < events.len() && event_written(events[i]) is Some ==> m[k].dirty.contains(
                event_written(events[i])->Some_0.rank(),
            )
        }),
    decreases events.len(),
{
    if events.len() > 0 {
        let head = events.drop_last();
        assert forall|j: int| 0 <= j < head.len() implies leaves_alone(
            #[trigger] head[j],
            transfer_id,
        ) by {
            assert(head[j] == events[j]);
        }
        if 0 <= i < head.len() {
            assert(head[i] == events[i]);
        }
        lemma_written_stays_dirty(start, transfer_id, head, i);
        assert(leaves_alone(events[events.len() - 1], transfer_id));
    }
}

/// A write that the log has done is noted in every transfer that moves the
/// datum, whether the datum was put whole, changed by a difference or deleted.
/// Nothing else of the transfers changes.
pub proof fn law_each_kind_of_write_is_noted(
    m: Map<u128, TransferModel>,
    k: u128,
    id: DatumId,
    bytes: Seq<u8>,
    n: u16,
    after: Map<u128, TransferModel>,
)
    requires
        m.contains_key(k),
        ({
            ||| after == noted(m, LogCallModel::PutFull { id, bytes, n }, LogReplyModel::Done)
            ||| after == noted(m, LogCallModel::PutDelta { id, delta: bytes, n }, LogReplyModel::Done)
            ||| after == noted(m, LogCallModel::Delete { id }, LogReplyModel::Done)
        }),
    ensures
        after.dom() == m.dom(),
        m[k].ids.contains(id.rank()) ==> after[k].dirty.contains(id.rank()),
        !m[k].ids.contains(id.rank()) ==> after[k].dirty == m[k].dirty,
        forall|other: u128|
            other != id.rank() ==> (#[trigger] after[k].dirty.contains(other)
                == m[k].dirty.contains(other)),
        after[k].ids == m[k].ids,
        after[k].dest == m[k].dest,
        after[k].copied == m[k].copied,
        after[k].done == m[k].done,
{
    assert(after.dom() =~= m.dom());
}

/// What the log has not done, and what only reads, is noted nowhere.
pub proof fn law_reads_and_failures_are_not_noted(
    m: Map<u128, TransferModel>,
    call: LogCallModel,
    reply: LogReplyModel,
)
    requires
        ({
            ||| reply != LogReplyModel::Done
            ||| call is Get
            ||| call is ListIds
            ||| call is LogId
        }),
    ensures
        noted(m, call, reply) == m,
{
}

/// What is sent at the end of a transfer is exactly what was put, changed or
/// deleted while the transfer moved it, whatever else happened meanwhile: a
/// datum of the transfer is sent where one of the events has written it, and
/// nothing else is.
pub proof fn law_tail_is_what_was_written(
    m: Map<u128, TransferModel>,
    transfer_id: DatumId,
    ids: Seq<DatumId>,
    dest_address: Seq<char>,
    events: Seq<StoreEvent>,
    plan: StorePlan,
    rank: u128,
)
    requires
        forall|j: int|
            0 <= j < events.len() ==> leaves_alone(#[trigger] events[j], transfer_id),
        plans(
            after_events(
                taken_in(m, StoreRequestModel::Transfer { transfer_id, ids, dest_address }),
                events,
            ),
            StoreRequestModel::FinishTransfer { transfer_id },
            plan,
        ),
    ensures
        plan matches StorePlan::Tail { dest, ids: tail } && dest@ == dest_address && ((exists|
            k: int,
        |
            0 <= k < tail@.len() && (#[trigger] tail@[k]).rank() == rank) <==> (exists|k: int|
            0 <= k < ids.len() && (#[trigger] ids[k]).rank() == rank) && (exists|i: int|
            0 <= i < events.len() && ({
                ||| (#[trigger] events[i] matches StoreEvent::Logged(
                    LogCallModel::PutFull { id, .. },
                    LogReplyModel::Done,
                ) && id.rank() == rank)
                ||| (events[i] matches StoreEvent::Logged(
                    LogCallModel::PutDelta { id, .. },
                    LogReplyModel::Done,
                ) && id.rank() == rank)
                ||| (events[i] matches StoreEvent::Logged(
                    LogCallModel::Delete { id },
                    LogReplyModel::Done,
                ) && id.rank() == rank)
            }))),
{
    let start = taken_in(m, StoreRequestModel::Transfer { transfer_id, ids, dest_address });
    let k = transfer_id.rank();
    lemma_dirty_was_written(start, transfer_id, events, rank);
    assert(start[k].ids == ranks_of(ids));
    if let StorePlan::Tail { dest, ids: tail } = plan {
        assert(ranks_of(tail@).contains(rank) <==> after_events(start, events)[k].dirty.contains(
            rank,
        ));
        assert(ranks_of(tail@).contains(rank) <==> exists|j: int|
            0 <= j < tail@.len() && (#[trigger] tail@[j]).rank() == rank);
        assert(ranks_of(ids).contains(rank) <==> exists|j: int|
            0 <= j < ids.len() && (#[trigger] ids[j]).rank() == rank);
    }
}

/// Whether an event has written the datum of a rank.
spec fn writes(e: StoreEvent, rank: u128) -> bool {
    event_written(e) matches Some(id) && id.rank() == rank
}

proof fn lemma_dirty_was_written(
    start: Map<u128, TransferModel>,
    transfer_id: DatumId,
    events: Seq<StoreEvent>,
    rank: u128,
)
    requires
        start.contains_key(transfer_id.rank()),
        forall|j: int|
            0 <= j < events.len() ==> leaves_alone(#[trigger] events[j], transfer_id),
    ensures
        ({
            let k = transfer_id.rank();
            let m = after_events(start, events);
            &&& m.contains_key(k)
            &&& m[k].ids == start[k].ids
            &&& m[k].dest == start[k].dest
            &&& m[k].dirty.contains(rank) <==> start[k].dirty.contains(rank)
                || start[k].ids.contains(rank) && exists|i: int|
                0 <= i < events.len() && writes(#[trigger] events[i], rank)
        }),
    decreases events.len(),
{
    if events.len() > 0 {
        let head = events.drop_last();
        let last = events[events.len() - 1];
        assert forall|j: int| 0 <= j < head.len() implies leaves_alone(
            #[trigger] head[j],
            transfer_id,
        ) by {
            assert(head[j] == events[j]);
        }
        lemma_dirty_was_written(start, transfer_id, head, rank);
        assert(leaves_alone(last, transfer_id));
        if exists|i: int| 0 <= i < head.len() && writes(#[trigger] head[i], rank) {
            let i = choose|i: int| 0 <= i < head.len() && writes(#[trigger] head[i], rank);
            assert(writes(events[i], rank));
        }
        if exists|i: int| 0 <= i < events.len() && writes(#[trigger] events[i], rank) {
            let i = choose|i: int| 0 <= i < events.len() && writes(#[trigger] events[i], rank);
            if i < head.len() {
                assert(writes(head[i], rank));
            }
        }
        if writes(last, rank) {
            assert(writes(events[events.len() - 1], rank));
        }
    }
}

/// What is deleted when a transfer is retired is exactly what it moved, whatever
/// was written meanwhile.
pub proof fn law_retires_what_moved(
    m: Map<u128, TransferModel>,
    transfer_id: DatumId,
    ids: Seq<DatumId>,
    dest_address: Seq<char>,
    events: Seq<StoreEvent>,
    plan: StorePlan,
    rank: u128,
)
    requires
        forall|j: int|
            0 <= j < events.len() ==> leaves_alone(#[trigger] events[j], transfer_id),
        plans(
            after_events(
                taken_in(m, StoreRequestModel::Transfer { transfer_id, ids, dest_address }),
                events,
            ),
            StoreRequestModel::Retire { transfer_id },
            plan,
        ),
    ensures
        plan matches StorePlan::Retire { ids: gone } && ((exists|k: int|
            0 <= k < gone@.len() && (#[trigger] gone@[k]).rank() == rank) <==> (exists|k: int|
            0 <= k < ids.len() && (#[trigger] ids[k]).rank() == rank)),
{
    let start = taken_in(m, StoreRequestModel::Transfer { transfer_id, ids, dest_address });
    lemma_dirty_was_written(start, transfer_id, events, rank);
    assert(start[transfer_id.rank()].ids == ranks_of(ids));
    if let StorePlan::Retire { ids: gone } = plan {
        assert(ranks_of(gone@).contains(rank) <==> exists|j: int|
            0 <= j < gone@.len() && (#[trigger] gone@[j]).rank() == rank);
        assert(ranks_of(ids).contains(rank) <==> exists|j: int|
            0 <= j < ids.len() && (#[trigger] ids[j]).rank() == rank);
    }
}

/// A second finish sends nothing that was not written since the first, and the
/// status then counts nothing as dirty.
pub proof fn law_finish_takes_the_dirty(
    m: Map<u128, TransferModel>,
    transfer_id: DatumId,
    plan: StorePlan,
    status: StorePlan,
)
    requires
        m.contains_key(transfer_id.rank()),
        ({
            let after = taken_in(m, StoreRequestModel::FinishTransfer { transfer_id });
            &&& plans(after, StoreRequestModel::FinishTransfer { transfer_id }, plan)
            &&& plans(after, StoreRequestModel::TransferStatus { transfer_id }, status)
        }),
    ensures
        plan matches StorePlan::Tail { dest, ids } && ids@.len() == 0 && dest@
            == m[transfer_id.rank()].dest,
        status matches StorePlan::Answer(r) && r@ == (StoreResponseModel::TransferProgress {
            copied: m[transfer_id.rank()].copied,
            dirty: 0,
            done: m[transfer_id.rank()].done,
        }),
{
    if let StorePlan::Tail { dest, ids } = plan {
        if ids@.len() > 0 {
            assert(ranks_of(ids@).contains(ids@[0].rank()));
        }
    }
}

/// A request reaches the log as it came, and what the log holds reaches the
/// reader: what is put, changed, read or deleted is what the request names, with
/// its bytes and its replication factor, and no transfer changes by it.
pub proof fn law_requests_reach_the_log(
    m: Map<u128, TransferModel>,
    node_id: NodeId,
    id: DatumId,
    bytes: Seq<u8>,
    n: u16,
    held: Option<Seq<u8>>,
    put: StorePlan,
    patch: StorePlan,
    get: StorePlan,
    delete: StorePlan,
)
    requires
        plans(m, StoreRequestModel::Put { id, bytes, n }, put),
        plans(m, StoreRequestModel::Patch { id, delta: bytes, n }, patch),
        plans(m, StoreRequestModel::Get { id }, get),
        plans(m, StoreRequestModel::Delete { id }, delete),
    ensures
        put matches StorePlan::Log(c) && c@ == (LogCallModel::PutFull { id, bytes, n }) && answered(
            node_id,
            c@,
            LogReplyModel::Done,
        ) == Some(StoreResponseModel::Ack),
        patch matches StorePlan::Log(c) && c@ == (LogCallModel::PutDelta { id, delta: bytes, n })
            && answered(node_id, c@, LogReplyModel::Done) == Some(StoreResponseModel::Ack)
            && answered(node_id, c@, LogReplyModel::NeedFull) == Some(StoreResponseModel::NeedFull),
        get matches StorePlan::Log(c) && c@ == (LogCallModel::Get { id }) && answered(
            node_id,
            c@,
            LogReplyModel::Content(held),
        ) == Some(StoreResponseModel::Value { bytes: held }),
        delete matches StorePlan::Log(c) && c@ == (LogCallModel::Delete { id }) && answered(
            node_id,
            c@,
            LogReplyModel::Done,
        ) == Some(StoreResponseModel::Ack),
        taken_in(m, StoreRequestModel::Put { id, bytes, n }) == m,
        taken_in(m, StoreRequestModel::Patch { id, delta: bytes, n }) == m,
        taken_in(m, StoreRequestModel::Get { id }) == m,
        taken_in(m, StoreRequestModel::Delete { id }) == m,
{
}

/// A node acknowledges nothing that its log has not done: where the disk failed
/// there is no answer at all.
pub proof fn law_acknowledged_is_done(
    node_id: NodeId,
    call: LogCallModel,
    reply: LogReplyModel,
)
    ensures
        answered(node_id, call, reply) == Some(StoreResponseModel::Ack) ==> reply
            == LogReplyModel::Done && (call is PutFull || call is PutDelta || call is Delete),
        reply == LogReplyModel::Failed ==> answered(node_id, call, reply) is None,
{
}

/// A transfer is retired once: after that it moves nothing.
pub proof fn law_retire_forgets(m: Map<u128, TransferModel>, transfer_id: DatumId, plan: StorePlan)
    requires
        plans(
            taken_in(m, StoreRequestModel::Retire { transfer_id }),
            StoreRequestModel::Retire { transfer_id },
            plan,
        ),
    ensures
        plan matches StorePlan::Retire { ids } && ids@.len() == 0,
{
    if let StorePlan::Retire { ids } = plan {
        if ids@.len() > 0 {
            assert(ranks_of(ids@).contains(ids@[0].rank()));
        }
    }
}

/// The status of a transfer tells how many data were copied and how many have been
/// written since, and that all were copied only once they were. What is told of one transfer says nothing of another.
pub proof fn law_status_tells_how_far(
    m: Map<u128, TransferModel>,
    transfer_id: DatumId,
    n: u64,
    more: StorePlan,
    all: StorePlan,
    other: u128,
)
    requires
        m.contains_key(transfer_id.rank()),
        m[transfer_id.rank()].copied + n <= u64::MAX,
        plans(
            after_copies(m, transfer_id, n),
            StoreRequestModel::TransferStatus { transfer_id },
            more,
        ),
        plans(
            after_last_copy(m, transfer_id),
            StoreRequestModel::TransferStatus { transfer_id },
            all,
        ),
        other != transfer_id.rank(),
    ensures
        ({
            let t = m[transfer_id.rank()];
            &&& more matches StorePlan::Answer(r) && (r@ matches
                StoreResponseModel::TransferProgress { copied, dirty, done } && copied == t.copied
                + n && dirty == t.dirty.len() as u64 && done == t.done)
            &&& all matches StorePlan::Answer(r) && (r@ matches
                StoreResponseModel::TransferProgress { copied, dirty, done } && copied == t.copied
                && dirty == t.dirty.len() as u64 && done)
        }),
        after_copies(m, transfer_id, n)[other] == m[other],
        after_last_copy(m, transfer_id)[other] == m[other],
        after_copies(m, transfer_id, n)[transfer_id.rank()].dirty == m[transfer_id.rank()].dirty,
        after_last_copy(m, transfer_id)[transfer_id.rank()].dirty == m[transfer_id.rank()].dirty,
{
}

/// A transfer that has begun has copied nothing, is not done, and moves what it was
/// given to where it was told; the other transfers stay as they are. Of a transfer
/// that nobody has begun, or that was retired, there is only an error to tell.
pub proof fn law_transfer_begins(
    m: Map<u128, TransferModel>,
    transfer_id: DatumId,
    ids: Seq<DatumId>,
    dest_address: Seq<char>,
    begun: StorePlan,
    gone: StorePlan,
    other: u128,
)
    requires
        plans(
            taken_in(m, StoreRequestModel::Transfer { transfer_id, ids, dest_address }),
            StoreRequestModel::TransferStatus { transfer_id },
            begun,
        ),
        plans(
            taken_in(m, StoreRequestModel::Retire { transfer_id }),
            StoreRequestModel::TransferStatus { transfer_id },
            gone,
        ),
        other != transfer_id.rank(),
    ensures
        begun matches StorePlan::Answer(r) && r@ == (StoreResponseModel::TransferProgress {
            copied: 0,
            dirty: 0,
            done: false,
        }),
        gone matches StorePlan::Answer(r) && r@ is Error,
        taken_in(m, StoreRequestModel::Transfer { transfer_id, ids, dest_address }).contains_key(
            other,
        ) == m.contains_key(other),
        taken_in(m, StoreRequestModel::Transfer { transfer_id, ids, dest_address })[other]
            == m[other],
        taken_in(m, StoreRequestModel::Retire { transfer_id }).contains_key(other)
            == m.contains_key(other),
{
}

/// What is sent at the end of a transfer is what the datum is then: its content with
/// its replication factor, or that it is gone.
pub proof fn law_tail_is_the_present_state(id: DatumId, bytes: Seq<u8>, n: u16)
    ensures
        tail(id, Some((bytes, n))) == (StoreRequestModel::Put { id, bytes, n }),
        tail(id, None) == (StoreRequestModel::Delete { id }),
{
}

/// A datum is copied as it is sent at the end, where it is there; where it is not, the
/// copy sends nothing, and the end says that it is gone. What is copied reaches the log
/// of the destination as it was.
pub proof fn law_copy_is_the_datum(
    m: Map<u128, TransferModel>,
    id: DatumId,
    bytes: Seq<u8>,
    n: u16,
    plan: StorePlan,
)
    requires
        copied(id, Some((bytes, n))) matches Some(request) && plans(m, request, plan),
    ensures
        copied(id, Some((bytes, n))) == Some(tail(id, Some((bytes, n)))),
        copied(id, None) is None,
        plan matches StorePlan::Log(c) && c@ == (LogCallModel::PutFull { id, bytes, n }),
{
}

/// A node says that a page of ids is the last only where it is not full, hands the
/// ids on as the log listed them, and makes itself known by its own id and the id of
/// its log.
pub proof fn law_pages_and_identity(
    node_id: NodeId,
    after: Option<DatumId>,
    limit: u32,
    ids: Seq<(DatumId, u16)>,
    log_id: DatumId,
)
    ensures
        answered(
            node_id,
            LogCallModel::ListIds { after, limit },
            LogReplyModel::Ids(ids),
        ) matches Some(StoreResponseModel::IdList { ids: listed, done }) && listed == ids && (done
            <==> ids.len() < limit),
        answered(node_id, LogCallModel::LogId, LogReplyModel::LogId(log_id)) == Some(
            StoreResponseModel::Identity { node_id, log_id },
        ),
{
}

} // verus!
