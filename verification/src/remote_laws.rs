//! What holds between nodes: what a compute node writes and reads on storage nodes,
//! and what one worker asks of a worker of another node.

use crate::authority::NodeId;
use crate::collection_store::CollectionReply;
use crate::datum::DatumId;
use crate::message::{ActionModel, MessageModel};
use crate::peer_link::{dispatched, CallsModel};
use crate::remote_collection::{as_change_reply, as_look_reply};
use crate::remote_store::{
    as_read_reply, as_write_reply, kept_delta, write_request_model, Change, DatumWrite,
};
use crate::replica_resolver::{ReadReply, WriteForm, WriteReply};
use crate::request::RequestModel;
use crate::ring::{home, Slot};
use crate::store_server::{answered, plans, LogCallModel, LogReplyModel, StorePlan};
use crate::store_wire::{StoreRequestModel, StoreResponseModel};
use crate::transfer::TransferModel;
use crate::worker::WorkerModel;
use vstd::prelude::*;

verus! {

// ---- storage nodes ----

/// What a compute node writes is what the log of the storage node is told to keep,
/// and only what the log has kept counts as written: where the log fails, and where
/// the node cannot be reached, the write has failed there. A difference that the
/// log cannot apply asks for everything.
pub proof fn law_written_is_what_the_log_keeps(
    m: Map<u128, TransferModel>,
    node_id: NodeId,
    id: DatumId,
    content: Seq<u8>,
    delta: Seq<u8>,
    n: u16,
    whole: StorePlan,
    patch: StorePlan,
    delete: StorePlan,
)
    requires
        plans(m, write_request_model(id, content, Some(delta), n, WriteForm::Full), whole),
        plans(m, write_request_model(id, content, Some(delta), n, WriteForm::Patch), patch),
        plans(m, StoreRequestModel::Delete { id }, delete),
    ensures
        whole matches StorePlan::Log(c) && c@ == (LogCallModel::PutFull { id, bytes: content, n })
            && as_write_reply(answered(node_id, c@, LogReplyModel::Done)) == WriteReply::Acked
            && as_write_reply(answered(node_id, c@, LogReplyModel::Failed)) == WriteReply::Failed,
        patch matches StorePlan::Log(c) && c@ == (LogCallModel::PutDelta { id, delta, n })
            && as_write_reply(answered(node_id, c@, LogReplyModel::Done)) == WriteReply::Acked
            && as_write_reply(answered(node_id, c@, LogReplyModel::NeedFull))
            == WriteReply::NeedFull && as_write_reply(answered(node_id, c@, LogReplyModel::Failed))
            == WriteReply::Failed,
        delete matches StorePlan::Log(c) && c@ == (LogCallModel::Delete { id }) && as_write_reply(
            answered(node_id, c@, LogReplyModel::Done),
        ) == WriteReply::Acked,
        write_request_model(id, content, None, n, WriteForm::Patch) == write_request_model(
            id,
            content,
            Some(delta),
            n,
            WriteForm::Full,
        ),
{
}

/// What a compute node reads is what the log of the storage node has: the content
/// where there is one, and that there is none where there is none.
pub proof fn law_read_is_what_the_log_has(
    m: Map<u128, TransferModel>,
    node_id: NodeId,
    id: DatumId,
    content: Seq<u8>,
    plan: StorePlan,
)
    requires
        plans(m, StoreRequestModel::Get { id }, plan),
    ensures
        plan matches StorePlan::Log(c) && c@ == (LogCallModel::Get { id }) && as_read_reply(
            answered(node_id, c@, LogReplyModel::Content(Some(content))),
        ) == (ReadReply::Answered, Some(content)) && as_read_reply(
            answered(node_id, c@, LogReplyModel::Content(None)),
        ) == (ReadReply::Absent, None::<Seq<u8>>) && as_read_reply(
            answered(node_id, c@, LogReplyModel::Failed),
        ) == (ReadReply::Failed, None::<Seq<u8>>),
{
}

/// A write counts as done only where it was acknowledged, and a read as answered
/// only where a content came.
pub proof fn law_only_answers_count(reply: Option<StoreResponseModel>)
    ensures
        as_write_reply(reply) == WriteReply::Acked <==> reply == Some(StoreResponseModel::Ack),
        as_write_reply(reply) == WriteReply::NeedFull <==> reply == Some(
            StoreResponseModel::NeedFull,
        ),
        as_read_reply(reply).0 == ReadReply::Answered <==> as_read_reply(reply).1 is Some,
        as_read_reply(reply).1 matches Some(bytes) ==> reply == Some(
            StoreResponseModel::Value { bytes: Some(bytes) },
        ),
        as_read_reply(reply).0 == ReadReply::Absent <==> reply == Some(
            StoreResponseModel::Value { bytes: None },
        ),
        reply is None ==> as_write_reply(reply) == WriteReply::Failed && as_read_reply(reply).0
            == ReadReply::Failed,
{
}

/// A node that is written to is sent the datum's own id, and the content, or the
/// difference where it is asked for in that form; a deletion names the datum.
pub proof fn law_write_sends_the_content(w: DatumWrite, form: WriteForm)
    requires
        w.wf(),
    ensures
        w.change matches Change::Put { content, delta, n } ==> {
            &&& form == WriteForm::Full || delta is None ==> w.request(form) == (
            StoreRequestModel::Put { id: w.write@.id, bytes: content@, n })
            &&& form == WriteForm::Patch ==> (delta matches Some(d) ==> w.request(form) == (
            StoreRequestModel::Patch { id: w.write@.id, delta: d@, n }))
        },
        w.change is Delete ==> w.request(form) == (StoreRequestModel::Delete { id: w.write@.id }),
{
}

/// A difference is sent exactly where it is less than half as long as the content.
pub proof fn law_short_differences_are_sent(delta: Vec<u8>, content: Vec<u8>)
    ensures
        kept_delta(Some(delta), content) == (if delta@.len() < content@.len() / 2 {
            Some(delta)
        } else {
            None
        }),
        kept_delta(None, content) is None,
{
}

/// A collection was changed on a node only where the node says so. Whatever a node
/// answers to a look at a collection is an answer.
pub proof fn law_collection_answers_count(reply: Option<CollectionReply>)
    ensures
        as_change_reply(reply) == WriteReply::Acked <==> reply == Some(CollectionReply::Ack),
        as_change_reply(reply) != WriteReply::NeedFull,
        as_look_reply(reply) == ReadReply::Answered <==> reply is Some,
        as_look_reply(reply) == ReadReply::Failed <==> reply is None,
{
}

// ---- workers of other nodes ----

/// A request of another node's worker reaches the thread as it was made, with the
/// way back to where it came from. What clients ask is not taken from a node.
pub proof fn law_peer_requests_reach_the_thread(
    request: RequestModel,
    link: u64,
    correlation_id: u64,
)
    ensures
        request matches RequestModel::Acquire {
            op_id,
            datum_id,
            requester_node,
            requester_thread,
        } ==> dispatched(request, link, correlation_id) == Some(
            MessageModel::Acquire {
                op_id,
                datum_id,
                requester_node,
                requester_thread,
                reply: crate::collation::ReplyTo::Link { link, correlation_id },
            },
        ),
        request matches RequestModel::Recall { datum_id } ==> dispatched(
            request,
            link,
            correlation_id,
        ) == Some(
            MessageModel::Recall {
                datum_id,
                reply: crate::collation::ReplyTo::Link { link, correlation_id },
            },
        ),
        request matches RequestModel::Release { datum_id } ==> dispatched(
            request,
            link,
            correlation_id,
        ) == Some(MessageModel::Release { datum_id }),
        request matches RequestModel::IndexUpdate { target, op_id, index_kind, payload }
            ==> dispatched(request, link, correlation_id) == Some(
            MessageModel::IndexUpdate {
                target,
                op_id,
                index_kind,
                payload,
                reply: crate::collation::ReplyTo::Link { link, correlation_id },
            },
        ),
        request is Op || request is RkQuery || request is LbExecute || request is LbQuery
            ==> dispatched(request, link, correlation_id) is None,
{
}

/// A call is noted under its number, which the next call does not have; no other
/// call is forgotten.
pub proof fn law_calls_have_their_own_numbers<T>(calls: CallsModel<T>, token: T, other: u64)
    requires
        other != calls.next,
    ensures
        calls.with_call(token).pending.contains_pair(calls.next, token),
        calls.with_call(token).next != calls.next,
        calls.with_call(token).pending.contains_key(other) == calls.pending.contains_key(other),
        calls.pending.contains_key(other) ==> calls.with_call(token).pending[other]
            == calls.pending[other],
{
}

/// A datum that is free at its home is granted to an op on another node: the
/// request that the op's worker makes reaches the home, which grants the datum to
/// that op, on that node and thread, and the answer reaches the worker as the grant
/// of that datum to that op.
pub proof fn law_free_datum_is_granted_across_nodes(
    w: WorkerModel,
    ring: Seq<Slot>,
    op_id: DatumId,
    op_name: Seq<char>,
    datum_id: DatumId,
    payload: Seq<u8>,
    reply: u64,
    there: WorkerModel,
    link: u64,
    correlation_id: u64,
)
    requires
        home(ring, datum_id).0 != w.node,
        there.wf(),
        !there.locks.contains_key(datum_id.rank()),
    ensures
        ({
            let asked = w.handle(
                ring,
                MessageModel::RunOp { op_id, op_name, datum_ids: seq![datum_id], payload, reply },
            );
            asked.actions.len() == 1 && (asked.actions[0] matches ActionModel::Call {
                node,
                thread,
                request,
                then,
            } && node == home(ring, datum_id).0 && thread == home(ring, datum_id).1 && (dispatched(
                request,
                link,
                correlation_id,
            ) matches Some(message) && {
                let granted = there.handle(ring, message);
                &&& granted.actions.len() == 1
                &&& granted.actions[0] matches ActionModel::Respond {
                    link: l,
                    correlation_id: c,
                    response,
                } && l == link && c == correlation_id && then.leads_to(Some(response)) == Some(
                    MessageModel::AcquireGranted { op_id, datum_id },
                )
                &&& granted.worker.locks.contains_key(datum_id.rank())
                &&& granted.worker.locks[datum_id.rank()].holder matches Some(h) && h.op_id == op_id
                    && h.node_id == w.node && h.thread_id == w.thread
            }))
        }),
{
    let asked = w.handle(
        ring,
        MessageModel::RunOp { op_id, op_name, datum_ids: seq![datum_id], payload, reply },
    );
    assert(asked.actions =~= w.acquire_actions(ring, op_id, seq![datum_id]));
}

/// A datum that is released on one node is released at its home on another: the
/// release reaches the home as a release of that datum.
pub proof fn law_release_crosses_nodes(
    w: WorkerModel,
    ring: Seq<Slot>,
    datum_id: DatumId,
    link: u64,
    correlation_id: u64,
)
    requires
        home(ring, datum_id).0 != w.node,
    ensures
        ({
            let actions = w.release_action(ring, datum_id);
            &&& actions.len() == 2
            &&& actions[0] == (ActionModel::Invalidate { id: datum_id })
            &&& actions[1] matches ActionModel::Call { node, thread, request, .. } && node == home(
                ring,
                datum_id,
            ).0 && thread == home(ring, datum_id).1 && dispatched(request, link, correlation_id)
                == Some(MessageModel::Release { datum_id })
        }),
{
}

} // verus!
