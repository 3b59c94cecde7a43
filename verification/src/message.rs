//! What a worker thread is told, and what it wants done.
//!
//! A worker never waits: it takes one message after the other, and answers each
//! with a list of actions that its surroundings carry out in order.

use crate::authority::{NodeId, ThreadId};
use crate::collation::ReplyTo;
use crate::datum::DatumId;
use crate::request::{Request, RequestModel};
use crate::response::{optional_text, Response, ResponseModel};
use crate::response_text::{show_response, shown_response};
use crate::store_wire::optional_bytes;
use crate::text::{copy_text, decimal, id_text, push_decimal, push_id};
use vstd::prelude::*;
use vstd::string::*;

verus! {

/// A message to a worker thread.
#[derive(Debug, PartialEq, Eq)]
pub enum WorkerMessage {
    /// A client's op, for this thread to run. `reply` is the ticket that its
    /// result goes to.
    RunOp {
        op_id: DatumId,
        op_name: String,
        datum_ids: Vec<DatumId>,
        payload: Vec<u8>,
        reply: u64,
    },
    /// Asks this thread, the home of `datum_id`, for the lock on it.
    Acquire {
        op_id: DatumId,
        datum_id: DatumId,
        requester_node: NodeId,
        requester_thread: ThreadId,
        reply: ReplyTo,
    },
    /// An op of this thread has been granted a datum.
    AcquireGranted { op_id: DatumId, datum_id: DatumId },
    /// A request for a datum on another node came to nothing; so many more may
    /// be made.
    AcquireFailed { op_id: DatumId, datum_id: DatumId, retries_left: u32 },
    /// The home of `datum_id` wants it back from this thread.
    Recall { datum_id: DatumId, reply: ReplyTo },
    /// Whoever held `datum_id`, whose home is here, is done with it.
    Release { datum_id: DatumId },
    /// A node is dead: what it held or waited for here is free.
    ReleaseLocksHeldBy(NodeId),
    /// Applies an update to the index datum `target`, whose home is here.
    IndexUpdate {
        target: DatumId,
        op_id: DatumId,
        index_kind: String,
        payload: Vec<u8>,
        reply: ReplyTo,
    },
    /// An index update of an op of this thread was applied, or refused.
    IndexUpdateReplied { op_id: DatumId, target: DatumId, violation: Option<String> },
}

/// The mathematical content of a [`WorkerMessage`].
pub enum MessageModel {
    RunOp {
        op_id: DatumId,
        op_name: Seq<char>,
        datum_ids: Seq<DatumId>,
        payload: Seq<u8>,
        reply: u64,
    },
    Acquire {
        op_id: DatumId,
        datum_id: DatumId,
        requester_node: NodeId,
        requester_thread: ThreadId,
        reply: ReplyTo,
    },
    AcquireGranted { op_id: DatumId, datum_id: DatumId },
    AcquireFailed { op_id: DatumId, datum_id: DatumId, retries_left: u32 },
    Recall { datum_id: DatumId, reply: ReplyTo },
    Release { datum_id: DatumId },
    ReleaseLocksHeldBy(NodeId),
    IndexUpdate {
        target: DatumId,
        op_id: DatumId,
        index_kind: Seq<char>,
        payload: Seq<u8>,
        reply: ReplyTo,
    },
    IndexUpdateReplied { op_id: DatumId, target: DatumId, violation: Option<Seq<char>> },
}

impl View for WorkerMessage {
    type V = MessageModel;

    open spec fn view(&self) -> MessageModel {
        match self {
            WorkerMessage::RunOp { op_id, op_name, datum_ids, payload, reply } => {
                MessageModel::RunOp {
                    op_id: *op_id,
                    op_name: op_name@,
                    datum_ids: datum_ids@,
                    payload: payload@,
                    reply: *reply,
                }
            },
            WorkerMessage::Acquire { op_id, datum_id, requester_node, requester_thread, reply } => {
                MessageModel::Acquire {
                    op_id: *op_id,
                    datum_id: *datum_id,
                    requester_node: *requester_node,
                    requester_thread: *requester_thread,
                    reply: *reply,
                }
            },
            WorkerMessage::AcquireGranted { op_id, datum_id } => MessageModel::AcquireGranted {
                op_id: *op_id,
                datum_id: *datum_id,
            },
            WorkerMessage::AcquireFailed { op_id, datum_id, retries_left } => {
                MessageModel::AcquireFailed {
                    op_id: *op_id,
                    datum_id: *datum_id,
                    retries_left: *retries_left,
                }
            },
            WorkerMessage::Recall { datum_id, reply } => MessageModel::Recall {
                datum_id: *datum_id,
                reply: *reply,
            },
            WorkerMessage::Release { datum_id } => MessageModel::Release { datum_id: *datum_id },
            WorkerMessage::ReleaseLocksHeldBy(node_id) => MessageModel::ReleaseLocksHeldBy(
                *node_id,
            ),
            WorkerMessage::IndexUpdate { target, op_id, index_kind, payload, reply } => {
                MessageModel::IndexUpdate {
                    target: *target,
                    op_id: *op_id,
                    index_kind: index_kind@,
                    payload: payload@,
                    reply: *reply,
                }
            },
            WorkerMessage::IndexUpdateReplied { op_id, target, violation } => {
                MessageModel::IndexUpdateReplied {
                    op_id: *op_id,
                    target: *target,
                    violation: optional_text(*violation),
                }
            },
        }
    }
}

/// What the answer to a call of another node leads to.
#[derive(Debug, Clone, Copy, PartialEq, Eq, Structural)]
pub enum AfterCall {
    Acquire { op_id: DatumId, datum_id: DatumId, retries_left: u32 },
    Recall { datum_id: DatumId },
    IndexUpdate { op_id: DatumId, target: DatumId, node_id: NodeId },
    /// Nothing.
    Release,
}

/// Why an index update came to nothing where there is no connection to the
/// index's home.
pub open spec fn no_link_text(node_id: NodeId) -> Seq<char> {
    "no peer-link connection to node NodeId("@ + decimal(node_id.0 as nat) + ")"@
}

/// Why an index update came to nothing where its home answered something else.
pub open spec fn unexpected_answer_text(target: DatumId, answer: ResponseModel) -> Seq<char> {
    "unexpected response applying index update to DatumId("@ + id_text(target) + "): "@
        + shown_response(answer)
}

/// An answer to a call, viewed. There is none where there is no connection to
/// the node.
pub open spec fn answer_view(answer: Option<Response>) -> Option<ResponseModel> {
    match answer {
        None => None,
        Some(r) => Some(r@),
    }
}

impl AfterCall {
    /// The message that an answer leads to. A lock request that was not granted
    /// has failed. A recall always leads to a release: a holder that cannot be
    /// reached is not waited for.
    pub open spec fn leads_to(self, answer: Option<ResponseModel>) -> Option<MessageModel> {
        match self {
            AfterCall::Acquire { op_id, datum_id, retries_left } => if answer == Some(
                ResponseModel::Granted,
            ) {
                Some(MessageModel::AcquireGranted { op_id, datum_id })
            } else {
                Some(MessageModel::AcquireFailed { op_id, datum_id, retries_left })
            },
            AfterCall::Recall { datum_id } => Some(MessageModel::Release { datum_id }),
            AfterCall::IndexUpdate { op_id, target, node_id } => Some(
                MessageModel::IndexUpdateReplied {
                    op_id,
                    target,
                    violation: match answer {
                        None => Some(no_link_text(node_id)),
                        Some(ResponseModel::IndexUpdateResult { violation }) => violation,
                        Some(other) => Some(unexpected_answer_text(target, other)),
                    },
                },
            ),
            AfterCall::Release => None,
        }
    }

    /// The message that an answer leads to.
    pub fn message(self, answer: Option<Response>) -> (message: Option<WorkerMessage>)
        ensures
            (match message {
                None => None,
                Some(m) => Some(m@),
            }) == self.leads_to(answer_view(answer)),
    {
        match self {
            AfterCall::Acquire { op_id, datum_id, retries_left } => match answer {
                Some(Response::Granted) => Some(
                    WorkerMessage::AcquireGranted { op_id, datum_id },
                ),
                _ => Some(WorkerMessage::AcquireFailed { op_id, datum_id, retries_left }),
            },
            AfterCall::Recall { datum_id } => Some(WorkerMessage::Release { datum_id }),
            AfterCall::IndexUpdate { op_id, target, node_id } => {
                let violation = match answer {
                    None => {
                        let mut text = copy_text("no peer-link connection to node NodeId(");
                        push_decimal(&mut text, node_id.0 as u128);
                        text.append(")");
                        Some(text)
                    },
                    Some(Response::IndexUpdateResult { violation }) => violation,
                    Some(other) => {
                        let mut text = copy_text(
                            "unexpected response applying index update to DatumId(",
                        );
                        push_id(&mut text, target);
                        text.append("): ");
                        show_response(&mut text, &other);
                        Some(text)
                    },
                };
                Some(WorkerMessage::IndexUpdateReplied { op_id, target, violation })
            },
            AfterCall::Release => None,
        }
    }
}

/// Something that a worker wants done.
#[derive(Debug, PartialEq, Eq)]
pub enum Action {
    /// Drop the cached copy of a datum.
    Invalidate { id: DatumId },
    /// Write through the cache: new content, or a deletion.
    Write { id: DatumId, content: Option<Vec<u8>>, n: u16 },
    /// Hand a message to a thread of this node.
    Send { thread: ThreadId, message: WorkerMessage },
    /// Call another node; the answer leads to what `then` says.
    Call { node: NodeId, thread: ThreadId, request: Request, then: AfterCall },
    /// Answer a call of another node.
    Respond { link: u64, correlation_id: u64, response: Response },
    /// Hand the result of an op to its client.
    Answer { reply: u64, result: Result<Vec<u8>, String> },
    /// Run an op. What comes of it goes to [`crate::worker::Worker::op_ran`],
    /// before any other message.
    Run { op_id: DatumId, op_name: String, datum_ids: Vec<DatumId>, payload: Vec<u8> },
    /// Apply an update to an index. What comes of it goes to
    /// [`crate::worker::Worker::index_updated`].
    UseIndex {
        target: DatumId,
        op_id: DatumId,
        index_kind: String,
        payload: Vec<u8>,
        reply: ReplyTo,
    },
}

/// The mathematical content of an [`Action`].
pub enum ActionModel {
    Invalidate { id: DatumId },
    Write { id: DatumId, content: Option<Seq<u8>>, n: u16 },
    Send { thread: ThreadId, message: MessageModel },
    Call { node: NodeId, thread: ThreadId, request: RequestModel, then: AfterCall },
    Respond { link: u64, correlation_id: u64, response: ResponseModel },
    Answer { reply: u64, result: Result<Seq<u8>, Seq<char>> },
    Run { op_id: DatumId, op_name: Seq<char>, datum_ids: Seq<DatumId>, payload: Seq<u8> },
    UseIndex {
        target: DatumId,
        op_id: DatumId,
        index_kind: Seq<char>,
        payload: Seq<u8>,
        reply: ReplyTo,
    },
}

/// The result of an op, viewed.
pub open spec fn result_view(r: Result<Vec<u8>, String>) -> Result<Seq<u8>, Seq<char>> {
    match r {
        Ok(b) => Ok(b@),
        Err(m) => Err(m@),
    }
}

impl View for Action {
    type V = ActionModel;

    open spec fn view(&self) -> ActionModel {
        match self {
            Action::Invalidate { id } => ActionModel::Invalidate { id: *id },
            Action::Write { id, content, n } => ActionModel::Write {
                id: *id,
                content: optional_bytes(*content),
                n: *n,
            },
            Action::Send { thread, message } => ActionModel::Send {
                thread: *thread,
                message: message@,
            },
            Action::Call { node, thread, request, then } => ActionModel::Call {
                node: *node,
                thread: *thread,
                request: request@,
                then: *then,
            },
            Action::Respond { link, correlation_id, response } => ActionModel::Respond {
                link: *link,
                correlation_id: *correlation_id,
                response: response@,
            },
            Action::Answer { reply, result } => ActionModel::Answer {
                reply: *reply,
                result: result_view(*result),
            },
            Action::Run { op_id, op_name, datum_ids, payload } => ActionModel::Run {
                op_id: *op_id,
                op_name: op_name@,
                datum_ids: datum_ids@,
                payload: payload@,
            },
            Action::UseIndex { target, op_id, index_kind, payload, reply } => {
                ActionModel::UseIndex {
                    target: *target,
                    op_id: *op_id,
                    index_kind: index_kind@,
                    payload: payload@,
                    reply: *reply,
                }
            },
        }
    }
}

/// Actions, viewed.
pub open spec fn actions_view(actions: Seq<Action>) -> Seq<ActionModel> {
    Seq::new(actions.len(), |i: int| actions[i]@)
}

/// Appends an action.
pub fn put_action(out: &mut Vec<Action>, action: Action)
    ensures
        actions_view(final(out)@) == actions_view(old(out)@).push(action@),
{
    out.push(action);
    assert(actions_view(out@) =~= actions_view(old(out)@).push(action@));
}

} // verus!
