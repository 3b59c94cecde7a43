//! Calls between nodes. One connection joins each pair of nodes and carries the
//! calls of all their threads: an answer finds its call by the number that both
//! carry.

use crate::authority::{NodeId, ThreadId};
use crate::bytes::{le64, lemma_parse_u64, parse_u64, put_u64, take_u64};
use crate::collation::ReplyTo;
use crate::envelope::{
    decode_envelope, encode_envelope, envelope_bytes, law_envelope_round_trip, parse_envelope,
    Envelope, EnvelopeKind, EnvelopeModel,
};
use crate::maps::{ascending, sorted_keys};
use crate::message::{MessageModel, WorkerMessage};
use crate::request::{
    decode_request, encode_request, law_request_round_trip, parse_request, request_bytes,
    request_fits, Request, RequestModel,
};
use crate::response::{
    decode_response, encode_response, law_response_round_trip, parse_response, response_bytes,
    response_fits, Response, ResponseModel,
};
use crate::text::copy_text;
use std::collections::BTreeMap;
use vstd::prelude::*;

verus! {

broadcast use {vstd::std_specs::btree::group_btree_axioms, vstd::laws_cmp::group_laws_cmp};

/// The calls on a connection that have no answer yet. `T` is what the caller
/// recognises a call by.
pub struct PeerCalls<T> {
    pending: BTreeMap<u64, T>,
    next: u64,
}

/// The mathematical content of [`PeerCalls`].
#[verifier::reject_recursive_types(T)]
pub struct CallsModel<T> {
    pub pending: Map<u64, T>,
    /// The number of the next call.
    pub next: u64,
}

impl<T> View for PeerCalls<T> {
    type V = CallsModel<T>;

    closed spec fn view(&self) -> CallsModel<T> {
        CallsModel { pending: self.pending@, next: self.next }
    }
}

/// What came in on a connection.
#[derive(Debug, PartialEq, Eq)]
pub enum Incoming<T> {
    /// Nothing that anything is to be done about.
    Nothing,
    /// The answer to a call.
    Answer { token: T, response: Response },
    /// A request of the other node, to be answered under its number.
    Request { thread: ThreadId, request: Request, correlation_id: u64 },
}

/// The mathematical content of an [`Incoming`].
pub enum IncomingModel<T> {
    Nothing,
    Answer { token: T, response: ResponseModel },
    Request { thread: ThreadId, request: RequestModel, correlation_id: u64 },
}

impl<T> View for Incoming<T> {
    type V = IncomingModel<T>;

    open spec fn view(&self) -> IncomingModel<T> {
        match self {
            Incoming::Nothing => IncomingModel::Nothing,
            Incoming::Answer { token, response } => IncomingModel::Answer {
                token: *token,
                response: response@,
            },
            Incoming::Request { thread, request, correlation_id } => IncomingModel::Request {
                thread: *thread,
                request: request@,
                correlation_id: *correlation_id,
            },
        }
    }
}

impl<T> CallsModel<T> {
    /// The calls after one more was made. The numbers begin again where they
    /// end.
    pub open spec fn with_call(self, token: T) -> CallsModel<T> {
        CallsModel {
            pending: self.pending.insert(self.next, token),
            next: if self.next == u64::MAX {
                0
            } else {
                (self.next + 1) as u64
            },
        }
    }

    /// The calls after something came in. An answer ends its call, whether it
    /// can be understood or not.
    pub open spec fn after(self, frame: Seq<u8>) -> CallsModel<T> {
        match parse_envelope(frame) {
            Ok(e) if e.kind == EnvelopeKind::Response => CallsModel {
                pending: self.pending.remove(e.correlation_id),
                ..self
            },
            _ => self,
        }
    }

    /// What has come in.
    pub open spec fn reads(self, frame: Seq<u8>) -> IncomingModel<T> {
        match parse_envelope(frame) {
            Err(_) => IncomingModel::Nothing,
            Ok(e) => match e.kind {
                EnvelopeKind::Response => if self.pending.contains_key(e.correlation_id) {
                    match parse_response(e.body) {
                        Ok(response) => IncomingModel::Answer {
                            token: self.pending[e.correlation_id],
                            response,
                        },
                        Err(_) => IncomingModel::Nothing,
                    }
                } else {
                    IncomingModel::Nothing
                },
                EnvelopeKind::Request => match parse_request(e.body) {
                    Ok(request) => IncomingModel::Request {
                        thread: e.target_thread,
                        request,
                        correlation_id: e.correlation_id,
                    },
                    Err(_) => IncomingModel::Nothing,
                },
            },
        }
    }
}

/// The bytes of a call.
pub open spec fn call_bytes(correlation_id: u64, thread: ThreadId, request: RequestModel) -> Seq<u8> {
    envelope_bytes(
        EnvelopeModel {
            correlation_id,
            kind: EnvelopeKind::Request,
            target_thread: thread,
            body: request_bytes(request),
        },
    )
}

/// The bytes of an answer.
pub open spec fn answer_bytes(correlation_id: u64, response: ResponseModel) -> Seq<u8> {
    envelope_bytes(
        EnvelopeModel {
            correlation_id,
            kind: EnvelopeKind::Response,
            target_thread: ThreadId(0),
            body: response_bytes(response),
        },
    )
}

/// Whether a list holds each call without an answer once, oldest number first.
pub open spec fn lists_calls<T>(pending: Map<u64, T>, calls: Seq<(u64, T)>) -> bool {
    &&& forall|i: int, j: int|
        0 <= i < j < calls.len() ==> (#[trigger] calls[i]).0 < (#[trigger] calls[j]).0
    &&& forall|i: int|
        0 <= i < calls.len() ==> pending.contains_key((#[trigger] calls[i]).0)
            && pending[calls[i].0] == calls[i].1
    &&& forall|k: u64| #[trigger]
        pending.contains_key(k) ==> exists|i: int|
            0 <= i < calls.len() && (#[trigger] calls[i]).0 == k
}

impl<T> PeerCalls<T> {
    pub fn new() -> (calls: Self)
        ensures
            calls@.pending == Map::<u64, T>::empty(),
            calls@.next == 0,
    {
        PeerCalls { pending: BTreeMap::new(), next: 0 }
    }

    /// Makes a call: notes it, and gives the bytes to send.
    pub fn call(&mut self, target_thread: ThreadId, request: &Request, token: T) -> (bytes: Vec<u8>)
        ensures
            bytes@ == call_bytes(old(self)@.next, target_thread, request@),
            final(self)@ == old(self)@.with_call(token),
    {
        let correlation_id: u64 = self.next;
        self.pending.insert(correlation_id, token);
        self.next = correlation_id.wrapping_add(1);
        encode_envelope(
            &Envelope {
                correlation_id,
                kind: EnvelopeKind::Request,
                target_thread,
                body: encode_request(request),
            },
        )
    }

    /// The bytes of an answer to a request of the other node.
    pub fn respond(&self, correlation_id: u64, response: &Response) -> (bytes: Vec<u8>)
        ensures
            bytes@ == answer_bytes(correlation_id, response@),
    {
        encode_envelope(
            &Envelope {
                correlation_id,
                kind: EnvelopeKind::Response,
                target_thread: ThreadId(0),
                body: encode_response(response),
            },
        )
    }

    /// Takes a frame in.
    pub fn received(&mut self, frame: &[u8]) -> (incoming: Incoming<T>)
        ensures
            incoming@ == old(self)@.reads(frame@),
            final(self)@ == old(self)@.after(frame@),
    {
        let envelope = match decode_envelope(frame) {
            Ok(e) => e,
            Err(_) => {
                return Incoming::Nothing;
            },
        };
        match envelope.kind {
            EnvelopeKind::Response => {
                let ghost pending0 = self.pending@;
                let found = self.pending.remove(&envelope.correlation_id);
                assert(self.pending@ =~= pending0.remove(envelope.correlation_id));
                match found {
                    Some(token) => match decode_response(envelope.body.as_slice()) {
                        Ok(response) => Incoming::Answer { token, response },
                        Err(_) => Incoming::Nothing,
                    },
                    None => Incoming::Nothing,
                }
            },
            EnvelopeKind::Request => match decode_request(envelope.body.as_slice()) {
                Ok(request) => Incoming::Request {
                    thread: envelope.target_thread,
                    request,
                    correlation_id: envelope.correlation_id,
                },
                Err(_) => Incoming::Nothing,
            },
        }
    }

    /// The connection is gone: gives up every call without an answer.
    pub fn dropped(&mut self) -> (calls: Vec<(u64, T)>)
        ensures
            lists_calls(old(self)@.pending, calls@),
            final(self)@ == (CallsModel { pending: Map::<u64, T>::empty(), ..old(self)@ }),
    {
        let keys = sorted_keys(&self.pending);
        let ghost before = self.pending@;
        let mut calls: Vec<(u64, T)> = Vec::new();
        let mut i: usize = 0;
        assert forall|j: int| 0 <= j < keys.len() implies before.contains_key(
            #[trigger] keys@[j],
        ) by {
            assert(keys@.contains(keys@[j]));
        }
        while i < keys.len()
            invariant
                i <= keys.len(),
                ascending(keys@),
                forall|k: u64| keys@.contains(k) <==> before.contains_key(k),
                self.next == old(self).next,
                before == old(self).pending@,
                forall|j: int| 0 <= j < keys.len() ==> before.contains_key(#[trigger] keys@[j]),
                forall|k: u64| #[trigger]
                    self.pending@.contains_key(k) ==> before.contains_key(k) && self.pending@[k]
                        == before[k],
                forall|j: int|
                    i <= j < keys.len() ==> self.pending@.contains_key(#[trigger] keys@[j]),
                forall|j: int| 0 <= j < i ==> !self.pending@.contains_key(#[trigger] keys@[j]),
                calls@.len() == i,
                forall|j: int|
                    0 <= j < i ==> (#[trigger] calls@[j]).0 == keys@[j] && calls@[j].1
                        == before[keys@[j]],
            decreases keys.len() - i,
        {
            let k: u64 = keys[i];
            let ghost pending0 = self.pending@;
            if let Some(token) = self.pending.remove(&k) {
                calls.push((k, token));
            }
            assert(self.pending@ == pending0.remove(k));
            i = i + 1;
        }
        assert(self.pending@ =~= Map::empty()) by {
            assert forall|k: u64| !self.pending@.contains_key(k) by {
                if self.pending@.contains_key(k) {
                    assert(keys@.contains(k));
                    let j = choose|j: int| 0 <= j < keys@.len() && keys@[j] == k;
                    assert(!self.pending@.contains_key(keys@[j]));
                }
            }
        }
        assert forall|k: u64| #[trigger] before.contains_key(k) implies exists|i: int|
            0 <= i < calls@.len() && (#[trigger] calls@[i]).0 == k by {
            assert(keys@.contains(k));
            let j = choose|j: int| 0 <= j < keys@.len() && keys@[j] == k;
            assert(calls@[j].0 == k);
        }
        calls
    }
}

/// The answer that a call gets whose connection is gone.
pub fn disconnected() -> (response: Response)
    ensures
        response@ == (ResponseModel::OpError { message: "peer link disconnected"@ }),
{
    Response::OpError { message: copy_text("peer link disconnected") }
}

// ---- connections ----

/// Whether a node opens the connection to a peer.
pub open spec fn opens(self_id: NodeId, peer: NodeId) -> bool {
    self_id.0 < peer.0
}

/// Whether this node opens the connection to a peer. Of two nodes the one with
/// the lower id does, so that there is one connection.
pub fn dials(self_id: NodeId, peer: NodeId) -> (b: bool)
    ensures
        b == opens(self_id, peer),
        b == (self_id.0 < peer.0),
{
    self_id.0 < peer.0
}

/// Of two different nodes exactly one opens the connection.
pub proof fn law_one_dials(a: NodeId, b: NodeId)
    requires
        a != b,
    ensures
        (a.0 < b.0) != (b.0 < a.0),
{
}

/// Of any two different nodes exactly one opens the connection between them, the one
/// with the lower id, and no node opens one to itself.
pub proof fn law_one_connection_between_two(a: NodeId, b: NodeId)
    ensures
        a != b ==> opens(a, b) != opens(b, a),
        opens(a, b) ==> a.0 < b.0,
{
}

/// The bytes by which a node that opens a connection makes itself known.
pub fn preamble(self_id: NodeId) -> (bytes: Vec<u8>)
    ensures
        bytes@ == le64(self_id.0),
{
    let mut bytes: Vec<u8> = Vec::new();
    put_u64(&mut bytes, self_id.0);
    assert(bytes@ =~= le64(self_id.0));
    bytes
}

/// The node that has opened a connection; none, where it did not say enough.
pub fn peer_of(preamble: &[u8]) -> (peer: Option<NodeId>)
    ensures
        peer == (match parse_u64(preamble@) {
            Ok((id, _)) => Some(NodeId(id)),
            Err(_) => None,
        }),
{
    match take_u64(preamble) {
        Ok((id, _)) => Some(NodeId(id)),
        Err(_) => None,
    }
}

/// A node that opens a connection is taken for who it is.
pub proof fn law_preamble(self_id: NodeId)
    ensures
        parse_u64(le64(self_id.0)) matches Ok((id, _)) && id == self_id.0,
{
    lemma_parse_u64(self_id.0, seq![]);
    assert(le64(self_id.0) + seq![] =~= le64(self_id.0));
}

// ---- requests of other nodes ----

/// What is to be done with a request of another node.
#[derive(Debug, PartialEq, Eq)]
pub struct PeerDispatch {
    /// What is answered at once.
    pub answer: Option<Response>,
    /// What the thread is told.
    pub message: Option<WorkerMessage>,
}

/// What a thread is told of a request of another node.
pub open spec fn dispatched(
    request: RequestModel,
    link: u64,
    correlation_id: u64,
) -> Option<MessageModel> {
    match request {
        RequestModel::Acquire { op_id, datum_id, requester_node, requester_thread } => Some(
            MessageModel::Acquire {
                op_id,
                datum_id,
                requester_node,
                requester_thread,
                reply: ReplyTo::Link { link, correlation_id },
            },
        ),
        RequestModel::Recall { datum_id } => Some(
            MessageModel::Recall { datum_id, reply: ReplyTo::Link { link, correlation_id } },
        ),
        RequestModel::Release { datum_id } => Some(MessageModel::Release { datum_id }),
        RequestModel::IndexUpdate { target, op_id, index_kind, payload } => Some(
            MessageModel::IndexUpdate {
                target,
                op_id,
                index_kind,
                payload,
                reply: ReplyTo::Link { link, correlation_id },
            },
        ),
        _ => None,
    }
}

/// Says what is to be done with a request of another node, which came in on the
/// connection `link`. A release is acknowledged without waiting for it.
/// Requests of clients are not answered here.
pub fn dispatch(request: Request, link: u64, correlation_id: u64) -> (d: PeerDispatch)
    ensures
        (match d.message {
            Some(m) => Some(m@),
            None => None,
        }) == dispatched(request@, link, correlation_id),
        (match d.answer {
            Some(r) => Some(r@),
            None => None,
        }) == if request@ is Release {
            Some(ResponseModel::Released)
        } else {
            None
        },
{
    match request {
        Request::Acquire { op_id, datum_id, requester_node, requester_thread } => PeerDispatch {
            answer: None,
            message: Some(
                WorkerMessage::Acquire {
                    op_id,
                    datum_id,
                    requester_node,
                    requester_thread,
                    reply: ReplyTo::Link { link, correlation_id },
                },
            ),
        },
        Request::Recall { datum_id } => PeerDispatch {
            answer: None,
            message: Some(
                WorkerMessage::Recall { datum_id, reply: ReplyTo::Link { link, correlation_id } },
            ),
        },
        Request::Release { datum_id } => PeerDispatch {
            answer: Some(Response::Released),
            message: Some(WorkerMessage::Release { datum_id }),
        },
        Request::IndexUpdate { target, op_id, index_kind, payload } => PeerDispatch {
            answer: None,
            message: Some(
                WorkerMessage::IndexUpdate {
                    target,
                    op_id,
                    index_kind,
                    payload,
                    reply: ReplyTo::Link { link, correlation_id },
                },
            ),
        },
        _ => PeerDispatch { answer: None, message: None },
    }
}

// ---- laws ----

/// An answer goes to the call that it answers, and ends it.
pub proof fn law_answers_find_their_calls<T>(
    calls: CallsModel<T>,
    correlation_id: u64,
    response: ResponseModel,
)
    requires
        calls.pending.contains_key(correlation_id),
        response_fits(response),
    ensures
        calls.reads(answer_bytes(correlation_id, response)) == (IncomingModel::Answer {
            token: calls.pending[correlation_id],
            response,
        }),
        calls.after(answer_bytes(correlation_id, response)).pending == calls.pending.remove(
            correlation_id,
        ),
        calls.after(answer_bytes(correlation_id, response)).reads(
            answer_bytes(correlation_id, response),
        ) == IncomingModel::<T>::Nothing,
{
    law_envelope_round_trip(
        EnvelopeModel {
            correlation_id,
            kind: EnvelopeKind::Response,
            target_thread: ThreadId(0),
            body: response_bytes(response),
        },
    );
    law_response_round_trip(response);
}

/// A call arrives at the other node as it was made, and leaves that node's own
/// calls alone.
pub proof fn law_calls_arrive<T>(
    calls: CallsModel<T>,
    correlation_id: u64,
    thread: ThreadId,
    request: RequestModel,
)
    requires
        request_fits(request),
    ensures
        calls.reads(call_bytes(correlation_id, thread, request)) == (IncomingModel::<T>::Request {
            thread,
            request,
            correlation_id,
        }),
        calls.after(call_bytes(correlation_id, thread, request)) == calls,
{
    law_envelope_round_trip(
        EnvelopeModel {
            correlation_id,
            kind: EnvelopeKind::Request,
            target_thread: thread,
            body: request_bytes(request),
        },
    );
    law_request_round_trip(request);
}

} // verus!
