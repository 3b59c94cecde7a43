//! What a node does with a client's request.
//!
//! A node serves what has its home on it, and sends a client on to the node
//! where everything is that it asks for. An op whose datums are spread over
//! several nodes is served where it arrives: its thread brings them together.

use crate::authority::{NodeId, ThreadId};
use crate::books::{book_get, book_put, book_view, entry};
use crate::datum::DatumId;
use crate::gossip_state::{ClusterModel, ClusterState};
use crate::lb::{
    decode_lb_result, encode_lb_execute_op, encode_lb_query_req, lb_execute_bytes, lb_query_bytes,
    parse_lb_result,
};
use crate::message::result_view;
use crate::request::{Request, RequestModel};
use crate::response::{optional_text, Response, ResponseModel};
use crate::ring::{home, joined, law_weights_of_newcomer, weights_of, Ring, Slot};
use crate::rk::{decode_rk_entries, encode_rk_query_kind, parse_rk_entries, rk_query_bytes};
use crate::text::{copy_text, decimal, joined_text, push_decimal};
use std::collections::BTreeMap;
use vstd::prelude::*;
use vstd::string::*;

verus! {

broadcast use {vstd::std_specs::btree::group_btree_axioms, vstd::laws_cmp::group_laws_cmp};

/// A member of the storage ring.
#[derive(Debug, PartialEq, Eq)]
pub struct StorageMember {
    pub node_id: NodeId,
    pub weight: u32,
    pub store_address: String,
    pub log_id: DatumId,
}

/// The mathematical content of a [`StorageMember`].
pub struct StorageMemberModel {
    pub node_id: NodeId,
    pub weight: u32,
    pub store_address: Seq<char>,
    pub log_id: DatumId,
}

impl View for StorageMember {
    type V = StorageMemberModel;

    open spec fn view(&self) -> StorageMemberModel {
        StorageMemberModel {
            node_id: self.node_id,
            weight: self.weight,
            store_address: self.store_address@,
            log_id: self.log_id,
        }
    }
}

impl Clone for StorageMember {
    fn clone(&self) -> (copy: Self)
        ensures
            copy == *self,
    {
        StorageMember {
            node_id: self.node_id,
            weight: self.weight,
            store_address: self.store_address.clone(),
            log_id: self.log_id,
        }
    }
}

/// Storage members, viewed.
pub open spec fn members_view(members: Seq<StorageMember>) -> Seq<StorageMemberModel> {
    Seq::new(members.len(), |i: int| members[i]@)
}

/// What an operator may ask, whatever state the cluster is in.
#[derive(Debug, PartialEq, Eq)]
pub enum AdminRequest {
    GetClusterConfig,
    Pause { reason: String },
    Resume,
    ClearHalt,
    InstallStorageRing { members: Vec<StorageMember> },
}

/// An answer to an operator.
#[derive(Debug, PartialEq, Eq)]
pub enum AdminReply {
    Ack,
    ClusterConfig { members: Vec<StorageMember> },
}

/// What is asked of the references that wait for their datums.
#[derive(Debug, Clone, Copy, PartialEq, Eq, Structural)]
pub enum FkPendingOp {
    List,
    Remove,
    Insert,
}

/// A request to an index, with a payload that only the index understands.
#[derive(Debug, PartialEq, Eq)]
pub enum IndexedRequest {
    TkExecute { entity_datum_id: DatumId, class: String, payload: Vec<u8> },
    TkQuery { entity_datum_id: DatumId, class: String, payload: Vec<u8> },
    FkPending { pending_datum_id: DatumId, op: FkPendingOp, payload: Vec<u8> },
    ExtentQuery { extent_datum_id: DatumId, payload: Vec<u8> },
    PartitionUpdate { partition_datum_id: DatumId, payload: Vec<u8> },
    /// Whether a datum exists.
    ExistsCheck { datum_id: DatumId },
}

/// What comes in on a client's connection.
#[derive(Debug, PartialEq, Eq)]
pub enum ClientRequest {
    Plain(Request),
    Indexed(IndexedRequest),
    Admin(AdminRequest),
}

/// A result whose codec is the index's own.
#[derive(Debug, Clone, Copy, PartialEq, Eq, Structural)]
pub enum TypedKind {
    Tk,
    FkPending,
    Extent,
    Partition,
}

/// How the result of a request to an index turns into an answer.
#[derive(Debug, Clone, Copy, PartialEq, Eq, Structural)]
pub enum AnswerKind {
    Rk,
    Lb,
    Typed(TypedKind),
}

/// What follows from the result of a request to an index.
#[derive(Debug, PartialEq, Eq)]
pub enum Answer {
    /// Answer.
    Now(Response),
    /// Have the bytes decoded. What comes of it goes to [`decoded`].
    Decode { kind: TypedKind, bytes: Vec<u8> },
}

/// The mathematical content of an [`Answer`].
pub enum AnswerStep {
    Now(ResponseModel),
    Decode { kind: TypedKind, bytes: Seq<u8> },
}

impl View for Answer {
    type V = AnswerStep;

    open spec fn view(&self) -> AnswerStep {
        match self {
            Answer::Now(response) => AnswerStep::Now(response@),
            Answer::Decode { kind, bytes } => AnswerStep::Decode { kind: *kind, bytes: bytes@ },
        }
    }
}

/// An answer to a client: a response of the common protocol, whether a datum
/// exists, or what an index's own codec made of a result.
#[derive(Debug, PartialEq, Eq)]
pub enum ClientReply<T> {
    Response(Response),
    Exists { found: bool },
    Typed(T),
}

/// What is to be done with a request.
#[derive(Debug, PartialEq, Eq)]
pub enum Route {
    /// Close the connection: this is no request of a client's.
    Drop,
    /// Answer at once.
    Reply(Response),
    /// Run an op on a thread of this node.
    RunOp {
        thread: ThreadId,
        op_id: DatumId,
        op_name: String,
        datum_ids: Vec<DatumId>,
        payload: Vec<u8>,
    },
    /// Ask an index on a thread of this node, or have it changed.
    UseIndex {
        thread: ThreadId,
        target: DatumId,
        index_kind: String,
        payload: Vec<u8>,
        change: bool,
        answer: AnswerKind,
    },
    /// See whether a datum exists.
    CheckExists { thread: ThreadId, datum_id: DatumId },
    /// Do what an operator asks.
    Admin(AdminRequest),
}

/// The mathematical content of a [`Route`].
pub enum RouteModel {
    Drop,
    Reply(ResponseModel),
    RunOp {
        thread: ThreadId,
        op_id: DatumId,
        op_name: Seq<char>,
        datum_ids: Seq<DatumId>,
        payload: Seq<u8>,
    },
    UseIndex {
        thread: ThreadId,
        target: DatumId,
        index_kind: Seq<char>,
        payload: Seq<u8>,
        change: bool,
        answer: AnswerKind,
    },
    CheckExists { thread: ThreadId, datum_id: DatumId },
    Admin(AdminRequest),
}

impl View for Route {
    type V = RouteModel;

    open spec fn view(&self) -> RouteModel {
        match self {
            Route::Drop => RouteModel::Drop,
            Route::Reply(r) => RouteModel::Reply(r@),
            Route::RunOp { thread, op_id, op_name, datum_ids, payload } => RouteModel::RunOp {
                thread: *thread,
                op_id: *op_id,
                op_name: op_name@,
                datum_ids: datum_ids@,
                payload: payload@,
            },
            Route::UseIndex { thread, target, index_kind, payload, change, answer } => {
                RouteModel::UseIndex {
                    thread: *thread,
                    target: *target,
                    index_kind: index_kind@,
                    payload: payload@,
                    change: *change,
                    answer: *answer,
                }
            },
            Route::CheckExists { thread, datum_id } => RouteModel::CheckExists {
                thread: *thread,
                datum_id: *datum_id,
            },
            Route::Admin(a) => RouteModel::Admin(*a),
        }
    }
}

// ---- where an op runs ----

/// How many of some datums have their home on a thread of the given number.
pub open spec fn at_home(slots: Seq<Slot>, ids: Seq<DatumId>, thread: u32) -> nat
    decreases ids.len(),
{
    if ids.len() == 0 {
        0
    } else {
        at_home(slots, ids.drop_last(), thread) + if home(slots, ids.last()).1.0 == thread {
            1nat
        } else {
            0nat
        }
    }
}

/// Whether a thread is the one for an op: most of its datums are at home on a
/// thread of that number, and of several such it is the lowest. An op without
/// datums goes to thread zero.
pub open spec fn is_destination(slots: Seq<Slot>, ids: Seq<DatumId>, thread: u32) -> bool {
    if ids.len() == 0 {
        thread == 0
    } else {
        forall|t: u32|
            #[trigger] at_home(slots, ids, t) < at_home(slots, ids, thread) || (at_home(
                slots,
                ids,
                t,
            ) == at_home(slots, ids, thread) && thread <= t)
    }
}

/// The thread for an op.
pub open spec fn destination(slots: Seq<Slot>, ids: Seq<DatumId>) -> ThreadId {
    ThreadId(choose|t: u32| is_destination(slots, ids, t))
}

proof fn lemma_destination_unique(slots: Seq<Slot>, ids: Seq<DatumId>, t: u32)
    requires
        is_destination(slots, ids, t),
    ensures
        destination(slots, ids) == ThreadId(t),
{
    let u = choose|u: u32| is_destination(slots, ids, u);
    if ids.len() > 0 {
        assert(at_home(slots, ids, u) <= at_home(slots, ids, t));
        assert(at_home(slots, ids, t) <= at_home(slots, ids, u));
    }
}

proof fn lemma_at_home_positive(slots: Seq<Slot>, ids: Seq<DatumId>, t: u32) -> (i: int)
    requires
        at_home(slots, ids, t) > 0,
    ensures
        0 <= i < ids.len(),
        home(slots, ids[i]).1.0 == t,
    decreases ids.len(),
{
    if home(slots, ids.last()).1.0 == t {
        ids.len() - 1
    } else {
        lemma_at_home_positive(slots, ids.drop_last(), t)
    }
}

proof fn lemma_at_home_counts(slots: Seq<Slot>, ids: Seq<DatumId>, i: int)
    requires
        0 <= i < ids.len(),
    ensures
        at_home(slots, ids, home(slots, ids[i]).1.0) > 0,
    decreases ids.len(),
{
    if i < ids.len() - 1 {
        lemma_at_home_counts(slots, ids.drop_last(), i);
    }
}

fn count_at_home(ring: &Ring, ids: &Vec<DatumId>, thread: u32) -> (n: usize)
    requires
        ids@.len() > 0 ==> ring@.len() > 0,
    ensures
        n == at_home(ring@, ids@, thread),
        n <= ids@.len(),
{
    let mut n: usize = 0;
    let mut i: usize = 0;
    while i < ids.len()
        invariant
            i <= ids.len(),
            ids@.len() > 0 ==> ring@.len() > 0,
            n == at_home(ring@, ids@.take(i as int), thread),
            n <= i,
        decreases ids.len() - i,
    {
        assert(ids@.take(i + 1).drop_last() =~= ids@.take(i as int));
        if ring.native(ids[i]).1.0 == thread {
            n = n + 1;
        }
        i = i + 1;
    }
    assert(ids@.take(i as int) =~= ids@);
    n
}

/// The thread of this node that an op goes to.
pub fn pick_destination_thread(ring: &Ring, datum_ids: &Vec<DatumId>) -> (thread: ThreadId)
    requires
        datum_ids@.len() > 0 ==> ring@.len() > 0,
    ensures
        thread == destination(ring@, datum_ids@),
        is_destination(ring@, datum_ids@, thread.0),
{
    let mut best: u32 = 0;
    let mut most: usize = 0;
    let mut i: usize = 0;
    while i < datum_ids.len()
        invariant
            i <= datum_ids.len(),
            datum_ids@.len() > 0 ==> ring@.len() > 0,
            i == 0 ==> best == 0 && most == 0,
            i > 0 ==> most > 0,
            most > 0 ==> most == at_home(ring@, datum_ids@, best),
            forall|j: int|
                0 <= j < i ==> ({
                    let t = home(ring@, #[trigger] datum_ids@[j]).1.0;
                    at_home(ring@, datum_ids@, t) < most || (at_home(ring@, datum_ids@, t) == most
                        && best <= t)
                }),
        decreases datum_ids.len() - i,
    {
        let t: u32 = ring.native(datum_ids[i]).1.0;
        let n: usize = count_at_home(ring, datum_ids, t);
        proof {
            lemma_at_home_counts(ring@, datum_ids@, i as int);
        }
        if n > most || (n == most && t < best) {
            best = t;
            most = n;
        }
        i = i + 1;
    }
    proof {
        if datum_ids@.len() > 0 {
            assert forall|t: u32|
                #[trigger] at_home(ring@, datum_ids@, t) < at_home(ring@, datum_ids@, best) || (
                at_home(ring@, datum_ids@, t) == at_home(ring@, datum_ids@, best) && best <= t) by {
                if at_home(ring@, datum_ids@, t) > 0 {
                    let j = lemma_at_home_positive(ring@, datum_ids@, t);
                    assert(home(ring@, datum_ids@[j]).1.0 == t);
                }
            }
        }
        lemma_destination_unique(ring@, datum_ids@, best);
    }
    ThreadId(best)
}

// ---- routing ----

/// Why a client cannot be sent on.
pub open spec fn no_address_text(node_id: NodeId) -> Seq<char> {
    "no known address for node NodeId("@ + decimal(node_id.0 as nat) + ")"@
}

/// Where a client is sent on to.
pub open spec fn sent_on(book: Map<u64, Seq<char>>, node_id: NodeId) -> ResponseModel {
    match entry(book, node_id) {
        Some(address) => ResponseModel::Redirect { address },
        None => ResponseModel::OpError { message: no_address_text(node_id) },
    }
}

fn send_on(book: &BTreeMap<u64, String>, node_id: NodeId) -> (r: Response)
    ensures
        r@ == sent_on(book_view(book@), node_id),
{
    match book_get(book, node_id) {
        Some(address) => Response::Redirect { address },
        None => {
            let mut text = copy_text("no known address for node NodeId(");
            push_decimal(&mut text, node_id.0 as u128);
            text.append(")");
            Response::OpError { message: text }
        },
    }
}

/// The answer to a client that asks about a datum at home elsewhere; none,
/// where it is at home here.
pub open spec fn redirected(
    self_id: NodeId,
    slots: Seq<Slot>,
    book: Map<u64, Seq<char>>,
    id: DatumId,
) -> Option<ResponseModel> {
    if home(slots, id).0 == self_id {
        None
    } else {
        Some(sent_on(book, home(slots, id).0))
    }
}

/// Sends a client on that asks about a datum at home elsewhere.
pub fn redirect_if_foreign(
    self_id: NodeId,
    ring: &Ring,
    book: &BTreeMap<u64, String>,
    datum_id: DatumId,
) -> (r: Option<Response>)
    requires
        ring@.len() > 0,
    ensures
        (match r {
            Some(resp) => Some(resp@),
            None => None,
        }) == redirected(self_id, ring@, book_view(book@), datum_id),
{
    let node_id = ring.native(datum_id).0;
    if node_id == self_id {
        None
    } else {
        Some(send_on(book, node_id))
    }
}

/// Whether all of some datums have their home on the same node, and there are
/// any.
pub open spec fn on_one_node(slots: Seq<Slot>, ids: Seq<DatumId>) -> bool {
    ids.len() > 0 && forall|i: int|
        0 <= i < ids.len() ==> home(slots, #[trigger] ids[i]).0 == home(slots, ids[0]).0
}

/// What is to be done with an op.
pub open spec fn route_op(
    self_id: NodeId,
    slots: Seq<Slot>,
    book: Map<u64, Seq<char>>,
    op_id: DatumId,
    op_name: Seq<char>,
    datum_ids: Seq<DatumId>,
    payload: Seq<u8>,
) -> RouteModel {
    if on_one_node(slots, datum_ids) && home(slots, datum_ids[0]).0 != self_id {
        RouteModel::Reply(sent_on(book, home(slots, datum_ids[0]).0))
    } else {
        RouteModel::RunOp {
            thread: destination(slots, datum_ids),
            op_id,
            op_name,
            datum_ids,
            payload,
        }
    }
}

/// What is to be done with a request to an index.
pub open spec fn route_index(
    self_id: NodeId,
    slots: Seq<Slot>,
    book: Map<u64, Seq<char>>,
    target: DatumId,
    index_kind: Seq<char>,
    payload: Seq<u8>,
    change: bool,
    answer: AnswerKind,
) -> RouteModel {
    match redirected(self_id, slots, book, target) {
        Some(r) => RouteModel::Reply(r),
        None => RouteModel::UseIndex {
            thread: home(slots, target).1,
            target,
            index_kind,
            payload,
            change,
            answer,
        },
    }
}

/// What is to be done with a request of the common protocol.
pub open spec fn route_plain(
    self_id: NodeId,
    slots: Seq<Slot>,
    book: Map<u64, Seq<char>>,
    r: RequestModel,
) -> RouteModel {
    match r {
        RequestModel::Op { op_id, op_name, datum_ids, payload } => route_op(
            self_id,
            slots,
            book,
            op_id,
            op_name,
            datum_ids,
            payload,
        ),
        RequestModel::RkQuery { index_datum_id, query } => route_index(
            self_id,
            slots,
            book,
            index_datum_id,
            "rk"@,
            rk_query_bytes(query),
            false,
            AnswerKind::Rk,
        ),
        RequestModel::LbExecute { board_id, class, op } => route_index(
            self_id,
            slots,
            book,
            board_id,
            "lb:"@ + class,
            lb_execute_bytes(op),
            true,
            AnswerKind::Lb,
        ),
        RequestModel::LbQuery { board_id, class, query } => route_index(
            self_id,
            slots,
            book,
            board_id,
            "lb:"@ + class,
            lb_query_bytes(query),
            false,
            AnswerKind::Lb,
        ),
        _ => RouteModel::Drop,
    }
}

/// Why references are not entered this way.
pub open spec fn insert_refused_text() -> Seq<char> {
    "fk pending inserts arrive via the write path, not this request"@
}

/// What is to be done with a request whose payload an index understands.
pub open spec fn route_indexed(
    self_id: NodeId,
    slots: Seq<Slot>,
    book: Map<u64, Seq<char>>,
    r: IndexedRequest,
) -> RouteModel {
    match r {
        IndexedRequest::TkExecute { entity_datum_id, class, payload } => route_index(
            self_id,
            slots,
            book,
            entity_datum_id,
            "tk:"@ + class@,
            payload@,
            true,
            AnswerKind::Typed(TypedKind::Tk),
        ),
        IndexedRequest::TkQuery { entity_datum_id, class, payload } => route_index(
            self_id,
            slots,
            book,
            entity_datum_id,
            "tk:"@ + class@,
            payload@,
            false,
            AnswerKind::Typed(TypedKind::Tk),
        ),
        IndexedRequest::FkPending { pending_datum_id, op, payload } => match redirected(
            self_id,
            slots,
            book,
            pending_datum_id,
        ) {
            Some(r) => RouteModel::Reply(r),
            None => if op == FkPendingOp::Insert {
                RouteModel::Reply(ResponseModel::OpError { message: insert_refused_text() })
            } else {
                route_index(
                    self_id,
                    slots,
                    book,
                    pending_datum_id,
                    "fk_pending"@,
                    payload@,
                    op == FkPendingOp::Remove,
                    AnswerKind::Typed(TypedKind::FkPending),
                )
            },
        },
        IndexedRequest::ExtentQuery { extent_datum_id, payload } => route_index(
            self_id,
            slots,
            book,
            extent_datum_id,
            "partition"@,
            payload@,
            false,
            AnswerKind::Typed(TypedKind::Extent),
        ),
        IndexedRequest::PartitionUpdate { partition_datum_id, payload } => route_index(
            self_id,
            slots,
            book,
            partition_datum_id,
            "partition"@,
            payload@,
            true,
            AnswerKind::Typed(TypedKind::Partition),
        ),
        IndexedRequest::ExistsCheck { datum_id } => match redirected(
            self_id,
            slots,
            book,
            datum_id,
        ) {
            Some(r) => RouteModel::Reply(r),
            None => RouteModel::CheckExists { thread: home(slots, datum_id).1, datum_id },
        },
    }
}

/// What is to be done with what came in. While the cluster is halted or paused,
/// `refusal` stops all but an operator's requests.
pub open spec fn routed(
    self_id: NodeId,
    slots: Seq<Slot>,
    book: Map<u64, Seq<char>>,
    refusal: Option<Seq<char>>,
    r: ClientRequest,
) -> RouteModel {
    match r {
        ClientRequest::Admin(a) => RouteModel::Admin(a),
        ClientRequest::Plain(p) => match refusal {
            Some(message) => RouteModel::Reply(ResponseModel::OpError { message }),
            None => route_plain(self_id, slots, book, p@),
        },
        ClientRequest::Indexed(i) => match refusal {
            Some(message) => RouteModel::Reply(ResponseModel::OpError { message }),
            None => route_indexed(self_id, slots, book, i),
        },
    }
}

/// Whether a request is an operator's.
pub fn is_admin(request: &ClientRequest) -> (b: bool)
    ensures
        b == (request is Admin),
{
    match request {
        ClientRequest::Admin(_) => true,
        _ => false,
    }
}

/// The node that all of some datums have their home on, if they share one.
fn only_node(ring: &Ring, ids: &Vec<DatumId>) -> (node: Option<NodeId>)
    requires
        ids@.len() > 0 ==> ring@.len() > 0,
    ensures
        node is Some == on_one_node(ring@, ids@),
        node matches Some(n) ==> n == home(ring@, ids@[0]).0,
{
    if ids.len() == 0 {
        return None;
    }
    let first = ring.native(ids[0]).0;
    let mut i: usize = 1;
    while i < ids.len()
        invariant
            1 <= i <= ids.len(),
            ring@.len() > 0,
            first == home(ring@, ids@[0]).0,
            forall|j: int| 0 <= j < i ==> home(ring@, #[trigger] ids@[j]).0 == first,
        decreases ids.len() - i,
    {
        if ring.native(ids[i]).0 != first {
            assert(home(ring@, ids@[i as int]).0 != home(ring@, ids@[0]).0);
            return None;
        }
        i = i + 1;
    }
    Some(first)
}

fn plan_index(
    self_id: NodeId,
    ring: &Ring,
    book: &BTreeMap<u64, String>,
    target: DatumId,
    index_kind: String,
    payload: Vec<u8>,
    change: bool,
    answer: AnswerKind,
) -> (route: Route)
    requires
        ring@.len() > 0,
    ensures
        route@ == route_index(
            self_id,
            ring@,
            book_view(book@),
            target,
            index_kind@,
            payload@,
            change,
            answer,
        ),
{
    match redirect_if_foreign(self_id, ring, book, target) {
        Some(r) => Route::Reply(r),
        None => {
            let thread = ring.native(target).1;
            Route::UseIndex { thread, target, index_kind, payload, change, answer }
        },
    }
}

fn plan_plain(self_id: NodeId, ring: &Ring, book: &BTreeMap<u64, String>, request: Request) -> (route:
    Route)
    requires
        plain_looks_up(request@) ==> ring@.len() > 0,
    ensures
        route@ == route_plain(self_id, ring@, book_view(book@), request@),
{
    match request {
        Request::Op { op_id, op_name, datum_ids, payload } => {
            if let Some(node_id) = only_node(ring, &datum_ids) {
                if node_id != self_id {
                    return Route::Reply(send_on(book, node_id));
                }
            }
            let thread = pick_destination_thread(ring, &datum_ids);
            Route::RunOp { thread, op_id, op_name, datum_ids, payload }
        },
        Request::RkQuery { index_datum_id, query } => plan_index(
            self_id,
            ring,
            book,
            index_datum_id,
            copy_text("rk"),
            encode_rk_query_kind(&query),
            false,
            AnswerKind::Rk,
        ),
        Request::LbExecute { board_id, class, op } => plan_index(
            self_id,
            ring,
            book,
            board_id,
            joined_text("lb:", class.as_str()),
            encode_lb_execute_op(&op),
            true,
            AnswerKind::Lb,
        ),
        Request::LbQuery { board_id, class, query } => plan_index(
            self_id,
            ring,
            book,
            board_id,
            joined_text("lb:", class.as_str()),
            encode_lb_query_req(&query),
            false,
            AnswerKind::Lb,
        ),
        _ => Route::Drop,
    }
}

fn plan_indexed(
    self_id: NodeId,
    ring: &Ring,
    book: &BTreeMap<u64, String>,
    request: IndexedRequest,
) -> (route: Route)
    requires
        ring@.len() > 0,
    ensures
        route@ == route_indexed(self_id, ring@, book_view(book@), request),
{
    match request {
        IndexedRequest::TkExecute { entity_datum_id, class, payload } => plan_index(
            self_id,
            ring,
            book,
            entity_datum_id,
            joined_text("tk:", class.as_str()),
            payload,
            true,
            AnswerKind::Typed(TypedKind::Tk),
        ),
        IndexedRequest::TkQuery { entity_datum_id, class, payload } => plan_index(
            self_id,
            ring,
            book,
            entity_datum_id,
            joined_text("tk:", class.as_str()),
            payload,
            false,
            AnswerKind::Typed(TypedKind::Tk),
        ),
        IndexedRequest::FkPending { pending_datum_id, op, payload } => {
            if let Some(r) = redirect_if_foreign(self_id, ring, book, pending_datum_id) {
                return Route::Reply(r);
            }
            if op == FkPendingOp::Insert {
                return Route::Reply(
                    Response::OpError {
                        message: copy_text(
                            "fk pending inserts arrive via the write path, not this request",
                        ),
                    },
                );
            }
            plan_index(
                self_id,
                ring,
                book,
                pending_datum_id,
                copy_text("fk_pending"),
                payload,
                op == FkPendingOp::Remove,
                AnswerKind::Typed(TypedKind::FkPending),
            )
        },
        IndexedRequest::ExtentQuery { extent_datum_id, payload } => plan_index(
            self_id,
            ring,
            book,
            extent_datum_id,
            copy_text("partition"),
            payload,
            false,
            AnswerKind::Typed(TypedKind::Extent),
        ),
        IndexedRequest::PartitionUpdate { partition_datum_id, payload } => plan_index(
            self_id,
            ring,
            book,
            partition_datum_id,
            copy_text("partition"),
            payload,
            true,
            AnswerKind::Typed(TypedKind::Partition),
        ),
        IndexedRequest::ExistsCheck { datum_id } => match redirect_if_foreign(
            self_id,
            ring,
            book,
            datum_id,
        ) {
            Some(r) => Route::Reply(r),
            None => {
                let thread = ring.native(datum_id).1;
                Route::CheckExists { thread, datum_id }
            },
        },
    }
}

/// Whether the home of a datum has to be known for a request.
pub open spec fn plain_looks_up(request: RequestModel) -> bool {
    match request {
        RequestModel::Op { datum_ids, .. } => datum_ids.len() > 0,
        RequestModel::RkQuery { .. } => true,
        RequestModel::LbExecute { .. } => true,
        RequestModel::LbQuery { .. } => true,
        _ => false,
    }
}

/// Whether the home of a datum has to be known for what came in: never for an
/// operator's request, nor where the cluster does not serve.
pub open spec fn looks_up(refusal: Option<String>, request: ClientRequest) -> bool {
    refusal is None && match request {
        ClientRequest::Admin(_) => false,
        ClientRequest::Plain(p) => plain_looks_up(p@),
        ClientRequest::Indexed(_) => true,
    }
}

/// Whether the home of a datum has to be known for what came in.
pub fn needs_ring(refusal: &Option<String>, request: &ClientRequest) -> (b: bool)
    ensures
        b == looks_up(*refusal, *request),
{
    refusal.is_none() && match request {
        ClientRequest::Admin(_) => false,
        ClientRequest::Plain(p) => match p {
            Request::Op { datum_ids, .. } => datum_ids.len() > 0,
            Request::RkQuery { .. } => true,
            Request::LbExecute { .. } => true,
            Request::LbQuery { .. } => true,
            _ => false,
        },
        ClientRequest::Indexed(_) => true,
    }
}

/// Says what is to be done with what came in on a client's connection.
/// `refusal` is why the cluster does not serve, if it does not.
pub fn route(
    self_id: NodeId,
    ring: &Ring,
    book: &BTreeMap<u64, String>,
    refusal: Option<String>,
    request: ClientRequest,
) -> (route: Route)
    requires
        looks_up(refusal, request) ==> ring@.len() > 0,
    ensures
        route@ == routed(self_id, ring@, book_view(book@), optional_text(refusal), request),
{
    match request {
        ClientRequest::Admin(a) => Route::Admin(a),
        ClientRequest::Plain(p) => match refusal {
            Some(message) => Route::Reply(Response::OpError { message }),
            None => plan_plain(self_id, ring, book, p),
        },
        ClientRequest::Indexed(i) => match refusal {
            Some(message) => Route::Reply(Response::OpError { message }),
            None => plan_indexed(self_id, ring, book, i),
        },
    }
}

// ---- answers ----

/// The answer that the result of an op turns into.
pub open spec fn op_answered(result: Result<Seq<u8>, Seq<char>>) -> ResponseModel {
    match result {
        Ok(payload) => ResponseModel::OpResult { payload },
        Err(message) => ResponseModel::OpError { message },
    }
}

/// Turns the result of an op into an answer.
pub fn op_answer(result: Result<Vec<u8>, String>) -> (r: Response)
    ensures
        r@ == op_answered(result_view(result)),
{
    match result {
        Ok(payload) => Response::OpResult { payload },
        Err(message) => Response::OpError { message },
    }
}

/// What follows from the result of a request to an index.
pub open spec fn answered(answer: AnswerKind, result: Result<Seq<u8>, Seq<char>>) -> AnswerStep {
    match result {
        Err(message) => AnswerStep::Now(ResponseModel::OpError { message }),
        Ok(bytes) => match answer {
            AnswerKind::Rk => AnswerStep::Now(
                match parse_rk_entries(bytes) {
                    Ok(entries) => ResponseModel::RkQueryResult { entries },
                    Err(e) => ResponseModel::OpError {
                        message: "malformed rk query result: "@ + e.text(),
                    },
                },
            ),
            AnswerKind::Lb => AnswerStep::Now(
                match parse_lb_result(bytes) {
                    Ok(result) => ResponseModel::LbResult(result),
                    Err(e) => ResponseModel::OpError {
                        message: "malformed lb result: "@ + e.text(),
                    },
                },
            ),
            AnswerKind::Typed(kind) => AnswerStep::Decode { kind, bytes },
        },
    }
}

/// Turns the result of a request to an index into an answer, or has it decoded.
pub fn answer(kind: AnswerKind, result: Result<Vec<u8>, String>) -> (a: Answer)
    ensures
        a@ == answered(kind, result_view(result)),
{
    match result {
        Err(message) => Answer::Now(Response::OpError { message }),
        Ok(bytes) => match kind {
            AnswerKind::Rk => Answer::Now(
                match decode_rk_entries(bytes.as_slice()) {
                    Ok(entries) => Response::RkQueryResult { entries },
                    Err(e) => Response::OpError {
                        message: joined_text("malformed rk query result: ", e.message().as_str()),
                    },
                },
            ),
            AnswerKind::Lb => Answer::Now(
                match decode_lb_result(bytes.as_slice()) {
                    Ok(result) => Response::LbResult(result),
                    Err(e) => Response::OpError {
                        message: joined_text("malformed lb result: ", e.message().as_str()),
                    },
                },
            ),
            AnswerKind::Typed(kind) => Answer::Decode { kind, bytes },
        },
    }
}

/// What is said of a result that does not decode, before the reason.
pub open spec fn malformed_text(kind: TypedKind) -> Seq<char> {
    match kind {
        TypedKind::Tk => "malformed tk result: "@,
        TypedKind::FkPending => "malformed fk pending result: "@,
        TypedKind::Extent => "malformed extent result: "@,
        TypedKind::Partition => "malformed partition result: "@,
    }
}

/// Answers with what the codec of an index made of a result.
pub fn decoded<T>(kind: TypedKind, result: Result<T, String>) -> (reply: ClientReply<T>)
    ensures
        (match result {
            Ok(value) => reply == ClientReply::Typed(value),
            Err(e) => reply matches ClientReply::Response(r) && r@ == (ResponseModel::OpError {
                message: malformed_text(kind) + e@,
            }),
        }),
{
    match result {
        Ok(value) => ClientReply::Typed(value),
        Err(e) => {
            let start = match kind {
                TypedKind::Tk => "malformed tk result: ",
                TypedKind::FkPending => "malformed fk pending result: ",
                TypedKind::Extent => "malformed extent result: ",
                TypedKind::Partition => "malformed partition result: ",
            };
            ClientReply::Response(Response::OpError { message: joined_text(start, e.as_str()) })
        },
    }
}

/// Answers whether a datum exists.
pub fn existence_reply<T>(found: bool) -> (reply: ClientReply<T>)
    ensures
        reply matches ClientReply::Exists { found: told } && told == found,
{
    ClientReply::Exists { found }
}

// ---- operators ----

/// A member of the storage ring, as far as a cluster knows it.
pub open spec fn known_member(c: ClusterModel, w: (NodeId, u32)) -> StorageMemberModel {
    StorageMemberModel {
        node_id: w.0,
        weight: w.1,
        store_address: match entry(c.addresses, w.0) {
            Some(a) => a,
            None => seq![],
        },
        log_id: if c.identities.contains_key(w.0.0) {
            c.identities[w.0.0]
        } else {
            DatumId::of_rank(0)
        },
    }
}

/// The members of the storage ring with their addresses and logs.
pub open spec fn cluster_config(c: ClusterModel) -> Seq<StorageMemberModel> {
    let w = weights_of(c.storage);
    Seq::new(w.len(), |i: int| known_member(c, w[i]))
}

/// Tells an operator who is in the storage ring.
pub fn get_cluster_config(cluster: &ClusterState) -> (members: Vec<StorageMember>)
    ensures
        members_view(members@) == cluster_config(cluster@),
{
    let weights = cluster.storage_ring.weights();
    let mut members: Vec<StorageMember> = Vec::new();
    let mut i: usize = 0;
    assert(members_view(members@) =~= cluster_config(cluster@).take(0));
    while i < weights.len()
        invariant
            i <= weights.len(),
            weights@ == weights_of(cluster@.storage),
            members_view(members@) == cluster_config(cluster@).take(i as int),
        decreases weights.len() - i,
    {
        let (node_id, weight) = weights[i];
        let store_address = match book_get(&cluster.store_addresses, node_id) {
            Some(a) => a,
            None => String::new(),
        };
        let log_id = match cluster.identity_book.get(&node_id.0) {
            Some(id) => *id,
            None => DatumId::from_rank(0),
        };
        let ghost before = members_view(members@);
        let member = StorageMember { node_id, weight, store_address, log_id };
        assert(member@ == known_member(cluster@, weights@[i as int]));
        members.push(member);
        assert(members_view(members@) =~= before.push(member@));
        assert(cluster_config(cluster@).take(i + 1) =~= cluster_config(cluster@).take(
            i as int,
        ).push(cluster_config(cluster@)[i as int]));
        i = i + 1;
    }
    assert(cluster_config(cluster@).take(i as int) =~= cluster_config(cluster@));
    members
}

/// The weights of members, in order.
pub open spec fn member_weights(members: Seq<StorageMemberModel>) -> Seq<(NodeId, u32)> {
    Seq::new(members.len(), |i: int| (members[i].node_id, members[i].weight))
}

/// The addresses of members that have one.
pub open spec fn member_addresses(members: Seq<StorageMemberModel>) -> Map<u64, Seq<char>>
    decreases members.len(),
{
    if members.len() == 0 {
        Map::empty()
    } else {
        let before = member_addresses(members.drop_last());
        if members.last().store_address.len() > 0 {
            before.insert(members.last().node_id.0, members.last().store_address)
        } else {
            before
        }
    }
}

/// The logs of members.
pub open spec fn member_logs(members: Seq<StorageMemberModel>) -> Map<u64, DatumId>
    decreases members.len(),
{
    if members.len() == 0 {
        Map::empty()
    } else {
        member_logs(members.drop_last()).insert(members.last().node_id.0, members.last().log_id)
    }
}

/// The cluster with another storage ring. Which nodes are alive is not for the
/// ring to say.
pub open spec fn installed(c: ClusterModel, members: Seq<StorageMemberModel>) -> ClusterModel {
    ClusterModel {
        storage: joined(member_weights(members)),
        addresses: member_addresses(members),
        identities: member_logs(members),
        ..c
    }
}

/// Replaces the storage ring, and what is known of its members, by the given
/// ones, in the given order.
pub fn install_storage_ring(cluster: &mut ClusterState, members: &Vec<StorageMember>)
    ensures
        final(cluster)@ == installed(old(cluster)@, members_view(members@)),
{
    let ghost all = members_view(members@);
    let mut weights: Vec<(NodeId, u32)> = Vec::new();
    cluster.store_addresses = BTreeMap::new();
    cluster.identity_book = BTreeMap::new();
    assert(book_view(cluster.store_addresses@) =~= Map::empty());
    let mut i: usize = 0;
    while i < members.len()
        invariant
            i <= members.len(),
            all == members_view(members@),
            weights@ == member_weights(all).take(i as int),
            cluster.compute_ring == old(cluster).compute_ring,
            cluster.storage_stale == old(cluster).storage_stale,
            cluster.halt == old(cluster).halt,
            book_view(cluster.store_addresses@) == member_addresses(all.take(i as int)),
            cluster.identity_book@ == member_logs(all.take(i as int)),
            cluster.storage_alive == old(cluster).storage_alive,
        decreases members.len() - i,
    {
        let m = &members[i];
        assert(all.take(i + 1).drop_last() =~= all.take(i as int));
        assert(all[i as int] == m@);
        weights.push((m.node_id, m.weight));
        assert(member_weights(all).take(i + 1) =~= member_weights(all).take(i as int).push(
            member_weights(all)[i as int],
        ));
        if !m.store_address.as_str().is_empty() {
            book_put(&mut cluster.store_addresses, m.node_id, m.store_address.as_str());
        }
        cluster.identity_book.insert(m.node_id.0, m.log_id);
        i = i + 1;
    }
    assert(all.take(i as int) =~= all);
    assert(member_weights(all).take(i as int) =~= member_weights(all));
    cluster.storage_ring = Ring::from_members(weights.as_slice());
}

/// The cluster after an operator's request.
pub open spec fn administered(c: ClusterModel, a: AdminRequest) -> ClusterModel {
    match a {
        AdminRequest::GetClusterConfig => c,
        AdminRequest::Pause { reason } => ClusterModel { halt: c.halt.after_pause(reason@), ..c },
        AdminRequest::Resume => ClusterModel { halt: c.halt.after_resume(), ..c },
        AdminRequest::ClearHalt => ClusterModel { halt: c.halt.after_clear(), ..c },
        AdminRequest::InstallStorageRing { members } => installed(c, members_view(members@)),
    }
}

/// Does what an operator asks.
pub fn administer(cluster: &mut ClusterState, request: AdminRequest) -> (reply: AdminReply)
    ensures
        final(cluster)@ == administered(old(cluster)@, request),
        (match reply {
            AdminReply::ClusterConfig { members } => request is GetClusterConfig && members_view(
                members@,
            ) == cluster_config(old(cluster)@),
            AdminReply::Ack => !(request is GetClusterConfig),
        }),
{
    match request {
        AdminRequest::GetClusterConfig => AdminReply::ClusterConfig {
            members: get_cluster_config(cluster),
        },
        AdminRequest::Pause { reason } => {
            cluster.halt.pause(reason);
            AdminReply::Ack
        },
        AdminRequest::Resume => {
            cluster.halt.resume();
            AdminReply::Ack
        },
        AdminRequest::ClearHalt => {
            cluster.halt.clear_halt();
            AdminReply::Ack
        },
        AdminRequest::InstallStorageRing { members } => {
            install_storage_ring(cluster, &members);
            AdminReply::Ack
        },
    }
}

// ---- laws ----

/// While the cluster is halted or paused, every client is told why and nothing is
/// served but what operators ask.
pub proof fn law_gate_stops_clients(
    self_id: NodeId,
    slots: Seq<Slot>,
    book: Map<u64, Seq<char>>,
    message: Seq<char>,
    r: ClientRequest,
)
    ensures
        !(r is Admin) ==> routed(self_id, slots, book, Some(message), r) == RouteModel::Reply(
            ResponseModel::OpError { message },
        ),
        r matches ClientRequest::Admin(a) ==> routed(self_id, slots, book, Some(message), r)
            == RouteModel::Admin(a),
{
}

/// A client is never sent on to the node that it asked.
pub proof fn law_no_redirect_to_self(
    self_id: NodeId,
    slots: Seq<Slot>,
    book: Map<u64, Seq<char>>,
    op_id: DatumId,
    op_name: Seq<char>,
    datum_ids: Seq<DatumId>,
    payload: Seq<u8>,
)
    requires
        forall|i: int|
            0 <= i < datum_ids.len() ==> home(slots, #[trigger] datum_ids[i]).0 == self_id,
    ensures
        route_op(self_id, slots, book, op_id, op_name, datum_ids, payload) is RunOp,
{
    if datum_ids.len() > 0 {
        assert(home(slots, datum_ids[0]).0 == self_id);
    }
}

/// What an operator installs is what an operator is then told, where the
/// members are different nodes with weights and addresses.
pub proof fn law_installed_ring_is_reported(c: ClusterModel, members: Seq<StorageMemberModel>)
    requires
        forall|i: int, j: int|
            0 <= i < j < members.len() ==> (#[trigger] members[i]).node_id != (
            #[trigger] members[j]).node_id,
        forall|i: int|
            0 <= i < members.len() ==> (#[trigger] members[i]).weight > 0
                && members[i].store_address.len() > 0,
    ensures
        cluster_config(installed(c, members)) == members,
{
    lemma_installed(members);
    let i = installed(c, members);
    let w = weights_of(i.storage);
    assert(w == member_weights(members));
    assert(cluster_config(i) =~= members) by {
        assert forall|k: int| 0 <= k < members.len() implies #[trigger] cluster_config(i)[k]
            == members[k] by {
            lemma_book_entry(members, k);
        }
    }
}

proof fn lemma_installed(members: Seq<StorageMemberModel>)
    requires
        forall|i: int, j: int|
            0 <= i < j < members.len() ==> (#[trigger] members[i]).node_id != (
            #[trigger] members[j]).node_id,
        forall|i: int| 0 <= i < members.len() ==> (#[trigger] members[i]).weight > 0,
    ensures
        weights_of(joined(member_weights(members))) == member_weights(members),
    decreases members.len(),
{
    let w = member_weights(members);
    if members.len() == 0 {
        assert(w =~= seq![]);
    } else {
        let head = members.drop_last();
        assert forall|i: int, j: int| 0 <= i < j < head.len() implies (#[trigger] head[i]).node_id
            != (#[trigger] head[j]).node_id by {
            assert(members[i].node_id != members[j].node_id);
        }
        assert forall|i: int| 0 <= i < head.len() implies (#[trigger] head[i]).weight > 0 by {
            assert(members[i].weight > 0);
        }
        lemma_installed(head);
        assert(w.drop_last() =~= member_weights(head));
        let last = members.last();
        assert(members[members.len() - 1].weight > 0);
        let heads = member_weights(head);
        assert forall|i: int| 0 <= i < heads.len() implies (#[trigger] heads[i]).0
            != last.node_id by {
            assert(heads[i].0 == members[i].node_id);
            assert(members[i].node_id != members[members.len() - 1].node_id);
        }
        law_weights_of_newcomer(heads, last.node_id, last.weight);
        assert(w =~= member_weights(head).push((last.node_id, last.weight)));
    }
}

proof fn lemma_book_entry(members: Seq<StorageMemberModel>, k: int)
    requires
        0 <= k < members.len(),
        forall|i: int, j: int|
            0 <= i < j < members.len() ==> (#[trigger] members[i]).node_id != (
            #[trigger] members[j]).node_id,
        forall|i: int| 0 <= i < members.len() ==> (#[trigger] members[i]).store_address.len() > 0,
    ensures
        member_addresses(members).contains_key(members[k].node_id.0),
        member_addresses(members)[members[k].node_id.0] == members[k].store_address,
        member_logs(members).contains_key(members[k].node_id.0),
        member_logs(members)[members[k].node_id.0] == members[k].log_id,
    decreases members.len(),
{
    let head = members.drop_last();
    if k < members.len() - 1 {
        assert forall|i: int, j: int| 0 <= i < j < head.len() implies (#[trigger] head[i]).node_id
            != (#[trigger] head[j]).node_id by {
            assert(members[i].node_id != members[j].node_id);
        }
        assert forall|i: int| 0 <= i < head.len() implies (
        #[trigger] head[i]).store_address.len() > 0 by {
            assert(members[i].store_address.len() > 0);
        }
        lemma_book_entry(head, k);
        assert(members[k].node_id != members[members.len() - 1].node_id);
        assert(head[k] == members[k]);
    } else {
        assert(members[k].store_address.len() > 0);
    }
}

} // verus!
