//! Where requests go and what clients and operators are told.

use crate::authority::{NodeId, ThreadId};
use crate::datum::DatumId;
use crate::gossip_state::ClusterModel;
use crate::halt::HaltModel;
use crate::lb::{
    law_lb_result_round_trip, lb_execute_bytes, lb_query_bytes, lb_result_bytes, lb_result_fits,
    LbResultModel,
};
use crate::request::RequestModel;
use crate::response::{optional_text, ResponseModel};
use crate::ring::{home, Slot};
use crate::rk::{law_rk_entries_round_trip, rk_entries_bytes, rk_query_bytes, RK_RANK_KEY_LEN};
use crate::server::{
    administered, answered, at_home, destination, is_destination, looks_up, no_address_text,
    op_answered, routed, AdminRequest, AnswerKind, AnswerStep, ClientRequest, FkPendingOp,
    IndexedRequest, RouteModel, TypedKind,
};
use vstd::prelude::*;

verus! {

/// Whether a route sends the client on to a node, or says that nobody knows where
/// that is.
pub open spec fn sends_on(book: Map<u64, Seq<char>>, node: NodeId, route: RouteModel) -> bool {
    if book.contains_key(node.0) {
        route == RouteModel::Reply(ResponseModel::Redirect { address: book[node.0] })
    } else {
        route == RouteModel::Reply(ResponseModel::OpError { message: no_address_text(node) })
    }
}

/// An op whose datums are all at home on one other node is sent on to that node.
/// Every other op runs here, as it came: where a datum is at home here, where the
/// datums are at home on different nodes, and where there is none.
pub proof fn law_op_is_sent_on_or_runs(
    self_id: NodeId,
    slots: Seq<Slot>,
    book: Map<u64, Seq<char>>,
    r: ClientRequest,
    op_id: DatumId,
    op_name: Seq<char>,
    datum_ids: Seq<DatumId>,
    payload: Seq<u8>,
    i: int,
    j: int,
)
    requires
        r matches ClientRequest::Plain(p) && p@ == (RequestModel::Op {
            op_id,
            op_name,
            datum_ids,
            payload,
        }),
    ensures
        ({
            let route = routed(self_id, slots, book, None, r);
            let there = home(slots, datum_ids[0]).0;
            let runs = route matches RouteModel::RunOp {
                op_id: o,
                op_name: name,
                datum_ids: ids,
                payload: p,
                ..
            } && o == op_id && name == op_name && ids == datum_ids && p == payload;
            &&& datum_ids.len() > 0 && there != self_id && (forall|k: int|
                0 <= k < datum_ids.len() ==> home(slots, #[trigger] datum_ids[k]).0 == there)
                ==> sends_on(book, there, route)
            &&& 0 <= i < datum_ids.len() && home(slots, datum_ids[i]).0 == self_id ==> runs
            &&& 0 <= i < datum_ids.len() && 0 <= j < datum_ids.len() && home(
                slots,
                datum_ids[i],
            ).0 != home(slots, datum_ids[j]).0 ==> runs
            &&& datum_ids.len() == 0 ==> runs
        }),
{
}

/// Of a list of datums, those that are at home on a thread of some number.
pub open spec fn those_at_home(slots: Seq<Slot>, ids: Seq<DatumId>, thread: u32) -> Seq<DatumId> {
    ids.filter(|id: DatumId| home(slots, id).1.0 == thread)
}

proof fn lemma_at_home(slots: Seq<Slot>, ids: Seq<DatumId>, thread: u32)
    ensures
        those_at_home(slots, ids, thread).len() == at_home(slots, ids, thread),
    decreases ids.len(),
{
    reveal(Seq::filter);
    if ids.len() > 0 {
        lemma_at_home(slots, ids.drop_last(), thread);
    }
}

/// An op runs on the thread where most of its datums are at home, and on the lowest
/// of several such, so that as few as possible have to be fetched.
pub proof fn law_op_runs_where_most_datums_are(slots: Seq<Slot>, ids: Seq<DatumId>, t: ThreadId)
    requires
        ids.len() > 0,
    ensures
        ({
            let best = destination(slots, ids);
            let here = those_at_home(slots, ids, best.0).len();
            let there = those_at_home(slots, ids, t.0).len();
            there < here || there == here && best.0 <= t.0
        }),
        destination(slots, seq![]) == ThreadId(0),
{
    let best = destination(slots, ids);
    lemma_at_home(slots, ids, best.0);
    lemma_at_home(slots, ids, t.0);
    let found = lemma_destination(slots, ids, u32::MAX);
    assert(is_destination(slots, ids, found));
    assert(is_destination(slots, ids, best.0));
    assert(is_destination(slots, seq![], 0));
}

proof fn lemma_destination(slots: Seq<Slot>, ids: Seq<DatumId>, last: u32) -> (best: u32)
    ensures
        best <= last,
        forall|t: u32|
            t <= last ==> #[trigger] at_home(slots, ids, t) < at_home(slots, ids, best) || at_home(
                slots,
                ids,
                t,
            ) == at_home(slots, ids, best) && best <= t,
    decreases last,
{
    if last == 0 {
        0
    } else {
        let before = lemma_destination(slots, ids, (last - 1) as u32);
        if at_home(slots, ids, last) > at_home(slots, ids, before) {
            last
        } else {
            before
        }
    }
}

/// Whether a route has an index used where it is at home: there, with the payload
/// as it came, and else the client is sent on.
pub open spec fn uses_index(
    self_id: NodeId,
    slots: Seq<Slot>,
    book: Map<u64, Seq<char>>,
    target: DatumId,
    index_kind: Seq<char>,
    payload: Seq<u8>,
    change: bool,
    answer: AnswerKind,
    route: RouteModel,
) -> bool {
    if home(slots, target).0 != self_id {
        sends_on(book, home(slots, target).0, route)
    } else {
        route == (RouteModel::UseIndex {
            thread: home(slots, target).1,
            target,
            index_kind,
            payload,
            change,
            answer,
        })
    }
}

/// A request of the common protocol to an index is for the index that it names, at
/// its home. A query changes nothing; only an execution does. What nodes say to
/// each other is not for clients.
pub proof fn law_plain_requests_reach_their_index(
    self_id: NodeId,
    slots: Seq<Slot>,
    book: Map<u64, Seq<char>>,
    r: ClientRequest,
    p: RequestModel,
)
    requires
        r matches ClientRequest::Plain(q) && q@ == p,
    ensures
        ({
            let route = routed(self_id, slots, book, None, r);
            &&& p matches RequestModel::RkQuery { index_datum_id, query } ==> uses_index(
                self_id,
                slots,
                book,
                index_datum_id,
                "rk"@,
                rk_query_bytes(query),
                false,
                AnswerKind::Rk,
                route,
            )
            &&& p matches RequestModel::LbExecute { board_id, class, op } ==> uses_index(
                self_id,
                slots,
                book,
                board_id,
                "lb:"@ + class,
                lb_execute_bytes(op),
                true,
                AnswerKind::Lb,
                route,
            )
            &&& p matches RequestModel::LbQuery { board_id, class, query } ==> uses_index(
                self_id,
                slots,
                book,
                board_id,
                "lb:"@ + class,
                lb_query_bytes(query),
                false,
                AnswerKind::Lb,
                route,
            )
            &&& p is Acquire || p is Recall || p is Release || p is IndexUpdate ==> route
                == RouteModel::Drop
        }),
{
}

/// A request whose payload an index understands reaches that index, at its home,
/// with its payload: changes as changes, and queries as queries. References are
/// not entered this way, and whether a datum exists is asked where it is at home.
pub proof fn law_indexed_requests_reach_their_index(
    self_id: NodeId,
    slots: Seq<Slot>,
    book: Map<u64, Seq<char>>,
    q: IndexedRequest,
)
    ensures
        ({
            let route = routed(self_id, slots, book, None, ClientRequest::Indexed(q));
            &&& q matches IndexedRequest::TkExecute { entity_datum_id, class, payload }
                ==> uses_index(
                self_id,
                slots,
                book,
                entity_datum_id,
                "tk:"@ + class@,
                payload@,
                true,
                AnswerKind::Typed(TypedKind::Tk),
                route,
            )
            &&& q matches IndexedRequest::TkQuery { entity_datum_id, class, payload }
                ==> uses_index(
                self_id,
                slots,
                book,
                entity_datum_id,
                "tk:"@ + class@,
                payload@,
                false,
                AnswerKind::Typed(TypedKind::Tk),
                route,
            )
            &&& q matches IndexedRequest::FkPending { pending_datum_id, op, payload } ==> {
                &&& op != FkPendingOp::Insert ==> uses_index(
                    self_id,
                    slots,
                    book,
                    pending_datum_id,
                    "fk_pending"@,
                    payload@,
                    op == FkPendingOp::Remove,
                    AnswerKind::Typed(TypedKind::FkPending),
                    route,
                )
                &&& op == FkPendingOp::Insert && home(slots, pending_datum_id).0 != self_id
                    ==> sends_on(book, home(slots, pending_datum_id).0, route)
                &&& op == FkPendingOp::Insert && home(slots, pending_datum_id).0 == self_id ==> (
                route matches RouteModel::Reply(a) && a is OpError)
            }
            &&& q matches IndexedRequest::ExtentQuery { extent_datum_id, payload } ==> uses_index(
                self_id,
                slots,
                book,
                extent_datum_id,
                "partition"@,
                payload@,
                false,
                AnswerKind::Typed(TypedKind::Extent),
                route,
            )
            &&& q matches IndexedRequest::PartitionUpdate { partition_datum_id, payload }
                ==> uses_index(
                self_id,
                slots,
                book,
                partition_datum_id,
                "partition"@,
                payload@,
                true,
                AnswerKind::Typed(TypedKind::Partition),
                route,
            )
            &&& q matches IndexedRequest::ExistsCheck { datum_id } ==> if home(slots, datum_id).0
                == self_id {
                route == (RouteModel::CheckExists { thread: home(slots, datum_id).1, datum_id })
            } else {
                sends_on(book, home(slots, datum_id).0, route)
            }
        }),
{
}

/// A client that is sent on reaches its datums: a node to which it was sent on does not send
/// it on again, where the two agree on the ring.
pub proof fn law_sent_on_once(
    first: NodeId,
    slots: Seq<Slot>,
    book: Map<u64, Seq<char>>,
    books: Map<u64, Seq<char>>,
    q: ClientRequest,
    address: Seq<char>,
    node: NodeId,
    i: int,
)
    requires
        routed(first, slots, book, None, q) == RouteModel::Reply(
            ResponseModel::Redirect { address },
        ),
        q matches ClientRequest::Plain(p) && (p@ matches RequestModel::Op { datum_ids, .. } && 0
            <= i < datum_ids.len() && home(slots, datum_ids[i]).0 == node),
    ensures
        book.contains_key(node.0),
        book[node.0] == address,
        routed(node, slots, books, None, q) is RunOp,
{
}

/// A client gets the result of its op, or the message with which it failed.
pub proof fn law_result_reaches_the_client(payload: Seq<u8>, message: Seq<char>)
    ensures
        op_answered(Ok(payload)) == (ResponseModel::OpResult { payload }),
        op_answered(Err(message)) == (ResponseModel::OpError { message }),
{
}

/// What an index answers reaches the client: entries and boards as the index
/// encoded them, what has a codec of its own as it is, and a failure as one.
pub proof fn law_index_answers_reach_the_client(
    kind: AnswerKind,
    typed: TypedKind,
    bytes: Seq<u8>,
    message: Seq<char>,
    entries: Seq<(Seq<u8>, DatumId)>,
    board: LbResultModel,
)
    requires
        entries.len() <= u32::MAX,
        forall|i: int|
            0 <= i < entries.len() ==> (#[trigger] entries[i]).0.len() == RK_RANK_KEY_LEN,
        lb_result_fits(board),
    ensures
        answered(kind, Err(message)) == AnswerStep::Now(ResponseModel::OpError { message }),
        answered(AnswerKind::Rk, Ok(rk_entries_bytes(entries))) == AnswerStep::Now(
            ResponseModel::RkQueryResult { entries },
        ),
        answered(AnswerKind::Lb, Ok(lb_result_bytes(board))) == AnswerStep::Now(
            ResponseModel::LbResult(board),
        ),
        answered(AnswerKind::Typed(typed), Ok(bytes)) == (AnswerStep::Decode {
            kind: typed,
            bytes,
        }),
{
    law_rk_entries_round_trip(entries);
    law_lb_result_round_trip(board);
}

/// Clients are turned away exactly while the cluster is halted or paused. The
/// message ends with the reason: of a halt the first, of a pause the last.
pub proof fn law_clients_are_told_why(h: HaltModel, reason: Seq<char>)
    ensures
        h.refusal() is None <==> !h.halted && !h.paused,
        h.after_pause(reason).paused && h.after_pause(reason).halted == h.halted,
        h.after_halt(reason).halted && h.after_halt(reason).paused == h.paused,
        !h.after_resume().paused && h.after_resume().halted == h.halted,
        !h.after_clear().halted && h.after_clear().paused == h.paused,
        !h.halted ==> ends_with(h.after_pause(reason).refusal(), reason),
        h.reason is None ==> ends_with(h.after_halt(reason).refusal(), reason),
        h.reason matches Some(first) ==> ends_with(h.after_halt(reason).refusal(), first),
{
    if !h.halted {
        lemma_ends("cluster paused: "@, reason);
    }
    let first = match h.reason {
        Some(first) => first,
        None => reason,
    };
    lemma_ends("cluster halted: "@, first);
    lemma_ends(seq![], first);
    assert(Seq::<char>::empty() + first =~= first);
}

/// Whether there is a message that ends with a text.
pub open spec fn ends_with(message: Option<Seq<char>>, text: Seq<char>) -> bool {
    message matches Some(m) && m.len() >= text.len() && m.skip(m.len() - text.len()) == text
}

proof fn lemma_ends(start: Seq<char>, text: Seq<char>)
    ensures
        ends_with(Some(start + text), text),
{
    let m = start + text;
    assert(m.skip(m.len() - text.len()) =~= text);
}

/// What an operator does to a cluster: asking changes nothing, a pause stops the
/// clients and its end lets them in again unless there is a halt, and only lifting
/// a halt ends one. None of these touches a ring.
pub proof fn law_operator_requests(c: ClusterModel, a: AdminRequest)
    ensures
        ({
            let after = administered(c, a);
            &&& a is GetClusterConfig ==> after == c
            &&& a is Pause ==> after.halt.paused && after.halt.refusal() is Some
            &&& a is Resume ==> !after.halt.paused && (after.halt.refusal() is None
                <==> !c.halt.halted)
            &&& a is ClearHalt ==> !after.halt.halted && (after.halt.refusal() is None
                <==> !c.halt.paused)
            &&& !(a is ClearHalt) ==> after.halt.halted == c.halt.halted && after.halt.reason
                == c.halt.reason
            &&& after.compute == c.compute
            &&& after.alive == c.alive
            &&& after.stale == c.stale
            &&& !(a is InstallStorageRing) ==> after.storage == c.storage && after.addresses
                == c.addresses && after.identities == c.identities
            &&& a is InstallStorageRing ==> after.halt == c.halt
        }),
{
}

/// A request for which the ring is said not to be needed goes the same way whatever
/// the ring is.
pub proof fn law_ring_is_not_needed_for_a_request(
    self_id: NodeId,
    book: Map<u64, Seq<char>>,
    refusal: Option<String>,
    r: ClientRequest,
    a: Seq<Slot>,
    b: Seq<Slot>,
)
    requires
        !looks_up(refusal, r),
    ensures
        routed(self_id, a, book, optional_text(refusal), r) == routed(
            self_id,
            b,
            book,
            optional_text(refusal),
            r,
        ),
{
    assert(is_destination(a, seq![], 0));
    assert(is_destination(b, seq![], 0));
    if let ClientRequest::Plain(p) = r {
        if let RequestModel::Op { datum_ids, .. } = p@ {
            if datum_ids.len() == 0 {
                assert(datum_ids =~= seq![]);
            }
        }
    }
}

} // verus!
