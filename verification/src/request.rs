//! What a client asks of a node, and nodes of each other, on the wire.
//!
//! Every request to change or read a datum is an op: a plain read or write is
//! an op that does just that. An op carries an id that the client made, by
//! which older ops go before younger ones.

use crate::authority::{NodeId, ThreadId};
use crate::bytes::{
    copy_of, le32, le64, lemma_append_associates, lemma_le_len, lemma_parse_text, lemma_parse_u32,
    lemma_parse_u64, lemma_read_integers, lemma_read_text, parse_text, parse_u32, parse_u64,
    put_raw, put_text, put_u32, put_u64, put_u8, rest_of, take_text, take_u32, take_u64, text_field,
};
use crate::datum::{lemma_id_len, lemma_parse_id, lemma_read_id, parse_id, put_id, take_id, DatumId};
use crate::lb::{
    decode_lb_execute_op, decode_lb_query_req, law_lb_execute_is_its_encoding,
    law_lb_execute_round_trip, law_lb_query_is_its_encoding, law_lb_query_round_trip,
    lb_execute_bytes, lb_execute_fits, lb_query_bytes, parse_lb_execute, parse_lb_query,
    put_lb_execute_op, put_lb_query_req, LbExecuteModel, LbExecuteOp, LbQueryModel, LbQueryReq,
};
use crate::list_wire::{
    lemma_list_round_trip, lemma_read_ids, list_field, models, parse_list, put_list, take_list,
};
use crate::rk::{
    decode_rk_query_kind, encode_rk_query_kind, law_rk_query_is_its_encoding, law_rk_query_round_trip,
    parse_rk_query,
    rk_query_bytes, RkQueryKind,
};
use crate::wire_error::{Header, Missing, Part, Subject, Tag, TextField, WireError};
use vstd::prelude::*;
use vstd::utf8::encode_utf8;

verus! {

/// The version of the protocol between clients and nodes and between nodes,
/// the first byte of every request and response.
pub const PROTOCOL_VERSION: u8 = 1;

pub const OP_OP: u8 = 1;

pub const OP_ACQUIRE: u8 = 2;

pub const OP_RECALL: u8 = 3;

pub const OP_RELEASE: u8 = 4;

pub const OP_INDEX_UPDATE: u8 = 5;

pub const OP_RK_QUERY: u8 = 6;

pub const OP_LB_EXECUTE: u8 = 7;

pub const OP_LB_QUERY: u8 = 8;

/// The length of an acquire behind its version byte.
pub const ACQUIRE_LEN: usize = 45;

/// The length of a recall or a release behind its version byte.
pub const RECALL_LEN: usize = 17;

/// The length of a query of a ranked index behind its version byte.
pub const RK_QUERY_REQUEST_LEN: usize = 22;

/// A request to a node.
#[derive(Debug, Clone, PartialEq, Eq)]
pub enum Request {
    /// Runs a registered op on some datums.
    Op { op_id: DatumId, op_name: String, datum_ids: Vec<DatumId>, payload: Vec<u8> },
    /// Between nodes: asks the addressed thread for the lock on `datum_id` on
    /// behalf of `op_id`.
    Acquire {
        op_id: DatumId,
        datum_id: DatumId,
        requester_node: NodeId,
        requester_thread: ThreadId,
    },
    /// Between nodes: asks the addressed thread to evict and give up
    /// `datum_id` now.
    Recall { datum_id: DatumId },
    /// Between nodes: tells the home of `datum_id` that the sender is done
    /// with it.
    Release { datum_id: DatumId },
    /// Between nodes: applies one update to the addressed index datum on behalf
    /// of `op_id`.
    IndexUpdate { target: DatumId, op_id: DatumId, index_kind: String, payload: Vec<u8> },
    /// Reads from a ranked index.
    RkQuery { index_datum_id: DatumId, query: RkQueryKind },
    /// Changes a leaderboard of the index kind `lb:{class}`.
    LbExecute { board_id: DatumId, class: String, op: LbExecuteOp },
    /// Reads from a leaderboard.
    LbQuery { board_id: DatumId, class: String, query: LbQueryReq },
}

/// The mathematical content of a [`Request`].
pub enum RequestModel {
    Op { op_id: DatumId, op_name: Seq<char>, datum_ids: Seq<DatumId>, payload: Seq<u8> },
    Acquire {
        op_id: DatumId,
        datum_id: DatumId,
        requester_node: NodeId,
        requester_thread: ThreadId,
    },
    Recall { datum_id: DatumId },
    Release { datum_id: DatumId },
    IndexUpdate { target: DatumId, op_id: DatumId, index_kind: Seq<char>, payload: Seq<u8> },
    RkQuery { index_datum_id: DatumId, query: RkQueryKind },
    LbExecute { board_id: DatumId, class: Seq<char>, op: LbExecuteModel },
    LbQuery { board_id: DatumId, class: Seq<char>, query: LbQueryModel },
}

impl View for Request {
    type V = RequestModel;

    open spec fn view(&self) -> RequestModel {
        match self {
            Request::Op { op_id, op_name, datum_ids, payload } => RequestModel::Op {
                op_id: *op_id,
                op_name: op_name@,
                datum_ids: datum_ids@,
                payload: payload@,
            },
            Request::Acquire { op_id, datum_id, requester_node, requester_thread } => {
                RequestModel::Acquire {
                    op_id: *op_id,
                    datum_id: *datum_id,
                    requester_node: *requester_node,
                    requester_thread: *requester_thread,
                }
            },
            Request::Recall { datum_id } => RequestModel::Recall { datum_id: *datum_id },
            Request::Release { datum_id } => RequestModel::Release { datum_id: *datum_id },
            Request::IndexUpdate { target, op_id, index_kind, payload } => {
                RequestModel::IndexUpdate {
                    target: *target,
                    op_id: *op_id,
                    index_kind: index_kind@,
                    payload: payload@,
                }
            },
            Request::RkQuery { index_datum_id, query } => RequestModel::RkQuery {
                index_datum_id: *index_datum_id,
                query: *query,
            },
            Request::LbExecute { board_id, class, op } => RequestModel::LbExecute {
                board_id: *board_id,
                class: class@,
                op: op@,
            },
            Request::LbQuery { board_id, class, query } => RequestModel::LbQuery {
                board_id: *board_id,
                class: class@,
                query: query@,
            },
        }
    }
}

// ---- bytes ----

/// The bytes of a request behind its version byte.
pub open spec fn request_body(m: RequestModel) -> Seq<u8> {
    match m {
        RequestModel::Op { op_id, op_name, datum_ids, payload } => seq![OP_OP] + (op_id.bytes() + (
        text_field(op_name) + (list_field::<DatumId>(datum_ids) + payload))),
        RequestModel::Acquire { op_id, datum_id, requester_node, requester_thread } => {
            seq![OP_ACQUIRE] + (op_id.bytes() + (datum_id.bytes() + (le64(requester_node.0) + le32(
                requester_thread.0,
            ))))
        },
        RequestModel::Recall { datum_id } => seq![OP_RECALL] + datum_id.bytes(),
        RequestModel::Release { datum_id } => seq![OP_RELEASE] + datum_id.bytes(),
        RequestModel::IndexUpdate { target, op_id, index_kind, payload } => {
            seq![OP_INDEX_UPDATE] + (target.bytes() + (op_id.bytes() + (text_field(index_kind)
                + payload)))
        },
        RequestModel::RkQuery { index_datum_id, query } => seq![OP_RK_QUERY] + (
        index_datum_id.bytes() + rk_query_bytes(query)),
        RequestModel::LbExecute { board_id, class, op } => seq![OP_LB_EXECUTE] + (board_id.bytes()
            + (text_field(class) + lb_execute_bytes(op))),
        RequestModel::LbQuery { board_id, class, query } => seq![OP_LB_QUERY] + (board_id.bytes()
            + (text_field(class) + lb_query_bytes(query))),
    }
}

/// The bytes of a request.
pub open spec fn request_bytes(m: RequestModel) -> Seq<u8> {
    seq![PROTOCOL_VERSION] + request_body(m)
}

pub fn encode_request(req: &Request) -> (buf: Vec<u8>)
    ensures
        buf@ == request_bytes(req@),
{
    broadcast use lemma_append_associates;

    let mut buf: Vec<u8> = Vec::new();
    put_u8(&mut buf, PROTOCOL_VERSION);
    assert(buf@ =~= seq![PROTOCOL_VERSION]);
    match req {
        Request::Op { op_id, op_name, datum_ids, payload } => {
            put_u8(&mut buf, OP_OP);
            put_id(&mut buf, *op_id);
            put_text(&mut buf, op_name.as_str());
            put_list(&mut buf, datum_ids.as_slice());
            put_raw(&mut buf, payload.as_slice());
            assert(models(datum_ids@) =~= datum_ids@);
        },
        Request::Acquire { op_id, datum_id, requester_node, requester_thread } => {
            put_u8(&mut buf, OP_ACQUIRE);
            put_id(&mut buf, *op_id);
            put_id(&mut buf, *datum_id);
            put_u64(&mut buf, requester_node.0);
            put_u32(&mut buf, requester_thread.0);
        },
        Request::Recall { datum_id } => {
            put_u8(&mut buf, OP_RECALL);
            put_id(&mut buf, *datum_id);
        },
        Request::Release { datum_id } => {
            put_u8(&mut buf, OP_RELEASE);
            put_id(&mut buf, *datum_id);
        },
        Request::IndexUpdate { target, op_id, index_kind, payload } => {
            put_u8(&mut buf, OP_INDEX_UPDATE);
            put_id(&mut buf, *target);
            put_id(&mut buf, *op_id);
            put_text(&mut buf, index_kind.as_str());
            put_raw(&mut buf, payload.as_slice());
        },
        Request::RkQuery { index_datum_id, query } => {
            put_u8(&mut buf, OP_RK_QUERY);
            put_id(&mut buf, *index_datum_id);
            put_raw(&mut buf, encode_rk_query_kind(query).as_slice());
        },
        Request::LbExecute { board_id, class, op } => {
            put_u8(&mut buf, OP_LB_EXECUTE);
            put_id(&mut buf, *board_id);
            put_text(&mut buf, class.as_str());
            put_lb_execute_op(&mut buf, op);
        },
        Request::LbQuery { board_id, class, query } => {
            put_u8(&mut buf, OP_LB_QUERY);
            put_id(&mut buf, *board_id);
            put_text(&mut buf, class.as_str());
            put_lb_query_req(&mut buf, query);
        },
    }
    buf
}

// ---- parsing ----

/// What stands behind a version byte of the given version.
pub open spec fn parse_version(s: Seq<u8>, what: Subject, supported: u8) -> Result<
    Seq<u8>,
    WireError,
> {
    if s.len() == 0 {
        Err(WireError::Empty { what })
    } else if s[0] != supported {
        Err(WireError::UnsupportedVersion { what, version: s[0], supported })
    } else {
        Ok(s.skip(1))
    }
}

/// Checks and takes off the version byte.
pub fn check_version(buf: &[u8], what: Subject, supported: u8) -> (r: Result<&[u8], WireError>)
    ensures
        (match r {
            Ok(rest) => Ok::<Seq<u8>, WireError>(rest@),
            Err(e) => Err(e),
        }) == parse_version(buf@, what, supported),
{
    if buf.len() == 0 {
        Err(WireError::Empty { what })
    } else if buf[0] != supported {
        Err(WireError::UnsupportedVersion { what, version: buf[0], supported })
    } else {
        Ok(rest_of(buf, 1))
    }
}

/// The error for a message whose length its fields fix.
pub open spec fn wrong_length(what: Subject, expected: usize, found: nat) -> WireError {
    WireError::WrongLength { what, expected: expected as u64, found: found as u64 }
}

/// The error for an op that breaks off behind its tag, or whose name is no text.
pub open spec fn op_error(e: WireError, total: nat) -> WireError {
    match e {
        WireError::Truncated { part: Part::Id, left } => if left + 1 == total {
            WireError::TooShort { what: Header::OpId, found: total as u64 }
        } else {
            WireError::Missing { what: Missing::OpIds }
        },
        WireError::Truncated { part: Part::Prefix, .. } => {
            WireError::Missing { what: Missing::OpNameLength }
        },
        WireError::Truncated { part: Part::Bytes { expected }, .. } => {
            WireError::NameTooShort { expected }
        },
        WireError::Truncated { part: Part::U32, .. } => {
            WireError::Missing { what: Missing::OpIdsCount }
        },
        _ => e.of_text(TextField::OpName),
    }
}

fn as_op_error(e: WireError, total: usize) -> (r: WireError)
    ensures
        r == op_error(e, total as nat),
{
    match e {
        WireError::Truncated { part: Part::Id, left } => if total > 0 && left == total as u64 - 1 {
            WireError::TooShort { what: Header::OpId, found: total as u64 }
        } else {
            WireError::Missing { what: Missing::OpIds }
        },
        WireError::Truncated { part: Part::Prefix, .. } => {
            WireError::Missing { what: Missing::OpNameLength }
        },
        WireError::Truncated { part: Part::Bytes { expected }, .. } => {
            WireError::NameTooShort { expected }
        },
        WireError::Truncated { part: Part::U32, .. } => {
            WireError::Missing { what: Missing::OpIdsCount }
        },
        _ => e.in_text(TextField::OpName),
    }
}

/// The error for an index update that breaks off, or whose kind is no text.
pub open spec fn index_update_error(e: WireError) -> WireError {
    match e {
        WireError::Truncated { part: Part::Bytes { .. }, .. } => {
            WireError::Missing { what: Missing::IndexUpdateKind }
        },
        WireError::Truncated { .. } => WireError::Missing { what: Missing::IndexUpdateFields },
        _ => e.of_text(TextField::IndexKind),
    }
}

fn as_index_update_error(e: WireError) -> (r: WireError)
    ensures
        r == index_update_error(e),
{
    match e {
        WireError::Truncated { part: Part::Bytes { .. }, .. } => {
            WireError::Missing { what: Missing::IndexUpdateKind }
        },
        WireError::Truncated { .. } => WireError::Missing { what: Missing::IndexUpdateFields },
        _ => e.in_text(TextField::IndexKind),
    }
}

pub open spec fn parse_op(s: Seq<u8>) -> Result<RequestModel, WireError> {
    match parse_id(s.skip(1)) {
        Err(e) => Err(op_error(e, s.len())),
        Ok((op_id, s1)) => match parse_text(s1) {
            Err(e) => Err(op_error(e, s.len())),
            Ok((op_name, s2)) => match parse_list::<DatumId>(s2) {
                Err(e) => Err(op_error(e, s.len())),
                Ok((datum_ids, payload)) => Ok(
                    RequestModel::Op { op_id, op_name, datum_ids, payload },
                ),
            },
        },
    }
}

pub open spec fn parse_acquire(s: Seq<u8>) -> Result<RequestModel, WireError> {
    if s.len() != ACQUIRE_LEN {
        Err(wrong_length(Subject::Acquire, ACQUIRE_LEN, s.len()))
    } else {
        match parse_id(s.skip(1)) {
            Err(e) => Err(e),
            Ok((op_id, s1)) => match parse_id(s1) {
                Err(e) => Err(e),
                Ok((datum_id, s2)) => match parse_u64(s2) {
                    Err(e) => Err(e),
                    Ok((node, s3)) => match parse_u32(s3) {
                        Err(e) => Err(e),
                        Ok((thread, _)) => Ok(
                            RequestModel::Acquire {
                                op_id,
                                datum_id,
                                requester_node: NodeId(node),
                                requester_thread: ThreadId(thread),
                            },
                        ),
                    },
                },
            },
        }
    }
}

/// The one id of a message that holds nothing else.
pub open spec fn parse_only_id(s: Seq<u8>, what: Subject) -> Result<DatumId, WireError> {
    if s.len() != RECALL_LEN {
        Err(wrong_length(what, RECALL_LEN, s.len()))
    } else {
        match parse_id(s.skip(1)) {
            Err(e) => Err(e),
            Ok((id, _)) => Ok(id),
        }
    }
}

pub open spec fn parse_index_update(s: Seq<u8>) -> Result<RequestModel, WireError> {
    match parse_id(s.skip(1)) {
        Err(e) => Err(index_update_error(e)),
        Ok((target, s1)) => match parse_id(s1) {
            Err(e) => Err(index_update_error(e)),
            Ok((op_id, s2)) => match parse_text(s2) {
                Err(e) => Err(index_update_error(e)),
                Ok((index_kind, payload)) => Ok(
                    RequestModel::IndexUpdate { target, op_id, index_kind, payload },
                ),
            },
        },
    }
}

pub open spec fn parse_rk_query_request(s: Seq<u8>) -> Result<RequestModel, WireError> {
    if s.len() != RK_QUERY_REQUEST_LEN {
        Err(wrong_length(Subject::RkQuery, RK_QUERY_REQUEST_LEN, s.len()))
    } else {
        match parse_id(s.skip(1)) {
            Err(e) => Err(e),
            Ok((index_datum_id, s1)) => match parse_rk_query(s1) {
                Err(e) => Err(e),
                Ok(query) => Ok(RequestModel::RkQuery { index_datum_id, query }),
            },
        }
    }
}

pub open spec fn parse_lb_execute_request(s: Seq<u8>) -> Result<RequestModel, WireError> {
    match parse_id(s.skip(1)) {
        Err(e) => Err(e.located(s.len())),
        Ok((board_id, s1)) => match parse_text(s1) {
            Err(e) => Err(e.of_text(TextField::LbClass).located(s.len())),
            Ok((class, s2)) => match parse_lb_execute(s2) {
                Err(e) => Err(e),
                Ok(op) => Ok(RequestModel::LbExecute { board_id, class, op }),
            },
        },
    }
}

pub open spec fn parse_lb_query_request(s: Seq<u8>) -> Result<RequestModel, WireError> {
    match parse_id(s.skip(1)) {
        Err(e) => Err(e.located(s.len())),
        Ok((board_id, s1)) => match parse_text(s1) {
            Err(e) => Err(e.of_text(TextField::LbClass).located(s.len())),
            Ok((class, s2)) => match parse_lb_query(s2) {
                Err(e) => Err(e),
                Ok(query) => Ok(RequestModel::LbQuery { board_id, class, query }),
            },
        },
    }
}

/// The request that bytes behind a version byte spell.
pub open spec fn parse_request_body(s: Seq<u8>) -> Result<RequestModel, WireError> {
    if s.len() == 0 {
        Err(WireError::Empty { what: Subject::Request })
    } else if s[0] == OP_OP {
        parse_op(s)
    } else if s[0] == OP_ACQUIRE {
        parse_acquire(s)
    } else if s[0] == OP_RECALL {
        match parse_only_id(s, Subject::Recall) {
            Err(e) => Err(e),
            Ok(datum_id) => Ok(RequestModel::Recall { datum_id }),
        }
    } else if s[0] == OP_RELEASE {
        match parse_only_id(s, Subject::Release) {
            Err(e) => Err(e),
            Ok(datum_id) => Ok(RequestModel::Release { datum_id }),
        }
    } else if s[0] == OP_INDEX_UPDATE {
        parse_index_update(s)
    } else if s[0] == OP_RK_QUERY {
        parse_rk_query_request(s)
    } else if s[0] == OP_LB_EXECUTE {
        parse_lb_execute_request(s)
    } else if s[0] == OP_LB_QUERY {
        parse_lb_query_request(s)
    } else {
        Err(WireError::UnknownTag { what: Tag::Request, tag: s[0] })
    }
}

/// The request that bytes spell.
pub open spec fn parse_request(s: Seq<u8>) -> Result<RequestModel, WireError> {
    match parse_version(s, Subject::Request, PROTOCOL_VERSION) {
        Err(e) => Err(e),
        Ok(body) => parse_request_body(body),
    }
}

/// A decoded request, viewed.
pub open spec fn request_view(r: Result<Request, WireError>) -> Result<RequestModel, WireError> {
    match r {
        Ok(req) => Ok(req@),
        Err(e) => Err(e),
    }
}

fn decode_op_request(buf: &[u8]) -> (r: Result<Request, WireError>)
    requires
        buf.len() > 0,
    ensures
        request_view(r) == parse_op(buf@),
{
    let (op_id, s1) = match take_id(rest_of(buf, 1)) {
        Err(e) => return Err(as_op_error(e, buf.len())),
        Ok(x) => x,
    };
    let (op_name, s2) = match take_text(s1) {
        Err(e) => return Err(as_op_error(e, buf.len())),
        Ok(x) => x,
    };
    let (datum_ids, s3) = match take_list::<DatumId>(s2) {
        Err(e) => return Err(as_op_error(e, buf.len())),
        Ok(x) => x,
    };
    assert(models(datum_ids@) =~= datum_ids@);
    Ok(Request::Op { op_id, op_name, datum_ids, payload: copy_of(s3) })
}

fn decode_acquire_request(buf: &[u8]) -> (r: Result<Request, WireError>)
    ensures
        request_view(r) == parse_acquire(buf@),
{
    if buf.len() != ACQUIRE_LEN {
        return Err(
            WireError::WrongLength {
                what: Subject::Acquire,
                expected: ACQUIRE_LEN as u64,
                found: buf.len() as u64,
            },
        );
    }
    let (op_id, s1) = match take_id(rest_of(buf, 1)) {
        Err(e) => return Err(e),
        Ok(x) => x,
    };
    let (datum_id, s2) = match take_id(s1) {
        Err(e) => return Err(e),
        Ok(x) => x,
    };
    let (node, s3) = match take_u64(s2) {
        Err(e) => return Err(e),
        Ok(x) => x,
    };
    let (thread, _) = match take_u32(s3) {
        Err(e) => return Err(e),
        Ok(x) => x,
    };
    Ok(
        Request::Acquire {
            op_id,
            datum_id,
            requester_node: NodeId(node),
            requester_thread: ThreadId(thread),
        },
    )
}

/// The id of a recall or a release.
fn decode_only_id(buf: &[u8], what: Subject) -> (r: Result<DatumId, WireError>)
    ensures
        r == parse_only_id(buf@, what),
{
    if buf.len() != RECALL_LEN {
        return Err(
            WireError::WrongLength { what, expected: RECALL_LEN as u64, found: buf.len() as u64 },
        );
    }
    match take_id(rest_of(buf, 1)) {
        Err(e) => Err(e),
        Ok((id, _)) => Ok(id),
    }
}

fn decode_index_update_request(buf: &[u8]) -> (r: Result<Request, WireError>)
    requires
        buf.len() > 0,
    ensures
        request_view(r) == parse_index_update(buf@),
{
    let (target, s1) = match take_id(rest_of(buf, 1)) {
        Err(e) => return Err(as_index_update_error(e)),
        Ok(x) => x,
    };
    let (op_id, s2) = match take_id(s1) {
        Err(e) => return Err(as_index_update_error(e)),
        Ok(x) => x,
    };
    let (index_kind, s3) = match take_text(s2) {
        Err(e) => return Err(as_index_update_error(e)),
        Ok(x) => x,
    };
    Ok(Request::IndexUpdate { target, op_id, index_kind, payload: copy_of(s3) })
}

fn decode_rk_query_request(buf: &[u8]) -> (r: Result<Request, WireError>)
    ensures
        request_view(r) == parse_rk_query_request(buf@),
{
    if buf.len() != RK_QUERY_REQUEST_LEN {
        return Err(
            WireError::WrongLength {
                what: Subject::RkQuery,
                expected: RK_QUERY_REQUEST_LEN as u64,
                found: buf.len() as u64,
            },
        );
    }
    let (index_datum_id, s1) = match take_id(rest_of(buf, 1)) {
        Err(e) => return Err(e),
        Ok(x) => x,
    };
    match decode_rk_query_kind(s1) {
        Err(e) => Err(e),
        Ok(query) => Ok(Request::RkQuery { index_datum_id, query }),
    }
}

fn decode_lb_execute_request(buf: &[u8]) -> (r: Result<Request, WireError>)
    requires
        buf.len() > 0,
    ensures
        request_view(r) == parse_lb_execute_request(buf@),
{
    let (board_id, s1) = match take_id(rest_of(buf, 1)) {
        Err(e) => return Err(e.locate(buf.len())),
        Ok(x) => x,
    };
    let (class, s2) = match take_text(s1) {
        Err(e) => return Err(e.in_text(TextField::LbClass).locate(buf.len())),
        Ok(x) => x,
    };
    match decode_lb_execute_op(s2) {
        Err(e) => Err(e),
        Ok(op) => Ok(Request::LbExecute { board_id, class, op }),
    }
}

fn decode_lb_query_request(buf: &[u8]) -> (r: Result<Request, WireError>)
    requires
        buf.len() > 0,
    ensures
        request_view(r) == parse_lb_query_request(buf@),
{
    let (board_id, s1) = match take_id(rest_of(buf, 1)) {
        Err(e) => return Err(e.locate(buf.len())),
        Ok(x) => x,
    };
    let (class, s2) = match take_text(s1) {
        Err(e) => return Err(e.in_text(TextField::LbClass).locate(buf.len())),
        Ok(x) => x,
    };
    match decode_lb_query_req(s2) {
        Err(e) => Err(e),
        Ok(query) => Ok(Request::LbQuery { board_id, class, query }),
    }
}

pub fn decode_request(buf: &[u8]) -> (r: Result<Request, WireError>)
    ensures
        request_view(r) == parse_request(buf@),
{
    let body = match check_version(buf, Subject::Request, PROTOCOL_VERSION) {
        Err(e) => return Err(e),
        Ok(body) => body,
    };
    if body.len() == 0 {
        return Err(WireError::Empty { what: Subject::Request });
    }
    let tag: u8 = body[0];
    if tag == OP_OP {
        decode_op_request(body)
    } else if tag == OP_ACQUIRE {
        decode_acquire_request(body)
    } else if tag == OP_RECALL {
        match decode_only_id(body, Subject::Recall) {
            Err(e) => Err(e),
            Ok(datum_id) => Ok(Request::Recall { datum_id }),
        }
    } else if tag == OP_RELEASE {
        match decode_only_id(body, Subject::Release) {
            Err(e) => Err(e),
            Ok(datum_id) => Ok(Request::Release { datum_id }),
        }
    } else if tag == OP_INDEX_UPDATE {
        decode_index_update_request(body)
    } else if tag == OP_RK_QUERY {
        decode_rk_query_request(body)
    } else if tag == OP_LB_EXECUTE {
        decode_lb_execute_request(body)
    } else if tag == OP_LB_QUERY {
        decode_lb_query_request(body)
    } else {
        Err(WireError::UnknownTag { what: Tag::Request, tag })
    }
}

// ---- laws ----

/// Whether a text, in UTF-8, fits a length prefix of 32 bits.
pub open spec fn text_fits(t: Seq<char>) -> bool {
    encode_utf8(t).len() <= u32::MAX
}

/// Whether the lengths in a request fit their prefixes of 32 bits.
pub open spec fn request_fits(m: RequestModel) -> bool {
    match m {
        RequestModel::Op { op_name, datum_ids, .. } => text_fits(op_name) && datum_ids.len()
            <= u32::MAX,
        RequestModel::IndexUpdate { index_kind, .. } => text_fits(index_kind),
        RequestModel::LbExecute { class, op, .. } => text_fits(class) && lb_execute_fits(op),
        RequestModel::LbQuery { class, query, .. } => text_fits(class) && query.friend_ids.len()
            <= u32::MAX,
        _ => true,
    }
}

proof fn lemma_op_round_trip(
    op_id: DatumId,
    op_name: Seq<char>,
    datum_ids: Seq<DatumId>,
    payload: Seq<u8>,
)
    requires
        text_fits(op_name),
        datum_ids.len() <= u32::MAX,
    ensures
        ({
            let m = RequestModel::Op { op_id, op_name, datum_ids, payload };
            parse_request_body(request_body(m)) == Ok::<RequestModel, WireError>(m)
        }),
{
    let body = request_body(RequestModel::Op { op_id, op_name, datum_ids, payload });
    let t2 = list_field::<DatumId>(datum_ids) + payload;
    let t1 = text_field(op_name) + t2;
    assert(body.skip(1) =~= op_id.bytes() + t1);
    lemma_parse_id(op_id, t1);
    lemma_parse_text(op_name, t2);
    lemma_list_round_trip::<DatumId>(datum_ids, payload);
}

proof fn lemma_acquire_round_trip(
    op_id: DatumId,
    datum_id: DatumId,
    requester_node: NodeId,
    requester_thread: ThreadId,
)
    ensures
        ({
            let m = RequestModel::Acquire { op_id, datum_id, requester_node, requester_thread };
            parse_request_body(request_body(m)) == Ok::<RequestModel, WireError>(m)
        }),
{
    let body = request_body(RequestModel::Acquire { op_id, datum_id, requester_node, requester_thread });
    let t3 = le32(requester_thread.0);
    let t2 = le64(requester_node.0) + t3;
    let t1 = datum_id.bytes() + t2;
    assert(body.skip(1) =~= op_id.bytes() + t1);
    lemma_id_len(op_id);
    lemma_id_len(datum_id);
    lemma_le_len(requester_node.0 as nat, 8);
    lemma_le_len(requester_thread.0 as nat, 4);
    lemma_parse_id(op_id, t1);
    lemma_parse_id(datum_id, t2);
    lemma_parse_u64(requester_node.0, t3);
    assert(t3 + seq![] =~= t3);
    lemma_parse_u32(requester_thread.0, seq![]);
}

proof fn lemma_index_update_round_trip(
    target: DatumId,
    op_id: DatumId,
    index_kind: Seq<char>,
    payload: Seq<u8>,
)
    requires
        text_fits(index_kind),
    ensures
        ({
            let m = RequestModel::IndexUpdate { target, op_id, index_kind, payload };
            parse_request_body(request_body(m)) == Ok::<RequestModel, WireError>(m)
        }),
{
    let body = request_body(RequestModel::IndexUpdate { target, op_id, index_kind, payload });
    let t2 = text_field(index_kind) + payload;
    let t1 = op_id.bytes() + t2;
    assert(body.skip(1) =~= target.bytes() + t1);
    lemma_parse_id(target, t1);
    lemma_parse_id(op_id, t2);
    lemma_parse_text(index_kind, payload);
}

proof fn lemma_rk_query_round_trip(
    index_datum_id: DatumId,
    query: RkQueryKind,
)
    ensures
        ({
            let m = RequestModel::RkQuery { index_datum_id, query };
            parse_request_body(request_body(m)) == Ok::<RequestModel, WireError>(m)
        }),
{
    let body = request_body(RequestModel::RkQuery { index_datum_id, query });
    lemma_id_len(index_datum_id);
    law_rk_query_round_trip(query);
    assert(body.skip(1) =~= index_datum_id.bytes() + rk_query_bytes(query));
    lemma_parse_id(index_datum_id, rk_query_bytes(query));
}

proof fn lemma_lb_execute_round_trip(
    board_id: DatumId,
    class: Seq<char>,
    op: LbExecuteModel,
)
    requires
        text_fits(class),
        lb_execute_fits(op),
    ensures
        ({
            let m = RequestModel::LbExecute { board_id, class, op };
            parse_request_body(request_body(m)) == Ok::<RequestModel, WireError>(m)
        }),
{
    let body = request_body(RequestModel::LbExecute { board_id, class, op });
    let t1 = text_field(class) + lb_execute_bytes(op);
    assert(body.skip(1) =~= board_id.bytes() + t1);
    lemma_parse_id(board_id, t1);
    lemma_parse_text(class, lb_execute_bytes(op));
    law_lb_execute_round_trip(op);
}

proof fn lemma_lb_query_round_trip(
    board_id: DatumId,
    class: Seq<char>,
    query: LbQueryModel,
)
    requires
        text_fits(class),
        query.friend_ids.len() <= u32::MAX,
    ensures
        ({
            let m = RequestModel::LbQuery { board_id, class, query };
            parse_request_body(request_body(m)) == Ok::<RequestModel, WireError>(m)
        }),
{
    let body = request_body(RequestModel::LbQuery { board_id, class, query });
    let t1 = text_field(class) + lb_query_bytes(query);
    assert(body.skip(1) =~= board_id.bytes() + t1);
    lemma_parse_id(board_id, t1);
    lemma_parse_text(class, lb_query_bytes(query));
    law_lb_query_round_trip(query);
}

/// Decoding gives back the request that was encoded.
pub proof fn law_request_round_trip(m: RequestModel)
    requires
        request_fits(m),
    ensures
        parse_request(request_bytes(m)) == Ok::<RequestModel, WireError>(m),
{
    let body = request_body(m);
    assert(request_bytes(m).skip(1) =~= body);
    match m {
        RequestModel::Op { op_id, op_name, datum_ids, payload } => {
            lemma_op_round_trip(op_id, op_name, datum_ids, payload);
        },
        RequestModel::Acquire { op_id, datum_id, requester_node, requester_thread } => {
            lemma_acquire_round_trip(op_id, datum_id, requester_node, requester_thread);
        },
        RequestModel::Recall { datum_id } => {
            lemma_id_len(datum_id);
            assert(body.skip(1) =~= datum_id.bytes() + seq![]);
            lemma_parse_id(datum_id, seq![]);
        },
        RequestModel::Release { datum_id } => {
            lemma_id_len(datum_id);
            assert(body.skip(1) =~= datum_id.bytes() + seq![]);
            lemma_parse_id(datum_id, seq![]);
        },
        RequestModel::IndexUpdate { target, op_id, index_kind, payload } => {
            lemma_index_update_round_trip(target, op_id, index_kind, payload);
        },
        RequestModel::RkQuery { index_datum_id, query } => {
            lemma_rk_query_round_trip(index_datum_id, query);
        },
        RequestModel::LbExecute { board_id, class, op } => {
            lemma_lb_execute_round_trip(board_id, class, op);
        },
        RequestModel::LbQuery { board_id, class, query } => {
            lemma_lb_query_round_trip(board_id, class, query);
        },
    }
}

proof fn lemma_body_is_its_encoding(s: Seq<u8>)
    ensures
        parse_request_body(s) matches Ok(m) ==> s == request_body(m),
{
    if let Ok(m) = parse_request_body(s) {
        let s0 = s.skip(1);
        assert(s =~= seq![s[0]] + s0);
        let (_, s1) = parse_id(s0)->Ok_0;
        lemma_read_id(s0);
        match m {
            RequestModel::Op { op_id, op_name, datum_ids, payload } => {
                let (_, s2) = parse_text(s1)->Ok_0;
                lemma_read_text(s1);
                lemma_read_ids(s2);
            },
            RequestModel::Acquire { op_id, datum_id, requester_node, requester_thread } => {
                let (_, s2) = parse_id(s1)->Ok_0;
                let (_, s3) = parse_u64(s2)->Ok_0;
                lemma_id_len(op_id);
                lemma_id_len(datum_id);
                lemma_le_len(requester_node.0 as nat, 8);
                lemma_le_len(requester_thread.0 as nat, 4);
                lemma_read_id(s1);
                lemma_read_integers(s2);
                lemma_read_integers(s3);
                assert(s3 =~= le32(requester_thread.0));
            },
            RequestModel::Recall { datum_id } => {
                lemma_id_len(datum_id);
                assert(s0 =~= datum_id.bytes());
            },
            RequestModel::Release { datum_id } => {
                lemma_id_len(datum_id);
                assert(s0 =~= datum_id.bytes());
            },
            RequestModel::IndexUpdate { target, op_id, index_kind, payload } => {
                let (_, s2) = parse_id(s1)->Ok_0;
                lemma_read_id(s1);
                lemma_read_text(s2);
            },
            RequestModel::RkQuery { index_datum_id, query } => {
                law_rk_query_is_its_encoding(s1);
            },
            RequestModel::LbExecute { board_id, class, op } => {
                let (_, s2) = parse_text(s1)->Ok_0;
                lemma_read_text(s1);
                law_lb_execute_is_its_encoding(s2);
            },
            RequestModel::LbQuery { board_id, class, query } => {
                let (_, s2) = parse_text(s1)->Ok_0;
                lemma_read_text(s1);
                law_lb_query_is_its_encoding(s2);
            },
        }
    }
}

/// Bytes that are read as a request are its encoding: no two byte strings are
/// the same request, and none that no request encodes to is read as one.
pub proof fn law_request_is_its_encoding(s: Seq<u8>)
    ensures
        parse_request(s) matches Ok(m) ==> s == request_bytes(m),
{
    if s.len() > 0 {
        lemma_body_is_its_encoding(s.skip(1));
        assert(s =~= seq![s[0]] + s.skip(1));
    }
}

/// A request of a kind that there is none of is refused as such, whatever
/// follows.
pub proof fn law_unknown_request_refused(tag: u8, rest: Seq<u8>)
    requires
        !(OP_OP <= tag <= OP_LB_QUERY),
    ensures
        parse_request(seq![PROTOCOL_VERSION, tag] + rest) == Err::<RequestModel, WireError>(
            WireError::UnknownTag { what: Tag::Request, tag },
        ),
{
    assert((seq![PROTOCOL_VERSION, tag] + rest).skip(1) =~= seq![tag] + rest);
}

/// A request of another protocol version is refused as such, whatever follows
/// its version byte.
pub proof fn law_other_version_refused(version: u8, rest: Seq<u8>)
    requires
        version != PROTOCOL_VERSION,
    ensures
        parse_request(seq![version] + rest) == Err::<RequestModel, WireError>(
            WireError::UnsupportedVersion {
                what: Subject::Request,
                version,
                supported: PROTOCOL_VERSION,
            },
        ),
{
}

} // verus!
