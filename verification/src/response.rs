//! What a node answers, on the wire.

use crate::bytes::{
    copy_of, le32, lemma_append_associates, lemma_le_len, lemma_parse_u32, lemma_text_of, parse_u32,
    prefix, put_raw, put_raw_text, put_text, put_u8, rest_of, take_u32, text_field, text_from,
    text_of,
};
use crate::datum::DatumId;
use crate::lb::{
    decode_lb_result, law_lb_result_round_trip, lb_result_bytes, lb_result_fits, parse_lb_result,
    put_lb_result, LbResult, LbResultModel,
};
use crate::list_wire::models;
use crate::request::{
    check_version, parse_version, text_fits, PROTOCOL_VERSION,
};
use crate::rk::{
    decode_rk_entries, encode_rk_entries, law_rk_entries_round_trip, parse_rk_entries,
    rk_entries_bytes, RK_RANK_KEY_LEN,
};
use crate::wire_error::{Header, Missing, Subject, Tag, TextField, WireError};
use vstd::prelude::*;
use vstd::utf8::encode_utf8;

verus! {

pub const RESP_REDIRECT: u8 = 1;

pub const RESP_OP_RESULT: u8 = 2;

pub const RESP_OP_ERROR: u8 = 3;

pub const RESP_GRANTED: u8 = 4;

pub const RESP_RELEASED: u8 = 5;

pub const RESP_INDEX_UPDATE_RESULT: u8 = 6;

pub const RESP_RK_QUERY_RESULT: u8 = 7;

pub const RESP_LB_RESULT: u8 = 8;

/// A node's answer.
#[derive(Debug, Clone, PartialEq, Eq)]
pub enum Response {
    /// Ask the node at this address instead.
    Redirect { address: String },
    OpResult { payload: Vec<u8> },
    OpError { message: String },
    /// The lock that an acquire asked for. It carries no content.
    Granted,
    /// A recall or a release was carried out.
    Released,
    /// An index update was applied, or refused with a message that leaves the
    /// index as it was.
    IndexUpdateResult { violation: Option<String> },
    /// Rank keys of eight bytes with the ids they rank, in the order that the
    /// query implies.
    RkQueryResult { entries: Vec<(Vec<u8>, DatumId)> },
    LbResult(LbResult),
}

/// The mathematical content of a [`Response`].
pub enum ResponseModel {
    Redirect { address: Seq<char> },
    OpResult { payload: Seq<u8> },
    OpError { message: Seq<char> },
    Granted,
    Released,
    IndexUpdateResult { violation: Option<Seq<char>> },
    RkQueryResult { entries: Seq<(Seq<u8>, DatumId)> },
    LbResult(LbResultModel),
}

/// An optional text, viewed.
pub open spec fn optional_text(t: Option<String>) -> Option<Seq<char>> {
    match t {
        None => None,
        Some(t) => Some(t@),
    }
}

impl View for Response {
    type V = ResponseModel;

    open spec fn view(&self) -> ResponseModel {
        match self {
            Response::Redirect { address } => ResponseModel::Redirect { address: address@ },
            Response::OpResult { payload } => ResponseModel::OpResult { payload: payload@ },
            Response::OpError { message } => ResponseModel::OpError { message: message@ },
            Response::Granted => ResponseModel::Granted,
            Response::Released => ResponseModel::Released,
            Response::IndexUpdateResult { violation } => ResponseModel::IndexUpdateResult {
                violation: optional_text(*violation),
            },
            Response::RkQueryResult { entries } => ResponseModel::RkQueryResult {
                entries: models(entries@),
            },
            Response::LbResult(result) => ResponseModel::LbResult(result@),
        }
    }
}

/// The bytes of a response behind its version byte.
pub open spec fn response_body(m: ResponseModel) -> Seq<u8> {
    match m {
        ResponseModel::Redirect { address } => seq![RESP_REDIRECT] + text_field(address),
        ResponseModel::OpResult { payload } => seq![RESP_OP_RESULT] + payload,
        ResponseModel::OpError { message } => seq![RESP_OP_ERROR] + encode_utf8(message),
        ResponseModel::Granted => seq![RESP_GRANTED],
        ResponseModel::Released => seq![RESP_RELEASED],
        ResponseModel::IndexUpdateResult { violation } => match violation {
            None => seq![RESP_INDEX_UPDATE_RESULT, 0u8],
            Some(message) => seq![RESP_INDEX_UPDATE_RESULT, 1u8] + encode_utf8(message),
        },
        ResponseModel::RkQueryResult { entries } => seq![RESP_RK_QUERY_RESULT] + rk_entries_bytes(
            entries,
        ),
        ResponseModel::LbResult(result) => seq![RESP_LB_RESULT] + lb_result_bytes(result),
    }
}

/// The bytes of a response.
pub open spec fn response_bytes(m: ResponseModel) -> Seq<u8> {
    seq![PROTOCOL_VERSION] + response_body(m)
}

pub fn encode_response(resp: &Response) -> (buf: Vec<u8>)
    ensures
        buf@ == response_bytes(resp@),
{
    broadcast use lemma_append_associates;

    let mut buf: Vec<u8> = Vec::new();
    put_u8(&mut buf, PROTOCOL_VERSION);
    assert(buf@ =~= seq![PROTOCOL_VERSION]);
    match resp {
        Response::Redirect { address } => {
            put_u8(&mut buf, RESP_REDIRECT);
            put_text(&mut buf, address.as_str());
        },
        Response::OpResult { payload } => {
            put_u8(&mut buf, RESP_OP_RESULT);
            put_raw(&mut buf, payload.as_slice());
        },
        Response::OpError { message } => {
            put_u8(&mut buf, RESP_OP_ERROR);
            put_raw_text(&mut buf, message.as_str());
        },
        Response::Granted => put_u8(&mut buf, RESP_GRANTED),
        Response::Released => put_u8(&mut buf, RESP_RELEASED),
        Response::IndexUpdateResult { violation } => {
            put_u8(&mut buf, RESP_INDEX_UPDATE_RESULT);
            match violation {
                None => {
                    put_u8(&mut buf, 0);
                    assert(seq![RESP_INDEX_UPDATE_RESULT] + seq![0u8]
                        =~= seq![RESP_INDEX_UPDATE_RESULT, 0u8]);
                },
                Some(message) => {
                    put_u8(&mut buf, 1);
                    put_raw_text(&mut buf, message.as_str());
                    assert(seq![RESP_INDEX_UPDATE_RESULT] + seq![1u8]
                        =~= seq![RESP_INDEX_UPDATE_RESULT, 1u8]);
                },
            }
        },
        Response::RkQueryResult { entries } => {
            put_u8(&mut buf, RESP_RK_QUERY_RESULT);
            put_raw(&mut buf, encode_rk_entries(entries.as_slice()).as_slice());
        },
        Response::LbResult(result) => {
            put_u8(&mut buf, RESP_LB_RESULT);
            put_lb_result(&mut buf, result);
        },
    }
    buf
}

/// A redirect: the length of the address, and the address to the end.
pub open spec fn parse_redirect(s: Seq<u8>) -> Result<ResponseModel, WireError> {
    match parse_u32(s.skip(1)) {
        Err(_) => Err(WireError::TooShort { what: Header::RedirectLength, found: s.len() as u64 }),
        Ok((len, rest)) => if s.len() != 5 + len {
            Err(
                WireError::WrongLength {
                    what: Subject::Redirect,
                    expected: (5 + len) as u64,
                    found: s.len() as u64,
                },
            )
        } else {
            match text_of(rest) {
                Err(e) => Err(e.of_text(TextField::RedirectAddress)),
                Ok(address) => Ok(ResponseModel::Redirect { address }),
            }
        },
    }
}

/// The outcome of an index update. Behind a flag of no violation the bytes are
/// ignored.
pub open spec fn parse_index_update_result(s: Seq<u8>) -> Result<ResponseModel, WireError> {
    if s.len() < 2 {
        Err(WireError::Missing { what: Missing::IndexUpdateResultFlag })
    } else if s[1] == 0 {
        Ok(ResponseModel::IndexUpdateResult { violation: None })
    } else if s[1] == 1 {
        match text_of(s.skip(2)) {
            Err(e) => Err(e.of_text(TextField::Violation)),
            Ok(message) => Ok(ResponseModel::IndexUpdateResult { violation: Some(message) }),
        }
    } else {
        Err(WireError::UnknownTag { what: Tag::IndexUpdateResult, tag: s[1] })
    }
}

/// The response that bytes behind a version byte spell. What follows a grant or
/// a release is ignored.
pub open spec fn parse_response_body(s: Seq<u8>) -> Result<ResponseModel, WireError> {
    if s.len() == 0 {
        Err(WireError::Empty { what: Subject::Response })
    } else if s[0] == RESP_REDIRECT {
        parse_redirect(s)
    } else if s[0] == RESP_OP_RESULT {
        Ok(ResponseModel::OpResult { payload: s.skip(1) })
    } else if s[0] == RESP_OP_ERROR {
        match text_of(s.skip(1)) {
            Err(e) => Err(e.of_text(TextField::OpError)),
            Ok(message) => Ok(ResponseModel::OpError { message }),
        }
    } else if s[0] == RESP_GRANTED {
        Ok(ResponseModel::Granted)
    } else if s[0] == RESP_RELEASED {
        Ok(ResponseModel::Released)
    } else if s[0] == RESP_INDEX_UPDATE_RESULT {
        parse_index_update_result(s)
    } else if s[0] == RESP_RK_QUERY_RESULT {
        match parse_rk_entries(s.skip(1)) {
            Err(e) => Err(e),
            Ok(entries) => Ok(ResponseModel::RkQueryResult { entries }),
        }
    } else if s[0] == RESP_LB_RESULT {
        match parse_lb_result(s.skip(1)) {
            Err(e) => Err(e),
            Ok(result) => Ok(ResponseModel::LbResult(result)),
        }
    } else {
        Err(WireError::UnknownTag { what: Tag::Response, tag: s[0] })
    }
}

/// The response that bytes spell.
pub open spec fn parse_response(s: Seq<u8>) -> Result<ResponseModel, WireError> {
    match parse_version(s, Subject::Response, PROTOCOL_VERSION) {
        Err(e) => Err(e),
        Ok(body) => parse_response_body(body),
    }
}

/// A decoded response, viewed.
pub open spec fn response_view(r: Result<Response, WireError>) -> Result<ResponseModel, WireError> {
    match r {
        Ok(resp) => Ok(resp@),
        Err(e) => Err(e),
    }
}

fn decode_redirect(buf: &[u8]) -> (r: Result<Response, WireError>)
    requires
        buf.len() > 0,
    ensures
        response_view(r) == parse_redirect(buf@),
{
    match take_u32(rest_of(buf, 1)) {
        Err(_) => Err(
            WireError::TooShort { what: Header::RedirectLength, found: buf.len() as u64 },
        ),
        Ok((len, rest)) => {
            let expected: u64 = 5 + len as u64;
            if buf.len() as u64 != expected {
                return Err(
                    WireError::WrongLength {
                        what: Subject::Redirect,
                        expected,
                        found: buf.len() as u64,
                    },
                );
            }
            match text_from(copy_of(rest)) {
                Err(e) => Err(e.in_text(TextField::RedirectAddress)),
                Ok(address) => Ok(Response::Redirect { address }),
            }
        },
    }
}

fn decode_index_update_result(buf: &[u8]) -> (r: Result<Response, WireError>)
    ensures
        response_view(r) == parse_index_update_result(buf@),
{
    if buf.len() < 2 {
        Err(WireError::Missing { what: Missing::IndexUpdateResultFlag })
    } else if buf[1] == 0 {
        Ok(Response::IndexUpdateResult { violation: None })
    } else if buf[1] == 1 {
        match text_from(copy_of(rest_of(buf, 2))) {
            Err(e) => Err(e.in_text(TextField::Violation)),
            Ok(message) => Ok(Response::IndexUpdateResult { violation: Some(message) }),
        }
    } else {
        Err(WireError::UnknownTag { what: Tag::IndexUpdateResult, tag: buf[1] })
    }
}

pub fn decode_response(buf: &[u8]) -> (r: Result<Response, WireError>)
    ensures
        response_view(r) == parse_response(buf@),
{
    let body = match check_version(buf, Subject::Response, PROTOCOL_VERSION) {
        Err(e) => return Err(e),
        Ok(body) => body,
    };
    if body.len() == 0 {
        return Err(WireError::Empty { what: Subject::Response });
    }
    let tag: u8 = body[0];
    if tag == RESP_REDIRECT {
        decode_redirect(body)
    } else if tag == RESP_OP_RESULT {
        Ok(Response::OpResult { payload: copy_of(rest_of(body, 1)) })
    } else if tag == RESP_OP_ERROR {
        match text_from(copy_of(rest_of(body, 1))) {
            Err(e) => Err(e.in_text(TextField::OpError)),
            Ok(message) => Ok(Response::OpError { message }),
        }
    } else if tag == RESP_GRANTED {
        Ok(Response::Granted)
    } else if tag == RESP_RELEASED {
        Ok(Response::Released)
    } else if tag == RESP_INDEX_UPDATE_RESULT {
        decode_index_update_result(body)
    } else if tag == RESP_RK_QUERY_RESULT {
        match decode_rk_entries(rest_of(body, 1)) {
            Err(e) => Err(e),
            Ok(entries) => Ok(Response::RkQueryResult { entries }),
        }
    } else if tag == RESP_LB_RESULT {
        match decode_lb_result(rest_of(body, 1)) {
            Err(e) => Err(e),
            Ok(result) => Ok(Response::LbResult(result)),
        }
    } else {
        Err(WireError::UnknownTag { what: Tag::Response, tag })
    }
}

/// Whether the lengths in a response fit their prefixes of 32 bits, and its
/// rank keys have their eight bytes.
pub open spec fn response_fits(m: ResponseModel) -> bool {
    match m {
        ResponseModel::Redirect { address } => text_fits(address),
        ResponseModel::RkQueryResult { entries } => entries.len() <= u32::MAX && forall|i: int|
            0 <= i < entries.len() ==> (#[trigger] entries[i]).0.len() == RK_RANK_KEY_LEN,
        ResponseModel::LbResult(result) => lb_result_fits(result),
        _ => true,
    }
}

/// Decoding gives back the response that was encoded.
pub proof fn law_response_round_trip(m: ResponseModel)
    requires
        response_fits(m),
    ensures
        parse_response(response_bytes(m)) == Ok::<ResponseModel, WireError>(m),
{
    let body = response_body(m);
    assert(response_bytes(m).skip(1) =~= body);
    match m {
        ResponseModel::Redirect { address } => {
            let b = encode_utf8(address);
            assert(body.skip(1) =~= le32(prefix(b.len())) + b);
            lemma_le_len(b.len(), 4);
            lemma_parse_u32(prefix(b.len()), b);
            lemma_text_of(address);
        },
        ResponseModel::OpResult { payload } => {
            assert(body.skip(1) =~= payload);
        },
        ResponseModel::OpError { message } => {
            assert(body.skip(1) =~= encode_utf8(message));
            lemma_text_of(message);
        },
        ResponseModel::Granted => {},
        ResponseModel::Released => {},
        ResponseModel::IndexUpdateResult { violation } => {
            if let Some(message) = violation {
                assert(body.skip(2) =~= encode_utf8(message));
                lemma_text_of(message);
            }
        },
        ResponseModel::RkQueryResult { entries } => {
            assert(body.skip(1) =~= rk_entries_bytes(entries));
            law_rk_entries_round_trip(entries);
        },
        ResponseModel::LbResult(result) => {
            assert(body.skip(1) =~= lb_result_bytes(result));
            law_lb_result_round_trip(result);
        },
    }
}

/// A response of another protocol version is refused as such, whatever follows
/// its version byte.
pub proof fn law_other_version_refused(version: u8, rest: Seq<u8>)
    requires
        version != PROTOCOL_VERSION,
    ensures
        parse_response(seq![version] + rest) == Err::<ResponseModel, WireError>(
            WireError::UnsupportedVersion {
                what: Subject::Response,
                version,
                supported: PROTOCOL_VERSION,
            },
        ),
{
}

} // verus!
