//! The protocol between compute nodes and storage nodes. It has its own
//! version, so that the two tiers can change apart from each other.

use crate::authority::NodeId;
use crate::bytes::{
    copy_of, le16, le32, le64, lemma_append_associates, lemma_parse_text, lemma_parse_u16,
    lemma_parse_u32, lemma_parse_u64, lemma_parse_u8, lemma_text_of, parse_text, parse_u16,
    parse_u32, parse_u64, parse_u8, put_raw, put_raw_text, put_text, put_u16, put_u32, put_u64,
    put_u8, rest_of, take_text, take_u16, take_u32, take_u64, take_u8, text_field, text_from,
    text_of, whole,
};
use crate::datum::{
    lemma_parse_id, lemma_parse_optional_id, optional_id_field, parse_id, parse_optional_id,
    put_id, put_optional_id, take_id, take_optional_id, DatumId,
};
use crate::list_wire::{
    lemma_list_round_trip, list_field, models, parse_list, put_list, take_list,
};
use crate::request::{check_version, parse_version, text_fits};
use crate::wire_error::{Missing, Part, Subject, Tag, TextField, WireError, placed};
use vstd::prelude::*;
use vstd::utf8::encode_utf8;

verus! {

/// The version of the storage protocol, the first byte of every message.
pub const STORE_PROTOCOL_VERSION: u8 = 3;

pub const REQ_PUT: u8 = 1;

pub const REQ_PATCH: u8 = 2;

pub const REQ_GET: u8 = 3;

pub const REQ_DELETE: u8 = 4;

pub const REQ_LIST_IDS: u8 = 5;

pub const REQ_TRANSFER: u8 = 6;

pub const REQ_TRANSFER_STATUS: u8 = 7;

pub const REQ_FINISH_TRANSFER: u8 = 8;

pub const REQ_RETIRE: u8 = 9;

pub const REQ_IDENTIFY: u8 = 10;

pub const RESP_ACK: u8 = 1;

pub const RESP_NEED_FULL: u8 = 2;

pub const RESP_VALUE: u8 = 3;

pub const RESP_ID_LIST: u8 = 4;

pub const RESP_TRANSFER_PROGRESS: u8 = 5;

pub const RESP_IDENTITY: u8 = 6;

pub const RESP_ERROR: u8 = 7;

/// A request to a storage node. `n` is a datum's replication factor.
#[derive(Debug, Clone, PartialEq, Eq)]
pub enum StoreRequest {
    /// Writes the whole content.
    Put { id: DatumId, bytes: Vec<u8>, n: u16 },
    /// Writes an encoded byte delta against the current content.
    Patch { id: DatumId, delta: Vec<u8>, n: u16 },
    Get { id: DatumId },
    Delete { id: DatumId },
    /// A page of the ids behind `after`, in ascending order.
    ListIds { after: Option<DatumId>, limit: u32 },
    /// Starts copying `ids` to another storage node.
    Transfer { transfer_id: DatumId, ids: Vec<DatumId>, dest_address: String },
    TransferStatus { transfer_id: DatumId },
    /// Sends what was written during the copy.
    FinishTransfer { transfer_id: DatumId },
    /// Deletes what was transferred from its source.
    Retire { transfer_id: DatumId },
    /// Asks who the node is.
    Identify,
}

/// A storage node's answer.
#[derive(Debug, Clone, PartialEq, Eq)]
pub enum StoreResponse {
    Ack,
    /// There is no content to apply a patch to: send the whole content.
    NeedFull,
    Value { bytes: Option<Vec<u8>> },
    /// A page of ids with their replication factors; `done` where it is the
    /// last.
    IdList { ids: Vec<(DatumId, u16)>, done: bool },
    TransferProgress { copied: u64, dirty: u64, done: bool },
    Identity { node_id: NodeId, log_id: DatumId },
    Error { message: String },
}

/// The mathematical content of a [`StoreRequest`].
pub enum StoreRequestModel {
    Put { id: DatumId, bytes: Seq<u8>, n: u16 },
    Patch { id: DatumId, delta: Seq<u8>, n: u16 },
    Get { id: DatumId },
    Delete { id: DatumId },
    ListIds { after: Option<DatumId>, limit: u32 },
    Transfer { transfer_id: DatumId, ids: Seq<DatumId>, dest_address: Seq<char> },
    TransferStatus { transfer_id: DatumId },
    FinishTransfer { transfer_id: DatumId },
    Retire { transfer_id: DatumId },
    Identify,
}

/// The mathematical content of a [`StoreResponse`].
pub enum StoreResponseModel {
    Ack,
    NeedFull,
    Value { bytes: Option<Seq<u8>> },
    IdList { ids: Seq<(DatumId, u16)>, done: bool },
    TransferProgress { copied: u64, dirty: u64, done: bool },
    Identity { node_id: NodeId, log_id: DatumId },
    Error { message: Seq<char> },
}

impl View for StoreRequest {
    type V = StoreRequestModel;

    open spec fn view(&self) -> StoreRequestModel {
        match self {
            StoreRequest::Put { id, bytes, n } => StoreRequestModel::Put {
                id: *id,
                bytes: bytes@,
                n: *n,
            },
            StoreRequest::Patch { id, delta, n } => StoreRequestModel::Patch {
                id: *id,
                delta: delta@,
                n: *n,
            },
            StoreRequest::Get { id } => StoreRequestModel::Get { id: *id },
            StoreRequest::Delete { id } => StoreRequestModel::Delete { id: *id },
            StoreRequest::ListIds { after, limit } => StoreRequestModel::ListIds {
                after: *after,
                limit: *limit,
            },
            StoreRequest::Transfer { transfer_id, ids, dest_address } => {
                StoreRequestModel::Transfer {
                    transfer_id: *transfer_id,
                    ids: ids@,
                    dest_address: dest_address@,
                }
            },
            StoreRequest::TransferStatus { transfer_id } => StoreRequestModel::TransferStatus {
                transfer_id: *transfer_id,
            },
            StoreRequest::FinishTransfer { transfer_id } => StoreRequestModel::FinishTransfer {
                transfer_id: *transfer_id,
            },
            StoreRequest::Retire { transfer_id } => StoreRequestModel::Retire {
                transfer_id: *transfer_id,
            },
            StoreRequest::Identify => StoreRequestModel::Identify,
        }
    }
}

/// Optional bytes, viewed.
pub open spec fn optional_bytes(b: Option<Vec<u8>>) -> Option<Seq<u8>> {
    match b {
        None => None,
        Some(b) => Some(b@),
    }
}

impl View for StoreResponse {
    type V = StoreResponseModel;

    open spec fn view(&self) -> StoreResponseModel {
        match self {
            StoreResponse::Ack => StoreResponseModel::Ack,
            StoreResponse::NeedFull => StoreResponseModel::NeedFull,
            StoreResponse::Value { bytes } => StoreResponseModel::Value {
                bytes: optional_bytes(*bytes),
            },
            StoreResponse::IdList { ids, done } => StoreResponseModel::IdList {
                ids: ids@,
                done: *done,
            },
            StoreResponse::TransferProgress { copied, dirty, done } => {
                StoreResponseModel::TransferProgress {
                    copied: *copied,
                    dirty: *dirty,
                    done: *done,
                }
            },
            StoreResponse::Identity { node_id, log_id } => StoreResponseModel::Identity {
                node_id: *node_id,
                log_id: *log_id,
            },
            StoreResponse::Error { message } => StoreResponseModel::Error { message: message@ },
        }
    }
}

// ---- requests ----

/// The bytes of a request behind its version byte.
pub open spec fn store_request_body(m: StoreRequestModel) -> Seq<u8> {
    match m {
        StoreRequestModel::Put { id, bytes, n } => seq![REQ_PUT] + (id.bytes() + (le16(n)
            + bytes)),
        StoreRequestModel::Patch { id, delta, n } => seq![REQ_PATCH] + (id.bytes() + (le16(n)
            + delta)),
        StoreRequestModel::Get { id } => seq![REQ_GET] + id.bytes(),
        StoreRequestModel::Delete { id } => seq![REQ_DELETE] + id.bytes(),
        StoreRequestModel::ListIds { after, limit } => seq![REQ_LIST_IDS] + (optional_id_field(
            after,
        ) + le32(limit)),
        StoreRequestModel::Transfer { transfer_id, ids, dest_address } => seq![REQ_TRANSFER] + (
        transfer_id.bytes() + (list_field::<DatumId>(ids) + text_field(dest_address))),
        StoreRequestModel::TransferStatus { transfer_id } => seq![REQ_TRANSFER_STATUS]
            + transfer_id.bytes(),
        StoreRequestModel::FinishTransfer { transfer_id } => seq![REQ_FINISH_TRANSFER]
            + transfer_id.bytes(),
        StoreRequestModel::Retire { transfer_id } => seq![REQ_RETIRE] + transfer_id.bytes(),
        StoreRequestModel::Identify => seq![REQ_IDENTIFY],
    }
}

/// The bytes of a request.
pub open spec fn store_request_bytes(m: StoreRequestModel) -> Seq<u8> {
    seq![STORE_PROTOCOL_VERSION] + store_request_body(m)
}

fn put_tagged_id(buf: &mut Vec<u8>, tag: u8, id: DatumId)
    ensures
        final(buf)@ == old(buf)@ + (seq![tag] + id.bytes()),
{
    broadcast use lemma_append_associates;

    put_u8(buf, tag);
    put_id(buf, id);
}

pub fn encode_store_request(req: &StoreRequest) -> (buf: Vec<u8>)
    ensures
        buf@ == store_request_bytes(req@),
{
    broadcast use lemma_append_associates;

    let mut buf: Vec<u8> = Vec::new();
    put_u8(&mut buf, STORE_PROTOCOL_VERSION);
    assert(buf@ =~= seq![STORE_PROTOCOL_VERSION]);
    match req {
        StoreRequest::Put { id, bytes, n } => {
            put_u8(&mut buf, REQ_PUT);
            put_id(&mut buf, *id);
            put_u16(&mut buf, *n);
            put_raw(&mut buf, bytes.as_slice());
        },
        StoreRequest::Patch { id, delta, n } => {
            put_u8(&mut buf, REQ_PATCH);
            put_id(&mut buf, *id);
            put_u16(&mut buf, *n);
            put_raw(&mut buf, delta.as_slice());
        },
        StoreRequest::Get { id } => put_tagged_id(&mut buf, REQ_GET, *id),
        StoreRequest::Delete { id } => put_tagged_id(&mut buf, REQ_DELETE, *id),
        StoreRequest::ListIds { after, limit } => {
            put_u8(&mut buf, REQ_LIST_IDS);
            put_optional_id(&mut buf, *after);
            put_u32(&mut buf, *limit);
        },
        StoreRequest::Transfer { transfer_id, ids, dest_address } => {
            put_u8(&mut buf, REQ_TRANSFER);
            put_id(&mut buf, *transfer_id);
            put_list(&mut buf, ids.as_slice());
            put_text(&mut buf, dest_address.as_str());
            assert(models(ids@) =~= ids@);
        },
        StoreRequest::TransferStatus { transfer_id } => put_tagged_id(
            &mut buf,
            REQ_TRANSFER_STATUS,
            *transfer_id,
        ),
        StoreRequest::FinishTransfer { transfer_id } => put_tagged_id(
            &mut buf,
            REQ_FINISH_TRANSFER,
            *transfer_id,
        ),
        StoreRequest::Retire { transfer_id } => put_tagged_id(&mut buf, REQ_RETIRE, *transfer_id),
        StoreRequest::Identify => put_u8(&mut buf, REQ_IDENTIFY),
    }
    buf
}

/// An id, a replication factor, and content to the end.
pub open spec fn parse_write(s: Seq<u8>) -> Result<(DatumId, u16, Seq<u8>), WireError> {
    match parse_id(s) {
        Err(e) => Err(e),
        Ok((id, s1)) => match parse_u16(s1) {
            Err(e) => Err(e),
            Ok((n, content)) => Ok((id, n, content)),
        },
    }
}

pub open spec fn parse_list_ids(s: Seq<u8>) -> Result<StoreRequestModel, WireError> {
    match parse_optional_id(s) {
        Err(e) => Err(e.of_flag(Tag::ListIdsAfter, Missing::ListIdsAfterFlag)),
        Ok((after, s1)) => match whole(parse_u32(s1), Subject::StoreListIds) {
            Err(e) => Err(e),
            Ok(limit) => Ok(StoreRequestModel::ListIds { after, limit }),
        },
    }
}

/// The error for a text whose length is read as a number.
pub open spec fn address_error(e: WireError) -> WireError {
    match e {
        WireError::Truncated { part: Part::Prefix, left } => {
            WireError::Truncated { part: Part::U32, left }
        },
        _ => e.of_text(TextField::DestAddress),
    }
}

fn as_address_error(e: WireError) -> (r: WireError)
    ensures
        r == address_error(e),
{
    match e {
        WireError::Truncated { part: Part::Prefix, left } => {
            WireError::Truncated { part: Part::U32, left }
        },
        _ => e.in_text(TextField::DestAddress),
    }
}

/// A transfer. What follows its last field is ignored.
pub open spec fn parse_transfer(s: Seq<u8>) -> Result<StoreRequestModel, WireError> {
    match parse_id(s) {
        Err(e) => Err(e),
        Ok((transfer_id, s1)) => match parse_list::<DatumId>(s1) {
            Err(e) => Err(e),
            Ok((ids, s2)) => match parse_text(s2) {
                Err(e) => Err(address_error(e)),
                Ok((dest_address, _)) => Ok(
                    StoreRequestModel::Transfer { transfer_id, ids, dest_address },
                ),
            },
        },
    }
}

/// The request that bytes behind a version byte spell. Whether the delta of a
/// patch is one is for its own codec to say.
pub open spec fn parse_store_request_body(s: Seq<u8>, delta_decodes: bool) -> Result<
    StoreRequestModel,
    WireError,
> {
    if s.len() == 0 {
        Err(WireError::Empty { what: Subject::StoreRequest })
    } else {
        let rest = s.skip(1);
        if s[0] == REQ_PUT {
            match parse_write(rest) {
                Err(e) => Err(e),
                Ok((id, n, bytes)) => Ok(StoreRequestModel::Put { id, bytes, n }),
            }
        } else if s[0] == REQ_PATCH {
            match parse_write(rest) {
                Err(e) => Err(e),
                Ok((id, n, delta)) => if delta_decodes {
                    Ok(StoreRequestModel::Patch { id, delta, n })
                } else {
                    Err(WireError::MalformedDelta)
                },
            }
        } else if s[0] == REQ_GET {
            match whole(parse_id(rest), Subject::StoreGet) {
                Err(e) => Err(e),
                Ok(id) => Ok(StoreRequestModel::Get { id }),
            }
        } else if s[0] == REQ_DELETE {
            match whole(parse_id(rest), Subject::StoreDelete) {
                Err(e) => Err(e),
                Ok(id) => Ok(StoreRequestModel::Delete { id }),
            }
        } else if s[0] == REQ_LIST_IDS {
            parse_list_ids(rest)
        } else if s[0] == REQ_TRANSFER {
            parse_transfer(rest)
        } else if s[0] == REQ_TRANSFER_STATUS {
            match whole(parse_id(rest), Subject::StoreTransferStatus) {
                Err(e) => Err(e),
                Ok(transfer_id) => Ok(StoreRequestModel::TransferStatus { transfer_id }),
            }
        } else if s[0] == REQ_FINISH_TRANSFER {
            match whole(parse_id(rest), Subject::StoreFinishTransfer) {
                Err(e) => Err(e),
                Ok(transfer_id) => Ok(StoreRequestModel::FinishTransfer { transfer_id }),
            }
        } else if s[0] == REQ_RETIRE {
            match whole(parse_id(rest), Subject::StoreRetire) {
                Err(e) => Err(e),
                Ok(transfer_id) => Ok(StoreRequestModel::Retire { transfer_id }),
            }
        } else if s[0] == REQ_IDENTIFY {
            if rest.len() > 0 {
                Err(WireError::TrailingBytes { what: Subject::StoreIdentify, count: rest.len() as u64 })
            } else {
                Ok(StoreRequestModel::Identify)
            }
        } else {
            Err(WireError::UnknownTag { what: Tag::StoreRequest, tag: s[0] })
        }
    }
}

/// The request that bytes spell.
pub open spec fn parse_store_request(s: Seq<u8>, delta_decodes: bool) -> Result<
    StoreRequestModel,
    WireError,
> {
    match parse_version(s, Subject::StoreRequest, STORE_PROTOCOL_VERSION) {
        Err(e) => Err(e),
        Ok(body) => placed(parse_store_request_body(body, delta_decodes), body.len()),
    }
}

/// A decoded request, viewed.
pub open spec fn store_request_view(r: Result<StoreRequest, WireError>) -> Result<
    StoreRequestModel,
    WireError,
> {
    match r {
        Ok(req) => Ok(req@),
        Err(e) => Err(e),
    }
}

/// An id that nothing may follow.
fn take_last_id(buf: &[u8], what: Subject) -> (r: Result<DatumId, WireError>)
    ensures
        r == whole(parse_id(buf@), what),
{
    match take_id(buf) {
        Err(e) => Err(e),
        Ok((id, rest)) => if rest.len() > 0 {
            Err(WireError::TrailingBytes { what, count: rest.len() as u64 })
        } else {
            Ok(id)
        },
    }
}

fn take_write(buf: &[u8]) -> (r: Result<(DatumId, u16, Vec<u8>), WireError>)
    ensures
        (match r {
            Ok((id, n, content)) => Ok::<(DatumId, u16, Seq<u8>), WireError>((id, n, content@)),
            Err(e) => Err(e),
        }) == parse_write(buf@),
{
    let (id, s1) = match take_id(buf) {
        Err(e) => return Err(e),
        Ok(x) => x,
    };
    let (n, s2) = match take_u16(s1) {
        Err(e) => return Err(e),
        Ok(x) => x,
    };
    Ok((id, n, copy_of(s2)))
}

fn decode_list_ids(buf: &[u8]) -> (r: Result<StoreRequest, WireError>)
    ensures
        store_request_view(r) == parse_list_ids(buf@),
{
    let (after, s1) = match take_optional_id(buf) {
        Err(e) => return Err(e.in_flag(Tag::ListIdsAfter, Missing::ListIdsAfterFlag)),
        Ok(x) => x,
    };
    let (limit, s2) = match take_u32(s1) {
        Err(e) => return Err(e),
        Ok(x) => x,
    };
    if s2.len() > 0 {
        return Err(WireError::TrailingBytes { what: Subject::StoreListIds, count: s2.len() as u64 });
    }
    Ok(StoreRequest::ListIds { after, limit })
}

fn decode_transfer(buf: &[u8]) -> (r: Result<StoreRequest, WireError>)
    ensures
        store_request_view(r) == parse_transfer(buf@),
{
    let (transfer_id, s1) = match take_id(buf) {
        Err(e) => return Err(e),
        Ok(x) => x,
    };
    let (ids, s2) = match take_list::<DatumId>(s1) {
        Err(e) => return Err(e),
        Ok(x) => x,
    };
    assert(models(ids@) =~= ids@);
    let (dest_address, _) = match take_text(s2) {
        Err(e) => return Err(as_address_error(e)),
        Ok(x) => x,
    };
    Ok(StoreRequest::Transfer { transfer_id, ids, dest_address })
}

/// Decodes a request. Where it is a patch, `delta_decodes` is what the codec of
/// deltas says of the bytes that [`patch_delta`] gives.
pub fn decode_store_request(buf: &[u8], delta_decodes: bool) -> (r: Result<StoreRequest, WireError>)
    ensures
        store_request_view(r) == parse_store_request(buf@, delta_decodes),
{
    let body = match check_version(buf, Subject::StoreRequest, STORE_PROTOCOL_VERSION) {
        Err(e) => return Err(e),
        Ok(body) => body,
    };
    match decode_store_request_body(body, delta_decodes) {
        Err(e) => Err(e.locate(body.len())),
        Ok(request) => Ok(request),
    }
}

/// The bytes of the delta in an encoded patch.
pub fn patch_delta(buf: &[u8]) -> (delta: Option<Vec<u8>>)
    ensures
        optional_bytes(delta) == match parse_store_request(buf@, true) {
            Ok(StoreRequestModel::Patch { delta, .. }) => Some(delta),
            _ => None,
        },
{
    match decode_store_request(buf, true) {
        Ok(StoreRequest::Patch { delta, .. }) => Some(delta),
        _ => None,
    }
}

fn decode_store_request_body(body: &[u8], delta_decodes: bool) -> (r: Result<
    StoreRequest,
    WireError,
>)
    ensures
        store_request_view(r) == parse_store_request_body(body@, delta_decodes),
{
    if body.len() == 0 {
        return Err(WireError::Empty { what: Subject::StoreRequest });
    }
    let tag: u8 = body[0];
    let rest = rest_of(body, 1);
    if tag == REQ_PUT {
        match take_write(rest) {
            Err(e) => Err(e),
            Ok((id, n, bytes)) => Ok(StoreRequest::Put { id, bytes, n }),
        }
    } else if tag == REQ_PATCH {
        match take_write(rest) {
            Err(e) => Err(e),
            Ok((id, n, delta)) => if delta_decodes {
                Ok(StoreRequest::Patch { id, delta, n })
            } else {
                Err(WireError::MalformedDelta)
            },
        }
    } else if tag == REQ_GET {
        match take_last_id(rest, Subject::StoreGet) {
            Err(e) => Err(e),
            Ok(id) => Ok(StoreRequest::Get { id }),
        }
    } else if tag == REQ_DELETE {
        match take_last_id(rest, Subject::StoreDelete) {
            Err(e) => Err(e),
            Ok(id) => Ok(StoreRequest::Delete { id }),
        }
    } else if tag == REQ_LIST_IDS {
        decode_list_ids(rest)
    } else if tag == REQ_TRANSFER {
        decode_transfer(rest)
    } else if tag == REQ_TRANSFER_STATUS {
        match take_last_id(rest, Subject::StoreTransferStatus) {
            Err(e) => Err(e),
            Ok(transfer_id) => Ok(StoreRequest::TransferStatus { transfer_id }),
        }
    } else if tag == REQ_FINISH_TRANSFER {
        match take_last_id(rest, Subject::StoreFinishTransfer) {
            Err(e) => Err(e),
            Ok(transfer_id) => Ok(StoreRequest::FinishTransfer { transfer_id }),
        }
    } else if tag == REQ_RETIRE {
        match take_last_id(rest, Subject::StoreRetire) {
            Err(e) => Err(e),
            Ok(transfer_id) => Ok(StoreRequest::Retire { transfer_id }),
        }
    } else if tag == REQ_IDENTIFY {
        if rest.len() > 0 {
            Err(WireError::TrailingBytes { what: Subject::StoreIdentify, count: rest.len() as u64 })
        } else {
            Ok(StoreRequest::Identify)
        }
    } else {
        Err(WireError::UnknownTag { what: Tag::StoreRequest, tag })
    }
}

/// Whether the lengths in a request fit their prefixes of 32 bits.
pub open spec fn store_request_fits(m: StoreRequestModel) -> bool {
    match m {
        StoreRequestModel::Transfer { ids, dest_address, .. } => ids.len() <= u32::MAX
            && text_fits(dest_address),
        _ => true,
    }
}

proof fn lemma_last_id(id: DatumId, what: Subject)
    ensures
        whole(parse_id(id.bytes()), what) == Ok::<DatumId, WireError>(id),
{
    assert(id.bytes() + seq![] =~= id.bytes());
    lemma_parse_id(id, seq![]);
}

/// Decoding gives back the request that was encoded.
pub proof fn law_store_request_round_trip(m: StoreRequestModel)
    requires
        store_request_fits(m),
    ensures
        parse_store_request(store_request_bytes(m), true) == Ok::<StoreRequestModel, WireError>(m),
{
    let body = store_request_body(m);
    assert(store_request_bytes(m).skip(1) =~= body);
    match m {
        StoreRequestModel::Put { id, bytes, n } => {
            assert(body.skip(1) =~= id.bytes() + (le16(n) + bytes));
            lemma_parse_id(id, le16(n) + bytes);
            lemma_parse_u16(n, bytes);
        },
        StoreRequestModel::Patch { id, delta, n } => {
            assert(body.skip(1) =~= id.bytes() + (le16(n) + delta));
            lemma_parse_id(id, le16(n) + delta);
            lemma_parse_u16(n, delta);
        },
        StoreRequestModel::Get { id } => {
            assert(body.skip(1) =~= id.bytes());
            lemma_last_id(id, Subject::StoreGet);
        },
        StoreRequestModel::Delete { id } => {
            assert(body.skip(1) =~= id.bytes());
            lemma_last_id(id, Subject::StoreDelete);
        },
        StoreRequestModel::ListIds { after, limit } => {
            assert(body.skip(1) =~= optional_id_field(after) + le32(limit));
            lemma_parse_optional_id(after, le32(limit));
            assert(le32(limit) + seq![] =~= le32(limit));
            lemma_parse_u32(limit, seq![]);
        },
        StoreRequestModel::Transfer { transfer_id, ids, dest_address } => {
            let t2 = text_field(dest_address);
            let t1 = list_field::<DatumId>(ids) + t2;
            assert(body.skip(1) =~= transfer_id.bytes() + t1);
            lemma_parse_id(transfer_id, t1);
            lemma_list_round_trip::<DatumId>(ids, t2);
            assert(t2 + seq![] =~= t2);
            lemma_parse_text(dest_address, seq![]);
        },
        StoreRequestModel::TransferStatus { transfer_id } => {
            assert(body.skip(1) =~= transfer_id.bytes());
            lemma_last_id(transfer_id, Subject::StoreTransferStatus);
        },
        StoreRequestModel::FinishTransfer { transfer_id } => {
            assert(body.skip(1) =~= transfer_id.bytes());
            lemma_last_id(transfer_id, Subject::StoreFinishTransfer);
        },
        StoreRequestModel::Retire { transfer_id } => {
            assert(body.skip(1) =~= transfer_id.bytes());
            lemma_last_id(transfer_id, Subject::StoreRetire);
        },
        StoreRequestModel::Identify => {},
    }
}

// ---- responses ----

pub open spec fn flag_byte(b: bool) -> u8 {
    if b {
        1
    } else {
        0
    }
}

fn put_flag(buf: &mut Vec<u8>, b: bool)
    ensures
        final(buf)@ == old(buf)@ + seq![flag_byte(b)],
{
    put_u8(
        buf,
        if b {
            1
        } else {
            0
        },
    );
}

/// The bytes of a response behind its version byte.
pub open spec fn store_response_body(m: StoreResponseModel) -> Seq<u8> {
    match m {
        StoreResponseModel::Ack => seq![RESP_ACK],
        StoreResponseModel::NeedFull => seq![RESP_NEED_FULL],
        StoreResponseModel::Value { bytes } => match bytes {
            None => seq![RESP_VALUE] + seq![0u8],
            Some(bytes) => seq![RESP_VALUE] + (seq![1u8] + bytes),
        },
        StoreResponseModel::IdList { ids, done } => seq![RESP_ID_LIST] + (seq![flag_byte(done)]
            + list_field::<(DatumId, u16)>(ids)),
        StoreResponseModel::TransferProgress { copied, dirty, done } => {
            seq![RESP_TRANSFER_PROGRESS] + (le64(copied) + (le64(dirty) + seq![flag_byte(done)]))
        },
        StoreResponseModel::Identity { node_id, log_id } => seq![RESP_IDENTITY] + (le64(node_id.0)
            + log_id.bytes()),
        StoreResponseModel::Error { message } => seq![RESP_ERROR] + encode_utf8(message),
    }
}

/// The bytes of a response.
pub open spec fn store_response_bytes(m: StoreResponseModel) -> Seq<u8> {
    seq![STORE_PROTOCOL_VERSION] + store_response_body(m)
}

pub fn encode_store_response(resp: &StoreResponse) -> (buf: Vec<u8>)
    ensures
        buf@ == store_response_bytes(resp@),
{
    broadcast use lemma_append_associates;

    let mut buf: Vec<u8> = Vec::new();
    put_u8(&mut buf, STORE_PROTOCOL_VERSION);
    assert(buf@ =~= seq![STORE_PROTOCOL_VERSION]);
    match resp {
        StoreResponse::Ack => put_u8(&mut buf, RESP_ACK),
        StoreResponse::NeedFull => put_u8(&mut buf, RESP_NEED_FULL),
        StoreResponse::Value { bytes } => {
            put_u8(&mut buf, RESP_VALUE);
            match bytes {
                None => put_u8(&mut buf, 0),
                Some(bytes) => {
                    put_u8(&mut buf, 1);
                    put_raw(&mut buf, bytes.as_slice());
                },
            }
        },
        StoreResponse::IdList { ids, done } => {
            put_u8(&mut buf, RESP_ID_LIST);
            put_flag(&mut buf, *done);
            put_list(&mut buf, ids.as_slice());
            assert(models(ids@) =~= ids@);
        },
        StoreResponse::TransferProgress { copied, dirty, done } => {
            put_u8(&mut buf, RESP_TRANSFER_PROGRESS);
            put_u64(&mut buf, *copied);
            put_u64(&mut buf, *dirty);
            put_flag(&mut buf, *done);
        },
        StoreResponse::Identity { node_id, log_id } => {
            put_u8(&mut buf, RESP_IDENTITY);
            put_u64(&mut buf, node_id.0);
            put_id(&mut buf, *log_id);
        },
        StoreResponse::Error { message } => {
            put_u8(&mut buf, RESP_ERROR);
            put_raw_text(&mut buf, message.as_str());
        },
    }
    buf
}

/// A value: a flag, and the content where there is one. Behind a flag of none
/// the bytes are ignored.
pub open spec fn parse_value(s: Seq<u8>) -> Result<StoreResponseModel, WireError> {
    match parse_u8(s) {
        Err(_) => Err(WireError::Missing { what: Missing::StoreValueFlag }),
        Ok((flag, rest)) => if flag == 0 {
            Ok(StoreResponseModel::Value { bytes: None })
        } else if flag == 1 {
            Ok(StoreResponseModel::Value { bytes: Some(rest) })
        } else {
            Err(WireError::UnknownTag { what: Tag::StoreValue, tag: flag })
        },
    }
}

/// A page of ids. Any flag but zero says that it is the last; what follows the
/// last id is ignored.
pub open spec fn parse_id_list(s: Seq<u8>) -> Result<StoreResponseModel, WireError> {
    match parse_u8(s) {
        Err(_) => Err(WireError::Missing { what: Missing::IdListDoneFlag }),
        Ok((flag, s1)) => match parse_list::<(DatumId, u16)>(s1) {
            Err(e) => Err(e),
            Ok((ids, _)) => Ok(StoreResponseModel::IdList { ids, done: flag != 0 }),
        },
    }
}

/// The progress of a transfer. Any flag but zero says that it is done; what
/// follows the flag is ignored.
pub open spec fn parse_progress(s: Seq<u8>) -> Result<StoreResponseModel, WireError> {
    match parse_u64(s) {
        Err(e) => Err(e),
        Ok((copied, s1)) => match parse_u64(s1) {
            Err(e) => Err(e),
            Ok((dirty, s2)) => match parse_u8(s2) {
                Err(_) => Err(WireError::Missing { what: Missing::TransferDoneFlag }),
                Ok((flag, _)) => Ok(
                    StoreResponseModel::TransferProgress { copied, dirty, done: flag != 0 },
                ),
            },
        },
    }
}

/// A node's identity. What follows it is ignored.
pub open spec fn parse_identity(s: Seq<u8>) -> Result<StoreResponseModel, WireError> {
    match parse_u64(s) {
        Err(e) => Err(e),
        Ok((node, s1)) => match parse_id(s1) {
            Err(e) => Err(e),
            Ok((log_id, _)) => Ok(StoreResponseModel::Identity { node_id: NodeId(node), log_id }),
        },
    }
}

/// The response that bytes behind a version byte spell. What follows an
/// acknowledgement or a wish for the whole content is ignored.
pub open spec fn parse_store_response_body(s: Seq<u8>) -> Result<StoreResponseModel, WireError> {
    if s.len() == 0 {
        Err(WireError::Empty { what: Subject::StoreResponse })
    } else if s[0] == RESP_ACK {
        Ok(StoreResponseModel::Ack)
    } else if s[0] == RESP_NEED_FULL {
        Ok(StoreResponseModel::NeedFull)
    } else if s[0] == RESP_VALUE {
        parse_value(s.skip(1))
    } else if s[0] == RESP_ID_LIST {
        parse_id_list(s.skip(1))
    } else if s[0] == RESP_TRANSFER_PROGRESS {
        parse_progress(s.skip(1))
    } else if s[0] == RESP_IDENTITY {
        parse_identity(s.skip(1))
    } else if s[0] == RESP_ERROR {
        match text_of(s.skip(1)) {
            Err(e) => Err(e.of_text(TextField::StoreError)),
            Ok(message) => Ok(StoreResponseModel::Error { message }),
        }
    } else {
        Err(WireError::UnknownTag { what: Tag::StoreResponse, tag: s[0] })
    }
}

/// The response that bytes spell.
pub open spec fn parse_store_response(s: Seq<u8>) -> Result<StoreResponseModel, WireError> {
    match parse_version(s, Subject::StoreResponse, STORE_PROTOCOL_VERSION) {
        Err(e) => Err(e),
        Ok(body) => placed(parse_store_response_body(body), body.len()),
    }
}

/// A decoded response, viewed.
pub open spec fn store_response_view(r: Result<StoreResponse, WireError>) -> Result<
    StoreResponseModel,
    WireError,
> {
    match r {
        Ok(resp) => Ok(resp@),
        Err(e) => Err(e),
    }
}

fn decode_value(buf: &[u8]) -> (r: Result<StoreResponse, WireError>)
    ensures
        store_response_view(r) == parse_value(buf@),
{
    match take_u8(buf) {
        Err(_) => Err(WireError::Missing { what: Missing::StoreValueFlag }),
        Ok((flag, rest)) => if flag == 0 {
            Ok(StoreResponse::Value { bytes: None })
        } else if flag == 1 {
            Ok(StoreResponse::Value { bytes: Some(copy_of(rest)) })
        } else {
            Err(WireError::UnknownTag { what: Tag::StoreValue, tag: flag })
        },
    }
}

fn decode_id_list(buf: &[u8]) -> (r: Result<StoreResponse, WireError>)
    ensures
        store_response_view(r) == parse_id_list(buf@),
{
    let (flag, s1) = match take_u8(buf) {
        Err(_) => return Err(WireError::Missing { what: Missing::IdListDoneFlag }),
        Ok(x) => x,
    };
    let (ids, _) = match take_list::<(DatumId, u16)>(s1) {
        Err(e) => return Err(e),
        Ok(x) => x,
    };
    assert(models(ids@) =~= ids@);
    Ok(StoreResponse::IdList { ids, done: flag != 0 })
}

fn decode_progress(buf: &[u8]) -> (r: Result<StoreResponse, WireError>)
    ensures
        store_response_view(r) == parse_progress(buf@),
{
    let (copied, s1) = match take_u64(buf) {
        Err(e) => return Err(e),
        Ok(x) => x,
    };
    let (dirty, s2) = match take_u64(s1) {
        Err(e) => return Err(e),
        Ok(x) => x,
    };
    let (flag, _) = match take_u8(s2) {
        Err(_) => return Err(WireError::Missing { what: Missing::TransferDoneFlag }),
        Ok(x) => x,
    };
    Ok(StoreResponse::TransferProgress { copied, dirty, done: flag != 0 })
}

fn decode_identity(buf: &[u8]) -> (r: Result<StoreResponse, WireError>)
    ensures
        store_response_view(r) == parse_identity(buf@),
{
    let (node, s1) = match take_u64(buf) {
        Err(e) => return Err(e),
        Ok(x) => x,
    };
    let (log_id, _) = match take_id(s1) {
        Err(e) => return Err(e),
        Ok(x) => x,
    };
    Ok(StoreResponse::Identity { node_id: NodeId(node), log_id })
}

pub fn decode_store_response(buf: &[u8]) -> (r: Result<StoreResponse, WireError>)
    ensures
        store_response_view(r) == parse_store_response(buf@),
{
    let body = match check_version(buf, Subject::StoreResponse, STORE_PROTOCOL_VERSION) {
        Err(e) => return Err(e),
        Ok(body) => body,
    };
    match decode_store_response_body(body) {
        Err(e) => Err(e.locate(body.len())),
        Ok(response) => Ok(response),
    }
}

fn decode_store_response_body(body: &[u8]) -> (r: Result<StoreResponse, WireError>)
    ensures
        store_response_view(r) == parse_store_response_body(body@),
{
    if body.len() == 0 {
        return Err(WireError::Empty { what: Subject::StoreResponse });
    }
    let tag: u8 = body[0];
    let rest = rest_of(body, 1);
    if tag == RESP_ACK {
        Ok(StoreResponse::Ack)
    } else if tag == RESP_NEED_FULL {
        Ok(StoreResponse::NeedFull)
    } else if tag == RESP_VALUE {
        decode_value(rest)
    } else if tag == RESP_ID_LIST {
        decode_id_list(rest)
    } else if tag == RESP_TRANSFER_PROGRESS {
        decode_progress(rest)
    } else if tag == RESP_IDENTITY {
        decode_identity(rest)
    } else if tag == RESP_ERROR {
        match text_from(copy_of(rest)) {
            Err(e) => Err(e.in_text(TextField::StoreError)),
            Ok(message) => Ok(StoreResponse::Error { message }),
        }
    } else {
        Err(WireError::UnknownTag { what: Tag::StoreResponse, tag })
    }
}

/// Decoding gives back the response that was encoded, where a list of ids is
/// not longer than its prefix of 32 bits can say.
pub proof fn law_store_response_round_trip(m: StoreResponseModel)
    requires
        m matches StoreResponseModel::IdList { ids, .. } ==> ids.len() <= u32::MAX,
    ensures
        parse_store_response(store_response_bytes(m)) == Ok::<StoreResponseModel, WireError>(m),
{
    let body = store_response_body(m);
    assert(store_response_bytes(m).skip(1) =~= body);
    match m {
        StoreResponseModel::Ack => {},
        StoreResponseModel::NeedFull => {},
        StoreResponseModel::Value { bytes } => match bytes {
            None => {
                assert(body.skip(1) =~= seq![0u8] + seq![]);
                lemma_parse_u8(0, seq![]);
            },
            Some(bytes) => {
                assert(body.skip(1) =~= seq![1u8] + bytes);
                lemma_parse_u8(1, bytes);
            },
        },
        StoreResponseModel::IdList { ids, done } => {
            let t1 = list_field::<(DatumId, u16)>(ids);
            assert(body.skip(1) =~= seq![flag_byte(done)] + t1);
            lemma_parse_u8(flag_byte(done), t1);
            assert(t1 + seq![] =~= t1);
            lemma_list_round_trip::<(DatumId, u16)>(ids, seq![]);
        },
        StoreResponseModel::TransferProgress { copied, dirty, done } => {
            let t2 = seq![flag_byte(done)];
            let t1 = le64(dirty) + t2;
            assert(body.skip(1) =~= le64(copied) + t1);
            lemma_parse_u64(copied, t1);
            lemma_parse_u64(dirty, t2);
            assert(t2 + seq![] =~= t2);
            lemma_parse_u8(flag_byte(done), seq![]);
        },
        StoreResponseModel::Identity { node_id, log_id } => {
            assert(body.skip(1) =~= le64(node_id.0) + log_id.bytes());
            lemma_parse_u64(node_id.0, log_id.bytes());
            lemma_last_id(log_id, Subject::StoreResponse);
        },
        StoreResponseModel::Error { message } => {
            assert(body.skip(1) =~= encode_utf8(message));
            lemma_text_of(message);
        },
    }
}

/// A message of another version of the storage protocol is refused as such,
/// whatever follows its version byte.
pub proof fn law_other_store_version_refused(version: u8, rest: Seq<u8>, delta_decodes: bool)
    requires
        version != STORE_PROTOCOL_VERSION,
    ensures
        parse_store_request(seq![version] + rest, delta_decodes) == Err::<StoreRequestModel, WireError>(
            WireError::UnsupportedVersion {
                what: Subject::StoreRequest,
                version,
                supported: STORE_PROTOCOL_VERSION,
            },
        ),
        parse_store_response(seq![version] + rest) == Err::<StoreResponseModel, WireError>(
            WireError::UnsupportedVersion {
                what: Subject::StoreResponse,
                version,
                supported: STORE_PROTOCOL_VERSION,
            },
        ),
{
}

} // verus!
