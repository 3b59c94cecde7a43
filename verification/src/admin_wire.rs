//! An operator's requests on the wire. They come in where clients' requests do,
//! under the same version, and have tags of their own.

use crate::authority::NodeId;
use crate::bytes::{
    le32, le64, lemma_append_associates, lemma_parse_text, lemma_parse_u32, lemma_parse_u64,
    lemma_parse_u8, parse_text, parse_u32, parse_u64, parse_u8, put_text, put_u32, put_u64, put_u8,
    take_text, take_u32, take_u64, take_u8, text_field, whole, Parsed,
};
use crate::datum::{lemma_parse_id, parse_id, put_id, take_id};
use crate::list_wire::{
    all_fit, lemma_list_round_trip, list_field, models, parse_list, put_list, take_list, Wire,
};
use crate::request::{
    check_version, decode_request, parse_request, parse_version, text_fits, RequestModel,
    PROTOCOL_VERSION,
};
use crate::server::{
    members_view, AdminReply, AdminRequest, ClientRequest, StorageMember, StorageMemberModel,
};
use crate::wire_error::{Subject, Tag, WireError};
use vstd::prelude::*;

verus! {

pub const OP_GET_CLUSTER_CONFIG: u8 = 9;

pub const OP_PAUSE: u8 = 10;

pub const OP_RESUME: u8 = 11;

pub const OP_CLEAR_HALT: u8 = 12;

pub const OP_INSTALL_STORAGE_RING: u8 = 13;

pub const RESP_ADMIN_ACK: u8 = 9;

pub const RESP_CLUSTER_CONFIG: u8 = 10;

/// A member in a list.
impl Wire for StorageMember {
    type Model = StorageMemberModel;

    open spec fn model(self) -> StorageMemberModel {
        self@
    }

    open spec fn bytes_of(m: StorageMemberModel) -> Seq<u8> {
        le64(m.node_id.0) + (le32(m.weight) + (text_field(m.store_address) + m.log_id.bytes()))
    }

    open spec fn parse(s: Seq<u8>) -> Parsed<StorageMemberModel> {
        match parse_u64(s) {
            Err(e) => Err(e),
            Ok((node, s1)) => match parse_u32(s1) {
                Err(e) => Err(e),
                Ok((weight, s2)) => match parse_text(s2) {
                    Err(e) => Err(e),
                    Ok((store_address, s3)) => match parse_id(s3) {
                        Err(e) => Err(e),
                        Ok((log_id, rest)) => Ok(
                            (
                                StorageMemberModel {
                                    node_id: NodeId(node),
                                    weight,
                                    store_address,
                                    log_id,
                                },
                                rest,
                            ),
                        ),
                    },
                },
            },
        }
    }

    open spec fn fits(m: StorageMemberModel) -> bool {
        text_fits(m.store_address)
    }

    fn put(&self, out: &mut Vec<u8>) {
        broadcast use lemma_append_associates;

        put_u64(out, self.node_id.0);
        put_u32(out, self.weight);
        put_text(out, self.store_address.as_str());
        put_id(out, self.log_id);
    }

    fn take(buf: &[u8]) -> (r: Result<(Self, &[u8]), WireError>) {
        let (node, s1) = match take_u64(buf) {
            Err(e) => return Err(e),
            Ok(x) => x,
        };
        let (weight, s2) = match take_u32(s1) {
            Err(e) => return Err(e),
            Ok(x) => x,
        };
        let (store_address, s3) = match take_text(s2) {
            Err(e) => return Err(e),
            Ok(x) => x,
        };
        match take_id(s3) {
            Err(e) => Err(e),
            Ok((log_id, rest)) => Ok(
                (StorageMember { node_id: NodeId(node), weight, store_address, log_id }, rest),
            ),
        }
    }

    proof fn lemma_round_trip(m: StorageMemberModel, rest: Seq<u8>) {
        let t3 = m.log_id.bytes();
        let t2 = text_field(m.store_address) + t3;
        let t1 = le32(m.weight) + t2;
        lemma_append_associates(le64(m.node_id.0), t1, rest);
        lemma_append_associates(le32(m.weight), t2, rest);
        lemma_append_associates(text_field(m.store_address), t3, rest);
        lemma_parse_u64(m.node_id.0, t1 + rest);
        lemma_parse_u32(m.weight, t2 + rest);
        lemma_parse_text(m.store_address, t3 + rest);
        lemma_parse_id(m.log_id, rest);
    }
}

/// The mathematical content of an [`AdminRequest`].
pub enum AdminRequestModel {
    GetClusterConfig,
    Pause { reason: Seq<char> },
    Resume,
    ClearHalt,
    InstallStorageRing { members: Seq<StorageMemberModel> },
}

impl View for AdminRequest {
    type V = AdminRequestModel;

    open spec fn view(&self) -> AdminRequestModel {
        match self {
            AdminRequest::GetClusterConfig => AdminRequestModel::GetClusterConfig,
            AdminRequest::Pause { reason } => AdminRequestModel::Pause { reason: reason@ },
            AdminRequest::Resume => AdminRequestModel::Resume,
            AdminRequest::ClearHalt => AdminRequestModel::ClearHalt,
            AdminRequest::InstallStorageRing { members } => {
                AdminRequestModel::InstallStorageRing { members: members_view(members@) }
            },
        }
    }
}

/// The bytes of an operator's request.
pub open spec fn admin_bytes(m: AdminRequestModel) -> Seq<u8> {
    seq![PROTOCOL_VERSION] + match m {
        AdminRequestModel::GetClusterConfig => seq![OP_GET_CLUSTER_CONFIG],
        AdminRequestModel::Pause { reason } => seq![OP_PAUSE] + text_field(reason),
        AdminRequestModel::Resume => seq![OP_RESUME],
        AdminRequestModel::ClearHalt => seq![OP_CLEAR_HALT],
        AdminRequestModel::InstallStorageRing { members } => seq![OP_INSTALL_STORAGE_RING]
            + list_field::<StorageMember>(members),
    }
}

/// What stands behind the version byte of an operator's request.
pub open spec fn parse_admin_body(s: Seq<u8>) -> Parsed<AdminRequestModel> {
    match parse_u8(s) {
        Err(e) => Err(e),
        Ok((tag, rest)) => if tag == OP_GET_CLUSTER_CONFIG {
            Ok((AdminRequestModel::GetClusterConfig, rest))
        } else if tag == OP_PAUSE {
            match parse_text(rest) {
                Err(e) => Err(e),
                Ok((reason, rest)) => Ok((AdminRequestModel::Pause { reason }, rest)),
            }
        } else if tag == OP_RESUME {
            Ok((AdminRequestModel::Resume, rest))
        } else if tag == OP_CLEAR_HALT {
            Ok((AdminRequestModel::ClearHalt, rest))
        } else if tag == OP_INSTALL_STORAGE_RING {
            match parse_list::<StorageMember>(rest) {
                Err(e) => Err(e),
                Ok((members, rest)) => Ok(
                    (AdminRequestModel::InstallStorageRing { members }, rest),
                ),
            }
        } else {
            Err(WireError::UnknownTag { what: Tag::AdminRequest, tag })
        },
    }
}

/// The operator's request that bytes spell.
pub open spec fn parse_admin(s: Seq<u8>) -> Result<AdminRequestModel, WireError> {
    match parse_version(s, Subject::Request, PROTOCOL_VERSION) {
        Err(e) => Err(e),
        Ok(body) => whole(parse_admin_body(body), Subject::AdminRequest),
    }
}

pub fn encode_admin_request(request: &AdminRequest) -> (buf: Vec<u8>)
    ensures
        buf@ == admin_bytes(request@),
{
    broadcast use lemma_append_associates;

    let mut buf: Vec<u8> = Vec::new();
    put_u8(&mut buf, PROTOCOL_VERSION);
    assert(buf@ =~= seq![PROTOCOL_VERSION]);
    match request {
        AdminRequest::GetClusterConfig => put_u8(&mut buf, OP_GET_CLUSTER_CONFIG),
        AdminRequest::Pause { reason } => {
            put_u8(&mut buf, OP_PAUSE);
            put_text(&mut buf, reason.as_str());
        },
        AdminRequest::Resume => put_u8(&mut buf, OP_RESUME),
        AdminRequest::ClearHalt => put_u8(&mut buf, OP_CLEAR_HALT),
        AdminRequest::InstallStorageRing { members } => {
            put_u8(&mut buf, OP_INSTALL_STORAGE_RING);
            put_list(&mut buf, members.as_slice());
            assert(models(members@) =~= members_view(members@));
        },
    }
    buf
}

fn decode_admin_body(buf: &[u8]) -> (r: Result<AdminRequest, WireError>)
    ensures
        (match r {
            Ok(a) => Ok::<AdminRequestModel, WireError>(a@),
            Err(e) => Err(e),
        }) == whole(parse_admin_body(buf@), Subject::AdminRequest),
{
    let (tag, s1) = match take_u8(buf) {
        Err(e) => return Err(e),
        Ok(x) => x,
    };
    let (request, rest) = if tag == OP_GET_CLUSTER_CONFIG {
        (AdminRequest::GetClusterConfig, s1)
    } else if tag == OP_PAUSE {
        match take_text(s1) {
            Err(e) => return Err(e),
            Ok((reason, rest)) => (AdminRequest::Pause { reason }, rest),
        }
    } else if tag == OP_RESUME {
        (AdminRequest::Resume, s1)
    } else if tag == OP_CLEAR_HALT {
        (AdminRequest::ClearHalt, s1)
    } else if tag == OP_INSTALL_STORAGE_RING {
        match take_list::<StorageMember>(s1) {
            Err(e) => return Err(e),
            Ok((members, rest)) => {
                assert(models(members@) =~= members_view(members@));
                (AdminRequest::InstallStorageRing { members }, rest)
            },
        }
    } else {
        return Err(WireError::UnknownTag { what: Tag::AdminRequest, tag });
    };
    if rest.len() > 0 {
        return Err(WireError::TrailingBytes { what: Subject::AdminRequest, count: rest.len() as u64 });
    }
    Ok(request)
}

/// Whether bytes are meant as an operator's request: their tag is one of those.
pub open spec fn has_admin_tag(s: Seq<u8>) -> bool {
    s.len() >= 2 && s[0] == PROTOCOL_VERSION && OP_GET_CLUSTER_CONFIG <= s[1]
        <= OP_INSTALL_STORAGE_RING
}

/// Reads what came in on a client's connection.
pub fn decode_client_request(buf: &[u8]) -> (r: Result<ClientRequest, WireError>)
    ensures
        has_admin_tag(buf@) ==> (match r {
            Ok(ClientRequest::Admin(a)) => Ok::<AdminRequestModel, WireError>(a@)
                == parse_admin(buf@),
            Ok(_) => false,
            Err(e) => Err::<AdminRequestModel, WireError>(e) == parse_admin(buf@),
        }),
        !has_admin_tag(buf@) ==> (match r {
            Ok(ClientRequest::Plain(p)) => Ok::<RequestModel, WireError>(p@)
                == parse_request(buf@),
            Ok(_) => false,
            Err(e) => Err::<RequestModel, WireError>(e) == parse_request(buf@),
        }),
{
    if buf.len() >= 2 && buf[0] == PROTOCOL_VERSION && OP_GET_CLUSTER_CONFIG <= buf[1] && buf[1]
        <= OP_INSTALL_STORAGE_RING {
        match check_version(buf, Subject::Request, PROTOCOL_VERSION) {
            Err(e) => Err(e),
            Ok(body) => match decode_admin_body(body) {
                Err(e) => Err(e),
                Ok(a) => Ok(ClientRequest::Admin(a)),
            },
        }
    } else {
        match decode_request(buf) {
            Err(e) => Err(e),
            Ok(p) => Ok(ClientRequest::Plain(p)),
        }
    }
}

/// The mathematical content of an [`AdminReply`].
pub enum AdminReplyModel {
    Ack,
    ClusterConfig { members: Seq<StorageMemberModel> },
}

impl View for AdminReply {
    type V = AdminReplyModel;

    open spec fn view(&self) -> AdminReplyModel {
        match self {
            AdminReply::Ack => AdminReplyModel::Ack,
            AdminReply::ClusterConfig { members } => AdminReplyModel::ClusterConfig {
                members: members_view(members@),
            },
        }
    }
}

/// The bytes of an answer to an operator.
pub open spec fn admin_reply_bytes(m: AdminReplyModel) -> Seq<u8> {
    seq![PROTOCOL_VERSION] + match m {
        AdminReplyModel::Ack => seq![RESP_ADMIN_ACK],
        AdminReplyModel::ClusterConfig { members } => seq![RESP_CLUSTER_CONFIG] + list_field::<
            StorageMember,
        >(members),
    }
}

/// What stands behind the version byte of an answer to an operator.
pub open spec fn parse_admin_reply_body(s: Seq<u8>) -> Parsed<AdminReplyModel> {
    match parse_u8(s) {
        Err(e) => Err(e),
        Ok((tag, rest)) => if tag == RESP_ADMIN_ACK {
            Ok((AdminReplyModel::Ack, rest))
        } else if tag == RESP_CLUSTER_CONFIG {
            match parse_list::<StorageMember>(rest) {
                Err(e) => Err(e),
                Ok((members, rest)) => Ok((AdminReplyModel::ClusterConfig { members }, rest)),
            }
        } else {
            Err(WireError::UnknownTag { what: Tag::AdminReply, tag })
        },
    }
}

/// The answer to an operator that bytes spell.
pub open spec fn parse_admin_reply(s: Seq<u8>) -> Result<AdminReplyModel, WireError> {
    match parse_version(s, Subject::Response, PROTOCOL_VERSION) {
        Err(e) => Err(e),
        Ok(body) => whole(parse_admin_reply_body(body), Subject::AdminReply),
    }
}

pub fn encode_admin_reply(reply: &AdminReply) -> (buf: Vec<u8>)
    ensures
        buf@ == admin_reply_bytes(reply@),
{
    broadcast use lemma_append_associates;

    let mut buf: Vec<u8> = Vec::new();
    put_u8(&mut buf, PROTOCOL_VERSION);
    assert(buf@ =~= seq![PROTOCOL_VERSION]);
    match reply {
        AdminReply::Ack => put_u8(&mut buf, RESP_ADMIN_ACK),
        AdminReply::ClusterConfig { members } => {
            put_u8(&mut buf, RESP_CLUSTER_CONFIG);
            put_list(&mut buf, members.as_slice());
            assert(models(members@) =~= members_view(members@));
        },
    }
    buf
}

pub fn decode_admin_reply(buf: &[u8]) -> (r: Result<AdminReply, WireError>)
    ensures
        (match r {
            Ok(a) => Ok::<AdminReplyModel, WireError>(a@),
            Err(e) => Err(e),
        }) == parse_admin_reply(buf@),
{
    let body = match check_version(buf, Subject::Response, PROTOCOL_VERSION) {
        Err(e) => return Err(e),
        Ok(body) => body,
    };
    let (tag, s1) = match take_u8(body) {
        Err(e) => return Err(e),
        Ok(x) => x,
    };
    let (reply, rest) = if tag == RESP_ADMIN_ACK {
        (AdminReply::Ack, s1)
    } else if tag == RESP_CLUSTER_CONFIG {
        match take_list::<StorageMember>(s1) {
            Err(e) => return Err(e),
            Ok((members, rest)) => {
                assert(models(members@) =~= members_view(members@));
                (AdminReply::ClusterConfig { members }, rest)
            },
        }
    } else {
        return Err(WireError::UnknownTag { what: Tag::AdminReply, tag });
    };
    if rest.len() > 0 {
        return Err(WireError::TrailingBytes { what: Subject::AdminReply, count: rest.len() as u64 });
    }
    Ok(reply)
}

// ---- laws ----

/// Whether the lengths in a list of members fit their prefixes of 32 bits.
pub open spec fn members_fit(members: Seq<StorageMemberModel>) -> bool {
    members.len() <= u32::MAX && all_fit::<StorageMember>(members)
}

/// Decoding gives back the operator's request that was encoded, where its
/// lengths fit their prefixes, and it is not taken for a client's.
pub proof fn law_admin_round_trip(m: AdminRequestModel)
    requires
        m matches AdminRequestModel::Pause { reason } ==> text_fits(reason),
        m matches AdminRequestModel::InstallStorageRing { members } ==> members_fit(members),
    ensures
        parse_admin(admin_bytes(m)) == Ok::<AdminRequestModel, WireError>(m),
        has_admin_tag(admin_bytes(m)),
{
    let none = Seq::<u8>::empty();
    let body = admin_bytes(m).skip(1);
    match m {
        AdminRequestModel::GetClusterConfig => {
            assert(body =~= seq![OP_GET_CLUSTER_CONFIG] + none);
            lemma_parse_u8(OP_GET_CLUSTER_CONFIG, none);
        },
        AdminRequestModel::Pause { reason } => {
            assert(body =~= seq![OP_PAUSE] + text_field(reason));
            lemma_parse_u8(OP_PAUSE, text_field(reason));
            lemma_parse_text(reason, none);
            assert(text_field(reason) + none =~= text_field(reason));
        },
        AdminRequestModel::Resume => {
            assert(body =~= seq![OP_RESUME] + none);
            lemma_parse_u8(OP_RESUME, none);
        },
        AdminRequestModel::ClearHalt => {
            assert(body =~= seq![OP_CLEAR_HALT] + none);
            lemma_parse_u8(OP_CLEAR_HALT, none);
        },
        AdminRequestModel::InstallStorageRing { members } => {
            let list = list_field::<StorageMember>(members);
            assert(body =~= seq![OP_INSTALL_STORAGE_RING] + list);
            lemma_parse_u8(OP_INSTALL_STORAGE_RING, list);
            lemma_list_round_trip::<StorageMember>(members, none);
            assert(list + none =~= list);
        },
    }
}

/// Decoding gives back the answer that was encoded, where its lengths fit their
/// prefixes.
pub proof fn law_admin_reply_round_trip(m: AdminReplyModel)
    requires
        m matches AdminReplyModel::ClusterConfig { members } ==> members_fit(members),
    ensures
        parse_admin_reply(admin_reply_bytes(m)) == Ok::<AdminReplyModel, WireError>(m),
{
    let none = Seq::<u8>::empty();
    let body = admin_reply_bytes(m).skip(1);
    match m {
        AdminReplyModel::Ack => {
            assert(body =~= seq![RESP_ADMIN_ACK] + none);
            lemma_parse_u8(RESP_ADMIN_ACK, none);
        },
        AdminReplyModel::ClusterConfig { members } => {
            let list = list_field::<StorageMember>(members);
            assert(body =~= seq![RESP_CLUSTER_CONFIG] + list);
            lemma_parse_u8(RESP_CLUSTER_CONFIG, list);
            lemma_list_round_trip::<StorageMember>(members, none);
            assert(list + none =~= list);
        },
    }
}

} // verus!
