//! How messages are laid out as bytes: what stands where, and what is refused.

use crate::admin_wire::{admin_bytes, admin_reply_bytes, AdminReplyModel, AdminRequestModel};
use crate::authority::AuthorityIdx;
use crate::bytes::{
    byte_span, le64, le_bytes, le_value, lemma_le_bytes, lemma_le_len, lemma_le_value,
    lemma_parse_u32, lemma_read_integers, lemma_read_text, parse_bytes, parse_text, parse_u16,
    parse_u32, parse_u64,
};
use crate::datum::{
    law_id_bytes, lemma_read_id, lemma_read_optional_id, parse_id, parse_optional_id, DatumId,
};
use crate::envelope::{envelope_bytes, EnvelopeKind, EnvelopeModel};
use crate::frame::{frame_bytes, law_frame_round_trip, parse_frame, FrameError};
use crate::gossip_wire::{
    gossip_bytes, gossip_kind_bytes, member_bytes, mutation_bytes, GossipKind, GossipMessageModel,
    MemberModel,
};
use crate::list_wire::{items_bytes, lemma_read_ids, parse_list, Wire};
use crate::membership::MemberStatus;
use crate::request::{request_bytes, RequestModel};
use crate::response::{response_bytes, ResponseModel};
use crate::rk::{rk_entries_bytes, rk_query_bytes, RkQueryKind};
use crate::sequencer::RingMutation;
use crate::sk::sk_entries_bytes;
use crate::store_wire::{
    parse_store_request, store_request_bytes, store_response_bytes, StoreRequestModel,
    StoreResponseModel,
};
use vstd::prelude::*;

verus! {

// ---- numbers ----

/// A number is written with its low byte first: the byte at a place counts as often
/// as two hundred and fifty-six to the power of the place.
pub proof fn law_low_byte_first(v: nat, width: nat, i: nat)
    requires
        i < width,
    ensures
        le_bytes(v, width).len() == width,
        le_bytes(v, width)[i as int] == (v / byte_span(i)) % 256,
    decreases i,
{
    lemma_le_len(v, width);
    if i == 0 {
        reveal_with_fuel(byte_span, 2);
        assert(byte_span(0) == 1);
        assert(v / 1 == v);
    } else {
        let rest = (width - 1) as nat;
        let before = (i - 1) as nat;
        lemma_le_len(v / 256, rest);
        law_low_byte_first(v / 256, rest, before);
        assert(le_bytes(v, width)[i as int] == le_bytes(v / 256, rest)[before as int]);
        lemma_span_positive(before);
        assert(byte_span(i) == 256 * byte_span(before));
        vstd::arithmetic::div_mod::lemma_div_denominator(
            v as int,
            256,
            byte_span(before) as int,
        );
    }
}

proof fn lemma_span_positive(width: nat)
    ensures
        byte_span(width) > 0,
    decreases width,
{
    if width > 0 {
        lemma_span_positive((width - 1) as nat);
    }
}

// ---- frames ----

/// A frame is its payload behind the four bytes of its length. Frames that follow
/// each other are read one after the other.
pub proof fn law_frames_follow_each_other(first: Seq<u8>, second: Seq<u8>, rest: Seq<u8>)
    requires
        first.len() <= 67_108_864,
        second.len() <= 67_108_864,
    ensures
        frame_bytes(first).len() == 4 + first.len(),
        frame_bytes(first).skip(4) == first,
        le_value(frame_bytes(first).take(4)) == first.len(),
        parse_frame(frame_bytes(first) + (frame_bytes(second) + rest)) == Ok::<
            (Seq<u8>, Seq<u8>),
            FrameError,
        >((first, frame_bytes(second) + rest)),
        parse_frame(frame_bytes(second) + rest) == Ok::<(Seq<u8>, Seq<u8>), FrameError>(
            (second, rest),
        ),
{
    reveal_with_fuel(byte_span, 5);
    lemma_le_bytes(first.len(), 4);
    assert(frame_bytes(first).skip(4) =~= first);
    assert(frame_bytes(first).take(4) =~= le_bytes(first.len(), 4));
    law_frame_round_trip(first, frame_bytes(second) + rest);
    law_frame_round_trip(second, rest);
}

/// A frame that has not arrived as a whole is not read, however much of it is
/// there.
pub proof fn law_cut_frame_is_not_read(payload: Seq<u8>, k: int)
    requires
        payload.len() <= 67_108_864,
        0 <= k < 4 + payload.len(),
    ensures
        parse_frame(frame_bytes(payload).take(k)) == Err::<(Seq<u8>, Seq<u8>), FrameError>(
            FrameError::UnexpectedEnd,
        ),
{
    lemma_le_len(payload.len(), 4);
    let cut = frame_bytes(payload).take(k);
    if k >= 4 {
        let part = payload.take(k - 4);
        assert(cut =~= le_bytes(payload.len(), 4) + part);
        lemma_parse_u32(payload.len() as u32, part);
    }
}

/// A frame that says that it is longer than sixty-four mebibytes is refused, whatever
/// follows.
pub proof fn law_long_frame_is_refused(len: u32, rest: Seq<u8>)
    requires
        len > 67_108_864,
    ensures
        parse_frame(le_bytes(len as nat, 4) + rest) == Err::<(Seq<u8>, Seq<u8>), FrameError>(
            FrameError::TooLong { len },
        ),
{
    lemma_parse_u32(len, rest);
}

// ---- envelopes ----

/// An envelope begins with the eight bytes of its number, one byte of its kind and
/// the four bytes of its thread, and the body follows.
pub proof fn law_envelope_layout(m: EnvelopeModel)
    ensures
        ({
            let s = envelope_bytes(m);
            &&& s.len() == 13 + m.body.len()
            &&& le_value(s.take(8)) == m.correlation_id
            &&& s[8] == (if m.kind == EnvelopeKind::Request {
                0u8
            } else {
                1u8
            })
            &&& le_value(s.subrange(9, 13)) == m.target_thread.0
            &&& s.skip(13) == m.body
        }),
{
    reveal_with_fuel(byte_span, 9);
    lemma_le_bytes(m.correlation_id as nat, 8);
    lemma_le_bytes(m.target_thread.0 as nat, 4);
    let s = envelope_bytes(m);
    assert(s.take(8) =~= le_bytes(m.correlation_id as nat, 8));
    assert(s.subrange(9, 13) =~= le_bytes(m.target_thread.0 as nat, 4));
    assert(s.skip(13) =~= m.body);
}

// ---- requests and responses ----

/// The number of a kind of request.
pub open spec fn request_number(m: RequestModel) -> u8 {
    match m {
        RequestModel::Op { .. } => 1,
        RequestModel::Acquire { .. } => 2,
        RequestModel::Recall { .. } => 3,
        RequestModel::Release { .. } => 4,
        RequestModel::IndexUpdate { .. } => 5,
        RequestModel::RkQuery { .. } => 6,
        RequestModel::LbExecute { .. } => 7,
        RequestModel::LbQuery { .. } => 8,
    }
}

/// The id with which a request begins.
pub open spec fn leading_id(m: RequestModel) -> DatumId {
    match m {
        RequestModel::Op { op_id, .. } => op_id,
        RequestModel::Acquire { op_id, .. } => op_id,
        RequestModel::Recall { datum_id } => datum_id,
        RequestModel::Release { datum_id } => datum_id,
        RequestModel::IndexUpdate { target, .. } => target,
        RequestModel::RkQuery { index_datum_id, .. } => index_datum_id,
        RequestModel::LbExecute { board_id, .. } => board_id,
        RequestModel::LbQuery { board_id, .. } => board_id,
    }
}

/// A request begins with the version of the protocol, which is one, the number of
/// its kind, and the sixteen bytes of the id that it is about.
pub proof fn law_request_layout(m: RequestModel)
    ensures
        ({
            let s = request_bytes(m);
            &&& s.len() >= 18
            &&& s[0] == 1
            &&& s[1] == request_number(m)
            &&& s.subrange(2, 18) == leading_id(m).bytes()
        }),
        m matches RequestModel::Op { payload, .. } ==> request_bytes(m).skip(
            request_bytes(m).len() - payload.len(),
        ) == payload,
        m matches RequestModel::IndexUpdate { payload, .. } ==> request_bytes(m).skip(
            request_bytes(m).len() - payload.len(),
        ) == payload,
{
    let id = leading_id(m);
    law_id_bytes(id, id, Seq::new(16, |i: int| 0u8));
    let s = request_bytes(m);
    assert(s.subrange(2, 18) =~= id.bytes());
    match m {
        RequestModel::Op { payload, .. } => {
            assert(s.skip(s.len() - payload.len()) =~= payload);
        },
        RequestModel::IndexUpdate { payload, .. } => {
            assert(s.skip(s.len() - payload.len()) =~= payload);
        },
        _ => {},
    }
}

/// A response begins with the version of the protocol, which is one, and the number
/// of its kind. The result of an op follows as it is.
pub proof fn law_response_layout(m: ResponseModel)
    ensures
        ({
            let s = response_bytes(m);
            &&& s.len() >= 2
            &&& s[0] == 1
            &&& s[1] == (match m {
                ResponseModel::Redirect { .. } => 1u8,
                ResponseModel::OpResult { .. } => 2u8,
                ResponseModel::OpError { .. } => 3u8,
                ResponseModel::Granted => 4u8,
                ResponseModel::Released => 5u8,
                ResponseModel::IndexUpdateResult { .. } => 6u8,
                ResponseModel::RkQueryResult { .. } => 7u8,
                ResponseModel::LbResult(_) => 8u8,
            })
            &&& m matches ResponseModel::OpResult { payload } ==> s.skip(2) == payload
            &&& m matches ResponseModel::IndexUpdateResult { violation } ==> s.len() >= 3 && s[2]
                == (if violation is Some {
                1u8
            } else {
                0u8
            })
        }),
{
    if let ResponseModel::OpResult { payload } = m {
        assert(response_bytes(m).skip(2) =~= payload);
    }
}

/// A request to a storage node begins with the version of its protocol, which is
/// three, and the number of its kind; the datum or the transfer that it is about
/// follows, and what is written comes last, as it is.
pub proof fn law_store_request_layout(m: StoreRequestModel)
    ensures
        ({
            let s = store_request_bytes(m);
            &&& s.len() >= 2
            &&& s[0] == 3
            &&& s[1] == (match m {
                StoreRequestModel::Put { .. } => 1u8,
                StoreRequestModel::Patch { .. } => 2u8,
                StoreRequestModel::Get { .. } => 3u8,
                StoreRequestModel::Delete { .. } => 4u8,
                StoreRequestModel::ListIds { .. } => 5u8,
                StoreRequestModel::Transfer { .. } => 6u8,
                StoreRequestModel::TransferStatus { .. } => 7u8,
                StoreRequestModel::FinishTransfer { .. } => 8u8,
                StoreRequestModel::Retire { .. } => 9u8,
                StoreRequestModel::Identify => 10u8,
            })
            &&& m matches StoreRequestModel::Put { id, bytes, n } ==> s.len() == 20 + bytes.len()
                && s.subrange(2, 18) == id.bytes() && le_value(s.subrange(18, 20)) == n && s.skip(
                20,
            ) == bytes
            &&& m matches StoreRequestModel::Patch { id, delta, n } ==> s.len() == 20 + delta.len()
                && s.subrange(2, 18) == id.bytes() && le_value(s.subrange(18, 20)) == n && s.skip(
                20,
            ) == delta
            &&& m matches StoreRequestModel::Get { id } ==> s.skip(2) == id.bytes()
            &&& m matches StoreRequestModel::Delete { id } ==> s.skip(2) == id.bytes()
            &&& m matches StoreRequestModel::Transfer { transfer_id, .. } ==> s.len() >= 18
                && s.subrange(2, 18) == transfer_id.bytes()
            &&& m matches StoreRequestModel::Retire { transfer_id } ==> s.skip(2)
                == transfer_id.bytes()
        }),
{
    reveal_with_fuel(byte_span, 3);
    let zeros = Seq::new(16, |i: int| 0u8);
    let s = store_request_bytes(m);
    match m {
        StoreRequestModel::Put { id, bytes, n } => {
            law_id_bytes(id, id, zeros);
            lemma_le_bytes(n as nat, 2);
            assert(s.subrange(2, 18) =~= id.bytes());
            assert(s.subrange(18, 20) =~= le_bytes(n as nat, 2));
            assert(s.skip(20) =~= bytes);
        },
        StoreRequestModel::Patch { id, delta, n } => {
            law_id_bytes(id, id, zeros);
            lemma_le_bytes(n as nat, 2);
            assert(s.subrange(2, 18) =~= id.bytes());
            assert(s.subrange(18, 20) =~= le_bytes(n as nat, 2));
            assert(s.skip(20) =~= delta);
        },
        StoreRequestModel::Get { id } => {
            assert(s.skip(2) =~= id.bytes());
        },
        StoreRequestModel::Delete { id } => {
            assert(s.skip(2) =~= id.bytes());
        },
        StoreRequestModel::Transfer { transfer_id, .. } => {
            law_id_bytes(transfer_id, transfer_id, zeros);
            assert(s.subrange(2, 18) =~= transfer_id.bytes());
        },
        StoreRequestModel::Retire { transfer_id } => {
            assert(s.skip(2) =~= transfer_id.bytes());
        },
        _ => {},
    }
}

/// A response of a storage node begins with the version of its protocol, which is
/// three, and the number of its kind; a content follows as it is, behind a byte that
/// says whether there is one.
pub proof fn law_store_response_layout(m: StoreResponseModel)
    ensures
        ({
            let s = store_response_bytes(m);
            &&& s.len() >= 2
            &&& s[0] == 3
            &&& s[1] == (match m {
                StoreResponseModel::Ack => 1u8,
                StoreResponseModel::NeedFull => 2u8,
                StoreResponseModel::Value { .. } => 3u8,
                StoreResponseModel::IdList { .. } => 4u8,
                StoreResponseModel::TransferProgress { .. } => 5u8,
                StoreResponseModel::Identity { .. } => 6u8,
                StoreResponseModel::Error { .. } => 7u8,
            })
            &&& m matches StoreResponseModel::Value { bytes } ==> match bytes {
                Some(b) => s.len() == 3 + b.len() && s[2] == 1 && s.skip(3) == b,
                None => s.len() == 3 && s[2] == 0,
            }
        }),
{
    if let StoreResponseModel::Value { bytes: Some(b) } = m {
        assert(store_response_bytes(m).skip(3) =~= b);
    }
}

/// What operators ask and are answered is told from what clients are by the number
/// of its kind.
pub proof fn law_admin_layout(m: AdminRequestModel, r: AdminReplyModel)
    ensures
        admin_bytes(m).len() >= 2,
        admin_bytes(m)[0] == 1,
        admin_bytes(m)[1] == (match m {
            AdminRequestModel::GetClusterConfig => 9u8,
            AdminRequestModel::Pause { .. } => 10u8,
            AdminRequestModel::Resume => 11u8,
            AdminRequestModel::ClearHalt => 12u8,
            AdminRequestModel::InstallStorageRing { .. } => 13u8,
        }),
        admin_reply_bytes(r).len() >= 2,
        admin_reply_bytes(r)[0] == 1,
        admin_reply_bytes(r)[1] == (match r {
            AdminReplyModel::Ack => 9u8,
            AdminReplyModel::ClusterConfig { .. } => 10u8,
        }),
{
}

// ---- gossip ----

/// A message of gossip begins with a byte of its kind; a fact with the member's id,
/// its incarnation and a byte of its status; a change with its number, a byte of its
/// kind and the member's id.
pub proof fn law_gossip_layout(
    m: GossipMessageModel,
    fact: MemberModel,
    epoch: u64,
    change: RingMutation,
)
    ensures
        gossip_bytes(m).len() > 0,
        gossip_bytes(m)[0] == (match m.kind {
            GossipKind::Ping => 0u8,
            GossipKind::PingReq { .. } => 1u8,
            GossipKind::Ack => 2u8,
        }),
        ({
            let s = member_bytes(fact);
            &&& s.len() >= 21
            &&& le_value(s.take(8)) == fact.node_id.0
            &&& le_value(s.subrange(8, 16)) == fact.incarnation.0
            &&& s[16] == (match fact.status {
                MemberStatus::Alive => 0u8,
                MemberStatus::Suspect => 1u8,
                MemberStatus::Dead => 2u8,
            })
            &&& le_value(s.subrange(17, 21)) == fact.thread_count
        }),
        ({
            let s = mutation_bytes(epoch, change);
            &&& s.len() >= 17
            &&& le_value(s.take(8)) == epoch
            &&& match change {
                RingMutation::Join { node_id, thread_count } => s.len() == 21 && s[8] == 0
                    && le_value(s.subrange(9, 17)) == node_id.0 && le_value(s.skip(17))
                    == thread_count,
                RingMutation::Leave { node_id } => s.len() == 17 && s[8] == 1 && le_value(s.skip(9))
                    == node_id.0,
            }
        }),
{
    reveal_with_fuel(byte_span, 9);
    lemma_le_bytes(fact.node_id.0 as nat, 8);
    lemma_le_bytes(fact.incarnation.0 as nat, 8);
    lemma_le_bytes(fact.thread_count as nat, 4);
    lemma_le_bytes(epoch as nat, 8);
    let kind = gossip_kind_bytes(m.kind);
    assert(gossip_bytes(m)[0] == kind[0]);
    let s = member_bytes(fact);
    assert(s.take(8) =~= le64(fact.node_id.0));
    assert(s.subrange(8, 16) =~= le64(fact.incarnation.0));
    assert(s.subrange(17, 21) =~= le_bytes(fact.thread_count as nat, 4));
    let t = mutation_bytes(epoch, change);
    match change {
        RingMutation::Join { node_id, thread_count } => {
            lemma_le_bytes(node_id.0 as nat, 8);
            lemma_le_bytes(thread_count as nat, 4);
            assert(t.take(8) =~= le64(epoch));
            assert(t.subrange(9, 17) =~= le64(node_id.0));
            assert(t.skip(17) =~= le_bytes(thread_count as nat, 4));
        },
        RingMutation::Leave { node_id } => {
            lemma_le_bytes(node_id.0 as nat, 8);
            assert(t.take(8) =~= le64(epoch));
            assert(t.skip(9) =~= le64(node_id.0));
        },
    }
}

// ---- what is refused ----

/// A number is read from as many bytes as it has, and from no fewer; what follows is
/// left. A field with a length before it is read only where all of it is there.
pub proof fn law_fields_are_read_whole(s: Seq<u8>)
    ensures
        parse_u16(s) is Ok <==> s.len() >= 2,
        parse_u32(s) is Ok <==> s.len() >= 4,
        parse_u64(s) is Ok <==> s.len() >= 8,
        parse_id(s) is Ok <==> s.len() >= 16,
        parse_u16(s) matches Ok((v, rest)) ==> v == le_value(s.take(2)) && rest == s.skip(2),
        parse_u32(s) matches Ok((v, rest)) ==> v == le_value(s.take(4)) && rest == s.skip(4),
        parse_u64(s) matches Ok((v, rest)) ==> v == le_value(s.take(8)) && rest == s.skip(8),
        parse_id(s) matches Ok((id, rest)) ==> id.bytes() == s.take(16) && rest == s.skip(16),
        parse_bytes(s) is Ok <==> s.len() >= 4 && s.len() - 4 >= le_value(s.take(4)),
        parse_bytes(s) matches Ok((b, rest)) ==> b.len() == le_value(s.take(4)) && s == s.take(4) + (
        b + rest),
{
    reveal_with_fuel(byte_span, 9);
    if s.len() >= 2 {
        lemma_le_value(s.take(2));
    }
    if s.len() >= 4 {
        lemma_le_value(s.take(4));
    }
    if s.len() >= 8 {
        lemma_le_value(s.take(8));
    }
    lemma_read_id(s);
    if let Ok((id, rest)) = parse_id(s) {
        law_id_bytes(id, id, Seq::new(16, |i: int| 0u8));
        assert(id.bytes() =~= s.take(16));
    }
    if let Ok((b, rest)) = parse_bytes(s) {
        assert(s =~= s.take(4) + (b + rest));
    }
}

/// Bytes that are read as a request to a storage node are its encoding. Only behind a
/// transfer may more follow, and a change is taken only where its difference is one.
pub proof fn law_store_request_is_its_encoding(s: Seq<u8>, delta_decodes: bool)
    ensures
        parse_store_request(s, delta_decodes) matches Ok(m) ==> {
            let own = store_request_bytes(m);
            &&& s.len() >= own.len() && s.take(own.len() as int) == own
            &&& !(m is Transfer) ==> s == own
            &&& m is Patch ==> delta_decodes
        },
{
    if let Ok(m) = parse_store_request(s, delta_decodes) {
        let body = s.skip(1);
        let rest = body.skip(1);
        assert(s =~= seq![s[0]] + body);
        assert(body =~= seq![body[0]] + rest);
        let own = store_request_bytes(m);
        lemma_read_id(rest);
        match m {
            StoreRequestModel::Put { id, bytes, n } => {
                let (_, s1) = parse_id(rest)->Ok_0;
                lemma_read_integers(s1);
                assert(s =~= own);
            },
            StoreRequestModel::Patch { id, delta, n } => {
                let (_, s1) = parse_id(rest)->Ok_0;
                lemma_read_integers(s1);
                assert(s =~= own);
            },
            StoreRequestModel::ListIds { after, limit } => {
                lemma_read_optional_id(rest);
                let (_, s1) = parse_optional_id(rest)->Ok_0;
                lemma_read_integers(s1);
                let (_, s2) = parse_u32(s1)->Ok_0;
                assert(s2 =~= seq![]);
                assert(s =~= own);
            },
            StoreRequestModel::Transfer { transfer_id, ids, dest_address } => {
                let (_, s1) = parse_id(rest)->Ok_0;
                lemma_read_ids(s1);
                let (_, s2) = parse_list::<DatumId>(s1)->Ok_0;
                lemma_read_text(s2);
                let (_, s3) = parse_text(s2)->Ok_0;
                assert(s =~= own + s3);
                assert(s.take(own.len() as int) =~= own);
            },
            StoreRequestModel::Identify => {
                assert(rest =~= seq![]);
                assert(s =~= own);
            },
            _ => {
                let (_, s1) = parse_id(rest)->Ok_0;
                assert(s1 =~= seq![]);
                assert(s =~= own);
            },
        }
        assert(s.take(own.len() as int) =~= own);
    }
}

// ---- owners, keys and entries ----

/// An owner is a byte that tells whether it is this node, and the node and the thread
/// where it is not.
pub proof fn law_authority_layout(a: AuthorityIdx)
    ensures
        a.bytes().len() == 13,
        a is Native ==> a.bytes()[0] == 0,
        a matches AuthorityIdx::Foreign { node_id, thread_id } ==> a.bytes()[0] == 1 && le_value(
            a.bytes().subrange(1, 9),
        ) == node_id.0 && le_value(a.bytes().skip(9)) == thread_id.0,
{
    reveal_with_fuel(byte_span, 9);
    if let AuthorityIdx::Foreign { node_id, thread_id } = a {
        lemma_le_bytes(node_id.0 as nat, 8);
        lemma_le_bytes(thread_id.0 as nat, 4);
        assert(a.bytes().subrange(1, 9) =~= le64(node_id.0));
        assert(a.bytes().skip(9) =~= le_bytes(thread_id.0 as nat, 4));
    }
}

/// A question to a ranking is a byte of its kind and how many entries it asks for.
pub proof fn law_rk_query_layout(q: RkQueryKind)
    ensures
        rk_query_bytes(q).len() == 5,
        q matches RkQueryKind::TopN(n) ==> rk_query_bytes(q)[0] == 0 && le_value(
            rk_query_bytes(q).skip(1),
        ) == n,
        q matches RkQueryKind::BottomN(n) ==> rk_query_bytes(q)[0] == 1 && le_value(
            rk_query_bytes(q).skip(1),
        ) == n,
        q matches RkQueryKind::PercentileSample(n) ==> rk_query_bytes(q)[0] == 2 && le_value(
            rk_query_bytes(q).skip(1),
        ) == n,
{
    reveal_with_fuel(byte_span, 5);
    let n = match q {
        RkQueryKind::TopN(n) => n,
        RkQueryKind::BottomN(n) => n,
        RkQueryKind::PercentileSample(n) => n,
    };
    lemma_le_bytes(n as nat, 4);
    assert(rk_query_bytes(q).skip(1) =~= le_bytes(n as nat, 4));
}

proof fn lemma_items_at<T: Wire>(items: Seq<T::Model>, width: nat, i: int)
    requires
        forall|j: int| 0 <= j < items.len() ==> T::bytes_of(#[trigger] items[j]).len() == width,
    ensures
        items_bytes::<T>(items).len() == width * items.len(),
        0 <= i < items.len() ==> 0 <= width * i && width * i + width <= items_bytes::<T>(
            items,
        ).len() && items_bytes::<T>(items).subrange(width * i, width * i + width) == T::bytes_of(
            items[i],
        ),
    decreases items.len(),
{
    let all = items_bytes::<T>(items);
    if items.len() > 0 {
        let rest = items.skip(1);
        assert forall|j: int| 0 <= j < rest.len() implies T::bytes_of(#[trigger] rest[j]).len()
            == width by {
            assert(rest[j] == items[j + 1]);
        }
        lemma_items_at::<T>(rest, width, i - 1);
        let n = items.len() as int;
        assert(T::bytes_of(items[0]).len() == width);
        assert(width + width * (n - 1) == width * n) by (nonlinear_arith);
        let first = T::bytes_of(items[0]);
        let tail = items_bytes::<T>(rest);
        assert(all == first + tail);
        if i == 0 {
            assert(width * 0 == 0) by (nonlinear_arith);
            assert(width <= all.len());
            assert(all.subrange(0, width as int) =~= first);
        } else if 0 < i < n {
            assert(width * i == width + width * (i - 1)) by (nonlinear_arith);
            assert(rest[i - 1] == items[i]);
            let at = width * (i - 1);
            assert(all.subrange(width + at, width + at + width) =~= tail.subrange(at, at + width));
        }
    } else {
        assert(width * 0 == 0) by (nonlinear_arith);
    }
}

/// The entries of a ranking stand one behind the other, behind their number, each with
/// the eight bytes of its key and the sixteen of its id.
pub proof fn law_rk_entries_layout(entries: Seq<(Seq<u8>, DatumId)>, i: int)
    requires
        entries.len() <= u32::MAX,
        forall|j: int| 0 <= j < entries.len() ==> (#[trigger] entries[j]).0.len() == 8,
        0 <= i < entries.len(),
    ensures
        ({
            let s = rk_entries_bytes(entries);
            &&& s.len() == 4 + 24 * entries.len()
            &&& le_value(s.take(4)) == entries.len()
            &&& s.subrange(4 + 24 * i, 12 + 24 * i) == entries[i].0
            &&& s.subrange(12 + 24 * i, 28 + 24 * i) == entries[i].1.bytes()
        }),
{
    reveal_with_fuel(byte_span, 5);
    let s = rk_entries_bytes(entries);
    let body = items_bytes::<(Vec<u8>, DatumId)>(entries);
    let zeros = Seq::new(16, |i: int| 0u8);
    assert forall|j: int| 0 <= j < entries.len() implies <(Vec<u8>, DatumId)>::bytes_of(
        #[trigger] entries[j],
    ).len() == 24 by {
        law_id_bytes(entries[j].1, entries[j].1, zeros);
    }
    lemma_items_at::<(Vec<u8>, DatumId)>(entries, 24, i);
    lemma_le_bytes(entries.len(), 4);
    assert(s.take(4) =~= le_bytes(entries.len(), 4));
    let own = body.subrange(24 * i, 24 * i + 24);
    law_id_bytes(entries[i].1, entries[i].1, zeros);
    assert(own == entries[i].0 + entries[i].1.bytes());
    assert(s.subrange(4 + 24 * i, 12 + 24 * i) =~= own.take(8));
    assert(own.take(8) =~= entries[i].0);
    assert(s.subrange(12 + 24 * i, 28 + 24 * i) =~= own.skip(8));
    assert(own.skip(8) =~= entries[i].1.bytes());
}

/// The entries of a list of owners stand one behind the other, behind their number,
/// each with the sixteen bytes of its id and the thirteen of its owner.
pub proof fn law_sk_entries_layout(entries: Seq<(DatumId, AuthorityIdx)>, i: int)
    requires
        entries.len() <= u32::MAX,
        0 <= i < entries.len(),
    ensures
        ({
            let s = sk_entries_bytes(entries);
            &&& s.len() == 4 + 29 * entries.len()
            &&& le_value(s.take(4)) == entries.len()
            &&& s.subrange(4 + 29 * i, 20 + 29 * i) == entries[i].0.bytes()
            &&& s.subrange(20 + 29 * i, 33 + 29 * i) == entries[i].1.bytes()
        }),
{
    reveal_with_fuel(byte_span, 5);
    let s = sk_entries_bytes(entries);
    let body = items_bytes::<(DatumId, AuthorityIdx)>(entries);
    let zeros = Seq::new(16, |i: int| 0u8);
    assert forall|j: int| 0 <= j < entries.len() implies <(DatumId, AuthorityIdx)>::bytes_of(
        #[trigger] entries[j],
    ).len() == 29 by {
        law_id_bytes(entries[j].0, entries[j].0, zeros);
        law_authority_layout(entries[j].1);
    }
    lemma_items_at::<(DatumId, AuthorityIdx)>(entries, 29, i);
    lemma_le_bytes(entries.len(), 4);
    assert(s.take(4) =~= le_bytes(entries.len(), 4));
    let own = body.subrange(29 * i, 29 * i + 29);
    law_id_bytes(entries[i].0, entries[i].0, zeros);
    law_authority_layout(entries[i].1);
    assert(own == entries[i].0.bytes() + entries[i].1.bytes());
    assert(s.subrange(4 + 29 * i, 20 + 29 * i) =~= own.take(16));
    assert(own.take(16) =~= entries[i].0.bytes());
    assert(s.subrange(20 + 29 * i, 33 + 29 * i) =~= own.skip(16));
    assert(own.skip(16) =~= entries[i].1.bytes());
}

} // verus!
