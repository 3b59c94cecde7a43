//! The messages between clients, nodes and storage nodes.

use seisin::admin_wire::{
    decode_admin_reply, decode_client_request, encode_admin_reply, encode_admin_request,
};
use seisin::authority::{NodeId, ThreadId};
use seisin::datum::DatumId;
use seisin::envelope::{decode_envelope, encode_envelope, Envelope, EnvelopeKind};
use seisin::frame::{frame_len, read_frame, write_frame, FrameError, MAX_FRAME_LEN};
use seisin::lb::{
    decode_lb_execute_op, decode_lb_query_req, decode_lb_result, encode_lb_execute_op,
    encode_lb_query_req, encode_lb_result, LbEntry, LbExecuteOp, LbFriendRank, LbQueryReq,
    LbResult,
};
use seisin::request::{decode_request, encode_request, Request, PROTOCOL_VERSION};
use seisin::response::{decode_response, encode_response, Response};
use seisin::rk::{
    decode_rk_entries, decode_rk_query_kind, encode_rk_entries, encode_rk_query_kind, RkQueryKind,
};
use seisin::server::{AdminReply, AdminRequest, ClientRequest, StorageMember};
use seisin::store_wire::{
    decode_store_request, decode_store_response, encode_store_request, encode_store_response,
    patch_delta, StoreRequest, StoreResponse, STORE_PROTOCOL_VERSION,
};
use seisin::wire_error::{Subject, Tag, TextField, WireError};

#[test]
fn round_trips_an_rk_query_request() {
    for query in [
        RkQueryKind::TopN(10),
        RkQueryKind::BottomN(3),
        RkQueryKind::PercentileSample(7),
    ] {
        let req = Request::RkQuery {
            index_datum_id: DatumId::new(),
            query: query.clone(),
        };
        assert_eq!(decode_request(&encode_request(&req)).unwrap(), req);
    }
}

#[test]
fn round_trips_an_rk_query_result_response() {
    let resp = Response::RkQueryResult {
        entries: vec![
            (vec![1u8; 8], DatumId::new()),
            (vec![2u8; 8], DatumId::new()),
        ],
    };
    assert_eq!(decode_response(&encode_response(&resp)).unwrap(), resp);
}

#[test]
fn round_trips_an_empty_rk_query_result() {
    let resp = Response::RkQueryResult { entries: vec![] };
    assert_eq!(decode_response(&encode_response(&resp)).unwrap(), resp);
}

#[test]
fn rk_entry_codec_rejects_a_truncated_buffer() {
    assert!(decode_rk_entries(&encode_rk_entries(&[]))
        .unwrap()
        .is_empty());
    let mut buf = encode_rk_entries(&[(vec![1u8; 8], DatumId::new())]);
    buf.truncate(buf.len() - 1); // corrupt: short by one byte
    assert!(decode_rk_entries(&buf).is_err());
}

fn sample_lb_result() -> LbResult {
    LbResult {
        total: 42,
        player_rank: Some(7),
        top: vec![LbEntry {
            rank_key: [9u8; 8],
            player_id: DatumId::new(),
            display: b"Alice".to_vec(),
        }],
        bottom: vec![],
        around: vec![LbEntry {
            rank_key: [3u8; 8],
            player_id: DatumId::new(),
            display: b"Bob".to_vec(),
        }],
        friends: vec![LbFriendRank {
            player_id: DatumId::new(),
            rank: 11,
            rank_key: [2u8; 8],
            display: b"Carol".to_vec(),
        }],
    }
}

#[test]
fn round_trips_lb_execute_requests() {
    for op in [
        LbExecuteOp::Update {
            player_id: DatumId::new(),
            display: b"Alice".to_vec(),
            rank_key: [5u8; 8],
            friend_ids: vec![DatumId::new(), DatumId::new()],
            top: 10,
            window: 5,
        },
        LbExecuteOp::Remove {
            player_id: DatumId::new(),
        },
    ] {
        let req = Request::LbExecute {
            board_id: DatumId::new(),
            class: "racing".to_string(),
            op: op.clone(),
        };
        assert_eq!(decode_request(&encode_request(&req)).unwrap(), req);
    }
}

#[test]
fn round_trips_lb_query_requests_with_and_without_around_player() {
    for around in [None, Some(DatumId::new())] {
        let req = Request::LbQuery {
            board_id: DatumId::new(),
            class: "racing".to_string(),
            query: LbQueryReq {
                top: 12,
                bottom: 12,
                around_player: around,
                window: 4,
                friend_ids: vec![DatumId::new()],
            },
        };
        assert_eq!(decode_request(&encode_request(&req)).unwrap(), req);
    }
}

#[test]
fn round_trips_an_lb_result_response() {
    let resp = Response::LbResult(sample_lb_result());
    assert_eq!(decode_response(&encode_response(&resp)).unwrap(), resp);
}

#[test]
fn round_trips_an_empty_lb_result() {
    let resp = Response::LbResult(LbResult {
        total: 0,
        player_rank: None,
        top: vec![],
        bottom: vec![],
        around: vec![],
        friends: vec![],
    });
    assert_eq!(decode_response(&encode_response(&resp)).unwrap(), resp);
}

#[test]
fn lb_result_codec_rejects_a_truncated_buffer() {
    let mut buf = encode_lb_result(&sample_lb_result());
    buf.truncate(buf.len() - 1);
    assert!(decode_lb_result(&buf).is_err());
}

#[test]
fn every_encoded_frame_starts_with_the_protocol_version() {
    let req = Request::Recall {
        datum_id: DatumId::new(),
    };
    assert_eq!(encode_request(&req)[0], PROTOCOL_VERSION);
    assert_eq!(encode_response(&Response::Granted)[0], PROTOCOL_VERSION);
}

#[test]
fn decode_rejects_an_unsupported_protocol_version() {
    let mut buf = encode_request(&Request::Recall {
        datum_id: DatumId::new(),
    });
    buf[0] = PROTOCOL_VERSION + 1;
    let err = decode_request(&buf).unwrap_err();
    assert!(err.message().contains("protocol version"), "{err:?}");

    let mut buf = encode_response(&Response::Granted);
    buf[0] = PROTOCOL_VERSION + 1;
    assert!(decode_response(&buf).is_err());
}

#[test]
fn round_trips_op_request_with_no_datum_ids() {
    let req = Request::Op {
        op_id: DatumId::new(),
        op_name: "noop".to_string(),
        datum_ids: vec![],
        payload: vec![],
    };
    assert_eq!(decode_request(&encode_request(&req)).unwrap(), req);
}

#[test]
fn round_trips_op_request_with_datum_ids_and_payload() {
    let req = Request::Op {
        op_id: DatumId::new(),
        op_name: "transfer".to_string(),
        datum_ids: vec![DatumId::new(), DatumId::new()],
        payload: b"amount:100".to_vec(),
    };
    assert_eq!(decode_request(&encode_request(&req)).unwrap(), req);
}

#[test]
fn rejects_unknown_request_opcode() {
    let mut buf = encode_request(&Request::Op {
        op_id: DatumId::new(),
        op_name: "noop".to_string(),
        datum_ids: vec![],
        payload: vec![],
    });
    buf[1] = 99; // buf[0] is the version byte; the opcode follows it
    assert!(decode_request(&buf).is_err());
}

#[test]
fn round_trips_redirect_response() {
    let resp = Response::Redirect {
        address: "127.0.0.1:7879".to_string(),
    };
    assert_eq!(decode_response(&encode_response(&resp)).unwrap(), resp);
}

#[test]
fn rejects_redirect_with_invalid_utf8_address() {
    let mut buf = encode_response(&Response::Redirect {
        address: "x".to_string(),
    });
    // Corrupt the one address byte into an invalid UTF-8 continuation byte.
    *buf.last_mut().unwrap() = 0x80;
    assert!(decode_response(&buf).is_err());
}

#[test]
fn round_trips_op_result_response() {
    let resp = Response::OpResult {
        payload: b"ok".to_vec(),
    };
    assert_eq!(decode_response(&encode_response(&resp)).unwrap(), resp);
}

#[test]
fn round_trips_op_error_response() {
    let resp = Response::OpError {
        message: "unknown op: foo".to_string(),
    };
    assert_eq!(decode_response(&encode_response(&resp)).unwrap(), resp);
}

#[test]
fn round_trips_acquire_request() {
    let req = Request::Acquire {
        op_id: DatumId::new(),
        datum_id: DatumId::new(),
        requester_node: NodeId(7),
        requester_thread: ThreadId(3),
    };
    assert_eq!(decode_request(&encode_request(&req)).unwrap(), req);
}

#[test]
fn round_trips_recall_request() {
    let req = Request::Recall {
        datum_id: DatumId::new(),
    };
    assert_eq!(decode_request(&encode_request(&req)).unwrap(), req);
}

#[test]
fn round_trips_release_request() {
    let req = Request::Release {
        datum_id: DatumId::new(),
    };
    assert_eq!(decode_request(&encode_request(&req)).unwrap(), req);
}

#[test]
fn round_trips_granted_response() {
    assert_eq!(
        decode_response(&encode_response(&Response::Granted)).unwrap(),
        Response::Granted
    );
}

#[test]
fn round_trips_released_response() {
    assert_eq!(
        decode_response(&encode_response(&Response::Released)).unwrap(),
        Response::Released
    );
}

#[test]
fn rejects_a_truncated_acquire_request() {
    let mut buf = encode_request(&Request::Acquire {
        op_id: DatumId::new(),
        datum_id: DatumId::new(),
        requester_node: NodeId(1),
        requester_thread: ThreadId(0),
    });
    buf.truncate(buf.len() - 1);
    assert!(decode_request(&buf).is_err());
}

#[test]
fn frame_round_trips_over_a_buffer() {
    let mut buf = Vec::new();
    write_frame(&mut buf, b"payload bytes").unwrap();
    let (payload, rest) = read_frame(&buf).unwrap();
    assert_eq!(payload, b"payload bytes");
    assert!(rest.is_empty());
}

#[test]
fn rejects_a_frame_length_over_the_max() {
    let oversized_len = MAX_FRAME_LEN + 1;
    let err = read_frame(&oversized_len.to_le_bytes()).unwrap_err();
    assert_eq!(err, FrameError::TooLong { len: oversized_len });
}

#[test]
fn round_trips_a_request_envelope() {
    let env = Envelope {
        correlation_id: 42,
        kind: EnvelopeKind::Request,
        target_thread: ThreadId(3),
        body: encode_request(&Request::Recall {
            datum_id: DatumId::new(),
        }),
    };
    assert_eq!(decode_envelope(&encode_envelope(&env)).unwrap(), env);
}

#[test]
fn round_trips_a_response_envelope() {
    let env = Envelope {
        correlation_id: 7,
        kind: EnvelopeKind::Response,
        target_thread: ThreadId(0),
        body: encode_response(&Response::Granted),
    };
    assert_eq!(decode_envelope(&encode_envelope(&env)).unwrap(), env);
}

#[test]
fn rejects_an_envelope_too_short_for_its_header() {
    assert!(decode_envelope(&[0u8; 5]).is_err());
}

#[test]
fn rejects_an_envelope_with_an_invalid_kind_tag() {
    let mut buf = encode_envelope(&Envelope {
        correlation_id: 1,
        kind: EnvelopeKind::Request,
        target_thread: ThreadId(0),
        body: vec![],
    });
    buf[8] = 99;
    assert!(decode_envelope(&buf).is_err());
}

#[test]
fn round_trips_index_update_request() {
    let req = Request::IndexUpdate {
        target: DatumId::new(),
        op_id: DatumId::new(),
        index_kind: "sk".to_string(),
        payload: vec![1, 2, 3],
    };
    let encoded = encode_request(&req);
    assert_eq!(decode_request(&encoded).unwrap(), req);
}

#[test]
fn round_trips_index_update_request_with_empty_payload() {
    let req = Request::IndexUpdate {
        target: DatumId::new(),
        op_id: DatumId::new(),
        index_kind: "sk".to_string(),
        payload: vec![],
    };
    let encoded = encode_request(&req);
    assert_eq!(decode_request(&encoded).unwrap(), req);
}

#[test]
fn round_trips_index_update_result_without_violation() {
    let resp = Response::IndexUpdateResult { violation: None };
    let encoded = encode_response(&resp);
    assert_eq!(decode_response(&encoded).unwrap(), resp);
}

#[test]
fn round_trips_index_update_result_with_violation() {
    let resp = Response::IndexUpdateResult {
        violation: Some("duplicate value".to_string()),
    };
    let encoded = encode_response(&resp);
    assert_eq!(decode_response(&encoded).unwrap(), resp);
}

#[test]
fn round_trips_every_request_variant() {
    for req in [
        StoreRequest::Put {
            id: DatumId::new(),
            bytes: b"content".to_vec(),
            n: 1,
        },
        StoreRequest::Put {
            id: DatumId::new(),
            bytes: b"replicated".to_vec(),
            n: 3,
        },
        StoreRequest::Patch {
            id: DatumId::new(),
            delta: b"an encoded delta".to_vec(),
            n: 2,
        },
        StoreRequest::Get { id: DatumId::new() },
        StoreRequest::Delete { id: DatumId::new() },
        StoreRequest::ListIds {
            after: None,
            limit: 100,
        },
        StoreRequest::ListIds {
            after: Some(DatumId::new()),
            limit: 5,
        },
        StoreRequest::Transfer {
            transfer_id: DatumId::new(),
            ids: vec![DatumId::new(), DatumId::new()],
            dest_address: "127.0.0.1:6999".to_string(),
        },
        StoreRequest::Transfer {
            transfer_id: DatumId::new(),
            ids: vec![],
            dest_address: String::new(),
        },
        StoreRequest::TransferStatus {
            transfer_id: DatumId::new(),
        },
        StoreRequest::FinishTransfer {
            transfer_id: DatumId::new(),
        },
        StoreRequest::Retire {
            transfer_id: DatumId::new(),
        },
        StoreRequest::Identify,
    ] {
        assert_eq!(
            decode_store_request(&encode_store_request(&req), true).unwrap(),
            req
        );
    }
}

#[test]
fn round_trips_every_response_variant() {
    for resp in [
        StoreResponse::Ack,
        StoreResponse::NeedFull,
        StoreResponse::Value { bytes: None },
        StoreResponse::Value {
            bytes: Some(b"content".to_vec()),
        },
        StoreResponse::IdList {
            ids: vec![(DatumId::new(), 1), (DatumId::new(), 3)],
            done: true,
        },
        StoreResponse::IdList {
            ids: vec![],
            done: false,
        },
        StoreResponse::TransferProgress {
            copied: 7,
            dirty: 2,
            done: false,
        },
        StoreResponse::Identity {
            node_id: NodeId(42),
            log_id: DatumId::new(),
        },
        StoreResponse::Error {
            message: "self-halted".to_string(),
        },
    ] {
        assert_eq!(
            decode_store_response(&encode_store_response(&resp)).unwrap(),
            resp
        );
    }
}

#[test]
fn rejects_unsupported_versions_and_unknown_tags() {
    let mut buf = encode_store_request(&StoreRequest::Get { id: DatumId::new() });
    buf[0] = STORE_PROTOCOL_VERSION + 1;
    assert!(decode_store_request(&buf, true).is_err());
    let mut buf = encode_store_response(&StoreResponse::Ack);
    buf[1] = 99;
    assert!(decode_store_response(&buf).is_err());
}


#[test]
fn requests_have_their_known_bytes() {
    let id = DatumId::from_bytes([7u8; 16]);
    let mut recall = vec![PROTOCOL_VERSION, 3];
    recall.extend_from_slice(&[7u8; 16]);
    assert_eq!(encode_request(&Request::Recall { datum_id: id }), recall);

    let mut acquire = vec![PROTOCOL_VERSION, 2];
    acquire.extend_from_slice(&[7u8; 16]);
    acquire.extend_from_slice(&[7u8; 16]);
    acquire.extend_from_slice(&[5, 0, 0, 0, 0, 0, 0, 0, 1, 2, 0, 0]);
    assert_eq!(
        encode_request(&Request::Acquire {
            op_id: id,
            datum_id: id,
            requester_node: NodeId(5),
            requester_thread: ThreadId(513),
        }),
        acquire
    );
    assert_eq!(encode_response(&Response::Granted), vec![PROTOCOL_VERSION, 4]);
    assert_eq!(
        encode_response(&Response::OpResult { payload: vec![9, 8] }),
        vec![PROTOCOL_VERSION, 2, 9, 8]
    );
}

#[test]
fn each_wire_error_has_its_input() {
    assert_eq!(
        decode_request(&[]),
        Err(WireError::Empty {
            what: Subject::Request
        })
    );
    assert_eq!(
        decode_request(&[PROTOCOL_VERSION + 1, 3]),
        Err(WireError::UnsupportedVersion {
            what: Subject::Request,
            version: PROTOCOL_VERSION + 1,
            supported: PROTOCOL_VERSION
        })
    );
    assert_eq!(
        decode_request(&[PROTOCOL_VERSION, 99]),
        Err(WireError::UnknownTag {
            what: Tag::Request,
            tag: 99
        })
    );
    let mut recall = encode_request(&Request::Recall {
        datum_id: DatumId::new(),
    });
    recall.push(0);
    assert!(matches!(
        decode_request(&recall),
        Err(WireError::WrongLength { .. })
    ));
    let mut rk = encode_rk_entries(&[(vec![1u8; 8], DatumId::new())]);
    rk.push(0);
    assert!(decode_rk_entries(&rk).is_err());
    let mut redirect = encode_response(&Response::Redirect {
        address: "x".to_string(),
    });
    let end = redirect.len() - 1;
    redirect[end] = 0x80;
    assert_eq!(
        decode_response(&redirect),
        Err(WireError::InvalidUtf8 {
            what: TextField::RedirectAddress
        })
    );
}

/// Bytes of a request or a response behind its version byte.
fn versioned(body: &[u8]) -> Vec<u8> {
    [&[PROTOCOL_VERSION], body].concat()
}

#[test]
fn what_is_wrong_with_a_request_is_told() {
    let id = [7u8; 16];
    let with_id = |tag: u8, rest: &[u8]| [&[tag], &id[..], rest].concat();
    for (body, told) in [
        (vec![], "empty request payload"),
        (vec![99], "unknown request opcode: 99"),
        (vec![1, 0, 0], "op request too short for an op_id: 3 bytes"),
        (with_id(1, &[1]), "op request too short for a name length"),
        (
            with_id(1, &[3, 0, 0, 0, b'a']),
            "op request too short for its name: expected 3 bytes",
        ),
        (
            with_id(1, &[1, 0, 0, 0, 0xff]),
            "op name was not valid utf8",
        ),
        (
            with_id(1, &[1, 0, 0, 0, b'a', 1]),
            "op request too short for a datum_ids count",
        ),
        (
            with_id(1, &[0, 0, 0, 0, 1, 0, 0, 0, 5]),
            "op request truncated in datum_ids list",
        ),
        (
            vec![2],
            "acquire request has the wrong length: expected 45 bytes, got 1",
        ),
        (
            vec![3, 3],
            "recall request has the wrong length: expected 17 bytes, got 2",
        ),
        (
            vec![4],
            "release request has the wrong length: expected 17 bytes, got 1",
        ),
        (
            with_id(5, &id),
            "index update request too short for its fixed fields",
        ),
        (
            with_id(5, &[&id[..], &[2, 0, 0, 0, b'k']].concat()),
            "index update request too short for its index_kind",
        ),
        (
            with_id(5, &[&id[..], &[1, 0, 0, 0, 0xff]].concat()),
            "index_kind was not valid utf8",
        ),
        (
            vec![6],
            "rk query request has the wrong length: expected 22 bytes, got 1",
        ),
        (with_id(6, &[9, 0, 0, 0, 0]), "unknown rk query kind tag: 9"),
        (vec![7, 1], "truncated datum id at offset 1"),
        (with_id(7, &[0]), "truncated length prefix at offset 17"),
        (
            with_id(7, &[4, 0, 0, 0, b'c']),
            "truncated byte field at offset 21: expected 4 bytes",
        ),
        (with_id(7, &[1, 0, 0, 0, 0xff]), "lb class was not valid utf8"),
        (with_id(7, &[0, 0, 0, 0]), "empty lb execute op"),
        (
            with_id(7, &[0, 0, 0, 0, 5]),
            "unknown lb execute op tag: 5",
        ),
        (
            with_id(7, &[0, 0, 0, 0, 1, 0]),
            "truncated datum id at offset 1",
        ),
        (
            with_id(7, &[&[0, 0, 0, 0, 0], &id[..], &[1]].concat()),
            "truncated rank key at offset 17",
        ),
        (
            with_id(7, &[&[0, 0, 0, 0, 1], &id[..], &[1, 2]].concat()),
            "lb execute op has 2 trailing bytes",
        ),
        (
            with_id(8, &[0, 0, 0, 0, 1, 0]),
            "truncated u32 at offset 0",
        ),
        (
            with_id(8, &[0, 0, 0, 0, 1, 0, 0, 0, 2, 0, 0, 0]),
            "lb query truncated at around_player flag",
        ),
        (
            with_id(8, &[0, 0, 0, 0, 1, 0, 0, 0, 2, 0, 0, 0, 4]),
            "unknown around_player flag: 4",
        ),
        (
            with_id(8, &[0, 0, 0, 0, 1, 0, 0, 0, 2, 0, 0, 0, 0]),
            "truncated u32 at offset 9",
        ),
    ] {
        let error = decode_request(&versioned(&body)).unwrap_err();
        assert_eq!(error.message(), told);
    }
    assert_eq!(
        decode_request(&[9]).unwrap_err().message(),
        "unsupported request protocol version 9; this node speaks version 1"
    );
    assert_eq!(
        decode_rk_query_kind(&[1]).unwrap_err().message(),
        "rk query kind must be exactly 5 bytes, got 1"
    );
}

#[test]
fn what_is_wrong_with_a_response_is_told() {
    for (body, told) in [
        (vec![], "empty response payload"),
        (vec![77], "unknown response opcode: 77"),
        (
            vec![1, 0, 0],
            "redirect response too short for an address length: 3 bytes",
        ),
        (
            vec![1, 2, 0, 0, 0, b'a'],
            "redirect response length mismatch: expected 7 bytes, got 6",
        ),
        (
            vec![1, 1, 0, 0, 0, 0xff],
            "redirect address was not valid utf8",
        ),
        (vec![3, 0xff], "op error message was not valid utf8"),
        (vec![6], "index update result too short for its flag byte"),
        (vec![6, 2], "unknown index update result flag: 2"),
        (
            vec![6, 1, 0xff],
            "index update violation message was not valid utf8",
        ),
        (vec![7, 0], "rk entries buffer too short for a count"),
        (vec![8, 0], "truncated u64 at offset 0"),
    ] {
        let error = decode_response(&versioned(&body)).unwrap_err();
        assert_eq!(error.message(), told);
    }
    assert_eq!(
        decode_envelope(&[1, 2]).unwrap_err().message(),
        "envelope too short for its header: 2 bytes"
    );
    assert_eq!(
        decode_envelope(&[6; 13]).unwrap_err().message(),
        "invalid envelope kind tag: 6"
    );
}

#[test]
fn what_is_wrong_with_a_storage_message_is_told() {
    let id = [7u8; 16];
    let store = |body: &[u8]| [&[STORE_PROTOCOL_VERSION], body].concat();
    let with_id = |tag: u8, rest: &[u8]| [&[tag], &id[..], rest].concat();
    for (body, told) in [
        (vec![], "empty store request payload"),
        (vec![99], "unknown store request tag: 99"),
        (vec![1, 1], "truncated datum id at offset 1"),
        (with_id(1, &[1]), "truncated u16 at offset 17"),
        (with_id(3, &[0]), "store get has 1 trailing bytes"),
        (with_id(4, &[0]), "store delete has 1 trailing bytes"),
        (vec![5], "list ids request truncated at the after flag"),
        (vec![5, 7], "unknown list ids after flag: 7"),
        (vec![5, 0, 1], "truncated u32 at offset 2"),
        (
            vec![5, 0, 1, 0, 0, 0, 9, 9],
            "store list ids has 2 trailing bytes",
        ),
        (
            with_id(6, &[0, 0, 0, 0, 1]),
            "truncated u32 at offset 21",
        ),
        (
            with_id(6, &[0, 0, 0, 0, 2, 0, 0, 0, b'a']),
            "truncated byte field at offset 25: expected 2 bytes",
        ),
        (
            with_id(6, &[0, 0, 0, 0, 1, 0, 0, 0, 0xff]),
            "transfer dest_address was not valid utf8",
        ),
        (with_id(7, &[0]), "store transfer status has 1 trailing bytes"),
        (with_id(8, &[0]), "store finish transfer has 1 trailing bytes"),
        (with_id(9, &[0]), "store retire has 1 trailing bytes"),
        (vec![10, 0], "store identify has 1 trailing bytes"),
    ] {
        let error = decode_store_request(&store(&body), true).unwrap_err();
        assert_eq!(error.message(), told);
    }
    for (body, told) in [
        (vec![], "empty store response payload"),
        (vec![99], "unknown store response tag: 99"),
        (vec![3], "store value response missing its presence flag"),
        (vec![3, 9], "unknown store value flag: 9"),
        (vec![4], "id list response truncated at the done flag"),
        (vec![4, 1, 0], "truncated u32 at offset 2"),
        (vec![5, 0], "truncated u64 at offset 1"),
        (
            [&[5u8][..], &[0; 16]].concat(),
            "transfer progress truncated at the done flag",
        ),
        (vec![7, 0xff], "store error message not utf8"),
    ] {
        let error = decode_store_response(&store(&body)).unwrap_err();
        assert_eq!(error.message(), told);
    }
    assert_eq!(
        decode_store_response(&[9]).unwrap_err().message(),
        "unsupported store response protocol version 9; this node speaks 3"
    );
}

#[test]
fn a_patch_stands_or_falls_with_its_delta() {
    let patch = StoreRequest::Patch {
        id: DatumId::from_rank(3),
        delta: vec![1, 2, 3],
        n: 2,
    };
    let bytes = encode_store_request(&patch);
    assert_eq!(patch_delta(&bytes), Some(vec![1, 2, 3]));
    assert_eq!(decode_store_request(&bytes, true), Ok(patch));
    let error = decode_store_request(&bytes, false).unwrap_err();
    assert_eq!(error, WireError::MalformedDelta);
    assert_eq!(error.message(), "store patch carried a malformed delta");

    let get = StoreRequest::Get {
        id: DatumId::from_rank(3),
    };
    let bytes = encode_store_request(&get);
    assert_eq!(patch_delta(&bytes), None);
    assert_eq!(patch_delta(&bytes[..4]), None);
    assert_eq!(decode_store_request(&bytes, false), Ok(get));
}

#[test]
fn text_survives_the_wire_in_every_script() {
    for text in ["", "plain", "grüße", "数据", "🦀 and more"] {
        let request = Request::IndexUpdate {
            target: DatumId::new(),
            op_id: DatumId::new(),
            index_kind: text.to_string(),
            payload: vec![0, 255],
        };
        assert_eq!(decode_request(&encode_request(&request)).unwrap(), request);
    }
}

#[test]
fn index_payloads_round_trip_on_their_own() {
    for query in [
        RkQueryKind::TopN(10),
        RkQueryKind::BottomN(3),
        RkQueryKind::PercentileSample(7),
    ] {
        assert_eq!(
            decode_rk_query_kind(&encode_rk_query_kind(&query)),
            Ok(query)
        );
    }
    assert_eq!(
        encode_rk_query_kind(&RkQueryKind::BottomN(258)),
        vec![1, 2, 1, 0, 0]
    );
    assert!(decode_rk_query_kind(&[3, 0, 0, 0, 0]).is_err());
    let op = LbExecuteOp::Remove {
        player_id: DatumId::new(),
    };
    assert_eq!(decode_lb_execute_op(&encode_lb_execute_op(&op)), Ok(op));
    let query = LbQueryReq {
        top: 1,
        bottom: 2,
        around_player: Some(DatumId::new()),
        window: 3,
        friend_ids: vec![DatumId::new(), DatumId::new()],
    };
    assert_eq!(decode_lb_query_req(&encode_lb_query_req(&query)), Ok(query));
    let result = sample_lb_result();
    assert_eq!(decode_lb_result(&encode_lb_result(&result)), Ok(result));
}

#[test]
fn frames_follow_each_other_in_a_buffer() {
    let mut buf = Vec::new();
    write_frame(&mut buf, b"one").unwrap();
    write_frame(&mut buf, b"").unwrap();
    write_frame(&mut buf, b"three").unwrap();
    assert_eq!(&buf[..7], &[3, 0, 0, 0, b'o', b'n', b'e']);
    let (first, rest) = read_frame(&buf).unwrap();
    let (second, rest) = read_frame(rest).unwrap();
    let (third, rest) = read_frame(rest).unwrap();
    assert_eq!(first, b"one");
    assert_eq!(second, b"");
    assert_eq!(third, b"three");
    assert!(rest.is_empty());
    assert_eq!(read_frame(&buf[..6]), Err(FrameError::UnexpectedEnd));
    assert_eq!(frame_len([1, 1, 0, 0]), Ok(257));
    assert_eq!(
        frame_len([255, 255, 255, 255]),
        Err(FrameError::TooLong { len: u32::MAX })
    );
}

#[test]
fn store_messages_have_their_known_bytes() {
    let id = DatumId::from_bytes([1u8; 16]);
    let mut put = vec![STORE_PROTOCOL_VERSION, 1];
    put.extend_from_slice(&[1u8; 16]);
    put.extend_from_slice(&[2, 0, b'x']);
    assert_eq!(
        encode_store_request(&StoreRequest::Put {
            id,
            bytes: b"x".to_vec(),
            n: 2
        }),
        put
    );
    assert_eq!(
        encode_store_response(&StoreResponse::NeedFull),
        vec![STORE_PROTOCOL_VERSION, 2]
    );
    assert_eq!(
        decode_store_request(&[STORE_PROTOCOL_VERSION + 1], true),
        Err(WireError::UnsupportedVersion {
            what: Subject::StoreRequest,
            version: STORE_PROTOCOL_VERSION + 1,
            supported: STORE_PROTOCOL_VERSION
        })
    );
}

// ---- operators ----

fn two_members() -> Vec<StorageMember> {
    vec![
        StorageMember {
            node_id: NodeId(10),
            weight: 3,
            store_address: "127.0.0.1:6910".to_string(),
            log_id: DatumId::from_bytes([7u8; 16]),
        },
        StorageMember {
            node_id: NodeId(20),
            weight: 0,
            store_address: String::new(),
            log_id: DatumId::from_rank(0),
        },
    ]
}

#[test]
fn an_operators_requests_round_trip_and_are_told_from_a_clients() {
    for request in [
        AdminRequest::GetClusterConfig,
        AdminRequest::Pause {
            reason: "migrating".to_string(),
        },
        AdminRequest::Resume,
        AdminRequest::ClearHalt,
        AdminRequest::InstallStorageRing { members: vec![] },
        AdminRequest::InstallStorageRing {
            members: two_members(),
        },
    ] {
        let bytes = encode_admin_request(&request);
        assert_eq!(bytes[0], PROTOCOL_VERSION);
        assert_eq!(
            decode_client_request(&bytes),
            Ok(ClientRequest::Admin(request))
        );
    }
    let plain = Request::Op {
        op_id: DatumId::new(),
        op_name: "put1".to_string(),
        datum_ids: vec![DatumId::new()],
        payload: vec![1, 2],
    };
    assert_eq!(
        decode_client_request(&encode_request(&plain)),
        Ok(ClientRequest::Plain(plain))
    );
}

#[test]
fn answers_to_an_operator_round_trip() {
    for reply in [
        AdminReply::Ack,
        AdminReply::ClusterConfig { members: vec![] },
        AdminReply::ClusterConfig {
            members: two_members(),
        },
    ] {
        assert_eq!(decode_admin_reply(&encode_admin_reply(&reply)), Ok(reply));
    }
}

#[test]
fn what_no_operator_sends_is_refused() {
    let mut longer = encode_admin_request(&AdminRequest::Resume);
    longer.push(0);
    assert_eq!(
        decode_client_request(&longer),
        Err(WireError::TrailingBytes {
            what: Subject::AdminRequest,
            count: 1
        })
    );
    let pause = encode_admin_request(&AdminRequest::Pause {
        reason: "why".to_string(),
    });
    for cut in 0..pause.len() {
        assert!(decode_client_request(&pause[..cut]).is_err());
    }
    assert_eq!(
        decode_client_request(&[PROTOCOL_VERSION, 200]),
        Err(WireError::UnknownTag {
            what: Tag::Request,
            tag: 200
        })
    );
    assert!(decode_client_request(&[PROTOCOL_VERSION + 1, 9]).is_err());

    let mut longer = encode_admin_reply(&AdminReply::Ack);
    longer.push(0);
    assert_eq!(
        decode_admin_reply(&longer),
        Err(WireError::TrailingBytes {
            what: Subject::AdminReply,
            count: 1
        })
    );
    assert_eq!(
        decode_admin_reply(&[PROTOCOL_VERSION, 200]),
        Err(WireError::UnknownTag {
            what: Tag::AdminReply,
            tag: 200
        })
    );
    assert!(decode_admin_reply(&[PROTOCOL_VERSION + 1, 9]).is_err());
}

#[test]
fn what_is_read_as_a_request_is_its_encoding() {
    let id = DatumId::from_rank(7);
    let requests = vec![
        Request::Op {
            op_id: id,
            op_name: "é".to_string(),
            datum_ids: vec![id],
            payload: vec![1],
        },
        Request::Acquire {
            op_id: id,
            datum_id: id,
            requester_node: NodeId(3),
            requester_thread: ThreadId(4),
        },
        Request::Recall { datum_id: id },
        Request::Release { datum_id: id },
        Request::IndexUpdate {
            target: id,
            op_id: id,
            index_kind: "k".to_string(),
            payload: vec![],
        },
        Request::RkQuery {
            index_datum_id: id,
            query: RkQueryKind::TopN(2),
        },
        Request::LbExecute {
            board_id: id,
            class: "c".to_string(),
            op: LbExecuteOp::Remove { player_id: id },
        },
        Request::LbQuery {
            board_id: id,
            class: "c".to_string(),
            query: LbQueryReq {
                top: 1,
                bottom: 2,
                around_player: Some(id),
                window: 3,
                friend_ids: vec![id],
            },
        },
    ];
    let mut read = 0;
    for request in requests {
        let bytes = encode_request(&request);
        for at in 0..bytes.len() {
            for byte in [0u8, 1, 2, 9, 255] {
                let mut other = bytes.clone();
                other[at] = byte;
                if let Ok(decoded) = decode_request(&other) {
                    assert_eq!(encode_request(&decoded), other);
                    read += 1;
                }
            }
            if let Ok(decoded) = decode_request(&bytes[..at]) {
                assert_eq!(encode_request(&decoded), bytes[..at]);
            }
        }
    }
    assert!(read > 100);
    for tag in (9..=255u8).chain([0]) {
        assert_eq!(
            decode_request(&[PROTOCOL_VERSION, tag, 0]),
            Err(WireError::UnknownTag {
                what: Tag::Request,
                tag
            })
        );
    }
}

#[test]
fn what_is_read_as_an_envelope_is_its_encoding() {
    for kind in 0..4u8 {
        let mut bytes: Vec<u8> = (10..30).collect();
        bytes[8] = kind;
        match decode_envelope(&bytes) {
            Ok(envelope) => {
                assert!(kind < 2);
                assert_eq!(encode_envelope(&envelope), bytes);
            }
            Err(_) => assert!(kind >= 2),
        }
    }
}

#[test]
fn what_is_wrong_with_a_frame_is_told() {
    assert_eq!(
        FrameError::TooLong { len: 67_108_865 }.message(),
        "frame length 67108865 exceeds MAX_FRAME_LEN (67108864)"
    );
    assert_eq!(
        FrameError::PayloadTooLarge.message(),
        "payload too large for a u32 frame length"
    );
    let header = (MAX_FRAME_LEN + 1).to_le_bytes();
    assert_eq!(
        frame_len(header),
        Err(FrameError::TooLong { len: 67_108_865 })
    );
}
