//! Storage nodes: replication, transfers, migrations and collections.

use std::cell::RefCell;
use std::collections::{BTreeMap, BTreeSet};
use std::rc::Rc;

use seisin::authority::NodeId;
use seisin::cache::Cache;
use seisin::client::{Journey, MAX_REDIRECTS};
use seisin::collection_store::{
    collection_file_name, collection_reply, plan_open, tree_call, CollectionReply,
    CollectionRequest, OpenPlan, TreeCall, TreeReply,
};
use seisin::datum::DatumId;
use seisin::gossip_state::ClusterState;
use seisin::index_handler::{
    IndexApplyOutcome, IndexCalls, IndexKind, IndexKindRegistry, IndexOpening, ResidentIndex,
    Residents,
};
use seisin::migrate::{
    address_of, batch_moves, plan_moves, report, ring_of, script, verify_identity, Batch,
    IdPager, Move, Step, ID_PAGE,
};
use seisin::migration::{
    plan_transfers, DriverCall, Migration, NoAddress, Progress, TransferPlan,
};
use seisin::planning::{Planning, Refusal, Resumption};
use seisin::remote_collection::{CollectionRead, CollectionWrite, RemoteCollectionStore};
use seisin::remote_store::{read_reply, worth_a_patch, DatumWrite, RemoteStore};
use seisin::replica_resolver::{
    store_address, Kept, ReadReply, ReplicaResolver, ReplicaWrite, WriteForm, WriteReply,
};
use seisin::response::Response;
use seisin::ring::Ring;
use seisin::server::{administer, AdminReply, AdminRequest, StorageMember};
use seisin::store::{InMemoryStore, Store, StoreCalls};
use seisin::store_server::{
    copy_request, stored_value, tail_request, LogCall, LogReply, StorePlan, StoreState,
};
use seisin::store_wire::{
    decode_store_request, decode_store_response, encode_store_request, encode_store_response,
    StoreRequest, StoreResponse,
};
use seisin::transfer::TransferManager;

// ---- transfers ----

#[test]
fn start_records_ids_and_dest() {
    let mut m = TransferManager::default();
    let tid = DatumId::new();
    let a = DatumId::new();
    let b = DatumId::new();
    m.start(tid, vec![a, b], "dest:1".to_string());
    assert_eq!(m.dest(tid), Some("dest:1".to_string()));
    let mut ids = m.ids(tid);
    ids.sort();
    let mut expected = vec![a, b];
    expected.sort();
    assert_eq!(ids, expected);
    assert_eq!(m.status(tid), Some((0, 0, false)));
}

#[test]
fn note_write_only_dirties_ids_in_the_transfer_set() {
    let mut m = TransferManager::default();
    let tid = DatumId::new();
    let a = DatumId::new();
    let outsider = DatumId::new();
    m.start(tid, vec![a], "d".to_string());
    m.note_write(outsider);
    assert_eq!(m.status(tid).unwrap().1, 0);
    m.note_write(a);
    m.note_write(a);
    assert_eq!(m.status(tid).unwrap().1, 1);
}

#[test]
fn copied_and_done_progress_and_take_dirty_drains() {
    let mut m = TransferManager::default();
    let tid = DatumId::new();
    let a = DatumId::new();
    m.start(tid, vec![a], "d".to_string());
    m.bump_copied(tid, 1);
    m.note_write(a);
    m.mark_done(tid);
    assert_eq!(m.status(tid), Some((1, 1, true)));
    assert_eq!(m.take_dirty(tid), vec![a]);
    assert_eq!(m.status(tid).unwrap().1, 0);
}

#[test]
fn retire_returns_the_ids_and_forgets_the_transfer() {
    let mut m = TransferManager::default();
    let tid = DatumId::new();
    let a = DatumId::new();
    m.start(tid, vec![a], "d".to_string());
    assert_eq!(m.retire(tid), vec![a]);
    assert_eq!(m.status(tid), None);
    assert_eq!(m.retire(tid), Vec::<DatumId>::new());
}

#[test]
fn nothing_is_known_of_a_transfer_that_was_never_begun() {
    let mut m = TransferManager::default();
    let tid = DatumId::new();
    m.bump_copied(tid, 1);
    m.mark_done(tid);
    m.note_write(DatumId::new());
    assert_eq!(m.dest(tid), None);
    assert_eq!(m.ids(tid), vec![]);
    assert_eq!(m.status(tid), None);
    assert_eq!(m.take_dirty(tid), vec![]);
}

// ---- a storage node over a log in memory ----

/// A storage node whose log is a map.
struct StoreNode {
    state: StoreState,
    log: BTreeMap<u128, (Vec<u8>, u16)>,
    log_id: DatumId,
    stale: bool,
    /// How many bytes were written to the log.
    appended: usize,
}

/// A delta of these tests: a position, and the bytes from there on.
fn delta(at: u32, bytes: &[u8]) -> Vec<u8> {
    [&at.to_le_bytes()[..], bytes].concat()
}

/// Storage nodes by address.
struct Stores(BTreeMap<String, StoreNode>);

impl Stores {
    fn with(nodes: &[u64]) -> Stores {
        Stores(
            nodes
                .iter()
                .map(|n| {
                    (
                        format!("store-{n}"),
                        StoreNode {
                            state: StoreState {
                                node_id: NodeId(*n),
                                self_halt_threshold_ms: 3_600_000,
                                transfers: TransferManager::default(),
                            },
                            log: BTreeMap::new(),
                            log_id: DatumId::new(),
                            stale: false,
                            appended: 0,
                        },
                    )
                })
                .collect(),
        )
    }

    /// A call over the wire: what is sent and what comes back is encoded.
    fn call(&mut self, address: &str, request: &StoreRequest) -> Option<StoreResponse> {
        let request = decode_store_request(&encode_store_request(request), true).unwrap();
        let response = self.serve(address, request)?;
        Some(decode_store_response(&encode_store_response(&response)).unwrap())
    }

    fn serve(&mut self, address: &str, request: StoreRequest) -> Option<StoreResponse> {
        let node = self.0.get_mut(address)?;
        match node.state.plan(node.stale, request) {
            StorePlan::Answer(response) => Some(response),
            StorePlan::Log(call) => {
                let reply = node.on_log(&call);
                node.state.answer(&call, reply)
            }
            StorePlan::Copy { transfer_id } => {
                let dest = node.state.transfers.dest(transfer_id).unwrap();
                for id in node.state.transfers.ids(transfer_id) {
                    let value = self.0[address].value(id);
                    if let Some(request) = copy_request(id, value) {
                        self.call(&dest, &request);
                    }
                    let node = self.0.get_mut(address).unwrap();
                    node.state.transfers.bump_copied(transfer_id, 1);
                }
                let node = self.0.get_mut(address).unwrap();
                node.state.transfers.mark_done(transfer_id);
                Some(StoreResponse::Ack)
            }
            StorePlan::Tail { dest, ids } => {
                for id in ids {
                    let value = self.0[address].value(id);
                    self.call(&dest, &tail_request(id, value));
                }
                Some(StoreResponse::Ack)
            }
            StorePlan::Retire { ids } => {
                for id in ids {
                    node.log.remove(&id.as_rank());
                }
                Some(StoreResponse::Ack)
            }
        }
    }

    fn get(&mut self, address: &str, id: DatumId) -> Option<Vec<u8>> {
        match self.call(address, &StoreRequest::Get { id }) {
            Some(StoreResponse::Value { bytes }) => bytes,
            other => panic!("expected Value, got {other:?}"),
        }
    }

    fn put(&mut self, address: &str, id: DatumId, bytes: &[u8], n: u16) {
        assert_eq!(
            self.call(
                address,
                &StoreRequest::Put {
                    id,
                    bytes: bytes.to_vec(),
                    n
                }
            ),
            Some(StoreResponse::Ack)
        );
    }
}

impl StoreNode {
    fn value(&self, id: DatumId) -> Option<(Vec<u8>, u16)> {
        let found = self.log.get(&id.as_rank());
        stored_value(found.map(|v| v.0.clone()), found.map(|v| v.1))
    }

    fn on_log(&mut self, call: &LogCall) -> LogReply {
        match call {
            LogCall::PutFull { id, bytes, n } => {
                self.appended += bytes.len();
                self.log.insert(id.as_rank(), (bytes.clone(), *n));
                LogReply::Done
            }
            LogCall::PutDelta { id, delta, n } => match self.log.get_mut(&id.as_rank()) {
                Some((content, factor)) => {
                    self.appended += delta.len();
                    let at = u32::from_le_bytes(delta[..4].try_into().unwrap()) as usize;
                    content[at..at + delta.len() - 4].copy_from_slice(&delta[4..]);
                    *factor = *n;
                    LogReply::Done
                }
                None => LogReply::NeedFull,
            },
            LogCall::Get { id } => {
                LogReply::Content(self.log.get(&id.as_rank()).map(|v| v.0.clone()))
            }
            LogCall::Delete { id } => {
                self.log.remove(&id.as_rank());
                LogReply::Done
            }
            LogCall::ListIds { after, limit } => LogReply::Ids(
                self.log
                    .iter()
                    .filter(|(k, _)| after.map_or(true, |a| **k > a.as_rank()))
                    .take(*limit as usize)
                    .map(|(k, v)| (DatumId::from_rank(*k), v.1))
                    .collect(),
            ),
            LogCall::LogId => LogReply::LogId(self.log_id),
        }
    }
}

#[test]
fn identify_returns_node_id_and_log_id() {
    let mut stores = Stores::with(&[7]);
    let expected_log_id = stores.0["store-7"].log_id;
    assert_eq!(
        stores.call("store-7", &StoreRequest::Identify),
        Some(StoreResponse::Identity {
            node_id: NodeId(7),
            log_id: expected_log_id
        })
    );
}

#[test]
fn a_fresh_heartbeat_serves() {
    let mut stores = Stores::with(&[1]);
    let id = DatumId::new();
    stores.put("store-1", id, b"v", 1);
    assert_eq!(stores.get("store-1", id), Some(b"v".to_vec()));
}

#[test]
fn a_stale_heartbeat_answers_error() {
    let mut stores = Stores::with(&[9]);
    let node = stores.0.get_mut("store-9").unwrap();
    node.stale = true;
    node.state.self_halt_threshold_ms = 0;
    match stores.call("store-9", &StoreRequest::Get { id: DatumId::new() }) {
        Some(StoreResponse::Error { message }) => assert_eq!(
            message,
            "storage node NodeId(9) self-halted: no gossip contact within 0ms"
        ),
        other => panic!("expected Error, got {other:?}"),
    }
}

#[test]
fn transfer_copies_then_tails_a_dirty_write() {
    let mut stores = Stores::with(&[1, 2]);
    let ids: Vec<DatumId> = (0..3).map(|_| DatumId::new()).collect();
    for (i, id) in ids.iter().enumerate() {
        stores.put("store-1", *id, b"v0", if i == 2 { 5 } else { 1 });
    }

    let transfer_id = DatumId::new();
    assert_eq!(
        stores.call(
            "store-1",
            &StoreRequest::Transfer {
                transfer_id,
                ids: ids.clone(),
                dest_address: "store-2".to_string(),
            }
        ),
        Some(StoreResponse::Ack)
    );
    assert_eq!(
        stores.call("store-1", &StoreRequest::TransferStatus { transfer_id }),
        Some(StoreResponse::TransferProgress {
            copied: 3,
            dirty: 0,
            done: true
        })
    );

    stores.put("store-1", ids[0], b"v1", 1);
    assert_eq!(
        stores.call("store-1", &StoreRequest::Delete { id: ids[1] }),
        Some(StoreResponse::Ack)
    );
    assert_eq!(
        stores.call("store-1", &StoreRequest::TransferStatus { transfer_id }),
        Some(StoreResponse::TransferProgress {
            copied: 3,
            dirty: 2,
            done: true
        })
    );
    assert_eq!(
        stores.call("store-1", &StoreRequest::FinishTransfer { transfer_id }),
        Some(StoreResponse::Ack)
    );

    assert_eq!(stores.get("store-2", ids[0]), Some(b"v1".to_vec()));
    assert_eq!(stores.get("store-2", ids[1]), None);
    assert_eq!(stores.get("store-2", ids[2]), Some(b"v0".to_vec()));
    match stores.call(
        "store-2",
        &StoreRequest::ListIds {
            after: None,
            limit: 100,
        },
    ) {
        Some(StoreResponse::IdList { ids: listed, done }) => {
            assert!(done);
            assert_eq!(
                listed.iter().find(|(id, _)| *id == ids[2]).map(|(_, n)| *n),
                Some(5)
            );
        }
        other => panic!("expected IdList, got {other:?}"),
    }

    assert_eq!(
        stores.call("store-1", &StoreRequest::Retire { transfer_id }),
        Some(StoreResponse::Ack)
    );
    for id in &ids {
        assert_eq!(stores.get("store-1", *id), None);
    }
    assert_eq!(
        stores.call("store-1", &StoreRequest::FinishTransfer { transfer_id }),
        Some(StoreResponse::Error {
            message: format!("unknown transfer {}", id_debug(transfer_id))
        })
    );
}

/// An id as it stands in messages.
fn id_debug(id: DatumId) -> String {
    let hex: String = id.as_bytes().iter().map(|b| format!("{b:02x}")).collect();
    format!(
        "DatumId({}-{}-{}-{}-{})",
        &hex[0..8],
        &hex[8..12],
        &hex[12..16],
        &hex[16..20],
        &hex[20..]
    )
}

#[test]
fn a_failing_disk_closes_the_connection() {
    let mut state = StoreState {
        node_id: NodeId(1),
        self_halt_threshold_ms: 1,
        transfers: TransferManager::default(),
    };
    let id = DatumId::new();
    assert_eq!(state.answer(&LogCall::Get { id }, LogReply::Failed), None);
    assert_eq!(state.answer(&LogCall::Delete { id }, LogReply::Failed), None);
}

#[test]
fn a_full_page_of_ids_is_not_the_last() {
    let mut stores = Stores::with(&[1]);
    for _ in 0..3 {
        stores.put("store-1", DatumId::new(), b"", 1);
    }
    for (limit, last) in [(2, false), (3, false), (4, true)] {
        match stores.call("store-1", &StoreRequest::ListIds { after: None, limit }) {
            Some(StoreResponse::IdList { ids, done }) => {
                assert_eq!(ids.len(), limit.min(3) as usize);
                assert_eq!(done, last);
            }
            other => panic!("expected IdList, got {other:?}"),
        }
    }
}

// ---- replication ----

/// A compute node's view of storage nodes that each weigh one.
fn cluster_of(nodes: &[u64]) -> ClusterState {
    let mut cluster = ClusterState::compute_only(Ring::from_members(&[(NodeId(9), 1)]));
    let members: Vec<(NodeId, u32)> = nodes.iter().map(|n| (NodeId(*n), 1)).collect();
    cluster.storage_ring = Ring::from_members(&members);
    for n in nodes {
        cluster.store_addresses.insert(*n, format!("store-{n}"));
        cluster.storage_alive.insert(*n);
    }
    cluster
}

/// A store over the wire, with the deltas of these tests.
struct Remote {
    cluster: ClusterState,
    stores: Stores,
}

impl Remote {
    fn over(nodes: &[u64]) -> Remote {
        Remote {
            cluster: cluster_of(nodes),
            stores: Stores::with(nodes),
        }
    }

    fn call(&mut self, node: NodeId, request: &StoreRequest) -> Option<StoreResponse> {
        let address = store_address(&self.cluster, node).ok()?;
        self.stores.call(&address, request)
    }

    fn carry_out(&mut self, mut write: DatumWrite) -> Result<(), String> {
        while let Some((node, request)) = write.ask() {
            let reply = self.call(node, &request);
            write.answer(&mut self.cluster, &reply);
        }
        write.finish(&mut self.cluster)
    }

    fn put(
        &mut self,
        id: DatumId,
        content: &[u8],
        delta: Option<Vec<u8>>,
        n: u16,
    ) -> Result<(), String> {
        let store = RemoteStore::new(&self.cluster);
        let write = store.put_with_delta_replicated(id, content.to_vec(), delta, n);
        self.carry_out(write)
    }

    fn delete(&mut self, id: DatumId, n: u16) -> Result<(), String> {
        let write = RemoteStore::new(&self.cluster).delete_replicated(id, n);
        self.carry_out(write)
    }

    fn get(&mut self, id: DatumId, n: u16) -> Result<Option<Vec<u8>>, String> {
        let mut read = RemoteStore::new(&self.cluster).get_replicated(id, n);
        while let Some((node, request)) = read.ask() {
            let reply = self.call(node, &request);
            read.answer(&mut self.cluster, reply);
        }
        read.finish(&mut self.cluster)
    }
}

#[test]
fn put_get_delete_round_trip_over_the_wire() {
    let mut store = Remote::over(&[1]);
    let id = DatumId::new();
    assert_eq!(store.get(id, 1), Ok(None));
    store.put(id, b"hello", None, 1).unwrap();
    assert_eq!(store.get(id, 1), Ok(Some(b"hello".to_vec())));
    store.delete(id, 1).unwrap();
    assert_eq!(store.get(id, 1), Ok(None));
}

#[test]
fn put_with_previous_ships_a_patch_and_reads_back_exactly() {
    let mut store = Remote::over(&[1]);
    let id = DatumId::new();
    let v1 = vec![7u8; 4096];
    store.put(id, &v1, None, 1).unwrap();
    let mut v2 = v1.clone();
    v2[100] = 9;
    store.put(id, &v2, Some(delta(100, &[9])), 1).unwrap();
    assert_eq!(store.get(id, 1), Ok(Some(v2)));
}

#[test]
fn a_patch_for_an_unknown_id_falls_back_to_a_full_put() {
    let mut store = Remote::over(&[1]);
    let id = DatumId::new();
    let mut new = vec![1u8; 4096];
    new[10] = 2;
    store.put(id, &new, Some(delta(10, &[2])), 1).unwrap();
    assert_eq!(store.get(id, 1), Ok(Some(new)));
}

#[test]
fn a_poor_delta_goes_straight_to_a_full_put() {
    let mut store = Remote::over(&[1]);
    let id = DatumId::new();
    store.put(id, b"abc", None, 1).unwrap();
    assert!(!worth_a_patch(2, 4));
    assert!(worth_a_patch(1, 4));
    store.put(id, b"xyz!", Some(delta(0, b"?")), 1).unwrap();
    assert_eq!(store.get(id, 1), Ok(Some(b"xyz!".to_vec())));
}

#[test]
fn remote_store_a_replicated_write_reaches_two_nodes_and_reads_back() {
    let mut store = Remote::over(&[1, 2, 3]);
    let id = DatumId::new();
    let replicas = store.cluster.storage_ring.replicas(id, 2);
    assert_eq!(replicas.len(), 2);
    store.put(id, b"dup", None, 2).unwrap();
    assert_eq!(store.get(id, 2), Ok(Some(b"dup".to_vec())));
    for node in &replicas {
        assert_eq!(
            store.stores.get(&format!("store-{}", node.0), id),
            Some(b"dup".to_vec())
        );
    }

    store.cluster.storage_alive.remove(&replicas[0].0);
    assert_eq!(store.get(id, 2), Ok(Some(b"dup".to_vec())));
    assert!(!store.cluster.halt.is_halted());
}

#[test]
fn a_read_takes_the_first_value_among_absent_and_failed_replies() {
    let mut store = Remote::over(&[1, 2, 3]);
    let id = DatumId::new();
    let replicas = store.cluster.storage_ring.replicas(id, 3);
    store.put(id, b"kept", None, 3).unwrap();
    let address = |node: NodeId| format!("store-{}", node.0);
    let forget = StoreRequest::Delete { id };
    store.stores.call(&address(replicas[0]), &forget);
    store.stores.0.remove(&address(replicas[1]));
    assert_eq!(store.get(id, 3), Ok(Some(b"kept".to_vec())));
    assert_eq!(
        store.cluster.storage_stale,
        BTreeSet::from([replicas[1].0])
    );

    store.stores.call(&address(replicas[2]), &forget);
    assert_eq!(store.get(id, 3), Ok(None));
    assert!(!store.cluster.halt.is_halted());

    store.stores.0.clear();
    assert!(store.get(id, 3).is_err());
    assert!(store.cluster.halt.is_halted());
}

#[test]
fn every_write_during_a_transfer_is_in_the_tail() {
    let mut stores = Stores::with(&[1, 2]);
    let moved = ids(4);
    for id in &moved {
        stores.put("store-1", *id, b"v0", 1);
    }
    let transfer_id = DatumId::new();
    let start = StoreRequest::Transfer {
        transfer_id,
        ids: moved.clone(),
        dest_address: "store-2".to_string(),
    };
    assert_eq!(stores.call("store-1", &start), Some(StoreResponse::Ack));
    stores.put("store-1", moved[0], b"v1", 1);
    stores.put("store-1", moved[2], b"v1", 1);
    stores.put("store-1", moved[0], b"v2", 1);
    stores.call("store-1", &StoreRequest::Delete { id: moved[3] });
    let finish = StoreRequest::FinishTransfer { transfer_id };
    assert_eq!(stores.call("store-1", &finish), Some(StoreResponse::Ack));
    for id in &moved {
        assert_eq!(stores.get("store-2", *id), stores.get("store-1", *id));
    }
    assert_eq!(stores.get("store-2", moved[0]), Some(b"v2".to_vec()));
    assert_eq!(stores.get("store-2", moved[3]), None);
}

#[test]
fn remote_store_total_loss_trips_the_point_of_use_halt() {
    let mut store = Remote::over(&[1, 2, 3]);
    let id = DatumId::new();
    for node in store.cluster.storage_ring.replicas(id, 2) {
        store.cluster.storage_alive.remove(&node.0);
    }
    let reason = store.get(id, 2).unwrap_err();
    assert!(store.cluster.halt.is_halted());
    assert_eq!(store.cluster.halt.reason(), Some(reason.clone()));
    assert_eq!(
        reason,
        format!(
            "cluster halted: every replica of datum {} is unreachable — total shard loss",
            id_debug(id)
        )
    );
}

#[test]
fn integration_storage_replication_a_replicated_write_reaches_two_nodes_and_reads_back() {
    let mut store = Remote::over(&[1, 2, 3]);
    for _ in 0..20 {
        let id = DatumId::new();
        store.put(id, b"dup", None, 2).unwrap();
        let copies = store
            .stores
            .0
            .values()
            .filter(|node| node.log.contains_key(&id.as_rank()))
            .count();
        assert_eq!(copies, 2);
        assert_eq!(store.get(id, 2), Ok(Some(b"dup".to_vec())));
    }
}

#[test]
fn a_read_fails_over_when_the_primary_is_down() {
    let mut store = Remote::over(&[1, 2, 3]);
    let id = DatumId::new();
    store.put(id, b"v", None, 2).unwrap();
    let primary = store.cluster.storage_ring.replicas(id, 2)[0];
    store.stores.0.remove(&format!("store-{}", primary.0));
    assert_eq!(store.get(id, 2), Ok(Some(b"v".to_vec())));
    assert!(store.cluster.storage_stale.contains(&primary.0));
    assert!(!store.cluster.halt.is_halted());
}

#[test]
fn a_degraded_write_acks_with_one_replica_down() {
    let mut store = Remote::over(&[1, 2, 3]);
    let id = DatumId::new();
    let replicas = store.cluster.storage_ring.replicas(id, 2);
    store.stores.0.remove(&format!("store-{}", replicas[1].0));
    store.put(id, b"v", None, 2).unwrap();
    assert_eq!(
        store.cluster.storage_stale,
        BTreeSet::from([replicas[1].0])
    );
    assert_eq!(store.get(id, 2), Ok(Some(b"v".to_vec())));
}

#[test]
fn the_nodes_that_serve_a_datum_have_its_last_write() {
    let mut store = Remote::over(&[1, 2, 3]);
    let id = DatumId::new();
    store.put(id, b"one", None, 3).unwrap();
    let replicas = store.cluster.storage_ring.replicas(id, 3);
    store.stores.0.remove(&format!("store-{}", replicas[1].0));
    store.put(id, b"two", None, 3).unwrap();
    let serving = ReplicaResolver::new(&mut store.cluster).serving_replicas(id, 3);
    assert_eq!(serving, vec![replicas[0], replicas[2]]);
    for node in serving {
        assert_eq!(
            store.stores.get(&format!("store-{}", node.0), id),
            Some(b"two".to_vec())
        );
    }
}

#[test]
fn total_loss_of_both_replicas_halts_at_point_of_use() {
    let mut store = Remote::over(&[1, 2, 3]);
    let id = DatumId::new();
    for node in store.cluster.storage_ring.replicas(id, 2) {
        store.stores.0.remove(&format!("store-{}", node.0));
    }
    assert!(store.put(id, b"v", None, 2).is_err());
    assert!(store.cluster.halt.is_halted());
    assert!(store.cluster.halt.reason().unwrap().contains("total shard loss"));
}

#[test]
fn a_single_copy_datum_still_fail_stops_on_loss() {
    let mut store = Remote::over(&[1, 2]);
    let id = DatumId::new();
    store.put(id, b"v", None, 1).unwrap();
    let only = store.cluster.storage_ring.replicas(id, 1)[0];
    store.stores.0.remove(&format!("store-{}", only.0));
    assert!(store.get(id, 1).is_err());
    assert!(store.cluster.halt.is_halted());
}

#[test]
fn a_stale_returned_node_is_not_served() {
    let mut store = Remote::over(&[1, 2, 3]);
    let id = DatumId::new();
    let primary = store.cluster.storage_ring.replicas(id, 2)[0];
    let address = format!("store-{}", primary.0);
    store.put(id, b"old", None, 2).unwrap();
    let gone = store.stores.0.remove(&address).unwrap();
    store.put(id, b"new", None, 2).unwrap();
    store.stores.0.insert(address, gone);
    assert_eq!(store.get(id, 2), Ok(Some(b"new".to_vec())));
}

#[test]
fn a_resolver_serves_marks_and_halts() {
    let mut cluster = cluster_of(&[1, 2, 3]);
    let id = DatumId::new();
    let replicas = cluster.storage_ring.replicas(id, 3);
    let mut resolver = ReplicaResolver::new(&mut cluster);
    assert_eq!(resolver.serving_replicas(id, 3), replicas);
    resolver.mark_stale(replicas[1]);
    assert_eq!(
        resolver.serving_replicas(id, 3),
        vec![replicas[0], replicas[2]]
    );
    assert!(!resolver.cluster().halt.is_halted());
    assert_eq!(
        resolver.halt_total_loss(id),
        format!(
            "cluster halted: every replica of {} is unreachable — total shard loss",
            id_debug(id)
        )
    );
    assert!(cluster.halt.is_halted());
    assert_eq!(
        store_address(&cluster, NodeId(44)),
        Err("no store address configured for storage node NodeId(44)".to_string())
    );
}

#[test]
fn collection_store_total_loss_trips_the_point_of_use_halt() {
    let mut cluster = cluster_of(&[1, 2, 3]);
    let collection_id = DatumId::new();
    for node in cluster.storage_ring.replicas(collection_id, 2) {
        cluster.storage_alive.remove(&node.0);
    }
    let write = ReplicaWrite::begin(&cluster, Kept::Collection, collection_id, 2, false);
    assert_eq!(write.ask(), None);
    assert!(write.finish(&mut cluster).is_err());
    assert!(cluster.halt.is_halted());
    assert!(cluster.halt.reason().unwrap().contains("total shard loss"));
}

#[test]
fn a_node_that_wants_everything_twice_is_given_up() {
    let mut cluster = cluster_of(&[1]);
    let id = DatumId::new();
    let mut write = ReplicaWrite::begin(&cluster, Kept::Datum, id, 1, true);
    assert_eq!(write.ask(), Some((NodeId(1), WriteForm::Patch)));
    write.answer(&mut cluster, WriteReply::NeedFull);
    assert_eq!(write.ask(), Some((NodeId(1), WriteForm::Full)));
    write.answer(&mut cluster, WriteReply::NeedFull);
    assert_eq!(write.ask(), None);
    assert!(cluster.storage_stale.contains(&1));
    assert!(write.finish(&mut cluster).is_err());
}

#[test]
fn a_value_is_the_only_answer_to_a_read() {
    assert_eq!(read_reply(None), (ReadReply::Failed, None));
    assert_eq!(
        read_reply(Some(StoreResponse::Ack)),
        (ReadReply::Failed, None)
    );
    assert_eq!(
        read_reply(Some(StoreResponse::Value { bytes: None })),
        (ReadReply::Absent, None)
    );
}

#[test]
fn capacity_weights_spread_ids_across_storage_nodes() {
    let ring = Ring::from_members(&[(NodeId(1), 1), (NodeId(2), 3)]);
    let mut on_two = 0;
    for _ in 0..400 {
        if ring.native(DatumId::new()).0 == NodeId(2) {
            on_two += 1;
        }
    }
    assert!(on_two > 200 && on_two < 400, "{on_two}");
}

// ---- migrations ----

fn ids(n: usize) -> Vec<DatumId> {
    (0..n).map(|_| DatumId::new()).collect()
}

#[test]
fn add_moves_a_subset_to_the_new_node_and_leaves_the_rest() {
    let old = Ring::from_members(&[(NodeId(1), 1)]);
    let new = Ring::from_members(&[(NodeId(1), 1), (NodeId(2), 1)]);
    let corpus = ids(200);
    let moves = plan_moves(&old, &new, &corpus);
    assert!(!moves.is_empty() && moves.len() < corpus.len());
    for mv in &moves {
        assert_eq!(mv.source, NodeId(1));
        assert_eq!(mv.dest, NodeId(2));
    }
}

#[test]
fn remove_moves_every_id_off_the_departing_node_to_the_survivor() {
    let old = Ring::from_members(&[(NodeId(1), 1), (NodeId(2), 1)]);
    let new = Ring::from_members(&[(NodeId(1), 1)]);
    let corpus = ids(200);
    let moves = plan_moves(&old, &new, &corpus);
    for mv in &moves {
        assert_eq!(old.native(mv.id).0, NodeId(2));
        assert_eq!(mv.dest, NodeId(1));
    }
    let on_two = corpus
        .iter()
        .filter(|id| old.native(**id).0 == NodeId(2))
        .count();
    assert_eq!(moves.len(), on_two);
}

#[test]
fn reweight_moves_a_nonempty_subset_toward_the_heavier_node() {
    let old = Ring::from_members(&[(NodeId(1), 1), (NodeId(2), 1)]);
    let new = Ring::from_members(&[(NodeId(1), 1), (NodeId(2), 3)]);
    let corpus = ids(300);
    let moves = plan_moves(&old, &new, &corpus);
    assert!(!moves.is_empty());
    let to_two = moves.iter().filter(|m| m.dest == NodeId(2)).count();
    let to_one = moves.iter().filter(|m| m.dest == NodeId(1)).count();
    assert!(
        to_two > to_one,
        "expected net flow to node 2: {to_two} vs {to_one}"
    );
}

#[test]
fn an_identical_ring_moves_nothing() {
    let ring_a = Ring::from_members(&[(NodeId(1), 2), (NodeId(2), 1)]);
    let ring_b = Ring::from_members(&[(NodeId(1), 2), (NodeId(2), 1)]);
    assert!(plan_moves(&ring_a, &ring_b, &ids(200)).is_empty());
}

#[test]
fn moves_are_batched_by_the_nodes_they_go_between() {
    let moves: Vec<Move> = [(1, 5, 6), (2, 6, 5), (3, 5, 6), (4, 5, 7)]
        .iter()
        .map(|(id, source, dest)| Move {
            id: DatumId::from_rank(*id),
            source: NodeId(*source),
            dest: NodeId(*dest),
        })
        .collect();
    let batches = batch_moves(&moves);
    let told = report(&moves, &batches, false);
    assert!(!told.applied);
    assert_eq!(told.total_moves, 4);
    assert_eq!(
        told.per_pair,
        vec![
            (NodeId(5), NodeId(6), 2),
            (NodeId(6), NodeId(5), 1),
            (NodeId(5), NodeId(7), 1)
        ]
    );
    assert_eq!(
        batches[0].ids,
        vec![DatumId::from_rank(1), DatumId::from_rank(3)]
    );
}

#[test]
fn no_two_batches_go_between_the_same_nodes() {
    let moves: Vec<Move> = (0..60u64)
        .map(|i| Move {
            id: DatumId::new(),
            source: NodeId(i % 3),
            dest: NodeId(10 + i % 4),
        })
        .collect();
    let batches = batch_moves(&moves);
    let pairs: BTreeSet<(u64, u64)> = batches.iter().map(|b| (b.source.0, b.dest.0)).collect();
    assert_eq!(pairs.len(), batches.len());
    assert_eq!(batches.len(), 12);
}

/// Compute nodes that only keep what an operator tells them.
struct Computes(Vec<ClusterState>);

/// Moves a cluster to another storage ring as its driver does, with a write of
/// a client's between the copy and the pause.
fn migrate(
    computes: &mut Computes,
    stores: &mut Stores,
    current: &Vec<StorageMember>,
    proposed: &Vec<StorageMember>,
    meanwhile: &dyn Fn(&mut Stores),
) -> usize {
    let addresses: Vec<String> = (0..computes.0.len()).map(|i| format!("compute-{i}")).collect();
    let mut planning = Planning::new(addresses.clone(), proposed.clone()).unwrap();
    while let Some(call) = planning.call() {
        match call {
            DriverCall::Compute { address, request } => {
                assert_eq!(address, addresses[0]);
                assert_eq!(request, AdminRequest::GetClusterConfig);
                let reply = administer(&mut computes.0[0], request);
                assert_eq!(planning.compute_answered(reply), Ok(()));
            }
            DriverCall::Store { address, request } => {
                let response = stores.call(&address, &request).unwrap();
                assert_eq!(planning.store_answered(response), Ok(()));
            }
        }
    }
    let plan = planning.plan().unwrap();
    assert_eq!(plan.current, *current);
    let moves = plan.moves.clone();
    let mut migration = plan.execution(true).unwrap().unwrap();
    let mut paused = false;
    while let Some(call) = migration.call() {
        match call {
            DriverCall::Compute { address, request } => {
                if !paused {
                    meanwhile(stores);
                    paused = true;
                }
                if matches!(request, AdminRequest::InstallStorageRing { .. }) {
                    assert!(computes.0.iter().all(|c| c.halt.is_paused()));
                }
                let place = addresses.iter().position(|a| *a == address).unwrap();
                let reply = administer(&mut computes.0[place], request);
                assert_eq!(migration.compute_answered(reply), Ok(()));
            }
            DriverCall::Store { address, request } => {
                let response = stores.call(&address, &request).unwrap();
                assert_eq!(migration.store_answered(response), Ok(Progress::On));
            }
        }
    }
    moves.len()
}

fn storage_member(node: u64, weight: u32) -> StorageMember {
    StorageMember {
        node_id: NodeId(node),
        weight,
        store_address: format!("store-{node}"),
        log_id: DatumId::from_rank(0),
    }
}

/// Runs a migration over a corpus and sees that all of it is where the new ring
/// says, and nowhere else.
fn migrates(current: &[(u64, u32)], proposed: &[(u64, u32)]) {
    let nodes: BTreeSet<u64> = current.iter().chain(proposed).map(|m| m.0).collect();
    let mut stores = Stores::with(&nodes.into_iter().collect::<Vec<u64>>());
    let mut computes = Computes(vec![cluster_of(&[]), cluster_of(&[])]);
    let current: Vec<StorageMember> = current.iter().map(|m| storage_member(m.0, m.1)).collect();
    for compute in &mut computes.0 {
        let members = current.clone();
        administer(compute, AdminRequest::InstallStorageRing { members });
    }
    let proposed: Vec<StorageMember> = proposed.iter().map(|m| storage_member(m.0, m.1)).collect();
    let old = ring_of(&current);
    let corpus = ids(60);
    for id in &corpus {
        stores.put(&format!("store-{}", old.native(*id).0 .0), *id, b"v0", 1);
    }
    let written = corpus[7];
    let old_home = format!("store-{}", old.native(written).0 .0);
    let moved = migrate(
        &mut computes,
        &mut stores,
        &current,
        &proposed,
        &|stores: &mut Stores| stores.put(&old_home, written, b"v1", 1),
    );
    assert!(moved > 0);
    for compute in &computes.0 {
        assert!(!compute.halt.is_paused());
        for id in &corpus {
            let home = compute.storage_ring.native(*id).0;
            let expected: &[u8] = if *id == written { b"v1" } else { b"v0" };
            assert_eq!(
                stores.get(compute.store_addresses.get(&home.0).unwrap(), *id),
                Some(expected.to_vec())
            );
        }
    }
    let copies: usize = stores.0.values().map(|node| node.log.len()).sum();
    assert_eq!(copies, corpus.len());
}

#[test]
fn live_add_moves_a_subset_and_keeps_every_datum_readable() {
    migrates(&[(1, 1)], &[(1, 1), (2, 1)]);
}

#[test]
fn planned_remove_drains_a_node_and_its_later_leave_does_not_halt() {
    migrates(&[(1, 1), (2, 1)], &[(1, 1)]);
}

#[test]
fn reweight_moves_data_and_keeps_the_corpus_readable() {
    migrates(&[(1, 1), (2, 1)], &[(1, 1), (2, 3)]);
}

#[test]
fn concurrent_writes_during_migration_are_all_present_after_the_flip() {
    migrates(&[(1, 2), (2, 1)], &[(2, 1), (3, 2)]);
}

#[test]
fn a_live_reweight_moves_data_and_keeps_the_corpus_readable() {
    migrates(
        &[(10, 1), (20, 1), (30, 1)],
        &[(10, 1), (20, 1), (30, 4)],
    );
}

/// A store behind a cache.
#[derive(Clone)]
struct Behind(Rc<RefCell<Remote>>);

impl Store for Behind {
    fn calls(&self) -> StoreCalls {
        unreachable!()
    }

    fn get_replicated(&mut self, id: DatumId, n: u16) -> Option<Vec<u8>> {
        self.0.borrow_mut().get(id, n).unwrap()
    }

    fn put_replicated(&mut self, id: DatumId, content: Vec<u8>, n: u16) {
        self.0.borrow_mut().put(id, &content, None, n).unwrap();
    }

    /// Sends what changed, where that is a run of bytes.
    fn put_with_previous_replicated(
        &mut self,
        id: DatumId,
        content: Vec<u8>,
        previous: Option<&[u8]>,
        n: u16,
    ) {
        let changed = previous
            .filter(|p| p.len() == content.len())
            .and_then(|p| {
                let first = (0..p.len()).find(|i| p[*i] != content[*i])?;
                let last = (0..p.len()).rev().find(|i| p[*i] != content[*i])?;
                Some(delta(first as u32, &content[first..=last]))
            });
        self.0.borrow_mut().put(id, &content, changed, n).unwrap();
    }

    fn delete_replicated(&mut self, id: DatumId, n: u16) {
        self.0.borrow_mut().delete(id, n).unwrap();
    }
}

#[test]
fn write_through_survives_cache_eviction_and_storage_restart() {
    let store = Behind(Rc::new(RefCell::new(Remote::over(&[1]))));
    let mut cache = Cache::new(store.clone());
    let id = DatumId::new();
    cache.put_replicated(id, b"durable".to_vec(), 1);

    // The next read must come from the storage node.
    cache.evict_non_native(|_| false);
    assert_eq!(cache.get(id), Some(b"durable".to_vec()));

    // The node comes back with the log it had, and nothing else.
    let node = store.0.borrow_mut().stores.0.remove("store-1").unwrap();
    let mut restarted = Remote::over(&[1]);
    restarted.stores.0.get_mut("store-1").unwrap().log = node.log;
    let mut cache = Cache::new(Behind(Rc::new(RefCell::new(restarted))));
    assert_eq!(cache.get(id), Some(b"durable".to_vec()));
}

#[test]
fn a_small_change_to_a_large_datum_ships_a_small_log_delta() {
    let store = Behind(Rc::new(RefCell::new(Remote::over(&[1]))));
    let mut cache = Cache::new(store.clone());
    let appended = || store.0.borrow().stores.0["store-1"].appended;
    let id = DatumId::new();
    let big = vec![42u8; 1_000_000];
    cache.put(id, big.clone());
    let after_full = appended();

    let mut changed = big;
    changed[500_000] = 7;
    cache.put(id, changed.clone());
    let growth = appended() - after_full;
    assert!(
        growth < 10_000,
        "expected a small delta append, log grew by {growth} bytes"
    );

    cache.evict_non_native(|_| false);
    assert_eq!(cache.get(id), Some(changed));
}

#[test]
fn a_killed_storage_node_halts_client_traffic() {
    let mut remote = Remote::over(&[10, 20]);
    let corpus = ids(20);
    for (i, id) in corpus.iter().enumerate() {
        remote.put(*id, format!("v{i}").as_bytes(), None, 1).unwrap();
    }
    remote.stores.0.remove("store-20");
    let lost = loop {
        let id = DatumId::new();
        if remote.cluster.storage_ring.native(id).0 == NodeId(20) {
            break id;
        }
    };
    assert!(remote.get(lost, 1).is_err());
    let refusal = remote.cluster.halt.gate().unwrap();
    assert!(refusal.contains("cluster halted"), "{refusal}");
}

#[test]
fn halt_then_resume_verifies_identity_and_restores_service() {
    let mut stores = Stores::with(&[1]);
    let mut cluster = cluster_of(&[1]);
    cluster.halt.halt("storage node 1 confirmed dead".to_string());
    let mut member = storage_member(1, 1);
    member.log_id = stores.0["store-1"].log_id;
    let mut resumption = Resumption::new(vec!["compute-0".to_string()]).unwrap();
    let mut requests = Vec::new();
    while let Some(call) = resumption.call() {
        match call {
            DriverCall::Compute { request: AdminRequest::GetClusterConfig, .. } => {
                let members = vec![member.clone()];
                let config = AdminReply::ClusterConfig { members };
                assert_eq!(resumption.compute_answered(config), Ok(()));
            }
            DriverCall::Compute { request, .. } => {
                assert!(cluster.halt.is_halted());
                requests.push(format!("{request:?}"));
                let reply = administer(&mut cluster, request);
                assert_eq!(resumption.compute_answered(reply), Ok(()));
            }
            DriverCall::Store { address, request } => {
                requests.push(format!("{request:?}"));
                let response = stores.call(&address, &request).unwrap();
                assert_eq!(resumption.store_answered(response), Ok(()));
            }
        }
    }
    assert_eq!(requests, vec!["Identify".to_string(), "ClearHalt".to_string()]);
    assert_eq!(resumption.verified(), 1);
    assert!(!cluster.halt.is_halted());
}

#[test]
fn resume_refuses_an_impostor_and_the_halt_stands() {
    let mut member = storage_member(1, 1);
    member.log_id = DatumId::from_rank(5);
    let blank = DatumId::from_rank(6);
    let mut resumption = Resumption::new(vec!["compute-0".to_string()]).unwrap();
    let members = vec![member.clone()];
    assert_eq!(
        resumption.compute_answered(AdminReply::ClusterConfig { members }),
        Ok(())
    );
    let answer = |node: u64, log_id: DatumId| StoreResponse::Identity {
        node_id: NodeId(node),
        log_id,
    };
    assert_eq!(
        resumption.store_answered(answer(1, blank)),
        Err(Refusal::OtherNode(format!(
            "impostor detected: storage node at store-1 reports NodeId(1)/{}, expected \
             NodeId(1)/{} — halt stands",
            id_debug(blank),
            id_debug(DatumId::from_rank(5))
        )))
    );
    assert!(resumption.store_answered(answer(2, DatumId::from_rank(5))).is_err());
    let identify = DriverCall::Store {
        address: "store-1".to_string(),
        request: StoreRequest::Identify,
    };
    assert_eq!(resumption.call(), Some(identify));
    assert_eq!(resumption.compute_answered(AdminReply::Ack), Err(AdminReply::Ack));
    assert_eq!(
        resumption.store_answered(StoreResponse::Ack),
        Err(Refusal::Unexpected(StoreResponse::Ack))
    );
    assert_eq!(resumption.verified(), 0);
    assert!(verify_identity(&member, NodeId(1), DatumId::from_rank(5)).is_ok());
    assert!(Resumption::new(vec![]).is_none());
}

#[test]
fn a_plan_only_reads_and_a_dry_run_goes_no_further() {
    let addresses = vec!["compute-0".to_string(), "compute-1".to_string()];
    let proposed = vec![storage_member(1, 1), storage_member(2, 1)];
    assert!(Planning::new(vec![], proposed.clone()).is_none());
    let mut planning = Planning::new(addresses.clone(), proposed.clone()).unwrap();
    let config = DriverCall::Compute {
        address: "compute-0".to_string(),
        request: AdminRequest::GetClusterConfig,
    };
    assert_eq!(planning.call(), Some(config));
    assert_eq!(planning.compute_answered(AdminReply::Ack), Err(AdminReply::Ack));
    assert_eq!(
        planning.store_answered(StoreResponse::Ack),
        Err(Refusal::Unexpected(StoreResponse::Ack))
    );
    let members = vec![storage_member(1, 1)];
    let config = AdminReply::ClusterConfig { members };
    assert_eq!(planning.compute_answered(config), Ok(()));

    let answer = |node: u64| StoreResponse::Identity {
        node_id: NodeId(node),
        log_id: DatumId::from_rank(u128::from(node) + 40),
    };
    assert_eq!(planning.store_answered(answer(1)), Ok(()));
    assert_eq!(
        planning.store_answered(answer(3)),
        Err(Refusal::OtherNode(
            "proposed node at store-2 reports id NodeId(3), expected NodeId(2)".to_string()
        ))
    );
    assert_eq!(planning.store_answered(answer(2)), Ok(()));

    let corpus = ids(50);
    let asks = |after: Option<DatumId>| {
        Some(DriverCall::Store {
            address: "store-1".to_string(),
            request: StoreRequest::ListIds {
                after,
                limit: ID_PAGE,
            },
        })
    };
    let page = |from: usize, to: usize, done: bool| StoreResponse::IdList {
        ids: corpus[from..to].iter().map(|id| (*id, 1)).collect(),
        done,
    };
    assert_eq!(planning.call(), asks(None));
    assert_eq!(planning.store_answered(page(0, 20, false)), Ok(()));
    assert_eq!(planning.call(), asks(Some(corpus[19])));
    assert_eq!(planning.store_answered(page(20, 50, true)), Ok(()));
    assert_eq!(planning.call(), None);

    let plan = planning.plan().unwrap();
    assert_eq!(plan.members[1].log_id, DatumId::from_rank(42));
    let (old, new) = (ring_of(&plan.current), ring_of(&plan.members));
    assert_eq!(plan.moves, plan_moves(&old, &new, &corpus));
    assert!(!plan.moves.is_empty());
    assert!(plan.execution(false).unwrap().is_none());
}

#[test]
fn there_is_no_plan_where_ids_have_no_home() {
    let mut planning = Planning::new(vec!["compute-0".to_string()], vec![]).unwrap();
    let members = vec![storage_member(1, 1)];
    let config = AdminReply::ClusterConfig { members };
    assert_eq!(planning.compute_answered(config), Ok(()));
    let page = StoreResponse::IdList {
        ids: vec![(DatumId::new(), 1)],
        done: true,
    };
    assert_eq!(planning.store_answered(page), Ok(()));
    assert!(planning.call().is_none());
    assert!(planning.plan().is_none());
}

#[test]
fn ids_are_listed_page_by_page() {
    let mut stores = Stores::with(&[1]);
    for _ in 0..ID_PAGE + 10 {
        stores.put("store-1", DatumId::new(), b"", 1);
    }
    let mut pager = IdPager::new();
    let mut pages = 0;
    while let Some(request) = pager.ask() {
        let response = stores.call("store-1", &request).unwrap();
        pager.answered(response).unwrap();
        pages += 1;
    }
    assert_eq!(pages, 2);
    assert_eq!(pager.ids.len(), ID_PAGE as usize + 10);
    let mut fresh = IdPager::new();
    assert_eq!(
        fresh.answered(StoreResponse::Ack),
        Err(StoreResponse::Ack)
    );
    assert!(fresh.ask().is_some());
}

#[test]
fn a_migration_takes_its_steps_in_order() {
    assert_eq!(
        script(2, 1),
        vec![
            Step::Copy(0),
            Step::Pause(0),
            Step::Pause(1),
            Step::Tail(0),
            Step::Flip(0),
            Step::Flip(1),
            Step::Resume(0),
            Step::Resume(1),
            Step::Retire(0),
        ]
    );
    assert_eq!(address_of(&vec![storage_member(1, 1)], NodeId(2)), None);
}

#[test]
fn a_migration_calls_each_node_and_waits_for_its_copies() {
    let transfer_id = DatumId::new();
    let moved = ids(2);
    let transfer = TransferPlan {
        source_address: "store-1".to_string(),
        dest_address: "store-2".to_string(),
        transfer_id,
        ids: moved.clone(),
    };
    let members = vec![storage_member(1, 1), storage_member(2, 3)];
    let computes = vec!["compute-0".to_string()];
    let mut migration = Migration::new(computes, vec![transfer], members.clone());
    let at_store = |request: StoreRequest| {
        Some(DriverCall::Store {
            address: "store-1".to_string(),
            request,
        })
    };
    let at_compute = |request: AdminRequest| {
        Some(DriverCall::Compute {
            address: "compute-0".to_string(),
            request,
        })
    };
    let copied = |done: bool| StoreResponse::TransferProgress {
        copied: 1,
        dirty: 0,
        done,
    };

    let start = StoreRequest::Transfer {
        transfer_id,
        ids: moved,
        dest_address: "store-2".to_string(),
    };
    assert_eq!(migration.call(), at_store(start));
    assert_eq!(
        migration.store_answered(StoreResponse::NeedFull),
        Err(StoreResponse::NeedFull)
    );
    assert_eq!(
        migration.store_answered(copied(true)),
        Err(copied(true))
    );
    assert_eq!(migration.compute_answered(AdminReply::Ack), Err(AdminReply::Ack));
    assert_eq!(migration.store_answered(StoreResponse::Ack), Ok(Progress::On));

    let status = || StoreRequest::TransferStatus { transfer_id };
    assert_eq!(migration.call(), at_store(status()));
    assert_eq!(migration.store_answered(copied(false)), Ok(Progress::Wait));
    assert_eq!(migration.call(), at_store(status()));
    assert_eq!(
        migration.store_answered(StoreResponse::Ack),
        Err(StoreResponse::Ack)
    );
    assert_eq!(migration.store_answered(copied(true)), Ok(Progress::On));

    let pause = AdminRequest::Pause {
        reason: "migrating".to_string(),
    };
    assert_eq!(migration.call(), at_compute(pause));
    let refused = AdminReply::ClusterConfig { members: vec![] };
    assert_eq!(
        migration.compute_answered(refused),
        Err(AdminReply::ClusterConfig { members: vec![] })
    );
    assert_eq!(migration.compute_answered(AdminReply::Ack), Ok(()));
    assert_eq!(
        migration.call(),
        at_store(StoreRequest::FinishTransfer { transfer_id })
    );
    assert_eq!(migration.store_answered(StoreResponse::Ack), Ok(Progress::On));
    assert_eq!(
        migration.call(),
        at_compute(AdminRequest::InstallStorageRing { members })
    );
    assert_eq!(migration.compute_answered(AdminReply::Ack), Ok(()));
    assert_eq!(migration.call(), at_compute(AdminRequest::Resume));
    assert_eq!(migration.compute_answered(AdminReply::Ack), Ok(()));
    assert_eq!(
        migration.call(),
        at_store(StoreRequest::Retire { transfer_id })
    );
    assert_eq!(migration.store_answered(StoreResponse::Ack), Ok(Progress::On));
    assert_eq!(migration.call(), None);
    assert_eq!(
        migration.store_answered(StoreResponse::Ack),
        Err(StoreResponse::Ack)
    );
    assert_eq!(migration.compute_answered(AdminReply::Ack), Err(AdminReply::Ack));
}

#[test]
fn a_batch_whose_addresses_are_not_known_cannot_be_transferred() {
    let batch = |source: u64, dest: u64| Batch {
        source: NodeId(source),
        dest: NodeId(dest),
        ids: vec![],
    };
    let current = vec![storage_member(1, 1)];
    let proposed = vec![storage_member(2, 1)];
    assert_eq!(
        plan_transfers(&vec![batch(1, 2), batch(3, 2)], &current, &proposed),
        Err(NoAddress::Source(NodeId(3)))
    );
    assert_eq!(
        plan_transfers(&vec![batch(1, 4)], &current, &proposed),
        Err(NoAddress::Dest(NodeId(4)))
    );
    let planned = plan_transfers(&vec![batch(1, 2)], &current, &proposed).unwrap();
    assert_eq!(planned[0].source_address, "store-1");
    assert_eq!(planned[0].dest_address, "store-2");
}

// ---- collections ----

/// A tree in memory.
#[derive(Default)]
struct Tree(BTreeMap<Vec<u8>, Vec<u8>>);

impl Tree {
    fn run(&mut self, call: TreeCall) -> TreeReply {
        let pairs = |limit: usize, from: usize| -> Vec<(Vec<u8>, Vec<u8>)> {
            self.0
                .iter()
                .skip(from)
                .take(limit)
                .map(|(k, v)| (k.clone(), v.clone()))
                .collect()
        };
        match call {
            TreeCall::Nothing => TreeReply::Done,
            TreeCall::Insert { key, value } => {
                self.0.insert(key, value);
                TreeReply::Done
            }
            TreeCall::Remove { key } => {
                self.0.remove(&key);
                TreeReply::Done
            }
            TreeCall::Everything => TreeReply::Entries(pairs(usize::MAX, 0)),
            TreeCall::ScanForwardBounded { limit } => TreeReply::Entries(pairs(limit as usize, 0)),
            TreeCall::ScanBackwardBounded { limit } => {
                let mut all = pairs(usize::MAX, 0);
                all.reverse();
                all.truncate(limit as usize);
                TreeReply::Entries(all)
            }
            TreeCall::SampleByRank { k } => TreeReply::Entries(pairs(k as usize, 0)),
            TreeCall::RankOfKey { key } => {
                TreeReply::Rank(self.0.keys().position(|k| *k == key).map(|p| p as u64))
            }
            TreeCall::ScanFromRank { rank, limit } => {
                TreeReply::Entries(pairs(limit as usize, rank as usize))
            }
            TreeCall::Len => TreeReply::Len(self.0.len() as u64),
        }
    }

    fn ask(&mut self, request: &CollectionRequest) -> CollectionReply {
        let reply = self.run(tree_call(request));
        collection_reply(request, reply)
    }
}

#[test]
fn collection_create_insert_scan_and_rank_round_trip_over_the_wire() {
    let mut tree = Tree::default();
    let collection_id = DatumId::new();
    let create = CollectionRequest::Create {
        collection_id,
        key_size: 4,
        value_size: 4,
    };
    assert_eq!(
        plan_open(&create, false, false),
        OpenPlan::Create {
            page_size: 4096,
            key_size: 4,
            value_size: 4
        }
    );
    assert_eq!(tree.ask(&create), CollectionReply::Ack);

    for i in 0u32..5 {
        let bytes = i.to_be_bytes().to_vec();
        assert_eq!(
            tree.ask(&CollectionRequest::Insert {
                collection_id,
                key: bytes.clone(),
                value: bytes,
            }),
            CollectionReply::Ack
        );
    }
    assert_eq!(
        tree.ask(&CollectionRequest::Count { collection_id }),
        CollectionReply::Count { total: 5 }
    );
    match tree.ask(&CollectionRequest::ScanForward {
        collection_id,
        limit: 2,
    }) {
        CollectionReply::Entries { entries } => {
            let keys: Vec<u32> = entries
                .iter()
                .map(|(k, _)| u32::from_be_bytes(k.clone().try_into().unwrap()))
                .collect();
            assert_eq!(keys, vec![4, 3]);
        }
        other => panic!("expected Entries, got {other:?}"),
    }
    match tree.ask(&CollectionRequest::ScanBackward {
        collection_id,
        limit: 1,
    }) {
        CollectionReply::Entries { entries } => {
            assert_eq!(entries[0].0, 0u32.to_be_bytes().to_vec())
        }
        other => panic!("expected Entries, got {other:?}"),
    }
    let key = 2u32.to_be_bytes().to_vec();
    assert_eq!(
        tree.ask(&CollectionRequest::RankOfKey {
            collection_id,
            key: key.clone()
        }),
        CollectionReply::Rank { rank: Some(2) }
    );
    assert_eq!(
        tree.ask(&CollectionRequest::Get {
            collection_id,
            key: key.clone()
        }),
        CollectionReply::Entry {
            value: Some(key.clone())
        }
    );
    assert_eq!(
        tree.ask(&CollectionRequest::Remove {
            collection_id,
            key: key.clone()
        }),
        CollectionReply::Ack
    );
    assert_eq!(
        tree.ask(&CollectionRequest::Get { collection_id, key }),
        CollectionReply::Entry { value: None }
    );
    assert_eq!(
        tree.ask(&CollectionRequest::Count { collection_id }),
        CollectionReply::Count { total: 4 }
    );
}

/// Collections on several nodes, each with a tree of its own.
struct Collections {
    cluster: ClusterState,
    trees: BTreeMap<u64, Tree>,
}

impl Collections {
    fn change(&mut self, mut write: CollectionWrite) -> Result<(), String> {
        while let Some(node) = write.ask() {
            let reply = self.trees.get_mut(&node.0).map(|t| t.ask(&write.request));
            write.answer(&mut self.cluster, &reply);
        }
        write.finish(&mut self.cluster)
    }

    fn look(&mut self, mut read: CollectionRead) -> Result<CollectionReply, String> {
        while let Some(node) = read.ask() {
            let reply = self.trees.get_mut(&node.0).map(|t| t.ask(&read.request));
            read.answer(&mut self.cluster, reply);
        }
        read.finish(&mut self.cluster)
    }

    fn store(&self) -> RemoteCollectionStore<'_> {
        RemoteCollectionStore::new(&self.cluster)
    }

    fn over(nodes: &[u64]) -> Collections {
        Collections {
            cluster: cluster_of(nodes),
            trees: nodes.iter().map(|n| (*n, Tree::default())).collect(),
        }
    }
}

#[test]
fn create_insert_and_get_round_trip_and_survive_one_replica_down() {
    let mut on = Collections::over(&[1, 2, 3]);
    let id = DatumId::new();
    let replicas = on.cluster.storage_ring.replicas(id, 2);
    assert_eq!(replicas.len(), 2);

    on.change(on.store().create(id, 4, 4, 2)).unwrap();
    on.change(on.store().insert(id, vec![1, 2, 3, 4], vec![5, 6, 7, 8], 2))
        .unwrap();
    let got = on.look(on.store().get(id, vec![1, 2, 3, 4], 2)).unwrap();
    assert_eq!(got.into_entry(), Ok(Some(vec![5, 6, 7, 8])));

    on.cluster.storage_alive.remove(&replicas[0].0);
    let got = on.look(on.store().get(id, vec![1, 2, 3, 4], 2)).unwrap();
    assert_eq!(got.into_entry(), Ok(Some(vec![5, 6, 7, 8])));
    on.change(on.store().insert(id, vec![9, 9, 9, 9], vec![1, 1, 1, 1], 2))
        .unwrap();
    let count = on.look(on.store().count(id, 2)).unwrap();
    assert_eq!(count.into_count(), Ok(2));
    assert!(!on.cluster.halt.is_halted());
}

#[test]
fn a_collection_is_looked_at_from_both_ends_and_from_the_middle() {
    let mut on = Collections::over(&[1, 2]);
    let id = DatumId::new();
    on.change(on.store().create(id, 1, 1, 2)).unwrap();
    for k in 1..6u8 {
        on.change(on.store().insert(id, vec![k], vec![k * 10], 2)).unwrap();
    }
    on.change(on.store().remove(id, vec![3], 2)).unwrap();
    assert_eq!(on.trees[&1].0, on.trees[&2].0);

    let entry = |k: u8| (vec![k], vec![k * 10]);
    let best = on.look(on.store().scan_forward(id, 2, 2)).unwrap();
    assert_eq!(best.into_entries(), Ok(vec![entry(5), entry(4)]));
    let worst = on.look(on.store().scan_backward(id, 2, 2)).unwrap();
    assert_eq!(worst.into_entries(), Ok(vec![entry(1), entry(2)]));
    let middle = on.look(on.store().scan_from_rank(id, 1, 2, 2)).unwrap();
    assert_eq!(middle.into_entries(), Ok(vec![entry(2), entry(4)]));
    let sample = on.look(on.store().sample(id, 1, 2)).unwrap();
    assert_eq!(sample.into_entries().map(|e| e.len()), Ok(1));
    let rank = on.look(on.store().rank_of_key(id, vec![4], 2)).unwrap();
    assert_eq!(rank.into_rank(), Ok(Some(2)));
    let rank = on.look(on.store().rank_of_key(id, vec![3], 2)).unwrap();
    assert_eq!(rank.into_rank(), Ok(None));
    let gone = on.look(on.store().get(id, vec![3], 2)).unwrap();
    assert_eq!(gone.into_entry(), Ok(None));
}

#[test]
fn an_answer_of_another_kind_is_handed_back() {
    let ack = || CollectionReply::Ack;
    assert_eq!(ack().into_entry(), Err(ack()));
    assert_eq!(ack().into_entries(), Err(ack()));
    assert_eq!(ack().into_rank(), Err(ack()));
    assert_eq!(ack().into_count(), Err(ack()));
}

#[test]
fn a_replica_that_is_gone_is_stale_and_the_last_one_halts_the_cluster() {
    let mut on = Collections::over(&[1, 2]);
    let id = DatumId::new();
    on.change(on.store().create(id, 1, 1, 2)).unwrap();
    on.trees.remove(&1);
    on.change(on.store().insert(id, vec![1], vec![2], 2)).unwrap();
    assert_eq!(on.cluster.storage_stale, BTreeSet::from([1]));
    on.trees.remove(&2);
    let lost = on.look(on.store().count(id, 2)).unwrap_err();
    assert!(lost.contains("total shard loss"), "{lost}");
    assert_eq!(on.cluster.storage_stale, BTreeSet::from([1, 2]));
    assert!(on.cluster.halt.is_halted());
}

#[test]
fn only_a_request_to_make_a_collection_makes_one() {
    let collection_id = DatumId::new();
    let count = CollectionRequest::Count { collection_id };
    assert_eq!(plan_open(&count, true, true), OpenPlan::Resident);
    assert_eq!(plan_open(&count, false, true), OpenPlan::Open);
    assert_eq!(
        plan_open(&count, false, false),
        OpenPlan::Missing(format!(
            "collection {} does not exist",
            id_debug(collection_id)
        ))
    );
    assert_eq!(count.collection_id(), collection_id);
    assert_eq!(
        collection_file_name(DatumId::from_bytes([0xabu8; 16])),
        "collection_abababababababababababababababab.btree"
    );
    assert_eq!(
        collection_reply(&count, TreeReply::Failed("disk".to_string())),
        CollectionReply::Error {
            message: "disk".to_string()
        }
    );
}

// ---- indexes ----

struct AppendKind;

struct AppendResident {
    bytes: Vec<u8>,
}

impl ResidentIndex for AppendResident {
    fn calls(&self) -> IndexCalls {
        unreachable!()
    }

    fn apply(&mut self, payload: &[u8]) -> IndexApplyOutcome {
        if payload == b"reject" {
            return IndexApplyOutcome {
                violation: Some("rejected".to_string()),
                write_through: None,
            };
        }
        self.bytes.extend_from_slice(payload);
        IndexApplyOutcome {
            violation: None,
            write_through: Some(self.bytes.clone()),
        }
    }

    fn query(&mut self, _query: &[u8]) -> Result<Vec<u8>, String> {
        Ok(self.bytes.clone())
    }

    fn execute(&mut self, _payload: &[u8]) -> Result<Vec<u8>, String> {
        Err("not for this kind".to_string())
    }
}

impl IndexKind for AppendKind {
    type Resident = AppendResident;

    fn can_open(&self, _opening: IndexOpening<AppendResident>) -> bool {
        unreachable!()
    }

    fn open(&self, _target: DatumId, stored: Option<Vec<u8>>) -> Result<AppendResident, String> {
        Ok(AppendResident {
            bytes: stored.unwrap_or_default(),
        })
    }
}

#[test]
fn get_returns_the_registered_kind() {
    let mut registry = IndexKindRegistry::new();
    registry.register("append", AppendKind);
    assert!(registry.get("append").is_ok());
}

#[test]
fn get_on_an_unregistered_kind_is_an_error() {
    let registry: IndexKindRegistry<AppendKind> = IndexKindRegistry::new();
    assert!(registry.get("nope").is_err());
}

#[test]
fn open_seeds_the_resident_structure_from_stored_bytes() {
    let mut registry = IndexKindRegistry::new();
    registry.register("append", AppendKind);
    let kind = registry.get("append").ok().unwrap();
    let mut resident = kind.open(DatumId::new(), Some(b"warm".to_vec())).ok().unwrap();
    let outcome = resident.apply(b"+more");
    assert!(outcome.violation.is_none());
    assert_eq!(outcome.write_through, Some(b"warm+more".to_vec()));
}

#[test]
fn a_resident_structure_accumulates_state_across_applies() {
    let mut registry = IndexKindRegistry::new();
    registry.register("append", AppendKind);
    let kind = registry.get("append").ok().unwrap();
    let mut resident = kind.open(DatumId::new(), None).ok().unwrap();
    resident.apply(b"a");
    let outcome = resident.apply(b"b");
    assert_eq!(outcome.write_through, Some(b"ab".to_vec()));
}

#[test]
fn apply_can_report_a_violation_without_a_write_through() {
    let mut registry = IndexKindRegistry::new();
    registry.register("append", AppendKind);
    let kind = registry.get("append").ok().unwrap();
    let mut resident = kind.open(DatumId::new(), None).ok().unwrap();
    let outcome = resident.apply(b"reject");
    assert_eq!(outcome.violation, Some("rejected".to_string()));
    assert!(outcome.write_through.is_none());
}

#[test]
fn an_index_is_opened_from_what_the_cache_has_and_stays_open() {
    let mut kinds = IndexKindRegistry::new();
    kinds.register("append", AppendKind);
    let mut cache = Cache::new(InMemoryStore::new());
    let target = DatumId::new();
    cache.put(target, b"warm".to_vec());
    let mut residents = Residents::new();
    assert!(residents.apply(target, b"x").is_none());
    assert_eq!(
        residents.query(&kinds, &mut cache, target, "append", b""),
        Ok(b"warm".to_vec())
    );
    cache.put(target, b"changed".to_vec());
    assert_eq!(
        residents
            .apply(target, b"+")
            .unwrap()
            .write_through,
        Some(b"warm+".to_vec())
    );
    assert_eq!(
        residents.execute(&kinds, &mut cache, target, "append", b""),
        Err("not for this kind".to_string())
    );
}

// ---- clients ----

/// Sends a request to nodes that send it on as the map says.
fn travel(book: &BTreeMap<String, Response>, from: &str) -> Result<Response, String> {
    let mut journey = Journey::new(from);
    loop {
        let address = journey.next()?;
        let response = match book.get(&address) {
            Some(Response::Redirect { address }) => Response::Redirect {
                address: address.clone(),
            },
            Some(_) => Response::Granted,
            None => return Err(format!("nobody at {address}")),
        };
        if let Some(answer) = journey.answered(response) {
            return Ok(answer);
        }
    }
}

fn on_to(address: &str) -> Response {
    Response::Redirect {
        address: address.to_string(),
    }
}

#[test]
fn returns_the_response_directly_when_there_is_no_redirect() {
    let book = BTreeMap::from([("a".to_string(), Response::Granted)]);
    assert_eq!(travel(&book, "a"), Ok(Response::Granted));
}

#[test]
fn follows_a_single_redirect() {
    let book = BTreeMap::from([
        ("a".to_string(), on_to("b")),
        ("b".to_string(), Response::Granted),
    ]);
    assert_eq!(travel(&book, "a"), Ok(Response::Granted));
}

#[test]
fn gives_up_after_max_redirects() {
    let book = BTreeMap::from([("a".to_string(), on_to("a"))]);
    assert_eq!(
        travel(&book, "a"),
        Err("gave up after 8 redirects, still pointed at a".to_string())
    );
    let mut chain = BTreeMap::new();
    for hop in 0..MAX_REDIRECTS {
        chain.insert(format!("{hop}"), on_to(&format!("{}", hop + 1)));
    }
    chain.insert(format!("{MAX_REDIRECTS}"), Response::Granted);
    assert_eq!(travel(&chain, "0"), Ok(Response::Granted));
    chain.insert("before".to_string(), on_to("0"));
    assert_eq!(
        travel(&chain, "before"),
        Err("gave up after 8 redirects, still pointed at 8".to_string())
    );
}
