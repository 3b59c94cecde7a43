//! Ids, authority, stores, caches and what ops work on.

use seisin::authority::{AuthorityIdx, NodeId, ThreadId, ENCODED_LEN};
use seisin::cache::Cache;
use seisin::context::{Expectation, FkMissingPolicy, OpContext};
use seisin::datum::DatumId;
use seisin::registry::{outcome, OpHandler, OpRegistry, OpRun};
use seisin::ring::Ring;
use seisin::sk::{decode_sk_entries, encode_sk_entries};
use seisin::store::{InMemoryStore, Store, StoreCalls};
use seisin::wire_error::{Tag, WireError};

const VECTORS: &[(AuthorityIdx, [u8; ENCODED_LEN])] = &[
    (
        AuthorityIdx::Native,
        [0, 0, 0, 0, 0, 0, 0, 0, 0, 0, 0, 0, 0],
    ),
    (
        AuthorityIdx::Foreign {
            node_id: NodeId(1),
            thread_id: ThreadId(2),
        },
        [1, 1, 0, 0, 0, 0, 0, 0, 0, 2, 0, 0, 0],
    ),
];

#[test]
fn encodes_known_vectors() {
    for (value, expected_bytes) in VECTORS {
        assert_eq!(&value.encode(), expected_bytes);
    }
}

#[test]
fn decodes_known_vectors() {
    for (expected_value, bytes) in VECTORS {
        assert_eq!(AuthorityIdx::decode(*bytes).unwrap(), *expected_value);
    }
}

#[test]
fn rejects_invalid_tag() {
    let mut bytes = [0u8; ENCODED_LEN];
    bytes[0] = 2;
    assert!(AuthorityIdx::decode(bytes).is_err());
}

#[test]
fn round_trips_through_bytes() {
    let id = DatumId::new();
    let restored = DatumId::from_bytes(id.as_bytes());
    assert_eq!(id, restored);
}

#[test]
fn new_ids_are_distinct() {
    assert_ne!(DatumId::new(), DatumId::new());
}

#[test]
fn ordering_matches_creation_order() {
    let first = DatumId::new();
    let second = DatumId::new();
    assert!(
        first < second,
        "a later-created UUIDv7 id must sort greater"
    );
}

#[test]
fn from_name_is_deterministic() {
    let ns = DatumId::new();
    let a = DatumId::from_name(&ns, b"sk:user.name:cliff");
    let b = DatumId::from_name(&ns, b"sk:user.name:cliff");
    assert_eq!(a, b);
}

#[test]
fn from_name_differs_for_different_names() {
    let ns = DatumId::new();
    let a = DatumId::from_name(&ns, b"sk:user.name:cliff");
    let b = DatumId::from_name(&ns, b"sk:user.name:someone_else");
    assert_ne!(a, b);
}

#[test]
fn from_name_differs_across_namespaces() {
    let a = DatumId::from_name(&DatumId::new(), b"same name");
    let b = DatumId::from_name(&DatumId::new(), b"same name");
    assert_ne!(a, b);
}

#[test]
fn round_trips_empty_list() {
    let encoded = encode_sk_entries(&[]);
    assert_eq!(decode_sk_entries(&encoded).unwrap(), vec![]);
}

#[test]
fn round_trips_multiple_entries() {
    let entries = vec![
        (DatumId::new(), AuthorityIdx::Native),
        (
            DatumId::new(),
            AuthorityIdx::Foreign {
                node_id: NodeId(7),
                thread_id: ThreadId(3),
            },
        ),
    ];
    let encoded = encode_sk_entries(&entries);
    assert_eq!(decode_sk_entries(&encoded).unwrap(), entries);
}

#[test]
fn rejects_truncated_input() {
    let entries = vec![(DatumId::new(), AuthorityIdx::Native)];
    let mut encoded = encode_sk_entries(&entries);
    encoded.truncate(encoded.len() - 1);
    assert!(decode_sk_entries(&encoded).is_err());
}

#[test]
fn put_then_get_returns_content() {
    let mut store = InMemoryStore::new();
    let id = DatumId::new();
    store.put(id, b"hello".to_vec());
    assert_eq!(store.get(id), Some(b"hello".to_vec()));
}

#[test]
fn get_on_missing_id_returns_none() {
    let mut store = InMemoryStore::new();
    assert_eq!(store.get(DatumId::new()), None);
}

#[test]
fn delete_removes_content() {
    let mut store = InMemoryStore::new();
    let id = DatumId::new();
    store.put(id, b"hello".to_vec());
    store.delete(id);
    assert_eq!(store.get(id), None);
}

#[test]
fn delete_on_missing_id_is_a_no_op() {
    let mut store = InMemoryStore::new();
    store.delete(DatumId::new());
}

#[test]
fn in_memory_store_ignores_the_replication_factor() {
    let mut store = InMemoryStore::new();
    let id = DatumId::new();
    store.put_replicated(id, b"v".to_vec(), 3);
    // Readable at any factor — in-memory keeps one copy regardless.
    assert_eq!(store.get_replicated(id, 1), Some(b"v".to_vec()));
    assert_eq!(store.get(id), Some(b"v".to_vec()));
}

#[test]
fn get_on_empty_cache_and_store_returns_none() {
    let mut cache = Cache::new(InMemoryStore::new());
    assert_eq!(cache.get(DatumId::new()), None);
}

#[test]
fn put_is_readable_directly_from_the_store() {
    let mut cache = Cache::new(InMemoryStore::new());
    let id = DatumId::new();
    cache.put(id, b"hello".to_vec());
    assert_eq!(cache.store().get(id), Some(b"hello".to_vec()));
}

#[test]
fn get_after_put_returns_the_written_content() {
    let mut cache = Cache::new(InMemoryStore::new());
    let id = DatumId::new();
    cache.put(id, b"hello".to_vec());
    assert_eq!(cache.get(id), Some(b"hello".to_vec()));
}

#[test]
fn invalidate_forces_a_reload_from_the_store() {
    let mut cache = Cache::new(InMemoryStore::new());
    let id = DatumId::new();
    cache.put(id, b"original".to_vec());

    // Mutate storage directly, bypassing the cache, to simulate another
    // node having written through while this thread held a now-stale
    // cache entry.
    cache.store().put(id, b"updated".to_vec());
    cache.invalidate(id);

    assert_eq!(cache.get(id), Some(b"updated".to_vec()));
}

#[test]
fn delete_removes_from_both_cache_and_store() {
    let mut cache = Cache::new(InMemoryStore::new());
    let id = DatumId::new();
    cache.put(id, b"hello".to_vec());
    cache.delete(id);
    assert_eq!(cache.get(id), None);
    assert_eq!(cache.store().get(id), None);
}

#[test]
fn evict_non_native_removes_entries_the_predicate_rejects() {
    let mut cache = Cache::new(InMemoryStore::new());
    let kept = DatumId::new();
    let evicted = DatumId::new();
    cache.put(kept, b"kept".to_vec());
    cache.put(evicted, b"evicted".to_vec());

    cache.evict_non_native(|id| id == kept);

    // The evicted entry must reload from the store rather than serve a
    // stale cached value: mutate storage directly, then confirm get
    // picks up the new value.
    cache.store().put(evicted, b"updated".to_vec());
    assert_eq!(cache.get(evicted), Some(b"updated".to_vec()));

    // The kept entry is unaffected.
    assert_eq!(cache.get(kept), Some(b"kept".to_vec()));
}

#[test]
fn copies_of_data_at_home_elsewhere_are_dropped() {
    let ring = Ring::from_members(&[(NodeId(1), 2), (NodeId(2), 2)]);
    let mut cache = Cache::new(InMemoryStore::new());
    let ids: Vec<DatumId> = (0..40).map(|_| DatumId::new()).collect();
    for id in &ids {
        cache.put(*id, b"old".to_vec());
    }
    cache.evict_foreign(&ring, NodeId(1));
    let mut kept = 0;
    for id in &ids {
        cache.store().put(*id, b"new".to_vec());
        let expected: &[u8] = if ring.native(*id).0 == NodeId(1) {
            kept += 1;
            b"old"
        } else {
            b"new"
        };
        assert_eq!(cache.get(*id), Some(expected.to_vec()));
    }
    assert!(kept > 0 && kept < ids.len());
}

#[test]
fn put_then_get_round_trips_through_the_context() {
    let mut cache = Cache::new(InMemoryStore::new());
    let mut ctx = OpContext::new(&mut cache);
    let id = DatumId::new();
    ctx.put(id, b"hello".to_vec());
    assert_eq!(ctx.get(id), Some(b"hello".to_vec()));
}

#[test]
fn delete_removes_the_entry() {
    let mut cache = Cache::new(InMemoryStore::new());
    let mut ctx = OpContext::new(&mut cache);
    let id = DatumId::new();
    ctx.put(id, b"hello".to_vec());
    ctx.delete(id);
    assert_eq!(ctx.get(id), None);
}

#[test]
fn get_on_unknown_datum_returns_none() {
    let mut cache = Cache::new(InMemoryStore::new());
    let mut ctx = OpContext::new(&mut cache);
    assert_eq!(ctx.get(DatumId::new()), None);
}

#[test]
fn a_staged_write_is_not_visible_on_the_underlying_cache_until_taken_and_committed() {
    let mut cache = Cache::new(InMemoryStore::new());
    let id = DatumId::new();
    {
        let mut ctx = OpContext::new(&mut cache);
        ctx.put(id, b"staged".to_vec());
        assert_eq!(ctx.get(id), Some(b"staged".to_vec())); // read-your-own-write
    }
    assert_eq!(cache.get(id), None); // never committed
}

#[test]
fn take_staged_writes_returns_every_put_and_delete() {
    let mut cache = Cache::new(InMemoryStore::new());
    let mut ctx = OpContext::new(&mut cache);
    let put_id = DatumId::new();
    let delete_id = DatumId::new();
    ctx.put(put_id, b"hello".to_vec());
    ctx.delete(delete_id);
    let mut writes = ctx.take_staged_writes();
    writes.sort_by_key(|(id, _, _)| *id);
    let mut expected = vec![
        (put_id, Some(b"hello".to_vec()), 1u16),
        (delete_id, None, 1u16),
    ];
    expected.sort_by_key(|(id, _, _)| *id);
    assert_eq!(writes, expected);
}

#[test]
fn staged_writes_carry_the_replication_factor() {
    let mut cache = Cache::new(InMemoryStore::new());
    let mut ctx = OpContext::new(&mut cache);
    let id = DatumId::new();
    ctx.put_replicated(id, b"hi".to_vec(), 3);
    assert_eq!(ctx.get_replicated(id, 3), Some(b"hi".to_vec())); // read-your-own-write
    let writes = ctx.take_staged_writes();
    assert_eq!(writes, vec![(id, Some(b"hi".to_vec()), 3u16)]);
}

#[test]
fn take_staged_writes_drains_so_a_second_call_is_empty() {
    let mut cache = Cache::new(InMemoryStore::new());
    let mut ctx = OpContext::new(&mut cache);
    ctx.put(DatumId::new(), b"x".to_vec());
    assert_eq!(ctx.take_staged_writes().len(), 1);
    assert_eq!(ctx.take_staged_writes().len(), 0);
}

#[test]
fn schedule_index_update_is_collected_by_take_pending_index_updates() {
    let mut cache = Cache::new(InMemoryStore::new());
    let mut ctx = OpContext::new(&mut cache);
    let target = DatumId::new();
    ctx.schedule_index_update(target, "sk".to_string(), vec![9, 9]);
    let updates = ctx.take_pending_index_updates();
    assert_eq!(updates.len(), 1);
    assert_eq!(updates[0].target, target);
    assert_eq!(updates[0].index_kind, "sk");
    assert_eq!(updates[0].payload, vec![9, 9]);
    assert_eq!(ctx.take_pending_index_updates().len(), 0);
}

/// Ops of these tests.
enum TestOp {
    Echo,
    ComesToGrief,
    PutFirst,
}

impl<S: Store> OpHandler<S> for TestOp {
    fn can_run(&self, _run: OpRun) -> bool {
        unreachable!()
    }

    fn run(
        &self,
        ctx: &mut OpContext<'_, S>,
        datum_ids: &Vec<DatumId>,
        payload: &Vec<u8>,
    ) -> Option<Vec<u8>> {
        match self {
            TestOp::Echo => Some(payload.clone()),
            TestOp::ComesToGrief => None,
            TestOp::PutFirst => {
                ctx.put(datum_ids[0], payload.clone());
                Some(payload.clone())
            }
        }
    }
}

#[test]
fn invokes_a_registered_op() {
    let mut registry = OpRegistry::new();
    registry.register("echo", TestOp::Echo);
    let mut cache = Cache::new(InMemoryStore::new());
    let mut ctx = OpContext::new(&mut cache);
    assert_eq!(
        registry
            .invoke("echo", &mut ctx, &vec![], &b"hello".to_vec())
            .unwrap(),
        b"hello"
    );
}

#[test]
fn unknown_op_name_returns_an_error() {
    let registry: OpRegistry<TestOp> = OpRegistry::new();
    let mut cache = Cache::new(InMemoryStore::new());
    let mut ctx = OpContext::new(&mut cache);
    assert_eq!(
        registry.invoke("nope", &mut ctx, &vec![], &vec![]),
        Err("unknown op: nope".to_string())
    );
}

#[test]
fn a_panicking_op_is_caught_and_reported_as_an_error() {
    let mut registry = OpRegistry::new();
    registry.register("boom", TestOp::ComesToGrief);
    let mut cache = Cache::new(InMemoryStore::new());
    let mut ctx = OpContext::new(&mut cache);
    assert_eq!(
        registry.invoke("boom", &mut ctx, &vec![], &vec![]),
        Err("op 'boom' panicked".to_string())
    );
}

#[test]
fn an_op_can_read_and_write_through_the_context_using_its_datum_ids() {
    let mut registry = OpRegistry::new();
    registry.register("put_first", TestOp::PutFirst);
    let mut cache = Cache::new(InMemoryStore::new());
    let mut ctx = OpContext::new(&mut cache);
    let id = DatumId::new();
    registry
        .invoke("put_first", &mut ctx, &vec![id], &b"hi".to_vec())
        .unwrap();
    assert_eq!(ctx.get(id), Some(b"hi".to_vec()));
}

#[test]
fn the_last_op_of_a_name_is_the_one_that_runs() {
    let mut registry = OpRegistry::new();
    registry.register("op", TestOp::ComesToGrief);
    registry.register("other", TestOp::ComesToGrief);
    registry.register("op", TestOp::Echo);
    let mut cache = Cache::new(InMemoryStore::new());
    let mut ctx = OpContext::new(&mut cache);
    assert_eq!(
        registry.invoke("op", &mut ctx, &vec![], &vec![1, 2]),
        Ok(vec![1, 2])
    );
}

#[test]
fn the_outcome_of_a_run_is_its_result_or_a_complaint() {
    assert_eq!(outcome("op", Some(vec![1])), Ok(vec![1]));
    assert_eq!(outcome("op", None), Err("op 'op' panicked".to_string()));
}

#[test]
fn a_name_gives_the_id_of_version_five() {
    // The namespace for domain names, and a name whose id is well known.
    let dns = DatumId::from_bytes([
        0x6b, 0xa7, 0xb8, 0x10, 0x9d, 0xad, 0x11, 0xd1, 0x80, 0xb4, 0x00, 0xc0, 0x4f, 0xd4, 0x30,
        0xc8,
    ]);
    assert_eq!(
        DatumId::from_name(&dns, b"www.example.com").as_bytes(),
        [
            0x2e, 0xd6, 0x65, 0x7d, 0xe9, 0x27, 0x56, 0x8b, 0x95, 0xe1, 0x26, 0x65, 0xa8, 0xae,
            0xa6, 0xa2
        ]
    );
}

#[test]
fn new_ids_are_of_version_seven() {
    for _ in 0..20 {
        let bytes = DatumId::new().as_bytes();
        assert_eq!(bytes[6] >> 4, 7);
        assert_eq!(bytes[8] >> 6, 2);
    }
}

#[test]
fn ids_are_ordered_as_their_bytes_are() {
    let mut low = [0u8; 16];
    let mut high = [0u8; 16];
    low[15] = 9;
    high[3] = 1;
    let a = DatumId::from_bytes(low);
    let b = DatumId::from_bytes(high);
    assert!(a < b);
    assert_eq!(a.as_rank(), 9);
    assert_eq!(b.as_rank(), 1u128 << 96);
    assert_eq!(DatumId::from_rank(b.as_rank()), b);
}

#[test]
fn a_bad_tag_of_an_authority_is_named() {
    let mut bytes = [0u8; ENCODED_LEN];
    bytes[0] = 7;
    assert_eq!(
        AuthorityIdx::decode(bytes),
        Err(WireError::UnknownTag {
            what: Tag::Authority,
            tag: 7
        })
    );
}

#[test]
fn a_store_takes_a_write_whose_previous_content_is_known() {
    let mut store = InMemoryStore::new();
    let id = DatumId::new();
    store.put_with_previous(id, b"new".to_vec(), Some(b"old"));
    assert_eq!(store.get(id), Some(b"new".to_vec()));
    store.put_with_previous_replicated(id, b"newer".to_vec(), None, 2);
    assert_eq!(store.get_replicated(id, 2), Some(b"newer".to_vec()));
    store.delete_replicated(id, 2);
    assert_eq!(store.get(id), None);
}

#[test]
fn a_cache_answers_from_its_copy() {
    let mut cache = Cache::new(InMemoryStore::new());
    let id = DatumId::new();
    cache.put_replicated(id, b"copy".to_vec(), 3);
    cache.store().put(id, b"changed behind its back".to_vec());
    assert_eq!(cache.get_replicated(id, 3), Some(b"copy".to_vec()));
    cache.delete_replicated(id, 3);
    assert_eq!(cache.get(id), None);
}

#[test]
fn existence_checks_are_collected_in_order() {
    let mut cache = Cache::new(InMemoryStore::new());
    let mut ctx = OpContext::new(&mut cache);
    let a = DatumId::new();
    let b = DatumId::new();
    ctx.schedule_exists_check(a, Expectation::Present { on_missing: FkMissingPolicy::Reject });
    ctx.schedule_exists_check(b, Expectation::Absent { message: "taken".to_string() });
    let checks = ctx.take_pending_exists_checks();
    assert_eq!(checks.len(), 2);
    assert_eq!(checks[0].target, a);
    assert_eq!(checks[1].target, b);
    assert_eq!(ctx.take_pending_exists_checks().len(), 0);
}

/// A store that keeps what it was told that its data were.
struct Remembering(Vec<Option<Vec<u8>>>);

impl Store for Remembering {
    fn calls(&self) -> StoreCalls {
        unreachable!()
    }

    fn get_replicated(&mut self, _id: DatumId, _n: u16) -> Option<Vec<u8>> {
        None
    }

    fn put_replicated(&mut self, _id: DatumId, _content: Vec<u8>, _n: u16) {
        self.0.push(None);
    }

    fn put_with_previous_replicated(
        &mut self,
        _id: DatumId,
        _content: Vec<u8>,
        previous: Option<&[u8]>,
        _n: u16,
    ) {
        self.0.push(previous.map(<[u8]>::to_vec));
    }

    fn delete_replicated(&mut self, _id: DatumId, _n: u16) {}
}

#[test]
fn a_cache_tells_the_store_what_a_datum_was() {
    let mut cache = Cache::new(Remembering(Vec::new()));
    let id = DatumId::new();
    cache.put(id, b"one".to_vec());
    cache.put(id, b"two".to_vec());
    cache.invalidate(id);
    cache.put(id, b"three".to_vec());
    assert_eq!(
        cache.store().0,
        vec![None, Some(b"one".to_vec()), None]
    );
}

#[test]
fn what_is_wrong_with_a_list_of_entries_is_told() {
    let told = |bytes: &[u8]| decode_sk_entries(bytes).unwrap_err().message();
    assert_eq!(told(&[1]), "sk entry list truncated: missing count prefix");
    assert_eq!(
        told(&[2, 0, 0, 0, 9]),
        "sk entry list length mismatch: expected 62 bytes for 2 entries, got 5"
    );
    let mut bytes = encode_sk_entries(&[(DatumId::new(), AuthorityIdx::Native)]);
    bytes[20] = 8;
    assert_eq!(told(&bytes), "invalid authority_idx tag byte: 8");
}

#[test]
fn a_cache_without_copies_needs_no_ring_to_drop_them() {
    let mut cache = Cache::new(InMemoryStore::new());
    assert!(cache.is_empty());
    cache.evict_foreign(&Ring::from_members(&[]), NodeId(1));
    cache.put(DatumId::new(), vec![1]);
    assert!(!cache.is_empty());
}
