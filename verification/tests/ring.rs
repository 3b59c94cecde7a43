//! Where data have their home.

use seisin::authority::{NodeId, ThreadId};
use seisin::datum::DatumId;
use seisin::jump_hash::{JumpBackHasher, GOLDEN_GAMMA};
use seisin::ring::Ring;

#[test]
fn trivial_cases_match_the_upstream_crate() {
    let mut h = JumpBackHasher::new();
    assert_eq!(h.hash(0, 0), 0);
    assert_eq!(h.hash(0, 1), 0);
    assert_eq!(h.hash(1, 1), 0);
    assert_eq!(h.hash(0, 2), 0);
    assert_eq!(h.hash(1, 2), 1);
}

#[test]
fn result_is_always_in_range() {
    let mut h = JumpBackHasher::new();
    for n in [2u32, 3, 4, 7, 16, 31, 32, 33, 1000] {
        for k in [0u64, 1, 2, 123456789, u64::MAX - 1, u64::MAX] {
            let r = h.hash(k, n);
            assert!(r < n, "k={k}, n={n}, r={r}");
        }
    }
}

#[test]
fn apply_join_adds_the_new_members_slots() {
    let mut ring = Ring::empty();
    ring.apply_join(NodeId(1), 2);
    for _ in 0..50 {
        let (node_id, thread_id) = ring.native(DatumId::new());
        assert_eq!(node_id, NodeId(1));
        assert!(thread_id.0 < 2);
    }
}

#[test]
fn from_members_matches_building_via_apply_join() {
    let via_constructor = Ring::from_members(&[(NodeId(1), 2), (NodeId(2), 3)]);
    let mut via_mutation = Ring::empty();
    via_mutation.apply_join(NodeId(1), 2);
    via_mutation.apply_join(NodeId(2), 3);

    let id = DatumId::new();
    assert_eq!(via_constructor.native(id), via_mutation.native(id));
}

#[test]
fn native_is_deterministic_for_the_same_ring() {
    let ring = Ring::from_members(&[(NodeId(1), 2), (NodeId(2), 3)]);
    let id = DatumId::new();
    assert_eq!(ring.native(id), ring.native(id));
}

#[test]
fn native_always_resolves_to_a_configured_member_slot() {
    let ring = Ring::from_members(&[(NodeId(1), 2), (NodeId(2), 3)]);
    for _ in 0..100 {
        let (node_id, thread_id) = ring.native(DatumId::new());
        let valid =
            (node_id == NodeId(1) && thread_id.0 < 2) || (node_id == NodeId(2) && thread_id.0 < 3);
        assert!(valid, "unexpected owner: {node_id:?} {thread_id:?}");
    }
}

#[test]
fn single_member_ring_always_resolves_to_that_member() {
    let ring = Ring::from_members(&[(NodeId(9), 1)]);
    assert_eq!(ring.native(DatumId::new()), (NodeId(9), ThreadId(0)));
}

#[test]
fn apply_leave_removes_a_single_slot_member() {
    let mut ring = Ring::from_members(&[(NodeId(1), 1), (NodeId(2), 1)]);
    ring.apply_leave(NodeId(1));
    for _ in 0..50 {
        let (node_id, _) = ring.native(DatumId::new());
        assert_eq!(node_id, NodeId(2));
    }
}

#[test]
fn apply_leave_removes_all_of_a_multi_slot_members_slots() {
    let mut ring = Ring::from_members(&[(NodeId(1), 2), (NodeId(2), 1)]);
    ring.apply_leave(NodeId(1));
    for _ in 0..50 {
        let (node_id, thread_id) = ring.native(DatumId::new());
        assert_eq!(node_id, NodeId(2));
        assert_eq!(thread_id, ThreadId(0));
    }
}

#[test]
fn apply_leave_only_removes_the_named_member() {
    let mut ring = Ring::from_members(&[(NodeId(1), 1), (NodeId(2), 1), (NodeId(3), 1)]);
    ring.apply_leave(NodeId(2));
    for _ in 0..50 {
        let (node_id, _) = ring.native(DatumId::new());
        assert!(
            node_id == NodeId(1) || node_id == NodeId(3),
            "unexpected owner: {node_id:?}"
        );
    }
}

#[test]
fn apply_leave_on_an_unknown_member_is_a_no_op() {
    let mut ring = Ring::from_members(&[(NodeId(1), 1)]);
    let id = DatumId::new();
    let before = ring.native(id);
    ring.apply_leave(NodeId(999));
    assert_eq!(ring.native(id), before);
}

#[test]
fn a_ring_is_empty_once_the_last_member_has_left() {
    let mut ring = Ring::from_members(&[(NodeId(1), 1)]);
    ring.apply_leave(NodeId(1));
    assert!(ring.is_empty());
    assert_eq!(ring.weights(), vec![]);
}

#[test]
fn contains_reports_ring_membership() {
    let ring = Ring::from_members(&[(NodeId(1), 2), (NodeId(2), 1)]);
    assert!(ring.contains(NodeId(1)));
    assert!(ring.contains(NodeId(2)));
    assert!(!ring.contains(NodeId(3)));
    assert!(!Ring::from_members(&[]).contains(NodeId(1)));
}

#[test]
fn weights_counts_slots_per_node_in_first_appearance_order() {
    let ring = Ring::from_members(&[(NodeId(5), 3), (NodeId(2), 1)]);
    assert_eq!(ring.weights(), vec![(NodeId(5), 3), (NodeId(2), 1)]);
    assert_eq!(ring.node_ids(), vec![NodeId(5), NodeId(2)]);
}

#[test]
fn replicas_rank0_is_native() {
    let ring = Ring::from_members(&[(NodeId(1), 2), (NodeId(2), 3), (NodeId(3), 1)]);
    for _ in 0..200 {
        let id = DatumId::new();
        assert_eq!(ring.replicas(id, 1), vec![ring.native(id).0]);
        assert_eq!(ring.replicas(id, 3)[0], ring.native(id).0);
    }
}

#[test]
fn replicas_returns_n_distinct_nodes() {
    let ring = Ring::from_members(&[
        (NodeId(1), 1),
        (NodeId(2), 1),
        (NodeId(3), 1),
        (NodeId(4), 1),
    ]);
    for _ in 0..200 {
        let r = ring.replicas(DatumId::new(), 3);
        assert_eq!(r.len(), 3);
        let mut sorted = r.clone();
        sorted.sort_by_key(|n| n.0);
        sorted.dedup();
        assert_eq!(sorted.len(), 3, "replicas not distinct: {r:?}");
    }
}

#[test]
fn replicas_caps_at_node_count() {
    let ring = Ring::from_members(&[(NodeId(1), 2), (NodeId(2), 2)]);
    for _ in 0..200 {
        let r = ring.replicas(DatumId::new(), 5); // asked for more than 2 nodes
        assert_eq!(r.len(), 2);
        assert_ne!(r[0], r[1]);
    }
    // Empty ring / n=0 degrade gracefully.
    assert!(Ring::from_members(&[])
        .replicas(DatumId::new(), 3)
        .is_empty());
    assert!(ring.replicas(DatumId::new(), 0).is_empty());
}

#[test]
fn replicas_is_deterministic() {
    let ring = Ring::from_members(&[(NodeId(1), 2), (NodeId(2), 3), (NodeId(3), 2)]);
    let id = DatumId::new();
    assert_eq!(ring.replicas(id, 3), ring.replicas(id, 3));
}

#[test]
fn replicas_rank0_is_weight_biased() {
    // Node 2 is much heavier -> it is rank-0 (primary) for more ids.
    let ring = Ring::from_members(&[(NodeId(1), 1), (NodeId(2), 5)]);
    let mut heavy_primary = 0;
    for _ in 0..400 {
        if ring.replicas(DatumId::new(), 2)[0] == NodeId(2) {
            heavy_primary += 1;
        }
    }
    assert!(
        heavy_primary > 200,
        "weight ignored at rank 0: {heavy_primary}/400"
    );
}

#[test]
fn weights_round_trip_reproduces_placement() {
    let ring = Ring::from_members(&[(NodeId(5), 3), (NodeId(2), 1), (NodeId(9), 2)]);
    let rebuilt = Ring::from_members(&ring.weights());
    for _ in 0..100 {
        let id = DatumId::new();
        assert_eq!(ring.native(id), rebuilt.native(id));
    }
}

#[test]
fn another_bucket_takes_over_keys_and_gives_none_away() {
    let mut h = JumpBackHasher::new();
    let mut moved = 0;
    for k in 0..500u64 {
        let key = k.wrapping_mul(GOLDEN_GAMMA);
        for n in 1..20u32 {
            let before = h.hash(key, n);
            let after = h.hash(key, n + 1);
            assert!(after == before || after == n, "k={key}, n={n}");
            if after != before {
                moved += 1;
            }
        }
    }
    assert!(moved > 0);
}

#[test]
fn buckets_are_known_for_some_keys() {
    let mut h = JumpBackHasher::new();
    assert_eq!(h.hash(2, 2), 0);
    assert_eq!(h.hash(3, 2), 1);
    let fresh: Vec<u32> = (0..8u64).map(|k| JumpBackHasher::new().hash(k, 7)).collect();
    let reused: Vec<u32> = (0..8u64).map(|k| h.hash(k, 7)).collect();
    assert_eq!(fresh, reused);
}

#[test]
fn a_newcomer_takes_over_keys_and_the_others_keep_theirs() {
    let ring = Ring::from_members(&[(NodeId(1), 2), (NodeId(2), 3)]);
    let mut larger = Ring::from_members(&[(NodeId(1), 2), (NodeId(2), 3)]);
    larger.apply_join(NodeId(3), 2);
    let mut moved = 0;
    for _ in 0..300 {
        let id = DatumId::new();
        let (node, thread) = larger.native(id);
        if (node, thread) != ring.native(id) {
            assert_eq!(node, NodeId(3));
            assert!(thread.0 < 2);
            moved += 1;
        }
    }
    assert!(moved > 0 && moved < 300);
}

#[test]
fn a_ring_after_a_departure_is_not_always_rebuilt_from_its_weights() {
    let mut ring = Ring::from_members(&[(NodeId(1), 1), (NodeId(2), 2), (NodeId(3), 2)]);
    ring.apply_leave(NodeId(1));
    let rebuilt = Ring::from_members(&ring.weights());
    assert_eq!(rebuilt.weights(), ring.weights());
    let moved = (0..300)
        .map(|_| DatumId::new())
        .filter(|id| rebuilt.native(*id) != ring.native(*id))
        .count();
    assert!(moved > 0);
}

#[test]
fn fewer_replicas_are_the_first_of_more() {
    let ring = Ring::from_members(&[(NodeId(1), 2), (NodeId(2), 1), (NodeId(3), 3)]);
    for _ in 0..50 {
        let id = DatumId::new();
        let all = ring.replicas(id, 5);
        assert_eq!(all.len(), 3);
        for k in 0..=5 {
            assert_eq!(ring.replicas(id, k), all[..k.min(3)]);
        }
    }
}

#[test]
fn the_weights_count_every_slot() {
    let mut ring = Ring::from_members(&[(NodeId(1), 2), (NodeId(2), 5), (NodeId(3), 1)]);
    let total = |ring: &Ring| ring.weights().iter().map(|w| w.1).sum::<u32>();
    assert_eq!(total(&ring), 8);
    ring.apply_leave(NodeId(1));
    assert_eq!(total(&ring), 6);
    ring.apply_join(NodeId(4), 3);
    assert_eq!(total(&ring), 9);
}
