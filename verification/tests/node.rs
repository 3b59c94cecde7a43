//! A node's state: locks, halts, gossip, the server's decisions and the calls
//! between nodes.

use std::collections::{BTreeMap, BTreeSet};

use seisin::authority::{NodeId, ThreadId};
use seisin::clock::Tick;
use seisin::collation::{AcquireOutcome, Holder, NativeLock, ReplyTo};
use seisin::config::{seed_member_table, ConfigError, MemberConfig, NodeConfig, NodePlan};
use seisin::datum::DatumId;
use seisin::failure_detector::TimeoutAction;
use seisin::gossip_loop::{
    answer_gossip, mint_leave_if_sequencer, self_refute_if_falsely_suspected, GossipLoop,
};
use seisin::gossip_state::{
    apply_ready_mutations, reconcile_identity_book, Applied, ClusterState, GossipState,
    MemberFact, MemberProfile, MemberRole, RECENT_MUTATIONS_CAP,
};
use seisin::halt::HaltState;
use seisin::heartbeat::{stale, Heartbeat};
use seisin::lb::{
    encode_lb_query_req, encode_lb_result, LbEntry, LbFriendRank, LbQueryReq, LbResult,
};
use seisin::membership::{Incarnation, MemberStatus, MemberUpdate};
use seisin::message::{AfterCall, WorkerMessage};
use seisin::peer_link::{dials, disconnected, dispatch, peer_of, preamble, Incoming, PeerCalls};
use seisin::request::{encode_request, Request};
use seisin::response::Response;
use seisin::response_text::show_response;
use seisin::ring::Ring;
use seisin::rk::{encode_rk_entries, encode_rk_query_kind, RkQueryKind};
use seisin::sequencer::RingMutation;
use seisin::server::{
    administer, answer, decoded, existence_reply, get_cluster_config, install_storage_ring,
    is_admin, needs_ring, op_answer, pick_destination_thread, redirect_if_foreign, route,
    AdminReply, AdminRequest, Answer, AnswerKind, ClientReply, ClientRequest, FkPendingOp,
    IndexedRequest, Route, StorageMember, TypedKind,
};

const HERE: ReplyTo = ReplyTo::Thread(ThreadId(0));

// ---- locks ----

#[test]
fn first_request_on_an_idle_lock_is_granted_immediately() {
    let mut lock = NativeLock::new();
    let op_id = DatumId::new();
    let outcome = lock.request(op_id, NodeId(1), ThreadId(0), HERE);
    assert_eq!(outcome, AcquireOutcome::GrantedImmediately);
    assert_eq!(
        lock.current_holder(),
        Some(Holder {
            node_id: NodeId(1),
            thread_id: ThreadId(0),
            op_id
        })
    );
}

#[test]
fn a_younger_request_against_a_held_lock_is_queued_without_firing() {
    let mut lock = NativeLock::new();
    let older = DatumId::new();
    lock.request(older, NodeId(1), ThreadId(0), HERE);
    let younger = DatumId::new();
    let outcome = lock.request(younger, NodeId(1), ThreadId(1), HERE);
    assert_eq!(outcome, AcquireOutcome::Queued);
    assert_eq!(lock.current_holder().unwrap().op_id, older);
}

#[test]
fn an_older_request_against_a_held_lock_needs_a_recall() {
    let mut lock = NativeLock::new();
    let a = DatumId::new();
    let b = DatumId::new();
    let (older, younger) = if a < b { (a, b) } else { (b, a) };
    lock.request(younger, NodeId(1), ThreadId(0), HERE);
    let outcome = lock.request(older, NodeId(2), ThreadId(3), HERE);
    match outcome {
        AcquireOutcome::RecallNeeded(holder) => assert_eq!(holder.op_id, younger),
        other => panic!("expected RecallNeeded, got {other:?}"),
    }
}

#[test]
fn release_grants_to_the_oldest_queued_waiter_even_if_it_arrived_second() {
    let mut lock = NativeLock::new();
    let holder_id = DatumId::new();
    lock.request(holder_id, NodeId(1), ThreadId(0), HERE);

    let a = DatumId::new();
    let b = DatumId::new();
    let (first_waiter, second_waiter) = if a < b { (a, b) } else { (b, a) };
    lock.request(second_waiter, NodeId(1), ThreadId(1), HERE);
    lock.request(first_waiter, NodeId(1), ThreadId(2), HERE);

    let granted = lock.release().unwrap();
    assert_eq!(granted.op_id, first_waiter);
    assert_eq!(
        lock.current_holder(),
        Some(Holder {
            node_id: NodeId(1),
            thread_id: ThreadId(2),
            op_id: first_waiter
        })
    );
    assert_eq!(lock.release().unwrap().op_id, second_waiter);
}

#[test]
fn release_on_an_idle_lock_is_a_no_op() {
    let mut lock = NativeLock::new();
    assert!(lock.release().is_none());
    assert_eq!(lock.current_holder(), None);
}

#[test]
fn handle_node_death_releases_the_current_holder_from_that_node() {
    let mut lock = NativeLock::new();
    let holder_op = DatumId::new();
    lock.request(holder_op, NodeId(1), ThreadId(0), HERE);
    assert!(lock.current_holder().is_some());

    lock.handle_node_death(NodeId(1));
    assert_eq!(lock.current_holder(), None);
}

#[test]
fn handle_node_death_grants_to_a_surviving_waiter() {
    let mut lock = NativeLock::new();
    let holder_op = DatumId::new();
    lock.request(holder_op, NodeId(1), ThreadId(0), HERE);
    let waiter_op = DatumId::new();
    lock.request(waiter_op, NodeId(2), ThreadId(0), HERE);

    let granted = lock.handle_node_death(NodeId(1));
    assert_eq!(granted.unwrap().op_id, waiter_op);
    assert_eq!(
        lock.current_holder(),
        Some(Holder {
            node_id: NodeId(2),
            thread_id: ThreadId(0),
            op_id: waiter_op
        })
    );
}

#[test]
fn handle_node_death_prunes_that_nodes_own_queued_waiters() {
    let mut lock = NativeLock::new();
    let holder_op = DatumId::new();
    lock.request(holder_op, NodeId(1), ThreadId(0), HERE);
    let dead_waiter_op = DatumId::new();
    lock.request(dead_waiter_op, NodeId(2), ThreadId(0), HERE);
    let alive_waiter_op = DatumId::new();
    lock.request(alive_waiter_op, NodeId(3), ThreadId(0), HERE);

    assert!(lock.handle_node_death(NodeId(2)).is_none());
    assert_eq!(lock.current_holder().unwrap().op_id, holder_op);

    let granted = lock.handle_node_death(NodeId(1));
    assert_eq!(granted.unwrap().op_id, alive_waiter_op);
}

// ---- halts ----

#[test]
fn a_lock_is_never_granted_twice_without_a_return() {
    let mut lock = NativeLock::new();
    let ops: Vec<DatumId> = (1..6).map(DatumId::from_rank).collect();
    let mut granted = 0;
    let mut returned = 0;
    let mut dice = 1u64;
    for _ in 0..1000 {
        dice = dice.wrapping_mul(6364136223846793005).wrapping_add(1442695040888963407);
        let pick = (dice >> 33) as usize;
        let held = lock.current_holder();
        match pick % 3 {
            0 => {
                let op = ops[pick / 3 % ops.len()];
                let node = NodeId((pick / 15 % 3) as u64);
                if lock.request(op, node, ThreadId(0), HERE) == AcquireOutcome::GrantedImmediately
                {
                    granted += 1;
                }
            }
            1 => {
                returned += held.is_some() as u32;
                granted += lock.release().is_some() as u32;
            }
            _ => {
                let node = NodeId((pick / 3 % 3) as u64);
                returned += held.is_some_and(|h| h.node_id == node) as u32;
                granted += lock.handle_node_death(node).is_some() as u32;
            }
        }
        assert_eq!(granted, returned + lock.current_holder().is_some() as u32);
    }
}

#[test]
fn halt_engages_once_and_keeps_the_first_reason() {
    let mut halt = HaltState::new();
    assert!(!halt.is_halted());
    halt.halt("first loss".to_string());
    halt.halt("second loss".to_string());
    assert!(halt.is_halted());
    assert_eq!(halt.reason(), Some("first loss".to_string()));
}

#[test]
fn pause_then_resume_round_trips() {
    let mut halt = HaltState::new();
    assert_eq!(halt.gate(), None);
    halt.pause("migrating".to_string());
    assert!(halt.is_paused());
    let gate = halt.gate().unwrap();
    assert!(gate.contains("cluster paused"), "{gate}");
    assert!(gate.contains("migrating"), "{gate}");
    halt.resume();
    assert!(!halt.is_paused());
    assert_eq!(halt.gate(), None);
}

#[test]
fn halt_beats_pause_in_the_gate_and_resume_does_not_clear_a_halt() {
    let mut halt = HaltState::new();
    halt.pause("migrating".to_string());
    halt.halt("storage node 9 confirmed dead".to_string());
    let gate = halt.gate().unwrap();
    assert!(gate.contains("storage node 9"), "{gate}");
    halt.resume();
    assert!(halt.is_halted());
    assert!(halt.gate().unwrap().contains("storage node 9"));
}

#[test]
fn the_message_says_whether_the_cluster_is_halted_or_paused() {
    for (reason, message) in [
        ("storage node 9 lost", "cluster halted: storage node 9 lost"),
        ("cluster halted: loss", "cluster halted: loss"),
        ("cluster halted", "cluster halted"),
        ("cluster paused: x", "cluster halted: cluster paused: x"),
        ("cluster", "cluster halted: cluster"),
        ("", "cluster halted: "),
    ] {
        let mut halt = HaltState::new();
        halt.halt(reason.to_string());
        assert_eq!(halt.gate(), Some(message.to_string()));
        assert_eq!(halt.reason(), Some(reason.to_string()));
    }
    let mut halt = HaltState::new();
    halt.pause("cluster halted".to_string());
    assert_eq!(halt.gate(), Some("cluster paused: cluster halted".to_string()));
}

#[test]
fn clear_halt_lets_a_later_halt_rearm() {
    let mut halt = HaltState::new();
    halt.halt("first loss".to_string());
    halt.clear_halt();
    assert!(!halt.is_halted());
    assert_eq!(halt.gate(), None);
    halt.halt("second loss".to_string());
    assert_eq!(halt.reason(), Some("second loss".to_string()));
}

// ---- heartbeats ----

const MILLI: u128 = 1_000_000;

#[test]
fn a_fresh_contact_is_not_stale() {
    let base = 17 * MILLI;
    assert!(!stale(base, base, 40 * MILLI));
}

#[test]
fn a_gap_past_the_threshold_is_stale() {
    let base = 17 * MILLI;
    let now = base + 41 * MILLI;
    assert!(stale(base, now, 40 * MILLI));
}

#[test]
fn exactly_at_the_threshold_is_not_yet_stale() {
    let base = 17 * MILLI;
    let now = base + 40 * MILLI;
    assert!(!stale(base, now, 40 * MILLI));
}

#[test]
fn record_refreshes_the_heartbeat() {
    let mut hb = Heartbeat::new();
    hb.record();
    assert!(!hb.is_stale(3600 * 1000 * MILLI));
}

#[test]
fn a_heartbeat_without_a_margin_is_stale_after_a_while() {
    let mut hb = Heartbeat::new();
    let mut turns = 0u64;
    while !hb.is_stale(0) {
        turns += 1;
        assert!(turns < 100_000_000);
    }
    hb.record_at(5 * MILLI);
    assert!(hb.is_stale_at(6 * MILLI, MILLI / 2));
    assert!(!hb.is_stale_at(4 * MILLI, 0));
}

// ---- gossip ----

fn sample_update(node_id: u64) -> MemberUpdate {
    MemberUpdate {
        node_id: NodeId(node_id),
        incarnation: Incarnation(0),
        status: MemberStatus::Alive,
        client_address: "127.0.0.1:7878".to_string(),
        gossip_address: "127.0.0.1:8878".to_string(),
        thread_count: 1,
    }
}

/// A fact of a compute member.
fn fact(update: MemberUpdate) -> MemberFact {
    MemberFact {
        update,
        profile: MemberProfile::unknown(),
    }
}

fn facts(nodes: &[u64]) -> Vec<MemberFact> {
    nodes.iter().map(|n| fact(sample_update(*n))).collect()
}

fn storage_fact(node_id: u64, profile: MemberProfile) -> MemberFact {
    MemberFact {
        update: sample_update(node_id),
        profile,
    }
}

#[test]
fn merge_incoming_applies_updates_and_mutations() {
    let mut gossip = GossipState::new();
    gossip.merge_incoming(
        facts(&[1]),
        vec![(
            1,
            RingMutation::Join {
                node_id: NodeId(1),
                thread_count: 1,
            },
        )],
    );
    assert_eq!(
        gossip.member_table.get(NodeId(1)),
        Some(sample_update(1))
    );
    assert_eq!(
        gossip.mutation_log.drain_applicable(),
        vec![RingMutation::Join {
            node_id: NodeId(1),
            thread_count: 1
        }]
    );
}

#[test]
fn piggyback_includes_merged_updates_and_recorded_mutations() {
    let mut gossip = GossipState::new();
    gossip.merge_incoming(facts(&[1]), vec![]);
    gossip.record_mutation(
        1,
        RingMutation::Join {
            node_id: NodeId(1),
            thread_count: 1,
        },
    );
    let (updates, mutations) = gossip.piggyback();
    assert_eq!(updates, facts(&[1]));
    assert_eq!(
        mutations,
        vec![(
            1,
            RingMutation::Join {
                node_id: NodeId(1),
                thread_count: 1
            }
        )]
    );
}

#[test]
fn recent_mutations_buffer_is_bounded() {
    let mut gossip = GossipState::new();
    for epoch in 1..=(RECENT_MUTATIONS_CAP as u64 + 5) {
        gossip.record_mutation(
            epoch,
            RingMutation::Leave {
                node_id: NodeId(epoch),
            },
        );
    }
    assert_eq!(gossip.piggyback().1.len(), RECENT_MUTATIONS_CAP);
    assert_eq!(gossip.piggyback().1[0].0, 6);
    assert_eq!(
        gossip.highest_seen_epoch(),
        RECENT_MUTATIONS_CAP as u64 + 5
    );
}

fn cluster_with_storage(members: &[(NodeId, u32)]) -> ClusterState {
    let mut cluster = ClusterState::compute_only(Ring::from_members(&[(NodeId(1), 1)]));
    cluster.storage_ring = Ring::from_members(members);
    cluster
}

fn storage_profile(weight: u32, addr: &str, log_id: [u8; 16]) -> MemberProfile {
    MemberProfile {
        role: MemberRole::Storage,
        capacity_weight: weight,
        store_address: addr.to_string(),
        log_id: DatumId::from_bytes(log_id),
    }
}

#[test]
fn apply_ready_mutations_releases_locks_held_by_a_departing_node() {
    let node_a = NodeId(1);
    let node_b = NodeId(2);
    let mut cluster =
        ClusterState::compute_only(Ring::from_members(&[(node_a, 1), (node_b, 1)]));
    let mut gossip = GossipState::new();
    gossip.record_mutation(1, RingMutation::Leave { node_id: node_b });
    let applied = apply_ready_mutations(&mut gossip, &mut cluster);
    assert_eq!(
        applied,
        Applied {
            evict: true,
            departed: vec![node_b]
        }
    );
    assert_eq!(cluster.compute_ring.native(DatumId::new()).0, node_a);
}

#[test]
fn reconcile_identity_book_copies_storage_log_ids() {
    let mut cluster = cluster_with_storage(&[]);
    let mut gossip = GossipState::new();
    gossip.merge_incoming(
        vec![
            storage_fact(9, storage_profile(4, "127.0.0.1:6999", [3u8; 16])),
            storage_fact(8, storage_profile(1, "127.0.0.1:6998", [0u8; 16])),
            fact(sample_update(1)),
        ],
        vec![],
    );
    reconcile_identity_book(&gossip, &mut cluster);
    let book = &cluster.identity_book;
    assert_eq!(book.get(&9), Some(&DatumId::from_bytes([3u8; 16])));
    assert!(!book.contains_key(&8));
    assert!(!book.contains_key(&1));
}

#[test]
fn a_storage_join_records_availability_without_touching_the_ring() {
    let mut cluster = cluster_with_storage(&[]);
    let mut gossip = GossipState::new();
    let offered = storage_profile(4, "127.0.0.1:6999", [5u8; 16]);
    gossip.merge_incoming(vec![storage_fact(9, offered)], vec![]);
    gossip.record_mutation(
        1,
        RingMutation::Join {
            node_id: NodeId(9),
            thread_count: 1,
        },
    );
    apply_ready_mutations(&mut gossip, &mut cluster);
    assert!(!cluster.storage_ring.contains(NodeId(9)));
    assert!(cluster.storage_ring.node_ids().is_empty());
    assert_eq!(
        cluster.store_addresses.get(&9),
        Some(&"127.0.0.1:6999".to_string())
    );
    assert_eq!(
        cluster.identity_book.get(&9),
        Some(&DatumId::from_bytes([5u8; 16]))
    );
    assert_eq!(cluster.compute_ring.native(DatumId::new()).0, NodeId(1));
    assert!(!cluster.halt.is_halted());
}

#[test]
fn a_storage_leave_engages_the_halt_when_the_node_is_in_the_ring() {
    let mut cluster = cluster_with_storage(&[(NodeId(9), 1)]);
    let mut gossip = GossipState::new();
    let offered = storage_profile(4, "127.0.0.1:6999", [0u8; 16]);
    gossip.merge_incoming(vec![storage_fact(9, offered)], vec![]);
    gossip.record_mutation(1, RingMutation::Leave { node_id: NodeId(9) });
    apply_ready_mutations(&mut gossip, &mut cluster);
    assert!(cluster.halt.is_halted());
    let reason = cluster.halt.reason().unwrap();
    assert!(reason.contains("storage node"), "{reason}");
    assert!(reason.contains("9"), "{reason}");
    assert_eq!(cluster.compute_ring.native(DatumId::new()).0, NodeId(1));
}

#[test]
fn a_storage_leave_is_ignored_when_the_node_is_not_in_the_ring() {
    let mut cluster = cluster_with_storage(&[]);
    let mut gossip = GossipState::new();
    let offered = storage_profile(4, "127.0.0.1:6999", [0u8; 16]);
    gossip.merge_incoming(vec![storage_fact(9, offered)], vec![]);
    gossip.record_mutation(1, RingMutation::Leave { node_id: NodeId(9) });
    apply_ready_mutations(&mut gossip, &mut cluster);
    assert!(!cluster.halt.is_halted());
}

#[test]
fn a_silent_member_is_probed_suspected_buried_and_leaves_the_ring() {
    let mut gossip = GossipState::new();
    gossip.merge_incoming(facts(&[1, 2]), vec![]);
    let mut cluster =
        ClusterState::compute_only(Ring::from_members(&[(NodeId(1), 1), (NodeId(2), 1)]));
    let mut own = GossipLoop::new(NodeId(1), 10, 20);
    let mut seen = Vec::new();
    let mut departed = Vec::new();
    let mut now = 0;
    for _ in 0..20 {
        own.begin(&mut gossip, Tick(now));
        now += 10;
        let round = own.finish(&mut gossip, &mut cluster, false, Tick(now));
        seen.extend(round.actions);
        departed.extend(round.applied.departed);
    }
    assert_eq!(
        seen,
        vec![
            TimeoutAction::EscalateToIndirect(NodeId(2)),
            TimeoutAction::MarkSuspect(NodeId(2)),
            TimeoutAction::MarkDead(NodeId(2)),
        ]
    );
    assert_eq!(departed, vec![NodeId(2)]);
    assert!(!cluster.compute_ring.contains(NodeId(2)));
    assert_eq!(
        gossip.member_table.get(NodeId(2)).unwrap().status,
        MemberStatus::Dead
    );
}

#[test]
fn a_node_that_stops_responding_on_gossip_is_eventually_removed_from_the_ring() {
    let mut gossip = GossipState::new();
    gossip.merge_incoming(facts(&[1, 2]), vec![]);
    let mut cluster =
        ClusterState::compute_only(Ring::from_members(&[(NodeId(1), 2), (NodeId(2), 2)]));
    let mut own = GossipLoop::new(NodeId(1), 20, 40);
    let mut now = 0;
    // Two probes that run out, a suspicion that does, and some slack.
    while now < 20 + 20 * 2 + 40 + 500 {
        own.begin(&mut gossip, Tick(now));
        now += 20;
        own.finish(&mut gossip, &mut cluster, false, Tick(now));
    }
    let book = BTreeMap::from([(2u64, "there:1".to_string())]);
    for _ in 0..20 {
        let id = DatumId::new();
        match route(NodeId(1), &cluster.compute_ring, &book, None, op(vec![id])) {
            Route::RunOp { datum_ids, .. } => assert_eq!(datum_ids, vec![id]),
            other => panic!("expected RunOp, got {other:?}"),
        }
    }
}

#[test]
fn a_dead_storage_node_halts_client_traffic_with_the_reason() {
    let mut gossip = GossipState::new();
    gossip.merge_incoming(
        vec![
            fact(sample_update(1)),
            storage_fact(9, storage_profile(1, "127.0.0.1:6999", [0u8; 16])),
        ],
        vec![],
    );
    let mut cluster = cluster_with_storage(&[(NodeId(9), 1)]);
    let book = BTreeMap::new();
    let mut own = GossipLoop::new(NodeId(1), 20, 40);
    own.begin(&mut gossip, Tick(0));
    own.finish(&mut gossip, &mut cluster, true, Tick(10));
    assert_eq!(cluster.halt.gate(), None);
    assert!(matches!(
        route(NodeId(1), &cluster.compute_ring, &book, None, op(vec![])),
        Route::RunOp { .. }
    ));

    let mut now = 10;
    while !cluster.halt.is_halted() {
        assert!(now < 1000, "storage death did not engage the halt");
        own.begin(&mut gossip, Tick(now));
        now += 20;
        own.finish(&mut gossip, &mut cluster, false, Tick(now));
    }
    let reason = cluster.halt.reason().unwrap();
    assert!(reason.contains("storage node"), "{reason}");
    match route(
        NodeId(1),
        &cluster.compute_ring,
        &book,
        cluster.halt.gate(),
        op(vec![DatumId::new()]),
    ) {
        Route::Reply(Response::OpError { message }) => {
            assert!(message.contains("cluster halted"), "{message}");
            assert!(message.contains("storage node"), "{message}");
        }
        other => panic!("expected the halt error, got {other:?}"),
    }
}

#[test]
fn a_member_that_answers_stays() {
    let mut gossip = GossipState::new();
    gossip.merge_incoming(facts(&[1, 2]), vec![]);
    let mut cluster =
        ClusterState::compute_only(Ring::from_members(&[(NodeId(1), 1), (NodeId(2), 1)]));
    let mut own = GossipLoop::new(NodeId(1), 10, 20);
    for turn in 0..10u64 {
        assert_eq!(own.begin(&mut gossip, Tick(turn * 100)), Some(NodeId(2)));
        let round = own.finish(&mut gossip, &mut cluster, true, Tick(turn * 100 + 50));
        assert_eq!(round.actions, vec![]);
    }
    assert!(cluster.compute_ring.contains(NodeId(2)));
}

#[test]
fn only_the_sequencer_makes_the_dead_leave() {
    for (own, epoch) in [(1, 1), (2, 0)] {
        let mut gossip = GossipState::new();
        gossip.merge_incoming(facts(&[1, 2, 3]), vec![]);
        gossip.member_table.mark_dead(NodeId(3));
        mint_leave_if_sequencer(NodeId(own), &mut gossip, NodeId(3));
        assert_eq!(gossip.highest_seen_epoch(), epoch);
    }
}

#[test]
fn a_suspected_node_speaks_up() {
    let mut gossip = GossipState::new();
    let mut suspected = sample_update(1);
    suspected.status = MemberStatus::Suspect;
    suspected.incarnation = Incarnation(4);
    gossip.merge_incoming(vec![fact(suspected)], vec![]);
    self_refute_if_falsely_suspected(NodeId(1), &mut gossip);
    let own = gossip.member_table.get(NodeId(1)).unwrap();
    assert_eq!(own.status, MemberStatus::Alive);
    assert_eq!(own.incarnation, Incarnation(5));
}

#[test]
fn gossip_is_answered_with_everything_known() {
    let mut gossip = GossipState::new();
    gossip.merge_incoming(facts(&[1]), vec![]);
    let mut cluster = ClusterState::compute_only(Ring::from_members(&[(NodeId(1), 1)]));
    let join = RingMutation::Join {
        node_id: NodeId(2),
        thread_count: 3,
    };
    let (applied, updates, mutations) = answer_gossip(
        &mut gossip,
        &mut cluster,
        facts(&[2]),
        vec![(1, join)],
    );
    assert_eq!(
        applied,
        Applied {
            evict: true,
            departed: vec![]
        }
    );
    assert_eq!(updates, facts(&[1, 2]));
    assert_eq!(mutations, vec![(1, join)]);
    assert_eq!(
        cluster.compute_ring.weights(),
        vec![(NodeId(1), 1), (NodeId(2), 3)]
    );
}

#[test]
fn gossip_tells_what_a_member_offers() {
    let offered = || storage_profile(4, "127.0.0.1:6999", [5u8; 16]);
    let mut near = GossipState::new();
    near.merge_incoming(vec![storage_fact(9, offered())], vec![]);
    let mut far = GossipState::new();
    far.merge_incoming(near.piggyback().0, vec![]);
    assert_eq!(far.profiles.get(&9), Some(&offered()));

    // A fact that is not taken over does not bring its profile.
    far.merge_incoming(facts(&[9]), vec![]);
    assert_eq!(far.profiles.get(&9), Some(&offered()));
    let mut newer = storage_fact(9, storage_profile(2, "127.0.0.1:7000", [6u8; 16]));
    newer.update.incarnation = Incarnation(1);
    far.merge_incoming(vec![newer], vec![]);
    assert_eq!(far.profiles.get(&9).unwrap().capacity_weight, 2);

    // Known only by gossip, the node is a storage member all the same.
    let mut cluster = cluster_with_storage(&[(NodeId(9), 1)]);
    let leave = RingMutation::Leave { node_id: NodeId(9) };
    let (applied, _, _) = answer_gossip(&mut far, &mut cluster, vec![], vec![(1, leave)]);
    assert!(!applied.evict);
    assert!(cluster.halt.is_halted());
    reconcile_identity_book(&far, &mut cluster);
    assert_eq!(
        cluster.identity_book.get(&9),
        Some(&DatumId::from_bytes([6u8; 16]))
    );
}

// ---- configuration ----

fn member(node_id: u64, address: &str, thread_count: u32, role: MemberRole) -> MemberConfig {
    MemberConfig {
        node_id,
        address: address.to_string(),
        thread_count,
        role,
        gossip_address: format!("gossip-{node_id}"),
        peer_link_address: format!("peer-{node_id}"),
        store_address: None,
        capacity_weight: None,
    }
}

fn sample_config() -> NodeConfig {
    NodeConfig {
        self_node_id: 1,
        members: vec![
            member(1, "127.0.0.1:7878", 2, MemberRole::Compute),
            member(2, "127.0.0.1:7879", 4, MemberRole::Compute),
        ],
    }
}

#[test]
fn self_address_finds_the_matching_member() {
    assert_eq!(sample_config().self_address(), "127.0.0.1:7878");
}

#[test]
fn a_compute_node_starts_with_the_rings_and_books_of_its_configuration() {
    let mut config = sample_config();
    let mut store = member(9, "", 1, MemberRole::Storage);
    store.store_address = Some("store-9".to_string());
    store.capacity_weight = Some(3);
    config.members.push(store);
    match config.plan() {
        Ok(NodePlan::Compute(plan)) => {
            assert_eq!(plan.address, "127.0.0.1:7878");
            assert_eq!(plan.thread_count, 2);
            assert_eq!(
                plan.ring.weights(),
                vec![(NodeId(1), 2), (NodeId(2), 4)]
            );
            assert_eq!(plan.storage_members, vec![(NodeId(9), 3)]);
            assert_eq!(
                plan.store_addresses,
                BTreeMap::from([(9, "store-9".to_string())])
            );
            assert_eq!(plan.address_book.get(&2), Some(&"127.0.0.1:7879".to_string()));
            assert_eq!(plan.peer_link_book.get(&2), Some(&"peer-2".to_string()));
        }
        _ => panic!("expected a compute node"),
    }
    assert_eq!(config.storage_ring_members(), vec![(NodeId(9), 3)]);
}

#[test]
fn a_node_that_cannot_start_is_told_why() {
    let mut stranger = sample_config();
    stranger.self_node_id = 5;
    assert!(matches!(stranger.plan(), Err(ConfigError::SelfNotAMember)));

    let mut storage = sample_config();
    storage.members[0].role = MemberRole::Storage;
    assert!(matches!(storage.plan(), Err(ConfigError::NoStoreAddress)));
    storage.members[0].store_address = Some("store-1".to_string());
    assert!(matches!(storage.plan(), Ok(NodePlan::Storage { .. })));
}

#[test]
fn a_node_begins_with_the_members_of_its_configuration() {
    let mut gossip = GossipState::new();
    seed_member_table(&mut gossip, &sample_config(), DatumId::from_rank(7));
    let members = gossip.member_table.all();
    assert_eq!(members.len(), 2);
    assert_eq!(members[1].node_id, NodeId(2));
    assert_eq!(members[1].thread_count, 4);
    assert_eq!(members[1].status, MemberStatus::Alive);
    assert_eq!(members[1].client_address, "127.0.0.1:7879");
}

// ---- the server ----

fn op(datum_ids: Vec<DatumId>) -> ClientRequest {
    ClientRequest::Plain(Request::Op {
        op_id: DatumId::from_rank(1),
        op_name: "x".to_string(),
        datum_ids,
        payload: vec![3],
    })
}

#[test]
fn is_admin_flags_only_admin_requests() {
    assert!(is_admin(&ClientRequest::Admin(AdminRequest::GetClusterConfig)));
    assert!(is_admin(&ClientRequest::Admin(AdminRequest::Resume)));
    assert!(is_admin(&ClientRequest::Admin(
        AdminRequest::InstallStorageRing { members: vec![] }
    )));
    assert!(!is_admin(&ClientRequest::Plain(Request::Op {
        op_id: DatumId::new(),
        op_name: "x".to_string(),
        datum_ids: vec![],
        payload: vec![],
    })));
}

#[test]
fn install_storage_ring_swaps_the_ring_and_books() {
    let mut cluster = cluster_with_storage(&[(NodeId(7), 1)]);
    let member = StorageMember {
        node_id: NodeId(9),
        weight: 1,
        store_address: "127.0.0.1:6900".to_string(),
        log_id: DatumId::from_bytes([4u8; 16]),
    };
    assert_eq!(
        administer(
            &mut cluster,
            AdminRequest::InstallStorageRing {
                members: vec![member]
            }
        ),
        AdminReply::Ack
    );
    assert!(cluster.storage_ring.contains(NodeId(9)));
    assert!(!cluster.storage_ring.contains(NodeId(7)));
    assert_eq!(
        cluster.store_addresses.get(&9),
        Some(&"127.0.0.1:6900".to_string())
    );
    assert_eq!(
        cluster.identity_book.get(&9),
        Some(&DatumId::from_bytes([4u8; 16]))
    );
    assert_eq!(cluster.storage_alive, BTreeSet::new());
}

#[test]
fn get_cluster_config_reports_members_with_addresses_and_log_ids() {
    let mut cluster = cluster_with_storage(&[]);
    let member = StorageMember {
        node_id: NodeId(9),
        weight: 3,
        store_address: "127.0.0.1:6900".to_string(),
        log_id: DatumId::from_bytes([4u8; 16]),
    };
    install_storage_ring(&mut cluster, &vec![member.clone()]);
    assert_eq!(get_cluster_config(&cluster), vec![member.clone()]);
    assert_eq!(
        administer(&mut cluster, AdminRequest::GetClusterConfig),
        AdminReply::ClusterConfig {
            members: vec![member]
        }
    );
}

#[test]
fn a_member_without_an_address_is_reported_without_one() {
    let cluster = cluster_with_storage(&[(NodeId(5), 2)]);
    assert_eq!(
        get_cluster_config(&cluster),
        vec![StorageMember {
            node_id: NodeId(5),
            weight: 2,
            store_address: String::new(),
            log_id: DatumId::from_rank(0),
        }]
    );
}

#[test]
fn an_operator_can_pause_resume_and_clear() {
    let mut cluster = cluster_with_storage(&[]);
    administer(
        &mut cluster,
        AdminRequest::Pause {
            reason: "migrating".to_string(),
        },
    );
    assert!(cluster.halt.is_paused());
    administer(&mut cluster, AdminRequest::Resume);
    assert!(!cluster.halt.is_paused());
    cluster.halt.halt("loss".to_string());
    administer(&mut cluster, AdminRequest::ClearHalt);
    assert!(!cluster.halt.is_halted());
}

/// An id whose home is on a node.
fn id_on(ring: &Ring, node: NodeId) -> DatumId {
    loop {
        let id = DatumId::new();
        if ring.native(id).0 == node {
            return id;
        }
    }
}

#[test]
fn an_op_goes_where_all_its_data_are() {
    let ring = Ring::from_members(&[(NodeId(1), 2), (NodeId(2), 2)]);
    let book = BTreeMap::from([(2u64, "there:1".to_string())]);
    let near = id_on(&ring, NodeId(1));
    let far = id_on(&ring, NodeId(2));
    let other_far = id_on(&ring, NodeId(2));

    assert_eq!(
        route(NodeId(1), &ring, &book, None, op(vec![far, other_far])),
        Route::Reply(Response::Redirect {
            address: "there:1".to_string()
        })
    );
    assert_eq!(
        route(NodeId(1), &ring, &BTreeMap::new(), None, op(vec![far])),
        Route::Reply(Response::OpError {
            message: "no known address for node NodeId(2)".to_string()
        })
    );
    for ids in [vec![near], vec![near, far], vec![]] {
        match route(NodeId(1), &ring, &book, None, op(ids.clone())) {
            Route::RunOp {
                thread, datum_ids, ..
            } => {
                assert_eq!(datum_ids, ids);
                assert_eq!(thread, pick_destination_thread(&ring, &ids));
            }
            other => panic!("expected RunOp, got {other:?}"),
        }
    }
}

#[test]
fn a_closed_gate_answers_clients_and_lets_operators_in() {
    let ring = Ring::from_members(&[(NodeId(1), 1)]);
    let book = BTreeMap::new();
    let refusal = Some("cluster paused: migrating".to_string());
    assert_eq!(
        route(NodeId(1), &ring, &book, refusal.clone(), op(vec![])),
        Route::Reply(Response::OpError {
            message: "cluster paused: migrating".to_string()
        })
    );
    assert_eq!(
        route(
            NodeId(1),
            &ring,
            &book,
            refusal,
            ClientRequest::Admin(AdminRequest::Resume)
        ),
        Route::Admin(AdminRequest::Resume)
    );
}

#[test]
fn without_a_ring_operators_and_refusals_are_still_answered() {
    let ring = Ring::empty();
    let book = BTreeMap::new();
    assert_eq!(
        route(
            NodeId(1),
            &ring,
            &book,
            None,
            ClientRequest::Admin(AdminRequest::GetClusterConfig)
        ),
        Route::Admin(AdminRequest::GetClusterConfig)
    );
    let refusal = Some("cluster halted: loss".to_string());
    assert_eq!(
        route(NodeId(1), &ring, &book, refusal, op(vec![DatumId::new()])),
        Route::Reply(Response::OpError {
            message: "cluster halted: loss".to_string()
        })
    );
    match route(NodeId(1), &ring, &book, None, op(vec![])) {
        Route::RunOp { thread, .. } => assert_eq!(thread, ThreadId(0)),
        other => panic!("expected RunOp, got {other:?}"),
    }
}

#[test]
fn a_member_that_is_known_keeps_what_is_known_of_it() {
    let mut config = sample_config();
    let first = config.members[0].node_id;
    config.members.push(member(first, "elsewhere:1", 9, MemberRole::Storage));
    let mut gossip = GossipState::new();
    let mut known = sample_update(config.members[1].node_id);
    known.incarnation = Incarnation(3);
    gossip.merge_incoming(vec![fact(known.clone())], vec![]);
    seed_member_table(&mut gossip, &config, DatumId::from_rank(7));
    assert_eq!(gossip.member_table.get(known.node_id), Some(known));
    assert_eq!(
        gossip.profiles.get(&config.members[1].node_id),
        Some(&MemberProfile::unknown())
    );
    let entered = gossip.member_table.get(NodeId(first)).unwrap();
    assert_eq!(entered.client_address, config.members[0].address);
    assert_eq!(gossip.profiles.get(&first).unwrap().role, config.members[0].role);
}

#[test]
fn the_thread_of_most_data_runs_an_op_and_the_lowest_of_equals() {
    let ring = Ring::from_members(&[(NodeId(1), 3)]);
    let on_thread = |thread: u32| loop {
        let id = DatumId::new();
        if ring.native(id).1 == ThreadId(thread) {
            return id;
        }
    };
    assert_eq!(pick_destination_thread(&ring, &vec![]), ThreadId(0));
    let two = vec![on_thread(2), on_thread(1), on_thread(2)];
    assert_eq!(pick_destination_thread(&ring, &two), ThreadId(2));
    let tie = vec![on_thread(2), on_thread(1)];
    assert_eq!(pick_destination_thread(&ring, &tie), ThreadId(1));
}

#[test]
fn index_requests_go_to_the_home_of_the_index() {
    let ring = Ring::from_members(&[(NodeId(1), 2), (NodeId(2), 1)]);
    let book = BTreeMap::from([(2u64, "there:1".to_string())]);
    let near = id_on(&ring, NodeId(1));
    let far = id_on(&ring, NodeId(2));
    let thread = ring.native(near).1;

    let rk = |id| {
        ClientRequest::Plain(Request::RkQuery {
            index_datum_id: id,
            query: RkQueryKind::TopN(3),
        })
    };
    assert_eq!(
        route(NodeId(1), &ring, &book, None, rk(near)),
        Route::UseIndex {
            thread,
            target: near,
            index_kind: "rk".to_string(),
            payload: encode_rk_query_kind(&RkQueryKind::TopN(3)),
            change: false,
            answer: AnswerKind::Rk,
        }
    );
    assert_eq!(
        route(NodeId(1), &ring, &book, None, rk(far)),
        Route::Reply(Response::Redirect {
            address: "there:1".to_string()
        })
    );

    let query = LbQueryReq {
        top: 1,
        bottom: 2,
        around_player: None,
        window: 3,
        friend_ids: vec![],
    };
    assert_eq!(
        route(
            NodeId(1),
            &ring,
            &book,
            None,
            ClientRequest::Plain(Request::LbQuery {
                board_id: near,
                class: "racing".to_string(),
                query: query.clone(),
            })
        ),
        Route::UseIndex {
            thread,
            target: near,
            index_kind: "lb:racing".to_string(),
            payload: encode_lb_query_req(&query),
            change: false,
            answer: AnswerKind::Lb,
        }
    );
    assert_eq!(
        route(
            NodeId(1),
            &ring,
            &book,
            None,
            ClientRequest::Indexed(IndexedRequest::TkExecute {
                entity_datum_id: near,
                class: "tags".to_string(),
                payload: vec![1],
            })
        ),
        Route::UseIndex {
            thread,
            target: near,
            index_kind: "tk:tags".to_string(),
            payload: vec![1],
            change: true,
            answer: AnswerKind::Typed(TypedKind::Tk),
        }
    );
    assert_eq!(
        route(
            NodeId(1),
            &ring,
            &book,
            None,
            ClientRequest::Indexed(IndexedRequest::FkPending {
                pending_datum_id: near,
                op: FkPendingOp::Insert,
                payload: vec![],
            })
        ),
        Route::Reply(Response::OpError {
            message: "fk pending inserts arrive via the write path, not this request".to_string()
        })
    );
    assert_eq!(
        route(
            NodeId(1),
            &ring,
            &book,
            None,
            ClientRequest::Indexed(IndexedRequest::ExistsCheck { datum_id: near })
        ),
        Route::CheckExists {
            thread,
            datum_id: near
        }
    );
    assert_eq!(redirect_if_foreign(NodeId(1), &ring, &book, near), None);
}

#[test]
fn requests_between_nodes_are_no_business_of_clients() {
    let ring = Ring::from_members(&[(NodeId(1), 1)]);
    assert_eq!(
        route(
            NodeId(1),
            &ring,
            &BTreeMap::new(),
            None,
            ClientRequest::Plain(Request::Recall {
                datum_id: DatumId::new()
            })
        ),
        Route::Drop
    );
}

#[test]
fn results_turn_into_the_answers_that_clients_expect() {
    let error = |message: &str| Response::OpError {
        message: message.to_string(),
    };
    assert_eq!(
        op_answer(Ok(vec![1])),
        Response::OpResult { payload: vec![1] }
    );
    assert_eq!(op_answer(Err("no".to_string())), error("no"));
    assert_eq!(
        answer(AnswerKind::Rk, Err("no".to_string())),
        Answer::Now(error("no"))
    );
    let entries = vec![(vec![1u8; 8], DatumId::new())];
    assert_eq!(
        answer(AnswerKind::Rk, Ok(encode_rk_entries(&entries))),
        Answer::Now(Response::RkQueryResult { entries })
    );
    assert_eq!(
        answer(AnswerKind::Rk, Ok(vec![1])),
        Answer::Now(error(
            "malformed rk query result: rk entries buffer too short for a count"
        ))
    );
    assert_eq!(
        answer(AnswerKind::Rk, Ok(vec![2, 0, 0, 0, 7])),
        Answer::Now(error(
            "malformed rk query result: rk entries length mismatch: 2 entries need 52 bytes, got 5"
        ))
    );
    let result = LbResult {
        total: 0,
        player_rank: None,
        top: vec![],
        bottom: vec![],
        around: vec![],
        friends: vec![],
    };
    let bytes = encode_lb_result(&result);
    assert_eq!(
        answer(AnswerKind::Lb, Ok(bytes.clone())),
        Answer::Now(Response::LbResult(result))
    );
    for (bytes, reason) in [
        (vec![], "truncated u64 at offset 0"),
        (bytes[..8].to_vec(), "lb result truncated at player_rank flag"),
        ([&bytes[..8], &[9]].concat(), "unknown player_rank flag: 9"),
        (bytes[..11].to_vec(), "truncated u32 at offset 9"),
        (
            [&bytes[..9], &[1, 0, 0, 0, 1]].concat(),
            "truncated rank key at offset 13",
        ),
        ([&bytes[..], &[0, 0]].concat(), "lb result has 2 trailing bytes"),
    ] {
        assert_eq!(
            answer(AnswerKind::Lb, Ok(bytes)),
            Answer::Now(error(&format!("malformed lb result: {reason}")))
        );
    }
}

#[test]
fn what_an_index_has_its_own_codec_for_is_decoded_by_that() {
    for (kind, name) in [
        (TypedKind::Tk, "tk"),
        (TypedKind::FkPending, "fk pending"),
        (TypedKind::Extent, "extent"),
        (TypedKind::Partition, "partition"),
    ] {
        assert_eq!(
            answer(AnswerKind::Typed(kind), Ok(vec![4, 5])),
            Answer::Decode {
                kind,
                bytes: vec![4, 5]
            }
        );
        assert_eq!(
            answer(AnswerKind::Typed(kind), Err("gone".to_string())),
            Answer::Now(Response::OpError {
                message: "gone".to_string()
            })
        );
        assert_eq!(decoded(kind, Ok(17u32)), ClientReply::Typed(17));
        assert_eq!(
            decoded::<u32>(kind, Err("too short".to_string())),
            ClientReply::Response(Response::OpError {
                message: format!("malformed {name} result: too short")
            })
        );
    }
    assert_eq!(
        existence_reply::<u32>(true),
        ClientReply::Exists { found: true }
    );
}

#[test]
fn the_ring_is_needed_only_where_a_home_is_looked_up() {
    let op = |datum_ids: Vec<DatumId>| {
        ClientRequest::Plain(Request::Op {
            op_id: DatumId::new(),
            op_name: "x".to_string(),
            datum_ids,
            payload: vec![],
        })
    };
    assert!(needs_ring(&None, &op(vec![DatumId::new()])));
    assert!(!needs_ring(&None, &op(vec![])));
    assert!(!needs_ring(&Some("halted".to_string()), &op(vec![DatumId::new()])));
    assert!(!needs_ring(&None, &ClientRequest::Admin(AdminRequest::Resume)));
    let empty = Ring::from_members(&[]);
    assert!(matches!(
        route(NodeId(1), &empty, &BTreeMap::new(), None, op(vec![])),
        Route::RunOp { .. }
    ));
}

// ---- calls between nodes ----

#[test]
fn a_call_reaches_the_peers_on_request_callback() {
    let mut a: PeerCalls<&str> = PeerCalls::new();
    let mut b: PeerCalls<&str> = PeerCalls::new();
    let datum_id = DatumId::new();
    let op_id = DatumId::new();
    let request = Request::Acquire {
        op_id,
        datum_id,
        requester_node: NodeId(1),
        requester_thread: ThreadId(0),
    };
    let bytes = a.call(ThreadId(3), &request, "mine");
    let correlation_id = match b.received(&bytes) {
        Incoming::Request {
            thread,
            request: received,
            correlation_id,
        } => {
            assert_eq!(thread, ThreadId(3));
            assert_eq!(received, request);
            correlation_id
        }
        other => panic!("expected a request, got {other:?}"),
    };
    let answer = b.respond(correlation_id, &Response::Granted);
    assert_eq!(
        a.received(&answer),
        Incoming::Answer {
            token: "mine",
            response: Response::Granted
        }
    );
    assert_eq!(a.received(&answer), Incoming::Nothing);
}

#[test]
fn many_concurrent_calls_each_get_routed_back_to_the_right_caller() {
    let mut a: PeerCalls<usize> = PeerCalls::new();
    let mut b: PeerCalls<usize> = PeerCalls::new();
    let mut answers = Vec::new();
    for token in 0..20 {
        let bytes = a.call(
            ThreadId(0),
            &Request::Recall {
                datum_id: DatumId::new(),
            },
            token,
        );
        match b.received(&bytes) {
            Incoming::Request { correlation_id, .. } => {
                answers.push((token, b.respond(correlation_id, &Response::Granted)))
            }
            other => panic!("expected a request, got {other:?}"),
        }
    }
    answers.reverse();
    for (token, bytes) in answers {
        assert_eq!(
            a.received(&bytes),
            Incoming::Answer {
                token,
                response: Response::Granted
            }
        );
    }
}

#[test]
fn a_dropped_connection_fails_pending_calls_instead_of_hanging() {
    let mut calls: PeerCalls<&str> = PeerCalls::new();
    let recall = Request::Recall {
        datum_id: DatumId::new(),
    };
    calls.call(ThreadId(0), &recall, "first");
    calls.call(ThreadId(0), &recall, "second");
    assert_eq!(calls.dropped(), vec![(0, "first"), (1, "second")]);
    assert_eq!(calls.dropped(), vec![]);
    match disconnected() {
        Response::OpError { message } => assert_eq!(message, "peer link disconnected"),
        other => panic!("expected OpError on disconnect, got {other:?}"),
    }
}

#[test]
fn registry_connects_every_pair_regardless_of_dial_direction() {
    let nodes = [NodeId(1), NodeId(2), NodeId(3)];
    for a in nodes {
        for b in nodes {
            if a != b {
                assert!(dials(a, b) != dials(b, a));
            }
        }
        assert_eq!(peer_of(&preamble(a)), Some(a));
    }
    assert!(dials(NodeId(1), NodeId(2)));
    assert_eq!(preamble(NodeId(258)), vec![2, 1, 0, 0, 0, 0, 0, 0]);
    assert_eq!(peer_of(&[1, 2, 3]), None);
}

#[test]
fn what_cannot_be_understood_on_a_link_is_dropped() {
    let mut calls: PeerCalls<&str> = PeerCalls::new();
    assert_eq!(calls.received(&[1, 2]), Incoming::Nothing);
    let bytes = calls.call(
        ThreadId(0),
        &Request::Recall {
            datum_id: DatumId::new(),
        },
        "lost",
    );
    // An answer to it that is no response still ends the call.
    let mut answer = bytes.clone();
    answer[8] = 1;
    answer[13] = 77;
    assert_eq!(calls.received(&answer), Incoming::Nothing);
    assert_eq!(calls.dropped(), vec![]);
    assert_eq!(
        bytes[13..],
        encode_request(&Request::Recall {
            datum_id: match calls.received(&bytes) {
                Incoming::Request {
                    request: Request::Recall { datum_id },
                    ..
                } => datum_id,
                other => panic!("expected a request, got {other:?}"),
            }
        })
    );
}

#[test]
fn requests_of_other_nodes_go_to_the_thread_they_name() {
    let datum_id = DatumId::new();
    let op_id = DatumId::new();
    let reply = ReplyTo::Link {
        link: 4,
        correlation_id: 9,
    };
    let acquired = dispatch(
        Request::Acquire {
            op_id,
            datum_id,
            requester_node: NodeId(2),
            requester_thread: ThreadId(1),
        },
        4,
        9,
    );
    assert_eq!(acquired.answer, None);
    assert_eq!(
        acquired.message,
        Some(WorkerMessage::Acquire {
            op_id,
            datum_id,
            requester_node: NodeId(2),
            requester_thread: ThreadId(1),
            reply
        })
    );
    let released = dispatch(Request::Release { datum_id }, 4, 9);
    assert_eq!(released.answer, Some(Response::Released));
    assert_eq!(released.message, Some(WorkerMessage::Release { datum_id }));
    let recalled = dispatch(Request::Recall { datum_id }, 4, 9);
    assert_eq!(
        recalled.message,
        Some(WorkerMessage::Recall { datum_id, reply })
    );
    let client = dispatch(
        Request::Op {
            op_id,
            op_name: String::new(),
            datum_ids: vec![],
            payload: vec![],
        },
        4,
        9,
    );
    assert_eq!(client.answer, None);
    assert_eq!(client.message, None);
}

#[test]
fn answers_of_other_nodes_lead_to_messages() {
    let op_id = DatumId::from_rank(1);
    let datum_id = DatumId::from_rank(2);
    let acquire = AfterCall::Acquire {
        op_id,
        datum_id,
        retries_left: 2,
    };
    assert_eq!(
        acquire.message(Some(Response::Granted)),
        Some(WorkerMessage::AcquireGranted { op_id, datum_id })
    );
    assert_eq!(
        acquire.message(None),
        Some(WorkerMessage::AcquireFailed {
            op_id,
            datum_id,
            retries_left: 2
        })
    );
    assert_eq!(
        AfterCall::Recall { datum_id }.message(Some(disconnected())),
        Some(WorkerMessage::Release { datum_id })
    );
    let update = AfterCall::IndexUpdate {
        op_id,
        target: datum_id,
        node_id: NodeId(12),
    };
    assert_eq!(
        update.message(None),
        Some(WorkerMessage::IndexUpdateReplied {
            op_id,
            target: datum_id,
            violation: Some("no peer-link connection to node NodeId(12)".to_string())
        })
    );
    assert_eq!(
        update.message(Some(Response::Granted)),
        Some(WorkerMessage::IndexUpdateReplied {
            op_id,
            target: datum_id,
            violation: Some(
                "unexpected response applying index update to \
                 DatumId(00000000-0000-0000-0000-000000000002): Granted"
                    .to_string()
            )
        })
    );
    assert_eq!(AfterCall::Release.message(Some(Response::Released)), None);
}

#[test]
fn a_response_is_spelled_out() {
    let shown = |response: Response| {
        let mut text = "got ".to_string();
        show_response(&mut text, &response);
        text
    };
    let id = DatumId::from_rank(1);
    let id_text = "DatumId(00000000-0000-0000-0000-000000000001)";
    let plain = vec![
        Response::Redirect {
            address: "a\"b\n".to_string(),
        },
        Response::OpResult {
            payload: vec![7, 200],
        },
        Response::OpResult { payload: vec![] },
        Response::OpError {
            message: "no".to_string(),
        },
        Response::Granted,
        Response::Released,
        Response::IndexUpdateResult { violation: None },
        Response::IndexUpdateResult {
            violation: Some("taken".to_string()),
        },
    ];
    for response in plain {
        let expected = format!("got {response:?}");
        assert_eq!(shown(response), expected);
    }
    assert_eq!(
        shown(Response::RkQueryResult {
            entries: vec![(vec![1, 2], id), (vec![], id)]
        }),
        format!("got RkQueryResult {{ entries: [([1, 2], {id_text}), ([], {id_text})] }}")
    );
    let entry = |rank_key: [u8; 8]| LbEntry {
        rank_key,
        player_id: id,
        display: vec![9],
    };
    let result = LbResult {
        total: 3,
        player_rank: Some(2),
        top: vec![entry([0; 8]), entry([1; 8])],
        bottom: vec![],
        around: vec![],
        friends: vec![LbFriendRank {
            player_id: id,
            rank: 5,
            rank_key: [4; 8],
            display: vec![],
        }],
    };
    let expected = format!("got {:?}", Response::LbResult(result.clone()))
        .replace("DatumId { value: 1 }", id_text);
    assert_eq!(shown(Response::LbResult(result)), expected);
}
