//! Clocks, failure detection, membership, the sequencer and gossip messages.

use seisin::authority::NodeId;
use seisin::clock::{ClockSource, FakeClock, SystemClock, Tick};
use seisin::failure_detector::{
    FailureDetector, TimeoutAction, PROBE_TIMEOUT_MILLIS, SUSPICION_TIMEOUT_MILLIS,
};
use seisin::datum::DatumId;
use seisin::gossip_state::{MemberFact, MemberProfile, MemberRole};
use seisin::gossip_wire::{
    decode_gossip_message, decode_member_update, decode_ring_mutation_record,
    encode_gossip_message, encode_member_update, encode_ring_mutation_record, GossipKind,
    GossipMessage,
};
use seisin::membership::{Incarnation, MemberStatus, MemberTable, MemberUpdate};
use seisin::ring::Ring;
use seisin::sequencer::{apply_mutation, is_sequencer, MutationLog, RingMutation};
use seisin::wire_error::{Missing, Tag, WireError};

#[test]
fn fake_clock_starts_at_zero() {
    let clock = FakeClock::new();
    assert_eq!(clock.now(), Tick(0));
}

#[test]
fn fake_clock_advances_by_the_given_amount() {
    let mut clock = FakeClock::new();
    clock.advance(100);
    clock.advance(50);
    assert_eq!(clock.now(), Tick(150));
}

#[test]
fn system_clock_is_non_decreasing() {
    let clock = SystemClock::new();
    let first = clock.now();
    let second = clock.now();
    assert!(second >= first);
}

#[test]
fn no_action_before_the_probe_timeout_elapses() {
    let mut clock = FakeClock::new();
    let mut fd = FailureDetector::new();
    fd.begin_direct_probe(NodeId(1), clock.now());
    clock.advance(PROBE_TIMEOUT_MILLIS - 1);
    assert_eq!(fd.check_timeouts(clock.now()), vec![]);
}

#[test]
fn escalates_to_indirect_after_the_probe_timeout() {
    let mut clock = FakeClock::new();
    let mut fd = FailureDetector::new();
    fd.begin_direct_probe(NodeId(1), clock.now());
    clock.advance(PROBE_TIMEOUT_MILLIS);
    assert_eq!(
        fd.check_timeouts(clock.now()),
        vec![TimeoutAction::EscalateToIndirect(NodeId(1))]
    );
}

#[test]
fn marks_suspect_after_the_indirect_probe_also_times_out() {
    let mut clock = FakeClock::new();
    let mut fd = FailureDetector::new();
    fd.begin_direct_probe(NodeId(1), clock.now());
    clock.advance(PROBE_TIMEOUT_MILLIS);
    fd.check_timeouts(clock.now());
    clock.advance(PROBE_TIMEOUT_MILLIS);
    assert_eq!(
        fd.check_timeouts(clock.now()),
        vec![TimeoutAction::MarkSuspect(NodeId(1))]
    );
}

#[test]
fn marks_dead_after_the_suspicion_timeout_elapses() {
    let mut clock = FakeClock::new();
    let mut fd = FailureDetector::new();
    fd.begin_direct_probe(NodeId(1), clock.now());
    clock.advance(PROBE_TIMEOUT_MILLIS);
    fd.check_timeouts(clock.now());
    clock.advance(PROBE_TIMEOUT_MILLIS);
    fd.check_timeouts(clock.now());
    clock.advance(SUSPICION_TIMEOUT_MILLIS);
    assert_eq!(
        fd.check_timeouts(clock.now()),
        vec![TimeoutAction::MarkDead(NodeId(1))]
    );
}

#[test]
fn an_ack_clears_a_pending_direct_probe() {
    let mut clock = FakeClock::new();
    let mut fd = FailureDetector::new();
    fd.begin_direct_probe(NodeId(1), clock.now());
    fd.on_ack(NodeId(1));
    clock.advance(PROBE_TIMEOUT_MILLIS * 10);
    assert_eq!(fd.check_timeouts(clock.now()), vec![]);
}

#[test]
fn an_ack_clears_an_active_suspicion() {
    let mut clock = FakeClock::new();
    let mut fd = FailureDetector::new();
    fd.begin_direct_probe(NodeId(1), clock.now());
    clock.advance(PROBE_TIMEOUT_MILLIS);
    fd.check_timeouts(clock.now());
    clock.advance(PROBE_TIMEOUT_MILLIS);
    fd.check_timeouts(clock.now());

    fd.on_ack(NodeId(1));
    clock.advance(SUSPICION_TIMEOUT_MILLIS * 10);
    assert_eq!(fd.check_timeouts(clock.now()), vec![]);
}

#[test]
fn check_timeouts_with_nothing_tracked_returns_empty() {
    let clock = FakeClock::new();
    let mut fd = FailureDetector::new();
    assert_eq!(fd.check_timeouts(clock.now()), vec![]);
}

#[test]
fn shorter_timeouts_are_kept() {
    let mut fd = FailureDetector::with_timeouts(10, 20);
    fd.begin_direct_probe(NodeId(7), Tick(100));
    assert_eq!(fd.check_timeouts(Tick(109)), vec![]);
    assert_eq!(
        fd.check_timeouts(Tick(110)),
        vec![TimeoutAction::EscalateToIndirect(NodeId(7))]
    );
    assert_eq!(
        fd.check_timeouts(Tick(120)),
        vec![TimeoutAction::MarkSuspect(NodeId(7))]
    );
    assert_eq!(
        fd.check_timeouts(Tick(140)),
        vec![TimeoutAction::MarkDead(NodeId(7))]
    );
    assert_eq!(fd.check_timeouts(Tick(1000)), vec![]);
}

fn update(node_id: u64, incarnation: u64, status: MemberStatus) -> MemberUpdate {
    MemberUpdate {
        node_id: NodeId(node_id),
        incarnation: Incarnation(incarnation),
        status,
        client_address: "127.0.0.1:7878".to_string(),
        gossip_address: "127.0.0.1:8878".to_string(),
        thread_count: 2,
    }
}

#[test]
fn first_update_for_a_node_is_always_accepted() {
    let mut table = MemberTable::new();
    let accepted = table.merge_update(update(1, 0, MemberStatus::Alive));
    assert!(accepted);
    assert_eq!(
        table.get(NodeId(1)),
        Some(update(1, 0, MemberStatus::Alive))
    );
}

#[test]
fn higher_incarnation_always_wins() {
    let mut table = MemberTable::new();
    table.merge_update(update(1, 0, MemberStatus::Dead));
    let accepted = table.merge_update(update(1, 1, MemberStatus::Alive));
    assert!(accepted);
    assert_eq!(table.get(NodeId(1)).unwrap().status, MemberStatus::Alive);
}

#[test]
fn lower_incarnation_is_ignored() {
    let mut table = MemberTable::new();
    table.merge_update(update(1, 5, MemberStatus::Alive));
    let accepted = table.merge_update(update(1, 4, MemberStatus::Dead));
    assert!(!accepted);
    assert_eq!(table.get(NodeId(1)).unwrap().status, MemberStatus::Alive);
}

#[test]
fn at_equal_incarnation_more_severe_status_wins() {
    let mut table = MemberTable::new();
    table.merge_update(update(1, 0, MemberStatus::Alive));
    let accepted = table.merge_update(update(1, 0, MemberStatus::Suspect));
    assert!(accepted);
    assert_eq!(table.get(NodeId(1)).unwrap().status, MemberStatus::Suspect);
}

#[test]
fn at_equal_incarnation_less_severe_status_is_ignored() {
    let mut table = MemberTable::new();
    table.merge_update(update(1, 0, MemberStatus::Suspect));
    let accepted = table.merge_update(update(1, 0, MemberStatus::Alive));
    assert!(!accepted);
    assert_eq!(table.get(NodeId(1)).unwrap().status, MemberStatus::Suspect);
}

#[test]
fn get_on_unknown_node_returns_none() {
    let table = MemberTable::new();
    assert_eq!(table.get(NodeId(42)), None);
}

#[test]
fn mark_suspect_transitions_an_alive_member() {
    let mut table = MemberTable::new();
    table.merge_update(update(1, 0, MemberStatus::Alive));
    let result = table.mark_suspect(NodeId(1));
    assert_eq!(result.unwrap().status, MemberStatus::Suspect);
    assert_eq!(table.get(NodeId(1)).unwrap().status, MemberStatus::Suspect);
}

#[test]
fn mark_suspect_on_unknown_node_is_a_no_op() {
    let mut table = MemberTable::new();
    assert_eq!(table.mark_suspect(NodeId(1)), None);
}

#[test]
fn mark_suspect_on_already_suspect_member_is_a_no_op() {
    let mut table = MemberTable::new();
    table.merge_update(update(1, 0, MemberStatus::Suspect));
    assert_eq!(table.mark_suspect(NodeId(1)), None);
}

#[test]
fn mark_dead_transitions_a_suspect_member() {
    let mut table = MemberTable::new();
    table.merge_update(update(1, 0, MemberStatus::Suspect));
    let result = table.mark_dead(NodeId(1));
    assert_eq!(result.unwrap().status, MemberStatus::Dead);
}

#[test]
fn mark_dead_on_already_dead_member_is_a_no_op() {
    let mut table = MemberTable::new();
    table.merge_update(update(1, 0, MemberStatus::Dead));
    assert_eq!(table.mark_dead(NodeId(1)), None);
}

#[test]
fn confirm_alive_self_bumps_incarnation_and_clears_suspicion() {
    let mut table = MemberTable::new();
    table.merge_update(update(1, 3, MemberStatus::Suspect));
    let result = table.confirm_alive_self(NodeId(1));
    assert_eq!(result.incarnation, Incarnation(4));
    assert_eq!(result.status, MemberStatus::Alive);
    assert_eq!(table.get(NodeId(1)).unwrap().incarnation, Incarnation(4));
}

#[test]
fn all_returns_every_known_member() {
    let mut table = MemberTable::new();
    table.merge_update(update(1, 0, MemberStatus::Alive));
    table.merge_update(update(2, 0, MemberStatus::Suspect));
    let mut all = table.all();
    all.sort_by_key(|u| u.node_id.0);
    assert_eq!(
        all,
        vec![
            update(1, 0, MemberStatus::Alive),
            update(2, 0, MemberStatus::Suspect)
        ]
    );
}

#[test]
fn alive_members_excludes_suspect_and_dead_and_is_sorted() {
    let mut table = MemberTable::new();
    table.merge_update(update(3, 0, MemberStatus::Alive));
    table.merge_update(update(1, 0, MemberStatus::Alive));
    table.merge_update(update(2, 0, MemberStatus::Suspect));
    table.merge_update(update(4, 0, MemberStatus::Dead));
    assert_eq!(table.alive_members(), vec![NodeId(1), NodeId(3)]);
}

#[test]
fn merging_twice_or_in_another_order_gives_the_same_table() {
    let facts = [
        (0, MemberStatus::Alive),
        (0, MemberStatus::Dead),
        (1, MemberStatus::Alive),
        (1, MemberStatus::Suspect),
    ];
    for (i1, s1) in facts {
        for (i2, s2) in facts {
            let mut forward = MemberTable::new();
            forward.merge_update(update(1, i1, s1));
            forward.merge_update(update(1, i2, s2));
            let mut backward = MemberTable::new();
            backward.merge_update(update(1, i2, s2));
            backward.merge_update(update(1, i1, s1));
            assert_eq!(forward.all(), backward.all());
            assert!(!forward.merge_update(update(1, i1, s1)));
        }
    }
}

#[test]
fn lowest_node_id_is_the_sequencer() {
    assert!(is_sequencer(NodeId(1), &[NodeId(1), NodeId(2), NodeId(3)]));
}

#[test]
fn a_higher_node_id_is_not_the_sequencer() {
    assert!(!is_sequencer(NodeId(2), &[NodeId(1), NodeId(2), NodeId(3)]));
}

#[test]
fn a_node_absent_from_the_alive_list_is_not_the_sequencer() {
    assert!(!is_sequencer(NodeId(1), &[NodeId(2), NodeId(3)]));
}

#[test]
fn a_lone_alive_member_is_its_own_sequencer() {
    assert!(is_sequencer(NodeId(5), &[NodeId(5)]));
}

#[test]
fn an_empty_alive_list_has_no_sequencer() {
    assert!(!is_sequencer(NodeId(1), &[]));
}

#[test]
fn drains_in_order_epochs_immediately() {
    let mut log = MutationLog::new();
    log.record(
        1,
        RingMutation::Join {
            node_id: NodeId(1),
            thread_count: 2,
        },
    );
    log.record(2, RingMutation::Leave { node_id: NodeId(1) });
    assert_eq!(
        log.drain_applicable(),
        vec![
            RingMutation::Join {
                node_id: NodeId(1),
                thread_count: 2
            },
            RingMutation::Leave { node_id: NodeId(1) },
        ]
    );
    assert_eq!(log.applied_epoch(), 2);
}

#[test]
fn withholds_mutations_until_the_gap_before_them_is_filled() {
    let mut log = MutationLog::new();
    log.record(2, RingMutation::Leave { node_id: NodeId(1) });
    assert_eq!(log.drain_applicable(), vec![]);

    log.record(
        1,
        RingMutation::Join {
            node_id: NodeId(1),
            thread_count: 2,
        },
    );
    assert_eq!(
        log.drain_applicable(),
        vec![
            RingMutation::Join {
                node_id: NodeId(1),
                thread_count: 2
            },
            RingMutation::Leave { node_id: NodeId(1) },
        ]
    );
}

#[test]
fn a_stale_epoch_is_ignored() {
    let mut log = MutationLog::new();
    log.record(
        1,
        RingMutation::Join {
            node_id: NodeId(1),
            thread_count: 2,
        },
    );
    log.drain_applicable();

    log.record(
        1,
        RingMutation::Join {
            node_id: NodeId(1),
            thread_count: 2,
        },
    );
    assert_eq!(log.drain_applicable(), vec![]);
}

#[test]
fn drain_with_nothing_pending_returns_empty() {
    let mut log = MutationLog::new();
    assert_eq!(log.drain_applicable(), vec![]);
}

#[test]
fn the_first_mutation_of_an_epoch_stands_wherever_it_arrives() {
    let join = RingMutation::Join {
        node_id: NodeId(4),
        thread_count: 1,
    };
    let leave = RingMutation::Leave { node_id: NodeId(3) };
    let mut forward = MutationLog::new();
    forward.record(1, join);
    forward.record(2, leave);
    let mut backward = MutationLog::new();
    backward.record(2, leave);
    backward.record(1, join);
    assert_eq!(forward.drain_applicable(), backward.drain_applicable());
}

#[test]
fn mutations_change_a_ring() {
    let mut ring = Ring::empty();
    apply_mutation(
        &mut ring,
        RingMutation::Join {
            node_id: NodeId(1),
            thread_count: 2,
        },
    );
    apply_mutation(
        &mut ring,
        RingMutation::Join {
            node_id: NodeId(2),
            thread_count: 1,
        },
    );
    assert_eq!(ring.weights(), vec![(NodeId(1), 2), (NodeId(2), 1)]);
    apply_mutation(&mut ring, RingMutation::Leave { node_id: NodeId(1) });
    assert_eq!(ring.weights(), vec![(NodeId(2), 1)]);
}

fn sample_update() -> MemberUpdate {
    MemberUpdate {
        node_id: NodeId(7),
        incarnation: Incarnation(3),
        status: MemberStatus::Suspect,
        client_address: "127.0.0.1:7878".to_string(),
        gossip_address: "127.0.0.1:8878".to_string(),
        thread_count: 4,
    }
}

#[test]
fn round_trips_a_member_update() {
    let update = sample_update();
    let decoded = decode_member_update(&encode_member_update(&update)).unwrap();
    assert_eq!(decoded, update);
}

#[test]
fn round_trips_every_member_status() {
    for status in [
        MemberStatus::Alive,
        MemberStatus::Suspect,
        MemberStatus::Dead,
    ] {
        let mut update = sample_update();
        update.status = status;
        let decoded = decode_member_update(&encode_member_update(&update)).unwrap();
        assert_eq!(decoded.status, status);
    }
}

#[test]
fn rejects_a_member_update_with_invalid_status_byte() {
    let mut buf = encode_member_update(&sample_update());
    buf[16] = 99;
    assert!(decode_member_update(&buf).is_err());
}

#[test]
fn round_trips_a_join_mutation_record() {
    let mutation = RingMutation::Join {
        node_id: NodeId(9),
        thread_count: 3,
    };
    let (epoch, decoded) =
        decode_ring_mutation_record(&encode_ring_mutation_record(42, &mutation)).unwrap();
    assert_eq!(epoch, 42);
    assert_eq!(decoded, mutation);
}

#[test]
fn round_trips_a_leave_mutation_record() {
    let mutation = RingMutation::Leave { node_id: NodeId(9) };
    let (epoch, decoded) =
        decode_ring_mutation_record(&encode_ring_mutation_record(7, &mutation)).unwrap();
    assert_eq!(epoch, 7);
    assert_eq!(decoded, mutation);
}

#[test]
fn rejects_a_mutation_record_with_invalid_tag_byte() {
    let mut buf = encode_ring_mutation_record(1, &RingMutation::Leave { node_id: NodeId(1) });
    buf[8] = 99;
    assert!(decode_ring_mutation_record(&buf).is_err());
}

#[test]
fn a_member_update_has_its_known_bytes() {
    let update = MemberUpdate {
        node_id: NodeId(1),
        incarnation: Incarnation(2),
        status: MemberStatus::Dead,
        client_address: "a".to_string(),
        gossip_address: "bc".to_string(),
        thread_count: 3,
    };
    let bytes = vec![
        1, 0, 0, 0, 0, 0, 0, 0, 2, 0, 0, 0, 0, 0, 0, 0, 2, 3, 0, 0, 0, 1, 0, 0, 0, b'a', 2, 0, 0,
        0, b'b', b'c',
    ];
    assert_eq!(encode_member_update(&update), bytes);
    assert_eq!(
        decode_member_update(&bytes[..31]),
        Err(WireError::Missing {
            what: Missing::GossipAddress
        })
    );
}

#[test]
fn gossip_messages_round_trip() {
    for kind in [
        GossipKind::Ping,
        GossipKind::PingReq { target: NodeId(5) },
        GossipKind::Ack,
    ] {
        let message = GossipMessage {
            kind,
            facts: vec![
                MemberFact {
                    update: sample_update(),
                    profile: MemberProfile::unknown(),
                },
                MemberFact {
                    update: update(1, 2, MemberStatus::Alive),
                    profile: MemberProfile {
                        role: MemberRole::Storage,
                        capacity_weight: 7,
                        store_address: "store-1".to_string(),
                        log_id: DatumId::from_rank(3),
                    },
                },
            ],
            mutations: vec![
                (
                    1,
                    RingMutation::Join {
                        node_id: NodeId(9),
                        thread_count: 3,
                    },
                ),
                (2, RingMutation::Leave { node_id: NodeId(9) }),
            ],
        };
        let bytes = encode_gossip_message(&message);
        assert_eq!(decode_gossip_message(&bytes), Ok(message));
        assert!(decode_gossip_message(&bytes[..bytes.len() - 1]).is_err());
    }
    assert!(decode_gossip_message(&[9]).is_err());
}

#[test]
fn a_cut_or_unknown_member_update_is_refused() {
    let whole = encode_member_update(&sample_update());
    for k in 0..whole.len() {
        assert!(decode_member_update(&whole[..k]).is_err(), "{k}");
    }
    for tag in 3..=255u8 {
        let mut other = whole.clone();
        other[16] = tag;
        assert_eq!(
            decode_member_update(&other),
            Err(WireError::UnknownTag {
                what: Tag::MemberStatus,
                tag
            })
        );
    }
}

#[test]
fn a_timeout_is_reported_once() {
    let mut clock = FakeClock::new();
    let mut fd = FailureDetector::new();
    fd.begin_direct_probe(NodeId(1), clock.now());
    for _ in 0..3 {
        clock.advance(SUSPICION_TIMEOUT_MILLIS);
        assert_eq!(fd.check_timeouts(clock.now()).len(), 1);
        assert_eq!(fd.check_timeouts(clock.now()), vec![]);
    }
}

#[test]
fn a_new_probe_restarts_the_wait_and_not_the_suspicion() {
    let mut clock = FakeClock::new();
    let mut fd = FailureDetector::new();
    fd.begin_direct_probe(NodeId(1), clock.now());
    fd.begin_direct_probe(NodeId(2), clock.now());
    clock.advance(PROBE_TIMEOUT_MILLIS - 1);
    fd.begin_direct_probe(NodeId(1), clock.now());
    clock.advance(1);
    assert_eq!(
        fd.check_timeouts(clock.now()),
        vec![TimeoutAction::EscalateToIndirect(NodeId(2))]
    );
    clock.advance(PROBE_TIMEOUT_MILLIS - 2);
    assert_eq!(fd.check_timeouts(clock.now()), vec![]);
    clock.advance(1);
    assert_eq!(
        fd.check_timeouts(clock.now()),
        vec![TimeoutAction::EscalateToIndirect(NodeId(1))]
    );

    let mut fd = FailureDetector::new();
    fd.begin_direct_probe(NodeId(1), clock.now());
    clock.advance(PROBE_TIMEOUT_MILLIS);
    fd.check_timeouts(clock.now());
    clock.advance(PROBE_TIMEOUT_MILLIS);
    assert_eq!(
        fd.check_timeouts(clock.now()),
        vec![TimeoutAction::MarkSuspect(NodeId(1))]
    );
    clock.advance(SUSPICION_TIMEOUT_MILLIS - 1);
    fd.begin_direct_probe(NodeId(1), clock.now());
    clock.advance(1);
    assert_eq!(
        fd.check_timeouts(clock.now()),
        vec![TimeoutAction::MarkDead(NodeId(1))]
    );
}

#[test]
fn what_is_wrong_with_gossip_is_told() {
    let whole = encode_member_update(&sample_update());
    let told = |bytes: &[u8]| decode_member_update(bytes).unwrap_err().message();
    assert_eq!(told(&whole[..3]), "member update payload too short: 3 bytes");
    assert_eq!(told(&whole[..22]), "decoding client_address");
    assert_eq!(told(&whole[..whole.len() - 1]), "decoding gossip_address");
    let mut other = whole;
    other[16] = 7;
    assert_eq!(told(&other), "invalid member status tag byte: 7");

    let told = |bytes: &[u8]| decode_ring_mutation_record(bytes).unwrap_err().message();
    assert_eq!(told(&[1, 2]), "ring mutation record too short: 2 bytes");
    assert_eq!(
        told(&[0; 17]),
        "join mutation record length mismatch: expected 21 bytes, got 17"
    );
    assert_eq!(
        told(&[1; 18]),
        "leave mutation record length mismatch: expected 17 bytes, got 18"
    );
    assert_eq!(told(&[9; 17]), "invalid ring mutation tag byte: 9");
}

#[test]
fn what_is_read_as_a_mutation_is_its_encoding() {
    for len in [17usize, 21] {
        for tag in 0..3u8 {
            let mut bytes: Vec<u8> = (0..len as u8).collect();
            bytes[8] = tag;
            if let Ok((epoch, mutation)) = decode_ring_mutation_record(&bytes) {
                assert_eq!(encode_ring_mutation_record(epoch, &mutation), bytes);
                assert_eq!(len == 21, tag == 0);
            }
        }
    }
}
