//! How a ring shares data among its slots, and which nodes keep copies.

use crate::authority::{NodeId, ThreadId};
use crate::bytes::{byte_span, le_bytes, lemma_le_bytes, prefix};
use crate::datum::{law_id_bytes, DatumId};
use crate::jump_hash::jump_back;
use crate::jump_share::{all_in_bucket, is_power_of_two, law_buckets_share_the_keys};
use crate::ring::{
    has_node, home, joined, key_of, law_replicas, law_weights, max_tries, member_slots, nodes_of,
    replicas_of, salted, slot_for, spread, swept, weights_of, with_node, Slot,
};
use vstd::prelude::*;

verus! {

/// An id with given first bytes that is hashed by a given key.
spec fn id_for(start: Seq<u8>, key: u64) -> DatumId {
    DatumId::of_bytes(start + le_bytes(key as nat, 8))
}

proof fn lemma_id_for(start: Seq<u8>, key: u64)
    requires
        start.len() == 8,
    ensures
        key_of(id_for(start, key)) == key,
        id_for(start, key).bytes().take(8) == start,
{
    reveal_with_fuel(byte_span, 9);
    lemma_le_bytes(key as nat, 8);
    let s = start + le_bytes(key as nat, 8);
    let id = id_for(start, key);
    law_id_bytes(id, id, s);
    assert(s.skip(8) =~= le_bytes(key as nat, 8));
    assert(s.take(8) =~= start);
}

/// The slots of a ring share the data, whatever the ids begin with: among the ids
/// that begin with the same eight bytes, such as those of one moment, each of `n`
/// slots is the home of more than one in `2 * n`, and of exactly one in `n` where
/// `n` is a power of two.
pub proof fn law_slots_share_the_data(slots: Seq<Slot>, start: Seq<u8>, at: int)
    requires
        slots.len() <= u32::MAX,
        0 <= at < slots.len(),
        start.len() == 8,
    ensures
        exists|ids: Seq<DatumId>| #[trigger]
            all_at_home(ids, start, slots, at) && 2 * slots.len() * ids.len()
                > 0x1_0000_0000_0000_0000 && (is_power_of_two(slots.len() as u32) ==> slots.len()
                * ids.len() == 0x1_0000_0000_0000_0000),
{
    let n = slots.len() as u32;
    let b = at as u32;
    law_buckets_share_the_keys(n, b);
    let keys = choose|keys: Seq<u64>| #[trigger]
        all_in_bucket(keys, n, b) && 2 * n * keys.len() > 0x1_0000_0000_0000_0000 && (
        is_power_of_two(n) ==> n * keys.len() == 0x1_0000_0000_0000_0000);
    let ids = Seq::new(keys.len(), |i: int| id_for(start, keys[i]));
    assert(prefix(slots.len()) == n);
    assert forall|i: int| 0 <= i < ids.len() implies (#[trigger] ids[i]).bytes().take(8) == start
        && home(slots, ids[i]) == slots[at] by {
        lemma_id_for(start, keys[i]);
        assert(jump_back(keys[i], n) == b);
    }
    assert forall|i: int, j: int|
        0 <= i < ids.len() && 0 <= j < ids.len() && i != j implies ids[i] != ids[j] by {
        lemma_id_for(start, keys[i]);
        lemma_id_for(start, keys[j]);
        assert(keys[i] != keys[j]);
    }
    assert(all_at_home(ids, start, slots, at));
}

/// Whether ids are all different, begin with the same bytes and have their home at
/// one slot.
pub open spec fn all_at_home(
    ids: Seq<DatumId>,
    start: Seq<u8>,
    slots: Seq<Slot>,
    at: int,
) -> bool {
    &&& ids.no_duplicates()
    &&& forall|i: int|
        0 <= i < ids.len() ==> (#[trigger] ids[i]).bytes().take(8) == start && home(slots, ids[i])
            == slots[at]
}

/// A member has one slot for each of its threads and no other, so that every
/// thread of it is the home of data.
pub proof fn law_member_slots(node_id: NodeId, thread_count: u32, slot: Slot)
    ensures
        member_slots(node_id, thread_count).contains(slot) <==> slot.0 == node_id && slot.1.0
            < thread_count,
        member_slots(node_id, thread_count).no_duplicates(),
{
    let s = member_slots(node_id, thread_count);
    if slot.0 == node_id && slot.1.0 < thread_count {
        assert(s[slot.1.0 as int] == slot);
    }
}

/// The slots of members that joined are those of each of them, in the order in
/// which they joined.
pub proof fn law_everyone_who_joined_has_slots(
    members: Seq<(NodeId, u32)>,
    i: int,
    thread: u32,
)
    requires
        0 <= i < members.len(),
        thread < members[i].1,
    ensures
        joined(members).contains((members[i].0, ThreadId(thread))),
        joined(members).take(joined(members.take(i)).len() as int) == joined(members.take(i)),
    decreases members.len(),
{
    let head = members.drop_last();
    let own = member_slots(members.last().0, members.last().1);
    let slot = (members[i].0, ThreadId(thread));
    if i == members.len() - 1 {
        assert(members.take(i) =~= head);
        assert(joined(members)[joined(head).len() + thread as int] == slot);
        assert(joined(members).take(joined(head).len() as int) =~= joined(head));
    } else {
        law_everyone_who_joined_has_slots(head, i, thread);
        assert(head.take(i) =~= members.take(i));
        let j = choose|j: int| 0 <= j < joined(head).len() && joined(head)[j] == slot;
        assert(joined(members)[j] == slot);
        let part = joined(members.take(i));
        lemma_joined_grows(head, i);
        assert(joined(members).take(part.len() as int) =~= joined(head).take(part.len() as int));
    }
}

proof fn lemma_joined_grows(members: Seq<(NodeId, u32)>, i: int)
    requires
        0 <= i <= members.len(),
    ensures
        joined(members.take(i)).len() <= joined(members).len(),
    decreases members.len(),
{
    if i == members.len() {
        assert(members.take(i) =~= members);
    } else {
        lemma_joined_grows(members.drop_last(), i);
        assert(members.drop_last().take(i) =~= members.take(i));
    }
}

/// The second replica of a datum is not always the same node for the same home: it
/// is the first node other than the home's that the salted keys of the datum hash
/// to.
pub proof fn law_second_replica(slots: Seq<Slot>, id: DatumId, n: nat, salt: u64)
    requires
        slots.len() > 0,
        n > 1,
        1 <= salt <= 3 * slots.len() + 32,
        forall|t: u64|
            1 <= t < salt ==> slot_for(slots, #[trigger] salted(key_of(id), t)).0 == home(
                slots,
                id,
            ).0,
        slot_for(slots, salted(key_of(id), salt)).0 != home(slots, id).0,
    ensures
        replicas_of(slots, id, n).len() > 1,
        replicas_of(slots, id, n)[1] == slot_for(slots, salted(key_of(id), salt)).0,
{
    let base = key_of(id);
    let first = home(slots, id).0;
    let second = slot_for(slots, salted(base, salt)).0;
    let nodes = nodes_of(weights_of(slots));
    law_replicas(slots, id, n);
    law_weights(slots);
    crate::ring::lemma_slot_in_range(slots, base);
    crate::ring::lemma_slot_in_range(slots, salted(base, salt));
    assert(has_node(slots, first)) by {
        assert(slots[jump_back(base, prefix(slots.len())) as int].0 == first);
    }
    assert(has_node(slots, second)) by {
        let key = salted(base, salt);
        assert(slots[jump_back(key, prefix(slots.len())) as int].0 == second);
    }
    assert(nodes.contains(first) && nodes.contains(second));
    let i = choose|i: int| 0 <= i < nodes.len() && nodes[i] == first;
    let j = choose|j: int| 0 <= j < nodes.len() && nodes[j] == second;
    assert(i != j && nodes.len() > 1);
    let target = if n < nodes.len() {
        n
    } else {
        nodes.len()
    };
    lemma_spread_second(slots, base, first, 1, max_tries(slots), target, salt);
    let c = spread(slots, base, seq![first], 1, max_tries(slots), target);
    lemma_swept_starts(c, nodes, target);
}

#[verifier::rlimit(40)]
proof fn lemma_spread_second(
    slots: Seq<Slot>,
    base: u64,
    first: NodeId,
    at: u64,
    tries: nat,
    target: nat,
    salt: u64,
)
    requires
        target > 1,
        1 <= at <= salt,
        salt - at < tries,
        forall|t: u64|
            1 <= t < salt ==> slot_for(slots, #[trigger] salted(base, t)).0 == first,
        slot_for(slots, salted(base, salt)).0 != first,
    ensures
        ({
            let c = spread(slots, base, seq![first], at, tries, target);
            c.len() > 1 && c[1] == slot_for(slots, salted(base, salt)).0
        }),
    decreases tries,
{
    let node = slot_for(slots, salted(base, at)).0;
    let f = seq![first];
    let next = with_node(f, node);
    let left = (tries - 1) as nat;
    let c = spread(slots, base, f, at, tries, target);
    assert(f.len() == 1 && f[0] == first);
    assert(at.wrapping_add(1) == if at == u64::MAX {
        0
    } else {
        at + 1
    });
    assert(c == spread(slots, base, next, at.wrapping_add(1), left, target));
    if at < salt {
        assert(node == first);
        assert(f.contains(node));
        assert(next == f);
        lemma_spread_second(slots, base, first, (at + 1) as u64, left, target, salt);
    } else {
        assert(!f.contains(node));
        assert(next == f.push(node));
        lemma_spread_starts(slots, base, next, at.wrapping_add(1), left, target);
        assert(c.take(next.len() as int)[1] == node);
    }
}

proof fn lemma_spread_starts(
    slots: Seq<Slot>,
    base: u64,
    chosen: Seq<NodeId>,
    salt: u64,
    tries: nat,
    target: nat,
)
    ensures
        ({
            let c = spread(slots, base, chosen, salt, tries, target);
            c.len() >= chosen.len() && c.take(chosen.len() as int) == chosen
        }),
    decreases tries,
{
    if chosen.len() >= target || tries == 0 {
        assert(chosen.take(chosen.len() as int) =~= chosen);
    } else {
        let next = with_node(chosen, slot_for(slots, salted(base, salt)).0);
        lemma_spread_starts(slots, base, next, salt.wrapping_add(1), (tries - 1) as nat, target);
        let c = spread(slots, base, chosen, salt, tries, target);
        assert(c.take(chosen.len() as int) =~= c.take(next.len() as int).take(chosen.len() as int));
        assert(next.take(chosen.len() as int) =~= chosen);
    }
}

proof fn lemma_swept_starts(chosen: Seq<NodeId>, nodes: Seq<NodeId>, target: nat)
    ensures
        swept(chosen, nodes, target).len() >= chosen.len(),
        swept(chosen, nodes, target).take(chosen.len() as int) == chosen,
    decreases nodes.len(),
{
    if chosen.len() >= target || nodes.len() == 0 {
        assert(chosen.take(chosen.len() as int) =~= chosen);
    } else {
        let next = with_node(chosen, nodes[0]);
        lemma_swept_starts(next, nodes.skip(1), target);
        let c = swept(chosen, nodes, target);
        assert(c.take(chosen.len() as int) =~= c.take(next.len() as int).take(chosen.len() as int));
        assert(next.take(chosen.len() as int) =~= chosen);
    }
}

/// The salted keys of a datum are all different, so that each is another try.
pub proof fn law_salted_keys_differ(base: u64, a: u64, b: u64)
    requires
        salted(base, a) == salted(base, b),
    ensures
        a == b,
{
    let g = crate::jump_hash::GOLDEN_GAMMA;
    let i: u64 = 0xF1DE_83E1_9937_733D;
    assert(0x9E37_79B9_7F4A_7C15 * 0xF1DE_83E1_9937_733D == 0x957B_BF35_006E_D677
        * 0x1_0000_0000_0000_0000 + 1);
    crate::jump_share::lemma_wrapping_inverse(a, i, g, 0x957B_BF35_006E_D677);
    crate::jump_share::lemma_wrapping_inverse(b, i, g, 0x957B_BF35_006E_D677);
    assert(a.wrapping_mul(g) == b.wrapping_mul(g));
}

/// The salted keys are tried in order: where the node of one of them is no replica,
/// there were enough without it, all of them the home's node or nodes of earlier
/// salted keys.
pub proof fn law_tries_come_in_order(slots: Seq<Slot>, id: DatumId, n: nat, salt: u64, i: int)
    requires
        slots.len() > 0,
        n > 0,
        1 <= salt <= 3 * slots.len() + 32,
        !replicas_of(slots, id, n).contains(slot_for(slots, salted(key_of(id), salt)).0),
        0 <= i < replicas_of(slots, id, n).len(),
    ensures
        replicas_of(slots, id, n)[i] == home(slots, id).0 || exists|t: u64|
            1 <= t < salt && slot_for(slots, #[trigger] salted(key_of(id), t)).0 == replicas_of(
                slots,
                id,
                n,
            )[i],
{
    let base = key_of(id);
    let first = seq![home(slots, id).0];
    let nodes = nodes_of(weights_of(slots));
    let target = if n < nodes.len() {
        n
    } else {
        nodes.len()
    };
    let c = spread(slots, base, first, 1, max_tries(slots), target);
    lemma_swept_starts(c, nodes, target);
    let r = replicas_of(slots, id, n);
    let node = slot_for(slots, salted(base, salt)).0;
    if c.contains(node) {
        let j = choose|j: int| 0 <= j < c.len() && c[j] == node;
        assert(r.take(c.len() as int)[j] == node);
        assert(r[j] == node);
    }
    lemma_spread_full(slots, base, first, 1, max_tries(slots), target, salt);
    assert(r == c);
    assert(c.contains(r[i]));
    if first.contains(r[i]) {
        assert(r[i] == home(slots, id).0);
    }
}

proof fn lemma_spread_full(
    slots: Seq<Slot>,
    base: u64,
    chosen: Seq<NodeId>,
    at: u64,
    tries: nat,
    target: nat,
    salt: u64,
)
    requires
        at <= salt,
        salt - at < tries,
        !spread(slots, base, chosen, at, tries, target).contains(
            slot_for(slots, salted(base, salt)).0,
        ),
    ensures
        ({
            let c = spread(slots, base, chosen, at, tries, target);
            &&& c.len() >= target
            &&& forall|x: NodeId| #[trigger]
                c.contains(x) ==> chosen.contains(x) || exists|t: u64|
                    at <= t < salt && slot_for(slots, #[trigger] salted(base, t)).0 == x
        }),
    decreases tries,
{
    if chosen.len() < target {
        let node = slot_for(slots, salted(base, at)).0;
        let next = with_node(chosen, node);
        let left = (tries - 1) as nat;
        let c = spread(slots, base, chosen, at, tries, target);
        assert(c == spread(slots, base, next, at.wrapping_add(1), left, target));
        if at == salt {
            assert(next.contains(node)) by {
                if !chosen.contains(node) {
                    assert(next[chosen.len() as int] == node);
                }
            }
            lemma_spread_starts(slots, base, next, at.wrapping_add(1), left, target);
            let j = choose|j: int| 0 <= j < next.len() && next[j] == node;
            assert(c.take(next.len() as int)[j] == node);
            assert(c[j] == node);
            assert(false);
        } else {
            let more = (at + 1) as u64;
            assert(at.wrapping_add(1) == more);
            lemma_spread_full(slots, base, next, more, left, target, salt);
            assert forall|x: NodeId| #[trigger] c.contains(x) implies chosen.contains(x) || exists|
                t: u64,
            |
                at <= t < salt && slot_for(slots, #[trigger] salted(base, t)).0 == x by {
                if next.contains(x) {
                    if !chosen.contains(x) {
                        let j = choose|j: int| 0 <= j < next.len() && next[j] == x;
                        if j < chosen.len() {
                            assert(chosen[j] == x);
                        }
                        assert(x == node);
                        assert(slot_for(slots, salted(base, at)).0 == x);
                    }
                } else {
                    let t = choose|t: u64|
                        more <= t < salt && slot_for(slots, #[trigger] salted(base, t)).0 == x;
                    assert(at <= t < salt);
                }
            }
        }
    }
}

/// Nodes that no salted key which is tried hashes to become replicas only in the order of the ring:
/// where one of them is a replica, every node that comes before it is one too.
pub proof fn law_other_nodes_follow_in_order(
    slots: Seq<Slot>,
    id: DatumId,
    n: nat,
    i: int,
    j: int,
)
    requires
        slots.len() > 0,
        n > 0,
        0 <= i < j < nodes_of(weights_of(slots)).len(),
        slots.len() <= u32::MAX,
        nodes_of(weights_of(slots))[j] != home(slots, id).0,
        forall|t: u64|
            1 <= t <= 3 * slots.len() + 32 ==> slot_for(slots, #[trigger] salted(key_of(id), t)).0
                != nodes_of(weights_of(slots))[j],
        replicas_of(slots, id, n).contains(nodes_of(weights_of(slots))[j]),
    ensures
        replicas_of(slots, id, n).contains(nodes_of(weights_of(slots))[i]),
{
    let base = key_of(id);
    let first = seq![home(slots, id).0];
    let nodes = nodes_of(weights_of(slots));
    let target = if n < nodes.len() {
        n
    } else {
        nodes.len()
    };
    let c = spread(slots, base, first, 1, max_tries(slots), target);
    law_weights(slots);
    lemma_spread_only_hits(slots, base, first, 1, max_tries(slots), target, nodes[j]);
    lemma_swept_in_order(c, nodes, target, i, j);
}

proof fn lemma_spread_only_hits(
    slots: Seq<Slot>,
    base: u64,
    chosen: Seq<NodeId>,
    at: u64,
    tries: nat,
    target: nat,
    x: NodeId,
)
    requires
        !chosen.contains(x),
        at + tries <= u64::MAX,
        forall|t: u64|
            at <= t < at + tries ==> slot_for(slots, #[trigger] salted(base, t)).0 != x,
    ensures
        !spread(slots, base, chosen, at, tries, target).contains(x),
    decreases tries,
{
    if chosen.len() < target && tries > 0 {
        let node = slot_for(slots, salted(base, at)).0;
        let next = with_node(chosen, node);
        assert(!next.contains(x)) by {
            if next.contains(x) {
                let j = choose|j: int| 0 <= j < next.len() && next[j] == x;
                if j < chosen.len() {
                    assert(chosen[j] == x);
                }
            }
        }
        assert(at.wrapping_add(1) == at + 1);
        lemma_spread_only_hits(
            slots,
            base,
            next,
            at.wrapping_add(1),
            (tries - 1) as nat,
            target,
            x,
        );
    }
}

proof fn lemma_swept_in_order(
    chosen: Seq<NodeId>,
    nodes: Seq<NodeId>,
    target: nat,
    i: int,
    j: int,
)
    requires
        0 <= i < j < nodes.len(),
        nodes.no_duplicates(),
        !chosen.contains(nodes[j]),
        swept(chosen, nodes, target).contains(nodes[j]),
    ensures
        swept(chosen, nodes, target).contains(nodes[i]),
    decreases nodes.len(),
{
    let next = with_node(chosen, nodes[0]);
    let rest = nodes.skip(1);
    let c = swept(chosen, nodes, target);
    assert(chosen.len() < target);
    assert(next.contains(nodes[0])) by {
        if !chosen.contains(nodes[0]) {
            assert(next[chosen.len() as int] == nodes[0]);
        }
    }
    lemma_swept_starts(next, rest, target);
    if i == 0 {
        let k = choose|k: int| 0 <= k < next.len() && next[k] == nodes[0];
        assert(c.take(next.len() as int)[k] == nodes[0]);
        assert(c[k] == nodes[0]);
    } else {
        assert(!next.contains(nodes[j])) by {
            if next.contains(nodes[j]) {
                let k = choose|k: int| 0 <= k < next.len() && next[k] == nodes[j];
                if k < chosen.len() {
                    assert(chosen[k] == nodes[j]);
                }
                assert(nodes[0] == nodes[j]);
            }
        }
        assert(rest.no_duplicates());
        lemma_swept_in_order(next, rest, target, i - 1, j - 1);
    }
}

} // verus!
