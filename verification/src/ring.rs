//! The ring: which node and thread is the home of a datum.
//!
//! A ring is a sequence of slots, and a datum's home is the slot that its id
//! hashes to. Joins append slots and leaves move the last slot into the gap, so
//! that each moves few datums: see [`law_join_moves_only_to_new_slots`] and
//! [`law_dropped_slot_moves_few`].

use crate::authority::{NodeId, ThreadId};
use crate::bytes::{le_value, prefix, rest_of, take_u64};
use crate::datum::DatumId;
use crate::jump_hash::{
    jump_back, law_bucket_in_range, law_more_buckets, law_one_more_bucket, JumpBackHasher,
    GOLDEN_GAMMA,
};
use vstd::array::array_as_slice;
use vstd::multiset::Multiset;
use vstd::prelude::*;

verus! {

/// A thread of a node, as a place in the ring.
pub type Slot = (NodeId, ThreadId);

/// The slots of the cluster's threads, in an order that all nodes agree on.
pub struct Ring {
    slots: Vec<(NodeId, ThreadId)>,
}

impl View for Ring {
    type V = Seq<Slot>;

    closed spec fn view(&self) -> Seq<Slot> {
        self.slots@
    }
}

// ---- what the operations do to the slots ----

/// The slots of one member: one for each of its threads, in order.
pub open spec fn member_slots(node_id: NodeId, thread_count: u32) -> Seq<Slot> {
    Seq::new(thread_count as nat, |t: int| (node_id, ThreadId(t as u32)))
}

/// The slots of members that join one after the other.
pub open spec fn joined(members: Seq<(NodeId, u32)>) -> Seq<Slot>
    decreases members.len(),
{
    if members.len() == 0 {
        seq![]
    } else {
        joined(members.drop_last()) + member_slots(members.last().0, members.last().1)
    }
}

/// The slots without slot `i`, whose place the last slot takes.
pub open spec fn dropped(slots: Seq<Slot>, i: int) -> Seq<Slot> {
    slots.update(i, slots.last()).drop_last()
}

/// The slots from `i` on freed of a node, one slot after the other.
pub open spec fn left_from(slots: Seq<Slot>, node_id: NodeId, i: int) -> Seq<Slot>
    decreases slots.len() - i,
{
    if i < 0 || i >= slots.len() {
        slots
    } else if slots[i].0 == node_id {
        left_from(dropped(slots, i), node_id, i)
    } else {
        left_from(slots, node_id, i + 1)
    }
}

/// The slots after a node has left.
pub open spec fn left(slots: Seq<Slot>, node_id: NodeId) -> Seq<Slot> {
    left_from(slots, node_id, 0)
}

/// Whether a node has a slot.
pub open spec fn has_node(slots: Seq<Slot>, node_id: NodeId) -> bool {
    exists|i: int| 0 <= i < slots.len() && (#[trigger] slots[i]).0 == node_id
}

/// One more slot for a node in a list of nodes and their slot counts.
pub open spec fn counted(w: Seq<(NodeId, u32)>, node_id: NodeId) -> Seq<(NodeId, u32)>
    decreases w.len(),
{
    if w.len() == 0 {
        seq![(node_id, 1u32)]
    } else if w[0].0 == node_id {
        w.update(0, (node_id, w[0].1.wrapping_add(1)))
    } else {
        seq![w[0]] + counted(w.skip(1), node_id)
    }
}

/// The nodes in the order of their first slots, with how many slots each has.
pub open spec fn weights_of(slots: Seq<Slot>) -> Seq<(NodeId, u32)>
    decreases slots.len(),
{
    if slots.len() == 0 {
        seq![]
    } else {
        counted(weights_of(slots.drop_last()), slots.last().0)
    }
}

/// The nodes of a list of nodes and slot counts.
pub open spec fn nodes_of(w: Seq<(NodeId, u32)>) -> Seq<NodeId> {
    Seq::new(w.len(), |i: int| w[i].0)
}

/// The number of slots that a node has.
pub open spec fn slot_count(slots: Seq<Slot>, node_id: NodeId) -> nat
    decreases slots.len(),
{
    if slots.len() == 0 {
        0
    } else {
        slot_count(slots.drop_last(), node_id) + if slots.last().0 == node_id {
            1nat
        } else {
            0nat
        }
    }
}

// ---- where a datum belongs ----

/// What an id is hashed by: its last eight bytes, which are random in a UUID
/// of version 7, whereas its first ones tell the time.
pub open spec fn key_of(id: DatumId) -> u64 {
    le_value(id.bytes().skip(8)) as u64
}

/// The slot that a key hashes to.
pub open spec fn slot_for(slots: Seq<Slot>, key: u64) -> Slot {
    slots[jump_back(key, prefix(slots.len())) as int]
}

/// The home of a datum.
pub open spec fn home(slots: Seq<Slot>, id: DatumId) -> Slot {
    slot_for(slots, key_of(id))
}

/// A key made from `base` for another try.
pub open spec fn salted(base: u64, salt: u64) -> u64 {
    base.wrapping_add(salt.wrapping_mul(GOLDEN_GAMMA))
}

/// `chosen` with `node_id` at its end, unless it is in it.
pub open spec fn with_node(chosen: Seq<NodeId>, node_id: NodeId) -> Seq<NodeId> {
    if chosen.contains(node_id) {
        chosen
    } else {
        chosen.push(node_id)
    }
}

/// `chosen` extended by the nodes that up to `tries` salted keys hash to, until
/// it has `target` nodes.
pub open spec fn spread(
    slots: Seq<Slot>,
    base: u64,
    chosen: Seq<NodeId>,
    salt: u64,
    tries: nat,
    target: nat,
) -> Seq<NodeId>
    decreases tries,
{
    if chosen.len() >= target || tries == 0 {
        chosen
    } else {
        spread(
            slots,
            base,
            with_node(chosen, slot_for(slots, salted(base, salt)).0),
            salt.wrapping_add(1),
            (tries - 1) as nat,
            target,
        )
    }
}

/// `chosen` extended by the given nodes in order, until it has `target` nodes.
pub open spec fn swept(chosen: Seq<NodeId>, nodes: Seq<NodeId>, target: nat) -> Seq<NodeId>
    decreases nodes.len(),
{
    if chosen.len() >= target || nodes.len() == 0 {
        chosen
    } else {
        swept(with_node(chosen, nodes[0]), nodes.skip(1), target)
    }
}

/// How many salted keys are tried.
pub open spec fn max_tries(slots: Seq<Slot>) -> nat {
    slots.len() * 3 + 32
}

/// The nodes that keep a datum of which there are to be `n` copies: its home
/// first, then the nodes that salted keys hash to, then any others, until there
/// are `n` or no more.
pub open spec fn replicas_of(slots: Seq<Slot>, id: DatumId, n: nat) -> Seq<NodeId> {
    if slots.len() == 0 || n == 0 {
        seq![]
    } else {
        let nodes = nodes_of(weights_of(slots));
        let target = if n < nodes.len() {
            n
        } else {
            nodes.len()
        };
        let first = seq![home(slots, id).0];
        swept(spread(slots, key_of(id), first, 1, max_tries(slots), target), nodes, target)
    }
}

// ---- lemmas ----

pub proof fn lemma_slot_in_range(slots: Seq<Slot>, key: u64)
    requires
        slots.len() > 0,
    ensures
        0 <= jump_back(key, prefix(slots.len())) < slots.len(),
{
    let n = prefix(slots.len());
    if n > 0 {
        law_bucket_in_range(key, n);
        assert(n <= slots.len());
    }
}

proof fn lemma_counted(w: Seq<(NodeId, u32)>, node_id: NodeId, i: int)
    requires
        0 <= i <= w.len(),
        forall|j: int| 0 <= j < i ==> (#[trigger] w[j]).0 != node_id,
        i < w.len() ==> w[i].0 == node_id,
    ensures
        counted(w, node_id) == if i < w.len() {
            w.update(i, (node_id, w[i].1.wrapping_add(1)))
        } else {
            w.push((node_id, 1))
        },
    decreases i,
{
    if i > 0 {
        let t = w.skip(1);
        assert forall|j: int| 0 <= j < i - 1 implies (#[trigger] t[j]).0 != node_id by {
            assert(t[j] == w[j + 1]);
        }
        lemma_counted(t, node_id, i - 1);
        assert(w[0].0 != node_id);
        if i < w.len() {
            assert(seq![w[0]] + t.update(i - 1, (node_id, w[i].1.wrapping_add(1))) =~= w.update(
                i,
                (node_id, w[i].1.wrapping_add(1)),
            ));
        } else {
            assert(seq![w[0]] + t.push((node_id, 1)) =~= w.push((node_id, 1)));
        }
    } else if w.len() == 0 {
        assert(seq![(node_id, 1u32)] =~= w.push((node_id, 1)));
    }
}

/// Where a node stands in a list, if it does.
proof fn lemma_find(w: Seq<(NodeId, u32)>, node_id: NodeId) -> (i: int)
    ensures
        0 <= i <= w.len(),
        forall|j: int| 0 <= j < i ==> (#[trigger] w[j]).0 != node_id,
        i < w.len() ==> w[i].0 == node_id,
    decreases w.len(),
{
    if w.len() == 0 || w[0].0 == node_id {
        0
    } else {
        let i = lemma_find(w.skip(1), node_id) + 1;
        assert forall|j: int| 0 <= j < i implies (#[trigger] w[j]).0 != node_id by {
            if j > 0 {
                assert(w.skip(1)[j - 1] == w[j]);
            }
        }
        i
    }
}

/// The weights of a ring name each of its nodes once, with the number of its
/// slots, and no others.
pub proof fn law_weights(slots: Seq<Slot>)
    ensures
        nodes_of(weights_of(slots)).no_duplicates(),
        forall|i: int|
            #![trigger weights_of(slots)[i]]
            0 <= i < weights_of(slots).len() && slots.len() <= u32::MAX ==> weights_of(slots)[i].1
                == slot_count(slots, weights_of(slots)[i].0),
        forall|node_id: NodeId|
            nodes_of(weights_of(slots)).contains(node_id) <==> #[trigger] has_node(slots, node_id),
    decreases slots.len(),
{
    let w = weights_of(slots);
    if slots.len() > 0 {
        let head = slots.drop_last();
        let last = slots.last().0;
        law_weights(head);
        let h = weights_of(head);
        let i = lemma_find(h, last);
        lemma_counted(h, last, i);
        assert forall|a: int, b: int| 0 <= a < w.len() && 0 <= b < w.len() && a != b implies nodes_of(w)[a]
            != nodes_of(w)[b] by {
            if a < h.len() && b < h.len() {
                assert(nodes_of(h)[a] == h[a].0 && nodes_of(h)[b] == h[b].0);
            }
        }
        assert forall|j: int| #![trigger weights_of(slots)[j]] 0 <= j < w.len() && slots.len()
            <= u32::MAX implies w[j].1 == slot_count(slots, w[j].0) by {
            if j < h.len() {
                assert(weights_of(head)[j].1 == slot_count(head, h[j].0));
                lemma_count_bound(head, h[j].0);
                if j != i && i < h.len() {
                    assert(nodes_of(h)[i] != nodes_of(h)[j]);
                }
            } else {
                if has_node(head, last) {
                    assert(nodes_of(h).contains(last));
                    let k = choose|k: int| 0 <= k < nodes_of(h).len() && nodes_of(h)[k] == last;
                    assert(h[k].0 == last);
                }
                lemma_no_slots(head, last);
            }
        }
        assert forall|node_id: NodeId| nodes_of(w).contains(node_id) <==> #[trigger] has_node(
            slots,
            node_id,
        ) by {
            if nodes_of(w).contains(node_id) {
                let k = choose|k: int| 0 <= k < nodes_of(w).len() && nodes_of(w)[k] == node_id;
                if k < h.len() {
                    assert(nodes_of(h)[k] == node_id);
                    assert(has_node(head, node_id));
                    let m = choose|m: int| 0 <= m < head.len() && (#[trigger] head[m]).0 == node_id;
                    assert(slots[m].0 == node_id);
                } else {
                    assert(slots[slots.len() - 1].0 == node_id);
                }
            }
            if has_node(slots, node_id) {
                let m = choose|m: int| 0 <= m < slots.len() && (#[trigger] slots[m]).0 == node_id;
                if m < head.len() {
                    assert(head[m].0 == node_id);
                    assert(has_node(head, node_id));
                    let k = choose|k: int| 0 <= k < nodes_of(h).len() && nodes_of(h)[k] == node_id;
                    assert(nodes_of(w)[k] == node_id);
                } else {
                    assert(nodes_of(w)[i] == node_id);
                }
            }
        }
    } else {
        assert(nodes_of(w) =~= seq![]);
    }
}

proof fn lemma_count_bound(slots: Seq<Slot>, node_id: NodeId)
    ensures
        slot_count(slots, node_id) <= slots.len(),
    decreases slots.len(),
{
    if slots.len() > 0 {
        lemma_count_bound(slots.drop_last(), node_id);
    }
}

proof fn lemma_no_slots(slots: Seq<Slot>, node_id: NodeId)
    ensures
        !has_node(slots, node_id) ==> slot_count(slots, node_id) == 0,
    decreases slots.len(),
{
    if slots.len() > 0 && !has_node(slots, node_id) {
        let head = slots.drop_last();
        if has_node(head, node_id) {
            let m = choose|m: int| 0 <= m < head.len() && (#[trigger] head[m]).0 == node_id;
            assert(slots[m].0 == node_id);
        }
        lemma_no_slots(head, node_id);
        assert(slots[slots.len() - 1].0 != node_id);
    }
}

// ---- laws ----

/// A member that joins gets slots behind all others.
proof fn lemma_join_indices(slots: Seq<Slot>, node_id: NodeId, thread_count: u32)
    ensures
        forall|i: int|
            0 <= i < slots.len() ==> #[trigger] (slots + member_slots(node_id, thread_count))[i]
                == slots[i],
        forall|i: int|
            slots.len() <= i < slots.len() + thread_count ==> (#[trigger] (slots + member_slots(
                node_id,
                thread_count,
            ))[i]) == (node_id, ThreadId((i - slots.len()) as u32)),
{
}

/// A join moves a datum only to a slot that it added.
pub proof fn law_join_moves_only_to_new_slots(
    slots: Seq<Slot>,
    node_id: NodeId,
    thread_count: u32,
    id: DatumId,
)
    requires
        slots.len() > 0,
        slots.len() + thread_count <= u32::MAX,
    ensures
        ({
            let (node, thread) = home(slots + member_slots(node_id, thread_count), id);
            (node, thread) == home(slots, id) || (node == node_id && thread.0 < thread_count)
        }),
{
    let after = slots + member_slots(node_id, thread_count);
    let n = slots.len() as u32;
    let m = after.len() as u32;
    law_more_buckets(key_of(id), n, m);
    law_bucket_in_range(key_of(id), n);
    law_bucket_in_range(key_of(id), m);
    lemma_join_indices(slots, node_id, thread_count);
}

/// Dropping a slot moves a datum only off that slot or off the last one, which
/// takes its place.
pub proof fn law_dropped_slot_moves_few(slots: Seq<Slot>, i: int, id: DatumId)
    requires
        1 < slots.len() <= u32::MAX,
        0 <= i < slots.len(),
    ensures
        ({
            let b = jump_back(key_of(id), slots.len() as u32);
            b != i && b != slots.len() - 1 ==> home(dropped(slots, i), id) == home(slots, id)
        }),
{
    let n = (slots.len() - 1) as u32;
    law_one_more_bucket(key_of(id), n);
    law_bucket_in_range(key_of(id), (n + 1) as u32);
}

/// The slots that are not of a node.
pub open spec fn others(slots: Seq<Slot>, node_id: NodeId) -> Multiset<Slot> {
    slots.to_multiset().filter(|s: Slot| s.0 != node_id)
}

proof fn lemma_dropped_multiset(slots: Seq<Slot>, i: int)
    requires
        0 <= i < slots.len(),
    ensures
        dropped(slots, i).to_multiset() == slots.to_multiset().remove(slots[i]),
{
    broadcast use vstd::seq_lib::group_to_multiset_ensures;

    let n = slots.len();
    let head = slots.drop_last();
    assert(slots =~= head.push(slots.last()));
    if i == n - 1 {
        assert(dropped(slots, i) =~= head);
        assert(slots.to_multiset() =~= head.to_multiset().insert(slots.last()));
        assert(dropped(slots, i).to_multiset() =~= slots.to_multiset().remove(slots[i]));
    } else {
        assert(dropped(slots, i) =~= head.update(i, slots.last()));
        assert(head.to_multiset().contains(head[i]));
        vstd::seq_lib::to_multiset_update(head, i, slots.last());
        assert(dropped(slots, i).to_multiset() =~= slots.to_multiset().remove(slots[i]));
    }
}

proof fn lemma_left_from(slots: Seq<Slot>, node_id: NodeId, i: int)
    requires
        0 <= i <= slots.len(),
        forall|j: int| 0 <= j < i ==> (#[trigger] slots[j]).0 != node_id,
    ensures
        !has_node(left_from(slots, node_id, i), node_id),
        left_from(slots, node_id, i).to_multiset() == others(slots, node_id),
        left_from(slots, node_id, i).len() <= slots.len(),
        i <= left_from(slots, node_id, i).len(),
        forall|j: int|
            0 <= j < left_from(slots, node_id, i).len() && (#[trigger] slots[j]).0 != node_id
                ==> left_from(slots, node_id, i)[j] == slots[j],
    decreases slots.len() - i,
{
    broadcast use vstd::seq_lib::group_to_multiset_ensures;

    if i == slots.len() {
        assert forall|s: Slot| slots.to_multiset().count(s) == others(slots, node_id).count(s) by {
            if s.0 == node_id && slots.to_multiset().count(s) > 0 {
                assert(slots.contains(s));
            }
        }
        assert(slots.to_multiset() =~= others(slots, node_id));
    } else if slots[i].0 == node_id {
        let d = dropped(slots, i);
        lemma_dropped_multiset(slots, i);
        lemma_left_from(d, node_id, i);
        assert(others(d, node_id) =~= others(slots, node_id));
        let l = left_from(slots, node_id, i);
        assert forall|j: int| 0 <= j < l.len() && (#[trigger] slots[j]).0 != node_id implies l[j]
            == slots[j] by {
            assert(d[j] == slots[j]);
        }
    } else {
        lemma_left_from(slots, node_id, i + 1);
    }
}

/// When a node leaves, its slots go and all others stay; those that stay within
/// the shorter ring keep their place.
pub proof fn law_leave(slots: Seq<Slot>, node_id: NodeId)
    ensures
        !has_node(left(slots, node_id), node_id),
        left(slots, node_id).to_multiset() == others(slots, node_id),
        forall|j: int|
            0 <= j < left(slots, node_id).len() && (#[trigger] slots[j]).0 != node_id ==> left(
                slots,
                node_id,
            )[j] == slots[j],
{
    lemma_left_from(slots, node_id, 0);
}

/// The leave of a node that has no slot changes nothing.
pub proof fn law_leave_of_stranger(slots: Seq<Slot>, node_id: NodeId)
    requires
        !has_node(slots, node_id),
    ensures
        left(slots, node_id) == slots,
{
    lemma_stranger(slots, node_id, 0);
}

proof fn lemma_stranger(slots: Seq<Slot>, node_id: NodeId, i: int)
    requires
        !has_node(slots, node_id),
        0 <= i <= slots.len(),
    ensures
        left_from(slots, node_id, i) == slots,
    decreases slots.len() - i,
{
    if i < slots.len() {
        assert(slots[i].0 != node_id);
        lemma_stranger(slots, node_id, i + 1);
    }
}

/// The home of a datum is a slot of the ring.
pub proof fn law_home_in_ring(slots: Seq<Slot>, id: DatumId)
    requires
        slots.len() > 0,
    ensures
        slots.contains(home(slots, id)),
{
    lemma_slot_in_range(slots, key_of(id));
}

proof fn lemma_spread(
    slots: Seq<Slot>,
    base: u64,
    chosen: Seq<NodeId>,
    salt: u64,
    tries: nat,
    target: nat,
)
    requires
        slots.len() > 0,
        chosen.len() > 0,
        chosen.len() <= target,
        chosen.no_duplicates(),
        forall|i: int| 0 <= i < chosen.len() ==> has_node(slots, #[trigger] chosen[i]),
    ensures
        ({
            let c = spread(slots, base, chosen, salt, tries, target);
            &&& c.len() <= target
            &&& c.no_duplicates()
            &&& c.len() >= chosen.len()
            &&& c[0] == chosen[0]
            &&& forall|i: int| 0 <= i < c.len() ==> has_node(slots, #[trigger] c[i])
        }),
    decreases tries,
{
    if chosen.len() < target && tries > 0 {
        let key = salted(base, salt);
        let node = slot_for(slots, key).0;
        lemma_slot_in_range(slots, key);
        assert(slots[jump_back(key, prefix(slots.len())) as int].0 == node);
        assert(has_node(slots, node));
        lemma_spread(
            slots,
            base,
            with_node(chosen, node),
            salt.wrapping_add(1),
            (tries - 1) as nat,
            target,
        );
    }
}

proof fn lemma_swept(slots: Seq<Slot>, chosen: Seq<NodeId>, nodes: Seq<NodeId>, target: nat)
    requires
        chosen.len() > 0,
        chosen.len() <= target,
        chosen.no_duplicates(),
        forall|i: int| 0 <= i < chosen.len() ==> has_node(slots, #[trigger] chosen[i]),
        forall|i: int| 0 <= i < nodes.len() ==> has_node(slots, #[trigger] nodes[i]),
    ensures
        ({
            let c = swept(chosen, nodes, target);
            &&& c.len() <= target
            &&& c.no_duplicates()
            &&& c[0] == chosen[0]
            &&& forall|i: int| 0 <= i < c.len() ==> has_node(slots, #[trigger] c[i])
            &&& forall|i: int| 0 <= i < chosen.len() ==> c.contains(#[trigger] chosen[i])
            &&& c.len() < target ==> forall|i: int|
                0 <= i < nodes.len() ==> c.contains(#[trigger] nodes[i])
        }),
    decreases nodes.len(),
{
    let c = swept(chosen, nodes, target);
    if chosen.len() < target && nodes.len() > 0 {
        let next = with_node(chosen, nodes[0]);
        let rest = nodes.skip(1);
        assert forall|i: int| 0 <= i < rest.len() implies has_node(slots, #[trigger] rest[i]) by {
            assert(rest[i] == nodes[i + 1]);
        }
        lemma_swept(slots, next, rest, target);
        assert forall|i: int| 0 <= i < chosen.len() implies c.contains(#[trigger] chosen[i]) by {
            assert(next[i] == chosen[i]);
        }
        if c.len() < target {
            assert(next.contains(nodes[0])) by {
                if !chosen.contains(nodes[0]) {
                    assert(next[chosen.len() as int] == nodes[0]);
                }
            }
            let k = choose|k: int| 0 <= k < next.len() && next[k] == nodes[0];
            assert(c.contains(next[k]));
            assert forall|i: int| 0 <= i < nodes.len() implies c.contains(#[trigger] nodes[i]) by {
                if i > 0 {
                    assert(rest[i - 1] == nodes[i]);
                }
            }
        }
    } else {
        assert forall|i: int| 0 <= i < chosen.len() implies c.contains(#[trigger] chosen[i]) by {}
    }
}

/// A datum has as many replicas as asked for, or as there are nodes: all
/// different, all of the ring, and the node of its home first.
pub proof fn law_replicas(slots: Seq<Slot>, id: DatumId, n: nat)
    requires
        slots.len() > 0,
        n > 0,
    ensures
        replicas_of(slots, id, n)[0] == home(slots, id).0,
        replicas_of(slots, id, n).no_duplicates(),
        forall|i: int|
            0 <= i < replicas_of(slots, id, n).len() ==> has_node(
                slots,
                #[trigger] replicas_of(slots, id, n)[i],
            ),
        replicas_of(slots, id, n).len() == if n < nodes_of(weights_of(slots)).len() {
            n
        } else {
            nodes_of(weights_of(slots)).len()
        },
{
    let nodes = nodes_of(weights_of(slots));
    let target = if n < nodes.len() {
        n
    } else {
        nodes.len()
    };
    let base = key_of(id);
    let first = seq![home(slots, id).0];
    law_weights(slots);
    lemma_slot_in_range(slots, base);
    let b = jump_back(base, prefix(slots.len())) as int;
    assert(slots[b].0 == home(slots, id).0);
    assert(has_node(slots, home(slots, id).0));
    assert(nodes.contains(home(slots, id).0));
    lemma_spread(slots, base, first, 1, max_tries(slots), target);
    let chosen = spread(slots, base, first, 1, max_tries(slots), target);
    assert forall|i: int| 0 <= i < nodes.len() implies has_node(slots, #[trigger] nodes[i]) by {
        assert(nodes.contains(nodes[i]));
    }
    lemma_swept(slots, chosen, nodes, target);
    let c = swept(chosen, nodes, target);
    if c.len() < target {
        nodes.unique_seq_to_set();
        c.unique_seq_to_set();
        assert(nodes.to_set().subset_of(c.to_set())) by {
            assert forall|x: NodeId| nodes.to_set().contains(x) implies c.to_set().contains(x) by {
                let k = choose|k: int| 0 <= k < nodes.len() && nodes[k] == x;
                assert(c.contains(nodes[k]));
            }
        }
        vstd::set_lib::lemma_len_subset(nodes.to_set(), c.to_set());
        assert(false);
    }
}

proof fn lemma_spread_prefix(
    slots: Seq<Slot>,
    base: u64,
    chosen: Seq<NodeId>,
    salt: u64,
    tries: nat,
    fewer: nat,
    target: nat,
)
    requires
        fewer <= target,
    ensures
        ({
            let a = spread(slots, base, chosen, salt, tries, fewer);
            let b = spread(slots, base, chosen, salt, tries, target);
            &&& chosen.is_prefix_of(b)
            &&& a.is_prefix_of(b)
            &&& a.len() < fewer ==> a == b
        }),
    decreases tries,
{
    if chosen.len() < target && tries > 0 {
        let next = with_node(chosen, slot_for(slots, salted(base, salt)).0);
        lemma_spread_prefix(
            slots,
            base,
            next,
            salt.wrapping_add(1),
            (tries - 1) as nat,
            fewer,
            target,
        );
        let b = spread(slots, base, chosen, salt, tries, target);
        assert(chosen =~= b.subrange(0, chosen.len() as int)) by {
            assert forall|i: int| 0 <= i < chosen.len() implies chosen[i] == b[i] by {
                assert(next[i] == chosen[i]);
                assert(b.subrange(0, next.len() as int)[i] == b[i]);
            }
        }
    }
}

proof fn lemma_swept_prefix(
    chosen: Seq<NodeId>,
    nodes: Seq<NodeId>,
    fewer: nat,
    target: nat,
)
    requires
        fewer <= target,
    ensures
        chosen.is_prefix_of(swept(chosen, nodes, target)),
        swept(chosen, nodes, fewer).is_prefix_of(swept(chosen, nodes, target)),
    decreases nodes.len(),
{
    if chosen.len() < target && nodes.len() > 0 {
        let next = with_node(chosen, nodes[0]);
        lemma_swept_prefix(next, nodes.skip(1), fewer, target);
        let b = swept(chosen, nodes, target);
        assert(chosen =~= b.subrange(0, chosen.len() as int)) by {
            assert forall|i: int| 0 <= i < chosen.len() implies chosen[i] == b[i] by {
                assert(next[i] == chosen[i]);
                assert(b.subrange(0, next.len() as int)[i] == b[i]);
            }
        }
    }
}

/// The replicas of a datum with fewer copies are the first of those that it has
/// with more.
pub proof fn law_fewer_replicas_are_the_first(slots: Seq<Slot>, id: DatumId, k: nat, n: nat)
    requires
        k <= n,
    ensures
        replicas_of(slots, id, k).is_prefix_of(replicas_of(slots, id, n)),
        replicas_of(slots, id, k).len() == if k < replicas_of(slots, id, n).len() {
            k
        } else {
            replicas_of(slots, id, n).len()
        },
{
    let all = replicas_of(slots, id, n);
    if slots.len() == 0 || k == 0 {
        assert(replicas_of(slots, id, k) =~= all.subrange(0, 0));
    } else {
        law_replicas(slots, id, k);
        law_replicas(slots, id, n);
        let nodes = nodes_of(weights_of(slots));
        let fewer = if k < nodes.len() {
            k
        } else {
            nodes.len()
        };
        let target = if n < nodes.len() {
            n
        } else {
            nodes.len()
        };
        let first = seq![home(slots, id).0];
        let tries = max_tries(slots);
        lemma_spread_prefix(slots, key_of(id), first, 1, tries, fewer, target);
        let a = spread(slots, key_of(id), first, 1, tries, fewer);
        let b = spread(slots, key_of(id), first, 1, tries, target);
        if a.len() < fewer {
            lemma_swept_prefix(a, nodes, fewer, target);
        } else {
            lemma_swept_prefix(b, nodes, fewer, target);
            assert(a =~= all.subrange(0, a.len() as int)) by {
                assert forall|i: int| 0 <= i < a.len() implies a[i] == all[i] by {
                    assert(a[i] == b.subrange(0, a.len() as int)[i]);
                    assert(b[i] == all.subrange(0, b.len() as int)[i]);
                }
            }
        }
    }
}

/// A single copy is kept by the node of the datum's home.
pub proof fn law_single_replica(slots: Seq<Slot>, id: DatumId)
    requires
        slots.len() > 0,
    ensures
        replicas_of(slots, id, 1) == seq![home(slots, id).0],
{
    law_replicas(slots, id, 1);
    law_weights(slots);
    law_home_in_ring(slots, id);
    let nodes = nodes_of(weights_of(slots));
    let i = choose|i: int| 0 <= i < slots.len() && slots[i] == home(slots, id);
    assert(slots[i].0 == home(slots, id).0);
    assert(has_node(slots, home(slots, id).0));
    assert(nodes.contains(home(slots, id).0));
    assert(replicas_of(slots, id, 1) =~= seq![home(slots, id).0]);
}

proof fn lemma_weights_of_newcomer(slots: Seq<Slot>, node_id: NodeId, thread_count: u32)
    requires
        !has_node(slots, node_id),
    ensures
        weights_of(slots + member_slots(node_id, thread_count)) == if thread_count == 0 {
            weights_of(slots)
        } else {
            weights_of(slots).push((node_id, thread_count))
        },
    decreases thread_count,
{
    let w = weights_of(slots);
    let all = slots + member_slots(node_id, thread_count);
    if thread_count == 0 {
        assert(all =~= slots);
    } else {
        let c = (thread_count - 1) as u32;
        lemma_weights_of_newcomer(slots, node_id, c);
        assert(all.drop_last() =~= slots + member_slots(node_id, c));
        law_weights(slots);
        assert forall|j: int| 0 <= j < w.len() implies (#[trigger] w[j]).0 != node_id by {
            if w[j].0 == node_id {
                assert(nodes_of(w)[j] == node_id);
                assert(nodes_of(w).contains(node_id));
            }
        }
        if c == 0 {
            lemma_counted(w, node_id, w.len() as int);
        } else {
            let v = w.push((node_id, c));
            lemma_counted(v, node_id, w.len() as int);
            assert(v.update(w.len() as int, (node_id, thread_count)) =~= w.push(
                (node_id, thread_count),
            ));
        }
    }
}

/// The nodes of a ring are those that joined it.
pub proof fn lemma_joined_nodes(members: Seq<(NodeId, u32)>, node_id: NodeId)
    requires
        has_node(joined(members), node_id),
    ensures
        exists|i: int| 0 <= i < members.len() && (#[trigger] members[i]).0 == node_id,
    decreases members.len(),
{
    if members.len() > 0 {
        let head = members.drop_last();
        let slots = joined(members);
        let m = choose|m: int| 0 <= m < slots.len() && (#[trigger] slots[m]).0 == node_id;
        if m < joined(head).len() {
            assert(joined(head)[m].0 == node_id);
            lemma_joined_nodes(head, node_id);
            let i = choose|i: int| 0 <= i < head.len() && (#[trigger] head[i]).0 == node_id;
            assert(members[i].0 == node_id);
        } else {
            assert(members[members.len() - 1].0 == node_id);
        }
    }
}

/// The slots that some weights count.
pub open spec fn total_weight(w: Seq<(NodeId, u32)>) -> nat
    decreases w.len(),
{
    if w.len() == 0 {
        0
    } else {
        total_weight(w.drop_last()) + w.last().1 as nat
    }
}

proof fn lemma_total_weight_update(w: Seq<(NodeId, u32)>, i: int, entry: (NodeId, u32))
    requires
        0 <= i < w.len(),
    ensures
        total_weight(w.update(i, entry)) == total_weight(w) - w[i].1 + entry.1,
    decreases w.len(),
{
    let v = w.update(i, entry);
    if i == w.len() - 1 {
        assert(v.drop_last() =~= w.drop_last());
    } else {
        assert(v.drop_last() =~= w.drop_last().update(i, entry));
        lemma_total_weight_update(w.drop_last(), i, entry);
    }
}

/// The weights of a ring count every one of its slots.
pub proof fn law_weights_count_every_slot(slots: Seq<Slot>)
    requires
        slots.len() <= u32::MAX,
    ensures
        total_weight(weights_of(slots)) == slots.len(),
    decreases slots.len(),
{
    if slots.len() > 0 {
        let head = slots.drop_last();
        let last = slots.last().0;
        law_weights_count_every_slot(head);
        law_weights(head);
        let h = weights_of(head);
        let i = lemma_find(h, last);
        lemma_counted(h, last, i);
        if i < h.len() {
            lemma_slot_count_bound(head, last);
            lemma_total_weight_update(h, i, (last, h[i].1.wrapping_add(1)));
            assert(weights_of(slots) =~= h.update(i, (last, h[i].1.wrapping_add(1))));
        } else {
            assert(weights_of(slots).drop_last() =~= h);
        }
    }
}

proof fn lemma_slot_count_bound(slots: Seq<Slot>, node_id: NodeId)
    ensures
        slot_count(slots, node_id) <= slots.len(),
    decreases slots.len(),
{
    if slots.len() > 0 {
        lemma_slot_count_bound(slots.drop_last(), node_id);
    }
}

/// A member that joins a ring of others has, in the ring's weights, as many
/// slots as threads, and stands last.
pub proof fn law_weights_of_newcomer(
    members: Seq<(NodeId, u32)>,
    node_id: NodeId,
    thread_count: u32,
)
    requires
        thread_count > 0,
        forall|i: int| 0 <= i < members.len() ==> (#[trigger] members[i]).0 != node_id,
    ensures
        weights_of(joined(members.push((node_id, thread_count)))) == weights_of(
            joined(members),
        ).push((node_id, thread_count)),
{
    let all = members.push((node_id, thread_count));
    assert(all.drop_last() =~= members);
    if has_node(joined(members), node_id) {
        lemma_joined_nodes(members, node_id);
        let i = choose|i: int| 0 <= i < members.len() && (#[trigger] members[i]).0 == node_id;
        assert(members[i].0 != node_id);
    }
    lemma_weights_of_newcomer(joined(members), node_id, thread_count);
}

/// A ring of different members is built again, slot for slot, from its weights.
pub proof fn law_weights_rebuild_ring(members: Seq<(NodeId, u32)>)
    requires
        nodes_of(members).no_duplicates(),
    ensures
        joined(weights_of(joined(members))) == joined(members),
    decreases members.len(),
{
    if members.len() > 0 {
        let head = members.drop_last();
        let (node_id, thread_count) = members.last();
        assert forall|i: int, j: int|
            0 <= i < nodes_of(head).len() && 0 <= j < nodes_of(head).len() && i != j implies nodes_of(
            head,
        )[i] != nodes_of(head)[j] by {
            assert(nodes_of(head)[i] == nodes_of(members)[i]);
            assert(nodes_of(head)[j] == nodes_of(members)[j]);
        }
        law_weights_rebuild_ring(head);
        if has_node(joined(head), node_id) {
            lemma_joined_nodes(head, node_id);
            let i = choose|i: int| 0 <= i < head.len() && (#[trigger] head[i]).0 == node_id;
            assert(nodes_of(members)[i] == node_id);
            assert(nodes_of(members)[members.len() - 1] == node_id);
        }
        lemma_weights_of_newcomer(joined(head), node_id, thread_count);
        let w = weights_of(joined(head));
        if thread_count == 0 {
            assert(joined(members) =~= joined(head));
        } else {
            assert(w.push((node_id, thread_count)).drop_last() =~= w);
        }
    }
}

impl Ring {
    pub fn empty() -> (ring: Self)
        ensures
            ring@ == Seq::<Slot>::empty(),
    {
        Self { slots: Vec::new() }
    }

    /// Appends a slot for each thread of a node.
    pub fn apply_join(&mut self, node_id: NodeId, thread_count: u32)
        ensures
            final(self)@ == old(self)@ + member_slots(node_id, thread_count),
    {
        let mut t: u32 = 0;
        while t < thread_count
            invariant
                t <= thread_count,
                self.slots@ == old(self).slots@ + member_slots(node_id, t),
            decreases thread_count - t,
        {
            self.slots.push((node_id, ThreadId(t)));
            t = t + 1;
        }
    }

    /// The ring of members that join in the given order.
    pub fn from_members(members: &[(NodeId, u32)]) -> (ring: Self)
        ensures
            ring@ == joined(members@),
    {
        let mut ring = Self::empty();
        let mut i: usize = 0;
        while i < members.len()
            invariant
                i <= members.len(),
                ring@ == joined(members@.take(i as int)),
            decreases members.len() - i,
        {
            let (node_id, thread_count) = members[i];
            ring.apply_join(node_id, thread_count);
            assert(members@.take(i + 1).drop_last() =~= members@.take(i as int));
            i = i + 1;
        }
        assert(members@.take(i as int) =~= members@);
        ring
    }

    /// Removes the slots of a node, each by moving the last slot into its
    /// place.
    pub fn apply_leave(&mut self, node_id: NodeId)
        ensures
            final(self)@ == left(old(self)@, node_id),
    {
        let mut i: usize = 0;
        while i < self.slots.len()
            invariant
                i <= self.slots.len(),
                left_from(self.slots@, node_id, i as int) == left(old(self).slots@, node_id),
            decreases self.slots.len() - i,
        {
            if self.slots[i].0 == node_id {
                let ghost before = self.slots@;
                self.slots.swap_remove(i);
                assert(self.slots@ =~= dropped(before, i as int));
            } else {
                i = i + 1;
            }
        }
    }

    /// Whether a node has a slot.
    pub fn contains(&self, node_id: NodeId) -> (found: bool)
        ensures
            found == has_node(self@, node_id),
    {
        let mut i: usize = 0;
        while i < self.slots.len()
            invariant
                i <= self.slots.len(),
                forall|j: int| 0 <= j < i ==> (#[trigger] self.slots@[j]).0 != node_id,
            decreases self.slots.len() - i,
        {
            if self.slots[i].0 == node_id {
                return true;
            }
            i = i + 1;
        }
        false
    }

    /// The nodes in the order of their first slots, with how many slots each
    /// has.
    pub fn weights(&self) -> (w: Vec<(NodeId, u32)>)
        ensures
            w@ == weights_of(self@),
    {
        let mut w: Vec<(NodeId, u32)> = Vec::new();
        let mut i: usize = 0;
        while i < self.slots.len()
            invariant
                i <= self.slots.len(),
                w@ == weights_of(self.slots@.take(i as int)),
            decreases self.slots.len() - i,
        {
            let node_id = self.slots[i].0;
            let mut j: usize = 0;
            while j < w.len() && w[j].0 != node_id
                invariant
                    j <= w.len(),
                    forall|k: int| 0 <= k < j ==> (#[trigger] w@[k]).0 != node_id,
                decreases w.len() - j,
            {
                j = j + 1;
            }
            proof {
                lemma_counted(w@, node_id, j as int);
                let upto = self.slots@.take(i + 1);
                assert(upto.drop_last() =~= self.slots@.take(i as int));
            }
            if j < w.len() {
                let count: u32 = w[j].1.wrapping_add(1);
                w.set(j, (node_id, count));
            } else {
                w.push((node_id, 1));
            }
            i = i + 1;
        }
        assert(self.slots@.take(i as int) =~= self.slots@);
        w
    }

    /// The nodes in the order of their first slots.
    pub fn node_ids(&self) -> (nodes: Vec<NodeId>)
        ensures
            nodes@ == nodes_of(weights_of(self@)),
    {
        let w = self.weights();
        let mut nodes: Vec<NodeId> = Vec::new();
        let mut i: usize = 0;
        while i < w.len()
            invariant
                i <= w.len(),
                nodes@ == nodes_of(w@).take(i as int),
            decreases w.len() - i,
        {
            nodes.push(w[i].0);
            i = i + 1;
        }
        nodes
    }

    /// The slot that a key hashes to.
    fn slot(&self, hasher: &mut JumpBackHasher, key: u64) -> (slot: (NodeId, ThreadId))
        requires
            self@.len() > 0,
        ensures
            slot == slot_for(self@, key),
    {
        let n: u32 = #[verifier::truncate]
        (self.slots.len() as u32);
        let i: u32 = hasher.hash(key, n);
        proof {
            lemma_slot_in_range(self@, key);
        }
        self.slots[i as usize]
    }

    /// Up to `n` different nodes that keep a datum, the node of its home first.
    pub fn replicas(&self, datum_id: DatumId, n: usize) -> (chosen: Vec<NodeId>)
        ensures
            chosen@ == replicas_of(self@, datum_id, n as nat),
    {
        if self.slots.len() == 0 || n == 0 {
            return Vec::new();
        }
        let nodes = self.node_ids();
        let target: usize = if n < nodes.len() {
            n
        } else {
            nodes.len()
        };
        let base: u64 = hash_key(datum_id);
        let mut hasher = JumpBackHasher::new();
        let mut chosen: Vec<NodeId> = Vec::new();
        chosen.push(self.slot(&mut hasher, base).0);
        let ghost first = seq![home(self@, datum_id).0];
        assert(chosen@ =~= first);
        let mut salt: u64 = 1;
        let cap: u128 = self.slots.len() as u128 * 3 + 32;
        let mut attempts: u128 = 0;
        while chosen.len() < target && attempts < cap
            invariant
                attempts <= cap,
                self@.len() > 0,
                cap == max_tries(self@),
                base == key_of(datum_id),
                spread(self@, base, first, 1, max_tries(self@), target as nat) == spread(
                    self@,
                    base,
                    chosen@,
                    salt,
                    (cap - attempts) as nat,
                    target as nat,
                ),
            decreases cap - attempts,
        {
            let key: u64 = base.wrapping_add(salt.wrapping_mul(GOLDEN_GAMMA));
            let node = self.slot(&mut hasher, key).0;
            add_node(&mut chosen, node);
            salt = salt.wrapping_add(1);
            attempts = attempts + 1;
        }
        let ghost spread_out = chosen@;
        let mut i: usize = 0;
        assert(nodes@.skip(0) =~= nodes@);
        while i < nodes.len() && chosen.len() < target
            invariant
                i <= nodes.len(),
                swept(spread_out, nodes@, target as nat) == swept(
                    chosen@,
                    nodes@.skip(i as int),
                    target as nat,
                ),
            decreases nodes.len() - i,
        {
            assert(nodes@.skip(i as int).skip(1) =~= nodes@.skip(i + 1));
            add_node(&mut chosen, nodes[i]);
            i = i + 1;
        }
        chosen
    }

    /// The home of a datum. A ring without slots has none.
    pub fn native(&self, datum_id: DatumId) -> (slot: (NodeId, ThreadId))
        requires
            self@.len() > 0,
        ensures
            slot == home(self@, datum_id),
    {
        let mut hasher = JumpBackHasher::new();
        self.slot(&mut hasher, hash_key(datum_id))
    }

    /// Whether the ring has no slots.
    pub fn is_empty(&self) -> (b: bool)
        ensures
            b == (self@.len() == 0),
    {
        self.slots.len() == 0
    }
}

/// Appends a node to those chosen, unless it is among them.
fn add_node(chosen: &mut Vec<NodeId>, node: NodeId)
    ensures
        final(chosen)@ == with_node(old(chosen)@, node),
{
    let mut i: usize = 0;
    while i < chosen.len()
        invariant
            i <= chosen.len(),
            chosen@ == old(chosen)@,
            forall|j: int| 0 <= j < i ==> chosen@[j] != node,
        decreases chosen.len() - i,
    {
        if chosen[i] == node {
            return ;
        }
        i = i + 1;
    }
    chosen.push(node);
}

fn hash_key(datum_id: DatumId) -> (key: u64)
    ensures
        key == key_of(datum_id),
{
    let b: [u8; 16] = datum_id.as_bytes();
    let tail = rest_of(array_as_slice(&b), 8);
    assert(tail@.take(8) =~= tail@);
    match take_u64(tail) {
        Ok((key, _)) => key,
        Err(_) => 0,
    }
}

} // verus!
