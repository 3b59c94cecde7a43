//! The keys of ordered maps, as lists.

use std::collections::BTreeMap;
use vstd::laws_cmp::obeys_cmp;
use vstd::prelude::*;
use vstd::std_specs::btree::{axiom_increasing_seq_meaning, spec_keys_iter};
use vstd::std_specs::cmp::OrdSpec;
use vstd::std_specs::iter::IteratorSpec;

verus! {

broadcast use {vstd::std_specs::btree::group_btree_axioms, vstd::laws_cmp::group_laws_cmp};

/// Whether numbers stand in strictly ascending order.
pub open spec fn ascending(keys: Seq<u64>) -> bool {
    forall|i: int, j: int| 0 <= i < j < keys.len() ==> keys[i] < keys[j]
}

/// Whether wide numbers stand in strictly ascending order.
pub open spec fn ascending_wide(keys: Seq<u128>) -> bool {
    forall|i: int, j: int| 0 <= i < j < keys.len() ==> keys[i] < keys[j]
}

/// The keys of a map, in ascending order.
pub fn sorted_keys<V>(m: &BTreeMap<u64, V>) -> (keys: Vec<u64>)
    ensures
        ascending(keys@),
        forall|k: u64| keys@.contains(k) <==> m@.contains_key(k),
{
    let mut keys: Vec<u64> = Vec::new();
    for k in it: m.keys()
        invariant
            it.seq() == spec_keys_iter(m).remaining(),
            keys@.len() == it.index(),
            forall|i: int| 0 <= i < keys@.len() ==> keys@[i] == *it.seq()[i],
    {
        keys.push(*k);
    }
    let ghost all = spec_keys_iter(m).remaining();
    assert(all.unref() =~= keys@);
    assert(obeys_cmp::<&u64>());
    proof {
        axiom_increasing_seq_meaning::<&u64>(all);
    }
    assert forall|i: int, j: int| 0 <= i < j < keys@.len() implies keys@[i] < keys@[j] by {
        assert(OrdSpec::cmp_spec(&all[i], &all[j]) is Less);
    }
    assert forall|k: u64| keys@.contains(k) <==> m@.contains_key(k) by {
        assert(keys@.to_set().contains(k) <==> keys@.contains(k));
    }
    keys
}

/// The keys of a map with wide keys, in ascending order.
pub fn sorted_wide_keys<V>(m: &BTreeMap<u128, V>) -> (keys: Vec<u128>)
    ensures
        ascending_wide(keys@),
        forall|k: u128| keys@.contains(k) <==> m@.contains_key(k),
{
    let mut keys: Vec<u128> = Vec::new();
    for k in it: m.keys()
        invariant
            it.seq() == spec_keys_iter(m).remaining(),
            keys@.len() == it.index(),
            forall|i: int| 0 <= i < keys@.len() ==> keys@[i] == *it.seq()[i],
    {
        keys.push(*k);
    }
    let ghost all = spec_keys_iter(m).remaining();
    assert(all.unref() =~= keys@);
    assert(obeys_cmp::<&u128>());
    proof {
        axiom_increasing_seq_meaning::<&u128>(all);
    }
    assert forall|i: int, j: int| 0 <= i < j < keys@.len() implies keys@[i] < keys@[j] by {
        assert(OrdSpec::cmp_spec(&all[i], &all[j]) is Less);
    }
    assert forall|k: u128| keys@.contains(k) <==> m@.contains_key(k) by {
        assert(keys@.to_set().contains(k) <==> keys@.contains(k));
    }
    keys
}

/// The ascending list of the keys of a finite map is unique.
pub proof fn lemma_sorted_keys_unique(a: Seq<u128>, b: Seq<u128>)
    requires
        ascending_wide(a),
        ascending_wide(b),
        forall|k: u128| a.contains(k) <==> b.contains(k),
    ensures
        a == b,
    decreases a.len(),
{
    if a.len() == 0 {
        if b.len() > 0 {
            assert(b.contains(b[0]));
        }
        assert(a =~= b);
    } else {
        assert(a.contains(a.last()));
        assert(b.contains(a.last()));
        let j = choose|j: int| 0 <= j < b.len() && b[j] == a.last();
        assert(b.contains(b.last()));
        assert(a.contains(b.last()));
        let i = choose|i: int| 0 <= i < a.len() && a[i] == b.last();
        assert(a.last() == b.last());
        let a1 = a.drop_last();
        let b1 = b.drop_last();
        assert forall|k: u128| a1.contains(k) <==> b1.contains(k) by {
            if a1.contains(k) {
                let p = choose|p: int| 0 <= p < a1.len() && a1[p] == k;
                assert(a.contains(a[p]));
                let q = choose|q: int| 0 <= q < b.len() && b[q] == k;
                assert(q < b1.len());
                assert(b1[q] == k);
            }
            if b1.contains(k) {
                let p = choose|p: int| 0 <= p < b1.len() && b1[p] == k;
                assert(b.contains(b[p]));
                let q = choose|q: int| 0 <= q < a.len() && a[q] == k;
                assert(q < a1.len());
                assert(a1[q] == k);
            }
        }
        lemma_sorted_keys_unique(a1, b1);
        assert(a =~= a1.push(a.last()));
        assert(b =~= b1.push(b.last()));
    }
}

} // verus!
