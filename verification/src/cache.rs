//! A thread's working copies of the datums it owns. Every change goes to the
//! store before it is acknowledged, so that a copy can be dropped at any time.

use crate::authority::NodeId;
use crate::bytes::copy_of;
use crate::datum::{law_rank_of_rank, DatumId};
use crate::maps::{ascending_wide, sorted_wide_keys};
use crate::ring::{home, Ring, Slot};
use crate::store::{contents_view, lookup, Store, StoreCall};
use crate::store_wire::optional_bytes;
use std::collections::BTreeMap;
use vstd::prelude::*;

verus! {

broadcast use {vstd::std_specs::btree::group_btree_axioms, vstd::laws_cmp::group_laws_cmp};

/// The mathematical content of a [`Cache`]: the copies, by the rank of the id,
/// and the calls of the store.
pub struct CacheModel {
    pub entries: Map<u128, Seq<u8>>,
    pub calls: Seq<StoreCall>,
}

impl CacheModel {
    /// The cache after a read that returned `found`: it has the copy, and the
    /// store was asked only where it had none.
    pub open spec fn after_get(self, id: DatumId, n: u16, found: Option<Seq<u8>>) -> CacheModel {
        if self.entries.contains_key(id.rank()) {
            self
        } else {
            CacheModel {
                entries: match found {
                    Some(content) => self.entries.insert(id.rank(), content),
                    None => self.entries,
                },
                calls: self.calls.push(StoreCall::Get { id, n, found }),
            }
        }
    }

    /// The cache after a write. The store is told what the datum was, where
    /// there is a copy of that.
    pub open spec fn after_put(self, id: DatumId, content: Seq<u8>, n: u16) -> CacheModel {
        CacheModel {
            entries: self.entries.insert(id.rank(), content),
            calls: self.calls.push(
                StoreCall::Put { id, content, previous: lookup(self.entries, id), n },
            ),
        }
    }

    pub open spec fn after_delete(self, id: DatumId, n: u16) -> CacheModel {
        CacheModel {
            entries: self.entries.remove(id.rank()),
            calls: self.calls.push(StoreCall::Delete { id, n }),
        }
    }

    /// The cache with only the copies of datums whose home in a ring is a node.
    pub open spec fn at_home(self, slots: Seq<Slot>, node: NodeId) -> CacheModel {
        CacheModel {
            entries: self.entries.restrict(
                Set::new(|k: u128| home(slots, DatumId::of_rank(k)).0 == node),
            ),
            ..self
        }
    }

    /// The cache without its copy of a datum.
    pub open spec fn without(self, id: DatumId) -> CacheModel {
        CacheModel { entries: self.entries.remove(id.rank()), ..self }
    }
}

/// Copies of datums in front of a store.
pub struct Cache<S: Store> {
    store: S,
    entries: BTreeMap<u128, Vec<u8>>,
}

impl<S: Store> View for Cache<S> {
    type V = CacheModel;

    closed spec fn view(&self) -> CacheModel {
        CacheModel { entries: contents_view(self.entries@), calls: self.store.calls() }
    }
}

impl<S: Store> Cache<S> {
    /// The store behind the cache.
    pub closed spec fn backing(self) -> S {
        self.store
    }

    pub fn new(store: S) -> (cache: Self)
        ensures
            cache@ == (CacheModel { entries: Map::empty(), calls: store.calls() }),
            cache.backing() == store,
    {
        let cache = Self { store, entries: BTreeMap::new() };
        assert(cache@.entries =~= Map::empty());
        cache
    }

    /// The store behind the cache.
    pub fn store(&mut self) -> (store: &mut S)
        ensures
            *store == old(self).backing(),
            final(self).backing() == *final(store),
            final(self)@ == (CacheModel { calls: final(store).calls(), ..old(self)@ }),
    {
        &mut self.store
    }

    /// The content of a datum of which there is one copy.
    pub fn get(&mut self, id: DatumId) -> (found: Option<Vec<u8>>)
        ensures
            final(self)@ == old(self)@.after_get(id, 1, optional_bytes(found)),
            old(self)@.entries.contains_key(id.rank()) ==> optional_bytes(found) == lookup(
                old(self)@.entries,
                id,
            ),
    {
        self.get_replicated(id, 1)
    }

    /// The content of a datum of which there are `n` copies: this cache's where
    /// it has one, else the store's.
    pub fn get_replicated(&mut self, id: DatumId, n: u16) -> (found: Option<Vec<u8>>)
        ensures
            final(self)@ == old(self)@.after_get(id, n, optional_bytes(found)),
            old(self)@.entries.contains_key(id.rank()) ==> optional_bytes(found) == lookup(
                old(self)@.entries,
                id,
            ),
    {
        if let Some(content) = self.entries.get(&id.as_rank()) {
            return Some(copy_of(content.as_slice()));
        }
        match self.store.get_replicated(id, n) {
            None => None,
            Some(loaded) => {
                self.entries.insert(id.as_rank(), copy_of(loaded.as_slice()));
                assert(self@.entries =~= old(self)@.entries.insert(id.rank(), loaded@));
                Some(loaded)
            },
        }
    }

    /// Writes a datum of which there is one copy.
    pub fn put(&mut self, id: DatumId, content: Vec<u8>)
        ensures
            final(self)@ == old(self)@.after_put(id, content@, 1),
    {
        self.put_replicated(id, content, 1);
    }

    /// Writes a datum of which there are to be `n` copies: to the store, then
    /// to the cache.
    pub fn put_replicated(&mut self, id: DatumId, content: Vec<u8>, n: u16)
        ensures
            final(self)@ == old(self)@.after_put(id, content@, n),
    {
        let ghost c = content@;
        let previous = match self.entries.get(&id.as_rank()) {
            Some(copy) => Some(copy.as_slice()),
            None => None,
        };
        self.store.put_with_previous_replicated(id, copy_of(content.as_slice()), previous, n);
        self.entries.insert(id.as_rank(), content);
        assert(self@.entries =~= old(self)@.entries.insert(id.rank(), c));
    }

    pub fn delete(&mut self, id: DatumId)
        ensures
            final(self)@ == old(self)@.after_delete(id, 1),
    {
        self.delete_replicated(id, 1);
    }

    /// Deletes a datum: from the store, then from the cache.
    pub fn delete_replicated(&mut self, id: DatumId, n: u16)
        ensures
            final(self)@ == old(self)@.after_delete(id, n),
    {
        self.store.delete_replicated(id, n);
        self.entries.remove(&id.as_rank());
        assert(self@.entries =~= old(self)@.entries.remove(id.rank()));
    }

    /// Drops the copy of a datum. The store is not touched.
    pub fn invalidate(&mut self, id: DatumId)
        ensures
            final(self)@ == old(self)@.without(id),
    {
        self.entries.remove(&id.as_rank());
        assert(self@.entries =~= old(self)@.entries.remove(id.rank()));
    }

    /// Drops the copies of the datums that `is_native` says no to, so that none
    /// outlives the loss of its datum.
    pub fn evict_non_native<F: Fn(DatumId) -> bool>(&mut self, is_native: F)
        requires
            forall|id: DatumId| call_requires(is_native, (id,)),
        ensures
            final(self)@.calls == old(self)@.calls,
            final(self)@.entries.submap_of(old(self)@.entries),
            forall|id: DatumId|
                #[trigger] old(self)@.entries.contains_key(id.rank()) ==> call_ensures(
                    is_native,
                    (id,),
                    final(self)@.entries.contains_key(id.rank()),
                ),
    {
        let keys = sorted_wide_keys(&self.entries);
        let ghost before = self.entries@;
        let mut i: usize = 0;
        assert forall|j: int| 0 <= j < keys.len() implies before.contains_key(
            #[trigger] keys@[j],
        ) by {
            assert(keys@.contains(keys@[j]));
        }
        while i < keys.len()
            invariant
                i <= keys.len(),
                ascending_wide(keys@),
                forall|k: u128| keys@.contains(k) <==> before.contains_key(k),
                forall|id: DatumId| call_requires(is_native, (id,)),
                self.store == old(self).store,
                forall|k: u128|
                    #[trigger] self.entries@.contains_key(k) ==> before.contains_key(k)
                        && self.entries@[k] == before[k],
                forall|j: int|
                    i <= j < keys.len() ==> self.entries@.contains_key(#[trigger] keys@[j]),
                forall|j: int|
                    0 <= j < i ==> call_ensures(
                        is_native,
                        (DatumId::of_rank(keys@[j]),),
                        self.entries@.contains_key(#[trigger] keys@[j]),
                    ),
            decreases keys.len() - i,
        {
            let k: u128 = keys[i];
            let ghost entries0 = self.entries@;
            if !is_native(DatumId::from_rank(k)) {
                self.entries.remove(&k);
                assert(self.entries@ == entries0.remove(k));
            }
            i = i + 1;
        }
        assert forall|id: DatumId|
            #[trigger] old(self)@.entries.contains_key(id.rank()) implies call_ensures(
            is_native,
            (id,),
            self@.entries.contains_key(id.rank()),
        ) by {
            assert(before.contains_key(id.rank()));
            assert(keys@.contains(id.rank()));
            let j = choose|j: int| 0 <= j < keys@.len() && keys@[j] == id.rank();
            crate::datum::lemma_id_len(id);
            crate::datum::law_id_bytes(id, id, id.bytes());
            assert(self.entries@.contains_key(keys@[j]) == self@.entries.contains_key(id.rank()));
        }
    }

    /// Whether there are no copies.
    pub fn is_empty(&self) -> (b: bool)
        ensures
            b == (self@.entries == Map::<u128, Seq<u8>>::empty()),
    {
        let b = self.entries.len() == 0;
        proof {
            if b {
                assert(self@.entries =~= Map::<u128, Seq<u8>>::empty());
            } else if self@.entries == Map::<u128, Seq<u8>>::empty() {
                assert(self.entries@.dom() =~= self@.entries.dom());
            }
        }
        b
    }

    /// Drops the copies of the datums whose home is another node than this one.
    /// The ring must have a slot where there are any.
    pub fn evict_foreign(&mut self, ring: &Ring, self_id: NodeId)
        requires
            old(self)@.entries != Map::<u128, Seq<u8>>::empty() ==> ring@.len() > 0,
        ensures
            final(self)@ == old(self)@.at_home(ring@, self_id),
    {
        if self.is_empty() {
            assert(self@.entries =~= self@.at_home(ring@, self_id).entries);
            return;
        }
        let is_native = |id: DatumId| -> (b: bool)
            requires
                ring@.len() > 0,
            ensures
                b == (home(ring@, id).0 == self_id),
            { ring.native(id).0 == self_id };
        self.evict_non_native(is_native);
        assert forall|k: u128| #[trigger] self@.entries.contains_key(k) <==> old(
            self,
        )@.at_home(ring@, self_id).entries.contains_key(k) by {
            let id = DatumId::of_rank(k);
            law_rank_of_rank(k);
            if old(self)@.entries.contains_key(k) {
                assert(old(self)@.entries.contains_key(id.rank()));
            }
        }
        assert(self@.entries =~= old(self)@.at_home(ring@, self_id).entries);
    }
}

// ---- laws ----

/// A read after a write returns what was written, without asking the store.
pub proof fn law_read_after_write(c: CacheModel, id: DatumId, content: Seq<u8>, n: u16, m: u16)
    ensures
        c.after_put(id, content, n).entries.contains_key(id.rank()),
        lookup(c.after_put(id, content, n).entries, id) == Some(content),
        c.after_put(id, content, n).after_get(id, m, Some(content)) == c.after_put(id, content, n),
{
}

/// A write has reached the store, as the last call, by the time it returns.
pub proof fn law_write_reaches_store(c: CacheModel, id: DatumId, content: Seq<u8>, n: u16)
    ensures
        c.after_put(id, content, n).calls.last() == (StoreCall::Put {
            id,
            content,
            previous: lookup(c.entries, id),
            n,
        }),
        c.after_delete(id, n).calls.last() == (StoreCall::Delete { id, n }),
{
}

/// Once a copy is dropped, or its datum deleted, a read asks the store.
pub proof fn law_dropped_copy_is_reloaded(
    c: CacheModel,
    id: DatumId,
    n: u16,
    found: Option<Seq<u8>>,
)
    ensures
        c.without(id).after_get(id, n, found).calls == c.calls.push(
            StoreCall::Get { id, n, found },
        ),
        c.after_delete(id, n).after_get(id, n, found).calls == c.after_delete(id, n).calls.push(
            StoreCall::Get { id, n, found },
        ),
{
}

} // verus!
