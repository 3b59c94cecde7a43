//! Where datums are kept for good.

use crate::bytes::copy_of;
use crate::datum::DatumId;
use crate::store_wire::optional_bytes;
use std::collections::BTreeMap;
use vstd::prelude::*;

verus! {

broadcast use {vstd::std_specs::btree::group_btree_axioms, vstd::laws_cmp::group_laws_cmp};

/// A call of a store, with what it returned. `n` is the datum's replication
/// factor, `previous` what the caller says that the datum was.
pub enum StoreCall {
    Get { id: DatumId, n: u16, found: Option<Seq<u8>> },
    Put { id: DatumId, content: Seq<u8>, previous: Option<Seq<u8>>, n: u16 },
    Delete { id: DatumId, n: u16 },
}

/// What a store holds that started empty and alone heard these calls.
pub open spec fn replay(calls: Seq<StoreCall>) -> Map<u128, Seq<u8>>
    decreases calls.len(),
{
    if calls.len() == 0 {
        Map::empty()
    } else {
        let before = replay(calls.drop_last());
        match calls.last() {
            StoreCall::Get { .. } => before,
            StoreCall::Put { id, content, .. } => before.insert(id.rank(), content),
            StoreCall::Delete { id, .. } => before.remove(id.rank()),
        }
    }
}

/// Bytes that may be missing.
pub open spec fn optional_slice(bytes: Option<&[u8]>) -> Option<Seq<u8>> {
    match bytes {
        Some(b) => Some(b@),
        None => None,
    }
}

/// Calls of a store, the first first.
pub type StoreCalls = Seq<StoreCall>;

/// A place where datums are kept. Nothing is promised of what a read returns:
/// a store may be shared with others, or be far away. What is promised is that
/// the calls reach it, in order.
pub trait Store: Sized {
    /// The calls made so far. Only proofs speak of them: no code calls this.
    spec fn calls(&self) -> StoreCalls;

    /// Reads a datum of which there are `n` copies.
    fn get_replicated(&mut self, id: DatumId, n: u16) -> (found: Option<Vec<u8>>)
        ensures
            final(self).calls() == old(self).calls().push(
                StoreCall::Get { id, n, found: optional_bytes(found) },
            ),
    ;

    /// Writes a datum of which there are to be `n` copies.
    fn put_replicated(&mut self, id: DatumId, content: Vec<u8>, n: u16)
        ensures
            final(self).calls() == old(self).calls().push(
                StoreCall::Put { id, content: content@, previous: None, n },
            ),
    ;

    fn delete_replicated(&mut self, id: DatumId, n: u16)
        ensures
            final(self).calls() == old(self).calls().push(StoreCall::Delete { id, n }),
    ;

    /// Writes a datum whose previous content the caller may know, from which a
    /// distant store can work out a smaller message. A store that has no use for
    /// it does what it does without.
    fn put_with_previous_replicated(
        &mut self,
        id: DatumId,
        content: Vec<u8>,
        previous: Option<&[u8]>,
        n: u16,
    )
        ensures
            final(self).calls() == old(self).calls().push(
                StoreCall::Put { id, content: content@, previous: optional_slice(previous), n },
            ),
    ;

    /// Reads a datum of which there is one copy.
    fn get(&mut self, id: DatumId) -> (found: Option<Vec<u8>>)
        ensures
            final(self).calls() == old(self).calls().push(
                StoreCall::Get { id, n: 1, found: optional_bytes(found) },
            ),
    {
        self.get_replicated(id, 1)
    }

    /// Writes a datum of which there is one copy.
    fn put(&mut self, id: DatumId, content: Vec<u8>)
        ensures
            final(self).calls() == old(self).calls().push(
                StoreCall::Put { id, content: content@, previous: None, n: 1 },
            ),
    {
        self.put_replicated(id, content, 1);
    }

    fn delete(&mut self, id: DatumId)
        ensures
            final(self).calls() == old(self).calls().push(StoreCall::Delete { id, n: 1 }),
    {
        self.delete_replicated(id, 1);
    }

    fn put_with_previous(&mut self, id: DatumId, content: Vec<u8>, previous: Option<&[u8]>)
        ensures
            final(self).calls() == old(self).calls().push(
                StoreCall::Put { id, content: content@, previous: optional_slice(previous), n: 1 },
            ),
    {
        self.put_with_previous_replicated(id, content, previous, 1);
    }
}

/// Byte contents, viewed.
pub open spec fn contents_view(m: Map<u128, Vec<u8>>) -> Map<u128, Seq<u8>> {
    Map::new(|k: u128| m.contains_key(k), |k: u128| m[k]@)
}

/// What a map of contents has under a key.
pub open spec fn lookup(m: Map<u128, Seq<u8>>, id: DatumId) -> Option<Seq<u8>> {
    if m.contains_key(id.rank()) {
        Some(m[id.rank()])
    } else {
        None
    }
}

/// A store in memory, which keeps one copy whatever the replication factor.
pub struct InMemoryStore {
    data: BTreeMap<u128, Vec<u8>>,
    history: Ghost<Seq<StoreCall>>,
}

impl InMemoryStore {
    /// What the store holds, by the rank of the id.
    pub closed spec fn contents(self) -> Map<u128, Seq<u8>> {
        contents_view(self.data@)
    }

    /// What the store holds is what the calls left in it.
    pub open spec fn wf(self) -> bool {
        self.contents() == replay(self.calls())
    }

    pub fn new() -> (store: Self)
        ensures
            store.contents() == Map::<u128, Seq<u8>>::empty(),
            store.calls() == Seq::<StoreCall>::empty(),
            store.wf(),
    {
        let store = Self { data: BTreeMap::new(), history: Ghost(Seq::empty()) };
        assert(contents_view(store.data@) =~= Map::empty());
        store
    }
}

impl Default for InMemoryStore {
    fn default() -> (store: Self)
        ensures
            store.contents() == Map::<u128, Seq<u8>>::empty(),
            store.calls() == Seq::<StoreCall>::empty(),
            store.wf(),
    {
        Self::new()
    }
}

impl Store for InMemoryStore {
    closed spec fn calls(&self) -> Seq<StoreCall> {
        self.history@
    }

    fn get_replicated(&mut self, id: DatumId, n: u16) -> (found: Option<Vec<u8>>)
        ensures
            optional_bytes(found) == lookup(old(self).contents(), id),
            final(self).contents() == old(self).contents(),
            old(self).wf() ==> final(self).wf(),
    {
        let found = match self.data.get(&id.as_rank()) {
            None => None,
            Some(content) => Some(copy_of(content.as_slice())),
        };
        let ghost now = self.history@.push(StoreCall::Get { id, n, found: optional_bytes(found) });
        assert(now.drop_last() =~= self.history@);
        self.history = Ghost(now);
        found
    }

    fn put_replicated(&mut self, id: DatumId, content: Vec<u8>, n: u16)
        ensures
            final(self).contents() == old(self).contents().insert(id.rank(), content@),
            old(self).wf() ==> final(self).wf(),
    {
        self.put_with_previous_replicated(id, content, None, n);
    }

    fn put_with_previous_replicated(
        &mut self,
        id: DatumId,
        content: Vec<u8>,
        previous: Option<&[u8]>,
        n: u16,
    )
        ensures
            final(self).contents() == old(self).contents().insert(id.rank(), content@),
            old(self).wf() ==> final(self).wf(),
    {
        let ghost now = self.history@.push(
            StoreCall::Put { id, content: content@, previous: optional_slice(previous), n },
        );
        let ghost before = contents_view(self.data@);
        assert(now.drop_last() =~= self.history@);
        let ghost c = content@;
        self.data.insert(id.as_rank(), content);
        self.history = Ghost(now);
        assert(contents_view(self.data@) =~= before.insert(id.rank(), c));
    }

    fn delete_replicated(&mut self, id: DatumId, n: u16)
        ensures
            final(self).contents() == old(self).contents().remove(id.rank()),
            old(self).wf() ==> final(self).wf(),
    {
        let ghost now = self.history@.push(StoreCall::Delete { id, n });
        let ghost before = contents_view(self.data@);
        assert(now.drop_last() =~= self.history@);
        self.data.remove(&id.as_rank());
        self.history = Ghost(now);
        assert(contents_view(self.data@) =~= before.remove(id.rank()));
    }
}

} // verus!
