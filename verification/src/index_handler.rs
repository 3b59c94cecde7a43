//! Indexes that a worker keeps open. An index is opened when it is first used,
//! from what is stored for its datum, and stays open.

use crate::cache::{Cache, CacheModel};
use crate::datum::DatumId;
use crate::message::result_view;
use crate::registry::Named;
use crate::response::optional_text;
use crate::store::{lookup, Store};
use crate::store_wire::optional_bytes;
use crate::text::{joined_text, quote, quoted};
use std::collections::BTreeMap;
use vstd::prelude::*;
use vstd::string::*;

verus! {

broadcast use {vstd::std_specs::btree::group_btree_axioms, vstd::laws_cmp::group_laws_cmp};

/// What came of an update of an index.
#[derive(Debug, PartialEq, Eq)]
pub struct IndexApplyOutcome {
    /// Why the update was refused, which leaves the index as it was.
    pub violation: Option<String>,
    /// The new content of the index datum, for an index that is kept as one.
    pub write_through: Option<Vec<u8>>,
}

/// A call of an index, with what came of it.
pub enum IndexCall {
    Apply { payload: Seq<u8>, violation: Option<Seq<char>>, write_through: Option<Seq<u8>> },
    Query { query: Seq<u8>, result: Result<Seq<u8>, Seq<char>> },
    Execute { payload: Seq<u8>, result: Result<Seq<u8>, Seq<char>> },
}

/// Calls of an index, the first first.
pub type IndexCalls = Seq<IndexCall>;

/// An open index. Nothing is promised of what it answers, only that the calls
/// reach it, in order.
pub trait ResidentIndex: Sized {
    /// The calls since it was opened. Only proofs speak of them: no code calls
    /// this.
    spec fn calls(&self) -> IndexCalls;

    fn apply(&mut self, payload: &[u8]) -> (outcome: IndexApplyOutcome)
        ensures
            final(self).calls() == old(self).calls().push(
                IndexCall::Apply {
                    payload: payload@,
                    violation: optional_text(outcome.violation),
                    write_through: optional_bytes(outcome.write_through),
                },
            ),
    ;

    /// Answers a question, or says why not.
    fn query(&mut self, query: &[u8]) -> (result: Result<Vec<u8>, String>)
        ensures
            final(self).calls() == old(self).calls().push(
                IndexCall::Query { query: query@, result: result_view(result) },
            ),
    ;

    /// Carries out a change that has a result, or says why not.
    fn execute(&mut self, payload: &[u8]) -> (result: Result<Vec<u8>, String>)
        ensures
            final(self).calls() == old(self).calls().push(
                IndexCall::Execute { payload: payload@, result: result_view(result) },
            ),
    ;
}

/// The opening of an index: what it is opened from, and what came of it.
pub struct IndexOpening<R> {
    pub target: DatumId,
    pub stored: Option<Seq<u8>>,
    pub opened: Result<R, Seq<char>>,
}

/// A kind of index. Nothing is promised of the indexes it opens, but that no call
/// was made of them.
pub trait IndexKind: Sized {
    type Resident: ResidentIndex;

    /// Whether an opening is one that this kind can make. Only proofs speak of it:
    /// no code calls this.
    spec fn can_open(&self, opening: IndexOpening<Self::Resident>) -> bool;

    /// Opens the index `target`, for which `stored` is stored. What cannot be
    /// understood is an error, and never an empty index.
    fn open(&self, target: DatumId, stored: Option<Vec<u8>>) -> (r: Result<Self::Resident, String>)
        ensures
            self.can_open(
                (IndexOpening {
                    target,
                    stored: optional_bytes(stored),
                    opened: match r {
                        Ok(resident) => Ok(resident),
                        Err(e) => Err(e@),
                    },
                }),
            ),
            r matches Ok(resident) ==> resident.calls() == Seq::<IndexCall>::empty(),
    ;
}

/// Why an index cannot be opened.
pub open spec fn no_kind_text(kind: Seq<char>) -> Seq<char> {
    "no index kind registered for "@ + quoted(kind)
}

/// The kinds of indexes that a node knows.
pub struct IndexKindRegistry<K> {
    kinds: Named<K>,
}

impl<K> View for IndexKindRegistry<K> {
    type V = Map<Seq<char>, K>;

    closed spec fn view(&self) -> Map<Seq<char>, K> {
        self.kinds@
    }
}

impl<K> IndexKindRegistry<K> {
    pub fn new() -> (registry: Self)
        ensures
            registry@ == Map::<Seq<char>, K>::empty(),
    {
        IndexKindRegistry { kinds: Named::new() }
    }

    pub fn register(&mut self, kind: &str, index_kind: K)
        ensures
            final(self)@ == old(self)@.insert(kind@, index_kind),
    {
        self.kinds.register(kind, index_kind);
    }

    /// The kind with a name.
    pub fn get(&self, kind: &str) -> (r: Result<&K, String>)
        ensures
            (match r {
                Ok(k) => self@.contains_key(kind@) && *k == self@[kind@],
                Err(e) => !self@.contains_key(kind@) && e@ == no_kind_text(kind@),
            }),
    {
        match self.kinds.find(kind) {
            Some(k) => Ok(k),
            None => Err(joined_text("no index kind registered for ", quote(kind).as_str())),
        }
    }
}

/// The open indexes of a worker.
pub struct Residents<R> {
    open: BTreeMap<u128, R>,
}

impl<R> View for Residents<R> {
    type V = Map<u128, R>;

    closed spec fn view(&self) -> Map<u128, R> {
        self.open@
    }
}

/// Whether `after` are the open indexes `before` with one more call of one of
/// them.
pub open spec fn called<R: ResidentIndex>(
    before: Map<u128, R>,
    after: Map<u128, R>,
    target: DatumId,
    call: IndexCall,
) -> bool {
    &&& before.contains_key(target.rank())
    &&& after.contains_key(target.rank())
    &&& after == before.insert(target.rank(), after[target.rank()])
    &&& after[target.rank()].calls() == before[target.rank()].calls().push(call)
}

/// The outcome of an attempt to open, viewed.
pub open spec fn attempt_view(r: Result<(), String>) -> Result<(), Seq<char>> {
    match r {
        Ok(()) => Ok(()),
        Err(e) => Err(e@),
    }
}

/// Whether `after` and `d` are the open indexes and the cache once an index is to
/// be open: one that is stays as it is, another is opened by its kind from what
/// the cache has for its datum.
pub open spec fn opened<R: ResidentIndex, K: IndexKind<Resident = R>>(
    kinds: Map<Seq<char>, K>,
    before: Map<u128, R>,
    c: CacheModel,
    target: DatumId,
    kind: Seq<char>,
    r: Result<(), Seq<char>>,
    after: Map<u128, R>,
    d: CacheModel,
) -> bool {
    if before.contains_key(target.rank()) {
        r is Ok && after == before && d == c
    } else if !kinds.contains_key(kind) {
        r == Err::<(), Seq<char>>(no_kind_text(kind)) && after == before && d == c
    } else {
        exists|stored: Option<Seq<u8>>|
            {
                &&& d == #[trigger] c.after_get(target, 1, stored)
                &&& c.entries.contains_key(target.rank()) ==> stored == lookup(c.entries, target)
                &&& match r {
                    Ok(()) => {
                        &&& after.contains_key(target.rank())
                        &&& after == before.insert(target.rank(), after[target.rank()])
                        &&& after[target.rank()].calls() == Seq::<IndexCall>::empty()
                        &&& kinds[kind].can_open(
                            (IndexOpening { target, stored, opened: Ok(after[target.rank()]) }),
                        )
                    },
                    Err(e) => {
                        &&& after == before
                        &&& kinds[kind].can_open(
                            (IndexOpening { target, stored, opened: Err(e) }),
                        )
                    },
                }
            }
    }
}

/// Whether a call of an index went as it should: the index was opened where it
/// was not open, and then called once; where it could not be opened, that is the
/// result.
pub open spec fn used<R: ResidentIndex, K: IndexKind<Resident = R>>(
    kinds: Map<Seq<char>, K>,
    before: Map<u128, R>,
    c: CacheModel,
    target: DatumId,
    kind: Seq<char>,
    call: IndexCall,
    result: Result<Seq<u8>, Seq<char>>,
    after: Map<u128, R>,
    d: CacheModel,
) -> bool {
    exists|r: Result<(), Seq<char>>, mid: Map<u128, R>|
        {
            &&& #[trigger] opened(kinds, before, c, target, kind, r, mid, d)
            &&& match r {
                Ok(()) => called(mid, after, target, call),
                Err(e) => after == mid && result == Err::<Seq<u8>, Seq<char>>(e),
            }
        }
}

/// What an update of an index came to, viewed.
pub struct UpdateModel {
    pub violation: Option<Seq<char>>,
    pub write_through: Option<Seq<u8>>,
}

/// What an attempt to update an index came to, viewed.
pub open spec fn update_view(r: Result<IndexApplyOutcome, String>) -> Result<
    UpdateModel,
    Seq<char>,
> {
    match r {
        Ok(o) => Ok(
            UpdateModel {
                violation: optional_text(o.violation),
                write_through: optional_bytes(o.write_through),
            },
        ),
        Err(e) => Err(e@),
    }
}

/// Whether an update of an index went as it should: the index was opened where it
/// was not open, and then updated once; where it could not be opened, that is the
/// result.
pub open spec fn updated<R: ResidentIndex, K: IndexKind<Resident = R>>(
    kinds: Map<Seq<char>, K>,
    before: Map<u128, R>,
    c: CacheModel,
    target: DatumId,
    kind: Seq<char>,
    payload: Seq<u8>,
    result: Result<UpdateModel, Seq<char>>,
    after: Map<u128, R>,
    d: CacheModel,
) -> bool {
    exists|r: Result<(), Seq<char>>, mid: Map<u128, R>|
        {
            &&& #[trigger] opened(kinds, before, c, target, kind, r, mid, d)
            &&& match (r, result) {
                (Ok(()), Ok(o)) => called(
                    mid,
                    after,
                    target,
                    IndexCall::Apply {
                        payload,
                        violation: o.violation,
                        write_through: o.write_through,
                    },
                ),
                (Err(e), Err(message)) => after == mid && message == e,
                _ => false,
            }
        }
}

impl<R: ResidentIndex> Residents<R> {
    pub fn new() -> (residents: Self)
        ensures
            residents@ == Map::<u128, R>::empty(),
    {
        Residents { open: BTreeMap::new() }
    }

    pub fn is_open(&self, target: DatumId) -> (b: bool)
        ensures
            b == self@.contains_key(target.rank()),
    {
        self.open.contains_key(&target.as_rank())
    }

    /// Opens an index that is not open yet, from what the cache has for its
    /// datum.
    pub fn ensure_open<K: IndexKind<Resident = R>, S: Store>(
        &mut self,
        kinds: &IndexKindRegistry<K>,
        cache: &mut Cache<S>,
        target: DatumId,
        kind: &str,
    ) -> (r: Result<(), String>)
        ensures
            opened(
                kinds@,
                old(self)@,
                old(cache)@,
                target,
                kind@,
                attempt_view(r),
                final(self)@,
                final(cache)@,
            ),
    {
        if self.open.contains_key(&target.as_rank()) {
            assert(self@ =~= self@.insert(target.rank(), self@[target.rank()]));
            return Ok(());
        }
        let k = match kinds.get(kind) {
            Ok(k) => k,
            Err(e) => {
                return Err(e);
            },
        };
        let stored = cache.get(target);
        assert(cache@ == old(cache)@.after_get(target, 1, optional_bytes(stored)));
        match k.open(target, stored) {
            Ok(resident) => {
                self.open.insert(target.as_rank(), resident);
                Ok(())
            },
            Err(e) => Err(e),
        }
    }

    /// Applies an update to an open index.
    pub fn apply(&mut self, target: DatumId, payload: &[u8]) -> (outcome: Option<
        IndexApplyOutcome,
    >)
        ensures
            (match outcome {
                Some(o) => called(
                    old(self)@,
                    final(self)@,
                    target,
                    IndexCall::Apply {
                        payload: payload@,
                        violation: optional_text(o.violation),
                        write_through: optional_bytes(o.write_through),
                    },
                ),
                None => !old(self)@.contains_key(target.rank()) && final(self)@ == old(self)@,
            }),
    {
        let ghost before = self.open@;
        match self.open.remove(&target.as_rank()) {
            Some(mut resident) => {
                let outcome = resident.apply(payload);
                self.open.insert(target.as_rank(), resident);
                assert(self.open@ =~= before.insert(target.rank(), resident));
                Some(outcome)
            },
            None => {
                assert(self.open@ =~= before);
                None
            },
        }
    }

    /// Applies an update to an index, which is opened where it is not open.
    pub fn update<K: IndexKind<Resident = R>, S: Store>(
        &mut self,
        kinds: &IndexKindRegistry<K>,
        cache: &mut Cache<S>,
        target: DatumId,
        kind: &str,
        payload: &[u8],
    ) -> (result: Result<IndexApplyOutcome, String>)
        ensures
            updated(
                kinds@,
                old(self)@,
                old(cache)@,
                target,
                kind@,
                payload@,
                update_view(result),
                final(self)@,
                final(cache)@,
            ),
    {
        let r = self.ensure_open(kinds, cache, target, kind);
        let ghost mid = self@;
        if let Err(e) = r {
            return Err(e);
        }
        assert(mid.contains_key(target.rank()));
        match self.apply(target, payload) {
            Some(outcome) => Ok(outcome),
            None => {
                assert(false);
                Err(String::new())
            },
        }
    }

    /// Asks an index, which is opened where it is not open.
    pub fn query<K: IndexKind<Resident = R>, S: Store>(
        &mut self,
        kinds: &IndexKindRegistry<K>,
        cache: &mut Cache<S>,
        target: DatumId,
        kind: &str,
        query: &[u8],
    ) -> (result: Result<Vec<u8>, String>)
        ensures
            used(
                kinds@,
                old(self)@,
                old(cache)@,
                target,
                kind@,
                IndexCall::Query { query: query@, result: result_view(result) },
                result_view(result),
                final(self)@,
                final(cache)@,
            ),
    {
        let r = self.ensure_open(kinds, cache, target, kind);
        let ghost mid = self@;
        if let Err(e) = r {
            return Err(e);
        }
        match self.open.remove(&target.as_rank()) {
            Some(mut resident) => {
                let result = resident.query(query);
                self.open.insert(target.as_rank(), resident);
                assert(self@ =~= mid.insert(target.rank(), resident));
                result
            },
            None => {
                assert(false);
                Err(String::new())
            },
        }
    }

    /// Has an index carry out a change; it is opened where it is not open.
    pub fn execute<K: IndexKind<Resident = R>, S: Store>(
        &mut self,
        kinds: &IndexKindRegistry<K>,
        cache: &mut Cache<S>,
        target: DatumId,
        kind: &str,
        payload: &[u8],
    ) -> (result: Result<Vec<u8>, String>)
        ensures
            used(
                kinds@,
                old(self)@,
                old(cache)@,
                target,
                kind@,
                IndexCall::Execute { payload: payload@, result: result_view(result) },
                result_view(result),
                final(self)@,
                final(cache)@,
            ),
    {
        let r = self.ensure_open(kinds, cache, target, kind);
        let ghost mid = self@;
        if let Err(e) = r {
            return Err(e);
        }
        match self.open.remove(&target.as_rank()) {
            Some(mut resident) => {
                let result = resident.execute(payload);
                self.open.insert(target.as_rank(), resident);
                assert(self@ =~= mid.insert(target.rank(), resident));
                result
            },
            None => {
                assert(false);
                Err(String::new())
            },
        }
    }
}

} // verus!
