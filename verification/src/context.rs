//! What an op sees of the datums that were brought together for it.
//!
//! Writes are staged: the op reads them back, but nothing reaches the cache or
//! the store before the framework decides that the op may commit.

use crate::bytes::copy_of;
use crate::cache::{Cache, CacheModel};
use crate::datum::{law_rank_of_rank, DatumId};
use crate::maps::{ascending_wide, sorted_wide_keys};
use crate::store::{lookup, Store};
use crate::store_wire::optional_bytes;
use std::collections::BTreeMap;
use vstd::prelude::*;

verus! {

broadcast use {vstd::std_specs::btree::group_btree_axioms, vstd::laws_cmp::group_laws_cmp};

/// An index update that an op wants applied before it commits.
#[derive(Debug, PartialEq, Eq)]
pub struct PendingIndexUpdate {
    pub target: DatumId,
    pub index_kind: String,
    pub payload: Vec<u8>,
}

/// What happens where a referenced datum is missing.
#[derive(Debug)]
pub enum FkMissingPolicy {
    /// The op fails.
    Reject,
    /// The op commits, and the dangling reference is recorded in a datum.
    Track { pending_datum: DatumId, index_kind: String, entry: Vec<u8> },
}

/// What an existence check asserts.
#[derive(Debug)]
pub enum Expectation {
    /// The target exists; else the policy applies.
    Present { on_missing: FkMissingPolicy },
    /// The target does not exist; else the op fails with the message.
    Absent { message: String },
}

/// A check that is made before an op may commit.
#[derive(Debug)]
pub struct PendingExistsCheck {
    pub target: DatumId,
    pub expect: Expectation,
}

/// The mathematical content of a [`PendingIndexUpdate`].
pub struct IndexUpdateModel {
    pub target: DatumId,
    pub index_kind: Seq<char>,
    pub payload: Seq<u8>,
}

impl View for PendingIndexUpdate {
    type V = IndexUpdateModel;

    open spec fn view(&self) -> IndexUpdateModel {
        IndexUpdateModel {
            target: self.target,
            index_kind: self.index_kind@,
            payload: self.payload@,
        }
    }
}

/// Index updates, viewed.
pub open spec fn updates_view(updates: Seq<PendingIndexUpdate>) -> Seq<IndexUpdateModel> {
    Seq::new(updates.len(), |i: int| updates[i]@)
}

/// A staged write: new content or a deletion, and the replication factor.
pub type StagedModel = (Option<Seq<u8>>, u16);

/// A staged write with the datum it is of, viewed.
pub open spec fn write_view(w: (DatumId, Option<Vec<u8>>, u16)) -> (DatumId, Option<Seq<u8>>, u16) {
    (w.0, optional_bytes(w.1), w.2)
}

/// Staged writes with their datums, viewed.
pub open spec fn writes_view(writes: Seq<(DatumId, Option<Vec<u8>>, u16)>) -> Seq<
    (DatumId, Option<Seq<u8>>, u16),
> {
    Seq::new(writes.len(), |i: int| write_view(writes[i]))
}

/// Staged writes, viewed.
pub open spec fn staged_view(m: Map<u128, (Option<Vec<u8>>, u16)>) -> Map<u128, StagedModel> {
    Map::new(|k: u128| m.contains_key(k), |k: u128| (optional_bytes(m[k].0), m[k].1))
}

/// Whether `writes` lists each staged write once, in ascending order of ids.
pub open spec fn lists_staged(
    staged: Map<u128, StagedModel>,
    writes: Seq<(DatumId, Option<Seq<u8>>, u16)>,
) -> bool {
    &&& forall|i: int, j: int|
        0 <= i < j < writes.len() ==> (#[trigger] writes[i]).0.rank() < (
        #[trigger] writes[j]).0.rank()
    &&& forall|i: int|
        0 <= i < writes.len() ==> staged.contains_key((#[trigger] writes[i]).0.rank())
            && staged[writes[i].0.rank()] == (writes[i].1, writes[i].2)
    &&& forall|k: u128| #[trigger]
        staged.contains_key(k) ==> exists|i: int|
            0 <= i < writes.len() && (#[trigger] writes[i]).0.rank() == k
}

/// The mathematical content of an [`OpContext`].
pub struct ContextModel {
    pub cache: CacheModel,
    /// The staged writes, by the rank of the id.
    pub staged: Map<u128, StagedModel>,
    pub index_updates: Seq<IndexUpdateModel>,
    pub exists_checks: Seq<PendingExistsCheck>,
}

impl ContextModel {
    /// The context once a write is staged.
    pub open spec fn with(self, id: DatumId, content: Option<Seq<u8>>, n: u16) -> ContextModel {
        ContextModel { staged: self.staged.insert(id.rank(), (content, n)), ..self }
    }

    /// The context after a read that returned `found`: a staged write answers
    /// it, else the cache.
    pub open spec fn after_get(self, id: DatumId, n: u16, found: Option<Seq<u8>>) -> ContextModel {
        if self.staged.contains_key(id.rank()) {
            self
        } else {
            ContextModel { cache: self.cache.after_get(id, n, found), ..self }
        }
    }

    /// Whether a read returns `found`, as far as the store does not decide.
    pub open spec fn reads(self, id: DatumId, found: Option<Seq<u8>>) -> bool {
        &&& self.staged.contains_key(id.rank()) ==> found == self.staged[id.rank()].0
        &&& !self.staged.contains_key(id.rank()) && self.cache.entries.contains_key(id.rank())
            ==> found == lookup(self.cache.entries, id)
    }
}

/// What an op has staged and scheduled.
pub struct Staging {
    writes: BTreeMap<u128, (Option<Vec<u8>>, u16)>,
    index_updates: Vec<PendingIndexUpdate>,
    exists_checks: Vec<PendingExistsCheck>,
}

/// What an op has to do with: a cache, and what it stages.
pub struct OpContext<'a, S: Store> {
    /// The cache of the thread that runs the op. It is read; writes are staged.
    pub cache: &'a mut Cache<S>,
    pub staging: Staging,
}

impl Staging {
    pub closed spec fn staged_writes(self) -> Map<u128, StagedModel> {
        staged_view(self.writes@)
    }

    pub closed spec fn scheduled_updates(self) -> Seq<IndexUpdateModel> {
        updates_view(self.index_updates@)
    }

    pub closed spec fn scheduled_checks(self) -> Seq<PendingExistsCheck> {
        self.exists_checks@
    }
}

impl<'a, S: Store> View for OpContext<'a, S> {
    type V = ContextModel;

    open spec fn view(&self) -> ContextModel {
        ContextModel {
            cache: self.cache@,
            staged: self.staging.staged_writes(),
            index_updates: self.staging.scheduled_updates(),
            exists_checks: self.staging.scheduled_checks(),
        }
    }
}

fn copy_optional(content: &Option<Vec<u8>>) -> (copy: Option<Vec<u8>>)
    ensures
        optional_bytes(copy) == optional_bytes(*content),
{
    match content {
        None => None,
        Some(b) => Some(copy_of(b.as_slice())),
    }
}

impl<'a, S: Store> OpContext<'a, S> {
    pub fn new(cache: &'a mut Cache<S>) -> (ctx: Self)
        ensures
            ctx@ == (ContextModel {
                cache: old(cache)@,
                staged: Map::empty(),
                index_updates: seq![],
                exists_checks: seq![],
            }),
            *final(ctx.cache) == *final(cache),
    {
        let ctx = Self {
            cache,
            staging: Staging {
                writes: BTreeMap::new(),
                index_updates: Vec::new(),
                exists_checks: Vec::new(),
            },
        };
        assert(ctx@.staged =~= Map::empty());
        assert(ctx@.index_updates =~= seq![]);
        ctx
    }

    /// The content of a datum of which there is one copy.
    pub fn get(&mut self, id: DatumId) -> (found: Option<Vec<u8>>)
        ensures
            old(self)@.reads(id, optional_bytes(found)),
            final(self)@ == old(self)@.after_get(id, 1, optional_bytes(found)),
            *final(final(self).cache) == *final(old(self).cache),
    {
        self.get_replicated(id, 1)
    }

    /// The content of a datum of which there are `n` copies: what this op
    /// staged, else what the cache has.
    pub fn get_replicated(&mut self, id: DatumId, n: u16) -> (found: Option<Vec<u8>>)
        ensures
            old(self)@.reads(id, optional_bytes(found)),
            final(self)@ == old(self)@.after_get(id, n, optional_bytes(found)),
            *final(final(self).cache) == *final(old(self).cache),
    {
        if let Some(staged) = self.staging.writes.get(&id.as_rank()) {
            return copy_optional(&staged.0);
        }
        self.cache.get_replicated(id, n)
    }

    fn stage(&mut self, id: DatumId, content: Option<Vec<u8>>, n: u16)
        ensures
            final(self)@ == old(self)@.with(id, optional_bytes(content), n),
            *final(final(self).cache) == *final(old(self).cache),
    {
        let ghost c = optional_bytes(content);
        self.staging.writes.insert(id.as_rank(), (content, n));
        assert(self@.staged =~= old(self)@.staged.insert(id.rank(), (c, n)));
    }

    /// Stages a write of a datum of which there is one copy.
    pub fn put(&mut self, id: DatumId, content: Vec<u8>)
        ensures
            final(self)@ == old(self)@.with(id, Some(content@), 1),
            *final(final(self).cache) == *final(old(self).cache),
    {
        self.stage(id, Some(content), 1);
    }

    /// Stages a write of a datum of which there are to be `n` copies.
    pub fn put_replicated(&mut self, id: DatumId, content: Vec<u8>, n: u16)
        ensures
            final(self)@ == old(self)@.with(id, Some(content@), n),
            *final(final(self).cache) == *final(old(self).cache),
    {
        self.stage(id, Some(content), n);
    }

    /// Stages a deletion of a datum of which there is one copy.
    pub fn delete(&mut self, id: DatumId)
        ensures
            final(self)@ == old(self)@.with(id, None, 1),
            *final(final(self).cache) == *final(old(self).cache),
    {
        self.stage(id, None, 1);
    }

    /// Stages a deletion of a datum of which there are `n` copies.
    pub fn delete_replicated(&mut self, id: DatumId, n: u16)
        ensures
            final(self)@ == old(self)@.with(id, None, n),
            *final(final(self).cache) == *final(old(self).cache),
    {
        self.stage(id, None, n);
    }

    /// Schedules an index update.
    pub fn schedule_index_update(&mut self, target: DatumId, index_kind: String, payload: Vec<u8>)
        ensures
            final(self)@ == (ContextModel {
                index_updates: old(self)@.index_updates.push(
                    IndexUpdateModel { target, index_kind: index_kind@, payload: payload@ },
                ),
                ..old(self)@
            }),
            *final(final(self).cache) == *final(old(self).cache),
    {
        let ghost m = IndexUpdateModel { target, index_kind: index_kind@, payload: payload@ };
        self.staging.index_updates.push(PendingIndexUpdate { target, index_kind, payload });
        assert(self@.index_updates =~= old(self)@.index_updates.push(m));
    }

    /// Takes the staged writes out of the context, in ascending order of ids.
    pub fn take_staged_writes(&mut self) -> (writes: Vec<(DatumId, Option<Vec<u8>>, u16)>)
        ensures
            lists_staged(old(self)@.staged, writes_view(writes@)),
            final(self)@ == (ContextModel { staged: Map::empty(), ..old(self)@ }),
            *final(final(self).cache) == *final(old(self).cache),
    {
        let keys = sorted_wide_keys(&self.staging.writes);
        let ghost before = self.staging.writes@;
        let mut writes: Vec<(DatumId, Option<Vec<u8>>, u16)> = Vec::new();
        let mut i: usize = 0;
        assert forall|j: int| 0 <= j < keys.len() implies before.contains_key(
            #[trigger] keys@[j],
        ) by {
            assert(keys@.contains(keys@[j]));
        }
        while i < keys.len()
            invariant
                i <= keys.len(),
                ascending_wide(keys@),
                forall|k: u128| keys@.contains(k) <==> before.contains_key(k),
                self.cache == old(self).cache,
                self.staging.index_updates == old(self).staging.index_updates,
                self.staging.exists_checks == old(self).staging.exists_checks,
                before == old(self).staging.writes@,
                forall|j: int| 0 <= j < keys.len() ==> before.contains_key(#[trigger] keys@[j]),
                forall|k: u128|
                    #[trigger] self.staging.writes@.contains_key(k) ==> before.contains_key(k)
                        && self.staging.writes@[k] == before[k],
                forall|j: int|
                    i <= j < keys.len() ==> self.staging.writes@.contains_key(#[trigger] keys@[j]),
                forall|j: int| 0 <= j < i ==> !self.staging.writes@.contains_key(#[trigger] keys@[j]),
                writes@.len() == i,
                forall|j: int|
                    0 <= j < i ==> (#[trigger] writes@[j]).0.rank() == keys@[j] && (
                    writes@[j].1,
                    writes@[j].2,
                ) == before[keys@[j]],
            decreases keys.len() - i,
        {
            let k: u128 = keys[i];
            let ghost staged0 = self.staging.writes@;
            if let Some((content, n)) = self.staging.writes.remove(&k) {
                let id = DatumId::from_rank(k);
                proof {
                    law_rank_of_rank(k);
                }
                writes.push((id, content, n));
            }
            assert(self.staging.writes@ == staged0.remove(k));
            i = i + 1;
        }
        assert(self@.staged =~= Map::empty()) by {
            assert forall|k: u128| !self.staging.writes@.contains_key(k) by {
                if self.staging.writes@.contains_key(k) {
                    assert(keys@.contains(k));
                    let j = choose|j: int| 0 <= j < keys@.len() && keys@[j] == k;
                    assert(!self.staging.writes@.contains_key(keys@[j]));
                }
            }
        }
        let ghost view = writes_view(writes@);
        assert forall|k: u128| #[trigger] old(self)@.staged.contains_key(k) implies exists|i: int|
            0 <= i < view.len() && (#[trigger] view[i]).0.rank() == k by {
            assert(keys@.contains(k));
            let j = choose|j: int| 0 <= j < keys@.len() && keys@[j] == k;
            assert(writes@[j].0.rank() == k);
            assert(view[j].0.rank() == k);
        }
        assert forall|a: int, b: int| 0 <= a < b < view.len() implies (
        #[trigger] view[a]).0.rank() < (#[trigger] view[b]).0.rank() by {
            assert(writes@[a].0.rank() == keys@[a]);
            assert(writes@[b].0.rank() == keys@[b]);
        }
        assert forall|a: int| 0 <= a < view.len() implies old(self)@.staged.contains_key(
            (#[trigger] view[a]).0.rank(),
        ) && old(self)@.staged[view[a].0.rank()] == (view[a].1, view[a].2) by {
            assert(writes@[a].0.rank() == keys@[a]);
        }
        writes
    }

    /// Takes the scheduled index updates out of the context.
    pub fn take_pending_index_updates(&mut self) -> (updates: Vec<PendingIndexUpdate>)
        ensures
            updates_view(updates@) == old(self)@.index_updates,
            final(self)@ == (ContextModel { index_updates: seq![], ..old(self)@ }),
            *final(final(self).cache) == *final(old(self).cache),
    {
        let mut updates: Vec<PendingIndexUpdate> = Vec::new();
        updates.append(&mut self.staging.index_updates);
        assert(updates@ =~= old(self).staging.index_updates@);
        assert(self@.index_updates =~= seq![]);
        updates
    }

    /// Schedules an existence check.
    pub fn schedule_exists_check(&mut self, target: DatumId, expect: Expectation)
        ensures
            final(self)@ == (ContextModel {
                exists_checks: old(self)@.exists_checks.push(PendingExistsCheck { target, expect }),
                ..old(self)@
            }),
            *final(final(self).cache) == *final(old(self).cache),
    {
        self.staging.exists_checks.push(PendingExistsCheck { target, expect });
    }

    /// Takes the scheduled existence checks out of the context.
    pub fn take_pending_exists_checks(&mut self) -> (checks: Vec<PendingExistsCheck>)
        ensures
            checks@ == old(self)@.exists_checks,
            final(self)@ == (ContextModel { exists_checks: seq![], ..old(self)@ }),
            *final(final(self).cache) == *final(old(self).cache),
    {
        let mut checks: Vec<PendingExistsCheck> = Vec::new();
        checks.append(&mut self.staging.exists_checks);
        assert(checks@ =~= old(self).staging.exists_checks@);
        assert(self@.exists_checks =~= seq![]);
        checks
    }
}

// ---- laws ----

/// An op reads its own writes, and a write leaves the cache and the store as
/// they are.
pub proof fn law_reads_own_writes(
    c: ContextModel,
    id: DatumId,
    content: Option<Seq<u8>>,
    n: u16,
    found: Option<Seq<u8>>,
)
    ensures
        c.with(id, content, n).reads(id, found) <==> found == content,
        c.with(id, content, n).cache == c.cache,
{
}

} // verus!
