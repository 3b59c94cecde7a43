//! Transfers of data from one storage node to another.
//!
//! A transfer names data that move to a destination. They are copied while
//! clients go on writing; what is written meanwhile is dirty, and is sent once
//! more at the end. A datum written before its copy is sent twice, which does
//! no harm.

use crate::datum::{law_rank_of_rank, DatumId};
use crate::maps::{ascending_wide, sorted_wide_keys};
use crate::text::copy_text;
use std::collections::BTreeMap;
use vstd::prelude::*;

verus! {

broadcast use {vstd::std_specs::btree::group_btree_axioms, vstd::laws_cmp::group_laws_cmp};

/// A transfer.
struct TransferState {
    ids: BTreeMap<u128, ()>,
    dest: String,
    copied: u64,
    dirty: BTreeMap<u128, ()>,
    done: bool,
}

/// The mathematical content of a transfer. Data are known by their rank.
pub struct TransferModel {
    pub ids: Set<u128>,
    pub dest: Seq<char>,
    pub copied: u64,
    pub dirty: Set<u128>,
    pub done: bool,
}

impl TransferState {
    spec fn model(self) -> TransferModel {
        TransferModel {
            ids: self.ids@.dom(),
            dest: self.dest@,
            copied: self.copied,
            dirty: self.dirty@.dom(),
            done: self.done,
        }
    }
}

/// The ranks of ids.
pub open spec fn ranks_of(ids: Seq<DatumId>) -> Set<u128> {
    Set::new(|k: u128| exists|i: int| 0 <= i < ids.len() && (#[trigger] ids[i]).rank() == k)
}

/// Whether a list holds exactly the ids of some ranks, in ascending order.
pub open spec fn lists_ranks(ids: Seq<DatumId>, ranks: Set<u128>) -> bool {
    &&& ranks_of(ids) == ranks
    &&& forall|i: int, j: int|
        0 <= i < j < ids.len() ==> (#[trigger] ids[i]).rank() < (#[trigger] ids[j]).rank()
}

impl TransferModel {
    /// A transfer that has just begun.
    pub open spec fn begun(ids: Seq<DatumId>, dest: Seq<char>) -> TransferModel {
        TransferModel { ids: ranks_of(ids), dest, copied: 0, dirty: Set::empty(), done: false }
    }

    /// The transfer after a datum was written.
    pub open spec fn after_write(self, id: DatumId) -> TransferModel {
        if self.ids.contains(id.rank()) {
            TransferModel { dirty: self.dirty.insert(id.rank()), ..self }
        } else {
            self
        }
    }

    /// What is told of the transfer.
    pub open spec fn status(self) -> (u64, int, bool) {
        (self.copied, self.dirty.len() as int, self.done)
    }
}

/// Transfers after a datum was written.
pub open spec fn after_write(m: Map<u128, TransferModel>, id: DatumId) -> Map<u128, TransferModel> {
    Map::new(|k: u128| m.contains_key(k), |k: u128| m[k].after_write(id))
}

/// Transfers once some more data of one of them were copied.
pub open spec fn after_copies(
    m: Map<u128, TransferModel>,
    transfer_id: DatumId,
    n: u64,
) -> Map<u128, TransferModel> {
    let k = transfer_id.rank();
    if m.contains_key(k) {
        m.insert(k, TransferModel { copied: (m[k].copied + n) as u64, ..m[k] })
    } else {
        m
    }
}

/// Transfers once all data of one of them were copied.
pub open spec fn after_last_copy(m: Map<u128, TransferModel>, transfer_id: DatumId) -> Map<
    u128,
    TransferModel,
> {
    let k = transfer_id.rank();
    if m.contains_key(k) {
        m.insert(k, TransferModel { done: true, ..m[k] })
    } else {
        m
    }
}

/// The transfers of a storage node.
pub struct TransferManager {
    inner: BTreeMap<u128, TransferState>,
}

spec fn models(m: Map<u128, TransferState>) -> Map<u128, TransferModel> {
    Map::new(|k: u128| m.contains_key(k), |k: u128| m[k].model())
}

impl View for TransferManager {
    type V = Map<u128, TransferModel>;

    closed spec fn view(&self) -> Map<u128, TransferModel> {
        models(self.inner@)
    }
}

/// The ids of some ranks, in ascending order.
fn ids_of(ranks: &BTreeMap<u128, ()>) -> (ids: Vec<DatumId>)
    ensures
        lists_ranks(ids@, ranks@.dom()),
{
    let keys = sorted_wide_keys(ranks);
    let mut ids: Vec<DatumId> = Vec::new();
    let mut i: usize = 0;
    while i < keys.len()
        invariant
            i <= keys.len(),
            ids@.len() == i,
            forall|j: int| 0 <= j < i ==> (#[trigger] ids@[j]).rank() == keys@[j],
        decreases keys.len() - i,
    {
        proof {
            law_rank_of_rank(keys@[i as int]);
        }
        ids.push(DatumId::from_rank(keys[i]));
        i = i + 1;
    }
    assert(ranks_of(ids@) =~= ranks@.dom()) by {
        assert forall|k: u128| ranks_of(ids@).contains(k) <==> ranks@.dom().contains(k) by {
            if ranks@.contains_key(k) {
                assert(keys@.contains(k));
                let j = choose|j: int| 0 <= j < keys@.len() && keys@[j] == k;
                assert(ids@[j].rank() == k);
            }
            if ranks_of(ids@).contains(k) {
                let j = choose|j: int| 0 <= j < ids@.len() && (#[trigger] ids@[j]).rank() == k;
                assert(keys@.contains(keys@[j]));
            }
        }
    }
    ids
}

/// A set of the ranks of ids.
fn set_of(ids: &Vec<DatumId>) -> (ranks: BTreeMap<u128, ()>)
    ensures
        ranks@.dom() == ranks_of(ids@),
{
    let mut ranks: BTreeMap<u128, ()> = BTreeMap::new();
    let mut i: usize = 0;
    assert(ranks@.dom() =~= ranks_of(ids@.take(0)));
    while i < ids.len()
        invariant
            i <= ids.len(),
            ranks@.dom() == ranks_of(ids@.take(i as int)),
        decreases ids.len() - i,
    {
        let ghost ranks0 = ranks@;
        let rank: u128 = ids[i].as_rank();
        ranks.insert(rank, ());
        let ghost before = ids@.take(i as int);
        let ghost after = ids@.take(i + 1);
        assert(ranks_of(after) =~= ranks_of(before).insert(rank)) by {
            assert forall|k: u128| ranks_of(after).contains(k) <==> ranks_of(before).insert(
                rank,
            ).contains(k) by {
                if ranks_of(before).contains(k) {
                    let j = choose|j: int|
                        0 <= j < before.len() && (#[trigger] before[j]).rank() == k;
                    assert(after[j].rank() == k);
                }
                if ranks_of(after).contains(k) {
                    let j = choose|j: int| 0 <= j < after.len() && (#[trigger] after[j]).rank() == k;
                    if j < i {
                        assert(before[j].rank() == k);
                    }
                }
                assert(after[i as int].rank() == rank);
            }
        }
        assert(ranks@.dom() =~= ranks0.dom().insert(rank));
        i = i + 1;
    }
    assert(ids@.take(i as int) =~= ids@);
    ranks
}

impl Default for TransferManager {
    fn default() -> (m: Self)
        ensures
            m@ == Map::<u128, TransferModel>::empty(),
    {
        let m = TransferManager { inner: BTreeMap::new() };
        assert(m@ =~= Map::empty());
        m
    }
}

impl TransferManager {
    /// Begins a transfer. One of the same id is forgotten.
    pub fn start(&mut self, transfer_id: DatumId, ids: Vec<DatumId>, dest: String)
        ensures
            final(self)@ == old(self)@.insert(
                transfer_id.rank(),
                TransferModel::begun(ids@, dest@),
            ),
    {
        let state = TransferState {
            ids: set_of(&ids),
            dest,
            copied: 0,
            dirty: BTreeMap::new(),
            done: false,
        };
        assert(state.dirty@.dom() =~= Set::empty());
        self.inner.insert(transfer_id.as_rank(), state);
        assert(self@ =~= old(self)@.insert(transfer_id.rank(), state.model()));
    }

    /// Notes that a datum was written, in every transfer that moves it.
    pub fn note_write(&mut self, id: DatumId)
        ensures
            final(self)@ == after_write(old(self)@, id),
    {
        let keys = sorted_wide_keys(&self.inner);
        let ghost before = self.inner@;
        let mut i: usize = 0;
        while i < keys.len()
            invariant
                i <= keys.len(),
                ascending_wide(keys@),
                before == old(self).inner@,
                forall|k: u128| keys@.contains(k) <==> before.contains_key(k),
                forall|k: u128| self.inner@.contains_key(k) <==> before.contains_key(k),
                forall|j: int|
                    0 <= j < i ==> self.inner@[#[trigger] keys@[j]].model()
                        == before[keys@[j]].model().after_write(id),
                forall|j: int|
                    i <= j < keys@.len() ==> self.inner@[#[trigger] keys@[j]] == before[keys@[j]],
            decreases keys.len() - i,
        {
            let k: u128 = keys[i];
            let ghost inner0 = self.inner@;
            assert(keys@.contains(k));
            assert(self.inner@.contains_key(k));
            if let Some(mut state) = self.inner.remove(&k) {
                let ghost state0 = state;
                let rank: u128 = id.as_rank();
                if state.ids.contains_key(&rank) {
                    state.dirty.insert(rank, ());
                    assert(state.dirty@.dom() =~= state0.dirty@.dom().insert(rank));
                }
                assert(state.model() == state0.model().after_write(id));
                self.inner.insert(k, state);
                assert(self.inner@ =~= inner0.insert(k, state));
            }
            i = i + 1;
        }
        assert(self@ =~= after_write(old(self)@, id)) by {
            assert forall|k: u128| #[trigger] before.contains_key(k) implies self.inner@[k].model()
                == before[k].model().after_write(id) by {
                assert(keys@.contains(k));
                let j = choose|j: int| 0 <= j < keys@.len() && keys@[j] == k;
                assert(self.inner@[keys@[j]].model() == before[keys@[j]].model().after_write(id));
            }
        }
    }

    /// Where a transfer goes.
    pub fn dest(&self, transfer_id: DatumId) -> (dest: Option<String>)
        ensures
            (match dest {
                Some(d) => self@.contains_key(transfer_id.rank()) && d@
                    == self@[transfer_id.rank()].dest,
                None => !self@.contains_key(transfer_id.rank()),
            }),
    {
        match self.inner.get(&transfer_id.as_rank()) {
            Some(state) => Some(copy_text(state.dest.as_str())),
            None => None,
        }
    }

    /// What a transfer moves: nothing, where it is unknown.
    pub fn ids(&self, transfer_id: DatumId) -> (ids: Vec<DatumId>)
        ensures
            self@.contains_key(transfer_id.rank()) ==> lists_ranks(
                ids@,
                self@[transfer_id.rank()].ids,
            ),
            !self@.contains_key(transfer_id.rank()) ==> ids@.len() == 0,
    {
        match self.inner.get(&transfer_id.as_rank()) {
            Some(state) => ids_of(&state.ids),
            None => Vec::new(),
        }
    }

    /// Counts copied data.
    pub fn bump_copied(&mut self, transfer_id: DatumId, n: u64)
        requires
            old(self)@.contains_key(transfer_id.rank()) ==> old(
                self,
            )@[transfer_id.rank()].copied + n <= u64::MAX,
        ensures
            final(self)@ == after_copies(old(self)@, transfer_id, n),
    {
        let k: u128 = transfer_id.as_rank();
        let ghost before = self.inner@;
        if let Some(mut state) = self.inner.remove(&k) {
            let ghost state0 = state;
            state.copied = state.copied + n;
            self.inner.insert(k, state);
            assert(self.inner@ =~= before.insert(k, state));
            assert(self@ =~= old(self)@.insert(k, state.model()));
        } else {
            assert(self.inner@ =~= before);
        }
    }

    /// Notes that everything was copied.
    pub fn mark_done(&mut self, transfer_id: DatumId)
        ensures
            final(self)@ == after_last_copy(old(self)@, transfer_id),
    {
        let k: u128 = transfer_id.as_rank();
        let ghost before = self.inner@;
        if let Some(mut state) = self.inner.remove(&k) {
            state.done = true;
            self.inner.insert(k, state);
            assert(self.inner@ =~= before.insert(k, state));
            assert(self@ =~= old(self)@.insert(k, state.model()));
        } else {
            assert(self.inner@ =~= before);
        }
    }

    /// How many data were copied, how many are dirty, and whether everything
    /// was copied.
    pub fn status(&self, transfer_id: DatumId) -> (status: Option<(u64, u64, bool)>)
        ensures
            (match status {
                Some((copied, dirty, done)) => self@.contains_key(transfer_id.rank()) && (
                    copied,
                    dirty as int,
                    done,
                ) == self@[transfer_id.rank()].status(),
                None => !self@.contains_key(transfer_id.rank()),
            }),
    {
        match self.inner.get(&transfer_id.as_rank()) {
            Some(state) => Some((state.copied, state.dirty.len() as u64, state.done)),
            None => None,
        }
    }

    /// Takes the dirty data out of a transfer.
    pub fn take_dirty(&mut self, transfer_id: DatumId) -> (ids: Vec<DatumId>)
        ensures
            old(self)@.contains_key(transfer_id.rank()) ==> lists_ranks(
                ids@,
                old(self)@[transfer_id.rank()].dirty,
            ) && final(self)@ == old(self)@.insert(
                transfer_id.rank(),
                (TransferModel { dirty: Set::empty(), ..old(self)@[transfer_id.rank()] }),
            ),
            !old(self)@.contains_key(transfer_id.rank()) ==> ids@.len() == 0 && final(self)@ == old(
                self,
            )@,
    {
        let k: u128 = transfer_id.as_rank();
        let ghost before = self.inner@;
        if let Some(mut state) = self.inner.remove(&k) {
            let ids = ids_of(&state.dirty);
            state.dirty = BTreeMap::new();
            assert(state.dirty@.dom() =~= Set::empty());
            self.inner.insert(k, state);
            assert(self.inner@ =~= before.insert(k, state));
            assert(self@ =~= old(self)@.insert(k, state.model()));
            ids
        } else {
            assert(self.inner@ =~= before);
            Vec::new()
        }
    }

    /// Forgets a transfer, and says what it moved.
    pub fn retire(&mut self, transfer_id: DatumId) -> (ids: Vec<DatumId>)
        ensures
            old(self)@.contains_key(transfer_id.rank()) ==> lists_ranks(
                ids@,
                old(self)@[transfer_id.rank()].ids,
            ),
            !old(self)@.contains_key(transfer_id.rank()) ==> ids@.len() == 0,
            final(self)@ == old(self)@.remove(transfer_id.rank()),
    {
        let k: u128 = transfer_id.as_rank();
        let ghost before = self.inner@;
        if let Some(state) = self.inner.remove(&k) {
            assert(self.inner@ == before.remove(k));
            assert(self@ =~= old(self)@.remove(k));
            ids_of(&state.ids)
        } else {
            assert(self.inner@ =~= before);
            assert(self@ =~= old(self)@.remove(k));
            Vec::new()
        }
    }
}

// ---- laws ----

/// A write to what a transfer moves is sent again at the end, however often it
/// is noted; one to anything else changes no transfer.
pub proof fn law_writes_are_tailed(m: Map<u128, TransferModel>, k: u128, id: DatumId)
    requires
        m.contains_key(k),
    ensures
        m[k].ids.contains(id.rank()) ==> after_write(m, id)[k].dirty.contains(id.rank()),
        !m[k].ids.contains(id.rank()) ==> after_write(m, id)[k] == m[k],
        after_write(after_write(m, id), id) == after_write(m, id),
{
    let once = after_write(m, id);
    assert forall|j: u128| #[trigger] once.contains_key(j) implies once[j].after_write(id)
        == once[j] by {
        assert(once[j].dirty =~= once[j].after_write(id).dirty);
    }
    assert(after_write(once, id) =~= once);
}

/// What is dirty is always part of what a transfer moves: it is at the
/// beginning, and stays so.
pub proof fn law_dirty_is_moved(ids: Seq<DatumId>, dest: Seq<char>, t: TransferModel, id: DatumId)
    requires
        t.dirty.subset_of(t.ids),
    ensures
        TransferModel::begun(ids, dest).dirty.subset_of(TransferModel::begun(ids, dest).ids),
        t.after_write(id).dirty.subset_of(t.after_write(id).ids),
{
}

} // verus!
