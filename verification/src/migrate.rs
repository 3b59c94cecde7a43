//! Moving data when the storage ring changes.
//!
//! Whether a node is added, taken out or given another weight, the same happens:
//! every datum whose home changes is copied to its new home while clients go on
//! writing. Then the compute nodes pause, what was written meanwhile is sent
//! after, the new ring is installed, and the compute nodes resume. Only then is
//! anything deleted where it was. A driver that fails on the way leaves the
//! cluster with its old ring and every datum where it was.

use crate::authority::NodeId;
use crate::datum::DatumId;
use crate::ring::{home, joined, Ring, Slot};
use crate::server::{member_weights, members_view, StorageMember, StorageMemberModel};
use crate::store_wire::{StoreRequest, StoreRequestModel, StoreResponse, StoreResponseModel};
use crate::text::{copy_text, decimal, id_text, push_decimal, push_id};
use vstd::prelude::*;
use vstd::string::*;

verus! {

// ---- what moves ----

/// A datum that moves, and the nodes between which it does.
#[derive(Debug, Clone, Copy, PartialEq, Eq, Structural)]
pub struct Move {
    pub id: DatumId,
    pub source: NodeId,
    pub dest: NodeId,
}

/// The data whose node differs between two rings.
pub open spec fn moves_of(old_slots: Seq<Slot>, new_slots: Seq<Slot>, ids: Seq<DatumId>) -> Seq<Move>
    decreases ids.len(),
{
    if ids.len() == 0 {
        seq![]
    } else {
        let before = moves_of(old_slots, new_slots, ids.drop_last());
        let id = ids.last();
        let source = home(old_slots, id).0;
        let dest = home(new_slots, id).0;
        if source != dest {
            before.push(Move { id, source, dest })
        } else {
            before
        }
    }
}

/// Works out what moves from one ring to another.
pub fn plan_moves(old_ring: &Ring, new_ring: &Ring, ids: &[DatumId]) -> (moves: Vec<Move>)
    requires
        ids@.len() > 0 ==> old_ring@.len() > 0 && new_ring@.len() > 0,
    ensures
        moves@ == moves_of(old_ring@, new_ring@, ids@),
{
    let mut moves: Vec<Move> = Vec::new();
    let mut i: usize = 0;
    while i < ids.len()
        invariant
            i <= ids.len(),
            ids@.len() > 0 ==> old_ring@.len() > 0 && new_ring@.len() > 0,
            moves@ == moves_of(old_ring@, new_ring@, ids@.take(i as int)),
        decreases ids.len() - i,
    {
        assert(ids@.take(i + 1).drop_last() =~= ids@.take(i as int));
        let id = ids[i];
        let source = old_ring.native(id).0;
        let dest = new_ring.native(id).0;
        if source != dest {
            moves.push(Move { id, source, dest });
        }
        i = i + 1;
    }
    assert(ids@.take(i as int) =~= ids@);
    moves
}

/// The data that move between the same two nodes.
#[derive(Debug, PartialEq, Eq)]
pub struct Batch {
    pub source: NodeId,
    pub dest: NodeId,
    pub ids: Vec<DatumId>,
}

/// The mathematical content of a [`Batch`].
pub struct BatchModel {
    pub source: NodeId,
    pub dest: NodeId,
    pub ids: Seq<DatumId>,
}

impl View for Batch {
    type V = BatchModel;

    open spec fn view(&self) -> BatchModel {
        BatchModel { source: self.source, dest: self.dest, ids: self.ids@ }
    }
}

/// Batches, viewed.
pub open spec fn batches_view(batches: Seq<Batch>) -> Seq<BatchModel> {
    Seq::new(batches.len(), |i: int| batches[i]@)
}

impl BatchModel {
    pub open spec fn takes(self, m: Move) -> bool {
        self.source == m.source && self.dest == m.dest
    }
}

/// The first batch that a move belongs to, or how many there are.
pub open spec fn batch_of(batches: Seq<BatchModel>, m: Move) -> nat
    decreases batches.len(),
{
    if batches.len() == 0 {
        0
    } else if batches[0].takes(m) {
        0
    } else {
        1 + batch_of(batches.skip(1), m)
    }
}

/// Batches with one more move.
pub open spec fn with_move(batches: Seq<BatchModel>, m: Move) -> Seq<BatchModel> {
    let i = batch_of(batches, m) as int;
    if i < batches.len() {
        batches.update(i, BatchModel { ids: batches[i].ids.push(m.id), ..batches[i] })
    } else {
        batches.push(BatchModel { source: m.source, dest: m.dest, ids: seq![m.id] })
    }
}

/// Moves in batches, in the order in which the first of each comes.
pub open spec fn batched(moves: Seq<Move>) -> Seq<BatchModel>
    decreases moves.len(),
{
    if moves.len() == 0 {
        seq![]
    } else {
        with_move(batched(moves.drop_last()), moves.last())
    }
}

proof fn lemma_batch_of(batches: Seq<BatchModel>, m: Move, i: nat)
    requires
        i <= batches.len(),
        forall|j: int| 0 <= j < i ==> !(#[trigger] batches[j]).takes(m),
        i < batches.len() ==> batches[i as int].takes(m),
    ensures
        batch_of(batches, m) == i,
    decreases batches.len(),
{
    if batches.len() > 0 && i > 0 {
        assert(!batches[0].takes(m));
        let rest = batches.skip(1);
        assert forall|j: int| 0 <= j < i - 1 implies !(#[trigger] rest[j]).takes(m) by {
            assert(rest[j] == batches[j + 1]);
        }
        lemma_batch_of(rest, m, (i - 1) as nat);
    }
}

fn put_move(batches: &mut Vec<Batch>, m: Move)
    ensures
        batches_view(final(batches)@) == with_move(batches_view(old(batches)@), m),
{
    let mut i: usize = 0;
    let ghost before = batches_view(batches@);
    while i < batches.len() && !(batches[i].source == m.source && batches[i].dest == m.dest)
        invariant
            i <= batches.len(),
            *batches == *old(batches),
            before == batches_view(batches@),
            forall|j: int| 0 <= j < i ==> !(#[trigger] before[j]).takes(m),
        decreases batches.len() - i,
    {
        assert(before[i as int] == batches@[i as int]@);
        i = i + 1;
    }
    proof {
        if i < batches.len() {
            assert(before[i as int] == batches@[i as int]@);
        }
        lemma_batch_of(before, m, i as nat);
    }
    if i < batches.len() {
        let mut batch = batches.remove(i);
        batch.ids.push(m.id);
        batches.insert(i, batch);
        assert(batches_view(batches@) =~= with_move(before, m));
    } else {
        let mut ids: Vec<DatumId> = Vec::new();
        ids.push(m.id);
        assert(ids@ =~= seq![m.id]);
        batches.push(Batch { source: m.source, dest: m.dest, ids });
        assert(batches_view(batches@) =~= with_move(before, m));
    }
}

/// Puts moves together that go between the same two nodes.
pub fn batch_moves(moves: &Vec<Move>) -> (batches: Vec<Batch>)
    ensures
        batches_view(batches@) == batched(moves@),
{
    let mut batches: Vec<Batch> = Vec::new();
    let mut i: usize = 0;
    assert(batches_view(batches@) =~= seq![]);
    while i < moves.len()
        invariant
            i <= moves.len(),
            batches_view(batches@) == batched(moves@.take(i as int)),
        decreases moves.len() - i,
    {
        assert(moves@.take(i + 1).drop_last() =~= moves@.take(i as int));
        put_move(&mut batches, moves[i]);
        i = i + 1;
    }
    assert(moves@.take(i as int) =~= moves@);
    batches
}

/// What a migration comes to.
#[derive(Debug, Clone, PartialEq, Eq)]
pub struct Report {
    pub applied: bool,
    pub total_moves: usize,
    /// Source, destination and number of data.
    pub per_pair: Vec<(NodeId, NodeId, usize)>,
}

/// Reports on a migration.
pub fn report(moves: &Vec<Move>, batches: &Vec<Batch>, applied: bool) -> (report: Report)
    ensures
        report.applied == applied,
        report.total_moves == moves@.len(),
        report.per_pair@.len() == batches@.len(),
        forall|i: int|
            0 <= i < batches@.len() ==> #[trigger] report.per_pair@[i] == (
                batches@[i].source,
                batches@[i].dest,
                batches@[i].ids.len(),
            ),
{
    let mut per_pair: Vec<(NodeId, NodeId, usize)> = Vec::new();
    let mut i: usize = 0;
    while i < batches.len()
        invariant
            i <= batches.len(),
            per_pair@.len() == i,
            forall|j: int|
                0 <= j < i ==> #[trigger] per_pair@[j] == (
                    batches@[j].source,
                    batches@[j].dest,
                    batches@[j].ids.len(),
                ),
        decreases batches.len() - i,
    {
        per_pair.push((batches[i].source, batches[i].dest, batches[i].ids.len()));
        i = i + 1;
    }
    Report { applied, total_moves: moves.len(), per_pair }
}

/// The ring of some members.
pub fn ring_of(members: &Vec<StorageMember>) -> (ring: Ring)
    ensures
        ring@ == joined(member_weights(members_view(members@))),
{
    let ghost all = members_view(members@);
    let mut weights: Vec<(NodeId, u32)> = Vec::new();
    let mut i: usize = 0;
    while i < members.len()
        invariant
            i <= members.len(),
            all == members_view(members@),
            weights@ == member_weights(all).take(i as int),
        decreases members.len() - i,
    {
        assert(all[i as int] == members@[i as int]@);
        weights.push((members[i].node_id, members[i].weight));
        assert(member_weights(all).take(i + 1) =~= member_weights(all).take(i as int).push(
            member_weights(all)[i as int],
        ));
        i = i + 1;
    }
    assert(member_weights(all).take(i as int) =~= member_weights(all));
    Ring::from_members(weights.as_slice())
}

/// The address of a node among some members: of the last, where it is there
/// more than once.
pub open spec fn address_among(members: Seq<StorageMemberModel>, node: NodeId) -> Option<Seq<char>>
    decreases members.len(),
{
    if members.len() == 0 {
        None
    } else if members.last().node_id == node {
        Some(members.last().store_address)
    } else {
        address_among(members.drop_last(), node)
    }
}

/// The address of a node among some members.
pub fn address_of(members: &Vec<StorageMember>, node: NodeId) -> (address: Option<String>)
    ensures
        (match address {
            Some(a) => Some(a@),
            None => None,
        }) == address_among(members_view(members@), node),
{
    let ghost all = members_view(members@);
    let mut i: usize = members.len();
    assert(all.take(i as int) =~= all);
    while i > 0
        invariant
            i <= members.len(),
            all == members_view(members@),
            address_among(all, node) == address_among(all.take(i as int), node),
        decreases i,
    {
        assert(all.take(i as int).drop_last() =~= all.take(i - 1));
        assert(all[i - 1] == members@[i - 1]@);
        if members[i - 1].node_id == node {
            return Some(copy_text(members[i - 1].store_address.as_str()));
        }
        i = i - 1;
    }
    None
}

// ---- who is who ----

/// What is said of a node that is not the one it was taken for.
pub open spec fn wrong_node_text(address: Seq<char>, reported: NodeId, expected: NodeId) -> Seq<
    char,
> {
    "proposed node at "@ + address + " reports id NodeId("@ + decimal(reported.0 as nat)
        + "), expected NodeId("@ + decimal(expected.0 as nat) + ")"@
}

/// Takes a proposed member at its word, once the node at its address has said
/// who it is.
pub fn resolve(member: &StorageMember, node_id: NodeId, log_id: DatumId) -> (r: Result<
    StorageMember,
    String,
>)
    ensures
        (match r {
            Ok(m) => node_id == member.node_id && m@ == (StorageMemberModel { log_id, ..member@ }),
            Err(e) => node_id != member.node_id && e@ == wrong_node_text(
                member.store_address@,
                node_id,
                member.node_id,
            ),
        }),
{
    if node_id != member.node_id {
        let mut text = copy_text("proposed node at ");
        text.append(member.store_address.as_str());
        text.append(" reports id NodeId(");
        push_decimal(&mut text, node_id.0 as u128);
        text.append("), expected NodeId(");
        push_decimal(&mut text, member.node_id.0 as u128);
        text.append(")");
        Err(text)
    } else {
        Ok(
            StorageMember {
                node_id,
                weight: member.weight,
                store_address: copy_text(member.store_address.as_str()),
                log_id,
            },
        )
    }
}

/// What is said of a node that does not have what it should have.
pub open spec fn impostor_text(member: StorageMemberModel, node_id: NodeId, log_id: DatumId) -> Seq<
    char,
> {
    "impostor detected: storage node at "@ + member.store_address + " reports NodeId("@ + decimal(
        node_id.0 as nat,
    ) + ")/DatumId("@ + id_text(log_id) + "), expected NodeId("@ + decimal(
        member.node_id.0 as nat,
    ) + ")/DatumId("@ + id_text(member.log_id) + ") — halt stands"@
}

/// Makes sure that a node that has come back is the one that was lost, with the
/// log that it had.
pub fn verify_identity(member: &StorageMember, node_id: NodeId, log_id: DatumId) -> (r: Result<
    (),
    String,
>)
    ensures
        (match r {
            Ok(_) => node_id == member.node_id && log_id == member.log_id,
            Err(e) => (node_id != member.node_id || log_id != member.log_id) && e@
                == impostor_text(member@, node_id, log_id),
        }),
{
    if node_id != member.node_id || log_id != member.log_id {
        let mut text = copy_text("impostor detected: storage node at ");
        text.append(member.store_address.as_str());
        text.append(" reports NodeId(");
        push_decimal(&mut text, node_id.0 as u128);
        text.append(")/DatumId(");
        push_id(&mut text, log_id);
        text.append("), expected NodeId(");
        push_decimal(&mut text, member.node_id.0 as u128);
        text.append(")/DatumId(");
        push_id(&mut text, member.log_id);
        text.append(") — halt stands");
        Err(text)
    } else {
        Ok(())
    }
}

// ---- listing ----

/// How many ids are asked for at once.
pub const ID_PAGE: u32 = 1024;

/// The ids on a node, page by page.
#[derive(Debug)]
pub struct IdPager {
    pub ids: Vec<DatumId>,
    pub after: Option<DatumId>,
    pub done: bool,
}

/// The mathematical content of an [`IdPager`].
pub struct PagerModel {
    pub ids: Seq<DatumId>,
    pub after: Option<DatumId>,
    pub done: bool,
}

impl View for IdPager {
    type V = PagerModel;

    open spec fn view(&self) -> PagerModel {
        PagerModel { ids: self.ids@, after: self.after, done: self.done }
    }
}

/// The ids of a page.
pub open spec fn page_ids(page: Seq<(DatumId, u16)>) -> Seq<DatumId> {
    Seq::new(page.len(), |i: int| page[i].0)
}

impl PagerModel {
    /// The ids after one more page. The last page says so, or is empty.
    pub open spec fn with_page(self, page: Seq<(DatumId, u16)>, done: bool) -> PagerModel {
        PagerModel {
            ids: self.ids + page_ids(page),
            after: if page.len() == 0 {
                None
            } else {
                Some(page.last().0)
            },
            done: done || page.len() == 0,
        }
    }
}

impl IdPager {
    pub fn new() -> (pager: Self)
        ensures
            pager@ == (PagerModel { ids: seq![], after: None, done: false }),
    {
        let pager = IdPager { ids: Vec::new(), after: None, done: false };
        assert(pager@.ids =~= seq![]);
        pager
    }

    /// What is to be asked for next; nothing, once there is no more.
    pub fn ask(&self) -> (request: Option<StoreRequest>)
        ensures
            (match request {
                Some(r) => !self@.done && r@ == (StoreRequestModel::ListIds {
                    after: self@.after,
                    limit: ID_PAGE,
                }),
                None => self@.done,
            }),
    {
        if self.done {
            None
        } else {
            Some(StoreRequest::ListIds { after: self.after, limit: ID_PAGE })
        }
    }

    /// Takes an answer in. One that is no page is given back.
    pub fn answered(&mut self, response: StoreResponse) -> (r: Result<(), StoreResponse>)
        ensures
            (match response@ {
                StoreResponseModel::IdList { ids, done } => r is Ok && final(self)@ == old(
                    self,
                )@.with_page(ids, done),
                _ => r == Err::<(), StoreResponse>(response) && final(self)@ == old(self)@,
            }),
    {
        match response {
            StoreResponse::IdList { ids: page, done } => {
                let mut i: usize = 0;
                let ghost before = self.ids@;
                assert(self.ids@ =~= before + page_ids(page@).take(0));
                while i < page.len()
                    invariant
                        i <= page.len(),
                        self.ids@ == before + page_ids(page@).take(i as int),
                    decreases page.len() - i,
                {
                    self.ids.push(page[i].0);
                    assert(page_ids(page@).take(i + 1) =~= page_ids(page@).take(i as int).push(
                        page@[i as int].0,
                    ));
                    assert(self.ids@ =~= before + page_ids(page@).take(i + 1));
                    i = i + 1;
                }
                assert(page_ids(page@).take(i as int) =~= page_ids(page@));
                self.after = if page.len() == 0 {
                    None
                } else {
                    Some(page[page.len() - 1].0)
                };
                self.done = done || page.len() == 0;
                Ok(())
            },
            other => Err(other),
        }
    }
}

// ---- the driver ----

/// A step of a migration. Compute nodes and transfers are known by their
/// position.
#[derive(Debug, Clone, Copy, PartialEq, Eq, Structural)]
pub enum Step {
    /// Start a transfer, and wait until everything is copied.
    Copy(usize),
    Pause(usize),
    /// Send what was written during the copy.
    Tail(usize),
    /// Install the new ring.
    Flip(usize),
    Resume(usize),
    /// Delete what was moved, where it was.
    Retire(usize),
}

/// The kinds of steps, in the order of a migration.
#[derive(Debug, Clone, Copy, PartialEq, Eq, Structural)]
pub enum Phase {
    Copy,
    Pause,
    Tail,
    Flip,
    Resume,
    Retire,
}

pub open spec fn step_of(phase: Phase, i: usize) -> Step {
    match phase {
        Phase::Copy => Step::Copy(i),
        Phase::Pause => Step::Pause(i),
        Phase::Tail => Step::Tail(i),
        Phase::Flip => Step::Flip(i),
        Phase::Resume => Step::Resume(i),
        Phase::Retire => Step::Retire(i),
    }
}

/// The same step for each of `n`.
pub open spec fn for_each(phase: Phase, n: usize) -> Seq<Step> {
    Seq::new(n as nat, |i: int| step_of(phase, i as usize))
}

/// The steps of a migration of some transfers in a cluster of some compute
/// nodes.
pub open spec fn script_of(computes: usize, transfers: usize) -> Seq<Step> {
    for_each(Phase::Copy, transfers) + for_each(Phase::Pause, computes) + for_each(
        Phase::Tail,
        transfers,
    ) + for_each(Phase::Flip, computes) + for_each(Phase::Resume, computes) + for_each(
        Phase::Retire,
        transfers,
    )
}

fn put_each(steps: &mut Vec<Step>, phase: Phase, n: usize)
    ensures
        final(steps)@ == old(steps)@ + for_each(phase, n),
{
    let mut i: usize = 0;
    let ghost before = steps@;
    assert(steps@ =~= before + for_each(phase, n).take(0));
    while i < n
        invariant
            i <= n,
            steps@ == before + for_each(phase, n).take(i as int),
        decreases n - i,
    {
        steps.push(
            match phase {
                Phase::Copy => Step::Copy(i),
                Phase::Pause => Step::Pause(i),
                Phase::Tail => Step::Tail(i),
                Phase::Flip => Step::Flip(i),
                Phase::Resume => Step::Resume(i),
                Phase::Retire => Step::Retire(i),
            },
        );
        assert(for_each(phase, n).take(i + 1) =~= for_each(phase, n).take(i as int).push(
            step_of(phase, i),
        ));
        assert(steps@ =~= before + for_each(phase, n).take(i + 1));
        i = i + 1;
    }
    assert(for_each(phase, n).take(i as int) =~= for_each(phase, n));
}

/// The steps of a migration, in order. They are taken one after the other; the
/// first that fails is the last that is taken.
pub fn script(computes: usize, transfers: usize) -> (steps: Vec<Step>)
    ensures
        steps@ == script_of(computes, transfers),
{
    let mut steps: Vec<Step> = Vec::new();
    put_each(&mut steps, Phase::Copy, transfers);
    put_each(&mut steps, Phase::Pause, computes);
    put_each(&mut steps, Phase::Tail, transfers);
    put_each(&mut steps, Phase::Flip, computes);
    put_each(&mut steps, Phase::Resume, computes);
    put_each(&mut steps, Phase::Retire, transfers);
    assert(steps@ =~= script_of(computes, transfers));
    steps
}

// ---- laws ----

/// Exactly the data move whose home is on another node in the new ring, and
/// each moves from its old home to its new one.
pub proof fn law_moves(old_slots: Seq<Slot>, new_slots: Seq<Slot>, ids: Seq<DatumId>)
    ensures
        forall|i: int|
            0 <= i < ids.len() && home(old_slots, ids[i]).0 != home(new_slots, ids[i]).0
                ==> moves_of(old_slots, new_slots, ids).contains(
                (Move {
                    id: #[trigger] ids[i],
                    source: home(old_slots, ids[i]).0,
                    dest: home(new_slots, ids[i]).0,
                }),
            ),
        forall|k: int|
            0 <= k < moves_of(old_slots, new_slots, ids).len() ==> ({
                let m = #[trigger] moves_of(old_slots, new_slots, ids)[k];
                &&& ids.contains(m.id)
                &&& m.source == home(old_slots, m.id).0
                &&& m.dest == home(new_slots, m.id).0
                &&& m.source != m.dest
            }),
    decreases ids.len(),
{
    if ids.len() > 0 {
        let head = ids.drop_last();
        law_moves(old_slots, new_slots, head);
        let before = moves_of(old_slots, new_slots, head);
        let all = moves_of(old_slots, new_slots, ids);
        assert forall|i: int|
            0 <= i < ids.len() && home(old_slots, ids[i]).0 != home(
                new_slots,
                ids[i],
            ).0 implies all.contains(
            (Move {
                id: #[trigger] ids[i],
                source: home(old_slots, ids[i]).0,
                dest: home(new_slots, ids[i]).0,
            }),
        ) by {
            let m = Move {
                id: ids[i],
                source: home(old_slots, ids[i]).0,
                dest: home(new_slots, ids[i]).0,
            };
            if i < head.len() {
                assert(head[i] == ids[i]);
                assert(before.contains(m));
                let k = choose|k: int| 0 <= k < before.len() && before[k] == m;
                assert(all[k] == m);
            } else {
                assert(all[all.len() - 1] == m);
            }
        }
        assert forall|k: int| 0 <= k < all.len() implies ({
            let m = #[trigger] all[k];
            &&& ids.contains(m.id)
            &&& m.source == home(old_slots, m.id).0
            &&& m.dest == home(new_slots, m.id).0
            &&& m.source != m.dest
        }) by {
            if k < before.len() {
                assert(all[k] == before[k]);
                let i = choose|i: int| 0 <= i < head.len() && head[i] == before[k].id;
                assert(ids[i] == before[k].id);
            } else {
                assert(ids[ids.len() - 1] == all[k].id);
            }
        }
    }
}

/// How many data are in batches.
pub open spec fn held(batches: Seq<BatchModel>) -> nat
    decreases batches.len(),
{
    if batches.len() == 0 {
        0
    } else {
        held(batches.drop_last()) + batches.last().ids.len()
    }
}

/// Whether one of some batches moves a datum as a move says.
pub open spec fn carries(batches: Seq<BatchModel>, m: Move) -> bool {
    exists|i: int|
        0 <= i < batches.len() && (#[trigger] batches[i]).takes(m) && batches[i].ids.contains(m.id)
}

proof fn lemma_held_update(batches: Seq<BatchModel>, i: int, b: BatchModel)
    requires
        0 <= i < batches.len(),
        b.ids.len() == batches[i].ids.len() + 1,
    ensures
        held(batches.update(i, b)) == held(batches) + 1,
    decreases batches.len(),
{
    let u = batches.update(i, b);
    if i < batches.len() - 1 {
        lemma_held_update(batches.drop_last(), i, b);
        assert(u.drop_last() =~= batches.drop_last().update(i, b));
    } else {
        assert(u.drop_last() =~= batches.drop_last());
    }
}

proof fn lemma_batch_found(batches: Seq<BatchModel>, m: Move)
    ensures
        batch_of(batches, m) < batches.len() ==> batches[batch_of(batches, m) as int].takes(m),
    decreases batches.len(),
{
    if batches.len() > 0 && !batches[0].takes(m) {
        lemma_batch_found(batches.skip(1), m);
    }
}

proof fn lemma_with_move(batches: Seq<BatchModel>, m: Move)
    ensures
        held(with_move(batches, m)) == held(batches) + 1,
        carries(with_move(batches, m), m),
        forall|n: Move| #[trigger] carries(batches, n) ==> carries(with_move(batches, m), n),
{
    let i = batch_of(batches, m) as int;
    let after = with_move(batches, m);
    lemma_batch_found(batches, m);
    if i < batches.len() {
        let b = BatchModel { ids: batches[i].ids.push(m.id), ..batches[i] };
        lemma_held_update(batches, i, b);
        assert(b.ids[b.ids.len() - 1] == m.id);
        assert(after[i].takes(m));
        assert forall|n: Move| #[trigger] carries(batches, n) implies carries(after, n) by {
            let k = choose|k: int|
                0 <= k < batches.len() && (#[trigger] batches[k]).takes(n)
                    && batches[k].ids.contains(n.id);
            assert(after[k].takes(n));
            if k == i {
                let p = choose|p: int|
                    0 <= p < batches[k].ids.len() && batches[k].ids[p] == n.id;
                assert(b.ids[p] == n.id);
            }
        }
    } else {
        assert(after.drop_last() =~= batches);
        let b = after.last();
        assert(b.ids[0] == m.id);
        assert(after[batches.len() as int].takes(m));
        assert forall|n: Move| #[trigger] carries(batches, n) implies carries(after, n) by {
            let k = choose|k: int|
                0 <= k < batches.len() && (#[trigger] batches[k]).takes(n)
                    && batches[k].ids.contains(n.id);
            assert(after[k].takes(n));
        }
    }
}

/// Batches carry every move, and nothing else.
pub proof fn law_batches_carry_every_move(moves: Seq<Move>)
    ensures
        held(batched(moves)) == moves.len(),
        forall|k: int|
            0 <= k < moves.len() ==> carries(batched(moves), #[trigger] moves[k]),
    decreases moves.len(),
{
    if moves.len() > 0 {
        let head = moves.drop_last();
        law_batches_carry_every_move(head);
        lemma_with_move(batched(head), moves.last());
        assert forall|k: int| 0 <= k < moves.len() implies carries(
            batched(moves),
            #[trigger] moves[k],
        ) by {
            if k < head.len() {
                assert(head[k] == moves[k]);
                assert(carries(batched(head), head[k]));
            }
        }
    }
}

proof fn lemma_batch_missing(batches: Seq<BatchModel>, m: Move)
    ensures
        batch_of(batches, m) >= batches.len() ==> forall|j: int|
            0 <= j < batches.len() ==> !(#[trigger] batches[j]).takes(m),
    decreases batches.len(),
{
    if batches.len() > 0 && !batches[0].takes(m) {
        let rest = batches.skip(1);
        lemma_batch_missing(rest, m);
        if batch_of(batches, m) >= batches.len() {
            assert forall|j: int| 0 <= j < batches.len() implies !(#[trigger] batches[j]).takes(
                m,
            ) by {
                if j > 0 {
                    assert(rest[j - 1] == batches[j]);
                }
            }
        }
    }
}

/// Every batch goes between other nodes than the others do.
pub proof fn law_batches_differ(moves: Seq<Move>)
    ensures
        forall|i: int, j: int|
            #![trigger batched(moves)[i], batched(moves)[j]]
            0 <= i < j < batched(moves).len() ==> (
            batched(moves)[i].source,
            batched(moves)[i].dest,
        ) != (batched(moves)[j].source, batched(moves)[j].dest),
    decreases moves.len(),
{
    if moves.len() > 0 {
        let before = batched(moves.drop_last());
        let m = moves.last();
        let after = batched(moves);
        law_batches_differ(moves.drop_last());
        lemma_batch_missing(before, m);
        assert forall|i: int, j: int|
            #![trigger after[i], after[j]]
            0 <= i < j < after.len() implies (after[i].source, after[i].dest) != (
            after[j].source,
            after[j].dest,
        ) by {
            if j < before.len() {
                assert((before[i].source, before[i].dest) != (before[j].source, before[j].dest));
            } else {
                assert(!before[i].takes(m));
            }
        }
    }
}

/// From a ring to the same ring nothing moves.
pub proof fn law_same_ring_moves_nothing(slots: Seq<Slot>, ids: Seq<DatumId>)
    ensures
        moves_of(slots, slots, ids).len() == 0,
    decreases ids.len(),
{
    if ids.len() > 0 {
        law_same_ring_moves_nothing(slots, ids.drop_last());
    }
}

/// Where a step stands in a migration.
pub open spec fn position(computes: usize, transfers: usize, step: Step) -> int {
    match step {
        Step::Copy(i) => i as int,
        Step::Pause(i) => transfers + i,
        Step::Tail(i) => transfers + computes + i,
        Step::Flip(i) => 2 * transfers + computes + i,
        Step::Resume(i) => 2 * transfers + 2 * computes + i,
        Step::Retire(i) => 2 * transfers + 3 * computes + i,
    }
}

/// Whether a step belongs to a migration.
pub open spec fn belongs(computes: usize, transfers: usize, step: Step) -> bool {
    match step {
        Step::Copy(i) => i < transfers,
        Step::Pause(i) => i < computes,
        Step::Tail(i) => i < transfers,
        Step::Flip(i) => i < computes,
        Step::Resume(i) => i < computes,
        Step::Retire(i) => i < transfers,
    }
}

/// Every step of a migration is taken, once, at its place.
pub proof fn law_script(computes: usize, transfers: usize, step: Step)
    requires
        belongs(computes, transfers, step),
    ensures
        0 <= position(computes, transfers, step) < script_of(computes, transfers).len(),
        script_of(computes, transfers)[position(computes, transfers, step)] == step,
        forall|k: int|
            0 <= k < script_of(computes, transfers).len() && #[trigger] script_of(
                computes,
                transfers,
            )[k] == step ==> k == position(computes, transfers, step),
{
    let s = script_of(computes, transfers);
    assert(s.len() == 3 * transfers + 3 * computes);
    assert forall|k: int| 0 <= k < s.len() && #[trigger] s[k] == step implies k == position(
        computes,
        transfers,
        step,
    ) by {}
}

/// Nothing is deleted before the new ring is installed everywhere.
pub proof fn law_retire_after_every_flip(computes: usize, transfers: usize, i: usize, j: usize)
    requires
        i < transfers,
        j < computes,
    ensures
        position(computes, transfers, Step::Flip(j)) < position(
            computes,
            transfers,
            Step::Retire(i),
        ),
{
}

/// The new ring is installed, and what was written meanwhile is sent, while
/// every compute node pauses.
pub proof fn law_flip_under_pause(computes: usize, transfers: usize, i: usize, j: usize, k: usize)
    requires
        i < computes,
        j < computes,
        k < transfers,
    ensures
        position(computes, transfers, Step::Pause(i)) < position(
            computes,
            transfers,
            Step::Tail(k),
        ),
        position(computes, transfers, Step::Tail(k)) < position(computes, transfers, Step::Flip(j)),
        position(computes, transfers, Step::Flip(j)) < position(
            computes,
            transfers,
            Step::Resume(i),
        ),
{
}

/// The phase of a migration that a step belongs to.
pub open spec fn phase_number(step: Step) -> int {
    match step {
        Step::Copy(_) => 0,
        Step::Pause(_) => 1,
        Step::Tail(_) => 2,
        Step::Flip(_) => 3,
        Step::Resume(_) => 4,
        Step::Retire(_) => 5,
    }
}

/// A migration first copies everything, then pauses every compute node, then sends
/// what was written meanwhile, then installs the new ring everywhere, then resumes,
/// and deletes at the very end: of two steps the later one is of no earlier phase.
pub proof fn law_phases_follow_each_other(computes: usize, transfers: usize, a: int, b: int)
    requires
        0 <= a < b < script_of(computes, transfers).len(),
    ensures
        phase_number(script_of(computes, transfers)[a]) <= phase_number(
            script_of(computes, transfers)[b],
        ),
        script_of(computes, transfers)[a] != script_of(computes, transfers)[b],
        script_of(computes, transfers).len() == 3 * transfers + 3 * computes,
{
}

/// Batches move nothing that is not to be moved: each datum of a batch is one of the
/// moves, between the nodes of the batch.
pub proof fn law_batches_carry_nothing_else(moves: Seq<Move>, i: int, j: int)
    requires
        0 <= i < batched(moves).len(),
        0 <= j < batched(moves)[i].ids.len(),
    ensures
        moves.contains(
            (Move {
                id: batched(moves)[i].ids[j],
                source: batched(moves)[i].source,
                dest: batched(moves)[i].dest,
            }),
        ),
    decreases moves.len(),
{
    if moves.len() > 0 {
        let head = moves.drop_last();
        let before = batched(head);
        let last = moves.last();
        let after = batched(moves);
        let at = batch_of(before, last) as int;
        lemma_batch_found(before, last);
        let m = Move { id: after[i].ids[j], source: after[i].source, dest: after[i].dest };
        assert(moves[moves.len() - 1] == last);
        if i < before.len() && j < before[i].ids.len() {
            law_batches_carry_nothing_else(head, i, j);
            let k = choose|k: int| 0 <= k < head.len() && head[k] == m;
            assert(moves[k] == m);
        } else {
            assert(m == last);
        }
    }
}

/// The ids of a page follow those of the pages before it, in their order, and the
/// next page is asked for behind the last of them. A page that says so, or that is
/// empty, is the last.
pub proof fn law_pages_follow_each_other(
    p: PagerModel,
    page: Seq<(DatumId, u16)>,
    done: bool,
    i: int,
)
    ensures
        ({
            let after = p.with_page(page, done);
            &&& after.ids.len() == p.ids.len() + page.len()
            &&& 0 <= i < p.ids.len() ==> after.ids[i] == p.ids[i]
            &&& 0 <= i < page.len() ==> after.ids[p.ids.len() + i] == page[i].0
            &&& page.len() > 0 ==> after.after == Some(page[page.len() - 1].0)
            &&& after.done <==> done || page.len() == 0
        }),
{
}

/// The address of a node is that of one of the members with its id, and there is
/// none exactly where there is no such member.
pub proof fn law_address_is_the_members(members: Seq<StorageMemberModel>, node: NodeId)
    ensures
        address_among(members, node) is Some <==> exists|i: int|
            0 <= i < members.len() && (#[trigger] members[i]).node_id == node,
        address_among(members, node) matches Some(a) ==> exists|i: int|
            0 <= i < members.len() && (#[trigger] members[i]).node_id == node
                && members[i].store_address == a,
    decreases members.len(),
{
    if members.len() > 0 {
        let head = members.drop_last();
        law_address_is_the_members(head, node);
        if members.last().node_id == node {
            assert(members[members.len() - 1].node_id == node);
        } else {
            if exists|i: int| 0 <= i < members.len() && (#[trigger] members[i]).node_id == node {
                let i = choose|i: int|
                    0 <= i < members.len() && (#[trigger] members[i]).node_id == node;
                assert(head[i].node_id == node);
            }
            if let Some(a) = address_among(head, node) {
                let i = choose|i: int|
                    0 <= i < head.len() && (#[trigger] head[i]).node_id == node
                        && head[i].store_address == a;
                assert(members[i] == head[i]);
            }
        }
    }
}

} // verus!
