//! A migration on its way: which call its driver makes next, and what the answer
//! leads to.

use crate::admin_wire::{AdminReplyModel, AdminRequestModel};
use crate::authority::NodeId;
use crate::datum::{copy_ids, is_uuid_version, DatumId};
use crate::migrate::{
    address_among, address_of, batched, batches_view, belongs, law_script, moves_of, position,
    script, script_of, Batch, BatchModel, Move, Step,
};
use crate::ring::{has_node, home, joined, law_home_in_ring, lemma_joined_nodes};
use crate::server::{
    member_weights, members_view, AdminReply, AdminRequest, StorageMember, StorageMemberModel,
};
use crate::store_wire::{StoreRequest, StoreRequestModel, StoreResponse, StoreResponseModel};
use crate::text::copy_text;
use vstd::prelude::*;
use vstd::string::*;

verus! {

/// Why compute nodes pause for a migration.
pub const PAUSE_REASON: &'static str = "migrating";

// ---- transfers ----

/// A batch with the addresses it moves between, and the id of its transfer.
#[derive(Debug, PartialEq, Eq)]
pub struct TransferPlan {
    pub source_address: String,
    pub dest_address: String,
    pub transfer_id: DatumId,
    pub ids: Vec<DatumId>,
}

/// The mathematical content of a [`TransferPlan`].
pub struct TransferPlanModel {
    pub source_address: Seq<char>,
    pub dest_address: Seq<char>,
    pub transfer_id: DatumId,
    pub ids: Seq<DatumId>,
}

impl View for TransferPlan {
    type V = TransferPlanModel;

    open spec fn view(&self) -> TransferPlanModel {
        TransferPlanModel {
            source_address: self.source_address@,
            dest_address: self.dest_address@,
            transfer_id: self.transfer_id,
            ids: self.ids@,
        }
    }
}

/// Transfers, viewed.
pub open spec fn plans_view(plans: Seq<TransferPlan>) -> Seq<TransferPlanModel> {
    Seq::new(plans.len(), |i: int| plans[i]@)
}

/// A node whose address is not known.
#[derive(Debug, Clone, Copy, PartialEq, Eq, Structural)]
pub enum NoAddress {
    Source(NodeId),
    Dest(NodeId),
}

/// Whether the addresses that a batch moves between are known.
pub open spec fn has_addresses(
    batch: BatchModel,
    current: Seq<StorageMemberModel>,
    proposed: Seq<StorageMemberModel>,
) -> bool {
    address_among(current, batch.source) is Some && address_among(proposed, batch.dest) is Some
}

/// Whether a transfer is the one for a batch, whatever its id.
pub open spec fn plans(
    plan: TransferPlanModel,
    batch: BatchModel,
    current: Seq<StorageMemberModel>,
    proposed: Seq<StorageMemberModel>,
) -> bool {
    &&& Some(plan.source_address) == address_among(current, batch.source)
    &&& Some(plan.dest_address) == address_among(proposed, batch.dest)
    &&& plan.ids == batch.ids
}

/// Plans a transfer for each batch, under a fresh id. The first batch whose
/// addresses are not known is an error.
pub fn plan_transfers(
    batches: &Vec<Batch>,
    current: &Vec<StorageMember>,
    proposed: &Vec<StorageMember>,
) -> (r: Result<Vec<TransferPlan>, NoAddress>)
    ensures
        ({
            let b = batches_view(batches@);
            let old = members_view(current@);
            let new = members_view(proposed@);
            match r {
                Ok(transfers) => {
                    &&& transfers@.len() == b.len()
                    &&& forall|i: int|
                        0 <= i < b.len() ==> plans(#[trigger] transfers@[i]@, b[i], old, new)
                            && is_uuid_version(transfers@[i].transfer_id.bytes(), 7)
                },
                Err(e) => exists|i: int|
                    {
                        &&& 0 <= i < b.len()
                        &&& !#[trigger] has_addresses(b[i], old, new)
                        &&& forall|j: int| 0 <= j < i ==> has_addresses(b[j], old, new)
                        &&& e == if address_among(old, b[i].source) is None {
                            NoAddress::Source(b[i].source)
                        } else {
                            NoAddress::Dest(b[i].dest)
                        }
                    },
            }
        }),
{
    let ghost b = batches_view(batches@);
    let ghost old = members_view(current@);
    let ghost new = members_view(proposed@);
    let mut transfers: Vec<TransferPlan> = Vec::new();
    let mut i: usize = 0;
    while i < batches.len()
        invariant
            i <= batches.len(),
            b == batches_view(batches@),
            old == members_view(current@),
            new == members_view(proposed@),
            transfers@.len() == i,
            forall|j: int|
                0 <= j < i ==> plans(#[trigger] transfers@[j]@, b[j], old, new) && is_uuid_version(
                    transfers@[j].transfer_id.bytes(),
                    7,
                ),
            forall|j: int| 0 <= j < i ==> #[trigger] has_addresses(b[j], old, new),
        decreases batches.len() - i,
    {
        let batch = &batches[i];
        assert(b[i as int] == batch@);
        let source_address = match address_of(current, batch.source) {
            Some(address) => address,
            None => {
                assert(!has_addresses(b[i as int], old, new));
                return Err(NoAddress::Source(batch.source));
            },
        };
        let dest_address = match address_of(proposed, batch.dest) {
            Some(address) => address,
            None => {
                assert(!has_addresses(b[i as int], old, new));
                return Err(NoAddress::Dest(batch.dest));
            },
        };
        assert(has_addresses(b[i as int], old, new));
        transfers.push(
            TransferPlan {
                source_address,
                dest_address,
                transfer_id: DatumId::new(),
                ids: copy_ids(&batch.ids),
            },
        );
        i = i + 1;
    }
    Ok(transfers)
}

// ---- the driver ----

/// A call that the driver of a migration makes.
#[derive(Debug, PartialEq, Eq)]
pub enum DriverCall {
    Compute { address: String, request: AdminRequest },
    Store { address: String, request: StoreRequest },
}

/// The mathematical content of a [`DriverCall`].
pub enum DriverCallModel {
    Compute { address: Seq<char>, request: AdminRequestModel },
    Store { address: Seq<char>, request: StoreRequestModel },
}

impl View for DriverCall {
    type V = DriverCallModel;

    open spec fn view(&self) -> DriverCallModel {
        match self {
            DriverCall::Compute { address, request } => DriverCallModel::Compute {
                address: address@,
                request: request@,
            },
            DriverCall::Store { address, request } => DriverCallModel::Store {
                address: address@,
                request: request@,
            },
        }
    }
}

/// What a driver was answered.
pub enum AnswerModel {
    Compute(AdminReplyModel),
    Store(StoreResponseModel),
}

/// What follows from an answer.
#[derive(Debug, Clone, Copy, PartialEq, Eq, Structural)]
pub enum Progress {
    /// Make the next call.
    On,
    /// Make the same call again, after a while.
    Wait,
}

/// A migration with all its transfers planned.
pub struct Migration {
    computes: Vec<String>,
    transfers: Vec<TransferPlan>,
    members: Vec<StorageMember>,
    steps: Vec<Step>,
    next: usize,
    copying: bool,
}

/// The mathematical content of a [`Migration`]: the addresses of the compute
/// nodes, the transfers, the members of the new ring, how many steps were taken,
/// and whether the transfer at hand was started.
pub struct MigrationModel {
    pub computes: Seq<Seq<char>>,
    pub transfers: Seq<TransferPlanModel>,
    pub members: Seq<StorageMemberModel>,
    pub next: int,
    pub copying: bool,
}

/// Texts, viewed.
pub open spec fn texts_view(texts: Seq<String>) -> Seq<Seq<char>> {
    Seq::new(texts.len(), |i: int| texts[i]@)
}

impl View for Migration {
    type V = MigrationModel;

    closed spec fn view(&self) -> MigrationModel {
        MigrationModel {
            computes: texts_view(self.computes@),
            transfers: plans_view(self.transfers@),
            members: members_view(self.members@),
            next: self.next as int,
            copying: self.copying,
        }
    }
}

impl MigrationModel {
    /// All the steps.
    pub open spec fn steps(self) -> Seq<Step> {
        script_of(self.computes.len() as usize, self.transfers.len() as usize)
    }

    /// The step at hand; none, once all were taken.
    pub open spec fn step(self) -> Option<Step> {
        if 0 <= self.next < self.steps().len() {
            Some(self.steps()[self.next])
        } else {
            None
        }
    }

    /// The call that a step asks for.
    pub open spec fn call_for(self, step: Step) -> DriverCallModel {
        match step {
            Step::Copy(i) => {
                let t = self.transfers[i as int];
                DriverCallModel::Store {
                    address: t.source_address,
                    request: if self.copying {
                        StoreRequestModel::TransferStatus { transfer_id: t.transfer_id }
                    } else {
                        StoreRequestModel::Transfer {
                            transfer_id: t.transfer_id,
                            ids: t.ids,
                            dest_address: t.dest_address,
                        }
                    },
                }
            },
            Step::Pause(i) => DriverCallModel::Compute {
                address: self.computes[i as int],
                request: AdminRequestModel::Pause { reason: PAUSE_REASON@ },
            },
            Step::Tail(i) => DriverCallModel::Store {
                address: self.transfers[i as int].source_address,
                request: StoreRequestModel::FinishTransfer {
                    transfer_id: self.transfers[i as int].transfer_id,
                },
            },
            Step::Flip(i) => DriverCallModel::Compute {
                address: self.computes[i as int],
                request: AdminRequestModel::InstallStorageRing { members: self.members },
            },
            Step::Resume(i) => DriverCallModel::Compute {
                address: self.computes[i as int],
                request: AdminRequestModel::Resume,
            },
            Step::Retire(i) => DriverCallModel::Store {
                address: self.transfers[i as int].source_address,
                request: StoreRequestModel::Retire {
                    transfer_id: self.transfers[i as int].transfer_id,
                },
            },
        }
    }

    /// The call that is to be made; none, once all steps were taken.
    pub open spec fn calls(self) -> Option<DriverCallModel> {
        match self.step() {
            Some(step) => Some(self.call_for(step)),
            None => None,
        }
    }

    /// The migration once the step at hand was taken.
    pub open spec fn stepped(self) -> MigrationModel {
        MigrationModel { next: self.next + 1, copying: false, ..self }
    }

    /// What an answer of a storage node leads to; nothing, where it is none to
    /// the call that was made.
    pub open spec fn after_store(self, response: StoreResponseModel) -> Option<
        (MigrationModel, Progress),
    > {
        match (self.step(), response) {
            (Some(Step::Copy(_)), StoreResponseModel::Ack) if !self.copying => Some(
                (MigrationModel { copying: true, ..self }, Progress::On),
            ),
            (
                Some(Step::Copy(_)),
                StoreResponseModel::TransferProgress { done, .. },
            ) if self.copying => if done {
                Some((self.stepped(), Progress::On))
            } else {
                Some((self, Progress::Wait))
            },
            (Some(Step::Tail(_)), StoreResponseModel::Ack) => Some((self.stepped(), Progress::On)),
            (Some(Step::Retire(_)), StoreResponseModel::Ack) => Some(
                (self.stepped(), Progress::On),
            ),
            _ => None,
        }
    }

    /// What an answer of a compute node leads to; nothing, where it is none to
    /// the call that was made.
    pub open spec fn after_compute(self, reply: AdminReplyModel) -> Option<MigrationModel> {
        match (self.step(), reply) {
            (Some(Step::Pause(_)), AdminReplyModel::Ack) => Some(self.stepped()),
            (Some(Step::Flip(_)), AdminReplyModel::Ack) => Some(self.stepped()),
            (Some(Step::Resume(_)), AdminReplyModel::Ack) => Some(self.stepped()),
            _ => None,
        }
    }
}

fn copy_members(members: &Vec<StorageMember>) -> (copy: Vec<StorageMember>)
    ensures
        members_view(copy@) == members_view(members@),
{
    let mut copy: Vec<StorageMember> = Vec::new();
    let mut i: usize = 0;
    while i < members.len()
        invariant
            i <= members.len(),
            copy@.len() == i,
            forall|j: int| 0 <= j < i ==> #[trigger] copy@[j] == members@[j],
        decreases members.len() - i,
    {
        copy.push(members[i].clone());
        i = i + 1;
    }
    assert(members_view(copy@) =~= members_view(members@));
    copy
}

/// The numbers in the steps of a migration are positions of its compute nodes
/// and transfers.
proof fn lemma_steps_in_range(computes: usize, transfers: usize, k: int)
    requires
        0 <= k < script_of(computes, transfers).len(),
    ensures
        (match script_of(computes, transfers)[k] {
            Step::Copy(i) => i < transfers,
            Step::Pause(i) => i < computes,
            Step::Tail(i) => i < transfers,
            Step::Flip(i) => i < computes,
            Step::Resume(i) => i < computes,
            Step::Retire(i) => i < transfers,
        }),
{
}

impl Migration {
    pub closed spec fn wf(self) -> bool {
        &&& self.steps@ == script_of(self.computes@.len() as usize, self.transfers@.len() as usize)
        &&& self.next <= self.steps@.len()
    }

    /// A migration that has not begun.
    pub fn new(
        computes: Vec<String>,
        transfers: Vec<TransferPlan>,
        members: Vec<StorageMember>,
    ) -> (migration: Self)
        ensures
            migration.wf(),
            migration@ == (MigrationModel {
                computes: texts_view(computes@),
                transfers: plans_view(transfers@),
                members: members_view(members@),
                next: 0,
                copying: false,
            }),
            migration@.fresh(),
    {
        let steps = script(computes.len(), transfers.len());
        Migration { computes, transfers, members, steps, next: 0, copying: false }
    }

    /// The call that is to be made; none, once all steps were taken.
    pub fn call(&self) -> (call: Option<DriverCall>)
        requires
            self.wf(),
        ensures
            (match call {
                Some(c) => Some(c@),
                None => None,
            }) == self@.calls(),
    {
        if self.next >= self.steps.len() {
            return None;
        }
        proof {
            lemma_steps_in_range(
                self.computes@.len() as usize,
                self.transfers@.len() as usize,
                self.next as int,
            );
        }
        let call = match self.steps[self.next] {
            Step::Copy(i) => {
                let t = &self.transfers[i];
                let transfer_id = t.transfer_id;
                DriverCall::Store {
                    address: copy_text(t.source_address.as_str()),
                    request: if self.copying {
                        StoreRequest::TransferStatus { transfer_id }
                    } else {
                        StoreRequest::Transfer {
                            transfer_id,
                            ids: copy_ids(&t.ids),
                            dest_address: copy_text(t.dest_address.as_str()),
                        }
                    },
                }
            },
            Step::Pause(i) => DriverCall::Compute {
                address: copy_text(self.computes[i].as_str()),
                request: AdminRequest::Pause { reason: copy_text(PAUSE_REASON) },
            },
            Step::Tail(i) => DriverCall::Store {
                address: copy_text(self.transfers[i].source_address.as_str()),
                request: StoreRequest::FinishTransfer {
                    transfer_id: self.transfers[i].transfer_id,
                },
            },
            Step::Flip(i) => DriverCall::Compute {
                address: copy_text(self.computes[i].as_str()),
                request: AdminRequest::InstallStorageRing { members: copy_members(&self.members) },
            },
            Step::Resume(i) => DriverCall::Compute {
                address: copy_text(self.computes[i].as_str()),
                request: AdminRequest::Resume,
            },
            Step::Retire(i) => DriverCall::Store {
                address: copy_text(self.transfers[i].source_address.as_str()),
                request: StoreRequest::Retire { transfer_id: self.transfers[i].transfer_id },
            },
        };
        Some(call)
    }

    /// Takes the answer of a storage node. One that is none to the call that was
    /// made is given back, and the migration stays where it is.
    pub fn store_answered(&mut self, response: StoreResponse) -> (r: Result<
        Progress,
        StoreResponse,
    >)
        requires
            old(self).wf(),
        ensures
            final(self).wf(),
            (match old(self)@.after_store(response@) {
                Some((after, progress)) => r == Ok::<Progress, StoreResponse>(progress)
                    && final(self)@ == after,
                None => r == Err::<Progress, StoreResponse>(response) && final(self)@ == old(
                    self,
                )@,
            }),
    {
        if self.next >= self.steps.len() {
            return Err(response);
        }
        match (self.steps[self.next], &response) {
            (Step::Copy(_), StoreResponse::Ack) => {
                if self.copying {
                    return Err(response);
                }
                self.copying = true;
                Ok(Progress::On)
            },
            (Step::Copy(_), StoreResponse::TransferProgress { done, .. }) => {
                if !self.copying {
                    return Err(response);
                }
                if !*done {
                    return Ok(Progress::Wait);
                }
                self.next = self.next + 1;
                self.copying = false;
                Ok(Progress::On)
            },
            (Step::Tail(_), StoreResponse::Ack) => {
                self.next = self.next + 1;
                self.copying = false;
                Ok(Progress::On)
            },
            (Step::Retire(_), StoreResponse::Ack) => {
                self.next = self.next + 1;
                self.copying = false;
                Ok(Progress::On)
            },
            _ => Err(response),
        }
    }

    /// Takes the answer of a compute node. One that is none to the call that was
    /// made is given back, and the migration stays where it is.
    pub fn compute_answered(&mut self, reply: AdminReply) -> (r: Result<(), AdminReply>)
        requires
            old(self).wf(),
        ensures
            final(self).wf(),
            (match old(self)@.after_compute(reply@) {
                Some(after) => r is Ok && final(self)@ == after,
                None => r == Err::<(), AdminReply>(reply) && final(self)@ == old(self)@,
            }),
    {
        if self.next >= self.steps.len() {
            return Err(reply);
        }
        match (self.steps[self.next], &reply) {
            (Step::Pause(_), AdminReply::Ack) => {},
            (Step::Flip(_), AdminReply::Ack) => {},
            (Step::Resume(_), AdminReply::Ack) => {},
            _ => {
                return Err(reply);
            },
        }
        self.next = self.next + 1;
        self.copying = false;
        Ok(())
    }
}

// ---- laws ----

/// The addresses of everything that moves are known: it moves from a node of the
/// one ring to a node of the other.
pub proof fn law_moves_have_addresses(
    current: Seq<StorageMemberModel>,
    proposed: Seq<StorageMemberModel>,
    ids: Seq<DatumId>,
    i: int,
)
    requires
        joined(member_weights(current)).len() > 0,
        joined(member_weights(proposed)).len() > 0,
        0 <= i < moves_of(
            joined(member_weights(current)),
            joined(member_weights(proposed)),
            ids,
        ).len(),
    ensures
        ({
            let m = moves_of(
                joined(member_weights(current)),
                joined(member_weights(proposed)),
                ids,
            )[i];
            address_among(current, m.source) is Some && address_among(proposed, m.dest) is Some
        }),
    decreases ids.len(),
{
    let old = joined(member_weights(current));
    let new = joined(member_weights(proposed));
    if ids.len() > 0 {
        let before = moves_of(old, new, ids.drop_last());
        if i < before.len() {
            law_moves_have_addresses(current, proposed, ids.drop_last(), i);
        } else {
            lemma_home_has_address(current, ids.last());
            lemma_home_has_address(proposed, ids.last());
        }
    }
}

/// The addresses of every batch are known, where its moves come from two rings:
/// no migration ends for want of an address.
pub proof fn law_batches_have_addresses(
    current: Seq<StorageMemberModel>,
    proposed: Seq<StorageMemberModel>,
    ids: Seq<DatumId>,
    i: int,
)
    requires
        joined(member_weights(current)).len() > 0,
        joined(member_weights(proposed)).len() > 0,
        0 <= i < batched(
            moves_of(joined(member_weights(current)), joined(member_weights(proposed)), ids),
        ).len(),
    ensures
        has_addresses(
            batched(
                moves_of(joined(member_weights(current)), joined(member_weights(proposed)), ids),
            )[i],
            current,
            proposed,
        ),
{
    let moves = moves_of(joined(member_weights(current)), joined(member_weights(proposed)), ids);
    lemma_batch_has_move(moves, i);
    let k = choose|k: int| 0 <= k < moves.len() && batched(moves)[i].takes(#[trigger] moves[k]);
    law_moves_have_addresses(current, proposed, ids, k);
}

proof fn lemma_batch_has_move(moves: Seq<Move>, i: int)
    requires
        0 <= i < batched(moves).len(),
    ensures
        exists|k: int| 0 <= k < moves.len() && batched(moves)[i].takes(#[trigger] moves[k]),
    decreases moves.len(),
{
    let last = moves.len() - 1;
    if i < batched(moves.drop_last()).len() {
        lemma_batch_has_move(moves.drop_last(), i);
        let k = choose|k: int|
            0 <= k < last && batched(moves.drop_last())[i].takes(#[trigger] moves.drop_last()[k]);
        assert(batched(moves)[i].takes(moves[k]));
    } else {
        assert(batched(moves)[i].takes(moves[last]));
    }
}

proof fn lemma_home_has_address(members: Seq<StorageMemberModel>, id: DatumId)
    requires
        joined(member_weights(members)).len() > 0,
    ensures
        address_among(members, home(joined(member_weights(members)), id).0) is Some,
{
    let slots = joined(member_weights(members));
    let node = home(slots, id).0;
    law_home_in_ring(slots, id);
    let k = choose|k: int| 0 <= k < slots.len() && slots[k] == home(slots, id);
    assert(slots[k].0 == node);
    assert(has_node(slots, node));
    lemma_joined_nodes(member_weights(members), node);
    let j = choose|j: int|
        0 <= j < member_weights(members).len() && (#[trigger] member_weights(members)[j]).0 == node;
    lemma_member_has_address(members, j);
}

proof fn lemma_member_has_address(members: Seq<StorageMemberModel>, j: int)
    requires
        0 <= j < members.len(),
    ensures
        address_among(members, members[j].node_id) is Some,
    decreases members.len(),
{
    if j < members.len() - 1 {
        lemma_member_has_address(members.drop_last(), j);
    }
}

impl MigrationModel {
    /// A migration that has not begun.
    pub open spec fn fresh(self) -> bool {
        self.next == 0 && !self.copying && self.computes.len() <= usize::MAX && self.transfers.len()
            <= usize::MAX
    }

    /// What an answer leads to.
    pub open spec fn after(self, answer: AnswerModel) -> Option<MigrationModel> {
        match answer {
            AnswerModel::Compute(reply) => self.after_compute(reply),
            AnswerModel::Store(response) => match self.after_store(response) {
                Some((after, _)) => Some(after),
                None => None,
            },
        }
    }
}

/// A migration after some answers; nothing, where one of them ended it.
pub open spec fn migrated(start: MigrationModel, answers: Seq<AnswerModel>) -> Option<
    MigrationModel,
>
    decreases answers.len(),
{
    if answers.len() == 0 {
        Some(start)
    } else {
        match migrated(start, answers.drop_last()) {
            Some(m) => m.after(answers.last()),
            None => None,
        }
    }
}

/// Whether one of some answers was the one that completed a step: the call that
/// the step asks for was at hand, and the answer was what it should be.
pub open spec fn completed(start: MigrationModel, answers: Seq<AnswerModel>, step: Step) -> bool {
    exists|k: int| #[trigger] completed_by(start, answers, step, k)
}

/// Whether the answer at a place completed a step.
pub open spec fn completed_by(
    start: MigrationModel,
    answers: Seq<AnswerModel>,
    step: Step,
    k: int,
) -> bool {
    &&& 0 <= k < answers.len()
    &&& migrated(start, answers.take(k)) matches Some(before) && {
        &&& before.step() == Some(step)
        &&& before.calls() == Some(before.call_for(step))
        &&& before.after(answers[k]) == Some(before.stepped())
    }
}

proof fn lemma_migrated(start: MigrationModel, answers: Seq<AnswerModel>, p: int)
    requires
        start.fresh(),
        migrated(start, answers) is Some,
    ensures
        ({
            let m = migrated(start, answers)->0;
            &&& m.computes == start.computes
            &&& m.transfers == start.transfers
            &&& m.members == start.members
            &&& 0 <= m.next
            &&& 0 <= p < m.next ==> p < start.steps().len() && completed(
                start,
                answers,
                start.steps()[p],
            )
        }),
    decreases answers.len(),
{
    if answers.len() > 0 {
        let head = answers.drop_last();
        let last = answers.len() - 1;
        lemma_migrated(start, head, p);
        let before = migrated(start, head)->0;
        let m = migrated(start, answers)->0;
        assert(answers.take(last) =~= head);
        if 0 <= p < before.next {
            let step = start.steps()[p];
            let k = choose|k: int| #[trigger] completed_by(start, head, step, k);
            assert(answers.take(k) =~= head.take(k));
            assert(completed_by(start, answers, step, k));
        } else if 0 <= p < m.next {
            assert(p == before.next);
            assert(completed_by(start, answers, start.steps()[p], last));
        }
    }
}

/// Nothing is deleted before everything is where it should be: whatever the
/// answers are, a retirement is at hand only once every transfer was copied and
/// its tail sent, and every compute node has paused, installed the new ring and
/// resumed, each as it was asked to.
pub proof fn law_retirement_comes_last(
    start: MigrationModel,
    answers: Seq<AnswerModel>,
    i: usize,
    transfer: usize,
    compute: usize,
)
    requires
        start.fresh(),
        migrated(start, answers) matches Some(m) && m.step() == Some(Step::Retire(i)),
    ensures
        transfer < start.transfers.len() ==> completed(start, answers, Step::Copy(transfer))
            && completed(start, answers, Step::Tail(transfer)),
        compute < start.computes.len() ==> completed(start, answers, Step::Pause(compute))
            && completed(start, answers, Step::Flip(compute)) && completed(
            start,
            answers,
            Step::Resume(compute),
        ),
{
    let m = migrated(start, answers)->0;
    let c = start.computes.len() as usize;
    let t = start.transfers.len() as usize;
    lemma_migrated(start, answers, 0);
    lemma_steps_in_range(c, t, m.next);
    law_script(c, t, Step::Retire(i));
    if transfer < t {
        lemma_completed(start, answers, Step::Copy(transfer), i);
        lemma_completed(start, answers, Step::Tail(transfer), i);
    }
    if compute < c {
        lemma_completed(start, answers, Step::Pause(compute), i);
        lemma_completed(start, answers, Step::Flip(compute), i);
        lemma_completed(start, answers, Step::Resume(compute), i);
    }
}

/// A step that stands before a retirement is completed once that is at hand.
proof fn lemma_completed(start: MigrationModel, answers: Seq<AnswerModel>, step: Step, i: usize)
    requires
        start.fresh(),
        migrated(start, answers) matches Some(m) && m.step() == Some(Step::Retire(i)),
        !(step is Retire),
        belongs(start.computes.len() as usize, start.transfers.len() as usize, step),
    ensures
        completed(start, answers, step),
{
    let m = migrated(start, answers)->0;
    let c = start.computes.len() as usize;
    let t = start.transfers.len() as usize;
    let p = position(c, t, step);
    lemma_migrated(start, answers, p);
    lemma_steps_in_range(c, t, m.next);
    law_script(c, t, step);
    law_script(c, t, Step::Retire(i));
    assert(m.steps()[m.next] == Step::Retire(i));
    assert(m.next == position(c, t, Step::Retire(i)));
}

/// No step of a migration is skipped: the next is at hand only once the one
/// before it was answered as it should be.
pub proof fn law_no_step_is_skipped(
    m: MigrationModel,
    response: StoreResponseModel,
    reply: AdminReplyModel,
)
    ensures
        m.after_store(response) matches Some((after, _)) ==> after.steps() == m.steps() && (
        after.next == m.next || after.next == m.next + 1),
        m.after_store(response) matches Some((after, _)) && after.next > m.next ==> response is Ack
            || (response matches StoreResponseModel::TransferProgress { done, .. } && done),
        m.after_compute(reply) matches Some(after) ==> after.steps() == m.steps() && after.next
            == m.next + 1 && reply is Ack,
{
}

/// Each step calls whom it should with what it should: a transfer is begun,
/// watched, finished and retired at its source, begun with its data and its
/// destination, and each compute node is paused, told the new members of the
/// storage ring and resumed.
pub proof fn law_steps_call_whom_they_should(m: MigrationModel, i: usize)
    ensures
        ({
            let t = m.transfers[i as int];
            let transfer_id = t.transfer_id;
            &&& m.step() == Some(Step::Copy(i)) && !m.copying ==> m.calls() == Some(
                DriverCallModel::Store {
                    address: t.source_address,
                    request: StoreRequestModel::Transfer {
                        transfer_id,
                        ids: t.ids,
                        dest_address: t.dest_address,
                    },
                },
            )
            &&& m.step() == Some(Step::Copy(i)) && m.copying ==> m.calls() == Some(
                DriverCallModel::Store {
                    address: t.source_address,
                    request: StoreRequestModel::TransferStatus { transfer_id },
                },
            )
            &&& m.step() == Some(Step::Tail(i)) ==> m.calls() == Some(
                DriverCallModel::Store {
                    address: t.source_address,
                    request: StoreRequestModel::FinishTransfer { transfer_id },
                },
            )
            &&& m.step() == Some(Step::Retire(i)) ==> m.calls() == Some(
                DriverCallModel::Store {
                    address: t.source_address,
                    request: StoreRequestModel::Retire { transfer_id },
                },
            )
            &&& m.step() == Some(Step::Pause(i)) ==> (m.calls() matches Some(
                DriverCallModel::Compute { address, request },
            ) && address == m.computes[i as int] && request is Pause)
            &&& m.step() == Some(Step::Flip(i)) ==> m.calls() == Some(
                DriverCallModel::Compute {
                    address: m.computes[i as int],
                    request: AdminRequestModel::InstallStorageRing { members: m.members },
                },
            )
            &&& m.step() == Some(Step::Resume(i)) ==> m.calls() == Some(
                DriverCallModel::Compute {
                    address: m.computes[i as int],
                    request: AdminRequestModel::Resume,
                },
            )
            &&& m.step() is None ==> m.calls() is None
        }),
{
}

/// A copy is waited for: its step is taken only once the source has said, after it
/// took the transfer in, that everything was copied. Until then the same is asked
/// again.
pub proof fn law_copy_is_waited_for(m: MigrationModel, i: usize, answer: AnswerModel)
    requires
        m.step() == Some(Step::Copy(i)),
    ensures
        m.after(answer) matches Some(after) ==> {
            &&& after.next == m.next || after.next == m.next + 1
            &&& after.next > m.next ==> m.copying && (answer matches AnswerModel::Store(
                StoreResponseModel::TransferProgress { done, .. },
            ) && done)
            &&& after.next == m.next ==> after.copying && (m.copying ==> after == m)
        },
        !m.copying ==> (answer == AnswerModel::Store(StoreResponseModel::Ack) <==> m.after(
            answer,
        ) is Some),
        m.copying ==> (m.after(answer) is Some <==> (answer matches AnswerModel::Store(r)
            && r is TransferProgress)),
{
}

/// An acknowledgement of what a step asked for takes the migration on, and anything
/// else ends it.
pub proof fn law_acknowledged_steps_go_on(m: MigrationModel, step: Step, answer: AnswerModel)
    requires
        m.step() == Some(step),
        !(step is Copy),
    ensures
        step is Tail || step is Retire ==> (m.after(answer) is Some <==> answer
            == AnswerModel::Store(StoreResponseModel::Ack)),
        step is Pause || step is Flip || step is Resume ==> (m.after(answer) is Some <==> answer
            == AnswerModel::Compute(AdminReplyModel::Ack)),
        m.after(answer) matches Some(after) ==> after.next == m.next + 1 && !after.copying
            && after.transfers == m.transfers && after.computes == m.computes && after.members
            == m.members,
{
}

/// A transfer goes from a present member that is the batch's source to a proposed one
/// that is its destination, each at its own address, and moves the data of the batch.
pub proof fn law_transfer_goes_between_its_nodes(
    plan: TransferPlanModel,
    batch: BatchModel,
    current: Seq<StorageMemberModel>,
    proposed: Seq<StorageMemberModel>,
)
    requires
        plans(plan, batch, current, proposed),
    ensures
        exists|i: int|
            0 <= i < current.len() && (#[trigger] current[i]).node_id == batch.source
                && current[i].store_address == plan.source_address,
        exists|i: int|
            0 <= i < proposed.len() && (#[trigger] proposed[i]).node_id == batch.dest
                && proposed[i].store_address == plan.dest_address,
        plan.ids == batch.ids,
{
    crate::migrate::law_address_is_the_members(current, batch.source);
    crate::migrate::law_address_is_the_members(proposed, batch.dest);
}

} // verus!
