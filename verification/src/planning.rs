//! What a driver finds out before it changes anything: the plan of a migration,
//! and, after a halt, whether every storage node is the one that it should be.

use crate::admin_wire::{AdminReplyModel, AdminRequestModel};
use crate::authority::NodeId;
use crate::datum::{is_uuid_version, DatumId};
use crate::migrate::{
    address_among, batch_moves, batched, batches_view, impostor_text, moves_of, page_ids,
    plan_moves, resolve, ring_of, verify_identity, wrong_node_text, Batch, IdPager, Move, PagerModel, ID_PAGE,
};
use crate::migration::{
    has_addresses, plan_transfers, plans, texts_view, AnswerModel, DriverCall, DriverCallModel,
    Migration, NoAddress,
};
use crate::ring::{home, joined, Slot};
use crate::server::{
    member_weights, members_view, AdminReply, AdminRequest, StorageMember, StorageMemberModel,
};
use crate::store_wire::{StoreRequest, StoreRequestModel, StoreResponse, StoreResponseModel};
use crate::text::copy_text;
use vstd::prelude::*;
use vstd::string::*;

verus! {

/// Why an answer of a storage node ends everything.
#[derive(Debug, PartialEq, Eq)]
pub enum Refusal {
    /// It is none to the call that was made.
    Unexpected(StoreResponse),
    /// It came from another node, as the text says.
    OtherNode(String),
}

/// The call that asks for the members of the storage ring.
pub open spec fn config_call(address: Seq<char>) -> DriverCallModel {
    DriverCallModel::Compute { address, request: AdminRequestModel::GetClusterConfig }
}

/// The call that asks a storage node who it is.
pub open spec fn identify_call(address: Seq<char>) -> DriverCallModel {
    DriverCallModel::Store { address, request: StoreRequestModel::Identify }
}

fn ask_config(address: &str) -> (call: DriverCall)
    ensures
        call@ == config_call(address@),
{
    DriverCall::Compute { address: copy_text(address), request: AdminRequest::GetClusterConfig }
}

fn ask_identity(address: &str) -> (call: DriverCall)
    ensures
        call@ == identify_call(address@),
{
    DriverCall::Store { address: copy_text(address), request: StoreRequest::Identify }
}

// ---- resuming after a halt ----

/// The resumption of a cluster that was halted.
pub struct Resumption {
    computes: Vec<String>,
    members: Option<Vec<StorageMember>>,
    verified: usize,
    cleared: usize,
}

/// The mathematical content of a [`Resumption`]: the addresses of the compute
/// nodes, the members of the storage ring once they are known, how many of these
/// have shown who they are, and how many compute nodes have cleared the halt.
pub struct ResumptionModel {
    pub computes: Seq<Seq<char>>,
    pub members: Option<Seq<StorageMemberModel>>,
    pub verified: int,
    pub cleared: int,
}

impl View for Resumption {
    type V = ResumptionModel;

    closed spec fn view(&self) -> ResumptionModel {
        ResumptionModel {
            computes: texts_view(self.computes@),
            members: match self.members {
                Some(m) => Some(members_view(m@)),
                None => None,
            },
            verified: self.verified as int,
            cleared: self.cleared as int,
        }
    }
}

impl ResumptionModel {
    /// A resumption that has not begun.
    pub open spec fn fresh(computes: Seq<Seq<char>>) -> ResumptionModel {
        ResumptionModel { computes, members: None, verified: 0, cleared: 0 }
    }

    /// The call that is to be made: the first compute node is asked for the
    /// members, each of these for its identity, and then each compute node is
    /// told to clear the halt.
    pub open spec fn calls(self) -> Option<DriverCallModel> {
        match self.members {
            None => Some(config_call(self.computes[0])),
            Some(members) => if self.verified < members.len() {
                Some(identify_call(members[self.verified].store_address))
            } else if self.cleared < self.computes.len() {
                Some(
                    DriverCallModel::Compute {
                        address: self.computes[self.cleared],
                        request: AdminRequestModel::ClearHalt,
                    },
                )
            } else {
                None
            },
        }
    }

    /// Whether the halt is being cleared.
    pub open spec fn clears(self) -> bool {
        self.members matches Some(members) && self.verified >= members.len()
    }

    /// What an answer of a compute node leads to; nothing, where it is none to
    /// the call that was made.
    pub open spec fn after_compute(self, reply: AdminReplyModel) -> Option<ResumptionModel> {
        match (self.members, reply) {
            (None, AdminReplyModel::ClusterConfig { members }) => Some(
                ResumptionModel { members: Some(members), ..self },
            ),
            (Some(_), AdminReplyModel::Ack) if self.clears() && self.cleared
                < self.computes.len() => Some(ResumptionModel { cleared: self.cleared + 1, ..self }),
            _ => None,
        }
    }

    /// What an answer of a storage node leads to; nothing, where it is none to
    /// the call that was made, or came from another node than the member, or from
    /// one with another log.
    pub open spec fn after_store(self, response: StoreResponseModel) -> Option<ResumptionModel> {
        match (self.members, response) {
            (
                Some(members),
                StoreResponseModel::Identity { node_id, log_id },
            ) if self.verified < members.len() && node_id == members[self.verified].node_id
                && log_id == members[self.verified].log_id => Some(
                ResumptionModel { verified: self.verified + 1, ..self },
            ),
            _ => None,
        }
    }

    /// What an answer leads to.
    pub open spec fn after(self, answer: AnswerModel) -> Option<ResumptionModel> {
        match answer {
            AnswerModel::Compute(reply) => self.after_compute(reply),
            AnswerModel::Store(response) => self.after_store(response),
        }
    }
}

impl Resumption {
    pub closed spec fn wf(self) -> bool {
        &&& self.computes@.len() > 0
        &&& self.cleared <= self.computes@.len()
        &&& self.members is None ==> self.verified == 0 && self.cleared == 0
        &&& self.members matches Some(m) ==> self.verified <= m@.len()
    }

    /// The resumption of a cluster with these compute nodes. There must be one.
    pub fn new(computes: Vec<String>) -> (r: Option<Self>)
        ensures
            (match r {
                Some(resumption) => computes@.len() > 0 && resumption.wf() && resumption@
                    == ResumptionModel::fresh(texts_view(computes@)),
                None => computes@.len() == 0,
            }),
    {
        if computes.len() == 0 {
            None
        } else {
            Some(Resumption { computes, members: None, verified: 0, cleared: 0 })
        }
    }

    /// The call that is to be made; none, once the halt is cleared everywhere.
    pub fn call(&self) -> (call: Option<DriverCall>)
        requires
            self.wf(),
        ensures
            (match call {
                Some(c) => Some(c@),
                None => None,
            }) == self@.calls(),
    {
        match &self.members {
            None => Some(ask_config(self.computes[0].as_str())),
            Some(members) => if self.verified < members.len() {
                Some(ask_identity(members[self.verified].store_address.as_str()))
            } else if self.cleared < self.computes.len() {
                Some(
                    DriverCall::Compute {
                        address: copy_text(self.computes[self.cleared].as_str()),
                        request: AdminRequest::ClearHalt,
                    },
                )
            } else {
                None
            },
        }
    }

    /// How many members have shown who they are.
    pub fn verified(&self) -> (n: usize)
        ensures
            n == self@.verified,
    {
        self.verified
    }

    /// Takes the answer of a compute node. One that is none to the call that was
    /// made is given back, and nothing changes.
    pub fn compute_answered(&mut self, reply: AdminReply) -> (r: Result<(), AdminReply>)
        requires
            old(self).wf(),
        ensures
            final(self).wf(),
            (match old(self)@.after_compute(reply@) {
                Some(after) => r is Ok && final(self)@ == after,
                None => r == Err::<(), AdminReply>(reply) && final(self)@ == old(self)@,
            }),
    {
        match &self.members {
            None => match reply {
                AdminReply::ClusterConfig { members } => {
                    self.members = Some(members);
                    Ok(())
                },
                other => Err(other),
            },
            Some(members) => match reply {
                AdminReply::Ack => {
                    if self.verified >= members.len() && self.cleared < self.computes.len() {
                        self.cleared = self.cleared + 1;
                        Ok(())
                    } else {
                        Err(AdminReply::Ack)
                    }
                },
                other => Err(other),
            },
        }
    }

    /// Takes what the member that was asked says that it is. Any other node, or
    /// another log, is refused: nothing changes, and the halt stands.
    pub fn identified(&mut self, node_id: NodeId, log_id: DatumId) -> (r: Result<(), String>)
        requires
            old(self).wf(),
            old(self)@.members matches Some(members) && old(self)@.verified < members.len(),
        ensures
            final(self).wf(),
            ({
                let member = old(self)@.members->0[old(self)@.verified];
                match r {
                    Ok(_) => node_id == member.node_id && log_id == member.log_id && final(self)@
                        == (ResumptionModel { verified: old(self)@.verified + 1, ..old(self)@ }),
                    Err(text) => (node_id != member.node_id || log_id != member.log_id) && text@
                        == impostor_text(member, node_id, log_id) && final(self)@ == old(self)@,
                }
            }),
    {
        match &self.members {
            Some(members) => match verify_identity(&members[self.verified], node_id, log_id) {
                Ok(_) => {
                    assert(self.verified < members.len());
                    self.verified = self.verified + 1;
                    Ok(())
                },
                Err(text) => Err(text),
            },
            None => {
                assert(false);
                Err(String::new())
            },
        }
    }

    /// Takes the answer of a storage node. One that is none to the call that was
    /// made, or that comes from another node, ends the resumption: nothing
    /// changes, and the halt stands.
    pub fn store_answered(&mut self, response: StoreResponse) -> (r: Result<(), Refusal>)
        requires
            old(self).wf(),
        ensures
            final(self).wf(),
            (match old(self)@.after_store(response@) {
                Some(after) => r is Ok && final(self)@ == after,
                None => final(self)@ == old(self)@ && (match (old(self)@.members, response) {
                    (
                        Some(members),
                        StoreResponse::Identity { node_id, log_id },
                    ) if old(self)@.verified < members.len() => {
                        &&& r matches Err(Refusal::OtherNode(text))
                        &&& text@ == impostor_text(members[old(self)@.verified], node_id, log_id)
                    },
                    _ => r == Err::<(), Refusal>(Refusal::Unexpected(response)),
                }),
            }),
    {
        let left = match &self.members {
            None => false,
            Some(members) => self.verified < members.len(),
        };
        if !left {
            return Err(Refusal::Unexpected(response));
        }
        match response {
            StoreResponse::Identity { node_id, log_id } => match self.identified(
                node_id,
                log_id,
            ) {
                Ok(_) => Ok(()),
                Err(text) => Err(Refusal::OtherNode(text)),
            },
            other => Err(Refusal::Unexpected(other)),
        }
    }
}

/// A resumption after some answers; nothing, where one of them ended it.
pub open spec fn resumed(computes: Seq<Seq<char>>, answers: Seq<AnswerModel>) -> Option<
    ResumptionModel,
>
    decreases answers.len(),
{
    if answers.len() == 0 {
        Some(ResumptionModel::fresh(computes))
    } else {
        match resumed(computes, answers.drop_last()) {
            Some(m) => m.after(answers.last()),
            None => None,
        }
    }
}

/// The answer by which a member shows who it is.
pub open spec fn identity_of(member: StorageMemberModel) -> AnswerModel {
    AnswerModel::Store(
        StoreResponseModel::Identity { node_id: member.node_id, log_id: member.log_id },
    )
}

proof fn lemma_resumed(computes: Seq<Seq<char>>, answers: Seq<AnswerModel>)
    ensures
        resumed(computes, answers) matches Some(m) ==> {
            &&& m.computes == computes
            &&& m.members is None ==> answers.len() == 0 && m.verified == 0 && m.cleared == 0
            &&& m.members matches Some(members) ==> {
                &&& answers.len() == 1 + m.verified + m.cleared
                &&& 0 <= m.verified <= members.len()
                &&& 0 <= m.cleared
                &&& m.cleared > 0 ==> m.verified == members.len()
                &&& answers[0] == AnswerModel::Compute(AdminReplyModel::ClusterConfig { members })
                &&& forall|i: int|
                    0 <= i < m.verified ==> answers[1 + i] == #[trigger] identity_of(members[i])
            }
        },
    decreases answers.len(),
{
    if answers.len() > 0 {
        lemma_resumed(computes, answers.drop_last());
        if let Some(m) = resumed(computes, answers) {
            let before = resumed(computes, answers.drop_last())->0;
            if let Some(members) = m.members {
                assert forall|i: int| 0 <= i < m.verified implies answers[1 + i]
                    == #[trigger] identity_of(members[i]) by {
                    if i < before.verified {
                        assert(answers.drop_last()[1 + i] == identity_of(members[i]));
                    }
                }
            }
        }
    }
}

/// The halt stands until every member has shown who it is: whatever the answers
/// are, a compute node is told to clear it only once each member that the first
/// compute node named was asked in turn, and answered with its own id and log.
pub proof fn law_halt_stands_until_all_are_known(
    computes: Seq<Seq<char>>,
    answers: Seq<AnswerModel>,
    address: Seq<char>,
)
    requires
        resumed(computes, answers) matches Some(m) && m.calls() == Some(
            DriverCallModel::Compute { address, request: AdminRequestModel::ClearHalt },
        ),
    ensures
        resumed(computes, answers)->0.members matches Some(members) && {
            &&& answers.len() > members.len()
            &&& answers[0] == AnswerModel::Compute(AdminReplyModel::ClusterConfig { members })
            &&& forall|i: int|
                0 <= i < members.len() ==> answers[1 + i] == #[trigger] identity_of(members[i])
        },
{
    lemma_resumed(computes, answers);
}

/// A node that is not the member that was asked, or does not have its log, ends
/// the resumption with nothing cleared.
pub proof fn law_impostor_ends_the_resumption(
    m: ResumptionModel,
    node_id: NodeId,
    log_id: DatumId,
)
    requires
        m.members matches Some(members) && 0 <= m.verified < members.len() && (node_id
            != members[m.verified].node_id || log_id != members[m.verified].log_id),
    ensures
        m.after_store(StoreResponseModel::Identity { node_id, log_id }) is None,
        m.calls() matches Some(DriverCallModel::Store { .. }),
{
}

// ---- planning a migration ----

/// A migration that is being planned.
pub struct Planning {
    computes: Vec<String>,
    proposed: Vec<StorageMember>,
    current: Option<Vec<StorageMember>>,
    resolved: Vec<StorageMember>,
    listed: usize,
    pager: IdPager,
}

/// The mathematical content of a [`Planning`]: the addresses of the compute
/// nodes, the members proposed, those that the ring has once they are known,
/// those proposed that have said who they are, how many of the present members
/// have told all their ids, and the ids told so far.
pub struct PlanningModel {
    pub computes: Seq<Seq<char>>,
    pub proposed: Seq<StorageMemberModel>,
    pub current: Option<Seq<StorageMemberModel>>,
    pub resolved: Seq<StorageMemberModel>,
    pub listed: int,
    pub pager: PagerModel,
}

impl View for Planning {
    type V = PlanningModel;

    closed spec fn view(&self) -> PlanningModel {
        PlanningModel {
            computes: texts_view(self.computes@),
            proposed: members_view(self.proposed@),
            current: match self.current {
                Some(m) => Some(members_view(m@)),
                None => None,
            },
            resolved: members_view(self.resolved@),
            listed: self.listed as int,
            pager: self.pager@,
        }
    }
}

impl PlanningModel {
    /// A plan of which nothing is known yet.
    pub open spec fn fresh(
        computes: Seq<Seq<char>>,
        proposed: Seq<StorageMemberModel>,
    ) -> PlanningModel {
        PlanningModel {
            computes,
            proposed,
            current: None,
            resolved: seq![],
            listed: 0,
            pager: PagerModel { ids: seq![], after: None, done: false },
        }
    }

    /// The call that is to be made: the first compute node is asked for the
    /// members, each proposed member for its identity, and each present one for
    /// its ids, a page at a time.
    pub open spec fn calls(self) -> Option<DriverCallModel> {
        match self.current {
            None => Some(config_call(self.computes[0])),
            Some(current) => if self.resolved.len() < self.proposed.len() {
                Some(identify_call(self.proposed[self.resolved.len() as int].store_address))
            } else if self.listed < current.len() {
                Some(
                    DriverCallModel::Store {
                        address: current[self.listed].store_address,
                        request: StoreRequestModel::ListIds {
                            after: self.pager.after,
                            limit: ID_PAGE,
                        },
                    },
                )
            } else {
                None
            },
        }
    }

    /// What an answer of a compute node leads to; nothing, where it is none to
    /// the call that was made.
    pub open spec fn after_compute(self, reply: AdminReplyModel) -> Option<PlanningModel> {
        match (self.current, reply) {
            (None, AdminReplyModel::ClusterConfig { members }) => Some(
                PlanningModel { current: Some(members), ..self },
            ),
            _ => None,
        }
    }

    /// The plan with one more page of ids. After the last page of a member the
    /// next is asked, from its first id on.
    pub open spec fn with_page(self, page: Seq<(DatumId, u16)>, done: bool) -> PlanningModel {
        let pager = self.pager.with_page(page, done);
        if pager.done {
            PlanningModel {
                listed: self.listed + 1,
                pager: PagerModel { ids: pager.ids, after: None, done: false },
                ..self
            }
        } else {
            PlanningModel { pager, ..self }
        }
    }

    /// What an answer of a storage node leads to; nothing, where it is none to
    /// the call that was made, or came from another node than was proposed.
    pub open spec fn after_store(self, response: StoreResponseModel) -> Option<PlanningModel> {
        match self.current {
            None => None,
            Some(current) => if self.resolved.len() < self.proposed.len() {
                let member = self.proposed[self.resolved.len() as int];
                match response {
                    StoreResponseModel::Identity { node_id, log_id } if node_id
                        == member.node_id => Some(
                        PlanningModel {
                            resolved: self.resolved.push(StorageMemberModel { log_id, ..member }),
                            ..self
                        },
                    ),
                    _ => None,
                }
            } else if self.listed < current.len() {
                match response {
                    StoreResponseModel::IdList { ids, done } => Some(self.with_page(ids, done)),
                    _ => None,
                }
            } else {
                None
            },
        }
    }

    /// What an answer leads to.
    pub open spec fn after(self, answer: AnswerModel) -> Option<PlanningModel> {
        match answer {
            AnswerModel::Compute(reply) => self.after_compute(reply),
            AnswerModel::Store(response) => self.after_store(response),
        }
    }

    /// Whether everything is known that the plan needs.
    pub open spec fn complete(self) -> bool {
        self.calls() is None
    }

    /// The slots of the present ring.
    pub open spec fn old_slots(self) -> Seq<Slot> {
        joined(member_weights(self.current->0))
    }

    /// The slots of the ring proposed.
    pub open spec fn new_slots(self) -> Seq<Slot> {
        joined(member_weights(self.resolved))
    }

    /// Whether there is a home for every id: both rings have slots, or there are
    /// no ids.
    pub open spec fn housed(self) -> bool {
        self.pager.ids.len() > 0 ==> self.old_slots().len() > 0 && self.new_slots().len() > 0
    }

    /// What moves.
    pub open spec fn moves(self) -> Seq<Move> {
        moves_of(self.old_slots(), self.new_slots(), self.pager.ids)
    }
}

/// The plan of a migration.
pub struct Plan {
    pub computes: Vec<String>,
    /// The members of the present ring.
    pub current: Vec<StorageMember>,
    /// The members of the ring proposed.
    pub members: Vec<StorageMember>,
    pub moves: Vec<Move>,
    pub batches: Vec<Batch>,
}

impl Planning {
    pub closed spec fn wf(self) -> bool {
        &&& self.computes@.len() > 0
        &&& self.resolved@.len() <= self.proposed@.len()
        &&& !self.pager.done
        &&& self.current is None ==> self.listed == 0
        &&& self.current matches Some(m) ==> self.listed <= m@.len()
    }

    /// Plans to move a cluster with these compute nodes, of which there must be
    /// one, to a ring of these members.
    pub fn new(computes: Vec<String>, proposed: Vec<StorageMember>) -> (r: Option<Self>)
        ensures
            (match r {
                Some(planning) => computes@.len() > 0 && planning.wf() && planning@
                    == PlanningModel::fresh(texts_view(computes@), members_view(proposed@)),
                None => computes@.len() == 0,
            }),
    {
        if computes.len() == 0 {
            return None;
        }
        let planning = Planning {
            computes,
            proposed,
            current: None,
            resolved: Vec::new(),
            listed: 0,
            pager: IdPager::new(),
        };
        assert(planning@.resolved =~= seq![]);
        Some(planning)
    }

    /// The call that is to be made; none, once everything is known.
    pub fn call(&self) -> (call: Option<DriverCall>)
        requires
            self.wf(),
        ensures
            (match call {
                Some(c) => Some(c@),
                None => None,
            }) == self@.calls(),
    {
        match &self.current {
            None => Some(ask_config(self.computes[0].as_str())),
            Some(current) => if self.resolved.len() < self.proposed.len() {
                Some(ask_identity(self.proposed[self.resolved.len()].store_address.as_str()))
            } else if self.listed < current.len() {
                match self.pager.ask() {
                    Some(request) => Some(
                        DriverCall::Store {
                            address: copy_text(current[self.listed].store_address.as_str()),
                            request,
                        },
                    ),
                    None => None,
                }
            } else {
                None
            },
        }
    }

    /// Takes the answer of a compute node. One that is none to the call that was
    /// made is given back, and nothing changes.
    pub fn compute_answered(&mut self, reply: AdminReply) -> (r: Result<(), AdminReply>)
        requires
            old(self).wf(),
        ensures
            final(self).wf(),
            (match old(self)@.after_compute(reply@) {
                Some(after) => r is Ok && final(self)@ == after,
                None => r == Err::<(), AdminReply>(reply) && final(self)@ == old(self)@,
            }),
    {
        match &self.current {
            None => match reply {
                AdminReply::ClusterConfig { members } => {
                    self.current = Some(members);
                    Ok(())
                },
                other => Err(other),
            },
            Some(_) => Err(reply),
        }
    }

    /// Takes the answer of a storage node. One that is none to the call that was
    /// made, or that comes from another node than was proposed, ends the plan,
    /// and nothing changes.
    pub fn store_answered(&mut self, response: StoreResponse) -> (r: Result<(), Refusal>)
        requires
            old(self).wf(),
        ensures
            final(self).wf(),
            (match old(self)@.after_store(response@) {
                Some(after) => r is Ok && final(self)@ == after,
                None => final(self)@ == old(self)@ && (match response {
                    StoreResponse::Identity { node_id, .. } if old(self)@.current is Some && old(
                        self,
                    )@.resolved.len() < old(self)@.proposed.len() => {
                        let member = old(self)@.proposed[old(self)@.resolved.len() as int];
                        &&& r matches Err(Refusal::OtherNode(text))
                        &&& text@ == wrong_node_text(member.store_address, node_id, member.node_id)
                    },
                    _ => r == Err::<(), Refusal>(Refusal::Unexpected(response)),
                }),
            }),
    {
        let current = match &self.current {
            None => {
                return Err(Refusal::Unexpected(response));
            },
            Some(current) => current.len(),
        };
        if self.resolved.len() < self.proposed.len() {
            match response {
                StoreResponse::Identity { node_id, log_id } => {
                    match resolve(&self.proposed[self.resolved.len()], node_id, log_id) {
                        Ok(member) => {
                            let ghost before = self.resolved@;
                            self.resolved.push(member);
                            assert(members_view(self.resolved@) =~= members_view(before).push(
                                member@,
                            ));
                            Ok(())
                        },
                        Err(text) => Err(Refusal::OtherNode(text)),
                    }
                },
                other => Err(Refusal::Unexpected(other)),
            }
        } else if self.listed < current {
            match self.pager.answered(response) {
                Ok(_) => {
                    if self.pager.done {
                        self.listed = self.listed + 1;
                        self.pager.after = None;
                        self.pager.done = false;
                    }
                    Ok(())
                },
                Err(other) => Err(Refusal::Unexpected(other)),
            }
        } else {
            Err(Refusal::Unexpected(response))
        }
    }

    /// The plan, once everything is known. There is none where an id has no home.
    pub fn plan(self) -> (r: Option<Plan>)
        requires
            self.wf(),
            self@.complete(),
        ensures
            (match r {
                Some(plan) => {
                    &&& self@.housed()
                    &&& texts_view(plan.computes@) == self@.computes
                    &&& members_view(plan.current@) == self@.current->0
                    &&& members_view(plan.members@) == self@.resolved
                    &&& plan.moves@ == self@.moves()
                    &&& batches_view(plan.batches@) == batched(self@.moves())
                },
                None => !self@.housed(),
            }),
    {
        let ghost model = self@;
        let Planning { computes, proposed: _, current, resolved, listed: _, pager } = self;
        let current = match current {
            Some(current) => current,
            None => {
                return None;
            },
        };
        let old_ring = ring_of(&current);
        let new_ring = ring_of(&resolved);
        if pager.ids.len() > 0 && (old_ring.is_empty() || new_ring.is_empty()) {
            return None;
        }
        let moves = plan_moves(&old_ring, &new_ring, pager.ids.as_slice());
        let batches = batch_moves(&moves);
        Some(Plan { computes, current, members: resolved, moves, batches })
    }
}

impl Plan {
    /// The migration that carries the plan out, under fresh ids for its
    /// transfers; none, where the plan is not to be applied. The first batch whose
    /// addresses are not known is an error.
    pub fn execution(self, apply: bool) -> (r: Result<Option<Migration>, NoAddress>)
        ensures
            ({
                let b = batches_view(self.batches@);
                let old = members_view(self.current@);
                let new = members_view(self.members@);
                match r {
                    Ok(None) => !apply,
                    Ok(Some(m)) => {
                        &&& apply
                        &&& m.wf()
                        &&& m@.computes == texts_view(self.computes@)
                        &&& m@.members == new
                        &&& m@.next == 0
                        &&& !m@.copying
                        &&& m@.transfers.len() == b.len()
                        &&& forall|i: int|
                            0 <= i < b.len() ==> plans(#[trigger] m@.transfers[i], b[i], old, new)
                                && is_uuid_version(m@.transfers[i].transfer_id.bytes(), 7)
                    },
                    Err(e) => apply && exists|i: int|
                        {
                            &&& 0 <= i < b.len()
                            &&& !#[trigger] has_addresses(b[i], old, new)
                            &&& forall|j: int| 0 <= j < i ==> has_addresses(b[j], old, new)
                            &&& e == if address_among(old, b[i].source) is None {
                                NoAddress::Source(b[i].source)
                            } else {
                                NoAddress::Dest(b[i].dest)
                            }
                        },
                }
            }),
    {
        if !apply {
            return Ok(None);
        }
        match plan_transfers(&self.batches, &self.current, &self.members) {
            Ok(transfers) => {
                let ghost planned = transfers@;
                let m = Migration::new(self.computes, transfers, self.members);
                assert forall|i: int| 0 <= i < planned.len() implies #[trigger] m@.transfers[i]
                    == planned[i]@ by {}
                Ok(Some(m))
            },
            Err(e) => Err(e),
        }
    }
}

/// A plan changes nothing: whatever is known of it, the call that it makes only
/// reads.
pub proof fn law_planning_only_reads(m: PlanningModel)
    ensures
        (match m.calls() {
            None => true,
            Some(DriverCallModel::Compute { request, .. }) => {
                request == AdminRequestModel::GetClusterConfig
            },
            Some(DriverCallModel::Store { request, .. }) => request == StoreRequestModel::Identify
                || request is ListIds,
        }),
{
}

/// A plan after some answers; nothing, where one of them ended it.
pub open spec fn planned(
    computes: Seq<Seq<char>>,
    proposed: Seq<StorageMemberModel>,
    answers: Seq<AnswerModel>,
) -> Option<PlanningModel>
    decreases answers.len(),
{
    if answers.len() == 0 {
        Some(PlanningModel::fresh(computes, proposed))
    } else {
        match planned(computes, proposed, answers.drop_last()) {
            Some(m) => m.after(answers.last()),
            None => None,
        }
    }
}

/// The ids in some answers, in their order.
pub open spec fn ids_told(answers: Seq<AnswerModel>) -> Seq<DatumId>
    decreases answers.len(),
{
    if answers.len() == 0 {
        seq![]
    } else {
        match answers.last() {
            AnswerModel::Store(StoreResponseModel::IdList { ids, .. }) => ids_told(
                answers.drop_last(),
            ) + page_ids(ids),
            _ => ids_told(answers.drop_last()),
        }
    }
}

/// A complete plan knows every proposed member by the log that it has shown, and
/// every id that the present members told of: each proposed member was asked in
/// turn, and what the plan holds is what the answers held.
pub proof fn law_plan_holds_what_was_answered(
    computes: Seq<Seq<char>>,
    proposed: Seq<StorageMemberModel>,
    answers: Seq<AnswerModel>,
)
    ensures
        planned(computes, proposed, answers) matches Some(m) ==> {
            &&& m.computes == computes
            &&& m.proposed == proposed
            &&& m.resolved.len() <= proposed.len()
            &&& m.pager.ids == ids_told(answers)
            &&& m.current is None ==> answers.len() == 0 && m.resolved.len() == 0
            &&& m.current is Some && m.resolved.len() < proposed.len() ==> answers.len() == 1
                + m.resolved.len()
            &&& m.current matches Some(members) ==> answers.len() > m.resolved.len() && answers[0]
                == AnswerModel::Compute(AdminReplyModel::ClusterConfig { members })
            &&& forall|i: int|
                0 <= i < m.resolved.len() ==> answers[1 + i] == identity_of(
                    #[trigger] m.resolved[i],
                ) && m.resolved[i] == (StorageMemberModel {
                    log_id: m.resolved[i].log_id,
                    ..proposed[i]
                })
            &&& m.complete() ==> m.current is Some && m.resolved.len() == proposed.len()
                && m.listed >= m.current->0.len()
        },
    decreases answers.len(),
{
    if answers.len() > 0 {
        law_plan_holds_what_was_answered(computes, proposed, answers.drop_last());
        if let Some(m) = planned(computes, proposed, answers) {
            let before = planned(computes, proposed, answers.drop_last())->0;
            assert forall|i: int| 0 <= i < m.resolved.len() implies answers[1 + i] == identity_of(
                #[trigger] m.resolved[i],
            ) && m.resolved[i] == (StorageMemberModel {
                log_id: m.resolved[i].log_id,
                ..proposed[i]
            }) by {
                if i < before.resolved.len() {
                    assert(before.resolved[i] == m.resolved[i]);
                    assert(answers.drop_last()[1 + i] == identity_of(before.resolved[i]));
                }
            }
        }
    }
}

/// Whom a resumption calls: first the first compute node for the members, then each
/// member at its own address for its identity, then each compute node in turn to
/// clear the halt, and then nobody.
pub proof fn law_resumption_calls_everyone(m: ResumptionModel, members: Seq<StorageMemberModel>)
    ensures
        m.members is None ==> m.calls() == Some(
            DriverCallModel::Compute {
                address: m.computes[0],
                request: AdminRequestModel::GetClusterConfig,
            },
        ),
        m.members == Some(members) && 0 <= m.verified < members.len() ==> m.calls() == Some(
            DriverCallModel::Store {
                address: members[m.verified].store_address,
                request: StoreRequestModel::Identify,
            },
        ) && (m.after_store(
            StoreResponseModel::Identity {
                node_id: members[m.verified].node_id,
                log_id: members[m.verified].log_id,
            },
        ) matches Some(after) && after.verified == m.verified + 1 && after.members == m.members
            && after.cleared == m.cleared && after.computes == m.computes),
        m.members == Some(members) && m.verified >= members.len() && 0 <= m.cleared
            < m.computes.len() ==> m.calls() == Some(
            DriverCallModel::Compute {
                address: m.computes[m.cleared],
                request: AdminRequestModel::ClearHalt,
            },
        ) && (m.after_compute(AdminReplyModel::Ack) matches Some(after) && after.cleared
            == m.cleared + 1 && after.members == m.members && after.computes == m.computes),
        m.calls() is None ==> m.cleared >= m.computes.len() && (m.members matches Some(all)
            && m.verified >= all.len()),
{
}

/// A resumption that makes no more calls has had the halt cleared on every compute
/// node: there was one answer with the members, one of each member, and one of each
/// compute node.
pub proof fn law_halt_is_cleared_everywhere(computes: Seq<Seq<char>>, answers: Seq<AnswerModel>)
    requires
        resumed(computes, answers) matches Some(m) && m.calls() is None,
    ensures
        resumed(computes, answers)->0.members matches Some(members) && answers.len() == 1
            + members.len() + computes.len(),
{
    lemma_resumed(computes, answers);
    lemma_cleared(computes, answers);
}

proof fn lemma_cleared(computes: Seq<Seq<char>>, answers: Seq<AnswerModel>)
    ensures
        resumed(computes, answers) matches Some(m) ==> m.cleared <= computes.len() && m.computes
            == computes,
    decreases answers.len(),
{
    if answers.len() > 0 {
        lemma_cleared(computes, answers.drop_last());
    }
}

/// Whom a plan asks: the first compute node for the members, each proposed member
/// for its identity, and each present member for its ids, from behind the last that
/// it told.
pub proof fn law_plan_asks_everyone(m: PlanningModel, current: Seq<StorageMemberModel>)
    ensures
        m.current is None ==> m.calls() == Some(
            DriverCallModel::Compute {
                address: m.computes[0],
                request: AdminRequestModel::GetClusterConfig,
            },
        ),
        m.current == Some(current) && m.resolved.len() < m.proposed.len() ==> m.calls() == Some(
            DriverCallModel::Store {
                address: m.proposed[m.resolved.len() as int].store_address,
                request: StoreRequestModel::Identify,
            },
        ),
        m.current == Some(current) && m.resolved.len() >= m.proposed.len() && 0 <= m.listed
            < current.len() ==> (m.calls() matches Some(
            DriverCallModel::Store {
                address,
                request: StoreRequestModel::ListIds { after, limit },
            },
        ) && address == current[m.listed].store_address && after == m.pager.after && limit > 0),
        m.calls() is None ==> (m.current matches Some(all) && m.resolved.len() >= m.proposed.len()
            && m.listed >= all.len()),
{
}

/// Every present member tells all its ids: after a page that is not the last the
/// same member is asked for what is behind it, and after the last page the next
/// member is asked from its first id on. No id that was told is lost.
pub proof fn law_every_member_tells_its_ids(
    m: PlanningModel,
    page: Seq<(DatumId, u16)>,
    done: bool,
    i: int,
)
    requires
        m.current matches Some(current) && m.resolved.len() >= m.proposed.len() && 0 <= m.listed
            < current.len(),
    ensures
        m.after_store(StoreResponseModel::IdList { ids: page, done }) matches Some(after) && {
            &&& after.current == m.current && after.resolved == m.resolved
            &&& after.pager.ids.len() == m.pager.ids.len() + page.len()
            &&& 0 <= i < m.pager.ids.len() ==> after.pager.ids[i] == m.pager.ids[i]
            &&& 0 <= i < page.len() ==> after.pager.ids[m.pager.ids.len() + i] == page[i].0
            &&& !done && page.len() > 0 ==> after.listed == m.listed && after.pager.after == Some(
                page[page.len() - 1].0,
            )
            &&& done || page.len() == 0 ==> after.listed == m.listed + 1 && after.pager.after
                is None
        },
{
}

/// A plan moves every id that was told and that has another home in the proposed
/// ring than in the present one, from the one to the other.
pub proof fn law_plan_moves_what_has_another_home(m: PlanningModel, i: int)
    requires
        0 <= i < m.pager.ids.len(),
        home(m.old_slots(), m.pager.ids[i]).0 != home(m.new_slots(), m.pager.ids[i]).0,
    ensures
        m.moves().contains(
            (Move {
                id: m.pager.ids[i],
                source: home(m.old_slots(), m.pager.ids[i]).0,
                dest: home(m.new_slots(), m.pager.ids[i]).0,
            }),
        ),
{
    crate::migrate::law_moves(m.old_slots(), m.new_slots(), m.pager.ids);
}

} // verus!
