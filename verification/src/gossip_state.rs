//! What gossip has brought in, and what it leads to.

use crate::authority::NodeId;
use crate::books::{book_put, book_view};
use crate::datum::DatumId;
use crate::halt::{HaltModel, HaltState};
use crate::maps::{ascending, sorted_keys};
use crate::membership::{accepts, keyed_by_node, merged, MemberTable, MemberUpdate};
use crate::ring::{has_node, Ring, Slot};
use crate::sequencer::{apply_mutation, mutated, LogModel, MutationLog, RingMutation};
use crate::text::{copy_text, decimal, push_decimal};
use std::collections::{BTreeMap, BTreeSet};
use vstd::prelude::*;
use vstd::string::*;

verus! {

broadcast use {vstd::std_specs::btree::group_btree_axioms, vstd::laws_cmp::group_laws_cmp};

/// How many changes of the ring are passed on with every message.
pub const RECENT_MUTATIONS_CAP: usize = 16;

/// What a member is for.
#[derive(Debug, Clone, Copy, PartialEq, Eq, Structural)]
pub enum MemberRole {
    Compute,
    Storage,
}

/// What a member offers besides threads. A storage member has the address of
/// its store, a weight in the storage ring, and a log of which the id is zero
/// while it is unknown.
#[derive(Debug, PartialEq, Eq)]
pub struct MemberProfile {
    pub role: MemberRole,
    pub capacity_weight: u32,
    pub store_address: String,
    pub log_id: DatumId,
}

/// The mathematical content of a [`MemberProfile`].
pub struct ProfileModel {
    pub role: MemberRole,
    pub capacity_weight: u32,
    pub store_address: Seq<char>,
    pub log_id: DatumId,
}

impl View for MemberProfile {
    type V = ProfileModel;

    open spec fn view(&self) -> ProfileModel {
        ProfileModel {
            role: self.role,
            capacity_weight: self.capacity_weight,
            store_address: self.store_address@,
            log_id: self.log_id,
        }
    }
}

impl ProfileModel {
    /// What is taken for the profile of a member of which nothing is known.
    pub open spec fn unknown() -> ProfileModel {
        ProfileModel {
            role: MemberRole::Compute,
            capacity_weight: 0,
            store_address: seq![],
            log_id: DatumId::of_rank(0),
        }
    }
}

impl MemberProfile {
    /// The profile of a member of which nothing is known.
    pub fn unknown() -> (profile: Self)
        ensures
            profile@ == ProfileModel::unknown(),
    {
        let profile = MemberProfile {
            role: MemberRole::Compute,
            capacity_weight: 0,
            store_address: String::new(),
            log_id: DatumId::from_rank(0),
        };
        assert(profile@.store_address =~= seq![]);
        profile
    }

    fn copy(&self) -> (profile: Self)
        ensures
            profile@ == self@,
    {
        MemberProfile {
            role: self.role,
            capacity_weight: self.capacity_weight,
            store_address: copy_text(self.store_address.as_str()),
            log_id: self.log_id,
        }
    }
}

/// What gossip says of a member: how it is, and what it offers.
#[derive(Debug, PartialEq, Eq)]
pub struct MemberFact {
    pub update: MemberUpdate,
    pub profile: MemberProfile,
}

/// The mathematical content of a [`MemberFact`].
pub struct FactModel {
    pub update: MemberUpdate,
    pub profile: ProfileModel,
}

impl View for MemberFact {
    type V = FactModel;

    open spec fn view(&self) -> FactModel {
        FactModel { update: self.update, profile: self.profile@ }
    }
}

/// Facts, viewed.
pub open spec fn facts_view(facts: Seq<MemberFact>) -> Seq<FactModel> {
    Seq::new(facts.len(), |i: int| facts[i]@)
}

/// How the members of some facts are.
pub open spec fn updates_of(facts: Seq<FactModel>) -> Seq<MemberUpdate> {
    Seq::new(facts.len(), |i: int| facts[i].update)
}

pub open spec fn profiles_view(m: Map<u64, MemberProfile>) -> Map<u64, ProfileModel> {
    Map::new(|k: u64| m.contains_key(k), |k: u64| m[k]@)
}

// ---- gossip ----

/// The last entries of a list, as many as are passed on.
pub open spec fn recent_of(s: Seq<(u64, RingMutation)>) -> Seq<(u64, RingMutation)> {
    if s.len() > RECENT_MUTATIONS_CAP {
        s.skip(s.len() - RECENT_MUTATIONS_CAP)
    } else {
        s
    }
}

/// The mathematical content of a [`GossipState`].
pub struct GossipModel {
    pub members: Map<u64, MemberUpdate>,
    pub profiles: Map<u64, ProfileModel>,
    pub log: LogModel,
    pub recent: Seq<(u64, RingMutation)>,
}

impl GossipModel {
    pub open spec fn wf(self) -> bool {
        keyed_by_node(self.members) && self.recent.len() <= RECENT_MUTATIONS_CAP
    }

    /// The state after hearing of a numbered change.
    pub open spec fn with_mutation(self, epoch: u64, m: RingMutation) -> GossipModel {
        GossipModel {
            log: self.log.recorded(epoch, m),
            recent: recent_of(self.recent.push((epoch, m))),
            ..self
        }
    }

    /// The state after hearing of numbered changes, one after the other.
    pub open spec fn with_mutations(self, ms: Seq<(u64, RingMutation)>) -> GossipModel
        decreases ms.len(),
    {
        if ms.len() == 0 {
            self
        } else {
            self.with_mutations(ms.drop_last()).with_mutation(ms.last().0, ms.last().1)
        }
    }

    /// The state after hearing of a fact: what a member offers is taken over
    /// together with how it is, or not at all.
    pub open spec fn with_fact(self, f: FactModel) -> GossipModel {
        GossipModel {
            members: merged(self.members, f.update),
            profiles: if accepts(self.members, f.update) {
                self.profiles.insert(f.update.node_id.0, f.profile)
            } else {
                self.profiles
            },
            ..self
        }
    }

    /// The state after hearing of facts, one after the other.
    pub open spec fn with_facts(self, facts: Seq<FactModel>) -> GossipModel
        decreases facts.len(),
    {
        if facts.len() == 0 {
            self
        } else {
            self.with_facts(facts.drop_last()).with_fact(facts.last())
        }
    }

    /// What a member offers, as far as it is known.
    pub open spec fn profile(self, node_id: NodeId) -> ProfileModel {
        if self.profiles.contains_key(node_id.0) {
            self.profiles[node_id.0]
        } else {
            ProfileModel::unknown()
        }
    }

    /// The role of a member; one that nothing is known of computes.
    pub open spec fn role(self, node_id: NodeId) -> MemberRole {
        self.profile(node_id).role
    }
}

/// The members, the numbered changes, and those of them that are passed on.
pub struct GossipState {
    pub member_table: MemberTable,
    pub mutation_log: MutationLog,
    pub profiles: BTreeMap<u64, MemberProfile>,
    pub recent_mutations: Vec<(u64, RingMutation)>,
}

impl View for GossipState {
    type V = GossipModel;

    open spec fn view(&self) -> GossipModel {
        GossipModel {
            members: self.member_table@,
            profiles: profiles_view(self.profiles@),
            log: self.mutation_log@,
            recent: self.recent_mutations@,
        }
    }
}

impl GossipState {
    pub fn new() -> (gossip: Self)
        ensures
            gossip@ == (GossipModel {
                members: Map::empty(),
                profiles: Map::empty(),
                log: LogModel { applied: 0, pending: Map::empty() },
                recent: seq![],
            }),
            gossip@.wf(),
    {
        let gossip = Self {
            member_table: MemberTable::new(),
            mutation_log: MutationLog::new(),
            profiles: BTreeMap::new(),
            recent_mutations: Vec::new(),
        };
        assert(gossip@.profiles =~= Map::empty());
        gossip
    }

    /// Takes in a numbered change, to be applied in its turn and to be passed
    /// on.
    pub fn record_mutation(&mut self, epoch: u64, mutation: RingMutation)
        requires
            old(self)@.wf(),
        ensures
            final(self)@ == old(self)@.with_mutation(epoch, mutation),
            final(self)@.wf(),
    {
        self.mutation_log.record(epoch, mutation);
        self.recent_mutations.push((epoch, mutation));
        if self.recent_mutations.len() > RECENT_MUTATIONS_CAP {
            let ghost before = self.recent_mutations@;
            self.recent_mutations.remove(0);
            assert(self.recent_mutations@ =~= before.skip(1));
        }
    }

    /// What goes along with a message: everything that is known of the members,
    /// and the recent changes of the ring.
    pub fn piggyback(&self) -> (r: (Vec<MemberFact>, Vec<(u64, RingMutation)>))
        requires
            self@.wf(),
        ensures
            lists_facts(self@, facts_view(r.0@)),
            r.1@ == self@.recent,
    {
        let updates = self.member_table.all();
        let mut facts: Vec<MemberFact> = Vec::new();
        let mut j: usize = 0;
        while j < updates.len()
            invariant
                j <= updates.len(),
                facts@.len() == j,
                forall|i: int|
                    0 <= i < j ==> (#[trigger] facts@[i])@ == (FactModel {
                        update: updates@[i],
                        profile: self@.profile(updates@[i].node_id),
                    }),
            decreases updates.len() - j,
        {
            let update = updates[j].clone();
            let profile = match self.profiles.get(&update.node_id.0) {
                Some(profile) => profile.copy(),
                None => MemberProfile::unknown(),
            };
            facts.push(MemberFact { update, profile });
            j = j + 1;
        }
        assert(updates_of(facts_view(facts@)) =~= updates@);
        let mut mutations: Vec<(u64, RingMutation)> = Vec::new();
        let mut i: usize = 0;
        while i < self.recent_mutations.len()
            invariant
                i <= self.recent_mutations.len(),
                mutations@ == self.recent_mutations@.take(i as int),
            decreases self.recent_mutations.len() - i,
        {
            mutations.push(self.recent_mutations[i]);
            i = i + 1;
        }
        (facts, mutations)
    }

    /// Takes in what came along with a message.
    pub fn merge_incoming(&mut self, facts: Vec<MemberFact>, mutations: Vec<(u64, RingMutation)>)
        requires
            old(self)@.wf(),
        ensures
            final(self)@ == old(self)@.with_facts(facts_view(facts@)).with_mutations(mutations@),
            final(self)@.wf(),
    {
        let mut i: usize = 0;
        let ghost start = self@;
        let ghost all = facts_view(facts@);
        while i < facts.len()
            invariant
                i <= facts.len(),
                all == facts_view(facts@),
                self@.wf(),
                self@ == start.with_facts(all.take(i as int)),
            decreases facts.len() - i,
        {
            let ghost before = self@;
            let fact = &facts[i];
            let node_id = fact.update.node_id;
            if self.member_table.merge_update(fact.update.clone()) {
                self.set_profile(node_id, fact.profile.copy());
            }
            proof {
                assert(all.take(i + 1).drop_last() =~= all.take(i as int));
                assert(all.take(i + 1).last() == fact@);
                assert(self@ == before.with_fact(fact@));
            }
            i = i + 1;
        }
        assert(all.take(i as int) =~= all);
        let ghost merged_state = self@;
        let mut j: usize = 0;
        while j < mutations.len()
            invariant
                j <= mutations.len(),
                self@.wf(),
                self@ == merged_state.with_mutations(mutations@.take(j as int)),
            decreases mutations.len() - j,
        {
            let (epoch, mutation) = mutations[j];
            self.record_mutation(epoch, mutation);
            assert(mutations@.take(j + 1).drop_last() =~= mutations@.take(j as int));
            j = j + 1;
        }
        assert(mutations@.take(j as int) =~= mutations@);
    }

    /// Notes what a member offers.
    pub fn set_profile(&mut self, node_id: NodeId, profile: MemberProfile)
        ensures
            final(self)@ == (GossipModel {
                profiles: old(self)@.profiles.insert(node_id.0, profile@),
                ..old(self)@
            }),
    {
        let ghost p = profile@;
        self.profiles.insert(node_id.0, profile);
        assert(self@.profiles =~= old(self)@.profiles.insert(node_id.0, p));
    }

    /// The highest number among the recent changes; zero, if there are none.
    pub fn highest_seen_epoch(&self) -> (epoch: u64)
        ensures
            epoch == max_epoch(self@.recent),
    {
        let mut highest: u64 = 0;
        let mut i: usize = 0;
        while i < self.recent_mutations.len()
            invariant
                i <= self.recent_mutations.len(),
                highest == max_epoch(self.recent_mutations@.take(i as int)),
            decreases self.recent_mutations.len() - i,
        {
            assert(self.recent_mutations@.take(i + 1).drop_last()
                =~= self.recent_mutations@.take(i as int));
            let epoch: u64 = self.recent_mutations[i].0;
            if epoch > highest {
                highest = epoch;
            }
            i = i + 1;
        }
        assert(self.recent_mutations@.take(i as int) =~= self.recent_mutations@);
        highest
    }
}

impl Default for GossipState {
    fn default() -> (gossip: Self)
        ensures
            gossip@ == (GossipModel {
                members: Map::empty(),
                profiles: Map::empty(),
                log: LogModel { applied: 0, pending: Map::empty() },
                recent: seq![],
            }),
            gossip@.wf(),
    {
        Self::new()
    }
}

/// The highest number in a list, or zero where that is empty.
pub open spec fn max_epoch(recent: Seq<(u64, RingMutation)>) -> u64
    decreases recent.len(),
{
    if recent.len() == 0 {
        0
    } else {
        let before = max_epoch(recent.drop_last());
        if recent.last().0 > before {
            recent.last().0
        } else {
            before
        }
    }
}

/// Whether `facts` lists what is known of every member, in ascending order.
pub open spec fn lists_members(m: Map<u64, MemberUpdate>, facts: Seq<MemberUpdate>) -> bool {
    &&& forall|i: int, j: int|
        0 <= i < j < facts.len() ==> (#[trigger] facts[i]).node_id.0 < (
        #[trigger] facts[j]).node_id.0
    &&& forall|i: int|
        0 <= i < facts.len() ==> m.contains_key((#[trigger] facts[i]).node_id.0)
            && m[facts[i].node_id.0] == facts[i]
    &&& forall|k: u64| #[trigger] m.contains_key(k) ==> facts.contains(m[k])
}

/// Whether `facts` lists what is known of every member, and what it offers, in
/// ascending order.
pub open spec fn lists_facts(g: GossipModel, facts: Seq<FactModel>) -> bool {
    &&& lists_members(g.members, updates_of(facts))
    &&& forall|i: int|
        0 <= i < facts.len() ==> (#[trigger] facts[i]).profile == g.profile(facts[i].update.node_id)
}

// ---- the cluster ----

/// The mathematical content of a [`ClusterState`].
pub struct ClusterModel {
    pub compute: Seq<Slot>,
    pub storage: Seq<Slot>,
    pub addresses: Map<u64, Seq<char>>,
    pub identities: Map<u64, DatumId>,
    /// The storage members that are alive.
    pub alive: Set<u64>,
    /// The storage members that have missed a write.
    pub stale: Set<u64>,
    pub halt: HaltModel,
}

/// What changes of the ring can touch.
pub struct ClusterState {
    pub compute_ring: Ring,
    pub storage_ring: Ring,
    pub store_addresses: BTreeMap<u64, String>,
    /// The logs of the storage members, by which a node that comes back is
    /// recognised.
    pub identity_book: BTreeMap<u64, DatumId>,
    pub storage_alive: BTreeSet<u64>,
    pub storage_stale: BTreeSet<u64>,
    pub halt: HaltState,
}

impl View for ClusterState {
    type V = ClusterModel;

    open spec fn view(&self) -> ClusterModel {
        ClusterModel {
            compute: self.compute_ring@,
            storage: self.storage_ring@,
            addresses: book_view(self.store_addresses@),
            identities: self.identity_book@,
            alive: self.storage_alive@,
            stale: self.storage_stale@,
            halt: self.halt@,
        }
    }
}

/// Why a cluster halts that has lost a storage member.
pub open spec fn storage_death_text(node_id: NodeId) -> Seq<char> {
    "cluster halted: storage node NodeId("@ + decimal(node_id.0 as nat)
        + ") confirmed dead — fail-stop (no replication in v1)"@
}

impl ClusterModel {
    /// The cluster once a storage member is known to be there. It does not
    /// enter the ring, where it would take over keys whose datums are
    /// elsewhere.
    pub open spec fn with_storage_member(self, node_id: NodeId, p: ProfileModel) -> ClusterModel {
        ClusterModel {
            addresses: if p.store_address.len() > 0 {
                self.addresses.insert(node_id.0, p.store_address)
            } else {
                self.addresses
            },
            identities: if p.log_id.rank() != 0 {
                self.identities.insert(node_id.0, p.log_id)
            } else {
                self.identities
            },
            ..self
        }
    }

    /// The cluster once a storage member is dead: it halts, unless the member
    /// had left the ring before.
    pub open spec fn without_storage_member(self, node_id: NodeId) -> ClusterModel {
        if has_node(self.storage, node_id) {
            ClusterModel { halt: self.halt.after_halt(storage_death_text(node_id)), ..self }
        } else {
            self
        }
    }

    /// The cluster after a change, which goes to the ring of the member's role.
    pub open spec fn routed(self, g: GossipModel, m: RingMutation) -> ClusterModel {
        match m {
            RingMutation::Join { node_id, .. } => match g.role(node_id) {
                MemberRole::Compute => ClusterModel { compute: mutated(self.compute, m), ..self },
                MemberRole::Storage => self.with_storage_member(node_id, g.profiles[node_id.0]),
            },
            RingMutation::Leave { node_id } => match g.role(node_id) {
                MemberRole::Compute => ClusterModel { compute: mutated(self.compute, m), ..self },
                MemberRole::Storage => self.without_storage_member(node_id),
            },
        }
    }

    /// The cluster after some changes, one after the other.
    pub open spec fn routed_all(self, g: GossipModel, ms: Seq<RingMutation>) -> ClusterModel
        decreases ms.len(),
    {
        if ms.len() == 0 {
            self
        } else {
            self.routed_all(g, ms.drop_last()).routed(g, ms.last())
        }
    }
}

/// The member that a change is about.
pub open spec fn subject(m: RingMutation) -> NodeId {
    match m {
        RingMutation::Join { node_id, .. } => node_id,
        RingMutation::Leave { node_id } => node_id,
    }
}

/// Whether one of some changes is about a compute member.
pub open spec fn touches_compute(g: GossipModel, ms: Seq<RingMutation>) -> bool {
    exists|i: int| 0 <= i < ms.len() && g.role(subject(#[trigger] ms[i])) == MemberRole::Compute
}

/// The members that leave in some changes, in order.
pub open spec fn leavers(ms: Seq<RingMutation>) -> Seq<NodeId>
    decreases ms.len(),
{
    if ms.len() == 0 {
        seq![]
    } else {
        match ms.last() {
            RingMutation::Join { .. } => leavers(ms.drop_last()),
            RingMutation::Leave { node_id } => leavers(ms.drop_last()).push(node_id),
        }
    }
}

/// What the workers are to do after a change of the compute ring: evict what is
/// no longer at home here, and free what departed nodes held.
#[derive(Debug, PartialEq, Eq)]
pub struct Applied {
    pub evict: bool,
    pub departed: Vec<NodeId>,
}

fn storage_death(node_id: NodeId) -> (text: String)
    ensures
        text@ == storage_death_text(node_id),
{
    let mut text = copy_text("cluster halted: storage node NodeId(");
    push_decimal(&mut text, node_id.0 as u128);
    text.append(") confirmed dead — fail-stop (no replication in v1)");
    text
}

impl ClusterState {
    /// A cluster without a storage tier.
    pub fn compute_only(compute_ring: Ring) -> (cluster: Self)
        ensures
            cluster@ == (ClusterModel {
                compute: compute_ring@,
                storage: seq![],
                addresses: Map::empty(),
                identities: Map::empty(),
                alive: Set::empty(),
                stale: Set::empty(),
                halt: HaltModel::serving(),
            }),
    {
        let cluster = Self {
            compute_ring,
            storage_ring: Ring::empty(),
            store_addresses: BTreeMap::new(),
            identity_book: BTreeMap::new(),
            storage_alive: BTreeSet::new(),
            storage_stale: BTreeSet::new(),
            halt: HaltState::new(),
        };
        assert(cluster@.addresses =~= Map::empty());
        cluster
    }

    /// Carries out one change.
    fn route(&mut self, gossip: &GossipState, m: RingMutation)
        ensures
            final(self)@ == old(self)@.routed(gossip@, m),
    {
        let node_id = match m {
            RingMutation::Join { node_id, .. } => node_id,
            RingMutation::Leave { node_id } => node_id,
        };
        match gossip.profiles.get(&node_id.0) {
            Some(profile) => {
                assert(gossip@.profiles[node_id.0] == profile@);
                match profile.role {
                    MemberRole::Compute => apply_mutation(&mut self.compute_ring, m),
                    MemberRole::Storage => match m {
                        RingMutation::Join { .. } => {
                            if !profile.store_address.as_str().is_empty() {
                                book_put(
                                    &mut self.store_addresses,
                                    node_id,
                                    profile.store_address.as_str(),
                                );
                            }
                            if profile.log_id.as_rank() != 0 {
                                self.identity_book.insert(node_id.0, profile.log_id);
                            }
                        },
                        RingMutation::Leave { .. } => {
                            if self.storage_ring.contains(node_id) {
                                self.halt.halt(storage_death(node_id));
                            }
                        },
                    },
                }
            },
            None => apply_mutation(&mut self.compute_ring, m),
        }
    }
}

/// Carries out the changes of the ring whose turn has come, in order. Returns
/// what the workers are to do.
pub fn apply_ready_mutations(gossip: &mut GossipState, cluster: &mut ClusterState) -> (applied:
    Applied)
    requires
        old(gossip)@.wf(),
    ensures
        final(gossip)@ == (GossipModel { log: old(gossip)@.log.drained(), ..old(gossip)@ }),
        final(gossip)@.wf(),
        final(cluster)@ == old(cluster)@.routed_all(old(gossip)@, old(gossip)@.log.ready()),
        applied.evict == touches_compute(old(gossip)@, old(gossip)@.log.ready()),
        applied.departed@ == if applied.evict {
            leavers(old(gossip)@.log.ready())
        } else {
            seq![]
        },
{
    let ghost g = gossip@;
    let ready = gossip.mutation_log.drain_applicable();
    let ghost g1 = gossip@;
    let mut evict = false;
    let mut departed: Vec<NodeId> = Vec::new();
    let mut i: usize = 0;
    while i < ready.len()
        invariant
            i <= ready.len(),
            ready@ == g.log.ready(),
            gossip@ == g1,
            g1.profiles == g.profiles,
            cluster@ == old(cluster)@.routed_all(g, ready@.take(i as int)),
            evict == touches_compute(g, ready@.take(i as int)),
            departed@ == leavers(ready@.take(i as int)),
        decreases ready.len() - i,
    {
        let m = ready[i];
        let ghost seen = ready@.take(i as int);
        let ghost more = ready@.take(i + 1);
        let ghost was = evict;
        assert(more.drop_last() =~= seen);
        cluster.route(gossip, m);
        assert(cluster@ == old(cluster)@.routed_all(g, more));
        let node_id = match m {
            RingMutation::Join { node_id, .. } => node_id,
            RingMutation::Leave { node_id } => {
                departed.push(node_id);
                node_id
            },
        };
        let computes = match gossip.profiles.get(&node_id.0) {
            Some(profile) => profile.role == MemberRole::Compute,
            None => true,
        };
        assert(computes == (g.role(subject(m)) == MemberRole::Compute));
        if computes {
            evict = true;
        }
        proof {
            if was {
                let j = choose|j: int|
                    0 <= j < seen.len() && g.role(subject(#[trigger] seen[j]))
                        == MemberRole::Compute;
                assert(more[j] == seen[j]);
            }
            if computes {
                assert(more[i as int] == m);
            }
            if touches_compute(g, more) && !computes {
                let j = choose|j: int|
                    0 <= j < more.len() && g.role(subject(#[trigger] more[j]))
                        == MemberRole::Compute;
                assert(seen[j] == more[j]);
            }
        }
        i = i + 1;
    }
    assert(ready@.take(i as int) =~= ready@);
    if !evict {
        departed = Vec::new();
    }
    Applied { evict, departed }
}

/// The identities of the storage members whose logs are known.
pub open spec fn reconciled(book: Map<u64, DatumId>, g: GossipModel) -> Map<u64, DatumId> {
    Map::new(
        |k: u64| book.contains_key(k) || known_log(g, k),
        |k: u64|
            if known_log(g, k) {
                g.profiles[k].log_id
            } else {
                book[k]
            },
    )
}

/// Whether a member stores, and its log is known.
pub open spec fn known_log(g: GossipModel, k: u64) -> bool {
    g.profiles.contains_key(k) && g.profiles[k].role == MemberRole::Storage
        && g.profiles[k].log_id.rank() != 0
}

/// Copies the logs of the storage members into the book of identities.
pub fn reconcile_identity_book(gossip: &GossipState, cluster: &mut ClusterState)
    ensures
        final(cluster)@ == (ClusterModel {
            identities: reconciled(old(cluster)@.identities, gossip@),
            ..old(cluster)@
        }),
{
    let ghost g = gossip@;
    let ghost book = cluster.identity_book@;
    let keys = sorted_keys(&gossip.profiles);
    let mut i: usize = 0;
    while i < keys.len()
        invariant
            i <= keys.len(),
            ascending(keys@),
            g == gossip@,
            book == old(cluster).identity_book@,
            forall|k: u64| keys@.contains(k) <==> gossip.profiles@.contains_key(k),
            cluster.compute_ring == old(cluster).compute_ring,
            cluster.storage_ring == old(cluster).storage_ring,
            cluster.store_addresses == old(cluster).store_addresses,
            cluster.storage_alive == old(cluster).storage_alive,
            cluster.storage_stale == old(cluster).storage_stale,
            cluster.halt == old(cluster).halt,
            forall|k: u64|
                #[trigger] cluster.identity_book@.contains_key(k) <==> (book.contains_key(k) || (
                known_log(g, k) && keys@.take(i as int).contains(k))),
            forall|k: u64| #[trigger]
                cluster.identity_book@.contains_key(k) ==> cluster.identity_book@[k] == if known_log(
                    g,
                    k,
                ) && keys@.take(i as int).contains(k) {
                    g.profiles[k].log_id
                } else {
                    book[k]
                },
        decreases keys.len() - i,
    {
        let k: u64 = keys[i];
        let ghost seen = keys@.take(i as int);
        let ghost more = keys@.take(i + 1);
        let ghost book0 = cluster.identity_book@;
        assert(keys@.contains(keys@[i as int]));
        assert forall|x: u64| more.contains(x) <==> (seen.contains(x) || x == k) by {
            assert(more =~= seen.push(k));
            if seen.contains(x) {
                let j = choose|j: int| 0 <= j < seen.len() && seen[j] == x;
                assert(more[j] == x);
            }
            if x == k {
                assert(more[i as int] == x);
            }
            if more.contains(x) && x != k {
                let j = choose|j: int| 0 <= j < more.len() && more[j] == x;
                assert(seen[j] == x);
            }
        }
        if let Some(profile) = gossip.profiles.get(&k) {
            assert(g.profiles[k] == profile@);
            if profile.role == MemberRole::Storage && profile.log_id.as_rank() != 0 {
                cluster.identity_book.insert(k, profile.log_id);
                assert(cluster.identity_book@ == book0.insert(k, profile.log_id));
            }
        }
        i = i + 1;
    }
    assert(keys@.take(i as int) =~= keys@);
    assert forall|k: u64| known_log(g, k) implies keys@.contains(k) by {
        assert(gossip.profiles@.contains_key(k));
    }
    assert(cluster@.identities =~= reconciled(book, g));
}

// ---- laws ----

/// A storage member that joins does not enter a ring: no datum changes its home.
pub proof fn law_storage_join_moves_nothing(
    c: ClusterModel,
    g: GossipModel,
    node_id: NodeId,
    thread_count: u32,
)
    requires
        g.role(node_id) == MemberRole::Storage,
    ensures
        c.routed(g, RingMutation::Join { node_id, thread_count }).storage == c.storage,
        c.routed(g, RingMutation::Join { node_id, thread_count }).compute == c.compute,
        c.routed(g, RingMutation::Join { node_id, thread_count }).halt == c.halt,
{
}

/// The death of a storage member halts the cluster exactly where the member was
/// in the storage ring.
pub proof fn law_storage_death_halts(c: ClusterModel, g: GossipModel, node_id: NodeId)
    requires
        g.role(node_id) == MemberRole::Storage,
        !c.halt.halted,
    ensures
        c.routed(g, RingMutation::Leave { node_id }).halt.halted <==> has_node(c.storage, node_id),
        c.routed(g, RingMutation::Leave { node_id }).compute == c.compute,
{
}

/// Gossip tells what a member offers: a fact that is taken over brings its
/// profile along, and another one leaves everything as it is. Of other members
/// nothing changes.
pub proof fn law_fact_brings_its_profile(g: GossipModel, f: FactModel, other: NodeId)
    ensures
        accepts(g.members, f.update) ==> g.with_fact(f).profile(f.update.node_id) == f.profile,
        !accepts(g.members, f.update) ==> g.with_fact(f) == g,
        other != f.update.node_id ==> g.with_fact(f).profile(other) == g.profile(other)
            && g.with_fact(f).members.contains_key(other.0) == g.members.contains_key(other.0)
            && g.with_fact(f).members[other.0] == g.members[other.0],
{
}

/// However many changes are heard of, no more are passed on than fit.
pub proof fn law_recent_is_bounded(g: GossipModel, ms: Seq<(u64, RingMutation)>)
    requires
        g.wf(),
    ensures
        g.with_mutations(ms).recent.len() <= RECENT_MUTATIONS_CAP,
    decreases ms.len(),
{
    if ms.len() > 0 {
        law_recent_is_bounded(g, ms.drop_last());
    }
}

} // verus!
