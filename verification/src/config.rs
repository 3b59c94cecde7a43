//! A node's configuration, and what it comes to.

use crate::authority::{NodeId, ThreadId};
use crate::books::{book_put, book_view};
use crate::datum::DatumId;
use crate::gossip_state::{GossipModel, GossipState, MemberProfile, MemberRole, ProfileModel};
use crate::gossip_wire::MemberModel;
use crate::membership::{merged, Incarnation, MemberStatus, MemberUpdate};
use crate::ring::{joined, Ring};
use crate::ring_laws::law_everyone_who_joined_has_slots;
use crate::text::copy_text;
use std::collections::BTreeMap;
use vstd::prelude::*;

verus! {

broadcast use {vstd::std_specs::btree::group_btree_axioms, vstd::laws_cmp::group_laws_cmp};

/// A member of the cluster, as configured. `address` is where clients call.
#[derive(Debug, PartialEq, Eq)]
pub struct MemberConfig {
    pub node_id: u64,
    pub address: String,
    pub thread_count: u32,
    pub role: MemberRole,
    pub gossip_address: String,
    pub peer_link_address: String,
    pub store_address: Option<String>,
    pub capacity_weight: Option<u32>,
}

/// A node's configuration: who it is, and who the members are.
#[derive(Debug, PartialEq, Eq)]
pub struct NodeConfig {
    pub self_node_id: u64,
    pub members: Vec<MemberConfig>,
}

/// Why a node cannot start.
#[derive(Debug, Clone, Copy, PartialEq, Eq, Structural)]
pub enum ConfigError {
    /// The node is not among the members.
    SelfNotAMember,
    /// A storage member has no store address.
    NoStoreAddress,
}

/// The place of the first member with an id.
pub open spec fn member_place(members: Seq<MemberConfig>, node_id: u64) -> Option<int>
    decreases members.len(),
{
    if members.len() == 0 {
        None
    } else {
        match member_place(members.drop_last(), node_id) {
            Some(i) => Some(i),
            None => if members.last().node_id == node_id {
                Some(members.len() - 1)
            } else {
                None
            },
        }
    }
}

proof fn lemma_member_place(members: Seq<MemberConfig>, node_id: u64)
    ensures
        member_place(members, node_id) matches Some(i) ==> 0 <= i < members.len()
            && members[i].node_id == node_id,
    decreases members.len(),
{
    if members.len() > 0 {
        lemma_member_place(members.drop_last(), node_id);
    }
}

/// The members of a role with their threads, in order.
pub open spec fn compute_members(members: Seq<MemberConfig>) -> Seq<(NodeId, u32)>
    decreases members.len(),
{
    if members.len() == 0 {
        seq![]
    } else if members.last().role == MemberRole::Compute {
        compute_members(members.drop_last()).push(
            (NodeId(members.last().node_id), members.last().thread_count),
        )
    } else {
        compute_members(members.drop_last())
    }
}

/// A member's weight in the storage ring: one, unless configured.
pub open spec fn weight_of(m: MemberConfig) -> u32 {
    match m.capacity_weight {
        Some(w) => w,
        None => 1,
    }
}

/// The storage members with their weights, in order.
pub open spec fn storage_members(members: Seq<MemberConfig>) -> Seq<(NodeId, u32)>
    decreases members.len(),
{
    if members.len() == 0 {
        seq![]
    } else if members.last().role == MemberRole::Storage {
        storage_members(members.drop_last()).push(
            (NodeId(members.last().node_id), weight_of(members.last())),
        )
    } else {
        storage_members(members.drop_last())
    }
}

/// Where clients call the members.
pub open spec fn client_book(members: Seq<MemberConfig>) -> Map<u64, Seq<char>>
    decreases members.len(),
{
    if members.len() == 0 {
        Map::empty()
    } else {
        client_book(members.drop_last()).insert(members.last().node_id, members.last().address@)
    }
}

/// Where nodes call each other.
pub open spec fn peer_book(members: Seq<MemberConfig>) -> Map<u64, Seq<char>>
    decreases members.len(),
{
    if members.len() == 0 {
        Map::empty()
    } else {
        peer_book(members.drop_last()).insert(
            members.last().node_id,
            members.last().peer_link_address@,
        )
    }
}

/// Where the stores of the storage members are called.
pub open spec fn store_book(members: Seq<MemberConfig>) -> Map<u64, Seq<char>>
    decreases members.len(),
{
    if members.len() == 0 {
        Map::empty()
    } else {
        let before = store_book(members.drop_last());
        match members.last().store_address {
            Some(address) => if members.last().role == MemberRole::Storage {
                before.insert(members.last().node_id, address@)
            } else {
                before
            },
            None => before,
        }
    }
}

/// What a compute node starts with.
pub struct ComputePlan {
    pub address: String,
    pub gossip_address: String,
    pub peer_link_address: String,
    pub thread_count: u32,
    pub ring: Ring,
    pub address_book: BTreeMap<u64, String>,
    pub peer_link_book: BTreeMap<u64, String>,
    pub storage_members: Vec<(NodeId, u32)>,
    pub store_addresses: BTreeMap<u64, String>,
}

/// What a node starts as.
pub enum NodePlan {
    /// A storage node, with where its store and its gossip are called.
    Storage { store_address: String, gossip_address: String },
    Compute(ComputePlan),
}

impl NodeConfig {
    /// Whether the node is among the members.
    pub open spec fn has_self(self) -> bool {
        member_place(self.members@, self.self_node_id) is Some
    }

    /// The node's own entry.
    pub open spec fn own(self) -> MemberConfig {
        self.members@[member_place(self.members@, self.self_node_id).unwrap()]
    }

    /// Whether the node starts as it is configured.
    pub open spec fn starts_as(self, r: Result<NodePlan, ConfigError>) -> bool {
        match r {
            Err(ConfigError::SelfNotAMember) => !self.has_self(),
            Err(ConfigError::NoStoreAddress) => self.has_self() && self.own().role
                == MemberRole::Storage && self.own().store_address is None,
            Ok(NodePlan::Storage { store_address, gossip_address }) => {
                &&& self.has_self()
                &&& self.own().role == MemberRole::Storage
                &&& self.own().store_address matches Some(a) && store_address@ == a@
                &&& gossip_address@ == self.own().gossip_address@
            },
            Ok(NodePlan::Compute(p)) => {
                &&& self.has_self()
                &&& self.own().role == MemberRole::Compute
                &&& p.address@ == self.own().address@
                &&& p.gossip_address@ == self.own().gossip_address@
                &&& p.peer_link_address@ == self.own().peer_link_address@
                &&& p.thread_count == self.own().thread_count
                &&& p.ring@ == joined(compute_members(self.members@))
                &&& book_view(p.address_book@) == client_book(self.members@)
                &&& book_view(p.peer_link_book@) == peer_book(self.members@)
                &&& p.storage_members@ == storage_members(self.members@)
                &&& book_view(p.store_addresses@) == store_book(self.members@)
            },
        }
    }

    /// The place of the node's own entry.
    fn own_place(&self) -> (place: Option<usize>)
        ensures
            place is Some == self.has_self(),
            place matches Some(i) ==> i < self.members@.len() && self.members@[i as int]
                == self.own(),
    {
        let mut i: usize = 0;
        let mut found: Option<usize> = None;
        while i < self.members.len()
            invariant
                i <= self.members.len(),
                (match found {
                    Some(j) => Some(j as int),
                    None => None,
                }) == member_place(self.members@.take(i as int), self.self_node_id),
            decreases self.members.len() - i,
        {
            assert(self.members@.take(i + 1).drop_last() =~= self.members@.take(i as int));
            if found.is_none() && self.members[i].node_id == self.self_node_id {
                found = Some(i);
            }
            i = i + 1;
        }
        assert(self.members@.take(i as int) =~= self.members@);
        proof {
            lemma_member_place(self.members@, self.self_node_id);
        }
        found
    }

    /// Where clients call this node, which must be among the members.
    pub fn self_address(&self) -> (address: &str)
        requires
            self.has_self(),
        ensures
            address@ == self.own().address@,
    {
        let place: usize = self.own_place().unwrap();
        self.members[place].address.as_str()
    }

    /// The compute ring.
    fn compute_ring(&self) -> (ring: Ring)
        ensures
            ring@ == joined(compute_members(self.members@)),
    {
        let mut list: Vec<(NodeId, u32)> = Vec::new();
        let mut i: usize = 0;
        while i < self.members.len()
            invariant
                i <= self.members.len(),
                list@ == compute_members(self.members@.take(i as int)),
            decreases self.members.len() - i,
        {
            assert(self.members@.take(i + 1).drop_last() =~= self.members@.take(i as int));
            let m = &self.members[i];
            if m.role == MemberRole::Compute {
                list.push((NodeId(m.node_id), m.thread_count));
            }
            i = i + 1;
        }
        assert(self.members@.take(i as int) =~= self.members@);
        Ring::from_members(list.as_slice())
    }

    /// The storage members with their weights.
    pub fn storage_ring_members(&self) -> (list: Vec<(NodeId, u32)>)
        ensures
            list@ == storage_members(self.members@),
    {
        let mut list: Vec<(NodeId, u32)> = Vec::new();
        let mut i: usize = 0;
        while i < self.members.len()
            invariant
                i <= self.members.len(),
                list@ == storage_members(self.members@.take(i as int)),
            decreases self.members.len() - i,
        {
            assert(self.members@.take(i + 1).drop_last() =~= self.members@.take(i as int));
            let m = &self.members[i];
            if m.role == MemberRole::Storage {
                let weight: u32 = match m.capacity_weight {
                    Some(w) => w,
                    None => 1,
                };
                list.push((NodeId(m.node_id), weight));
            }
            i = i + 1;
        }
        assert(self.members@.take(i as int) =~= self.members@);
        list
    }

    /// Where clients call the members.
    pub fn address_book(&self) -> (book: BTreeMap<u64, String>)
        ensures
            book_view(book@) == client_book(self.members@),
    {
        let mut book: BTreeMap<u64, String> = BTreeMap::new();
        let mut i: usize = 0;
        assert(book_view(book@) =~= Map::empty());
        while i < self.members.len()
            invariant
                i <= self.members.len(),
                book_view(book@) == client_book(self.members@.take(i as int)),
            decreases self.members.len() - i,
        {
            assert(self.members@.take(i + 1).drop_last() =~= self.members@.take(i as int));
            let m = &self.members[i];
            book_put(&mut book, NodeId(m.node_id), m.address.as_str());
            i = i + 1;
        }
        assert(self.members@.take(i as int) =~= self.members@);
        book
    }

    /// Where nodes call each other.
    pub fn peer_link_book(&self) -> (book: BTreeMap<u64, String>)
        ensures
            book_view(book@) == peer_book(self.members@),
    {
        let mut book: BTreeMap<u64, String> = BTreeMap::new();
        let mut i: usize = 0;
        assert(book_view(book@) =~= Map::empty());
        while i < self.members.len()
            invariant
                i <= self.members.len(),
                book_view(book@) == peer_book(self.members@.take(i as int)),
            decreases self.members.len() - i,
        {
            assert(self.members@.take(i + 1).drop_last() =~= self.members@.take(i as int));
            let m = &self.members[i];
            book_put(&mut book, NodeId(m.node_id), m.peer_link_address.as_str());
            i = i + 1;
        }
        assert(self.members@.take(i as int) =~= self.members@);
        book
    }

    /// Where the stores of the storage members are called.
    pub fn store_address_book(&self) -> (book: BTreeMap<u64, String>)
        ensures
            book_view(book@) == store_book(self.members@),
    {
        let mut book: BTreeMap<u64, String> = BTreeMap::new();
        let mut i: usize = 0;
        assert(book_view(book@) =~= Map::empty());
        while i < self.members.len()
            invariant
                i <= self.members.len(),
                book_view(book@) == store_book(self.members@.take(i as int)),
            decreases self.members.len() - i,
        {
            assert(self.members@.take(i + 1).drop_last() =~= self.members@.take(i as int));
            let m = &self.members[i];
            if m.role == MemberRole::Storage {
                if let Some(address) = &m.store_address {
                    book_put(&mut book, NodeId(m.node_id), address.as_str());
                }
            }
            i = i + 1;
        }
        assert(self.members@.take(i as int) =~= self.members@);
        book
    }

    /// What this node starts as.
    pub fn plan(&self) -> (r: Result<NodePlan, ConfigError>)
        ensures
            self.starts_as(r),
            !self.has_self() <==> (r matches Err(e) && e == ConfigError::SelfNotAMember),
            self.has_self() && self.own().role == MemberRole::Storage
                && self.own().store_address is None <==> (r matches Err(e) && e
                == ConfigError::NoStoreAddress),
            self.has_self() && self.own().role == MemberRole::Storage ==> (
            self.own().store_address matches Some(a) ==> (r matches Ok(NodePlan::Storage {
                store_address,
                gossip_address,
            }) && store_address@ == a@ && gossip_address@ == self.own().gossip_address@)),
            self.has_self() && self.own().role == MemberRole::Compute ==> (r matches Ok(
                NodePlan::Compute(p),
            ) && p.address@ == self.own().address@ && p.gossip_address@
                == self.own().gossip_address@ && p.peer_link_address@
                == self.own().peer_link_address@ && p.thread_count == self.own().thread_count
                && p.ring@ == joined(compute_members(self.members@)) && book_view(p.address_book@)
                == client_book(self.members@) && book_view(p.peer_link_book@) == peer_book(
                self.members@,
            ) && p.storage_members@ == storage_members(self.members@) && book_view(
                p.store_addresses@,
            ) == store_book(self.members@)),
    {
        let place: usize = match self.own_place() {
            None => return Err(ConfigError::SelfNotAMember),
            Some(place) => place,
        };
        let own = &self.members[place];
        match own.role {
            MemberRole::Storage => match &own.store_address {
                None => Err(ConfigError::NoStoreAddress),
                Some(address) => Ok(
                    NodePlan::Storage {
                        store_address: copy_text(address.as_str()),
                        gossip_address: copy_text(own.gossip_address.as_str()),
                    },
                ),
            },
            MemberRole::Compute => Ok(
                NodePlan::Compute(
                    ComputePlan {
                        address: copy_text(own.address.as_str()),
                        gossip_address: copy_text(own.gossip_address.as_str()),
                        peer_link_address: copy_text(own.peer_link_address.as_str()),
                        thread_count: own.thread_count,
                        ring: self.compute_ring(),
                        address_book: self.address_book(),
                        peer_link_book: self.peer_link_book(),
                        storage_members: self.storage_ring_members(),
                        store_addresses: self.store_address_book(),
                    },
                ),
            ),
        }
    }
}

// ---- the first facts ----

/// Whether a fact says that a configured member is alive, for the first time.
pub open spec fn is_first_fact(u: MemberUpdate, m: MemberConfig) -> bool {
    u@ == (MemberModel {
        node_id: NodeId(m.node_id),
        incarnation: Incarnation(0),
        status: MemberStatus::Alive,
        client_address: m.address@,
        gossip_address: m.gossip_address@,
        thread_count: m.thread_count,
    })
}

/// What a configured member offers. Only this node's own log is known.
pub open spec fn first_profile(m: MemberConfig, self_node_id: u64, log_id: DatumId) -> ProfileModel {
    ProfileModel {
        role: m.role,
        capacity_weight: weight_of(m),
        store_address: match m.store_address {
            Some(a) => a@,
            None => seq![],
        },
        log_id: if m.node_id == self_node_id {
            log_id
        } else {
            DatumId::of_rank(0)
        },
    }
}

/// Whether what is known of one node is right once the configured members were
/// entered: a member that was not known is now, as its first entry says, and of
/// any other node nothing has changed.
pub open spec fn seeded_at(
    before: GossipModel,
    after: GossipModel,
    members: Seq<MemberConfig>,
    self_node_id: u64,
    log_id: DatumId,
    k: u64,
) -> bool {
    match member_place(members, k) {
        Some(i) if !before.members.contains_key(k) => {
            &&& after.members.contains_key(k)
            &&& is_first_fact(after.members[k], members[i])
            &&& after.profiles.contains_key(k)
            &&& after.profiles[k] == first_profile(members[i], self_node_id, log_id)
        },
        _ => {
            &&& after.members.contains_key(k) == before.members.contains_key(k)
            &&& after.members[k] == before.members[k]
            &&& after.profiles.contains_key(k) == before.profiles.contains_key(k)
            &&& after.profiles[k] == before.profiles[k]
        },
    }
}

/// Whether the configured members were entered, and nothing else was changed.
pub open spec fn seeded(
    before: GossipModel,
    after: GossipModel,
    members: Seq<MemberConfig>,
    self_node_id: u64,
    log_id: DatumId,
) -> bool {
    &&& after.log == before.log
    &&& after.recent == before.recent
    &&& forall|k: u64|
        #![trigger after.members.contains_key(k)]
        #![trigger after.profiles.contains_key(k)]
        seeded_at(before, after, members, self_node_id, log_id, k)
}

/// Enters the configured members that are not known yet. `log_id` is that of this
/// node's own log, zero where it has none.
pub fn seed_member_table(gossip: &mut GossipState, config: &NodeConfig, log_id: DatumId)
    requires
        old(gossip)@.wf(),
    ensures
        final(gossip)@.wf(),
        seeded(old(gossip)@, final(gossip)@, config.members@, config.self_node_id, log_id),
{
    let mut i: usize = 0;
    while i < config.members.len()
        invariant
            i <= config.members.len(),
            gossip@.wf(),
            seeded(
                old(gossip)@,
                gossip@,
                config.members@.take(i as int),
                config.self_node_id,
                log_id,
            ),
        decreases config.members.len() - i,
    {
        let m = &config.members[i];
        let ghost seen = config.members@.take(i as int);
        let ghost more = config.members@.take(i + 1);
        let ghost before = gossip@;
        proof {
            assert(more.drop_last() =~= seen);
            assert forall|k: u64| #[trigger] member_place(seen, k) is Some implies more[member_place(
                seen,
                k,
            ).unwrap()] == seen[member_place(seen, k).unwrap()] by {
                lemma_member_place(seen, k);
            }
            assert(before.members.contains_key(m.node_id) <==> old(gossip)@.members.contains_key(
                m.node_id,
            ) || member_place(seen, m.node_id) is Some);
        }
        if gossip.member_table.get(NodeId(m.node_id)).is_none() {
            let update = MemberUpdate {
                node_id: NodeId(m.node_id),
                incarnation: Incarnation(0),
                status: MemberStatus::Alive,
                client_address: copy_text(m.address.as_str()),
                gossip_address: copy_text(m.gossip_address.as_str()),
                thread_count: m.thread_count,
            };
            let ghost fact = update;
            gossip.member_table.merge_update(update);
            let weight: u32 = match m.capacity_weight {
                Some(w) => w,
                None => 1,
            };
            let store_address = match &m.store_address {
                Some(a) => copy_text(a.as_str()),
                None => String::new(),
            };
            let known = if m.node_id == config.self_node_id {
                log_id
            } else {
                DatumId::from_rank(0)
            };
            gossip.set_profile(
                NodeId(m.node_id),
                MemberProfile {
                    role: m.role,
                    capacity_weight: weight,
                    store_address,
                    log_id: known,
                },
            );
            proof {
                assert(gossip@.members == merged(before.members, fact));
                assert(is_first_fact(fact, more[i as int]));
            }
        }
        assert forall|k: u64|
            #![trigger gossip@.members.contains_key(k)]
            #![trigger gossip@.profiles.contains_key(k)]
            seeded_at(old(gossip)@, gossip@, more, config.self_node_id, log_id, k) by {
            assert(before.members.contains_key(k) == before.members.contains_key(k));
            assert(seeded_at(old(gossip)@, before, seen, config.self_node_id, log_id, k));
        }
        i = i + 1;
    }
    assert(config.members@.take(i as int) =~= config.members@);
}

// ---- laws ----

/// A node finds itself by the first entry with its id, and is not found exactly
/// where there is none.
pub proof fn law_first_entry_counts(members: Seq<MemberConfig>, node_id: u64, j: int)
    ensures
        member_place(members, node_id) is None ==> (0 <= j < members.len() ==> members[j].node_id
            != node_id),
        member_place(members, node_id) matches Some(i) ==> 0 <= i < members.len()
            && members[i].node_id == node_id && (0 <= j < i ==> members[j].node_id != node_id),
    decreases members.len(),
{
    if members.len() > 0 {
        let head = members.drop_last();
        law_first_entry_counts(head, node_id, j);
        if 0 <= j < head.len() {
            assert(head[j] == members[j]);
        }
        if let Some(i) = member_place(head, node_id) {
            law_first_entry_counts(head, node_id, i);
            assert(head[i] == members[i]);
        }
    }
}

/// The compute ring is made of the compute members and no others, each with its
/// threads, and the storage ring of the storage members and no others, each with
/// its weight, which is one where none is configured.
pub proof fn law_members_join_the_ring_of_their_role(
    members: Seq<MemberConfig>,
    i: int,
    entry: (NodeId, u32),
)
    ensures
        0 <= i < members.len() && members[i].role == MemberRole::Compute ==> compute_members(
            members,
        ).contains((NodeId(members[i].node_id), members[i].thread_count)),
        0 <= i < members.len() && members[i].role == MemberRole::Storage ==> storage_members(
            members,
        ).contains(
            (
                NodeId(members[i].node_id),
                match members[i].capacity_weight {
                    Some(weight) => weight,
                    None => 1,
                },
            ),
        ),
        compute_members(members).contains(entry) ==> exists|j: int|
            0 <= j < members.len() && (#[trigger] members[j]).role == MemberRole::Compute
                && members[j].node_id == entry.0.0 && members[j].thread_count == entry.1,
        storage_members(members).contains(entry) ==> exists|j: int|
            0 <= j < members.len() && (#[trigger] members[j]).role == MemberRole::Storage
                && members[j].node_id == entry.0.0,
        compute_members(members).len() + storage_members(members).len() == members.len(),
    decreases members.len(),
{
    if members.len() > 0 {
        let head = members.drop_last();
        let last = members.last();
        law_members_join_the_ring_of_their_role(head, i, entry);
        if 0 <= i < head.len() {
            assert(head[i] == members[i]);
        }
        let (c, d) = (compute_members(head), compute_members(members));
        let (s, t) = (storage_members(head), storage_members(members));
        lemma_still_listed(c, (NodeId(last.node_id), last.thread_count));
        lemma_still_listed(s, (NodeId(last.node_id), weight_of(last)));
        if d.contains(entry) {
            if c.contains(entry) {
                let j = choose|j: int|
                    0 <= j < head.len() && (#[trigger] head[j]).role == MemberRole::Compute
                        && head[j].node_id == entry.0.0 && head[j].thread_count == entry.1;
                assert(members[j] == head[j]);
            } else {
                assert(members[members.len() - 1] == last);
            }
        }
        if t.contains(entry) {
            if s.contains(entry) {
                let j = choose|j: int|
                    0 <= j < head.len() && (#[trigger] head[j]).role == MemberRole::Storage
                        && head[j].node_id == entry.0.0;
                assert(members[j] == head[j]);
            } else {
                assert(members[members.len() - 1] == last);
            }
        }
    }
}

proof fn lemma_still_listed(list: Seq<(NodeId, u32)>, entry: (NodeId, u32))
    ensures
        forall|e: (NodeId, u32)| #[trigger]
            list.push(entry).contains(e) <==> list.contains(e) || e == entry,
{
    let more = list.push(entry);
    assert forall|e: (NodeId, u32)| #[trigger] more.contains(e) <==> list.contains(e) || e
        == entry by {
        if list.contains(e) {
            let i = choose|i: int| 0 <= i < list.len() && list[i] == e;
            assert(more[i] == e);
        }
        assert(more[list.len() as int] == entry);
        if more.contains(e) && e != entry {
            let i = choose|i: int| 0 <= i < more.len() && more[i] == e;
            assert(list[i] == e);
        }
    }
}

/// The books have every member under its id, with the address of the kind that the
/// book is for, where no two members have the same id; a store is called only where
/// a storage member has one.
pub proof fn law_books_have_every_member(members: Seq<MemberConfig>, i: int, k: u64)
    requires
        0 <= i < members.len(),
        forall|a: int, b: int|
            0 <= a < b < members.len() ==> (#[trigger] members[a]).node_id != (
            #[trigger] members[b]).node_id,
    ensures
        client_book(members).contains_pair(members[i].node_id, members[i].address@),
        peer_book(members).contains_pair(members[i].node_id, members[i].peer_link_address@),
        members[i].role == MemberRole::Storage ==> (members[i].store_address matches Some(a)
            ==> store_book(members).contains_pair(members[i].node_id, a@)),
        members[i].role == MemberRole::Compute || members[i].store_address is None
            ==> !store_book(members).contains_key(members[i].node_id),
        (forall|j: int| 0 <= j < members.len() ==> (#[trigger] members[j]).node_id != k)
            ==> !client_book(members).contains_key(k) && !peer_book(members).contains_key(k)
            && !store_book(members).contains_key(k),
    decreases members.len(),
{
    lemma_books_end(members, k);
    let head = members.drop_last();
    if i < members.len() - 1 {
        assert forall|a: int, b: int| 0 <= a < b < head.len() implies (#[trigger] head[a]).node_id
            != (#[trigger] head[b]).node_id by {
            assert(members[a].node_id != members[b].node_id);
        }
        law_books_have_every_member(head, i, k);
        assert(head[i] == members[i]);
        assert(members[i].node_id != members[members.len() - 1].node_id);
    } else {
        let own = members[i].node_id;
        assert forall|j: int| 0 <= j < head.len() implies (#[trigger] head[j]).node_id != own by {
            assert(members[j].node_id != members[i].node_id);
        }
        lemma_books_end(head, own);
    }
}

proof fn lemma_books_end(members: Seq<MemberConfig>, k: u64)
    ensures
        (forall|j: int| 0 <= j < members.len() ==> (#[trigger] members[j]).node_id != k)
            ==> !client_book(members).contains_key(k) && !peer_book(members).contains_key(k)
            && !store_book(members).contains_key(k),
    decreases members.len(),
{
    if members.len() > 0 && (forall|j: int|
        0 <= j < members.len() ==> (#[trigger] members[j]).node_id != k) {
        let head = members.drop_last();
        assert forall|j: int| 0 <= j < head.len() implies (#[trigger] head[j]).node_id != k by {
            assert(head[j] == members[j]);
        }
        lemma_books_end(head, k);
        assert(members[members.len() - 1].node_id != k);
    }
}

/// Once the configured members were entered, each of them is known. One that was not
/// known before is alive, at its first incarnation, with what its first entry says;
/// one that was stays as it was, and nobody else has become known.
pub proof fn law_configured_members_are_known(
    before: GossipModel,
    after: GossipModel,
    members: Seq<MemberConfig>,
    self_node_id: u64,
    log_id: DatumId,
    k: u64,
    i: int,
)
    requires
        seeded(before, after, members, self_node_id, log_id),
    ensures
        before.members.contains_key(k) ==> after.members.contains_key(k) && after.members[k]
            == before.members[k],
        (0 <= i < members.len() && members[i].node_id == k && (forall|j: int|
            0 <= j < i ==> (#[trigger] members[j]).node_id != k)
            && !before.members.contains_key(k)) ==> {
            let m = members[i];
            &&& after.members.contains_key(k)
            &&& after.members[k].status == MemberStatus::Alive
            &&& after.members[k].incarnation.0 == 0
            &&& after.members[k].client_address@ == m.address@
            &&& after.members[k].gossip_address@ == m.gossip_address@
            &&& after.members[k].thread_count == m.thread_count
            &&& after.role(NodeId(k)) == m.role
            &&& after.profile(NodeId(k)).log_id == (if k == self_node_id {
                log_id
            } else {
                DatumId::of_rank(0)
            })
        },
        (forall|j: int| 0 <= j < members.len() ==> (#[trigger] members[j]).node_id != k)
            ==> after.members.contains_key(k) == before.members.contains_key(k),
{
    assert(after.members.contains_key(k) || !after.members.contains_key(k));
    assert(seeded_at(before, after, members, self_node_id, log_id, k));
    law_first_entry_counts(members, k, i);
    if let Some(p) = member_place(members, k) {
        law_first_entry_counts(members, k, p);
        if 0 <= i < members.len() && members[i].node_id == k && (forall|j: int|
            0 <= j < i ==> (#[trigger] members[j]).node_id != k) {
            assert(p == i) by {
                if p < i {
                    assert(members[p].node_id != k);
                }
            }
        }
    }
}

/// A node starts as its first entry says: a storage member with a store starts as a
/// storage node at that address, one without is refused, a compute member starts with
/// its own addresses and threads in a ring in which each of its threads has a slot, and
/// who is not among the members is refused.
pub proof fn law_node_starts_as_configured(
    config: NodeConfig,
    r: Result<NodePlan, ConfigError>,
    i: int,
    thread: u32,
)
    requires
        config.starts_as(r),
        0 <= i < config.members@.len(),
        forall|j: int|
            0 <= j < i ==> (#[trigger] config.members@[j]).node_id != config.self_node_id,
    ensures
        config.members@[i].node_id == config.self_node_id ==> {
            let own = config.members@[i];
            &&& own.role == MemberRole::Storage && own.store_address is None ==> r == Err::<
                NodePlan,
                ConfigError,
            >(ConfigError::NoStoreAddress)
            &&& own.role == MemberRole::Storage ==> (own.store_address matches Some(a) ==> (
            r matches Ok(NodePlan::Storage { store_address, gossip_address }) && store_address@
                == a@ && gossip_address@ == own.gossip_address@))
            &&& own.role == MemberRole::Compute ==> (r matches Ok(NodePlan::Compute(p))
                && p.address@ == own.address@ && p.gossip_address@ == own.gossip_address@
                && p.peer_link_address@ == own.peer_link_address@ && p.thread_count
                == own.thread_count && (thread < own.thread_count ==> p.ring@.contains(
                (NodeId(own.node_id), ThreadId(thread)),
            )))
        },
        (i == config.members@.len() - 1 && config.members@[i].node_id != config.self_node_id)
            ==> r == Err::<NodePlan, ConfigError>(ConfigError::SelfNotAMember),
{
    let members = config.members@;
    let me = config.self_node_id;
    law_first_entry_counts(members, me, i);
    if let Some(p) = member_place(members, me) {
        law_first_entry_counts(members, me, p);
        if members[i].node_id == me {
            assert(p == i) by {
                if p < i {
                    assert(members[p].node_id != me);
                }
            }
            let own = members[i];
            if own.role == MemberRole::Compute && thread < own.thread_count {
                let entry = (NodeId(own.node_id), own.thread_count);
                let list = compute_members(members);
                law_members_join_the_ring_of_their_role(members, i, entry);
                let k = choose|k: int| 0 <= k < list.len() && list[k] == entry;
                law_everyone_who_joined_has_slots(list, k, thread);
            }
        } else if i == members.len() - 1 {
            if p < i {
                assert(members[p].node_id != me);
            }
        }
    }
}

} // verus!
