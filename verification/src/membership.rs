//! What a node believes of the cluster's members.
//!
//! Facts about a member are ordered: a higher incarnation supersedes a lower
//! one, and at the same incarnation the more severe status wins. Merging facts
//! in any order leads to the same table, see [`law_merge_order`].

use crate::authority::NodeId;
use crate::maps::{ascending, sorted_keys};
use std::collections::BTreeMap;
use vstd::prelude::*;

verus! {

broadcast use {vstd::std_specs::btree::group_btree_axioms, vstd::laws_cmp::group_laws_cmp};

/// A member's own generation number, which it raises to refute a suspicion.
#[derive(Debug, Clone, Copy, PartialEq, Eq, PartialOrd, Ord, Structural)]
pub struct Incarnation(pub u64);

#[derive(Debug, Clone, Copy, PartialEq, Eq, Structural)]
pub enum MemberStatus {
    Alive,
    Suspect,
    Dead,
}

impl MemberStatus {
    /// The rank among facts of the same incarnation.
    pub open spec fn rank(self) -> u8 {
        match self {
            MemberStatus::Alive => 0,
            MemberStatus::Suspect => 1,
            MemberStatus::Dead => 2,
        }
    }

    fn severity(self) -> (rank: u8)
        ensures
            rank == self.rank(),
    {
        match self {
            MemberStatus::Alive => 0,
            MemberStatus::Suspect => 1,
            MemberStatus::Dead => 2,
        }
    }
}

/// A fact about a member.
#[derive(Debug, PartialEq, Eq)]
pub struct MemberUpdate {
    pub node_id: NodeId,
    pub incarnation: Incarnation,
    pub status: MemberStatus,
    pub client_address: String,
    pub gossip_address: String,
    pub thread_count: u32,
}

impl Clone for MemberUpdate {
    fn clone(&self) -> (copy: Self)
        ensures
            copy == *self,
    {
        MemberUpdate {
            node_id: self.node_id,
            incarnation: self.incarnation,
            status: self.status,
            client_address: self.client_address.clone(),
            gossip_address: self.gossip_address.clone(),
            thread_count: self.thread_count,
        }
    }
}

impl MemberUpdate {
    /// The fact with another status.
    pub open spec fn with_status(self, status: MemberStatus) -> MemberUpdate {
        MemberUpdate { status, ..self }
    }

    /// The fact by which a member says that it is alive after all.
    pub open spec fn refuted(self) -> MemberUpdate {
        MemberUpdate {
            incarnation: Incarnation((self.incarnation.0 + 1) as u64),
            status: MemberStatus::Alive,
            ..self
        }
    }

    /// Whether this fact supersedes `current`.
    pub open spec fn supersedes(self, current: MemberUpdate) -> bool {
        self.incarnation.0 > current.incarnation.0 || (self.incarnation == current.incarnation
            && self.status.rank() > current.status.rank())
    }
}

/// Whether a table takes over a fact.
pub open spec fn accepts(m: Map<u64, MemberUpdate>, update: MemberUpdate) -> bool {
    m.contains_key(update.node_id.0) ==> update.supersedes(m[update.node_id.0])
}

/// A table after hearing of a fact.
pub open spec fn merged(m: Map<u64, MemberUpdate>, update: MemberUpdate) -> Map<
    u64,
    MemberUpdate,
> {
    if accepts(m, update) {
        m.insert(update.node_id.0, update)
    } else {
        m
    }
}

/// The most recent fact about each member.
pub struct MemberTable {
    members: BTreeMap<u64, MemberUpdate>,
}

impl View for MemberTable {
    /// The facts by node id.
    type V = Map<u64, MemberUpdate>;

    closed spec fn view(&self) -> Map<u64, MemberUpdate> {
        self.members@
    }
}

/// Whether every fact stands under the id of its node.
pub open spec fn keyed_by_node(m: Map<u64, MemberUpdate>) -> bool {
    forall|k: u64| #[trigger] m.contains_key(k) ==> m[k].node_id.0 == k
}

impl MemberTable {
    /// Every fact stands under the id of its node.
    pub open spec fn wf(self) -> bool {
        keyed_by_node(self@)
    }

    pub fn new() -> (table: Self)
        ensures
            table@ == Map::<u64, MemberUpdate>::empty(),
            table.wf(),
    {
        Self { members: BTreeMap::new() }
    }

    /// Takes over a fact, unless what is known supersedes it or says the same.
    /// Returns whether it did.
    pub fn merge_update(&mut self, update: MemberUpdate) -> (accepted: bool)
        requires
            old(self).wf(),
        ensures
            accepted == accepts(old(self)@, update),
            final(self)@ == merged(old(self)@, update),
            final(self).wf(),
    {
        let accept = match self.members.get(&update.node_id.0) {
            None => true,
            Some(current) => update.incarnation.0 > current.incarnation.0 || (update.incarnation
                == current.incarnation && update.status.severity() > current.status.severity()),
        };
        if accept {
            self.members.insert(update.node_id.0, update);
        }
        accept
    }

    /// What is known of a member.
    pub fn get(&self, node_id: NodeId) -> (found: Option<MemberUpdate>)
        requires
            self.wf(),
        ensures
            found == if self@.contains_key(node_id.0) {
                Some(self@[node_id.0])
            } else {
                None
            },
    {
        match self.members.get(&node_id.0) {
            None => None,
            Some(update) => Some(update.clone()),
        }
    }

    /// Suspects a member that is believed alive. Returns the new fact, or
    /// nothing where nothing changed.
    pub fn mark_suspect(&mut self, node_id: NodeId) -> (changed: Option<MemberUpdate>)
        requires
            old(self).wf(),
        ensures
            final(self).wf(),
            if old(self)@.contains_key(node_id.0) && old(self)@[node_id.0].status
                == MemberStatus::Alive {
                let fact = old(self)@[node_id.0].with_status(MemberStatus::Suspect);
                changed == Some(fact) && final(self)@ == old(self)@.insert(node_id.0, fact)
            } else {
                changed is None && final(self)@ == old(self)@
            },
    {
        let mut fact = match self.members.get(&node_id.0) {
            None => {
                return None;
            },
            Some(current) => {
                if current.status != MemberStatus::Alive {
                    return None;
                }
                current.clone()
            },
        };
        fact.status = MemberStatus::Suspect;
        self.members.insert(node_id.0, fact.clone());
        Some(fact)
    }

    /// Declares a member dead that is not. Returns the new fact, or nothing
    /// where nothing changed.
    pub fn mark_dead(&mut self, node_id: NodeId) -> (changed: Option<MemberUpdate>)
        requires
            old(self).wf(),
        ensures
            final(self).wf(),
            if old(self)@.contains_key(node_id.0) && old(self)@[node_id.0].status
                != MemberStatus::Dead {
                let fact = old(self)@[node_id.0].with_status(MemberStatus::Dead);
                changed == Some(fact) && final(self)@ == old(self)@.insert(node_id.0, fact)
            } else {
                changed is None && final(self)@ == old(self)@
            },
    {
        let mut fact = match self.members.get(&node_id.0) {
            None => {
                return None;
            },
            Some(current) => {
                if current.status == MemberStatus::Dead {
                    return None;
                }
                current.clone()
            },
        };
        fact.status = MemberStatus::Dead;
        self.members.insert(node_id.0, fact.clone());
        Some(fact)
    }

    /// Raises this node's own incarnation and says that it is alive. The node
    /// must be in the table.
    pub fn confirm_alive_self(&mut self, self_id: NodeId) -> (fact: MemberUpdate)
        requires
            old(self).wf(),
            old(self)@.contains_key(self_id.0),
            old(self)@[self_id.0].incarnation.0 < u64::MAX,
        ensures
            final(self).wf(),
            fact == old(self)@[self_id.0].refuted(),
            final(self)@ == old(self)@.insert(self_id.0, fact),
    {
        let mut fact = self.members.get(&self_id.0).unwrap().clone();
        fact.incarnation = Incarnation(fact.incarnation.0 + 1);
        fact.status = MemberStatus::Alive;
        self.members.insert(self_id.0, fact.clone());
        fact
    }

    /// What is known of every member, in ascending order of node ids.
    pub fn all(&self) -> (facts: Vec<MemberUpdate>)
        requires
            self.wf(),
        ensures
            forall|i: int, j: int|
                0 <= i < j < facts@.len() ==> (#[trigger] facts@[i]).node_id.0 < (
                #[trigger] facts@[j]).node_id.0,
            forall|i: int|
                0 <= i < facts@.len() ==> self@.contains_key((#[trigger] facts@[i]).node_id.0)
                    && self@[facts@[i].node_id.0] == facts@[i],
            forall|k: u64| #[trigger] self@.contains_key(k) ==> facts@.contains(self@[k]),
    {
        let keys = sorted_keys(&self.members);
        let mut facts: Vec<MemberUpdate> = Vec::new();
        let mut i: usize = 0;
        while i < keys.len()
            invariant
                i <= keys.len(),
                self.wf(),
                ascending(keys@),
                forall|k: u64| keys@.contains(k) <==> self@.contains_key(k),
                facts@.len() == i,
                forall|j: int| 0 <= j < i ==> facts@[j] == self@[#[trigger] keys@[j]],
            decreases keys.len() - i,
        {
            assert(keys@.contains(keys@[i as int]));
            let key: u64 = keys[i];
            let fact = self.members.get(&key).unwrap().clone();
            facts.push(fact);
            i = i + 1;
        }
        assert forall|j: int| 0 <= j < facts@.len() implies self@.contains_key(keys@[j])
            && #[trigger] facts@[j] == self@[keys@[j]] by {
            assert(keys@.contains(keys@[j]));
        }
        assert forall|k: u64| #[trigger] self@.contains_key(k) implies facts@.contains(self@[k]) by {
            assert(keys@.contains(k));
            let j = choose|j: int| 0 <= j < keys@.len() && keys@[j] == k;
            assert(facts@[j] == self@[k]);
        }
        facts
    }

    /// The members believed alive, in ascending order.
    pub fn alive_members(&self) -> (alive: Vec<NodeId>)
        requires
            self.wf(),
        ensures
            alive_nodes(self@, alive@),
    {
        let keys = sorted_keys(&self.members);
        let mut alive: Vec<NodeId> = Vec::new();
        let mut i: usize = 0;
        while i < keys.len()
            invariant
                i <= keys.len(),
                self.wf(),
                ascending(keys@),
                forall|k: u64| keys@.contains(k) <==> self@.contains_key(k),
                forall|a: int, b: int|
                    0 <= a < b < alive@.len() ==> (#[trigger] alive@[a]).0 < (
                    #[trigger] alive@[b]).0,
                forall|a: int|
                    0 <= a < alive@.len() ==> exists|j: int|
                        0 <= j < i && keys@[j] == (#[trigger] alive@[a]).0,
                forall|n: NodeId|
                    alive@.contains(n) ==> #[trigger] is_alive(self@, n),
                forall|j: int|
                    0 <= j < i && #[trigger] is_alive(self@, NodeId(keys@[j])) ==> alive@.contains(
                        NodeId(keys@[j]),
                    ),
            decreases keys.len() - i,
        {
            let k: u64 = keys[i];
            assert(keys@.contains(keys@[i as int]));
            let ghost before = alive@;
            if self.members.get(&k).unwrap().status == MemberStatus::Alive {
                alive.push(NodeId(k));
                assert(alive@[before.len() as int] == NodeId(k));
                assert forall|n: NodeId| before.contains(n) implies alive@.contains(n) by {
                    let a = choose|a: int| 0 <= a < before.len() && before[a] == n;
                    assert(alive@[a] == n);
                }
                assert forall|n: NodeId| alive@.contains(n) implies #[trigger] is_alive(
                    self@,
                    n,
                ) by {
                    let a = choose|a: int| 0 <= a < alive@.len() && alive@[a] == n;
                    if a < before.len() {
                        assert(before[a] == n);
                        assert(before.contains(n));
                    }
                }
            }
            i = i + 1;
        }
        assert forall|n: NodeId| alive@.contains(n) <==> #[trigger] is_alive(self@, n) by {
            if is_alive(self@, n) {
                assert(keys@.contains(n.0));
                let j = choose|j: int| 0 <= j < keys@.len() && keys@[j] == n.0;
                assert(is_alive(self@, NodeId(keys@[j])));
            }
        }
        alive
    }
}

impl Default for MemberTable {
    fn default() -> (table: Self)
        ensures
            table@ == Map::<u64, MemberUpdate>::empty(),
            table.wf(),
    {
        Self::new()
    }
}

/// Whether a member is believed alive.
pub open spec fn is_alive(m: Map<u64, MemberUpdate>, n: NodeId) -> bool {
    m.contains_key(n.0) && m[n.0].status == MemberStatus::Alive
}

/// Whether `alive` lists the members believed alive, in ascending order.
pub open spec fn alive_nodes(m: Map<u64, MemberUpdate>, alive: Seq<NodeId>) -> bool {
    &&& forall|i: int, j: int|
        0 <= i < j < alive.len() ==> (#[trigger] alive[i]).0 < (#[trigger] alive[j]).0
    &&& forall|n: NodeId| alive.contains(n) <==> #[trigger] is_alive(m, n)
}

// ---- laws ----

/// A fact is taken over at most once: hearing it again changes nothing.
pub proof fn law_merge_idempotent(m: Map<u64, MemberUpdate>, u: MemberUpdate)
    ensures
        merged(merged(m, u), u) == merged(m, u),
{
}

/// Facts may arrive in any order, where no two of the same member, incarnation
/// and status differ in anything else.
pub proof fn law_merge_order(m: Map<u64, MemberUpdate>, u: MemberUpdate, v: MemberUpdate)
    requires
        u.node_id == v.node_id && u.incarnation == v.incarnation && u.status == v.status ==> u
            == v,
    ensures
        merged(merged(m, u), v) == merged(merged(m, v), u),
{
    if u.node_id != v.node_id {
        assert(merged(merged(m, u), v) =~= merged(merged(m, v), u));
    } else {
        let k = u.node_id.0;
        assert(u.status.rank() == v.status.rank() ==> u.status == v.status);
        assert(m.insert(k, u).insert(k, v) =~= m.insert(k, v));
        assert(m.insert(k, v).insert(k, u) =~= m.insert(k, u));
    }
}

/// What is known of a member never goes back: its incarnation does not fall,
/// and at the same incarnation its status does not get less severe.
pub proof fn law_merge_monotonic(m: Map<u64, MemberUpdate>, u: MemberUpdate, k: u64)
    requires
        m.contains_key(k),
        keyed_by_node(m),
    ensures
        merged(m, u).contains_key(k),
        merged(m, u)[k] == m[k] || merged(m, u)[k].supersedes(m[k]),
{
}

/// A member's refutation supersedes whatever was said of it.
pub proof fn law_refutation_supersedes(m: Map<u64, MemberUpdate>, k: u64)
    requires
        m.contains_key(k),
        keyed_by_node(m),
        m[k].incarnation.0 < u64::MAX,
    ensures
        accepts(m, m[k].refuted()),
        merged(m, m[k].refuted())[k].status == MemberStatus::Alive,
{
}

} // verus!
