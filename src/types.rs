//! The records that the storage layer keeps: log ids, votes, cluster
//! membership and log entries, each with a mathematical view.

use vstd::prelude::*;
use crate::rocks_client::{RocksRequest, RequestView, copy_string};

verus! {

/// The leader that proposed a log entry: its term and its node id.
#[derive(Clone, Copy, Debug, PartialEq, Eq, Structural)]
pub struct LeaderId {
    pub term: u64,
    pub node_id: u64,
}

/// The identity of a log entry: the leader that proposed it and its index.
#[derive(Clone, Copy, Debug, PartialEq, Eq, Structural)]
pub struct LogId {
    pub leader_id: LeaderId,
    pub index: u64,
}

impl LogId {
    pub fn new(term: u64, node_id: u64, index: u64) -> (r: LogId)
        ensures
            r.leader_id.term == term,
            r.leader_id.node_id == node_id,
            r.index == index,
    {
        LogId { leader_id: LeaderId { term, node_id }, index }
    }
}

/// The vote a node has cast: the term, the node voted for, and whether a
/// quorum has granted that vote.
#[derive(Clone, Copy, Debug, PartialEq, Eq, Structural)]
pub struct Vote {
    pub term: u64,
    pub node_id: u64,
    pub committed: bool,
}

/// A member of the cluster and the address it is reached at.
#[derive(Clone, Debug)]
pub struct Node {
    pub id: u64,
    pub addr: String,
}

/// Cluster membership: the voter configurations (two of them during a joint
/// change) and the descriptor of every node.
#[derive(Clone, Debug)]
pub struct Membership {
    pub configs: Vec<Vec<u64>>,
    pub nodes: Vec<Node>,
}

/// A membership together with the id of the log entry that made it effective.
#[derive(Clone, Debug)]
pub struct StoredMembership {
    pub log_id: Option<LogId>,
    pub membership: Membership,
}

/// What a log entry carries.
#[derive(Clone, Debug)]
pub enum EntryPayload {
    Blank,
    Normal(RocksRequest),
    Membership(Membership),
}

/// A log entry.
#[derive(Clone, Debug)]
pub struct Entry {
    pub log_id: LogId,
    pub payload: EntryPayload,
}

pub struct MembershipView {
    pub configs: Seq<Seq<u64>>,
    pub nodes: Seq<(u64, Seq<char>)>,
}

pub struct StoredMembershipView {
    pub log_id: Option<LogId>,
    pub membership: MembershipView,
}

pub enum PayloadView {
    Blank,
    Normal(RequestView),
    Membership(MembershipView),
}

pub struct EntryView {
    pub log_id: LogId,
    pub payload: PayloadView,
}

pub open spec fn configs_view(s: Seq<Vec<u64>>) -> Seq<Seq<u64>> {
    s.map_values(|c: Vec<u64>| c@)
}

pub open spec fn nodes_view(s: Seq<Node>) -> Seq<(u64, Seq<char>)> {
    s.map_values(|n: Node| n@)
}

impl View for Node {
    type V = (u64, Seq<char>);

    open spec fn view(&self) -> (u64, Seq<char>) {
        (self.id, self.addr@)
    }
}

impl View for Membership {
    type V = MembershipView;

    open spec fn view(&self) -> MembershipView {
        MembershipView {
            configs: configs_view(self.configs@),
            nodes: nodes_view(self.nodes@),
        }
    }
}

impl View for StoredMembership {
    type V = StoredMembershipView;

    open spec fn view(&self) -> StoredMembershipView {
        StoredMembershipView { log_id: self.log_id, membership: self.membership@ }
    }
}

impl View for EntryPayload {
    type V = PayloadView;

    open spec fn view(&self) -> PayloadView {
        match self {
            EntryPayload::Blank => PayloadView::Blank,
            EntryPayload::Normal(r) => PayloadView::Normal(r@),
            EntryPayload::Membership(m) => PayloadView::Membership(m@),
        }
    }
}

impl View for Entry {
    type V = EntryView;

    open spec fn view(&self) -> EntryView {
        EntryView { log_id: self.log_id, payload: self.payload@ }
    }
}

/// A copy of a list of node ids.
pub fn copy_ids(v: &Vec<u64>) -> (r: Vec<u64>)
    ensures
        r@ == v@,
{
    let mut r: Vec<u64> = Vec::with_capacity(v.len());
    let mut i: usize = 0;
    while i < v.len()
        invariant
            i <= v@.len(),
            r@ == v@.subrange(0, i as int),
        decreases v@.len() - i,
    {
        r.push(v[i]);
        i = i + 1;
        assert(r@ =~= v@.subrange(0, i as int));
    }
    assert(r@ =~= v@);
    r
}

impl Node {
    pub fn copy(&self) -> (r: Node)
        ensures
            r@ == self@,
    {
        Node { id: self.id, addr: copy_string(&self.addr) }
    }
}

impl Membership {
    /// The membership of a cluster that has not been configured yet.
    pub fn empty() -> (r: Membership)
        ensures
            r@.configs.len() == 0,
            r@.nodes.len() == 0,
    {
        let r = Membership { configs: Vec::new(), nodes: Vec::new() };
        assert(r@.configs =~= Seq::<Seq<u64>>::empty());
        assert(r@.nodes =~= Seq::<(u64, Seq<char>)>::empty());
        r
    }

    pub fn copy(&self) -> (r: Membership)
        ensures
            r@ == self@,
    {
        let mut configs: Vec<Vec<u64>> = Vec::with_capacity(self.configs.len());
        let mut i: usize = 0;
        while i < self.configs.len()
            invariant
                i <= self.configs@.len(),
                configs@.len() == i,
                forall|k: int| 0 <= k < i ==> #[trigger] configs@[k]@ == self.configs@[k]@,
            decreases self.configs@.len() - i,
        {
            configs.push(copy_ids(&self.configs[i]));
            i = i + 1;
        }
        let mut nodes: Vec<Node> = Vec::with_capacity(self.nodes.len());
        let mut j: usize = 0;
        while j < self.nodes.len()
            invariant
                j <= self.nodes@.len(),
                nodes@.len() == j,
                forall|k: int| 0 <= k < j ==> #[trigger] nodes@[k]@ == self.nodes@[k]@,
            decreases self.nodes@.len() - j,
        {
            nodes.push(self.nodes[j].copy());
            j = j + 1;
        }
        let r = Membership { configs, nodes };
        assert(r@.configs =~= self@.configs);
        assert(r@.nodes =~= self@.nodes);
        r
    }
}

impl StoredMembership {
    /// No membership applied yet.
    pub fn initial() -> (r: StoredMembership)
        ensures
            r@.log_id.is_none(),
            r@.membership.configs.len() == 0,
            r@.membership.nodes.len() == 0,
    {
        StoredMembership { log_id: None, membership: Membership::empty() }
    }

    pub fn copy(&self) -> (r: StoredMembership)
        ensures
            r@ == self@,
    {
        StoredMembership { log_id: self.log_id, membership: self.membership.copy() }
    }
}

impl EntryPayload {
    pub fn copy(&self) -> (r: EntryPayload)
        ensures
            r@ == self@,
    {
        match self {
            EntryPayload::Blank => EntryPayload::Blank,
            EntryPayload::Normal(req) => EntryPayload::Normal(req.copy()),
            EntryPayload::Membership(m) => EntryPayload::Membership(m.copy()),
        }
    }
}

impl Entry {
    pub fn copy(&self) -> (r: Entry)
        ensures
            r@ == self@,
    {
        Entry { log_id: self.log_id, payload: self.payload.copy() }
    }
}

} // verus!
