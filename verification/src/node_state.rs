//! The role a node plays, with the bookkeeping that goes with it: the votes
//! a candidate has collected, and a leader's per-peer log positions.
//!
//! A leader's per-peer positions are kept in a table of `(peer, index)`
//! pairs in which no peer occurs twice; a candidate's votes are kept as a
//! sequence of distinct peers.

use crate::node_id::NodeId;
use vstd::prelude::*;

verus! {

/// The role of a node.
#[derive(Clone, Debug)]
pub enum NodeState {
    Follower { current_leader: Option<NodeId>, voted_for: Option<NodeId> },
    Candidate {
        /// the peers that granted their vote, each once
        votes_received: Vec<NodeId>,
    },
    Leader {
        /// next log index to send to each follower
        next_log_index: Vec<(NodeId, usize)>,
        /// highest log index confirmed replicated on each follower
        confirmed_log_index: Vec<(NodeId, usize)>,
    },
}

/// The mathematical model of a role.
pub enum StateView {
    Follower { current_leader: Option<NodeId>, voted_for: Option<NodeId> },
    Candidate { votes_received: Seq<NodeId> },
    Leader { next_log_index: Seq<(NodeId, usize)>, confirmed_log_index: Seq<(NodeId, usize)> },
}

impl View for NodeState {
    type V = StateView;

    open spec fn view(&self) -> StateView {
        match self {
            NodeState::Follower { current_leader, voted_for } => StateView::Follower {
                current_leader: *current_leader,
                voted_for: *voted_for,
            },
            NodeState::Candidate { votes_received } => StateView::Candidate {
                votes_received: votes_received@,
            },
            NodeState::Leader { next_log_index, confirmed_log_index } => StateView::Leader {
                next_log_index: next_log_index@,
                confirmed_log_index: confirmed_log_index@,
            },
        }
    }
}

/// No peer occurs twice in the table.
pub open spec fn keys_unique(t: Seq<(NodeId, usize)>) -> bool {
    forall|i: int, j: int| 0 <= i < j < t.len() ==> t[i].0 != t[j].0
}

/// The table has an entry for `k`.
pub open spec fn table_has(t: Seq<(NodeId, usize)>, k: NodeId) -> bool {
    exists|i: int| 0 <= i < t.len() && t[i].0 == k
}

/// The position of the entry for `k`, where there is one.
pub open spec fn table_pos(t: Seq<(NodeId, usize)>, k: NodeId) -> int {
    choose|i: int| 0 <= i < t.len() && t[i].0 == k
}

/// The index the table holds for `k`.
pub open spec fn table_get(t: Seq<(NodeId, usize)>, k: NodeId) -> Option<usize> {
    if table_has(t, k) {
        Some(t[table_pos(t, k)].1)
    } else {
        None
    }
}

/// The table after recording `v` for `k`: the entry for `k` is replaced in
/// place, or a new entry is added at the end.
pub open spec fn table_insert(t: Seq<(NodeId, usize)>, k: NodeId, v: usize) -> Seq<(NodeId, usize)> {
    if table_has(t, k) {
        t.update(table_pos(t, k), (k, v))
    } else {
        t.push((k, v))
    }
}

/// The indices a table holds, in table order.
pub open spec fn table_values(t: Seq<(NodeId, usize)>) -> Seq<usize> {
    t.map_values(|p: (NodeId, usize)| p.1)
}

/// The table that records `v` for each of `peers`, in order.
pub open spec fn initial_table(peers: Seq<NodeId>, v: usize) -> Seq<(NodeId, usize)>
    decreases peers.len(),
{
    if peers.len() == 0 {
        Seq::empty()
    } else {
        table_insert(initial_table(peers.drop_last(), v), peers.last(), v)
    }
}

/// The votes after `k`'s vote is counted: a peer is counted once.
pub open spec fn vote_add(votes: Seq<NodeId>, k: NodeId) -> Seq<NodeId> {
    if votes.contains(k) {
        votes
    } else {
        votes.push(k)
    }
}

/// The bookkeeping of a role is consistent: votes are distinct, and no peer
/// has two entries in a leader's tables.
pub open spec fn state_wf(s: StateView) -> bool {
    match s {
        StateView::Follower { .. } => true,
        StateView::Candidate { votes_received } => votes_received.no_duplicates(),
        StateView::Leader { next_log_index, confirmed_log_index } => keys_unique(next_log_index)
            && keys_unique(confirmed_log_index),
    }
}

/// Inserting into a table keeps its keys unique and makes `k` present.
pub proof fn lemma_table_insert(t: Seq<(NodeId, usize)>, k: NodeId, v: usize)
    requires
        keys_unique(t),
    ensures
        keys_unique(table_insert(t, k, v)),
        table_has(table_insert(t, k, v), k),
        table_get(table_insert(t, k, v), k) == Some(v),
        forall|j: NodeId| j != k ==> table_get(#[trigger] table_insert(t, k, v), j) == table_get(t, j),
{
    let r = table_insert(t, k, v);
    if table_has(t, k) {
        let p = table_pos(t, k);
        assert(r[p].0 == k);
        assert forall|j: NodeId| j != k implies table_get(r, j) == table_get(t, j) by {
            if table_has(t, j) {
                let q = table_pos(t, j);
                assert(r[q] == t[q]);
                assert(table_has(r, j));
                let q2 = table_pos(r, j);
                assert(q2 == q);
            } else {
                if table_has(r, j) {
                    let q2 = table_pos(r, j);
                    assert(t[q2].0 == j);
                }
            }
        }
    } else {
        assert(r[t.len() as int].0 == k);
        assert forall|j: NodeId| j != k implies table_get(r, j) == table_get(t, j) by {
            if table_has(t, j) {
                let q = table_pos(t, j);
                assert(r[q] == t[q]);
                assert(table_has(r, j));
                let q2 = table_pos(r, j);
                assert(q2 == q);
            } else {
                if table_has(r, j) {
                    let q2 = table_pos(r, j);
                    assert(t[q2].0 == j);
                }
            }
        }
    }
}

/// Where the entry for `k` stands in the table, if anywhere.
pub(crate) fn table_find(t: &Vec<(NodeId, usize)>, k: NodeId) -> (r: Option<usize>)
    requires
        keys_unique(t@),
    ensures
        match r {
            Some(i) => table_has(t@, k) && i == table_pos(t@, k) && i < t@.len(),
            None => !table_has(t@, k),
        },
{
    let mut i: usize = 0;
    while i < t.len()
        invariant
            i <= t@.len(),
            keys_unique(t@),
            forall|j: int| 0 <= j < i ==> t@[j].0 != k,
        decreases t@.len() - i,
    {
        if t[i].0 == k {
            assert(table_has(t@, k));
            let ghost p = table_pos(t@, k);
            assert(t@[p].0 == k);
            assert(p == i as int);
            return Some(i);
        }
        i = i + 1;
    }
    None
}

/// Records `v` for `k`: replaces the entry for `k`, or adds one at the end.
pub(crate) fn table_insert_exec(t: &mut Vec<(NodeId, usize)>, k: NodeId, v: usize)
    requires
        keys_unique(old(t)@),
    ensures
        final(t)@ == table_insert(old(t)@, k, v),
        keys_unique(final(t)@),
{
    proof {
        lemma_table_insert(t@, k, v);
    }
    match table_find(t, k) {
        Some(i) => {
            t.set(i, (k, v));
        },
        None => {
            t.push((k, v));
        },
    }
}

/// Counts `k`'s vote, once.
pub(crate) fn vote_add_exec(votes: &mut Vec<NodeId>, k: NodeId)
    requires
        old(votes)@.no_duplicates(),
    ensures
        final(votes)@ == vote_add(old(votes)@, k),
        final(votes)@.no_duplicates(),
{
    let mut i: usize = 0;
    while i < votes.len()
        invariant
            i <= votes@.len(),
            votes@ == old(votes)@,
            votes@.no_duplicates(),
            forall|j: int| 0 <= j < i ==> votes@[j] != k,
        decreases votes@.len() - i,
    {
        if votes[i] == k {
            assert(votes@.contains(k));
            return;
        }
        i = i + 1;
    }
    assert(!votes@.contains(k));
    votes.push(k);
}

/// The table that records `v` for each of `peers`.
pub(crate) fn initial_table_exec(peers: &Vec<NodeId>, v: usize) -> (t: Vec<(NodeId, usize)>)
    ensures
        t@ == initial_table(peers@, v),
        keys_unique(t@),
{
    let mut t: Vec<(NodeId, usize)> = Vec::new();
    let mut i: usize = 0;
    while i < peers.len()
        invariant
            i <= peers@.len(),
            t@ == initial_table(peers@.take(i as int), v),
            keys_unique(t@),
        decreases peers@.len() - i,
    {
        assert(peers@.take(i as int + 1).drop_last() == peers@.take(i as int));
        table_insert_exec(&mut t, peers[i], v);
        i = i + 1;
    }
    assert(peers@.take(peers@.len() as int) == peers@);
    t
}

} // verus!
