//! The mathematical model of a node and of how it reacts to each message.
//!
//! Each handler of the protocol is described by a spec function from the
//! parts of the node it reads to the parts it writes and the messages it
//! sends; `step` puts them together by the node's role and the kind of
//! message, and is what `Node::handle_message` is proved against.

use crate::log_entry::{Command, LogEntry};
use crate::node_id::NodeId;
use crate::node_state::{
    initial_table, state_wf, table_get, table_has, table_insert, table_values, vote_add, StateView,
};
use crate::quorum::quorum_index;
use crate::raft_message::MessageView;
use vstd::prelude::*;

verus! {

/// The model of a node.
pub struct NodeView {
    pub node_id: NodeId,
    pub current_term: u64,
    pub log: Seq<LogEntry>,
    pub peers: Seq<NodeId>,
    pub state: StateView,
    pub commit_index: usize,
    pub last_applied: u64,
}

/// Addressed messages, as a node sends them.
pub type Outbound = Seq<(NodeId, MessageView)>;

/// The node's bookkeeping is consistent.
pub open spec fn node_wf(n: NodeView) -> bool {
    state_wf(n.state)
}

/// The position of the last entry, as `len - 1` with the length taken as
/// a machine integer; only meaningful for a non-empty log.
pub open spec fn last_position(log: Seq<LogEntry>) -> usize {
    (log.len() - 1) as usize
}

/// The position of the last entry, or 0 for an empty log.
pub open spec fn last_position_or_zero(log: Seq<LogEntry>) -> usize {
    if log.len() == 0 {
        0
    } else {
        (log.len() - 1) as usize
    }
}

/// The index and term that the last entry records, or `(0, 0)` for an
/// empty log.
pub open spec fn last_entry_index_term(log: Seq<LogEntry>) -> (usize, u64) {
    if log.len() == 0 {
        (0, 0)
    } else {
        (log.last().index, log.last().term)
    }
}

/// The candidate's log, as its last index and term describe it, is ahead of
/// `log`: `log` is empty, or its last entry has an older term or a smaller
/// index.
pub open spec fn is_log_behind(log: Seq<LogEntry>, last_log_index: usize, last_log_term: u64) -> bool {
    log.len() == 0 || log.last().term < last_log_term || log.last().index < last_log_index
}

// ---------------------------------------------------------------------------
// Voting
// ---------------------------------------------------------------------------

/// A follower grants its vote when the candidate's term is not behind its
/// own, it has not voted yet, and the candidate's log is ahead of its own.
pub open spec fn grants_vote(
    current_term: u64,
    voted_for: Option<NodeId>,
    log: Seq<LogEntry>,
    candidate_term: u64,
    last_log_index: usize,
    last_log_term: u64,
) -> bool {
    current_term <= candidate_term && voted_for is None && is_log_behind(
        log,
        last_log_index,
        last_log_term,
    )
}

/// A follower's answer to a vote request: its new term, its vote, and the
/// reply to the candidate.
pub open spec fn request_vote_outcome(
    current_term: u64,
    log: Seq<LogEntry>,
    voted_for: Option<NodeId>,
    candidate_term: u64,
    candidate_id: NodeId,
    last_log_index: usize,
    last_log_term: u64,
) -> (u64, Option<NodeId>, Outbound) {
    if grants_vote(current_term, voted_for, log, candidate_term, last_log_index, last_log_term) {
        (
            candidate_term,
            Some(candidate_id),
            seq![(candidate_id, MessageView::RequestVoteResponse { term: candidate_term, success: true })],
        )
    } else {
        (
            current_term,
            voted_for,
            seq![(candidate_id, MessageView::RequestVoteResponse { term: current_term, success: false })],
        )
    }
}

/// The votes a candidate needs, its own included: more than half of the
/// cluster of `peer_count + 1` nodes, computed as `1 + (peer_count + 1) / 2`.
pub open spec fn votes_needed(peer_count: nat) -> nat {
    1 + (peer_count + 1) / 2
}

/// A candidate's handling of a vote reply: its new term and role.  A reply
/// from a later term makes it a follower of that term; a granted vote is
/// counted once per peer, and with enough votes the candidate becomes leader,
/// starting every peer at the end of its log with nothing confirmed.
pub open spec fn vote_response_outcome(
    current_term: u64,
    peers: Seq<NodeId>,
    log: Seq<LogEntry>,
    from: NodeId,
    votes_received: Seq<NodeId>,
    sender_term: u64,
    success: bool,
) -> (u64, StateView, Outbound) {
    if current_term < sender_term {
        (sender_term, StateView::Follower { current_leader: None, voted_for: None }, Seq::empty())
    } else if success {
        let votes = vote_add(votes_received, from);
        if votes.len() + 1 >= votes_needed(peers.len()) {
            (
                current_term,
                StateView::Leader {
                    next_log_index: initial_table(peers, log.len() as usize),
                    confirmed_log_index: initial_table(peers, 0),
                },
                Seq::empty(),
            )
        } else {
            (current_term, StateView::Candidate { votes_received: votes }, Seq::empty())
        }
    } else {
        (current_term, StateView::Candidate { votes_received }, Seq::empty())
    }
}

// ---------------------------------------------------------------------------
// Replication on the follower's side
// ---------------------------------------------------------------------------

/// The follower's log holds, just before the new entries, an entry of the
/// term the leader expects (`prev_log_index` counts from 1; 0 means that the
/// new entries start the log).
pub open spec fn log_consistent(log: Seq<LogEntry>, prev_log_index: usize, prev_log_term: u64) -> bool {
    prev_log_index == 0 || (prev_log_index - 1 < log.len() && log[prev_log_index - 1].term
        == prev_log_term)
}

/// One new entry merged into the log: an entry at its index with another
/// term is dropped with everything after it and the new entry appended; an
/// entry at its index with the same term is kept; an index past the end
/// appends the new entry.
pub open spec fn merge_entry(log: Seq<LogEntry>, e: LogEntry) -> Seq<LogEntry> {
    if e.index < log.len() {
        if log[e.index as int].term != e.term {
            log.take(e.index as int).push(e)
        } else {
            log
        }
    } else {
        log.push(e)
    }
}

/// The new entries merged into the log one after the other.
pub open spec fn merge_entries(log: Seq<LogEntry>, entries: Seq<LogEntry>) -> Seq<LogEntry>
    decreases entries.len(),
{
    if entries.len() == 0 {
        log
    } else {
        merge_entry(merge_entries(log, entries.drop_last()), entries.last())
    }
}

/// The follower's commit index after a successful append: when the leader
/// has committed further, the smaller of the leader's commit index and the
/// position of the follower's last entry.
pub open spec fn follower_commit_index(commit_index: usize, leader_commit: usize, log: Seq<LogEntry>) -> usize {
    if leader_commit > commit_index {
        if leader_commit <= last_position_or_zero(log) {
            leader_commit
        } else {
            last_position_or_zero(log)
        }
    } else {
        commit_index
    }
}

/// The inputs on which appending panics: the reply reports `len - 1` of an
/// empty log.
pub open spec fn append_entries_panics(
    current_term: u64,
    log: Seq<LogEntry>,
    source_term: u64,
    prev_log_index: usize,
    entries: Seq<LogEntry>,
) -> bool {
    log.len() == 0 && (source_term < current_term || prev_log_index > 0 || entries.len() == 0)
}

/// A follower's handling of an append request: its new term, log, commit
/// index and leader, and the reply to the sender.  A request from an older
/// term is refused and changes nothing; otherwise the follower adopts the
/// term and the leader, refuses when its log does not hold the expected
/// previous entry, and else merges the entries and advances its commit index.
pub open spec fn append_entries_outcome(
    current_term: u64,
    log: Seq<LogEntry>,
    commit_index: usize,
    current_leader: Option<NodeId>,
    from: NodeId,
    source_term: u64,
    leader_id: NodeId,
    prev_log_index: usize,
    prev_log_term: u64,
    leader_commit: usize,
    entries: Seq<LogEntry>,
) -> (u64, Seq<LogEntry>, usize, Option<NodeId>, Outbound) {
    if source_term < current_term {
        (
            current_term,
            log,
            commit_index,
            current_leader,
            seq![(from, MessageView::AppendEntriesResponse { term: current_term, success: false, last_log_index: last_position(log) })],
        )
    } else if !log_consistent(log, prev_log_index, prev_log_term) {
        (
            source_term,
            log,
            commit_index,
            Some(leader_id),
            seq![(from, MessageView::AppendEntriesResponse { term: source_term, success: false, last_log_index: last_position(log) })],
        )
    } else {
        let merged = merge_entries(log, entries);
        (
            source_term,
            merged,
            follower_commit_index(commit_index, leader_commit, merged),
            Some(leader_id),
            seq![(from, MessageView::AppendEntriesResponse { term: source_term, success: true, last_log_index: last_position(merged) })],
        )
    }
}

// ---------------------------------------------------------------------------
// Replication on the leader's side
// ---------------------------------------------------------------------------

/// How many nodes, the leader included, must hold an entry before the leader
/// commits it: `(peer_count + 2) / 2`.
pub open spec fn replication_quorum(peer_count: nat) -> nat {
    (peer_count + 2) / 2
}

/// The indices the leader commits by: what each peer has confirmed, and the
/// position of the leader's own last entry.
pub open spec fn replicated_indices(confirmed: Seq<(NodeId, usize)>, log: Seq<LogEntry>) -> Seq<usize> {
    table_values(confirmed).push(last_position_or_zero(log))
}

/// The leader's commit index after a peer confirmed entries: the highest
/// index that a quorum has reached, when that is beyond the current commit
/// index and holds an entry of the current term; otherwise unchanged.
pub open spec fn leader_commit_index(
    commit_index: usize,
    current_term: u64,
    log: Seq<LogEntry>,
    confirmed: Seq<(NodeId, usize)>,
    peer_count: nat,
) -> usize {
    let indices = replicated_indices(confirmed, log);
    let k = replication_quorum(peer_count);
    if k <= indices.len() {
        let c = quorum_index(indices, k);
        if c > commit_index && c < log.len() && log[c as int].term == current_term {
            c
        } else {
            commit_index
        }
    } else {
        commit_index
    }
}

/// The inputs on which a leader's handling of an append reply panics: a
/// success that reports the largest index (whose successor overflows), or a
/// refusal from a peer the leader keeps no next index for.
pub open spec fn append_response_panics(
    current_term: u64,
    term: u64,
    success: bool,
    next_log_index: Seq<(NodeId, usize)>,
    last_log_index: usize,
    from: NodeId,
) -> bool {
    term <= current_term && (if success {
        last_log_index == usize::MAX
    } else {
        !table_has(next_log_index, from)
    })
}

/// A leader's handling of an append reply: its new term, commit index and
/// role.  A reply from a later term makes it a follower of that term; a
/// success records the peer's last index as confirmed and the one after it as
/// next, then recomputes the commit index; a refusal moves the peer's next
/// index back by one (not below 0).
pub open spec fn append_response_outcome(
    term: u64,
    current_term: u64,
    success: bool,
    confirmed_log_index: Seq<(NodeId, usize)>,
    next_log_index: Seq<(NodeId, usize)>,
    last_log_index: usize,
    commit_index: usize,
    from: NodeId,
    log: Seq<LogEntry>,
    peers: Seq<NodeId>,
) -> (u64, usize, StateView, Outbound) {
    if term > current_term {
        (term, commit_index, StateView::Follower { current_leader: None, voted_for: None }, Seq::empty())
    } else if success {
        let confirmed = table_insert(confirmed_log_index, from, last_log_index);
        let next = table_insert(next_log_index, from, (last_log_index + 1) as usize);
        (
            current_term,
            leader_commit_index(commit_index, current_term, log, confirmed, peers.len()),
            StateView::Leader { next_log_index: next, confirmed_log_index: confirmed },
            Seq::empty(),
        )
    } else {
        let old_next = table_get(next_log_index, from)->0;
        let next = table_insert(
            next_log_index,
            from,
            if old_next == 0 {
                0
            } else {
                (old_next - 1) as usize
            },
        );
        (
            current_term,
            commit_index,
            StateView::Leader { next_log_index: next, confirmed_log_index },
            Seq::empty(),
        )
    }
}

/// The entry a leader appends for a client's command: it carries the term
/// of the log's last entry (0 for an empty log) and the log's length as its
/// index.
pub open spec fn client_entry(log: Seq<LogEntry>, command: Command) -> LogEntry {
    LogEntry { term: last_entry_index_term(log).1, index: log.len() as usize, command }
}

/// A leader's handling of a client's command: the log with the new entry,
/// and one append request for it to each peer, in the order of the peers.
pub open spec fn client_request_outcome(
    node_id: NodeId,
    peers: Seq<NodeId>,
    current_term: u64,
    log: Seq<LogEntry>,
    command: Command,
    commit_index: usize,
) -> (Seq<LogEntry>, Outbound) {
    let e = client_entry(log, command);
    let (prev_log_index, prev_log_term) = last_entry_index_term(log);
    (
        log.push(e),
        Seq::new(
            peers.len(),
            |i: int|
                (
                    peers[i],
                    MessageView::AppendEntries {
                        leader_id: node_id,
                        prev_log_index,
                        term: current_term,
                        prev_log_term,
                        leader_commit: commit_index,
                        entries: seq![e],
                    },
                ),
        ),
    )
}

// ---------------------------------------------------------------------------
// A whole step
// ---------------------------------------------------------------------------

/// The node reacts to an append request as a follower that knew
/// `current_leader` and had voted for `voted_for`; it stays or becomes a
/// follower.
pub open spec fn append_entries_step(
    n: NodeView,
    current_leader: Option<NodeId>,
    voted_for: Option<NodeId>,
    from: NodeId,
    source_term: u64,
    leader_id: NodeId,
    prev_log_index: usize,
    prev_log_term: u64,
    leader_commit: usize,
    entries: Seq<LogEntry>,
) -> (NodeView, Outbound) {
    let r = append_entries_outcome(
        n.current_term,
        n.log,
        n.commit_index,
        current_leader,
        from,
        source_term,
        leader_id,
        prev_log_index,
        prev_log_term,
        leader_commit,
        entries,
    );
    (
        NodeView {
            current_term: r.0,
            log: r.1,
            commit_index: r.2,
            state: StateView::Follower { current_leader: r.3, voted_for },
            ..n
        },
        r.4,
    )
}

/// What a node does with a message from `from`: its next model and what it
/// sends, or `None` when its role does not accept that kind of message.
pub open spec fn step(n: NodeView, from: NodeId, msg: MessageView) -> Option<(NodeView, Outbound)> {
    match n.state {
        StateView::Follower { current_leader, voted_for } => match msg {
            MessageView::AppendEntries {
                leader_id,
                prev_log_index,
                term,
                prev_log_term,
                leader_commit,
                entries,
            } => Some(
                append_entries_step(
                    n,
                    current_leader,
                    voted_for,
                    from,
                    term,
                    leader_id,
                    prev_log_index,
                    prev_log_term,
                    leader_commit,
                    entries,
                ),
            ),
            MessageView::RequestVote { term, candidate_id, last_log_index, last_log_term } => {
                let r = request_vote_outcome(
                    n.current_term,
                    n.log,
                    voted_for,
                    term,
                    candidate_id,
                    last_log_index,
                    last_log_term,
                );
                Some(
                    (
                        NodeView {
                            current_term: r.0,
                            state: StateView::Follower { current_leader, voted_for: r.1 },
                            ..n
                        },
                        r.2,
                    ),
                )
            },
            _ => None,
        },
        StateView::Candidate { votes_received } => match msg {
            MessageView::RequestVoteResponse { term, success } => {
                let r = vote_response_outcome(
                    n.current_term,
                    n.peers,
                    n.log,
                    from,
                    votes_received,
                    term,
                    success,
                );
                Some((NodeView { current_term: r.0, state: r.1, ..n }, r.2))
            },
            MessageView::AppendEntries {
                leader_id,
                prev_log_index,
                term,
                prev_log_term,
                leader_commit,
                entries,
            } => Some(
                append_entries_step(
                    n,
                    None,
                    None,
                    from,
                    term,
                    leader_id,
                    prev_log_index,
                    prev_log_term,
                    leader_commit,
                    entries,
                ),
            ),
            _ => None,
        },
        StateView::Leader { next_log_index, confirmed_log_index } => match msg {
            MessageView::AppendEntriesResponse { term, success, last_log_index } => {
                let r = append_response_outcome(
                    term,
                    n.current_term,
                    success,
                    confirmed_log_index,
                    next_log_index,
                    last_log_index,
                    n.commit_index,
                    from,
                    n.log,
                    n.peers,
                );
                Some((NodeView { current_term: r.0, commit_index: r.1, state: r.2, ..n }, r.3))
            },
            MessageView::ClientRequest { command } => {
                let r = client_request_outcome(
                    n.node_id,
                    n.peers,
                    n.current_term,
                    n.log,
                    command,
                    n.commit_index,
                );
                Some((NodeView { log: r.0, ..n }, r.1))
            },
            _ => None,
        },
    }
}

/// The inputs on which handling a message panics.
pub open spec fn step_panics(n: NodeView, from: NodeId, msg: MessageView) -> bool {
    match n.state {
        StateView::Follower { .. } | StateView::Candidate { .. } => match msg {
            MessageView::AppendEntries { term, prev_log_index, entries, .. } => append_entries_panics(
                n.current_term,
                n.log,
                term,
                prev_log_index,
                entries,
            ),
            _ => false,
        },
        StateView::Leader { next_log_index, .. } => match msg {
            MessageView::AppendEntriesResponse { term, success, last_log_index } =>
                append_response_panics(
                n.current_term,
                term,
                success,
                next_log_index,
                last_log_index,
                from,
            ),
            _ => false,
        },
    }
}

/// The node once its election timer has fired: the next term, as a
/// candidate that has no vote from a peer yet.
pub open spec fn start_election_outcome(n: NodeView) -> NodeView {
    NodeView {
        current_term: (n.current_term + 1) as u64,
        state: StateView::Candidate { votes_received: Seq::empty() },
        ..n
    }
}

/// The vote requests of a node that stands for election: one to each peer,
/// in the order of the peers, with its term and the index and term of its
/// last entry.
pub open spec fn election_requests(n: NodeView) -> Outbound {
    Seq::new(
        n.peers.len(),
        |i: int|
            (
                n.peers[i],
                MessageView::RequestVote {
                    term: n.current_term,
                    candidate_id: n.node_id,
                    last_log_index: last_entry_index_term(n.log).0,
                    last_log_term: last_entry_index_term(n.log).1,
                },
            ),
    )
}

/// The heartbeats of a leader: to each peer, in order, an append request
/// with no entries that carries the leader's term and commit index and names
/// its last entry (by its 1-based position and its term) as the previous one.
/// A node that is not leader sends none.
pub open spec fn heartbeats(n: NodeView) -> Outbound {
    if n.state is Leader {
        Seq::new(
            n.peers.len(),
            |i: int|
                (
                    n.peers[i],
                    MessageView::AppendEntries {
                        leader_id: n.node_id,
                        prev_log_index: n.log.len() as usize,
                        term: n.current_term,
                        prev_log_term: last_entry_index_term(n.log).1,
                        leader_commit: n.commit_index,
                        entries: Seq::empty(),
                    },
                ),
        )
    } else {
        Seq::empty()
    }
}

/// The node after a message its role does not accept: it has dropped its
/// role and is a follower that knows no leader and has not voted.
pub open spec fn after_refusal(n: NodeView) -> NodeView {
    NodeView { state: StateView::Follower { current_leader: None, voted_for: None }, ..n }
}

} // verus!
