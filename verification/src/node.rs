//! A Raft node and its message handlers.

use crate::envelope::Envelope;
use crate::log_entry::{Command, LogEntry};
use crate::model::{
    after_refusal, append_entries_outcome, append_entries_panics, append_response_outcome,
    append_response_panics, client_entry, client_request_outcome, election_requests, heartbeats,
    is_log_behind, last_entry_index_term, last_position, merge_entries, node_wf,
    replicated_indices, request_vote_outcome, start_election_outcome, step, step_panics,
    vote_response_outcome, NodeView,
};
use crate::node_id::{fresh_uuid, NodeId};
use crate::node_state::{
    initial_table_exec, keys_unique, state_wf, table_find, table_insert_exec, table_values,
    vote_add_exec, NodeState, StateView,
};
use crate::laws::{
    entries_contiguous, lemma_append_outcome_idempotent, lemma_leader_commit_outcome,
    lemma_vote_cast_once,
};
use crate::quorum::quorum_index_exec;
use crate::raft_message::{outbound_view, MessageView, RaftMessage};
use vstd::prelude::*;

verus! {

/// A node of the cluster: its identity, term, log, peers, role and commit
/// index.
#[derive(Debug, Clone)]
pub struct Node {
    node_id: NodeId,
    current_term: u64,
    log: Vec<LogEntry>,
    peers: Vec<NodeId>,
    state: NodeState,
    commit_index: usize,
    last_applied: u64,
}

/// Returned when a node's role does not accept the kind of message it got.
#[derive(Debug)]
pub enum NodeError {
    UnexpectedMessage { message: String },
}

impl View for Node {
    type V = NodeView;

    closed spec fn view(&self) -> NodeView {
        NodeView {
            node_id: self.node_id,
            current_term: self.current_term,
            log: self.log@,
            peers: self.peers@,
            state: self.state@,
            commit_index: self.commit_index,
            last_applied: self.last_applied,
        }
    }
}

/// A fresh node with the given identity: term 0, empty log, no peers, a
/// follower that knows no leader and has not voted.
pub open spec fn fresh_node(node_id: NodeId) -> NodeView {
    NodeView {
        node_id,
        current_term: 0,
        log: Seq::empty(),
        peers: Seq::empty(),
        state: StateView::Follower { current_leader: None, voted_for: None },
        commit_index: 0,
        last_applied: 0,
    }
}

proof fn lemma_merge_nonempty(log: Seq<LogEntry>, entries: Seq<LogEntry>)
    requires
        log.len() > 0 || entries.len() > 0,
    ensures
        merge_entries(log, entries).len() > 0,
    decreases entries.len(),
{
    if entries.len() > 0 {
        if entries.drop_last().len() > 0 || log.len() > 0 {
            lemma_merge_nonempty(log, entries.drop_last());
        }
    }
}

impl Node {
    /// A fresh node with a random identity (a version-4 UUID).
    pub fn new() -> (r: Node)
        ensures
            r@ == fresh_node(r@.node_id),
            r@.node_id@ & 0xF000C000000000000000u128 == 0x40008000000000000000u128,
            node_wf(r@),
    {
        Node::with_id(NodeId::from_uuid(fresh_uuid()))
    }

    /// A fresh node with the given identity.
    pub fn with_id(node_id: NodeId) -> (r: Node)
        ensures
            r@ == fresh_node(node_id),
            node_wf(r@),
    {
        Node {
            node_id,
            current_term: 0,
            log: Vec::new(),
            peers: Vec::new(),
            state: NodeState::Follower { current_leader: None, voted_for: None },
            commit_index: 0,
            last_applied: 0,
        }
    }

    /// Whether the candidate's log, given by its last index and term, is
    /// ahead of `log`.
    fn is_log_behind(log: &Vec<LogEntry>, last_log_index: usize, last_log_term: u64) -> (r: bool)
        ensures
            r == is_log_behind(log@, last_log_index, last_log_term),
    {
        if log.len() == 0 {
            true
        } else {
            let entry = &log[log.len() - 1];
            entry.term < last_log_term || entry.index < last_log_index
        }
    }

    /// A follower answers a vote request.
    fn handle_request_vote(
        current_term: &mut u64,
        log: &Vec<LogEntry>,
        voted_for: &mut Option<NodeId>,
        candidate_term: u64,
        candidate_id: NodeId,
        last_log_index: usize,
        last_log_term: u64,
    ) -> (out: Vec<(NodeId, RaftMessage)>)
        ensures
            (*final(current_term), *final(voted_for), outbound_view(out@)) == request_vote_outcome(
                *old(current_term),
                log@,
                *old(voted_for),
                candidate_term,
                candidate_id,
                last_log_index,
                last_log_term,
            ),
            // a vote already cast stays, and every further request is refused
            old(voted_for).is_some() ==> *final(voted_for) == *old(voted_for)
                && *final(current_term) == *old(current_term) && outbound_view(out@) == seq![(candidate_id, MessageView::RequestVoteResponse { term: *old(current_term), success: false })],
            outbound_view(out@)[0].1->RequestVoteResponse_success ==> old(voted_for).is_none()
                && *final(voted_for) == Some(candidate_id),
    {
        proof {
            lemma_vote_cast_once(
                *current_term,
                log@,
                *voted_for,
                candidate_term,
                candidate_id,
                last_log_index,
                last_log_term,
            );
        }
        if *current_term <= candidate_term && voted_for.is_none() && Node::is_log_behind(
            log,
            last_log_index,
            last_log_term,
        ) {
            *voted_for = Some(candidate_id);
            *current_term = candidate_term;
            let out = vec![
                (
                    candidate_id,
                    RaftMessage::RequestVoteResponse { term: *current_term, success: true },
                ),
            ];
            assert(outbound_view(out@) =~= seq![(candidate_id, MessageView::RequestVoteResponse { term: candidate_term, success: true })]);
            out
        } else {
            let out = vec![
                (
                    candidate_id,
                    RaftMessage::RequestVoteResponse { term: *current_term, success: false },
                ),
            ];
            assert(outbound_view(out@) =~= seq![(candidate_id, MessageView::RequestVoteResponse { term: *current_term, success: false })]);
            out
        }
    }
    /// A follower (or a candidate, which then becomes one) handles an append
    /// request.
    fn handle_append_entries(
        node_current_term: &mut u64,
        log: &mut Vec<LogEntry>,
        commit_index: &mut usize,
        current_leader: &mut Option<NodeId>,
        from: NodeId,
        source_term: u64,
        leader_id: NodeId,
        prev_log_index: usize,
        prev_log_term: u64,
        leader_commit: usize,
        entries: Vec<LogEntry>,
    ) -> (out: Vec<(NodeId, RaftMessage)>)
        requires
            !append_entries_panics(
                *old(node_current_term),
                old(log)@,
                source_term,
                prev_log_index,
                entries@,
            ),
        ensures
            (
                *final(node_current_term),
                final(log)@,
                *final(commit_index),
                *final(current_leader),
                outbound_view(out@),
            ) == append_entries_outcome(
                *old(node_current_term),
                old(log)@,
                *old(commit_index),
                *old(current_leader),
                from,
                source_term,
                leader_id,
                prev_log_index,
                prev_log_term,
                leader_commit,
                entries@,
            ),
            // the same request handled again in the resulting state changes
            // nothing and gets the same reply
            entries_contiguous(prev_log_index, entries@) ==> append_entries_outcome(
                *final(node_current_term),
                final(log)@,
                *final(commit_index),
                *final(current_leader),
                from,
                source_term,
                leader_id,
                prev_log_index,
                prev_log_term,
                leader_commit,
                entries@,
            ) == (
                *final(node_current_term),
                final(log)@,
                *final(commit_index),
                *final(current_leader),
                outbound_view(out@),
            ),
    {
        proof {
            if entries_contiguous(prev_log_index, entries@) {
                lemma_append_outcome_idempotent(
                    *node_current_term,
                    log@,
                    *commit_index,
                    *current_leader,
                    from,
                    source_term,
                    leader_id,
                    prev_log_index,
                    prev_log_term,
                    leader_commit,
                    entries@,
                );
            }
        }
        if source_term < *node_current_term {
            let out = vec![
                (
                    from,
                    RaftMessage::AppendEntriesResponse {
                        term: *node_current_term,
                        success: false,
                        last_log_index: log.len() - 1,
                    },
                ),
            ];
            assert(outbound_view(out@) =~= seq![(from, MessageView::AppendEntriesResponse { term: *node_current_term, success: false, last_log_index: last_position(log@) })]);
            return out;
        }
        *node_current_term = source_term;
        *current_leader = Some(leader_id);

        // prev_log_index > 0 means "the entry just before these new ones should
        // exist in your log at position prev_log_index - 1 with prev_log_term"
        if prev_log_index > 0 {
            let consistent = prev_log_index - 1 < log.len() && log[prev_log_index - 1].term
                == prev_log_term;
            if !consistent {
                let out = vec![
                    (
                        from,
                        RaftMessage::AppendEntriesResponse {
                            term: *node_current_term,
                            success: false,
                            last_log_index: log.len() - 1,
                        },
                    ),
                ];
                assert(outbound_view(out@) =~= seq![(from, MessageView::AppendEntriesResponse { term: source_term, success: false, last_log_index: last_position(log@) })]);
                return out;
            }
        }
        let mut i: usize = 0;
        while i < entries.len()
            invariant
                i <= entries@.len(),
                log@ == merge_entries(old(log)@, entries@.take(i as int)),
            decreases entries@.len() - i,
        {
            let new_entry = entries[i].clone();
            assert(entries@.take(i as int + 1).drop_last() == entries@.take(i as int));
            if new_entry.index < log.len() {
                if log[new_entry.index].term != new_entry.term {
                    // Conflicting entry: discard it and everything after, then replace
                    log.truncate(new_entry.index);
                    log.push(new_entry);
                }
            } else {
                log.push(new_entry);
            }
            i = i + 1;
        }
        assert(entries@.take(entries@.len() as int) == entries@);
        proof {
            if old(log)@.len() > 0 || entries@.len() > 0 {
                lemma_merge_nonempty(old(log)@, entries@);
            }
        }
        if leader_commit > *commit_index {
            // The smaller of leader_commit and the position of the last entry
            let last = log.len().saturating_sub(1);
            *commit_index = if leader_commit <= last {
                leader_commit
            } else {
                last
            };
        }
        let out = vec![
            (
                from,
                RaftMessage::AppendEntriesResponse {
                    term: *node_current_term,
                    success: true,
                    last_log_index: log.len() - 1,
                },
            ),
        ];
        assert(outbound_view(out@) =~= seq![(from, MessageView::AppendEntriesResponse { term: source_term, success: true, last_log_index: last_position(log@) })]);
        out
    }
    /// A candidate handles a reply to its vote request.
    fn handle_candidate_vote_response(
        current_term: &mut u64,
        peers: &Vec<NodeId>,
        log: &Vec<LogEntry>,
        from: NodeId,
        votes_received: Vec<NodeId>,
        sender_term: u64,
        success: bool,
    ) -> (r: (Vec<(NodeId, RaftMessage)>, NodeState))
        requires
            votes_received@.no_duplicates(),
        ensures
            (*final(current_term), r.1@, outbound_view(r.0@)) == vote_response_outcome(
                *old(current_term),
                peers@,
                log@,
                from,
                votes_received@,
                sender_term,
                success,
            ),
            state_wf(r.1@),
    {
        // 1 + (peers.len() + 1) / 2, computed without overflow
        let majority = peers.len() / 2 + peers.len() % 2 + 1;
        let mut votes_received = votes_received;
        if *current_term < sender_term {
            let state = NodeState::Follower { current_leader: None, voted_for: None };
            *current_term = sender_term;
            let out: Vec<(NodeId, RaftMessage)> = Vec::new();
            assert(outbound_view(out@) =~= Seq::empty());
            return (out, state);
        }
        let out: Vec<(NodeId, RaftMessage)> = Vec::new();
        assert(outbound_view(out@) =~= Seq::empty());
        if success {
            vote_add_exec(&mut votes_received, from);
            if votes_received.len() >= majority - 1 {
                let next_index = initial_table_exec(peers, log.len());
                let match_index = initial_table_exec(peers, 0);
                let state = NodeState::Leader {
                    next_log_index: next_index,
                    confirmed_log_index: match_index,
                };
                (out, state)
            } else {
                (out, NodeState::Candidate { votes_received })
            }
        } else {
            (out, NodeState::Candidate { votes_received })
        }
    }

    /// A leader handles a reply to its append request.
    fn handle_append_entries_response(
        term: u64,
        current_term: &mut u64,
        success: bool,
        confirmed_log_index: Vec<(NodeId, usize)>,
        next_log_index: Vec<(NodeId, usize)>,
        last_log_index: usize,
        commit_index: &mut usize,
        from: NodeId,
        log: &Vec<LogEntry>,
        peers: &Vec<NodeId>,
    ) -> (r: (Vec<(NodeId, RaftMessage)>, NodeState))
        requires
            keys_unique(confirmed_log_index@),
            keys_unique(next_log_index@),
            !append_response_panics(
                *old(current_term),
                term,
                success,
                next_log_index@,
                last_log_index,
                from,
            ),
        ensures
            (*final(current_term), *final(commit_index), r.1@, outbound_view(r.0@))
                == append_response_outcome(
                term,
                *old(current_term),
                success,
                confirmed_log_index@,
                next_log_index@,
                last_log_index,
                *old(commit_index),
                from,
                log@,
                peers@,
            ),
            state_wf(r.1@),
            // the commit index never moves back, and moves forward only onto an
            // entry of the leader's current term
            *final(commit_index) >= *old(commit_index),
            *final(commit_index) != *old(commit_index) ==> *final(commit_index) < log@.len()
                && log@[*final(commit_index) as int].term == *final(current_term),
    {
        proof {
            lemma_leader_commit_outcome(
                term,
                *current_term,
                success,
                confirmed_log_index@,
                next_log_index@,
                last_log_index,
                *commit_index,
                from,
                log@,
                peers@,
            );
        }
        let out: Vec<(NodeId, RaftMessage)> = Vec::new();
        assert(outbound_view(out@) =~= Seq::empty());
        let mut confirmed_log_index = confirmed_log_index;
        let mut next_log_index = next_log_index;
        // An election happened and this node is no longer the leader
        if term > *current_term {
            *current_term = term;
            let state = NodeState::Follower { current_leader: None, voted_for: None };
            return (out, state);
        }
        if success {
            table_insert_exec(&mut confirmed_log_index, from, last_log_index);
            table_insert_exec(&mut next_log_index, from, last_log_index + 1);

            // The confirmed indices and the leader's own last position
            let mut indices: Vec<usize> = Vec::new();
            let mut i: usize = 0;
            while i < confirmed_log_index.len()
                invariant
                    i <= confirmed_log_index@.len(),
                    indices@ == table_values(confirmed_log_index@).take(i as int),
                decreases confirmed_log_index@.len() - i,
            {
                indices.push(confirmed_log_index[i].1);
                i = i + 1;
            }
            assert(table_values(confirmed_log_index@).take(i as int) == table_values(
                confirmed_log_index@,
            ));
            indices.push(log.len().saturating_sub(1));
            assert(indices@ == replicated_indices(confirmed_log_index@, log@));

            // (peers.len() + 2) / 2, computed without overflow
            let majority = peers.len() / 2 + 1;
            if majority - 1 < indices.len() {
                let majority_commit_index = quorum_index_exec(&indices, majority);
                if majority_commit_index > *commit_index {
                    if majority_commit_index < log.len() {
                        if log[majority_commit_index].term == *current_term {
                            *commit_index = majority_commit_index;
                        }
                    }
                }
            }
            let state = NodeState::Leader {
                next_log_index,
                confirmed_log_index,
            };
            (out, state)
        } else {
            // Roll the next index to try at this peer back by 1
            let pos = table_find(&next_log_index, from);
            let i = pos.unwrap();
            let entry = next_log_index[i].1;
            table_insert_exec(&mut next_log_index, from, entry.saturating_sub(1));
            let state = NodeState::Leader {
                next_log_index,
                confirmed_log_index,
            };
            (out, state)
        }
    }

    /// A leader appends a client's command to its log and sends the new
    /// entry to every peer.
    fn handle_client_request(
        node_id: &NodeId,
        peers: &Vec<NodeId>,
        current_term: u64,
        logs: &mut Vec<LogEntry>,
        command: Command,
        commit_index: usize,
    ) -> (out: Vec<(NodeId, RaftMessage)>)
        ensures
            (final(logs)@, outbound_view(out@)) == client_request_outcome(
                *node_id,
                peers@,
                current_term,
                old(logs)@,
                command,
                commit_index,
            ),
    {
        let (prev_log_index, prev_log_term) = if logs.len() == 0 {
            (0usize, 0u64)
        } else {
            let entry = &logs[logs.len() - 1];
            (entry.index, entry.term)
        };
        let new_log_entry = LogEntry { term: prev_log_term, index: logs.len(), command };
        logs.push(new_log_entry.clone());
        let ghost expected = client_request_outcome(
            *node_id,
            peers@,
            current_term,
            old(logs)@,
            command,
            commit_index,
        ).1;
        let mut out: Vec<(NodeId, RaftMessage)> = Vec::new();
        let mut i: usize = 0;
        while i < peers.len()
            invariant
                i <= peers@.len(),
                expected.len() == peers@.len(),
                out@.len() == i,
                outbound_view(out@) =~= expected.take(i as int),
                expected == client_request_outcome(
                    *node_id,
                    peers@,
                    current_term,
                    old(logs)@,
                    command,
                    commit_index,
                ).1,
                new_log_entry == client_entry(old(logs)@, command),
                (prev_log_index, prev_log_term) == last_entry_index_term(old(logs)@),
            decreases peers@.len() - i,
        {
            let entries = vec![new_log_entry.clone()];
            assert(entries@ =~= seq![new_log_entry]);
            out.push(
                (
                    peers[i],
                    RaftMessage::AppendEntries {
                        leader_id: *node_id,
                        prev_log_index,
                        term: current_term,
                        prev_log_term,
                        leader_commit: commit_index,
                        entries,
                    },
                ),
            );
            assert(outbound_view(out@)[i as int] == expected[i as int]);
            assert(outbound_view(out@) =~= expected.take(i as int + 1));
            i = i + 1;
        }
        assert(expected.take(i as int) =~= expected);
        out
    }
    /// Handles a message from another node (or a client) and returns the
    /// messages to send in reply.  A role that does not accept the kind of
    /// message refuses it, and the node is then left a follower that knows no
    /// leader and has not voted.
    pub fn handle_message(&mut self, envelope: Envelope) -> (r: Result<
        Vec<(NodeId, RaftMessage)>,
        NodeError,
    >)
        requires
            node_wf(old(self)@),
            !step_panics(old(self)@, envelope.from, envelope.message@),
        ensures
            node_wf(final(self)@),
            final(self)@.current_term >= old(self)@.current_term,
            match r {
                Ok(out) => step(old(self)@, envelope.from, envelope.message@) == Some(
                    (final(self)@, outbound_view(out@)),
                ),
                Err(e) => {
                    &&& step(old(self)@, envelope.from, envelope.message@) is None
                    &&& final(self)@ == after_refusal(old(self)@)
                    &&& e matches NodeError::UnexpectedMessage { message }
                        && message@ == "invalid command sent for current state"@
                },
            },
    {
        let from = envelope.from;
        let mut old_state = NodeState::Follower { current_leader: None, voted_for: None };
        std::mem::swap(&mut old_state, &mut self.state);
        match old_state {
            NodeState::Follower { current_leader, voted_for } => {
                match envelope.message {
                    RaftMessage::AppendEntries {
                        leader_id,
                        prev_log_index,
                        term,
                        prev_log_term,
                        leader_commit,
                        entries,
                    } => {
                        let mut current_leader = current_leader;
                        let result = Node::handle_append_entries(
                            &mut self.current_term,
                            &mut self.log,
                            &mut self.commit_index,
                            &mut current_leader,
                            from,
                            term,
                            leader_id,
                            prev_log_index,
                            prev_log_term,
                            leader_commit,
                            entries,
                        );
                        self.state = NodeState::Follower { current_leader, voted_for };
                        Ok(result)
                    },
                    RaftMessage::RequestVote { term, candidate_id, last_log_index, last_log_term } => {
                        let mut voted_for = voted_for;
                        let result = Node::handle_request_vote(
                            &mut self.current_term,
                            &self.log,
                            &mut voted_for,
                            term,
                            candidate_id,
                            last_log_index,
                            last_log_term,
                        );
                        self.state = NodeState::Follower { current_leader, voted_for };
                        Ok(result)
                    },
                    _ => Err(Node::unexpected_message()),
                }
            },
            NodeState::Candidate { votes_received } => {
                match envelope.message {
                    RaftMessage::RequestVoteResponse { term, success } => {
                        let (result, state) = Node::handle_candidate_vote_response(
                            &mut self.current_term,
                            &self.peers,
                            &self.log,
                            from,
                            votes_received,
                            term,
                            success,
                        );
                        self.state = state;
                        Ok(result)
                    },
                    RaftMessage::AppendEntries {
                        leader_id,
                        prev_log_index,
                        term,
                        prev_log_term,
                        leader_commit,
                        entries,
                    } => {
                        let mut current_leader: Option<NodeId> = None;
                        let voted_for: Option<NodeId> = None;
                        let result = Node::handle_append_entries(
                            &mut self.current_term,
                            &mut self.log,
                            &mut self.commit_index,
                            &mut current_leader,
                            from,
                            term,
                            leader_id,
                            prev_log_index,
                            prev_log_term,
                            leader_commit,
                            entries,
                        );
                        self.state = NodeState::Follower { current_leader, voted_for };
                        Ok(result)
                    },
                    _ => Err(Node::unexpected_message()),
                }
            },
            NodeState::Leader { next_log_index, confirmed_log_index } => {
                match envelope.message {
                    RaftMessage::AppendEntriesResponse { term, success, last_log_index } => {
                        let (result, state) = Node::handle_append_entries_response(
                            term,
                            &mut self.current_term,
                            success,
                            confirmed_log_index,
                            next_log_index,
                            last_log_index,
                            &mut self.commit_index,
                            from,
                            &self.log,
                            &self.peers,
                        );
                        self.state = state;
                        Ok(result)
                    },
                    RaftMessage::ClientRequest { command } => {
                        let result = Node::handle_client_request(
                            &self.node_id,
                            &self.peers,
                            self.current_term,
                            &mut self.log,
                            command,
                            self.commit_index,
                        );
                        self.state = NodeState::Leader { next_log_index, confirmed_log_index };
                        Ok(result)
                    },
                    _ => Err(Node::unexpected_message()),
                }
            },
        }
    }

    /// The error for a message that the node's role does not accept.
    fn unexpected_message() -> (e: NodeError)
        ensures
            e matches NodeError::UnexpectedMessage { message } && message@
                == "invalid command sent for current state"@,
    {
        NodeError::UnexpectedMessage { message: "invalid command sent for current state".to_owned() }
    }
    /// Stands for election: moves to the next term as a candidate with no
    /// votes yet, and asks every peer for its vote.
    pub fn start_election(&mut self) -> (out: Vec<(NodeId, RaftMessage)>)
        requires
            old(self)@.current_term < u64::MAX,
            node_wf(old(self)@),
        ensures
            final(self)@ == start_election_outcome(old(self)@),
            outbound_view(out@) == election_requests(final(self)@),
            node_wf(final(self)@),
    {
        self.current_term = self.current_term + 1;
        self.state = NodeState::Candidate { votes_received: Vec::new() };
        let (last_log_index, last_log_term) = if self.log.len() == 0 {
            (0usize, 0u64)
        } else {
            let entry = &self.log[self.log.len() - 1];
            (entry.index, entry.term)
        };
        let ghost expected = election_requests(self@);
        let mut out: Vec<(NodeId, RaftMessage)> = Vec::new();
        let mut i: usize = 0;
        while i < self.peers.len()
            invariant
                i <= self@.peers.len(),
                expected == election_requests(self@),
                (last_log_index, last_log_term) == last_entry_index_term(self@.log),
                out@.len() == i,
                outbound_view(out@) =~= expected.take(i as int),
            decreases self@.peers.len() - i,
        {
            out.push(
                (
                    self.peers[i],
                    RaftMessage::RequestVote {
                        term: self.current_term,
                        candidate_id: self.node_id,
                        last_log_index,
                        last_log_term,
                    },
                ),
            );
            assert(outbound_view(out@)[i as int] == expected[i as int]);
            assert(outbound_view(out@) =~= expected.take(i as int + 1));
            i = i + 1;
        }
        assert(expected.take(i as int) =~= expected);
        out
    }

    /// A leader's heartbeats to all its peers; other roles send none.
    pub fn send_heartbeats(&self) -> (out: Vec<(NodeId, RaftMessage)>)
        ensures
            outbound_view(out@) == heartbeats(self@),
    {
        let mut out: Vec<(NodeId, RaftMessage)> = Vec::new();
        match &self.state {
            NodeState::Leader { .. } => {},
            _ => {
                assert(outbound_view(out@) =~= heartbeats(self@));
                return out;
            },
        }
        let prev_log_term = if self.log.len() == 0 {
            0u64
        } else {
            self.log[self.log.len() - 1].term
        };
        let ghost expected = heartbeats(self@);
        let mut i: usize = 0;
        while i < self.peers.len()
            invariant
                i <= self@.peers.len(),
                self@.state is Leader,
                expected == heartbeats(self@),
                prev_log_term == last_entry_index_term(self@.log).1,
                out@.len() == i,
                outbound_view(out@) =~= expected.take(i as int),
            decreases self@.peers.len() - i,
        {
            let entries: Vec<LogEntry> = Vec::new();
            out.push(
                (
                    self.peers[i],
                    RaftMessage::AppendEntries {
                        leader_id: self.node_id,
                        prev_log_index: self.log.len(),
                        term: self.current_term,
                        prev_log_term,
                        leader_commit: self.commit_index,
                        entries,
                    },
                ),
            );
            assert(outbound_view(out@)[i as int] == expected[i as int]);
            assert(outbound_view(out@) =~= expected.take(i as int + 1));
            i = i + 1;
        }
        assert(expected.take(i as int) =~= expected);
        out
    }

    /// Adds a peer to the cluster this node knows of.
    pub fn add_peer(&mut self, peer: NodeId)
        ensures
            final(self)@ == (NodeView { peers: old(self)@.peers.push(peer), ..old(self)@ }),
    {
        self.peers.push(peer);
    }

    /// A node put together from its parts, with nothing applied yet.
    pub fn from_parts(
        node_id: NodeId,
        current_term: u64,
        log: Vec<LogEntry>,
        peers: Vec<NodeId>,
        state: NodeState,
        commit_index: usize,
    ) -> (r: Node)
        requires
            state_wf(state@),
        ensures
            r@ == (NodeView {
                node_id,
                current_term,
                log: log@,
                peers: peers@,
                state: state@,
                commit_index,
                last_applied: 0,
            }),
            node_wf(r@),
    {
        Node { node_id, current_term, log, peers, state, commit_index, last_applied: 0 }
    }

    /// This node's identity.
    pub fn id(&self) -> (r: &NodeId)
        ensures
            *r == self@.node_id,
    {
        &self.node_id
    }

    /// This node's identity.
    pub fn node_id(&self) -> (r: &NodeId)
        ensures
            *r == self@.node_id,
    {
        &self.node_id
    }

    /// The latest term this node has seen.
    pub fn current_term(&self) -> (r: u64)
        ensures
            r == self@.current_term,
    {
        self.current_term
    }

    /// This node's log.
    pub fn log(&self) -> (r: &[LogEntry])
        ensures
            r@ == self@.log,
    {
        self.log.as_slice()
    }

    /// This node's role.
    pub fn state(&self) -> (r: &NodeState)
        ensures
            r@ == self@.state,
    {
        &self.state
    }

    /// The position of the last entry known to be committed.
    pub fn commit_index(&self) -> (r: usize)
        ensures
            r == self@.commit_index,
    {
        self.commit_index
    }
    /// Whether handling this message would panic: an append request whose
    /// reply would report the last position of an empty log, or an append
    /// reply to a leader whose successor index overflows or that comes from a
    /// peer the leader keeps no next index for.
    pub fn panics_on(&self, envelope: &Envelope) -> (r: bool)
        requires
            node_wf(self@),
        ensures
            r == step_panics(self@, envelope.from, envelope.message@),
    {
        match &self.state {
            NodeState::Leader { next_log_index, .. } => match &envelope.message {
                RaftMessage::AppendEntriesResponse { term, success, last_log_index } => {
                    if *term > self.current_term {
                        false
                    } else if *success {
                        *last_log_index == usize::MAX
                    } else {
                        table_find(next_log_index, envelope.from).is_none()
                    }
                },
                _ => false,
            },
            _ => match &envelope.message {
                RaftMessage::AppendEntries { term, prev_log_index, entries, .. } => {
                    self.log.len() == 0 && (*term < self.current_term || *prev_log_index > 0
                        || entries.len() == 0)
                },
                _ => false,
            },
        }
    }
}

} // verus!
