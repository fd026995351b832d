//! The messages that nodes exchange.

use crate::log_entry::{Command, LogEntry};
use crate::node_id::NodeId;
use vstd::prelude::*;

verus! {

/// A message of the Raft protocol, or a client's request to a leader.
#[derive(Debug)]
pub enum RaftMessage {
    RequestVote { term: u64, candidate_id: NodeId, last_log_index: usize, last_log_term: u64 },
    RequestVoteResponse { term: u64, success: bool },
    AppendEntries {
        leader_id: NodeId,
        prev_log_index: usize,
        term: u64,
        prev_log_term: u64,
        leader_commit: usize,
        entries: Vec<LogEntry>,
    },
    AppendEntriesResponse { term: u64, success: bool, last_log_index: usize },
    ClientRequest { command: Command },
}

/// The mathematical model of a message: the carried entries as a sequence.
pub enum MessageView {
    RequestVote { term: u64, candidate_id: NodeId, last_log_index: usize, last_log_term: u64 },
    RequestVoteResponse { term: u64, success: bool },
    AppendEntries {
        leader_id: NodeId,
        prev_log_index: usize,
        term: u64,
        prev_log_term: u64,
        leader_commit: usize,
        entries: Seq<LogEntry>,
    },
    AppendEntriesResponse { term: u64, success: bool, last_log_index: usize },
    ClientRequest { command: Command },
}

impl View for RaftMessage {
    type V = MessageView;

    open spec fn view(&self) -> MessageView {
        match self {
            RaftMessage::RequestVote { term, candidate_id, last_log_index, last_log_term } =>
                MessageView::RequestVote {
                term: *term,
                candidate_id: *candidate_id,
                last_log_index: *last_log_index,
                last_log_term: *last_log_term,
            },
            RaftMessage::RequestVoteResponse { term, success } => MessageView::RequestVoteResponse {
                term: *term,
                success: *success,
            },
            RaftMessage::AppendEntries {
                leader_id,
                prev_log_index,
                term,
                prev_log_term,
                leader_commit,
                entries,
            } => MessageView::AppendEntries {
                leader_id: *leader_id,
                prev_log_index: *prev_log_index,
                term: *term,
                prev_log_term: *prev_log_term,
                leader_commit: *leader_commit,
                entries: entries@,
            },
            RaftMessage::AppendEntriesResponse { term, success, last_log_index } =>
                MessageView::AppendEntriesResponse {
                term: *term,
                success: *success,
                last_log_index: *last_log_index,
            },
            RaftMessage::ClientRequest { command } => MessageView::ClientRequest {
                command: *command,
            },
        }
    }
}

/// The model of a batch of addressed messages.
pub open spec fn outbound_view(out: Seq<(NodeId, RaftMessage)>) -> Seq<(NodeId, MessageView)> {
    out.map_values(|p: (NodeId, RaftMessage)| (p.0, p.1@))
}

} // verus!
