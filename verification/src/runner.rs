//! The decisions of a node's event loop: what the node does when a message
//! arrives, when its election timer fires and when its heartbeat timer fires.
//! Receiving, sending and the timers themselves are the caller's work.

use crate::envelope::Envelope;
use crate::model::{
    after_refusal, election_requests, heartbeats, node_wf, start_election_outcome, step,
    step_panics,
};
use crate::node::{Node, NodeError};
use crate::node_id::NodeId;
use crate::raft_message::{outbound_view, RaftMessage};
use vstd::prelude::*;

verus! {

/// Why a node's event loop stopped.
#[derive(Debug)]
pub enum NodeRunnerError {
    Logic(NodeError),
}

/// What happened to a node's event loop.
#[derive(Debug)]
pub enum RunnerEvent {
    /// a message arrived
    Inbound(Envelope),
    /// no message arrived for an election timeout
    ElectionTimeout,
    /// the heartbeat interval elapsed
    HeartbeatTimeout,
}

/// The node's reaction to one event of its loop, and the messages to
/// dispatch: a message is handled (a refused one stops the loop with the
/// node's error), an election timeout starts an election, a heartbeat
/// timeout sends the leader's heartbeats.
pub fn runner_step(node: &mut Node, event: RunnerEvent) -> (r: Result<
    Vec<(NodeId, RaftMessage)>,
    NodeRunnerError,
>)
    requires
        node_wf(old(node)@),
        match event {
            RunnerEvent::Inbound(e) => !step_panics(old(node)@, e.from, e.message@),
            RunnerEvent::ElectionTimeout => old(node)@.current_term < u64::MAX,
            RunnerEvent::HeartbeatTimeout => true,
        },
    ensures
        node_wf(final(node)@),
        match event {
            RunnerEvent::Inbound(e) => match r {
                Ok(out) => step(old(node)@, e.from, e.message@) == Some(
                    (final(node)@, outbound_view(out@)),
                ),
                Err(err) => {
                    &&& step(old(node)@, e.from, e.message@) is None
                    &&& final(node)@ == after_refusal(old(node)@)
                    &&& err matches NodeRunnerError::Logic(NodeError::UnexpectedMessage { message })
                        && message@ == "invalid command sent for current state"@
                },
            },
            RunnerEvent::ElectionTimeout => {
                &&& r is Ok
                &&& final(node)@ == start_election_outcome(old(node)@)
                &&& outbound_view(r->Ok_0@) == election_requests(final(node)@)
            },
            RunnerEvent::HeartbeatTimeout => {
                &&& r is Ok
                &&& final(node)@ == old(node)@
                &&& outbound_view(r->Ok_0@) == heartbeats(old(node)@)
            },
        },
{
    match event {
        RunnerEvent::Inbound(envelope) => match node.handle_message(envelope) {
            Ok(out) => Ok(out),
            Err(e) => Err(NodeRunnerError::Logic(e)),
        },
        RunnerEvent::ElectionTimeout => Ok(node.start_election()),
        RunnerEvent::HeartbeatTimeout => Ok(node.send_heartbeats()),
    }
}

} // verus!
