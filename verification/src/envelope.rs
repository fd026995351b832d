//! A message in transit between two nodes.

use crate::node_id::NodeId;
use crate::raft_message::RaftMessage;
use vstd::prelude::*;

verus! {

/// A message together with its sender and its addressee.
#[derive(Debug)]
pub struct Envelope {
    pub from: NodeId,
    pub to: NodeId,
    pub message: RaftMessage,
}

} // verus!
