//! A single Raft node: leader election, log replication and commit-index
//! bookkeeping, written as pure message handlers whose behaviour is stated
//! over mathematical models and proved.

pub mod node_id;
pub mod log_entry;
pub mod raft_message;
pub mod envelope;
pub mod node_state;
pub mod quorum;
pub mod model;
pub mod node;
pub mod runner;
pub mod laws;
pub mod handler_laws;
