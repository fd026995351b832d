# dist_1

A single node of the Raft consensus protocol (leader election, log
replication, commit-index bookkeeping), verified with Verus.

- `src/` is the verified library. `model.rs` states, as spec functions, how a
  node reacts to each message; `node.rs` implements the handlers and proves
  them against that model; `laws.rs` proves properties of the protocol over
  it (one vote per follower role, leaders need a majority of votes, commits
  need a quorum and an entry of the current term, appends are idempotent, ...).
  `quorum.rs` computes the index a quorum of nodes has reached.
  `runner.rs` holds the decisions of a node's event loop.
- `app/` runs a node on tokio (channels, timers) and gives the error types
  their `std::error::Error` implementations.
- `tests/` exercises the library on concrete scenarios.
