//! Properties of the protocol that hold of every step, proved over the model
//! that `Node::handle_message` is verified against.

use crate::log_entry::LogEntry;
use crate::model::{
    append_entries_outcome, append_entries_step, append_response_outcome, follower_commit_index,
    is_log_behind, last_position_or_zero, log_consistent, merge_entries, merge_entry, node_wf,
    replicated_indices, replication_quorum, request_vote_outcome, step, vote_response_outcome,
    votes_needed, NodeView,
};
use crate::node_id::NodeId;
use crate::node_state::{table_insert, vote_add, StateView};
use crate::quorum::{count_at_least, lemma_quorum_index};
use crate::raft_message::MessageView;
use vstd::prelude::*;

verus! {

/// A follower that has already voted refuses every vote request and keeps
/// its vote.
pub proof fn lemma_follower_votes_once(
    n: NodeView,
    from: NodeId,
    term: u64,
    candidate_id: NodeId,
    last_log_index: usize,
    last_log_term: u64,
)
    requires
        n.state matches StateView::Follower { voted_for, .. } && voted_for is Some,
    ensures
        ({
            let msg = MessageView::RequestVote { term, candidate_id, last_log_index, last_log_term };
            let (n2, out) = step(n, from, msg)->0;
            &&& step(n, from, msg) is Some
            &&& n2.state == n.state
            &&& n2.current_term == n.current_term
            &&& out == seq![(candidate_id, MessageView::RequestVoteResponse { term: n.current_term, success: false })]
        }),
{
}

/// A follower grants its vote only to a candidate whose term is not behind
/// its own and whose log is ahead of its own; it then takes the candidate's
/// term and records the vote.
pub proof fn lemma_vote_granted_only_when_allowed(
    n: NodeView,
    from: NodeId,
    term: u64,
    candidate_id: NodeId,
    last_log_index: usize,
    last_log_term: u64,
)
    requires
        n.state is Follower,
    ensures
        ({
            let msg = MessageView::RequestVote { term, candidate_id, last_log_index, last_log_term };
            let (n2, out) = step(n, from, msg)->0;
            (out[0].1 is RequestVoteResponse && out[0].1->RequestVoteResponse_success) ==> {
                &&& n.current_term <= term
                &&& n.state->voted_for is None
                &&& is_log_behind(n.log, last_log_index, last_log_term)
                &&& n2.current_term == term
                &&& n2.state->voted_for == Some(candidate_id)
            }
        }),
{
}

/// A candidate becomes leader only when the distinct peers that voted for
/// it, together with itself, are more than half of the cluster.
pub proof fn lemma_leader_has_majority(
    n: NodeView,
    from: NodeId,
    term: u64,
    success: bool,
)
    requires
        node_wf(n),
        n.state is Candidate,
    ensures
        ({
            let msg = MessageView::RequestVoteResponse { term, success };
            let (n2, out) = step(n, from, msg)->0;
            let votes = vote_add(n.state->votes_received, from);
            n2.state is Leader ==> {
                &&& success
                &&& votes.no_duplicates()
                &&& 2 * (votes.len() + 1) > n.peers.len() + 1
            }
        }),
{
    let votes = vote_add(n.state->votes_received, from);
    assert(votes.no_duplicates());
    assert(votes_needed(n.peers.len()) * 2 >= n.peers.len() + 2);
}

/// A vote from a peer that has already voted is not counted again.
pub proof fn lemma_repeated_vote_not_counted(n: NodeView, from: NodeId, term: u64)
    requires
        n.state matches StateView::Candidate { votes_received } && votes_received.contains(from),
        term <= n.current_term,
    ensures
        ({
            let msg = MessageView::RequestVoteResponse { term, success: true };
            let (n2, _) = step(n, from, msg)->0;
            n2.state is Candidate ==> n2.state == n.state
        }),
{
}

/// A reply from a later term turns a candidate or a leader into a follower
/// of that term that knows no leader and has not voted.
pub proof fn lemma_later_term_demotes(n: NodeView, from: NodeId, msg: MessageView)
    requires
        (n.state is Candidate && msg is RequestVoteResponse && msg->RequestVoteResponse_term
            > n.current_term) || (n.state is Leader && msg is AppendEntriesResponse
            && msg->AppendEntriesResponse_term > n.current_term),
    ensures
        ({
            let (n2, out) = step(n, from, msg)->0;
            &&& step(n, from, msg) is Some
            &&& n2.state == (StateView::Follower { current_leader: None, voted_for: None })
            &&& n2.current_term == (match msg {
                MessageView::RequestVoteResponse { term, .. } => term,
                MessageView::AppendEntriesResponse { term, .. } => term,
                _ => 0,
            })
            &&& n2.log == n.log
            &&& out.len() == 0
        }),
{
}

/// An append request from an older term is refused and changes nothing but
/// the role's bookkeeping of a candidate, which becomes a follower.
pub proof fn lemma_stale_append_refused(
    n: NodeView,
    current_leader: Option<NodeId>,
    voted_for: Option<NodeId>,
    from: NodeId,
    source_term: u64,
    leader_id: NodeId,
    prev_log_index: usize,
    prev_log_term: u64,
    leader_commit: usize,
    entries: Seq<LogEntry>,
)
    requires
        source_term < n.current_term,
    ensures
        ({
            let (n2, out) = append_entries_step(
                n,
                current_leader,
                voted_for,
                from,
                source_term,
                leader_id,
                prev_log_index,
                prev_log_term,
                leader_commit,
                entries,
            );
            &&& n2.current_term == n.current_term
            &&& n2.log == n.log
            &&& n2.commit_index == n.commit_index
            &&& n2.state == (StateView::Follower { current_leader, voted_for })
            &&& out.len() == 1
            &&& out[0].0 == from
            &&& out[0].1 matches MessageView::AppendEntriesResponse { term, success, .. } && term
                == n.current_term && !success
        }),
{
}

/// An append request of a term not behind the node's makes the node a
/// follower of that term that knows the sender's leader; when it does not
/// accept the entries, its log and commit index stay as they were.
pub proof fn lemma_current_append_adopts_leader(
    n: NodeView,
    current_leader: Option<NodeId>,
    voted_for: Option<NodeId>,
    from: NodeId,
    source_term: u64,
    leader_id: NodeId,
    prev_log_index: usize,
    prev_log_term: u64,
    leader_commit: usize,
    entries: Seq<LogEntry>,
)
    requires
        source_term >= n.current_term,
    ensures
        ({
            let (n2, out) = append_entries_step(
                n,
                current_leader,
                voted_for,
                from,
                source_term,
                leader_id,
                prev_log_index,
                prev_log_term,
                leader_commit,
                entries,
            );
            &&& n2.current_term == source_term
            &&& n2.state == (StateView::Follower { current_leader: Some(leader_id), voted_for })
            &&& out.len() == 1
            &&& out[0].0 == from
            &&& (out[0].1 matches MessageView::AppendEntriesResponse { success, .. } && !success)
                ==> n2.log == n.log && n2.commit_index == n.commit_index
            &&& (out[0].1 matches MessageView::AppendEntriesResponse { success, .. } && success)
                ==> n2.log == merge_entries(n.log, entries)
        }),
{
}

/// When a follower learns of a commit index beyond its own, it commits no
/// further than the last entry of its log.
pub proof fn lemma_follower_commits_within_log(
    commit_index: usize,
    leader_commit: usize,
    log: Seq<LogEntry>,
)
    requires
        leader_commit > commit_index,
    ensures
        follower_commit_index(commit_index, leader_commit, log) <= last_position_or_zero(log),
        follower_commit_index(commit_index, leader_commit, log) <= leader_commit,
{
}

/// A leader's commit index never moves back, and when it moves forward it
/// lands on an entry of the leader's current term that a quorum of the
/// cluster (counting the leader's own last position) has reached: at least
/// `(peers + 2) / 2` nodes, which is at least half of the cluster.
pub proof fn lemma_leader_commit_safety(
    n: NodeView,
    from: NodeId,
    term: u64,
    success: bool,
    last_log_index: usize,
)
    requires
        n.state is Leader,
        term <= n.current_term,
    ensures
        ({
            let msg = MessageView::AppendEntriesResponse { term, success, last_log_index };
            let (n2, _) = step(n, from, msg)->0;
            let confirmed = table_insert(n.state->confirmed_log_index, from, last_log_index);
            &&& n2.commit_index >= n.commit_index
            &&& n2.current_term == n.current_term
            &&& n2.commit_index != n.commit_index ==> {
                &&& success
                &&& n2.commit_index < n.log.len()
                &&& n.log[n2.commit_index as int].term == n.current_term
                &&& count_at_least(replicated_indices(confirmed, n.log), n2.commit_index)
                    >= replication_quorum(n.peers.len())
                &&& 2 * count_at_least(replicated_indices(confirmed, n.log), n2.commit_index)
                    >= n.peers.len() + 1
            }
        }),
{
    let msg = MessageView::AppendEntriesResponse { term, success, last_log_index };
    let (n2, _) = step(n, from, msg)->0;
    let confirmed = table_insert(n.state->confirmed_log_index, from, last_log_index);
    let indices = replicated_indices(confirmed, n.log);
    let k = replication_quorum(n.peers.len());
    if success && k <= indices.len() {
        lemma_quorum_index(indices, k);
    }
}

/// The entries of an append request follow one another from the position
/// just after the previous entry the request names.
pub open spec fn entries_contiguous(prev_log_index: usize, entries: Seq<LogEntry>) -> bool {
    forall|j: int| 0 <= j < entries.len() ==> #[trigger] entries[j].index == prev_log_index + j
}

proof fn lemma_merge_places_entries(log: Seq<LogEntry>, prev_log_index: usize, entries: Seq<LogEntry>)
    requires
        log.len() >= prev_log_index,
        entries_contiguous(prev_log_index, entries),
    ensures
        merge_entries(log, entries).len() >= prev_log_index + entries.len(),
        forall|i: int|
            0 <= i < entries.len() ==> #[trigger] merge_entries(log, entries)[prev_log_index + i].term
                == entries[i].term,
    decreases entries.len(),
{
    if entries.len() > 0 {
        let init = entries.drop_last();
        assert(entries_contiguous(prev_log_index, init)) by {
            assert forall|j: int| 0 <= j < init.len() implies #[trigger] init[j].index
                == prev_log_index + j by {
                assert(init[j] == entries[j]);
            }
        }
        lemma_merge_places_entries(log, prev_log_index, init);
        let before = merge_entries(log, init);
        let e = entries.last();
        let m = init.len() as int;
        assert(e.index == prev_log_index + m) by {
            assert(entries[m] == e);
        }
        let after = merge_entry(before, e);
        assert(after == merge_entries(log, entries));
        assert forall|i: int| 0 <= i < entries.len() implies #[trigger] after[prev_log_index
            + i].term == entries[i].term by {
            if i < m {
                assert(entries[i] == init[i]);
                assert(before[prev_log_index + i].term == init[i].term);
                assert(after[prev_log_index + i] == before[prev_log_index + i]);
            } else {
                assert(i == m);
            }
        }
    }
}

proof fn lemma_merge_again_changes_nothing(
    merged: Seq<LogEntry>,
    prev_log_index: usize,
    entries: Seq<LogEntry>,
)
    requires
        merged.len() >= prev_log_index + entries.len(),
        entries_contiguous(prev_log_index, entries),
        forall|i: int|
            0 <= i < entries.len() ==> #[trigger] merged[prev_log_index + i].term == entries[i].term,
    ensures
        merge_entries(merged, entries) == merged,
    decreases entries.len(),
{
    if entries.len() > 0 {
        let init = entries.drop_last();
        let m = init.len() as int;
        assert(entries_contiguous(prev_log_index, init)) by {
            assert forall|j: int| 0 <= j < init.len() implies #[trigger] init[j].index
                == prev_log_index + j by {
                assert(init[j] == entries[j]);
            }
        }
        assert forall|i: int| 0 <= i < init.len() implies #[trigger] merged[prev_log_index
            + i].term == init[i].term by {
            assert(init[i] == entries[i]);
            assert(merged[prev_log_index + i].term == entries[i].term);
        }
        lemma_merge_again_changes_nothing(merged, prev_log_index, init);
        let e = entries.last();
        assert(e == entries[m]);
        assert(merged[prev_log_index + m].term == entries[m].term);
    }
}

/// Handling the same append request twice has the same effect, and gets the
/// same reply, as handling it once, when its entries follow one another from
/// the previous entry it names.
pub proof fn lemma_append_entries_idempotent(
    n: NodeView,
    from: NodeId,
    leader_id: NodeId,
    prev_log_index: usize,
    term: u64,
    prev_log_term: u64,
    leader_commit: usize,
    entries: Seq<LogEntry>,
)
    requires
        n.state is Follower || n.state is Candidate,
        entries_contiguous(prev_log_index, entries),
    ensures
        ({
            let msg = MessageView::AppendEntries {
                leader_id,
                prev_log_index,
                term,
                prev_log_term,
                leader_commit,
                entries,
            };
            let once = step(n, from, msg)->0;
            &&& step(n, from, msg) is Some
            &&& step(once.0, from, msg) == Some(once)
        }),
{
    let cl = match n.state {
        StateView::Follower { current_leader, .. } => current_leader,
        _ => None,
    };
    lemma_append_outcome_idempotent(
        n.current_term,
        n.log,
        n.commit_index,
        cl,
        from,
        term,
        leader_id,
        prev_log_index,
        prev_log_term,
        leader_commit,
        entries,
    );
}

/// Handing a follower the same append request again, in the state the first
/// one left it in, changes nothing and gets the same reply, when the
/// request's entries follow one another from the previous entry it names.
pub proof fn lemma_append_outcome_idempotent(
    current_term: u64,
    log: Seq<LogEntry>,
    commit_index: usize,
    current_leader: Option<NodeId>,
    from: NodeId,
    source_term: u64,
    leader_id: NodeId,
    prev_log_index: usize,
    prev_log_term: u64,
    leader_commit: usize,
    entries: Seq<LogEntry>,
)
    requires
        entries_contiguous(prev_log_index, entries),
    ensures
        ({
            let r = append_entries_outcome(
                current_term,
                log,
                commit_index,
                current_leader,
                from,
                source_term,
                leader_id,
                prev_log_index,
                prev_log_term,
                leader_commit,
                entries,
            );
            append_entries_outcome(
                r.0,
                r.1,
                r.2,
                r.3,
                from,
                source_term,
                leader_id,
                prev_log_index,
                prev_log_term,
                leader_commit,
                entries,
            ) == r
        }),
{
    if source_term >= current_term && log_consistent(log, prev_log_index, prev_log_term) {
        assert(log.len() >= prev_log_index);
        lemma_merge_places_entries(log, prev_log_index, entries);
        let merged = merge_entries(log, entries);
        lemma_merge_again_changes_nothing(merged, prev_log_index, entries);
        if prev_log_index > 0 {
            assert(merged[prev_log_index - 1] == log[prev_log_index - 1]) by {
                lemma_merge_keeps_prefix(log, prev_log_index, entries);
            }
        }
    }
}

proof fn lemma_merge_keeps_prefix(log: Seq<LogEntry>, prev_log_index: usize, entries: Seq<LogEntry>)
    requires
        log.len() >= prev_log_index,
        entries_contiguous(prev_log_index, entries),
    ensures
        merge_entries(log, entries).len() >= prev_log_index,
        forall|i: int|
            0 <= i < prev_log_index ==> #[trigger] merge_entries(log, entries)[i] == log[i],
    decreases entries.len(),
{
    if entries.len() > 0 {
        let init = entries.drop_last();
        assert(entries_contiguous(prev_log_index, init)) by {
            assert forall|j: int| 0 <= j < init.len() implies #[trigger] init[j].index
                == prev_log_index + j by {
                assert(init[j] == entries[j]);
            }
        }
        lemma_merge_keeps_prefix(log, prev_log_index, init);
        assert(entries.last() == entries[init.len() as int]);
    }
}

/// Only a candidate becomes leader, and only on a vote granted to it.
pub proof fn lemma_only_candidates_become_leader(n: NodeView, from: NodeId, msg: MessageView)
    requires
        !(n.state is Leader),
        step(n, from, msg) is Some,
        (step(n, from, msg)->0).0.state is Leader,
    ensures
        n.state is Candidate,
        msg matches MessageView::RequestVoteResponse { term, success } && success && term
            <= n.current_term,
{
}

/// A follower's vote is cast once: once it has voted for `c`, every vote
/// request is refused, and its vote and term stay as they were; a granted
/// vote records the candidate.  So in any run of vote requests handled with
/// the same term and vote, starting from no vote, at most one is granted.
pub proof fn lemma_vote_cast_once(
    current_term: u64,
    log: Seq<LogEntry>,
    voted_for: Option<NodeId>,
    candidate_term: u64,
    candidate_id: NodeId,
    last_log_index: usize,
    last_log_term: u64,
)
    ensures
        ({
            let r = request_vote_outcome(
                current_term,
                log,
                voted_for,
                candidate_term,
                candidate_id,
                last_log_index,
                last_log_term,
            );
            &&& voted_for is Some ==> {
                &&& r.0 == current_term
                &&& r.1 == voted_for
                &&& r.2 == seq![(candidate_id, MessageView::RequestVoteResponse { term: current_term, success: false })]
            }
            &&& r.2[0].1->RequestVoteResponse_success ==> voted_for is None && r.1 == Some(
                candidate_id,
            )
        }),
{
}

/// Counting a vote keeps the votes distinct and adds the voter to the set.
pub proof fn lemma_vote_add_distinct(votes: Seq<NodeId>, k: NodeId)
    requires
        votes.no_duplicates(),
    ensures
        vote_add(votes, k).no_duplicates(),
        vote_add(votes, k).to_set() == votes.to_set().insert(k),
{
    let r = vote_add(votes, k);
    if !votes.contains(k) {
        assert forall|i: int, j: int| 0 <= i < r.len() && 0 <= j < r.len() && i != j implies r[i]
            != r[j] by {
            if i == votes.len() {
                assert(r[j] == votes[j]);
            } else if j == votes.len() {
                assert(r[i] == votes[i]);
            }
        }
    }
    assert forall|x: NodeId| r.contains(x) <==> (votes.contains(x) || x == k) by {
        if votes.contains(x) {
            let i = choose|i: int| 0 <= i < votes.len() && votes[i] == x;
            assert(r[i] == x);
        }
        if r.contains(x) && x != k {
            let i = choose|i: int| 0 <= i < r.len() && r[i] == x;
            if !votes.contains(k) {
                assert(i < votes.len());
            }
            assert(votes[i] == x);
        }
        if x == k && !votes.contains(k) {
            assert(r[votes.len() as int] == k);
        }
    }
    assert(r.to_set() =~= votes.to_set().insert(k));
}

/// More votes already counted never turn a won election into a continued
/// candidacy: when a granted vote makes a candidate with votes `v1` leader,
/// the same vote makes a candidate with any larger set of votes `v2` the
/// same leader.
pub proof fn lemma_more_votes_keep_the_win(
    current_term: u64,
    peers: Seq<NodeId>,
    log: Seq<LogEntry>,
    from: NodeId,
    v1: Seq<NodeId>,
    v2: Seq<NodeId>,
    sender_term: u64,
)
    requires
        v1.no_duplicates(),
        v2.no_duplicates(),
        v1.to_set().subset_of(v2.to_set()),
        sender_term <= current_term,
    ensures
        ({
            let r1 = vote_response_outcome(current_term, peers, log, from, v1, sender_term, true);
            let r2 = vote_response_outcome(current_term, peers, log, from, v2, sender_term, true);
            r1.1 is Leader ==> r2 == r1
        }),
{
    lemma_vote_add_distinct(v1, from);
    lemma_vote_add_distinct(v2, from);
    let a1 = vote_add(v1, from);
    let a2 = vote_add(v2, from);
    a1.unique_seq_to_set();
    a2.unique_seq_to_set();
    vstd::seq_lib::seq_to_set_is_finite(a2);
    assert(a1.to_set().subset_of(a2.to_set()));
    vstd::set_lib::lemma_len_subset(a1.to_set(), a2.to_set());
}

/// A leader's handling of an append reply never moves its commit index
/// back; and when it moves it forward, the leader is still in its term and
/// the new commit index holds an entry of that term.
pub proof fn lemma_leader_commit_outcome(
    term: u64,
    current_term: u64,
    success: bool,
    confirmed_log_index: Seq<(NodeId, usize)>,
    next_log_index: Seq<(NodeId, usize)>,
    last_log_index: usize,
    commit_index: usize,
    from: NodeId,
    log: Seq<LogEntry>,
    peers: Seq<NodeId>,
)
    ensures
        ({
            let r = append_response_outcome(
                term,
                current_term,
                success,
                confirmed_log_index,
                next_log_index,
                last_log_index,
                commit_index,
                from,
                log,
                peers,
            );
            &&& r.1 >= commit_index
            &&& r.1 != commit_index ==> {
                &&& r.0 == current_term
                &&& r.1 < log.len()
                &&& log[r.1 as int].term == current_term
            }
        }),
{
}

} // verus!
