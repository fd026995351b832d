//! What each handler does, stated directly in terms of its inputs and
//! results rather than through the spec functions that mirror the handlers.
//! Each law pins the handler's outcome down, so a handler and its mirror
//! cannot drift together from what the protocol requires.

use crate::laws::entries_contiguous;
use crate::log_entry::LogEntry;
use crate::model::{
    after_refusal, step_panics, append_entries_outcome, append_response_outcome, client_request_outcome, election_requests,
    heartbeats, merge_entries, request_vote_outcome, start_election_outcome, step,
    vote_response_outcome, NodeView,
};
use crate::node_state::{keys_unique, table_get, table_has, StateView};
use crate::log_entry::Command;
use crate::node_id::NodeId;
use crate::raft_message::MessageView;
use vstd::prelude::*;

verus! {

// ---------------------------------------------------------------------------
// Appending on the follower's side
// ---------------------------------------------------------------------------

/// The `k`-th new entry conflicts with the entry the log holds at its
/// position: same position, another term.
pub open spec fn conflict_at(log: Seq<LogEntry>, prev_log_index: usize, entries: Seq<LogEntry>, k: int) -> bool {
    &&& 0 <= k < entries.len()
    &&& prev_log_index + k < log.len()
    &&& log[prev_log_index + k].term != entries[k].term
}

/// The `k`-th new entry is the first that conflicts.
pub open spec fn first_conflict(log: Seq<LogEntry>, prev_log_index: usize, entries: Seq<LogEntry>, k: int) -> bool {
    &&& conflict_at(log, prev_log_index, entries, k)
    &&& forall|q: int| 0 <= q < k ==> !#[trigger] conflict_at(log, prev_log_index, entries, q)
}

/// None of the new entries conflicts.
pub open spec fn no_conflict(log: Seq<LogEntry>, prev_log_index: usize, entries: Seq<LogEntry>) -> bool {
    forall|q: int| 0 <= q < entries.len() ==> !#[trigger] conflict_at(log, prev_log_index, entries, q)
}

proof fn lemma_merge_shape(log: Seq<LogEntry>, prev_log_index: usize, entries: Seq<LogEntry>, j: int)
    requires
        log.len() >= prev_log_index,
        entries_contiguous(prev_log_index, entries),
        0 <= j <= entries.len(),
    ensures
        ({
            let r = merge_entries(log, entries.take(j));
            (forall|q: int| 0 <= q < j ==> !#[trigger] conflict_at(log, prev_log_index, entries, q))
                ==> {
                &&& r.len() == (if log.len() >= prev_log_index + j {
                    log.len() as int
                } else {
                    prev_log_index + j
                })
                &&& forall|i: int| 0 <= i < log.len() ==> #[trigger] r[i] == log[i]
                &&& forall|i: int|
                    0 <= i < j && log.len() <= prev_log_index + i ==> #[trigger] r[prev_log_index
                        + i] == entries[i]
            }
        }),
        ({
            let r = merge_entries(log, entries.take(j));
            forall|k: int|
                0 <= k < j && #[trigger] first_conflict(log, prev_log_index, entries, k) ==> {
                    &&& r.len() == prev_log_index + j
                    &&& forall|i: int| 0 <= i < prev_log_index + k ==> #[trigger] r[i] == log[i]
                    &&& forall|i: int| k <= i < j ==> #[trigger] r[prev_log_index + i] == entries[i]
                }
        }),
    decreases j,
{
    if j == 0 {
        assert(entries.take(0) =~= Seq::<LogEntry>::empty());
    } else {
        lemma_merge_shape(log, prev_log_index, entries, j - 1);
        let before = merge_entries(log, entries.take(j - 1));
        assert(entries.take(j).drop_last() =~= entries.take(j - 1));
        let e = entries[j - 1];
        assert(entries.take(j).last() == e);
        assert(e.index == prev_log_index + j - 1);
        let r = merge_entries(log, entries.take(j));
        assert(r == crate::model::merge_entry(before, e));
        let p = prev_log_index + j - 1;
        if forall|q: int| 0 <= q < j - 1 ==> !#[trigger] conflict_at(log, prev_log_index, entries, q) {
            if p < log.len() {
                assert(before[p] == log[p]);
                if log[p].term != e.term {
                    assert(conflict_at(log, prev_log_index, entries, j - 1));
                    assert(first_conflict(log, prev_log_index, entries, j - 1));
                    assert forall|k: int|
                        0 <= k < j && #[trigger] first_conflict(log, prev_log_index, entries, k)
                        implies k == j - 1 by {
                        if k < j - 1 {
                            assert(!conflict_at(log, prev_log_index, entries, k));
                        }
                    }
                    assert forall|i: int| 0 <= i < prev_log_index + (j - 1) implies #[trigger] r[i]
                        == log[i] by {
                        assert(r[i] == before[i]);
                    }
                } else {
                    assert(!conflict_at(log, prev_log_index, entries, j - 1));
                    assert forall|i: int|
                        0 <= i < j && log.len() <= prev_log_index + i implies #[trigger] r[prev_log_index
                            + i] == entries[i] by {
                        assert(i < j - 1);
                    }
                    assert forall|k: int|
                        0 <= k < j && #[trigger] first_conflict(log, prev_log_index, entries, k)
                        implies false by {
                        if k < j - 1 {
                            assert(!conflict_at(log, prev_log_index, entries, k));
                        }
                    }
                }
            } else {
                assert(!conflict_at(log, prev_log_index, entries, j - 1));
                assert(before.len() == p);
                assert forall|i: int| 0 <= i < log.len() implies #[trigger] r[i] == log[i] by {
                    assert(r[i] == before[i]);
                }
                assert forall|i: int|
                    0 <= i < j && log.len() <= prev_log_index + i implies #[trigger] r[prev_log_index
                        + i] == entries[i] by {
                    if i < j - 1 {
                        assert(r[prev_log_index + i] == before[prev_log_index + i]);
                    }
                }
                assert forall|k: int|
                    0 <= k < j && #[trigger] first_conflict(log, prev_log_index, entries, k)
                    implies false by {
                    if k < j - 1 {
                        assert(!conflict_at(log, prev_log_index, entries, k));
                    }
                }
            }
        } else {
            let k0 = choose|q: int| 0 <= q < j - 1 && conflict_at(log, prev_log_index, entries, q);
            assert(conflict_at(log, prev_log_index, entries, k0));
            // a conflict among the first j - 1 has a first one
            let kf = lemma_first_conflict_exists(log, prev_log_index, entries, k0);
            assert(first_conflict(log, prev_log_index, entries, kf));
            assert(before.len() == prev_log_index + (j - 1));
            assert forall|k: int|
                0 <= k < j && #[trigger] first_conflict(log, prev_log_index, entries, k) implies {
                &&& r.len() == prev_log_index + j
                &&& forall|i: int| 0 <= i < prev_log_index + k ==> #[trigger] r[i] == log[i]
                &&& forall|i: int| k <= i < j ==> #[trigger] r[prev_log_index + i] == entries[i]
            } by {
                if k >= j - 1 {
                    assert(!conflict_at(log, prev_log_index, entries, kf));
                }
                assert(k < j - 1);
                assert forall|i: int| 0 <= i < prev_log_index + k implies #[trigger] r[i] == log[i] by {
                    assert(r[i] == before[i]);
                }
                assert forall|i: int| k <= i < j implies #[trigger] r[prev_log_index + i]
                    == entries[i] by {
                    if i < j - 1 {
                        assert(r[prev_log_index + i] == before[prev_log_index + i]);
                    }
                }
            }
        }
    }
}

proof fn lemma_first_conflict_exists(
    log: Seq<LogEntry>,
    prev_log_index: usize,
    entries: Seq<LogEntry>,
    k: int,
) -> (f: int)
    requires
        conflict_at(log, prev_log_index, entries, k),
    ensures
        0 <= f <= k,
        first_conflict(log, prev_log_index, entries, f),
    decreases k,
{
    if exists|q: int| 0 <= q < k && conflict_at(log, prev_log_index, entries, q) {
        let q = choose|q: int| 0 <= q < k && conflict_at(log, prev_log_index, entries, q);
        lemma_first_conflict_exists(log, prev_log_index, entries, q)
    } else {
        k
    }
}

/// A follower's handling of an append request:
/// - from an older term it is refused with the follower's term, and nothing
///   changes;
/// - otherwise the follower takes the request's term and its leader, and
///   answers the sender alone;
/// - when the log lacks an entry at `prev_log_index` (counted from 1) of
///   `prev_log_term`, it is refused and the log and commit index stay;
/// - else it succeeds, reporting the position of the new last entry; the
///   commit index becomes the smaller of the leader's and that position when
///   the leader's is higher, and stays otherwise; and, for entries that
///   follow one another from `prev_log_index`, the log keeps everything
///   before the first entry that conflicts (same position, other term),
///   holds the new entries from there on, and nothing after the last new
///   one survives; with no conflict, the old entries all stay and the new
///   ones past the old end are added.
pub proof fn law_follower_append(
    current_term: u64,
    log: Seq<LogEntry>,
    commit_index: usize,
    current_leader: Option<NodeId>,
    from: NodeId,
    source_term: u64,
    leader_id: NodeId,
    prev_log_index: usize,
    prev_log_term: u64,
    leader_commit: usize,
    entries: Seq<LogEntry>,
)
    ensures
        ({
            let r = append_entries_outcome(
                current_term,
                log,
                commit_index,
                current_leader,
                from,
                source_term,
                leader_id,
                prev_log_index,
                prev_log_term,
                leader_commit,
                entries,
            );
            let accepted = source_term >= current_term && (prev_log_index == 0 || (prev_log_index
                <= log.len() && log[prev_log_index - 1].term == prev_log_term));
            let new_log = r.1;
            let last: usize = if new_log.len() == 0 {
                0
            } else {
                (new_log.len() - 1) as usize
            };
            &&& source_term < current_term ==> r == (
                current_term,
                log,
                commit_index,
                current_leader,
                seq![(from, MessageView::AppendEntriesResponse { term: current_term, success: false, last_log_index: (log.len() - 1) as usize })],
            )
            &&& source_term >= current_term ==> {
                &&& r.0 == source_term
                &&& r.3 == Some(leader_id)
                &&& r.4.len() == 1
                &&& r.4[0].0 == from
            }
            &&& source_term >= current_term && !accepted ==> {
                &&& new_log == log
                &&& r.2 == commit_index
                &&& r.4[0].1 == MessageView::AppendEntriesResponse {
                    term: source_term,
                    success: false,
                    last_log_index: (log.len() - 1) as usize,
                }
            }
            &&& accepted ==> {
                &&& r.4[0].1 == MessageView::AppendEntriesResponse {
                    term: source_term,
                    success: true,
                    last_log_index: (new_log.len() - 1) as usize,
                }
                &&& leader_commit > commit_index ==> r.2 == (if leader_commit <= last {
                    leader_commit
                } else {
                    last
                })
                &&& leader_commit <= commit_index ==> r.2 == commit_index
                &&& entries_contiguous(prev_log_index, entries) && no_conflict(
                    log,
                    prev_log_index,
                    entries,
                ) ==> {
                    &&& new_log.len() == (if log.len() >= prev_log_index + entries.len() {
                        log.len() as int
                    } else {
                        prev_log_index + entries.len()
                    })
                    &&& forall|i: int| 0 <= i < log.len() ==> #[trigger] new_log[i] == log[i]
                    &&& forall|i: int|
                        0 <= i < entries.len() && log.len() <= prev_log_index + i
                            ==> #[trigger] new_log[prev_log_index + i] == entries[i]
                }
                &&& forall|k: int|
                    entries_contiguous(prev_log_index, entries) && #[trigger] first_conflict(
                        log,
                        prev_log_index,
                        entries,
                        k,
                    ) ==> {
                        &&& new_log.len() == prev_log_index + entries.len()
                        &&& forall|i: int| 0 <= i < prev_log_index + k ==> #[trigger] new_log[i] == log[i]
                        &&& forall|i: int|
                            k <= i < entries.len() ==> #[trigger] new_log[prev_log_index + i]
                                == entries[i]
                    }
            }
        }),
{
    let accepted = source_term >= current_term && (prev_log_index == 0 || (prev_log_index
        <= log.len() && log[prev_log_index - 1].term == prev_log_term));
    if accepted && entries_contiguous(prev_log_index, entries) {
        lemma_merge_shape(log, prev_log_index, entries, entries.len() as int);
        assert(entries.take(entries.len() as int) =~= entries);
    }
}

// ---------------------------------------------------------------------------
// Voting
// ---------------------------------------------------------------------------

/// A follower grants its vote exactly when the candidate's term is not
/// behind its own, it has not voted, and its log is empty or its last entry
/// has an older term than the candidate's last term or a smaller index than
/// the candidate's last index.  Granting takes the candidate's term, records
/// the vote and says yes in that term; refusing changes nothing and says no
/// in the follower's term.  Either way the candidate alone is answered.
pub proof fn law_request_vote(
    current_term: u64,
    log: Seq<LogEntry>,
    voted_for: Option<NodeId>,
    candidate_term: u64,
    candidate_id: NodeId,
    last_log_index: usize,
    last_log_term: u64,
)
    ensures
        ({
            let r = request_vote_outcome(
                current_term,
                log,
                voted_for,
                candidate_term,
                candidate_id,
                last_log_index,
                last_log_term,
            );
            let candidate_ahead = log.len() == 0 || log[log.len() - 1].term < last_log_term
                || log[log.len() - 1].index < last_log_index;
            let grant = current_term <= candidate_term && voted_for is None && candidate_ahead;
            &&& grant ==> r == (
                candidate_term,
                Some(candidate_id),
                seq![(candidate_id, MessageView::RequestVoteResponse { term: candidate_term, success: true })],
            )
            &&& !grant ==> r == (
                current_term,
                voted_for,
                seq![(candidate_id, MessageView::RequestVoteResponse { term: current_term, success: false })],
            )
        }),
{
}

/// A candidate's handling of a vote reply:
/// - a reply from a later term makes it a follower of that term that knows
///   no leader and has not voted;
/// - a refusal changes nothing;
/// - a granted vote adds the sender to the voters (once, keeping the earlier
///   voters in order); the candidate becomes leader exactly when its voters
///   and itself are more than half of the cluster of `peers.len() + 1`
///   nodes, and a new leader keeps, for exactly the peers, the length of its
///   log as the next index and 0 as the confirmed index.
/// No message is sent.
pub proof fn law_vote_response(
    current_term: u64,
    peers: Seq<NodeId>,
    log: Seq<LogEntry>,
    from: NodeId,
    votes_received: Seq<NodeId>,
    sender_term: u64,
    success: bool,
)
    requires
        votes_received.no_duplicates(),
    ensures
        ({
            let r = vote_response_outcome(
                current_term,
                peers,
                log,
                from,
                votes_received,
                sender_term,
                success,
            );
            let voters = votes_received.to_set().insert(from);
            &&& r.2.len() == 0
            &&& sender_term > current_term ==> r.0 == sender_term && r.1 == (StateView::Follower {
                current_leader: None,
                voted_for: None,
            })
            &&& sender_term <= current_term ==> r.0 == current_term
            &&& sender_term <= current_term && !success ==> r.1 == (StateView::Candidate {
                votes_received,
            })
            &&& sender_term <= current_term && success ==> {
                &&& (r.1 is Leader) <==> 2 * (voters.len() + 1) > peers.len() + 1
                &&& r.1 is Leader || r.1 is Candidate
                &&& r.1 matches StateView::Candidate { votes_received: v } ==> {
                    &&& v.no_duplicates()
                    &&& v.to_set() == voters
                    &&& v.take(votes_received.len() as int) == votes_received
                }
                &&& r.1 matches StateView::Leader { next_log_index, confirmed_log_index } ==> {
                    &&& keys_unique(next_log_index)
                    &&& keys_unique(confirmed_log_index)
                    &&& forall|p: NodeId| #[trigger] table_has(next_log_index, p) <==> peers.contains(p)
                    &&& forall|p: NodeId| #[trigger] table_has(confirmed_log_index, p) <==> peers.contains(p)
                    &&& forall|p: NodeId|
                        peers.contains(p) ==> #[trigger] table_get(next_log_index, p) == Some(
                            log.len() as usize,
                        )
                    &&& forall|p: NodeId|
                        peers.contains(p) ==> #[trigger] table_get(confirmed_log_index, p) == Some(
                            0usize,
                        )
                }
            }
        }),
{
    let votes = crate::node_state::vote_add(votes_received, from);
    crate::laws::lemma_vote_add_distinct(votes_received, from);
    votes.unique_seq_to_set();
    lemma_initial_table(peers, log.len() as usize);
    lemma_initial_table(peers, 0);
    if !votes_received.contains(from) {
        assert(votes.take(votes_received.len() as int) =~= votes_received);
    }
}

/// The table that records `v` for each of `peers` has no peer twice, has an
/// entry for exactly the peers, and holds `v` for each.
pub proof fn lemma_initial_table(peers: Seq<NodeId>, v: usize)
    ensures
        keys_unique(crate::node_state::initial_table(peers, v)),
        forall|p: NodeId| #[trigger] table_has(crate::node_state::initial_table(peers, v), p)
            <==> peers.contains(p),
        forall|p: NodeId|
            peers.contains(p) ==> #[trigger] table_get(crate::node_state::initial_table(peers, v), p)
                == Some(v),
    decreases peers.len(),
{
    if peers.len() > 0 {
        let init = peers.drop_last();
        lemma_initial_table(init, v);
        let t0 = crate::node_state::initial_table(init, v);
        let last = peers.last();
        crate::node_state::lemma_table_insert(t0, last, v);
        let t = crate::node_state::initial_table(peers, v);
        assert forall|p: NodeId| #[trigger] table_has(t, p) <==> peers.contains(p) by {
            if p == last {
                assert(peers[peers.len() - 1] == p);
            } else {
                assert(table_get(t, p) == table_get(t0, p));
                if peers.contains(p) {
                    let i = choose|i: int| 0 <= i < peers.len() && peers[i] == p;
                    assert(init[i] == p);
                }
                if init.contains(p) {
                    let i = choose|i: int| 0 <= i < init.len() && init[i] == p;
                    assert(peers[i] == p);
                }
            }
        }
        assert forall|p: NodeId| peers.contains(p) implies #[trigger] table_get(t, p) == Some(v) by {
            if p != last {
                assert(table_get(t, p) == table_get(t0, p));
                let i = choose|i: int| 0 <= i < peers.len() && peers[i] == p;
                assert(init[i] == p);
            }
        }
    }
}

// ---------------------------------------------------------------------------
// Replication on the leader's side
// ---------------------------------------------------------------------------

/// How many peers the table records as having confirmed at least `c`.
pub open spec fn peers_confirming(t: Seq<(NodeId, usize)>, c: usize) -> nat
    decreases t.len(),
{
    if t.len() == 0 {
        0
    } else {
        peers_confirming(t.drop_last(), c) + (if t.last().1 >= c {
            1nat
        } else {
            0nat
        })
    }
}

/// The leader's own last position: `len - 1`, or 0 for an empty log.
pub open spec fn own_last_position(log: Seq<LogEntry>) -> usize {
    if log.len() == 0 {
        0
    } else {
        (log.len() - 1) as usize
    }
}

/// How many members of the cluster hold position `c`: each peer whose
/// confirmed index reaches it, and the leader once if its log does.
pub open spec fn holders(t: Seq<(NodeId, usize)>, log: Seq<LogEntry>, c: usize) -> nat {
    peers_confirming(t, c) + (if own_last_position(log) >= c {
        1nat
    } else {
        0nat
    })
}

/// `v` is a position some member reports: a peer's confirmed index or the
/// leader's own last position.
pub open spec fn reported(t: Seq<(NodeId, usize)>, log: Seq<LogEntry>, v: usize) -> bool {
    v == own_last_position(log) || exists|i: int| 0 <= i < t.len() && #[trigger] t[i].1 == v
}

/// `h` is the highest reported position that at least `k` members hold.
pub open spec fn highest_held_by(t: Seq<(NodeId, usize)>, log: Seq<LogEntry>, k: nat, h: usize) -> bool {
    &&& reported(t, log, h)
    &&& holders(t, log, h) >= k
    &&& forall|v: usize| reported(t, log, v) && holders(t, log, v) >= k ==> v <= h
}

proof fn lemma_counts_agree(t: Seq<(NodeId, usize)>, c: usize)
    ensures
        crate::quorum::count_at_least(crate::node_state::table_values(t), c) == peers_confirming(t, c),
        peers_confirming(t, c) <= t.len(),
    decreases t.len(),
{
    if t.len() > 0 {
        lemma_counts_agree(t.drop_last(), c);
        assert(crate::node_state::table_values(t).drop_last() =~= crate::node_state::table_values(
            t.drop_last(),
        ));
    }
}

proof fn lemma_indices_describe_members(t: Seq<(NodeId, usize)>, log: Seq<LogEntry>)
    ensures
        forall|c: usize|
            #[trigger] crate::quorum::count_at_least(
                crate::model::replicated_indices(t, log),
                c,
            ) == holders(t, log, c),
        forall|v: usize|
            #[trigger] crate::model::replicated_indices(t, log).contains(v) <==> reported(t, log, v),
        crate::model::replicated_indices(t, log).len() == t.len() + 1,
{
    let s = crate::model::replicated_indices(t, log);
    assert forall|c: usize| #[trigger] crate::quorum::count_at_least(s, c) == holders(t, log, c) by {
        lemma_counts_agree(t, c);
        assert(s.drop_last() =~= crate::node_state::table_values(t));
    }
    assert forall|v: usize| #[trigger] s.contains(v) <==> reported(t, log, v) by {
        if s.contains(v) {
            let i = choose|i: int| 0 <= i < s.len() && s[i] == v;
            if i < t.len() {
                assert(t[i].1 == v);
            }
        }
        if reported(t, log, v) {
            if v == own_last_position(log) {
                assert(s[t.len() as int] == v);
            } else {
                let i = choose|i: int| 0 <= i < t.len() && #[trigger] t[i].1 == v;
                assert(s[i] == v);
            }
        }
    }
}

/// A leader's handling of an append reply:
/// - a reply from a later term makes it a follower of that term that knows
///   no leader and has not voted, keeping its commit index;
/// - otherwise it stays leader in its term and sends nothing;
/// - a success records the sender's last index as confirmed and the next
///   one as its next index, leaving every other peer's entries as they were;
///   the commit index then never moves back, and it moves exactly when the
///   highest position that at least `(peers.len() + 2) / 2` members hold
///   (each confirming peer once, the leader once) is beyond it, within the
///   log and of the current term, and then to that position;
/// - a refusal moves the sender's next index back by one (not below 0),
///   leaving everything else as it was.
pub proof fn law_append_response(
    term: u64,
    current_term: u64,
    success: bool,
    confirmed_log_index: Seq<(NodeId, usize)>,
    next_log_index: Seq<(NodeId, usize)>,
    last_log_index: usize,
    commit_index: usize,
    from: NodeId,
    log: Seq<LogEntry>,
    peers: Seq<NodeId>,
)
    requires
        keys_unique(confirmed_log_index),
        keys_unique(next_log_index),
        success ==> last_log_index < usize::MAX,
        !success ==> table_has(next_log_index, from),
    ensures
        ({
            let r = append_response_outcome(
                term,
                current_term,
                success,
                confirmed_log_index,
                next_log_index,
                last_log_index,
                commit_index,
                from,
                log,
                peers,
            );
            let quorum = ((peers.len() + 2) / 2) as nat;
            &&& r.3.len() == 0
            &&& term > current_term ==> r.0 == term && r.1 == commit_index && r.2 == (StateView::Follower {
                current_leader: None,
                voted_for: None,
            })
            &&& term <= current_term ==> r.0 == current_term && r.2 is Leader
            &&& term <= current_term && success ==> {
                let confirmed = r.2->confirmed_log_index;
                let next = r.2->next_log_index;
                &&& keys_unique(confirmed) && keys_unique(next)
                &&& table_get(confirmed, from) == Some(last_log_index)
                &&& table_get(next, from) == Some((last_log_index + 1) as usize)
                &&& forall|p: NodeId| p != from ==> #[trigger] table_get(confirmed, p) == table_get(
                    confirmed_log_index,
                    p,
                )
                &&& forall|p: NodeId| p != from ==> #[trigger] table_get(next, p) == table_get(
                    next_log_index,
                    p,
                )
                &&& r.1 >= commit_index
                &&& r.1 != commit_index ==> {
                    &&& highest_held_by(confirmed, log, quorum, r.1)
                    &&& r.1 < log.len()
                    &&& log[r.1 as int].term == current_term
                }
                &&& r.1 == commit_index ==> forall|h: usize|
                    #[trigger] highest_held_by(confirmed, log, quorum, h) ==> !(h > commit_index
                        && h < log.len() && log[h as int].term == current_term)
            }
            &&& term <= current_term && !success ==> {
                let old_next = table_get(next_log_index, from)->0;
                &&& r.1 == commit_index
                &&& r.2->confirmed_log_index == confirmed_log_index
                &&& keys_unique(r.2->next_log_index)
                &&& table_get(r.2->next_log_index, from) == Some(
                    if old_next == 0 {
                        0usize
                    } else {
                        (old_next - 1) as usize
                    },
                )
                &&& forall|p: NodeId|
                    p != from ==> #[trigger] table_get(r.2->next_log_index, p) == table_get(
                        next_log_index,
                        p,
                    )
            }
        }),
{
    crate::node_state::lemma_table_insert(confirmed_log_index, from, last_log_index);
    crate::node_state::lemma_table_insert(next_log_index, from, (last_log_index + 1) as usize);
    if term <= current_term && !success {
        let old_next = table_get(next_log_index, from)->0;
        crate::node_state::lemma_table_insert(
            next_log_index,
            from,
            if old_next == 0 {
                0usize
            } else {
                (old_next - 1) as usize
            },
        );
    }
    if term <= current_term && success {
        let confirmed = crate::node_state::table_insert(confirmed_log_index, from, last_log_index);
        let s = crate::model::replicated_indices(confirmed, log);
        let k = crate::model::replication_quorum(peers.len());
        lemma_indices_describe_members(confirmed, log);
        assert(k == ((peers.len() + 2) / 2) as nat);
        if k <= s.len() {
            crate::quorum::lemma_quorum_index(s, k);
            let q = crate::quorum::quorum_index(s, k);
            assert(highest_held_by(confirmed, log, k, q)) by {
                assert(s.contains(q));
                assert(crate::quorum::count_at_least(s, q) == holders(confirmed, log, q));
                assert forall|v: usize|
                    reported(confirmed, log, v) && holders(confirmed, log, v) >= k implies v <= q by {
                    assert(s.contains(v));
                    assert(crate::quorum::count_at_least(s, v) == holders(confirmed, log, v));
                }
            }
            assert forall|h: usize| #[trigger] highest_held_by(confirmed, log, k, h) implies h == q by {
                assert(reported(confirmed, log, q) && holders(confirmed, log, q) >= k);
            }
        } else {
            assert forall|h: usize| #[trigger] highest_held_by(confirmed, log, k, h) implies false by {
                lemma_counts_agree(confirmed, h);
            }
        }
    }
}

/// A leader's handling of a client's command: the log grows by exactly one
/// entry, which carries the command, the log's old length as its index and
/// the term of the old last entry (0 for an empty log); and each peer, in
/// order, gets one append request from this leader (its own id as leader),
/// in its current term, with its commit index, naming the old last entry
/// (its index and term, or 0 and 0) as the previous one and carrying just
/// the new entry.
pub proof fn law_client_request(
    node_id: NodeId,
    peers: Seq<NodeId>,
    current_term: u64,
    log: Seq<LogEntry>,
    command: Command,
    commit_index: usize,
)
    ensures
        ({
            let r = client_request_outcome(node_id, peers, current_term, log, command, commit_index);
            let prev_index: usize = if log.len() == 0 {
                0
            } else {
                log[log.len() - 1].index
            };
            let prev_term: u64 = if log.len() == 0 {
                0
            } else {
                log[log.len() - 1].term
            };
            let e = LogEntry { term: prev_term, index: log.len() as usize, command };
            &&& r.0.len() == log.len() + 1
            &&& r.0.take(log.len() as int) == log
            &&& r.0[log.len() as int] == e
            &&& r.1.len() == peers.len()
            &&& forall|i: int|
                0 <= i < peers.len() ==> #[trigger] r.1[i] == (
                    peers[i],
                    MessageView::AppendEntries {
                        leader_id: node_id,
                        prev_log_index: prev_index,
                        term: current_term,
                        prev_log_term: prev_term,
                        leader_commit: commit_index,
                        entries: seq![e],
                    },
                )
        }),
{
    let r = client_request_outcome(node_id, peers, current_term, log, command, commit_index);
    assert(r.0.take(log.len() as int) =~= log);
}

// ---------------------------------------------------------------------------
// Elections and heartbeats
// ---------------------------------------------------------------------------

/// Standing for election moves to the next term as a candidate with no
/// votes, keeping everything else; the node asks each peer, in order, for
/// its vote in the new term, naming itself and its last entry's index and
/// term (0 and 0 for an empty log).
pub proof fn law_start_election(n: NodeView)
    requires
        n.current_term < u64::MAX,
    ensures
        ({
            let n2 = start_election_outcome(n);
            let out = election_requests(n2);
            &&& n2.current_term == n.current_term + 1
            &&& n2.state == (StateView::Candidate { votes_received: Seq::empty() })
            &&& n2.node_id == n.node_id && n2.log == n.log && n2.peers == n.peers
            &&& n2.commit_index == n.commit_index && n2.last_applied == n.last_applied
            &&& out.len() == n.peers.len()
            &&& forall|i: int|
                0 <= i < n.peers.len() ==> #[trigger] out[i] == (
                    n.peers[i],
                    MessageView::RequestVote {
                        term: (n.current_term + 1) as u64,
                        candidate_id: n.node_id,
                        last_log_index: if n.log.len() == 0 {
                            0
                        } else {
                            n.log[n.log.len() - 1].index
                        },
                        last_log_term: if n.log.len() == 0 {
                            0
                        } else {
                            n.log[n.log.len() - 1].term
                        },
                    },
                )
        }),
{
}

/// A leader sends each peer, in order, an empty append request from itself
/// in its term with its commit index, naming its last entry (by its
/// position counted from 1, i.e. the log's length, and its term, 0 for an
/// empty log) as the previous one; any other role sends nothing.
pub proof fn law_heartbeats(n: NodeView)
    ensures
        ({
            let out = heartbeats(n);
            &&& !(n.state is Leader) ==> out.len() == 0
            &&& n.state is Leader ==> {
                &&& out.len() == n.peers.len()
                &&& forall|i: int|
                    0 <= i < n.peers.len() ==> #[trigger] out[i] == (
                        n.peers[i],
                        MessageView::AppendEntries {
                            leader_id: n.node_id,
                            prev_log_index: n.log.len() as usize,
                            term: n.current_term,
                            prev_log_term: if n.log.len() == 0 {
                                0
                            } else {
                                n.log[n.log.len() - 1].term
                            },
                            leader_commit: n.commit_index,
                            entries: Seq::empty(),
                        },
                    )
            }
        }),
{
}

// ---------------------------------------------------------------------------
// Which role handles which message
// ---------------------------------------------------------------------------

/// A follower handles vote and append requests, a candidate vote replies
/// and append requests, a leader append replies and client requests; every
/// other pairing is refused.  Handling never changes the node's identity,
/// its peers or what it has applied; a follower answering a vote request
/// keeps the leader it knows, and a node handling an append request comes
/// out a follower.
pub proof fn law_step_roles(n: NodeView, from: NodeId, msg: MessageView)
    ensures
        step(n, from, msg) is Some <==> (n.state is Follower && (msg is AppendEntries
            || msg is RequestVote)) || (n.state is Candidate && (msg is RequestVoteResponse
            || msg is AppendEntries)) || (n.state is Leader && (msg is AppendEntriesResponse
            || msg is ClientRequest)),
        step(n, from, msg) is Some ==> {
            let n2 = (step(n, from, msg)->0).0;
            &&& n2.node_id == n.node_id
            &&& n2.peers == n.peers
            &&& n2.last_applied == n.last_applied
            &&& msg is AppendEntries ==> n2.state is Follower
            &&& n.state is Follower && msg is RequestVote ==> n2.state is Follower
                && n2.state->current_leader == n.state->current_leader
            &&& n.state is Leader && msg is ClientRequest ==> n2.state == n.state
                && n2.current_term == n.current_term && n2.commit_index == n.commit_index
        },
{
}

/// What a step hands to each handler and takes back from it:
/// - a follower's append request goes to the append handler with the leader
///   it knew, and it keeps its vote; a candidate's goes there knowing no
///   leader, and it comes out having voted for nobody;
/// - a follower's vote request goes to the vote handler with its vote, and
///   it keeps the leader it knew;
/// - a candidate's vote reply goes to the reply handler with its votes;
/// - a leader's append reply goes to the reply handler with its tables;
/// - a leader's client request goes to the client handler, the leader's
///   role, term and commit index staying as they were.
pub proof fn law_step_dispatch(n: NodeView, from: NodeId, msg: MessageView)
    ensures
        (n.state is Follower || n.state is Candidate) && msg is AppendEntries ==> {
            let (n2, out) = step(n, from, msg)->0;
            let known = if n.state is Follower {
                n.state->current_leader
            } else {
                None
            };
            let vote = if n.state is Follower {
                n.state->voted_for
            } else {
                None
            };
            let r = append_entries_outcome(
                n.current_term,
                n.log,
                n.commit_index,
                known,
                from,
                msg->AppendEntries_term,
                msg->leader_id,
                msg->prev_log_index,
                msg->prev_log_term,
                msg->leader_commit,
                msg->entries,
            );
            &&& n2.current_term == r.0 && n2.log == r.1 && n2.commit_index == r.2
            &&& n2.state == (StateView::Follower { current_leader: r.3, voted_for: vote })
            &&& out == r.4
        },
        n.state is Follower && msg is RequestVote ==> {
            let (n2, out) = step(n, from, msg)->0;
            let r = request_vote_outcome(
                n.current_term,
                n.log,
                n.state->voted_for,
                msg->RequestVote_term,
                msg->candidate_id,
                msg->RequestVote_last_log_index,
                msg->last_log_term,
            );
            &&& n2.current_term == r.0 && n2.log == n.log && n2.commit_index == n.commit_index
            &&& n2.state == (StateView::Follower {
                current_leader: n.state->current_leader,
                voted_for: r.1,
            })
            &&& out == r.2
        },
        n.state is Candidate && msg is RequestVoteResponse ==> {
            let (n2, out) = step(n, from, msg)->0;
            let r = vote_response_outcome(
                n.current_term,
                n.peers,
                n.log,
                from,
                n.state->votes_received,
                msg->RequestVoteResponse_term,
                msg->RequestVoteResponse_success,
            );
            &&& n2.current_term == r.0 && n2.log == n.log && n2.commit_index == n.commit_index
            &&& n2.state == r.1
            &&& out == r.2
        },
        n.state is Leader && msg is AppendEntriesResponse ==> {
            let (n2, out) = step(n, from, msg)->0;
            let r = append_response_outcome(
                msg->AppendEntriesResponse_term,
                n.current_term,
                msg->AppendEntriesResponse_success,
                n.state->confirmed_log_index,
                n.state->next_log_index,
                msg->AppendEntriesResponse_last_log_index,
                n.commit_index,
                from,
                n.log,
                n.peers,
            );
            &&& n2.current_term == r.0 && n2.log == n.log && n2.commit_index == r.1
            &&& n2.state == r.2
            &&& out == r.3
        },
        n.state is Leader && msg is ClientRequest ==> {
            let (n2, out) = step(n, from, msg)->0;
            let r = client_request_outcome(
                n.node_id,
                n.peers,
                n.current_term,
                n.log,
                msg->command,
                n.commit_index,
            );
            &&& n2.log == r.0 && out == r.1
            &&& n2.state == n.state && n2.current_term == n.current_term
            &&& n2.commit_index == n.commit_index
        },
{
}

/// A refused message leaves the node a follower that knows no leader and
/// has not voted, with everything else as it was.
pub proof fn law_refusal(n: NodeView)
    ensures
        after_refusal(n).state == (StateView::Follower { current_leader: None, voted_for: None }),
        after_refusal(n).node_id == n.node_id,
        after_refusal(n).current_term == n.current_term,
        after_refusal(n).log == n.log,
        after_refusal(n).peers == n.peers,
        after_refusal(n).commit_index == n.commit_index,
        after_refusal(n).last_applied == n.last_applied,
{
}

/// Handling a message panics exactly on these inputs: an append request to
/// a follower or candidate with an empty log that is from an older term,
/// names a previous entry, or carries no entries (its reply would report
/// `len - 1` of the empty log); or an append reply to a leader, not from a
/// later term, that is a success reporting the largest index, or a refusal
/// from a peer the leader keeps no next index for.
pub proof fn law_panics(n: NodeView, from: NodeId, msg: MessageView)
    ensures
        step_panics(n, from, msg) <==> {
            ||| (n.state is Follower || n.state is Candidate) && msg is AppendEntries && n.log.len()
                == 0 && (msg->AppendEntries_term < n.current_term || msg->prev_log_index > 0
                || msg->entries.len() == 0)
            ||| n.state is Leader && msg is AppendEntriesResponse && msg->AppendEntriesResponse_term
                <= n.current_term && ((msg->AppendEntriesResponse_success
                && msg->AppendEntriesResponse_last_log_index == usize::MAX) || (
            !msg->AppendEntriesResponse_success && !table_has(n.state->next_log_index, from)))
        },
{
}

} // verus!
