use dist_1::envelope::Envelope;
use dist_1::log_entry::{Command, LogEntry};
use dist_1::node::{Node, NodeError};
use dist_1::node_id::NodeId;
use dist_1::node_state::NodeState;
use dist_1::quorum::{count_at_least_exec, quorum_index_exec};
use dist_1::raft_message::RaftMessage;
use dist_1::runner::{runner_step, NodeRunnerError, RunnerEvent};
use std::collections::HashSet;
use uuid::Uuid;

fn id(n: u128) -> NodeId {
    NodeId::from_uuid(n)
}

fn entry(term: u64, index: usize) -> LogEntry {
    LogEntry::new(
        term,
        index,
        Command::Put {
            key: format!("k{}", index),
            value: "v".to_string(),
        },
    )
}

fn follower() -> NodeState {
    NodeState::Follower {
        current_leader: None,
        voted_for: None,
    }
}

fn leader_of(peers: &[NodeId], next: usize) -> NodeState {
    NodeState::Leader {
        next_log_index: peers.iter().map(|p| (*p, next)).collect(),
        confirmed_log_index: peers.iter().map(|p| (*p, 0)).collect(),
    }
}

fn envelope(from: NodeId, to: NodeId, message: RaftMessage) -> Envelope {
    Envelope { from, to, message }
}

fn append_reply(term: u64, success: bool, last_log_index: usize) -> RaftMessage {
    RaftMessage::AppendEntriesResponse {
        term,
        success,
        last_log_index,
    }
}

#[test]
fn node_id_parses_hyphenated_uuid() {
    let parsed = NodeId::new("67e55044-10b1-426f-9247-bb680e5fe0c8").expect("valid uuid");
    assert_eq!(parsed, NodeId::from_uuid(0x67e5504410b1426f9247bb680e5fe0c8));
}

#[test]
fn node_id_parses_simple_uuid() {
    let parsed = NodeId::new("67e5504410b1426f9247bb680e5fe0c8").expect("valid uuid");
    assert_eq!(parsed, NodeId::from_uuid(0x67e5504410b1426f9247bb680e5fe0c8));
}

#[test]
fn node_id_rejects_malformed_text() {
    assert!(NodeId::new("not-a-uuid").is_err());
    assert!(NodeId::new("").is_err());
    assert!(NodeId::new("67e55044-10b1-426f-9247-bb680e5fe0cz").is_err());
}

#[test]
fn node_id_from_parse_result_wraps_the_parser_error() {
    let err = Uuid::try_parse("bad").unwrap_err();
    let wrapped = NodeId::from_parse_result(Err(err.clone())).unwrap_err();
    assert_eq!(wrapped.source(), &err);
    let ok = NodeId::from_parse_result(Ok(7)).unwrap();
    assert_eq!(ok, NodeId::from_uuid(7));
}

#[test]
fn fresh_nodes_start_as_followers_with_distinct_ids() {
    let a = Node::new();
    let b = Node::new();
    assert_ne!(a.id(), b.id());
    assert_eq!(a.current_term(), 0);
    assert!(a.log().is_empty());
    assert_eq!(a.commit_index(), 0);
    assert!(matches!(
        a.state(),
        NodeState::Follower {
            current_leader: None,
            voted_for: None
        }
    ));
}

#[test]
fn with_id_keeps_the_given_identity() {
    let n = Node::with_id(id(42));
    assert_eq!(n.id(), &id(42));
    assert_eq!(n.node_id(), &id(42));
}

#[test]
fn start_election_moves_to_next_term_and_asks_every_peer() {
    let peers = vec![id(2), id(3)];
    let mut n = Node::from_parts(id(1), 4, vec![entry(3, 0)], peers.clone(), follower(), 0);
    let out = n.start_election();
    assert_eq!(n.current_term(), 5);
    match n.state() {
        NodeState::Candidate { votes_received } => assert!(votes_received.is_empty()),
        _ => panic!("expected Candidate state"),
    }
    assert_eq!(out.len(), 2);
    for (i, (to, msg)) in out.iter().enumerate() {
        assert_eq!(to, &peers[i]);
        assert!(matches!(
            msg,
            RaftMessage::RequestVote {
                term: 5,
                candidate_id,
                last_log_index: 0,
                last_log_term: 3
            } if *candidate_id == id(1)
        ));
    }
}

#[test]
fn first_election_of_a_fresh_node_is_for_term_one() {
    let mut n = Node::new();
    n.add_peer(id(9));
    let out = n.start_election();
    assert_eq!(out.len(), 1);
    assert!(matches!(out[0].1, RaftMessage::RequestVote { term: 1, .. }));
}

#[test]
fn followers_send_no_heartbeats() {
    let n = Node::from_parts(id(1), 1, vec![], vec![id(2)], follower(), 0);
    assert!(n.send_heartbeats().is_empty());
}

#[test]
fn leader_heartbeats_name_its_last_entry() {
    let peers = vec![id(2), id(3)];
    let n = Node::from_parts(
        id(1),
        3,
        vec![entry(1, 0), entry(3, 1)],
        peers.clone(),
        leader_of(&peers, 2),
        1,
    );
    let out = n.send_heartbeats();
    assert_eq!(out.len(), 2);
    for (i, (to, msg)) in out.iter().enumerate() {
        assert_eq!(to, &peers[i]);
        match msg {
            RaftMessage::AppendEntries {
                leader_id,
                prev_log_index,
                term,
                prev_log_term,
                leader_commit,
                entries,
            } => {
                assert_eq!(*leader_id, id(1));
                assert_eq!(*prev_log_index, 2);
                assert_eq!(*term, 3);
                assert_eq!(*prev_log_term, 3);
                assert_eq!(*leader_commit, 1);
                assert!(entries.is_empty());
            }
            _ => panic!("expected AppendEntries"),
        }
    }
}

#[test]
fn leader_appends_client_command_and_replicates_it() {
    let peers = vec![id(2), id(3)];
    let mut n = Node::from_parts(id(1), 4, vec![entry(3, 0)], peers.clone(), leader_of(&peers, 1), 0);
    let out = n
        .handle_message(envelope(
            id(7),
            id(1),
            RaftMessage::ClientRequest {
                command: Command::Delete {
                    key: "x".to_string(),
                },
            },
        ))
        .expect("leader accepts client requests");
    assert_eq!(n.log().len(), 2);
    // the new entry takes the term of the previous last entry and the log length as index
    assert_eq!(n.log()[1].term, 3);
    assert_eq!(n.log()[1].index, 1);
    assert!(matches!(&n.log()[1].command, Command::Delete { key } if key == "x"));
    assert!(matches!(n.state(), NodeState::Leader { .. }));
    assert_eq!(out.len(), 2);
    for (i, (to, msg)) in out.iter().enumerate() {
        assert_eq!(to, &peers[i]);
        match msg {
            RaftMessage::AppendEntries {
                prev_log_index,
                term,
                prev_log_term,
                entries,
                ..
            } => {
                assert_eq!(*prev_log_index, 0);
                assert_eq!(*term, 4);
                assert_eq!(*prev_log_term, 3);
                assert_eq!(entries.len(), 1);
                assert_eq!(entries[0].index, 1);
            }
            _ => panic!("expected AppendEntries"),
        }
    }
}

#[test]
fn follower_refuses_client_request_and_forgets_its_vote() {
    let state = NodeState::Follower {
        current_leader: Some(id(5)),
        voted_for: Some(id(5)),
    };
    let mut n = Node::from_parts(id(1), 2, vec![], vec![], state, 0);
    let err = n
        .handle_message(envelope(
            id(7),
            id(1),
            RaftMessage::ClientRequest {
                command: Command::Delete {
                    key: "x".to_string(),
                },
            },
        ))
        .unwrap_err();
    match err {
        NodeError::UnexpectedMessage { message } => {
            assert_eq!(message, "invalid command sent for current state")
        }
    }
    assert!(matches!(
        n.state(),
        NodeState::Follower {
            current_leader: None,
            voted_for: None
        }
    ));
    assert_eq!(n.current_term(), 2);
}

#[test]
fn leader_refuses_vote_request_and_steps_down() {
    let peers = vec![id(2)];
    let mut n = Node::from_parts(id(1), 2, vec![], peers.clone(), leader_of(&peers, 0), 0);
    let msg = RaftMessage::RequestVote {
        term: 3,
        candidate_id: id(2),
        last_log_index: 0,
        last_log_term: 0,
    };
    assert!(n.handle_message(envelope(id(2), id(1), msg)).is_err());
    assert!(matches!(n.state(), NodeState::Follower { .. }));
}

#[test]
fn leader_commits_what_a_quorum_confirmed_in_its_term() {
    let peers = vec![id(2), id(3)];
    let log = vec![entry(2, 0), entry(2, 1), entry(2, 2)];
    let mut n = Node::from_parts(id(1), 2, log, peers.clone(), leader_of(&peers, 3), 0);
    let out = n
        .handle_message(envelope(id(2), id(1), append_reply(2, true, 2)))
        .unwrap();
    assert!(out.is_empty());
    assert_eq!(n.commit_index(), 2);
    match n.state() {
        NodeState::Leader {
            next_log_index,
            confirmed_log_index,
        } => {
            assert_eq!(next_log_index, &vec![(id(2), 3), (id(3), 3)]);
            assert_eq!(confirmed_log_index, &vec![(id(2), 2), (id(3), 0)]);
        }
        _ => panic!("expected Leader state"),
    }
}

#[test]
fn leader_does_not_commit_entries_of_an_older_term() {
    let peers = vec![id(2), id(3)];
    let log = vec![entry(1, 0), entry(1, 1), entry(1, 2)];
    let mut n = Node::from_parts(id(1), 2, log, peers.clone(), leader_of(&peers, 3), 0);
    n.handle_message(envelope(id(2), id(1), append_reply(2, true, 2)))
        .unwrap();
    assert_eq!(n.commit_index(), 0);
}

#[test]
fn leader_of_two_commits_what_it_alone_holds() {
    // with one peer the commit quorum is (1 + 2) / 2 = 1 node
    let peers = vec![id(2)];
    let log = vec![entry(1, 0), entry(1, 1)];
    let mut n = Node::from_parts(id(1), 1, log, peers.clone(), leader_of(&peers, 2), 0);
    n.handle_message(envelope(id(2), id(1), append_reply(1, true, 0)))
        .unwrap();
    assert_eq!(n.commit_index(), 1);
}

#[test]
fn refused_append_moves_next_index_back_but_not_below_zero() {
    let peers = vec![id(2), id(3)];
    let state = NodeState::Leader {
        next_log_index: vec![(id(2), 3), (id(3), 0)],
        confirmed_log_index: vec![(id(2), 0), (id(3), 0)],
    };
    let mut n = Node::from_parts(id(1), 2, vec![entry(2, 0)], peers, state, 0);
    n.handle_message(envelope(id(2), id(1), append_reply(2, false, 0)))
        .unwrap();
    n.handle_message(envelope(id(3), id(1), append_reply(2, false, 0)))
        .unwrap();
    match n.state() {
        NodeState::Leader { next_log_index, .. } => {
            assert_eq!(next_log_index, &vec![(id(2), 2), (id(3), 0)]);
        }
        _ => panic!("expected Leader state"),
    }
}

#[test]
fn success_from_an_unknown_peer_adds_it_to_the_tables() {
    let peers = vec![id(2)];
    let mut n = Node::from_parts(id(1), 2, vec![entry(2, 0)], peers.clone(), leader_of(&peers, 1), 0);
    n.handle_message(envelope(id(9), id(1), append_reply(2, true, 0)))
        .unwrap();
    match n.state() {
        NodeState::Leader {
            next_log_index,
            confirmed_log_index,
        } => {
            assert_eq!(next_log_index, &vec![(id(2), 1), (id(9), 1)]);
            assert_eq!(confirmed_log_index, &vec![(id(2), 0), (id(9), 0)]);
        }
        _ => panic!("expected Leader state"),
    }
}

#[test]
fn append_reply_from_a_later_term_demotes_the_leader() {
    let peers = vec![id(2)];
    let mut n = Node::from_parts(id(1), 2, vec![entry(2, 0)], peers.clone(), leader_of(&peers, 1), 0);
    let out = n
        .handle_message(envelope(id(2), id(1), append_reply(5, false, 0)))
        .unwrap();
    assert!(out.is_empty());
    assert_eq!(n.current_term(), 5);
    assert!(matches!(
        n.state(),
        NodeState::Follower {
            current_leader: None,
            voted_for: None
        }
    ));
}

#[test]
fn repeated_vote_is_counted_once() {
    // 5 node cluster: the candidate needs 2 votes besides its own
    let peers = vec![id(2), id(3), id(4), id(5)];
    let state = NodeState::Candidate {
        votes_received: vec![],
    };
    let mut n = Node::from_parts(id(1), 1, vec![], peers, state, 0);
    let vote = || RaftMessage::RequestVoteResponse {
        term: 1,
        success: true,
    };
    n.handle_message(envelope(id(2), id(1), vote())).unwrap();
    n.handle_message(envelope(id(2), id(1), vote())).unwrap();
    match n.state() {
        NodeState::Candidate { votes_received } => assert_eq!(votes_received, &vec![id(2)]),
        _ => panic!("expected Candidate state"),
    }
    n.handle_message(envelope(id(3), id(1), vote())).unwrap();
    match n.state() {
        NodeState::Leader {
            next_log_index,
            confirmed_log_index,
        } => {
            assert_eq!(
                next_log_index,
                &vec![(id(2), 0), (id(3), 0), (id(4), 0), (id(5), 0)]
            );
            assert_eq!(
                confirmed_log_index,
                &vec![(id(2), 0), (id(3), 0), (id(4), 0), (id(5), 0)]
            );
        }
        _ => panic!("expected Leader state"),
    }
}

#[test]
fn candidate_accepting_an_append_becomes_follower_of_the_leader() {
    let state = NodeState::Candidate {
        votes_received: vec![id(3)],
    };
    let mut n = Node::from_parts(id(1), 2, vec![entry(1, 0)], vec![id(2), id(3)], state, 0);
    let msg = RaftMessage::AppendEntries {
        leader_id: id(2),
        prev_log_index: 1,
        term: 3,
        prev_log_term: 1,
        leader_commit: 5,
        entries: vec![entry(3, 1)],
    };
    let out = n.handle_message(envelope(id(2), id(1), msg)).unwrap();
    assert_eq!(n.current_term(), 3);
    assert_eq!(n.log().len(), 2);
    // the leader has committed beyond the log: commit up to the last entry
    assert_eq!(n.commit_index(), 1);
    assert!(matches!(
        n.state(),
        NodeState::Follower {
            current_leader: Some(l),
            voted_for: None
        } if *l == id(2)
    ));
    assert!(matches!(
        out[0].1,
        RaftMessage::AppendEntriesResponse {
            term: 3,
            success: true,
            last_log_index: 1
        }
    ));
}

#[test]
fn follower_votes_once_per_role() {
    let mut n = Node::from_parts(id(1), 0, vec![], vec![], follower(), 0);
    let ask = |who: u128| RaftMessage::RequestVote {
        term: 1,
        candidate_id: id(who),
        last_log_index: 0,
        last_log_term: 0,
    };
    let first = n.handle_message(envelope(id(2), id(1), ask(2))).unwrap();
    assert!(matches!(
        first[0].1,
        RaftMessage::RequestVoteResponse {
            term: 1,
            success: true
        }
    ));
    let second = n.handle_message(envelope(id(3), id(1), ask(3))).unwrap();
    assert_eq!(second[0].0, id(3));
    assert!(matches!(
        second[0].1,
        RaftMessage::RequestVoteResponse {
            term: 1,
            success: false
        }
    ));
    assert!(matches!(
        n.state(),
        NodeState::Follower {
            voted_for: Some(v),
            ..
        } if *v == id(2)
    ));
}

#[test]
fn same_append_twice_has_the_effect_of_once() {
    let mut n = Node::from_parts(id(1), 2, vec![entry(1, 0), entry(1, 1)], vec![], follower(), 0);
    let make = || RaftMessage::AppendEntries {
        leader_id: id(2),
        prev_log_index: 1,
        term: 2,
        prev_log_term: 1,
        leader_commit: 2,
        entries: vec![entry(2, 1), entry(2, 2)],
    };
    let first = n.handle_message(envelope(id(2), id(1), make())).unwrap();
    let log_once: Vec<(u64, usize)> = n.log().iter().map(|e| (e.term, e.index)).collect();
    let commit_once = n.commit_index();
    let second = n.handle_message(envelope(id(2), id(1), make())).unwrap();
    let log_twice: Vec<(u64, usize)> = n.log().iter().map(|e| (e.term, e.index)).collect();
    assert_eq!(log_once, vec![(1, 0), (2, 1), (2, 2)]);
    assert_eq!(log_once, log_twice);
    assert_eq!(commit_once, 2);
    assert_eq!(n.commit_index(), 2);
    for out in [first, second] {
        assert!(matches!(
            out[0].1,
            RaftMessage::AppendEntriesResponse {
                term: 2,
                success: true,
                last_log_index: 2
            }
        ));
    }
}

#[test]
fn entry_beyond_the_end_is_appended_at_the_end() {
    let mut n = Node::from_parts(id(1), 1, vec![entry(1, 0)], vec![], follower(), 0);
    let msg = RaftMessage::AppendEntries {
        leader_id: id(2),
        prev_log_index: 0,
        term: 1,
        prev_log_term: 0,
        leader_commit: 0,
        entries: vec![entry(1, 5)],
    };
    n.handle_message(envelope(id(2), id(1), msg)).unwrap();
    assert_eq!(n.log().len(), 2);
    assert_eq!(n.log()[1].index, 5);
}

#[test]
fn quorum_index_is_the_kth_largest() {
    let s = vec![5usize, 3, 9, 1];
    assert_eq!(quorum_index_exec(&s, 1), 9);
    assert_eq!(quorum_index_exec(&s, 2), 5);
    assert_eq!(quorum_index_exec(&s, 3), 3);
    assert_eq!(quorum_index_exec(&s, 4), 1);
    assert_eq!(quorum_index_exec(&s, 5), 0);
    assert_eq!(quorum_index_exec(&vec![4, 4, 2], 2), 4);
    assert_eq!(count_at_least_exec(&s, 4), 2);
    assert_eq!(count_at_least_exec(&s, 0), 4);
}

#[test]
fn panics_on_flags_inputs_the_handlers_do_not_take() {
    let n = Node::from_parts(id(1), 1, vec![], vec![], follower(), 0);
    let heartbeat = RaftMessage::AppendEntries {
        leader_id: id(2),
        prev_log_index: 0,
        term: 1,
        prev_log_term: 0,
        leader_commit: 0,
        entries: vec![],
    };
    assert!(n.panics_on(&envelope(id(2), id(1), heartbeat)));
    let with_entry = RaftMessage::AppendEntries {
        leader_id: id(2),
        prev_log_index: 0,
        term: 1,
        prev_log_term: 0,
        leader_commit: 0,
        entries: vec![entry(1, 0)],
    };
    assert!(!n.panics_on(&envelope(id(2), id(1), with_entry)));

    let peers = vec![id(2)];
    let l = Node::from_parts(id(1), 1, vec![], peers.clone(), leader_of(&peers, 0), 0);
    assert!(l.panics_on(&envelope(id(9), id(1), append_reply(1, false, 0))));
    assert!(!l.panics_on(&envelope(id(2), id(1), append_reply(1, false, 0))));
    assert!(l.panics_on(&envelope(id(2), id(1), append_reply(1, true, usize::MAX))));
    assert!(!l.panics_on(&envelope(id(2), id(1), append_reply(2, true, usize::MAX))));
}

#[test]
fn runner_step_dispatches_each_event() {
    let peers = vec![id(2)];
    let mut n = Node::from_parts(id(1), 0, vec![], peers, follower(), 0);
    let out = runner_step(&mut n, RunnerEvent::ElectionTimeout).unwrap();
    assert_eq!(n.current_term(), 1);
    assert!(matches!(out[0].1, RaftMessage::RequestVote { term: 1, .. }));

    let out = runner_step(&mut n, RunnerEvent::HeartbeatTimeout).unwrap();
    assert!(out.is_empty());

    let vote = RaftMessage::RequestVoteResponse {
        term: 1,
        success: true,
    };
    runner_step(&mut n, RunnerEvent::Inbound(envelope(id(2), id(1), vote))).unwrap();
    assert!(matches!(n.state(), NodeState::Leader { .. }));

    let out = runner_step(&mut n, RunnerEvent::HeartbeatTimeout).unwrap();
    assert_eq!(out.len(), 1);

    let stray = RaftMessage::RequestVoteResponse {
        term: 1,
        success: true,
    };
    let err = runner_step(&mut n, RunnerEvent::Inbound(envelope(id(2), id(1), stray))).unwrap_err();
    assert!(matches!(
        err,
        NodeRunnerError::Logic(NodeError::UnexpectedMessage { .. })
    ));
}

#[test]
fn follower_never_becomes_leader_on_a_vote_reply() {
    let mut n = Node::from_parts(id(1), 1, vec![], vec![id(2)], follower(), 0);
    let vote = RaftMessage::RequestVoteResponse {
        term: 1,
        success: true,
    };
    assert!(n.handle_message(envelope(id(2), id(1), vote)).is_err());
    assert!(matches!(n.state(), NodeState::Follower { .. }));
}

#[test]
fn equal_uuids_give_equal_ids_and_equal_keys() {
    assert_eq!(NodeId::from_uuid(5), NodeId::from_uuid(5));
    assert_ne!(NodeId::from_uuid(5), NodeId::from_uuid(6));
    let mut set = HashSet::new();
    set.insert(NodeId::from_uuid(5));
    assert!(set.contains(&NodeId::from_uuid(5)));
    assert!(!set.contains(&NodeId::from_uuid(6)));
}

#[test]
fn more_votes_keep_the_win() {
    let peers = vec![id(2), id(3), id(4), id(5)];
    let win = |votes: Vec<NodeId>| {
        let state = NodeState::Candidate {
            votes_received: votes,
        };
        let mut n = Node::from_parts(id(1), 1, vec![], peers.clone(), state, 0);
        let vote = RaftMessage::RequestVoteResponse {
            term: 1,
            success: true,
        };
        n.handle_message(envelope(id(3), id(1), vote)).unwrap();
        matches!(n.state(), NodeState::Leader { .. })
    };
    assert!(win(vec![id(2)]));
    assert!(win(vec![id(2), id(4)]));
    assert!(!win(vec![]));
}
