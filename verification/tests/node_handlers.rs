use dist_1::envelope::Envelope;
use dist_1::log_entry::{Command, LogEntry};
use dist_1::node::Node;
use dist_1::node_id::NodeId;
use dist_1::node_state::NodeState;
use dist_1::raft_message::RaftMessage;
use uuid::Uuid;

fn make_node_id() -> NodeId {
    NodeId::from_uuid(Uuid::new_v4().as_u128())
}

fn create_request_vote_envelope(from: NodeId, to: NodeId) -> Envelope {
    Envelope {
        from: from.clone(),
        to: to.clone(),
        message: RaftMessage::RequestVote {
            term: 1,
            candidate_id: from,
            last_log_index: 0,
            last_log_term: 0,
        },
    }
}

fn create_request_vote_response_envelope(
    from: NodeId,
    to: NodeId,
    term: u64,
    success: bool,
) -> Envelope {
    Envelope {
        from: from.clone(),
        to: to.clone(),
        message: RaftMessage::RequestVoteResponse { term, success },
    }
}

fn create_append_entries_request_envelope(
    from: NodeId,
    to: NodeId,
    leader_id: NodeId,
    term: u64,
    prev_log_term: u64,
    leader_commit: usize,
    prev_log_index: usize,
    entries: Vec<LogEntry>,
) -> Envelope {
    Envelope {
        from: from.clone(),
        to: to.clone(),
        message: RaftMessage::AppendEntries {
            leader_id,
            prev_log_index,
            term,
            prev_log_term,
            leader_commit,
            entries,
        },
    }
}

fn follower() -> NodeState {
    NodeState::Follower {
        current_leader: None,
        voted_for: None,
    }
}

#[test]
fn follower_grants_vote_when_all_conditions_met() {
    let mut node = Node::new();
    let candidate_id = make_node_id();

    let envelope = create_request_vote_envelope(candidate_id.clone(), node.node_id().clone());

    let result = node
        .handle_message(envelope)
        .expect("handle_message failed");

    assert_eq!(result.len(), 1);
    let (to, msg) = &result[0];
    assert_eq!(to, &candidate_id);
    assert!(matches!(
        msg,
        RaftMessage::RequestVoteResponse { success: true, .. }
    ));
}

#[test]
fn follower_denies_vote_when_nodes_term_is_higher() {
    let mut node = Node::from_parts(make_node_id(), 2, vec![], vec![], follower(), 0);
    let candidate_id = make_node_id();

    let envelope = create_request_vote_envelope(candidate_id.clone(), node.node_id().clone());

    let result = node
        .handle_message(envelope)
        .expect("handle_message failed");

    assert_eq!(result.len(), 1);
    let (to, msg) = &result[0];
    assert_eq!(to, &candidate_id);
    assert!(matches!(
        msg,
        RaftMessage::RequestVoteResponse { success: false, .. }
    ));
}

#[test]
fn follower_denies_vote_when_node_has_already_voted() {
    let state = NodeState::Follower {
        current_leader: None,
        voted_for: Some(make_node_id()),
    };
    let mut node = Node::from_parts(make_node_id(), 0, vec![], vec![], state, 0);
    let candidate_id = make_node_id();

    let envelope = create_request_vote_envelope(candidate_id.clone(), node.node_id().clone());

    let result = node
        .handle_message(envelope)
        .expect("handle_message failed");

    assert_eq!(result.len(), 1);
    let (to, msg) = &result[0];
    assert_eq!(to, &candidate_id);
    assert!(matches!(
        msg,
        RaftMessage::RequestVoteResponse { success: false, .. }
    ));
}

#[test]
fn follower_denies_vote_when_node_log_is_ahead() {
    let log = vec![LogEntry::new(
        0,
        0,
        Command::Put {
            key: "".to_string(),
            value: "".to_string(),
        },
    )];
    let mut node = Node::from_parts(make_node_id(), 0, log, vec![], follower(), 0);
    let candidate_id = make_node_id();

    let envelope = create_request_vote_envelope(candidate_id.clone(), node.node_id().clone());

    let result = node
        .handle_message(envelope)
        .expect("handle_message failed");

    assert_eq!(result.len(), 1);
    let (to, msg) = &result[0];
    assert_eq!(to, &candidate_id);
    assert!(matches!(
        msg,
        RaftMessage::RequestVoteResponse { success: false, .. }
    ));
}

#[test]
fn candidate_becomes_follower_if_behind() {
    let state = NodeState::Candidate {
        votes_received: Default::default(),
    };
    let mut candidate_node = Node::from_parts(make_node_id(), 1, vec![], vec![], state, 0);
    let vote_response_node = make_node_id();

    let envelope = create_request_vote_response_envelope(
        vote_response_node.clone(),
        candidate_node.node_id().clone(),
        2,
        false,
    );

    let result = candidate_node
        .handle_message(envelope)
        .expect("handle_message failed");

    assert_eq!(result.len(), 0);
    // Candidate becomes a Follower due to its Vote Request responder having a higher term than it does
    assert!(matches!(
        candidate_node.state(),
        NodeState::Follower {
            current_leader: None,
            voted_for: None
        }
    ));
}

#[test]
fn candidate_stays_candidate_if_terms_equal_votes_unchanged() {
    let state = NodeState::Candidate {
        votes_received: Default::default(),
    };
    let mut candidate_node = Node::from_parts(make_node_id(), 1, vec![], vec![], state, 0);
    let vote_response_node = make_node_id();

    let envelope = create_request_vote_response_envelope(
        vote_response_node.clone(),
        candidate_node.node_id().clone(),
        1,
        false,
    );

    let result = candidate_node
        .handle_message(envelope)
        .expect("handle_message failed");

    assert_eq!(result.len(), 0);
    assert!(matches!(candidate_node.state(), NodeState::Candidate { .. }));
    if let NodeState::Candidate { votes_received } = candidate_node.state() {
        assert!(votes_received.is_empty());
    } else {
        panic!("expected Candidate state");
    }
}

#[test]
fn candidate_becomes_leader_once_majority_votes() {
    let node_1 = make_node_id();
    let node_2 = make_node_id();
    let node_3 = make_node_id();

    let log = vec![LogEntry::new(
        0,
        0,
        Command::Delete {
            key: "".to_string(),
        },
    )];
    // 4 node cluster, the candidate votes for itself so needs two more votes to obtain majority
    let peers = vec![node_1.clone(), node_2.clone(), node_3.clone()];
    let state = NodeState::Candidate {
        votes_received: Default::default(),
    };
    // Candidate will be a higher term that its peers
    let mut candidate_node = Node::from_parts(make_node_id(), 2, log, peers, state, 0);

    let envelope_1 = create_request_vote_response_envelope(
        node_1.clone(),
        candidate_node.node_id().clone(),
        1,
        true,
    );

    candidate_node
        .handle_message(envelope_1)
        .expect("handle_message failed");

    assert!(matches!(candidate_node.state(), NodeState::Candidate { .. }));

    let envelope_2 = create_request_vote_response_envelope(
        node_2.clone(),
        candidate_node.node_id().clone(),
        1,
        true,
    );

    candidate_node
        .handle_message(envelope_2)
        .expect("handle_message failed");

    assert!(matches!(
        candidate_node.state(),
        NodeState::Leader {
            next_log_index: _next_index,
            confirmed_log_index: _match_index
        }
    ));
}

#[test]
fn handle_append_entries_sender_term_is_behind_node_term_reject() {
    // node has a higher term than the sender
    let log = vec![LogEntry::new(
        2,
        1,
        Command::Delete {
            key: "".to_string(),
        },
    )];
    let mut follower_node = Node::from_parts(make_node_id(), 2, log, vec![], follower(), 0);

    let sender_node = make_node_id();
    let sender_term = 1;

    let envelope = create_append_entries_request_envelope(
        sender_node.clone(),
        follower_node.node_id().clone(),
        sender_node.clone(),
        sender_term,
        1,
        1,
        1,
        vec![],
    );

    let result = follower_node
        .handle_message(envelope)
        .expect("handle_message failed");

    assert_eq!(result.len(), 1);
    let (to, msg) = &result[0];
    assert_eq!(to, &sender_node);
    assert!(matches!(
        msg,
        RaftMessage::AppendEntriesResponse {
            term: 2,
            success: false,
            last_log_index: 0
        }
    ));
}

#[test]
fn handle_append_entries_logs_are_not_consistent_reject() {
    let log = vec![LogEntry::new(
        1,
        0,
        Command::Delete {
            key: "".to_string(),
        },
    )];
    let mut follower_node = Node::from_parts(make_node_id(), 1, log, vec![], follower(), 0);

    let sender_node = make_node_id();
    let sender_term = 2;

    // The prev_log_term and prev_log_index are not consistent with
    // follower node current values.
    let envelope = create_append_entries_request_envelope(
        sender_node.clone(),
        follower_node.node_id().clone(),
        sender_node.clone(),
        sender_term,
        2,
        2,
        2,
        vec![],
    );

    let result = follower_node
        .handle_message(envelope)
        .expect("handle_message failed");

    assert_eq!(result.len(), 1);
    let (to, msg) = &result[0];
    assert_eq!(to, &sender_node);

    // The followers always adopts a higher term
    assert!(matches!(
        msg,
        RaftMessage::AppendEntriesResponse {
            term: 2,
            success: false,
            last_log_index: 0
        }
    ));
}

#[test]
fn handle_append_entries_happy_path() {
    let log = vec![LogEntry::new(
        1,
        0,
        Command::Put {
            key: "".to_string(),
            value: "".to_string(),
        },
    )];
    let mut follower_node = Node::from_parts(make_node_id(), 2, log, vec![], follower(), 1);

    let sender_node = make_node_id();
    let sender_term = 2;

    let new_log = vec![LogEntry::new(
        2,
        1,
        Command::Delete {
            key: "".to_string(),
        },
    )];

    let envelope = create_append_entries_request_envelope(
        sender_node.clone(),
        follower_node.node_id().clone(),
        sender_node.clone(),
        sender_term,
        1,
        2,
        1,
        new_log,
    );

    let result = follower_node
        .handle_message(envelope)
        .expect("handle_message failed");

    assert_eq!(result.len(), 1);
    let (to, msg) = &result[0];
    assert_eq!(to, &sender_node);

    // The followers always adopts a higher term
    assert!(matches!(
        msg,
        RaftMessage::AppendEntriesResponse {
            term: 2,
            success: true,
            last_log_index: 1
        }
    ));

    assert_eq!(follower_node.commit_index(), 1);
}

#[test]
fn handle_append_entries_happy_path_truncate_log() {
    let entry_1 = LogEntry::new(
        1,
        0,
        Command::Put {
            key: "".to_string(),
            value: "".to_string(),
        },
    );
    let entry_2 = LogEntry::new(
        1,
        1,
        Command::Put {
            key: "".to_string(),
            value: "".to_string(),
        },
    );
    let mut follower_node =
        Node::from_parts(make_node_id(), 2, vec![entry_1, entry_2], vec![], follower(), 1);

    let sender_node = make_node_id();
    let sender_term = 2;

    let entry_3 = LogEntry::new(
        2,
        1,
        Command::Delete {
            key: "".to_string(),
        },
    );
    let new_log = vec![entry_3];

    let envelope = create_append_entries_request_envelope(
        sender_node.clone(),
        follower_node.node_id().clone(),
        sender_node.clone(),
        sender_term,
        1,
        2,
        1,
        new_log,
    );

    let result = follower_node
        .handle_message(envelope)
        .expect("handle_message failed");

    assert_eq!(result.len(), 1);
    let (to, msg) = &result[0];
    assert_eq!(to, &sender_node);

    // The followers always adopts a higher term
    assert!(matches!(
        msg,
        RaftMessage::AppendEntriesResponse {
            term: 2,
            success: true,
            last_log_index: 1
        }
    ));

    assert_eq!(follower_node.commit_index(), 1);

    assert_eq!(follower_node.log().len(), 2);

    // entry at index 0 unchanged
    assert_eq!(follower_node.log()[0].term, 1);
    assert_eq!(follower_node.log()[0].index, 0);

    // entry at index 1 was truncated and replaced — term changed from 1 to 2
    assert_eq!(follower_node.log()[1].term, 2);
    assert_eq!(follower_node.log()[1].index, 1);
}
