use opengemini_engine::raft::{
    AppendEntriesRequest, LogEntry, LogEntryData, Membership, NodeInfo, NodeState, RaftCluster,
    RaftNode, VoteRequest,
};

fn new_socket_addr(port: u16) -> String {
    format!("127.0.0.1:{}", port)
}

#[test]
fn mod_test_node_state_is_leader() {
    assert!(NodeState::Leader.is_leader());
    assert!(!NodeState::Follower.is_leader());
    assert!(!NodeState::Candidate.is_leader());
    assert!(!NodeState::PreCandidate.is_leader());
}

#[test]
fn test_raft_node_creation() {
    let node = RaftNode::new(1, 5000, 1000);
    assert_eq!(node.node_id(), 1);
    assert_eq!(node.current_term(), 0);
    assert_eq!(node.state(), NodeState::Follower);
    assert!(!node.is_leader());
}

#[test]
fn test_add_remove_peer() {
    let mut node = RaftNode::new(1, 5000, 1000);
    let peer = NodeInfo::new(2, new_socket_addr(8080));

    node.add_peer(peer.clone());
    assert_eq!(node.get_peers().len(), 1);

    node.remove_peer(2);
    assert_eq!(node.get_peers().len(), 0);
}

#[test]
fn test_append_log() {
    let mut node = RaftNode::new(1, 5000, 1000);

    let entry = LogEntry::new(1, 1, LogEntryData::Data {
        database: "testdb".to_string(),
        payload: vec![1, 2, 3],
    });

    let index = node.append_log(entry);
    assert_eq!(index, 1);
    assert_eq!(node.last_log_index(), 1);
    assert_eq!(node.last_log_term(), 1);
}

#[test]
fn test_log_entry() {
    let entry = LogEntry::new(1, 1, LogEntryData::Data {
        database: "testdb".to_string(),
        payload: vec![1, 2, 3],
    });

    assert_eq!(entry.index, 1);
    assert_eq!(entry.term, 1);
    assert!(entry.timestamp > 0);
}

#[test]
fn test_become_leader() {
    let mut node = RaftNode::new(1, 5000, 1000);

    node.become_leader();
    assert_eq!(node.state(), NodeState::Leader);
    assert!(node.is_leader());
    assert_eq!(node.current_term(), 1);
}

#[test]
fn test_become_follower() {
    let mut node = RaftNode::new(1, 5000, 1000);
    node.become_candidate();
    node.become_follower(5);

    assert_eq!(node.state(), NodeState::Follower);
    assert_eq!(node.current_term(), 5);
}

#[test]
fn test_request_vote() {
    let mut node = RaftNode::new(1, 5000, 1000);

    let req = VoteRequest {
        term: 1,
        candidate_id: 2,
        last_log_index: 0,
        last_log_term: 0,
    };

    let result = node.request_vote(req);
    assert!(result.vote_granted);
    assert_eq!(result.term, 1);
}

#[test]
fn test_request_vote_denied_wrong_term() {
    let mut node = RaftNode::new(1, 5000, 1000);
    node.become_leader();

    let req = VoteRequest {
        term: 0,
        candidate_id: 2,
        last_log_index: 0,
        last_log_term: 0,
    };

    let result = node.request_vote(req);
    assert!(!result.vote_granted);
}

#[test]
fn test_append_entries() {
    let mut node = RaftNode::new(1, 5000, 1000);

    let req = AppendEntriesRequest {
        term: 1,
        leader_id: 2,
        prev_log_index: 0,
        prev_log_term: 0,
        entries: vec![LogEntry::new(1, 1, LogEntryData::Data {
            database: "testdb".to_string(),
            payload: vec![],
        })],
        leader_commit: 1,
    };

    let result = node.append_entries(req);
    assert!(result.success);
    assert_eq!(node.last_log_index(), 1);
}

#[test]
fn test_append_entries_fail_wrong_term() {
    let mut node = RaftNode::new(1, 5000, 1000);
    node.become_leader();

    let req = AppendEntriesRequest {
        term: 0,
        leader_id: 2,
        prev_log_index: 0,
        prev_log_term: 0,
        entries: vec![],
        leader_commit: 0,
    };

    let result = node.append_entries(req);
    assert!(!result.success);
}

#[test]
fn test_raft_cluster() {
    let mut cluster = RaftCluster::new();

    let node = cluster.create_node(1, 5000, 1000);
    cluster.set_local_node(node.clone());

    assert_eq!(cluster.node_count(), 1);
    assert!(cluster.get_local_node().is_some());
    assert_eq!(cluster.get_local_node().unwrap().node_id(), 1);

    cluster.create_node(2, 5000, 1000);
    assert_eq!(cluster.node_count(), 2);

    cluster.remove_node(2);
    assert_eq!(cluster.node_count(), 1);
}

#[test]
fn test_membership() {
    let mut node = RaftNode::new(1, 5000, 1000);

    let membership = Membership {
        voters: vec![1, 2, 3],
        learners: vec![4, 5],
    };

    node.set_membership(membership.clone());
    let retrieved = node.get_membership();

    assert_eq!(retrieved.voters, vec![1, 2, 3]);
    assert_eq!(retrieved.learners, vec![4, 5]);
}

#[test]
fn test_commit_and_apply() {
    let mut node = RaftNode::new(1, 5000, 1000);

    for i in 1..=5 {
        node.append_log(LogEntry::new(i, 1, LogEntryData::Data {
            database: "testdb".to_string(),
            payload: vec![],
        }));
    }

    node.set_commit_index(3);
    assert_eq!(node.commit_index(), 3);

    node.set_last_applied(3);
    assert_eq!(node.last_applied(), 3);
}

#[test]
fn test_get_log_entry() {
    let mut node = RaftNode::new(1, 5000, 1000);

    node.append_log(LogEntry::new(1, 1, LogEntryData::Data {
        database: "testdb".to_string(),
        payload: vec![],
    }));

    let entry = node.get_log_entry(1);
    assert!(entry.is_some());
    assert_eq!(entry.unwrap().index, 1);

    let none = node.get_log_entry(999);
    assert!(none.is_none());
}

#[test]
fn raft_second_candidate_is_denied_after_a_vote() {
    let mut node = RaftNode::new(1, 5000, 1000);
    let first = node.request_vote(VoteRequest { term: 1, candidate_id: 2, last_log_index: 0, last_log_term: 0 });
    assert!(first.vote_granted);
    let second = node.request_vote(VoteRequest { term: 2, candidate_id: 3, last_log_index: 0, last_log_term: 0 });
    assert!(!second.vote_granted);
    assert_eq!(second.term, 0);
    let again = node.request_vote(VoteRequest { term: 2, candidate_id: 2, last_log_index: 0, last_log_term: 0 });
    assert!(again.vote_granted);
}

#[test]
fn raft_append_entries_truncates_conflicting_suffix() {
    let mut node = RaftNode::new(1, 5000, 1000);
    for i in 0..3u64 {
        node.append_log(LogEntry::new(i, 1, LogEntryData::Data { database: "db".to_string(), payload: vec![] }));
    }
    let req = AppendEntriesRequest {
        term: 2,
        leader_id: 2,
        prev_log_index: 1,
        prev_log_term: 2,
        entries: vec![],
        leader_commit: 5,
    };
    let result = node.append_entries(req);
    assert!(result.success);
    assert_eq!(node.log_len(), 1);
    assert_eq!(result.match_index, 0);
    assert_eq!(node.commit_index(), 0);
}

#[test]
fn raft_append_entries_refuses_gap_and_keeps_state() {
    let mut node = RaftNode::new(1, 5000, 1000);
    let req = AppendEntriesRequest {
        term: 1,
        leader_id: 2,
        prev_log_index: 3,
        prev_log_term: 1,
        entries: vec![],
        leader_commit: 3,
    };
    let result = node.append_entries(req);
    assert!(!result.success);
    assert_eq!(result.match_index, 0);
    assert_eq!(node.log_len(), 0);
}

#[test]
fn raft_commit_follows_leader_up_to_match() {
    let mut node = RaftNode::new(1, 5000, 1000);
    let entries = (0..3u64)
        .map(|i| LogEntry::new(i, 1, LogEntryData::Data { database: "db".to_string(), payload: vec![] }))
        .collect();
    let req = AppendEntriesRequest { term: 1, leader_id: 2, prev_log_index: 0, prev_log_term: 0, entries, leader_commit: 10 };
    let result = node.append_entries(req);
    assert!(result.success);
    assert_eq!(result.match_index, 2);
    assert_eq!(node.commit_index(), 2);
}
