use raft_election::{
    easy_connect, Cluster, Error, Id, LogEntry, Message, Node, RaftNode, Role,
};

#[test]
fn should_elect_new_leader_on_timeout() {
    let mut cluster = Cluster::new();
    let node_a = cluster.add(Node::new(Id(0)));
    let node_b = cluster.add(Node::new(Id(1)));

    easy_connect(&mut cluster, &[node_a, node_b]);

    assert!(cluster.on_timeout(node_a).is_ok());

    assert_eq!(cluster.node(node_a).role, Role::Leader);
    assert_eq!(cluster.node(node_b).current_leader.unwrap(), Id(0));
    assert_eq!(cluster.node(node_b).role, Role::Follower);
}

#[test]
fn should_not_re_elect_if_already_elected_for_term() {
    let mut cluster = Cluster::new();
    let node_a = cluster.add(Node::new(Id(0)));
    let node_b = cluster.add(Node::new(Id(1)));
    let node_c = cluster.add(Node::new(Id(2)));

    easy_connect(&mut cluster, &[node_a, node_b, node_c]);

    cluster.node_mut(node_a).role = Role::Leader;
    cluster.node_mut(node_b).timeout_state = true;
    cluster.node_mut(node_c).timeout_state = true;
    assert!(cluster.on_timeout(node_b).is_ok());
    assert_eq!(
        cluster.on_timeout(node_c).unwrap_err(),
        Error::AlreadyElected(Id(1))
    );
    assert_eq!(cluster.node(node_a).current_leader.unwrap(), Id(1));
    assert_eq!(cluster.node(node_b).role, Role::Leader);
    assert_eq!(cluster.node(node_c).current_leader.unwrap(), Id(1));
}

#[test]
fn followers_should_replicate_leader_logs() {
    let mut node_b = Node::new(Id(1));

    node_b.current_leader = Some(Id(0));

    assert!(node_b
        .on_rcv_message(Message::ReplicateOrHeartbeat(
            Id(0),
            LogEntry("new log entry".to_string())
        ))
        .is_ok());
    assert!(node_b.logs[0] == LogEntry("new log entry".to_string()));
}

#[test]
fn contested_term_leaves_the_loser_a_candidate() {
    let mut cluster = Cluster::new();
    let a = cluster.add(Node::new(Id(0)));
    let b = cluster.add(Node::new(Id(1)));
    let c = cluster.add(Node::new(Id(2)));
    easy_connect(&mut cluster, &[a, b, c]);
    cluster.node_mut(a).role = Role::Leader;

    assert_eq!(cluster.on_timeout(b), Ok(()));
    assert_eq!(cluster.node(b).term, 1);
    assert_eq!(cluster.node(b).current_leader, Some(Id(1)));
    assert_eq!(cluster.node(a).role, Role::Follower);
    assert_eq!(cluster.node(a).term, 1);

    assert_eq!(cluster.on_timeout(c), Err(Error::AlreadyElected(Id(1))));
    assert_eq!(cluster.node(c).role, Role::Candidate);
    assert_eq!(cluster.node(c).term, 2);
    assert_eq!(cluster.node(a).term, 2);
    assert_eq!(cluster.node(b).term, 2);
    assert_eq!(cluster.node(b).role, Role::Leader);
}

#[test]
fn vote_request_in_term_zero_is_offline() {
    let mut node = Node::new(Id(7));
    assert_eq!(
        node.on_rcv_message(Message::RequestVotes(Id(3), 0)),
        Err(Error::Offline)
    );
    assert!(node.logs.is_empty());
    assert_eq!(node.term, 0);
    assert_eq!(node.role, Role::Follower);
    assert_eq!(node.current_leader, None);
    assert!(!node.timeout_state);
}

#[test]
fn isolated_follower_takes_the_entry_and_the_sender() {
    let mut cluster = Cluster::new();
    let b = cluster.add(Node::new(Id(1)));
    cluster.node_mut(b).current_leader = Some(Id(0));
    let entry = LogEntry("new log entry".to_string());
    assert_eq!(
        cluster.on_rcv_message(b, Message::ReplicateOrHeartbeat(Id(0), entry.clone())),
        Ok(())
    );
    assert_eq!(cluster.node(b).logs.len(), 1);
    assert_eq!(cluster.node(b).logs[0], entry);
    assert_eq!(cluster.node(b).current_leader, Some(Id(0)));
    assert!(cluster.node(b).timeout_state);
}
