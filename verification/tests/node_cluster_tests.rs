use rufton::json::Json;
use rufton::node::{Action, Node, NodeRole};

fn run_actions(nodes: &mut [Node]) -> Vec<(u64, Action)> {
    let mut actions = Vec::new();
    for _ in 0..1000 {
        let mut did_something = false;

        for i in 0..nodes.len() {
            while let Some(action) = nodes[i].next_action() {
                did_something = true;
                match &action {
                    Action::BroadcastMessage(m) => {
                        for j in 0..nodes.len() {
                            if i != j {
                                assert!(nodes[j].handle_message(m));
                            }
                        }
                    }
                    Action::SendMessage(j, m) => {
                        let j = *j as usize;
                        assert!(nodes[j].handle_message(m));
                    }
                    Action::SendSnapshot(j) => {
                        let j = *j as usize;
                        let applied_index = nodes[i].applied_index();
                        let user = Json::Str(b"user".to_vec());
                        let snapshot = nodes[i]
                            .create_snapshot(applied_index, &user)
                            .expect("snapshot should be created");
                        let (ok, _) = nodes[j].load(&vec![snapshot]);
                        assert!(ok);
                    }
                    _ => {}
                }
                actions.push((nodes[i].id(), action));
            }
        }

        if !did_something {
            return actions;
        }
    }
    panic!("cluster failed to quiesce")
}

#[test]
fn node_propose_add_node() {
    let mut node = Node::start(0);
    assert!(node.init_cluster(&vec![0]));
    while node.next_action().is_some() {}

    let proposal_id = node.propose_add_node(1);

    let mut found_commit = false;
    while let Some(action) = node.next_action() {
        if let Action::Apply(apply) = action {
            if apply.proposal_id == Some(proposal_id) {
                found_commit = true;
                break;
            }
        }
    }
    assert!(found_commit, "Proposal should be committed");

    while node.next_action().is_some() {}

    assert_eq!(node.nodes().len(), 2);
    assert!(node.nodes().contains(&1));
}

#[test]
fn propose_remove_node() {
    let mut node0 = Node::start(0);
    let node1 = Node::start(1);

    assert!(node0.init_cluster(&vec![0]));
    while node0.next_action().is_some() {}

    node0.propose_add_node(node1.id());

    let mut nodes = [node0, node1];
    run_actions(&mut nodes);

    let proposal_id = nodes[0].propose_remove_node(1);

    let mut found_commit = false;
    let actions = run_actions(&mut nodes);
    for (node_id, action) in actions {
        if node_id == nodes[0].id() {
            if let Action::Apply(apply) = action {
                if apply.proposal_id == Some(proposal_id) {
                    found_commit = true;
                    break;
                }
            }
        }
    }
    assert!(found_commit, "Remove proposal should be committed");

    assert_eq!(nodes[0].nodes().len(), 1);
    assert!(nodes[0].nodes().contains(&0));
}

#[test]
fn node_two_node_broadcast_message_handling() {
    let mut node0 = Node::start(0);
    let node1 = Node::start(1);

    assert!(node0.init_cluster(&vec![0]));
    while node0.next_action().is_some() {}

    node0.propose_add_node(node1.id());

    let mut nodes = [node0, node1];
    run_actions(&mut nodes);

    assert_eq!(nodes[0].nodes().len(), 2);
    assert_eq!(nodes[1].nodes().len(), 2);
}

#[test]
fn node_propose_command_to_non_leader_node() {
    let mut node0 = Node::start(0);
    let node1 = Node::start(1);

    assert!(node0.init_cluster(&vec![0]));
    while node0.next_action().is_some() {}

    node0.propose_add_node(node1.id());

    let mut nodes = [node0, node1];
    run_actions(&mut nodes);

    assert_eq!(nodes[0].role(), NodeRole::Leader);
    assert_ne!(nodes[1].role(), NodeRole::Leader);

    let command = Json::Str(b"test_command".to_vec());
    let proposal_id = nodes[1].propose_command(command);

    let actions = run_actions(&mut nodes);
    let found_commit = actions.iter().any(|(node_id, action)| {
        if let Action::Apply(apply) = action {
            apply.proposal_id == Some(proposal_id) && *node_id == nodes[1].id()
        } else {
            false
        }
    });
    assert!(found_commit, "Commit action with matching proposal_id should be in actions");
}

#[test]
fn node_propose_query() {
    let mut node0 = Node::start(0);
    let node1 = Node::start(1);

    assert!(node0.init_cluster(&vec![0]));
    while node0.next_action().is_some() {}

    node0.propose_add_node(node1.id());

    let mut nodes = [node0, node1];
    run_actions(&mut nodes);

    assert_eq!(nodes[0].role(), NodeRole::Leader);
    assert_ne!(nodes[1].role(), NodeRole::Leader);

    let query_proposal_id = nodes[0].propose_query(Json::Str(b"q".to_vec()));

    let actions = run_actions(&mut nodes);
    let found_query = actions.iter().any(|(node_id, action)| {
        if let Action::Apply(apply) = action {
            *node_id == nodes[0].id() && apply.proposal_id == Some(query_proposal_id)
        } else {
            false
        }
    });
    assert!(found_query, "Query action with matching proposal_id should be returned by leader");
}

#[test]
fn node_propose_query_on_non_leader_node() {
    let mut node0 = Node::start(0);
    let node1 = Node::start(1);

    assert!(node0.init_cluster(&vec![0]));
    while node0.next_action().is_some() {}

    node0.propose_add_node(node1.id());

    let mut nodes = [node0, node1];
    run_actions(&mut nodes);

    assert_eq!(nodes[0].role(), NodeRole::Leader);
    assert_ne!(nodes[1].role(), NodeRole::Leader);

    let query_proposal_id = nodes[1].propose_query(Json::Str(b"q".to_vec()));

    let actions = run_actions(&mut nodes);
    let found_query = actions.iter().any(|(node_id, action)| {
        if let Action::Apply(apply) = action {
            *node_id == nodes[1].id() && apply.proposal_id == Some(query_proposal_id)
        } else {
            false
        }
    });
    assert!(found_query, "Query should be redirected to leader and resolved");
}

#[test]
fn node_strip_memory_log() {
    let mut node0 = Node::start(0);

    assert!(node0.init_cluster(&vec![0]));
    while node0.next_action().is_some() {}

    let command1 = Json::Str(b"command1".to_vec());
    let _proposal_id1 = node0.propose_command(command1);
    while node0.next_action().is_some() {}

    let command2 = Json::Str(b"command2".to_vec());
    let _proposal_id2 = node0.propose_command(command2);
    while node0.next_action().is_some() {}

    let commit_index = node0.commit_index();
    assert!(commit_index > 0);

    assert!(node0.strip_memory_log(commit_index));

    let remaining_commands: Vec<u64> = node0.recent_commands().iter().map(|p| p.0).collect();
    assert!(
        remaining_commands.is_empty() || remaining_commands.iter().all(|idx| *idx > commit_index)
    );

    let node1 = Node::start(1);
    node0.propose_add_node(node1.id());

    let mut nodes = [node0, node1];
    run_actions(&mut nodes);

    assert_eq!(nodes[0].nodes().len(), 2);
    assert_eq!(nodes[1].nodes().len(), 2);
    assert!(nodes[1].nodes().contains(&0));
    assert!(nodes[1].nodes().contains(&1));
}

#[test]
fn node_create_snapshot_includes_log_entries_suffix() {
    let mut node0 = Node::start(0);
    let node1 = Node::start(1);

    assert!(node0.init_cluster(&vec![0]));
    while node0.next_action().is_some() {}

    node0.propose_add_node(node1.id());

    let mut nodes = [node0, node1];
    run_actions(&mut nodes);

    assert_eq!(nodes[0].role(), NodeRole::Leader);
    assert_ne!(nodes[1].role(), NodeRole::Leader);

    let command = Json::Str(b"snapshot_test".to_vec());
    let _proposal_id = nodes[0].propose_command(command);

    while let Some(action) = nodes[0].next_action() {
        if let Action::BroadcastMessage(m) = action {
            assert!(nodes[1].handle_message(&m));
            break;
        }
    }

    let applied_index = nodes[1].applied_index();
    let user = Json::Str(b"user".to_vec());
    let snapshot = nodes[1]
        .create_snapshot(applied_index, &user)
        .expect("snapshot should be created");

    let entries = snapshot
        .get("log_entries")
        .expect("log_entries")
        .as_arr()
        .expect("log_entries array");

    let mut count = 0;
    for entry in entries {
        let ty = entry.get("type").expect("type");
        assert!(ty.is_str("Command"));
        count += 1;
    }
    assert_eq!(count, 1);
}
