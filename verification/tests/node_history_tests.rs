//! A second pass over the node behaviours: the lifecycle and cluster
//! flows driven end to end once more, guarding against regressions that
//! only show up after other operations have run.

use rufton::codec::StorageEntry;
use rufton::json::Json;
use rufton::node::{Action, Node, NodeRole};
use rufton::text::to_text;

fn storage_text(action: &Action) -> Vec<u8> {
    match action {
        Action::AppendStorageEntry(j) => to_text(j),
        other => panic!("expected a storage append, got {:?}", other),
    }
}

fn run_actions(nodes: &mut [Node]) -> Vec<(u64, Action)> {
    let mut actions = Vec::new();
    for _ in 0..1000 {
        let mut did_something = false;

        for i in 0..nodes.len() {
            while let Some(action) = nodes[i].next_action() {
                did_something = true;
                match &action {
                    Action::BroadcastMessage(m) => {
                        for j in 0..nodes.len() {
                            if i != j {
                                assert!(nodes[j].handle_message(m));
                            }
                        }
                    }
                    Action::SendMessage(j, m) => {
                        let j = *j as usize;
                        assert!(nodes[j].handle_message(m));
                    }
                    Action::SendSnapshot(j) => {
                        let j = *j as usize;
                        let applied_index = nodes[i].applied_index();
                        let user = Json::Str(b"user".to_vec());
                        let snapshot = nodes[i]
                            .create_snapshot(applied_index, &user)
                            .expect("snapshot should be created");
                        let (ok, _) = nodes[j].load(&vec![snapshot]);
                        assert!(ok);
                    }
                    _ => {}
                }
                actions.push((nodes[i].id(), action));
            }
        }

        if !did_something {
            return actions;
        }
    }
    panic!("cluster failed to quiesce")
}

#[test]
fn node_tests_init_cluster() {
    let mut node = Node::start(0);
    assert!(node.init_cluster(&vec![0]));
    assert!(!node.init_cluster(&vec![0]));
    let first = node.next_action().expect("generation record");
    assert_eq!(storage_text(&first), br#"{"type":"NodeGeneration","generation":0}"#.to_vec());
    let mut saw_timeout = false;
    let mut saw_term = false;
    let mut saw_voted_for = false;
    let mut saw_log_entries = false;
    let mut saw_commit = false;
    while let Some(action) = node.next_action() {
        match action {
            Action::SetTimeout(role) => {
                saw_timeout = true;
                assert_eq!(role, NodeRole::Leader);
            }
            Action::AppendStorageEntry(j) => {
                let text = to_text(&j);
                if text == br#"{"type":"Term","term":1}"#.to_vec() {
                    saw_term = true;
                } else if text == br#"{"type":"VotedFor","node_id":0}"#.to_vec() {
                    saw_voted_for = true;
                } else if text.starts_with(br#"{"type":"LogEntries""#) {
                    saw_log_entries = true;
                } else {
                    panic!("unexpected storage line: {:?}", String::from_utf8_lossy(&text));
                }
            }
            Action::Apply(_) => {
                saw_commit = true;
            }
            other => panic!("unexpected action {:?}", other),
        }
    }
    assert!(saw_timeout && saw_term && saw_voted_for && saw_log_entries && saw_commit);
    assert_eq!(node.nodes().len(), 1);
    assert!(node.nodes().contains(&0));
}

#[test]
fn node_tests_load_increments_generation() {
    let mut node = Node::start(0);
    node.action_queue.clear();

    let entry = StorageEntry::NodeGeneration(0).to_json();
    node.load(&vec![entry]);

    assert_eq!(node.generation(), 1);
    let first = node.action_queue.pop_front().expect("generation record");
    assert_eq!(storage_text(&first), br#"{"type":"NodeGeneration","generation":1}"#.to_vec());
}

#[test]
fn node_tests_load_uses_last_generation() {
    let mut node = Node::start(0);
    node.action_queue.clear();

    let entry1 = StorageEntry::NodeGeneration(2).to_json();
    let entry2 = StorageEntry::NodeGeneration(5).to_json();
    node.load(&vec![entry1, entry2]);

    assert_eq!(node.generation(), 6);
    let first = node.action_queue.pop_front().expect("generation record");
    assert_eq!(storage_text(&first), br#"{"type":"NodeGeneration","generation":6}"#.to_vec());
}

#[test]
fn node_tests_create_snapshot_includes_node_state() {
    let mut node = Node::start(0);
    assert!(node.init_cluster(&vec![0]));
    while node.next_action().is_some() {}

    let applied_index = node.applied_index();
    let user = Json::Str(b"user".to_vec());
    let snapshot = node.create_snapshot(applied_index, &user).expect("snapshot should be created");

    let node_state = snapshot.get("node_state").expect("node_state");
    let node_id = node_state.get("node_id").expect("node_id").as_u64().expect("node_id int");
    let term = node_state.get("term").expect("term").as_u64().expect("term int");
    let voted_for = match node_state.get("voted_for").expect("voted_for") {
        Json::Null => None,
        other => Some(other.as_u64().expect("voted_for int")),
    };

    assert_eq!(node_id, node.id());
    assert_eq!(term, node.current_term());
    assert_eq!(voted_for, node.voted_for());
}

#[test]
fn node_tests_create_snapshot_includes_log_entries_suffix() {
    let mut node0 = Node::start(0);
    let node1 = Node::start(1);

    assert!(node0.init_cluster(&vec![0]));
    while node0.next_action().is_some() {}

    node0.propose_add_node(node1.id());

    let mut nodes = [node0, node1];
    run_actions(&mut nodes);

    assert_eq!(nodes[0].role(), NodeRole::Leader);
    assert_ne!(nodes[1].role(), NodeRole::Leader);

    let command = Json::Str(b"snapshot_test".to_vec());
    let _proposal_id = nodes[0].propose_command(command);

    while let Some(action) = nodes[0].next_action() {
        if let Action::BroadcastMessage(m) = action {
            assert!(nodes[1].handle_message(&m));
            break;
        }
    }

    let applied_index = nodes[1].applied_index();
    let user = Json::Str(b"user".to_vec());
    let snapshot = nodes[1]
        .create_snapshot(applied_index, &user)
        .expect("snapshot should be created");

    let entries = snapshot
        .get("log_entries")
        .expect("log_entries")
        .as_arr()
        .expect("log_entries array");

    let mut count = 0;
    for entry in entries {
        let ty = entry.get("type").expect("type");
        assert!(ty.is_str("Command"));
        count += 1;
    }
    assert_eq!(count, 1);
}

#[test]
fn node_tests_propose_add_node() {
    let mut node = Node::start(0);
    assert!(node.init_cluster(&vec![0]));
    while node.next_action().is_some() {}

    let proposal_id = node.propose_add_node(1);

    let mut found_commit = false;
    while let Some(action) = node.next_action() {
        if let Action::Apply(apply) = action {
            if apply.proposal_id == Some(proposal_id) {
                found_commit = true;
                break;
            }
        }
    }
    assert!(found_commit, "Proposal should be committed");

    while node.next_action().is_some() {}

    assert_eq!(node.nodes().len(), 2);
    assert!(node.nodes().contains(&1));
}

#[test]
fn node_tests_two_node_broadcast_message_handling() {
    let mut node0 = Node::start(0);
    let node1 = Node::start(1);

    assert!(node0.init_cluster(&vec![0]));
    while node0.next_action().is_some() {}

    node0.propose_add_node(node1.id());

    let mut nodes = [node0, node1];
    run_actions(&mut nodes);

    assert_eq!(nodes[0].nodes().len(), 2);
    assert_eq!(nodes[1].nodes().len(), 2);
}

#[test]
fn node_tests_propose_command_to_non_leader_node() {
    let mut node0 = Node::start(0);
    let node1 = Node::start(1);

    assert!(node0.init_cluster(&vec![0]));
    while node0.next_action().is_some() {}

    node0.propose_add_node(node1.id());

    let mut nodes = [node0, node1];
    run_actions(&mut nodes);

    assert_eq!(nodes[0].role(), NodeRole::Leader);
    assert_ne!(nodes[1].role(), NodeRole::Leader);

    let command = Json::Str(b"test_command".to_vec());
    let proposal_id = nodes[1].propose_command(command);

    let actions = run_actions(&mut nodes);
    let found_commit = actions.iter().any(|(node_id, action)| {
        if let Action::Apply(apply) = action {
            apply.proposal_id == Some(proposal_id) && *node_id == nodes[1].id()
        } else {
            false
        }
    });
    assert!(found_commit, "Commit action with matching proposal_id should be in actions");
}

#[test]
fn node_tests_propose_query() {
    let mut node0 = Node::start(0);
    let node1 = Node::start(1);

    assert!(node0.init_cluster(&vec![0]));
    while node0.next_action().is_some() {}

    node0.propose_add_node(node1.id());

    let mut nodes = [node0, node1];
    run_actions(&mut nodes);

    assert_eq!(nodes[0].role(), NodeRole::Leader);
    assert_ne!(nodes[1].role(), NodeRole::Leader);

    let query_proposal_id = nodes[0].propose_query(Json::Str(b"q".to_vec()));

    let actions = run_actions(&mut nodes);
    let found_query = actions.iter().any(|(node_id, action)| {
        if let Action::Apply(apply) = action {
            *node_id == nodes[0].id() && apply.proposal_id == Some(query_proposal_id)
        } else {
            false
        }
    });
    assert!(found_query, "Query action with matching proposal_id should be returned by leader");
}

#[test]
fn node_tests_propose_query_on_non_leader_node() {
    let mut node0 = Node::start(0);
    let node1 = Node::start(1);

    assert!(node0.init_cluster(&vec![0]));
    while node0.next_action().is_some() {}

    node0.propose_add_node(node1.id());

    let mut nodes = [node0, node1];
    run_actions(&mut nodes);

    assert_eq!(nodes[0].role(), NodeRole::Leader);
    assert_ne!(nodes[1].role(), NodeRole::Leader);

    let query_proposal_id = nodes[1].propose_query(Json::Str(b"q".to_vec()));

    let actions = run_actions(&mut nodes);
    let found_query = actions.iter().any(|(node_id, action)| {
        if let Action::Apply(apply) = action {
            *node_id == nodes[1].id() && apply.proposal_id == Some(query_proposal_id)
        } else {
            false
        }
    });
    assert!(found_query, "Query should be redirected to leader and resolved");
}

#[test]
fn node_tests_strip_memory_log() {
    let mut node0 = Node::start(0);

    assert!(node0.init_cluster(&vec![0]));
    while node0.next_action().is_some() {}

    let command1 = Json::Str(b"command1".to_vec());
    let _proposal_id1 = node0.propose_command(command1);
    while node0.next_action().is_some() {}

    let command2 = Json::Str(b"command2".to_vec());
    let _proposal_id2 = node0.propose_command(command2);
    while node0.next_action().is_some() {}

    let commit_index = node0.commit_index();
    assert!(commit_index > 0);

    assert!(node0.strip_memory_log(commit_index));

    let remaining_commands: Vec<u64> = node0.recent_commands().iter().map(|p| p.0).collect();
    assert!(
        remaining_commands.is_empty() || remaining_commands.iter().all(|idx| *idx > commit_index)
    );

    let node1 = Node::start(1);
    node0.propose_add_node(node1.id());

    let mut nodes = [node0, node1];
    run_actions(&mut nodes);

    assert_eq!(nodes[0].nodes().len(), 2);
    assert_eq!(nodes[1].nodes().len(), 2);
    assert!(nodes[1].nodes().contains(&0));
    assert!(nodes[1].nodes().contains(&1));
}
