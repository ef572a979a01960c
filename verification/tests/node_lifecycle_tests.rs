use rufton::codec::StorageEntry;
use rufton::json::Json;
use rufton::node::{Action, Node, NodeRole};
use rufton::text::to_text;

fn storage_text(action: &Action) -> Vec<u8> {
    match action {
        Action::AppendStorageEntry(j) => to_text(j),
        other => panic!("expected a storage append, got {:?}", other),
    }
}

#[test]
fn node_init_cluster() {
    let mut node = Node::start(0);
    assert!(node.init_cluster(&vec![0]));
    assert!(!node.init_cluster(&vec![0]));
    let first = node.next_action().expect("generation record");
    assert_eq!(storage_text(&first), br#"{"type":"NodeGeneration","generation":0}"#.to_vec());
    let mut saw_timeout = false;
    let mut saw_term = false;
    let mut saw_voted_for = false;
    let mut saw_log_entries = false;
    let mut saw_commit = false;
    while let Some(action) = node.next_action() {
        match action {
            Action::SetTimeout(role) => {
                saw_timeout = true;
                assert_eq!(role, NodeRole::Leader);
            }
            Action::AppendStorageEntry(j) => {
                let text = to_text(&j);
                if text == br#"{"type":"Term","term":1}"#.to_vec() {
                    saw_term = true;
                } else if text == br#"{"type":"VotedFor","node_id":0}"#.to_vec() {
                    saw_voted_for = true;
                } else if text.starts_with(br#"{"type":"LogEntries""#) {
                    saw_log_entries = true;
                } else {
                    panic!("unexpected storage line: {:?}", String::from_utf8_lossy(&text));
                }
            }
            Action::Apply(_) => {
                saw_commit = true;
            }
            other => panic!("unexpected action {:?}", other),
        }
    }
    assert!(saw_timeout && saw_term && saw_voted_for && saw_log_entries && saw_commit);
    assert_eq!(node.nodes().len(), 1);
    assert!(node.nodes().contains(&0));
}

#[test]
fn node_load_increments_generation() {
    let mut node = Node::start(0);
    node.action_queue.clear();

    let entry = StorageEntry::NodeGeneration(0).to_json();
    node.load(&vec![entry]);

    assert_eq!(node.generation(), 1);
    let first = node.action_queue.pop_front().expect("generation record");
    assert_eq!(storage_text(&first), br#"{"type":"NodeGeneration","generation":1}"#.to_vec());
}

#[test]
fn node_load_uses_last_generation() {
    let mut node = Node::start(0);
    node.action_queue.clear();

    let entry1 = StorageEntry::NodeGeneration(2).to_json();
    let entry2 = StorageEntry::NodeGeneration(5).to_json();
    node.load(&vec![entry1, entry2]);

    assert_eq!(node.generation(), 6);
    let first = node.action_queue.pop_front().expect("generation record");
    assert_eq!(storage_text(&first), br#"{"type":"NodeGeneration","generation":6}"#.to_vec());
}

#[test]
fn node_load_of_empty_journal_succeeds_without_machine() {
    let mut node = Node::start(0);
    node.action_queue.clear();
    let (ok, machine) = node.load(&vec![]);
    assert!(ok);
    assert!(machine.is_none());
    assert_eq!(node.generation(), 1);
    assert!(!node.initialized);
}

#[test]
fn node_load_rejects_malformed_recognised_line() {
    let mut node = Node::start(0);
    let bad = rufton::text::parse_json(br#"{"type":"NodeGeneration"}"#).expect("parses");
    let (ok, machine) = node.load(&vec![bad]);
    assert!(!ok);
    assert!(machine.is_none());
    assert_eq!(node.generation(), 0);
}

#[test]
fn node_create_snapshot_includes_node_state() {
    let mut node = Node::start(0);
    assert!(node.init_cluster(&vec![0]));
    while node.next_action().is_some() {}

    let applied_index = node.applied_index();
    let user = Json::Str(b"user".to_vec());
    let snapshot = node.create_snapshot(applied_index, &user).expect("snapshot should be created");

    let node_state = snapshot.get("node_state").expect("node_state");
    let node_id = node_state.get("node_id").expect("node_id").as_u64().expect("node_id int");
    let term = node_state.get("term").expect("term").as_u64().expect("term int");
    let voted_for = match node_state.get("voted_for").expect("voted_for") {
        Json::Null => None,
        other => Some(other.as_u64().expect("voted_for int")),
    };

    assert_eq!(node_id, node.id());
    assert_eq!(term, node.current_term());
    assert_eq!(voted_for, node.voted_for());
}

#[test]
fn node_create_snapshot_refused_off_applied_index() {
    let mut node = Node::start(0);
    assert!(node.init_cluster(&vec![0]));
    while node.next_action().is_some() {}
    let user = Json::Null;
    assert!(node.create_snapshot(node.applied_index() + 1, &user).is_none());
}

#[test]
fn node_strip_memory_log_refused_past_applied_index() {
    let mut node = Node::start(0);
    assert!(node.init_cluster(&vec![0]));
    while node.next_action().is_some() {}
    let recent_before: Vec<(u64, Json)> = node.recent_commands().iter().map(|p| (p.0, rufton::text::to_text(&p.1))).map(|(k, t)| (k, rufton::text::parse_json(&t).unwrap())).collect();
    assert!(!node.strip_memory_log(node.applied_index() + 1));
    assert_eq!(node.recent_commands(), &recent_before);
}

fn snapshot_line_tail() -> String {
    let mut tail = String::new();
    tail.push_str(r#"},"node_state":{"node_id":1,"term":1,"voted_for":1},"#);
    tail.push_str(r#""config":{"voters":[0],"new_voters":[]},"#);
    tail.push_str(r#""user_machine":null,"machine":{"nodes":[0]},"log_entries":[]}"#);
    tail
}

#[test]
fn node_load_rejects_snapshot_at_last_representable_index() {
    let mut node = Node::start(0);
    let head = r#"{"type":"InstallSnapshotRpc","from":1,"term":1,"position":{"term":1,"index":"#;
    let tail = snapshot_line_tail();
    let line = format!("{}{}{}", head, u64::MAX, tail);
    let snapshot = rufton::text::parse_json(line.as_bytes()).expect("parses");
    let (ok, machine) = node.load(&vec![snapshot]);
    assert!(!ok);
    assert!(machine.is_none());
    assert_eq!(node.generation(), 0);
}

#[test]
fn node_load_rejects_log_entries_at_last_representable_index() {
    let mut node = Node::start(0);
    let line = format!(
        r#"{{"type":"LogEntries","term":1,"index":{},"entries":[]}}"#,
        u64::MAX
    );
    let frame = rufton::text::parse_json(line.as_bytes()).expect("parses");
    let (ok, machine) = node.load(&vec![frame]);
    assert!(!ok);
    assert!(machine.is_none());
    assert_eq!(node.generation(), 0);
}

#[test]
fn node_drain_keeps_persistence_first() {
    let mut node = Node::start(0);
    assert!(node.init_cluster(&vec![0]));
    let mut seen_emission = false;
    while let Some(action) = node.next_action() {
        match action {
            Action::AppendStorageEntry(_) => {
                assert!(!seen_emission, "journal append after an outbound or apply action");
            }
            Action::BroadcastMessage(_) | Action::SendMessage(_, _) | Action::Apply(_) => {
                seen_emission = true;
            }
            _ => {}
        }
    }
    assert!(seen_emission, "the solo cluster should commit and apply");
}
