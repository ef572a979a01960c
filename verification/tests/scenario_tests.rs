use std::collections::HashMap;
use rufton::json::Json;
use rufton::jsonrpc::{JsonRpcRequest, JsonRpcRequestId, write_response_ok};
use rufton::node::{Action, Node, NodeRole};
use rufton::text::{parse_json, to_text};

/// A tiny key-value machine, as the host of a node would run it.
#[derive(Default, PartialEq)]
struct Kv {
    map: HashMap<Vec<u8>, Json>,
}

impl Kv {
    fn apply(&mut self, request: &Json) -> Json {
        let method = match request.get("method") {
            Some(Json::Str(m)) => m.clone(),
            _ => return Json::Null,
        };
        let params = request.get("params");
        if method == b"put".to_vec() {
            let params = params.expect("put params");
            let key = match params.get("key") {
                Some(Json::Str(k)) => k.clone(),
                _ => return Json::Null,
            };
            let value = clone_json(params.get("value").expect("put value"));
            let old = self.map.insert(key, value);
            Json::Obj(vec![(b"old".to_vec(), old.unwrap_or(Json::Null))])
        } else if method == b"get".to_vec() {
            let params = params.expect("get params");
            let key = match params.get("key") {
                Some(Json::Str(k)) => k.clone(),
                _ => return Json::Null,
            };
            let value = self.map.get(&key).map(clone_json).unwrap_or(Json::Null);
            Json::Obj(vec![(b"value".to_vec(), value)])
        } else {
            Json::Null
        }
    }

    fn as_json(&self) -> Json {
        let mut members: Vec<(Vec<u8>, Json)> = self
            .map
            .iter()
            .map(|(k, v)| (k.clone(), clone_json(v)))
            .collect();
        members.sort_by(|a, b| a.0.cmp(&b.0));
        Json::Obj(members)
    }
}

fn clone_json(j: &Json) -> Json {
    parse_json(&to_text(j)).expect("canonical text reparses")
}

struct Cluster {
    ids: Vec<u64>,
    nodes: Vec<Node>,
    machines: Vec<Kv>,
    journals: Vec<Vec<Json>>,
    replies: Vec<Vec<(u64, Json)>>,
    applies: Vec<Vec<(u64, u64, bool, Json)>>,
}

impl Cluster {
    fn new(ids: &[u64]) -> Cluster {
        Cluster {
            ids: ids.to_vec(),
            nodes: ids.iter().map(|id| Node::start(*id)).collect(),
            machines: ids.iter().map(|_| Kv::default()).collect(),
            journals: ids.iter().map(|_| Vec::new()).collect(),
            replies: ids.iter().map(|_| Vec::new()).collect(),
            applies: ids.iter().map(|_| Vec::new()).collect(),
        }
    }

    fn index_of(&self, id: u64) -> usize {
        self.ids.iter().position(|x| *x == id).expect("known node id")
    }

    fn run(&mut self) {
        for _ in 0..10000 {
            let mut did_something = false;
            for i in 0..self.nodes.len() {
                while let Some(action) = self.nodes[i].next_action() {
                    did_something = true;
                    match action {
                        Action::AppendStorageEntry(j) => {
                            self.journals[i].push(j);
                        }
                        Action::BroadcastMessage(m) => {
                            for k in 0..self.nodes.len() {
                                if k != i {
                                    self.nodes[k].handle_message(&m);
                                }
                            }
                        }
                        Action::SendMessage(dst, m) => {
                            let k = self.index_of(dst);
                            self.nodes[k].handle_message(&m);
                        }
                        Action::SendSnapshot(dst) => {
                            let k = self.index_of(dst);
                            let applied = self.nodes[i].applied_index();
                            let user = self.machines[i].as_json();
                            if let Some(snapshot) = self.nodes[i].create_snapshot(applied, &user) {
                                let (ok, machine) = self.nodes[k].load(&vec![snapshot]);
                                assert!(ok);
                                if let Some(machine_json) = machine {
                                    self.machines[k] = kv_from_json(&machine_json);
                                }
                            }
                        }
                        Action::Apply(apply) => {
                            let result = self.machines[i].apply(&apply.request);
                            self.applies[i].push((
                                apply.index,
                                self.ids[i],
                                apply.is_proposer,
                                clone_json(&apply.request),
                            ));
                            if apply.is_proposer {
                                if let Some(Json::Num(id)) = apply.request.get("id") {
                                    self.replies[i].push((*id, result));
                                }
                            }
                        }
                        Action::SetTimeout(_) | Action::NotifyEvent(_) => {}
                    }
                }
            }
            if !did_something {
                return;
            }
        }
        panic!("cluster failed to quiesce");
    }
}

fn kv_from_json(j: &Json) -> Kv {
    let mut kv = Kv::default();
    if let Json::Obj(members) = j {
        for (k, v) in members {
            kv.map.insert(k.clone(), clone_json(v));
        }
    }
    kv
}

fn client_request(line: &[u8]) -> (Json, u64) {
    let req = JsonRpcRequest::parse(line).expect("valid client request");
    let id = match req.id {
        Some(JsonRpcRequestId::Integer(n)) => n as u64,
        _ => panic!("integer id expected"),
    };
    (parse_json(line).expect("request json"), id)
}

#[test]
fn single_node_propose_and_drain_applies_once() {
    let mut node = Node::start(0);
    assert!(node.init_cluster(&vec![0]));
    while node.next_action().is_some() {}

    let request = Json::Str(b"r".to_vec());
    let pid = node.propose_command(request);

    let mut proposer_applies = 0;
    while let Some(action) = node.next_action() {
        if let Action::Apply(apply) = action {
            if apply.proposal_id == Some(pid) {
                assert!(apply.is_proposer);
                assert_eq!(apply.request, Json::Str(b"r".to_vec()));
                proposer_applies += 1;
            }
        }
    }
    assert_eq!(proposer_applies, 1);
}

#[test]
fn single_node_kv_put_then_get() {
    let mut cluster = Cluster::new(&[0]);
    assert!(cluster.nodes[0].init_cluster(&vec![0]));
    cluster.run();

    let (put, _) = client_request(
        br#"{"jsonrpc":"2.0","id":1,"method":"put","params":{"key":"a","value":1}}"#,
    );
    cluster.nodes[0].propose_command(put);
    cluster.run();

    let (reply_id, result) = cluster.replies[0].remove(0);
    let reply = write_response_ok(&JsonRpcRequestId::Integer(reply_id as i64), result);
    assert_eq!(to_text(&reply), br#"{"jsonrpc":"2.0","id":1,"result":{"old":null}}"#.to_vec());

    let (get, _) = client_request(br#"{"jsonrpc":"2.0","id":2,"method":"get","params":{"key":"a"}}"#);
    cluster.nodes[0].propose_query(get);
    cluster.run();

    let (reply_id, result) = cluster.replies[0].remove(0);
    let reply = write_response_ok(&JsonRpcRequestId::Integer(reply_id as i64), result);
    assert_eq!(to_text(&reply), br#"{"jsonrpc":"2.0","id":2,"result":{"value":1}}"#.to_vec());
}

fn three_node_cluster() -> Cluster {
    let mut cluster = Cluster::new(&[9000, 9001, 9002]);
    assert!(cluster.nodes[0].init_cluster(&vec![9000, 9001, 9002]));
    cluster.nodes[0].handle_timeout();
    cluster.run();
    cluster
}

#[test]
fn three_nodes_elect_exactly_one_leader() {
    let cluster = three_node_cluster();
    let leaders = cluster.nodes.iter().filter(|n| n.role() == NodeRole::Leader).count();
    assert_eq!(leaders, 1);
}

#[test]
fn write_through_follower_applies_everywhere() {
    let mut cluster = three_node_cluster();
    let follower = cluster
        .nodes
        .iter()
        .position(|n| n.role() != NodeRole::Leader)
        .expect("a follower exists");

    let (put, _) = client_request(
        br#"{"jsonrpc":"2.0","id":1,"method":"put","params":{"key":"k","value":"v"}}"#,
    );
    cluster.nodes[follower].propose_command(put);
    cluster.run();

    let proposer_applies: Vec<&(u64, u64, bool, Json)> = cluster
        .applies
        .iter()
        .flatten()
        .filter(|(_, _, is_proposer, request)| *is_proposer && request.get("method").is_some())
        .collect();
    assert_eq!(proposer_applies.len(), 1);
    assert_eq!(proposer_applies[0].1, cluster.ids[follower]);

    let put_index = proposer_applies[0].0;
    let all_at_index: Vec<&(u64, u64, bool, Json)> = cluster
        .applies
        .iter()
        .flatten()
        .filter(|(index, _, _, _)| *index == put_index)
        .collect();
    assert_eq!(all_at_index.len(), 3);
    let reference = to_text(&all_at_index[0].3);
    for apply in &all_at_index {
        assert_eq!(to_text(&apply.3), reference);
    }
    for kv in &cluster.machines {
        assert_eq!(kv.map.get(&b"k".to_vec()), Some(&Json::Str(b"v".to_vec())));
    }
}

#[test]
fn linearisable_read_through_follower() {
    let mut cluster = three_node_cluster();
    let leader = cluster
        .nodes
        .iter()
        .position(|n| n.role() == NodeRole::Leader)
        .expect("a leader exists");
    let (put, _) = client_request(
        br#"{"jsonrpc":"2.0","id":1,"method":"put","params":{"key":"k","value":7}}"#,
    );
    cluster.nodes[leader].propose_command(put);
    cluster.run();
    let put_index = cluster
        .applies
        .iter()
        .flatten()
        .filter(|(_, _, is_proposer, _)| *is_proposer)
        .map(|(index, _, _, _)| *index)
        .max()
        .expect("the put applied");

    let follower = cluster
        .nodes
        .iter()
        .position(|n| n.role() != NodeRole::Leader)
        .expect("a follower exists");
    let (get, _) = client_request(
        br#"{"jsonrpc":"2.0","id":2,"method":"get","params":{"key":"k"}}"#,
    );
    cluster.nodes[follower].propose_query(get);
    cluster.run();

    let follower_id = cluster.ids[follower];
    let read = cluster.applies[follower]
        .iter()
        .find(|(_, node, is_proposer, request)| {
            *node == follower_id && *is_proposer && request
                .get("method")
                .map(|m| m.is_str("get"))
                .unwrap_or(false)
        })
        .expect("the read applied on the follower");
    assert!(read.0 >= put_index);
    let (_, result) = cluster.replies[follower].pop().expect("read reply");
    assert_eq!(to_text(&result), br#"{"value":7}"#.to_vec());
}

#[test]
fn snapshot_and_rejoin_transfers_the_machine() {
    let mut cluster = three_node_cluster();
    let leader = cluster
        .nodes
        .iter()
        .position(|n| n.role() == NodeRole::Leader)
        .expect("a leader exists");

    for i in 0..1000u64 {
        let line = format!(
            r#"{{"jsonrpc":"2.0","id":{},"method":"put","params":{{"key":"k{}","value":{}}}}}"#,
            i, i % 50, i
        );
        let (put, _) = client_request(line.as_bytes());
        cluster.nodes[leader].propose_command(put);
        if i % 100 == 99 {
            cluster.run();
        }
    }
    cluster.run();

    let applied = cluster.nodes[leader].applied_index();
    assert!(cluster.nodes[leader].strip_memory_log(applied));

    cluster.ids.push(9003);
    cluster.nodes.push(Node::start(9003));
    cluster.machines.push(Kv::default());
    cluster.journals.push(Vec::new());
    cluster.replies.push(Vec::new());
    cluster.applies.push(Vec::new());

    cluster.nodes[leader].propose_add_node(9003);
    cluster.run();

    let joined = cluster.index_of(9003);
    assert_eq!(cluster.machines[joined].as_json(), cluster.machines[leader].as_json());
    assert!(cluster.nodes[joined].initialized);
}

#[test]
fn restart_preserves_state_from_the_journal() {
    let mut cluster = Cluster::new(&[0]);
    assert!(cluster.nodes[0].init_cluster(&vec![0]));
    cluster.run();
    let (put, _) = client_request(
        br#"{"jsonrpc":"2.0","id":1,"method":"put","params":{"key":"a","value":1}}"#,
    );
    cluster.nodes[0].propose_command(put);
    cluster.run();

    let journal: Vec<Json> = cluster.journals[0]
        .iter()
        .map(|j| parse_json(&to_text(j)).expect("journal line reparses"))
        .collect();

    let mut restarted = Node::start(0);
    let (ok, machine) = restarted.load(&journal);
    assert!(ok);
    assert!(machine.is_none());
    assert!(restarted.initialized);
    assert_eq!(restarted.generation(), 1);

    restarted.handle_timeout();
    let mut kv = Kv::default();
    for _ in 0..100 {
        let mut progressed = false;
        while let Some(action) = restarted.next_action() {
            progressed = true;
            if let Action::Apply(apply) = action {
                kv.apply(&apply.request);
            }
        }
        if !progressed {
            break;
        }
    }
    let value = kv.map.get(&b"a".to_vec()).expect("replayed value");
    assert_eq!(value, &Json::Num(1));
}
