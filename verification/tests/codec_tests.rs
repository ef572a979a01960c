use rufton::codec::{Command, LogEntry, LogPosition, Message, ProposalId, StorageEntry, QueryMessage,
    fmt_message, get_command_values, json_to_message};
use rufton::json::Json;
use rufton::text::{parse_json, to_text};

fn pid(node_id: u64, generation: u64, local_seqno: u64) -> ProposalId {
    ProposalId { node_id, generation, local_seqno }
}

#[test]
fn storage_entry_wire_text() {
    let cases: Vec<(StorageEntry, &[u8])> = vec![
        (StorageEntry::Term(1), br#"{"type":"Term","term":1}"#),
        (StorageEntry::VotedFor(Some(0)), br#"{"type":"VotedFor","node_id":0}"#),
        (StorageEntry::VotedFor(None), br#"{"type":"VotedFor","node_id":null}"#),
        (StorageEntry::NodeGeneration(6), br#"{"type":"NodeGeneration","generation":6}"#),
    ];
    for (entry, expected) in cases {
        let json = entry.to_json();
        assert_eq!(to_text(&json), expected.to_vec());
        let back = StorageEntry::from_json(&json).expect("parses back");
        assert_eq!(back, entry);
        let reparsed = parse_json(expected).expect("text parses");
        assert_eq!(StorageEntry::from_json(&reparsed), Some(entry));
    }
}

#[test]
fn proposal_id_round_trip_on_wire() {
    let p = pid(9000, 3, 42);
    let json = p.to_json();
    assert_eq!(to_text(&json), br#"[9000,3,42]"#.to_vec());
    assert_eq!(ProposalId::from_json(&json), Some(p));
    let reparsed = parse_json(br#"[9000,3,42]"#).expect("text parses");
    assert_eq!(ProposalId::from_json(&reparsed), Some(p));
}

#[test]
fn message_round_trip_all_variants() {
    let messages = vec![
        Message::RequestVoteCall {
            from: 1,
            term: 2,
            last_position: LogPosition { term: 1, index: 7 },
        },
        Message::RequestVoteReply { from: 2, term: 2, vote_granted: true },
        Message::AppendEntriesCall {
            from: 0,
            term: 3,
            commit_index: 4,
            prev_position: LogPosition { term: 2, index: 4 },
            entries: vec![
                LogEntry::Term(3),
                LogEntry::ClusterConfig { voters: vec![0, 1, 2], new_voters: vec![] },
                LogEntry::Command(Json::Str(b"payload".to_vec())),
            ],
        },
        Message::AppendEntriesReply {
            from: 1,
            term: 3,
            generation: 5,
            last_position: LogPosition { term: 3, index: 9 },
        },
    ];
    for m in messages {
        let json = fmt_message(&m);
        let back = json_to_message(&json).expect("message parses back");
        assert_eq!(back, m);
        let text = to_text(&json);
        let reparsed = parse_json(&text).expect("wire text parses");
        assert_eq!(json_to_message(&reparsed), Some(m));
    }
}

#[test]
fn message_wire_shape() {
    let m = Message::RequestVoteCall {
        from: 1,
        term: 2,
        last_position: LogPosition { term: 1, index: 7 },
    };
    assert_eq!(
        to_text(&fmt_message(&m)),
        br#"{"type":"RequestVoteCall","from":1,"term":2,"last_term":1,"last_index":7}"#.to_vec()
    );
}

#[test]
fn command_round_trip() {
    let commands = vec![
        Command::Apply { proposal_id: pid(0, 0, 0), command: Json::Str(b"x".to_vec()) },
        Command::AddNode { proposal_id: pid(0, 0, 1), id: 9001 },
        Command::RemoveNode { proposal_id: pid(0, 0, 2), id: 9001 },
        Command::Query,
    ];
    for c in commands {
        let json = c.to_json();
        assert_eq!(Command::from_json(&json), Some(c));
    }
}

#[test]
fn query_message_round_trip() {
    let messages = vec![
        QueryMessage::Redirect {
            from: 9001,
            proposal_id: pid(9001, 1, 0),
            request: Json::Str(b"q".to_vec()),
        },
        QueryMessage::Proposed {
            proposal_id: pid(9001, 1, 0),
            position: LogPosition { term: 2, index: 5 },
            request: Json::Str(b"q".to_vec()),
        },
    ];
    for q in messages {
        let json = q.to_json();
        assert_eq!(QueryMessage::from_json(&json), Some(q));
    }
}

#[test]
fn command_values_follow_positions() {
    let m = Message::AppendEntriesCall {
        from: 0,
        term: 2,
        commit_index: 0,
        prev_position: LogPosition { term: 1, index: 3 },
        entries: vec![
            LogEntry::Command(Json::Num(10)),
            LogEntry::Term(2),
            LogEntry::Command(Json::Num(20)),
        ],
    };
    let values = get_command_values(&m);
    assert_eq!(values.len(), 2);
    assert_eq!(values[0].0, LogPosition { term: 1, index: 4 });
    assert_eq!(values[0].1, Json::Num(10));
    assert_eq!(values[1].0, LogPosition { term: 2, index: 6 });
    assert_eq!(values[1].1, Json::Num(20));
}

#[test]
fn parse_handles_whitespace_and_escapes() {
    let j = parse_json(br#" { "a" : [ 1 , true , null , "es\"caped" ] } "#).expect("parses");
    let a = j.get("a").expect("member a");
    let items = a.as_arr().expect("array");
    assert_eq!(items.len(), 4);
    assert_eq!(items[0], Json::Num(1));
    assert_eq!(items[1], Json::Bool(true));
    assert_eq!(items[2], Json::Null);
    assert_eq!(items[3], Json::Str(br#"es\"caped"#.to_vec()));
}

#[test]
fn parse_keeps_uncommon_numbers_verbatim() {
    let j = parse_json(b"[-5,1.5,1e9,18446744073709551615,18446744073709551616]").expect("parses");
    let items = match j {
        Json::Arr(items) => items,
        _ => panic!("expected array"),
    };
    assert_eq!(items[0], Json::NumRaw(b"-5".to_vec()));
    assert_eq!(items[1], Json::NumRaw(b"1.5".to_vec()));
    assert_eq!(items[2], Json::NumRaw(b"1e9".to_vec()));
    assert_eq!(items[3], Json::Num(u64::MAX));
    assert_eq!(items[4], Json::NumRaw(b"18446744073709551616".to_vec()));
}

#[test]
fn parse_rejects_garbage() {
    assert!(parse_json(b"").is_none());
    assert!(parse_json(b"{").is_none());
    assert!(parse_json(b"nul").is_none());
    assert!(parse_json(b"{}x").is_none());
    assert!(parse_json(b"\"unterminated").is_none());
}

#[test]
fn write_then_parse_is_identity() {
    let value = parse_json(
        br#"{"a":[1,2,{"b":null}],"c":"text","d":true,"e":-7}"#,
    ).expect("parses");
    let text = to_text(&value);
    assert_eq!(text, br#"{"a":[1,2,{"b":null}],"c":"text","d":true,"e":-7}"#.to_vec());
    let again = parse_json(&text).expect("reparses");
    assert_eq!(again, value);
}
