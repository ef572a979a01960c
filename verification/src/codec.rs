//! Conversion between Raft data (messages, log entries, storage entries)
//! and their JSON wire forms.
//!
//! Every conversion has a mathematical mirror, and parsing a formatted value
//! is proved to give the value back: the round-trip laws of the wire format.

use vstd::prelude::*;
use crate::json::{Json, JsonV, ObjBuilder, bytes_eq, clone_bytes, spec_get, spec_members, spec_obj_get, view_arr, view_members, lemma_view_arr, lemma_view_members};

verus! {

use vstd::string::StringSliceAdditionalSpecFns;

broadcast use vstd::std_specs::vec::group_vec_axioms;

// The byte form of each wire tag and key, pinned so that parsers can be
// reasoned about concretely: one lemma for each piece of wire text.

/// The bytes of the wire text `type`.
pub proof fn lemma_bytes_type()
    ensures
        ("type").spec_bytes() == seq![116u8, 121u8, 112u8, 101u8],
{
    broadcast use vstd::string::is_ascii_spec_bytes;

    reveal_strlit("type");
    assert(vstd::utf8::is_ascii_chars(("type")@));
    assert(vstd::string::is_ascii(("type")));
    assert(("type").spec_bytes() =~= seq![116u8, 121u8, 112u8, 101u8]);
}

/// The bytes of the wire text `term`.
pub proof fn lemma_bytes_term()
    ensures
        ("term").spec_bytes() == seq![116u8, 101u8, 114u8, 109u8],
{
    broadcast use vstd::string::is_ascii_spec_bytes;

    reveal_strlit("term");
    assert(vstd::utf8::is_ascii_chars(("term")@));
    assert(vstd::string::is_ascii(("term")));
    assert(("term").spec_bytes() =~= seq![116u8, 101u8, 114u8, 109u8]);
}

/// The bytes of the wire text `index`.
pub proof fn lemma_bytes_index()
    ensures
        ("index").spec_bytes() == seq![105u8, 110u8, 100u8, 101u8, 120u8],
{
    broadcast use vstd::string::is_ascii_spec_bytes;

    reveal_strlit("index");
    assert(vstd::utf8::is_ascii_chars(("index")@));
    assert(vstd::string::is_ascii(("index")));
    assert(("index").spec_bytes() =~= seq![105u8, 110u8, 100u8, 101u8, 120u8]);
}

/// The bytes of the wire text `entries`.
pub proof fn lemma_bytes_entries()
    ensures
        ("entries").spec_bytes() == seq![101u8, 110u8, 116u8, 114u8, 105u8, 101u8, 115u8],
{
    broadcast use vstd::string::is_ascii_spec_bytes;

    reveal_strlit("entries");
    assert(vstd::utf8::is_ascii_chars(("entries")@));
    assert(vstd::string::is_ascii(("entries")));
    assert(("entries").spec_bytes() =~= seq![101u8, 110u8, 116u8, 114u8, 105u8, 101u8, 115u8]);
}

/// The bytes of the wire text `from`.
pub proof fn lemma_bytes_from()
    ensures
        ("from").spec_bytes() == seq![102u8, 114u8, 111u8, 109u8],
{
    broadcast use vstd::string::is_ascii_spec_bytes;

    reveal_strlit("from");
    assert(vstd::utf8::is_ascii_chars(("from")@));
    assert(vstd::string::is_ascii(("from")));
    assert(("from").spec_bytes() =~= seq![102u8, 114u8, 111u8, 109u8]);
}

/// The bytes of the wire text `last_term`.
pub proof fn lemma_bytes_last_term()
    ensures
        ("last_term").spec_bytes() == seq![108u8, 97u8, 115u8, 116u8, 95u8, 116u8, 101u8, 114u8, 109u8],
{
    broadcast use vstd::string::is_ascii_spec_bytes;

    reveal_strlit("last_term");
    assert(vstd::utf8::is_ascii_chars(("last_term")@));
    assert(vstd::string::is_ascii(("last_term")));
    assert(("last_term").spec_bytes() =~= seq![108u8, 97u8, 115u8, 116u8, 95u8, 116u8, 101u8, 114u8, 109u8]);
}

/// The bytes of the wire text `last_index`.
pub proof fn lemma_bytes_last_index()
    ensures
        ("last_index").spec_bytes() == seq![108u8, 97u8, 115u8, 116u8, 95u8, 105u8, 110u8, 100u8, 101u8, 120u8],
{
    broadcast use vstd::string::is_ascii_spec_bytes;

    reveal_strlit("last_index");
    assert(vstd::utf8::is_ascii_chars(("last_index")@));
    assert(vstd::string::is_ascii(("last_index")));
    assert(("last_index").spec_bytes() =~= seq![108u8, 97u8, 115u8, 116u8, 95u8, 105u8, 110u8, 100u8, 101u8, 120u8]);
}

/// The bytes of the wire text `vote_granted`.
pub proof fn lemma_bytes_vote_granted()
    ensures
        ("vote_granted").spec_bytes() == seq![118u8, 111u8, 116u8, 101u8, 95u8, 103u8, 114u8, 97u8, 110u8, 116u8, 101u8, 100u8],
{
    broadcast use vstd::string::is_ascii_spec_bytes;

    reveal_strlit("vote_granted");
    assert(vstd::utf8::is_ascii_chars(("vote_granted")@));
    assert(vstd::string::is_ascii(("vote_granted")));
    assert(("vote_granted").spec_bytes() =~= seq![118u8, 111u8, 116u8, 101u8, 95u8, 103u8, 114u8, 97u8, 110u8, 116u8, 101u8, 100u8]);
}

/// The bytes of the wire text `commit_index`.
pub proof fn lemma_bytes_commit_index()
    ensures
        ("commit_index").spec_bytes() == seq![99u8, 111u8, 109u8, 109u8, 105u8, 116u8, 95u8, 105u8, 110u8, 100u8, 101u8, 120u8],
{
    broadcast use vstd::string::is_ascii_spec_bytes;

    reveal_strlit("commit_index");
    assert(vstd::utf8::is_ascii_chars(("commit_index")@));
    assert(vstd::string::is_ascii(("commit_index")));
    assert(("commit_index").spec_bytes() =~= seq![99u8, 111u8, 109u8, 109u8, 105u8, 116u8, 95u8, 105u8, 110u8, 100u8, 101u8, 120u8]);
}

/// The bytes of the wire text `prev_term`.
pub proof fn lemma_bytes_prev_term()
    ensures
        ("prev_term").spec_bytes() == seq![112u8, 114u8, 101u8, 118u8, 95u8, 116u8, 101u8, 114u8, 109u8],
{
    broadcast use vstd::string::is_ascii_spec_bytes;

    reveal_strlit("prev_term");
    assert(vstd::utf8::is_ascii_chars(("prev_term")@));
    assert(vstd::string::is_ascii(("prev_term")));
    assert(("prev_term").spec_bytes() =~= seq![112u8, 114u8, 101u8, 118u8, 95u8, 116u8, 101u8, 114u8, 109u8]);
}

/// The bytes of the wire text `prev_index`.
pub proof fn lemma_bytes_prev_index()
    ensures
        ("prev_index").spec_bytes() == seq![112u8, 114u8, 101u8, 118u8, 95u8, 105u8, 110u8, 100u8, 101u8, 120u8],
{
    broadcast use vstd::string::is_ascii_spec_bytes;

    reveal_strlit("prev_index");
    assert(vstd::utf8::is_ascii_chars(("prev_index")@));
    assert(vstd::string::is_ascii(("prev_index")));
    assert(("prev_index").spec_bytes() =~= seq![112u8, 114u8, 101u8, 118u8, 95u8, 105u8, 110u8, 100u8, 101u8, 120u8]);
}

/// The bytes of the wire text `generation`.
pub proof fn lemma_bytes_generation()
    ensures
        ("generation").spec_bytes() == seq![103u8, 101u8, 110u8, 101u8, 114u8, 97u8, 116u8, 105u8, 111u8, 110u8],
{
    broadcast use vstd::string::is_ascii_spec_bytes;

    reveal_strlit("generation");
    assert(vstd::utf8::is_ascii_chars(("generation")@));
    assert(vstd::string::is_ascii(("generation")));
    assert(("generation").spec_bytes() =~= seq![103u8, 101u8, 110u8, 101u8, 114u8, 97u8, 116u8, 105u8, 111u8, 110u8]);
}

/// The bytes of the wire text `node_id`.
pub proof fn lemma_bytes_node_id()
    ensures
        ("node_id").spec_bytes() == seq![110u8, 111u8, 100u8, 101u8, 95u8, 105u8, 100u8],
{
    broadcast use vstd::string::is_ascii_spec_bytes;

    reveal_strlit("node_id");
    assert(vstd::utf8::is_ascii_chars(("node_id")@));
    assert(vstd::string::is_ascii(("node_id")));
    assert(("node_id").spec_bytes() =~= seq![110u8, 111u8, 100u8, 101u8, 95u8, 105u8, 100u8]);
}

/// The bytes of the wire text `voted_for`.
pub proof fn lemma_bytes_voted_for()
    ensures
        ("voted_for").spec_bytes() == seq![
            118u8,
            111u8,
            116u8,
            101u8,
            100u8,
            95u8,
            102u8,
            111u8,
            114u8,
        ],
{
    broadcast use vstd::string::is_ascii_spec_bytes;

    reveal_strlit("voted_for");
    assert(vstd::utf8::is_ascii_chars(("voted_for")@));
    assert(vstd::string::is_ascii(("voted_for")));
    assert(("voted_for").spec_bytes() =~= seq![
        118u8,
        111u8,
        116u8,
        101u8,
        100u8,
        95u8,
        102u8,
        111u8,
        114u8,
    ]);
}

/// The bytes of the wire text `voters`.
pub proof fn lemma_bytes_voters()
    ensures
        ("voters").spec_bytes() == seq![118u8, 111u8, 116u8, 101u8, 114u8, 115u8],
{
    broadcast use vstd::string::is_ascii_spec_bytes;

    reveal_strlit("voters");
    assert(vstd::utf8::is_ascii_chars(("voters")@));
    assert(vstd::string::is_ascii(("voters")));
    assert(("voters").spec_bytes() =~= seq![118u8, 111u8, 116u8, 101u8, 114u8, 115u8]);
}

/// The bytes of the wire text `new_voters`.
pub proof fn lemma_bytes_new_voters()
    ensures
        ("new_voters").spec_bytes() == seq![110u8, 101u8, 119u8, 95u8, 118u8, 111u8, 116u8, 101u8, 114u8, 115u8],
{
    broadcast use vstd::string::is_ascii_spec_bytes;

    reveal_strlit("new_voters");
    assert(vstd::utf8::is_ascii_chars(("new_voters")@));
    assert(vstd::string::is_ascii(("new_voters")));
    assert(("new_voters").spec_bytes() =~= seq![110u8, 101u8, 119u8, 95u8, 118u8, 111u8, 116u8, 101u8, 114u8, 115u8]);
}

/// The bytes of the wire text `value`.
pub proof fn lemma_bytes_value()
    ensures
        ("value").spec_bytes() == seq![118u8, 97u8, 108u8, 117u8, 101u8],
{
    broadcast use vstd::string::is_ascii_spec_bytes;

    reveal_strlit("value");
    assert(vstd::utf8::is_ascii_chars(("value")@));
    assert(vstd::string::is_ascii(("value")));
    assert(("value").spec_bytes() =~= seq![118u8, 97u8, 108u8, 117u8, 101u8]);
}

/// The bytes of the wire text `proposal_id`.
pub proof fn lemma_bytes_proposal_id()
    ensures
        ("proposal_id").spec_bytes() == seq![112u8, 114u8, 111u8, 112u8, 111u8, 115u8, 97u8, 108u8, 95u8, 105u8, 100u8],
{
    broadcast use vstd::string::is_ascii_spec_bytes;

    reveal_strlit("proposal_id");
    assert(vstd::utf8::is_ascii_chars(("proposal_id")@));
    assert(vstd::string::is_ascii(("proposal_id")));
    assert(("proposal_id").spec_bytes() =~= seq![112u8, 114u8, 111u8, 112u8, 111u8, 115u8, 97u8, 108u8, 95u8, 105u8, 100u8]);
}

/// The bytes of the wire text `id`.
pub proof fn lemma_bytes_id()
    ensures
        ("id").spec_bytes() == seq![105u8, 100u8],
{
    broadcast use vstd::string::is_ascii_spec_bytes;

    reveal_strlit("id");
    assert(vstd::utf8::is_ascii_chars(("id")@));
    assert(vstd::string::is_ascii(("id")));
    assert(("id").spec_bytes() =~= seq![105u8, 100u8]);
}

/// The bytes of the wire text `command`.
pub proof fn lemma_bytes_command()
    ensures
        ("command").spec_bytes() == seq![99u8, 111u8, 109u8, 109u8, 97u8, 110u8, 100u8],
{
    broadcast use vstd::string::is_ascii_spec_bytes;

    reveal_strlit("command");
    assert(vstd::utf8::is_ascii_chars(("command")@));
    assert(vstd::string::is_ascii(("command")));
    assert(("command").spec_bytes() =~= seq![99u8, 111u8, 109u8, 109u8, 97u8, 110u8, 100u8]);
}

/// The bytes of the wire text `request`.
pub proof fn lemma_bytes_request()
    ensures
        ("request").spec_bytes() == seq![114u8, 101u8, 113u8, 117u8, 101u8, 115u8, 116u8],
{
    broadcast use vstd::string::is_ascii_spec_bytes;

    reveal_strlit("request");
    assert(vstd::utf8::is_ascii_chars(("request")@));
    assert(vstd::string::is_ascii(("request")));
    assert(("request").spec_bytes() =~= seq![114u8, 101u8, 113u8, 117u8, 101u8, 115u8, 116u8]);
}

/// The bytes of the wire text `position`.
pub proof fn lemma_bytes_position()
    ensures
        ("position").spec_bytes() == seq![112u8, 111u8, 115u8, 105u8, 116u8, 105u8, 111u8, 110u8],
{
    broadcast use vstd::string::is_ascii_spec_bytes;

    reveal_strlit("position");
    assert(vstd::utf8::is_ascii_chars(("position")@));
    assert(vstd::string::is_ascii(("position")));
    assert(("position").spec_bytes() =~= seq![112u8, 111u8, 115u8, 105u8, 116u8, 105u8, 111u8, 110u8]);
}

/// The bytes of the wire text `node_state`.
pub proof fn lemma_bytes_node_state()
    ensures
        ("node_state").spec_bytes() == seq![110u8, 111u8, 100u8, 101u8, 95u8, 115u8, 116u8, 97u8, 116u8, 101u8],
{
    broadcast use vstd::string::is_ascii_spec_bytes;

    reveal_strlit("node_state");
    assert(vstd::utf8::is_ascii_chars(("node_state")@));
    assert(vstd::string::is_ascii(("node_state")));
    assert(("node_state").spec_bytes() =~= seq![110u8, 111u8, 100u8, 101u8, 95u8, 115u8, 116u8, 97u8, 116u8, 101u8]);
}

/// The bytes of the wire text `config`.
pub proof fn lemma_bytes_config()
    ensures
        ("config").spec_bytes() == seq![99u8, 111u8, 110u8, 102u8, 105u8, 103u8],
{
    broadcast use vstd::string::is_ascii_spec_bytes;

    reveal_strlit("config");
    assert(vstd::utf8::is_ascii_chars(("config")@));
    assert(vstd::string::is_ascii(("config")));
    assert(("config").spec_bytes() =~= seq![99u8, 111u8, 110u8, 102u8, 105u8, 103u8]);
}

/// The bytes of the wire text `user_machine`.
pub proof fn lemma_bytes_user_machine()
    ensures
        ("user_machine").spec_bytes() == seq![117u8, 115u8, 101u8, 114u8, 95u8, 109u8, 97u8, 99u8, 104u8, 105u8, 110u8, 101u8],
{
    broadcast use vstd::string::is_ascii_spec_bytes;

    reveal_strlit("user_machine");
    assert(vstd::utf8::is_ascii_chars(("user_machine")@));
    assert(vstd::string::is_ascii(("user_machine")));
    assert(("user_machine").spec_bytes() =~= seq![117u8, 115u8, 101u8, 114u8, 95u8, 109u8, 97u8, 99u8, 104u8, 105u8, 110u8, 101u8]);
}

/// The bytes of the wire text `machine`.
pub proof fn lemma_bytes_machine()
    ensures
        ("machine").spec_bytes() == seq![109u8, 97u8, 99u8, 104u8, 105u8, 110u8, 101u8],
{
    broadcast use vstd::string::is_ascii_spec_bytes;

    reveal_strlit("machine");
    assert(vstd::utf8::is_ascii_chars(("machine")@));
    assert(vstd::string::is_ascii(("machine")));
    assert(("machine").spec_bytes() =~= seq![109u8, 97u8, 99u8, 104u8, 105u8, 110u8, 101u8]);
}

/// The bytes of the wire text `log_entries`.
pub proof fn lemma_bytes_log_entries()
    ensures
        ("log_entries").spec_bytes() == seq![108u8, 111u8, 103u8, 95u8, 101u8, 110u8, 116u8, 114u8, 105u8, 101u8, 115u8],
{
    broadcast use vstd::string::is_ascii_spec_bytes;

    reveal_strlit("log_entries");
    assert(vstd::utf8::is_ascii_chars(("log_entries")@));
    assert(vstd::string::is_ascii(("log_entries")));
    assert(("log_entries").spec_bytes() =~= seq![108u8, 111u8, 103u8, 95u8, 101u8, 110u8, 116u8, 114u8, 105u8, 101u8, 115u8]);
}

/// The bytes of the wire text `nodes`.
pub proof fn lemma_bytes_nodes()
    ensures
        ("nodes").spec_bytes() == seq![110u8, 111u8, 100u8, 101u8, 115u8],
{
    broadcast use vstd::string::is_ascii_spec_bytes;

    reveal_strlit("nodes");
    assert(vstd::utf8::is_ascii_chars(("nodes")@));
    assert(vstd::string::is_ascii(("nodes")));
    assert(("nodes").spec_bytes() =~= seq![110u8, 111u8, 100u8, 101u8, 115u8]);
}

/// The bytes of the wire text `jsonrpc`.
pub proof fn lemma_bytes_jsonrpc()
    ensures
        ("jsonrpc").spec_bytes() == seq![106u8, 115u8, 111u8, 110u8, 114u8, 112u8, 99u8],
{
    broadcast use vstd::string::is_ascii_spec_bytes;

    reveal_strlit("jsonrpc");
    assert(vstd::utf8::is_ascii_chars(("jsonrpc")@));
    assert(vstd::string::is_ascii(("jsonrpc")));
    assert(("jsonrpc").spec_bytes() =~= seq![106u8, 115u8, 111u8, 110u8, 114u8, 112u8, 99u8]);
}

/// The bytes of the wire text `method`.
pub proof fn lemma_bytes_method()
    ensures
        ("method").spec_bytes() == seq![109u8, 101u8, 116u8, 104u8, 111u8, 100u8],
{
    broadcast use vstd::string::is_ascii_spec_bytes;

    reveal_strlit("method");
    assert(vstd::utf8::is_ascii_chars(("method")@));
    assert(vstd::string::is_ascii(("method")));
    assert(("method").spec_bytes() =~= seq![109u8, 101u8, 116u8, 104u8, 111u8, 100u8]);
}

/// The bytes of the wire text `params`.
pub proof fn lemma_bytes_params()
    ensures
        ("params").spec_bytes() == seq![112u8, 97u8, 114u8, 97u8, 109u8, 115u8],
{
    broadcast use vstd::string::is_ascii_spec_bytes;

    reveal_strlit("params");
    assert(vstd::utf8::is_ascii_chars(("params")@));
    assert(vstd::string::is_ascii(("params")));
    assert(("params").spec_bytes() =~= seq![112u8, 97u8, 114u8, 97u8, 109u8, 115u8]);
}

/// The bytes of the wire text `result`.
pub proof fn lemma_bytes_result()
    ensures
        ("result").spec_bytes() == seq![114u8, 101u8, 115u8, 117u8, 108u8, 116u8],
{
    broadcast use vstd::string::is_ascii_spec_bytes;

    reveal_strlit("result");
    assert(vstd::utf8::is_ascii_chars(("result")@));
    assert(vstd::string::is_ascii(("result")));
    assert(("result").spec_bytes() =~= seq![114u8, 101u8, 115u8, 117u8, 108u8, 116u8]);
}

/// The bytes of the wire text `error`.
pub proof fn lemma_bytes_error()
    ensures
        ("error").spec_bytes() == seq![101u8, 114u8, 114u8, 111u8, 114u8],
{
    broadcast use vstd::string::is_ascii_spec_bytes;

    reveal_strlit("error");
    assert(vstd::utf8::is_ascii_chars(("error")@));
    assert(vstd::string::is_ascii(("error")));
    assert(("error").spec_bytes() =~= seq![101u8, 114u8, 114u8, 111u8, 114u8]);
}

/// The bytes of the wire text `code`.
pub proof fn lemma_bytes_code()
    ensures
        ("code").spec_bytes() == seq![99u8, 111u8, 100u8, 101u8],
{
    broadcast use vstd::string::is_ascii_spec_bytes;

    reveal_strlit("code");
    assert(vstd::utf8::is_ascii_chars(("code")@));
    assert(vstd::string::is_ascii(("code")));
    assert(("code").spec_bytes() =~= seq![99u8, 111u8, 100u8, 101u8]);
}

/// The bytes of the wire text `message`.
pub proof fn lemma_bytes_message()
    ensures
        ("message").spec_bytes() == seq![109u8, 101u8, 115u8, 115u8, 97u8, 103u8, 101u8],
{
    broadcast use vstd::string::is_ascii_spec_bytes;

    reveal_strlit("message");
    assert(vstd::utf8::is_ascii_chars(("message")@));
    assert(vstd::string::is_ascii(("message")));
    assert(("message").spec_bytes() =~= seq![109u8, 101u8, 115u8, 115u8, 97u8, 103u8, 101u8]);
}

/// The bytes of the wire text `data`.
pub proof fn lemma_bytes_data()
    ensures
        ("data").spec_bytes() == seq![100u8, 97u8, 116u8, 97u8],
{
    broadcast use vstd::string::is_ascii_spec_bytes;

    reveal_strlit("data");
    assert(vstd::utf8::is_ascii_chars(("data")@));
    assert(vstd::string::is_ascii(("data")));
    assert(("data").spec_bytes() =~= seq![100u8, 97u8, 116u8, 97u8]);
}

/// The bytes of the wire text `Term`.
pub proof fn lemma_bytes_tag_term()
    ensures
        ("Term").spec_bytes() == seq![84u8, 101u8, 114u8, 109u8],
{
    broadcast use vstd::string::is_ascii_spec_bytes;

    reveal_strlit("Term");
    assert(vstd::utf8::is_ascii_chars(("Term")@));
    assert(vstd::string::is_ascii(("Term")));
    assert(("Term").spec_bytes() =~= seq![84u8, 101u8, 114u8, 109u8]);
}

/// The bytes of the wire text `VotedFor`.
pub proof fn lemma_bytes_tag_votedfor()
    ensures
        ("VotedFor").spec_bytes() == seq![86u8, 111u8, 116u8, 101u8, 100u8, 70u8, 111u8, 114u8],
{
    broadcast use vstd::string::is_ascii_spec_bytes;

    reveal_strlit("VotedFor");
    assert(vstd::utf8::is_ascii_chars(("VotedFor")@));
    assert(vstd::string::is_ascii(("VotedFor")));
    assert(("VotedFor").spec_bytes() =~= seq![86u8, 111u8, 116u8, 101u8, 100u8, 70u8, 111u8, 114u8]);
}

/// The bytes of the wire text `NodeGeneration`.
pub proof fn lemma_bytes_tag_nodegeneration()
    ensures
        ("NodeGeneration").spec_bytes() == seq![78u8, 111u8, 100u8, 101u8, 71u8, 101u8, 110u8, 101u8, 114u8, 97u8, 116u8, 105u8, 111u8, 110u8],
{
    broadcast use vstd::string::is_ascii_spec_bytes;

    reveal_strlit("NodeGeneration");
    assert(vstd::utf8::is_ascii_chars(("NodeGeneration")@));
    assert(vstd::string::is_ascii(("NodeGeneration")));
    assert(("NodeGeneration").spec_bytes() =~= seq![78u8, 111u8, 100u8, 101u8, 71u8, 101u8, 110u8, 101u8, 114u8, 97u8, 116u8, 105u8, 111u8, 110u8]);
}

/// The bytes of the wire text `LogEntries`.
pub proof fn lemma_bytes_tag_logentries()
    ensures
        ("LogEntries").spec_bytes() == seq![76u8, 111u8, 103u8, 69u8, 110u8, 116u8, 114u8, 105u8, 101u8, 115u8],
{
    broadcast use vstd::string::is_ascii_spec_bytes;

    reveal_strlit("LogEntries");
    assert(vstd::utf8::is_ascii_chars(("LogEntries")@));
    assert(vstd::string::is_ascii(("LogEntries")));
    assert(("LogEntries").spec_bytes() =~= seq![76u8, 111u8, 103u8, 69u8, 110u8, 116u8, 114u8, 105u8, 101u8, 115u8]);
}

/// The bytes of the wire text `InstallSnapshotRpc`.
pub proof fn lemma_bytes_tag_installsnapshotrpc()
    ensures
        ("InstallSnapshotRpc").spec_bytes() == seq![73u8, 110u8, 115u8, 116u8, 97u8, 108u8, 108u8, 83u8, 110u8, 97u8, 112u8, 115u8, 104u8, 111u8, 116u8, 82u8, 112u8, 99u8],
{
    broadcast use vstd::string::is_ascii_spec_bytes;

    reveal_strlit("InstallSnapshotRpc");
    assert(vstd::utf8::is_ascii_chars(("InstallSnapshotRpc")@));
    assert(vstd::string::is_ascii(("InstallSnapshotRpc")));
    assert(("InstallSnapshotRpc").spec_bytes() =~= seq![73u8, 110u8, 115u8, 116u8, 97u8, 108u8, 108u8, 83u8, 110u8, 97u8, 112u8, 115u8, 104u8, 111u8, 116u8, 82u8, 112u8, 99u8]);
}

/// The bytes of the wire text `ClusterConfig`.
pub proof fn lemma_bytes_tag_clusterconfig()
    ensures
        ("ClusterConfig").spec_bytes() == seq![67u8, 108u8, 117u8, 115u8, 116u8, 101u8, 114u8, 67u8, 111u8, 110u8, 102u8, 105u8, 103u8],
{
    broadcast use vstd::string::is_ascii_spec_bytes;

    reveal_strlit("ClusterConfig");
    assert(vstd::utf8::is_ascii_chars(("ClusterConfig")@));
    assert(vstd::string::is_ascii(("ClusterConfig")));
    assert(("ClusterConfig").spec_bytes() =~= seq![67u8, 108u8, 117u8, 115u8, 116u8, 101u8, 114u8, 67u8, 111u8, 110u8, 102u8, 105u8, 103u8]);
}

/// The bytes of the wire text `Command`.
pub proof fn lemma_bytes_tag_command()
    ensures
        ("Command").spec_bytes() == seq![67u8, 111u8, 109u8, 109u8, 97u8, 110u8, 100u8],
{
    broadcast use vstd::string::is_ascii_spec_bytes;

    reveal_strlit("Command");
    assert(vstd::utf8::is_ascii_chars(("Command")@));
    assert(vstd::string::is_ascii(("Command")));
    assert(("Command").spec_bytes() =~= seq![67u8, 111u8, 109u8, 109u8, 97u8, 110u8, 100u8]);
}

/// The bytes of the wire text `RequestVoteCall`.
pub proof fn lemma_bytes_tag_requestvotecall()
    ensures
        ("RequestVoteCall").spec_bytes() == seq![82u8, 101u8, 113u8, 117u8, 101u8, 115u8, 116u8, 86u8, 111u8, 116u8, 101u8, 67u8, 97u8, 108u8, 108u8],
{
    broadcast use vstd::string::is_ascii_spec_bytes;

    reveal_strlit("RequestVoteCall");
    assert(vstd::utf8::is_ascii_chars(("RequestVoteCall")@));
    assert(vstd::string::is_ascii(("RequestVoteCall")));
    assert(("RequestVoteCall").spec_bytes() =~= seq![82u8, 101u8, 113u8, 117u8, 101u8, 115u8, 116u8, 86u8, 111u8, 116u8, 101u8, 67u8, 97u8, 108u8, 108u8]);
}

/// The bytes of the wire text `RequestVoteReply`.
pub proof fn lemma_bytes_tag_requestvotereply()
    ensures
        ("RequestVoteReply").spec_bytes() == seq![82u8, 101u8, 113u8, 117u8, 101u8, 115u8, 116u8, 86u8, 111u8, 116u8, 101u8, 82u8, 101u8, 112u8, 108u8, 121u8],
{
    broadcast use vstd::string::is_ascii_spec_bytes;

    reveal_strlit("RequestVoteReply");
    assert(vstd::utf8::is_ascii_chars(("RequestVoteReply")@));
    assert(vstd::string::is_ascii(("RequestVoteReply")));
    assert(("RequestVoteReply").spec_bytes() =~= seq![82u8, 101u8, 113u8, 117u8, 101u8, 115u8, 116u8, 86u8, 111u8, 116u8, 101u8, 82u8, 101u8, 112u8, 108u8, 121u8]);
}

/// The bytes of the wire text `AppendEntriesCall`.
pub proof fn lemma_bytes_tag_appendentriescall()
    ensures
        ("AppendEntriesCall").spec_bytes() == seq![65u8, 112u8, 112u8, 101u8, 110u8, 100u8, 69u8, 110u8, 116u8, 114u8, 105u8, 101u8, 115u8, 67u8, 97u8, 108u8, 108u8],
{
    broadcast use vstd::string::is_ascii_spec_bytes;

    reveal_strlit("AppendEntriesCall");
    assert(vstd::utf8::is_ascii_chars(("AppendEntriesCall")@));
    assert(vstd::string::is_ascii(("AppendEntriesCall")));
    assert(("AppendEntriesCall").spec_bytes() =~= seq![65u8, 112u8, 112u8, 101u8, 110u8, 100u8, 69u8, 110u8, 116u8, 114u8, 105u8, 101u8, 115u8, 67u8, 97u8, 108u8, 108u8]);
}

/// The bytes of the wire text `AppendEntriesReply`.
pub proof fn lemma_bytes_tag_appendentriesreply()
    ensures
        ("AppendEntriesReply").spec_bytes() == seq![65u8, 112u8, 112u8, 101u8, 110u8, 100u8, 69u8, 110u8, 116u8, 114u8, 105u8, 101u8, 115u8, 82u8, 101u8, 112u8, 108u8, 121u8],
{
    broadcast use vstd::string::is_ascii_spec_bytes;

    reveal_strlit("AppendEntriesReply");
    assert(vstd::utf8::is_ascii_chars(("AppendEntriesReply")@));
    assert(vstd::string::is_ascii(("AppendEntriesReply")));
    assert(("AppendEntriesReply").spec_bytes() =~= seq![65u8, 112u8, 112u8, 101u8, 110u8, 100u8, 69u8, 110u8, 116u8, 114u8, 105u8, 101u8, 115u8, 82u8, 101u8, 112u8, 108u8, 121u8]);
}

/// The bytes of the wire text `Apply`.
pub proof fn lemma_bytes_tag_apply()
    ensures
        ("Apply").spec_bytes() == seq![65u8, 112u8, 112u8, 108u8, 121u8],
{
    broadcast use vstd::string::is_ascii_spec_bytes;

    reveal_strlit("Apply");
    assert(vstd::utf8::is_ascii_chars(("Apply")@));
    assert(vstd::string::is_ascii(("Apply")));
    assert(("Apply").spec_bytes() =~= seq![65u8, 112u8, 112u8, 108u8, 121u8]);
}

/// The bytes of the wire text `Query`.
pub proof fn lemma_bytes_tag_query()
    ensures
        ("Query").spec_bytes() == seq![81u8, 117u8, 101u8, 114u8, 121u8],
{
    broadcast use vstd::string::is_ascii_spec_bytes;

    reveal_strlit("Query");
    assert(vstd::utf8::is_ascii_chars(("Query")@));
    assert(vstd::string::is_ascii(("Query")));
    assert(("Query").spec_bytes() =~= seq![81u8, 117u8, 101u8, 114u8, 121u8]);
}

/// The bytes of the wire text `AddNode`.
pub proof fn lemma_bytes_tag_addnode()
    ensures
        ("AddNode").spec_bytes() == seq![65u8, 100u8, 100u8, 78u8, 111u8, 100u8, 101u8],
{
    broadcast use vstd::string::is_ascii_spec_bytes;

    reveal_strlit("AddNode");
    assert(vstd::utf8::is_ascii_chars(("AddNode")@));
    assert(vstd::string::is_ascii(("AddNode")));
    assert(("AddNode").spec_bytes() =~= seq![65u8, 100u8, 100u8, 78u8, 111u8, 100u8, 101u8]);
}

/// The bytes of the wire text `Redirect`.
pub proof fn lemma_bytes_tag_redirect()
    ensures
        ("Redirect").spec_bytes() == seq![82u8, 101u8, 100u8, 105u8, 114u8, 101u8, 99u8, 116u8],
{
    broadcast use vstd::string::is_ascii_spec_bytes;

    reveal_strlit("Redirect");
    assert(vstd::utf8::is_ascii_chars(("Redirect")@));
    assert(vstd::string::is_ascii(("Redirect")));
    assert(("Redirect").spec_bytes() =~= seq![82u8, 101u8, 100u8, 105u8, 114u8, 101u8, 99u8, 116u8]);
}

/// The bytes of the wire text `Proposed`.
pub proof fn lemma_bytes_tag_proposed()
    ensures
        ("Proposed").spec_bytes() == seq![80u8, 114u8, 111u8, 112u8, 111u8, 115u8, 101u8, 100u8],
{
    broadcast use vstd::string::is_ascii_spec_bytes;

    reveal_strlit("Proposed");
    assert(vstd::utf8::is_ascii_chars(("Proposed")@));
    assert(vstd::string::is_ascii(("Proposed")));
    assert(("Proposed").spec_bytes() =~= seq![80u8, 114u8, 111u8, 112u8, 111u8, 115u8, 101u8, 100u8]);
}

/// The bytes of the wire text `2.0`.
pub proof fn lemma_bytes_v2_0()
    ensures
        ("2.0").spec_bytes() == seq![50u8, 46u8, 48u8],
{
    broadcast use vstd::string::is_ascii_spec_bytes;

    reveal_strlit("2.0");
    assert(vstd::utf8::is_ascii_chars(("2.0")@));
    assert(vstd::string::is_ascii(("2.0")));
    assert(("2.0").spec_bytes() =~= seq![50u8, 46u8, 48u8]);
}

/// The bytes of the wire text `RemoveNode`.
pub proof fn lemma_bytes_tag_removenode()
    ensures
        ("RemoveNode").spec_bytes() == seq![82u8, 101u8, 109u8, 111u8, 118u8, 101u8, 78u8, 111u8, 100u8, 101u8],
{
    broadcast use vstd::string::is_ascii_spec_bytes;

    reveal_strlit("RemoveNode");
    assert(vstd::utf8::is_ascii_chars(("RemoveNode")@));
    assert(vstd::string::is_ascii(("RemoveNode")));
    assert(("RemoveNode").spec_bytes() =~= seq![82u8, 101u8, 109u8, 111u8, 118u8, 101u8, 78u8, 111u8, 100u8, 101u8]);
}

/// Byte sequences that differ at one index differ.
pub proof fn lemma_bytes_ne(a: Seq<u8>, b: Seq<u8>, i: int)
    requires
        0 <= i < a.len(),
        0 <= i < b.len(),
        a[i] != b[i],
    ensures
        a != b,
{
}


/// A term paired with a log index; the sentinel before any entry is
/// `(0, 0)`.
#[derive(Debug, Clone, Copy, PartialEq, Eq, Structural)]
pub struct LogPosition {
    pub term: u64,
    pub index: u64,
}

/// Identifies one proposal across the cluster and across restarts, ordered
/// lexicographically.
#[derive(Debug, Clone, Copy, PartialEq, Eq, Hash, PartialOrd, Ord, Structural)]
pub struct ProposalId {
    pub node_id: u64,
    pub generation: u64,
    pub local_seqno: u64,
}

impl ProposalId {
    pub fn new(node_id: u64, generation: u64, local_seqno: u64) -> (r: ProposalId)
        ensures
            r == (ProposalId { node_id, generation, local_seqno }),
    {
        ProposalId { node_id, generation, local_seqno }
    }

    /// True iff this proposal was made by the given incarnation of a node.
    pub fn is_proposer(&self, node_id: u64, generation: u64) -> (r: bool)
        ensures
            r == (self.node_id == node_id && self.generation == generation),
    {
        self.node_id == node_id && self.generation == generation
    }
}

/// One entry of the replicated log, with its command payload inline.
#[derive(Debug, PartialEq, Eq)]
pub enum LogEntry {
    Term(u64),
    ClusterConfig { voters: Vec<u64>, new_voters: Vec<u64> },
    Command(Json),
}

/// The mathematical form of a log entry.
#[verifier::ext_equal]
pub enum LogEntryV {
    Term(u64),
    ClusterConfig { voters: Seq<u64>, new_voters: Seq<u64> },
    Command(JsonV),
}

impl View for LogEntry {
    type V = LogEntryV;

    open spec fn view(&self) -> LogEntryV {
        match self {
            LogEntry::Term(t) => LogEntryV::Term(*t),
            LogEntry::ClusterConfig { voters, new_voters } => LogEntryV::ClusterConfig {
                voters: voters@,
                new_voters: new_voters@,
            },
            LogEntry::Command(v) => LogEntryV::Command(v@),
        }
    }
}

/// One Raft RPC message.  `AppendEntriesReply` carries the sender's node
/// generation so stale replies can be told apart by their receiver.
#[derive(Debug, PartialEq, Eq)]
pub enum Message {
    RequestVoteCall { from: u64, term: u64, last_position: LogPosition },
    RequestVoteReply { from: u64, term: u64, vote_granted: bool },
    AppendEntriesCall {
        from: u64,
        term: u64,
        commit_index: u64,
        prev_position: LogPosition,
        entries: Vec<LogEntry>,
    },
    AppendEntriesReply { from: u64, term: u64, generation: u64, last_position: LogPosition },
}

/// The mathematical form of a message.
#[verifier::ext_equal]
pub enum MessageV {
    RequestVoteCall { from: u64, term: u64, last_position: LogPosition },
    RequestVoteReply { from: u64, term: u64, vote_granted: bool },
    AppendEntriesCall {
        from: u64,
        term: u64,
        commit_index: u64,
        prev_position: LogPosition,
        entries: Seq<LogEntryV>,
    },
    AppendEntriesReply { from: u64, term: u64, generation: u64, last_position: LogPosition },
}

/// The mathematical form of a list of log entries.
pub open spec fn view_entries(s: Seq<LogEntry>) -> Seq<LogEntryV> {
    Seq::new(s.len(), |i: int| s[i]@)
}

impl View for Message {
    type V = MessageV;

    open spec fn view(&self) -> MessageV {
        match self {
            Message::RequestVoteCall { from, term, last_position } => MessageV::RequestVoteCall {
                from: *from,
                term: *term,
                last_position: *last_position,
            },
            Message::RequestVoteReply { from, term, vote_granted } => MessageV::RequestVoteReply {
                from: *from,
                term: *term,
                vote_granted: *vote_granted,
            },
            Message::AppendEntriesCall { from, term, commit_index, prev_position, entries } => {
                MessageV::AppendEntriesCall {
                    from: *from,
                    term: *term,
                    commit_index: *commit_index,
                    prev_position: *prev_position,
                    entries: view_entries(entries@),
                }
            },
            Message::AppendEntriesReply { from, term, generation, last_position } => {
                MessageV::AppendEntriesReply {
                    from: *from,
                    term: *term,
                    generation: *generation,
                    last_position: *last_position,
                }
            },
        }
    }
}

/// What is appended to the journal, one JSON line each.
#[derive(Debug, Clone, Copy, PartialEq, Eq)]
pub enum StorageEntry {
    Term(u64),
    VotedFor(Option<u64>),
    NodeGeneration(u64),
}

/// The envelope that a proposal travels in.
#[derive(Debug, PartialEq, Eq)]
pub enum Command {
    Apply { proposal_id: ProposalId, command: Json },
    AddNode { proposal_id: ProposalId, id: u64 },
    RemoveNode { proposal_id: ProposalId, id: u64 },
    Query,
}

/// The mathematical form of a command envelope.
#[verifier::ext_equal]
pub enum CommandV {
    Apply { proposal_id: ProposalId, command: JsonV },
    AddNode { proposal_id: ProposalId, id: u64 },
    RemoveNode { proposal_id: ProposalId, id: u64 },
    Query,
}

impl View for Command {
    type V = CommandV;

    open spec fn view(&self) -> CommandV {
        match self {
            Command::Apply { proposal_id, command } => CommandV::Apply {
                proposal_id: *proposal_id,
                command: command@,
            },
            Command::AddNode { proposal_id, id } => CommandV::AddNode {
                proposal_id: *proposal_id,
                id: *id,
            },
            Command::RemoveNode { proposal_id, id } => CommandV::RemoveNode {
                proposal_id: *proposal_id,
                id: *id,
            },
            Command::Query => CommandV::Query,
        }
    }
}

/// The two-hop exchange that binds a linearisable read to a log position.
#[derive(Debug, PartialEq, Eq)]
pub enum QueryMessage {
    Redirect { from: u64, proposal_id: ProposalId, request: Json },
    Proposed { proposal_id: ProposalId, position: LogPosition, request: Json },
}

/// The mathematical form of a query message.
#[verifier::ext_equal]
pub enum QueryMessageV {
    Redirect { from: u64, proposal_id: ProposalId, request: JsonV },
    Proposed { proposal_id: ProposalId, position: LogPosition, request: JsonV },
}

impl View for QueryMessage {
    type V = QueryMessageV;

    open spec fn view(&self) -> QueryMessageV {
        match self {
            QueryMessage::Redirect { from, proposal_id, request } => QueryMessageV::Redirect {
                from: *from,
                proposal_id: *proposal_id,
                request: request@,
            },
            QueryMessage::Proposed { proposal_id, position, request } => QueryMessageV::Proposed {
                proposal_id: *proposal_id,
                position: *position,
                request: request@,
            },
        }
    }
}


/// The wire form of a proposal identifier: the triple as a JSON array.
pub open spec fn spec_proposal_id_to_json(p: ProposalId) -> JsonV {
    JsonV::Arr(seq![JsonV::Num(p.node_id), JsonV::Num(p.generation), JsonV::Num(p.local_seqno)])
}

/// Reads a proposal identifier back from its wire form.
pub open spec fn spec_json_to_proposal_id(j: JsonV) -> Option<ProposalId> {
    match j {
        JsonV::Arr(items) => {
            if items.len() == 3 && items[0] is Num && items[1] is Num && items[2] is Num {
                Some(
                    ProposalId {
                        node_id: items[0]->Num_0,
                        generation: items[1]->Num_0,
                        local_seqno: items[2]->Num_0,
                    },
                )
            } else {
                None
            }
        },
        _ => None,
    }
}

impl ProposalId {
    pub fn to_json(&self) -> (r: Json)
        ensures
            r@ == spec_proposal_id_to_json(*self),
    {
        broadcast use lemma_view_arr;

        let mut items: Vec<Json> = Vec::new();
        items.push(Json::Num(self.node_id));
        items.push(Json::Num(self.generation));
        items.push(Json::Num(self.local_seqno));
        let r = Json::Arr(items);
        proof {
            assert(view_arr(r->Arr_0@) =~= spec_proposal_id_to_json(*self)->Arr_0);
        }
        r
    }

    pub fn from_json(j: &Json) -> (r: Option<ProposalId>)
        ensures
            r == spec_json_to_proposal_id(j@),
    {
        broadcast use lemma_view_arr;

        let items = match j.as_arr() {
            Some(items) => items,
            None => {
                return None;
            },
        };
        if items.len() != 3 {
            return None;
        }
        let node_id = match items[0].as_u64() {
            Some(n) => n,
            None => {
                return None;
            },
        };
        let generation = match items[1].as_u64() {
            Some(n) => n,
            None => {
                return None;
            },
        };
        let local_seqno = match items[2].as_u64() {
            Some(n) => n,
            None => {
                return None;
            },
        };
        Some(ProposalId { node_id, generation, local_seqno })
    }
}

/// Parsing the wire form of a proposal identifier gives it back.
pub proof fn lemma_proposal_id_round_trip(p: ProposalId)
    ensures
        spec_json_to_proposal_id(spec_proposal_id_to_json(p)) == Some(p),
{
}

/// The wire form of a journal entry.
pub open spec fn spec_storage_entry_to_json(e: StorageEntry) -> JsonV {
    match e {
        StorageEntry::Term(t) => JsonV::Obj(
            seq![
                (("type").spec_bytes(), JsonV::Str(("Term").spec_bytes())),
                (("term").spec_bytes(), JsonV::Num(t)),
            ],
        ),
        StorageEntry::VotedFor(v) => JsonV::Obj(
            seq![
                (("type").spec_bytes(), JsonV::Str(("VotedFor").spec_bytes())),
                (
                    ("node_id").spec_bytes(),
                    match v {
                        Some(n) => JsonV::Num(n),
                        None => JsonV::Null,
                    },
                ),
            ],
        ),
        StorageEntry::NodeGeneration(g) => JsonV::Obj(
            seq![
                (("type").spec_bytes(), JsonV::Str(("NodeGeneration").spec_bytes())),
                (("generation").spec_bytes(), JsonV::Num(g)),
            ],
        ),
    }
}

/// Reads a journal entry back from its wire form.
pub open spec fn spec_json_to_storage_entry(j: JsonV) -> Option<StorageEntry> {
    match spec_get(j, ("type").spec_bytes()) {
        Some(JsonV::Str(tag)) => {
            if tag == ("Term").spec_bytes() {
                match spec_get(j, ("term").spec_bytes()) {
                    Some(JsonV::Num(t)) => Some(StorageEntry::Term(t)),
                    _ => None,
                }
            } else if tag == ("VotedFor").spec_bytes() {
                match spec_get(j, ("node_id").spec_bytes()) {
                    Some(JsonV::Num(n)) => Some(StorageEntry::VotedFor(Some(n))),
                    Some(JsonV::Null) => Some(StorageEntry::VotedFor(None)),
                    _ => None,
                }
            } else if tag == ("NodeGeneration").spec_bytes() {
                match spec_get(j, ("generation").spec_bytes()) {
                    Some(JsonV::Num(g)) => Some(StorageEntry::NodeGeneration(g)),
                    _ => None,
                }
            } else {
                None
            }
        },
        _ => None,
    }
}

impl StorageEntry {
    pub fn to_json(&self) -> (r: Json)
        ensures
            r@ == spec_storage_entry_to_json(*self),
    {
        let mut b = ObjBuilder::new();
        match self {
            StorageEntry::Term(t) => {
                b.member("type", Json::str_of("Term"));
                b.member("term", Json::Num(*t));
            },
            StorageEntry::VotedFor(v) => {
                b.member("type", Json::str_of("VotedFor"));
                match v {
                    Some(n) => b.member("node_id", Json::Num(*n)),
                    None => b.member("node_id", Json::Null),
                }
            },
            StorageEntry::NodeGeneration(g) => {
                b.member("type", Json::str_of("NodeGeneration"));
                b.member("generation", Json::Num(*g));
            },
        }
        proof {
            assert(b@ =~= spec_storage_entry_to_json(*self)->Obj_0);
        }
        b.build()
    }

    pub fn from_json(j: &Json) -> (r: Option<StorageEntry>)
        ensures
            r == spec_json_to_storage_entry(j@),
    {
        let tag = match j.get("type") {
            Some(t) => t,
            None => {
                return None;
            },
        };
        if !(tag.is_str("Term") || tag.is_str("VotedFor") || tag.is_str("NodeGeneration")) {
            match tag.as_str_bytes() {
                Some(_) => {
                    return None;
                },
                None => {
                    return None;
                },
            }
        }
        if tag.is_str("Term") {
            match j.get("term") {
                Some(t) => match t.as_u64() {
                    Some(t) => Some(StorageEntry::Term(t)),
                    None => None,
                },
                None => None,
            }
        } else if tag.is_str("VotedFor") {
            match j.get("node_id") {
                Some(n) => match n {
                    Json::Num(n) => Some(StorageEntry::VotedFor(Some(*n))),
                    Json::Null => Some(StorageEntry::VotedFor(None)),
                    _ => None,
                },
                None => None,
            }
        } else {
            match j.get("generation") {
                Some(g) => match g.as_u64() {
                    Some(g) => Some(StorageEntry::NodeGeneration(g)),
                    None => None,
                },
                None => None,
            }
        }
    }
}

/// Parsing the wire form of a journal entry gives it back.
#[verifier::rlimit(50)]
pub proof fn lemma_storage_entry_round_trip(e: StorageEntry)
    ensures
        spec_json_to_storage_entry(spec_storage_entry_to_json(e)) == Some(e),
{
    lemma_bytes_type();
    lemma_bytes_term();
    lemma_bytes_node_id();
    lemma_bytes_generation();
    lemma_bytes_tag_term();
    lemma_bytes_tag_votedfor();
    lemma_bytes_tag_nodegeneration();
    reveal_with_fuel(spec_obj_get, 4);
    let j = spec_storage_entry_to_json(e);
    match e {
        StorageEntry::Term(t) => {
            assert(spec_get(j, ("type").spec_bytes()) == Some(
                JsonV::Str(("Term").spec_bytes()),
            ));
            lemma_bytes_ne(("type").spec_bytes(), ("term").spec_bytes(), 1);
            assert(spec_members(j).skip(1) =~= seq![(("term").spec_bytes(), JsonV::Num(t))]);
            assert(spec_get(j, ("term").spec_bytes()) == Some(JsonV::Num(t)));
        },
        StorageEntry::VotedFor(v) => {
            assert(spec_get(j, ("type").spec_bytes()) == Some(
                JsonV::Str(("VotedFor").spec_bytes()),
            ));
            assert(("VotedFor").spec_bytes() != ("Term").spec_bytes());
            lemma_bytes_ne(("type").spec_bytes(), ("node_id").spec_bytes(), 0);
            assert(spec_members(j).skip(1) =~= seq![
                (
                    ("node_id").spec_bytes(),
                    match v {
                        Some(n) => JsonV::Num(n),
                        None => JsonV::Null,
                    },
                ),
            ]);
        },
        StorageEntry::NodeGeneration(g) => {
            assert(spec_get(j, ("type").spec_bytes()) == Some(
                JsonV::Str(("NodeGeneration").spec_bytes()),
            ));
            assert(("NodeGeneration").spec_bytes() != ("Term").spec_bytes());
            assert(("NodeGeneration").spec_bytes() != ("VotedFor").spec_bytes());
            lemma_bytes_ne(("type").spec_bytes(), ("generation").spec_bytes(), 0);
            assert(spec_members(j).skip(1) =~= seq![
                (("generation").spec_bytes(), JsonV::Num(g)),
            ]);
            assert(spec_get(j, ("generation").spec_bytes()) == Some(JsonV::Num(g)));
        },
    }
}


/// A sequence of integers in wire form.
pub open spec fn spec_nums(s: Seq<u64>) -> Seq<JsonV> {
    Seq::new(s.len(), |i: int| JsonV::Num(s[i]))
}

/// Reads a sequence of integers back from wire form.
pub open spec fn spec_json_to_nums(s: Seq<JsonV>) -> Option<Seq<u64>>
    decreases s.len(),
{
    if s.len() == 0 {
        Some(Seq::empty())
    } else {
        match s[0] {
            JsonV::Num(n) => match spec_json_to_nums(s.skip(1)) {
                Some(rest) => Some(seq![n] + rest),
                None => None,
            },
            _ => None,
        }
    }
}

/// Parsing a formatted sequence of integers gives it back.
pub proof fn lemma_nums_round_trip(s: Seq<u64>)
    ensures
        spec_json_to_nums(spec_nums(s)) == Some(s),
    decreases s.len(),
{
    if s.len() > 0 {
        lemma_nums_round_trip(s.skip(1));
        assert(spec_nums(s).skip(1) =~= spec_nums(s.skip(1)));
        assert(seq![s[0]] + s.skip(1) =~= s);
    } else {
        assert(spec_nums(s) =~= Seq::<JsonV>::empty());
        assert(s =~= Seq::<u64>::empty());
    }
}

/// Appending one value extends a parsed integer sequence by one element.
pub proof fn lemma_json_to_nums_snoc(s: Seq<JsonV>, x: JsonV)
    ensures
        spec_json_to_nums(s.push(x)) == match (spec_json_to_nums(s), x) {
            (Some(rest), JsonV::Num(n)) => Some(rest.push(n)),
            _ => None,
        },
    decreases s.len(),
{
    reveal_with_fuel(spec_json_to_nums, 3);
    if s.len() == 0 {
        assert(s.push(x).skip(1) =~= Seq::<JsonV>::empty());
        if x is Num {
            assert(seq![x->Num_0] + Seq::<u64>::empty() =~= Seq::<u64>::empty().push(
                x->Num_0,
            ));
        }
    } else {
        assert(s.push(x).skip(1) =~= s.skip(1).push(x));
        lemma_json_to_nums_snoc(s.skip(1), x);
        if s[0] is Num && spec_json_to_nums(s) is Some && x is Num {
            assert(seq![s[0]->Num_0] + spec_json_to_nums(s.skip(1))->Some_0.push(x->Num_0)
                =~= (seq![s[0]->Num_0] + spec_json_to_nums(s.skip(1))->Some_0).push(
                x->Num_0,
            ));
        }
    }
}

/// Formats a list of node identifiers as a JSON array of integers.
pub fn nums_to_json(v: &Vec<u64>) -> (r: Json)
    ensures
        r@ == JsonV::Arr(spec_nums(v@)),
{
    broadcast use lemma_view_arr;

    let mut items: Vec<Json> = Vec::new();
    let mut i: usize = 0;
    while i < v.len()
        invariant
            0 <= i <= v@.len(),
            items@.len() == i,
            forall|k: int| 0 <= k < i ==> items@[k]@ == JsonV::Num(v@[k]),
        decreases v@.len() - i,
    {
        items.push(Json::Num(v[i]));
        i += 1;
    }
    let r = Json::Arr(items);
    proof {
        assert(view_arr(r->Arr_0@) =~= spec_nums(v@));
    }
    r
}

/// Reads a list of node identifiers back from a JSON array.
pub fn json_to_nums(j: &Json) -> (r: Option<Vec<u64>>)
    ensures
        match r {
            Some(v) => j@ is Arr && spec_json_to_nums(j@->Arr_0) == Some(v@),
            None => !(j@ is Arr) || spec_json_to_nums(j@->Arr_0) is None,
        },
{
    broadcast use lemma_view_arr;

    let items = match j.as_arr() {
        Some(items) => items,
        None => {
            return None;
        },
    };
    let ghost view = view_arr(items@);
    let mut out: Vec<u64> = Vec::new();
    let mut i: usize = 0;
    assert(view.take(0) =~= Seq::<JsonV>::empty());
    while i < items.len()
        invariant
            0 <= i <= items@.len(),
            view == view_arr(items@),
            view.len() == items@.len(),
            spec_json_to_nums(view.take(i as int)) == Some(out@),
        decreases items@.len() - i,
    {
        let n = match items[i].as_u64() {
            Some(n) => n,
            None => {
                proof {
                    lemma_json_to_nums_prefix_none(view, i as int);
                }
                return None;
            },
        };
        proof {
            lemma_json_to_nums_snoc(view.take(i as int), view[i as int]);
            assert(view.take(i as int).push(view[i as int]) =~= view.take(i + 1));
        }
        out.push(n);
        i += 1;
    }
    proof {
        assert(view.take(i as int) =~= view);
    }
    Some(out)
}

/// When an element is not an integer, the whole sequence fails to parse.
pub proof fn lemma_json_to_nums_prefix_none(s: Seq<JsonV>, i: int)
    requires
        0 <= i < s.len(),
        !(s[i] is Num),
    ensures
        spec_json_to_nums(s) is None,
    decreases i,
{
    if i > 0 {
        lemma_json_to_nums_prefix_none(s.skip(1), i - 1);
    }
}

/// The wire form of one log entry.  A command entry carries its payload
/// inline under `value`.
pub open spec fn spec_log_entry_to_json(e: LogEntryV) -> JsonV {
    match e {
        LogEntryV::Term(t) => JsonV::Obj(
            seq![
                (("type").spec_bytes(), JsonV::Str(("Term").spec_bytes())),
                (("term").spec_bytes(), JsonV::Num(t)),
            ],
        ),
        LogEntryV::ClusterConfig { voters, new_voters } => JsonV::Obj(
            seq![
                (("type").spec_bytes(), JsonV::Str(("ClusterConfig").spec_bytes())),
                (("voters").spec_bytes(), JsonV::Arr(spec_nums(voters))),
                (("new_voters").spec_bytes(), JsonV::Arr(spec_nums(new_voters))),
            ],
        ),
        LogEntryV::Command(v) => JsonV::Obj(
            seq![
                (("type").spec_bytes(), JsonV::Str(("Command").spec_bytes())),
                (("value").spec_bytes(), v),
            ],
        ),
    }
}

/// Reads one log entry back from its wire form.
pub open spec fn spec_json_to_log_entry(j: JsonV) -> Option<LogEntryV> {
    match spec_get(j, ("type").spec_bytes()) {
        Some(JsonV::Str(tag)) => {
            if tag == ("Term").spec_bytes() {
                match spec_get(j, ("term").spec_bytes()) {
                    Some(JsonV::Num(t)) => Some(LogEntryV::Term(t)),
                    _ => None,
                }
            } else if tag == ("ClusterConfig").spec_bytes() {
                match (
                    spec_get(j, ("voters").spec_bytes()),
                    spec_get(j, ("new_voters").spec_bytes()),
                ) {
                    (Some(JsonV::Arr(vs)), Some(JsonV::Arr(nvs))) => {
                        match (spec_json_to_nums(vs), spec_json_to_nums(nvs)) {
                            (Some(voters), Some(new_voters)) => Some(
                                LogEntryV::ClusterConfig { voters, new_voters },
                            ),
                            _ => None,
                        }
                    },
                    _ => None,
                }
            } else if tag == ("Command").spec_bytes() {
                match spec_get(j, ("value").spec_bytes()) {
                    Some(v) => Some(LogEntryV::Command(v)),
                    None => None,
                }
            } else {
                None
            }
        },
        _ => None,
    }
}

impl LogEntry {
    pub fn to_json(&self) -> (r: Json)
        ensures
            r@ == spec_log_entry_to_json(self@),
    {
        let mut b = ObjBuilder::new();
        match self {
            LogEntry::Term(t) => {
                b.member("type", Json::str_of("Term"));
                b.member("term", Json::Num(*t));
            },
            LogEntry::ClusterConfig { voters, new_voters } => {
                b.member("type", Json::str_of("ClusterConfig"));
                b.member("voters", nums_to_json(voters));
                b.member("new_voters", nums_to_json(new_voters));
            },
            LogEntry::Command(v) => {
                b.member("type", Json::str_of("Command"));
                b.member("value", v.deep_clone());
            },
        }
        proof {
            assert(b@ =~= spec_log_entry_to_json(self@)->Obj_0);
        }
        b.build()
    }

    pub fn from_json(j: &Json) -> (r: Option<LogEntry>)
        ensures
            match r {
                Some(e) => spec_json_to_log_entry(j@) == Some(e@),
                None => spec_json_to_log_entry(j@) is None,
            },
    {
        let tag = match j.get("type") {
            Some(t) => t,
            None => {
                return None;
            },
        };
        if tag.is_str("Term") {
            match j.get("term") {
                Some(t) => match t.as_u64() {
                    Some(t) => Some(LogEntry::Term(t)),
                    None => None,
                },
                None => None,
            }
        } else if tag.is_str("ClusterConfig") {
            let voters = match j.get("voters") {
                Some(vs) => match json_to_nums(vs) {
                    Some(v) => v,
                    None => {
                        return None;
                    },
                },
                None => {
                    return None;
                },
            };
            let new_voters = match j.get("new_voters") {
                Some(nvs) => match json_to_nums(nvs) {
                    Some(v) => v,
                    None => {
                        return None;
                    },
                },
                None => {
                    return None;
                },
            };
            Some(LogEntry::ClusterConfig { voters, new_voters })
        } else if tag.is_str("Command") {
            match j.get("value") {
                Some(v) => Some(LogEntry::Command(v.deep_clone())),
                None => None,
            }
        } else {
            None
        }
    }
}

/// Parsing the wire form of a log entry gives it back.
#[verifier::rlimit(50)]
pub proof fn lemma_log_entry_round_trip(e: LogEntryV)
    ensures
        spec_json_to_log_entry(spec_log_entry_to_json(e)) == Some(e),
{
    lemma_bytes_type();
    lemma_bytes_term();
    lemma_bytes_voters();
    lemma_bytes_new_voters();
    lemma_bytes_value();
    lemma_bytes_tag_term();
    lemma_bytes_tag_clusterconfig();
    lemma_bytes_tag_command();
    reveal_with_fuel(spec_obj_get, 5);
    let j = spec_log_entry_to_json(e);
    match e {
        LogEntryV::Term(t) => {
            assert(spec_get(j, ("type").spec_bytes()) == Some(
                JsonV::Str(("Term").spec_bytes()),
            ));
            lemma_bytes_ne(("type").spec_bytes(), ("term").spec_bytes(), 1);
            assert(spec_members(j).skip(1) =~= seq![(("term").spec_bytes(), JsonV::Num(t))]);
            assert(spec_get(j, ("term").spec_bytes()) == Some(JsonV::Num(t)));
        },
        LogEntryV::ClusterConfig { voters, new_voters } => {
            assert(spec_get(j, ("type").spec_bytes()) == Some(
                JsonV::Str(("ClusterConfig").spec_bytes()),
            ));
            assert(("ClusterConfig").spec_bytes() != ("Term").spec_bytes());
            assert(spec_members(j).skip(1) =~= seq![
                (("voters").spec_bytes(), JsonV::Arr(spec_nums(voters))),
                (("new_voters").spec_bytes(), JsonV::Arr(spec_nums(new_voters))),
            ]);
            assert(spec_get(j, ("voters").spec_bytes()) == Some(JsonV::Arr(spec_nums(voters))));
            lemma_bytes_ne(("voters").spec_bytes(), ("new_voters").spec_bytes(), 0);
            assert(spec_members(j).skip(1).skip(1) =~= seq![
                (("new_voters").spec_bytes(), JsonV::Arr(spec_nums(new_voters))),
            ]);
            assert(spec_get(j, ("new_voters").spec_bytes()) == Some(
                JsonV::Arr(spec_nums(new_voters)),
            ));
            lemma_nums_round_trip(voters);
            lemma_nums_round_trip(new_voters);
        },
        LogEntryV::Command(v) => {
            assert(spec_get(j, ("type").spec_bytes()) == Some(
                JsonV::Str(("Command").spec_bytes()),
            ));
            assert(("Command").spec_bytes() != ("Term").spec_bytes());
            assert(("Command").spec_bytes() != ("ClusterConfig").spec_bytes());
            lemma_bytes_ne(("type").spec_bytes(), ("value").spec_bytes(), 0);
            assert(spec_members(j).skip(1) =~= seq![(("value").spec_bytes(), v)]);
            assert(spec_get(j, ("value").spec_bytes()) == Some(v));
        },
    }
}


/// A list of log entries in wire form.
pub open spec fn spec_entries_to_json(s: Seq<LogEntryV>) -> Seq<JsonV> {
    Seq::new(s.len(), |i: int| spec_log_entry_to_json(s[i]))
}

/// Reads a list of log entries back from wire form.
pub open spec fn spec_json_to_entries(s: Seq<JsonV>) -> Option<Seq<LogEntryV>>
    decreases s.len(),
{
    if s.len() == 0 {
        Some(Seq::empty())
    } else {
        match spec_json_to_log_entry(s[0]) {
            Some(e) => match spec_json_to_entries(s.skip(1)) {
                Some(rest) => Some(seq![e] + rest),
                None => None,
            },
            None => None,
        }
    }
}

/// Parsing a formatted list of log entries gives it back.
pub proof fn lemma_entries_round_trip(s: Seq<LogEntryV>)
    ensures
        spec_json_to_entries(spec_entries_to_json(s)) == Some(s),
    decreases s.len(),
{
    reveal_with_fuel(spec_json_to_entries, 2);
    if s.len() > 0 {
        lemma_log_entry_round_trip(s[0]);
        lemma_entries_round_trip(s.skip(1));
        assert(spec_entries_to_json(s).skip(1) =~= spec_entries_to_json(s.skip(1)));
        assert(seq![s[0]] + s.skip(1) =~= s);
    } else {
        assert(spec_entries_to_json(s) =~= Seq::<JsonV>::empty());
        assert(s =~= Seq::<LogEntryV>::empty());
    }
}

/// Appending one value extends a parsed entry list by one entry.
pub proof fn lemma_json_to_entries_snoc(s: Seq<JsonV>, x: JsonV)
    ensures
        spec_json_to_entries(s.push(x)) == match (
            spec_json_to_entries(s),
            spec_json_to_log_entry(x),
        ) {
            (Some(rest), Some(e)) => Some(rest.push(e)),
            _ => None,
        },
    decreases s.len(),
{
    reveal_with_fuel(spec_json_to_entries, 3);
    if s.len() == 0 {
        assert(s.push(x).skip(1) =~= Seq::<JsonV>::empty());
        if spec_json_to_log_entry(x) is Some {
            let e = spec_json_to_log_entry(x)->Some_0;
            assert(seq![e] + Seq::<LogEntryV>::empty() =~= Seq::<LogEntryV>::empty().push(e));
        }
    } else {
        assert(s.push(x).skip(1) =~= s.skip(1).push(x));
        lemma_json_to_entries_snoc(s.skip(1), x);
        if spec_json_to_log_entry(s[0]) is Some && spec_json_to_entries(s) is Some
            && spec_json_to_log_entry(x) is Some {
            let e0 = spec_json_to_log_entry(s[0])->Some_0;
            let e = spec_json_to_log_entry(x)->Some_0;
            assert(seq![e0] + spec_json_to_entries(s.skip(1))->Some_0.push(e) =~= (seq![e0]
                + spec_json_to_entries(s.skip(1))->Some_0).push(e));
        }
    }
}

/// When an element fails to parse, the whole entry list fails.
pub proof fn lemma_json_to_entries_prefix_none(s: Seq<JsonV>, i: int)
    requires
        0 <= i < s.len(),
        spec_json_to_log_entry(s[i]) is None,
    ensures
        spec_json_to_entries(s) is None,
    decreases i,
{
    if i > 0 {
        lemma_json_to_entries_prefix_none(s.skip(1), i - 1);
    }
}

/// Formats a list of log entries.
pub fn entries_to_json(entries: &Vec<LogEntry>) -> (r: Json)
    ensures
        r@ == JsonV::Arr(spec_entries_to_json(view_entries(entries@))),
{
    broadcast use lemma_view_arr;

    let mut items: Vec<Json> = Vec::new();
    let mut i: usize = 0;
    while i < entries.len()
        invariant
            0 <= i <= entries@.len(),
            items@.len() == i,
            forall|k: int|
                0 <= k < i ==> items@[k]@ == spec_log_entry_to_json(entries@[k]@),
        decreases entries@.len() - i,
    {
        items.push(entries[i].to_json());
        i += 1;
    }
    let r = Json::Arr(items);
    proof {
        assert(view_arr(r->Arr_0@) =~= spec_entries_to_json(view_entries(entries@)));
    }
    r
}

/// Reads a list of log entries back from a JSON array's elements.
pub fn json_to_log_entries(items: &Vec<Json>) -> (r: Option<Vec<LogEntry>>)
    ensures
        match r {
            Some(v) => spec_json_to_entries(view_arr(items@)) == Some(view_entries(v@)),
            None => spec_json_to_entries(view_arr(items@)) is None,
        },
{
    broadcast use lemma_view_arr;

    let ghost view = view_arr(items@);
    let mut out: Vec<LogEntry> = Vec::new();
    let mut i: usize = 0;
    assert(view.take(0) =~= Seq::<JsonV>::empty());
    assert(view_entries(out@) =~= Seq::<LogEntryV>::empty());
    while i < items.len()
        invariant
            0 <= i <= items@.len(),
            view == view_arr(items@),
            view.len() == items@.len(),
            spec_json_to_entries(view.take(i as int)) == Some(view_entries(out@)),
            out@.len() == i,
        decreases items@.len() - i,
    {
        let e = match LogEntry::from_json(&items[i]) {
            Some(e) => e,
            None => {
                proof {
                    lemma_json_to_entries_prefix_none(view, i as int);
                }
                return None;
            },
        };
        proof {
            lemma_json_to_entries_snoc(view.take(i as int), view[i as int]);
            assert(view.take(i as int).push(view[i as int]) =~= view.take(i + 1));
        }
        let ghost prev_out = out@;
        out.push(e);
        proof {
            assert(view_entries(out@) =~= view_entries(prev_out).push(e@));
        }
        i += 1;
    }
    proof {
        assert(view.take(i as int) =~= view);
    }
    Some(out)
}

/// The wire form of a Raft message.
pub open spec fn spec_message_to_json(m: MessageV) -> JsonV {
    match m {
        MessageV::RequestVoteCall { from, term, last_position } => JsonV::Obj(
            seq![
                (("type").spec_bytes(), JsonV::Str(("RequestVoteCall").spec_bytes())),
                (("from").spec_bytes(), JsonV::Num(from)),
                (("term").spec_bytes(), JsonV::Num(term)),
                (("last_term").spec_bytes(), JsonV::Num(last_position.term)),
                (("last_index").spec_bytes(), JsonV::Num(last_position.index)),
            ],
        ),
        MessageV::RequestVoteReply { from, term, vote_granted } => JsonV::Obj(
            seq![
                (("type").spec_bytes(), JsonV::Str(("RequestVoteReply").spec_bytes())),
                (("from").spec_bytes(), JsonV::Num(from)),
                (("term").spec_bytes(), JsonV::Num(term)),
                (("vote_granted").spec_bytes(), JsonV::Bool(vote_granted)),
            ],
        ),
        MessageV::AppendEntriesCall { from, term, commit_index, prev_position, entries } => {
            JsonV::Obj(
                seq![
                    (("type").spec_bytes(), JsonV::Str(("AppendEntriesCall").spec_bytes())),
                    (("from").spec_bytes(), JsonV::Num(from)),
                    (("term").spec_bytes(), JsonV::Num(term)),
                    (("commit_index").spec_bytes(), JsonV::Num(commit_index)),
                    (("prev_term").spec_bytes(), JsonV::Num(prev_position.term)),
                    (("prev_index").spec_bytes(), JsonV::Num(prev_position.index)),
                    (("entries").spec_bytes(), JsonV::Arr(spec_entries_to_json(entries))),
                ],
            )
        },
        MessageV::AppendEntriesReply { from, term, generation, last_position } => JsonV::Obj(
            seq![
                (("type").spec_bytes(), JsonV::Str(("AppendEntriesReply").spec_bytes())),
                (("from").spec_bytes(), JsonV::Num(from)),
                (("term").spec_bytes(), JsonV::Num(term)),
                (("generation").spec_bytes(), JsonV::Num(generation)),
                (("last_term").spec_bytes(), JsonV::Num(last_position.term)),
                (("last_index").spec_bytes(), JsonV::Num(last_position.index)),
            ],
        ),
    }
}

/// A `u64` member of an object, if present.
pub open spec fn spec_get_num(j: JsonV, key: Seq<u8>) -> Option<u64> {
    match spec_get(j, key) {
        Some(JsonV::Num(n)) => Some(n),
        _ => None,
    }
}

/// Reads a Raft message back from its wire form.
pub open spec fn spec_json_to_message(j: JsonV) -> Option<MessageV> {
    match (
        spec_get(j, ("type").spec_bytes()),
        spec_get_num(j, ("from").spec_bytes()),
        spec_get_num(j, ("term").spec_bytes()),
    ) {
        (Some(JsonV::Str(tag)), Some(from), Some(term)) => {
            if tag == ("RequestVoteCall").spec_bytes() {
                match (
                    spec_get_num(j, ("last_term").spec_bytes()),
                    spec_get_num(j, ("last_index").spec_bytes()),
                ) {
                    (Some(lt), Some(li)) => Some(
                        MessageV::RequestVoteCall {
                            from,
                            term,
                            last_position: LogPosition { term: lt, index: li },
                        },
                    ),
                    _ => None,
                }
            } else if tag == ("RequestVoteReply").spec_bytes() {
                match spec_get(j, ("vote_granted").spec_bytes()) {
                    Some(JsonV::Bool(vg)) => Some(
                        MessageV::RequestVoteReply { from, term, vote_granted: vg },
                    ),
                    _ => None,
                }
            } else if tag == ("AppendEntriesCall").spec_bytes() {
                match (
                    spec_get_num(j, ("commit_index").spec_bytes()),
                    spec_get_num(j, ("prev_term").spec_bytes()),
                    spec_get_num(j, ("prev_index").spec_bytes()),
                    spec_get(j, ("entries").spec_bytes()),
                ) {
                    (Some(ci), Some(pt), Some(pi), Some(JsonV::Arr(items))) => {
                        match spec_json_to_entries(items) {
                            Some(entries) => Some(
                                MessageV::AppendEntriesCall {
                                    from,
                                    term,
                                    commit_index: ci,
                                    prev_position: LogPosition { term: pt, index: pi },
                                    entries,
                                },
                            ),
                            None => None,
                        }
                    },
                    _ => None,
                }
            } else if tag == ("AppendEntriesReply").spec_bytes() {
                match (
                    spec_get_num(j, ("generation").spec_bytes()),
                    spec_get_num(j, ("last_term").spec_bytes()),
                    spec_get_num(j, ("last_index").spec_bytes()),
                ) {
                    (Some(g), Some(lt), Some(li)) => Some(
                        MessageV::AppendEntriesReply {
                            from,
                            term,
                            generation: g,
                            last_position: LogPosition { term: lt, index: li },
                        },
                    ),
                    _ => None,
                }
            } else {
                None
            }
        },
        _ => None,
    }
}

/// Formats a Raft message for the wire; command payloads travel inline in
/// the entries.
pub fn fmt_message(m: &Message) -> (r: Json)
    ensures
        r@ == spec_message_to_json(m@),
{
    let mut b = ObjBuilder::new();
    match m {
        Message::RequestVoteCall { from, term, last_position } => {
            b.member("type", Json::str_of("RequestVoteCall"));
            b.member("from", Json::Num(*from));
            b.member("term", Json::Num(*term));
            b.member("last_term", Json::Num(last_position.term));
            b.member("last_index", Json::Num(last_position.index));
        },
        Message::RequestVoteReply { from, term, vote_granted } => {
            b.member("type", Json::str_of("RequestVoteReply"));
            b.member("from", Json::Num(*from));
            b.member("term", Json::Num(*term));
            b.member("vote_granted", Json::Bool(*vote_granted));
        },
        Message::AppendEntriesCall { from, term, commit_index, prev_position, entries } => {
            b.member("type", Json::str_of("AppendEntriesCall"));
            b.member("from", Json::Num(*from));
            b.member("term", Json::Num(*term));
            b.member("commit_index", Json::Num(*commit_index));
            b.member("prev_term", Json::Num(prev_position.term));
            b.member("prev_index", Json::Num(prev_position.index));
            b.member("entries", entries_to_json(entries));
        },
        Message::AppendEntriesReply { from, term, generation, last_position } => {
            b.member("type", Json::str_of("AppendEntriesReply"));
            b.member("from", Json::Num(*from));
            b.member("term", Json::Num(*term));
            b.member("generation", Json::Num(*generation));
            b.member("last_term", Json::Num(last_position.term));
            b.member("last_index", Json::Num(last_position.index));
        },
    }
    proof {
        assert(b@ =~= spec_message_to_json(m@)->Obj_0);
    }
    b.build()
}

/// A `u64` member of an object, if present.
fn get_num(j: &Json, key: &str) -> (r: Option<u64>)
    ensures
        r == spec_get_num(j@, key.spec_bytes()),
{
    match j.get(key) {
        Some(v) => v.as_u64(),
        None => None,
    }
}

/// Reads a Raft message back from its wire form; only the structure is
/// read, and command payloads are collected separately by
/// [`get_command_values`].
pub fn json_to_message(j: &Json) -> (r: Option<Message>)
    ensures
        match r {
            Some(m) => spec_json_to_message(j@) == Some(m@),
            None => spec_json_to_message(j@) is None,
        },
{
    let tag = match j.get("type") {
        Some(t) => t,
        None => {
            return None;
        },
    };
    let from = match get_num(j, "from") {
        Some(n) => n,
        None => {
            return None;
        },
    };
    let term = match get_num(j, "term") {
        Some(n) => n,
        None => {
            return None;
        },
    };
    if tag.is_str("RequestVoteCall") {
        let lt = match get_num(j, "last_term") {
            Some(n) => n,
            None => {
                return None;
            },
        };
        let li = match get_num(j, "last_index") {
            Some(n) => n,
            None => {
                return None;
            },
        };
        Some(
            Message::RequestVoteCall {
                from,
                term,
                last_position: LogPosition { term: lt, index: li },
            },
        )
    } else if tag.is_str("RequestVoteReply") {
        let vg = match j.get("vote_granted") {
            Some(v) => match v.as_bool() {
                Some(b) => b,
                None => {
                    return None;
                },
            },
            None => {
                return None;
            },
        };
        Some(Message::RequestVoteReply { from, term, vote_granted: vg })
    } else if tag.is_str("AppendEntriesCall") {
        let ci = match get_num(j, "commit_index") {
            Some(n) => n,
            None => {
                return None;
            },
        };
        let pt = match get_num(j, "prev_term") {
            Some(n) => n,
            None => {
                return None;
            },
        };
        let pi = match get_num(j, "prev_index") {
            Some(n) => n,
            None => {
                return None;
            },
        };
        let items = match j.get("entries") {
            Some(e) => match e.as_arr() {
                Some(items) => items,
                None => {
                    return None;
                },
            },
            None => {
                return None;
            },
        };
        let entries = match json_to_log_entries(items) {
            Some(entries) => entries,
            None => {
                return None;
            },
        };
        Some(
            Message::AppendEntriesCall {
                from,
                term,
                commit_index: ci,
                prev_position: LogPosition { term: pt, index: pi },
                entries,
            },
        )
    } else if tag.is_str("AppendEntriesReply") {
        let g = match get_num(j, "generation") {
            Some(n) => n,
            None => {
                return None;
            },
        };
        let lt = match get_num(j, "last_term") {
            Some(n) => n,
            None => {
                return None;
            },
        };
        let li = match get_num(j, "last_index") {
            Some(n) => n,
            None => {
                return None;
            },
        };
        Some(
            Message::AppendEntriesReply {
                from,
                term,
                generation: g,
                last_position: LogPosition { term: lt, index: li },
            },
        )
    } else {
        None
    }
}


/// Resolves a lookup in a member list whose earlier keys all differ from
/// the one looked up.
pub proof fn lemma_obj_get_at(members: Seq<(Seq<u8>, JsonV)>, key: Seq<u8>, n: int)
    requires
        0 <= n < members.len(),
        members[n].0 == key,
        forall|k: int| 0 <= k < n ==> members[k].0 != key,
    ensures
        spec_obj_get(members, key) == Some(members[n].1),
    decreases n,
{
    if n > 0 {
        lemma_obj_get_at(members.skip(1), key, n - 1);
    }
}

/// Parsing the wire form of a Raft message gives it back.
#[verifier::rlimit(100)]
pub proof fn lemma_message_round_trip(m: MessageV)
    ensures
        spec_json_to_message(spec_message_to_json(m)) == Some(m),
{
    lemma_bytes_type();
    lemma_bytes_from();
    lemma_bytes_term();
    lemma_bytes_last_term();
    lemma_bytes_last_index();
    lemma_bytes_vote_granted();
    lemma_bytes_commit_index();
    lemma_bytes_prev_term();
    lemma_bytes_prev_index();
    lemma_bytes_entries();
    lemma_bytes_generation();
    lemma_bytes_tag_requestvotecall();
    lemma_bytes_tag_requestvotereply();
    lemma_bytes_tag_appendentriescall();
    lemma_bytes_tag_appendentriesreply();
    lemma_bytes_ne(("type").spec_bytes(), ("from").spec_bytes(), 0);
    lemma_bytes_ne(("type").spec_bytes(), ("term").spec_bytes(), 1);
    lemma_bytes_ne(("from").spec_bytes(), ("term").spec_bytes(), 0);
    lemma_bytes_ne(("generation").spec_bytes(), ("last_index").spec_bytes(), 0);
    let j = spec_message_to_json(m);
    let ms = spec_members(j);
    lemma_obj_get_at(ms, ("type").spec_bytes(), 0);
    lemma_obj_get_at(ms, ("from").spec_bytes(), 1);
    lemma_obj_get_at(ms, ("term").spec_bytes(), 2);
    match m {
        MessageV::RequestVoteCall { from, term, last_position } => {
            lemma_obj_get_at(ms, ("last_term").spec_bytes(), 3);
            lemma_obj_get_at(ms, ("last_index").spec_bytes(), 4);
        },
        MessageV::RequestVoteReply { from, term, vote_granted } => {
            lemma_obj_get_at(ms, ("vote_granted").spec_bytes(), 3);
        },
        MessageV::AppendEntriesCall { from, term, commit_index, prev_position, entries } => {
            lemma_obj_get_at(ms, ("commit_index").spec_bytes(), 3);
            lemma_obj_get_at(ms, ("prev_term").spec_bytes(), 4);
            lemma_obj_get_at(ms, ("prev_index").spec_bytes(), 5);
            lemma_obj_get_at(ms, ("entries").spec_bytes(), 6);
            lemma_entries_round_trip(entries);
        },
        MessageV::AppendEntriesReply { from, term, generation, last_position } => {
            lemma_obj_get_at(ms, ("generation").spec_bytes(), 3);
            lemma_obj_get_at(ms, ("last_term").spec_bytes(), 4);
            lemma_obj_get_at(ms, ("last_index").spec_bytes(), 5);
        },
    }
}

/// The wire form of a command envelope.
pub open spec fn spec_command_to_json(c: CommandV) -> JsonV {
    match c {
        CommandV::Apply { proposal_id, command } => JsonV::Obj(
            seq![
                (("type").spec_bytes(), JsonV::Str(("Apply").spec_bytes())),
                (("proposal_id").spec_bytes(), spec_proposal_id_to_json(proposal_id)),
                (("command").spec_bytes(), command),
            ],
        ),
        CommandV::AddNode { proposal_id, id } => JsonV::Obj(
            seq![
                (("type").spec_bytes(), JsonV::Str(("AddNode").spec_bytes())),
                (("proposal_id").spec_bytes(), spec_proposal_id_to_json(proposal_id)),
                (("id").spec_bytes(), JsonV::Num(id)),
            ],
        ),
        CommandV::RemoveNode { proposal_id, id } => JsonV::Obj(
            seq![
                (("type").spec_bytes(), JsonV::Str(("RemoveNode").spec_bytes())),
                (("proposal_id").spec_bytes(), spec_proposal_id_to_json(proposal_id)),
                (("id").spec_bytes(), JsonV::Num(id)),
            ],
        ),
        CommandV::Query => JsonV::Obj(
            seq![(("type").spec_bytes(), JsonV::Str(("Query").spec_bytes()))],
        ),
    }
}

/// Reads a command envelope back from its wire form.
pub open spec fn spec_json_to_command(j: JsonV) -> Option<CommandV> {
    match spec_get(j, ("type").spec_bytes()) {
        Some(JsonV::Str(tag)) => {
            if tag == ("Apply").spec_bytes() {
                match (
                    spec_get(j, ("proposal_id").spec_bytes()),
                    spec_get(j, ("command").spec_bytes()),
                ) {
                    (Some(pid), Some(command)) => match spec_json_to_proposal_id(pid) {
                        Some(proposal_id) => Some(CommandV::Apply { proposal_id, command }),
                        None => None,
                    },
                    _ => None,
                }
            } else if tag == ("AddNode").spec_bytes() {
                match (
                    spec_get(j, ("proposal_id").spec_bytes()),
                    spec_get_num(j, ("id").spec_bytes()),
                ) {
                    (Some(pid), Some(id)) => match spec_json_to_proposal_id(pid) {
                        Some(proposal_id) => Some(CommandV::AddNode { proposal_id, id }),
                        None => None,
                    },
                    _ => None,
                }
            } else if tag == ("RemoveNode").spec_bytes() {
                match (
                    spec_get(j, ("proposal_id").spec_bytes()),
                    spec_get_num(j, ("id").spec_bytes()),
                ) {
                    (Some(pid), Some(id)) => match spec_json_to_proposal_id(pid) {
                        Some(proposal_id) => Some(CommandV::RemoveNode { proposal_id, id }),
                        None => None,
                    },
                    _ => None,
                }
            } else if tag == ("Query").spec_bytes() {
                Some(CommandV::Query)
            } else {
                None
            }
        },
        _ => None,
    }
}

impl Command {
    pub fn to_json(&self) -> (r: Json)
        ensures
            r@ == spec_command_to_json(self@),
    {
        let mut b = ObjBuilder::new();
        match self {
            Command::Apply { proposal_id, command } => {
                b.member("type", Json::str_of("Apply"));
                b.member("proposal_id", proposal_id.to_json());
                b.member("command", command.deep_clone());
            },
            Command::AddNode { proposal_id, id } => {
                b.member("type", Json::str_of("AddNode"));
                b.member("proposal_id", proposal_id.to_json());
                b.member("id", Json::Num(*id));
            },
            Command::RemoveNode { proposal_id, id } => {
                b.member("type", Json::str_of("RemoveNode"));
                b.member("proposal_id", proposal_id.to_json());
                b.member("id", Json::Num(*id));
            },
            Command::Query => {
                b.member("type", Json::str_of("Query"));
            },
        }
        proof {
            assert(b@ =~= spec_command_to_json(self@)->Obj_0);
        }
        b.build()
    }

    pub fn from_json(j: &Json) -> (r: Option<Command>)
        ensures
            match r {
                Some(c) => spec_json_to_command(j@) == Some(c@),
                None => spec_json_to_command(j@) is None,
            },
    {
        let tag = match j.get("type") {
            Some(t) => t,
            None => {
                return None;
            },
        };
        if tag.is_str("Apply") {
            let pid = match j.get("proposal_id") {
                Some(p) => match ProposalId::from_json(p) {
                    Some(pid) => pid,
                    None => {
                        return None;
                    },
                },
                None => {
                    return None;
                },
            };
            match j.get("command") {
                Some(c) => Some(Command::Apply { proposal_id: pid, command: c.deep_clone() }),
                None => None,
            }
        } else if tag.is_str("AddNode") {
            let pid = match j.get("proposal_id") {
                Some(p) => match ProposalId::from_json(p) {
                    Some(pid) => pid,
                    None => {
                        return None;
                    },
                },
                None => {
                    return None;
                },
            };
            match get_num(j, "id") {
                Some(id) => Some(Command::AddNode { proposal_id: pid, id }),
                None => None,
            }
        } else if tag.is_str("RemoveNode") {
            let pid = match j.get("proposal_id") {
                Some(p) => match ProposalId::from_json(p) {
                    Some(pid) => pid,
                    None => {
                        return None;
                    },
                },
                None => {
                    return None;
                },
            };
            match get_num(j, "id") {
                Some(id) => Some(Command::RemoveNode { proposal_id: pid, id }),
                None => None,
            }
        } else if tag.is_str("Query") {
            Some(Command::Query)
        } else {
            None
        }
    }
}

/// Parsing the wire form of a command envelope gives it back.
#[verifier::rlimit(50)]
pub proof fn lemma_command_round_trip(c: CommandV)
    ensures
        spec_json_to_command(spec_command_to_json(c)) == Some(c),
{
    lemma_bytes_type();
    lemma_bytes_proposal_id();
    lemma_bytes_command();
    lemma_bytes_id();
    lemma_bytes_tag_apply();
    lemma_bytes_tag_addnode();
    lemma_bytes_tag_removenode();
    lemma_bytes_tag_query();
    lemma_bytes_ne(("Apply").spec_bytes(), ("Query").spec_bytes(), 0);
    let j = spec_command_to_json(c);
    let ms = spec_members(j);
    lemma_obj_get_at(ms, ("type").spec_bytes(), 0);
    match c {
        CommandV::Apply { proposal_id, command } => {
            lemma_obj_get_at(ms, ("proposal_id").spec_bytes(), 1);
            lemma_obj_get_at(ms, ("command").spec_bytes(), 2);
            lemma_proposal_id_round_trip(proposal_id);
        },
        CommandV::AddNode { proposal_id, id } => {
            lemma_obj_get_at(ms, ("proposal_id").spec_bytes(), 1);
            lemma_obj_get_at(ms, ("id").spec_bytes(), 2);
            lemma_proposal_id_round_trip(proposal_id);
        },
        CommandV::RemoveNode { proposal_id, id } => {
            assert(("RemoveNode").spec_bytes() != ("Apply").spec_bytes());
            assert(("RemoveNode").spec_bytes() != ("AddNode").spec_bytes());
            lemma_obj_get_at(ms, ("proposal_id").spec_bytes(), 1);
            lemma_obj_get_at(ms, ("id").spec_bytes(), 2);
            lemma_proposal_id_round_trip(proposal_id);
        },
        CommandV::Query => {},
    }
}

/// The wire form of a query exchange message.
pub open spec fn spec_query_message_to_json(q: QueryMessageV) -> JsonV {
    match q {
        QueryMessageV::Redirect { from, proposal_id, request } => JsonV::Obj(
            seq![
                (("type").spec_bytes(), JsonV::Str(("Redirect").spec_bytes())),
                (("from").spec_bytes(), JsonV::Num(from)),
                (("proposal_id").spec_bytes(), spec_proposal_id_to_json(proposal_id)),
                (("request").spec_bytes(), request),
            ],
        ),
        QueryMessageV::Proposed { proposal_id, position, request } => JsonV::Obj(
            seq![
                (("type").spec_bytes(), JsonV::Str(("Proposed").spec_bytes())),
                (("proposal_id").spec_bytes(), spec_proposal_id_to_json(proposal_id)),
                (("term").spec_bytes(), JsonV::Num(position.term)),
                (("index").spec_bytes(), JsonV::Num(position.index)),
                (("request").spec_bytes(), request),
            ],
        ),
    }
}

/// Reads a query exchange message back from its wire form.
pub open spec fn spec_json_to_query_message(j: JsonV) -> Option<QueryMessageV> {
    match spec_get(j, ("type").spec_bytes()) {
        Some(JsonV::Str(tag)) => {
            if tag == ("Redirect").spec_bytes() {
                match (
                    spec_get_num(j, ("from").spec_bytes()),
                    spec_get(j, ("proposal_id").spec_bytes()),
                    spec_get(j, ("request").spec_bytes()),
                ) {
                    (Some(from), Some(pid), Some(request)) => match spec_json_to_proposal_id(
                        pid,
                    ) {
                        Some(proposal_id) => Some(
                            QueryMessageV::Redirect { from, proposal_id, request },
                        ),
                        None => None,
                    },
                    _ => None,
                }
            } else if tag == ("Proposed").spec_bytes() {
                match (
                    spec_get(j, ("proposal_id").spec_bytes()),
                    spec_get_num(j, ("term").spec_bytes()),
                    spec_get_num(j, ("index").spec_bytes()),
                    spec_get(j, ("request").spec_bytes()),
                ) {
                    (Some(pid), Some(t), Some(i), Some(request)) => {
                        match spec_json_to_proposal_id(pid) {
                            Some(proposal_id) => Some(
                                QueryMessageV::Proposed {
                                    proposal_id,
                                    position: LogPosition { term: t, index: i },
                                    request,
                                },
                            ),
                            None => None,
                        }
                    },
                    _ => None,
                }
            } else {
                None
            }
        },
        _ => None,
    }
}

impl QueryMessage {
    pub fn to_json(&self) -> (r: Json)
        ensures
            r@ == spec_query_message_to_json(self@),
    {
        let mut b = ObjBuilder::new();
        match self {
            QueryMessage::Redirect { from, proposal_id, request } => {
                b.member("type", Json::str_of("Redirect"));
                b.member("from", Json::Num(*from));
                b.member("proposal_id", proposal_id.to_json());
                b.member("request", request.deep_clone());
            },
            QueryMessage::Proposed { proposal_id, position, request } => {
                b.member("type", Json::str_of("Proposed"));
                b.member("proposal_id", proposal_id.to_json());
                b.member("term", Json::Num(position.term));
                b.member("index", Json::Num(position.index));
                b.member("request", request.deep_clone());
            },
        }
        proof {
            assert(b@ =~= spec_query_message_to_json(self@)->Obj_0);
        }
        b.build()
    }

    pub fn from_json(j: &Json) -> (r: Option<QueryMessage>)
        ensures
            match r {
                Some(q) => spec_json_to_query_message(j@) == Some(q@),
                None => spec_json_to_query_message(j@) is None,
            },
    {
        let tag = match j.get("type") {
            Some(t) => t,
            None => {
                return None;
            },
        };
        if tag.is_str("Redirect") {
            let from = match get_num(j, "from") {
                Some(n) => n,
                None => {
                    return None;
                },
            };
            let pid = match j.get("proposal_id") {
                Some(p) => match ProposalId::from_json(p) {
                    Some(pid) => pid,
                    None => {
                        return None;
                    },
                },
                None => {
                    return None;
                },
            };
            match j.get("request") {
                Some(r) => Some(
                    QueryMessage::Redirect {
                        from,
                        proposal_id: pid,
                        request: r.deep_clone(),
                    },
                ),
                None => None,
            }
        } else if tag.is_str("Proposed") {
            let pid = match j.get("proposal_id") {
                Some(p) => match ProposalId::from_json(p) {
                    Some(pid) => pid,
                    None => {
                        return None;
                    },
                },
                None => {
                    return None;
                },
            };
            let t = match get_num(j, "term") {
                Some(n) => n,
                None => {
                    return None;
                },
            };
            let i = match get_num(j, "index") {
                Some(n) => n,
                None => {
                    return None;
                },
            };
            match j.get("request") {
                Some(r) => Some(
                    QueryMessage::Proposed {
                        proposal_id: pid,
                        position: LogPosition { term: t, index: i },
                        request: r.deep_clone(),
                    },
                ),
                None => None,
            }
        } else {
            None
        }
    }
}

/// Parsing the wire form of a query exchange message gives it back.
#[verifier::rlimit(50)]
pub proof fn lemma_query_message_round_trip(q: QueryMessageV)
    ensures
        spec_json_to_query_message(spec_query_message_to_json(q)) == Some(q),
{
    lemma_bytes_type();
    lemma_bytes_from();
    lemma_bytes_proposal_id();
    lemma_bytes_request();
    lemma_bytes_term();
    lemma_bytes_index();
    lemma_bytes_tag_redirect();
    lemma_bytes_tag_proposed();
    lemma_bytes_ne(("Redirect").spec_bytes(), ("Proposed").spec_bytes(), 0);
    lemma_bytes_ne(("type").spec_bytes(), ("from").spec_bytes(), 0);
    lemma_bytes_ne(("type").spec_bytes(), ("term").spec_bytes(), 1);
    let j = spec_query_message_to_json(q);
    let ms = spec_members(j);
    lemma_obj_get_at(ms, ("type").spec_bytes(), 0);
    match q {
        QueryMessageV::Redirect { from, proposal_id, request } => {
            lemma_obj_get_at(ms, ("from").spec_bytes(), 1);
            lemma_obj_get_at(ms, ("proposal_id").spec_bytes(), 2);
            lemma_obj_get_at(ms, ("request").spec_bytes(), 3);
            lemma_proposal_id_round_trip(proposal_id);
        },
        QueryMessageV::Proposed { proposal_id, position, request } => {
            lemma_obj_get_at(ms, ("proposal_id").spec_bytes(), 1);
            lemma_obj_get_at(ms, ("term").spec_bytes(), 2);
            lemma_obj_get_at(ms, ("index").spec_bytes(), 3);
            lemma_obj_get_at(ms, ("request").spec_bytes(), 4);
            lemma_proposal_id_round_trip(proposal_id);
        },
    }
}


/// The running term after consuming a run of entries: a `Term` entry sets
/// it, any other entry keeps it.
pub open spec fn spec_term_after(prev_term: u64, entries: Seq<LogEntryV>) -> u64
    decreases entries.len(),
{
    if entries.len() == 0 {
        prev_term
    } else {
        let term = match entries[0] {
            LogEntryV::Term(t) => t,
            _ => prev_term,
        };
        spec_term_after(term, entries.skip(1))
    }
}

/// The command payloads of a run of entries, each with the position it
/// occupies: indices count up from just past `prev`, and the term tracks the
/// `Term` entries passed, each such entry already carrying its own new term.
pub open spec fn spec_command_values(prev: LogPosition, entries: Seq<LogEntryV>) -> Seq<
    (LogPosition, JsonV),
>
    recommends
        prev.index + entries.len() <= u64::MAX,
    decreases entries.len(),
{
    if entries.len() == 0 {
        Seq::empty()
    } else {
        let term = match entries[0] {
            LogEntryV::Term(t) => t,
            _ => prev.term,
        };
        let pos = LogPosition { term, index: (prev.index + 1) as u64 };
        let rest = spec_command_values(pos, entries.skip(1));
        match entries[0] {
            LogEntryV::Command(v) => seq![(pos, v)] + rest,
            _ => rest,
        }
    }
}

/// Appending an entry appends its contribution.
pub proof fn lemma_command_values_snoc(prev: LogPosition, s: Seq<LogEntryV>, x: LogEntryV)
    requires
        prev.index + s.len() + 1 <= u64::MAX,
    ensures
        spec_command_values(prev, s.push(x)) == spec_command_values(prev, s) + ({
            let term = match x {
                LogEntryV::Term(t) => t,
                _ => spec_term_after(prev.term, s),
            };
            let pos = LogPosition { term, index: (prev.index + s.len() + 1) as u64 };
            match x {
                LogEntryV::Command(v) => seq![(pos, v)],
                _ => Seq::<(LogPosition, JsonV)>::empty(),
            }
        }),
    decreases s.len(),
{
    reveal_with_fuel(spec_command_values, 3);
    reveal_with_fuel(spec_term_after, 3);
    if s.len() == 0 {
        assert(s.push(x).skip(1) =~= Seq::<LogEntryV>::empty());
        assert(spec_command_values(prev, s) =~= Seq::<(LogPosition, JsonV)>::empty());
        match x {
            LogEntryV::Command(v) => {
                let term = prev.term;
                let pos = LogPosition { term, index: (prev.index + 1) as u64 };
                assert(spec_command_values(prev, s.push(x)) =~= spec_command_values(prev, s)
                    + seq![(pos, v)]);
            },
            _ => {
                assert(spec_command_values(prev, s.push(x)) =~= spec_command_values(
                    prev,
                    s,
                ));
            },
        }
    } else {
        assert(s.push(x).skip(1) =~= s.skip(1).push(x));
        let term0 = match s[0] {
            LogEntryV::Term(t) => t,
            _ => prev.term,
        };
        let pos0 = LogPosition { term: term0, index: (prev.index + 1) as u64 };
        lemma_command_values_snoc(pos0, s.skip(1), x);
        assert(spec_term_after(prev.term, s) == spec_term_after(term0, s.skip(1)));
        assert(spec_command_values(prev, s.push(x)) =~= spec_command_values(prev, s) + ({
            let term = match x {
                LogEntryV::Term(t) => t,
                _ => spec_term_after(prev.term, s),
            };
            let pos = LogPosition { term, index: (prev.index + s.len() + 1) as u64 };
            match x {
                LogEntryV::Command(v) => seq![(pos, v)],
                _ => Seq::<(LogPosition, JsonV)>::empty(),
            }
        }));
    }
}

/// The positions the command payloads of a run occupy lie strictly past
/// the predecessor, within the run, and strictly ascend: no two payloads
/// share a log index.
pub proof fn lemma_command_values_positions(prev: LogPosition, entries: Seq<LogEntryV>)
    requires
        prev.index + entries.len() <= u64::MAX,
    ensures
        forall|k: int|
            0 <= k < spec_command_values(prev, entries).len() ==> prev.index < (
            #[trigger] spec_command_values(prev, entries)[k]).0.index <= prev.index
                + entries.len(),
        forall|k1: int, k2: int|
            0 <= k1 < k2 < spec_command_values(prev, entries).len() ==> spec_command_values(
                prev,
                entries,
            )[k1].0.index < spec_command_values(prev, entries)[k2].0.index,
    decreases entries.len(),
{
    reveal_with_fuel(spec_command_values, 2);
    if entries.len() > 0 {
        let term = match entries[0] {
            LogEntryV::Term(t) => t,
            _ => prev.term,
        };
        let pos = LogPosition { term, index: (prev.index + 1) as u64 };
        let rest = spec_command_values(pos, entries.skip(1));
        lemma_command_values_positions(pos, entries.skip(1));
        let cv = spec_command_values(prev, entries);
        match entries[0] {
            LogEntryV::Command(v) => {
                assert(cv == seq![(pos, v)] + rest);
                assert forall|k: int|
                    0 <= k < cv.len() implies prev.index < (#[trigger] cv[k]).0.index
                    <= prev.index + entries.len() by {
                    if k == 0 {
                        assert(cv[0] == (pos, v));
                    } else {
                        assert(cv[k] == rest[k - 1]);
                    }
                }
                assert forall|k1: int, k2: int|
                    0 <= k1 < k2 < cv.len() implies cv[k1].0.index < cv[k2].0.index by {
                    if k1 == 0 {
                        assert(cv[0] == (pos, v));
                        assert(cv[k2] == rest[k2 - 1]);
                    } else {
                        assert(cv[k1] == rest[k1 - 1]);
                        assert(cv[k2] == rest[k2 - 1]);
                    }
                }
            },
            _ => {
                assert(cv == rest);
            },
        }
    }
}

/// The mathematical form of a list of positioned payloads.
pub open spec fn view_command_values(s: Seq<(LogPosition, Json)>) -> Seq<(LogPosition, JsonV)> {
    Seq::new(s.len(), |i: int| (s[i].0, s[i].1@))
}

/// The command payloads carried by an `AppendEntriesCall`, paired with the
/// positions they will occupy.  For any other message, and when the
/// positions would pass the last representable index, nothing is returned.
pub fn get_command_values(m: &Message) -> (r: Vec<(LogPosition, Json)>)
    ensures
        m@ matches MessageV::AppendEntriesCall { prev_position, entries, .. } ==> {
            if prev_position.index + entries.len() <= u64::MAX {
                view_command_values(r@) == spec_command_values(prev_position, entries)
            } else {
                r@.len() == 0
            }
        },
        !(m@ is AppendEntriesCall) ==> r@.len() == 0,
{
    broadcast use lemma_view_arr;

    let mut out: Vec<(LogPosition, Json)> = Vec::new();
    let (prev_position, entries) = match m {
        Message::AppendEntriesCall { prev_position, entries, .. } => (prev_position, entries),
        _ => {
            return out;
        },
    };
    if entries.len() as u64 > u64::MAX - prev_position.index {
        return out;
    }
    let ghost eview = view_entries(entries@);
    let mut term: u64 = prev_position.term;
    let mut i: usize = 0;
    assert(eview.take(0) =~= Seq::<LogEntryV>::empty());
    while i < entries.len()
        invariant
            0 <= i <= entries@.len(),
            eview == view_entries(entries@),
            eview.len() == entries@.len(),
            prev_position.index + entries@.len() <= u64::MAX,
            term == spec_term_after(prev_position.term, eview.take(i as int)),
            view_command_values(out@) == spec_command_values(
                *prev_position,
                eview.take(i as int),
            ),
        decreases entries@.len() - i,
    {
        proof {
            lemma_command_values_snoc(*prev_position, eview.take(i as int), eview[i as int]);
            lemma_term_after_snoc(prev_position.term, eview.take(i as int), eview[i as int]);
            assert(eview.take(i as int).push(eview[i as int]) =~= eview.take(i + 1));
        }
        let index = prev_position.index + (i as u64) + 1;
        match &entries[i] {
            LogEntry::Term(t) => {
                term = *t;
            },
            LogEntry::ClusterConfig { .. } => {},
            LogEntry::Command(v) => {
                let ghost prev_out = out@;
                out.push((LogPosition { term, index }, v.deep_clone()));
                proof {
                    assert(view_command_values(out@) =~= view_command_values(prev_out).push(
                        (LogPosition { term, index }, out@[out@.len() - 1].1@),
                    ));
                }
            },
        }
        i += 1;
    }
    proof {
        assert(eview.take(i as int) =~= eview);
    }
    out
}

/// Appending an entry updates the running term only for a `Term` entry.
pub proof fn lemma_term_after_snoc(prev_term: u64, s: Seq<LogEntryV>, x: LogEntryV)
    ensures
        spec_term_after(prev_term, s.push(x)) == match x {
            LogEntryV::Term(t) => t,
            _ => spec_term_after(prev_term, s),
        },
    decreases s.len(),
{
    reveal_with_fuel(spec_term_after, 3);
    if s.len() == 0 {
        assert(s.push(x).skip(1) =~= Seq::<LogEntryV>::empty());
    } else {
        assert(s.push(x).skip(1) =~= s.skip(1).push(x));
        let term0 = match s[0] {
            LogEntryV::Term(t) => t,
            _ => prev_term,
        };
        lemma_term_after_snoc(term0, s.skip(1), x);
    }
}


} // verus!
