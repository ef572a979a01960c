//! The consensus node: a deterministic state machine that consumes
//! timeouts, messages and local proposals, and emits a stream of actions
//! for the host to perform.
//!
//! The node wraps the Raft primitive and layers on proposal identity across
//! restarts, leader forwarding of writes and linearisable reads, cluster
//! membership learning, in-memory log trimming and snapshot materialisation.
//! It never performs I/O itself: every outward effect is an [`Action`]
//! popped from [`Node::next_action`].

use vstd::prelude::*;
use crate::codec::{
    Command, CommandV, LogEntry, LogPosition, Message, ProposalId, QueryMessage, QueryMessageV,
    StorageEntry, fmt_message, get_command_values, json_to_message, spec_command_to_json,
    spec_json_to_command, spec_json_to_message, spec_json_to_query_message, spec_message_to_json,
    spec_storage_entry_to_json,
};
use crate::json::{Json, JsonV, spec_get};
use crate::raft::{
    CommitStatusKind, RaftEntries, RaftInner, RaftStep, RawEntry, raft_commit_index,
    raft_create_cluster, raft_current_term, raft_entries_get, raft_entries_len,
    raft_entries_prev_exec, raft_get_commit_status, raft_handle_election_timeout,
    raft_handle_message, raft_heartbeat, raft_id, raft_log_contains, raft_next_action,
    raft_entries_list, raft_node_id, raft_peek_broadcast_first_position, raft_propose_command, raft_role,
    raft_start, raft_voted_for, strict_sorted,
};

pub use crate::raft::NodeRole;

verus! {

use vstd::string::StringSliceAdditionalSpecFns;

/// A committed command handed to the user state machine.
#[derive(Debug, PartialEq, Eq)]
pub struct ApplyAction {
    /// True iff this node made the proposal, in its current incarnation:
    /// only the proposer answers the client.
    pub is_proposer: bool,
    /// The log index the command was committed at.
    pub index: u64,
    /// The identifier of the proposal, when the envelope carried one.
    pub proposal_id: Option<ProposalId>,
    /// The user request to apply.
    pub request: Json,
}

/// The mathematical form of an apply action.
#[verifier::ext_equal]
pub struct ApplyActionV {
    pub is_proposer: bool,
    pub index: u64,
    pub proposal_id: Option<ProposalId>,
    pub request: JsonV,
}

impl ApplyAction {
    pub fn index(&self) -> (r: u64)
        ensures
            r == self.index,
    {
        self.index
    }

    pub fn request(&self) -> (r: &Json)
        ensures
            r == self.request,
    {
        &self.request
    }
}

impl View for ApplyAction {
    type V = ApplyActionV;

    open spec fn view(&self) -> ApplyActionV {
        ApplyActionV {
            is_proposer: self.is_proposer,
            index: self.index,
            proposal_id: self.proposal_id,
            request: self.request@,
        }
    }
}

/// An observability event.
#[derive(Debug, Clone, Copy, PartialEq, Eq, Structural)]
pub enum Event {
    RoleChanged { from: NodeRole, to: NodeRole },
    BecameLeader { term: u64 },
}

/// One pending operation the host must perform.
#[derive(Debug, PartialEq, Eq)]
pub enum Action {
    /// Schedule the next timeout; shorter when the role is `Leader`.
    SetTimeout(NodeRole),
    /// Append the value to the journal as one line, before sending anything
    /// that depends on it.
    AppendStorageEntry(Json),
    /// Send the value to every known peer.
    BroadcastMessage(Json),
    /// Send the value to one peer.
    SendMessage(u64, Json),
    /// Create a snapshot at the current applied index and send it to the
    /// peer.
    SendSnapshot(u64),
    /// An observability event.
    NotifyEvent(Event),
    /// Apply a committed command to the user state machine.
    Apply(ApplyAction),
}

/// The mathematical form of an action.
#[verifier::ext_equal]
pub enum ActionV {
    SetTimeout(NodeRole),
    AppendStorageEntry(JsonV),
    BroadcastMessage(JsonV),
    SendMessage(u64, JsonV),
    SendSnapshot(u64),
    NotifyEvent(Event),
    Apply(ApplyActionV),
}

impl View for Action {
    type V = ActionV;

    open spec fn view(&self) -> ActionV {
        match self {
            Action::SetTimeout(role) => ActionV::SetTimeout(*role),
            Action::AppendStorageEntry(j) => ActionV::AppendStorageEntry(j@),
            Action::BroadcastMessage(j) => ActionV::BroadcastMessage(j@),
            Action::SendMessage(dst, j) => ActionV::SendMessage(*dst, j@),
            Action::SendSnapshot(dst) => ActionV::SendSnapshot(*dst),
            Action::NotifyEvent(e) => ActionV::NotifyEvent(*e),
            Action::Apply(a) => ActionV::Apply(a@),
        }
    }
}

/// The mathematical form of an action queue.
pub open spec fn view_queue(s: Seq<Action>) -> Seq<ActionV> {
    Seq::new(s.len(), |i: int| s[i]@)
}

/// The queue `grown` extends the queue `base`: it begins with `base` and
/// only appends after it.
pub open spec fn queue_extends(grown: Seq<Action>, base: Seq<Action>) -> bool {
    &&& grown.len() >= base.len()
    &&& forall|i: int| 0 <= i < base.len() ==> grown[i] == base[i]
}

/// Some slot of the queue holds the action.
pub open spec fn queue_holds(q: Seq<ActionV>, a: ActionV) -> bool {
    exists|i: int| 0 <= i < q.len() && q[i] == a
}

/// The apply action a committed `Apply` envelope at `idx` gives rise to,
/// on the node with this identity and incarnation.
pub open spec fn spec_apply_action(
    node_id: u64,
    generation: u64,
    idx: u64,
    pid: ProposalId,
    request: JsonV,
) -> ActionV {
    ActionV::Apply(
        ApplyActionV {
            is_proposer: pid.node_id == node_id && pid.generation == generation,
            index: idx,
            proposal_id: Some(pid),
            request: request,
        },
    )
}

/// The action was either handed out by this call or still waits in the
/// queue.
pub open spec fn action_delivered(r: Option<Action>, q: Seq<Action>, a: ActionV) -> bool {
    ||| (r matches Some(x) && x@ == a)
    ||| queue_holds(view_queue(q), a)
}

/// A queue extension keeps every action already held.
pub proof fn lemma_queue_holds_extends(base: Seq<Action>, grown: Seq<Action>, a: ActionV)
    requires
        queue_extends(grown, base),
        queue_holds(view_queue(base), a),
    ensures
        queue_holds(view_queue(grown), a),
{
    let w = choose|w: int| 0 <= w < view_queue(base).len() && view_queue(base)[w] == a;
    assert(view_queue(grown)[w] == a);
}

/// From position `from` on, persistence comes first: no journal append
/// stands after a broadcast, a send or an apply.
pub open spec fn stores_precede_emits(q: Seq<Action>, from: int) -> bool {
    forall|i: int, j: int|
        from <= i < j < q.len() && (((#[trigger] q[i])@ is BroadcastMessage) || (q[i]@
            is SendMessage) || (q[i]@ is Apply)) ==> !(((#[trigger] q[j])@)
            is AppendStorageEntry)
}

/// Some position at or past `from` holds an outbound message.
pub open spec fn segment_has_emit(q: Seq<Action>, from: int) -> bool {
    exists|i: int|
        from <= i < q.len() && (((#[trigger] q[i])@ is BroadcastMessage) || (q[i]@
            is SendMessage))
}

/// Everything one call delivers, in order: the action handed out, then
/// the queue it leaves behind.
pub open spec fn full_stream(r: Option<Action>, q: Seq<Action>) -> Seq<Action> {
    match r {
        Some(x) => seq![x] + q,
        None => q,
    }
}

/// A linearisable read waiting for its log position to commit.
#[derive(Debug, PartialEq, Eq)]
pub struct PendingQuery {
    pub position: LogPosition,
    pub proposal_id: ProposalId,
    pub request: Json,
}

/// Strict order on pending queries: by position, then by proposal.
pub open spec fn pq_key_lt(a: PendingQuery, b: PendingQuery) -> bool {
    ||| a.position.term < b.position.term
    ||| (a.position.term == b.position.term && a.position.index < b.position.index)
    ||| (a.position == b.position && pid_lt(a.proposal_id, b.proposal_id))
}

/// Strict lexicographic order on proposal identifiers.
pub open spec fn pid_lt(a: ProposalId, b: ProposalId) -> bool {
    ||| a.node_id < b.node_id
    ||| (a.node_id == b.node_id && a.generation < b.generation)
    ||| (a.node_id == b.node_id && a.generation == b.generation && a.local_seqno < b.local_seqno)
}

/// The payloads of retained command entries, keyed by log index, in
/// ascending key order.
pub type RecentCommands = Vec<(u64, Json)>;

/// Keys strictly ascending.
pub open spec fn table_sorted(s: Seq<(u64, Json)>) -> bool {
    forall|i: int, j: int| 0 <= i < j < s.len() ==> s[i].0 < s[j].0
}

/// Some entry holds the key.
pub open spec fn table_contains(s: Seq<(u64, Json)>, key: u64) -> bool {
    exists|i: int| 0 <= i < s.len() && s[i].0 == key
}

/// Looks a payload up by log index.
pub fn table_get<'a>(t: &'a RecentCommands, key: u64) -> (r: Option<&'a Json>)
    requires
        table_sorted(t@),
    ensures
        match r {
            Some(v) => exists|i: int|
                0 <= i < t@.len() && t@[i].0 == key && t@[i].1 == *v,
            None => !table_contains(t@, key),
        },
{
    let mut i: usize = 0;
    while i < t.len()
        invariant
            0 <= i <= t@.len(),
            forall|k: int| 0 <= k < i ==> t@[k].0 != key,
        decreases t@.len() - i,
    {
        if t[i].0 == key {
            return Some(&t[i].1);
        }
        i += 1;
    }
    None
}

/// Every entry under a key other than `key` survives from `pre` to `post`
/// unchanged, and `post` holds no other entry under such a key.
pub open spec fn table_upsert_others(
    pre: Seq<(u64, Json)>,
    post: Seq<(u64, Json)>,
    key: u64,
) -> bool {
    &&& forall|j: int|
        0 <= j < pre.len() && (#[trigger] pre[j]).0 != key ==> exists|i: int|
            0 <= i < post.len() && post[i] == pre[j]
    &&& forall|i: int|
        0 <= i < post.len() && (#[trigger] post[i]).0 != key ==> exists|j: int|
            0 <= j < pre.len() && pre[j] == post[i]
}

/// Stores a payload under a log index, replacing any payload already
/// there, keeping the keys ascending and every other entry unchanged.
#[verifier::spinoff_prover]
#[verifier::rlimit(100)]
pub fn table_insert(t: &mut RecentCommands, key: u64, value: Json)
    requires
        table_sorted(old(t)@),
    ensures
        table_sorted(final(t)@),
        table_contains(final(t)@, key),
        forall|i: int|
            0 <= i < final(t)@.len() && (#[trigger] final(t)@[i]).0 == key ==> final(t)@[i].1
                == value,
        table_upsert_others(old(t)@, final(t)@, key),
{
    let mut i: usize = 0;
    while i < t.len()
        invariant
            t@ == old(t)@,
            0 <= i <= t@.len(),
            forall|k: int| 0 <= k < i ==> t@[k].0 < key,
        decreases t@.len() - i,
    {
        if t[i].0 == key {
            let ghost prev = t@;
            t.set(i, (key, value));
            assert(t@[i as int].0 == key);
            assert(table_contains(t@, key));
            assert forall|j: int|
                0 <= j < prev.len() && (#[trigger] prev[j]).0 != key implies exists|i2: int|
                0 <= i2 < t@.len() && t@[i2] == prev[j] by {
                assert(t@[j] == prev[j]);
            }
            assert forall|i2: int|
                0 <= i2 < t@.len() && (#[trigger] t@[i2]).0 != key implies exists|j: int|
                0 <= j < prev.len() && prev[j] == t@[i2] by {
                assert(t@[i2] == prev[i2]);
            }
            return;
        }
        if t[i].0 > key {
            let ghost prev = t@;
            t.insert(i, (key, value));
            proof {
                prev.insert_ensures(i as int, (key, value));
            }
            assert(t@[i as int].0 == key && table_contains(t@, key));
            assert forall|a: int, b: int| 0 <= a < b < t@.len() implies t@[a].0 < t@[b].0 by {
                if a < i {
                    assert(t@[a] == prev[a]);
                } else if a > i {
                    assert(t@[a] == prev[a - 1]);
                }
                if b < i {
                    assert(t@[b] == prev[b]);
                } else if b > i {
                    assert(t@[b] == prev[b - 1]);
                }
            }
            assert forall|j: int|
                0 <= j < prev.len() && (#[trigger] prev[j]).0 != key implies exists|i2: int|
                0 <= i2 < t@.len() && t@[i2] == prev[j] by {
                if j < i {
                    assert(t@[j] == prev[j]);
                } else {
                    assert(t@[j + 1] == prev[j]);
                }
            }
            assert forall|i2: int|
                0 <= i2 < t@.len() && (#[trigger] t@[i2]).0 != key implies exists|j: int|
                0 <= j < prev.len() && prev[j] == t@[i2] by {
                if i2 < i {
                    assert(t@[i2] == prev[i2]);
                } else if i2 > i {
                    assert(t@[i2] == prev[i2 - 1]);
                }
            }
            return;
        }
        i += 1;
    }
    let ghost prev = t@;
    t.push((key, value));
    assert(t@[t@.len() - 1].0 == key);
    assert(table_contains(t@, key));
    assert forall|j: int|
        0 <= j < prev.len() && (#[trigger] prev[j]).0 != key implies exists|i2: int|
        0 <= i2 < t@.len() && t@[i2] == prev[j] by {
        assert(t@[j] == prev[j]);
    }
    assert forall|i2: int|
        0 <= i2 < t@.len() && (#[trigger] t@[i2]).0 != key implies exists|j: int|
        0 <= j < prev.len() && prev[j] == t@[i2] by {
        assert(t@[i2] == prev[i2]);
    }
}

/// `post` holds exactly the entries of `pre` whose key is above `bound`,
/// each unchanged.
pub open spec fn table_retains_above(
    pre: Seq<(u64, Json)>,
    post: Seq<(u64, Json)>,
    bound: u64,
) -> bool {
    &&& forall|i: int| 0 <= i < post.len() ==> (#[trigger] post[i]).0 > bound
    &&& forall|i: int|
        0 <= i < post.len() ==> exists|j: int| 0 <= j < pre.len() && pre[j] == #[trigger] post[i]
    &&& forall|j: int|
        0 <= j < pre.len() && (#[trigger] pre[j]).0 > bound ==> exists|i: int|
            0 <= i < post.len() && post[i] == pre[j]
}

/// Drops every entry whose key is at or below `bound`.
pub fn table_trim_through(t: &mut RecentCommands, bound: u64)
    requires
        table_sorted(old(t)@),
    ensures
        table_sorted(final(t)@),
        table_retains_above(old(t)@, final(t)@, bound),
{
    let ghost cut: int = 0;
    while t.len() > 0 && t[0].0 <= bound
        invariant
            0 <= cut <= old(t)@.len(),
            t@ == old(t)@.skip(cut),
            forall|k: int| 0 <= k < cut ==> old(t)@[k].0 <= bound,
        decreases t@.len(),
    {
        t.remove(0);
        proof {
            assert(old(t)@.skip(cut).remove(0) =~= old(t)@.skip(cut + 1));
            cut = cut + 1;
        }
    }
    assert forall|i: int| 0 <= i < t@.len() implies t@[i].0 > bound by {
        if t@.len() > 0 {
            assert(t@[0] == old(t)@[cut]);
            assert(old(t)@[cut + i] == t@[i]);
        }
    }
    assert forall|j: int|
        0 <= j < old(t)@.len() && old(t)@[j].0 > bound implies exists|i: int|
        0 <= i < t@.len() && t@[i] == old(t)@[j] by {
        assert(j >= cut);
        assert(t@[j - cut] == old(t)@[j]);
    }
}

/// Looks a payload up by key, first match.
pub open spec fn spec_table_lookup(s: Seq<(u64, Json)>, key: u64) -> Option<JsonV>
    decreases s.len(),
{
    if s.len() == 0 {
        None
    } else if s[0].0 == key {
        Some(s[0].1@)
    } else {
        spec_table_lookup(s.skip(1), key)
    }
}

/// In a table with ascending keys, an entry holding the key decides the
/// lookup.
pub proof fn lemma_table_lookup_witness(s: Seq<(u64, Json)>, key: u64, i: int)
    requires
        table_sorted(s),
        0 <= i < s.len(),
        s[i].0 == key,
    ensures
        spec_table_lookup(s, key) == Some(s[i].1@),
    decreases i,
{
    if i > 0 {
        assert(s[0].0 < s[i].0);
        lemma_table_lookup_witness(s.skip(1), key, i - 1);
    }
}

/// In a table with ascending keys, a key held by no entry fails the
/// lookup.
pub proof fn lemma_table_lookup_missing(s: Seq<(u64, Json)>, key: u64)
    requires
        !table_contains(s, key),
    ensures
        spec_table_lookup(s, key) is None,
    decreases s.len(),
{
    if s.len() > 0 {
        assert(s[0].0 != key);
        assert forall|j: int| 0 <= j < s.skip(1).len() implies s.skip(1)[j].0 != key by {
            assert(s.skip(1)[j] == s[j + 1]);
        }
        lemma_table_lookup_missing(s.skip(1), key);
    }
}

/// Storing under one key leaves the lookup of every other key unchanged.
pub proof fn lemma_lookup_other_keys(
    pre: Seq<(u64, Json)>,
    post: Seq<(u64, Json)>,
    key: u64,
    other: u64,
)
    requires
        table_sorted(pre),
        table_sorted(post),
        table_upsert_others(pre, post, key),
        other != key,
    ensures
        spec_table_lookup(post, other) == spec_table_lookup(pre, other),
{
    if table_contains(pre, other) {
        let j = choose|j: int| 0 <= j < pre.len() && pre[j].0 == other;
        assert(pre[j].0 != key);
        let i = choose|i: int| 0 <= i < post.len() && post[i] == pre[j];
        lemma_table_lookup_witness(pre, other, j);
        lemma_table_lookup_witness(post, other, i);
    } else {
        lemma_table_lookup_missing(pre, other);
        assert(!table_contains(post, other)) by {
            if table_contains(post, other) {
                let i = choose|i: int| 0 <= i < post.len() && post[i].0 == other;
                assert(post[i].0 != key);
                let j = choose|j: int| 0 <= j < pre.len() && pre[j] == post[i];
                assert(pre[j].0 == other);
            }
        }
        lemma_table_lookup_missing(post, other);
    }
}

/// Inserts a value into an ascending set, keeping it ascending; a value
/// already present is left alone.
pub fn set_insert(v: &mut Vec<u64>, x: u64)
    requires
        strict_sorted(old(v)@),
    ensures
        strict_sorted(final(v)@),
        final(v)@.contains(x),
        forall|y: u64| final(v)@.contains(y) <==> (old(v)@.contains(y) || y == x),
{
    let mut i: usize = 0;
    while i < v.len()
        invariant
            v@ == old(v)@,
            0 <= i <= v@.len(),
            forall|k: int| 0 <= k < i ==> v@[k] < x,
        decreases v@.len() - i,
    {
        if v[i] == x {
            assert(v@.contains(x));
            return;
        }
        if v[i] > x {
            let ghost prev = v@;
            v.insert(i, x);
            proof {
                prev.insert_ensures(i as int, x);
            }
            assert(v@[i as int] == x && v@.contains(x));
            assert forall|a: int, b: int| 0 <= a < b < v@.len() implies v@[a] < v@[b] by {
                if a < i {
                    assert(v@[a] == prev[a]);
                } else if a > i {
                    assert(v@[a] == prev[a - 1]);
                }
                if b < i {
                    assert(v@[b] == prev[b]);
                } else if b > i {
                    assert(v@[b] == prev[b - 1]);
                }
            }
            assert forall|y: u64| v@.contains(y) implies (prev.contains(y) || y == x) by {
                let ghost w = choose|w: int| 0 <= w < v@.len() && v@[w] == y;
                if w < i {
                    assert(prev[w] == y);
                } else if w > i {
                    assert(prev[w - 1] == y);
                }
            }
            assert forall|y: u64| prev.contains(y) implies v@.contains(y) by {
                let ghost w = choose|w: int| 0 <= w < prev.len() && prev[w] == y;
                if w < i {
                    assert(v@[w] == y);
                } else {
                    assert(v@[w + 1] == y);
                }
            }
            return;
        }
        i += 1;
    }
    let ghost prev = v@;
    v.push(x);
    assert(v@[v@.len() - 1] == x && v@.contains(x));
    assert forall|y: u64| v@.contains(y) implies (prev.contains(y) || y == x) by {
        let ghost w = choose|w: int| 0 <= w < v@.len() && v@[w] == y;
        if w < prev.len() {
            assert(prev[w] == y);
        }
    }
    assert forall|y: u64| prev.contains(y) implies v@.contains(y) by {
        let ghost w = choose|w: int| 0 <= w < prev.len() && prev[w] == y;
        assert(v@[w] == y);
    }
}

/// True iff the ascending set holds the value.
pub fn set_contains(v: &Vec<u64>, x: u64) -> (r: bool)
    ensures
        r == v@.contains(x),
{
    let mut i: usize = 0;
    while i < v.len()
        invariant
            0 <= i <= v@.len(),
            forall|k: int| 0 <= k < i ==> v@[k] != x,
        decreases v@.len() - i,
    {
        if v[i] == x {
            assert(v@.contains(x));
            return true;
        }
        i += 1;
    }
    assert(!v@.contains(x));
    false
}


/// The strict order on pending queries is transitive.
pub proof fn lemma_pq_lt_trans(x: PendingQuery, y: PendingQuery, z: PendingQuery)
    requires
        pq_key_lt(x, y),
        pq_key_lt(y, z),
    ensures
        pq_key_lt(x, z),
{
}

/// The consensus node.
pub struct Node {
    /// The Raft primitive this node drives.
    pub inner: RaftInner,
    /// The members this node has learnt of, ascending.
    pub machine_nodes: Vec<u64>,
    /// True when the learnt members differ from the Raft configuration and
    /// a configuration change should be proposed.
    pub dirty_members: bool,
    /// Actions waiting for the host, oldest first.
    pub action_queue: std::collections::VecDeque<Action>,
    /// The payloads of retained command entries, keyed by log index.
    pub recent_commands: RecentCommands,
    /// Becomes true exactly once: by `init_cluster`, by `load` of a journal
    /// with a configuration, or by the first valid Raft message.
    pub initialized: bool,
    /// The incarnation counter, bumped at every `load`.
    pub generation: u64,
    /// The sequence number the next proposal of this incarnation gets.
    pub local_command_seqno: u64,
    /// Every index at or below this one has had its `Apply` emitted.
    pub applied_index: u64,
    /// Linearisable reads waiting for their position to commit, ascending
    /// by position.
    pub pending_queries: Vec<PendingQuery>,
}

impl Node {
    /// The identifier of this node.
    pub open spec fn id_spec(&self) -> u64 {
        raft_node_id(self.inner)
    }

    /// The node's tables are consistently ordered, and every index whose
    /// `Apply` has been emitted is committed: the applied index never
    /// passes the primitive's commit index.
    pub open spec fn wf(&self) -> bool {
        &&& table_sorted(self.recent_commands@)
        &&& strict_sorted(self.machine_nodes@)
        &&& forall|i: int, j: int|
            0 <= i < j < self.pending_queries@.len() ==> pq_key_lt(
                self.pending_queries@[i],
                self.pending_queries@[j],
            )
        &&& self.applied_index <= crate::raft::raft_commit_of(self.inner)
    }

    /// The fields that every operation leaves alone unless its contract
    /// says otherwise.
    pub open spec fn same_identity(&self, other: &Node) -> bool {
        &&& self.id_spec() == other.id_spec()
        &&& self.generation == other.generation
    }

    /// Starts an uninitialised node at generation 0; the first journal
    /// write, recording that generation, is already queued.
    pub fn start(id: u64) -> (r: Node)
        ensures
            r.wf(),
            r.id_spec() == id,
            r.generation == 0,
            r.local_command_seqno == 0,
            r.applied_index == 0,
            !r.initialized,
            !r.dirty_members,
            r.recent_commands@.len() == 0,
            r.machine_nodes@.len() == 0,
            r.pending_queries@.len() == 0,
            view_queue(r.action_queue@) =~= seq![
                ActionV::AppendStorageEntry(
                    spec_storage_entry_to_json(StorageEntry::NodeGeneration(0)),
                ),
            ],
    {
        let mut action_queue: std::collections::VecDeque<Action> =
            std::collections::VecDeque::new();
        let entry = StorageEntry::NodeGeneration(0);
        action_queue.push_back(Action::AppendStorageEntry(entry.to_json()));
        Node {
            inner: raft_start(id),
            machine_nodes: Vec::new(),
            dirty_members: false,
            action_queue,
            recent_commands: Vec::new(),
            initialized: false,
            generation: 0,
            local_command_seqno: 0,
            applied_index: 0,
            pending_queries: Vec::new(),
        }
    }

    /// The identifier of this node.
    pub fn id(&self) -> (r: u64)
        ensures
            r == self.id_spec(),
    {
        raft_id(&self.inner)
    }

    /// The role the node currently plays.
    pub fn role(&self) -> (r: NodeRole)
        ensures
            (r == NodeRole::Leader) == crate::raft::raft_is_leader(self.inner),
    {
        raft_role(&self.inner)
    }

    /// The current term of the node.
    pub fn current_term(&self) -> (r: u64)
        ensures
            r == crate::raft::raft_term_of(self.inner),
    {
        raft_current_term(&self.inner)
    }

    /// The vote of the current term, if any.
    pub fn voted_for(&self) -> (r: Option<u64>)
        ensures
            r == crate::raft::raft_vote_of(self.inner),
    {
        raft_voted_for(&self.inner)
    }

    /// The commit index of the primitive.
    pub fn commit_index(&self) -> (r: u64)
        ensures
            r == crate::raft::raft_commit_of(self.inner),
    {
        raft_commit_index(&self.inner)
    }

    /// The incarnation counter.
    pub fn generation(&self) -> (r: u64)
        ensures
            r == self.generation,
    {
        self.generation
    }

    /// The highest index whose `Apply` has been emitted.
    pub fn applied_index(&self) -> (r: u64)
        ensures
            r == self.applied_index,
    {
        self.applied_index
    }

    /// The retained command payloads, keyed by log index.
    pub fn recent_commands(&self) -> (r: &RecentCommands)
        ensures
            r == &self.recent_commands,
    {
        &self.recent_commands
    }

    /// The members this node has learnt of.
    pub fn nodes(&self) -> (r: &Vec<u64>)
        ensures
            r == &self.machine_nodes,
    {
        &self.machine_nodes
    }

    /// The node belongs to the configuration the primitive acts under
    /// now: it is a voter, a new voter or a non-voter of it.
    pub open spec fn is_member(&self, y: u64) -> bool {
        ||| crate::raft::raft_latest_rep(self.inner).0.contains(y)
        ||| crate::raft::raft_latest_rep(self.inner).1.contains(y)
        ||| crate::raft::raft_latest_rep(self.inner).2.contains(y)
    }

    /// Every member of the current Raft configuration, ascending.
    pub fn members(&self) -> (r: Vec<u64>)
        ensures
            strict_sorted(r@),
            forall|y: u64| r@.contains(y) <==> self.is_member(y),
    {
        let config = crate::raft::raft_config_clone(&self.inner);
        crate::raft::config_unique_nodes(&config)
    }

    /// Every member of the current Raft configuration but this node,
    /// ascending: the fan-out of a broadcast.
    pub fn peers(&self) -> (r: Vec<u64>)
        ensures
            strict_sorted(r@),
            forall|y: u64| r@.contains(y) <==> (self.is_member(y) && y != self.id_spec()),
    {
        let all = self.members();
        let my_id = self.id();
        let mut out: Vec<u64> = Vec::new();
        let mut i: usize = 0;
        while i < all.len()
            invariant
                0 <= i <= all@.len(),
                strict_sorted(all@),
                my_id == self.id_spec(),
                forall|y: u64| all@.contains(y) <==> self.is_member(y),
                strict_sorted(out@),
                forall|y: u64| out@.contains(y) <==> (all@.take(i as int).contains(y) && y
                    != my_id),
                forall|k: int|
                    0 <= k < out@.len() ==> exists|j: int|
                        0 <= j < i && all@[j] == #[trigger] out@[k],
            decreases all@.len() - i,
        {
            let ghost prev = out@;
            if all[i] != my_id {
                out.push(all[i]);
                proof {
                    assert forall|a: int, b: int| 0 <= a < b < out@.len() implies out@[a]
                        < out@[b] by {
                        if b < out@.len() - 1 {
                            assert(out@[a] == prev[a] && out@[b] == prev[b]);
                        } else {
                            assert(out@[a] == prev[a] && out@[b] == all@[i as int]);
                            let j = choose|j: int| 0 <= j < i && all@[j] == prev[a];
                            assert(all@[j] < all@[i as int]);
                        }
                    }
                }
            }
            proof {
                assert forall|y: u64|
                    out@.contains(y) implies (all@.take(i + 1).contains(y) && y != my_id) by {
                    let w = choose|w: int| 0 <= w < out@.len() && out@[w] == y;
                    if w < prev.len() {
                        assert(prev[w] == y && prev.contains(y));
                        let v = choose|v: int|
                            0 <= v < all@.take(i as int).len() && all@.take(i as int)[v] == y;
                        assert(all@.take(i + 1)[v] == y);
                    } else {
                        assert(y == all@[i as int]);
                        assert(all@.take(i + 1)[i as int] == y);
                    }
                }
                assert forall|y: u64|
                    all@.take(i + 1).contains(y) && y != my_id implies out@.contains(y) by {
                    let v = choose|v: int|
                        0 <= v < all@.take(i + 1).len() && #[trigger] all@.take(i + 1)[v] == y;
                    if v < i {
                        assert(all@.take(i as int)[v] == y);
                        assert(prev.contains(y));
                        let w = choose|w: int| 0 <= w < prev.len() && prev[w] == y;
                        assert(out@[w] == y);
                    } else {
                        assert(y == all@[i as int]);
                        assert(out@[out@.len() - 1] == y);
                    }
                }
            }
            i += 1;
        }
        proof {
            assert(all@.take(all@.len() as int) =~= all@);
        }
        out
    }

    /// Initialises the cluster with the given members; refused when the
    /// node is already initialised or is not itself a member.  On success
    /// the node also proposes its own membership, so that peers learn it.
    pub fn init_cluster(&mut self, members: &Vec<u64>) -> (r: bool)
        requires
            old(self).wf(),
            old(self).local_command_seqno < u64::MAX,
        ensures
            final(self).wf(),
            r == (!old(self).initialized && members@.contains(old(self).id_spec())),
            final(self).initialized == (old(self).initialized || r),
            final(self).same_identity(old(self)),
            final(self).applied_index == old(self).applied_index,
            !r ==> *final(self) == *old(self),
    {
        if self.initialized {
            return false;
        }
        let my_id = self.id();
        let mut found = false;
        let mut i: usize = 0;
        while i < members.len()
            invariant
                0 <= i <= members@.len(),
                found == exists|k: int| 0 <= k < i && members@[k] == my_id,
                my_id == self.id_spec(),
            decreases members@.len() - i,
        {
            if members[i] == my_id {
                found = true;
                assert(members@[i as int] == my_id);
            }
            i += 1;
        }
        if !found {
            assert(!members@.contains(my_id));
            return false;
        }
        assert(members@.contains(my_id));
        raft_create_cluster(&mut self.inner, members);
        self.initialized = true;
        let pid = self.next_proposal_id();
        let command = Command::AddNode { proposal_id: pid, id: my_id };
        self.propose(command);
        true
    }

    /// The identifier the next proposal of this incarnation gets.
    fn next_proposal_id(&mut self) -> (r: ProposalId)
        requires
            old(self).wf(),
            old(self).local_command_seqno < u64::MAX,
        ensures
            final(self).wf(),
            r == (ProposalId {
                node_id: old(self).id_spec(),
                generation: old(self).generation,
                local_seqno: old(self).local_command_seqno,
            }),
            final(self).local_command_seqno == old(self).local_command_seqno + 1,
            *final(self) == (Node { local_command_seqno: final(self).local_command_seqno, ..*old(self) }),
    {
        let pid = ProposalId {
            node_id: self.id(),
            generation: self.generation,
            local_seqno: self.local_command_seqno,
        };
        self.local_command_seqno = self.local_command_seqno + 1;
        pid
    }

    /// The node a proposal made here would be forwarded to: the node
    /// voted for in the current term, when that is another node.
    pub open spec fn forward_target(&self) -> Option<u64> {
        match crate::raft::raft_vote_of(self.inner) {
            Some(leader) => if leader != self.id_spec() {
                Some(leader)
            } else {
                None
            },
            None => None,
        }
    }

    /// The leader this node would forward to: the node it voted for, when
    /// that is another node.
    fn leader_id(&self) -> (r: Option<u64>)
        ensures
            r == self.forward_target(),
    {
        let voted = raft_voted_for(&self.inner);
        match voted {
            Some(leader) => {
                if leader != self.id() {
                    Some(leader)
                } else {
                    None
                }
            },
            None => None,
        }
    }

    /// Queues an action for the host.
    fn push_action(&mut self, action: Action)
        requires
            old(self).wf(),
        ensures
            final(self).wf(),
            final(self).action_queue@ == old(self).action_queue@.push(action),
            *final(self) == (Node { action_queue: final(self).action_queue, ..*old(self) }),
    {
        self.action_queue.push_back(action);
    }

    /// Routes a command envelope: a leader appends it to the log and keeps
    /// the payload; a follower that knows a leader forwards it verbatim;
    /// otherwise the proposal is dropped and the client will time out.
    fn propose_command_value(&mut self, command: Json)
        requires
            old(self).wf(),
        ensures
            final(self).wf(),
            final(self).same_identity(old(self)),
            final(self).local_command_seqno == old(self).local_command_seqno,
            final(self).applied_index == old(self).applied_index,
            final(self).initialized == old(self).initialized,
            !old(self).initialized ==> *final(self) == *old(self),
            old(self).initialized && crate::raft::raft_is_leader(old(self).inner) ==> {
                &&& final(self).action_queue@ == old(self).action_queue@
                &&& final(self).pending_queries == old(self).pending_queries
                &&& exists|idx: u64|
                    spec_table_lookup(final(self).recent_commands@, idx) == Some(command@)
            },
            old(self).initialized && !crate::raft::raft_is_leader(old(self).inner) ==> {
                &&& final(self).recent_commands == old(self).recent_commands
                &&& final(self).pending_queries == old(self).pending_queries
                &&& match old(self).forward_target() {
                    Some(leader) => view_queue(final(self).action_queue@) == view_queue(
                        old(self).action_queue@,
                    ).push(ActionV::SendMessage(leader, command@)),
                    None => *final(self) == *old(self),
                }
            },
    {
        if !self.initialized {
            return;
        }
        let is_leader = match self.role() {
            NodeRole::Leader => true,
            _ => false,
        };
        if !is_leader {
            match self.leader_id() {
                Some(leader) => {
                    let ghost cmdv = command@;
                    self.push_action(Action::SendMessage(leader, command));
                    proof {
                        assert(view_queue(self.action_queue@) =~= view_queue(
                            old(self).action_queue@,
                        ).push(ActionV::SendMessage(leader, cmdv)));
                    }
                },
                None => {},
            }
            return;
        }
        let ghost cmdv = command@;
        let (_, index) = raft_propose_command(&mut self.inner);
        table_insert(&mut self.recent_commands, index, command);
        proof {
            let i = choose|i: int|
                0 <= i < self.recent_commands@.len() && self.recent_commands@[i].0 == index;
            lemma_table_lookup_witness(self.recent_commands@, index, i);
            assert(spec_table_lookup(self.recent_commands@, index) == Some(cmdv));
        }
    }

    /// Serialises a command envelope and routes it.
    fn propose(&mut self, command: Command)
        requires
            old(self).wf(),
        ensures
            final(self).wf(),
            final(self).same_identity(old(self)),
            final(self).local_command_seqno == old(self).local_command_seqno,
            final(self).applied_index == old(self).applied_index,
            final(self).initialized == old(self).initialized,
            !old(self).initialized ==> *final(self) == *old(self),
            old(self).initialized && crate::raft::raft_is_leader(old(self).inner) ==> {
                &&& final(self).action_queue@ == old(self).action_queue@
                &&& final(self).pending_queries == old(self).pending_queries
                &&& exists|idx: u64|
                    spec_table_lookup(final(self).recent_commands@, idx) == Some(
                        spec_command_to_json(command@),
                    )
            },
            old(self).initialized && !crate::raft::raft_is_leader(old(self).inner) ==> {
                &&& final(self).recent_commands == old(self).recent_commands
                &&& final(self).pending_queries == old(self).pending_queries
                &&& match old(self).forward_target() {
                    Some(leader) => view_queue(final(self).action_queue@) == view_queue(
                        old(self).action_queue@,
                    ).push(ActionV::SendMessage(leader, spec_command_to_json(command@))),
                    None => *final(self) == *old(self),
                }
            },
    {
        let value = command.to_json();
        self.propose_command_value(value);
    }

    /// Allocates an identifier for a user write and routes it wrapped in an
    /// `Apply` envelope: a leader appends the envelope to the log and keeps
    /// its payload; a follower that knows a leader forwards the envelope to
    /// it; with no leader known the write is dropped and the client will
    /// time out.
    pub fn propose_command(&mut self, request: Json) -> (r: ProposalId)
        requires
            old(self).wf(),
            old(self).local_command_seqno < u64::MAX,
        ensures
            final(self).wf(),
            r == (ProposalId {
                node_id: old(self).id_spec(),
                generation: old(self).generation,
                local_seqno: old(self).local_command_seqno,
            }),
            final(self).local_command_seqno == old(self).local_command_seqno + 1,
            final(self).same_identity(old(self)),
            final(self).applied_index == old(self).applied_index,
            final(self).initialized == old(self).initialized,
            !old(self).initialized ==> *final(self) == (Node {
                local_command_seqno: final(self).local_command_seqno,
                ..*old(self)
            }),
            old(self).initialized && crate::raft::raft_is_leader(old(self).inner) ==> {
                &&& final(self).action_queue@ == old(self).action_queue@
                &&& exists|idx: u64|
                    spec_table_lookup(final(self).recent_commands@, idx) == Some(
                        spec_command_to_json(
                            CommandV::Apply { proposal_id: r, command: request@ },
                        ),
                    )
            },
            old(self).initialized && !crate::raft::raft_is_leader(old(self).inner) ==> {
                &&& final(self).recent_commands == old(self).recent_commands
                &&& match old(self).forward_target() {
                    Some(leader) => view_queue(final(self).action_queue@) == view_queue(
                        old(self).action_queue@,
                    ).push(
                        ActionV::SendMessage(
                            leader,
                            spec_command_to_json(
                                CommandV::Apply { proposal_id: r, command: request@ },
                            ),
                        ),
                    ),
                    None => *final(self) == (Node {
                        local_command_seqno: final(self).local_command_seqno,
                        ..*old(self)
                    }),
                }
            },
    {
        let pid = self.next_proposal_id();
        let command = Command::Apply { proposal_id: pid, command: request };
        self.propose(command);
        pid
    }

    /// Allocates an identifier for a membership change and routes it.
    pub fn propose_add_node(&mut self, id: u64) -> (r: ProposalId)
        requires
            old(self).wf(),
            old(self).local_command_seqno < u64::MAX,
        ensures
            final(self).wf(),
            r == (ProposalId {
                node_id: old(self).id_spec(),
                generation: old(self).generation,
                local_seqno: old(self).local_command_seqno,
            }),
            final(self).local_command_seqno == old(self).local_command_seqno + 1,
            final(self).same_identity(old(self)),
            final(self).applied_index == old(self).applied_index,
            final(self).initialized == old(self).initialized,
    {
        let pid = self.next_proposal_id();
        let command = Command::AddNode { proposal_id: pid, id };
        self.propose(command);
        pid
    }

    /// Delegates an expired timeout to the primitive.
    pub fn handle_timeout(&mut self)
        requires
            old(self).wf(),
        ensures
            final(self).wf(),
            final(self).same_identity(old(self)),
            final(self).local_command_seqno == old(self).local_command_seqno,
            final(self).applied_index == old(self).applied_index,
            final(self).initialized == old(self).initialized,
    {
        raft_handle_election_timeout(&mut self.inner);
    }

}

/// No two proposals of one incarnation of one node share an identifier:
/// the identifier carries the incarnation and a sequence number that every
/// allocation advances.
pub proof fn lemma_proposal_ids_distinct(a: ProposalId, b: ProposalId)
    requires
        a.node_id == b.node_id,
        a.generation == b.generation,
        a.local_seqno != b.local_seqno,
    ensures
        a != b,
{
}


impl Node {
    /// Inserts a pending query, keeping the list ascending; a duplicate
    /// position-and-proposal key is replaced.
    fn pq_insert(&mut self, q: PendingQuery)
        requires
            old(self).wf(),
        ensures
            final(self).wf(),
            final(self).same_identity(old(self)),
            final(self).local_command_seqno == old(self).local_command_seqno,
            final(self).applied_index == old(self).applied_index,
            final(self).initialized == old(self).initialized,
            exists|k: int|
                0 <= k < final(self).pending_queries@.len() && final(self).pending_queries@[k]
                    == q,
            final(self).action_queue == old(self).action_queue,
            final(self).recent_commands == old(self).recent_commands,
    {
        let mut i: usize = 0;
        while i < self.pending_queries.len()
            invariant
                self == old(self),
                self.wf(),
                0 <= i <= self.pending_queries@.len(),
                forall|k: int|
                    0 <= k < i ==> pq_key_lt(self.pending_queries@[k], q),
            decreases self.pending_queries@.len() - i,
        {
            let cur = &self.pending_queries[i];
            if cur.position.term == q.position.term && cur.position.index == q.position.index
                && cur.proposal_id == q.proposal_id {
                let ghost prev = self.pending_queries@;
                assert(q.position == prev[i as int].position && q.proposal_id == prev[
                    i as int
                ].proposal_id);
                self.pending_queries.set(i, q);
                assert forall|a: int, b: int|
                    0 <= a < b < self.pending_queries@.len() implies pq_key_lt(
                    self.pending_queries@[a],
                    self.pending_queries@[b],
                ) by {
                    assert(pq_key_lt(prev[a], prev[b]));
                    if a != i {
                        assert(self.pending_queries@[a] == prev[a]);
                    }
                    if b != i {
                        assert(self.pending_queries@[b] == prev[b]);
                    }
                }
                assert(self.pending_queries@[i as int] == q);
                return;
            }
            let before = cur.position.term < q.position.term || (cur.position.term
                == q.position.term && cur.position.index < q.position.index) || (cur.position.term
                == q.position.term && cur.position.index == q.position.index && pid_lt_exec(
                cur.proposal_id,
                q.proposal_id,
            ));
            if !before {
                let ghost prev = self.pending_queries@;
                assert(pq_key_lt(q, prev[i as int]));
                self.pending_queries.insert(i, q);
                proof {
                    prev.insert_ensures(i as int, q);
                }
                assert forall|a: int, b: int|
                    0 <= a < b < self.pending_queries@.len() implies pq_key_lt(
                    self.pending_queries@[a],
                    self.pending_queries@[b],
                ) by {
                    let x = self.pending_queries@[a];
                    let y = self.pending_queries@[b];
                    if a < i && b < i {
                        assert(x == prev[a] && y == prev[b]);
                    } else if a < i && b == i {
                        assert(x == prev[a] && y == q);
                    } else if a < i && b > i {
                        assert(x == prev[a] && y == prev[b - 1]);
                    } else if a == i && b == i + 1 {
                        assert(x == q && y == prev[i as int]);
                    } else if a == i {
                        assert(x == q && y == prev[b - 1]);
                        assert(pq_key_lt(prev[i as int], prev[b - 1]));
                        lemma_pq_lt_trans(q, prev[i as int], prev[b - 1]);
                    } else {
                        assert(x == prev[a - 1] && y == prev[b - 1]);
                    }
                }
                assert(self.pending_queries@[i as int] == q);
                return;
            }
            i += 1;
        }
        self.pending_queries.push(q);
        assert(self.pending_queries@[self.pending_queries@.len() - 1] == q);
    }

    /// The position the next broadcast will start at, or a fresh query
    /// marker's position: the position a linearisable read binds to.
    fn leader_query_position(&mut self) -> (r: LogPosition)
        requires
            old(self).wf(),
        ensures
            final(self).wf(),
            final(self).same_identity(old(self)),
            final(self).local_command_seqno == old(self).local_command_seqno,
            final(self).applied_index == old(self).applied_index,
            final(self).initialized == old(self).initialized,
            final(self).action_queue == old(self).action_queue,
            final(self).pending_queries == old(self).pending_queries,
    {
        match raft_peek_broadcast_first_position(&self.inner) {
            Some((term, index)) => LogPosition { term, index },
            None => {
                let value = Command::Query.to_json();
                let (term, index) = raft_propose_command(&mut self.inner);
                table_insert(&mut self.recent_commands, index, value);
                LogPosition { term, index }
            },
        }
    }

    /// Binds a linearisable read to the next committed position: a leader
    /// records it; a follower that knows a leader redirects it; otherwise
    /// the read is dropped and the client will time out.
    fn propose_query_inner(&mut self, proposal_id: ProposalId, request: Json)
        requires
            old(self).wf(),
        ensures
            final(self).wf(),
            final(self).same_identity(old(self)),
            final(self).local_command_seqno == old(self).local_command_seqno,
            final(self).applied_index == old(self).applied_index,
            final(self).initialized == old(self).initialized,
            crate::raft::raft_is_leader(old(self).inner) ==> {
                &&& final(self).action_queue == old(self).action_queue
                &&& exists|k: int|
                    0 <= k < final(self).pending_queries@.len()
                        && (#[trigger] final(self).pending_queries@[k]).proposal_id
                        == proposal_id && final(self).pending_queries@[k].request@ == request@
            },
            !crate::raft::raft_is_leader(old(self).inner) ==> {
                &&& final(self).recent_commands == old(self).recent_commands
                &&& final(self).pending_queries == old(self).pending_queries
                &&& match old(self).forward_target() {
                    Some(leader) => view_queue(final(self).action_queue@) == view_queue(
                        old(self).action_queue@,
                    ).push(
                        ActionV::SendMessage(
                            leader,
                            crate::codec::spec_query_message_to_json(
                                QueryMessageV::Redirect {
                                    from: old(self).id_spec(),
                                    proposal_id,
                                    request: request@,
                                },
                            ),
                        ),
                    ),
                    None => *final(self) == *old(self),
                }
            },
    {
        let is_leader = match self.role() {
            NodeRole::Leader => true,
            _ => false,
        };
        if is_leader {
            let ghost reqv = request@;
            let position = self.leader_query_position();
            let q = PendingQuery { position, proposal_id, request };
            self.pq_insert(q);
            proof {
                let k = choose|k: int|
                    0 <= k < self.pending_queries@.len() && self.pending_queries@[k] == q;
                assert(self.pending_queries@[k].proposal_id == proposal_id
                    && self.pending_queries@[k].request@ == reqv);
            }
        } else {
            match self.leader_id() {
                Some(leader) => {
                    let ghost reqv = request@;
                    let from = self.id();
                    let message = QueryMessage::Redirect { from, proposal_id, request };
                    self.push_action(Action::SendMessage(leader, message.to_json()));
                    proof {
                        assert(view_queue(self.action_queue@) =~= view_queue(
                            old(self).action_queue@,
                        ).push(
                            ActionV::SendMessage(
                                leader,
                                crate::codec::spec_query_message_to_json(
                                    QueryMessageV::Redirect {
                                        from: old(self).id_spec(),
                                        proposal_id,
                                        request: reqv,
                                    },
                                ),
                            ),
                        ));
                    }
                },
                None => {},
            }
        }
    }

    /// Allocates an identifier for a linearisable read and binds or
    /// forwards it: a leader records the read against the position it will
    /// answer at; a follower that knows a leader sends it there as a
    /// redirect; with no leader known the read is dropped and the client
    /// will time out.
    pub fn propose_query(&mut self, request: Json) -> (r: ProposalId)
        requires
            old(self).wf(),
            old(self).local_command_seqno < u64::MAX,
        ensures
            final(self).wf(),
            r == (ProposalId {
                node_id: old(self).id_spec(),
                generation: old(self).generation,
                local_seqno: old(self).local_command_seqno,
            }),
            final(self).local_command_seqno == old(self).local_command_seqno + 1,
            final(self).same_identity(old(self)),
            final(self).applied_index == old(self).applied_index,
            final(self).initialized == old(self).initialized,
            crate::raft::raft_is_leader(old(self).inner) ==> {
                &&& final(self).action_queue@ == old(self).action_queue@
                &&& exists|k: int|
                    0 <= k < final(self).pending_queries@.len()
                        && (#[trigger] final(self).pending_queries@[k]).proposal_id == r
                        && final(self).pending_queries@[k].request@ == request@
            },
            !crate::raft::raft_is_leader(old(self).inner) ==> {
                &&& final(self).recent_commands == old(self).recent_commands
                &&& final(self).pending_queries == old(self).pending_queries
                &&& match old(self).forward_target() {
                    Some(leader) => view_queue(final(self).action_queue@) == view_queue(
                        old(self).action_queue@,
                    ).push(
                        ActionV::SendMessage(
                            leader,
                            crate::codec::spec_query_message_to_json(
                                QueryMessageV::Redirect {
                                    from: old(self).id_spec(),
                                    proposal_id: r,
                                    request: request@,
                                },
                            ),
                        ),
                    ),
                    None => *final(self) == (Node {
                        local_command_seqno: final(self).local_command_seqno,
                        ..*old(self)
                    }),
                }
            },
    {
        let pid = self.next_proposal_id();
        self.propose_query_inner(pid, request);
        pid
    }

    /// Serves a redirected read: a leader binds it and tells the proposer
    /// the position; any other node forwards it again.
    fn propose_query_for_redirect(&mut self, from: u64, proposal_id: ProposalId, request: Json)
        requires
            old(self).wf(),
        ensures
            final(self).wf(),
            final(self).same_identity(old(self)),
            final(self).local_command_seqno == old(self).local_command_seqno,
            final(self).applied_index == old(self).applied_index,
            final(self).initialized == old(self).initialized,
            final(self).pending_queries == old(self).pending_queries,
    {
        let is_leader = match self.role() {
            NodeRole::Leader => true,
            _ => false,
        };
        if is_leader {
            let position = self.leader_query_position();
            let message = QueryMessage::Proposed { proposal_id, position, request };
            self.push_action(Action::SendMessage(from, message.to_json()));
        } else {
            match self.leader_id() {
                Some(leader) => {
                    let message = QueryMessage::Redirect { from, proposal_id, request };
                    self.push_action(Action::SendMessage(leader, message.to_json()));
                },
                None => {},
            }
        }
    }

    /// Converts a wire message into the primitive's form, dropping command
    /// payloads (the primitive stores tags only) and the reply generation
    /// (carried for receivers, not for the primitive).
    fn message_to_raft(&self, m: &Message) -> crate::raft::RaftWireMessage
        requires
            self.wf(),
    {
        match m {
            Message::RequestVoteCall { from, term, last_position } =>
                crate::raft::raft_mk_request_vote_call(
                *from,
                *term,
                last_position.term,
                last_position.index,
            ),
            Message::RequestVoteReply { from, term, vote_granted } =>
                crate::raft::raft_mk_request_vote_reply(*from, *term, *vote_granted),
            Message::AppendEntriesCall { from, term, commit_index, prev_position, entries } => {
                let mut run = crate::raft::raft_entries_new(
                    prev_position.term,
                    prev_position.index,
                );
                let mut i: usize = 0;
                while i < entries.len()
                    invariant
                        0 <= i <= entries@.len(),
                    decreases entries@.len() - i,
                {
                    let (_, run_prev) = crate::raft::raft_entries_prev_exec(&run);
                    let run_len = crate::raft::raft_entries_len(&run);
                    if run_prev >= u64::MAX - 1 || run_len as u64 >= u64::MAX - 1 - run_prev {
                        // The wire carried entries at or past the last
                        // representable position, where the primitive's log
                        // could never be extended; they cannot be placed.
                        break;
                    }
                    match &entries[i] {
                        LogEntry::Term(t) => crate::raft::raft_entries_push_term(&mut run, *t),
                        LogEntry::ClusterConfig { voters, new_voters } => {
                            let sorted_voters = sorted_set_of(voters);
                            let sorted_new_voters = sorted_set_of(new_voters);
                            crate::raft::raft_entries_push_config(
                                &mut run,
                                &sorted_voters,
                                &sorted_new_voters,
                            );
                        },
                        LogEntry::Command(_) => crate::raft::raft_entries_push_command(&mut run),
                    }
                    i += 1;
                }
                crate::raft::raft_mk_append_entries_call(*from, *term, *commit_index, run)
            },
            Message::AppendEntriesReply { from, term, generation: _, last_position } =>
                crate::raft::raft_mk_append_entries_reply(
                *from,
                *term,
                last_position.term,
                last_position.index,
            ),
        }
    }

    /// Feeds a parsed Raft message to the primitive, marking the node
    /// initialised, and keeps the payload of every command entry whose
    /// position survives log matching — and of no other entry: the
    /// retained table changes only at indices where the message carried a
    /// command whose position the log holds afterwards.
    fn handle_raft_message(&mut self, message: &Message)
        requires
            old(self).wf(),
        ensures
            final(self).wf(),
            final(self).initialized,
            final(self).same_identity(old(self)),
            final(self).local_command_seqno == old(self).local_command_seqno,
            final(self).applied_index == old(self).applied_index,
            message@ matches crate::codec::MessageV::AppendEntriesCall {
                prev_position,
                entries,
                ..
            } ==> prev_position.index + entries.len() <= u64::MAX ==> forall|k: int|
                0 <= k < crate::codec::spec_command_values(prev_position, entries).len()
                    ==> ({
                    let pv = #[trigger] crate::codec::spec_command_values(
                        prev_position,
                        entries,
                    )[k];
                    crate::raft::raft_term_at(final(self).inner, pv.0.index) == Some(pv.0.term)
                        ==> spec_table_lookup(final(self).recent_commands@, pv.0.index)
                        == Some(pv.1)
                }),
            forall|key: u64|
                #[trigger] spec_table_lookup(final(self).recent_commands@, key)
                    != spec_table_lookup(old(self).recent_commands@, key) ==> message_stores_at(
                    message@,
                    final(self).inner,
                    key,
                ),
    {
        if !self.initialized {
            self.initialized = true;
        }
        let raft_message = self.message_to_raft(message);
        let _ = raft_handle_message(&mut self.inner, &raft_message);
        let ghost inn = self.inner;
        let command_values = get_command_values(message);
        let ghost cvv = crate::codec::view_command_values(command_values@);
        proof {
            match message@ {
                crate::codec::MessageV::AppendEntriesCall { prev_position, entries, .. } => {
                    if prev_position.index + entries.len() <= u64::MAX {
                        crate::codec::lemma_command_values_positions(prev_position, entries);
                        assert(cvv == crate::codec::spec_command_values(
                            prev_position,
                            entries,
                        ));
                    }
                },
                _ => {},
            }
            assert(forall|k1: int, k2: int|
                0 <= k1 < k2 < cvv.len() ==> (#[trigger] cvv[k1]).0.index != (
                #[trigger] cvv[k2]).0.index);
        }
        let mut i: usize = 0;
        while i < command_values.len()
            invariant
                self.wf(),
                self.initialized,
                self.same_identity(old(self)),
                self.local_command_seqno == old(self).local_command_seqno,
                self.applied_index == old(self).applied_index,
                self.inner == inn,
                0 <= i <= command_values@.len(),
                cvv == crate::codec::view_command_values(command_values@),
                forall|k1: int, k2: int|
                    0 <= k1 < k2 < cvv.len() ==> (#[trigger] cvv[k1]).0.index != (
                    #[trigger] cvv[k2]).0.index,
                forall|k: int|
                    0 <= k < i ==> (crate::raft::raft_term_at(
                        inn,
                        (#[trigger] cvv[k]).0.index,
                    ) == Some(cvv[k].0.term) ==> spec_table_lookup(
                        self.recent_commands@,
                        cvv[k].0.index,
                    ) == Some(cvv[k].1)),
                forall|key: u64|
                    #[trigger] spec_table_lookup(self.recent_commands@, key)
                        != spec_table_lookup(old(self).recent_commands@, key) ==> exists|k: int|
                        0 <= k < i && (#[trigger] cvv[k]).0.index == key
                            && crate::raft::raft_term_at(inn, key) == Some(cvv[k].0.term),
            decreases command_values@.len() - i,
        {
            let pos = command_values[i].0;
            if raft_log_contains(&self.inner, pos.term, pos.index) {
                let payload = command_values[i].1.deep_clone();
                let ghost pre_table = self.recent_commands@;
                table_insert(&mut self.recent_commands, pos.index, payload);
                proof {
                    assert(cvv[i as int].0 == pos);
                    let wi = choose|wi: int|
                        0 <= wi < self.recent_commands@.len() && self.recent_commands@[wi].0
                            == pos.index;
                    lemma_table_lookup_witness(self.recent_commands@, pos.index, wi);
                    assert(spec_table_lookup(self.recent_commands@, pos.index) == Some(
                        cvv[i as int].1,
                    ));
                    assert forall|k: int| 0 <= k < i implies (crate::raft::raft_term_at(
                        inn,
                        (#[trigger] cvv[k]).0.index,
                    ) == Some(cvv[k].0.term) ==> spec_table_lookup(
                        self.recent_commands@,
                        cvv[k].0.index,
                    ) == Some(cvv[k].1)) by {
                        assert(cvv[k].0.index != cvv[i as int].0.index);
                        lemma_lookup_other_keys(
                            pre_table,
                            self.recent_commands@,
                            pos.index,
                            cvv[k].0.index,
                        );
                    }
                    assert forall|key: u64|
                        spec_table_lookup(self.recent_commands@, key) != spec_table_lookup(
                            old(self).recent_commands@,
                            key,
                        ) implies exists|k: int|
                        0 <= k < i + 1 && (#[trigger] cvv[k]).0.index == key
                            && crate::raft::raft_term_at(inn, key) == Some(cvv[k].0.term) by {
                        if key == pos.index {
                            assert(cvv[i as int].0.index == key && crate::raft::raft_term_at(
                                inn,
                                key,
                            ) == Some(cvv[i as int].0.term));
                        } else {
                            lemma_lookup_other_keys(
                                pre_table,
                                self.recent_commands@,
                                pos.index,
                                key,
                            );
                            assert(spec_table_lookup(pre_table, key) != spec_table_lookup(
                                old(self).recent_commands@,
                                key,
                            ));
                        }
                    }
                }
            }
            i += 1;
        }
        proof {
            assert forall|key: u64|
                spec_table_lookup(self.recent_commands@, key) != spec_table_lookup(
                    old(self).recent_commands@,
                    key,
                ) implies message_stores_at(message@, self.inner, key) by {
                let k = choose|k: int|
                    0 <= k < i && (#[trigger] cvv[k]).0.index == key
                        && crate::raft::raft_term_at(inn, key) == Some(cvv[k].0.term);
                match message@ {
                    crate::codec::MessageV::AppendEntriesCall { prev_position, entries, .. } => {
                        assert(prev_position.index + entries.len() <= u64::MAX) by {
                            if prev_position.index + entries.len() > u64::MAX {
                                assert(cvv.len() == 0);
                            }
                        }
                        assert((crate::codec::spec_command_values(
                            prev_position,
                            entries,
                        )[k]).0.index == key && crate::raft::raft_term_at(inn, key) == Some(
                            crate::codec::spec_command_values(prev_position, entries)[k].0.term,
                        ));
                    },
                    _ => {
                        assert(cvv.len() == 0);
                    },
                }
            }
        }
    }

    /// Handles one received line: a Raft message feeds the primitive, a
    /// redirected command envelope is proposed here, a query exchange
    /// message advances the read protocol.  Returns false, changing
    /// nothing, exactly when the value is none of the three.
    pub fn handle_message(&mut self, message: &Json) -> (r: bool)
        requires
            old(self).wf(),
        ensures
            final(self).wf(),
            r == (spec_json_to_message(message@) is Some || spec_json_to_command(message@)
                is Some || spec_json_to_query_message(message@) is Some),
            spec_json_to_message(message@) is Some ==> final(self).initialized,
            spec_json_to_message(message@) is None ==> final(self).initialized == old(
                self,
            ).initialized,
            spec_json_to_message(message@) matches Some(m) ==> m matches
                crate::codec::MessageV::AppendEntriesCall { prev_position, entries, .. }
                ==> prev_position.index + entries.len() <= u64::MAX ==> forall|k: int|
                0 <= k < crate::codec::spec_command_values(prev_position, entries).len()
                    ==> ({
                    let pv = #[trigger] crate::codec::spec_command_values(
                        prev_position,
                        entries,
                    )[k];
                    crate::raft::raft_term_at(final(self).inner, pv.0.index) == Some(pv.0.term)
                        ==> spec_table_lookup(final(self).recent_commands@, pv.0.index)
                        == Some(pv.1)
                }),
            spec_json_to_message(message@) matches Some(m) ==> forall|key: u64|
                #[trigger] spec_table_lookup(final(self).recent_commands@, key)
                    != spec_table_lookup(old(self).recent_commands@, key) ==> message_stores_at(
                    m,
                    final(self).inner,
                    key,
                ),
            final(self).same_identity(old(self)),
            final(self).local_command_seqno == old(self).local_command_seqno,
            final(self).applied_index == old(self).applied_index,
            !r ==> *final(self) == *old(self),
    {
        match json_to_message(message) {
            Some(parsed) => {
                self.handle_raft_message(&parsed);
                true
            },
            None => {
                match Command::from_json(message) {
                    Some(command) => {
                        self.propose(command);
                        true
                    },
                    None => {
                        match QueryMessage::from_json(message) {
                            Some(QueryMessage::Redirect { from, proposal_id, request }) => {
                                self.propose_query_for_redirect(from, proposal_id, request);
                                true
                            },
                            Some(QueryMessage::Proposed { proposal_id, position, request }) => {
                                self.pq_insert(
                                    PendingQuery { position, proposal_id, request },
                                );
                                true
                            },
                            None => false,
                        }
                    },
                }
            },
        }
    }
}

/// The message carries a command value at this log index whose position
/// the log of `n` holds: the one case in which handling the message
/// stores a payload under the index.
pub open spec fn message_stores_at(
    m: crate::codec::MessageV,
    n: RaftInner,
    key: u64,
) -> bool {
    match m {
        crate::codec::MessageV::AppendEntriesCall { prev_position, entries, .. } => {
            &&& prev_position.index + entries.len() <= u64::MAX
            &&& exists|k: int|
                0 <= k < crate::codec::spec_command_values(prev_position, entries).len() && (
                #[trigger] crate::codec::spec_command_values(prev_position, entries)[k]).0.index
                    == key && crate::raft::raft_term_at(n, key) == Some(
                    crate::codec::spec_command_values(prev_position, entries)[k].0.term,
                )
        },
        _ => false,
    }
}

/// Exec form of the strict proposal order.
fn pid_lt_exec(a: ProposalId, b: ProposalId) -> (r: bool)
    ensures
        r == pid_lt(a, b),
{
    a.node_id < b.node_id || (a.node_id == b.node_id && a.generation < b.generation) || (a.node_id
        == b.node_id && a.generation == b.generation && a.local_seqno < b.local_seqno)
}

/// The distinct values of a list, ascending.
fn sorted_set_of(v: &Vec<u64>) -> (r: Vec<u64>)
    ensures
        strict_sorted(r@),
        forall|y: u64| r@.contains(y) <==> v@.contains(y),
{
    let mut out: Vec<u64> = Vec::new();
    let mut i: usize = 0;
    while i < v.len()
        invariant
            0 <= i <= v@.len(),
            strict_sorted(out@),
            forall|y: u64| out@.contains(y) <==> v@.take(i as int).contains(y),
        decreases v@.len() - i,
    {
        let ghost prev = out@;
        set_insert(&mut out, v[i]);
        assert forall|y: u64| out@.contains(y) implies v@.take(i + 1).contains(y) by {
            if y == v@[i as int] {
                assert(v@.take(i + 1)[i as int] == y);
            } else {
                assert(prev.contains(y));
                let ghost w = choose|w: int| 0 <= w < v@.take(i as int).len() && v@.take(
                    i as int,
                )[w] == y;
                assert(v@.take(i + 1)[w] == y);
            }
        }
        assert forall|y: u64| v@.take(i + 1).contains(y) implies out@.contains(y) by {
            let ghost w = choose|w: int| 0 <= w < v@.take(i + 1).len() && #[trigger] v@.take(
                i + 1,
            )[w] == y;
            if w < i {
                assert(v@.take(i as int)[w] == y);
            } else {
                assert(y == v@[i as int]);
            }
        }
        i += 1;
    }
    proof {
        assert(v@.take(v@.len() as int) =~= v@);
    }
    out
}


impl Node {
    /// Converts one entry run of the primitive into wire entries,
    /// attaching each command's payload from the retained table; a payload
    /// already trimmed or unknown is carried as null.
    fn entries_from_raft(&self, run: &RaftEntries) -> (r: (LogPosition, Vec<LogEntry>))
        requires
            self.wf(),
            crate::raft::raft_entries_prev(*run).1 + raft_entries_list(*run).len()
                <= u64::MAX,
        ensures
            r.0 == (LogPosition {
                term: crate::raft::raft_entries_prev(*run).0,
                index: crate::raft::raft_entries_prev(*run).1,
            }),
            crate::codec::view_entries(r.1@) == Seq::new(
                raft_entries_list(*run).len(),
                |m: int| spec_wire_entry(
                    raft_entries_list(*run)[m],
                    ((crate::raft::raft_entries_prev(*run).1 + m + 1) as u64),
                    self.recent_commands@,
                ),
            ),
    {
        let ghost list = raft_entries_list(*run);
        let ghost prev = crate::raft::raft_entries_prev(*run);
        let ghost table = self.recent_commands@;
        let (prev_term, prev_index) = raft_entries_prev_exec(run);
        let len = raft_entries_len(run);
        let mut out: Vec<LogEntry> = Vec::new();
        let mut i: usize = 0;
        proof {
            assert(crate::codec::view_entries(out@) =~~= Seq::new(
                0nat,
                |m: int| spec_wire_entry(list[m], ((prev.1 + m + 1) as u64), table),
            ));
        }
        while i < len
            invariant
                self.wf(),
                self.recent_commands@ == table,
                len == list.len(),
                list == raft_entries_list(*run),
                prev == crate::raft::raft_entries_prev(*run),
                prev.1 + len <= u64::MAX,
                prev_index == prev.1,
                0 <= i <= len,
                crate::codec::view_entries(out@) == Seq::new(
                    i as nat,
                    |m: int| spec_wire_entry(list[m], ((prev.1 + m + 1) as u64), table),
                ),
            decreases len - i,
        {
            let entry = match raft_entries_get(run, i) {
                RawEntry::Term(t) => LogEntry::Term(t),
                RawEntry::Config { voters, new_voters } => LogEntry::ClusterConfig {
                    voters,
                    new_voters,
                },
                RawEntry::Command => {
                    let index = checked_entry_index(prev_index, i);
                    let looked = table_get(&self.recent_commands, index);
                    proof {
                        match looked {
                            Some(v) => {
                                let wi = choose|wi: int|
                                    0 <= wi < table.len() && table[wi].0 == index && table[
                                        wi
                                    ].1 == *v;
                                lemma_table_lookup_witness(table, index, wi);
                            },
                            None => {
                                lemma_table_lookup_missing(table, index);
                            },
                        }
                    }
                    let payload = match looked {
                        Some(v) => v.deep_clone(),
                        None => Json::Null,
                    };
                    LogEntry::Command(payload)
                },
            };
            proof {
                assert(entry@ == spec_wire_entry(list[i as int], ((prev.1 + i + 1) as u64), table));
            }
            let ghost prevout = out@;
            let ghost ev = entry@;
            out.push(entry);
            proof {
                assert forall|m: int| 0 <= m < i + 1 implies #[trigger] crate::codec::view_entries(
                    out@,
                )[m] == spec_wire_entry(list[m], ((prev.1 + m + 1) as u64), table) by {
                    assert(crate::codec::view_entries(out@)[m] == out@[m]@);
                    if m < i {
                        assert(out@[m] == prevout[m]);
                        assert(crate::codec::view_entries(prevout)[m] == prevout[m]@);
                        assert(crate::codec::view_entries(prevout)[m] == spec_wire_entry(
                            list[m],
                            ((prev.1 + m + 1) as u64),
                            table,
                        ));
                    } else {
                        assert(out@[m]@ == ev);
                    }
                }
                assert(crate::codec::view_entries(out@) =~= Seq::new(
                    (i + 1) as nat,
                    |m: int| spec_wire_entry(list[m], ((prev.1 + m + 1) as u64), table),
                ));
            }
            i += 1;
        }
        (LogPosition { term: prev_term, index: prev_index }, out)
    }

    /// Encodes one message of the primitive for the wire, attaching
    /// payloads; an append-entries reply carries this node's generation.
    fn encode_raft_message(&self, m: crate::raft::RaftWireMessage) -> (r: Json)
        requires
            self.wf(),
    {
        let kind = crate::raft::raft_message_kind(&m);
        let (from, term) = crate::raft::raft_message_common(&m);
        let message = if kind == 0 {
            let (lt, li) = crate::raft::raft_message_last_position(&m);
            Message::RequestVoteCall { from, term, last_position: LogPosition {
                term: lt,
                index: li,
            } }
        } else if kind == 1 {
            let vote_granted = crate::raft::raft_message_vote_granted(&m);
            Message::RequestVoteReply { from, term, vote_granted }
        } else if kind == 2 {
            let commit_index = crate::raft::raft_message_commit_index(&m);
            let entries = crate::raft::raft_message_entries(&m);
            let (prev_position, converted) = self.entries_from_raft(&entries);
            Message::AppendEntriesCall {
                from,
                term,
                commit_index,
                prev_position,
                entries: converted,
            }
        } else {
            let (lt, li) = crate::raft::raft_message_last_position(&m);
            Message::AppendEntriesReply {
                from,
                term,
                generation: self.generation,
                last_position: LogPosition { term: lt, index: li },
            }
        };
        fmt_message(&message)
    }

    /// Encodes one entry run as the journal frame that records it.
    fn encode_log_entries(&self, run: &RaftEntries) -> (r: Json)
        requires
            self.wf(),
            crate::raft::raft_entries_prev(*run).1 + raft_entries_list(*run).len()
                <= u64::MAX,
    {
        let (prev_position, converted) = self.entries_from_raft(run);
        let mut b = crate::json::ObjBuilder::new();
        b.member("type", Json::str_of("LogEntries"));
        b.member("term", Json::Num(prev_position.term));
        b.member("index", Json::Num(prev_position.index));
        b.member("entries", crate::codec::entries_to_json(&converted));
        b.build()
    }

    /// When the learnt members differ from the Raft configuration and this
    /// node leads outside joint consensus, proposes the joint
    /// configuration that reconciles them.
    fn maybe_sync_raft_members(&mut self)
        requires
            old(self).wf(),
        ensures
            final(self).wf(),
            final(self).same_identity(old(self)),
            final(self).local_command_seqno == old(self).local_command_seqno,
            final(self).applied_index == old(self).applied_index,
            final(self).initialized == old(self).initialized,
            final(self).action_queue == old(self).action_queue,
            final(self).recent_commands == old(self).recent_commands,
    {
        if !self.dirty_members {
            return;
        }
        let is_leader = match self.role() {
            NodeRole::Leader => true,
            _ => false,
        };
        if !is_leader {
            return;
        }
        let config = crate::raft::raft_config_clone(&self.inner);
        if crate::raft::config_is_joint(&config) {
            return;
        }
        let current_voters = crate::raft::config_voters(&config);
        let mut to_add: Vec<u64> = Vec::new();
        let mut i: usize = 0;
        while i < self.machine_nodes.len()
            invariant
                self == old(self),
                self.wf(),
                0 <= i <= self.machine_nodes@.len(),
            decreases self.machine_nodes@.len() - i,
        {
            if !set_contains(&current_voters, self.machine_nodes[i]) {
                to_add.push(self.machine_nodes[i]);
            }
            i += 1;
        }
        let mut to_remove: Vec<u64> = Vec::new();
        let mut j: usize = 0;
        while j < current_voters.len()
            invariant
                self == old(self),
                self.wf(),
                0 <= j <= current_voters@.len(),
            decreases current_voters@.len() - j,
        {
            if !set_contains(&self.machine_nodes, current_voters[j]) {
                to_remove.push(current_voters[j]);
            }
            j += 1;
        }
        if to_add.len() > 0 || to_remove.len() > 0 {
            let joint = crate::raft::config_to_joint(&config, &to_add, &to_remove);
            let _ = crate::raft::raft_propose_config(&mut self.inner, joint);
        }
        self.dirty_members = false;
    }

    /// Learns one member from a committed membership command.
    fn handle_add_node(&mut self, id: u64)
        requires
            old(self).wf(),
        ensures
            final(self).wf(),
            final(self).same_identity(old(self)),
            final(self).local_command_seqno == old(self).local_command_seqno,
            final(self).applied_index == old(self).applied_index,
            final(self).initialized == old(self).initialized,
            final(self).machine_nodes@.contains(id),
            final(self).action_queue == old(self).action_queue,
            *final(self) == (Node {
                machine_nodes: final(self).machine_nodes,
                dirty_members: final(self).dirty_members,
                ..*old(self)
            }),
    {
        if set_contains(&self.machine_nodes, id) {
            return;
        }
        set_insert(&mut self.machine_nodes, id);
        self.dirty_members = true;
    }

    /// Emits an `Apply` for every command committed past the applied
    /// index, learning members on the way, and advances the applied index
    /// to the commit index.  The applied index never moves backwards.
    fn emit_commit_actions(&mut self)
        requires
            old(self).wf(),
        ensures
            final(self).wf(),
            final(self).same_identity(old(self)),
            final(self).local_command_seqno == old(self).local_command_seqno,
            final(self).applied_index >= old(self).applied_index,
            final(self).initialized == old(self).initialized,
            queue_extends(final(self).action_queue@, old(self).action_queue@),
            forall|i: int|
                old(self).action_queue@.len() <= i < final(self).action_queue@.len() ==> ((
                #[trigger] final(self).action_queue@[i])@) is Apply,
            final(self).inner == old(self).inner,
            final(self).recent_commands == old(self).recent_commands,
            final(self).applied_index == (if crate::raft::raft_commit_of(old(self).inner) > old(
                self,
            ).applied_index {
                crate::raft::raft_commit_of(old(self).inner)
            } else {
                old(self).applied_index
            }),
            forall|idx: u64|
                old(self).applied_index < idx <= crate::raft::raft_commit_of(old(self).inner)
                    ==> (#[trigger] spec_table_lookup(old(self).recent_commands@, idx) matches Some(
                    cj,
                ) ==> spec_json_to_command(cj) matches Some(
                    CommandV::Apply { proposal_id, command },
                ) ==> queue_holds(
                    view_queue(final(self).action_queue@),
                    spec_apply_action(
                        old(self).id_spec(),
                        old(self).generation,
                        idx,
                        proposal_id,
                        command,
                    ),
                )),
    {
        let commit = raft_commit_index(&self.inner);
        if commit <= self.applied_index {
            return;
        }
        let my_id = self.id();
        let my_generation = self.generation;
        let mut idx = self.applied_index;
        while idx < commit
            invariant
                self.wf(),
                self.same_identity(old(self)),
                self.local_command_seqno == old(self).local_command_seqno,
                self.applied_index == old(self).applied_index,
                self.initialized == old(self).initialized,
                old(self).applied_index <= idx <= commit,
                my_id == self.id_spec(),
                my_generation == self.generation,
                my_id == old(self).id_spec(),
                my_generation == old(self).generation,
                queue_extends(self.action_queue@, old(self).action_queue@),
                forall|i: int|
                    old(self).action_queue@.len() <= i < self.action_queue@.len() ==> ((
                    #[trigger] self.action_queue@[i])@) is Apply,
                self.inner == old(self).inner,
                self.recent_commands == old(self).recent_commands,
                commit == crate::raft::raft_commit_of(old(self).inner),
                forall|idx2: u64|
                    old(self).applied_index < idx2 <= idx ==> (#[trigger] spec_table_lookup(
                        old(self).recent_commands@,
                        idx2,
                    ) matches Some(cj) ==> spec_json_to_command(cj) matches Some(
                        CommandV::Apply { proposal_id, command },
                    ) ==> queue_holds(
                        view_queue(self.action_queue@),
                        spec_apply_action(
                            old(self).id_spec(),
                            old(self).generation,
                            idx2,
                            proposal_id,
                            command,
                        ),
                    )),
            decreases commit - idx,
        {
            let index = idx + 1;
            let ghost q_before = self.action_queue@;
            let looked = table_get(&self.recent_commands, index);
            proof {
                match looked {
                    Some(v) => {
                        let wi = choose|wi: int|
                            0 <= wi < self.recent_commands@.len() && self.recent_commands@[
                                wi
                            ].0 == index && self.recent_commands@[wi].1 == *v;
                        lemma_table_lookup_witness(self.recent_commands@, index, wi);
                    },
                    None => {
                        lemma_table_lookup_missing(self.recent_commands@, index);
                    },
                }
            }
            let payload = match looked {
                Some(v) => Some(v.deep_clone()),
                None => None,
            };
            match payload {
                Some(command_json) => {
                    match Command::from_json(&command_json) {
                        Some(Command::Apply { proposal_id, command }) => {
                            let ghost cmdv = command@;
                            let is_proposer = proposal_id.is_proposer(my_id, my_generation);
                            self.push_action(
                                Action::Apply(
                                    ApplyAction {
                                        is_proposer,
                                        index,
                                        proposal_id: Some(proposal_id),
                                        request: command,
                                    },
                                ),
                            );
                            proof {
                                let a = spec_apply_action(
                                    old(self).id_spec(),
                                    old(self).generation,
                                    index,
                                    proposal_id,
                                    cmdv,
                                );
                                assert(view_queue(self.action_queue@)[
                                    self.action_queue@.len() - 1
                                ] == a);
                                assert(queue_holds(view_queue(self.action_queue@), a));
                            }
                        },
                        Some(Command::AddNode { proposal_id, id }) => {
                            self.handle_add_node(id);
                            let is_proposer = proposal_id.is_proposer(my_id, my_generation);
                            self.push_action(
                                Action::Apply(
                                    ApplyAction {
                                        is_proposer,
                                        index,
                                        proposal_id: Some(proposal_id),
                                        request: Json::Null,
                                    },
                                ),
                            );
                        },
                        Some(Command::RemoveNode { proposal_id, id }) => {
                            self.handle_remove_node(id);
                            let is_proposer = proposal_id.is_proposer(my_id, my_generation);
                            self.push_action(
                                Action::Apply(
                                    ApplyAction {
                                        is_proposer,
                                        index,
                                        proposal_id: Some(proposal_id),
                                        request: Json::Null,
                                    },
                                ),
                            );
                        },
                        Some(Command::Query) => {},
                        None => {},
                    }
                },
                None => {},
            }
            proof {
                assert(queue_extends(self.action_queue@, q_before));
                assert forall|idx2: u64|
                    old(self).applied_index < idx2 <= index implies (#[trigger] spec_table_lookup(
                        old(self).recent_commands@,
                        idx2,
                    ) matches Some(cj) ==> spec_json_to_command(cj) matches Some(
                        CommandV::Apply { proposal_id, command },
                    ) ==> queue_holds(
                        view_queue(self.action_queue@),
                        spec_apply_action(
                            old(self).id_spec(),
                            old(self).generation,
                            idx2,
                            proposal_id,
                            command,
                        ),
                    )) by {
                    match spec_table_lookup(old(self).recent_commands@, idx2) {
                        Some(cj) => {
                            match spec_json_to_command(cj) {
                                Some(CommandV::Apply { proposal_id, command }) => {
                                    let a = spec_apply_action(
                                        old(self).id_spec(),
                                        old(self).generation,
                                        idx2,
                                        proposal_id,
                                        command,
                                    );
                                    if idx2 <= idx {
                                        assert(queue_holds(view_queue(q_before), a));
                                        lemma_queue_holds_extends(
                                            q_before,
                                            self.action_queue@,
                                            a,
                                        );
                                    }
                                },
                                _ => {},
                            }
                        },
                        None => {},
                    }
                }
            }
            idx = index;
        }
        self.applied_index = commit;
    }

    /// Resolves pending reads whose position has been decided: a committed
    /// position fires its `Apply` actions, a rejected or unknown one drops
    /// its reads, and an in-progress one stops the scan.
    fn emit_query_actions(&mut self)
        requires
            old(self).wf(),
        ensures
            final(self).wf(),
            final(self).same_identity(old(self)),
            final(self).local_command_seqno == old(self).local_command_seqno,
            final(self).applied_index == old(self).applied_index,
            final(self).initialized == old(self).initialized,
            queue_extends(final(self).action_queue@, old(self).action_queue@),
            forall|i: int|
                old(self).action_queue@.len() <= i < final(self).action_queue@.len() ==> ((
                #[trigger] final(self).action_queue@[i])@) is Apply,
            final(self).inner == old(self).inner,
            final(self).recent_commands == old(self).recent_commands,
    {
        let my_id = self.id();
        let my_generation = self.generation;
        loop
            invariant
                self.wf(),
                self.same_identity(old(self)),
                self.local_command_seqno == old(self).local_command_seqno,
                self.applied_index == old(self).applied_index,
                self.initialized == old(self).initialized,
                my_id == self.id_spec(),
                my_generation == self.generation,
                queue_extends(self.action_queue@, old(self).action_queue@),
                forall|i: int|
                    old(self).action_queue@.len() <= i < self.action_queue@.len() ==> ((
                    #[trigger] self.action_queue@[i])@) is Apply,
                self.inner == old(self).inner,
                self.recent_commands == old(self).recent_commands,
            decreases self.pending_queries@.len(),
        {
            if self.pending_queries.len() == 0 {
                return;
            }
            let position = self.pending_queries[0].position;
            let status = raft_get_commit_status(&self.inner, position.term, position.index);
            match status {
                CommitStatusKind::InProgress => {
                    return;
                },
                CommitStatusKind::Rejected | CommitStatusKind::Unknown => {
                    self.drop_queries_at(position);
                },
                CommitStatusKind::Committed => {
                    let ghost before = self.pending_queries@.len();
                    let mut emitted: usize = 0;
                    loop
                        invariant
                            self.wf(),
                            self.same_identity(old(self)),
                            self.local_command_seqno == old(self).local_command_seqno,
                            self.applied_index == old(self).applied_index,
                            self.initialized == old(self).initialized,
                            my_id == self.id_spec(),
                            my_generation == self.generation,
                            self.pending_queries@.len() + emitted == before,
                            queue_extends(self.action_queue@, old(self).action_queue@),
                            forall|i: int|
                                old(self).action_queue@.len() <= i < self.action_queue@.len()
                                    ==> ((#[trigger] self.action_queue@[i])@) is Apply,
                            self.inner == old(self).inner,
                            self.recent_commands == old(self).recent_commands,
                        decreases self.pending_queries@.len(),
                    {
                        if self.pending_queries.len() == 0 {
                            break;
                        }
                        let same = self.pending_queries[0].position.term == position.term
                            && self.pending_queries[0].position.index == position.index;
                        if !same {
                            break;
                        }
                        let q = self.pending_queries.remove(0);
                        let is_proposer = q.proposal_id.is_proposer(my_id, my_generation);
                        self.push_action(
                            Action::Apply(
                                ApplyAction {
                                    is_proposer,
                                    index: q.position.index,
                                    proposal_id: Some(q.proposal_id),
                                    request: q.request,
                                },
                            ),
                        );
                        emitted = emitted + 1;
                    }
                    if emitted == 0 {
                        return;
                    }
                },
            }
        }
    }

    /// Drops every pending read bound to the given position.
    fn drop_queries_at(&mut self, position: LogPosition)
        requires
            old(self).wf(),
        ensures
            final(self).wf(),
            final(self).same_identity(old(self)),
            final(self).local_command_seqno == old(self).local_command_seqno,
            final(self).applied_index == old(self).applied_index,
            final(self).initialized == old(self).initialized,
            final(self).pending_queries@.len() < old(self).pending_queries@.len() || old(
                self,
            ).pending_queries@.len() == 0,
            final(self).action_queue == old(self).action_queue,
            final(self).inner == old(self).inner,
            final(self).recent_commands == old(self).recent_commands,
    {
        if self.pending_queries.len() == 0 {
            return;
        }
        let ghost start = self.pending_queries@.len();
        let mut dropped: usize = 0;
        loop
            invariant
                self.wf(),
                self.same_identity(old(self)),
                self.local_command_seqno == old(self).local_command_seqno,
                self.applied_index == old(self).applied_index,
                self.initialized == old(self).initialized,
                self.pending_queries@.len() + dropped == start,
                self.action_queue == old(self).action_queue,
                self.inner == old(self).inner,
                self.recent_commands == old(self).recent_commands,
            decreases self.pending_queries@.len(),
        {
            if self.pending_queries.len() == 0 {
                break;
            }
            let same = self.pending_queries[0].position.term == position.term
                && self.pending_queries[0].position.index == position.index;
            if !same {
                break;
            }
            self.pending_queries.remove(0);
            dropped = dropped + 1;
        }
        if dropped == 0 {
            // The head is bound to another position; drop it alone so the
            // scan cannot stall on a position the primitive no longer
            // answers for.
            self.pending_queries.remove(0);
        }
    }

    /// Hands the host the next pending action, first translating
    /// everything the primitive asks for, emitting newly committed
    /// commands and resolving decided reads.  Actions leave in the order
    /// they were queued: a queue already holding actions hands out its
    /// front, and `None` comes back only once the queue has been drained
    /// empty.  What one call queues keeps persistence first — no journal
    /// append stands after a broadcast, a send or an apply — and an
    /// `Apply` is delivered for every committed `Apply` envelope between
    /// the applied index and the commit index whose payload is retained.
    /// An uninitialised node has no actions.  The applied index never
    /// moves backwards.
    pub fn next_action(&mut self) -> (r: Option<Action>)
        requires
            old(self).wf(),
        ensures
            final(self).wf(),
            final(self).applied_index >= old(self).applied_index,
            final(self).same_identity(old(self)),
            final(self).local_command_seqno == old(self).local_command_seqno,
            final(self).initialized == old(self).initialized,
            !old(self).initialized ==> r is None && *final(self) == *old(self),
            old(self).initialized && old(self).action_queue@.len() > 0 ==> r == Some(
                old(self).action_queue@[0],
            ),
            old(self).initialized && r is None ==> final(self).action_queue@.len() == 0,
            final(self).recent_commands == old(self).recent_commands,
            stores_precede_emits(
                full_stream(r, final(self).action_queue@),
                old(self).action_queue@.len() as int,
            ),
            old(self).initialized ==> forall|idx: u64|
                old(self).applied_index < idx <= crate::raft::raft_commit_of(final(self).inner)
                    ==> (#[trigger] spec_table_lookup(old(self).recent_commands@, idx)
                    matches Some(cj) ==> spec_json_to_command(cj) matches Some(
                    CommandV::Apply { proposal_id, command },
                ) ==> action_delivered(
                    r,
                    final(self).action_queue@,
                    spec_apply_action(
                        old(self).id_spec(),
                        old(self).generation,
                        idx,
                        proposal_id,
                        command,
                    ),
                )),
    {
        if !self.initialized {
            return None;
        }
        self.maybe_sync_raft_members();
        let commit = raft_commit_index(&self.inner);
        let is_leader = match self.role() {
            NodeRole::Leader => true,
            _ => false,
        };
        if self.applied_index < commit && is_leader {
            // Tell followers about the new commit position without waiting
            // for the next scheduled heartbeat.
            let _ = raft_heartbeat(&mut self.inner);
        }
        let mut snapshot_requests: Vec<u64> = Vec::new();
        let ghost base_len = self.action_queue@.len() as int;
        loop
            invariant
                self.wf(),
                self.same_identity(old(self)),
                self.local_command_seqno == old(self).local_command_seqno,
                self.applied_index == old(self).applied_index,
                self.initialized == old(self).initialized,
                queue_extends(self.action_queue@, old(self).action_queue@),
                self.recent_commands == old(self).recent_commands,
                base_len == old(self).action_queue@.len() as int,
                stores_precede_emits(self.action_queue@, base_len),
                segment_has_emit(self.action_queue@, base_len)
                    ==> !crate::raft::raft_storage_pending(self.inner),
                forall|i: int|
                    base_len <= i < self.action_queue@.len() ==> !(((
                    #[trigger] self.action_queue@[i])@) is Apply),
            decreases crate::raft::raft_pending_actions(self.inner),
        {
            let step = raft_next_action(&mut self.inner);
            match step {
                None => {
                    break;
                },
                Some(RaftStep::SetElectionTimeout) => {
                    let role = self.role();
                    self.push_action(Action::SetTimeout(role));
                },
                Some(RaftStep::SaveCurrentTerm) => {
                    let term = self.current_term();
                    self.push_action(
                        Action::AppendStorageEntry(StorageEntry::Term(term).to_json()),
                    );
                },
                Some(RaftStep::SaveVotedFor) => {
                    let voted_for = self.voted_for();
                    self.push_action(
                        Action::AppendStorageEntry(StorageEntry::VotedFor(voted_for).to_json()),
                    );
                },
                Some(RaftStep::Broadcast(m)) => {
                    let value = self.encode_raft_message(m);
                    self.push_action(Action::BroadcastMessage(value));
                },
                Some(RaftStep::AppendEntries(run)) => {
                    let value = self.encode_log_entries(&run);
                    self.push_action(Action::AppendStorageEntry(value));
                },
                Some(RaftStep::Send(dst, m)) => {
                    let value = self.encode_raft_message(m);
                    self.push_action(Action::SendMessage(dst, value));
                },
                Some(RaftStep::InstallSnapshot(dst)) => {
                    snapshot_requests.push(dst);
                },
            }
        }
        let ghost q_after_drain = self.action_queue@;
        self.emit_commit_actions();
        proof {
            assert forall|i: int, j: int|
                base_len <= i < j < self.action_queue@.len() && (((
                #[trigger] self.action_queue@[i])@ is BroadcastMessage) || (
                self.action_queue@[i]@ is SendMessage) || (self.action_queue@[i]@
                    is Apply)) implies !(((#[trigger] self.action_queue@[j])@)
                is AppendStorageEntry) by {
                if j < q_after_drain.len() {
                    assert(self.action_queue@[i] == q_after_drain[i]);
                    assert(self.action_queue@[j] == q_after_drain[j]);
                }
            }
        }
        let ghost q_after_commit = self.action_queue@;
        let ghost inner_after_commit = self.inner;
        self.emit_query_actions();
        proof {
            assert forall|i: int, j: int|
                base_len <= i < j < self.action_queue@.len() && (((
                #[trigger] self.action_queue@[i])@ is BroadcastMessage) || (
                self.action_queue@[i]@ is SendMessage) || (self.action_queue@[i]@
                    is Apply)) implies !(((#[trigger] self.action_queue@[j])@)
                is AppendStorageEntry) by {
                if j < q_after_commit.len() {
                    assert(self.action_queue@[i] == q_after_commit[i]);
                    assert(self.action_queue@[j] == q_after_commit[j]);
                }
            }
        }
        let mut k: usize = 0;
        while k < snapshot_requests.len()
            invariant
                self.wf(),
                self.same_identity(old(self)),
                self.local_command_seqno == old(self).local_command_seqno,
                self.applied_index >= old(self).applied_index,
                self.initialized == old(self).initialized,
                queue_extends(self.action_queue@, old(self).action_queue@),
                queue_extends(self.action_queue@, q_after_commit),
                self.inner == inner_after_commit,
                self.recent_commands == old(self).recent_commands,
                base_len == old(self).action_queue@.len() as int,
                stores_precede_emits(self.action_queue@, base_len),
                0 <= k <= snapshot_requests@.len(),
            decreases snapshot_requests@.len() - k,
        {
            let ghost q_prev = self.action_queue@;
            self.push_action(Action::SendSnapshot(snapshot_requests[k]));
            proof {
                assert forall|i: int, j: int|
                    base_len <= i < j < self.action_queue@.len() && (((
                    #[trigger] self.action_queue@[i])@ is BroadcastMessage) || (
                    self.action_queue@[i]@ is SendMessage) || (self.action_queue@[i]@
                        is Apply)) implies !(((#[trigger] self.action_queue@[j])@)
                    is AppendStorageEntry) by {
                    if j < q_prev.len() {
                        assert(self.action_queue@[i] == q_prev[i]);
                        assert(self.action_queue@[j] == q_prev[j]);
                    }
                }
            }
            k += 1;
        }
        let ghost q_pre_pop = self.action_queue@;
        let out = self.action_queue.pop_front();
        proof {
            assert(full_stream(out, self.action_queue@) =~= q_pre_pop);
        }
        proof {
            assert forall|idx: u64|
                old(self).applied_index < idx <= crate::raft::raft_commit_of(self.inner)
                    implies (#[trigger] spec_table_lookup(old(self).recent_commands@, idx)
                    matches Some(cj) ==> spec_json_to_command(cj) matches Some(
                    CommandV::Apply { proposal_id, command },
                ) ==> action_delivered(
                    out,
                    self.action_queue@,
                    spec_apply_action(
                        old(self).id_spec(),
                        old(self).generation,
                        idx,
                        proposal_id,
                        command,
                    ),
                )) by {
                match spec_table_lookup(old(self).recent_commands@, idx) {
                    Some(cj) => {
                        match spec_json_to_command(cj) {
                            Some(CommandV::Apply { proposal_id, command }) => {
                                let a = spec_apply_action(
                                    old(self).id_spec(),
                                    old(self).generation,
                                    idx,
                                    proposal_id,
                                    command,
                                );
                                assert(queue_holds(view_queue(q_after_commit), a));
                                lemma_queue_holds_extends(q_after_commit, q_pre_pop, a);
                                let w = choose|w: int|
                                    0 <= w < view_queue(q_pre_pop).len() && view_queue(
                                        q_pre_pop,
                                    )[w] == a;
                                if w == 0 {
                                    assert(out == Some(q_pre_pop[0]));
                                    assert(q_pre_pop[0]@ == a);
                                } else {
                                    assert(self.action_queue@[w - 1] == q_pre_pop[w]);
                                    assert(view_queue(self.action_queue@)[w - 1] == a);
                                    assert(queue_holds(view_queue(self.action_queue@), a));
                                }
                            },
                            _ => {},
                        }
                    },
                    None => {},
                }
            }
        }
        out
    }

    /// The primitive accepts covering its log up to `index` with a
    /// snapshot taken from its own log at that index: the index must lie
    /// within the log, the term there must not pass the current term, and
    /// an index past the commit index is taken only by a non-leader.
    pub open spec fn snapshot_accepted_at(n: RaftInner, index: u64) -> bool {
        &&& crate::raft::raft_term_at(n, index) is Some
        &&& crate::raft::raft_term_at(n, index)->Some_0 <= crate::raft::raft_term_of(n)
        &&& (crate::raft::raft_commit_of(n) < index ==> !crate::raft::raft_is_leader(n))
    }

    /// Tells the primitive that the log up to `index` is covered by a
    /// snapshot and drops the retained payloads at or below it.  The call
    /// succeeds exactly when the index is at most the applied index and
    /// the primitive accepts the cover; on success every retained key at
    /// or below `index` is gone and every one above it is kept unchanged,
    /// and on refusal nothing changes.
    #[verifier::spinoff_prover]
    #[verifier::rlimit(100)]
    pub fn strip_memory_log(&mut self, index: u64) -> (r: bool)
        requires
            old(self).wf(),
        ensures
            final(self).wf(),
            final(self).same_identity(old(self)),
            final(self).local_command_seqno == old(self).local_command_seqno,
            final(self).applied_index == old(self).applied_index,
            final(self).initialized == old(self).initialized,
            r == (index <= old(self).applied_index && Self::snapshot_accepted_at(
                old(self).inner,
                index,
            )),
            !r ==> *final(self) == *old(self),
            r ==> table_retains_above(
                old(self).recent_commands@,
                final(self).recent_commands@,
                index,
            ),
    {
        if index > self.applied_index {
            return false;
        }
        let found = crate::raft::raft_position_and_config(&self.inner, index);
        let (term, config) = match found {
            Some((term, _, config)) => (term, config),
            None => {
                return false;
            },
        };
        if !crate::raft::raft_handle_snapshot_installed(&mut self.inner, term, index, config) {
            return false;
        }
        table_trim_through(&mut self.recent_commands, index);
        true
    }

    /// Materialises a snapshot of everything up to the applied index: one
    /// value that fully describes position, node state, configuration,
    /// learnt members, the opaque user machine, and the log entries past
    /// the applied index.  Succeeds exactly when asked at the applied
    /// index, which must equal the commit index and lie within the log.
    #[verifier::spinoff_prover]
    #[verifier::rlimit(100)]
    pub fn create_snapshot(&self, applied_index: u64, user_machine: &Json) -> (r: Option<Json>)
        requires
            self.wf(),
        ensures
            r is Some <==> (applied_index == self.applied_index
                && crate::raft::raft_commit_of(self.inner) == self.applied_index
                && crate::raft::raft_term_at(self.inner, applied_index) is Some),
            r matches Some(j) ==> ({
                let position_term = crate::raft::raft_term_at(self.inner, applied_index)->Some_0;
                let rep = crate::raft::raft_config_rep_at(self.inner, applied_index)->Some_0;
                &&& spec_get(j@, ("type").spec_bytes()) == Some(
                    JsonV::Str(("InstallSnapshotRpc").spec_bytes()),
                )
                &&& spec_get(j@, ("from").spec_bytes()) == Some(JsonV::Num(self.id_spec()))
                &&& spec_get(j@, ("term").spec_bytes()) == Some(
                    JsonV::Num(crate::raft::raft_term_of(self.inner)),
                )
                &&& spec_get(j@, ("position").spec_bytes()) == Some(
                    JsonV::Obj(
                        seq![
                            (("term").spec_bytes(), JsonV::Num(position_term)),
                            (("index").spec_bytes(), JsonV::Num(applied_index)),
                        ],
                    ),
                )
                &&& spec_get(j@, ("node_state").spec_bytes()) == Some(
                    JsonV::Obj(
                        seq![
                            (("node_id").spec_bytes(), JsonV::Num(self.id_spec())),
                            (("term").spec_bytes(), JsonV::Num(crate::raft::raft_term_of(self.inner))),
                            (
                                ("voted_for").spec_bytes(),
                                match crate::raft::raft_vote_of(self.inner) {
                                    Some(v) => JsonV::Num(v),
                                    None => JsonV::Null,
                                },
                            ),
                        ],
                    ),
                )
                &&& spec_get(j@, ("config").spec_bytes()) == Some(
                    JsonV::Obj(
                        seq![
                            (("voters").spec_bytes(), JsonV::Arr(crate::codec::spec_nums(rep.0))),
                            (
                                ("new_voters").spec_bytes(),
                                JsonV::Arr(crate::codec::spec_nums(rep.1)),
                            ),
                        ],
                    ),
                )
                &&& spec_get(j@, ("user_machine").spec_bytes()) == Some(user_machine@)
                &&& spec_get(j@, ("machine").spec_bytes()) == Some(
                    JsonV::Obj(
                        seq![
                            (
                                ("nodes").spec_bytes(),
                                JsonV::Arr(crate::codec::spec_nums(self.machine_nodes@)),
                            ),
                        ],
                    ),
                )
                &&& spec_get(j@, ("log_entries").spec_bytes()) == Some(
                    JsonV::Arr(
                        crate::codec::spec_entries_to_json(
                            spec_log_suffix(
                                crate::raft::raft_log_prev(self.inner),
                                crate::raft::raft_log_list(self.inner),
                                self.recent_commands@,
                                applied_index,
                            ),
                        ),
                    ),
                )
            }),
    {
        if applied_index != self.applied_index {
            return None;
        }
        let commit = raft_commit_index(&self.inner);
        if commit != self.applied_index {
            return None;
        }
        let found = crate::raft::raft_position_and_config(&self.inner, self.applied_index);
        let (position_term, position_index, config) = match found {
            Some(f) => f,
            None => {
                return None;
            },
        };
        let voters = crate::raft::config_voters(&config);
        let new_voters = crate::raft::config_new_voters(&config);
        let run = crate::raft::raft_log_entries_clone(&self.inner);
        let ghost lprev = crate::raft::raft_log_prev(self.inner);
        let ghost llist = crate::raft::raft_log_list(self.inner);
        let ghost table = self.recent_commands@;
        let ghost k0: int = if applied_index <= lprev.1 {
            0
        } else {
            applied_index - lprev.1
        };
        let (prev_position, converted) = self.entries_from_raft(&run);
        proof {
            assert(crate::codec::view_entries(converted@).len() == converted@.len());
        }
        let mut suffix: Vec<LogEntry> = Vec::new();
        let mut i: usize = 0;
        proof {
            assert(crate::codec::view_entries(suffix@) =~= Seq::<
                crate::codec::LogEntryV,
            >::empty());
        }
        while i < converted.len()
            invariant
                0 <= i <= converted@.len(),
                converted@.len() == llist.len(),
                lprev.1 + llist.len() <= u64::MAX,
                prev_position.index == lprev.1,
                k0 == (if applied_index <= lprev.1 {
                    0int
                } else {
                    applied_index - lprev.1
                }),
                crate::codec::view_entries(converted@) == Seq::new(
                    llist.len(),
                    |m: int| spec_wire_entry(llist[m], ((lprev.1 + m + 1) as u64), table),
                ),
                crate::codec::view_entries(suffix@) == (if i <= k0 {
                    Seq::<crate::codec::LogEntryV>::empty()
                } else {
                    Seq::new(
                        (i - k0) as nat,
                        |m: int| spec_wire_entry(
                            llist[k0 + m],
                            ((lprev.1 + k0 + m + 1) as u64),
                            table,
                        ),
                    )
                }),
            decreases converted@.len() - i,
        {
            let index = checked_entry_index(prev_position.index, i);
            let ghost prevsuf = suffix@;
            if index > applied_index {
                proof {
                    assert(i >= k0);
                }
                suffix.push(log_entry_clone(&converted, i));
                proof {
                    assert(crate::codec::view_entries(converted@)[i as int]
                        == spec_wire_entry(
                        llist[i as int],
                        ((lprev.1 + i + 1) as u64),
                        table,
                    ));
                    assert forall|m: int| 0 <= m < i + 1 - k0 implies
                        #[trigger] crate::codec::view_entries(suffix@)[m] == spec_wire_entry(
                        llist[k0 + m],
                        ((lprev.1 + k0 + m + 1) as u64),
                        table,
                    ) by {
                        assert(crate::codec::view_entries(suffix@)[m] == suffix@[m]@);
                        if m < i - k0 {
                            assert(suffix@[m] == prevsuf[m]);
                            assert(crate::codec::view_entries(prevsuf)[m] == prevsuf[m]@);
                        } else {
                            assert(suffix@[m]@ == converted@[i as int]@);
                            assert(crate::codec::view_entries(converted@)[i as int]
                                == converted@[i as int]@);
                        }
                    }
                    assert(crate::codec::view_entries(suffix@) =~= Seq::new(
                        (i + 1 - k0) as nat,
                        |m: int| spec_wire_entry(
                            llist[k0 + m],
                            ((lprev.1 + k0 + m + 1) as u64),
                            table,
                        ),
                    ));
                }
            } else {
                proof {
                    assert(i < k0);
                }
            }
            i += 1;
        }
        proof {
            assert(crate::codec::view_entries(suffix@) == spec_log_suffix(
                lprev,
                llist,
                table,
                applied_index,
            )) by {
                if llist.len() <= k0 {
                    assert(crate::codec::view_entries(suffix@) =~= Seq::<
                        crate::codec::LogEntryV,
                    >::empty());
                }
            }
        }
        let mut node_state = crate::json::ObjBuilder::new();
        node_state.member("node_id", Json::Num(self.id()));
        node_state.member("term", Json::Num(self.current_term()));
        node_state.member(
            "voted_for",
            match self.voted_for() {
                Some(v) => Json::Num(v),
                None => Json::Null,
            },
        );
        let node_state_json = node_state.build();
        let mut config_obj = crate::json::ObjBuilder::new();
        config_obj.member("voters", crate::codec::nums_to_json(&voters));
        config_obj.member("new_voters", crate::codec::nums_to_json(&new_voters));
        let config_json = config_obj.build();
        let mut machine_obj = crate::json::ObjBuilder::new();
        machine_obj.member("nodes", crate::codec::nums_to_json(&self.machine_nodes));
        let machine_json = machine_obj.build();
        let mut position_obj = crate::json::ObjBuilder::new();
        position_obj.member("term", Json::Num(position_term));
        position_obj.member("index", Json::Num(position_index));
        let position_json = position_obj.build();
        proof {
            assert(position_json@ == JsonV::Obj(
                seq![
                    (("term").spec_bytes(), JsonV::Num(position_term)),
                    (("index").spec_bytes(), JsonV::Num(position_index)),
                ],
            )) by {
                assert(position_json@->Obj_0 =~= seq![
                    (("term").spec_bytes(), JsonV::Num(position_term)),
                    (("index").spec_bytes(), JsonV::Num(position_index)),
                ]);
            }
            assert(node_state_json@ == JsonV::Obj(
                seq![
                    (("node_id").spec_bytes(), JsonV::Num(self.id_spec())),
                    (("term").spec_bytes(), JsonV::Num(crate::raft::raft_term_of(self.inner))),
                    (
                        ("voted_for").spec_bytes(),
                        match crate::raft::raft_vote_of(self.inner) {
                            Some(v) => JsonV::Num(v),
                            None => JsonV::Null,
                        },
                    ),
                ],
            )) by {
                assert(node_state_json@->Obj_0 =~= seq![
                    (("node_id").spec_bytes(), JsonV::Num(self.id_spec())),
                    (("term").spec_bytes(), JsonV::Num(crate::raft::raft_term_of(self.inner))),
                    (
                        ("voted_for").spec_bytes(),
                        match crate::raft::raft_vote_of(self.inner) {
                            Some(v) => JsonV::Num(v),
                            None => JsonV::Null,
                        },
                    ),
                ]);
            }
            assert(config_json@ == JsonV::Obj(
                seq![
                    (("voters").spec_bytes(), JsonV::Arr(crate::codec::spec_nums(voters@))),
                    (
                        ("new_voters").spec_bytes(),
                        JsonV::Arr(crate::codec::spec_nums(new_voters@)),
                    ),
                ],
            )) by {
                assert(config_json@->Obj_0 =~= seq![
                    (("voters").spec_bytes(), JsonV::Arr(crate::codec::spec_nums(voters@))),
                    (
                        ("new_voters").spec_bytes(),
                        JsonV::Arr(crate::codec::spec_nums(new_voters@)),
                    ),
                ]);
            }
            assert(machine_json@ == JsonV::Obj(
                seq![
                    (
                        ("nodes").spec_bytes(),
                        JsonV::Arr(crate::codec::spec_nums(self.machine_nodes@)),
                    ),
                ],
            )) by {
                assert(machine_json@->Obj_0 =~= seq![
                    (
                        ("nodes").spec_bytes(),
                        JsonV::Arr(crate::codec::spec_nums(self.machine_nodes@)),
                    ),
                ]);
            }
        }
        let mut b = crate::json::ObjBuilder::new();
        b.member("type", Json::str_of("InstallSnapshotRpc"));
        b.member("from", Json::Num(self.id()));
        b.member("term", Json::Num(self.current_term()));
        b.member("position", position_json);
        b.member("node_state", node_state_json);
        b.member("config", config_json);
        b.member("user_machine", user_machine.deep_clone());
        b.member("machine", machine_json);
        b.member("log_entries", crate::codec::entries_to_json(&suffix));
        let result = b.build();
        proof {
            crate::codec::lemma_bytes_type();
            crate::codec::lemma_bytes_user_machine();
            crate::codec::lemma_bytes_from();
            crate::codec::lemma_bytes_term();
            crate::codec::lemma_bytes_position();
            crate::codec::lemma_bytes_node_state();
            crate::codec::lemma_bytes_config();
            crate::codec::lemma_bytes_machine();
            crate::codec::lemma_bytes_log_entries();
            crate::codec::lemma_bytes_tag_installsnapshotrpc();
            reveal_with_fuel(crate::json::spec_obj_get, 10);
            let ms = crate::json::spec_members(result@);
            crate::codec::lemma_bytes_ne(("type").spec_bytes(), ("from").spec_bytes(), 0);
            crate::codec::lemma_bytes_ne(("type").spec_bytes(), ("term").spec_bytes(), 1);
            crate::codec::lemma_bytes_ne(("from").spec_bytes(), ("term").spec_bytes(), 0);
            crate::codec::lemma_bytes_ne(("type").spec_bytes(), ("position").spec_bytes(), 0);
            crate::codec::lemma_bytes_ne(("from").spec_bytes(), ("position").spec_bytes(), 0);
            crate::codec::lemma_bytes_ne(("term").spec_bytes(), ("position").spec_bytes(), 0);
            crate::codec::lemma_bytes_ne(("type").spec_bytes(), ("node_state").spec_bytes(), 0);
            crate::codec::lemma_bytes_ne(("from").spec_bytes(), ("node_state").spec_bytes(), 0);
            crate::codec::lemma_bytes_ne(("term").spec_bytes(), ("node_state").spec_bytes(), 0);
            crate::codec::lemma_bytes_ne(
                ("position").spec_bytes(),
                ("node_state").spec_bytes(),
                0,
            );
            crate::codec::lemma_bytes_ne(("type").spec_bytes(), ("config").spec_bytes(), 0);
            crate::codec::lemma_bytes_ne(("from").spec_bytes(), ("config").spec_bytes(), 0);
            crate::codec::lemma_bytes_ne(("term").spec_bytes(), ("config").spec_bytes(), 0);
            crate::codec::lemma_bytes_ne(("position").spec_bytes(), ("config").spec_bytes(), 0);
            crate::codec::lemma_bytes_ne(
                ("node_state").spec_bytes(),
                ("config").spec_bytes(),
                0,
            );
            crate::codec::lemma_bytes_ne(("type").spec_bytes(), ("user_machine").spec_bytes(), 0);
            crate::codec::lemma_bytes_ne(("from").spec_bytes(), ("user_machine").spec_bytes(), 0);
            crate::codec::lemma_bytes_ne(("term").spec_bytes(), ("user_machine").spec_bytes(), 0);
            crate::codec::lemma_bytes_ne(
                ("position").spec_bytes(),
                ("user_machine").spec_bytes(),
                0,
            );
            crate::codec::lemma_bytes_ne(
                ("node_state").spec_bytes(),
                ("user_machine").spec_bytes(),
                0,
            );
            crate::codec::lemma_bytes_ne(
                ("config").spec_bytes(),
                ("user_machine").spec_bytes(),
                0,
            );
            crate::codec::lemma_bytes_ne(("type").spec_bytes(), ("machine").spec_bytes(), 0);
            crate::codec::lemma_bytes_ne(("from").spec_bytes(), ("machine").spec_bytes(), 0);
            crate::codec::lemma_bytes_ne(("term").spec_bytes(), ("machine").spec_bytes(), 0);
            crate::codec::lemma_bytes_ne(("position").spec_bytes(), ("machine").spec_bytes(), 0);
            crate::codec::lemma_bytes_ne(
                ("node_state").spec_bytes(),
                ("machine").spec_bytes(),
                0,
            );
            crate::codec::lemma_bytes_ne(("config").spec_bytes(), ("machine").spec_bytes(), 0);
            crate::codec::lemma_bytes_ne(
                ("user_machine").spec_bytes(),
                ("machine").spec_bytes(),
                0,
            );
            crate::codec::lemma_bytes_ne(("type").spec_bytes(), ("log_entries").spec_bytes(), 0);
            crate::codec::lemma_bytes_ne(("from").spec_bytes(), ("log_entries").spec_bytes(), 0);
            crate::codec::lemma_bytes_ne(("term").spec_bytes(), ("log_entries").spec_bytes(), 0);
            crate::codec::lemma_bytes_ne(
                ("position").spec_bytes(),
                ("log_entries").spec_bytes(),
                0,
            );
            crate::codec::lemma_bytes_ne(
                ("node_state").spec_bytes(),
                ("log_entries").spec_bytes(),
                0,
            );
            crate::codec::lemma_bytes_ne(
                ("config").spec_bytes(),
                ("log_entries").spec_bytes(),
                0,
            );
            crate::codec::lemma_bytes_ne(
                ("user_machine").spec_bytes(),
                ("log_entries").spec_bytes(),
                0,
            );
            crate::codec::lemma_bytes_ne(
                ("machine").spec_bytes(),
                ("log_entries").spec_bytes(),
                0,
            );
            crate::codec::lemma_obj_get_at(ms, ("type").spec_bytes(), 0);
            crate::codec::lemma_obj_get_at(ms, ("from").spec_bytes(), 1);
            crate::codec::lemma_obj_get_at(ms, ("term").spec_bytes(), 2);
            crate::codec::lemma_obj_get_at(ms, ("position").spec_bytes(), 3);
            crate::codec::lemma_obj_get_at(ms, ("node_state").spec_bytes(), 4);
            crate::codec::lemma_obj_get_at(ms, ("config").spec_bytes(), 5);
            crate::codec::lemma_obj_get_at(ms, ("user_machine").spec_bytes(), 6);
            crate::codec::lemma_obj_get_at(ms, ("machine").spec_bytes(), 7);
            crate::codec::lemma_obj_get_at(ms, ("log_entries").spec_bytes(), 8);
        }
        Some(result)
    }
}

/// The index of the entry at offset `i` past `prev_index`; the last
/// representable index stands in when the position would pass it.
fn checked_entry_index(prev_index: u64, i: usize) -> (r: u64)
    ensures
        prev_index + i < u64::MAX ==> r == prev_index + i + 1,
        prev_index + i >= u64::MAX ==> r == u64::MAX,
{
    if (i as u64) < u64::MAX - prev_index {
        prev_index + (i as u64) + 1
    } else {
        u64::MAX
    }
}

/// The wire form of one primitive log entry at index `idx`: a term
/// marker, a configuration, or a command carrying its retained payload —
/// null when the payload is unknown or trimmed.
pub open spec fn spec_wire_entry(
    e: (u64, u64, Seq<u64>, Seq<u64>),
    idx: u64,
    table: Seq<(u64, Json)>,
) -> crate::codec::LogEntryV {
    if e.0 == 0 {
        crate::codec::LogEntryV::Term(e.1)
    } else if e.0 == 1 {
        crate::codec::LogEntryV::ClusterConfig { voters: e.2, new_voters: e.3 }
    } else {
        crate::codec::LogEntryV::Command(
            match spec_table_lookup(table, idx) {
                Some(v) => v,
                None => JsonV::Null,
            },
        )
    }
}

/// The wire entries of the log past the index `applied`, each command
/// carrying its retained payload.
pub open spec fn spec_log_suffix(
    prev: (u64, u64),
    list: Seq<(u64, u64, Seq<u64>, Seq<u64>)>,
    table: Seq<(u64, Json)>,
    applied: u64,
) -> Seq<crate::codec::LogEntryV> {
    let k0: int = if applied <= prev.1 {
        0
    } else {
        applied - prev.1
    };
    if list.len() <= k0 {
        Seq::empty()
    } else {
        Seq::new(
            (list.len() - k0) as nat,
            |m: int| spec_wire_entry(list[k0 + m], ((prev.1 + k0 + m + 1) as u64), table),
        )
    }
}

/// A copy of the entry at one slot.
fn log_entry_clone(entries: &Vec<LogEntry>, i: usize) -> (r: LogEntry)
    requires
        i < entries@.len(),
    ensures
        r@ == entries@[i as int]@,
{
    match &entries[i] {
        LogEntry::Term(t) => LogEntry::Term(*t),
        LogEntry::ClusterConfig { voters, new_voters } => {
            let mut v: Vec<u64> = Vec::new();
            let mut k: usize = 0;
            while k < voters.len()
                invariant
                    0 <= k <= voters@.len(),
                    v@ == voters@.take(k as int),
                decreases voters@.len() - k,
            {
                v.push(voters[k]);
                assert(v@ =~= voters@.take(k + 1));
                k += 1;
            }
            let mut nv: Vec<u64> = Vec::new();
            let mut m: usize = 0;
            while m < new_voters.len()
                invariant
                    0 <= m <= new_voters@.len(),
                    nv@ == new_voters@.take(m as int),
                decreases new_voters@.len() - m,
            {
                nv.push(new_voters[m]);
                assert(nv@ =~= new_voters@.take(m + 1));
                m += 1;
            }
            proof {
                assert(voters@.take(voters@.len() as int) =~= voters@);
                assert(new_voters@.take(new_voters@.len() as int) =~= new_voters@);
            }
            LogEntry::ClusterConfig { voters: v, new_voters: nv }
        },
        LogEntry::Command(payload) => LogEntry::Command(payload.deep_clone()),
    }
}


/// What a journal scan tracks of the state it will restore.
#[verifier::ext_equal]
pub struct LoadStateV {
    /// The highest incarnation counter seen.
    pub last_generation: u64,
    /// The voters of the configuration in force at the end of the scan.
    pub voters: Seq<u64>,
    /// The new voters of that configuration, when it is joint.
    pub new_voters: Seq<u64>,
    /// The index the snapshot, if any, was taken at.
    pub applied_index: u64,
    /// The user machine the snapshot, if any, carried.
    pub user_machine: Option<JsonV>,
}

/// The scan state before any journal line.
pub open spec fn spec_load_init() -> LoadStateV {
    LoadStateV {
        last_generation: 0,
        voters: Seq::empty(),
        new_voters: Seq::empty(),
        applied_index: 0,
        user_machine: None,
    }
}

/// The configuration in force after a run of entries: the last
/// configuration entry of the run wins.
pub open spec fn spec_config_after(
    entries: Seq<crate::codec::LogEntryV>,
    voters: Seq<u64>,
    new_voters: Seq<u64>,
) -> (Seq<u64>, Seq<u64>)
    decreases entries.len(),
{
    if entries.len() == 0 {
        (voters, new_voters)
    } else {
        match entries[0] {
            crate::codec::LogEntryV::ClusterConfig { voters: v, new_voters: nv } =>
                spec_config_after(entries.skip(1), v, nv),
            _ => spec_config_after(entries.skip(1), voters, new_voters),
        }
    }
}

/// Reads one journal line into the scan state.  A line without a string
/// `type`, or with an unknown one, is skipped; a recognised line with a
/// malformed body fails the whole load.
pub open spec fn spec_load_step(st: LoadStateV, j: JsonV) -> Option<LoadStateV> {
    match spec_get(j, ("type").spec_bytes()) {
        Some(JsonV::Str(tag)) => {
            if tag == ("NodeGeneration").spec_bytes() {
                match crate::codec::spec_get_num(j, ("generation").spec_bytes()) {
                    Some(g) => Some(LoadStateV { last_generation: g, ..st }),
                    None => None,
                }
            } else if tag == ("Term").spec_bytes() {
                match crate::codec::spec_get_num(j, ("term").spec_bytes()) {
                    Some(_) => Some(st),
                    None => None,
                }
            } else if tag == ("VotedFor").spec_bytes() {
                match spec_get(j, ("node_id").spec_bytes()) {
                    Some(JsonV::Num(_)) => Some(st),
                    Some(JsonV::Null) => Some(st),
                    Some(_) => None,
                    None => Some(st),
                }
            } else if tag == ("LogEntries").spec_bytes() {
                match (
                    crate::codec::spec_get_num(j, ("term").spec_bytes()),
                    crate::codec::spec_get_num(j, ("index").spec_bytes()),
                    spec_get(j, ("entries").spec_bytes()),
                ) {
                    (Some(_), Some(prev_index), Some(JsonV::Arr(items))) => {
                        if prev_index == u64::MAX {
                            // No position past this one is representable, so
                            // a log starting here could never be extended; a
                            // journal recording it is malformed.
                            None
                        } else {
                            match crate::codec::spec_json_to_entries(items) {
                                Some(es) => {
                                    let (voters, new_voters) = spec_config_after(
                                        es,
                                        st.voters,
                                        st.new_voters,
                                    );
                                    Some(LoadStateV { voters, new_voters, ..st })
                                },
                                None => None,
                            }
                        }
                    },
                    _ => None,
                }
            } else if tag == ("InstallSnapshotRpc").spec_bytes() {
                spec_snapshot_step(st, j)
            } else {
                Some(st)
            }
        },
        Some(_) => Some(st),
        None => Some(st),
    }
}

/// Reads a snapshot line: it replaces configuration, applied index and
/// user machine, and appends its log-entry suffix.
pub open spec fn spec_snapshot_step(st: LoadStateV, j: JsonV) -> Option<LoadStateV> {
    match (
        spec_get(j, ("position").spec_bytes()),
        spec_get(j, ("config").spec_bytes()),
        spec_get(j, ("machine").spec_bytes()),
        spec_get(j, ("node_state").spec_bytes()),
        spec_get(j, ("user_machine").spec_bytes()),
        spec_get(j, ("log_entries").spec_bytes()),
    ) {
        (
            Some(position),
            Some(config),
            Some(machine),
            Some(node_state),
            Some(um),
            Some(JsonV::Arr(suffix)),
        ) => {
            match (
                crate::codec::spec_get_num(position, ("index").spec_bytes()),
                crate::codec::spec_get_num(position, ("term").spec_bytes()),
                spec_get(config, ("voters").spec_bytes()),
                spec_get(config, ("new_voters").spec_bytes()),
                spec_get(machine, ("nodes").spec_bytes()),
                crate::codec::spec_get_num(node_state, ("term").spec_bytes()),
            ) {
                (
                    Some(index),
                    Some(_),
                    Some(JsonV::Arr(vs)),
                    Some(JsonV::Arr(nvs)),
                    Some(JsonV::Arr(nodes)),
                    Some(_),
                ) => if index == u64::MAX {
                    // No position past this one is representable, so a log
                    // restored behind it could never be extended; such a
                    // snapshot is malformed.
                    None
                } else {
                    let voted_ok = match spec_get(node_state, ("voted_for").spec_bytes()) {
                        Some(JsonV::Num(_)) => true,
                        Some(JsonV::Null) => true,
                        Some(_) => false,
                        None => true,
                    };
                    match (
                        crate::codec::spec_json_to_nums(vs),
                        crate::codec::spec_json_to_nums(nvs),
                        crate::codec::spec_json_to_nums(nodes),
                        crate::codec::spec_json_to_entries(suffix),
                    ) {
                        (Some(voters), Some(new_voters), Some(_), Some(es)) => {
                            if voted_ok {
                                let (voters2, new_voters2) = spec_config_after(
                                    es,
                                    voters,
                                    new_voters,
                                );
                                Some(
                                    LoadStateV {
                                        last_generation: st.last_generation,
                                        voters: voters2,
                                        new_voters: new_voters2,
                                        applied_index: index,
                                        user_machine: Some(um),
                                    },
                                )
                            } else {
                                None
                            }
                        },
                        _ => None,
                    }
                },
                _ => None,
            }
        },
        _ => None,
    }
}

/// Scans a journal front to back.
pub open spec fn spec_load_fold(st: LoadStateV, s: Seq<JsonV>) -> Option<LoadStateV>
    decreases s.len(),
{
    if s.len() == 0 {
        Some(st)
    } else {
        match spec_load_step(st, s[0]) {
            Some(next) => spec_load_fold(next, s.skip(1)),
            None => None,
        }
    }
}

/// Scanning one more line continues the fold.
pub proof fn lemma_load_fold_snoc(st: LoadStateV, s: Seq<JsonV>, x: JsonV)
    ensures
        spec_load_fold(st, s.push(x)) == match spec_load_fold(st, s) {
            Some(mid) => spec_load_step(mid, x),
            None => None,
        },
    decreases s.len(),
{
    reveal_with_fuel(spec_load_fold, 3);
    if s.len() == 0 {
        assert(s.push(x).skip(1) =~= Seq::<JsonV>::empty());
    } else {
        assert(s.push(x).skip(1) =~= s.skip(1).push(x));
        match spec_load_step(st, s[0]) {
            Some(next) => {
                lemma_load_fold_snoc(next, s.skip(1), x);
            },
            None => {},
        }
    }
}

/// An empty journal loads into the initial scan state: the load succeeds
/// and carries no user machine.
pub proof fn lemma_load_empty()
    ensures
        spec_load_fold(spec_load_init(), Seq::<JsonV>::empty()) == Some(spec_load_init()),
{
}



/// A fold that fails on a prefix fails on the whole journal.
pub proof fn lemma_load_fold_prefix_none(st: LoadStateV, s: Seq<JsonV>, k: int)
    requires
        0 <= k <= s.len(),
        spec_load_fold(st, s.take(k)) is None,
    ensures
        spec_load_fold(st, s) is None,
    decreases k,
{
    reveal_with_fuel(spec_load_fold, 2);
    assert(k > 0) by {
        if k == 0 {
            assert(s.take(0) =~= Seq::<JsonV>::empty());
        }
    }
    assert(s.take(k)[0] == s[0]);
    match spec_load_step(st, s[0]) {
        Some(next) => {
            assert(s.take(k).skip(1) =~= s.skip(1).take(k - 1));
            lemma_load_fold_prefix_none(next, s.skip(1), k - 1);
        },
        None => {},
    }
}


/// The generation a load assigns is fresh: strictly above every
/// generation the journal recorded, whenever the highest one seen leaves
/// room above it.
pub proof fn lemma_generation_fresh(st: LoadStateV)
    requires
        st.last_generation < u64::MAX,
    ensures
        st.last_generation + 1 > st.last_generation,
{
}

/// The mathematical form of an optional value.
pub open spec fn view_opt_json(o: Option<Json>) -> Option<JsonV> {
    match o {
        Some(j) => Some(j@),
        None => None,
    }
}

/// A copy of a list of identifiers.
fn clone_nums(v: &Vec<u64>) -> (r: Vec<u64>)
    ensures
        r@ == v@,
{
    let mut out: Vec<u64> = Vec::new();
    let mut i: usize = 0;
    while i < v.len()
        invariant
            0 <= i <= v@.len(),
            out@ == v@.take(i as int),
        decreases v@.len() - i,
    {
        out.push(v[i]);
        assert(out@ =~= v@.take(i + 1));
        i += 1;
    }
    assert(v@.take(v@.len() as int) =~= v@);
    out
}

/// Replays parsed log entries: pushes their tags into the primitive's run,
/// retains command payloads at their positions, and tracks the
/// configuration in force.
fn apply_parsed_entries(
    run: &mut RaftEntries,
    recent: &mut RecentCommands,
    voters: &mut Vec<u64>,
    new_voters: &mut Vec<u64>,
    es: &Vec<LogEntry>,
)
    requires
        table_sorted(old(recent)@),
    ensures
        table_sorted(final(recent)@),
        (final(voters)@, final(new_voters)@) == crate::node::spec_config_after(
            crate::codec::view_entries(es@),
            old(voters)@,
            old(new_voters)@,
        ),
        crate::raft::raft_entries_prev(*final(run)) == crate::raft::raft_entries_prev(*old(run)),
{
    broadcast use crate::json::lemma_view_arr;

    let ghost eview = crate::codec::view_entries(es@);
    let ghost target = spec_config_after(eview, voters@, new_voters@);
    let mut i: usize = 0;
    assert(eview.skip(0) =~= eview);
    while i < es.len()
        invariant
            table_sorted(recent@),
            0 <= i <= es@.len(),
            eview == crate::codec::view_entries(es@),
            eview.len() == es@.len(),
            target == spec_config_after(eview.skip(i as int), voters@, new_voters@),
            crate::raft::raft_entries_prev(*run) == crate::raft::raft_entries_prev(*old(run)),
        decreases es@.len() - i,
    {
        let ghost pre = eview.skip(i as int);
        assert(pre[0] == eview[i as int]);
        assert(pre.skip(1) =~= eview.skip(i + 1));
        let (_, prev_index) = raft_entries_prev_exec(run);
        let offset = raft_entries_len(run);
        let index = checked_entry_index(prev_index, offset);
        // Entries at or past the last representable position cannot be
        // placed in the log run, since the primitive's log could never be
        // extended there; only the configuration they carry is tracked.
        let placeable = (offset as u64) < u64::MAX - 1 && prev_index <= u64::MAX - 2 - (
        offset as u64);
        match &es[i] {
            LogEntry::Term(t) => {
                if placeable {
                    crate::raft::raft_entries_push_term(run, *t);
                }
            },
            LogEntry::ClusterConfig { voters: v, new_voters: nv } => {
                if placeable {
                    let sv = sorted_set_of(v);
                    let snv = sorted_set_of(nv);
                    crate::raft::raft_entries_push_config(run, &sv, &snv);
                }
                *voters = clone_nums(v);
                *new_voters = clone_nums(nv);
            },
            LogEntry::Command(payload) => {
                if placeable {
                    crate::raft::raft_entries_push_command(run);
                }
                table_insert(recent, index, payload.deep_clone());
            },
        }
        i += 1;
    }
    proof {
        assert(eview.skip(i as int) =~= Seq::<crate::codec::LogEntryV>::empty());
    }
}

impl Node {
    /// Replays a journal in order: snapshot lines reset log, configuration
    /// and applied index; generation, term, vote and log-entry lines update
    /// the corresponding state.  On success the node carries a fresh
    /// generation, one past the highest seen, and queues the journal write
    /// recording it; the snapshot's user machine, if one was read, is
    /// returned for the host to restore.  On a malformed recognised line,
    /// or a log position at the last representable index (behind which the
    /// log could never grow), nothing changes.
    pub fn load(&mut self, entries: &Vec<Json>) -> (r: (bool, Option<Json>))
        requires
            old(self).wf(),
        ensures
            final(self).wf(),
            r.0 == (spec_load_fold(spec_load_init(), crate::json::view_arr(entries@)) is Some),
            !r.0 ==> *final(self) == *old(self) && r.1 is None,
            r.0 ==> {
                let st = spec_load_fold(
                    spec_load_init(),
                    crate::json::view_arr(entries@),
                )->Some_0;
                &&& final(self).generation == (if st.last_generation == u64::MAX {
                    u64::MAX
                } else {
                    (st.last_generation + 1) as u64
                })
                &&& view_opt_json(r.1) == st.user_machine
                &&& final(self).applied_index == st.applied_index
                &&& final(self).initialized == (st.voters.len() > 0 || st.new_voters.len() > 0)
                &&& final(self).local_command_seqno == 0
                &&& final(self).pending_queries@.len() == 0
                &&& final(self).id_spec() == old(self).id_spec()
                &&& !final(self).dirty_members
                &&& view_queue(final(self).action_queue@) == view_queue(
                    old(self).action_queue@,
                ).push(
                    ActionV::AppendStorageEntry(
                        spec_storage_entry_to_json(
                            StorageEntry::NodeGeneration(final(self).generation),
                        ),
                    ),
                )
            },
    {
        broadcast use crate::json::lemma_view_arr;

        let ghost jview = crate::json::view_arr(entries@);
        let ghost st0 = spec_load_init();
        let mut last_generation: u64 = 0;
        let mut current_term: u64 = 0;
        let mut voted_for: Option<u64> = None;
        let mut voters: Vec<u64> = Vec::new();
        let mut new_voters: Vec<u64> = Vec::new();
        let mut machine: Vec<u64> = Vec::new();
        let mut run = crate::raft::raft_entries_new(0, 0);
        let mut recent: RecentCommands = Vec::new();
        let mut applied: u64 = 0;
        let mut user_machine: Option<Json> = None;
        let mut snapshot_loaded = false;
        let mut i: usize = 0;
        assert(jview.take(0) =~= Seq::<JsonV>::empty());
        while i < entries.len()
            invariant
                *self == *old(self),
                self.wf(),
                strict_sorted(machine@),
                table_sorted(recent@),
                0 <= i <= entries@.len(),
                jview == crate::json::view_arr(entries@),
                jview.len() == entries@.len(),
                spec_load_fold(st0, jview.take(i as int)) == Some(
                    LoadStateV {
                        last_generation: last_generation,
                        voters: voters@,
                        new_voters: new_voters@,
                        applied_index: applied,
                        user_machine: view_opt_json(user_machine),
                    },
                ),
                snapshot_loaded ==> crate::raft::raft_entries_prev(run).1 == applied,
                !snapshot_loaded ==> applied == 0,
            decreases entries@.len() - i,
        {
            let ghost mid = LoadStateV {
                last_generation: last_generation,
                voters: voters@,
                new_voters: new_voters@,
                applied_index: applied,
                user_machine: view_opt_json(user_machine),
            };
            proof {
                lemma_load_fold_snoc(st0, jview.take(i as int), jview[i as int]);
                assert(jview.take(i as int).push(jview[i as int]) =~= jview.take(i + 1));
            }
            let entry = &entries[i];
            assert(entry@ == jview[i as int]);
            let tag = entry.get("type");
            match tag {
                None => {},
                Some(tag) => {
                    if tag.is_str("NodeGeneration") {
                        match entry.get("generation") {
                            Some(g) => match g.as_u64() {
                                Some(g) => {
                                    last_generation = g;
                                },
                                None => {
                                    proof {
                                        lemma_load_fold_prefix_none(st0, jview, i + 1);
                                    }
                                    return (false, None);
                                },
                            },
                            None => {
                                proof {
                                    lemma_load_fold_prefix_none(st0, jview, i + 1);
                                }
                                return (false, None);
                            },
                        }
                    } else if tag.is_str("Term") {
                        match entry.get("term") {
                            Some(t) => match t.as_u64() {
                                Some(t) => {
                                    current_term = t;
                                },
                                None => {
                                    proof {
                                        lemma_load_fold_prefix_none(st0, jview, i + 1);
                                    }
                                    return (false, None);
                                },
                            },
                            None => {
                                proof {
                                    lemma_load_fold_prefix_none(st0, jview, i + 1);
                                }
                                return (false, None);
                            },
                        }
                    } else if tag.is_str("VotedFor") {
                        match entry.get("node_id") {
                            Some(v) => match v {
                                Json::Num(n) => {
                                    voted_for = Some(*n);
                                },
                                Json::Null => {
                                    voted_for = None;
                                },
                                _ => {
                                    proof {
                                        lemma_load_fold_prefix_none(st0, jview, i + 1);
                                    }
                                    return (false, None);
                                },
                            },
                            None => {},
                        }
                    } else if tag.is_str("LogEntries") {
                        let prev_term = match entry.get("term") {
                            Some(t) => match t.as_u64() {
                                Some(t) => t,
                                None => {
                                    proof {
                                        lemma_load_fold_prefix_none(st0, jview, i + 1);
                                    }
                                    return (false, None);
                                },
                            },
                            None => {
                                proof {
                                    lemma_load_fold_prefix_none(st0, jview, i + 1);
                                }
                                return (false, None);
                            },
                        };
                        let prev_index = match entry.get("index") {
                            Some(x) => match x.as_u64() {
                                Some(x) => x,
                                None => {
                                    proof {
                                        lemma_load_fold_prefix_none(st0, jview, i + 1);
                                    }
                                    return (false, None);
                                },
                            },
                            None => {
                                proof {
                                    lemma_load_fold_prefix_none(st0, jview, i + 1);
                                }
                                return (false, None);
                            },
                        };
                        let items = match entry.get("entries") {
                            Some(_) if prev_index == u64::MAX => {
                                // A log starting at the last representable
                                // position could never be extended; refuse
                                // the journal rather than restart there.
                                proof {
                                    lemma_load_fold_prefix_none(st0, jview, i + 1);
                                }
                                return (false, None);
                            },
                            Some(e) => match e.as_arr() {
                                Some(items) => items,
                                None => {
                                    proof {
                                        lemma_load_fold_prefix_none(st0, jview, i + 1);
                                    }
                                    return (false, None);
                                },
                            },
                            None => {
                                proof {
                                    lemma_load_fold_prefix_none(st0, jview, i + 1);
                                }
                                return (false, None);
                            },
                        };
                        let es = match crate::codec::json_to_log_entries(items) {
                            Some(es) => es,
                            None => {
                                proof {
                                    lemma_load_fold_prefix_none(st0, jview, i + 1);
                                }
                                return (false, None);
                            },
                        };
                        if !snapshot_loaded && raft_entries_len(&run) == 0 {
                            run = crate::raft::raft_entries_new(prev_term, prev_index);
                        }
                        apply_parsed_entries(
                            &mut run,
                            &mut recent,
                            &mut voters,
                            &mut new_voters,
                            &es,
                        );
                    } else if tag.is_str("InstallSnapshotRpc") {
                        let position = match entry.get("position") {
                            Some(p) => p,
                            None => {
                                proof {
                                    lemma_load_fold_prefix_none(st0, jview, i + 1);
                                }
                                return (false, None);
                            },
                        };
                        let config = match entry.get("config") {
                            Some(c) => c,
                            None => {
                                proof {
                                    lemma_load_fold_prefix_none(st0, jview, i + 1);
                                }
                                return (false, None);
                            },
                        };
                        let machine_json = match entry.get("machine") {
                            Some(m) => m,
                            None => {
                                proof {
                                    lemma_load_fold_prefix_none(st0, jview, i + 1);
                                }
                                return (false, None);
                            },
                        };
                        let node_state = match entry.get("node_state") {
                            Some(n) => n,
                            None => {
                                proof {
                                    lemma_load_fold_prefix_none(st0, jview, i + 1);
                                }
                                return (false, None);
                            },
                        };
                        let um = match entry.get("user_machine") {
                            Some(u) => u,
                            None => {
                                proof {
                                    lemma_load_fold_prefix_none(st0, jview, i + 1);
                                }
                                return (false, None);
                            },
                        };
                        let suffix_json = match entry.get("log_entries") {
                            Some(s) => match s.as_arr() {
                                Some(items) => items,
                                None => {
                                    proof {
                                        lemma_load_fold_prefix_none(st0, jview, i + 1);
                                    }
                                    return (false, None);
                                },
                            },
                            None => {
                                proof {
                                    lemma_load_fold_prefix_none(st0, jview, i + 1);
                                }
                                return (false, None);
                            },
                        };
                        let position_index = match position.get("index") {
                            Some(x) => match x.as_u64() {
                                Some(x) => x,
                                None => {
                                    proof {
                                        lemma_load_fold_prefix_none(st0, jview, i + 1);
                                    }
                                    return (false, None);
                                },
                            },
                            None => {
                                proof {
                                    lemma_load_fold_prefix_none(st0, jview, i + 1);
                                }
                                return (false, None);
                            },
                        };
                        let position_term = match position.get("term") {
                            Some(t) => match t.as_u64() {
                                Some(t) => t,
                                None => {
                                    proof {
                                        lemma_load_fold_prefix_none(st0, jview, i + 1);
                                    }
                                    return (false, None);
                                },
                            },
                            None => {
                                proof {
                                    lemma_load_fold_prefix_none(st0, jview, i + 1);
                                }
                                return (false, None);
                            },
                        };
                        if position_index == u64::MAX {
                            // A log restored behind the last representable
                            // position could never be extended; refuse the
                            // journal rather than restart there.
                            proof {
                                lemma_load_fold_prefix_none(st0, jview, i + 1);
                            }
                            return (false, None);
                        }
                        let vs = match config.get("voters") {
                            Some(v) => match crate::codec::json_to_nums(v) {
                                Some(v) => v,
                                None => {
                                    proof {
                                        lemma_load_fold_prefix_none(st0, jview, i + 1);
                                    }
                                    return (false, None);
                                },
                            },
                            None => {
                                proof {
                                    lemma_load_fold_prefix_none(st0, jview, i + 1);
                                }
                                return (false, None);
                            },
                        };
                        let nvs = match config.get("new_voters") {
                            Some(v) => match crate::codec::json_to_nums(v) {
                                Some(v) => v,
                                None => {
                                    proof {
                                        lemma_load_fold_prefix_none(st0, jview, i + 1);
                                    }
                                    return (false, None);
                                },
                            },
                            None => {
                                proof {
                                    lemma_load_fold_prefix_none(st0, jview, i + 1);
                                }
                                return (false, None);
                            },
                        };
                        let nodes = match machine_json.get("nodes") {
                            Some(v) => match crate::codec::json_to_nums(v) {
                                Some(v) => v,
                                None => {
                                    proof {
                                        lemma_load_fold_prefix_none(st0, jview, i + 1);
                                    }
                                    return (false, None);
                                },
                            },
                            None => {
                                proof {
                                    lemma_load_fold_prefix_none(st0, jview, i + 1);
                                }
                                return (false, None);
                            },
                        };
                        let ns_term = match node_state.get("term") {
                            Some(t) => match t.as_u64() {
                                Some(t) => t,
                                None => {
                                    proof {
                                        lemma_load_fold_prefix_none(st0, jview, i + 1);
                                    }
                                    return (false, None);
                                },
                            },
                            None => {
                                proof {
                                    lemma_load_fold_prefix_none(st0, jview, i + 1);
                                }
                                return (false, None);
                            },
                        };
                        match node_state.get("voted_for") {
                            Some(v) => match v {
                                Json::Num(n) => {
                                    voted_for = Some(*n);
                                },
                                Json::Null => {
                                    voted_for = None;
                                },
                                _ => {
                                    proof {
                                        lemma_load_fold_prefix_none(st0, jview, i + 1);
                                    }
                                    return (false, None);
                                },
                            },
                            None => {
                                voted_for = None;
                            },
                        }
                        let es = match crate::codec::json_to_log_entries(suffix_json) {
                            Some(es) => es,
                            None => {
                                proof {
                                    lemma_load_fold_prefix_none(st0, jview, i + 1);
                                }
                                return (false, None);
                            },
                        };
                        current_term = ns_term;
                        machine = sorted_set_of(&nodes);
                        run = crate::raft::raft_entries_new(position_term, position_index);
                        recent = Vec::new();
                        applied = position_index;
                        snapshot_loaded = true;
                        voters = vs;
                        new_voters = nvs;
                        user_machine = Some(um.deep_clone());
                        apply_parsed_entries(
                            &mut run,
                            &mut recent,
                            &mut voters,
                            &mut new_voters,
                            &es,
                        );
                    }
                },
            }
            i += 1;
        }
        proof {
            assert(jview.take(i as int) =~= jview);
        }
        let generation = if last_generation == u64::MAX {
            u64::MAX
        } else {
            last_generation + 1
        };
        let my_id = self.id();
        self.inner = crate::raft::raft_restart(
            my_id,
            current_term,
            voted_for,
            &voters,
            &new_voters,
            run,
        );
        self.machine_nodes = machine;
        self.recent_commands = recent;
        self.applied_index = applied;
        self.initialized = voters.len() > 0 || new_voters.len() > 0;
        self.dirty_members = false;
        self.pending_queries = Vec::new();
        self.local_command_seqno = 0;
        self.generation = generation;
        let ghost queue_before = self.action_queue@;
        self.push_action(
            Action::AppendStorageEntry(StorageEntry::NodeGeneration(generation).to_json()),
        );
        proof {
            assert(view_queue(self.action_queue@) =~= view_queue(queue_before).push(
                ActionV::AppendStorageEntry(
                    spec_storage_entry_to_json(StorageEntry::NodeGeneration(generation)),
                ),
            ));
        }
        (true, user_machine)
    }
}


/// Removes a value from an ascending set, keeping it ascending.
pub fn set_remove(v: &mut Vec<u64>, x: u64)
    requires
        strict_sorted(old(v)@),
    ensures
        strict_sorted(final(v)@),
        !final(v)@.contains(x),
        forall|y: u64| y != x ==> (final(v)@.contains(y) <==> old(v)@.contains(y)),
{
    let mut i: usize = 0;
    while i < v.len()
        invariant
            v@ == old(v)@,
            0 <= i <= v@.len(),
            forall|k: int| 0 <= k < i ==> v@[k] != x,
        decreases v@.len() - i,
    {
        if v[i] == x {
            let ghost prev = v@;
            v.remove(i);
            assert(v@ =~= prev.remove(i as int));
            assert forall|a: int, b: int| 0 <= a < b < v@.len() implies v@[a] < v@[b] by {
                if a < i {
                    assert(v@[a] == prev[a]);
                } else {
                    assert(v@[a] == prev[a + 1]);
                }
                if b < i {
                    assert(v@[b] == prev[b]);
                } else {
                    assert(v@[b] == prev[b + 1]);
                }
            }
            assert(!v@.contains(x)) by {
                if v@.contains(x) {
                    let ghost w = choose|w: int| 0 <= w < v@.len() && v@[w] == x;
                    if w < i {
                        assert(prev[w] == x);
                    } else {
                        assert(prev[w + 1] == x);
                        assert(prev[i as int] == x);
                    }
                }
            }
            assert forall|y: u64| y != x implies (v@.contains(y) <==> prev.contains(y)) by {
                if v@.contains(y) {
                    let ghost w = choose|w: int| 0 <= w < v@.len() && v@[w] == y;
                    if w < i {
                        assert(prev[w] == y);
                    } else {
                        assert(prev[w + 1] == y);
                    }
                }
                if prev.contains(y) {
                    let ghost w = choose|w: int| 0 <= w < prev.len() && prev[w] == y;
                    if w < i {
                        assert(v@[w] == y);
                    } else if w > i {
                        assert(v@[w - 1] == y);
                    }
                }
            }
            return;
        }
        i += 1;
    }
    assert(!v@.contains(x));
}

impl Node {
    /// Forgets one member from a committed membership command.
    fn handle_remove_node(&mut self, id: u64)
        requires
            old(self).wf(),
        ensures
            final(self).wf(),
            final(self).same_identity(old(self)),
            final(self).local_command_seqno == old(self).local_command_seqno,
            final(self).applied_index == old(self).applied_index,
            final(self).initialized == old(self).initialized,
            !final(self).machine_nodes@.contains(id),
            final(self).action_queue == old(self).action_queue,
            *final(self) == (Node {
                machine_nodes: final(self).machine_nodes,
                dirty_members: final(self).dirty_members,
                ..*old(self)
            }),
    {
        if !set_contains(&self.machine_nodes, id) {
            return;
        }
        set_remove(&mut self.machine_nodes, id);
        self.dirty_members = true;
    }

    /// Allocates an identifier for a membership removal and routes it.
    pub fn propose_remove_node(&mut self, id: u64) -> (r: ProposalId)
        requires
            old(self).wf(),
            old(self).local_command_seqno < u64::MAX,
        ensures
            final(self).wf(),
            r == (ProposalId {
                node_id: old(self).id_spec(),
                generation: old(self).generation,
                local_seqno: old(self).local_command_seqno,
            }),
            final(self).local_command_seqno == old(self).local_command_seqno + 1,
            final(self).same_identity(old(self)),
            final(self).applied_index == old(self).applied_index,
            final(self).initialized == old(self).initialized,
    {
        let pid = self.next_proposal_id();
        let command = Command::RemoveNode { proposal_id: pid, id };
        self.propose(command);
        pid
    }
}


} // verus!
