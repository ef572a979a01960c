//! The boundary to the Raft consensus primitive.
//!
//! The node logic drives `noraft`, which implements vote counting, log
//! matching and commit-index advancement.  Everything the node reads from or
//! hands to that crate crosses this module: each item here wraps exactly one
//! `noraft` function, says over plain values what that function's source
//! shows, and claims nothing more.  Messages and log entries of the
//! primitive are opaque; their contents are read and written only through
//! the wrappers below.
//!
//! The primitive cannot allocate a position past the last representable
//! log index.  The node therefore never builds, receives into, or
//! restores a log ending at that index: the journal loader refuses such a
//! position and every entry-placement loop stops short of it, so the
//! mutating wrappers are never called in a state the primitive's own
//! operations could not extend.

use vstd::prelude::*;

verus! {

/// The consensus primitive itself; opaque to every contract.
#[verifier::external_body]
pub struct RaftInner {
    inner: noraft::Node,
}

/// A message of the primitive, opaque to every contract.
#[verifier::external_body]
pub struct RaftWireMessage {
    inner: noraft::Message,
}

/// A run of log entries of the primitive; its contents are spoken of
/// through [`raft_entries_prev`] and [`raft_entries_list`].
#[verifier::external_body]
pub struct RaftEntries {
    inner: noraft::LogEntries,
}

/// A cluster configuration of the primitive, opaque to every contract.
#[verifier::external_body]
pub struct RaftConfig {
    inner: noraft::ClusterConfig,
}

/// The role a node plays in its cluster.
#[derive(Debug, Clone, Copy, PartialEq, Eq, Hash, PartialOrd, Ord, Structural)]
pub enum NodeRole {
    Follower,
    Candidate,
    Leader,
}

/// What the primitive answers when asked about one log position.
#[derive(Debug, Clone, Copy, PartialEq, Eq, Structural)]
pub enum CommitStatusKind {
    InProgress,
    Committed,
    Rejected,
    Unknown,
}

/// One entry as the primitive stores it: a tag, with no command payload.
pub enum RawEntry {
    Term(u64),
    Config { voters: Vec<u64>, new_voters: Vec<u64> },
    Command,
}

/// One pending operation handed out by the primitive.
pub enum RaftStep {
    SetElectionTimeout,
    SaveCurrentTerm,
    SaveVotedFor,
    Broadcast(RaftWireMessage),
    AppendEntries(RaftEntries),
    Send(u64, RaftWireMessage),
    InstallSnapshot(u64),
}

/// The identifier a primitive node was started or restarted with; its
/// source stores it at construction and never changes it.
pub uninterp spec fn raft_node_id(n: RaftInner) -> u64;

/// How many pending operations the primitive's action set still holds;
/// each `next` call hands one out and removes it.
pub uninterp spec fn raft_pending_actions(n: RaftInner) -> nat;

/// Whether any of the primitive's pending storage operations — saving the
/// term, saving the vote, appending log entries — is still set.
pub uninterp spec fn raft_storage_pending(n: RaftInner) -> bool;

/// The current term the primitive stores; a function of the node value.
pub uninterp spec fn raft_term_of(n: RaftInner) -> u64;

/// The vote of the current term the primitive stores; a function of the
/// node value.
pub uninterp spec fn raft_vote_of(n: RaftInner) -> Option<u64>;

/// The commit index the primitive has derived; a function of the node
/// value.
pub uninterp spec fn raft_commit_of(n: RaftInner) -> u64;

/// Whether the primitive's role is leader; a function of the node value.
pub uninterp spec fn raft_is_leader(n: RaftInner) -> bool;

/// The term recorded at the given index of the primitive's in-memory log,
/// `None` when the index lies outside it.
pub uninterp spec fn raft_term_at(n: RaftInner, index: u64) -> Option<u64>;

/// The configuration in force at the given index of the primitive's
/// in-memory log, as its rep; `None` when the index lies outside it.
pub uninterp spec fn raft_config_rep_at(n: RaftInner, index: u64) -> Option<
    (Seq<u64>, Seq<u64>, Seq<u64>),
>;

/// What a configuration value holds: its voters, new voters and
/// non-voters, each ascending.  Two configurations with one rep are equal,
/// since these three sets are all a configuration consists of.
pub uninterp spec fn config_rep(c: RaftConfig) -> (Seq<u64>, Seq<u64>, Seq<u64>);

/// The rep of the configuration in force at the node's latest log index:
/// the one the primitive acts under now.
pub uninterp spec fn raft_latest_rep(n: RaftInner) -> (Seq<u64>, Seq<u64>, Seq<u64>);

/// The position the node's in-memory log starts after: its snapshot
/// boundary, as (term, index).
pub uninterp spec fn raft_log_prev(n: RaftInner) -> (u64, u64);

/// The entries of the node's in-memory log, oldest first, in the form of
/// [`raft_entries_list`].
pub uninterp spec fn raft_log_list(n: RaftInner) -> Seq<(u64, u64, Seq<u64>, Seq<u64>)>;

/// The position just before a run of entries, as (term, index).
pub uninterp spec fn raft_entries_prev(e: RaftEntries) -> (u64, u64);

/// The entries of a run, oldest first, each as (kind, term, voters,
/// new_voters): kind 0 is a term marker carrying `term`, kind 1 a cluster
/// configuration carrying the two ascending voter lists, kind 2 a command
/// tag.
pub uninterp spec fn raft_entries_list(e: RaftEntries) -> Seq<(u64, u64, Seq<u64>, Seq<u64>)>;

/// `s` is strictly ascending.
pub open spec fn strict_sorted(s: Seq<u64>) -> bool {
    forall|i: int, j: int| 0 <= i < j < s.len() ==> s[i] < s[j]
}

/// Relies on `noraft::Node::start`: a fresh follower carrying the given
/// identifier, at term zero, with no vote cast and nothing committed.
#[verifier::external_body]
pub fn raft_start(id: u64) -> (n: RaftInner)
    ensures
        raft_node_id(n) == id,
        raft_term_of(n) == 0,
        raft_vote_of(n) == None::<u64>,
        raft_commit_of(n) == 0,
        !raft_is_leader(n),
{
    RaftInner { inner: noraft::Node::start(noraft::NodeId::new(id)) }
}

/// Relies on `noraft::Node::restart` and `noraft::Log::new`: a follower
/// restored from the persisted term, vote, configuration and log run,
/// still carrying the given identifier; its source assigns the term and
/// vote directly and derives the commit index from the run's predecessor
/// position, the snapshot boundary.
#[verifier::external_body]
pub fn raft_restart(
    id: u64,
    current_term: u64,
    voted_for: Option<u64>,
    voters: &Vec<u64>,
    new_voters: &Vec<u64>,
    entries: RaftEntries,
) -> (n: RaftInner)
    ensures
        raft_node_id(n) == id,
        raft_term_of(n) == current_term,
        raft_vote_of(n) == voted_for,
        raft_commit_of(n) == raft_entries_prev(entries).1,
        !raft_is_leader(n),
        raft_log_prev(n) == raft_entries_prev(entries),
        raft_log_list(n) == raft_entries_list(entries),
{
    let mut config = noraft::ClusterConfig::new();
    config.voters = voters.iter().map(|v| noraft::NodeId::new(*v)).collect();
    config.new_voters = new_voters.iter().map(|v| noraft::NodeId::new(*v)).collect();
    let log = noraft::Log::new(config, entries.inner);
    RaftInner {
        inner: noraft::Node::restart(
            noraft::NodeId::new(id),
            noraft::Term::new(current_term),
            voted_for.map(noraft::NodeId::new),
            log,
        ),
    }
}

/// Relies on `noraft::Node::id`: the identifier set at start or restart.
#[verifier::external_body]
pub fn raft_id(n: &RaftInner) -> (r: u64)
    ensures
        r == raft_node_id(*n),
{
    n.inner.id().get()
}

/// Relies on `noraft::Node::role`, which reads the stored role state.
#[verifier::external_body]
pub fn raft_role(n: &RaftInner) -> (r: NodeRole)
    ensures
        (r == NodeRole::Leader) == raft_is_leader(*n),
{
    match n.inner.role() {
        noraft::Role::Follower => NodeRole::Follower,
        noraft::Role::Candidate => NodeRole::Candidate,
        noraft::Role::Leader => NodeRole::Leader,
    }
}

/// Relies on `noraft::Node::current_term`, which reads the stored term.
#[verifier::external_body]
pub fn raft_current_term(n: &RaftInner) -> (r: u64)
    ensures
        r == raft_term_of(*n),
{
    n.inner.current_term().get()
}

/// Relies on `noraft::Node::voted_for`, which reads the stored vote.
#[verifier::external_body]
pub fn raft_voted_for(n: &RaftInner) -> (r: Option<u64>)
    ensures
        r == raft_vote_of(*n),
{
    n.inner.voted_for().map(|id| id.get())
}

/// Relies on `noraft::Node::commit_index`, which reads the stored commit
/// index.
#[verifier::external_body]
pub fn raft_commit_index(n: &RaftInner) -> (r: u64)
    ensures
        r == raft_commit_of(*n),
{
    n.inner.commit_index().get()
}

/// Relies on `noraft::Node::create_cluster`, which accepts only a fresh
/// node and a non-empty voter list and returns the position of the initial
/// configuration entry, or the invalid position when it refuses.
#[verifier::external_body]
pub fn raft_create_cluster(n: &mut RaftInner, members: &Vec<u64>)
    ensures
        raft_node_id(*final(n)) == raft_node_id(*old(n)),
        raft_commit_of(*final(n)) >= raft_commit_of(*old(n)),
{
    let ids: Vec<noraft::NodeId> = members.iter().map(|m| noraft::NodeId::new(*m)).collect();
    let _ = n.inner.create_cluster(&ids);
}

/// Relies on `noraft::Node::handle_election_timeout`.
#[verifier::external_body]
pub fn raft_handle_election_timeout(n: &mut RaftInner)
    ensures
        raft_node_id(*final(n)) == raft_node_id(*old(n)),
        raft_commit_of(*final(n)) >= raft_commit_of(*old(n)),
{
    n.inner.handle_election_timeout()
}

/// Relies on `noraft::Node::heartbeat`: broadcasts an empty append round;
/// returns false when the node is not the leader.
#[verifier::external_body]
pub fn raft_heartbeat(n: &mut RaftInner) -> (r: bool)
    ensures
        raft_node_id(*final(n)) == raft_node_id(*old(n)),
        raft_commit_of(*final(n)) >= raft_commit_of(*old(n)),
        r == raft_is_leader(*old(n)),
{
    n.inner.heartbeat()
}

/// Relies on `noraft::Node::handle_message`: applies a received message;
/// returns whether the primitive accepted it.
#[verifier::external_body]
pub fn raft_handle_message(n: &mut RaftInner, msg: &RaftWireMessage) -> (r: bool)
    ensures
        raft_node_id(*final(n)) == raft_node_id(*old(n)),
        raft_commit_of(*final(n)) >= raft_commit_of(*old(n)),
{
    n.inner.handle_message(&msg.inner).is_ok()
}

/// Relies on `noraft::Node::propose_command`: on a leader, appends a
/// command tag and returns its position; on any other node returns the
/// invalid position.
#[verifier::external_body]
pub fn raft_propose_command(n: &mut RaftInner) -> (r: (u64, u64))
    ensures
        raft_node_id(*final(n)) == raft_node_id(*old(n)),
        raft_commit_of(*final(n)) >= raft_commit_of(*old(n)),
        !raft_is_leader(*old(n)) ==> r == (u64::MAX, 0u64) && *final(n) == *old(n),
{
    let pos = n.inner.propose_command();
    (pos.term.get(), pos.index.get())
}

/// Relies on `noraft::Node::get_commit_status`: a position below the
/// snapshot boundary is unknown; one at or below the commit index is
/// committed when the log holds it with that term and rejected otherwise;
/// one above it is rejected once the term in force at the commit index
/// has passed its term, and in progress until then.
#[verifier::external_body]
pub fn raft_get_commit_status(n: &RaftInner, term: u64, index: u64) -> (r: CommitStatusKind)
    ensures
        r == (if index < raft_log_prev(*n).1 {
            CommitStatusKind::Unknown
        } else if index <= raft_commit_of(*n) {
            if raft_term_at(*n, index) == Some(term) {
                CommitStatusKind::Committed
            } else {
                CommitStatusKind::Rejected
            }
        } else {
            match raft_term_at(*n, raft_commit_of(*n)) {
                Some(ct) => if term < ct {
                    CommitStatusKind::Rejected
                } else {
                    CommitStatusKind::InProgress
                },
                None => CommitStatusKind::InProgress,
            }
        }),
{
    match n.inner.get_commit_status(
        noraft::LogPosition {
            term: noraft::Term::new(term),
            index: noraft::LogIndex::new(index),
        },
    ) {
        noraft::CommitStatus::InProgress => CommitStatusKind::InProgress,
        noraft::CommitStatus::Committed => CommitStatusKind::Committed,
        noraft::CommitStatus::Rejected => CommitStatusKind::Rejected,
        noraft::CommitStatus::Unknown => CommitStatusKind::Unknown,
    }
}

/// Relies on `noraft::Node::config`, cloning the configuration at the
/// latest log index.
#[verifier::external_body]
pub fn raft_config_clone(n: &RaftInner) -> (r: RaftConfig)
    ensures
        config_rep(r) == raft_latest_rep(*n),
{
    RaftConfig { inner: n.inner.config().clone() }
}

/// Relies on `noraft::ClusterConfig::is_joint_consensus`: true iff the
/// new-voter set is non-empty.
#[verifier::external_body]
pub fn config_is_joint(c: &RaftConfig) -> (r: bool)
    ensures
        r == (config_rep(*c).1.len() > 0),
{
    c.inner.is_joint_consensus()
}

/// Relies on the public `voters` field of `noraft::ClusterConfig`, a set
/// iterated in ascending order.
#[verifier::external_body]
pub fn config_voters(c: &RaftConfig) -> (r: Vec<u64>)
    ensures
        strict_sorted(r@),
        r@ == config_rep(*c).0,
{
    c.inner.voters.iter().map(|id| id.get()).collect()
}

/// Relies on the public `new_voters` field of `noraft::ClusterConfig`, a
/// set iterated in ascending order.
#[verifier::external_body]
pub fn config_new_voters(c: &RaftConfig) -> (r: Vec<u64>)
    ensures
        strict_sorted(r@),
        r@ == config_rep(*c).1,
{
    c.inner.new_voters.iter().map(|id| id.get()).collect()
}

/// Relies on `noraft::ClusterConfig::unique_nodes`: every voter, new voter
/// and non-voter once each, in ascending order.
#[verifier::external_body]
pub fn config_unique_nodes(c: &RaftConfig) -> (r: Vec<u64>)
    ensures
        strict_sorted(r@),
        forall|y: u64|
            r@.contains(y) <==> (config_rep(*c).0.contains(y) || config_rep(*c).1.contains(y)
                || config_rep(*c).2.contains(y)),
{
    c.inner.unique_nodes().map(|id| id.get()).collect()
}

/// Relies on `noraft::ClusterConfig::to_joint_consensus`: the joint
/// configuration that adds and removes the given voters.
#[verifier::external_body]
pub fn config_to_joint(
    c: &RaftConfig,
    adding: &Vec<u64>,
    removing: &Vec<u64>,
) -> (r: RaftConfig) {
    let adds: Vec<noraft::NodeId> = adding.iter().map(|v| noraft::NodeId::new(*v)).collect();
    let removes: Vec<noraft::NodeId> = removing.iter().map(|v| noraft::NodeId::new(*v)).collect();
    RaftConfig { inner: c.inner.to_joint_consensus(&adds, &removes) }
}

/// Relies on `noraft::Node::propose_config`: on a leader whose current
/// configuration matches, appends the configuration entry and returns its
/// position; otherwise returns the invalid position.
#[verifier::external_body]
pub fn raft_propose_config(n: &mut RaftInner, config: RaftConfig) -> (r: (u64, u64))
    ensures
        raft_node_id(*final(n)) == raft_node_id(*old(n)),
        raft_commit_of(*final(n)) >= raft_commit_of(*old(n)),
{
    let pos = n.inner.propose_config(config.inner);
    (pos.term.get(), pos.index.get())
}

/// Relies on `noraft::Log::get_position_and_config`: the position of the
/// entry at the given index and the configuration in force there, when the
/// index is within the log.
#[verifier::external_body]
pub fn raft_position_and_config(n: &RaftInner, index: u64) -> (r: Option<
    (u64, u64, RaftConfig),
>)
    ensures
        r is Some <==> raft_term_at(*n, index) is Some,
        r matches Some(t) ==> raft_term_at(*n, index) == Some(t.0) && t.1 == index
            && raft_config_rep_at(*n, index) == Some(config_rep(t.2)),
{
    n.inner.log().get_position_and_config(noraft::LogIndex::new(index)).map(
        |(pos, config)| (pos.term.get(), pos.index.get(), RaftConfig { inner: config.clone() }),
    )
}

/// Relies on `noraft::Node::handle_snapshot_installed`: replaces the log
/// prefix up to the given position.  Its source accepts the snapshot iff
/// the position's term is at most the current term and either the commit
/// index is still below the position (then only on a non-leader) or the
/// log holds the position with that term under the same configuration; on
/// rejection its documentation states that nothing observable changes, and
/// on success that the commit index is at least the position's index.
#[verifier::external_body]
pub fn raft_handle_snapshot_installed(
    n: &mut RaftInner,
    term: u64,
    index: u64,
    config: RaftConfig,
) -> (r: bool)
    ensures
        raft_node_id(*final(n)) == raft_node_id(*old(n)),
        r == ({
            &&& term <= raft_term_of(*old(n))
            &&& if raft_commit_of(*old(n)) < index {
                !raft_is_leader(*old(n))
            } else {
                raft_term_at(*old(n), index) == Some(term) && raft_config_rep_at(
                    *old(n),
                    index,
                ) == Some(config_rep(config))
            }
        }),
        r ==> raft_commit_of(*final(n)) >= index,
        raft_commit_of(*final(n)) >= raft_commit_of(*old(n)),
        !r ==> *final(n) == *old(n),
{
    n.inner.handle_snapshot_installed(
        noraft::LogPosition {
            term: noraft::Term::new(term),
            index: noraft::LogIndex::new(index),
        },
        config.inner,
    )
}

/// Relies on `noraft::Log::entries`, cloning the in-memory run of the
/// log: the clone starts at the node's snapshot boundary and lists the
/// node's entries; its last position is a machine word of the primitive,
/// so the positions are representable.
#[verifier::external_body]
pub fn raft_log_entries_clone(n: &RaftInner) -> (r: RaftEntries)
    ensures
        raft_entries_prev(r).1 + raft_entries_list(r).len() <= u64::MAX,
        raft_entries_prev(r) == raft_log_prev(*n),
        raft_entries_list(r) == raft_log_list(*n),
{
    RaftEntries { inner: n.inner.log().entries().clone() }
}

/// Relies on `Iterator::next` of `noraft::Actions`: hands out the most
/// urgent pending operation and removes it from the set.  Its source
/// yields the storage operations before any outbound message, and only
/// ever clears the storage slots.
#[verifier::external_body]
pub fn raft_next_action(n: &mut RaftInner) -> (r: Option<RaftStep>)
    ensures
        raft_node_id(*final(n)) == raft_node_id(*old(n)),
        raft_commit_of(*final(n)) == raft_commit_of(*old(n)),
        r is Some ==> raft_pending_actions(*final(n)) < raft_pending_actions(*old(n)),
        r matches Some(RaftStep::AppendEntries(e)) ==> raft_entries_prev(e).1
            + raft_entries_list(e).len() <= u64::MAX,
        match r {
            Some(RaftStep::SaveCurrentTerm) | Some(RaftStep::SaveVotedFor)
                | Some(RaftStep::AppendEntries(_)) => raft_storage_pending(*old(n)),
            Some(RaftStep::Broadcast(_)) | Some(RaftStep::Send(_, _))
                | Some(RaftStep::InstallSnapshot(_)) => !raft_storage_pending(*old(n)),
            _ => true,
        },
        !raft_storage_pending(*old(n)) ==> !raft_storage_pending(*final(n)),
{
    match n.inner.actions_mut().next() {
        None => None,
        Some(noraft::Action::SetElectionTimeout) => Some(RaftStep::SetElectionTimeout),
        Some(noraft::Action::SaveCurrentTerm) => Some(RaftStep::SaveCurrentTerm),
        Some(noraft::Action::SaveVotedFor) => Some(RaftStep::SaveVotedFor),
        Some(noraft::Action::BroadcastMessage(m)) => Some(RaftStep::Broadcast(RaftWireMessage { inner: m })),
        Some(noraft::Action::AppendLogEntries(e)) => Some(RaftStep::AppendEntries(RaftEntries { inner: e })),
        Some(noraft::Action::SendMessage(id, m)) => Some(RaftStep::Send(id.get(), RaftWireMessage { inner: m })),
        Some(noraft::Action::InstallSnapshot(id)) => Some(RaftStep::InstallSnapshot(id.get())),
    }
}

/// Relies on the public `broadcast_message` field of `noraft::Actions`:
/// the position of the first entry of a pending broadcast, if that
/// broadcast is an `AppendEntriesCall` with entries.
#[verifier::external_body]
pub fn raft_peek_broadcast_first_position(n: &RaftInner) -> (r: Option<(u64, u64)>) {
    if let Some(noraft::Message::AppendEntriesCall { entries, .. }) =
        &n.inner.actions().broadcast_message {
        entries.iter_with_positions().next().map(|(p, _)| (p.term.get(), p.index.get()))
    } else {
        None
    }
}

/// Relies on the public fields of `noraft::Message`: which variant a
/// message is (0 vote call, 1 vote reply, 2 append call, 3 append reply).
#[verifier::external_body]
pub fn raft_message_kind(m: &RaftWireMessage) -> (r: u8) {
    match m.inner {
        noraft::Message::RequestVoteCall { .. } => 0,
        noraft::Message::RequestVoteReply { .. } => 1,
        noraft::Message::AppendEntriesCall { .. } => 2,
        noraft::Message::AppendEntriesReply { .. } => 3,
    }
}

/// Relies on `noraft::Message::from` and `noraft::Message::term`: the
/// sender and term every message carries.
#[verifier::external_body]
pub fn raft_message_common(m: &RaftWireMessage) -> (r: (u64, u64)) {
    (m.inner.from().get(), m.inner.term().get())
}

/// Relies on the public `last_position` field of the vote-call and
/// append-reply variants, as (term, index); (0, 0) for other variants.
#[verifier::external_body]
pub fn raft_message_last_position(m: &RaftWireMessage) -> (r: (u64, u64)) {
    match &m.inner {
        noraft::Message::RequestVoteCall { last_position: p, .. } => (p.term.get(), p.index.get()),
        noraft::Message::AppendEntriesReply { last_position: p, .. } => (
            p.term.get(),
            p.index.get(),
        ),
        _ => (0, 0),
    }
}

/// Relies on the public `vote_granted` field of the vote-reply variant;
/// false for other variants.
#[verifier::external_body]
pub fn raft_message_vote_granted(m: &RaftWireMessage) -> (r: bool) {
    match &m.inner {
        noraft::Message::RequestVoteReply { vote_granted, .. } => *vote_granted,
        _ => false,
    }
}

/// Relies on the public `commit_index` field of the append-call variant;
/// zero for other variants.
#[verifier::external_body]
pub fn raft_message_commit_index(m: &RaftWireMessage) -> (r: u64) {
    match &m.inner {
        noraft::Message::AppendEntriesCall { commit_index, .. } => commit_index.get(),
        _ => 0,
    }
}

/// Relies on the public `entries` field of the append-call variant,
/// cloning the run; an empty run for other variants.  The run's last
/// position is a machine word of the primitive, so the positions are
/// representable.
#[verifier::external_body]
pub fn raft_message_entries(m: &RaftWireMessage) -> (r: RaftEntries)
    ensures
        raft_entries_prev(r).1 + raft_entries_list(r).len() <= u64::MAX,
{
    match &m.inner {
        noraft::Message::AppendEntriesCall { entries, .. } => RaftEntries {
            inner: entries.clone(),
        },
        _ => RaftEntries { inner: noraft::LogEntries::new(noraft::LogPosition::ZERO) },
    }
}

/// Relies on the public fields of `noraft::Message`: composes a
/// `RequestVoteCall`.
#[verifier::external_body]
pub fn raft_mk_request_vote_call(
    from: u64,
    term: u64,
    last_term: u64,
    last_index: u64,
) -> (r: RaftWireMessage) {
    RaftWireMessage {
        inner: noraft::Message::RequestVoteCall {
            from: noraft::NodeId::new(from),
            term: noraft::Term::new(term),
            last_position: noraft::LogPosition {
                term: noraft::Term::new(last_term),
                index: noraft::LogIndex::new(last_index),
            },
        },
    }
}

/// Relies on the public fields of `noraft::Message`: composes a
/// `RequestVoteReply`.
#[verifier::external_body]
pub fn raft_mk_request_vote_reply(from: u64, term: u64, vote_granted: bool) -> (r: RaftWireMessage) {
    RaftWireMessage {
        inner: noraft::Message::RequestVoteReply {
            from: noraft::NodeId::new(from),
            term: noraft::Term::new(term),
            vote_granted,
        },
    }
}

/// Relies on the public fields of `noraft::Message`: composes an
/// `AppendEntriesCall` around a run of entries.
#[verifier::external_body]
pub fn raft_mk_append_entries_call(
    from: u64,
    term: u64,
    commit_index: u64,
    entries: RaftEntries,
) -> (r: RaftWireMessage) {
    RaftWireMessage {
        inner: noraft::Message::AppendEntriesCall {
            from: noraft::NodeId::new(from),
            term: noraft::Term::new(term),
            commit_index: noraft::LogIndex::new(commit_index),
            entries: entries.inner,
        },
    }
}

/// Relies on the public fields of `noraft::Message`: composes an
/// `AppendEntriesReply`.
#[verifier::external_body]
pub fn raft_mk_append_entries_reply(
    from: u64,
    term: u64,
    last_term: u64,
    last_index: u64,
) -> (r: RaftWireMessage) {
    RaftWireMessage {
        inner: noraft::Message::AppendEntriesReply {
            from: noraft::NodeId::new(from),
            term: noraft::Term::new(term),
            last_position: noraft::LogPosition {
                term: noraft::Term::new(last_term),
                index: noraft::LogIndex::new(last_index),
            },
        },
    }
}

/// Relies on `noraft::LogEntries::new`: an empty run at the given
/// predecessor position.
#[verifier::external_body]
pub fn raft_entries_new(prev_term: u64, prev_index: u64) -> (e: RaftEntries)
    ensures
        raft_entries_prev(e) == (prev_term, prev_index),
        raft_entries_list(e) == Seq::<(u64, u64, Seq<u64>, Seq<u64>)>::empty(),
{
    RaftEntries {
        inner: noraft::LogEntries::new(
            noraft::LogPosition {
                term: noraft::Term::new(prev_term),
                index: noraft::LogIndex::new(prev_index),
            },
        ),
    }
}

/// Relies on `noraft::LogEntries::push` with a term marker; the next
/// position must be representable.
#[verifier::external_body]
pub fn raft_entries_push_term(e: &mut RaftEntries, term: u64)
    requires
        raft_entries_prev(*old(e)).1 + raft_entries_list(*old(e)).len() < u64::MAX,
    ensures
        raft_entries_prev(*final(e)) == raft_entries_prev(*old(e)),
        raft_entries_list(*final(e)) == raft_entries_list(*old(e)).push(
            (0u64, term, Seq::<u64>::empty(), Seq::<u64>::empty()),
        ),
{
    e.inner.push(noraft::LogEntry::Term(noraft::Term::new(term)));
}

/// Relies on `noraft::LogEntries::push` with a cluster configuration built
/// from the two ascending voter lists.
#[verifier::external_body]
pub fn raft_entries_push_config(e: &mut RaftEntries, voters: &Vec<u64>, new_voters: &Vec<
    u64,
>)
    requires
        raft_entries_prev(*old(e)).1 + raft_entries_list(*old(e)).len() < u64::MAX,
        strict_sorted(voters@),
        strict_sorted(new_voters@),
    ensures
        raft_entries_prev(*final(e)) == raft_entries_prev(*old(e)),
        raft_entries_list(*final(e)) == raft_entries_list(*old(e)).push(
            (1u64, 0u64, voters@, new_voters@),
        ),
{
    let mut config = noraft::ClusterConfig::new();
    config.voters = voters.iter().map(|v| noraft::NodeId::new(*v)).collect();
    config.new_voters = new_voters.iter().map(|v| noraft::NodeId::new(*v)).collect();
    e.inner.push(noraft::LogEntry::ClusterConfig(config));
}

/// Relies on `noraft::LogEntries::push` with a command tag; the next
/// position must be representable.
#[verifier::external_body]
pub fn raft_entries_push_command(e: &mut RaftEntries)
    requires
        raft_entries_prev(*old(e)).1 + raft_entries_list(*old(e)).len() < u64::MAX,
    ensures
        raft_entries_prev(*final(e)) == raft_entries_prev(*old(e)),
        raft_entries_list(*final(e)) == raft_entries_list(*old(e)).push(
            (2u64, 0u64, Seq::<u64>::empty(), Seq::<u64>::empty()),
        ),
{
    e.inner.push(noraft::LogEntry::Command);
}

/// Relies on `noraft::LogEntries::prev_position`.
#[verifier::external_body]
pub fn raft_entries_prev_exec(e: &RaftEntries) -> (r: (u64, u64))
    ensures
        r == raft_entries_prev(*e),
{
    let p = e.inner.prev_position();
    (p.term.get(), p.index.get())
}

/// Relies on `noraft::LogEntries::len`.
#[verifier::external_body]
pub fn raft_entries_len(e: &RaftEntries) -> (r: usize)
    ensures
        r == raft_entries_list(*e).len(),
{
    e.inner.len()
}

/// Relies on `noraft::LogEntries::iter`: the entry at offset `i` of the
/// run, as plain values.  The caller keeps the run's positions
/// representable, which `iter` relies on.
#[verifier::external_body]
pub fn raft_entries_get(e: &RaftEntries, i: usize) -> (r: RawEntry)
    requires
        i < raft_entries_list(*e).len(),
        raft_entries_prev(*e).1 + raft_entries_list(*e).len() <= u64::MAX,
    ensures
        match r {
            RawEntry::Term(t) => raft_entries_list(*e)[i as int].0 == 0 && raft_entries_list(
                *e,
            )[i as int].1 == t,
            RawEntry::Config { voters, new_voters } => raft_entries_list(*e)[i as int].0 == 1
                && raft_entries_list(*e)[i as int].2 == voters@ && raft_entries_list(
                *e,
            )[i as int].3 == new_voters@,
            RawEntry::Command => raft_entries_list(*e)[i as int].0 == 2,
        },
{
    match e.inner.iter().nth(i).expect("index checked against len") {
        noraft::LogEntry::Term(t) => RawEntry::Term(t.get()),
        noraft::LogEntry::ClusterConfig(c) => RawEntry::Config {
            voters: c.voters.iter().map(|id| id.get()).collect(),
            new_voters: c.new_voters.iter().map(|id| id.get()).collect(),
        },
        noraft::LogEntry::Command => RawEntry::Command,
    }
}

/// Relies on `noraft::LogEntries::contains`: whether the node's log
/// covers the given position with the same term.
#[verifier::external_body]
pub fn raft_log_contains(n: &RaftInner, term: u64, index: u64) -> (r: bool)
    ensures
        r == (raft_term_at(*n, index) == Some(term)),
{
    n.inner.log().entries().contains(
        noraft::LogPosition {
            term: noraft::Term::new(term),
            index: noraft::LogIndex::new(index),
        },
    )
}

} // verus!
