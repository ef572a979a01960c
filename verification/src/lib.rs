#![verifier::loop_isolation(false)]

use vstd::prelude::*;

pub mod codec;
pub mod framing;
pub mod json;
pub mod jsonrpc;
pub mod node;
pub mod raft;
pub mod text;

pub use crate::codec::{Command, LogEntry, LogPosition, Message, ProposalId, QueryMessage,
    StorageEntry};
pub use crate::json::Json;
pub use crate::jsonrpc::{JsonRpcPredefinedError, JsonRpcRequest, JsonRpcRequestId,
    JsonRpcResponse};
pub use crate::node::{Action, ApplyAction, Event, Node, NodeRole, RecentCommands};

verus! {

/// Library-wide error carrying a human-readable reason.
#[derive(Debug)]
pub struct Error {
    pub reason: String,
}

impl Error {
    pub fn new(reason: String) -> (r: Error)
        ensures
            r.reason@ == reason@,
    {
        Error { reason }
    }

    pub fn message(&self) -> (r: &String)
        ensures
            r@ == self.reason@,
    {
        &self.reason
    }
}

} // verus!
