//! The shapes of the messages the engine exchanges with the coordination
//! server, as plain values. The driver serializes and delivers them; the
//! engine only decides what they carry.

use vstd::prelude::*;
use crate::workspace::WorktreeMetadata;

verus! {

/// One entry of a pushed desired-state snapshot: the server wants the
/// workspace with this stable remote id shared from this local path.
pub struct DesiredWorkspace {
    pub id: u64,
    pub path: String,
}

impl Clone for DesiredWorkspace {
    fn clone(&self) -> (res: Self)
        ensures
            res == self,
    {
        DesiredWorkspace { id: self.id, path: self.path.clone() }
    }
}

/// A full desired-state snapshot pushed by the server. Each push supersedes
/// the previous one entirely; it is not a delta.
pub struct DesiredWorkspaceSet {
    pub workspaces: Vec<DesiredWorkspace>,
}

impl DesiredWorkspaceSet {
    /// The set of remote workspace ids the server wants shared.
    pub open spec fn id_set(self) -> Set<u64> {
        self.workspaces@.map_values(|w: DesiredWorkspace| w.id).to_set()
    }

    /// A snapshot names each remote workspace id at most once.
    pub open spec fn wf(self) -> bool {
        self.workspaces@.map_values(|w: DesiredWorkspace| w.id).no_duplicates()
    }
}

/// Request: register a newly created local workspace and share it under the
/// given remote workspace id. The response carries the session-scoped
/// numeric project id the server assigned.
pub struct RegisterAndShareWorkspace {
    pub remote_workspace_id: u64,
    pub worktrees: Vec<WorktreeMetadata>,
}

/// One tracked workspace's snapshot inside a resync request: the project id
/// it held before the disconnect and its current content-root descriptors.
pub struct ResyncWorkspace {
    pub project_id: u64,
    pub worktrees: Vec<WorktreeMetadata>,
}

/// Request sent on reconnect: the full snapshot of every workspace the
/// session still considers shared, so the server can restore sharing
/// without a re-upload.
pub struct ResyncSession {
    pub reshared: Vec<ResyncWorkspace>,
}

/// One entry of the server's resync response: the workspace it restored,
/// named by project id, with the descriptors to adopt.
pub struct ResharedWorkspace {
    pub project_id: u64,
    pub worktrees: Vec<WorktreeMetadata>,
}

/// The server's answer to a `ResyncSession` request: the subset of the
/// snapshot it was able to restore.
pub struct ResyncSessionResponse {
    pub reshared: Vec<ResharedWorkspace>,
}

impl ResyncSessionResponse {
    /// The project ids the server restored.
    pub open spec fn id_set(self) -> Set<u64> {
        self.reshared@.map_values(|r: ResharedWorkspace| r.project_id).to_set()
    }

    /// A response names each project id at most once.
    pub open spec fn wf(self) -> bool {
        self.reshared@.map_values(|r: ResharedWorkspace| r.project_id).no_duplicates()
    }
}

/// Fire-and-forget request sent when the process is asked to terminate.
pub struct ShutdownSession {}

/// A transport connectivity status, as observed on the status stream.
#[derive(Clone, Copy, PartialEq, Eq, Structural, Debug)]
pub enum ConnectionStatus {
    Connecting,
    Connected,
    Disconnected,
    Reconnecting,
}

impl ConnectionStatus {
    /// Whether the transport is currently usable for requests.
    pub open spec fn spec_is_connected(self) -> bool {
        self == ConnectionStatus::Connected
    }

    /// Whether the transport is currently usable for requests.
    pub fn is_connected(&self) -> (r: bool)
        ensures
            r == self.spec_is_connected(),
    {
        matches!(self, ConnectionStatus::Connected)
    }
}

} // verus!
