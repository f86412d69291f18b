use headless::messages::{
    ConnectionStatus, DesiredWorkspace, DesiredWorkspaceSet, ResharedWorkspace,
    ResyncSessionResponse,
};
use headless::reconcile::AddOutcome;
use headless::session::DevServer;
use headless::supervisor::ConnectionSupervisor;
use headless::workspace::{ShareState, WorktreeMetadata};

fn session_with(entries: &[(u64, u64, &str)]) -> DevServer {
    // (remote workspace id, project id, path)
    let mut workspaces = Vec::new();
    for (id, _, path) in entries {
        workspaces.push(DesiredWorkspace { id: *id, path: (*path).to_string() });
    }
    let desired = DesiredWorkspaceSet { workspaces };
    let mut outcomes = Vec::new();
    for (_, pid, path) in entries {
        outcomes.push(Some(AddOutcome {
            worktrees: vec![WorktreeMetadata { id: *pid, root_name: (*path).to_string() }],
            project_id: *pid,
        }));
    }
    let mut s = DevServer::new();
    s.apply_desired_state(&desired, outcomes).unwrap();
    s
}

fn response_of(ids: &[u64]) -> ResyncSessionResponse {
    let mut reshared = Vec::new();
    for p in ids {
        reshared.push(ResharedWorkspace {
            project_id: *p,
            worktrees: vec![WorktreeMetadata { id: *p, root_name: "restored".to_string() }],
        });
    }
    ResyncSessionResponse { reshared }
}

#[test]
fn first_connect_triggers_no_resync() {
    let mut sup = ConnectionSupervisor::start(ConnectionStatus::Connected);
    assert!(!sup.on_status(ConnectionStatus::Connected));
    assert!(!sup.on_status(ConnectionStatus::Connected));
    // Only after a disconnect does a connected transition mean a reconnect.
    assert!(!sup.on_status(ConnectionStatus::Disconnected));
    assert!(sup.on_status(ConnectionStatus::Connected));
}

#[test]
fn starting_disconnected_resyncs_on_first_connect() {
    let mut sup = ConnectionSupervisor::start(ConnectionStatus::Disconnected);
    assert!(!sup.on_status(ConnectionStatus::Reconnecting));
    assert!(sup.on_status(ConnectionStatus::Connected));
}

#[test]
fn reconnect_sends_one_resync_with_descriptors() {
    let s = session_with(&[(10, 42, "/a")]);
    let mut sup = ConnectionSupervisor::start(ConnectionStatus::Connected);

    let mut resyncs = 0;
    for status in [ConnectionStatus::Disconnected, ConnectionStatus::Connected] {
        if sup.on_status(status) {
            resyncs += 1;
        }
    }
    assert_eq!(resyncs, 1, "exactly one resync request is due");

    let req = s.resync_snapshot();
    assert_eq!(req.reshared.len(), 1);
    assert_eq!(req.reshared[0].project_id, 42);
    assert_eq!(req.reshared[0].worktrees.len(), 1);
    assert_eq!(req.reshared[0].worktrees[0].root_name, "/a");
}

#[test]
fn partial_resync_keeps_unrestored_workspaces_tracked() {
    let mut s = session_with(&[(1, 1, "/a"), (2, 2, "/b"), (3, 3, "/c")]);
    s.apply_resync_response(&response_of(&[1, 3]));

    assert_eq!(s.len(), 3, "no workspace is dropped by a partial resync");
    assert_eq!(s.state_of(1), Some(ShareState::Reshared { project_id: 1 }));
    assert_eq!(
        s.state_of(2),
        Some(ShareState::Shared { project_id: 2 }),
        "an unrestored workspace stays tracked and is not marked reshared"
    );
    assert_eq!(s.state_of(3), Some(ShareState::Reshared { project_id: 3 }));
}

#[test]
fn resync_response_updates_descriptors() {
    let mut s = session_with(&[(10, 42, "/a")]);
    s.apply_resync_response(&response_of(&[42]));
    assert_eq!(s.state_of(10), Some(ShareState::Reshared { project_id: 42 }));
    let req = s.resync_snapshot();
    assert_eq!(req.reshared[0].worktrees[0].root_name, "restored");
}

#[test]
fn resync_response_for_unknown_project_changes_nothing() {
    let mut s = session_with(&[(10, 42, "/a")]);
    s.apply_resync_response(&response_of(&[99]));
    assert_eq!(s.len(), 1);
    assert_eq!(s.state_of(10), Some(ShareState::Shared { project_id: 42 }));
}
