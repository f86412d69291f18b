use headless::messages::{DesiredWorkspace, DesiredWorkspaceSet};
use headless::reconcile::AddOutcome;
use headless::session::DevServer;
use headless::workspace::{ShareState, WorktreeMetadata};

fn desired(entries: &[(u64, &str)]) -> DesiredWorkspaceSet {
    let mut workspaces = Vec::new();
    for (id, path) in entries {
        workspaces.push(DesiredWorkspace { id: *id, path: (*path).to_string() });
    }
    DesiredWorkspaceSet { workspaces }
}

fn ok_outcome(project_id: u64) -> Option<AddOutcome> {
    Some(AddOutcome { worktrees: vec![WorktreeMetadata { id: 1, root_name: "root".to_string() }], project_id })
}

#[test]
fn push_on_empty_session_registers_and_tracks() {
    let mut s = DevServer::new();
    let d = desired(&[(10, "/a")]);

    let diff = s.plan_instructions(&d);
    assert_eq!(diff.added.len(), 1, "exactly one register-and-share request is due");
    assert_eq!(diff.added[0].id, 10);
    assert_eq!(diff.added[0].path, "/a");
    assert_eq!(diff.removed.len(), 0);

    let r = s.apply_desired_state(&d, vec![ok_outcome(7)]);
    assert!(r.is_ok());
    assert_eq!(s.len(), 1);
    assert!(s.tracks(10));
    assert_eq!(s.state_of(10), Some(ShareState::Shared { project_id: 7 }));
}

#[test]
fn empty_push_unshares_everything() {
    let mut s = DevServer::new();
    let d = desired(&[(10, "/a")]);
    s.apply_desired_state(&d, vec![ok_outcome(7)]).unwrap();

    let empty = desired(&[]);
    let diff = s.plan_instructions(&empty);
    assert_eq!(diff.added.len(), 0);
    assert_eq!(diff.removed, vec![10], "exactly one unshare is due");

    let unshared = s.apply_desired_state(&empty, vec![]).unwrap();
    assert_eq!(unshared.len(), 1);
    assert_eq!(unshared[0].state, ShareState::Unshared);
    assert_eq!(unshared[0].path, "/a");
    assert_eq!(s.len(), 0);
    assert!(!s.tracks(10));
}

#[test]
fn tracked_ids_follow_desired_ids() {
    let mut s = DevServer::new();
    let d1 = desired(&[(1, "/one"), (2, "/two")]);
    s.apply_desired_state(&d1, vec![ok_outcome(11), ok_outcome(12)]).unwrap();
    assert!(s.tracks(1) && s.tracks(2) && s.len() == 2);

    let d2 = desired(&[(2, "/two"), (3, "/three")]);
    s.apply_desired_state(&d2, vec![ok_outcome(13)]).unwrap();
    assert_eq!(s.len(), 2);
    assert!(!s.tracks(1));
    assert!(s.tracks(2));
    assert!(s.tracks(3));
}

#[test]
fn second_identical_push_plans_no_work() {
    let mut s = DevServer::new();
    let d = desired(&[(4, "/p"), (9, "/q")]);
    s.apply_desired_state(&d, vec![ok_outcome(1), ok_outcome(2)]).unwrap();

    let diff = s.plan_instructions(&d);
    assert_eq!(diff.added.len(), 0, "re-applying the same set plans no additions");
    assert_eq!(diff.removed.len(), 0, "re-applying the same set plans no removals");

    let r = s.apply_desired_state(&d, vec![]);
    assert!(r.is_ok());
    assert_eq!(s.len(), 2);
    assert_eq!(s.state_of(4), Some(ShareState::Shared { project_id: 1 }));
}

#[test]
fn additions_resolve_before_removals() {
    // Transition {A, B} -> {B, C}: C must be tracked before A is removed.
    let mut s = DevServer::new();
    let d1 = desired(&[(1, "/a"), (2, "/b")]);
    s.apply_desired_state(&d1, vec![ok_outcome(21), ok_outcome(22)]).unwrap();

    let d2 = desired(&[(2, "/b"), (3, "/c")]);
    let diff = s.plan_instructions(&d2);
    assert_eq!(diff.added.len(), 1);
    assert_eq!(diff.removed, vec![1]);

    s.apply_additions(&diff.added, vec![ok_outcome(23)]);
    // Mid-pass: the addition is fully resolved while the stale id is still tracked.
    assert!(s.tracks(3), "the addition is tracked before any removal");
    assert!(s.tracks(1), "nothing is removed during the addition phase");
    assert_eq!(s.len(), 3);

    let unshared = s.apply_removals(&diff.removed);
    assert_eq!(unshared.len(), 1);
    assert!(!s.tracks(1));
    assert!(s.tracks(2) && s.tracks(3));
}

#[test]
fn failed_registration_is_reported_and_retried() {
    let mut s = DevServer::new();
    let d = desired(&[(5, "/x"), (6, "/y")]);

    let err = s.apply_desired_state(&d, vec![None, ok_outcome(31)]).unwrap_err();
    assert_eq!(err.failed, vec![5], "the failed id is reported");
    assert!(!s.tracks(5), "a failed registration leaves the id untracked");
    assert!(s.tracks(6), "a sibling failure does not abort the other additions");

    // The next identical push retries exactly the failed id.
    let diff = s.plan_instructions(&d);
    assert_eq!(diff.added.len(), 1);
    assert_eq!(diff.added[0].id, 5);
    assert_eq!(diff.removed.len(), 0);

    s.apply_desired_state(&d, vec![ok_outcome(32)]).unwrap();
    assert!(s.tracks(5) && s.tracks(6));
}

#[test]
fn workspace_lookup_is_read_only() {
    let mut s = DevServer::new();
    let d = desired(&[(10, "/a")]);
    s.apply_desired_state(&d, vec![ok_outcome(7)]).unwrap();

    let w = s.workspace_for(10).expect("tracked workspace is visible");
    assert_eq!(w.path, "/a");
    assert_eq!(w.state, ShareState::Shared { project_id: 7 });
    assert!(s.workspace_for(11).is_none());
    // Looking a workspace up never removes it from the tracked set.
    assert_eq!(s.len(), 1);
    assert!(s.tracks(10));
}

#[test]
fn unshare_of_untracked_id_is_a_no_op() {
    let mut s = DevServer::new();
    let d = desired(&[(1, "/a")]);
    s.apply_desired_state(&d, vec![ok_outcome(41)]).unwrap();
    assert!(s.unshare_project(99).is_none());
    assert_eq!(s.len(), 1);
    let w = s.unshare_project(1).unwrap();
    assert_eq!(w.state, ShareState::Unshared);
    assert_eq!(s.len(), 0);
}
