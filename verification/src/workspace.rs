//! The local model of one shareable workspace: its filesystem path, the
//! content-root descriptors the server needs to (re)register it, and where it
//! stands in the sharing lifecycle.

use vstd::prelude::*;

verus! {

/// One content root of a workspace, as reported to the server when the
/// workspace is registered or re-registered.
#[derive(Debug)]
pub struct WorktreeMetadata {
    pub id: u64,
    pub root_name: String,
}

impl Clone for WorktreeMetadata {
    fn clone(&self) -> (res: Self)
        ensures
            res == self,
    {
        WorktreeMetadata { id: self.id, root_name: self.root_name.clone() }
    }
}

/// Where a workspace stands in the sharing lifecycle.
///
/// A workspace is created locally, becomes `Shared` once the server
/// acknowledges its registration with a session-scoped numeric project id,
/// becomes `Reshared` when a resync after a reconnect restores it under a
/// project id, and becomes `Unshared` when it is dropped from the tracked
/// set.
#[derive(Clone, Copy, PartialEq, Eq, Structural, Debug)]
pub enum ShareState {
    Local,
    Shared { project_id: u64 },
    Reshared { project_id: u64 },
    Unshared,
}

impl ShareState {
    /// The session-scoped numeric project id under which the workspace is
    /// currently shared, if any.
    pub open spec fn spec_project_id(self) -> Option<u64> {
        match self {
            ShareState::Local => None,
            ShareState::Shared { project_id } => Some(project_id),
            ShareState::Reshared { project_id } => Some(project_id),
            ShareState::Unshared => None,
        }
    }
}

/// One locally held workspace handle.
#[derive(Debug)]
pub struct Workspace {
    pub path: String,
    pub worktrees: Vec<WorktreeMetadata>,
    pub state: ShareState,
}

impl Clone for Workspace {
    fn clone(&self) -> (res: Self)
        ensures
            res.path == self.path,
            res.worktrees@ == self.worktrees@,
            res.state == self.state,
    {
        let mut worktrees: Vec<WorktreeMetadata> = Vec::new();
        let mut i: usize = 0;
        while i < self.worktrees.len()
            invariant
                i <= self.worktrees.len(),
                worktrees@ == self.worktrees@.take(i as int),
            decreases self.worktrees.len() - i,
        {
            worktrees.push(self.worktrees[i].clone());
            proof {
                assert(worktrees@ =~= self.worktrees@.take(i + 1 as int));
            }
            i = i + 1;
        }
        proof {
            assert(worktrees@ =~= self.worktrees@);
        }
        Workspace { path: self.path.clone(), worktrees, state: self.state }
    }
}

impl Workspace {
    /// The project id under which this workspace is currently shared, if any.
    pub open spec fn spec_remote_id(self) -> Option<u64> {
        self.state.spec_project_id()
    }

    /// Create a workspace from a local filesystem path. It is not shared
    /// yet and has no indexed content roots.
    pub fn create_local(path: String) -> (w: Workspace)
        ensures
            w.path == path,
            w.worktrees@ == Seq::<WorktreeMetadata>::empty(),
            w.state == ShareState::Local,
    {
        Workspace { path, worktrees: Vec::new(), state: ShareState::Local }
    }

    /// Record the content-root descriptors produced by indexing the
    /// workspace's path.
    pub fn set_worktrees(&mut self, worktrees: Vec<WorktreeMetadata>)
        ensures
            final(self).path == old(self).path,
            final(self).state == old(self).state,
            final(self).worktrees == worktrees,
    {
        self.worktrees = worktrees;
    }

    /// The project id under which this workspace is currently shared, if any.
    pub fn remote_id(&self) -> (r: Option<u64>)
        ensures
            r == self.spec_remote_id(),
    {
        match self.state {
            ShareState::Shared { project_id } => Some(project_id),
            ShareState::Reshared { project_id } => Some(project_id),
            _ => None,
        }
    }

    /// The server acknowledged registration under `project_id`.
    pub fn mark_shared(&mut self, project_id: u64)
        ensures
            final(self).path == old(self).path,
            final(self).worktrees == old(self).worktrees,
            final(self).state == (ShareState::Shared { project_id }),
    {
        self.state = ShareState::Shared { project_id };
    }

    /// The workspace left the tracked set.
    pub fn mark_unshared(&mut self)
        ensures
            final(self).path == old(self).path,
            final(self).worktrees == old(self).worktrees,
            final(self).state == ShareState::Unshared,
    {
        self.state = ShareState::Unshared;
    }

    /// A resync restored this workspace under `project_id`, possibly with
    /// updated content-root descriptors.
    pub fn mark_reshared(&mut self, project_id: u64, worktrees: Vec<WorktreeMetadata>)
        ensures
            final(self).path == old(self).path,
            final(self).worktrees == worktrees,
            final(self).state == (ShareState::Reshared { project_id }),
    {
        self.worktrees = worktrees;
        self.state = ShareState::Reshared { project_id };
    }
}

} // verus!
