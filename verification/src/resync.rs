//! The resync protocol: on a reconnect, snapshot every workspace the
//! session still considers shared and, when the server answers with the
//! subset it restored, mark exactly those reshared. A workspace the
//! response does not name stays tracked untouched — tracking state is
//! never dropped on a partial resync; the next desired-state push settles
//! it.

use vstd::prelude::*;
use crate::messages::{ResyncSession, ResyncSessionResponse, ResyncWorkspace};
use crate::session::{DevServer, TrackedWorkspace};
use crate::workspace::{ShareState, WorktreeMetadata};

verus! {

/// The predicate an entry must satisfy to appear in a resync snapshot:
/// it is currently shared under some project id.
pub open spec fn has_remote_id() -> spec_fn(TrackedWorkspace) -> bool {
    |t: TrackedWorkspace| t.workspace.spec_remote_id() is Some
}

/// The entries a resync snapshot carries, in tracking order.
pub open spec fn spec_resyncable(entries: Seq<TrackedWorkspace>) -> Seq<TrackedWorkspace> {
    entries.filter(has_remote_id())
}

/// The position in the response that names project id `p`, meaningful
/// when the response names it; unique in a well-formed response.
pub open spec fn resp_idx(response: ResyncSessionResponse, p: u64) -> int {
    choose|j: int| 0 <= j < response.reshared@.len() && response.reshared@[j].project_id == p
}

/// How one tracked entry relates to its pre-resync self after the
/// response is applied: named by the response, it is reshared under its
/// project id with the descriptors the response carried; otherwise it is
/// exactly what it was.
pub open spec fn spec_resynced(
    t: TrackedWorkspace,
    u: TrackedWorkspace,
    response: ResyncSessionResponse,
) -> bool {
    u.id == t.id && if t.workspace.spec_remote_id() is Some && response.id_set().contains(
        t.workspace.spec_remote_id()->Some_0,
    ) {
        let p = t.workspace.spec_remote_id()->Some_0;
        u.workspace.path == t.workspace.path && u.workspace.state == (ShareState::Reshared {
            project_id: p,
        }) && u.workspace.worktrees@ == response.reshared@[resp_idx(response, p)].worktrees@
    } else {
        u == t
    }
}

/// A response names a project id exactly when one of its entries carries
/// it.
pub proof fn lemma_response_id_set_contains(response: ResyncSessionResponse, p: u64)
    ensures
        response.id_set().contains(p) <==> exists|j: int|
            0 <= j < response.reshared@.len() && #[trigger] response.reshared@[j].project_id == p,
{
    let rs = response.reshared@;
    let ids = rs.map_values(|r: crate::messages::ResharedWorkspace| r.project_id);
    if exists|j: int| 0 <= j < rs.len() && #[trigger] rs[j].project_id == p {
        let j = choose|j: int| 0 <= j < rs.len() && #[trigger] rs[j].project_id == p;
        assert(ids[j] == p);
        assert(ids.contains(p));
    }
    if response.id_set().contains(p) {
        let j = choose|j: int| 0 <= j < ids.len() && ids[j] == p;
        assert(rs[j].project_id == p);
    }
}

/// Partial resync tolerance: an entry whose project id the response does
/// not name is left exactly as it was — still tracked, and not marked
/// reshared.
pub proof fn lemma_partial_resync_tolerance(
    t: TrackedWorkspace,
    u: TrackedWorkspace,
    response: ResyncSessionResponse,
)
    requires
        spec_resynced(t, u, response),
        t.workspace.spec_remote_id() is Some ==> !response.id_set().contains(
            t.workspace.spec_remote_id()->Some_0,
        ),
    ensures
        u == t,
{
}

/// Copy a list of content-root descriptors.
fn clone_worktrees(v: &Vec<WorktreeMetadata>) -> (r: Vec<WorktreeMetadata>)
    ensures
        r@ == v@,
{
    let mut r: Vec<WorktreeMetadata> = Vec::new();
    let mut i: usize = 0;
    while i < v.len()
        invariant
            i <= v@.len(),
            r@ == v@.take(i as int),
        decreases v@.len() - i,
    {
        r.push(v[i].clone());
        proof {
            assert(r@ =~= v@.take(i + 1 as int));
        }
        i = i + 1;
    }
    proof {
        assert(r@ =~= v@);
    }
    r
}

/// The position in the response that names `pid`, if any.
fn find_reshared(response: &ResyncSessionResponse, pid: u64) -> (r: Option<usize>)
    ensures
        match r {
            Some(k) => k < response.reshared@.len() && response.reshared@[k as int].project_id
                == pid,
            None => !response.id_set().contains(pid),
        },
{
    let mut k: usize = 0;
    while k < response.reshared.len()
        invariant
            k <= response.reshared@.len(),
            forall|j: int| 0 <= j < k ==> #[trigger] response.reshared@[j].project_id != pid,
        decreases response.reshared@.len() - k,
    {
        if response.reshared[k].project_id == pid {
            return Some(k);
        }
        k = k + 1;
    }
    proof {
        lemma_response_id_set_contains(*response, pid);
    }
    None
}

impl DevServer {
    /// Snapshot everything needed to re-register the session's shared
    /// workspaces after a reconnect: for each tracked workspace currently
    /// shared under a project id, in tracking order, that id and its
    /// content-root descriptors.
    pub fn resync_snapshot(&self) -> (req: ResyncSession)
        ensures
            req.reshared@.len() == spec_resyncable(self.entries()).len(),
            forall|i: int|
                0 <= i < req.reshared@.len() ==> {
                    let t = spec_resyncable(self.entries())[i];
                    (#[trigger] req.reshared@[i]).project_id == t.workspace.spec_remote_id()->Some_0
                        && req.reshared@[i].worktrees@ == t.workspace.worktrees@
                },
    {
        let mut reshared: Vec<ResyncWorkspace> = Vec::new();
        let mut i: usize = 0;
        while i < self.len()
            invariant
                i <= self.entries().len(),
                reshared@.len() == spec_resyncable(self.entries().take(i as int)).len(),
                forall|j: int|
                    0 <= j < reshared@.len() ==> {
                        let t = spec_resyncable(self.entries().take(i as int))[j];
                        (#[trigger] reshared@[j]).project_id
                            == t.workspace.spec_remote_id()->Some_0 && reshared@[j].worktrees@
                            == t.workspace.worktrees@
                    },
            decreases self.entries().len() - i,
        {
            let t = self.entry_at(i);
            proof {
                self.entries().take(i as int).lemma_filter_push(
                    self.entries()[i as int],
                    has_remote_id(),
                );
                assert(self.entries().take(i + 1 as int) =~= self.entries().take(i as int).push(
                    self.entries()[i as int],
                ));
            }
            match t.workspace.remote_id() {
                Some(pid) => {
                    let worktrees = clone_worktrees(&t.workspace.worktrees);
                    reshared.push(ResyncWorkspace { project_id: pid, worktrees });
                },
                None => {},
            }
            i = i + 1;
        }
        proof {
            assert(self.entries().take(self.entries().len() as int) =~= self.entries());
        }
        ResyncSession { reshared }
    }

    /// Apply the server's resync response: each tracked workspace whose
    /// project id the response names is marked reshared with the
    /// descriptors the response carried; every other workspace — shared
    /// or not — is left exactly as it was. No entry is ever dropped.
    pub fn apply_resync_response(&mut self, response: &ResyncSessionResponse)
        requires
            old(self).wf(),
            response.wf(),
        ensures
            final(self).wf(),
            final(self).entries().len() == old(self).entries().len(),
            forall|i: int|
                0 <= i < old(self).entries().len() ==> #[trigger] spec_resynced(
                    old(self).entries()[i],
                    final(self).entries()[i],
                    *response,
                ),
    {
        let ghost orig = self.entries();
        let mut i: usize = 0;
        while i < self.len()
            invariant
                i <= orig.len(),
                self.wf(),
                response.wf(),
                self.entries().len() == orig.len(),
                forall|j: int|
                    0 <= j < i ==> #[trigger] spec_resynced(
                        orig[j],
                        self.entries()[j],
                        *response,
                    ),
                forall|j: int| i <= j < orig.len() ==> #[trigger] self.entries()[j] == orig[j],
            decreases orig.len() - i,
        {
            let ghost pre = self.entries();
            let pid_opt = self.entry_at(i).workspace.remote_id();
            match pid_opt {
                Some(pid) => {
                    match find_reshared(response, pid) {
                        Some(k) => {
                            let worktrees = clone_worktrees(&response.reshared[k].worktrees);
                            self.reshare_at(i, pid, worktrees);
                            proof {
                                lemma_response_id_set_contains(*response, pid);
                                let m = resp_idx(*response, pid);
                                assert(response.reshared@[m].project_id == pid);
                                let ids = response.reshared@.map_values(
                                    |r: crate::messages::ResharedWorkspace| r.project_id,
                                );
                                assert(ids[m] == pid && ids[k as int] == pid);
                                assert(m == k as int);
                                assert(spec_resynced(orig[i as int], self.entries()[i as int], *response));
                            }
                        },
                        None => {
                            proof {
                                assert(spec_resynced(orig[i as int], self.entries()[i as int], *response));
                            }
                        },
                    }
                },
                None => {
                    proof {
                        assert(spec_resynced(orig[i as int], self.entries()[i as int], *response));
                    }
                },
            }
            i = i + 1;
        }
    }
}

} // verus!
