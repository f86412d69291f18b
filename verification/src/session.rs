//! The session singleton's state: the mapping from stable remote workspace
//! ids to the workspace handles the session currently considers shared.
//! This map is the single source of truth for "what is shared right now";
//! only the reconciliation pass and the resync protocol mutate it.

use vstd::prelude::*;
use crate::workspace::{ShareState, Workspace, WorktreeMetadata};

verus! {

/// One entry of the tracked set: a server-assigned remote workspace id,
/// stable across reconnects, and the owned workspace handle shared under
/// it.
pub struct TrackedWorkspace {
    pub id: u64,
    pub workspace: Workspace,
}

impl Clone for TrackedWorkspace {
    fn clone(&self) -> (res: Self)
        ensures
            res.id == self.id,
            res.workspace.path == self.workspace.path,
            res.workspace.worktrees@ == self.workspace.worktrees@,
            res.workspace.state == self.workspace.state,
    {
        TrackedWorkspace { id: self.id, workspace: self.workspace.clone() }
    }
}

/// The remote workspace ids of a tracked sequence, in order.
pub open spec fn ids_of(entries: Seq<TrackedWorkspace>) -> Seq<u64> {
    entries.map_values(|t: TrackedWorkspace| t.id)
}

/// The set of remote workspace ids of a tracked sequence.
pub open spec fn id_set_of(entries: Seq<TrackedWorkspace>) -> Set<u64> {
    ids_of(entries).to_set()
}

/// A tracked sequence is well formed when its ids are distinct: it is a
/// map keyed by remote workspace id.
pub open spec fn entries_wf(entries: Seq<TrackedWorkspace>) -> bool {
    ids_of(entries).no_duplicates()
}

/// The index of the entry with the given id, meaningful when the id is
/// tracked; unique in a well-formed sequence.
pub open spec fn idx_of(entries: Seq<TrackedWorkspace>, id: u64) -> int {
    choose|i: int| 0 <= i < entries.len() && entries[i].id == id
}

/// The workspace tracked under the given id, meaningful when the id is
/// tracked.
pub open spec fn workspace_of(entries: Seq<TrackedWorkspace>, id: u64) -> Workspace {
    entries[idx_of(entries, id)].workspace
}

/// The predicate an entry must satisfy to survive the removal of `id`.
pub open spec fn keeps_id(id: u64) -> spec_fn(TrackedWorkspace) -> bool {
    |t: TrackedWorkspace| t.id != id
}

/// An id is in the id set exactly when some entry carries it.
pub proof fn lemma_id_set_contains(entries: Seq<TrackedWorkspace>, id: u64)
    ensures
        id_set_of(entries).contains(id) <==> exists|i: int|
            0 <= i < entries.len() && #[trigger] entries[i].id == id,
{
    if exists|i: int| 0 <= i < entries.len() && #[trigger] entries[i].id == id {
        let i = choose|i: int| 0 <= i < entries.len() && #[trigger] entries[i].id == id;
        assert(ids_of(entries)[i] == id);
        assert(ids_of(entries).contains(id));
    }
    if id_set_of(entries).contains(id) {
        let i = choose|i: int| 0 <= i < ids_of(entries).len() && ids_of(entries)[i] == id;
        assert(entries[i].id == id);
    }
}

/// The session's tracked-workspace state.
pub struct DevServer {
    projects: Vec<TrackedWorkspace>,
}

impl DevServer {
    /// The tracked entries, in insertion order.
    pub closed spec fn entries(self) -> Seq<TrackedWorkspace> {
        self.projects@
    }

    /// The set of remote workspace ids currently believed shared.
    pub open spec fn id_set(self) -> Set<u64> {
        id_set_of(self.entries())
    }

    /// The tracked map is well formed: each id appears at most once.
    pub open spec fn wf(self) -> bool {
        entries_wf(self.entries())
    }

    /// A fresh session tracks nothing.
    pub fn new() -> (s: DevServer)
        ensures
            s.entries() == Seq::<TrackedWorkspace>::empty(),
            s.wf(),
    {
        DevServer { projects: Vec::new() }
    }

    /// How many workspaces are currently tracked.
    pub fn len(&self) -> (n: usize)
        ensures
            n == self.entries().len(),
    {
        self.projects.len()
    }

    /// The entry at position `i`.
    pub fn entry_at(&self, i: usize) -> (t: &TrackedWorkspace)
        requires
            i < self.entries().len(),
        ensures
            *t == self.entries()[i as int],
    {
        &self.projects[i]
    }

    /// Mark the workspace at position `i` reshared under `project_id`,
    /// adopting the given content-root descriptors; every other entry is
    /// untouched.
    pub fn reshare_at(&mut self, i: usize, project_id: u64, worktrees: Vec<WorktreeMetadata>)
        requires
            old(self).wf(),
            i < old(self).entries().len(),
        ensures
            final(self).wf(),
            final(self).entries().len() == old(self).entries().len(),
            final(self).entries()[i as int].id == old(self).entries()[i as int].id,
            final(self).entries()[i as int].workspace.path == old(self).entries()[
                i as int
            ].workspace.path,
            final(self).entries()[i as int].workspace.worktrees == worktrees,
            final(self).entries()[i as int].workspace.state == (ShareState::Reshared {
                project_id,
            }),
            forall|j: int|
                0 <= j < old(self).entries().len() && j != i ==> final(self).entries()[j] == old(
                    self,
                ).entries()[j],
    {
        let mut entry = self.projects[i].clone();
        entry.workspace.mark_reshared(project_id, worktrees);
        self.projects[i] = entry;
        proof {
            assert(ids_of(self.entries()) =~= ids_of(old(self).entries()));
        }
    }

    /// The remote workspace id of the entry at position `i`.
    pub fn id_at(&self, i: usize) -> (id: u64)
        requires
            i < self.entries().len(),
        ensures
            id == self.entries()[i as int].id,
    {
        self.projects[i].id
    }

    /// The index of the entry tracked under `id`, if any.
    fn index_of_id(&self, id: u64) -> (r: Option<usize>)
        ensures
            match r {
                Some(i) => i < self.entries().len() && self.entries()[i as int].id == id,
                None => !self.id_set().contains(id),
            },
    {
        let mut i: usize = 0;
        while i < self.projects.len()
            invariant
                i <= self.projects.len(),
                forall|j: int| 0 <= j < i ==> #[trigger] self.projects@[j].id != id,
            decreases self.projects.len() - i,
        {
            if self.projects[i].id == id {
                return Some(i);
            }
            i = i + 1;
        }
        proof {
            lemma_id_set_contains(self.entries(), id);
        }
        None
    }

    /// Whether a workspace is tracked under `id`.
    pub fn tracks(&self, id: u64) -> (r: bool)
        ensures
            r == self.id_set().contains(id),
    {
        proof {
            lemma_id_set_contains(self.entries(), id);
        }
        self.index_of_id(id).is_some()
    }

    /// The sharing state of the workspace tracked under `id`, if any.
    pub fn state_of(&self, id: u64) -> (r: Option<ShareState>)
        requires
            self.wf(),
        ensures
            match r {
                Some(st) => self.id_set().contains(id) && st == workspace_of(
                    self.entries(),
                    id,
                ).state,
                None => !self.id_set().contains(id),
            },
    {
        match self.index_of_id(id) {
            Some(i) => {
                proof {
                    lemma_id_set_contains(self.entries(), id);
                    let k = idx_of(self.entries(), id);
                    assert(ids_of(self.entries())[k] == id);
                    assert(ids_of(self.entries())[i as int] == id);
                    assert(k == i as int);
                }
                Some(self.projects[i].workspace.state)
            },
            None => None,
        }
    }

    /// Lookup-only access for UI-facing collaborators: the live workspace
    /// tracked under `id`, if any. The borrow never participates in
    /// ownership of the tracked set and cannot remove the entry.
    pub fn workspace_for(&self, id: u64) -> (r: Option<&Workspace>)
        requires
            self.wf(),
        ensures
            match r {
                Some(w) => self.id_set().contains(id) && *w == workspace_of(self.entries(), id),
                None => !self.id_set().contains(id),
            },
    {
        match self.index_of_id(id) {
            Some(i) => {
                proof {
                    lemma_id_set_contains(self.entries(), id);
                    let k = idx_of(self.entries(), id);
                    assert(ids_of(self.entries())[k] == id);
                    assert(ids_of(self.entries())[i as int] == id);
                    assert(k == i as int);
                }
                Some(&self.projects[i].workspace)
            },
            None => None,
        }
    }

    /// Insert a workspace under a fresh remote workspace id. The tracked
    /// map grows by exactly this entry; everything already tracked is
    /// untouched.
    pub fn insert_shared(&mut self, id: u64, workspace: Workspace)
        requires
            old(self).wf(),
            !old(self).id_set().contains(id),
        ensures
            final(self).wf(),
            final(self).entries() == old(self).entries().push(TrackedWorkspace { id, workspace }),
    {
        proof {
            lemma_id_set_contains(self.entries(), id);
        }
        self.projects.push(TrackedWorkspace { id, workspace });
        proof {
            let pre = old(self).entries();
            let post = self.entries();
            assert(ids_of(post) =~= ids_of(pre).push(id));
            assert forall|i: int, j: int|
                0 <= i < ids_of(post).len() && 0 <= j < ids_of(post).len() && i
                    != j implies ids_of(post)[i] != ids_of(post)[j] by {
                if i < ids_of(pre).len() && j < ids_of(pre).len() {
                } else if i == ids_of(pre).len() {
                    assert(pre[j].id != id);
                } else {
                    assert(pre[i].id != id);
                }
            }
        }
    }

    /// Drop `id` from the tracked set, marking its workspace unshared and
    /// handing it back; `None` when nothing is tracked under `id`. Every
    /// other entry is untouched.
    pub fn unshare_project(&mut self, id: u64) -> (r: Option<Workspace>)
        requires
            old(self).wf(),
        ensures
            final(self).wf(),
            final(self).entries() == old(self).entries().filter(keeps_id(id)),
            r is Some <==> old(self).id_set().contains(id),
            r is Some ==> {
                let w = workspace_of(old(self).entries(), id);
                r->Some_0.path == w.path && r->Some_0.worktrees == w.worktrees
                    && r->Some_0.state == ShareState::Unshared
            },
    {
        let ghost pre = self.entries();
        proof {
            lemma_id_set_contains(pre, id);
        }
        match self.index_of_id(id) {
            Some(k) => {
                let mut w = self.projects.remove(k);
                w.workspace.mark_unshared();
                proof {
                    lemma_remove_tracked_is_filter(pre, k as int, id);
                    let i = idx_of(pre, id);
                    assert(ids_of(pre)[i] == id);
                    assert(ids_of(pre)[k as int] == id);
                    assert(i == k as int);
                    crate::seq_lemmas::lemma_filter_no_duplicates(ids_of(pre), |x: u64| x != id);
                    lemma_ids_filter_commute(pre, id);
                }
                Some(w.workspace)
            },
            None => {
                proof {
                    crate::seq_lemmas::lemma_filter_all_true(pre, keeps_id(id));
                }
                None
            },
        }
    }
}

/// Removing the (unique) entry carrying `id` is the same as filtering the
/// sequence down to the entries that keep their place.
proof fn lemma_remove_tracked_is_filter(entries: Seq<TrackedWorkspace>, k: int, id: u64)
    requires
        entries_wf(entries),
        0 <= k < entries.len(),
        entries[k].id == id,
    ensures
        entries.remove(k) == entries.filter(keeps_id(id)),
{
    broadcast use Seq::filter_distributes_over_add;

    let prefix = entries.subrange(0, k);
    let mid = entries.subrange(k, k + 1);
    let suffix = entries.subrange(k + 1, entries.len() as int);
    assert(entries =~= prefix + mid + suffix);
    assert forall|i: int| 0 <= i < prefix.len() implies keeps_id(id)(#[trigger] prefix[i]) by {
        assert(ids_of(entries)[i] != ids_of(entries)[k]);
    }
    assert forall|i: int| 0 <= i < suffix.len() implies keeps_id(id)(#[trigger] suffix[i]) by {
        assert(ids_of(entries)[k + 1 + i] != ids_of(entries)[k]);
    }
    crate::seq_lemmas::lemma_filter_all_true(prefix, keeps_id(id));
    crate::seq_lemmas::lemma_filter_all_true(suffix, keeps_id(id));
    assert forall|i: int| 0 <= i < mid.len() implies !keeps_id(id)(#[trigger] mid[i]) by {
        assert(mid[i] == entries[k]);
    }
    crate::seq_lemmas::lemma_filter_all_false(mid, keeps_id(id));
    assert((prefix + mid).filter(keeps_id(id)) == prefix.filter(keeps_id(id)) + mid.filter(
        keeps_id(id),
    ));
    assert(entries.filter(keeps_id(id)) =~= prefix + suffix);
    assert(entries.remove(k) =~= prefix + suffix);
}

/// Filtering entries by id and then taking ids is the same as filtering
/// the ids.
proof fn lemma_ids_filter_commute(entries: Seq<TrackedWorkspace>, id: u64)
    ensures
        ids_of(entries.filter(keeps_id(id))) == ids_of(entries).filter(|x: u64| x != id),
    decreases entries.len(),
{
    reveal(Seq::filter);
    if entries.len() > 0 {
        let sub = entries.drop_last();
        lemma_ids_filter_commute(sub, id);
        assert(ids_of(entries).drop_last() =~= ids_of(sub));
        assert(ids_of(entries).last() == entries.last().id);
        if keeps_id(id)(entries.last()) {
            assert(ids_of(entries.filter(keeps_id(id))) =~= ids_of(sub.filter(keeps_id(id))).push(
                entries.last().id,
            ));
        } else {
            assert(ids_of(entries.filter(keeps_id(id))) =~= ids_of(sub.filter(keeps_id(id))));
        }
    } else {
        assert(ids_of(entries.filter(keeps_id(id))) =~= ids_of(entries).filter(
            |x: u64| x != id,
        ));
    }
}

} // verus!
