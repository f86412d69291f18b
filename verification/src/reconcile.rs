//! The reconciliation engine: diff a pushed desired-state snapshot against
//! the tracked set, register the workspaces that are new, and only after
//! every addition is resolved drop the workspaces the server no longer
//! wants shared.
//!
//! The driver performs the outside work of one pass — creating a local
//! workspace, waiting for its content roots, and the register-and-share
//! request — and hands the outcomes back in; everything decided here is
//! verified.

use vstd::prelude::*;
use crate::messages::{DesiredWorkspace, DesiredWorkspaceSet};
use crate::seq_lemmas::{lemma_filter_all_false, lemma_filter_membership, lemma_filter_no_duplicates};
use crate::session::{
    entries_wf, id_set_of, ids_of, lemma_id_set_contains, keeps_id, workspace_of, DevServer,
    TrackedWorkspace,
};
use crate::workspace::{ShareState, Workspace, WorktreeMetadata};

verus! {

/// The work one desired-state push asks for: the entries to register and
/// share (in push order), and the ids to drop.
pub struct InstructionDiff {
    pub added: Vec<DesiredWorkspace>,
    pub removed: Vec<u64>,
}

/// The predicate a desired entry must satisfy to be an addition: its id is
/// not tracked yet.
pub open spec fn is_new_pred(tracked_ids: Set<u64>) -> spec_fn(DesiredWorkspace) -> bool {
    |w: DesiredWorkspace| !tracked_ids.contains(w.id)
}

/// The predicate a tracked id must satisfy to be a removal: the desired
/// set no longer lists it.
pub open spec fn is_stale_pred(desired_ids: Set<u64>) -> spec_fn(u64) -> bool {
    |id: u64| !desired_ids.contains(id)
}

/// The additions a desired-state snapshot asks for, in push order.
pub open spec fn spec_added(
    entries: Seq<TrackedWorkspace>,
    desired: DesiredWorkspaceSet,
) -> Seq<DesiredWorkspace> {
    desired.workspaces@.filter(is_new_pred(id_set_of(entries)))
}

/// The removals a desired-state snapshot asks for, in tracking order.
pub open spec fn spec_removed(
    entries: Seq<TrackedWorkspace>,
    desired: DesiredWorkspaceSet,
) -> Seq<u64> {
    ids_of(entries).filter(is_stale_pred(desired.id_set()))
}

/// The outside outcome of registering one added workspace: the content
/// roots that indexing produced, and the project id the server assigned.
pub struct AddOutcome {
    pub worktrees: Vec<WorktreeMetadata>,
    pub project_id: u64,
}

/// The tracked entry one successful addition creates.
pub open spec fn spec_new_entry(w: DesiredWorkspace, oc: AddOutcome) -> TrackedWorkspace {
    TrackedWorkspace {
        id: w.id,
        workspace: Workspace {
            path: w.path,
            worktrees: oc.worktrees,
            state: ShareState::Shared { project_id: oc.project_id },
        },
    }
}

/// The tracked entries after the addition phase: each addition whose
/// registration succeeded is appended, in order; failed ones leave no
/// trace.
pub open spec fn spec_after_additions(
    entries: Seq<TrackedWorkspace>,
    added: Seq<DesiredWorkspace>,
    outcomes: Seq<Option<AddOutcome>>,
) -> Seq<TrackedWorkspace>
    decreases added.len(),
{
    if added.len() == 0 {
        entries
    } else {
        let prev = spec_after_additions(entries, added.drop_last(), outcomes.drop_last());
        if outcomes[added.len() - 1] is Some {
            prev.push(spec_new_entry(added.last(), outcomes[added.len() - 1]->Some_0))
        } else {
            prev
        }
    }
}

/// The ids of the additions whose registration succeeded.
pub open spec fn spec_succeeded(
    added: Seq<DesiredWorkspace>,
    outcomes: Seq<Option<AddOutcome>>,
) -> Set<u64>
    decreases added.len(),
{
    if added.len() == 0 {
        Set::<u64>::empty()
    } else {
        let rest = spec_succeeded(added.drop_last(), outcomes.drop_last());
        if outcomes[added.len() - 1] is Some {
            rest.insert(added.last().id)
        } else {
            rest
        }
    }
}

/// The ids of the additions whose registration failed, in push order.
pub open spec fn spec_failed(
    added: Seq<DesiredWorkspace>,
    outcomes: Seq<Option<AddOutcome>>,
) -> Seq<u64>
    decreases added.len(),
{
    if added.len() == 0 {
        Seq::<u64>::empty()
    } else {
        let rest = spec_failed(added.drop_last(), outcomes.drop_last());
        if outcomes[added.len() - 1] is None {
            rest.push(added.last().id)
        } else {
            rest
        }
    }
}

/// What a workspace becomes when it is unshared.
pub open spec fn spec_unshared_one(w: Workspace) -> Workspace {
    Workspace { path: w.path, worktrees: w.worktrees, state: ShareState::Unshared }
}

/// The workspaces the removal phase hands back, in removal order: for
/// each listed id that is tracked at its turn, its workspace marked
/// unshared.
pub open spec fn spec_unshared(entries: Seq<TrackedWorkspace>, removed: Seq<u64>) -> Seq<Workspace>
    decreases removed.len(),
{
    if removed.len() == 0 {
        Seq::<Workspace>::empty()
    } else {
        let head = if id_set_of(entries).contains(removed[0]) {
            seq![spec_unshared_one(workspace_of(entries, removed[0]))]
        } else {
            Seq::<Workspace>::empty()
        };
        head + spec_unshared(entries.filter(keeps_id(removed[0])), removed.drop_first())
    }
}

/// The tracked entries after the removal phase: the listed ids are dropped
/// one by one; everything else keeps its place.
pub open spec fn spec_after_removals(
    entries: Seq<TrackedWorkspace>,
    removed: Seq<u64>,
) -> Seq<TrackedWorkspace>
    decreases removed.len(),
{
    if removed.len() == 0 {
        entries
    } else {
        spec_after_removals(entries.filter(keeps_id(removed[0])), removed.drop_first())
    }
}

/// A reconciliation pass in which some registrations failed. The failed
/// ids stay untracked, so the next push that still lists them retries.
#[derive(Debug)]
pub struct ReconcileError {
    pub failed: Vec<u64>,
}

/// A desired-state snapshot names an id exactly when one of its entries
/// carries it.
pub proof fn lemma_desired_id_set_contains(desired: DesiredWorkspaceSet, id: u64)
    ensures
        desired.id_set().contains(id) <==> exists|i: int|
            0 <= i < desired.workspaces@.len() && #[trigger] desired.workspaces@[i].id == id,
{
    let ws = desired.workspaces@;
    let ids = ws.map_values(|w: DesiredWorkspace| w.id);
    if exists|i: int| 0 <= i < ws.len() && #[trigger] ws[i].id == id {
        let i = choose|i: int| 0 <= i < ws.len() && #[trigger] ws[i].id == id;
        assert(ids[i] == id);
        assert(ids.contains(id));
    }
    if desired.id_set().contains(id) {
        let i = choose|i: int| 0 <= i < ids.len() && ids[i] == id;
        assert(ws[i].id == id);
    }
}

/// Mapping a filtered desired sequence to ids is the same as filtering the
/// ids, when the predicate only looks at the id.
proof fn lemma_added_ids_filter_commute(
    ws: Seq<DesiredWorkspace>,
    pred: spec_fn(DesiredWorkspace) -> bool,
    idp: spec_fn(u64) -> bool,
)
    requires
        forall|w: DesiredWorkspace| #[trigger] pred(w) == idp(w.id),
    ensures
        ws.filter(pred).map_values(|w: DesiredWorkspace| w.id) == ws.map_values(
            |w: DesiredWorkspace| w.id,
        ).filter(idp),
    decreases ws.len(),
{
    reveal(Seq::filter);
    let f = |w: DesiredWorkspace| w.id;
    if ws.len() > 0 {
        let sub = ws.drop_last();
        lemma_added_ids_filter_commute(sub, pred, idp);
        assert(ws.map_values(f).drop_last() =~= sub.map_values(f));
        assert(ws.map_values(f).last() == ws.last().id);
        if pred(ws.last()) {
            assert(ws.filter(pred).map_values(f) =~= sub.filter(pred).map_values(f).push(
                ws.last().id,
            ));
        } else {
            assert(ws.filter(pred).map_values(f) =~= sub.filter(pred).map_values(f));
        }
    } else {
        assert(ws.filter(pred).map_values(f) =~= ws.map_values(f).filter(idp));
    }
}

/// Membership in the succeeded-id set: an id succeeded exactly when some
/// addition carries it and its outcome is a success.
pub proof fn lemma_succeeded_membership(
    added: Seq<DesiredWorkspace>,
    outcomes: Seq<Option<AddOutcome>>,
)
    requires
        outcomes.len() == added.len(),
    ensures
        forall|x: u64| #[trigger] spec_succeeded(added, outcomes).contains(x) <==> exists|i: int|
            0 <= i < added.len() && outcomes[i] is Some && #[trigger] added[i].id == x,
    decreases added.len(),
{
    if added.len() > 0 {
        lemma_succeeded_membership(added.drop_last(), outcomes.drop_last());
        let n = added.len() - 1;
        assert forall|x: u64| #[trigger] spec_succeeded(added, outcomes).contains(
            x,
        ) implies exists|i: int|
            0 <= i < added.len() && outcomes[i] is Some && #[trigger] added[i].id == x by {
            if outcomes[n] is Some && added.last().id == x {
                assert(added[n].id == x);
            } else {
                assert(spec_succeeded(added.drop_last(), outcomes.drop_last()).contains(x));
                let i = choose|i: int|
                    0 <= i < added.drop_last().len() && outcomes.drop_last()[i] is Some
                        && #[trigger] added.drop_last()[i].id == x;
                assert(added[i].id == x);
            }
        }
        assert forall|x: u64|
            exists|i: int|
                0 <= i < added.len() && outcomes[i] is Some && #[trigger] added[i].id
                    == x implies #[trigger] spec_succeeded(added, outcomes).contains(x) by {
            let i = choose|i: int|
                0 <= i < added.len() && outcomes[i] is Some && #[trigger] added[i].id == x;
            if i < n {
                assert(added.drop_last()[i].id == x);
                assert(outcomes.drop_last()[i] is Some);
                assert(spec_succeeded(added.drop_last(), outcomes.drop_last()).contains(x));
            }
        }
    }
}

/// The id set after the addition phase: the ids already tracked plus the
/// ids of the additions that succeeded.
pub proof fn lemma_after_additions_ids(
    entries: Seq<TrackedWorkspace>,
    added: Seq<DesiredWorkspace>,
    outcomes: Seq<Option<AddOutcome>>,
)
    requires
        outcomes.len() == added.len(),
    ensures
        id_set_of(spec_after_additions(entries, added, outcomes)) == id_set_of(entries).union(
            spec_succeeded(added, outcomes),
        ),
    decreases added.len(),
{
    if added.len() == 0 {
        assert(id_set_of(spec_after_additions(entries, added, outcomes)) =~= id_set_of(
            entries,
        ).union(spec_succeeded(added, outcomes)));
    } else {
        lemma_after_additions_ids(entries, added.drop_last(), outcomes.drop_last());
        let prev = spec_after_additions(entries, added.drop_last(), outcomes.drop_last());
        let cur = spec_after_additions(entries, added, outcomes);
        if outcomes[added.len() - 1] is Some {
            let entry = spec_new_entry(added.last(), outcomes[added.len() - 1]->Some_0);
            assert(cur == prev.push(entry));
            assert forall|x: u64| #[trigger] id_set_of(cur).contains(x) implies id_set_of(
                prev,
            ).contains(x) || x == entry.id by {
                lemma_id_set_contains(cur, x);
                let i = choose|i: int| 0 <= i < cur.len() && #[trigger] cur[i].id == x;
                if i < prev.len() {
                    lemma_id_set_contains(prev, x);
                }
            }
            assert forall|x: u64| id_set_of(prev).contains(x) || x == entry.id implies #[trigger]
            id_set_of(cur).contains(x) by {
                lemma_id_set_contains(prev, x);
                lemma_id_set_contains(cur, x);
                if id_set_of(prev).contains(x) {
                    let i = choose|i: int| 0 <= i < prev.len() && #[trigger] prev[i].id == x;
                    assert(cur[i].id == x);
                } else {
                    assert(cur[cur.len() - 1].id == x);
                }
            }
            assert(id_set_of(cur) =~= id_set_of(entries).union(spec_succeeded(added, outcomes)));
        } else {
            assert(id_set_of(cur) =~= id_set_of(entries).union(spec_succeeded(added, outcomes)));
        }
    }
}

/// The id set after the removal phase: an id survives exactly when it was
/// there and is not listed for removal.
pub proof fn lemma_after_removals_ids(entries: Seq<TrackedWorkspace>, removed: Seq<u64>)
    ensures
        forall|x: u64|
            #[trigger] id_set_of(spec_after_removals(entries, removed)).contains(x) <==> (
            id_set_of(entries).contains(x) && !removed.contains(x)),
    decreases removed.len(),
{
    if removed.len() > 0 {
        let filtered = entries.filter(keeps_id(removed[0]));
        lemma_after_removals_ids(filtered, removed.drop_first());
        lemma_filter_membership(entries, keeps_id(removed[0]));
        assert(spec_after_removals(entries, removed) == spec_after_removals(
            filtered,
            removed.drop_first(),
        ));
        assert forall|x: u64| #[trigger] id_set_of(filtered).contains(x) <==> (id_set_of(
            entries,
        ).contains(x) && x != removed[0]) by {
            lemma_id_set_contains(filtered, x);
            lemma_id_set_contains(entries, x);
            if id_set_of(filtered).contains(x) {
                let i = choose|i: int| 0 <= i < filtered.len() && #[trigger] filtered[i].id == x;
                assert(filtered.contains(filtered[i]));
            }
            if id_set_of(entries).contains(x) && x != removed[0] {
                let i = choose|i: int| 0 <= i < entries.len() && #[trigger] entries[i].id == x;
                assert(entries.contains(entries[i]));
                assert(keeps_id(removed[0])(entries[i]));
                assert(filtered.contains(entries[i]));
                let j = choose|j: int| 0 <= j < filtered.len() && filtered[j] == entries[i];
                assert(filtered[j].id == x);
            }
        }
        assert forall|x: u64| #[trigger] removed.contains(x) <==> (x == removed[0]
            || removed.drop_first().contains(x)) by {
            if removed.contains(x) {
                let i = choose|i: int| 0 <= i < removed.len() && removed[i] == x;
                if i > 0 {
                    assert(removed.drop_first()[i - 1] == x);
                }
            }
            if removed.drop_first().contains(x) {
                let i = choose|i: int|
                    0 <= i < removed.drop_first().len() && removed.drop_first()[i] == x;
                assert(removed[i + 1] == x);
            }
        }
        assert forall|x: u64|
            #[trigger] id_set_of(spec_after_removals(entries, removed)).contains(x) <==> (
        id_set_of(entries).contains(x) && !removed.contains(x)) by {
            assert(id_set_of(spec_after_removals(filtered, removed.drop_first())).contains(x)
                <==> (id_set_of(filtered).contains(x) && !removed.drop_first().contains(x)));
        }
    }
}

/// Diff correctness: a full reconciliation pass in which every
/// registration succeeded leaves exactly the desired ids tracked,
/// whatever was tracked before.
pub proof fn lemma_diff_correctness(
    entries: Seq<TrackedWorkspace>,
    desired: DesiredWorkspaceSet,
    outcomes: Seq<Option<AddOutcome>>,
)
    requires
        desired.wf(),
        outcomes.len() == spec_added(entries, desired).len(),
        forall|i: int| 0 <= i < outcomes.len() ==> outcomes[i] is Some,
    ensures
        id_set_of(
            spec_after_removals(
                spec_after_additions(entries, spec_added(entries, desired), outcomes),
                spec_removed(entries, desired),
            ),
        ) == desired.id_set(),
{
    broadcast use vstd::seq_lib::group_filter_ensures;

    let added = spec_added(entries, desired);
    let removed = spec_removed(entries, desired);
    let mid = spec_after_additions(entries, added, outcomes);
    lemma_after_additions_ids(entries, added, outcomes);
    lemma_succeeded_membership(added, outcomes);
    lemma_after_removals_ids(mid, removed);
    lemma_filter_membership(desired.workspaces@, is_new_pred(id_set_of(entries)));
    lemma_filter_membership(ids_of(entries), is_stale_pred(desired.id_set()));
    let fin = spec_after_removals(mid, removed);
    assert forall|x: u64| #[trigger] desired.id_set().contains(x) implies id_set_of(fin).contains(
        x,
    ) by {
        lemma_desired_id_set_contains(desired, x);
        assert(!removed.contains(x));
        if id_set_of(entries).contains(x) {
        } else {
            let i = choose|i: int|
                0 <= i < desired.workspaces@.len() && #[trigger] desired.workspaces@[i].id == x;
            let w = desired.workspaces@[i];
            assert(desired.workspaces@.contains(w));
            assert(is_new_pred(id_set_of(entries))(w));
            assert(added.contains(w));
            let j = choose|j: int| 0 <= j < added.len() && added[j] == w;
            assert(added[j].id == x && outcomes[j] is Some);
            assert(spec_succeeded(added, outcomes).contains(x));
        }
    }
    assert forall|x: u64| #[trigger] id_set_of(fin).contains(x) implies desired.id_set().contains(
        x,
    ) by {
        assert(id_set_of(mid).contains(x) && !removed.contains(x));
        if spec_succeeded(added, outcomes).contains(x) {
            let i = choose|i: int|
                0 <= i < added.len() && outcomes[i] is Some && #[trigger] added[i].id == x;
            assert(added.contains(added[i]));
            desired.workspaces@.lemma_filter_contains_rev(
                is_new_pred(id_set_of(entries)),
                added[i],
            );
            lemma_desired_id_set_contains(desired, x);
            let k = choose|k: int|
                0 <= k < desired.workspaces@.len() && desired.workspaces@[k] == added[i];
            assert(desired.workspaces@[k].id == x);
        } else {
            assert(id_set_of(entries).contains(x));
            if !desired.id_set().contains(x) {
                lemma_id_set_contains(entries, x);
                let i = choose|i: int| 0 <= i < entries.len() && #[trigger] entries[i].id == x;
                assert(ids_of(entries)[i] == x);
                assert(ids_of(entries).contains(x));
                assert(is_stale_pred(desired.id_set())(x));
                assert(removed.contains(x));
            }
        }
    }
    assert(id_set_of(fin) =~= desired.id_set());
}

/// Idempotence: a desired-state set whose ids already match the tracked
/// ids plans no additions and no removals; re-applying the same snapshot
/// is a no-op.
pub proof fn lemma_idempotence(entries: Seq<TrackedWorkspace>, desired: DesiredWorkspaceSet)
    requires
        id_set_of(entries) == desired.id_set(),
    ensures
        spec_added(entries, desired).len() == 0,
        spec_removed(entries, desired).len() == 0,
{
    assert forall|i: int| 0 <= i < desired.workspaces@.len() implies !is_new_pred(
        id_set_of(entries),
    )(#[trigger] desired.workspaces@[i]) by {
        lemma_desired_id_set_contains(desired, desired.workspaces@[i].id);
    }
    lemma_filter_all_false(desired.workspaces@, is_new_pred(id_set_of(entries)));
    assert forall|i: int| 0 <= i < ids_of(entries).len() implies !is_stale_pred(desired.id_set())(
        #[trigger] ids_of(entries)[i],
    ) by {
        lemma_id_set_contains(entries, ids_of(entries)[i]);
        assert(entries[i].id == ids_of(entries)[i]);
    }
    lemma_filter_all_false(ids_of(entries), is_stale_pred(desired.id_set()));
}

/// Add-before-remove: after the addition phase of a pass and before its
/// removal phase, every addition that succeeded is already tracked while
/// everything tracked before the pass — including what the pass will
/// remove — is still tracked.
pub proof fn lemma_add_before_remove(
    entries: Seq<TrackedWorkspace>,
    desired: DesiredWorkspaceSet,
    outcomes: Seq<Option<AddOutcome>>,
)
    requires
        outcomes.len() == spec_added(entries, desired).len(),
    ensures
        ({
            let mid = spec_after_additions(entries, spec_added(entries, desired), outcomes);
            (forall|id: u64|
                id_set_of(entries).contains(id) ==> #[trigger] id_set_of(mid).contains(id))
                && (forall|i: int|
                0 <= i < outcomes.len() && outcomes[i] is Some ==> #[trigger] id_set_of(
                    mid,
                ).contains(spec_added(entries, desired)[i].id))
        }),
{
    let added = spec_added(entries, desired);
    lemma_after_additions_ids(entries, added, outcomes);
    lemma_succeeded_membership(added, outcomes);
}

impl DevServer {
    /// Whether a desired-state snapshot lists `id`.
    fn desired_lists(desired: &DesiredWorkspaceSet, id: u64) -> (r: bool)
        ensures
            r == desired.id_set().contains(id),
    {
        proof {
            lemma_desired_id_set_contains(*desired, id);
        }
        let mut i: usize = 0;
        while i < desired.workspaces.len()
            invariant
                i <= desired.workspaces@.len(),
                forall|j: int| 0 <= j < i ==> #[trigger] desired.workspaces@[j].id != id,
            decreases desired.workspaces@.len() - i,
        {
            if desired.workspaces[i].id == id {
                proof {
                    lemma_desired_id_set_contains(*desired, id);
                    assert(desired.workspaces@[i as int].id == id);
                }
                return true;
            }
            i = i + 1;
        }
        false
    }

    /// Diff a pushed desired-state snapshot against the tracked set:
    /// the entries whose id is not tracked yet are additions, in push
    /// order; the tracked ids the snapshot no longer lists are removals.
    /// Nothing is mutated.
    pub fn plan_instructions(&self, desired: &DesiredWorkspaceSet) -> (diff: InstructionDiff)
        ensures
            diff.added@ == spec_added(self.entries(), *desired),
            diff.removed@ == spec_removed(self.entries(), *desired),
    {
        let ghost newp = is_new_pred(self.id_set());
        let mut added: Vec<DesiredWorkspace> = Vec::new();
        let mut i: usize = 0;
        while i < desired.workspaces.len()
            invariant
                i <= desired.workspaces@.len(),
                added@ == desired.workspaces@.take(i as int).filter(newp),
                newp == is_new_pred(self.id_set()),
            decreases desired.workspaces@.len() - i,
        {
            let w = &desired.workspaces[i];
            proof {
                desired.workspaces@.take(i as int).lemma_filter_push(
                    desired.workspaces@[i as int],
                    newp,
                );
                assert(desired.workspaces@.take(i + 1 as int) =~= desired.workspaces@.take(
                    i as int,
                ).push(desired.workspaces@[i as int]));
            }
            if !self.tracks(w.id) {
                added.push(w.clone());
            }
            i = i + 1;
        }
        proof {
            assert(desired.workspaces@.take(desired.workspaces@.len() as int)
                =~= desired.workspaces@);
        }
        let ghost stalep = is_stale_pred(desired.id_set());
        let mut removed: Vec<u64> = Vec::new();
        let mut j: usize = 0;
        while j < self.len()
            invariant
                j <= self.entries().len(),
                removed@ == ids_of(self.entries()).take(j as int).filter(stalep),
                stalep == is_stale_pred(desired.id_set()),
            decreases self.entries().len() - j,
        {
            let id = self.id_at(j);
            proof {
                ids_of(self.entries()).take(j as int).lemma_filter_push(
                    ids_of(self.entries())[j as int],
                    stalep,
                );
                assert(ids_of(self.entries()).take(j + 1 as int) =~= ids_of(
                    self.entries(),
                ).take(j as int).push(ids_of(self.entries())[j as int]));
            }
            if !Self::desired_lists(desired, id) {
                removed.push(id);
            }
            j = j + 1;
        }
        proof {
            assert(ids_of(self.entries()).take(ids_of(self.entries()).len() as int) =~= ids_of(
                self.entries(),
            ));
        }
        InstructionDiff { added, removed }
    }

    /// Record one successful register-and-share: the server acknowledged
    /// the workspace created from `path` with `project_id`, so it joins
    /// the tracked set.
    pub fn share_project_response(
        &mut self,
        remote_workspace_id: u64,
        path: String,
        worktrees: Vec<WorktreeMetadata>,
        project_id: u64,
    )
        requires
            old(self).wf(),
            !old(self).id_set().contains(remote_workspace_id),
        ensures
            final(self).wf(),
            final(self).entries() == old(self).entries().push(
                TrackedWorkspace {
                    id: remote_workspace_id,
                    workspace: Workspace {
                        path,
                        worktrees,
                        state: ShareState::Shared { project_id },
                    },
                },
            ),
    {
        let mut w = Workspace::create_local(path);
        w.set_worktrees(worktrees);
        w.mark_shared(project_id);
        self.insert_shared(remote_workspace_id, w);
    }

    /// The addition phase of one pass: walk the planned additions in push
    /// order and record each successful registration; a failed one leaves
    /// its id untracked. Nothing already tracked is touched.
    pub fn apply_additions(
        &mut self,
        added: &Vec<DesiredWorkspace>,
        outcomes: Vec<Option<AddOutcome>>,
    )
        requires
            old(self).wf(),
            outcomes@.len() == added@.len(),
            forall|i: int|
                0 <= i < added@.len() ==> !old(self).id_set().contains(#[trigger] added@[i].id),
            added@.map_values(|w: DesiredWorkspace| w.id).no_duplicates(),
        ensures
            final(self).wf(),
            final(self).entries() == spec_after_additions(old(self).entries(), added@, outcomes@),
    {
        let ghost orig = self.entries();
        let ghost outcomes0 = outcomes@;
        let mut outcomes = outcomes;
        let mut k: usize = 0;
        while k < added.len()
            invariant
                k <= added@.len(),
                outcomes0.len() == added@.len(),
                outcomes@ == outcomes0.skip(k as int),
                self.wf(),
                self.entries() == spec_after_additions(
                    orig,
                    added@.take(k as int),
                    outcomes0.take(k as int),
                ),
                added@.map_values(|w: DesiredWorkspace| w.id).no_duplicates(),
                forall|i: int|
                    k <= i < added@.len() ==> !self.id_set().contains(#[trigger] added@[i].id),
            decreases added@.len() - k,
        {
            let ghost pre = self.entries();
            let oc = outcomes.remove(0);
            proof {
                assert(outcomes0.skip(k as int)[0] == outcomes0[k as int]);
                assert(outcomes0.skip(k as int).remove(0) =~= outcomes0.skip(k + 1 as int));
            }
            match oc {
                Some(o) => {
                    let w = &added[k];
                    self.share_project_response(w.id, w.path.clone(), o.worktrees, o.project_id);
                },
                None => {},
            }
            proof {
                assert(added@.take(k + 1 as int).drop_last() =~= added@.take(k as int));
                assert(outcomes0.take(k + 1 as int).drop_last() =~= outcomes0.take(k as int));
                assert(added@.take(k + 1 as int).last() == added@[k as int]);
                assert(self.entries() == spec_after_additions(
                    orig,
                    added@.take(k + 1 as int),
                    outcomes0.take(k + 1 as int),
                ));
                assert forall|i: int|
                    k + 1 <= i < added@.len() implies !self.id_set().contains(
                    #[trigger] added@[i].id,
                ) by {
                    lemma_id_set_contains(self.entries(), added@[i].id);
                    lemma_id_set_contains(pre, added@[i].id);
                    if self.entries().len() > pre.len() {
                        assert(self.entries()[pre.len() as int].id == added@[k as int].id);
                        let ids = added@.map_values(|w: DesiredWorkspace| w.id);
                        assert(ids[i] != ids[k as int]);
                        assert forall|j: int|
                            0 <= j < self.entries().len() implies #[trigger] self.entries()[j].id
                            != added@[i].id by {
                            if j < pre.len() {
                                assert(pre[j].id == self.entries()[j].id);
                            }
                        }
                    }
                }
            }
            k = k + 1;
        }
        proof {
            assert(added@.take(added@.len() as int) =~= added@);
            assert(outcomes0.take(added@.len() as int) =~= outcomes0);
        }
    }

    /// The removal phase of one pass: drop each listed id from the tracked
    /// set, marking its workspace unshared, and hand the unshared
    /// workspaces back in removal order.
    pub fn apply_removals(&mut self, removed: &Vec<u64>) -> (unshared: Vec<Workspace>)
        requires
            old(self).wf(),
        ensures
            final(self).wf(),
            final(self).entries() == spec_after_removals(old(self).entries(), removed@),
            unshared@ == spec_unshared(old(self).entries(), removed@),
    {
        let ghost orig = self.entries();
        proof {
            assert(removed@.skip(0) =~= removed@);
        }
        let mut unshared: Vec<Workspace> = Vec::new();
        let mut k: usize = 0;
        while k < removed.len()
            invariant
                k <= removed@.len(),
                self.wf(),
                spec_after_removals(self.entries(), removed@.skip(k as int))
                    == spec_after_removals(orig, removed@),
                unshared@ + spec_unshared(self.entries(), removed@.skip(k as int))
                    == spec_unshared(orig, removed@),
            decreases removed@.len() - k,
        {
            let ghost pre = self.entries();
            let ghost sofar = unshared@;
            proof {
                assert(removed@.skip(k as int)[0] == removed@[k as int]);
                assert(removed@.skip(k as int).drop_first() =~= removed@.skip(k + 1 as int));
            }
            match self.unshare_project(removed[k]) {
                Some(w) => {
                    proof {
                        assert(w == spec_unshared_one(workspace_of(pre, removed@[k as int])));
                    }
                    unshared.push(w);
                    proof {
                        assert(unshared@ + spec_unshared(self.entries(), removed@.skip(k + 1 as int))
                            =~= sofar + (seq![
                            spec_unshared_one(workspace_of(pre, removed@[k as int])),
                        ] + spec_unshared(
                            pre.filter(keeps_id(removed@[k as int])),
                            removed@.skip(k + 1 as int),
                        )));
                    }
                },
                None => {
                    proof {
                        assert(unshared@ + spec_unshared(self.entries(), removed@.skip(k + 1 as int))
                            =~= sofar + (Seq::<Workspace>::empty() + spec_unshared(
                            pre.filter(keeps_id(removed@[k as int])),
                            removed@.skip(k + 1 as int),
                        )));
                    }
                },
            }
            k = k + 1;
        }
        proof {
            assert(removed@.skip(removed@.len() as int) =~= Seq::<u64>::empty());
            assert(unshared@ + Seq::<Workspace>::empty() =~= unshared@);
        }
        unshared
    }

    /// Apply one desired-state push in full, given the outside outcomes of
    /// its planned additions, in plan order: first every addition is
    /// resolved, then the stale ids are dropped. When every registration
    /// succeeded the pass returns the unshared workspaces and leaves
    /// exactly the desired ids tracked; otherwise it reports the failed
    /// ids — which stay untracked, so the next push retries them — after
    /// still applying the removals.
    pub fn apply_desired_state(
        &mut self,
        desired: &DesiredWorkspaceSet,
        outcomes: Vec<Option<AddOutcome>>,
    ) -> (r: Result<Vec<Workspace>, ReconcileError>)
        requires
            old(self).wf(),
            desired.wf(),
            outcomes@.len() == spec_added(old(self).entries(), *desired).len(),
        ensures
            final(self).wf(),
            final(self).entries() == spec_after_removals(
                spec_after_additions(
                    old(self).entries(),
                    spec_added(old(self).entries(), *desired),
                    outcomes@,
                ),
                spec_removed(old(self).entries(), *desired),
            ),
            (r is Err <==> exists|i: int| 0 <= i < outcomes@.len() && outcomes@[i] is None),
            r is Err ==> r->Err_0.failed@ == spec_failed(
                spec_added(old(self).entries(), *desired),
                outcomes@,
            ),
            r is Ok ==> r->Ok_0@ == spec_unshared(
                spec_after_additions(
                    old(self).entries(),
                    spec_added(old(self).entries(), *desired),
                    outcomes@,
                ),
                spec_removed(old(self).entries(), *desired),
            ),
            (forall|i: int| 0 <= i < outcomes@.len() ==> outcomes@[i] is Some)
                ==> final(self).id_set() == desired.id_set(),
    {
        broadcast use vstd::seq_lib::group_filter_ensures;

        let ghost orig = self.entries();
        let ghost outs = outcomes@;
        let diff = self.plan_instructions(desired);
        proof {
            assert forall|i: int|
                0 <= i < diff.added@.len() implies !self.id_set().contains(
                #[trigger] diff.added@[i].id,
            ) by {
                assert(is_new_pred(id_set_of(orig))(diff.added@[i]));
            }
            lemma_added_ids_filter_commute(
                desired.workspaces@,
                is_new_pred(id_set_of(orig)),
                |x: u64| !id_set_of(orig).contains(x),
            );
            lemma_filter_no_duplicates(
                desired.workspaces@.map_values(|w: DesiredWorkspace| w.id),
                |x: u64| !id_set_of(orig).contains(x),
            );
        }
        let mut failed: Vec<u64> = Vec::new();
        let mut any_none = false;
        let mut k: usize = 0;
        while k < outcomes.len()
            invariant
                k <= outcomes@.len(),
                outcomes@.len() == diff.added@.len(),
                failed@ == spec_failed(diff.added@.take(k as int), outcomes@.take(k as int)),
                any_none == exists|i: int| 0 <= i < k && outcomes@[i] is None,
            decreases outcomes@.len() - k,
        {
            proof {
                assert(diff.added@.take(k + 1 as int).drop_last() =~= diff.added@.take(k as int));
                assert(outcomes@.take(k + 1 as int).drop_last() =~= outcomes@.take(k as int));
                assert(diff.added@.take(k + 1 as int).last() == diff.added@[k as int]);
            }
            if outcomes[k].is_none() {
                failed.push(diff.added[k].id);
                any_none = true;
            }
            k = k + 1;
        }
        proof {
            assert(diff.added@.take(diff.added@.len() as int) =~= diff.added@);
            assert(outcomes@.take(outcomes@.len() as int) =~= outcomes@);
        }
        self.apply_additions(&diff.added, outcomes);
        let unshared = self.apply_removals(&diff.removed);
        proof {
            if forall|i: int| 0 <= i < outs.len() ==> outs[i] is Some {
                lemma_diff_correctness(orig, *desired, outs);
            }
        }
        if any_none {
            Err(ReconcileError { failed })
        } else {
            Ok(unshared)
        }
    }
}

} // verus!
