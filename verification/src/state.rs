use vstd::prelude::*;
use vstd::string::*;
use crate::errors::EngineError;
use crate::vcs::SubmoduleObservation;

verus! {

/// The pre-run state of one registered nested repository, as rollback
/// needs it: enough to re-create the entry or reset it to its old
/// commit.
#[derive(Debug)]
pub struct SubmoduleState {
    /// The stable configuration name.
    pub name: String,
    /// The path relative to the host root.
    pub path: String,
    /// The commit the working tree stood at.
    pub commit: String,
    /// The recorded remote URL.
    pub url: String,
}

impl Clone for SubmoduleState {
    fn clone(&self) -> (r: Self)
        ensures
            r == *self,
    {
        SubmoduleState {
            name: self.name.clone(),
            path: self.path.clone(),
            commit: self.commit.clone(),
            url: self.url.clone(),
        }
    }
}

/// One rollback action: reset the named nested repository's working
/// tree and head to the snapshotted commit and re-stage its path in
/// the host index; a missing entry is re-created first.
#[derive(Debug)]
pub struct RestoreStep {
    pub name: String,
    pub path: String,
    pub commit: String,
    pub url: String,
}

/// An observation carries everything a snapshot entry needs.
pub open spec fn snapshotable(s: SubmoduleObservation) -> bool {
    s.name is Some && s.workdir_commit is Some && s.url is Some
}

/// The snapshot entry taken from one observation.
pub open spec fn snapshot_entry_of(s: SubmoduleObservation) -> SubmoduleState
    recommends
        snapshotable(s),
{
    SubmoduleState { name: s.name->0, path: s.path, commit: s.workdir_commit->0, url: s.url->0 }
}

/// The pre-operation snapshot of every registered nested repository.
/// Captured once before any mutation, read only by rollback.
#[derive(Debug)]
pub struct SubmoduleStateTracker {
    pub original_states: Vec<SubmoduleState>,
}

impl SubmoduleStateTracker {
    /// Captures the snapshot. Fails when any entry lacks a name, a
    /// resolved working commit, or a URL: rollback could not
    /// reconstruct such an entry, so the run must not start.
    pub fn new(subs: &Vec<SubmoduleObservation>) -> (r: Result<SubmoduleStateTracker, EngineError>)
        ensures
            r is Ok <==> (forall|i: int| 0 <= i < subs@.len() ==> snapshotable(#[trigger] subs@[i])),
            r matches Ok(t) ==> {
                &&& t.original_states@.len() == subs@.len()
                &&& forall|i: int|
                    0 <= i < subs@.len() ==> #[trigger] t.original_states@[i]
                        == snapshot_entry_of(subs@[i])
            },
            r matches Err(e) ==> e is Snapshot,
    {
        let mut states: Vec<SubmoduleState> = Vec::new();
        let mut i: usize = 0;
        while i < subs.len()
            invariant
                i <= subs@.len(),
                states@.len() == i,
                forall|k: int| 0 <= k < i ==> snapshotable(#[trigger] subs@[k]),
                forall|k: int|
                    0 <= k < i ==> #[trigger] states@[k] == snapshot_entry_of(subs@[k]),
            decreases subs@.len() - i,
        {
            let s = &subs[i];
            let name = match &s.name {
                Some(n) => n.clone(),
                None => {
                    return Err(
                        EngineError::Snapshot(snapshot_issue_message(s, "has no name")),
                    );
                },
            };
            let commit = match &s.workdir_commit {
                Some(c) => c.clone(),
                None => {
                    return Err(
                        EngineError::Snapshot(
                            snapshot_issue_message(s, "has no working commit"),
                        ),
                    );
                },
            };
            let url = match &s.url {
                Some(u) => u.clone(),
                None => {
                    return Err(EngineError::Snapshot(snapshot_issue_message(s, "has no URL")));
                },
            };
            states.push(SubmoduleState { name, path: s.path.clone(), commit, url });
            i = i + 1;
        }
        Ok(SubmoduleStateTracker { original_states: states })
    }

    /// The rollback plan: one restore action per snapshot entry, in
    /// snapshot order. Every entry is attempted; failures are
    /// aggregated afterwards, never allowed to abort the loop.
    pub fn rollback(&self) -> (r: Vec<RestoreStep>)
        ensures
            r@.len() == self.original_states@.len(),
            forall|i: int|
                0 <= i < r@.len() ==> {
                    &&& (#[trigger] r@[i]).name@ == self.original_states@[i].name@
                    &&& r@[i].path@ == self.original_states@[i].path@
                    &&& r@[i].commit@ == self.original_states@[i].commit@
                    &&& r@[i].url@ == self.original_states@[i].url@
                },
    {
        let mut steps: Vec<RestoreStep> = Vec::new();
        let mut i: usize = 0;
        while i < self.original_states.len()
            invariant
                i <= self.original_states@.len(),
                steps@.len() == i,
                forall|k: int|
                    0 <= k < i ==> {
                        &&& (#[trigger] steps@[k]).name@ == self.original_states@[k].name@
                        &&& steps@[k].path@ == self.original_states@[k].path@
                        &&& steps@[k].commit@ == self.original_states@[k].commit@
                        &&& steps@[k].url@ == self.original_states@[k].url@
                    },
            decreases self.original_states@.len() - i,
        {
            let s = &self.original_states[i];
            steps.push(
                RestoreStep {
                    name: s.name.clone(),
                    path: s.path.clone(),
                    commit: s.commit.clone(),
                    url: s.url.clone(),
                },
            );
            i = i + 1;
        }
        steps
    }

    /// Aggregates the per-entry outcomes of a best-effort rollback:
    /// success only when every entry was restored, otherwise a
    /// rollback error naming every entry that was not, in snapshot
    /// order.
    pub fn rollback_outcome(&self, restored: &Vec<bool>) -> (r: Result<(), EngineError>)
        requires
            restored@.len() == self.original_states@.len(),
        ensures
            r is Ok <==> (forall|i: int| 0 <= i < restored@.len() ==> #[trigger] restored@[i]),
            r matches Err(e) ==> {
                &&& e matches EngineError::Rollback(failed)
                &&& failed@.len() > 0
                &&& crate::text::views_of(failed@) == unrestored_names(
                    self.original_states@,
                    restored@,
                )
            },
    {
        let ghost states = self.original_states@;
        let mut failed: Vec<String> = Vec::new();
        let mut i: usize = 0;
        proof {
            assert(states.skip(0) =~= states);
            assert(restored@.skip(0) =~= restored@);
            assert(crate::text::views_of(failed@) =~= Seq::<Seq<char>>::empty());
            assert(crate::text::views_of(failed@) + unrestored_names(states, restored@)
                =~= unrestored_names(states, restored@));
        }
        while i < restored.len()
            invariant
                restored@.len() == states.len(),
                states == self.original_states@,
                i <= restored@.len(),
                unrestored_names(states, restored@) == crate::text::views_of(failed@)
                    + unrestored_names(states.skip(i as int), restored@.skip(i as int)),
                failed@.len() == 0 ==> (forall|k: int| 0 <= k < i ==> #[trigger] restored@[k]),
                failed@.len() > 0 ==> (exists|k: int|
                    0 <= k < i && !(#[trigger] restored@[k])),
            decreases restored@.len() - i,
        {
            proof {
                assert(states.skip(i as int)[0] == states[i as int]);
                assert(restored@.skip(i as int)[0] == restored@[i as int]);
                assert(states.skip(i as int).skip(1) =~= states.skip(i as int + 1));
                assert(restored@.skip(i as int).skip(1) =~= restored@.skip(i as int + 1));
            }
            if !restored[i] {
                let ghost old_failed = failed@;
                failed.push(self.original_states[i].name.clone());
                proof {
                    crate::text::lemma_views_push(old_failed, failed@[old_failed.len() as int]);
                    assert(crate::text::views_of(failed@) =~= crate::text::views_of(
                        old_failed,
                    ).push(states[i as int].name@));
                    assert(unrestored_names(
                        states.skip(i as int),
                        restored@.skip(i as int),
                    ) == seq![states[i as int].name@] + unrestored_names(
                        states.skip(i as int + 1),
                        restored@.skip(i as int + 1),
                    ));
                    assert(crate::text::views_of(old_failed) + (seq![states[i as int].name@]
                        + unrestored_names(
                        states.skip(i as int + 1),
                        restored@.skip(i as int + 1),
                    )) =~= crate::text::views_of(failed@) + unrestored_names(
                        states.skip(i as int + 1),
                        restored@.skip(i as int + 1),
                    ));
                }
            }
            i = i + 1;
        }
        proof {
            assert(states.skip(i as int).len() == 0);
            assert(unrestored_names(states.skip(i as int), restored@.skip(i as int))
                =~= Seq::<Seq<char>>::empty());
            assert(crate::text::views_of(failed@) + Seq::<Seq<char>>::empty()
                =~= crate::text::views_of(failed@));
        }
        if failed.len() == 0 {
            Ok(())
        } else {
            Err(EngineError::Rollback(failed))
        }
    }
}

/// The names of the snapshot entries whose restoration failed, in
/// snapshot order.
pub open spec fn unrestored_names(states: Seq<SubmoduleState>, restored: Seq<bool>) -> Seq<
    Seq<char>,
>
    decreases restored.len(),
{
    if restored.len() == 0 || states.len() == 0 {
        Seq::empty()
    } else if !restored[0] {
        seq![states[0].name@] + unrestored_names(states.skip(1), restored.skip(1))
    } else {
        unrestored_names(states.skip(1), restored.skip(1))
    }
}

/// The message naming a nested repository the snapshot cannot cover.
fn snapshot_issue_message(s: &SubmoduleObservation, issue: &str) -> (r: String)
    ensures
        r@ == "Cannot snapshot submodule at "@ + s.path@ + ": "@ + issue@,
{
    let mut m = String::from_str("Cannot snapshot submodule at ");
    m.append(s.path.as_str());
    m.append(": ");
    m.append(issue);
    m
}

} // verus!
