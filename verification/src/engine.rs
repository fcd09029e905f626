use vstd::prelude::*;
use vstd::string::*;
use crate::classifier::{classification_ok, classify_submodules, find_repo, paths_of_pairs, paths_strings_of, reg_paths, repo_for, spec_paths, upd_paths, ClassificationResult};
use crate::cli::Opts;
use crate::errors::EngineError;
use crate::selector::{select_repos, selected_set};
use crate::state::{snapshot_entry_of, snapshotable, SubmoduleStateTracker};
use crate::text::{path_join, path_join_spec, seq_distinct, view_set, views_of};
use crate::utils::{vec_contains_str, views_disjoint, views_subset_of};
use crate::validation::{host_clean, repos_valid, submodule_state_ok, validate_main_repo_clean, validate_repositories, validate_submodule_states};
use crate::vcs::{Repo, RepoType, ReposFile, RunOutcome, StatusObservation, SubmoduleObservation};

verus! {

/// The global run flags the executor consumes.
#[derive(Debug, Clone, Copy, PartialEq, Eq)]
pub struct RunFlags {
    /// Do not materialize working-tree contents after resolution.
    pub no_checkout: bool,
    /// Treat the updated class as no-ops.
    pub skip_existing: bool,
    /// Enable the removed class instead of only reporting it.
    pub sync_selection: bool,
    /// Report every action without performing any.
    pub dry_run: bool,
}

/// One planned operation of a run, in execution order.
#[derive(Debug, PartialEq, Eq)]
pub enum PlannedOp {
    /// Register a new nested repository and bring it to its version.
    Add { path: String, url: String, version: String },
    /// Re-point and refresh an already registered nested repository.
    Update { path: String, name: String, url: String, version: String },
    /// Report an existing entry that is deliberately left alone.
    SkipExisting { path: String },
    /// Tear a no-longer-desired entry down.
    Remove { path: String, name: String },
    /// Report an extra entry that stays because removal is not enabled.
    ReportExtra { path: String },
}

/// The whole plan of one run: the operations in deterministic order,
/// and whether they are to be only reported.
#[derive(Debug)]
pub struct RunPlan {
    pub dry_run: bool,
    pub ops: Vec<PlannedOp>,
}

/// The planned operations follow the classification exactly: first
/// every new entry in order, then every updated entry (or a skip
/// notice for each), then every removed entry (or an extra-entry
/// notice for each).
pub open spec fn plan_shape_ok(plan: RunPlan, c: ClassificationResult, flags: RunFlags) -> bool {
    let n = c.new@.len() as int;
    let u = c.updated@.len() as int;
    let m = c.removed@.len() as int;
    &&& plan.dry_run == flags.dry_run
    &&& plan.ops@.len() == n + u + m
    &&& forall|k: int|
        0 <= k < n ==> ((#[trigger] plan.ops@[k]) matches PlannedOp::Add { path, url, version }
            && path@ == c.new@[k].0@ && url@ == c.new@[k].1.url@ && version@
            == c.new@[k].1.version@)
    &&& forall|k: int|
        0 <= k < u ==> ((#[trigger] plan.ops@[n + k]) == if flags.skip_existing {
            PlannedOp::SkipExisting { path: c.updated@[k].0 }
        } else {
            PlannedOp::Update {
                path: c.updated@[k].0,
                name: c.updated@[k].1,
                url: c.updated@[k].2.url,
                version: c.updated@[k].2.version,
            }
        })
    &&& forall|k: int|
        0 <= k < m ==> ((#[trigger] plan.ops@[n + u + k]) == if flags.sync_selection {
            PlannedOp::Remove { path: c.removed@[k].0, name: c.removed@[k].1 }
        } else {
            PlannedOp::ReportExtra { path: c.removed@[k].0 }
        })
}

/// Lays the classified operations out in their execution order:
/// additions, then updates, then removals, each class already
/// path-sorted.
pub fn plan_operations(c: &ClassificationResult, flags: &RunFlags) -> (plan: RunPlan)
    ensures
        plan_shape_ok(plan, *c, *flags),
{
    let mut ops: Vec<PlannedOp> = Vec::new();
    let ghost n = c.new@.len() as int;
    let ghost u = c.updated@.len() as int;

    let mut i: usize = 0;
    while i < c.new.len()
        invariant
            i <= c.new@.len(),
            ops@.len() == i,
            forall|k: int|
                0 <= k < i ==> ((#[trigger] ops@[k]) matches PlannedOp::Add { path, url, version }
                    && path@ == c.new@[k].0@ && url@ == c.new@[k].1.url@ && version@
                    == c.new@[k].1.version@),
        decreases c.new@.len() - i,
    {
        let (path, repo) = &c.new[i];
        ops.push(
            PlannedOp::Add {
                path: path.clone(),
                url: repo.url.clone(),
                version: repo.version.clone(),
            },
        );
        i = i + 1;
    }

    let mut j: usize = 0;
    while j < c.updated.len()
        invariant
            j <= c.updated@.len(),
            n == c.new@.len() as int,
            ops@.len() == n + j,
            forall|k: int|
                0 <= k < n ==> ((#[trigger] ops@[k]) matches PlannedOp::Add { path, url, version }
                    && path@ == c.new@[k].0@ && url@ == c.new@[k].1.url@ && version@
                    == c.new@[k].1.version@),
            forall|k: int|
                0 <= k < j ==> ((#[trigger] ops@[n + k]) == if flags.skip_existing {
                    PlannedOp::SkipExisting { path: c.updated@[k].0 }
                } else {
                    PlannedOp::Update {
                        path: c.updated@[k].0,
                        name: c.updated@[k].1,
                        url: c.updated@[k].2.url,
                        version: c.updated@[k].2.version,
                    }
                }),
        decreases c.updated@.len() - j,
    {
        let (path, name, repo) = &c.updated[j];
        if flags.skip_existing {
            ops.push(PlannedOp::SkipExisting { path: path.clone() });
        } else {
            ops.push(
                PlannedOp::Update {
                    path: path.clone(),
                    name: name.clone(),
                    url: repo.url.clone(),
                    version: repo.version.clone(),
                },
            );
        }
        j = j + 1;
    }

    let mut k: usize = 0;
    while k < c.removed.len()
        invariant
            k <= c.removed@.len(),
            n == c.new@.len() as int,
            u == c.updated@.len() as int,
            ops@.len() == n + u + k,
            forall|q: int|
                0 <= q < n ==> ((#[trigger] ops@[q]) matches PlannedOp::Add { path, url, version }
                    && path@ == c.new@[q].0@ && url@ == c.new@[q].1.url@ && version@
                    == c.new@[q].1.version@),
            forall|q: int|
                0 <= q < u ==> ((#[trigger] ops@[n + q]) == if flags.skip_existing {
                    PlannedOp::SkipExisting { path: c.updated@[q].0 }
                } else {
                    PlannedOp::Update {
                        path: c.updated@[q].0,
                        name: c.updated@[q].1,
                        url: c.updated@[q].2.url,
                        version: c.updated@[q].2.version,
                    }
                }),
            forall|q: int|
                0 <= q < k ==> ((#[trigger] ops@[n + u + q]) == if flags.sync_selection {
                    PlannedOp::Remove { path: c.removed@[q].0, name: c.removed@[q].1 }
                } else {
                    PlannedOp::ReportExtra { path: c.removed@[q].0 }
                }),
        decreases c.removed@.len() - k,
    {
        let (path, name) = &c.removed[k];
        if flags.sync_selection {
            ops.push(PlannedOp::Remove { path: path.clone(), name: name.clone() });
        } else {
            ops.push(PlannedOp::ReportExtra { path: path.clone() });
        }
        k = k + 1;
    }

    RunPlan { dry_run: flags.dry_run, ops }
}


/// The run flags drawn from the options.
pub open spec fn flags_of(opts: Opts) -> RunFlags {
    RunFlags {
        no_checkout: opts.no_checkout,
        skip_existing: opts.skip_existing,
        sync_selection: opts.sync_selection,
        dry_run: opts.dry_run,
    }
}

/// Builds the run flags from the options.
pub fn run_flags(opts: &Opts) -> (r: RunFlags)
    ensures
        r == flags_of(*opts),
{
    RunFlags {
        no_checkout: opts.no_checkout,
        skip_existing: opts.skip_existing,
        sync_selection: opts.sync_selection,
        dry_run: opts.dry_run,
    }
}

/// Equal joined paths under one prefix come from equal suffixes.
proof fn lemma_path_join_injective(prefix: Seq<char>, a: Seq<char>, b: Seq<char>)
    requires
        path_join_spec(prefix, a) == path_join_spec(prefix, b),
    ensures
        a == b,
{
    let ja = path_join_spec(prefix, a);
    let jb = path_join_spec(prefix, b);
    assert(ja.len() == prefix.len() + 1 + a.len());
    assert(jb.len() == prefix.len() + 1 + b.len());
    assert forall|k: int| 0 <= k < a.len() implies a[k] == b[k] by {
        assert(ja[prefix.len() + 1 + k] == a[k]);
        assert(jb[prefix.len() + 1 + k] == b[k]);
    }
    assert(a =~= b);
}

/// Maps each selected suffix to its full path under the prefix,
/// paired with its declared desired state.
fn build_selected_pairs(
    repos: &Vec<(String, Repo)>,
    suffixes: &Vec<String>,
    prefix: &str,
) -> (r: Vec<(String, Repo)>)
    requires
        seq_distinct(spec_paths(repos@)),
        seq_distinct(views_of(suffixes@)),
        forall|k: int|
            0 <= k < suffixes@.len() ==> spec_paths(repos@).to_set().contains(
                #[trigger] views_of(suffixes@)[k],
            ),
    ensures
        r@.len() == suffixes@.len(),
        forall|k: int|
            0 <= k < r@.len() ==> (#[trigger] r@[k]).0@ == path_join_spec(
                prefix@,
                views_of(suffixes@)[k],
            ) && r@[k].1 == repo_for(repos@, views_of(suffixes@)[k]),
        seq_distinct(spec_paths(r@)),
{
    let mut out: Vec<(String, Repo)> = Vec::new();
    let mut i: usize = 0;
    while i < suffixes.len()
        invariant
            i <= suffixes@.len(),
            seq_distinct(spec_paths(repos@)),
            seq_distinct(views_of(suffixes@)),
            forall|k: int|
                0 <= k < suffixes@.len() ==> spec_paths(repos@).to_set().contains(
                    #[trigger] views_of(suffixes@)[k],
                ),
            out@.len() == i,
            forall|k: int|
                0 <= k < i ==> (#[trigger] out@[k]).0@ == path_join_spec(
                    prefix@,
                    views_of(suffixes@)[k],
                ) && out@[k].1 == repo_for(repos@, views_of(suffixes@)[k]),
        decreases suffixes@.len() - i,
    {
        proof {
            assert(views_of(suffixes@)[i as int] == suffixes@[i as int]@);
        }
        let full = path_join(prefix, suffixes[i].as_str());
        let repo = find_repo(repos, suffixes[i].as_str());
        out.push((full, repo));
        i = i + 1;
    }
    proof {
        assert forall|a: int, b: int|
            0 <= a < b < out@.len() implies spec_paths(out@)[a] != spec_paths(out@)[b] by {
            assert(spec_paths(out@)[a] == out@[a].0@);
            assert(spec_paths(out@)[b] == out@[b].0@);
            if out@[a].0@ == out@[b].0@ {
                lemma_path_join_injective(
                    prefix@,
                    views_of(suffixes@)[a],
                    views_of(suffixes@)[b],
                );
            }
        }
    }
    out
}

/// The paths the host reports as registered.
pub open spec fn obs_paths(s: Seq<SubmoduleObservation>) -> Seq<Seq<char>> {
    s.map_values(|o: SubmoduleObservation| o.path@)
}

/// The entry's name was reported by the host for the entry's path.
pub open spec fn name_drawn_from(entry: (String, String), observed: Seq<SubmoduleObservation>) -> bool {
    exists|q: int|
        0 <= q < observed.len() && entry.0@ == (#[trigger] observed[q]).path@ && observed[q].name
            == Some(entry.1)
}

/// Pairs each registered path with its stable name, keeping the first
/// entry for a path reported more than once.
fn build_registered(observed: &Vec<SubmoduleObservation>) -> (r: Vec<(String, String)>)
    requires
        forall|i: int| 0 <= i < observed@.len() ==> (#[trigger] observed@[i]).name is Some,
    ensures
        seq_distinct(reg_paths(r@)),
        reg_paths(r@).to_set() == obs_paths(observed@).to_set(),
        forall|k: int| 0 <= k < r@.len() ==> name_drawn_from(#[trigger] r@[k], observed@),
{
    let mut out: Vec<(String, String)> = Vec::new();
    let mut seen: Vec<String> = Vec::new();
    let mut i: usize = 0;
    proof {
        assert(reg_paths(out@).to_set() =~= obs_paths(observed@).subrange(0, 0).to_set());
    }
    while i < observed.len()
        invariant
            i <= observed@.len(),
            forall|q: int| 0 <= q < observed@.len() ==> (#[trigger] observed@[q]).name is Some,
            views_of(seen@) =~= reg_paths(out@),
            seq_distinct(reg_paths(out@)),
            reg_paths(out@).to_set() == obs_paths(observed@).subrange(0, i as int).to_set(),
            forall|k: int| 0 <= k < out@.len() ==> name_drawn_from(#[trigger] out@[k], observed@),
        decreases observed@.len() - i,
    {
        let ghost old_out = out@;
        let ghost old_seen = seen@;
        proof {
            assert(obs_paths(observed@)[i as int] == observed@[i as int].path@);
            assert(obs_paths(observed@).subrange(0, i as int + 1) =~= obs_paths(
                observed@,
            ).subrange(0, i as int).push(observed@[i as int].path@));
        }
        if !vec_contains_str(&seen, observed[i].path.as_str()) {
            let name = match &observed[i].name {
                Some(n) => n.clone(),
                None => {
                    proof {
                        assert(false);
                    }
                    String::new()
                },
            };
            out.push((observed[i].path.clone(), name));
            seen.push(observed[i].path.clone());
            proof {
                crate::text::lemma_views_push(old_seen, seen@[old_seen.len() as int]);
                assert forall|k: int| 0 <= k < out@.len() implies reg_paths(out@)[k] == views_of(
                    seen@,
                )[k] by {
                    assert(reg_paths(out@)[k] == out@[k].0@);
                    assert(views_of(seen@)[k] == seen@[k]@);
                    if k < old_out.len() {
                        assert(out@[k] == old_out[k]);
                        assert(seen@[k] == old_seen[k]);
                    }
                }
                assert(views_of(seen@) =~= reg_paths(out@));
                assert forall|a: int, b: int|
                    0 <= a < b < out@.len() implies reg_paths(out@)[a] != reg_paths(out@)[b] by {
                    assert(reg_paths(out@)[a] == out@[a].0@);
                    assert(reg_paths(out@)[b] == out@[b].0@);
                    if b < old_out.len() {
                        assert(reg_paths(old_out)[a] == old_out[a].0@);
                        assert(reg_paths(old_out)[b] == old_out[b].0@);
                    } else {
                        assert(reg_paths(old_out)[a] == old_out[a].0@);
                        if out@[a].0@ == out@[b].0@ {
                            assert(views_of(old_seen)[a] == old_seen[a]@);
                            assert(view_set(old_seen).contains(observed@[i as int].path@));
                        }
                    }
                }
                assert(reg_paths(out@).to_set() =~= obs_paths(observed@).subrange(
                    0,
                    i as int + 1,
                ).to_set()) by {
                    assert forall|p: Seq<char>| reg_paths(out@).to_set().contains(
                        p,
                    ) implies obs_paths(observed@).subrange(0, i as int + 1).to_set().contains(
                        p,
                    ) by {
                        let k = choose|k: int|
                            0 <= k < out@.len() && reg_paths(out@)[k] == p;
                        if k < old_out.len() {
                            assert(reg_paths(old_out)[k] == p);
                            assert(reg_paths(old_out).to_set().contains(p));
                            let w = choose|w: int|
                                0 <= w < i && #[trigger] obs_paths(observed@).subrange(
                                    0,
                                    i as int,
                                )[w] == p;
                            assert(obs_paths(observed@).subrange(0, i as int + 1)[w] == p);
                        } else {
                            assert(p == observed@[i as int].path@);
                            assert(obs_paths(observed@).subrange(0, i as int + 1)[i as int] == p);
                        }
                    }
                    assert forall|p: Seq<char>| obs_paths(observed@).subrange(
                        0,
                        i as int + 1,
                    ).to_set().contains(p) implies reg_paths(out@).to_set().contains(p) by {
                        let w = choose|w: int|
                            0 <= w < i + 1 && #[trigger] obs_paths(observed@).subrange(
                                0,
                                i as int + 1,
                            )[w] == p;
                        if w < i {
                            assert(obs_paths(observed@).subrange(0, i as int)[w] == p);
                            assert(reg_paths(old_out).to_set().contains(p));
                            let k = choose|k: int|
                                0 <= k < old_out.len() && reg_paths(old_out)[k] == p;
                            assert(reg_paths(out@)[k] == p);
                        } else {
                            assert(p == observed@[i as int].path@);
                            assert(reg_paths(out@)[old_out.len() as int] == p);
                        }
                    }
                }
                assert forall|k: int| 0 <= k < out@.len() implies name_drawn_from(
                    #[trigger] out@[k],
                    observed@,
                ) by {
                    if k < old_out.len() {
                        assert(out@[k] == old_out[k]);
                        assert(name_drawn_from(old_out[k], observed@));
                    } else {
                        assert(out@[k].0@ == observed@[i as int].path@ && observed@[
                            i as int
                        ].name == Some(out@[k].1));
                    }
                }
            }
        } else {
            proof {
                assert(view_set(seen@).contains(observed@[i as int].path@));
                assert(reg_paths(out@).to_set() =~= obs_paths(observed@).subrange(
                    0,
                    i as int + 1,
                ).to_set()) by {
                    let k = choose|k: int|
                        0 <= k < seen@.len() && views_of(seen@)[k] == observed@[i as int].path@;
                    assert(reg_paths(out@)[k] == observed@[i as int].path@);
                    assert(reg_paths(out@).to_set().contains(observed@[i as int].path@));
                    assert forall|p: Seq<char>| obs_paths(observed@).subrange(
                        0,
                        i as int + 1,
                    ).to_set().contains(p) implies reg_paths(out@).to_set().contains(p) by {
                        let w = choose|w: int|
                            0 <= w < i + 1 && #[trigger] obs_paths(observed@).subrange(
                                0,
                                i as int + 1,
                            )[w] == p;
                        if w < i {
                            assert(obs_paths(observed@).subrange(0, i as int)[w] == p);
                        } else {
                            assert(p == observed@[i as int].path@);
                        }
                    }
                    assert forall|p: Seq<char>| reg_paths(out@).to_set().contains(
                        p,
                    ) implies obs_paths(observed@).subrange(0, i as int + 1).to_set().contains(
                        p,
                    ) by {
                        let w = choose|w: int|
                            0 <= w < i && #[trigger] obs_paths(observed@).subrange(
                                0,
                                i as int,
                            )[w] == p;
                        assert(obs_paths(observed@).subrange(0, i as int + 1)[w] == p);
                    }
                }
            }
        }
        i = i + 1;
    }
    proof {
        assert(obs_paths(observed@).subrange(0, i as int) =~= obs_paths(observed@));
    }
    out
}

/// Every input condition under which a run must be prepared: a valid
/// declared list under a relative prefix, a clean host, registered
/// nested repositories that are acceptable and snapshottable,
/// consistent filters naming only declared paths, and a supported
/// kind for every selected entry.
pub open spec fn run_inputs_ok(
    repos: ReposFile,
    opts: Opts,
    observed: Seq<SubmoduleObservation>,
    host_statuses: Seq<StatusObservation>,
) -> bool {
    &&& !crate::text::seq_is_absolute(opts.prefix@)
    &&& repos_valid(repos.repositories@)
    &&& host_clean(host_statuses)
    &&& forall|i: int| 0 <= i < observed.len() ==> submodule_state_ok(#[trigger] observed[i])
    &&& forall|i: int| 0 <= i < observed.len() ==> snapshotable(#[trigger] observed[i])
    &&& !(opts.only is Some && opts.ignore is Some)
    &&& (opts.ignore matches Some(ig) ==> views_subset_of(
        ig@,
        paths_strings_of(repos.repositories@),
    ))
    &&& (opts.only matches Some(names) ==> views_subset_of(
        names@,
        paths_strings_of(repos.repositories@),
    ))
    &&& (opts.only matches Some(names) ==> (opts.ignore matches Some(ig) ==> views_disjoint(
        names@,
        ig@,
    )))
    &&& forall|p: Seq<char>|
        #[trigger] selected_set(
            paths_strings_of(repos.repositories@),
            opts.only,
            opts.ignore,
        ).contains(p) ==> repo_for(repos.repositories@, p).kind is Git
}

/// Everything a prepared run carries into execution: what was
/// selected, what is registered, the classification, the pre-run
/// snapshot, and the operation plan.
pub struct PreparedRun {
    /// The selected suffixes, one per desired repository.
    pub selected_suffixes: Vec<String>,
    /// The selected entries under their full destination paths.
    pub selected: Vec<(String, Repo)>,
    /// The registered entries, path paired with stable name.
    pub registered: Vec<(String, String)>,
    /// The three operation classes.
    pub classification: ClassificationResult,
    /// The pre-run snapshot, for rollback.
    pub tracker: SubmoduleStateTracker,
    /// The operations in execution order.
    pub plan: RunPlan,
}

/// Validates, selects, classifies, snapshots and plans one run, in
/// that order, without mutating anything. Each guard refuses the run
/// before the next stage is reached; in particular a drifted or dirty
/// nested repository is refused before classification.
pub fn prepare_run(
    repos: &ReposFile,
    opts: &Opts,
    observed: &Vec<SubmoduleObservation>,
    host_statuses: &Vec<StatusObservation>,
) -> (r: Result<PreparedRun, EngineError>)
    ensures
        !(!crate::text::seq_is_absolute(opts.prefix@) && repos_valid(repos.repositories@)) ==> (r
            matches Err(e) && e is Configuration),
        (!crate::text::seq_is_absolute(opts.prefix@) && repos_valid(repos.repositories@)
            && !host_clean(host_statuses@)) ==> (r matches Err(e) && e is Precondition),
        (!crate::text::seq_is_absolute(opts.prefix@) && repos_valid(repos.repositories@)
            && host_clean(host_statuses@) && !(forall|i: int|
            0 <= i < observed@.len() ==> submodule_state_ok(#[trigger] observed@[i]))) ==> (r
            matches Err(e) && e is Precondition),
        (!crate::text::seq_is_absolute(opts.prefix@) && repos_valid(repos.repositories@)
            && host_clean(host_statuses@) && (forall|i: int|
            0 <= i < observed@.len() ==> submodule_state_ok(#[trigger] observed@[i]))
            && opts.only is Some && opts.ignore is Some) ==> (r matches Err(e)
            && e is Configuration),
        r matches Ok(pr) ==> {
            &&& !crate::text::seq_is_absolute(opts.prefix@)
            &&& repos_valid(repos.repositories@)
            &&& host_clean(host_statuses@)
            &&& forall|i: int|
                0 <= i < observed@.len() ==> submodule_state_ok(#[trigger] observed@[i])
            &&& forall|i: int| 0 <= i < observed@.len() ==> snapshotable(#[trigger] observed@[i])
            &&& view_set(pr.selected_suffixes@) == selected_set(
                paths_strings_of(repos.repositories@),
                opts.only,
                opts.ignore,
            )
            &&& seq_distinct(views_of(pr.selected_suffixes@))
            &&& pr.selected@.len() == pr.selected_suffixes@.len()
            &&& forall|k: int|
                0 <= k < pr.selected@.len() ==> (#[trigger] pr.selected@[k]).0@
                    == path_join_spec(opts.prefix@, views_of(pr.selected_suffixes@)[k])
                    && pr.selected@[k].1 == repo_for(
                    repos.repositories@,
                    views_of(pr.selected_suffixes@)[k],
                )
            &&& forall|k: int|
                0 <= k < pr.selected@.len() ==> (#[trigger] pr.selected@[k]).1.kind is Git
            &&& seq_distinct(reg_paths(pr.registered@))
            &&& reg_paths(pr.registered@).to_set() == obs_paths(observed@).to_set()
            &&& classification_ok(
                pr.classification,
                pr.selected@,
                pr.registered@,
                opts.prefix@,
            )
            &&& pr.tracker.original_states@.len() == observed@.len()
            &&& forall|i: int|
                0 <= i < observed@.len() ==> #[trigger] pr.tracker.original_states@[i]
                    == snapshot_entry_of(observed@[i])
            &&& plan_shape_ok(pr.plan, pr.classification, flags_of(*opts))
            &&& pr.plan.dry_run == opts.dry_run
        },
        r is Ok <==> run_inputs_ok(*repos, *opts, observed@, host_statuses@),
        r matches Err(e) ==> (e is Configuration || e is Selection || e is Precondition
            || e is Snapshot),
{
    match validate_repositories(&repos.repositories, opts.prefix.as_str()) {
        Ok(_) => (),
        Err(e) => {
            proof {
                assert(!run_inputs_ok(*repos, *opts, observed@, host_statuses@));
            }
            return Err(e);
        },
    }
    match validate_main_repo_clean(host_statuses) {
        Ok(_) => (),
        Err(e) => {
            proof {
                assert(!run_inputs_ok(*repos, *opts, observed@, host_statuses@));
            }
            return Err(e);
        },
    }
    match validate_submodule_states(observed) {
        Ok(_) => (),
        Err(e) => {
            proof {
                assert(!run_inputs_ok(*repos, *opts, observed@, host_statuses@));
            }
            return Err(e);
        },
    }
    let declared = paths_of_pairs(&repos.repositories);
    proof {
        assert(declared@ == paths_strings_of(repos.repositories@));
    }
    let suffixes = match select_repos(&declared, opts.get_selected(), opts.get_ignored()) {
        Ok(s) => s,
        Err(e) => {
            proof {
                // a refused selection breaks one of the filter
                // conditions, so the inputs were not acceptable
                if run_inputs_ok(*repos, *opts, observed@, host_statuses@) {
                    assert(opts.ignore matches Some(ig) ==> views_subset_of(ig@, declared@));
                    assert(opts.only matches Some(names) ==> views_subset_of(names@, declared@));
                    assert(false);
                }
            }
            return Err(e);
        },
    };
    proof {
        assert(views_of(declared@) == spec_paths(repos.repositories@));
        assert forall|k: int|
            0 <= k < suffixes@.len() implies spec_paths(repos.repositories@).to_set().contains(
            #[trigger] views_of(suffixes@)[k],
        ) by {
            assert(views_of(suffixes@)[k] == suffixes@[k]@);
            assert(view_set(suffixes@).contains(suffixes@[k]@));
        }
    }
    let selected = build_selected_pairs(&repos.repositories, &suffixes, opts.prefix.as_str());
    match check_repo_types(&selected) {
        Ok(_) => (),
        Err(e) => {
            proof {
                // an unsupported kind among the selected entries breaks
                // the kind condition, so the inputs were not acceptable
                if run_inputs_ok(*repos, *opts, observed@, host_statuses@) {
                    assert forall|k: int|
                        0 <= k < selected@.len() implies (#[trigger] selected@[k]).1.kind
                            is Git by {
                        assert(views_of(suffixes@)[k] == suffixes@[k]@);
                        assert(views_of(suffixes@).contains(suffixes@[k]@));
                        assert(view_set(suffixes@).contains(views_of(suffixes@)[k]));
                        assert(selected_set(
                            paths_strings_of(repos.repositories@),
                            opts.only,
                            opts.ignore,
                        ).contains(views_of(suffixes@)[k]));
                        assert(repo_for(
                            repos.repositories@,
                            views_of(suffixes@)[k],
                        ).kind is Git);
                    }
                    assert(false);
                }
            }
            return Err(e);
        },
    }
    let registered = build_registered(observed);
    let classification = classify_submodules(&selected, &registered, opts.prefix.as_str());
    let tracker = match SubmoduleStateTracker::new(observed) {
        Ok(t) => t,
        Err(e) => {
            proof {
                assert(!run_inputs_ok(*repos, *opts, observed@, host_statuses@));
            }
            return Err(e);
        },
    };
    let flags = run_flags(opts);
    let plan = plan_operations(&classification, &flags);
    proof {
        // every gate accepted, so the inputs meet every condition;
        // in particular every selected path names a supported entry
        assert forall|p: Seq<char>|
            #[trigger] selected_set(
                paths_strings_of(repos.repositories@),
                opts.only,
                opts.ignore,
            ).contains(p) implies repo_for(repos.repositories@, p).kind is Git by {
            assert(view_set(suffixes@).contains(p));
            let k = choose|k: int|
                0 <= k < suffixes@.len() && crate::text::views_of(suffixes@)[k] == p;
            assert(selected@[k].1 == repo_for(repos.repositories@, p));
            assert(selected@[k].1.kind is Git);
        }
        assert(run_inputs_ok(*repos, *opts, observed@, host_statuses@));
    }
    Ok(
        PreparedRun {
            selected_suffixes: suffixes,
            selected,
            registered,
            classification,
            tracker,
            plan,
        },
    )
}


/// Whether an operation mutates the host repository at all.
pub open spec fn op_mutates(op: PlannedOp) -> bool {
    match op {
        PlannedOp::Add { .. } => true,
        PlannedOp::Update { .. } => true,
        PlannedOp::Remove { .. } => true,
        PlannedOp::SkipExisting { .. } => false,
        PlannedOp::ReportExtra { .. } => false,
    }
}

/// Whether this operation is performed or only reported: in dry-run
/// mode nothing is ever performed, so a failing operation can never
/// occur and rollback is never triggered.
pub fn should_execute(plan: &RunPlan, op: &PlannedOp) -> (r: bool)
    ensures
        r == (!plan.dry_run && op_mutates(*op)),
{
    if plan.dry_run {
        return false;
    }
    match op {
        PlannedOp::Add { .. } => true,
        PlannedOp::Update { .. } => true,
        PlannedOp::Remove { .. } => true,
        PlannedOp::SkipExisting { .. } => false,
        PlannedOp::ReportExtra { .. } => false,
    }
}

/// How the whole run ended: a dry run only reports; otherwise a
/// failure means everything was rolled back, and success means every
/// selected operation was applied.
pub fn run_outcome(dry_run: bool, failed: bool) -> (r: RunOutcome)
    ensures
        dry_run ==> r is AppliedDryRun,
        !dry_run && failed ==> r is RolledBack,
        !dry_run && !failed ==> r is AppliedAndCommitted,
{
    if dry_run {
        RunOutcome::AppliedDryRun
    } else if failed {
        RunOutcome::RolledBack
    } else {
        RunOutcome::AppliedAndCommitted
    }
}

/// The paths of the additions among the first `n` operations.
pub open spec fn add_paths_upto(ops: Seq<PlannedOp>, n: int) -> Seq<Seq<char>>
    decreases ops.len(),
{
    if ops.len() == 0 || n <= 0 {
        Seq::empty()
    } else {
        let rest = add_paths_upto(ops.skip(1), n - 1);
        match ops[0] {
            PlannedOp::Add { path, .. } => seq![path@] + rest,
            _ => rest,
        }
    }
}

/// The paths that count as created when operation `failed_index`
/// failed: every addition up to and including the failing operation.
/// A partially created addition still counts, so that rollback
/// removes it.
pub fn completed_after_failure(plan: &RunPlan, failed_index: usize) -> (r: Vec<String>)
    ensures
        failed_index < plan.ops@.len() ==> views_of(r@) == add_paths_upto(
            plan.ops@,
            failed_index + 1,
        ),
        failed_index >= plan.ops@.len() ==> views_of(r@) == add_paths_upto(
            plan.ops@,
            plan.ops@.len() as int,
        ),
{
    let stop = if failed_index < plan.ops.len() {
        failed_index + 1
    } else {
        plan.ops.len()
    };
    let mut out: Vec<String> = Vec::new();
    let mut i: usize = 0;
    proof {
        assert(plan.ops@.skip(0) =~= plan.ops@);
        assert(views_of(out@) =~= Seq::<Seq<char>>::empty());
        assert(views_of(out@) + add_paths_upto(plan.ops@, stop as int) =~= add_paths_upto(
            plan.ops@,
            stop as int,
        ));
    }
    while i < stop
        invariant
            i <= stop <= plan.ops@.len(),
            add_paths_upto(plan.ops@, stop as int) == views_of(out@) + add_paths_upto(
                plan.ops@.skip(i as int),
                stop - i,
            ),
        decreases stop - i,
    {
        proof {
            assert(plan.ops@.skip(i as int)[0] == plan.ops@[i as int]);
            assert(plan.ops@.skip(i as int).skip(1) =~= plan.ops@.skip(i as int + 1));
        }
        match &plan.ops[i] {
            PlannedOp::Add { path, .. } => {
                let ghost old_out = out@;
                out.push(path.clone());
                proof {
                    crate::text::lemma_views_push(old_out, out@[old_out.len() as int]);
                    assert(views_of(old_out) + (seq![plan.ops@[i as int]->Add_path@]
                        + add_paths_upto(plan.ops@.skip(i as int + 1), stop - i - 1)) =~= views_of(
                        out@,
                    ) + add_paths_upto(plan.ops@.skip(i as int + 1), stop - i - 1));
                }
            },
            _ => (),
        }
        i = i + 1;
    }
    proof {
        assert(add_paths_upto(plan.ops@.skip(i as int), 0) =~= Seq::<Seq<char>>::empty());
        assert(views_of(out@) + Seq::<Seq<char>>::empty() =~= views_of(out@));
    }
    out
}

/// During rollback, once every newly created entry has been torn
/// down: the `.gitmodules` file is deleted only when it exists and no
/// nested repository remains registered.
pub fn should_delete_gitmodules(file_exists: bool, remaining_submodules: usize) -> (r: bool)
    ensures
        r == (file_exists && remaining_submodules == 0),
{
    file_exists && remaining_submodules == 0
}

/// Every selected entry must be of the one supported repository kind.
pub fn check_repo_types(selected: &Vec<(String, Repo)>) -> (r: Result<(), EngineError>)
    ensures
        r is Ok <==> (forall|i: int| 0 <= i < selected@.len() ==> (#[trigger] selected@[i]).1.kind is Git),
        r matches Err(e) ==> e is Configuration,
{
    let mut i: usize = 0;
    while i < selected.len()
        invariant
            i <= selected@.len(),
            forall|k: int| 0 <= k < i ==> (#[trigger] selected@[k]).1.kind is Git,
        decreases selected@.len() - i,
    {
        match &selected[i].1.kind {
            RepoType::Git => (),
            RepoType::Unknown(ty) => {
                return Err(EngineError::Configuration(unsupported_type_message(ty.as_str())));
            },
        }
        i = i + 1;
    }
    Ok(())
}

/// The message naming an unsupported repository kind.
pub fn unsupported_type_message(ty: &str) -> (r: String)
    ensures
        r@ == "Repository type '"@ + ty@
            + "' is not supported. Only 'git' repositories are supported."@,
{
    let mut m = String::from_str("Repository type '");
    m.append(ty);
    m.append("' is not supported. Only 'git' repositories are supported.");
    m
}


/// The model of one registered nested repository: its stable name,
/// recorded URL, and pinned commit.
pub ghost struct EntryModel {
    pub name: Seq<char>,
    pub url: Seq<char>,
    pub commit: Seq<char>,
}

/// The model of the host's registered state: a map from path to
/// entry.
pub type RegModel = Map<Seq<char>, EntryModel>;

/// The path an operation is about.
pub open spec fn op_path(op: PlannedOp) -> Seq<char> {
    match op {
        PlannedOp::Add { path, .. } => path@,
        PlannedOp::Update { path, .. } => path@,
        PlannedOp::SkipExisting { path } => path@,
        PlannedOp::Remove { path, .. } => path@,
        PlannedOp::ReportExtra { path } => path@,
    }
}

/// The paths of a list of operations.
pub open spec fn op_paths(ops: Seq<PlannedOp>) -> Seq<Seq<char>> {
    ops.map_values(|op: PlannedOp| op_path(op))
}

/// Whether an operation leaves an entry registered at its path.
pub open spec fn op_registers(op: PlannedOp, was: bool) -> bool {
    match op {
        PlannedOp::Add { .. } => true,
        PlannedOp::Update { .. } => true,
        PlannedOp::Remove { .. } => false,
        PlannedOp::SkipExisting { .. } => was,
        PlannedOp::ReportExtra { .. } => was,
    }
}

/// Whether an operation writes a fresh entry at its path.
pub open spec fn op_writes(op: PlannedOp) -> bool {
    match op {
        PlannedOp::Add { .. } => true,
        PlannedOp::Update { .. } => true,
        _ => false,
    }
}

/// The entry an operation writes, under a fixed resolution of each
/// path's version to a commit (no external drift between lookups).
pub open spec fn op_entry(op: PlannedOp, resolve: Map<Seq<char>, Seq<char>>) -> EntryModel {
    match op {
        PlannedOp::Add { path, url, .. } => EntryModel {
            name: path@,
            url: url@,
            commit: resolve[path@],
        },
        PlannedOp::Update { path, name, url, .. } => EntryModel {
            name: name@,
            url: url@,
            commit: resolve[path@],
        },
        _ => EntryModel { name: Seq::empty(), url: Seq::empty(), commit: Seq::empty() },
    }
}

/// What one operation does to the registered state.
pub open spec fn apply_op(reg: RegModel, op: PlannedOp, resolve: Map<Seq<char>, Seq<char>>) -> RegModel {
    match op {
        PlannedOp::Add { .. } => reg.insert(op_path(op), op_entry(op, resolve)),
        PlannedOp::Update { .. } => reg.insert(op_path(op), op_entry(op, resolve)),
        PlannedOp::Remove { .. } => reg.remove(op_path(op)),
        PlannedOp::SkipExisting { .. } => reg,
        PlannedOp::ReportExtra { .. } => reg,
    }
}

/// What a list of operations does, applied in order.
pub open spec fn apply_ops(
    reg: RegModel,
    ops: Seq<PlannedOp>,
    resolve: Map<Seq<char>, Seq<char>>,
) -> RegModel
    decreases ops.len(),
{
    if ops.len() == 0 {
        reg
    } else {
        apply_ops(apply_op(reg, ops[0], resolve), ops.skip(1), resolve)
    }
}

/// What a whole plan does: a dry run changes nothing at all.
pub open spec fn apply_plan(
    reg: RegModel,
    plan: RunPlan,
    resolve: Map<Seq<char>, Seq<char>>,
) -> RegModel {
    if plan.dry_run {
        reg
    } else {
        apply_ops(reg, plan.ops@, resolve)
    }
}

/// Dry-run purity: with dry-run enabled no operation is executed and
/// the registered state is untouched, whatever the plan holds, so a
/// rollback can never be triggered and the outcome is reported as a
/// dry run.
pub proof fn lemma_dry_run_purity(reg: RegModel, plan: RunPlan, resolve: Map<Seq<char>, Seq<char>>)
    requires
        plan.dry_run,
    ensures
        apply_plan(reg, plan, resolve) == reg,
        forall|op: PlannedOp| !(!plan.dry_run && op_mutates(op)),
{
}

/// The operation of the list that is about path `p`.
pub open spec fn op_for(ops: Seq<PlannedOp>, p: Seq<char>) -> PlannedOp {
    ops[choose|k: int| 0 <= k < ops.len() && op_path(ops[k]) == p]
}

/// The result of a list of operations over pairwise distinct paths,
/// in closed form: each path is governed by its own operation alone.
pub open spec fn ops_result(
    reg: RegModel,
    ops: Seq<PlannedOp>,
    resolve: Map<Seq<char>, Seq<char>>,
) -> RegModel {
    Map::new(
        |p: Seq<char>|
            if op_paths(ops).contains(p) {
                op_registers(op_for(ops, p), reg.dom().contains(p))
            } else {
                reg.dom().contains(p)
            },
        |p: Seq<char>|
            if op_paths(ops).contains(p) && op_writes(op_for(ops, p)) {
                op_entry(op_for(ops, p), resolve)
            } else {
                reg[p]
            },
    )
}

/// Operations over pairwise distinct paths commute into the closed
/// form: the order among them no longer matters, each path is decided
/// by its own operation.
pub proof fn lemma_apply_ops_pointwise(
    reg: RegModel,
    ops: Seq<PlannedOp>,
    resolve: Map<Seq<char>, Seq<char>>,
)
    requires
        seq_distinct(op_paths(ops)),
    ensures
        apply_ops(reg, ops, resolve) == ops_result(reg, ops, resolve),
    decreases ops.len(),
{
    if ops.len() == 0 {
        assert(apply_ops(reg, ops, resolve) =~= ops_result(reg, ops, resolve));
    } else {
        let op0 = ops[0];
        let p0 = op_path(op0);
        let rest = ops.skip(1);
        let reg1 = apply_op(reg, op0, resolve);
        assert forall|a: int, b: int|
            0 <= a < b < rest.len() implies op_paths(rest)[a] != op_paths(rest)[b] by {
            assert(op_paths(rest)[a] == op_path(rest[a]));
            assert(rest[a] == ops[a + 1]);
            assert(op_paths(ops)[a + 1] == op_path(ops[a + 1]));
            assert(op_paths(rest)[b] == op_path(rest[b]));
            assert(rest[b] == ops[b + 1]);
            assert(op_paths(ops)[b + 1] == op_path(ops[b + 1]));
        }
        lemma_apply_ops_pointwise(reg1, rest, resolve);
        assert(apply_ops(reg, ops, resolve) == apply_ops(reg1, rest, resolve));
        assert(ops_result(reg1, rest, resolve) =~= ops_result(reg, ops, resolve)) by {
            assert forall|p: Seq<char>| true implies #[trigger] ops_result(
                reg1,
                rest,
                resolve,
            ).dom().contains(p) == ops_result(reg, ops, resolve).dom().contains(p) && (
            ops_result(reg, ops, resolve).dom().contains(p) ==> ops_result(
                reg1,
                rest,
                resolve,
            )[p] == ops_result(reg, ops, resolve)[p]) by {
                lemma_ops_pointwise_cases(reg, reg1, op0, ops, rest, resolve, p);
            }
        }
    }
}

/// One path of the case analysis behind the closed form.
proof fn lemma_ops_pointwise_cases(
    reg: RegModel,
    reg1: RegModel,
    op0: PlannedOp,
    ops: Seq<PlannedOp>,
    rest: Seq<PlannedOp>,
    resolve: Map<Seq<char>, Seq<char>>,
    p: Seq<char>,
)
    requires
        ops.len() > 0,
        op0 == ops[0],
        rest == ops.skip(1),
        seq_distinct(op_paths(ops)),
        reg1 == apply_op(reg, op0, resolve),
    ensures
        ops_result(reg1, rest, resolve).dom().contains(p) == ops_result(
            reg,
            ops,
            resolve,
        ).dom().contains(p),
        ops_result(reg, ops, resolve).dom().contains(p) ==> ops_result(reg1, rest, resolve)[p]
            == ops_result(reg, ops, resolve)[p],
{
    let p0 = op_path(op0);
    assert(op_paths(ops)[0] == p0);
    assert(op_paths(ops).len() == ops.len());
    assert(op_paths(rest).len() == rest.len());
    assert(forall|k: int| 0 <= k < rest.len() ==> #[trigger] op_paths(rest)[k] == op_paths(
        ops,
    )[k + 1]) by {
        assert forall|k: int| 0 <= k < rest.len() implies #[trigger] op_paths(rest)[k]
            == op_paths(ops)[k + 1] by {
            assert(op_paths(rest)[k] == op_path(rest[k]));
            assert(rest[k] == ops[k + 1]);
            assert(op_paths(ops)[k + 1] == op_path(ops[k + 1]));
        }
    }
    if p == p0 {
        // p is settled by the first operation and untouched afterwards
        assert(!op_paths(rest).contains(p)) by {
            if op_paths(rest).contains(p) {
                let k = choose|k: int| 0 <= k < rest.len() && op_paths(rest)[k] == p;
                assert(op_paths(ops)[k + 1] == p);
                assert(op_paths(ops)[0] == op_paths(ops)[k + 1]);
            }
        }
        assert(op_paths(ops).contains(p));
        assert(op_for(ops, p) == op0) by {
            let k = choose|k: int| 0 <= k < ops.len() && op_path(ops[k]) == p;
            if k != 0 {
                assert(op_paths(ops)[k] == p && op_paths(ops)[0] == p);
            }
        }
        match op0 {
            PlannedOp::Add { .. } => {
                assert(reg1.dom().contains(p) && reg1[p] == op_entry(op0, resolve));
            },
            PlannedOp::Update { .. } => {
                assert(reg1.dom().contains(p) && reg1[p] == op_entry(op0, resolve));
            },
            PlannedOp::Remove { .. } => {
                assert(!reg1.dom().contains(p));
            },
            PlannedOp::SkipExisting { .. } => {},
            PlannedOp::ReportExtra { .. } => {},
        }
    } else {
        // p is never the first operation's path
        if op_paths(rest).contains(p) {
            let k = choose|k: int| 0 <= k < rest.len() && op_paths(rest)[k] == p;
            assert(op_paths(ops)[k + 1] == p);
            assert(op_paths(ops).contains(p));
            assert(op_for(ops, p) == op_for(rest, p)) by {
                let a = choose|a: int| 0 <= a < ops.len() && op_path(ops[a]) == p;
                let b = choose|b: int| 0 <= b < rest.len() && op_path(rest[b]) == p;
                assert(op_paths(rest)[b] == p);
                assert(op_paths(ops)[b + 1] == p);
                if a != b + 1 {
                    assert(op_paths(ops)[a] == p && op_paths(ops)[b + 1] == p);
                }
                assert(ops[a] == rest[b]);
            }
        } else {
            if op_paths(ops).contains(p) {
                let k = choose|k: int| 0 <= k < ops.len() && op_paths(ops)[k] == p;
                if k == 0 {
                    assert(p == p0);
                } else {
                    assert(op_paths(rest)[k - 1] == p);
                    assert(op_paths(rest).contains(p));
                }
            }
            assert(!op_paths(ops).contains(p));
        }
        // the first operation does not move p
        assert(reg1.dom().contains(p) == reg.dom().contains(p));
        assert(reg.dom().contains(p) ==> reg1[p] == reg[p]);
    }
}


/// The index of the updated entry with path `p`.
pub open spec fn upd_index_of(s: Seq<(String, String, Repo)>, p: Seq<char>) -> int {
    choose|i: int| 0 <= i < s.len() && s[i].0@ == p
}

/// The stable name the updated class records for path `p`.
pub open spec fn upd_name_of(s: Seq<(String, String, Repo)>, p: Seq<char>) -> Seq<char> {
    s[upd_index_of(s, p)].1@
}

/// The desired state the updated class records for path `p`.
pub open spec fn upd_repo_of(s: Seq<(String, String, Repo)>, p: Seq<char>) -> Repo {
    s[upd_index_of(s, p)].2
}

/// The registered state after one successful, non-dry run, in closed
/// form: every new entry is registered under its path at its resolved
/// commit; every updated entry is re-pointed and re-resolved (unless
/// updates are skipped); removed entries are gone exactly when
/// removal is enabled; everything else is untouched.
pub open spec fn reg_after(
    reg: RegModel,
    c: ClassificationResult,
    flags: RunFlags,
    resolve: Map<Seq<char>, Seq<char>>,
) -> RegModel {
    let newset = spec_paths(c.new@).to_set();
    let updset = upd_paths(c.updated@).to_set();
    let remset = reg_paths(c.removed@).to_set();
    Map::new(
        |p: Seq<char>|
            if newset.contains(p) {
                true
            } else if flags.sync_selection && remset.contains(p) {
                false
            } else {
                reg.dom().contains(p)
            },
        |p: Seq<char>|
            if newset.contains(p) {
                EntryModel { name: p, url: repo_for(c.new@, p).url@, commit: resolve[p] }
            } else if !flags.skip_existing && updset.contains(p) {
                EntryModel {
                    name: upd_name_of(c.updated@, p),
                    url: upd_repo_of(c.updated@, p).url@,
                    commit: resolve[p],
                }
            } else {
                reg[p]
            },
    )
}

/// Executing a plan that follows a classification yields exactly the
/// closed-form state of one successful run: the plan's order adds
/// nothing beyond what the classification decides.
pub proof fn lemma_plan_effect(
    reg: RegModel,
    c: ClassificationResult,
    flags: RunFlags,
    resolve: Map<Seq<char>, Seq<char>>,
    plan: RunPlan,
)
    requires
        plan_shape_ok(plan, c, flags),
        !plan.dry_run,
        seq_distinct(spec_paths(c.new@)),
        seq_distinct(upd_paths(c.updated@)),
        seq_distinct(reg_paths(c.removed@)),
        spec_paths(c.new@).to_set().disjoint(upd_paths(c.updated@).to_set()),
        spec_paths(c.new@).to_set().disjoint(reg_paths(c.removed@).to_set()),
        upd_paths(c.updated@).to_set().disjoint(reg_paths(c.removed@).to_set()),
        forall|p: Seq<char>|
            upd_paths(c.updated@).to_set().contains(p) ==> reg.dom().contains(p),
    ensures
        apply_ops(reg, plan.ops@, resolve) == reg_after(reg, c, flags, resolve),
{
    let ops = plan.ops@;
    let n = c.new@.len() as int;
    let u = c.updated@.len() as int;
    let newset = spec_paths(c.new@).to_set();
    let updset = upd_paths(c.updated@).to_set();
    let remset = reg_paths(c.removed@).to_set();

    assert forall|k: int| 0 <= k < ops.len() implies #[trigger] op_paths(ops)[k] == seg_path(
        c,
        k,
    ) by {
        assert(op_paths(ops)[k] == op_path(ops[k]));
        if k < n {
        } else if k < n + u {
            assert(ops[k] == plan.ops@[n + (k - n)]);
        } else {
            assert(ops[k] == plan.ops@[n + u + (k - n - u)]);
        }
    }
    assert forall|a: int, b: int|
        0 <= a < b < ops.len() implies op_paths(ops)[a] != op_paths(ops)[b] by {
        let pa = seg_path(c, a);
        let pb = seg_path(c, b);
        if a < n {
            assert(spec_paths(c.new@)[a] == pa);
            assert(newset.contains(pa));
        } else if a < n + u {
            assert(upd_paths(c.updated@)[a - n] == pa);
            assert(updset.contains(pa));
        } else {
            assert(reg_paths(c.removed@)[a - n - u] == pa);
            assert(remset.contains(pa));
        }
        if b < n {
            assert(spec_paths(c.new@)[b] == pb);
            assert(newset.contains(pb));
        } else if b < n + u {
            assert(upd_paths(c.updated@)[b - n] == pb);
            assert(updset.contains(pb));
        } else {
            assert(reg_paths(c.removed@)[b - n - u] == pb);
            assert(remset.contains(pb));
        }
    }
    lemma_apply_ops_pointwise(reg, ops, resolve);
    assert(ops_result(reg, ops, resolve) =~= reg_after(reg, c, flags, resolve)) by {
        assert forall|p: Seq<char>| true implies #[trigger] ops_result(
            reg,
            ops,
            resolve,
        ).dom().contains(p) == reg_after(reg, c, flags, resolve).dom().contains(p) && (
        reg_after(reg, c, flags, resolve).dom().contains(p) ==> ops_result(reg, ops, resolve)[p]
            == reg_after(reg, c, flags, resolve)[p]) by {
            lemma_plan_effect_at(reg, c, flags, resolve, plan, p);
        }
    }
}

/// The path the classification assigns to plan position `k`.
pub open spec fn seg_path(c: ClassificationResult, k: int) -> Seq<char> {
    let n = c.new@.len() as int;
    let u = c.updated@.len() as int;
    if k < n {
        c.new@[k].0@
    } else if k < n + u {
        c.updated@[k - n].0@
    } else {
        c.removed@[k - n - u].0@
    }
}

/// The closed forms agree at one path.
proof fn lemma_plan_effect_at(
    reg: RegModel,
    c: ClassificationResult,
    flags: RunFlags,
    resolve: Map<Seq<char>, Seq<char>>,
    plan: RunPlan,
    p: Seq<char>,
)
    requires
        plan_shape_ok(plan, c, flags),
        !plan.dry_run,
        seq_distinct(spec_paths(c.new@)),
        seq_distinct(upd_paths(c.updated@)),
        seq_distinct(reg_paths(c.removed@)),
        spec_paths(c.new@).to_set().disjoint(upd_paths(c.updated@).to_set()),
        spec_paths(c.new@).to_set().disjoint(reg_paths(c.removed@).to_set()),
        upd_paths(c.updated@).to_set().disjoint(reg_paths(c.removed@).to_set()),
        forall|q: Seq<char>|
            upd_paths(c.updated@).to_set().contains(q) ==> reg.dom().contains(q),
        forall|k: int| 0 <= k < plan.ops@.len() ==> #[trigger] op_paths(plan.ops@)[k] == seg_path(
            c,
            k,
        ),
        seq_distinct(op_paths(plan.ops@)),
    ensures
        ops_result(reg, plan.ops@, resolve).dom().contains(p) == reg_after(
            reg,
            c,
            flags,
            resolve,
        ).dom().contains(p),
        reg_after(reg, c, flags, resolve).dom().contains(p) ==> ops_result(
            reg,
            plan.ops@,
            resolve,
        )[p] == reg_after(reg, c, flags, resolve)[p],
{
    let ops = plan.ops@;
    let n = c.new@.len() as int;
    let u = c.updated@.len() as int;
    let newset = spec_paths(c.new@).to_set();
    let updset = upd_paths(c.updated@).to_set();
    let remset = reg_paths(c.removed@).to_set();
    if newset.contains(p) {
        let k = choose|k: int| 0 <= k < c.new@.len() && spec_paths(c.new@)[k] == p;
        assert(op_paths(ops)[k] == p);
        assert(op_paths(ops).contains(p));
        assert(op_for(ops, p) == ops[k]) by {
            let a = choose|a: int| 0 <= a < ops.len() && op_path(ops[a]) == p;
            if a != k {
                assert(op_paths(ops)[a] == p && op_paths(ops)[k] == p);
            }
        }
        assert(ops[k] matches PlannedOp::Add { path, url, version } && path@ == c.new@[k].0@
            && url@ == c.new@[k].1.url@);
        assert(c.new@[k].1 == repo_for(c.new@, p)) by {
            let w = crate::classifier::spec_index_of(c.new@, p);
            assert(c.new@[w].0@ == p);
            assert(spec_paths(c.new@)[w] == p);
            if w != k {
                assert(spec_paths(c.new@)[w] == p && spec_paths(c.new@)[k] == p);
            }
        }
    } else if updset.contains(p) {
        let k = choose|k: int| 0 <= k < c.updated@.len() && upd_paths(c.updated@)[k] == p;
        assert(op_paths(ops)[n + k] == seg_path(c, n + k));
        assert(seg_path(c, n + k) == c.updated@[k].0@);
        assert(op_paths(ops)[n + k] == p);
        assert(op_paths(ops).contains(p));
        assert(op_for(ops, p) == ops[n + k]) by {
            let a = choose|a: int| 0 <= a < ops.len() && op_path(ops[a]) == p;
            if a != n + k {
                assert(op_paths(ops)[a] == p && op_paths(ops)[n + k] == p);
            }
        }
        assert(ops[n + k] == plan.ops@[n + k]);
        if flags.skip_existing {
            assert(ops[n + k] == PlannedOp::SkipExisting { path: c.updated@[k].0 });
        } else {
            assert(ops[n + k] == PlannedOp::Update {
                path: c.updated@[k].0,
                name: c.updated@[k].1,
                url: c.updated@[k].2.url,
                version: c.updated@[k].2.version,
            });
            assert(c.updated@[k].1@ == upd_name_of(c.updated@, p) && c.updated@[k].2
                == upd_repo_of(c.updated@, p)) by {
                let w = upd_index_of(c.updated@, p);
                assert(c.updated@[w].0@ == p);
                assert(upd_paths(c.updated@)[w] == p);
                if w != k {
                    assert(upd_paths(c.updated@)[w] == p && upd_paths(c.updated@)[k] == p);
                }
            }
        }
        assert(reg.dom().contains(p));
    } else if remset.contains(p) {
        let k = choose|k: int| 0 <= k < c.removed@.len() && reg_paths(c.removed@)[k] == p;
        assert(op_paths(ops)[n + u + k] == seg_path(c, n + u + k));
        assert(seg_path(c, n + u + k) == c.removed@[k].0@);
        assert(op_paths(ops)[n + u + k] == p);
        assert(op_paths(ops).contains(p));
        assert(op_for(ops, p) == ops[n + u + k]) by {
            let a = choose|a: int| 0 <= a < ops.len() && op_path(ops[a]) == p;
            if a != n + u + k {
                assert(op_paths(ops)[a] == p && op_paths(ops)[n + u + k] == p);
            }
        }
        assert(ops[n + u + k] == plan.ops@[n + u + k]);
    } else {
        if op_paths(ops).contains(p) {
            let k = choose|k: int| 0 <= k < ops.len() && op_paths(ops)[k] == p;
            assert(op_paths(ops)[k] == seg_path(c, k));
            if k < n {
                assert(spec_paths(c.new@)[k] == p);
                assert(newset.contains(p));
            } else if k < n + u {
                assert(upd_paths(c.updated@)[k - n] == p);
                assert(updset.contains(p));
            } else {
                assert(reg_paths(c.removed@)[k - n - u] == p);
                assert(remset.contains(p));
            }
        }
        assert(!op_paths(ops).contains(p));
    }
}


/// The run-effect law, with its side conditions discharged from a
/// sound classification: a plan laid out from a classification of the
/// current registered state applies to exactly the closed-form result
/// of one successful run.
pub proof fn lemma_run_effect_from_classification(
    reg: RegModel,
    selected: Seq<(String, Repo)>,
    registered: Seq<(String, String)>,
    c: ClassificationResult,
    flags: RunFlags,
    resolve: Map<Seq<char>, Seq<char>>,
    plan: RunPlan,
    prefix: Seq<char>,
)
    requires
        classification_ok(c, selected, registered, prefix),
        plan_shape_ok(plan, c, flags),
        !plan.dry_run,
        reg_paths(registered).to_set() == reg.dom(),
    ensures
        apply_ops(reg, plan.ops@, resolve) == reg_after(reg, c, flags, resolve),
{
    let d = spec_paths(selected).to_set();
    let r = reg_paths(registered).to_set();
    assert(spec_paths(c.new@).to_set().disjoint(upd_paths(c.updated@).to_set())) by {
        assert forall|p: Seq<char>|
            spec_paths(c.new@).to_set().contains(p) implies !upd_paths(
            c.updated@,
        ).to_set().contains(p) by {}
    }
    assert(spec_paths(c.new@).to_set().disjoint(reg_paths(c.removed@).to_set())) by {
        assert forall|p: Seq<char>|
            spec_paths(c.new@).to_set().contains(p) implies !reg_paths(
            c.removed@,
        ).to_set().contains(p) by {}
    }
    assert(upd_paths(c.updated@).to_set().disjoint(reg_paths(c.removed@).to_set())) by {
        assert forall|p: Seq<char>|
            upd_paths(c.updated@).to_set().contains(p) implies !reg_paths(
            c.removed@,
        ).to_set().contains(p) by {}
    }
    assert forall|p: Seq<char>|
        upd_paths(c.updated@).to_set().contains(p) implies reg.dom().contains(p) by {
        assert(crate::classifier::updated_class(d, r).contains(p));
    }
    lemma_plan_effect(reg, c, flags, resolve, plan);
}

/// After one successful synchronizing run, a second run with the same
/// desired set classifies every desired path as updated and nothing
/// as new or removed: the engine is idempotent at the level of the
/// three classes.
pub proof fn lemma_second_run_classes(
    d: Set<Seq<char>>,
    r: Set<Seq<char>>,
    prefix: Seq<char>,
    sync: bool,
)
    ensures
        crate::classifier::new_class(
            d,
            second_run_registered(d, r, prefix, sync),
        ) == Set::<Seq<char>>::empty(),
        crate::classifier::updated_class(d, second_run_registered(d, r, prefix, sync)) == d,
        sync ==> crate::classifier::removed_class(
            d,
            second_run_registered(d, r, prefix, sync),
            prefix,
        ) == Set::<Seq<char>>::empty(),
{
    let r2 = second_run_registered(d, r, prefix, sync);
    assert(crate::classifier::new_class(d, r2) =~= Set::<Seq<char>>::empty());
    assert(crate::classifier::updated_class(d, r2) =~= d);
    if sync {
        assert(crate::classifier::removed_class(d, r2, prefix) =~= Set::<Seq<char>>::empty());
    }
}

/// The registered-path set after one successful run: all desired
/// paths, plus whatever was registered before and was not removed.
pub open spec fn second_run_registered(
    d: Set<Seq<char>>,
    r: Set<Seq<char>>,
    prefix: Seq<char>,
    sync: bool,
) -> Set<Seq<char>> {
    if sync {
        r.difference(crate::classifier::removed_class(d, r, prefix)).union(
            crate::classifier::new_class(d, r),
        )
    } else {
        r.union(crate::classifier::new_class(d, r))
    }
}

/// Idempotence of the run itself: applying a second run's effect to
/// the state a first run left behind changes nothing, as long as no
/// external drift happened (each path still resolves to the same
/// commit) and the first run brought every desired path to its
/// desired URL and resolved commit.
pub proof fn lemma_engine_idempotent(
    reg2: RegModel,
    selected: Seq<(String, Repo)>,
    registered2: Seq<(String, String)>,
    c2: ClassificationResult,
    flags: RunFlags,
    resolve: Map<Seq<char>, Seq<char>>,
    prefix: Seq<char>,
)
    requires
        classification_ok(c2, selected, registered2, prefix),
        reg_paths(registered2).to_set() == reg2.dom(),
        forall|p: Seq<char>|
            reg2.dom().contains(p) ==> crate::classifier::name_for(registered2, p) == (
            #[trigger] reg2[p]).name,
        forall|p: Seq<char>|
            #[trigger] spec_paths(selected).to_set().contains(p) ==> reg2.dom().contains(p)
                && reg2[p].url == repo_for(selected, p).url@ && reg2[p].commit == resolve[p],
        flags.sync_selection ==> crate::classifier::removed_class(
            spec_paths(selected).to_set(),
            reg2.dom(),
            prefix,
        ) == Set::<Seq<char>>::empty(),
    ensures
        reg_after(reg2, c2, flags, resolve) == reg2,
{
    let d = spec_paths(selected).to_set();
    let r2 = reg2.dom();
    let newset = spec_paths(c2.new@).to_set();
    let updset = upd_paths(c2.updated@).to_set();
    let remset = reg_paths(c2.removed@).to_set();
    assert(newset == crate::classifier::new_class(d, r2));
    assert(newset =~= Set::<Seq<char>>::empty());
    assert(updset == crate::classifier::updated_class(d, r2));
    assert(remset == crate::classifier::removed_class(d, r2, prefix));
    assert(reg_after(reg2, c2, flags, resolve) =~= reg2) by {
        assert forall|p: Seq<char>| true implies #[trigger] reg_after(
            reg2,
            c2,
            flags,
            resolve,
        ).dom().contains(p) == reg2.dom().contains(p) && (reg2.dom().contains(p) ==> reg_after(
            reg2,
            c2,
            flags,
            resolve,
        )[p] == reg2[p]) by {
            assert(!newset.contains(p));
            if flags.sync_selection && remset.contains(p) {
                assert(remset =~= Set::<Seq<char>>::empty());
            }
            if !flags.skip_existing && updset.contains(p) {
                // the entry re-written by the update equals what is there
                let k = upd_index_of(c2.updated@, p);
                assert(updset.contains(p));
                assert(d.contains(p) && r2.contains(p));
                assert(upd_name_of(c2.updated@, p) == crate::classifier::name_for(
                    registered2,
                    p,
                )) by {
                    let w = choose|w: int|
                        0 <= w < c2.updated@.len() && upd_paths(c2.updated@)[w] == p;
                    assert(c2.updated@[w].0@ == p);
                    assert(c2.updated@[w].1@ == crate::classifier::name_for(registered2, p));
                    if k != w {
                        assert(upd_paths(c2.updated@)[k] == p || c2.updated@[k].0@ == p);
                        assert(upd_paths(c2.updated@)[k] == p && upd_paths(c2.updated@)[w]
                            == p);
                        assert(crate::text::seq_distinct(upd_paths(c2.updated@)));
                    }
                }
                assert(upd_repo_of(c2.updated@, p) == repo_for(selected, p)) by {
                    let w = choose|w: int|
                        0 <= w < c2.updated@.len() && upd_paths(c2.updated@)[w] == p;
                    assert(c2.updated@[w].0@ == p);
                    assert(c2.updated@[w].2 == repo_for(selected, p));
                    if k != w {
                        assert(upd_paths(c2.updated@)[k] == p && upd_paths(c2.updated@)[w]
                            == p);
                        assert(crate::text::seq_distinct(upd_paths(c2.updated@)));
                    }
                }
                assert(reg_after(reg2, c2, flags, resolve)[p] == reg2[p]);
            }
        }
    }
}

/// Removing a list of paths from the registered state, in order.
pub open spec fn remove_all(reg: RegModel, paths: Seq<Seq<char>>) -> RegModel
    decreases paths.len(),
{
    if paths.len() == 0 {
        reg
    } else {
        remove_all(reg.remove(paths[0]), paths.skip(1))
    }
}

/// Restoring every snapshot entry, in order: each entry is re-created
/// or reset at its path with its snapshotted name, URL and commit.
pub open spec fn apply_restores(reg: RegModel, entries: Seq<crate::state::SubmoduleState>) -> RegModel
    decreases entries.len(),
{
    if entries.len() == 0 {
        reg
    } else {
        apply_restores(
            reg.insert(
                entries[0].path@,
                EntryModel {
                    name: entries[0].name@,
                    url: entries[0].url@,
                    commit: entries[0].commit@,
                },
            ),
            entries.skip(1),
        )
    }
}

/// The paths of the snapshot entries.
pub open spec fn snapshot_paths(entries: Seq<crate::state::SubmoduleState>) -> Seq<Seq<char>> {
    entries.map_values(|e: crate::state::SubmoduleState| e.path@)
}

/// The registered state the snapshot stands for.
pub open spec fn snapshot_map(entries: Seq<crate::state::SubmoduleState>) -> RegModel {
    apply_restores(Map::empty(), entries)
}

/// Removing paths only shrinks the domain and keeps other entries.
proof fn lemma_remove_all_facts(reg: RegModel, paths: Seq<Seq<char>>, p: Seq<char>)
    ensures
        remove_all(reg, paths).dom().contains(p) == (reg.dom().contains(p) && !paths.contains(
            p,
        )),
        remove_all(reg, paths).dom().contains(p) ==> remove_all(reg, paths)[p] == reg[p],
    decreases paths.len(),
{
    if paths.len() == 0 {
    } else {
        lemma_remove_all_facts(reg.remove(paths[0]), paths.skip(1), p);
        assert(paths.contains(p) == (p == paths[0] || paths.skip(1).contains(p))) by {
            if paths.contains(p) {
                let k = choose|k: int| 0 <= k < paths.len() && paths[k] == p;
                if k > 0 {
                    assert(paths.skip(1)[k - 1] == p);
                }
            }
            if paths.skip(1).contains(p) {
                let k = choose|k: int| 0 <= k < paths.skip(1).len() && paths.skip(1)[k] == p;
                assert(paths[k + 1] == p);
            }
        }
    }
}

/// Restoring writes exactly the snapshot entries and keeps the rest.
proof fn lemma_apply_restores_facts(
    reg: RegModel,
    entries: Seq<crate::state::SubmoduleState>,
    p: Seq<char>,
)
    requires
        seq_distinct(snapshot_paths(entries)),
    ensures
        apply_restores(reg, entries).dom().contains(p) == (reg.dom().contains(p)
            || snapshot_paths(entries).contains(p)),
        snapshot_paths(entries).contains(p) ==> apply_restores(reg, entries)[p]
            == snapshot_entry_at(entries, p),
        !snapshot_paths(entries).contains(p) && reg.dom().contains(p) ==> apply_restores(
            reg,
            entries,
        )[p] == reg[p],
    decreases entries.len(),
{
    if entries.len() == 0 {
    } else {
        let e0 = entries[0];
        let reg1 = reg.insert(
            e0.path@,
            EntryModel { name: e0.name@, url: e0.url@, commit: e0.commit@ },
        );
        assert forall|a: int, b: int|
            0 <= a < b < entries.skip(1).len() implies snapshot_paths(entries.skip(1))[a]
                != snapshot_paths(entries.skip(1))[b] by {
            assert(snapshot_paths(entries.skip(1))[a] == entries.skip(1)[a].path@);
            assert(entries.skip(1)[a] == entries[a + 1]);
            assert(snapshot_paths(entries)[a + 1] == entries[a + 1].path@);
            assert(snapshot_paths(entries.skip(1))[b] == entries.skip(1)[b].path@);
            assert(entries.skip(1)[b] == entries[b + 1]);
            assert(snapshot_paths(entries)[b + 1] == entries[b + 1].path@);
        }
        lemma_apply_restores_facts(reg1, entries.skip(1), p);
        assert(snapshot_paths(entries).contains(p) == (p == e0.path@ || snapshot_paths(
            entries.skip(1),
        ).contains(p))) by {
            assert(snapshot_paths(entries)[0] == e0.path@);
            if snapshot_paths(entries).contains(p) {
                let k = choose|k: int|
                    0 <= k < entries.len() && snapshot_paths(entries)[k] == p;
                if k > 0 {
                    assert(snapshot_paths(entries.skip(1))[k - 1] == entries.skip(1)[k
                        - 1].path@);
                    assert(entries.skip(1)[k - 1] == entries[k]);
                }
            }
            if snapshot_paths(entries.skip(1)).contains(p) {
                let k = choose|k: int|
                    0 <= k < entries.skip(1).len() && snapshot_paths(entries.skip(1))[k] == p;
                assert(entries.skip(1)[k] == entries[k + 1]);
                assert(snapshot_paths(entries)[k + 1] == p);
            }
        }
        if p == e0.path@ {
            if snapshot_paths(entries.skip(1)).contains(p) {
                let k = choose|k: int|
                    0 <= k < entries.skip(1).len() && snapshot_paths(entries.skip(1))[k] == p;
                assert(snapshot_paths(entries)[k + 1] == p && snapshot_paths(entries)[0] == p);
                assert(false);
            }
            assert(apply_restores(reg, entries)[p] == reg1[p]);
            assert(snapshot_entry_at(entries, p) == EntryModel {
                name: e0.name@,
                url: e0.url@,
                commit: e0.commit@,
            }) by {
                assert(entries[0].path@ == p);
                assert forall|w: int|
                    0 <= w < entries.len() && #[trigger] entries[w].path@ == p implies entries[w]
                        == entries[0] by {
                    if w != 0 {
                        assert(snapshot_paths(entries)[w] == entries[w].path@);
                        assert(snapshot_paths(entries)[0] == entries[0].path@);
                        assert(snapshot_paths(entries)[w] == p && snapshot_paths(entries)[0]
                            == p);
                    }
                }
            }
        } else {
            if snapshot_paths(entries).contains(p) {
                assert(snapshot_paths(entries.skip(1)).contains(p));
                assert(snapshot_entry_at(entries, p) == snapshot_entry_at(
                    entries.skip(1),
                    p,
                )) by {
                    let k0 = choose|k0: int|
                        0 <= k0 < entries.skip(1).len() && snapshot_paths(entries.skip(1))[k0]
                            == p;
                    assert(snapshot_paths(entries.skip(1))[k0] == entries.skip(1)[k0].path@);
                    assert(entries.skip(1)[k0].path@ == p);
                    assert(entries[k0 + 1].path@ == p);
                    let t = entries[k0 + 1];
                    assert forall|w: int|
                        0 <= w < entries.len() && #[trigger] entries[w].path@ == p implies
                        entries[w] == t by {
                        if w != k0 + 1 {
                            assert(snapshot_paths(entries)[w] == entries[w].path@);
                            assert(snapshot_paths(entries)[k0 + 1] == entries[k0 + 1].path@);
                            assert(snapshot_paths(entries)[w] == p && snapshot_paths(entries)[k0
                                + 1] == p);
                        }
                    }
                    assert forall|v: int|
                        0 <= v < entries.skip(1).len() && #[trigger] entries.skip(1)[v].path@
                            == p implies entries.skip(1)[v] == t by {
                        assert(entries.skip(1)[v] == entries[v + 1]);
                    }
                }
            }
        }
    }
}

/// The snapshot entry recorded for path `p`.
pub open spec fn snapshot_entry_at(
    entries: Seq<crate::state::SubmoduleState>,
    p: Seq<char>,
) -> EntryModel {
    let e = entries[choose|i: int| 0 <= i < entries.len() && #[trigger] entries[i].path@ == p];
    EntryModel { name: e.name@, url: e.url@, commit: e.commit@ }
}

/// Rollback completeness: whatever state a failed run left behind,
/// removing every newly created entry and then restoring every
/// snapshot entry yields exactly the pre-run state, provided the run
/// created no entry outside its completed-additions list.
pub proof fn lemma_rollback_completeness(
    reg_mid: RegModel,
    completed: Seq<Seq<char>>,
    entries: Seq<crate::state::SubmoduleState>,
)
    requires
        seq_distinct(snapshot_paths(entries)),
        forall|p: Seq<char>|
            #[trigger] reg_mid.dom().contains(p) ==> snapshot_paths(entries).contains(p)
                || completed.contains(p),
        forall|p: Seq<char>|
            completed.contains(p) ==> !snapshot_paths(entries).contains(p),
    ensures
        apply_restores(remove_all(reg_mid, completed), entries) == snapshot_map(entries),
{
    let cleaned = remove_all(reg_mid, completed);
    assert(apply_restores(cleaned, entries) =~= snapshot_map(entries)) by {
        assert forall|p: Seq<char>| true implies #[trigger] apply_restores(
            cleaned,
            entries,
        ).dom().contains(p) == snapshot_map(entries).dom().contains(p) && (snapshot_map(
            entries,
        ).dom().contains(p) ==> apply_restores(cleaned, entries)[p] == snapshot_map(entries)[p])
            by {
            lemma_remove_all_facts(reg_mid, completed, p);
            lemma_apply_restores_facts(cleaned, entries, p);
            lemma_apply_restores_facts(Map::empty(), entries, p);
            if snapshot_paths(entries).contains(p) {
            } else {
                if cleaned.dom().contains(p) {
                    assert(reg_mid.dom().contains(p) && !completed.contains(p));
                    assert(snapshot_paths(entries).contains(p) || completed.contains(p));
                    assert(false);
                }
            }
        }
    }
}

} // verus!
