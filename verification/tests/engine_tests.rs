use vcs2git::classifier::classify_submodules;
use vcs2git::cli::Opts;
use vcs2git::engine::{
    check_repo_types, completed_after_failure, plan_operations, prepare_run, run_outcome,
    should_delete_gitmodules, should_execute, PlannedOp, RunFlags,
};
use vcs2git::errors::EngineError;
use vcs2git::state::SubmoduleStateTracker;
use vcs2git::vcs::{Repo, RepoType, ReposFile, RunOutcome, SubmoduleObservation};

fn repo(url: &str) -> Repo {
    Repo { kind: RepoType::Git, url: url.to_string(), version: "main".to_string() }
}

fn flags() -> RunFlags {
    RunFlags { no_checkout: false, skip_existing: false, sync_selection: false, dry_run: false }
}

fn opts(prefix: &str) -> Opts {
    Opts {
        repo_file: "test.repos".to_string(),
        prefix: prefix.to_string(),
        only: None,
        ignore: None,
        no_checkout: false,
        skip_existing: false,
        sync_selection: false,
        dry_run: false,
    }
}

fn observation(path: &str, commit: &str) -> SubmoduleObservation {
    SubmoduleObservation {
        name: Some(path.to_string()),
        path: path.to_string(),
        url: Some(format!("https://example.com/{path}")),
        workdir_commit: Some(commit.to_string()),
        openable: true,
        has_uncommitted_changes: false,
        head_commit: Some(commit.to_string()),
    }
}

#[test]
fn test_plan_keeps_add_update_remove_order() {
    let selected = vec![
        ("p/a".to_string(), repo("https://h/a")),
        ("p/b".to_string(), repo("https://h/b")),
    ];
    let registered = vec![
        ("p/b".to_string(), "p/b".to_string()),
        ("p/c".to_string(), "p/c".to_string()),
    ];
    let c = classify_submodules(&selected, &registered, "p");
    let f = RunFlags { sync_selection: true, ..flags() };
    let plan = plan_operations(&c, &f);

    assert_eq!(plan.ops.len(), 3);
    assert!(matches!(&plan.ops[0], PlannedOp::Add { path, .. } if path == "p/a"));
    assert!(matches!(&plan.ops[1], PlannedOp::Update { path, .. } if path == "p/b"));
    assert!(matches!(&plan.ops[2], PlannedOp::Remove { path, .. } if path == "p/c"));
}

#[test]
fn test_plan_without_sync_only_reports_extras() {
    let selected: Vec<(String, Repo)> = Vec::new();
    let registered = vec![("p/c".to_string(), "p/c".to_string())];
    let c = classify_submodules(&selected, &registered, "p");
    let plan = plan_operations(&c, &flags());
    assert_eq!(plan.ops.len(), 1);
    assert!(matches!(&plan.ops[0], PlannedOp::ReportExtra { path } if path == "p/c"));
}

#[test]
fn test_plan_skip_existing_reports_skips() {
    let selected = vec![("p/b".to_string(), repo("https://h/b"))];
    let registered = vec![("p/b".to_string(), "p/b".to_string())];
    let c = classify_submodules(&selected, &registered, "p");
    let f = RunFlags { skip_existing: true, ..flags() };
    let plan = plan_operations(&c, &f);
    assert_eq!(plan.ops.len(), 1);
    assert!(matches!(&plan.ops[0], PlannedOp::SkipExisting { path } if path == "p/b"));
}

// Dry-run purity on concrete values: nothing in the plan is ever
// executed and the outcome is the dry-run one, even when the plan
// holds an entry that would fail a real run.
#[test]
fn test_dry_run_executes_nothing() {
    let selected = vec![
        ("p/a".to_string(), repo("https://unreachable.invalid/a")),
        ("p/b".to_string(), repo("https://h/b")),
    ];
    let registered = vec![
        ("p/b".to_string(), "p/b".to_string()),
        ("p/c".to_string(), "p/c".to_string()),
    ];
    let c = classify_submodules(&selected, &registered, "p");
    let f = RunFlags { sync_selection: true, dry_run: true, ..flags() };
    let plan = plan_operations(&c, &f);

    assert!(plan.dry_run);
    for op in &plan.ops {
        assert!(!should_execute(&plan, op));
    }
    assert_eq!(run_outcome(plan.dry_run, false), RunOutcome::AppliedDryRun);
}

#[test]
fn test_run_outcome_values() {
    assert_eq!(run_outcome(true, false), RunOutcome::AppliedDryRun);
    assert_eq!(run_outcome(false, false), RunOutcome::AppliedAndCommitted);
    assert_eq!(run_outcome(false, true), RunOutcome::RolledBack);
}

// The completed-additions list covers every addition up to and
// including the failing one, so rollback can undo a partially
// created entry.
#[test]
fn test_completed_additions_include_the_failing_one() {
    let selected = vec![
        ("p/a".to_string(), repo("https://h/a")),
        ("p/b".to_string(), repo("https://h/b")),
        ("p/c".to_string(), repo("https://h/c")),
    ];
    let registered: Vec<(String, String)> = Vec::new();
    let c = classify_submodules(&selected, &registered, "p");
    let plan = plan_operations(&c, &flags());

    let completed = completed_after_failure(&plan, 1);
    assert_eq!(completed, vec!["p/a".to_string(), "p/b".to_string()]);

    let all = completed_after_failure(&plan, 99);
    assert_eq!(all.len(), 3);
}

#[test]
fn test_should_delete_gitmodules_only_when_empty() {
    assert!(should_delete_gitmodules(true, 0));
    assert!(!should_delete_gitmodules(true, 1));
    assert!(!should_delete_gitmodules(false, 0));
}

#[test]
fn test_check_repo_types_rejects_unknown() {
    let selected = vec![(
        "p/a".to_string(),
        Repo {
            kind: RepoType::Unknown("hg".to_string()),
            url: "https://h/a".to_string(),
            version: "main".to_string(),
        },
    )];
    match check_repo_types(&selected) {
        Err(EngineError::Configuration(msg)) => {
            assert_eq!(
                msg,
                "Repository type 'hg' is not supported. Only 'git' repositories are supported."
            );
        }
        other => panic!("expected a configuration error, got {other:?}"),
    }
}

#[test]
fn test_prepare_run_plans_an_add() {
    let repos = ReposFile {
        repositories: vec![("sub".to_string(), repo("https://example.com/sub"))],
    };
    let pr = prepare_run(&repos, &opts("src"), &Vec::new(), &Vec::new()).unwrap();
    assert_eq!(pr.plan.ops.len(), 1);
    assert!(matches!(&pr.plan.ops[0], PlannedOp::Add { path, .. } if path == "src/sub"));
    assert!(pr.tracker.original_states.is_empty());
}

// Drift detection: a registered entry checked out away from its
// recorded commit stops the run with a precondition error before
// anything is classified or planned.
#[test]
fn test_prepare_run_rejects_drifted_submodule() {
    let repos = ReposFile {
        repositories: vec![("sub".to_string(), repo("https://example.com/sub"))],
    };
    let mut drifted = observation("src/other", "c1");
    drifted.head_commit = Some("c2".to_string());
    let r = prepare_run(&repos, &opts("src"), &vec![drifted], &Vec::new());
    assert!(matches!(r, Err(EngineError::Precondition(_))));
}

#[test]
fn test_prepare_run_rejects_unknown_only_filter() {
    let repos = ReposFile {
        repositories: vec![("sub".to_string(), repo("https://example.com/sub"))],
    };
    let mut o = opts("src");
    o.only = Some(vec!["nope".to_string()]);
    let r = prepare_run(&repos, &o, &Vec::new(), &Vec::new());
    assert!(matches!(r, Err(EngineError::Selection(_))));
}

#[test]
fn test_prepare_run_rejects_unsupported_kind() {
    let repos = ReposFile {
        repositories: vec![(
            "sub".to_string(),
            Repo {
                kind: RepoType::Unknown("hg".to_string()),
                url: "https://example.com/sub".to_string(),
                version: "main".to_string(),
            },
        )],
    };
    let r = prepare_run(&repos, &opts("src"), &Vec::new(), &Vec::new());
    assert!(matches!(r, Err(EngineError::Configuration(_))));
}

// Rollback completeness on concrete values: valid additions followed
// by a failing one leave a completed-additions list covering every
// created entry; with nothing registered before the run, tearing
// those down and restoring an empty snapshot leaves nothing behind.
#[test]
fn test_failed_add_run_rolls_back_everything() {
    let selected = vec![
        ("src/test/repo1".to_string(), repo("https://example.com/repo1")),
        ("src/test/repo2".to_string(), repo("https://unreachable.invalid/repo2")),
    ];
    let registered: Vec<(String, String)> = Vec::new();
    let c = classify_submodules(&selected, &registered, "src");
    let plan = plan_operations(&c, &flags());

    // the second addition fails mid-run
    let completed = completed_after_failure(&plan, 1);
    assert_eq!(completed, vec!["src/test/repo1".to_string(), "src/test/repo2".to_string()]);

    // every created entry gets a lenient teardown
    for path in &completed {
        let steps = vcs2git::git_ops::remove_submodule_rollback_plan(&None, path);
        assert!(!steps.is_empty());
    }

    // nothing was registered before the run: the snapshot is empty,
    // nothing needs restoring, and the empty .gitmodules goes away
    let tracker = SubmoduleStateTracker::new(&Vec::new()).unwrap();
    assert!(tracker.rollback().is_empty());
    assert!(tracker.rollback_outcome(&Vec::new()).is_ok());
    assert!(should_delete_gitmodules(true, 0));
}
