use vcs2git::errors::EngineError;
use vcs2git::state::SubmoduleStateTracker;
use vcs2git::vcs::SubmoduleObservation;

#[test]
fn test_submodule_state_tracker() {
    let tracker = SubmoduleStateTracker { original_states: Vec::new() };

    assert!(tracker.original_states.is_empty());
}

fn observation(path: &str, commit: &str) -> SubmoduleObservation {
    SubmoduleObservation {
        name: Some(path.to_string()),
        path: path.to_string(),
        url: Some(format!("https://example.com/{path}")),
        workdir_commit: Some(commit.to_string()),
        openable: true,
        has_uncommitted_changes: false,
        head_commit: Some(commit.to_string()),
    }
}

#[test]
fn test_tracker_captures_every_entry() {
    let subs = vec![observation("src/a", "c1"), observation("src/b", "c2")];
    let tracker = SubmoduleStateTracker::new(&subs).unwrap();
    assert_eq!(tracker.original_states.len(), 2);
    assert_eq!(tracker.original_states[0].path, "src/a");
    assert_eq!(tracker.original_states[0].commit, "c1");
    assert_eq!(tracker.original_states[1].name, "src/b");
}

#[test]
fn test_tracker_refuses_entry_without_url() {
    let mut sub = observation("src/a", "c1");
    sub.url = None;
    let r = SubmoduleStateTracker::new(&vec![sub]);
    assert!(matches!(r, Err(EngineError::Snapshot(_))));
}

#[test]
fn test_tracker_refuses_entry_without_commit() {
    let mut sub = observation("src/a", "c1");
    sub.workdir_commit = None;
    let r = SubmoduleStateTracker::new(&vec![sub]);
    assert!(matches!(r, Err(EngineError::Snapshot(_))));
}

#[test]
fn test_rollback_plan_covers_every_snapshot_entry() {
    let subs = vec![observation("src/a", "c1"), observation("src/b", "c2")];
    let tracker = SubmoduleStateTracker::new(&subs).unwrap();
    let steps = tracker.rollback();
    assert_eq!(steps.len(), 2);
    assert_eq!(steps[0].path, "src/a");
    assert_eq!(steps[0].commit, "c1");
    assert_eq!(steps[1].path, "src/b");
    assert_eq!(steps[1].commit, "c2");
}

#[test]
fn test_rollback_outcome_aggregates_failures() {
    let subs = vec![observation("src/a", "c1"), observation("src/b", "c2")];
    let tracker = SubmoduleStateTracker::new(&subs).unwrap();

    assert!(tracker.rollback_outcome(&vec![true, true]).is_ok());

    match tracker.rollback_outcome(&vec![true, false]) {
        Err(EngineError::Rollback(failed)) => {
            assert_eq!(failed, vec!["src/b".to_string()]);
        }
        other => panic!("expected a rollback error, got {other:?}"),
    }
}
