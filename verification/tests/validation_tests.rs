use vcs2git::errors::EngineError;
use vcs2git::validation::{validate_main_repo_clean, validate_repositories, validate_submodule_states};
use vcs2git::vcs::{Repo, RepoType, StatusObservation, SubmoduleObservation};

fn repo(url: &str) -> Repo {
    Repo { kind: RepoType::Git, url: url.to_string(), version: "main".to_string() }
}

#[test]
fn test_validate_repositories() {
    let mut repos = Vec::new();

    // Valid repository
    repos.push(("src/repo1".to_string(), repo("https://github.com/test/repo1")));

    // Test with valid repositories
    assert!(validate_repositories(&repos, "src").is_ok());

    // Test with absolute path
    repos.push(("/absolute/path".to_string(), repo("https://github.com/test/repo2")));
    assert!(validate_repositories(&repos, "src").is_err());
    repos.pop();

    // Test with parent directory component
    repos.push(("../parent".to_string(), repo("https://github.com/test/repo3")));
    assert!(validate_repositories(&repos, "src").is_err());
    repos.pop();

    // Test with invalid URL scheme
    repos.push(("src/repo2".to_string(), repo("ftp://github.com/test/repo4")));
    assert!(validate_repositories(&repos, "src").is_err());
}

#[test]
fn test_validate_submodule_states_with_clean_repo() {
    // Should pass with no submodules
    assert!(validate_submodule_states(&Vec::new()).is_ok());
}

fn clean_observation(path: &str, commit: &str) -> SubmoduleObservation {
    SubmoduleObservation {
        name: Some(path.to_string()),
        path: path.to_string(),
        url: Some(format!("https://example.com/{path}")),
        workdir_commit: Some(commit.to_string()),
        openable: true,
        has_uncommitted_changes: false,
        head_commit: Some(commit.to_string()),
    }
}

#[test]
fn test_validate_submodule_states_accepts_clean_entries() {
    let subs = vec![clean_observation("src/a", "c1"), clean_observation("src/b", "c2")];
    assert!(validate_submodule_states(&subs).is_ok());
}

// Drift detection: an entry whose head differs from its recorded
// commit is a precondition failure naming both commits.
#[test]
fn test_validate_submodule_states_rejects_drift() {
    let mut drifted = clean_observation("src/a", "c1");
    drifted.head_commit = Some("c-other".to_string());
    match validate_submodule_states(&vec![drifted]) {
        Err(EngineError::Precondition(msg)) => {
            assert_eq!(
                msg,
                "Submodule at src/a is checked out to a different commit than expected. \
                 Expected: c1, Actual: c-other"
            );
        }
        other => panic!("expected a precondition error, got {other:?}"),
    }
}

#[test]
fn test_validate_submodule_states_rejects_uninitialized() {
    let mut sub = clean_observation("src/a", "c1");
    sub.workdir_commit = None;
    let r = validate_submodule_states(&vec![sub]);
    assert!(matches!(r, Err(EngineError::Precondition(_))));
}

#[test]
fn test_validate_submodule_states_rejects_dirty() {
    let mut sub = clean_observation("src/a", "c1");
    sub.has_uncommitted_changes = true;
    let r = validate_submodule_states(&vec![sub]);
    assert!(matches!(r, Err(EngineError::Precondition(_))));
}

#[test]
fn test_validate_main_repo_clean_rejects_staged_changes() {
    let clean = StatusObservation { index_new: false, index_modified: false, index_deleted: false };
    let staged = StatusObservation { index_new: true, index_modified: false, index_deleted: false };
    assert!(validate_main_repo_clean(&vec![clean]).is_ok());
    let r = validate_main_repo_clean(&vec![clean, staged]);
    assert!(matches!(r, Err(EngineError::Precondition(_))));
}

// The URL check goes through the real URL parser: a well-formed URL
// with an allowed scheme passes, while a malformed one and a refused
// scheme fail.
#[test]
fn test_validate_repositories_url_schemes() {
    for good in ["git://h/x", "ssh://h/x", "https://h/x", "http://h/x", "file:///x"] {
        let repos = vec![("src/x".to_string(), repo(good))];
        assert!(validate_repositories(&repos, "src").is_ok(), "scheme should pass: {good}");
    }
    for bad in ["ftp://h/x", "not a url at all", ""] {
        let repos = vec![("src/x".to_string(), repo(bad))];
        assert!(validate_repositories(&repos, "src").is_err(), "should fail: {bad}");
    }
}

#[test]
fn test_validate_repositories_duplicate_path() {
    let repos = vec![
        ("src/x".to_string(), repo("https://h/x")),
        ("src/x".to_string(), repo("https://h/y")),
    ];
    let r = validate_repositories(&repos, "src");
    assert!(matches!(r, Err(EngineError::Configuration(_))));
}

#[test]
fn test_validate_repositories_absolute_prefix() {
    let repos = vec![("src/x".to_string(), repo("https://h/x"))];
    assert!(validate_repositories(&repos, "/abs").is_err());
}
