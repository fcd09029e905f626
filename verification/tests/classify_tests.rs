use vcs2git::classifier::classify_submodules;
use vcs2git::vcs::{Repo, RepoType};

fn repo(url: &str) -> Repo {
    Repo { kind: RepoType::Git, url: url.to_string(), version: "main".to_string() }
}

#[test]
fn test_repository_type_error_message() {
    let unknown_type = RepoType::Unknown("mercurial".to_string());

    match &unknown_type {
        RepoType::Git => panic!("Should be unknown type"),
        RepoType::Unknown(ty) => {
            let error_msg = format!(
                "Repository type '{ty}' is not supported. Only 'git' repositories are supported."
            );
            assert_eq!(
                error_msg,
                "Repository type 'mercurial' is not supported. Only 'git' repositories are supported."
            );
        }
    }
}

#[test]
fn test_classify_submodules_all_new() {
    let selected = vec![
        ("prefix/repo1".to_string(), repo("https://github.com/test/repo1")),
        ("prefix/repo2".to_string(), repo("https://github.com/test/repo2")),
    ];
    let submod_names: Vec<(String, String)> = Vec::new();

    let c = classify_submodules(&selected, &submod_names, "prefix");

    assert_eq!(c.new.len(), 2);
    assert_eq!(c.updated.len(), 0);
    assert_eq!(c.removed.len(), 0);
}

#[test]
fn test_classify_submodules_all_existing() {
    let selected = vec![("prefix/repo1".to_string(), repo("https://github.com/test/repo1"))];
    let submod_names = vec![("prefix/repo1".to_string(), "prefix/repo1".to_string())];

    let c = classify_submodules(&selected, &submod_names, "prefix");

    assert_eq!(c.new.len(), 0);
    assert_eq!(c.updated.len(), 1);
    assert_eq!(c.removed.len(), 0);
}

#[test]
fn test_classify_submodules_with_removed() {
    let selected: Vec<(String, Repo)> = Vec::new();
    let submod_names = vec![
        ("prefix/repo1".to_string(), "prefix/repo1".to_string()),
        ("prefix/repo2".to_string(), "prefix/repo2".to_string()),
        ("other/repo3".to_string(), "other/repo3".to_string()),
    ];

    let c = classify_submodules(&selected, &submod_names, "prefix");

    assert_eq!(c.new.len(), 0);
    assert_eq!(c.updated.len(), 0);
    assert_eq!(c.removed.len(), 2); // Only repos under prefix
}

#[test]
fn test_classify_submodules_mixed() {
    let selected = vec![
        ("prefix/repo1".to_string(), repo("https://github.com/test/repo1")),
        ("prefix/repo2".to_string(), repo("https://github.com/test/repo2")),
    ];
    let submod_names = vec![
        ("prefix/repo1".to_string(), "prefix/repo1".to_string()),
        ("prefix/repo3".to_string(), "prefix/repo3".to_string()),
    ];

    let c = classify_submodules(&selected, &submod_names, "prefix");

    assert_eq!(c.new.len(), 1); // repo2 is new
    assert_eq!(c.updated.len(), 1); // repo1 exists
    assert_eq!(c.removed.len(), 1); // repo3 should be removed
}

#[test]
fn test_classify_outputs_are_path_sorted() {
    let selected = vec![
        ("prefix/zeta".to_string(), repo("https://example.com/z")),
        ("prefix/alpha".to_string(), repo("https://example.com/a")),
        ("prefix/mid".to_string(), repo("https://example.com/m")),
    ];
    let submod_names: Vec<(String, String)> = Vec::new();

    let c = classify_submodules(&selected, &submod_names, "prefix");
    let paths: Vec<&str> = c.new.iter().map(|(p, _)| p.as_str()).collect();
    assert_eq!(paths, vec!["prefix/alpha", "prefix/mid", "prefix/zeta"]);
}

// The partition property on concrete values: the three classes are
// pairwise disjoint and together cover the desired paths plus the
// registered paths under the prefix.
#[test]
fn test_classification_partitions_the_paths() {
    let selected = vec![
        ("prefix/a".to_string(), repo("https://example.com/a")),
        ("prefix/b".to_string(), repo("https://example.com/b")),
    ];
    let submod_names = vec![
        ("prefix/b".to_string(), "prefix/b".to_string()),
        ("prefix/c".to_string(), "prefix/c".to_string()),
        ("elsewhere/d".to_string(), "elsewhere/d".to_string()),
    ];

    let c = classify_submodules(&selected, &submod_names, "prefix");

    let new: Vec<&str> = c.new.iter().map(|(p, _)| p.as_str()).collect();
    let updated: Vec<&str> = c.updated.iter().map(|(p, _, _)| p.as_str()).collect();
    let removed: Vec<&str> = c.removed.iter().map(|(p, _)| p.as_str()).collect();

    assert_eq!(new, vec!["prefix/a"]);
    assert_eq!(updated, vec!["prefix/b"]);
    assert_eq!(removed, vec!["prefix/c"]);

    // pairwise disjoint, and "elsewhere/d" is never touched
    for p in &new {
        assert!(!updated.contains(p) && !removed.contains(p));
    }
    for p in &updated {
        assert!(!removed.contains(p));
    }
    assert!(!removed.contains(&"elsewhere/d"));
}

// Idempotence on concrete values: after a successful synchronizing
// run the registered set equals the desired set, and a second
// classification puts everything in the updated class.
#[test]
fn test_second_run_classifies_everything_as_updated() {
    let selected = vec![
        ("prefix/a".to_string(), repo("https://example.com/a")),
        ("prefix/b".to_string(), repo("https://example.com/b")),
    ];
    let registered_before = vec![
        ("prefix/b".to_string(), "prefix/b".to_string()),
        ("prefix/c".to_string(), "prefix/c".to_string()),
    ];

    let first = classify_submodules(&selected, &registered_before, "prefix");
    assert_eq!(first.new.len(), 1);
    assert_eq!(first.removed.len(), 1);

    // what a successful run with removal enabled leaves registered
    let mut registered_after: Vec<(String, String)> = Vec::new();
    for (p, n) in &registered_before {
        if !first.removed.iter().any(|(rp, _)| rp == p) {
            registered_after.push((p.clone(), n.clone()));
        }
    }
    for (p, _) in &first.new {
        registered_after.push((p.clone(), p.clone()));
    }

    let second = classify_submodules(&selected, &registered_after, "prefix");
    assert_eq!(second.new.len(), 0);
    assert_eq!(second.removed.len(), 0);
    assert_eq!(second.updated.len(), selected.len());
}
