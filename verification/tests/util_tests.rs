use vcs2git::errors::{EngineError, SelectionIssue};
use vcs2git::selector::select_repos;
use vcs2git::text::{path_has_parent_component, path_starts_with, sort_paths, str_le};
use vcs2git::utils::{check_disjoint, check_subset};

fn strings(list: &[&str]) -> Vec<String> {
    list.iter().map(|s| s.to_string()).collect()
}

#[test]
fn test_check_disjoint_logic() {
    let set1 = strings(&["1", "2", "3"]);
    let set2 = strings(&["3", "4", "5"]);
    let set3 = strings(&["6", "7", "8"]);

    // Should fail because sets are not disjoint (have 3 in common)
    assert!(check_disjoint(&set1, &set2).is_err());

    // Should succeed because sets are disjoint
    assert!(check_disjoint(&set1, &set3).is_ok());
}

#[test]
fn test_check_subset() {
    let all = strings(&["a", "b", "c", "d"]);
    let subset = strings(&["a", "c"]);
    let not_subset = strings(&["a", "e"]);

    // Should succeed because subset is contained in all
    assert!(check_subset(&all, &subset).is_ok());

    // Should fail because not_subset contains "e" which is not in all
    assert!(check_subset(&all, &not_subset).is_err());
}

// Every unknown entry is reported, not only the first.
#[test]
fn test_check_subset_reports_every_missing_entry() {
    let all = strings(&["a"]);
    let missing = strings(&["x", "a", "y"]);
    match check_subset(&all, &missing) {
        Err(EngineError::Selection(SelectionIssue::NotFound(names))) => {
            assert_eq!(names, strings(&["x", "y"]));
        }
        other => panic!("expected a not-found selection error, got {other:?}"),
    }
}

// Selection validation: an unknown `only` entry is a selection error;
// `only` and `ignore` together are refused as contradictory.
#[test]
fn test_selection_validation() {
    let declared = strings(&["a", "b"]);

    let unknown = select_repos(&declared, &Some(strings(&["x"])), &None);
    assert!(matches!(unknown, Err(EngineError::Selection(SelectionIssue::NotFound(_)))));

    let both = select_repos(&declared, &Some(strings(&["a"])), &Some(strings(&["a"])));
    assert!(matches!(both, Err(EngineError::Configuration(_))));
}

#[test]
fn test_select_repos_only_and_ignore() {
    let declared = strings(&["a", "b", "c"]);

    let all = select_repos(&declared, &None, &None).unwrap();
    assert_eq!(all, strings(&["a", "b", "c"]));

    let ignored = select_repos(&declared, &None, &Some(strings(&["b"]))).unwrap();
    assert_eq!(ignored, strings(&["a", "c"]));

    let only = select_repos(&declared, &Some(strings(&["c", "a"])), &None).unwrap();
    assert_eq!(only, strings(&["c", "a"]));
}

#[test]
fn test_sort_paths_orders_lexicographically() {
    let v = strings(&["b/x", "a", "b", "a/z"]);
    let sorted = sort_paths(&v);
    assert_eq!(sorted, strings(&["a", "a/z", "b", "b/x"]));
}

#[test]
fn test_str_le_on_examples() {
    assert!(str_le("a", "b"));
    assert!(str_le("a", "a"));
    assert!(str_le("a", "ab"));
    assert!(!str_le("b", "ab"));
}

#[test]
fn test_path_starts_with_components() {
    assert!(path_starts_with("prefix/x", "prefix"));
    assert!(path_starts_with("prefix", "prefix"));
    assert!(!path_starts_with("prefixx/y", "prefix"));
    assert!(!path_starts_with("pre", "prefix"));
}

#[test]
fn test_path_has_parent_component() {
    assert!(path_has_parent_component("../x"));
    assert!(path_has_parent_component("a/../b"));
    assert!(path_has_parent_component("a/.."));
    assert!(!path_has_parent_component("a..b"));
    assert!(!path_has_parent_component("a/...b"));
    assert!(!path_has_parent_component("plain/path"));
}
