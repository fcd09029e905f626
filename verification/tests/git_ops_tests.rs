use vcs2git::errors::EngineError;
use vcs2git::git_ops::{
    checkout_to_version_first, checkout_to_version_second, gitmodules_clean_content, head_update,
    remove_submodule_plan, remove_submodule_rollback_plan, update_gitmodules_content,
    GitmodulesUpdate, HeadAction, RemoveStep, ResolveOutcome, ResolveStep,
};

fn two_sections() -> String {
    "[submodule \"a\"]\n\tpath = a\n\turl = u1\n[submodule \"b\"]\n\tpath = b\n\turl = u2\n"
        .to_string()
}

#[test]
fn test_gitmodules_drops_one_section() {
    let content = two_sections();
    let r = update_gitmodules_content(Some(&content), "a", "a", true).unwrap();
    assert_eq!(
        r,
        GitmodulesUpdate::WriteFile("[submodule \"b\"]\n\tpath = b\n\turl = u2".to_string())
    );
}

#[test]
fn test_gitmodules_drops_last_section_and_deletes_file() {
    let content = "[submodule \"a\"]\n\tpath = a\n\turl = u1\n".to_string();
    let r = update_gitmodules_content(Some(&content), "a", "a", true).unwrap();
    assert_eq!(r, GitmodulesUpdate::DeleteFile);
}

#[test]
fn test_gitmodules_section_found_by_path_header() {
    let content = two_sections();
    // the entry is registered under a name that is not its path
    let r = update_gitmodules_content(Some(&content), "some-name", "b", true).unwrap();
    assert_eq!(
        r,
        GitmodulesUpdate::WriteFile("[submodule \"a\"]\n\tpath = a\n\turl = u1".to_string())
    );
}

#[test]
fn test_gitmodules_missing_section_with_must_exist() {
    let content = two_sections();
    let r = update_gitmodules_content(Some(&content), "zzz", "zzz", true);
    assert!(matches!(r, Err(EngineError::VcsOperation(_))));
}

#[test]
fn test_gitmodules_missing_section_tolerated() {
    let content = two_sections();
    let r = update_gitmodules_content(Some(&content), "zzz", "zzz", false).unwrap();
    assert!(matches!(r, GitmodulesUpdate::WriteFile(w) if w == content.trim()));
}

#[test]
fn test_gitmodules_missing_file() {
    assert!(update_gitmodules_content(None, "a", "a", true).is_err());
    assert_eq!(
        update_gitmodules_content(None, "a", "a", false).unwrap(),
        GitmodulesUpdate::Unchanged
    );
}

#[test]
fn test_gitmodules_path_scrub() {
    let content = two_sections();
    let r = gitmodules_clean_content(Some(&content), "a");
    assert_eq!(
        r,
        GitmodulesUpdate::WriteFile("[submodule \"b\"]\n\tpath = b\n\turl = u2".to_string())
    );
    let r2 = gitmodules_clean_content(None, "a");
    assert_eq!(r2, GitmodulesUpdate::Unchanged);
}

#[test]
fn test_remove_plan_order() {
    let steps = remove_submodule_plan("the-name", "the/path");
    assert_eq!(steps.len(), 9);
    assert_eq!(steps[0], RemoveStep::DropConfigKey("submodule.the-name.url".to_string()));
    assert_eq!(steps[1], RemoveStep::DropConfigKey("submodule.the-name.update".to_string()));
    assert_eq!(steps[2], RemoveStep::DropConfigKey("submodule.the-name.branch".to_string()));
    assert_eq!(
        steps[3],
        RemoveStep::DropConfigKey("submodule.the-name.fetchRecurseSubmodules".to_string())
    );
    assert_eq!(steps[4], RemoveStep::DropConfigKey("submodule.the-name.ignore".to_string()));
    assert_eq!(steps[5], RemoveStep::DropIndexEntry("the/path".to_string()));
    assert_eq!(
        steps[6],
        RemoveStep::EditGitmodules {
            name: "the-name".to_string(),
            path: "the/path".to_string(),
            must_exist: true,
        }
    );
    assert_eq!(steps[7], RemoveStep::DropModulesDir("the-name".to_string()));
    assert_eq!(steps[8], RemoveStep::DropWorkdir("the/path".to_string()));
}

#[test]
fn test_rollback_remove_plan_without_name() {
    let steps = remove_submodule_rollback_plan(&None, "p/x");
    assert_eq!(steps.len(), 4);
    assert_eq!(steps[0], RemoveStep::DropIndexEntry("p/x".to_string()));
    assert!(matches!(
        &steps[1],
        RemoveStep::EditGitmodules { must_exist: false, .. }
    ));
    assert_eq!(steps[2], RemoveStep::DropModulesDir("p/x".to_string()));
    assert_eq!(steps[3], RemoveStep::DropWorkdir("p/x".to_string()));
}

#[test]
fn test_rollback_remove_plan_with_name() {
    let steps = remove_submodule_rollback_plan(&Some("n".to_string()), "p/x");
    assert_eq!(steps.len(), 10);
    assert_eq!(steps[0], RemoveStep::DropConfigKey("submodule.n.url".to_string()));
    assert_eq!(steps[7], RemoveStep::DropModulesDir("n".to_string()));
    assert_eq!(steps[8], RemoveStep::DropModulesDir("p/x".to_string()));
    assert_eq!(steps[9], RemoveStep::DropWorkdir("p/x".to_string()));
}

// Fallback resolution: a version that is not a local reference is
// retried as `origin/<version>`; failing both ways is a resolution
// error; any other failure class propagates unchanged.
#[test]
fn test_resolution_fallback() {
    let first = checkout_to_version_first("main", &ResolveOutcome::RefNotFound);
    assert_eq!(first, ResolveStep::RetrySpec("origin/main".to_string()));

    let second = checkout_to_version_second(
        "main",
        &ResolveOutcome::Resolved {
            reference: Some("refs/remotes/origin/main".to_string()),
            oid: "abc123".to_string(),
        },
    );
    assert_eq!(
        second,
        ResolveStep::UseRevision {
            reference: Some("refs/remotes/origin/main".to_string()),
            oid: "abc123".to_string(),
        }
    );

    let failed = checkout_to_version_second("main", &ResolveOutcome::RefNotFound);
    assert_eq!(failed, ResolveStep::Fail(EngineError::Resolution("main".to_string())));

    let other = checkout_to_version_first(
        "main",
        &ResolveOutcome::Failed("network unreachable".to_string()),
    );
    assert_eq!(
        other,
        ResolveStep::Fail(EngineError::VcsOperation("network unreachable".to_string()))
    );
}

#[test]
fn test_resolution_direct_hit_uses_revision() {
    let d = checkout_to_version_first(
        "abc123",
        &ResolveOutcome::Resolved { reference: None, oid: "abc123".to_string() },
    );
    assert_eq!(d, ResolveStep::UseRevision { reference: None, oid: "abc123".to_string() });
}

#[test]
fn test_head_update_attaches_or_detaches() {
    assert_eq!(
        head_update(&Some("refs/heads/main".to_string()), "abc"),
        HeadAction::Attach("refs/heads/main".to_string())
    );
    assert_eq!(head_update(&None, "abc"), HeadAction::Detach("abc".to_string()));
}
