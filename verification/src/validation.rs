use vstd::prelude::*;
use vstd::string::*;
use crate::classifier::spec_paths;
use crate::errors::EngineError;
use crate::text::{has_parent_component, path_has_parent_component, path_is_relative, seq_distinct, seq_is_absolute, str_eq_str};
use crate::utils::vec_contains_str;
use crate::vcs::{Repo, StatusObservation, SubmoduleObservation};

verus! {

/// The scheme of `s` when it parses as an absolute URL, and nothing
/// otherwise. The scheme of a given string is fixed, so this is a pure
/// name for what the URL parser returns.
pub uninterp spec fn url_scheme_of(s: Seq<char>) -> Option<Seq<char>>;

/// Relies on `url::Url::parse` and `url::Url::scheme`: whether the
/// string is a well-formed absolute URL, and if so its scheme, both
/// functions of the string alone.
#[verifier::external_body]
fn parse_url_scheme(s: &str) -> (r: Option<String>)
    ensures
        (r is Some) == (url_scheme_of(s@) is Some),
        r matches Some(sch) ==> url_scheme_of(s@) == Some(sch@),
{
    match url::Url::parse(s) {
        Ok(u) => Some(u.scheme().to_owned()),
        Err(_) => None,
    }
}

/// The transport schemes a declared repository URL may use.
pub open spec fn scheme_allowed(sch: Seq<char>) -> bool {
    ||| sch == "git"@
    ||| sch == "ssh"@
    ||| sch == "https"@
    ||| sch == "http"@
    ||| sch == "file"@
}

/// A well-formed URL with an allowed transport scheme.
pub open spec fn url_ok(u: Seq<char>) -> bool {
    match url_scheme_of(u) {
        Some(sch) => scheme_allowed(sch),
        None => false,
    }
}

/// Parses the URL and tests its scheme against the allow-list.
fn check_url(u: &str) -> (r: bool)
    ensures
        r == url_ok(u@),
{
    match parse_url_scheme(u) {
        Some(sch) => {
            let s = sch.as_str();
            str_eq_str(s, "git") || str_eq_str(s, "ssh") || str_eq_str(s, "https") || str_eq_str(
                s,
                "http",
            ) || str_eq_str(s, "file")
        },
        None => false,
    }
}

/// One declared entry is acceptable: well-formed URL with an allowed
/// scheme, and a relative path without parent-directory components.
pub open spec fn entry_ok(path: Seq<char>, repo: Repo) -> bool {
    &&& url_ok(repo.url@)
    &&& !seq_is_absolute(path)
    &&& !has_parent_component(path)
}

/// The whole declared list is acceptable: pairwise distinct paths and
/// every entry acceptable on its own.
pub open spec fn repos_valid(repos: Seq<(String, Repo)>) -> bool {
    &&& seq_distinct(spec_paths(repos))
    &&& forall|i: int|
        0 <= i < repos.len() ==> entry_ok((#[trigger] repos[i]).0@, repos[i].1)
}

/// Validates the declared repository list before any mutation: the
/// destination prefix must be relative, paths must be unique and safe,
/// and every URL must use an allowed scheme.
pub fn validate_repositories(repos: &Vec<(String, Repo)>, prefix: &str) -> (r: Result<
    (),
    EngineError,
>)
    ensures
        r is Ok <==> (!seq_is_absolute(prefix@) && repos_valid(repos@)),
        r matches Err(e) ==> e is Configuration,
{
    if !path_is_relative(prefix) {
        return Err(
            EngineError::Configuration(String::from_str("the prefix must be a relative path")),
        );
    }
    let mut seen: Vec<String> = Vec::new();
    let mut i: usize = 0;
    while i < repos.len()
        invariant
            i <= repos@.len(),
            crate::text::views_of(seen@) =~= spec_paths(repos@).subrange(0, i as int),
            forall|a: int, b: int|
                0 <= a < b < i ==> spec_paths(repos@)[a] != spec_paths(repos@)[b],
            forall|k: int|
                0 <= k < i ==> entry_ok((#[trigger] repos@[k]).0@, repos@[k].1),
        decreases repos@.len() - i,
    {
        proof {
            assert(spec_paths(repos@)[i as int] == repos@[i as int].0@);
        }
        if vec_contains_str(&seen, repos[i].0.as_str()) {
            proof {
                let w = choose|w: int|
                    0 <= w < seen@.len() && crate::text::views_of(seen@)[w] == repos@[i as int].0@;
                assert(spec_paths(repos@)[w] == spec_paths(repos@)[i as int]);
            }
            return Err(
                EngineError::Configuration(
                    duplicate_path_message(repos[i].0.as_str()),
                ),
            );
        }
        if !check_url(repos[i].1.url.as_str()) {
            return Err(
                EngineError::Configuration(
                    invalid_url_message(repos[i].1.url.as_str()),
                ),
            );
        }
        if !path_is_relative(repos[i].0.as_str()) {
            return Err(
                EngineError::Configuration(
                    absolute_path_message(repos[i].0.as_str()),
                ),
            );
        }
        if path_has_parent_component(repos[i].0.as_str()) {
            return Err(
                EngineError::Configuration(
                    parent_component_message(repos[i].0.as_str()),
                ),
            );
        }
        let ghost old_seen = seen@;
        seen.push(repos[i].0.clone());
        proof {
            assert(seen@ == old_seen.push(repos@[i as int].0));
            assert(crate::text::views_of(old_seen).len() == old_seen.len());
            assert(old_seen.len() == i);
            assert forall|k: int| 0 <= k < seen@.len() implies crate::text::views_of(seen@)[k]
                == spec_paths(repos@).subrange(0, i as int + 1)[k] by {
                assert(crate::text::views_of(seen@)[k] == seen@[k]@);
                if k < i {
                    assert(seen@[k] == old_seen[k]);
                    assert(crate::text::views_of(old_seen)[k] == old_seen[k]@);
                }
            }
            assert(crate::text::views_of(seen@) =~= spec_paths(repos@).subrange(0, i as int + 1));
            assert forall|a: int, b: int| 0 <= a < b < i + 1 implies spec_paths(repos@)[a]
                != spec_paths(repos@)[b] by {
                if b == i {
                    assert(crate::text::views_of(old_seen)[a] == spec_paths(repos@)[a]);
                    if spec_paths(repos@)[a] == repos@[i as int].0@ {
                        assert(crate::text::views_of(old_seen).contains(repos@[i as int].0@));
                        assert(crate::text::view_set(old_seen).contains(repos@[i as int].0@));
                    }
                }
            }
        }
        i = i + 1;
    }
    Ok(())
}

/// The message naming a duplicated submodule path.
fn duplicate_path_message(path: &str) -> (r: String)
    ensures
        r@ == "Duplicate submodule path: "@ + path@,
{
    let mut m = String::from_str("Duplicate submodule path: ");
    m.append(path);
    m
}

/// The message naming a URL that is malformed or has a refused scheme.
fn invalid_url_message(url: &str) -> (r: String)
    ensures
        r@ == "Invalid repository URL (supported schemes: git, ssh, https, http, file): "@
            + url@,
{
    let mut m = String::from_str(
        "Invalid repository URL (supported schemes: git, ssh, https, http, file): ",
    );
    m.append(url);
    m
}

/// The message naming an absolute repository path.
fn absolute_path_message(path: &str) -> (r: String)
    ensures
        r@ == "Repository path must be relative: "@ + path@,
{
    let mut m = String::from_str("Repository path must be relative: ");
    m.append(path);
    m
}

/// The message naming a path with a parent-directory component.
fn parent_component_message(path: &str) -> (r: String)
    ensures
        r@ == "Repository path cannot contain '..' components: "@ + path@,
{
    let mut m = String::from_str("Repository path cannot contain '..' components: ");
    m.append(path);
    m
}

/// No staged change in any host status entry.
pub open spec fn host_clean(statuses: Seq<StatusObservation>) -> bool {
    forall|i: int|
        0 <= i < statuses.len() ==> !((#[trigger] statuses[i]).index_new
            || statuses[i].index_modified || statuses[i].index_deleted)
}

/// Refuses to run when the host repository has staged additions,
/// modifications or deletions.
pub fn validate_main_repo_clean(statuses: &Vec<StatusObservation>) -> (r: Result<(), EngineError>)
    ensures
        r is Ok <==> host_clean(statuses@),
        r matches Err(e) ==> e is Precondition,
{
    let mut i: usize = 0;
    while i < statuses.len()
        invariant
            i <= statuses@.len(),
            forall|k: int|
                0 <= k < i ==> !((#[trigger] statuses@[k]).index_new
                    || statuses@[k].index_modified || statuses@[k].index_deleted),
        decreases statuses@.len() - i,
    {
        if statuses[i].is_staged() {
            return Err(
                EngineError::Precondition(
                    String::from_str(
                        "the repository has staged changes; commit or reset them first",
                    ),
                ),
            );
        }
        i = i + 1;
    }
    Ok(())
}

/// A registered nested repository in a state the engine may start
/// from: named, initialized, openable, without uncommitted changes,
/// and checked out exactly at its recorded commit.
pub open spec fn submodule_state_ok(s: SubmoduleObservation) -> bool {
    &&& s.name is Some
    &&& s.workdir_commit is Some
    &&& s.openable
    &&& !s.has_uncommitted_changes
    &&& s.head_commit is Some
    &&& s.head_commit->0@ == s.workdir_commit->0@
}

/// Refuses to run when any registered nested repository is
/// uninitialized, unopenable, dirty, or checked out to a commit other
/// than its recorded one (external drift).
pub fn validate_submodule_states(subs: &Vec<SubmoduleObservation>) -> (r: Result<(), EngineError>)
    ensures
        r is Ok <==> (forall|i: int| 0 <= i < subs@.len() ==> submodule_state_ok(#[trigger] subs@[i])),
        r matches Err(e) ==> e is Precondition,
{
    let mut i: usize = 0;
    while i < subs.len()
        invariant
            i <= subs@.len(),
            forall|k: int| 0 <= k < i ==> submodule_state_ok(#[trigger] subs@[k]),
        decreases subs@.len() - i,
    {
        let s = &subs[i];
        if s.name.is_none() {
            return Err(EngineError::Precondition(submodule_issue_message(s, "has no name")));
        }
        if s.workdir_commit.is_none() {
            return Err(
                EngineError::Precondition(submodule_issue_message(s, "is not initialized")),
            );
        }
        if !s.openable {
            return Err(
                EngineError::Precondition(
                    submodule_issue_message(s, "cannot be opened; it may be corrupted"),
                ),
            );
        }
        if s.has_uncommitted_changes {
            return Err(
                EngineError::Precondition(submodule_issue_message(s, "has uncommitted changes")),
            );
        }
        match (&s.head_commit, &s.workdir_commit) {
            (Some(h), Some(w)) => {
                if !str_eq_str(h.as_str(), w.as_str()) {
                    return Err(
                        EngineError::Precondition(drift_message(s, w.as_str(), h.as_str())),
                    );
                }
            },
            _ => {
                return Err(
                    EngineError::Precondition(submodule_issue_message(s, "has no resolved head")),
                );
            },
        }
        i = i + 1;
    }
    Ok(())
}

/// The message naming a drifted nested repository together with the
/// commit it should stand at and the commit its head points at.
fn drift_message(s: &SubmoduleObservation, expected: &str, actual: &str) -> (r: String)
    ensures
        r@ == "Submodule at "@ + s.path@
            + " is checked out to a different commit than expected. Expected: "@ + expected@
            + ", Actual: "@ + actual@,
{
    let mut m = String::from_str("Submodule at ");
    m.append(s.path.as_str());
    m.append(" is checked out to a different commit than expected. Expected: ");
    m.append(expected);
    m.append(", Actual: ");
    m.append(actual);
    m
}

/// The message naming a nested repository and what is wrong with it.
fn submodule_issue_message(s: &SubmoduleObservation, issue: &str) -> (r: String)
    ensures
        r@ == "Submodule at "@ + s.path@ + " "@ + issue@,
{
    let mut m = String::from_str("Submodule at ");
    m.append(s.path.as_str());
    m.append(" ");
    m.append(issue);
    m
}

} // verus!
