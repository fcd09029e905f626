use vstd::prelude::*;
use vstd::string::*;
use crate::errors::EngineError;
use crate::text::{join_lines, join_lines_spec, lemma_views_push, seq_contains_sub, seq_starts_with, split_lines, split_lines_spec, str_contains, str_eq_str, str_starts_with, trim_str, trimmed, views_of};
use crate::vcs::clone_opt_string;

verus! {

/// The `.gitmodules` section header naming a nested repository.
pub open spec fn header_of(n: Seq<char>) -> Seq<char> {
    "[submodule \""@ + n + "\"]"@
}

/// Builds the section header line for the given name.
fn section_header(name: &str) -> (r: String)
    ensures
        r@ == header_of(name@),
{
    let mut h = String::from_str("[submodule \"");
    h.append(name);
    h.append("\"]");
    h
}

/// The line, once trimmed, is the section header of the target entry
/// under either its name or its path.
pub open spec fn is_target_header(line: Seq<char>, h1: Seq<char>, h2: Seq<char>) -> bool {
    trimmed(line, false) == h1 || trimmed(line, false) == h2
}

/// The line, once trimmed, opens some bracketed section.
pub open spec fn opens_section(line: Seq<char>) -> bool {
    trimmed(line, false).len() > 0 && trimmed(line, false)[0] == '['
}

/// The lines that survive dropping the target entry's section: from a
/// target header through the next section header (or the end), lines
/// are dropped; everything else is kept.
pub open spec fn filter_section(
    lines: Seq<Seq<char>>,
    h1: Seq<char>,
    h2: Seq<char>,
    in_target: bool,
) -> Seq<Seq<char>>
    decreases lines.len(),
{
    if lines.len() == 0 {
        Seq::empty()
    } else if is_target_header(lines[0], h1, h2) {
        filter_section(lines.skip(1), h1, h2, true)
    } else if in_target && !opens_section(lines[0]) {
        filter_section(lines.skip(1), h1, h2, true)
    } else {
        seq![lines[0]] + filter_section(lines.skip(1), h1, h2, false)
    }
}

/// Some line is the target entry's section header.
pub open spec fn section_found(lines: Seq<Seq<char>>, h1: Seq<char>, h2: Seq<char>) -> bool {
    exists|i: int| 0 <= i < lines.len() && is_target_header(#[trigger] lines[i], h1, h2)
}

/// Whether some line is the target entry's section header.
fn scan_for_section(lines: &Vec<String>, h1: &String, h2: &String) -> (r: bool)
    ensures
        r == section_found(views_of(lines@), h1@, h2@),
{
    let mut i: usize = 0;
    while i < lines.len()
        invariant
            i <= lines@.len(),
            forall|k: int|
                0 <= k < i ==> !is_target_header(#[trigger] views_of(lines@)[k], h1@, h2@),
        decreases lines@.len() - i,
    {
        if line_is_target(lines[i].as_str(), h1, h2) {
            proof {
                assert(is_target_header(views_of(lines@)[i as int], h1@, h2@));
            }
            return true;
        }
        proof {
            assert(views_of(lines@)[i as int] == lines@[i as int]@);
        }
        i = i + 1;
    }
    false
}

/// What should happen to the `.gitmodules` file after an edit.
#[derive(Debug, PartialEq, Eq)]
pub enum GitmodulesUpdate {
    /// There was no file; nothing to do.
    Unchanged,
    /// No section remains: delete the file and drop it from the index.
    DeleteFile,
    /// Write this content back and re-stage the file.
    WriteFile(String),
}

/// Whether the trimmed line equals one of the two headers.
fn line_is_target(line: &str, h1: &String, h2: &String) -> (r: bool)
    ensures
        r == is_target_header(line@, h1@, h2@),
{
    let t = trim_str(line, false);
    str_eq_str(t.as_str(), h1.as_str()) || str_eq_str(t.as_str(), h2.as_str())
}

/// Whether the trimmed line opens a bracketed section.
fn line_opens_section(line: &str) -> (r: bool)
    ensures
        r == opens_section(line@),
{
    let t = trim_str(line, false);
    t.as_str().unicode_len() > 0 && t.as_str().get_char(0) == '['
}

/// The new `.gitmodules` text with the target entry's section removed:
/// the surviving lines joined by newlines, the whole trimmed.
pub open spec fn gitmodules_after_removal(
    content: Seq<char>,
    h1: Seq<char>,
    h2: Seq<char>,
) -> Seq<char> {
    trimmed(join_lines_spec(filter_section(split_lines_spec(content), h1, h2, false)), true)
}

/// Rewrites the `.gitmodules` text to drop the section of the entry
/// named `name` (or registered under its `path`). `content` is the
/// current file text, or nothing when the file does not exist. With
/// `must_exist`, a missing file or missing section is an error.
/// An empty result means the file should be deleted outright.
#[verifier::rlimit(60)]
pub fn update_gitmodules_content(
    content: Option<&String>,
    name: &str,
    path: &str,
    must_exist: bool,
) -> (r: Result<GitmodulesUpdate, EngineError>)
    ensures
        content is None ==> (if must_exist {
            r matches Err(e) && e is VcsOperation
        } else {
            r matches Ok(u) && u is Unchanged
        }),
        content matches Some(c) ==> {
            let lines = split_lines_spec(c@);
            let h1 = header_of(name@);
            let h2 = header_of(path@);
            let out = gitmodules_after_removal(c@, h1, h2);
            &&& (must_exist && !section_found(lines, h1, h2)) ==> (r matches Err(e)
                && e is VcsOperation)
            &&& (!must_exist || section_found(lines, h1, h2)) ==> (r matches Ok(u) && (
            if out.len() == 0 {
                u is DeleteFile
            } else {
                u matches GitmodulesUpdate::WriteFile(w) && w@ == out
            }))
        },
{
    let c = match content {
        None => {
            if must_exist {
                return Err(
                    EngineError::VcsOperation(String::from_str(".gitmodules file not found")),
                );
            }
            return Ok(GitmodulesUpdate::Unchanged);
        },
        Some(c) => c,
    };
    let h1 = section_header(name);
    let h2 = section_header(path);
    let lines = split_lines(c.as_str());
    let ghost all = views_of(lines@);

    let found = scan_for_section(&lines, &h1, &h2);
    let mut kept: Vec<String> = Vec::new();
    let mut in_target = false;
    let mut i: usize = 0;
    proof {
        assert(all.skip(0) =~= all);
        assert(views_of(kept@) =~= Seq::<Seq<char>>::empty());
        assert(views_of(kept@) + filter_section(all, h1@, h2@, false) =~= filter_section(
            all,
            h1@,
            h2@,
            false,
        ));
    }
    while i < lines.len()
        invariant
            i <= lines@.len(),
            all == views_of(lines@),
            filter_section(all, h1@, h2@, false) == views_of(kept@) + filter_section(
                all.skip(i as int),
                h1@,
                h2@,
                in_target,
            ),
        decreases lines@.len() - i,
    {
        proof {
            assert(all[i as int] == lines@[i as int]@);
            assert(all.skip(i as int)[0] == all[i as int]);
            assert(all.skip(i as int).skip(1) =~= all.skip(i as int + 1));
        }
        if line_is_target(lines[i].as_str(), &h1, &h2) {
            in_target = true;
        } else if in_target && !line_opens_section(lines[i].as_str()) {
            // still inside the dropped section
        } else {
            in_target = false;
            let ghost old_kept = kept@;
            kept.push(lines[i].clone());
            proof {
                lemma_views_push(old_kept, lines@[i as int]);
                assert(views_of(old_kept) + (seq![all[i as int]] + filter_section(
                    all.skip(i as int + 1),
                    h1@,
                    h2@,
                    false,
                )) =~= views_of(kept@) + filter_section(all.skip(i as int + 1), h1@, h2@, false));
            }
        }
        i = i + 1;
    }
    proof {
        assert(all.skip(i as int).len() == 0);
        assert(filter_section(all.skip(i as int), h1@, h2@, in_target)
            =~= Seq::<Seq<char>>::empty());
        assert(views_of(kept@) + Seq::<Seq<char>>::empty() =~= views_of(kept@));
        assert(filter_section(all, h1@, h2@, false) == views_of(kept@));
    }
    if must_exist && !found {
        return Err(
            EngineError::VcsOperation(
                String::from_str("submodule section not found in .gitmodules"),
            ),
        );
    }
    let joined = join_lines(&kept);
    let out = trim_str(joined.as_str(), true);
    if out.as_str().unicode_len() == 0 {
        Ok(GitmodulesUpdate::DeleteFile)
    } else {
        Ok(GitmodulesUpdate::WriteFile(out))
    }
}

/// The line, once trimmed, is a submodule section header that mentions
/// the given path.
pub open spec fn is_path_header(line: Seq<char>, p: Seq<char>) -> bool {
    let t = trimmed(line, false);
    &&& seq_starts_with(t, "[submodule "@)
    &&& t.len() > 0
    &&& t[t.len() - 1] == ']'
    &&& seq_contains_sub(t, p)
}

/// The lines that survive dropping every submodule section that
/// mentions the path.
pub open spec fn filter_path_section(
    lines: Seq<Seq<char>>,
    p: Seq<char>,
    in_target: bool,
) -> Seq<Seq<char>>
    decreases lines.len(),
{
    if lines.len() == 0 {
        Seq::empty()
    } else if is_path_header(lines[0], p) {
        filter_path_section(lines.skip(1), p, true)
    } else if in_target && !opens_section(lines[0]) {
        filter_path_section(lines.skip(1), p, true)
    } else {
        seq![lines[0]] + filter_path_section(lines.skip(1), p, false)
    }
}

/// Whether the trimmed line is a submodule header mentioning `p`.
fn line_is_path_header(line: &str, p: &str) -> (r: bool)
    ensures
        r == is_path_header(line@, p@),
{
    let t = trim_str(line, false);
    if !str_starts_with(t.as_str(), "[submodule ") {
        proof {
            reveal_strlit("[submodule ");
        }
        return false;
    }
    proof {
        reveal_strlit("[submodule ");
        assert(t@.len() > 0);
    }
    let l = t.as_str().unicode_len();
    if t.as_str().get_char(l - 1) != ']' {
        return false;
    }
    str_contains(t.as_str(), p)
}

/// The `.gitmodules` text left after scrubbing every section that
/// mentions the path: the surviving lines joined, the whole trimmed.
pub open spec fn gitmodules_after_path_scrub(content: Seq<char>, p: Seq<char>) -> Seq<char> {
    trimmed(join_lines_spec(filter_path_section(split_lines_spec(content), p, false)), true)
}

/// Scrubs from the `.gitmodules` text every submodule section whose
/// header mentions `path`. Used during rollback, when the entry's
/// stable name may be unknown or the file only partially written.
/// An empty result means the file should be deleted outright.
#[verifier::rlimit(60)]
pub fn gitmodules_clean_content(content: Option<&String>, path: &str) -> (r: GitmodulesUpdate)
    ensures
        content is None ==> r is Unchanged,
        content matches Some(c) ==> {
            let out = gitmodules_after_path_scrub(c@, path@);
            if out.len() == 0 {
                r is DeleteFile
            } else {
                r matches GitmodulesUpdate::WriteFile(w) && w@ == out
            }
        },
{
    let c = match content {
        None => {
            return GitmodulesUpdate::Unchanged;
        },
        Some(c) => c,
    };
    let lines = split_lines(c.as_str());
    let ghost all = views_of(lines@);

    let mut kept: Vec<String> = Vec::new();
    let mut in_target = false;
    let mut i: usize = 0;
    proof {
        assert(all.skip(0) =~= all);
        assert(views_of(kept@) =~= Seq::<Seq<char>>::empty());
        assert(views_of(kept@) + filter_path_section(all, path@, false) =~= filter_path_section(
            all,
            path@,
            false,
        ));
    }
    while i < lines.len()
        invariant
            i <= lines@.len(),
            all == views_of(lines@),
            filter_path_section(all, path@, false) == views_of(kept@) + filter_path_section(
                all.skip(i as int),
                path@,
                in_target,
            ),
        decreases lines@.len() - i,
    {
        proof {
            assert(all[i as int] == lines@[i as int]@);
            assert(all.skip(i as int)[0] == all[i as int]);
            assert(all.skip(i as int).skip(1) =~= all.skip(i as int + 1));
        }
        if line_is_path_header(lines[i].as_str(), path) {
            in_target = true;
        } else if in_target && !line_opens_section(lines[i].as_str()) {
            // still inside the scrubbed section
        } else {
            in_target = false;
            let ghost old_kept = kept@;
            kept.push(lines[i].clone());
            proof {
                lemma_views_push(old_kept, lines@[i as int]);
                assert(views_of(old_kept) + (seq![all[i as int]] + filter_path_section(
                    all.skip(i as int + 1),
                    path@,
                    false,
                )) =~= views_of(kept@) + filter_path_section(all.skip(i as int + 1), path@, false));
            }
        }
        i = i + 1;
    }
    proof {
        assert(all.skip(i as int).len() == 0);
        assert(filter_path_section(all.skip(i as int), path@, in_target)
            =~= Seq::<Seq<char>>::empty());
        assert(views_of(kept@) + Seq::<Seq<char>>::empty() =~= views_of(kept@));
        assert(filter_path_section(all, path@, false) == views_of(kept@));
    }
    let joined = join_lines(&kept);
    let out = trim_str(joined.as_str(), true);
    if out.as_str().unicode_len() == 0 {
        GitmodulesUpdate::DeleteFile
    } else {
        GitmodulesUpdate::WriteFile(out)
    }
}

/// One step of the deterministic teardown of a nested repository.
/// Every step is independent: a later failure does not undo earlier
/// steps; whole-run rollback is the authority for full recovery.
#[derive(Debug, PartialEq, Eq)]
pub enum RemoveStep {
    /// Drop one configuration key from the host configuration,
    /// tolerating a key that is already absent.
    DropConfigKey(String),
    /// Remove this path from the host index.
    DropIndexEntry(String),
    /// Rewrite `.gitmodules` without the entry's section and re-stage
    /// it (or delete it when no section remains).
    EditGitmodules { name: String, path: String, must_exist: bool },
    /// Delete the nested repository's control directory under the
    /// host's internal storage, if it exists.
    DropModulesDir(String),
    /// Delete the working-tree directory, if it exists.
    DropWorkdir(String),
}

/// The configuration key `submodule.<name>.<key>`.
pub open spec fn config_key_of(n: Seq<char>, key: Seq<char>) -> Seq<char> {
    "submodule."@ + n + "."@ + key
}

/// Builds the configuration key `submodule.<name>.<key>`.
fn config_key(name: &str, key: &str) -> (r: String)
    ensures
        r@ == config_key_of(name@, key@),
{
    let mut k = String::from_str("submodule.");
    k.append(name);
    k.append(".");
    k.append(key);
    proof {
        reveal_strlit(".");
    }
    k
}

/// The five configuration keys recorded for a nested repository.
pub open spec fn config_keys_of(n: Seq<char>) -> Seq<Seq<char>> {
    seq![
        config_key_of(n, "url"@),
        config_key_of(n, "update"@),
        config_key_of(n, "branch"@),
        config_key_of(n, "fetchRecurseSubmodules"@),
        config_key_of(n, "ignore"@),
    ]
}

/// The deterministic teardown of a fully registered nested repository:
/// configuration keys first, then the index entry, then the
/// `.gitmodules` section (which must exist), then the control
/// directory, then the working tree.
pub fn remove_submodule_plan(name: &str, path: &str) -> (r: Vec<RemoveStep>)
    ensures
        r@.len() == 9,
        forall|k: int|
            0 <= k < 5 ==> ((#[trigger] r@[k]) matches RemoveStep::DropConfigKey(c) && c@
                == config_keys_of(name@)[k]),
        r@[5] matches RemoveStep::DropIndexEntry(p) && p@ == path@,
        r@[6] matches RemoveStep::EditGitmodules { name: n, path: p, must_exist } && n@ == name@
            && p@ == path@ && must_exist,
        r@[7] matches RemoveStep::DropModulesDir(m) && m@ == name@,
        r@[8] matches RemoveStep::DropWorkdir(w) && w@ == path@,
{
    let mut steps: Vec<RemoveStep> = Vec::new();
    steps.push(RemoveStep::DropConfigKey(config_key(name, "url")));
    steps.push(RemoveStep::DropConfigKey(config_key(name, "update")));
    steps.push(RemoveStep::DropConfigKey(config_key(name, "branch")));
    steps.push(RemoveStep::DropConfigKey(config_key(name, "fetchRecurseSubmodules")));
    steps.push(RemoveStep::DropConfigKey(config_key(name, "ignore")));
    steps.push(RemoveStep::DropIndexEntry(String::from_str(path)));
    steps.push(
        RemoveStep::EditGitmodules {
            name: String::from_str(name),
            path: String::from_str(path),
            must_exist: true,
        },
    );
    steps.push(RemoveStep::DropModulesDir(String::from_str(name)));
    steps.push(RemoveStep::DropWorkdir(String::from_str(path)));
    proof {
        reveal_strlit("url");
        reveal_strlit("update");
        reveal_strlit("branch");
        reveal_strlit("fetchRecurseSubmodules");
        reveal_strlit("ignore");
    }
    steps
}

/// The lenient teardown used during rollback, for an entry that may be
/// only partially created: configuration keys only when the stable
/// name is known, no step requires the `.gitmodules` section to exist,
/// and the control directory is tried under both the name and the
/// path.
pub fn remove_submodule_rollback_plan(name: &Option<String>, path: &str) -> (r: Vec<RemoveStep>)
    ensures
        name matches Some(n) ==> {
            &&& r@.len() == 10
            &&& forall|k: int|
                0 <= k < 5 ==> ((#[trigger] r@[k]) matches RemoveStep::DropConfigKey(c) && c@
                    == config_keys_of(n@)[k])
            &&& r@[5] matches RemoveStep::DropIndexEntry(p) && p@ == path@
            &&& r@[6] matches RemoveStep::EditGitmodules { name: en, path: ep, must_exist } && en@
                == n@ && ep@ == path@ && !must_exist
            &&& r@[7] matches RemoveStep::DropModulesDir(m) && m@ == n@
            &&& r@[8] matches RemoveStep::DropModulesDir(m) && m@ == path@
            &&& r@[9] matches RemoveStep::DropWorkdir(w) && w@ == path@
        },
        name is None ==> {
            &&& r@.len() == 4
            &&& r@[0] matches RemoveStep::DropIndexEntry(p) && p@ == path@
            &&& r@[1] matches RemoveStep::EditGitmodules { name: en, path: ep, must_exist } && en@
                == path@ && ep@ == path@ && !must_exist
            &&& r@[2] matches RemoveStep::DropModulesDir(m) && m@ == path@
            &&& r@[3] matches RemoveStep::DropWorkdir(w) && w@ == path@
        },
{
    let mut steps: Vec<RemoveStep> = Vec::new();
    match name {
        Some(n) => {
            steps.push(RemoveStep::DropConfigKey(config_key(n.as_str(), "url")));
            steps.push(RemoveStep::DropConfigKey(config_key(n.as_str(), "update")));
            steps.push(RemoveStep::DropConfigKey(config_key(n.as_str(), "branch")));
            steps.push(
                RemoveStep::DropConfigKey(config_key(n.as_str(), "fetchRecurseSubmodules")),
            );
            steps.push(RemoveStep::DropConfigKey(config_key(n.as_str(), "ignore")));
            steps.push(RemoveStep::DropIndexEntry(String::from_str(path)));
            steps.push(
                RemoveStep::EditGitmodules {
                    name: n.clone(),
                    path: String::from_str(path),
                    must_exist: false,
                },
            );
            steps.push(RemoveStep::DropModulesDir(n.clone()));
            steps.push(RemoveStep::DropModulesDir(String::from_str(path)));
            steps.push(RemoveStep::DropWorkdir(String::from_str(path)));
            proof {
                reveal_strlit("url");
                reveal_strlit("update");
                reveal_strlit("branch");
                reveal_strlit("fetchRecurseSubmodules");
                reveal_strlit("ignore");
            }
        },
        None => {
            steps.push(RemoveStep::DropIndexEntry(String::from_str(path)));
            steps.push(
                RemoveStep::EditGitmodules {
                    name: String::from_str(path),
                    path: String::from_str(path),
                    must_exist: false,
                },
            );
            steps.push(RemoveStep::DropModulesDir(String::from_str(path)));
            steps.push(RemoveStep::DropWorkdir(String::from_str(path)));
        },
    }
    steps
}

/// What one revision lookup inside a nested repository reported.
#[derive(Debug, PartialEq, Eq)]
pub enum ResolveOutcome {
    /// The revision resolved, to a reference (when the lookup named
    /// one) and an object id.
    Resolved { reference: Option<String>, oid: String },
    /// The narrow "reference not found" failure that licenses the
    /// fallback lookup.
    RefNotFound,
    /// Any other failure of the lookup.
    Failed(String),
}

/// The engine's decision after a revision lookup.
#[derive(Debug, PartialEq, Eq)]
pub enum ResolveStep {
    /// Check out this revision: attach to the reference when one is
    /// named, otherwise detach at the object id.
    UseRevision { reference: Option<String>, oid: String },
    /// Retry the lookup with this revision string.
    RetrySpec(String),
    /// Give up with this error.
    Fail(EngineError),
}

/// The fallback revision string `origin/<version>`.
pub open spec fn origin_spec_of(version: Seq<char>) -> Seq<char> {
    "origin/"@ + version
}

/// Decides what follows the first, direct lookup of `version`: use the
/// resolved revision; on the narrow "reference not found" failure,
/// retry as `origin/<version>`; propagate any other failure unchanged.
pub fn checkout_to_version_first(version: &str, first: &ResolveOutcome) -> (d: ResolveStep)
    ensures
        first matches ResolveOutcome::Resolved { reference, oid } ==> (d
            matches ResolveStep::UseRevision { reference: r2, oid: o2 } && r2 == reference && o2
            == oid),
        first is RefNotFound ==> (d matches ResolveStep::RetrySpec(s) && s@ == origin_spec_of(
            version@,
        )),
        first matches ResolveOutcome::Failed(m) ==> (d matches ResolveStep::Fail(e) && e
            matches EngineError::VcsOperation(mm) && mm@ == m@),
{
    match first {
        ResolveOutcome::Resolved { reference, oid } => ResolveStep::UseRevision {
            reference: clone_opt_string(reference),
            oid: oid.clone(),
        },
        ResolveOutcome::RefNotFound => {
            let mut s = String::from_str("origin/");
            s.append(version);
            ResolveStep::RetrySpec(s)
        },
        ResolveOutcome::Failed(m) => ResolveStep::Fail(EngineError::VcsOperation(m.clone())),
    }
}

/// Decides what follows the fallback lookup of `origin/<version>`: use
/// the resolved revision; a second "reference not found" means the
/// version is not resolvable at all; propagate any other failure.
pub fn checkout_to_version_second(version: &str, second: &ResolveOutcome) -> (d: ResolveStep)
    ensures
        second matches ResolveOutcome::Resolved { reference, oid } ==> (d
            matches ResolveStep::UseRevision { reference: r2, oid: o2 } && r2 == reference && o2
            == oid),
        second is RefNotFound ==> (d matches ResolveStep::Fail(e) && e
            matches EngineError::Resolution(v) && v@ == version@),
        second matches ResolveOutcome::Failed(m) ==> (d matches ResolveStep::Fail(e) && e
            matches EngineError::VcsOperation(mm) && mm@ == m@),
{
    match second {
        ResolveOutcome::Resolved { reference, oid } => ResolveStep::UseRevision {
            reference: clone_opt_string(reference),
            oid: oid.clone(),
        },
        ResolveOutcome::RefNotFound => ResolveStep::Fail(
            EngineError::Resolution(String::from_str(version)),
        ),
        ResolveOutcome::Failed(m) => ResolveStep::Fail(EngineError::VcsOperation(m.clone())),
    }
}

/// How the nested repository's head is updated after a successful
/// resolution.
#[derive(Debug, PartialEq, Eq)]
pub enum HeadAction {
    /// Attach the head to this reference.
    Attach(String),
    /// Detach the head at this object id.
    Detach(String),
}

/// The head is always updated: attached to the resolved reference when
/// the lookup named one, otherwise detached at the resolved object id.
pub fn head_update(reference: &Option<String>, oid: &str) -> (h: HeadAction)
    ensures
        reference matches Some(n) ==> (h matches HeadAction::Attach(a) && a@ == n@),
        reference is None ==> (h matches HeadAction::Detach(d) && d@ == oid@),
{
    match reference {
        Some(n) => HeadAction::Attach(n.clone()),
        None => HeadAction::Detach(String::from_str(oid)),
    }
}

} // verus!
