use vstd::prelude::*;
use vstd::string::*;

verus! {

/// The kind of a declared repository. Only Git repositories are
/// supported; any other tag is kept verbatim so that error messages
/// can show it.
#[derive(Debug, PartialEq, Eq, Hash)]
pub enum RepoType {
    Git,
    Unknown(String),
}

impl RepoType {
    /// Whether this kind is one the engine can reconcile.
    pub fn is_supported(&self) -> (r: bool)
        ensures
            r == (self is Git),
    {
        match self {
            RepoType::Git => true,
            RepoType::Unknown(_) => false,
        }
    }
}

impl Clone for RepoType {
    fn clone(&self) -> (r: Self)
        ensures
            r == *self,
    {
        match self {
            RepoType::Git => RepoType::Git,
            RepoType::Unknown(s) => RepoType::Unknown(s.clone()),
        }
    }
}

/// One desired-state entry: where a nested repository should point and
/// which version of it should be checked out.
#[derive(Debug)]
pub struct Repo {
    /// The declared repository kind.
    pub kind: RepoType,
    /// The remote URL, as written in the declaration.
    pub url: String,
    /// A branch, tag or commit reference.
    pub version: String,
}

impl Clone for Repo {
    fn clone(&self) -> (r: Self)
        ensures
            r == *self,
    {
        Repo { kind: self.kind.clone(), url: self.url.clone(), version: self.version.clone() }
    }
}

/// The declared repository list: an ordered mapping from relative path
/// to desired state.
#[derive(Debug)]
pub struct ReposFile {
    pub repositories: Vec<(String, Repo)>,
}

/// What the host repository reports about one currently registered
/// nested repository, observed once at run start.
#[derive(Debug)]
pub struct SubmoduleObservation {
    /// The stable configuration name, when the entry has one.
    pub name: Option<String>,
    /// The path of the nested repository, relative to the host root.
    pub path: String,
    /// The URL recorded for the entry, when there is one.
    pub url: Option<String>,
    /// The commit recorded in the host index for this path.
    pub workdir_commit: Option<String>,
    /// Whether the nested repository could be opened at all.
    pub openable: bool,
    /// Whether the nested repository carries uncommitted modifications
    /// or new files.
    pub has_uncommitted_changes: bool,
    /// The commit the nested repository's head points at, when the
    /// head resolves.
    pub head_commit: Option<String>,
}

impl Clone for SubmoduleObservation {
    fn clone(&self) -> (r: Self)
        ensures
            r == *self,
    {
        SubmoduleObservation {
            name: clone_opt_string(&self.name),
            path: self.path.clone(),
            url: clone_opt_string(&self.url),
            workdir_commit: clone_opt_string(&self.workdir_commit),
            openable: self.openable,
            has_uncommitted_changes: self.has_uncommitted_changes,
            head_commit: clone_opt_string(&self.head_commit),
        }
    }
}

/// A field-for-field copy of an optional string.
pub fn clone_opt_string(o: &Option<String>) -> (r: Option<String>)
    ensures
        r == *o,
{
    match o {
        Some(s) => Some(s.clone()),
        None => None,
    }
}

/// What one status entry of the host repository reports about staged
/// changes, observed once at run start.
#[derive(Debug, Clone, Copy)]
pub struct StatusObservation {
    /// The entry is newly added to the index.
    pub index_new: bool,
    /// The entry is modified in the index against the head commit.
    pub index_modified: bool,
    /// The entry is deleted in the index against the head commit.
    pub index_deleted: bool,
}

impl StatusObservation {
    /// Whether this entry counts as a staged change.
    pub fn is_staged(&self) -> (r: bool)
        ensures
            r == (self.index_new || self.index_modified || self.index_deleted),
    {
        self.index_new || self.index_modified || self.index_deleted
    }
}

/// How a whole run ended. There is no partial success: a failing run is
/// rolled back as a whole.
#[derive(Debug, Clone, PartialEq, Eq)]
pub enum RunOutcome {
    /// Dry-run mode: every action was only reported, nothing changed.
    AppliedDryRun,
    /// Every selected operation succeeded.
    AppliedAndCommitted,
    /// An operation failed and the engine restored the original state.
    RolledBack,
}

} // verus!
