use vstd::prelude::*;

verus! {

/// Why a selection filter was rejected.
#[derive(Debug, Clone, PartialEq, Eq)]
pub enum SelectionIssue {
    /// Filter entries that name no declared repository.
    NotFound(Vec<String>),
    /// Entries that appear both in the `only` and in the `ignore` filter.
    Conflicting(Vec<String>),
}

/// The error classes of the engine. A whole run either succeeds or
/// fails with exactly one of these; errors raised before any mutation
/// (configuration, selection, precondition, snapshot) never require a
/// rollback.
#[derive(Debug, Clone, PartialEq, Eq)]
pub enum EngineError {
    /// A malformed desired-state entry, or contradictory filters.
    Configuration(String),
    /// An invalid `only` / `ignore` filter.
    Selection(SelectionIssue),
    /// The host repository or a registered nested repository is not in
    /// a state the engine may start from.
    Precondition(String),
    /// A version string that resolved neither directly nor as
    /// `origin/<version>`.
    Resolution(String),
    /// Any other failing operation of the underlying version control
    /// layer.
    VcsOperation(String),
    /// The pre-run state of a registered nested repository could not be
    /// captured, so a rollback could not reconstruct it.
    Snapshot(String),
    /// A best-effort restoration left these entries unrestored. Reported
    /// beside the original failure, never instead of it.
    Rollback(Vec<String>),
}

impl EngineError {
    /// Whether this error aborts a run before any mutation, so that no
    /// rollback is needed.
    pub fn aborts_before_mutation(&self) -> (r: bool)
        ensures
            r == (self is Configuration || self is Selection || self is Precondition
                || self is Snapshot),
    {
        match self {
            EngineError::Configuration(_) => true,
            EngineError::Selection(_) => true,
            EngineError::Precondition(_) => true,
            EngineError::Snapshot(_) => true,
            EngineError::Resolution(_) => false,
            EngineError::VcsOperation(_) => false,
            EngineError::Rollback(_) => false,
        }
    }
}

} // verus!
