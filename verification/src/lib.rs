//! A reconciliation engine for nested Git repositories: it diffs a
//! declared repository list against the submodules registered in a
//! host repository, plans additions, updates and removals in a
//! deterministic order, and on any failure undoes partial work from a
//! pre-run snapshot.
//!
//! Everything that decides — selection, validation, classification,
//! planning, version-resolution fallback, `.gitmodules` text edits,
//! snapshotting and rollback — lives here, verified. The thin shell
//! that talks to the real repository, the network and the terminal
//! feeds these functions plain values and carries their decisions out.

pub mod classifier;
pub mod cli;
pub mod engine;
pub mod errors;
pub mod git_ops;
pub mod selector;
pub mod state;
pub mod text;
pub mod utils;
pub mod validation;
pub mod vcs;
