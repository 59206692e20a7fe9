//! What the command line asks for.

use crate::model::CollisionPolicy;
use vstd::prelude::*;

verus! {

/// The command line, parsed.
#[derive(Debug, Clone, PartialEq, Eq)]
pub struct Cli {
    pub command: Command,
}

/// The subcommands.
#[derive(Debug, Clone, PartialEq, Eq)]
pub enum Command {
    /// Print the schema of manifests.
    Schema,
    /// Validate, preview, or apply a transaction.
    Apply(ApplyArgs),
    /// Undo a transaction from its journal.
    Undo(UndoArgs),
}

/// The arguments of `apply`.
#[derive(Debug, Clone, PartialEq, Eq)]
pub struct ApplyArgs {
    /// Path of the manifest.
    pub manifest: String,
    /// Only validate; do not execute.
    pub validate_only: bool,
    /// Show what would be done; do not execute.
    pub dry_run: bool,
    /// Write events to standard output, one per line.
    pub json: bool,
    /// Path of the journal, if one is to be written.
    pub journal: Option<String>,
    /// Collision policy in place of the manifest's.
    pub collision_policy: Option<CollisionPolicy>,
    /// Root directory in place of the manifest's.
    pub root: Option<String>,
    /// Whether `overwrite_with_backup` may be used.
    pub allow_overwrite: bool,
}

/// The arguments of `undo`.
#[derive(Debug, Clone, PartialEq, Eq)]
pub struct UndoArgs {
    /// Path of the journal.
    pub journal: String,
    /// Write events to standard output, one per line.
    pub json: bool,
    /// Show what would be done; do not execute.
    pub dry_run: bool,
}

} // verus!
