//! The plan: what a manifest asks for.

use crate::fault::Fault;
use crate::path::{FsPath, PathView};
use vstd::prelude::*;
use vstd::string::*;

verus! {

/// Transaction atomicity mode.
#[derive(Debug, Clone, Copy, PartialEq, Eq, Structural)]
pub enum TransactionMode {
    /// All operations succeed or none stays applied.
    All,
    /// Each operation stands for itself.
    Op,
}

/// What to do when a destination exists.
#[derive(Debug, Clone, Copy, PartialEq, Eq, Structural)]
pub enum CollisionPolicy {
    /// Fail the operation.
    Fail,
    /// Append `.2`, `.3`, … to the destination's name.
    Suffix,
    /// Append a token of eight hex digits derived from the source's bytes.
    Hash8,
    /// Move the existing entry aside, then take its place.
    OverwriteWithBackup,
}

/// What to do when a source is a symlink.
#[derive(Debug, Clone, Copy, PartialEq, Eq, Structural)]
pub enum SymlinkPolicy {
    /// Accept it.
    Follow,
    /// Refuse the plan, naming the link as skipped.
    Skip,
    /// Refuse the plan.
    Error,
}

/// A single file-system operation, its paths relative to the plan's root.
#[derive(Debug, Clone, PartialEq, Eq)]
pub enum Operation {
    /// Create a directory, with its missing ancestors if `parents`.
    Mkdir { dst: FsPath, parents: bool },
    /// Move a file or a directory tree.
    Move { src: FsPath, dst: FsPath, cross_device: bool },
    /// Copy a file, or a directory tree if `recursive`.
    Copy { src: FsPath, dst: FsPath, recursive: bool },
    /// Move that never copies across volumes by request.
    Rename { src: FsPath, dst: FsPath },
    /// Move into quarantine.
    Trash { src: FsPath },
}

/// The mathematical value of an [`Operation`].
pub enum OperationView {
    Mkdir { dst: PathView, parents: bool },
    Move { src: PathView, dst: PathView, cross_device: bool },
    Copy { src: PathView, dst: PathView, recursive: bool },
    Rename { src: PathView, dst: PathView },
    Trash { src: PathView },
}

impl OperationView {
    /// The source path, for every operation but `Mkdir`.
    pub open spec fn src(self) -> Option<PathView> {
        match self {
            OperationView::Mkdir { .. } => None,
            OperationView::Move { src, .. } => Some(src),
            OperationView::Copy { src, .. } => Some(src),
            OperationView::Rename { src, .. } => Some(src),
            OperationView::Trash { src } => Some(src),
        }
    }

    /// The destination path, for every operation but `Trash`.
    pub open spec fn dst(self) -> Option<PathView> {
        match self {
            OperationView::Mkdir { dst, .. } => Some(dst),
            OperationView::Move { dst, .. } => Some(dst),
            OperationView::Copy { dst, .. } => Some(dst),
            OperationView::Rename { dst, .. } => Some(dst),
            OperationView::Trash { .. } => None,
        }
    }

    /// The operation's kind as the manifest writes it.
    pub open spec fn kind_name(self) -> Seq<char> {
        match self {
            OperationView::Mkdir { .. } => "mkdir"@,
            OperationView::Move { .. } => "move"@,
            OperationView::Copy { .. } => "copy"@,
            OperationView::Rename { .. } => "rename"@,
            OperationView::Trash { .. } => "trash"@,
        }
    }
}

impl DeepView for Operation {
    type V = OperationView;

    open spec fn deep_view(&self) -> OperationView {
        match self {
            Operation::Mkdir { dst, parents } => OperationView::Mkdir {
                dst: dst@,
                parents: *parents,
            },
            Operation::Move { src, dst, cross_device } => OperationView::Move {
                src: src@,
                dst: dst@,
                cross_device: *cross_device,
            },
            Operation::Copy { src, dst, recursive } => OperationView::Copy {
                src: src@,
                dst: dst@,
                recursive: *recursive,
            },
            Operation::Rename { src, dst } => OperationView::Rename { src: src@, dst: dst@ },
            Operation::Trash { src } => OperationView::Trash { src: src@ },
        }
    }
}

impl View for Operation {
    type V = OperationView;

    open spec fn view(&self) -> OperationView {
        self.deep_view()
    }
}

impl Operation {
    /// The source path, for every operation but `Mkdir`.
    pub fn src(&self) -> (r: Option<&FsPath>)
        ensures
            r.deep_view() == self@.src(),
    {
        match self {
            Operation::Mkdir { .. } => None,
            Operation::Move { src, .. } => Some(src),
            Operation::Copy { src, .. } => Some(src),
            Operation::Rename { src, .. } => Some(src),
            Operation::Trash { src } => Some(src),
        }
    }

    /// The destination path, for every operation but `Trash`.
    pub fn dst(&self) -> (r: Option<&FsPath>)
        ensures
            r.deep_view() == self@.dst(),
    {
        match self {
            Operation::Mkdir { dst, .. } => Some(dst),
            Operation::Move { dst, .. } => Some(dst),
            Operation::Copy { dst, .. } => Some(dst),
            Operation::Rename { dst, .. } => Some(dst),
            Operation::Trash { .. } => None,
        }
    }

    /// The operation's kind as the manifest writes it.
    pub fn kind_name(&self) -> (s: String)
        ensures
            s@ == self@.kind_name(),
    {
        match self {
            Operation::Mkdir { .. } => String::from_str("mkdir"),
            Operation::Move { .. } => String::from_str("move"),
            Operation::Copy { .. } => String::from_str("copy"),
            Operation::Rename { .. } => String::from_str("rename"),
            Operation::Trash { .. } => String::from_str("trash"),
        }
    }

    /// A copy of the operation.
    pub fn duplicate(&self) -> (r: Operation)
        ensures
            r@ == self@,
    {
        match self {
            Operation::Mkdir { dst, parents } => Operation::Mkdir {
                dst: dst.duplicate(),
                parents: *parents,
            },
            Operation::Move { src, dst, cross_device } => Operation::Move {
                src: src.duplicate(),
                dst: dst.duplicate(),
                cross_device: *cross_device,
            },
            Operation::Copy { src, dst, recursive } => Operation::Copy {
                src: src.duplicate(),
                dst: dst.duplicate(),
                recursive: *recursive,
            },
            Operation::Rename { src, dst } => Operation::Rename {
                src: src.duplicate(),
                dst: dst.duplicate(),
            },
            Operation::Trash { src } => Operation::Trash { src: src.duplicate() },
        }
    }
}

/// A transaction as a manifest declares it.
#[derive(Debug, Clone, PartialEq, Eq)]
pub struct Plan {
    /// Absolute root directory; no operation may reach outside it.
    pub root: FsPath,
    /// Transaction mode.
    pub transaction: TransactionMode,
    /// Collision policy for every destination.
    pub collision_policy: CollisionPolicy,
    /// Symlink policy for every source.
    pub symlink_policy: SymlinkPolicy,
    /// Whether `overwrite_with_backup` may be used.
    pub allow_overwrite: bool,
    /// The operations, in the order in which they run.
    pub operations: Vec<Operation>,
}

/// The mathematical value of a [`Plan`].
pub struct PlanView {
    pub root: PathView,
    pub transaction: TransactionMode,
    pub collision_policy: CollisionPolicy,
    pub symlink_policy: SymlinkPolicy,
    pub allow_overwrite: bool,
    pub operations: Seq<OperationView>,
}

impl View for Plan {
    type V = PlanView;

    open spec fn view(&self) -> PlanView {
        PlanView {
            root: self.root@,
            transaction: self.transaction,
            collision_policy: self.collision_policy,
            symlink_policy: self.symlink_policy,
            allow_overwrite: self.allow_overwrite,
            operations: self.operations.deep_view(),
        }
    }
}

/// The transaction mode of a manifest that names none.
pub fn default_transaction_mode() -> (m: TransactionMode)
    ensures
        m == TransactionMode::All,
{
    TransactionMode::All
}

/// The collision policy of a manifest that names none.
pub fn default_collision_policy() -> (p: CollisionPolicy)
    ensures
        p == CollisionPolicy::Fail,
{
    CollisionPolicy::Fail
}

/// The symlink policy of a manifest that names none.
pub fn default_symlink_policy() -> (p: SymlinkPolicy)
    ensures
        p == SymlinkPolicy::Error,
{
    SymlinkPolicy::Error
}

impl Plan {
    /// Accepts the plan if and only if its root is an absolute path.
    pub fn validate(&self) -> (r: Result<(), Fault>)
        ensures
            r == if self@.root.absolute {
                Ok::<(), Fault>(())
            } else {
                Err::<(), Fault>(Fault::RelativeRoot)
            },
    {
        if !self.root.is_absolute() {
            return Err(Fault::RelativeRoot);
        }
        Ok(())
    }
}

} // verus!
