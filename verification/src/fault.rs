//! Why a request was refused or an operation failed.

use crate::exit_codes::{OPERATIONAL_FAILURE, POLICY_FAILURE};
use vstd::prelude::*;
use vstd::string::*;

verus! {

/// The kinds of failure. None carries a path: the caller knows which path it
/// asked about.
#[derive(Debug, Clone, Copy, PartialEq, Eq, Structural)]
pub enum Fault {
    /// The plan's root is not an absolute path.
    RelativeRoot,
    /// The root does not exist.
    RootMissing,
    /// The resolved path lies outside the root.
    EscapesRoot,
    /// No ancestor of the path exists, not even the file-system root.
    PrefixMissing,
    /// The source of an operation does not exist.
    SourceMissing,
    /// The directory that is to hold the destination does not exist.
    DestinationParentMissing,
    /// The source is a symlink and the policy is `skip`.
    SymlinkSkipped,
    /// The source is a symlink and the policy is `error`.
    SymlinkNotAllowed,
    /// The destination exists and the policy is `fail`.
    DestinationExists,
    /// The policy is `overwrite_with_backup` and overwriting was not allowed.
    OverwriteNotAllowed,
    /// Every numbered candidate the counter can express exists.
    SuffixExhausted,
    /// The source could not be read to derive its token.
    SourceUnreadable,
    /// Something that is no directory lies where a directory is to be.
    NotADirectory,
    /// The source is a directory and the copy is not recursive.
    DirectoryNotRecursive,
    /// The source is neither a file nor a directory.
    UnsupportedFileType,
    /// A tree could not be listed.
    WalkFailed,
    /// A listed entry does not lie below the tree that was listed.
    EntryOutsideTree,
    /// A journal record that should carry a destination has none.
    MissingDestination,
    /// An operation lacks the resolved path that its kind needs.
    Unresolved,
    /// A reply does not answer the request that was made.
    Protocol,
    /// The file system refused an action.
    Io,
    /// The journal could not be written.
    JournalWrite,
}

/// Whether a failure is one of the file system or the journal, as opposed to
/// a plan that is refused.
pub open spec fn is_operational(f: Fault) -> bool {
    f == Fault::Io || f == Fault::JournalWrite || f == Fault::WalkFailed || f
        == Fault::SourceUnreadable || f == Fault::UnsupportedFileType || f
        == Fault::EntryOutsideTree || f == Fault::MissingDestination || f
        == Fault::DirectoryNotRecursive || f == Fault::DestinationParentMissing || f
        == Fault::Protocol || f == Fault::NotADirectory
}

/// The words for a failure.
pub open spec fn fault_message(f: Fault) -> Seq<char> {
    match f {
        Fault::RelativeRoot => "root must be an absolute path"@,
        Fault::RootMissing => "root does not exist"@,
        Fault::EscapesRoot => "path escapes root"@,
        Fault::PrefixMissing => "path prefix does not exist"@,
        Fault::SourceMissing => "source does not exist"@,
        Fault::DestinationParentMissing => "destination parent does not exist"@,
        Fault::SymlinkSkipped => "symlink skipped"@,
        Fault::SymlinkNotAllowed => "symlink not allowed"@,
        Fault::DestinationExists => "destination already exists and policy is 'fail'"@,
        Fault::OverwriteNotAllowed => "overwrite_with_backup policy requires --allow-overwrite flag"@,
        Fault::SuffixExhausted => "no free numbered name for the destination"@,
        Fault::SourceUnreadable => "source cannot be read"@,
        Fault::NotADirectory => "path exists and is not a directory"@,
        Fault::DirectoryNotRecursive => "cannot copy directory without recursive=true"@,
        Fault::UnsupportedFileType => "unsupported file type"@,
        Fault::WalkFailed => "directory tree cannot be listed"@,
        Fault::EntryOutsideTree => "listed entry lies outside the source tree"@,
        Fault::MissingDestination => "missing dst in journal"@,
        Fault::Unresolved => "operation lacks a resolved path"@,
        Fault::Protocol => "reply does not answer the request"@,
        Fault::Io => "file system operation failed"@,
        Fault::JournalWrite => "journal write failed"@,
    }
}

impl Fault {
    /// The exit code for a failure met outside a transaction: 1 for a
    /// failure of the file system or the journal, 2 for a refused plan.
    pub fn exit_code(&self) -> (code: i32)
        ensures
            code == if is_operational(*self) {
                OPERATIONAL_FAILURE
            } else {
                POLICY_FAILURE
            },
    {
        match self {
            Fault::Io
            | Fault::JournalWrite
            | Fault::WalkFailed
            | Fault::SourceUnreadable
            | Fault::UnsupportedFileType
            | Fault::EntryOutsideTree
            | Fault::MissingDestination
            | Fault::DirectoryNotRecursive
            | Fault::DestinationParentMissing
            | Fault::Protocol
            | Fault::NotADirectory => OPERATIONAL_FAILURE,
            _ => POLICY_FAILURE,
        }
    }

    /// The words for this failure.
    pub fn describe(&self) -> (s: String)
        ensures
            s@ == fault_message(*self),
    {
        let text = match self {
            Fault::RelativeRoot => "root must be an absolute path",
            Fault::RootMissing => "root does not exist",
            Fault::EscapesRoot => "path escapes root",
            Fault::PrefixMissing => "path prefix does not exist",
            Fault::SourceMissing => "source does not exist",
            Fault::DestinationParentMissing => "destination parent does not exist",
            Fault::SymlinkSkipped => "symlink skipped",
            Fault::SymlinkNotAllowed => "symlink not allowed",
            Fault::DestinationExists => "destination already exists and policy is 'fail'",
            Fault::OverwriteNotAllowed => "overwrite_with_backup policy requires --allow-overwrite flag",
            Fault::SuffixExhausted => "no free numbered name for the destination",
            Fault::SourceUnreadable => "source cannot be read",
            Fault::NotADirectory => "path exists and is not a directory",
            Fault::DirectoryNotRecursive => "cannot copy directory without recursive=true",
            Fault::UnsupportedFileType => "unsupported file type",
            Fault::WalkFailed => "directory tree cannot be listed",
            Fault::EntryOutsideTree => "listed entry lies outside the source tree",
            Fault::MissingDestination => "missing dst in journal",
            Fault::Unresolved => "operation lacks a resolved path",
            Fault::Protocol => "reply does not answer the request",
            Fault::Io => "file system operation failed",
            Fault::JournalWrite => "journal write failed",
        };
        String::from_str(text)
    }
}

} // verus!
