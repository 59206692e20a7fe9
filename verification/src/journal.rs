//! The journal: one record per lifecycle transition of an operation.
//!
//! The journal is a file of lines that only grows. This module holds the
//! records, the framing of the file into lines, and the reading of a journal
//! for undo. Writing a record to disk is the caller's part.

use crate::clock::Timestamp;
use crate::model::CollisionPolicy;
use crate::path::{FsPath, PathView};
use vstd::prelude::*;
use vstd::string::*;

verus! {

/// The lifecycle transition that a record stands for.
#[derive(Debug, Clone, Copy, PartialEq, Eq, Structural)]
pub enum JournalStatus {
    Start,
    Applied,
    Fail,
    Undone,
}

/// How a collision was resolved.
#[derive(Debug, Clone, PartialEq, Eq)]
pub struct CollisionDetails {
    /// Policy used.
    pub policy: CollisionPolicy,
    /// Final destination path; may differ from the one asked for.
    pub final_dst: FsPath,
    /// Where the existing entry was moved to, if it was overwritten.
    pub backup_path: Option<FsPath>,
}

/// The mathematical value of [`CollisionDetails`].
pub struct CollisionView {
    pub policy: CollisionPolicy,
    pub final_dst: PathView,
    pub backup_path: Option<PathView>,
}

impl DeepView for CollisionDetails {
    type V = CollisionView;

    open spec fn deep_view(&self) -> CollisionView {
        CollisionView {
            policy: self.policy,
            final_dst: self.final_dst@,
            backup_path: self.backup_path.deep_view(),
        }
    }
}

impl CollisionDetails {
    /// A copy of the details.
    pub fn duplicate(&self) -> (r: CollisionDetails)
        ensures
            r.deep_view() == self.deep_view(),
    {
        CollisionDetails {
            policy: self.policy,
            final_dst: self.final_dst.duplicate(),
            backup_path: duplicate_path(&self.backup_path),
        }
    }
}

/// A copy of a path that may be absent.
pub fn duplicate_path(p: &Option<FsPath>) -> (r: Option<FsPath>)
    ensures
        r.deep_view() == p.deep_view(),
{
    match p {
        Some(q) => Some(q.duplicate()),
        None => None,
    }
}

/// What it takes to reverse an operation without the plan.
#[derive(Debug, Clone, PartialEq, Eq)]
pub enum UndoMetadata {
    /// Move the entry back to where it came from.
    Move { original_src: FsPath },
    /// Delete what the copy created.
    Copy { created_dst: FsPath },
    /// Remove the created directory, which must be empty.
    Mkdir { created_dir: FsPath },
    /// Put the backup back in the destination's place.
    Overwrite { backup_path: FsPath },
    /// Move the entry back, then put the backup back.
    MoveWithOverwrite { original_src: FsPath, backup_path: FsPath },
    /// Delete the copy, then put the backup back.
    CopyWithOverwrite { created_dst: FsPath, backup_path: FsPath },
}

/// The mathematical value of [`UndoMetadata`].
pub enum UndoView {
    Move { original_src: PathView },
    Copy { created_dst: PathView },
    Mkdir { created_dir: PathView },
    Overwrite { backup_path: PathView },
    MoveWithOverwrite { original_src: PathView, backup_path: PathView },
    CopyWithOverwrite { created_dst: PathView, backup_path: PathView },
}

impl DeepView for UndoMetadata {
    type V = UndoView;

    open spec fn deep_view(&self) -> UndoView {
        match self {
            UndoMetadata::Move { original_src } => UndoView::Move { original_src: original_src@ },
            UndoMetadata::Copy { created_dst } => UndoView::Copy { created_dst: created_dst@ },
            UndoMetadata::Mkdir { created_dir } => UndoView::Mkdir { created_dir: created_dir@ },
            UndoMetadata::Overwrite { backup_path } => UndoView::Overwrite {
                backup_path: backup_path@,
            },
            UndoMetadata::MoveWithOverwrite { original_src, backup_path } => {
                UndoView::MoveWithOverwrite {
                    original_src: original_src@,
                    backup_path: backup_path@,
                }
            },
            UndoMetadata::CopyWithOverwrite { created_dst, backup_path } => {
                UndoView::CopyWithOverwrite { created_dst: created_dst@, backup_path: backup_path@ }
            },
        }
    }
}

impl UndoMetadata {
    /// A copy of the metadata.
    pub fn duplicate(&self) -> (r: UndoMetadata)
        ensures
            r.deep_view() == self.deep_view(),
    {
        match self {
            UndoMetadata::Move { original_src } => UndoMetadata::Move {
                original_src: original_src.duplicate(),
            },
            UndoMetadata::Copy { created_dst } => UndoMetadata::Copy {
                created_dst: created_dst.duplicate(),
            },
            UndoMetadata::Mkdir { created_dir } => UndoMetadata::Mkdir {
                created_dir: created_dir.duplicate(),
            },
            UndoMetadata::Overwrite { backup_path } => UndoMetadata::Overwrite {
                backup_path: backup_path.duplicate(),
            },
            UndoMetadata::MoveWithOverwrite { original_src, backup_path } => {
                UndoMetadata::MoveWithOverwrite {
                    original_src: original_src.duplicate(),
                    backup_path: backup_path.duplicate(),
                }
            },
            UndoMetadata::CopyWithOverwrite { created_dst, backup_path } => {
                UndoMetadata::CopyWithOverwrite {
                    created_dst: created_dst.duplicate(),
                    backup_path: backup_path.duplicate(),
                }
            },
        }
    }
}

/// One record of the journal.
#[derive(Debug, Clone, PartialEq, Eq)]
pub struct JournalEntry {
    /// The operation's identifier.
    pub id: u128,
    /// When the record was made.
    pub ts: Timestamp,
    /// The operation's kind.
    pub op: String,
    /// Resolved source path, if the operation has one.
    pub src: Option<FsPath>,
    /// Resolved destination path, if the operation has one.
    pub dst: Option<FsPath>,
    /// How a collision was resolved, if there was one.
    pub collision: Option<CollisionDetails>,
    /// The transition that the record stands for.
    pub status: JournalStatus,
    /// How to reverse the operation; only on `Applied` records.
    pub undo: Option<UndoMetadata>,
}

/// The mathematical value of a [`JournalEntry`].
pub struct EntryView {
    pub id: u128,
    pub ts: Timestamp,
    pub op: Seq<char>,
    pub src: Option<PathView>,
    pub dst: Option<PathView>,
    pub collision: Option<CollisionView>,
    pub status: JournalStatus,
    pub undo: Option<UndoView>,
}

impl DeepView for JournalEntry {
    type V = EntryView;

    open spec fn deep_view(&self) -> EntryView {
        EntryView {
            id: self.id,
            ts: self.ts,
            op: self.op@,
            src: self.src.deep_view(),
            dst: self.dst.deep_view(),
            collision: self.collision.deep_view(),
            status: self.status,
            undo: self.undo.deep_view(),
        }
    }
}

impl View for JournalEntry {
    type V = EntryView;

    open spec fn view(&self) -> EntryView {
        self.deep_view()
    }
}

impl EntryView {
    /// The record that says that the operation of this record was undone at
    /// time `ts`.
    pub open spec fn undone(self, ts: Timestamp) -> EntryView {
        EntryView { ts, status: JournalStatus::Undone, undo: None, ..self }
    }

    /// The record that says that undoing the operation of this record failed
    /// at time `ts`.
    pub open spec fn unreverted(self, ts: Timestamp) -> EntryView {
        EntryView { ts, status: JournalStatus::Fail, undo: None, ..self }
    }
}

impl JournalEntry {
    /// A copy of the record.
    pub fn duplicate(&self) -> (r: JournalEntry)
        ensures
            r@ == self@,
    {
        JournalEntry {
            id: self.id,
            ts: self.ts,
            op: self.op.clone(),
            src: duplicate_path(&self.src),
            dst: duplicate_path(&self.dst),
            collision: match &self.collision {
                Some(c) => Some(c.duplicate()),
                None => None,
            },
            status: self.status,
            undo: match &self.undo {
                Some(u) => Some(u.duplicate()),
                None => None,
            },
        }
    }

    /// The record with another status and time and without undo metadata.
    fn restamped(&self, status: JournalStatus, ts: Timestamp) -> (r: JournalEntry)
        ensures
            r@ == (EntryView { ts, status, undo: None, ..self@ }),
    {
        JournalEntry {
            id: self.id,
            ts,
            op: self.op.clone(),
            src: duplicate_path(&self.src),
            dst: duplicate_path(&self.dst),
            collision: match &self.collision {
                Some(c) => Some(c.duplicate()),
                None => None,
            },
            status,
            undo: None,
        }
    }

    /// The record that says that this record's operation was undone.
    pub fn undone(&self, ts: Timestamp) -> (r: JournalEntry)
        ensures
            r@ == self@.undone(ts),
    {
        self.restamped(JournalStatus::Undone, ts)
    }

    /// The record that says that undoing this record's operation failed.
    pub fn unreverted(&self, ts: Timestamp) -> (r: JournalEntry)
        ensures
            r@ == self@.unreverted(ts),
    {
        self.restamped(JournalStatus::Fail, ts)
    }
}

/// Whether a byte is ASCII white space.
pub open spec fn is_space(b: u8) -> bool {
    b == 0x20 || b == 0x09 || b == 0x0a || b == 0x0b || b == 0x0c || b == 0x0d
}

/// Whether a line holds nothing but white space.
pub open spec fn blank(line: Seq<u8>) -> bool {
    forall|i: int| 0 <= i < line.len() ==> is_space(#[trigger] line[i])
}

/// The scan behind [`records`]: the lines closed so far that are not blank,
/// and the bytes read since the last line feed.
pub open spec fn scan_lines(bytes: Seq<u8>) -> (Seq<Seq<u8>>, Seq<u8>)
    decreases bytes.len(),
{
    if bytes.len() == 0 {
        (Seq::empty(), Seq::empty())
    } else {
        let (done, cur) = scan_lines(bytes.drop_last());
        if bytes.last() == 0x0a {
            (
                if blank(cur) {
                    done
                } else {
                    done.push(cur)
                },
                Seq::empty(),
            )
        } else {
            (done, cur.push(bytes.last()))
        }
    }
}

/// The lines of a journal file that hold a record: the runs of bytes between
/// line feeds, without those that are blank.
pub open spec fn records(bytes: Seq<u8>) -> Seq<Seq<u8>> {
    let (done, cur) = scan_lines(bytes);
    if blank(cur) {
        done
    } else {
        done.push(cur)
    }
}

fn is_blank(line: &Vec<u8>) -> (r: bool)
    ensures
        r == blank(line@),
{
    let mut i: usize = 0;
    while i < line.len()
        invariant
            i <= line.len(),
            forall|j: int| 0 <= j < i ==> is_space(#[trigger] line@[j]),
        decreases line.len() - i,
    {
        let b = line[i];
        if !(b == 0x20 || b == 0x09 || b == 0x0a || b == 0x0b || b == 0x0c || b == 0x0d) {
            return false;
        }
        i = i + 1;
    }
    true
}

/// Frames the bytes of a journal file into the lines that hold a record.
/// Blank lines are passed over; every other line is handed out as it is, so
/// that a malformed record is seen by the decoder and not skipped.
pub fn journal_lines(content: &Vec<u8>) -> (lines: Vec<Vec<u8>>)
    ensures
        lines.deep_view() == records(content@),
{
    let mut lines: Vec<Vec<u8>> = Vec::new();
    let mut cur: Vec<u8> = Vec::new();
    let mut i: usize = 0;
    while i < content.len()
        invariant
            i <= content.len(),
            scan_lines(content@.take(i as int)) == (lines.deep_view(), cur@),
        decreases content.len() - i,
    {
        proof {
            let next = content@.take(i as int + 1);
            assert(next.drop_last() =~= content@.take(i as int));
            assert(next.last() == content[i as int]);
        }
        let b = content[i];
        if b == 0x0a {
            if !is_blank(&cur) {
                let ghost before = lines.deep_view();
                let ghost line = cur@;
                lines.push(cur);
                proof {
                    assert(lines[lines.len() - 1].deep_view() =~= line);
                    assert(lines.deep_view() =~= before.push(line));
                }
            }
            cur = Vec::new();
        } else {
            cur.push(b);
        }
        i = i + 1;
    }
    assert(content@.take(i as int) =~= content@);
    if !is_blank(&cur) {
        let ghost before = lines.deep_view();
        let ghost line = cur@;
        lines.push(cur);
        proof {
            assert(lines[lines.len() - 1].deep_view() =~= line);
            assert(lines.deep_view() =~= before.push(line));
        }
    }
    lines
}

/// Whether the journal holds an `Undone` record for `id`.
pub open spec fn has_undone(entries: Seq<EntryView>, id: u128) -> bool {
    exists|j: int|
        0 <= j < entries.len() && (#[trigger] entries[j]).id == id && entries[j].status
            == JournalStatus::Undone
}

/// Whether the record at index `i` is still to be undone: an `Applied` record
/// with undo metadata whose operation no record says was undone.
pub open spec fn is_pending(entries: Seq<EntryView>, i: int) -> bool {
    &&& 0 <= i < entries.len()
    &&& entries[i].status == JournalStatus::Applied
    &&& entries[i].undo is Some
    &&& !has_undone(entries, entries[i].id)
}

/// The indices below `n` of the records that are still to be undone, the
/// last one first.
pub open spec fn pending_below(entries: Seq<EntryView>, n: int) -> Seq<int>
    decreases n,
{
    if n <= 0 {
        Seq::empty()
    } else if is_pending(entries, n - 1) {
        seq![n - 1] + pending_below(entries, n - 1)
    } else {
        pending_below(entries, n - 1)
    }
}

/// The indices of the records that an undo has to reverse, in the order in
/// which it reverses them.
pub open spec fn pending(entries: Seq<EntryView>) -> Seq<int> {
    pending_below(entries, entries.len() as int)
}

fn undone_recorded(entries: &Vec<JournalEntry>, id: u128) -> (r: bool)
    ensures
        r == has_undone(entries.deep_view(), id),
{
    let mut j: usize = 0;
    while j < entries.len()
        invariant
            j <= entries.len(),
            forall|k: int|
                0 <= k < j ==> !((#[trigger] entries.deep_view()[k]).id == id
                    && entries.deep_view()[k].status == JournalStatus::Undone),
        decreases entries.len() - j,
    {
        assert(entries.deep_view()[j as int] == entries[j as int]@);
        if entries[j].id == id && entries[j].status == JournalStatus::Undone {
            return true;
        }
        j = j + 1;
    }
    false
}

/// The indices of the records that an undo has to reverse, the last one
/// first: every `Applied` record with undo metadata whose operation no record
/// says was undone.
pub fn pending_inverses(entries: &Vec<JournalEntry>) -> (r: Vec<usize>)
    ensures
        r@.map_values(|i: usize| i as int) == pending(entries.deep_view()),
        forall|k: int| 0 <= k < r.len() ==> r[k] < entries.len(),
{
    let mut r: Vec<usize> = Vec::new();
    let n = entries.len();
    let mut i: usize = n;
    while i > 0
        invariant
            i <= n,
            n == entries.len(),
            r@.map_values(|i: usize| i as int) + pending_below(entries.deep_view(), i as int)
                == pending(entries.deep_view()),
            forall|k: int| 0 <= k < r.len() ==> r[k] < entries.len(),
        decreases i,
    {
        let e = &entries[i - 1];
        assert(entries.deep_view()[i as int - 1] == e@);
        let ghost before = r@.map_values(|i: usize| i as int);
        if e.status == JournalStatus::Applied && e.undo.is_some() && !undone_recorded(entries, e.id) {
            r.push(i - 1);
            proof {
                assert(r@.map_values(|i: usize| i as int) =~= before.push(i as int - 1));
                assert(before.push(i as int - 1) + pending_below(entries.deep_view(), i as int - 1)
                    =~= before + (seq![i as int - 1] + pending_below(
                    entries.deep_view(),
                    i as int - 1,
                )));
            }
        }
        i = i - 1;
    }
    proof {
        assert(r@.map_values(|i: usize| i as int) + pending_below(entries.deep_view(), 0)
            =~= r@.map_values(|i: usize| i as int));
    }
    r
}

/// The kind that marks the record of a committed transaction.
pub open spec fn commit_kind() -> Seq<char> {
    "txn_committed"@
}

/// Whether the journal holds the record of a committed transaction.
pub open spec fn committed(entries: Seq<EntryView>) -> bool {
    exists|j: int| 0 <= j < entries.len() && (#[trigger] entries[j]).op == commit_kind()
}

/// The record that marks a transaction as committed.
pub fn commit_marker(id: u128, ts: Timestamp) -> (r: JournalEntry)
    ensures
        r@ == (EntryView {
            id,
            ts,
            op: commit_kind(),
            src: None,
            dst: None,
            collision: None,
            status: JournalStatus::Applied,
            undo: None,
        }),
{
    JournalEntry {
        id,
        ts,
        op: String::from_str("txn_committed"),
        src: None,
        dst: None,
        collision: None,
        status: JournalStatus::Applied,
        undo: None,
    }
}

/// Whether the journal holds the record of a committed transaction. A
/// journal without one was left by a transaction that failed or was
/// interrupted.
pub fn is_committed(entries: &Vec<JournalEntry>) -> (r: bool)
    ensures
        r == committed(entries.deep_view()),
{
    let marker = String::from_str("txn_committed");
    let mut j: usize = 0;
    while j < entries.len()
        invariant
            j <= entries.len(),
            marker@ == commit_kind(),
            forall|k: int| 0 <= k < j ==> (#[trigger] entries.deep_view()[k]).op != commit_kind(),
        decreases entries.len() - j,
    {
        assert(entries.deep_view()[j as int] == entries[j as int]@);
        if entries[j].op == marker {
            return true;
        }
        j = j + 1;
    }
    false
}

} // verus!
