//! The transaction manager.
//!
//! The manager drives one operation at a time through its protocol: a
//! `Start` record, the job that applies the operation, and an `Applied` or
//! a `Fail` record. An operation whose `Start` record cannot be written is
//! not begun and gets no record at all. It keeps the records of what was
//! applied, and on demand reverses them, the last one first.
//!
//! An operation that fails after its existing destination was moved aside
//! has left a change behind. Its `Fail` record then holds the inverse that
//! puts the backup back, and the manager keeps that record with those of
//! what was applied, so that a rollback reverses the move aside as well.
//!
//! It is a machine: [`TransactionManager::execute`] and
//! [`TransactionManager::rollback`] begin a piece of work and return the
//! first request, and [`TransactionManager::resume`] takes the reply to a
//! request and returns the next one, until the work ends.

use crate::clock::{now, Timestamp};
use crate::facts::{FsQuery, QueryView};
use crate::fault::Fault;
use crate::fsops::{quarantine, quarantine_path, ActionView, FsAction, OpResult, OpResultView};
use crate::ident::fresh_id;
use crate::job::{
    Decision, DecisionView, Job, JobStep, JobStepView, JobView, Reply, ReplyView, Work, WorkView,
};
use crate::journal::{
    commit_kind, commit_marker, duplicate_path, CollisionDetails, CollisionView, EntryView,
    JournalEntry, JournalStatus, UndoMetadata, UndoView,
};
use crate::model::{CollisionPolicy, Operation, OperationView, TransactionMode};
use crate::path::{FsPath, PathView};
use crate::revert::{RevertStep, RevertStepView, Reverter, ReverterView};
use crate::validate::{NormalizedOp, NormalizedView};
use vstd::prelude::*;
use vstd::string::*;

verus! {

/// What the caller is to do next, or how the work ended.
#[derive(Debug, Clone, PartialEq, Eq)]
pub enum TxStep {
    /// Answer this query.
    Query(FsQuery),
    /// Perform this action.
    Act(FsAction),
    /// Write this record to the journal.
    Append(JournalEntry),
    /// The operation was applied.
    Applied(OpResult),
    /// The operation failed, or the request was out of turn.
    Failed(Fault, String),
    /// The rollback went through every applied record; with the number of
    /// records reversed and the number of records that could not be.
    RolledBack { reverted: usize, failed: usize },
}

/// The mathematical value of a [`TxStep`].
pub enum TxStepView {
    Query(QueryView),
    Act(ActionView),
    Append(EntryView),
    Applied(OpResultView),
    Failed(Fault, Seq<char>),
    RolledBack { reverted: usize, failed: usize },
}

impl DeepView for TxStep {
    type V = TxStepView;

    open spec fn deep_view(&self) -> TxStepView {
        match self {
            TxStep::Query(q) => TxStepView::Query(q.deep_view()),
            TxStep::Act(a) => TxStepView::Act(a.deep_view()),
            TxStep::Append(e) => TxStepView::Append(e@),
            TxStep::Applied(r) => TxStepView::Applied(r.deep_view()),
            TxStep::Failed(f, w) => TxStepView::Failed(*f, w@),
            TxStep::RolledBack { reverted, failed } => TxStepView::RolledBack {
                reverted: *reverted,
                failed: *failed,
            },
        }
    }
}

/// The record that opens an operation's lifecycle.
pub open spec fn start_entry(op: NormalizedView, ts: Timestamp) -> EntryView {
    EntryView {
        id: op.id,
        ts,
        op: op.op.kind_name(),
        src: op.resolved_src,
        dst: op.resolved_dst,
        collision: None,
        status: JournalStatus::Start,
        undo: None,
    }
}

/// The record that closes the lifecycle of an operation that failed.
pub open spec fn fail_entry(op: NormalizedView, ts: Timestamp) -> EntryView {
    EntryView { status: JournalStatus::Fail, ..start_entry(op, ts) }
}

/// Where the existing destination of `op` lies if the job that applied
/// `op` moved it aside and then failed: the backup path, once the stage that
/// moves the destination aside is over.
pub open spec fn moved_aside(op: NormalizedView, job: JobView) -> Option<PathView> {
    match (job.decision, op.resolved_dst) {
        (Some(d), Some(_)) => if job.stage >= 2 {
            d.backup
        } else {
            None
        },
        _ => None,
    }
}

/// The record that closes the lifecycle of an operation that failed after
/// its existing destination was moved to `aside`, if it was: the `Fail`
/// record, with what puts the destination back as its undo metadata.
pub open spec fn failure_entry(op: NormalizedView, aside: Option<PathView>, ts: Timestamp)
    -> EntryView {
    EntryView {
        undo: match aside {
            Some(backup_path) => Some(UndoView::Overwrite { backup_path }),
            None => None,
        },
        ..fail_entry(op, ts)
    }
}

/// The undo metadata of an applied operation: what reverses it without the
/// plan.
pub open spec fn inverse_of(op: NormalizedView, d: DecisionView) -> Option<UndoView> {
    match op.op {
        OperationView::Mkdir { .. } => match d.final_dst {
            Some(dst) => Some(UndoView::Mkdir { created_dir: dst }),
            None => None,
        },
        OperationView::Move { .. } | OperationView::Rename { .. } => match (
            op.resolved_src,
            d.backup,
        ) {
            (Some(src), Some(backup)) => Some(
                UndoView::MoveWithOverwrite { original_src: src, backup_path: backup },
            ),
            (Some(src), None) => Some(UndoView::Move { original_src: src }),
            _ => None,
        },
        OperationView::Copy { .. } => match (d.final_dst, d.backup) {
            (Some(dst), Some(backup)) => Some(
                UndoView::CopyWithOverwrite { created_dst: dst, backup_path: backup },
            ),
            (Some(dst), None) => Some(UndoView::Copy { created_dst: dst }),
            _ => None,
        },
        OperationView::Trash { .. } => match op.resolved_src {
            Some(src) => Some(UndoView::Move { original_src: src }),
            None => None,
        },
    }
}

/// Where the result of an applied operation lies: in quarantine for a
/// `trash`, else at the final destination.
pub open spec fn recorded_dst(op: NormalizedView, d: DecisionView) -> Option<PathView> {
    match (op.op, op.resolved_src) {
        (OperationView::Trash { .. }, Some(src)) => Some(quarantine(src)),
        (OperationView::Trash { .. }, None) => None,
        _ => d.final_dst,
    }
}

/// The collision details of an applied operation: present where the final
/// destination differs from the one asked for, or a backup was taken.
pub open spec fn collision_details(op: NormalizedView, d: DecisionView, policy: CollisionPolicy)
    -> Option<CollisionView> {
    match (op.resolved_dst, d.final_dst) {
        (Some(asked), Some(final_dst)) => if final_dst != asked || d.backup is Some {
            Some(CollisionView { policy, final_dst, backup_path: d.backup })
        } else {
            None
        },
        _ => None,
    }
}

/// The record that closes the lifecycle of an operation that was applied.
pub open spec fn success_entry(
    op: NormalizedView,
    d: DecisionView,
    policy: CollisionPolicy,
    ts: Timestamp,
) -> EntryView {
    EntryView {
        id: op.id,
        ts,
        op: op.op.kind_name(),
        src: op.resolved_src,
        dst: recorded_dst(op, d),
        collision: collision_details(op, d, policy),
        status: JournalStatus::Applied,
        undo: inverse_of(op, d),
    }
}

/// What an applied operation did.
pub open spec fn op_result(op: NormalizedView, d: DecisionView, bytes: u64) -> OpResultView {
    OpResultView {
        bytes_copied: bytes,
        final_dst: match recorded_dst(op, d) {
            Some(p) => p,
            None => PathView::empty(),
        },
        overwritten: d.backup is Some,
        backup_path: d.backup,
    }
}

/// The decision of a job, or none taken.
pub open spec fn decision_of(job: JobView) -> DecisionView {
    match job.decision {
        Some(d) => d,
        None => DecisionView { final_dst: None, backup: None },
    }
}

/// Where the manager stands.
pub enum PhaseView {
    /// No work under way.
    Idle,
    /// The `Start` record of an operation is being written.
    Starting { op: NormalizedView },
    /// The job of an operation is under way.
    Working { op: NormalizedView, job: JobView },
    /// The `Applied` record of an operation is being written.
    Recording { op: NormalizedView, entry: EntryView, result: OpResultView },
    /// The `Fail` record of an operation is being written; with the record,
    /// if it says how to put back a destination that was moved aside.
    Failing { fault: Fault, words: Seq<char>, kept: Option<EntryView> },
    /// A rollback is under way.
    Reverting { rev: ReverterView },
}

/// The mathematical value of a [`TransactionManager`].
pub struct TmView {
    pub mode: TransactionMode,
    pub collision_policy: CollisionPolicy,
    pub allow_overwrite: bool,
    /// The records of this transaction that a rollback is to reverse, in
    /// the order in which they were made: the `Applied` records, and the
    /// `Fail` records of operations that failed after their destination was
    /// moved aside.
    pub applied: Seq<EntryView>,
    pub phase: PhaseView,
}

impl TmView {
    /// A manager that has done nothing yet.
    pub open spec fn fresh(
        mode: TransactionMode,
        collision_policy: CollisionPolicy,
        allow_overwrite: bool,
    ) -> TmView {
        TmView {
            mode,
            collision_policy,
            allow_overwrite,
            applied: Seq::empty(),
            phase: PhaseView::Idle,
        }
    }

    /// The failure of the operation `op` for the reason given: its `Fail`
    /// record is to be written. Where the existing destination was moved to
    /// `aside` before the operation failed, the record says how to put it
    /// back, and the manager will keep it for the rollback.
    pub open spec fn fail(
        self,
        op: NormalizedView,
        fault: Fault,
        words: Seq<char>,
        aside: Option<PathView>,
        now: Timestamp,
    ) -> (TmView, TxStepView) {
        let entry = failure_entry(op, aside, now);
        (
            TmView {
                phase: PhaseView::Failing {
                    fault,
                    words,
                    kept: if aside is Some {
                        Some(entry)
                    } else {
                        None
                    },
                },
                ..self
            },
            TxStepView::Append(entry),
        )
    }

    /// What follows when the job of the operation `op` has taken a step.
    pub open spec fn after_job(self, op: NormalizedView, job: JobView, step: JobStepView, now: Timestamp)
        -> (TmView, TxStepView) {
        match step {
            JobStepView::Query(q) => (
                TmView { phase: PhaseView::Working { op, job }, ..self },
                TxStepView::Query(q),
            ),
            JobStepView::Act(a) => (
                TmView { phase: PhaseView::Working { op, job }, ..self },
                TxStepView::Act(a),
            ),
            JobStepView::Completed => {
                let d = decision_of(job);
                let entry = success_entry(op, d, self.collision_policy, now);
                (
                    TmView {
                        phase: PhaseView::Recording { op, entry, result: op_result(op, d, job.bytes) },
                        ..self
                    },
                    TxStepView::Append(entry),
                )
            },
            JobStepView::Failed(f, words) => self.fail(op, f, words, moved_aside(op, job), now),
        }
    }

    /// What follows when the rollback has taken a step.
    pub open spec fn after_revert(self, rev: ReverterView, step: RevertStepView) -> (
        TmView,
        TxStepView,
    ) {
        match step {
            RevertStepView::Query(q) => (
                TmView { phase: PhaseView::Reverting { rev }, ..self },
                TxStepView::Query(q),
            ),
            RevertStepView::Act(a) => (
                TmView { phase: PhaseView::Reverting { rev }, ..self },
                TxStepView::Act(a),
            ),
            RevertStepView::Append(e) => (
                TmView { phase: PhaseView::Reverting { rev }, ..self },
                TxStepView::Append(e),
            ),
            RevertStepView::Finished { reverted, failed } => (
                TmView { phase: PhaseView::Idle, ..self },
                TxStepView::RolledBack { reverted, failed },
            ),
            RevertStepView::Halted(f, words) => (
                TmView { phase: PhaseView::Idle, ..self },
                TxStepView::Failed(f, words),
            ),
        }
    }

    /// Begins the operation `op`: its `Start` record is to be written.
    pub open spec fn execute(self, op: NormalizedView, now: Timestamp) -> (TmView, TxStepView) {
        if self.phase is Idle {
            (
                TmView { phase: PhaseView::Starting { op }, ..self },
                TxStepView::Append(start_entry(op, now)),
            )
        } else {
            (self, TxStepView::Failed(Fault::Protocol, Seq::empty()))
        }
    }

    /// Begins the rollback: the applied records are taken, the last one
    /// first, and the manager keeps none.
    pub open spec fn rollback(self, now: Timestamp) -> (TmView, TxStepView) {
        if self.phase is Idle {
            let (rev, step) = ReverterView::fresh(self.applied.reverse(), true).proceed(now);
            (TmView { applied: Seq::empty(), ..self }).after_revert(rev, step)
        } else {
            (self, TxStepView::Failed(Fault::Protocol, Seq::empty()))
        }
    }

    /// What the manager does with a reply.
    pub open spec fn resume(self, reply: ReplyView, now: Timestamp) -> (TmView, TxStepView) {
        match self.phase {
            PhaseView::Idle => (self, TxStepView::Failed(Fault::Protocol, Seq::empty())),
            PhaseView::Starting { op } => match reply {
                ReplyView::Performed(_) => {
                    let (job, step) = JobView::fresh(
                        WorkView::Apply {
                            op,
                            policy: self.collision_policy,
                            allow_overwrite: self.allow_overwrite,
                        },
                    ).advance();
                    self.after_job(op, job, step, now)
                },
                ReplyView::Refused(words) => (
                    TmView { phase: PhaseView::Idle, ..self },
                    TxStepView::Failed(Fault::JournalWrite, words),
                ),
                _ => (
                    TmView { phase: PhaseView::Idle, ..self },
                    TxStepView::Failed(Fault::Protocol, Seq::empty()),
                ),
            },
            PhaseView::Working { op, job } => {
                let (next, step) = job.resume(reply);
                self.after_job(op, next, step, now)
            },
            PhaseView::Recording { op, entry, result } => match reply {
                ReplyView::Performed(_) => (
                    TmView { applied: self.applied.push(entry), phase: PhaseView::Idle, ..self },
                    TxStepView::Applied(result),
                ),
                ReplyView::Refused(words) => self.fail(op, Fault::JournalWrite, words, None, now),
                _ => self.fail(op, Fault::Protocol, Seq::empty(), None, now),
            },
            PhaseView::Failing { fault, words, kept } => (
                TmView {
                    phase: PhaseView::Idle,
                    applied: match kept {
                        Some(e) => self.applied.push(e),
                        None => self.applied,
                    },
                    ..self
                },
                TxStepView::Failed(fault, words),
            ),
            PhaseView::Reverting { rev } => {
                let (next, step) = rev.resume(reply, now);
                self.after_revert(next, step)
            },
        }
    }
}

#[derive(Debug, Clone)]
enum Phase {
    Idle,
    Starting { op: NormalizedOp },
    Working { op: NormalizedOp, job: Job },
    Recording { op: NormalizedOp, entry: JournalEntry, result: OpResult },
    Failing { fault: Fault, words: String, kept: Option<JournalEntry> },
    Reverting { rev: Reverter },
}

impl Phase {
    spec fn model(&self) -> PhaseView {
        match self {
            Phase::Idle => PhaseView::Idle,
            Phase::Starting { op } => PhaseView::Starting { op: op@ },
            Phase::Working { op, job } => PhaseView::Working { op: op@, job: job@ },
            Phase::Recording { op, entry, result } => PhaseView::Recording {
                op: op@,
                entry: entry@,
                result: result.deep_view(),
            },
            Phase::Failing { fault, words, kept } => PhaseView::Failing {
                fault: *fault,
                words: words@,
                kept: match kept {
                    Some(e) => Some(e@),
                    None => None,
                },
            },
            Phase::Reverting { rev } => PhaseView::Reverting { rev: rev@ },
        }
    }
}

/// Transaction manager for `all` or `op` mode.
#[derive(Debug, Clone)]
pub struct TransactionManager {
    mode: TransactionMode,
    collision_policy: CollisionPolicy,
    allow_overwrite: bool,
    applied: Vec<JournalEntry>,
    phase: Phase,
}

impl View for TransactionManager {
    type V = TmView;

    closed spec fn view(&self) -> TmView {
        TmView {
            mode: self.mode,
            collision_policy: self.collision_policy,
            allow_overwrite: self.allow_overwrite,
            applied: self.applied.deep_view(),
            phase: self.phase.model(),
        }
    }
}

/// The undo metadata of the operation `op` applied under the decision `d`.
pub fn undo_metadata(op: &NormalizedOp, d: &Decision) -> (r: Option<UndoMetadata>)
    ensures
        r.deep_view() == inverse_of(op@, d.deep_view()),
{
    match &op.op {
        Operation::Mkdir { .. } => match &d.final_dst {
            Some(dst) => Some(UndoMetadata::Mkdir { created_dir: dst.duplicate() }),
            None => None,
        },
        Operation::Move { .. } | Operation::Rename { .. } => match (&op.resolved_src, &d.backup) {
            (Some(src), Some(backup)) => Some(
                UndoMetadata::MoveWithOverwrite {
                    original_src: src.duplicate(),
                    backup_path: backup.duplicate(),
                },
            ),
            (Some(src), None) => Some(UndoMetadata::Move { original_src: src.duplicate() }),
            _ => None,
        },
        Operation::Copy { .. } => match (&d.final_dst, &d.backup) {
            (Some(dst), Some(backup)) => Some(
                UndoMetadata::CopyWithOverwrite {
                    created_dst: dst.duplicate(),
                    backup_path: backup.duplicate(),
                },
            ),
            (Some(dst), None) => Some(UndoMetadata::Copy { created_dst: dst.duplicate() }),
            _ => None,
        },
        Operation::Trash { .. } => match &op.resolved_src {
            Some(src) => Some(UndoMetadata::Move { original_src: src.duplicate() }),
            None => None,
        },
    }
}

fn final_place(op: &NormalizedOp, d: &Decision) -> (r: Option<FsPath>)
    ensures
        r.deep_view() == recorded_dst(op@, d.deep_view()),
{
    match (&op.op, &op.resolved_src) {
        (Operation::Trash { .. }, Some(src)) => Some(quarantine_path(src)),
        (Operation::Trash { .. }, None) => None,
        _ => duplicate_path(&d.final_dst),
    }
}

fn details(op: &NormalizedOp, d: &Decision, policy: CollisionPolicy) -> (r: Option<
    CollisionDetails,
>)
    ensures
        r.deep_view() == collision_details(op@, d.deep_view(), policy),
{
    match (&op.resolved_dst, &d.final_dst) {
        (Some(asked), Some(final_dst)) => {
            if !final_dst.same(asked) || d.backup.is_some() {
                Some(
                    CollisionDetails {
                        policy,
                        final_dst: final_dst.duplicate(),
                        backup_path: duplicate_path(&d.backup),
                    },
                )
            } else {
                None
            }
        },
        _ => None,
    }
}

/// The `Start` record of `op`.
pub fn opening_record(op: &NormalizedOp, status: JournalStatus, ts: Timestamp) -> (r: JournalEntry)
    ensures
        r@ == (EntryView { status, ..start_entry(op@, ts) }),
{
    JournalEntry {
        id: op.id,
        ts,
        op: op.op.kind_name(),
        src: duplicate_path(&op.resolved_src),
        dst: duplicate_path(&op.resolved_dst),
        collision: None,
        status,
        undo: None,
    }
}

impl TransactionManager {
    /// A manager that has done nothing yet.
    pub fn new(mode: TransactionMode, collision_policy: CollisionPolicy, allow_overwrite: bool) -> (tm:
        TransactionManager)
        ensures
            tm@ == TmView::fresh(mode, collision_policy, allow_overwrite),
    {
        let applied: Vec<JournalEntry> = Vec::new();
        assert(applied.deep_view() =~= Seq::<EntryView>::empty());
        TransactionManager { mode, collision_policy, allow_overwrite, applied, phase: Phase::Idle }
    }

    /// The transaction mode.
    pub fn mode(&self) -> (m: TransactionMode)
        ensures
            m == self@.mode,
    {
        self.mode
    }

    /// The number of applied records that a rollback would reverse.
    pub fn applied_count(&self) -> (n: usize)
        ensures
            n == self@.applied.len(),
    {
        self.applied.len()
    }

    /// Has the record written that an operation's protocol calls for.
    fn write_journal(entry: JournalEntry) -> (step: TxStep)
        ensures
            step.deep_view() == TxStepView::Append(entry@),
    {
        TxStep::Append(entry)
    }

    fn fail(
        &mut self,
        op: &NormalizedOp,
        fault: Fault,
        words: String,
        aside: Option<FsPath>,
        now: Timestamp,
    ) -> (step: TxStep)
        ensures
            (final(self)@, step.deep_view()) == old(self)@.fail(
                op@,
                fault,
                words@,
                aside.deep_view(),
                now,
            ),
    {
        let mut record = opening_record(op, JournalStatus::Fail, now);
        match aside {
            Some(backup_path) => {
                record.undo = Some(UndoMetadata::Overwrite { backup_path });
                let kept = record.duplicate();
                self.phase = Phase::Failing { fault, words, kept: Some(kept) };
            },
            None => {
                self.phase = Phase::Failing { fault, words, kept: None };
            },
        }
        Self::write_journal(record)
    }

    /// Where the job that applied `op` has left the existing destination,
    /// if it moved it aside.
    fn aside_of(op: &NormalizedOp, job: &Job) -> (r: Option<FsPath>)
        ensures
            r.deep_view() == moved_aside(op@, job@),
    {
        match (job.decision(), &op.resolved_dst) {
            (Some(d), Some(_)) => {
                if job.stage() >= 2 {
                    duplicate_path(&d.backup)
                } else {
                    None
                }
            },
            _ => None,
        }
    }

    /// Closes the lifecycle of an operation whose job is done: makes its
    /// `Applied` record, with collision details and undo metadata, and has
    /// it written.
    fn record_success(&mut self, op: NormalizedOp, job: &Job, now: Timestamp) -> (step: TxStep)
        ensures
            (final(self)@, step.deep_view()) == old(self)@.after_job(
                op@,
                job@,
                JobStepView::Completed,
                now,
            ),
    {
        let none = Decision { final_dst: None, backup: None };
        let d: &Decision = match job.decision() {
            Some(d) => d,
            None => &none,
        };
        let place = final_place(&op, d);
        let entry = JournalEntry {
            id: op.id,
            ts: now,
            op: op.op.kind_name(),
            src: duplicate_path(&op.resolved_src),
            dst: duplicate_path(&place),
            collision: details(&op, d, self.collision_policy),
            status: JournalStatus::Applied,
            undo: undo_metadata(&op, d),
        };
        let result = OpResult {
            bytes_copied: job.bytes_copied(),
            final_dst: match place {
                Some(p) => p,
                None => FsPath::empty(),
            },
            overwritten: d.backup.is_some(),
            backup_path: duplicate_path(&d.backup),
        };
        let record = entry.duplicate();
        self.phase = Phase::Recording { op, entry, result };
        Self::write_journal(record)
    }

    fn after_job(&mut self, op: NormalizedOp, job: Job, step: JobStep, now: Timestamp) -> (r: TxStep)
        ensures
            (final(self)@, r.deep_view()) == old(self)@.after_job(op@, job@, step.deep_view(), now),
    {
        match step {
            JobStep::Query(q) => {
                self.phase = Phase::Working { op, job };
                TxStep::Query(q)
            },
            JobStep::Act(a) => {
                self.phase = Phase::Working { op, job };
                TxStep::Act(a)
            },
            JobStep::Completed => self.record_success(op, &job, now),
            JobStep::Failed(f, words) => {
                let aside = Self::aside_of(&op, &job);
                self.fail(&op, f, words, aside, now)
            },
        }
    }

    fn after_revert(&mut self, rev: Reverter, step: RevertStep) -> (r: TxStep)
        ensures
            (final(self)@, r.deep_view()) == old(self)@.after_revert(rev@, step.deep_view()),
    {
        match step {
            RevertStep::Query(q) => {
                self.phase = Phase::Reverting { rev };
                TxStep::Query(q)
            },
            RevertStep::Act(a) => {
                self.phase = Phase::Reverting { rev };
                TxStep::Act(a)
            },
            RevertStep::Append(e) => {
                self.phase = Phase::Reverting { rev };
                TxStep::Append(e)
            },
            RevertStep::Finished { reverted, failed } => {
                self.phase = Phase::Idle;
                TxStep::RolledBack { reverted, failed }
            },
            RevertStep::Halted(f, words) => {
                self.phase = Phase::Idle;
                TxStep::Failed(f, words)
            },
        }
    }

    /// Begins the operation `op` at time `now`: returns the request to
    /// write its `Start` record. Refused as out of turn while other work is
    /// under way.
    pub fn execute_at(&mut self, op: NormalizedOp, now: Timestamp) -> (step: TxStep)
        ensures
            (final(self)@, step.deep_view()) == old(self)@.execute(op@, now),
    {
        match &self.phase {
            Phase::Idle => {
                let record = opening_record(&op, JournalStatus::Start, now);
                self.phase = Phase::Starting { op };
                Self::write_journal(record)
            },
            _ => TxStep::Failed(Fault::Protocol, String::new()),
        }
    }

    /// Begins the operation `op` at the current time.
    pub fn execute(&mut self, op: NormalizedOp) -> (step: TxStep)
        ensures
            exists|t: Timestamp| (final(self)@, step.deep_view()) == old(self)@.execute(op@, t),
    {
        let t = now();
        self.execute_at(op, t)
    }

    /// Takes the reply to the last request and returns the next one, or how
    /// the work ended. Records made on the way are stamped with `now`.
    pub fn resume_at(&mut self, reply: Reply, now: Timestamp) -> (step: TxStep)
        ensures
            (final(self)@, step.deep_view()) == old(self)@.resume(reply.deep_view(), now),
    {
        let mut phase = Phase::Idle;
        core::mem::swap(&mut self.phase, &mut phase);
        match phase {
            Phase::Idle => TxStep::Failed(Fault::Protocol, String::new()),
            Phase::Starting { op } => match reply {
                Reply::Performed(_) => {
                    let (job, step) = Job::start(
                        Work::Apply {
                            op: duplicate_op(&op),
                            policy: self.collision_policy,
                            allow_overwrite: self.allow_overwrite,
                        },
                    );
                    self.after_job(op, job, step, now)
                },
                Reply::Refused(words) => TxStep::Failed(Fault::JournalWrite, words),
                _ => TxStep::Failed(Fault::Protocol, String::new()),
            },
            Phase::Working { op, job } => {
                let mut job = job;
                let step = job.resume(reply);
                self.after_job(op, job, step, now)
            },
            Phase::Recording { op, entry, result } => match reply {
                Reply::Performed(_) => {
                    let ghost before = self.applied.deep_view();
                    self.applied.push(entry);
                    assert(self.applied.deep_view() =~= before.push(entry@));
                    TxStep::Applied(result)
                },
                Reply::Refused(words) => self.fail(&op, Fault::JournalWrite, words, None, now),
                _ => self.fail(&op, Fault::Protocol, String::new(), None, now),
            },
            Phase::Failing { fault, words, kept } => {
                if let Some(e) = kept {
                    let ghost before = self.applied.deep_view();
                    self.applied.push(e);
                    assert(self.applied.deep_view() =~= before.push(e@));
                }
                TxStep::Failed(fault, words)
            },
            Phase::Reverting { rev } => {
                let mut rev = rev;
                let step = rev.resume_at(reply, now);
                self.after_revert(rev, step)
            },
        }
    }

    /// Takes the reply to the last request, at the current time.
    pub fn resume(&mut self, reply: Reply) -> (step: TxStep)
        ensures
            exists|t: Timestamp|
                (final(self)@, step.deep_view()) == old(self)@.resume(reply.deep_view(), t),
    {
        let t = now();
        self.resume_at(reply, t)
    }

    /// Begins to reverse the applied operations, the last one first. Every
    /// attempt is recorded: an `Undone` record for an operation that was
    /// reversed, a `Fail` record for one that could not be; the rollback
    /// goes on either way.
    pub fn rollback_at(&mut self, now: Timestamp) -> (step: TxStep)
        ensures
            (final(self)@, step.deep_view()) == old(self)@.rollback(now),
    {
        match &self.phase {
            Phase::Idle => {},
            _ => {
                return TxStep::Failed(Fault::Protocol, String::new());
            },
        }
        let mut taken: Vec<JournalEntry> = Vec::new();
        core::mem::swap(&mut self.applied, &mut taken);
        assert(self.applied.deep_view() =~= Seq::<EntryView>::empty());
        let ghost original = taken.deep_view();
        let mut worklist: Vec<JournalEntry> = Vec::new();
        while taken.len() > 0
            invariant
                taken.len() + worklist.len() == original.len(),
                taken.deep_view() == original.take(taken.len() as int),
                forall|i: int|
                    0 <= i < worklist.len() ==> worklist[i]@ == original[original.len() - 1 - i],
            decreases taken.len(),
        {
            let ghost k = taken.len() as int;
            let ghost before = taken.deep_view();
            let e = taken.pop().unwrap();
            assert(e@ == before[k - 1]);
            assert(taken.deep_view() =~= original.take(k - 1));
            worklist.push(e);
        }
        assert(worklist.deep_view() =~= original.reverse());
        let (rev, step) = Reverter::begin_at(worklist, true, now);
        self.after_revert(rev, step)
    }

    /// Begins the rollback at the current time.
    pub fn rollback(&mut self) -> (step: TxStep)
        ensures
            exists|t: Timestamp| (final(self)@, step.deep_view()) == old(self)@.rollback(t),
    {
        let t = now();
        self.rollback_at(t)
    }

    /// Ends the transaction: returns the record that marks its journal as
    /// committed, under the identifier `id` and the time `now`. Refused as
    /// out of turn while work is under way.
    pub fn commit_at(self, id: u128, now: Timestamp) -> (r: Result<JournalEntry, Fault>)
        ensures
            match r {
                Ok(marker) => self@.phase is Idle && marker@ == (EntryView {
                    id,
                    ts: now,
                    op: commit_kind(),
                    src: None,
                    dst: None,
                    collision: None,
                    status: JournalStatus::Applied,
                    undo: None,
                }),
                Err(f) => !(self@.phase is Idle) && f == Fault::Protocol,
            },
    {
        match &self.phase {
            Phase::Idle => Ok(commit_marker(id, now)),
            _ => Err(Fault::Protocol),
        }
    }

    /// Ends the transaction under a fresh identifier at the current time.
    pub fn commit(self) -> (r: Result<JournalEntry, Fault>)
        ensures
            match r {
                Ok(marker) => self@.phase is Idle && marker@ == (EntryView {
                    id: marker@.id,
                    ts: marker@.ts,
                    op: commit_kind(),
                    src: None,
                    dst: None,
                    collision: None,
                    status: JournalStatus::Applied,
                    undo: None,
                }),
                Err(f) => !(self@.phase is Idle) && f == Fault::Protocol,
            },
    {
        let id = fresh_id();
        let t = now();
        self.commit_at(id, t)
    }
}

/// A copy of a normalized operation.
pub fn duplicate_op(op: &NormalizedOp) -> (r: NormalizedOp)
    ensures
        r@ == op@,
{
    let mut parents: Vec<FsPath> = Vec::new();
    let mut i: usize = 0;
    while i < op.parents.len()
        invariant
            i <= op.parents.len(),
            parents.len() == i,
            forall|j: int| 0 <= j < i ==> parents[j]@ == op.parents[j]@,
        decreases op.parents.len() - i,
    {
        parents.push(op.parents[i].duplicate());
        i = i + 1;
    }
    assert(parents.deep_view() =~= op.parents.deep_view());
    NormalizedOp {
        id: op.id,
        op: op.op.duplicate(),
        resolved_src: duplicate_path(&op.resolved_src),
        resolved_dst: duplicate_path(&op.resolved_dst),
        parents,
    }
}

impl TxStepView {
    /// Whether the step ends a piece of work.
    pub open spec fn ends(self) -> bool {
        self is Applied || self is Failed || self is RolledBack
    }
}

/// The records that reach the journal while the manager, with the request
/// `step` outstanding, is fed the replies of `replies` in order, each with
/// the time at which it comes, until its work ends: a record has reached the
/// journal when the reply to the request to write it says so.
pub open spec fn journal_written(
    tm: TmView,
    step: TxStepView,
    replies: Seq<(ReplyView, Timestamp)>,
) -> Seq<EntryView>
    decreases replies.len(),
{
    if replies.len() == 0 || step.ends() {
        Seq::empty()
    } else {
        let (reply, now) = replies[0];
        let (next, following) = tm.resume(reply, now);
        let rest = journal_written(next, following, replies.drop_first());
        match (step, reply) {
            (TxStepView::Append(e), ReplyView::Performed(_)) => seq![e] + rest,
            _ => rest,
        }
    }
}

/// The step at which the feeding of `replies` stops: the one that ends the
/// work, or the one that is outstanding after the last reply.
pub open spec fn last_step(tm: TmView, step: TxStepView, replies: Seq<(ReplyView, Timestamp)>)
    -> TxStepView
    decreases replies.len(),
{
    if replies.len() == 0 || step.ends() {
        step
    } else {
        let (reply, now) = replies[0];
        let (next, following) = tm.resume(reply, now);
        last_step(next, following, replies.drop_first())
    }
}

/// Whether a record closes the lifecycle of the operation with identifier
/// `id` on its way forward.
pub open spec fn terminal_for(e: EntryView, id: u128) -> bool {
    e.id == id && (e.status == JournalStatus::Applied || e.status == JournalStatus::Fail)
}

/// Where an operation stands once its `Start` record is written.
spec fn under_way(tm: TmView, step: TxStepView, id: u128) -> bool {
    match tm.phase {
        PhaseView::Working { op, .. } => op.id == id && (step is Query || step is Act),
        PhaseView::Recording { op, entry, .. } => op.id == id && step == TxStepView::Append(entry)
            && entry.id == id && entry.status == JournalStatus::Applied,
        PhaseView::Failing { .. } => step matches TxStepView::Append(e) && e.id == id && e.status
            == JournalStatus::Fail,
        PhaseView::Idle => step is Applied || step is Failed,
        _ => false,
    }
}

proof fn lemma_after_start(
    tm: TmView,
    step: TxStepView,
    id: u128,
    replies: Seq<(ReplyView, Timestamp)>,
)
    requires
        under_way(tm, step, id),
    ensures
        journal_written(tm, step, replies).len() <= 1,
        journal_written(tm, step, replies).len() == 1 ==> terminal_for(
            journal_written(tm, step, replies)[0],
            id,
        ),
        last_step(tm, step, replies) is Applied ==> (step is Applied || (journal_written(
            tm,
            step,
            replies,
        ).len() == 1 && journal_written(tm, step, replies)[0].status == JournalStatus::Applied)),
    decreases replies.len(),
{
    if replies.len() > 0 && !step.ends() {
        let (reply, now) = replies[0];
        let (next, following) = tm.resume(reply, now);
        let rest = replies.drop_first();
        assert(under_way(next, following, id));
        lemma_after_start(next, following, id, rest);
        match tm.phase {
            PhaseView::Recording { .. } => {
                if reply is Performed {
                    assert(following.ends());
                    assert(journal_written(next, following, rest).len() == 0);
                }
            },
            PhaseView::Failing { .. } => {
                assert(following.ends());
                assert(journal_written(next, following, rest).len() == 0);
            },
            _ => {},
        }
    }
}

/// Every executed operation leaves in the journal one `Start` record
/// followed by at most one record that closes its lifecycle, `Applied` or
/// `Fail`, both under its identifier, and nothing else. An operation that
/// ends as applied has left exactly the two: its `Start` record and its
/// `Applied` record.
pub proof fn lemma_one_start_one_end(
    tm: TmView,
    op: NormalizedView,
    now: Timestamp,
    replies: Seq<(ReplyView, Timestamp)>,
)
    requires
        tm.phase is Idle,
    ensures
        ({
            let (begun, first) = tm.execute(op, now);
            let journal = journal_written(begun, first, replies);
            &&& journal.len() <= 2
            &&& journal.len() >= 1 ==> journal[0] == start_entry(op, now)
            &&& journal.len() == 2 ==> terminal_for(journal[1], op.id)
            &&& last_step(begun, first, replies) is Applied ==> journal.len() == 2
                && journal[1].status == JournalStatus::Applied
        }),
{
    let (begun, first) = tm.execute(op, now);
    if replies.len() > 0 {
        let (reply, at) = replies[0];
        let (next, following) = begun.resume(reply, at);
        let rest = replies.drop_first();
        if reply is Performed {
            assert(under_way(next, following, op.id));
            lemma_after_start(next, following, op.id, rest);
        } else {
            assert(following.ends());
            assert(journal_written(next, following, rest).len() == 0);
            assert(last_step(next, following, rest) == following);
        }
    }
}

/// A rollback takes every applied record, the last one first, and leaves
/// the manager none: no record is reversed twice.
pub proof fn lemma_rollback_takes_all(tm: TmView, now: Timestamp)
    requires
        tm.phase is Idle,
    ensures
        tm.rollback(now).0.applied.len() == 0,
        tm.rollback(now).0.phase matches PhaseView::Reverting { rev } ==> rev.worklist
            == tm.applied.reverse() && rev.best_effort,
{
    let begun = ReverterView::fresh(tm.applied.reverse(), true);
    let (rev, step) = begun.proceed(now);
    lemma_proceed_keeps(begun, now);
    let cleared = TmView { applied: Seq::empty(), ..tm };
    assert(tm.rollback(now) == cleared.after_revert(rev, step));
    assert(cleared.after_revert(rev, step).0.applied == cleared.applied);
}

/// Going on through the worklist changes neither the worklist nor the way
/// failures are met.
proof fn lemma_proceed_keeps(rev: ReverterView, now: Timestamp)
    ensures
        rev.proceed(now).0.worklist == rev.worklist,
        rev.proceed(now).0.best_effort == rev.best_effort,
    decreases rev.worklist.len() - rev.index,
{
    if !(rev.index >= rev.worklist.len() || rev.index == usize::MAX) {
        if rev.worklist[rev.index as int].undo is None {
            lemma_proceed_keeps(
                ReverterView { index: crate::revert::bump(rev.index), ..rev },
                now,
            );
        } else {
            let (job, step) = JobView::fresh(
                WorkView::Revert { entry: rev.worklist[rev.index as int] },
            ).advance();
            assert(rev.proceed(now) == rev.after_job(job, step, now));
        }
    }
}

} // verus!
