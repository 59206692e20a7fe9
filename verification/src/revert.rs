//! Reversing journal records, one after the other.
//!
//! Rollback inside a failing transaction and undo from a journal are the
//! same work: take the records in the order given, reverse each one that
//! carries undo metadata, and have a record written for it. They differ in
//! what a failure means. Rollback is best effort: a record that cannot be
//! reversed gets a `Fail` record and the work goes on. Undo halts at the
//! first record that cannot be reversed or whose `Undone` record cannot be
//! written.

use crate::clock::Timestamp;
use crate::facts::{FsQuery, QueryView};
use crate::fault::Fault;
use crate::fsops::{ActionView, FsAction};
use crate::job::{Job, JobStep, JobStepView, JobView, Reply, ReplyView, Work, WorkView};
use crate::journal::{EntryView, JournalEntry};
use vstd::prelude::*;
use vstd::string::*;

verus! {

/// What the caller is to do next, or how the work ended.
#[derive(Debug, Clone, PartialEq, Eq)]
pub enum RevertStep {
    /// Answer this query.
    Query(FsQuery),
    /// Perform this action.
    Act(FsAction),
    /// Write this record to the journal.
    Append(JournalEntry),
    /// Every record was gone through; with the number of records reversed
    /// and the number of records that could not be.
    Finished { reverted: usize, failed: usize },
    /// The work was given up at a record.
    Halted(Fault, String),
}

/// The mathematical value of a [`RevertStep`].
pub enum RevertStepView {
    Query(QueryView),
    Act(ActionView),
    Append(EntryView),
    Finished { reverted: usize, failed: usize },
    Halted(Fault, Seq<char>),
}

impl DeepView for RevertStep {
    type V = RevertStepView;

    open spec fn deep_view(&self) -> RevertStepView {
        match self {
            RevertStep::Query(q) => RevertStepView::Query(q.deep_view()),
            RevertStep::Act(a) => RevertStepView::Act(a.deep_view()),
            RevertStep::Append(e) => RevertStepView::Append(e@),
            RevertStep::Finished { reverted, failed } => RevertStepView::Finished {
                reverted: *reverted,
                failed: *failed,
            },
            RevertStep::Halted(f, w) => RevertStepView::Halted(*f, w@),
        }
    }
}

/// The mathematical value of a [`Reverter`].
pub struct ReverterView {
    /// The records to go through, in order.
    pub worklist: Seq<EntryView>,
    /// The index of the record that is being reversed.
    pub index: usize,
    /// Whether a failure is recorded and passed over.
    pub best_effort: bool,
    /// The job that reverses the current record.
    pub job: Option<JobView>,
    /// Whether the record for the current entry is being written, and if
    /// so, whether it says that the entry was reversed.
    pub marking: Option<bool>,
    pub reverted: usize,
    pub failed: usize,
}

/// One more, as far as the counter goes.
pub open spec fn bump(n: usize) -> usize {
    if n < usize::MAX {
        (n + 1) as usize
    } else {
        n
    }
}

impl ReverterView {
    /// The state before the first record.
    pub open spec fn fresh(worklist: Seq<EntryView>, best_effort: bool) -> ReverterView {
        ReverterView {
            worklist,
            index: 0,
            best_effort,
            job: None,
            marking: None,
            reverted: 0,
            failed: 0,
        }
    }

    /// What follows when the job of the current record has taken a step.
    pub open spec fn after_job(self, job: JobView, step: JobStepView, now: Timestamp) -> (
        ReverterView,
        RevertStepView,
    ) {
        let entry = self.worklist[self.index as int];
        match step {
            JobStepView::Query(q) => (
                ReverterView { job: Some(job), ..self },
                RevertStepView::Query(q),
            ),
            JobStepView::Act(a) => (ReverterView { job: Some(job), ..self }, RevertStepView::Act(a)),
            JobStepView::Completed => (
                ReverterView { job: None, marking: Some(true), ..self },
                RevertStepView::Append(entry.undone(now)),
            ),
            JobStepView::Failed(f, words) => if self.best_effort {
                (
                    ReverterView { job: None, marking: Some(false), ..self },
                    RevertStepView::Append(entry.unreverted(now)),
                )
            } else {
                (
                    ReverterView { job: None, index: self.worklist.len() as usize, ..self },
                    RevertStepView::Halted(f, words),
                )
            },
        }
    }

    /// Goes on from the current index, with no job under way: passes over
    /// the records without undo metadata and begins the job of the first
    /// record that has some.
    pub open spec fn proceed(self, now: Timestamp) -> (ReverterView, RevertStepView)
        decreases self.worklist.len() - self.index,
    {
        if self.index >= self.worklist.len() || self.index == usize::MAX {
            (self, RevertStepView::Finished { reverted: self.reverted, failed: self.failed })
        } else if self.worklist[self.index as int].undo is None {
            (ReverterView { index: bump(self.index), ..self }).proceed(now)
        } else {
            let (job, step) = JobView::fresh(
                WorkView::Revert { entry: self.worklist[self.index as int] },
            ).advance();
            self.after_job(job, step, now)
        }
    }

    /// What the reverter does with a reply.
    pub open spec fn resume(self, reply: ReplyView, now: Timestamp) -> (
        ReverterView,
        RevertStepView,
    ) {
        match (self.marking, self.job) {
            (Some(done), _) => match reply {
                ReplyView::Refused(words) if !self.best_effort => (
                    ReverterView { marking: None, index: self.worklist.len() as usize, ..self },
                    RevertStepView::Halted(Fault::JournalWrite, words),
                ),
                _ => (ReverterView {
                    marking: None,
                    index: bump(self.index),
                    reverted: if done {
                        bump(self.reverted)
                    } else {
                        self.reverted
                    },
                    failed: if done {
                        self.failed
                    } else {
                        bump(self.failed)
                    },
                    ..self
                }).proceed(now),
            },
            (None, Some(job)) => if self.index < self.worklist.len() {
                let (next, step) = job.resume(reply);
                self.after_job(next, step, now)
            } else {
                (self, RevertStepView::Halted(Fault::Protocol, Seq::empty()))
            },
            (None, None) => (self, RevertStepView::Halted(Fault::Protocol, Seq::empty())),
        }
    }
}

/// The reversal of a list of journal records, in progress.
#[derive(Debug, Clone)]
pub struct Reverter {
    worklist: Vec<JournalEntry>,
    index: usize,
    best_effort: bool,
    job: Option<Job>,
    marking: Option<bool>,
    reverted: usize,
    failed: usize,
}

impl View for Reverter {
    type V = ReverterView;

    closed spec fn view(&self) -> ReverterView {
        ReverterView {
            worklist: self.worklist.deep_view(),
            index: self.index,
            best_effort: self.best_effort,
            job: match self.job {
                Some(j) => Some(j@),
                None => None,
            },
            marking: self.marking,
            reverted: self.reverted,
            failed: self.failed,
        }
    }
}

fn bumped(n: usize) -> (r: usize)
    ensures
        r == bump(n),
{
    if n < usize::MAX {
        n + 1
    } else {
        n
    }
}

impl Reverter {
    /// Begins to reverse the records of `worklist` in the order given, as
    /// rollback does if `best_effort`, else as undo does.
    pub fn begin_at(worklist: Vec<JournalEntry>, best_effort: bool, now: Timestamp) -> (r: (
        Reverter,
        RevertStep,
    ))
        ensures
            (r.0@, r.1.deep_view()) == ReverterView::fresh(
                worklist.deep_view(),
                best_effort,
            ).proceed(now),
    {
        let mut rev = Reverter {
            worklist,
            index: 0,
            best_effort,
            job: None,
            marking: None,
            reverted: 0,
            failed: 0,
        };
        let step = rev.proceed(now);
        (rev, step)
    }

    fn after_job(&mut self, job: Job, step: JobStep, now: Timestamp) -> (r: RevertStep)
        requires
            old(self).index < old(self).worklist.len(),
        ensures
            (final(self)@, r.deep_view()) == old(self)@.after_job(job@, step.deep_view(), now),
    {
        assert(self.worklist.deep_view()[self.index as int] == self.worklist[self.index as int]@);
        match step {
            JobStep::Query(q) => {
                self.job = Some(job);
                RevertStep::Query(q)
            },
            JobStep::Act(a) => {
                self.job = Some(job);
                RevertStep::Act(a)
            },
            JobStep::Completed => {
                self.job = None;
                self.marking = Some(true);
                RevertStep::Append(self.worklist[self.index].undone(now))
            },
            JobStep::Failed(f, words) => {
                self.job = None;
                if self.best_effort {
                    self.marking = Some(false);
                    RevertStep::Append(self.worklist[self.index].unreverted(now))
                } else {
                    self.index = self.worklist.len();
                    RevertStep::Halted(f, words)
                }
            },
        }
    }

    fn proceed(&mut self, now: Timestamp) -> (r: RevertStep)
        ensures
            (final(self)@, r.deep_view()) == old(self)@.proceed(now),
    {
        loop
            invariant
                self@.proceed(now) == old(self)@.proceed(now),
            decreases self.worklist.len() - self.index,
        {
            if self.index >= self.worklist.len() {
                return RevertStep::Finished { reverted: self.reverted, failed: self.failed };
            }
            assert(self.worklist.deep_view()[self.index as int]
                == self.worklist[self.index as int]@);
            if self.worklist[self.index].undo.is_none() {
                self.index = self.index + 1;
            } else {
                let entry = self.worklist[self.index].duplicate();
                let (job, step) = Job::start(Work::Revert { entry });
                return self.after_job(job, step, now);
            }
        }
    }

    /// Takes the reply to the last request and goes on, stamping any record
    /// it makes with `now`.
    pub fn resume_at(&mut self, reply: Reply, now: Timestamp) -> (r: RevertStep)
        ensures
            (final(self)@, r.deep_view()) == old(self)@.resume(reply.deep_view(), now),
    {
        if let Some(done) = self.marking {
            if !self.best_effort {
                if let Reply::Refused(words) = reply {
                    self.marking = None;
                    self.index = self.worklist.len();
                    return RevertStep::Halted(Fault::JournalWrite, words);
                }
            }
            self.marking = None;
            self.index = bumped(self.index);
            if done {
                self.reverted = bumped(self.reverted);
            } else {
                self.failed = bumped(self.failed);
            }
            self.proceed(now)
        } else if self.job.is_some() && self.index < self.worklist.len() {
            let mut job = self.job.take().unwrap();
            let step = job.resume(reply);
            self.after_job(job, step, now)
        } else {
            RevertStep::Halted(Fault::Protocol, String::new())
        }
    }
}

impl RevertStepView {
    /// Whether the step ends the work.
    pub open spec fn ends(self) -> bool {
        self is Finished || self is Halted
    }
}

/// The records that the reverter asks to have written while it is fed the
/// replies of `replies` in order, the request `step` being outstanding,
/// until its work ends.
pub open spec fn records_requested(
    rev: ReverterView,
    step: RevertStepView,
    replies: Seq<(ReplyView, Timestamp)>,
) -> Seq<EntryView>
    decreases replies.len(),
{
    let head = match step {
        RevertStepView::Append(e) => seq![e],
        _ => Seq::empty(),
    };
    if replies.len() == 0 || step.ends() {
        head
    } else {
        let (reply, now) = replies[0];
        let (next, following) = rev.resume(reply, now);
        head + records_requested(next, following, replies.drop_first())
    }
}

/// The step at which the feeding of `replies` stops.
pub open spec fn final_step(
    rev: ReverterView,
    step: RevertStepView,
    replies: Seq<(ReplyView, Timestamp)>,
) -> RevertStepView
    decreases replies.len(),
{
    if replies.len() == 0 || step.ends() {
        step
    } else {
        let (reply, now) = replies[0];
        let (next, following) = rev.resume(reply, now);
        final_step(next, following, replies.drop_first())
    }
}

/// The records of the worklist from index `i` on that carry undo metadata,
/// in order.
pub open spec fn reversible_from(worklist: Seq<EntryView>, i: int) -> Seq<EntryView>
    decreases worklist.len() - i,
{
    if i < 0 || i >= worklist.len() {
        Seq::empty()
    } else if worklist[i].undo is Some {
        seq![worklist[i]] + reversible_from(worklist, i + 1)
    } else {
        reversible_from(worklist, i + 1)
    }
}

/// Whether `record` says what became of the attempt to reverse `entry`: it
/// is the entry's `Undone` record or its `Fail` record.
pub open spec fn accounts_for(record: EntryView, entry: EntryView) -> bool {
    exists|ts: Timestamp| record == entry.undone(ts) || record == entry.unreverted(ts)
}

/// Whether the records account for the entries one for one, in order.
pub open spec fn account_for_all(records: Seq<EntryView>, entries: Seq<EntryView>) -> bool {
    &&& records.len() == entries.len()
    &&& forall|k: int| 0 <= k < records.len() ==> accounts_for(#[trigger] records[k], entries[k])
}

/// The states of a rollback between two steps.
spec fn at_work(rev: ReverterView, step: RevertStepView) -> bool {
    &&& rev.best_effort
    &&& rev.index < rev.worklist.len()
    &&& rev.index < usize::MAX
    &&& rev.worklist[rev.index as int].undo is Some
    &&& match step {
        RevertStepView::Query(_) | RevertStepView::Act(_) => rev.marking is None && rev.job is Some,
        RevertStepView::Append(e) => rev.marking is Some && accounts_for(
            e,
            rev.worklist[rev.index as int],
        ),
        _ => false,
    }
}

/// What is still to be accounted for in a state of a rollback.
spec fn outstanding(rev: ReverterView, step: RevertStepView) -> Seq<EntryView> {
    if step is Finished {
        Seq::empty()
    } else {
        reversible_from(rev.worklist, rev.index as int)
    }
}

proof fn lemma_after_job_at_work(rev: ReverterView, job: JobView, step: JobStepView, now: Timestamp)
    requires
        rev.best_effort,
        rev.marking is None,
        rev.index < rev.worklist.len(),
        rev.index < usize::MAX,
        rev.worklist[rev.index as int].undo is Some,
    ensures
        at_work(rev.after_job(job, step, now).0, rev.after_job(job, step, now).1),
        rev.after_job(job, step, now).0.worklist == rev.worklist,
        rev.after_job(job, step, now).0.index == rev.index,
{
    let entry = rev.worklist[rev.index as int];
    match step {
        JobStepView::Completed => {
            assert(accounts_for(entry.undone(now), entry));
        },
        JobStepView::Failed(_, _) => {
            assert(accounts_for(entry.unreverted(now), entry));
        },
        _ => {},
    }
}

proof fn lemma_proceed_at_work(rev: ReverterView, now: Timestamp)
    requires
        rev.best_effort,
        rev.marking is None,
        rev.worklist.len() <= usize::MAX,
    ensures
        rev.proceed(now).1 is Finished || at_work(rev.proceed(now).0, rev.proceed(now).1),
        rev.proceed(now).0.worklist == rev.worklist,
        outstanding(rev.proceed(now).0, rev.proceed(now).1) == reversible_from(
            rev.worklist,
            rev.index as int,
        ),
    decreases rev.worklist.len() - rev.index,
{
    if rev.index >= rev.worklist.len() || rev.index == usize::MAX {
    } else if rev.worklist[rev.index as int].undo is None {
        lemma_proceed_at_work(ReverterView { index: bump(rev.index), ..rev }, now);
    } else {
        let (job, step) = JobView::fresh(
            WorkView::Revert { entry: rev.worklist[rev.index as int] },
        ).advance();
        lemma_after_job_at_work(rev, job, step, now);
    }
}

/// One reply takes a rollback from one state between steps to the next:
/// after the reply to a request to write a record, the entry of that record
/// is accounted for; after any other reply, what is outstanding is as
/// before.
proof fn lemma_resume_at_work(
    rev: ReverterView,
    step: RevertStepView,
    reply: ReplyView,
    now: Timestamp,
)
    requires
        at_work(rev, step),
        rev.worklist.len() <= usize::MAX,
    ensures
        rev.resume(reply, now).1 is Finished || at_work(
            rev.resume(reply, now).0,
            rev.resume(reply, now).1,
        ),
        rev.resume(reply, now).0.worklist == rev.worklist,
        outstanding(rev.resume(reply, now).0, rev.resume(reply, now).1) == reversible_from(
            rev.worklist,
            if step is Append {
                rev.index as int + 1
            } else {
                rev.index as int
            },
        ),
{
    if step is Append {
        let done = rev.marking->0;
        let moved = ReverterView {
            marking: None,
            index: bump(rev.index),
            reverted: if done {
                bump(rev.reverted)
            } else {
                rev.reverted
            },
            failed: if done {
                rev.failed
            } else {
                bump(rev.failed)
            },
            ..rev
        };
        assert(rev.resume(reply, now) == moved.proceed(now));
        lemma_proceed_at_work(moved, now);
    } else {
        let job = rev.job->0;
        let (moved, stepped) = job.resume(reply);
        assert(rev.resume(reply, now) == rev.after_job(moved, stepped, now));
        lemma_after_job_at_work(rev, moved, stepped, now);
    }
}

proof fn lemma_accounted(rev: ReverterView, step: RevertStepView, replies: Seq<(ReplyView, Timestamp)>)
    requires
        step is Finished || at_work(rev, step),
        rev.worklist.len() <= usize::MAX,
        final_step(rev, step, replies) is Finished,
    ensures
        account_for_all(records_requested(rev, step, replies), outstanding(rev, step)),
    decreases replies.len(),
{
    if replies.len() > 0 && !step.ends() {
        let (reply, now) = replies[0];
        let (next, following) = rev.resume(reply, now);
        let rest = replies.drop_first();
        lemma_resume_at_work(rev, step, reply, now);
        lemma_accounted(next, following, rest);
        let tail = records_requested(next, following, rest);
        match step {
            RevertStepView::Append(e) => {
                let entry = rev.worklist[rev.index as int];
                let later = reversible_from(rev.worklist, rev.index as int + 1);
                assert(outstanding(rev, step) == seq![entry] + later);
                assert(records_requested(rev, step, replies) == seq![e] + tail);
                assert forall|k: int| 0 <= k < (seq![e] + tail).len() implies accounts_for(
                    #[trigger] (seq![e] + tail)[k],
                    (seq![entry] + later)[k],
                ) by {
                    if k > 0 {
                        assert((seq![e] + tail)[k] == tail[k - 1]);
                        assert((seq![entry] + later)[k] == later[k - 1]);
                    }
                }
            },
            _ => {
                assert(records_requested(rev, step, replies) =~= tail);
            },
        }
    }
}

/// A rollback that goes through to its end accounts for every record of
/// its worklist that carries undo metadata, one for one and in the order of
/// the worklist: for each it has asked to have written either the `Undone`
/// record, if the record was reversed, or the `Fail` record, if it could not
/// be. No attempt goes unrecorded, whatever its outcome.
pub proof fn lemma_every_attempt_recorded(
    worklist: Seq<EntryView>,
    now: Timestamp,
    replies: Seq<(ReplyView, Timestamp)>,
)
    requires
        worklist.len() <= usize::MAX,
        ({
            let (rev, step) = ReverterView::fresh(worklist, true).proceed(now);
            final_step(rev, step, replies) is Finished
        }),
    ensures
        ({
            let (rev, step) = ReverterView::fresh(worklist, true).proceed(now);
            account_for_all(records_requested(rev, step, replies), reversible_from(worklist, 0))
        }),
{
    let begun = ReverterView::fresh(worklist, true);
    lemma_proceed_at_work(begun, now);
    let (rev, step) = begun.proceed(now);
    lemma_accounted(rev, step, replies);
}

} // verus!
