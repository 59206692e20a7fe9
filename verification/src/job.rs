//! One unit of work on the file system: an operation applied, or a journal
//! record reversed.
//!
//! A job is a small machine. It asks the queries that its planning needs,
//! hands out the actions of each plan one by one, and ends as completed or
//! as failed. It goes through three stages. What a stage has learned of the
//! file system is forgotten once the stage has changed it, so that every
//! plan is made from what the file system is when the plan is made.
//!
//! Applying an operation: the collision policy decides the final
//! destination; then the existing destination is moved aside, if the policy
//! asked for a backup; then the primitive runs. Reversing a record: the
//! first step of the inverse, then its second step if it has one.

use crate::facts::{
    FactsView, FsFacts, FsQuery, Outcome, OutcomeView, QueryView, Stat, WalkEntry, WalkEntryView,
};
use crate::fault::Fault;
use crate::fsops::{
    cp, cp_plan, delete, delete_plan, lemma_plans_stable, mkdir, mkdir_plan, mv, mv_plan,
    quarantine, trash, trash_plan, ActionView, FsAction,
};
use crate::journal::{EntryView, JournalEntry, UndoMetadata, UndoView};
use crate::model::{CollisionPolicy, Operation, OperationView};
use crate::path::{FsPath, PathView};
use crate::policy::{collision, lemma_collision_stable, resolve_collision};
use crate::validate::{NormalizedOp, NormalizedView};
use vstd::prelude::*;
use vstd::string::*;

verus! {

/// The number of stages of a job.
pub const STAGES: u8 = 3;

/// What the collision policy decided for an operation.
#[derive(Debug, Clone, PartialEq, Eq)]
pub struct Decision {
    /// The final destination; none for an operation without a destination.
    pub final_dst: Option<FsPath>,
    /// Where the existing destination is moved to first, if anywhere.
    pub backup: Option<FsPath>,
}

/// The mathematical value of a [`Decision`].
pub struct DecisionView {
    pub final_dst: Option<PathView>,
    pub backup: Option<PathView>,
}

impl DeepView for Decision {
    type V = DecisionView;

    open spec fn deep_view(&self) -> DecisionView {
        DecisionView { final_dst: self.final_dst.deep_view(), backup: self.backup.deep_view() }
    }
}

/// What a job is for.
#[derive(Debug, Clone, PartialEq, Eq)]
pub enum Work {
    /// Apply an operation under a collision policy.
    Apply { op: NormalizedOp, policy: CollisionPolicy, allow_overwrite: bool },
    /// Reverse what a journal record says was done.
    Revert { entry: JournalEntry },
}

/// The mathematical value of [`Work`].
pub enum WorkView {
    Apply { op: NormalizedView, policy: CollisionPolicy, allow_overwrite: bool },
    Revert { entry: EntryView },
}

impl DeepView for Work {
    type V = WorkView;

    open spec fn deep_view(&self) -> WorkView {
        match self {
            Work::Apply { op, policy, allow_overwrite } => WorkView::Apply {
                op: op@,
                policy: *policy,
                allow_overwrite: *allow_overwrite,
            },
            Work::Revert { entry } => WorkView::Revert { entry: entry@ },
        }
    }
}

/// What the caller hands back after a request.
#[derive(Debug, Clone, PartialEq, Eq)]
pub enum Reply {
    /// The answer to a `Canonical` query.
    Canonical(Option<FsPath>),
    /// The answer to a `Stat` query.
    Stat(Stat),
    /// The answer to a `Walk` query.
    Walk(Option<Vec<WalkEntry>>),
    /// The answer to a `Content` query.
    Content(Option<Vec<u8>>),
    /// The action was performed, or the record was written; with the number
    /// of bytes that a copy wrote.
    Performed(u64),
    /// The action or the write failed; with the words of the failure.
    Refused(String),
}

/// The mathematical value of a [`Reply`].
pub enum ReplyView {
    Canonical(Option<PathView>),
    Stat(Stat),
    Walk(Option<Seq<WalkEntryView>>),
    Content(Option<Seq<u8>>),
    Performed(u64),
    Refused(Seq<char>),
}

impl DeepView for Reply {
    type V = ReplyView;

    open spec fn deep_view(&self) -> ReplyView {
        match self {
            Reply::Canonical(a) => ReplyView::Canonical(a.deep_view()),
            Reply::Stat(a) => ReplyView::Stat(*a),
            Reply::Walk(a) => ReplyView::Walk(a.deep_view()),
            Reply::Content(a) => ReplyView::Content(a.deep_view()),
            Reply::Performed(n) => ReplyView::Performed(*n),
            Reply::Refused(s) => ReplyView::Refused(s@),
        }
    }
}

/// What a job has its caller do next, or how it ended.
#[derive(Debug, Clone, PartialEq, Eq)]
pub enum JobStep {
    /// Answer this query.
    Query(FsQuery),
    /// Perform this action.
    Act(FsAction),
    /// The job is done.
    Completed,
    /// The job failed; with the words of the file system where it refused
    /// an action.
    Failed(Fault, String),
}

/// The mathematical value of a [`JobStep`].
pub enum JobStepView {
    Query(QueryView),
    Act(ActionView),
    Completed,
    Failed(Fault, Seq<char>),
}

impl DeepView for JobStep {
    type V = JobStepView;

    open spec fn deep_view(&self) -> JobStepView {
        match self {
            JobStep::Query(q) => JobStepView::Query(q.deep_view()),
            JobStep::Act(a) => JobStepView::Act(a.deep_view()),
            JobStep::Completed => JobStepView::Completed,
            JobStep::Failed(f, s) => JobStepView::Failed(*f, s@),
        }
    }
}

/// What one stage plans: a decision, or actions to perform.
pub enum StagePlan {
    Decided(DecisionView),
    Script(Seq<ActionView>),
}

/// What the collision policy decides for an operation. An operation without
/// a destination has nothing to collide with.
pub open spec fn decide(
    facts: FactsView,
    op: NormalizedView,
    policy: CollisionPolicy,
    allow_overwrite: bool,
) -> OutcomeView<DecisionView> {
    match op.resolved_dst {
        None => OutcomeView::Done(DecisionView { final_dst: None, backup: None }),
        Some(dst) => match collision(facts, policy, dst, allow_overwrite, op.resolved_src) {
            OutcomeView::Ask(q) => OutcomeView::Ask(q),
            OutcomeView::Fail(f) => OutcomeView::Fail(f),
            OutcomeView::Done((final_dst, backup)) => OutcomeView::Done(
                DecisionView { final_dst: Some(final_dst), backup },
            ),
        },
    }
}

/// The plan that moves an existing destination aside.
pub open spec fn backup_plan(facts: FactsView, op: NormalizedView, d: DecisionView) -> OutcomeView<
    Seq<ActionView>,
> {
    match (op.resolved_dst, d.backup) {
        (Some(dst), Some(backup)) => mv_plan(facts, dst, backup, false),
        _ => OutcomeView::Done(Seq::empty()),
    }
}

/// The plan of the primitive that an operation stands for, on its resolved
/// source and its final destination.
pub open spec fn primary_plan(facts: FactsView, op: NormalizedView, d: DecisionView) -> OutcomeView<
    Seq<ActionView>,
> {
    match op.op {
        OperationView::Mkdir { parents, .. } => match d.final_dst {
            Some(dst) => mkdir_plan(facts, dst, parents),
            None => OutcomeView::Fail(Fault::Unresolved),
        },
        OperationView::Move { cross_device, .. } => match (op.resolved_src, d.final_dst) {
            (Some(src), Some(dst)) => mv_plan(facts, src, dst, cross_device),
            _ => OutcomeView::Fail(Fault::Unresolved),
        },
        OperationView::Rename { .. } => match (op.resolved_src, d.final_dst) {
            (Some(src), Some(dst)) => mv_plan(facts, src, dst, false),
            _ => OutcomeView::Fail(Fault::Unresolved),
        },
        OperationView::Copy { recursive, .. } => match (op.resolved_src, d.final_dst) {
            (Some(src), Some(dst)) => cp_plan(facts, src, dst, recursive),
            _ => OutcomeView::Fail(Fault::Unresolved),
        },
        OperationView::Trash { .. } => match op.resolved_src {
            Some(src) => trash_plan(facts, src),
            None => OutcomeView::Fail(Fault::Unresolved),
        },
    }
}

/// The plan of one step of the inverse that a record carries. A record
/// without undo metadata has nothing to reverse.
pub open spec fn revert_plan(facts: FactsView, e: EntryView, stage: int) -> OutcomeView<
    Seq<ActionView>,
> {
    match e.undo {
        None => OutcomeView::Done(Seq::empty()),
        Some(UndoView::Move { original_src }) => if stage != 0 {
            OutcomeView::Done(Seq::empty())
        } else {
            match e.dst {
                Some(dst) => mv_plan(facts, dst, original_src, false),
                None => OutcomeView::Fail(Fault::MissingDestination),
            }
        },
        Some(UndoView::Copy { created_dst }) => if stage != 0 {
            OutcomeView::Done(Seq::empty())
        } else {
            delete_plan(facts, created_dst)
        },
        Some(UndoView::Mkdir { created_dir }) => if stage != 0 {
            OutcomeView::Done(Seq::empty())
        } else {
            OutcomeView::Done(seq![ActionView::RemoveDir(created_dir)])
        },
        Some(UndoView::Overwrite { backup_path }) => if stage != 0 {
            OutcomeView::Done(Seq::empty())
        } else {
            match e.dst {
                Some(dst) => mv_plan(facts, backup_path, dst, false),
                None => OutcomeView::Fail(Fault::MissingDestination),
            }
        },
        Some(UndoView::MoveWithOverwrite { original_src, backup_path }) => match e.dst {
            None => OutcomeView::Fail(Fault::MissingDestination),
            Some(dst) => if stage == 0 {
                mv_plan(facts, dst, original_src, false)
            } else if stage == 1 {
                mv_plan(facts, backup_path, dst, false)
            } else {
                OutcomeView::Done(Seq::empty())
            },
        },
        Some(UndoView::CopyWithOverwrite { created_dst, backup_path }) => if stage == 0 {
            delete_plan(facts, created_dst)
        } else if stage == 1 {
            mv_plan(facts, backup_path, created_dst, false)
        } else {
            OutcomeView::Done(Seq::empty())
        },
    }
}

/// What a stage plans.
pub open spec fn stage_plan(
    facts: FactsView,
    work: WorkView,
    stage: int,
    decision: Option<DecisionView>,
) -> OutcomeView<StagePlan> {
    let script: OutcomeView<Seq<ActionView>> = match work {
        WorkView::Revert { entry } => revert_plan(facts, entry, stage),
        WorkView::Apply { op, policy, allow_overwrite } => match decision {
            None => OutcomeView::Fail(Fault::Unresolved),
            Some(d) => if stage == 1 {
                backup_plan(facts, op, d)
            } else {
                primary_plan(facts, op, d)
            },
        },
    };
    match work {
        WorkView::Apply { op, policy, allow_overwrite } if stage == 0 => match decide(
            facts,
            op,
            policy,
            allow_overwrite,
        ) {
            OutcomeView::Ask(q) => OutcomeView::Ask(q),
            OutcomeView::Fail(f) => OutcomeView::Fail(f),
            OutcomeView::Done(d) => OutcomeView::Done(StagePlan::Decided(d)),
        },
        _ => match script {
            OutcomeView::Ask(q) => OutcomeView::Ask(q),
            OutcomeView::Fail(f) => OutcomeView::Fail(f),
            OutcomeView::Done(s) => OutcomeView::Done(StagePlan::Script(s)),
        },
    }
}

/// The mathematical value of a [`Job`].
pub struct JobView {
    pub work: WorkView,
    pub stage: int,
    pub decision: Option<DecisionView>,
    pub facts: FactsView,
    pub asked: Option<QueryView>,
    pub script: Seq<ActionView>,
    pub next: int,
    pub bytes: u64,
}

impl JobView {
    /// A job that has not begun.
    pub open spec fn fresh(work: WorkView) -> JobView {
        JobView {
            work,
            stage: 0,
            decision: None,
            facts: FactsView::empty(),
            asked: None,
            script: Seq::empty(),
            next: 0,
            bytes: 0,
        }
    }

    /// The job at the start of the stage after this one, the file system
    /// having changed.
    pub open spec fn next_stage(self) -> JobView {
        JobView {
            stage: if self.stage < STAGES {
                self.stage + 1
            } else {
                self.stage
            },
            facts: FactsView::empty(),
            script: Seq::empty(),
            next: 0,
            ..self
        }
    }

    /// Whether an action of the current stage is being performed.
    pub open spec fn running(self) -> bool {
        0 <= self.next < self.script.len()
    }

    /// Plans from the current stage on until something has to be asked or
    /// done, or the job ends.
    pub open spec fn advance(self) -> (JobView, JobStepView)
        decreases STAGES - self.stage,
    {
        if self.stage < 0 || self.stage >= STAGES {
            (self, JobStepView::Completed)
        } else {
            match stage_plan(self.facts, self.work, self.stage, self.decision) {
                OutcomeView::Ask(q) => (JobView { asked: Some(q), ..self }, JobStepView::Query(q)),
                OutcomeView::Fail(f) => (self, JobStepView::Failed(f, Seq::empty())),
                OutcomeView::Done(StagePlan::Decided(d)) => (JobView {
                    decision: Some(d),
                    stage: self.stage + 1,
                    ..self
                }).advance(),
                OutcomeView::Done(StagePlan::Script(s)) => if s.len() == 0 {
                    (JobView { stage: self.stage + 1, script: s, next: 0, ..self }).advance()
                } else {
                    (JobView { script: s, next: 0, ..self }, JobStepView::Act(s[0]))
                },
            }
        }
    }

    /// The facts with the answer in `reply` recorded for the query `q`;
    /// none if the reply is no answer to such a query.
    pub open spec fn learn(facts: FactsView, q: QueryView, reply: ReplyView) -> Option<FactsView> {
        match (q, reply) {
            (QueryView::Canonical(p), ReplyView::Canonical(a)) => Some(
                FactsView { canonical: facts.canonical.insert(p, a), ..facts },
            ),
            (QueryView::Stat(p), ReplyView::Stat(a)) => Some(
                FactsView { stat: facts.stat.insert(p, a), ..facts },
            ),
            (QueryView::Walk(p), ReplyView::Walk(a)) => Some(
                FactsView { walk: facts.walk.insert(p, a), ..facts },
            ),
            (QueryView::Content(p), ReplyView::Content(a)) => Some(
                FactsView { content: facts.content.insert(p, a), ..facts },
            ),
            _ => None,
        }
    }

    /// What the job does with a reply.
    pub open spec fn resume(self, reply: ReplyView) -> (JobView, JobStepView) {
        match self.asked {
            Some(q) => match Self::learn(self.facts, q, reply) {
                Some(facts) => (JobView { facts, asked: None, ..self }).advance(),
                None => (self, JobStepView::Failed(Fault::Protocol, Seq::empty())),
            },
            None => if self.running() {
                match reply {
                    ReplyView::Performed(n) => {
                        let bytes = if self.bytes + n > u64::MAX {
                            u64::MAX
                        } else {
                            (self.bytes + n) as u64
                        };
                        if self.next + 1 < self.script.len() {
                            (
                                JobView { next: self.next + 1, bytes, ..self },
                                JobStepView::Act(self.script[self.next + 1]),
                            )
                        } else {
                            (JobView { bytes, ..self }).next_stage().advance()
                        }
                    },
                    ReplyView::Refused(words) => (self, JobStepView::Failed(Fault::Io, words)),
                    _ => (self, JobStepView::Failed(Fault::Protocol, Seq::empty())),
                }
            } else {
                (self, JobStepView::Failed(Fault::Protocol, Seq::empty()))
            },
        }
    }
}

/// One unit of work in progress.
#[derive(Debug, Clone)]
pub struct Job {
    work: Work,
    stage: u8,
    decision: Option<Decision>,
    facts: FsFacts,
    asked: Option<FsQuery>,
    script: Vec<FsAction>,
    next: usize,
    bytes: u64,
}

impl View for Job {
    type V = JobView;

    closed spec fn view(&self) -> JobView {
        JobView {
            work: self.work.deep_view(),
            stage: self.stage as int,
            decision: self.decision.deep_view(),
            facts: self.facts@,
            asked: self.asked.deep_view(),
            script: self.script.deep_view(),
            next: self.next as int,
            bytes: self.bytes,
        }
    }
}

fn empty_script() -> (s: Vec<FsAction>)
    ensures
        s.deep_view() == Seq::<ActionView>::empty(),
{
    let s: Vec<FsAction> = Vec::new();
    assert(s.deep_view() =~= Seq::<ActionView>::empty());
    s
}

fn decide_for(op: &NormalizedOp, policy: CollisionPolicy, allow_overwrite: bool, facts: &FsFacts)
    -> (r: Outcome<Decision>)
    ensures
        r.deep_view() == decide(facts@, op@, policy, allow_overwrite),
{
    match &op.resolved_dst {
        None => Outcome::Done(Decision { final_dst: None, backup: None }),
        Some(dst) => {
            let src: Option<&FsPath> = match &op.resolved_src {
                Some(s) => Some(s),
                None => None,
            };
            match resolve_collision(policy, dst, allow_overwrite, src, facts) {
                Outcome::Ask(q) => Outcome::Ask(q),
                Outcome::Fail(f) => Outcome::Fail(f),
                Outcome::Done((final_dst, backup)) => Outcome::Done(
                    Decision { final_dst: Some(final_dst), backup },
                ),
            }
        },
    }
}

fn plan_backup(op: &NormalizedOp, d: &Decision, facts: &FsFacts) -> (r: Outcome<Vec<FsAction>>)
    ensures
        r.deep_view() == backup_plan(facts@, op@, d.deep_view()),
{
    match (&op.resolved_dst, &d.backup) {
        (Some(dst), Some(backup)) => mv(dst, backup, false, facts),
        _ => Outcome::Done(empty_script()),
    }
}

fn plan_primary(op: &NormalizedOp, d: &Decision, facts: &FsFacts) -> (r: Outcome<Vec<FsAction>>)
    ensures
        r.deep_view() == primary_plan(facts@, op@, d.deep_view()),
{
    match &op.op {
        Operation::Mkdir { parents, .. } => match &d.final_dst {
            Some(dst) => mkdir(dst, *parents, facts),
            None => Outcome::Fail(Fault::Unresolved),
        },
        Operation::Move { cross_device, .. } => match (&op.resolved_src, &d.final_dst) {
            (Some(src), Some(dst)) => mv(src, dst, *cross_device, facts),
            _ => Outcome::Fail(Fault::Unresolved),
        },
        Operation::Rename { .. } => match (&op.resolved_src, &d.final_dst) {
            (Some(src), Some(dst)) => mv(src, dst, false, facts),
            _ => Outcome::Fail(Fault::Unresolved),
        },
        Operation::Copy { recursive, .. } => match (&op.resolved_src, &d.final_dst) {
            (Some(src), Some(dst)) => cp(src, dst, *recursive, facts),
            _ => Outcome::Fail(Fault::Unresolved),
        },
        Operation::Trash { .. } => match &op.resolved_src {
            Some(src) => trash(src, facts),
            None => Outcome::Fail(Fault::Unresolved),
        },
    }
}

/// Plans one step of the inverse that the record `e` carries.
pub fn plan_revert(e: &JournalEntry, stage: u8, facts: &FsFacts) -> (r: Outcome<Vec<FsAction>>)
    ensures
        r.deep_view() == revert_plan(facts@, e@, stage as int),
{
    match &e.undo {
        None => Outcome::Done(empty_script()),
        Some(UndoMetadata::Move { original_src }) => {
            if stage != 0 {
                return Outcome::Done(empty_script());
            }
            match &e.dst {
                Some(dst) => mv(dst, original_src, false, facts),
                None => Outcome::Fail(Fault::MissingDestination),
            }
        },
        Some(UndoMetadata::Copy { created_dst }) => {
            if stage != 0 {
                return Outcome::Done(empty_script());
            }
            delete(created_dst, facts)
        },
        Some(UndoMetadata::Mkdir { created_dir }) => {
            if stage != 0 {
                return Outcome::Done(empty_script());
            }
            let mut s: Vec<FsAction> = Vec::new();
            s.push(FsAction::RemoveDir(created_dir.duplicate()));
            assert(s.deep_view() =~= seq![ActionView::RemoveDir(created_dir@)]);
            Outcome::Done(s)
        },
        Some(UndoMetadata::Overwrite { backup_path }) => {
            if stage != 0 {
                return Outcome::Done(empty_script());
            }
            match &e.dst {
                Some(dst) => mv(backup_path, dst, false, facts),
                None => Outcome::Fail(Fault::MissingDestination),
            }
        },
        Some(UndoMetadata::MoveWithOverwrite { original_src, backup_path }) => match &e.dst {
            None => Outcome::Fail(Fault::MissingDestination),
            Some(dst) => {
                if stage == 0 {
                    mv(dst, original_src, false, facts)
                } else if stage == 1 {
                    mv(backup_path, dst, false, facts)
                } else {
                    Outcome::Done(empty_script())
                }
            },
        },
        Some(UndoMetadata::CopyWithOverwrite { created_dst, backup_path }) => {
            if stage == 0 {
                delete(created_dst, facts)
            } else if stage == 1 {
                mv(backup_path, created_dst, false, facts)
            } else {
                Outcome::Done(empty_script())
            }
        },
    }
}

impl Job {
    /// Begins a job: plans until something has to be asked or done.
    pub fn start(work: Work) -> (r: (Job, JobStep))
        ensures
            (r.0@, r.1.deep_view()) == JobView::fresh(work.deep_view()).advance(),
    {
        let mut job = Job {
            work,
            stage: 0,
            decision: None,
            facts: FsFacts::new(),
            asked: None,
            script: empty_script(),
            next: 0,
            bytes: 0,
        };
        let step = job.advance();
        (job, step)
    }

    /// What the job is for.
    pub fn work(&self) -> (w: &Work)
        ensures
            w.deep_view() == self@.work,
    {
        &self.work
    }

    /// What the collision policy decided, once it has.
    pub fn decision(&self) -> (d: &Option<Decision>)
        ensures
            d.deep_view() == self@.decision,
    {
        &self.decision
    }

    /// The stage that the job has reached.
    pub fn stage(&self) -> (k: u8)
        ensures
            k == self@.stage,
    {
        self.stage
    }

    /// The bytes that the copies of this job wrote so far.
    pub fn bytes_copied(&self) -> (n: u64)
        ensures
            n == self@.bytes,
    {
        self.bytes
    }

    fn advance(&mut self) -> (step: JobStep)
        ensures
            (final(self)@, step.deep_view()) == old(self)@.advance(),
    {
        loop
            invariant
                self@.advance() == old(self)@.advance(),
            decreases STAGES - self.stage,
        {
            if self.stage >= STAGES {
                return JobStep::Completed;
            }
            let planned: Outcome<Vec<FsAction>> = match &self.work {
                Work::Revert { entry } => plan_revert(entry, self.stage, &self.facts),
                Work::Apply { op, policy, allow_overwrite } => {
                    if self.stage == 0 {
                        match decide_for(op, *policy, *allow_overwrite, &self.facts) {
                            Outcome::Ask(q) => Outcome::Ask(q),
                            Outcome::Fail(f) => Outcome::Fail(f),
                            Outcome::Done(d) => {
                                self.decision = Some(d);
                                self.stage = 1;
                                continue ;
                            },
                        }
                    } else {
                        match &self.decision {
                            None => Outcome::Fail(Fault::Unresolved),
                            Some(d) => if self.stage == 1 {
                                plan_backup(op, d, &self.facts)
                            } else {
                                plan_primary(op, d, &self.facts)
                            },
                        }
                    }
                },
            };
            match planned {
                Outcome::Ask(q) => {
                    let asked = duplicate_query(&q);
                    self.asked = Some(asked);
                    return JobStep::Query(q);
                },
                Outcome::Fail(f) => {
                    return JobStep::Failed(f, String::new());
                },
                Outcome::Done(script) => {
                    if script.len() == 0 {
                        assert(script.deep_view().len() == 0);
                        self.stage = self.stage + 1;
                        self.script = script;
                        self.next = 0;
                    } else {
                        assert(script.deep_view()[0] == script[0].deep_view());
                        let first = script[0].duplicate();
                        self.script = script;
                        self.next = 0;
                        return JobStep::Act(first);
                    }
                },
            }
        }
    }

    /// Takes the reply to the last request and goes on until something has
    /// to be asked or done, or the job ends.
    pub fn resume(&mut self, reply: Reply) -> (step: JobStep)
        ensures
            (final(self)@, step.deep_view()) == old(self)@.resume(reply.deep_view()),
    {
        if self.asked.is_some() {
            let q = self.asked.take().unwrap();
            if !learn(&mut self.facts, &q, reply) {
                self.asked = Some(q);
                return JobStep::Failed(Fault::Protocol, String::new());
            }
            self.advance()
        } else if self.next < self.script.len() {
            match reply {
                Reply::Performed(n) => {
                    self.bytes = if n > u64::MAX - self.bytes {
                        u64::MAX
                    } else {
                        self.bytes + n
                    };
                    if self.next + 1 < self.script.len() {
                        self.next = self.next + 1;
                        assert(self.script.deep_view()[self.next as int]
                            == self.script[self.next as int].deep_view());
                        JobStep::Act(self.script[self.next].duplicate())
                    } else {
                        if self.stage < STAGES {
                            self.stage = self.stage + 1;
                        }
                        self.facts.clear();
                        self.script = empty_script();
                        self.next = 0;
                        self.advance()
                    }
                },
                Reply::Refused(words) => JobStep::Failed(Fault::Io, words),
                _ => JobStep::Failed(Fault::Protocol, String::new()),
            }
        } else {
            JobStep::Failed(Fault::Protocol, String::new())
        }
    }
}

/// Records the answer that `reply` gives to the query `q`. A reply that is
/// no answer to such a query is not recorded.
pub fn learn(facts: &mut FsFacts, q: &FsQuery, reply: Reply) -> (known: bool)
    ensures
        match JobView::learn(old(facts)@, q.deep_view(), reply.deep_view()) {
            Some(f) => known && final(facts)@ == f,
            None => !known && final(facts)@ == old(facts)@,
        },
{
    match (q, reply) {
        (FsQuery::Canonical(p), Reply::Canonical(a)) => {
            facts.record_canonical(p.duplicate(), a);
            true
        },
        (FsQuery::Stat(p), Reply::Stat(a)) => {
            facts.record_stat(p.duplicate(), a);
            true
        },
        (FsQuery::Walk(p), Reply::Walk(a)) => {
            facts.record_walk(p.duplicate(), a);
            true
        },
        (FsQuery::Content(p), Reply::Content(a)) => {
            facts.record_content(p.duplicate(), a);
            true
        },
        _ => false,
    }
}

/// A copy of a query.
pub fn duplicate_query(q: &FsQuery) -> (r: FsQuery)
    ensures
        r.deep_view() == q.deep_view(),
{
    match q {
        FsQuery::Canonical(p) => FsQuery::Canonical(p.duplicate()),
        FsQuery::Stat(p) => FsQuery::Stat(p.duplicate()),
        FsQuery::Walk(p) => FsQuery::Walk(p.duplicate()),
        FsQuery::Content(p) => FsQuery::Content(p.duplicate()),
    }
}

/// Facts that are added never change what a stage has planned.
pub proof fn lemma_stage_plan_stable(
    facts: FactsView,
    more: FactsView,
    work: WorkView,
    stage: int,
    decision: Option<DecisionView>,
)
    requires
        facts.within(more),
        stage_plan(facts, work, stage, decision).settled(),
    ensures
        stage_plan(more, work, stage, decision) == stage_plan(facts, work, stage, decision),
{
    let none = PathView::empty();
    match work {
        WorkView::Apply { op, policy, allow_overwrite } => {
            if stage == 0 {
                if let Some(dst) = op.resolved_dst {
                    lemma_collision_stable(
                        facts,
                        more,
                        policy,
                        dst,
                        allow_overwrite,
                        op.resolved_src,
                    );
                }
            } else if let Some(d) = decision {
                let src = match op.resolved_src {
                    Some(s) => s,
                    None => none,
                };
                let dst = match d.final_dst {
                    Some(t) => t,
                    None => none,
                };
                if stage == 1 {
                    if let (Some(from), Some(to)) = (op.resolved_dst, d.backup) {
                        lemma_plans_stable(facts, more, from, to, false);
                    }
                } else {
                    match op.op {
                        OperationView::Mkdir { parents, .. } => {
                            lemma_plans_stable(facts, more, src, dst, parents);
                        },
                        OperationView::Move { cross_device, .. } => {
                            lemma_plans_stable(facts, more, src, dst, cross_device);
                        },
                        OperationView::Rename { .. } => {
                            lemma_plans_stable(facts, more, src, dst, false);
                        },
                        OperationView::Copy { recursive, .. } => {
                            lemma_plans_stable(facts, more, src, dst, recursive);
                        },
                        OperationView::Trash { .. } => {
                            lemma_plans_stable(facts, more, src, quarantine(src), false);
                        },
                    }
                }
            }
        },
        WorkView::Revert { entry } => {
            let dst = match entry.dst {
                Some(t) => t,
                None => none,
            };
            match entry.undo {
                Some(UndoView::Move { original_src }) => {
                    lemma_plans_stable(facts, more, dst, original_src, false);
                },
                Some(UndoView::Copy { created_dst }) => {
                    lemma_plans_stable(facts, more, none, created_dst, false);
                },
                Some(UndoView::Overwrite { backup_path }) => {
                    lemma_plans_stable(facts, more, backup_path, dst, false);
                },
                Some(UndoView::MoveWithOverwrite { original_src, backup_path }) => {
                    lemma_plans_stable(facts, more, dst, original_src, false);
                    lemma_plans_stable(facts, more, backup_path, dst, false);
                },
                Some(UndoView::CopyWithOverwrite { created_dst, backup_path }) => {
                    lemma_plans_stable(facts, more, none, created_dst, false);
                    lemma_plans_stable(facts, more, backup_path, created_dst, false);
                },
                _ => {},
            }
        },
    }
}

} // verus!
