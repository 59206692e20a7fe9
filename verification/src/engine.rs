//! The two commands: apply a plan, undo a journal.
//!
//! Each command is a machine over the same requests as the transaction
//! manager. `apply` validates the plan while nothing has been changed:
//! confinement, normalization, preflight. In validate-only and dry-run mode
//! it ends there. Else it executes the operations in order, and in `all`
//! mode rolls back and ends with code 3 at the first that fails. `undo`
//! reverses the records of a journal that are still to be undone, the last
//! one first.

use crate::cli::{ApplyArgs, UndoArgs};
use crate::clock::{now, Timestamp};
use crate::events::{Event, EventView};
use crate::exit_codes::{
    OPERATIONAL_FAILURE, POLICY_FAILURE, SUCCESS, TRANSACTIONAL_FAILURE,
};
use crate::facts::{FactsView, FsFacts, FsQuery, Outcome, OutcomeView, QueryView};
use crate::fault::{fault_message, is_operational, Fault};
use crate::fsops::{ActionView, FsAction};
use crate::ident::fresh_id;
use crate::job::{learn, JobView, Reply, ReplyView};
use crate::journal::{
    commit_marker, committed, is_committed, pending, pending_inverses, EntryView, JournalEntry,
    JournalStatus,
};
use crate::model::{CollisionPolicy, Plan, PlanView, TransactionMode};
use crate::path::{parse_text, FsPath};
use crate::reporter::{Reporter, ReporterView};
use crate::resolve::{
    confine_op, confined_from, confinement, lemma_op_confined_stable, lemma_resolved_below_root,
    op_confined,
};
use crate::revert::{RevertStep, RevertStepView, Reverter, ReverterView};
use crate::transaction::{
    duplicate_op, lemma_rollback_takes_all, PhaseView, TmView, TransactionManager, TxStep,
    TxStepView,
};
use crate::validate::{
    lemma_normalized_op_asks, lemma_normalized_op_stable, lemma_preflight_op_stable,
    normalize_op, normalized, normalized_from, normalized_op, preflight, preflight_from,
    preflight_op, preflight_op_check, unnumbered, NormalizedOp, NormalizedView,
};
use vstd::prelude::*;
use vstd::string::*;

verus! {

/// What the caller is to do next, or the code to exit with.
#[derive(Debug, Clone, PartialEq, Eq)]
pub enum EngineStep {
    /// Answer this query.
    Query(FsQuery),
    /// Perform this action.
    Act(FsAction),
    /// Write this record to the journal.
    Append(JournalEntry),
    /// The command has ended; exit with this code.
    Exit(i32),
}

/// The mathematical value of an [`EngineStep`].
pub enum EngineStepView {
    Query(QueryView),
    Act(ActionView),
    Append(EntryView),
    Exit(i32),
}

impl DeepView for EngineStep {
    type V = EngineStepView;

    open spec fn deep_view(&self) -> EngineStepView {
        match self {
            EngineStep::Query(q) => EngineStepView::Query(q.deep_view()),
            EngineStep::Act(a) => EngineStepView::Act(a.deep_view()),
            EngineStep::Append(e) => EngineStepView::Append(e@),
            EngineStep::Exit(c) => EngineStepView::Exit(*c),
        }
    }
}

impl EngineStepView {
    /// Whether the step changes neither the file system nor the journal.
    pub open spec fn passive(self) -> bool {
        self is Query || self is Exit
    }
}

/// Where a run of `apply` stands.
#[derive(Debug, Clone, Copy, PartialEq, Eq, Structural)]
pub enum Stage {
    /// Checking that every path stays below the root.
    Confining,
    /// Resolving paths and parent obligations.
    Normalizing,
    /// Checking sources and symlinks.
    Preflighting,
    /// Executing the operations.
    Executing,
    /// Reversing what was applied.
    RollingBack,
    /// Having the commit marker written.
    Committing,
    /// Ended.
    Finished,
}

/// How many stages of validation are still to come.
pub open spec fn validation_left(stage: Stage) -> nat {
    match stage {
        Stage::Confining => 3,
        Stage::Normalizing => 2,
        Stage::Preflighting => 1,
        _ => 0,
    }
}

/// The exit code for a failure met outside a transaction.
pub open spec fn exit_code_of(f: Fault) -> i32 {
    if is_operational(f) {
        OPERATIONAL_FAILURE
    } else {
        POLICY_FAILURE
    }
}

/// The words of a failure for the event stream: the words of its kind,
/// followed by those of the file system where it gave any.
pub open spec fn failure_text(f: Fault, words: Seq<char>) -> Seq<char> {
    if words.len() == 0 {
        fault_message(f)
    } else {
        fault_message(f) + ": "@ + words
    }
}

/// The plan with what the command line overrides: the root and the
/// collision policy where it names them, and always the permission to
/// overwrite.
pub open spec fn effective_plan(
    plan: PlanView,
    root: Option<Seq<char>>,
    collision_policy: Option<CollisionPolicy>,
    allow_overwrite: bool,
) -> PlanView {
    PlanView {
        root: match root {
            Some(text) => parse_text(text),
            None => plan.root,
        },
        collision_policy: match collision_policy {
            Some(p) => p,
            None => plan.collision_policy,
        },
        allow_overwrite,
        ..plan
    }
}

/// The event that shows an operation in a dry run.
pub open spec fn planned_event(op: NormalizedView) -> EventView {
    EventView::OpPlanned {
        op_id: op.id,
        op_type: op.op.kind_name(),
        src: op.resolved_src,
        dst: op.resolved_dst,
    }
}

/// The reporter after the first `n` operations were shown as planned.
pub open spec fn show_planned(r: ReporterView, ops: Seq<NormalizedView>, n: int) -> ReporterView
    decreases n,
{
    if n <= 0 {
        r
    } else {
        show_planned(r, ops, n - 1).record(planned_event(ops[n - 1]))
    }
}

/// The mathematical value of an [`ApplyRun`].
pub struct ApplyView {
    pub validate_only: bool,
    pub dry_run: bool,
    pub plan: PlanView,
    pub plan_id: u128,
    /// The identifiers that the operations get, in order.
    pub ids: Seq<u128>,
    /// What validation has learned of the file system.
    pub facts: FactsView,
    /// The query of validation that awaits its answer.
    pub asked: Option<QueryView>,
    pub stage: Stage,
    /// The index of the operation that the current stage has reached.
    pub index: int,
    pub normalized: Seq<NormalizedView>,
    pub tm: TmView,
    pub reporter: ReporterView,
    /// The exit code, once the run has ended.
    pub code: i32,
    /// Why the run ended without success, if it did; in a transaction that
    /// was rolled back, why the operation failed that made it fail.
    pub fault: Option<Fault>,
}

impl ApplyView {
    /// Whether the run must leave the file system and the journal alone.
    pub open spec fn passive(self) -> bool {
        self.validate_only || self.dry_run
    }

    /// What holds of every state of a passive run: it is validating, or it
    /// has ended.
    pub open spec fn quiet(self) -> bool {
        validation_left(self.stage) > 0 || self.stage == Stage::Finished
    }

    /// The run ended with the given code.
    pub open spec fn finish(self, code: i32, fault: Option<Fault>) -> (ApplyView, EngineStepView) {
        (
            ApplyView { stage: Stage::Finished, asked: None, code, fault, ..self },
            EngineStepView::Exit(code),
        )
    }

    /// What the current stage of validation finds for the operation at the
    /// current index: for normalization the normalized operation, else
    /// nothing.
    pub open spec fn check(self) -> OutcomeView<Option<NormalizedView>> {
        let op = self.plan.operations[self.index];
        match self.stage {
            Stage::Confining => match op_confined(self.facts, self.plan.root, op) {
                OutcomeView::Done(_) => OutcomeView::Done(None),
                OutcomeView::Fail(f) => OutcomeView::Fail(f),
                OutcomeView::Ask(q) => OutcomeView::Ask(q),
            },
            Stage::Normalizing => match normalized_op(
                self.facts,
                self.plan.root,
                op,
                self.ids[self.index],
            ) {
                OutcomeView::Done(n) => OutcomeView::Done(Some(n)),
                OutcomeView::Fail(f) => OutcomeView::Fail(f),
                OutcomeView::Ask(q) => OutcomeView::Ask(q),
            },
            _ => match preflight_op(self.facts, self.plan.root, self.plan.symlink_policy, op) {
                OutcomeView::Done(_) => OutcomeView::Done(None),
                OutcomeView::Fail(f) => OutcomeView::Fail(f),
                OutcomeView::Ask(q) => OutcomeView::Ask(q),
            },
        }
    }

    /// Validation from the current stage and index on, until a query has to
    /// be asked, the plan is refused, or validation is through.
    pub open spec fn validate(self, now: Timestamp) -> (ApplyView, EngineStepView)
        decreases validation_left(self.stage), self.plan.operations.len() - self.index,
    {
        if validation_left(self.stage) == 0 {
            (self, EngineStepView::Exit(self.code))
        } else if self.ids.len() != self.plan.operations.len() {
            self.finish(OPERATIONAL_FAILURE, Some(Fault::Protocol))
        } else if self.index < 0 || self.index >= self.plan.operations.len() {
            match self.stage {
                Stage::Confining => (ApplyView {
                    stage: Stage::Normalizing,
                    index: 0,
                    ..self
                }).validate(now),
                Stage::Normalizing => (ApplyView {
                    stage: Stage::Preflighting,
                    index: 0,
                    ..self
                }).validate(now),
                _ => self.validated(now),
            }
        } else {
            match self.check() {
                OutcomeView::Ask(q) => (ApplyView { asked: Some(q), ..self }, EngineStepView::Query(q)),
                OutcomeView::Fail(f) => self.finish(exit_code_of(f), Some(f)),
                OutcomeView::Done(found) => (ApplyView {
                    index: self.index + 1,
                    normalized: match found {
                        Some(n) => self.normalized.push(n),
                        None => self.normalized,
                    },
                    ..self
                }).validate(now),
            }
        }
    }

    /// What follows validation: the end of a passive run, or the first
    /// operation.
    pub open spec fn validated(self, now: Timestamp) -> (ApplyView, EngineStepView) {
        if self.validate_only {
            (ApplyView {
                reporter: self.reporter.record(EventView::PlanValidated { plan_id: self.plan_id }),
                ..self
            }).finish(SUCCESS, None)
        } else if self.dry_run {
            (ApplyView {
                reporter: show_planned(
                    self.reporter,
                    self.normalized,
                    self.normalized.len() as int,
                ).record(EventView::TxnCommitted { plan_id: self.plan_id }),
                ..self
            }).finish(SUCCESS, None)
        } else {
            (ApplyView { stage: Stage::Executing, index: 0, ..self }).next_op(now)
        }
    }

    /// Begins the operation at the current index, or, after the last one,
    /// has the commit marker written.
    pub open spec fn next_op(self, now: Timestamp) -> (ApplyView, EngineStepView)
        decreases self.normalized.len() - self.index, 1int,
    {
        if self.index < 0 || self.index >= self.normalized.len() {
            (
                ApplyView { stage: Stage::Committing, ..self },
                EngineStepView::Append(
                    EntryView {
                        id: self.plan_id,
                        ts: now,
                        op: crate::journal::commit_kind(),
                        src: None,
                        dst: None,
                        collision: None,
                        status: JournalStatus::Applied,
                        undo: None,
                    },
                ),
            )
        } else {
            let op = self.normalized[self.index];
            let (tm, step) = self.tm.execute(op, now);
            (ApplyView {
                reporter: self.reporter.record(EventView::OpStarted { op_id: op.id }),
                tm,
                ..self
            }).after_tx(step, now)
        }
    }

    /// What follows a step of the transaction manager while an operation
    /// is executed.
    pub open spec fn after_tx(self, step: TxStepView, now: Timestamp) -> (ApplyView, EngineStepView)
        decreases self.normalized.len() - self.index, 0int,
    {
        let op_id = self.normalized[self.index].id;
        match step {
            _ if self.index < 0 || self.index >= self.normalized.len() => self.finish(
                OPERATIONAL_FAILURE,
                Some(Fault::Protocol),
            ),
            TxStepView::Query(q) => (self, EngineStepView::Query(q)),
            TxStepView::Act(a) => (self, EngineStepView::Act(a)),
            TxStepView::Append(e) => (self, EngineStepView::Append(e)),
            TxStepView::Applied(result) => (ApplyView {
                reporter: self.reporter.record(
                    EventView::OpCompleted {
                        op_id,
                        bytes_copied: result.bytes_copied,
                        final_dst: result.final_dst,
                    },
                ),
                index: self.index + 1,
                ..self
            }).next_op(now),
            TxStepView::Failed(f, words) => {
                let failed = ApplyView {
                    reporter: self.reporter.record(
                        EventView::OpFailed { op_id, error: failure_text(f, words) },
                    ),
                    ..self
                };
                if self.plan.transaction == TransactionMode::All {
                    let (tm, back) = failed.tm.rollback(now);
                    (ApplyView {
                        stage: Stage::RollingBack,
                        tm,
                        fault: Some(f),
                        ..failed
                    }).after_rollback(back)
                } else {
                    (ApplyView { index: self.index + 1, ..failed }).next_op(now)
                }
            },
            TxStepView::RolledBack { .. } => self.finish(
                OPERATIONAL_FAILURE,
                Some(Fault::Protocol),
            ),
        }
    }

    /// What follows a step of the transaction manager during rollback.
    pub open spec fn after_rollback(self, step: TxStepView) -> (ApplyView, EngineStepView) {
        match step {
            TxStepView::Query(q) => (self, EngineStepView::Query(q)),
            TxStepView::Act(a) => (self, EngineStepView::Act(a)),
            TxStepView::Append(e) => (self, EngineStepView::Append(e)),
            _ => (ApplyView {
                reporter: self.reporter.record(EventView::TxnAborted { plan_id: self.plan_id }),
                ..self
            }).finish(TRANSACTIONAL_FAILURE, self.fault),
        }
    }

    /// What the run does with a reply.
    pub open spec fn resume(self, reply: ReplyView, now: Timestamp) -> (ApplyView, EngineStepView) {
        match self.stage {
            Stage::Finished => (self, EngineStepView::Exit(self.code)),
            Stage::Executing => if 0 <= self.index < self.normalized.len() {
                let (tm, step) = self.tm.resume(reply, now);
                (ApplyView { tm, ..self }).after_tx(step, now)
            } else {
                self.finish(OPERATIONAL_FAILURE, Some(Fault::Protocol))
            },
            Stage::RollingBack => {
                let (tm, step) = self.tm.resume(reply, now);
                (ApplyView { tm, ..self }).after_rollback(step)
            },
            Stage::Committing => match reply {
                ReplyView::Performed(_) => (ApplyView {
                    reporter: self.reporter.record(
                        EventView::TxnCommitted { plan_id: self.plan_id },
                    ),
                    ..self
                }).finish(SUCCESS, None),
                _ => self.finish(OPERATIONAL_FAILURE, Some(Fault::JournalWrite)),
            },
            _ => match self.asked {
                None => self.finish(OPERATIONAL_FAILURE, Some(Fault::Protocol)),
                Some(q) => match JobView::learn(self.facts, q, reply) {
                    None => self.finish(OPERATIONAL_FAILURE, Some(Fault::Protocol)),
                    Some(facts) => (ApplyView { facts, asked: None, ..self }).validate(now),
                },
            },
        }
    }

    /// The state in which a run begins, before validation.
    pub open spec fn initial(
        validate_only: bool,
        dry_run: bool,
        json: bool,
        plan: PlanView,
        plan_id: u128,
        ids: Seq<u128>,
    ) -> ApplyView {
        ApplyView {
            validate_only,
            dry_run,
            plan,
            plan_id,
            ids,
            facts: FactsView::empty(),
            asked: None,
            stage: Stage::Confining,
            index: 0,
            normalized: Seq::empty(),
            tm: TmView::fresh(plan.transaction, plan.collision_policy, plan.allow_overwrite),
            reporter: ReporterView::fresh(json),
            code: SUCCESS,
            fault: None,
        }
    }

    /// The beginning of a run: the plan is checked, then validation starts.
    pub open spec fn begin(self, now: Timestamp) -> (ApplyView, EngineStepView) {
        if !self.plan.root.absolute {
            self.finish(POLICY_FAILURE, Some(Fault::RelativeRoot))
        } else {
            self.validate(now)
        }
    }
}

/// A run of `apply`.
#[derive(Debug, Clone)]
pub struct ApplyRun {
    validate_only: bool,
    dry_run: bool,
    plan: Plan,
    plan_id: u128,
    ids: Vec<u128>,
    facts: FsFacts,
    asked: Option<FsQuery>,
    stage: Stage,
    index: usize,
    normalized: Vec<NormalizedOp>,
    tm: TransactionManager,
    reporter: Reporter,
    code: i32,
    fault: Option<Fault>,
}

impl View for ApplyRun {
    type V = ApplyView;

    closed spec fn view(&self) -> ApplyView {
        ApplyView {
            validate_only: self.validate_only,
            dry_run: self.dry_run,
            plan: self.plan@,
            plan_id: self.plan_id,
            ids: self.ids@,
            facts: self.facts@,
            asked: self.asked.deep_view(),
            stage: self.stage,
            index: self.index as int,
            normalized: self.normalized.deep_view(),
            tm: self.tm@,
            reporter: self.reporter@,
            code: self.code,
            fault: self.fault,
        }
    }
}

/// The words of a failure for the event stream.
pub fn describe_failure(f: Fault, words: &String) -> (s: String)
    ensures
        s@ == failure_text(f, words@),
{
    if words.as_str().unicode_len() == 0 {
        f.describe()
    } else {
        f.describe().concat(": ").concat(words.as_str())
    }
}

/// The plan with what the command line overrides.
pub fn override_plan(plan: Plan, args: &ApplyArgs) -> (r: Plan)
    ensures
        r@ == effective_plan(
            plan@,
            args.root.deep_view(),
            args.collision_policy,
            args.allow_overwrite,
        ),
{
    let mut plan = plan;
    if let Some(text) = &args.root {
        plan.root = FsPath::parse(text.as_str());
    }
    if let Some(policy) = args.collision_policy {
        plan.collision_policy = policy;
    }
    plan.allow_overwrite = args.allow_overwrite;
    plan
}

impl ApplyRun {
    /// The exit code, once the run has ended.
    pub fn exit_code(&self) -> (c: i32)
        ensures
            c == self@.code,
    {
        self.code
    }

    /// Why the run ended without success, if it did.
    pub fn fault(&self) -> (f: Option<Fault>)
        ensures
            f == self@.fault,
    {
        self.fault
    }

    /// Whether the run has ended.
    pub fn finished(&self) -> (b: bool)
        ensures
            b == (self@.stage == Stage::Finished),
    {
        self.stage == Stage::Finished
    }

    /// The events that are to be written out, handed out once.
    pub fn take_events(&mut self) -> (out: Vec<Event>)
        ensures
            out.deep_view() == old(self)@.reporter.outbox,
            final(self)@ == (ApplyView { reporter: old(self)@.reporter.drained(), ..old(self)@ }),
    {
        self.reporter.take_output()
    }

    /// The summary of the run.
    pub fn summary(&self) -> (s: String)
        ensures
            s@ == crate::reporter::summary_text(self@.reporter.events.len()),
    {
        self.reporter.summary()
    }

    /// The operations as normalized so far.
    pub fn normalized(&self) -> (ops: &Vec<NormalizedOp>)
        ensures
            ops.deep_view() == self@.normalized,
    {
        &self.normalized
    }

    fn finish(&mut self, code: i32, fault: Option<Fault>) -> (step: EngineStep)
        ensures
            (final(self)@, step.deep_view()) == old(self)@.finish(code, fault),
    {
        self.stage = Stage::Finished;
        self.asked = None;
        self.code = code;
        self.fault = fault;
        EngineStep::Exit(code)
    }

    fn check(&self) -> (r: Outcome<Option<NormalizedOp>>)
        requires
            self.index < self.plan.operations.len(),
            self.ids.len() == self.plan.operations.len(),
        ensures
            r.deep_view() == self@.check(),
    {
        let op = &self.plan.operations[self.index];
        assert(self.plan@.operations[self.index as int] == op@);
        match self.stage {
            Stage::Confining => match confine_op(&self.plan.root, op, &self.facts) {
                Outcome::Done(_) => Outcome::Done(None),
                Outcome::Fail(f) => Outcome::Fail(f),
                Outcome::Ask(q) => Outcome::Ask(q),
            },
            Stage::Normalizing => match normalize_op(
                &self.plan.root,
                op,
                self.ids[self.index],
                &self.facts,
            ) {
                Outcome::Done(n) => Outcome::Done(Some(n)),
                Outcome::Fail(f) => Outcome::Fail(f),
                Outcome::Ask(q) => Outcome::Ask(q),
            },
            _ => match preflight_op_check(
                &self.plan.root,
                self.plan.symlink_policy,
                op,
                &self.facts,
            ) {
                Outcome::Done(_) => Outcome::Done(None),
                Outcome::Fail(f) => Outcome::Fail(f),
                Outcome::Ask(q) => Outcome::Ask(q),
            },
        }
    }

    fn validate(&mut self, now: Timestamp) -> (step: EngineStep)
        ensures
            (final(self)@, step.deep_view()) == old(self)@.validate(now),
    {
        loop
            invariant
                self@.validate(now) == old(self)@.validate(now),
            decreases
                    validation_left(self.stage),
                    self.plan.operations.len() - self.index,
        {
            match self.stage {
                Stage::Confining | Stage::Normalizing | Stage::Preflighting => {},
                _ => {
                    return EngineStep::Exit(self.code);
                },
            }
            if self.ids.len() != self.plan.operations.len() {
                return self.finish(OPERATIONAL_FAILURE, Some(Fault::Protocol));
            }
            if self.index >= self.plan.operations.len() {
                match self.stage {
                    Stage::Confining => {
                        self.stage = Stage::Normalizing;
                        self.index = 0;
                    },
                    Stage::Normalizing => {
                        self.stage = Stage::Preflighting;
                        self.index = 0;
                    },
                    _ => {
                        return self.validated(now);
                    },
                }
            } else {
                match self.check() {
                    Outcome::Ask(q) => {
                        self.asked = Some(crate::job::duplicate_query(&q));
                        return EngineStep::Query(q);
                    },
                    Outcome::Fail(f) => {
                        return self.finish(f.exit_code(), Some(f));
                    },
                    Outcome::Done(found) => {
                        if let Some(n) = found {
                            let ghost before = self.normalized.deep_view();
                            self.normalized.push(n);
                            assert(self.normalized.deep_view() =~= before.push(n@));
                        }
                        self.index = self.index + 1;
                    },
                }
            }
        }
    }

    fn validated(&mut self, now: Timestamp) -> (step: EngineStep)
        ensures
            (final(self)@, step.deep_view()) == old(self)@.validated(now),
    {
        if self.validate_only {
            self.reporter.record(Event::PlanValidated { plan_id: self.plan_id });
            self.finish(SUCCESS, None)
        } else if self.dry_run {
            let mut i: usize = 0;
            while i < self.normalized.len()
                invariant
                    i <= self.normalized.len(),
                    self@ == (ApplyView {
                        reporter: show_planned(
                            old(self)@.reporter,
                            old(self)@.normalized,
                            i as int,
                        ),
                        ..old(self)@
                    }),
                decreases self.normalized.len() - i,
            {
                let op = &self.normalized[i];
                assert(self.normalized.deep_view()[i as int] == op@);
                let event = Event::OpPlanned {
                    op_id: op.id,
                    op_type: op.op.kind_name(),
                    src: crate::journal::duplicate_path(&op.resolved_src),
                    dst: crate::journal::duplicate_path(&op.resolved_dst),
                };
                self.reporter.record(event);
                i = i + 1;
            }
            self.reporter.record(Event::TxnCommitted { plan_id: self.plan_id });
            self.finish(SUCCESS, None)
        } else {
            self.stage = Stage::Executing;
            self.index = 0;
            self.next_op(now)
        }
    }

    fn next_op(&mut self, now: Timestamp) -> (step: EngineStep)
        ensures
            (final(self)@, step.deep_view()) == old(self)@.next_op(now),
        decreases old(self).normalized.len() - old(self).index, 1int,
    {
        if self.index >= self.normalized.len() {
            self.stage = Stage::Committing;
            EngineStep::Append(commit_marker(self.plan_id, now))
        } else {
            assert(self.normalized.deep_view()[self.index as int]
                == self.normalized[self.index as int]@);
            let op = duplicate_op(&self.normalized[self.index]);
            self.reporter.record(Event::OpStarted { op_id: op.id });
            let step = self.tm.execute_at(op, now);
            self.after_tx(step, now)
        }
    }

    fn after_tx(&mut self, step: TxStep, now: Timestamp) -> (r: EngineStep)
        requires
            old(self).index < old(self).normalized.len(),
        ensures
            (final(self)@, r.deep_view()) == old(self)@.after_tx(step.deep_view(), now),
        decreases old(self).normalized.len() - old(self).index, 0int,
    {
        assert(self.normalized.deep_view()[self.index as int]
            == self.normalized[self.index as int]@);
        let op_id = self.normalized[self.index].id;
        match step {
            TxStep::Query(q) => EngineStep::Query(q),
            TxStep::Act(a) => EngineStep::Act(a),
            TxStep::Append(e) => EngineStep::Append(e),
            TxStep::Applied(result) => {
                self.reporter.record(
                    Event::OpCompleted {
                        op_id,
                        bytes_copied: result.bytes_copied,
                        final_dst: result.final_dst,
                    },
                );
                self.index = self.index + 1;
                self.next_op(now)
            },
            TxStep::Failed(f, words) => {
                self.reporter.record(
                    Event::OpFailed { op_id, error: describe_failure(f, &words) },
                );
                if self.plan.transaction == TransactionMode::All {
                    let back = self.tm.rollback_at(now);
                    self.stage = Stage::RollingBack;
                    self.fault = Some(f);
                    self.after_rollback(back)
                } else {
                    self.index = self.index + 1;
                    self.next_op(now)
                }
            },
            TxStep::RolledBack { .. } => self.finish(OPERATIONAL_FAILURE, Some(Fault::Protocol)),
        }
    }

    fn after_rollback(&mut self, step: TxStep) -> (r: EngineStep)
        ensures
            (final(self)@, r.deep_view()) == old(self)@.after_rollback(step.deep_view()),
    {
        match step {
            TxStep::Query(q) => EngineStep::Query(q),
            TxStep::Act(a) => EngineStep::Act(a),
            TxStep::Append(e) => EngineStep::Append(e),
            _ => {
                self.reporter.record(Event::TxnAborted { plan_id: self.plan_id });
                let fault = self.fault;
                self.finish(TRANSACTIONAL_FAILURE, fault)
            },
        }
    }

    fn resume_validation(&mut self, reply: Reply, now: Timestamp) -> (step: EngineStep)
        requires
            validation_left(old(self).stage) > 0,
        ensures
            (final(self)@, step.deep_view()) == old(self)@.resume(reply.deep_view(), now),
    {
        if self.asked.is_none() {
            return self.finish(OPERATIONAL_FAILURE, Some(Fault::Protocol));
        }
        let q = self.asked.take().unwrap();
        if !learn(&mut self.facts, &q, reply) {
            return self.finish(OPERATIONAL_FAILURE, Some(Fault::Protocol));
        }
        self.validate(now)
    }

    fn resume_execution(&mut self, reply: Reply, now: Timestamp) -> (step: EngineStep)
        requires
            old(self).stage == Stage::Executing,
        ensures
            (final(self)@, step.deep_view()) == old(self)@.resume(reply.deep_view(), now),
    {
        if self.index < self.normalized.len() {
            let step = self.tm.resume_at(reply, now);
            self.after_tx(step, now)
        } else {
            self.finish(OPERATIONAL_FAILURE, Some(Fault::Protocol))
        }
    }

    fn resume_rollback(&mut self, reply: Reply, now: Timestamp) -> (step: EngineStep)
        requires
            old(self).stage == Stage::RollingBack,
        ensures
            (final(self)@, step.deep_view()) == old(self)@.resume(reply.deep_view(), now),
    {
        let step = self.tm.resume_at(reply, now);
        self.after_rollback(step)
    }

    fn resume_commit(&mut self, reply: Reply) -> (step: EngineStep)
        requires
            old(self).stage == Stage::Committing,
        ensures
            forall|now: Timestamp|
                (final(self)@, step.deep_view()) == #[trigger] old(self)@.resume(
                    reply.deep_view(),
                    now,
                ),
    {
        match reply {
            Reply::Performed(_) => {
                self.reporter.record(Event::TxnCommitted { plan_id: self.plan_id });
                self.finish(SUCCESS, None)
            },
            _ => self.finish(OPERATIONAL_FAILURE, Some(Fault::JournalWrite)),
        }
    }

    /// Takes the reply to the last request and returns the next one, or the
    /// exit code. Records made on the way are stamped with `now`.
    pub fn resume_at(&mut self, reply: Reply, now: Timestamp) -> (step: EngineStep)
        ensures
            (final(self)@, step.deep_view()) == old(self)@.resume(reply.deep_view(), now),
    {
        match self.stage {
            Stage::Finished => EngineStep::Exit(self.code),
            Stage::Executing => self.resume_execution(reply, now),
            Stage::RollingBack => self.resume_rollback(reply, now),
            Stage::Committing => self.resume_commit(reply),
            _ => self.resume_validation(reply, now),
        }
    }

    /// Takes the reply to the last request, at the current time.
    pub fn resume(&mut self, reply: Reply) -> (step: EngineStep)
        ensures
            exists|t: Timestamp|
                (final(self)@, step.deep_view()) == old(self)@.resume(reply.deep_view(), t),
    {
        let t = now();
        self.resume_at(reply, t)
    }
}

/// Begins a run of `apply` on `plan` with the overrides of `args`, under
/// the plan identifier `plan_id`, with `ids` as the identifiers of the
/// operations, at time `now`. There must be one identifier for each
/// operation.
pub fn apply_at(args: &ApplyArgs, plan: Plan, plan_id: u128, ids: Vec<u128>, now: Timestamp) -> (r: (
    ApplyRun,
    EngineStep,
))
    ensures
        (r.0@, r.1.deep_view()) == ApplyView::initial(
            args.validate_only,
            args.dry_run,
            args.json,
            effective_plan(
                plan@,
                args.root.deep_view(),
                args.collision_policy,
                args.allow_overwrite,
            ),
            plan_id,
            ids@,
        ).begin(now),
{
    let plan = override_plan(plan, args);
    let tm = TransactionManager::new(plan.transaction, plan.collision_policy, plan.allow_overwrite);
    let normalized: Vec<NormalizedOp> = Vec::new();
    assert(normalized.deep_view() =~= Seq::<NormalizedView>::empty());
    let mut run = ApplyRun {
        validate_only: args.validate_only,
        dry_run: args.dry_run,
        plan,
        plan_id,
        ids,
        facts: FsFacts::new(),
        asked: None,
        stage: Stage::Confining,
        index: 0,
        normalized,
        tm,
        reporter: Reporter::new(args.json),
        code: SUCCESS,
        fault: None,
    };
    let step = if !run.plan.root.is_absolute() {
        run.finish(POLICY_FAILURE, Some(Fault::RelativeRoot))
    } else {
        run.validate(now)
    };
    (run, step)
}

/// Begins a run of `apply` on `plan` with the overrides of `args`, under
/// fresh identifiers, one for each operation, at the current time.
pub fn apply(args: &ApplyArgs, plan: Plan) -> (r: (ApplyRun, EngineStep))
    ensures
        exists|plan_id: u128, ids: Seq<u128>, t: Timestamp|
            ids.len() == plan@.operations.len() && (r.0@, r.1.deep_view()) == ApplyView::initial(
                args.validate_only,
                args.dry_run,
                args.json,
                effective_plan(
                    plan@,
                    args.root.deep_view(),
                    args.collision_policy,
                    args.allow_overwrite,
                ),
                plan_id,
                ids,
            ).begin(t),
{
    let mut ids: Vec<u128> = Vec::new();
    let mut i: usize = 0;
    while i < plan.operations.len()
        invariant
            i <= plan.operations.len(),
            ids.len() == i,
        decreases plan.operations.len() - i,
    {
        ids.push(fresh_id());
        i = i + 1;
    }
    let plan_id = fresh_id();
    let t = now();
    assert(ids@.len() == plan@.operations.len());
    apply_at(args, plan, plan_id, ids, t)
}

/// The mathematical value of an [`UndoRun`].
pub struct UndoView {
    pub dry_run: bool,
    pub journal_id: u128,
    /// Whether the journal holds the record of a committed transaction.
    pub committed: bool,
    /// The reversal under way, if the run is no dry run.
    pub rev: Option<ReverterView>,
    pub reporter: ReporterView,
    pub finished: bool,
    pub code: i32,
    pub fault: Option<Fault>,
}

/// The records at the given indices, in the order of the indices.
pub open spec fn select(entries: Seq<EntryView>, indices: Seq<int>) -> Seq<EntryView> {
    Seq::new(indices.len(), |k: int| entries[indices[k]])
}

impl UndoView {
    /// The run ended with the given code.
    pub open spec fn finish(self, code: i32, fault: Option<Fault>) -> (UndoView, EngineStepView) {
        (UndoView { finished: true, code, fault, ..self }, EngineStepView::Exit(code))
    }

    /// What follows a step of the reversal.
    pub open spec fn after_revert(self, rev: ReverterView, step: RevertStepView) -> (
        UndoView,
        EngineStepView,
    ) {
        let next = UndoView { rev: Some(rev), ..self };
        match step {
            RevertStepView::Query(q) => (next, EngineStepView::Query(q)),
            RevertStepView::Act(a) => (next, EngineStepView::Act(a)),
            RevertStepView::Append(e) => (next, EngineStepView::Append(e)),
            RevertStepView::Finished { .. } => (UndoView {
                reporter: self.reporter.record(
                    EventView::UndoCompleted { journal_id: self.journal_id },
                ),
                ..next
            }).finish(SUCCESS, None),
            RevertStepView::Halted(f, _) => next.finish(OPERATIONAL_FAILURE, Some(f)),
        }
    }

    /// The beginning of a run on the records of a journal.
    pub open spec fn begin(
        dry_run: bool,
        json: bool,
        entries: Seq<EntryView>,
        journal_id: u128,
        now: Timestamp,
    ) -> (UndoView, EngineStepView) {
        let start = UndoView {
            dry_run,
            journal_id,
            committed: committed(entries),
            rev: None,
            reporter: ReporterView::fresh(json).record(EventView::UndoStarted { journal_id }),
            finished: false,
            code: SUCCESS,
            fault: None,
        };
        if dry_run {
            (UndoView {
                reporter: start.reporter.record(EventView::UndoCompleted { journal_id }),
                ..start
            }).finish(SUCCESS, None)
        } else {
            let (rev, step) = ReverterView::fresh(select(entries, pending(entries)), false).proceed(
                now,
            );
            start.after_revert(rev, step)
        }
    }

    /// What the run does with a reply.
    pub open spec fn resume(self, reply: ReplyView, now: Timestamp) -> (UndoView, EngineStepView) {
        if self.finished {
            (self, EngineStepView::Exit(self.code))
        } else {
            match self.rev {
                None => self.finish(OPERATIONAL_FAILURE, Some(Fault::Protocol)),
                Some(rev) => {
                    let (next, step) = rev.resume(reply, now);
                    self.after_revert(next, step)
                },
            }
        }
    }
}

/// A run of `undo`.
#[derive(Debug, Clone)]
pub struct UndoRun {
    dry_run: bool,
    journal_id: u128,
    committed: bool,
    rev: Option<Reverter>,
    reporter: Reporter,
    finished: bool,
    code: i32,
    fault: Option<Fault>,
}

impl View for UndoRun {
    type V = UndoView;

    closed spec fn view(&self) -> UndoView {
        UndoView {
            dry_run: self.dry_run,
            journal_id: self.journal_id,
            committed: self.committed,
            rev: match self.rev {
                Some(r) => Some(r@),
                None => None,
            },
            reporter: self.reporter@,
            finished: self.finished,
            code: self.code,
            fault: self.fault,
        }
    }
}

impl UndoRun {
    /// The exit code, once the run has ended.
    pub fn exit_code(&self) -> (c: i32)
        ensures
            c == self@.code,
    {
        self.code
    }

    /// Why the run ended without success, if it did.
    pub fn fault(&self) -> (f: Option<Fault>)
        ensures
            f == self@.fault,
    {
        self.fault
    }

    /// Whether the journal holds the record of a committed transaction. A
    /// journal without one was left by a transaction that failed or was
    /// interrupted; its records are undone all the same.
    pub fn committed(&self) -> (b: bool)
        ensures
            b == self@.committed,
    {
        self.committed
    }

    /// The events that are to be written out, handed out once.
    pub fn take_events(&mut self) -> (out: Vec<Event>)
        ensures
            out.deep_view() == old(self)@.reporter.outbox,
            final(self)@ == (UndoView { reporter: old(self)@.reporter.drained(), ..old(self)@ }),
    {
        self.reporter.take_output()
    }

    fn finish(&mut self, code: i32, fault: Option<Fault>) -> (step: EngineStep)
        ensures
            (final(self)@, step.deep_view()) == old(self)@.finish(code, fault),
    {
        self.finished = true;
        self.code = code;
        self.fault = fault;
        EngineStep::Exit(code)
    }

    fn after_revert(&mut self, rev: Reverter, step: RevertStep) -> (r: EngineStep)
        ensures
            (final(self)@, r.deep_view()) == old(self)@.after_revert(rev@, step.deep_view()),
    {
        self.rev = Some(rev);
        match step {
            RevertStep::Query(q) => EngineStep::Query(q),
            RevertStep::Act(a) => EngineStep::Act(a),
            RevertStep::Append(e) => EngineStep::Append(e),
            RevertStep::Finished { .. } => {
                self.reporter.record(Event::UndoCompleted { journal_id: self.journal_id });
                self.finish(SUCCESS, None)
            },
            RevertStep::Halted(f, _) => self.finish(OPERATIONAL_FAILURE, Some(f)),
        }
    }

    /// Takes the reply to the last request and returns the next one, or the
    /// exit code. Records made on the way are stamped with `now`.
    pub fn resume_at(&mut self, reply: Reply, now: Timestamp) -> (step: EngineStep)
        ensures
            (final(self)@, step.deep_view()) == old(self)@.resume(reply.deep_view(), now),
    {
        if self.finished {
            return EngineStep::Exit(self.code);
        }
        match self.rev.take() {
            None => self.finish(OPERATIONAL_FAILURE, Some(Fault::Protocol)),
            Some(rev) => {
                let mut rev = rev;
                let step = rev.resume_at(reply, now);
                self.after_revert(rev, step)
            },
        }
    }

    /// Takes the reply to the last request, at the current time.
    pub fn resume(&mut self, reply: Reply) -> (step: EngineStep)
        ensures
            exists|t: Timestamp|
                (final(self)@, step.deep_view()) == old(self)@.resume(reply.deep_view(), t),
    {
        let t = now();
        self.resume_at(reply, t)
    }
}

/// Begins a run of `undo` on the records of a journal, under the journal
/// identifier `journal_id`, at time `now`: every `Applied` record with undo
/// metadata that no record says was undone is reversed, the last one first,
/// and gets an `Undone` record. A dry run reads the journal and does
/// nothing else.
pub fn undo_at(args: &UndoArgs, entries: &Vec<JournalEntry>, journal_id: u128, now: Timestamp) -> (r:
    (UndoRun, EngineStep))
    ensures
        (r.0@, r.1.deep_view()) == UndoView::begin(
            args.dry_run,
            args.json,
            entries.deep_view(),
            journal_id,
            now,
        ),
{
    let mut reporter = Reporter::new(args.json);
    reporter.record(Event::UndoStarted { journal_id });
    let mut run = UndoRun {
        dry_run: args.dry_run,
        journal_id,
        committed: is_committed(entries),
        rev: None,
        reporter,
        finished: false,
        code: SUCCESS,
        fault: None,
    };
    if args.dry_run {
        run.reporter.record(Event::UndoCompleted { journal_id });
        let step = run.finish(SUCCESS, None);
        return (run, step);
    }
    let indices = pending_inverses(entries);
    let mut worklist: Vec<JournalEntry> = Vec::new();
    let mut k: usize = 0;
    while k < indices.len()
        invariant
            k <= indices.len(),
            worklist.len() == k,
            indices@.map_values(|i: usize| i as int) == pending(entries.deep_view()),
            forall|j: int| 0 <= j < indices.len() ==> indices[j] < entries.len(),
            forall|j: int|
                0 <= j < k ==> worklist[j]@ == entries.deep_view()[pending(entries.deep_view())[j]],
        decreases indices.len() - k,
    {
        let i = indices[k];
        assert(indices@.map_values(|i: usize| i as int)[k as int] == i as int);
        assert(entries.deep_view()[i as int] == entries[i as int]@);
        worklist.push(entries[i].duplicate());
        k = k + 1;
    }
    proof {
        assert(indices@.map_values(|i: usize| i as int).len() == indices.len());
        assert(worklist.deep_view() =~= select(entries.deep_view(), pending(entries.deep_view())));
    }
    let (rev, step) = Reverter::begin_at(worklist, false, now);
    let step = run.after_revert(rev, step);
    (run, step)
}

/// Begins a run of `undo` under a fresh identifier at the current time.
pub fn undo(args: &UndoArgs, entries: &Vec<JournalEntry>) -> (r: (UndoRun, EngineStep))
    ensures
        exists|journal_id: u128, t: Timestamp|
            (r.0@, r.1.deep_view()) == UndoView::begin(
                args.dry_run,
                args.json,
                entries.deep_view(),
                journal_id,
                t,
            ),
{
    let journal_id = fresh_id();
    let t = now();
    undo_at(args, entries, journal_id, t)
}

proof fn lemma_validate_quiet(s: ApplyView, now: Timestamp)
    requires
        s.passive(),
        s.quiet(),
    ensures
        s.validate(now).0.passive(),
        s.validate(now).0.quiet(),
        s.validate(now).1.passive(),
    decreases validation_left(s.stage), s.plan.operations.len() - s.index,
{
    if validation_left(s.stage) == 0 {
    } else if s.ids.len() != s.plan.operations.len() {
    } else if s.index < 0 || s.index >= s.plan.operations.len() {
        match s.stage {
            Stage::Confining => {
                lemma_validate_quiet(
                    ApplyView { stage: Stage::Normalizing, index: 0, ..s },
                    now,
                );
            },
            Stage::Normalizing => {
                lemma_validate_quiet(
                    ApplyView { stage: Stage::Preflighting, index: 0, ..s },
                    now,
                );
            },
            _ => {},
        }
    } else {
        match s.check() {
            OutcomeView::Done(found) => {
                lemma_validate_quiet(
                    ApplyView {
                        index: s.index + 1,
                        normalized: match found {
                            Some(n) => s.normalized.push(n),
                            None => s.normalized,
                        },
                        ..s
                    },
                    now,
                );
            },
            _ => {},
        }
    }
}

/// The steps that a run takes while it is fed the replies of `replies` in
/// order, each with the time at which it comes; `first` is the step with
/// which it began.
pub open spec fn steps_taken(
    s: ApplyView,
    first: EngineStepView,
    replies: Seq<(ReplyView, Timestamp)>,
) -> Seq<EngineStepView>
    decreases replies.len(),
{
    if replies.len() == 0 {
        seq![first]
    } else {
        let (reply, now) = replies[0];
        let (next, following) = s.resume(reply, now);
        seq![first] + steps_taken(next, following, replies.drop_first())
    }
}

proof fn lemma_quiet_steps(s: ApplyView, first: EngineStepView, replies: Seq<(ReplyView, Timestamp)>)
    requires
        s.passive(),
        s.quiet(),
        first.passive(),
    ensures
        forall|k: int|
            0 <= k < steps_taken(s, first, replies).len() ==> (#[trigger] steps_taken(
                s,
                first,
                replies,
            )[k]).passive(),
    decreases replies.len(),
{
    if replies.len() > 0 {
        let (reply, now) = replies[0];
        let (next, following) = s.resume(reply, now);
        if validation_left(s.stage) > 0 {
            if let Some(q) = s.asked {
                if let Some(facts) = JobView::learn(s.facts, q, reply) {
                    lemma_validate_quiet(ApplyView { facts, asked: None, ..s }, now);
                }
            }
        }
        lemma_quiet_steps(next, following, replies.drop_first());
        let rest = steps_taken(next, following, replies.drop_first());
        assert forall|k: int| 0 <= k < (seq![first] + rest).len() implies (#[trigger] (seq![first]
            + rest)[k]).passive() by {
            if k > 0 {
                assert((seq![first] + rest)[k] == rest[k - 1]);
            }
        }
    }
}

/// A validate-only run and a dry run leave the file system and the journal
/// alone: whatever the replies, no step of such a run asks for an action or
/// for a record to be written. Every step is a query or the exit.
pub proof fn lemma_passive_run_is_passive(
    validate_only: bool,
    dry_run: bool,
    json: bool,
    plan: PlanView,
    plan_id: u128,
    ids: Seq<u128>,
    now: Timestamp,
    replies: Seq<(ReplyView, Timestamp)>,
)
    requires
        validate_only || dry_run,
    ensures
        ({
            let (s, first) = ApplyView::initial(
                validate_only,
                dry_run,
                json,
                plan,
                plan_id,
                ids,
            ).begin(now);
            forall|k: int|
                0 <= k < steps_taken(s, first, replies).len() ==> (#[trigger] steps_taken(
                    s,
                    first,
                    replies,
                )[k]).passive()
        }),
{
    let start = ApplyView::initial(validate_only, dry_run, json, plan, plan_id, ids);
    lemma_validate_quiet(start, now);
    let (s, first) = start.begin(now);
    lemma_quiet_steps(s, first, replies);
}

/// A dry run of `undo` ends at once, with success, and asks for nothing:
/// no action, no record.
pub proof fn lemma_undo_dry_run_is_passive(
    json: bool,
    entries: Seq<EntryView>,
    journal_id: u128,
    now: Timestamp,
    reply: ReplyView,
    later: Timestamp,
)
    ensures
        UndoView::begin(true, json, entries, journal_id, now).1 == EngineStepView::Exit(SUCCESS),
        UndoView::begin(true, json, entries, journal_id, now).0.resume(reply, later).1
            == EngineStepView::Exit(SUCCESS),
{
}

/// In `all` mode the failure of an operation begins the rollback of all
/// that was applied before it, the last applied first, and the run can only
/// end with the code of a transactional failure.
pub proof fn lemma_failure_rolls_back(s: ApplyView, f: Fault, words: Seq<char>, now: Timestamp)
    requires
        s.plan.transaction == TransactionMode::All,
        0 <= s.index < s.normalized.len(),
        s.tm.phase is Idle,
    ensures
        ({
            let (next, step) = s.after_tx(TxStepView::Failed(f, words), now);
            &&& next.tm.applied.len() == 0
            &&& next.stage == Stage::RollingBack || next.stage == Stage::Finished
            &&& step is Exit ==> step == EngineStepView::Exit(TRANSACTIONAL_FAILURE)
            &&& next.tm.phase matches PhaseView::Reverting { rev } ==> rev.worklist
                == s.tm.applied.reverse()
        }),
{
    lemma_rollback_takes_all(s.tm, now);
}

impl ApplyView {
    /// Whether, by what is known of the file system, the first `confined`
    /// operations are confined, the first `numbered` are normalized to the
    /// operations that the run holds, and the first `cleared` pass
    /// preflight.
    pub open spec fn vetted_upto(self, confined: int, numbered: int, cleared: int) -> bool {
        let ops = self.plan.operations;
        let root = self.plan.root;
        &&& self.normalized.len() == numbered
        &&& forall|j: int|
            0 <= j < confined ==> op_confined(self.facts, root, #[trigger] ops[j]) is Done
        &&& forall|j: int|
            0 <= j < numbered ==> normalized_op(self.facts, root, #[trigger] ops[j], self.ids[j])
                == OutcomeView::Done(self.normalized[j])
        &&& forall|j: int|
            0 <= j < cleared ==> preflight_op(
                self.facts,
                root,
                self.plan.symlink_policy,
                #[trigger] ops[j],
            ) is Done
    }

    /// Whether the whole plan has passed validation.
    pub open spec fn vetted(self) -> bool {
        let n = self.plan.operations.len() as int;
        self.ids.len() == n && self.vetted_upto(n, n, n)
    }

    /// What holds of every state of a run: validation has got as far as the
    /// stage and the index say, and nothing is executed, and no run ends in
    /// success, before the whole plan has passed.
    pub open spec fn sound(self) -> bool {
        let n = self.plan.operations.len() as int;
        let at = self.index;
        let reached = match self.stage {
            Stage::Confining => self.ids.len() == n && 0 <= at <= n && self.vetted_upto(at, 0, 0),
            Stage::Normalizing => self.ids.len() == n && 0 <= at <= n && self.vetted_upto(
                n,
                at,
                0,
            ),
            Stage::Preflighting => self.ids.len() == n && 0 <= at <= n && self.vetted_upto(
                n,
                n,
                at,
            ),
            Stage::Finished => self.code == SUCCESS ==> self.vetted(),
            _ => self.vetted(),
        };
        &&& reached
        &&& validation_left(self.stage) > 0 && self.asked is Some ==> !self.facts.answers(
            self.asked->0,
        )
    }

    /// Whether `other` differs from this state in nothing that validation
    /// has established.
    pub open spec fn same_plan(self, other: ApplyView) -> bool {
        &&& other.plan == self.plan
        &&& other.ids == self.ids
        &&& other.facts == self.facts
        &&& other.normalized == self.normalized
    }

    /// Whether the run is executing, or has ended without success.
    pub open spec fn at_work(self) -> bool {
        self.stage == Stage::Executing || self.stage == Stage::RollingBack || self.stage
            == Stage::Committing || (self.stage == Stage::Finished && self.code != SUCCESS)
    }
}

/// An answer to a query that had none adds to what is known and takes
/// nothing away.
proof fn lemma_learn_grows(facts: FactsView, q: QueryView, reply: ReplyView)
    requires
        !facts.answers(q),
        JobView::learn(facts, q, reply) is Some,
    ensures
        facts.within(JobView::learn(facts, q, reply)->0),
{
}

/// What validation has established stays established when more becomes
/// known.
proof fn lemma_vetted_grows(s: ApplyView, more: FactsView, a: int, b: int, c: int)
    requires
        s.vetted_upto(a, b, c),
        s.facts.within(more),
    ensures
        (ApplyView { facts: more, ..s }).vetted_upto(a, b, c),
{
    let ops = s.plan.operations;
    let root = s.plan.root;
    let t = ApplyView { facts: more, ..s };
    assert forall|j: int| 0 <= j < a implies op_confined(more, root, #[trigger] ops[j]) is Done by {
        lemma_op_confined_stable(s.facts, more, root, ops[j]);
    }
    assert forall|j: int| 0 <= j < b implies normalized_op(more, root, #[trigger] ops[j], s.ids[j])
        == OutcomeView::Done(s.normalized[j]) by {
        lemma_normalized_op_stable(s.facts, more, root, ops[j], s.ids[j]);
    }
    assert forall|j: int| 0 <= j < c implies preflight_op(
        more,
        root,
        s.plan.symlink_policy,
        #[trigger] ops[j],
    ) is Done by {
        lemma_preflight_op_stable(s.facts, more, root, s.plan.symlink_policy, ops[j]);
    }
}

proof fn lemma_after_rollback_frame(s: ApplyView, step: TxStepView)
    requires
        s.stage == Stage::RollingBack,
    ensures
        s.same_plan(s.after_rollback(step).0),
        s.after_rollback(step).0.at_work(),
{
}

proof fn lemma_next_op_frame(s: ApplyView, now: Timestamp)
    requires
        s.stage == Stage::Executing,
    ensures
        s.same_plan(s.next_op(now).0),
        s.next_op(now).0.at_work(),
    decreases s.normalized.len() - s.index, 1int,
{
    if !(s.index < 0 || s.index >= s.normalized.len()) {
        let op = s.normalized[s.index];
        let (tm, step) = s.tm.execute(op, now);
        let t = ApplyView {
            reporter: s.reporter.record(EventView::OpStarted { op_id: op.id }),
            tm,
            ..s
        };
        lemma_after_tx_frame(t, step, now);
    }
}

proof fn lemma_after_tx_frame(s: ApplyView, step: TxStepView, now: Timestamp)
    requires
        s.stage == Stage::Executing,
    ensures
        s.same_plan(s.after_tx(step, now).0),
        s.after_tx(step, now).0.at_work(),
    decreases s.normalized.len() - s.index, 0int,
{
    if !(s.index < 0 || s.index >= s.normalized.len()) {
        let op_id = s.normalized[s.index].id;
        match step {
            TxStepView::Applied(result) => {
                let t = ApplyView {
                    reporter: s.reporter.record(
                        EventView::OpCompleted {
                            op_id,
                            bytes_copied: result.bytes_copied,
                            final_dst: result.final_dst,
                        },
                    ),
                    index: s.index + 1,
                    ..s
                };
                lemma_next_op_frame(t, now);
            },
            TxStepView::Failed(f, words) => {
                let failed = ApplyView {
                    reporter: s.reporter.record(
                        EventView::OpFailed { op_id, error: failure_text(f, words) },
                    ),
                    ..s
                };
                if s.plan.transaction == TransactionMode::All {
                    let (tm, back) = failed.tm.rollback(now);
                    lemma_after_rollback_frame(
                        ApplyView { stage: Stage::RollingBack, tm, fault: Some(f), ..failed },
                        back,
                    );
                } else {
                    lemma_next_op_frame(ApplyView { index: s.index + 1, ..failed }, now);
                }
            },
            _ => {},
        }
    }
}

proof fn lemma_validate_sound(s: ApplyView, now: Timestamp)
    requires
        s.sound(),
        s.asked is None,
    ensures
        s.validate(now).0.sound(),
    decreases validation_left(s.stage), s.plan.operations.len() - s.index,
{
    let n = s.plan.operations.len() as int;
    if validation_left(s.stage) == 0 {
    } else if s.ids.len() != s.plan.operations.len() {
    } else if s.index < 0 || s.index >= s.plan.operations.len() {
        match s.stage {
            Stage::Confining => {
                lemma_validate_sound(ApplyView { stage: Stage::Normalizing, index: 0, ..s }, now);
            },
            Stage::Normalizing => {
                lemma_validate_sound(
                    ApplyView { stage: Stage::Preflighting, index: 0, ..s },
                    now,
                );
            },
            _ => {
                assert(s.vetted());
                if !s.validate_only && !s.dry_run {
                    lemma_next_op_frame(ApplyView { stage: Stage::Executing, index: 0, ..s }, now);
                }
            },
        }
    } else {
        let op = s.plan.operations[s.index];
        lemma_op_confined_stable(s.facts, s.facts, s.plan.root, op);
        lemma_preflight_op_stable(s.facts, s.facts, s.plan.root, s.plan.symlink_policy, op);
        match s.check() {
            OutcomeView::Ask(q) => {
                if s.stage == Stage::Normalizing {
                    lemma_normalized_op_asks(s.facts, s.plan.root, op, s.ids[s.index]);
                }
            },
            OutcomeView::Fail(f) => {},
            OutcomeView::Done(found) => {
                let t = ApplyView {
                    index: s.index + 1,
                    normalized: match found {
                        Some(n) => s.normalized.push(n),
                        None => s.normalized,
                    },
                    ..s
                };
                assert(t.sound());
                lemma_validate_sound(t, now);
            },
        }
    }
}

/// Every step keeps a run sound.
pub proof fn lemma_resume_sound(s: ApplyView, reply: ReplyView, now: Timestamp)
    requires
        s.sound(),
    ensures
        s.resume(reply, now).0.sound(),
{
    match s.stage {
        Stage::Finished => {},
        Stage::Executing => {
            if 0 <= s.index < s.normalized.len() {
                let (tm, step) = s.tm.resume(reply, now);
                lemma_after_tx_frame(ApplyView { tm, ..s }, step, now);
            }
        },
        Stage::RollingBack => {
            let (tm, step) = s.tm.resume(reply, now);
            lemma_after_rollback_frame(ApplyView { tm, ..s }, step);
        },
        Stage::Committing => {},
        _ => {
            if let Some(q) = s.asked {
                if let Some(facts) = JobView::learn(s.facts, q, reply) {
                    lemma_learn_grows(s.facts, q, reply);
                    let n = s.plan.operations.len() as int;
                    let t = ApplyView { facts, asked: None, ..s };
                    match s.stage {
                        Stage::Confining => {
                            lemma_vetted_grows(s, facts, s.index, 0, 0);
                        },
                        Stage::Normalizing => {
                            lemma_vetted_grows(s, facts, n, s.index, 0);
                        },
                        _ => {
                            lemma_vetted_grows(s, facts, n, n, s.index);
                        },
                    }
                    assert(t.sound());
                    lemma_validate_sound(t, now);
                }
            }
        },
    }
}

/// A run begins sound.
pub proof fn lemma_begin_sound(
    validate_only: bool,
    dry_run: bool,
    json: bool,
    plan: PlanView,
    plan_id: u128,
    ids: Seq<u128>,
    now: Timestamp,
)
    ensures
        ApplyView::initial(validate_only, dry_run, json, plan, plan_id, ids).begin(now).0.sound(),
{
    let start = ApplyView::initial(validate_only, dry_run, json, plan, plan_id, ids);
    if plan.root.absolute {
        if ids.len() == plan.operations.len() {
            assert(start.sound());
            lemma_validate_sound(start, now);
        }
    }
}

/// What it means that a plan has passed validation. By what the run has
/// learned of the file system, every path of every operation is confined to
/// the root, every operation passes preflight, the operations that the run
/// holds are the normalized operations of the plan, in order, and every
/// resolved path of theirs lies below the canonical form of the root.
///
/// Together with [`lemma_begin_sound`] and [`lemma_resume_sound`] this says
/// that no operation is executed, and no run ends in success, on a plan of
/// which any of this does not hold.
pub proof fn lemma_vetted_plan(s: ApplyView)
    requires
        s.vetted(),
    ensures
        confinement(s.facts, s.plan) is Done,
        preflight(s.facts, s.plan) is Done,
        normalized(s.facts, s.plan) == OutcomeView::Done(unnumbered(s.normalized)),
        s.plan.operations.len() > 0 ==> s.facts.canonical.contains_key(s.plan.root)
            && s.facts.canonical[s.plan.root] is Some,
        forall|j: int|
            0 <= j < s.normalized.len() ==> (#[trigger] s.normalized[j]).confined_to(
                s.facts.canonical[s.plan.root]->0,
            ),
{
    let ops = s.plan.operations;
    let root = s.plan.root;
    lemma_vetted_from(s, 0);
    assert(unnumbered(s.normalized).skip(0) =~= unnumbered(s.normalized));
    assert forall|j: int| 0 <= j < s.normalized.len() implies (#[trigger] s.normalized[j]).confined_to(
        s.facts.canonical[root]->0,
    ) by {
        let op = ops[j];
        assert(normalized_op(s.facts, root, op, s.ids[j]) == OutcomeView::Done(s.normalized[j]));
        if let Some(src) = op.src() {
            lemma_resolved_below_root(s.facts, root, src);
        }
        if let Some(dst) = op.dst() {
            lemma_resolved_below_root(s.facts, root, dst);
        }
    }
    if ops.len() > 0 {
        let op = ops[0];
        assert(op_confined(s.facts, root, op) is Done);
        if let Some(src) = op.src() {
            lemma_resolved_below_root(s.facts, root, src);
        }
        if let Some(dst) = op.dst() {
            lemma_resolved_below_root(s.facts, root, dst);
        }
    }
}

proof fn lemma_vetted_from(s: ApplyView, i: int)
    requires
        s.vetted(),
        0 <= i <= s.plan.operations.len(),
    ensures
        confined_from(s.facts, s.plan.root, s.plan.operations, i) is Done,
        preflight_from(s.facts, s.plan.root, s.plan.symlink_policy, s.plan.operations, i) is Done,
        normalized_from(s.facts, s.plan.root, s.plan.operations, i) == OutcomeView::Done(
            unnumbered(s.normalized).skip(i),
        ),
    decreases s.plan.operations.len() - i,
{
    let ops = s.plan.operations;
    if i < ops.len() {
        lemma_vetted_from(s, i + 1);
        let op = ops[i];
        assert(op_confined(s.facts, s.plan.root, op) is Done);
        assert(normalized_op(s.facts, s.plan.root, op, s.ids[i]) == OutcomeView::Done(
            s.normalized[i],
        ));
        assert(normalized_op(s.facts, s.plan.root, op, 0) == OutcomeView::Done(
            s.normalized[i].with_id(0),
        ));
        assert(unnumbered(s.normalized).skip(i) =~= seq![s.normalized[i].with_id(0)] + unnumbered(
            s.normalized,
        ).skip(i + 1));
    } else {
        assert(unnumbered(s.normalized).skip(i) =~= Seq::<NormalizedView>::empty());
    }
}

} // verus!
