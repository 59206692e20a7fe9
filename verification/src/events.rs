//! Structured events for observers.

use crate::path::{FsPath, PathView};
use vstd::prelude::*;
use vstd::string::*;

verus! {

/// One lifecycle transition, as observers see it.
#[derive(Debug, Clone, PartialEq, Eq)]
pub enum Event {
    PlanValidated { plan_id: u128 },
    OpPlanned { op_id: u128, op_type: String, src: Option<FsPath>, dst: Option<FsPath> },
    OpStarted { op_id: u128 },
    OpCompleted { op_id: u128, bytes_copied: u64, final_dst: FsPath },
    OpFailed { op_id: u128, error: String },
    TxnCommitted { plan_id: u128 },
    TxnAborted { plan_id: u128 },
    UndoStarted { journal_id: u128 },
    UndoCompleted { journal_id: u128 },
}

/// The mathematical value of an [`Event`].
pub enum EventView {
    PlanValidated { plan_id: u128 },
    OpPlanned { op_id: u128, op_type: Seq<char>, src: Option<PathView>, dst: Option<PathView> },
    OpStarted { op_id: u128 },
    OpCompleted { op_id: u128, bytes_copied: u64, final_dst: PathView },
    OpFailed { op_id: u128, error: Seq<char> },
    TxnCommitted { plan_id: u128 },
    TxnAborted { plan_id: u128 },
    UndoStarted { journal_id: u128 },
    UndoCompleted { journal_id: u128 },
}

impl DeepView for Event {
    type V = EventView;

    open spec fn deep_view(&self) -> EventView {
        match self {
            Event::PlanValidated { plan_id } => EventView::PlanValidated { plan_id: *plan_id },
            Event::OpPlanned { op_id, op_type, src, dst } => EventView::OpPlanned {
                op_id: *op_id,
                op_type: op_type@,
                src: src.deep_view(),
                dst: dst.deep_view(),
            },
            Event::OpStarted { op_id } => EventView::OpStarted { op_id: *op_id },
            Event::OpCompleted { op_id, bytes_copied, final_dst } => EventView::OpCompleted {
                op_id: *op_id,
                bytes_copied: *bytes_copied,
                final_dst: final_dst@,
            },
            Event::OpFailed { op_id, error } => EventView::OpFailed {
                op_id: *op_id,
                error: error@,
            },
            Event::TxnCommitted { plan_id } => EventView::TxnCommitted { plan_id: *plan_id },
            Event::TxnAborted { plan_id } => EventView::TxnAborted { plan_id: *plan_id },
            Event::UndoStarted { journal_id } => EventView::UndoStarted {
                journal_id: *journal_id,
            },
            Event::UndoCompleted { journal_id } => EventView::UndoCompleted {
                journal_id: *journal_id,
            },
        }
    }
}

impl Event {
    /// The event's kind as the event stream writes it.
    pub fn kind_name(&self) -> (s: String)
        ensures
            s@ == kind_of(self.deep_view()),
    {
        match self {
            Event::PlanValidated { .. } => String::from_str("plan_validated"),
            Event::OpPlanned { .. } => String::from_str("op_planned"),
            Event::OpStarted { .. } => String::from_str("op_started"),
            Event::OpCompleted { .. } => String::from_str("op_completed"),
            Event::OpFailed { .. } => String::from_str("op_failed"),
            Event::TxnCommitted { .. } => String::from_str("txn_committed"),
            Event::TxnAborted { .. } => String::from_str("txn_aborted"),
            Event::UndoStarted { .. } => String::from_str("undo_started"),
            Event::UndoCompleted { .. } => String::from_str("undo_completed"),
        }
    }

    /// A copy of the event.
    pub fn duplicate(&self) -> (r: Event)
        ensures
            r.deep_view() == self.deep_view(),
    {
        match self {
            Event::PlanValidated { plan_id } => Event::PlanValidated { plan_id: *plan_id },
            Event::OpPlanned { op_id, op_type, src, dst } => Event::OpPlanned {
                op_id: *op_id,
                op_type: op_type.clone(),
                src: match src {
                    Some(p) => Some(p.duplicate()),
                    None => None,
                },
                dst: match dst {
                    Some(p) => Some(p.duplicate()),
                    None => None,
                },
            },
            Event::OpStarted { op_id } => Event::OpStarted { op_id: *op_id },
            Event::OpCompleted { op_id, bytes_copied, final_dst } => Event::OpCompleted {
                op_id: *op_id,
                bytes_copied: *bytes_copied,
                final_dst: final_dst.duplicate(),
            },
            Event::OpFailed { op_id, error } => Event::OpFailed {
                op_id: *op_id,
                error: error.clone(),
            },
            Event::TxnCommitted { plan_id } => Event::TxnCommitted { plan_id: *plan_id },
            Event::TxnAborted { plan_id } => Event::TxnAborted { plan_id: *plan_id },
            Event::UndoStarted { journal_id } => Event::UndoStarted { journal_id: *journal_id },
            Event::UndoCompleted { journal_id } => Event::UndoCompleted {
                journal_id: *journal_id,
            },
        }
    }
}

/// The kind of an event as the event stream writes it.
pub open spec fn kind_of(e: EventView) -> Seq<char> {
    match e {
        EventView::PlanValidated { .. } => "plan_validated"@,
        EventView::OpPlanned { .. } => "op_planned"@,
        EventView::OpStarted { .. } => "op_started"@,
        EventView::OpCompleted { .. } => "op_completed"@,
        EventView::OpFailed { .. } => "op_failed"@,
        EventView::TxnCommitted { .. } => "txn_committed"@,
        EventView::TxnAborted { .. } => "txn_aborted"@,
        EventView::UndoStarted { .. } => "undo_started"@,
        EventView::UndoCompleted { .. } => "undo_completed"@,
    }
}

} // verus!
