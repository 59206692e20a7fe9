//! The reporter: every event of a run, in order.

use crate::events::{Event, EventView};
use crate::text::{decimal, decimal_text};
use vstd::prelude::*;
use vstd::string::*;

verus! {

/// The mathematical value of a [`Reporter`].
pub struct ReporterView {
    /// Every event recorded, in order.
    pub events: Seq<EventView>,
    /// The events that are still to be written out, in order.
    pub outbox: Seq<EventView>,
    /// Whether events are written out one by one.
    pub json_mode: bool,
}

/// Gathers the events of a run. In JSON mode every event is also queued to
/// be written out at once; else the events are only kept for the summary.
#[derive(Debug, Clone)]
pub struct Reporter {
    events: Vec<Event>,
    outbox: Vec<Event>,
    json_mode: bool,
}

impl View for Reporter {
    type V = ReporterView;

    closed spec fn view(&self) -> ReporterView {
        ReporterView {
            events: self.events.deep_view(),
            outbox: self.outbox.deep_view(),
            json_mode: self.json_mode,
        }
    }
}

impl ReporterView {
    /// A reporter without events.
    pub open spec fn fresh(json_mode: bool) -> ReporterView {
        ReporterView { events: Seq::empty(), outbox: Seq::empty(), json_mode }
    }

    /// The reporter after one more event.
    pub open spec fn record(self, e: EventView) -> ReporterView {
        ReporterView {
            events: self.events.push(e),
            outbox: if self.json_mode {
                self.outbox.push(e)
            } else {
                self.outbox
            },
            json_mode: self.json_mode,
        }
    }

    /// The reporter after its queue was handed out.
    pub open spec fn drained(self) -> ReporterView {
        ReporterView { outbox: Seq::empty(), ..self }
    }
}

/// The words of the summary for a number of events.
pub open spec fn summary_text(n: nat) -> Seq<char> {
    decimal_text(n) + " events recorded"@
}

impl Reporter {
    /// A reporter without events.
    pub fn new(json_mode: bool) -> (r: Reporter)
        ensures
            r@ == ReporterView::fresh(json_mode),
    {
        let events: Vec<Event> = Vec::new();
        let outbox: Vec<Event> = Vec::new();
        assert(events.deep_view() =~= Seq::<EventView>::empty());
        assert(outbox.deep_view() =~= Seq::<EventView>::empty());
        Reporter { events, outbox, json_mode }
    }

    /// Records an event. Recording cannot fail.
    pub fn record(&mut self, event: Event)
        ensures
            final(self)@ == old(self)@.record(event.deep_view()),
    {
        let ghost events = self.events.deep_view();
        let ghost outbox = self.outbox.deep_view();
        if self.json_mode {
            self.outbox.push(event.duplicate());
            assert(self.outbox.deep_view() =~= outbox.push(event.deep_view()));
        }
        self.events.push(event);
        assert(self.events.deep_view() =~= events.push(event.deep_view()));
    }

    /// Hands out the events that are to be written out, and empties the
    /// queue.
    pub fn take_output(&mut self) -> (out: Vec<Event>)
        ensures
            out.deep_view() == old(self)@.outbox,
            final(self)@ == old(self)@.drained(),
    {
        let mut out: Vec<Event> = Vec::new();
        core::mem::swap(&mut self.outbox, &mut out);
        assert(self.outbox.deep_view() =~= Seq::<EventView>::empty());
        out
    }

    /// The number of events recorded.
    pub fn count(&self) -> (n: usize)
        ensures
            n == self@.events.len(),
    {
        self.events.len()
    }

    /// The summary of the run.
    pub fn summary(&self) -> (s: String)
        ensures
            s@ == summary_text(self@.events.len()),
    {
        let s = decimal(self.events.len() as u64).concat(" events recorded");
        s
    }
}

} // verus!
