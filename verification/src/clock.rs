//! Time stamps.

use vstd::prelude::*;

verus! {

/// A point in time: seconds since 1970-01-01T00:00:00Z, not counting leap
/// seconds, and the nanoseconds since that second began.
#[derive(Debug, Clone, Copy, PartialEq, Eq)]
pub struct Timestamp {
    pub secs: i64,
    pub nanos: u32,
}

impl DeepView for Timestamp {
    type V = Timestamp;

    open spec fn deep_view(&self) -> Timestamp {
        *self
    }
}

/// The current time, read with `chrono::Utc::now` and taken apart with
/// `DateTime::timestamp` and `DateTime::timestamp_subsec_nanos`. Nothing is
/// claimed of the result: two calls may give any two values. Like
/// `Utc::now`, it panics on a machine whose clock is set before 1970.
#[verifier::external_body]
pub(crate) fn now() -> (t: Timestamp) {
    let t = chrono::Utc::now();
    Timestamp { secs: t.timestamp(), nanos: t.timestamp_subsec_nanos() }
}

} // verus!
