use vstd::prelude::*;

use crate::timestamp::{ts_le, Timestamp};

verus! {

/// One decoded log line: the identifier of the workload it came from, the
/// instant carried by its leading timestamp token, and the free-text rest
/// of the line. Immutable once built.
#[derive(Clone, Debug)]
pub struct LogMessage {
    pub source: String,
    pub timestamp: Timestamp,
    pub text: String,
}

/// The mathematical value of a `LogMessage`.
#[verifier::ext_equal]
pub struct SpecRecord {
    pub source: Seq<char>,
    pub timestamp: Timestamp,
    pub body: Seq<char>,
}

impl View for LogMessage {
    type V = SpecRecord;

    open spec fn view(&self) -> SpecRecord {
        SpecRecord { source: self.source@, timestamp: self.timestamp, body: self.text@ }
    }
}

impl LogMessage {
    /// A field-by-field copy, equal to the original.
    pub fn duplicate(&self) -> (r: LogMessage)
        ensures
            r@ == self@,
    {
        LogMessage {
            source: self.source.clone(),
            timestamp: self.timestamp,
            text: self.text.clone(),
        }
    }
}

/// An inclusive time window. A window whose start lies after its end
/// matches nothing.
#[derive(Clone, Copy, Debug)]
pub struct LogFilter {
    pub start_time: Timestamp,
    pub end_time: Timestamp,
}

impl LogFilter {
    /// A record passes the filter when its timestamp lies within
    /// `[start_time, end_time]`, both bounds included.
    pub open spec fn spec_matches(self, r: SpecRecord) -> bool {
        ts_le(self.start_time, r.timestamp) && ts_le(r.timestamp, self.end_time)
    }

    pub fn matches(&self, message: &LogMessage) -> (r: bool)
        ensures
            r == self.spec_matches(message@),
    {
        self.start_time.le(&message.timestamp) && message.timestamp.le(&self.end_time)
    }
}

/// Widening a window never removes a match: every record admitted by a
/// window is admitted by every window that contains it.
pub proof fn lemma_matches_monotonic(narrow: LogFilter, wide: LogFilter, r: SpecRecord)
    requires
        ts_le(wide.start_time, narrow.start_time),
        ts_le(narrow.end_time, wide.end_time),
        narrow.spec_matches(r),
    ensures
        wide.spec_matches(r),
{
}

} // verus!
