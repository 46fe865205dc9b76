use vstd::prelude::*;

verus! {

/// A per-record or per-line fault. All of these are reported and the run
/// goes on; none of them stops the stream.
#[derive(Clone, Copy, PartialEq, Eq, Structural, Debug)]
pub enum RunError {
    /// A raw line had no body or its leading token was not a valid
    /// RFC 3339 timestamp; the line is skipped.
    MalformedLine,
    /// One read from the raw line source failed; the source goes on with
    /// the next line.
    ReadFailed,
    /// One record was not delivered to the broker sink; it is dropped for
    /// that sink and never retried.
    BrokerWriteFailed,
    /// One record was not inserted into the store sink; it is dropped for
    /// that sink and never retried.
    StoreWriteFailed,
}

/// A fault that terminates a pipeline run before any line is processed.
#[derive(Clone, Copy, PartialEq, Eq, Structural, Debug)]
pub enum PipelineError {
    /// The raw line source could not be opened.
    SourceUnavailable,
}

} // verus!
