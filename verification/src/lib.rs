//! A verified log pipeline: raw lines from one workload's output stream
//! are decoded into timestamped records, restricted to an inclusive time
//! window, and routed to a message broker and a columnar store, with every
//! per-line and per-sink fault isolated so the stream always moves on.
//! Beside it stands the decision logic of the build webhook receiver:
//! signature checking and the branch-push trigger rule.

pub mod builder;
pub mod codec;
pub mod errors;
pub mod pipeline;
pub mod record;
pub mod timestamp;
pub mod webhook;
