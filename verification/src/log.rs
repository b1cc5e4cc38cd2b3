//! Structured log events.
//!
//! The real-time pipeline never prints: it queues structured entries, and
//! the host drains and renders them outside the audio deadline.

use vstd::prelude::*;

verus! {

/// Severity of a log entry.
#[derive(Clone, Copy, Debug, PartialEq, Eq)]
pub enum Log {
    Info,
    Warning,
    Error,
}

/// What a log entry reports.
#[derive(Clone, Debug, PartialEq, Eq)]
pub enum LogMessage {
    /// A refill decoded a block of a different size, so the sample buffer
    /// was reallocated.
    BufferResized { before: usize, after: usize },
    /// An I/O hiccup while decoding one packet; the packet was skipped.
    TransientIo(String),
    /// A malformed packet; the packet was skipped.
    TransientDecode(String),
    /// The host asked for an output region not divisible by the channel
    /// count; the trailing partial frame was not filled.
    MisalignedOutput,
    /// A sample lookup failed; the stream has ended and silence follows.
    LookupFailed(String),
}

/// One queued log event.
#[derive(Clone, Debug, PartialEq, Eq)]
pub struct LogEntry {
    pub kind: Log,
    pub message: LogMessage,
}

} // verus!
