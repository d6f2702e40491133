//! Error taxonomy for the bootstrap pipeline. Every fatal condition is one
//! of these kinds; the message carries the operator-facing diagnostic.

use vstd::prelude::*;

verus! {

/// The class of a fatal bootstrap error.
#[derive(Clone, Copy, Debug, PartialEq, Eq, Structural)]
pub enum ErrorKind {
    /// Missing or contradictory required settings; no run is performed.
    Configuration,
    /// A peer or binary source was unreachable, malformed, or empty when a
    /// non-empty result was required.
    Source,
    /// The downloaded binary failed signature verification.
    Verification,
    /// A filesystem failure other than an expected "not found".
    Io,
    /// Latency ranking produced zero acceptable peers.
    Threshold,
}

/// A fatal bootstrap error: its kind plus a human-readable message.
#[derive(Clone, Debug)]
pub struct Report {
    pub kind: ErrorKind,
    pub message: String,
}

impl Report {
    pub fn new(kind: ErrorKind, message: String) -> (r: Report)
        ensures
            r.kind == kind,
            r.message@ == message@,
    {
        Report { kind, message }
    }

    /// The operator-facing diagnostic text.
    pub fn message(&self) -> (r: &str)
        ensures
            r@ == self.message@,
    {
        self.message.as_str()
    }

    pub fn kind(&self) -> (r: ErrorKind)
        ensures
            r == self.kind,
    {
        self.kind
    }
}

} // verus!
