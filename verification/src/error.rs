//! The error taxonomy of the library: transport failures, malformed input,
//! configuration problems, unknown formats, and reentrant misuse of a
//! single-shot source.

use vstd::prelude::*;

verus! {

/// An error of the retrieval-filter-rank-render pipeline. Fetch and parse
/// errors propagate to the caller immediately; none is retried or silently
/// downgraded.
#[derive(Clone, Debug, PartialEq, Eq)]
pub enum RepologyError {
    /// A network or HTTP-layer failure, including a non-2xx status.
    Transport(String),
    /// Malformed input: invalid UTF-8 or invalid JSON, or a record of the
    /// wrong shape.
    Decode(String),
    /// A missing or unusable configuration value.
    Configuration(String),
    /// An unrecognized compare-file extension or output format.
    UnknownFormat(String),
    /// A reentrant use of a buffered single-shot source. The captured source
    /// of this library owns its buffer exclusively, so it never raises this.
    ConcurrentAccess,
}

impl RepologyError {
    /// The message text of the error.
    pub open spec fn spec_message(&self) -> Seq<char> {
        match self {
            RepologyError::Transport(m) => "transport error: "@ + m@,
            RepologyError::Decode(m) => "decode error: "@ + m@,
            RepologyError::Configuration(m) => "configuration error: "@ + m@,
            RepologyError::UnknownFormat(m) => "unknown format: "@ + m@,
            RepologyError::ConcurrentAccess => "concurrent access to a single-shot source"@,
        }
    }

    pub fn message(&self) -> (r: String)
        ensures
            r@ == self.spec_message(),
    {
        match self {
            RepologyError::Transport(m) => {
                let s = String::from_str("transport error: ");
                s.concat(m.as_str())
            },
            RepologyError::Decode(m) => {
                let s = String::from_str("decode error: ");
                s.concat(m.as_str())
            },
            RepologyError::Configuration(m) => {
                let s = String::from_str("configuration error: ");
                s.concat(m.as_str())
            },
            RepologyError::UnknownFormat(m) => {
                let s = String::from_str("unknown format: ");
                s.concat(m.as_str())
            },
            RepologyError::ConcurrentAccess => {
                String::from_str("concurrent access to a single-shot source")
            },
        }
    }
}

} // verus!
