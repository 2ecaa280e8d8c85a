use vstd::prelude::*;

verus! {

/// The error taxonomy of the launcher core.
///
/// `Network` covers connectivity and timeout failures and is retryable.
/// `HashMismatch` is an integrity failure after a completed transfer; it
/// carries both digests so a caller can report them, and is retryable up to
/// the retry budget. `Decode` marks malformed JSON or TOML and is never
/// retried. `Io` marks a disk-level failure and is never retried.
/// `Cancelled` is a user-initiated stop, propagated distinctly so that
/// callers do not treat it as a fault.
#[derive(Debug, Clone, PartialEq, Eq)]
pub enum Error {
    Io(String),
    Network(String),
    Decode(String),
    HashMismatch { expected: String, actual: String },
    Cancelled,
    Instance(String),
    Version(String),
    Launch(String),
    Java(String),
    Settings(String),
    Other(String),
}

} // verus!
