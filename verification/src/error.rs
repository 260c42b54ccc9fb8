use vstd::prelude::*;

verus! {

/// Error taxonomy of the benchmarking core.
///
/// Every category aborts the current sweep iteration; none is retried.
#[derive(Debug)]
pub enum BenchError {
    /// The caller's input is wrong: a bad or missing date, commit, or an
    /// empty job command.
    Usage(String),
    /// A required external binary is missing from the execution path.
    Unavailable(String),
    /// A data directory, log file or report file could not be used.
    Io(String),
    /// A job process exited nonzero; the payload names the captured
    /// stderr log for inspection.
    Execution(String),
    /// A report line for a recognized label failed to parse, or an
    /// elapsed-time value had the wrong number of components.
    Decode(String),
    /// A job result referenced a run that does not exist in the store.
    Integrity(String),
    /// No revision matches the requested date or identifier.
    NotFound(String),
}

} // verus!
