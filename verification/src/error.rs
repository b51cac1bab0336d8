use vstd::prelude::*;

verus! {

/// The error kinds a benchmark run can surface.
///
/// Orchestration-level failures (environment, spawn) abort the whole run
/// after guaranteed teardown; extraction failures are recorded per trial and
/// the run continues; aggregation and report failures are isolated per
/// metric kind.
#[derive(Clone, Copy, Debug, PartialEq, Eq, Structural)]
pub enum BoarError {
    /// Applying or clearing the simulated network profile failed.
    EnvironmentError,
    /// The server or a client executable could not be started.
    ProcessSpawnError,
    /// A pattern that must match exactly once was absent or malformed.
    ExtractionError,
    /// An aggregate or distribution was requested over zero samples.
    EmptyDataset,
    /// Persisting an output artifact failed.
    ReportWriteError,
}

impl BoarError {
    /// A short stable name for the error kind, for unverified reporting code.
    pub fn describe(&self) -> (r: &'static str)
        ensures
            self is EnvironmentError ==> r@ == "environment error"@,
            self is ProcessSpawnError ==> r@ == "process spawn error"@,
            self is ExtractionError ==> r@ == "extraction error"@,
            self is EmptyDataset ==> r@ == "empty dataset"@,
            self is ReportWriteError ==> r@ == "report write error"@,
    {
        match self {
            BoarError::EnvironmentError => "environment error",
            BoarError::ProcessSpawnError => "process spawn error",
            BoarError::ExtractionError => "extraction error",
            BoarError::EmptyDataset => "empty dataset",
            BoarError::ReportWriteError => "report write error",
        }
    }
}

} // verus!
