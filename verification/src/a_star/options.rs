use vstd::prelude::*;

use std::time::Duration;

verus! {

/// Tuning knobs for one search call; immutable for its duration.
///
/// `log_interval` paces the progress gate (default five seconds),
/// `suppress_logs` turns that gate off, `iteration_limit` caps the number of
/// expansion steps (default unbounded), and `expansion_workers` selects the
/// fork-join batch width — one means classic sequential expansion.
pub struct Options {
    pub log_interval: Duration,
    pub suppress_logs: bool,
    pub iteration_limit: Option<usize>,
    pub expansion_workers: usize,
}

/// Relies on std's `Duration::from_secs`; the value only paces progress
/// reporting and carries no contract.
#[verifier::external_body]
fn duration_from_secs(secs: u64) -> Duration {
    Duration::from_secs(secs)
}

impl Options {
    pub fn with_log_interval(self, log_interval: Duration) -> (r: Self)
        ensures
            r.log_interval == log_interval,
            r.suppress_logs == self.suppress_logs,
            r.iteration_limit == self.iteration_limit,
            r.expansion_workers == self.expansion_workers,
    {
        Self { log_interval, ..self }
    }

    pub fn with_no_logs(self) -> (r: Self)
        ensures
            r.suppress_logs == true,
            r.log_interval == self.log_interval,
            r.iteration_limit == self.iteration_limit,
            r.expansion_workers == self.expansion_workers,
    {
        Self { suppress_logs: true, ..self }
    }

    pub fn with_iteration_limit(self, limit: usize) -> (r: Self)
        ensures
            r.iteration_limit == Some(limit),
            r.log_interval == self.log_interval,
            r.suppress_logs == self.suppress_logs,
            r.expansion_workers == self.expansion_workers,
    {
        Self { iteration_limit: Some(limit), ..self }
    }

    pub fn with_expansion_workers(self, workers: usize) -> (r: Self)
        ensures
            r.expansion_workers == workers,
            r.log_interval == self.log_interval,
            r.suppress_logs == self.suppress_logs,
            r.iteration_limit == self.iteration_limit,
    {
        Self { expansion_workers: workers, ..self }
    }
}

impl Default for Options {
    /// Logs every five seconds, no iteration limit, sequential expansion.
    /// The five-second figure cannot appear in the contract while the
    /// interval is carried as an opaque `Duration`; it only paces progress
    /// reporting, which is advisory and excluded from correctness.
    fn default() -> (r: Self)
        ensures
            r.suppress_logs == false,
            r.iteration_limit is None,
            r.expansion_workers == 1,
    {
        Self {
            log_interval: duration_from_secs(5),
            suppress_logs: false,
            iteration_limit: None,
            expansion_workers: 1,
        }
    }
}

} // verus!
