//! Comparative benchmarking core: append-only sample stores per experiment
//! and metric, integer statistics (mean, spread, confidence interval),
//! ASCII distribution plots, and textual report rendering.

pub mod display;
pub mod distr_plot;
pub mod experiment;
pub mod experiment_map;
pub mod experiment_name;
pub mod math;
pub mod measure;
pub mod measure_key;
pub mod measure_map;
pub mod render;
pub mod run;
pub mod stats;
pub mod store;

use vstd::prelude::*;

verus! {

/// Errors of the measurement engine, one variant per failure the
/// round loop or the statistics engine can report.
#[derive(Copy, Clone, Debug, PartialEq, Eq, Structural)]
pub enum AbshError {
    /// The warmup command exited with a non-zero status.
    WarmupFailed,
    /// The measured command exited with a non-zero status.
    RunFailed,
    /// The peak resident set size counter was zero or unavailable.
    ResourceUnavailable,
    /// The user-defined metric command failed or printed no integer.
    MetricSourceFailed,
    /// Statistics were requested from a store with fewer than two samples.
    InsufficientData,
}

} // verus!
