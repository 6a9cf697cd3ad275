//! A micro-benchmark measurement and scheduling engine.
//!
//! The crate provides the calibration, scheduling, statistics and reporting
//! logic of a benchmark harness: adaptive iteration-count calibration, a
//! deterministic interleaved execution order, an ordered listener registry
//! for instrumentation plugins, and a statistics/regression-diff engine with
//! an on-disk persistence format for comparing runs.

pub mod bench;
pub mod bench_id;
pub mod bench_runner;
pub mod color;
pub mod config;
pub mod output_value;
pub mod persist;
pub mod plugins;
pub mod report;
pub mod stats;
pub mod strings;

pub use bench::adjust_measured_ns;
pub use bench::calibrate_num_iter;
pub use bench::RunResult;
pub use bench_id::get_bench_id;
pub use bench_id::BenchId;
pub use bench_runner::minmax;
pub use bench_runner::round_up;
pub use bench_runner::select_common_num_iter;
pub use bench_runner::shuffle;
pub use bench_runner::SimpleRng;
pub use config::Config;
pub use output_value::OutputValue;
pub use report::check_and_print;
pub use report::PrintOnce;
pub use stats::compute_diff;
pub use stats::compute_stats;
pub use stats::BenchStats;
pub use stats::StatsField;
