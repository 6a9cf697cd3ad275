//! Per-benchmark measurement values and the calibration arithmetic that
//! turns sampled timings into an iteration count.

use vstd::prelude::*;

verus! {

/// One measured outcome of a benchmark: the duration of a full calibrated
/// batch divided by the batch size, and the output of the last call.
#[derive(Debug, Clone, PartialEq, Eq, PartialOrd, Ord)]
pub struct RunResult<O> {
    /// Nanoseconds per call, averaged over one calibrated batch.
    pub duration_ns: u64,
    /// The output the benchmark returned on its last call.
    pub output: O,
}

impl<O> RunResult<O> {
    /// Bundles a measured duration with the benchmark's output.
    pub fn new(duration_ns: u64, output: O) -> (r: RunResult<O>)
        ensures
            r.duration_ns == duration_ns,
            r.output == output,
    {
        RunResult { duration_ns, output }
    }
}

/// Difference of two mathematical integers, floored at zero.
pub open spec fn sat_sub(a: int, b: int) -> int {
    if a >= b {
        a - b
    } else {
        0
    }
}

/// Subtracts from a measured duration the time the thread was not scheduled.
///
/// `wall_ns` and `cpu_ns` are the wall-clock time and the per-thread CPU time
/// spent over the same window; their difference approximates the time the
/// (single-threaded) benchmark was off-CPU, which is removed from
/// `elapsed_ns`, saturating at zero.
pub fn adjust_measured_ns(elapsed_ns: u64, wall_ns: u64, cpu_ns: u64) -> (r: u64)
    ensures
        r == sat_sub(elapsed_ns as int, sat_sub(wall_ns as int, cpu_ns as int)),
{
    let unscheduled_ns: u64 = if wall_ns >= cpu_ns {
        wall_ns - cpu_ns
    } else {
        0
    };
    if elapsed_ns >= unscheduled_ns {
        elapsed_ns - unscheduled_ns
    } else {
        0
    }
}

/// The duration one measurement window should take, in milliseconds.
pub const TARGET_MS_PER_BENCH: u64 = 500;

/// The iteration count that the calibration samples imply: enough
/// back-to-back calls to fill the target window, at least one, and exactly
/// one for a benchmark whose single call already exceeds the window.
pub open spec fn calibrate_spec(first_call_ns: u64, elapsed_64_ns: u64, num_group_iter: usize) -> int {
    if first_call_ns / 1_000_000 > TARGET_MS_PER_BENCH {
        1
    } else if elapsed_64_ns == 0 {
        1
    } else if elapsed_64_ns / 64 == 0 {
        1
    } else if num_group_iter * (elapsed_64_ns / 64) == 0 {
        1
    } else {
        let n = 500_000_000int / (num_group_iter * (elapsed_64_ns / 64));
        if n < 1 {
            1
        } else {
            n
        }
    }
}

/// Computes how many inner iterations a benchmark needs to fill the target
/// measurement window.
///
/// `first_call_ns` is the duration of one probe call (a pathologically slow
/// benchmark is detected there and gets a count of one without further
/// probing); `elapsed_64_ns` is the duration of sixty-four back-to-back
/// calls; `num_group_iter` is how often the whole group repeats, so the
/// window is divided among that many passes.
pub fn calibrate_num_iter(first_call_ns: u64, elapsed_64_ns: u64, num_group_iter: usize) -> (r:
    usize)
    ensures
        r == calibrate_spec(first_call_ns, elapsed_64_ns, num_group_iter),
        1 <= r <= 500_000_000,
{
    if first_call_ns / 1_000_000 > TARGET_MS_PER_BENCH {
        return 1;
    }
    if elapsed_64_ns == 0 {
        return 1;
    }
    let per_iter_ns: u128 = (elapsed_64_ns as u128) / 64;
    if per_iter_ns == 0 {
        return 1;
    }
    proof {
        assert((num_group_iter as int) * (per_iter_ns as int) < 0x100000000000000000000000000000000)
            by (nonlinear_arith)
            requires
                num_group_iter as int <= 0xffff_ffff_ffff_ffff,
                per_iter_ns as int <= 0xffff_ffff_ffff_ffff,
        ;
    }
    let group_ns: u128 = (num_group_iter as u128) * per_iter_ns;
    if group_ns == 0 {
        return 1;
    }
    let n: u128 = 500_000_000u128 / group_ns;
    proof {
        assert(n <= 500_000_000) by (nonlinear_arith)
            requires
                group_ns >= 1,
                n == 500_000_000int / (group_ns as int),
        ;
    }
    if n < 1 {
        1
    } else {
        n as usize
    }
}

} // verus!
