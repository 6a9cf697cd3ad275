//! The branch-predictor perturbation pass: a marker the host registers as a
//! listener; the disruptive branch pass itself is performed by the host
//! before each measured window.

use vstd::prelude::*;

verus! {

/// Trashes the branch predictor between benchmarks.
#[derive(Clone, Copy, Default)]
pub struct BPUTrasher {

}

} // verus!
