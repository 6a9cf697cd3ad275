//! The benchmarking options: scheduling mode, name filter, verbosity, and
//! the manual iteration-count overrides.

use vstd::prelude::*;

verus! {

/// The options of one benchmark run. Immutable once a run starts; the host
/// fills them in from its command line before anything is scheduled.
#[derive(Debug, Clone)]
pub struct Config {
    /// Whether benchmarks of a group run interleaved (the default) rather
    /// than one after the other.
    pub interleave: bool,
    /// Run only benchmarks whose full name matches this string.
    pub filter: Option<String>,
    /// Whether the filter must match the full name exactly rather than as a
    /// substring.
    pub exact: bool,
    /// Whether calibration diagnostics are printed.
    pub verbose: bool,
    /// A manual per-call iteration count; setting it disables calibration.
    pub num_iter_bench: Option<usize>,
    /// How many times the whole group is repeated.
    pub num_iter_group: Option<usize>,
}

/// The outer repetition count used when none is set explicitly.
pub const DEFAULT_NUM_GROUP_ITER: usize = 32;

impl Config {
    /// The default options: interleaved scheduling, no filter, no overrides.
    pub fn new() -> (r: Config)
        ensures
            r.interleave,
            r.filter.is_none(),
            !r.exact,
            !r.verbose,
            r.num_iter_bench.is_none(),
            r.num_iter_group.is_none(),
    {
        Config {
            interleave: true,
            filter: None,
            exact: false,
            verbose: false,
            num_iter_bench: None,
            num_iter_group: None,
        }
    }

    /// Fixes the number of iterations every benchmark registered afterwards
    /// is called with, disabling automatic calibration.
    pub fn set_num_iter_for_bench(&mut self, num_iter: usize)
        ensures
            final(self).num_iter_bench matches Some(n) && n == num_iter,
            final(self).interleave == old(self).interleave,
            final(self).filter == old(self).filter,
            final(self).exact == old(self).exact,
            final(self).verbose == old(self).verbose,
            final(self).num_iter_group == old(self).num_iter_group,
    {
        self.num_iter_bench = Some(num_iter);
    }

    /// The number of times the benchmark group is run: the configured count,
    /// or the default.
    pub fn get_num_iter_for_group(&self) -> (r: usize)
        ensures
            r as int == match self.num_iter_group {
                Option::Some(n) => n as int,
                Option::None => DEFAULT_NUM_GROUP_ITER as int,
            },
    {
        match self.num_iter_group {
            Some(n) => n,
            None => DEFAULT_NUM_GROUP_ITER,
        }
    }

    /// Sets the number of times the benchmark group is run.
    pub fn set_num_iter_for_group(&mut self, num_iter: usize)
        ensures
            final(self).num_iter_group matches Some(n) && n == num_iter,
            final(self).interleave == old(self).interleave,
            final(self).filter == old(self).filter,
            final(self).exact == old(self).exact,
            final(self).verbose == old(self).verbose,
            final(self).num_iter_bench == old(self).num_iter_bench,
    {
        self.num_iter_group = Some(num_iter);
    }

    /// Replaces all options at once.
    pub fn set_config(&mut self, options: Config)
        ensures
            *final(self) == options,
    {
        *self = options;
    }

    /// Chooses interleaved or sequential scheduling.
    pub fn set_interleave(&mut self, interleave: bool)
        ensures
            final(self).interleave == interleave,
            final(self).filter == old(self).filter,
            final(self).exact == old(self).exact,
            final(self).verbose == old(self).verbose,
            final(self).num_iter_bench == old(self).num_iter_bench,
            final(self).num_iter_group == old(self).num_iter_group,
    {
        self.interleave = interleave;
    }
}

impl Default for Config {
    /// The same options as `Config::new`.
    fn default() -> (r: Config)
        ensures
            r.interleave,
            r.filter.is_none(),
            !r.exact,
            !r.verbose,
            r.num_iter_bench.is_none(),
            r.num_iter_group.is_none(),
    {
        Config::new()
    }
}

} // verus!
