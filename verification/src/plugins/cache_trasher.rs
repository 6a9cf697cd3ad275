//! The cache-eviction pass: a deterministic pseudo-random walk over a large
//! array of cache-line-sized records, issued between measurements to
//! simulate a cold-cache environment. The index sequence is computed here;
//! the host owns the actual array and performs the reads.

use vstd::prelude::*;

verus! {

/// The byte size of one cache-line record of the eviction buffer.
pub const CACHE_LINE_BYTES: usize = 64;

/// The next state of the eviction walk's linear congruential generator.
pub open spec fn cache_lcg_next(seed: u64) -> u64 {
    vstd::wrapping::u64_specs::wrapping_add(
        vstd::wrapping::u64_specs::wrapping_mul(1664525, seed),
        1013904223,
    )
}

/// Spoils CPU caches by reading one element of each of a pseudo-random
/// sequence of cache-line-aligned records; reading one element suffices to
/// evict the whole line.
#[derive(Clone)]
pub struct CacheTrasher {
    /// How many cache-line records the eviction buffer holds.
    pub num_lines: usize,
    /// The state of the walk's generator.
    pub seed: u64,
}

impl CacheTrasher {
    /// An eviction walk over a buffer of `bytes` bytes.
    pub fn new(bytes: usize) -> (r: CacheTrasher)
        ensures
            r.num_lines as int == bytes as int / CACHE_LINE_BYTES as int,
            r.seed == 0,
    {
        CacheTrasher { num_lines: bytes / CACHE_LINE_BYTES, seed: 0 }
    }

    /// Advances the walk and returns the next record index to read.
    pub fn lcg_rand(&mut self) -> (idx: usize)
        requires
            old(self).num_lines > 0,
        ensures
            final(self).seed == cache_lcg_next(old(self).seed),
            final(self).num_lines == old(self).num_lines,
            idx == final(self).seed as int % final(self).num_lines as int,
            idx < final(self).num_lines,
    {
        self.seed = 1664525u64.wrapping_mul(self.seed).wrapping_add(1013904223);
        let idx64 = self.seed % (self.num_lines as u64);
        proof {
            assert(idx64 < self.num_lines as u64) by (nonlinear_arith)
                requires
                    self.num_lines as u64 > 0,
                    idx64 == self.seed as int % (self.num_lines as u64 as int),
            ;
        }
        idx64 as usize
    }
}

impl Default for CacheTrasher {
    /// An eviction walk over a thirty-two-megabyte buffer.
    fn default() -> (r: CacheTrasher)
        ensures
            r.num_lines as int == (1024int * 1024 * 32) / CACHE_LINE_BYTES as int,
            r.seed == 0,
    {
        CacheTrasher::new(1024 * 1024 * 32)
    }
}

} // verus!
