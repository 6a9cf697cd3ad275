//! Scheduling and calibration arithmetic: the deterministic interleaving
//! shuffle, the iteration-count rounding rule and the rule that assigns one
//! common iteration count to every benchmark of a chunk.

use vstd::prelude::*;
use vstd::pervasive::VecAdditionalExecFns;

verus! {

/// A benchmark group larger than this is split into independently scheduled
/// chunks, to bound per-chunk overhead and memory.
pub const MAX_GROUP_SIZE: usize = 5;

/// Ten to the `k`.
pub open spec fn pow10(k: nat) -> int
    decreases k,
{
    if k == 0 {
        1
    } else {
        10 * pow10((k - 1) as nat)
    }
}

/// Whether `d` is a power of ten with exponent at least one.
pub open spec fn is_pos_pow10(d: int) -> bool {
    exists|k: nat| k >= 1 && d == pow10(k)
}

/// The largest power of ten that is at most `n`, for `n >= 10`.
pub open spec fn magnitude_divisor(n: int) -> int
    recommends
        n >= 10,
    decreases n,
{
    if n < 100 {
        10
    } else {
        10 * magnitude_divisor(n / 10)
    }
}

/// What `round_up` returns: numbers up to two stay as they are, other numbers
/// below ten become ten, and larger numbers are rounded up to the next
/// multiple of the largest power of ten at most the number.
pub open spec fn round_up_spec(n: int) -> int
    recommends
        n >= 0,
{
    if n == 1 {
        1
    } else if n == 2 {
        2
    } else if n < 10 {
        10
    } else {
        let d = magnitude_divisor(n);
        ((n + d - 1) / d) * d
    }
}

proof fn lemma_pow10_increases(j: nat, k: nat)
    requires
        j <= k,
    ensures
        pow10(j) <= pow10(k),
        pow10(j) >= 1,
    decreases k,
{
    if k > 0 {
        if j <= k - 1 {
            lemma_pow10_increases(j, (k - 1) as nat);
        } else {
            lemma_pow10_increases((j - 1) as nat, (k - 1) as nat);
        }
    }
}

proof fn lemma_pow10_19()
    ensures
        pow10(18) == 1_000_000_000_000_000_000,
        pow10(19) == 10_000_000_000_000_000_000,
{
    assert(pow10(0) == 1);
    assert(pow10(1) == 10);
    assert(pow10(2) == 100);
    assert(pow10(3) == 1000);
    assert(pow10(4) == 10000);
    assert(pow10(5) == 100000);
    assert(pow10(6) == 1000000);
    assert(pow10(7) == 10000000);
    assert(pow10(8) == 100000000);
    assert(pow10(9) == 1000000000);
    assert(pow10(10) == 10000000000);
    assert(pow10(11) == 100000000000);
    assert(pow10(12) == 1000000000000);
    assert(pow10(13) == 10000000000000);
    assert(pow10(14) == 100000000000000);
    assert(pow10(15) == 1000000000000000);
    assert(pow10(16) == 10000000000000000);
    assert(pow10(17) == 100000000000000000);
    assert(pow10(18) == 1000000000000000000);
    assert(pow10(19) == 10000000000000000000);
}

proof fn lemma_magnitude_divisor_props(n: int)
    requires
        n >= 10,
    ensures
        10 <= magnitude_divisor(n),
        magnitude_divisor(n) <= n,
        n < 10 * magnitude_divisor(n),
        is_pos_pow10(magnitude_divisor(n)),
    decreases n,
{
    if n < 100 {
        assert(pow10(0) == 1);
        assert(pow10(1) == 10);
        assert(1nat >= 1 && magnitude_divisor(n) == pow10(1nat));
    } else {
        lemma_magnitude_divisor_props(n / 10);
        let k = choose|k: nat| k >= 1 && magnitude_divisor(n / 10) == pow10(k);
        assert(magnitude_divisor(n) == pow10(k + 1));
        assert(magnitude_divisor(n) <= n && n < 10 * magnitude_divisor(n)) by {
            assert(magnitude_divisor(n / 10) <= n / 10);
            assert(n / 10 < 10 * magnitude_divisor(n / 10));
            assert(10 * (n / 10) <= n < 10 * (n / 10) + 10) by (nonlinear_arith);
        }
    }
}

proof fn lemma_magnitude_divisor_unique(n: int, d: int, k: nat)
    requires
        n >= 10,
        k >= 1,
        d == pow10(k),
        d <= n,
        n < 10 * d,
    ensures
        d == magnitude_divisor(n),
    decreases k,
{
    if k == 1 {
        assert(pow10(0) == 1);
        assert(pow10(1) == 10);
        assert(d == 10);
        assert(n < 100);
    } else {
        assert(d == 10 * pow10((k - 1) as nat));
        lemma_pow10_increases(1, (k - 1) as nat);
        assert(pow10((k - 1) as nat) >= 10);
        assert(n >= d >= 100);
        assert(d / 10 == pow10((k - 1) as nat));
        assert(d / 10 <= n / 10 && n / 10 < 10 * (d / 10)) by {
            assert(10 * (n / 10) <= n < 10 * (n / 10) + 10) by (nonlinear_arith);
        }
        lemma_magnitude_divisor_unique(n / 10, d / 10, (k - 1) as nat);
        assert(magnitude_divisor(n) == 10 * magnitude_divisor(n / 10));
    }
}

proof fn lemma_magnitude_divisor_mono(a: int, b: int)
    requires
        10 <= a <= b,
    ensures
        magnitude_divisor(a) <= magnitude_divisor(b),
        magnitude_divisor(a) < magnitude_divisor(b) ==> 10 * magnitude_divisor(a)
            <= magnitude_divisor(b),
    decreases b,
{
    if b < 100 {
        assert(magnitude_divisor(a) == 10 && magnitude_divisor(b) == 10);
    } else if a < 100 {
        lemma_magnitude_divisor_props(b);
        lemma_magnitude_divisor_props(b / 10);
        assert(magnitude_divisor(b) == 10 * magnitude_divisor(b / 10));
        assert(magnitude_divisor(a) == 10);
    } else {
        assert(a / 10 <= b / 10) by (nonlinear_arith)
            requires
                a <= b,
        ;
        lemma_magnitude_divisor_mono(a / 10, b / 10);
        lemma_magnitude_divisor_props(a / 10);
    }
}

/// `round_up` never shrinks its argument.
pub proof fn lemma_round_up_ge(n: int)
    requires
        n >= 1,
    ensures
        round_up_spec(n) >= n,
        round_up_spec(n) >= 1,
{
    if n >= 10 {
        lemma_magnitude_divisor_props(n);
        let d = magnitude_divisor(n);
        assert(((n + d - 1) / d) * d >= n) by (nonlinear_arith)
            requires
                d >= 1,
        ;
    }
}

/// `round_up` grows its argument by at most a factor of ten.
pub proof fn lemma_round_up_upper(n: int)
    requires
        n >= 0,
    ensures
        round_up_spec(n) <= if n == 0 {
            10int
        } else {
            10 * n
        },
{
    if n >= 10 {
        lemma_magnitude_divisor_props(n);
        let d = magnitude_divisor(n);
        let q = (n + d - 1) / d;
        assert(q <= 10 && q * d <= 10 * d) by (nonlinear_arith)
            requires
                d >= 1,
                n >= d,
                n < 10 * d,
                q == (n + d - 1) / d,
        ;
        assert(10 * d <= 10 * n) by (nonlinear_arith)
            requires
                d <= n,
        ;
    }
}

/// Rounding to a stable decimal magnitude is monotonic: a larger measured
/// count never rounds to a smaller iteration count.
pub proof fn lemma_round_up_monotonic(a: int, b: int)
    requires
        1 <= a <= b,
    ensures
        round_up_spec(a) <= round_up_spec(b),
{
    lemma_round_up_ge(a);
    lemma_round_up_ge(b);
    if a < 10 {
        if b < 10 {
        } else {
            assert(round_up_spec(a) <= 10);
            assert(round_up_spec(b) >= b >= 10);
        }
    } else {
        let da = magnitude_divisor(a);
        let db = magnitude_divisor(b);
        lemma_magnitude_divisor_props(a);
        lemma_magnitude_divisor_props(b);
        lemma_magnitude_divisor_mono(a, b);
        if da == db {
            assert(((a + da - 1) / da) * da <= ((b + da - 1) / da) * da) by (nonlinear_arith)
                requires
                    da >= 1,
                    a <= b,
            ;
        } else {
            assert(10 * da <= db);
            let qa = (a + da - 1) / da;
            assert(qa <= 10) by (nonlinear_arith)
                requires
                    da >= 1,
                    a < 10 * da,
                    qa == (a + da - 1) / da,
            ;
            assert(qa * da <= 10 * da) by (nonlinear_arith)
                requires
                    da >= 1,
                    qa <= 10,
            ;
            assert(round_up_spec(b) >= db) by {
                assert(((b + db - 1) / db) * db >= b) by (nonlinear_arith)
                    requires
                        db >= 1,
                ;
            }
        }
    }
}

/// Rounding twice is the same as rounding once, so repeated calibration runs
/// that land on an already round count keep it.
pub proof fn lemma_round_up_idempotent(n: int)
    requires
        n >= 1,
    ensures
        round_up_spec(round_up_spec(n)) == round_up_spec(n),
{
    if n < 10 {
        if n >= 3 {
            assert(round_up_spec(n) == 10);
            assert(magnitude_divisor(10) == 10);
            assert(round_up_spec(10) == 10);
        }
    } else {
        let d = magnitude_divisor(n);
        lemma_magnitude_divisor_props(n);
        let k = choose|k: nat| k >= 1 && d == pow10(k);
        let q = (n + d - 1) / d;
        let r = q * d;
        assert(1 <= q <= 10 && n <= r && r <= 10 * d) by (nonlinear_arith)
            requires
                d >= 1,
                d <= n,
                n < 10 * d,
                q == (n + d - 1) / d,
                r == q * d,
        ;
        if q <= 9 {
            assert(r < 10 * d && r >= d) by (nonlinear_arith)
                requires
                    d >= 1,
                    1 <= q <= 9,
                    r == q * d,
            ;
            lemma_magnitude_divisor_unique(r, d, k);
            assert(magnitude_divisor(r) == d);
            assert((r + d - 1) / d == q) by (nonlinear_arith)
                requires
                    d >= 1,
                    r == q * d,
            ;
            assert(round_up_spec(r) == q * d);
        } else {
            assert(r == 10 * d);
            assert(r == pow10(k + 1));
            lemma_magnitude_divisor_unique(r, r, k + 1);
            assert(magnitude_divisor(r) == r);
            assert((r + r - 1) / r == 1) by (nonlinear_arith)
                requires
                    r >= 1,
            ;
            assert(round_up_spec(r) == 1 * r);
        }
    }
}

/// A single digit scaled by a power of ten is already a stable decimal
/// magnitude: rounding leaves it unchanged.
pub proof fn lemma_round_up_fixed_point(d: int, k: nat)
    requires
        1 <= d <= 9,
        k >= 1,
    ensures
        round_up_spec(d * pow10(k)) == d * pow10(k),
{
    let p = pow10(k);
    lemma_pow10_increases(1, k);
    assert(pow10(0) == 1);
    assert(pow10(1) == 10);
    assert(p >= 10);
    let n = d * p;
    assert(p <= n && n < 10 * p && n >= 10) by (nonlinear_arith)
        requires
            1 <= d <= 9,
            p >= 10,
            n == d * p,
    ;
    lemma_magnitude_divisor_unique(n, p, k);
    assert(magnitude_divisor(n) == p);
    assert((n + p - 1) / p == d) by (nonlinear_arith)
        requires
            p >= 1,
            1 <= d <= 9,
            n == d * p,
    ;
    assert(round_up_spec(n) == d * p);
}

/// Rounds an iteration count up to a stable decimal magnitude, so that
/// repeated calibration runs on the same machine tend to agree on a count.
pub fn round_up(num: u64) -> (r: u64)
    requires
        num <= 10_000_000_000_000_000_000u64,
    ensures
        r == round_up_spec(num as int),
{
    if num == 1 {
        return 1;
    }
    if num == 2 {
        return 2;
    }
    if num < 10 {
        return 10;
    }
    proof {
        assert(pow10(0) == 1);
        assert(pow10(1) == 10);
    }
    let ghost mut k: nat = 1;
    let mut divisor: u64 = 10;
    while num / 10 >= divisor
        invariant
            10 <= num <= 10_000_000_000_000_000_000u64,
            divisor == pow10(k),
            k >= 1,
            10 <= divisor <= num,
        decreases num - divisor,
    {
        proof {
            assert(10 * divisor <= num) by (nonlinear_arith)
                requires
                    num / 10 >= divisor,
                    num >= 0,
            ;
        }
        divisor = divisor * 10;
        proof {
            k = k + 1;
        }
    }
    proof {
        assert(num < 10 * divisor) by (nonlinear_arith)
            requires
                num / 10 < divisor,
                num >= 0,
                divisor >= 1,
        ;
        lemma_magnitude_divisor_unique(num as int, divisor as int, k);
    }
    let q = if num % divisor == 0 {
        num / divisor
    } else {
        num / divisor + 1
    };
    proof {
        assert(q as int == (num as int + divisor as int - 1) / (divisor as int))
            by (nonlinear_arith)
            requires
                divisor as int >= 1,
                q as int == if (num as int) % (divisor as int) == 0 {
                    (num as int) / (divisor as int)
                } else {
                    (num as int) / (divisor as int) + 1
                },
        ;
        assert(1 <= q <= 10) by (nonlinear_arith)
            requires
                divisor as int >= 1,
                divisor as int <= num as int,
                (num as int) < 10 * (divisor as int),
                q as int == (num as int + divisor as int - 1) / (divisor as int),
        ;
        assert((q as int) * (divisor as int) <= 10 * (divisor as int)) by (nonlinear_arith)
            requires
                divisor as int >= 1,
                q as int <= 10,
        ;
        lemma_pow10_19();
        if divisor > 1_000_000_000_000_000_000 {
            if k <= 18 {
                lemma_pow10_increases(k, 18);
                assert(false);
            }
            lemma_pow10_increases(19, k);
            assert(divisor == 10_000_000_000_000_000_000u64);
            assert(num == divisor);
            assert((num as int) % (divisor as int) == 0 && (num as int) / (divisor as int) == 1)
                by (nonlinear_arith)
                requires
                    num as int == divisor as int,
                    divisor as int >= 1,
            ;
            assert(q == 1);
        }
        assert((q as int) * (divisor as int) <= 10_000_000_000_000_000_000);
    }
    q * divisor
}

/// The smallest and largest element of a list of counts, or `None` when the
/// list is empty.
pub fn minmax(vals: &Vec<usize>) -> (r: Option<(usize, usize)>)
    ensures
        r.is_some() <==> vals@.len() > 0,
        r matches Some(p) ==> vals@.contains(p.0) && vals@.contains(p.1) && forall|i: int|
            0 <= i < vals@.len() ==> p.0 <= #[trigger] vals@[i] && vals@[i] <= p.1,
{
    if vals.len() == 0 {
        return None;
    }
    let mut min_so_far = vals[0];
    let mut max_so_far = vals[0];
    proof {
        assert(vals@.contains(vals@[0]));
    }
    let mut i: usize = 1;
    while i < vals.len()
        invariant
            1 <= i <= vals@.len(),
            vals@.contains(min_so_far),
            vals@.contains(max_so_far),
            forall|j: int| 0 <= j < i ==> min_so_far <= #[trigger] vals@[j] && vals@[j] <= max_so_far,
        decreases vals@.len() - i,
    {
        let v = vals[i];
        proof {
            assert(vals@.contains(vals@[i as int]));
        }
        if v < min_so_far {
            min_so_far = v;
        }
        if v > max_so_far {
            max_so_far = v;
        }
        i = i + 1;
    }
    Some((min_so_far, max_so_far))
}

/// The next state of the interleaving shuffle's linear congruential generator.
#[verifier::opaque]
pub open spec fn lcg_next(state: u64) -> u64 {
    vstd::wrapping::u64_specs::wrapping_add(
        vstd::wrapping::u64_specs::wrapping_mul(state, 6364136223846793005),
        1,
    )
}

/// A tiny deterministic linear congruential generator; the same seed always
/// yields the same sequence, which keeps interleaved execution orders
/// reproducible across runs.
pub struct SimpleRng {
    /// The generator state; the next draw is `lcg_next` of it.
    pub state: u64,
}

impl SimpleRng {
    /// A generator starting from `seed`.
    pub fn new(seed: u64) -> (r: SimpleRng)
        ensures
            r.state == seed,
    {
        SimpleRng { state: seed }
    }

    /// Advances the generator and returns the new state.
    pub fn rand(&mut self) -> (r: u64)
        ensures
            final(self).state == lcg_next(old(self).state),
            r == final(self).state,
    {
        proof {
            reveal(lcg_next);
        }
        self.state = self.state.wrapping_mul(6364136223846793005).wrapping_add(1);
        self.state
    }
}

/// The sequence with the elements at `i` and `j` exchanged.
pub open spec fn seq_swap(s: Seq<usize>, i: int, j: int) -> Seq<usize>
    recommends
        0 <= i < s.len(),
        0 <= j < s.len(),
{
    s.update(i, s[j]).update(j, s[i])
}

/// The result of the Fisher-Yates rounds from position `i` down to one,
/// starting from generator state `state`: at each position the generator is
/// advanced once and the element there is exchanged with one at or below it.
pub open spec fn shuffle_rounds(s: Seq<usize>, state: u64, i: int) -> (Seq<usize>, u64)
    decreases i,
{
    if i <= 0 {
        (s, state)
    } else {
        let ns = lcg_next(state);
        let j = (ns as int) % (i + 1);
        shuffle_rounds(seq_swap(s, i, j), ns, i - 1)
    }
}

/// Shuffles the index list in place, deterministically in `seed`.
///
/// A two-element list is a documented special case: it is always swapped, so
/// consecutive iteration numbers alternate the order of a two-benchmark
/// group.
#[verifier::rlimit(50)]
pub fn shuffle(indices: &mut Vec<usize>, seed: u64)
    ensures
        old(indices)@.len() == 2 ==> final(indices)@ == seq![old(indices)@[1], old(indices)@[0]],
        old(indices)@.len() != 2 ==> final(indices)@ == shuffle_rounds(
            old(indices)@,
            seed,
            old(indices)@.len() - 1,
        ).0,
{
    let len = indices.len();
    if len == 2 {
        let a = indices[0];
        let b = indices[1];
        indices.set(0, b);
        indices.set(1, a);
        proof {
            assert(indices@ =~= seq![old(indices)@[1], old(indices)@[0]]);
        }
        return ;
    }
    if len < 2 {
        return ;
    }
    let mut rng = SimpleRng::new(seed);
    let mut i: usize = len - 1;
    while i >= 1
        invariant
            1 <= i <= len - 1,
            len == indices@.len(),
            len == old(indices)@.len(),
            len >= 3,
            shuffle_rounds(old(indices)@, seed, len - 1) == shuffle_rounds(
                indices@,
                rng.state,
                i as int,
            ),
        decreases i,
    {
        let ghost prev = indices@;
        let ghost st = rng.state;
        let r = rng.rand();
        let j = (r % (i as u64 + 1)) as usize;
        proof {
            assert((r as int) % (i as int + 1) < i as int + 1 && (r as int) % (i as int + 1) >= 0)
                by (nonlinear_arith)
                requires
                    i as int + 1 > 0,
            ;
        }
        let a = indices[i];
        let b = indices[j];
        indices.set(i, b);
        indices.set(j, a);
        proof {
            assert(indices@ =~= seq_swap(prev, i as int, j as int));
            assert(j as int == (lcg_next(st) as int) % (i as int + 1));
            assert(shuffle_rounds(prev, st, i as int) == shuffle_rounds(
                seq_swap(prev, i as int, (lcg_next(st) as int) % (i as int + 1)),
                lcg_next(st),
                i as int - 1,
            ));
        }
        if i == 1 {
            proof {
                assert(shuffle_rounds(indices@, rng.state, 0) == (indices@, rng.state));
            }
            return ;
        }
        i = i - 1;
    }
}

/// Whether `mn` and `mx` are the least and greatest element of `s`.
pub open spec fn is_minmax_of(s: Seq<usize>, mn: usize, mx: usize) -> bool {
    s.contains(mn) && s.contains(mx) && forall|i: int|
        0 <= i < s.len() ==> mn <= #[trigger] s[i] && s[i] <= mx
}

/// The smaller of two integers.
pub open spec fn min_int(a: int, b: int) -> int {
    if a <= b {
        a
    } else {
        b
    }
}

/// Selects the one iteration count that every benchmark of a chunk will use:
/// the slowest benchmark's sampled count, capped at ten times the fastest
/// benchmark's count, rounded up to a stable decimal magnitude.
///
/// Every benchmark of a chunk getting the same count is the fairness
/// invariant of a group: numbers are only comparable if each benchmark ran
/// the same number of inner iterations.
pub fn select_common_num_iter(counts: &Vec<usize>) -> (r: Option<usize>)
    requires
        forall|i: int| 0 <= i < counts@.len() ==> #[trigger] counts@[i]
            <= 1_000_000_000_000_000_000,
        forall|i: int| 0 <= i < counts@.len() ==> 10 * #[trigger] counts@[i] <= usize::MAX,
    ensures
        r.is_some() <==> counts@.len() > 0,
        r matches Some(n) ==> exists|mn: usize, mx: usize|
            is_minmax_of(counts@, mn, mx) && n == round_up_spec(
                min_int(mx as int, 10 * mn as int),
            ),
{
    let mm = minmax(counts);
    match mm {
        None => None,
        Some((mn, mx)) => {
            proof {
                assert(counts@.contains(mn));
                let wit = choose|w: int| 0 <= w < counts@.len() && counts@[w] == mn;
                assert(counts@[wit] == mn);
                assert(10 * counts@[wit] <= usize::MAX);
                assert(counts@.contains(mx));
                let witx = choose|w: int| 0 <= w < counts@.len() && counts@[w] == mx;
                assert(counts@[witx] == mx);
                assert(counts@[witx] <= 1_000_000_000_000_000_000);
            }
            let capped: usize = if mx > mn * 10 {
                mn * 10
            } else {
                mx
            };
            let rounded = round_up(capped as u64);
            proof {
                lemma_round_up_upper(capped as int);
                assert(rounded <= usize::MAX);
                assert(capped as int == min_int(mx as int, 10 * (mn as int)));
                assert(is_minmax_of(counts@, mn, mx) && (rounded as usize) as int == round_up_spec(
                    min_int(mx as int, 10 * (mn as int)),
                ));
            }
            Some(rounded as usize)
        },
    }
}

} // verus!
