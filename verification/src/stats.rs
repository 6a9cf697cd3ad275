//! The statistics and regression-diff engine: aggregation of raw samples
//! into summary statistics, and direction-aware percentage diffs against a
//! previous run.

use vstd::prelude::*;
use vstd::relations::sorted_by;
use vstd::seq_lib::lemma_sorted_unique;
use vstd::pervasive::VecAdditionalExecFns;
use crate::bench::RunResult;
use crate::color::green_code;
use crate::color::paint_green;
use crate::color::paint_red;
use crate::color::paint_resetting;
use crate::color::red_code;
use crate::color::reset_or_plain;
use crate::color::styled_or_plain;
use crate::strings::dec_str;
use crate::strings::digit_char;
use crate::strings::push_char;
use crate::strings::push_dec;

verus! {

/// Aggregated statistics over one benchmark's list of measured runs.
///
/// Durations are nanoseconds per call; `avg_memory` is the mean peak memory
/// in bytes while memory tracking is active, and zero otherwise.
#[derive(Debug, Clone, Copy, PartialEq, Eq, Structural)]
pub struct BenchStats {
    /// The minimum time taken for an operation, in nanoseconds.
    pub min_ns: u64,
    /// The maximum time taken for an operation, in nanoseconds.
    pub max_ns: u64,
    /// The average time taken for an operation, in nanoseconds.
    pub average_ns: u64,
    /// The median time taken for an operation, in nanoseconds.
    pub median_ns: u64,
    /// The average memory used during the operation, in bytes.
    pub avg_memory: usize,
}

/// One numeric field of `BenchStats`, named so that a diff can be requested
/// for it.
#[derive(Debug, Clone, Copy, PartialEq, Eq, Structural)]
pub enum StatsField {
    /// The minimum duration.
    MinNs,
    /// The maximum duration.
    MaxNs,
    /// The average duration.
    AverageNs,
    /// The median duration.
    MedianNs,
    /// The average peak memory, in bytes.
    AvgMemory,
}

/// The value of the named field.
pub open spec fn field_of(st: BenchStats, field: StatsField) -> u64 {
    match field {
        StatsField::MinNs => st.min_ns,
        StatsField::MaxNs => st.max_ns,
        StatsField::AverageNs => st.average_ns,
        StatsField::MedianNs => st.median_ns,
        StatsField::AvgMemory => st.avg_memory as u64,
    }
}

/// Reads the named field.
pub fn stats_field(st: &BenchStats, field: StatsField) -> (r: u64)
    ensures
        r == field_of(*st, field),
{
    match field {
        StatsField::MinNs => st.min_ns,
        StatsField::MaxNs => st.max_ns,
        StatsField::AverageNs => st.average_ns,
        StatsField::MedianNs => st.median_ns,
        StatsField::AvgMemory => st.avg_memory as u64,
    }
}

/// The sum of a sequence of durations.
pub open spec fn sum_u64(s: Seq<u64>) -> int
    decreases s.len(),
{
    if s.len() == 0 {
        0
    } else {
        sum_u64(s.drop_last()) + s.last()
    }
}

/// The sum of a sequence of byte counts.
pub open spec fn sum_usize(s: Seq<usize>) -> int
    decreases s.len(),
{
    if s.len() == 0 {
        0
    } else {
        sum_usize(s.drop_last()) + s.last()
    }
}

/// The ascending order on durations.
pub open spec fn duration_le() -> spec_fn(u64, u64) -> bool {
    |a: u64, b: u64| a <= b
}

/// The durations of `s`, sorted ascending.
pub open spec fn sorted_durations(s: Seq<u64>) -> Seq<u64> {
    s.sort_by(duration_le())
}

/// The median: the middle element of the sorted durations, or the average of
/// the two middle elements when the count is even.
pub open spec fn median_spec(s: Seq<u64>) -> int
    recommends
        s.len() > 0,
{
    let t = sorted_durations(s);
    let mid = s.len() as int / 2;
    if s.len() % 2 == 0 {
        (t[mid - 1] + t[mid]) / 2
    } else {
        t[mid] as int
    }
}

/// The per-call durations of a list of measured runs.
pub open spec fn durations_of<O>(s: Seq<RunResult<O>>) -> Seq<u64> {
    s.map_values(|r: RunResult<O>| r.duration_ns)
}

/// Whether `st` holds exactly the summary statistics of the duration list
/// `durs`: true minimum and maximum, the mean rounded down, and the median.
pub open spec fn is_stats_of(durs: Seq<u64>, st: BenchStats) -> bool {
    &&& durs.len() > 0
    &&& durs.contains(st.min_ns)
    &&& forall|i: int| 0 <= i < durs.len() ==> st.min_ns <= #[trigger] durs[i]
    &&& durs.contains(st.max_ns)
    &&& forall|i: int| 0 <= i < durs.len() ==> #[trigger] durs[i] <= st.max_ns
    &&& st.average_ns == sum_u64(durs) / (durs.len() as int)
    &&& st.median_ns == median_spec(durs)
}

/// The mean memory consumption clause: the rounded-down mean of the samples
/// when tracking was active, zero otherwise.
pub open spec fn is_avg_memory_of(mem: Option<Seq<usize>>, avg: usize) -> bool {
    match mem {
        Some(m) => avg == sum_usize(m) / (m.len() as int),
        None => avg == 0,
    }
}

proof fn lemma_sum_u64_prefix(s: Seq<u64>, n: int)
    requires
        0 <= n <= s.len(),
    ensures
        sum_u64(s.take(n)) <= sum_u64(s),
        sum_u64(s.take(n)) >= 0,
    decreases s.len() - n,
{
    if n == s.len() {
        assert(s.take(n) =~= s);
        lemma_sum_u64_nonneg(s);
    } else {
        lemma_sum_u64_prefix(s, n + 1);
        lemma_sum_u64_nonneg(s.take(n));
        assert(s.take(n + 1).drop_last() =~= s.take(n));
        assert(sum_u64(s.take(n + 1)) == sum_u64(s.take(n)) + s[n]);
    }
}

proof fn lemma_sum_u64_nonneg(s: Seq<u64>)
    ensures
        sum_u64(s) >= 0,
    decreases s.len(),
{
    if s.len() > 0 {
        lemma_sum_u64_nonneg(s.drop_last());
    }
}

proof fn lemma_sum_usize_prefix(s: Seq<usize>, n: int)
    requires
        0 <= n <= s.len(),
    ensures
        sum_usize(s.take(n)) <= sum_usize(s),
        sum_usize(s.take(n)) >= 0,
    decreases s.len() - n,
{
    if n == s.len() {
        assert(s.take(n) =~= s);
        lemma_sum_usize_nonneg(s);
    } else {
        lemma_sum_usize_prefix(s, n + 1);
        lemma_sum_usize_nonneg(s.take(n));
        assert(s.take(n + 1).drop_last() =~= s.take(n));
        assert(sum_usize(s.take(n + 1)) == sum_usize(s.take(n)) + s[n]);
    }
}

proof fn lemma_sum_usize_nonneg(s: Seq<usize>)
    ensures
        sum_usize(s) >= 0,
    decreases s.len(),
{
    if s.len() > 0 {
        lemma_sum_usize_nonneg(s.drop_last());
    }
}

/// The sum of a duration list lies between its length times any lower bound
/// and its length times any upper bound.
proof fn lemma_sum_u64_bounds(s: Seq<u64>, lo: u64, hi: u64)
    requires
        forall|i: int| 0 <= i < s.len() ==> lo <= #[trigger] s[i] && s[i] <= hi,
    ensures
        s.len() * lo <= sum_u64(s) <= s.len() * hi,
    decreases s.len(),
{
    if s.len() == 0 {
    } else {
        lemma_sum_u64_bounds(s.drop_last(), lo, hi);
        assert((s.len() - 1) * lo + lo == s.len() * lo) by (nonlinear_arith);
        assert((s.len() - 1) * hi + hi == s.len() * hi) by (nonlinear_arith);
    }
}

/// Sorts a duration list ascending; the result is the unique sorted
/// permutation of the input.
fn sort_durations_exec(v: &mut Vec<u64>)
    ensures
        final(v)@ == sorted_durations(old(v)@),
{
    let mut i: usize = 1;
    while i < v.len()
        invariant
            1 <= i,
            v@.len() == 0 || i <= v@.len(),
            v@.len() == old(v)@.len(),
            v@.to_multiset() == old(v)@.to_multiset(),
            forall|k1: int, k2: int|
                0 <= k1 < k2 < i <= v@.len() ==> #[trigger] v@[k1] <= #[trigger] v@[k2],
        decreases v@.len() - i,
    {
        broadcast use vstd::seq_lib::group_to_multiset_ensures;

        let mut j: usize = i;
        while j > 0
            invariant
                j <= i < v@.len(),
                v@.len() == old(v)@.len(),
                v@.to_multiset() == old(v)@.to_multiset(),
                forall|k1: int, k2: int|
                    0 <= k1 < k2 <= i && k2 != j ==> #[trigger] v@[k1] <= #[trigger] v@[k2],
            decreases j,
        {
            if v[j - 1] > v[j] {
                let ghost prev = v@;
                let a = v[j - 1];
                let b = v[j];
                v.set(j - 1, b);
                v.set(j, a);
                proof {
                    broadcast use vstd::seq_lib::group_to_multiset_ensures;

                    let p1 = prev.update(j - 1, b);
                    assert(prev.contains(a) && prev.contains(b)) by {
                        assert(prev[j - 1] == a && prev[j as int] == b);
                    }
                    assert(p1.to_multiset() == prev.to_multiset().insert(b).remove(a));
                    assert(v@ =~= p1.update(j as int, a));
                    assert(p1[j as int] == b);
                    assert(v@.to_multiset() == p1.to_multiset().insert(a).remove(b));
                    assert(v@.to_multiset() =~= prev.to_multiset());
                }
                j = j - 1;
            } else {
                proof {
                    assert forall|k1: int, k2: int|
                        0 <= k1 < k2 <= i implies #[trigger] v@[k1] <= #[trigger] v@[k2] by {
                        if k2 == j && k1 < j - 1 {
                            assert(v@[k1] <= v@[j - 1]);
                        }
                    }
                }
                j = 0;
            }
        }
        proof {
            assert(forall|k1: int, k2: int|
                0 <= k1 < k2 <= i ==> #[trigger] v@[k1] <= #[trigger] v@[k2]);
        }
        i = i + 1;
    }
    proof {
        let leq = duration_le();
        assert(vstd::relations::total_ordering(leq));
        old(v)@.lemma_sort_by_ensures(leq);
        assert(sorted_by(v@, leq)) by {
            assert forall|x: int, y: int| 0 <= x <= y < v@.len() implies leq(v@[x], v@[y]) by {
                if x < y {
                    assert(v@[x] <= v@[y]);
                }
            }
        }
        assert(v@.to_multiset() == sorted_durations(old(v)@).to_multiset());
        lemma_sorted_unique(v@, sorted_durations(old(v)@), leq);
    }
}

/// Reduces a list of measured runs to summary statistics.
///
/// `memory_consumption` is the per-run peak-memory sample list when memory
/// tracking was active. The mean duration and mean memory are rounded down
/// to whole units.
#[verifier::rlimit(100)]
pub fn compute_stats<O>(results: &[RunResult<O>], memory_consumption: Option<&Vec<usize>>) -> (r:
    BenchStats)
    requires
        results@.len() > 0,
        sum_u64(durations_of(results@)) <= u64::MAX,
        match memory_consumption {
            Some(m) => m@.len() > 0 && sum_usize(m@) <= usize::MAX,
            None => true,
        },
    ensures
        is_stats_of(durations_of(results@), r),
        is_avg_memory_of(
            match memory_consumption {
                Some(m) => Some(m@),
                None => None,
            },
            r.avg_memory,
        ),
{
    let ghost durs = durations_of(results@);
    let avg_memory: usize = match memory_consumption {
        Some(m) => {
            let mut total: usize = 0;
            let mut i: usize = 0;
            while i < m.len()
                invariant
                    i <= m@.len(),
                    total == sum_usize(m@.take(i as int)),
                    sum_usize(m@) <= usize::MAX,
                decreases m@.len() - i,
            {
                proof {
                    lemma_sum_usize_prefix(m@, i + 1);
                    assert(m@.take(i + 1).drop_last() == m@.take(i as int));
                    assert(m@.take(i + 1).last() == m@[i as int]);
                }
                total = total + m[i];
                i = i + 1;
            }
            proof {
                assert(m@.take(m@.len() as int) =~= m@);
            }
            total / m.len()
        },
        None => 0,
    };

    let mut sorted_results: Vec<u64> = Vec::new();
    let mut i: usize = 0;
    while i < results.len()
        invariant
            i <= results@.len(),
            sorted_results@ == durations_of(results@).take(i as int),
        decreases results@.len() - i,
    {
        sorted_results.push(results[i].duration_ns);
        proof {
            assert(sorted_results@ =~= durations_of(results@).take(i + 1));
        }
        i = i + 1;
    }
    proof {
        assert(durations_of(results@).take(results@.len() as int) =~= durations_of(results@));
    }
    let ghost unsorted = sorted_results@;
    sort_durations_exec(&mut sorted_results);
    proof {
        durs.lemma_sort_by_ensures(duration_le());
        broadcast use vstd::seq_lib::group_to_multiset_ensures;

        assert(sorted_results@.to_multiset().len() == sorted_results@.len());
        assert(durs.to_multiset().len() == durs.len());
        assert(sorted_results@.len() == durs.len());
        assert(forall|i: int|
            0 <= i < sorted_results@.len() ==> durs.contains(#[trigger] sorted_results@[i])) by {
            assert(forall|i: int|
                0 <= i < sorted_results@.len() ==> sorted_results@.to_multiset().contains(
                    #[trigger] sorted_results@[i],
                ));
        }
        assert(forall|i: int, j: int|
            0 <= i < j < sorted_results@.len() ==> sorted_results@[i] <= sorted_results@[j]) by {
            assert(sorted_by(sorted_results@, duration_le()));
            assert(forall|i: int, j: int|
                0 <= i < j < sorted_results@.len() ==> duration_le()(
                    sorted_results@[i],
                    sorted_results@[j],
                ));
        }
    }

    let min_ns = sorted_results[0];
    let max_ns = sorted_results[sorted_results.len() - 1];
    proof {
        // Every duration is bounded by the first and last element of the
        // sorted permutation, and both of those occur among the durations.
        assert(forall|i: int| 0 <= i < durs.len() ==> min_ns <= #[trigger] durs[i] && durs[i]
            <= max_ns) by {
            broadcast use vstd::seq_lib::group_to_multiset_ensures;

            assert(forall|i: int|
                0 <= i < durs.len() ==> sorted_results@.contains(#[trigger] durs[i])) by {
                assert(forall|i: int|
                    0 <= i < durs.len() ==> durs.to_multiset().contains(#[trigger] durs[i]));
            }
        }
        assert(durs.contains(min_ns));
        assert(durs.contains(max_ns));
    }

    let mut total_duration: u64 = 0;
    let mut k: usize = 0;
    proof {
        assert(sum_u64(sorted_results@) == sum_u64(durs)) by {
            lemma_sum_multiset_eq(sorted_results@, durs);
        }
    }
    while k < sorted_results.len()
        invariant
            k <= sorted_results@.len(),
            total_duration == sum_u64(sorted_results@.take(k as int)),
            sum_u64(sorted_results@) <= u64::MAX,
        decreases sorted_results@.len() - k,
    {
        proof {
            lemma_sum_u64_prefix(sorted_results@, k + 1);
            assert(sorted_results@.take(k + 1).drop_last() == sorted_results@.take(k as int));
            assert(sorted_results@.take(k + 1).last() == sorted_results@[k as int]);
        }
        total_duration = total_duration + sorted_results[k];
        k = k + 1;
    }
    proof {
        assert(sorted_results@.take(sorted_results@.len() as int) =~= sorted_results@);
    }
    let average_ns = total_duration / (sorted_results.len() as u64);

    let mid = sorted_results.len() / 2;
    let median_ns = if sorted_results.len() % 2 == 0 {
        proof {
            lemma_sum_two_elements(sorted_results@, mid - 1, mid as int);
        }
        (sorted_results[mid - 1] + sorted_results[mid]) / 2
    } else {
        sorted_results[mid]
    };

    BenchStats { min_ns, max_ns, average_ns, median_ns, avg_memory }
}

/// The sum of a list is the same for any permutation with equal multiset.
proof fn lemma_sum_multiset_eq(a: Seq<u64>, b: Seq<u64>)
    requires
        a.to_multiset() == b.to_multiset(),
    ensures
        sum_u64(a) == sum_u64(b),
    decreases a.len(),
{
    broadcast use vstd::seq_lib::group_to_multiset_ensures;

    if a.len() == 0 {
        assert(a.to_multiset().len() == 0);
        assert(b.to_multiset().len() == b.len());
        assert(b.len() == 0);
    } else {
        let x = a.last();
        assert(a.to_multiset().contains(x));
        assert(b.to_multiset().contains(x));
        assert(b.contains(x));
        let j = choose|j: int| 0 <= j < b.len() && b[j] == x;
        let b2 = b.remove(j);
        assert(a.drop_last().to_multiset() =~= b2.to_multiset()) by {
            assert(a.drop_last() == a.remove(a.len() - 1));
            assert(a.remove(a.len() - 1).to_multiset() == a.to_multiset().remove(x));
            assert(b2.to_multiset() == b.to_multiset().remove(x));
        }
        lemma_sum_multiset_eq(a.drop_last(), b2);
        lemma_sum_remove(b, j);
    }
}

proof fn lemma_sum_remove(s: Seq<u64>, j: int)
    requires
        0 <= j < s.len(),
    ensures
        sum_u64(s) == sum_u64(s.remove(j)) + s[j],
    decreases s.len(),
{
    if j == s.len() - 1 {
        assert(s.remove(j) == s.drop_last());
    } else {
        lemma_sum_remove(s.drop_last(), j);
        assert(s.remove(j).drop_last() == s.drop_last().remove(j));
        assert(s.remove(j).last() == s.last());
    }
}

/// Any two elements at distinct positions sum to at most the whole list's
/// sum.
proof fn lemma_sum_two_elements(s: Seq<u64>, i: int, j: int)
    requires
        0 <= i < s.len(),
        0 <= j < s.len(),
        i != j,
    ensures
        s[i] + s[j] <= sum_u64(s),
{
    let s2 = s.remove(i);
    lemma_sum_remove(s, i);
    let j2 = if j < i {
        j
    } else {
        j - 1
    };
    assert(s2[j2] == s[j]);
    lemma_sum_remove(s2, j2);
    lemma_sum_u64_nonneg(s2.remove(j2));
}

/// The summary statistics always satisfy `min <= median <= max` and
/// `min <= mean <= max` for a non-empty duration list.
pub proof fn lemma_stats_bounds(durs: Seq<u64>, st: BenchStats)
    requires
        is_stats_of(durs, st),
    ensures
        st.min_ns <= st.median_ns <= st.max_ns,
        st.min_ns <= st.average_ns <= st.max_ns,
{
    broadcast use vstd::seq_lib::group_to_multiset_ensures;

    let t = sorted_durations(durs);
    durs.lemma_sort_by_ensures(duration_le());
    assert(t.to_multiset().len() == t.len());
    assert(durs.to_multiset().len() == durs.len());
    assert(t.len() == durs.len());
    assert(forall|i: int| 0 <= i < t.len() ==> durs.contains(#[trigger] t[i])) by {
        assert(forall|i: int| 0 <= i < t.len() ==> t.to_multiset().contains(#[trigger] t[i]));
    }
    let mid = durs.len() as int / 2;
    // Median bounds: the one or two central sorted elements are durations,
    // so each lies between the minimum and the maximum.
    if durs.len() % 2 == 0 {
        assert(durs.contains(t[mid - 1]));
        assert(durs.contains(t[mid]));
        assert(st.min_ns <= t[mid - 1] && t[mid - 1] <= st.max_ns);
        assert(st.min_ns <= t[mid] && t[mid] <= st.max_ns);
        assert(st.min_ns <= (t[mid - 1] + t[mid]) / 2 <= st.max_ns) by (nonlinear_arith)
            requires
                st.min_ns <= t[mid - 1] && t[mid - 1] <= st.max_ns,
                st.min_ns <= t[mid] && t[mid] <= st.max_ns,
        ;
    } else {
        assert(durs.contains(t[mid]));
    }
    // Mean bounds: the sum lies between the length times the minimum and the
    // length times the maximum.
    lemma_sum_u64_bounds(durs, st.min_ns, st.max_ns);
    let n = durs.len() as int;
    assert(st.min_ns <= sum_u64(durs) / n <= st.max_ns) by (nonlinear_arith)
        requires
            n > 0,
            n * st.min_ns <= sum_u64(durs) <= n * st.max_ns,
    ;
}

/// Rounded hundredths: `delta / base` as a percentage in hundredths of a
/// percent, rounded half-up.
pub open spec fn percent_hundredths(delta: int, base: int) -> int
    recommends
        base >= 1,
        delta >= 0,
{
    (20000 * delta + base) / (2 * base)
}

/// The plain rendering of a signed percentage with two decimals, as
/// `(+12.34%)` or `(-12.34%)`.
pub open spec fn percent_seq(positive: bool, hundredths: int) -> Seq<char>
    recommends
        hundredths >= 0,
{
    seq!['('] + (if positive {
        seq!['+']
    } else {
        seq!['-']
    }) + dec_str(hundredths / 100) + seq!['.'] + seq![
        digit_char((hundredths % 100) / 10),
        digit_char(hundredths % 10),
    ] + seq!['%', ')']
}

/// The rendered percentage diff of `cur` against `base`: sign from their
/// order, magnitude `|cur - base| / base` in percent with two decimals.
pub open spec fn diff_percent_seq(cur: int, base: int) -> Seq<char>
    recommends
        base >= 1,
        cur >= 0,
{
    if cur >= base {
        percent_seq(true, percent_hundredths(cur - base, base))
    } else {
        percent_seq(false, percent_hundredths(base - cur, base))
    }
}

/// Whether the relative change of `cur` against `base` is strictly above the
/// two-percent threshold under which a diff is rendered without color.
pub open spec fn beyond_threshold(delta: int, base: int) -> bool {
    50 * delta > base
}

/// The style code a diff is colored with: red for a regression and green
/// for an improvement beyond the threshold, none inside the two-percent
/// noise window, where the diff renders with a bare resetting style. Which
/// direction counts as an improvement depends on whether a smaller value is
/// better.
pub open spec fn diff_color_code(cur: int, base: int, smaller_is_better: bool) -> Option<
    Seq<char>,
> {
    if cur >= base && beyond_threshold(cur - base, base) {
        if smaller_is_better {
            Some(red_code())
        } else {
            Some(green_code())
        }
    } else if cur < base && beyond_threshold(base - cur, base) {
        if smaller_is_better {
            Some(green_code())
        } else {
            Some(red_code())
        }
    } else {
        None
    }
}

/// What `compute_diff` returns for current value `curr` and previous value
/// `prev`: empty when either value is zero or they are equal; otherwise the
/// rendered percentage, possibly wrapped in the diff's color.
///
/// With an input size supplied the values are compared as throughputs, so
/// the ratio is inverted and a larger value is better; without one they are
/// compared as latencies, where smaller is better.
pub open spec fn is_diff_result(r: Seq<char>, curr: u64, prev: u64, throughput: bool) -> bool {
    if prev == 0 || curr == 0 || prev == curr {
        r == Seq::<char>::empty()
    } else {
        let cur_v = if throughput {
            prev as int
        } else {
            curr as int
        };
        let base_v = if throughput {
            curr as int
        } else {
            prev as int
        };
        match diff_color_code(cur_v, base_v, !throughput) {
            Option::Some(code) => styled_or_plain(r, code, diff_percent_seq(cur_v, base_v)),
            Option::None => reset_or_plain(r, diff_percent_seq(cur_v, base_v)),
        }
    }
}

/// Renders the rounded hundredths-of-a-percent value `h` with its sign as
/// `(+12.34%)` or `(-12.34%)`.
fn render_percent(positive: bool, h: u128) -> (r: String)
    ensures
        r@ == percent_seq(positive, h as int),
{
    let mut s = String::new();
    push_char(&mut s, '(');
    if positive {
        push_char(&mut s, '+');
    } else {
        push_char(&mut s, '-');
    }
    push_dec(&mut s, h / 100);
    push_char(&mut s, '.');
    let frac = (h % 100) as u64;
    let d1 = frac / 10;
    let d2 = frac % 10;
    push_char(
        &mut s,
        if d1 == 0 {
            '0'
        } else if d1 == 1 {
            '1'
        } else if d1 == 2 {
            '2'
        } else if d1 == 3 {
            '3'
        } else if d1 == 4 {
            '4'
        } else if d1 == 5 {
            '5'
        } else if d1 == 6 {
            '6'
        } else if d1 == 7 {
            '7'
        } else if d1 == 8 {
            '8'
        } else {
            '9'
        },
    );
    push_char(
        &mut s,
        if d2 == 0 {
            '0'
        } else if d2 == 1 {
            '1'
        } else if d2 == 2 {
            '2'
        } else if d2 == 3 {
            '3'
        } else if d2 == 4 {
            '4'
        } else if d2 == 5 {
            '5'
        } else if d2 == 6 {
            '6'
        } else if d2 == 7 {
            '7'
        } else if d2 == 8 {
            '8'
        } else {
            '9'
        },
    );
    push_char(&mut s, '%');
    push_char(&mut s, ')');
    proof {
        assert((h as int) % 100 == frac as int);
        assert(frac as int / 10 == d1 as int && frac as int % 10 == d2 as int);
        assert((h as int) % 10 == (frac as int) % 10) by (nonlinear_arith)
            requires
                frac as int == (h as int) % 100,
                h as int >= 0,
        ;
        assert(s@ =~= percent_seq(positive, h as int));
    }
    s
}

/// Computes the regression diff of one statistics field against the previous
/// run's statistics, rendered as a signed, color-coded percentage.
///
/// With `input_size_in_bytes` supplied, both values are first converted to a
/// throughput, which inverts the ratio and the direction of improvement. A
/// zero or unchanged field renders empty, to avoid meaningless percentage
/// explosions near zero.
pub fn compute_diff(
    stats: &BenchStats,
    input_size_in_bytes: Option<usize>,
    other: Option<BenchStats>,
    field: StatsField,
) -> (r: String)
    ensures
        match other {
            Some(o) => is_diff_result(
                r@,
                field_of(*stats, field),
                field_of(o, field),
                input_size_in_bytes.is_some(),
            ),
            None => r@ == Seq::<char>::empty(),
        },
{
    match other {
        None => String::new(),
        Some(o) => {
            let curr = stats_field(stats, field);
            let prev = stats_field(&o, field);
            if prev == 0 || curr == 0 || prev == curr {
                return String::new();
            }
            let throughput = input_size_in_bytes.is_some();
            let smaller_is_better = !throughput;
            let cur_v: u64 = if throughput {
                prev
            } else {
                curr
            };
            let base_v: u64 = if throughput {
                curr
            } else {
                prev
            };
            let positive = cur_v >= base_v;
            let delta: u64 = if positive {
                cur_v - base_v
            } else {
                base_v - cur_v
            };
            let h: u128 = (20000u128 * (delta as u128) + (base_v as u128)) / (2u128 * (
            base_v as u128));
            let plain = render_percent(positive, h);
            proof {
                assert(plain@ == diff_percent_seq(cur_v as int, base_v as int));
            }
            let beyond = {
                let lhs: u128 = 50u128 * (delta as u128);
                lhs > base_v as u128
            };
            if beyond {
                let regression = (positive && smaller_is_better) || (!positive
                    && !smaller_is_better);
                if regression {
                    paint_red(plain.as_str())
                } else {
                    paint_green(plain.as_str())
                }
            } else {
                paint_resetting(plain.as_str())
            }
        },
    }
}

/// The diff is direction-aware: for two distinct non-zero values, the
/// latency framing (no input size) and the throughput framing (input size
/// supplied) of the same pair render with opposite signs, yet never classify
/// the change oppositely — one framing never colors the diff red while the
/// other colors it green.
pub proof fn lemma_diff_direction_aware(curr: u64, prev: u64)
    requires
        curr > 0,
        prev > 0,
        curr != prev,
    ensures
        diff_percent_seq(curr as int, prev as int)[1] != diff_percent_seq(
            prev as int,
            curr as int,
        )[1],
        diff_percent_seq(curr as int, prev as int)[1] == '+' <==> curr > prev,
        !(diff_color_code(curr as int, prev as int, true) == Some(red_code())
            && diff_color_code(prev as int, curr as int, false) == Some(green_code())),
        !(diff_color_code(curr as int, prev as int, true) == Some(green_code())
            && diff_color_code(prev as int, curr as int, false) == Some(red_code())),
{
    let latency = diff_percent_seq(curr as int, prev as int);
    let through = diff_percent_seq(prev as int, curr as int);
    if curr > prev {
        assert(latency[1] == '+');
        assert(through[1] == '-');
    } else {
        assert(latency[1] == '-');
        assert(through[1] == '+');
    }
    assert(red_code() != green_code()) by {
        assert(red_code()[1] == '1' && green_code()[1] == '2');
    }
    if curr > prev {
        // The workload got slower: the latency framing can only color the
        // diff red or leave it uncolored, and the throughput framing
        // likewise.
        assert(diff_color_code(curr as int, prev as int, true) != Some(green_code()));
        assert(diff_color_code(prev as int, curr as int, false) != Some(green_code()));
    } else {
        assert(diff_color_code(curr as int, prev as int, true) != Some(red_code()));
        assert(diff_color_code(prev as int, curr as int, false) != Some(red_code()));
    }
}

} // verus!
