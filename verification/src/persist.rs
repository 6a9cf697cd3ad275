//! The on-disk rendering of persisted statistics: one line of key/value
//! pairs in fixed order, written after a run and read back before the next
//! one as the comparison baseline. Serialization and parsing invert each
//! other exactly.

use vstd::prelude::*;
use vstd::string::StrSliceExecFns;
use vstd::string::StringExecFns;
use crate::stats::BenchStats;
use crate::strings::dec_str;
use crate::strings::digit_char;
use crate::strings::push_dec;

verus! {

/// The persisted line for `st`: the five fields as decimal numbers under
/// fixed keys, in declaration order.
pub open spec fn stats_json(st: BenchStats) -> Seq<char> {
    "{\"min_ns\":"@ + dec_str(st.min_ns as int) + ",\"max_ns\":"@ + dec_str(st.max_ns as int)
        + ",\"average_ns\":"@ + dec_str(st.average_ns as int) + ",\"median_ns\":"@ + dec_str(
        st.median_ns as int,
    ) + ",\"avg_memory\":"@ + dec_str(st.avg_memory as int) + "}"@
}

/// Renders statistics as their persisted line.
pub fn serialize_stats(st: &BenchStats) -> (r: String)
    ensures
        r@ == stats_json(*st),
{
    let mut s = String::new();
    s.append("{\"min_ns\":");
    push_dec(&mut s, st.min_ns as u128);
    s.append(",\"max_ns\":");
    push_dec(&mut s, st.max_ns as u128);
    s.append(",\"average_ns\":");
    push_dec(&mut s, st.average_ns as u128);
    s.append(",\"median_ns\":");
    push_dec(&mut s, st.median_ns as u128);
    s.append(",\"avg_memory\":");
    push_dec(&mut s, st.avg_memory as u128);
    s.append("}");
    proof {
        assert(s@ =~= stats_json(*st));
    }
    s
}

/// Whether `c` is a decimal digit.
pub open spec fn is_digit_char(c: char) -> bool {
    48 <= c as u32 && c as u32 <= 57
}

/// The numeric value of a digit character.
pub open spec fn digit_val(c: char) -> int {
    c as u32 - 48
}

/// The number a digit sequence denotes.
pub open spec fn val_of(s: Seq<char>) -> int
    decreases s.len(),
{
    if s.len() == 0 {
        0
    } else {
        val_of(s.drop_last()) * 10 + digit_val(s.last())
    }
}

proof fn lemma_digit_char_val(d: int)
    requires
        0 <= d <= 9,
    ensures
        is_digit_char(digit_char(d)),
        digit_val(digit_char(d)) == d,
{
}

proof fn lemma_digit_char_inv(c: char)
    requires
        is_digit_char(c),
    ensures
        digit_char(digit_val(c)) == c,
{
    let v = c as u32;
    assert(48 <= v <= 57);
    assert(c == digit_char(v - 48)) by {
        if v == 48 {
            assert(c == '0') by {
                assert(('0') as u32 == 48);
            }
        } else if v == 49 {
            assert(c == '1') by {
                assert(('1') as u32 == 49);
            }
        } else if v == 50 {
            assert(c == '2') by {
                assert(('2') as u32 == 50);
            }
        } else if v == 51 {
            assert(c == '3') by {
                assert(('3') as u32 == 51);
            }
        } else if v == 52 {
            assert(c == '4') by {
                assert(('4') as u32 == 52);
            }
        } else if v == 53 {
            assert(c == '5') by {
                assert(('5') as u32 == 53);
            }
        } else if v == 54 {
            assert(c == '6') by {
                assert(('6') as u32 == 54);
            }
        } else if v == 55 {
            assert(c == '7') by {
                assert(('7') as u32 == 55);
            }
        } else if v == 56 {
            assert(c == '8') by {
                assert(('8') as u32 == 56);
            }
        } else {
            assert(c == '9') by {
                assert(('9') as u32 == 57);
            }
        }
    }
}

/// The canonical decimal rendering: non-empty, all digits, no leading zero
/// except for zero itself, and it denotes the number it renders.
pub proof fn lemma_dec_str_props(n: int)
    requires
        n >= 0,
    ensures
        dec_str(n).len() >= 1,
        forall|i: int| 0 <= i < dec_str(n).len() ==> is_digit_char(#[trigger] dec_str(n)[i]),
        dec_str(n)[0] == '0' <==> n == 0,
        val_of(dec_str(n)) == n,
    decreases n,
{
    if n < 10 {
        lemma_digit_char_val(n);
        assert(dec_str(n) == seq![digit_char(n)]);
        assert(dec_str(n).drop_last() =~= Seq::<char>::empty());
        assert(dec_str(n).last() == digit_char(n));
        assert(val_of(Seq::<char>::empty()) == 0);
        assert(val_of(dec_str(n)) == digit_val(digit_char(n)));
        assert(digit_char(n) == '0' <==> n == 0) by {
            lemma_digit_char_val(n);
            if n != 0 && digit_char(n) == '0' {
                assert(digit_val('0') == 0);
            }
        }
    } else {
        lemma_dec_str_props(n / 10);
        lemma_digit_char_val(n % 10);
        let pre = dec_str(n / 10);
        assert(dec_str(n) == pre + seq![digit_char(n % 10)]);
        assert(dec_str(n).drop_last() =~= pre);
        assert(dec_str(n).last() == digit_char(n % 10));
        assert(val_of(dec_str(n)) == val_of(pre) * 10 + (n % 10));
        assert(val_of(pre) * 10 + n % 10 == n) by (nonlinear_arith)
            requires
                val_of(pre) == n / 10,
                n >= 0,
        ;
        assert(dec_str(n)[0] == pre[0]);
        assert forall|i: int| 0 <= i < dec_str(n).len() implies is_digit_char(
            #[trigger] dec_str(n)[i],
        ) by {
            if i < pre.len() {
                assert(dec_str(n)[i] == pre[i]);
            } else {
                assert(dec_str(n)[i] == digit_char(n % 10));
            }
        }
    }
}

/// Two numbers with the same rendering are the same number.
pub proof fn lemma_dec_str_injective(a: int, b: int)
    requires
        a >= 0,
        b >= 0,
        dec_str(a) == dec_str(b),
    ensures
        a == b,
{
    lemma_dec_str_props(a);
    lemma_dec_str_props(b);
}

/// A digit run in canonical form (no leading zero unless it is just `0`) is
/// the rendering of the number it denotes.
proof fn lemma_canonical_digits(ds: Seq<char>)
    requires
        ds.len() >= 1,
        forall|i: int| 0 <= i < ds.len() ==> is_digit_char(#[trigger] ds[i]),
        ds[0] != '0' || ds.len() == 1,
    ensures
        val_of(ds) >= 0,
        ds == dec_str(val_of(ds)),
    decreases ds.len(),
{
    if ds.len() == 1 {
        lemma_digit_char_inv(ds[0]);
        assert(ds.drop_last() =~= Seq::<char>::empty());
        assert(val_of(Seq::<char>::empty()) == 0);
        assert(ds.last() == ds[0]);
        assert(val_of(ds) == digit_val(ds[0]));
        assert(dec_str(val_of(ds)) == seq![digit_char(val_of(ds))]);
        assert(ds =~= dec_str(val_of(ds)));
    } else {
        let pre = ds.drop_last();
        assert(pre[0] == ds[0]);
        assert(forall|i: int| 0 <= i < pre.len() ==> is_digit_char(#[trigger] pre[i]));
        lemma_canonical_digits(pre);
        let vp = val_of(pre);
        let d = digit_val(ds.last());
        assert(val_of(ds) == vp * 10 + d);
        assert(vp >= 1) by {
            lemma_dec_str_props(vp);
            if vp == 0 {
                assert(dec_str(0)[0] == '0');
                assert(pre[0] == '0');
            }
        }
        assert(0 <= d <= 9);
        let v = val_of(ds);
        assert(v >= 10) by (nonlinear_arith)
            requires
                vp >= 1,
                d >= 0,
                v == vp * 10 + d,
        ;
        assert(v / 10 == vp && v % 10 == d) by (nonlinear_arith)
            requires
                0 <= d <= 9,
                v == vp * 10 + d,
        ;
        lemma_digit_char_inv(ds.last());
        assert(dec_str(v) == dec_str(vp) + seq![digit_char(v % 10)]);
        assert(ds =~= pre + seq![ds.last()]);
    }
}

/// Prefixes of a digit run never denote more than the whole run.
proof fn lemma_val_of_prefix(ds: Seq<char>, n: int)
    requires
        0 <= n <= ds.len(),
        forall|i: int| 0 <= i < ds.len() ==> is_digit_char(#[trigger] ds[i]),
    ensures
        0 <= val_of(ds.take(n)) <= val_of(ds),
    decreases ds.len() - n,
{
    if n == ds.len() {
        assert(ds.take(n) =~= ds);
        lemma_val_of_nonneg(ds);
    } else {
        lemma_val_of_prefix(ds, n + 1);
        let t = ds.take(n + 1);
        assert(t.drop_last() =~= ds.take(n));
        assert(val_of(t) == val_of(ds.take(n)) * 10 + digit_val(t.last()));
        lemma_val_of_nonneg(ds.take(n));
        assert(is_digit_char(ds[n]));
        assert(val_of(ds.take(n)) <= val_of(ds.take(n)) * 10 + digit_val(t.last()))
            by (nonlinear_arith)
            requires
                val_of(ds.take(n)) >= 0,
                digit_val(t.last()) >= 0,
        ;
    }
}

proof fn lemma_val_of_nonneg(ds: Seq<char>)
    requires
        forall|i: int| 0 <= i < ds.len() ==> is_digit_char(#[trigger] ds[i]),
    ensures
        val_of(ds) >= 0,
    decreases ds.len(),
{
    if ds.len() > 0 {
        assert(forall|i: int|
            0 <= i < ds.drop_last().len() ==> is_digit_char(#[trigger] ds.drop_last()[i]));
        lemma_val_of_nonneg(ds.drop_last());
        assert(val_of(ds.drop_last()) * 10 >= 0) by (nonlinear_arith)
            requires
                val_of(ds.drop_last()) >= 0,
        ;
    }
}

/// Whether position `pos` of `s` starts a well-formed decimal that renders
/// `v` and ends at `end` (at the string's end or before a non-digit).
pub open spec fn decimal_at(s: Seq<char>, pos: int, v: int, end: int) -> bool {
    &&& 0 <= pos
    &&& pos < end <= s.len()
    &&& s.subrange(pos, end) == dec_str(v)
    &&& (end == s.len() || !is_digit_char(s[end]))
}

/// A position carries at most one well-formed decimal.
proof fn lemma_decimal_at_unique(s: Seq<char>, pos: int, v1: int, end1: int, v2: int, end2: int)
    requires
        v1 >= 0,
        v2 >= 0,
        decimal_at(s, pos, v1, end1),
        decimal_at(s, pos, v2, end2),
    ensures
        v1 == v2,
        end1 == end2,
{
    lemma_dec_str_props(v1);
    lemma_dec_str_props(v2);
    if end1 < end2 {
        assert(is_digit_char(s[end1])) by {
            assert(s.subrange(pos, end2)[end1 - pos] == s[end1]);
            assert(is_digit_char(dec_str(v2)[end1 - pos]));
        }
    } else if end2 < end1 {
        assert(is_digit_char(s[end2])) by {
            assert(s.subrange(pos, end1)[end2 - pos] == s[end2]);
            assert(is_digit_char(dec_str(v1)[end2 - pos]));
        }
    }
    assert(end1 == end2);
    lemma_dec_str_injective(v1, v2);
}

/// Checks that `lit` occurs in `s` at position `pos` and steps past it.
fn expect_lit(s: &str, pos: usize, lit: &str) -> (r: Option<usize>)
    requires
        pos <= s@.len(),
    ensures
        r matches Some(p) ==> p == pos + lit@.len() && p <= s@.len() && s@.subrange(
            pos as int,
            p as int,
        ) == lit@,
        r.is_none() ==> !(pos + lit@.len() <= s@.len() && s@.subrange(
            pos as int,
            pos + lit@.len(),
        ) == lit@),
{
    let s_len = s.unicode_len();
    let lit_len = lit.unicode_len();
    if s_len - pos < lit_len {
        proof {
            assert(pos + lit@.len() > s@.len());
        }
        return None;
    }
    let mut i: usize = 0;
    while i < lit_len
        invariant
            i <= lit_len,
            lit_len == lit@.len(),
            s_len == s@.len(),
            pos + lit_len <= s_len,
            forall|k: int| 0 <= k < i ==> s@[pos + k] == lit@[k],
        decreases lit_len - i,
    {
        if s.get_char(pos + i) != lit.get_char(i) {
            proof {
                assert(s@[pos + i] != lit@[i as int]);
                if s@.subrange(pos as int, pos + lit@.len()) == lit@ {
                    assert(s@.subrange(pos as int, pos + lit@.len())[i as int] == s@[pos + i]);
                }
            }
            return None;
        }
        i = i + 1;
    }
    proof {
        assert(s@.subrange(pos as int, pos + lit@.len()) =~= lit@);
    }
    Some(pos + lit_len)
}

/// Whether the character at `j` is a decimal digit.
fn digit_at(s: &str, j: usize) -> (r: bool)
    requires
        j < s@.len(),
    ensures
        r == is_digit_char(s@[j as int]),
{
    let c = s.get_char(j);
    let u = c as u32;
    48 <= u && u <= 57
}

/// Parses the well-formed decimal at `pos`, returning its value and the
/// position after it; `None` when there is none, when it has a leading
/// zero, or when its value does not fit.
fn parse_u64_at(s: &str, pos: usize) -> (r: Option<(u64, usize)>)
    requires
        pos <= s@.len(),
    ensures
        r matches Some(p) ==> decimal_at(s@, pos as int, p.0 as int, p.1 as int) && pos < p.1
            <= s@.len(),
        r.is_none() ==> forall|v: u64, end: int| !decimal_at(s@, pos as int, v as int, end),
{
    let s_len = s.unicode_len();
    // Find the end of the digit run.
    let mut j: usize = pos;
    while j < s_len && digit_at(s, j)
        invariant
            pos <= j <= s_len,
            s_len == s@.len(),
            forall|k: int| pos <= k < j ==> is_digit_char(#[trigger] s@[k]),
        decreases s_len - j,
    {
        j = j + 1;
    }
    proof {
        assert(j == s@.len() || !is_digit_char(s@[j as int]));
    }
    if j == pos {
        proof {
            assert forall|v: u64, end: int| !decimal_at(s@, pos as int, v as int, end) by {
                if decimal_at(s@, pos as int, v as int, end) {
                    lemma_dec_str_props(v as int);
                    assert(s@.subrange(pos as int, end)[0] == s@[pos as int]);
                    assert(is_digit_char(s@[pos as int]));
                    assert(pos < s@.len());
                }
            }
        }
        return None;
    }
    let first = s.get_char(pos);
    if first == '0' && j > pos + 1 {
        proof {
            assert forall|v: u64, end: int| !decimal_at(s@, pos as int, v as int, end) by {
                if decimal_at(s@, pos as int, v as int, end) {
                    lemma_dec_str_props(v as int);
                    assert(s@.subrange(pos as int, end)[0] == s@[pos as int]);
                    assert(dec_str(v as int)[0] == '0');
                    assert(v == 0);
                    assert(dec_str(0) == seq![digit_char(0)]);
                    assert(end == pos + 1);
                    assert(is_digit_char(s@[pos + 1]));
                }
            }
        }
        return None;
    }
    // Accumulate the value, watching for overflow.
    let ghost run = s@.subrange(pos as int, j as int);
    let mut acc: u64 = 0;
    let mut k: usize = pos;
    while k < j
        invariant
            pos <= k <= j <= s@.len(),
            run == s@.subrange(pos as int, j as int),
            forall|m: int| pos <= m < j ==> is_digit_char(#[trigger] s@[m]),
            j == s@.len() || !is_digit_char(s@[j as int]),
            acc as int == val_of(run.take(k - pos)),
        decreases j - k,
    {
        let c = s.get_char(k);
        let u = c as u32;
        let d: u64 = (u - 48) as u64;
        proof {
            assert(is_digit_char(s@[k as int]));
            assert(d <= 9);
        }
        if acc > (u64::MAX - d) / 10 {
            proof {
                let t = run.take(k - pos + 1);
                assert(t.drop_last() =~= run.take(k - pos));
                assert(t.last() == run[k - pos] == s@[k as int]);
                assert(val_of(t) == (acc as int) * 10 + d);
                assert((acc as int) * 10 + d > u64::MAX) by (nonlinear_arith)
                    requires
                        acc as int > ((u64::MAX - d) as int) / 10,
                        0 <= d <= 9,
                        acc as int >= 0,
                ;
                assert(forall|i: int| 0 <= i < run.len() ==> is_digit_char(#[trigger] run[i]));
                lemma_val_of_prefix(run, k - pos + 1);
                assert(val_of(run) > u64::MAX);
                assert forall|v: u64, end: int| !decimal_at(s@, pos as int, v as int, end) by {
                    if decimal_at(s@, pos as int, v as int, end) {
                        lemma_run_is_unique_candidate(s@, pos as int, j as int, v as int, end);
                        lemma_dec_str_props(v as int);
                        assert(val_of(run) == v);
                    }
                }
            }
            return None;
        }
        proof {
            assert((acc as int) * 10 + d <= u64::MAX) by (nonlinear_arith)
                requires
                    acc as int <= ((u64::MAX - d) as int) / 10,
                    0 <= d <= 9,
                    acc as int >= 0,
            ;
            let t = run.take(k - pos + 1);
            assert(t.drop_last() =~= run.take(k - pos));
            assert(t.last() == run[k - pos] == s@[k as int]);
            assert(digit_val(s@[k as int]) == d);
        }
        acc = acc * 10 + d;
        k = k + 1;
    }
    proof {
        assert(run.take(j - pos) =~= run);
        assert(forall|i: int| 0 <= i < run.len() ==> is_digit_char(#[trigger] run[i]));
        assert(run[0] == s@[pos as int]);
        assert(run[0] != '0' || run.len() == 1);
        lemma_canonical_digits(run);
        assert(run == dec_str(acc as int));
        assert(decimal_at(s@, pos as int, acc as int, j as int));
    }
    Some((acc, j))
}

/// In a string whose digit run from `pos` ends at `j`, a well-formed
/// decimal starting at `pos` ends exactly at `j` and renders the run.
proof fn lemma_run_is_unique_candidate(s: Seq<char>, pos: int, j: int, v: int, end: int)
    requires
        0 <= pos < j <= s.len(),
        forall|m: int| pos <= m < j ==> is_digit_char(#[trigger] s[m]),
        j == s.len() || !is_digit_char(s[j]),
        v >= 0,
        decimal_at(s, pos, v, end),
    ensures
        end == j,
        s.subrange(pos, j) == dec_str(v),
        val_of(s.subrange(pos, j)) == v,
{
    lemma_dec_str_props(v);
    if end < j {
        assert(is_digit_char(s[end]));
    } else if end > j {
        assert(j < s.len());
        assert(s.subrange(pos, end)[j - pos] == s[j]);
        assert(is_digit_char(dec_str(v)[j - pos]));
    }
    assert(end == j);
}

/// The pieces of a persisted line, at their offsets.
proof fn lemma_json_structure(st: BenchStats)
    ensures
        ({
            let j = stats_json(st);
            let l1 = "{\"min_ns\":"@;
            let d1 = dec_str(st.min_ns as int);
            let l2 = ",\"max_ns\":"@;
            let d2 = dec_str(st.max_ns as int);
            let l3 = ",\"average_ns\":"@;
            let d3 = dec_str(st.average_ns as int);
            let l4 = ",\"median_ns\":"@;
            let d4 = dec_str(st.median_ns as int);
            let l5 = ",\"avg_memory\":"@;
            let d5 = dec_str(st.avg_memory as int);
            let l6 = "}"@;
            let o1 = l1.len() as int;
            let o2 = o1 + d1.len();
            let o3 = o2 + l2.len();
            let o4 = o3 + d2.len();
            let o5 = o4 + l3.len();
            let o6 = o5 + d3.len();
            let o7 = o6 + l4.len();
            let o8 = o7 + d4.len();
            let o9 = o8 + l5.len();
            let o10 = o9 + d5.len();
            &&& j.len() == o10 + l6.len()
            &&& j.subrange(0, o1) == l1
            &&& j.subrange(o1, o2) == d1
            &&& j.subrange(o2, o3) == l2
            &&& j.subrange(o3, o4) == d2
            &&& j.subrange(o4, o5) == l3
            &&& j.subrange(o5, o6) == d3
            &&& j.subrange(o6, o7) == l4
            &&& j.subrange(o7, o8) == d4
            &&& j.subrange(o8, o9) == l5
            &&& j.subrange(o9, o10) == d5
            &&& j.subrange(o10, j.len() as int) == l6
            &&& !is_digit_char(j[o2])
            &&& !is_digit_char(j[o4])
            &&& !is_digit_char(j[o6])
            &&& !is_digit_char(j[o8])
            &&& !is_digit_char(j[o10])
        }),
{
    let j = stats_json(st);
    reveal_strlit("{\"min_ns\":");
    reveal_strlit(",\"max_ns\":");
    reveal_strlit(",\"average_ns\":");
    reveal_strlit(",\"median_ns\":");
    reveal_strlit(",\"avg_memory\":");
    reveal_strlit("}");
    let l1 = "{\"min_ns\":"@;
    let d1 = dec_str(st.min_ns as int);
    let l2 = ",\"max_ns\":"@;
    let d2 = dec_str(st.max_ns as int);
    let l3 = ",\"average_ns\":"@;
    let d3 = dec_str(st.average_ns as int);
    let l4 = ",\"median_ns\":"@;
    let d4 = dec_str(st.median_ns as int);
    let l5 = ",\"avg_memory\":"@;
    let d5 = dec_str(st.avg_memory as int);
    let l6 = "}"@;
    let o1 = l1.len() as int;
    let o2 = o1 + d1.len();
    let o3 = o2 + l2.len();
    let o4 = o3 + d2.len();
    let o5 = o4 + l3.len();
    let o6 = o5 + d3.len();
    let o7 = o6 + l4.len();
    let o8 = o7 + d4.len();
    let o9 = o8 + l5.len();
    let o10 = o9 + d5.len();
    assert(j.subrange(0, o1) =~= l1);
    assert(j.subrange(o1, o2) =~= d1);
    assert(j.subrange(o2, o3) =~= l2);
    assert(j.subrange(o3, o4) =~= d2);
    assert(j.subrange(o4, o5) =~= l3);
    assert(j.subrange(o5, o6) =~= d3);
    assert(j.subrange(o6, o7) =~= l4);
    assert(j.subrange(o7, o8) =~= d4);
    assert(j.subrange(o8, o9) =~= l5);
    assert(j.subrange(o9, o10) =~= d5);
    assert(j.subrange(o10, j.len() as int) =~= l6);
    assert(j[o2] == l2[0] && l2[0] == ',');
    assert(j[o4] == l3[0] && l3[0] == ',');
    assert(j[o6] == l4[0] && l4[0] == ',');
    assert(j[o8] == l5[0] && l5[0] == ',');
    assert(j[o10] == l6[0] && l6[0] == '}');
    assert((',') as u32 == 44 && ('}') as u32 == 125);
}

/// Two statistics with the same persisted line are the same statistics: the
/// baseline read back before a run is exactly the one written after the
/// previous run.
pub proof fn lemma_stats_json_injective(a: BenchStats, b: BenchStats)
    requires
        stats_json(a) == stats_json(b),
    ensures
        a == b,
{
    lemma_json_structure(a);
    lemma_json_structure(b);
    let j = stats_json(a);
    let l1 = "{\"min_ns\":"@;
    let o1 = l1.len() as int;
    // The first decimal is a well-formed decimal at the same offset in both
    // readings of the line, so the first fields agree, which aligns the
    // following offsets; the argument repeats across the fields.
    lemma_dec_str_props(a.min_ns as int);
    lemma_dec_str_props(b.min_ns as int);
    assert(decimal_at(j, o1, a.min_ns as int, o1 + dec_str(a.min_ns as int).len()));
    assert(decimal_at(j, o1, b.min_ns as int, o1 + dec_str(b.min_ns as int).len()));
    lemma_decimal_at_unique(
        j,
        o1,
        a.min_ns as int,
        o1 + dec_str(a.min_ns as int).len(),
        b.min_ns as int,
        o1 + dec_str(b.min_ns as int).len(),
    );
    assert(a.min_ns == b.min_ns);
    let o2 = o1 + dec_str(a.min_ns as int).len();
    let o3 = o2 + ",\"max_ns\":"@.len();
    lemma_dec_str_props(a.max_ns as int);
    lemma_dec_str_props(b.max_ns as int);
    lemma_decimal_at_unique(
        j,
        o3,
        a.max_ns as int,
        o3 + dec_str(a.max_ns as int).len(),
        b.max_ns as int,
        o3 + dec_str(b.max_ns as int).len(),
    );
    assert(a.max_ns == b.max_ns);
    let o4 = o3 + dec_str(a.max_ns as int).len();
    let o5 = o4 + ",\"average_ns\":"@.len();
    lemma_dec_str_props(a.average_ns as int);
    lemma_dec_str_props(b.average_ns as int);
    lemma_decimal_at_unique(
        j,
        o5,
        a.average_ns as int,
        o5 + dec_str(a.average_ns as int).len(),
        b.average_ns as int,
        o5 + dec_str(b.average_ns as int).len(),
    );
    assert(a.average_ns == b.average_ns);
    let o6 = o5 + dec_str(a.average_ns as int).len();
    let o7 = o6 + ",\"median_ns\":"@.len();
    lemma_dec_str_props(a.median_ns as int);
    lemma_dec_str_props(b.median_ns as int);
    lemma_decimal_at_unique(
        j,
        o7,
        a.median_ns as int,
        o7 + dec_str(a.median_ns as int).len(),
        b.median_ns as int,
        o7 + dec_str(b.median_ns as int).len(),
    );
    assert(a.median_ns == b.median_ns);
    let o8 = o7 + dec_str(a.median_ns as int).len();
    let o9 = o8 + ",\"avg_memory\":"@.len();
    lemma_dec_str_props(a.avg_memory as int);
    lemma_dec_str_props(b.avg_memory as int);
    lemma_decimal_at_unique(
        j,
        o9,
        a.avg_memory as int,
        o9 + dec_str(a.avg_memory as int).len(),
        b.avg_memory as int,
        o9 + dec_str(b.avg_memory as int).len(),
    );
    assert(a.avg_memory == b.avg_memory);
}

/// Splits a subrange at an interior point.
proof fn lemma_subrange_glue(s: Seq<char>, a: int, b: int, c: int)
    requires
        0 <= a <= b <= c <= s.len(),
    ensures
        s.subrange(a, c) == s.subrange(a, b) + s.subrange(b, c),
{
    assert(s.subrange(a, c) =~= s.subrange(a, b) + s.subrange(b, c));
}

/// Parses a persisted line back into statistics.
///
/// Succeeds exactly on the lines that `serialize_stats` writes; together
/// with `lemma_stats_json_injective` this makes the persistence round trip
/// exact: reloading a persisted value reproduces a numerically identical
/// baseline.
#[verifier::rlimit(100)]
#[verifier::spinoff_prover]
pub fn deserialize_stats(line: &str) -> (r: Option<BenchStats>)
    ensures
        r matches Some(st) ==> line@ == stats_json(st),
        r.is_none() ==> forall|st: BenchStats| line@ != stats_json(st),
{
    let len = line.unicode_len();
    let p0 = match expect_lit(line, 0, "{\"min_ns\":") {
        Some(p) => p,
        None => {
            proof {
                assert forall|st: BenchStats| line@ != stats_json(st) by {
                    if line@ == stats_json(st) {
                        lemma_json_structure(st);
                    }
                }
            }
            return None;
        },
    };
    let (min_ns, p1) = match parse_u64_at(line, p0) {
        Some(p) => p,
        None => {
            proof {
                assert forall|st: BenchStats| line@ != stats_json(st) by {
                    if line@ == stats_json(st) {
                        lemma_json_structure(st);
                        lemma_dec_str_props(st.min_ns as int);
                        let o1: int = "{\"min_ns\":"@.len() as int;
                        assert(decimal_at(
                            line@,
                            o1,
                            st.min_ns as int,
                            o1 + dec_str(st.min_ns as int).len(),
                        ));
                    }
                }
            }
            return None;
        },
    };
    proof {
        assert forall|st: BenchStats| line@ == stats_json(st) implies p1 as int == "{\"min_ns\":"@.len()
            + dec_str(st.min_ns as int).len() && min_ns == st.min_ns by {
            lemma_json_structure(st);
            lemma_dec_str_props(st.min_ns as int);
            let o1: int = "{\"min_ns\":"@.len() as int;
            assert(decimal_at(line@, o1, st.min_ns as int, o1 + dec_str(st.min_ns as int).len()));
            lemma_decimal_at_unique(
                line@,
                o1,
                min_ns as int,
                p1 as int,
                st.min_ns as int,
                o1 + dec_str(st.min_ns as int).len(),
            );
        }
    }
    let p2 = match expect_lit(line, p1, ",\"max_ns\":") {
        Some(p) => p,
        None => {
            proof {
                assert forall|st: BenchStats| line@ != stats_json(st) by {
                    if line@ == stats_json(st) {
                        lemma_json_structure(st);
                    }
                }
            }
            return None;
        },
    };
    let (max_ns, p3) = match parse_u64_at(line, p2) {
        Some(p) => p,
        None => {
            proof {
                assert forall|st: BenchStats| line@ != stats_json(st) by {
                    if line@ == stats_json(st) {
                        lemma_json_structure(st);
                        lemma_dec_str_props(st.min_ns as int);
                        lemma_dec_str_props(st.max_ns as int);
                        let o3: int = "{\"min_ns\":"@.len() as int + dec_str(st.min_ns as int).len()
                            + ",\"max_ns\":"@.len();
                        assert(decimal_at(
                            line@,
                            o3,
                            st.max_ns as int,
                            o3 + dec_str(st.max_ns as int).len(),
                        ));
                    }
                }
            }
            return None;
        },
    };
    proof {
        assert forall|st: BenchStats| line@ == stats_json(st) implies p3 as int == "{\"min_ns\":"@.len()
            + dec_str(st.min_ns as int).len() + ",\"max_ns\":"@.len() + dec_str(
            st.max_ns as int,
        ).len() && max_ns == st.max_ns by {
            lemma_json_structure(st);
            lemma_dec_str_props(st.min_ns as int);
            lemma_dec_str_props(st.max_ns as int);
            let o3: int = "{\"min_ns\":"@.len() as int + dec_str(st.min_ns as int).len() + ",\"max_ns\":"@.len();
            assert(decimal_at(line@, o3, st.max_ns as int, o3 + dec_str(st.max_ns as int).len()));
            lemma_decimal_at_unique(
                line@,
                o3,
                max_ns as int,
                p3 as int,
                st.max_ns as int,
                o3 + dec_str(st.max_ns as int).len(),
            );
        }
    }
    let p4 = match expect_lit(line, p3, ",\"average_ns\":") {
        Some(p) => p,
        None => {
            proof {
                assert forall|st: BenchStats| line@ != stats_json(st) by {
                    if line@ == stats_json(st) {
                        lemma_json_structure(st);
                    }
                }
            }
            return None;
        },
    };
    let (average_ns, p5) = match parse_u64_at(line, p4) {
        Some(p) => p,
        None => {
            proof {
                assert forall|st: BenchStats| line@ != stats_json(st) by {
                    if line@ == stats_json(st) {
                        lemma_json_structure(st);
                        lemma_dec_str_props(st.average_ns as int);
                        let o5: int = "{\"min_ns\":"@.len() as int + dec_str(st.min_ns as int).len()
                            + ",\"max_ns\":"@.len() + dec_str(st.max_ns as int).len()
                            + ",\"average_ns\":"@.len();
                        assert(decimal_at(
                            line@,
                            o5,
                            st.average_ns as int,
                            o5 + dec_str(st.average_ns as int).len(),
                        ));
                    }
                }
            }
            return None;
        },
    };
    proof {
        assert forall|st: BenchStats| line@ == stats_json(st) implies p5 as int == "{\"min_ns\":"@.len()
            + dec_str(st.min_ns as int).len() + ",\"max_ns\":"@.len() + dec_str(
            st.max_ns as int,
        ).len() + ",\"average_ns\":"@.len() + dec_str(st.average_ns as int).len() && average_ns
            == st.average_ns by {
            lemma_json_structure(st);
            lemma_dec_str_props(st.average_ns as int);
            let o5: int = "{\"min_ns\":"@.len() as int + dec_str(st.min_ns as int).len() + ",\"max_ns\":"@.len()
                + dec_str(st.max_ns as int).len() + ",\"average_ns\":"@.len();
            assert(decimal_at(
                line@,
                o5,
                st.average_ns as int,
                o5 + dec_str(st.average_ns as int).len(),
            ));
            lemma_decimal_at_unique(
                line@,
                o5,
                average_ns as int,
                p5 as int,
                st.average_ns as int,
                o5 + dec_str(st.average_ns as int).len(),
            );
        }
    }
    let p6 = match expect_lit(line, p5, ",\"median_ns\":") {
        Some(p) => p,
        None => {
            proof {
                assert forall|st: BenchStats| line@ != stats_json(st) by {
                    if line@ == stats_json(st) {
                        lemma_json_structure(st);
                    }
                }
            }
            return None;
        },
    };
    let (median_ns, p7) = match parse_u64_at(line, p6) {
        Some(p) => p,
        None => {
            proof {
                assert forall|st: BenchStats| line@ != stats_json(st) by {
                    if line@ == stats_json(st) {
                        lemma_json_structure(st);
                        lemma_dec_str_props(st.median_ns as int);
                        let o7: int = "{\"min_ns\":"@.len() as int + dec_str(st.min_ns as int).len()
                            + ",\"max_ns\":"@.len() + dec_str(st.max_ns as int).len()
                            + ",\"average_ns\":"@.len() + dec_str(st.average_ns as int).len()
                            + ",\"median_ns\":"@.len();
                        assert(decimal_at(
                            line@,
                            o7,
                            st.median_ns as int,
                            o7 + dec_str(st.median_ns as int).len(),
                        ));
                    }
                }
            }
            return None;
        },
    };
    proof {
        assert forall|st: BenchStats| line@ == stats_json(st) implies p7 as int == "{\"min_ns\":"@.len()
            + dec_str(st.min_ns as int).len() + ",\"max_ns\":"@.len() + dec_str(
            st.max_ns as int,
        ).len() + ",\"average_ns\":"@.len() + dec_str(st.average_ns as int).len()
            + ",\"median_ns\":"@.len() + dec_str(st.median_ns as int).len() && median_ns
            == st.median_ns by {
            lemma_json_structure(st);
            lemma_dec_str_props(st.median_ns as int);
            let o7: int = "{\"min_ns\":"@.len() as int + dec_str(st.min_ns as int).len() + ",\"max_ns\":"@.len()
                + dec_str(st.max_ns as int).len() + ",\"average_ns\":"@.len() + dec_str(
                st.average_ns as int,
            ).len() + ",\"median_ns\":"@.len();
            assert(decimal_at(
                line@,
                o7,
                st.median_ns as int,
                o7 + dec_str(st.median_ns as int).len(),
            ));
            lemma_decimal_at_unique(
                line@,
                o7,
                median_ns as int,
                p7 as int,
                st.median_ns as int,
                o7 + dec_str(st.median_ns as int).len(),
            );
        }
    }
    let p8 = match expect_lit(line, p7, ",\"avg_memory\":") {
        Some(p) => p,
        None => {
            proof {
                assert forall|st: BenchStats| line@ != stats_json(st) by {
                    if line@ == stats_json(st) {
                        lemma_json_structure(st);
                    }
                }
            }
            return None;
        },
    };
    let (avg_memory64, p9) = match parse_u64_at(line, p8) {
        Some(p) => p,
        None => {
            proof {
                assert forall|st: BenchStats| line@ != stats_json(st) by {
                    if line@ == stats_json(st) {
                        lemma_json_structure(st);
                        lemma_dec_str_props(st.avg_memory as int);
                        let o9: int = "{\"min_ns\":"@.len() as int + dec_str(st.min_ns as int).len()
                            + ",\"max_ns\":"@.len() + dec_str(st.max_ns as int).len()
                            + ",\"average_ns\":"@.len() + dec_str(st.average_ns as int).len()
                            + ",\"median_ns\":"@.len() + dec_str(st.median_ns as int).len()
                            + ",\"avg_memory\":"@.len();
                        assert(decimal_at(
                            line@,
                            o9,
                            st.avg_memory as int,
                            o9 + dec_str(st.avg_memory as int).len(),
                        ));
                    }
                }
            }
            return None;
        },
    };
    proof {
        assert forall|st: BenchStats| line@ == stats_json(st) implies p9 as int == "{\"min_ns\":"@.len()
            + dec_str(st.min_ns as int).len() + ",\"max_ns\":"@.len() + dec_str(
            st.max_ns as int,
        ).len() + ",\"average_ns\":"@.len() + dec_str(st.average_ns as int).len()
            + ",\"median_ns\":"@.len() + dec_str(st.median_ns as int).len() + ",\"avg_memory\":"@.len()
            + dec_str(st.avg_memory as int).len() && avg_memory64 as int == st.avg_memory as int by {
            lemma_json_structure(st);
            lemma_dec_str_props(st.avg_memory as int);
            let o9: int = "{\"min_ns\":"@.len() as int + dec_str(st.min_ns as int).len() + ",\"max_ns\":"@.len()
                + dec_str(st.max_ns as int).len() + ",\"average_ns\":"@.len() + dec_str(
                st.average_ns as int,
            ).len() + ",\"median_ns\":"@.len() + dec_str(st.median_ns as int).len()
                + ",\"avg_memory\":"@.len();
            assert(decimal_at(
                line@,
                o9,
                st.avg_memory as int,
                o9 + dec_str(st.avg_memory as int).len(),
            ));
            lemma_decimal_at_unique(
                line@,
                o9,
                avg_memory64 as int,
                p9 as int,
                st.avg_memory as int,
                o9 + dec_str(st.avg_memory as int).len(),
            );
        }
    }
    let p10 = match expect_lit(line, p9, "}") {
        Some(p) => p,
        None => {
            proof {
                assert forall|st: BenchStats| line@ != stats_json(st) by {
                    if line@ == stats_json(st) {
                        lemma_json_structure(st);
                        reveal_strlit("}");
                    }
                }
            }
            return None;
        },
    };
    if p10 != len {
        proof {
            assert forall|st: BenchStats| line@ != stats_json(st) by {
                if line@ == stats_json(st) {
                    lemma_json_structure(st);
                    reveal_strlit("}");
                }
            }
        }
        return None;
    }
    if avg_memory64 > usize::MAX as u64 {
        proof {
            assert forall|st: BenchStats| line@ != stats_json(st) by {
                if line@ == stats_json(st) {
                    assert(avg_memory64 as int == st.avg_memory as int);
                }
            }
        }
        return None;
    }
    let st = BenchStats {
        min_ns,
        max_ns,
        average_ns,
        median_ns,
        avg_memory: avg_memory64 as usize,
    };
    proof {
        lemma_subrange_glue(line@, 0, p0 as int, p1 as int);
        lemma_subrange_glue(line@, 0, p1 as int, p2 as int);
        lemma_subrange_glue(line@, 0, p2 as int, p3 as int);
        lemma_subrange_glue(line@, 0, p3 as int, p4 as int);
        lemma_subrange_glue(line@, 0, p4 as int, p5 as int);
        lemma_subrange_glue(line@, 0, p5 as int, p6 as int);
        lemma_subrange_glue(line@, 0, p6 as int, p7 as int);
        lemma_subrange_glue(line@, 0, p7 as int, p8 as int);
        lemma_subrange_glue(line@, 0, p8 as int, p9 as int);
        lemma_subrange_glue(line@, 0, p9 as int, p10 as int);
        assert(line@.subrange(0, p10 as int) =~= line@);
        assert(line@ == stats_json(st));
    }
    Some(st)
}

} // verus!
