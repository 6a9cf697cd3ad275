//! Rendering of durations, counts, byte sizes and throughputs as
//! human-readable strings, with exact character-level contracts.

use vstd::prelude::*;
use vstd::string::StrSliceExecFns;
use crate::bench::sat_sub;
use crate::strings::char_repeat;
use crate::strings::dec_str;
use crate::strings::digit_char;
use crate::strings::push_char;
use crate::strings::push_dec;
use crate::strings::push_repeat;
use crate::strings::u64_to_string;

verus! {

/// The decimal rendering of `n` zero-padded to exactly `width` digits
/// (keeping only the lowest `width` digits).
pub open spec fn zero_padded(n: int, width: nat) -> Seq<char>
    decreases width,
{
    if width == 0 {
        Seq::<char>::empty()
    } else {
        zero_padded(n / 10, (width - 1) as nat) + seq![digit_char(n % 10)]
    }
}

/// `s` without its trailing `'0'` characters.
pub open spec fn strip_trailing_zeros(s: Seq<char>) -> Seq<char>
    decreases s.len(),
{
    if s.len() == 0 {
        s
    } else if s.last() == '0' {
        strip_trailing_zeros(s.drop_last())
    } else {
        s
    }
}

/// Appends the decimal rendering of `n`, zero-padded to `width` digits.
fn push_zero_padded(s: &mut String, n: u128, width: usize)
    ensures
        final(s)@ == old(s)@ + zero_padded(n as int, width as nat),
    decreases width,
{
    if width == 0 {
        proof {
            assert(old(s)@ + zero_padded(n as int, 0) =~= old(s)@);
        }
    } else {
        push_zero_padded(s, n / 10, width - 1);
        let d = n % 10;
        push_char(
            &mut *s,
            if d == 0 {
                '0'
            } else if d == 1 {
                '1'
            } else if d == 2 {
                '2'
            } else if d == 3 {
                '3'
            } else if d == 4 {
                '4'
            } else if d == 5 {
                '5'
            } else if d == 6 {
                '6'
            } else if d == 7 {
                '7'
            } else if d == 8 {
                '8'
            } else {
                '9'
            },
        );
    }
}

/// Appends `zero_padded(n, width)` with its trailing zeros removed.
fn push_stripped(s: &mut String, n: u128, width: usize)
    ensures
        final(s)@ == old(s)@ + strip_trailing_zeros(zero_padded(n as int, width as nat)),
{
    let mut digits: Vec<char> = Vec::new();
    let mut tmp = String::new();
    push_zero_padded(&mut tmp, n, width);
    let mut i: usize = 0;
    let len = tmp.as_str().unicode_len();
    while i < len
        invariant
            i <= len,
            len == tmp@.len(),
            digits@ == tmp@.take(i as int),
        decreases len - i,
    {
        digits.push(tmp.as_str().get_char(i));
        proof {
            assert(digits@ =~= tmp@.take(i + 1));
        }
        i = i + 1;
    }
    proof {
        assert(tmp@.take(len as int) =~= tmp@);
    }
    loop
        invariant
            strip_trailing_zeros(digits@) == strip_trailing_zeros(zero_padded(
                n as int,
                width as nat,
            )),
        ensures
            digits@ == strip_trailing_zeros(zero_padded(n as int, width as nat)),
        decreases digits@.len(),
    {
        let dlen = digits.len();
        if dlen == 0 {
            proof {
                assert(strip_trailing_zeros(digits@) == digits@);
            }
            break ;
        }
        let last = digits[dlen - 1];
        if last != '0' {
            proof {
                assert(digits@.last() != '0');
                assert(strip_trailing_zeros(digits@) == digits@);
            }
            break ;
        }
        proof {
            assert(digits@.last() == '0');
            assert(strip_trailing_zeros(digits@) == strip_trailing_zeros(digits@.drop_last()));
        }
        digits.pop();
    }
    let mut k: usize = 0;
    while k < digits.len()
        invariant
            k <= digits@.len(),
            s@ == old(s)@ + digits@.take(k as int),
        decreases digits@.len() - k,
    {
        push_char(&mut *s, digits[k]);
        proof {
            assert(old(s)@ + digits@.take(k + 1) =~= (old(s)@ + digits@.take(k as int)).push(
                digits@[k as int],
            ));
        }
        k = k + 1;
    }
    proof {
        assert(digits@.take(digits@.len() as int) =~= digits@);
    }
}

/// How `format_duration` renders `d` nanoseconds: plain nanoseconds below
/// ten thousand; milliseconds with four decimals (rounded half-up) up to one
/// second; above that, seconds as an exact decimal with trailing fractional
/// zeros removed.
pub open spec fn format_duration_spec(d: int) -> Seq<char>
    recommends
        d >= 0,
{
    if d < 10000 {
        dec_str(d) + seq!['n', 's']
    } else if d <= 1_000_000_000 {
        let h = (d + 50) / 100;
        dec_str(h / 10000) + seq!['.'] + zero_padded(h % 10000, 4) + seq!['m', 's']
    } else {
        let secs = d / 1_000_000_000;
        let frac = d % 1_000_000_000;
        if frac == 0 {
            dec_str(secs) + seq!['s']
        } else {
            dec_str(secs) + seq!['.'] + strip_trailing_zeros(zero_padded(frac, 9)) + seq!['s']
        }
    }
}

/// Formats a duration in nanoseconds as a human-readable string in
/// nanoseconds, milliseconds or seconds, depending on its size.
pub fn format_duration(duration: u64) -> (r: String)
    ensures
        r@ == format_duration_spec(duration as int),
{
    let mut s = String::new();
    if duration < 10_000 {
        push_dec(&mut s, duration as u128);
        push_char(&mut s, 'n');
        push_char(&mut s, 's');
    } else if duration <= 1_000_000_000 {
        let h = (duration + 50) / 100;
        push_dec(&mut s, (h / 10000) as u128);
        push_char(&mut s, '.');
        push_zero_padded(&mut s, (h % 10000) as u128, 4);
        push_char(&mut s, 'm');
        push_char(&mut s, 's');
    } else {
        let secs = duration / 1_000_000_000;
        let frac = duration % 1_000_000_000;
        push_dec(&mut s, secs as u128);
        if frac != 0 {
            push_char(&mut s, '.');
            push_stripped(&mut s, frac as u128, 9);
        }
        push_char(&mut s, 's');
    }
    proof {
        assert(s@ =~= format_duration_spec(duration as int));
    }
    s
}

/// The digits of `digits` with an underscore before every third digit
/// (counted from the right), starting at position `i`.
pub open spec fn underscore_from(digits: Seq<char>, i: int) -> Seq<char>
    decreases digits.len() - i,
{
    if i < 0 || i >= digits.len() {
        Seq::<char>::empty()
    } else {
        (if i != 0 && (digits.len() - i) % 3 == 0 {
            seq!['_']
        } else {
            Seq::<char>::empty()
        }) + seq![digits[i]] + underscore_from(digits, i + 1)
    }
}

/// The decimal rendering of `n` with thousands separated by underscores.
pub open spec fn underscored(n: int) -> Seq<char>
    recommends
        n >= 0,
{
    underscore_from(dec_str(n), 0)
}

/// Formats a number with an underscore between every group of three digits,
/// so that `1000000` renders as `1_000_000`.
pub fn format_with_underscores(number: u64) -> (r: String)
    ensures
        r@ == underscored(number as int),
{
    let digits = u64_to_string(number);
    let len = digits.as_str().unicode_len();
    let mut out = String::new();
    let mut i: usize = 0;
    while i < len
        invariant
            i <= len,
            len == digits@.len(),
            digits@ == dec_str(number as int),
            out@ + underscore_from(digits@, i as int) == underscored(number as int),
        decreases len - i,
    {
        let ghost pre = out@;
        if i != 0 && (len - i) % 3 == 0 {
            push_char(&mut out, '_');
        }
        push_char(&mut out, digits.as_str().get_char(i));
        proof {
            assert(out@ + underscore_from(digits@, i + 1) =~= pre + underscore_from(
                digits@,
                i as int,
            ));
        }
        i = i + 1;
    }
    proof {
        assert(out@ + underscore_from(digits@, len as int) =~= out@);
    }
    out
}

/// The number of whole factors of 1024 in `b`: zero below 1024, one more
/// for each division by 1024.
pub open spec fn log1024(b: int) -> nat
    decreases b,
{
    if b < 1024 {
        0
    } else {
        1 + log1024(b / 1024)
    }
}

/// The unit exponent a byte count is rendered with: its number of factors of
/// 1024, at least one.
pub open spec fn byte_unit_exp(b: int) -> nat {
    if log1024(b) == 0 {
        1
    } else {
        log1024(b)
    }
}

/// The unit letter for each exponent.
pub open spec fn unit_char(e: nat) -> char {
    if e == 1 {
        'K'
    } else if e == 2 {
        'M'
    } else if e == 3 {
        'G'
    } else if e == 4 {
        'T'
    } else if e == 5 {
        'P'
    } else {
        'E'
    }
}

/// Ten to the `e`, as used for decimal scaling.
pub open spec fn pow1000(e: nat) -> int
    decreases e,
{
    if e == 0 {
        1
    } else {
        1000 * pow1000((e - 1) as nat)
    }
}

/// How `bytes_to_string` renders `b` bytes: plain below one thousand;
/// otherwise one decimal digit (rounded half-up) of `b` scaled by a power of
/// one thousand, with a unit letter chosen by the number of factors of 1024.
pub open spec fn bytes_to_string_spec(b: int) -> Seq<char>
    recommends
        b >= 0,
{
    if b < 1000 {
        dec_str(b) + seq![' ', 'B']
    } else {
        let e = byte_unit_exp(b);
        let den = pow1000(e);
        let tenths = (2 * (b * 10) + den) / (2 * den);
        dec_str(tenths / 10) + seq!['.'] + seq![digit_char(tenths % 10)] + seq![
            ' ',
            unit_char(e),
            'B',
        ]
    }
}

/// Formats a byte count with a binary-magnitude unit letter and one decimal
/// digit, so that `786500` renders as `786.5 KB`.
pub fn bytes_to_string(bytes: u64) -> (r: String)
    ensures
        r@ == bytes_to_string_spec(bytes as int),
{
    let mut s = String::new();
    if bytes < 1000 {
        push_dec(&mut s, bytes as u128);
        push_char(&mut s, ' ');
        push_char(&mut s, 'B');
        proof {
            assert(s@ =~= bytes_to_string_spec(bytes as int));
        }
        return s;
    }
    proof {
        lemma_log1024_u64(bytes as int);
    }
    let mut e: usize = 0;
    let mut cur: u64 = bytes;
    let mut den: u64 = 1;
    while cur >= 1024
        invariant
            log1024(bytes as int) == e + log1024(cur as int),
            log1024(bytes as int) <= 6,
            den == pow1000(e as nat),
        decreases cur,
    {
        proof {
            assert(log1024(cur as int) >= 1);
            assert(e <= 5);
            assert(den <= pow1000(5)) by {
                lemma_pow1000_increases(e as nat, 5);
            }
            lemma_pow1000_vals();
            assert(pow1000((e + 1) as nat) == 1000 * pow1000(e as nat));
        }
        cur = cur / 1024;
        den = den * 1000;
        e = e + 1;
    }
    let exp: usize = if e == 0 {
        1
    } else {
        e
    };
    let den_final: u64 = if e == 0 {
        1000
    } else {
        den
    };
    proof {
        lemma_pow1000_vals();
        assert(log1024(cur as int) == 0);
        assert(e == log1024(bytes as int));
        assert(exp == byte_unit_exp(bytes as int));
        assert(den_final == pow1000(exp as nat));
        assert(den_final >= 1000) by {
            lemma_pow1000_increases(1, exp as nat);
        }
    }
    let tenths: u128 = (2u128 * ((bytes as u128) * 10) + (den_final as u128)) / (2u128 * (
    den_final as u128));
    push_dec(&mut s, tenths / 10);
    push_char(&mut s, '.');
    let d = (tenths % 10) as u64;
    push_char(
        &mut s,
        if d == 0 {
            '0'
        } else if d == 1 {
            '1'
        } else if d == 2 {
            '2'
        } else if d == 3 {
            '3'
        } else if d == 4 {
            '4'
        } else if d == 5 {
            '5'
        } else if d == 6 {
            '6'
        } else if d == 7 {
            '7'
        } else if d == 8 {
            '8'
        } else {
            '9'
        },
    );
    push_char(&mut s, ' ');
    let exp_char = if exp == 1 {
        'K'
    } else if exp == 2 {
        'M'
    } else if exp == 3 {
        'G'
    } else if exp == 4 {
        'T'
    } else if exp == 5 {
        'P'
    } else {
        'E'
    };
    push_char(&mut s, exp_char);
    push_char(&mut s, 'B');
    proof {
        assert(exp_char == unit_char(byte_unit_exp(bytes as int))) by {
            assert(log1024(cur as int) == 0);
            if exp >= 7 {
                assert(false);
            }
        }
        assert(s@ =~= bytes_to_string_spec(bytes as int));
    }
    s
}

/// The number of decimals a value `num / den` is rendered with: more
/// decimals for smaller values, none from ten thousand up.
pub open spec fn float_decimals(num: int, den: int) -> nat {
    if num < 10 * den {
        4
    } else if num < 100 * den {
        3
    } else if num < 1000 * den {
        2
    } else if num < 10000 * den {
        1
    } else {
        0
    }
}

/// The rendering of the ratio `num / den` with `float_decimals` decimal
/// digits, rounded half-up.
pub open spec fn float_seq(num: int, den: int) -> Seq<char>
    recommends
        den >= 1,
        num >= 0,
{
    let k = float_decimals(num, den);
    let p = crate::bench_runner::pow10(k);
    let scaled = (2 * num * p + den) / (2 * den);
    if k == 0 {
        dec_str(scaled)
    } else {
        dec_str(scaled / p) + seq!['.'] + zero_padded(scaled % p, k)
    }
}

/// `s` padded on the left with spaces to a width of at least six.
pub open spec fn right_aligned6(s: Seq<char>) -> Seq<char> {
    char_repeat(' ', sat_sub(6, s.len() as int)) + s
}

/// How a throughput of `bytes` bytes in `ns` nanoseconds is rendered: the
/// rate scaled into the unit that keeps it below one thousand of the next,
/// right-aligned to six characters, followed by the unit.
pub open spec fn throughput_spec(bytes: int, ns: int) -> Seq<char>
    recommends
        ns >= 1,
        bytes >= 0,
{
    let n0 = bytes * 1_000_000_000;
    if n0 < 1000 * ns {
        right_aligned6(float_seq(n0, ns)) + seq![' '] + "  B/s"@
    } else if n0 < 1_000_000 * ns {
        right_aligned6(float_seq(n0, 1000 * ns)) + seq![' '] + "KB/s"@
    } else if n0 < 1_000_000_000 * ns {
        right_aligned6(float_seq(n0, 1_000_000 * ns)) + seq![' '] + "MB/s"@
    } else {
        right_aligned6(float_seq(n0, 1_000_000_000 * ns)) + seq![' '] + "GB/s"@
    }
}

/// What `format_duration_or_throughput` renders: a throughput when the
/// input size is known, the plain duration otherwise. A zero duration has
/// no finite rate and renders as an infinite (or, without bytes, undefined)
/// gigabyte rate.
pub open spec fn format_duration_or_throughput_spec(d: int, input_size: Option<usize>) -> Seq<
    char,
> {
    match input_size {
        Option::None => format_duration_spec(d),
        Option::Some(b) => {
            if d == 0 {
                if b > 0 {
                    "   inf GB/s"@
                } else {
                    "   NaN GB/s"@
                }
            } else {
                throughput_spec(b as int, d)
            }
        },
    }
}

/// Renders the ratio `num / den` with magnitude-dependent decimals into `s`.
fn push_float(s: &mut String, num: u128, den: u128)
    requires
        1 <= den,
        num <= 0xffffffffffffffffffffffffff,
        den <= 0xffffffffffffffffffffffffff,
    ensures
        final(s)@ == old(s)@ + float_seq(num as int, den as int),
{
    let k: usize = if num < 10 * den {
        4
    } else if num < 100 * den {
        3
    } else if num < 1000 * den {
        2
    } else if num < 10000 * den {
        1
    } else {
        0
    };
    let p: u128 = if k == 4 {
        10000
    } else if k == 3 {
        1000
    } else if k == 2 {
        100
    } else if k == 1 {
        10
    } else {
        1
    };
    proof {
        assert(crate::bench_runner::pow10(0) == 1);
        assert(crate::bench_runner::pow10(1) == 10);
        assert(crate::bench_runner::pow10(2) == 100);
        assert(crate::bench_runner::pow10(3) == 1000);
        assert(crate::bench_runner::pow10(4) == 10000);
        assert(k as nat == float_decimals(num as int, den as int));
        assert(p as int == crate::bench_runner::pow10(k as nat));
    }
    let scaled: u128 = (2 * num * p + den) / (2 * den);
    if k == 0 {
        push_dec(&mut *s, scaled);
    } else {
        push_dec(&mut *s, scaled / p);
        push_char(&mut *s, '.');
        push_zero_padded(&mut *s, scaled % p, k);
    }
    proof {
        assert(s@ =~= old(s)@ + float_seq(num as int, den as int));
    }
}

/// Formats a duration, or a throughput when the input size is known.
pub fn format_duration_or_throughput(duration_ns: u64, input_size_in_bytes: Option<usize>) -> (r:
    String)
    ensures
        r@ == format_duration_or_throughput_spec(duration_ns as int, input_size_in_bytes),
{
    match input_size_in_bytes {
        None => format_duration(duration_ns),
        Some(bytes) => {
            let mut s = String::new();
            if duration_ns == 0 {
                if bytes > 0 {
                    s.append("   inf GB/s");
                } else {
                    s.append("   NaN GB/s");
                }
                proof {
                    assert(s@ =~= format_duration_or_throughput_spec(
                        duration_ns as int,
                        input_size_in_bytes,
                    ));
                }
                return s;
            }
            let n0: u128 = (bytes as u128) * 1_000_000_000;
            let ns: u128 = duration_ns as u128;
            let dm: u128 = if n0 < 1000 * ns {
                1
            } else if n0 < 1_000_000 * ns {
                1000
            } else if n0 < 1_000_000_000 * ns {
                1_000_000
            } else {
                1_000_000_000
            };
            let unit: &str = if n0 < 1000 * ns {
                "  B/s"
            } else if n0 < 1_000_000 * ns {
                "KB/s"
            } else if n0 < 1_000_000_000 * ns {
                "MB/s"
            } else {
                "GB/s"
            };
            let mut tmp = String::new();
            push_float(&mut tmp, n0, ns * dm);
            let tmp_len = tmp.as_str().unicode_len();
            if tmp_len < 6 {
                push_repeat(&mut s, ' ', 6 - tmp_len);
            } else {
                proof {
                    assert(s@ + char_repeat(' ', sat_sub(6, tmp@.len() as int)) =~= s@);
                }
            }
            s.append(tmp.as_str());
            push_char(&mut s, ' ');
            s.append(unit);
            proof {
                assert(s@ =~= format_duration_or_throughput_spec(
                    duration_ns as int,
                    input_size_in_bytes,
                ));
            }
            s
        },
    }
}

/// 1024 to the `k`.
spec fn pow1024(k: nat) -> int
    decreases k,
{
    if k == 0 {
        1
    } else {
        1024 * pow1024((k - 1) as nat)
    }
}

proof fn lemma_pow1024_vals()
    ensures
        pow1024(7) == 1180591620717411303424int,
{
    assert(pow1024(0) == 1);
    assert(pow1024(1) == 1024);
    assert(pow1024(2) == 1048576);
    assert(pow1024(3) == 1073741824);
    assert(pow1024(4) == 1099511627776int);
    assert(pow1024(5) == 1125899906842624int);
    assert(pow1024(6) == 1152921504606846976int);
    assert(pow1024(7) == 1180591620717411303424int);
}

proof fn lemma_log1024_lt(b: int, k: nat)
    requires
        k >= 1,
        0 <= b < pow1024(k),
    ensures
        log1024(b) <= k - 1,
    decreases k,
{
    if b < 1024 {
    } else {
        assert(pow1024(k) > 1024);
        assert(k >= 2) by {
            if k == 1 {
                assert(pow1024(1) == 1024 * pow1024(0));
                assert(pow1024(0) == 1);
            }
        }
        assert(pow1024(k) == 1024 * pow1024((k - 1) as nat));
        assert(b / 1024 < pow1024((k - 1) as nat)) by (nonlinear_arith)
            requires
                b < 1024 * pow1024((k - 1) as nat),
                b >= 0,
        ;
        lemma_log1024_lt(b / 1024, (k - 1) as nat);
    }
}

/// Any byte count that fits a machine word has at most six factors of 1024.
proof fn lemma_log1024_u64(b: int)
    requires
        0 <= b <= 0xffff_ffff_ffff_ffff,
    ensures
        log1024(b) <= 6,
{
    lemma_pow1024_vals();
    lemma_log1024_lt(b, 7);
}

proof fn lemma_pow1000_increases(j: nat, k: nat)
    requires
        j <= k,
    ensures
        pow1000(j) <= pow1000(k),
        pow1000(j) >= 1,
    decreases k,
{
    if k > 0 {
        if j <= k - 1 {
            lemma_pow1000_increases(j, (k - 1) as nat);
        } else {
            lemma_pow1000_increases((j - 1) as nat, (k - 1) as nat);
        }
    }
}

proof fn lemma_pow1000_vals()
    ensures
        pow1000(1) == 1000,
        pow1000(6) == 1000000000000000000int,
        pow1000(7) == 1000000000000000000000int,
{
    assert(pow1000(0) == 1);
    assert(pow1000(1) == 1000);
    assert(pow1000(2) == 1000000);
    assert(pow1000(3) == 1000000000);
    assert(pow1000(4) == 1000000000000);
    assert(pow1000(5) == 1000000000000000);
    assert(pow1000(6) == 1000000000000000000int);
    assert(pow1000(7) == 1000000000000000000000int);
}

} // verus!
