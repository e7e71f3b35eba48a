//! The numeric payload of the dynamic value model.
//!
//! A Lox number is stored as a signed count of millionths: the machine word
//! `n` stands for the rational number `n / 1_000_000`. Literals with up to
//! six fractional digits are represented exactly; additional fractional
//! digits of a literal are dropped. The arithmetic is exact fixed-point
//! arithmetic: addition, subtraction and negation saturate at the
//! representable bounds, multiplication and division truncate the exact
//! rational result toward zero and then saturate. Division by zero is
//! rejected by the caller (see the value operators); it is never performed
//! here.

use vstd::arithmetic::mul::{
    lemma_mul_inequality, lemma_mul_nonnegative, lemma_mul_strictly_positive,
    lemma_mul_unary_negation,
};
use vstd::prelude::*;

verus! {

/// How many units stand for the number one.
pub const SCALE: i64 = 1_000_000;

/// `x` forced into the range of the machine word.
pub open spec fn clamp_i64(x: int) -> int {
    if x > i64::MAX as int {
        i64::MAX as int
    } else if x < i64::MIN as int {
        i64::MIN as int
    } else {
        x
    }
}

/// The absolute value of `x`.
pub open spec fn abs_int(x: int) -> int {
    if x < 0 {
        -x
    } else {
        x
    }
}

/// Integer division truncated toward zero, the rounding that the scaled
/// multiplication and division below use. Callers keep `d` nonzero.
pub open spec fn trunc_div(n: int, d: int) -> int {
    if (n < 0) == (d < 0) {
        abs_int(n) / abs_int(d)
    } else {
        -(abs_int(n) / abs_int(d))
    }
}

/// What adding two stored numbers yields.
pub open spec fn spec_add(a: int, b: int) -> int {
    clamp_i64(a + b)
}

/// What subtracting two stored numbers yields.
pub open spec fn spec_sub(a: int, b: int) -> int {
    clamp_i64(a - b)
}

/// What multiplying two stored numbers yields: the product of the two
/// rationals, truncated toward zero at the sixth fractional digit.
pub open spec fn spec_mul(a: int, b: int) -> int {
    clamp_i64(trunc_div(a * b, SCALE as int))
}

/// What dividing two stored numbers yields (`b != 0`): the quotient of the
/// two rationals, truncated toward zero at the sixth fractional digit.
pub open spec fn spec_div(a: int, b: int) -> int {
    clamp_i64(trunc_div(a * (SCALE as int), b))
}

/// What negating a stored number yields.
pub open spec fn spec_neg(a: int) -> int {
    clamp_i64(-a)
}

/// Saturating fixed-point addition.
pub fn num_add(a: i64, b: i64) -> (r: i64)
    ensures
        r as int == spec_add(a as int, b as int),
{
    let s: i128 = a as i128 + b as i128;
    if s > i64::MAX as i128 {
        i64::MAX
    } else if s < i64::MIN as i128 {
        i64::MIN
    } else {
        s as i64
    }
}

/// Saturating fixed-point subtraction.
pub fn num_sub(a: i64, b: i64) -> (r: i64)
    ensures
        r as int == spec_sub(a as int, b as int),
{
    let s: i128 = a as i128 - b as i128;
    if s > i64::MAX as i128 {
        i64::MAX
    } else if s < i64::MIN as i128 {
        i64::MIN
    } else {
        s as i64
    }
}

/// Saturating fixed-point negation.
pub fn num_neg(a: i64) -> (r: i64)
    ensures
        r as int == spec_neg(a as int),
{
    if a == i64::MIN {
        i64::MAX
    } else {
        -a
    }
}

/// The magnitude of a stored number, exact also for the smallest word.
fn abs_u128(a: i64) -> (r: u128)
    ensures
        r as int == abs_int(a as int),
{
    if a >= 0 {
        a as u128
    } else {
        (-(a as i128)) as u128
    }
}

/// A signed, clamped number assembled from a sign and a magnitude.
fn from_magnitude(neg: bool, q: u128) -> (r: i64)
    ensures
        r as int == clamp_i64(if neg {
            -(q as int)
        } else {
            q as int
        }),
{
    if neg {
        if q >= 9223372036854775808u128 {
            i64::MIN
        } else {
            -(q as i64)
        }
    } else {
        if q > i64::MAX as u128 {
            i64::MAX
        } else {
            q as i64
        }
    }
}

/// The magnitude of a product is the product of the magnitudes, and the
/// product is negative exactly when the signs differ and neither factor is
/// zero.
proof fn lemma_abs_mul(a: int, b: int)
    ensures
        abs_int(a * b) == abs_int(a) * abs_int(b),
        (a * b < 0) <==> ((a < 0) != (b < 0)) && a != 0 && b != 0,
{
    lemma_mul_unary_negation(a, b);
    lemma_mul_unary_negation(-a, b);
    if a >= 0 && b >= 0 {
        lemma_mul_nonnegative(a, b);
    } else if a < 0 && b < 0 {
        lemma_mul_strictly_positive(-a, -b);
    } else if a < 0 {
        lemma_mul_nonnegative(-a, b);
        lemma_mul_strictly_positive(-a, b);
    } else {
        lemma_mul_nonnegative(a, -b);
        lemma_mul_strictly_positive(a, -b);
    }
}

/// Saturating, truncating fixed-point multiplication.
pub fn num_mul(a: i64, b: i64) -> (r: i64)
    ensures
        r as int == spec_mul(a as int, b as int),
{
    let neg: bool = (a < 0) != (b < 0);
    let ua: u128 = abs_u128(a);
    let ub: u128 = abs_u128(b);
    proof {
        lemma_abs_mul(a as int, b as int);
        assert(ua as int * ub as int <= 0x8000000000000000 * 0x8000000000000000) by (nonlinear_arith)
            requires
                ua as int <= 0x8000000000000000,
                ub as int <= 0x8000000000000000,
        ;
    }
    let p: u128 = ua * ub;
    let q: u128 = p / 1_000_000u128;
    proof {
        assert(q as int == abs_int(a as int * b as int) / (SCALE as int));
        if p == 0 {
            assert(a as int * b as int == 0);
        }
    }
    from_magnitude(neg && p > 0, q)
}

/// Saturating, truncating fixed-point division; the caller keeps `b`
/// nonzero.
pub fn num_div(a: i64, b: i64) -> (r: i64)
    requires
        b != 0,
    ensures
        r as int == spec_div(a as int, b as int),
{
    let neg: bool = (a < 0) != (b < 0);
    let ua: u128 = abs_u128(a);
    let ub: u128 = abs_u128(b);
    proof {
        lemma_abs_mul(a as int, SCALE as int);
        lemma_mul_inequality(ua as int, 0x8000000000000000, SCALE as int);
    }
    let p: u128 = ua * 1_000_000u128;
    let q: u128 = p / ub;
    proof {
        assert(abs_int(a as int) * (SCALE as int) == abs_int(a as int * (SCALE as int)));
        assert(q as int == abs_int(a as int * (SCALE as int)) / abs_int(b as int));
        if a == 0 {
            assert(a as int * (SCALE as int) == 0);
        }
        if a != 0 {
            assert(a as int * (SCALE as int) != 0);
            assert((a as int * (SCALE as int) < 0) <==> (a < 0));
        }
    }
    from_magnitude(neg && a != 0, q)
}


/// Whether `c` is an ASCII decimal digit.
pub open spec fn is_digit(c: u8) -> bool {
    48 <= c <= 57
}

/// The position of the first non-digit at or after `i`.
pub open spec fn digits_end(s: Seq<u8>, i: int) -> int
    decreases s.len() - i when i <= s.len()
{
    if 0 <= i < s.len() && is_digit(s[i]) {
        digits_end(s, i + 1)
    } else {
        i
    }
}

pub proof fn lemma_digits_end_bounds(s: Seq<u8>, i: int)
    requires
        0 <= i <= s.len(),
    ensures
        i <= digits_end(s, i) <= s.len(),
        forall|k: int| i <= k < digits_end(s, i) ==> is_digit(s[k]),
    decreases s.len() - i,
{
    if i < s.len() && is_digit(s[i]) {
        lemma_digits_end_bounds(s, i + 1);
    }
}

/// The number that the digits of `s` at positions `[i, j)` write in
/// decimal.
pub open spec fn dec_val(s: Seq<u8>, i: int, j: int) -> int
    decreases j - i,
{
    if i < j {
        dec_val(s, i, j - 1) * 10 + (s[j - 1] - 48)
    } else {
        0
    }
}

proof fn lemma_dec_val_nonneg(s: Seq<u8>, i: int, j: int)
    requires
        forall|k: int| i <= k < j ==> is_digit(s[k]),
    ensures
        dec_val(s, i, j) >= 0,
    decreases j - i,
{
    if i < j {
        lemma_dec_val_nonneg(s, i, j - 1);
        assert(dec_val(s, i, j - 1) * 10 >= 0) by (nonlinear_arith)
            requires
                dec_val(s, i, j - 1) >= 0,
        ;
    }
}

/// The value, in millionths, of up to six fractional digits standing at
/// positions `i + k`, `i + k + 1`, ... of `s`, all below `f`.
pub open spec fn frac_val(s: Seq<u8>, i: int, f: int, k: int) -> int
    decreases 6 - k,
{
    if 0 <= k < 6 {
        (if i + k < f {
            (s[i + k] - 48) * pow10_5_minus(k)
        } else {
            0
        }) + frac_val(s, i, f, k + 1)
    } else {
        0
    }
}

/// `10^(5 - k)` for the six fractional digit positions.
pub open spec fn pow10_5_minus(k: int) -> int {
    if k == 0 {
        100000
    } else if k == 1 {
        10000
    } else if k == 2 {
        1000
    } else if k == 3 {
        100
    } else if k == 4 {
        10
    } else {
        1
    }
}

/// The number that a numeric lexeme denotes, in millionths: a run of
/// leading digits, then, after a decimal point that at least one more
/// digit follows, up to six fractional digits; anything beyond is
/// dropped. The result saturates at the representable bounds.
pub open spec fn spec_parse_number(s: Seq<u8>) -> int {
    let e = digits_end(s, 0);
    let frac = if e < s.len() && s[e] == 46 && e + 1 < s.len() && is_digit(s[e + 1]) {
        frac_val(s, e + 1, digits_end(s, e + 1), 0)
    } else {
        0
    };
    clamp_i64(dec_val(s, 0, e) * (SCALE as int) + frac)
}

/// Whether `c` is an ASCII decimal digit.
pub fn byte_is_digit(c: u8) -> (r: bool)
    ensures
        r == is_digit(c),
{
    48 <= c && c <= 57
}

/// `v` capped at `2^63`, the shape the integer-part accumulator keeps.
pub open spec fn cap_at_huge(v: int) -> int {
    if v >= 0x8000_0000_0000_0000 {
        0x8000_0000_0000_0000
    } else {
        v
    }
}

/// Reads the number a numeric lexeme denotes. Total: on text that is not
/// a numeric lexeme it still returns what `spec_parse_number` says.
pub fn parse_number(s: &[u8]) -> (r: i64)
    ensures
        r as int == spec_parse_number(s@),
{
    let len = s.len();
    let mut i: usize = 0;
    let mut acc: u128 = 0;
    proof {
        lemma_digits_end_bounds(s@, 0);
    }
    while i < len && byte_is_digit(s[i])
        invariant
            len == s@.len(),
            0 <= i <= len,
            digits_end(s@, 0) == digits_end(s@, i as int),
            forall|k: int| 0 <= k < i ==> is_digit(s@[k]),
            acc as int == cap_at_huge(dec_val(s@, 0, i as int)),
        decreases len - i,
    {
        let d: u128 = (s[i] - 48) as u128;
        proof {
            lemma_dec_val_nonneg(s@, 0, i as int);
            assert(dec_val(s@, 0, i + 1) == dec_val(s@, 0, i as int) * 10 + (s@[i as int] - 48));
            assert(dec_val(s@, 0, i as int) * 10 >= dec_val(s@, 0, i as int)) by (nonlinear_arith)
                requires
                    dec_val(s@, 0, i as int) >= 0,
            ;
        }
        let c: u128 = acc * 10 + d;
        proof {
            if dec_val(s@, 0, i as int) >= 0x8000_0000_0000_0000 {
                assert(acc as int == 0x8000_0000_0000_0000);
                assert(c as int > 0x8000_0000_0000_0000);
                assert(dec_val(s@, 0, i + 1) >= 0x8000_0000_0000_0000);
            } else {
                assert(c as int == dec_val(s@, 0, i + 1));
            }
        }
        acc = if c > 0x8000_0000_0000_0000u128 {
            0x8000_0000_0000_0000u128
        } else {
            c
        };
        i += 1;
    }
    let e = i;
    proof {
        assert(digits_end(s@, e as int) == e as int);
    }
    // The fractional digits, already scaled to millionths.
    let mut fsum: u64 = 0;
    if e < len && s[e] == 46 && e + 1 < len && byte_is_digit(s[e + 1]) {
        let ghost fend = digits_end(s@, e + 1);
        proof {
            lemma_digits_end_bounds(s@, e + 1);
        }
        let mut pos: usize = e + 1;
        let mut run: bool = true;
        let mut k: usize = 0;
        while k < 6
            invariant
                len == s@.len(),
                e + 1 <= s@.len(),
                fend == digits_end(s@, e + 1),
                e + 1 <= fend <= len,
                forall|q: int| e + 1 <= q < fend ==> is_digit(s@[q]),
                0 <= k <= 6,
                e + 1 <= pos <= len,
                run ==> pos == e + 1 + k && fend == digits_end(s@, pos as int),
                !run ==> fend <= e + 1 + k,
                fsum <= 900000 * k,
                frac_val(s@, e + 1, fend, 0) == fsum + frac_val(s@, e + 1, fend, k as int),
            decreases 6 - k,
        {
            proof {
                assert(frac_val(s@, e + 1, fend, k as int) == (if e + 1 + k < fend {
                    (s@[e + 1 + k] - 48) * pow10_5_minus(k as int)
                } else {
                    0
                }) + frac_val(s@, e + 1, fend, k + 1));
            }
            if run && pos < len && byte_is_digit(s[pos]) {
                proof {
                    assert(fend == digits_end(s@, pos + 1));
                    lemma_digits_end_bounds(s@, pos + 1);
                }
                let d64: u64 = (s[pos] - 48) as u64;
                let w: u64 = if k == 0 {
                    100000
                } else if k == 1 {
                    10000
                } else if k == 2 {
                    1000
                } else if k == 3 {
                    100
                } else if k == 4 {
                    10
                } else {
                    1
                };
                fsum = fsum + d64 * w;
                pos = pos + 1;
            } else {
                proof {
                    if run {
                        assert(digits_end(s@, pos as int) == pos as int);
                    }
                }
                run = false;
            }
            k += 1;
        }
        proof {
            assert(fsum == frac_val(s@, e + 1, fend, 0));
        }
    }
    proof {
        lemma_dec_val_nonneg(s@, 0, e as int);
    }
    if acc >= 0x8000_0000_0000_0000u128 {
        proof {
            lemma_mul_inequality(0x8000_0000_0000_0000, dec_val(s@, 0, e as int), 1_000_000);
        }
        return i64::MAX;
    }
    let total: u128 = acc * 1_000_000u128 + fsum as u128;
    if total > i64::MAX as u128 {
        i64::MAX
    } else {
        total as i64
    }
}


/// The decimal digits of `n`, most significant first.
pub open spec fn dec_digits(n: nat) -> Seq<u8>
    decreases n,
{
    if n < 10 {
        seq![(48 + n) as u8]
    } else {
        dec_digits(n / 10) + seq![(48 + n % 10) as u8]
    }
}

/// `s` with every trailing `0` digit removed.
pub open spec fn strip_zeros(s: Seq<u8>) -> Seq<u8>
    decreases s.len(),
{
    if s.len() > 0 && s.last() == 48 {
        strip_zeros(s.drop_last())
    } else {
        s
    }
}

/// The six fractional digits of a number of `fp` millionths, for `0 <=
/// fp < 1_000_000`.
pub open spec fn frac6(fp: int) -> Seq<u8> {
    seq![
        (48 + (fp / 100000) % 10) as u8,
        (48 + (fp / 10000) % 10) as u8,
        (48 + (fp / 1000) % 10) as u8,
        (48 + (fp / 100) % 10) as u8,
        (48 + (fp / 10) % 10) as u8,
        (48 + fp % 10) as u8,
    ]
}

/// The text of a stored number: an optional minus sign, the integer part
/// in decimal, and, where the fractional part is not zero, a decimal
/// point and the fractional digits with their trailing zeros removed.
pub open spec fn spec_render_number(m: int) -> Seq<u8> {
    let a = abs_int(m);
    let sign: Seq<u8> = if m < 0 {
        seq![45u8]
    } else {
        Seq::empty()
    };
    let frac: Seq<u8> = if a % (SCALE as int) == 0 {
        Seq::empty()
    } else {
        seq![46u8] + strip_zeros(frac6(a % (SCALE as int)))
    };
    sign + dec_digits((a / (SCALE as int)) as nat) + frac
}

/// Appends the decimal digits of `n` to `out`.
fn push_dec(out: &mut Vec<u8>, n: u64)
    ensures
        final(out)@ == old(out)@ + dec_digits(n as nat),
    decreases n,
{
    if n >= 10 {
        push_dec(out, n / 10);
        out.push((48 + (n % 10)) as u8);
        proof {
            assert(out@ =~= old(out)@ + dec_digits(n as nat));
        }
    } else {
        out.push((48 + n) as u8);
        proof {
            assert(out@ =~= old(out)@ + dec_digits(n as nat));
        }
    }
}

/// Whether the last byte of `f` is a `0` digit.
fn has_trailing_zero(f: &Vec<u8>) -> (r: bool)
    ensures
        r == (f@.len() > 0 && f@.last() == 48),
{
    f.len() > 0 && f[f.len() - 1] == 48
}

/// Removes every trailing `0` digit of `f`.
fn strip_tail(f: &mut Vec<u8>)
    ensures
        final(f)@ == strip_zeros(old(f)@),
    decreases old(f)@.len(),
{
    if has_trailing_zero(f) {
        f.pop();
        proof {
            assert(f@ =~= old(f)@.drop_last());
        }
        strip_tail(f);
    }
}

/// Renders a stored number as text.
pub fn render_number(m: i64) -> (r: Vec<u8>)
    ensures
        r@ == spec_render_number(m as int),
{
    let mut out: Vec<u8> = Vec::new();
    if m < 0 {
        out.push(45);
    }
    let a: u64 = if m >= 0 {
        m as u64
    } else {
        ((-(m as i128)) as u128) as u64
    };
    proof {
        assert(a as int == abs_int(m as int));
    }
    let ip: u64 = a / 1_000_000;
    let fp: u64 = a % 1_000_000;
    push_dec(&mut out, ip);
    if fp == 0 {
        proof {
            assert(out@ =~= spec_render_number(m as int));
        }
        return out;
    }
    out.push(46);
    let mut f: Vec<u8> = Vec::new();
    f.push((48 + (fp / 100000) % 10) as u8);
    f.push((48 + (fp / 10000) % 10) as u8);
    f.push((48 + (fp / 1000) % 10) as u8);
    f.push((48 + (fp / 100) % 10) as u8);
    f.push((48 + (fp / 10) % 10) as u8);
    f.push((48 + fp % 10) as u8);
    proof {
        assert(f@ =~= frac6(fp as int));
    }
    strip_tail(&mut f);
    out.append(&mut f);
    proof {
        assert(out@ =~= spec_render_number(m as int));
    }
    out
}
} // verus!
