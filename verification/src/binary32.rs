//! IEEE 754 binary32 arithmetic on bit patterns.
//!
//! A single-precision number is carried as the `u32` that encodes it. Every
//! finite number is an integral multiple of the smallest subnormal, so its
//! meaning is an integer counted in units of two to the power -149, and each
//! operation is stated as the exact result of that integer arithmetic, rounded
//! to the nearest encodable number with ties to even.
use vstd::arithmetic::div_mod::*;
use vstd::arithmetic::mul::*;
use vstd::arithmetic::power2::*;
use vstd::bits::*;
use vstd::prelude::*;

verus! {

/// Positive infinity.
pub const INFINITY: u32 = 0x7F80_0000;

/// The NaN that every invalid operation returns.
pub const QUIET_NAN: u32 = 0x7FC0_0000;

/// The sign bit.
pub const SIGN: u32 = 0x8000_0000;

/// Distance between the encodings of two neighbouring powers of two.
pub const BINADE: u32 = 0x80_0000;

/// Whether the sign bit is set.
pub open spec fn is_negative(b: u32) -> bool {
    b >= SIGN
}

/// The encoding without its sign.
pub open spec fn payload(b: u32) -> nat {
    (b % SIGN) as nat
}

/// Whether `b` encodes a NaN.
pub open spec fn nan(b: u32) -> bool {
    payload(b) > INFINITY
}

/// Whether `b` encodes one of the two infinities.
pub open spec fn infinite(b: u32) -> bool {
    payload(b) == INFINITY
}

/// Whether `b` encodes a number.
pub open spec fn finite(b: u32) -> bool {
    payload(b) < INFINITY
}

/// Binary exponent of the last significand bit, in units of the smallest subnormal.
pub open spec fn quantum_of(p: nat) -> nat {
    if p < BINADE {
        0
    } else {
        (p / (BINADE as nat) - 1) as nat
    }
}

/// The integer significand of the encoding `p`.
pub open spec fn significand_of(p: nat) -> nat {
    (p - quantum_of(p) * BINADE) as nat
}

/// Absolute value of the encoding `p`, in units of the smallest subnormal.
pub open spec fn magnitude_of(p: nat) -> nat {
    significand_of(p) * pow2(quantum_of(p))
}

/// Value of a finite `b`, in units of the smallest subnormal.
pub open spec fn scaled(b: u32) -> int {
    if is_negative(b) {
        -(magnitude_of(payload(b)) as int)
    } else {
        magnitude_of(payload(b)) as int
    }
}

/// The fraction `n / d` rounded to an integer, ties to even.
pub open spec fn nearest_even(n: nat, d: nat) -> nat {
    let whole = n / d;
    let rest = n % d;
    if 2 * rest < d || (2 * rest == d && whole % 2 == 0) {
        whole
    } else {
        whole + 1
    }
}

/// Binary exponent of the spacing of encodable numbers around `v`.
pub open spec fn quantum(v: nat) -> nat
    decreases v,
{
    if v < 0x100_0000 {
        0
    } else {
        1 + quantum(v / 2)
    }
}

/// Encoding of the number nearest to `n / d` units, ties to even; infinity past the
/// largest number.
pub open spec fn rounded(n: nat, d: nat) -> nat {
    let q = quantum(n / d);
    let p = q * (BINADE as nat) + nearest_even(n, d * pow2(q));
    if p < INFINITY {
        p
    } else {
        INFINITY as nat
    }
}

/// The encoding with payload `p` and the given sign.
pub open spec fn signed(negative: bool, p: nat) -> u32 {
    if negative {
        (p + SIGN) as u32
    } else {
        p as u32
    }
}

/// The sum of two numbers.
#[verifier::opaque]
pub open spec fn sum_of(a: u32, b: u32) -> u32 {
    let exact = scaled(a) + scaled(b);
    if nan(a) || nan(b) || (infinite(a) && infinite(b) && a != b) {
        QUIET_NAN
    } else if infinite(a) {
        a
    } else if infinite(b) {
        b
    } else if exact == 0 {
        signed(is_negative(a) && is_negative(b), 0)
    } else if exact < 0 {
        signed(true, rounded((-exact) as nat, 1))
    } else {
        signed(false, rounded(exact as nat, 1))
    }
}

/// The number with the opposite sign.
pub open spec fn negation_of(a: u32) -> u32 {
    signed(!is_negative(a), payload(a))
}

/// The difference of two numbers.
pub open spec fn difference_of(a: u32, b: u32) -> u32 {
    sum_of(a, negation_of(b))
}

/// The product of two numbers.
#[verifier::opaque]
pub open spec fn product_of(a: u32, b: u32) -> u32 {
    let negative = is_negative(a) != is_negative(b);
    if nan(a) || nan(b) || (infinite(a) && payload(b) == 0) || (payload(a) == 0 && infinite(b)) {
        QUIET_NAN
    } else if infinite(a) || infinite(b) {
        signed(negative, INFINITY as nat)
    } else {
        signed(
            negative,
            rounded(magnitude_of(payload(a)) * magnitude_of(payload(b)), pow2(149)),
        )
    }
}

/// The quotient of two numbers.
#[verifier::opaque]
pub open spec fn quotient_of(a: u32, b: u32) -> u32 {
    let negative = is_negative(a) != is_negative(b);
    if nan(a) || nan(b) || (infinite(a) && infinite(b)) || (payload(a) == 0 && payload(b) == 0) {
        QUIET_NAN
    } else if infinite(a) || payload(b) == 0 {
        signed(negative, INFINITY as nat)
    } else if infinite(b) {
        signed(negative, 0)
    } else {
        signed(
            negative,
            rounded(magnitude_of(payload(a)) * pow2(149), magnitude_of(payload(b))),
        )
    }
}

/// Position of a number in the order of the numbers; both zeros are at 0.
pub open spec fn ordinal(b: u32) -> int {
    if is_negative(b) {
        -(payload(b) as int)
    } else {
        payload(b) as int
    }
}

/// Whether `a` is less than `b`; false when either is a NaN.
pub open spec fn less(a: u32, b: u32) -> bool {
    !nan(a) && !nan(b) && ordinal(a) < ordinal(b)
}

/// Whether `a` is at most `b`; false when either is a NaN.
pub open spec fn at_most(a: u32, b: u32) -> bool {
    !nan(a) && !nan(b) && ordinal(a) <= ordinal(b)
}

/// The number without its sign.
pub open spec fn absolute_of(a: u32) -> u32 {
    payload(a) as u32
}

/// Whether `b` encodes a number.
pub fn is_finite(b: u32) -> (r: bool)
    ensures
        r == finite(b),
{
    b % SIGN < INFINITY
}

/// Whether `b` encodes a NaN.
pub fn is_nan(b: u32) -> (r: bool)
    ensures
        r == nan(b),
{
    b % SIGN > INFINITY
}

/// The number without its sign.
pub fn abs(b: u32) -> (r: u32)
    ensures
        r == absolute_of(b),
{
    b % SIGN
}

/// The number with the opposite sign.
pub fn neg(b: u32) -> (r: u32)
    ensures
        r == negation_of(b),
{
    if b >= SIGN {
        b - SIGN
    } else {
        b + SIGN
    }
}

/// Whether `a` is less than `b`.
pub fn lt(a: u32, b: u32) -> (r: bool)
    ensures
        r == less(a, b),
{
    if is_nan(a) || is_nan(b) {
        false
    } else if a >= SIGN {
        if b >= SIGN {
            b < a
        } else {
            a % SIGN != 0 || b != 0
        }
    } else {
        b < SIGN && a < b
    }
}

/// Whether `a` is at most `b`.
pub fn le(a: u32, b: u32) -> (r: bool)
    ensures
        r == at_most(a, b),
{
    !is_nan(a) && !is_nan(b) && !lt(b, a)
}

/// Scaling numerator and denominator by the same factor changes nothing.
proof fn lemma_nearest_even_scales(n: nat, d: nat, k: nat)
    requires
        d > 0,
        k > 0,
    ensures
        nearest_even(n * k, d * k) == nearest_even(n, d),
{
    let whole = n / d;
    let rest = n % d;
    lemma_fundamental_div_mod(n as int, d as int);
    assert(n * k == whole * (d * k) + rest * k && 0 <= rest * k < d * k) by (nonlinear_arith)
        requires
            n == d * whole + rest,
            0 <= rest < d,
            k > 0,
    ;
    lemma_fundamental_div_mod_converse((n * k) as int, (d * k) as int, whole as int, (rest * k) as int);
    assert((2 * rest < d <==> 2 * (rest * k) < d * k) && (2 * rest == d <==> 2 * (rest * k) == d * k))
        by (nonlinear_arith)
        requires
            k > 0,
    ;
}

/// Equal fractions round to the same integer.
proof fn lemma_nearest_even_ratio(n1: nat, d1: nat, n2: nat, d2: nat)
    requires
        d1 > 0,
        d2 > 0,
        n1 * d2 == n2 * d1,
    ensures
        nearest_even(n1, d1) == nearest_even(n2, d2),
{
    lemma_nearest_even_scales(n1, d1, d2);
    lemma_nearest_even_scales(n2, d2, d1);
    lemma_mul_is_commutative(d1 as int, d2 as int);
}

/// A fraction with an integral part `k * h + rest` and a fractional part `f / d`, taken
/// at a granularity of `h = 2 * half`, rounds by comparing `rest` with `half`.
proof fn lemma_nearest_even_split(n: nat, d: nat, h: nat, half: nat, k: nat, rest: nat, f: nat)
    requires
        d > 0,
        half > 0,
        h == 2 * half,
        rest < h,
        f < d,
        n == (k * h + rest) * d + f,
    ensures
        nearest_even(n, d * h) == if rest < half || (rest == half && f == 0 && k % 2 == 0) {
            k
        } else {
            k + 1
        },
{
    let remainder = rest * d + f;
    assert(n == k * (d * h) + remainder && 0 <= remainder < d * h) by (nonlinear_arith)
        requires
            n == (k * h + rest) * d + f,
            remainder == rest * d + f,
            rest < h,
            f < d,
    ;
    assert(d * h > 0) by (nonlinear_arith)
        requires
            d > 0,
            h > 0,
    ;
    lemma_fundamental_div_mod_converse(n as int, (d * h) as int, k as int, remainder as int);
    assert(d * h == 2 * (half * d)) by (nonlinear_arith)
        requires
            h == 2 * half,
    ;
    if rest < half {
        assert(rest * d + f < half * d) by (nonlinear_arith)
            requires
                rest < half,
                f < d,
        ;
    } else if rest > half {
        assert(rest * d + f > half * d) by (nonlinear_arith)
            requires
                rest > half,
                d > 0,
        ;
    }
}

/// The spacing around `v` is settled by the powers of two that enclose it.
pub proof fn lemma_quantum(v: nat, q: nat)
    requires
        v < pow2(q + 24),
        q > 0 ==> pow2((q + 23) as nat) <= v,
    ensures
        quantum(v) == q,
    decreases q,
{
    assert(pow2(24) == 0x100_0000) by {
        lemma2_to64();
    }
    if q > 0 {
        lemma_pow2_unfold(q + 24);
        lemma_pow2_unfold(q + 23);
        if q > 1 {
            lemma_pow2_strictly_increases(24, q + 23);
        }
        lemma_quantum(v / 2, (q - 1) as nat);
    }
}

/// Number of significant bits of `m`.
fn bit_length(m: u64) -> (r: u32)
    requires
        0 < m < 0x8000_0000_0000_0000,
    ensures
        1 <= r <= 63,
        pow2((r - 1) as nat) <= m < pow2(r as nat),
{
    let zeros = m.leading_zeros();
    proof {
        vstd::std_specs::bits::axiom_u64_leading_zeros(m);
        assert(0u64 & 1u64 == 0u64) by (bit_vector);
        if zeros == 0 {
            assert(m < 0x8000_0000_0000_0000u64 ==> (m >> 63u64) & 1u64 == 0u64) by (bit_vector);
        }
        let high = (63 - zeros) as u64;
        lemma_u64_shr_is_div(m, high);
        lemma_u64_shr_is_div(m, (64 - zeros) as u64);
        lemma_pow2_pos(high as nat);
        lemma_pow2_pos((64 - zeros) as nat);
        lemma_fundamental_div_mod(m as int, pow2(high as nat) as int);
        lemma_fundamental_div_mod(m as int, pow2((64 - zeros) as nat) as int);
        lemma_mod_bound(m as int, pow2(high as nat) as int);
        lemma_mod_bound(m as int, pow2((64 - zeros) as nat) as int);
        assert(pow2(high as nat) <= m) by (nonlinear_arith)
            requires
                m == pow2(high as nat) * (m as nat / pow2(high as nat)) + m as nat % pow2(high as nat),
                m as nat / pow2(high as nat) > 0,
        ;
    }
    64 - zeros
}

/// Two to the power of the positive part of `t`.
spec fn up(t: int) -> nat {
    if t > 0 {
        pow2(t as nat)
    } else {
        1
    }
}

/// The quotient `up(t) / up(-t)` is two to the power of `t`.
proof fn lemma_up_shift(t: int, s: nat, q: nat)
    requires
        t + s == q,
    ensures
        up(t) * pow2(s) == up(-t) * pow2(q),
        up(t) > 0,
        up(-t) > 0,
{
    if t > 0 {
        lemma_pow2_adds(t as nat, s);
        lemma_pow2_pos(t as nat);
    } else if t < 0 {
        lemma_pow2_adds((-t) as nat, q);
        lemma_pow2_pos((-t) as nat);
    }
}

/// Which encoding spacing applies to a number between `m` and `m + 1` times two to the `t`.
proof fn lemma_scaled_quantum(m: nat, t: int, bits: nat, q: nat, n: nat, d: nat)
    requires
        d > 0,
        pow2((bits - 1) as nat) <= m < pow2(bits),
        bits > 0,
        m * (up(t) * d) <= n * up(-t) < (m + 1) * (up(t) * d),
        q == if bits + t > 24 {
            bits + t - 24
        } else {
            0
        },
    ensures
        quantum(n / d) == q,
{
    let a = up(t);
    let b = up(-t);
    // n / d lies below two to the power of q + 24
    assert(n < pow2(q + 24) * d) by {
        let slack = (q + 24 - t - bits) as nat;
        lemma_up_shift(t, (bits + slack) as nat, q + 24);
        lemma_pow2_adds(bits, slack);
        lemma_pow2_pos(slack);
        let p = pow2(bits);
        let w = pow2(slack);
        let top = pow2(q + 24);
        assert(n < top * d) by (nonlinear_arith)
            requires
                n * b < (m + 1) * (a * d),
                m + 1 <= p,
                a * (p * w) == b * top,
                w >= 1,
                b > 0,
                a > 0,
                d > 0,
        {
            assert((m + 1) * (a * d) <= p * (a * d));
            assert(p * (a * d) <= (p * w) * (a * d));
            assert((p * w) * (a * d) == (b * top) * d);
            assert(n * b < (top * d) * b);
        }
    }
    assert(n / d < pow2(q + 24)) by {
        let top = pow2(q + 24);
        lemma_fundamental_div_mod(n as int, d as int);
        lemma_mod_bound(n as int, d as int);
        let v = n / d;
        let r = n % d;
        assert(v < top) by (nonlinear_arith)
            requires
                n < top * d,
                n == d * v + r,
                r >= 0,
        ;
    }
    if q > 0 {
        assert(pow2((q + 23) as nat) * d <= n) by {
            lemma_up_shift(t, (bits - 1) as nat, (q + 23) as nat);
            let p = pow2((bits - 1) as nat);
            let low = pow2((q + 23) as nat);
            assert(low * d <= n) by (nonlinear_arith)
                requires
                    m * (a * d) <= n * b,
                    p <= m,
                    a * p == b * low,
                    b > 0,
                    a > 0,
                    d > 0,
            {
                assert(p * (a * d) <= m * (a * d));
                assert(p * (a * d) == (b * low) * d);
                assert((low * d) * b <= n * b);
            }
        }
        let low = pow2((q + 23) as nat);
        lemma_fundamental_div_mod(n as int, d as int);
        lemma_mod_bound(n as int, d as int);
        let v = n / d;
        let r = n % d;
        assert(low <= v) by (nonlinear_arith)
            requires
                low * d <= n,
                n == d * v + r,
                r < d,
        ;
    }
    lemma_quantum(n / d, q);
}

/// The number counted in quanta of two to the `q`, before and after moving the exponent `t`
/// out of it.
proof fn lemma_same_fraction(n: nat, d: nat, t: int, s: nat, q: nat)
    requires
        d > 0,
        t + s == q,
    ensures
        nearest_even(n, d * pow2(q)) == nearest_even(n * up(-t), (up(t) * d) * pow2(s)),
{
    let a = up(t);
    let b = up(-t);
    lemma_up_shift(t, s, q);
    lemma_pow2_pos(s);
    lemma_pow2_pos(q);
    let w = pow2(s);
    let z = pow2(q);
    assert(n * ((a * d) * w) == (n * b) * (d * z) && d * z > 0 && (a * d) * w > 0) by (nonlinear_arith)
        requires
            a * w == b * z,
            a > 0,
            d > 0,
            w > 0,
            z > 0,
    {
        assert((a * d) * w == (a * w) * d);
        assert((b * z) * d == b * (d * z));
        assert(n * (b * (d * z)) == (n * b) * (d * z));
    }
    lemma_nearest_even_ratio(n, d * z, n * b, (a * d) * w);
}

/// Encodes a magnitude of `n / d` units, known to lie in `[m, m + 1)` times two to the `t`,
/// with `inexact` telling whether it is above the lower end.
fn round_magnitude(m: u64, t: i32, inexact: bool, Ghost(n): Ghost<nat>, Ghost(d): Ghost<nat>) -> (r:
    u32)
    requires
        d > 0,
        m < 0x8000_0000_0000_0000,
        -400 <= t <= 400,
        m * (up(t as int) * d) <= n * up(-(t as int)) < (m + 1) * (up(t as int) * d),
        inexact <==> m * (up(t as int) * d) != n * up(-(t as int)),
        inexact ==> m >= 0x200_0000,
    ensures
        r as nat == rounded(n, d),
        r <= INFINITY,
{
    let ghost a = up(t as int);
    let ghost b = up(-(t as int));
    let ghost nn = (n * b) as nat;
    let ghost dd = (a * d) as nat;
    proof {
        lemma_up_shift(t as int, if t < 0 { (-t) as nat } else { 0 }, if t < 0 { 0 } else { t as nat });
        assert(dd > 0) by (nonlinear_arith)
            requires
                dd == a * d,
                d > 0,
                a > 0,
        ;
    }
    if m == 0 {
        proof {
            assert(n == 0) by (nonlinear_arith)
                requires
                    0nat * (a * d) == n * b,
                    b > 0,
            ;
            lemma_div_of0(d as int);
            assert(quantum(0) == 0);
            lemma2_to64();
            assert(d * 1 == d);
            lemma_small_mod(0, d);
        }
        return 0;
    }
    let bits = bit_length(m);
    let q: u32 = if bits as i32 + t > 24 {
        (bits as i32 + t - 24) as u32
    } else {
        0
    };
    proof {
        lemma_scaled_quantum(m as nat, t as int, bits as nat, q as nat, n, d);
        lemma_pow2_pos(q as nat);
        assert(pow2(24) == 0x100_0000) by {
            lemma2_to64();
        }
        if inexact && bits < 26 {
            assert(pow2(25) == 0x200_0000) by {
                lemma2_to64();
            }
            if bits < 25 {
                lemma_pow2_strictly_increases(bits as nat, 25);
            }
        }
    }
    let shift: i32 = q as i32 - t;
    let significand: u32 = if shift >= 64 {
        proof {
            let s = shift as nat;
            let f = (nn - m * dd) as nat;
            lemma_pow2_unfold(s);
            lemma_pow2_pos((s - 1) as nat);
            assert(pow2(63) == 0x8000_0000_0000_0000) by {
                lemma2_to64_rest();
            }
            if s > 64 {
                lemma_pow2_strictly_increases(63, (s - 1) as nat);
            }
            assert(0 * pow2(s) == 0) by (nonlinear_arith);
            assert((m + 1) * dd == m * dd + dd) by (nonlinear_arith);
            lemma_nearest_even_split(nn, dd, pow2(s), pow2((s - 1) as nat), 0, m as nat, f);
            lemma_same_fraction(n, d, t as int, s, q as nat);
        }
        0
    } else if shift >= 1 {
        let h: u64 = 1u64 << (shift as u64);
        let half: u64 = 1u64 << ((shift - 1) as u64);
        proof {
            let s = shift as nat;
            lemma_u64_pow2_no_overflow(s);
            lemma_u64_pow2_no_overflow((s - 1) as nat);
            lemma_u64_shl_is_mul(1u64, shift as u64);
            lemma_u64_shl_is_mul(1u64, (shift - 1) as u64);
            lemma_pow2_unfold(s);
        }
        let whole: u64 = m / h;
        let rest: u64 = m % h;
        proof {
            let s = shift as nat;
            let f = (nn - m * dd) as nat;
            lemma_fundamental_div_mod(m as int, h as int);
            lemma_mul_is_commutative(whole as int, h as int);
            assert((m + 1) * dd == m * dd + dd) by (nonlinear_arith);
            assert(m == whole * h + rest);
            lemma_nearest_even_split(nn, dd, h as nat, half as nat, whole as nat, rest as nat, f);
            lemma_same_fraction(n, d, t as int, s, q as nat);
            // the quotient has at most 24 bits
            if bits > shift {
                lemma_pow2_adds((bits - shift) as nat, s);
                let low = pow2((bits - shift) as nat);
                assert(whole < low) by (nonlinear_arith)
                    requires
                        whole * h + rest < low * h,
                        rest >= 0,
                        h > 0,
                ;
                if bits - shift < 24 {
                    lemma_pow2_strictly_increases((bits - shift) as nat, 24);
                }
            } else {
                if bits < shift {
                    lemma_pow2_strictly_increases(bits as nat, s);
                }
                lemma_basic_div(m as int, h as int);
            }
        }
        if rest < half || (rest == half && !inexact && whole % 2 == 0) {
            whole as u32
        } else {
            (whole + 1) as u32
        }
    } else {
        let e: u64 = (-shift) as u64;
        proof {
            let s = e as nat;
            assert(e < 24);
            lemma_pow2_adds(bits as nat, s);
            if bits + s < 24 {
                lemma_pow2_strictly_increases((bits + s) as nat, 24);
            }
            let w = pow2(s);
            let p = pow2(bits as nat);
            lemma_pow2_pos(s);
            assert(m * w < p * w) by (nonlinear_arith)
                requires
                    m < p,
                    w > 0,
            ;
            lemma_u64_shl_is_mul(m, e);
            // the number is exactly m << e quanta
            lemma_pow2_adds(q as nat, s);
            assert(t == q + s);
            assert(a == pow2(t as nat)) by {
                lemma2_to64();
            }
            let z = pow2(q as nat);
            assert(n == (m * w) * (d * z) && d * z > 0) by (nonlinear_arith)
                requires
                    m * (a * d) == n * b,
                    b == 1,
                    a == z * w,
                    d > 0,
                    z > 0,
            ;
            lemma_div_by_multiple((m * w) as int, (d * z) as int);
            lemma_mod_multiples_basic((m * w) as int, (d * z) as int);
        }
        (m << e) as u32
    };
    let p: u32 = q * BINADE + significand;
    if p < INFINITY {
        p
    } else {
        INFINITY
    }
}

/// Significand and quantum exponent of the encoding `p`.
fn split(p: u32) -> (r: (u32, u32))
    requires
        p < INFINITY,
    ensures
        r.0 as nat == significand_of(p as nat),
        r.1 as nat == quantum_of(p as nat),
        magnitude_of(p as nat) == r.0 as nat * pow2(r.1 as nat),
        r.0 < 0x100_0000,
        r.1 <= 253,
        r.1 > 0 ==> r.0 >= BINADE,
        r.0 == 0 <==> p == 0,
{
    let q: u32 = if p < BINADE {
        0
    } else {
        p / BINADE - 1
    };
    (p - q * BINADE, q)
}

/// The encoding with payload `p` and the given sign.
fn with_sign(negative: bool, p: u32) -> (r: u32)
    requires
        p < SIGN,
    ensures
        r == signed(negative, p as nat),
{
    if negative {
        p + SIGN
    } else {
        p
    }
}

/// Encodes the exact multiple `m` of two to the `t`.
fn round_exact(m: u64, t: u32) -> (r: u32)
    requires
        m < 0x8000_0000_0000_0000,
        t <= 400,
    ensures
        r as nat == rounded(m as nat * pow2(t as nat), 1),
        r <= INFINITY,
{
    proof {
        assert(up(t as int) == pow2(t as nat)) by {
            lemma2_to64();
        }
        lemma_pow2_pos(t as nat);
        let w = pow2(t as nat);
        assert((m + 1) * w == m * w + w) by (nonlinear_arith);
        assert(w * 1 == w && (m * w) * 1 == m * w) by (nonlinear_arith);
    }
    round_magnitude(m, t as i32, false, Ghost(m as nat * pow2(t as nat)), Ghost(1))
}

/// The product of two numbers.
pub fn multiply(a: u32, b: u32) -> (r: u32)
    ensures
        r == product_of(a, b),
{
    proof {
        reveal(product_of);
    }
    let negative = (a >= SIGN) != (b >= SIGN);
    let pa: u32 = a % SIGN;
    let pb: u32 = b % SIGN;
    if pa > INFINITY || pb > INFINITY || (pa == INFINITY && pb == 0) || (pa == 0 && pb == INFINITY) {
        return QUIET_NAN;
    }
    if pa == INFINITY || pb == INFINITY {
        return with_sign(negative, INFINITY);
    }
    let (ma, qa) = split(pa);
    let (mb, qb) = split(pb);
    assert(ma * mb < 0x1_0000_0000_0000) by (nonlinear_arith)
        requires
            ma < 0x100_0000,
            mb < 0x100_0000,
    ;
    let m: u64 = ma as u64 * mb as u64;
    let t: i32 = qa as i32 + qb as i32 - 149;
    let ghost n = magnitude_of(pa as nat) * magnitude_of(pb as nat);
    let ghost d = pow2(149);
    proof {
        let up_t = up(t as int);
        let down_t = up(-(t as int));
        let wa = pow2(qa as nat);
        let wb = pow2(qb as nat);
        lemma_up_shift(t as int, 149, (qa + qb) as nat);
        lemma_pow2_adds(qa as nat, qb as nat);
        lemma_pow2_pos(149);
        assert(m * (up_t * d) == n * down_t && up_t * d > 0) by (nonlinear_arith)
            requires
                m == ma * mb,
                n == (ma * wa) * (mb * wb),
                up_t * d == down_t * (wa * wb),
                up_t > 0,
                d > 0,
        {
            assert((ma * wa) * (mb * wb) == (ma * mb) * (wa * wb));
            assert((ma * mb) * (wa * wb) * down_t == (ma * mb) * (down_t * (wa * wb)));
        }
        let x = up_t * d;
        assert((m + 1) * x == m * x + x) by (nonlinear_arith);
    }
    with_sign(negative, round_magnitude(m, t, false, Ghost(n), Ghost(d)))
}

/// The quotient of two numbers.
pub fn divide(a: u32, b: u32) -> (r: u32)
    ensures
        r == quotient_of(a, b),
{
    proof {
        reveal(quotient_of);
    }
    let negative = (a >= SIGN) != (b >= SIGN);
    let pa: u32 = a % SIGN;
    let pb: u32 = b % SIGN;
    if pa > INFINITY || pb > INFINITY || (pa == INFINITY && pb == INFINITY) || (pa == 0 && pb == 0) {
        return QUIET_NAN;
    }
    if pa == INFINITY || pb == 0 {
        return with_sign(negative, INFINITY);
    }
    if pb == INFINITY {
        return with_sign(negative, 0);
    }
    let (ma, qa) = split(pa);
    let (mb, qb) = split(pb);
    let ghost n = magnitude_of(pa as nat) * pow2(149);
    let ghost d = magnitude_of(pb as nat);
    proof {
        lemma_pow2_pos(qb as nat);
        let wb = pow2(qb as nat);
        assert(mb * wb > 0) by (nonlinear_arith)
            requires
                mb > 0,
                wb > 0,
        ;
    }
    if pa == 0 {
        proof {
            assert(0 * pow2(qa as nat) == 0) by (nonlinear_arith);
            assert(0 * pow2(149) == 0) by (nonlinear_arith);
            assert((0 + 1) * (1 * d) == d) by (nonlinear_arith);
            assert(0 * (1 * d) == 0) by (nonlinear_arith);
        }
        return with_sign(negative, round_magnitude(0, 0, false, Ghost(n), Ghost(d)));
    }
    let mut top: u64 = ma as u64;
    let mut lead: u32 = 0;
    proof {
        lemma2_to64();
    }
    while top < 0x80_0000
        invariant
            0 < top < 0x100_0000,
            0 < ma < 0x100_0000,
            top == ma * pow2(lead as nat),
            lead <= 23,
            lead == 23 ==> top >= 0x80_0000,
        decreases 0x100_0000 - top,
    {
        proof {
            lemma_pow2_unfold((lead + 1) as nat);
            let w = pow2(lead as nat);
            assert(ma * (2 * w) == 2 * (ma * w)) by (nonlinear_arith);
            if lead == 22 {
                assert(pow2(23) == 0x80_0000) by {
                    lemma2_to64();
                }
                assert(ma * 0x80_0000 >= 0x80_0000);
            }
        }
        top = top * 2;
        lead = lead + 1;
    }
    assert(pow2(39) == 0x80_0000_0000) by {
        lemma2_to64_rest();
        lemma2_to64();
    }
    let dividend: u64 = top * 0x80_0000_0000;
    let m: u64 = dividend / (mb as u64);
    let inexact = dividend % (mb as u64) != 0;
    let t: i32 = qa as i32 + 110 - qb as i32 - lead as i32;
    proof {
        let rest = dividend % (mb as u64);
        lemma_fundamental_div_mod(dividend as int, mb as int);
        assert(m >= 0x200_0000) by (nonlinear_arith)
            requires
                dividend == mb * m + rest,
                rest < mb,
                mb < 0x100_0000,
                dividend >= 0x80_0000 * 0x80_0000_0000,
        ;
        assert(m <= dividend) by (nonlinear_arith)
            requires
                dividend == mb * m + rest,
                mb > 0,
                rest >= 0,
        ;
        let up_t = up(t as int);
        let down_t = up(-(t as int));
        let wa = pow2(qa as nat);
        let wb = pow2(qb as nat);
        let wl = pow2(lead as nat);
        let w39 = pow2(39);
        let w149 = pow2(149);
        lemma_up_shift(t as int, (qb + lead + 39) as nat, (qa + 149) as nat);
        lemma_pow2_adds(qa as nat, 149);
        lemma_pow2_adds((qb + lead) as nat, 39);
        lemma_pow2_adds(qb as nat, lead as nat);
        let x = up_t * wb;
        assert(x > 0) by (nonlinear_arith)
            requires
                up_t > 0,
                wb > 0,
                x == up_t * wb,
        ;
        assert(n * down_t == dividend * x && up_t * d == mb * x) by (nonlinear_arith)
            requires
                n == (ma * wa) * w149,
                d == mb * wb,
                x == up_t * wb,
                dividend == (ma * wl) * w39,
                up_t * ((wb * wl) * w39) == down_t * (wa * w149),
        {
            assert((ma * wa) * w149 * down_t == ma * (down_t * (wa * w149)));
            assert(ma * (up_t * ((wb * wl) * w39)) == ((ma * wl) * w39) * (up_t * wb));
        }
        assert(m * (mb * x) <= dividend * x < (m + 1) * (mb * x) && (rest == 0 <==> m * (mb * x)
            == dividend * x)) by (nonlinear_arith)
            requires
                dividend == mb * m + rest,
                0 <= rest < mb,
                x > 0,
        {
            assert(dividend * x == m * (mb * x) + rest * x);
            assert((m + 1) * (mb * x) == m * (mb * x) + mb * x);
            assert(rest * x < mb * x);
            assert(rest == 0 <==> rest * x == 0);
        }
    }
    with_sign(negative, round_magnitude(m, t, inexact, Ghost(n), Ghost(d)))
}

/// The sum of two finite numbers with payloads `pa` and `pb`, the first with the wider quantum.
fn sum_finite(na: bool, pa: u32, nb: bool, pb: u32) -> (r: u32)
    requires
        pa < INFINITY,
        pb < INFINITY,
        quantum_of(pa as nat) >= quantum_of(pb as nat),
    ensures
        r == sum_of(signed(na, pa as nat), signed(nb, pb as nat)),
{
    proof {
        reveal(sum_of);
    }
    let (ma, qa) = split(pa);
    let (mb, qb) = split(pb);
    let gap: u32 = qa - qb;
    let ghost a = signed(na, pa as nat);
    let ghost b = signed(nb, pb as nat);
    let ghost mag_a = magnitude_of(pa as nat);
    let ghost mag_b = magnitude_of(pb as nat);
    let ghost wb = pow2(qb as nat);
    proof {
        lemma_pow2_pos(qb as nat);
        lemma_pow2_pos(qa as nat);
        assert(payload(a) == pa && payload(b) == pb);
        assert(is_negative(a) == na && is_negative(b) == nb);
    }
    if gap <= 39 {
        proof {
            lemma_u64_pow2_no_overflow(gap as nat);
            assert(pow2(39) == 0x80_0000_0000) by {
                lemma2_to64_rest();
                lemma2_to64();
            }
            if gap < 39 {
                lemma_pow2_strictly_increases(gap as nat, 39);
            }
            let wg = pow2(gap as nat);
            assert(ma * wg <= 0xFF_FFFF * 0x80_0000_0000) by (nonlinear_arith)
                requires
                    ma <= 0xFF_FFFF,
                    wg <= 0x80_0000_0000,
            ;
            lemma_u64_shl_is_mul(ma as u64, gap as u64);
            lemma_pow2_adds(qb as nat, gap as nat);
            assert(mag_a == (ma * wg) * wb) by (nonlinear_arith)
                requires
                    mag_a == ma * (wb * wg),
            ;
        }
        let x: u64 = (ma as u64) << (gap as u64);
        let y: u64 = mb as u64;
        if na == nb {
            assert((x + y) * wb == x * wb + y * wb) by (nonlinear_arith);
            assert(x + y == 0 ==> (x + y) * wb == 0) by (nonlinear_arith);
            assert(x + y > 0 ==> (x + y) * wb > 0) by (nonlinear_arith)
                requires
                    wb > 0,
            ;
            let p = round_exact(x + y, qb);
            if x + y == 0 {
                with_sign(na, 0)
            } else {
                with_sign(na, p)
            }
        } else if x == y {
            with_sign(false, 0)
        } else if x > y {
            assert((x - y) * wb == x * wb - y * wb) by (nonlinear_arith);
            assert((x - y) * wb > 0) by (nonlinear_arith)
                requires
                    wb > 0,
                    x > y,
            ;
            with_sign(na, round_exact(x - y, qb))
        } else {
            assert((y - x) * wb == y * wb - x * wb) by (nonlinear_arith);
            assert((y - x) * wb > 0) by (nonlinear_arith)
                requires
                    wb > 0,
                    y > x,
            ;
            with_sign(nb, round_exact(y - x, qb))
        }
    } else {
        // the second number is less than one unit in the sixteenth bit below the first
        let x: u64 = ma as u64 * 0x1_0000;
        let t: u32 = qa - 16;
        let ghost wt = pow2(t as nat);
        proof {
            lemma_pow2_pos(t as nat);
            lemma_pow2_adds(t as nat, 16);
            assert(pow2(16) == 0x1_0000) by {
                lemma2_to64();
            }
            assert(mag_a == x * wt) by (nonlinear_arith)
                requires
                    mag_a == ma * (wt * 0x1_0000),
                    x == ma * 0x1_0000,
            ;
            lemma_pow2_adds(qb as nat, (t - qb) as nat);
            lemma2_to64();
            if t - qb > 24 {
                lemma_pow2_strictly_increases(24, (t - qb) as nat);
            }
            let gap_t = pow2((t - qb) as nat);
            assert(mag_b < wt) by (nonlinear_arith)
                requires
                    mag_b == mb * wb,
                    wt == wb * gap_t,
                    mb < gap_t,
                    wb > 0,
            ;
            assert(mb == 0 ==> mag_b == 0) by (nonlinear_arith)
                requires
                    mag_b == mb * wb,
            ;
            assert(mb > 0 ==> mag_b > 0) by (nonlinear_arith)
                requires
                    mag_b == mb * wb,
                    wb > 0,
            ;
            assert(up(t as int) == wt);
            assert((x + 1) * wt == x * wt + wt) by (nonlinear_arith);
            assert((x - 1) * wt == x * wt - wt) by (nonlinear_arith);
            assert(wt * 1 == wt) by (nonlinear_arith);
            assert(x * wt > wt) by (nonlinear_arith)
                requires
                    x > 1,
                    wt > 0,
            ;
        }
        if mb == 0 {
            with_sign(na, round_exact(x, t))
        } else if na == nb {
            with_sign(na, round_magnitude(x, t as i32, true, Ghost((mag_a + mag_b) as nat), Ghost(1)))
        } else {
            with_sign(na, round_magnitude(x - 1, t as i32, true, Ghost((mag_a - mag_b) as nat), Ghost(1)))
        }
    }
}

/// The sum of two numbers.
pub fn sum(a: u32, b: u32) -> (r: u32)
    ensures
        r == sum_of(a, b),
{
    proof {
        reveal(sum_of);
    }
    let pa: u32 = a % SIGN;
    let pb: u32 = b % SIGN;
    if pa > INFINITY || pb > INFINITY || (pa == INFINITY && pb == INFINITY && a != b) {
        return QUIET_NAN;
    }
    if pa == INFINITY {
        return a;
    }
    if pb == INFINITY {
        return b;
    }
    assert(signed(a >= SIGN, pa as nat) == a);
    assert(signed(b >= SIGN, pb as nat) == b);
    let (ma, qa) = split(pa);
    let (mb, qb) = split(pb);
    if qa >= qb {
        sum_finite(a >= SIGN, pa, b >= SIGN, pb)
    } else {
        sum_finite(b >= SIGN, pb, a >= SIGN, pa)
    }
}

/// The difference of two numbers.
pub fn difference(a: u32, b: u32) -> (r: u32)
    ensures
        r == difference_of(a, b),
{
    sum(a, neg(b))
}

/// The fraction `k` over two to the power 24, exactly.
pub fn from_fraction(k: u64) -> (r: u32)
    requires
        k < 0x100_0000,
    ensures
        r as nat == rounded(k as nat * pow2(125), 1),
        finite(r),
        scaled(r) == k * pow2(125),
{
    proof {
        lemma_fraction(k as nat);
    }
    round_exact(k, 125)
}

/// A fraction of two to the power 24 is encoded exactly.
pub proof fn lemma_fraction(k: nat)
    requires
        k < 0x100_0000,
    ensures
        rounded(k * pow2(125), 1) < INFINITY,
        magnitude_of(rounded(k * pow2(125), 1)) == k * pow2(125),
{
    assert(0 * pow2(125) == 0) by (nonlinear_arith);
    assert(0 * pow2(0) == 0) by (nonlinear_arith);
    if k > 0 {
        let e = lemma_normalised(k);
        let m = k * pow2(e);
        let q = (125 - e) as nat;
        lemma_pow2_adds(e, q);
        let we = pow2(e);
        let wq = pow2(q);
        assert(k * (we * wq) == (k * we) * wq) by (nonlinear_arith);
        crate::binary32_laws::lemma_encodable(q, m);
    } else {
        crate::binary32_laws::law_rounding_keeps_encodable_numbers(0);
    }
}

/// The shift that brings a nonzero `k` to the full width of a significand.
proof fn lemma_normalised(k: nat) -> (e: nat)
    requires
        0 < k < 0x100_0000,
    ensures
        e <= 23,
        0x80_0000 <= k * pow2(e) < 0x100_0000,
    decreases 0x100_0000 - k,
{
    lemma2_to64();
    if k >= 0x80_0000 {
        0
    } else {
        let e = lemma_normalised(2 * k);
        lemma_pow2_unfold(e + 1);
        let w = pow2(e);
        assert(k * (2 * w) == (2 * k) * w) by (nonlinear_arith);
        if e == 23 {
            assert((2 * k) * 0x80_0000 < 0x100_0000);
        }
        e + 1
    }
}

} // verus!
