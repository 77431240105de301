//! What the encoding of single-precision numbers and their rounding guarantee.
use crate::binary32;
use vstd::arithmetic::div_mod::*;
use vstd::arithmetic::mul::*;
use vstd::arithmetic::power2::*;
use vstd::prelude::*;

verus! {

/// Distance of `n / d` from the number encoded by `p`, in units of `1 / d`.
pub open spec fn distance(n: nat, d: nat, p: nat) -> int {
    let e = n - binary32::magnitude_of(p) * d;
    if e < 0 {
        -e
    } else {
        e
    }
}

/// A larger encoding stands for a larger magnitude.
pub proof fn lemma_magnitude_increases(p1: nat, p2: nat)
    requires
        p1 < p2,
    ensures
        binary32::magnitude_of(p1) < binary32::magnitude_of(p2),
{
    let q1 = binary32::quantum_of(p1);
    let q2 = binary32::quantum_of(p2);
    let m1 = binary32::significand_of(p1);
    let m2 = binary32::significand_of(p2);
    let w1 = pow2(q1);
    let w2 = pow2(q2);
    lemma_pow2_pos(q1);
    if q1 == q2 {
        assert(m1 * w1 < m2 * w1) by (nonlinear_arith)
            requires
                m1 < m2,
                w1 > 0,
        ;
    } else {
        let g = (q2 - q1 - 1) as nat;
        lemma_pow2_adds(q1, g + 1);
        lemma_pow2_unfold(g + 1);
        lemma_pow2_pos(g);
        let wg = pow2(g);
        assert(m1 * w1 < m2 * w2) by (nonlinear_arith)
            requires
                w2 == w1 * (2 * wg),
                wg >= 1,
                w1 > 0,
                m1 < 0x100_0000,
                m2 >= 0x80_0000,
        {
            assert(m1 * w1 < 0x100_0000 * w1);
            assert(m2 * (w1 * (2 * wg)) >= 0x80_0000 * (w1 * (2 * wg)));
            assert(0x80_0000 * (w1 * (2 * wg)) == 0x100_0000 * (w1 * wg));
            assert(w1 * wg >= w1);
        }
    }
}

/// The order of the encodings is the order of the numbers.
pub proof fn law_order_is_the_order_of_values(a: u32, b: u32)
    requires
        binary32::finite(a),
        binary32::finite(b),
    ensures
        binary32::less(a, b) <==> binary32::scaled(a) < binary32::scaled(b),
        binary32::at_most(a, b) <==> binary32::scaled(a) <= binary32::scaled(b),
{
    let pa = binary32::payload(a);
    let pb = binary32::payload(b);
    if pa < pb {
        lemma_magnitude_increases(pa, pb);
    } else if pb < pa {
        lemma_magnitude_increases(pb, pa);
    }
    assert(binary32::magnitude_of(0) == 0) by {
        assert(0 * pow2(0) == 0) by (nonlinear_arith);
    }
    if pa > 0 {
        lemma_magnitude_increases(0, pa);
    }
    if pb > 0 {
        lemma_magnitude_increases(0, pb);
    }
}

/// Where the spacing around `v` is known, so are the powers of two that enclose it.
proof fn lemma_quantum_encloses(v: nat)
    ensures
        v < pow2(binary32::quantum(v) + 24),
        binary32::quantum(v) > 0 ==> pow2((binary32::quantum(v) + 23) as nat) <= v,
    decreases v,
{
    assert(pow2(24) == 0x100_0000) by {
        lemma2_to64();
    }
    if v >= 0x100_0000 {
        let q = binary32::quantum(v);
        lemma_quantum_encloses(v / 2);
        lemma_pow2_unfold(q + 24);
        lemma_pow2_unfold((q + 23) as nat);
    }
}

/// The encoding of `k` quanta of two to the `q` has that magnitude.
pub proof fn lemma_encoded_magnitude(q: nat, k: nat)
    requires
        k <= 0x100_0000,
        q > 0 ==> k >= 0x80_0000,
    ensures
        binary32::magnitude_of(q * (binary32::BINADE as nat) + k) == k * pow2(q),
{
    let p = q * (binary32::BINADE as nat) + k;
    if k == 0x100_0000 {
        assert(p == (q + 2) * 0x80_0000);
        assert(p / 0x80_0000 == q + 2);
        lemma_pow2_unfold(q + 1);
        let w = pow2(q);
        assert(0x80_0000 * (2 * w) == 0x100_0000 * w) by (nonlinear_arith);
    } else if k >= 0x80_0000 {
        assert(p / 0x80_0000 == q + 1);
    } else {
        assert(p < 0x80_0000);
    }
}

/// How far the rounded fraction is from the fraction.
proof fn lemma_nearest_even_error(n: nat, w: nat)
    requires
        w > 0,
    ensures
        ({
            let k = binary32::nearest_even(n, w);
            let e = n - k * w;
            &&& -(w as int) <= 2 * e <= w
            &&& (2 * e == w || 2 * e == -(w as int)) ==> k % 2 == 0
            &&& k == n / w || k == n / w + 1
        }),
{
    let whole = n / w;
    let rest = n % w;
    lemma_fundamental_div_mod(n as int, w as int);
    lemma_mod_bound(n as int, w as int);
    assert(n == whole * w + rest) by {
        lemma_mul_is_commutative(whole as int, w as int);
    }
    assert((whole + 1) * w == whole * w + w) by (nonlinear_arith);
}

/// The quotient of the quanta of a fraction stays within a significand.
proof fn lemma_rounded_parts(n: nat, d: nat)
    requires
        d > 0,
    ensures
        ({
            let q = binary32::quantum(n / d);
            let k = binary32::nearest_even(n, d * pow2(q));
            &&& d * pow2(q) > 0
            &&& k <= 0x100_0000
            &&& q > 0 ==> k >= 0x80_0000 && n >= 0x80_0000 * (d * pow2(q))
        }),
{
    let v = n / d;
    let q = binary32::quantum(v);
    let z = pow2(q);
    let w = d * z;
    let k = binary32::nearest_even(n, w);
    lemma_quantum_encloses(v);
    lemma_pow2_pos(q);
    lemma_pow2_adds(q, 24);
    assert(pow2(24) == 0x100_0000 && pow2(23) == 0x80_0000) by {
        lemma2_to64();
    }
    lemma_fundamental_div_mod(n as int, d as int);
    lemma_mod_bound(n as int, d as int);
    let r = n % d;
    assert(w > 0 && n < 0x100_0000 * w) by (nonlinear_arith)
        requires
            n == d * v + r,
            0 <= r < d,
            v + 1 <= z * 0x100_0000,
            w == d * z,
            d > 0,
            z > 0,
    {
        assert(d * (v + 1) <= d * (z * 0x100_0000));
    }
    lemma_nearest_even_error(n, w);
    let whole = n / w;
    lemma_fundamental_div_mod(n as int, w as int);
    lemma_mod_bound(n as int, w as int);
    let rest = n % w;
    assert(whole < 0x100_0000) by (nonlinear_arith)
        requires
            n == w * whole + rest,
            rest >= 0,
            n < 0x100_0000 * w,
    ;
    if q > 0 {
        lemma_pow2_adds(q, 23);
        assert(n >= 0x80_0000 * w) by (nonlinear_arith)
            requires
                n == d * v + r,
                r >= 0,
                v >= z * 0x80_0000,
                w == d * z,
                d > 0,
        {
            assert(d * v >= d * (z * 0x80_0000));
        }
        assert(whole >= 0x80_0000) by (nonlinear_arith)
            requires
                n == w * whole + rest,
                rest < w,
                n >= 0x80_0000 * w,
        ;
    }
}

/// Encoding of the number nearest to `n / d` units, with no largest number.
spec fn unbounded(n: nat, d: nat) -> nat {
    let q = binary32::quantum(n / d);
    q * (binary32::BINADE as nat) + binary32::nearest_even(n, d * pow2(q))
}

/// Rounding yields the encodable number nearest to the exact one, and of two equally near
/// ones the one with an even encoding.
pub proof fn law_rounding_is_to_nearest_even(n: nat, d: nat, p: nat)
    requires
        d > 0,
        p < binary32::INFINITY,
        binary32::rounded(n, d) < binary32::INFINITY,
    ensures
        distance(n, d, binary32::rounded(n, d)) <= distance(n, d, p),
        distance(n, d, binary32::rounded(n, d)) == distance(n, d, p) ==> p == binary32::rounded(
            n,
            d,
        ) || binary32::rounded(n, d) % 2 == 0,
{
    lemma_nearest(n, d, p);
}

/// No encoding is nearer than that of the rounded number.
proof fn lemma_nearest(n: nat, d: nat, p: nat)
    requires
        d > 0,
    ensures
        distance(n, d, unbounded(n, d)) <= distance(n, d, p),
        distance(n, d, unbounded(n, d)) == distance(n, d, p) ==> p == unbounded(n, d) || unbounded(
            n,
            d,
        ) % 2 == 0,
{
    let q = binary32::quantum(n / d);
    let z = pow2(q);
    let w = d * z;
    let k = binary32::nearest_even(n, w);
    let r = unbounded(n, d);
    lemma_rounded_parts(n, d);
    lemma_nearest_even_error(n, w);
    lemma_encoded_magnitude(q, k);
    let e = n - k * w;
    assert(binary32::magnitude_of(r) * d == k * w) by (nonlinear_arith)
        requires
            binary32::magnitude_of(r) == k * z,
            w == d * z,
    ;
    let qp = binary32::quantum_of(p);
    let mp = binary32::significand_of(p);
    let mag = binary32::magnitude_of(p);
    if qp >= q {
        let g = pow2((qp - q) as nat);
        lemma_pow2_adds((qp - q) as nat, q);
        let j = mp * g;
        assert(mag * d == j * w && mag == j * z) by (nonlinear_arith)
            requires
                mag == mp * (g * z),
                j == mp * g,
                w == d * z,
        ;
        lemma_quanta_apart(n, w, k, j);
        if j == k {
            if p < r {
                lemma_magnitude_increases(p, r);
            } else if r < p {
                lemma_magnitude_increases(r, p);
            }
        }
    } else {
        let g = (q - qp - 1) as nat;
        let wg = pow2(g);
        let wp = pow2(qp);
        lemma_pow2_adds(qp, g + 1);
        lemma_pow2_unfold(g + 1);
        lemma_pow2_pos(g);
        lemma_pow2_pos(qp);
        assert(mag * d < 0x80_0000 * w) by (nonlinear_arith)
            requires
                mag == mp * wp,
                mp < 0x100_0000,
                z == wp * (2 * wg),
                w == d * z,
                wg >= 1,
                wp > 0,
                d > 0,
        {
            assert(mp * wp < 0x100_0000 * wp);
            assert(wp * wg >= wp);
            assert(0x80_0000 * (wp * (2 * wg)) == 0x100_0000 * (wp * wg));
            assert(mag < 0x80_0000 * z);
            assert(mag * d < (0x80_0000 * z) * d);
            assert((0x80_0000 * z) * d == 0x80_0000 * (d * z));
        }
        lemma_quanta_apart(n, w, k, 0x80_0000);
    }
}

/// No other number of quanta is nearer than the rounded one.
proof fn lemma_quanta_apart(n: nat, w: nat, k: nat, j: nat)
    requires
        w > 0,
        k == binary32::nearest_even(n, w),
    ensures
        ({
            let ek = if n >= k * w { n - k * w } else { k * w - n };
            let ej = if n >= j * w { n - j * w } else { j * w - n };
            &&& ek <= ej
            &&& ek == ej && j != k ==> k % 2 == 0
        }),
{
    lemma_nearest_even_error(n, w);
    if j > k {
        assert(j * w >= k * w + w) by (nonlinear_arith)
            requires
                j >= k + 1,
                w > 0,
        ;
    } else if j < k {
        assert(j * w <= k * w - w) by (nonlinear_arith)
            requires
                j <= k - 1,
                w > 0,
        ;
    }
}

/// A number that can be encoded is left as it is by rounding.
pub proof fn law_rounding_keeps_encodable_numbers(p: nat)
    requires
        p < binary32::INFINITY,
    ensures
        binary32::rounded(binary32::magnitude_of(p), 1) == p,
{
    let n = binary32::magnitude_of(p);
    let q = binary32::quantum_of(p);
    let m = binary32::significand_of(p);
    let z = pow2(q);
    lemma_pow2_pos(q);
    assert(pow2(24) == 0x100_0000 && pow2(23) == 0x80_0000) by {
        lemma2_to64();
    }
    lemma_pow2_adds(24, q);
    lemma_pow2_adds(23, q);
    assert(n < 0x100_0000 * z) by (nonlinear_arith)
        requires
            n == m * z,
            m < 0x100_0000,
            z > 0,
    ;
    if q > 0 {
        assert(n >= 0x80_0000 * z) by (nonlinear_arith)
            requires
                n == m * z,
                m >= 0x80_0000,
        ;
    }
    assert(n / 1 == n);
    binary32::lemma_quantum(n, q);
    assert(1 * z == z);
    lemma_div_by_multiple(m as int, z as int);
    lemma_mod_multiples_basic(m as int, z as int);
}

/// A multiple of a power of two that fits a significand is encoded exactly.
pub proof fn lemma_encodable(q: nat, m: nat)
    requires
        m < 0x100_0000,
        q > 0 ==> m >= 0x80_0000,
        q <= 253,
    ensures
        q * (binary32::BINADE as nat) + m < binary32::INFINITY,
        binary32::rounded(m * pow2(q), 1) == q * (binary32::BINADE as nat) + m,
        binary32::magnitude_of(q * (binary32::BINADE as nat) + m) == m * pow2(q),
{
    lemma_encoded_magnitude(q, m);
    law_rounding_keeps_encodable_numbers(q * (binary32::BINADE as nat) + m);
}

/// A fraction that is at most a number rounds to at most that number.
pub proof fn law_rounding_stays_below(n: nat, d: nat, p: nat)
    requires
        d > 0,
        p < binary32::INFINITY,
        n <= binary32::magnitude_of(p) * d,
    ensures
        binary32::rounded(n, d) <= p,
{
    let r = unbounded(n, d);
    if r > p {
        lemma_nearest(n, d, p);
        lemma_farther(d, p, r);
    }
}

/// A fraction that is at least a number rounds to at least that number.
pub proof fn law_rounding_stays_above(n: nat, d: nat, p: nat)
    requires
        d > 0,
        p < binary32::INFINITY,
        n >= binary32::magnitude_of(p) * d,
    ensures
        binary32::rounded(n, d) >= p,
{
    let r = unbounded(n, d);
    if r < p {
        lemma_nearest(n, d, p);
        lemma_farther(d, r, p);
    }
}

/// A larger fraction does not round to a smaller number.
pub proof fn law_rounding_keeps_order(n1: nat, n2: nat, d: nat)
    requires
        d > 0,
        n1 <= n2,
    ensures
        binary32::rounded(n1, d) <= binary32::rounded(n2, d),
{
    let r = unbounded(n1, d);
    let p = unbounded(n2, d);
    if p < r {
        lemma_farther(d, p, r);
        lemma_nearest(n1, d, p);
        lemma_nearest(n2, d, r);
    }
}

/// A larger encoding stands for a larger magnitude, whatever the unit.
proof fn lemma_farther(d: nat, p1: nat, p2: nat)
    requires
        d > 0,
        p1 < p2,
    ensures
        binary32::magnitude_of(p1) * d < binary32::magnitude_of(p2) * d,
{
    lemma_magnitude_increases(p1, p2);
    let a = binary32::magnitude_of(p1);
    let b = binary32::magnitude_of(p2);
    assert(a * d < b * d) by (nonlinear_arith)
        requires
            a < b,
            d > 0,
    ;
}

/// The sum of two numbers lies between any two numbers that the exact sum lies between.
#[verifier::spinoff_prover]
#[verifier::rlimit(40)]
pub proof fn law_sum_stays_between(a: u32, b: u32, lo: u32, hi: u32)
    requires
        binary32::finite(a),
        binary32::finite(b),
        binary32::finite(lo),
        binary32::finite(hi),
        binary32::scaled(lo) <= binary32::scaled(a) + binary32::scaled(b) <= binary32::scaled(hi),
    ensures
        binary32::finite(binary32::sum_of(a, b)),
        binary32::at_most(lo, binary32::sum_of(a, b)),
        binary32::at_most(binary32::sum_of(a, b), hi),
{
    reveal(binary32::sum_of);
    let exact = binary32::scaled(a) + binary32::scaled(b);
    let low = binary32::payload(lo);
    let high = binary32::payload(hi);
    lemma_sign(lo);
    lemma_sign(hi);
    if exact > 0 {
        let n = exact as nat;
        law_rounding_stays_below(n, 1, high);
        if binary32::scaled(lo) > 0 {
            law_rounding_stays_above(n, 1, low);
        }
    } else if exact < 0 {
        let n = (-exact) as nat;
        law_rounding_stays_below(n, 1, low);
        if binary32::scaled(hi) < 0 {
            law_rounding_stays_above(n, 1, high);
        }
    }
}

/// The sign of a value is that of its encoding.
proof fn lemma_sign(b: u32)
    ensures
        binary32::scaled(b) == 0 <==> binary32::payload(b) == 0,
        binary32::scaled(b) > 0 <==> binary32::payload(b) > 0 && !binary32::is_negative(b),
        binary32::scaled(b) < 0 <==> binary32::payload(b) > 0 && binary32::is_negative(b),
{
    assert(binary32::magnitude_of(0) == 0) by {
        assert(0 * pow2(0) == 0) by (nonlinear_arith);
    }
    if binary32::payload(b) > 0 {
        lemma_magnitude_increases(0, binary32::payload(b));
    }
}

/// An encoding is a sign bit, eight exponent bits and twenty-three fraction bits; in units of the
/// smallest subnormal it stands for its fraction, or for its fraction behind a leading one times
/// a power of two. The last exponent is that of the infinities and the NaNs.
pub proof fn law_encoding_of_numbers(b: u32)
    ensures
        ({
            let exponent = (b / 0x80_0000) % 0x100;
            let fraction = b % 0x80_0000;
            let size = if exponent == 0 {
                fraction as int
            } else {
                (0x80_0000 + fraction) * pow2((exponent - 1) as nat)
            };
            &&& binary32::is_negative(b) <==> b / 0x8000_0000 == 1
            &&& binary32::payload(b) == b % 0x8000_0000
            &&& binary32::finite(b) <==> exponent < 255
            &&& binary32::infinite(b) <==> exponent == 255 && fraction == 0
            &&& binary32::nan(b) <==> exponent == 255 && fraction != 0
            &&& binary32::finite(b) ==> binary32::magnitude_of(binary32::payload(b)) == size
            &&& binary32::finite(b) ==> binary32::scaled(b) == if b / 0x8000_0000 == 1 {
                -size
            } else {
                size
            }
        }),
{
    let exponent = (b / 0x80_0000) % 0x100;
    let fraction = b % 0x80_0000;
    let p = binary32::payload(b);
    assert(p == exponent * 0x80_0000 + fraction);
    assert(p / 0x80_0000 == exponent);
    if exponent == 0 {
        lemma2_to64();
        assert(fraction * pow2(0) == fraction);
    } else {
        let q = (exponent - 1) as nat;
        assert(binary32::quantum_of(p) == q);
        assert(binary32::significand_of(p) == 0x80_0000 + fraction);
    }
}

/// Changing the sign changes the sign of the value, and dropping it gives the absolute value.
pub proof fn law_signs(a: u32)
    ensures
        binary32::is_negative(binary32::negation_of(a)) != binary32::is_negative(a),
        binary32::payload(binary32::negation_of(a)) == a % 0x8000_0000,
        binary32::scaled(binary32::negation_of(a)) == -binary32::scaled(a),
        binary32::absolute_of(a) == a % 0x8000_0000,
        binary32::scaled(binary32::absolute_of(a)) == if binary32::scaled(a) < 0 {
            -binary32::scaled(a)
        } else {
            binary32::scaled(a)
        },
{
    assert(binary32::payload(binary32::negation_of(a)) == binary32::payload(a));
    assert(binary32::payload(binary32::absolute_of(a)) == binary32::payload(a));
    lemma_sign(a);
}

/// No NaN is in order with anything, and the infinities enclose the numbers.
pub proof fn law_order_of_infinities_and_nans(a: u32, b: u32)
    ensures
        binary32::nan(a) || binary32::nan(b) ==> !binary32::less(a, b) && !binary32::at_most(a, b),
        !binary32::nan(a) && b == 0x7F80_0000 ==> binary32::at_most(a, b) && (binary32::less(a, b)
            <==> a != b),
        !binary32::nan(b) && a == 0xFF80_0000 ==> binary32::at_most(a, b) && (binary32::less(a, b)
            <==> a != b),
        binary32::finite(a) && b == 0xFF80_0000 ==> !binary32::at_most(a, b),
        a == 0x7F80_0000 && binary32::finite(b) ==> !binary32::at_most(a, b),
{
}

/// Rounding gives infinity if and only if the fraction is at least half a step above the largest
/// number.
pub proof fn law_rounding_to_infinity(n: nat, d: nat)
    requires
        d > 0,
    ensures
        binary32::rounded(n, d) <= 0x7F80_0000,
        binary32::rounded(n, d) == 0x7F80_0000 <==> 2 * n >= (0x1FF_FFFF * pow2(253)) * d,
{
    let r = unbounded(n, d);
    let top: nat = 0x7F7F_FFFF;
    let over: nat = 0x7F80_0000;
    let z = pow2(253);
    lemma_pow2_unfold(254);
    assert(binary32::magnitude_of(top) == 0xFF_FFFF * z);
    assert(binary32::magnitude_of(over) == 0x100_0000 * z) by {
        assert(binary32::magnitude_of(over) == 0x80_0000 * pow2(254));
        assert(0x80_0000 * (2 * z) == 0x100_0000 * z) by (nonlinear_arith);
    }
    let a = binary32::magnitude_of(top) * d;
    let b = binary32::magnitude_of(over) * d;
    assert(a + b == (0x1FF_FFFF * z) * d) by (nonlinear_arith)
        requires
            a == (0xFF_FFFF * z) * d,
            b == (0x100_0000 * z) * d,
    ;
    lemma_farther(d, top, over);
    lemma_nearest(n, d, top);
    lemma_nearest(n, d, over);
    if r < top {
        lemma_farther(d, r, top);
    }
    if r > over {
        lemma_farther(d, over, r);
    }
}

/// The size of `v`.
pub open spec fn size_of(v: int) -> nat {
    (if v < 0 {
        -v
    } else {
        v
    }) as nat
}

/// The size of the value of `b`, in units of the smallest subnormal.
pub open spec fn extent(b: u32) -> nat {
    size_of(binary32::scaled(b))
}

/// Distance of the number `c`, taken `d` times, from `v`.
pub open spec fn error(c: u32, d: nat, v: int) -> int {
    size_of(binary32::scaled(c) * d - v) as int
}

/// `r` is the number nearest to `v / d`, and of two equally near ones the even one.
pub open spec fn nearest(r: u32, d: nat, v: int) -> bool {
    forall|c: u32|
        binary32::finite(c) ==> {
            &&& error(r, d, v) <= #[trigger] error(c, d, v)
            &&& error(r, d, v) == error(c, d, v) && binary32::scaled(r) != binary32::scaled(c)
                ==> r % 2 == 0
        }
}

/// Rounding the size of a number and giving it back its sign yields the nearest number.
proof fn lemma_signed_nearest(negative: bool, n: nat, d: nat)
    requires
        d > 0,
        binary32::rounded(n, d) < binary32::INFINITY,
    ensures
        nearest(
            binary32::signed(negative, binary32::rounded(n, d)),
            d,
            if negative {
                -(n as int)
            } else {
                n as int
            },
        ),
{
    let p = binary32::rounded(n, d);
    let r = binary32::signed(negative, p);
    let v = if negative {
        -(n as int)
    } else {
        n as int
    };
    assert(binary32::payload(r) == p && binary32::is_negative(r) == negative);
    let m = binary32::magnitude_of(p);
    assert((-(m as int)) * d == -(m * d)) by (nonlinear_arith);
    assert(r % 2 == p % 2);
    assert(binary32::magnitude_of(0) == 0) by {
        assert(0 * pow2(0) == 0) by (nonlinear_arith);
    }
    assert(0 * d == 0) by (nonlinear_arith);
    assert forall|c: u32| binary32::finite(c) implies {
        &&& error(r, d, v) <= #[trigger] error(c, d, v)
        &&& error(r, d, v) == error(c, d, v) && binary32::scaled(r) != binary32::scaled(c) ==> r % 2
            == 0
    } by {
        let pc = binary32::payload(c);
        let mc = binary32::magnitude_of(pc);
        law_rounding_is_to_nearest_even(n, d, pc);
        law_rounding_is_to_nearest_even(n, d, 0);
        assert((-(mc as int)) * d == -(mc * d)) by (nonlinear_arith);
        if binary32::is_negative(c) != negative && pc > 0 {
            lemma_farther(d, 0, pc);
        }
    }
}

/// The sum of two numbers is the number nearest to their exact sum, of two equally near ones the
/// even one, and infinite only half a step above the largest number. A sum of nothing is minus
/// zero only if both numbers are negative.
pub proof fn law_sum_is_nearest(a: u32, b: u32)
    requires
        binary32::finite(a),
        binary32::finite(b),
    ensures
        ({
            let exact = binary32::scaled(a) + binary32::scaled(b);
            let size = size_of(exact);
            let s = binary32::sum_of(a, b);
            &&& !binary32::nan(s)
            &&& binary32::infinite(s) <==> 2 * size >= 0x1FF_FFFF * pow2(253)
            &&& binary32::finite(s) ==> nearest(s, 1, exact)
            &&& exact < 0 ==> binary32::is_negative(s)
            &&& exact > 0 ==> !binary32::is_negative(s)
            &&& exact == 0 ==> (binary32::is_negative(s) <==> binary32::is_negative(a)
                && binary32::is_negative(b))
        }),
{
    reveal(binary32::sum_of);
    let exact = binary32::scaled(a) + binary32::scaled(b);
    let negative = exact < 0 || exact == 0 && binary32::is_negative(a) && binary32::is_negative(b);
    let n = (if exact < 0 {
        -exact
    } else {
        exact
    }) as nat;
    law_rounding_to_infinity(n, 1);
    if exact == 0 {
        lemma_rounded_nothing(1);
        lemma_pow2_pos(253);
    }
    assert(binary32::sum_of(a, b) == binary32::signed(negative, binary32::rounded(n, 1)));
    if binary32::rounded(n, 1) < binary32::INFINITY {
        lemma_signed_nearest(negative, n, 1);
    }
}

/// Rounding nothing gives nothing.
pub proof fn lemma_rounded_nothing(d: nat)
    requires
        d > 0,
    ensures
        binary32::rounded(0, d) == 0,
{
    lemma2_to64();
    lemma_div_basics_1(d as int);
    assert(binary32::quantum(0) == 0);
    assert(d * pow2(0) == d);
    lemma_small_mod(0, d);
    assert(binary32::nearest_even(0, d) == 0);
}

/// The product of two numbers is the number nearest to their exact product, of two equally near
/// ones the even one, and infinite only half a step above the largest number.
pub proof fn law_product_is_nearest(a: u32, b: u32)
    requires
        binary32::finite(a),
        binary32::finite(b),
    ensures
        ({
            let negative = binary32::is_negative(a) != binary32::is_negative(b);
            let size = binary32::scaled(binary32::absolute_of(a)) * binary32::scaled(
                binary32::absolute_of(b),
            );
            let r = binary32::product_of(a, b);
            &&& !binary32::nan(r)
            &&& binary32::is_negative(r) == negative
            &&& binary32::infinite(r) <==> 2 * size >= (0x1FF_FFFF * pow2(253)) * pow2(149)
            &&& binary32::finite(r) ==> nearest(
                r,
                pow2(149),
                if negative {
                    -size
                } else {
                    size
                },
            )
        }),
{
    reveal(binary32::product_of);
    let negative = binary32::is_negative(a) != binary32::is_negative(b);
    let x = binary32::magnitude_of(binary32::payload(a));
    let y = binary32::magnitude_of(binary32::payload(b));
    let n = (x * y) as nat;
    assert(binary32::payload(binary32::absolute_of(a)) == binary32::payload(a));
    assert(binary32::payload(binary32::absolute_of(b)) == binary32::payload(b));
    lemma_pow2_pos(149);
    law_rounding_to_infinity(n, pow2(149));
    if binary32::rounded(n, pow2(149)) < binary32::INFINITY {
        lemma_signed_nearest(negative, n, pow2(149));
    }
}

/// The quotient of two numbers is the number nearest to their exact quotient, of two equally near
/// ones the even one, and infinite only half a step above the largest number.
pub proof fn law_quotient_is_nearest(a: u32, b: u32)
    requires
        binary32::finite(a),
        binary32::finite(b),
        binary32::scaled(b) != 0,
    ensures
        ({
            let negative = binary32::is_negative(a) != binary32::is_negative(b);
            let above = binary32::scaled(binary32::absolute_of(a)) * pow2(149);
            let below = binary32::scaled(binary32::absolute_of(b)) as nat;
            let r = binary32::quotient_of(a, b);
            &&& !binary32::nan(r)
            &&& binary32::is_negative(r) == negative
            &&& binary32::infinite(r) <==> 2 * above >= (0x1FF_FFFF * pow2(253)) * below
            &&& binary32::finite(r) ==> nearest(
                r,
                below,
                if negative {
                    -above
                } else {
                    above
                },
            )
        }),
{
    reveal(binary32::quotient_of);
    let negative = binary32::is_negative(a) != binary32::is_negative(b);
    let x = binary32::magnitude_of(binary32::payload(a));
    let d = binary32::magnitude_of(binary32::payload(b));
    let n = (x * pow2(149)) as nat;
    assert(binary32::payload(binary32::absolute_of(a)) == binary32::payload(a));
    assert(binary32::payload(binary32::absolute_of(b)) == binary32::payload(b));
    lemma_sign(b);
    if binary32::payload(a) == 0 {
        assert(binary32::magnitude_of(0) == 0) by {
            assert(0 * pow2(0) == 0) by (nonlinear_arith);
        }
    }
    law_rounding_to_infinity(n, d);
    if binary32::rounded(n, d) < binary32::INFINITY {
        lemma_signed_nearest(negative, n, d);
    }
}

/// What comes of infinities and NaNs, and of a division by zero.
pub proof fn law_arithmetic_without_numbers(a: u32, b: u32)
    ensures
        ({
            let s = binary32::sum_of(a, b);
            let opposed = binary32::infinite(a) && binary32::infinite(b) && a != b;
            &&& binary32::nan(a) || binary32::nan(b) || opposed ==> binary32::nan(s)
            &&& binary32::infinite(a) && !binary32::nan(b) && !opposed ==> s == a
            &&& binary32::infinite(b) && !binary32::nan(a) && !opposed ==> s == b
        }),
        ({
            let negative = binary32::is_negative(a) != binary32::is_negative(b);
            let r = binary32::product_of(a, b);
            let zero = a % 0x8000_0000 == 0 || b % 0x8000_0000 == 0;
            let unlimited = binary32::infinite(a) || binary32::infinite(b);
            &&& binary32::nan(a) || binary32::nan(b) || unlimited && zero ==> binary32::nan(r)
            &&& unlimited && !zero && !binary32::nan(a) && !binary32::nan(b)
                ==> binary32::infinite(r) && binary32::is_negative(r) == negative
        }),
        ({
            let negative = binary32::is_negative(a) != binary32::is_negative(b);
            let r = binary32::quotient_of(a, b);
            let zeros = a % 0x8000_0000 == 0 && b % 0x8000_0000 == 0;
            let unlimited = binary32::infinite(a) && binary32::infinite(b);
            &&& binary32::nan(a) || binary32::nan(b) || zeros || unlimited ==> binary32::nan(r)
            &&& !binary32::nan(a) && !binary32::nan(b) && !zeros && !unlimited
                ==> binary32::is_negative(r) == negative && !binary32::nan(r)
            &&& binary32::infinite(a) && binary32::finite(b) ==> binary32::infinite(r)
            &&& binary32::finite(a) && !zeros && b % 0x8000_0000 == 0 ==> binary32::infinite(r)
            &&& binary32::finite(a) && binary32::infinite(b) ==> r % 0x8000_0000 == 0
        }),
{
    reveal(binary32::sum_of);
    reveal(binary32::product_of);
    reveal(binary32::quotient_of);
    if binary32::finite(a) && binary32::finite(b) && b % 0x8000_0000 != 0 {
        lemma_sign(b);
        law_quotient_is_nearest(a, b);
    }
}

} // verus!
