//! What a comparison guarantees.
use crate::binary32;
use crate::binary32_laws;
use crate::compare;
use crate::compare::Comparison;
use vstd::arithmetic::power2::*;
use vstd::prelude::*;

verus! {

/// The worst difference is at least every difference that is a number, is found where it is
/// said to be, and at no earlier place.
pub proof fn law_worst_is_the_first_largest(diffs: Seq<u32>, n: nat, i: int)
    requires
        n <= diffs.len(),
        0 <= i < n,
        !binary32::nan(diffs[i]),
    ensures
        binary32::at_most(diffs[i], compare::worst(diffs, n).0),
        i < compare::worst(diffs, n).1 ==> binary32::less(diffs[i], compare::worst(diffs, n).0),
        compare::worst(diffs, n).0 != 0 ==> diffs[compare::worst(diffs, n).1 as int]
            == compare::worst(diffs, n).0,
        compare::worst(diffs, n).0 == 0 ==> compare::worst(diffs, n).1 == 0,
{
    lemma_worst(diffs, n, i);
    lemma_worst_place(diffs, n);
}

proof fn lemma_worst(diffs: Seq<u32>, n: nat, i: int)
    requires
        n <= diffs.len(),
        0 <= i < n,
        !binary32::nan(diffs[i]),
    ensures
        !binary32::nan(compare::worst(diffs, n).0),
        binary32::at_most(diffs[i], compare::worst(diffs, n).0),
        i < compare::worst(diffs, n).1 ==> binary32::less(diffs[i], compare::worst(diffs, n).0),
    decreases n,
{
    let m = (n - 1) as nat;
    lemma_worst_is_a_number(diffs, m);
    if i < m {
        lemma_worst(diffs, m, i);
    }
    lemma_worst_place(diffs, m);
}

proof fn lemma_worst_is_a_number(diffs: Seq<u32>, n: nat)
    requires
        n <= diffs.len(),
    ensures
        !binary32::nan(compare::worst(diffs, n).0),
    decreases n,
{
    if n > 0 {
        lemma_worst_is_a_number(diffs, (n - 1) as nat);
    }
}

proof fn lemma_worst_place(diffs: Seq<u32>, n: nat)
    requires
        n <= diffs.len(),
    ensures
        compare::worst(diffs, n).1 <= n,
        compare::worst(diffs, n).1 < n || compare::worst(diffs, n).1 == 0,
        binary32::ordinal(compare::worst(diffs, n).0) >= 0,
        compare::worst(diffs, n).0 != 0 ==> compare::worst(diffs, n).1 < n && diffs[compare::worst(
            diffs,
            n,
        ).1 as int] == compare::worst(diffs, n).0,
        compare::worst(diffs, n).0 == 0 ==> compare::worst(diffs, n).1 == 0,
    decreases n,
{
    if n > 0 {
        lemma_worst_place(diffs, (n - 1) as nat);
    }
}

/// Rounding a nonzero number of units does not give zero.
proof fn lemma_rounded_is_positive(n: nat)
    requires
        n > 0,
    ensures
        binary32::rounded(n, 1) > 0,
{
    let q = binary32::quantum(n);
    assert(n / 1 == n);
    if q == 0 {
        assert(n < 0x100_0000);
        lemma2_to64();
        assert(1 * pow2(0) == 1);
        assert(binary32::nearest_even(n, 1) == n);
    } else {
        assert(q * (binary32::BINADE as nat) >= binary32::BINADE) by (nonlinear_arith)
            requires
                q >= 1,
        ;
    }
}

/// Two finite numbers are at no distance if and only if they are equal.
pub proof fn law_no_difference_is_equality(want: u32, got: u32)
    requires
        binary32::finite(want),
        binary32::finite(got),
    ensures
        compare::diff_of(want, got) == 0 <==> binary32::scaled(want) == binary32::scaled(got),
{
    reveal(binary32::sum_of);
    let exact = binary32::scaled(want) - binary32::scaled(got);
    let back = binary32::negation_of(got);
    assert(binary32::payload(back) == binary32::payload(got));
    assert(binary32::scaled(back) == -binary32::scaled(got));
    if exact > 0 {
        lemma_rounded_is_positive(exact as nat);
    } else if exact < 0 {
        lemma_rounded_is_positive((-exact) as nat);
    }
}

/// With no tolerance a finite output passes if and only if it equals its expectation.
pub proof fn law_no_tolerance_is_equality(want: u32, got: u32)
    requires
        binary32::finite(want),
        binary32::finite(got),
    ensures
        compare::tolerated(want, got, 0, 0) <==> binary32::scaled(want) == binary32::scaled(got),
{
    law_no_difference_is_equality(want, got);
    lemma_no_allowance(want);
    lemma_difference_is_a_number(want, got);
}

proof fn lemma_no_allowance(want: u32)
    requires
        binary32::finite(want),
    ensures
        compare::allowance_of(want, 0, 0) == 0,
{
    reveal(binary32::product_of);
    let size = binary32::absolute_of(want);
    assert(binary32::payload(size) == size && binary32::payload(0) == 0);
    let m = binary32::magnitude_of(size as nat);
    assert(binary32::magnitude_of(0) == 0) by {
        assert(0 * pow2(0) == 0) by (nonlinear_arith);
    }
    assert(0 * m == 0) by (nonlinear_arith);
    lemma_pow2_pos(149);
    binary32_laws::lemma_rounded_nothing(pow2(149));
    assert(binary32::product_of(0, size) == 0);
    binary32_laws::lemma_rounded_nothing(1);
    lemma_sum_of_two(0, 0);
}

proof fn lemma_difference_is_a_number(want: u32, got: u32)
    requires
        binary32::finite(want),
        binary32::finite(got),
    ensures
        !binary32::nan(compare::diff_of(want, got)),
        !binary32::is_negative(compare::diff_of(want, got)),
{
    reveal(binary32::sum_of);
    let back = binary32::negation_of(got);
    assert(binary32::payload(back) == binary32::payload(got));
}

/// The sum of two numbers that are not negative.
proof fn lemma_sum_of_two(a: u32, b: u32)
    requires
        a <= binary32::INFINITY,
        b <= binary32::INFINITY,
    ensures
        binary32::sum_of(a, b) as nat == if a == binary32::INFINITY || b == binary32::INFINITY {
            binary32::INFINITY as nat
        } else {
            binary32::rounded(
                binary32::magnitude_of(a as nat) + binary32::magnitude_of(b as nat),
                1,
            )
        },
        binary32::sum_of(a, b) <= binary32::INFINITY,
{
    reveal(binary32::sum_of);
    assert(binary32::payload(a) == a && binary32::payload(b) == b);
    binary32_laws::lemma_rounded_nothing(1);
}

/// A larger sum of numbers that are not negative.
proof fn lemma_sum_grows(a: u32, b: u32, c: u32, d: u32)
    requires
        a <= c <= binary32::INFINITY,
        b <= d <= binary32::INFINITY,
    ensures
        binary32::sum_of(a, b) <= binary32::sum_of(c, d) <= binary32::INFINITY,
{
    lemma_sum_of_two(a, b);
    lemma_sum_of_two(c, d);
    if c < binary32::INFINITY && d < binary32::INFINITY {
        if a < c {
            binary32_laws::lemma_magnitude_increases(a as nat, c as nat);
        }
        if b < d {
            binary32_laws::lemma_magnitude_increases(b as nat, d as nat);
        }
        binary32_laws::law_rounding_keeps_order(
            binary32::magnitude_of(a as nat) + binary32::magnitude_of(b as nat),
            binary32::magnitude_of(c as nat) + binary32::magnitude_of(d as nat),
            1,
        );
    }
}

/// The order of numbers that are not negative is that of their encodings.
proof fn lemma_order_of_two(a: u32, b: u32)
    requires
        a <= binary32::INFINITY,
        b <= binary32::INFINITY,
    ensures
        binary32::at_most(a, b) <==> a <= b,
{
    assert(binary32::payload(a) == a && binary32::payload(b) == b);
}

/// The product of two numbers that are not negative, if it is one.
proof fn lemma_product_of_two(a: u32, b: u32)
    requires
        a < binary32::INFINITY,
        b < binary32::SIGN,
        !binary32::nan(binary32::product_of(a, b)),
    ensures
        b <= binary32::INFINITY,
        binary32::product_of(a, b) as nat == if b == binary32::INFINITY {
            binary32::INFINITY as nat
        } else {
            binary32::rounded(
                binary32::magnitude_of(a as nat) * binary32::magnitude_of(b as nat),
                pow2(149),
            )
        },
        b == binary32::INFINITY ==> a > 0,
{
    reveal(binary32::product_of);
    assert(binary32::payload(a) == a && binary32::payload(b) == b);
}

/// A larger share of the same expectation.
proof fn lemma_share_grows(size: u32, rtol: u32, looser: u32)
    requires
        rtol <= looser < binary32::INFINITY,
        size < binary32::SIGN,
        !binary32::nan(binary32::product_of(rtol, size)),
    ensures
        binary32::product_of(rtol, size) <= binary32::product_of(looser, size)
            <= binary32::INFINITY,
{
    assert(binary32::payload(rtol) == rtol && binary32::payload(looser) == looser);
    assert(binary32::payload(size) == size);
    lemma_product_of_two(rtol, size);
    assert(!binary32::nan(binary32::product_of(looser, size))) by {
        reveal(binary32::product_of);
    }
    lemma_product_of_two(looser, size);
    let a = binary32::magnitude_of(rtol as nat);
    let b = binary32::magnitude_of(looser as nat);
    let m = binary32::magnitude_of(size as nat);
    if rtol < looser {
        binary32_laws::lemma_magnitude_increases(rtol as nat, looser as nat);
    }
    assert(a * m <= b * m) by (nonlinear_arith)
        requires
            a <= b,
    ;
    lemma_pow2_pos(149);
    binary32_laws::law_rounding_keeps_order(a * m, b * m, pow2(149));
}

/// The sign of a zero does not show in the value of a sum.
proof fn lemma_sum_with_zeros(a: u32, b: u32, c: u32, d: u32)
    requires
        a == c || binary32::payload(a) == 0 && binary32::payload(c) == 0,
        b == d || binary32::payload(b) == 0 && binary32::payload(d) == 0,
    ensures
        binary32::nan(binary32::sum_of(a, b)) == binary32::nan(binary32::sum_of(c, d)),
        binary32::ordinal(binary32::sum_of(a, b)) == binary32::ordinal(binary32::sum_of(c, d)),
{
    reveal(binary32::sum_of);
    assert(binary32::magnitude_of(0) == 0) by {
        assert(0 * pow2(0) == 0) by (nonlinear_arith);
    }
}

/// A zero times a number is a zero, whatever the sign.
proof fn lemma_product_with_zero(a: u32, c: u32, b: u32)
    requires
        binary32::payload(a) == 0,
        binary32::payload(c) == 0,
    ensures
        ({
            let x = binary32::product_of(a, b);
            let y = binary32::product_of(c, b);
            x == y || binary32::payload(x) == 0 && binary32::payload(y) == 0
        }),
{
    reveal(binary32::product_of);
    let m = binary32::magnitude_of(binary32::payload(b));
    assert(binary32::magnitude_of(0) == 0) by {
        assert(0 * pow2(0) == 0) by (nonlinear_arith);
    }
    assert(0 * m == 0) by (nonlinear_arith);
    lemma_pow2_pos(149);
    binary32_laws::lemma_rounded_nothing(pow2(149));
}

/// Only a zero has a sign and is not less than zero.
proof fn lemma_not_below_zero(a: u32)
    requires
        binary32::at_most(0, a),
    ensures
        a == binary32::absolute_of(a) || binary32::payload(a) == 0,
        binary32::absolute_of(a) <= binary32::INFINITY,
        binary32::payload(binary32::absolute_of(a)) == binary32::payload(a),
        binary32::ordinal(binary32::absolute_of(a)) == binary32::ordinal(a),
        binary32::ordinal(a) == binary32::absolute_of(a),
{
}

/// Tolerances of minus zero allow what tolerances of zero do.
proof fn lemma_unsigned_tolerances(want: u32, got: u32, atol: u32, rtol: u32)
    requires
        binary32::at_most(0, atol),
        binary32::at_most(0, rtol),
    ensures
        compare::tolerated(want, got, atol, rtol) == compare::tolerated(
            want,
            got,
            binary32::absolute_of(atol),
            binary32::absolute_of(rtol),
        ),
{
    let size = binary32::absolute_of(want);
    let a = binary32::absolute_of(atol);
    let r = binary32::absolute_of(rtol);
    lemma_not_below_zero(atol);
    lemma_not_below_zero(rtol);
    if rtol != r {
        lemma_product_with_zero(rtol, r, size);
    }
    lemma_sum_with_zeros(
        atol,
        binary32::product_of(rtol, size),
        a,
        binary32::product_of(r, size),
    );
}

/// Looser tolerances without a sign.
proof fn lemma_looser_tolerances(
    want: u32,
    got: u32,
    atol: u32,
    rtol: u32,
    looser_atol: u32,
    looser_rtol: u32,
)
    requires
        atol <= looser_atol <= binary32::INFINITY,
        rtol <= looser_rtol < binary32::INFINITY,
        compare::tolerated(want, got, atol, rtol),
    ensures
        compare::tolerated(want, got, looser_atol, looser_rtol),
{
    let size = binary32::absolute_of(want);
    let share = binary32::product_of(rtol, size);
    let larger = binary32::product_of(looser_rtol, size);
    assert(!binary32::nan(share)) by {
        if binary32::nan(share) {
            reveal(binary32::sum_of);
            assert(binary32::nan(binary32::sum_of(atol, share)));
        }
    }
    lemma_share_grows(size, rtol, looser_rtol);
    lemma_sum_grows(atol, share, looser_atol, larger);
    let diff = compare::diff_of(want, got);
    assert(diff <= binary32::INFINITY);
    lemma_order_of_two(diff, binary32::sum_of(atol, share));
    lemma_order_of_two(diff, binary32::sum_of(looser_atol, larger));
}

/// An infinite relative tolerance allows everything where the expectation is not zero.
proof fn lemma_infinite_tolerance(want: u32, got: u32, atol: u32)
    requires
        atol <= binary32::INFINITY,
        binary32::payload(want) != 0,
        !binary32::nan(want),
        !binary32::nan(compare::diff_of(want, got)),
    ensures
        compare::tolerated(want, got, atol, binary32::INFINITY),
{
    let size = binary32::absolute_of(want);
    assert(binary32::product_of(binary32::INFINITY, size) == binary32::INFINITY) by {
        reveal(binary32::product_of);
    }
    lemma_sum_of_two(atol, binary32::INFINITY);
    let diff = compare::diff_of(want, got);
    assert(diff <= binary32::INFINITY);
    lemma_order_of_two(diff, binary32::INFINITY);
}

/// The difference from a NaN is a NaN.
proof fn lemma_nan_difference(want: u32, got: u32)
    requires
        binary32::nan(want),
    ensures
        binary32::nan(compare::diff_of(want, got)),
{
    reveal(binary32::sum_of);
}

/// An output that passes still passes under tolerances that are no tighter. An infinite relative
/// tolerance has no share of an expectation of zero.
pub proof fn law_looser_tolerances_pass_no_less(
    want: u32,
    got: u32,
    atol: u32,
    rtol: u32,
    looser_atol: u32,
    looser_rtol: u32,
)
    requires
        binary32::at_most(0, atol),
        binary32::at_most(0, rtol),
        binary32::at_most(atol, looser_atol),
        binary32::at_most(rtol, looser_rtol),
        binary32::finite(looser_rtol) || binary32::payload(want) != 0,
        compare::tolerated(want, got, atol, rtol),
    ensures
        compare::tolerated(want, got, looser_atol, looser_rtol),
{
    lemma_not_below_zero(atol);
    lemma_not_below_zero(rtol);
    lemma_not_below_zero(looser_atol);
    lemma_not_below_zero(looser_rtol);
    lemma_unsigned_tolerances(want, got, atol, rtol);
    lemma_unsigned_tolerances(want, got, looser_atol, looser_rtol);
    if binary32::finite(looser_rtol) {
        lemma_looser_tolerances(
            want,
            got,
            binary32::absolute_of(atol),
            binary32::absolute_of(rtol),
            binary32::absolute_of(looser_atol),
            binary32::absolute_of(looser_rtol),
        );
    } else {
        if binary32::nan(want) {
            lemma_nan_difference(want, got);
        }
        lemma_infinite_tolerance(want, got, binary32::absolute_of(looser_atol));
    }
}

/// An output that equals its expectation passes under any tolerances that are not below zero. An
/// infinite relative tolerance has no share of an expectation of zero.
pub proof fn law_equal_outputs_pass(want: u32, got: u32, atol: u32, rtol: u32)
    requires
        binary32::finite(want),
        binary32::finite(got),
        binary32::scaled(want) == binary32::scaled(got),
        binary32::at_most(0, atol),
        binary32::at_most(0, rtol),
        binary32::finite(rtol) || binary32::payload(want) != 0,
    ensures
        compare::tolerated(want, got, atol, rtol),
{
    law_no_tolerance_is_equality(want, got);
    law_looser_tolerances_pass_no_less(want, got, 0, 0, atol, rtol);
}

/// How far a finite output is from a finite expectation: the distance of their values, rounded.
pub proof fn law_difference_is_the_rounded_distance(want: u32, got: u32)
    requires
        binary32::finite(want),
        binary32::finite(got),
    ensures
        compare::diff_of(want, got) as nat == binary32::rounded(
            binary32_laws::size_of(binary32::scaled(want) - binary32::scaled(got)),
            1,
        ),
{
    reveal(binary32::sum_of);
    let back = binary32::negation_of(got);
    assert(binary32::payload(back) == binary32::payload(got));
    assert(binary32::scaled(back) == -binary32::scaled(got));
    binary32_laws::lemma_rounded_nothing(1);
}

/// The share of a finite expectation that a finite relative tolerance allows.
proof fn lemma_share(want: u32, rtol: u32)
    requires
        binary32::finite(want),
        binary32::finite(rtol),
    ensures
        ({
            let share = binary32::product_of(rtol, binary32::absolute_of(want));
            let p = binary32::rounded(
                binary32_laws::extent(rtol) * binary32_laws::extent(want),
                pow2(149),
            );
            &&& binary32::payload(share) == p
            &&& p <= binary32::INFINITY
            &&& binary32::is_negative(share) == binary32::is_negative(rtol)
        }),
{
    reveal(binary32::product_of);
    let size = binary32::absolute_of(want);
    assert(binary32::payload(size) == binary32::payload(want));
    assert(binary32_laws::extent(rtol) == binary32::magnitude_of(binary32::payload(rtol)));
    assert(binary32_laws::extent(want) == binary32::magnitude_of(binary32::payload(want)));
}

/// Zero and nothing else has no size.
proof fn lemma_zero_size(b: u32)
    ensures
        binary32::scaled(b) == 0 <==> binary32::payload(b) == 0,
{
    assert(binary32::magnitude_of(0) == 0) by {
        assert(0 * pow2(0) == 0) by (nonlinear_arith);
    }
    if binary32::payload(b) > 0 {
        binary32_laws::lemma_magnitude_increases(0, binary32::payload(b));
    }
}

/// An output is within tolerance if and only if its distance from the expectation, rounded, is at
/// most the absolute tolerance plus the relative tolerance times the size of the expectation,
/// where the product and then the sum are rounded. A product too large for a number allows
/// everything if the tolerance is positive and nothing if it is negative, and so does a sum.
pub proof fn law_tolerance_is_absolute_plus_relative(want: u32, got: u32, atol: u32, rtol: u32)
    requires
        binary32::finite(want),
        binary32::finite(got),
        binary32::finite(atol),
        binary32::finite(rtol),
    ensures
        ({
            let distance = binary32::rounded(
                binary32_laws::size_of(binary32::scaled(want) - binary32::scaled(got)),
                1,
            );
            let share = binary32::rounded(
                binary32_laws::extent(rtol) * binary32_laws::extent(want),
                pow2(149),
            );
            let relative = if binary32::scaled(rtol) < 0 {
                -(binary32::magnitude_of(share) as int)
            } else {
                binary32::magnitude_of(share) as int
            };
            let allowed = binary32::scaled(atol) + relative;
            compare::tolerated(want, got, atol, rtol) <==> if share == 0x7F80_0000 {
                binary32::scaled(rtol) > 0
            } else {
                allowed >= 0 && distance <= binary32::rounded(allowed as nat, 1)
            }
        }),
{
    law_difference_is_the_rounded_distance(want, got);
    lemma_difference_is_a_number(want, got);
    lemma_share(want, rtol);
    lemma_zero_size(rtol);
    let share = binary32::product_of(rtol, binary32::absolute_of(want));
    let p = binary32::payload(share);
    if binary32::payload(rtol) == 0 {
        assert(binary32_laws::extent(rtol) == 0);
        let w = binary32_laws::extent(want);
        assert(0 * w == 0) by (nonlinear_arith);
        lemma_pow2_pos(149);
        binary32_laws::lemma_rounded_nothing(pow2(149));
        assert(p == 0);
        lemma_zero_size(share);
    }
    assert(binary32::scaled(rtol) < 0 <==> binary32::is_negative(rtol) && binary32::payload(rtol)
        > 0);
    let diff = compare::diff_of(want, got);
    assert(binary32::payload(diff) == diff);
    if p < binary32::INFINITY {
        lemma_allowed(atol, share, diff);
    } else {
        assert(binary32::sum_of(atol, share) == share) by {
            reveal(binary32::sum_of);
        }
    }
}

/// A size is at most the sum of two numbers.
proof fn lemma_allowed(atol: u32, share: u32, diff: u32)
    requires
        binary32::finite(atol),
        binary32::finite(share),
        diff <= binary32::INFINITY,
    ensures
        ({
            let allowed = binary32::scaled(atol) + binary32::scaled(share);
            binary32::at_most(diff, binary32::sum_of(atol, share)) <==> allowed >= 0 && diff
                <= binary32::rounded(allowed as nat, 1)
        }),
{
    reveal(binary32::sum_of);
    let allowed = binary32::scaled(atol) + binary32::scaled(share);
    binary32_laws::lemma_rounded_nothing(1);
    if allowed < 0 {
        lemma_rounded_is_positive((-allowed) as nat);
    }
    assert(binary32::payload(diff) == diff);
}

/// Without an absolute tolerance an output is within tolerance if and only if its distance from
/// the expectation, rounded, is at most the relative tolerance times the size of the expectation,
/// rounded. No expectation is too small for that.
pub proof fn law_relative_tolerance_scales_with_the_expectation(want: u32, got: u32, rtol: u32)
    requires
        binary32::finite(want),
        binary32::finite(got),
        binary32::finite(rtol),
        binary32::scaled(rtol) >= 0,
    ensures
        compare::tolerated(want, got, 0, rtol) <==> binary32::rounded(
            binary32_laws::size_of(binary32::scaled(want) - binary32::scaled(got)),
            1,
        ) <= binary32::rounded(
            binary32_laws::extent(rtol) * binary32_laws::extent(want),
            pow2(149),
        ),
{
    law_tolerance_is_absolute_plus_relative(want, got, 0, rtol);
    law_difference_is_the_rounded_distance(want, got);
    lemma_difference_is_a_number(want, got);
    lemma_zero_size(0);
    lemma_zero_size(rtol);
    lemma_share(want, rtol);
    let share = binary32::rounded(
        binary32_laws::extent(rtol) * binary32_laws::extent(want),
        pow2(149),
    );
    if share < binary32::INFINITY {
        binary32_laws::law_rounding_keeps_encodable_numbers(share);
    } else if binary32::scaled(rtol) == 0 {
        let w = binary32_laws::extent(want);
        assert(0 * w == 0) by (nonlinear_arith);
        lemma_pow2_pos(149);
        binary32_laws::lemma_rounded_nothing(pow2(149));
    }
}

/// Without a relative tolerance an output is within tolerance if and only if its distance from the
/// expectation, rounded, is at most the absolute tolerance, whatever the expectation.
pub proof fn law_absolute_tolerance_is_the_same_everywhere(want: u32, got: u32, atol: u32)
    requires
        binary32::finite(want),
        binary32::finite(got),
        binary32::finite(atol),
        !binary32::is_negative(atol),
    ensures
        compare::tolerated(want, got, atol, 0) <==> binary32::rounded(
            binary32_laws::size_of(binary32::scaled(want) - binary32::scaled(got)),
            1,
        ) <= atol,
{
    law_tolerance_is_absolute_plus_relative(want, got, atol, 0);
    lemma_zero_size(0);
    let w = binary32_laws::extent(want);
    assert(0 * w == 0) by (nonlinear_arith);
    lemma_pow2_pos(149);
    binary32_laws::lemma_rounded_nothing(pow2(149));
    assert(binary32::payload(atol) == atol);
    assert(binary32::magnitude_of(0) == 0) by {
        assert(0 * pow2(0) == 0) by (nonlinear_arith);
    }
    binary32_laws::law_rounding_keeps_encodable_numbers(atol as nat);
}

/// Nothing is near an expectation or within a tolerance that is a NaN. Everything finite is within
/// a relative tolerance of an infinite expectation if there is one, and nothing is if there is
/// none.
pub proof fn law_expectations_without_a_value(want: u32, got: u32, atol: u32, rtol: u32)
    requires
        binary32::finite(got),
    ensures
        binary32::nan(want) || binary32::nan(atol) || binary32::nan(rtol) ==> !compare::tolerated(
            want,
            got,
            atol,
            rtol,
        ),
        binary32::infinite(want) && binary32::payload(rtol) == 0 ==> !compare::tolerated(
            want,
            got,
            atol,
            rtol,
        ),
        binary32::infinite(want) && binary32::finite(atol) && binary32::less(0, rtol)
            ==> compare::tolerated(want, got, atol, rtol),
        binary32::payload(want) == 0 && binary32::infinite(rtol) ==> !compare::tolerated(
            want,
            got,
            atol,
            rtol,
        ),
{
    reveal(binary32::sum_of);
    reveal(binary32::product_of);
    let back = binary32::negation_of(got);
    assert(binary32::payload(back) == binary32::payload(got));
    let size = binary32::absolute_of(want);
    assert(binary32::payload(size) == binary32::payload(want));
}

/// The percentage of a difference is the difference over the size of the expectation, rounded,
/// times a hundred, rounded; it is zero if that size is at most 1e-12.
pub proof fn law_percentage_is_of_the_expectation(diff: u32, want: u32)
    requires
        binary32::finite(diff),
        !binary32::is_negative(diff),
        binary32::finite(want),
    ensures
        ({
            let size = binary32_laws::extent(want);
            let share = binary32::rounded(binary32_laws::extent(diff) * pow2(149), size);
            compare::percent_of(diff, want) as nat == if want % 0x8000_0000 <= 0x2B8C_BCCC {
                0
            } else if share == 0x7F80_0000 {
                0x7F80_0000
            } else {
                binary32::rounded(
                    binary32::magnitude_of(share) * (100 * pow2(149)),
                    pow2(149),
                )
            }
        }),
{
    let size = binary32::absolute_of(want);
    assert(binary32::payload(size) == binary32::payload(want));
    assert(binary32::payload(compare::NEGLIGIBLE) == compare::NEGLIGIBLE);
    assert(binary32_laws::extent(want) == binary32::magnitude_of(binary32::payload(want)));
    assert(binary32_laws::extent(diff) == binary32::magnitude_of(binary32::payload(diff)));
    if want % 0x8000_0000 > 0x2B8C_BCCC {
        reveal(binary32::quotient_of);
        reveal(binary32::product_of);
        lemma_zero_size(diff);
        let share = binary32::rounded(
            binary32_laws::extent(diff) * pow2(149),
            binary32_laws::extent(want),
        );
        let q = binary32::quotient_of(diff, size);
        assert(q == share);
        assert(binary32::payload(q) == share);
        assert(binary32::magnitude_of(binary32::payload(compare::HUNDRED)) == 100 * pow2(149)) by {
            lemma_pow2_adds(17, 132);
            assert(pow2(17) == 0x2_0000) by {
                lemma2_to64();
            }
            assert(binary32::payload(compare::HUNDRED) == 0x42C8_0000);
            assert(binary32::magnitude_of(0x42C8_0000) == 0xC8_0000 * pow2(132));
            let z = pow2(132);
            assert(0xC8_0000 * z == 100 * (0x2_0000 * z)) by (nonlinear_arith);
        }
    }
}

/// The places among the first `n` at which the output is within tolerance.
pub open spec fn places_within(
    expected: Seq<u32>,
    actual: Seq<u32>,
    atol: u32,
    rtol: u32,
    n: nat,
) -> Set<int> {
    Set::new(
        |i: int| 0 <= i < n && compare::tolerated(expected[i], actual[i], atol, rtol),
    )
}

proof fn lemma_places_within(
    expected: Seq<u32>,
    actual: Seq<u32>,
    atol: u32,
    rtol: u32,
    n: nat,
)
    ensures
        places_within(expected, actual, atol, rtol, n).finite(),
        places_within(expected, actual, atol, rtol, n).len() == compare::count_within(
            expected,
            actual,
            atol,
            rtol,
            n,
        ),
    decreases n,
{
    let places = places_within(expected, actual, atol, rtol, n);
    if n == 0 {
        assert(places =~= Set::<int>::empty());
    } else {
        let m = (n - 1) as nat;
        let before = places_within(expected, actual, atol, rtol, m);
        lemma_places_within(expected, actual, atol, rtol, m);
        if compare::tolerated(expected[m as int], actual[m as int], atol, rtol) {
            assert(places =~= before.insert(m as int));
        } else {
            assert(places =~= before);
        }
    }
}

/// A comparison names the first output that is not finite. If all are, it passes if and only if
/// each is within tolerance, counts the places that are, gives the difference at each place, and
/// names the largest of them that is a number, where it is first, and its percentage of the
/// expectation there.
pub proof fn law_comparisons_measure_every_output(
    c: Comparison,
    expected: Seq<u32>,
    actual: Seq<u32>,
    atol: u32,
    rtol: u32,
)
    requires
        expected.len() == actual.len(),
        0 < expected.len(),
        compare::found(c, expected, actual, atol, rtol),
    ensures
        match c {
            Comparison::NonFinite { index } => {
                &&& !c.passes()
                &&& index < actual.len()
                &&& !binary32::finite(actual[index as int])
                &&& forall|i: int| 0 <= i < index ==> binary32::finite(#[trigger] actual[i])
            },
            Comparison::Measured(m) => {
                &&& c.passes() == m.ok
                &&& forall|i: int| 0 <= i < actual.len() ==> binary32::finite(#[trigger] actual[i])
                &&& m.ok <==> forall|i: int|
                    0 <= i < expected.len() ==> #[trigger] compare::tolerated(
                        expected[i],
                        actual[i],
                        atol,
                        rtol,
                    )
                &&& m.within == places_within(expected, actual, atol, rtol, expected.len()).len()
                &&& m.diffs@.len() == expected.len()
                &&& forall|i: int|
                    0 <= i < expected.len() ==> #[trigger] m.diffs@[i] == compare::diff_of(
                        expected[i],
                        actual[i],
                    )
                &&& m.max_index < expected.len()
                &&& !binary32::nan(m.max_diff)
                &&& forall|i: int|
                    0 <= i < expected.len() && !binary32::nan(#[trigger] m.diffs@[i])
                        ==> binary32::at_most(m.diffs@[i], m.max_diff)
                &&& forall|i: int|
                    0 <= i < m.max_index && !binary32::nan(#[trigger] m.diffs@[i])
                        ==> binary32::less(m.diffs@[i], m.max_diff)
                &&& m.max_diff != 0 ==> m.diffs@[m.max_index as int] == m.max_diff
                &&& m.max_diff == 0 ==> m.max_index == 0
                &&& m.relative == compare::percent_of(m.max_diff, expected[m.max_index as int])
            },
        },
{
    lemma_places_within(expected, actual, atol, rtol, expected.len());
    if let Comparison::Measured(m) = c {
        let n = expected.len();
        lemma_worst_is_a_number(m.diffs@, n);
        lemma_worst_place(m.diffs@, n);
        assert forall|i: int| 0 <= i < n && !binary32::nan(#[trigger] m.diffs@[i]) implies
            binary32::at_most(m.diffs@[i], m.max_diff) && (i < m.max_index ==> binary32::less(
            m.diffs@[i],
            m.max_diff,
        )) by {
            lemma_worst(m.diffs@, n, i);
        }
    }
}

} // verus!
