//! What the synthesis of tensor bytes and their checksum guarantee.
use crate::binary32;
use crate::binary32_laws;
use crate::bytes;
use crate::prng;
use vstd::arithmetic::div_mod::*;
use vstd::arithmetic::mul::*;
use vstd::arithmetic::power2::*;
use vstd::prelude::*;

verus! {

/// A range of a uniform tensor is the slice of the whole tensor that it names.
pub proof fn law_uniform_range_is_a_slice(
    name: Seq<char>,
    offset: nat,
    count: nat,
    total: nat,
    lo: u32,
    hi: u32,
)
    requires
        offset + count <= total,
    ensures
        prng::bf16_uniform_bytes(name, offset, count, lo, hi) == prng::bf16_uniform_bytes(
            name,
            0,
            total,
            lo,
            hi,
        ).subrange(2 * offset as int, 2 * (offset + count) as int),
{
    let whole = prng::bf16_uniform_bytes(name, 0, total, lo, hi);
    let part = prng::bf16_uniform_bytes(name, offset, count, lo, hi);
    let slice = whole.subrange(2 * offset as int, 2 * (offset + count) as int);
    assert forall|i: int| 0 <= i < part.len() implies part[i] == slice[i] by {
        assert((2 * offset + i) / 2 == offset + i / 2 && (2 * offset + i) % 2 == i % 2);
    }
    assert(part =~= slice);
}

/// Consecutive ranges of a uniform tensor join into one range.
pub proof fn law_uniform_ranges_join(
    name: Seq<char>,
    offset: nat,
    first: nat,
    second: nat,
    lo: u32,
    hi: u32,
)
    ensures
        prng::bf16_uniform_bytes(name, offset, first, lo, hi) + prng::bf16_uniform_bytes(
            name,
            offset + first,
            second,
            lo,
            hi,
        ) == prng::bf16_uniform_bytes(name, offset, first + second, lo, hi),
{
    let left = prng::bf16_uniform_bytes(name, offset, first, lo, hi);
    let right = prng::bf16_uniform_bytes(name, offset + first, second, lo, hi);
    let whole = prng::bf16_uniform_bytes(name, offset, first + second, lo, hi);
    assert forall|i: int| 0 <= i < whole.len() implies whole[i] == (left + right)[i] by {
        if i >= 2 * first {
            let j = i - 2 * first;
            assert(i / 2 == first + j / 2 && i % 2 == j % 2);
        }
    }
    assert(whole =~= left + right);
}

/// Asking for more elements moves none of those already there: a tensor's bytes are a prefix
/// of the bytes of a longer tensor of the same name.
pub proof fn law_longer_tensors_extend_shorter_ones(
    name: Seq<char>,
    count: nat,
    total: nat,
    lo: u32,
    hi: u32,
    exp_min: u8,
    exp_max: u8,
    signed: bool,
)
    requires
        count <= total,
    ensures
        prng::bf16_uniform_bytes(name, 0, count, lo, hi).is_prefix_of(
            prng::bf16_uniform_bytes(name, 0, total, lo, hi),
        ),
        prng::bf16_signs_bytes(name, count, hi).is_prefix_of(
            prng::bf16_signs_bytes(name, total, hi),
        ),
        prng::f32_uniform_bytes(name, count, lo, hi).is_prefix_of(
            prng::f32_uniform_bytes(name, total, lo, hi),
        ),
        prng::f8_banded_bytes(name, count, exp_min, exp_max, signed).is_prefix_of(
            prng::f8_banded_bytes(name, total, exp_min, exp_max, signed),
        ),
        prng::f4_nibbles_bytes(name, count).is_prefix_of(prng::f4_nibbles_bytes(name, total)),
{
    let a = prng::bf16_uniform_bytes(name, 0, total, lo, hi);
    assert(prng::bf16_uniform_bytes(name, 0, count, lo, hi) =~= a.subrange(0, 2 * count as int));
    let b = prng::bf16_signs_bytes(name, total, hi);
    assert(prng::bf16_signs_bytes(name, count, hi) =~= b.subrange(0, 2 * count as int));
    let c = prng::f32_uniform_bytes(name, total, lo, hi);
    assert(prng::f32_uniform_bytes(name, count, lo, hi) =~= c.subrange(0, 4 * count as int));
    let d = prng::f8_banded_bytes(name, total, exp_min, exp_max, signed);
    assert(prng::f8_banded_bytes(name, count, exp_min, exp_max, signed) =~= d.subrange(
        0,
        count as int,
    ));
    let e = prng::f4_nibbles_bytes(name, total);
    assert(prng::f4_nibbles_bytes(name, count) =~= e.subrange(0, (count / 2) as int));
}

/// Multiplying by the inverse undoes a multiplication.
pub proof fn lemma_inverse(x: u64, factor: int, inverse: int)
    requires
        (factor * inverse) % 0x1_0000_0000_0000_0000 == 1,
    ensures
        (((x * factor) % 0x1_0000_0000_0000_0000) * inverse) % 0x1_0000_0000_0000_0000 == x,
{
    let m = 0x1_0000_0000_0000_0000int;
    lemma_mul_mod_noop_left(x * factor, inverse, m);
    lemma_mul_is_associative(x as int, factor, inverse);
    lemma_mul_mod_noop_right(x as int, factor * inverse, m);
    lemma_small_mod(x as nat, m as nat);
}

/// No two elements of a tensor draw the same word.
pub proof fn law_words_of_a_stream_differ(seed: u64, i: u64, j: u64)
    requires
        i != j,
    ensures
        prng::word_of(seed, i) != prng::word_of(seed, j),
{
    let golden = 0x9E37_79B9_7F4A_7C15u64;
    let a0 = seed ^ i;
    let b0 = seed ^ j;
    assert(seed ^ i != seed ^ j) by (bit_vector)
        requires
            i != j,
    ;
    let a1 = a0.wrapping_add(golden);
    let b1 = b0.wrapping_add(golden);
    assert(a1 != b1);
    let a2 = a1 ^ (a1 >> 30);
    let b2 = b1 ^ (b1 >> 30);
    assert(a1 ^ (a1 >> 30) != b1 ^ (b1 >> 30)) by (bit_vector)
        requires
            a1 != b1,
    ;
    let a3 = prng::mix_first(a1);
    let b3 = prng::mix_first(b1);
    if a3 == b3 {
        assert((0xBF58_476D_1CE4_E5B9int * 0x96DE_1B17_3F11_9089int) % 0x1_0000_0000_0000_0000int
            == 1);
        lemma_inverse(a2, 0xBF58_476D_1CE4_E5B9, 0x96DE_1B17_3F11_9089);
        lemma_inverse(b2, 0xBF58_476D_1CE4_E5B9, 0x96DE_1B17_3F11_9089);
    }
    let a4 = a3 ^ (a3 >> 27);
    let b4 = b3 ^ (b3 >> 27);
    assert(a3 ^ (a3 >> 27) != b3 ^ (b3 >> 27)) by (bit_vector)
        requires
            a3 != b3,
    ;
    let a5 = prng::mix_second(a3);
    let b5 = prng::mix_second(b3);
    if a5 == b5 {
        assert((0x94D0_49BB_1331_11EBint * 0x3196_42B2_D24D_8EC3int) % 0x1_0000_0000_0000_0000int
            == 1);
        lemma_inverse(a4, 0x94D0_49BB_1331_11EB, 0x3196_42B2_D24D_8EC3);
        lemma_inverse(b4, 0x94D0_49BB_1331_11EB, 0x3196_42B2_D24D_8EC3);
    }
    assert(a5 ^ (a5 >> 31) != b5 ^ (b5 >> 31)) by (bit_vector)
        requires
            a5 != b5,
    ;
}

/// The words of a string that starts another are words of that other.
proof fn lemma_weighted_sum_front(s: Seq<u8>, t: Seq<u8>, offset: nat, n: nat)
    requires
        s.len() % 4 == 0,
        4 * n <= s.len(),
    ensures
        prng::weighted_sum(s + t, offset, n) == prng::weighted_sum(s, offset, n),
    decreases n,
{
    if n > 0 {
        lemma_weighted_sum_front(s, t, offset, (n - 1) as nat);
    }
}

/// The words of a string that ends another are words of that other, further on.
proof fn lemma_weighted_sum_back(s: Seq<u8>, t: Seq<u8>, offset: nat, n: nat)
    requires
        s.len() % 4 == 0,
    ensures
        prng::weighted_sum(s + t, offset, s.len() / 4 + n) == prng::weighted_sum(
            s,
            offset,
            s.len() / 4,
        ) + prng::weighted_sum(t, offset + s.len() / 4, n),
    decreases n,
{
    let front = s.len() / 4;
    if n == 0 {
        lemma_weighted_sum_front(s, t, offset, front);
    } else {
        lemma_weighted_sum_back(s, t, offset, (n - 1) as nat);
        assert(bytes::word_at(s + t, front + n - 1) == bytes::word_at(t, n - 1));
    }
}

/// The checksum of a string of whole words followed by another is the sum of their
/// checksums, the second one taken at its word position: a tensor can be checked in blocks.
pub proof fn law_checksum_of_blocks(s: Seq<u8>, t: Seq<u8>, offset: nat)
    requires
        s.len() % 4 == 0,
    ensures
        prng::checksum_of(s + t, offset) == prng::checksum_of(s, offset).wrapping_add(
            prng::checksum_of(t, offset + s.len() / 4),
        ),
{
    reveal(prng::checksum_of);
    let front = s.len() / 4;
    let back = prng::words_in(t.len());
    assert(prng::words_in((s + t).len()) == front + back);
    assert(prng::words_in(s.len()) == front);
    lemma_weighted_sum_back(s, t, offset, back);
    let a = prng::weighted_sum(s, offset, front) as int;
    let b = prng::weighted_sum(t, offset + front, back) as int;
    lemma_add_mod_noop(a, b, 0x1_0000_0000);
}

/// An odd multiple vanishes modulo a power of two only if the number itself does.
proof fn lemma_odd_multiple(x: int, odd: int, n: nat)
    requires
        odd % 2 == 1,
        (x * odd) % (pow2(n) as int) == 0,
    ensures
        x % (pow2(n) as int) == 0,
    decreases n,
{
    lemma_pow2_pos(n);
    if n == 0 {
        lemma2_to64();
    } else {
        let half = pow2((n - 1) as nat) as int;
        lemma_pow2_unfold(n);
        lemma_pow2_pos((n - 1) as nat);
        let k = (x * odd) / (2 * half);
        lemma_fundamental_div_mod(x * odd, 2 * half);
        assert(x * odd == 2 * (half * k)) by (nonlinear_arith)
            requires
                x * odd == (2 * half) * k,
        ;
        let h = odd / 2;
        assert(x * odd == 2 * (x * h) + x) by (nonlinear_arith)
            requires
                odd == 2 * h + 1,
        ;
        let y = x / 2;
        assert(x == 2 * y);
        assert(y * odd == half * k) by (nonlinear_arith)
            requires
                x * odd == 2 * (half * k),
                x == 2 * y,
        ;
        lemma_mul_is_commutative(half, k);
        lemma_mod_multiples_basic(k, half);
        lemma_odd_multiple(y, odd, (n - 1) as nat);
        let c = y / half;
        lemma_fundamental_div_mod(y, half);
        assert(x == c * (2 * half)) by (nonlinear_arith)
            requires
                x == 2 * y,
                y == half * c,
        ;
        lemma_mod_multiples_basic(c, 2 * half);
    }
}

/// Two strings that agree in every word but one have sums that differ by that word's weight.
proof fn lemma_weighted_sum_one_word(s: Seq<u8>, t: Seq<u8>, offset: nat, k: nat, n: nat)
    requires
        forall|i: int| i != k ==> bytes::word_at(s, i) == #[trigger] bytes::word_at(t, i),
    ensures
        prng::weighted_sum(s, offset, n) - prng::weighted_sum(t, offset, n) == if k < n {
            (bytes::word_at(s, k as int) - bytes::word_at(t, k as int)) * (2 * (offset + k)
                + 1)
        } else {
            0
        },
    decreases n,
{
    if n > 0 {
        lemma_weighted_sum_one_word(s, t, offset, k, (n - 1) as nat);
        let i = (n - 1) as nat;
        let a = bytes::word_at(s, i as int) as int;
        let b = bytes::word_at(t, i as int) as int;
        let w = (2 * (offset + i) + 1) as int;
        assert(a * w - b * w == (a - b) * w) by (nonlinear_arith);
        if i != k {
            assert(bytes::word_at(s, i as int) == bytes::word_at(t, i as int));
        }
    }
}

/// A change to a single word always changes the checksum.
pub proof fn law_checksum_detects_a_changed_word(s: Seq<u8>, t: Seq<u8>, offset: nat, k: nat)
    requires
        s.len() == t.len(),
        k < prng::words_in(s.len()),
        bytes::word_at(s, k as int) != bytes::word_at(t, k as int),
        forall|i: int| i != k ==> bytes::word_at(s, i) == #[trigger] bytes::word_at(t, i),
    ensures
        prng::checksum_of(s, offset) != prng::checksum_of(t, offset),
{
    reveal(prng::checksum_of);
    let n = prng::words_in(s.len());
    let a = prng::weighted_sum(s, offset, n) as int;
    let b = prng::weighted_sum(t, offset, n) as int;
    lemma_weighted_sum_one_word(s, t, offset, k, n);
    if prng::checksum_of(s, offset) == prng::checksum_of(t, offset) {
        let m = 0x1_0000_0000int;
        let x = bytes::word_at(s, k as int) - bytes::word_at(t, k as int);
        let odd = (2 * (offset + k) + 1) as int;
        lemma_mod_equivalence(a, b, m);
        assert((x * odd) % m == 0);
        assert(pow2(32) == 0x1_0000_0000) by {
            lemma2_to64();
        }
        lemma_odd_multiple(x, odd, 32);
        assert(false);
    }
}

/// Widening a bfloat16 and rounding it again gives it back.
pub proof fn law_bf16_survives_widening(bits: u16)
    ensures
        prng::bf16_of(prng::widened(bits)) == bits,
{
    let w = prng::widened(bits) as nat;
    assert(w / 0x1_0000 == bits && w % 0x1_0000 == 0);
}

/// Distance between the values of two numbers, in units of the smallest subnormal.
pub open spec fn gap(a: u32, b: u32) -> int {
    let e = binary32::scaled(a) - binary32::scaled(b);
    if e < 0 {
        -e
    } else {
        e
    }
}

/// Rounding to bfloat16 rounds the encoding without its sign.
proof fn lemma_bf16_parts(bits: u32)
    requires
        binary32::finite(bits),
    ensures
        ({
            let k = binary32::nearest_even(binary32::payload(bits), 0x1_0000);
            let r = prng::widened(prng::bf16_of(bits));
            &&& binary32::payload(r) == k * 0x1_0000
            &&& binary32::is_negative(r) == binary32::is_negative(bits)
            &&& !binary32::nan(r)
            &&& prng::bf16_of(bits) % 2 == k % 2
        }),
{
    let p = binary32::payload(bits);
    let w = p / 0x1_0000;
    let rest = p % 0x1_0000;
    let sign: nat = if binary32::is_negative(bits) {
        0x8000
    } else {
        0
    };
    let k = binary32::nearest_even(p, 0x1_0000);
    assert(bits == sign * 0x1_0000 + p);
    assert(bits as nat / 0x1_0000 == sign + w && bits as nat % 0x1_0000 == rest);
    assert((sign + w) % 2 == w % 2);
    assert(k <= 0x7F80);
    assert(prng::bf16_of(bits) == sign + k);
}

/// Rounding to bfloat16 keeps the order of numbers.
pub proof fn law_bf16_keeps_order(a: u32, b: u32)
    requires
        binary32::finite(a),
        binary32::finite(b),
        binary32::at_most(a, b),
    ensures
        binary32::at_most(prng::widened(prng::bf16_of(a)), prng::widened(prng::bf16_of(b))),
{
    lemma_bf16_parts(a);
    lemma_bf16_parts(b);
}

/// Whether the distance from `lo` to `hi` is a number.
pub open spec fn exact_span(lo: u32, hi: u32) -> bool {
    &&& binary32::finite(lo)
    &&& binary32::finite(hi)
    &&& binary32::finite(binary32::difference_of(hi, lo))
    &&& binary32::scaled(binary32::difference_of(hi, lo)) == binary32::scaled(hi)
        - binary32::scaled(lo)
    &&& binary32::scaled(lo) <= binary32::scaled(hi)
}

/// The distance is a number if some encoding stands for it.
pub proof fn lemma_exact_span(lo: u32, hi: u32, p: nat)
    requires
        binary32::finite(lo),
        binary32::finite(hi),
        p < binary32::INFINITY,
        binary32::scaled(hi) - binary32::scaled(lo) == binary32::magnitude_of(p),
    ensures
        exact_span(lo, hi),
{
    reveal(binary32::sum_of);
    let back = binary32::negation_of(lo);
    assert(binary32::payload(back) == binary32::payload(lo));
    assert(binary32::scaled(back) == -binary32::scaled(lo));
    binary32_laws::law_rounding_keeps_encodable_numbers(p);
    assert(binary32::magnitude_of(0) == 0) by {
        assert(0 * pow2(0) == 0) by (nonlinear_arith);
    }
}

/// Where the distance from `lo` to `hi` is a number, the elements of a uniform tensor lie between
/// the two, and their bfloat16 between the bfloat16 of the two.
pub proof fn law_uniform_elements_lie_in_their_span(seed: u64, index: nat, lo: u32, hi: u32)
    requires
        exact_span(lo, hi),
    ensures
        ({
            let element = prng::uniform_of(seed, index, lo, hi);
            let short = prng::widened(prng::bf16_of(element));
            &&& binary32::finite(element)
            &&& binary32::at_most(lo, element)
            &&& binary32::at_most(element, hi)
            &&& binary32::at_most(prng::widened(prng::bf16_of(lo)), short)
            &&& binary32::at_most(short, prng::widened(prng::bf16_of(hi)))
        }),
{
    reveal(binary32::product_of);
    reveal(prng::uniform_of);
    let w = prng::word_of(seed, index as u64);
    let k = (w / 0x100_0000_0000) as nat;
    let u = prng::u01_of(w);
    let span = binary32::difference_of(hi, lo);
    let width = binary32::magnitude_of(binary32::payload(span));
    let share = binary32::product_of(span, u);
    binary32::lemma_fraction(k);
    assert(u == binary32::rounded(k * pow2(125), 1));
    assert(binary32::payload(u) == u);
    lemma_pow2_pos(149);
    lemma_pow2_adds(125, 24);
    assert(pow2(24) == 0x100_0000) by {
        lemma2_to64();
    }
    let z = pow2(125);
    assert(width * (k * z) <= width * (z * 0x100_0000)) by (nonlinear_arith)
        requires
            k <= 0x100_0000,
            z >= 0,
            width >= 0,
    ;
    let p = binary32::rounded(width * (k * z), pow2(149));
    binary32_laws::law_rounding_stays_below(width * (k * z), pow2(149), binary32::payload(span));
    assert(share == binary32::signed(binary32::is_negative(span), p));
    assert(binary32::payload(share) == p);
    assert(binary32::magnitude_of(p) <= width) by {
        if p < binary32::payload(span) {
            binary32_laws::lemma_magnitude_increases(p, binary32::payload(span));
        }
    }
    assert(binary32::scaled(span) >= 0);
    assert(binary32::magnitude_of(p) >= 0 && (width == 0 ==> binary32::magnitude_of(p) == 0));
    binary32_laws::law_sum_stays_between(lo, share, lo, hi);
    let element = prng::uniform_of(seed, index, lo, hi);
    law_bf16_keeps_order(lo, element);
    law_bf16_keeps_order(element, hi);
}

/// Rounding to bfloat16 yields a number nearest to the given one, wherever it does not overflow,
/// and of two equally near ones the one with an even encoding.
pub proof fn law_bf16_is_nearest(bits: u32, candidate: u16)
    requires
        binary32::finite(bits),
        binary32::finite(prng::widened(prng::bf16_of(bits))),
        binary32::finite(prng::widened(candidate)),
    ensures
        gap(bits, prng::widened(prng::bf16_of(bits))) <= gap(bits, prng::widened(candidate)),
        gap(bits, prng::widened(prng::bf16_of(bits))) == gap(bits, prng::widened(candidate))
            && binary32::scaled(prng::widened(prng::bf16_of(bits))) != binary32::scaled(
            prng::widened(candidate),
        ) ==> prng::bf16_of(bits) % 2 == 0,
{
    let p = binary32::payload(bits);
    let w = p / 0x1_0000;
    let rest = p % 0x1_0000;
    let k = binary32::nearest_even(p, 0x1_0000);
    let r = prng::widened(prng::bf16_of(bits));
    lemma_bf16_parts(bits);
    // between two bfloat16 neighbours the binary32 numbers are evenly spaced
    let low = w * 0x1_0000;
    let high = (w + 1) * 0x1_0000;
    let q = binary32::quantum_of(p);
    let z = pow2(q);
    lemma_pow2_pos(q);
    assert(low / 0x80_0000 == p / 0x80_0000);
    assert(binary32::quantum_of(low) == q);
    let m = binary32::significand_of(low);
    assert(binary32::significand_of(p) == m + rest);
    assert((m + rest) * z == m * z + rest * z) by (nonlinear_arith);
    assert(high == q * 0x80_0000 + (m + 0x1_0000));
    binary32_laws::lemma_encoded_magnitude(q, m + 0x1_0000);
    assert((m + 0x1_0000) * z == m * z + 0x1_0000 * z) by (nonlinear_arith);
    assert(rest <= 0x8000 ==> rest * z <= (0x1_0000 - rest) * z) by (nonlinear_arith)
        requires
            z > 0,
    ;
    assert(rest >= 0x8000 ==> rest * z >= (0x1_0000 - rest) * z) by (nonlinear_arith)
        requires
            z > 0,
    ;
    assert((0x1_0000 - rest) * z == 0x1_0000 * z - rest * z) by (nonlinear_arith);
    assert(rest * z == (0x1_0000 - rest) * z ==> rest == 0x8000) by (nonlinear_arith)
        requires
            z > 0,
    ;
    assert(0 <= rest * z <= 0x1_0000 * z) by (nonlinear_arith)
        requires
            0 <= rest <= 0x1_0000,
            z > 0,
    ;
    // every other bfloat16 lies outside the two neighbours
    let c = binary32::payload(prng::widened(candidate));
    assert(c % 0x1_0000 == 0);
    lemma_outside(c, low, high);
    lemma_outside(0, low, high);
    assert(binary32::magnitude_of(0) == 0) by {
        assert(0 * pow2(0) == 0) by (nonlinear_arith);
    }
}

/// A multiple of the bfloat16 step lies at or outside neighbouring ones, and so does its
/// magnitude.
proof fn lemma_outside(c: nat, low: nat, high: nat)
    requires
        c % 0x1_0000 == 0,
        low % 0x1_0000 == 0,
        high == low + 0x1_0000,
    ensures
        binary32::magnitude_of(c) <= binary32::magnitude_of(low) || binary32::magnitude_of(c)
            >= binary32::magnitude_of(high),
{
    if c < low {
        binary32_laws::lemma_magnitude_increases(c, low);
    } else if c > high {
        binary32_laws::lemma_magnitude_increases(high, c);
    }
}

/// An 8-bit float keeps to its exponent band, and has a sign only if asked to; within the
/// bands that are accepted it is never the NaN encoding.
pub proof fn law_f8_keeps_to_its_band(
    seed: u64,
    index: nat,
    exp_min: u8,
    exp_max: u8,
    signed: bool,
)
    requires
        exp_min <= exp_max <= 14,
    ensures
        exp_min <= prng::f8_of(seed, index, exp_min, exp_max, signed) / 8 % 16 <= exp_max,
        !signed ==> prng::f8_of(seed, index, exp_min, exp_max, signed) < 0x80,
        prng::f8_of(seed, index, exp_min, exp_max, signed) % 0x80 != 0x7F,
{
    let w = prng::word_of(seed, index as u64);
    let span = (exp_max - exp_min + 1) as int;
    lemma_mod_bound((w / 0x1_0000_0000) as int, span);
}

/// Each 4-bit float can be read back from its half of its byte.
pub proof fn law_f4_elements_are_packed_in_order(name: Seq<char>, count: nat, i: nat)
    requires
        count % 2 == 0,
        i < count,
    ensures
        ({
            let byte = prng::f4_nibbles_bytes(name, count)[i as int / 2];
            prng::f4_of(prng::seed_of(name), i) == if i % 2 == 0 {
                byte % 16
            } else {
                byte / 16
            }
        }),
{
    assert(2 * (i / 2) == if i % 2 == 0 {
        i as int
    } else {
        i - 1
    });
}

} // verus!
