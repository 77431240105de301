//! What each element of a synthesized tensor is.
//!
//! An element is a function of the word that its stream holds at its own index, and of nothing
//! else. The words of a stream are all different, and each gives its index away.
use crate::binary32;
use crate::binary32_laws;
use crate::bytes;
use crate::prng;
use crate::prng_laws;
use vstd::arithmetic::div_mod::*;
use vstd::arithmetic::power2::*;
use vstd::prelude::*;

verus! {

/// One step of the hash of a name.
pub open spec fn hashed(hash: u64, byte: u8) -> u64 {
    (((hash ^ byte as u64) * 0x100_0000_01B3) % 0x1_0000_0000_0000_0000) as u64
}

proof fn lemma_hash(s: Seq<u8>)
    ensures
        prng::fnv1a(s) == s.fold_left(
            0xCBF2_9CE4_8422_2325u64,
            |hash: u64, byte: u8| hashed(hash, byte),
        ),
    decreases s.len(),
{
    if s.len() > 0 {
        lemma_hash(s.drop_last());
    }
}

/// The seed of a tensor is folded from the UTF-8 bytes of its name, from the first to the last.
pub proof fn law_seeds_are_folded_from_the_name(name: Seq<char>)
    ensures
        prng::seed_of(name) == vstd::utf8::encode_utf8(name).fold_left(
            0xCBF2_9CE4_8422_2325u64,
            |hash: u64, byte: u8| hashed(hash, byte),
        ),
{
    lemma_hash(vstd::utf8::encode_utf8(name));
}

/// Undoes the last of the three steps that mix a counter.
pub open spec fn unmixed_last(w: u64) -> u64 {
    w ^ (w >> 31) ^ (w >> 62)
}

/// Undoes the second of the three steps that mix a counter.
pub open spec fn unmixed_second(w: u64) -> u64 {
    let y = ((w * 0x3196_42B2_D24D_8EC3) % 0x1_0000_0000_0000_0000) as u64;
    y ^ (y >> 27) ^ (y >> 54)
}

/// Undoes the first of the three steps that mix a counter.
pub open spec fn unmixed_first(w: u64) -> u64 {
    let y = ((w * 0x96DE_1B17_3F11_9089) % 0x1_0000_0000_0000_0000) as u64;
    y ^ (y >> 30) ^ (y >> 60)
}

/// A word gives its seed and its index away: undoing the mixing, step by step, yields the counter
/// that they make.
pub proof fn law_words_can_be_unmixed(seed: u64, index: u64)
    ensures
        unmixed_first(unmixed_second(unmixed_last(prng::word_of(seed, index)))) == ((seed ^ index)
            + 0x9E37_79B9_7F4A_7C15) % 0x1_0000_0000_0000_0000,
{
    let x = (seed ^ index).wrapping_add(0x9E37_79B9_7F4A_7C15u64);
    let a = x ^ (x >> 30);
    let first = prng::mix_first(x);
    let b = first ^ (first >> 27);
    let second = prng::mix_second(first);
    let w = second ^ (second >> 31);
    assert(w == prng::word_of(seed, index));
    assert((second ^ (second >> 31)) ^ ((second ^ (second >> 31)) >> 31) ^ ((second ^ (second
        >> 31)) >> 62) == second) by (bit_vector);
    assert((0x94D0_49BB_1331_11EBint * 0x3196_42B2_D24D_8EC3int) % 0x1_0000_0000_0000_0000int == 1);
    prng_laws::lemma_inverse(b, 0x94D0_49BB_1331_11EB, 0x3196_42B2_D24D_8EC3);
    assert((first ^ (first >> 27)) ^ ((first ^ (first >> 27)) >> 27) ^ ((first ^ (first >> 27))
        >> 54) == first) by (bit_vector);
    assert((0xBF58_476D_1CE4_E5B9int * 0x96DE_1B17_3F11_9089int) % 0x1_0000_0000_0000_0000int == 1);
    prng_laws::lemma_inverse(a, 0xBF58_476D_1CE4_E5B9, 0x96DE_1B17_3F11_9089);
    assert((x ^ (x >> 30)) ^ ((x ^ (x >> 30)) >> 30) ^ ((x ^ (x >> 30)) >> 60) == x)
        by (bit_vector);
}

/// The fraction that a word stands for is its top 24 bits over two to the power 24, exactly.
pub proof fn law_fractions_are_the_top_bits(w: u64)
    ensures
        binary32::finite(prng::u01_of(w)),
        !binary32::is_negative(prng::u01_of(w)),
        binary32::scaled(prng::u01_of(w)) == (w / 0x100_0000_0000) * pow2(125),
        binary32::scaled(prng::u01_of(w)) * 0x100_0000 == (w / 0x100_0000_0000) * pow2(149),
{
    let k = (w / 0x100_0000_0000) as nat;
    binary32::lemma_fraction(k);
    let u = prng::u01_of(w);
    assert(binary32::payload(u) == u);
    lemma_pow2_adds(125, 24);
    assert(pow2(24) == 0x100_0000) by {
        lemma2_to64();
    }
    let z = pow2(125);
    assert((k * z) * 0x100_0000 == k * (z * 0x100_0000)) by (nonlinear_arith);
}

/// The number `lo` plus `k` parts in two to the power 24 of `span`: the product is rounded, and
/// then the sum.
pub open spec fn part_way(lo: u32, span: u32, k: nat) -> u32 {
    let share = binary32::rounded(binary32_laws::extent(span) * (k * pow2(125)), pow2(149));
    let exact = binary32::scaled(lo) + if binary32::is_negative(span) {
        -(binary32::magnitude_of(share) as int)
    } else {
        binary32::magnitude_of(share) as int
    };
    binary32::signed(
        exact < 0 || exact == 0 && binary32::is_negative(lo) && binary32::is_negative(span),
        binary32::rounded(binary32_laws::size_of(exact), 1),
    )
}

/// Element `index` of a uniform tensor lies as far between its bounds as the top 24 bits of the
/// word at `index` say: it is `lo` plus that share of the distance to `hi`, rounded.
pub proof fn law_uniform_elements_follow_their_own_words(seed: u64, index: nat, lo: u32, hi: u32)
    requires
        binary32::finite(lo),
        binary32::finite(hi),
        binary32::finite(binary32::difference_of(hi, lo)),
        index < 0x1_0000_0000_0000_0000,
    ensures
        prng::uniform_of(seed, index, lo, hi) == part_way(
            lo,
            binary32::difference_of(hi, lo),
            (prng::word_of(seed, index as u64) / 0x100_0000_0000) as nat,
        ),
{
    reveal(prng::uniform_of);
    let w = prng::word_of(seed, index as u64);
    let k = (w / 0x100_0000_0000) as nat;
    let u = prng::u01_of(w);
    let span = binary32::difference_of(hi, lo);
    let width = binary32::magnitude_of(binary32::payload(span));
    let share = binary32::product_of(span, u);
    let z = pow2(125);
    let p = binary32::rounded(width * (k * z), pow2(149));
    law_fractions_are_the_top_bits(w);
    lemma_pow2_pos(149);
    lemma_pow2_adds(125, 24);
    assert(pow2(24) == 0x100_0000) by {
        lemma2_to64();
    }
    assert(width * (k * z) <= width * (z * 0x100_0000)) by (nonlinear_arith)
        requires
            k <= 0x100_0000,
            z >= 0,
            width >= 0,
    ;
    binary32_laws::law_rounding_stays_below(width * (k * z), pow2(149), binary32::payload(span));
    assert(share == binary32::signed(binary32::is_negative(span), p)) by {
        reveal(binary32::product_of);
    }
    assert(binary32_laws::extent(span) == width);
    lemma_sum(lo, share);
}

/// Where the distance between the bounds of a uniform tensor is infinite, so is each element that
/// is not drawn from a word with nothing in its top 24 bits; any other is a NaN, as are all where
/// there is no distance at all or the lower bound is infinite.
pub proof fn law_uniform_elements_without_a_span(seed: u64, index: nat, lo: u32, hi: u32)
    requires
        index < 0x1_0000_0000_0000_0000,
    ensures
        ({
            let element = prng::uniform_of(seed, index, lo, hi);
            let span = binary32::difference_of(hi, lo);
            let k = prng::word_of(seed, index as u64) / 0x100_0000_0000;
            &&& binary32::nan(span) || binary32::infinite(lo) ==> binary32::nan(element)
            &&& binary32::infinite(span) && binary32::finite(lo) && k > 0 ==> element == span
            &&& binary32::infinite(span) && k == 0 ==> binary32::nan(element)
        }),
{
    reveal(prng::uniform_of);
    reveal(binary32::product_of);
    reveal(binary32::sum_of);
    let w = prng::word_of(seed, index as u64);
    let k = (w / 0x100_0000_0000) as nat;
    let u = prng::u01_of(w);
    law_fractions_are_the_top_bits(w);
    assert(binary32::payload(u) == u);
    lemma_pow2_pos(125);
    let z = pow2(125);
    if k == 0 {
        assert(k * z == 0) by (nonlinear_arith)
            requires
                k == 0,
        ;
        if u > 0 {
            binary32_laws::lemma_magnitude_increases(0, u as nat);
        }
    } else {
        assert(k * z > 0) by (nonlinear_arith)
            requires
                k > 0,
                z > 0,
        ;
        assert(binary32::magnitude_of(0) == 0) by {
            assert(0 * pow2(0) == 0) by (nonlinear_arith);
        }
    }
    let back = binary32::negation_of(lo);
    assert(binary32::payload(back) == binary32::payload(lo));
}

/// The sum of two numbers by its size and its sign.
proof fn lemma_sum(a: u32, b: u32)
    requires
        binary32::finite(a),
        binary32::finite(b),
    ensures
        ({
            let exact = binary32::scaled(a) + binary32::scaled(b);
            binary32::sum_of(a, b) == binary32::signed(
                exact < 0 || exact == 0 && binary32::is_negative(a) && binary32::is_negative(b),
                binary32::rounded(binary32_laws::size_of(exact), 1),
            )
        }),
{
    reveal(binary32::sum_of);
    binary32_laws::lemma_rounded_nothing(1);
}

/// Rounding to bfloat16 adds just under half a step, or half a step to an odd number of steps,
/// and drops the lower half of the encoding.
pub proof fn law_bf16_rounds_half_to_even(bits: u32)
    ensures
        prng::bf16_of(bits) == ((bits + 0x7FFF + bits / 0x1_0000 % 2) % 0x1_0000_0000) / 0x1_0000,
        prng::widened(prng::bf16_of(bits)) % 0x1_0000 == 0,
        prng::widened(prng::bf16_of(bits)) / 0x1_0000 == prng::bf16_of(bits),
{
}

/// The two bytes of element `i`, the lower one first, spell `value`.
pub open spec fn holds16(b: Seq<u8>, i: int, value: u16) -> bool {
    2 * i + 1 < b.len() && b[2 * i] + 256 * b[2 * i + 1] == value
}

/// The four bytes of element `i`, the lowest first, spell `value`.
pub open spec fn holds32(b: Seq<u8>, i: int, value: u32) -> bool {
    4 * i + 3 < b.len() && b[4 * i] + 256 * b[4 * i + 1] + 65536 * b[4 * i + 2] + 16777216 * b[4
        * i + 3] == value
}

/// Element `i` of bfloat16 bytes is the one that a uniform tensor draws from the word `w`.
pub open spec fn uniform16(b: Seq<u8>, i: int, lo: u32, hi: u32, w: u64) -> bool {
    holds16(
        b,
        i,
        prng::bf16_of(
            part_way(lo, binary32::difference_of(hi, lo), (w / 0x100_0000_0000) as nat),
        ),
    )
}

/// Element `i` of binary32 bytes is the one that a uniform tensor draws from the word `w`.
pub open spec fn uniform32(b: Seq<u8>, i: int, lo: u32, hi: u32, w: u64) -> bool {
    holds32(b, i, part_way(lo, binary32::difference_of(hi, lo), (w / 0x100_0000_0000) as nat))
}

/// Element `i` of bfloat16 bytes is `scale` with the sign that the top bit of the word `w` says.
pub open spec fn sign16(b: Seq<u8>, i: int, scale: u32, w: u64) -> bool {
    holds16(
        b,
        i,
        (prng::bf16_of((scale % 0x8000_0000) as u32) + 0x8000 * (w / 0x8000_0000_0000_0000)) as u16,
    )
}

/// Byte `i` is the 8-bit float of the word `w`: its sign is the top bit of the word, if there are
/// signs, its mantissa the three bits from bit 56 on, and its exponent lies in the band where the
/// bits from bit 32 on say.
pub open spec fn banded8(b: Seq<u8>, i: int, low: u8, high: u8, signed: bool, w: u64) -> bool {
    &&& i < b.len()
    &&& b[i] / 128 == if signed {
        w / 0x8000_0000_0000_0000
    } else {
        0
    }
    &&& b[i] / 8 % 16 == low + (w / 0x1_0000_0000) as int % (high - low + 1)
    &&& b[i] % 8 == w / 0x100_0000_0000_0000 % 8
}

/// Element `i` of packed 4-bit floats is the top four bits of the word `w`; the elements of a byte
/// stand in it from the low half up.
pub open spec fn nibble(b: Seq<u8>, i: int, w: u64) -> bool {
    i / 2 < b.len() && w / 0x1000_0000_0000_0000 == if i % 2 == 0 {
        b[i / 2] % 16
    } else {
        b[i / 2] / 16
    }
}

pub proof fn lemma_holds16(s: Seq<u16>, i: int)
    requires
        0 <= i < s.len(),
    ensures
        holds16(bytes::all_le16(s), i, s[i]),
{
    bytes::law_bytes_of_u16_items(s, i);
}

pub proof fn lemma_holds32(s: Seq<u32>, i: int)
    requires
        0 <= i < s.len(),
    ensures
        holds32(bytes::all_le32(s), i, s[i]),
{
    bytes::law_bytes_of_u32_items(s, i);
    bytes::lemma_digits(s[i]);
}

/// Element `i` of the bytes of a uniform bfloat16 tensor from `offset` on is drawn from the word
/// at `offset + i`.
pub proof fn law_elements_of_bf16_uniform(
    name: Seq<char>,
    offset: nat,
    count: nat,
    lo: u32,
    hi: u32,
    i: nat,
)
    requires
        binary32::finite(lo),
        binary32::finite(hi),
        binary32::finite(binary32::difference_of(hi, lo)),
        i < count,
        offset + i < 0x1_0000_0000_0000_0000,
    ensures
        prng::bf16_uniform_bytes(name, offset, count, lo, hi).len() == 2 * count,
        uniform16(
            prng::bf16_uniform_bytes(name, offset, count, lo, hi),
            i as int,
            lo,
            hi,
            prng::word_of(prng::seed_of(name), (offset + i) as u64),
        ),
{
    law_uniform_elements_follow_their_own_words(prng::seed_of(name), offset + i, lo, hi);
    let s = Seq::new(
        count,
        |i: int|
            prng::bf16_of(prng::uniform_of(prng::seed_of(name), (offset + i) as nat, lo, hi)),
    );
    lemma_holds16(s, i as int);
}

/// Element `i` of the bytes of a uniform binary32 tensor is drawn from the word at `i`.
pub proof fn law_elements_of_f32_uniform(name: Seq<char>, count: nat, lo: u32, hi: u32, i: nat)
    requires
        binary32::finite(lo),
        binary32::finite(hi),
        binary32::finite(binary32::difference_of(hi, lo)),
        i < count,
        i < 0x1_0000_0000_0000_0000,
    ensures
        prng::f32_uniform_bytes(name, count, lo, hi).len() == 4 * count,
        uniform32(
            prng::f32_uniform_bytes(name, count, lo, hi),
            i as int,
            lo,
            hi,
            prng::word_of(prng::seed_of(name), i as u64),
        ),
{
    law_uniform_elements_follow_their_own_words(prng::seed_of(name), i, lo, hi);
    let s = Seq::new(count, |i: int| prng::uniform_of(prng::seed_of(name), i as nat, lo, hi));
    lemma_holds32(s, i as int);
}

/// Element `i` of the bytes of a tensor of one magnitude has its sign from the word at `i`. A
/// magnitude that rounds up to a set sign bit keeps it.
pub proof fn law_elements_of_bf16_signs(name: Seq<char>, count: nat, scale: u32, i: nat)
    requires
        i < count,
        i < 0x1_0000_0000_0000_0000,
    ensures
        prng::bf16_signs_bytes(name, count, scale).len() == 2 * count,
        scale % 0x8000_0000 < 0x7FFF_8000 ==> sign16(
            prng::bf16_signs_bytes(name, count, scale),
            i as int,
            scale,
            prng::word_of(prng::seed_of(name), i as u64),
        ),
        scale % 0x8000_0000 >= 0x7FFF_8000 ==> holds16(
            prng::bf16_signs_bytes(name, count, scale),
            i as int,
            0x8000,
        ),
{
    let s = Seq::new(count, |i: int| prng::sign_of(prng::seed_of(name), i as nat, scale));
    lemma_holds16(s, i as int);
    let magnitude = prng::bf16_of(binary32::absolute_of(scale));
    if scale % 0x8000_0000 < 0x7FFF_8000 {
        assert(magnitude < 0x8000);
        assert(magnitude | 0x8000 == magnitude + 0x8000) by (bit_vector)
            requires
                magnitude < 0x8000u16,
        ;
    } else {
        assert(magnitude == 0x8000);
        assert(0x8000u16 | 0x8000u16 == 0x8000u16) by (bit_vector);
    }
}

/// Byte `i` of a tensor of 8-bit floats is drawn from the word at `i`.
pub proof fn law_elements_of_f8_banded(
    name: Seq<char>,
    count: nat,
    low: u8,
    high: u8,
    signed: bool,
    i: nat,
)
    requires
        low <= high <= 14,
        i < count,
        i < 0x1_0000_0000_0000_0000,
    ensures
        prng::f8_banded_bytes(name, count, low, high, signed).len() == count,
        banded8(
            prng::f8_banded_bytes(name, count, low, high, signed),
            i as int,
            low,
            high,
            signed,
            prng::word_of(prng::seed_of(name), i as u64),
        ),
{
    let w = prng::word_of(prng::seed_of(name), i as u64);
    lemma_mod_bound((w / 0x1_0000_0000) as int, (high - low + 1) as int);
}

/// Element `i` of a tensor of 4-bit floats is drawn from the word at `i`.
pub proof fn law_elements_of_f4_nibbles(name: Seq<char>, count: nat, i: nat)
    requires
        count % 2 == 0,
        i < count,
        i < 0x1_0000_0000_0000_0000,
    ensures
        prng::f4_nibbles_bytes(name, count).len() == count / 2,
        nibble(
            prng::f4_nibbles_bytes(name, count),
            i as int,
            prng::word_of(prng::seed_of(name), i as u64),
        ),
{
    prng_laws::law_f4_elements_are_packed_in_order(name, count, i);
}

/// Element `i` of each kind of tensor of `count` elements called `name` is the one that the word
/// `w` gives.
pub open spec fn drawn(
    name: Seq<char>,
    count: nat,
    lo: u32,
    hi: u32,
    low: u8,
    high: u8,
    signed: bool,
    i: int,
    w: u64,
) -> bool {
    &&& uniform16(prng::bf16_uniform_bytes(name, 0, count, lo, hi), i, lo, hi, w)
    &&& uniform32(prng::f32_uniform_bytes(name, count, lo, hi), i, lo, hi, w)
    &&& sign16(prng::bf16_signs_bytes(name, count, hi), i, hi, w)
    &&& banded8(prng::f8_banded_bytes(name, count, low, high, signed), i, low, high, signed, w)
    &&& nibble(prng::f4_nibbles_bytes(name, count), i, w)
}

/// No two elements of a tensor, of whichever kind, draw the same word.
pub proof fn law_no_two_elements_draw_the_same_word(
    name: Seq<char>,
    count: nat,
    lo: u32,
    hi: u32,
    low: u8,
    high: u8,
    signed: bool,
    i: nat,
    j: nat,
)
    requires
        binary32::finite(lo),
        binary32::finite(hi),
        binary32::finite(binary32::difference_of(hi, lo)),
        low <= high <= 14,
        count % 2 == 0,
        i < count <= 0x1_0000_0000_0000_0000,
        j < count,
        i != j,
    ensures
        exists|w: u64, v: u64|
            #![trigger drawn(name, count, lo, hi, low, high, signed, i as int, w), drawn(
                name,
                count,
                lo,
                hi,
                low,
                high,
                signed,
                j as int,
                v,
            )]
            w != v && drawn(name, count, lo, hi, low, high, signed, i as int, w) && drawn(
                name,
                count,
                lo,
                hi,
                low,
                high,
                signed,
                j as int,
                v,
            ),
{
    lemma_drawn(name, count, lo, hi, low, high, signed, i);
    lemma_drawn(name, count, lo, hi, low, high, signed, j);
    prng_laws::law_words_of_a_stream_differ(prng::seed_of(name), i as u64, j as u64);
}

proof fn lemma_drawn(
    name: Seq<char>,
    count: nat,
    lo: u32,
    hi: u32,
    low: u8,
    high: u8,
    signed: bool,
    i: nat,
)
    requires
        binary32::finite(lo),
        binary32::finite(hi),
        binary32::finite(binary32::difference_of(hi, lo)),
        low <= high <= 14,
        count % 2 == 0,
        i < count <= 0x1_0000_0000_0000_0000,
    ensures
        drawn(
            name,
            count,
            lo,
            hi,
            low,
            high,
            signed,
            i as int,
            prng::word_of(prng::seed_of(name), i as u64),
        ),
{
    law_elements_of_bf16_uniform(name, 0, count, lo, hi, i);
    law_elements_of_f32_uniform(name, count, lo, hi, i);
    law_elements_of_bf16_signs(name, count, hi, i);
    law_elements_of_f8_banded(name, count, low, high, signed, i);
    law_elements_of_f4_nibbles(name, count, i);
}

/// A string of at most four bytes has for its checksum the number that they spell, weighted by one
/// more than twice its place. With the law of blocks this fixes the checksum of every string.
pub proof fn law_checksum_of_one_word(s: Seq<u8>, offset: nat)
    requires
        s.len() <= 4,
    ensures
        prng::checksum_of(s, offset) == (bytes::u32_at(s, 0) * (2 * offset + 1)) % 0x1_0000_0000,
        s.len() == 0 ==> prng::checksum_of(s, offset) == 0,
{
    reveal(prng::checksum_of);
    let v = bytes::u32_at(s, 0) as int;
    let weight = (2 * offset + 1) as int;
    if s.len() == 0 {
        assert(prng::words_in(0) == 0);
        assert(prng::weighted_sum(s, offset, 0) == 0);
        assert(v == 0);
        assert(v * weight == 0) by (nonlinear_arith)
            requires
                v == 0,
        ;
    } else {
        assert(prng::words_in(s.len()) == 1);
        assert(prng::weighted_sum(s, offset, 0) == 0);
        assert(prng::weighted_sum(s, offset, 1) == v * weight);
    }
}

} // verus!
