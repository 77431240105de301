//! Stateless synthesis of tensor bytes.
//!
//! Each element of a tensor is a hash of the tensor's name and the element's
//! index, so no element depends on any other and a slice of a tensor can be
//! made without the rest.
use crate::binary32;
use crate::bytes;
use vstd::prelude::*;

verus! {

const FNV_OFFSET: u64 = 0xCBF2_9CE4_8422_2325;

const FNV_PRIME: u64 = 0x0000_0100_0000_01B3;

const GOLDEN: u64 = 0x9E37_79B9_7F4A_7C15;

const MIX_A: u64 = 0xBF58_476D_1CE4_E5B9;

const MIX_B: u64 = 0x94D0_49BB_1331_11EB;

/// 64-bit FNV-1a hash of a byte string.
pub open spec fn fnv1a(s: Seq<u8>) -> u64
    decreases s.len(),
{
    if s.len() == 0 {
        0xCBF2_9CE4_8422_2325
    } else {
        (fnv1a(s.drop_last()) ^ s.last() as u64).wrapping_mul(0x0000_0100_0000_01B3)
    }
}

/// The seed of the tensor called `name`.
pub open spec fn seed_of(name: Seq<char>) -> u64 {
    fnv1a(vstd::utf8::encode_utf8(name))
}

/// First half of the mixing of a counter.
pub open spec fn mix_first(x: u64) -> u64 {
    (x ^ (x >> 30)).wrapping_mul(0xBF58_476D_1CE4_E5B9)
}

/// Second half of the mixing of a counter.
pub open spec fn mix_second(x: u64) -> u64 {
    (x ^ (x >> 27)).wrapping_mul(0x94D0_49BB_1331_11EB)
}

/// The random word at `index` of the stream of `seed`.
pub open spec fn word_of(seed: u64, index: u64) -> u64 {
    let x = mix_second(mix_first((seed ^ index).wrapping_add(0x9E37_79B9_7F4A_7C15)));
    x ^ (x >> 31)
}

/// The top 24 bits of `w` as a fraction of two to the power 24.
pub open spec fn u01_of(w: u64) -> u32 {
    binary32::rounded(
        (w / 0x100_0000_0000) as nat * vstd::arithmetic::power2::pow2(125),
        1,
    ) as u32
}

/// The bfloat16 nearest to a binary32 encoding, ties to even.
pub open spec fn bf16_of(bits: u32) -> u16 {
    (binary32::nearest_even(bits as nat, 0x1_0000) % 0x1_0000) as u16
}

/// The binary32 encoding of a bfloat16.
pub open spec fn widened(bits: u16) -> u32 {
    (bits * 0x1_0000) as u32
}

/// Element `index` of a uniform tensor between `lo` and `hi`.
#[verifier::opaque]
pub open spec fn uniform_of(seed: u64, index: nat, lo: u32, hi: u32) -> u32 {
    binary32::sum_of(
        lo,
        binary32::product_of(
            binary32::difference_of(hi, lo),
            u01_of(word_of(seed, index as u64)),
        ),
    )
}

/// Element `index` of a bfloat16 tensor of one magnitude and random signs.
pub open spec fn sign_of(seed: u64, index: nat, scale: u32) -> u16 {
    let magnitude = bf16_of(binary32::absolute_of(scale));
    if word_of(seed, index as u64) >= 0x8000_0000_0000_0000 {
        magnitude | 0x8000
    } else {
        magnitude
    }
}

/// Element `index` of an 8-bit float tensor with exponents from `exp_min` to `exp_max`:
/// sign, then four exponent bits, then three mantissa bits.
pub open spec fn f8_of(seed: u64, index: nat, exp_min: u8, exp_max: u8, signed: bool) -> u8 {
    let w = word_of(seed, index as u64);
    let exponent = exp_min + (w / 0x1_0000_0000) as int % (exp_max - exp_min + 1);
    let mantissa = (w / 0x100_0000_0000_0000) as int % 8;
    let sign: int = if signed && w >= 0x8000_0000_0000_0000 {
        1
    } else {
        0
    };
    (sign * 128 + exponent * 8 + mantissa) as u8
}

/// Element `index` of a 4-bit float tensor.
pub open spec fn f4_of(seed: u64, index: nat) -> u8 {
    (word_of(seed, index as u64) / 0x1000_0000_0000_0000) as u8
}

/// Bytes of `count` uniform bfloat16 elements from `offset` on.
pub open spec fn bf16_uniform_bytes(
    name: Seq<char>,
    offset: nat,
    count: nat,
    lo: u32,
    hi: u32,
) -> Seq<u8> {
    bytes::all_le16(
        Seq::new(count, |i: int| bf16_of(uniform_of(seed_of(name), (offset + i) as nat, lo, hi))),
    )
}

/// Bytes of `count` bfloat16 elements of one magnitude and random signs.
pub open spec fn bf16_signs_bytes(name: Seq<char>, count: nat, scale: u32) -> Seq<u8> {
    bytes::all_le16(Seq::new(count, |i: int| sign_of(seed_of(name), i as nat, scale)))
}

/// Bytes of `count` uniform binary32 elements.
pub open spec fn f32_uniform_bytes(name: Seq<char>, count: nat, lo: u32, hi: u32) -> Seq<u8> {
    bytes::all_le32(Seq::new(count, |i: int| uniform_of(seed_of(name), i as nat, lo, hi)))
}

/// Bytes of `count` 8-bit float elements.
pub open spec fn f8_banded_bytes(
    name: Seq<char>,
    count: nat,
    exp_min: u8,
    exp_max: u8,
    signed: bool,
) -> Seq<u8> {
    Seq::new(count, |i: int| f8_of(seed_of(name), i as nat, exp_min, exp_max, signed))
}

/// Bytes of `count` 4-bit float elements, two to a byte, the earlier in the low half.
pub open spec fn f4_nibbles_bytes(name: Seq<char>, count: nat) -> Seq<u8> {
    Seq::new(
        count / 2,
        |i: int|
            (f4_of(seed_of(name), (2 * i) as nat) + 16 * f4_of(
                seed_of(name),
                (2 * i + 1) as nat,
            )) as u8,
    )
}

/// Number of 32-bit words that cover `len` bytes.
pub open spec fn words_in(len: nat) -> nat {
    (len + 3) / 4
}

/// Sum of the first `n` words of `s`, word `k` weighted by `2 * (offset + k) + 1`.
pub open spec fn weighted_sum(s: Seq<u8>, offset: nat, n: nat) -> nat
    decreases n,
{
    if n == 0 {
        0
    } else {
        weighted_sum(s, offset, (n - 1) as nat) + bytes::word_at(s, n - 1) as nat * (2 * (
        offset + n - 1) + 1) as nat
    }
}

/// The checksum of `s` as the words from `offset` on of a longer string.
#[verifier::opaque]
pub open spec fn checksum_of(s: Seq<u8>, offset: nat) -> u32 {
    (weighted_sum(s, offset, words_in(s.len())) % 0x1_0000_0000) as u32
}

/// The seed of the tensor called `name`: the 64-bit FNV-1a hash of its UTF-8 bytes.
pub fn name_hash(name: &str) -> (r: u64)
    ensures
        r == seed_of(name@),
{
    let text = name.as_bytes();
    let mut hash: u64 = FNV_OFFSET;
    let mut i: usize = 0;
    while i < text.len()
        invariant
            i <= text.len(),
            hash == fnv1a(text@.take(i as int)),
        decreases text.len() - i,
    {
        assert(text@.take(i + 1).drop_last() =~= text@.take(i as int));
        hash = (hash ^ text[i] as u64).wrapping_mul(FNV_PRIME);
        i += 1;
    }
    assert(text@.take(text.len() as int) =~= text@);
    hash
}

/// The random word at `index` of the stream of `seed`.
pub fn word(seed: u64, index: usize) -> (r: u64)
    ensures
        r == word_of(seed, index as u64),
{
    let mut x: u64 = (seed ^ index as u64).wrapping_add(GOLDEN);
    x = (x ^ (x >> 30)).wrapping_mul(MIX_A);
    x = (x ^ (x >> 27)).wrapping_mul(MIX_B);
    x ^ (x >> 31)
}

/// The top 24 bits of `w` as a fraction of two to the power 24, exactly.
pub fn u01(w: u64) -> (r: u32)
    ensures
        r == u01_of(w),
        binary32::finite(r),
        binary32::scaled(r) == (w / 0x100_0000_0000) * vstd::arithmetic::power2::pow2(125),
{
    binary32::from_fraction(w / 0x100_0000_0000)
}

/// Rounds a binary32 encoding to the nearest bfloat16, ties to even.
pub fn f32_to_bf16_bits(bits: u32) -> (r: u16)
    ensures
        r == bf16_of(bits),
{
    let rounding: u32 = 0x7FFF + bits / 0x1_0000 % 2;
    (bits.wrapping_add(rounding) / 0x1_0000) as u16
}

/// The binary32 encoding of a bfloat16.
pub fn bf16_bits_to_f32(bits: u16) -> (r: u32)
    ensures
        r == widened(bits),
{
    bits as u32 * 0x1_0000
}

/// Element `index` of a uniform tensor between `lo` and `hi`.
fn uniform(seed: u64, index: usize, lo: u32, hi: u32) -> (r: u32)
    ensures
        r == uniform_of(seed, index as nat, lo, hi),
{
    proof {
        reveal(uniform_of);
    }
    let span = binary32::difference(hi, lo);
    binary32::sum(lo, binary32::multiply(span, u01(word(seed, index))))
}

/// Synthesizes `count` uniform bfloat16 elements between `lo` and `hi`.
pub fn bf16_uniform(name: &str, count: usize, lo: u32, hi: u32) -> (out: Vec<u8>)
    requires
        2 * count <= isize::MAX,
    ensures
        out@ == bf16_uniform_bytes(name@, 0, count as nat, lo, hi),
{
    bf16_uniform_range(name, 0, count, lo, hi)
}

/// Synthesizes `count` elements from `offset` on of a uniform bfloat16 tensor.
pub fn bf16_uniform_range(name: &str, offset: usize, count: usize, lo: u32, hi: u32) -> (out: Vec<
    u8,
>)
    requires
        2 * count <= isize::MAX,
        offset + count <= usize::MAX,
    ensures
        out@ == bf16_uniform_bytes(name@, offset as nat, count as nat, lo, hi),
{
    let seed = name_hash(name);
    let ghost value = |i: int| bf16_of(uniform_of(seed_of(name@), (offset + i) as nat, lo, hi));
    let mut out: Vec<u8> = Vec::with_capacity(count * 2);
    let mut i: usize = 0;
    assert(out@ =~= bytes::all_le16(Seq::new(0, value)));
    while i < count
        invariant
            i <= count,
            offset + count <= usize::MAX,
            seed == seed_of(name@),
            value == (|i: int|
                bf16_of(uniform_of(seed_of(name@), (offset + i) as nat, lo, hi))),
            out@ == bytes::all_le16(Seq::new(i as nat, value)),
        decreases count - i,
    {
        let element = f32_to_bf16_bits(uniform(seed, offset + i, lo, hi));
        proof {
            bytes::lemma_all_le16_push(Seq::new(i as nat, value), element);
            assert(Seq::new(i as nat, value).push(element) =~= Seq::new((i + 1) as nat, value));
        }
        bytes::push_u16(&mut out, element);
        i += 1;
    }
    out
}

/// Synthesizes `count` bfloat16 elements of magnitude `scale` and random signs.
pub fn bf16_signs(name: &str, count: usize, scale: u32) -> (out: Vec<u8>)
    requires
        2 * count <= isize::MAX,
    ensures
        out@ == bf16_signs_bytes(name@, count as nat, scale),
{
    let seed = name_hash(name);
    let magnitude = f32_to_bf16_bits(binary32::abs(scale));
    let ghost value = |i: int| sign_of(seed_of(name@), i as nat, scale);
    let mut out: Vec<u8> = Vec::with_capacity(count * 2);
    let mut i: usize = 0;
    assert(out@ =~= bytes::all_le16(Seq::new(0, value)));
    while i < count
        invariant
            i <= count,
            seed == seed_of(name@),
            magnitude == bf16_of(binary32::absolute_of(scale)),
            value == (|i: int| sign_of(seed_of(name@), i as nat, scale)),
            out@ == bytes::all_le16(Seq::new(i as nat, value)),
        decreases count - i,
    {
        let negative = word(seed, i) / 0x8000_0000_0000_0000 == 1;
        let element: u16 = if negative {
            magnitude | 0x8000
        } else {
            magnitude
        };
        proof {
            bytes::lemma_all_le16_push(Seq::new(i as nat, value), element);
            assert(Seq::new(i as nat, value).push(element) =~= Seq::new((i + 1) as nat, value));
        }
        bytes::push_u16(&mut out, element);
        i += 1;
    }
    out
}

/// Synthesizes `count` uniform binary32 elements between `lo` and `hi`.
pub fn f32_uniform(name: &str, count: usize, lo: u32, hi: u32) -> (out: Vec<u8>)
    requires
        4 * count <= isize::MAX,
    ensures
        out@ == f32_uniform_bytes(name@, count as nat, lo, hi),
{
    let seed = name_hash(name);
    let ghost value = |i: int| uniform_of(seed_of(name@), i as nat, lo, hi);
    let mut out: Vec<u8> = Vec::with_capacity(count * 4);
    let mut i: usize = 0;
    assert(out@ =~= bytes::all_le32(Seq::new(0, value)));
    while i < count
        invariant
            i <= count,
            seed == seed_of(name@),
            value == (|i: int| uniform_of(seed_of(name@), i as nat, lo, hi)),
            out@ == bytes::all_le32(Seq::new(i as nat, value)),
        decreases count - i,
    {
        let element = uniform(seed, i, lo, hi);
        proof {
            bytes::lemma_all_le32_push(Seq::new(i as nat, value), element);
            assert(Seq::new(i as nat, value).push(element) =~= Seq::new((i + 1) as nat, value));
        }
        bytes::push_u32(&mut out, element);
        i += 1;
    }
    out
}

/// Synthesizes `count` 8-bit floats with exponents from `exp_min` to `exp_max`, and random
/// signs if `signed`.
pub fn f8_banded(name: &str, count: usize, exp_min: u8, exp_max: u8, signed: bool) -> (out: Vec<u8>)
    requires
        exp_min <= exp_max <= 14,
        count <= isize::MAX,
    ensures
        out@ == f8_banded_bytes(name@, count as nat, exp_min, exp_max, signed),
{
    let seed = name_hash(name);
    let span: u64 = (exp_max - exp_min + 1) as u64;
    let mut out: Vec<u8> = Vec::with_capacity(count);
    let mut i: usize = 0;
    while i < count
        invariant
            i <= count,
            exp_min <= exp_max <= 14,
            span == exp_max - exp_min + 1,
            seed == seed_of(name@),
            out@ == f8_banded_bytes(name@, i as nat, exp_min, exp_max, signed),
        decreases count - i,
    {
        let w = word(seed, i);
        let exponent: u8 = exp_min + (w / 0x1_0000_0000 % span) as u8;
        let mantissa: u8 = (w / 0x100_0000_0000_0000 % 8) as u8;
        let sign: u8 = if signed {
            (w / 0x8000_0000_0000_0000) as u8
        } else {
            0
        };
        out.push(sign * 128 + exponent * 8 + mantissa);
        i += 1;
        assert(out@ =~= f8_banded_bytes(name@, i as nat, exp_min, exp_max, signed));
    }
    out
}

/// Synthesizes `count` 4-bit floats, two to a byte, the earlier in the low half.
pub fn f4_nibbles(name: &str, count: usize) -> (out: Vec<u8>)
    requires
        count % 2 == 0,
    ensures
        out@ == f4_nibbles_bytes(name@, count as nat),
{
    let seed = name_hash(name);
    let mut out: Vec<u8> = Vec::with_capacity(count / 2);
    let mut pair: usize = 0;
    while pair < count / 2
        invariant
            pair <= count / 2,
            seed == seed_of(name@),
            out@ == f4_nibbles_bytes(name@, (2 * pair) as nat),
        decreases count / 2 - pair,
    {
        let low: u8 = (word(seed, pair * 2) / 0x1000_0000_0000_0000) as u8;
        let high: u8 = (word(seed, pair * 2 + 1) / 0x1000_0000_0000_0000) as u8;
        out.push(low + 16 * high);
        pair += 1;
        assert(out@ =~= f4_nibbles_bytes(name@, (2 * pair) as nat));
    }
    out
}

/// Sum of the 32-bit words of `bytes`, each weighted by an odd number that counts the words
/// from `word_offset` on; a last partial word is padded with zeros.
pub fn checksum(bytes: &[u8], word_offset: usize) -> (r: u32)
    requires
        bytes.len() > 0 ==> word_offset + (bytes.len() - 1) / 4 <= usize::MAX,
    ensures
        r == checksum_of(bytes@, word_offset as nat),
{
    let blocks: usize = bytes.len() / 4 + (if bytes.len() % 4 != 0 {
        1usize
    } else {
        0
    });
    let mut total: u32 = 0;
    let mut block: usize = 0;
    while block < blocks
        invariant
            block <= blocks,
            blocks == words_in(bytes.len() as nat),
            bytes.len() > 0 ==> word_offset + (bytes.len() - 1) / 4 <= usize::MAX,
            total == weighted_sum(bytes@, word_offset as nat, block as nat) % 0x1_0000_0000,
        decreases blocks - block,
    {
        let index: u32 = ((word_offset + block) as u64 % 0x1_0000_0000) as u32;
        let item = bytes::get_u32(bytes, block * 4);
        let term: u32 = item.wrapping_mul(index.wrapping_mul(2).wrapping_add(1));
        proof {
            lemma_next_term(bytes@, word_offset as nat, block as nat, total, index, item, term);
        }
        total = total.wrapping_add(term);
        block += 1;
    }
    proof {
        reveal(checksum_of);
    }
    total
}

/// Adding the next word in 32-bit arithmetic keeps the low 32 bits of the sum.
proof fn lemma_next_term(
    s: Seq<u8>,
    offset: nat,
    n: nat,
    total: u32,
    index: u32,
    item: u32,
    term: u32,
)
    requires
        total == weighted_sum(s, offset, n) % 0x1_0000_0000,
        index == (offset + n) % 0x1_0000_0000,
        item == bytes::word_at(s, n as int),
        term == item.wrapping_mul(index.wrapping_mul(2).wrapping_add(1)),
    ensures
        total.wrapping_add(term) == weighted_sum(s, offset, n + 1) % 0x1_0000_0000,
{
    let at = (offset + n) as int;
    let before = weighted_sum(s, offset, n) as int;
    lemma_term(item as int, at);
    let addend = item * (2 * at + 1);
    assert(term == addend % 0x1_0000_0000);
    assert(weighted_sum(s, offset, n + 1) == before + addend);
    vstd::arithmetic::div_mod::lemma_add_mod_noop(before, addend, 0x1_0000_0000);
}

/// Weighting a word in 32-bit arithmetic is weighting it and keeping 32 bits.
proof fn lemma_term(item: int, at: int)
    requires
        0 <= item,
        0 <= at,
    ensures
        (item * ((((at % 0x1_0000_0000) * 2) % 0x1_0000_0000 + 1) % 0x1_0000_0000)) % 0x1_0000_0000
            == (item * (2 * at + 1)) % 0x1_0000_0000,
{
    let weight = (((at % 0x1_0000_0000) * 2) % 0x1_0000_0000 + 1) % 0x1_0000_0000;
    assert(weight == (2 * at + 1) % 0x1_0000_0000);
    vstd::arithmetic::div_mod::lemma_mul_mod_noop_right(item, 2 * at + 1, 0x1_0000_0000);
}

} // verus!
