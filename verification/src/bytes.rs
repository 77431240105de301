//! Little-endian byte strings.
use vstd::prelude::*;

verus! {

/// The two bytes of `v`, lowest first.
pub open spec fn le16(v: u16) -> Seq<u8> {
    seq![(v % 256) as u8, (v / 256) as u8]
}

/// The four bytes of `v`, lowest first.
pub open spec fn le32(v: u32) -> Seq<u8> {
    seq![
        (v % 0x100) as u8,
        (v / 0x100 % 0x100) as u8,
        (v / 0x1_0000 % 0x100) as u8,
        (v / 0x100_0000) as u8,
    ]
}

/// The bytes of each item of `s` in turn.
pub open spec fn all_le16(s: Seq<u16>) -> Seq<u8> {
    Seq::new(2 * s.len(), |i: int| le16(s[i / 2])[i % 2])
}

/// The bytes of each item of `s` in turn.
pub open spec fn all_le32(s: Seq<u32>) -> Seq<u8> {
    Seq::new(4 * s.len(), |i: int| le32(s[i / 4])[i % 4])
}

/// Byte `i`, or zero past the end.
pub open spec fn byte_at(s: Seq<u8>, i: int) -> u8 {
    if 0 <= i < s.len() {
        s[i]
    } else {
        0
    }
}

/// The number that the four bytes from `i` on spell, lowest first; bytes past the end are zero.
pub open spec fn u32_at(s: Seq<u8>, i: int) -> u32 {
    (byte_at(s, i) + 0x100 * byte_at(s, i + 1) + 0x1_0000 * byte_at(s, i + 2) + 0x100_0000
        * byte_at(s, i + 3)) as u32
}

/// Word `k` of a string of 32-bit words.
pub open spec fn word_at(s: Seq<u8>, k: int) -> u32 {
    u32_at(s, 4 * k)
}

/// The number that the two bytes from `i` on spell, lowest first; bytes past the end are zero.
pub open spec fn u16_at(s: Seq<u8>, i: int) -> u16 {
    (byte_at(s, i) + 0x100 * byte_at(s, i + 1)) as u16
}

/// Appending an item appends its bytes.
pub proof fn lemma_all_le16_push(s: Seq<u16>, v: u16)
    ensures
        all_le16(s.push(v)) == all_le16(s) + le16(v),
{
    assert(all_le16(s.push(v)) =~= all_le16(s) + le16(v));
}

/// Appending an item appends its bytes.
pub proof fn lemma_all_le32_push(s: Seq<u32>, v: u32)
    ensures
        all_le32(s.push(v)) == all_le32(s) + le32(v),
{
    assert(all_le32(s.push(v)) =~= all_le32(s) + le32(v));
}

/// Reading an item back from the bytes that were written.
pub proof fn law_u16_read_back(s: Seq<u16>, k: int)
    requires
        0 <= k < s.len(),
    ensures
        u16_at(all_le16(s), 2 * k) == s[k],
{
    let b = all_le16(s);
    assert(b[2 * k] == le16(s[k])[0]);
    assert((2 * k + 1) / 2 == k);
    assert(b[2 * k + 1] == le16(s[k])[1]);
}

/// Reading an item back from the bytes that were written.
pub proof fn law_u32_read_back(s: Seq<u32>, k: int)
    requires
        0 <= k < s.len(),
    ensures
        u32_at(all_le32(s), 4 * k) == s[k],
{
    let b = all_le32(s);
    assert(b[4 * k] == le32(s[k])[0]);
    assert((4 * k + 1) / 4 == k && (4 * k + 2) / 4 == k && (4 * k + 3) / 4 == k);
    assert(b[4 * k + 1] == le32(s[k])[1]);
    assert(b[4 * k + 2] == le32(s[k])[2]);
    assert(b[4 * k + 3] == le32(s[k])[3]);
}

/// Each item of a string of 16-bit items takes two bytes: what is left of it modulo 256, and how
/// often it holds 256.
pub proof fn law_bytes_of_u16_items(s: Seq<u16>, k: int)
    requires
        0 <= k < s.len(),
    ensures
        all_le16(s).len() == 2 * s.len(),
        all_le16(s)[2 * k] == s[k] % 256,
        all_le16(s)[2 * k + 1] == s[k] / 256,
{
    assert((2 * k + 1) / 2 == k);
}

/// A number is the sum of its digits to the base 256, each weighted by its place.
pub proof fn lemma_digits(v: u32)
    ensures
        v == v % 256 + 256 * (v / 256 % 256) + 65536 * (v / 65536 % 256) + 16777216 * (v
            / 16777216),
{
    let a = v as int / 256;
    let b = a / 256;
    let c = b / 256;
    assert(v as int / 65536 == b);
    assert(v as int / 16777216 == c);
    assert(v == 256 * a + v as int % 256);
    assert(a == 256 * b + a % 256);
    assert(b == 256 * c + b % 256);
}

/// Each item of a string of 32-bit items takes four bytes, its digits to the base 256 from the
/// lowest to the highest.
pub proof fn law_bytes_of_u32_items(s: Seq<u32>, k: int)
    requires
        0 <= k < s.len(),
    ensures
        all_le32(s).len() == 4 * s.len(),
        all_le32(s)[4 * k] == s[k] % 256,
        all_le32(s)[4 * k + 1] == s[k] / 256 % 256,
        all_le32(s)[4 * k + 2] == s[k] / 65536 % 256,
        all_le32(s)[4 * k + 3] == s[k] / 16777216,
{
    assert((4 * k + 1) / 4 == k && (4 * k + 2) / 4 == k && (4 * k + 3) / 4 == k);
}

/// A number is read as the sum of its bytes, each weighted by its place; a byte that is not there
/// counts as zero.
pub proof fn law_numbers_are_read_lowest_byte_first(s: Seq<u8>, i: int)
    requires
        0 <= i,
    ensures
        i + 2 <= s.len() ==> u16_at(s, i) == s[i] + 256 * s[i + 1],
        i + 4 <= s.len() ==> u32_at(s, i) == s[i] + 256 * s[i + 1] + 65536 * s[i + 2] + 16777216
            * s[i + 3],
        i + 3 == s.len() ==> u32_at(s, i) == s[i] + 256 * s[i + 1] + 65536 * s[i + 2],
        i + 2 == s.len() ==> u32_at(s, i) == s[i] + 256 * s[i + 1],
        i + 1 == s.len() ==> u32_at(s, i) == s[i] && u16_at(s, i) == s[i],
        i >= s.len() ==> u32_at(s, i) == 0 && u16_at(s, i) == 0,
{
}

/// Appends the two bytes of `value`, lowest first.
pub fn push_u16(out: &mut Vec<u8>, value: u16)
    ensures
        final(out)@ == old(out)@ + le16(value),
{
    out.push((value % 256) as u8);
    out.push((value / 256) as u8);
    assert(out@ =~= old(out)@ + le16(value));
}

/// Appends the four bytes of `value`, lowest first.
pub fn push_u32(out: &mut Vec<u8>, value: u32)
    ensures
        final(out)@ == old(out)@ + le32(value),
{
    out.push((value % 0x100) as u8);
    out.push((value / 0x100 % 0x100) as u8);
    out.push((value / 0x1_0000 % 0x100) as u8);
    out.push((value / 0x100_0000) as u8);
    assert(out@ =~= old(out)@ + le32(value));
}

/// The bytes of each item of `values` in turn.
pub fn concat_u32(values: &[u32]) -> (out: Vec<u8>)
    ensures
        out@ == all_le32(values@),
{
    let mut out: Vec<u8> = Vec::new();
    let mut i: usize = 0;
    assert(out@ =~= all_le32(values@.take(0)));
    while i < values.len()
        invariant
            i <= values.len(),
            out@ == all_le32(values@.take(i as int)),
        decreases values.len() - i,
    {
        proof {
            lemma_all_le32_push(values@.take(i as int), values@[i as int]);
            assert(values@.take(i as int).push(values@[i as int]) =~= values@.take(i + 1));
        }
        push_u32(&mut out, values[i]);
        i += 1;
    }
    assert(values@.take(values.len() as int) =~= values@);
    out
}

/// The byte `k` places after `i`, or zero past the end.
fn get_byte(bytes: &[u8], i: usize, k: usize) -> (r: u8)
    requires
        i <= bytes.len(),
    ensures
        r == byte_at(bytes@, i + k),
{
    if k < bytes.len() - i {
        bytes[i + k]
    } else {
        0
    }
}

/// The number that the four bytes from `i` on spell.
pub fn get_u32(bytes: &[u8], i: usize) -> (r: u32)
    requires
        i <= bytes.len(),
    ensures
        r == u32_at(bytes@, i as int),
{
    get_byte(bytes, i, 0) as u32 + 0x100 * get_byte(bytes, i, 1) as u32 + 0x1_0000 * get_byte(
        bytes,
        i,
        2,
    ) as u32 + 0x100_0000 * get_byte(bytes, i, 3) as u32
}

/// The number that the two bytes from `i` on spell.
pub fn get_u16(bytes: &[u8], i: usize) -> (r: u16)
    requires
        i <= bytes.len(),
    ensures
        r == u16_at(bytes@, i as int),
{
    get_byte(bytes, i, 0) as u16 + 0x100 * get_byte(bytes, i, 1) as u16
}

} // verus!
