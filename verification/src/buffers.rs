//! What the bytes of each kind of input are, element by element, and when an input is refused.
use crate::binary32;
use crate::bytes;
use crate::elements;
use crate::fixture::FixtureView;
use crate::fixture_laws;
use crate::logits;
use crate::prng;
use crate::rope;
use crate::shims;
use crate::stage;
use crate::stage::{Buffer, Steps};
use crate::synth;
use crate::synth::{Refusal, RefusalView, Verdict};
use crate::synth_laws;
use crate::text;
use vstd::prelude::*;

verus! {

/// The word at `i` of the stream of an input.
pub open spec fn word(test: Seq<char>, name: Seq<char>, i: int) -> u64 {
    prng::word_of(prng::seed_of(test + "."@ + name), i as u64)
}

/// Each of the `count` bfloat16 elements is drawn from the word at its own index, uniformly
/// between `lo` and `hi`.
#[verifier::opaque]
pub open spec fn all_uniform16(
    b: Seq<u8>,
    test: Seq<char>,
    name: Seq<char>,
    count: int,
    lo: u32,
    hi: u32,
) -> bool {
    &&& b.len() == 2 * count
    &&& forall|i: int|
        0 <= i < count && i < 0x1_0000_0000_0000_0000 ==> #[trigger] elements::uniform16(
            b,
            i,
            lo,
            hi,
            word(test, name, i),
        )
}

/// Each of the `count` binary32 elements is drawn from the word at its own index, uniformly
/// between `lo` and `hi`.
#[verifier::opaque]
pub open spec fn all_uniform32(
    b: Seq<u8>,
    test: Seq<char>,
    name: Seq<char>,
    count: int,
    lo: u32,
    hi: u32,
) -> bool {
    &&& b.len() == 4 * count
    &&& forall|i: int|
        0 <= i < count && i < 0x1_0000_0000_0000_0000 ==> #[trigger] elements::uniform32(
            b,
            i,
            lo,
            hi,
            word(test, name, i),
        )
}

/// Each of the `count` bfloat16 elements is `scale` with the sign that the word at its own index
/// says.
#[verifier::opaque]
pub open spec fn all_signs16(
    b: Seq<u8>,
    test: Seq<char>,
    name: Seq<char>,
    count: int,
    scale: u32,
) -> bool {
    &&& b.len() == 2 * count
    &&& forall|i: int|
        0 <= i < count && i < 0x1_0000_0000_0000_0000 ==> #[trigger] elements::sign16(
            b,
            i,
            scale,
            word(test, name, i),
        )
}

/// Each of the `count` 8-bit floats is drawn from the word at its own index.
#[verifier::opaque]
pub open spec fn all_banded8(
    b: Seq<u8>,
    test: Seq<char>,
    name: Seq<char>,
    count: int,
    low: u8,
    high: u8,
    signed: bool,
) -> bool {
    &&& b.len() == count
    &&& forall|i: int|
        0 <= i < count && i < 0x1_0000_0000_0000_0000 ==> #[trigger] elements::banded8(
            b,
            i,
            low,
            high,
            signed,
            word(test, name, i),
        )
}

/// Each of the `count` 4-bit floats, two to a byte, is drawn from the word at its own index.
#[verifier::opaque]
pub open spec fn all_nibbles(b: Seq<u8>, test: Seq<char>, name: Seq<char>, count: int) -> bool {
    &&& 2 * b.len() == count
    &&& forall|i: int|
        0 <= i < count && i < 0x1_0000_0000_0000_0000 ==> #[trigger] elements::nibble(
            b,
            i,
            word(test, name, i),
        )
}

/// Each bfloat16 element is that nearest to the value of the same index.
#[verifier::opaque]
pub open spec fn all_values16(b: Seq<u8>, values: spec_fn(int) -> u32, count: int) -> bool {
    &&& b.len() == 2 * count
    &&& forall|i: int|
        0 <= i < count ==> #[trigger] elements::holds16(b, i, prng::bf16_of(values(i)))
}

/// Each binary32 element is the value of the same index.
#[verifier::opaque]
pub open spec fn all_values32(b: Seq<u8>, values: spec_fn(int) -> u32, count: int) -> bool {
    &&& b.len() == 4 * count
    &&& forall|i: int| 0 <= i < count ==> #[trigger] elements::holds32(b, i, values(i))
}

/// A mask of `count` binary32 elements: one in the first `valid` places, and zero after.
#[verifier::opaque]
pub open spec fn masks(b: Seq<u8>, count: int, valid: int) -> bool {
    &&& b.len() == 4 * count
    &&& forall|i: int|
        0 <= i < count && i < valid ==> #[trigger] elements::holds32(b, i, 0x3F80_0000)
    &&& forall|i: int| 0 <= i < count && valid <= i ==> #[trigger] elements::holds32(b, i, 0)
}

/// Nothing but `len` zeros.
#[verifier::opaque]
pub open spec fn blank(b: Seq<u8>, len: int) -> bool {
    b.len() == len && forall|i: int| 0 <= i < len ==> #[trigger] b[i] == 0
}

/// The bytes from `from` to `to` of `b`.
pub open spec fn part(b: Seq<u8>, from: int, to: int) -> Seq<u8> {
    b.subrange(from, to)
}

/// A table of `total` bytes that are zero but for those from `from` to `to`.
#[verifier::opaque]
pub open spec fn blank_but(b: Seq<u8>, total: int, from: int, to: int) -> bool {
    &&& 0 <= from <= to <= total
    &&& b.len() == total
    &&& forall|i: int| 0 <= i < total && !(from <= i < to) ==> #[trigger] b[i] == 0
}

/// Each bfloat16 element is a sign over a weight, the sign drawn from one stream of the test and
/// the weight, between 0.75 and 1.25, from another.
#[verifier::opaque]
pub open spec fn all_signs_over_weights(b: Seq<u8>, test: Seq<char>, count: int) -> bool {
    &&& b.len() == 2 * count
    &&& forall|i: int|
        0 <= i < count && i < 0x1_0000_0000_0000_0000 ==> elements::holds16(
            b,
            i,
            prng::bf16_of(
                #[trigger] sign_over_weight(
                    word(test, "x_signs"@, i),
                    word(test, "input_rms_weight"@, i),
                ),
            ),
        )
}

/// One, with the sign that the word `sign` says, over the weight that the word `weight` draws.
pub open spec fn sign_over_weight(sign: u64, weight: u64) -> u32 {
    let above = (0x3F80_0000 + 0x8000_0000 * (sign / 0x8000_0000_0000_0000)) as u32;
    let below = prng::bf16_of(
        elements::part_way(
            0x3F40_0000,
            binary32::difference_of(0x3FA0_0000, 0x3F40_0000),
            (weight / 0x100_0000_0000) as nat,
        ),
    );
    binary32::quotient_of(above, (below * 0x1_0000) as u32)
}

/// The fixture records this checksum of an input of a test.
pub open spec fn recorded(f: FixtureView, test: Seq<char>, name: Seq<char>, sum: u32) -> bool {
    let key = test + ".check."@ + name;
    f.checksums.contains_key(key) && f.checksums[key] == sum
}

/// The fixture does not record this checksum of an input of a test, and the refusal says so.
pub open spec fn disputed(
    f: FixtureView,
    test: Seq<char>,
    name: Seq<char>,
    sum: u32,
    refusal: RefusalView,
) -> bool {
    let key = test + ".check."@ + name;
    if f.checksums.contains_key(key) {
        f.checksums[key] != sum && refusal == (RefusalView::Diverged {
            input: test + "."@ + name,
            actual: sum,
            expected: f.checksums[key],
        })
    } else {
        refusal == (RefusalView::NoChecksum { key })
    }
}

/// The refusal is about the recorded checksum of an input of the test.
pub open spec fn refused(f: FixtureView, test: Seq<char>, refusal: RefusalView) -> bool {
    exists|name: Seq<char>, sum: u32| #[trigger] disputed(f, test, name, sum, refusal)
}

/// Joining two parts of a name.
proof fn lemma_joined(test: Seq<char>, name: Seq<char>)
    ensures
        text::joined(test, name) == test + "."@ + name,
{
    reveal_strlit(".");
    assert(text::joined(test, name) =~= test + "."@ + name);
}

/// An input is handed on if and only if the fixture records its checksum, and the refusal of one
/// that is not names the checksum that is missing, or both that differ.
pub proof fn law_inputs_are_held_against_the_fixture(
    f: FixtureView,
    test: Seq<char>,
    name: Seq<char>,
    sum: u32,
    storage: Seq<u8>,
)
    ensures
        match synth::unless_objected(f, test, name, sum, storage) {
            Ok(b) => b == storage && recorded(f, test, name, sum),
            Err(refusal) => disputed(f, test, name, sum, refusal) && refused(f, test, refusal),
        },
{
    lemma_joined(test, name);
    fixture_laws::law_checksums_are_named_after_test_and_input(test, name);
    if let Err(refusal) = synth::unless_objected(f, test, name, sum, storage) {
        assert(disputed(f, test, name, sum, refusal));
    }
}

/// What is refused is refused for its checksum.
pub open spec fn sound(f: FixtureView, test: Seq<char>, v: Verdict) -> bool {
    v matches Err(refusal) ==> refused(f, test, refusal)
}

/// The distance between the bounds of a uniform tensor is a number.
pub open spec fn bounded(lo: u32, hi: u32) -> bool {
    &&& binary32::finite(lo)
    &&& binary32::finite(hi)
    &&& binary32::finite(binary32::difference_of(hi, lo))
}

/// The spans of the inputs of the kernels: from zero to one, from zero to 0.001, half a unit
/// around zero, from 0.75 to 1.25, and from two to four.
pub proof fn lemma_spans()
    ensures
        bounded(0, 0x3F80_0000),
        bounded(0, 0x3A83_126F),
        bounded(0xBF00_0000, 0x3F00_0000),
        bounded(0x3F40_0000, 0x3FA0_0000),
        bounded(0x4000_0000, 0x4080_0000),
{
    synth_laws::law_spans_of_inputs_are_exact();
}

proof fn lemma_uniform16(test: Seq<char>, name: Seq<char>, count: nat, lo: u32, hi: u32)
    requires
        bounded(lo, hi),
    ensures
        all_uniform16(
            prng::bf16_uniform_bytes(text::joined(test, name), 0, count, lo, hi),
            test,
            name,
            count as int,
            lo,
            hi,
        ),
{
    reveal(all_uniform16);
    lemma_joined(test, name);
    let b = prng::bf16_uniform_bytes(text::joined(test, name), 0, count, lo, hi);
    assert forall|i: int| 0 <= i < count && i < 0x1_0000_0000_0000_0000 implies #[trigger]
        elements::uniform16(b, i, lo, hi, word(test, name, i)) by {
        elements::law_elements_of_bf16_uniform(
            text::joined(test, name),
            0,
            count,
            lo,
            hi,
            i as nat,
        );
    }
}

proof fn lemma_signs16(test: Seq<char>, name: Seq<char>, count: nat, scale: u32)
    requires
        binary32::finite(scale),
    ensures
        all_signs16(
            prng::bf16_signs_bytes(text::joined(test, name), count, scale),
            test,
            name,
            count as int,
            scale,
        ),
{
    reveal(all_signs16);
    lemma_joined(test, name);
    let b = prng::bf16_signs_bytes(text::joined(test, name), count, scale);
    assert forall|i: int| 0 <= i < count && i < 0x1_0000_0000_0000_0000 implies #[trigger]
        elements::sign16(b, i, scale, word(test, name, i)) by {
        elements::law_elements_of_bf16_signs(text::joined(test, name), count, scale, i as nat);
    }
}

/// A uniform bfloat16 input is refused for its checksum, or holds as many elements as it should,
/// each drawn from the word at its own index, and the fixture records its checksum.
pub proof fn law_uniform_inputs(
    f: FixtureView,
    test: Seq<char>,
    name: Seq<char>,
    count: nat,
    lo: u32,
    hi: u32,
)
    requires
        bounded(lo, hi),
    ensures
        match synth::bf16_input(f, test, name, count, lo, hi) {
            Ok(b) => all_uniform16(b, test, name, count as int, lo, hi) && recorded(
                f,
                test,
                name,
                prng::checksum_of(b, 0),
            ),
            Err(refusal) => {
                &&& refused(f, test, refusal)
                &&& exists|b: Seq<u8>| #[trigger]
                    all_uniform16(b, test, name, count as int, lo, hi) && disputed(
                        f,
                        test,
                        name,
                        prng::checksum_of(b, 0),
                        refusal,
                    )
            },
        },
{
    reveal(synth::bf16_input);
    let b = prng::bf16_uniform_bytes(text::joined(test, name), 0, count, lo, hi);
    law_inputs_are_held_against_the_fixture(f, test, name, prng::checksum_of(b, 0), b);
    lemma_uniform16(test, name, count, lo, hi);
}

/// A uniform binary32 input is refused for its checksum, or holds as many elements as it should,
/// each drawn from the word at its own index, and the fixture records its checksum.
pub proof fn law_uniform_binary32_inputs(
    f: FixtureView,
    test: Seq<char>,
    name: Seq<char>,
    count: nat,
    lo: u32,
    hi: u32,
)
    requires
        bounded(lo, hi),
    ensures
        match synth::float32_input(f, test, name, count, lo, hi) {
            Ok(b) => all_uniform32(b, test, name, count as int, lo, hi) && recorded(
                f,
                test,
                name,
                prng::checksum_of(b, 0),
            ),
            Err(refusal) => {
                &&& refused(f, test, refusal)
                &&& exists|b: Seq<u8>| #[trigger]
                    all_uniform32(b, test, name, count as int, lo, hi) && disputed(
                        f,
                        test,
                        name,
                        prng::checksum_of(b, 0),
                        refusal,
                    )
            },
        },
{
    reveal(synth::float32_input);
    reveal(all_uniform32);
    lemma_joined(test, name);
    let b = prng::f32_uniform_bytes(text::joined(test, name), count, lo, hi);
    law_inputs_are_held_against_the_fixture(f, test, name, prng::checksum_of(b, 0), b);
    assert forall|i: int| 0 <= i < count && i < 0x1_0000_0000_0000_0000 implies #[trigger]
        elements::uniform32(b, i, lo, hi, word(test, name, i)) by {
        elements::law_elements_of_f32_uniform(text::joined(test, name), count, lo, hi, i as nat);
    }
    assert(all_uniform32(b, test, name, count as int, lo, hi));
}

/// An input of one magnitude is refused for its checksum, or holds as many elements as it should,
/// each with the sign of the word at its own index, and the fixture records its checksum.
pub proof fn law_sign_inputs(
    f: FixtureView,
    test: Seq<char>,
    name: Seq<char>,
    count: nat,
    scale: u32,
)
    requires
        binary32::finite(scale),
    ensures
        match synth::signs_input(f, test, name, count, scale) {
            Ok(b) => all_signs16(b, test, name, count as int, scale) && recorded(
                f,
                test,
                name,
                prng::checksum_of(b, 0),
            ),
            Err(refusal) => {
                &&& refused(f, test, refusal)
                &&& exists|b: Seq<u8>| #[trigger]
                    all_signs16(b, test, name, count as int, scale) && disputed(
                        f,
                        test,
                        name,
                        prng::checksum_of(b, 0),
                        refusal,
                    )
            },
        },
{
    reveal(synth::signs_input);
    let b = prng::bf16_signs_bytes(text::joined(test, name), count, scale);
    law_inputs_are_held_against_the_fixture(f, test, name, prng::checksum_of(b, 0), b);
    lemma_signs16(test, name, count, scale);
}

/// An input of 8-bit floats is refused for its checksum, or holds as many as it should, each drawn
/// from the word at its own index, and the fixture records its checksum.
pub proof fn law_banded_inputs(
    f: FixtureView,
    test: Seq<char>,
    name: Seq<char>,
    count: nat,
    low: u8,
    high: u8,
    signed: bool,
)
    requires
        low <= high <= 14,
    ensures
        match synth::f8_input(f, test, name, count, low, high, signed) {
            Ok(b) => all_banded8(b, test, name, count as int, low, high, signed) && recorded(
                f,
                test,
                name,
                prng::checksum_of(b, 0),
            ),
            Err(refusal) => {
                &&& refused(f, test, refusal)
                &&& exists|b: Seq<u8>| #[trigger]
                    all_banded8(b, test, name, count as int, low, high, signed) && disputed(
                        f,
                        test,
                        name,
                        prng::checksum_of(b, 0),
                        refusal,
                    )
            },
        },
{
    reveal(synth::f8_input);
    reveal(all_banded8);
    lemma_joined(test, name);
    let b = prng::f8_banded_bytes(text::joined(test, name), count, low, high, signed);
    law_inputs_are_held_against_the_fixture(f, test, name, prng::checksum_of(b, 0), b);
    assert forall|i: int| 0 <= i < count && i < 0x1_0000_0000_0000_0000 implies #[trigger]
        elements::banded8(b, i, low, high, signed, word(test, name, i)) by {
        elements::law_elements_of_f8_banded(
            text::joined(test, name),
            count,
            low,
            high,
            signed,
            i as nat,
        );
    }
    assert(all_banded8(b, test, name, count as int, low, high, signed));
}

/// An input of packed 4-bit floats is refused for its checksum, or holds as many as it should, each
/// drawn from the word at its own index, and the fixture records its checksum.
pub proof fn law_packed_inputs(f: FixtureView, test: Seq<char>, name: Seq<char>, count: nat)
    requires
        count % 2 == 0,
    ensures
        match synth::f4_input(f, test, name, count) {
            Ok(b) => all_nibbles(b, test, name, count as int) && recorded(
                f,
                test,
                name,
                prng::checksum_of(b, 0),
            ),
            Err(refusal) => {
                &&& refused(f, test, refusal)
                &&& exists|b: Seq<u8>| #[trigger]
                    all_nibbles(b, test, name, count as int) && disputed(
                        f,
                        test,
                        name,
                        prng::checksum_of(b, 0),
                        refusal,
                    )
            },
        },
{
    reveal(synth::f4_input);
    reveal(all_nibbles);
    lemma_joined(test, name);
    let b = prng::f4_nibbles_bytes(text::joined(test, name), count);
    law_inputs_are_held_against_the_fixture(f, test, name, prng::checksum_of(b, 0), b);
    assert forall|i: int| 0 <= i < count && i < 0x1_0000_0000_0000_0000 implies #[trigger]
        elements::nibble(b, i, word(test, name, i)) by {
        elements::law_elements_of_f4_nibbles(text::joined(test, name), count, i as nat);
    }
    assert(all_nibbles(b, test, name, count as int));
}

/// An input of given binary32 elements is refused for its checksum, or holds each of them in its
/// place, and the fixture records its checksum.
pub proof fn law_binary32_constants(
    f: FixtureView,
    test: Seq<char>,
    name: Seq<char>,
    values: Seq<u32>,
)
    ensures
        match synth::f32_constant(f, test, name, values) {
            Ok(b) => all_values32(b, |i: int| values[i], values.len() as int) && recorded(
                f,
                test,
                name,
                prng::checksum_of(b, 0),
            ),
            Err(refusal) => {
                &&& refused(f, test, refusal)
                &&& exists|b: Seq<u8>|
                    all_values32(b, |i: int| values[i], values.len() as int) && #[trigger] disputed(
                        f,
                        test,
                        name,
                        prng::checksum_of(b, 0),
                        refusal,
                    )
            },
        },
{
    reveal(synth::f32_constant);
    reveal(all_values32);
    let b = bytes::all_le32(values);
    law_inputs_are_held_against_the_fixture(f, test, name, prng::checksum_of(b, 0), b);
    let at = |i: int| values[i];
    assert forall|i: int| 0 <= i < values.len() implies #[trigger] elements::holds32(
        b,
        i,
        at(i),
    ) by {
        elements::lemma_holds32(values, i);
    }
}

/// A mask is refused for its checksum, or holds a one in each of the valid places and a zero in
/// each other, and the fixture records its checksum.
pub proof fn law_masks(f: FixtureView, test: Seq<char>, name: Seq<char>, len: nat, valid: nat)
    ensures
        match synth::f32_constant(f, test, name, rope::prefix_ones(len, valid)) {
            Ok(b) => masks(b, len as int, valid as int) && recorded(
                f,
                test,
                name,
                prng::checksum_of(b, 0),
            ),
            Err(refusal) => {
                &&& refused(f, test, refusal)
                &&& exists|b: Seq<u8>| #[trigger]
                    masks(b, len as int, valid as int) && disputed(
                        f,
                        test,
                        name,
                        prng::checksum_of(b, 0),
                        refusal,
                    )
            },
        },
{
    reveal(synth::f32_constant);
    reveal(masks);
    let values = rope::prefix_ones(len, valid);
    let b = bytes::all_le32(values);
    law_inputs_are_held_against_the_fixture(f, test, name, prng::checksum_of(b, 0), b);
    assert forall|i: int| 0 <= i < len && i < valid implies #[trigger] elements::holds32(
        b,
        i,
        0x3F80_0000,
    ) by {
        elements::lemma_holds32(values, i);
    }
    assert forall|i: int| 0 <= i < len && valid <= i implies #[trigger] elements::holds32(
        b,
        i,
        0,
    ) by {
        elements::lemma_holds32(values, i);
    }
    assert(masks(b, len as int, valid as int));
}

proof fn lemma_values16(values: Seq<u32>)
    ensures
        all_values16(synth::bf16_bytes(values), |i: int| values[i], values.len() as int),
{
    reveal(all_values16);
    let b = synth::bf16_bytes(values);
    let at = |i: int| values[i];
    let short = Seq::new(values.len(), |i: int| prng::bf16_of(values[i]));
    assert forall|i: int| 0 <= i < values.len() implies #[trigger] elements::holds16(
        b,
        i,
        prng::bf16_of(at(i)),
    ) by {
        elements::lemma_holds16(short, i);
    }
}

/// An input of given elements is refused for its checksum, or holds the bfloat16 nearest to each in
/// its place, and the fixture records its checksum.
pub proof fn law_bf16_constants(
    f: FixtureView,
    test: Seq<char>,
    name: Seq<char>,
    values: Seq<u32>,
)
    ensures
        match synth::bf16_constant(f, test, name, values) {
            Ok(b) => all_values16(b, |i: int| values[i], values.len() as int) && recorded(
                f,
                test,
                name,
                prng::checksum_of(b, 0),
            ),
            Err(refusal) => {
                &&& refused(f, test, refusal)
                &&& exists|b: Seq<u8>|
                    all_values16(b, |i: int| values[i], values.len() as int) && #[trigger] disputed(
                        f,
                        test,
                        name,
                        prng::checksum_of(b, 0),
                        refusal,
                    )
            },
        },
{
    reveal(synth::bf16_constant);
    let b = synth::bf16_bytes(values);
    law_inputs_are_held_against_the_fixture(f, test, name, prng::checksum_of(b, 0), b);
    lemma_values16(values);
}

/// An input of one integer is refused for its checksum, or holds its four bytes, the lowest first,
/// and the fixture records its checksum.
pub proof fn law_integer_inputs(f: FixtureView, test: Seq<char>, name: Seq<char>, value: u32)
    ensures
        match synth::i32_constant(f, test, name, value) {
            Ok(b) => b.len() == 4 && elements::holds32(b, 0, value) && recorded(
                f,
                test,
                name,
                prng::checksum_of(b, 0),
            ),
            Err(refusal) => {
                &&& refused(f, test, refusal)
                &&& exists|b: Seq<u8>| #[trigger]
                    elements::holds32(b, 0, value) && b.len() == 4 && disputed(
                        f,
                        test,
                        name,
                        prng::checksum_of(b, 0),
                        refusal,
                    )
            },
        },
{
    reveal(synth::i32_constant);
    let b = bytes::le32(value);
    law_inputs_are_held_against_the_fixture(f, test, name, prng::checksum_of(b, 0), b);
    bytes::lemma_digits(value);
    assert(elements::holds32(b, 0, value));
}

/// A table of one row is refused for the checksum of the row, or holds the bfloat16 nearest to each
/// value in row `pos` and zeros in every other.
pub proof fn law_row_tables(
    f: FixtureView,
    test: Seq<char>,
    name: Seq<char>,
    values: Seq<u32>,
    rows: nat,
    pos: nat,
)
    requires
        0 < values.len() ==> pos < rows,
    ensures
        ({
            let width = values.len() as int;
            let from = 2 * (pos * width);
            match rope::row_table(f, test, name, values, rows, values.len(), pos) {
                Ok(b) => {
                    &&& blank_but(b, 2 * (rows * width), from, from + 2 * width)
                    &&& all_values16(part(b, from, from + 2 * width), |i: int| values[i], width)
                    &&& recorded(
                        f,
                        test,
                        name,
                        prng::checksum_of(part(b, from, from + 2 * width), 0),
                    )
                },
                Err(refusal) => {
                    &&& refused(f, test, refusal)
                    &&& exists|row: Seq<u8>|
                        all_values16(row, |i: int| values[i], width) && #[trigger] disputed(
                            f,
                            test,
                            name,
                            prng::checksum_of(row, 0),
                            refusal,
                        )
                },
            }
        }),
{
    reveal(rope::row_table);
    let width = values.len();
    let row = synth::bf16_bytes(values);
    let table = rope::placed(2 * (rows * width), 2 * (pos * width), row);
    rope::lemma_row_fits(rows as int, width as int, pos as int);
    law_inputs_are_held_against_the_fixture(f, test, name, prng::checksum_of(row, 0), table);
    lemma_values16(values);
    lemma_table(2 * (rows * width), 2 * (pos * width), row);
}

/// A table of zeros but for one row.
proof fn lemma_table(total: nat, from: nat, row: Seq<u8>)
    requires
        from + row.len() <= total,
    ensures
        blank_but(
            rope::placed(total, from, row),
            total as int,
            from as int,
            (from + row.len()) as int,
        ),
        part(rope::placed(total, from, row), from as int, (from + row.len()) as int) == row,
{
    reveal(blank_but);
    synth_laws::law_placed_rows_are_read_back(total, from, row);
}

/// The table of a token lookup is refused for the checksum of its one row, or holds uniform
/// elements in row 90210 and zeros in every other.
pub proof fn law_embedding_tables(f: FixtureView, test: Seq<char>, rows: nat, width: nat)
    requires
        0 < width ==> 90_210 < rows,
    ensures
        ({
            let from = 2 * (90_210 * width as int);
            let to = from + 2 * width as int;
            match shims::embedding_table(f, test, rows, width) {
                Ok(b) => {
                    &&& blank_but(b, 2 * (rows * width) as int, from, to)
                    &&& all_uniform16(
                        part(b, from, to),
                        test,
                        "row"@,
                        width as int,
                        0xBF00_0000,
                        0x3F00_0000,
                    )
                    &&& recorded(
                        f,
                        test,
                        "row"@,
                        prng::checksum_of(part(b, from, to), 0),
                    )
                },
                Err(refusal) => {
                    &&& refused(f, test, refusal)
                    &&& exists|row: Seq<u8>| #[trigger]
                        all_uniform16(row, test, "row"@, width as int, 0xBF00_0000, 0x3F00_0000)
                            && disputed(f, test, "row"@, prng::checksum_of(row, 0), refusal)
                },
            }
        }),
{
    reveal(shims::embedding_table);
    let row = prng::bf16_uniform_bytes(
        text::joined(test, "row"@),
        0,
        width,
        synth::CENTRED_MIN,
        synth::CENTRED_MAX,
    );
    let table = rope::placed(2 * (rows * width), 2 * (90_210 * width), row);
    rope::lemma_row_fits(rows as int, width as int, 90_210);
    law_inputs_are_held_against_the_fixture(f, test, "row"@, prng::checksum_of(row, 0), table);
    lemma_spans();
    lemma_uniform16(test, "row"@, width, 0xBF00_0000, 0x3F00_0000);
    lemma_table(2 * (rows * width), 2 * (90_210 * width), row);
}

/// A sign over a weight.
proof fn lemma_sign_over_weight(test: Seq<char>, i: nat)
    requires
        i < 0x1_0000_0000_0000_0000,
    ensures
        synth::exact_element(test, i) == prng::bf16_of(
            sign_over_weight(
                word(test, "x_signs"@, i as int),
                word(test, "input_rms_weight"@, i as int),
            ),
        ),
{
    lemma_joined(test, "x_signs"@);
    lemma_joined(test, "input_rms_weight"@);
    lemma_spans();
    let w = word(test, "x_signs"@, i as int);
    assert(prng::bf16_of(synth::ONE) == 0x3F80);
    assert(binary32::absolute_of(synth::ONE) == synth::ONE);
    assert(0x3F80u16 | 0x8000u16 == 0xBF80u16) by (bit_vector);
    elements::law_uniform_elements_follow_their_own_words(
        prng::seed_of(text::joined(test, "input_rms_weight"@)),
        i,
        0x3F40_0000,
        0x3FA0_0000,
    );
}

proof fn lemma_signs_over_weights(test: Seq<char>, count: nat)
    ensures
        all_signs_over_weights(synth::exact_bytes(test, count), test, count as int),
{
    reveal(all_signs_over_weights);
    let b = synth::exact_bytes(test, count);
    let short = Seq::new(count, |i: int| synth::exact_element(test, i as nat));
    assert forall|i: int| 0 <= i < count && i < 0x1_0000_0000_0000_0000 implies elements::holds16(
        b,
        i,
        prng::bf16_of(
            #[trigger] sign_over_weight(
                word(test, "x_signs"@, i),
                word(test, "input_rms_weight"@, i),
            ),
        ),
    ) by {
        lemma_sign_over_weight(test, i as nat);
        elements::lemma_holds16(short, i);
    }
}

/// The input that the normalization turns into signs is refused for a checksum, or holds in each
/// place a sign over a weight; the fixture records the checksums of the signs and of the input.
pub proof fn law_exact_inputs(f: FixtureView, test: Seq<char>, count: nat)
    ensures
        match synth::exact_input(f, test, count) {
            Ok(b) => {
                &&& all_signs_over_weights(b, test, count as int)
                &&& recorded(f, test, "x_exact"@, prng::checksum_of(b, 0))
                &&& exists|signs: Seq<u8>| #[trigger]
                    all_signs16(signs, test, "x_signs"@, count as int, 0x3F80_0000) && recorded(
                        f,
                        test,
                        "x_signs"@,
                        prng::checksum_of(signs, 0),
                    )
            },
            Err(refusal) => {
                &&& refused(f, test, refusal)
                &&& exists|signs: Seq<u8>, b: Seq<u8>|
                    #[trigger]
                    all_signs16(signs, test, "x_signs"@, count as int, 0x3F80_0000)
                        && #[trigger] all_signs_over_weights(b, test, count as int) && (disputed(
                        f,
                        test,
                        "x_signs"@,
                        prng::checksum_of(signs, 0),
                        refusal,
                    ) || disputed(f, test, "x_exact"@, prng::checksum_of(b, 0), refusal))
            },
        },
{
    reveal(synth::exact_input);
    let signs = prng::bf16_signs_bytes(text::joined(test, "x_signs"@), count, synth::ONE);
    let b = synth::exact_bytes(test, count);
    law_inputs_are_held_against_the_fixture(
        f,
        test,
        "x_signs"@,
        prng::checksum_of(signs, 0),
        signs,
    );
    law_inputs_are_held_against_the_fixture(f, test, "x_exact"@, prng::checksum_of(b, 0), b);
    lemma_signs16(test, "x_signs"@, count, synth::ONE);
    lemma_signs_over_weights(test, count);
}

/// Rows of weights that are made block by block are uniform elements, row after row. Where a full
/// block is a whole number of words, or there is but one, what is vetted is their checksum.
pub proof fn law_rows_in_blocks(
    f: FixtureView,
    test: Seq<char>,
    name: Seq<char>,
    rows: nat,
    width: nat,
)
    requires
        0 < width,
        0 < rows ==> width <= 0x80_0000,
    ensures
        match logits::rows_input(f, test, name, rows, width) {
            Ok(b) => {
                &&& all_uniform16(b, test, name, (rows * width) as int, 0xBF00_0000, 0x3F00_0000)
                &&& recorded(
                    f,
                    test,
                    name,
                    logits::block_sum(test + "."@ + name, rows, width, 0x80_0000nat / width, 0),
                )
                &&& width % 2 == 0 || rows <= 0x80_0000nat / width ==> recorded(
                    f,
                    test,
                    name,
                    prng::checksum_of(b, 0),
                )
            },
            Err(refusal) => {
                &&& refused(f, test, refusal)
                &&& disputed(
                    f,
                    test,
                    name,
                    logits::block_sum(test + "."@ + name, rows, width, 0x80_0000nat / width, 0),
                    refusal,
                )
            },
        },
{
    reveal(logits::rows_input);
    let seed = text::joined(test, name);
    lemma_joined(test, name);
    let per_block = 0x80_0000nat / width;
    let b = logits::row_bytes(seed, width, 0, rows);
    law_inputs_are_held_against_the_fixture(
        f,
        test,
        name,
        logits::block_sum(seed, rows, width, logits::BLOCK as nat / width, 0),
        b,
    );
    assert(0 * width == 0) by (nonlinear_arith);
    lemma_spans();
    lemma_uniform16(test, name, rows * width, 0xBF00_0000, 0x3F00_0000);
    if rows == 0 {
        elements::law_checksum_of_one_word(b, 0);
    } else if width % 2 == 0 || rows <= per_block {
        vstd::arithmetic::div_mod::lemma_div_non_zero(0x80_0000, width as int);
        if width % 2 == 0 {
            let h = width / 2;
            assert((per_block * width) % 2 == 0) by {
                assert(per_block * width == 2 * (per_block * h)) by (nonlinear_arith)
                    requires
                        width == 2 * h,
                ;
            }
        }
        logits::law_blocks_sum_to_the_whole(seed, rows, width, per_block);
    }
}

/// Blocks of rows are summed one after the other, each at its own place: `per_block` rows at a
/// time, and what is left of them in the end.
pub proof fn law_blocks_follow_one_another(
    name: Seq<char>,
    rows: nat,
    width: nat,
    per_block: nat,
    start: nat,
)
    requires
        0 < per_block,
        start <= rows,
    ensures
        start == rows ==> logits::block_sum(name, rows, width, per_block, start) == 0,
        start < rows <= start + per_block ==> logits::block_sum(name, rows, width, per_block, start)
            == prng::checksum_of(
            prng::bf16_uniform_bytes(
                name,
                start * width,
                ((rows - start) as nat) * width,
                0xBF00_0000,
                0x3F00_0000,
            ),
            start * width / 2,
        ),
        start + per_block < rows ==> logits::block_sum(name, rows, width, per_block, start) == (
        prng::checksum_of(
            prng::bf16_uniform_bytes(
                name,
                start * width,
                per_block * width,
                0xBF00_0000,
                0x3F00_0000,
            ),
            start * width / 2,
        ) + logits::block_sum(name, rows, width, per_block, start + per_block)) % 0x1_0000_0000,
{
    if start < rows <= start + per_block {
        assert(logits::block_sum(name, rows, width, per_block, rows) == 0);
    }
}

/// Zeros of `bits` bits each fill as many bytes as their bits do, and all of these are zero.
pub proof fn law_zeros(count: nat, bits: nat)
    ensures
        blank(synth::zero_bytes(count, bits), (count * bits / 8) as int),
{
    reveal(blank);
    reveal(synth::zero_bytes);
}

/// What came of a list of steps.
pub proof fn lemma_made(steps: Steps, r: Result<Vec<Buffer>, Refusal>)
    requires
        stage::staged(r) == stage::settled(steps),
    ensures
        match r {
            Ok(b) => {
                &&& b@.len() == steps.len()
                &&& forall|i: int|
                    0 <= i < steps.len() ==> (#[trigger] b@[i]).name@ == steps[i].0 && steps[i].1
                        == Ok::<Seq<u8>, RefusalView>(b@[i].bytes@)
            },
            Err(refusal) => exists|i: int|
                0 <= i < steps.len() && (#[trigger] steps[i]).1 == Err::<Seq<u8>, RefusalView>(
                    refusal@,
                ),
        },
{
    stage::law_all_steps_count(steps);
    match r {
        Ok(b) => {
            let done = stage::settled(steps)->Ok_0;
            assert forall|i: int| 0 <= i < steps.len() implies (#[trigger] b@[i]).name@
                == steps[i].0 && steps[i].1 == Ok::<Seq<u8>, RefusalView>(b@[i].bytes@) by {
                assert(done[i] == b@[i]@);
                assert(steps[i].1 is Ok);
            }
        },
        Err(refusal) => {
            lemma_refusal(steps);
        },
    }
}

proof fn lemma_refusal(steps: Steps)
    requires
        stage::settled(steps) is Err,
    ensures
        exists|i: int|
            0 <= i < steps.len() && (#[trigger] steps[i]).1 == Err::<Seq<u8>, RefusalView>(
                stage::settled(steps)->Err_0,
            ),
    decreases steps.len(),
{
    if steps.len() > 0 {
        let front = steps.drop_last();
        if stage::settled(front) is Err {
            lemma_refusal(front);
            let i = choose|i: int|
                0 <= i < front.len() && (#[trigger] front[i]).1 == Err::<Seq<u8>, RefusalView>(
                    stage::settled(front)->Err_0,
                );
            assert(steps[i].1 == front[i].1);
        } else {
            assert(steps[steps.len() - 1].1 is Err);
        }
    }
}

} // verus!
