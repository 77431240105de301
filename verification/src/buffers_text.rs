//! What the inputs of the text kernels are, buffer by buffer.
use crate::binary32;
use crate::buffers;
use crate::bytes;
use crate::elements;
use crate::fixture::FixtureView;
use crate::logits;
use crate::prng;
use crate::rope;
use crate::shims;
use crate::shims::Axes;
use crate::stage;
use crate::stage::{Buffer, Steps};
use crate::synth;
use crate::synth::{Refusal, RefusalView};
use vstd::prelude::*;

verus! {

/// The buffer `name` holds uniform bfloat16 elements, and the fixture records their checksum.
pub open spec fn uniform_buffer(
    b: Buffer,
    f: FixtureView,
    test: Seq<char>,
    name: Seq<char>,
    count: int,
    lo: u32,
    hi: u32,
) -> bool {
    &&& b.name@ == name
    &&& buffers::all_uniform16(b.bytes@, test, name, count, lo, hi)
    &&& buffers::recorded(f, test, name, prng::checksum_of(b.bytes@, 0))
}

/// The buffer `name` holds uniform binary32 elements, and the fixture records their checksum.
pub open spec fn uniform32_buffer(
    b: Buffer,
    f: FixtureView,
    test: Seq<char>,
    name: Seq<char>,
    count: int,
    lo: u32,
    hi: u32,
) -> bool {
    &&& b.name@ == name
    &&& buffers::all_uniform32(b.bytes@, test, name, count, lo, hi)
    &&& buffers::recorded(f, test, name, prng::checksum_of(b.bytes@, 0))
}

/// The buffer `name` holds bfloat16 elements of one magnitude with the signs of the input
/// `input`, under whose name the fixture records their checksum.
pub open spec fn sign_buffer(
    b: Buffer,
    f: FixtureView,
    test: Seq<char>,
    name: Seq<char>,
    input: Seq<char>,
    count: int,
    scale: u32,
) -> bool {
    &&& b.name@ == name
    &&& buffers::all_signs16(b.bytes@, test, input, count, scale)
    &&& buffers::recorded(f, test, input, prng::checksum_of(b.bytes@, 0))
}

/// The buffer `name` holds 8-bit floats, and the fixture records their checksum.
pub open spec fn banded_buffer(
    b: Buffer,
    f: FixtureView,
    test: Seq<char>,
    name: Seq<char>,
    count: int,
    low: u8,
    high: u8,
    signed: bool,
) -> bool {
    &&& b.name@ == name
    &&& buffers::all_banded8(b.bytes@, test, name, count, low, high, signed)
    &&& buffers::recorded(f, test, name, prng::checksum_of(b.bytes@, 0))
}

/// The buffer `name` holds packed 4-bit floats, and the fixture records their checksum.
pub open spec fn packed_buffer(
    b: Buffer,
    f: FixtureView,
    test: Seq<char>,
    name: Seq<char>,
    count: int,
) -> bool {
    &&& b.name@ == name
    &&& buffers::all_nibbles(b.bytes@, test, name, count)
    &&& buffers::recorded(f, test, name, prng::checksum_of(b.bytes@, 0))
}

/// The buffer `name` holds `len` zeros.
pub open spec fn blank_buffer(b: Buffer, name: Seq<char>, len: int) -> bool {
    b.name@ == name && buffers::blank(b.bytes@, len)
}

/// The buffer `name` holds a mask, and the fixture records its checksum.
pub open spec fn mask_buffer(
    b: Buffer,
    f: FixtureView,
    test: Seq<char>,
    name: Seq<char>,
    count: int,
    valid: int,
) -> bool {
    &&& b.name@ == name
    &&& buffers::masks(b.bytes@, count, valid)
    &&& buffers::recorded(f, test, name, prng::checksum_of(b.bytes@, 0))
}

/// The buffer `name` holds one 32-bit integer, and the fixture records its checksum.
pub open spec fn integer_buffer(
    b: Buffer,
    f: FixtureView,
    test: Seq<char>,
    name: Seq<char>,
    value: u32,
) -> bool {
    &&& b.name@ == name
    &&& b.bytes@.len() == 4
    &&& elements::holds32(b.bytes@, 0, value)
    &&& buffers::recorded(f, test, name, prng::checksum_of(b.bytes@, 0))
}

/// The buffer `name` holds one binary32 value in all of `count` places, and the fixture records
/// their checksum.
pub open spec fn constant32_buffer(
    b: Buffer,
    f: FixtureView,
    test: Seq<char>,
    name: Seq<char>,
    count: int,
    value: u32,
) -> bool {
    &&& b.name@ == name
    &&& b.bytes@.len() == 4 * count
    &&& forall|i: int| 0 <= i < count ==> #[trigger] elements::holds32(b.bytes@, i, value)
    &&& buffers::recorded(f, test, name, prng::checksum_of(b.bytes@, 0))
}

/// The buffer `name` holds one bfloat16 value in all of `count` places, and the fixture records
/// their checksum.
pub open spec fn constant16_buffer(
    b: Buffer,
    f: FixtureView,
    test: Seq<char>,
    name: Seq<char>,
    count: int,
    value: u16,
) -> bool {
    &&& b.name@ == name
    &&& b.bytes@.len() == 2 * count
    &&& forall|i: int| 0 <= i < count ==> #[trigger] elements::holds16(b.bytes@, i, value)
    &&& buffers::recorded(f, test, name, prng::checksum_of(b.bytes@, 0))
}

/// The cosines over a head: both halves start with those of the turning frequencies and go on
/// with ones.
pub open spec fn cosine_row(width: int, cosines: Seq<u32>) -> spec_fn(int) -> u32 {
    |i: int|
        if i % (width / 2) < cosines.len() {
            cosines[i % (width / 2)]
        } else {
            0x3F80_0000
        }
}

/// The sines over a head: both halves start with those of the turning frequencies and go on with
/// zeros, and the signs of the lower half are changed.
pub open spec fn sine_row(width: int, sines: Seq<u32>) -> spec_fn(int) -> u32 {
    |i: int|
        {
            let sine = if i % (width / 2) < sines.len() {
                sines[i % (width / 2)]
            } else {
                0
            };
            if i < width / 2 {
                ((sine + 0x8000_0000) % 0x1_0000_0000) as u32
            } else {
                sine
            }
        }
}

/// The buffer `name` holds a table of `rows` rows that are zero but for row 137, which holds the
/// bfloat16 nearest to the given values, and the fixture records the checksum of that row.
pub open spec fn rotation_buffer(
    b: Buffer,
    f: FixtureView,
    test: Seq<char>,
    name: Seq<char>,
    rows: int,
    width: int,
    values: spec_fn(int) -> u32,
) -> bool {
    let from = 2 * (137 * width);
    let row = buffers::part(b.bytes@, from, from + 2 * width);
    &&& b.name@ == name
    &&& buffers::blank_but(b.bytes@, 2 * (rows * width), from, from + 2 * width)
    &&& buffers::all_values16(row, values, width)
    &&& buffers::recorded(f, test, name, prng::checksum_of(row, 0))
}

/// The buffer `name` holds a table of `rows` rows that are zero but for row 90210, which holds
/// uniform bfloat16 elements around zero, and the fixture records the checksum of that row.
pub open spec fn embedding_buffer(
    b: Buffer,
    f: FixtureView,
    test: Seq<char>,
    name: Seq<char>,
    rows: int,
    width: int,
) -> bool {
    let from = 2 * (90_210 * width);
    let row = buffers::part(b.bytes@, from, from + 2 * width);
    &&& b.name@ == name
    &&& buffers::blank_but(b.bytes@, 2 * (rows * width), from, from + 2 * width)
    &&& buffers::all_uniform16(row, test, "row"@, width, 0xBF00_0000, 0x3F00_0000)
    &&& buffers::recorded(f, test, "row"@, prng::checksum_of(row, 0))
}

/// The buffer `name` holds bfloat16 elements that are each a sign over a weight, and the fixture
/// records the checksums of the signs and of the elements.
pub open spec fn exact_buffer(
    b: Buffer,
    f: FixtureView,
    test: Seq<char>,
    name: Seq<char>,
    count: int,
) -> bool {
    &&& b.name@ == name
    &&& buffers::all_signs_over_weights(b.bytes@, test, count)
    &&& buffers::recorded(f, test, "x_exact"@, prng::checksum_of(b.bytes@, 0))
    &&& exists|signs: Seq<u8>| #[trigger]
        buffers::all_signs16(signs, test, "x_signs"@, count, 0x3F80_0000) && buffers::recorded(
            f,
            test,
            "x_signs"@,
            prng::checksum_of(signs, 0),
        )
}

/// The buffer `name` holds rows of uniform bfloat16 elements around zero, one row after the other.
/// The fixture records the sum of the checksums of blocks of rows, which is the checksum of all
/// where a row is a whole number of words or there is but one block.
pub open spec fn rows_buffer(
    b: Buffer,
    f: FixtureView,
    test: Seq<char>,
    name: Seq<char>,
    rows: int,
    width: int,
) -> bool {
    &&& b.name@ == name
    &&& buffers::all_uniform16(b.bytes@, test, name, rows * width, 0xBF00_0000, 0x3F00_0000)
    &&& buffers::recorded(
        f,
        test,
        name,
        logits::block_sum(
            test + "."@ + name,
            rows as nat,
            width as nat,
            0x80_0000nat / width as nat,
            0,
        ),
    )
    &&& width % 2 == 0 || rows <= 0x80_0000int / width ==> buffers::recorded(
        f,
        test,
        name,
        prng::checksum_of(b.bytes@, 0),
    )
}

/// A product of sizes is a size.
pub proof fn lemma_product(a: int, b: int)
    requires
        0 <= a,
        0 <= b,
    ensures
        0 <= a * b,
{
    assert(0 <= a * b) by (nonlinear_arith)
        requires
            0 <= a,
            0 <= b,
    ;
}

/// Where each step is refused only for its checksum, so are all of them together.
pub proof fn lemma_all_sound(
    f: FixtureView,
    test: Seq<char>,
    steps: Steps,
    r: Result<Vec<Buffer>, Refusal>,
)
    requires
        stage::staged(r) == stage::settled(steps),
        forall|i: int| 0 <= i < steps.len() ==> buffers::sound(f, test, (#[trigger] steps[i]).1),
    ensures
        r matches Err(refusal) ==> buffers::refused(f, test, refusal@),
{
    buffers::lemma_made(steps, r);
}

/// A constant in each place.
proof fn lemma_constant32(
    f: FixtureView,
    test: Seq<char>,
    name: Seq<char>,
    values: Seq<u32>,
    value: u32,
)
    requires
        forall|i: int| 0 <= i < values.len() ==> #[trigger] values[i] == value,
    ensures
        match synth::f32_constant(f, test, name, values) {
            Ok(b) => {
                &&& b.len() == 4 * values.len()
                &&& forall|i: int|
                    0 <= i < values.len() ==> #[trigger] elements::holds32(b, i, value)
                &&& buffers::recorded(f, test, name, prng::checksum_of(b, 0))
            },
            Err(refusal) => buffers::refused(f, test, refusal),
        },
{
    buffers::law_binary32_constants(f, test, name, values);
    if let Ok(b) = synth::f32_constant(f, test, name, values) {
        reveal(buffers::all_values32);
        let at = |i: int| values[i];
        assert forall|i: int| 0 <= i < values.len() implies #[trigger] elements::holds32(
            b,
            i,
            value,
        ) by {
            assert(elements::holds32(b, i, at(i)));
        }
    }
}

/// A constant in each place, as bfloat16.
proof fn lemma_constant16(
    f: FixtureView,
    test: Seq<char>,
    name: Seq<char>,
    values: Seq<u32>,
    value: u32,
)
    requires
        forall|i: int| 0 <= i < values.len() ==> #[trigger] values[i] == value,
    ensures
        match synth::bf16_constant(f, test, name, values) {
            Ok(b) => {
                &&& b.len() == 2 * values.len()
                &&& forall|i: int|
                    0 <= i < values.len() ==> #[trigger] elements::holds16(
                        b,
                        i,
                        prng::bf16_of(value),
                    )
                &&& buffers::recorded(f, test, name, prng::checksum_of(b, 0))
            },
            Err(refusal) => buffers::refused(f, test, refusal),
        },
{
    buffers::law_bf16_constants(f, test, name, values);
    if let Ok(b) = synth::bf16_constant(f, test, name, values) {
        reveal(buffers::all_values16);
        let at = |i: int| values[i];
        assert forall|i: int| 0 <= i < values.len() implies #[trigger] elements::holds16(
            b,
            i,
            prng::bf16_of(value),
        ) by {
            assert(elements::holds16(b, i, prng::bf16_of(at(i))));
        }
    }
}

/// Equal values make equal rows.
proof fn lemma_same_row(
    b: Seq<u8>,
    values: spec_fn(int) -> u32,
    others: spec_fn(int) -> u32,
    count: int,
)
    requires
        buffers::all_values16(b, values, count),
        forall|i: int| 0 <= i < count ==> #[trigger] values(i) == others(i),
    ensures
        buffers::all_values16(b, others, count),
{
    reveal(buffers::all_values16);
    assert forall|i: int| 0 <= i < count implies #[trigger] elements::holds16(
        b,
        i,
        prng::bf16_of(others(i)),
    ) by {
        assert(elements::holds16(b, i, prng::bf16_of(values(i))));
    }
}

/// What is vetted of a rotation table.
spec fn rotates(
    f: FixtureView,
    test: Seq<char>,
    name: Seq<char>,
    rows: int,
    width: int,
    values: spec_fn(int) -> u32,
    v: Result<Seq<u8>, RefusalView>,
) -> bool {
    let from = 2 * (137 * width);
    match v {
        Ok(b) => {
            let row = buffers::part(b, from, from + 2 * width);
            &&& buffers::blank_but(b, 2 * (rows * width), from, from + 2 * width)
            &&& buffers::all_values16(row, values, width)
            &&& buffers::recorded(f, test, name, prng::checksum_of(row, 0))
        },
        Err(refusal) => buffers::refused(f, test, refusal),
    }
}

/// A table of cosines.
proof fn lemma_cosines(f: FixtureView, test: Seq<char>, rows: nat, width: nat, cosines: Seq<u32>)
    requires
        0 < width ==> 137 < rows,
    ensures
        rotates(
            f,
            test,
            "cos"@,
            rows as int,
            width as int,
            cosine_row(width as int, cosines),
            rope::row_table(
                f,
                test,
                "cos"@,
                rope::tiled(width, cosines, synth::ONE),
                rows,
                width,
                137,
            ),
        ),
{
    let values = rope::tiled(width, cosines, synth::ONE);
    buffers::law_row_tables(f, test, "cos"@, values, rows, 137);
    if let Ok(b) = rope::row_table(f, test, "cos"@, values, rows, width, 137) {
        let from = 2 * (137 * width as int);
        lemma_same_row(
            buffers::part(b, from, from + 2 * width as int),
            |i: int| values[i],
            cosine_row(width as int, cosines),
            width as int,
        );
    }
}

/// A table of sines.
proof fn lemma_sines(f: FixtureView, test: Seq<char>, rows: nat, width: nat, sines: Seq<u32>)
    requires
        0 < width ==> 137 < rows,
    ensures
        rotates(
            f,
            test,
            "sin"@,
            rows as int,
            width as int,
            sine_row(width as int, sines),
            rope::row_table(
                f,
                test,
                "sin"@,
                rope::low_half_negated(rope::tiled(width, sines, 0)),
                rows,
                width,
                137,
            ),
        ),
{
    let values = rope::low_half_negated(rope::tiled(width, sines, 0));
    buffers::law_row_tables(f, test, "sin"@, values, rows, 137);
    if let Ok(b) = rope::row_table(f, test, "sin"@, values, rows, width, 137) {
        let from = 2 * (137 * width as int);
        lemma_same_row(
            buffers::part(b, from, from + 2 * width as int),
            |i: int| values[i],
            sine_row(width as int, sines),
            width as int,
        );
    }
}

/// The inputs of a token lookup are a table that is zero but for the row of token 90210, whose
/// elements are uniform around zero, the byte at which that row starts, and room for one row. They
/// are these buffers, in this order and with these bytes, unless they are refused for a checksum of
/// the test.
pub proof fn law_embed_token_buffers(f: FixtureView, axes: Axes, r: Result<Vec<Buffer>, Refusal>)
    requires
        0 < axes.h ==> 90_210 < axes.w,
        stage::staged(r) == stage::settled(shims::embed_token_steps(f, axes)),
    ensures
        ({
            let test = "embed_token"@;
            match r {
                Ok(b) => {
                    &&& b@.len() == 3
                    &&& embedding_buffer(
                        b@[0],
                        f,
                        test,
                        "embedding_table"@,
                        axes.w as int,
                        axes.h as int,
                    )
                    &&& integer_buffer(
                        b@[1],
                        f,
                        test,
                        "offset"@,
                        ((2 * (90_210 * axes.h)) % 0x1_0000_0000) as u32,
                    )
                    &&& blank_buffer(b@[2], "out"@, 2 * axes.h)
                },
                Err(refusal) => buffers::refused(f, test, refusal@),
            }
        }),
{
    let test = "embed_token"@;
    let steps = shims::embed_token_steps(f, axes);
    buffers::lemma_made(steps, r);
    buffers::lemma_spans();
    buffers::law_embedding_tables(f, test, axes.w as nat, axes.h as nat);
    assert(buffers::sound(f, test, steps[0].1));
    buffers::law_integer_inputs(
        f,
        test,
        "offset"@,
        ((2 * (90_210 * axes.h)) % 0x1_0000_0000) as u32,
    );
    assert(buffers::sound(f, test, steps[1].1));
    buffers::law_zeros(axes.h as nat, 16);
    assert(buffers::sound(f, test, steps[2].1));
    lemma_all_sound(f, test, steps, r);
}

/// The inputs of a copy are uniform elements around zero and room for as many. They are these
/// buffers, in this order and with these bytes, unless they are refused for a checksum of the test.
pub proof fn law_copy_hidden_state_buffers(
    f: FixtureView,
    axes: Axes,
    r: Result<Vec<Buffer>, Refusal>,
)
    requires
        stage::staged(r) == stage::settled(shims::copy_hidden_state_steps(f, axes)),
    ensures
        ({
            let test = "copy_hidden_state"@;
            match r {
                Ok(b) => {
                    &&& b@.len() == 2
                    &&& uniform_buffer(
                        b@[0],
                        f,
                        test,
                        "x"@,
                        axes.h as int,
                        0xBF00_0000,
                        0x3F00_0000,
                    )
                    &&& blank_buffer(b@[1], "out"@, 2 * axes.h)
                },
                Err(refusal) => buffers::refused(f, test, refusal@),
            }
        }),
{
    let test = "copy_hidden_state"@;
    let steps = shims::copy_hidden_state_steps(f, axes);
    buffers::lemma_made(steps, r);
    buffers::lemma_spans();
    buffers::law_uniform_inputs(f, test, "x"@, axes.h as nat, 0xBF00_0000, 0x3F00_0000);
    assert(buffers::sound(f, test, steps[0].1));
    buffers::law_zeros(axes.h as nat, 16);
    assert(buffers::sound(f, test, steps[1].1));
    lemma_all_sound(f, test, steps, r);
}

/// The inputs of the projections of a sliding-window layer: the row of the rotation tables and the
/// row of the caches are those of position 137, the latter counted around the ring. They are these
/// buffers, in this order and with these bytes, unless they are refused for a checksum of the test.
pub proof fn law_sliding_project_qkv_buffers(
    f: FixtureView,
    test: Seq<char>,
    axes: Axes,
    exact: bool,
    cosines: Seq<u32>,
    sines: Seq<u32>,
    r: Result<Vec<Buffer>, Refusal>,
)
    requires
        0 < axes.ds ==> 137 < axes.e,
        stage::staged(r) == stage::settled(
            shims::sliding_project_qkv_steps(f, test, axes, exact, cosines, sines),
        ),
    ensures
        match r {
            Ok(b) => {
                &&& b@.len() == 17
                &&& uniform_buffer(
                    b@[0],
                    f,
                    test,
                    "input_rms_weight"@,
                    axes.h as int,
                    0x3F40_0000,
                    0x3FA0_0000,
                )
                &&& if exact {
                    exact_buffer(b@[1], f, test, "x"@, axes.h as int)
                } else {
                    sign_buffer(b@[1], f, test, "x"@, "x_signs"@, axes.h as int, 0x3F80_0000)
                }
                &&& banded_buffer(b@[2], f, test, "q_weight"@, axes.qs * axes.h, 7, 14, true)
                &&& banded_buffer(b@[3], f, test, "k_weight"@, axes.ps * axes.h, 7, 14, true)
                &&& banded_buffer(b@[4], f, test, "v_weight"@, axes.ps * axes.h, 7, 14, true)
                &&& uniform_buffer(
                    b@[5],
                    f,
                    test,
                    "q_weight_scale"@,
                    axes.qs as int,
                    0,
                    0x3A83_126F,
                )
                &&& uniform_buffer(
                    b@[6],
                    f,
                    test,
                    "k_weight_scale"@,
                    axes.ps as int,
                    0,
                    0x3A83_126F,
                )
                &&& uniform_buffer(
                    b@[7],
                    f,
                    test,
                    "v_weight_scale"@,
                    axes.ps as int,
                    0,
                    0x3A83_126F,
                )
                &&& uniform_buffer(b@[8], f, test, "q_rms_weight"@, axes.ds as int, 0, 0x3F80_0000)
                &&& uniform_buffer(b@[9], f, test, "k_rms_weight"@, axes.ds as int, 0, 0x3F80_0000)
                &&& rotation_buffer(
                    b@[10],
                    f,
                    test,
                    "cos"@,
                    axes.e as int,
                    axes.ds as int,
                    cosine_row(axes.ds as int, cosines),
                )
                &&& rotation_buffer(
                    b@[11],
                    f,
                    test,
                    "sin"@,
                    axes.e as int,
                    axes.ds as int,
                    sine_row(axes.ds as int, sines),
                )
                &&& integer_buffer(
                    b@[12],
                    f,
                    test,
                    "rope_offset"@,
                    ((2 * (137 * axes.ds)) % 0x1_0000_0000) as u32,
                )
                &&& integer_buffer(
                    b@[13],
                    f,
                    test,
                    "kv_offset"@,
                    ((2 * (137int % axes.ts as int * (axes.ns * axes.ds))) % 0x1_0000_0000) as u32,
                )
                &&& blank_buffer(b@[14], "k_cache"@, 2 * (axes.ts * (axes.ns * axes.ds)))
                &&& blank_buffer(b@[15], "v_cache"@, 2 * (axes.ts * (axes.ns * axes.ds)))
                &&& blank_buffer(b@[16], "q_out"@, 2 * (axes.ns * (axes.gs * axes.ds)))
            },
            Err(refusal) => buffers::refused(f, test, refusal@),
        },
{
    let steps = shims::sliding_project_qkv_steps(f, test, axes, exact, cosines, sines);
    buffers::lemma_made(steps, r);
    buffers::lemma_spans();
    lemma_product(axes.qs as int, axes.h as int);
    lemma_product(axes.ps as int, axes.h as int);
    lemma_product(axes.ns as int, axes.ds as int);
    lemma_product(axes.ts as int, axes.ns * axes.ds);
    lemma_product(axes.gs as int, axes.ds as int);
    lemma_product(axes.ns as int, axes.gs * axes.ds);
    buffers::law_uniform_inputs(
        f,
        test,
        "input_rms_weight"@,
        axes.h as nat,
        0x3F40_0000,
        0x3FA0_0000,
    );
    assert(buffers::sound(f, test, steps[0].1));
    if exact {
        buffers::law_exact_inputs(f, test, axes.h as nat);
    } else {
        buffers::law_sign_inputs(f, test, "x_signs"@, axes.h as nat, 0x3F80_0000);
    }
    assert(buffers::sound(f, test, steps[1].1));
    buffers::law_banded_inputs(f, test, "q_weight"@, (axes.qs * axes.h) as nat, 7, 14, true);
    assert(buffers::sound(f, test, steps[2].1));
    buffers::law_banded_inputs(f, test, "k_weight"@, (axes.ps * axes.h) as nat, 7, 14, true);
    assert(buffers::sound(f, test, steps[3].1));
    buffers::law_banded_inputs(f, test, "v_weight"@, (axes.ps * axes.h) as nat, 7, 14, true);
    assert(buffers::sound(f, test, steps[4].1));
    buffers::law_uniform_inputs(f, test, "q_weight_scale"@, axes.qs as nat, 0, 0x3A83_126F);
    assert(buffers::sound(f, test, steps[5].1));
    buffers::law_uniform_inputs(f, test, "k_weight_scale"@, axes.ps as nat, 0, 0x3A83_126F);
    assert(buffers::sound(f, test, steps[6].1));
    buffers::law_uniform_inputs(f, test, "v_weight_scale"@, axes.ps as nat, 0, 0x3A83_126F);
    assert(buffers::sound(f, test, steps[7].1));
    buffers::law_uniform_inputs(f, test, "q_rms_weight"@, axes.ds as nat, 0, 0x3F80_0000);
    assert(buffers::sound(f, test, steps[8].1));
    buffers::law_uniform_inputs(f, test, "k_rms_weight"@, axes.ds as nat, 0, 0x3F80_0000);
    assert(buffers::sound(f, test, steps[9].1));
    lemma_cosines(f, test, axes.e as nat, axes.ds as nat, cosines);
    assert(buffers::sound(f, test, steps[10].1));
    lemma_sines(f, test, axes.e as nat, axes.ds as nat, sines);
    assert(buffers::sound(f, test, steps[11].1));
    buffers::law_integer_inputs(
        f,
        test,
        "rope_offset"@,
        ((2 * (137 * axes.ds)) % 0x1_0000_0000) as u32,
    );
    assert(buffers::sound(f, test, steps[12].1));
    buffers::law_integer_inputs(
        f,
        test,
        "kv_offset"@,
        ((2 * (137int % axes.ts as int * (axes.ns * axes.ds))) % 0x1_0000_0000) as u32,
    );
    assert(buffers::sound(f, test, steps[13].1));
    buffers::law_zeros((axes.ts * (axes.ns * axes.ds)) as nat, 16);
    assert(buffers::sound(f, test, steps[14].1));
    buffers::law_zeros((axes.ts * (axes.ns * axes.ds)) as nat, 16);
    assert(buffers::sound(f, test, steps[15].1));
    buffers::law_zeros((axes.ns * (axes.gs * axes.ds)) as nat, 16);
    assert(buffers::sound(f, test, steps[16].1));
    lemma_all_sound(f, test, steps, r);
}

/// The inputs of the attention of a sliding-window layer: the mask is one in the first 300 places
/// of the window and zero in the rest. They are these buffers, in this order and with these bytes,
/// unless they are refused for a checksum of the test.
pub proof fn law_sliding_attention_buffers(
    f: FixtureView,
    axes: Axes,
    r: Result<Vec<Buffer>, Refusal>,
)
    requires
        stage::staged(r) == stage::settled(shims::sliding_attention_steps(f, axes)),
    ensures
        ({
            let test = "sliding_attention"@;
            match r {
                Ok(b) => {
                    &&& b@.len() == 5
                    &&& sign_buffer(
                        b@[0],
                        f,
                        test,
                        "q"@,
                        "q"@,
                        axes.ns * (axes.gs * axes.ds),
                        0x3D80_0000,
                    )
                    &&& sign_buffer(
                        b@[1],
                        f,
                        test,
                        "k"@,
                        "k"@,
                        axes.ts * (axes.ns * axes.ds),
                        0x3F80_0000,
                    )
                    &&& uniform_buffer(
                        b@[2],
                        f,
                        test,
                        "v"@,
                        axes.ts * (axes.ns * axes.ds),
                        0xBF00_0000,
                        0x3F00_0000,
                    )
                    &&& mask_buffer(b@[3], f, test, "mask"@, axes.ts as int, 300)
                    &&& blank_buffer(b@[4], "out"@, 2 * (axes.ns * (axes.gs * axes.ds)))
                },
                Err(refusal) => buffers::refused(f, test, refusal@),
            }
        }),
{
    let test = "sliding_attention"@;
    let steps = shims::sliding_attention_steps(f, axes);
    buffers::lemma_made(steps, r);
    buffers::lemma_spans();
    lemma_product(axes.ns as int, axes.ds as int);
    lemma_product(axes.ts as int, axes.ns * axes.ds);
    lemma_product(axes.gs as int, axes.ds as int);
    lemma_product(axes.ns as int, axes.gs * axes.ds);
    buffers::law_sign_inputs(f, test, "q"@, (axes.ns * (axes.gs * axes.ds)) as nat, 0x3D80_0000);
    assert(buffers::sound(f, test, steps[0].1));
    buffers::law_sign_inputs(f, test, "k"@, (axes.ts * (axes.ns * axes.ds)) as nat, 0x3F80_0000);
    assert(buffers::sound(f, test, steps[1].1));
    buffers::law_uniform_inputs(
        f,
        test,
        "v"@,
        (axes.ts * (axes.ns * axes.ds)) as nat,
        0xBF00_0000,
        0x3F00_0000,
    );
    assert(buffers::sound(f, test, steps[2].1));
    buffers::law_masks(f, test, "mask"@, axes.ts as nat, 300);
    assert(buffers::sound(f, test, steps[3].1));
    buffers::law_zeros((axes.ns * (axes.gs * axes.ds)) as nat, 16);
    assert(buffers::sound(f, test, steps[4].1));
    lemma_all_sound(f, test, steps, r);
}

/// The inputs of the output projection of a sliding-window layer. They are these buffers, in this
/// order and with these bytes, unless they are refused for a checksum of the test.
pub proof fn law_sliding_attention_output_buffers(
    f: FixtureView,
    test: Seq<char>,
    axes: Axes,
    exact: bool,
    r: Result<Vec<Buffer>, Refusal>,
)
    requires
        stage::staged(r) == stage::settled(
            shims::sliding_attention_output_steps(f, test, axes, exact),
        ),
    ensures
        match r {
            Ok(b) => {
                &&& b@.len() == 5
                &&& if exact {
                    sign_buffer(
                        b@[0],
                        f,
                        test,
                        "x"@,
                        "x"@,
                        axes.ns * (axes.gs * axes.ds),
                        0x3F80_0000,
                    )
                } else {
                    uniform_buffer(
                        b@[0],
                        f,
                        test,
                        "x"@,
                        axes.ns * (axes.gs * axes.ds),
                        0xBF00_0000,
                        0x3F00_0000,
                    )
                }
                &&& uniform_buffer(
                    b@[1],
                    f,
                    test,
                    "post_attn_rms_weight"@,
                    axes.h as int,
                    0,
                    0x3F80_0000,
                )
                &&& banded_buffer(b@[2], f, test, "o_weight"@, axes.h * axes.qs, 7, 14, true)
                &&& uniform_buffer(b@[3], f, test, "o_weight_scale"@, axes.h as int, 0, 0x3A83_126F)
                &&& uniform_buffer(b@[4], f, test, "residual"@, axes.h as int, 0, 0x3F80_0000)
            },
            Err(refusal) => buffers::refused(f, test, refusal@),
        },
{
    let steps = shims::sliding_attention_output_steps(f, test, axes, exact);
    buffers::lemma_made(steps, r);
    buffers::lemma_spans();
    lemma_product(axes.gs as int, axes.ds as int);
    lemma_product(axes.ns as int, axes.gs * axes.ds);
    lemma_product(axes.h as int, axes.qs as int);
    if exact {
        buffers::law_sign_inputs(
            f,
            test,
            "x"@,
            (axes.ns * (axes.gs * axes.ds)) as nat,
            0x3F80_0000,
        );
    } else {
        buffers::law_uniform_inputs(
            f,
            test,
            "x"@,
            (axes.ns * (axes.gs * axes.ds)) as nat,
            0xBF00_0000,
            0x3F00_0000,
        );
    }
    assert(buffers::sound(f, test, steps[0].1));
    buffers::law_uniform_inputs(f, test, "post_attn_rms_weight"@, axes.h as nat, 0, 0x3F80_0000);
    assert(buffers::sound(f, test, steps[1].1));
    buffers::law_banded_inputs(f, test, "o_weight"@, (axes.h * axes.qs) as nat, 7, 14, true);
    assert(buffers::sound(f, test, steps[2].1));
    buffers::law_uniform_inputs(f, test, "o_weight_scale"@, axes.h as nat, 0, 0x3A83_126F);
    assert(buffers::sound(f, test, steps[3].1));
    buffers::law_uniform_inputs(f, test, "residual"@, axes.h as nat, 0, 0x3F80_0000);
    assert(buffers::sound(f, test, steps[4].1));
    lemma_all_sound(f, test, steps, r);
}

/// The inputs of the projections of a full-attention layer: the row of the rotation tables and the
/// row of the caches are those of position 137. They are these buffers, in this order and with
/// these bytes, unless they are refused for a checksum of the test.
pub proof fn law_full_project_qkv_buffers(
    f: FixtureView,
    test: Seq<char>,
    axes: Axes,
    exact: bool,
    cosines: Seq<u32>,
    sines: Seq<u32>,
    r: Result<Vec<Buffer>, Refusal>,
)
    requires
        0 < axes.df ==> 137 < axes.e,
        stage::staged(r) == stage::settled(
            shims::full_project_qkv_steps(f, test, axes, exact, cosines, sines),
        ),
    ensures
        match r {
            Ok(b) => {
                &&& b@.len() == 15
                &&& uniform_buffer(
                    b@[0],
                    f,
                    test,
                    "input_rms_weight"@,
                    axes.h as int,
                    0x3F40_0000,
                    0x3FA0_0000,
                )
                &&& if exact {
                    exact_buffer(b@[1], f, test, "x"@, axes.h as int)
                } else {
                    sign_buffer(b@[1], f, test, "x"@, "x_signs"@, axes.h as int, 0x3F80_0000)
                }
                &&& banded_buffer(b@[2], f, test, "q_weight"@, axes.qf * axes.h, 7, 14, true)
                &&& banded_buffer(b@[3], f, test, "k_weight"@, axes.pf * axes.h, 7, 14, true)
                &&& uniform_buffer(
                    b@[4],
                    f,
                    test,
                    "q_weight_scale"@,
                    axes.qf as int,
                    0,
                    0x3A83_126F,
                )
                &&& uniform_buffer(
                    b@[5],
                    f,
                    test,
                    "k_weight_scale"@,
                    axes.pf as int,
                    0,
                    0x3A83_126F,
                )
                &&& uniform_buffer(b@[6], f, test, "q_rms_weight"@, axes.df as int, 0, 0x3F80_0000)
                &&& uniform_buffer(b@[7], f, test, "k_rms_weight"@, axes.df as int, 0, 0x3F80_0000)
                &&& rotation_buffer(
                    b@[8],
                    f,
                    test,
                    "cos"@,
                    axes.e as int,
                    axes.df as int,
                    cosine_row(axes.df as int, cosines),
                )
                &&& rotation_buffer(
                    b@[9],
                    f,
                    test,
                    "sin"@,
                    axes.e as int,
                    axes.df as int,
                    sine_row(axes.df as int, sines),
                )
                &&& integer_buffer(
                    b@[10],
                    f,
                    test,
                    "rope_offset"@,
                    ((2 * (137 * axes.df)) % 0x1_0000_0000) as u32,
                )
                &&& integer_buffer(
                    b@[11],
                    f,
                    test,
                    "kv_offset"@,
                    ((2 * (137 * axes.df)) % 0x1_0000_0000) as u32,
                )
                &&& blank_buffer(b@[12], "k_cache"@, 2 * (axes.tf * axes.df))
                &&& blank_buffer(b@[13], "v_cache"@, 2 * (axes.tf * axes.df))
                &&& blank_buffer(b@[14], "q_out"@, 2 * (axes.gf * axes.df))
            },
            Err(refusal) => buffers::refused(f, test, refusal@),
        },
{
    let steps = shims::full_project_qkv_steps(f, test, axes, exact, cosines, sines);
    buffers::lemma_made(steps, r);
    buffers::lemma_spans();
    lemma_product(axes.qf as int, axes.h as int);
    lemma_product(axes.pf as int, axes.h as int);
    lemma_product(axes.tf as int, axes.df as int);
    lemma_product(axes.gf as int, axes.df as int);
    buffers::law_uniform_inputs(
        f,
        test,
        "input_rms_weight"@,
        axes.h as nat,
        0x3F40_0000,
        0x3FA0_0000,
    );
    assert(buffers::sound(f, test, steps[0].1));
    if exact {
        buffers::law_exact_inputs(f, test, axes.h as nat);
    } else {
        buffers::law_sign_inputs(f, test, "x_signs"@, axes.h as nat, 0x3F80_0000);
    }
    assert(buffers::sound(f, test, steps[1].1));
    buffers::law_banded_inputs(f, test, "q_weight"@, (axes.qf * axes.h) as nat, 7, 14, true);
    assert(buffers::sound(f, test, steps[2].1));
    buffers::law_banded_inputs(f, test, "k_weight"@, (axes.pf * axes.h) as nat, 7, 14, true);
    assert(buffers::sound(f, test, steps[3].1));
    buffers::law_uniform_inputs(f, test, "q_weight_scale"@, axes.qf as nat, 0, 0x3A83_126F);
    assert(buffers::sound(f, test, steps[4].1));
    buffers::law_uniform_inputs(f, test, "k_weight_scale"@, axes.pf as nat, 0, 0x3A83_126F);
    assert(buffers::sound(f, test, steps[5].1));
    buffers::law_uniform_inputs(f, test, "q_rms_weight"@, axes.df as nat, 0, 0x3F80_0000);
    assert(buffers::sound(f, test, steps[6].1));
    buffers::law_uniform_inputs(f, test, "k_rms_weight"@, axes.df as nat, 0, 0x3F80_0000);
    assert(buffers::sound(f, test, steps[7].1));
    lemma_cosines(f, test, axes.e as nat, axes.df as nat, cosines);
    assert(buffers::sound(f, test, steps[8].1));
    lemma_sines(f, test, axes.e as nat, axes.df as nat, sines);
    assert(buffers::sound(f, test, steps[9].1));
    buffers::law_integer_inputs(
        f,
        test,
        "rope_offset"@,
        ((2 * (137 * axes.df)) % 0x1_0000_0000) as u32,
    );
    assert(buffers::sound(f, test, steps[10].1));
    buffers::law_integer_inputs(
        f,
        test,
        "kv_offset"@,
        ((2 * (137 * axes.df)) % 0x1_0000_0000) as u32,
    );
    assert(buffers::sound(f, test, steps[11].1));
    buffers::law_zeros((axes.tf * axes.df) as nat, 16);
    assert(buffers::sound(f, test, steps[12].1));
    buffers::law_zeros((axes.tf * axes.df) as nat, 16);
    assert(buffers::sound(f, test, steps[13].1));
    buffers::law_zeros((axes.gf * axes.df) as nat, 16);
    assert(buffers::sound(f, test, steps[14].1));
    lemma_all_sound(f, test, steps, r);
}

/// The inputs of the attention of a full-attention layer: the mask of the first page is one
/// everywhere, that of the second in its first 138 places and zero in the rest. They are these
/// buffers, in this order and with these bytes, unless they are refused for a checksum of the test.
pub proof fn law_full_attention_buffers(f: FixtureView, axes: Axes, r: Result<Vec<Buffer>, Refusal>)
    requires
        stage::staged(r) == stage::settled(shims::full_attention_steps(f, axes)),
    ensures
        ({
            let test = "full_attention"@;
            match r {
                Ok(b) => {
                    &&& b@.len() == 10
                    &&& sign_buffer(b@[0], f, test, "q"@, "q"@, axes.gf * axes.df, 0x3D80_0000)
                    &&& sign_buffer(b@[1], f, test, "k0"@, "k0"@, axes.tf * axes.df, 0x3F80_0000)
                    &&& sign_buffer(b@[2], f, test, "k1"@, "k1"@, axes.tf * axes.df, 0x3F80_0000)
                    &&& uniform_buffer(
                        b@[3],
                        f,
                        test,
                        "v0"@,
                        axes.tf * axes.df,
                        0xBF00_0000,
                        0x3F00_0000,
                    )
                    &&& uniform_buffer(
                        b@[4],
                        f,
                        test,
                        "v1"@,
                        axes.tf * axes.df,
                        0xBF00_0000,
                        0x3F00_0000,
                    )
                    &&& mask_buffer(b@[5], f, test, "mask0"@, axes.tf as int, axes.tf as int)
                    &&& mask_buffer(b@[6], f, test, "mask1"@, axes.tf as int, 138)
                    &&& blank_buffer(b@[7], "running_max"@, 4 * axes.gf)
                    &&& blank_buffer(b@[8], "running_sum"@, 4 * axes.gf)
                    &&& blank_buffer(b@[9], "out"@, 2 * (axes.gf * axes.df))
                },
                Err(refusal) => buffers::refused(f, test, refusal@),
            }
        }),
{
    let test = "full_attention"@;
    let steps = shims::full_attention_steps(f, axes);
    buffers::lemma_made(steps, r);
    buffers::lemma_spans();
    lemma_product(axes.tf as int, axes.df as int);
    lemma_product(axes.gf as int, axes.df as int);
    buffers::law_sign_inputs(f, test, "q"@, (axes.gf * axes.df) as nat, 0x3D80_0000);
    assert(buffers::sound(f, test, steps[0].1));
    buffers::law_sign_inputs(f, test, "k0"@, (axes.tf * axes.df) as nat, 0x3F80_0000);
    assert(buffers::sound(f, test, steps[1].1));
    buffers::law_sign_inputs(f, test, "k1"@, (axes.tf * axes.df) as nat, 0x3F80_0000);
    assert(buffers::sound(f, test, steps[2].1));
    buffers::law_uniform_inputs(
        f,
        test,
        "v0"@,
        (axes.tf * axes.df) as nat,
        0xBF00_0000,
        0x3F00_0000,
    );
    assert(buffers::sound(f, test, steps[3].1));
    buffers::law_uniform_inputs(
        f,
        test,
        "v1"@,
        (axes.tf * axes.df) as nat,
        0xBF00_0000,
        0x3F00_0000,
    );
    assert(buffers::sound(f, test, steps[4].1));
    buffers::law_masks(f, test, "mask0"@, axes.tf as nat, axes.tf as nat);
    assert(buffers::sound(f, test, steps[5].1));
    buffers::law_masks(f, test, "mask1"@, axes.tf as nat, 138);
    assert(buffers::sound(f, test, steps[6].1));
    buffers::law_zeros(axes.gf as nat, 32);
    assert(buffers::sound(f, test, steps[7].1));
    buffers::law_zeros(axes.gf as nat, 32);
    assert(buffers::sound(f, test, steps[8].1));
    buffers::law_zeros((axes.gf * axes.df) as nat, 16);
    assert(buffers::sound(f, test, steps[9].1));
    lemma_all_sound(f, test, steps, r);
}

/// The inputs of the output projection of a full-attention layer: the running sums are all four, or
/// uniform between two and four. They are these buffers, in this order and with these bytes, unless
/// they are refused for a checksum of the test.
pub proof fn law_full_attention_output_buffers(
    f: FixtureView,
    test: Seq<char>,
    axes: Axes,
    exact: bool,
    r: Result<Vec<Buffer>, Refusal>,
)
    requires
        stage::staged(r) == stage::settled(
            shims::full_attention_output_steps(f, test, axes, exact),
        ),
    ensures
        match r {
            Ok(b) => {
                &&& b@.len() == 6
                &&& if exact {
                    sign_buffer(b@[0], f, test, "x"@, "x"@, axes.gf * axes.df, 0x3F80_0000)
                } else {
                    uniform_buffer(
                        b@[0],
                        f,
                        test,
                        "x"@,
                        axes.gf * axes.df,
                        0xBF00_0000,
                        0x3F00_0000,
                    )
                }
                &&& if exact {
                    constant32_buffer(b@[1], f, test, "running_sum"@, axes.gf as int, 0x4080_0000)
                } else {
                    uniform32_buffer(
                        b@[1],
                        f,
                        test,
                        "running_sum"@,
                        axes.gf as int,
                        0x4000_0000,
                        0x4080_0000,
                    )
                }
                &&& uniform_buffer(
                    b@[2],
                    f,
                    test,
                    "post_attn_rms_weight"@,
                    axes.h as int,
                    0,
                    0x3F80_0000,
                )
                &&& banded_buffer(b@[3], f, test, "o_weight"@, axes.h * axes.qf, 7, 14, true)
                &&& uniform_buffer(b@[4], f, test, "o_weight_scale"@, axes.h as int, 0, 0x3A83_126F)
                &&& uniform_buffer(b@[5], f, test, "residual"@, axes.h as int, 0, 0x3F80_0000)
            },
            Err(refusal) => buffers::refused(f, test, refusal@),
        },
{
    let steps = shims::full_attention_output_steps(f, test, axes, exact);
    buffers::lemma_made(steps, r);
    buffers::lemma_spans();
    lemma_product(axes.gf as int, axes.df as int);
    lemma_product(axes.h as int, axes.qf as int);
    if exact {
        buffers::law_sign_inputs(f, test, "x"@, (axes.gf * axes.df) as nat, 0x3F80_0000);
    } else {
        buffers::law_uniform_inputs(
            f,
            test,
            "x"@,
            (axes.gf * axes.df) as nat,
            0xBF00_0000,
            0x3F00_0000,
        );
    }
    assert(buffers::sound(f, test, steps[0].1));
    if exact {
        lemma_constant32(
            f,
            test,
            "running_sum"@,
            Seq::new(axes.gf as nat, |i: int| shims::FOUR),
            0x4080_0000,
        );
    } else {
        buffers::law_uniform_binary32_inputs(
            f,
            test,
            "running_sum"@,
            axes.gf as nat,
            0x4000_0000,
            0x4080_0000,
        );
    }
    assert(buffers::sound(f, test, steps[1].1));
    buffers::law_uniform_inputs(f, test, "post_attn_rms_weight"@, axes.h as nat, 0, 0x3F80_0000);
    assert(buffers::sound(f, test, steps[2].1));
    buffers::law_banded_inputs(f, test, "o_weight"@, (axes.h * axes.qf) as nat, 7, 14, true);
    assert(buffers::sound(f, test, steps[3].1));
    buffers::law_uniform_inputs(f, test, "o_weight_scale"@, axes.h as nat, 0, 0x3A83_126F);
    assert(buffers::sound(f, test, steps[4].1));
    buffers::law_uniform_inputs(f, test, "residual"@, axes.h as nat, 0, 0x3F80_0000);
    assert(buffers::sound(f, test, steps[5].1));
    lemma_all_sound(f, test, steps, r);
}

/// The inputs of a feed-forward network: there is a scale to each group of sixteen weights, the
/// global scales are one over 9600, 9600 and 12928, and the layer scalar is 0.375, eight times.
/// They are these buffers, in this order and with these bytes, unless they are refused for a
/// checksum of the test.
pub proof fn law_decoder_feedforward_buffers(
    f: FixtureView,
    axes: Axes,
    r: Result<Vec<Buffer>, Refusal>,
)
    requires
        (axes.l * axes.h) % 2 == 0,
        (axes.h * axes.l) % 2 == 0,
        stage::staged(r) == stage::settled(shims::decoder_feedforward_steps(f, axes)),
    ensures
        ({
            let test = "decoder_feedforward"@;
            match r {
                Ok(b) => {
                    &&& b@.len() == 13
                    &&& uniform_buffer(b@[0], f, test, "residual"@, axes.h as int, 0, 0x3F80_0000)
                    &&& uniform_buffer(
                        b@[1],
                        f,
                        test,
                        "pre_ff_rms_weight"@,
                        axes.h as int,
                        0,
                        0x3F80_0000,
                    )
                    &&& uniform_buffer(
                        b@[2],
                        f,
                        test,
                        "post_ff_rms_weight"@,
                        axes.h as int,
                        0,
                        0x3F80_0000,
                    )
                    &&& packed_buffer(b@[3], f, test, "up_weight_packed"@, axes.l * axes.h)
                    &&& packed_buffer(b@[4], f, test, "gate_weight_packed"@, axes.l * axes.h)
                    &&& packed_buffer(b@[5], f, test, "down_weight_packed"@, axes.h * axes.l)
                    &&& banded_buffer(
                        b@[6],
                        f,
                        test,
                        "up_weight_scale"@,
                        axes.l * (axes.h / 16),
                        8,
                        10,
                        false,
                    )
                    &&& banded_buffer(
                        b@[7],
                        f,
                        test,
                        "gate_weight_scale"@,
                        axes.l * (axes.h / 16),
                        8,
                        10,
                        false,
                    )
                    &&& banded_buffer(
                        b@[8],
                        f,
                        test,
                        "down_weight_scale"@,
                        axes.h * (axes.l / 16),
                        8,
                        10,
                        false,
                    )
                    &&& constant32_buffer(
                        b@[9],
                        f,
                        test,
                        "up_global_scale"@,
                        1,
                        binary32::quotient_of(0x3F80_0000, 0x4616_0000),
                    )
                    &&& constant32_buffer(
                        b@[10],
                        f,
                        test,
                        "gate_global_scale"@,
                        1,
                        binary32::quotient_of(0x3F80_0000, 0x4616_0000),
                    )
                    &&& constant32_buffer(
                        b@[11],
                        f,
                        test,
                        "down_global_scale"@,
                        1,
                        binary32::quotient_of(0x3F80_0000, 0x464A_0000),
                    )
                    &&& constant16_buffer(b@[12], f, test, "layer_scalar"@, 8, 0x3EC0)
                },
                Err(refusal) => buffers::refused(f, test, refusal@),
            }
        }),
{
    let test = "decoder_feedforward"@;
    let steps = shims::decoder_feedforward_steps(f, axes);
    buffers::lemma_made(steps, r);
    buffers::lemma_spans();
    lemma_product(axes.l as int, axes.h as int);
    lemma_product(axes.h as int, axes.l as int);
    lemma_product(axes.l as int, (axes.h / 16) as int);
    lemma_product(axes.h as int, (axes.l / 16) as int);
    buffers::law_uniform_inputs(f, test, "residual"@, axes.h as nat, 0, 0x3F80_0000);
    assert(buffers::sound(f, test, steps[0].1));
    buffers::law_uniform_inputs(f, test, "pre_ff_rms_weight"@, axes.h as nat, 0, 0x3F80_0000);
    assert(buffers::sound(f, test, steps[1].1));
    buffers::law_uniform_inputs(f, test, "post_ff_rms_weight"@, axes.h as nat, 0, 0x3F80_0000);
    assert(buffers::sound(f, test, steps[2].1));
    buffers::law_packed_inputs(f, test, "up_weight_packed"@, (axes.l * axes.h) as nat);
    assert(buffers::sound(f, test, steps[3].1));
    buffers::law_packed_inputs(f, test, "gate_weight_packed"@, (axes.l * axes.h) as nat);
    assert(buffers::sound(f, test, steps[4].1));
    buffers::law_packed_inputs(f, test, "down_weight_packed"@, (axes.h * axes.l) as nat);
    assert(buffers::sound(f, test, steps[5].1));
    buffers::law_banded_inputs(
        f,
        test,
        "up_weight_scale"@,
        (axes.l * (axes.h / 16)) as nat,
        8,
        10,
        false,
    );
    assert(buffers::sound(f, test, steps[6].1));
    buffers::law_banded_inputs(
        f,
        test,
        "gate_weight_scale"@,
        (axes.l * (axes.h / 16)) as nat,
        8,
        10,
        false,
    );
    assert(buffers::sound(f, test, steps[7].1));
    buffers::law_banded_inputs(
        f,
        test,
        "down_weight_scale"@,
        (axes.h * (axes.l / 16)) as nat,
        8,
        10,
        false,
    );
    assert(buffers::sound(f, test, steps[8].1));
    lemma_constant32(
        f,
        test,
        "up_global_scale"@,
        seq![binary32::quotient_of(0x3F80_0000, 0x4616_0000)],
        binary32::quotient_of(0x3F80_0000, 0x4616_0000),
    );
    assert(buffers::sound(f, test, steps[9].1));
    lemma_constant32(
        f,
        test,
        "gate_global_scale"@,
        seq![binary32::quotient_of(0x3F80_0000, 0x4616_0000)],
        binary32::quotient_of(0x3F80_0000, 0x4616_0000),
    );
    assert(buffers::sound(f, test, steps[10].1));
    lemma_constant32(
        f,
        test,
        "down_global_scale"@,
        seq![binary32::quotient_of(0x3F80_0000, 0x464A_0000)],
        binary32::quotient_of(0x3F80_0000, 0x464A_0000),
    );
    assert(buffers::sound(f, test, steps[11].1));
    lemma_constant16(
        f,
        test,
        "layer_scalar"@,
        Seq::new(8, |i: int| shims::LAYER_SCALAR),
        0x3EC0_0000,
    );
    assert(prng::bf16_of(0x3EC0_0000) == 0x3EC0);
    assert(buffers::sound(f, test, steps[12].1));
    lemma_all_sound(f, test, steps, r);
}

/// The inputs of the final normalization and the output projection. They are these buffers, in this
/// order and with these bytes, unless they are refused for a checksum of the test.
pub proof fn law_final_norm_and_logits_buffers(
    f: FixtureView,
    axes: Axes,
    r: Result<Vec<Buffer>, Refusal>,
)
    requires
        0 < axes.h,
        0 < axes.w ==> axes.h <= 0x80_0000,
        stage::staged(r) == stage::settled(shims::final_norm_and_logits_steps(f, axes)),
    ensures
        ({
            let test = "final_norm_and_logits"@;
            match r {
                Ok(b) => {
                    &&& b@.len() == 4
                    &&& uniform_buffer(b@[0], f, test, "x"@, axes.h as int, 0, 0x3F80_0000)
                    &&& uniform_buffer(b@[1], f, test, "rms_weight"@, axes.h as int, 0, 0x3F80_0000)
                    &&& rows_buffer(b@[2], f, test, "lm_head_weight"@, axes.w as int, axes.h as int)
                    &&& blank_buffer(b@[3], "out"@, 2 * axes.w)
                },
                Err(refusal) => buffers::refused(f, test, refusal@),
            }
        }),
{
    let test = "final_norm_and_logits"@;
    let steps = shims::final_norm_and_logits_steps(f, axes);
    buffers::lemma_made(steps, r);
    buffers::lemma_spans();
    buffers::law_uniform_inputs(f, test, "x"@, axes.h as nat, 0, 0x3F80_0000);
    assert(buffers::sound(f, test, steps[0].1));
    buffers::law_uniform_inputs(f, test, "rms_weight"@, axes.h as nat, 0, 0x3F80_0000);
    assert(buffers::sound(f, test, steps[1].1));
    buffers::law_rows_in_blocks(f, test, "lm_head_weight"@, axes.w as nat, axes.h as nat);
    assert(buffers::sound(f, test, steps[2].1));
    buffers::law_zeros(axes.w as nat, 16);
    assert(buffers::sound(f, test, steps[3].1));
    lemma_all_sound(f, test, steps, r);
}

/// A mask, word by word.
pub proof fn lemma_mask_words(b: Seq<u8>, count: int, valid: int)
    requires
        buffers::masks(b, count, valid),
    ensures
        b.len() == 4 * count,
        forall|i: int|
            0 <= i < count ==> #[trigger] bytes::word_at(b, i) == if i < valid {
                0x3F80_0000u32
            } else {
                0
            },
{
    reveal(buffers::masks);
    assert forall|i: int| 0 <= i < count implies #[trigger] bytes::word_at(b, i) == if i < valid {
        0x3F80_0000u32
    } else {
        0
    } by {
        if i < valid {
            assert(elements::holds32(b, i, 0x3F80_0000));
        } else {
            assert(elements::holds32(b, i, 0));
        }
        bytes::law_numbers_are_read_lowest_byte_first(b, 4 * i);
    }
}

/// Whenever the inputs of the attention of a sliding-window layer are made, the fourth of them is
/// called `mask` and has a word for each place of the window: one in the first 300 places, zero in
/// all others.
pub proof fn law_the_mask_of_a_window_ends_after_300_places(
    f: FixtureView,
    axes: Axes,
    b: Vec<Buffer>,
    i: int,
)
    requires
        stage::staged(Ok(b)) == stage::settled(shims::sliding_attention_steps(f, axes)),
        0 <= i < axes.ts,
    ensures
        b@.len() == 5,
        b@[3].name@ == "mask"@,
        b@[3].bytes@.len() == 4 * axes.ts,
        i < 300 ==> bytes::word_at(b@[3].bytes@, i) == 0x3F80_0000,
        i >= 300 ==> bytes::word_at(b@[3].bytes@, i) == 0,
{
    law_sliding_attention_buffers(f, axes, Ok(b));
    lemma_mask_words(b@[3].bytes@, axes.ts as int, 300);
}

/// Whenever the inputs of the attention of a full-attention layer are made, the sixth of them is
/// called `mask0` and is one in every place, and the seventh is called `mask1` and is one in the
/// first 138 places and zero in all others.
pub proof fn law_the_masks_of_the_pages_end_after_all_and_138_places(
    f: FixtureView,
    axes: Axes,
    b: Vec<Buffer>,
    i: int,
)
    requires
        stage::staged(Ok(b)) == stage::settled(shims::full_attention_steps(f, axes)),
        0 <= i < axes.tf,
    ensures
        b@.len() == 10,
        b@[5].name@ == "mask0"@,
        b@[5].bytes@.len() == 4 * axes.tf,
        bytes::word_at(b@[5].bytes@, i) == 0x3F80_0000,
        b@[6].name@ == "mask1"@,
        b@[6].bytes@.len() == 4 * axes.tf,
        i < 138 ==> bytes::word_at(b@[6].bytes@, i) == 0x3F80_0000,
        i >= 138 ==> bytes::word_at(b@[6].bytes@, i) == 0,
{
    law_full_attention_buffers(f, axes, Ok(b));
    lemma_mask_words(b@[5].bytes@, axes.tf as int, axes.tf as int);
    lemma_mask_words(b@[6].bytes@, axes.tf as int, 138);
}

} // verus!
