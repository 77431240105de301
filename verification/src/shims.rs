//! The inputs of the text kernels.
use crate::binary32;
use crate::buffers_text;
use crate::bytes;
use crate::fixture::{Fixture, FixtureView};
use crate::logits;
use crate::prng;
use crate::rope;
use crate::stage;
use crate::stage::{Buffer, Stage, Steps};
use crate::synth;
use crate::synth::{Refusal, Synth, Verdict, ONE};
use crate::text;
use vstd::prelude::*;

verus! {

/// Least exponent of a weight.
pub const WEIGHT_EXP_MIN: u8 = 7;

/// Greatest exponent of a weight.
pub const WEIGHT_EXP_MAX: u8 = 14;

/// Least exponent of the scale of a group of weights.
pub const LOCAL_SCALE_EXP_MIN: u8 = 8;

/// Greatest exponent of the scale of a group of weights.
pub const LOCAL_SCALE_EXP_MAX: u8 = 10;

/// Bound of the scale of a row of weights: 0.001.
pub const ROW_SCALE_MAX: u32 = 0x3A83_126F;

/// Magnitude of a query: one sixteenth.
pub const SIXTEENTH: u32 = 0x3D80_0000;

/// Two.
pub const TWO: u32 = 0x4000_0000;

/// Four.
pub const FOUR: u32 = 0x4080_0000;

/// The scale of the hidden state behind a layer: 0.375.
pub const LAYER_SCALAR: u32 = 0x3EC0_0000;

/// What the up projection is divided by: 9600.
pub const UP_GLOBAL_SCALE: u32 = 0x4616_0000;

/// What the gating projection is divided by: 9600.
pub const GATING_GLOBAL_SCALE: u32 = 0x4616_0000;

/// What the down projection is divided by: 12928.
pub const DOWN_GLOBAL_SCALE: u32 = 0x464A_0000;

/// The position of the token under test.
pub const POS: usize = 137;

/// How much of a sliding window is filled.
pub const SLIDING_VALID: usize = 300;

/// The last row of the second page of a full-attention cache that is filled.
pub const FULL_ROW: usize = 137;

/// The token that is looked up.
pub const EMBED_TOKEN_ID: usize = 90_210;

/// Sizes of the named tensor dimensions.
#[derive(Clone, Copy, Debug)]
pub struct Axes {
    /// Text hidden state.
    pub h: usize,
    /// Vocabulary.
    pub w: usize,
    /// Rows of a rotation table.
    pub e: usize,
    /// Feed-forward hidden state.
    pub l: usize,
    /// Query projection of a sliding-window layer.
    pub qs: usize,
    /// Key or value projection of a sliding-window layer.
    pub ps: usize,
    /// Head of a sliding-window layer.
    pub ds: usize,
    /// Key heads of a sliding-window layer.
    pub ns: usize,
    /// Query heads to a key head of a sliding-window layer.
    pub gs: usize,
    /// Cache of a sliding-window layer.
    pub ts: usize,
    /// Query projection of a full-attention layer.
    pub qf: usize,
    /// Key projection of a full-attention layer.
    pub pf: usize,
    /// Head of a full-attention layer.
    pub df: usize,
    /// Query heads to the key head of a full-attention layer.
    pub gf: usize,
    /// Cache page of a full-attention layer.
    pub tf: usize,
    /// Pixels of an image patch.
    pub rv: usize,
    /// Embedding of an image patch.
    pub mv: usize,
    /// Output of the image encoder.
    pub ov: usize,
    /// Samples of an audio frame.
    pub aa: usize,
}

/// A vetted input of one 32-bit integer, a byte offset.
pub open spec fn offset_input(
    f: FixtureView,
    test: Seq<char>,
    name: Seq<char>,
    offset: int,
) -> Verdict {
    synth::i32_constant(f, test, name, (offset % 0x1_0000_0000) as u32)
}

/// A table of `rows` rows of which only that of the token looked up is not zero, once that row
/// is vetted.
#[verifier::opaque]
pub open spec fn embedding_table(
    f: FixtureView,
    test: Seq<char>,
    rows: nat,
    width: nat,
) -> Verdict {
    let row = prng::bf16_uniform_bytes(
        text::joined(test, "row"@),
        0,
        width,
        synth::CENTRED_MIN,
        synth::CENTRED_MAX,
    );
    synth::unless_objected(
        f,
        test,
        "row"@,
        prng::checksum_of(row, 0),
        rope::placed(2 * (rows * width), 2 * (EMBED_TOKEN_ID as nat * width), row),
    )
}

/// The low 32 bits of `n` as a signed integer.
fn low_word(n: usize) -> (r: i32)
    ensures
        (r as u32) == n as int % 0x1_0000_0000,
{
    let low: u32 = (n as u64 % 0x1_0000_0000) as u32;
    assert((low as i32) as u32 == low) by (bit_vector);
    low as i32
}

/// A byte offset, cut to 32 bits.
fn offset(s: &Synth<'_>, name: &str, n: usize) -> (r: Result<Vec<u8>, Refusal>)
    requires
        s.fixture.wf(),
    ensures
        synth::outcome(r) == offset_input(s.fixture@, s.test@, name@, n as int),
{
    s.constant_i32(name, low_word(n))
}

/// One over `scale`.
fn reciprocal(s: &Synth<'_>, name: &str, scale: u32) -> (r: Result<Vec<u8>, Refusal>)
    requires
        s.fixture.wf(),
    ensures
        synth::outcome(r) == synth::f32_constant(
            s.fixture@,
            s.test@,
            name@,
            seq![binary32::quotient_of(ONE, scale)],
        ),
{
    let values: Vec<u32> = vec![binary32::divide(ONE, scale)];
    assert(values@ =~= seq![binary32::quotient_of(ONE, scale)]);
    s.constant_f32(name, values.as_slice())
}

/// A table of `rows` rows of which only that of the token looked up is not zero.
fn embed_row(s: &Synth<'_>, rows: usize, width: usize) -> (r: Result<Vec<u8>, Refusal>)
    requires
        s.fixture.wf(),
        0 < width ==> EMBED_TOKEN_ID < rows,
        2 * (rows * width) <= isize::MAX,
    ensures
        synth::outcome(r) == embedding_table(s.fixture@, s.test@, rows as nat, width as nat),
{
    proof {
        reveal(embedding_table);
        rope::lemma_row_fits(rows as int, width as int, EMBED_TOKEN_ID as int);
    }
    let row = prng::bf16_uniform(
        s.seed("row").as_str(),
        width,
        synth::CENTRED_MIN,
        synth::CENTRED_MAX,
    );
    match s.verify("row", row.as_slice()) {
        Ok(_) => Ok(rope::place(2 * (rows * width), 2 * (EMBED_TOKEN_ID * width), row.as_slice())),
        Err(refusal) => Err(refusal),
    }
}

/// The inputs of a token lookup: a table with one row that is not zero, and where it starts.
pub open spec fn embed_token_steps(f: FixtureView, axes: Axes) -> Steps {
    let test = "embed_token"@;
    seq![
        ("embedding_table"@, embedding_table(f, test, axes.w as nat, axes.h as nat)),
        ("offset"@, offset_input(f, test, "offset"@, 2 * (EMBED_TOKEN_ID * axes.h))),
        ("out"@, Ok(synth::zero_bytes(axes.h as nat, 16))),
    ]
}

/// The inputs of a token lookup: a table with one row that is not zero, and where it starts.
pub fn embed_token(axes: &Axes, fixture: &Fixture) -> (r: Result<Vec<Buffer>, Refusal>)
    requires
        fixture.wf(),
        0 < axes.h ==> EMBED_TOKEN_ID < axes.w,
        2 * (axes.w * axes.h) <= isize::MAX,
        axes.h * 16 <= usize::MAX,
    ensures
        stage::staged(r) == stage::settled(embed_token_steps(fixture@, *axes)),
{
    let s = Synth::new("embed_token", fixture);
    proof {
        rope::lemma_row_fits(axes.w as int, axes.h as int, EMBED_TOKEN_ID as int);
    }
    let mut stage = Stage::new();
    stage.put("embedding_table", embed_row(&s, axes.w, axes.h));
    stage.put("offset", offset(&s, "offset", 2 * (EMBED_TOKEN_ID * axes.h)));
    stage.put("out", Ok(synth::zeros(axes.h, 16)));
    assert(stage.steps() =~= embed_token_steps(fixture@, *axes));
    stage.finish()
}

/// The inputs of a copy.
pub open spec fn copy_hidden_state_steps(f: FixtureView, axes: Axes) -> Steps {
    let test = "copy_hidden_state"@;
    seq![
        (
            "x"@,
            synth::bf16_input(f, test, "x"@, axes.h as nat, synth::CENTRED_MIN, synth::CENTRED_MAX),
        ),
        ("out"@, Ok(synth::zero_bytes(axes.h as nat, 16))),
    ]
}

/// The inputs of a copy.
pub fn copy_hidden_state(axes: &Axes, fixture: &Fixture) -> (r: Result<Vec<Buffer>, Refusal>)
    requires
        fixture.wf(),
        2 * axes.h <= isize::MAX,
        axes.h * 16 <= usize::MAX,
    ensures
        stage::staged(r) == stage::settled(copy_hidden_state_steps(fixture@, *axes)),
{
    let s = Synth::new("copy_hidden_state", fixture);
    let mut stage = Stage::new();
    stage.put("x", s.bf16("x", axes.h, synth::CENTRED_MIN, synth::CENTRED_MAX));
    stage.put("out", Ok(synth::zeros(axes.h, 16)));
    assert(stage.steps() =~= copy_hidden_state_steps(fixture@, *axes));
    stage.finish()
}

/// The inputs of the projections of a sliding-window layer.
pub open spec fn sliding_project_qkv_steps(
    f: FixtureView,
    test: Seq<char>,
    axes: Axes,
    exact: bool,
    cosines: Seq<u32>,
    sines: Seq<u32>,
) -> Steps {
    seq![
        (
            "input_rms_weight"@,
            synth::bf16_input(
                f,
                test,
                "input_rms_weight"@,
                axes.h as nat,
                synth::RMS_WEIGHT_MIN,
                synth::RMS_WEIGHT_MAX,
            ),
        ),
        ("x"@, if exact {
            synth::exact_input(f, test, axes.h as nat)
        } else {
            synth::signs_input(f, test, "x_signs"@, axes.h as nat, ONE)
        }),
        (
            "q_weight"@,
            synth::f8_input(
                f,
                test,
                "q_weight"@,
                (axes.qs * axes.h) as nat,
                WEIGHT_EXP_MIN,
                WEIGHT_EXP_MAX,
                true,
            ),
        ),
        (
            "k_weight"@,
            synth::f8_input(
                f,
                test,
                "k_weight"@,
                (axes.ps * axes.h) as nat,
                WEIGHT_EXP_MIN,
                WEIGHT_EXP_MAX,
                true,
            ),
        ),
        (
            "v_weight"@,
            synth::f8_input(
                f,
                test,
                "v_weight"@,
                (axes.ps * axes.h) as nat,
                WEIGHT_EXP_MIN,
                WEIGHT_EXP_MAX,
                true,
            ),
        ),
        (
            "q_weight_scale"@,
            synth::bf16_input(f, test, "q_weight_scale"@, axes.qs as nat, 0, ROW_SCALE_MAX),
        ),
        (
            "k_weight_scale"@,
            synth::bf16_input(f, test, "k_weight_scale"@, axes.ps as nat, 0, ROW_SCALE_MAX),
        ),
        (
            "v_weight_scale"@,
            synth::bf16_input(f, test, "v_weight_scale"@, axes.ps as nat, 0, ROW_SCALE_MAX),
        ),
        ("q_rms_weight"@, synth::bf16_input(f, test, "q_rms_weight"@, axes.ds as nat, 0, ONE)),
        ("k_rms_weight"@, synth::bf16_input(f, test, "k_rms_weight"@, axes.ds as nat, 0, ONE)),
        (
            "cos"@,
            rope::row_table(
                f,
                test,
                "cos"@,
                rope::tiled(axes.ds as nat, cosines, ONE),
                axes.e as nat,
                axes.ds as nat,
                POS as nat,
            ),
        ),
        (
            "sin"@,
            rope::row_table(
                f,
                test,
                "sin"@,
                rope::low_half_negated(rope::tiled(axes.ds as nat, sines, 0)),
                axes.e as nat,
                axes.ds as nat,
                POS as nat,
            ),
        ),
        ("rope_offset"@, offset_input(f, test, "rope_offset"@, 2 * (POS * axes.ds))),
        (
            "kv_offset"@,
            offset_input(f, test, "kv_offset"@, 2 * (POS % axes.ts * (axes.ns * axes.ds))),
        ),
        ("k_cache"@, Ok(synth::zero_bytes((axes.ts * (axes.ns * axes.ds)) as nat, 16))),
        ("v_cache"@, Ok(synth::zero_bytes((axes.ts * (axes.ns * axes.ds)) as nat, 16))),
        ("q_out"@, Ok(synth::zero_bytes((axes.ns * (axes.gs * axes.ds)) as nat, 16))),
    ]
}

/// The inputs of the projections of a sliding-window layer.
pub fn sliding_project_qkv(
    axes: &Axes,
    fixture: &Fixture,
    name: &str,
    exact: bool,
    cosines: &[u32],
    sines: &[u32],
) -> (r: Result<Vec<Buffer>, Refusal>)
    requires
        fixture.wf(),
        0 < axes.ts,
        axes.ns * axes.ds <= usize::MAX,
        axes.gs * axes.ds <= usize::MAX,
        2 * axes.h <= isize::MAX,
        axes.qs * axes.h <= isize::MAX,
        axes.ps * axes.h <= isize::MAX,
        2 * axes.qs <= isize::MAX,
        2 * axes.ps <= isize::MAX,
        2 * axes.ds <= isize::MAX,
        axes.ds != 1,
        0 < axes.ds ==> POS < axes.e,
        2 * (axes.e * axes.ds) <= isize::MAX,
        (axes.ts * (axes.ns * axes.ds)) * 16 <= usize::MAX,
        (axes.ns * (axes.gs * axes.ds)) * 16 <= usize::MAX,
    ensures
        stage::staged(r) == stage::settled(
            sliding_project_qkv_steps(fixture@, name@, *axes, exact, cosines@, sines@),
        ),
{
    let s = Synth::new(name, fixture);
    let (cos, sin) = rope::rope_tables(axes.ds, cosines, sines);
    proof {
        rope::lemma_row_fits(axes.e as int, axes.ds as int, POS as int);
        rope::lemma_row_fits(axes.ts as int, axes.ns * axes.ds, POS as int % axes.ts as int);
    }
    let mut stage = Stage::new();
    stage.put(
        "input_rms_weight",
        s.bf16("input_rms_weight", axes.h, synth::RMS_WEIGHT_MIN, synth::RMS_WEIGHT_MAX),
    );
    stage.put("x", if exact {
        synth::exact_rmsnorm_input(&s, axes.h)
    } else {
        s.signs("x_signs", axes.h, ONE)
    });
    stage.put("q_weight", s.f8("q_weight", axes.qs * axes.h, WEIGHT_EXP_MIN, WEIGHT_EXP_MAX, true));
    stage.put("k_weight", s.f8("k_weight", axes.ps * axes.h, WEIGHT_EXP_MIN, WEIGHT_EXP_MAX, true));
    stage.put("v_weight", s.f8("v_weight", axes.ps * axes.h, WEIGHT_EXP_MIN, WEIGHT_EXP_MAX, true));
    stage.put("q_weight_scale", s.bf16("q_weight_scale", axes.qs, 0, ROW_SCALE_MAX));
    stage.put("k_weight_scale", s.bf16("k_weight_scale", axes.ps, 0, ROW_SCALE_MAX));
    stage.put("v_weight_scale", s.bf16("v_weight_scale", axes.ps, 0, ROW_SCALE_MAX));
    stage.put("q_rms_weight", s.bf16("q_rms_weight", axes.ds, 0, ONE));
    stage.put("k_rms_weight", s.bf16("k_rms_weight", axes.ds, 0, ONE));
    stage.put("cos", rope::rope_table(&s, "cos", cos.as_slice(), axes.e, axes.ds, POS));
    stage.put(
        "sin",
        rope::rope_table(
            &s,
            "sin",
            rope::negate_low_half(sin.as_slice()).as_slice(),
            axes.e,
            axes.ds,
            POS,
        ),
    );
    stage.put("rope_offset", offset(&s, "rope_offset", 2 * (POS * axes.ds)));
    stage.put("kv_offset", offset(&s, "kv_offset", 2 * (POS % axes.ts * (axes.ns * axes.ds))));
    stage.put("k_cache", Ok(synth::zeros(axes.ts * (axes.ns * axes.ds), 16)));
    stage.put("v_cache", Ok(synth::zeros(axes.ts * (axes.ns * axes.ds), 16)));
    stage.put("q_out", Ok(synth::zeros(axes.ns * (axes.gs * axes.ds), 16)));
    assert(stage.steps() =~= sliding_project_qkv_steps(
        fixture@,
        name@,
        *axes,
        exact,
        cosines@,
        sines@,
    ));
    stage.finish()
}

/// The inputs of the attention of a sliding-window layer.
pub open spec fn sliding_attention_steps(f: FixtureView, axes: Axes) -> Steps {
    let test = "sliding_attention"@;
    seq![
        (
            "q"@,
            synth::signs_input(f, test, "q"@, (axes.ns * (axes.gs * axes.ds)) as nat, SIXTEENTH),
        ),
        ("k"@, synth::signs_input(f, test, "k"@, (axes.ts * (axes.ns * axes.ds)) as nat, ONE)),
        (
            "v"@,
            synth::bf16_input(
                f,
                test,
                "v"@,
                (axes.ts * (axes.ns * axes.ds)) as nat,
                synth::CENTRED_MIN,
                synth::CENTRED_MAX,
            ),
        ),
        (
            "mask"@,
            synth::f32_constant(
                f,
                test,
                "mask"@,
                rope::prefix_ones(axes.ts as nat, SLIDING_VALID as nat),
            ),
        ),
        ("out"@, Ok(synth::zero_bytes((axes.ns * (axes.gs * axes.ds)) as nat, 16))),
    ]
}

/// The inputs of the attention of a sliding-window layer.
pub fn sliding_attention(axes: &Axes, fixture: &Fixture) -> (r: Result<Vec<Buffer>, Refusal>)
    requires
        fixture.wf(),
        axes.ns * axes.ds <= usize::MAX,
        axes.gs * axes.ds <= usize::MAX,
        2 * (axes.ns * (axes.gs * axes.ds)) <= isize::MAX,
        2 * (axes.ts * (axes.ns * axes.ds)) <= isize::MAX,
        (axes.ns * (axes.gs * axes.ds)) * 16 <= usize::MAX,
    ensures
        stage::staged(r) == stage::settled(sliding_attention_steps(fixture@, *axes)),
        r matches Ok(b) ==> b@.len() == 5 && b@[3].name@ == "mask"@ && forall|i: int|
            0 <= i < axes.ts ==> #[trigger] bytes::word_at(b@[3].bytes@, i) == if i < 300 {
                ONE
            } else {
                0
            },
{
    let s = Synth::new("sliding_attention", fixture);
    let mut stage = Stage::new();
    stage.put("q", s.signs("q", axes.ns * (axes.gs * axes.ds), SIXTEENTH));
    stage.put("k", s.signs("k", axes.ts * (axes.ns * axes.ds), ONE));
    stage.put(
        "v",
        s.bf16("v", axes.ts * (axes.ns * axes.ds), synth::CENTRED_MIN, synth::CENTRED_MAX),
    );
    stage.put("mask", s.constant_f32("mask", rope::prefix_mask(axes.ts, SLIDING_VALID).as_slice()));
    stage.put("out", Ok(synth::zeros(axes.ns * (axes.gs * axes.ds), 16)));
    assert(stage.steps() =~= sliding_attention_steps(fixture@, *axes));
    let r = stage.finish();
    proof {
        buffers_text::law_sliding_attention_buffers(fixture@, *axes, r);
        if r is Ok {
            buffers_text::lemma_mask_words(r->Ok_0@[3].bytes@, axes.ts as int, 300);
        }
    }
    r
}

/// The inputs of the output projection of a sliding-window layer.
pub open spec fn sliding_attention_output_steps(
    f: FixtureView,
    test: Seq<char>,
    axes: Axes,
    exact: bool,
) -> Steps {
    seq![
        ("x"@, if exact {
            synth::signs_input(f, test, "x"@, (axes.ns * (axes.gs * axes.ds)) as nat, ONE)
        } else {
            synth::bf16_input(
                f,
                test,
                "x"@,
                (axes.ns * (axes.gs * axes.ds)) as nat,
                synth::CENTRED_MIN,
                synth::CENTRED_MAX,
            )
        }),
        (
            "post_attn_rms_weight"@,
            synth::bf16_input(f, test, "post_attn_rms_weight"@, axes.h as nat, 0, ONE),
        ),
        (
            "o_weight"@,
            synth::f8_input(
                f,
                test,
                "o_weight"@,
                (axes.h * axes.qs) as nat,
                WEIGHT_EXP_MIN,
                WEIGHT_EXP_MAX,
                true,
            ),
        ),
        (
            "o_weight_scale"@,
            synth::bf16_input(f, test, "o_weight_scale"@, axes.h as nat, 0, ROW_SCALE_MAX),
        ),
        ("residual"@, synth::bf16_input(f, test, "residual"@, axes.h as nat, 0, ONE)),
    ]
}

/// The inputs of the output projection of a sliding-window layer.
pub fn sliding_attention_output(
    axes: &Axes,
    fixture: &Fixture,
    name: &str,
    exact: bool,
) -> (r: Result<Vec<Buffer>, Refusal>)
    requires
        fixture.wf(),
        axes.gs * axes.ds <= usize::MAX,
        2 * (axes.ns * (axes.gs * axes.ds)) <= isize::MAX,
        2 * axes.h <= isize::MAX,
        axes.h * axes.qs <= isize::MAX,
    ensures
        stage::staged(r) == stage::settled(
            sliding_attention_output_steps(fixture@, name@, *axes, exact),
        ),
{
    let s = Synth::new(name, fixture);
    let mut stage = Stage::new();
    stage.put("x", if exact {
        s.signs("x", axes.ns * (axes.gs * axes.ds), ONE)
    } else {
        s.bf16("x", axes.ns * (axes.gs * axes.ds), synth::CENTRED_MIN, synth::CENTRED_MAX)
    });
    stage.put("post_attn_rms_weight", s.bf16("post_attn_rms_weight", axes.h, 0, ONE));
    stage.put("o_weight", s.f8("o_weight", axes.h * axes.qs, WEIGHT_EXP_MIN, WEIGHT_EXP_MAX, true));
    stage.put("o_weight_scale", s.bf16("o_weight_scale", axes.h, 0, ROW_SCALE_MAX));
    stage.put("residual", s.bf16("residual", axes.h, 0, ONE));
    assert(stage.steps() =~= sliding_attention_output_steps(fixture@, name@, *axes, exact));
    stage.finish()
}

/// The inputs of the projections of a full-attention layer.
pub open spec fn full_project_qkv_steps(
    f: FixtureView,
    test: Seq<char>,
    axes: Axes,
    exact: bool,
    cosines: Seq<u32>,
    sines: Seq<u32>,
) -> Steps {
    seq![
        (
            "input_rms_weight"@,
            synth::bf16_input(
                f,
                test,
                "input_rms_weight"@,
                axes.h as nat,
                synth::RMS_WEIGHT_MIN,
                synth::RMS_WEIGHT_MAX,
            ),
        ),
        ("x"@, if exact {
            synth::exact_input(f, test, axes.h as nat)
        } else {
            synth::signs_input(f, test, "x_signs"@, axes.h as nat, ONE)
        }),
        (
            "q_weight"@,
            synth::f8_input(
                f,
                test,
                "q_weight"@,
                (axes.qf * axes.h) as nat,
                WEIGHT_EXP_MIN,
                WEIGHT_EXP_MAX,
                true,
            ),
        ),
        (
            "k_weight"@,
            synth::f8_input(
                f,
                test,
                "k_weight"@,
                (axes.pf * axes.h) as nat,
                WEIGHT_EXP_MIN,
                WEIGHT_EXP_MAX,
                true,
            ),
        ),
        (
            "q_weight_scale"@,
            synth::bf16_input(f, test, "q_weight_scale"@, axes.qf as nat, 0, ROW_SCALE_MAX),
        ),
        (
            "k_weight_scale"@,
            synth::bf16_input(f, test, "k_weight_scale"@, axes.pf as nat, 0, ROW_SCALE_MAX),
        ),
        ("q_rms_weight"@, synth::bf16_input(f, test, "q_rms_weight"@, axes.df as nat, 0, ONE)),
        ("k_rms_weight"@, synth::bf16_input(f, test, "k_rms_weight"@, axes.df as nat, 0, ONE)),
        (
            "cos"@,
            rope::row_table(
                f,
                test,
                "cos"@,
                rope::tiled(axes.df as nat, cosines, ONE),
                axes.e as nat,
                axes.df as nat,
                POS as nat,
            ),
        ),
        (
            "sin"@,
            rope::row_table(
                f,
                test,
                "sin"@,
                rope::low_half_negated(rope::tiled(axes.df as nat, sines, 0)),
                axes.e as nat,
                axes.df as nat,
                POS as nat,
            ),
        ),
        ("rope_offset"@, offset_input(f, test, "rope_offset"@, 2 * (POS * axes.df))),
        ("kv_offset"@, offset_input(f, test, "kv_offset"@, 2 * (POS * axes.df))),
        ("k_cache"@, Ok(synth::zero_bytes((axes.tf * axes.df) as nat, 16))),
        ("v_cache"@, Ok(synth::zero_bytes((axes.tf * axes.df) as nat, 16))),
        ("q_out"@, Ok(synth::zero_bytes((axes.gf * axes.df) as nat, 16))),
    ]
}

/// The inputs of the projections of a full-attention layer.
pub fn full_project_qkv(
    axes: &Axes,
    fixture: &Fixture,
    name: &str,
    exact: bool,
    cosines: &[u32],
    sines: &[u32],
) -> (r: Result<Vec<Buffer>, Refusal>)
    requires
        fixture.wf(),
        2 * axes.h <= isize::MAX,
        axes.qf * axes.h <= isize::MAX,
        axes.pf * axes.h <= isize::MAX,
        2 * axes.qf <= isize::MAX,
        2 * axes.pf <= isize::MAX,
        2 * axes.df <= isize::MAX,
        axes.df != 1,
        0 < axes.df ==> POS < axes.e,
        2 * (axes.e * axes.df) <= isize::MAX,
        (axes.tf * axes.df) * 16 <= usize::MAX,
        (axes.gf * axes.df) * 16 <= usize::MAX,
    ensures
        stage::staged(r) == stage::settled(
            full_project_qkv_steps(fixture@, name@, *axes, exact, cosines@, sines@),
        ),
{
    let s = Synth::new(name, fixture);
    let (cos, sin) = rope::rope_tables(axes.df, cosines, sines);
    proof {
        rope::lemma_row_fits(axes.e as int, axes.df as int, POS as int);
    }
    let mut stage = Stage::new();
    stage.put(
        "input_rms_weight",
        s.bf16("input_rms_weight", axes.h, synth::RMS_WEIGHT_MIN, synth::RMS_WEIGHT_MAX),
    );
    stage.put("x", if exact {
        synth::exact_rmsnorm_input(&s, axes.h)
    } else {
        s.signs("x_signs", axes.h, ONE)
    });
    stage.put("q_weight", s.f8("q_weight", axes.qf * axes.h, WEIGHT_EXP_MIN, WEIGHT_EXP_MAX, true));
    stage.put("k_weight", s.f8("k_weight", axes.pf * axes.h, WEIGHT_EXP_MIN, WEIGHT_EXP_MAX, true));
    stage.put("q_weight_scale", s.bf16("q_weight_scale", axes.qf, 0, ROW_SCALE_MAX));
    stage.put("k_weight_scale", s.bf16("k_weight_scale", axes.pf, 0, ROW_SCALE_MAX));
    stage.put("q_rms_weight", s.bf16("q_rms_weight", axes.df, 0, ONE));
    stage.put("k_rms_weight", s.bf16("k_rms_weight", axes.df, 0, ONE));
    stage.put("cos", rope::rope_table(&s, "cos", cos.as_slice(), axes.e, axes.df, POS));
    stage.put(
        "sin",
        rope::rope_table(
            &s,
            "sin",
            rope::negate_low_half(sin.as_slice()).as_slice(),
            axes.e,
            axes.df,
            POS,
        ),
    );
    stage.put("rope_offset", offset(&s, "rope_offset", 2 * (POS * axes.df)));
    stage.put("kv_offset", offset(&s, "kv_offset", 2 * (POS * axes.df)));
    stage.put("k_cache", Ok(synth::zeros(axes.tf * axes.df, 16)));
    stage.put("v_cache", Ok(synth::zeros(axes.tf * axes.df, 16)));
    stage.put("q_out", Ok(synth::zeros(axes.gf * axes.df, 16)));
    assert(stage.steps() =~= full_project_qkv_steps(
        fixture@,
        name@,
        *axes,
        exact,
        cosines@,
        sines@,
    ));
    stage.finish()
}

/// The inputs of the attention of a full-attention layer over two pages.
pub open spec fn full_attention_steps(f: FixtureView, axes: Axes) -> Steps {
    let test = "full_attention"@;
    seq![
        ("q"@, synth::signs_input(f, test, "q"@, (axes.gf * axes.df) as nat, SIXTEENTH)),
        ("k0"@, synth::signs_input(f, test, "k0"@, (axes.tf * axes.df) as nat, ONE)),
        ("k1"@, synth::signs_input(f, test, "k1"@, (axes.tf * axes.df) as nat, ONE)),
        (
            "v0"@,
            synth::bf16_input(
                f,
                test,
                "v0"@,
                (axes.tf * axes.df) as nat,
                synth::CENTRED_MIN,
                synth::CENTRED_MAX,
            ),
        ),
        (
            "v1"@,
            synth::bf16_input(
                f,
                test,
                "v1"@,
                (axes.tf * axes.df) as nat,
                synth::CENTRED_MIN,
                synth::CENTRED_MAX,
            ),
        ),
        (
            "mask0"@,
            synth::f32_constant(
                f,
                test,
                "mask0"@,
                rope::prefix_ones(axes.tf as nat, axes.tf as nat),
            ),
        ),
        (
            "mask1"@,
            synth::f32_constant(
                f,
                test,
                "mask1"@,
                rope::prefix_ones(axes.tf as nat, (FULL_ROW + 1) as nat),
            ),
        ),
        ("running_max"@, Ok(synth::zero_bytes(axes.gf as nat, 32))),
        ("running_sum"@, Ok(synth::zero_bytes(axes.gf as nat, 32))),
        ("out"@, Ok(synth::zero_bytes((axes.gf * axes.df) as nat, 16))),
    ]
}

/// The inputs of the attention of a full-attention layer over two pages.
pub fn full_attention(axes: &Axes, fixture: &Fixture) -> (r: Result<Vec<Buffer>, Refusal>)
    requires
        fixture.wf(),
        2 * (axes.gf * axes.df) <= isize::MAX,
        2 * (axes.tf * axes.df) <= isize::MAX,
        axes.gf * 32 <= usize::MAX,
        (axes.gf * axes.df) * 16 <= usize::MAX,
    ensures
        stage::staged(r) == stage::settled(full_attention_steps(fixture@, *axes)),
{
    let s = Synth::new("full_attention", fixture);
    let mut stage = Stage::new();
    stage.put("q", s.signs("q", axes.gf * axes.df, SIXTEENTH));
    stage.put("k0", s.signs("k0", axes.tf * axes.df, ONE));
    stage.put("k1", s.signs("k1", axes.tf * axes.df, ONE));
    stage.put("v0", s.bf16("v0", axes.tf * axes.df, synth::CENTRED_MIN, synth::CENTRED_MAX));
    stage.put("v1", s.bf16("v1", axes.tf * axes.df, synth::CENTRED_MIN, synth::CENTRED_MAX));
    stage.put("mask0", s.constant_f32("mask0", rope::prefix_mask(axes.tf, axes.tf).as_slice()));
    stage.put(
        "mask1",
        s.constant_f32("mask1", rope::prefix_mask(axes.tf, FULL_ROW + 1).as_slice()),
    );
    stage.put("running_max", Ok(synth::zeros(axes.gf, 32)));
    stage.put("running_sum", Ok(synth::zeros(axes.gf, 32)));
    stage.put("out", Ok(synth::zeros(axes.gf * axes.df, 16)));
    assert(stage.steps() =~= full_attention_steps(fixture@, *axes));
    stage.finish()
}

/// The inputs of the output projection of a full-attention layer.
pub open spec fn full_attention_output_steps(
    f: FixtureView,
    test: Seq<char>,
    axes: Axes,
    exact: bool,
) -> Steps {
    seq![
        ("x"@, if exact {
            synth::signs_input(f, test, "x"@, (axes.gf * axes.df) as nat, ONE)
        } else {
            synth::bf16_input(
                f,
                test,
                "x"@,
                (axes.gf * axes.df) as nat,
                synth::CENTRED_MIN,
                synth::CENTRED_MAX,
            )
        }),
        ("running_sum"@, if exact {
            synth::f32_constant(f, test, "running_sum"@, Seq::new(axes.gf as nat, |i: int| FOUR))
        } else {
            synth::float32_input(f, test, "running_sum"@, axes.gf as nat, TWO, FOUR)
        }),
        (
            "post_attn_rms_weight"@,
            synth::bf16_input(f, test, "post_attn_rms_weight"@, axes.h as nat, 0, ONE),
        ),
        (
            "o_weight"@,
            synth::f8_input(
                f,
                test,
                "o_weight"@,
                (axes.h * axes.qf) as nat,
                WEIGHT_EXP_MIN,
                WEIGHT_EXP_MAX,
                true,
            ),
        ),
        (
            "o_weight_scale"@,
            synth::bf16_input(f, test, "o_weight_scale"@, axes.h as nat, 0, ROW_SCALE_MAX),
        ),
        ("residual"@, synth::bf16_input(f, test, "residual"@, axes.h as nat, 0, ONE)),
    ]
}

/// The inputs of the output projection of a full-attention layer.
pub fn full_attention_output(
    axes: &Axes,
    fixture: &Fixture,
    name: &str,
    exact: bool,
) -> (r: Result<Vec<Buffer>, Refusal>)
    requires
        fixture.wf(),
        2 * (axes.gf * axes.df) <= isize::MAX,
        4 * axes.gf <= isize::MAX,
        2 * axes.h <= isize::MAX,
        axes.h * axes.qf <= isize::MAX,
    ensures
        stage::staged(r) == stage::settled(
            full_attention_output_steps(fixture@, name@, *axes, exact),
        ),
{
    let s = Synth::new(name, fixture);
    let mut stage = Stage::new();
    stage.put("x", if exact {
        s.signs("x", axes.gf * axes.df, ONE)
    } else {
        s.bf16("x", axes.gf * axes.df, synth::CENTRED_MIN, synth::CENTRED_MAX)
    });
    stage.put("running_sum", if exact {
        let sums: Vec<u32> = vec![FOUR; axes.gf];
        assert(sums@ =~= Seq::new(axes.gf as nat, |i: int| FOUR));
        s.constant_f32("running_sum", sums.as_slice())
    } else {
        s.float32("running_sum", axes.gf, TWO, FOUR)
    });
    stage.put("post_attn_rms_weight", s.bf16("post_attn_rms_weight", axes.h, 0, ONE));
    stage.put("o_weight", s.f8("o_weight", axes.h * axes.qf, WEIGHT_EXP_MIN, WEIGHT_EXP_MAX, true));
    stage.put("o_weight_scale", s.bf16("o_weight_scale", axes.h, 0, ROW_SCALE_MAX));
    stage.put("residual", s.bf16("residual", axes.h, 0, ONE));
    assert(stage.steps() =~= full_attention_output_steps(fixture@, name@, *axes, exact));
    stage.finish()
}

/// The inputs of a feed-forward network.
pub open spec fn decoder_feedforward_steps(f: FixtureView, axes: Axes) -> Steps {
    let test = "decoder_feedforward"@;
    seq![
        ("residual"@, synth::bf16_input(f, test, "residual"@, axes.h as nat, 0, ONE)),
        (
            "pre_ff_rms_weight"@,
            synth::bf16_input(f, test, "pre_ff_rms_weight"@, axes.h as nat, 0, ONE),
        ),
        (
            "post_ff_rms_weight"@,
            synth::bf16_input(f, test, "post_ff_rms_weight"@, axes.h as nat, 0, ONE),
        ),
        (
            "up_weight_packed"@,
            synth::f4_input(f, test, "up_weight_packed"@, (axes.l * axes.h) as nat),
        ),
        (
            "gate_weight_packed"@,
            synth::f4_input(f, test, "gate_weight_packed"@, (axes.l * axes.h) as nat),
        ),
        (
            "down_weight_packed"@,
            synth::f4_input(f, test, "down_weight_packed"@, (axes.h * axes.l) as nat),
        ),
        (
            "up_weight_scale"@,
            synth::f8_input(
                f,
                test,
                "up_weight_scale"@,
                (axes.l * (axes.h / 16)) as nat,
                LOCAL_SCALE_EXP_MIN,
                LOCAL_SCALE_EXP_MAX,
                false,
            ),
        ),
        (
            "gate_weight_scale"@,
            synth::f8_input(
                f,
                test,
                "gate_weight_scale"@,
                (axes.l * (axes.h / 16)) as nat,
                LOCAL_SCALE_EXP_MIN,
                LOCAL_SCALE_EXP_MAX,
                false,
            ),
        ),
        (
            "down_weight_scale"@,
            synth::f8_input(
                f,
                test,
                "down_weight_scale"@,
                (axes.h * (axes.l / 16)) as nat,
                LOCAL_SCALE_EXP_MIN,
                LOCAL_SCALE_EXP_MAX,
                false,
            ),
        ),
        (
            "up_global_scale"@,
            synth::f32_constant(
                f,
                test,
                "up_global_scale"@,
                seq![binary32::quotient_of(ONE, UP_GLOBAL_SCALE)],
            ),
        ),
        (
            "gate_global_scale"@,
            synth::f32_constant(
                f,
                test,
                "gate_global_scale"@,
                seq![binary32::quotient_of(ONE, GATING_GLOBAL_SCALE)],
            ),
        ),
        (
            "down_global_scale"@,
            synth::f32_constant(
                f,
                test,
                "down_global_scale"@,
                seq![binary32::quotient_of(ONE, DOWN_GLOBAL_SCALE)],
            ),
        ),
        (
            "layer_scalar"@,
            synth::bf16_constant(f, test, "layer_scalar"@, Seq::new(8, |i: int| LAYER_SCALAR)),
        ),
    ]
}

/// The inputs of a feed-forward network.
pub fn decoder_feedforward(axes: &Axes, fixture: &Fixture) -> (r: Result<Vec<Buffer>, Refusal>)
    requires
        fixture.wf(),
        axes.h % 16 == 0,
        axes.l % 16 == 0,
        2 * axes.h <= isize::MAX,
        axes.l * axes.h <= usize::MAX,
        (axes.l * axes.h) % 2 == 0,
        axes.h * axes.l <= usize::MAX,
        (axes.h * axes.l) % 2 == 0,
        axes.l * (axes.h / 16) <= isize::MAX,
        axes.h * (axes.l / 16) <= isize::MAX,
    ensures
        stage::staged(r) == stage::settled(decoder_feedforward_steps(fixture@, *axes)),
{
    let s = Synth::new("decoder_feedforward", fixture);
    let scalars: Vec<u32> = vec![LAYER_SCALAR; 8];
    assert(scalars@ =~= Seq::new(8, |i: int| LAYER_SCALAR));
    let mut stage = Stage::new();
    stage.put("residual", s.bf16("residual", axes.h, 0, ONE));
    stage.put("pre_ff_rms_weight", s.bf16("pre_ff_rms_weight", axes.h, 0, ONE));
    stage.put("post_ff_rms_weight", s.bf16("post_ff_rms_weight", axes.h, 0, ONE));
    stage.put("up_weight_packed", s.f4("up_weight_packed", axes.l * axes.h));
    stage.put("gate_weight_packed", s.f4("gate_weight_packed", axes.l * axes.h));
    stage.put("down_weight_packed", s.f4("down_weight_packed", axes.h * axes.l));
    stage.put(
        "up_weight_scale",
        s.f8(
            "up_weight_scale",
            axes.l * (axes.h / 16),
            LOCAL_SCALE_EXP_MIN,
            LOCAL_SCALE_EXP_MAX,
            false,
        ),
    );
    stage.put(
        "gate_weight_scale",
        s.f8(
            "gate_weight_scale",
            axes.l * (axes.h / 16),
            LOCAL_SCALE_EXP_MIN,
            LOCAL_SCALE_EXP_MAX,
            false,
        ),
    );
    stage.put(
        "down_weight_scale",
        s.f8(
            "down_weight_scale",
            axes.h * (axes.l / 16),
            LOCAL_SCALE_EXP_MIN,
            LOCAL_SCALE_EXP_MAX,
            false,
        ),
    );
    stage.put("up_global_scale", reciprocal(&s, "up_global_scale", UP_GLOBAL_SCALE));
    stage.put("gate_global_scale", reciprocal(&s, "gate_global_scale", GATING_GLOBAL_SCALE));
    stage.put("down_global_scale", reciprocal(&s, "down_global_scale", DOWN_GLOBAL_SCALE));
    stage.put("layer_scalar", s.constant_bf16("layer_scalar", scalars.as_slice()));
    assert(stage.steps() =~= decoder_feedforward_steps(fixture@, *axes));
    stage.finish()
}

/// The inputs of the final normalization and the output projection.
pub open spec fn final_norm_and_logits_steps(f: FixtureView, axes: Axes) -> Steps {
    let test = "final_norm_and_logits"@;
    seq![
        ("x"@, synth::bf16_input(f, test, "x"@, axes.h as nat, 0, ONE)),
        ("rms_weight"@, synth::bf16_input(f, test, "rms_weight"@, axes.h as nat, 0, ONE)),
        (
            "lm_head_weight"@,
            logits::rows_input(f, test, "lm_head_weight"@, axes.w as nat, axes.h as nat),
        ),
        ("out"@, Ok(synth::zero_bytes(axes.w as nat, 16))),
    ]
}

/// The inputs of the final normalization and the output projection.
pub fn final_norm_and_logits(axes: &Axes, fixture: &Fixture) -> (r: Result<Vec<Buffer>, Refusal>)
    requires
        fixture.wf(),
        0 < axes.h,
        0 < axes.w ==> axes.h <= logits::BLOCK,
        2 * (axes.w * axes.h) <= isize::MAX,
        2 * axes.h <= isize::MAX,
        axes.w * 16 <= usize::MAX,
    ensures
        stage::staged(r) == stage::settled(final_norm_and_logits_steps(fixture@, *axes)),
{
    let s = Synth::new("final_norm_and_logits", fixture);
    let mut stage = Stage::new();
    stage.put("x", s.bf16("x", axes.h, 0, ONE));
    stage.put("rms_weight", s.bf16("rms_weight", axes.h, 0, ONE));
    stage.put("lm_head_weight", logits::rows_in_blocks(&s, "lm_head_weight", axes.w, axes.h));
    stage.put("out", Ok(synth::zeros(axes.w, 16)));
    assert(stage.steps() =~= final_norm_and_logits_steps(fixture@, *axes));
    stage.finish()
}

} // verus!
