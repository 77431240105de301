//! What holds of the inputs of the kernels: offsets point at their rows, and no test depends on
//! another.
use crate::fixture;
use crate::fixture::FixtureView;
use crate::fixture_laws;
use crate::logits;
use crate::outputs;
use crate::prng;
use crate::rope;
use crate::shims;
use crate::shims::{Axes, EMBED_TOKEN_ID, POS};
use crate::shims_media;
use crate::synth;
use crate::synth_laws;
use crate::text;
use vstd::prelude::*;

verus! {

/// The offset of a token lookup points at the one row of the table that is not zero.
pub proof fn law_embed_offset_points_at_the_row(f: FixtureView, axes: Axes)
    requires
        0 < axes.h ==> EMBED_TOKEN_ID < axes.w,
    ensures
        ({
            let steps = shims::embed_token_steps(f, axes);
            let at = 2 * (EMBED_TOKEN_ID * axes.h);
            &&& steps[1] == ("offset"@, shims::offset_input(f, "embed_token"@, "offset"@, at))
            &&& steps[0].1 matches Ok(table) ==> table.len() == 2 * (axes.w * axes.h)
                && table.subrange(at, at + 2 * axes.h) == prng::bf16_uniform_bytes(
                text::joined("embed_token"@, "row"@),
                0,
                axes.h as nat,
                synth::CENTRED_MIN,
                synth::CENTRED_MAX,
            )
        }),
{
    reveal(shims::embedding_table);
    rope::lemma_row_fits(axes.w as int, axes.h as int, EMBED_TOKEN_ID as int);
    let row = prng::bf16_uniform_bytes(
        text::joined("embed_token"@, "row"@),
        0,
        axes.h as nat,
        synth::CENTRED_MIN,
        synth::CENTRED_MAX,
    );
    synth_laws::law_placed_rows_are_read_back(
        2 * (axes.w as nat * axes.h as nat),
        2 * (EMBED_TOKEN_ID as nat * axes.h as nat),
        row,
    );
}

/// A vetted table with values in row `pos` holds them where that row starts.
proof fn lemma_row_of_table(
    f: FixtureView,
    test: Seq<char>,
    name: Seq<char>,
    values: Seq<u32>,
    rows: nat,
    pos: nat,
)
    requires
        0 < values.len() ==> pos < rows,
    ensures
        rope::row_table(f, test, name, values, rows, values.len(), pos) matches Ok(table)
            ==> table.subrange(
            2 * (pos * values.len()) as int,
            2 * (pos * values.len()) + 2 * values.len() as int,
        ) == synth::bf16_bytes(values),
{
    reveal(rope::row_table);
    rope::lemma_row_fits(rows as int, values.len() as int, pos as int);
    synth_laws::law_placed_rows_are_read_back(
        2 * (rows * values.len()),
        2 * (pos * values.len()),
        synth::bf16_bytes(values),
    );
}

/// The rotation offset of a sliding-window layer points at the rotation of the token under test.
pub proof fn law_sliding_rotation_offset_points_at_the_row(
    f: FixtureView,
    test: Seq<char>,
    axes: Axes,
    exact: bool,
    cosines: Seq<u32>,
    sines: Seq<u32>,
)
    requires
        0 < axes.ds ==> POS < axes.e,
    ensures
        ({
            let steps = shims::sliding_project_qkv_steps(f, test, axes, exact, cosines, sines);
            let at = 2 * (POS * axes.ds);
            let cos = rope::tiled(axes.ds as nat, cosines, synth::ONE);
            let sin = rope::low_half_negated(rope::tiled(axes.ds as nat, sines, 0));
            &&& steps[12] == ("rope_offset"@, shims::offset_input(f, test, "rope_offset"@, at))
            &&& steps[10].0 == "cos"@
            &&& steps[10].1 matches Ok(table) ==> table.subrange(at, at + 2 * axes.ds)
                == synth::bf16_bytes(cos)
            &&& steps[11].0 == "sin"@
            &&& steps[11].1 matches Ok(table) ==> table.subrange(at, at + 2 * axes.ds)
                == synth::bf16_bytes(sin)
        }),
{
    let cos = rope::tiled(axes.ds as nat, cosines, synth::ONE);
    let sin = rope::low_half_negated(rope::tiled(axes.ds as nat, sines, 0));
    lemma_row_of_table(f, test, "cos"@, cos, axes.e as nat, POS as nat);
    lemma_row_of_table(f, test, "sin"@, sin, axes.e as nat, POS as nat);
}

/// The rotation offset of a full-attention layer points at the rotation of the token under test.
pub proof fn law_full_rotation_offset_points_at_the_row(
    f: FixtureView,
    test: Seq<char>,
    axes: Axes,
    exact: bool,
    cosines: Seq<u32>,
    sines: Seq<u32>,
)
    requires
        0 < axes.df ==> POS < axes.e,
    ensures
        ({
            let steps = shims::full_project_qkv_steps(f, test, axes, exact, cosines, sines);
            let at = 2 * (POS * axes.df);
            let cos = rope::tiled(axes.df as nat, cosines, synth::ONE);
            let sin = rope::low_half_negated(rope::tiled(axes.df as nat, sines, 0));
            &&& steps[10] == ("rope_offset"@, shims::offset_input(f, test, "rope_offset"@, at))
            &&& steps[8].0 == "cos"@
            &&& steps[8].1 matches Ok(table) ==> table.subrange(at, at + 2 * axes.df)
                == synth::bf16_bytes(cos)
            &&& steps[9].0 == "sin"@
            &&& steps[9].1 matches Ok(table) ==> table.subrange(at, at + 2 * axes.df)
                == synth::bf16_bytes(sin)
        }),
{
    let cos = rope::tiled(axes.df as nat, cosines, synth::ONE);
    let sin = rope::low_half_negated(rope::tiled(axes.df as nat, sines, 0));
    lemma_row_of_table(f, test, "cos"@, cos, axes.e as nat, POS as nat);
    lemma_row_of_table(f, test, "sin"@, sin, axes.e as nat, POS as nat);
}

/// The row that is read back from a cache of a sliding-window layer starts at the element, of two
/// bytes, that the cache offset points at, and lies inside the cache.
pub proof fn law_sliding_rows_are_read_where_the_offset_points(
    f: FixtureView,
    test: Seq<char>,
    axes: Axes,
    exact: bool,
    cosines: Seq<u32>,
    sines: Seq<u32>,
    cache: Seq<u32>,
)
    requires
        0 < axes.ts,
        cache.len() == axes.ts * (axes.ns * axes.ds),
    ensures
        ({
            let steps = shims::sliding_project_qkv_steps(f, test, axes, exact, cosines, sines);
            let width = axes.ns * axes.ds;
            let at = POS as int % axes.ts as int * width;
            &&& steps[13] == ("kv_offset"@, shims::offset_input(f, test, "kv_offset"@, 2 * at))
            &&& at + width <= cache.len()
            &&& outputs::row_of(cache, (POS as int % axes.ts as int) as nat, width as nat)
                == cache.subrange(at, at + width)
        }),
{
    let width = axes.ns * axes.ds;
    let slot = POS as int % axes.ts as int;
    assert(0 <= width) by (nonlinear_arith)
        requires
            width == axes.ns * axes.ds,
    ;
    rope::lemma_row_fits(axes.ts as int, width, slot);
    assert(outputs::row_of(cache, slot as nat, width as nat) =~= cache.subrange(
        slot * width,
        slot * width + width,
    ));
}

/// The row that is read back from a cache of a full-attention layer starts at the element, of two
/// bytes, that the cache offset points at, and lies inside the cache.
pub proof fn law_full_rows_are_read_where_the_offset_points(
    f: FixtureView,
    test: Seq<char>,
    axes: Axes,
    exact: bool,
    cosines: Seq<u32>,
    sines: Seq<u32>,
    cache: Seq<u32>,
)
    requires
        0 < axes.df ==> POS < axes.tf,
        cache.len() == axes.tf * axes.df,
    ensures
        ({
            let steps = shims::full_project_qkv_steps(f, test, axes, exact, cosines, sines);
            let at = POS * axes.df;
            &&& steps[11] == ("kv_offset"@, shims::offset_input(f, test, "kv_offset"@, 2 * at))
            &&& at + axes.df <= cache.len()
            &&& outputs::row_of(cache, POS as nat, axes.df as nat) == cache.subrange(
                at,
                at + axes.df,
            )
        }),
{
    rope::lemma_row_fits(axes.tf as int, axes.df as int, POS as int);
    assert(outputs::row_of(cache, POS as nat, axes.df as nat) =~= cache.subrange(
        POS * axes.df,
        POS * axes.df + axes.df,
    ));
}

/// Whether two fixtures record the same checksums of the inputs of a test.
pub open spec fn agree(f: FixtureView, g: FixtureView, test: Seq<char>) -> bool {
    forall|name: Seq<char>|
        {
            let key = #[trigger] fixture::check_key(test, name);
            &&& f.checksums.contains_key(key) <==> g.checksums.contains_key(key)
            &&& f.checksums.contains_key(key) ==> f.checksums[key] == g.checksums[key]
        }
}

proof fn lemma_same_objection(
    f: FixtureView,
    g: FixtureView,
    test: Seq<char>,
    name: Seq<char>,
    sum: u32,
)
    requires
        agree(f, g, test),
    ensures
        synth::objection(f, test, name, sum) == synth::objection(g, test, name, sum),
{
    let key = fixture::check_key(test, name);
}

/// Inputs of each kind are the same under fixtures that agree on their test.
proof fn lemma_same_inputs(f: FixtureView, g: FixtureView, test: Seq<char>)
    requires
        agree(f, g, test),
    ensures
        forall|name: Seq<char>, count: nat, lo: u32, hi: u32| #[trigger]
            synth::bf16_input(f, test, name, count, lo, hi) == synth::bf16_input(
                g,
                test,
                name,
                count,
                lo,
                hi,
            ),
        forall|name: Seq<char>, count: nat, scale: u32| #[trigger]
            synth::signs_input(f, test, name, count, scale) == synth::signs_input(
                g,
                test,
                name,
                count,
                scale,
            ),
        forall|name: Seq<char>, count: nat, low: u8, high: u8, signed: bool| #[trigger]
            synth::f8_input(f, test, name, count, low, high, signed) == synth::f8_input(
                g,
                test,
                name,
                count,
                low,
                high,
                signed,
            ),
        forall|name: Seq<char>, count: nat| #[trigger]
            synth::f4_input(f, test, name, count) == synth::f4_input(g, test, name, count),
        forall|name: Seq<char>, count: nat, lo: u32, hi: u32| #[trigger]
            synth::float32_input(f, test, name, count, lo, hi) == synth::float32_input(
                g,
                test,
                name,
                count,
                lo,
                hi,
            ),
        forall|name: Seq<char>, values: Seq<u32>| #[trigger]
            synth::f32_constant(f, test, name, values) == synth::f32_constant(
                g,
                test,
                name,
                values,
            ),
        forall|name: Seq<char>, values: Seq<u32>| #[trigger]
            synth::bf16_constant(f, test, name, values) == synth::bf16_constant(
                g,
                test,
                name,
                values,
            ),
        forall|name: Seq<char>, value: u32| #[trigger]
            synth::i32_constant(f, test, name, value) == synth::i32_constant(g, test, name, value),
        forall|count: nat| #[trigger]
            synth::exact_input(f, test, count) == synth::exact_input(g, test, count),
        forall|name: Seq<char>, values: Seq<u32>, rows: nat, width: nat, pos: nat| #[trigger]
            rope::row_table(f, test, name, values, rows, width, pos) == rope::row_table(
                g,
                test,
                name,
                values,
                rows,
                width,
                pos,
            ),
        forall|rows: nat, width: nat| #[trigger]
            shims::embedding_table(f, test, rows, width) == shims::embedding_table(
                g,
                test,
                rows,
                width,
            ),
        forall|name: Seq<char>, rows: nat, width: nat| #[trigger]
            logits::rows_input(f, test, name, rows, width) == logits::rows_input(
                g,
                test,
                name,
                rows,
                width,
            ),
{
    assert forall|name: Seq<char>, sum: u32| #[trigger]
        synth::objection(f, test, name, sum) == synth::objection(g, test, name, sum) by {
        lemma_same_objection(f, g, test, name, sum);
    }
    reveal(synth::bf16_input);
    reveal(synth::signs_input);
    reveal(synth::f8_input);
    reveal(synth::f4_input);
    reveal(synth::float32_input);
    reveal(synth::f32_constant);
    reveal(synth::bf16_constant);
    reveal(synth::i32_constant);
    reveal(synth::exact_input);
    reveal(rope::row_table);
    reveal(shims::embedding_table);
    reveal(logits::rows_input);
}

/// The inputs of a text kernel depend on no checksum of any test but its own.
pub proof fn law_text_inputs_depend_on_their_own_checksums(
    f: FixtureView,
    g: FixtureView,
    test: Seq<char>,
    axes: Axes,
    exact: bool,
    cosines: Seq<u32>,
    sines: Seq<u32>,
)
    ensures
        agree(f, g, "embed_token"@) ==> shims::embed_token_steps(f, axes)
            == shims::embed_token_steps(g, axes),
        agree(f, g, "copy_hidden_state"@) ==> shims::copy_hidden_state_steps(f, axes)
            == shims::copy_hidden_state_steps(g, axes),
        agree(f, g, test) ==> shims::sliding_project_qkv_steps(
            f,
            test,
            axes,
            exact,
            cosines,
            sines,
        ) == shims::sliding_project_qkv_steps(g, test, axes, exact, cosines, sines),
        agree(f, g, "sliding_attention"@) ==> shims::sliding_attention_steps(f, axes)
            == shims::sliding_attention_steps(g, axes),
        agree(f, g, test) ==> shims::sliding_attention_output_steps(f, test, axes, exact)
            == shims::sliding_attention_output_steps(g, test, axes, exact),
        agree(f, g, test) ==> shims::full_project_qkv_steps(f, test, axes, exact, cosines, sines)
            == shims::full_project_qkv_steps(g, test, axes, exact, cosines, sines),
        agree(f, g, "full_attention"@) ==> shims::full_attention_steps(f, axes)
            == shims::full_attention_steps(g, axes),
        agree(f, g, test) ==> shims::full_attention_output_steps(f, test, axes, exact)
            == shims::full_attention_output_steps(g, test, axes, exact),
        agree(f, g, "decoder_feedforward"@) ==> shims::decoder_feedforward_steps(f, axes)
            == shims::decoder_feedforward_steps(g, axes),
        agree(f, g, "final_norm_and_logits"@) ==> shims::final_norm_and_logits_steps(f, axes)
            == shims::final_norm_and_logits_steps(g, axes),
{
    if agree(f, g, "embed_token"@) {
        lemma_same_inputs(f, g, "embed_token"@);
    }
    if agree(f, g, "copy_hidden_state"@) {
        lemma_same_inputs(f, g, "copy_hidden_state"@);
    }
    if agree(f, g, test) {
        lemma_same_inputs(f, g, test);
    }
    if agree(f, g, "sliding_attention"@) {
        lemma_same_inputs(f, g, "sliding_attention"@);
    }
    if agree(f, g, "full_attention"@) {
        lemma_same_inputs(f, g, "full_attention"@);
    }
    if agree(f, g, "decoder_feedforward"@) {
        lemma_same_inputs(f, g, "decoder_feedforward"@);
    }
    if agree(f, g, "final_norm_and_logits"@) {
        lemma_same_inputs(f, g, "final_norm_and_logits"@);
    }
}

/// The inputs of an image or audio kernel depend on no checksum of any test but its own.
pub proof fn law_media_inputs_depend_on_their_own_checksums(
    f: FixtureView,
    g: FixtureView,
    axes: Axes,
)
    ensures
        agree(f, g, "patch_embed"@) ==> shims_media::patch_embed_steps(f, axes)
            == shims_media::patch_embed_steps(g, axes),
        agree(f, g, "add_position_and_norm"@) ==> shims_media::add_position_and_norm_steps(f, axes)
            == shims_media::add_position_and_norm_steps(g, axes),
        agree(f, g, "project_to_text_embedding"@)
            ==> shims_media::project_to_text_embedding_steps(f, axes)
            == shims_media::project_to_text_embedding_steps(g, axes),
        agree(f, g, "audio_project_frame"@) ==> shims_media::audio_project_frame_steps(f, axes)
            == shims_media::audio_project_frame_steps(g, axes),
        agree(f, g, "layernorm"@) ==> shims_media::layernorm_steps(f, axes)
            == shims_media::layernorm_steps(g, axes),
{
    if agree(f, g, "patch_embed"@) {
        lemma_same_inputs(f, g, "patch_embed"@);
    }
    if agree(f, g, "add_position_and_norm"@) {
        lemma_same_inputs(f, g, "add_position_and_norm"@);
    }
    if agree(f, g, "project_to_text_embedding"@) {
        lemma_same_inputs(f, g, "project_to_text_embedding"@);
    }
    if agree(f, g, "audio_project_frame"@) {
        lemma_same_inputs(f, g, "audio_project_frame"@);
    }
    if agree(f, g, "layernorm"@) {
        lemma_same_inputs(f, g, "layernorm"@);
    }
}

/// Recording a checksum of one test leaves the fixture the same for every other.
pub proof fn law_fixtures_agree_on_other_tests(
    f: FixtureView,
    test: Seq<char>,
    added_test: Seq<char>,
    added_input: Seq<char>,
    sum: u32,
)
    requires
        text::dotless(test),
        text::dotless(added_test),
        test != added_test,
    ensures
        agree(
            f,
            FixtureView {
                expected: f.expected,
                checksums: f.checksums.insert(fixture::check_key(added_test, added_input), sum),
            },
            test,
        ),
{
    assert forall|name: Seq<char>| #[trigger]
        fixture::check_key(test, name) != fixture::check_key(added_test, added_input) by {
        if fixture::check_key(test, name) == fixture::check_key(added_test, added_input) {
            fixture_laws::law_check_keys_are_injective(test, name, added_test, added_input);
        }
    }
}

} // verus!
