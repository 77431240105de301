//! What the inputs of the image and audio kernels are, buffer by buffer.
use crate::buffers;
use crate::buffers_text;
use crate::fixture::FixtureView;
use crate::shims::Axes;
use crate::shims_media;
use crate::stage;
use crate::stage::Buffer;
use crate::synth::Refusal;
use vstd::prelude::*;

verus! {

/// The inputs of the embedding of an image patch. They are these buffers, in this order and with
/// these bytes, unless they are refused for a checksum of the test.
pub proof fn law_patch_embed_buffers(f: FixtureView, axes: Axes, r: Result<Vec<Buffer>, Refusal>)
    requires
        stage::staged(r) == stage::settled(shims_media::patch_embed_steps(f, axes)),
    ensures
        ({
            let test = "patch_embed"@;
            match r {
                Ok(b) => {
                    &&& b@.len() == 8
                    &&& buffers_text::uniform_buffer(
                        b@[0],
                        f,
                        test,
                        "x"@,
                        axes.rv as int,
                        0xBF00_0000,
                        0x3F00_0000,
                    )
                    &&& buffers_text::uniform_buffer(
                        b@[1],
                        f,
                        test,
                        "ln1_weight"@,
                        axes.rv as int,
                        0,
                        0x3F80_0000,
                    )
                    &&& buffers_text::uniform_buffer(
                        b@[2],
                        f,
                        test,
                        "ln1_bias"@,
                        axes.rv as int,
                        0xBF00_0000,
                        0x3F00_0000,
                    )
                    &&& buffers_text::uniform_buffer(
                        b@[3],
                        f,
                        test,
                        "dense_weight"@,
                        axes.mv * axes.rv,
                        0xBF00_0000,
                        0x3F00_0000,
                    )
                    &&& buffers_text::uniform_buffer(
                        b@[4],
                        f,
                        test,
                        "dense_bias"@,
                        axes.mv as int,
                        0xBF00_0000,
                        0x3F00_0000,
                    )
                    &&& buffers_text::uniform_buffer(
                        b@[5],
                        f,
                        test,
                        "ln2_weight"@,
                        axes.mv as int,
                        0,
                        0x3F80_0000,
                    )
                    &&& buffers_text::uniform_buffer(
                        b@[6],
                        f,
                        test,
                        "ln2_bias"@,
                        axes.mv as int,
                        0xBF00_0000,
                        0x3F00_0000,
                    )
                    &&& buffers_text::blank_buffer(b@[7], "out"@, 2 * axes.mv)
                },
                Err(refusal) => buffers::refused(f, test, refusal@),
            }
        }),
{
    let test = "patch_embed"@;
    let steps = shims_media::patch_embed_steps(f, axes);
    buffers::lemma_made(steps, r);
    buffers::lemma_spans();
    buffers_text::lemma_product(axes.mv as int, axes.rv as int);
    buffers::law_uniform_inputs(f, test, "x"@, axes.rv as nat, 0xBF00_0000, 0x3F00_0000);
    assert(buffers::sound(f, test, steps[0].1));
    buffers::law_uniform_inputs(f, test, "ln1_weight"@, axes.rv as nat, 0, 0x3F80_0000);
    assert(buffers::sound(f, test, steps[1].1));
    buffers::law_uniform_inputs(f, test, "ln1_bias"@, axes.rv as nat, 0xBF00_0000, 0x3F00_0000);
    assert(buffers::sound(f, test, steps[2].1));
    buffers::law_uniform_inputs(
        f,
        test,
        "dense_weight"@,
        (axes.mv * axes.rv) as nat,
        0xBF00_0000,
        0x3F00_0000,
    );
    assert(buffers::sound(f, test, steps[3].1));
    buffers::law_uniform_inputs(f, test, "dense_bias"@, axes.mv as nat, 0xBF00_0000, 0x3F00_0000);
    assert(buffers::sound(f, test, steps[4].1));
    buffers::law_uniform_inputs(f, test, "ln2_weight"@, axes.mv as nat, 0, 0x3F80_0000);
    assert(buffers::sound(f, test, steps[5].1));
    buffers::law_uniform_inputs(f, test, "ln2_bias"@, axes.mv as nat, 0xBF00_0000, 0x3F00_0000);
    assert(buffers::sound(f, test, steps[6].1));
    buffers::law_zeros(axes.mv as nat, 16);
    assert(buffers::sound(f, test, steps[7].1));
    buffers_text::lemma_all_sound(f, test, steps, r);
}

/// The inputs of the addition of a position to an image patch. They are these buffers, in this
/// order and with these bytes, unless they are refused for a checksum of the test.
pub proof fn law_add_position_and_norm_buffers(
    f: FixtureView,
    axes: Axes,
    r: Result<Vec<Buffer>, Refusal>,
)
    requires
        stage::staged(r) == stage::settled(shims_media::add_position_and_norm_steps(f, axes)),
    ensures
        ({
            let test = "add_position_and_norm"@;
            match r {
                Ok(b) => {
                    &&& b@.len() == 5
                    &&& buffers_text::uniform_buffer(
                        b@[0],
                        f,
                        test,
                        "x"@,
                        axes.mv as int,
                        0xBF00_0000,
                        0x3F00_0000,
                    )
                    &&& buffers_text::uniform_buffer(
                        b@[1],
                        f,
                        test,
                        "pos_embed"@,
                        axes.mv as int,
                        0xBF00_0000,
                        0x3F00_0000,
                    )
                    &&& buffers_text::uniform_buffer(
                        b@[2],
                        f,
                        test,
                        "ln3_weight"@,
                        axes.mv as int,
                        0,
                        0x3F80_0000,
                    )
                    &&& buffers_text::uniform_buffer(
                        b@[3],
                        f,
                        test,
                        "ln3_bias"@,
                        axes.mv as int,
                        0xBF00_0000,
                        0x3F00_0000,
                    )
                    &&& buffers_text::blank_buffer(b@[4], "out"@, 2 * axes.mv)
                },
                Err(refusal) => buffers::refused(f, test, refusal@),
            }
        }),
{
    let test = "add_position_and_norm"@;
    let steps = shims_media::add_position_and_norm_steps(f, axes);
    buffers::lemma_made(steps, r);
    buffers::lemma_spans();
    buffers::law_uniform_inputs(f, test, "x"@, axes.mv as nat, 0xBF00_0000, 0x3F00_0000);
    assert(buffers::sound(f, test, steps[0].1));
    buffers::law_uniform_inputs(f, test, "pos_embed"@, axes.mv as nat, 0xBF00_0000, 0x3F00_0000);
    assert(buffers::sound(f, test, steps[1].1));
    buffers::law_uniform_inputs(f, test, "ln3_weight"@, axes.mv as nat, 0, 0x3F80_0000);
    assert(buffers::sound(f, test, steps[2].1));
    buffers::law_uniform_inputs(f, test, "ln3_bias"@, axes.mv as nat, 0xBF00_0000, 0x3F00_0000);
    assert(buffers::sound(f, test, steps[3].1));
    buffers::law_zeros(axes.mv as nat, 16);
    assert(buffers::sound(f, test, steps[4].1));
    buffers_text::lemma_all_sound(f, test, steps, r);
}

/// The inputs of the projection of an image patch into text space. They are these buffers, in this
/// order and with these bytes, unless they are refused for a checksum of the test.
pub proof fn law_project_to_text_embedding_buffers(
    f: FixtureView,
    axes: Axes,
    r: Result<Vec<Buffer>, Refusal>,
)
    requires
        stage::staged(r) == stage::settled(shims_media::project_to_text_embedding_steps(f, axes)),
    ensures
        ({
            let test = "project_to_text_embedding"@;
            match r {
                Ok(b) => {
                    &&& b@.len() == 3
                    &&& buffers_text::uniform_buffer(
                        b@[0],
                        f,
                        test,
                        "x"@,
                        axes.ov as int,
                        0xBF00_0000,
                        0x3F00_0000,
                    )
                    &&& buffers_text::uniform_buffer(
                        b@[1],
                        f,
                        test,
                        "proj_weight"@,
                        axes.h * axes.ov,
                        0xBF00_0000,
                        0x3F00_0000,
                    )
                    &&& buffers_text::blank_buffer(b@[2], "out"@, 2 * axes.h)
                },
                Err(refusal) => buffers::refused(f, test, refusal@),
            }
        }),
{
    let test = "project_to_text_embedding"@;
    let steps = shims_media::project_to_text_embedding_steps(f, axes);
    buffers::lemma_made(steps, r);
    buffers::lemma_spans();
    buffers_text::lemma_product(axes.h as int, axes.ov as int);
    buffers::law_uniform_inputs(f, test, "x"@, axes.ov as nat, 0xBF00_0000, 0x3F00_0000);
    assert(buffers::sound(f, test, steps[0].1));
    buffers::law_uniform_inputs(
        f,
        test,
        "proj_weight"@,
        (axes.h * axes.ov) as nat,
        0xBF00_0000,
        0x3F00_0000,
    );
    assert(buffers::sound(f, test, steps[1].1));
    buffers::law_zeros(axes.h as nat, 16);
    assert(buffers::sound(f, test, steps[2].1));
    buffers_text::lemma_all_sound(f, test, steps, r);
}

/// The inputs of the projection of an audio frame into text space. They are these buffers, in this
/// order and with these bytes, unless they are refused for a checksum of the test.
pub proof fn law_audio_project_frame_buffers(
    f: FixtureView,
    axes: Axes,
    r: Result<Vec<Buffer>, Refusal>,
)
    requires
        stage::staged(r) == stage::settled(shims_media::audio_project_frame_steps(f, axes)),
    ensures
        ({
            let test = "audio_project_frame"@;
            match r {
                Ok(b) => {
                    &&& b@.len() == 3
                    &&& buffers_text::uniform_buffer(
                        b@[0],
                        f,
                        test,
                        "x"@,
                        axes.aa as int,
                        0xBF00_0000,
                        0x3F00_0000,
                    )
                    &&& buffers_text::uniform_buffer(
                        b@[1],
                        f,
                        test,
                        "proj_weight"@,
                        axes.h * axes.aa,
                        0xBF00_0000,
                        0x3F00_0000,
                    )
                    &&& buffers_text::blank_buffer(b@[2], "out"@, 2 * axes.h)
                },
                Err(refusal) => buffers::refused(f, test, refusal@),
            }
        }),
{
    let test = "audio_project_frame"@;
    let steps = shims_media::audio_project_frame_steps(f, axes);
    buffers::lemma_made(steps, r);
    buffers::lemma_spans();
    buffers_text::lemma_product(axes.h as int, axes.aa as int);
    buffers::law_uniform_inputs(f, test, "x"@, axes.aa as nat, 0xBF00_0000, 0x3F00_0000);
    assert(buffers::sound(f, test, steps[0].1));
    buffers::law_uniform_inputs(
        f,
        test,
        "proj_weight"@,
        (axes.h * axes.aa) as nat,
        0xBF00_0000,
        0x3F00_0000,
    );
    assert(buffers::sound(f, test, steps[1].1));
    buffers::law_zeros(axes.h as nat, 16);
    assert(buffers::sound(f, test, steps[2].1));
    buffers_text::lemma_all_sound(f, test, steps, r);
}

/// The inputs of a layer normalization. They are these buffers, in this order and with these bytes,
/// unless they are refused for a checksum of the test.
pub proof fn law_layernorm_buffers(f: FixtureView, axes: Axes, r: Result<Vec<Buffer>, Refusal>)
    requires
        stage::staged(r) == stage::settled(shims_media::layernorm_steps(f, axes)),
    ensures
        ({
            let test = "layernorm"@;
            match r {
                Ok(b) => {
                    &&& b@.len() == 4
                    &&& buffers_text::uniform_buffer(
                        b@[0],
                        f,
                        test,
                        "x"@,
                        axes.mv as int,
                        0xBF00_0000,
                        0x3F00_0000,
                    )
                    &&& buffers_text::uniform_buffer(
                        b@[1],
                        f,
                        test,
                        "weight"@,
                        axes.mv as int,
                        0,
                        0x3F80_0000,
                    )
                    &&& buffers_text::uniform_buffer(
                        b@[2],
                        f,
                        test,
                        "bias"@,
                        axes.mv as int,
                        0xBF00_0000,
                        0x3F00_0000,
                    )
                    &&& buffers_text::blank_buffer(b@[3], "out"@, 2 * axes.mv)
                },
                Err(refusal) => buffers::refused(f, test, refusal@),
            }
        }),
{
    let test = "layernorm"@;
    let steps = shims_media::layernorm_steps(f, axes);
    buffers::lemma_made(steps, r);
    buffers::lemma_spans();
    buffers::law_uniform_inputs(f, test, "x"@, axes.mv as nat, 0xBF00_0000, 0x3F00_0000);
    assert(buffers::sound(f, test, steps[0].1));
    buffers::law_uniform_inputs(f, test, "weight"@, axes.mv as nat, 0, 0x3F80_0000);
    assert(buffers::sound(f, test, steps[1].1));
    buffers::law_uniform_inputs(f, test, "bias"@, axes.mv as nat, 0xBF00_0000, 0x3F00_0000);
    assert(buffers::sound(f, test, steps[2].1));
    buffers::law_zeros(axes.mv as nat, 16);
    assert(buffers::sound(f, test, steps[3].1));
    buffers_text::lemma_all_sound(f, test, steps, r);
}

} // verus!
