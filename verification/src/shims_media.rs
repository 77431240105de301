//! The inputs of the image and audio kernels.
use crate::fixture::{Fixture, FixtureView};
use crate::shims::Axes;
use crate::stage;
use crate::stage::{Buffer, Stage, Steps};
use crate::synth;
use crate::synth::{Refusal, Synth, ONE};
use vstd::prelude::*;

verus! {

/// The inputs of the embedding of an image patch.
pub open spec fn patch_embed_steps(f: FixtureView, axes: Axes) -> Steps {
    let test = "patch_embed"@;
    seq![
        (
            "x"@,
            synth::bf16_input(
                f,
                test,
                "x"@,
                axes.rv as nat,
                synth::CENTRED_MIN,
                synth::CENTRED_MAX,
            ),
        ),
        ("ln1_weight"@, synth::bf16_input(f, test, "ln1_weight"@, axes.rv as nat, 0, ONE)),
        (
            "ln1_bias"@,
            synth::bf16_input(
                f,
                test,
                "ln1_bias"@,
                axes.rv as nat,
                synth::CENTRED_MIN,
                synth::CENTRED_MAX,
            ),
        ),
        (
            "dense_weight"@,
            synth::bf16_input(
                f,
                test,
                "dense_weight"@,
                (axes.mv * axes.rv) as nat,
                synth::CENTRED_MIN,
                synth::CENTRED_MAX,
            ),
        ),
        (
            "dense_bias"@,
            synth::bf16_input(
                f,
                test,
                "dense_bias"@,
                axes.mv as nat,
                synth::CENTRED_MIN,
                synth::CENTRED_MAX,
            ),
        ),
        ("ln2_weight"@, synth::bf16_input(f, test, "ln2_weight"@, axes.mv as nat, 0, ONE)),
        (
            "ln2_bias"@,
            synth::bf16_input(
                f,
                test,
                "ln2_bias"@,
                axes.mv as nat,
                synth::CENTRED_MIN,
                synth::CENTRED_MAX,
            ),
        ),
        ("out"@, Ok(synth::zero_bytes(axes.mv as nat, 16))),
    ]
}

/// The inputs of the embedding of an image patch.
pub fn patch_embed(axes: &Axes, fixture: &Fixture) -> (r: Result<Vec<Buffer>, Refusal>)
    requires
        fixture.wf(),
        2 * axes.rv <= isize::MAX,
        2 * (axes.mv * axes.rv) <= isize::MAX,
        2 * axes.mv <= isize::MAX,
        axes.mv * 16 <= usize::MAX,
    ensures
        stage::staged(r) == stage::settled(patch_embed_steps(fixture@, *axes)),
{
    let s = Synth::new("patch_embed", fixture);
    let mut stage = Stage::new();
    stage.put("x", s.bf16("x", axes.rv, synth::CENTRED_MIN, synth::CENTRED_MAX));
    stage.put("ln1_weight", s.bf16("ln1_weight", axes.rv, 0, ONE));
    stage.put("ln1_bias", s.bf16("ln1_bias", axes.rv, synth::CENTRED_MIN, synth::CENTRED_MAX));
    stage.put(
        "dense_weight",
        s.bf16("dense_weight", axes.mv * axes.rv, synth::CENTRED_MIN, synth::CENTRED_MAX),
    );
    stage.put("dense_bias", s.bf16("dense_bias", axes.mv, synth::CENTRED_MIN, synth::CENTRED_MAX));
    stage.put("ln2_weight", s.bf16("ln2_weight", axes.mv, 0, ONE));
    stage.put("ln2_bias", s.bf16("ln2_bias", axes.mv, synth::CENTRED_MIN, synth::CENTRED_MAX));
    stage.put("out", Ok(synth::zeros(axes.mv, 16)));
    assert(stage.steps() =~= patch_embed_steps(fixture@, *axes));
    stage.finish()
}

/// The inputs of the addition of a position to an image patch.
pub open spec fn add_position_and_norm_steps(f: FixtureView, axes: Axes) -> Steps {
    let test = "add_position_and_norm"@;
    seq![
        (
            "x"@,
            synth::bf16_input(
                f,
                test,
                "x"@,
                axes.mv as nat,
                synth::CENTRED_MIN,
                synth::CENTRED_MAX,
            ),
        ),
        (
            "pos_embed"@,
            synth::bf16_input(
                f,
                test,
                "pos_embed"@,
                axes.mv as nat,
                synth::CENTRED_MIN,
                synth::CENTRED_MAX,
            ),
        ),
        ("ln3_weight"@, synth::bf16_input(f, test, "ln3_weight"@, axes.mv as nat, 0, ONE)),
        (
            "ln3_bias"@,
            synth::bf16_input(
                f,
                test,
                "ln3_bias"@,
                axes.mv as nat,
                synth::CENTRED_MIN,
                synth::CENTRED_MAX,
            ),
        ),
        ("out"@, Ok(synth::zero_bytes(axes.mv as nat, 16))),
    ]
}

/// The inputs of the addition of a position to an image patch.
pub fn add_position_and_norm(axes: &Axes, fixture: &Fixture) -> (r: Result<Vec<Buffer>, Refusal>)
    requires
        fixture.wf(),
        2 * axes.mv <= isize::MAX,
        axes.mv * 16 <= usize::MAX,
    ensures
        stage::staged(r) == stage::settled(add_position_and_norm_steps(fixture@, *axes)),
{
    let s = Synth::new("add_position_and_norm", fixture);
    let mut stage = Stage::new();
    stage.put("x", s.bf16("x", axes.mv, synth::CENTRED_MIN, synth::CENTRED_MAX));
    stage.put("pos_embed", s.bf16("pos_embed", axes.mv, synth::CENTRED_MIN, synth::CENTRED_MAX));
    stage.put("ln3_weight", s.bf16("ln3_weight", axes.mv, 0, ONE));
    stage.put("ln3_bias", s.bf16("ln3_bias", axes.mv, synth::CENTRED_MIN, synth::CENTRED_MAX));
    stage.put("out", Ok(synth::zeros(axes.mv, 16)));
    assert(stage.steps() =~= add_position_and_norm_steps(fixture@, *axes));
    stage.finish()
}

/// The inputs of the projection of an image patch into text space.
pub open spec fn project_to_text_embedding_steps(f: FixtureView, axes: Axes) -> Steps {
    let test = "project_to_text_embedding"@;
    seq![
        (
            "x"@,
            synth::bf16_input(
                f,
                test,
                "x"@,
                axes.ov as nat,
                synth::CENTRED_MIN,
                synth::CENTRED_MAX,
            ),
        ),
        (
            "proj_weight"@,
            synth::bf16_input(
                f,
                test,
                "proj_weight"@,
                (axes.h * axes.ov) as nat,
                synth::CENTRED_MIN,
                synth::CENTRED_MAX,
            ),
        ),
        ("out"@, Ok(synth::zero_bytes(axes.h as nat, 16))),
    ]
}

/// The inputs of the projection of an image patch into text space.
pub fn project_to_text_embedding(axes: &Axes, fixture: &Fixture) -> (r: Result<
    Vec<Buffer>,
    Refusal,
>)
    requires
        fixture.wf(),
        2 * axes.ov <= isize::MAX,
        2 * (axes.h * axes.ov) <= isize::MAX,
        axes.h * 16 <= usize::MAX,
    ensures
        stage::staged(r) == stage::settled(project_to_text_embedding_steps(fixture@, *axes)),
{
    let s = Synth::new("project_to_text_embedding", fixture);
    let mut stage = Stage::new();
    stage.put("x", s.bf16("x", axes.ov, synth::CENTRED_MIN, synth::CENTRED_MAX));
    stage.put(
        "proj_weight",
        s.bf16("proj_weight", axes.h * axes.ov, synth::CENTRED_MIN, synth::CENTRED_MAX),
    );
    stage.put("out", Ok(synth::zeros(axes.h, 16)));
    assert(stage.steps() =~= project_to_text_embedding_steps(fixture@, *axes));
    stage.finish()
}

/// The inputs of the projection of an audio frame into text space.
pub open spec fn audio_project_frame_steps(f: FixtureView, axes: Axes) -> Steps {
    let test = "audio_project_frame"@;
    seq![
        (
            "x"@,
            synth::bf16_input(
                f,
                test,
                "x"@,
                axes.aa as nat,
                synth::CENTRED_MIN,
                synth::CENTRED_MAX,
            ),
        ),
        (
            "proj_weight"@,
            synth::bf16_input(
                f,
                test,
                "proj_weight"@,
                (axes.h * axes.aa) as nat,
                synth::CENTRED_MIN,
                synth::CENTRED_MAX,
            ),
        ),
        ("out"@, Ok(synth::zero_bytes(axes.h as nat, 16))),
    ]
}

/// The inputs of the projection of an audio frame into text space.
pub fn audio_project_frame(axes: &Axes, fixture: &Fixture) -> (r: Result<Vec<Buffer>, Refusal>)
    requires
        fixture.wf(),
        2 * axes.aa <= isize::MAX,
        2 * (axes.h * axes.aa) <= isize::MAX,
        axes.h * 16 <= usize::MAX,
    ensures
        stage::staged(r) == stage::settled(audio_project_frame_steps(fixture@, *axes)),
{
    let s = Synth::new("audio_project_frame", fixture);
    let mut stage = Stage::new();
    stage.put("x", s.bf16("x", axes.aa, synth::CENTRED_MIN, synth::CENTRED_MAX));
    stage.put(
        "proj_weight",
        s.bf16("proj_weight", axes.h * axes.aa, synth::CENTRED_MIN, synth::CENTRED_MAX),
    );
    stage.put("out", Ok(synth::zeros(axes.h, 16)));
    assert(stage.steps() =~= audio_project_frame_steps(fixture@, *axes));
    stage.finish()
}

/// The inputs of a layer normalization.
pub open spec fn layernorm_steps(f: FixtureView, axes: Axes) -> Steps {
    let test = "layernorm"@;
    seq![
        (
            "x"@,
            synth::bf16_input(
                f,
                test,
                "x"@,
                axes.mv as nat,
                synth::CENTRED_MIN,
                synth::CENTRED_MAX,
            ),
        ),
        ("weight"@, synth::bf16_input(f, test, "weight"@, axes.mv as nat, 0, ONE)),
        (
            "bias"@,
            synth::bf16_input(
                f,
                test,
                "bias"@,
                axes.mv as nat,
                synth::CENTRED_MIN,
                synth::CENTRED_MAX,
            ),
        ),
        ("out"@, Ok(synth::zero_bytes(axes.mv as nat, 16))),
    ]
}

/// The inputs of a layer normalization.
pub fn layernorm(axes: &Axes, fixture: &Fixture) -> (r: Result<Vec<Buffer>, Refusal>)
    requires
        fixture.wf(),
        2 * axes.mv <= isize::MAX,
        axes.mv * 16 <= usize::MAX,
    ensures
        stage::staged(r) == stage::settled(layernorm_steps(fixture@, *axes)),
{
    let s = Synth::new("layernorm", fixture);
    let mut stage = Stage::new();
    stage.put("x", s.bf16("x", axes.mv, synth::CENTRED_MIN, synth::CENTRED_MAX));
    stage.put("weight", s.bf16("weight", axes.mv, 0, ONE));
    stage.put("bias", s.bf16("bias", axes.mv, synth::CENTRED_MIN, synth::CENTRED_MAX));
    stage.put("out", Ok(synth::zeros(axes.mv, 16)));
    assert(stage.steps() =~= layernorm_steps(fixture@, *axes));
    stage.finish()
}

} // verus!
