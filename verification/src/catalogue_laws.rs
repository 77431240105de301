//! What holds of the catalogue as a whole.
use crate::catalogue;
use crate::catalogue::Shim;
use crate::text;
use vstd::prelude::*;

verus! {

/// The shims in the order of their tests.
spec fn shims() -> Seq<Shim> {
    seq![
        Shim::CopyHiddenState,
        Shim::EmbedToken,
        Shim::SlidingProjectQkv { exact: true },
        Shim::SlidingProjectQkv { exact: false },
        Shim::SlidingAttention,
        Shim::SlidingAttentionOutput { exact: true },
        Shim::SlidingAttentionOutput { exact: false },
        Shim::FullProjectQkv { exact: true },
        Shim::FullProjectQkv { exact: false },
        Shim::FullAttention,
        Shim::FullAttentionOutput { exact: true },
        Shim::FullAttentionOutput { exact: false },
        Shim::DecoderFeedforward,
        Shim::FinalNormAndLogits,
        Shim::PatchEmbed,
        Shim::AddPositionAndNorm,
        Shim::ProjectToTextEmbedding,
        Shim::AudioProjectFrame,
        Shim::Layernorm,
    ]
}

/// The names of the tests are told apart by the choice of their shims.
proof fn lemma_shims()
    ensures
        catalogue::rows().len() == shims().len(),
        forall|i: int|
            0 <= i < shims().len() ==> catalogue::shim_of((#[trigger] catalogue::rows()[i]).0)
                == Some(shims()[i]),
{
    reveal_strlit("copy_hidden_state");
    reveal_strlit("embed_token");
    reveal_strlit("sliding_project_qkv_exact");
    reveal_strlit("sliding_project_qkv_random");
    reveal_strlit("sliding_attention");
    reveal_strlit("sliding_attention_output_exact");
    reveal_strlit("sliding_attention_output_random");
    reveal_strlit("full_project_qkv_exact");
    reveal_strlit("full_project_qkv_random");
    reveal_strlit("full_attention");
    reveal_strlit("full_attention_output_exact");
    reveal_strlit("full_attention_output_random");
    reveal_strlit("decoder_feedforward");
    reveal_strlit("final_norm_and_logits");
    reveal_strlit("patch_embed");
    reveal_strlit("add_position_and_norm");
    reveal_strlit("project_to_text_embedding");
    reveal_strlit("audio_project_frame");
    reveal_strlit("layernorm");
    assert("copy_hidden_state"@.len() == 17);
    assert("embed_token"@.len() == 11);
    assert("sliding_project_qkv_exact"@.len() == 25);
    assert("sliding_project_qkv_random"@.len() == 26);
    assert("sliding_attention"@.len() == 17);
    assert("sliding_attention_output_exact"@.len() == 30);
    assert("sliding_attention_output_random"@.len() == 31);
    assert("full_project_qkv_exact"@.len() == 22);
    assert("full_project_qkv_random"@.len() == 23);
    assert("full_attention"@.len() == 14);
    assert("full_attention_output_exact"@.len() == 27);
    assert("full_attention_output_random"@.len() == 28);
    assert("decoder_feedforward"@.len() == 19);
    assert("final_norm_and_logits"@.len() == 21);
    assert("patch_embed"@.len() == 11);
    assert("add_position_and_norm"@.len() == 21);
    assert("project_to_text_embedding"@.len() == 25);
    assert("audio_project_frame"@.len() == 19);
    assert("layernorm"@.len() == 9);
    assert("copy_hidden_state"@[0] != "sliding_attention"@[0]);
    assert("embed_token"@[0] != "patch_embed"@[0]);
    assert("sliding_project_qkv_exact"@[0] != "project_to_text_embedding"@[0]);
    assert("decoder_feedforward"@[0] != "audio_project_frame"@[0]);
    assert("final_norm_and_logits"@[0] != "add_position_and_norm"@[0]);
    assert(catalogue::shim_of("copy_hidden_state"@) == Some(shims()[0]));
    assert(catalogue::shim_of("embed_token"@) == Some(shims()[1]));
    assert(catalogue::shim_of("sliding_project_qkv_exact"@) == Some(shims()[2]));
    assert(catalogue::shim_of("sliding_project_qkv_random"@) == Some(shims()[3]));
    assert(catalogue::shim_of("sliding_attention"@) == Some(shims()[4]));
    assert(catalogue::shim_of("sliding_attention_output_exact"@) == Some(shims()[5]));
    assert(catalogue::shim_of("sliding_attention_output_random"@) == Some(shims()[6]));
    assert(catalogue::shim_of("full_project_qkv_exact"@) == Some(shims()[7]));
    assert(catalogue::shim_of("full_project_qkv_random"@) == Some(shims()[8]));
    assert(catalogue::shim_of("full_attention"@) == Some(shims()[9]));
    assert(catalogue::shim_of("full_attention_output_exact"@) == Some(shims()[10]));
    assert(catalogue::shim_of("full_attention_output_random"@) == Some(shims()[11]));
    assert(catalogue::shim_of("decoder_feedforward"@) == Some(shims()[12]));
    assert(catalogue::shim_of("final_norm_and_logits"@) == Some(shims()[13]));
    assert(catalogue::shim_of("patch_embed"@) == Some(shims()[14]));
    assert(catalogue::shim_of("add_position_and_norm"@) == Some(shims()[15]));
    assert(catalogue::shim_of("project_to_text_embedding"@) == Some(shims()[16]));
    assert(catalogue::shim_of("audio_project_frame"@) == Some(shims()[17]));
    assert(catalogue::shim_of("layernorm"@) == Some(shims()[18]));
}

/// Each test has a shim, and no two tests share one or have the same name.
pub proof fn law_each_test_has_its_own_shim(i: int, j: int)
    requires
        0 <= i < catalogue::rows().len(),
        0 <= j < catalogue::rows().len(),
    ensures
        catalogue::shim_of(catalogue::rows()[i].0) is Some,
        i != j ==> catalogue::shim_of(catalogue::rows()[i].0) != catalogue::shim_of(
            catalogue::rows()[j].0,
        ),
        i != j ==> catalogue::rows()[i].0 != catalogue::rows()[j].0,
{
    lemma_shims();
    assert(shims().no_duplicates());
}

/// A name has a shim if and only if a test has that name.
pub proof fn law_shims_are_of_tests(name: Seq<char>)
    ensures
        catalogue::shim_of(name) is Some <==> catalogue::is_test(name),
{
    lemma_shims();
    assert(catalogue::rows()[0].0 == "copy_hidden_state"@);
    assert(catalogue::rows()[1].0 == "embed_token"@);
    assert(catalogue::rows()[2].0 == "sliding_project_qkv_exact"@);
    assert(catalogue::rows()[3].0 == "sliding_project_qkv_random"@);
    assert(catalogue::rows()[4].0 == "sliding_attention"@);
    assert(catalogue::rows()[5].0 == "sliding_attention_output_exact"@);
    assert(catalogue::rows()[6].0 == "sliding_attention_output_random"@);
    assert(catalogue::rows()[7].0 == "full_project_qkv_exact"@);
    assert(catalogue::rows()[8].0 == "full_project_qkv_random"@);
    assert(catalogue::rows()[9].0 == "full_attention"@);
    assert(catalogue::rows()[10].0 == "full_attention_output_exact"@);
    assert(catalogue::rows()[11].0 == "full_attention_output_random"@);
    assert(catalogue::rows()[12].0 == "decoder_feedforward"@);
    assert(catalogue::rows()[13].0 == "final_norm_and_logits"@);
    assert(catalogue::rows()[14].0 == "patch_embed"@);
    assert(catalogue::rows()[15].0 == "add_position_and_norm"@);
    assert(catalogue::rows()[16].0 == "project_to_text_embedding"@);
    assert(catalogue::rows()[17].0 == "audio_project_frame"@);
    assert(catalogue::rows()[18].0 == "layernorm"@);
}

/// The name of a test has no dot, so it is the first part of each name that starts with it.
pub proof fn law_test_names_are_single_parts(i: int)
    requires
        0 <= i < catalogue::rows().len(),
    ensures
        text::dotless(catalogue::rows()[i].0),
{
    let name = catalogue::rows()[i].0;
    reveal_strlit("copy_hidden_state");
    reveal_strlit("embed_token");
    reveal_strlit("sliding_project_qkv_exact");
    reveal_strlit("sliding_project_qkv_random");
    reveal_strlit("sliding_attention");
    reveal_strlit("sliding_attention_output_exact");
    reveal_strlit("sliding_attention_output_random");
    reveal_strlit("full_project_qkv_exact");
    reveal_strlit("full_project_qkv_random");
    reveal_strlit("full_attention");
    reveal_strlit("full_attention_output_exact");
    reveal_strlit("full_attention_output_random");
    reveal_strlit("decoder_feedforward");
    reveal_strlit("final_norm_and_logits");
    reveal_strlit("patch_embed");
    reveal_strlit("add_position_and_norm");
    reveal_strlit("project_to_text_embedding");
    reveal_strlit("audio_project_frame");
    reveal_strlit("layernorm");
    assert forall|k: int| 0 <= k < name.len() implies name[k] != '.' by {
    }
}

/// Test number `i` has this name and these tolerances, and is run by this shim.
pub open spec fn entry(i: int, name: Seq<char>, atol: u32, rtol: u32, shim: Shim) -> bool {
    &&& 0 <= i < catalogue::rows().len()
    &&& catalogue::rows()[i] == (name, atol, rtol)
    &&& catalogue::is_test(name)
    &&& catalogue::shim_of(name) == Some(shim)
}

/// The tests in their order. All but the first have the relative tolerance 0.02; the first has
/// none.
pub proof fn law_the_tests()
    ensures
        catalogue::rows().len() == 19,
        entry(0, "copy_hidden_state"@, 0, 0, Shim::CopyHiddenState),
        entry(1, "embed_token"@, 0x3E80_0000, 0x3CA3_D70A, Shim::EmbedToken),
        entry(
            2,
            "sliding_project_qkv_exact"@,
            0x3D80_0000,
            0x3CA3_D70A,
            Shim::SlidingProjectQkv { exact: true },
        ),
        entry(
            3,
            "sliding_project_qkv_random"@,
            0x3D80_0000,
            0x3CA3_D70A,
            Shim::SlidingProjectQkv { exact: false },
        ),
        entry(4, "sliding_attention"@, 0x3B03_126F, 0x3CA3_D70A, Shim::SlidingAttention),
        entry(
            5,
            "sliding_attention_output_exact"@,
            0x3DCC_CCCD,
            0x3CA3_D70A,
            Shim::SlidingAttentionOutput { exact: true },
        ),
        entry(
            6,
            "sliding_attention_output_random"@,
            0x3DCC_CCCD,
            0x3CA3_D70A,
            Shim::SlidingAttentionOutput { exact: false },
        ),
        entry(
            7,
            "full_project_qkv_exact"@,
            0x3D80_0000,
            0x3CA3_D70A,
            Shim::FullProjectQkv { exact: true },
        ),
        entry(
            8,
            "full_project_qkv_random"@,
            0x3D80_0000,
            0x3CA3_D70A,
            Shim::FullProjectQkv { exact: false },
        ),
        entry(9, "full_attention"@, 0x3B03_126F, 0x3CA3_D70A, Shim::FullAttention),
        entry(
            10,
            "full_attention_output_exact"@,
            0x3D80_0000,
            0x3CA3_D70A,
            Shim::FullAttentionOutput { exact: true },
        ),
        entry(
            11,
            "full_attention_output_random"@,
            0x3D80_0000,
            0x3CA3_D70A,
            Shim::FullAttentionOutput { exact: false },
        ),
        entry(12, "decoder_feedforward"@, 0x3CA3_D70A, 0x3CA3_D70A, Shim::DecoderFeedforward),
        entry(13, "final_norm_and_logits"@, 0x3E00_0000, 0x3CA3_D70A, Shim::FinalNormAndLogits),
        entry(14, "patch_embed"@, 0x3D4C_CCCD, 0x3CA3_D70A, Shim::PatchEmbed),
        entry(15, "add_position_and_norm"@, 0x3CA3_D70A, 0x3CA3_D70A, Shim::AddPositionAndNorm),
        entry(
            16,
            "project_to_text_embedding"@,
            0x3F00_0000,
            0x3CA3_D70A,
            Shim::ProjectToTextEmbedding,
        ),
        entry(17, "audio_project_frame"@, 0x38D1_B717, 0x3CA3_D70A, Shim::AudioProjectFrame),
        entry(18, "layernorm"@, 0x3CA3_D70A, 0x3CA3_D70A, Shim::Layernorm),
{
    lemma_shims();
    assert(catalogue::rows()[0].0 == "copy_hidden_state"@);
    assert(catalogue::is_test("copy_hidden_state"@));
    assert(catalogue::rows()[1].0 == "embed_token"@);
    assert(catalogue::is_test("embed_token"@));
    assert(catalogue::rows()[2].0 == "sliding_project_qkv_exact"@);
    assert(catalogue::is_test("sliding_project_qkv_exact"@));
    assert(catalogue::rows()[3].0 == "sliding_project_qkv_random"@);
    assert(catalogue::is_test("sliding_project_qkv_random"@));
    assert(catalogue::rows()[4].0 == "sliding_attention"@);
    assert(catalogue::is_test("sliding_attention"@));
    assert(catalogue::rows()[5].0 == "sliding_attention_output_exact"@);
    assert(catalogue::is_test("sliding_attention_output_exact"@));
    assert(catalogue::rows()[6].0 == "sliding_attention_output_random"@);
    assert(catalogue::is_test("sliding_attention_output_random"@));
    assert(catalogue::rows()[7].0 == "full_project_qkv_exact"@);
    assert(catalogue::is_test("full_project_qkv_exact"@));
    assert(catalogue::rows()[8].0 == "full_project_qkv_random"@);
    assert(catalogue::is_test("full_project_qkv_random"@));
    assert(catalogue::rows()[9].0 == "full_attention"@);
    assert(catalogue::is_test("full_attention"@));
    assert(catalogue::rows()[10].0 == "full_attention_output_exact"@);
    assert(catalogue::is_test("full_attention_output_exact"@));
    assert(catalogue::rows()[11].0 == "full_attention_output_random"@);
    assert(catalogue::is_test("full_attention_output_random"@));
    assert(catalogue::rows()[12].0 == "decoder_feedforward"@);
    assert(catalogue::is_test("decoder_feedforward"@));
    assert(catalogue::rows()[13].0 == "final_norm_and_logits"@);
    assert(catalogue::is_test("final_norm_and_logits"@));
    assert(catalogue::rows()[14].0 == "patch_embed"@);
    assert(catalogue::is_test("patch_embed"@));
    assert(catalogue::rows()[15].0 == "add_position_and_norm"@);
    assert(catalogue::is_test("add_position_and_norm"@));
    assert(catalogue::rows()[16].0 == "project_to_text_embedding"@);
    assert(catalogue::is_test("project_to_text_embedding"@));
    assert(catalogue::rows()[17].0 == "audio_project_frame"@);
    assert(catalogue::is_test("audio_project_frame"@));
    assert(catalogue::rows()[18].0 == "layernorm"@);
    assert(catalogue::is_test("layernorm"@));
}

} // verus!
