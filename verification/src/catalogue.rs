//! The kernel tests and which shim runs each.
use crate::text;
use vstd::prelude::*;

verus! {

/// The relative tolerance of all tests but one: 0.02.
pub const RTOL: u32 = 0x3CA3_D70A;

/// A kernel test: how far a device output may stray from its expectation.
pub struct Test {
    pub name: &'static str,
    /// Absolute tolerance, a binary32 encoding.
    pub atol: u32,
    /// Tolerance relative to the expectation, a binary32 encoding.
    pub rtol: u32,
}

impl View for Test {
    type V = (Seq<char>, u32, u32);

    open spec fn view(&self) -> (Seq<char>, u32, u32) {
        (self.name@, self.atol, self.rtol)
    }
}

/// What runs a test.
#[derive(Clone, Copy, Debug, PartialEq, Eq, Structural)]
pub enum Shim {
    EmbedToken,
    CopyHiddenState,
    SlidingProjectQkv { exact: bool },
    SlidingAttention,
    SlidingAttentionOutput { exact: bool },
    FullProjectQkv { exact: bool },
    FullAttention,
    FullAttentionOutput { exact: bool },
    DecoderFeedforward,
    FinalNormAndLogits,
    PatchEmbed,
    AddPositionAndNorm,
    ProjectToTextEmbedding,
    AudioProjectFrame,
    Layernorm,
}

/// Name, absolute and relative tolerance of each test.
pub open spec fn rows() -> Seq<(Seq<char>, u32, u32)> {
    seq![
        ("copy_hidden_state"@, 0u32, 0u32),
        ("embed_token"@, 0x3E80_0000, RTOL),  // 0.25
        ("sliding_project_qkv_exact"@, 0x3D80_0000, RTOL),  // 0.0625
        ("sliding_project_qkv_random"@, 0x3D80_0000, RTOL),  // 0.0625
        ("sliding_attention"@, 0x3B03_126F, RTOL),  // 0.002
        ("sliding_attention_output_exact"@, 0x3DCC_CCCD, RTOL),  // 0.1
        ("sliding_attention_output_random"@, 0x3DCC_CCCD, RTOL),  // 0.1
        ("full_project_qkv_exact"@, 0x3D80_0000, RTOL),  // 0.0625
        ("full_project_qkv_random"@, 0x3D80_0000, RTOL),  // 0.0625
        ("full_attention"@, 0x3B03_126F, RTOL),  // 0.002
        ("full_attention_output_exact"@, 0x3D80_0000, RTOL),  // 0.0625
        ("full_attention_output_random"@, 0x3D80_0000, RTOL),  // 0.0625
        ("decoder_feedforward"@, 0x3CA3_D70A, RTOL),  // 0.02
        ("final_norm_and_logits"@, 0x3E00_0000, RTOL),  // 0.125
        ("patch_embed"@, 0x3D4C_CCCD, RTOL),  // 0.05
        ("add_position_and_norm"@, 0x3CA3_D70A, RTOL),  // 0.02
        ("project_to_text_embedding"@, 0x3F00_0000, RTOL),  // 0.5
        ("audio_project_frame"@, 0x38D1_B717, RTOL),  // 0.0001
        ("layernorm"@, 0x3CA3_D70A, RTOL),  // 0.02
    ]
}

/// Whether a test has this name.
pub open spec fn is_test(name: Seq<char>) -> bool {
    exists|i: int| 0 <= i < rows().len() && (#[trigger] rows()[i]).0 == name
}

/// The shim of the test called `name`, if there is one.
pub open spec fn shim_of(name: Seq<char>) -> Option<Shim> {
    if name == "copy_hidden_state"@ {
        Some(Shim::CopyHiddenState)
    } else if name == "embed_token"@ {
        Some(Shim::EmbedToken)
    } else if name == "sliding_project_qkv_exact"@ {
        Some(Shim::SlidingProjectQkv { exact: true })
    } else if name == "sliding_project_qkv_random"@ {
        Some(Shim::SlidingProjectQkv { exact: false })
    } else if name == "sliding_attention"@ {
        Some(Shim::SlidingAttention)
    } else if name == "sliding_attention_output_exact"@ {
        Some(Shim::SlidingAttentionOutput { exact: true })
    } else if name == "sliding_attention_output_random"@ {
        Some(Shim::SlidingAttentionOutput { exact: false })
    } else if name == "full_project_qkv_exact"@ {
        Some(Shim::FullProjectQkv { exact: true })
    } else if name == "full_project_qkv_random"@ {
        Some(Shim::FullProjectQkv { exact: false })
    } else if name == "full_attention"@ {
        Some(Shim::FullAttention)
    } else if name == "full_attention_output_exact"@ {
        Some(Shim::FullAttentionOutput { exact: true })
    } else if name == "full_attention_output_random"@ {
        Some(Shim::FullAttentionOutput { exact: false })
    } else if name == "decoder_feedforward"@ {
        Some(Shim::DecoderFeedforward)
    } else if name == "final_norm_and_logits"@ {
        Some(Shim::FinalNormAndLogits)
    } else if name == "patch_embed"@ {
        Some(Shim::PatchEmbed)
    } else if name == "add_position_and_norm"@ {
        Some(Shim::AddPositionAndNorm)
    } else if name == "project_to_text_embedding"@ {
        Some(Shim::ProjectToTextEmbedding)
    } else if name == "audio_project_frame"@ {
        Some(Shim::AudioProjectFrame)
    } else if name == "layernorm"@ {
        Some(Shim::Layernorm)
    } else {
        None
    }
}

/// The tests, in the order in which they run.
pub fn tests() -> (r: Vec<Test>)
    ensures
        r@.map_values(|test: Test| test@) == rows(),
{
    let mut r: Vec<Test> = Vec::with_capacity(19);
    r.push(Test { name: "copy_hidden_state", atol: 0, rtol: 0 });
    r.push(Test { name: "embed_token", atol: 0x3E80_0000, rtol: RTOL });
    r.push(Test { name: "sliding_project_qkv_exact", atol: 0x3D80_0000, rtol: RTOL });
    r.push(Test { name: "sliding_project_qkv_random", atol: 0x3D80_0000, rtol: RTOL });
    r.push(Test { name: "sliding_attention", atol: 0x3B03_126F, rtol: RTOL });
    r.push(Test { name: "sliding_attention_output_exact", atol: 0x3DCC_CCCD, rtol: RTOL });
    r.push(Test { name: "sliding_attention_output_random", atol: 0x3DCC_CCCD, rtol: RTOL });
    r.push(Test { name: "full_project_qkv_exact", atol: 0x3D80_0000, rtol: RTOL });
    r.push(Test { name: "full_project_qkv_random", atol: 0x3D80_0000, rtol: RTOL });
    r.push(Test { name: "full_attention", atol: 0x3B03_126F, rtol: RTOL });
    r.push(Test { name: "full_attention_output_exact", atol: 0x3D80_0000, rtol: RTOL });
    r.push(Test { name: "full_attention_output_random", atol: 0x3D80_0000, rtol: RTOL });
    r.push(Test { name: "decoder_feedforward", atol: 0x3CA3_D70A, rtol: RTOL });
    r.push(Test { name: "final_norm_and_logits", atol: 0x3E00_0000, rtol: RTOL });
    r.push(Test { name: "patch_embed", atol: 0x3D4C_CCCD, rtol: RTOL });
    r.push(Test { name: "add_position_and_norm", atol: 0x3CA3_D70A, rtol: RTOL });
    r.push(Test { name: "project_to_text_embedding", atol: 0x3F00_0000, rtol: RTOL });
    r.push(Test { name: "audio_project_frame", atol: 0x38D1_B717, rtol: RTOL });
    r.push(Test { name: "layernorm", atol: 0x3CA3_D70A, rtol: RTOL });
    assert(r@.map_values(|test: Test| test@) =~= rows());
    r
}

/// Whether a test has this name.
pub fn has_test(name: &str) -> (r: bool)
    ensures
        r == is_test(name@),
{
    let all = tests();
    let ghost views = all@.map_values(|test: Test| test@);
    let mut i: usize = 0;
    while i < all.len()
        invariant
            i <= all.len(),
            views == rows(),
            views == all@.map_values(|test: Test| test@),
            forall|j: int| 0 <= j < i ==> (#[trigger] rows()[j]).0 != name@,
        decreases all.len() - i,
    {
        assert(rows()[i as int] == all@[i as int]@);
        if text::same(all[i].name, name) {
            return true;
        }
        i += 1;
    }
    false
}

/// The shim of the test called `name`, if there is one.
pub fn find_shim(name: &str) -> (r: Option<Shim>)
    ensures
        r == shim_of(name@),
{
    if text::same(name, "copy_hidden_state") {
        Some(Shim::CopyHiddenState)
    } else if text::same(name, "embed_token") {
        Some(Shim::EmbedToken)
    } else if text::same(name, "sliding_project_qkv_exact") {
        Some(Shim::SlidingProjectQkv { exact: true })
    } else if text::same(name, "sliding_project_qkv_random") {
        Some(Shim::SlidingProjectQkv { exact: false })
    } else if text::same(name, "sliding_attention") {
        Some(Shim::SlidingAttention)
    } else if text::same(name, "sliding_attention_output_exact") {
        Some(Shim::SlidingAttentionOutput { exact: true })
    } else if text::same(name, "sliding_attention_output_random") {
        Some(Shim::SlidingAttentionOutput { exact: false })
    } else if text::same(name, "full_project_qkv_exact") {
        Some(Shim::FullProjectQkv { exact: true })
    } else if text::same(name, "full_project_qkv_random") {
        Some(Shim::FullProjectQkv { exact: false })
    } else if text::same(name, "full_attention") {
        Some(Shim::FullAttention)
    } else if text::same(name, "full_attention_output_exact") {
        Some(Shim::FullAttentionOutput { exact: true })
    } else if text::same(name, "full_attention_output_random") {
        Some(Shim::FullAttentionOutput { exact: false })
    } else if text::same(name, "decoder_feedforward") {
        Some(Shim::DecoderFeedforward)
    } else if text::same(name, "final_norm_and_logits") {
        Some(Shim::FinalNormAndLogits)
    } else if text::same(name, "patch_embed") {
        Some(Shim::PatchEmbed)
    } else if text::same(name, "add_position_and_norm") {
        Some(Shim::AddPositionAndNorm)
    } else if text::same(name, "project_to_text_embedding") {
        Some(Shim::ProjectToTextEmbedding)
    } else if text::same(name, "audio_project_frame") {
        Some(Shim::AudioProjectFrame)
    } else if text::same(name, "layernorm") {
        Some(Shim::Layernorm)
    } else {
        None
    }
}

} // verus!
