use kernel_fixtures::archive::Tensor;
use kernel_fixtures::fixture::Fixture;
use kernel_fixtures::shims::{self, Axes};
use kernel_fixtures::shims_media;
use kernel_fixtures::stage::{Buffer, Stage};
use kernel_fixtures::synth::{self, Refusal, Synth};
use kernel_fixtures::{logits, outputs, prng, rope};

fn axes() -> Axes {
    Axes {
        h: 32, w: 90_300, e: 140, l: 48, qs: 12, ps: 6, ds: 8, ns: 2, gs: 3, ts: 100,
        qf: 10, pf: 4, df: 16, gf: 5, tf: 150, rv: 9, mv: 7, ov: 5, aa: 11,
    }
}

fn checksum(key: &str, sum: u32) -> Tensor {
    Tensor {
        name: key.to_string(),
        dtype: "I64".to_string(),
        data: (sum as i64).to_le_bytes().to_vec(),
    }
}

fn fixture_of(entries: &[(String, u32)]) -> Fixture {
    let list: Vec<Tensor> = entries.iter().map(|(key, sum)| checksum(key, *sum)).collect();
    Fixture::from_tensors(&list).ok().unwrap()
}

/// Records one checksum after the other until nothing is refused: the keys in the order in which
/// they were asked for, and the buffers.
fn learned(run: impl Fn(&Fixture) -> Result<Vec<Buffer>, Refusal>) -> (Vec<String>, Vec<Buffer>) {
    let mut entries: Vec<(String, u32)> = Vec::new();
    loop {
        match run(&fixture_of(&entries)) {
            Ok(buffers) => {
                return (entries.into_iter().map(|(key, _)| key).collect(), buffers);
            }
            Err(Refusal::NoChecksum { key }) => entries.push((key, 0xDEAD_BEEF)),
            Err(Refusal::Diverged { input, actual, expected }) => {
                let last = entries.last_mut().unwrap();
                assert_eq!(expected, 0xDEAD_BEEF);
                assert_eq!(last.0.replacen(".check.", ".", 1), input);
                last.1 = actual;
            }
        }
    }
}

fn keys(test: &str, inputs: &[&str]) -> Vec<String> {
    inputs.iter().map(|input| format!("{test}.check.{input}")).collect()
}

fn names(buffers: &[Buffer]) -> Vec<&str> {
    buffers.iter().map(|b| b.name.as_str()).collect()
}

fn of<'a>(buffers: &'a [Buffer], name: &str) -> &'a [u8] {
    &buffers.iter().find(|b| b.name == name).unwrap().bytes
}

fn bf16(values: &[f32]) -> Vec<u8> {
    values
        .iter()
        .flat_map(|v| prng::f32_to_bf16_bits(v.to_bits()).to_le_bytes())
        .collect()
}

fn floats(values: &[f32]) -> Vec<u8> {
    values.iter().flat_map(|v| v.to_le_bytes()).collect()
}

fn half(bytes: &[u8], i: usize) -> f32 {
    f32::from_bits((u16::from_le_bytes([bytes[2 * i], bytes[2 * i + 1]]) as u32) << 16)
}

const CENTRED: (u32, u32) = (0xBF00_0000, 0x3F00_0000);
const UNIT: (u32, u32) = (0, 0x3F80_0000);

#[test]
fn embed_token_inputs() {
    let axes = axes();
    let (asked, buffers) = learned(|f| shims::embed_token(&axes, f));
    assert_eq!(asked, keys("embed_token", &["row", "offset"]));
    assert_eq!(names(&buffers), vec!["embedding_table", "offset", "out"]);
    let table = of(&buffers, "embedding_table");
    let row = prng::bf16_uniform("embed_token.row", 32, CENTRED.0, CENTRED.1);
    let start = 90_210 * 32 * 2;
    assert_eq!(table.len(), 90_300 * 32 * 2);
    assert_eq!(&table[start..start + 64], &row[..]);
    assert!(table[..start].iter().all(|b| *b == 0));
    assert!(table[start + 64..].iter().all(|b| *b == 0));
    assert_eq!(of(&buffers, "offset"), (start as i32).to_le_bytes());
    assert_eq!(of(&buffers, "out"), vec![0u8; 64]);
}

#[test]
fn copy_hidden_state_inputs() {
    let axes = axes();
    let (asked, buffers) = learned(|f| shims::copy_hidden_state(&axes, f));
    assert_eq!(asked, keys("copy_hidden_state", &["x"]));
    assert_eq!(names(&buffers), vec!["x", "out"]);
    assert_eq!(of(&buffers, "x"), prng::bf16_uniform("copy_hidden_state.x", 32, CENTRED.0, CENTRED.1));
}

#[test]
fn sliding_project_qkv_inputs() {
    let axes = axes();
    let cosines: Vec<u32> = (0..4).map(|i| (0.5f32 + i as f32).to_bits()).collect();
    let sines: Vec<u32> = (0..4).map(|i| (0.25f32 + i as f32).to_bits()).collect();
    let test = "sliding_project_qkv_exact";
    let (asked, buffers) = learned(|f| shims::sliding_project_qkv(&axes, f, test, true, &cosines, &sines));
    assert_eq!(
        asked,
        keys(
            test,
            &[
                "input_rms_weight", "x_signs", "x_exact", "q_weight", "k_weight", "v_weight", "q_weight_scale",
                "k_weight_scale", "v_weight_scale", "q_rms_weight", "k_rms_weight", "cos", "sin", "rope_offset",
                "kv_offset"
            ]
        )
    );
    assert_eq!(
        names(&buffers),
        vec![
            "input_rms_weight", "x", "q_weight", "k_weight", "v_weight", "q_weight_scale", "k_weight_scale",
            "v_weight_scale", "q_rms_weight", "k_rms_weight", "cos", "sin", "rope_offset", "kv_offset", "k_cache",
            "v_cache", "q_out"
        ]
    );
    let signs = prng::bf16_signs("sliding_project_qkv_exact.x_signs", 32, 0x3F80_0000);
    let weights = of(&buffers, "input_rms_weight");
    assert_eq!(
        weights,
        prng::bf16_uniform("sliding_project_qkv_exact.input_rms_weight", 32, 0.75f32.to_bits(), 1.25f32.to_bits())
    );
    let quotients: Vec<f32> = (0..32).map(|i| half(&signs, i) / half(weights, i)).collect();
    assert_eq!(of(&buffers, "x"), bf16(&quotients));
    assert_eq!(
        of(&buffers, "v_weight"),
        prng::f8_banded("sliding_project_qkv_exact.v_weight", 6 * 32, 7, 14, true)
    );
    assert_eq!(
        of(&buffers, "k_weight_scale"),
        prng::bf16_uniform("sliding_project_qkv_exact.k_weight_scale", 6, 0, 1e-3f32.to_bits())
    );
    let cos = of(&buffers, "cos");
    assert_eq!(cos.len(), 140 * 8 * 2);
    assert_eq!(&cos[137 * 16..138 * 16], &bf16(&[0.5, 1.5, 2.5, 3.5, 0.5, 1.5, 2.5, 3.5])[..]);
    assert!(cos[..137 * 16].iter().all(|b| *b == 0));
    let sin = of(&buffers, "sin");
    assert_eq!(&sin[137 * 16..138 * 16], &bf16(&[-0.25, -1.25, -2.25, -3.25, 0.25, 1.25, 2.25, 3.25])[..]);
    assert_eq!(of(&buffers, "rope_offset"), (137i32 * 16).to_le_bytes());
    assert_eq!(of(&buffers, "kv_offset"), (37i32 * 32).to_le_bytes());
    assert_eq!(of(&buffers, "k_cache"), vec![0u8; 100 * 16 * 2]);
    assert_eq!(of(&buffers, "q_out"), vec![0u8; 48 * 2]);
}

#[test]
fn sliding_project_qkv_random_inputs() {
    let axes = axes();
    let test = "sliding_project_qkv_random";
    let (asked, buffers) = learned(|f| shims::sliding_project_qkv(&axes, f, test, false, &[], &[]));
    assert_eq!(asked[..3], keys(test, &["input_rms_weight", "x_signs", "q_weight"])[..]);
    assert_eq!(of(&buffers, "x"), prng::bf16_signs("sliding_project_qkv_random.x_signs", 32, 0x3F80_0000));
    assert_eq!(&of(&buffers, "cos")[137 * 16..138 * 16], &bf16(&[1.0; 8])[..]);
}

#[test]
fn sliding_attention_inputs() {
    let axes = axes();
    let (asked, buffers) = learned(|f| shims::sliding_attention(&axes, f));
    assert_eq!(asked, keys("sliding_attention", &["q", "k", "v", "mask"]));
    assert_eq!(of(&buffers, "q"), prng::bf16_signs("sliding_attention.q", 48, 0.0625f32.to_bits()));
    assert_eq!(of(&buffers, "v"), prng::bf16_uniform("sliding_attention.v", 1600, CENTRED.0, CENTRED.1));
    assert_eq!(of(&buffers, "mask"), floats(&[1.0; 100]));
    assert_eq!(of(&buffers, "out"), vec![0u8; 96]);
}

#[test]
fn sliding_attention_output_inputs() {
    let axes = axes();
    for exact in [true, false] {
        let test = if exact { "sliding_attention_output_exact" } else { "sliding_attention_output_random" };
        let (asked, buffers) = learned(|f| shims::sliding_attention_output(&axes, f, test, exact));
        let inputs = ["x", "post_attn_rms_weight", "o_weight", "o_weight_scale", "residual"];
        assert_eq!(asked, keys(test, &inputs));
        assert_eq!(names(&buffers), inputs.to_vec());
        let x = if exact {
            prng::bf16_signs("sliding_attention_output_exact.x", 48, 0x3F80_0000)
        } else {
            prng::bf16_uniform("sliding_attention_output_random.x", 48, CENTRED.0, CENTRED.1)
        };
        assert_eq!(of(&buffers, "x"), x);
        assert_eq!(of(&buffers, "o_weight").len(), 32 * 12);
    }
}

#[test]
fn full_project_qkv_inputs() {
    let axes = axes();
    let test = "full_project_qkv_random";
    let cosines = [2.0f32.to_bits(), 3.0f32.to_bits()];
    let sines = [0.5f32.to_bits(), 0.75f32.to_bits()];
    let (asked, buffers) = learned(|f| shims::full_project_qkv(&axes, f, test, false, &cosines, &sines));
    assert_eq!(
        asked,
        keys(
            test,
            &[
                "input_rms_weight", "x_signs", "q_weight", "k_weight", "q_weight_scale", "k_weight_scale",
                "q_rms_weight", "k_rms_weight", "cos", "sin", "rope_offset", "kv_offset"
            ]
        )
    );
    let mut cos = vec![2.0, 3.0, 1.0, 1.0, 1.0, 1.0, 1.0, 1.0];
    cos.extend(cos.clone());
    assert_eq!(&of(&buffers, "cos")[137 * 32..138 * 32], &bf16(&cos)[..]);
    let mut sin = vec![-0.5, -0.75, -0.0, -0.0, -0.0, -0.0, -0.0, -0.0];
    sin.extend([0.5, 0.75, 0.0, 0.0, 0.0, 0.0, 0.0, 0.0]);
    assert_eq!(&of(&buffers, "sin")[137 * 32..138 * 32], &bf16(&sin)[..]);
    assert_eq!(of(&buffers, "kv_offset"), (137i32 * 32).to_le_bytes());
    assert_eq!(of(&buffers, "v_cache").len(), 150 * 16 * 2);
    assert_eq!(of(&buffers, "q_out").len(), 5 * 16 * 2);
    let (asked, _) = learned(|f| shims::full_project_qkv(&axes, f, test, true, &cosines, &sines));
    assert_eq!(asked[1..3], keys(test, &["x_signs", "x_exact"])[..]);
}

#[test]
fn full_attention_inputs() {
    let axes = axes();
    let (asked, buffers) = learned(|f| shims::full_attention(&axes, f));
    assert_eq!(asked, keys("full_attention", &["q", "k0", "k1", "v0", "v1", "mask0", "mask1"]));
    assert_eq!(of(&buffers, "mask0"), floats(&[1.0; 150]));
    let mut mask = vec![1.0; 138];
    mask.extend([0.0; 12]);
    assert_eq!(of(&buffers, "mask1"), floats(&mask));
    assert_ne!(of(&buffers, "k0"), of(&buffers, "k1"));
    assert_eq!(of(&buffers, "running_max"), vec![0u8; 20]);
    assert_eq!(of(&buffers, "running_sum"), vec![0u8; 20]);
    assert_eq!(of(&buffers, "out"), vec![0u8; 160]);
}

#[test]
fn full_attention_output_inputs() {
    let axes = axes();
    let inputs = ["x", "running_sum", "post_attn_rms_weight", "o_weight", "o_weight_scale", "residual"];
    let exact = "full_attention_output_exact";
    let (asked, buffers) = learned(|f| shims::full_attention_output(&axes, f, exact, true));
    assert_eq!(asked, keys(exact, &inputs));
    assert_eq!(of(&buffers, "running_sum"), floats(&[4.0; 5]));
    assert_eq!(of(&buffers, "x"), prng::bf16_signs("full_attention_output_exact.x", 80, 0x3F80_0000));
    let random = "full_attention_output_random";
    let (asked, buffers) = learned(|f| shims::full_attention_output(&axes, f, random, false));
    assert_eq!(asked, keys(random, &inputs));
    assert_eq!(
        of(&buffers, "running_sum"),
        prng::f32_uniform("full_attention_output_random.running_sum", 5, 2.0f32.to_bits(), 4.0f32.to_bits())
    );
}

#[test]
fn decoder_feedforward_inputs() {
    let axes = axes();
    let (asked, buffers) = learned(|f| shims::decoder_feedforward(&axes, f));
    let inputs = [
        "residual", "pre_ff_rms_weight", "post_ff_rms_weight", "up_weight_packed", "gate_weight_packed",
        "down_weight_packed", "up_weight_scale", "gate_weight_scale", "down_weight_scale", "up_global_scale",
        "gate_global_scale", "down_global_scale", "layer_scalar",
    ];
    assert_eq!(asked, keys("decoder_feedforward", &inputs));
    assert_eq!(names(&buffers), inputs.to_vec());
    assert_eq!(of(&buffers, "up_weight_packed"), prng::f4_nibbles("decoder_feedforward.up_weight_packed", 48 * 32));
    assert_eq!(
        of(&buffers, "up_weight_scale"),
        prng::f8_banded("decoder_feedforward.up_weight_scale", 48 * 2, 8, 10, false)
    );
    assert_eq!(of(&buffers, "down_weight_scale").len(), 32 * 3);
    assert_eq!(of(&buffers, "up_global_scale"), (1.0f32 / 9600.0).to_le_bytes());
    assert_eq!(of(&buffers, "gate_global_scale"), (1.0f32 / 9600.0).to_le_bytes());
    assert_eq!(of(&buffers, "down_global_scale"), (1.0f32 / 12928.0).to_le_bytes());
    assert_eq!(of(&buffers, "layer_scalar"), bf16(&[0.375; 8]));
}

#[test]
fn final_norm_and_logits_inputs() {
    let mut axes = axes();
    axes.w = 50;
    let (asked, buffers) = learned(|f| shims::final_norm_and_logits(&axes, f));
    assert_eq!(asked, keys("final_norm_and_logits", &["x", "rms_weight", "lm_head_weight"]));
    assert_eq!(
        of(&buffers, "lm_head_weight"),
        prng::bf16_uniform("final_norm_and_logits.lm_head_weight", 50 * 32, CENTRED.0, CENTRED.1)
    );
    assert_eq!(of(&buffers, "out"), vec![0u8; 100]);
}

#[test]
fn blocks_of_rows_sum_to_the_whole() {
    let (rows, width) = (2usize, 0x40_0002usize);
    let whole = prng::bf16_uniform("t.w", rows * width, CENTRED.0, CENTRED.1);
    let sum = prng::checksum(&whole, 0);
    let fixture = fixture_of(&[("t.check.w".to_string(), sum)]);
    let synth = Synth::new("t", &fixture);
    let made = logits::rows_in_blocks(&synth, "w", rows, width).ok().unwrap();
    assert!(made == whole);
}

#[test]
fn image_and_audio_inputs() {
    let axes = axes();
    let (asked, buffers) = learned(|f| shims_media::patch_embed(&axes, f));
    let inputs = ["x", "ln1_weight", "ln1_bias", "dense_weight", "dense_bias", "ln2_weight", "ln2_bias"];
    assert_eq!(asked, keys("patch_embed", &inputs));
    assert_eq!(of(&buffers, "dense_weight"), prng::bf16_uniform("patch_embed.dense_weight", 63, CENTRED.0, CENTRED.1));
    assert_eq!(of(&buffers, "ln2_weight"), prng::bf16_uniform("patch_embed.ln2_weight", 7, UNIT.0, UNIT.1));
    assert_eq!(of(&buffers, "out"), vec![0u8; 14]);
    let (asked, buffers) = learned(|f| shims_media::add_position_and_norm(&axes, f));
    assert_eq!(asked, keys("add_position_and_norm", &["x", "pos_embed", "ln3_weight", "ln3_bias"]));
    assert_eq!(names(&buffers), vec!["x", "pos_embed", "ln3_weight", "ln3_bias", "out"]);
    let (asked, buffers) = learned(|f| shims_media::project_to_text_embedding(&axes, f));
    assert_eq!(asked, keys("project_to_text_embedding", &["x", "proj_weight"]));
    assert_eq!(of(&buffers, "proj_weight").len(), 32 * 5 * 2);
    let (asked, buffers) = learned(|f| shims_media::audio_project_frame(&axes, f));
    assert_eq!(asked, keys("audio_project_frame", &["x", "proj_weight"]));
    assert_eq!(of(&buffers, "proj_weight").len(), 32 * 11 * 2);
    let (asked, buffers) = learned(|f| shims_media::layernorm(&axes, f));
    assert_eq!(asked, keys("layernorm", &["x", "weight", "bias"]));
    assert_eq!(of(&buffers, "weight"), prng::bf16_uniform("layernorm.weight", 7, UNIT.0, UNIT.1));
}

#[test]
fn inputs_without_a_checksum_are_refused() {
    let fixture = fixture_of(&[]);
    let synth = Synth::new("t", &fixture);
    assert_eq!(synth.seed("w"), "t.w");
    match synth.bf16("w", 3, UNIT.0, UNIT.1) {
        Err(Refusal::NoChecksum { key }) => assert_eq!(key, "t.check.w"),
        _ => panic!("an input without a checksum was used"),
    }
}

#[test]
fn diverging_inputs_are_refused() {
    let storage = prng::f4_nibbles("t.w", 10);
    let sum = prng::checksum(&storage, 0);
    let fixture = fixture_of(&[("t.check.w".to_string(), sum), ("u.check.w".to_string(), 1)]);
    let synth = Synth::new("t", &fixture);
    assert_eq!(synth.f4("w", 10).ok(), Some(storage.clone()));
    let mut changed = storage.clone();
    changed[1] ^= 4;
    match synth.upload("w", changed.clone()) {
        Err(Refusal::Diverged { input, actual, expected }) => {
            assert_eq!(input, "t.w");
            assert_eq!(actual, prng::checksum(&changed, 0));
            assert_eq!(expected, sum);
        }
        _ => panic!("a changed input was used"),
    }
    assert!(synth.verify("w", &storage).is_ok());
    assert!(synth.verify("w", &changed).is_err());
    assert!(synth.verify_sum("w", sum).is_ok());
}

#[test]
fn adding_a_test_changes_no_other() {
    let storage = prng::f8_banded("t.w", 10, 3, 4, true);
    let sum = prng::checksum(&storage, 0);
    let alone = fixture_of(&[("t.check.w".to_string(), sum)]);
    let both = fixture_of(&[("u.check.w".to_string(), 5), ("t.check.w".to_string(), sum)]);
    assert_eq!(Synth::new("t", &alone).f8("w", 10, 3, 4, true).ok(), Some(storage.clone()));
    assert_eq!(Synth::new("t", &both).f8("w", 10, 3, 4, true).ok(), Some(storage));
    assert!(Synth::new("u", &both).f8("w", 10, 3, 4, true).is_err());
}

#[test]
fn constants_are_vetted_too() {
    let words = floats(&[1.0, -2.0]);
    let halves = bf16(&[1.0, -2.0]);
    let fixture = fixture_of(&[
        ("t.check.a".to_string(), prng::checksum(&words, 0)),
        ("t.check.b".to_string(), prng::checksum(&halves, 0)),
        ("t.check.c".to_string(), prng::checksum(&(-3i32).to_le_bytes(), 0)),
    ]);
    let synth = Synth::new("t", &fixture);
    let values = [1.0f32.to_bits(), (-2.0f32).to_bits()];
    assert_eq!(synth.constant_f32("a", &values).ok(), Some(words));
    assert_eq!(synth.constant_bf16("b", &values).ok(), Some(halves));
    assert_eq!(synth.constant_i32("c", -3).ok(), Some((-3i32).to_le_bytes().to_vec()));
    assert!(synth.constant_i32("c", 3).is_err());
}

#[test]
fn the_first_refusal_counts() {
    let mut stage = Stage::new();
    stage.put("a", Ok(vec![1]));
    stage.put("b", Err(Refusal::NoChecksum { key: "first".to_string() }));
    stage.put("c", Ok(vec![2]));
    stage.put("d", Err(Refusal::NoChecksum { key: "second".to_string() }));
    assert!(matches!(stage.finish(), Err(Refusal::NoChecksum { key }) if key == "first"));
    let mut stage = Stage::new();
    stage.put("a", Ok(vec![1]));
    stage.put("b", Ok(vec![2, 3]));
    let buffers = stage.finish().ok().unwrap();
    assert_eq!(names(&buffers), vec!["a", "b"]);
    assert_eq!(of(&buffers, "b"), vec![2, 3]);
}

#[test]
fn empty_rows_fit_any_table() {
    let empty = Axes { h: 0, w: 3, ds: 0, df: 0, e: 1, tf: 1, ..axes() };
    let (asked, buffers) = learned(|f| shims::embed_token(&empty, f));
    assert_eq!(asked, keys("embed_token", &["row", "offset"]));
    assert_eq!(of(&buffers, "embedding_table"), Vec::<u8>::new());
    assert_eq!(word(of(&buffers, "offset")), 0);
    let (_, buffers) = learned(|f| shims::sliding_project_qkv(&empty, f, "t", true, &[], &[]));
    assert_eq!(of(&buffers, "cos"), Vec::<u8>::new());
    assert_eq!(word(of(&buffers, "kv_offset")), 0);
    let (_, buffers) = learned(|f| shims::full_project_qkv(&empty, f, "t", false, &[], &[]));
    assert_eq!(of(&buffers, "sin"), Vec::<u8>::new());
}

fn word(bytes: &[u8]) -> usize {
    i32::from_le_bytes([bytes[0], bytes[1], bytes[2], bytes[3]]) as usize
}

#[test]
fn offsets_point_at_rows() {
    let axes = axes();
    let ones = vec![2.0f32.to_bits(); 8];
    let (_, buffers) = learned(|f| shims::sliding_project_qkv(&axes, f, "t", false, &ones, &ones));
    let at = word(of(&buffers, "rope_offset"));
    assert_eq!(&of(&buffers, "cos")[at..at + 16], &bf16(&[2.0; 8])[..]);
    assert_eq!(&of(&buffers, "sin")[at..at + 8], &bf16(&[-2.0; 4])[..]);
    assert_eq!(&of(&buffers, "sin")[at + 8..at + 16], &bf16(&[2.0; 4])[..]);
    let at = word(of(&buffers, "kv_offset")) / 2;
    let cache: Vec<u32> = (0..1600).collect();
    let rows = outputs::sliding_project_qkv_outputs(&axes, Vec::new(), &cache, &cache);
    assert_eq!(rows[1].values, cache[at..at + 16].to_vec());

    let (_, buffers) = learned(|f| shims::full_project_qkv(&axes, f, "t", false, &ones, &ones));
    let at = word(of(&buffers, "rope_offset"));
    assert_eq!(&of(&buffers, "cos")[at..at + 32], &bf16(&[2.0; 16])[..]);
    let at = word(of(&buffers, "kv_offset")) / 2;
    let cache: Vec<u32> = (0..2400).collect();
    let rows = outputs::full_project_qkv_outputs(&axes, Vec::new(), &cache, &cache);
    assert_eq!(rows[2].values, cache[at..at + 16].to_vec());
}

#[test]
fn inputs_depend_on_their_own_checksums() {
    let axes = axes();
    let (asked, alone) = learned(|f| shims::full_attention(&axes, f));
    let sums: Vec<(String, u32)> = asked
        .iter()
        .map(|key| (key.clone(), prng::checksum(of(&alone, key.rsplit('.').next().unwrap()), 0)))
        .collect();
    let mut more = vec![("full_attentions.check.q".to_string(), 1), ("q".to_string(), 2)];
    more.extend(sums);
    let again = shims::full_attention(&axes, &fixture_of(&more)).ok().unwrap();
    assert_eq!(names(&again), names(&alone));
    for (a, b) in again.iter().zip(&alone) {
        assert!(a.bytes == b.bytes);
    }
}

#[test]
fn rotation_tables_repeat_in_both_halves() {
    let (cos, sin) = rope::rope_tables(6, &[7, 8], &[9]);
    assert_eq!(cos, vec![7, 8, 0x3F80_0000, 7, 8, 0x3F80_0000]);
    assert_eq!(sin, vec![9, 0, 0, 9, 0, 0]);
    let (cos, sin) = rope::rope_tables(5, &[7, 8, 9], &[1, 2, 3]);
    assert_eq!(cos, vec![7, 8, 7, 8, 7]);
    assert_eq!(sin, vec![1, 2, 1, 2, 1]);
    assert_eq!(rope::rope_tables(0, &[1], &[2]), (Vec::new(), Vec::new()));
    assert_eq!(rope::turning_count(256, 1, 1), 128);
    assert_eq!(rope::turning_count(512, 1, 4), 64);
    assert_eq!(rope::turning_count(10, 1, 4), 1);
}

#[test]
fn negating_twice_gives_back() {
    let values: Vec<u32> = [1.0f32, -2.0, 3.0, 4.0, -5.0].iter().map(|v| v.to_bits()).collect();
    let once = rope::negate_low_half(&values);
    let floats: Vec<f32> = once.iter().map(|b| f32::from_bits(*b)).collect();
    assert_eq!(floats, vec![-1.0, 2.0, 3.0, 4.0, -5.0]);
    assert_eq!(rope::negate_low_half(&once), values);
}

#[test]
fn masks_and_placed_rows() {
    assert_eq!(rope::prefix_mask(4, 2), vec![0x3F80_0000, 0x3F80_0000, 0, 0]);
    assert_eq!(rope::prefix_mask(2, 5), vec![0x3F80_0000, 0x3F80_0000]);
    assert_eq!(rope::place(6, 2, &[7, 8]), vec![0, 0, 7, 8, 0, 0]);
    assert_eq!(synth::zeros(3, 4), vec![0]);
    assert_eq!(synth::zeros(3, 16), vec![0; 6]);
}
