use kernel_fixtures::archive::Tensor;
use kernel_fixtures::catalogue::{self, Shim};
use kernel_fixtures::compare::{compare, Comparison, Measure};
use kernel_fixtures::fixture::Fixture;
use kernel_fixtures::outputs;
use kernel_fixtures::report::{display_label, examine, verdict, Fault, Tally};
use kernel_fixtures::shims::Axes;

fn bits(values: &[f32]) -> Vec<u32> {
    values.iter().map(|v| v.to_bits()).collect()
}

fn measured(expected: &[f32], actual: &[f32], atol: f32, rtol: f32) -> Measure {
    match compare(&bits(expected), &bits(actual), atol.to_bits(), rtol.to_bits()) {
        Comparison::Measured(m) => m,
        Comparison::NonFinite { index } => panic!("not finite at {index}"),
    }
}

fn axes() -> Axes {
    Axes {
        h: 4, w: 4, e: 138, l: 16, qs: 4, ps: 4, ds: 2, ns: 2, gs: 2, ts: 100,
        qf: 4, pf: 4, df: 3, gf: 2, tf: 140, rv: 4, mv: 4, ov: 4, aa: 4,
    }
}

#[test]
fn equal_outputs_pass_without_tolerance() {
    let m = measured(&[1.0, -0.0, 3.5], &[1.0, 0.0, 3.5], 0.0, 0.0);
    assert!(m.ok);
    assert_eq!((m.within, m.max_diff, m.max_index, m.relative), (3, 0, 0, 0));
    assert_eq!(m.diffs, vec![0, 0, 0]);
}

#[test]
fn any_difference_fails_without_tolerance() {
    let m = measured(&[1.0, 2.0], &[1.0, 2.0000002], 0.0, 0.0);
    assert!(!m.ok);
    assert_eq!((m.within, m.max_index), (1, 1));
}

#[test]
fn tolerances_add_up() {
    assert!(measured(&[8.0], &[9.25], 0.25, 0.125).ok);
    assert!(!measured(&[8.0], &[9.250001], 0.25, 0.125).ok);
    assert!(measured(&[-8.0], &[-6.75], 0.25, 0.125).ok);
}

#[test]
fn the_first_largest_difference_is_reported() {
    let m = measured(&[1.0, 4.0, 8.0, 4.0], &[1.5, 6.0, 8.25, 2.0], 0.0, 0.5);
    assert_eq!(f32::from_bits(m.max_diff), 2.0);
    assert_eq!(m.max_index, 1);
    assert_eq!(f32::from_bits(m.relative), 50.0);
    assert_eq!(m.diffs, bits(&[0.5, 2.0, 0.25, 2.0]));
    assert!(m.ok);
}

#[test]
fn negligible_expectations_have_no_percentage() {
    let m = measured(&[1e-13], &[1.0], 2.0, 0.0);
    assert_eq!(m.relative, 0);
    assert!(m.ok);
    let m = measured(&[2e-12], &[0.0], 0.0, 0.0);
    assert_eq!(f32::from_bits(m.relative), 100.0);
}

#[test]
fn the_first_output_that_is_not_finite_ends_it() {
    let expected = bits(&[1.0, 2.0, 3.0]);
    let actual = bits(&[9.0, f32::INFINITY, f32::NAN]);
    let found = compare(&expected, &actual, 0, 0);
    assert!(matches!(found, Comparison::NonFinite { index: 1 }));
    assert!(!found.passed());
    let actual = bits(&[f32::NAN, 2.0, 3.0]);
    assert!(matches!(compare(&expected, &actual, 0, 0), Comparison::NonFinite { index: 0 }));
}

#[test]
fn expectations_need_not_be_finite() {
    let m = measured(&[f32::NAN, 1.0], &[1.0, 1.5], 10.0, 10.0);
    assert!(!m.ok);
    assert_eq!((m.within, m.max_index), (1, 1));
    assert!(measured(&[f32::INFINITY], &[1.0], 1.0, 1.0).ok);
    assert!(!measured(&[f32::INFINITY], &[1.0], 1.0, 0.0).ok);
}

#[test]
fn comparisons_match_hardware() {
    let expected: Vec<f32> = (0..200).map(|i| (i as f32 - 100.0) * 0.37).collect();
    let actual: Vec<f32> = expected.iter().enumerate().map(|(i, v)| v * (1.0 + (i % 7) as f32 * 0.006)).collect();
    let (atol, rtol) = (0.01f32, 0.02f32);
    let m = measured(&expected, &actual, atol, rtol);
    let mut within = 0;
    let mut max = (0.0f32, 0usize);
    for (i, (want, got)) in expected.iter().zip(&actual).enumerate() {
        let diff = (want - got).abs();
        assert_eq!(m.diffs[i], diff.to_bits());
        within += usize::from(diff <= atol + rtol * want.abs());
        if diff > max.0 {
            max = (diff, i);
        }
    }
    assert_eq!(m.within, within);
    assert_eq!((f32::from_bits(m.max_diff), m.max_index), max);
    assert_eq!(f32::from_bits(m.relative), max.0 / expected[max.1].abs() * 100.0);
}

#[test]
fn tests_and_shims() {
    let tests = catalogue::tests();
    assert_eq!(tests.len(), 19);
    assert_eq!((tests[0].name, tests[0].atol, tests[0].rtol), ("copy_hidden_state", 0, 0));
    let tolerances: Vec<f32> = tests.iter().map(|t| f32::from_bits(t.atol)).collect();
    assert_eq!(
        tolerances,
        vec![
            0.0, 0.25, 0.0625, 0.0625, 2e-3, 0.1, 0.1, 0.0625, 0.0625, 2e-3, 0.0625, 0.0625, 0.02, 0.125, 0.05,
            0.02, 0.5, 1e-4, 0.02
        ]
    );
    for test in &tests[1..] {
        assert_eq!(f32::from_bits(test.rtol), 2e-2);
    }
    let mut shims = Vec::new();
    for test in &tests {
        assert!(catalogue::has_test(test.name));
        assert!(!test.name.contains('.'));
        let shim = catalogue::find_shim(test.name).unwrap();
        assert!(!shims.contains(&shim));
        shims.push(shim);
    }
    assert_eq!(catalogue::find_shim("sliding_project_qkv_exact"), Some(Shim::SlidingProjectQkv { exact: true }));
    assert_eq!(catalogue::find_shim("full_attention_output_random"), Some(Shim::FullAttentionOutput { exact: false }));
    assert_eq!(catalogue::find_shim("sliding_project_qkv"), None);
    assert!(!catalogue::has_test("sliding_project_qkv"));
}

#[test]
fn labels_of_outputs() {
    assert_eq!(display_label("layernorm", "expected", 1), "layernorm");
    assert_eq!(display_label("qkv", "expected.q", 3), "qkv q");
    assert_eq!(display_label("qkv", "expected.expected.q", 3), "qkv q");
    assert_eq!(display_label("qkv", "other", 2), "qkv other");
    assert_eq!(display_label("qkv", "expected.q", 0), "qkv q");
}

#[test]
fn outputs_are_held_against_the_fixture() {
    let list = vec![
        Tensor {
            name: "layernorm.expected".to_string(),
            dtype: "F32".to_string(),
            data: [1.0f32.to_le_bytes(), 2.0f32.to_le_bytes()].concat(),
        },
        Tensor { name: "layernorm.none".to_string(), dtype: "F32".to_string(), data: Vec::new() },
    ];
    let fixture = Fixture::from_tensors(&list).ok().unwrap();
    let tests = catalogue::tests();
    let test = &tests[18];
    assert_eq!(test.name, "layernorm");
    let good = examine(&fixture, test, "expected", &bits(&[1.01, 2.0])).ok().unwrap();
    assert!(good.passed());
    let bad = examine(&fixture, test, "expected", &bits(&[1.1, 2.0])).ok().unwrap();
    assert!(!bad.passed());
    assert!(matches!(
        examine(&fixture, test, "other", &bits(&[1.0])),
        Err(Fault::NoExpectation { key }) if key == "layernorm.other"
    ));
    assert!(matches!(
        examine(&fixture, test, "expected", &bits(&[1.0])),
        Err(Fault::ShapeMismatch { expected: 2, actual: 1 })
    ));
    assert!(matches!(examine(&fixture, test, "none", &[]), Err(Fault::Empty)));
}

#[test]
fn a_test_passes_if_each_output_does() {
    let good = || compare(&[0], &[0], 0, 0);
    let bad = || compare(&[0], &[1], 0, 0);
    assert!(verdict(&vec![]));
    assert!(verdict(&vec![good(), good()]));
    assert!(!verdict(&vec![good(), bad()]));
    assert!(!verdict(&vec![bad(), good()]));
}

#[test]
fn looser_tolerances_pass_no_less() {
    for i in 0..200 {
        let (want, got) = (i as f32 * 0.3 - 20.0, i as f32 * 0.31 - 20.0);
        let tolerances = [(0.0, 0.0), (0.0, 0.01), (0.25, 0.01), (0.25, 0.1), (1.0, 0.1), (2.0, 1.0)];
        let passes: Vec<bool> = tolerances.iter().map(|(a, r)| measured(&[want], &[got], *a, *r).ok).collect();
        for pair in passes.windows(2) {
            assert!(!pair[0] || pair[1]);
        }
    }
}

#[test]
fn tolerances_of_minus_zero_are_tolerances_of_zero() {
    for (atol, rtol) in [(0.0, 0.0), (-0.0, 0.0), (0.0, -0.0), (-0.0, -0.0)] {
        assert!(measured(&[3.0, -0.0], &[3.0, 0.0], atol, rtol).ok);
        assert!(!measured(&[3.0], &[3.0000002], atol, rtol).ok);
    }
    assert!(measured(&[3.0], &[-5.0], -0.0, f32::INFINITY).ok);
    assert!(!measured(&[0.0], &[0.0], 1.0, f32::INFINITY).ok);
}

#[test]
fn failures_are_tallied_in_order() {
    let mut tally = Tally::new();
    assert_eq!(tally.exit_code(), 0);
    tally.record("a", true);
    assert_eq!(tally.exit_code(), 0);
    tally.record("b", false);
    tally.record("c", true);
    tally.record("d", false);
    assert_eq!(tally.failures(), &vec!["b".to_string(), "d".to_string()]);
    assert_eq!(tally.exit_code(), 1);
}

#[test]
fn a_single_output_is_the_expected_one() {
    let outputs = outputs::single_output(vec![1, 2]);
    assert_eq!(outputs.len(), 1);
    assert_eq!((outputs[0].label.as_str(), outputs[0].values.clone()), ("expected", vec![1, 2]));
}

#[test]
fn projections_give_back_the_rows_they_wrote() {
    let axes = axes();
    let k: Vec<u32> = (0..400).collect();
    let v: Vec<u32> = (1000..1400).collect();
    let out = outputs::sliding_project_qkv_outputs(&axes, vec![7], &k, &v);
    let labels: Vec<&str> = out.iter().map(|o| o.label.as_str()).collect();
    assert_eq!(labels, vec!["expected.q", "expected.k", "expected.v"]);
    assert_eq!(out[0].values, vec![7]);
    assert_eq!(out[1].values, (148..152).collect::<Vec<u32>>());
    assert_eq!(out[2].values, (1148..1152).collect::<Vec<u32>>());
    let k: Vec<u32> = (0..420).collect();
    let out = outputs::full_project_qkv_outputs(&axes, vec![7, 8], &k, &k);
    assert_eq!(out[1].values, vec![411, 412, 413]);
    assert_eq!(out[2].values, vec![411, 412, 413]);
    let empty = Axes { df: 0, tf: 1, ..axes };
    let out = outputs::full_project_qkv_outputs(&empty, vec![7], &[], &[]);
    assert_eq!((out[0].values.clone(), out[1].values.len(), out[2].values.len()), (vec![7], 0, 0));
}

#[test]
fn attention_is_divided_by_the_sum_of_its_head() {
    let values = bits(&[2.0, 4.0, 6.0, 9.0, 12.0, 15.0]);
    let out = outputs::full_attention_outputs(&values, &bits(&[2.0, 3.0]), 3);
    assert_eq!(out[0].label, "expected");
    assert_eq!(out[0].values, bits(&[1.0, 2.0, 3.0, 3.0, 4.0, 5.0]));
    let out = outputs::full_attention_outputs(&[], &bits(&[2.0, 3.0]), 0);
    assert_eq!(out[0].values, Vec::<u32>::new());
}
