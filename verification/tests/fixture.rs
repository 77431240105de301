use kernel_fixtures::archive::{self, Tensor};
use kernel_fixtures::fixture::{Fixture, LoadError, TensorFault};
use kernel_fixtures::{location, text};
use safetensors::tensor::{Dtype, TensorView};

fn serialized(tensors: Vec<(&str, Dtype, Vec<usize>, Vec<u8>)>) -> Vec<u8> {
    let views: Vec<(String, TensorView<'_>)> = tensors
        .iter()
        .map(|(name, dtype, shape, data)| (name.to_string(), TensorView::new(*dtype, shape.clone(), data).unwrap()))
        .collect();
    safetensors::serialize(views, None).unwrap()
}

fn floats(values: &[f32]) -> Vec<u8> {
    values.iter().flat_map(|v| v.to_le_bytes()).collect()
}

fn framed(header: &str, data: &[u8]) -> Vec<u8> {
    let mut file = (header.len() as u64).to_le_bytes().to_vec();
    file.extend_from_slice(header.as_bytes());
    file.extend_from_slice(data);
    file
}

fn tensor(name: &str, dtype: &str, data: Vec<u8>) -> Tensor {
    Tensor { name: name.to_string(), dtype: dtype.to_string(), data }
}

#[test]
fn a_file_is_read_back() {
    let file = serialized(vec![
        ("layernorm.expected", Dtype::F32, vec![3], floats(&[1.0, -2.5, 1e-3])),
        ("layernorm.check.x", Dtype::I64, vec![1], 0x1234_5678i64.to_le_bytes().to_vec()),
        ("embed_token.expected", Dtype::F32, vec![0], Vec::new()),
    ]);
    let fixture = Fixture::load(&file).ok().unwrap();
    let values = fixture.expect("layernorm", "expected").unwrap();
    assert_eq!(values, [1.0f32.to_bits(), (-2.5f32).to_bits(), 1e-3f32.to_bits()]);
    assert_eq!(fixture.expect("embed_token", "expected").unwrap().len(), 0);
    assert_eq!(fixture.checksum("layernorm", "x"), Some(0x1234_5678));
    assert_eq!(fixture.expect("layernorm", "other"), None);
    assert_eq!(fixture.checksum("layernorm", "y"), None);
    assert_eq!(fixture.orphans(), Vec::<String>::new());
}

#[test]
fn only_the_low_half_of_a_checksum_counts() {
    let file = serialized(vec![
        ("a.check.x", Dtype::I64, vec![1], (-2i64).to_le_bytes().to_vec()),
        ("a.check.y", Dtype::I64, vec![2], [7i64.to_le_bytes(), 9i64.to_le_bytes()].concat()),
        ("a.check.z", Dtype::I64, vec![1], 0x9_8765_4321i64.to_le_bytes().to_vec()),
    ]);
    let fixture = Fixture::load(&file).ok().unwrap();
    assert_eq!(fixture.checksum("a", "x"), Some(0xFFFF_FFFE));
    assert_eq!(fixture.checksum("a", "y"), Some(7));
    assert_eq!(fixture.checksum("a", "z"), Some(0x8765_4321));
}

#[test]
fn other_dtypes_are_faults() {
    let file = serialized(vec![("a.b", Dtype::BF16, vec![2], vec![0; 4])]);
    match Fixture::load(&file) {
        Err(LoadError::Tensor(TensorFault::UnexpectedDtype { name, dtype })) => {
            assert_eq!(name, "a.b");
            assert_eq!(dtype, "BF16");
        }
        _ => panic!("a bfloat16 tensor was accepted"),
    }
}

#[test]
fn empty_checksums_are_faults() {
    let file = serialized(vec![("a.check.b", Dtype::I64, vec![0], Vec::new())]);
    match Fixture::load(&file) {
        Err(LoadError::Tensor(TensorFault::ShortChecksum { name })) => assert_eq!(name, "a.check.b"),
        _ => panic!("an empty checksum was accepted"),
    }
}

#[test]
fn other_files_are_refused() {
    for file in [Vec::new(), vec![1, 2, 3], framed("{", &[]), framed("{}", &[1]), vec![0xFF; 64]] {
        assert!(matches!(Fixture::load(&file), Err(LoadError::NotSafetensors(_))));
    }
    assert!(Fixture::load(&framed("{}", &[])).is_ok());
}

const FAR: &str = "[9223372036854775808,18446744073709551615]";

fn record(offsets: &str) -> String {
    format!("{{\"dtype\":\"F32\",\"shape\":[1],\"data_offsets\":{offsets}}}")
}

#[test]
fn data_near_the_end_of_the_address_space_are_refused() {
    let with_escape = record(FAR).replace("data_offsets", "\\u0064ata\\u005Foffset\\u0073");
    for header in [
        format!("{{\"a\":{}}}", record(FAR)),
        format!("{{ \"a\" : {} }}", record(" [ 9223372036854775808 , 18446744073709551615 ] ")),
        format!("{{\"a\":{with_escape}}}"),
        format!("{{\"a\":[\"F32\",[1],{FAR}]}}"),
        format!("{{\"b\":{},\"a\":{}}}", record("[0,4]"), record(FAR)),
        format!("{{\"a\":{},\"b\":{}}}", record(FAR), record("[0,4]")),
        format!("{{\"a\":{},\"a\":{}}}", record("[0,4]"), record(FAR)),
    ] {
        let file = framed(&header, &[0; 4]);
        assert!(archive::is_oversized(&file), "{header}");
        assert!(matches!(Fixture::load(&file), Err(LoadError::Oversized)), "{header}");
    }
}

#[test]
fn large_numbers_elsewhere_are_no_data() {
    for (header, data) in [
        ("{\"a\":{\"shape\":[18446744073709551615,0],\"dtype\":\"F32\",\"data_offsets\":[0,0]}}".to_string(), 0),
        ("{\"a\":{\"shape\":[0,18446744073709551615],\"dtype\":\"F32\",\"data_offsets\":[0,0]}}".to_string(), 0),
        (format!("{{\"a\":{{\"extra\":18446744073709551615,{}}}", &record("[0,4]")[1..]), 4),
        (format!("{{\"a\":{{\"extra\":{FAR},{}}}", &record("[0,4]")[1..]), 4),
        (format!("{{\"a\":{{\"extra\":{{\"data_offsets\":{FAR}}},{}}}", &record("[0,4]")[1..]), 4),
        (format!("{{\"a\":{{\"extra\":[{FAR},{FAR},{FAR}],{}}}", &record("[0,4]")[1..]), 4),
        (format!("{{\"a\":{},\"a\":{}}}", record(FAR), record("[0,4]")), 4),
        (format!("{{\"\u{1F600}\\n\":{},\"\\ud83d\\uDE00\\u000a\":{},\"a\":{}}}",
            record(FAR), record("[4,8]"), record("[0,4]")), 8),
        ("{\"a\":[\"F32\",[1],[0,4]]}".to_string(), 4),
    ] {
        let file = framed(&header, &vec![0u8; data]);
        assert!(!archive::is_oversized(&file), "{header}");
        let fixture = match Fixture::load(&file) {
            Ok(fixture) => fixture,
            Err(error) => panic!("{header}: {error:?}"),
        };
        assert!(fixture.orphans().contains(&"a".to_string()), "{header}");
    }
}

#[test]
fn a_tensor_without_elements_may_have_any_shape() {
    let header = "{\"a\":{\"shape\":[18446744073709551615,0],\"dtype\":\"F32\",\"data_offsets\":[0,0]}}";
    assert_eq!(header.len(), 75);
    let file = framed(header, &[]);
    assert_eq!(file.len(), 83);
    let fixture = Fixture::load(&file).ok().unwrap();
    assert_eq!(fixture.orphans(), vec!["a".to_string()]);
}

#[test]
fn numbers_that_safetensors_rejects_itself() {
    for offsets in [
        "[0,18446744073709551615]",
        "[9223372036854775808,99999999999999999999]",
        "[9223372036854775808,18446744073709551615,0]",
        "[9223372036854775808]",
        "[1.5,18446744073709551615]",
    ] {
        let file = framed(&format!("{{\"a\":{}}}", record(offsets)), &[]);
        assert!(!archive::is_oversized(&file), "{offsets}");
        assert!(matches!(Fixture::load(&file), Err(LoadError::NotSafetensors(_))), "{offsets}");
    }
}

#[test]
fn headers_that_are_cut_short() {
    assert!(!archive::is_oversized(&[]));
    let mut short = framed(&format!("{{\"a\":{}}}", record(FAR)), &[]);
    assert!(archive::is_oversized(&short));
    short.pop();
    assert!(!archive::is_oversized(&short));
    assert!(matches!(Fixture::load(&short), Err(LoadError::NotSafetensors(_))));
}

#[test]
fn digits_in_names_are_no_numbers() {
    let header = "{\"a.\\\"99999999999999999999\":{\"dtype\":\"F32\",\"shape\":[1],\"data_offsets\":[0,4]}}";
    let file = framed(header, &1.5f32.to_le_bytes());
    assert!(!archive::is_oversized(&file));
    let fixture = Fixture::load(&file).ok().unwrap();
    assert_eq!(fixture.expect("a", "\"99999999999999999999").unwrap(), [1.5f32.to_bits()]);
}

#[test]
fn later_tensors_replace_earlier_ones() {
    let list = vec![
        tensor("a.b", "F32", floats(&[1.0])),
        tensor("a.b", "F32", floats(&[2.0, 3.0])),
        tensor("a.check.b", "I64", 5i64.to_le_bytes().to_vec()),
        tensor("a.check.b", "I64", 6i64.to_le_bytes().to_vec()),
    ];
    let fixture = Fixture::from_tensors(&list).ok().unwrap();
    assert_eq!(fixture.expect("a", "b").unwrap(), [2.0f32.to_bits(), 3.0f32.to_bits()]);
    assert_eq!(fixture.checksum("a", "b"), Some(6));
}

#[test]
fn the_first_fault_counts() {
    let list = vec![
        tensor("a", "F32", floats(&[1.0])),
        tensor("b", "I64", vec![0; 7]),
        tensor("c", "U8", vec![0; 8]),
    ];
    assert!(matches!(
        Fixture::from_tensors(&list),
        Err(TensorFault::ShortChecksum { name }) if name == "b"
    ));
}

#[test]
fn partial_words_are_dropped() {
    let fixture = Fixture::from_tensors(&vec![tensor("a.b", "F32", vec![0, 0, 128, 63, 9, 9])]).ok().unwrap();
    assert_eq!(fixture.expect("a", "b").unwrap(), [1.0f32.to_bits()]);
}

#[test]
fn expectations_of_no_test_are_orphans() {
    let list = vec![
        tensor("layernorm.expected", "F32", floats(&[1.0])),
        tensor("layernorms.expected", "F32", floats(&[1.0])),
        tensor("layernorm", "F32", floats(&[1.0])),
        tensor(".layernorm", "F32", floats(&[1.0])),
        tensor("stray.check.x", "I64", vec![0; 8]),
    ];
    let fixture = Fixture::from_tensors(&list).ok().unwrap();
    let mut orphans = fixture.orphans();
    orphans.sort();
    assert_eq!(orphans, vec![".layernorm".to_string(), "layernorms.expected".to_string()]);
}

#[test]
fn dotted_names() {
    assert_eq!(text::join("a", "b.c"), "a.b.c");
    assert_eq!(text::take_first_part("a.b.c"), "a");
    assert_eq!(text::take_first_part("abc"), "abc");
    assert_eq!(text::take_first_part(""), "");
    assert_eq!(text::take_first_part("\u{e9}t\u{e9}.x"), "\u{e9}t\u{e9}");
    assert_eq!(text::trim_prefix("expected.expected.q", "expected."), "q");
    assert_eq!(text::trim_prefix("expected", "expected."), "expected");
    assert_eq!(text::trim_prefix("q", ""), "q");
    assert!(text::same("x", "x") && !text::same("x", "xy"));
}

#[test]
fn the_fixture_is_looked_for_in_order() {
    let asked = Some("elsewhere".to_string());
    assert_eq!(location::fixture_path(asked, true, true), "elsewhere");
    assert_eq!(location::fixture_path(None, true, true), "ref/fixtures.safetensors");
    assert_eq!(location::fixture_path(None, false, true), "fixtures.safetensors");
    assert_eq!(location::fixture_path(None, false, false), "ref/fixtures.safetensors");
}
