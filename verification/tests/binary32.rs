use kernel_fixtures::{binary32, prng};

fn samples() -> Vec<u32> {
    let mut all = vec![
        0, 1, 2, 0x7F_FFFF, 0x80_0000, 0x80_0001, 0xFF_FFFF, 0x3F80_0000, 0x3F80_0001, 0x3F00_0000,
        0x4000_0000, 0x4B80_0000, 0x4B80_0001, 0x7F7F_FFFF, 0x7F00_0000, 0x7F80_0000, 0x7FC0_0000,
        0x3A83_126F, 0x2B8C_BCCC, 0x42C8_0000, 0x3400_0000, 0x337F_FFFF, 0x3380_0000,
    ];
    let negatives: Vec<u32> = all.iter().map(|b| b | 0x8000_0000).collect();
    all.extend(negatives);
    all.extend((0..60).map(|i| prng::word(11, i) as u32));
    all.extend((0..60).map(|i| 0x3E00_0000 + (prng::word(12, i) as u32 & 0x8FF_FFFF)));
    all
}

fn agree(ours: u32, theirs: f32) -> bool {
    if theirs.is_nan() {
        f32::from_bits(ours).is_nan()
    } else {
        ours == theirs.to_bits()
    }
}

#[test]
fn sums_match_hardware() {
    for a in samples() {
        for b in samples() {
            let (x, y) = (f32::from_bits(a), f32::from_bits(b));
            assert!(agree(binary32::sum(a, b), x + y), "{x} + {y}");
            assert!(agree(binary32::difference(a, b), x - y), "{x} - {y}");
        }
    }
}

#[test]
fn products_match_hardware() {
    for a in samples() {
        for b in samples() {
            let (x, y) = (f32::from_bits(a), f32::from_bits(b));
            assert!(agree(binary32::multiply(a, b), x * y), "{x} * {y}");
        }
    }
}

#[test]
fn quotients_match_hardware() {
    for a in samples() {
        for b in samples() {
            let (x, y) = (f32::from_bits(a), f32::from_bits(b));
            assert!(agree(binary32::divide(a, b), x / y), "{x} / {y}");
        }
    }
}

#[test]
fn order_matches_hardware() {
    for a in samples() {
        for b in samples() {
            let (x, y) = (f32::from_bits(a), f32::from_bits(b));
            assert_eq!(binary32::lt(a, b), x < y);
            assert_eq!(binary32::le(a, b), x <= y);
        }
    }
}

#[test]
fn signs_and_classes_match_hardware() {
    for a in samples() {
        let x = f32::from_bits(a);
        assert_eq!(binary32::abs(a), x.abs().to_bits());
        assert_eq!(binary32::neg(a), (-x).to_bits());
        assert_eq!(binary32::is_finite(a), x.is_finite());
        assert_eq!(binary32::is_nan(a), x.is_nan());
    }
}

#[test]
fn rounding_is_to_nearest_even() {
    let one = 1.0f32.to_bits();
    let half_step = 0x3380_0000;
    assert_eq!(binary32::sum(one, half_step), one);
    assert_eq!(binary32::sum(one + 1, half_step), one + 2);
    assert_eq!(binary32::sum(0x7F7F_FFFF, 0x7F7F_FFFF), 0x7F80_0000);
    assert_eq!(binary32::divide(1, 0x4000_0000), 0);
    assert_eq!(binary32::divide(3, 0x4000_0000), 2);
}

#[test]
fn fractions_of_two_to_the_24() {
    for k in [0u64, 1, 2, 3, 0x80_0000, 0xFF_FFFF, 12_345_678] {
        assert_eq!(binary32::from_fraction(k), (k as f32 / 16_777_216.0).to_bits());
    }
}
