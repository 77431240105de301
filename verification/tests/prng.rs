use kernel_fixtures::{bytes, prng};

fn unit(w: u64) -> f32 {
    ((w >> 40) as u32) as f32 / 16_777_216.0
}

fn uniform(name: &str, index: usize, lo: f32, hi: f32) -> f32 {
    lo + (hi - lo) * unit(prng::word(prng::name_hash(name), index))
}

fn words(data: &[u8]) -> Vec<u32> {
    data.chunks_exact(4)
        .map(|b| u32::from_le_bytes([b[0], b[1], b[2], b[3]]))
        .collect()
}

fn halves(data: &[u8]) -> Vec<u16> {
    data.chunks_exact(2).map(|b| u16::from_le_bytes([b[0], b[1]])).collect()
}

#[test]
fn names_hash_by_fnv1a() {
    assert_eq!(prng::name_hash(""), 0xCBF2_9CE4_8422_2325);
    assert_eq!(prng::name_hash("a"), 0xAF63_DC4C_8601_EC8C);
    assert_eq!(prng::name_hash("embed_token.row"), 0xCCDA_E112_8199_14B6);
    assert_eq!(prng::name_hash("\u{e9}"), 0x0AC2_1707_B718_1E01);
}

#[test]
fn words_of_a_stream() {
    let seed = prng::name_hash("embed_token.row");
    assert_eq!(prng::word(seed, 0), 0x5DEF_DDA9_C481_ABA2);
    assert_eq!(prng::word(seed, 1), 0x672D_C648_4B68_8F7F);
    assert_eq!(prng::word(seed, 2), 0xFD26_B815_3458_7C36);
}

#[test]
fn words_of_a_stream_differ() {
    let seed = prng::name_hash("t.w");
    let mut seen: Vec<u64> = (0..4096).map(|i| prng::word(seed, i)).collect();
    seen.sort();
    seen.dedup();
    assert_eq!(seen.len(), 4096);
}

#[test]
fn unit_fractions_are_exact() {
    assert_eq!(prng::u01(0), 0);
    assert_eq!(prng::u01(u64::MAX), (16_777_215.0f32 / 16_777_216.0).to_bits());
    assert_eq!(prng::u01(1 << 63), 0.5f32.to_bits());
    assert_eq!(prng::u01(0xFF_FFFF_FFFF), 0);
    for i in 0..2000 {
        let w = prng::word(7, i);
        assert_eq!(prng::u01(w), unit(w).to_bits());
    }
}

#[test]
fn bf16_rounds_to_nearest_even() {
    assert_eq!(prng::f32_to_bf16_bits(1.0f32.to_bits()), 0x3F80);
    assert_eq!(prng::f32_to_bf16_bits(0x3F80_8000), 0x3F80);
    assert_eq!(prng::f32_to_bf16_bits(0x3F81_8000), 0x3F82);
    assert_eq!(prng::f32_to_bf16_bits(0x3F80_8001), 0x3F81);
    assert_eq!(prng::f32_to_bf16_bits(0x3F80_7FFF), 0x3F80);
    assert_eq!(prng::f32_to_bf16_bits(0x7F7F_FFFF), 0x7F80);
    assert_eq!(prng::f32_to_bf16_bits(0xFFFF_FFFF), 0);
}

#[test]
fn bf16_ties_go_to_even() {
    for low in (0..0x7F7Fu32).step_by(97) {
        for sign in [0u32, 0x8000_0000] {
            let tie = sign + (low << 16) + 0x8000;
            let below = ((sign >> 16) + low) as u16;
            let rounded = prng::f32_to_bf16_bits(tie);
            assert_eq!(rounded % 2, 0);
            let other = if rounded == below { below + 1 } else { below };
            let value = |bits: u32| f64::from(f32::from_bits(bits));
            let gap = |bits: u16| (value(tie) - value((bits as u32) << 16)).abs();
            assert_eq!(gap(rounded), gap(other));
        }
    }
}

#[test]
fn bf16_survives_widening() {
    for bits in 0..=u16::MAX {
        let wide = prng::bf16_bits_to_f32(bits);
        assert_eq!(wide, (bits as u32) << 16);
        assert_eq!(prng::f32_to_bf16_bits(wide), bits);
    }
}

#[test]
fn uniform_tensors_match_hardware_arithmetic() {
    for (lo, hi) in [(0.0f32, 1e-3f32), (0.0, 1.0), (-0.5, 0.5), (0.75, 1.25), (2.0, 4.0)] {
        let exact = words(&prng::f32_uniform("t.w", 500, lo.to_bits(), hi.to_bits()));
        let short = halves(&prng::bf16_uniform("t.w", 500, lo.to_bits(), hi.to_bits()));
        for i in 0..500 {
            let value = uniform("t.w", i, lo, hi).to_bits();
            assert_eq!(exact[i], value);
            assert_eq!(short[i], prng::f32_to_bf16_bits(value));
        }
    }
}

#[test]
fn uniform_elements_lie_in_their_span() {
    for (lo, hi) in [(0.0f32, 1e-3f32), (0.0, 1.0), (-0.5, 0.5), (0.75, 1.25), (2.0, 4.0)] {
        let name = "span";
        for word in words(&prng::f32_uniform(name, 2000, lo.to_bits(), hi.to_bits())) {
            assert!((lo..=hi).contains(&f32::from_bits(word)));
        }
        let bound = |v: f32| f32::from_bits(prng::bf16_bits_to_f32(prng::f32_to_bf16_bits(v.to_bits())));
        for short in halves(&prng::bf16_uniform(name, 2000, lo.to_bits(), hi.to_bits())) {
            assert!((bound(lo)..=bound(hi)).contains(&f32::from_bits(prng::bf16_bits_to_f32(short))));
        }
    }
}

#[test]
fn uniform_tensor_values() {
    let out = prng::f32_uniform("t.w", 4, 0, 1e-3f32.to_bits());
    assert_eq!(words(&out), vec![0x3A57_E146, 0x3A29_BBEA, 0x39AB_2E77, 0x39EA_7B59]);
    let out = prng::bf16_uniform("t.w", 4, (-0.5f32).to_bits(), 0.5f32.to_bits());
    assert_eq!(halves(&out), vec![0x3EA6, 0x3E17, 0xBE32, 0xBD58]);
    assert_eq!(prng::bf16_uniform("t.w", 0, 0, 1), Vec::<u8>::new());
}

#[test]
fn a_range_is_a_slice_of_the_whole() {
    let whole = prng::bf16_uniform("t.w", 64, 0, 1.0f32.to_bits());
    let part = prng::bf16_uniform_range("t.w", 10, 20, 0, 1.0f32.to_bits());
    assert_eq!(part, whole[20..60].to_vec());
    let front = prng::bf16_uniform_range("t.w", 0, 10, 0, 1.0f32.to_bits());
    let back = prng::bf16_uniform_range("t.w", 30, 34, 0, 1.0f32.to_bits());
    assert_eq!([front, part, back].concat(), whole);
}

#[test]
fn longer_tensors_extend_shorter_ones() {
    assert!(prng::bf16_signs("t.w", 40, 0x3F80_0000).starts_with(&prng::bf16_signs("t.w", 7, 0x3F80_0000)));
    assert!(prng::f8_banded("t.w", 40, 7, 14, true).starts_with(&prng::f8_banded("t.w", 7, 7, 14, true)));
    assert!(prng::f4_nibbles("t.w", 40).starts_with(&prng::f4_nibbles("t.w", 6)));
}

#[test]
fn signs_have_one_magnitude() {
    let out = prng::bf16_signs("t.w", 6, 0.0625f32.to_bits());
    assert_eq!(halves(&out), vec![0xBD80, 0xBD80, 0x3D80, 0x3D80, 0xBD80, 0xBD80]);
    assert_eq!(prng::bf16_signs("t.w", 6, (-0.0625f32).to_bits()), out);
}

#[test]
fn f8_elements_keep_to_their_band() {
    assert_eq!(prng::f8_banded("t.w", 8, 7, 14, true), vec![202, 205, 67, 66, 222, 190, 97, 212]);
    assert_eq!(prng::f8_banded("t.w", 8, 8, 10, false), vec![66, 77, 83, 74, 86, 86, 73, 84]);
    for b in prng::f8_banded("band", 1000, 3, 5, true) {
        let exponent = (b >> 3) & 0xF;
        assert!((3..=5).contains(&exponent));
    }
}

#[test]
fn f4_elements_are_packed_in_order() {
    let out = prng::f4_nibbles("t.w", 8);
    assert_eq!(out, vec![173, 117, 222, 198]);
    let seed = prng::name_hash("t.w");
    for i in 0..8usize {
        let nibble = (out[i / 2] >> (4 * (i % 2))) & 0xF;
        assert_eq!(nibble as u64, prng::word(seed, i) >> 60);
    }
}

#[test]
fn checksum_values() {
    let data: Vec<u8> = (1..=10).collect();
    assert_eq!(prng::checksum(&data, 0), 0x1C18_463D);
    assert_eq!(prng::checksum(&data, 5), 0x947C_FAD3);
    assert_eq!(prng::checksum(&[], 9), 0);
    assert_eq!(prng::checksum(&[7], 0), 7);
}

#[test]
fn checksum_of_blocks_is_the_sum() {
    let data: Vec<u8> = (0..=254).collect();
    let whole = prng::checksum(&data, 3);
    let parts = prng::checksum(&data[..128], 3).wrapping_add(prng::checksum(&data[128..], 3 + 32));
    assert_eq!(whole, parts);
}

#[test]
fn checksum_detects_a_changed_word() {
    let data: Vec<u8> = (0..64).collect();
    let sum = prng::checksum(&data, 0);
    for at in 0..64usize {
        let mut changed = data.clone();
        changed[at] ^= 0x80;
        assert_ne!(prng::checksum(&changed, 0), sum);
    }
}

#[test]
fn little_endian_bytes_read_back() {
    let mut out = Vec::new();
    bytes::push_u16(&mut out, 0x1234);
    bytes::push_u32(&mut out, 0x89AB_CDEF);
    assert_eq!(out, vec![0x34, 0x12, 0xEF, 0xCD, 0xAB, 0x89]);
    assert_eq!(bytes::get_u16(&out, 0), 0x1234);
    assert_eq!(bytes::get_u32(&out, 2), 0x89AB_CDEF);
    assert_eq!(bytes::get_u32(&out, 4), 0x89AB);
    assert_eq!(bytes::get_u16(&out, 6), 0);
    assert_eq!(bytes::concat_u32(&[1, 0x0200_0000]), vec![1, 0, 0, 0, 0, 0, 0, 2]);
}
