use gestalt::bytes::signed_word;
use gestalt::half::{f32_to_f16, pack_f16_pair};
use gestalt::ieee::{bits_of_single, round_to_single};

#[test]
fn small_integers_have_their_own_bits() {
    for v in [0i64, 1, -1, 2, 62, -62, 63, 16_777_216, -16_777_216] {
        assert_eq!(round_to_single(v), v);
        assert_eq!(bits_of_single(v), (v as f32).to_bits());
    }
}

#[test]
fn large_integers_round_as_casts_do() {
    for v in [
        16_777_217i64,
        16_777_219,
        -16_777_217,
        33_554_434,
        33_554_435,
        133_143_986_113,
        -133_143_986_113,
        1_125_899_906_842_623,
    ] {
        assert_eq!(round_to_single(v), (v as f32) as i64);
        assert_eq!(bits_of_single(round_to_single(v)), (v as f32).to_bits());
    }
}

#[test]
fn ties_go_to_even() {
    assert_eq!(round_to_single(16_777_217), 16_777_216);
    assert_eq!(round_to_single(16_777_219), 16_777_220);
}

#[test]
fn half_patterns() {
    assert_eq!(f32_to_f16(0.0f32.to_bits()), 0);
    assert_eq!(f32_to_f16((-0.0f32).to_bits()), 0x8000);
    assert_eq!(f32_to_f16(1.0f32.to_bits()), 0x3C00);
    assert_eq!(f32_to_f16(0.5f32.to_bits()), 0x3800);
    assert_eq!(f32_to_f16((-2.0f32).to_bits()), 0xC000);
    assert_eq!(f32_to_f16(0.1f32.to_bits()), 0x2E66);
    assert_eq!(f32_to_f16(65504.0f32.to_bits()), 0x7BFF);
}

#[test]
fn half_extremes() {
    assert_eq!(f32_to_f16(f32::INFINITY.to_bits()), 0x7C00);
    assert_eq!(f32_to_f16(f32::NEG_INFINITY.to_bits()), 0xFC00);
    assert_eq!(f32_to_f16(0x7FC0_0000), 0x7E00);
    // Past the range, and below the normal range.
    assert_eq!(f32_to_f16(65536.0f32.to_bits()), 0x7C00);
    assert_eq!(f32_to_f16(0x3880_0000), 0x0400);
    assert_eq!(f32_to_f16(0x387F_FFFF), 0);
}

#[test]
fn halves_truncate() {
    // 1 + 2^-11 + 2^-12 lies above the middle of two halves.
    assert_eq!(f32_to_f16((1.0f32 + 0.00048828125 + 0.000244140625).to_bits()), 0x3C00);
    assert_eq!(f32_to_f16(0x3F80_2000), 0x3C01);
}

#[test]
fn half_pairs_have_the_first_low() {
    assert_eq!(pack_f16_pair(1.0f32.to_bits(), 0.5f32.to_bits()), 0x3800_3C00);
}

#[test]
fn signed_words_wrap() {
    assert_eq!(signed_word(7), 7);
    assert_eq!(signed_word(-1), 0xFFFF_FFFF);
    assert_eq!(signed_word(i32::MIN), 0x8000_0000);
}
