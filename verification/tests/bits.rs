//! Numbers as bits: every answer must be the one the numbers themselves give.

use gpui_zgui::bits::at_least_zero;
use gpui_zgui::bits::below_one;
use gpui_zgui::bits::equal;
use gpui_zgui::bits::negate;
use gpui_zgui::bits::normalize;
use gpui_zgui::bits::zero;
use gpui_zgui::fraction::is_past_share;
use gpui_zgui::fraction::round_to_significand;
use gpui_zgui::text::to_decimal;

const NUMBERS: [f32; 16] = [
    0.0,
    -0.0,
    1.0,
    -1.0,
    0.5,
    0.99999994,
    1.0000001,
    -7.25,
    1.0e-45,
    -1.0e-45,
    3.4e38,
    -3.4e38,
    f32::INFINITY,
    f32::NEG_INFINITY,
    f32::NAN,
    -f32::NAN,
];

#[test]
fn the_questions_agree_with_the_numbers() {
    for number in NUMBERS {
        let bits = number.to_bits();
        assert_eq!(zero(bits), number == 0.0, "{number}");
        assert_eq!(below_one(bits), number < 1.0, "{number}");
        assert_eq!(at_least_zero(bits), number >= 0.0, "{number}");
        assert_eq!(negate(bits), (-number).to_bits(), "{number}");
        for other in NUMBERS {
            assert_eq!(equal(bits, other.to_bits()), number == other, "{number} and {other}");
        }
    }
}

#[test]
fn the_two_zeros_become_one() {
    assert_eq!(normalize((-0.0f32).to_bits()), 0);
    assert_eq!(normalize(0.0f32.to_bits()), 0);
    assert_eq!(normalize(2.5f32.to_bits()), 2.5f32.to_bits());
}

#[test]
fn rounding_agrees_with_the_numbers() {
    for n in [
        0u128,
        1,
        16_777_215,
        16_777_216,
        16_777_217,
        16_777_218,
        16_777_219,
        33_554_434,
        33_554_435,
        33_554_437,
        8_294_400,
        4_294_967_295,
        18_446_744_073_709_551_615,
    ] {
        assert_eq!(round_to_significand(n), n as f32 as u128, "{n}");
    }
    assert_eq!(round_to_significand(16_777_217), 16_777_216);
    assert_eq!(round_to_significand(16_777_219), 16_777_220);
}

#[test]
fn the_share_agrees_with_the_numbers() {
    for total in [1u128, 3, 10, 100, 4096, 640_000, 8_294_400, 33_177_600, 132_710_400] {
        for permille in [0u128, 500, 690, 699, 700, 701, 710, 1000] {
            for off in [-1i128, 0, 1] {
                let damaged = (total * permille / 1000) as i128 + off;
                if damaged < 0 {
                    continue;
                }
                let damaged = damaged as u128;
                let expected = damaged as f32 > total as f32 * 0.7;
                assert_eq!(is_past_share(damaged, total), expected, "{damaged} of {total}");
            }
        }
    }
    assert!(!is_past_share(70, 100));
    assert!(is_past_share(71, 100));
}

#[test]
fn numbers_are_written_in_decimal() {
    for n in [0u64, 7, 10, 99, 100, 1234567890, u64::MAX] {
        assert_eq!(to_decimal(n), n.to_string());
    }
}
