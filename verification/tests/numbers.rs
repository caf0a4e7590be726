use text_to_svg::decimal::{push_integer, push_natural};
use text_to_svg::scalar::{push_fixed, Scalar};

fn natural(n: u128) -> String {
    let mut text = String::new();
    push_natural(&mut text, n);
    text
}

fn integer(n: i64) -> String {
    let mut text = String::new();
    push_integer(&mut text, n);
    text
}

fn fixed(negative: bool, magnitude: u128) -> String {
    let mut text = String::new();
    push_fixed(&mut text, negative, magnitude);
    text
}

#[test]
fn naturals_have_no_leading_zero() {
    assert_eq!(natural(0), "0");
    assert_eq!(natural(7), "7");
    assert_eq!(natural(10), "10");
    assert_eq!(natural(1005), "1005");
    assert_eq!(natural(65535), "65535");
}

#[test]
fn naturals_agree_with_the_standard_library() {
    for n in [0u128, 9, 10, 99, 100, 12345678901234567890, u64::MAX as u128, u128::MAX] {
        assert_eq!(natural(n), n.to_string());
    }
}

#[test]
fn natural_is_appended_to_what_is_there() {
    let mut text = String::from("line_");
    push_natural(&mut text, 42);
    assert_eq!(text, "line_42");
}

#[test]
fn integers_carry_their_sign() {
    assert_eq!(integer(0), "0");
    assert_eq!(integer(-1), "-1");
    assert_eq!(integer(656), "656");
    assert_eq!(integer(-65535), "-65535");
    assert_eq!(integer(i64::MIN), i64::MIN.to_string());
    assert_eq!(integer(i64::MAX), i64::MAX.to_string());
}

#[test]
fn whole_numbers_have_no_point() {
    assert_eq!(fixed(false, 0), "0");
    assert_eq!(fixed(false, 65536), "1");
    assert_eq!(fixed(false, 20 * 65536), "20");
    assert_eq!(fixed(true, 3 * 65536), "-3");
}

#[test]
fn zero_keeps_its_sign() {
    assert_eq!(fixed(true, 0), "-0");
}

#[test]
fn fractions_are_written_in_full() {
    assert_eq!(fixed(false, 32768), "0.5");
    assert_eq!(fixed(false, 12 * 65536 + 32768), "12.5");
    assert_eq!(fixed(true, 7 * 65536 + 16384), "-7.25");
    assert_eq!(fixed(false, 65536 + 49152), "1.75");
    assert_eq!(fixed(false, 8192), "0.125");
    assert_eq!(fixed(false, 1), "0.0000152587890625");
    assert_eq!(fixed(false, 65535), "0.9999847412109375");
    assert_eq!(fixed(false, 6554), "0.100006103515625");
}

#[test]
fn fractions_agree_with_binary_floating_point() {
    for magnitude in [1u128, 3, 1024, 32768, 65535, 65537, 98304, 1234567, 4294967295] {
        let exact = magnitude as f64 / 65536.0;
        assert_eq!(fixed(false, magnitude).parse::<f64>().unwrap(), exact);
    }
}

#[test]
fn half_units_are_written_as_single_precision_writes_them() {
    for halves in 0u32..400 {
        let value = halves as f32 / 2.0;
        assert_eq!(fixed(false, halves as u128 * 32768), format!("{}", value));
        assert_eq!(fixed(true, halves as u128 * 32768), format!("{}", -value));
    }
}

#[test]
fn the_widest_magnitude_is_written() {
    assert_eq!(fixed(false, u64::MAX as u128), "281474976710655.9999847412109375");
    assert_eq!(
        fixed(false, u128::MAX),
        format!("{}.9999847412109375", u128::MAX / 65536)
    );
}

#[test]
fn scalars_are_built_from_units() {
    assert_eq!(Scalar::from_units(0), Scalar { negative: false, magnitude: 0 });
    assert_eq!(Scalar::from_units(5), Scalar { negative: false, magnitude: 5 * 65536 });
    assert_eq!(Scalar::from_units(-5), Scalar { negative: true, magnitude: 5 * 65536 });
    assert_eq!(
        Scalar::from_units(i32::MIN),
        Scalar { negative: true, magnitude: 2147483648 * 65536 }
    );
}

#[test]
fn scalars_are_built_from_parts() {
    assert_eq!(Scalar::from_parts(false, 2, 32768), Scalar { negative: false, magnitude: 163840 });
    assert_eq!(Scalar::from_parts(true, 0, 0), Scalar { negative: true, magnitude: 0 });
    assert_eq!(
        Scalar::from_parts(false, u32::MAX, u16::MAX),
        Scalar { negative: false, magnitude: 281474976710655 }
    );
}

#[test]
fn flipping_changes_the_sign_only() {
    let up = Scalar::from_parts(false, 3, 7);
    assert_eq!(up.flipped(), Scalar { negative: true, magnitude: 3 * 65536 + 7 });
    assert_eq!(up.flipped().flipped(), up);
    assert_eq!(Scalar::from_units(0).flipped(), Scalar { negative: true, magnitude: 0 });
}

fn decoded(value: f32) -> Scalar {
    Scalar::from_bits(value.to_bits())
}

fn nearest(value: f32) -> Scalar {
    Scalar {
        negative: value.is_sign_negative(),
        magnitude: (value.abs() as f64 * 65536.0).round() as u64,
    }
}

#[test]
fn whole_numbers_are_decoded_exactly() {
    assert_eq!(decoded(0.0), Scalar { negative: false, magnitude: 0 });
    assert_eq!(decoded(1.0), Scalar { negative: false, magnitude: 65536 });
    assert_eq!(decoded(-1.0), Scalar { negative: true, magnitude: 65536 });
    assert_eq!(decoded(656.0), Scalar::from_units(656));
    assert_eq!(decoded(-32768.0), Scalar::from_units(-32768));
    assert_eq!(decoded(16777216.0), Scalar::from_units(16777216));
}

#[test]
fn negative_zero_is_decoded_as_negative() {
    assert_eq!(decoded(-0.0), Scalar { negative: true, magnitude: 0 });
    assert_eq!(Scalar::from_bits(0x8000_0000), Scalar { negative: true, magnitude: 0 });
}

#[test]
fn fractions_are_decoded_exactly() {
    assert_eq!(decoded(0.5), Scalar::from_parts(false, 0, 32768));
    assert_eq!(decoded(7.5), Scalar::from_parts(false, 7, 32768));
    assert_eq!(decoded(-10.25), Scalar::from_parts(true, 10, 16384));
    assert_eq!(decoded(1.0 / 65536.0), Scalar::from_parts(false, 0, 1));
    assert_eq!(decoded(255.99998), Scalar::from_parts(false, 255, 65535));
}

#[test]
fn finer_fractions_are_rounded_to_the_nearest_step() {
    assert_eq!(decoded(0.1), Scalar::from_parts(false, 0, 6554));
    assert_eq!(decoded(103.33334), Scalar::from_parts(false, 103, 21846));
    assert_eq!(decoded(1.0 / 131072.0), Scalar::from_parts(false, 0, 1));
    assert_eq!(decoded(-1.0 / 131072.0), Scalar::from_parts(true, 0, 1));
    assert_eq!(decoded(3.0 / 131072.0), Scalar::from_parts(false, 0, 2));
    assert_eq!(decoded(0.9 / 131072.0), Scalar::from_parts(false, 0, 0));
    assert_eq!(decoded(1.0 / 262144.0), Scalar::from_parts(false, 0, 0));
    assert_eq!(decoded(f32::MIN_POSITIVE), Scalar { negative: false, magnitude: 0 });
    assert_eq!(Scalar::from_bits(1), Scalar { negative: false, magnitude: 0 });
    assert_eq!(Scalar::from_bits(0x807F_FFFF), Scalar { negative: true, magnitude: 0 });
}

#[test]
fn numbers_beyond_the_farthest_coordinate_become_the_farthest() {
    let below = f32::from_bits(0x577F_FFFF);
    assert_eq!(below, 281474959933440.0);
    assert_eq!(decoded(below), Scalar { negative: false, magnitude: 0xFFFF_FF00_0000_0000 });
    let limit = f32::from_bits(0x5780_0000);
    assert_eq!(limit, 281474976710656.0);
    assert_eq!(decoded(limit), Scalar { negative: false, magnitude: u64::MAX });
    assert_eq!(decoded(f32::MAX), Scalar { negative: false, magnitude: u64::MAX });
    assert_eq!(decoded(f32::MIN), Scalar { negative: true, magnitude: u64::MAX });
    assert_eq!(decoded(f32::INFINITY), Scalar { negative: false, magnitude: u64::MAX });
    assert_eq!(decoded(f32::NEG_INFINITY), Scalar { negative: true, magnitude: u64::MAX });
}

#[test]
fn what_is_no_number_becomes_zero() {
    assert_eq!(Scalar::from_bits(0x7FC0_0000), Scalar { negative: false, magnitude: 0 });
    assert_eq!(Scalar::from_bits(0xFFC0_0000), Scalar { negative: true, magnitude: 0 });
    assert_eq!(Scalar::from_bits(0x7F80_0001), Scalar { negative: false, magnitude: 0 });
}

#[test]
fn decoding_agrees_with_rounding_in_double_precision() {
    let mut bits: u32 = 0;
    loop {
        let value = f32::from_bits(bits);
        if !value.is_nan() {
            assert_eq!(Scalar::from_bits(bits), nearest(value), "{:#x}", bits);
        }
        match bits.checked_add(65521) {
            Some(next) => bits = next,
            None => break,
        }
    }
}

#[test]
fn decoding_agrees_with_rounding_at_every_exponent() {
    for exponent in 0u32..255 {
        for fraction in [0u32, 1, 2, 0x3F_FFFF, 0x40_0000, 0x40_0001, 0x7F_FFFE, 0x7F_FFFF] {
            for sign in [0u32, 0x8000_0000] {
                let bits = sign | exponent << 23 | fraction;
                assert_eq!(Scalar::from_bits(bits), nearest(f32::from_bits(bits)), "{:#x}", bits);
            }
        }
    }
}

#[test]
fn decoded_halves_are_written_as_single_precision_writes_them() {
    for halves in -300i32..300 {
        let value = halves as f32 / 2.0;
        let scalar = decoded(value);
        assert_eq!(fixed(scalar.negative, scalar.magnitude as u128), format!("{}", value));
    }
}
