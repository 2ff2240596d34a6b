use stitchify::ratio::{clamped_round_u128, power_of_two, round_div_u128, scaled_up_to, Ratio};

#[test]
fn rounding_of_quotients() {
    assert_eq!(round_div_u128(7, 2), 4);
    assert_eq!(round_div_u128(6, 4), 2);
    assert_eq!(round_div_u128(5, 4), 1);
    assert_eq!(round_div_u128(0, 3), 0);
    assert_eq!(round_div_u128(1, 3), 0);
    assert_eq!(round_div_u128(2, 3), 1);

    assert_eq!(clamped_round_u128(7, 2, 10), 4);
    assert_eq!(clamped_round_u128(7, 2, 3), 3);
    assert_eq!(clamped_round_u128(1 << 100, 1, u32::MAX), u32::MAX);

    assert_eq!(scaled_up_to(3, Ratio::new(5, 2), 100), 8);
    assert_eq!(scaled_up_to(3, Ratio::new(5, 2), 7), 7);
    assert_eq!(scaled_up_to(u32::MAX, Ratio::from_int(u32::MAX), u32::MAX), u32::MAX);
}

fn value(ratio: Ratio) -> f64 {
    ratio.num as f64 / ratio.den as f64
}

#[test]
fn ratio_of_a_float() {
    for float in [22.0f32, 30.0, 1.0, 0.5, 2.54, 0.1, 29.527_56, 0.015, 123_456.79, 0.75] {
        let ratio = Ratio::from_f32_bits(float.to_bits()).unwrap();

        assert_eq!(value(ratio), float as f64);
        assert!(ratio.den.is_power_of_two());
        assert!(ratio.den == 1 || ratio.num % 2 == 1);
    }

    let ratio = Ratio::from_f32_bits(22.0f32.to_bits()).unwrap();
    assert_eq!((ratio.num, ratio.den), (22, 1));
    let ratio = Ratio::from_f32_bits(0.75f32.to_bits()).unwrap();
    assert_eq!((ratio.num, ratio.den), (3, 4));
    let ratio = Ratio::from_f32_bits(2_147_483_520f32.to_bits()).unwrap();
    assert_eq!((ratio.num, ratio.den), (0x7fff_ff80, 1));
    let ratio = Ratio::from_f32_bits((0.5f32.powi(31)).to_bits()).unwrap();
    assert_eq!((ratio.num, ratio.den), (1, 0x8000_0000));
}

#[test]
fn floats_without_a_ratio() {
    for float in [
        0.0f32,
        -0.0,
        -1.0,
        f32::INFINITY,
        f32::NEG_INFINITY,
        f32::NAN,
        f32::MIN_POSITIVE,
        f32::MIN_POSITIVE / 2.0,
        2_147_483_648.0,
        1.0e20,
        0.5f32.powi(33),
        0.5f32.powi(57),
        0.5f32.powi(60),
        1.0e-20,
    ] {
        assert!(Ratio::from_f32_bits(float.to_bits()).is_none(), "{}", float);
    }
}

#[test]
fn nearest_ratio_of_a_fine_float() {
    let two_31 = 2_147_483_648.0f64;

    for float in [0.001f32, 0.003, 1.0e-7, 3.0e-9, 0.000_123_456, 1.5 * 0.5f32.powi(31)] {
        let ratio = Ratio::from_f32_bits(float.to_bits()).unwrap();

        assert_eq!(ratio.den, 0x8000_0000);
        assert_eq!(ratio.num as f64, (float as f64 * two_31 + 0.5).floor());
    }

    // A half is rounded up
    let ratio = Ratio::from_f32_bits(0.5f32.powi(32).to_bits()).unwrap();
    assert_eq!((ratio.num, ratio.den), (1, 0x8000_0000));
    let ratio = Ratio::from_f32_bits((1.5 * 0.5f32.powi(31)).to_bits()).unwrap();
    assert_eq!((ratio.num, ratio.den), (2, 0x8000_0000));
    let ratio = Ratio::from_f32_bits((1.25 * 0.5f32.powi(31)).to_bits()).unwrap();
    assert_eq!((ratio.num, ratio.den), (1, 0x8000_0000));

    // The largest numerator of a rounded ratio
    let ratio = Ratio::from_f32_bits(0.003_906_249_8f32.to_bits()).unwrap();
    assert_eq!(ratio.den, 0x8000_0000);
    assert_eq!(ratio.num, 0x80_0000);
}

#[test]
fn powers_of_two() {
    assert_eq!(power_of_two(0), 1);
    assert_eq!(power_of_two(1), 2);
    assert_eq!(power_of_two(10), 1024);
    assert_eq!(power_of_two(31), 0x8000_0000);
}
