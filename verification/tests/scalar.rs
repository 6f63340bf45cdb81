use lsystem::scalar::{
    Point, Scalar, EIGHTH_TURN, EIGHTH_TURN_BACK, FIFTH, FIVE, FOUR_FIFTHS, HALF,
    INFINITY_MAGNITUDE, ONE, QUARTER_TURN, SEVEN_TENTHS, SIGN_BIT, TEN, TENTH, THREE_FIFTHS,
    THREE_TENTHS,
};

fn num(value: f32) -> Scalar {
    Scalar { bits: value.to_bits() }
}

fn samples() -> Vec<f32> {
    vec![
        0.0,
        -0.0,
        1.0,
        -1.0,
        0.1,
        -0.1,
        3.5,
        10.0,
        -10.0,
        f32::MIN_POSITIVE,
        -f32::MIN_POSITIVE,
        f32::from_bits(1),
        f32::from_bits(0x8000_0001),
        f32::from_bits(0x007f_ffff),
        f32::MAX,
        f32::MIN,
        f32::INFINITY,
        f32::NEG_INFINITY,
        f32::NAN,
        f32::from_bits(0xffc0_0000),
        f32::from_bits(0x7f80_0001),
        f32::from_bits(0xff80_0001),
        f32::from_bits(0x7fff_ffff),
    ]
}

#[test]
fn less_than_agrees_with_the_hardware_on_every_pair() {
    for a in samples() {
        for b in samples() {
            assert_eq!(num(a).less_than(num(b)), a < b, "{:?} < {:?}", a, b);
        }
    }
}

#[test]
fn less_than_agrees_with_the_hardware_on_a_sweep_of_patterns() {
    let mut a: u32 = 0;
    for _ in 0..400 {
        let mut b: u32 = 0x1234_5678;
        for _ in 0..400 {
            let expected = f32::from_bits(a) < f32::from_bits(b);
            assert_eq!(Scalar { bits: a }.less_than(Scalar { bits: b }), expected);
            b = b.wrapping_mul(1_664_525).wrapping_add(1_013_904_223);
        }
        a = a.wrapping_add(0x00a3_d70b);
    }
}

#[test]
fn zeros_of_either_sign_are_not_below_each_other() {
    assert!(!num(0.0).less_than(num(-0.0)));
    assert!(!num(-0.0).less_than(num(0.0)));
    assert!(num(-0.0).less_than(num(f32::from_bits(1))));
    assert!(num(f32::from_bits(0x8000_0001)).less_than(num(0.0)));
}

#[test]
fn nothing_is_below_or_above_a_nan() {
    for a in samples() {
        assert!(!num(a).less_than(num(f32::NAN)));
        assert!(!num(f32::NAN).less_than(num(a)));
    }
}

#[test]
fn nan_is_told_from_numbers() {
    for a in samples() {
        assert_eq!(num(a).nan(), a.is_nan(), "{:?}", a);
    }
    assert!(!Scalar { bits: INFINITY_MAGNITUDE }.nan());
    assert!(Scalar { bits: INFINITY_MAGNITUDE + 1 }.nan());
    assert!(!Scalar { bits: SIGN_BIT | INFINITY_MAGNITUDE }.nan());
}

#[test]
fn bits_go_in_and_come_out() {
    assert_eq!(Scalar::from_bits(0x4120_0000), num(10.0));
    assert_eq!(num(10.0).to_bits(), 0x4120_0000);
    assert_eq!(Scalar::from_bits(0xdead_beef).to_bits(), 0xdead_beef);
}

#[test]
fn named_numbers_are_the_numbers_they_name() {
    assert_eq!(TENTH, 0.1f32.to_bits());
    assert_eq!(FIFTH, 0.2f32.to_bits());
    assert_eq!(THREE_TENTHS, 0.3f32.to_bits());
    assert_eq!(HALF, 0.5f32.to_bits());
    assert_eq!(THREE_FIFTHS, 0.6f32.to_bits());
    assert_eq!(SEVEN_TENTHS, 0.7f32.to_bits());
    assert_eq!(FOUR_FIFTHS, 0.8f32.to_bits());
    assert_eq!(ONE, 1.0f32.to_bits());
    assert_eq!(FIVE, 5.0f32.to_bits());
    assert_eq!(TEN, 10.0f32.to_bits());
}

#[test]
fn named_angles_are_fractions_of_pi() {
    assert_eq!(QUARTER_TURN, (std::f32::consts::PI * 0.5).to_bits());
    assert_eq!(EIGHTH_TURN, (std::f32::consts::PI * 0.25).to_bits());
    assert_eq!(EIGHTH_TURN_BACK, (std::f32::consts::PI * -0.25).to_bits());
    assert_eq!(QUARTER_TURN, std::f32::consts::FRAC_PI_2.to_bits());
}

#[test]
fn points_compare_by_their_bits() {
    let a = Point { x: num(0.0), y: num(1.0) };
    let b = Point { x: num(-0.0), y: num(1.0) };
    assert_ne!(a, b);
    assert_eq!(a, Point { x: num(0.0), y: num(1.0) });
}
