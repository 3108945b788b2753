use fractal_renderer::scalar::Scalar;

fn s(x: f32) -> Scalar {
    Scalar::from_bits(x.to_bits())
}

fn samples() -> Vec<f32> {
    vec![
        0.0,
        -0.0,
        f32::MIN_POSITIVE,
        -f32::MIN_POSITIVE,
        f32::from_bits(1),
        f32::from_bits(0x8000_0001),
        f32::from_bits(0x007f_ffff),
        1.0e-4,
        0.3,
        0.4,
        0.5,
        -0.5,
        1.0,
        -1.0,
        1.5,
        2.0,
        2.5,
        3.0,
        100.0,
        -100.0,
        254.99,
        255.0,
        255.5,
        256.0,
        1.0e9,
        -1.0e9,
        f32::MAX,
        f32::MIN,
        f32::INFINITY,
        f32::NEG_INFINITY,
        f32::NAN,
        f32::from_bits(0xffc0_0000),
        f32::from_bits(0x7f80_0001),
    ]
}

#[test]
fn bits_round_trip() {
    for x in samples() {
        assert_eq!(s(x).to_bits(), x.to_bits());
    }
    assert_eq!(Scalar::from_bits(0x3f00_0000).to_bits(), 0.5f32.to_bits());
}

#[test]
fn nan_is_recognised() {
    for x in samples() {
        assert_eq!(s(x).nan(), x.is_nan(), "{x}");
    }
}

#[test]
fn lt_agrees_with_the_hardware() {
    for a in samples() {
        for b in samples() {
            assert_eq!(s(a).lt(s(b)), a < b, "{a} < {b}");
        }
    }
}

#[test]
fn le_agrees_with_the_hardware() {
    for a in samples() {
        for b in samples() {
            assert_eq!(s(a).le(s(b)), a <= b, "{a} <= {b}");
        }
    }
}

#[test]
fn zeros_are_equal_and_nan_is_unordered() {
    assert!(!s(0.0).lt(s(-0.0)));
    assert!(!s(-0.0).lt(s(0.0)));
    assert!(s(0.0).le(s(-0.0)));
    assert!(s(-0.0).le(s(0.0)));
    assert!(!s(f32::NAN).lt(s(1.0)));
    assert!(!s(1.0).lt(s(f32::NAN)));
    assert!(!s(f32::NAN).le(s(f32::NAN)));
}

#[test]
fn positive_means_greater_than_zero() {
    for x in samples() {
        assert_eq!(s(x).positive(), x > 0.0, "{x}");
    }
    assert!(s(1.0e-4).positive());
    assert!(!s(0.0).positive());
    assert!(!s(-1.0e-4).positive());
}

#[test]
fn to_byte_truncates_and_clamps() {
    assert_eq!(s(0.0).to_byte(), 0);
    assert_eq!(s(0.999).to_byte(), 0);
    assert_eq!(s(1.0).to_byte(), 1);
    assert_eq!(s(1.999).to_byte(), 1);
    assert_eq!(s(2.5).to_byte(), 2);
    assert_eq!(s(127.5).to_byte(), 127);
    assert_eq!(s(128.0).to_byte(), 128);
    assert_eq!(s(254.99).to_byte(), 254);
    assert_eq!(s(255.0).to_byte(), 255);
    assert_eq!(s(255.99).to_byte(), 255);
    assert_eq!(s(256.0).to_byte(), 255);
    assert_eq!(s(1.0e9).to_byte(), 255);
    assert_eq!(s(f32::INFINITY).to_byte(), 255);
    assert_eq!(s(-0.5).to_byte(), 0);
    assert_eq!(s(-1.0).to_byte(), 0);
    assert_eq!(s(-300.0).to_byte(), 0);
    assert_eq!(s(f32::NEG_INFINITY).to_byte(), 0);
    assert_eq!(s(f32::NAN).to_byte(), 0);
    assert_eq!(s(f32::from_bits(1)).to_byte(), 0);
}

#[test]
fn to_byte_agrees_with_the_saturating_cast() {
    for x in samples() {
        assert_eq!(s(x).to_byte(), x as u8, "{x}");
    }
    let mut bits: u32 = 0;
    loop {
        let x = f32::from_bits(bits);
        assert_eq!(Scalar::from_bits(bits).to_byte(), x as u8, "{bits:#x}");
        match bits.checked_add(0x0000_9e37) {
            Some(next) => bits = next,
            None => break,
        }
    }
    for whole in 0u32..=300 {
        for quarter in 0u32..4 {
            let x = whole as f32 + quarter as f32 * 0.25;
            assert_eq!(s(x).to_byte(), x as u8, "{x}");
        }
    }
}
