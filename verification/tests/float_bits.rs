use fractals::float::{
    float_abs, float_eq, float_gt, float_is_nan, float_is_sign_positive, float_le, float_to_u32,
    float_to_u8,
};

fn bits(x: f32) -> u32 {
    x.to_bits()
}

fn samples() -> Vec<f32> {
    let mut v = vec![
        0.0,
        -0.0,
        1.0,
        -1.0,
        0.5,
        -0.5,
        0.999_999_94,
        1.000_000_1,
        2.0,
        4.0,
        4.000_000_5,
        3.999_999_8,
        254.999_98,
        255.0,
        255.5,
        256.0,
        1.0e-40,
        -1.0e-40,
        1.0e10,
        -1.0e10,
        16_777_216.0,
        4_294_967_040.0,
        4_294_967_296.0,
        3.0e38,
        f32::MAX,
        f32::MIN,
        f32::MIN_POSITIVE,
        f32::INFINITY,
        f32::NEG_INFINITY,
        f32::NAN,
    ];
    v.push(f32::from_bits(0xffc0_0000));
    v.push(f32::from_bits(0x7f80_0001));
    let mut x = 0.001_f32;
    while x < 1.0e9 {
        v.push(x);
        v.push(-x);
        x *= 1.7;
    }
    v
}

#[test]
fn sign_and_nan_tests_agree_with_the_hardware() {
    for x in samples() {
        assert_eq!(float_is_sign_positive(bits(x)), x.is_sign_positive(), "{x}");
        assert_eq!(float_is_nan(bits(x)), x.is_nan(), "{x}");
        assert_eq!(float_abs(bits(x)), x.abs().to_bits(), "{x}");
    }
}

#[test]
fn comparisons_agree_with_the_hardware() {
    for a in samples() {
        for b in samples() {
            assert_eq!(float_le(bits(a), bits(b)), a <= b, "{a} <= {b}");
            assert_eq!(float_gt(bits(a), bits(b)), a > b, "{a} > {b}");
            assert_eq!(float_eq(bits(a), bits(b)), a == b, "{a} == {b}");
        }
    }
}

#[test]
fn zeros_of_either_sign_compare_equal() {
    assert!(float_le(bits(0.0), bits(-0.0)));
    assert!(float_le(bits(-0.0), bits(0.0)));
    assert!(!float_gt(bits(0.0), bits(-0.0)));
}

#[test]
fn nan_compares_false_both_ways() {
    assert!(!float_le(bits(f32::NAN), bits(1.0)));
    assert!(!float_gt(bits(f32::NAN), bits(1.0)));
    assert!(!float_le(bits(1.0), bits(f32::NAN)));
    assert!(!float_gt(bits(1.0), bits(f32::NAN)));
}

#[test]
fn truncation_agrees_with_the_hardware() {
    for x in samples() {
        assert_eq!(float_to_u32(bits(x)), x as u32, "{x}");
        assert_eq!(float_to_u8(bits(x)), x as u8, "{x}");
    }
}

#[test]
fn truncation_exact_values() {
    assert_eq!(float_to_u8(bits(0.0)), 0);
    assert_eq!(float_to_u8(bits(0.99)), 0);
    assert_eq!(float_to_u8(bits(1.0)), 1);
    assert_eq!(float_to_u8(bits(129.7)), 129);
    assert_eq!(float_to_u8(bits(255.0)), 255);
    assert_eq!(float_to_u8(bits(1000.0)), 255);
    assert_eq!(float_to_u8(bits(-3.0)), 0);
    assert_eq!(float_to_u8(bits(f32::NAN)), 0);
    assert_eq!(float_to_u32(bits(16_777_217.0)), 16_777_216);
    assert_eq!(float_to_u32(bits(4_294_967_040.0)), 4_294_967_040);
    assert_eq!(float_to_u32(bits(5.0e9)), u32::MAX);
    assert_eq!(float_to_u32(bits(f32::INFINITY)), u32::MAX);
    assert_eq!(float_to_u32(bits(-1.0)), 0);
}

#[test]
fn truncation_of_every_exponent() {
    let mut b: u32 = 0;
    loop {
        let x = f32::from_bits(b);
        assert_eq!(float_to_u32(b), x as u32, "{b:#x}");
        assert_eq!(float_to_u8(b), x as u8, "{b:#x}");
        match b.checked_add(0x0003_1337) {
            Some(next) => b = next,
            None => break,
        }
    }
}
