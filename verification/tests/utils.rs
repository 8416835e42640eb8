use fractals::utils::{
    average_colour, float_fuzzy_eq, h_palette, lerp, lerp_colour, lerp_u8, pack_colour,
    rotate_vector, Complex, Rgb,
};

fn bits(x: f32) -> u32 {
    x.to_bits()
}

fn num(b: u32) -> f32 {
    f32::from_bits(b)
}

fn complex(re: f32, im: f32) -> Complex {
    Complex { real: bits(re), imag: bits(im) }
}

fn same(a: f32, b: f32) -> bool {
    a.to_bits() == b.to_bits() || (a.is_nan() && b.is_nan())
}

fn sweep() -> Vec<f32> {
    let mut v = vec![
        0.0,
        -0.0,
        1.0,
        -1.0,
        0.1,
        -0.3,
        2.5,
        1.0e-39,
        -3.0e-41,
        1.0e-20,
        7.0e19,
        -2.0e38,
        3.0e38,
        f32::MAX,
        f32::MIN_POSITIVE,
        f32::INFINITY,
        f32::NEG_INFINITY,
        f32::NAN,
    ];
    let mut x = 1.0e-6_f32;
    while x < 1.0e6 {
        v.push(x);
        v.push(-x * 1.3);
        x *= 3.1;
    }
    v
}

#[test]
fn complex_sum_and_difference_match_the_hardware() {
    for a in sweep() {
        for b in sweep() {
            let z = complex(a, b);
            let w = complex(b, a);
            let s = z.add(w);
            assert!(same(num(s.real), a + b), "{a} + {b}");
            assert!(same(num(s.imag), b + a), "{b} + {a}");
            let d = z.sub(w);
            assert!(same(num(d.real), a - b), "{a} - {b}");
            assert!(same(num(d.imag), b - a), "{b} - {a}");
        }
    }
}

#[test]
fn complex_scaling_matches_the_hardware() {
    for a in sweep() {
        for b in sweep() {
            let z = complex(a, b);
            let m = z.mul(bits(b));
            assert!(same(num(m.real), a * b), "{a} * {b}");
            assert!(same(num(m.imag), b * b), "{b} * {b}");
            let q = z.div(bits(b));
            assert!(same(num(q.real), a / b), "{a} / {b}");
            let q = z.div(bits(a));
            assert!(same(num(q.imag), b / a), "{b} / {a}");
        }
    }
}

#[test]
fn complex_square_matches_the_hardware() {
    for a in sweep() {
        for b in sweep() {
            let z = complex(a, b).square();
            assert!(same(num(z.real), a * a - b * b), "{a} {b}");
            assert!(same(num(z.imag), a * b * 2.0), "{a} {b}");
        }
    }
}

#[test]
fn complex_square_exact_value() {
    let z = complex(3.0, 4.0).square();
    assert_eq!(num(z.real), -7.0);
    assert_eq!(num(z.imag), 24.0);
}

#[test]
fn complex_magnitude_matches_the_hardware() {
    for a in sweep() {
        for b in sweep() {
            let z = complex(a, b);
            assert!(same(num(z.magnitude_squared()), a * a + b * b), "{a} {b}");
            assert!(same(num(z.magnitude()), (a * a + b * b).sqrt()), "{a} {b}");
        }
    }
}

#[test]
fn complex_magnitude_exact_value() {
    let z = complex(3.0, -4.0);
    assert_eq!(num(z.magnitude_squared()), 25.0);
    assert_eq!(num(z.magnitude()), 5.0);
}

#[test]
fn complex_zero_is_the_origin() {
    let z = Complex::zero();
    assert_eq!(z.real, 0);
    assert_eq!(z.imag, 0);
}

#[test]
fn fuzzy_eq_is_false_for_opposite_signs() {
    assert!(!float_fuzzy_eq(bits(0.0), bits(-0.0)));
    assert!(!float_fuzzy_eq(bits(1.0e-45), bits(-1.0e-45)));
    assert!(!float_fuzzy_eq(bits(1.0), bits(-1.0)));
    assert!(!float_fuzzy_eq(bits(-3.0e38), bits(3.0e38)));
}

#[test]
fn fuzzy_eq_is_true_for_equal_values() {
    for x in sweep() {
        assert!(float_fuzzy_eq(bits(x), bits(x)), "{x}");
    }
}

#[test]
fn fuzzy_eq_holds_up_to_three_steps() {
    for x in [1.0_f32, -1.0, 0.1, 1.0e-40, 123456.0, -7.5e20] {
        let b = bits(x);
        assert!(float_fuzzy_eq(b, b + 1));
        assert!(float_fuzzy_eq(b, b + 2));
        assert!(float_fuzzy_eq(b, b + 3));
        assert!(float_fuzzy_eq(b + 3, b));
        assert!(!float_fuzzy_eq(b, b + 4));
        assert!(!float_fuzzy_eq(b + 4, b));
        assert!(!float_fuzzy_eq(b, b + 1000));
    }
}

#[test]
fn complex_fuzzy_eq_needs_both_parts() {
    let z = complex(1.0, 2.0);
    let near = Complex { real: z.real + 3, imag: z.imag + 1 };
    let far_real = Complex { real: z.real + 4, imag: z.imag };
    let far_imag = Complex { real: z.real, imag: z.imag + 4 };
    assert!(z.fuzzy_eq(z));
    assert!(z.fuzzy_eq(near));
    assert!(!z.fuzzy_eq(far_real));
    assert!(!z.fuzzy_eq(far_imag));
}

#[test]
fn rotation_matches_the_hardware_closely() {
    let mut angle = -7.0_f32;
    while angle < 7.0 {
        let (x, y) = rotate_vector(bits(2.0), bits(0.5), bits(angle));
        let ex = 2.0 * angle.cos() - 0.5 * angle.sin();
        let ey = 2.0 * angle.sin() + 0.5 * angle.cos();
        assert!((num(x) - ex).abs() < 1.0e-6, "{angle}: {} {ex}", num(x));
        assert!((num(y) - ey).abs() < 1.0e-6, "{angle}: {} {ey}", num(y));
        angle += 0.137;
    }
}

#[test]
fn rotation_by_zero_keeps_the_vector() {
    let (x, y) = rotate_vector(bits(2.0), bits(0.0), bits(0.0));
    assert_eq!(num(x), 2.0);
    assert_eq!(num(y), 0.0);
    let (x, y) = rotate_vector(bits(0.0), bits(3.0), bits(0.0));
    assert_eq!(num(x), 0.0);
    assert_eq!(num(y), 3.0);
}

#[test]
fn rotation_returns_for_huge_and_odd_angles() {
    for angle in [1.0e9_f32, -1.0e20, 3.0e38, f32::MAX, f32::INFINITY, f32::NAN, 1.0e-42, 4.2e8] {
        let (x, y) = rotate_vector(bits(1.0), bits(0.0), bits(angle));
        if angle.is_finite() {
            let len = num(x) * num(x) + num(y) * num(y);
            assert!((len - 1.0).abs() < 1.0e-5, "{angle}: {len}");
        } else {
            assert!(num(x).is_nan() && num(y).is_nan());
        }
    }
}

#[test]
fn lerp_matches_the_hardware() {
    for t in [0.0_f32, 0.25, 0.5, 0.333, 1.0, 1.5, -0.5] {
        for (a, b) in [(0.0_f32, 1.0_f32), (4.0, 255.0), (130.0, 255.0), (-3.0, 7.5)] {
            let got = num(lerp(bits(t), bits(a), bits(b)));
            assert!(same(got, a * (1.0 - t) + b * t), "{t} {a} {b}");
        }
    }
}

#[test]
fn lerp_exact_values() {
    assert_eq!(num(lerp(bits(0.0), bits(4.0), bits(255.0))), 4.0);
    assert_eq!(num(lerp(bits(1.0), bits(4.0), bits(255.0))), 255.0);
    assert_eq!(num(lerp(bits(0.5), bits(4.0), bits(255.0))), 129.5);
}

#[test]
fn lerp_u8_truncates() {
    assert_eq!(lerp_u8(bits(0.0), 4, 255), 4);
    assert_eq!(lerp_u8(bits(1.0), 4, 255), 255);
    assert_eq!(lerp_u8(bits(0.5), 4, 255), 129);
    assert_eq!(lerp_u8(bits(0.25), 130, 255), 161);
    assert_eq!(lerp_u8(bits(2.0), 4, 255), 255);
    assert_eq!(lerp_u8(bits(-1.0), 4, 255), 0);
    for t in [0.0_f32, 0.1, 0.2, 0.7, 0.99, 1.0] {
        for (a, b) in [(4_u8, 255_u8), (130, 255), (0, 0), (200, 10)] {
            let expected = (a as f32 * (1.0 - t) + b as f32 * t) as u8;
            assert_eq!(lerp_u8(bits(t), a, b), expected, "{t} {a} {b}");
        }
    }
}

#[test]
fn lerp_colour_works_channel_by_channel() {
    let a = Rgb { r: 4, g: 4, b: 130 };
    let b = Rgb { r: 255, g: 255, b: 255 };
    assert_eq!(lerp_colour(bits(0.0), a, b), a);
    assert_eq!(lerp_colour(bits(1.0), a, b), b);
    assert_eq!(lerp_colour(bits(0.5), a, b), Rgb { r: 129, g: 129, b: 192 });
}

#[test]
fn palette_is_black_without_a_fraction() {
    assert_eq!(h_palette(None), Rgb { r: 0, g: 0, b: 0 });
}

#[test]
fn palette_squares_the_fraction() {
    assert_eq!(h_palette(Some(bits(0.0))), Rgb { r: 4, g: 4, b: 130 });
    assert_eq!(h_palette(Some(bits(1.0))), Rgb { r: 255, g: 255, b: 255 });
    // 0.5 squared is 0.25: 4 * 0.75 + 255 * 0.25 = 66.75, 130 * 0.75 + 255 * 0.25 = 161.25
    assert_eq!(h_palette(Some(bits(0.5))), Rgb { r: 66, g: 66, b: 161 });
}

#[test]
fn average_of_one_colour_is_that_colour() {
    let c = Rgb { r: 9, g: 200, b: 31 };
    assert_eq!(average_colour(&[c]), c);
    assert_eq!(average_colour(&vec![c; 4]), c);
    assert_eq!(average_colour(&vec![c; 1000]), c);
}

#[test]
fn average_truncates_each_channel() {
    let block = [
        Rgb { r: 0, g: 1, b: 255 },
        Rgb { r: 1, g: 2, b: 255 },
        Rgb { r: 0, g: 4, b: 254 },
        Rgb { r: 2, g: 0, b: 255 },
    ];
    assert_eq!(average_colour(&block), Rgb { r: 0, g: 1, b: 254 });
}

#[test]
fn average_of_many_white_pixels_is_white() {
    let block = vec![Rgb { r: 255, g: 255, b: 255 }; 70_000];
    assert_eq!(average_colour(&block), Rgb { r: 255, g: 255, b: 255 });
}

#[test]
fn packing_puts_red_highest() {
    assert_eq!(pack_colour(Rgb { r: 0x12, g: 0x34, b: 0x56 }), 0x0012_3456);
    assert_eq!(pack_colour(Rgb { r: 255, g: 255, b: 255 }), 0x00ff_ffff);
    assert_eq!(pack_colour(Rgb { r: 0, g: 0, b: 0 }), 0);
    let c = Rgb { r: 4, g: 4, b: 130 };
    assert_eq!(pack_colour(c), u32::from_be_bytes([0, 4, 4, 130]));
}

#[test]
fn sine_and_cosine_of_every_magnitude() {
    let mut b: u32 = 0;
    loop {
        let angle = num(b);
        let (x, y) = rotate_vector(bits(1.0), bits(0.0), b);
        if angle.is_finite() {
            assert!((num(x) - angle.cos()).abs() < 1.0e-6, "{b:#x}: {} {}", num(x), angle.cos());
            assert!((num(y) - angle.sin()).abs() < 1.0e-6, "{b:#x}: {} {}", num(y), angle.sin());
        } else {
            assert!(num(x).is_nan() && num(y).is_nan(), "{b:#x}");
        }
        match b.checked_add(0x0007_1337) {
            Some(next) => b = next,
            None => break,
        }
    }
}

#[test]
fn square_root_of_every_magnitude() {
    let mut b: u32 = 0;
    loop {
        let x = num(b);
        // the squared magnitude of (x, 0) is x * x, and for x = 1 the root of b
        let z = Complex { real: b, imag: 0 };
        let expected = (x * x + 0.0 * 0.0).sqrt();
        assert!(same(num(z.magnitude()), expected), "{b:#x}");
        match b.checked_add(0x0005_1337) {
            Some(next) => b = next,
            None => break,
        }
    }
}
