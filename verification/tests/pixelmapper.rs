use fractals::pixelmapper::PixelMapper;
use fractals::utils::Complex;

fn bits(x: f32) -> u32 {
    x.to_bits()
}

fn num(b: u32) -> f32 {
    f32::from_bits(b)
}

fn complex(re: f32, im: f32) -> Complex {
    Complex { real: bits(re), imag: bits(im) }
}

fn parts(z: Complex) -> (f32, f32) {
    (num(z.real), num(z.imag))
}

fn close(a: f32, b: f32, tolerance: f32) -> bool {
    (a - b).abs() <= tolerance
}

#[test]
fn radx_sanity() {
    let pm = PixelMapper::new_radx(Complex::zero(), bits(2.0), bits(0.0), 4, 4);
    assert_eq!(pm.topleft, complex(-2.0, 2.0));
    assert_eq!(pm.x_px_dist, complex(1.0, 0.0));
    assert_eq!(pm.y_px_dist, complex(0.0, 1.0));
    assert_eq!(pm.map(0, 0), complex(-2.0, 2.0));
    assert_eq!(pm.map(2, 2), Complex::zero());

    let pm = PixelMapper::new_radx(Complex::zero(), bits(2.0), bits(std::f32::consts::PI * 1.5), 4, 4);
    assert_eq!(pm.topleft, complex(2.0, 2.0));
}

#[test]
fn unturned_view_matches_the_hardware_bit_for_bit() {
    for (cr, ci, radius, wi, hi) in [
        (-0.5_f32, 0.0_f32, 1.0_f32, 4_u32, 4_u32),
        (0.3, -0.7, 0.001, 1920, 1080),
        (-1.0, 0.25, 2.5, 17, 5),
        (0.0, 0.0, 1.0e-6, 640, 360),
    ] {
        let pm = PixelMapper::new_radx(complex(cr, ci), bits(radius), bits(0.0), wi, hi);
        let k = hi as f32 / wi as f32;
        let across = radius * k;
        // sin 0 = 0 and cos 0 = 1
        let r = (across * 1.0 - 0.0 * 0.0, across * 0.0 + 0.0 * 1.0);
        let s = (0.0 * 1.0 - radius * 0.0, 0.0 * 0.0 + radius * 1.0);
        assert_eq!(parts(pm.topleft), (cr + s.0 - r.0, ci + s.1 - r.1));
        assert_eq!(parts(pm.x_px_dist), (2.0 * (r.0 / wi as f32), 2.0 * (r.1 / wi as f32)));
        assert_eq!(parts(pm.y_px_dist), (2.0 * (s.0 / hi as f32), 2.0 * (s.1 / hi as f32)));
        for (x, y) in [(0_usize, 0_usize), (1, 0), (0, 1), (3, 2), (1000, 999), (16_777_217, usize::MAX)] {
            let tl = parts(pm.topleft);
            let dx = parts(pm.x_px_dist);
            let dy = parts(pm.y_px_dist);
            let off = (dx.0 * x as f32 - dy.0 * y as f32, dx.1 * x as f32 - dy.1 * y as f32);
            assert_eq!(parts(pm.map(x, y)), (tl.0 + off.0, tl.1 + off.1));
        }
    }
}

#[test]
fn radius_is_the_half_height_and_rows_run_downward() {
    let pm = PixelMapper::new_radx(complex(0.0, 0.0), bits(2.0), bits(0.0), 8, 4);
    // half-height 2, half-width 2 * 4 / 8 = 1
    assert_eq!(parts(pm.topleft), (-1.0, 2.0));
    assert_eq!(parts(pm.x_px_dist), (0.25, 0.0));
    assert_eq!(parts(pm.y_px_dist), (0.0, 1.0));
    assert_eq!(parts(pm.map(8, 4)), (1.0, -2.0));
    assert_eq!(parts(pm.map(0, 4)), (-1.0, -2.0));
    assert_eq!(parts(pm.map(8, 0)), (1.0, 2.0));
    assert_eq!(pm.map(4, 2), Complex::zero());
}

#[test]
fn origin_pixel_is_the_top_left_corner() {
    for (radius, wi, hi) in [(1.0_f32, 4_u32, 4_u32), (0.01, 640, 360), (3.0, 7, 13), (250.0, 1920, 1080)] {
        let pm = PixelMapper::new_radx(complex(-0.5, 0.125), bits(radius), bits(0.0), wi, hi);
        assert_eq!(pm.map(0, 0), pm.topleft);
        let expected_corner = (-0.5 - radius * (hi as f32 / wi as f32), 0.125 + radius);
        let corner = parts(pm.topleft);
        assert!(close(corner.0, expected_corner.0, radius * 1.0e-6));
        assert!(close(corner.1, expected_corner.1, radius * 1.0e-6));
    }
}

#[test]
fn middle_pixel_is_near_the_centre() {
    for (radius, wi, hi) in [(1.0_f32, 4_u32, 4_u32), (0.01, 640, 360), (3.0, 8, 12), (250.0, 1920, 1080)] {
        let pm = PixelMapper::new_radx(complex(-0.5, 0.125), bits(radius), bits(0.0), wi, hi);
        let (re, im) = parts(pm.map(wi as usize / 2, hi as usize / 2));
        assert!(close(re, -0.5, radius * 1.0e-5), "{re}");
        assert!(close(im, 0.125, radius * 1.0e-5), "{im}");
    }
}

#[test]
fn distance_from_the_centre_does_not_depend_on_the_angle() {
    let centre = complex(0.25, -0.75);
    let flat = PixelMapper::new_radx(centre, bits(1.5), bits(0.0), 64, 48);
    for angle in [0.3_f32, 1.0, 1.5707964, 2.5, 3.1415927, 4.0, -1.2, 6.0] {
        let turned = PixelMapper::new_radx(centre, bits(1.5), bits(angle), 64, 48);
        for (x, y) in [(0_usize, 0_usize), (63, 47), (10, 40), (32, 24), (50, 3)] {
            let a = flat.map(x, y).sub(centre).magnitude();
            let b = turned.map(x, y).sub(centre).magnitude();
            assert!(close(num(a), num(b), 1.0e-5), "{angle} {x} {y}: {} {}", num(a), num(b));
        }
    }
}

#[test]
fn quarter_turn_swaps_the_axes() {
    let pm = PixelMapper::new_radx(complex(0.0, 0.0), bits(1.0), bits(std::f32::consts::FRAC_PI_2), 4, 4);
    let (re, im) = parts(pm.x_px_dist);
    assert!(close(re, 0.0, 1.0e-6));
    assert!(close(im, 0.5, 1.0e-6));
    let (re, im) = parts(pm.y_px_dist);
    assert!(close(re, -0.5, 1.0e-6));
    assert!(close(im, 0.0, 1.0e-6));
}

#[test]
fn scale_divides_the_pixel_offsets() {
    let pm = PixelMapper::new_radx(complex(-0.5, 0.0), bits(1.0), bits(0.7), 40, 30);
    for k in [2.0_f32, 3.0, 0.5, 1.0 / 3.0, 7.25] {
        let scaled = pm.scale(bits(k));
        assert_eq!(scaled.topleft, pm.topleft);
        let (dx, dy) = (parts(pm.x_px_dist), parts(pm.y_px_dist));
        assert_eq!(parts(scaled.x_px_dist), (dx.0 / k, dx.1 / k));
        assert_eq!(parts(scaled.y_px_dist), (dy.0 / k, dy.1 / k));
    }
}

#[test]
fn scaled_offsets_from_the_corner_shrink_by_the_factor() {
    let pm = PixelMapper::new_radx(complex(-0.5, 0.0), bits(1.0), bits(0.7), 40, 30);
    for k in [2.0_f32, 3.0, 0.5, 4.0, 7.25] {
        let scaled = pm.scale(bits(k));
        for (x, y) in [(1_usize, 0_usize), (0, 1), (5, 9), (39, 29)] {
            let a = scaled.map(x, y).sub(pm.topleft);
            let b = pm.map(x, y).sub(pm.topleft).div(bits(k));
            assert!(close(num(a.real), num(b.real), 1.0e-6));
            assert!(close(num(a.imag), num(b.imag), 1.0e-6));
        }
    }
}

#[test]
fn scale_by_two_is_exact() {
    let pm = PixelMapper::new_radx(complex(0.0, 0.0), bits(2.0), bits(0.0), 4, 4);
    let fine = pm.scale(bits(2.0));
    assert_eq!(parts(fine.x_px_dist), (0.5, 0.0));
    assert_eq!(parts(fine.y_px_dist), (0.0, 0.5));
    assert_eq!(parts(fine.map(8, 8)), (2.0, -2.0));
    assert_eq!(fine.map(4, 4), Complex::zero());
}

#[test]
fn zero_width_gives_no_panic() {
    let pm = PixelMapper::new_radx(complex(0.0, 0.0), bits(1.0), bits(0.0), 0, 4);
    assert!(!num(pm.x_px_dist.real).is_finite());
    let pm = PixelMapper::new_radx(complex(0.0, 0.0), bits(0.0), bits(0.0), 4, 4);
    assert_eq!(pm.map(3, 3), Complex::zero());
    let pm = PixelMapper::new_radx(complex(0.0, 0.0), bits(1.0), bits(0.0), 4, 0);
    assert!(num(pm.y_px_dist.real).is_nan());
    assert!(num(pm.y_px_dist.imag).is_infinite());
}
