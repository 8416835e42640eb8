//! The affine map from pixel indices to points of the complex plane.
use vstd::prelude::*;
use crate::float::{
    float_add, float_sub, float_mul, float_div, float_from_u64,
    sum, difference, product, quotient, from_integer, ZERO, TWO,
};
use crate::utils::{Complex, rotate_vector, rotated};

verus! {

/// A view of the plane laid over a pixel grid. Rows grow downward while the
/// imaginary axis grows upward, so a step in `y` subtracts `y_px_dist`.
#[derive(Debug, Copy, Clone)]
pub struct PixelMapper {
    /// The point at pixel (0, 0).
    pub topleft: Complex,
    /// The offset of one pixel in the x direction.
    pub x_px_dist: Complex,
    /// The offset of one pixel in the y direction, before it is subtracted.
    pub y_px_dist: Complex,
}

impl PixelMapper {
    /// `topleft + (x * x_px_dist - y * y_px_dist)`.
    pub open spec fn spec_map(&self, x: nat, y: nat) -> Complex {
        self.topleft.spec_add(
            self.x_px_dist.spec_mul(from_integer(x as u64)).spec_sub(
                self.y_px_dist.spec_mul(from_integer(y as u64)),
            ),
        )
    }

    /// The mapper of the view with the given centre over `wi` by `hi` pixels.
    /// The view reaches `radius` up and down from the centre and
    /// `radius * hi / wi` to the left and the right, and both half-extents are
    /// turned by `angle`. The corner is the centre plus the vertical minus
    /// the horizontal half-extent, and a pixel is a `wi`-th of the whole
    /// width across and an `hi`-th of the whole height down.
    pub open spec fn spec_new_radx(
        centre: Complex,
        radius: u32,
        angle: u32,
        wi: u32,
        hi: u32,
    ) -> PixelMapper {
        let w = from_integer(wi as u64);
        let h = from_integer(hi as u64);
        let r = rotated(product(radius, quotient(h, w)), ZERO, angle);
        let s = rotated(ZERO, radius, angle);
        PixelMapper {
            topleft: Complex {
                real: difference(sum(centre.real, s.0), r.0),
                imag: difference(sum(centre.imag, s.1), r.1),
            },
            x_px_dist: Complex {
                real: product(TWO, quotient(r.0, w)),
                imag: product(TWO, quotient(r.1, w)),
            },
            y_px_dist: Complex {
                real: product(TWO, quotient(s.0, h)),
                imag: product(TWO, quotient(s.1, h)),
            },
        }
    }

    /// The same top-left corner, with both pixel offsets divided by `scale`.
    pub open spec fn spec_scale(&self, scale: u32) -> PixelMapper {
        PixelMapper {
            topleft: self.topleft,
            x_px_dist: self.x_px_dist.spec_div(scale),
            y_px_dist: self.y_px_dist.spec_div(scale),
        }
    }

    /// The point of the plane at pixel `(x, y)`.
    pub fn map(&self, x: usize, y: usize) -> (r: Complex)
        ensures
            r == self.spec_map(x as nat, y as nat),
    {
        let fx = float_from_u64(x as u64);
        let fy = float_from_u64(y as u64);
        let offset = self.x_px_dist.mul(fx).sub(self.y_px_dist.mul(fy));
        self.topleft.add(offset)
    }

    /// Builds the mapper of a view. Nothing is rejected: a zero width or
    /// height divides by zero, which gives infinities or NaNs in the result.
    pub fn new_radx(centre: Complex, radius: u32, angle: u32, wi: u32, hi: u32) -> (r: Self)
        ensures
            r == Self::spec_new_radx(centre, radius, angle, wi, hi),
    {
        let w = float_from_u64(wi as u64);
        let h = float_from_u64(hi as u64);

        let k = float_div(h, w);
        let across = float_mul(radius, k);

        let r = rotate_vector(across, ZERO, angle);
        let s = rotate_vector(ZERO, radius, angle);

        let dx = float_sub(float_add(centre.real, s.0), r.0);
        let dy = float_sub(float_add(centre.imag, s.1), r.1);
        let topleft = Complex { real: dx, imag: dy };

        let xr = float_mul(TWO, float_div(r.0, w));
        let xi = float_mul(TWO, float_div(r.1, w));
        let x_px_dist = Complex { real: xr, imag: xi };
        let yr = float_mul(TWO, float_div(s.0, h));
        let yi = float_mul(TWO, float_div(s.1, h));
        let y_px_dist = Complex { real: yr, imag: yi };

        Self { topleft, x_px_dist, y_px_dist }
    }

    /// A mapper over the same view with `scale` times as many pixels in each
    /// direction: above 1 it samples more finely, below 1 more coarsely.
    pub fn scale(&self, scale: u32) -> (r: Self)
        ensures
            r == self.spec_scale(scale),
    {
        Self {
            topleft: self.topleft,
            x_px_dist: self.x_px_dist.div(scale),
            y_px_dist: self.y_px_dist.div(scale),
        }
    }
}

} // verus!
