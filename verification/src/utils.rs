//! Complex numbers, fuzzy equality, and colours.
use vstd::prelude::*;
use vstd::std_specs::cmp::PartialEqSpecImpl;
use crate::float::{
    float_abs, float_add, float_cos, float_div, float_eq, float_from_u64, float_is_sign_positive,
    float_mul, float_sin, float_sqrt, float_sub, float_to_u8,
    cosine, difference, eq, from_integer, magnitude, product, quotient, sign_positive, sine,
    square_root, sum, truncation_u8, ONE, TWO,
};

verus! {

/// A point of the complex plane. Both parts are single-precision numbers,
/// held as their bit patterns.
#[derive(Clone, Copy, Debug)]
pub struct Complex {
    pub real: u32,
    pub imag: u32,
}

/// Two complex numbers are equal if their parts are equal as numbers: a NaN
/// equals nothing, and the two zeros equal each other.
impl PartialEq for Complex {
    fn eq(&self, other: &Complex) -> (r: bool) {
        float_eq(self.real, other.real) && float_eq(self.imag, other.imag)
    }
}

impl PartialEqSpecImpl for Complex {
    open spec fn obeys_eq_spec() -> bool {
        true
    }

    open spec fn eq_spec(&self, other: &Complex) -> bool {
        eq(self.real, other.real) && eq(self.imag, other.imag)
    }
}

/// Two numbers are within three representable steps of each other and carry
/// the same sign.
pub open spec fn fuzzy_eq(lhs: u32, rhs: u32) -> bool {
    &&& sign_positive(lhs) == sign_positive(rhs)
    &&& magnitude(lhs) - magnitude(rhs) <= 3
    &&& magnitude(rhs) - magnitude(lhs) <= 3
}

/// Tests fuzzy equality on the bit patterns: the signs must agree, and the
/// magnitudes may differ by at most three steps.
pub fn float_fuzzy_eq(lhs: u32, rhs: u32) -> (r: bool)
    ensures
        r == fuzzy_eq(lhs, rhs),
{
    if float_is_sign_positive(lhs) != float_is_sign_positive(rhs) {
        false
    } else {
        let lhs_i = float_abs(lhs);
        let rhs_i = float_abs(rhs);
        let ulps = if lhs_i < rhs_i {
            rhs_i - lhs_i
        } else {
            lhs_i - rhs_i
        };
        ulps <= 3
    }
}

/// Numbers of opposite sign are never fuzzily equal, however small.
pub proof fn lemma_fuzzy_eq_needs_equal_signs(lhs: u32, rhs: u32)
    requires
        sign_positive(lhs) != sign_positive(rhs),
    ensures
        !fuzzy_eq(lhs, rhs),
{
}

/// Every number is fuzzily equal to itself.
pub proof fn lemma_fuzzy_eq_reflexive(a: u32)
    ensures
        fuzzy_eq(a, a),
{
}

/// Fuzzy equality does not depend on the order of its operands.
pub proof fn lemma_fuzzy_eq_symmetric(lhs: u32, rhs: u32)
    ensures
        fuzzy_eq(lhs, rhs) == fuzzy_eq(rhs, lhs),
{
}

/// Two numbers of one sign that lie `steps` representable values apart are
/// fuzzily equal exactly if `steps` is at most 3.
pub proof fn lemma_fuzzy_eq_counts_steps(lhs: u32, rhs: u32, steps: nat)
    requires
        sign_positive(lhs) == sign_positive(rhs),
        magnitude(rhs) == magnitude(lhs) + steps,
    ensures
        fuzzy_eq(lhs, rhs) <==> steps <= 3,
{
}

impl Complex {
    /// The origin of the plane.
    pub fn zero() -> (r: Complex)
        ensures
            r == (Complex { real: 0, imag: 0 }),
    {
        Complex { real: 0, imag: 0 }
    }

    pub open spec fn spec_square(self) -> Complex {
        Complex {
            real: difference(product(self.real, self.real), product(self.imag, self.imag)),
            imag: product(product(self.real, self.imag), TWO),
        }
    }

    pub open spec fn spec_magnitude_squared(self) -> u32 {
        sum(product(self.real, self.real), product(self.imag, self.imag))
    }

    pub open spec fn spec_magnitude(self) -> u32 {
        square_root(self.spec_magnitude_squared())
    }

    pub open spec fn spec_fuzzy_eq(self, other: Complex) -> bool {
        fuzzy_eq(self.real, other.real) && fuzzy_eq(self.imag, other.imag)
    }

    pub open spec fn spec_add(self, rhs: Complex) -> Complex {
        Complex { real: sum(self.real, rhs.real), imag: sum(self.imag, rhs.imag) }
    }

    pub open spec fn spec_sub(self, rhs: Complex) -> Complex {
        Complex { real: difference(self.real, rhs.real), imag: difference(self.imag, rhs.imag) }
    }

    pub open spec fn spec_mul(self, rhs: u32) -> Complex {
        Complex { real: product(self.real, rhs), imag: product(self.imag, rhs) }
    }

    pub open spec fn spec_div(self, rhs: u32) -> Complex {
        Complex { real: quotient(self.real, rhs), imag: quotient(self.imag, rhs) }
    }

    pub fn square(self) -> (r: Complex)
        ensures
            r == self.spec_square(),
    {
        let re = float_sub(float_mul(self.real, self.real), float_mul(self.imag, self.imag));
        let im = float_mul(float_mul(self.real, self.imag), TWO);
        Complex { real: re, imag: im }
    }

    pub fn magnitude(self) -> (r: u32)
        ensures
            r == self.spec_magnitude(),
    {
        float_sqrt(self.magnitude_squared())
    }

    pub fn magnitude_squared(self) -> (r: u32)
        ensures
            r == self.spec_magnitude_squared(),
    {
        float_add(float_mul(self.real, self.real), float_mul(self.imag, self.imag))
    }

    pub fn fuzzy_eq(self, other: Self) -> (r: bool)
        ensures
            r == self.spec_fuzzy_eq(other),
    {
        float_fuzzy_eq(self.real, other.real) && float_fuzzy_eq(self.imag, other.imag)
    }

    pub fn add(self, rhs: Self) -> (r: Complex)
        ensures
            r == self.spec_add(rhs),
    {
        Complex { real: float_add(self.real, rhs.real), imag: float_add(self.imag, rhs.imag) }
    }

    pub fn sub(self, rhs: Self) -> (r: Complex)
        ensures
            r == self.spec_sub(rhs),
    {
        Complex { real: float_sub(self.real, rhs.real), imag: float_sub(self.imag, rhs.imag) }
    }

    /// Scales both parts by a real factor.
    pub fn mul(self, rhs: u32) -> (r: Complex)
        ensures
            r == self.spec_mul(rhs),
    {
        Complex { real: float_mul(self.real, rhs), imag: float_mul(self.imag, rhs) }
    }

    /// Divides both parts by a real divisor.
    pub fn div(self, rhs: u32) -> (r: Complex)
        ensures
            r == self.spec_div(rhs),
    {
        Complex { real: float_div(self.real, rhs), imag: float_div(self.imag, rhs) }
    }
}

/// The vector `(x1, y1)` turned by `angle` radians, counter-clockwise.
pub open spec fn rotated(x1: u32, y1: u32, angle: u32) -> (u32, u32) {
    (
        difference(product(x1, cosine(angle)), product(y1, sine(angle))),
        sum(product(x1, sine(angle)), product(y1, cosine(angle))),
    )
}

pub fn rotate_vector(x1: u32, y1: u32, angle: u32) -> (r: (u32, u32))
    ensures
        r == rotated(x1, y1, angle),
{
    let sinth = float_sin(angle);
    let costh = float_cos(angle);
    let x2 = float_sub(float_mul(x1, costh), float_mul(y1, sinth));
    let y2 = float_add(float_mul(x1, sinth), float_mul(y1, costh));
    (x2, y2)
}

/// A colour of three 8-bit channels.
#[derive(Clone, Copy, Debug, PartialEq, Eq)]
pub struct Rgb {
    pub r: u8,
    pub g: u8,
    pub b: u8,
}

/// The colour of points that are taken to be bounded.
pub open spec fn black() -> Rgb {
    Rgb { r: 0, g: 0, b: 0 }
}

/// The colour at the low end of the gradient.
pub open spec fn dark_blue() -> Rgb {
    Rgb { r: 4, g: 4, b: 130 }
}

/// The colour at the high end of the gradient.
pub open spec fn white() -> Rgb {
    Rgb { r: 255, g: 255, b: 255 }
}

/// `a * (1 - t) + b * t`.
pub open spec fn lerped(t: u32, a: u32, b: u32) -> u32 {
    sum(product(a, difference(ONE, t)), product(b, t))
}

/// The interpolation between two channel values, truncated to 8 bits.
pub open spec fn lerped_u8(t: u32, a: u8, b: u8) -> u8 {
    truncation_u8(lerped(t, from_integer(a as u64), from_integer(b as u64))) as u8
}

/// The interpolation between two colours, channel by channel.
pub open spec fn lerped_colour(t: u32, a: Rgb, b: Rgb) -> Rgb {
    Rgb { r: lerped_u8(t, a.r, b.r), g: lerped_u8(t, a.g, b.g), b: lerped_u8(t, a.b, b.b) }
}

/// The colour of a cell: black without a fraction, otherwise the gradient
/// from dark blue to white at the square of the fraction.
pub open spec fn palette(cic: Option<u32>) -> Rgb {
    match cic {
        Some(f) => lerped_colour(product(f, f), dark_blue(), white()),
        None => black(),
    }
}

pub fn h_palette(cic: Option<u32>) -> (r: Rgb)
    ensures
        r == palette(cic),
{
    match cic {
        Some(f) => lerp_colour(
            float_mul(f, f),
            Rgb { r: 4, g: 4, b: 130 },
            Rgb { r: 255, g: 255, b: 255 },
        ),
        None => Rgb { r: 0, g: 0, b: 0 },
    }
}

pub fn lerp(t: u32, a: u32, b: u32) -> (r: u32)
    ensures
        r == lerped(t, a, b),
{
    float_add(float_mul(a, float_sub(ONE, t)), float_mul(b, t))
}

pub fn lerp_u8(t: u32, a: u8, b: u8) -> (r: u8)
    ensures
        r == lerped_u8(t, a, b),
{
    let a = float_from_u64(a as u64);
    let b = float_from_u64(b as u64);
    float_to_u8(lerp(t, a, b))
}

pub fn lerp_colour(t: u32, a: Rgb, b: Rgb) -> (r: Rgb)
    ensures
        r == lerped_colour(t, a, b),
{
    let r = lerp_u8(t, a.r, b.r);
    let g = lerp_u8(t, a.g, b.g);
    let b = lerp_u8(t, a.b, b.b);
    Rgb { r, g, b }
}

/// The sum of the red channels of the first `n` colours.
pub open spec fn red_sum(s: Seq<Rgb>, n: nat) -> nat
    decreases n,
{
    if n == 0 {
        0
    } else {
        red_sum(s, (n - 1) as nat) + s[n - 1].r as nat
    }
}

/// The sum of the green channels of the first `n` colours.
pub open spec fn green_sum(s: Seq<Rgb>, n: nat) -> nat
    decreases n,
{
    if n == 0 {
        0
    } else {
        green_sum(s, (n - 1) as nat) + s[n - 1].g as nat
    }
}

/// The sum of the blue channels of the first `n` colours.
pub open spec fn blue_sum(s: Seq<Rgb>, n: nat) -> nat
    decreases n,
{
    if n == 0 {
        0
    } else {
        blue_sum(s, (n - 1) as nat) + s[n - 1].b as nat
    }
}

/// The mean of the colours: each channel is the sum of that channel divided
/// by the number of colours, rounded down.
pub open spec fn mean_colour(s: Seq<Rgb>) -> Rgb {
    Rgb {
        r: (red_sum(s, s.len()) / s.len()) as u8,
        g: (green_sum(s, s.len()) / s.len()) as u8,
        b: (blue_sum(s, s.len()) / s.len()) as u8,
    }
}

/// No channel sum exceeds 255 per colour.
pub proof fn lemma_sums_bounded(s: Seq<Rgb>, n: nat)
    requires
        n <= s.len(),
    ensures
        red_sum(s, n) <= 255 * n,
        green_sum(s, n) <= 255 * n,
        blue_sum(s, n) <= 255 * n,
    decreases n,
{
    if n > 0 {
        lemma_sums_bounded(s, (n - 1) as nat);
    }
}

/// The mean of a positive number of copies of one colour is that colour.
pub proof fn lemma_mean_of_equal_colours(s: Seq<Rgb>, c: Rgb)
    requires
        s.len() > 0,
        forall|i: int| 0 <= i < s.len() ==> s[i] == c,
    ensures
        mean_colour(s) == c,
{
    lemma_sums_of_equal_colours(s, c, s.len());
    let n = s.len() as int;
    assert((n * c.r) / n == c.r) by (nonlinear_arith)
        requires
            n > 0,
    ;
    assert((n * c.g) / n == c.g) by (nonlinear_arith)
        requires
            n > 0,
    ;
    assert((n * c.b) / n == c.b) by (nonlinear_arith)
        requires
            n > 0,
    ;
}

proof fn lemma_sums_of_equal_colours(s: Seq<Rgb>, c: Rgb, n: nat)
    requires
        n <= s.len(),
        forall|i: int| 0 <= i < s.len() ==> s[i] == c,
    ensures
        red_sum(s, n) == n * c.r,
        green_sum(s, n) == n * c.g,
        blue_sum(s, n) == n * c.b,
    decreases n,
{
    if n > 0 {
        let m = (n - 1) as nat;
        lemma_sums_of_equal_colours(s, c, m);
        assert((m + 1) * c.r == m * c.r + c.r) by (nonlinear_arith);
        assert((m + 1) * c.g == m * c.g + c.g) by (nonlinear_arith);
        assert((m + 1) * c.b == m * c.b + c.b) by (nonlinear_arith);
    } else {
        assert(0 * c.r == 0 && 0 * c.g == 0 && 0 * c.b == 0) by (nonlinear_arith);
    }
}

/// The unweighted mean of a block of colours.
pub fn average_colour(c: &[Rgb]) -> (r: Rgb)
    requires
        c@.len() > 0,
    ensures
        r == mean_colour(c@),
{
    let n = c.len();
    let mut r: u128 = 0;
    let mut g: u128 = 0;
    let mut b: u128 = 0;
    let mut i: usize = 0;
    while i < n
        invariant
            n == c@.len(),
            i <= n,
            r == red_sum(c@, i as nat),
            g == green_sum(c@, i as nat),
            b == blue_sum(c@, i as nat),
        decreases n - i,
    {
        proof {
            lemma_sums_bounded(c@, i as nat);
        }
        r = r + c[i].r as u128;
        g = g + c[i].g as u128;
        b = b + c[i].b as u128;
        i += 1;
    }
    proof {
        lemma_sums_bounded(c@, n as nat);
        let m = n as int;
        assert(r as int / m <= 255 && g as int / m <= 255 && b as int / m <= 255)
            by (nonlinear_arith)
            requires
                m > 0,
                r <= 255 * m,
                g <= 255 * m,
                b <= 255 * m,
        ;
    }
    let count = n as u128;
    Rgb { r: (r / count) as u8, g: (g / count) as u8, b: (b / count) as u8 }
}

/// The colour as one word: red in bits 16 to 23, green in bits 8 to 15, blue
/// in the low byte, and a zero top byte.
pub open spec fn packed(c: Rgb) -> u32 {
    (c.r * 65536 + c.g * 256 + c.b) as u32
}

pub fn pack_colour(c: Rgb) -> (r: u32)
    ensures
        r == packed(c),
{
    c.r as u32 * 65536 + c.g as u32 * 256 + c.b as u32
}

} // verus!
