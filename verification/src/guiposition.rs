//! The coordinate model: lengths, sizes and positions in logical units, and
//! the scale that converts between logical and physical (device) pixels.
//!
//! A `GUILength` stores a signed count of length units, where one logical
//! pixel is `UNIT` (10^8) units. Two lengths are equal exactly when they agree
//! to eight decimal places of a logical pixel, which is what unit-for-unit
//! equality of the fixed-point representation says. Conversion to physical
//! pixels rounds half away from zero to the nearest whole device pixel.

use vstd::prelude::*;
use vstd::arithmetic::div_mod::lemma_div_is_ordered;
use vstd::arithmetic::div_mod::lemma_div_pos_is_pos;
use vstd::arithmetic::div_mod::lemma_fundamental_div_mod;
use vstd::arithmetic::div_mod::lemma_fundamental_div_mod_converse;

verus! {

/// Length units per logical pixel: eight decimal places of precision.
pub const UNIT: i64 = 100_000_000;

/// Largest magnitude, in units, that coordinate arithmetic is specified for
/// (ten million logical pixels); keeps every intermediate product in range.
pub const MAX_UNITS: i64 = 1_000_000_000_000_000;

/// `MAX_UNITS` expressed in whole logical pixels.
pub const MAX_PIXELS: i64 = 10_000_000;

/// `UNIT * UNIT`, the divisor of a product of two fixed-point measures.
pub const UNIT_SQ: i128 = 10_000_000_000_000_000;

/// Bound on the numerator and denominator accepted by `round_div_i128`.
pub const RD_LIMIT: i128 = 1_000_000_000_000_000_000_000_000_000_000_000;

/// Quotient of `n / d` for `d > 0`, rounded to the nearest integer with
/// ties away from zero.
pub open spec fn round_div(n: int, d: int) -> int {
    if n >= 0 {
        (2 * n + d) / (2 * d)
    } else {
        -((2 * (-n) + d) / (2 * d))
    }
}

/// `round_div` generalised to a nonzero divisor of either sign.
pub open spec fn round_ratio(n: int, d: int) -> int {
    if d > 0 {
        round_div(n, d)
    } else {
        round_div(-n, -d)
    }
}

/// Physical (device) pixels for a length of `units` at scale `scale_units`:
/// the real product of the two values, rounded to a whole pixel.
pub open spec fn phys_of(units: int, scale_units: int) -> int {
    round_div(units * scale_units, UNIT_SQ as int)
}

/// Length units for `pixels` physical pixels at scale `scale_units`.
pub open spec fn logical_of(pixels: int, scale_units: int) -> int {
    round_div(pixels * (UNIT_SQ as int), scale_units)
}

/// Units of the product of two lengths (the values multiply, so the unit
/// counts multiply and are scaled back down by one factor of `UNIT`).
pub open spec fn mul_units(a: int, b: int) -> int {
    round_div(a * b, UNIT as int)
}

/// Units of the quotient of two lengths.
pub open spec fn div_units(a: int, b: int) -> int {
    round_ratio(a * (UNIT as int), b)
}

pub(crate) proof fn lemma_round_div_exact(n: int, d: int)
    requires
        d > 0,
        n % d == 0,
    ensures
        round_div(n, d) == n / d,
        n == d * (n / d),
{
    lemma_fundamental_div_mod(n, d);
    let q = n / d;
    assert(n == d * q);
    if n >= 0 {
        assert(2 * n + d == q * (2 * d) + d) by (nonlinear_arith)
            requires
                n == d * q,
        ;
        lemma_fundamental_div_mod_converse(2 * n + d, 2 * d, q, d);
    } else {
        assert(2 * (-n) + d == (-q) * (2 * d) + d) by (nonlinear_arith)
            requires
                n == d * q,
        ;
        lemma_fundamental_div_mod_converse(2 * (-n) + d, 2 * d, -q, d);
    }
}

pub(crate) proof fn lemma_round_div_ordered(n: int, m: int, d: int)
    requires
        d > 0,
        n <= m,
    ensures
        round_div(n, d) <= round_div(m, d),
{
    if n >= 0 {
        lemma_div_is_ordered(2 * n + d, 2 * m + d, 2 * d);
    } else if m >= 0 {
        lemma_div_pos_is_pos(2 * m + d, 2 * d);
        lemma_div_pos_is_pos(2 * (-n) + d, 2 * d);
    } else {
        lemma_div_is_ordered(2 * (-m) + d, 2 * (-n) + d, 2 * d);
    }
}

/// If `-b * d <= n <= b * d` then the rounded quotient lies within `[-b, b]`.
pub(crate) proof fn lemma_round_div_bounded(n: int, d: int, b: int)
    requires
        d > 0,
        b >= 0,
        -(b * d) <= n <= b * d,
    ensures
        -b <= round_div(n, d) <= b,
{
    assert(2 * (b * d) + d == b * (2 * d) + d) by (nonlinear_arith);
    lemma_fundamental_div_mod_converse(2 * (b * d) + d, 2 * d, b, d);
    if b == 0 {
        assert(b * d == 0) by (nonlinear_arith)
            requires
                b == 0,
        ;
        assert(round_div(b * d, d) == b);
        assert(round_div(-(b * d), d) == -b);
    } else {
        assert(b * d > 0) by (nonlinear_arith)
            requires
                b > 0,
                d > 0,
        ;
        assert(round_div(b * d, d) == b);
        assert(round_div(-(b * d), d) == -b);
    }
    lemma_round_div_ordered(n, b * d, d);
    lemma_round_div_ordered(-(b * d), n, d);
}

/// Rounding error: the rounded quotient, scaled back up, misses the
/// numerator by at most half the divisor (stated doubled to stay integral).
pub(crate) proof fn lemma_round_div_error(n: int, d: int)
    requires
        d > 0,
    ensures
        -d <= 2 * (round_div(n, d) * d - n) <= d,
{
    if n >= 0 {
        let q = (2 * n + d) / (2 * d);
        lemma_fundamental_div_mod(2 * n + d, 2 * d);
        let r = (2 * n + d) % (2 * d);
        assert(2 * n + d == 2 * d * q + r);
        assert(2 * (q * d - n) == d - r) by (nonlinear_arith)
            requires
                2 * n + d == 2 * d * q + r,
        ;
    } else {
        let m = -n;
        let q = (2 * m + d) / (2 * d);
        lemma_fundamental_div_mod(2 * m + d, 2 * d);
        let r = (2 * m + d) % (2 * d);
        assert(2 * m + d == 2 * d * q + r);
        assert(2 * ((-q) * d - n) == r - d) by (nonlinear_arith)
            requires
                2 * m + d == 2 * d * q + r,
                m == -n,
        ;
    }
}

/// The magnitude of a product is bounded by the product of the bounds.
pub(crate) proof fn lemma_mul_bounds(a: int, b: int, m1: int, m2: int)
    by (nonlinear_arith)
    requires
        m1 >= 0,
        m2 >= 0,
        -m1 <= a <= m1,
        -m2 <= b <= m2,
    ensures
        -(m1 * m2) <= a * b <= m1 * m2,
{
}

/// Rounded division on machine integers; the workhorse behind every
/// fixed-point conversion in the coordinate model.
pub(crate) fn round_div_i128(n: i128, d: i128) -> (r: i128)
    requires
        1 <= d <= RD_LIMIT,
        -RD_LIMIT <= n <= RD_LIMIT,
    ensures
        r as int == round_div(n as int, d as int),
{
    if n >= 0 {
        (2 * n + d) / (2 * d)
    } else {
        let m: i128 = -n;
        -((2 * m + d) / (2 * d))
    }
}

/// A signed scalar length in logical units.
#[derive(Clone, Copy, Debug, PartialEq, Eq, Structural)]
pub struct GUILength {
    /// Fixed-point measure: `UNIT` units make one logical pixel.
    pub units: i64,
}

impl Default for GUILength {
    fn default() -> (r: Self)
        ensures
            r.units == 0,
    {
        GUILength { units: 0 }
    }
}

/// The factor between logical and physical pixels.
#[derive(Clone, Copy, Debug, PartialEq, Eq, Structural)]
pub struct GUIScale {
    /// Fixed-point measure: `UNIT` units make a scale factor of one.
    pub units: i64,
}

impl GUIScale {
    /// A scale factor is positive and bounded; conversions require this.
    pub open spec fn wf(&self) -> bool {
        1 <= self.units <= MAX_UNITS
    }

    pub fn from_units(units: i64) -> (r: Self)
        requires
            1 <= units <= MAX_UNITS,
        ensures
            r.units == units,
            r.wf(),
    {
        GUIScale { units }
    }
}

impl GUILength {
    /// Magnitude small enough for every conversion and product to stay exact.
    pub open spec fn bounded(&self) -> bool {
        -MAX_UNITS <= self.units <= MAX_UNITS
    }

    /// The same length with its sign flipped.
    pub fn negative(&self) -> (r: Self)
        requires
            self.units > i64::MIN,
        ensures
            r.units == -self.units,
    {
        GUILength { units: -self.units }
    }

    /// The raw unit count of this length.
    pub fn get_length(&self) -> (r: i64)
        ensures
            r == self.units,
    {
        self.units
    }

    /// Whole physical pixels covered by this length at scale `scale`,
    /// rounded half away from zero.
    pub fn get_physical_length(&self, scale: &GUIScale) -> (r: i64)
        requires
            self.bounded(),
            scale.wf(),
        ensures
            r as int == phys_of(self.units as int, scale.units as int),
    {
        proof {
            lemma_mul_bounds(self.units as int, scale.units as int, MAX_UNITS as int, MAX_UNITS as int);
        }
        let n: i128 = (self.units as i128) * (scale.units as i128);
        let q: i128 = round_div_i128(n, UNIT_SQ);
        proof {
            assert(MAX_UNITS as int * UNIT_SQ as int >= n as int >= -(MAX_UNITS as int * UNIT_SQ as int))
                by (nonlinear_arith)
                requires
                    -(MAX_UNITS as int * MAX_UNITS as int) <= n as int <= MAX_UNITS as int * MAX_UNITS as int,
            ;
            lemma_round_div_bounded(n as int, UNIT_SQ as int, MAX_UNITS as int);
        }
        q as i64
    }

    /// A length of `pixels` whole logical pixels.
    pub fn from_pixels(pixels: i64) -> (r: Self)
        requires
            -MAX_PIXELS <= pixels <= MAX_PIXELS,
        ensures
            r.units == pixels * UNIT,
            r.bounded(),
    {
        GUILength { units: pixels * UNIT }
    }

    /// The logical length that covers `pixels` whole physical pixels at
    /// scale `scale`.
    pub fn from_physical_pixels(pixels: i64, scale: &GUIScale) -> (r: Self)
        requires
            scale.wf(),
            -MAX_UNITS <= pixels <= MAX_UNITS,
            -MAX_UNITS <= logical_of(pixels as int, scale.units as int) <= MAX_UNITS,
        ensures
            r.units as int == logical_of(pixels as int, scale.units as int),
            r.bounded(),
    {
        proof {
            lemma_mul_bounds(pixels as int, UNIT_SQ as int, MAX_UNITS as int, UNIT_SQ as int);
        }
        let n: i128 = (pixels as i128) * UNIT_SQ;
        let q: i128 = round_div_i128(n, scale.units as i128);
        GUILength { units: q as i64 }
    }

    /// The sum of two lengths.
    pub fn add(&self, other: &GUILength) -> (r: Self)
        requires
            i64::MIN <= self.units + other.units <= i64::MAX,
        ensures
            r.units == self.units + other.units,
    {
        GUILength { units: self.units + other.units }
    }

    /// The difference of two lengths.
    pub fn subtract(&self, other: &GUILength) -> (r: Self)
        requires
            i64::MIN <= self.units - other.units <= i64::MAX,
        ensures
            r.units == self.units - other.units,
    {
        GUILength { units: self.units - other.units }
    }

    /// The product of the two values, rounded back to length units.
    pub fn multiply(&self, other: &GUILength) -> (r: Self)
        requires
            self.bounded(),
            other.bounded(),
            i64::MIN <= mul_units(self.units as int, other.units as int) <= i64::MAX,
        ensures
            r.units as int == mul_units(self.units as int, other.units as int),
    {
        proof {
            lemma_mul_bounds(self.units as int, other.units as int, MAX_UNITS as int, MAX_UNITS as int);
        }
        let n: i128 = (self.units as i128) * (other.units as i128);
        let q: i128 = round_div_i128(n, UNIT as i128);
        GUILength { units: q as i64 }
    }

    /// The quotient of the two values, rounded back to length units.
    pub fn devide_by(&self, other: &GUILength) -> (r: Self)
        requires
            other.units != 0,
            i64::MIN <= div_units(self.units as int, other.units as int) <= i64::MAX,
        ensures
            r.units as int == div_units(self.units as int, other.units as int),
    {
        proof {
            lemma_mul_bounds(self.units as int, UNIT as int, i64::MAX as int + 1, UNIT as int);
        }
        let mut n: i128 = (self.units as i128) * (UNIT as i128);
        let mut d: i128 = other.units as i128;
        if d < 0 {
            n = -n;
            d = -d;
        }
        let q: i128 = round_div_i128(n, d);
        GUILength { units: q as i64 }
    }
}

/// Converting a length to whole physical pixels and back returns the same
/// length whenever the length lands exactly on a physical pixel boundary
/// (the rounding in `get_physical_length` then loses nothing).
pub proof fn lemma_physical_round_trip(l: GUILength, s: GUIScale)
    requires
        s.wf(),
        l.bounded(),
        l.units > 0,
        (l.units as int * s.units as int) % (UNIT_SQ as int) == 0,
    ensures
        logical_of(phys_of(l.units as int, s.units as int), s.units as int) == l.units as int,
{
    let u2 = UNIT_SQ as int;
    let n = l.units as int * s.units as int;
    lemma_round_div_exact(n, u2);
    let p = n / u2;
    assert(phys_of(l.units as int, s.units as int) == p);
    assert(p * u2 == n) by {
        lemma_fundamental_div_mod(n, u2);
    }
    assert((l.units as int * s.units as int) % (s.units as int) == 0) by {
        lemma_fundamental_div_mod_converse(
            l.units as int * s.units as int,
            s.units as int,
            l.units as int,
            0,
        );
    }
    lemma_round_div_exact(n, s.units as int);
    assert(n / (s.units as int) == l.units as int) by {
        lemma_fundamental_div_mod_converse(n, s.units as int, l.units as int, 0);
    }
}

/// An area: a width and a height.
#[derive(Clone, Copy, Debug, PartialEq, Eq, Structural)]
pub struct GUISize {
    pub width: GUILength,
    pub height: GUILength,
}

impl Default for GUISize {
    fn default() -> (r: Self)
        ensures
            r.width.units == 500 * UNIT,
            r.height.units == 500 * UNIT,
    {
        GUISize { width: GUILength { units: 500 * UNIT }, height: GUILength { units: 500 * UNIT } }
    }
}

impl GUISize {
    pub open spec fn bounded(&self) -> bool {
        self.width.bounded() && self.height.bounded()
    }

    pub fn from_lengths(width: GUILength, height: GUILength) -> (r: Self)
        ensures
            r.width == width,
            r.height == height,
    {
        GUISize { width, height }
    }

    pub fn from_pixels(width: i64, height: i64) -> (r: Self)
        requires
            -MAX_PIXELS <= width <= MAX_PIXELS,
            -MAX_PIXELS <= height <= MAX_PIXELS,
        ensures
            r.width.units == width * UNIT,
            r.height.units == height * UNIT,
            r.bounded(),
    {
        GUISize {
            width: GUILength::from_pixels(width),
            height: GUILength::from_pixels(height),
        }
    }

    pub fn from_physical_pixels(width: i64, height: i64, scale: &GUIScale) -> (r: Self)
        requires
            scale.wf(),
            -MAX_UNITS <= width <= MAX_UNITS,
            -MAX_UNITS <= height <= MAX_UNITS,
            -MAX_UNITS <= logical_of(width as int, scale.units as int) <= MAX_UNITS,
            -MAX_UNITS <= logical_of(height as int, scale.units as int) <= MAX_UNITS,
        ensures
            r.width.units as int == logical_of(width as int, scale.units as int),
            r.height.units as int == logical_of(height as int, scale.units as int),
            r.bounded(),
    {
        GUISize {
            width: GUILength::from_physical_pixels(width, scale),
            height: GUILength::from_physical_pixels(height, scale),
        }
    }
}

/// A point: an x and a y offset from a frame's top-left corner.
#[derive(Clone, Copy, Debug, PartialEq, Eq, Structural)]
pub struct GUIPosition {
    pub x: GUILength,
    pub y: GUILength,
}

impl Default for GUIPosition {
    fn default() -> (r: Self)
        ensures
            r.x.units == 0,
            r.y.units == 0,
    {
        GUIPosition { x: GUILength { units: 0 }, y: GUILength { units: 0 } }
    }
}

impl GUIPosition {
    pub open spec fn bounded(&self) -> bool {
        self.x.bounded() && self.y.bounded()
    }

    pub fn from_pixels(x: i64, y: i64) -> (r: Self)
        requires
            -MAX_PIXELS <= x <= MAX_PIXELS,
            -MAX_PIXELS <= y <= MAX_PIXELS,
        ensures
            r.x.units == x * UNIT,
            r.y.units == y * UNIT,
            r.bounded(),
    {
        GUIPosition { x: GUILength::from_pixels(x), y: GUILength::from_pixels(y) }
    }

    pub fn from_lengths(x: GUILength, y: GUILength) -> (r: Self)
        ensures
            r.x == x,
            r.y == y,
    {
        GUIPosition { x, y }
    }

    pub fn from_physical_pixels(x: i64, y: i64, scale: &GUIScale) -> (r: Self)
        requires
            scale.wf(),
            -MAX_UNITS <= x <= MAX_UNITS,
            -MAX_UNITS <= y <= MAX_UNITS,
            -MAX_UNITS <= logical_of(x as int, scale.units as int) <= MAX_UNITS,
            -MAX_UNITS <= logical_of(y as int, scale.units as int) <= MAX_UNITS,
        ensures
            r.x.units as int == logical_of(x as int, scale.units as int),
            r.y.units as int == logical_of(y as int, scale.units as int),
            r.bounded(),
    {
        GUIPosition {
            x: GUILength::from_physical_pixels(x, scale),
            y: GUILength::from_physical_pixels(y, scale),
        }
    }
}

} // verus!
