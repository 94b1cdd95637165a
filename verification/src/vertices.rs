//! Geometry primitives: a logical-space vertex, a device (clip-space) vertex,
//! and the polygon record that ties a vertex range back to its widget for
//! hit-testing.

use vstd::prelude::*;
use crate::guicolor::GUIColor;
use crate::guiposition::GUILength;
use crate::guiposition::GUIPosition;
use crate::guiposition::UNIT;
use crate::guiposition::round_div;
use crate::guiposition::round_div_i128;
use crate::guiposition::lemma_mul_bounds;
use crate::guiposition::lemma_round_div_bounded;

verus! {

/// Largest coordinate magnitude, in length units, that tessellation emits:
/// an anchor plus a position plus two spans, each within `MAX_UNITS`.
pub const COORD_LIMIT: i64 = 4_000_000_000_000_000;

/// The smallest window extent the clip-space conversion is defined for: one
/// logical pixel. The machine forces only a far smaller positive floor (the
/// divisor must keep the rounded quotient of a `COORD_LIMIT` coordinate
/// within `i64`); one logical pixel is the chosen, documented boundary below
/// which a window is degenerate and a frame emits no device geometry — the
/// same graceful degradation a zero-sized widget gets.
pub const MIN_WINDOW_EXTENT: i64 = UNIT;

/// Clip-space x for logical x over a window of width `w` (both in units):
/// the affine map sending `[0, w]` to `[-UNIT, UNIT]`, rounded to units.
pub open spec fn clip_x(x: int, w: int) -> int {
    round_div(2 * x * (UNIT as int), w) - UNIT as int
}

/// Clip-space y for logical y over a window of height `h` (both in units):
/// the affine map sending `[0, h]` to `[UNIT, -UNIT]` (y flips), rounded.
pub open spec fn clip_y(y: int, h: int) -> int {
    UNIT as int - round_div(2 * y * (UNIT as int), h)
}

/// A vertex in the logical, top-left-origin, y-down frame.
#[derive(Clone, Copy, Debug, PartialEq, Eq, Structural)]
pub struct LogicalVertex {
    pub position: GUIPosition,
    pub color: GUIColor,
}

/// A vertex in the device clip-space frame (center origin, y up), in fixed
/// point: `UNIT` units equal one clip-space unit.
#[derive(Clone, Copy, Debug, PartialEq, Eq, Structural)]
pub struct Vertex {
    pub x: i64,
    pub y: i64,
    pub color: GUIColor,
}

impl LogicalVertex {
    /// True when both coordinates are within the range tessellation emits.
    pub open spec fn in_coord_range(&self) -> bool {
        -COORD_LIMIT <= self.position.x.units <= COORD_LIMIT
            && -COORD_LIMIT <= self.position.y.units <= COORD_LIMIT
    }

    /// This vertex mapped into clip space for a window of the given logical
    /// size (at least one logical pixel on each axis).
    pub fn to_vertex(&self, width: &GUILength, height: &GUILength) -> (v: Vertex)
        requires
            self.in_coord_range(),
            width.units >= MIN_WINDOW_EXTENT,
            height.units >= MIN_WINDOW_EXTENT,
        ensures
            v.x as int == clip_x(self.position.x.units as int, width.units as int),
            v.y as int == clip_y(self.position.y.units as int, height.units as int),
            v.color == self.color,
    {
        proof {
            lemma_mul_bounds(
                2 * self.position.x.units as int,
                UNIT as int,
                2 * COORD_LIMIT as int,
                UNIT as int,
            );
            lemma_mul_bounds(
                2 * self.position.y.units as int,
                UNIT as int,
                2 * COORD_LIMIT as int,
                UNIT as int,
            );
        }
        let nx: i128 = 2 * (self.position.x.units as i128) * (UNIT as i128);
        let ny: i128 = 2 * (self.position.y.units as i128) * (UNIT as i128);
        let qx: i128 = round_div_i128(nx, width.units as i128);
        let qy: i128 = round_div_i128(ny, height.units as i128);
        proof {
            lemma_clip_quotient_bounded(nx as int, width.units as int);
            lemma_clip_quotient_bounded(ny as int, height.units as int);
        }
        Vertex {
            x: (qx as i64) - UNIT,
            y: UNIT - (qy as i64),
            color: self.color,
        }
    }
}

/// With a window of at least one logical pixel, the rounded clip quotient of
/// an in-range coordinate stays far inside the machine range.
proof fn lemma_clip_quotient_bounded(n: int, w: int)
    requires
        w >= UNIT as int,
        -(2 * COORD_LIMIT as int * UNIT as int) <= n <= 2 * COORD_LIMIT as int * UNIT as int,
    ensures
        -(COORD_LIMIT as int * 100) <= round_div(n, w) <= COORD_LIMIT as int * 100,
{
    let b = COORD_LIMIT as int * 100;
    assert(b * w >= 2 * COORD_LIMIT as int * UNIT as int) by (nonlinear_arith)
        requires
            w >= UNIT as int,
            b == COORD_LIMIT as int * 100,
    ;
    lemma_round_div_bounded(n, w, b);
}

/// The record used for hit-testing: the contiguous vertex range
/// `[start_index, end_index)` of one tessellation pass belongs to the widget
/// named here.
#[derive(Clone, Copy, Debug, PartialEq, Eq, Structural)]
pub struct Polygon {
    pub start_index: usize,
    pub end_index: usize,
    pub widget_id: u128,
    pub convex: bool,
    pub rendered: bool,
}

impl Default for Polygon {
    fn default() -> (r: Self)
        ensures
            r.start_index == 0,
            r.end_index == 0,
            r.widget_id == 0,
            r.convex,
            !r.rendered,
    {
        Polygon { start_index: 0, end_index: 0, widget_id: 0, convex: true, rendered: false }
    }
}

} // verus!
