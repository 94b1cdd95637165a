//! Flat colors carried by widgets and copied onto every vertex they emit.

use vstd::prelude::*;
use crate::guiposition::UNIT;

verus! {

/// An RGBA color. Channels are fixed point like lengths: `UNIT` units equal a
/// channel value of one (full intensity).
#[derive(Clone, Copy, Debug, PartialEq, Eq, Structural)]
pub struct GUIColor {
    pub r: i64,
    pub g: i64,
    pub b: i64,
    pub a: i64,
}

impl GUIColor {
    /// A color from channel values given in hundredths of full intensity.
    pub fn from_percent(r: i64, g: i64, b: i64, a: i64) -> (c: GUIColor)
        requires
            0 <= r <= 100,
            0 <= g <= 100,
            0 <= b <= 100,
            0 <= a <= 100,
        ensures
            c.r == r * (UNIT / 100),
            c.g == g * (UNIT / 100),
            c.b == b * (UNIT / 100),
            c.a == a * (UNIT / 100),
    {
        GUIColor {
            r: r * (UNIT / 100),
            g: g * (UNIT / 100),
            b: b * (UNIT / 100),
            a: a * (UNIT / 100),
        }
    }
}

} // verus!
