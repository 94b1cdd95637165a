//! The button widget: a rounded rectangle built as one closed outline of four
//! seven-facet corner arcs (top-left, bottom-left, bottom-right, top-right),
//! fan-triangulated from its first vertex.

use vstd::prelude::*;
use crate::guicolor::GUIColor;
use crate::guiposition::GUILength;
use crate::guiposition::GUIPosition;
use crate::guiposition::GUISize;
use crate::guiposition::MAX_UNITS;
use crate::guiposition::UNIT;
use crate::guiposition::lemma_mul_bounds;
use crate::guiposition::lemma_round_div_exact;
use crate::guiposition::lemma_round_div_ordered;
use crate::guiposition::round_div;
use crate::guiposition::round_div_i128;
use crate::guitraits::Widget;
use crate::identity::fresh_id;
use crate::vertices::LogicalVertex;
use crate::vertices::Polygon;

verus! {

/// Facets per corner arc; each arc contributes `ARC_FACETS + 1` vertices.
pub const ARC_FACETS: usize = 7;

/// Vertices of a non-degenerate button outline: four arcs of eight points.
pub const BUTTON_VERTICES: usize = 32;

/// Cosine of `k * 90 / 7` degrees in length units (`UNIT` is one), the
/// sample points of a quarter-circle arc with seven facets. `cosq(7 - k)` is
/// the matching sine.
pub open spec fn cosq(k: int) -> int {
    if k <= 0 {
        100_000_000
    } else if k == 1 {
        97_492_791
    } else if k == 2 {
        90_096_887
    } else if k == 3 {
        78_183_148
    } else if k == 4 {
        62_348_980
    } else if k == 5 {
        43_388_374
    } else if k == 6 {
        22_252_093
    } else {
        0
    }
}

fn cos_table(k: usize) -> (r: i64)
    requires
        k < 8,
    ensures
        r as int == cosq(k as int),
{
    if k == 0 {
        100_000_000
    } else if k == 1 {
        97_492_791
    } else if k == 2 {
        90_096_887
    } else if k == 3 {
        78_183_148
    } else if k == 4 {
        62_348_980
    } else if k == 5 {
        43_388_374
    } else if k == 6 {
        22_252_093
    } else {
        0
    }
}

/// The corner radius actually used: the configured radius clamped into
/// `[0, min(width, height) / 2]`, which keeps the outline convex.
pub open spec fn clamp_radius(r: int, w: int, h: int) -> int {
    let m = if w / 2 <= h / 2 {
        w / 2
    } else {
        h / 2
    };
    if r <= 0 {
        0
    } else if r >= m {
        m
    } else {
        r
    }
}

/// The offset of arc sample `k` from the arc's center, along one axis:
/// `radius * cosq(k)` scaled back to length units. (Opaque: callers reason
/// through the range, end, ordering and rounding lemmas below.)
#[verifier::opaque]
pub open spec fn arc_off(rc: int, k: int) -> int {
    round_div(rc * cosq(k), UNIT as int)
}

/// An arc offset lies between zero and the radius.
pub(crate) proof fn lemma_arc_off_range(rc: int, k: int)
    requires
        0 <= rc,
    ensures
        0 <= arc_off(rc, k) <= rc,
{
    reveal(arc_off);
    let u = UNIT as int;
    assert(0 <= cosq(k) <= u);
    assert(0 <= rc * cosq(k) <= rc * u) by (nonlinear_arith)
        requires
            0 <= rc,
            0 <= cosq(k) <= u,
    ;
    assert((rc * u) % u == 0 && (rc * u) / u == rc) by {
        vstd::arithmetic::div_mod::lemma_fundamental_div_mod_converse(rc * u, u, rc, 0);
    }
    lemma_round_div_exact(rc * u, u);
    lemma_round_div_ordered(rc * cosq(k), rc * u, u);
    assert(round_div(0, u) == 0) by {
        vstd::arithmetic::div_mod::lemma_fundamental_div_mod_converse(u, 2 * u, 0, u);
    }
    lemma_round_div_ordered(0, rc * cosq(k), u);
}

/// Arc offsets shrink as the sample index grows (the cosine table falls).
pub(crate) proof fn lemma_arc_off_monotone(rc: int, k1: int, k2: int)
    requires
        0 <= rc,
        k1 <= k2,
        0 <= k1 <= 7,
        0 <= k2 <= 7,
    ensures
        arc_off(rc, k1) >= arc_off(rc, k2),
{
    reveal(arc_off);
    assert(cosq(k1) >= cosq(k2));
    assert(rc * cosq(k2) <= rc * cosq(k1)) by (nonlinear_arith)
        requires
            0 <= rc,
            cosq(k2) <= cosq(k1),
    ;
    lemma_round_div_ordered(rc * cosq(k2), rc * cosq(k1), UNIT as int);
}

/// For a depth `q` strictly between zero and the radius that misses every
/// sampled arc offset, some consecutive pair of samples brackets it.
pub(crate) proof fn lemma_arc_span(rc: int, q: int, k: int)
    requires
        0 <= rc,
        0 < q < arc_off(rc, k),
        0 <= k <= 7,
        forall|m: int| 0 <= m < 8 ==> q != arc_off(rc, m),
    ensures
        exists|k0: int|
            0 <= k0 < 7 && arc_off(rc, k0 + 1) < q < #[trigger] arc_off(rc, k0),
    decreases 7 - k,
{
    lemma_arc_off_ends(rc);
    if k == 7 {
        assert(arc_off(rc, 7) == 0);
        assert(false);
    } else if arc_off(rc, k + 1) < q {
        assert(arc_off(rc, k + 1) < q < arc_off(rc, k));
    } else {
        assert(q < arc_off(rc, k + 1));
        lemma_arc_span(rc, q, k + 1);
    }
}

/// The first arc sample sits a full radius from the center; the last sits
/// on the center line.
pub(crate) proof fn lemma_arc_off_ends(rc: int)
    requires
        0 <= rc,
    ensures
        arc_off(rc, 0) == rc,
        arc_off(rc, 7) == 0,
{
    reveal(arc_off);
    let u = UNIT as int;
    assert((rc * u) % u == 0 && (rc * u) / u == rc) by {
        vstd::arithmetic::div_mod::lemma_fundamental_div_mod_converse(rc * u, u, rc, 0);
    }
    lemma_round_div_exact(rc * u, u);
    assert(rc * cosq(0) == rc * u) by (nonlinear_arith)
        requires
            cosq(0) == u,
    ;
    assert(rc * cosq(7) == 0) by (nonlinear_arith)
        requires
            cosq(7) == 0,
    ;
    assert(round_div(0, u) == 0) by {
        vstd::arithmetic::div_mod::lemma_fundamental_div_mod_converse(u, 2 * u, 0, u);
    }
}

fn arc_offset(rc: i64, k: usize) -> (r: i64)
    requires
        0 <= rc <= MAX_UNITS,
        k < 8,
    ensures
        r as int == arc_off(rc as int, k as int),
        0 <= r <= rc,
{
    let c: i64 = cos_table(k);
    proof {
        reveal(arc_off);
        lemma_mul_bounds(rc as int, c as int, MAX_UNITS as int, UNIT as int);
        lemma_arc_off_range(rc as int, k as int);
    }
    let q: i128 = round_div_i128((rc as i128) * (c as i128), UNIT as i128);
    q as i64
}

/// Index `i` of the fan triangulation: triangle `t = i / 3` is
/// `(offset, offset + t + 1, offset + t + 2)`.
pub open spec fn fan_index(offset: u16, i: int) -> u16 {
    (offset as int + (if i % 3 == 0 {
        0
    } else {
        i / 3 + i % 3
    })) as u16
}

pub struct GUIButton {
    /// The title of the button.
    pub text: &'static str,
    /// The size of the button.
    pub size: GUISize,
    /// The location of the button within its parent.
    pub position: GUIPosition,
    /// Radius of the button corners.
    pub radius: GUILength,
    /// The background color for the button.
    pub background_color: GUIColor,
    pub id: u128,
}

impl GUIButton {
    /// The clamped corner radius of this button, in units.
    pub open spec fn spec_radius(&self) -> int {
        clamp_radius(
            self.radius.units as int,
            self.size.width.units as int,
            self.size.height.units as int,
        )
    }

    /// Outline vertex `k` (of 32): arcs in order top-left, bottom-left,
    /// bottom-right, top-right, each sampled at eight points, anchored at
    /// `parent` plus this button's position.
    pub open spec fn vertex_at(&self, parent: GUIPosition, k: int) -> LogicalVertex {
        let w = self.size.width.units as int;
        let h = self.size.height.units as int;
        let rc = self.spec_radius();
        let bx = parent.x.units as int + self.position.x.units as int;
        let by = parent.y.units as int + self.position.y.units as int;
        let j = k % 8;
        let x = if k < 8 {
            bx + rc - arc_off(rc, 7 - j)
        } else if k < 16 {
            bx + rc - arc_off(rc, j)
        } else if k < 24 {
            bx + w - rc + arc_off(rc, 7 - j)
        } else {
            bx + w - rc + arc_off(rc, j)
        };
        let y = if k < 8 {
            by + rc - arc_off(rc, j)
        } else if k < 16 {
            by + h - rc + arc_off(rc, 7 - j)
        } else if k < 24 {
            by + h - rc + arc_off(rc, j)
        } else {
            by + rc - arc_off(rc, 7 - j)
        };
        LogicalVertex {
            position: GUIPosition {
                x: GUILength { units: x as i64 },
                y: GUILength { units: y as i64 },
            },
            color: self.background_color,
        }
    }

    /// A button is degenerate when either side is zero or negative; it then
    /// legally emits no geometry at all.
    pub open spec fn degenerate(&self) -> bool {
        self.size.width.units <= 0 || self.size.height.units <= 0
    }
}

impl Widget for GUIButton {
    open spec fn spec_id(&self) -> u128 {
        self.id
    }

    open spec fn spec_size(&self) -> GUISize {
        self.size
    }

    open spec fn spec_position(&self) -> GUIPosition {
        self.position
    }

    open spec fn wf(&self) -> bool {
        self.size.bounded() && self.position.bounded() && self.radius.bounded()
    }

    open spec fn vertex_count(&self) -> int {
        if self.degenerate() {
            0
        } else {
            BUTTON_VERTICES as int
        }
    }

    open spec fn tess_spec(&self, parent: GUIPosition, offset: u16) -> (Seq<LogicalVertex>, Seq<
        u16,
    >, Polygon) {
        if self.degenerate() {
            (
                Seq::empty(),
                Seq::empty(),
                Polygon {
                    start_index: offset as usize,
                    end_index: offset as usize,
                    widget_id: self.id,
                    convex: true,
                    rendered: false,
                },
            )
        } else {
            (
                Seq::new(BUTTON_VERTICES as nat, |k: int| self.vertex_at(parent, k)),
                Seq::new(90, |i: int| fan_index(offset, i)),
                Polygon {
                    start_index: offset as usize,
                    end_index: (offset as int + BUTTON_VERTICES as int) as usize,
                    widget_id: self.id,
                    convex: true,
                    rendered: true,
                },
            )
        }
    }

    fn get_size(&self) -> (r: &GUISize) {
        &self.size
    }

    fn get_position(&self) -> (r: GUIPosition) {
        self.position
    }

    fn get_id(&self) -> (r: u128) {
        self.id
    }

    fn get_vertices_and_indices(&self, parent_position: &GUIPosition, indice_offset: u16) -> (r: (
        Vec<LogicalVertex>,
        Vec<u16>,
        Polygon,
    )) {
        let w: i64 = self.size.width.units;
        let h: i64 = self.size.height.units;
        if w <= 0 || h <= 0 {
            let polygon = Polygon {
                start_index: indice_offset as usize,
                end_index: indice_offset as usize,
                widget_id: self.id,
                convex: true,
                rendered: false,
            };
            proof {
                assert(self.tess_spec(*parent_position, indice_offset).0 =~= Seq::<
                    LogicalVertex,
                >::empty());
                assert(self.tess_spec(*parent_position, indice_offset).1 =~= Seq::<u16>::empty());
            }
            return (Vec::new(), Vec::new(), polygon);
        }
        let mut rc: i64 = self.radius.units;
        if rc < 0 {
            rc = 0;
        }
        if rc > w / 2 {
            rc = w / 2;
        }
        if rc > h / 2 {
            rc = h / 2;
        }
        assert(rc as int == self.spec_radius());
        let bx: i64 = parent_position.x.get_length() + self.position.x.get_length();
        let by: i64 = parent_position.y.get_length() + self.position.y.get_length();

        let mut vertices: Vec<LogicalVertex> = Vec::new();
        let mut k: usize = 0;
        while k < BUTTON_VERTICES
            invariant
                self.wf(),
                parent_position.bounded(),
                w == self.size.width.units,
                h == self.size.height.units,
                0 < w,
                0 < h,
                0 <= rc <= MAX_UNITS,
                rc as int == self.spec_radius(),
                bx as int == parent_position.x.units as int + self.position.x.units as int,
                by as int == parent_position.y.units as int + self.position.y.units as int,
                k <= BUTTON_VERTICES,
                vertices@.len() == k,
                forall|m: int|
                    0 <= m < k ==> vertices@[m] == self.vertex_at(*parent_position, m),
            decreases BUTTON_VERTICES - k,
        {
            let j: usize = k % 8;
            let off_j: i64 = arc_offset(rc, j);
            let off_cj: i64 = arc_offset(rc, 7 - j);
            let x: i64 = if k < 8 {
                bx + rc - off_cj
            } else if k < 16 {
                bx + rc - off_j
            } else if k < 24 {
                bx + w - rc + off_cj
            } else {
                bx + w - rc + off_j
            };
            let y: i64 = if k < 8 {
                by + rc - off_j
            } else if k < 16 {
                by + h - rc + off_cj
            } else if k < 24 {
                by + h - rc + off_j
            } else {
                by + rc - off_cj
            };
            vertices.push(
                LogicalVertex {
                    position: GUIPosition {
                        x: GUILength { units: x },
                        y: GUILength { units: y },
                    },
                    color: self.background_color,
                },
            );
            k = k + 1;
        }

        let number_of_triangles: usize = BUTTON_VERTICES - 2;
        let mut indices: Vec<u16> = Vec::new();
        let mut i: usize = 0;
        while i < number_of_triangles
            invariant
                number_of_triangles == 30,
                indice_offset as int + 32 <= 65535,
                i <= 30,
                indices@.len() == 3 * i,
                forall|m: int| 0 <= m < 3 * i ==> indices@[m] == fan_index(indice_offset, m),
            decreases number_of_triangles - i,
        {
            let t: u16 = i as u16;
            indices.push(indice_offset);
            indices.push(indice_offset + t + 1);
            indices.push(indice_offset + t + 2);
            proof {
                assert forall|m: int| 0 <= m < 3 * (i + 1) implies indices@[m] == fan_index(
                    indice_offset,
                    m,
                ) by {
                    if m >= 3 * i {
                        assert(m / 3 == i && (m == 3 * i + (m % 3)));
                    }
                }
            }
            i = i + 1;
        }

        let polygon = Polygon {
            start_index: indice_offset as usize,
            end_index: indice_offset as usize + BUTTON_VERTICES,
            widget_id: self.id,
            convex: true,
            rendered: true,
        };
        proof {
            assert(vertices@ =~= self.tess_spec(*parent_position, indice_offset).0);
            assert(indices@ =~= self.tess_spec(*parent_position, indice_offset).1);
        }
        (vertices, indices, polygon)
    }
}

impl Default for GUIButton {
    /// Returns a button with all of the default values and a fresh id (a
    /// version-4 identifier; distinctness from earlier ids is statistical
    /// and is required, not assumed, where the arena inserts).
    fn default() -> (r: Self)
        ensures
            r.text@ == "Button"@,
            r.size.width.units == 200 * UNIT,
            r.size.height.units == 100 * UNIT,
            r.position.x.units == 0,
            r.position.y.units == 0,
            r.radius.units == 25 * UNIT,
            r.background_color == (GUIColor {
                r: 70_000_000,
                g: 10_000_000,
                b: 40_000_000,
                a: 100_000_000,
            }),
            r.id & 0xF0000000000000000000 == 0x40000000000000000000,
            r.id != 0,
            r.wf(),
    {
        GUIButton {
            text: "Button",
            size: GUISize {
                width: GUILength { units: 200 * UNIT },
                height: GUILength { units: 100 * UNIT },
            },
            position: GUIPosition { x: GUILength { units: 0 }, y: GUILength { units: 0 } },
            radius: GUILength { units: 25 * UNIT },
            background_color: GUIColor {
                r: 70_000_000,
                g: 10_000_000,
                b: 40_000_000,
                a: 100_000_000,
            },
            id: fresh_id(),
        }
    }
}


/// The x coordinate of outline sample `k` of the exact (unrounded) button
/// outline, at the button's own origin, scaled by `UNIT`: the value the
/// emitted `vertex_at` coordinate rounds, before translation.
pub open spec fn exact_x(b: GUIButton, k: int) -> int {
    let w = b.size.width.units as int;
    let rc = b.spec_radius();
    let j = k % 8;
    if k < 8 {
        rc * (UNIT as int - cosq(7 - j))
    } else if k < 16 {
        rc * (UNIT as int - cosq(j))
    } else if k < 24 {
        w * (UNIT as int) + rc * (cosq(7 - j) - UNIT as int)
    } else {
        w * (UNIT as int) + rc * (cosq(j) - UNIT as int)
    }
}

/// The matching y coordinate of outline sample `k`.
pub open spec fn exact_y(b: GUIButton, k: int) -> int {
    let h = b.size.height.units as int;
    let rc = b.spec_radius();
    let j = k % 8;
    if k < 8 {
        rc * (UNIT as int - cosq(j))
    } else if k < 16 {
        h * (UNIT as int) + rc * (cosq(7 - j) - UNIT as int)
    } else if k < 24 {
        h * (UNIT as int) + rc * (cosq(j) - UNIT as int)
    } else {
        rc * (UNIT as int - cosq(7 - j))
    }
}

/// The turning cross product at outline corner `i + 1`: the cross product of
/// the edge into it with the edge out of it (indices wrap around the ring).
pub open spec fn outline_cross(b: GUIButton, i: int) -> int {
    let i1 = if i + 1 < 32 {
        i + 1
    } else {
        i - 31
    };
    let i2 = if i + 2 < 32 {
        i + 2
    } else {
        i - 30
    };
    (exact_x(b, i1) - exact_x(b, i)) * (exact_y(b, i2) - exact_y(b, i1)) - (exact_y(b, i1)
        - exact_y(b, i)) * (exact_x(b, i2) - exact_x(b, i1))
}

proof fn lemma_outline_convex_part1(b: GUIButton, i: int)
    requires
        b.wf(),
        !b.degenerate(),
        0 <= i < 8,
    ensures
        outline_cross(b, i) <= 0,
{
    let w = b.size.width.units as int;
    let h = b.size.height.units as int;
    let rc = b.spec_radius();
    assert(rc >= 0 && 2 * rc <= w && 2 * rc <= h);
        if i == 0 {
            assert(outline_cross(b, 0) <= 0) by (nonlinear_arith)
                requires
                    outline_cross(b, 0) == (exact_x(b, 1) - exact_x(b, 0)) * (exact_y(
                        b,
                        2,
                    ) - exact_y(b, 1)) - (exact_y(b, 1) - exact_y(b, 0)) * (exact_x(
                        b,
                        2,
                    ) - exact_x(b, 1)),
                    exact_x(b, 0) == rc * (UNIT as int - cosq(7)),
                    exact_y(b, 0) == rc * (UNIT as int - cosq(0)),
                    exact_x(b, 1) == rc * (UNIT as int - cosq(6)),
                    exact_y(b, 1) == rc * (UNIT as int - cosq(1)),
                    exact_x(b, 2) == rc * (UNIT as int - cosq(5)),
                    exact_y(b, 2) == rc * (UNIT as int - cosq(2)),
                    cosq(0) == 100000000,
                    cosq(1) == 97492791,
                    cosq(2) == 90096887,
                    cosq(5) == 43388374,
                    cosq(6) == 22252093,
                    cosq(7) == 0,
                    UNIT as int == 100_000_000,
                    rc >= 0,
                    w >= 2 * rc,
                    h >= 2 * rc,
            ;
        } else if i == 1 {
            assert(outline_cross(b, 1) <= 0) by (nonlinear_arith)
                requires
                    outline_cross(b, 1) == (exact_x(b, 2) - exact_x(b, 1)) * (exact_y(
                        b,
                        3,
                    ) - exact_y(b, 2)) - (exact_y(b, 2) - exact_y(b, 1)) * (exact_x(
                        b,
                        3,
                    ) - exact_x(b, 2)),
                    exact_x(b, 1) == rc * (UNIT as int - cosq(6)),
                    exact_y(b, 1) == rc * (UNIT as int - cosq(1)),
                    exact_x(b, 2) == rc * (UNIT as int - cosq(5)),
                    exact_y(b, 2) == rc * (UNIT as int - cosq(2)),
                    exact_x(b, 3) == rc * (UNIT as int - cosq(4)),
                    exact_y(b, 3) == rc * (UNIT as int - cosq(3)),
                    cosq(1) == 97492791,
                    cosq(2) == 90096887,
                    cosq(3) == 78183148,
                    cosq(4) == 62348980,
                    cosq(5) == 43388374,
                    cosq(6) == 22252093,
                    UNIT as int == 100_000_000,
                    rc >= 0,
                    w >= 2 * rc,
                    h >= 2 * rc,
            ;
        } else if i == 2 {
            assert(outline_cross(b, 2) <= 0) by (nonlinear_arith)
                requires
                    outline_cross(b, 2) == (exact_x(b, 3) - exact_x(b, 2)) * (exact_y(
                        b,
                        4,
                    ) - exact_y(b, 3)) - (exact_y(b, 3) - exact_y(b, 2)) * (exact_x(
                        b,
                        4,
                    ) - exact_x(b, 3)),
                    exact_x(b, 2) == rc * (UNIT as int - cosq(5)),
                    exact_y(b, 2) == rc * (UNIT as int - cosq(2)),
                    exact_x(b, 3) == rc * (UNIT as int - cosq(4)),
                    exact_y(b, 3) == rc * (UNIT as int - cosq(3)),
                    exact_x(b, 4) == rc * (UNIT as int - cosq(3)),
                    exact_y(b, 4) == rc * (UNIT as int - cosq(4)),
                    cosq(2) == 90096887,
                    cosq(3) == 78183148,
                    cosq(4) == 62348980,
                    cosq(5) == 43388374,
                    UNIT as int == 100_000_000,
                    rc >= 0,
                    w >= 2 * rc,
                    h >= 2 * rc,
            ;
        } else if i == 3 {
            assert(outline_cross(b, 3) <= 0) by (nonlinear_arith)
                requires
                    outline_cross(b, 3) == (exact_x(b, 4) - exact_x(b, 3)) * (exact_y(
                        b,
                        5,
                    ) - exact_y(b, 4)) - (exact_y(b, 4) - exact_y(b, 3)) * (exact_x(
                        b,
                        5,
                    ) - exact_x(b, 4)),
                    exact_x(b, 3) == rc * (UNIT as int - cosq(4)),
                    exact_y(b, 3) == rc * (UNIT as int - cosq(3)),
                    exact_x(b, 4) == rc * (UNIT as int - cosq(3)),
                    exact_y(b, 4) == rc * (UNIT as int - cosq(4)),
                    exact_x(b, 5) == rc * (UNIT as int - cosq(2)),
                    exact_y(b, 5) == rc * (UNIT as int - cosq(5)),
                    cosq(2) == 90096887,
                    cosq(3) == 78183148,
                    cosq(4) == 62348980,
                    cosq(5) == 43388374,
                    UNIT as int == 100_000_000,
                    rc >= 0,
                    w >= 2 * rc,
                    h >= 2 * rc,
            ;
        } else if i == 4 {
            assert(outline_cross(b, 4) <= 0) by (nonlinear_arith)
                requires
                    outline_cross(b, 4) == (exact_x(b, 5) - exact_x(b, 4)) * (exact_y(
                        b,
                        6,
                    ) - exact_y(b, 5)) - (exact_y(b, 5) - exact_y(b, 4)) * (exact_x(
                        b,
                        6,
                    ) - exact_x(b, 5)),
                    exact_x(b, 4) == rc * (UNIT as int - cosq(3)),
                    exact_y(b, 4) == rc * (UNIT as int - cosq(4)),
                    exact_x(b, 5) == rc * (UNIT as int - cosq(2)),
                    exact_y(b, 5) == rc * (UNIT as int - cosq(5)),
                    exact_x(b, 6) == rc * (UNIT as int - cosq(1)),
                    exact_y(b, 6) == rc * (UNIT as int - cosq(6)),
                    cosq(1) == 97492791,
                    cosq(2) == 90096887,
                    cosq(3) == 78183148,
                    cosq(4) == 62348980,
                    cosq(5) == 43388374,
                    cosq(6) == 22252093,
                    UNIT as int == 100_000_000,
                    rc >= 0,
                    w >= 2 * rc,
                    h >= 2 * rc,
            ;
        } else if i == 5 {
            assert(outline_cross(b, 5) <= 0) by (nonlinear_arith)
                requires
                    outline_cross(b, 5) == (exact_x(b, 6) - exact_x(b, 5)) * (exact_y(
                        b,
                        7,
                    ) - exact_y(b, 6)) - (exact_y(b, 6) - exact_y(b, 5)) * (exact_x(
                        b,
                        7,
                    ) - exact_x(b, 6)),
                    exact_x(b, 5) == rc * (UNIT as int - cosq(2)),
                    exact_y(b, 5) == rc * (UNIT as int - cosq(5)),
                    exact_x(b, 6) == rc * (UNIT as int - cosq(1)),
                    exact_y(b, 6) == rc * (UNIT as int - cosq(6)),
                    exact_x(b, 7) == rc * (UNIT as int - cosq(0)),
                    exact_y(b, 7) == rc * (UNIT as int - cosq(7)),
                    cosq(0) == 100000000,
                    cosq(1) == 97492791,
                    cosq(2) == 90096887,
                    cosq(5) == 43388374,
                    cosq(6) == 22252093,
                    cosq(7) == 0,
                    UNIT as int == 100_000_000,
                    rc >= 0,
                    w >= 2 * rc,
                    h >= 2 * rc,
            ;
        } else if i == 6 {
            assert(outline_cross(b, 6) <= 0) by (nonlinear_arith)
                requires
                    outline_cross(b, 6) == (exact_x(b, 7) - exact_x(b, 6)) * (exact_y(
                        b,
                        8,
                    ) - exact_y(b, 7)) - (exact_y(b, 7) - exact_y(b, 6)) * (exact_x(
                        b,
                        8,
                    ) - exact_x(b, 7)),
                    exact_x(b, 6) == rc * (UNIT as int - cosq(1)),
                    exact_y(b, 6) == rc * (UNIT as int - cosq(6)),
                    exact_x(b, 7) == rc * (UNIT as int - cosq(0)),
                    exact_y(b, 7) == rc * (UNIT as int - cosq(7)),
                    exact_x(b, 8) == rc * (UNIT as int - cosq(0)),
                    exact_y(b, 8) == h * (UNIT as int) + rc * (cosq(7) - UNIT as int),
                    cosq(0) == 100000000,
                    cosq(1) == 97492791,
                    cosq(6) == 22252093,
                    cosq(7) == 0,
                    UNIT as int == 100_000_000,
                    rc >= 0,
                    w >= 2 * rc,
                    h >= 2 * rc,
            ;
        } else if i == 7 {
            assert(outline_cross(b, 7) <= 0) by (nonlinear_arith)
                requires
                    outline_cross(b, 7) == (exact_x(b, 8) - exact_x(b, 7)) * (exact_y(
                        b,
                        9,
                    ) - exact_y(b, 8)) - (exact_y(b, 8) - exact_y(b, 7)) * (exact_x(
                        b,
                        9,
                    ) - exact_x(b, 8)),
                    exact_x(b, 7) == rc * (UNIT as int - cosq(0)),
                    exact_y(b, 7) == rc * (UNIT as int - cosq(7)),
                    exact_x(b, 8) == rc * (UNIT as int - cosq(0)),
                    exact_y(b, 8) == h * (UNIT as int) + rc * (cosq(7) - UNIT as int),
                    exact_x(b, 9) == rc * (UNIT as int - cosq(1)),
                    exact_y(b, 9) == h * (UNIT as int) + rc * (cosq(6) - UNIT as int),
                    cosq(0) == 100000000,
                    cosq(1) == 97492791,
                    cosq(6) == 22252093,
                    cosq(7) == 0,
                    UNIT as int == 100_000_000,
                    rc >= 0,
                    w >= 2 * rc,
                    h >= 2 * rc,
            ;
        }
}

proof fn lemma_outline_convex_part2(b: GUIButton, i: int)
    requires
        b.wf(),
        !b.degenerate(),
        8 <= i < 16,
    ensures
        outline_cross(b, i) <= 0,
{
    let w = b.size.width.units as int;
    let h = b.size.height.units as int;
    let rc = b.spec_radius();
    assert(rc >= 0 && 2 * rc <= w && 2 * rc <= h);
        if i == 8 {
            assert(outline_cross(b, 8) <= 0) by (nonlinear_arith)
                requires
                    outline_cross(b, 8) == (exact_x(b, 9) - exact_x(b, 8)) * (exact_y(
                        b,
                        10,
                    ) - exact_y(b, 9)) - (exact_y(b, 9) - exact_y(b, 8)) * (exact_x(
                        b,
                        10,
                    ) - exact_x(b, 9)),
                    exact_x(b, 8) == rc * (UNIT as int - cosq(0)),
                    exact_y(b, 8) == h * (UNIT as int) + rc * (cosq(7) - UNIT as int),
                    exact_x(b, 9) == rc * (UNIT as int - cosq(1)),
                    exact_y(b, 9) == h * (UNIT as int) + rc * (cosq(6) - UNIT as int),
                    exact_x(b, 10) == rc * (UNIT as int - cosq(2)),
                    exact_y(b, 10) == h * (UNIT as int) + rc * (cosq(5) - UNIT as int),
                    cosq(0) == 100000000,
                    cosq(1) == 97492791,
                    cosq(2) == 90096887,
                    cosq(5) == 43388374,
                    cosq(6) == 22252093,
                    cosq(7) == 0,
                    UNIT as int == 100_000_000,
                    rc >= 0,
                    w >= 2 * rc,
                    h >= 2 * rc,
            ;
        } else if i == 9 {
            assert(outline_cross(b, 9) <= 0) by (nonlinear_arith)
                requires
                    outline_cross(b, 9) == (exact_x(b, 10) - exact_x(b, 9)) * (exact_y(
                        b,
                        11,
                    ) - exact_y(b, 10)) - (exact_y(b, 10) - exact_y(b, 9)) * (exact_x(
                        b,
                        11,
                    ) - exact_x(b, 10)),
                    exact_x(b, 9) == rc * (UNIT as int - cosq(1)),
                    exact_y(b, 9) == h * (UNIT as int) + rc * (cosq(6) - UNIT as int),
                    exact_x(b, 10) == rc * (UNIT as int - cosq(2)),
                    exact_y(b, 10) == h * (UNIT as int) + rc * (cosq(5) - UNIT as int),
                    exact_x(b, 11) == rc * (UNIT as int - cosq(3)),
                    exact_y(b, 11) == h * (UNIT as int) + rc * (cosq(4) - UNIT as int),
                    cosq(1) == 97492791,
                    cosq(2) == 90096887,
                    cosq(3) == 78183148,
                    cosq(4) == 62348980,
                    cosq(5) == 43388374,
                    cosq(6) == 22252093,
                    UNIT as int == 100_000_000,
                    rc >= 0,
                    w >= 2 * rc,
                    h >= 2 * rc,
            ;
        } else if i == 10 {
            assert(outline_cross(b, 10) <= 0) by (nonlinear_arith)
                requires
                    outline_cross(b, 10) == (exact_x(b, 11) - exact_x(b, 10)) * (exact_y(
                        b,
                        12,
                    ) - exact_y(b, 11)) - (exact_y(b, 11) - exact_y(b, 10)) * (exact_x(
                        b,
                        12,
                    ) - exact_x(b, 11)),
                    exact_x(b, 10) == rc * (UNIT as int - cosq(2)),
                    exact_y(b, 10) == h * (UNIT as int) + rc * (cosq(5) - UNIT as int),
                    exact_x(b, 11) == rc * (UNIT as int - cosq(3)),
                    exact_y(b, 11) == h * (UNIT as int) + rc * (cosq(4) - UNIT as int),
                    exact_x(b, 12) == rc * (UNIT as int - cosq(4)),
                    exact_y(b, 12) == h * (UNIT as int) + rc * (cosq(3) - UNIT as int),
                    cosq(2) == 90096887,
                    cosq(3) == 78183148,
                    cosq(4) == 62348980,
                    cosq(5) == 43388374,
                    UNIT as int == 100_000_000,
                    rc >= 0,
                    w >= 2 * rc,
                    h >= 2 * rc,
            ;
        } else if i == 11 {
            assert(outline_cross(b, 11) <= 0) by (nonlinear_arith)
                requires
                    outline_cross(b, 11) == (exact_x(b, 12) - exact_x(b, 11)) * (exact_y(
                        b,
                        13,
                    ) - exact_y(b, 12)) - (exact_y(b, 12) - exact_y(b, 11)) * (exact_x(
                        b,
                        13,
                    ) - exact_x(b, 12)),
                    exact_x(b, 11) == rc * (UNIT as int - cosq(3)),
                    exact_y(b, 11) == h * (UNIT as int) + rc * (cosq(4) - UNIT as int),
                    exact_x(b, 12) == rc * (UNIT as int - cosq(4)),
                    exact_y(b, 12) == h * (UNIT as int) + rc * (cosq(3) - UNIT as int),
                    exact_x(b, 13) == rc * (UNIT as int - cosq(5)),
                    exact_y(b, 13) == h * (UNIT as int) + rc * (cosq(2) - UNIT as int),
                    cosq(2) == 90096887,
                    cosq(3) == 78183148,
                    cosq(4) == 62348980,
                    cosq(5) == 43388374,
                    UNIT as int == 100_000_000,
                    rc >= 0,
                    w >= 2 * rc,
                    h >= 2 * rc,
            ;
        } else if i == 12 {
            assert(outline_cross(b, 12) <= 0) by (nonlinear_arith)
                requires
                    outline_cross(b, 12) == (exact_x(b, 13) - exact_x(b, 12)) * (exact_y(
                        b,
                        14,
                    ) - exact_y(b, 13)) - (exact_y(b, 13) - exact_y(b, 12)) * (exact_x(
                        b,
                        14,
                    ) - exact_x(b, 13)),
                    exact_x(b, 12) == rc * (UNIT as int - cosq(4)),
                    exact_y(b, 12) == h * (UNIT as int) + rc * (cosq(3) - UNIT as int),
                    exact_x(b, 13) == rc * (UNIT as int - cosq(5)),
                    exact_y(b, 13) == h * (UNIT as int) + rc * (cosq(2) - UNIT as int),
                    exact_x(b, 14) == rc * (UNIT as int - cosq(6)),
                    exact_y(b, 14) == h * (UNIT as int) + rc * (cosq(1) - UNIT as int),
                    cosq(1) == 97492791,
                    cosq(2) == 90096887,
                    cosq(3) == 78183148,
                    cosq(4) == 62348980,
                    cosq(5) == 43388374,
                    cosq(6) == 22252093,
                    UNIT as int == 100_000_000,
                    rc >= 0,
                    w >= 2 * rc,
                    h >= 2 * rc,
            ;
        } else if i == 13 {
            assert(outline_cross(b, 13) <= 0) by (nonlinear_arith)
                requires
                    outline_cross(b, 13) == (exact_x(b, 14) - exact_x(b, 13)) * (exact_y(
                        b,
                        15,
                    ) - exact_y(b, 14)) - (exact_y(b, 14) - exact_y(b, 13)) * (exact_x(
                        b,
                        15,
                    ) - exact_x(b, 14)),
                    exact_x(b, 13) == rc * (UNIT as int - cosq(5)),
                    exact_y(b, 13) == h * (UNIT as int) + rc * (cosq(2) - UNIT as int),
                    exact_x(b, 14) == rc * (UNIT as int - cosq(6)),
                    exact_y(b, 14) == h * (UNIT as int) + rc * (cosq(1) - UNIT as int),
                    exact_x(b, 15) == rc * (UNIT as int - cosq(7)),
                    exact_y(b, 15) == h * (UNIT as int) + rc * (cosq(0) - UNIT as int),
                    cosq(0) == 100000000,
                    cosq(1) == 97492791,
                    cosq(2) == 90096887,
                    cosq(5) == 43388374,
                    cosq(6) == 22252093,
                    cosq(7) == 0,
                    UNIT as int == 100_000_000,
                    rc >= 0,
                    w >= 2 * rc,
                    h >= 2 * rc,
            ;
        } else if i == 14 {
            assert(outline_cross(b, 14) <= 0) by (nonlinear_arith)
                requires
                    outline_cross(b, 14) == (exact_x(b, 15) - exact_x(b, 14)) * (exact_y(
                        b,
                        16,
                    ) - exact_y(b, 15)) - (exact_y(b, 15) - exact_y(b, 14)) * (exact_x(
                        b,
                        16,
                    ) - exact_x(b, 15)),
                    exact_x(b, 14) == rc * (UNIT as int - cosq(6)),
                    exact_y(b, 14) == h * (UNIT as int) + rc * (cosq(1) - UNIT as int),
                    exact_x(b, 15) == rc * (UNIT as int - cosq(7)),
                    exact_y(b, 15) == h * (UNIT as int) + rc * (cosq(0) - UNIT as int),
                    exact_x(b, 16) == w * (UNIT as int) + rc * (cosq(7) - UNIT as int),
                    exact_y(b, 16) == h * (UNIT as int) + rc * (cosq(0) - UNIT as int),
                    cosq(0) == 100000000,
                    cosq(1) == 97492791,
                    cosq(6) == 22252093,
                    cosq(7) == 0,
                    UNIT as int == 100_000_000,
                    rc >= 0,
                    w >= 2 * rc,
                    h >= 2 * rc,
            ;
        } else if i == 15 {
            assert(outline_cross(b, 15) <= 0) by (nonlinear_arith)
                requires
                    outline_cross(b, 15) == (exact_x(b, 16) - exact_x(b, 15)) * (exact_y(
                        b,
                        17,
                    ) - exact_y(b, 16)) - (exact_y(b, 16) - exact_y(b, 15)) * (exact_x(
                        b,
                        17,
                    ) - exact_x(b, 16)),
                    exact_x(b, 15) == rc * (UNIT as int - cosq(7)),
                    exact_y(b, 15) == h * (UNIT as int) + rc * (cosq(0) - UNIT as int),
                    exact_x(b, 16) == w * (UNIT as int) + rc * (cosq(7) - UNIT as int),
                    exact_y(b, 16) == h * (UNIT as int) + rc * (cosq(0) - UNIT as int),
                    exact_x(b, 17) == w * (UNIT as int) + rc * (cosq(6) - UNIT as int),
                    exact_y(b, 17) == h * (UNIT as int) + rc * (cosq(1) - UNIT as int),
                    cosq(0) == 100000000,
                    cosq(1) == 97492791,
                    cosq(6) == 22252093,
                    cosq(7) == 0,
                    UNIT as int == 100_000_000,
                    rc >= 0,
                    w >= 2 * rc,
                    h >= 2 * rc,
            ;
        }
}

proof fn lemma_outline_convex_part3(b: GUIButton, i: int)
    requires
        b.wf(),
        !b.degenerate(),
        16 <= i < 24,
    ensures
        outline_cross(b, i) <= 0,
{
    let w = b.size.width.units as int;
    let h = b.size.height.units as int;
    let rc = b.spec_radius();
    assert(rc >= 0 && 2 * rc <= w && 2 * rc <= h);
        if i == 16 {
            assert(outline_cross(b, 16) <= 0) by (nonlinear_arith)
                requires
                    outline_cross(b, 16) == (exact_x(b, 17) - exact_x(b, 16)) * (exact_y(
                        b,
                        18,
                    ) - exact_y(b, 17)) - (exact_y(b, 17) - exact_y(b, 16)) * (exact_x(
                        b,
                        18,
                    ) - exact_x(b, 17)),
                    exact_x(b, 16) == w * (UNIT as int) + rc * (cosq(7) - UNIT as int),
                    exact_y(b, 16) == h * (UNIT as int) + rc * (cosq(0) - UNIT as int),
                    exact_x(b, 17) == w * (UNIT as int) + rc * (cosq(6) - UNIT as int),
                    exact_y(b, 17) == h * (UNIT as int) + rc * (cosq(1) - UNIT as int),
                    exact_x(b, 18) == w * (UNIT as int) + rc * (cosq(5) - UNIT as int),
                    exact_y(b, 18) == h * (UNIT as int) + rc * (cosq(2) - UNIT as int),
                    cosq(0) == 100000000,
                    cosq(1) == 97492791,
                    cosq(2) == 90096887,
                    cosq(5) == 43388374,
                    cosq(6) == 22252093,
                    cosq(7) == 0,
                    UNIT as int == 100_000_000,
                    rc >= 0,
                    w >= 2 * rc,
                    h >= 2 * rc,
            ;
        } else if i == 17 {
            assert(outline_cross(b, 17) <= 0) by (nonlinear_arith)
                requires
                    outline_cross(b, 17) == (exact_x(b, 18) - exact_x(b, 17)) * (exact_y(
                        b,
                        19,
                    ) - exact_y(b, 18)) - (exact_y(b, 18) - exact_y(b, 17)) * (exact_x(
                        b,
                        19,
                    ) - exact_x(b, 18)),
                    exact_x(b, 17) == w * (UNIT as int) + rc * (cosq(6) - UNIT as int),
                    exact_y(b, 17) == h * (UNIT as int) + rc * (cosq(1) - UNIT as int),
                    exact_x(b, 18) == w * (UNIT as int) + rc * (cosq(5) - UNIT as int),
                    exact_y(b, 18) == h * (UNIT as int) + rc * (cosq(2) - UNIT as int),
                    exact_x(b, 19) == w * (UNIT as int) + rc * (cosq(4) - UNIT as int),
                    exact_y(b, 19) == h * (UNIT as int) + rc * (cosq(3) - UNIT as int),
                    cosq(1) == 97492791,
                    cosq(2) == 90096887,
                    cosq(3) == 78183148,
                    cosq(4) == 62348980,
                    cosq(5) == 43388374,
                    cosq(6) == 22252093,
                    UNIT as int == 100_000_000,
                    rc >= 0,
                    w >= 2 * rc,
                    h >= 2 * rc,
            ;
        } else if i == 18 {
            assert(outline_cross(b, 18) <= 0) by (nonlinear_arith)
                requires
                    outline_cross(b, 18) == (exact_x(b, 19) - exact_x(b, 18)) * (exact_y(
                        b,
                        20,
                    ) - exact_y(b, 19)) - (exact_y(b, 19) - exact_y(b, 18)) * (exact_x(
                        b,
                        20,
                    ) - exact_x(b, 19)),
                    exact_x(b, 18) == w * (UNIT as int) + rc * (cosq(5) - UNIT as int),
                    exact_y(b, 18) == h * (UNIT as int) + rc * (cosq(2) - UNIT as int),
                    exact_x(b, 19) == w * (UNIT as int) + rc * (cosq(4) - UNIT as int),
                    exact_y(b, 19) == h * (UNIT as int) + rc * (cosq(3) - UNIT as int),
                    exact_x(b, 20) == w * (UNIT as int) + rc * (cosq(3) - UNIT as int),
                    exact_y(b, 20) == h * (UNIT as int) + rc * (cosq(4) - UNIT as int),
                    cosq(2) == 90096887,
                    cosq(3) == 78183148,
                    cosq(4) == 62348980,
                    cosq(5) == 43388374,
                    UNIT as int == 100_000_000,
                    rc >= 0,
                    w >= 2 * rc,
                    h >= 2 * rc,
            ;
        } else if i == 19 {
            assert(outline_cross(b, 19) <= 0) by (nonlinear_arith)
                requires
                    outline_cross(b, 19) == (exact_x(b, 20) - exact_x(b, 19)) * (exact_y(
                        b,
                        21,
                    ) - exact_y(b, 20)) - (exact_y(b, 20) - exact_y(b, 19)) * (exact_x(
                        b,
                        21,
                    ) - exact_x(b, 20)),
                    exact_x(b, 19) == w * (UNIT as int) + rc * (cosq(4) - UNIT as int),
                    exact_y(b, 19) == h * (UNIT as int) + rc * (cosq(3) - UNIT as int),
                    exact_x(b, 20) == w * (UNIT as int) + rc * (cosq(3) - UNIT as int),
                    exact_y(b, 20) == h * (UNIT as int) + rc * (cosq(4) - UNIT as int),
                    exact_x(b, 21) == w * (UNIT as int) + rc * (cosq(2) - UNIT as int),
                    exact_y(b, 21) == h * (UNIT as int) + rc * (cosq(5) - UNIT as int),
                    cosq(2) == 90096887,
                    cosq(3) == 78183148,
                    cosq(4) == 62348980,
                    cosq(5) == 43388374,
                    UNIT as int == 100_000_000,
                    rc >= 0,
                    w >= 2 * rc,
                    h >= 2 * rc,
            ;
        } else if i == 20 {
            assert(outline_cross(b, 20) <= 0) by (nonlinear_arith)
                requires
                    outline_cross(b, 20) == (exact_x(b, 21) - exact_x(b, 20)) * (exact_y(
                        b,
                        22,
                    ) - exact_y(b, 21)) - (exact_y(b, 21) - exact_y(b, 20)) * (exact_x(
                        b,
                        22,
                    ) - exact_x(b, 21)),
                    exact_x(b, 20) == w * (UNIT as int) + rc * (cosq(3) - UNIT as int),
                    exact_y(b, 20) == h * (UNIT as int) + rc * (cosq(4) - UNIT as int),
                    exact_x(b, 21) == w * (UNIT as int) + rc * (cosq(2) - UNIT as int),
                    exact_y(b, 21) == h * (UNIT as int) + rc * (cosq(5) - UNIT as int),
                    exact_x(b, 22) == w * (UNIT as int) + rc * (cosq(1) - UNIT as int),
                    exact_y(b, 22) == h * (UNIT as int) + rc * (cosq(6) - UNIT as int),
                    cosq(1) == 97492791,
                    cosq(2) == 90096887,
                    cosq(3) == 78183148,
                    cosq(4) == 62348980,
                    cosq(5) == 43388374,
                    cosq(6) == 22252093,
                    UNIT as int == 100_000_000,
                    rc >= 0,
                    w >= 2 * rc,
                    h >= 2 * rc,
            ;
        } else if i == 21 {
            assert(outline_cross(b, 21) <= 0) by (nonlinear_arith)
                requires
                    outline_cross(b, 21) == (exact_x(b, 22) - exact_x(b, 21)) * (exact_y(
                        b,
                        23,
                    ) - exact_y(b, 22)) - (exact_y(b, 22) - exact_y(b, 21)) * (exact_x(
                        b,
                        23,
                    ) - exact_x(b, 22)),
                    exact_x(b, 21) == w * (UNIT as int) + rc * (cosq(2) - UNIT as int),
                    exact_y(b, 21) == h * (UNIT as int) + rc * (cosq(5) - UNIT as int),
                    exact_x(b, 22) == w * (UNIT as int) + rc * (cosq(1) - UNIT as int),
                    exact_y(b, 22) == h * (UNIT as int) + rc * (cosq(6) - UNIT as int),
                    exact_x(b, 23) == w * (UNIT as int) + rc * (cosq(0) - UNIT as int),
                    exact_y(b, 23) == h * (UNIT as int) + rc * (cosq(7) - UNIT as int),
                    cosq(0) == 100000000,
                    cosq(1) == 97492791,
                    cosq(2) == 90096887,
                    cosq(5) == 43388374,
                    cosq(6) == 22252093,
                    cosq(7) == 0,
                    UNIT as int == 100_000_000,
                    rc >= 0,
                    w >= 2 * rc,
                    h >= 2 * rc,
            ;
        } else if i == 22 {
            assert(outline_cross(b, 22) <= 0) by (nonlinear_arith)
                requires
                    outline_cross(b, 22) == (exact_x(b, 23) - exact_x(b, 22)) * (exact_y(
                        b,
                        24,
                    ) - exact_y(b, 23)) - (exact_y(b, 23) - exact_y(b, 22)) * (exact_x(
                        b,
                        24,
                    ) - exact_x(b, 23)),
                    exact_x(b, 22) == w * (UNIT as int) + rc * (cosq(1) - UNIT as int),
                    exact_y(b, 22) == h * (UNIT as int) + rc * (cosq(6) - UNIT as int),
                    exact_x(b, 23) == w * (UNIT as int) + rc * (cosq(0) - UNIT as int),
                    exact_y(b, 23) == h * (UNIT as int) + rc * (cosq(7) - UNIT as int),
                    exact_x(b, 24) == w * (UNIT as int) + rc * (cosq(0) - UNIT as int),
                    exact_y(b, 24) == rc * (UNIT as int - cosq(7)),
                    cosq(0) == 100000000,
                    cosq(1) == 97492791,
                    cosq(6) == 22252093,
                    cosq(7) == 0,
                    UNIT as int == 100_000_000,
                    rc >= 0,
                    w >= 2 * rc,
                    h >= 2 * rc,
            ;
        } else if i == 23 {
            assert(outline_cross(b, 23) <= 0) by (nonlinear_arith)
                requires
                    outline_cross(b, 23) == (exact_x(b, 24) - exact_x(b, 23)) * (exact_y(
                        b,
                        25,
                    ) - exact_y(b, 24)) - (exact_y(b, 24) - exact_y(b, 23)) * (exact_x(
                        b,
                        25,
                    ) - exact_x(b, 24)),
                    exact_x(b, 23) == w * (UNIT as int) + rc * (cosq(0) - UNIT as int),
                    exact_y(b, 23) == h * (UNIT as int) + rc * (cosq(7) - UNIT as int),
                    exact_x(b, 24) == w * (UNIT as int) + rc * (cosq(0) - UNIT as int),
                    exact_y(b, 24) == rc * (UNIT as int - cosq(7)),
                    exact_x(b, 25) == w * (UNIT as int) + rc * (cosq(1) - UNIT as int),
                    exact_y(b, 25) == rc * (UNIT as int - cosq(6)),
                    cosq(0) == 100000000,
                    cosq(1) == 97492791,
                    cosq(6) == 22252093,
                    cosq(7) == 0,
                    UNIT as int == 100_000_000,
                    rc >= 0,
                    w >= 2 * rc,
                    h >= 2 * rc,
            ;
        }
}

proof fn lemma_outline_convex_part4(b: GUIButton, i: int)
    requires
        b.wf(),
        !b.degenerate(),
        24 <= i < 32,
    ensures
        outline_cross(b, i) <= 0,
{
    let w = b.size.width.units as int;
    let h = b.size.height.units as int;
    let rc = b.spec_radius();
    assert(rc >= 0 && 2 * rc <= w && 2 * rc <= h);
        if i == 24 {
            assert(outline_cross(b, 24) <= 0) by (nonlinear_arith)
                requires
                    outline_cross(b, 24) == (exact_x(b, 25) - exact_x(b, 24)) * (exact_y(
                        b,
                        26,
                    ) - exact_y(b, 25)) - (exact_y(b, 25) - exact_y(b, 24)) * (exact_x(
                        b,
                        26,
                    ) - exact_x(b, 25)),
                    exact_x(b, 24) == w * (UNIT as int) + rc * (cosq(0) - UNIT as int),
                    exact_y(b, 24) == rc * (UNIT as int - cosq(7)),
                    exact_x(b, 25) == w * (UNIT as int) + rc * (cosq(1) - UNIT as int),
                    exact_y(b, 25) == rc * (UNIT as int - cosq(6)),
                    exact_x(b, 26) == w * (UNIT as int) + rc * (cosq(2) - UNIT as int),
                    exact_y(b, 26) == rc * (UNIT as int - cosq(5)),
                    cosq(0) == 100000000,
                    cosq(1) == 97492791,
                    cosq(2) == 90096887,
                    cosq(5) == 43388374,
                    cosq(6) == 22252093,
                    cosq(7) == 0,
                    UNIT as int == 100_000_000,
                    rc >= 0,
                    w >= 2 * rc,
                    h >= 2 * rc,
            ;
        } else if i == 25 {
            assert(outline_cross(b, 25) <= 0) by (nonlinear_arith)
                requires
                    outline_cross(b, 25) == (exact_x(b, 26) - exact_x(b, 25)) * (exact_y(
                        b,
                        27,
                    ) - exact_y(b, 26)) - (exact_y(b, 26) - exact_y(b, 25)) * (exact_x(
                        b,
                        27,
                    ) - exact_x(b, 26)),
                    exact_x(b, 25) == w * (UNIT as int) + rc * (cosq(1) - UNIT as int),
                    exact_y(b, 25) == rc * (UNIT as int - cosq(6)),
                    exact_x(b, 26) == w * (UNIT as int) + rc * (cosq(2) - UNIT as int),
                    exact_y(b, 26) == rc * (UNIT as int - cosq(5)),
                    exact_x(b, 27) == w * (UNIT as int) + rc * (cosq(3) - UNIT as int),
                    exact_y(b, 27) == rc * (UNIT as int - cosq(4)),
                    cosq(1) == 97492791,
                    cosq(2) == 90096887,
                    cosq(3) == 78183148,
                    cosq(4) == 62348980,
                    cosq(5) == 43388374,
                    cosq(6) == 22252093,
                    UNIT as int == 100_000_000,
                    rc >= 0,
                    w >= 2 * rc,
                    h >= 2 * rc,
            ;
        } else if i == 26 {
            assert(outline_cross(b, 26) <= 0) by (nonlinear_arith)
                requires
                    outline_cross(b, 26) == (exact_x(b, 27) - exact_x(b, 26)) * (exact_y(
                        b,
                        28,
                    ) - exact_y(b, 27)) - (exact_y(b, 27) - exact_y(b, 26)) * (exact_x(
                        b,
                        28,
                    ) - exact_x(b, 27)),
                    exact_x(b, 26) == w * (UNIT as int) + rc * (cosq(2) - UNIT as int),
                    exact_y(b, 26) == rc * (UNIT as int - cosq(5)),
                    exact_x(b, 27) == w * (UNIT as int) + rc * (cosq(3) - UNIT as int),
                    exact_y(b, 27) == rc * (UNIT as int - cosq(4)),
                    exact_x(b, 28) == w * (UNIT as int) + rc * (cosq(4) - UNIT as int),
                    exact_y(b, 28) == rc * (UNIT as int - cosq(3)),
                    cosq(2) == 90096887,
                    cosq(3) == 78183148,
                    cosq(4) == 62348980,
                    cosq(5) == 43388374,
                    UNIT as int == 100_000_000,
                    rc >= 0,
                    w >= 2 * rc,
                    h >= 2 * rc,
            ;
        } else if i == 27 {
            assert(outline_cross(b, 27) <= 0) by (nonlinear_arith)
                requires
                    outline_cross(b, 27) == (exact_x(b, 28) - exact_x(b, 27)) * (exact_y(
                        b,
                        29,
                    ) - exact_y(b, 28)) - (exact_y(b, 28) - exact_y(b, 27)) * (exact_x(
                        b,
                        29,
                    ) - exact_x(b, 28)),
                    exact_x(b, 27) == w * (UNIT as int) + rc * (cosq(3) - UNIT as int),
                    exact_y(b, 27) == rc * (UNIT as int - cosq(4)),
                    exact_x(b, 28) == w * (UNIT as int) + rc * (cosq(4) - UNIT as int),
                    exact_y(b, 28) == rc * (UNIT as int - cosq(3)),
                    exact_x(b, 29) == w * (UNIT as int) + rc * (cosq(5) - UNIT as int),
                    exact_y(b, 29) == rc * (UNIT as int - cosq(2)),
                    cosq(2) == 90096887,
                    cosq(3) == 78183148,
                    cosq(4) == 62348980,
                    cosq(5) == 43388374,
                    UNIT as int == 100_000_000,
                    rc >= 0,
                    w >= 2 * rc,
                    h >= 2 * rc,
            ;
        } else if i == 28 {
            assert(outline_cross(b, 28) <= 0) by (nonlinear_arith)
                requires
                    outline_cross(b, 28) == (exact_x(b, 29) - exact_x(b, 28)) * (exact_y(
                        b,
                        30,
                    ) - exact_y(b, 29)) - (exact_y(b, 29) - exact_y(b, 28)) * (exact_x(
                        b,
                        30,
                    ) - exact_x(b, 29)),
                    exact_x(b, 28) == w * (UNIT as int) + rc * (cosq(4) - UNIT as int),
                    exact_y(b, 28) == rc * (UNIT as int - cosq(3)),
                    exact_x(b, 29) == w * (UNIT as int) + rc * (cosq(5) - UNIT as int),
                    exact_y(b, 29) == rc * (UNIT as int - cosq(2)),
                    exact_x(b, 30) == w * (UNIT as int) + rc * (cosq(6) - UNIT as int),
                    exact_y(b, 30) == rc * (UNIT as int - cosq(1)),
                    cosq(1) == 97492791,
                    cosq(2) == 90096887,
                    cosq(3) == 78183148,
                    cosq(4) == 62348980,
                    cosq(5) == 43388374,
                    cosq(6) == 22252093,
                    UNIT as int == 100_000_000,
                    rc >= 0,
                    w >= 2 * rc,
                    h >= 2 * rc,
            ;
        } else if i == 29 {
            assert(outline_cross(b, 29) <= 0) by (nonlinear_arith)
                requires
                    outline_cross(b, 29) == (exact_x(b, 30) - exact_x(b, 29)) * (exact_y(
                        b,
                        31,
                    ) - exact_y(b, 30)) - (exact_y(b, 30) - exact_y(b, 29)) * (exact_x(
                        b,
                        31,
                    ) - exact_x(b, 30)),
                    exact_x(b, 29) == w * (UNIT as int) + rc * (cosq(5) - UNIT as int),
                    exact_y(b, 29) == rc * (UNIT as int - cosq(2)),
                    exact_x(b, 30) == w * (UNIT as int) + rc * (cosq(6) - UNIT as int),
                    exact_y(b, 30) == rc * (UNIT as int - cosq(1)),
                    exact_x(b, 31) == w * (UNIT as int) + rc * (cosq(7) - UNIT as int),
                    exact_y(b, 31) == rc * (UNIT as int - cosq(0)),
                    cosq(0) == 100000000,
                    cosq(1) == 97492791,
                    cosq(2) == 90096887,
                    cosq(5) == 43388374,
                    cosq(6) == 22252093,
                    cosq(7) == 0,
                    UNIT as int == 100_000_000,
                    rc >= 0,
                    w >= 2 * rc,
                    h >= 2 * rc,
            ;
        } else if i == 30 {
            assert(outline_cross(b, 30) <= 0) by (nonlinear_arith)
                requires
                    outline_cross(b, 30) == (exact_x(b, 31) - exact_x(b, 30)) * (exact_y(
                        b,
                        0,
                    ) - exact_y(b, 31)) - (exact_y(b, 31) - exact_y(b, 30)) * (exact_x(
                        b,
                        0,
                    ) - exact_x(b, 31)),
                    exact_x(b, 30) == w * (UNIT as int) + rc * (cosq(6) - UNIT as int),
                    exact_y(b, 30) == rc * (UNIT as int - cosq(1)),
                    exact_x(b, 31) == w * (UNIT as int) + rc * (cosq(7) - UNIT as int),
                    exact_y(b, 31) == rc * (UNIT as int - cosq(0)),
                    exact_x(b, 0) == rc * (UNIT as int - cosq(7)),
                    exact_y(b, 0) == rc * (UNIT as int - cosq(0)),
                    cosq(0) == 100000000,
                    cosq(1) == 97492791,
                    cosq(6) == 22252093,
                    cosq(7) == 0,
                    UNIT as int == 100_000_000,
                    rc >= 0,
                    w >= 2 * rc,
                    h >= 2 * rc,
            ;
        } else if i == 31 {
            assert(outline_cross(b, 31) <= 0) by (nonlinear_arith)
                requires
                    outline_cross(b, 31) == (exact_x(b, 0) - exact_x(b, 31)) * (exact_y(
                        b,
                        1,
                    ) - exact_y(b, 0)) - (exact_y(b, 0) - exact_y(b, 31)) * (exact_x(
                        b,
                        1,
                    ) - exact_x(b, 0)),
                    exact_x(b, 31) == w * (UNIT as int) + rc * (cosq(7) - UNIT as int),
                    exact_y(b, 31) == rc * (UNIT as int - cosq(0)),
                    exact_x(b, 0) == rc * (UNIT as int - cosq(7)),
                    exact_y(b, 0) == rc * (UNIT as int - cosq(0)),
                    exact_x(b, 1) == rc * (UNIT as int - cosq(6)),
                    exact_y(b, 1) == rc * (UNIT as int - cosq(1)),
                    cosq(0) == 100000000,
                    cosq(1) == 97492791,
                    cosq(6) == 22252093,
                    cosq(7) == 0,
                    UNIT as int == 100_000_000,
                    rc >= 0,
                    w >= 2 * rc,
                    h >= 2 * rc,
            ;
        }
}

/// Convex fan validity: with the corner radius clamped to at most half the
/// shorter side, every consecutive edge pair of the exact outline turns the
/// same way (no cross product is positive), so the closed outline is convex;
/// a convex ring is simple (non-self-intersecting) and fan-triangulable from
/// vertex 0, which is how the button triangulates it.
pub proof fn lemma_button_outline_convex(b: GUIButton)
    requires
        b.wf(),
        !b.degenerate(),
    ensures
        forall|i: int| 0 <= i < 32 ==> outline_cross(b, i) <= 0,
{
    assert forall|i: int| 0 <= i < 32 implies outline_cross(b, i) <= 0 by {
        if i < 8 {
            lemma_outline_convex_part1(b, i);
        } else if i < 16 {
            lemma_outline_convex_part2(b, i);
        } else if i < 24 {
            lemma_outline_convex_part3(b, i);
        } else {
            lemma_outline_convex_part4(b, i);
        }
    }
}

} // verus!
