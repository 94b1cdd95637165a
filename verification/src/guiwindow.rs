//! The window widget: the root container. It has a size and a background
//! color but emits no geometry of its own.

use vstd::prelude::*;
use crate::guicolor::GUIColor;
use crate::guiposition::GUILength;
use crate::guiposition::GUIPosition;
use crate::guiposition::GUISize;
use crate::guiposition::UNIT;
use crate::guitraits::Parent;
use crate::guitraits::Widget;
use crate::identity::fresh_id;
use crate::vertices::LogicalVertex;
use crate::vertices::Polygon;

verus! {

#[derive(Debug)]
pub struct GUIWindow {
    /// The title of the window.
    pub title: &'static str,
    /// The size of the window.
    pub size: GUISize,
    /// The minimum size of the window.
    pub min_size: GUISize,
    /// The background color for the window.
    pub background_color: GUIColor,
    pub id: u128,
}

impl Widget for GUIWindow {
    open spec fn spec_id(&self) -> u128 {
        self.id
    }

    open spec fn spec_size(&self) -> GUISize {
        self.size
    }

    /// The root window is always the origin of device space.
    open spec fn spec_position(&self) -> GUIPosition {
        GUIPosition { x: GUILength { units: 0 }, y: GUILength { units: 0 } }
    }

    open spec fn wf(&self) -> bool {
        self.size.bounded() && self.min_size.bounded()
    }

    open spec fn vertex_count(&self) -> int {
        0
    }

    /// A window paints only its background (cleared by the renderer), so its
    /// geometry is empty and its polygon record is never rendered.
    open spec fn tess_spec(&self, parent: GUIPosition, offset: u16) -> (Seq<LogicalVertex>, Seq<
        u16,
    >, Polygon) {
        (
            Seq::empty(),
            Seq::empty(),
            Polygon {
                start_index: 0,
                end_index: 0,
                widget_id: self.id,
                convex: true,
                rendered: false,
            },
        )
    }

    fn get_size(&self) -> (r: &GUISize) {
        &self.size
    }

    fn get_position(&self) -> (r: GUIPosition) {
        GUIPosition { x: GUILength { units: 0 }, y: GUILength { units: 0 } }
    }

    fn get_id(&self) -> (r: u128) {
        self.id
    }

    fn get_vertices_and_indices(&self, parent_position: &GUIPosition, indice_offset: u16) -> (r: (
        Vec<LogicalVertex>,
        Vec<u16>,
        Polygon,
    )) {
        let mut polygon = Polygon::default();
        polygon.widget_id = self.id;
        proof {
            assert(self.tess_spec(*parent_position, indice_offset).0 =~= Seq::<
                LogicalVertex,
            >::empty());
            assert(self.tess_spec(*parent_position, indice_offset).1 =~= Seq::<u16>::empty());
        }
        (Vec::new(), Vec::new(), polygon)
    }
}

impl Parent for GUIWindow {

}

impl GUIWindow {
    /// The window's size and minimum size in whole physical pixels at scale
    /// `scale`; the platform layer hands these to the windowing system.
    pub fn physical_bounds(&self, scale: &crate::guiposition::GUIScale) -> (r: (i64, i64, i64, i64))
        requires
            self.wf(),
            scale.wf(),
        ensures
            r.0 as int == crate::guiposition::phys_of(self.size.width.units as int, scale.units as int),
            r.1 as int == crate::guiposition::phys_of(self.size.height.units as int, scale.units as int),
            r.2 as int == crate::guiposition::phys_of(self.min_size.width.units as int, scale.units as int),
            r.3 as int == crate::guiposition::phys_of(self.min_size.height.units as int, scale.units as int),
    {
        (
            self.size.width.get_physical_length(scale),
            self.size.height.get_physical_length(scale),
            self.min_size.width.get_physical_length(scale),
            self.min_size.height.get_physical_length(scale),
        )
    }
}

impl Default for GUIWindow {
    /// A window with all of the default values and a fresh id (a version-4
    /// identifier; distinctness from earlier ids is statistical and is
    /// required, not assumed, where the arena inserts).
    fn default() -> (r: Self)
        ensures
            r.title@ == "Form1"@,
            r.size.width.units == 500 * UNIT,
            r.size.height.units == 500 * UNIT,
            r.min_size.width.units == 100 * UNIT,
            r.min_size.height.units == 100 * UNIT,
            r.background_color == (GUIColor {
                r: 40_000_000,
                g: 40_000_000,
                b: 40_000_000,
                a: 100_000_000,
            }),
            r.id & 0xF0000000000000000000 == 0x40000000000000000000,
            r.id != 0,
            r.wf(),
    {
        GUIWindow {
            title: "Form1",
            size: GUISize {
                width: GUILength { units: 500 * UNIT },
                height: GUILength { units: 500 * UNIT },
            },
            min_size: GUISize {
                width: GUILength { units: 100 * UNIT },
                height: GUILength { units: 100 * UNIT },
            },
            background_color: GUIColor {
                r: 40_000_000,
                g: 40_000_000,
                b: 40_000_000,
                a: 100_000_000,
            },
            id: fresh_id(),
        }
    }
}

} // verus!
