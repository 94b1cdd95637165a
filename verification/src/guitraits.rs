//! The capability every widget kind implements: report identity, size and
//! position, and emit tessellated geometry anchored to a parent position.

use vstd::prelude::*;
use crate::guiposition::GUIPosition;
use crate::guiposition::GUISize;
use crate::vertices::LogicalVertex;
use crate::vertices::Polygon;

verus! {

/// Indices are emitted as `u16`, so one tessellation pass can address at most
/// this many vertices.
pub const MAX_VERTEX_INDEX: u16 = 65_535;

pub trait Widget: Sized {
    /// The widget's identity, stable for its whole life.
    spec fn spec_id(&self) -> u128;

    /// The widget's logical footprint.
    spec fn spec_size(&self) -> GUISize;

    /// The widget's logical anchor within its parent's frame.
    spec fn spec_position(&self) -> GUIPosition;

    /// Attribute bounds under which tessellation arithmetic is exact.
    spec fn wf(&self) -> bool;

    /// How many vertices `get_vertices_and_indices` emits.
    spec fn vertex_count(&self) -> int;

    /// The exact geometry emitted for a parent anchor and an index offset:
    /// vertices, absolute triangle indices, and the widget's polygon record.
    spec fn tess_spec(&self, parent: GUIPosition, offset: u16) -> (Seq<LogicalVertex>, Seq<
        u16,
    >, Polygon);

    fn get_size(&self) -> (r: &GUISize)
        ensures
            *r == self.spec_size(),
    ;

    fn get_position(&self) -> (r: GUIPosition)
        ensures
            r == self.spec_position(),
    ;

    fn get_id(&self) -> (r: u128)
        ensures
            r == self.spec_id(),
    ;

    /// Tessellate this widget anchored at `parent_position`, numbering
    /// vertices from `indice_offset` so outputs of several widgets can be
    /// concatenated without renumbering.
    fn get_vertices_and_indices(&self, parent_position: &GUIPosition, indice_offset: u16) -> (r: (
        Vec<LogicalVertex>,
        Vec<u16>,
        Polygon,
    ))
        requires
            self.wf(),
            parent_position.bounded(),
            indice_offset as int + self.vertex_count() <= MAX_VERTEX_INDEX as int,
        ensures
            (r.0@, r.1@, r.2) == self.tess_spec(*parent_position, indice_offset),
    ;
}

/// Widget kinds that may own child widgets.
pub trait Parent: Widget {

}

} // verus!
