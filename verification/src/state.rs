//! The per-run core state: the arena, the geometry of the last tessellation
//! pass, the cursor, and the press/release click latch that turns two
//! pointer-button events into a single "clicked" notification.

use vstd::prelude::*;
use crate::guibase::GUIBase;
use crate::guiposition::GUIPosition;
use crate::guiposition::GUISize;
use crate::guiposition::phys_of;
use crate::guiwindow::GUIWindow;
use crate::guitraits::MAX_VERTEX_INDEX;
use crate::processing_utils::hit_spec;
use crate::processing_utils::get_clicked_widget;
use crate::processing_utils::make_vertices_and_indices;
use crate::processing_utils::spec_pipeline;
use crate::processing_utils::tess_ok;
use crate::vertices::LogicalVertex;
use crate::vertices::Polygon;
use crate::vertices::MIN_WINDOW_EXTENT;
use crate::vertices::Vertex;

verus! {

/// The pointer button named by a pointer-button event. Only the primary
/// (left) button drives the click latch.
#[derive(Clone, Copy, Debug, PartialEq, Eq, Structural)]
pub enum MouseButton {
    Left,
    Right,
    Middle,
    Other(u16),
}

/// One step of the click latch. The latch is `None` when idle and `Some(a)`
/// when a press began over widget `a`. A press arms the latch with whatever
/// the hit test found; a release clicks exactly when the hit matches the
/// armed widget, and always disarms. Returns the new latch and the click.
pub open spec fn latch_step(latch: Option<u128>, hit: Option<u128>, pressed: bool) -> (Option<
    u128,
>, Option<u128>) {
    if pressed {
        (hit, None)
    } else {
        match latch {
            Some(a) => match hit {
                Some(b) => if a == b {
                    (None, Some(a))
                } else {
                    (None, None)
                },
                None => (None, None),
            },
            None => (None, None),
        }
    }
}

/// Click latch law: a press over a widget arms the latch and emits nothing;
/// releasing over the same widget emits exactly one click for it; releasing
/// over a different widget, or off every widget, or without a prior press,
/// emits nothing and leaves the latch idle.
pub proof fn lemma_click_latch(a: u128, b: u128)
    ensures
        latch_step(None, Some(a), true) == (Some(a), None::<u128>),
        latch_step(Some(a), Some(a), false) == (None::<u128>, Some(a)),
        a != b ==> latch_step(Some(a), Some(b), false) == (None::<u128>, None::<u128>),
        latch_step(Some(a), None, false) == (None::<u128>, None::<u128>),
        latch_step(None, Some(a), false) == (None::<u128>, None::<u128>),
        latch_step(None, None, true) == (None::<u128>, None::<u128>),
        latch_step(None, None, false) == (None::<u128>, None::<u128>),
{
}

pub struct State {
    /// The widget arena this state draws and hit-tests.
    pub guibase: GUIBase,
    /// The logical-space vertices of the last tessellation pass.
    pub logical_vertices: Vec<LogicalVertex>,
    /// The triangle indices of the last tessellation pass.
    pub indices: Vec<u16>,
    /// The polygon records of the last tessellation pass, in paint order.
    pub polygons: Vec<Polygon>,
    /// The cursor, in logical units, as of the last pointer-move event.
    pub curser_position: GUIPosition,
    /// The click latch: the widget a press began over, if any.
    pub clicked_widget_id: Option<u128>,
}

impl State {
    /// The stored geometry supports hit-testing and the cursor is in range.
    pub open spec fn wf(&self) -> bool {
        &&& tess_ok(self.logical_vertices@, self.indices@, self.polygons@, 0)
        &&& self.curser_position.bounded()
    }

    /// Build the core state: tessellate the arena once and start with the
    /// cursor at the origin and the latch idle.
    pub fn new(guibase: GUIBase) -> (r: State)
        requires
            guibase.wf(),
            spec_pipeline(guibase).0.len() <= MAX_VERTEX_INDEX as int,
        ensures
            r.wf(),
            r.guibase == guibase,
            (r.logical_vertices@, r.indices@, r.polygons@) == spec_pipeline(guibase),
            r.curser_position.x.units == 0,
            r.curser_position.y.units == 0,
            r.clicked_widget_id is None,
    {
        let (logical_vertices, indices, polygons) = make_vertices_and_indices(&guibase);
        State {
            guibase,
            logical_vertices,
            indices,
            polygons,
            curser_position: GUIPosition::default(),
            clicked_widget_id: None,
        }
    }

    /// Resize the base window and report the new physical framebuffer size
    /// for the platform layer to configure its surface with.
    pub fn resize(&mut self, new_size: GUISize) -> (r: (i64, i64))
        requires
            old(self).wf(),
            old(self).guibase.wf(),
            old(self).guibase.windows@.len() > 0,
            old(self).guibase.logical_scale is Some,
            new_size.bounded(),
        ensures
            final(self).wf(),
            final(self).guibase.wf(),
            final(self).guibase.windows@.len() == old(self).guibase.windows@.len(),
            final(self).guibase.windows@[0].window == (GUIWindow {
                size: new_size,
                ..old(self).guibase.windows@[0].window
            }),
            final(self).guibase.logical_scale == old(self).guibase.logical_scale,
            r.0 as int == phys_of(
                new_size.width.units as int,
                old(self).guibase.logical_scale->Some_0.units as int,
            ),
            r.1 as int == phys_of(
                new_size.height.units as int,
                old(self).guibase.logical_scale->Some_0.units as int,
            ),
            final(self).logical_vertices == old(self).logical_vertices,
            final(self).indices == old(self).indices,
            final(self).polygons == old(self).polygons,
            final(self).curser_position == old(self).curser_position,
            final(self).clicked_widget_id == old(self).clicked_widget_id,
    {
        self.guibase.set_base_window_size(new_size);
        let scale = match self.guibase.get_logical_scale() {
            Some(s) => s,
            None => {
                proof {
                    assert(false);
                }
                crate::guiposition::GUIScale { units: 1 }
            },
        };
        let pw: i64 = new_size.width.get_physical_length(&scale);
        let ph: i64 = new_size.height.get_physical_length(&scale);
        (pw, ph)
    }

    /// The core consumes no raw platform events itself.
    pub fn input(&mut self) -> (r: bool)
        requires
            old(self).wf(),
        ensures
            final(self).wf(),
            *final(self) == *old(self),
            !r,
    {
        false
    }

    /// Nothing to advance between frames: geometry is re-derived on demand.
    pub fn update(&mut self)
        requires
            old(self).wf(),
        ensures
            *final(self) == *old(self),
    {
    }

    /// Record the cursor position handed in by a pointer-move event.
    pub fn set_curser_position(&mut self, position: GUIPosition)
        requires
            old(self).wf(),
            position.bounded(),
        ensures
            final(self).wf(),
            final(self).curser_position == position,
            final(self).guibase == old(self).guibase,
            final(self).logical_vertices == old(self).logical_vertices,
            final(self).indices == old(self).indices,
            final(self).polygons == old(self).polygons,
            final(self).clicked_widget_id == old(self).clicked_widget_id,
    {
        self.curser_position = position;
    }

    /// Feed one pointer-button event through the click latch. For the
    /// primary button the hit test runs at the current cursor position and
    /// the latch steps by `latch_step`; the returned id, if any, is the
    /// widget that was clicked. Other buttons change nothing here.
    pub fn mouse_input(&mut self, button: &MouseButton, pressed: bool) -> (clicked: Option<u128>)
        requires
            old(self).wf(),
        ensures
            final(self).wf(),
            final(self).guibase == old(self).guibase,
            final(self).logical_vertices == old(self).logical_vertices,
            final(self).indices == old(self).indices,
            final(self).polygons == old(self).polygons,
            final(self).curser_position == old(self).curser_position,
            *button is Left ==> ({
                let hit = hit_spec(
                    old(self).polygons@,
                    old(self).logical_vertices@,
                    old(self).curser_position.x.units as int,
                    old(self).curser_position.y.units as int,
                );
                let step = latch_step(old(self).clicked_widget_id, hit, pressed);
                final(self).clicked_widget_id == step.0 && clicked == step.1
            }),
            !(*button is Left) ==> (final(self).clicked_widget_id == old(self).clicked_widget_id
                && clicked is None),
    {
        match button {
            MouseButton::Left => {
                let hit = get_clicked_widget(
                    &self.polygons,
                    &self.logical_vertices,
                    &self.curser_position,
                );
                if pressed {
                    self.clicked_widget_id = hit;
                    None
                } else {
                    let armed = self.clicked_widget_id;
                    self.clicked_widget_id = None;
                    match armed {
                        Some(last_id) => match hit {
                            Some(this_id) => if last_id == this_id {
                                Some(last_id)
                            } else {
                                None
                            },
                            None => None,
                        },
                        None => None,
                    }
                }
            },
            _ => None,
        }
    }

    /// A window below one logical pixel on either axis is degenerate: a
    /// frame emits no device geometry for it, just as a zero-sized widget
    /// emits none.
    pub open spec fn window_renderable(&self) -> bool {
        self.guibase.windows@[0].window.size.width.units >= MIN_WINDOW_EXTENT
            && self.guibase.windows@[0].window.size.height.units >= MIN_WINDOW_EXTENT
    }

    /// Re-derive the render primitives from the arena (done every frame in
    /// fixed-scale mode) and hand back the device-space vertices for upload;
    /// the matching indices stay in `indices`. A degenerate window (below
    /// one logical pixel) yields no device vertices.
    pub fn make_wireframe_primitives(&mut self) -> (r: Vec<Vertex>)
        requires
            old(self).wf(),
            old(self).guibase.wf(),
            spec_pipeline(old(self).guibase).0.len() <= MAX_VERTEX_INDEX as int,
            old(self).guibase.windows@.len() > 0,
        ensures
            final(self).wf(),
            final(self).guibase == old(self).guibase,
            final(self).curser_position == old(self).curser_position,
            final(self).clicked_widget_id == old(self).clicked_widget_id,
            (final(self).logical_vertices@, final(self).indices@, final(self).polygons@)
                == spec_pipeline(old(self).guibase),
            old(self).window_renderable() ==> r@.len() == final(self).logical_vertices@.len(),
            old(self).window_renderable() ==> (forall|m: int|
                0 <= m < r@.len() ==> #[trigger] r@[m] == (Vertex {
                    x: crate::vertices::clip_x(
                        final(self).logical_vertices@[m].position.x.units as int,
                        old(self).guibase.windows@[0].window.size.width.units as int,
                    ) as i64,
                    y: crate::vertices::clip_y(
                        final(self).logical_vertices@[m].position.y.units as int,
                        old(self).guibase.windows@[0].window.size.height.units as int,
                    ) as i64,
                    color: final(self).logical_vertices@[m].color,
                })),
            !old(self).window_renderable() ==> r@.len() == 0,
    {
        let (logical_vertices, indices, polygons) = make_vertices_and_indices(&self.guibase);
        self.logical_vertices = logical_vertices;
        self.indices = indices;
        self.polygons = polygons;
        let width = self.guibase.get_base_window().size.width;
        let height = self.guibase.get_base_window().size.height;
        if width.units < MIN_WINDOW_EXTENT || height.units < MIN_WINDOW_EXTENT {
            return Vec::new();
        }
        let mut device_vertices: Vec<Vertex> = Vec::new();
        let mut m: usize = 0;
        while m < self.logical_vertices.len()
            invariant
                width == old(self).guibase.windows@[0].window.size.width,
                height == old(self).guibase.windows@[0].window.size.height,
                width.units >= MIN_WINDOW_EXTENT,
                height.units >= MIN_WINDOW_EXTENT,
                tess_ok(self.logical_vertices@, self.indices@, self.polygons@, 0),
                m <= self.logical_vertices@.len(),
                device_vertices@.len() == m,
                forall|m2: int|
                    0 <= m2 < m ==> #[trigger] device_vertices@[m2] == (Vertex {
                        x: crate::vertices::clip_x(
                            self.logical_vertices@[m2].position.x.units as int,
                            width.units as int,
                        ) as i64,
                        y: crate::vertices::clip_y(
                            self.logical_vertices@[m2].position.y.units as int,
                            height.units as int,
                        ) as i64,
                        color: self.logical_vertices@[m2].color,
                    }),
            decreases self.logical_vertices@.len() - m,
        {
            let v = self.logical_vertices[m].to_vertex(&width, &height);
            device_vertices.push(v);
            m = m + 1;
        }
        device_vertices
    }
}

} // verus!
