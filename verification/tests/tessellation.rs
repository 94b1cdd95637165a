use guicore::GUIBase;
use guicore::GUIButton;
use guicore::GUIColor;
use guicore::GUILength;
use guicore::GUIPosition;
use guicore::GUISize;
use guicore::GUIWindow;
use guicore::LogicalVertex;
use guicore::Widget;
use guicore::WidgetKind;
use guicore::guiposition::UNIT;
use guicore::processing_utils::make_vertices_and_indices;

fn test_window(id: u128) -> GUIWindow {
    GUIWindow {
        title: "Form1",
        size: GUISize::from_pixels(500, 500),
        min_size: GUISize::from_pixels(100, 100),
        background_color: GUIColor::from_percent(40, 40, 40, 100),
        id,
    }
}

fn test_button(id: u128, x: i64, y: i64) -> GUIButton {
    GUIButton {
        text: "Button",
        size: GUISize::from_pixels(200, 100),
        position: GUIPosition::from_pixels(x, y),
        radius: GUILength::from_pixels(25),
        background_color: GUIColor::from_percent(70, 10, 40, 100),
        id,
    }
}

#[test]
fn one_button_emits_a_closed_fan() {
    let button = test_button(2, 0, 0);
    let anchor = GUIPosition::from_pixels(0, 0);
    let (vertices, indices, polygon) = button.get_vertices_and_indices(&anchor, 0);
    assert_eq!(vertices.len(), 32);
    assert_eq!(indices.len(), 90);
    // The fan: triangle i is (0, i + 1, i + 2).
    for i in 0..30 {
        assert_eq!(indices[3 * i], 0);
        assert_eq!(indices[3 * i + 1] as usize, i + 1);
        assert_eq!(indices[3 * i + 2] as usize, i + 2);
    }
    assert_eq!(polygon.start_index, 0);
    assert_eq!(polygon.end_index, 32);
    assert_eq!(polygon.widget_id, 2);
    assert!(polygon.convex);
    assert!(polygon.rendered);
    // First outline vertex: the top of the top-left arc, one radius in.
    assert_eq!(vertices[0].position.x.get_length(), 25 * UNIT);
    assert_eq!(vertices[0].position.y.get_length(), 0);
    // Vertex 8 starts the bottom-left arc on the left side.
    assert_eq!(vertices[8].position.x.get_length(), 0);
    assert_eq!(vertices[8].position.y.get_length(), 75 * UNIT);
}

#[test]
fn indices_are_rebased_by_the_offset() {
    let button = test_button(2, 0, 0);
    let anchor = GUIPosition::from_pixels(0, 0);
    let (_, indices, polygon) = button.get_vertices_and_indices(&anchor, 100);
    for i in 0..30 {
        assert_eq!(indices[3 * i], 100);
        assert_eq!(indices[3 * i + 1] as usize, 100 + i + 1);
        assert_eq!(indices[3 * i + 2] as usize, 100 + i + 2);
    }
    assert_eq!(polygon.start_index, 100);
    assert_eq!(polygon.end_index, 132);
}

#[test]
fn degenerate_buttons_emit_nothing() {
    let mut button = test_button(2, 0, 0);
    button.size = GUISize::from_pixels(0, 100);
    let anchor = GUIPosition::from_pixels(0, 0);
    let (vertices, indices, polygon) = button.get_vertices_and_indices(&anchor, 0);
    assert!(vertices.is_empty());
    assert!(indices.is_empty());
    assert!(!polygon.rendered);
    assert_eq!(polygon.start_index, polygon.end_index);
}

#[test]
fn windows_emit_no_geometry_of_their_own() {
    let window = test_window(1);
    let anchor = GUIPosition::from_pixels(0, 0);
    let (vertices, indices, polygon) = window.get_vertices_and_indices(&anchor, 0);
    assert!(vertices.is_empty());
    assert!(indices.is_empty());
    assert!(!polygon.rendered);
    assert_eq!(polygon.widget_id, 1);
}

fn range_overlap(a: (usize, usize), b: (usize, usize)) -> bool {
    a.0 < b.1 && b.0 < a.1
}

#[test]
fn concatenated_offsets_never_escape_the_buffer() {
    // Offset correctness over a whole tree: no index reaches past the vertex
    // count and no two polygon ranges overlap.
    let mut base = GUIBase::new();
    base.add_window(test_window(1));
    base.add_child_to_parent(WidgetKind::Button(test_button(2, 0, 0)), 1);
    base.add_child_to_parent(WidgetKind::Button(test_button(3, 250, 0)), 1);
    base.add_child_to_parent(WidgetKind::Button(test_button(4, 10, 10)), 2);
    let (vertices, indices, polygons) = make_vertices_and_indices(&base);
    assert_eq!(vertices.len(), 96);
    assert_eq!(indices.len(), 270);
    assert_eq!(polygons.len(), 3);
    for ix in indices.iter() {
        assert!((*ix as usize) < vertices.len());
    }
    for p in polygons.iter() {
        assert!(p.start_index <= p.end_index);
        assert!(p.end_index <= vertices.len());
    }
    for (j1, p1) in polygons.iter().enumerate() {
        for (j2, p2) in polygons.iter().enumerate() {
            if j1 != j2 {
                assert!(!range_overlap(
                    (p1.start_index, p1.end_index),
                    (p2.start_index, p2.end_index)
                ));
            }
        }
    }
    // Pre-order: the first button's polygon precedes its descendant's, which
    // precedes its sibling's.
    assert_eq!(polygons[0].widget_id, 2);
    assert_eq!(polygons[1].widget_id, 4);
    assert_eq!(polygons[2].widget_id, 3);
}

#[test]
fn children_anchor_to_their_parent_position() {
    let mut base = GUIBase::new();
    base.add_window(test_window(1));
    base.add_child_to_parent(WidgetKind::Button(test_button(2, 40, 30)), 1);
    base.add_child_to_parent(WidgetKind::Button(test_button(3, 5, 6)), 2);
    let (vertices, _, polygons) = make_vertices_and_indices(&base);
    // The child button's outline starts at parent position + own position +
    // (radius, 0).
    let child_first = vertices[polygons[1].start_index];
    assert_eq!(child_first.position.x.get_length(), (40 + 5 + 25) * UNIT);
    assert_eq!(child_first.position.y.get_length(), (30 + 6) * UNIT);
}

fn cross(a: &LogicalVertex, b: &LogicalVertex, c: &LogicalVertex) -> i128 {
    let d1x = (b.position.x.get_length() - a.position.x.get_length()) as i128;
    let d1y = (b.position.y.get_length() - a.position.y.get_length()) as i128;
    let d2x = (c.position.x.get_length() - b.position.x.get_length()) as i128;
    let d2y = (c.position.y.get_length() - b.position.y.get_length()) as i128;
    d1x * d2y - d1y * d2x
}

#[test]
fn emitted_outline_turns_one_way() {
    // Convex fan validity on the emitted ring: every consecutive edge pair
    // of the default button's outline turns the same way.
    let button = test_button(2, 0, 0);
    let anchor = GUIPosition::from_pixels(0, 0);
    let (vertices, _, _) = button.get_vertices_and_indices(&anchor, 0);
    for i in 0..32 {
        let a = &vertices[i];
        let b = &vertices[(i + 1) % 32];
        let c = &vertices[(i + 2) % 32];
        assert!(cross(a, b, c) <= 0);
    }
}

#[test]
fn oversized_radius_is_clamped_to_half_the_short_side() {
    let mut button = test_button(2, 0, 0);
    button.radius = GUILength::from_pixels(500);
    let anchor = GUIPosition::from_pixels(0, 0);
    let (vertices, _, _) = button.get_vertices_and_indices(&anchor, 0);
    // Clamped to height / 2 = 50 logical pixels: the outline's first vertex
    // sits one (clamped) radius in.
    assert_eq!(vertices[0].position.x.get_length(), 50 * UNIT);
    assert_eq!(vertices[0].position.y.get_length(), 0);
}

#[test]
fn device_conversion_maps_the_window_to_clip_space() {
    let v = LogicalVertex {
        position: GUIPosition::from_pixels(250, 250),
        color: GUIColor::from_percent(70, 10, 40, 100),
    };
    let w = GUILength::from_pixels(500);
    let h = GUILength::from_pixels(500);
    let center = v.to_vertex(&w, &h);
    assert_eq!(center.x, 0);
    assert_eq!(center.y, 0);
    let origin = LogicalVertex {
        position: GUIPosition::from_pixels(0, 0),
        color: GUIColor::from_percent(70, 10, 40, 100),
    };
    let corner = origin.to_vertex(&w, &h);
    assert_eq!(corner.x, -UNIT);
    assert_eq!(corner.y, UNIT);
}
