use guicore::GUIBase;
use guicore::GUIButton;
use guicore::GUIColor;
use guicore::GUILength;
use guicore::GUIPosition;
use guicore::GUIScale;
use guicore::GUISize;
use guicore::GUIWindow;
use guicore::MouseButton;
use guicore::State;
use guicore::WidgetKind;
use guicore::guiposition::UNIT;
use guicore::processing_utils::get_clicked_widget;
use guicore::processing_utils::make_vertices_and_indices;

fn test_window(id: u128) -> GUIWindow {
    GUIWindow {
        title: "Form1",
        size: GUISize::from_pixels(500, 500),
        min_size: GUISize::from_pixels(100, 100),
        background_color: GUIColor::from_percent(40, 40, 40, 100),
        id,
    }
}

fn test_button(id: u128, x: i64, y: i64) -> GUIButton {
    GUIButton {
        text: "Button",
        size: GUISize::from_pixels(200, 100),
        position: GUIPosition::from_pixels(x, y),
        radius: GUILength::from_pixels(25),
        background_color: GUIColor::from_percent(70, 10, 40, 100),
        id,
    }
}

fn scene_with_one_button() -> GUIBase {
    let mut base = GUIBase::new();
    base.add_window(test_window(1));
    base.add_child_to_parent(WidgetKind::Button(test_button(2, 0, 0)), 1);
    base.set_logical_scale(GUIScale::from_units(2 * UNIT));
    base
}

#[test]
fn hit_inside_the_button_returns_its_id() {
    let base = scene_with_one_button();
    let (vertices, _, polygons) = make_vertices_and_indices(&base);
    let hit = get_clicked_widget(&polygons, &vertices, &GUIPosition::from_pixels(100, 50));
    assert_eq!(hit, Some(2));
}

#[test]
fn hit_outside_every_polygon_returns_none() {
    let base = scene_with_one_button();
    let (vertices, _, polygons) = make_vertices_and_indices(&base);
    // Inside the window but outside the only rendered polygon: the window
    // itself renders none, so this falls through to a miss.
    let miss = get_clicked_widget(&polygons, &vertices, &GUIPosition::from_pixels(400, 400));
    assert_eq!(miss, None);
}

#[test]
fn corner_outside_the_arc_misses_the_button() {
    let base = scene_with_one_button();
    let (vertices, _, polygons) = make_vertices_and_indices(&base);
    // (1, 1) is inside the bounding box but outside the top-left corner arc.
    let miss = get_clicked_widget(&polygons, &vertices, &GUIPosition::from_pixels(1, 1));
    assert_eq!(miss, None);
    // (25, 26) is past the arc center, on the interior side of the arc.
    let hit = get_clicked_widget(&polygons, &vertices, &GUIPosition::from_pixels(25, 26));
    assert_eq!(hit, Some(2));
}

#[test]
fn z_order_prefers_the_later_painted_polygon() {
    // Two overlapping buttons sharing a point: the one painted later (on
    // top) wins the hit test.
    let mut base = GUIBase::new();
    base.add_window(test_window(1));
    base.add_child_to_parent(WidgetKind::Button(test_button(10, 0, 0)), 1);
    base.add_child_to_parent(WidgetKind::Button(test_button(11, 0, 0)), 1);
    let (vertices, _, polygons) = make_vertices_and_indices(&base);
    let hit = get_clicked_widget(&polygons, &vertices, &GUIPosition::from_pixels(100, 50));
    assert_eq!(hit, Some(11));
}

#[test]
fn press_and_release_on_the_same_widget_clicks_once() {
    let mut state = State::new(scene_with_one_button());
    state.set_curser_position(GUIPosition::from_pixels(100, 50));
    assert_eq!(state.mouse_input(&MouseButton::Left, true), None);
    state.set_curser_position(GUIPosition::from_pixels(100, 60));
    assert_eq!(state.mouse_input(&MouseButton::Left, false), Some(2));
    // The latch is disarmed afterwards: another release emits nothing.
    assert_eq!(state.mouse_input(&MouseButton::Left, false), None);
}

#[test]
fn release_elsewhere_cancels_the_click() {
    let mut state = State::new(scene_with_one_button());
    state.set_curser_position(GUIPosition::from_pixels(100, 50));
    assert_eq!(state.mouse_input(&MouseButton::Left, true), None);
    state.set_curser_position(GUIPosition::from_pixels(400, 400));
    assert_eq!(state.mouse_input(&MouseButton::Left, false), None);
}

#[test]
fn release_without_a_press_emits_nothing() {
    let mut state = State::new(scene_with_one_button());
    state.set_curser_position(GUIPosition::from_pixels(100, 50));
    assert_eq!(state.mouse_input(&MouseButton::Left, false), None);
}

#[test]
fn other_buttons_do_not_drive_the_latch() {
    let mut state = State::new(scene_with_one_button());
    state.set_curser_position(GUIPosition::from_pixels(100, 50));
    assert_eq!(state.mouse_input(&MouseButton::Right, true), None);
    assert_eq!(state.mouse_input(&MouseButton::Middle, true), None);
    assert_eq!(state.mouse_input(&MouseButton::Other(4), true), None);
    // No press was latched by any of those.
    assert_eq!(state.mouse_input(&MouseButton::Left, false), None);
}

#[test]
fn full_window_scenario() {
    // Window of 500 by 500 logical at scale 2 with one 200 by 100 button at
    // the origin, radius 25. A press at (100, 50) arms the button; a release
    // at (100, 60) clicks it; pressing again and releasing at (400, 400),
    // outside the button but inside the window, clicks nothing.
    let mut base = scene_with_one_button();
    let scale = base.get_logical_scale().unwrap();
    assert_eq!(base.get_base_window().physical_bounds(&scale).0, 1000);
    let mut state = State::new(base);
    state.set_curser_position(GUIPosition::from_pixels(100, 50));
    assert_eq!(state.mouse_input(&MouseButton::Left, true), None);
    state.set_curser_position(GUIPosition::from_pixels(100, 60));
    assert_eq!(state.mouse_input(&MouseButton::Left, false), Some(2));
    state.set_curser_position(GUIPosition::from_pixels(100, 50));
    assert_eq!(state.mouse_input(&MouseButton::Left, true), None);
    state.set_curser_position(GUIPosition::from_pixels(400, 400));
    assert_eq!(state.mouse_input(&MouseButton::Left, false), None);
}

#[test]
fn resize_reports_the_physical_surface_size() {
    let mut state = State::new(scene_with_one_button());
    let (pw, ph) = state.resize(GUISize::from_pixels(640, 480));
    assert_eq!((pw, ph), (1280, 960));
    assert_eq!(state.guibase.get_base_window().size.width.get_length(), 640 * UNIT);
}

#[test]
fn regeneration_tracks_the_arena() {
    let mut state = State::new(scene_with_one_button());
    assert_eq!(state.logical_vertices.len(), 32);
    state.guibase.add_child_to_parent(WidgetKind::Button(test_button(3, 250, 300)), 1);
    let device = state.make_wireframe_primitives();
    assert_eq!(state.logical_vertices.len(), 64);
    assert_eq!(state.indices.len(), 180);
    assert_eq!(state.polygons.len(), 2);
    assert_eq!(device.len(), 64);
    // Device vertices are in clip space: every coordinate within one unit.
    for v in device.iter() {
        assert!(-UNIT <= v.x && v.x <= UNIT);
        assert!(-UNIT <= v.y && v.y <= UNIT);
    }
}

#[test]
fn column_points_between_the_arcs_hit_the_button() {
    // Points in the middle column of the button's face, above the top arc
    // row line and below the bottom one, still hit it.
    let base = scene_with_one_button();
    let (vertices, _, polygons) = make_vertices_and_indices(&base);
    let top = get_clicked_widget(&polygons, &vertices, &GUIPosition::from_pixels(100, 10));
    assert_eq!(top, Some(2));
    let bottom = get_clicked_widget(&polygons, &vertices, &GUIPosition::from_pixels(100, 90));
    assert_eq!(bottom, Some(2));
}

#[test]
fn degenerate_window_emits_no_device_vertices() {
    let mut state = State::new(scene_with_one_button());
    state.resize(GUISize::from_pixels(0, 300));
    let device = state.make_wireframe_primitives();
    assert!(device.is_empty());
    // The logical geometry is still re-derived for hit-testing.
    assert_eq!(state.logical_vertices.len(), 32);
}

#[test]
fn update_and_input_do_nothing() {
    let mut state = State::new(scene_with_one_button());
    state.update();
    assert!(!state.input());
    assert_eq!(state.polygons.len(), 1);
}
