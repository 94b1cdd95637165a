use guicore::GUIBase;
use guicore::GUIButton;
use guicore::GUIColor;
use guicore::GUILength;
use guicore::GUIPosition;
use guicore::GUIScale;
use guicore::GUISize;
use guicore::GUIWindow;
use guicore::Widget;
use guicore::WidgetKind;
use guicore::guiposition::UNIT;

fn test_window(id: u128) -> GUIWindow {
    GUIWindow {
        title: "Form1",
        size: GUISize::from_pixels(500, 500),
        min_size: GUISize::from_pixels(100, 100),
        background_color: GUIColor::from_percent(40, 40, 40, 100),
        id,
    }
}

fn test_button(id: u128, x: i64, y: i64) -> GUIButton {
    GUIButton {
        text: "Button",
        size: GUISize::from_pixels(200, 100),
        position: GUIPosition::from_pixels(x, y),
        radius: GUILength::from_pixels(25),
        background_color: GUIColor::from_percent(70, 10, 40, 100),
        id,
    }
}

#[test]
fn first_window_becomes_the_base_window() {
    let mut base = GUIBase::new();
    let id = base.add_window(test_window(11));
    assert_eq!(id, 11);
    base.add_window(test_window(12));
    assert_eq!(base.get_base_window().id, 11);
}

#[test]
fn every_inserted_id_is_found_again() {
    // Tree integrity, on concrete values: each inserted id can be looked up,
    // and sits in exactly one parent's child list.
    let mut base = GUIBase::new();
    base.add_window(test_window(1));
    let a = base.add_child_to_parent(WidgetKind::Button(test_button(2, 0, 0)), 1);
    let b = base.add_child_to_parent(WidgetKind::Button(test_button(3, 10, 10)), 1);
    let c = base.add_child_to_parent(WidgetKind::Button(test_button(4, 20, 20)), a);
    assert_eq!((a, b, c), (2, 3, 4));
    assert_eq!(base.get_widget(2).get_id(), 2);
    assert_eq!(base.get_widget(3).get_id(), 3);
    assert_eq!(base.get_widget(4).get_id(), 4);
    let mut occurrences = 0;
    for gw in base.windows.iter() {
        occurrences += gw.children.iter().filter(|ch| **ch == 4).count();
    }
    for gx in base.widgets.iter() {
        occurrences += gx.children.iter().filter(|ch| **ch == 4).count();
    }
    assert_eq!(occurrences, 1);
}

#[test]
fn child_edges_follow_insertion_order() {
    let mut base = GUIBase::new();
    base.add_window(test_window(1));
    base.add_child_to_parent(WidgetKind::Button(test_button(5, 0, 0)), 1);
    base.add_child_to_parent(WidgetKind::Button(test_button(6, 10, 10)), 1);
    let children = base.windows[0].get_child_ids();
    assert_eq!(children.as_slice(), &[5, 6]);
}

#[test]
fn parent_back_reference_is_set_at_insertion() {
    let mut base = GUIBase::new();
    base.add_window(test_window(1));
    base.add_child_to_parent(WidgetKind::Button(test_button(7, 0, 0)), 1);
    base.add_child_to_parent(WidgetKind::Button(test_button(8, 0, 0)), 7);
    assert_eq!(*base.widgets[0].get_parent_id(), 1);
    assert_eq!(*base.widgets[1].get_parent_id(), 7);
    assert_eq!(base.widgets[0].get_child_ids().as_slice(), &[8]);
}

#[test]
fn scale_starts_unset_and_is_recorded_once_known() {
    let mut base = GUIBase::new();
    assert!(base.get_logical_scale().is_none());
    base.set_logical_scale(GUIScale::from_units(2 * UNIT));
    assert_eq!(base.get_logical_scale().unwrap().units, 2 * UNIT);
    assert!(base.get_fixed_scale());
    base.set_fixed_scale(false);
    assert!(!base.get_fixed_scale());
}

#[test]
fn resizing_the_base_window_keeps_everything_else() {
    let mut base = GUIBase::new();
    base.add_window(test_window(1));
    base.add_child_to_parent(WidgetKind::Button(test_button(2, 0, 0)), 1);
    base.set_base_window_size(GUISize::from_pixels(800, 600));
    assert_eq!(base.get_base_window().size.width.get_length(), 800 * UNIT);
    assert_eq!(base.get_base_window().size.height.get_length(), 600 * UNIT);
    assert_eq!(base.get_base_window().id, 1);
    assert_eq!(base.windows[0].get_child_ids().as_slice(), &[2]);
}

#[test]
fn generated_ids_are_version_four() {
    // The id generator is relied on for version-4 identifiers: the version
    // nibble of the 128-bit value is always four, so ids are never zero.
    let b = GUIButton::default();
    assert_eq!((b.id >> 76) & 0xF, 4);
    assert_ne!(b.id, 0);
    let w = GUIWindow::default();
    assert_eq!((w.id >> 76) & 0xF, 4);
    assert_ne!(w.id, b.id);
}

#[test]
fn widget_defaults_carry_all_documented_attributes() {
    let b = GUIButton::default();
    assert_eq!(b.text, "Button");
    assert_eq!(b.size.width.get_length(), 200 * UNIT);
    assert_eq!(b.size.height.get_length(), 100 * UNIT);
    assert_eq!(b.position.x.get_length(), 0);
    assert_eq!(b.position.y.get_length(), 0);
    assert_eq!(b.radius.get_length(), 25 * UNIT);
    assert_eq!(b.background_color, GUIColor::from_percent(70, 10, 40, 100));
    let w = GUIWindow::default();
    assert_eq!(w.title, "Form1");
    assert_eq!(w.size.width.get_length(), 500 * UNIT);
    assert_eq!(w.size.height.get_length(), 500 * UNIT);
    assert_eq!(w.min_size.width.get_length(), 100 * UNIT);
    assert_eq!(w.min_size.height.get_length(), 100 * UNIT);
    assert_eq!(w.background_color, GUIColor::from_percent(40, 40, 40, 100));
}

#[test]
fn window_physical_bounds_scale_the_sizes() {
    let w = test_window(1);
    let scale = GUIScale::from_units(2 * UNIT);
    let (pw, ph, minw, minh) = w.physical_bounds(&scale);
    assert_eq!((pw, ph, minw, minh), (1000, 1000, 200, 200));
}
