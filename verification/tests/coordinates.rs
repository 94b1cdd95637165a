use guicore::GUILength;
use guicore::GUIPosition;
use guicore::GUIScale;
use guicore::GUISize;
use guicore::guiposition::UNIT;

#[test]
fn unit_is_eight_decimal_places() {
    assert_eq!(UNIT, 100_000_000);
    assert_eq!(GUILength::from_pixels(1).get_length(), UNIT);
}

#[test]
fn length_equality_is_unit_for_unit() {
    assert_eq!(GUILength::from_pixels(25), GUILength { units: 25 * UNIT });
    assert_ne!(GUILength { units: 1 }, GUILength { units: 2 });
}

#[test]
fn arithmetic_on_lengths() {
    let a = GUILength::from_pixels(7);
    let b = GUILength::from_pixels(3);
    assert_eq!(a.add(&b).get_length(), 10 * UNIT);
    assert_eq!(a.subtract(&b).get_length(), 4 * UNIT);
    assert_eq!(a.multiply(&b).get_length(), 21 * UNIT);
    assert_eq!(a.devide_by(&b).get_length(), 233_333_333);
    assert_eq!(a.negative().get_length(), -7 * UNIT);
}

#[test]
fn multiply_rounds_half_away_from_zero() {
    // 0.00000003 * 0.00000003 rounds to zero length units.
    let tiny = GUILength { units: 3 };
    assert_eq!(tiny.multiply(&tiny).get_length(), 0);
    // 0.5 * 0.00000001 is half a unit and rounds away from zero.
    let half = GUILength { units: UNIT / 2 };
    let one_unit = GUILength { units: 1 };
    assert_eq!(half.multiply(&one_unit).get_length(), 1);
}

#[test]
fn physical_conversion_rounds_to_whole_pixels() {
    let scale = GUIScale::from_units(2 * UNIT);
    assert_eq!(GUILength::from_pixels(500).get_physical_length(&scale), 1000);
    // 1.25 logical at scale 2 is 2.5 physical, rounded half away from zero.
    let l = GUILength { units: 125_000_000 };
    assert_eq!(l.get_physical_length(&scale), 3);
    let neg = GUILength { units: -125_000_000 };
    assert_eq!(neg.get_physical_length(&scale), -3);
}

#[test]
fn physical_round_trip_on_pixel_boundary() {
    // Round trip: 500 logical at scale 2 becomes 1000 physical and back.
    let scale = GUIScale::from_units(2 * UNIT);
    let l = GUILength::from_pixels(500);
    let physical = l.get_physical_length(&scale);
    let back = GUILength::from_physical_pixels(physical, &scale);
    assert_eq!(back, l);
}

#[test]
fn fractional_scale_round_trip() {
    // Scale 1.5: 30 logical pixels is 45 physical pixels exactly.
    let scale = GUIScale::from_units(150_000_000);
    let l = GUILength::from_pixels(30);
    let physical = l.get_physical_length(&scale);
    assert_eq!(physical, 45);
    assert_eq!(GUILength::from_physical_pixels(physical, &scale), l);
}

#[test]
fn sizes_and_positions_carry_pairs() {
    let s = GUISize::from_pixels(500, 300);
    assert_eq!(s.width.get_length(), 500 * UNIT);
    assert_eq!(s.height.get_length(), 300 * UNIT);
    let p = GUIPosition::from_pixels(20, 40);
    assert_eq!(p.x.get_length(), 20 * UNIT);
    assert_eq!(p.y.get_length(), 40 * UNIT);
    let q = GUIPosition::from_lengths(GUILength::from_pixels(20), GUILength::from_pixels(40));
    assert_eq!(p, q);
    let scale = GUIScale::from_units(2 * UNIT);
    let r = GUIPosition::from_physical_pixels(100, 50, &scale);
    assert_eq!(r.x.get_length(), 50 * UNIT);
    assert_eq!(r.y.get_length(), 25 * UNIT);
}

#[test]
fn default_values_are_the_documented_ones() {
    let l = GUILength::default();
    assert_eq!(l.get_length(), 0);
    let s = GUISize::default();
    assert_eq!(s.width.get_length(), 500 * UNIT);
    assert_eq!(s.height.get_length(), 500 * UNIT);
    let p = GUIPosition::default();
    assert_eq!(p.x.get_length(), 0);
    assert_eq!(p.y.get_length(), 0);
}
