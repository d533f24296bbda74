use led_compass::measurement::{correction_in_range, enu_to_cartesian, measurement_to_enu};
use led_compass::{calibrated_measurement, Calibration, Measurement};

fn m(x: i32, y: i32, z: i32) -> Measurement {
    Measurement::new(x, y, z)
}

#[test]
fn default_calibration_is_identity() {
    let c = Calibration::default();
    assert_eq!(c.center(), m(0, 0, 0));
    assert_eq!(c.scale(), m(1024, 1024, 1024));
    assert_eq!(c.radius(), 0);
}

#[test]
fn canonical_frame_swaps_and_negates() {
    assert_eq!(measurement_to_enu(&m(1, 2, 3)), m(-2, -1, 3));
    assert_eq!(enu_to_cartesian(&m(-2, -1, 3)), m(1, 2, 3));
}

#[test]
fn default_calibration_leaves_reading_unchanged() {
    let c = Calibration::default();
    let r = m(123, -456, 789);
    assert_eq!(calibrated_measurement(&r, &c), r);
}

#[test]
fn correction_applies_offset_and_gain() {
    let c = Calibration { center: m(1, 2, 3), scale: m(2048, 1024, 512), radius: 0 };
    // canonical (-20, -10, 30), less the center (-21, -12, 27), times the gain
    // (-43008, -12288, 13824), shifted (-42, -12, 13), back (12, 42, 13)
    assert_eq!(calibrated_measurement(&m(10, 20, 30), &c), m(12, 42, 13));
}

#[test]
fn correction_shift_rounds_down() {
    let c = Calibration { center: m(0, 0, 0), scale: m(1000, 1000, 1000), radius: 0 };
    assert_eq!(calibrated_measurement(&m(0, 0, -1), &c), m(0, 0, -1));
    assert_eq!(calibrated_measurement(&m(0, 0, 1), &c), m(0, 0, 0));
}

#[test]
fn center_reading_corrects_to_origin() {
    let c = Calibration { center: m(5, -7, 9), scale: m(3000, 1500, 1024), radius: 40 };
    assert_eq!(calibrated_measurement(&m(7, -5, 9), &c), m(0, 0, 0));
    let c2 = Calibration { center: m(5, -7, 9), scale: m(i32::MAX, 1, 77777), radius: 0 };
    assert_eq!(calibrated_measurement(&m(7, -5, 9), &c2), m(0, 0, 0));
}

#[test]
fn correction_range_check() {
    let c = Calibration { center: m(0, 0, 0), scale: m(1 << 20, 1 << 20, 1 << 20), radius: 0 };
    assert!(correction_in_range(&m(1000, 1000, 1000), &c));
    assert!(!correction_in_range(&m(0, 0, 1 << 22), &c));
    assert!(correction_in_range(&m(i32::MAX, i32::MAX, i32::MAX), &Calibration::default()));
}
