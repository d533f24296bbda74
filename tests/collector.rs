use led_compass::collector::{tilt_cell, tilt_index, SampleCollector};
use led_compass::Measurement;

#[test]
fn tilt_thresholds() {
    assert_eq!(tilt_index(-601), 0);
    assert_eq!(tilt_index(-600), 1);
    assert_eq!(tilt_index(-201), 1);
    assert_eq!(tilt_index(-200), 2);
    assert_eq!(tilt_index(0), 2);
    assert_eq!(tilt_index(200), 2);
    assert_eq!(tilt_index(201), 3);
    assert_eq!(tilt_index(600), 3);
    assert_eq!(tilt_index(601), 4);
}

#[test]
fn extreme_tilt_stays_on_grid() {
    assert_eq!(tilt_index(i32::MIN), 0);
    assert_eq!(tilt_index(i32::MAX), 4);
    assert_eq!(tilt_cell(i32::MAX, i32::MAX), (0, 4));
    assert_eq!(tilt_cell(i32::MIN, i32::MIN), (4, 0));
    assert_eq!(tilt_cell(0, 0), (2, 2));
    assert_eq!(tilt_cell(-300, 300), (1, 1));
}

#[test]
fn collector_records_new_cells_only() {
    let mut c = SampleCollector::new();
    assert!(!c.is_complete());
    assert!(c.visit(0, 0));
    c.record(Measurement::new(1, 2, 3));
    assert!(!c.visit(0, 0));
    assert!(c.visit(700, 700));
    c.record(Measurement::new(4, 5, 6));
    let f = c.frame();
    assert_eq!(f[2][2], 1);
    assert_eq!(f[0][4], 1);
    assert_eq!(f.iter().flatten().filter(|v| **v == 1).count(), 2);
    let s = c.samples();
    assert_eq!(s[0], Measurement::new(-2, -1, 3));
    assert_eq!(s[1], Measurement::new(0, 0, 0));
    assert_eq!(s[2], Measurement::new(-5, -4, 6));
}

#[test]
fn collector_runs_exactly_twenty_five_iterations() {
    let mut c = SampleCollector::new();
    let mut n = 0;
    let mut stored = 0;
    while !c.is_complete() {
        // extreme tilts only reach the four corners and the edges
        let t = if n % 2 == 0 { i32::MAX } else { i32::MIN };
        if c.visit(t, -t / 2) {
            c.record(Measurement::new(n, n, n));
            stored += 1;
        }
        n += 1;
    }
    assert_eq!(n, 25);
    assert_eq!(stored, 2);
    let f = c.frame();
    assert_eq!(f.iter().flatten().filter(|v| **v == 1).count(), 2);
}
