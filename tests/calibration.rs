use led_compass::calibration::samples_in_range;
use led_compass::search::{difference_square, find_center, mean_center, measure_score};
use led_compass::sphere::{isqrt, spherify};
use led_compass::{calc_calibration, Measurement};

fn m(x: i32, y: i32, z: i32) -> Measurement {
    Measurement::new(x, y, z)
}

/// 25 points near a sphere of radius 1000 around (100, -50, 200), spread
/// along a Fibonacci spiral.
fn sphere_samples() -> [Measurement; 25] {
    let p: [(i32, i32, i32); 25] = [
        (380, -50, 1160), (-250, 271, 1080), (152, -648, 1000), (522, 501, 920),
        (-657, -184, 840), (799, -495, 760), (-128, 797, 680), (-322, -863, 600),
        (990, 275, 520), (-797, 320, 440), (518, -944, 360), (398, 901, 280),
        (-765, -551, 200), (1074, -264, 120), (-468, 758, 40), (-25, -1013, -40),
        (824, 561, -120), (-816, -12, -200), (722, -669, -280), (62, 778, -360),
        (-392, -640, -440), (788, 43, -520), (-393, 293, -600), (204, -513, -680),
        (239, 193, -760),
    ];
    let mut out = [m(0, 0, 0); 25];
    for i in 0..25 {
        out[i] = m(p[i].0, p[i].1, p[i].2);
    }
    out
}

/// 25 points all at distance 1000 from the origin.
fn equidistant_samples() -> [Measurement; 25] {
    let p = [
        m(1000, 0, 0), m(-1000, 0, 0), m(0, 1000, 0), m(0, -1000, 0), m(0, 0, 1000),
        m(0, 0, -1000), m(600, 800, 0), m(-600, 800, 0), m(600, -800, 0), m(-600, -800, 0),
        m(0, 600, 800), m(0, -600, 800), m(0, 600, -800), m(0, -600, -800), m(800, 0, 600),
        m(-800, 0, 600), m(800, 0, -600), m(-800, 0, -600), m(480, 600, 640), m(-480, 600, 640),
        m(480, -600, 640), m(480, 600, -640), m(-480, -600, -640), m(640, 480, 600),
        m(-640, -480, -600),
    ];
    p
}

#[test]
fn integer_square_root() {
    assert_eq!(isqrt(0), 0);
    assert_eq!(isqrt(1), 1);
    assert_eq!(isqrt(15), 3);
    assert_eq!(isqrt(16), 4);
    assert_eq!(isqrt(1_000_000), 1000);
    assert_eq!(isqrt(999_999), 999);
    assert_eq!(isqrt(1 << 100), 1 << 50);
    assert_eq!(isqrt((1 << 100) - 1), (1 << 50) - 1);
}

#[test]
fn squared_distance() {
    assert_eq!(difference_square(&m(1, 2, 3), &m(4, 6, 3)), 25);
    assert_eq!(difference_square(&m(-33_554_432, 0, 0), &m(8_388_608, 0, 0)), 41_943_040i64 * 41_943_040);
}

#[test]
fn mean_truncates_toward_zero() {
    let mut d = [m(0, 0, 0); 25];
    d[0] = m(49, -49, 50);
    // 49 / 25 and -49 / 25 truncate to 1 and -1; 50 / 25 is 2
    assert_eq!(mean_center(&d), m(1, -1, 2));
}

#[test]
fn score_of_equidistant_samples_is_zero() {
    let d = equidistant_samples();
    assert_eq!(measure_score(&m(0, 0, 0), &d), 0);
    // from (200, 0, 0): farthest is (-1000, 0, 0) at 1200, nearest (1000, 0, 0) at 800
    assert_eq!(measure_score(&m(200, 0, 0), &d), 1200 * 1200 - 800 * 800);
}

#[test]
fn center_search_stops_when_no_step_improves() {
    // the mean (19, 24, 25) is off the true center, but within one step of
    // it: no candidate 200 away scores better, so the search stays
    let d = equidistant_samples();
    assert_eq!(mean_center(&d), m(19, 24, 25));
    assert_eq!(find_center(&d), m(19, 24, 25));
    assert_eq!(measure_score(&m(19, 24, 25), &d), 158_080);
}

#[test]
fn center_search_moves_off_a_poor_mean() {
    // samples of a sphere of radius 1000 around (1000, 0, 0), five of them
    // moved to one point: the mean (1019, 24, -214) is poor, and the fixed
    // step search stops at a coarse optimum one step above it
    let mut d = equidistant_samples();
    for i in 0..25 {
        d[i] = m(d[i].x + 1000, d[i].y, d[i].z);
    }
    d[0] = m(1000, 0, -1000);
    d[1] = m(1000, 0, -1000);
    d[2] = m(1000, 0, -1000);
    d[3] = m(1000, 0, -1000);
    d[4] = m(1000, 0, -1000);
    let start = mean_center(&d);
    let c = find_center(&d);
    assert_eq!(start, m(1019, 24, -214));
    assert_eq!(c, m(1019, 24, -14));
    assert_eq!(measure_score(&start, &d), 799_200);
    assert_eq!(measure_score(&c, &d), 126_160);
    assert_eq!(measure_score(&m(1000, 0, 0), &d), 0);
}

#[test]
fn center_search_is_deterministic() {
    let d = sphere_samples();
    assert_eq!(find_center(&d), find_center(&d));
    assert_eq!(calc_calibration(&d), calc_calibration(&d));
}

#[test]
fn equidistant_samples_get_unit_scale() {
    let d = equidistant_samples();
    let c = spherify(m(0, 0, 0), &d);
    assert_eq!(c.scale, m(1024, 1024, 1024));
    assert_eq!(c.radius, 1000);
    assert_eq!(c.center, m(0, 0, 0));
}

#[test]
fn sphere_fit_of_flattened_samples() {
    // a sphere of radius 1000 squashed to 500 along z: z gets the gain
    let mut d = equidistant_samples();
    for i in 0..25 {
        d[i] = m(d[i].x, d[i].y, d[i].z / 2);
    }
    let c = spherify(m(0, 0, 0), &d);
    assert_eq!(c.radius, 1000);
    assert!(c.scale.z > c.scale.x && c.scale.z > c.scale.y);
    assert!(c.scale.x >= 1024 && c.scale.y >= 1024);
    assert_eq!(c.scale, m(1361, 1528, 1849));
}

#[test]
fn radius_is_largest_distance() {
    let mut d = equidistant_samples();
    d[7] = m(0, 0, 1500);
    d[9] = m(3, 4, 0);
    let c = spherify(m(0, 0, 0), &d);
    assert_eq!(c.radius, 1500);
    d[7] = m(1, 1, 1500);
    // sqrt(2250002) = 1500.0006...
    assert_eq!(spherify(m(0, 0, 0), &d).radius, 1500);
}

#[test]
fn sample_at_center_adds_no_correction() {
    let mut d = equidistant_samples();
    d[3] = m(0, 0, 0);
    let c = spherify(m(0, 0, 0), &d);
    assert_eq!(c.radius, 1000);
    assert_eq!(c.scale, m(1024, 1024, 1024));
}

#[test]
fn sphere_scenario_end_to_end() {
    let d = sphere_samples();
    assert!(samples_in_range(&d));
    let c = calc_calibration(&d);
    assert!((c.center.x - 100).abs() <= 200);
    assert!((c.center.y + 50).abs() <= 200);
    assert!((c.center.z - 200).abs() <= 200);
    assert_eq!(c.center, m(106, -46, 200));
    assert_eq!(c.radius, 1006);
    assert_eq!(c.scale, m(1032, 1032, 1031));
}

#[test]
fn out_of_range_samples_are_detected() {
    let mut d = sphere_samples();
    assert!(samples_in_range(&d));
    d[24] = m(0, 8_388_609, 0);
    assert!(!samples_in_range(&d));
    d[24] = m(0, -8_388_608, 8_388_608);
    assert!(samples_in_range(&d));
}
