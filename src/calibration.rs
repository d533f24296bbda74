//! The calibration pass as a whole: center estimation followed by the sphere
//! fit, and the properties that relate its stages.
use vstd::prelude::*;
use crate::measurement::{Calibration, Measurement};
use crate::search::{
    abs, axis_sum, center_of, dist2, find_center, in_box, lemma_descend_no_worse, max_dist2, mean,
    reading_ok, samples_ok, score, trunc_div, READING_LIMIT, SAMPLE_COUNT,
};
use crate::sphere::{
    axis_scale, axis_weight, floor_sqrt, lemma_floor_sqrt, lemma_floor_sqrt_monotone,
    overall_correction, sample_correction, sample_dist, sphere_radius, spherified, spherify,
    weight_term,
};

verus! {

/// Whether every coordinate of every sample is within the magnetometer's
/// range.
pub fn samples_in_range(data: &[Measurement; 25]) -> (r: bool)
    ensures
        r == samples_ok(data@),
{
    let mut i: usize = 0;
    while i < SAMPLE_COUNT
        invariant
            0 <= i <= 25,
            data@.len() == 25,
            forall|j: int| 0 <= j < i ==> #[trigger] reading_ok(data@[j]),
        decreases 25 - i,
    {
        let m = data[i];
        if m.x < -READING_LIMIT || m.x > READING_LIMIT || m.y < -READING_LIMIT || m.y
            > READING_LIMIT || m.z < -READING_LIMIT || m.z > READING_LIMIT {
            assert(!reading_ok(data@[i as int]));
            return false;
        }
        i = i + 1;
    }
    true
}

/// Builds the calibration from one pass's 25 samples: the center found by
/// the local search from the mean, and the sphere fitted around it.
pub fn calc_calibration(data: &[Measurement; 25]) -> (r: Calibration)
    requires
        samples_ok(data@),
    ensures
        r == spherified(data@, center_of(data@)),
        r.scale.x >= 1024 && r.scale.y >= 1024 && r.scale.z >= 1024,
        score(data@, r.center) <= score(data@, mean(data@)),
{
    let center = find_center(data);
    spherify(center, data)
}

/// The calibration is a function of the samples alone: two passes over the
/// same samples find the same center and the same calibration.
pub proof fn lemma_calibration_deterministic(a: Seq<Measurement>, b: Seq<Measurement>)
    requires
        a == b,
    ensures
        center_of(a) == center_of(b),
        spherified(a, center_of(a)) == spherified(b, center_of(b)),
{
}

proof fn lemma_axis_sum_bound(s: Seq<Measurement>, axis: int, n: int)
    requires
        0 <= n <= s.len(),
        samples_ok(s),
    ensures
        abs(axis_sum(s, axis, n)) <= n * READING_LIMIT,
    decreases n,
{
    if n > 0 {
        assert(reading_ok(s[n - 1]));
        lemma_axis_sum_bound(s, axis, n - 1);
    }
}

proof fn lemma_mean_in_box(s: Seq<Measurement>)
    requires
        s.len() == 25,
        samples_ok(s),
    ensures
        in_box(mean(s)),
{
    lemma_axis_sum_bound(s, 0, 25);
    lemma_axis_sum_bound(s, 1, 25);
    lemma_axis_sum_bound(s, 2, 25);
    assert forall|a: int| abs(a) <= 25 * READING_LIMIT implies abs(trunc_div(a, 25))
        <= READING_LIMIT by {
        if a >= 0 {
            vstd::arithmetic::div_mod::lemma_div_is_ordered(a, 25 * READING_LIMIT, 25);
        } else {
            vstd::arithmetic::div_mod::lemma_div_is_ordered(-a, 25 * READING_LIMIT, 25);
        }
    }
}

/// The converged center never scores worse than the mean of the samples it
/// started from.
pub proof fn lemma_center_no_worse_than_mean(s: Seq<Measurement>)
    requires
        s.len() == 25,
        samples_ok(s),
    ensures
        score(s, center_of(s)) <= score(s, mean(s)),
{
    lemma_mean_in_box(s);
    lemma_descend_no_worse(s, mean(s));
}

/// A gain is never below unity when the overall correction and the axis
/// weight are not negative.
pub proof fn lemma_scale_at_least_unity(overall: int, weight: int, magnitude: int)
    requires
        overall >= 0,
        weight >= 0,
        magnitude >= 0,
    ensures
        axis_scale(overall, weight, magnitude) >= 1024,
{
    if magnitude > 0 {
        assert(2 * overall * weight >= 0) by (nonlinear_arith)
            requires
                overall >= 0,
                weight >= 0,
        ;
        vstd::arithmetic::div_mod::lemma_div_pos_is_pos(
            2 * overall * weight + magnitude, 2 * magnitude);
    }
}

proof fn lemma_max_of_equal(s: Seq<Measurement>, c: Measurement, n: int)
    requires
        1 <= n <= s.len(),
        forall|i: int| 0 <= i < s.len() ==> #[trigger] dist2(c, s[i]) == dist2(c, s[0]),
    ensures
        max_dist2(s, c, n) == dist2(c, s[0]),
    decreases n,
{
    if n > 1 {
        lemma_max_of_equal(s, c, n - 1);
        assert(dist2(c, s[n - 1]) == dist2(c, s[0]));
    }
}

proof fn lemma_no_correction(s: Seq<Measurement>, c: Measurement, radius: int, n: int)
    requires
        0 <= n <= s.len(),
        radius >= 0,
        forall|i: int| 0 <= i < s.len() ==> #[trigger] sample_dist(s, c, i) == radius,
    ensures
        overall_correction(s, c, radius, n) == 0,
        axis_weight(s, c, radius, 0, n) == 0,
        axis_weight(s, c, radius, 1, n) == 0,
        axis_weight(s, c, radius, 2, n) == 0,
    decreases n,
{
    if n > 0 {
        lemma_no_correction(s, c, radius, n - 1);
        let i = n - 1;
        assert(sample_dist(s, c, i) == radius);
        if radius > 0 {
            vstd::arithmetic::div_mod::lemma_div_multiples_vanish(1024, radius);
            assert(radius * 1024 == 1024 * radius) by (nonlinear_arith);
        }
        assert(sample_correction(s, c, radius, i) == 0);
        assert(weight_term(s, c, radius, 0, i) == 0);
        assert(weight_term(s, c, radius, 1, i) == 0);
        assert(weight_term(s, c, radius, 2, i) == 0);
    }
}

/// When every sample lies at the same distance from the center, the fit
/// applies no gain: every axis keeps the unit scale 1024.
pub proof fn lemma_equidistant_unit_scale(s: Seq<Measurement>, c: Measurement)
    requires
        s.len() >= 1,
        forall|i: int, j: int|
            0 <= i < s.len() && 0 <= j < s.len() ==> dist2(c, s[i]) == dist2(c, s[j]),
    ensures
        spherified(s, c).scale == (Measurement { x: 1024, y: 1024, z: 1024 }),
{
    let n = s.len() as int;
    assert forall|i: int| 0 <= i < s.len() implies #[trigger] dist2(c, s[i]) == dist2(c, s[0]) by {
        assert(dist2(c, s[i]) == dist2(c, s[0]));
    }
    lemma_max_of_equal(s, c, n);
    let radius = sphere_radius(s, c);
    assert forall|i: int| 0 <= i < s.len() implies #[trigger] sample_dist(s, c, i) == radius by {
        assert(dist2(c, s[i]) == dist2(c, s[0]));
    }
    lemma_dist2_nonneg(c, s[0]);
    lemma_floor_sqrt(dist2(c, s[0]));
    lemma_no_correction(s, c, radius, n);
    assert(floor_sqrt(0) == 0);
}

/// Largest distance, rounded down, from `c` to the first `n` samples.
pub open spec fn max_sample_dist(s: Seq<Measurement>, c: Measurement, n: int) -> int
    decreases n,
{
    if n <= 1 {
        sample_dist(s, c, 0)
    } else {
        let m = max_sample_dist(s, c, n - 1);
        let d = sample_dist(s, c, n - 1);
        if d > m { d } else { m }
    }
}

proof fn lemma_dist2_nonneg(a: Measurement, b: Measurement)
    ensures
        dist2(a, b) >= 0,
{
    let dx = a.x - b.x;
    let dy = a.y - b.y;
    let dz = a.z - b.z;
    assert(dx * dx >= 0 && dy * dy >= 0 && dz * dz >= 0) by (nonlinear_arith);
}

proof fn lemma_max_commutes_with_root(s: Seq<Measurement>, c: Measurement, n: int)
    requires
        1 <= n <= s.len(),
    ensures
        max_sample_dist(s, c, n) == floor_sqrt(max_dist2(s, c, n)),
        max_dist2(s, c, n) >= 0,
    decreases n,
{
    lemma_dist2_nonneg(c, s[n - 1]);
    if n > 1 {
        lemma_max_commutes_with_root(s, c, n - 1);
        let m = max_dist2(s, c, n - 1);
        let d = dist2(c, s[n - 1]);
        if d > m {
            lemma_floor_sqrt_monotone(m, d);
        } else {
            lemma_floor_sqrt_monotone(d, m);
        }
    }
}

/// The radius of the fit is exactly the largest of the samples' distances
/// from the center (each rounded down).
pub proof fn lemma_radius_is_max_distance(s: Seq<Measurement>, c: Measurement)
    requires
        s.len() >= 1,
    ensures
        sphere_radius(s, c) == max_sample_dist(s, c, s.len() as int),
{
    lemma_max_commutes_with_root(s, c, s.len() as int);
}

} // verus!
