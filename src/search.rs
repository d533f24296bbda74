//! Estimation of the hard-iron center: a fixed-step local search that makes
//! the samples as nearly equidistant from the center as it can.
use vstd::prelude::*;
use crate::measurement::Measurement;

verus! {

/// Number of samples in one calibration pass.
pub const SAMPLE_COUNT: usize = 25;

/// Largest magnitude of a magnetometer sample on any axis: the driver reports
/// a signed 16-bit count times 150.
pub const READING_LIMIT: i32 = 8_388_608;

/// Largest magnitude on any axis of a center that the search considers.
pub const CENTER_LIMIT: i32 = 33_554_432;

/// Step of the local search on each axis.
pub const CALIBRATION_INCREMENT: i32 = 200;

/// Number of candidates in one scan: every combination of one step down, no
/// step and one step up on the three axes.
pub const CANDIDATE_COUNT: usize = 27;

pub open spec fn abs(v: int) -> int {
    if v < 0 { -v } else { v }
}

pub open spec fn reading_ok(m: Measurement) -> bool {
    abs(m.x as int) <= READING_LIMIT && abs(m.y as int) <= READING_LIMIT && abs(m.z as int)
        <= READING_LIMIT
}

pub open spec fn samples_ok(s: Seq<Measurement>) -> bool {
    forall|i: int| 0 <= i < s.len() ==> #[trigger] reading_ok(s[i])
}

pub open spec fn in_box(c: Measurement) -> bool {
    abs(c.x as int) <= CENTER_LIMIT && abs(c.y as int) <= CENTER_LIMIT && abs(c.z as int)
        <= CENTER_LIMIT
}

/// Squared distance between two points.
pub open spec fn dist2(a: Measurement, b: Measurement) -> int {
    (a.x - b.x) * (a.x - b.x) + (a.y - b.y) * (a.y - b.y) + (a.z - b.z) * (a.z - b.z)
}

/// Largest squared distance from `c` to the first `n` samples.
pub open spec fn max_dist2(s: Seq<Measurement>, c: Measurement, n: int) -> int
    decreases n,
{
    if n <= 1 {
        dist2(c, s[0])
    } else {
        let m = max_dist2(s, c, n - 1);
        let d = dist2(c, s[n - 1]);
        if d > m { d } else { m }
    }
}

/// Smallest squared distance from `c` to the first `n` samples.
pub open spec fn min_dist2(s: Seq<Measurement>, c: Measurement, n: int) -> int
    decreases n,
{
    if n <= 1 {
        dist2(c, s[0])
    } else {
        let m = min_dist2(s, c, n - 1);
        let d = dist2(c, s[n - 1]);
        if d < m { d } else { m }
    }
}

/// Spread of the squared sample distances from `c`: zero when every sample
/// lies at the same distance.
pub open spec fn score(s: Seq<Measurement>, c: Measurement) -> int {
    max_dist2(s, c, s.len() as int) - min_dist2(s, c, s.len() as int)
}

pub proof fn lemma_min_le_max(s: Seq<Measurement>, c: Measurement, n: int)
    requires
        n >= 1,
    ensures
        min_dist2(s, c, n) <= max_dist2(s, c, n),
    decreases n,
{
    if n > 1 {
        lemma_min_le_max(s, c, n - 1);
    }
}

pub proof fn lemma_score_nonneg(s: Seq<Measurement>, c: Measurement)
    requires
        s.len() >= 1,
    ensures
        score(s, c) >= 0,
{
    lemma_min_le_max(s, c, s.len() as int);
}

/// Sum of the `x`, `y` or `z` coordinates (axis 0, 1 or 2) of the first `n`
/// samples.
pub open spec fn axis_sum(s: Seq<Measurement>, axis: int, n: int) -> int
    decreases n,
{
    if n <= 0 {
        0
    } else {
        let m = s[n - 1];
        axis_sum(s, axis, n - 1) + if axis == 0 {
            m.x as int
        } else if axis == 1 {
            m.y as int
        } else {
            m.z as int
        }
    }
}

/// Integer division truncated toward zero.
pub open spec fn trunc_div(a: int, n: int) -> int {
    if a >= 0 { a / n } else { -((-a) / n) }
}

/// Componentwise mean of the samples, truncated toward zero.
pub open spec fn mean(s: Seq<Measurement>) -> Measurement {
    let n = s.len() as int;
    Measurement {
        x: trunc_div(axis_sum(s, 0, n), n) as i32,
        y: trunc_div(axis_sum(s, 1, n), n) as i32,
        z: trunc_div(axis_sum(s, 2, n), n) as i32,
    }
}

/// Step of one axis for the digit `i` of a candidate index.
pub open spec fn step_of(i: int) -> int {
    if i == 0 {
        -CALIBRATION_INCREMENT
    } else if i == 1 {
        0
    } else {
        CALIBRATION_INCREMENT as int
    }
}

/// The offsets of candidate `k` of a scan, in scan order: `x` varies slowest
/// and `z` fastest.
pub open spec fn candidate_offset(k: int) -> (int, int, int) {
    (step_of(k / 9), step_of((k / 3) % 3), step_of(k % 3))
}

pub open spec fn candidate_ok(cur: Measurement, k: int) -> bool {
    let o = candidate_offset(k);
    abs(cur.x + o.0) <= CENTER_LIMIT && abs(cur.y + o.1) <= CENTER_LIMIT && abs(cur.z + o.2)
        <= CENTER_LIMIT
}

pub open spec fn candidate(cur: Measurement, k: int) -> Measurement {
    let o = candidate_offset(k);
    Measurement {
        x: (cur.x + o.0) as i32,
        y: (cur.y + o.1) as i32,
        z: (cur.z + o.2) as i32,
    }
}

/// Best of the first `k` candidates around `cur`: the earliest one whose
/// score is strictly below all before it, or `cur` if none improves on it.
/// Candidates outside the center box are not considered.
pub open spec fn scan(s: Seq<Measurement>, cur: Measurement, k: int) -> Measurement
    decreases k,
{
    if k <= 0 {
        cur
    } else {
        let b = scan(s, cur, k - 1);
        let c = candidate(cur, k - 1);
        if candidate_ok(cur, k - 1) && score(s, c) < score(s, b) {
            c
        } else {
            b
        }
    }
}

pub proof fn lemma_scan(s: Seq<Measurement>, cur: Measurement, k: int)
    requires
        in_box(cur),
        0 <= k <= 27,
    ensures
        in_box(scan(s, cur, k)),
        score(s, scan(s, cur, k)) <= score(s, cur),
        scan(s, cur, k) == cur || score(s, scan(s, cur, k)) < score(s, cur),
    decreases k,
{
    if k > 0 {
        lemma_scan(s, cur, k - 1);
    }
}

/// The center the search converges to from `cur`: scan, move to the best
/// candidate, and stop when no candidate improves on the current center.
pub open spec fn descend(s: Seq<Measurement>, cur: Measurement) -> Measurement
    decreases score(s, cur),
    when s.len() >= 1 && in_box(cur)
{
    let next = scan(s, cur, 27);
    if next == cur {
        cur
    } else {
        proof {
            lemma_scan(s, cur, 27);
            lemma_score_nonneg(s, next);
        }
        descend(s, next)
    }
}

/// The center estimated from a sample set: the local search started at the
/// mean of the samples.
pub open spec fn center_of(s: Seq<Measurement>) -> Measurement {
    descend(s, mean(s))
}

/// The search never ends at a center scoring worse than where it started.
pub proof fn lemma_descend_no_worse(s: Seq<Measurement>, cur: Measurement)
    requires
        s.len() >= 1,
        in_box(cur),
    ensures
        in_box(descend(s, cur)),
        score(s, descend(s, cur)) <= score(s, cur),
        scan(s, descend(s, cur), 27) == descend(s, cur),
    decreases score(s, cur),
{
    let next = scan(s, cur, 27);
    lemma_scan(s, cur, 27);
    if next != cur {
        lemma_score_nonneg(s, next);
        lemma_descend_no_worse(s, next);
    }
}

proof fn lemma_square_bound(d: int)
    requires
        -0x400_0000 < d < 0x400_0000,
    ensures
        0 <= d * d < 0x10_0000_0000_0000,
{
    assert(0 <= d * d < 0x10_0000_0000_0000) by (nonlinear_arith)
        requires
            -0x400_0000 < d < 0x400_0000,
    ;
}

proof fn lemma_dist2_bound(a: Measurement, b: Measurement)
    requires
        in_box(a),
        reading_ok(b),
    ensures
        0 <= dist2(a, b) < 0x40_0000_0000_0000,
{
    let dx = a.x - b.x;
    let dy = a.y - b.y;
    let dz = a.z - b.z;
    assert(0 <= dx * dx < 0x10_0000_0000_0000) by (nonlinear_arith)
        requires
            -0x400_0000 < dx < 0x400_0000,
    ;
    assert(0 <= dy * dy < 0x10_0000_0000_0000) by (nonlinear_arith)
        requires
            -0x400_0000 < dy < 0x400_0000,
    ;
    assert(0 <= dz * dz < 0x10_0000_0000_0000) by (nonlinear_arith)
        requires
            -0x400_0000 < dz < 0x400_0000,
    ;
}

/// Squared distance between a center and a sample.
pub fn difference_square(a: &Measurement, b: &Measurement) -> (r: i64)
    requires
        in_box(*a),
        reading_ok(*b),
    ensures
        r as int == dist2(*a, *b),
        0 <= r < 0x40_0000_0000_0000,
{
    proof {
        lemma_dist2_bound(*a, *b);
    }
    let dx: i64 = a.x as i64 - b.x as i64;
    let dy: i64 = a.y as i64 - b.y as i64;
    let dz: i64 = a.z as i64 - b.z as i64;
    proof {
        lemma_square_bound(dx as int);
        lemma_square_bound(dy as int);
        lemma_square_bound(dz as int);
    }
    dx * dx + dy * dy + dz * dz
}

/// Spread of the squared sample distances from `center`.
pub fn measure_score(center: &Measurement, data: &[Measurement; 25]) -> (r: i64)
    requires
        in_box(*center),
        samples_ok(data@),
    ensures
        r as int == score(data@, *center),
{
    let s = Ghost(data@);
    assert(reading_ok(s@[0]));
    let mut min_d: i64 = difference_square(center, &data[0]);
    let mut max_d: i64 = min_d;
    let mut i: usize = 1;
    while i < SAMPLE_COUNT
        invariant
            s@ == data@,
            s@.len() == 25,
            in_box(*center),
            samples_ok(s@),
            1 <= i <= 25,
            min_d as int == min_dist2(s@, *center, i as int),
            max_d as int == max_dist2(s@, *center, i as int),
            0 <= min_d < 0x40_0000_0000_0000,
            0 <= max_d < 0x40_0000_0000_0000,
        decreases 25 - i,
    {
        assert(reading_ok(s@[i as int]));
        let d = difference_square(center, &data[i]);
        if d < min_d {
            min_d = d;
        }
        if d > max_d {
            max_d = d;
        }
        i = i + 1;
    }
    max_d - min_d
}

/// Componentwise mean of the samples, truncated toward zero.
pub fn mean_center(data: &[Measurement; 25]) -> (r: Measurement)
    requires
        samples_ok(data@),
    ensures
        r == mean(data@),
        in_box(r),
{
    let s = Ghost(data@);
    let mut sx: i64 = 0;
    let mut sy: i64 = 0;
    let mut sz: i64 = 0;
    let mut i: usize = 0;
    while i < SAMPLE_COUNT
        invariant
            s@ == data@,
            s@.len() == 25,
            samples_ok(s@),
            0 <= i <= 25,
            sx as int == axis_sum(s@, 0, i as int),
            sy as int == axis_sum(s@, 1, i as int),
            sz as int == axis_sum(s@, 2, i as int),
            abs(sx as int) <= i * READING_LIMIT,
            abs(sy as int) <= i * READING_LIMIT,
            abs(sz as int) <= i * READING_LIMIT,
        decreases 25 - i,
    {
        assert(reading_ok(s@[i as int]));
        sx = sx + data[i].x as i64;
        sy = sy + data[i].y as i64;
        sz = sz + data[i].z as i64;
        i = i + 1;
    }
    let x = trunc_div_exec(sx);
    let y = trunc_div_exec(sy);
    let z = trunc_div_exec(sz);
    Measurement { x, y, z }
}

fn trunc_div_exec(a: i64) -> (r: i32)
    requires
        abs(a as int) <= 25 * READING_LIMIT,
    ensures
        r as int == trunc_div(a as int, 25),
        abs(r as int) <= READING_LIMIT,
{
    if a >= 0 {
        (a / 25) as i32
    } else {
        -((-a) / 25) as i32
    }
}

/// Offset of one axis for the digit `i` of a candidate index.
fn step_exec(i: usize) -> (r: i32)
    requires
        i < 3,
    ensures
        r as int == step_of(i as int),
{
    if i == 0 {
        -CALIBRATION_INCREMENT
    } else if i == 1 {
        0
    } else {
        CALIBRATION_INCREMENT
    }
}

fn within_box(v: i32) -> (r: bool)
    ensures
        r == (abs(v as int) <= CENTER_LIMIT),
{
    -CENTER_LIMIT <= v && v <= CENTER_LIMIT
}

/// Estimates the hard-iron center of a sample set: starting from the mean,
/// scan the 27 candidates one step around the current center, move to the
/// best strictly better one, and stop when none is better.
pub fn find_center(data: &[Measurement; 25]) -> (r: Measurement)
    requires
        samples_ok(data@),
    ensures
        r == center_of(data@),
        in_box(r),
        score(data@, r) <= score(data@, mean(data@)),
{
    let s = Ghost(data@);
    let start = mean_center(data);
    let mut current = start;
    let mut score_now: i64 = measure_score(&current, data);
    proof {
        lemma_descend_no_worse(s@, start);
        lemma_score_nonneg(s@, current);
    }
    loop
        invariant
            s@ == data@,
            s@.len() == 25,
            samples_ok(s@),
            in_box(current),
            score_now as int == score(s@, current),
            descend(s@, current) == descend(s@, start),
        ensures
            in_box(current),
            current == descend(s@, start),
        decreases score(s@, current),
    {
        let mut best = current;
        let mut k: usize = 0;
        while k < CANDIDATE_COUNT
            invariant
                s@ == data@,
                s@.len() == 25,
                samples_ok(s@),
                in_box(current),
                0 <= k <= 27,
                best == scan(s@, current, k as int),
                score_now as int == score(s@, best),
            decreases 27 - k,
        {
            let dx = step_exec(k / 9);
            let dy = step_exec((k / 3) % 3);
            let dz = step_exec(k % 3);
            let ax: i32 = current.x + dx;
            let ay: i32 = current.y + dy;
            let az: i32 = current.z + dz;
            if within_box(ax) && within_box(ay) && within_box(az) {
                let attempt = Measurement { x: ax, y: ay, z: az };
                assert(attempt == candidate(current, k as int));
                let attempt_score = measure_score(&attempt, data);
                if attempt_score < score_now {
                    score_now = attempt_score;
                    best = attempt;
                }
            }
            k = k + 1;
        }
        proof {
            lemma_scan(s@, current, 27);
            lemma_score_nonneg(s@, best);
        }
        if best == current {
            assert(descend(s@, current) == current);
            break;
        }
        assert(descend(s@, current) == descend(s@, best));
        current = best;
    }
    current
}

} // verus!
