//! Radius and per-axis gain of the sample sphere around an estimated center,
//! in integer and fixed-point arithmetic.
use vstd::prelude::*;
use crate::measurement::{Calibration, Measurement};
use crate::search::{
    abs, dist2, in_box, max_dist2, reading_ok, samples_ok, SAMPLE_COUNT, difference_square,
};

verus! {

/// Largest `k` in `0..=bound` whose square is at most `n` (zero if none).
pub open spec fn sqrt_below(n: int, bound: int) -> int
    decreases bound,
{
    if bound <= 0 {
        0
    } else if bound * bound <= n {
        bound
    } else {
        sqrt_below(n, bound - 1)
    }
}

/// Integer square root, rounded down.
pub open spec fn floor_sqrt(n: int) -> int {
    sqrt_below(n, n)
}

pub open spec fn is_floor_sqrt(r: int, n: int) -> bool {
    0 <= r && r * r <= n && n < (r + 1) * (r + 1)
}

proof fn lemma_sqrt_below(n: int, bound: int)
    requires
        0 <= n,
        0 <= bound,
        n < (bound + 1) * (bound + 1),
    ensures
        is_floor_sqrt(sqrt_below(n, bound), n),
    decreases bound,
{
    if bound > 0 && bound * bound > n {
        lemma_sqrt_below(n, bound - 1);
    }
}

pub proof fn lemma_floor_sqrt(n: int)
    requires
        0 <= n,
    ensures
        is_floor_sqrt(floor_sqrt(n), n),
{
    assert(n < (n + 1) * (n + 1)) by (nonlinear_arith)
        requires
            0 <= n,
    ;
    lemma_sqrt_below(n, n);
}

pub proof fn lemma_floor_sqrt_unique(r: int, n: int)
    requires
        is_floor_sqrt(r, n),
    ensures
        r == floor_sqrt(n),
{
    lemma_floor_sqrt(n);
    let q = floor_sqrt(n);
    assert(r == q) by (nonlinear_arith)
        requires
            is_floor_sqrt(r, n),
            is_floor_sqrt(q, n),
    {
        if r < q {
            assert((r + 1) * (r + 1) <= q * q) by (nonlinear_arith)
                requires
                    0 <= r < q,
            ;
        }
        if q < r {
            assert((q + 1) * (q + 1) <= r * r) by (nonlinear_arith)
                requires
                    0 <= q < r,
            ;
        }
    }
}

/// A non-negative value whose square is at most `n` is at most its root.
pub proof fn lemma_le_floor_sqrt(a: int, n: int)
    requires
        0 <= a,
        a * a <= n,
    ensures
        a <= floor_sqrt(n),
{
    lemma_floor_sqrt(n);
    let r = floor_sqrt(n);
    assert(a <= r) by (nonlinear_arith)
        requires
            0 <= a,
            a * a <= n,
            is_floor_sqrt(r, n),
    {
        if a > r {
            assert((r + 1) * (r + 1) <= a * a) by (nonlinear_arith)
                requires
                    0 <= r < a,
            ;
        }
    }
}

pub proof fn lemma_floor_sqrt_monotone(a: int, b: int)
    requires
        0 <= a <= b,
    ensures
        floor_sqrt(a) <= floor_sqrt(b),
{
    lemma_floor_sqrt(a);
    let r = floor_sqrt(a);
    assert(r * r <= b);
    lemma_le_floor_sqrt(r, b);
}

/// Integer square root, rounded down.
pub fn isqrt(n: u128) -> (r: u64)
    requires
        n < 0x1_0000_0000_0000_0000_0000_0000_0000,
    ensures
        r as int == floor_sqrt(n as int),
        r < 0x1000_0000_0000_0000,
{
    let mut lo: u128 = 0;
    let mut hi: u128 = 0x1000_0000_0000_0000;
    assert(hi * hi == 0x100_0000_0000_0000_0000_0000_0000_0000) by (nonlinear_arith)
        requires
            hi == 0x1000_0000_0000_0000,
    ;
    while hi - lo > 1
        invariant
            lo < hi <= 0x1000_0000_0000_0000,
            lo * lo <= n,
            n < hi * hi,
        decreases hi - lo,
    {
        let mid: u128 = lo + (hi - lo) / 2;
        assert(mid * mid < 0x1_0000_0000_0000_0000_0000_0000_0000_0000) by (nonlinear_arith)
            requires
                mid < 0x1000_0000_0000_0000,
        ;
        if mid * mid <= n {
            lo = mid;
        } else {
            hi = mid;
        }
    }
    proof {
        assert(hi == lo + 1);
        lemma_floor_sqrt_unique(lo as int, n as int);
    }
    lo as u64
}

/// Signed offset from the center to a point on axis 0, 1 or 2.
pub open spec fn axis_offset(c: Measurement, p: Measurement, axis: int) -> int {
    if axis == 0 {
        p.x - c.x
    } else if axis == 1 {
        p.y - c.y
    } else {
        p.z - c.z
    }
}

/// Distance from the center to sample `i`, rounded down.
pub open spec fn sample_dist(s: Seq<Measurement>, c: Measurement, i: int) -> int {
    floor_sqrt(dist2(c, s[i]))
}

/// Radius of the fitted sphere: the root of the largest squared distance.
pub open spec fn sphere_radius(s: Seq<Measurement>, c: Measurement) -> int {
    floor_sqrt(max_dist2(s, c, s.len() as int))
}

/// Correction of sample `i` in units of 1/1024: `radius / d - 1`, and zero
/// for a sample at the center itself.
pub open spec fn sample_correction(s: Seq<Measurement>, c: Measurement, radius: int, i: int) -> int {
    let d = sample_dist(s, c, i);
    if d == 0 {
        0
    } else {
        radius * 1024 / d - 1024
    }
}

/// Largest correction over the first `n` samples, and zero for none.
pub open spec fn overall_correction(s: Seq<Measurement>, c: Measurement, radius: int, n: int) -> int
    decreases n,
{
    if n <= 0 {
        0
    } else {
        let m = overall_correction(s, c, radius, n - 1);
        let v = sample_correction(s, c, radius, n - 1);
        if v > m { v } else { m }
    }
}

/// Share of axis `axis` in the correction of sample `i`:
/// `correction * |offset| / d`.
pub open spec fn weight_term(s: Seq<Measurement>, c: Measurement, radius: int, axis: int, i: int) -> int {
    let d = sample_dist(s, c, i);
    if d == 0 {
        0
    } else {
        sample_correction(s, c, radius, i) * abs(axis_offset(c, s[i], axis)) / d
    }
}

/// Weight of axis `axis` over the first `n` samples.
pub open spec fn axis_weight(s: Seq<Measurement>, c: Measurement, radius: int, axis: int, n: int) -> int
    decreases n,
{
    if n <= 0 {
        0
    } else {
        axis_weight(s, c, radius, axis, n - 1) + weight_term(s, c, radius, axis, n - 1)
    }
}

/// Fixed-point gain of one axis: `1024 + overall * weight / magnitude`
/// rounded to nearest, saturated at `i32::MAX`, and `1024` when no axis has
/// any weight.
pub open spec fn axis_scale(overall: int, weight: int, magnitude: int) -> int {
    if magnitude == 0 {
        1024
    } else {
        let v = 1024 + (2 * overall * weight + magnitude) / (2 * magnitude);
        if v > i32::MAX { i32::MAX as int } else { v }
    }
}

/// The calibration fitted to samples `s` around center `c`.
pub open spec fn spherified(s: Seq<Measurement>, c: Measurement) -> Calibration {
    let n = s.len() as int;
    let radius = sphere_radius(s, c);
    let overall = overall_correction(s, c, radius, n);
    let wx = axis_weight(s, c, radius, 0, n);
    let wy = axis_weight(s, c, radius, 1, n);
    let wz = axis_weight(s, c, radius, 2, n);
    let magnitude = floor_sqrt(wx * wx + wy * wy + wz * wz);
    Calibration {
        center: c,
        scale: Measurement {
            x: axis_scale(overall, wx, magnitude) as i32,
            y: axis_scale(overall, wy, magnitude) as i32,
            z: axis_scale(overall, wz, magnitude) as i32,
        },
        radius: radius as u32,
    }
}

proof fn lemma_offset_le_dist(c: Measurement, p: Measurement, axis: int)
    requires
        0 <= axis < 3,
    ensures
        abs(axis_offset(c, p, axis)) <= floor_sqrt(dist2(c, p)),
{
    let o = axis_offset(c, p, axis);
    let dx = c.x - p.x;
    let dy = c.y - p.y;
    let dz = c.z - p.z;
    assert(dx * dx >= 0 && dy * dy >= 0 && dz * dz >= 0) by (nonlinear_arith);
    assert(abs(o) * abs(o) <= dist2(c, p)) by (nonlinear_arith)
        requires
            o == -dx || o == -dy || o == -dz,
            dist2(c, p) == dx * dx + dy * dy + dz * dz,
            dx * dx >= 0 && dy * dy >= 0 && dz * dz >= 0,
    ;
    lemma_le_floor_sqrt(abs(o), dist2(c, p));
}

/// `correction * |offset| / d`, and zero when `d` is zero.
fn weight_share(correction: u64, offset: i64, d: u64) -> (r: u64)
    requires
        abs(offset as int) <= d,
        d < 0x800_0000,
        correction < 0x40_0000_0000,
    ensures
        d == 0 ==> r == 0,
        d != 0 ==> r as int == correction * abs(offset as int) / (d as int),
        r <= correction,
{
    if d == 0 {
        0
    } else {
        let a: u64 = if offset < 0 { (-offset) as u64 } else { offset as u64 };
        proof {
            assert(correction * a <= correction * d) by (nonlinear_arith)
                requires
                    a <= d,
            ;
            assert(correction * a / (d as int) <= correction) by (nonlinear_arith)
                requires
                    correction * a <= correction * d,
                    d > 0,
                    correction >= 0,
            {
                vstd::arithmetic::div_mod::lemma_div_is_ordered(
                    correction * a as int, correction * d as int, d as int);
                vstd::arithmetic::div_mod::lemma_div_multiples_vanish(correction as int, d as int);
            }
            assert(correction * a < 0x40_0000_0000 * 0x800_0000) by (nonlinear_arith)
                requires
                    correction < 0x40_0000_0000,
                    a <= d,
                    d < 0x800_0000,
            ;
        }
        ((correction as u128 * a as u128) / d as u128) as u64
    }
}

proof fn lemma_dist2_le_max(s: Seq<Measurement>, c: Measurement, i: int, n: int)
    requires
        0 <= i < n,
    ensures
        dist2(c, s[i]) <= max_dist2(s, c, n),
    decreases n,
{
    if i < n - 1 {
        lemma_dist2_le_max(s, c, i, n - 1);
    }
}

proof fn lemma_root_bound(n: int, r: int)
    requires
        0 <= n < 0x40_0000_0000_0000,
        r == floor_sqrt(n),
    ensures
        0 <= r < 0x800_0000,
{
    lemma_floor_sqrt(n);
    assert(r < 0x800_0000) by (nonlinear_arith)
        requires
            0 <= r,
            r * r <= n,
            n < 0x40_0000_0000_0000,
    {
        if r >= 0x800_0000 {
            assert(r * r >= 0x800_0000 * 0x800_0000) by (nonlinear_arith)
                requires
                    r >= 0x800_0000,
            ;
        }
    }
}

/// `radius * 1024 / d - 1024`, which is not negative as `d <= radius`.
fn correction_of(radius: u64, d: u64) -> (r: u64)
    requires
        0 < d <= radius < 0x800_0000,
    ensures
        r as int == radius * 1024 / (d as int) - 1024,
        r < 0x40_0000_0000,
{
    proof {
        assert(d * 1024 <= radius * 1024);
        vstd::arithmetic::div_mod::lemma_div_is_ordered(d * 1024, radius * 1024, d as int);
        vstd::arithmetic::div_mod::lemma_div_multiples_vanish(1024, d as int);
        vstd::arithmetic::div_mod::lemma_div_is_ordered_by_denominator(radius * 1024, 1, d as int);
    }
    radius * 1024 / d - 1024
}

/// `1024 + overall * weight / magnitude`, rounded to nearest and saturated.
fn scale_of(overall: u64, weight: u64, magnitude: u64) -> (r: i32)
    requires
        overall < 0x40_0000_0000,
        weight < 0x800_0000_0000,
        magnitude < 0x1000_0000_0000_0000,
    ensures
        r as int == axis_scale(overall as int, weight as int, magnitude as int),
        r >= 1024,
{
    if magnitude == 0 {
        1024
    } else {
        proof {
            assert(2 * overall * weight < 0x4_0000_0000_0000_0000_0000) by (nonlinear_arith)
                requires
                    overall < 0x40_0000_0000,
                    weight < 0x800_0000_0000,
            ;
        }
        let q: u128 = (2 * overall as u128 * weight as u128 + magnitude as u128) / (2 * magnitude as u128);
        if q > 0x7fff_fbff {
            i32::MAX
        } else {
            1024 + q as i32
        }
    }
}

/// Derives the radius and the per-axis gains of the sample sphere around
/// `center`.
pub fn spherify(center: Measurement, data: &[Measurement; 25]) -> (r: Calibration)
    requires
        in_box(center),
        samples_ok(data@),
    ensures
        r == spherified(data@, center),
        r.scale.x >= 1024 && r.scale.y >= 1024 && r.scale.z >= 1024,
{
    let s = Ghost(data@);
    let mut radius2: i64 = 0;
    let mut i: usize = 0;
    while i < SAMPLE_COUNT
        invariant
            s@ == data@,
            s@.len() == 25,
            in_box(center),
            samples_ok(s@),
            0 <= i <= 25,
            i == 0 ==> radius2 == 0,
            i > 0 ==> radius2 as int == max_dist2(s@, center, i as int),
            0 <= radius2 < 0x40_0000_0000_0000,
        decreases 25 - i,
    {
        assert(reading_ok(s@[i as int]));
        let d2 = difference_square(&center, &data[i]);
        if i == 0 || d2 > radius2 {
            radius2 = d2;
        }
        i = i + 1;
    }
    let radius: u64 = isqrt(radius2 as u128);
    proof {
        lemma_root_bound(radius2 as int, radius as int);
    }
    let mut overall: u64 = 0;
    let mut wx: u64 = 0;
    let mut wy: u64 = 0;
    let mut wz: u64 = 0;
    let mut i: usize = 0;
    while i < SAMPLE_COUNT
        invariant
            s@ == data@,
            s@.len() == 25,
            in_box(center),
            samples_ok(s@),
            0 <= i <= 25,
            radius2 as int == max_dist2(s@, center, 25),
            radius as int == floor_sqrt(radius2 as int),
            radius < 0x800_0000,
            overall as int == overall_correction(s@, center, radius as int, i as int),
            wx as int == axis_weight(s@, center, radius as int, 0, i as int),
            wy as int == axis_weight(s@, center, radius as int, 1, i as int),
            wz as int == axis_weight(s@, center, radius as int, 2, i as int),
            overall < 0x40_0000_0000,
            wx <= i * 0x40_0000_0000,
            wy <= i * 0x40_0000_0000,
            wz <= i * 0x40_0000_0000,
        decreases 25 - i,
    {
        let p = data[i];
        assert(reading_ok(s@[i as int]));
        let d2 = difference_square(&center, &p);
        let d: u64 = isqrt(d2 as u128);
        proof {
            lemma_root_bound(d2 as int, d as int);
            lemma_dist2_le_max(s@, center, i as int, 25);
            lemma_floor_sqrt_monotone(d2 as int, radius2 as int);
            lemma_offset_le_dist(center, p, 0);
            lemma_offset_le_dist(center, p, 1);
            lemma_offset_le_dist(center, p, 2);
        }
        let corr: u64 = if d == 0 { 0 } else { correction_of(radius, d) };
        if corr > overall {
            overall = corr;
        }
        wx = wx + weight_share(corr, p.x as i64 - center.x as i64, d);
        wy = wy + weight_share(corr, p.y as i64 - center.y as i64, d);
        wz = wz + weight_share(corr, p.z as i64 - center.z as i64, d);
        i = i + 1;
    }
    proof {
        assert(wx * wx < 0x40_0000_0000_0000_0000_0000) by (nonlinear_arith)
            requires
                wx <= 25 * 0x40_0000_0000,
        ;
        assert(wy * wy < 0x40_0000_0000_0000_0000_0000) by (nonlinear_arith)
            requires
                wy <= 25 * 0x40_0000_0000,
        ;
        assert(wz * wz < 0x40_0000_0000_0000_0000_0000) by (nonlinear_arith)
            requires
                wz <= 25 * 0x40_0000_0000,
        ;
    }
    let sum: u128 = wx as u128 * wx as u128 + wy as u128 * wy as u128 + wz as u128 * wz as u128;
    let magnitude: u64 = isqrt(sum);
    Calibration {
        center,
        scale: Measurement {
            x: scale_of(overall, wx, magnitude),
            y: scale_of(overall, wy, magnitude),
            z: scale_of(overall, wz, magnitude),
        },
        radius: radius as u32,
    }
}

} // verus!
