//! Three-axis readings, the calibration value and its application to a live
//! magnetometer reading.
use vstd::prelude::*;

verus! {

/// Fixed-point denominator of the per-axis gains: a gain of `1024` is `1.0`.
pub const SCALE_ONE: i32 = 1024;

/// A three-axis sample in raw sensor counts.
#[derive(Clone, Copy, Debug, PartialEq, Eq, Structural)]
pub struct Measurement {
    pub x: i32,
    pub y: i32,
    pub z: i32,
}

impl Measurement {
    pub fn new(x: i32, y: i32, z: i32) -> (r: Measurement)
        ensures
            r.x == x && r.y == y && r.z == z,
    {
        Measurement { x, y, z }
    }
}

/// The correction derived once from the calibration samples.
#[derive(Clone, Copy, Debug, PartialEq, Eq, Structural)]
pub struct Calibration {
    pub center: Measurement,
    pub scale: Measurement,
    pub radius: u32,
}

impl Calibration {
    /// The identity correction: no offset and unit gain on every axis.
    pub open spec fn identity() -> Calibration {
        Calibration {
            center: Measurement { x: 0, y: 0, z: 0 },
            scale: Measurement { x: 1024, y: 1024, z: 1024 },
            radius: 0,
        }
    }

    pub fn center(&self) -> (r: Measurement)
        ensures
            r == self.center,
    {
        self.center
    }

    pub fn scale(&self) -> (r: Measurement)
        ensures
            r == self.scale,
    {
        self.scale
    }

    pub fn radius(&self) -> (r: u32)
        ensures
            r == self.radius,
    {
        self.radius
    }
}

impl Default for Calibration {
    fn default() -> (r: Calibration)
        ensures
            r == Calibration::identity(),
    {
        Calibration {
            center: Measurement { x: 0, y: 0, z: 0 },
            scale: Measurement { x: SCALE_ONE, y: SCALE_ONE, z: SCALE_ONE },
            radius: 0,
        }
    }
}

/// The canonical frame of a device reading: x and y swapped, both negated.
/// The map is its own inverse.
pub open spec fn spec_to_canonical(x: int, y: int, z: int) -> (int, int, int) {
    (-y, -x, z)
}

/// Maps a device reading into the canonical frame.
pub fn measurement_to_enu(m: &Measurement) -> (r: Measurement)
    requires
        m.x > i32::MIN,
        m.y > i32::MIN,
    ensures
        (r.x as int, r.y as int, r.z as int) == spec_to_canonical(m.x as int, m.y as int, m.z as int),
{
    Measurement { x: -m.y, y: -m.x, z: m.z }
}

/// Maps a canonical-frame value back into device coordinates.
pub fn enu_to_cartesian(m: &Measurement) -> (r: Measurement)
    requires
        m.x > i32::MIN,
        m.y > i32::MIN,
    ensures
        (r.x as int, r.y as int, r.z as int) == spec_to_canonical(m.x as int, m.y as int, m.z as int),
{
    Measurement { x: -m.y, y: -m.x, z: m.z }
}

/// One axis of the correction: `((v - center) * scale) >> 10`, the shift being
/// floor division by the fixed-point denominator.
pub open spec fn spec_correct_axis(v: int, center: int, scale: int) -> int {
    ((v - center) * scale) / 1024
}

/// The corrected reading in device coordinates, as unbounded integers.
pub open spec fn spec_corrected(m: Measurement, cal: Calibration) -> (int, int, int) {
    let c = spec_to_canonical(m.x as int, m.y as int, m.z as int);
    let k = (
        spec_correct_axis(c.0, cal.center.x as int, cal.scale.x as int),
        spec_correct_axis(c.1, cal.center.y as int, cal.scale.y as int),
        spec_correct_axis(c.2, cal.center.z as int, cal.scale.z as int),
    );
    spec_to_canonical(k.0, k.1, k.2)
}

pub open spec fn fits_i32(v: int) -> bool {
    i32::MIN <= v <= i32::MAX
}

/// The corrected reading of `m` under `cal` is representable.
pub open spec fn correction_fits(m: Measurement, cal: Calibration) -> bool {
    let r = spec_corrected(m, cal);
    fits_i32(r.0) && fits_i32(r.1) && fits_i32(r.2)
}

/// Floor division of `v` by 1024, as an arithmetic right shift by ten bits.
fn shift_down(v: i128) -> (r: i128)
    requires
        -0x1_0000_0000_0000_0000 <= v <= 0x1_0000_0000_0000_0000,
    ensures
        r as int == v as int / 1024,
{
    if v >= 0 {
        v / 1024
    } else {
        let n: i128 = -(v + 1);
        let q: i128 = n / 1024;
        proof {
            assert(v as int / 1024 == -(q as int) - 1) by {
                let nn = n as int;
                assert(nn == 1024 * (nn / 1024) + nn % 1024);
                assert(0 <= nn % 1024 < 1024);
                let vv = v as int;
                assert(vv == 1024 * (-(nn / 1024) - 1) + (1023 - nn % 1024));
                vstd::arithmetic::div_mod::lemma_fundamental_div_mod_converse(
                    vv, 1024, -(nn / 1024) - 1, 1023 - nn % 1024);
            }
        }
        -q - 1
    }
}

fn correct_axis(v: i64, center: i32, scale: i32) -> (r: i128)
    requires
        -0x8000_0000 <= v <= 0x8000_0000,
    ensures
        r as int == spec_correct_axis(v as int, center as int, scale as int),
        -0x40_0000_0000_0001 <= r <= 0x40_0000_0000_0000,
{
    let d: i128 = v as i128 - center as i128;
    proof {
        assert(-0x1_0000_0000_0000_0000 <= d * scale <= 0x1_0000_0000_0000_0000) by (nonlinear_arith)
            requires
                -0x1_0000_0000 <= d <= 0x1_0000_0000,
                -0x8000_0000 <= scale <= 0x8000_0000,
        ;
    }
    let r = shift_down(d * scale as i128);
    proof {
        let p = d * scale;
        assert(-0x40_0000_0000_0001 <= p / 1024 <= 0x40_0000_0000_0000) by (nonlinear_arith)
            requires
                -0x1_0000_0000_0000_0000 <= p <= 0x1_0000_0000_0000_0000,
        ;
    }
    r
}

/// Whether `calibrated_measurement(m, cal)` is representable.
pub fn correction_in_range(m: &Measurement, cal: &Calibration) -> (r: bool)
    ensures
        r == correction_fits(*m, *cal),
{
    let cx: i128 = correct_axis(-(m.y as i64), cal.center.x, cal.scale.x);
    let cy: i128 = correct_axis(-(m.x as i64), cal.center.y, cal.scale.y);
    let cz: i128 = correct_axis(m.z as i64, cal.center.z, cal.scale.z);
    let lo: i128 = i32::MIN as i128;
    let hi: i128 = i32::MAX as i128;
    lo <= -cy && -cy <= hi && lo <= -cx && -cx <= hi && lo <= cz && cz <= hi
}

/// Applies `cal` to a raw magnetometer reading: into the canonical frame,
/// minus the center, times the gain, shifted down by ten bits, and back into
/// device coordinates. Intermediate products are held in 64 bits.
pub fn calibrated_measurement(measurement: &Measurement, calibration: &Calibration) -> (r: Measurement)
    requires
        correction_fits(*measurement, *calibration),
    ensures
        (r.x as int, r.y as int, r.z as int) == spec_corrected(*measurement, *calibration),
{
    let cx: i128 = correct_axis(-(measurement.y as i64), calibration.center.x, calibration.scale.x);
    let cy: i128 = correct_axis(-(measurement.x as i64), calibration.center.y, calibration.scale.y);
    let cz: i128 = correct_axis(measurement.z as i64, calibration.center.z, calibration.scale.z);
    Measurement { x: (-cy) as i32, y: (-cx) as i32, z: cz as i32 }
}

/// A reading whose canonical form is the calibration center corrects to the
/// origin, whatever the gains.
pub proof fn lemma_center_corrects_to_origin(m: Measurement, cal: Calibration)
    requires
        spec_to_canonical(m.x as int, m.y as int, m.z as int)
            == (cal.center.x as int, cal.center.y as int, cal.center.z as int),
    ensures
        correction_fits(m, cal),
        spec_corrected(m, cal) == (0int, 0int, 0int),
{
}

} // verus!
