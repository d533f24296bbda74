//! Magnetometer calibration and compass heading for a handheld device with a
//! co-located accelerometer, in raw sensor counts and fixed-point gains.
//!
//! A pass collects 25 samples spread over tilt orientations
//! ([`collector::SampleCollector`]), estimates the hard-iron center by a
//! local search ([`search::find_center`]), fits a sphere to derive per-axis
//! gains ([`sphere::spherify`]), and the resulting [`Calibration`] corrects
//! each live reading ([`calibrated_measurement`]) before it is turned into a
//! compass [`Direction`] ([`heading::direction_of`]).
use vstd::prelude::*;

pub mod measurement;
pub mod search;
pub mod sphere;
pub mod heading;
pub mod collector;
pub mod calibration;

pub use calibration::calc_calibration;
pub use heading::{direction_of, direction_to_led, Direction};
pub use measurement::{calibrated_measurement, Calibration, Measurement};

verus! {

} // verus!
