//! Collection of the calibration samples, spread over tilt orientations by a
//! 5x5 coverage grid indexed by the accelerometer.
//!
//! The collection loop waits on the sensors and drives the display; it asks
//! this state machine what to do: after each tilt reading, whether a
//! magnetometer sample is wanted, and which frame to show.
use vstd::prelude::*;
use crate::measurement::{spec_to_canonical, measurement_to_enu, Measurement};
use crate::search::SAMPLE_COUNT;

verus! {

/// Tilt beyond which a grid coordinate leaves the middle cell.
pub const PIXEL1_THRESHOLD: i32 = 200;

/// Tilt beyond which a grid coordinate reaches the edge of the grid.
pub const PIXEL2_THRESHOLD: i32 = 600;

/// Grid coordinate, in `0..5`, of one tilt axis.
pub open spec fn spec_tilt_index(v: int) -> int {
    if v < -PIXEL2_THRESHOLD {
        0
    } else if v < -PIXEL1_THRESHOLD {
        1
    } else if v > PIXEL2_THRESHOLD {
        4
    } else if v > PIXEL1_THRESHOLD {
        3
    } else {
        2
    }
}

/// Grid coordinate, in `0..5`, of one tilt axis.
pub fn tilt_index(v: i32) -> (r: usize)
    ensures
        r as int == spec_tilt_index(v as int),
        r < 5,
{
    if v < -PIXEL2_THRESHOLD {
        0
    } else if v < -PIXEL1_THRESHOLD {
        1
    } else if v > PIXEL2_THRESHOLD {
        4
    } else if v > PIXEL1_THRESHOLD {
        3
    } else {
        2
    }
}

/// Grid cell `(row, column)` of a tilt reading: the column follows x, the
/// row follows y, turned upside down for the sensor's mounting.
pub fn tilt_cell(accel_x: i32, accel_y: i32) -> (r: (usize, usize))
    ensures
        r.0 as int == 4 - spec_tilt_index(accel_y as int),
        r.1 as int == spec_tilt_index(accel_x as int),
        r.0 < 5 && r.1 < 5,
{
    let row = tilt_index(accel_y);
    let col = tilt_index(accel_x);
    (4 - row, col)
}

/// State of one collection pass: the coverage grid shown to the operator,
/// the samples stored so far, and the number of iterations done. An
/// iteration ends either when the tilt falls on a covered cell, or when the
/// sample for a newly covered cell is stored.
pub struct SampleCollector {
    grid: [[u8; 5]; 5],
    data: [Measurement; 25],
    iteration: usize,
    recorded: usize,
    awaiting: bool,
}

impl SampleCollector {
    pub closed spec fn wf(&self) -> bool {
        &&& self.iteration <= 25
        &&& self.recorded <= self.iteration
        &&& self.awaiting ==> self.iteration < 25
        &&& forall|r: int, c: int|
            0 <= r < 5 && 0 <= c < 5 ==> #[trigger] self.grid[r][c] <= 1
    }

    /// Iterations completed, at most 25.
    pub closed spec fn iterations(&self) -> nat {
        self.iteration as nat
    }

    /// Samples stored so far.
    pub closed spec fn recorded(&self) -> nat {
        self.recorded as nat
    }

    /// Whether a newly covered cell waits for its magnetometer sample.
    pub closed spec fn awaiting(&self) -> bool {
        self.awaiting
    }

    pub closed spec fn visited(&self, row: int, col: int) -> bool {
        self.grid[row][col] == 1
    }

    /// The sample slots, one per iteration; a slot whose iteration fell on a
    /// covered cell keeps the origin.
    pub closed spec fn slots(&self) -> Seq<Measurement> {
        self.data@
    }

    pub fn new() -> (r: SampleCollector)
        ensures
            r.wf(),
            r.iterations() == 0,
            r.recorded() == 0,
            !r.awaiting(),
            forall|row: int, col: int| 0 <= row < 5 && 0 <= col < 5 ==> !r.visited(row, col),
            forall|i: int| 0 <= i < 25 ==> r.slots()[i] == (Measurement { x: 0, y: 0, z: 0 }),
    {
        SampleCollector {
            grid: [[0u8; 5]; 5],
            data: [Measurement { x: 0, y: 0, z: 0 }; 25],
            iteration: 0,
            recorded: 0,
            awaiting: false,
        }
    }

    /// A pass never stores more samples than it has run iterations, and never
    /// runs more than 25.
    pub proof fn lemma_bounded(&self)
        requires
            self.wf(),
        ensures
            self.recorded() <= self.iterations() <= 25,
    {
    }

    /// Whether all iterations of the pass are done.
    pub fn is_complete(&self) -> (r: bool)
        requires
            self.wf(),
        ensures
            r == (self.iterations() == 25),
    {
        self.iteration == SAMPLE_COUNT
    }

    /// Takes the tilt reading of one iteration. Returns whether its grid cell
    /// was not yet covered: the cell is then covered and the iteration waits
    /// for `record`; otherwise the iteration is over.
    pub fn visit(&mut self, accel_x: i32, accel_y: i32) -> (fresh: bool)
        requires
            old(self).wf(),
            old(self).iterations() < 25,
            !old(self).awaiting(),
        ensures
            final(self).wf(),
            ({
                let row = 4 - spec_tilt_index(accel_y as int);
                let col = spec_tilt_index(accel_x as int);
                &&& fresh == !old(self).visited(row, col)
                &&& final(self).visited(row, col)
                &&& forall|r: int, c: int|
                    0 <= r < 5 && 0 <= c < 5 && (r != row || c != col) ==> final(self).visited(r, c)
                        == old(self).visited(r, c)
            }),
            final(self).awaiting() == fresh,
            final(self).iterations() == old(self).iterations() + if fresh { 0int } else { 1 },
            final(self).recorded() == old(self).recorded(),
            final(self).slots() == old(self).slots(),
    {
        let (row, col) = tilt_cell(accel_x, accel_y);
        if self.grid[row][col] != 1 {
            let mut line = self.grid[row];
            line[col] = 1;
            self.grid[row] = line;
            self.awaiting = true;
            true
        } else {
            self.iteration = self.iteration + 1;
            false
        }
    }

    /// Stores the magnetometer sample of a newly covered cell, in the
    /// canonical frame, and ends the iteration.
    pub fn record(&mut self, raw: Measurement)
        requires
            old(self).wf(),
            old(self).awaiting(),
            raw.x > i32::MIN,
            raw.y > i32::MIN,
        ensures
            final(self).wf(),
            !final(self).awaiting(),
            final(self).iterations() == old(self).iterations() + 1,
            final(self).recorded() == old(self).recorded() + 1,
            final(self).recorded() <= final(self).iterations() <= 25,
            forall|r: int, c: int| final(self).visited(r, c) == old(self).visited(r, c),
            ({
                let k = spec_to_canonical(raw.x as int, raw.y as int, raw.z as int);
                let m = final(self).slots()[old(self).iterations() as int];
                (m.x as int, m.y as int, m.z as int) == k
            }),
            forall|i: int|
                0 <= i < 25 && i != old(self).iterations() ==> final(self).slots()[i] == old(
                    self,
                ).slots()[i],
    {
        let sample = measurement_to_enu(&raw);
        self.data[self.iteration] = sample;
        self.iteration = self.iteration + 1;
        self.recorded = self.recorded + 1;
        self.awaiting = false;
    }

    /// The coverage grid as a display frame: 1 for a covered cell.
    pub fn frame(&self) -> (r: [[u8; 5]; 5])
        requires
            self.wf(),
        ensures
            forall|row: int, col: int|
                0 <= row < 5 && 0 <= col < 5 ==> (r[row][col] == 1) == self.visited(row, col)
                    && r[row][col] <= 1,
    {
        self.grid
    }

    /// The sample set of the pass, one slot per iteration.
    pub fn samples(&self) -> (r: [Measurement; 25])
        ensures
            r@ == self.slots(),
    {
        self.data
    }
}

} // verus!
