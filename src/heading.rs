//! Eight-way compass heading of a corrected reading, and the arrow glyph that
//! shows it on the 5x5 display.
use vstd::prelude::*;
use crate::search::abs;

verus! {

#[derive(Clone, Copy, Debug, PartialEq, Eq, Structural)]
pub enum Direction {
    North,
    NorthEast,
    East,
    SouthEast,
    South,
    SouthWest,
    West,
    NorthWest,
}

/// `|y| < tan(pi/8) * |x|`, with `tan(pi/8) = sqrt(2) - 1`: the bearing of
/// `(x, y)` lies within `pi/8` of the x axis.
pub open spec fn near_x_axis(x: int, y: int) -> bool {
    (abs(x) + abs(y)) * (abs(x) + abs(y)) < 2 * (x * x)
}

/// `|x| < tan(pi/8) * |y|`: the bearing lies within `pi/8` of the y axis.
pub open spec fn near_y_axis(x: int, y: int) -> bool {
    (abs(x) + abs(y)) * (abs(x) + abs(y)) < 2 * (y * y)
}

/// The bucket of the bearing `theta = atan2(y, x)`, with bucket boundaries
/// at the odd multiples of `pi/8`, each boundary belonging to the bucket
/// counter-clockwise from it: `[-pi/8, pi/8)` is East, `[pi/8, 3pi/8)` North
/// East, and so on round to West, which holds both `theta < -7pi/8` and
/// `theta >= 7pi/8`; the origin, whose bearing is zero, is East.
/// As `sqrt(2)` is irrational, no integer point but the origin lies on a
/// boundary line, so each bucket is fixed by strict comparisons of squares.
pub open spec fn heading(x: int, y: int) -> Direction {
    if x == 0 && y == 0 {
        Direction::East
    } else if near_x_axis(x, y) {
        if x > 0 { Direction::East } else { Direction::West }
    } else if near_y_axis(x, y) {
        if y > 0 { Direction::North } else { Direction::South }
    } else if x > 0 {
        if y > 0 { Direction::NorthEast } else { Direction::SouthEast }
    } else {
        if y > 0 { Direction::NorthWest } else { Direction::SouthWest }
    }
}

/// The compass direction of a corrected reading's horizontal components.
pub fn direction_of(x: i32, y: i32) -> (r: Direction)
    ensures
        r == heading(x as int, y as int),
{
    let ax: i128 = if x < 0 { -(x as i128) } else { x as i128 };
    let ay: i128 = if y < 0 { -(y as i128) } else { y as i128 };
    let xx: i128 = x as i128;
    let yy: i128 = y as i128;
    let sum: i128 = ax + ay;
    proof {
        assert(0 <= sum * sum <= 0x4_0000_0000_0000_0000) by (nonlinear_arith)
            requires
                0 <= sum <= 0x1_0000_0000,
        ;
        assert(0 <= xx * xx <= 0x4000_0000_0000_0000) by (nonlinear_arith)
            requires
                -0x8000_0000 <= xx <= 0x8000_0000,
        ;
        assert(0 <= yy * yy <= 0x4000_0000_0000_0000) by (nonlinear_arith)
            requires
                -0x8000_0000 <= yy <= 0x8000_0000,
        ;
    }
    let s2: i128 = sum * sum;
    assert(sum as int == abs(x as int) + abs(y as int));
    if x == 0 && y == 0 {
        Direction::East
    } else if s2 < 2 * (xx * xx) {
        if x > 0 {
            Direction::East
        } else {
            Direction::West
        }
    } else if s2 < 2 * (yy * yy) {
        if y > 0 {
            Direction::North
        } else {
            Direction::South
        }
    } else if x > 0 {
        if y > 0 {
            Direction::NorthEast
        } else {
            Direction::SouthEast
        }
    } else {
        if y > 0 {
            Direction::NorthWest
        } else {
            Direction::SouthWest
        }
    }
}

/// The arrow shown for each direction, row by row from the top.
pub open spec fn glyph(d: Direction) -> [[u8; 5]; 5] {
    match d {
        Direction::North => [
            [0, 0, 1, 0, 0],
            [0, 1, 1, 1, 0],
            [1, 0, 1, 0, 1],
            [0, 0, 1, 0, 0],
            [0, 0, 1, 0, 0],
        ],
        Direction::NorthEast => [
            [1, 1, 1, 0, 0],
            [1, 1, 0, 0, 0],
            [1, 0, 1, 0, 0],
            [0, 0, 0, 1, 0],
            [0, 0, 0, 0, 1],
        ],
        Direction::East => [
            [0, 0, 1, 0, 0],
            [0, 1, 0, 0, 0],
            [1, 1, 1, 1, 1],
            [0, 1, 0, 0, 0],
            [0, 0, 1, 0, 0],
        ],
        Direction::SouthEast => [
            [0, 0, 0, 0, 1],
            [0, 0, 0, 1, 0],
            [1, 0, 1, 0, 0],
            [1, 1, 0, 0, 0],
            [1, 1, 1, 0, 0],
        ],
        Direction::South => [
            [0, 0, 1, 0, 0],
            [0, 1, 0, 0, 0],
            [0, 0, 1, 0, 0],
            [1, 1, 1, 1, 0],
            [0, 0, 0, 1, 0],
        ],
        Direction::SouthWest => [
            [1, 0, 0, 0, 0],
            [0, 1, 0, 0, 0],
            [0, 0, 1, 0, 1],
            [0, 0, 0, 1, 1],
            [0, 0, 1, 1, 1],
        ],
        Direction::West => [
            [0, 0, 1, 0, 0],
            [0, 0, 0, 1, 0],
            [1, 1, 1, 1, 1],
            [0, 0, 0, 1, 0],
            [0, 0, 1, 0, 0],
        ],
        Direction::NorthWest => [
            [0, 0, 1, 1, 1],
            [0, 0, 0, 1, 1],
            [0, 0, 1, 0, 1],
            [0, 1, 0, 0, 0],
            [1, 0, 0, 0, 0],
        ],
    }
}

/// The 5x5 frame that shows `direction` as an arrow.
pub fn direction_to_led(direction: Direction) -> (r: [[u8; 5]; 5])
    ensures
        r == glyph(direction),
{
    match direction {
        Direction::North => [
            [0, 0, 1, 0, 0],
            [0, 1, 1, 1, 0],
            [1, 0, 1, 0, 1],
            [0, 0, 1, 0, 0],
            [0, 0, 1, 0, 0],
        ],
        Direction::NorthWest => [
            [0, 0, 1, 1, 1],
            [0, 0, 0, 1, 1],
            [0, 0, 1, 0, 1],
            [0, 1, 0, 0, 0],
            [1, 0, 0, 0, 0],
        ],
        Direction::South => [
            [0, 0, 1, 0, 0],
            [0, 1, 0, 0, 0],
            [0, 0, 1, 0, 0],
            [1, 1, 1, 1, 0],
            [0, 0, 0, 1, 0],
        ],
        Direction::SouthEast => [
            [0, 0, 0, 0, 1],
            [0, 0, 0, 1, 0],
            [1, 0, 1, 0, 0],
            [1, 1, 0, 0, 0],
            [1, 1, 1, 0, 0],
        ],
        Direction::SouthWest => [
            [1, 0, 0, 0, 0],
            [0, 1, 0, 0, 0],
            [0, 0, 1, 0, 1],
            [0, 0, 0, 1, 1],
            [0, 0, 1, 1, 1],
        ],
        Direction::NorthEast => [
            [1, 1, 1, 0, 0],
            [1, 1, 0, 0, 0],
            [1, 0, 1, 0, 0],
            [0, 0, 0, 1, 0],
            [0, 0, 0, 0, 1],
        ],
        Direction::East => [
            [0, 0, 1, 0, 0],
            [0, 1, 0, 0, 0],
            [1, 1, 1, 1, 1],
            [0, 1, 0, 0, 0],
            [0, 0, 1, 0, 0],
        ],
        Direction::West => [
            [0, 0, 1, 0, 0],
            [0, 0, 0, 1, 0],
            [1, 1, 1, 1, 1],
            [0, 0, 0, 1, 0],
            [0, 0, 1, 0, 0],
        ],
    }
}

} // verus!
