use led_compass::{direction_of, direction_to_led, Direction};

#[test]
fn heading_on_axes_and_diagonals() {
    assert_eq!(direction_of(1000, 0), Direction::East);
    assert_eq!(direction_of(0, 1000), Direction::North);
    assert_eq!(direction_of(-1000, 0), Direction::West);
    assert_eq!(direction_of(0, -1000), Direction::South);
    assert_eq!(direction_of(1000, 1000), Direction::NorthEast);
    assert_eq!(direction_of(-1000, 1000), Direction::NorthWest);
    assert_eq!(direction_of(-1000, -1000), Direction::SouthWest);
    assert_eq!(direction_of(1000, -1000), Direction::SouthEast);
}

#[test]
fn heading_of_origin_is_east() {
    assert_eq!(direction_of(0, 0), Direction::East);
}

#[test]
fn heading_near_bucket_boundaries() {
    // tan(pi/8) = 0.41421..., tan(3pi/8) = 2.41421...
    assert_eq!(direction_of(1000, 414), Direction::East);
    assert_eq!(direction_of(1000, 415), Direction::NorthEast);
    assert_eq!(direction_of(1000, -414), Direction::East);
    assert_eq!(direction_of(1000, -415), Direction::SouthEast);
    assert_eq!(direction_of(414, 1000), Direction::North);
    assert_eq!(direction_of(415, 1000), Direction::NorthEast);
    assert_eq!(direction_of(-414, 1000), Direction::North);
    assert_eq!(direction_of(-415, 1000), Direction::NorthWest);
    assert_eq!(direction_of(-1000, 414), Direction::West);
    assert_eq!(direction_of(-1000, 415), Direction::NorthWest);
    assert_eq!(direction_of(-1000, -414), Direction::West);
    assert_eq!(direction_of(-1000, -415), Direction::SouthWest);
    assert_eq!(direction_of(-414, -1000), Direction::South);
    assert_eq!(direction_of(-415, -1000), Direction::SouthWest);
    assert_eq!(direction_of(414, -1000), Direction::South);
    assert_eq!(direction_of(415, -1000), Direction::SouthEast);
}

#[test]
fn heading_at_negative_x_axis_is_west() {
    // theta == pi exactly lies on the inclusive side of the 7pi/8 boundary
    assert_eq!(direction_of(-1, 0), Direction::West);
    assert_eq!(direction_of(i32::MIN, 0), Direction::West);
}

#[test]
fn heading_at_extremes() {
    assert_eq!(direction_of(i32::MIN, i32::MIN), Direction::SouthWest);
    assert_eq!(direction_of(i32::MAX, i32::MAX), Direction::NorthEast);
    assert_eq!(direction_of(i32::MAX, i32::MIN), Direction::SouthEast);
}

#[test]
fn led_glyphs() {
    assert_eq!(
        direction_to_led(Direction::North),
        [[0, 0, 1, 0, 0], [0, 1, 1, 1, 0], [1, 0, 1, 0, 1], [0, 0, 1, 0, 0], [0, 0, 1, 0, 0]]
    );
    assert_eq!(
        direction_to_led(Direction::East),
        [[0, 0, 1, 0, 0], [0, 1, 0, 0, 0], [1, 1, 1, 1, 1], [0, 1, 0, 0, 0], [0, 0, 1, 0, 0]]
    );
    assert_eq!(
        direction_to_led(Direction::SouthWest),
        [[1, 0, 0, 0, 0], [0, 1, 0, 0, 0], [0, 0, 1, 0, 1], [0, 0, 0, 1, 1], [0, 0, 1, 1, 1]]
    );
    assert_eq!(
        direction_to_led(Direction::NorthWest),
        [[0, 0, 1, 1, 1], [0, 0, 0, 1, 1], [0, 0, 1, 0, 1], [0, 1, 0, 0, 0], [1, 0, 0, 0, 0]]
    );
}
