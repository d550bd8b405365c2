use mapgen::error::GenError;
use mapgen::position::{Position, ShiftDirection};

#[test]
fn distance_squared_is_euclidean() {
    let a = Position::new(3, 4);
    let b = Position::new(0, 0);
    assert_eq!(a.distance_squared(&b), 25);
    assert_eq!(b.distance_squared(&a), 25);
    assert_eq!(a.distance_squared(&a), 0);
    assert_eq!(Position::new(10, 10).distance_squared(&Position::new(11, 10)), 1);
}

#[test]
fn shifted_by_moves_and_rejects_underflow() {
    let p = Position::new(5, 7);
    assert_eq!(p.shifted_by(2, -3), Ok(Position::new(7, 4)));
    assert_eq!(p.shifted_by(-5, 0), Ok(Position::new(0, 7)));
    assert_eq!(p.shifted_by(-6, 0), Err(GenError::OutOfBounds));
    assert_eq!(p.shifted_by(0, -8), Err(GenError::OutOfBounds));
}

#[test]
fn greedy_dir_follows_larger_axis_gap() {
    let p = Position::new(10, 10);
    assert_eq!(p.get_greedy_dir(&Position::new(20, 12)), ShiftDirection::Right);
    assert_eq!(p.get_greedy_dir(&Position::new(0, 12)), ShiftDirection::Left);
    assert_eq!(p.get_greedy_dir(&Position::new(12, 20)), ShiftDirection::Down);
    assert_eq!(p.get_greedy_dir(&Position::new(12, 0)), ShiftDirection::Up);
    // Ties go to the x axis.
    assert_eq!(p.get_greedy_dir(&Position::new(15, 15)), ShiftDirection::Right);
}
