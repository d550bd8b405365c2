//! Grid coordinates, cardinal directions and the squared-distance metric
//! the walker and the skip selector measure with.

use vstd::prelude::*;

verus! {

/// Largest coordinate a grid may reach in either axis. Keeps every squared
/// distance below `2^31`, so the arithmetic fits a `usize` on any target.
pub const MAX_DIM: usize = 32768;

/// A cell coordinate: `x` grows rightwards, `y` grows downwards.
#[derive(Clone, Copy, Debug, PartialEq, Eq, Hash, Structural)]
pub struct Position {
    pub x: usize,
    pub y: usize,
}

/// One of the four cardinal directions a walker step can take.
#[derive(Clone, Copy, Debug, PartialEq, Eq, Structural)]
pub enum ShiftDirection {
    Up,
    Right,
    Down,
    Left,
}

/// Absolute difference of two coordinates.
pub open spec fn spec_abs_diff(a: int, b: int) -> int {
    if a >= b {
        a - b
    } else {
        b - a
    }
}

/// Squared Euclidean distance between two positions.
pub open spec fn spec_dist_sqr(a: Position, b: Position) -> int {
    spec_abs_diff(a.x as int, b.x as int) * spec_abs_diff(a.x as int, b.x as int)
        + spec_abs_diff(a.y as int, b.y as int) * spec_abs_diff(a.y as int, b.y as int)
}

impl Position {
    pub fn new(x: usize, y: usize) -> (p: Position)
        ensures
            p.x == x,
            p.y == y,
    {
        Position { x, y }
    }

    /// Squared Euclidean distance to `other`; the generator compares
    /// squared distances throughout and never takes a root.
    pub fn distance_squared(&self, other: &Position) -> (d: usize)
        requires
            self.x <= MAX_DIM,
            self.y <= MAX_DIM,
            other.x <= MAX_DIM,
            other.y <= MAX_DIM,
        ensures
            d == spec_dist_sqr(*self, *other),
    {
        let dx: usize = if self.x >= other.x {
            self.x - other.x
        } else {
            other.x - self.x
        };
        let dy: usize = if self.y >= other.y {
            self.y - other.y
        } else {
            other.y - self.y
        };
        assert(dx * dx + dy * dy <= 2 * (MAX_DIM as int) * (MAX_DIM as int)) by (nonlinear_arith)
            requires
                dx <= MAX_DIM as int,
                dy <= MAX_DIM as int,
        ;
        dx * dx + dy * dy
    }

    /// The position moved by a signed offset; fails instead of wrapping when
    /// either coordinate would leave the non-negative range.
    pub fn shifted_by(&self, x_shift: i32, y_shift: i32) -> (r: Result<Position, crate::error::GenError>)
        requires
            self.x <= MAX_DIM,
            self.y <= MAX_DIM,
        ensures
            r is Ok <==> self.x + x_shift >= 0 && self.y + y_shift >= 0,
            r is Ok ==> r->Ok_0.x == self.x + x_shift && r->Ok_0.y == self.y + y_shift,
            r is Err ==> r->Err_0 == crate::error::GenError::OutOfBounds,
    {
        let x = if x_shift >= 0 {
            Some(self.x + (x_shift as usize))
        } else {
            let mag: usize = (-(x_shift as i64)) as usize;
            if mag <= self.x {
                Some(self.x - mag)
            } else {
                None
            }
        };
        let y = if y_shift >= 0 {
            Some(self.y + (y_shift as usize))
        } else {
            let mag: usize = (-(y_shift as i64)) as usize;
            if mag <= self.y {
                Some(self.y - mag)
            } else {
                None
            }
        };
        match (x, y) {
            (Some(x), Some(y)) => Ok(Position { x, y }),
            _ => Err(crate::error::GenError::OutOfBounds),
        }
    }

    /// The direction that, greedily, brings this position closest to `goal`;
    /// prefers the axis with the larger gap, and on a tie prefers `x`.
    pub fn get_greedy_dir(&self, goal: &Position) -> (dir: ShiftDirection)
        ensures
            dir == spec_greedy_dir(*self, *goal),
    {
        let x_diff: usize = if goal.x >= self.x { goal.x - self.x } else { self.x - goal.x };
        let y_diff: usize = if goal.y >= self.y { goal.y - self.y } else { self.y - goal.y };
        if x_diff >= y_diff {
            if goal.x >= self.x {
                ShiftDirection::Right
            } else {
                ShiftDirection::Left
            }
        } else {
            if goal.y >= self.y {
                ShiftDirection::Down
            } else {
                ShiftDirection::Up
            }
        }
    }
}

/// Greedy direction choice: move along the axis with the larger distance
/// to the goal, towards the goal; ties go to the `x` axis.
pub open spec fn spec_greedy_dir(pos: Position, goal: Position) -> ShiftDirection {
    let xd = spec_abs_diff(goal.x as int, pos.x as int);
    let yd = spec_abs_diff(goal.y as int, pos.y as int);
    if xd >= yd {
        if goal.x >= pos.x {
            ShiftDirection::Right
        } else {
            ShiftDirection::Left
        }
    } else {
        if goal.y >= pos.y {
            ShiftDirection::Down
        } else {
            ShiftDirection::Up
        }
    }
}

} // verus!
