use vstd::prelude::*;

verus! {

/// A step from a cell to one beside it.
#[derive(Debug, Clone, Copy, PartialEq, Eq)]
pub struct Offset {
    pub x: isize,
    pub y: isize,
}

/// The eight directions in which a cell has a neighbour. North is towards
/// larger `y`, east towards larger `x`.
#[derive(Debug, Clone, Copy, PartialEq, Eq)]
pub enum Direction {
    N,
    NE,
    E,
    SE,
    S,
    SW,
    W,
    NW,
}

impl Direction {
    /// The step that the direction stands for, as `(dx, dy)`.
    pub open spec fn delta(self) -> (int, int) {
        match self {
            Direction::SW => (-1, -1),
            Direction::S => (0, -1),
            Direction::SE => (1, -1),
            Direction::W => (-1, 0),
            Direction::E => (1, 0),
            Direction::NW => (-1, 1),
            Direction::N => (0, 1),
            Direction::NE => (1, 1),
        }
    }

    /// The eight directions, clockwise from north.
    pub open spec fn compass() -> Seq<Direction> {
        seq![
            Direction::N,
            Direction::NE,
            Direction::E,
            Direction::SE,
            Direction::S,
            Direction::SW,
            Direction::W,
            Direction::NW,
        ]
    }

    /// The eight directions, clockwise from north.
    pub fn all() -> (dirs: [Direction; 8])
        ensures
            dirs@ == Direction::compass(),
    {
        let dirs = [
            Direction::N,
            Direction::NE,
            Direction::E,
            Direction::SE,
            Direction::S,
            Direction::SW,
            Direction::W,
            Direction::NW,
        ];
        assert(dirs@ =~= Direction::compass());
        dirs
    }

    /// The step that the direction stands for.
    pub fn offset(&self) -> (step: Offset)
        ensures
            (step.x as int, step.y as int) == self.delta(),
    {
        match self {
            Direction::SW => Offset { x: -1, y: -1 },
            Direction::S => Offset { x: 0, y: -1 },
            Direction::SE => Offset { x: 1, y: -1 },
            Direction::W => Offset { x: -1, y: 0 },
            Direction::E => Offset { x: 1, y: 0 },
            Direction::NW => Offset { x: -1, y: 1 },
            Direction::N => Offset { x: 0, y: 1 },
            Direction::NE => Offset { x: 1, y: 1 },
        }
    }
}

} // verus!
