//! Coordinates and the four moves of a snake.
use vstd::prelude::*;

verus! {

/// The largest board side; every in-bounds coordinate and its neighbours fit an `i16`.
pub const MAX_DIM: usize = 32767;

/// An integer point on the board.
#[derive(Clone, Copy, Debug, PartialEq, Eq, Structural)]
pub struct Vec2D {
    pub x: i16,
    pub y: i16,
}

/// One of the four axis-aligned moves, with the index used in move arrays.
#[derive(Clone, Copy, Debug, PartialEq, Eq, Structural)]
pub enum Direction {
    Up,
    Right,
    Down,
    Left,
}

/// The neighbour of `p` in direction `d` (`Up` increases `y`).
pub open spec fn moved(p: Vec2D, d: Direction) -> Vec2D {
    match d {
        Direction::Up => Vec2D { x: p.x, y: (p.y + 1) as i16 },
        Direction::Right => Vec2D { x: (p.x + 1) as i16, y: p.y },
        Direction::Down => Vec2D { x: p.x, y: (p.y - 1) as i16 },
        Direction::Left => Vec2D { x: (p.x - 1) as i16, y: p.y },
    }
}

/// Whether `moved(p, d)` is computed without overflow for every `d`.
pub open spec fn interior(p: Vec2D) -> bool {
    i16::MIN < p.x < i16::MAX && i16::MIN < p.y < i16::MAX
}

pub open spec fn dir_index(d: Direction) -> int {
    match d {
        Direction::Up => 0,
        Direction::Right => 1,
        Direction::Down => 2,
        Direction::Left => 3,
    }
}

pub open spec fn dir_of(i: int) -> Direction {
    if i == 0 {
        Direction::Up
    } else if i == 1 {
        Direction::Right
    } else if i == 2 {
        Direction::Down
    } else {
        Direction::Left
    }
}

impl Vec2D {
    pub fn new(x: i16, y: i16) -> (r: Vec2D)
        ensures
            r == (Vec2D { x, y }),
    {
        Vec2D { x, y }
    }

    /// The point one cell away in direction `d`.
    pub fn apply(self, d: Direction) -> (r: Vec2D)
        requires
            interior(self),
        ensures
            r == moved(self, d),
    {
        match d {
            Direction::Up => Vec2D { x: self.x, y: self.y + 1 },
            Direction::Right => Vec2D { x: self.x + 1, y: self.y },
            Direction::Down => Vec2D { x: self.x, y: self.y - 1 },
            Direction::Left => Vec2D { x: self.x - 1, y: self.y },
        }
    }
}

impl Direction {
    /// The direction with index `i` (0 Up, 1 Right, 2 Down, 3 Left).
    pub fn from_index(i: usize) -> (r: Direction)
        requires
            i < 4,
        ensures
            r == dir_of(i as int),
            dir_index(r) == i,
    {
        if i == 0 {
            Direction::Up
        } else if i == 1 {
            Direction::Right
        } else if i == 2 {
            Direction::Down
        } else {
            Direction::Left
        }
    }

    /// The index of the direction in a move array.
    pub fn index(self) -> (r: usize)
        ensures
            r as int == dir_index(self),
            dir_of(r as int) == self,
    {
        match self {
            Direction::Up => 0,
            Direction::Right => 1,
            Direction::Down => 2,
            Direction::Left => 3,
        }
    }
}

} // verus!
