//! Where an entity stands and which way it faces.

use vstd::prelude::*;

verus! {

#[derive(Clone, Copy, Debug, PartialEq, Eq, Structural)]
pub enum Direction {
    Up,
    Right,
    Down,
    Left,
}

impl Direction {
    /// Unit step along the x axis: 1 for `Right`, -1 for `Left`, else 0.
    pub open spec fn dx(self) -> int {
        match self {
            Direction::Right => 1,
            Direction::Left => -1,
            _ => 0,
        }
    }

    /// Unit step along the y axis: 1 for `Up`, -1 for `Down`, else 0.
    pub open spec fn dy(self) -> int {
        match self {
            Direction::Up => 1,
            Direction::Down => -1,
            _ => 0,
        }
    }

    /// Whether the direction runs along the x axis.
    pub open spec fn is_horizontal(self) -> bool {
        self == Direction::Left || self == Direction::Right
    }

    /// The unit vector `(x, y)` of this direction.
    pub fn to_vec(&self) -> (v: (i32, i32))
        ensures
            v.0 == self.dx(),
            v.1 == self.dy(),
    {
        match self {
            Direction::Up => (0, 1),
            Direction::Right => (1, 0),
            Direction::Down => (0, -1),
            Direction::Left => (-1, 0),
        }
    }
}

/// The coordinate nearest to `v` that the coordinate type can hold.
pub open spec fn clamp_coord(v: int) -> int {
    if v < i32::MIN {
        i32::MIN as int
    } else if v > i32::MAX {
        i32::MAX as int
    } else {
        v
    }
}

/// `coord + delta` when `forward`, else `coord - delta`; either stops at the
/// ends of the coordinate range.
pub fn offset_coord(coord: i32, delta: i32, forward: bool) -> (r: i32)
    ensures
        forward ==> r == clamp_coord(coord + delta),
        !forward ==> r == clamp_coord(coord - delta),
{
    let wide: i64 = if forward {
        coord as i64 + delta as i64
    } else {
        coord as i64 - delta as i64
    };
    if wide < i32::MIN as i64 {
        i32::MIN
    } else if wide > i32::MAX as i64 {
        i32::MAX
    } else {
        wide as i32
    }
}

#[derive(Clone, Copy, Debug, PartialEq, Eq, Structural)]
pub struct Position {
    pub x: i32,
    pub y: i32,
    pub direction: Direction,
}

impl Position {
    /// This position moved by `delta` along `direction`.
    pub open spec fn moved(self, delta: int, direction: Direction) -> Position {
        match direction {
            Direction::Up => Position { y: clamp_coord(self.y + delta) as i32, ..self },
            Direction::Down => Position { y: clamp_coord(self.y - delta) as i32, ..self },
            Direction::Right => Position { x: clamp_coord(self.x + delta) as i32, ..self },
            Direction::Left => Position { x: clamp_coord(self.x - delta) as i32, ..self },
        }
    }

    pub fn new(x: i32, y: i32, direction: Direction) -> (p: Position)
        ensures
            p == (Position { x, y, direction }),
    {
        Position { x, y, direction }
    }

    /// Moves by `delta` along `direction`; the facing stays as it was.
    pub fn move_direction(&mut self, delta: i32, direction: Direction)
        ensures
            *final(self) == old(self).moved(delta as int, direction),
    {
        match direction {
            Direction::Up => {
                self.y = offset_coord(self.y, delta, true);
            },
            Direction::Down => {
                self.y = offset_coord(self.y, delta, false);
            },
            Direction::Right => {
                self.x = offset_coord(self.x, delta, true);
            },
            Direction::Left => {
                self.x = offset_coord(self.x, delta, false);
            },
        }
    }

    /// Moves by `delta` along the current facing.
    pub fn move_forward(&mut self, delta: i32)
        ensures
            *final(self) == old(self).moved(delta as int, old(self).direction),
    {
        let direction = self.direction;
        self.move_direction(delta, direction);
    }

    /// Overwrites this position with `other`.
    pub fn mirror(&mut self, other: &Position)
        ensures
            *final(self) == *other,
    {
        self.x = other.x;
        self.y = other.y;
        self.direction = other.direction;
    }
}

} // verus!
