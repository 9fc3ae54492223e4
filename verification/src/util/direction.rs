use vstd::prelude::*;

use crate::util::vec2::Vec2;
use crate::util::vec2::Vec2i;

verus! {

/// One of the four directions in which an entity can face or step.
#[derive(Debug, Default, Clone, Copy, PartialEq, Eq, Structural)]
pub enum Direction {
    #[default]
    Right,
    Left,
    Up,
    Down,
}

impl Direction {
    /// The step along `x` that one move in this direction makes.
    pub open spec fn dx(self) -> int {
        match self {
            Direction::Right => 1,
            Direction::Left => -1,
            _ => 0,
        }
    }

    /// The step along `y` that one move in this direction makes (`y` grows downwards).
    pub open spec fn dy(self) -> int {
        match self {
            Direction::Up => -1,
            Direction::Down => 1,
            _ => 0,
        }
    }

    /// The unit vector of this direction.
    pub fn to_vec2(&self) -> (r: Vec2i)
        ensures
            r.x == self.dx(),
            r.y == self.dy(),
    {
        match self {
            Direction::Right => Vec2::right(),
            Direction::Left => Vec2::left(),
            Direction::Up => Vec2::up(),
            Direction::Down => Vec2::down(),
        }
    }
}

/// Every direction is a unit step along exactly one axis.
pub proof fn lemma_unit_step(d: Direction)
    ensures
        (d.dx() == 0) != (d.dy() == 0),
        -1 <= d.dx() <= 1,
        -1 <= d.dy() <= 1,
{
}

} // verus!
