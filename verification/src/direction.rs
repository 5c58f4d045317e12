use vstd::prelude::*;

verus! {

/// A direction of snake movement on the grid.
#[derive(Clone, Copy, PartialEq, Eq, Structural, Debug)]
pub enum Direction {
    Up,
    Down,
    Left,
    Right,
}

impl Direction {
    /// The direction pointing the opposite way.
    pub open spec fn spec_opposite(self) -> Direction {
        match self {
            Direction::Up => Direction::Down,
            Direction::Down => Direction::Up,
            Direction::Left => Direction::Right,
            Direction::Right => Direction::Left,
        }
    }

    /// Returns the opposite direction.
    pub fn opposite(self) -> (r: Direction)
        ensures
            r == self.spec_opposite(),
    {
        match self {
            Direction::Up => Direction::Down,
            Direction::Down => Direction::Up,
            Direction::Left => Direction::Right,
            Direction::Right => Direction::Left,
        }
    }
}

/// Law: `opposite` is an involution — taking the opposite twice gives back
/// the original direction.
pub proof fn lemma_opposite_involutive(d: Direction)
    ensures
        d.spec_opposite().spec_opposite() == d,
{
}

/// What a single input byte asks for: `w`, `s`, `a` and `d` select a
/// direction; every other byte is ignored.
pub open spec fn spec_parse_key(b: u8) -> Option<Direction> {
    if b == 119 {
        Some(Direction::Up)
    } else if b == 115 {
        Some(Direction::Down)
    } else if b == 97 {
        Some(Direction::Left)
    } else if b == 100 {
        Some(Direction::Right)
    } else {
        None
    }
}

/// Parses one keystroke byte into a direction, if it is one of the four
/// recognized direction keys.
pub fn parse_key(b: u8) -> (r: Option<Direction>)
    ensures
        r == spec_parse_key(b),
{
    match b {
        119 => Some(Direction::Up),
        115 => Some(Direction::Down),
        97 => Some(Direction::Left),
        100 => Some(Direction::Right),
        _ => None,
    }
}

} // verus!
