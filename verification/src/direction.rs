//! The four cardinal directions of instruction-pointer travel, with the
//! rotation and reflection algebra the control-flow glyphs are built on.

use vstd::prelude::*;

verus! {

#[derive(Clone, Copy, PartialEq, Eq, Structural, Debug)]
pub enum Direction {
    North,
    East,
    South,
    West,
}

impl Direction {
    /// The direction after a 180-degree turn.
    pub open spec fn spec_opposite(self) -> Direction {
        match self {
            Direction::North => Direction::South,
            Direction::East => Direction::West,
            Direction::South => Direction::North,
            Direction::West => Direction::East,
        }
    }

    /// The direction after reflection across the backslash mirror glyph's
    /// diagonal: north and west swap, east and south swap.
    pub open spec fn spec_mirror(self) -> Direction {
        match self {
            Direction::North => Direction::West,
            Direction::East => Direction::South,
            Direction::South => Direction::East,
            Direction::West => Direction::North,
        }
    }

    /// The direction after a 90-degree turn counterclockwise.
    pub open spec fn spec_left(self) -> Direction {
        match self {
            Direction::North => Direction::West,
            Direction::East => Direction::North,
            Direction::South => Direction::East,
            Direction::West => Direction::South,
        }
    }

    /// The direction after a 90-degree turn clockwise.
    pub open spec fn spec_right(self) -> Direction {
        self.spec_left().spec_opposite()
    }

    #[verifier::when_used_as_spec(spec_opposite)]
    pub fn opposite(self) -> (r: Self)
        ensures
            r == self.spec_opposite(),
    {
        match self {
            Direction::North => Direction::South,
            Direction::East => Direction::West,
            Direction::South => Direction::North,
            Direction::West => Direction::East,
        }
    }

    #[verifier::when_used_as_spec(spec_mirror)]
    pub fn mirror(self) -> (r: Self)
        ensures
            r == self.spec_mirror(),
    {
        match self {
            Direction::North => Direction::West,
            Direction::East => Direction::South,
            Direction::South => Direction::East,
            Direction::West => Direction::North,
        }
    }

    #[verifier::when_used_as_spec(spec_left)]
    pub fn left(self) -> (r: Self)
        ensures
            r == self.spec_left(),
    {
        match self {
            Direction::North => Direction::West,
            Direction::East => Direction::North,
            Direction::South => Direction::East,
            Direction::West => Direction::South,
        }
    }

    #[verifier::when_used_as_spec(spec_right)]
    pub fn right(self) -> (r: Self)
        ensures
            r == self.spec_right(),
    {
        self.left().opposite()
    }
}

/// Turning around twice leads back to the original direction.
pub proof fn lemma_opposite_involution(d: Direction)
    ensures
        d.spec_opposite().spec_opposite() == d,
{
}

/// A left turn undoes a right turn, and a right turn undoes a left turn.
pub proof fn lemma_left_right_cancel(d: Direction)
    ensures
        d.spec_left().spec_right() == d,
        d.spec_right().spec_left() == d,
{
}

/// Reflecting across the backslash diagonal twice leads back to the
/// original direction.
pub proof fn lemma_mirror_involution(d: Direction)
    ensures
        d.spec_mirror().spec_mirror() == d,
{
}

/// A right turn equals a left turn followed by a 180-degree turn.
pub proof fn lemma_right_is_left_opposite(d: Direction)
    ensures
        d.spec_right() == d.spec_left().spec_opposite(),
{
}

} // verus!
