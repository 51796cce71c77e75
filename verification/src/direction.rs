//! The four-valued compass direction and its coordinate arithmetic.

use vstd::prelude::*;

verus! {

/// A compass direction: the opening of a connector tile, or the step taken
/// when a chain advances by one cell.
#[derive(Debug, Clone, Copy, PartialEq, Eq, Structural)]
pub enum Direction {
    Up,
    Right,
    Down,
    Left,
}

impl Direction {
    /// The opposite direction.
    pub open spec fn spec_invert(self) -> Direction {
        match self {
            Direction::Up => Direction::Down,
            Direction::Down => Direction::Up,
            Direction::Left => Direction::Right,
            Direction::Right => Direction::Left,
        }
    }

    /// How one step in this direction changes the column: `Right` raises it
    /// by one, `Left` lowers it by one, the vertical directions leave it.
    pub open spec fn spec_move_x(self, x: int) -> int {
        match self {
            Direction::Right => x + 1,
            Direction::Left => x - 1,
            _ => x,
        }
    }

    /// How one step in this direction changes the row: `Down` raises it by
    /// one (rows grow downward), `Up` lowers it by one.
    pub open spec fn spec_move_y(self, y: int) -> int {
        match self {
            Direction::Up => y - 1,
            Direction::Down => y + 1,
            _ => y,
        }
    }

    pub fn invert(&self) -> (r: Direction)
        ensures
            r == self.spec_invert(),
    {
        match self {
            Direction::Up => Direction::Down,
            Direction::Down => Direction::Up,
            Direction::Left => Direction::Right,
            Direction::Right => Direction::Left,
        }
    }

    pub fn move_x(&self, x: u16) -> (r: u16)
        requires
            0 <= self.spec_move_x(x as int) <= u16::MAX,
        ensures
            r == self.spec_move_x(x as int),
    {
        match self {
            Direction::Right => x + 1,
            Direction::Left => x - 1,
            _ => x,
        }
    }

    pub fn move_y(&self, y: u16) -> (r: u16)
        requires
            0 <= self.spec_move_y(y as int) <= u16::MAX,
        ensures
            r == self.spec_move_y(y as int),
    {
        match self {
            Direction::Up => y - 1,
            Direction::Down => y + 1,
            _ => y,
        }
    }
}

/// Inverting a direction twice gives the direction back.
pub proof fn lemma_invert_involution(d: Direction)
    ensures
        d.spec_invert().spec_invert() == d,
{
}

/// One step in any direction changes exactly one axis, by exactly one unit.
pub proof fn lemma_step_changes_one_axis(d: Direction, x: int, y: int)
    ensures
        ({
            let nx = d.spec_move_x(x);
            let ny = d.spec_move_y(y);
            (nx == x && (ny == y - 1 || ny == y + 1)) || (ny == y && (nx == x - 1 || nx == x + 1))
        }),
{
}

} // verus!
