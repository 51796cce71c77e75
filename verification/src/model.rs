//! The board data: waypoints, bonus points, tile inventory and placements.

use vstd::prelude::*;
use crate::catalog::PathType;

verus! {

/// The largest coordinate the engine accepts.  Deltas between cells are
/// carried as `i16` values, and a chain may drift up to its iteration bound
/// of one hundred cells past a coordinate, so the bound keeps every such
/// delta and every Manhattan distance representable.
pub const MAX_COORD: u16 = 16000;

/// The Manhattan distance between two cells.
pub open spec fn manhattan(x1: int, y1: int, x2: int, y2: int) -> int {
    abs_diff(x1, x2) + abs_diff(y1, y2)
}

/// The absolute difference of two integers.
pub open spec fn abs_diff(a: int, b: int) -> int {
    if a >= b {
        a - b
    } else {
        b - a
    }
}

/// A mandatory waypoint.  `is_linked` is set once the engine has connected
/// the point and is never reset.
#[derive(Debug, Clone, Copy, PartialEq, Eq, Structural)]
pub struct GoldenPoint {
    pub x: u16,
    pub y: u16,
    pub is_linked: bool,
}

impl GoldenPoint {
    /// Manhattan distance from this waypoint to the cell `(x, y)`.
    pub fn distance(&self, x: u16, y: u16) -> (r: u16)
        requires
            manhattan(self.x as int, self.y as int, x as int, y as int) <= u16::MAX,
        ensures
            r == manhattan(self.x as int, self.y as int, x as int, y as int),
    {
        let dx = if self.x >= x {
            self.x - x
        } else {
            x - self.x
        };
        let dy = if self.y >= y {
            self.y - y
        } else {
            y - self.y
        };
        dx + dy
    }

    /// Manhattan distance from this waypoint to another.
    pub fn distance_to(&self, other: &GoldenPoint) -> (r: u16)
        requires
            manhattan(self.x as int, self.y as int, other.x as int, other.y as int) <= u16::MAX,
        ensures
            r == manhattan(self.x as int, self.y as int, other.x as int, other.y as int),
    {
        self.distance(other.x, other.y)
    }

    pub fn coordinates(&self) -> (r: (u16, u16))
        ensures
            r == (self.x, self.y),
    {
        (self.x, self.y)
    }
}

/// An optional bonus point.  `linked` is carried for input fidelity; the
/// engine never reads or writes it.
#[derive(Debug, Clone, Copy, PartialEq, Eq, Structural)]
pub struct SilverPoint {
    pub x: u16,
    pub y: u16,
    pub points: u16,
    pub linked: bool,
}

impl SilverPoint {
    pub fn coordinates(&self) -> (r: (u16, u16))
        ensures
            r == (self.x, self.y),
    {
        (self.x, self.y)
    }
}

/// A transient coordinate pair passed between selection steps.
#[derive(Debug, Clone, Copy, PartialEq, Eq, Structural)]
pub struct Point {
    pub x: u16,
    pub y: u16,
}

impl From<&GoldenPoint> for Point {
    fn from(value: &GoldenPoint) -> (r: Point)
        ensures
            r == (Point { x: value.x, y: value.y }),
    {
        Point { x: value.x, y: value.y }
    }
}

impl vstd::std_specs::convert::FromSpecImpl<&GoldenPoint> for Point {
    open spec fn obeys_from_spec() -> bool {
        true
    }

    open spec fn from_spec(value: &GoldenPoint) -> Point {
        Point { x: value.x, y: value.y }
    }
}

impl From<&SilverPoint> for Point {
    fn from(value: &SilverPoint) -> (r: Point)
        ensures
            r == (Point { x: value.x, y: value.y }),
    {
        Point { x: value.x, y: value.y }
    }
}

impl vstd::std_specs::convert::FromSpecImpl<&SilverPoint> for Point {
    open spec fn obeys_from_spec() -> bool {
        true
    }

    open spec fn from_spec(value: &SilverPoint) -> Point {
        Point { x: value.x, y: value.y }
    }
}

/// One entry of the tile inventory: a tile type, its cost, and how many
/// units remain.
#[derive(Debug, Clone, Copy, PartialEq, Eq, Structural)]
pub struct Path {
    pub id: PathType,
    pub cost: u8,
    pub available: u16,
}

/// A tile committed to a cell.  The output of a linking pass is the ordered
/// sequence of these records, in placement order.
#[derive(Debug, Clone, Copy, PartialEq, Eq, Structural)]
pub struct PlacedPath {
    pub id: PathType,
    pub x: u16,
    pub y: u16,
}

/// The whole board state.
#[derive(Debug, Clone, PartialEq)]
pub struct Game {
    pub w: u16,
    pub h: u16,
    pub golden_points: Vec<GoldenPoint>,
    pub silver_points: Vec<SilverPoint>,
    pub paths: Vec<Path>,
    pub placed_paths: Vec<PlacedPath>,
}

/// No two inventory entries name the same tile type: the inventory is a
/// map from tile type to cost and remaining count.
pub open spec fn unique_ids(paths: Seq<Path>) -> bool {
    forall|i: int, j: int| 0 <= i < j < paths.len() ==> paths[i].id != paths[j].id
}

/// Every golden coordinate lies within [`MAX_COORD`].
pub open spec fn goldens_bounded(gs: Seq<GoldenPoint>) -> bool {
    forall|i: int| #![trigger gs[i]]
        0 <= i < gs.len() ==> gs[i].x <= MAX_COORD && gs[i].y <= MAX_COORD
}

/// Every silver coordinate lies within [`MAX_COORD`].
pub open spec fn silvers_bounded(ss: Seq<SilverPoint>) -> bool {
    forall|i: int| #![trigger ss[i]]
        0 <= i < ss.len() ==> ss[i].x <= MAX_COORD && ss[i].y <= MAX_COORD
}

/// The total number of tile units remaining in the inventory.
pub open spec fn sum_available(paths: Seq<Path>) -> int
    decreases paths.len(),
{
    if paths.len() == 0 {
        0
    } else {
        sum_available(paths.drop_last()) + paths.last().available
    }
}

} // verus!
