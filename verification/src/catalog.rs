//! The fixed catalog of connector-tile types and their orientation sets.

use vstd::prelude::*;
use crate::direction::Direction;

verus! {

/// A connector-tile type.  Each type maps to one or two orientation sets of
/// two to four compass openings (see [`connections_of`]).
#[derive(Debug, Clone, Copy, PartialEq, Eq, Structural)]
pub enum PathType {
    Z3,
    Z5,
    Z6,
    Z7,
    Z9,
    Z96,
    A,
    A5,
    B,
    C,
    C3,
    D,
    E,
    F,
}

/// The orientation sets of a tile type: each inner sequence lists the
/// compass openings that the tile connects under one allowed rotation.
pub open spec fn connections_of(t: PathType) -> Seq<Seq<Direction>> {
    match t {
        PathType::Z3 => seq![seq![Direction::Left, Direction::Right]],
        PathType::Z5 => seq![seq![Direction::Down, Direction::Right]],
        PathType::Z6 => seq![seq![Direction::Down, Direction::Left]],
        PathType::Z7 => seq![seq![Direction::Down, Direction::Right, Direction::Left]],
        PathType::Z9 => seq![seq![Direction::Up, Direction::Right]],
        PathType::Z96 => seq![
            seq![Direction::Down, Direction::Left],
            seq![Direction::Up, Direction::Right],
        ],
        PathType::A => seq![seq![Direction::Up, Direction::Left]],
        PathType::A5 => seq![
            seq![Direction::Down, Direction::Right],
            seq![Direction::Up, Direction::Left],
        ],
        PathType::B => seq![seq![Direction::Up, Direction::Right, Direction::Left]],
        PathType::C => seq![seq![Direction::Down, Direction::Up]],
        PathType::C3 => seq![
            seq![Direction::Down, Direction::Up],
            seq![Direction::Left, Direction::Right],
        ],
        PathType::D => seq![seq![Direction::Down, Direction::Right, Direction::Up]],
        PathType::E => seq![seq![Direction::Down, Direction::Left, Direction::Up]],
        PathType::F => seq![
            seq![Direction::Down, Direction::Right, Direction::Left, Direction::Up],
        ],
    }
}

/// The views of a list of direction vectors, for relating executable
/// orientation lists to [`connections_of`].
pub open spec fn conn_views(r: Seq<Vec<Direction>>) -> Seq<Seq<Direction>> {
    r.map_values(|v: Vec<Direction>| v@)
}

impl PathType {
    /// The orientation sets of this tile type, as executable vectors; the
    /// views equal [`connections_of`] exactly.
    pub fn get_connections(&self) -> (r: Vec<Vec<Direction>>)
        ensures
            conn_views(r@) == connections_of(*self),
    {
        let mut r: Vec<Vec<Direction>> = Vec::new();
        match self {
            PathType::Z3 => {
                r.push(pair(Direction::Left, Direction::Right));
            },
            PathType::Z5 => {
                r.push(pair(Direction::Down, Direction::Right));
            },
            PathType::Z6 => {
                r.push(pair(Direction::Down, Direction::Left));
            },
            PathType::Z7 => {
                r.push(triple(Direction::Down, Direction::Right, Direction::Left));
            },
            PathType::Z9 => {
                r.push(pair(Direction::Up, Direction::Right));
            },
            PathType::Z96 => {
                r.push(pair(Direction::Down, Direction::Left));
                r.push(pair(Direction::Up, Direction::Right));
            },
            PathType::A => {
                r.push(pair(Direction::Up, Direction::Left));
            },
            PathType::A5 => {
                r.push(pair(Direction::Down, Direction::Right));
                r.push(pair(Direction::Up, Direction::Left));
            },
            PathType::B => {
                r.push(triple(Direction::Up, Direction::Right, Direction::Left));
            },
            PathType::C => {
                r.push(pair(Direction::Down, Direction::Up));
            },
            PathType::C3 => {
                r.push(pair(Direction::Down, Direction::Up));
                r.push(pair(Direction::Left, Direction::Right));
            },
            PathType::D => {
                r.push(triple(Direction::Down, Direction::Right, Direction::Up));
            },
            PathType::E => {
                r.push(triple(Direction::Down, Direction::Left, Direction::Up));
            },
            PathType::F => {
                r.push(
                    quad(Direction::Down, Direction::Right, Direction::Left, Direction::Up),
                );
            },
        }
        proof {
            assert(conn_views(r@) =~= connections_of(*self));
        }
        r
    }
}

fn pair(a: Direction, b: Direction) -> (r: Vec<Direction>)
    ensures
        r@ == seq![a, b],
{
    let mut r: Vec<Direction> = Vec::new();
    r.push(a);
    r.push(b);
    proof {
        assert(r@ =~= seq![a, b]);
    }
    r
}

fn triple(a: Direction, b: Direction, c: Direction) -> (r: Vec<Direction>)
    ensures
        r@ == seq![a, b, c],
{
    let mut r: Vec<Direction> = Vec::new();
    r.push(a);
    r.push(b);
    r.push(c);
    proof {
        assert(r@ =~= seq![a, b, c]);
    }
    r
}

fn quad(a: Direction, b: Direction, c: Direction, d: Direction) -> (r: Vec<Direction>)
    ensures
        r@ == seq![a, b, c, d],
{
    let mut r: Vec<Direction> = Vec::new();
    r.push(a);
    r.push(b);
    r.push(c);
    r.push(d);
    proof {
        assert(r@ =~= seq![a, b, c, d]);
    }
    r
}

/// Every orientation set of every tile type has between two and four
/// openings, and no opening is listed twice.
pub proof fn lemma_orientations_wellformed(t: PathType)
    ensures
        forall|i: int| #![trigger connections_of(t)[i]]
            0 <= i < connections_of(t).len() ==> {
                &&& 2 <= connections_of(t)[i].len() <= 4
                &&& forall|j: int, k: int|
                    0 <= j < k < connections_of(t)[i].len()
                        ==> connections_of(t)[i][j] != connections_of(t)[i][k]
            },
{
    assert forall|i: int| #![trigger connections_of(t)[i]]
        0 <= i < connections_of(t).len() implies {
            &&& 2 <= connections_of(t)[i].len() <= 4
            &&& forall|j: int, k: int|
                0 <= j < k < connections_of(t)[i].len()
                    ==> connections_of(t)[i][j] != connections_of(t)[i][k]
        } by {
        match t {
            PathType::Z3 => assert(connections_of(t).len() == 1),
            PathType::Z5 => assert(connections_of(t).len() == 1),
            PathType::Z6 => assert(connections_of(t).len() == 1),
            PathType::Z7 => assert(connections_of(t).len() == 1),
            PathType::Z9 => assert(connections_of(t).len() == 1),
            PathType::Z96 => assert(connections_of(t).len() == 2),
            PathType::A => assert(connections_of(t).len() == 1),
            PathType::A5 => assert(connections_of(t).len() == 2),
            PathType::B => assert(connections_of(t).len() == 1),
            PathType::C => assert(connections_of(t).len() == 1),
            PathType::C3 => assert(connections_of(t).len() == 2),
            PathType::D => assert(connections_of(t).len() == 1),
            PathType::E => assert(connections_of(t).len() == 1),
            PathType::F => assert(connections_of(t).len() == 1),
        }
    }
}

} // verus!
