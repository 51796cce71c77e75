//! The path-linking search engine: waypoint selection, bonus-point
//! detection, greedy tile selection and the chain-building loop.

use vstd::prelude::*;
use crate::catalog::{connections_of, PathType};
use crate::direction::Direction;
use crate::model::{
    goldens_bounded, silvers_bounded, sum_available, unique_ids, Game, GoldenPoint, Path,
    PlacedPath, Point, SilverPoint, MAX_COORD,
};

verus! {

/// The chain-building loop gives up after this many placed tiles.
pub const CHAIN_BOUND: u16 = 100;

// ---------------------------------------------------------------------------
// Adjacency: when a chain end counts as connected to the target.
// ---------------------------------------------------------------------------

/// The remaining offset `(dx, dy)` is exactly one cell along a single axis
/// and the matching direction is still open: the chain has reached the
/// target without needing a tile on the target cell itself.
pub open spec fn linked_spec(dx: int, dy: int, dirs: Seq<Direction>) -> bool {
    if dy == 0 {
        (dx == 1 && dirs.contains(Direction::Right)) || (dx == -1 && dirs.contains(
            Direction::Left,
        ))
    } else if dx == 0 {
        (dy == 1 && dirs.contains(Direction::Down)) || (dy == -1 && dirs.contains(Direction::Up))
    } else {
        false
    }
}

fn contains_dir(v: &Vec<Direction>, d: Direction) -> (r: bool)
    ensures
        r == v@.contains(d),
{
    let mut i: usize = 0;
    while i < v.len()
        invariant
            0 <= i <= v@.len(),
            forall|j: int| 0 <= j < i ==> v@[j] != d,
        decreases v@.len() - i,
    {
        if v[i] == d {
            return true;
        }
        i += 1;
    }
    false
}

/// Whether the chain end at offset `(delta_x, delta_y)` from the target,
/// with the given open directions, is already connected to the target.
pub fn is_path_linked_to_golden(delta_x: i16, delta_y: i16, directions: &Vec<Direction>) -> (r:
    bool)
    ensures
        r == linked_spec(delta_x as int, delta_y as int, directions@),
{
    if delta_y == 0 {
        if delta_x == 1 {
            if contains_dir(directions, Direction::Right) {
                return true;
            }
        } else if delta_x == -1 {
            if contains_dir(directions, Direction::Left) {
                return true;
            }
        }
    } else if delta_x == 0 {
        if delta_y == 1 {
            if contains_dir(directions, Direction::Down) {
                return true;
            }
        } else if delta_y == -1 {
            if contains_dir(directions, Direction::Up) {
                return true;
            }
        }
    }
    false
}

// ---------------------------------------------------------------------------
// Bonus-point detection.
// ---------------------------------------------------------------------------

/// Whether a silver point lies in the rectangle anchored at `(x1, y1)`
/// whose far corner is raised, axis by axis, to reach `(x2, y2)`.  When
/// `(x2, y2)` lies above or left of the anchor on an axis, the rectangle
/// collapses to the anchor on that axis; the anchor is never lowered.
pub open spec fn in_rect(s: SilverPoint, x1: int, y1: int, x2: int, y2: int) -> bool {
    let fx = if x1 > x2 {
        x1
    } else {
        x2
    };
    let fy = if y1 > y2 {
        y1
    } else {
        y2
    };
    x1 <= s.x <= fx && y1 <= s.y <= fy
}

/// The first silver point at index `i` or later that lies in the rectangle.
pub open spec fn first_silver_from(
    ss: Seq<SilverPoint>,
    x1: int,
    y1: int,
    x2: int,
    y2: int,
    i: int,
) -> Option<(u16, u16)>
    decreases ss.len() - i,
{
    if !(0 <= i < ss.len()) {
        None
    } else if in_rect(ss[i], x1, y1, x2, y2) {
        Some((ss[i].x, ss[i].y))
    } else {
        first_silver_from(ss, x1, y1, x2, y2, i + 1)
    }
}

/// The first silver point lying in the rectangle, in list order.
pub open spec fn first_silver(ss: Seq<SilverPoint>, x1: int, y1: int, x2: int, y2: int) -> Option<
    (u16, u16),
> {
    first_silver_from(ss, x1, y1, x2, y2, 0)
}

/// The coordinates of the first silver point inside the rectangle anchored
/// at `(x1, y1)` and stretched toward `(x2, y2)`, if any.
pub fn does_rect_contains_silver(game: &Game, x1: u16, y1: u16, x2: u16, y2: u16) -> (r: Option<
    (u16, u16),
>)
    ensures
        r == first_silver(game.silver_points@, x1 as int, y1 as int, x2 as int, y2 as int),
{
    let fx = if x1 > x2 {
        x1
    } else {
        x2
    };
    let fy = if y1 > y2 {
        y1
    } else {
        y2
    };
    let ss = &game.silver_points;
    let mut i: usize = 0;
    while i < ss.len()
        invariant
            0 <= i <= ss@.len(),
            ss@ == game.silver_points@,
            fx == if x1 > x2 { x1 as int } else { x2 as int },
            fy == if y1 > y2 { y1 as int } else { y2 as int },
            first_silver(ss@, x1 as int, y1 as int, x2 as int, y2 as int) == first_silver_from(
                ss@,
                x1 as int,
                y1 as int,
                x2 as int,
                y2 as int,
                i as int,
            ),
        decreases ss@.len() - i,
    {
        let s = &ss[i];
        if s.x >= x1 && s.x <= fx && s.y >= y1 && s.y <= fy {
            proof {
                assert(in_rect(ss@[i as int], x1 as int, y1 as int, x2 as int, y2 as int));
                assert(first_silver_from(ss@, x1 as int, y1 as int, x2 as int, y2 as int, i as int)
                    == Some((ss@[i as int].x, ss@[i as int].y)));
            }
            return Some((s.x, s.y));
        }
        proof {
            assert(!in_rect(ss@[i as int], x1 as int, y1 as int, x2 as int, y2 as int));
            assert(first_silver_from(ss@, x1 as int, y1 as int, x2 as int, y2 as int, i as int)
                == first_silver_from(ss@, x1 as int, y1 as int, x2 as int, y2 as int, i + 1));
        }
        i += 1;
    }
    None
}

// ---------------------------------------------------------------------------
// Tile selection.
// ---------------------------------------------------------------------------

/// A selected tile: its type, the matched orientation, the matched entry
/// direction (first of the wanted list) and the tile's cost.
pub type Choice = (PathType, Seq<Direction>, Direction, u8);

/// The wanted direction list built for one open direction `out_dir` of the
/// chain end, at offset `(dx, dy)` from the target.  The first entry is the
/// opening the new tile must expose to attach to the previous cell; a
/// forward-biased direction is added per axis whose offset exceeds one
/// cell; in relaxed mode, both perpendicular directions are added for an
/// axis whose offset is zero when nothing else was added.
pub open spec fn wanted_list(out_dir: Direction, dx: int, dy: int, relaxed: bool) -> Seq<
    Direction,
> {
    let entry = out_dir.spec_invert();
    let s0 = seq![entry];
    let s1 = if dx > 1 && entry != Direction::Right {
        s0.push(Direction::Right)
    } else if dx < -1 && entry != Direction::Left {
        s0.push(Direction::Left)
    } else {
        s0
    };
    let s2 = if dy < -1 && entry != Direction::Up {
        s1.push(Direction::Up)
    } else if dy > 1 && entry != Direction::Down {
        s1.push(Direction::Down)
    } else {
        s1
    };
    let s3 = if relaxed && dx == 0 && s2.len() == 1 {
        let t = if entry != Direction::Right {
            s2.push(Direction::Right)
        } else {
            s2
        };
        if entry != Direction::Left {
            t.push(Direction::Left)
        } else {
            t
        }
    } else {
        s2
    };
    if relaxed && dy == 0 && s3.len() == 1 {
        let t = if entry != Direction::Up {
            s3.push(Direction::Up)
        } else {
            s3
        };
        if entry != Direction::Down {
            t.push(Direction::Down)
        } else {
            t
        }
    } else {
        s3
    }
}

/// The wanted lists for all open directions of the chain end, in order.
pub open spec fn wanted_lists(out: Seq<Direction>, dx: int, dy: int, relaxed: bool) -> Seq<
    Seq<Direction>,
> {
    out.map_values(|d: Direction| wanted_list(d, dx, dy, relaxed))
}

/// An orientation satisfies a wanted list when it contains the entry
/// direction (the list's head) and at least one further wanted direction.
pub open spec fn orientation_matches(orient: Seq<Direction>, wanted: Seq<Direction>) -> bool {
    &&& wanted.len() >= 1
    &&& orient.contains(wanted[0])
    &&& exists|i: int| 1 <= i < wanted.len() && orient.contains(wanted[i])
}

/// The first orientation at index `i` or later that satisfies the wanted
/// list.
pub open spec fn first_orient_from(
    orients: Seq<Seq<Direction>>,
    wanted: Seq<Direction>,
    i: int,
) -> Option<Seq<Direction>>
    decreases orients.len() - i,
{
    if !(0 <= i < orients.len()) {
        None
    } else if orientation_matches(orients[i], wanted) {
        Some(orients[i])
    } else {
        first_orient_from(orients, wanted, i + 1)
    }
}

/// The candidate an available tile type offers for the wanted lists at
/// index `i` or later: the first wanted list one of whose orientations
/// matches, paired with that first matching orientation.
pub open spec fn first_candidate_from(
    t: PathType,
    cost: u8,
    dirs: Seq<Seq<Direction>>,
    i: int,
) -> Option<Choice>
    decreases dirs.len() - i,
{
    if !(0 <= i < dirs.len()) {
        None
    } else {
        match first_orient_from(connections_of(t), dirs[i], 0) {
            Some(o) => Some((t, o, dirs[i][0], cost)),
            None => first_candidate_from(t, cost, dirs, i + 1),
        }
    }
}

/// The candidate one inventory entry offers: none when the entry is
/// exhausted, else its first matching combination.
pub open spec fn candidate_of(p: Path, dirs: Seq<Seq<Direction>>) -> Option<Choice> {
    if p.available == 0 {
        None
    } else {
        first_candidate_from(p.id, p.cost, dirs, 0)
    }
}

/// The cost the running minimum stands at: the sentinel `u8::MAX` before
/// any candidate was taken.  A candidate must cost strictly less to be
/// taken, so a tile costing `u8::MAX` is never selected.
pub open spec fn min_cost_of(acc: Option<Choice>) -> int {
    match acc {
        None => u8::MAX as int,
        Some(c) => c.3 as int,
    }
}

/// The running minimum after scanning inventory entries from index `i` on,
/// starting from `acc`: a candidate replaces the minimum only when it costs
/// strictly less, so the first of equal-cost candidates wins.
pub open spec fn best_choice_from(
    paths: Seq<Path>,
    dirs: Seq<Seq<Direction>>,
    i: int,
    acc: Option<Choice>,
) -> Option<Choice>
    decreases paths.len() - i,
{
    if !(0 <= i < paths.len()) {
        acc
    } else {
        let acc2 = match candidate_of(paths[i], dirs) {
            Some(c) => if (c.3 as int) < min_cost_of(acc) {
                Some(c)
            } else {
                acc
            },
            None => acc,
        };
        best_choice_from(paths, dirs, i + 1, acc2)
    }
}

/// The cheapest available tile satisfying one of the wanted lists, ties
/// kept in scan order.
pub open spec fn best_choice(paths: Seq<Path>, dirs: Seq<Seq<Direction>>) -> Option<Choice> {
    best_choice_from(paths, dirs, 0, None)
}

/// The full selector: search with the given mode, and when the strict mode
/// finds nothing, search once more relaxed.
pub open spec fn selector_spec(
    paths: Seq<Path>,
    out: Seq<Direction>,
    dx: int,
    dy: int,
    relaxed: bool,
) -> Option<Choice>
    decreases (if relaxed { 0int } else { 1int }),
{
    let r = best_choice(paths, wanted_lists(out, dx, dy, relaxed));
    if r is None && !relaxed {
        selector_spec(paths, out, dx, dy, true)
    } else {
        r
    }
}

fn build_wanted(out_dir: Direction, delta_x: i16, delta_y: i16, relaxed: bool) -> (r: Vec<
    Direction,
>)
    ensures
        r@ == wanted_list(out_dir, delta_x as int, delta_y as int, relaxed),
{
    let entry = out_dir.invert();
    let mut v: Vec<Direction> = Vec::new();
    v.push(entry);
    if delta_x > 1 {
        if entry != Direction::Right {
            v.push(Direction::Right);
        }
    } else if delta_x < -1 {
        if entry != Direction::Left {
            v.push(Direction::Left);
        }
    }
    if delta_y < -1 {
        if entry != Direction::Up {
            v.push(Direction::Up);
        }
    } else if delta_y > 1 {
        if entry != Direction::Down {
            v.push(Direction::Down);
        }
    }
    if relaxed && delta_x == 0 && v.len() == 1 {
        if entry != Direction::Right {
            v.push(Direction::Right);
        }
        if entry != Direction::Left {
            v.push(Direction::Left);
        }
    }
    if relaxed && delta_y == 0 && v.len() == 1 {
        if entry != Direction::Up {
            v.push(Direction::Up);
        }
        if entry != Direction::Down {
            v.push(Direction::Down);
        }
    }
    proof {
        assert(v@ =~= wanted_list(out_dir, delta_x as int, delta_y as int, relaxed));
    }
    v
}

fn orientation_match(orient: &Vec<Direction>, wanted: &Vec<Direction>) -> (r: bool)
    ensures
        r == orientation_matches(orient@, wanted@),
{
    if wanted.len() == 0 {
        return false;
    }
    if !contains_dir(orient, wanted[0]) {
        return false;
    }
    let mut j: usize = 1;
    while j < wanted.len()
        invariant
            1 <= j <= wanted@.len(),
            orient@.contains(wanted@[0]),
            forall|k: int| 1 <= k < j ==> !orient@.contains(wanted@[k]),
        decreases wanted@.len() - j,
    {
        if contains_dir(orient, wanted[j]) {
            return true;
        }
        j += 1;
    }
    false
}

fn copy_dirs(v: &Vec<Direction>) -> (r: Vec<Direction>)
    ensures
        r@ == v@,
{
    let mut r: Vec<Direction> = Vec::new();
    let mut i: usize = 0;
    while i < v.len()
        invariant
            0 <= i <= v@.len(),
            r@ == v@.take(i as int),
        decreases v@.len() - i,
    {
        r.push(v[i]);
        proof {
            assert(r@ =~= v@.take(i + 1));
        }
        i += 1;
    }
    proof {
        assert(v@.take(v@.len() as int) =~= v@);
    }
    r
}

fn candidate_for(path: &Path, directions: &Vec<Vec<Direction>>) -> (r: Option<
    (PathType, Vec<Direction>, Direction, u8),
>)
    ensures
        match r {
            None => candidate_of(*path, dir_views(directions@)) is None,
            Some(c) => candidate_of(*path, dir_views(directions@)) == Some(
                (c.0, c.1@, c.2, c.3),
            ),
        },
{
    let ghost dirs = dir_views(directions@);
    if path.available == 0 {
        return None;
    }
    let mut wi: usize = 0;
    while wi < directions.len()
        invariant
            0 <= wi <= directions@.len(),
            dirs == dir_views(directions@),
            path.available > 0,
            first_candidate_from(path.id, path.cost, dirs, 0) == first_candidate_from(
                path.id,
                path.cost,
                dirs,
                wi as int,
            ),
        decreases directions@.len() - wi,
    {
        let wanted = &directions[wi];
        proof {
            assert(dirs[wi as int] == wanted@);
        }
        let conns = path.id.get_connections();
        let mut ci: usize = 0;
        let n = conns.len();
        while ci < n
            invariant
                0 <= ci <= n,
                n == conns@.len(),
                crate::catalog::conn_views(conns@) == connections_of(path.id),
                0 <= wi < directions@.len(),
                dirs == dir_views(directions@),
                path.available > 0,
                first_candidate_from(path.id, path.cost, dirs, 0) == first_candidate_from(
                    path.id,
                    path.cost,
                    dirs,
                    wi as int,
                ),
                wanted@ == dirs[wi as int],
                first_orient_from(connections_of(path.id), wanted@, 0) == first_orient_from(
                    connections_of(path.id),
                    wanted@,
                    ci as int,
                ),
            decreases n - ci,
        {
            proof {
                assert(connections_of(path.id)[ci as int] == conns@[ci as int]@);
            }
            if orientation_match(&conns[ci], wanted) {
                let o = copy_dirs(&conns[ci]);
                proof {
                    assert(first_orient_from(connections_of(path.id), wanted@, ci as int)
                        == Some(conns@[ci as int]@));
                    assert(first_candidate_from(path.id, path.cost, dirs, wi as int) == Some(
                        (path.id, o@, wanted@[0], path.cost),
                    ));
                }
                return Some((path.id, o, wanted[0], path.cost));
            }
            ci += 1;
        }
        proof {
            assert(first_orient_from(connections_of(path.id), wanted@, n as int) is None);
            assert(first_candidate_from(path.id, path.cost, dirs, wi as int)
                == first_candidate_from(path.id, path.cost, dirs, wi + 1));
        }
        wi += 1;
    }
    None
}

/// The views of a list of wanted direction vectors.
pub open spec fn dir_views(r: Seq<Vec<Direction>>) -> Seq<Seq<Direction>> {
    r.map_values(|v: Vec<Direction>| v@)
}

/// Scan the whole inventory for the cheapest available tile satisfying one
/// of the wanted lists.
pub fn get_cheaper_path_to_move(game: &Game, directions: Vec<Vec<Direction>>) -> (r: Option<
    (PathType, Vec<Direction>, Direction, u8),
>)
    ensures
        match r {
            None => best_choice(game.paths@, dir_views(directions@)) is None,
            Some(c) => best_choice(game.paths@, dir_views(directions@)) == Some(
                (c.0, c.1@, c.2, c.3),
            ),
        },
{
    let ghost dirs = dir_views(directions@);
    let mut best: Option<(PathType, Vec<Direction>, Direction, u8)> = None;
    let mut best_cost: u8 = u8::MAX;
    let mut pi: usize = 0;
    while pi < game.paths.len()
        invariant
            0 <= pi <= game.paths@.len(),
            dirs == dir_views(directions@),
            best_cost as int == min_cost_of(opt_view(best)),
            best_choice(game.paths@, dirs) == best_choice_from(
                game.paths@,
                dirs,
                pi as int,
                opt_view(best),
            ),
        decreases game.paths@.len() - pi,
    {
        let path = &game.paths[pi];
        let cand = candidate_for(path, &directions);
        match cand {
            Some(c) => {
                if c.3 < best_cost {
                    best_cost = c.3;
                    best = Some(c);
                }
            },
            None => {},
        }
        pi += 1;
    }
    best
}

/// The spec-level value of a running exec selection.
pub open spec fn opt_view(r: Option<(PathType, Vec<Direction>, Direction, u8)>) -> Option<
    Choice,
> {
    match r {
        None => None,
        Some(c) => Some((c.0, c.1@, c.2, c.3)),
    }
}

/// Build the wanted lists for every open direction of the chain end and
/// search the inventory; when the strict pass finds nothing, retry once in
/// relaxed mode.
pub fn get_cheaper_path_to_move_with_out(
    game: &Game,
    out: Vec<Direction>,
    delta_x: i16,
    delta_y: i16,
    use_alternative: bool,
) -> (r: Option<(PathType, Vec<Direction>, Direction, u8)>)
    ensures
        match r {
            None => selector_spec(
                game.paths@,
                out@,
                delta_x as int,
                delta_y as int,
                use_alternative,
            ) is None,
            Some(c) => selector_spec(
                game.paths@,
                out@,
                delta_x as int,
                delta_y as int,
                use_alternative,
            ) == Some((c.0, c.1@, c.2, c.3)),
        },
    decreases (if use_alternative { 0int } else { 1int }),
{
    let mut directions: Vec<Vec<Direction>> = Vec::new();
    let mut i: usize = 0;
    while i < out.len()
        invariant
            0 <= i <= out@.len(),
            directions@.len() == i,
            forall|j: int| #![trigger directions@[j]]
                0 <= j < i ==> directions@[j]@ == wanted_list(
                    out@[j],
                    delta_x as int,
                    delta_y as int,
                    use_alternative,
                ),
        decreases out@.len() - i,
    {
        directions.push(build_wanted(out[i], delta_x, delta_y, use_alternative));
        i += 1;
    }
    proof {
        assert(dir_views(directions@) =~= wanted_lists(
            out@,
            delta_x as int,
            delta_y as int,
            use_alternative,
        ));
    }
    let result = get_cheaper_path_to_move(game, directions);
    if result.is_none() && !use_alternative {
        get_cheaper_path_to_move_with_out(game, out, delta_x, delta_y, true)
    } else {
        result
    }
}

// ---------------------------------------------------------------------------
// Selector laws.
// ---------------------------------------------------------------------------

/// The choice `c` names an inventory entry that exists, carries the
/// choice's cost, and still has stock.
pub open spec fn choice_backed(paths: Seq<Path>, c: Choice) -> bool {
    exists|k: int|
        0 <= k < paths.len() && paths[k].id == c.0 && paths[k].cost == c.3 && paths[k].available
            > 0
}

proof fn lemma_first_candidate_fields(t: PathType, cost: u8, dirs: Seq<Seq<Direction>>, i: int)
    ensures
        match first_candidate_from(t, cost, dirs, i) {
            Some(c) => c.0 == t && c.3 == cost,
            None => true,
        },
    decreases dirs.len() - i,
{
    if 0 <= i < dirs.len() {
        lemma_first_candidate_fields(t, cost, dirs, i + 1);
    }
}

proof fn lemma_best_choice_backed(
    paths: Seq<Path>,
    dirs: Seq<Seq<Direction>>,
    i: int,
    acc: Option<Choice>,
)
    requires
        match acc {
            Some(c) => choice_backed(paths, c),
            None => true,
        },
    ensures
        match best_choice_from(paths, dirs, i, acc) {
            Some(c) => choice_backed(paths, c),
            None => true,
        },
    decreases paths.len() - i,
{
    if 0 <= i < paths.len() {
        let acc2 = match candidate_of(paths[i], dirs) {
            Some(c) => if (c.3 as int) < min_cost_of(acc) {
                Some(c)
            } else {
                acc
            },
            None => acc,
        };
        match candidate_of(paths[i], dirs) {
            Some(c) => {
                lemma_first_candidate_fields(paths[i].id, paths[i].cost, dirs, 0);
                assert(c.0 == paths[i].id && c.3 == paths[i].cost && paths[i].available > 0);
            },
            None => {},
        }
        lemma_best_choice_backed(paths, dirs, i + 1, acc2);
    }
}

/// The tile selector never returns an exhausted tile: a selected choice
/// always names an inventory entry with remaining stock and the choice's
/// cost.
pub proof fn lemma_selector_respects_availability(
    paths: Seq<Path>,
    out: Seq<Direction>,
    dx: int,
    dy: int,
    relaxed: bool,
)
    ensures
        match selector_spec(paths, out, dx, dy, relaxed) {
            Some(c) => choice_backed(paths, c),
            None => true,
        },
    decreases (if relaxed { 0int } else { 1int }),
{
    lemma_best_choice_backed(paths, wanted_lists(out, dx, dy, relaxed), 0, None);
    if best_choice(paths, wanted_lists(out, dx, dy, relaxed)) is None && !relaxed {
        lemma_selector_respects_availability(paths, out, dx, dy, true);
    }
}

// ---------------------------------------------------------------------------
// Inventory consumption.
// ---------------------------------------------------------------------------

/// One inventory entry after a tile of type `id` was consumed: the
/// matching entry loses one unit, any other entry is untouched.
pub open spec fn dec_one(p: Path, id: PathType) -> Path {
    if p.id == id {
        Path { id: p.id, cost: p.cost, available: (p.available - 1) as u16 }
    } else {
        p
    }
}

/// The inventory after a tile of type `id` was consumed.
pub open spec fn dec_paths(paths: Seq<Path>, id: PathType) -> Seq<Path> {
    paths.map_values(|p: Path| dec_one(p, id))
}

fn consume_path(paths: &mut Vec<Path>, id: PathType)
    requires
        forall|i: int| #![trigger old(paths)@[i]]
            0 <= i < old(paths)@.len() && old(paths)@[i].id == id ==> old(
                paths,
            )@[i].available > 0,
    ensures
        final(paths)@ == dec_paths(old(paths)@, id),
{
    let mut updated: Vec<Path> = Vec::new();
    let mut i: usize = 0;
    while i < paths.len()
        invariant
            0 <= i <= paths@.len(),
            paths@ == old(paths)@,
            forall|j: int| #![trigger paths@[j]]
                0 <= j < paths@.len() && paths@[j].id == id ==> paths@[j].available > 0,
            updated@.len() == i,
            forall|j: int| #![trigger updated@[j]]
                0 <= j < i ==> updated@[j] == dec_one(paths@[j], id),
        decreases paths@.len() - i,
    {
        let p = paths[i];
        if p.id == id {
            updated.push(Path { id: p.id, cost: p.cost, available: p.available - 1 });
        } else {
            updated.push(p);
        }
        i += 1;
    }
    proof {
        assert(updated@ =~= dec_paths(paths@, id));
    }
    *paths = updated;
}

proof fn lemma_dec_noop(paths: Seq<Path>, id: PathType)
    requires
        forall|i: int| #![trigger paths[i]] 0 <= i < paths.len() ==> paths[i].id != id,
    ensures
        dec_paths(paths, id) == paths,
{
    assert(dec_paths(paths, id) =~= paths);
}

/// Consuming one unit of a stocked tile type lowers the inventory total by
/// exactly one, provided no two entries share a type.
pub proof fn lemma_consume_sum(paths: Seq<Path>, id: PathType)
    requires
        unique_ids(paths),
        exists|i: int|
            0 <= i < paths.len() && paths[i].id == id && paths[i].available > 0,
    ensures
        sum_available(dec_paths(paths, id)) == sum_available(paths) - 1,
    decreases paths.len(),
{
    let n = paths.len() as int;
    let l = paths.last();
    let prefix = paths.drop_last();
    assert(dec_paths(paths, id).drop_last() =~= dec_paths(prefix, id));
    assert(dec_paths(paths, id).last() == dec_one(l, id));
    if l.id == id {
        assert forall|i: int| #![trigger prefix[i]] 0 <= i < prefix.len() implies prefix[i].id
            != id by {
            assert(paths[i] == prefix[i]);
            assert(paths[i].id != paths[n - 1].id);
        }
        lemma_dec_noop(prefix, id);
        let w = choose|i: int|
            0 <= i < paths.len() && paths[i].id == id && paths[i].available > 0;
        assert(w == n - 1);
        assert(l.available > 0);
    } else {
        let w = choose|i: int|
            0 <= i < paths.len() && paths[i].id == id && paths[i].available > 0;
        assert(w < n - 1);
        assert(prefix[w] == paths[w]);
        assert(unique_ids(prefix)) by {
            assert(forall|i: int, j: int|
                0 <= i < j < prefix.len() ==> prefix[i] == paths[i] && prefix[j] == paths[j]);
        }
        lemma_consume_sum(prefix, id);
    }
}

// ---------------------------------------------------------------------------
// Chain building.
// ---------------------------------------------------------------------------

/// A direction sequence with every occurrence of `d` removed, order kept.
pub open spec fn without_dir(s: Seq<Direction>, d: Direction) -> Seq<Direction>
    decreases s.len(),
{
    if s.len() == 0 {
        Seq::empty()
    } else if s.last() == d {
        without_dir(s.drop_last(), d)
    } else {
        without_dir(s.drop_last(), d).push(s.last())
    }
}

fn retain_not(v: &Vec<Direction>, d: Direction) -> (r: Vec<Direction>)
    ensures
        r@ == without_dir(v@, d),
{
    let mut r: Vec<Direction> = Vec::new();
    let mut i: usize = 0;
    while i < v.len()
        invariant
            0 <= i <= v@.len(),
            r@ == without_dir(v@.take(i as int), d),
        decreases v@.len() - i,
    {
        proof {
            assert(v@.take(i + 1).drop_last() =~= v@.take(i as int));
            assert(v@.take(i + 1).last() == v@[i as int]);
        }
        if v[i] != d {
            r.push(v[i]);
        }
        i += 1;
    }
    proof {
        assert(v@.take(v@.len() as int) =~= v@);
    }
    r
}

/// The directions whose sign matches the offset from `(x1, y1)` to
/// `(x2, y2)`: the chain's initial open directions.
pub open spec fn initial_out(x1: int, y1: int, x2: int, y2: int) -> Seq<Direction> {
    let s0 = Seq::<Direction>::empty();
    let s1 = if x1 < x2 {
        s0.push(Direction::Right)
    } else if x1 > x2 {
        s0.push(Direction::Left)
    } else {
        s0
    };
    if y1 < y2 {
        s1.push(Direction::Down)
    } else if y1 > y2 {
        s1.push(Direction::Up)
    } else {
        s1
    }
}

/// One greedy linking pass from the cell `(x, y)` toward `(tx, ty)` with
/// the given open directions and remaining fuel: the placed tiles, in
/// order, and the inventory left behind.  The pass stops when the chain is
/// adjacent and aligned to the target, when the fuel runs out, when no
/// compatible tile is in stock, or when the next step would leave the
/// coordinate domain.
pub open spec fn chain_spec(
    paths: Seq<Path>,
    x: int,
    y: int,
    tx: int,
    ty: int,
    out: Seq<Direction>,
    fuel: nat,
) -> (Seq<PlacedPath>, Seq<Path>)
    decreases fuel,
{
    let dx = tx - x;
    let dy = ty - y;
    if linked_spec(dx, dy, out) || fuel == 0 {
        (Seq::empty(), paths)
    } else {
        match selector_spec(paths, out, dx, dy, false) {
            None => (Seq::empty(), paths),
            Some(c) => {
                let step = c.2.spec_invert();
                let nx = step.spec_move_x(x);
                let ny = step.spec_move_y(y);
                if nx < 0 || nx > u16::MAX || ny < 0 || ny > u16::MAX {
                    (Seq::empty(), paths)
                } else {
                    let rest = chain_spec(
                        dec_paths(paths, c.0),
                        nx,
                        ny,
                        tx,
                        ty,
                        without_dir(c.1, c.2),
                        (fuel - 1) as nat,
                    );
                    (
                        seq![PlacedPath { id: c.0, x: nx as u16, y: ny as u16 }] + rest.0,
                        rest.1,
                    )
                }
            },
        }
    }
}

/// Lay a chain of tiles from `g1` toward `g2`, consuming inventory, and
/// return the placed tiles in placement order.  The chain may be truncated:
/// it stops silently when no compatible tile is found or the iteration
/// bound is reached.  The inventory total drops by exactly the number of
/// tiles placed; nothing else of the board changes.
pub fn link_golden_points(game: &mut Game, g1: &Point, g2: &Point) -> (r: Vec<PlacedPath>)
    requires
        unique_ids(old(game).paths@),
        g1.x <= MAX_COORD,
        g1.y <= MAX_COORD,
        g2.x <= MAX_COORD,
        g2.y <= MAX_COORD,
    ensures
        ({
            let cr = chain_spec(
                old(game).paths@,
                g1.x as int,
                g1.y as int,
                g2.x as int,
                g2.y as int,
                initial_out(g1.x as int, g1.y as int, g2.x as int, g2.y as int),
                CHAIN_BOUND as nat,
            );
            r@ == cr.0 && final(game).paths@ == cr.1
        }),
        final(game).w == old(game).w,
        final(game).h == old(game).h,
        final(game).golden_points@ == old(game).golden_points@,
        final(game).silver_points@ == old(game).silver_points@,
        final(game).placed_paths@ == old(game).placed_paths@,
        unique_ids(final(game).paths@),
        final(game).paths@.len() == old(game).paths@.len(),
        sum_available(old(game).paths@) - sum_available(final(game).paths@) == r@.len(),
{
    let ghost full = chain_spec(
        old(game).paths@,
        g1.x as int,
        g1.y as int,
        g2.x as int,
        g2.y as int,
        initial_out(g1.x as int, g1.y as int, g2.x as int, g2.y as int),
        CHAIN_BOUND as nat,
    );
    let mut placed_paths: Vec<PlacedPath> = Vec::new();

    let mut last_path_x: u16 = g1.x;
    let mut last_path_y: u16 = g1.y;

    let mut delta_x: i16 = g2.x as i16 - g1.x as i16;
    let mut delta_y: i16 = g2.y as i16 - g1.y as i16;

    let mut last_out: Vec<Direction> = Vec::new();
    if g1.x < g2.x {
        last_out.push(Direction::Right);
    } else if g1.x > g2.x {
        last_out.push(Direction::Left);
    }
    if g1.y < g2.y {
        last_out.push(Direction::Down);
    } else if g1.y > g2.y {
        last_out.push(Direction::Up);
    }
    proof {
        assert(last_out@ =~= initial_out(g1.x as int, g1.y as int, g2.x as int, g2.y as int));
        assert(placed_paths@ + full.0 =~= full.0);
    }

    let mut i: u16 = 0;
    loop
        invariant_except_break
            g1.x <= MAX_COORD,
            g1.y <= MAX_COORD,
            g2.x <= MAX_COORD,
            g2.y <= MAX_COORD,
            full == chain_spec(
                old(game).paths@,
                g1.x as int,
                g1.y as int,
                g2.x as int,
                g2.y as int,
                initial_out(g1.x as int, g1.y as int, g2.x as int, g2.y as int),
                CHAIN_BOUND as nat,
            ),
            i <= CHAIN_BOUND,
            last_path_x <= MAX_COORD + i,
            last_path_y <= MAX_COORD + i,
            delta_x as int == g2.x - last_path_x,
            delta_y as int == g2.y - last_path_y,
            unique_ids(game.paths@),
            game.paths@.len() == old(game).paths@.len(),
            game.w == old(game).w,
            game.h == old(game).h,
            game.golden_points@ == old(game).golden_points@,
            game.silver_points@ == old(game).silver_points@,
            game.placed_paths@ == old(game).placed_paths@,
            sum_available(old(game).paths@) == sum_available(game.paths@)
                + placed_paths@.len(),
            ({
                let cur = chain_spec(
                    game.paths@,
                    last_path_x as int,
                    last_path_y as int,
                    g2.x as int,
                    g2.y as int,
                    last_out@,
                    (CHAIN_BOUND - i) as nat,
                );
                full.0 == placed_paths@ + cur.0 && full.1 == cur.1
            }),
        ensures
            full.0 == placed_paths@,
            full.1 == game.paths@,
            unique_ids(game.paths@),
            game.paths@.len() == old(game).paths@.len(),
            game.w == old(game).w,
            game.h == old(game).h,
            game.golden_points@ == old(game).golden_points@,
            game.silver_points@ == old(game).silver_points@,
            game.placed_paths@ == old(game).placed_paths@,
            sum_available(old(game).paths@) == sum_available(game.paths@)
                + placed_paths@.len(),
        decreases CHAIN_BOUND - i,
    {
        let ghost fuel = (CHAIN_BOUND - i) as nat;
        let ghost cur = chain_spec(
            game.paths@,
            last_path_x as int,
            last_path_y as int,
            g2.x as int,
            g2.y as int,
            last_out@,
            fuel,
        );
        let linked = is_path_linked_to_golden(delta_x, delta_y, &last_out);
        if linked || i >= CHAIN_BOUND {
            proof {
                assert(cur.0 =~= Seq::<PlacedPath>::empty());
                assert(placed_paths@ + cur.0 =~= placed_paths@);
            }
            break;
        }
        // The selector consumes its direction list; hand it a copy so the
        // open directions stay available to the invariants on exit.
        let res = get_cheaper_path_to_move_with_out(
            game,
            copy_dirs(&last_out),
            delta_x,
            delta_y,
            false,
        );
        match res {
            None => {
                proof {
                    assert(cur.0 =~= Seq::<PlacedPath>::empty());
                    assert(placed_paths@ + cur.0 =~= placed_paths@);
                }
                break;
            },
            Some((id, directions, out, _cost)) => {
                let ghost c = (id, directions@, out, _cost);
                proof {
                    assert(selector_spec(
                        game.paths@,
                        last_out@,
                        delta_x as int,
                        delta_y as int,
                        false,
                    ) == Some(c));
                }
                let new_out = retain_not(&directions, out);
                let step = out.invert();
                let blocked = match step {
                    Direction::Left => last_path_x == 0,
                    Direction::Right => last_path_x == u16::MAX,
                    Direction::Up => last_path_y == 0,
                    Direction::Down => last_path_y == u16::MAX,
                };
                if blocked {
                    proof {
                        assert(cur.0 =~= Seq::<PlacedPath>::empty());
                        assert(placed_paths@ + cur.0 =~= placed_paths@);
                    }
                    break;
                }
                proof {
                    lemma_selector_respects_availability(
                        game.paths@,
                        last_out@,
                        delta_x as int,
                        delta_y as int,
                        false,
                    );
                    let k = choose|k: int|
                        0 <= k < game.paths@.len() && game.paths@[k].id == c.0
                            && game.paths@[k].cost == c.3 && game.paths@[k].available > 0;
                    assert forall|j: int| #![trigger game.paths@[j]]
                        0 <= j < game.paths@.len() && game.paths@[j].id == id implies
                        game.paths@[j].available > 0 by {
                        if j != k {
                            assert(game.paths@[j].id != game.paths@[k].id);
                        }
                    }
                    lemma_consume_sum(game.paths@, id);
                }
                let ghost prev_placed = placed_paths@;
                let ghost nx = step.spec_move_x(last_path_x as int);
                let ghost ny = step.spec_move_y(last_path_y as int);
                proof {
                    assert(0 <= nx <= u16::MAX && 0 <= ny <= u16::MAX);
                }
                last_path_x = step.move_x(last_path_x);
                last_path_y = step.move_y(last_path_y);

                let placed_path = PlacedPath { id, x: last_path_x, y: last_path_y };
                placed_paths.push(placed_path);

                consume_path(&mut game.paths, id);

                delta_x = g2.x as i16 - last_path_x as i16;
                delta_y = g2.y as i16 - last_path_y as i16;
                last_out = new_out;
                i += 1;
                proof {
                    let next = chain_spec(
                        game.paths@,
                        last_path_x as int,
                        last_path_y as int,
                        g2.x as int,
                        g2.y as int,
                        last_out@,
                        (CHAIN_BOUND - i) as nat,
                    );
                    assert(cur.0 == seq![placed_path] + next.0 && cur.1 == next.1);
                    assert(full.0 == prev_placed + (seq![placed_path] + next.0));
                    assert(prev_placed + (seq![placed_path] + next.0) =~= placed_paths@
                        + next.0);
                }
            },
        }
    }
    placed_paths
}

// ---------------------------------------------------------------------------
// The driver: one full linking pass.
// ---------------------------------------------------------------------------

/// The waypoint list with every waypoint at `(x, y)` marked linked.
pub open spec fn mark_linked(gs: Seq<GoldenPoint>, x: u16, y: u16) -> Seq<GoldenPoint> {
    gs.map_values(
        |g: GoldenPoint|
            if g.x == x && g.y == y {
                GoldenPoint { x: g.x, y: g.y, is_linked: true }
            } else {
                g
            },
    )
}

fn mark_golden_linked(points: &mut Vec<GoldenPoint>, x: u16, y: u16)
    ensures
        final(points)@ == mark_linked(old(points)@, x, y),
{
    let mut updated: Vec<GoldenPoint> = Vec::new();
    let mut i: usize = 0;
    while i < points.len()
        invariant
            0 <= i <= points@.len(),
            points@ == old(points)@,
            updated@.len() == i,
            forall|j: int| #![trigger updated@[j]]
                0 <= j < i ==> updated@[j] == mark_linked(points@, x, y)[j],
        decreases points@.len() - i,
    {
        let g = points[i];
        if g.x == x && g.y == y {
            updated.push(GoldenPoint { x: g.x, y: g.y, is_linked: true });
        } else {
            updated.push(g);
        }
        i += 1;
    }
    proof {
        assert(updated@ =~= mark_linked(points@, x, y));
    }
    *points = updated;
}

/// One linking pass over the board: pick the closest pair of unlinked
/// golden waypoints, detour to a bonus point lying between them if one is
/// found, lay the tile chain, and record the placements.  The second
/// waypoint is marked linked only when no bonus point redirected the
/// chain; the first is always marked.  The inventory total drops by
/// exactly the number of tiles placed.
pub fn find_optimal_paths(game: &mut Game)
    requires
        old(game).golden_points@.len() >= 2,
        unique_ids(old(game).paths@),
        goldens_bounded(old(game).golden_points@),
        silvers_bounded(old(game).silver_points@),
    ensures
        ({
            let gs = old(game).golden_points@;
            let pr = crate::waypoint::closest_pair_spec(gs);
            let bonus = first_silver(
                old(game).silver_points@,
                pr.0.x as int,
                pr.0.y as int,
                pr.1.x as int,
                pr.1.y as int,
            );
            let target = match bonus {
                Some(b) => Point { x: b.0, y: b.1 },
                None => pr.1,
            };
            let cr = chain_spec(
                old(game).paths@,
                pr.0.x as int,
                pr.0.y as int,
                target.x as int,
                target.y as int,
                initial_out(pr.0.x as int, pr.0.y as int, target.x as int, target.y as int),
                CHAIN_BOUND as nat,
            );
            let marked = match bonus {
                Some(_) => gs,
                None => mark_linked(gs, pr.1.x, pr.1.y),
            };
            &&& final(game).placed_paths@ == cr.0
            &&& final(game).paths@ == cr.1
            &&& final(game).golden_points@ == mark_linked(marked, pr.0.x, pr.0.y)
            &&& final(game).silver_points@ == old(game).silver_points@
            &&& final(game).w == old(game).w
            &&& final(game).h == old(game).h
            &&& sum_available(old(game).paths@) - sum_available(final(game).paths@)
                == final(game).placed_paths@.len()
        }),
{
    let (p1, p2) = crate::waypoint::get_closer_goldens(game);
    let silver = crate::waypoint::bonus_target_between(game, &p1, &p2);
    let placed: Vec<PlacedPath>;
    match silver {
        Some(pt) => {
            proof {
                crate::waypoint::lemma_silver_target_bounded(
                    game.silver_points@,
                    p1.x as int,
                    p1.y as int,
                    p2.x as int,
                    p2.y as int,
                );
            }
            placed = link_golden_points(game, &p1, &pt);
        },
        None => {
            placed = link_golden_points(game, &p1, &p2);
            mark_golden_linked(&mut game.golden_points, p2.x, p2.y);
        },
    }
    mark_golden_linked(&mut game.golden_points, p1.x, p1.y);
    game.placed_paths = placed;
}

} // verus!
