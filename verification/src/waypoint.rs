//! Waypoint selection: the closest pair of unlinked golden waypoints, the
//! nearest golden waypoint to a cell, and the bonus point between two
//! waypoints.

use vstd::prelude::*;
use crate::engine::{first_silver, first_silver_from, in_rect};
use crate::model::{goldens_bounded, manhattan, Game, GoldenPoint, Point, MAX_COORD};

verus! {

/// The point at a waypoint's coordinates.
pub open spec fn pt_of(g: GoldenPoint) -> Point {
    Point { x: g.x, y: g.y }
}

/// One candidate pair held against the running minimum `acc = (dist, p, q)`:
/// the pair replaces the minimum when the second point is unlinked, the two
/// points share no axis, and their distance is strictly smaller.
pub open spec fn pair_step(g1: GoldenPoint, g2: GoldenPoint, acc: (int, Point, Point)) -> (
    int,
    Point,
    Point,
) {
    let d = manhattan(g1.x as int, g1.y as int, g2.x as int, g2.y as int);
    if !g2.is_linked && g1.x != g2.x && g1.y != g2.y && d < acc.0 {
        (d, pt_of(g1), pt_of(g2))
    } else {
        acc
    }
}

/// The running minimum after holding `g1` against every waypoint from
/// index `j` on.
pub open spec fn scan_row(
    gs: Seq<GoldenPoint>,
    g1: GoldenPoint,
    j: int,
    acc: (int, Point, Point),
) -> (int, Point, Point)
    decreases gs.len() - j,
{
    if !(0 <= j < gs.len()) {
        acc
    } else {
        scan_row(gs, g1, j + 1, pair_step(g1, gs[j], acc))
    }
}

/// The running minimum after scanning every ordered pair whose first
/// member has index `i` or more; rows of linked first members are skipped.
pub open spec fn scan_pairs(gs: Seq<GoldenPoint>, i: int, acc: (int, Point, Point)) -> (
    int,
    Point,
    Point,
)
    decreases gs.len() - i,
{
    if !(0 <= i < gs.len()) {
        acc
    } else {
        let acc2 = if gs[i].is_linked {
            acc
        } else {
            scan_row(gs, gs[i], 0, acc)
        };
        scan_pairs(gs, i + 1, acc2)
    }
}

/// The closest pair of unlinked golden waypoints differing in both axes,
/// first found winning ties, normalized so the smaller column comes first.
/// When no such pair exists, the first two waypoints stand in.
pub open spec fn closest_pair_spec(gs: Seq<GoldenPoint>) -> (Point, Point)
    recommends
        gs.len() >= 2,
{
    let init = (i16::MAX as int, pt_of(gs[0]), pt_of(gs[1]));
    let res = scan_pairs(gs, 0, init);
    if res.1.x > res.2.x {
        (res.2, res.1)
    } else {
        (res.1, res.2)
    }
}

/// `p` has the coordinates of some waypoint in `gs`.
pub open spec fn from_goldens(gs: Seq<GoldenPoint>, p: Point) -> bool {
    exists|k: int| 0 <= k < gs.len() && gs[k].x == p.x && gs[k].y == p.y
}

/// `p` has the coordinates of some unlinked waypoint in `gs`.
pub open spec fn unlinked_at(gs: Seq<GoldenPoint>, p: Point) -> bool {
    exists|k: int|
        0 <= k < gs.len() && gs[k].x == p.x && gs[k].y == p.y && !gs[k].is_linked
}

spec fn acc_from_goldens(gs: Seq<GoldenPoint>, acc: (int, Point, Point)) -> bool {
    from_goldens(gs, acc.1) && from_goldens(gs, acc.2)
}

proof fn lemma_scan_row_points(
    gs: Seq<GoldenPoint>,
    g1: GoldenPoint,
    j: int,
    acc: (int, Point, Point),
)
    requires
        acc_from_goldens(gs, acc),
        exists|k: int| 0 <= k < gs.len() && gs[k] == g1,
    ensures
        acc_from_goldens(gs, scan_row(gs, g1, j, acc)),
    decreases gs.len() - j,
{
    if 0 <= j < gs.len() {
        let acc2 = pair_step(g1, gs[j], acc);
        assert(acc_from_goldens(gs, acc2));
        lemma_scan_row_points(gs, g1, j + 1, acc2);
    }
}

proof fn lemma_scan_pairs_points(gs: Seq<GoldenPoint>, i: int, acc: (int, Point, Point))
    requires
        acc_from_goldens(gs, acc),
    ensures
        acc_from_goldens(gs, scan_pairs(gs, i, acc)),
    decreases gs.len() - i,
{
    if 0 <= i < gs.len() {
        let acc2 = if gs[i].is_linked {
            acc
        } else {
            scan_row(gs, gs[i], 0, acc)
        };
        if !gs[i].is_linked {
            lemma_scan_row_points(gs, gs[i], 0, acc);
        }
        lemma_scan_pairs_points(gs, i + 1, acc2);
    }
}

/// The closest pair is made of waypoint coordinates.
pub proof fn lemma_closest_pair_points(gs: Seq<GoldenPoint>)
    requires
        gs.len() >= 2,
    ensures
        from_goldens(gs, closest_pair_spec(gs).0),
        from_goldens(gs, closest_pair_spec(gs).1),
{
    let init = (i16::MAX as int, pt_of(gs[0]), pt_of(gs[1]));
    lemma_scan_pairs_points(gs, 0, init);
}

/// Pick the closest pair of unlinked golden waypoints that differ in both
/// coordinates, normalized so the point with the smaller column comes
/// first; the first two waypoints stand in when no such pair exists.
pub fn get_closer_goldens(game: &Game) -> (r: (Point, Point))
    requires
        game.golden_points@.len() >= 2,
        goldens_bounded(game.golden_points@),
    ensures
        r == closest_pair_spec(game.golden_points@),
        r.0.x <= MAX_COORD && r.0.y <= MAX_COORD,
        r.1.x <= MAX_COORD && r.1.y <= MAX_COORD,
{
    let gs = &game.golden_points;
    let mut min1 = Point { x: gs[0].x, y: gs[0].y };
    let mut min2 = Point { x: gs[1].x, y: gs[1].y };
    let mut min_dist: i16 = i16::MAX;
    let ghost init = (i16::MAX as int, pt_of(gs@[0]), pt_of(gs@[1]));
    let ghost fin = scan_pairs(gs@, 0, init);
    let mut i: usize = 0;
    while i < gs.len()
        invariant
            gs@ == game.golden_points@,
            goldens_bounded(gs@),
            gs@.len() >= 2,
            0 <= i <= gs@.len(),
            init == (i16::MAX as int, pt_of(gs@[0]), pt_of(gs@[1])),
            fin == scan_pairs(gs@, 0, init),
            fin == scan_pairs(gs@, i as int, (min_dist as int, min1, min2)),
        decreases gs@.len() - i,
    {
        let g1 = gs[i];
        if !g1.is_linked {
            let ghost acc0 = (min_dist as int, min1, min2);
            let mut j: usize = 0;
            while j < gs.len()
                invariant
                    gs@ == game.golden_points@,
                    goldens_bounded(gs@),
                    0 <= i < gs@.len(),
                    0 <= j <= gs@.len(),
                    g1 == gs@[i as int],
                    !g1.is_linked,
                    fin == scan_pairs(gs@, 0, init),
                    fin == scan_pairs(
                        gs@,
                        i + 1,
                        scan_row(gs@, g1, j as int, (min_dist as int, min1, min2)),
                    ),
                decreases gs@.len() - j,
            {
                let g2 = gs[j];
                let ghost accj = (min_dist as int, min1, min2);
                if !g2.is_linked && g1.x != g2.x && g1.y != g2.y {
                    let dx = if g1.x >= g2.x {
                        g1.x - g2.x
                    } else {
                        g2.x - g1.x
                    };
                    let dy = if g1.y >= g2.y {
                        g1.y - g2.y
                    } else {
                        g2.y - g1.y
                    };
                    let dist = (dx + dy) as i16;
                    if dist < min_dist {
                        min_dist = dist;
                        min1 = Point { x: g1.x, y: g1.y };
                        min2 = Point { x: g2.x, y: g2.y };
                    }
                }
                proof {
                    assert(scan_row(gs@, g1, j as int, accj) == scan_row(
                        gs@,
                        g1,
                        j + 1,
                        pair_step(g1, gs@[j as int], accj),
                    ));
                    assert((min_dist as int, min1, min2) == pair_step(g1, gs@[j as int], accj));
                }
                j += 1;
            }
        }
        i += 1;
    }
    proof {
        lemma_scan_pairs_points(gs@, 0, init);
        assert(fin == (min_dist as int, min1, min2));
    }
    if min1.x > min2.x {
        (min2, min1)
    } else {
        (min1, min2)
    }
}

// ---------------------------------------------------------------------------
// Validity of the selected pair.
// ---------------------------------------------------------------------------

/// Some ordered pair of unlinked waypoints differs in both axes.
pub open spec fn has_valid_pair(gs: Seq<GoldenPoint>) -> bool {
    exists|i: int, j: int|
        0 <= i < gs.len() && 0 <= j < gs.len() && !gs[i].is_linked && !gs[j].is_linked
            && gs[i].x != gs[j].x && gs[i].y != gs[j].y
}

/// The running minimum is below the sentinel only once it holds a pair of
/// unlinked waypoints that differ in both axes.
spec fn acc_valid(gs: Seq<GoldenPoint>, acc: (int, Point, Point)) -> bool {
    acc.0 <= i16::MAX && (acc.0 < i16::MAX ==> {
        &&& acc.1.x != acc.2.x
        &&& acc.1.y != acc.2.y
        &&& unlinked_at(gs, acc.1)
        &&& unlinked_at(gs, acc.2)
    })
}

proof fn lemma_scan_row_valid(
    gs: Seq<GoldenPoint>,
    g1: GoldenPoint,
    j: int,
    acc: (int, Point, Point),
)
    requires
        acc_valid(gs, acc),
        exists|k: int| 0 <= k < gs.len() && gs[k] == g1,
        !g1.is_linked,
    ensures
        acc_valid(gs, scan_row(gs, g1, j, acc)),
        scan_row(gs, g1, j, acc).0 <= acc.0,
    decreases gs.len() - j,
{
    if 0 <= j < gs.len() {
        let acc2 = pair_step(g1, gs[j], acc);
        assert(acc_valid(gs, acc2));
        lemma_scan_row_valid(gs, g1, j + 1, acc2);
    }
}

proof fn lemma_scan_pairs_valid(gs: Seq<GoldenPoint>, i: int, acc: (int, Point, Point))
    requires
        acc_valid(gs, acc),
    ensures
        acc_valid(gs, scan_pairs(gs, i, acc)),
        scan_pairs(gs, i, acc).0 <= acc.0,
    decreases gs.len() - i,
{
    if 0 <= i < gs.len() {
        let acc2 = if gs[i].is_linked {
            acc
        } else {
            scan_row(gs, gs[i], 0, acc)
        };
        if !gs[i].is_linked {
            lemma_scan_row_valid(gs, gs[i], 0, acc);
        }
        lemma_scan_pairs_valid(gs, i + 1, acc2);
    }
}

proof fn lemma_scan_row_hits(
    gs: Seq<GoldenPoint>,
    g1: GoldenPoint,
    j: int,
    acc: (int, Point, Point),
    b: int,
)
    requires
        acc_valid(gs, acc),
        exists|k: int| 0 <= k < gs.len() && gs[k] == g1,
        !g1.is_linked,
        0 <= j <= b < gs.len(),
        !gs[b].is_linked,
        g1.x != gs[b].x,
        g1.y != gs[b].y,
    ensures
        scan_row(gs, g1, j, acc).0 <= manhattan(
            g1.x as int,
            g1.y as int,
            gs[b].x as int,
            gs[b].y as int,
        ),
    decreases gs.len() - j,
{
    let acc2 = pair_step(g1, gs[j], acc);
    assert(acc_valid(gs, acc2));
    if j == b {
        let d = manhattan(g1.x as int, g1.y as int, gs[b].x as int, gs[b].y as int);
        assert(acc2.0 <= d);
        lemma_scan_row_valid(gs, g1, j + 1, acc2);
    } else {
        lemma_scan_row_hits(gs, g1, j + 1, acc2, b);
    }
}

proof fn lemma_scan_pairs_hits(
    gs: Seq<GoldenPoint>,
    i: int,
    acc: (int, Point, Point),
    a: int,
    b: int,
)
    requires
        acc_valid(gs, acc),
        0 <= i <= a < gs.len(),
        0 <= b < gs.len(),
        !gs[a].is_linked,
        !gs[b].is_linked,
        gs[a].x != gs[b].x,
        gs[a].y != gs[b].y,
    ensures
        scan_pairs(gs, i, acc).0 <= manhattan(
            gs[a].x as int,
            gs[a].y as int,
            gs[b].x as int,
            gs[b].y as int,
        ),
    decreases gs.len() - i,
{
    let acc2 = if gs[i].is_linked {
        acc
    } else {
        scan_row(gs, gs[i], 0, acc)
    };
    if !gs[i].is_linked {
        lemma_scan_row_valid(gs, gs[i], 0, acc);
    }
    if i == a {
        lemma_scan_row_hits(gs, gs[a], 0, acc, b);
        lemma_scan_pairs_valid(gs, i + 1, acc2);
    } else {
        lemma_scan_pairs_hits(gs, i + 1, acc2, a, b);
    }
}

/// When some pair of unlinked waypoints differs in both axes, the closest
/// pair never shares a column or a row and never names a linked waypoint.
pub proof fn lemma_closest_pair_valid(gs: Seq<GoldenPoint>)
    requires
        gs.len() >= 2,
        goldens_bounded(gs),
        has_valid_pair(gs),
    ensures
        ({
            let r = closest_pair_spec(gs);
            &&& r.0.x != r.1.x
            &&& r.0.y != r.1.y
            &&& unlinked_at(gs, r.0)
            &&& unlinked_at(gs, r.1)
        }),
{
    let init = (i16::MAX as int, pt_of(gs[0]), pt_of(gs[1]));
    let res = scan_pairs(gs, 0, init);
    let (a, b) = choose|a: int, b: int|
        0 <= a < gs.len() && 0 <= b < gs.len() && !gs[a].is_linked && !gs[b].is_linked
            && gs[a].x != gs[b].x && gs[a].y != gs[b].y;
    lemma_scan_pairs_hits(gs, 0, init, a, b);
    assert(manhattan(gs[a].x as int, gs[a].y as int, gs[b].x as int, gs[b].y as int) <= 2 * (
    MAX_COORD as int));
    lemma_scan_pairs_valid(gs, 0, init);
    assert(res.0 < i16::MAX);
}

// ---------------------------------------------------------------------------
// The nearest golden waypoint to a cell.
// ---------------------------------------------------------------------------

/// The running minimum after holding the cell `(x, y)` against waypoints
/// from index `i` on: an unlinked waypoint sharing no axis with the cell
/// and strictly closer than `best_d` replaces the minimum.
pub open spec fn closer_scan(
    gs: Seq<GoldenPoint>,
    x: int,
    y: int,
    i: int,
    best_d: int,
    best: GoldenPoint,
) -> GoldenPoint
    decreases gs.len() - i,
{
    if !(0 <= i < gs.len()) {
        best
    } else {
        let g = gs[i];
        let d = manhattan(g.x as int, g.y as int, x, y);
        if !g.is_linked && x != g.x && y != g.y && d < best_d {
            closer_scan(gs, x, y, i + 1, d, g)
        } else {
            closer_scan(gs, x, y, i + 1, best_d, best)
        }
    }
}

/// The closest unlinked waypoint to `(x, y)` among those sharing no axis
/// with it, first found winning ties; the first waypoint stands in when no
/// candidate exists.
pub open spec fn closer_golden_spec(gs: Seq<GoldenPoint>, x: int, y: int) -> GoldenPoint
    recommends
        gs.len() >= 1,
{
    closer_scan(gs, x, y, 0, u16::MAX as int, gs[0])
}

/// Find the closest unlinked golden waypoint to the cell `(x, y)` that
/// shares no axis with it.
pub fn get_closer_golden_from_point(game: &Game, x: u16, y: u16) -> (r: &GoldenPoint)
    requires
        game.golden_points@.len() >= 1,
        goldens_bounded(game.golden_points@),
        x <= MAX_COORD,
        y <= MAX_COORD,
    ensures
        *r == closer_golden_spec(game.golden_points@, x as int, y as int),
{
    let gs = &game.golden_points;
    let mut best_idx: usize = 0;
    let mut best_dist: u16 = u16::MAX;
    let ghost fin = closer_golden_spec(gs@, x as int, y as int);
    let mut i: usize = 0;
    while i < gs.len()
        invariant
            gs@ == game.golden_points@,
            goldens_bounded(gs@),
            gs@.len() >= 1,
            x <= MAX_COORD,
            y <= MAX_COORD,
            0 <= i <= gs@.len(),
            0 <= best_idx < gs@.len(),
            fin == closer_scan(
                gs@,
                x as int,
                y as int,
                i as int,
                best_dist as int,
                gs@[best_idx as int],
            ),
        decreases gs@.len() - i,
    {
        let g = &gs[i];
        if !g.is_linked && x != g.x && y != g.y {
            let dist = g.distance(x, y);
            if dist < best_dist {
                best_dist = dist;
                best_idx = i;
            }
        }
        i += 1;
    }
    &gs[best_idx]
}

// ---------------------------------------------------------------------------
// The bonus point between two waypoints.
// ---------------------------------------------------------------------------

proof fn lemma_first_silver_member(
    ss: Seq<crate::model::SilverPoint>,
    x1: int,
    y1: int,
    x2: int,
    y2: int,
    i: int,
)
    requires
        first_silver_from(ss, x1, y1, x2, y2, i) is Some,
    ensures
        ({
            let c = first_silver_from(ss, x1, y1, x2, y2, i).unwrap();
            exists|k: int|
                i <= k < ss.len() && ss[k].x == c.0 && ss[k].y == c.1 && in_rect(
                    ss[k],
                    x1,
                    y1,
                    x2,
                    y2,
                )
        }),
    decreases ss.len() - i,
{
    if 0 <= i < ss.len() && !in_rect(ss[i], x1, y1, x2, y2) {
        lemma_first_silver_member(ss, x1, y1, x2, y2, i + 1);
    }
}

proof fn lemma_rescan_stable_from(
    ss: Seq<crate::model::SilverPoint>,
    x1: int,
    y1: int,
    x2: int,
    y2: int,
    i: int,
)
    requires
        first_silver_from(ss, x1, y1, x2, y2, i) is Some,
    ensures
        ({
            let c = first_silver_from(ss, x1, y1, x2, y2, i).unwrap();
            first_silver_from(ss, x1, y1, c.0 as int, c.1 as int, i) == Some(c)
        }),
    decreases ss.len() - i,
{
    let c = first_silver_from(ss, x1, y1, x2, y2, i).unwrap();
    if in_rect(ss[i], x1, y1, x2, y2) {
        assert(in_rect(ss[i], x1, y1, c.0 as int, c.1 as int));
    } else {
        lemma_rescan_stable_from(ss, x1, y1, x2, y2, i + 1);
        lemma_first_silver_member(ss, x1, y1, x2, y2, i + 1);
        assert(!in_rect(ss[i], x1, y1, c.0 as int, c.1 as int));
    }
}

/// A found bonus point carries the coordinates of a silver point, so it
/// stays within the coordinate bound.
pub proof fn lemma_silver_target_bounded(
    ss: Seq<crate::model::SilverPoint>,
    x1: int,
    y1: int,
    x2: int,
    y2: int,
)
    requires
        crate::model::silvers_bounded(ss),
        first_silver(ss, x1, y1, x2, y2) is Some,
    ensures
        ({
            let c = first_silver(ss, x1, y1, x2, y2).unwrap();
            c.0 <= MAX_COORD && c.1 <= MAX_COORD
        }),
{
    lemma_first_silver_member(ss, x1, y1, x2, y2, 0);
}

/// Re-scanning with the found bonus point as the far corner finds the same
/// point again: the growing-rectangle search stabilizes after one step.
pub proof fn lemma_rescan_stable(
    ss: Seq<crate::model::SilverPoint>,
    x1: int,
    y1: int,
    x2: int,
    y2: int,
)
    requires
        first_silver(ss, x1, y1, x2, y2) is Some,
    ensures
        ({
            let c = first_silver(ss, x1, y1, x2, y2).unwrap();
            first_silver(ss, x1, y1, c.0 as int, c.1 as int) == Some(c)
        }),
{
    lemma_rescan_stable_from(ss, x1, y1, x2, y2, 0);
}

/// The bonus point to detour through between `p1` and `p2`: scan the
/// rectangle anchored at `p1` and stretched toward `p2`, then re-scan with
/// each found point as the new far corner until the found point repeats,
/// and return the last point found.
pub fn bonus_target_between(game: &Game, p1: &Point, p2: &Point) -> (r: Option<Point>)
    ensures
        match r {
            None => first_silver(
                game.silver_points@,
                p1.x as int,
                p1.y as int,
                p2.x as int,
                p2.y as int,
            ) is None,
            Some(p) => first_silver(
                game.silver_points@,
                p1.x as int,
                p1.y as int,
                p2.x as int,
                p2.y as int,
            ) == Some((p.x, p.y)),
        },
{
    let first = crate::engine::does_rect_contains_silver(game, p1.x, p1.y, p2.x, p2.y);
    match first {
        None => None,
        Some((sx, sy)) => {
            let mut x = sx;
            let mut y = sy;
            loop
                invariant_except_break
                    first_silver(
                        game.silver_points@,
                        p1.x as int,
                        p1.y as int,
                        p2.x as int,
                        p2.y as int,
                    ) == Some((x, y)),
                ensures
                    first_silver(
                        game.silver_points@,
                        p1.x as int,
                        p1.y as int,
                        p2.x as int,
                        p2.y as int,
                    ) == Some((x, y)),
                decreases 0int,
            {
                proof {
                    lemma_rescan_stable(
                        game.silver_points@,
                        p1.x as int,
                        p1.y as int,
                        p2.x as int,
                        p2.y as int,
                    );
                }
                let again = crate::engine::does_rect_contains_silver(game, p1.x, p1.y, x, y);
                // The re-scan provably returns the point found before
                // (lemma above), so the loop always settles here; the
                // remaining arms are proven unreachable.
                match again {
                    Some((nx, ny)) => {
                        if nx == x && ny == y {
                            break;
                        }
                        proof {
                            assert(false);
                        }
                        x = nx;
                        y = ny;
                    },
                    None => {
                        proof {
                            assert(false);
                        }
                        break;
                    },
                }
            }
            Some(Point { x, y })
        },
    }
}

} // verus!
