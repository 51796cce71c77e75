use pathlink::{Game, GoldenPoint, Point, SilverPoint};

fn board(goldens: Vec<GoldenPoint>, silvers: Vec<SilverPoint>) -> Game {
    Game {
        w: 20,
        h: 20,
        golden_points: goldens,
        silver_points: silvers,
        paths: vec![],
        placed_paths: vec![],
    }
}

fn golden(x: u16, y: u16) -> GoldenPoint {
    GoldenPoint { x, y, is_linked: false }
}

fn silver(x: u16, y: u16) -> SilverPoint {
    SilverPoint { x, y, points: 1, linked: false }
}

#[test]
fn closest_pair_prefers_smallest_distance() {
    let game = board(vec![golden(0, 0), golden(9, 8), golden(2, 1)], vec![]);
    let (p1, p2) = pathlink::get_closer_goldens(&game);
    assert_eq!((p1.x, p1.y), (0, 0));
    assert_eq!((p2.x, p2.y), (2, 1));
}

#[test]
fn closest_pair_is_normalized_by_column() {
    let game = board(vec![golden(9, 8), golden(2, 1), golden(8, 9)], vec![]);
    let (p1, p2) = pathlink::get_closer_goldens(&game);
    // The winning pair is (9,8)-(8,9); the smaller column comes first.
    assert_eq!((p1.x, p1.y), (8, 9));
    assert_eq!((p2.x, p2.y), (9, 8));
}

#[test]
fn closest_pair_skips_linked_points() {
    let game = board(
        vec![
            golden(0, 0),
            GoldenPoint { x: 2, y: 1, is_linked: true },
            golden(5, 6),
        ],
        vec![],
    );
    let (p1, p2) = pathlink::get_closer_goldens(&game);
    assert!(!((p1.x, p1.y) == (2, 1)) && !((p2.x, p2.y) == (2, 1)));
    assert_eq!((p1.x, p1.y), (0, 0));
    assert_eq!((p2.x, p2.y), (5, 6));
}

#[test]
fn closest_pair_excludes_shared_axes() {
    // (0,0)-(0,3) share a column and (0,0)-(4,0) share a row; only the
    // distant diagonal pair is admissible.
    let game = board(vec![golden(0, 0), golden(0, 3), golden(4, 0), golden(9, 9)], vec![]);
    let (p1, p2) = pathlink::get_closer_goldens(&game);
    assert_ne!(p1.x, p2.x);
    assert_ne!(p1.y, p2.y);
}

#[test]
fn closer_golden_from_point_finds_nearest_unlinked() {
    let game = board(vec![golden(0, 0), golden(3, 4), golden(8, 8)], vec![]);
    let g = pathlink::get_closer_golden_from_point(&game, 2, 2);
    assert_eq!((g.x, g.y), (3, 4));
}

#[test]
fn bonus_point_between_diagonal_waypoints() {
    let game = board(vec![golden(0, 0), golden(5, 5)], vec![silver(2, 2)]);
    let r = pathlink::bonus_target_between(
        &game,
        &Point { x: 0, y: 0 },
        &Point { x: 5, y: 5 },
    );
    let p = r.expect("the bonus point lies inside the rectangle");
    assert_eq!((p.x, p.y), (2, 2));
}

#[test]
fn no_bonus_point_in_range_gives_none() {
    let game = board(vec![golden(0, 0), golden(5, 5)], vec![silver(9, 9)]);
    let r = pathlink::bonus_target_between(
        &game,
        &Point { x: 0, y: 0 },
        &Point { x: 5, y: 5 },
    );
    assert!(r.is_none());
    let empty = board(vec![golden(0, 0), golden(5, 5)], vec![]);
    let r = pathlink::bonus_target_between(
        &empty,
        &Point { x: 0, y: 0 },
        &Point { x: 5, y: 5 },
    );
    assert!(r.is_none());
}

#[test]
fn rectangle_is_anchored_at_the_first_corner() {
    // The far corner is raised to the anchor, never the anchor lowered:
    // from (5,5) toward (0,0) the rectangle collapses to the single cell
    // (5,5), so the silver point at (2,2) is out of range.
    let game = board(vec![golden(0, 0), golden(5, 5)], vec![silver(2, 2)]);
    assert!(pathlink::does_rect_contains_silver(&game, 5, 5, 0, 0).is_none());
    assert_eq!(
        pathlink::does_rect_contains_silver(&game, 0, 0, 5, 5),
        Some((2, 2))
    );
}

#[test]
fn first_silver_in_list_order_wins() {
    let game = board(
        vec![golden(0, 0), golden(5, 5)],
        vec![silver(4, 4), silver(1, 1)],
    );
    assert_eq!(
        pathlink::does_rect_contains_silver(&game, 0, 0, 5, 5),
        Some((4, 4))
    );
}
