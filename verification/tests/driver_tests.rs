use pathlink::{Game, GoldenPoint, Path, PathType, PlacedPath, SilverPoint};

#[test]
fn linking_pass_connects_the_closest_pair_and_marks_it() {
    let mut game = Game {
        w: 10,
        h: 10,
        golden_points: vec![
            GoldenPoint { x: 0, y: 0, is_linked: false },
            GoldenPoint { x: 4, y: 2, is_linked: false },
        ],
        silver_points: vec![],
        paths: vec![
            Path { id: PathType::Z3, cost: 1, available: 10 },
            Path { id: PathType::F, cost: 4, available: 10 },
        ],
        placed_paths: vec![],
    };
    pathlink::find_optimal_paths(&mut game);
    // Both waypoints of the linked pair are marked.
    assert!(game.golden_points[0].is_linked);
    assert!(game.golden_points[1].is_linked);
    // Consumed stock equals the number of placed tiles.
    let consumed: u32 = 20 - game.paths.iter().map(|p| p.available as u32).sum::<u32>();
    assert_eq!(consumed, game.placed_paths.len() as u32);
}

#[test]
fn linking_pass_detours_to_a_bonus_point() {
    let mut game = Game {
        w: 10,
        h: 10,
        golden_points: vec![
            GoldenPoint { x: 0, y: 0, is_linked: false },
            GoldenPoint { x: 4, y: 2, is_linked: false },
        ],
        silver_points: vec![SilverPoint { x: 2, y: 0, points: 3, linked: false }],
        paths: vec![Path { id: PathType::Z3, cost: 1, available: 10 }],
        placed_paths: vec![],
    };
    pathlink::find_optimal_paths(&mut game);
    // The chain ran toward the bonus point at (2, 0): one straight tile at
    // (1, 0) makes the chain adjacent to it.
    assert_eq!(
        game.placed_paths,
        vec![PlacedPath { id: PathType::Z3, x: 1, y: 0 }]
    );
    // Only the source waypoint is marked: the bonus point redirected the
    // chain away from the second waypoint.
    assert!(game.golden_points[0].is_linked);
    assert!(!game.golden_points[1].is_linked);
}

#[test]
fn straight_board_end_to_end() {
    let mut game = Game {
        w: 10,
        h: 10,
        golden_points: vec![
            GoldenPoint { x: 0, y: 1, is_linked: false },
            GoldenPoint { x: 4, y: 0, is_linked: false },
        ],
        silver_points: vec![],
        paths: vec![Path { id: PathType::F, cost: 2, available: 10 }],
        placed_paths: vec![],
    };
    pathlink::find_optimal_paths(&mut game);
    // Whatever chain was laid, the inventory dropped by its length.
    let consumed = 10 - game.paths[0].available as usize;
    assert_eq!(consumed, game.placed_paths.len());
    assert!(game.placed_paths.len() <= 100);
}
