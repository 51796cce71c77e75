use pathlink::{Game, GoldenPoint, Path, PathType, PlacedPath, Point};

fn board(paths: Vec<Path>) -> Game {
    Game {
        w: 10,
        h: 10,
        golden_points: vec![
            GoldenPoint { x: 0, y: 0, is_linked: false },
            GoldenPoint { x: 4, y: 0, is_linked: false },
        ],
        silver_points: vec![],
        paths,
        placed_paths: vec![],
    }
}

#[test]
fn straight_chain_places_three_tiles_and_stops_adjacent() {
    let mut game = board(vec![Path { id: PathType::Z3, cost: 1, available: 10 }]);
    let placed = pathlink::link_golden_points(
        &mut game,
        &Point { x: 0, y: 0 },
        &Point { x: 4, y: 0 },
    );
    assert_eq!(
        placed,
        vec![
            PlacedPath { id: PathType::Z3, x: 1, y: 0 },
            PlacedPath { id: PathType::Z3, x: 2, y: 0 },
            PlacedPath { id: PathType::Z3, x: 3, y: 0 },
        ]
    );
    // The fourth unit was not consumed: adjacency ended the chain.
    assert_eq!(game.paths[0].available, 7);
}

#[test]
fn exhausted_stock_truncates_the_chain() {
    let mut game = board(vec![Path { id: PathType::Z3, cost: 1, available: 2 }]);
    let placed = pathlink::link_golden_points(
        &mut game,
        &Point { x: 0, y: 0 },
        &Point { x: 4, y: 0 },
    );
    assert_eq!(placed.len(), 2);
    assert_eq!(placed[0], PlacedPath { id: PathType::Z3, x: 1, y: 0 });
    assert_eq!(placed[1], PlacedPath { id: PathType::Z3, x: 2, y: 0 });
    assert_eq!(game.paths[0].available, 0);
}

#[test]
fn consumed_units_equal_placed_tiles() {
    let mut game = board(vec![
        Path { id: PathType::Z3, cost: 1, available: 10 },
        Path { id: PathType::F, cost: 5, available: 10 },
    ]);
    let before: u32 = game.paths.iter().map(|p| p.available as u32).sum();
    let placed = pathlink::link_golden_points(
        &mut game,
        &Point { x: 0, y: 0 },
        &Point { x: 4, y: 0 },
    );
    let after: u32 = game.paths.iter().map(|p| p.available as u32).sum();
    assert_eq!(before - after, placed.len() as u32);
}

#[test]
fn empty_inventory_places_nothing() {
    let mut game = board(vec![]);
    let placed = pathlink::link_golden_points(
        &mut game,
        &Point { x: 0, y: 0 },
        &Point { x: 4, y: 0 },
    );
    assert!(placed.is_empty());
}

#[test]
fn adjacent_waypoints_need_no_tile() {
    let mut game = board(vec![Path { id: PathType::Z3, cost: 1, available: 10 }]);
    let placed = pathlink::link_golden_points(
        &mut game,
        &Point { x: 0, y: 0 },
        &Point { x: 1, y: 0 },
    );
    assert!(placed.is_empty());
    assert_eq!(game.paths[0].available, 10);
}

#[test]
fn adjacency_test_requires_matching_open_direction() {
    assert!(pathlink::is_path_linked_to_golden(
        1,
        0,
        &vec![pathlink::Direction::Right]
    ));
    assert!(!pathlink::is_path_linked_to_golden(
        1,
        0,
        &vec![pathlink::Direction::Left]
    ));
    assert!(pathlink::is_path_linked_to_golden(
        0,
        -1,
        &vec![pathlink::Direction::Up]
    ));
    assert!(!pathlink::is_path_linked_to_golden(0, 0, &vec![
        pathlink::Direction::Up,
        pathlink::Direction::Right,
    ]));
}
