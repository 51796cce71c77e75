use pathlink::{Direction, Game, Path, PathType};

fn game_with_paths(paths: Vec<Path>) -> Game {
    Game {
        w: 10,
        h: 10,
        golden_points: vec![],
        silver_points: vec![],
        paths,
        placed_paths: vec![],
    }
}

#[test]
fn selector_never_returns_exhausted_tile() {
    // The cheap straight tile is out of stock; the costly one must win.
    let game = game_with_paths(vec![
        Path { id: PathType::Z3, cost: 1, available: 0 },
        Path { id: PathType::C3, cost: 9, available: 5 },
    ]);
    let r = pathlink::get_cheaper_path_to_move_with_out(
        &game,
        vec![Direction::Right],
        4,
        0,
        false,
    );
    let (id, _, _, cost) = r.expect("a stocked tile matches");
    assert_eq!(id, PathType::C3);
    assert_eq!(cost, 9);
}

#[test]
fn selector_picks_cheapest() {
    let game = game_with_paths(vec![
        Path { id: PathType::C3, cost: 9, available: 5 },
        Path { id: PathType::Z3, cost: 1, available: 5 },
    ]);
    let r = pathlink::get_cheaper_path_to_move_with_out(
        &game,
        vec![Direction::Right],
        4,
        0,
        false,
    );
    let (id, _, _, cost) = r.expect("a tile matches");
    assert_eq!(id, PathType::Z3);
    assert_eq!(cost, 1);
}

#[test]
fn selector_keeps_first_on_cost_tie() {
    let game = game_with_paths(vec![
        Path { id: PathType::C3, cost: 3, available: 5 },
        Path { id: PathType::Z3, cost: 3, available: 5 },
    ]);
    let r = pathlink::get_cheaper_path_to_move_with_out(
        &game,
        vec![Direction::Right],
        4,
        0,
        false,
    );
    let (id, _, _, _) = r.expect("a tile matches");
    assert_eq!(id, PathType::C3);
}

#[test]
fn selector_returns_entry_direction_and_orientation() {
    let game = game_with_paths(vec![Path { id: PathType::Z3, cost: 1, available: 1 }]);
    let r = pathlink::get_cheaper_path_to_move_with_out(
        &game,
        vec![Direction::Right],
        4,
        0,
        false,
    );
    let (_, orientation, entry, _) = r.expect("a tile matches");
    // The entry is the inversion of the open direction.
    assert_eq!(entry, Direction::Left);
    assert_eq!(orientation, vec![Direction::Left, Direction::Right]);
}

#[test]
fn selector_needs_two_matching_openings() {
    // A vertical-only tile cannot serve a purely horizontal move.
    let game = game_with_paths(vec![Path { id: PathType::C, cost: 1, available: 5 }]);
    let r = pathlink::get_cheaper_path_to_move_with_out(
        &game,
        vec![Direction::Right],
        4,
        0,
        false,
    );
    assert!(r.is_none());
}

#[test]
fn relaxed_mode_allows_lateral_moves() {
    // Open direction Up with delta (0, 0): the strict wanted list is the
    // entry [Down] alone, too short to match anything.  The relaxed pass
    // adds both horizontal directions, but the straight Left-Right tile
    // lacks the Down entry, so still nothing matches.
    let game = game_with_paths(vec![Path { id: PathType::Z3, cost: 1, available: 5 }]);
    let r = pathlink::get_cheaper_path_to_move_with_out(
        &game,
        vec![Direction::Up],
        0,
        0,
        false,
    );
    assert!(r.is_none());
    // With the all-way cross in stock, the relaxed pass finds it.
    let game = game_with_paths(vec![Path { id: PathType::F, cost: 2, available: 5 }]);
    let r = pathlink::get_cheaper_path_to_move_with_out(
        &game,
        vec![Direction::Up],
        0,
        0,
        false,
    );
    let (id, _, entry, _) = r.expect("relaxed pass matches the cross");
    assert_eq!(id, PathType::F);
    assert_eq!(entry, Direction::Down);
}

#[test]
fn top_cost_sentinel_is_never_selected() {
    // A tile costing the maximum never beats the sentinel the scan starts
    // from, so it is never chosen.
    let game = game_with_paths(vec![Path { id: PathType::Z3, cost: 255, available: 5 }]);
    let r = pathlink::get_cheaper_path_to_move_with_out(
        &game,
        vec![Direction::Right],
        4,
        0,
        false,
    );
    assert!(r.is_none());
}
