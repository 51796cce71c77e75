use pathlink::Direction;

#[test]
fn invert_swaps_vertical() {
    assert_eq!(Direction::Up.invert(), Direction::Down);
    assert_eq!(Direction::Down.invert(), Direction::Up);
}

#[test]
fn invert_swaps_horizontal() {
    assert_eq!(Direction::Left.invert(), Direction::Right);
    assert_eq!(Direction::Right.invert(), Direction::Left);
}

#[test]
fn invert_twice_is_identity() {
    for d in [Direction::Up, Direction::Right, Direction::Down, Direction::Left] {
        assert_eq!(d.invert().invert(), d);
    }
}

#[test]
fn move_x_changes_only_horizontal() {
    assert_eq!(Direction::Right.move_x(3), 4);
    assert_eq!(Direction::Left.move_x(3), 2);
    assert_eq!(Direction::Up.move_x(3), 3);
    assert_eq!(Direction::Down.move_x(3), 3);
}

#[test]
fn move_y_changes_only_vertical() {
    assert_eq!(Direction::Down.move_y(7), 8);
    assert_eq!(Direction::Up.move_y(7), 6);
    assert_eq!(Direction::Left.move_y(7), 7);
    assert_eq!(Direction::Right.move_y(7), 7);
}
