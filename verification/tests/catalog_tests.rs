use pathlink::{Direction, PathType};

fn all_types() -> Vec<PathType> {
    vec![
        PathType::Z3,
        PathType::Z5,
        PathType::Z6,
        PathType::Z7,
        PathType::Z9,
        PathType::Z96,
        PathType::A,
        PathType::A5,
        PathType::B,
        PathType::C,
        PathType::C3,
        PathType::D,
        PathType::E,
        PathType::F,
    ]
}

#[test]
fn every_orientation_has_two_to_four_distinct_directions() {
    for t in all_types() {
        let conns = t.get_connections();
        assert!(!conns.is_empty());
        for orient in &conns {
            assert!(orient.len() >= 2 && orient.len() <= 4);
            for i in 0..orient.len() {
                for j in (i + 1)..orient.len() {
                    assert_ne!(orient[i], orient[j]);
                }
            }
        }
    }
}

#[test]
fn straight_tile_connects_left_and_right() {
    let conns = PathType::Z3.get_connections();
    assert_eq!(conns, vec![vec![Direction::Left, Direction::Right]]);
}

#[test]
fn two_orientation_tiles_offer_both_rotations() {
    let conns = PathType::Z96.get_connections();
    assert_eq!(
        conns,
        vec![
            vec![Direction::Down, Direction::Left],
            vec![Direction::Up, Direction::Right],
        ]
    );
    let conns = PathType::C3.get_connections();
    assert_eq!(
        conns,
        vec![
            vec![Direction::Down, Direction::Up],
            vec![Direction::Left, Direction::Right],
        ]
    );
}

#[test]
fn cross_tile_connects_all_four() {
    let conns = PathType::F.get_connections();
    assert_eq!(conns.len(), 1);
    assert_eq!(conns[0].len(), 4);
}
