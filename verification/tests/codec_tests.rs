use pathlink::{parse_output, serialize_placed, PathType, PlacedPath};

fn all_types() -> Vec<PathType> {
    vec![
        PathType::Z3,
        PathType::Z5,
        PathType::Z6,
        PathType::Z7,
        PathType::Z9,
        PathType::Z96,
        PathType::A,
        PathType::A5,
        PathType::B,
        PathType::C,
        PathType::C3,
        PathType::D,
        PathType::E,
        PathType::F,
    ]
}

#[test]
fn serializes_one_line_per_placement() {
    let placed = vec![
        PlacedPath { id: PathType::Z3, x: 1, y: 0 },
        PlacedPath { id: PathType::Z96, x: 12, y: 345 },
    ];
    let bytes = serialize_placed(&placed);
    assert_eq!(String::from_utf8(bytes).unwrap(), "3 1 0\n96 12 345\n");
}

#[test]
fn round_trip_reconstructs_the_same_triples() {
    let placed = vec![
        PlacedPath { id: PathType::A5, x: 0, y: 65535 },
        PlacedPath { id: PathType::F, x: 7, y: 7 },
        PlacedPath { id: PathType::C3, x: 100, y: 3 },
    ];
    let bytes = serialize_placed(&placed);
    let back = parse_output(&bytes).expect("serialized output parses");
    assert_eq!(back, placed);
}

#[test]
fn round_trip_covers_every_tile_code() {
    for (i, t) in all_types().into_iter().enumerate() {
        let placed = vec![PlacedPath { id: t, x: i as u16, y: 2 * i as u16 }];
        let bytes = serialize_placed(&placed);
        let back = parse_output(&bytes).expect("serialized output parses");
        assert_eq!(back, placed);
    }
}

#[test]
fn empty_placement_list_round_trips() {
    let placed: Vec<PlacedPath> = vec![];
    let bytes = serialize_placed(&placed);
    assert!(bytes.is_empty());
    assert_eq!(parse_output(&bytes), Some(vec![]));
}

#[test]
fn malformed_output_is_rejected() {
    assert_eq!(parse_output(&b"3 1".to_vec()), None);
    assert_eq!(parse_output(&b"3 1 0".to_vec()), None);
    assert_eq!(parse_output(&b"X 1 0\n".to_vec()), None);
    assert_eq!(parse_output(&b"3 1 99999\n".to_vec()), None);
    assert_eq!(parse_output(&b"3 one 0\n".to_vec()), None);
}
