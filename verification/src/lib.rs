//! A greedy path-linking engine for a grid-based connector-tile puzzle.
//!
//! A board holds golden waypoints, silver bonus points and a finite
//! inventory of directional connector tiles.  The engine picks the closest
//! pair of unlinked golden waypoints, optionally detours through a silver
//! point lying between them, and lays a chain of compatible, lowest-cost
//! tiles from the source cell toward the target cell, decrementing the
//! inventory as it goes.

pub mod catalog;
pub mod codec;
pub mod direction;
pub mod engine;
pub mod model;
pub mod waypoint;

pub use catalog::PathType;
pub use codec::{parse_output, serialize_placed};
pub use direction::Direction;
pub use engine::{
    does_rect_contains_silver, find_optimal_paths, get_cheaper_path_to_move,
    get_cheaper_path_to_move_with_out, is_path_linked_to_golden, link_golden_points,
};
pub use model::{Game, GoldenPoint, Path, PlacedPath, Point, SilverPoint};
pub use waypoint::{bonus_target_between, get_closer_golden_from_point, get_closer_goldens};
