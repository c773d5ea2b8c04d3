//! Binary space partitioning dungeon generator.
//!
//! A rectangle is split recursively, with alternating orientation, down to a
//! fixed depth; each leaf partition receives a room with one door, and each
//! split receives a corridor that joins the doors of its two halves. The
//! result is a sequence of draw calls; randomness comes from an explicit,
//! seedable source, so equal seeds give equal layouts.
pub mod draw;
pub mod generate;
pub mod geometry;
pub mod layout;
pub mod random;

pub use draw::{Cell, Corridor, Glyph};
pub use generate::{
    door_wall, generate, generate_dungeon, merge_doors, pick_orientation, pick_room, pick_split, place_door, Wall,
};
pub use geometry::{can_generate, children, Point, Pos, Rect, Split, MAX_DEPTH};
pub use layout::Dungeon;
