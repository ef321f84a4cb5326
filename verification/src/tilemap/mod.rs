//! The tile map, its builder, and the tile-level types it stores.
pub mod map;
pub mod tile;
