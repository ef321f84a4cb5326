//! Tile maps for the bevy game engine: a grid of tile entities with
//! verified indexing, placement, removal and area operations, and the
//! integer geometry behind LDtk level placement.
pub mod ecs;
pub mod math;
pub mod tilemap;
pub mod serializing;
