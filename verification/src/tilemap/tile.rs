//! Tile-level types: the projection of a map, tile flipping, how a tile is
//! spawned, and the layer edit asked of a tile.
use vstd::prelude::*;
use bevy::ecs::entity::Entity;
use bevy::ecs::system::Commands;
use crate::ecs::queued_despawns;
use crate::math::UVec2;
use crate::tilemap::map::Tilemap;

verus! {

/// How the cells of a map are laid out on screen.
#[derive(Clone, Copy, Debug, PartialEq, Eq, Structural)]
pub enum TileType {
    Square,
    IsometricDiamond,
}

/// Which texture axes of the tiles are mirrored.
#[derive(Clone, Copy, Debug, PartialEq, Eq, Structural)]
pub enum TileFlip {
    Horizontal,
    Vertical,
    Both,
}

/// The flag bits of a flip: bit 0 mirrors horizontally, bit 1 vertically.
pub open spec fn flip_bits(flip: TileFlip) -> u32 {
    match flip {
        TileFlip::Horizontal => 1u32,
        TileFlip::Vertical => 2u32,
        TileFlip::Both => 3u32,
    }
}

impl TileFlip {
    /// The flag bits of this flip.
    pub fn bits(&self) -> (b: u32)
        ensures
            b == flip_bits(*self),
    {
        match self {
            TileFlip::Horizontal => 1,
            TileFlip::Vertical => 2,
            TileFlip::Both => 3,
        }
    }
}

/// Spawns the entity of one tile. The tile map calls it each time it places
/// a tile, with the cell and the map the tile belongs to.
pub trait BuildTile {
    /// `tile` is an entity that `build` hands out for cell `index`.
    spec fn spawned(&self, index: UVec2, tile: Entity) -> bool;

    /// Spawns the tile for cell `index`; building a tile queues no despawn.
    fn build(&self, commands: &mut Commands, index: UVec2, tilemap: &Tilemap) -> (tile: Entity)
        ensures
            self.spawned(index, tile),
            queued_despawns(*final(commands)) == queued_despawns(*old(commands)),
    ;
}

/// A layer edit to be applied to a tile entity: set layer `target` to
/// texture `value`, or remove that layer where `is_remove` holds.
#[derive(Clone, Copy, Debug)]
pub struct TileLayerUpdate {
    pub tile: Entity,
    pub target: usize,
    pub value: u32,
    pub is_remove: bool,
}

/// The layer edit that a texture index asks for: `None` removes the layer,
/// `Some(i)` sets it to texture `i`.
pub open spec fn layer_update_of(tile: Entity, layer: usize, texture_index: Option<u32>) -> TileLayerUpdate {
    TileLayerUpdate {
        tile,
        target: layer,
        value: match texture_index {
            Some(i) => i,
            None => 0u32,
        },
        is_remove: texture_index is None,
    }
}

/// The edit for a texture index removes the layer exactly when no index is
/// given; a given index, zero included, sets the layer to that very texture.
/// The edit always targets the given tile and layer.
pub proof fn law_layer_edit_follows_texture_index(tile: Entity, layer: usize, texture_index: Option<u32>)
    ensures
        layer_update_of(tile, layer, texture_index).is_remove <==> texture_index is None,
        forall|i: u32|
            texture_index == Some(i) ==> !layer_update_of(tile, layer, texture_index).is_remove
                && layer_update_of(tile, layer, texture_index).value == i,
        layer_update_of(tile, layer, texture_index).tile == tile,
        layer_update_of(tile, layer, texture_index).target == layer,
{
}

} // verus!
