//! The tile map: a grid of optional tile entities stored row by row.
use vstd::prelude::*;
use bevy::ecs::entity::Entity;
use bevy::ecs::system::Commands;
use crate::ecs::{despawn, queued_despawns, spawn_empty};
use crate::math::{
    cell_count, in_grid, grid_point, lemma_linear_index_bounds, lemma_linear_index_injective,
    lemma_linear_index_of_grid_point, lemma_area_cell, lemma_next_row, linear_index, FillArea,
    IVec2, UVec2,
};
use crate::tilemap::tile::{flip_bits, layer_update_of, BuildTile, TileFlip, TileLayerUpdate, TileType};

verus! {

/// The settings of a tile map still to be built.
pub struct TilemapBuilder {
    pub name: String,
    pub tile_type: TileType,
    pub size: UVec2,
    pub render_chunk_size: u32,
    pub z_order: i32,
    pub flip: u32,
}

impl TilemapBuilder {
    /// Create a new tilemap builder.
    pub fn new(ty: TileType, size: UVec2, name: String) -> (r: Self)
        ensures
            r.name == name,
            r.tile_type == ty,
            r.size == size,
            r.render_chunk_size == 32,
            r.z_order == 10,
            r.flip == 0,
    {
        TilemapBuilder { name, tile_type: ty, size, render_chunk_size: 32, z_order: 10, flip: 0 }
    }

    /// Override z order. Default is 10.
    /// The higher the value of z_order, the less likely to be covered.
    pub fn with_z_order(&mut self, z_order: i32) -> (r: &mut Self)
        ensures
            *r == (TilemapBuilder { z_order, ..*old(self) }),
            *final(self) == *final(r),
    {
        self.z_order = z_order;
        self
    }

    /// Override render chunk size. Default is 32.
    pub fn with_render_chunk_size(&mut self, size: u32) -> (r: &mut Self)
        ensures
            *r == (TilemapBuilder { render_chunk_size: size, ..*old(self) }),
            *final(self) == *final(r),
    {
        self.render_chunk_size = size;
        self
    }

    /// Flip the uv of tiles. Use `TileFlip::Both` to flip both axes.
    pub fn with_flip(&mut self, flip: TileFlip) -> (r: &mut Self)
        ensures
            *r == (TilemapBuilder { flip: old(self).flip | flip_bits(flip), ..*old(self) }),
            *final(self) == *final(r),
    {
        self.flip = self.flip | flip.bits();
        self
    }

    /// Build the tilemap: reserves its entity and lays out an empty grid of
    /// `size.x * size.y` cells. The caller inserts the map into the world.
    pub fn build(&self, commands: &mut Commands) -> (r: (Entity, Tilemap))
        requires
            cell_count(self.size) <= u32::MAX,
        ensures
            r.1.id == r.0,
            r.1.name == self.name,
            r.1.tile_type == self.tile_type,
            r.1.size == self.size,
            r.1.render_chunk_size == self.render_chunk_size,
            r.1.flip == self.flip,
            r.1.z_order == self.z_order,
            r.1.wf(),
            forall|p: UVec2| #[trigger] r.1.tile_at(p) is None,
            queued_despawns(*final(commands)) == queued_despawns(*old(commands)),
    {
        let id = spawn_empty(commands);
        let n = (self.size.x * self.size.y) as usize;
        let mut tiles: Vec<Option<Entity>> = Vec::new();
        let mut i: usize = 0;
        while i < n
            invariant
                i <= n,
                tiles@.len() == i,
                forall|j: int| 0 <= j < i ==> (#[trigger] tiles@[j]) is None,
            decreases n - i,
        {
            tiles.push(None);
            i += 1;
        }
        let tilemap = Tilemap {
            id,
            name: self.name.clone(),
            tile_type: self.tile_type,
            size: self.size,
            render_chunk_size: self.render_chunk_size,
            tiles,
            flip: self.flip,
            z_order: self.z_order,
        };
        proof {
            assert forall|p: UVec2| #[trigger] tilemap.tile_at(p) is None by {
                if in_grid(tilemap.size, p) {
                    lemma_linear_index_bounds(tilemap.size, p);
                }
            }
        }
        (id, tilemap)
    }
}

/// A rectangular pattern of optional tiles of type `T`, stored row by row.
pub struct TilemapPattern<T> {
    pub size: UVec2,
    pub tiles: Vec<Option<T>>,
}

impl<T> TilemapPattern<T> {
    /// The tile stored for cell `index`, read at its row-major number.
    pub fn get(&self, index: UVec2) -> (r: Option<&T>)
        requires
            index.y * self.size.x + index.x <= u32::MAX,
            linear_index(self.size.x, index) < self.tiles@.len(),
        ensures
            r is Some <==> self.tiles@[linear_index(self.size.x, index)] is Some,
            r is Some ==> self.tiles@[linear_index(self.size.x, index)] == Some(*r->0),
    {
        self.tiles[(index.y * self.size.x + index.x) as usize].as_ref()
    }
}

/// A grid of `size.x` by `size.y` cells, each empty or holding a tile
/// entity; cell `(x, y)` is stored at `y * size.x + x` in `tiles`.
pub struct Tilemap {
    pub id: Entity,
    pub name: String,
    pub tile_type: TileType,
    pub size: UVec2,
    pub render_chunk_size: u32,
    pub tiles: Vec<Option<Entity>>,
    pub flip: u32,
    pub z_order: i32,
}

/// The tiles among `slots`, in order, skipping the empty slots.
pub open spec fn tiles_of(slots: Seq<Option<Entity>>) -> Seq<Entity>
    decreases slots.len(),
{
    if slots.len() == 0 {
        Seq::empty()
    } else {
        tiles_of(slots.drop_last()) + match slots.last() {
            Some(e) => seq![e],
            None => Seq::empty(),
        }
    }
}

/// The tiles of one slot: the tile it holds, if any.
pub proof fn lemma_tiles_of_single(slot: Option<Entity>)
    ensures
        tiles_of(seq![slot]) == match slot {
            Some(e) => seq![e],
            None => Seq::<Entity>::empty(),
        },
{
    assert(seq![slot].drop_last() =~= Seq::<Option<Entity>>::empty());
    assert(tiles_of(Seq::<Option<Entity>>::empty()) =~= Seq::<Entity>::empty());
    match slot {
        Some(e) => {
            assert(Seq::<Entity>::empty() + seq![e] =~= seq![e]);
        },
        None => {
            assert(Seq::<Entity>::empty() + Seq::<Entity>::empty() =~= Seq::<Entity>::empty());
        },
    }
}

/// Taking one more slot adds that slot's tile, if any.
pub proof fn lemma_tiles_of_take(slots: Seq<Option<Entity>>, k: int)
    requires
        0 <= k < slots.len(),
    ensures
        tiles_of(slots.take(k + 1)) == tiles_of(slots.take(k)) + tiles_of(seq![slots[k]]),
{
    assert(slots.take(k + 1).drop_last() =~= slots.take(k));
    lemma_tiles_of_single(slots[k]);
}

/// `slot` holds what `builder` asks for at cell `p`: a tile the builder
/// spawned for `p`, or nothing where there is no builder.
pub open spec fn slot_built_from<B: BuildTile>(slot: Option<Entity>, builder: Option<B>, p: UVec2) -> bool {
    match builder {
        Some(b) => exists|e: Entity| b.spawned(p, e) && slot == Some(e),
        None => slot is None,
    }
}

impl Tilemap {
    /// The map holds one slot per cell, and the cell count fits in a `u32`.
    pub open spec fn wf(&self) -> bool {
        &&& cell_count(self.size) <= u32::MAX
        &&& self.tiles@.len() == cell_count(self.size)
    }

    /// The tile at cell `index`; `None` outside the grid or on an empty cell.
    pub open spec fn tile_at(&self, index: UVec2) -> Option<Entity> {
        if in_grid(self.size, index) {
            self.tiles@[linear_index(self.size.x, index)]
        } else {
            None
        }
    }

    /// Cell `p` holds a tile that `builder` spawned for it.
    pub open spec fn holds_tile_from<B: BuildTile>(&self, builder: &B, p: UVec2) -> bool {
        exists|e: Entity| builder.spawned(p, e) && self.tile_at(p) == Some(e)
    }

    /// Cell `p` of `area` holds a tile spawned by a builder that `f` may give
    /// for the cell (named relative to the area origin where `relative`
    /// holds).
    pub open spec fn holds_tile_made_by<B: BuildTile, F: Fn(UVec2) -> B>(
        &self,
        f: &F,
        area: FillArea,
        relative: bool,
        p: UVec2,
    ) -> bool {
        exists|b: B| f.ensures((area.index_for(p, relative),), b) && self.holds_tile_from(&b, p)
    }

    /// The slots of the cells of `area`, row by row from its origin.
    pub open spec fn area_slots(&self, area: FillArea) -> Seq<Option<Entity>> {
        Seq::new(area.cell_count() as nat, |k: int| self.tile_at(area.cell(k)))
    }

    /// Everything but the tiles is the same in both maps.
    pub open spec fn same_settings(&self, other: &Tilemap) -> bool {
        &&& self.id == other.id
        &&& self.name == other.name
        &&& self.tile_type == other.tile_type
        &&& self.size == other.size
        &&& self.render_chunk_size == other.render_chunk_size
        &&& self.flip == other.flip
        &&& self.z_order == other.z_order
    }

    /// Get a tile.
    pub fn get(&self, index: UVec2) -> (r: Option<Entity>)
        requires
            self.wf(),
        ensures
            r == self.tile_at(index),
    {
        if self.is_out_of_tilemap_uvec(index) {
            return None;
        }
        self.get_unchecked(index)
    }

    pub(crate) fn get_unchecked(&self, index: UVec2) -> (r: Option<Entity>)
        requires
            self.wf(),
            in_grid(self.size, index),
        ensures
            r == self.tile_at(index),
    {
        proof {
            lemma_linear_index_bounds(self.size, index);
        }
        self.tiles[self.grid_index_to_linear_index(index)]
    }

    /// Set a tile.
    ///
    /// Overwrites the tile if it already exists: the tile it replaces is
    /// despawned and the cell holds the tile that `tile_builder` spawned.
    /// Outside the map nothing happens and no command is queued.
    pub fn set<B: BuildTile>(&mut self, commands: &mut Commands, index: UVec2, tile_builder: &B)
        requires
            old(self).wf(),
        ensures
            final(self).wf(),
            final(self).same_settings(old(self)),
            in_grid(old(self).size, index) ==> exists|e: Entity|
                tile_builder.spawned(index, e) && final(self).tiles@ == old(self).tiles@.update(
                    linear_index(old(self).size.x, index),
                    Some(e),
                ),
            in_grid(old(self).size, index) ==> queued_despawns(*final(commands)) == queued_despawns(
                *old(commands),
            ) + tiles_of(seq![old(self).tile_at(index)]),
            !in_grid(old(self).size, index) ==> *final(self) == *old(self) && *final(commands) == *old(
                commands,
            ),
    {
        if self.is_out_of_tilemap_uvec(index) {
            return;
        }
        self.set_unchecked(commands, index, tile_builder);
    }

    pub(crate) fn set_unchecked<B: BuildTile>(&mut self, commands: &mut Commands, index: UVec2, tile_builder: &B)
        requires
            old(self).wf(),
            in_grid(old(self).size, index),
        ensures
            final(self).wf(),
            final(self).same_settings(old(self)),
            exists|e: Entity|
                tile_builder.spawned(index, e) && final(self).tiles@ == old(self).tiles@.update(
                    linear_index(old(self).size.x, index),
                    Some(e),
                ),
            final(self).holds_tile_from(tile_builder, index),
            forall|p: UVec2| p != index ==> #[trigger] final(self).tile_at(p) == old(self).tile_at(p),
            queued_despawns(*final(commands)) == queued_despawns(*old(commands)) + tiles_of(
                seq![old(self).tile_at(index)],
            ),
    {
        proof {
            lemma_linear_index_bounds(self.size, index);
            lemma_tiles_of_single(self.tile_at(index));
        }
        let slot = self.grid_index_to_linear_index(index);
        if let Some(previous) = self.tiles[slot] {
            despawn(commands, previous);
        }
        let new_tile = tile_builder.build(commands, index, self);
        self.tiles.set(slot, Some(new_tile));
        proof {
            assert forall|p: UVec2| p != index implies #[trigger] self.tile_at(p) == old(self).tile_at(p) by {
                if in_grid(self.size, p) {
                    lemma_linear_index_bounds(self.size, p);
                    if linear_index(self.size.x, p) == linear_index(self.size.x, index) {
                        lemma_linear_index_injective(self.size.x, p, index);
                    }
                }
            }
            assert(self.tiles@ == old(self).tiles@.update(slot as int, Some(new_tile)));
            assert(self.tile_at(index) == Some(new_tile));
        }
    }

    /// The layer edit asked of the tile at `index` for `layer`: `texture_index`
    /// sets the layer to that texture, `None` removes the layer.
    /// There is nothing to edit (`None`) outside the map or on an empty cell.
    ///
    /// The tile systems apply the edit. For an `AnimatedTile` they change the
    /// layer of the whole animation, and they skip an edit that removes a
    /// layer of an `AnimatedTile` or the last layer of a tile.
    ///
    /// Use `Tilemap::set()` if you want to change more.
    pub fn update(&self, index: UVec2, layer: usize, texture_index: Option<u32>) -> (r: Option<
        TileLayerUpdate,
    >)
        requires
            self.wf(),
        ensures
            r == match self.tile_at(index) {
                Some(tile) => Some(layer_update_of(tile, layer, texture_index)),
                None => None,
            },
            r matches Some(u) ==> (u.is_remove <==> texture_index is None) && u.target == layer && (
            texture_index matches Some(i) ==> u.value == i),
    {
        if self.is_out_of_tilemap_uvec(index) || self.get(index).is_none() {
            return None;
        }
        Some(self.update_unchecked(index, layer, texture_index))
    }

    pub(crate) fn update_unchecked(&self, index: UVec2, layer: usize, texture_index: Option<u32>) -> (r:
        TileLayerUpdate)
        requires
            self.wf(),
            self.tile_at(index) is Some,
        ensures
            r == layer_update_of(self.tile_at(index).unwrap(), layer, texture_index),
    {
        TileLayerUpdate {
            tile: self.get(index).unwrap(),
            target: layer,
            value: texture_index.unwrap_or_default(),
            is_remove: texture_index.is_none(),
        }
    }

    /// Similar to `Tilemap::fill_rect()`: the layer edits for every cell of
    /// `area`, row by row from the origin.
    pub fn update_rect(&self, area: FillArea, layer: usize, texture_index: Option<u32>) -> (r: Vec<
        TileLayerUpdate,
    >)
        requires
            self.wf(),
            area.fits(self.size),
            forall|p: UVec2| area.contains(p) ==> (#[trigger] self.tile_at(p)) is Some,
        ensures
            r@.len() == area.cell_count(),
            forall|k: int|
                0 <= k < area.cell_count() ==> #[trigger] r@[k] == layer_update_of(
                    self.tile_at(area.cell(k)).unwrap(),
                    layer,
                    texture_index,
                ),
    {
        let mut r: Vec<TileLayerUpdate> = Vec::new();
        if area.origin.x > area.dest.x || area.origin.y > area.dest.y {
            return r;
        }
        let mut y = area.origin.y;
        while y <= area.dest.y
            invariant
                self.wf(),
                area.fits(self.size),
                area.is_nonempty(),
                forall|p: UVec2| area.contains(p) ==> (#[trigger] self.tile_at(p)) is Some,
                area.origin.y <= y <= area.dest.y + 1,
                r@.len() == (y - area.origin.y) * area.columns(),
                forall|k: int|
                    0 <= k < r@.len() ==> #[trigger] r@[k] == layer_update_of(
                        self.tile_at(area.cell(k)).unwrap(),
                        layer,
                        texture_index,
                    ),
            decreases area.dest.y + 1 - y,
        {
            let mut x = area.origin.x;
            while x <= area.dest.x
                invariant
                    self.wf(),
                    area.fits(self.size),
                    area.is_nonempty(),
                    forall|p: UVec2| area.contains(p) ==> (#[trigger] self.tile_at(p)) is Some,
                    area.origin.y <= y <= area.dest.y,
                    area.origin.x <= x <= area.dest.x + 1,
                    r@.len() == (y - area.origin.y) * area.columns() + (x - area.origin.x),
                    forall|k: int|
                        0 <= k < r@.len() ==> #[trigger] r@[k] == layer_update_of(
                            self.tile_at(area.cell(k)).unwrap(),
                            layer,
                            texture_index,
                        ),
                decreases area.dest.x + 1 - x,
            {
                let here = UVec2 { x, y };
                proof {
                    lemma_area_cell(area, y - area.origin.y, x - area.origin.x);
                    assert(area.contains(here));
                }
                r.push(self.update_unchecked(here, layer, texture_index));
                x += 1;
            }
            proof {
                lemma_next_row(area, y as int);
            }
            y += 1;
        }
        proof {
            assert(area.cell_count() == area.rows() * area.columns()) by (nonlinear_arith)
                requires
                    area.cell_count() == area.columns() * area.rows(),
            ;
        }
        r
    }

    /// `u` is the edit of the `k`-th cell of `area` for a texture index that
    /// `texture_index` may give for that cell (taken relative to the area
    /// origin where `relative_index` holds).
    pub open spec fn custom_layer_update<F: Fn(UVec2) -> Option<u32>>(
        &self,
        texture_index: &F,
        area: FillArea,
        layer: usize,
        relative_index: bool,
        k: int,
        u: TileLayerUpdate,
    ) -> bool {
        let cell = area.cell(k);
        exists|t: Option<u32>|
                        texture_index.ensures((area.index_for(cell, relative_index),), t)
                && u == layer_update_of(self.tile_at(cell).unwrap(), layer, t)
    }

    /// Similar to `Tilemap::fill_rect_custom()`: the layer edits for every
    /// cell of `area`, row by row, with the texture index that
    /// `texture_index` gives for the cell (relative to the area origin where
    /// `relative_index` holds).
    pub fn update_rect_custom<F: Fn(UVec2) -> Option<u32>>(
        &self,
        area: FillArea,
        layer: usize,
        texture_index: F,
        relative_index: bool,
    ) -> (r: Vec<TileLayerUpdate>)
        requires
            self.wf(),
            area.fits(self.size),
            forall|p: UVec2| area.contains(p) ==> (#[trigger] self.tile_at(p)) is Some,
            forall|p: UVec2| area.contains(p) ==> texture_index.requires((area.index_for(p, relative_index),)),
        ensures
            r@.len() == area.cell_count(),
            forall|k: int|
                0 <= k < area.cell_count() ==> self.custom_layer_update(&texture_index, area, layer, relative_index, k, #[trigger] r@[k]),
    {
        let mut r: Vec<TileLayerUpdate> = Vec::new();
        if area.origin.x > area.dest.x || area.origin.y > area.dest.y {
            return r;
        }
        let mut y = area.origin.y;
        while y <= area.dest.y
            invariant
                self.wf(),
                area.fits(self.size),
                area.is_nonempty(),
                forall|p: UVec2| area.contains(p) ==> (#[trigger] self.tile_at(p)) is Some,
                forall|p: UVec2| area.contains(p) ==> texture_index.requires((area.index_for(p, relative_index),)),
                area.origin.y <= y <= area.dest.y + 1,
                r@.len() == (y - area.origin.y) * area.columns(),
                forall|k: int|
                    0 <= k < r@.len() ==> self.custom_layer_update(&texture_index, area, layer, relative_index, k, #[trigger] r@[k]),
            decreases area.dest.y + 1 - y,
        {
            let mut x = area.origin.x;
            while x <= area.dest.x
                invariant
                    self.wf(),
                    area.fits(self.size),
                    area.is_nonempty(),
                    forall|p: UVec2| area.contains(p) ==> (#[trigger] self.tile_at(p)) is Some,
                    forall|p: UVec2| area.contains(p) ==> texture_index.requires((area.index_for(p, relative_index),)),
                    area.origin.y <= y <= area.dest.y,
                    area.origin.x <= x <= area.dest.x + 1,
                    r@.len() == (y - area.origin.y) * area.columns() + (x - area.origin.x),
                    forall|k: int|
                        0 <= k < r@.len() ==> self.custom_layer_update(&texture_index, area, layer, relative_index, k, #[trigger] r@[k]),
                decreases area.dest.x + 1 - x,
            {
                let here = UVec2 { x, y };
                proof {
                    lemma_area_cell(area, y - area.origin.y, x - area.origin.x);
                    assert(area.contains(here));
                }
                let arg = if relative_index {
                    UVec2 { x: x - area.origin.x, y: y - area.origin.y }
                } else {
                    here
                };
                let t = texture_index(arg);
                let u = self.update_unchecked(here, layer, t);
                proof {
                    let k = r@.len() as int;
                    assert(area.cell(k) == here);
                    assert(self.custom_layer_update(&texture_index, area, layer, relative_index, k, u));
                }
                r.push(u);
                x += 1;
            }
            proof {
                lemma_next_row(area, y as int);
            }
            y += 1;
        }
        proof {
            assert(area.cell_count() == area.rows() * area.columns()) by (nonlinear_arith)
                requires
                    area.cell_count() == area.columns() * area.rows(),
            ;
        }
        r
    }

    /// Remove a tile: the cell becomes empty and its tile is despawned.
    /// Outside the map or on an empty cell nothing happens and no command is
    /// queued.
    pub fn remove(&mut self, commands: &mut Commands, index: UVec2)
        requires
            old(self).wf(),
        ensures
            final(self).wf(),
            final(self).same_settings(old(self)),
            in_grid(old(self).size, index) ==>
                final(self).tiles@ == old(self).tiles@.update(linear_index(old(self).size.x, index), None),
            !in_grid(old(self).size, index) ==> *final(self) == *old(self),
            queued_despawns(*final(commands)) == queued_despawns(*old(commands)) + tiles_of(
                seq![old(self).tile_at(index)],
            ),
            old(self).tile_at(index) is None ==> *final(commands) == *old(commands),
    {
        proof {
            lemma_tiles_of_single(self.tile_at(index));
        }
        if self.is_out_of_tilemap_uvec(index) || self.get(index).is_none() {
            proof {
                if in_grid(self.size, index) {
                    lemma_linear_index_bounds(self.size, index);
                    assert(self.tiles@ == self.tiles@.update(linear_index(self.size.x, index), None));
                }
            }
            return;
        }
        self.remove_unchecked(commands, index);
    }

    pub(crate) fn remove_unchecked(&mut self, commands: &mut Commands, index: UVec2)
        requires
            old(self).wf(),
            old(self).tile_at(index) is Some,
        ensures
            final(self).wf(),
            final(self).same_settings(old(self)),
            final(self).tiles@ == old(self).tiles@.update(linear_index(old(self).size.x, index), None),
            queued_despawns(*final(commands)) == queued_despawns(*old(commands)).push(
                old(self).tile_at(index)->0,
            ),
    {
        proof {
            lemma_linear_index_bounds(self.size, index);
        }
        let index = self.grid_index_to_linear_index(index);
        let tile = self.tiles[index].unwrap();
        despawn(commands, tile);
        self.tiles.set(index, None);
    }

    /// Overwrites all the tiles: slot `i` gets the tile that `tiles[i]`
    /// spawns for its cell, or becomes empty where `tiles[i]` is `None`.
    /// Every tile the map held before is despawned, in slot order.
    pub fn set_all<B: BuildTile>(&mut self, commands: &mut Commands, tiles: &Vec<Option<B>>)
        requires
            old(self).wf(),
            tiles@.len() == old(self).tiles@.len(),
        ensures
            final(self).wf(),
            final(self).same_settings(old(self)),
            forall|i: int|
                0 <= i < tiles@.len() ==> ((#[trigger] final(self).tiles@[i]) is Some <==> tiles@[i] is Some),
            forall|i: int|
                0 <= i < tiles@.len() ==> slot_built_from(
                    #[trigger] final(self).tiles@[i],
                    tiles@[i],
                    grid_point(old(self).size.x, i),
                ),
            queued_despawns(*final(commands)) == queued_despawns(*old(commands)) + tiles_of(
                old(self).tiles@,
            ),
    {
        let n = tiles.len();
        let mut i: usize = 0;
        while i < n
            invariant
                self.wf(),
                self.same_settings(old(self)),
                n == tiles@.len(),
                n == self.tiles@.len(),
                n == old(self).tiles@.len(),
                0 <= i <= n,
                forall|j: int| 0 <= j < i ==> ((#[trigger] self.tiles@[j]) is Some <==> tiles@[j] is Some),
                forall|j: int|
                    0 <= j < i ==> slot_built_from(
                        #[trigger] self.tiles@[j],
                        tiles@[j],
                        grid_point(self.size.x, j),
                    ),
                forall|j: int| i <= j < n ==> #[trigger] self.tiles@[j] == old(self).tiles@[j],
                queued_despawns(*commands) == queued_despawns(*old(commands)) + tiles_of(
                    old(self).tiles@.take(i as int),
                ),
            decreases n - i,
        {
            let index = UVec2 { x: i as u32 % self.size.x, y: i as u32 / self.size.x };
            proof {
                lemma_linear_index_of_grid_point(self.size, i as int);
                assert(index == grid_point(self.size.x, i as int));
                assert(self.tile_at(index) == old(self).tiles@[i as int]);
                lemma_tiles_of_take(old(self).tiles@, i as int);
            }
            let ghost before = self.tiles@;
            match &tiles[i] {
                Some(t) => {
                    self.set_unchecked(commands, index, t);
                    proof {
                        let e = choose|e: Entity| t.spawned(index, e) && self.tile_at(index) == Some(e);
                        assert(self.tiles@[i as int] == Some(e));
                        assert(slot_built_from(self.tiles@[i as int], tiles@[i as int], index));
                    }
                },
                None => {
                    self.remove(commands, index);
                },
            }
            proof {
                assert forall|j: int| 0 <= j < i + 1 implies ((#[trigger] self.tiles@[j]) is Some
                    <==> tiles@[j] is Some) by {
                    if j < i {
                        assert(self.tiles@[j] == before[j]);
                    }
                }
                assert forall|j: int| 0 <= j < i + 1 implies slot_built_from(
                    #[trigger] self.tiles@[j],
                    tiles@[j],
                    grid_point(self.size.x, j),
                ) by {
                    if j < i {
                        assert(self.tiles@[j] == before[j]);
                    }
                }
                assert forall|j: int| i + 1 <= j < n implies #[trigger] self.tiles@[j] == old(self).tiles@[j] by {
                    assert(self.tiles@[j] == before[j]);
                }
            }
            i += 1;
        }
        proof {
            assert(old(self).tiles@.take(n as int) =~= old(self).tiles@);
        }
    }

    /// Fill a rectangle area with tiles: every cell of `area` gets a tile that
    /// `tile_builder` spawns for it, the tiles they held are despawned (row
    /// by row), and every other cell is left as it was.
    pub fn fill_rect<B: BuildTile>(&mut self, commands: &mut Commands, area: FillArea, tile_builder: &B)
        requires
            old(self).wf(),
            area.fits(old(self).size),
        ensures
            final(self).wf(),
            final(self).same_settings(old(self)),
            forall|p: UVec2| area.contains(p) ==> (#[trigger] final(self).tile_at(p)) is Some,
            forall|p: UVec2| area.contains(p) ==> #[trigger] final(self).holds_tile_from(tile_builder, p),
            forall|p: UVec2| !area.contains(p) ==> #[trigger] final(self).tile_at(p) == old(self).tile_at(p),
            queued_despawns(*final(commands)) == queued_despawns(*old(commands)) + tiles_of(
                old(self).area_slots(area),
            ),
    {
        if area.origin.x > area.dest.x || area.origin.y > area.dest.y {
            proof {
                assert(tiles_of(old(self).area_slots(area)) =~= Seq::<Entity>::empty());
                assert(queued_despawns(*commands) + Seq::<Entity>::empty() =~= queued_despawns(*commands));
            }
            return;
        }
        let mut y = area.origin.y;
        while y <= area.dest.y
            invariant
                self.wf(),
                self.same_settings(old(self)),
                area.fits(self.size),
                area.is_nonempty(),
                area.origin.y <= y <= area.dest.y + 1,
                forall|p: UVec2| area.contains(p) && p.y < y ==> (#[trigger] self.tile_at(p)) is Some,
                forall|p: UVec2|
                    area.contains(p) && p.y < y ==> #[trigger] self.holds_tile_from(tile_builder, p),
                forall|p: UVec2|
                    !(area.contains(p) && p.y < y) ==> #[trigger] self.tile_at(p) == old(self).tile_at(p),
                queued_despawns(*commands) == queued_despawns(*old(commands)) + tiles_of(
                    old(self).area_slots(area).take((y - area.origin.y) * area.columns()),
                ),
            decreases area.dest.y + 1 - y,
        {
            let mut x = area.origin.x;
            while x <= area.dest.x
                invariant
                    self.wf(),
                    self.same_settings(old(self)),
                    area.fits(self.size),
                    area.is_nonempty(),
                    area.origin.y <= y <= area.dest.y,
                    area.origin.x <= x <= area.dest.x + 1,
                    forall|p: UVec2|
                        area.contains(p) && (p.y < y || (p.y == y && p.x < x)) ==> (#[trigger] self.tile_at(
                            p,
                        )) is Some,
                    forall|p: UVec2|
                        area.contains(p) && (p.y < y || (p.y == y && p.x < x))
                            ==> #[trigger] self.holds_tile_from(tile_builder, p),
                    forall|p: UVec2|
                        !(area.contains(p) && (p.y < y || (p.y == y && p.x < x))) ==> #[trigger] self.tile_at(p)
                            == old(self).tile_at(p),
                    queued_despawns(*commands) == queued_despawns(*old(commands)) + tiles_of(
                        old(self).area_slots(area).take(
                            (y - area.origin.y) * area.columns() + (x - area.origin.x),
                        ),
                    ),
                decreases area.dest.x + 1 - x,
            {
                let here = UVec2 { x, y };
                let ghost k = (y - area.origin.y) * area.columns() + (x - area.origin.x);
                proof {
                    lemma_area_cell(area, y - area.origin.y, x - area.origin.x);
                    assert(area.contains(here));
                    assert(old(self).area_slots(area)[k] == self.tile_at(here));
                    lemma_tiles_of_take(old(self).area_slots(area), k);
                }
                let ghost before = *self;
                self.set_unchecked(commands, here, tile_builder);
                proof {
                    assert forall|p: UVec2|
                        area.contains(p) && (p.y < y || (p.y == y && p.x < x + 1))
                            implies #[trigger] self.holds_tile_from(tile_builder, p) by {
                        if p != here {
                            assert(before.holds_tile_from(tile_builder, p));
                            assert(self.tile_at(p) == before.tile_at(p));
                        }
                    }
                }
                x += 1;
            }
            proof {
                lemma_next_row(area, y as int);
            }
            y += 1;
        }
        proof {
            assert(area.cell_count() == (y - area.origin.y) * area.columns()) by (nonlinear_arith)
                requires
                    area.cell_count() == area.columns() * area.rows(),
                    y == area.dest.y + 1,
                    area.rows() == area.dest.y - area.origin.y + 1,
            ;
            assert(old(self).area_slots(area).take(area.cell_count()) =~= old(self).area_slots(area));
        }
    }

    /// Fill a rectangle area with tiles returned by `tile_builder`: each cell
    /// of `area` gets a tile spawned by the builder that `tile_builder` gives
    /// for the cell, the tiles they held are despawned (row by row), and
    /// every other cell is left as it was.
    ///
    /// Set `relative_index` to true if your function takes index relative to the area origin.
    pub fn fill_rect_custom<B: BuildTile, F: Fn(UVec2) -> B>(
        &mut self,
        commands: &mut Commands,
        area: FillArea,
        tile_builder: F,
        relative_index: bool,
    )
        requires
            old(self).wf(),
            area.fits(old(self).size),
            forall|p: UVec2| area.contains(p) ==> tile_builder.requires((area.index_for(p, relative_index),)),
        ensures
            final(self).wf(),
            final(self).same_settings(old(self)),
            forall|p: UVec2| area.contains(p) ==> (#[trigger] final(self).tile_at(p)) is Some,
            forall|p: UVec2|
                area.contains(p) ==> #[trigger] final(self).holds_tile_made_by(
                    &tile_builder,
                    area,
                    relative_index,
                    p,
                ),
            forall|p: UVec2| !area.contains(p) ==> #[trigger] final(self).tile_at(p) == old(self).tile_at(p),
            queued_despawns(*final(commands)) == queued_despawns(*old(commands)) + tiles_of(
                old(self).area_slots(area),
            ),
    {
        if area.origin.x > area.dest.x || area.origin.y > area.dest.y {
            proof {
                assert(tiles_of(old(self).area_slots(area)) =~= Seq::<Entity>::empty());
                assert(queued_despawns(*commands) + Seq::<Entity>::empty() =~= queued_despawns(*commands));
            }
            return;
        }
        let mut y = area.origin.y;
        while y <= area.dest.y
            invariant
                self.wf(),
                self.same_settings(old(self)),
                area.fits(self.size),
                area.is_nonempty(),
                area.origin.y <= y <= area.dest.y + 1,
                forall|p: UVec2| area.contains(p) ==> tile_builder.requires((area.index_for(p, relative_index),)),
                forall|p: UVec2| area.contains(p) && p.y < y ==> (#[trigger] self.tile_at(p)) is Some,
                forall|p: UVec2|
                    area.contains(p) && p.y < y ==> #[trigger] self.holds_tile_made_by(
                        &tile_builder,
                        area,
                        relative_index,
                        p,
                    ),
                forall|p: UVec2|
                    !(area.contains(p) && p.y < y) ==> #[trigger] self.tile_at(p) == old(self).tile_at(p),
                queued_despawns(*commands) == queued_despawns(*old(commands)) + tiles_of(
                    old(self).area_slots(area).take((y - area.origin.y) * area.columns()),
                ),
            decreases area.dest.y + 1 - y,
        {
            let mut x = area.origin.x;
            while x <= area.dest.x
                invariant
                    self.wf(),
                    self.same_settings(old(self)),
                    area.fits(self.size),
                    area.is_nonempty(),
                    area.origin.y <= y <= area.dest.y,
                    area.origin.x <= x <= area.dest.x + 1,
                    forall|p: UVec2|
                        area.contains(p) ==> tile_builder.requires((area.index_for(p, relative_index),)),
                    forall|p: UVec2|
                        area.contains(p) && (p.y < y || (p.y == y && p.x < x)) ==> (#[trigger] self.tile_at(
                            p,
                        )) is Some,
                    forall|p: UVec2|
                        area.contains(p) && (p.y < y || (p.y == y && p.x < x))
                            ==> #[trigger] self.holds_tile_made_by(&tile_builder, area, relative_index, p),
                    forall|p: UVec2|
                        !(area.contains(p) && (p.y < y || (p.y == y && p.x < x))) ==> #[trigger] self.tile_at(p)
                            == old(self).tile_at(p),
                    queued_despawns(*commands) == queued_despawns(*old(commands)) + tiles_of(
                        old(self).area_slots(area).take(
                            (y - area.origin.y) * area.columns() + (x - area.origin.x),
                        ),
                    ),
                decreases area.dest.x + 1 - x,
            {
                let here = UVec2 { x, y };
                let ghost k = (y - area.origin.y) * area.columns() + (x - area.origin.x);
                proof {
                    lemma_area_cell(area, y - area.origin.y, x - area.origin.x);
                    assert(area.contains(here));
                    assert(old(self).area_slots(area)[k] == self.tile_at(here));
                    lemma_tiles_of_take(old(self).area_slots(area), k);
                }
                let arg = if relative_index {
                    UVec2 { x: x - area.origin.x, y: y - area.origin.y }
                } else {
                    here
                };
                assert(arg == area.index_for(here, relative_index));
                let builder = tile_builder(arg);
                let ghost before = *self;
                self.set_unchecked(commands, here, &builder);
                proof {
                    assert(self.holds_tile_made_by(&tile_builder, area, relative_index, here));
                    assert forall|p: UVec2|
                        area.contains(p) && (p.y < y || (p.y == y && p.x < x + 1))
                            implies #[trigger] self.holds_tile_made_by(&tile_builder, area, relative_index, p) by {
                        if p != here {
                            assert(before.holds_tile_made_by(&tile_builder, area, relative_index, p));
                            let b = choose|b: B|
                                tile_builder.ensures((area.index_for(p, relative_index),), b)
                                    && before.holds_tile_from(&b, p);
                            assert(self.tile_at(p) == before.tile_at(p));
                            assert(self.holds_tile_from(&b, p));
                        }
                    }
                }
                x += 1;
            }
            proof {
                lemma_next_row(area, y as int);
            }
            y += 1;
        }
        proof {
            assert(area.cell_count() == (y - area.origin.y) * area.columns()) by (nonlinear_arith)
                requires
                    area.cell_count() == area.columns() * area.rows(),
                    y == area.dest.y + 1,
                    area.rows() == area.dest.y - area.origin.y + 1,
            ;
            assert(old(self).area_slots(area).take(area.cell_count()) =~= old(self).area_slots(area));
        }
    }

    /// Remove the whole tilemap: despawns every tile, row by row, and then
    /// the map's own entity. The map value itself is left as it was.
    pub fn delete(&mut self, commands: &mut Commands)
        ensures
            *final(self) == *old(self),
            queued_despawns(*final(commands)) == (queued_despawns(*old(commands)) + tiles_of(
                old(self).tiles@,
            )).push(old(self).id),
    {
        let n = self.tiles.len();
        let mut i: usize = 0;
        while i < n
            invariant
                n == self.tiles@.len(),
                i <= n,
                *self == *old(self),
                queued_despawns(*commands) == queued_despawns(*old(commands)) + tiles_of(
                    self.tiles@.take(i as int),
                ),
            decreases n - i,
        {
            proof {
                lemma_tiles_of_take(self.tiles@, i as int);
                lemma_tiles_of_single(self.tiles@[i as int]);
            }
            if let Some(tile) = self.tiles[i] {
                despawn(commands, tile);
            }
            i += 1;
        }
        proof {
            assert(self.tiles@.take(n as int) =~= self.tiles@);
        }
        despawn(commands, self.id);
    }

    /// Get the id of the tilemap.
    #[inline]
    pub fn id(&self) -> (r: Entity)
        ensures
            r == self.id,
    {
        self.id
    }

    /// Get the name of the tilemap.
    #[inline]
    pub fn name(&self) -> (r: String)
        ensures
            r == self.name,
    {
        self.name.clone()
    }

    #[inline]
    pub fn grid_index_to_linear_index(&self, index: UVec2) -> (r: usize)
        requires
            index.y * self.size.x + index.x <= u32::MAX,
        ensures
            r == linear_index(self.size.x, index),
    {
        (index.y * self.size.x + index.x) as usize
    }

    #[inline]
    pub fn is_out_of_tilemap_uvec(&self, index: UVec2) -> (r: bool)
        ensures
            r == !in_grid(self.size, index),
    {
        index.x >= self.size.x || index.y >= self.size.y
    }

    #[inline]
    pub fn is_out_of_tilemap_ivec(&self, index: IVec2) -> (r: bool)
        ensures
            r == (index.x < 0 || index.y < 0 || index.x >= self.size.x as i32 || index.y
                >= self.size.y as i32),
            self.size.x <= i32::MAX && self.size.y <= i32::MAX ==> r == !(0 <= index.x < self.size.x
                && 0 <= index.y < self.size.y),
    {
        index.x < 0 || index.y < 0 || index.x >= self.size.x as i32 || index.y >= self.size.y as i32
    }
}

/// Marks a tile map whose texture still has to be made copyable.
pub struct WaitForTextureUsageChange;

/// What a map waiting for its texture to become copyable does next.
#[derive(Clone, Copy, Debug, PartialEq, Eq, Structural)]
pub enum TextureUsageStep {
    /// Stop waiting: drop the `WaitForTextureUsageChange` marker.
    RemoveMarker,
    /// The image is not loaded yet: keep waiting.
    Wait,
    /// Give the image these usage flags, then drop the marker.
    SetUsageThenRemoveMarker(u32),
}

/// Bevy doesn't set the `COPY_SRC` usage for images by default, so it has to
/// be set by hand: the step for a map with or without a texture, whose image
/// has the usage flags `usage` once loaded (`None` before), where `copy_src`
/// is the `COPY_SRC` flag.
pub fn set_usage_step(has_texture: bool, usage: Option<u32>, copy_src: u32) -> (r: TextureUsageStep)
    ensures
        r == if !has_texture {
            TextureUsageStep::RemoveMarker
        } else {
            match usage {
                None => TextureUsageStep::Wait,
                Some(u) => if u & copy_src == copy_src {
                    TextureUsageStep::RemoveMarker
                } else {
                    TextureUsageStep::SetUsageThenRemoveMarker(u | copy_src)
                },
            }
        },
{
    if !has_texture {
        return TextureUsageStep::RemoveMarker;
    }
    match usage {
        None => TextureUsageStep::Wait,
        Some(u) => {
            if u & copy_src == copy_src {
                TextureUsageStep::RemoveMarker
            } else {
                TextureUsageStep::SetUsageThenRemoveMarker(u | copy_src)
            }
        },
    }
}

/// After the usage step has set the flags, the image holds `COPY_SRC`: a
/// second step on it only drops the marker.
pub proof fn law_set_usage_settles(u: u32, copy_src: u32)
    ensures
        (u | copy_src) & copy_src == copy_src,
{
    assert((u | copy_src) & copy_src == copy_src) by (bit_vector);
}

/// Placing tile `e` at an in-grid cell, as `Tilemap::set` does, makes that
/// cell read `e` and leaves every other cell reading as before.
pub proof fn law_set_then_get(before: Tilemap, after: Tilemap, index: UVec2, e: Entity)
    requires
        before.wf(),
        after.same_settings(&before),
        in_grid(before.size, index),
        after.tiles@ == before.tiles@.update(linear_index(before.size.x, index), Some(e)),
    ensures
        after.wf(),
        after.tile_at(index) == Some(e),
        forall|p: UVec2| p != index ==> #[trigger] after.tile_at(p) == before.tile_at(p),
{
    lemma_linear_index_bounds(before.size, index);
    assert forall|p: UVec2| p != index implies #[trigger] after.tile_at(p) == before.tile_at(p) by {
        if in_grid(before.size, p) {
            lemma_linear_index_bounds(before.size, p);
            if linear_index(before.size.x, p) == linear_index(before.size.x, index) {
                lemma_linear_index_injective(before.size.x, p, index);
            }
        }
    }
}

/// Setting an empty in-grid cell and then removing it, as `Tilemap::set`
/// and `Tilemap::remove` do, gives back the tiles the map had, and the only
/// despawn queued is that of the tile `set` placed.
pub proof fn law_remove_undoes_set<B: BuildTile>(
    m0: Tilemap,
    m1: Tilemap,
    m2: Tilemap,
    q0: Seq<Entity>,
    q1: Seq<Entity>,
    q2: Seq<Entity>,
    builder: B,
    index: UVec2,
    e: Entity,
)
    requires
        m0.wf(),
        in_grid(m0.size, index),
        m0.tile_at(index) is None,
        m1.same_settings(&m0),
        builder.spawned(index, e),
        m1.tiles@ == m0.tiles@.update(linear_index(m0.size.x, index), Some(e)),
        q1 == q0 + tiles_of(seq![m0.tile_at(index)]),
        m2.same_settings(&m1),
        m2.tiles@ == m1.tiles@.update(linear_index(m1.size.x, index), None),
        q2 == q1 + tiles_of(seq![m1.tile_at(index)]),
    ensures
        m2.tiles@ == m0.tiles@,
        q2 == q0.push(e),
{
    lemma_linear_index_bounds(m0.size, index);
    lemma_tiles_of_single(m0.tile_at(index));
    lemma_tiles_of_single(m1.tile_at(index));
    assert(m1.tile_at(index) == Some(e));
    assert(m2.tiles@ =~= m0.tiles@);
    assert(q0 + Seq::<Entity>::empty() =~= q0);
}

/// Along any run of map operations, each keeping the settings of the map
/// it was given, the map keeps its id and all its other settings.
pub proof fn law_settings_persist(maps: Seq<Tilemap>)
    requires
        forall|i: int| 0 <= i < maps.len() - 1 ==> #[trigger] maps[i + 1].same_settings(&maps[i]),
    ensures
        forall|i: int| 0 <= i < maps.len() ==> (#[trigger] maps[i]).same_settings(&maps[0]),
        forall|i: int| 0 <= i < maps.len() ==> (#[trigger] maps[i]).id == maps[0].id,
    decreases maps.len(),
{
    if maps.len() > 1 {
        let init = maps.drop_last();
        assert forall|i: int| 0 <= i < init.len() - 1 implies #[trigger] init[i + 1].same_settings(&init[i]) by {
            assert(maps[i + 1].same_settings(&maps[i]));
        }
        law_settings_persist(init);
        assert forall|i: int| 0 <= i < maps.len() implies (#[trigger] maps[i]).same_settings(&maps[0]) by {
            if i < maps.len() - 1 {
                assert(init[i].same_settings(&init[0]));
            } else {
                let j = i - 1;
                assert(maps[j + 1].same_settings(&maps[j]));
                assert(init[j].same_settings(&init[0]));
            }
        }
    }
}

/// A map keeps its settings when nothing happens to it, as when
/// `Tilemap::delete` leaves it as it was or `Tilemap::update` reads it.
pub proof fn law_unchanged_keeps_settings(map: Tilemap)
    ensures
        map.same_settings(&map),
{
}

/// A map built by `TilemapBuilder::build`, which returns the id it gives the
/// map, keeps that id through any run of the map operations that follows:
/// each of them keeps the settings of the map it is given.
pub proof fn law_id_fixed_after_build(built: Entity, maps: Seq<Tilemap>)
    requires
        maps.len() > 0,
        maps[0].id == built,
        forall|i: int| 0 <= i < maps.len() - 1 ==> #[trigger] maps[i + 1].same_settings(&maps[i]),
    ensures
        forall|i: int| 0 <= i < maps.len() ==> (#[trigger] maps[i]).id == built,
{
    law_settings_persist(maps);
}

/// Clearing an in-grid cell, as `Tilemap::remove` does, makes that cell read
/// empty and leaves every other cell reading as before.
pub proof fn law_remove_then_get(before: Tilemap, after: Tilemap, index: UVec2)
    requires
        before.wf(),
        after.same_settings(&before),
        in_grid(before.size, index),
        after.tiles@ == before.tiles@.update(linear_index(before.size.x, index), None),
    ensures
        after.wf(),
        after.tile_at(index) is None,
        forall|p: UVec2| p != index ==> #[trigger] after.tile_at(p) == before.tile_at(p),
{
    lemma_linear_index_bounds(before.size, index);
    assert forall|p: UVec2| p != index implies #[trigger] after.tile_at(p) == before.tile_at(p) by {
        if in_grid(before.size, p) {
            lemma_linear_index_bounds(before.size, p);
            if linear_index(before.size.x, p) == linear_index(before.size.x, index) {
                lemma_linear_index_injective(before.size.x, p, index);
            }
        }
    }
}

/// Two well-formed maps of one size that read alike at every cell store the
/// same tiles: the cells are the whole content of a map.
pub proof fn law_cells_determine_tiles(a: Tilemap, b: Tilemap)
    requires
        a.wf(),
        b.wf(),
        a.size == b.size,
        forall|p: UVec2| #[trigger] a.tile_at(p) == b.tile_at(p),
    ensures
        a.tiles@ == b.tiles@,
{
    assert forall|i: int| 0 <= i < a.tiles@.len() implies a.tiles@[i] == b.tiles@[i] by {
        lemma_linear_index_of_grid_point(a.size, i);
        assert(a.tile_at(grid_point(a.size.x, i)) == b.tile_at(grid_point(a.size.x, i)));
    }
}

/// Applying the same flip twice flags no more than applying it once.
pub proof fn law_flip_idempotent(flags: u32, flip: TileFlip)
    ensures
        (flags | flip_bits(flip)) | flip_bits(flip) == flags | flip_bits(flip),
{
    let b = flip_bits(flip);
    assert((flags | b) | b == flags | b) by (bit_vector);
}

/// The order in which flips are applied does not matter.
pub proof fn law_flip_order_irrelevant(flags: u32, first: TileFlip, second: TileFlip)
    ensures
        (flags | flip_bits(first)) | flip_bits(second) == (flags | flip_bits(second)) | flip_bits(first),
{
    let a = flip_bits(first);
    let b = flip_bits(second);
    assert((flags | a) | b == (flags | b) | a) by (bit_vector);
}

} // verus!
