//! The decisions of LDtk level loading: which level a loader asks for and
//! where each level is placed in the world.
use vstd::prelude::*;
use vstd::string::StringExecFns;
use crate::math::UVec2;

verus! {

/// Marks an entity on which the named level is to be loaded.
pub struct LdtkLoader {
    pub level: String,
}

/// Marks a loaded level entity that is to be unloaded.
pub struct LdtkUnloader;

/// How the levels of an LDtk world are arranged.
#[derive(Clone, Copy, Debug, PartialEq, Eq, Structural)]
pub enum WorldLayout {
    GridVania,
    Free,
    LinearHorizontal,
    LinearVertical,
}

/// The pixel position and extent of a level as the LDtk file gives them.
#[derive(Clone, Copy, Debug, PartialEq, Eq, Structural)]
pub struct LevelPlacement {
    pub world_x: i32,
    pub world_y: i32,
    pub px_wid: i32,
    pub px_hei: i32,
}

/// The extent of one level along the stacking axis of a linear layout.
pub open spec fn level_extent(level: LevelPlacement, horizontal: bool) -> int {
    if horizontal {
        level.px_wid as int
    } else {
        level.px_hei as int
    }
}

/// The total extent of the first `n` levels of a linear layout, each
/// followed by `spacing` pixels.
pub open spec fn stacked_extent(levels: Seq<LevelPlacement>, n: int, spacing: int, horizontal: bool) -> int
    decreases n,
{
    if n <= 0 {
        0
    } else {
        stacked_extent(levels, n - 1, spacing, horizontal) + level_extent(levels[n - 1], horizontal)
            + spacing
    }
}

/// Every step of stacking the first `n` levels stays in the `i32` range:
/// each level's extent plus the spacing, and each running total.
pub open spec fn stacking_fits(levels: Seq<LevelPlacement>, n: int, spacing: int, horizontal: bool) -> bool {
    forall|k: int|
        0 <= k < n ==> {
            &&& i32::MIN <= level_extent(levels[k], horizontal) + spacing <= i32::MAX
            &&& i32::MIN <= #[trigger] stacked_extent(levels, k + 1, spacing, horizontal) <= i32::MAX
        }
}

/// The world translation, in pixels, of level `index`: its own world
/// position in free and grid layouts (the y axis pointing up), else the
/// extent of the levels before it along the stacking axis.
pub open spec fn level_translation(
    layout: WorldLayout,
    levels: Seq<LevelPlacement>,
    index: int,
    spacing: int,
) -> (int, int) {
    match layout {
        WorldLayout::GridVania | WorldLayout::Free => (
            levels[index].world_x as int,
            -levels[index].world_y - levels[index].px_hei,
        ),
        WorldLayout::LinearHorizontal => (stacked_extent(levels, index, spacing, true), 0),
        WorldLayout::LinearVertical => (0, -stacked_extent(levels, index, spacing, false)),
    }
}

/// The spacing between linear levels, where it is set.
pub open spec fn spacing_of(level_spacing: Option<i32>) -> int {
    match level_spacing {
        Some(s) => s as int,
        None => 0,
    }
}

/// The world translation of level `index`, in pixels.
pub fn get_level_translation(
    world_layout: Option<WorldLayout>,
    levels: &Vec<LevelPlacement>,
    index: usize,
    level_spacing: Option<i32>,
) -> (r: (i32, i32))
    requires
        index < levels@.len(),
        world_layout is Some,
        (world_layout == Some(WorldLayout::GridVania) || world_layout == Some(WorldLayout::Free))
            ==> levels@[index as int].world_y > i32::MIN && i32::MIN <= -levels@[index as int].world_y
            - levels@[index as int].px_hei <= i32::MAX,
        world_layout == Some(WorldLayout::LinearHorizontal) ==> (index > 0 ==> level_spacing is Some)
            && stacking_fits(levels@, index as int, spacing_of(level_spacing), true),
        world_layout == Some(WorldLayout::LinearVertical) ==> (index > 0 ==> level_spacing is Some)
            && stacking_fits(levels@, index as int, spacing_of(level_spacing), false)
            && stacked_extent(levels@, index as int, spacing_of(level_spacing), false) > i32::MIN,
    ensures
        (r.0 as int, r.1 as int) == level_translation(
            world_layout->0,
            levels@,
            index as int,
            spacing_of(level_spacing),
        ),
        (world_layout == Some(WorldLayout::GridVania) || world_layout == Some(WorldLayout::Free)) ==> r.0
            == levels@[index as int].world_x && r.1 == -levels@[index as int].world_y
            - levels@[index as int].px_hei,
{
    let level = &levels[index];
    match world_layout.unwrap() {
        WorldLayout::GridVania | WorldLayout::Free => (level.world_x, -level.world_y - level.px_hei),
        WorldLayout::LinearHorizontal => {
            let mut offset: i32 = 0;
            let mut i: usize = 0;
            while i < index
                invariant
                    i <= index < levels@.len(),
                    index > 0 ==> level_spacing is Some,
                    stacking_fits(levels@, index as int, spacing_of(level_spacing), true),
                    offset == stacked_extent(levels@, i as int, spacing_of(level_spacing), true),
                decreases index - i,
            {
                assert(i32::MIN <= stacked_extent(levels@, i + 1, spacing_of(level_spacing), true) <= i32::MAX);
                offset += levels[i].px_wid + level_spacing.unwrap();
                i += 1;
            }
            (offset, 0)
        },
        WorldLayout::LinearVertical => {
            let mut offset: i32 = 0;
            let mut i: usize = 0;
            while i < index
                invariant
                    i <= index < levels@.len(),
                    index > 0 ==> level_spacing is Some,
                    stacking_fits(levels@, index as int, spacing_of(level_spacing), false),
                    offset == stacked_extent(levels@, i as int, spacing_of(level_spacing), false),
                decreases index - i,
            {
                assert(i32::MIN <= stacked_extent(levels@, i + 1, spacing_of(level_spacing), false) <= i32::MAX);
                offset += levels[i].px_hei + level_spacing.unwrap();
                i += 1;
            }
            (0, -offset)
        },
    }
}

/// In a linear layout each level starts where the one before it ends, one
/// spacing further along the stacking axis.
pub proof fn law_linear_levels_follow_each_other(levels: Seq<LevelPlacement>, index: int, spacing: int)
    requires
        0 <= index,
        index + 1 < levels.len(),
    ensures
        level_translation(WorldLayout::LinearHorizontal, levels, index + 1, spacing).0 == level_translation(
            WorldLayout::LinearHorizontal,
            levels,
            index,
            spacing,
        ).0 + levels[index].px_wid + spacing,
        level_translation(WorldLayout::LinearVertical, levels, index + 1, spacing).1 == level_translation(
            WorldLayout::LinearVertical,
            levels,
            index,
            spacing,
        ).1 - levels[index].px_hei - spacing,
{
}

/// In free and grid layouts a level sits at its own world position with the
/// y axis flipped: its translation is `(world_x, -world_y - px_hei)`, the
/// same in both layouts. Moving the level `d` pixels down in the editor
/// (`world_y + d`) lowers its translation by `d`, and moving it right
/// (`world_x + d`) moves it right by `d`.
pub proof fn law_placed_levels_follow_world_position(
    levels: Seq<LevelPlacement>,
    index: int,
    spacing: int,
    moved: LevelPlacement,
    d: int,
)
    requires
        0 <= index < levels.len(),
        moved.px_hei == levels[index].px_hei,
        moved.world_y == levels[index].world_y + d,
        moved.world_x == levels[index].world_x + d,
    ensures
        level_translation(WorldLayout::Free, levels, index, spacing) == (
            levels[index].world_x as int,
            -levels[index].world_y - levels[index].px_hei,
        ),
        level_translation(WorldLayout::GridVania, levels, index, spacing) == level_translation(
            WorldLayout::Free,
            levels,
            index,
            spacing,
        ),
        level_translation(WorldLayout::GridVania, levels.update(index, moved), index, spacing).1
            == level_translation(WorldLayout::GridVania, levels, index, spacing).1 - d,
        level_translation(WorldLayout::GridVania, levels.update(index, moved), index, spacing).0
            == level_translation(WorldLayout::GridVania, levels, index, spacing).0 + d,
        level_translation(WorldLayout::Free, levels.update(index, moved), index, spacing).1
            == level_translation(WorldLayout::Free, levels, index, spacing).1 - d,
{
}

/// Only a layer whose whole identifier equals the physics identifier is the
/// physics layer; without a physics identifier no layer is.
pub proof fn law_physics_layer_is_exact_match(layer: Seq<char>, physics: &String)
    ensures
        is_physics_layer(layer, Some(physics)) <==> layer == physics@,
        !is_physics_layer(layer, None),
{
}

/// The first level whose identifier is `level`, the one a loader for
/// `level` loads; `None` where no level has that identifier.
pub fn find_level(identifiers: &Vec<String>, level: &String) -> (r: Option<usize>)
    ensures
        match r {
            Some(i) => i < identifiers@.len() && identifiers@[i as int]@ == level@ && forall|j: int|
                0 <= j < i ==> (#[trigger] identifiers@[j])@ != level@,
            None => forall|j: int| 0 <= j < identifiers@.len() ==> (#[trigger] identifiers@[j])@ != level@,
        },
{
    let mut i: usize = 0;
    while i < identifiers.len()
        invariant
            i <= identifiers@.len(),
            forall|j: int| 0 <= j < i ==> (#[trigger] identifiers@[j])@ != level@,
        decreases identifiers@.len() - i,
    {
        if identifiers[i] == *level {
            return Some(i);
        }
        i += 1;
    }
    None
}

/// How the layers of a level are used: the layer named like the physics
/// layer feeds the colliders, every other layer is loaded as tiles or
/// entities.
pub struct LayerPlan {
    pub loaded: Vec<usize>,
    pub physics: Option<usize>,
}

/// Sorts the layers of a level, given their identifiers, by the physics
/// layer's identifier where one is set. The layers to load keep their
/// order; where several layers match, the last one feeds the colliders.
pub fn plan_level_layers(identifiers: &Vec<String>, physics_identifier: Option<&String>) -> (r: LayerPlan)
    ensures
        r.loaded@ == Seq::new(identifiers@.len(), |i: int| i).filter(
            |i: int| !is_physics_layer(identifiers@[i]@, physics_identifier),
        ).map_values(|i: int| i as usize),
        match r.physics {
            Some(i) => i < identifiers@.len() && is_physics_layer(identifiers@[i as int]@, physics_identifier)
                && forall|j: int|
                i < j < identifiers@.len() ==> !is_physics_layer(
                    (#[trigger] identifiers@[j])@,
                    physics_identifier,
                ),
            None => forall|j: int|
                0 <= j < identifiers@.len() ==> !is_physics_layer(
                    (#[trigger] identifiers@[j])@,
                    physics_identifier,
                ),
        },
        forall|j: int|
            0 <= j < identifiers@.len() && !is_physics_layer((#[trigger] identifiers@[j])@, physics_identifier) ==> r.loaded@.contains(j as usize),
        r.physics matches Some(i) ==> physics_identifier matches Some(p) && identifiers@[i as int]@ == p@,
{
    let mut loaded: Vec<usize> = Vec::new();
    let mut physics: Option<usize> = None;
    let mut i: usize = 0;
    while i < identifiers.len()
        invariant
            i <= identifiers@.len(),
            loaded@ == Seq::new(i as nat, |k: int| k).filter(
                |k: int| !is_physics_layer(identifiers@[k]@, physics_identifier),
            ).map_values(|k: int| k as usize),
            match physics {
                Some(p) => p < i && is_physics_layer(identifiers@[p as int]@, physics_identifier)
                    && forall|j: int| p < j < i ==> !is_physics_layer(
                    (#[trigger] identifiers@[j])@,
                    physics_identifier,
                ),
                None => forall|j: int| 0 <= j < i ==> !is_physics_layer(
                    (#[trigger] identifiers@[j])@,
                    physics_identifier,
                ),
            },
            forall|j: int|
                0 <= j < i && !is_physics_layer((#[trigger] identifiers@[j])@, physics_identifier)
                    ==> loaded@.contains(j as usize),
        decreases identifiers@.len() - i,
    {
        let ghost pred = |k: int| !is_physics_layer(identifiers@[k]@, physics_identifier);
        proof {
            reveal_with_fuel(Seq::<_>::filter, 1);
        }
        let matches = match physics_identifier {
            Some(phy) => identifiers[i] == *phy,
            None => false,
        };
        let ghost before = loaded@;
        assert(forall|w: int| 0 <= w < before.len() ==> loaded@[w] == before[w]);
        if matches {
            physics = Some(i);
        } else {
            loaded.push(i);
        }
        proof {
            assert forall|j: int|
                0 <= j < i + 1 && !is_physics_layer((#[trigger] identifiers@[j])@, physics_identifier)
                    implies loaded@.contains(j as usize) by {
                if j < i {
                    assert(before.contains(j as usize));
                    let w = choose|w: int| 0 <= w < before.len() && before[w] == j as usize;
                    assert(loaded@.len() >= before.len());
                    assert(loaded@[w] == before[w]);
                } else {
                    assert(loaded@[loaded@.len() - 1] == i);
                }
            }
        }
        proof {
            let s = Seq::new((i + 1) as nat, |k: int| k);
            let t = Seq::new(i as nat, |k: int| k);
            assert(s.drop_last() =~= t);
            assert(s.filter(pred) == if pred(i as int) { t.filter(pred).push(i as int) } else { t.filter(pred) });
            if pred(i as int) {
                assert(s.filter(pred).map_values(|k: int| k as usize) =~= t.filter(pred).map_values(|k: int| k as usize).push(i));
            }
        }
        i += 1;
    }
    proof {
        assert(Seq::new(identifiers@.len(), |k: int| k) =~= Seq::new(i as nat, |k: int| k));
    }
    LayerPlan { loaded, physics }
}

/// A layer with identifier `layer` is the physics layer named by
/// `physics_identifier`.
pub open spec fn is_physics_layer(layer: Seq<char>, physics_identifier: Option<&String>) -> bool {
    match physics_identifier {
        Some(phy) => layer == phy@,
        None => false,
    }
}

/// The kinds of LDtk layers.
#[derive(Clone, Copy, Debug, PartialEq, Eq, Structural)]
pub enum LayerType {
    IntGrid,
    Entities,
    Tiles,
    AutoLayer,
}

/// The list of a layer that loading walks through.
#[derive(Clone, Copy, Debug, PartialEq, Eq, Structural)]
pub enum LayerSource {
    /// The layer's auto-layer tiles.
    AutoLayerTiles,
    /// The layer's grid tiles.
    GridTiles,
    /// The layer's entity instances.
    EntityInstances,
}

/// Where a layer's content comes from: integer-grid and auto layers place
/// their auto-layer tiles, tile layers their grid tiles, and entity layers
/// spawn their entity instances.
pub fn layer_source(ty: LayerType) -> (r: LayerSource)
    ensures
        r == match ty {
            LayerType::IntGrid | LayerType::AutoLayer => LayerSource::AutoLayerTiles,
            LayerType::Tiles => LayerSource::GridTiles,
            LayerType::Entities => LayerSource::EntityInstances,
        },
{
    match ty {
        LayerType::IntGrid | LayerType::AutoLayer => LayerSource::AutoLayerTiles,
        LayerType::Entities => LayerSource::EntityInstances,
        LayerType::Tiles => LayerSource::GridTiles,
    }
}

/// What an entity layer spawns, given which of its entities are registered:
/// `Ok(n)` spawns the first `n` entities; `Err(i)` stands for the panic on
/// unregistered entity `i` when unregistered entities are not ignored.
/// Where they are ignored, the layer stops at the first unregistered entity.
pub fn plan_entity_layer(registered: &Vec<bool>, ignore_unregistered: bool) -> (r: Result<usize, usize>)
    ensures
        match r {
            Ok(n) => n <= registered@.len() && (forall|j: int| 0 <= j < n ==> #[trigger] registered@[j])
                && (n < registered@.len() ==> !registered@[n as int] && ignore_unregistered),
            Err(i) => i < registered@.len() && !registered@[i as int] && !ignore_unregistered && forall|j: int|
                0 <= j < i ==> #[trigger] registered@[j],
        },
{
    let mut i: usize = 0;
    while i < registered.len()
        invariant
            i <= registered@.len(),
            forall|j: int| 0 <= j < i ==> #[trigger] registered@[j],
        decreases registered@.len() - i,
    {
        if !registered[i] {
            if ignore_unregistered {
                return Ok(i);
            } else {
                return Err(i);
            }
        }
        i += 1;
    }
    Ok(i)
}

/// What to load for a tileset: the asset path and the sizes of the texture
/// and of its tiles.
pub struct TextureRequest {
    pub path: String,
    pub size: UVec2,
    pub tile_size: UVec2,
}

/// The texture request of a tileset: its relative path behind the asset
/// prefix, its pixel size and its tile grid size, each taken as `u32`;
/// `None` where the tileset has no image.
pub fn texture_request(
    asset_path_prefix: &String,
    rel_path: Option<&String>,
    px_wid: i32,
    px_hei: i32,
    tile_grid_size: i32,
) -> (r: Option<TextureRequest>)
    ensures
        match rel_path {
            None => r is None,
            Some(path) => r matches Some(req) && req.path@ == asset_path_prefix@ + path@ && req.size == (UVec2 {
                x: px_wid as u32,
                y: px_hei as u32,
            }) && req.tile_size == (UVec2 { x: tile_grid_size as u32, y: tile_grid_size as u32 }),
        },
{
    let path = match rel_path {
        Some(path) => path,
        None => return None,
    };
    let mut full = asset_path_prefix.clone();
    full.append(path.as_str());
    Some(TextureRequest {
        path: full,
        size: UVec2 { x: px_wid as u32, y: px_hei as u32 },
        tile_size: UVec2 { x: tile_grid_size as u32, y: tile_grid_size as u32 },
    })
}

} // verus!
