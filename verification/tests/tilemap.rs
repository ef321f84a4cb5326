use bevy::ecs::entity::Entity;
use bevy::ecs::system::{CommandQueue, Commands};
use bevy::ecs::world::World;
use bevy_entitiles::math::{FillArea, IVec2, UVec2};
use bevy_entitiles::tilemap::map::{set_usage_step, TextureUsageStep, Tilemap, TilemapBuilder, TilemapPattern};
use bevy_entitiles::tilemap::tile::{BuildTile, TileFlip, TileType};

struct SpawnTile;

impl BuildTile for SpawnTile {
    fn spawned(&self, _index: UVec2, _tile: Entity) -> bool {
        true
    }

    fn build(&self, commands: &mut Commands, _index: UVec2, _tilemap: &Tilemap) -> Entity {
        commands.spawn_empty().id()
    }
}

fn uv(x: u32, y: u32) -> UVec2 {
    UVec2 { x, y }
}

fn area(ox: u32, oy: u32, dx: u32, dy: u32) -> FillArea {
    FillArea { origin: uv(ox, oy), dest: uv(dx, dy) }
}

fn new_map(world: &mut World, w: u32, h: u32) -> (Entity, Tilemap) {
    let mut queue = CommandQueue::default();
    let built = {
        let mut commands = Commands::new(&mut queue, world);
        TilemapBuilder::new(TileType::Square, uv(w, h), "map".to_string()).build(&mut commands)
    };
    queue.apply(world);
    built
}

fn with_commands<R>(world: &mut World, f: impl FnOnce(&mut Commands) -> R) -> R {
    let mut queue = CommandQueue::default();
    let r = {
        let mut commands = Commands::new(&mut queue, world);
        f(&mut commands)
    };
    queue.apply(world);
    r
}

fn occupied(map: &Tilemap) -> Vec<bool> {
    map.tiles.iter().map(|t| t.is_some()).collect()
}

#[test]
fn builder_defaults() {
    let b = TilemapBuilder::new(TileType::IsometricDiamond, uv(5, 7), "level".to_string());
    assert_eq!(b.name, "level");
    assert_eq!(b.tile_type, TileType::IsometricDiamond);
    assert_eq!(b.size, uv(5, 7));
    assert_eq!(b.render_chunk_size, 32);
    assert_eq!(b.z_order, 10);
    assert_eq!(b.flip, 0);
}

#[test]
fn builder_overrides_chain() {
    let mut b = TilemapBuilder::new(TileType::Square, uv(2, 2), "m".to_string());
    b.with_z_order(-3).with_render_chunk_size(16).with_flip(TileFlip::Horizontal);
    assert_eq!(b.z_order, -3);
    assert_eq!(b.render_chunk_size, 16);
    assert_eq!(b.flip, 1);
    b.with_flip(TileFlip::Vertical);
    assert_eq!(b.flip, 3);
}

#[test]
fn flip_bits_and_laws() {
    assert_eq!(TileFlip::Horizontal.bits(), 1);
    assert_eq!(TileFlip::Vertical.bits(), 2);
    assert_eq!(TileFlip::Both.bits(), 3);
    let mut once = TilemapBuilder::new(TileType::Square, uv(1, 1), "a".to_string());
    once.with_flip(TileFlip::Vertical);
    let mut twice = TilemapBuilder::new(TileType::Square, uv(1, 1), "a".to_string());
    twice.with_flip(TileFlip::Vertical).with_flip(TileFlip::Vertical);
    assert_eq!(once.flip, twice.flip);
    let mut hv = TilemapBuilder::new(TileType::Square, uv(1, 1), "a".to_string());
    hv.with_flip(TileFlip::Horizontal).with_flip(TileFlip::Vertical);
    let mut vh = TilemapBuilder::new(TileType::Square, uv(1, 1), "a".to_string());
    vh.with_flip(TileFlip::Vertical).with_flip(TileFlip::Horizontal);
    assert_eq!(hv.flip, vh.flip);
    assert_eq!(hv.flip, TileFlip::Both.bits());
}

#[test]
fn build_lays_out_empty_grid() {
    let mut world = World::new();
    let (id, map) = new_map(&mut world, 4, 3);
    assert_eq!(map.id(), id);
    assert_eq!(map.name(), "map");
    assert_eq!(map.size, uv(4, 3));
    assert_eq!(map.tiles.len(), 12);
    assert!(map.tiles.iter().all(|t| t.is_none()));
    assert!(world.get_entity(id).is_some());
}

#[test]
fn linear_index_is_row_major() {
    let mut world = World::new();
    let (_, map) = new_map(&mut world, 4, 3);
    assert_eq!(map.grid_index_to_linear_index(uv(0, 0)), 0);
    assert_eq!(map.grid_index_to_linear_index(uv(3, 0)), 3);
    assert_eq!(map.grid_index_to_linear_index(uv(0, 1)), 4);
    assert_eq!(map.grid_index_to_linear_index(uv(2, 2)), 10);
}

#[test]
fn out_of_tilemap_checks() {
    let mut world = World::new();
    let (_, map) = new_map(&mut world, 4, 3);
    assert!(!map.is_out_of_tilemap_uvec(uv(3, 2)));
    assert!(map.is_out_of_tilemap_uvec(uv(4, 0)));
    assert!(map.is_out_of_tilemap_uvec(uv(0, 3)));
    assert!(!map.is_out_of_tilemap_ivec(IVec2 { x: 3, y: 2 }));
    assert!(map.is_out_of_tilemap_ivec(IVec2 { x: -1, y: 0 }));
    assert!(map.is_out_of_tilemap_ivec(IVec2 { x: 0, y: -1 }));
    assert!(map.is_out_of_tilemap_ivec(IVec2 { x: 4, y: 0 }));
    assert!(map.is_out_of_tilemap_ivec(IVec2 { x: 0, y: 3 }));
}

#[test]
fn ivec_check_with_width_beyond_i32() {
    let map = Tilemap {
        id: Entity::from_raw(0),
        name: String::new(),
        tile_type: TileType::Square,
        size: uv(3_000_000_000, 1),
        render_chunk_size: 32,
        tiles: Vec::new(),
        flip: 0,
        z_order: 0,
    };
    // 3_000_000_000 as i32 is negative, so every column compares as out of the map.
    assert!(map.is_out_of_tilemap_ivec(IVec2 { x: 5, y: 0 }));
    assert!(!map.is_out_of_tilemap_uvec(uv(5, 0)));
}

#[test]
fn set_then_get() {
    let mut world = World::new();
    let (_, mut map) = new_map(&mut world, 4, 3);
    with_commands(&mut world, |c| map.set(c, uv(1, 2), &SpawnTile));
    let tile = map.get(uv(1, 2)).expect("tile was set");
    assert!(world.get_entity(tile).is_some());
    assert_eq!(map.tiles[9], Some(tile));
    assert_eq!(occupied(&map).iter().filter(|b| **b).count(), 1);
    assert_eq!(map.get(uv(2, 1)), None);
}

#[test]
fn set_out_of_range_does_nothing() {
    let mut world = World::new();
    let (_, mut map) = new_map(&mut world, 4, 3);
    with_commands(&mut world, |c| map.set(c, uv(4, 0), &SpawnTile));
    with_commands(&mut world, |c| map.set(c, uv(0, 3), &SpawnTile));
    assert!(map.tiles.iter().all(|t| t.is_none()));
    assert_eq!(map.get(uv(4, 0)), None);
}

#[test]
fn set_replaces_and_despawns_previous() {
    let mut world = World::new();
    let (_, mut map) = new_map(&mut world, 2, 2);
    with_commands(&mut world, |c| map.set(c, uv(1, 1), &SpawnTile));
    let first = map.get(uv(1, 1)).unwrap();
    with_commands(&mut world, |c| map.set(c, uv(1, 1), &SpawnTile));
    let second = map.get(uv(1, 1)).unwrap();
    assert_ne!(first, second);
    assert!(world.get_entity(first).is_none());
    assert!(world.get_entity(second).is_some());
}

#[test]
fn remove_then_get() {
    let mut world = World::new();
    let (_, mut map) = new_map(&mut world, 3, 3);
    with_commands(&mut world, |c| map.set(c, uv(0, 1), &SpawnTile));
    with_commands(&mut world, |c| map.set(c, uv(2, 2), &SpawnTile));
    let removed = map.get(uv(0, 1)).unwrap();
    let kept = map.get(uv(2, 2)).unwrap();
    with_commands(&mut world, |c| map.remove(c, uv(0, 1)));
    assert_eq!(map.get(uv(0, 1)), None);
    assert_eq!(map.get(uv(2, 2)), Some(kept));
    assert!(world.get_entity(removed).is_none());
    // Removing an empty cell or a cell outside the map changes nothing.
    with_commands(&mut world, |c| map.remove(c, uv(0, 1)));
    with_commands(&mut world, |c| map.remove(c, uv(7, 7)));
    assert_eq!(occupied(&map), vec![false, false, false, false, false, false, false, false, true]);
}

#[test]
fn update_asks_for_layer_edit() {
    let mut world = World::new();
    let (_, mut map) = new_map(&mut world, 2, 2);
    with_commands(&mut world, |c| map.set(c, uv(1, 0), &SpawnTile));
    let tile = map.get(uv(1, 0)).unwrap();
    let set = map.update(uv(1, 0), 2, Some(7)).unwrap();
    assert_eq!((set.tile, set.target, set.value, set.is_remove), (tile, 2, 7, false));
    let clear = map.update(uv(1, 0), 1, None).unwrap();
    assert_eq!((clear.tile, clear.target, clear.value, clear.is_remove), (tile, 1, 0, true));
    assert!(map.update(uv(0, 0), 0, Some(1)).is_none());
    assert!(map.update(uv(5, 0), 0, Some(1)).is_none());
}

#[test]
fn fill_rect_covers_area_only() {
    let mut world = World::new();
    let (_, mut map) = new_map(&mut world, 4, 3);
    with_commands(&mut world, |c| map.fill_rect(c, area(1, 0, 2, 1), &SpawnTile));
    assert_eq!(
        occupied(&map),
        vec![false, true, true, false, false, true, true, false, false, false, false, false]
    );
}

#[test]
fn fill_rect_empty_area_does_nothing() {
    let mut world = World::new();
    let (_, mut map) = new_map(&mut world, 4, 3);
    with_commands(&mut world, |c| map.fill_rect(c, area(2, 0, 1, 2), &SpawnTile));
    with_commands(&mut world, |c| map.fill_rect(c, area(0, 2, 3, 1), &SpawnTile));
    assert!(map.tiles.iter().all(|t| t.is_none()));
}

#[test]
fn fill_rect_custom_passes_indices() {
    let mut world = World::new();
    let (_, mut map) = new_map(&mut world, 3, 3);
    let seen = std::cell::RefCell::new(Vec::new());
    with_commands(&mut world, |c| {
        map.fill_rect_custom(
            c,
            area(1, 1, 2, 2),
            |i| {
                seen.borrow_mut().push(i);
                SpawnTile
            },
            true,
        )
    });
    assert_eq!(seen.into_inner(), vec![uv(0, 0), uv(1, 0), uv(0, 1), uv(1, 1)]);
    assert_eq!(occupied(&map), vec![false, false, false, false, true, true, false, true, true]);
    let absolute = std::cell::RefCell::new(Vec::new());
    with_commands(&mut world, |c| {
        map.fill_rect_custom(
            c,
            area(0, 0, 0, 1),
            |i| {
                absolute.borrow_mut().push(i);
                SpawnTile
            },
            false,
        )
    });
    assert_eq!(absolute.into_inner(), vec![uv(0, 0), uv(0, 1)]);
}

#[test]
fn update_rect_row_major() {
    let mut world = World::new();
    let (_, mut map) = new_map(&mut world, 3, 2);
    with_commands(&mut world, |c| map.fill_rect(c, area(0, 0, 2, 1), &SpawnTile));
    let edits = map.update_rect(area(1, 0, 2, 1), 4, Some(9));
    let tiles: Vec<Entity> = edits.iter().map(|e| e.tile).collect();
    assert_eq!(
        tiles,
        vec![
            map.get(uv(1, 0)).unwrap(),
            map.get(uv(2, 0)).unwrap(),
            map.get(uv(1, 1)).unwrap(),
            map.get(uv(2, 1)).unwrap()
        ]
    );
    assert!(edits.iter().all(|e| e.target == 4 && e.value == 9 && !e.is_remove));
    assert!(map.update_rect(area(2, 0, 1, 1), 0, None).is_empty());
}

#[test]
fn update_rect_custom_uses_closure() {
    let mut world = World::new();
    let (_, mut map) = new_map(&mut world, 3, 2);
    with_commands(&mut world, |c| map.fill_rect(c, area(0, 0, 2, 1), &SpawnTile));
    let edits = map.update_rect_custom(
        area(1, 0, 2, 1),
        0,
        |i| if i.x == 0 { None } else { Some(i.x + 10 * i.y) },
        true,
    );
    let values: Vec<(u32, bool)> = edits.iter().map(|e| (e.value, e.is_remove)).collect();
    assert_eq!(values, vec![(0, true), (1, false), (0, true), (11, false)]);
    let edits = map.update_rect_custom(area(1, 1, 1, 1), 0, |i| Some(i.x + 10 * i.y), false);
    assert_eq!(edits.len(), 1);
    assert_eq!(edits[0].value, 11);
    assert_eq!(edits[0].tile, map.get(uv(1, 1)).unwrap());
}

#[test]
fn set_all_follows_pattern() {
    let mut world = World::new();
    let (_, mut map) = new_map(&mut world, 2, 2);
    with_commands(&mut world, |c| map.set(c, uv(1, 0), &SpawnTile));
    let old = map.get(uv(1, 0)).unwrap();
    let pattern = vec![Some(SpawnTile), None, None, Some(SpawnTile)];
    with_commands(&mut world, |c| map.set_all(c, &pattern));
    assert_eq!(occupied(&map), vec![true, false, false, true]);
    assert!(world.get_entity(old).is_none());
}

#[test]
fn delete_despawns_everything() {
    let mut world = World::new();
    let (id, mut map) = new_map(&mut world, 2, 2);
    with_commands(&mut world, |c| map.fill_rect(c, area(0, 0, 1, 0), &SpawnTile));
    let tiles: Vec<Entity> = map.tiles.iter().flatten().copied().collect();
    assert_eq!(tiles.len(), 2);
    with_commands(&mut world, |c| map.delete(c));
    assert!(world.get_entity(id).is_none());
    assert!(tiles.iter().all(|t| world.get_entity(*t).is_none()));
    assert_eq!(occupied(&map), vec![true, true, false, false]);
}

#[test]
fn pattern_get_reads_row_major() {
    let pattern = TilemapPattern { size: uv(2, 2), tiles: vec![Some(1u8), None, Some(3), Some(4)] };
    assert_eq!(pattern.get(uv(0, 0)), Some(&1));
    assert_eq!(pattern.get(uv(1, 0)), None);
    assert_eq!(pattern.get(uv(0, 1)), Some(&3));
    assert_eq!(pattern.get(uv(1, 1)), Some(&4));
}

#[test]
fn cells_read_the_stored_tiles() {
    let mut world = World::new();
    let (_, mut map) = new_map(&mut world, 3, 2);
    with_commands(&mut world, |c| map.set(c, uv(2, 0), &SpawnTile));
    with_commands(&mut world, |c| map.set(c, uv(0, 1), &SpawnTile));
    let mut read = Vec::new();
    for y in 0..2 {
        for x in 0..3 {
            read.push(map.get(uv(x, y)));
        }
    }
    assert_eq!(read, map.tiles);
}

struct CountingTile<'a> {
    calls: &'a std::cell::Cell<u32>,
}

impl<'a> BuildTile for CountingTile<'a> {
    fn spawned(&self, _index: UVec2, _tile: Entity) -> bool {
        true
    }

    fn build(&self, commands: &mut Commands, _index: UVec2, _tilemap: &Tilemap) -> Entity {
        self.calls.set(self.calls.get() + 1);
        commands.spawn_empty().id()
    }
}

#[test]
fn set_out_of_range_builds_and_queues_nothing() {
    let mut world = World::new();
    let (_, mut map) = new_map(&mut world, 2, 2);
    with_commands(&mut world, |c| map.set(c, uv(0, 0), &SpawnTile));
    let before = world.entities().len();
    let calls = std::cell::Cell::new(0);
    with_commands(&mut world, |c| map.set(c, uv(2, 0), &CountingTile { calls: &calls }));
    assert_eq!(calls.get(), 0);
    assert_eq!(world.entities().len(), before);
    with_commands(&mut world, |c| map.set(c, uv(1, 1), &CountingTile { calls: &calls }));
    assert_eq!(calls.get(), 1);
}

#[test]
fn remove_undoes_set_and_despawns_the_tile() {
    let mut world = World::new();
    let (_, mut map) = new_map(&mut world, 3, 2);
    with_commands(&mut world, |c| map.set(c, uv(0, 0), &SpawnTile));
    let t0 = map.tiles.clone();
    let count = world.entities().len();
    with_commands(&mut world, |c| map.set(c, uv(2, 1), &SpawnTile));
    let placed = map.get(uv(2, 1)).unwrap();
    with_commands(&mut world, |c| map.remove(c, uv(2, 1)));
    assert_eq!(map.tiles, t0);
    assert!(world.get_entity(placed).is_none());
    assert_eq!(world.entities().len(), count);
}

#[test]
fn map_keeps_its_id_through_operations() {
    let mut world = World::new();
    let (id, mut map) = new_map(&mut world, 3, 3);
    with_commands(&mut world, |c| map.set(c, uv(1, 1), &SpawnTile));
    with_commands(&mut world, |c| map.fill_rect(c, area(0, 0, 2, 0), &SpawnTile));
    with_commands(&mut world, |c| map.remove(c, uv(1, 1)));
    with_commands(&mut world, |c| map.set_all(c, &vec![None, Some(SpawnTile), None, None, None, None, None, None, None]));
    assert_eq!(map.id(), id);
    assert_eq!(map.name(), "map");
    assert_eq!(map.size, uv(3, 3));
}

#[test]
fn fill_rect_despawns_replaced_tiles() {
    let mut world = World::new();
    let (_, mut map) = new_map(&mut world, 3, 1);
    with_commands(&mut world, |c| map.fill_rect(c, area(0, 0, 2, 0), &SpawnTile));
    let old: Vec<Entity> = map.tiles.iter().flatten().copied().collect();
    with_commands(&mut world, |c| map.fill_rect(c, area(1, 0, 2, 0), &SpawnTile));
    assert!(world.get_entity(old[0]).is_some());
    assert!(world.get_entity(old[1]).is_none());
    assert!(world.get_entity(old[2]).is_none());
    assert_eq!(map.get(uv(0, 0)), Some(old[0]));
    assert_ne!(map.get(uv(1, 0)), Some(old[1]));
}

#[test]
fn texture_usage_steps() {
    assert_eq!(set_usage_step(false, None, 1), TextureUsageStep::RemoveMarker);
    assert_eq!(set_usage_step(true, None, 1), TextureUsageStep::Wait);
    assert_eq!(set_usage_step(true, Some(0b100), 0b1), TextureUsageStep::SetUsageThenRemoveMarker(0b101));
    assert_eq!(set_usage_step(true, Some(0b101), 0b1), TextureUsageStep::RemoveMarker);
}
