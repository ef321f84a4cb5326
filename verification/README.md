# bevy_entitiles (verified core)

Tile maps for the bevy engine, with the grid logic proved in Verus.

- `src/math.rs`: grid coordinates, rectangular areas, row-major cell numbering and its lemmas.
- `src/ecs.rs`: bevy's `Entity` and `Commands` as Verus sees them, and the two command calls the map makes.
- `src/tilemap/`: the tile map (get, set, remove, area fills, layer edits, deletion), its builder, tile patterns, and the laws that relate these operations.
- `src/serializing/ldtk.rs`: which LDtk level a loader picks and where each level is placed.
- `app/`: components, `f32` tile geometry and the insertion of layer edits, which Verus does not check.
