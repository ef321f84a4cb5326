//! The two bevy ECS items the tile map works with: entity ids and the
//! deferred command buffer.
use vstd::prelude::*;
use bevy::ecs::entity::Entity;
use bevy::ecs::system::{Commands, Despawn};

verus! {

/// Declares bevy's `Entity` (a generation/index pair) as an opaque value
/// that the tile map stores and hands back.
#[verifier::external_type_specification]
#[verifier::external_body]
pub struct ExEntity(bevy::ecs::entity::Entity);

/// Declares bevy's `Commands`, the per-system queue of world edits.
#[verifier::external_type_specification]
#[verifier::external_body]
pub struct ExCommands<'w, 's>(bevy::ecs::system::Commands<'w, 's>);

/// The entities named by the despawn commands queued in `commands`, in the
/// order in which they were queued.
pub uninterp spec fn queued_despawns(commands: Commands) -> Seq<Entity>;

/// Calls `Commands::spawn_empty` and then `EntityCommands::id`: reserves a
/// fresh entity id, which the world spawns when the queue is applied.
/// Reserving pushes no command, so the queued despawns stay as they were.
/// Which id comes back depends on the world's allocator and is not stated.
#[verifier::external_body]
pub fn spawn_empty(commands: &mut Commands) -> (e: Entity)
    ensures
        queued_despawns(*final(commands)) == queued_despawns(*old(commands)),
{
    commands.spawn_empty().id()
}

/// Calls `Commands::add` with bevy's `Despawn` command for `e`: appends a
/// despawn of `e` to the queue. When the queue is applied the world
/// despawns `e`, or logs a warning where `e` no longer exists.
#[verifier::external_body]
pub fn despawn(commands: &mut Commands, e: Entity)
    ensures
        queued_despawns(*final(commands)) == queued_despawns(*old(commands)).push(e),
{
    commands.add(Despawn { entity: e });
}

} // verus!
