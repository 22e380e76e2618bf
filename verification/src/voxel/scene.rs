use vstd::prelude::*;
use bevy::ecs::entity::Entity;
use bevy::ecs::system::Commands;

verus! {

/// `Commands` of `bevy::ecs`: the command queue of the scene graph. The
/// library hands it on and never looks inside it.
#[verifier::external_type_specification]
#[verifier::external_body]
pub struct ExCommands<'w, 's>(Commands<'w, 's>);

/// `Commands::spawn_empty`, then `EntityCommands::id`: a new entity without
/// components is queued and its handle returned. Which handle comes back is
/// the scene graph's choice; nothing is claimed of it.
#[verifier::external_body]
pub(crate) fn spawn_empty(commands: &mut Commands) -> (entity: Entity) {
    commands.spawn_empty().id()
}

} // verus!
