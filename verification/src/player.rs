use vstd::prelude::*;
use crate::components::{Health, Player, PlayerCharacter, Position};
use crate::vectors::Vector2I;
use crate::world::{spawn_with_position, Entity, EntitySlot, World};

verus! {

/// Spawn the player character at the origin: a named, positioned entity
/// carrying the player tag and the player-character state. The caller
/// must hand over an origin that no obstacle blocks; a game cannot
/// start without its player character.
pub fn spawn_player(world: &mut World) -> (e: Entity)
    requires
        old(world).wf(),
        !old(world).blocked_at(0, 0),
    ensures
        final(world).wf(),
        e.0 == old(world).n(),
        final(world).n() == old(world).n() + 1,
        forall|j: int| 0 <= j < old(world).n() ==> final(world).slot(j) == old(world).slot(j),
        final(world).slot(e.0 as int).name matches Some(nm) && nm.0@ == "Player"@,
        final(world).slot(e.0 as int) == (EntitySlot {
            name: final(world).slot(e.0 as int).name,
            position: Some(Position(Vector2I { x: 0, y: 0 })),
            player: Some(Player),
            player_character: Some(
                PlayerCharacter { active_ability: 0, selected_action: None },
            ),
            ..crate::world::spec_live_slot()
        }),
{
    let origin = Vector2I::new(0, 0);
    let spawned = spawn_with_position(world, "Player", origin);
    let e = match spawned {
        Some(e) => e,
        None => {
            proof {
                assert(false);
            }
            Entity(0)
        },
    };
    let _inserted_player = world.insert_player(e, Player);
    let _inserted_pc = world.insert_player_character(
        e,
        PlayerCharacter { active_ability: 0, selected_action: None },
    );
    e
}

/// The hit points of the player character: the first entity, in identity
/// order, that carries both a player-character and a health component.
pub fn player_character_health(world: &World) -> (r: Option<Health>)
    ensures
        r matches Some(h) ==> exists|e: int|
            {
                &&& #[trigger] world.has_player_character(e)
                &&& world.is_alive(e)
                &&& world.health_of(e) == Some(h)
            },
        r is None ==> forall|e: int|
            !(#[trigger] world.has_player_character(e) && world.is_alive(e) && world.health_of(e)
                is Some),
{
    let mut i: usize = 0;
    let n = world.num_entities();
    while i < n
        invariant
            n == world.n(),
            i <= n,
            forall|e: int|
                0 <= e < i ==> !(#[trigger] world.has_player_character(e) && world.is_alive(e)
                    && world.health_of(e) is Some),
        decreases n - i,
    {
        let e = Entity(i);
        if world.is_entity_alive(e) && world.has_player_character_component(e) {
            if let Some(h) = world.get_health(e) {
                proof {
                    assert(world.has_player_character(i as int));
                }
                return Some(h);
            }
        }
        i += 1;
    }
    None
}

} // verus!
