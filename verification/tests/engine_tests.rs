use odyssey_game::actions::{
    Action, ActorQueue, Damage, MeleeHit, Pause, PendingActions, Travel,
};
use odyssey_game::components::{
    data_component_kind, DataComponentKind, Health, Item, Obstacle, Paralyzed, PlayerCharacter,
    Position,
};
use odyssey_game::events::ActionEvent;
use odyssey_game::player::{player_character_health, spawn_player};
use odyssey_game::scoring::select_action;
use odyssey_game::turns::{can_act, drain, process_next, rotate_turn};
use odyssey_game::vectors::Vector2I;
use odyssey_game::world::{spawn_with_position, World};

#[test]
fn drain_resolves_the_cascade_before_later_actions() {
    let mut world = World::new();
    let cell = Vector2I::new(1, 0);
    let attacker = world.spawn_entity();
    world.insert_position(attacker, Position(Vector2I::new(0, 0)));
    let victim = world.spawn_entity();
    world.insert_position(victim, Position(cell));
    world.insert_health(victim, Health(6));

    let mut pending = PendingActions(vec![
        Action::MeleeHit(MeleeHit { entity: attacker, target: cell, value: 2 }),
        Action::Travel(Travel { entity: attacker, target: Vector2I::new(0, 1) }),
    ]);
    let events = drain(&mut world, &mut pending);
    assert!(pending.0.is_empty());
    // the melee's damage follow-up resolved before the queued travel
    assert_eq!(events.len(), 3);
    assert_eq!(events[0], ActionEvent::Melee(attacker, cell, 2));
    assert_eq!(events[1], ActionEvent::Other);
    assert_eq!(events[2], ActionEvent::Travel(attacker, Vector2I::new(0, 1)));
    assert_eq!(world.get_health(victim).unwrap().0, 4);
    assert_eq!(world.get_position(attacker).unwrap().0, Vector2I::new(0, 1));
}

#[test]
fn process_next_drains_one_action_per_call() {
    let mut world = World::new();
    let walker = world.spawn_entity();
    world.insert_position(walker, Position(Vector2I::new(0, 0)));
    let mut pending = PendingActions(vec![
        Action::Travel(Travel { entity: walker, target: Vector2I::new(1, 0) }),
        Action::Travel(Travel { entity: walker, target: Vector2I::new(2, 0) }),
    ]);
    let ev = process_next(&mut world, &mut pending);
    assert_eq!(ev, Some(ActionEvent::Travel(walker, Vector2I::new(1, 0))));
    assert_eq!(pending.0.len(), 1);
    assert_eq!(world.get_position(walker).unwrap().0, Vector2I::new(1, 0));
    let ev = process_next(&mut world, &mut pending);
    assert_eq!(ev, Some(ActionEvent::Travel(walker, Vector2I::new(2, 0))));
    assert!(pending.0.is_empty());
    assert_eq!(process_next(&mut world, &mut pending), None);
}

#[test]
fn pausing_on_loot_picks_it_up_via_the_cascade() {
    let mut world = World::new();
    let pc = spawn_player(&mut world);
    let loot = world.spawn_entity();
    world.insert_position(loot, Position(Vector2I::new(0, 0)));
    world.insert_item(loot, Item);
    let mut pending = PendingActions(vec![Action::Pause(Pause { entity: pc })]);
    let events = drain(&mut world, &mut pending);
    assert_eq!(events, vec![ActionEvent::Other, ActionEvent::Other]);
    assert!(!world.is_entity_alive(loot));
    assert!(world.is_entity_alive(pc));
}

#[test]
fn failed_actions_are_dropped_and_resolution_continues() {
    let mut world = World::new();
    let ghost_target = world.spawn_entity();
    world.despawn_entity(ghost_target);
    let walker = world.spawn_entity();
    world.insert_position(walker, Position(Vector2I::new(0, 0)));
    let mut pending = PendingActions(vec![
        Action::Damage(Damage { entity: ghost_target, value: 1 }),
        Action::Travel(Travel { entity: walker, target: Vector2I::new(5, 5) }),
    ]);
    let events = drain(&mut world, &mut pending);
    assert_eq!(events, vec![ActionEvent::Travel(walker, Vector2I::new(5, 5))]);
    assert_eq!(world.get_position(walker).unwrap().0, Vector2I::new(5, 5));
}

#[test]
fn selection_prefers_the_first_candidate_on_ties() {
    let mut world = World::new();
    let pc = world.spawn_entity();
    world.insert_position(pc, Position(Vector2I::new(0, 0)));
    world.insert_player_character(
        pc,
        PlayerCharacter { active_ability: 0, selected_action: None },
    );
    let npc = world.spawn_entity();
    world.insert_position(npc, Position(Vector2I::new(3, 3)));
    // both candidates are one step from the player: equal score of 19
    let candidates = vec![
        Action::Travel(Travel { entity: npc, target: Vector2I::new(1, 0) }),
        Action::Travel(Travel { entity: npc, target: Vector2I::new(0, 1) }),
        Action::Travel(Travel { entity: npc, target: Vector2I::new(5, 5) }),
    ];
    for _ in 0..10 {
        assert_eq!(select_action(&world, &candidates), Some(0));
    }
}

#[test]
fn selection_picks_the_highest_utility() {
    let mut world = World::new();
    let pc = world.spawn_entity();
    world.insert_position(pc, Position(Vector2I::new(2, 0)));
    world.insert_player_character(
        pc,
        PlayerCharacter { active_ability: 0, selected_action: None },
    );
    world.insert_player(pc, odyssey_game::components::Player);
    let npc = world.spawn_entity();
    world.insert_position(npc, Position(Vector2I::new(1, 0)));
    let candidates = vec![
        Action::Travel(Travel { entity: npc, target: Vector2I::new(2, 1) }),
        Action::MeleeHit(MeleeHit { entity: npc, target: Vector2I::new(2, 0), value: 1 }),
        Action::MeleeHit(MeleeHit { entity: npc, target: Vector2I::new(2, 0), value: 2 }),
    ];
    // the first melee aimed at the player's cell wins with score 200
    assert_eq!(select_action(&world, &candidates), Some(1));
}

#[test]
fn selection_on_no_candidates_is_none() {
    let world = World::new();
    assert_eq!(select_action(&world, &Vec::new()), None);
}

#[test]
fn rotation_is_round_robin_and_ticks_paralysis_down() {
    let mut world = World::new();
    let first = world.spawn_entity();
    let second = world.spawn_entity();
    world.insert_paralyzed(first, Paralyzed(2));
    let mut queue = ActorQueue(vec![first, second]);

    assert!(!can_act(&world, first));
    assert!(can_act(&world, second));

    rotate_turn(&mut world, &mut queue);
    assert_eq!(queue.0, vec![second, first]);
    assert_eq!(world.get_paralyzed(first).unwrap().0, 1);

    rotate_turn(&mut world, &mut queue);
    assert_eq!(queue.0, vec![first, second]);

    rotate_turn(&mut world, &mut queue);
    assert_eq!(queue.0, vec![second, first]);
    assert!(world.get_paralyzed(first).is_none());
    assert!(can_act(&world, first));
}

#[test]
fn rotation_drops_a_despawned_actor() {
    let mut world = World::new();
    let gone = world.spawn_entity();
    let stays = world.spawn_entity();
    world.despawn_entity(gone);
    let mut queue = ActorQueue(vec![gone, stays]);
    rotate_turn(&mut world, &mut queue);
    assert_eq!(queue.0, vec![stays]);
    rotate_turn(&mut world, &mut queue);
    assert_eq!(queue.0, vec![stays]);
}

#[test]
fn current_actor_is_the_front_of_the_queue() {
    let mut world = World::new();
    let a = world.spawn_entity();
    let b = world.spawn_entity();
    let queue = ActorQueue(vec![a, b]);
    assert_eq!(queue.current_actor(), Some(a));
    assert_eq!(ActorQueue::new().current_actor(), None);
    let _ = world;
}

#[test]
fn spawn_with_position_names_and_places() {
    let mut world = World::new();
    let cell = Vector2I::new(1, 2);
    let e = spawn_with_position(&mut world, "Crate", cell).unwrap();
    assert_eq!(world.get_name(e).unwrap().0, "Crate");
    assert_eq!(world.get_position(e).unwrap().0, cell);

    let rock = world.spawn_entity();
    world.insert_position(rock, Position(cell));
    world.insert_obstacle(rock, Obstacle);
    assert!(spawn_with_position(&mut world, "Crate", cell).is_none());
}

#[test]
fn spawned_player_carries_the_player_state() {
    let mut world = World::new();
    let pc = spawn_player(&mut world);
    assert!(world.is_entity_alive(pc));
    assert_eq!(world.get_name(pc).unwrap().0, "Player");
    assert_eq!(world.get_position(pc).unwrap().0, Vector2I::new(0, 0));
    assert!(world.has_player_component(pc));
    let state = world.get_player_character(pc).unwrap();
    assert_eq!(state.active_ability, 0);
    assert!(state.selected_action.is_none());

    assert!(player_character_health(&world).is_none());
    world.insert_health(pc, Health(12));
    assert_eq!(player_character_health(&world).unwrap().0, 12);
}

#[test]
fn component_names_resolve_to_their_kinds() {
    assert_eq!(data_component_kind("Actor"), Some(DataComponentKind::Actor));
    assert_eq!(data_component_kind("Fixture"), Some(DataComponentKind::Fixture));
    assert_eq!(data_component_kind("Health"), Some(DataComponentKind::Health));
    assert_eq!(data_component_kind("Item"), Some(DataComponentKind::Item));
    assert_eq!(data_component_kind("Obstacle"), Some(DataComponentKind::Obstacle));
    assert_eq!(data_component_kind("Tile"), Some(DataComponentKind::Tile));
    assert_eq!(data_component_kind("ViewBlocker"), Some(DataComponentKind::ViewBlocker));
    assert_eq!(data_component_kind("Vortex"), Some(DataComponentKind::Vortex));
    assert_eq!(data_component_kind("Spawner"), None);
    assert_eq!(data_component_kind(""), None);
}

#[test]
fn manhattan_distance_is_symmetric_here() {
    let a = Vector2I::new(-2, 3);
    let b = Vector2I::new(4, -1);
    assert_eq!(a.manhattan(b), 10);
    assert_eq!(b.manhattan(a), 10);
    assert_eq!(a.manhattan(a), 0);
}
