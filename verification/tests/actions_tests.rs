use odyssey_game::actions::{
    Action, Damage, MeleeHit, Paralyze, Pause, PickItem, PlaceBouy, Shoot, Travel,
};
use odyssey_game::components::{Health, Item, Obstacle, Player, PlayerCharacter, Position};
use odyssey_game::vectors::Vector2I;
use odyssey_game::world::{Entity, World};

#[test]
fn damage_is_saturating() {
    let mut world = World::new();
    let e = world.spawn_entity();
    assert!(world.insert_health(e, Health(5)));
    let r = Damage { entity: e, value: 10 }.execute(&mut world);
    assert!(r.is_ok());
    assert_eq!(world.get_health(e).unwrap().0, 0);
}

#[test]
fn damage_subtracts_exactly() {
    let mut world = World::new();
    let e = world.spawn_entity();
    world.insert_health(e, Health(9));
    Damage { entity: e, value: 4 }.execute(&mut world).unwrap();
    assert_eq!(world.get_health(e).unwrap().0, 5);
}

#[test]
fn damage_fails_without_health() {
    let mut world = World::new();
    let e = world.spawn_entity();
    assert!(Damage { entity: e, value: 1 }.execute(&mut world).is_err());
}

#[test]
fn melee_hit_fans_out_per_health_occupant() {
    let mut world = World::new();
    let cell = Vector2I::new(1, 1);
    let attacker = world.spawn_entity();
    world.insert_position(attacker, Position(Vector2I::new(0, 1)));
    let a = world.spawn_entity();
    world.insert_position(a, Position(cell));
    world.insert_health(a, Health(10));
    let b = world.spawn_entity();
    world.insert_position(b, Position(cell));
    world.insert_health(b, Health(10));
    let no_health = world.spawn_entity();
    world.insert_position(no_health, Position(cell));
    let elsewhere = world.spawn_entity();
    world.insert_position(elsewhere, Position(Vector2I::new(2, 2)));
    world.insert_health(elsewhere, Health(10));

    let hit = MeleeHit { entity: attacker, target: cell, value: 4 };
    let followups = hit.execute(&mut world).unwrap();
    assert_eq!(followups.len(), 2);
    assert_eq!(followups[0], Action::Damage(Damage { entity: a, value: 4 }));
    assert_eq!(followups[1], Action::Damage(Damage { entity: b, value: 4 }));
    // the hit itself mutates nothing
    assert_eq!(world.get_health(a).unwrap().0, 10);
    assert_eq!(world.get_health(b).unwrap().0, 10);
}

#[test]
fn melee_hit_on_empty_cell_yields_nothing() {
    let mut world = World::new();
    let attacker = world.spawn_entity();
    let hit = MeleeHit { entity: attacker, target: Vector2I::new(7, 7), value: 4 };
    assert!(hit.execute(&mut world).unwrap().is_empty());
}

#[test]
fn shoot_stops_at_first_obstacle() {
    let mut world = World::new();
    let rock = world.spawn_entity();
    world.insert_position(rock, Position(Vector2I::new(3, 0)));
    world.insert_obstacle(rock, Obstacle);
    let shot = Shoot { source: Vector2I::new(0, 0), dir: Vector2I::new(1, 0), dist: 5, damage: 2 };
    let target = shot.get_target(&world);
    assert_eq!((target.x, target.y), (3, 0));

    let next_id = world.num_entities();
    shot.execute(&mut world).unwrap();
    let projectile = world.get_projectile(Entity(next_id)).unwrap();
    assert_eq!((projectile.target.x, projectile.target.y), (3, 0));
    assert_eq!((projectile.source.x, projectile.source.y), (0, 0));
    assert_eq!(projectile.damage, 2);
}

#[test]
fn shoot_reaches_full_range_unobstructed() {
    let mut world = World::new();
    let shot = Shoot { source: Vector2I::new(0, 0), dir: Vector2I::new(1, 0), dist: 5, damage: 1 };
    let target = shot.get_target(&world);
    assert_eq!((target.x, target.y), (5, 0));
}

#[test]
fn travel_moves_to_target() {
    let mut world = World::new();
    let walker = world.spawn_entity();
    world.insert_position(walker, Position(Vector2I::new(0, 0)));
    Travel { entity: walker, target: Vector2I::new(4, 5) }.execute(&mut world).unwrap();
    assert_eq!(world.get_position(walker).unwrap().0, Vector2I::new(4, 5));
}

#[test]
fn travel_fails_without_position() {
    let mut world = World::new();
    let walker = world.spawn_entity();
    assert!(Travel { entity: walker, target: Vector2I::new(4, 5) }.execute(&mut world).is_err());
}

#[test]
fn travel_score_is_twenty_minus_distance_to_player() {
    let mut world = World::new();
    let pc = world.spawn_entity();
    world.insert_position(pc, Position(Vector2I::new(1, 1)));
    world.insert_player_character(
        pc,
        PlayerCharacter { active_ability: 0, selected_action: None },
    );
    let walker = world.spawn_entity();
    world.insert_position(walker, Position(Vector2I::new(0, 0)));
    let travel = Travel { entity: walker, target: Vector2I::new(3, 3) };
    assert_eq!(travel.score(&world), 16);
    let closer = Travel { entity: walker, target: Vector2I::new(1, 2) };
    assert_eq!(closer.score(&world), 19);
}

#[test]
fn pick_item_consumes_items_here_and_nowhere_else() {
    let mut world = World::new();
    let here = Vector2I::new(2, 3);
    let actor = world.spawn_entity();
    world.insert_position(actor, Position(here));
    let loot_a = world.spawn_entity();
    world.insert_position(loot_a, Position(here));
    world.insert_item(loot_a, Item);
    let loot_b = world.spawn_entity();
    world.insert_position(loot_b, Position(here));
    world.insert_item(loot_b, Item);
    let bystander = world.spawn_entity();
    world.insert_position(bystander, Position(here));
    let far_loot = world.spawn_entity();
    world.insert_position(far_loot, Position(Vector2I::new(9, 9)));
    world.insert_item(far_loot, Item);

    PickItem { entity: actor }.execute(&mut world).unwrap();
    assert!(!world.is_entity_alive(loot_a));
    assert!(!world.is_entity_alive(loot_b));
    assert!(world.is_entity_alive(bystander));
    assert!(world.is_entity_alive(far_loot));
    assert!(world.is_entity_alive(actor));
}

#[test]
fn pick_item_fails_without_position() {
    let mut world = World::new();
    let actor = world.spawn_entity();
    assert!(PickItem { entity: actor }.execute(&mut world).is_err());
}

#[test]
fn stale_target_fails_without_mutation() {
    let mut world = World::new();
    let bystander = world.spawn_entity();
    world.insert_health(bystander, Health(7));
    let victim = world.spawn_entity();
    world.insert_health(victim, Health(5));
    world.despawn_entity(victim);

    assert!(Damage { entity: victim, value: 3 }.execute(&mut world).is_err());
    assert!(Paralyze { target: victim, value: 3 }.execute(&mut world).is_err());
    assert_eq!(world.get_health(bystander).unwrap().0, 7);
    assert!(world.get_health(victim).is_none());
    assert!(world.get_paralyzed(victim).is_none());
}

#[test]
fn paralyze_overwrites_duration() {
    let mut world = World::new();
    let e = world.spawn_entity();
    Paralyze { target: e, value: 2 }.execute(&mut world).unwrap();
    assert_eq!(world.get_paralyzed(e).unwrap().0, 2);
    Paralyze { target: e, value: 5 }.execute(&mut world).unwrap();
    assert_eq!(world.get_paralyzed(e).unwrap().0, 5);
}

#[test]
fn pause_gives_the_player_a_pickup_followup() {
    let mut world = World::new();
    let pc = odyssey_game::player::spawn_player(&mut world);
    let followups = Pause { entity: pc }.execute(&mut world).unwrap();
    assert_eq!(followups.len(), 1);
    assert_eq!(followups[0], Action::PickItem(PickItem { entity: pc }));

    let npc = world.spawn_entity();
    assert!(Pause { entity: npc }.execute(&mut world).unwrap().is_empty());
}

#[test]
fn place_bouy_spawns_an_ally_with_health() {
    let mut world = World::new();
    let cell = Vector2I::new(4, 4);
    let next_id = world.num_entities();
    PlaceBouy { position: cell, health: 3 }.execute(&mut world).unwrap();
    let bouy = Entity(next_id);
    assert!(world.is_entity_alive(bouy));
    assert_eq!(world.get_health(bouy).unwrap().0, 3);
    assert_eq!(world.get_position(bouy).unwrap().0, cell);
    assert!(world.has_player_component(bouy));
    assert_eq!(world.get_name(bouy).unwrap().0, "Buoy");
}

#[test]
fn place_bouy_fails_on_a_blocked_cell() {
    let mut world = World::new();
    let cell = Vector2I::new(4, 4);
    let rock = world.spawn_entity();
    world.insert_position(rock, Position(cell));
    world.insert_obstacle(rock, Obstacle);
    let n = world.num_entities();
    assert!(PlaceBouy { position: cell, health: 3 }.execute(&mut world).is_err());
    assert_eq!(world.num_entities(), n);
}

#[test]
fn melee_score_rewards_hitting_the_players_side() {
    let mut world = World::new();
    let ally = world.spawn_entity();
    world.insert_position(ally, Position(Vector2I::new(2, 2)));
    world.insert_player(ally, Player);
    let attacker = world.spawn_entity();
    let at_ally = MeleeHit { entity: attacker, target: Vector2I::new(2, 2), value: 1 };
    assert_eq!(at_ally.score(&world), 200);
    let at_nothing = MeleeHit { entity: attacker, target: Vector2I::new(8, 8), value: 1 };
    assert_eq!(at_nothing.score(&world), -50);
}

#[test]
fn shoot_score_is_binary_on_hitting_the_player() {
    let mut world = World::new();
    let pc = world.spawn_entity();
    world.insert_position(pc, Position(Vector2I::new(5, 0)));
    world.insert_player_character(
        pc,
        PlayerCharacter { active_ability: 0, selected_action: None },
    );
    let shot = Shoot { source: Vector2I::new(0, 0), dir: Vector2I::new(1, 0), dist: 5, damage: 1 };
    assert_eq!(shot.score(&world), 100);

    let rock = world.spawn_entity();
    world.insert_position(rock, Position(Vector2I::new(2, 0)));
    world.insert_obstacle(rock, Obstacle);
    assert_eq!(shot.score(&world), 0);
}
