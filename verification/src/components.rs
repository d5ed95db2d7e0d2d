use vstd::prelude::*;
use crate::actions::Action;
use crate::vectors::Vector2I;

verus! {

/// Action points available to an actor each turn.
#[derive(Clone, Copy, PartialEq, Eq, Structural, Debug)]
pub struct AP {
    pub max: u32,
    pub current: u32,
}

/// An entity that takes turns in the actor queue.
#[derive(Clone, Copy, PartialEq, Eq, Structural, Debug)]
pub struct Actor {
    pub ap: AP,
}

/// A fixed tile furnishing.
#[derive(Clone, Copy, PartialEq, Eq, Structural, Debug)]
pub struct Fixture;

/// A non-negative hit-point count; floors at zero, never underflows.
#[derive(Clone, Copy, PartialEq, Eq, Structural, Debug)]
pub struct Health(pub u32);

/// Marks an entity as a pickable item.
#[derive(Clone, Copy, PartialEq, Eq, Structural, Debug)]
pub struct Item;

/// Marks a cell as blocking travel and line of fire.
#[derive(Clone, Copy, PartialEq, Eq, Structural, Debug)]
pub struct Obstacle;

/// A ground tile.
#[derive(Clone, Copy, PartialEq, Eq, Structural, Debug)]
pub struct Tile;

/// Blocks the line of sight.
#[derive(Clone, Copy, PartialEq, Eq, Structural, Debug)]
pub struct ViewBlocker;

/// A hazardous whirl on the map.
#[derive(Clone, Copy, PartialEq, Eq, Structural, Debug)]
pub struct Vortex;

/// A display name.
#[derive(Debug)]
pub struct Name(pub String);

/// Marks entities allied with or spawned by the player.
#[derive(Clone, Copy, PartialEq, Eq, Structural, Debug)]
pub struct Player;

/// The single entity driven by player input.
#[derive(Clone, Copy, Debug)]
pub struct PlayerCharacter {
    pub active_ability: usize,
    pub selected_action: Option<Action>,
}

/// A transient status; its carrier must not act while the duration is positive.
#[derive(Clone, Copy, PartialEq, Eq, Structural, Debug)]
pub struct Paralyzed(pub u32);

/// A transient entity spawned by a shot, consumed by downstream systems.
#[derive(Clone, Copy, PartialEq, Eq, Structural, Debug)]
pub struct Projectile {
    pub damage: u32,
    pub source: Vector2I,
    pub target: Vector2I,
}

/// A 2D grid coordinate owned by an entity.
#[derive(Clone, Copy, PartialEq, Eq, Structural, Debug)]
pub struct Position(pub Vector2I);

/// Periodically spawns a named entity.
#[derive(Debug)]
pub struct Spawner {
    pub target: String,
    pub countdown: u32,
}

/// The closed set of components a content pack may attach to a freshly
/// spawned entity by name.
#[derive(Clone, Copy, PartialEq, Eq, Structural, Debug)]
pub enum DataComponentKind {
    Actor,
    Fixture,
    Health,
    Item,
    Obstacle,
    Tile,
    ViewBlocker,
    Vortex,
}

/// The component kind a content-pack name denotes, if any. An unknown
/// name is a fatal load-time error for the loader, never a runtime
/// condition of the engine.
pub open spec fn spec_component_kind(name: Seq<char>) -> Option<DataComponentKind> {
    if name == "Actor"@ {
        Some(DataComponentKind::Actor)
    } else if name == "Fixture"@ {
        Some(DataComponentKind::Fixture)
    } else if name == "Health"@ {
        Some(DataComponentKind::Health)
    } else if name == "Item"@ {
        Some(DataComponentKind::Item)
    } else if name == "Obstacle"@ {
        Some(DataComponentKind::Obstacle)
    } else if name == "Tile"@ {
        Some(DataComponentKind::Tile)
    } else if name == "ViewBlocker"@ {
        Some(DataComponentKind::ViewBlocker)
    } else if name == "Vortex"@ {
        Some(DataComponentKind::Vortex)
    } else {
        None
    }
}

/// Resolve a content-pack component name to its kind.
pub fn data_component_kind(name: &str) -> (r: Option<DataComponentKind>)
    ensures
        r == spec_component_kind(name@),
{
    let owned = name.to_owned();
    if owned == "Actor".to_owned() {
        Some(DataComponentKind::Actor)
    } else if owned == "Fixture".to_owned() {
        Some(DataComponentKind::Fixture)
    } else if owned == "Health".to_owned() {
        Some(DataComponentKind::Health)
    } else if owned == "Item".to_owned() {
        Some(DataComponentKind::Item)
    } else if owned == "Obstacle".to_owned() {
        Some(DataComponentKind::Obstacle)
    } else if owned == "Tile".to_owned() {
        Some(DataComponentKind::Tile)
    } else if owned == "ViewBlocker".to_owned() {
        Some(DataComponentKind::ViewBlocker)
    } else if owned == "Vortex".to_owned() {
        Some(DataComponentKind::Vortex)
    } else {
        None
    }
}

} // verus!
