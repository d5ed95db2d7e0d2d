use vstd::prelude::*;
use crate::components::{
    Actor, Fixture, Health, Item, Name, Obstacle, Paralyzed, Player, PlayerCharacter, Position,
    Projectile, Spawner, Tile, ViewBlocker, Vortex,
};
use crate::vectors::Vector2I;

verus! {

/// Opaque identity of a game object, issued by the store on spawn and
/// invalidated on despawn. Identities are never reused.
#[derive(Clone, Copy, PartialEq, Eq, Structural, Debug)]
pub struct Entity(pub usize);

/// The components an entity may carry. A dead slot carries none.
pub struct EntitySlot {
    pub alive: bool,
    pub actor: Option<Actor>,
    pub fixture: Option<Fixture>,
    pub health: Option<Health>,
    pub item: Option<Item>,
    pub obstacle: Option<Obstacle>,
    pub tile: Option<Tile>,
    pub view_blocker: Option<ViewBlocker>,
    pub vortex: Option<Vortex>,
    pub name: Option<Name>,
    pub player: Option<Player>,
    pub player_character: Option<PlayerCharacter>,
    pub paralyzed: Option<Paralyzed>,
    pub projectile: Option<Projectile>,
    pub position: Option<Position>,
    pub spawner: Option<Spawner>,
}

impl EntitySlot {
    /// True when the slot carries no component at all.
    pub open spec fn no_components(self) -> bool {
        &&& self.actor is None
        &&& self.fixture is None
        &&& self.health is None
        &&& self.item is None
        &&& self.obstacle is None
        &&& self.tile is None
        &&& self.view_blocker is None
        &&& self.vortex is None
        &&& self.name is None
        &&& self.player is None
        &&& self.player_character is None
        &&& self.paralyzed is None
        &&& self.projectile is None
        &&& self.position is None
        &&& self.spawner is None
    }
}

/// The slot of a freshly spawned entity: alive and empty.
pub open spec fn spec_live_slot() -> EntitySlot {
    EntitySlot {
        alive: true,
        actor: None,
        fixture: None,
        health: None,
        item: None,
        obstacle: None,
        tile: None,
        view_blocker: None,
        vortex: None,
        name: None,
        player: None,
        player_character: None,
        paralyzed: None,
        projectile: None,
        position: None,
        spawner: None,
    }
}

/// The slot of a despawned entity: dead and empty.
pub open spec fn spec_dead_slot() -> EntitySlot {
    EntitySlot { alive: false, ..spec_live_slot() }
}

fn make_slot(alive: bool) -> (s: EntitySlot)
    ensures
        s == (EntitySlot { alive, ..spec_live_slot() }),
{
    EntitySlot {
        alive,
        actor: None,
        fixture: None,
        health: None,
        item: None,
        obstacle: None,
        tile: None,
        view_blocker: None,
        vortex: None,
        name: None,
        player: None,
        player_character: None,
        paralyzed: None,
        projectile: None,
        position: None,
        spawner: None,
    }
}

/// The entity store: one slot per identity ever issued.
pub struct World {
    pub slots: Vec<EntitySlot>,
}

/// The two stores agree on every slot but `e`.
pub open spec fn same_except(w0: World, w1: World, e: int) -> bool {
    &&& w1.n() == w0.n()
    &&& forall|j: int| 0 <= j < w0.n() && j != e ==> w1.slot(j) == w0.slot(j)
}

/// Well-formedness survives any change that leaves the touched slot alive.
pub proof fn lemma_wf_preserved(w0: World, w1: World, e: int)
    requires
        w0.wf(),
        same_except(w0, w1, e),
        w1.in_range(e) ==> w1.slot(e).alive,
    ensures
        w1.wf(),
{
    assert forall|j: int|
        w1.in_range(j) && !(#[trigger] w1.slot(j)).alive implies w1.slot(j).no_components() by {
        assert(w1.slot(j) == w0.slot(j));
    }
}

impl World {
    /// Number of identities ever issued.
    pub open spec fn n(self) -> int {
        self.slots@.len() as int
    }

    pub open spec fn in_range(self, e: int) -> bool {
        0 <= e < self.n()
    }

    pub open spec fn slot(self, e: int) -> EntitySlot {
        self.slots@[e]
    }

    pub open spec fn is_alive(self, e: int) -> bool {
        self.in_range(e) && self.slot(e).alive
    }

    /// Store invariant: a despawned or never-issued slot carries no components.
    pub open spec fn wf(self) -> bool {
        forall|e: int|
            self.in_range(e) && !(#[trigger] self.slot(e)).alive ==> self.slot(e).no_components()
    }

    pub open spec fn health_of(self, e: int) -> Option<Health> {
        if self.in_range(e) {
            self.slot(e).health
        } else {
            None
        }
    }

    pub open spec fn position_of(self, e: int) -> Option<Position> {
        if self.in_range(e) {
            self.slot(e).position
        } else {
            None
        }
    }

    pub open spec fn paralyzed_of(self, e: int) -> Option<Paralyzed> {
        if self.in_range(e) {
            self.slot(e).paralyzed
        } else {
            None
        }
    }

    pub open spec fn projectile_of(self, e: int) -> Option<Projectile> {
        if self.in_range(e) {
            self.slot(e).projectile
        } else {
            None
        }
    }

    pub open spec fn has_item(self, e: int) -> bool {
        self.in_range(e) && self.slot(e).item is Some
    }

    pub open spec fn has_player(self, e: int) -> bool {
        self.in_range(e) && self.slot(e).player is Some
    }

    pub open spec fn has_player_character(self, e: int) -> bool {
        self.in_range(e) && self.slot(e).player_character is Some
    }

    /// Entity `e` is alive and stands on cell `v`.
    pub open spec fn at_pos(self, e: int, v: Vector2I) -> bool {
        self.is_alive(e) && self.slot(e).position == Some(Position(v))
    }

    /// Entity `e` is an alive obstacle standing on cell `(x, y)`.
    pub open spec fn obstacle_on(self, e: int, x: int, y: int) -> bool {
        &&& self.is_alive(e)
        &&& self.slot(e).obstacle is Some
        &&& self.slot(e).position matches Some(p)
        &&& p.0.x == x
        &&& p.0.y == y
    }

    /// Some alive obstacle occupies the cell `(x, y)`.
    pub open spec fn blocked_at(self, x: int, y: int) -> bool {
        exists|e: int| #[trigger] self.obstacle_on(e, x, y)
    }

    pub fn new() -> (w: World)
        ensures
            w.n() == 0,
            w.wf(),
    {
        World { slots: Vec::new() }
    }

    pub fn num_entities(&self) -> (n: usize)
        ensures
            n == self.n(),
    {
        self.slots.len()
    }

    pub fn is_entity_alive(&self, e: Entity) -> (b: bool)
        ensures
            b == self.is_alive(e.0 as int),
    {
        e.0 < self.slots.len() && self.slots[e.0].alive
    }

    /// Issue a fresh identity with an empty, live slot.
    pub fn spawn_entity(&mut self) -> (e: Entity)
        requires
            old(self).wf(),
        ensures
            final(self).wf(),
            e.0 == old(self).n(),
            final(self).slots@ == old(self).slots@.push(spec_live_slot()),
    {
        let id = self.slots.len();
        let s = make_slot(true);
        self.slots.push(s);
        proof {
            assert forall|e: int|
                self.in_range(e) && !(#[trigger] self.slot(e)).alive implies self.slot(
                e,
            ).no_components() by {
                if e < old(self).n() {
                    assert(self.slot(e) == old(self).slot(e));
                }
            }
        }
        Entity(id)
    }

    /// Invalidate an identity and drop all its components.
    /// Despawning an unknown identity is a no-op.
    pub fn despawn_entity(&mut self, e: Entity)
        requires
            old(self).wf(),
        ensures
            final(self).wf(),
            old(self).in_range(e.0 as int) ==> final(self).slots@ == old(self).slots@.update(
                e.0 as int,
                spec_dead_slot(),
            ),
            !old(self).in_range(e.0 as int) ==> *final(self) == *old(self),
    {
        if e.0 < self.slots.len() {
            let s = make_slot(false);
            self.slots[e.0] = s;
            proof {
                assert forall|j: int|
                    self.in_range(j) && !(#[trigger] self.slot(j)).alive implies self.slot(
                    j,
                ).no_components() by {
                    if j != e.0 as int {
                        assert(self.slot(j) == old(self).slot(j));
                    }
                }
            }
        }
    }

    pub fn get_health(&self, e: Entity) -> (r: Option<Health>)
        ensures
            r == self.health_of(e.0 as int),
    {
        if e.0 < self.slots.len() {
            self.slots[e.0].health
        } else {
            None
        }
    }

    pub fn get_position(&self, e: Entity) -> (r: Option<Position>)
        ensures
            r == self.position_of(e.0 as int),
    {
        if e.0 < self.slots.len() {
            self.slots[e.0].position
        } else {
            None
        }
    }

    pub fn get_paralyzed(&self, e: Entity) -> (r: Option<Paralyzed>)
        ensures
            r == self.paralyzed_of(e.0 as int),
    {
        if e.0 < self.slots.len() {
            self.slots[e.0].paralyzed
        } else {
            None
        }
    }

    pub fn get_projectile(&self, e: Entity) -> (r: Option<Projectile>)
        ensures
            r == self.projectile_of(e.0 as int),
    {
        if e.0 < self.slots.len() {
            self.slots[e.0].projectile
        } else {
            None
        }
    }

    pub fn get_player_character(&self, e: Entity) -> (r: Option<PlayerCharacter>)
        ensures
            r == if self.in_range(e.0 as int) {
                self.slot(e.0 as int).player_character
            } else {
                None
            },
    {
        if e.0 < self.slots.len() {
            self.slots[e.0].player_character
        } else {
            None
        }
    }

    pub fn get_actor(&self, e: Entity) -> (r: Option<Actor>)
        ensures
            r == if self.in_range(e.0 as int) {
                self.slot(e.0 as int).actor
            } else {
                None
            },
    {
        if e.0 < self.slots.len() {
            self.slots[e.0].actor
        } else {
            None
        }
    }

    pub fn get_name(&self, e: Entity) -> (r: Option<&Name>)
        ensures
            match r {
                Some(n) => self.in_range(e.0 as int) && self.slot(e.0 as int).name == Some(*n),
                None => !self.in_range(e.0 as int) || self.slot(e.0 as int).name is None,
            },
    {
        if e.0 < self.slots.len() {
            self.slots[e.0].name.as_ref()
        } else {
            None
        }
    }

    pub fn has_item_component(&self, e: Entity) -> (b: bool)
        ensures
            b == self.has_item(e.0 as int),
    {
        e.0 < self.slots.len() && self.slots[e.0].item.is_some()
    }

    pub fn has_player_component(&self, e: Entity) -> (b: bool)
        ensures
            b == self.has_player(e.0 as int),
    {
        e.0 < self.slots.len() && self.slots[e.0].player.is_some()
    }

    pub fn has_player_character_component(&self, e: Entity) -> (b: bool)
        ensures
            b == self.has_player_character(e.0 as int),
    {
        e.0 < self.slots.len() && self.slots[e.0].player_character.is_some()
    }

    /// Attach or overwrite a health component; fails on a dead or unknown
    /// identity, leaving the store untouched. All `insert_*` operations
    /// below follow this contract for their own component.
    pub fn insert_health(&mut self, e: Entity, c: Health) -> (ok: bool)
        requires
            old(self).wf(),
        ensures
            final(self).wf(),
            ok == old(self).is_alive(e.0 as int),
            ok ==> final(self).slots@ == old(self).slots@.update(
                e.0 as int,
                (EntitySlot { health: Some(c), ..old(self).slot(e.0 as int) }),
            ),
            !ok ==> *final(self) == *old(self),
    {
        if e.0 < self.slots.len() && self.slots[e.0].alive {
            self.slots[e.0].health = Some(c);
            proof {
                lemma_wf_preserved(*old(self), *self, e.0 as int);
            }
            true
        } else {
            false
        }
    }

    pub fn insert_position(&mut self, e: Entity, c: Position) -> (ok: bool)
        requires
            old(self).wf(),
        ensures
            final(self).wf(),
            ok == old(self).is_alive(e.0 as int),
            ok ==> final(self).slots@ == old(self).slots@.update(
                e.0 as int,
                (EntitySlot { position: Some(c), ..old(self).slot(e.0 as int) }),
            ),
            !ok ==> *final(self) == *old(self),
    {
        if e.0 < self.slots.len() && self.slots[e.0].alive {
            self.slots[e.0].position = Some(c);
            proof {
                lemma_wf_preserved(*old(self), *self, e.0 as int);
            }
            true
        } else {
            false
        }
    }

    pub fn insert_paralyzed(&mut self, e: Entity, c: Paralyzed) -> (ok: bool)
        requires
            old(self).wf(),
        ensures
            final(self).wf(),
            ok == old(self).is_alive(e.0 as int),
            ok ==> final(self).slots@ == old(self).slots@.update(
                e.0 as int,
                (EntitySlot { paralyzed: Some(c), ..old(self).slot(e.0 as int) }),
            ),
            !ok ==> *final(self) == *old(self),
    {
        if e.0 < self.slots.len() && self.slots[e.0].alive {
            self.slots[e.0].paralyzed = Some(c);
            proof {
                lemma_wf_preserved(*old(self), *self, e.0 as int);
            }
            true
        } else {
            false
        }
    }

    pub fn insert_projectile(&mut self, e: Entity, c: Projectile) -> (ok: bool)
        requires
            old(self).wf(),
        ensures
            final(self).wf(),
            ok == old(self).is_alive(e.0 as int),
            ok ==> final(self).slots@ == old(self).slots@.update(
                e.0 as int,
                (EntitySlot { projectile: Some(c), ..old(self).slot(e.0 as int) }),
            ),
            !ok ==> *final(self) == *old(self),
    {
        if e.0 < self.slots.len() && self.slots[e.0].alive {
            self.slots[e.0].projectile = Some(c);
            proof {
                lemma_wf_preserved(*old(self), *self, e.0 as int);
            }
            true
        } else {
            false
        }
    }

    pub fn insert_player(&mut self, e: Entity, c: Player) -> (ok: bool)
        requires
            old(self).wf(),
        ensures
            final(self).wf(),
            ok == old(self).is_alive(e.0 as int),
            ok ==> final(self).slots@ == old(self).slots@.update(
                e.0 as int,
                (EntitySlot { player: Some(c), ..old(self).slot(e.0 as int) }),
            ),
            !ok ==> *final(self) == *old(self),
    {
        if e.0 < self.slots.len() && self.slots[e.0].alive {
            self.slots[e.0].player = Some(c);
            proof {
                lemma_wf_preserved(*old(self), *self, e.0 as int);
            }
            true
        } else {
            false
        }
    }

    pub fn insert_player_character(&mut self, e: Entity, c: PlayerCharacter) -> (ok: bool)
        requires
            old(self).wf(),
        ensures
            final(self).wf(),
            ok == old(self).is_alive(e.0 as int),
            ok ==> final(self).slots@ == old(self).slots@.update(
                e.0 as int,
                (EntitySlot { player_character: Some(c), ..old(self).slot(e.0 as int) }),
            ),
            !ok ==> *final(self) == *old(self),
    {
        if e.0 < self.slots.len() && self.slots[e.0].alive {
            self.slots[e.0].player_character = Some(c);
            proof {
                lemma_wf_preserved(*old(self), *self, e.0 as int);
            }
            true
        } else {
            false
        }
    }

    pub fn insert_name(&mut self, e: Entity, c: Name) -> (ok: bool)
        requires
            old(self).wf(),
        ensures
            final(self).wf(),
            ok == old(self).is_alive(e.0 as int),
            ok ==> final(self).slots@ == old(self).slots@.update(
                e.0 as int,
                (EntitySlot { name: Some(c), ..old(self).slot(e.0 as int) }),
            ),
            !ok ==> *final(self) == *old(self),
    {
        if e.0 < self.slots.len() && self.slots[e.0].alive {
            self.slots[e.0].name = Some(c);
            proof {
                lemma_wf_preserved(*old(self), *self, e.0 as int);
            }
            true
        } else {
            false
        }
    }

    pub fn insert_actor(&mut self, e: Entity, c: Actor) -> (ok: bool)
        requires
            old(self).wf(),
        ensures
            final(self).wf(),
            ok == old(self).is_alive(e.0 as int),
            ok ==> final(self).slots@ == old(self).slots@.update(
                e.0 as int,
                (EntitySlot { actor: Some(c), ..old(self).slot(e.0 as int) }),
            ),
            !ok ==> *final(self) == *old(self),
    {
        if e.0 < self.slots.len() && self.slots[e.0].alive {
            self.slots[e.0].actor = Some(c);
            proof {
                lemma_wf_preserved(*old(self), *self, e.0 as int);
            }
            true
        } else {
            false
        }
    }

    pub fn insert_item(&mut self, e: Entity, c: Item) -> (ok: bool)
        requires
            old(self).wf(),
        ensures
            final(self).wf(),
            ok == old(self).is_alive(e.0 as int),
            ok ==> final(self).slots@ == old(self).slots@.update(
                e.0 as int,
                (EntitySlot { item: Some(c), ..old(self).slot(e.0 as int) }),
            ),
            !ok ==> *final(self) == *old(self),
    {
        if e.0 < self.slots.len() && self.slots[e.0].alive {
            self.slots[e.0].item = Some(c);
            proof {
                lemma_wf_preserved(*old(self), *self, e.0 as int);
            }
            true
        } else {
            false
        }
    }

    pub fn insert_obstacle(&mut self, e: Entity, c: Obstacle) -> (ok: bool)
        requires
            old(self).wf(),
        ensures
            final(self).wf(),
            ok == old(self).is_alive(e.0 as int),
            ok ==> final(self).slots@ == old(self).slots@.update(
                e.0 as int,
                (EntitySlot { obstacle: Some(c), ..old(self).slot(e.0 as int) }),
            ),
            !ok ==> *final(self) == *old(self),
    {
        if e.0 < self.slots.len() && self.slots[e.0].alive {
            self.slots[e.0].obstacle = Some(c);
            proof {
                lemma_wf_preserved(*old(self), *self, e.0 as int);
            }
            true
        } else {
            false
        }
    }

    pub fn insert_fixture(&mut self, e: Entity, c: Fixture) -> (ok: bool)
        requires
            old(self).wf(),
        ensures
            final(self).wf(),
            ok == old(self).is_alive(e.0 as int),
            ok ==> final(self).slots@ == old(self).slots@.update(
                e.0 as int,
                (EntitySlot { fixture: Some(c), ..old(self).slot(e.0 as int) }),
            ),
            !ok ==> *final(self) == *old(self),
    {
        if e.0 < self.slots.len() && self.slots[e.0].alive {
            self.slots[e.0].fixture = Some(c);
            proof {
                lemma_wf_preserved(*old(self), *self, e.0 as int);
            }
            true
        } else {
            false
        }
    }

    pub fn insert_tile(&mut self, e: Entity, c: Tile) -> (ok: bool)
        requires
            old(self).wf(),
        ensures
            final(self).wf(),
            ok == old(self).is_alive(e.0 as int),
            ok ==> final(self).slots@ == old(self).slots@.update(
                e.0 as int,
                (EntitySlot { tile: Some(c), ..old(self).slot(e.0 as int) }),
            ),
            !ok ==> *final(self) == *old(self),
    {
        if e.0 < self.slots.len() && self.slots[e.0].alive {
            self.slots[e.0].tile = Some(c);
            proof {
                lemma_wf_preserved(*old(self), *self, e.0 as int);
            }
            true
        } else {
            false
        }
    }

    pub fn insert_view_blocker(&mut self, e: Entity, c: ViewBlocker) -> (ok: bool)
        requires
            old(self).wf(),
        ensures
            final(self).wf(),
            ok == old(self).is_alive(e.0 as int),
            ok ==> final(self).slots@ == old(self).slots@.update(
                e.0 as int,
                (EntitySlot { view_blocker: Some(c), ..old(self).slot(e.0 as int) }),
            ),
            !ok ==> *final(self) == *old(self),
    {
        if e.0 < self.slots.len() && self.slots[e.0].alive {
            self.slots[e.0].view_blocker = Some(c);
            proof {
                lemma_wf_preserved(*old(self), *self, e.0 as int);
            }
            true
        } else {
            false
        }
    }

    pub fn insert_vortex(&mut self, e: Entity, c: Vortex) -> (ok: bool)
        requires
            old(self).wf(),
        ensures
            final(self).wf(),
            ok == old(self).is_alive(e.0 as int),
            ok ==> final(self).slots@ == old(self).slots@.update(
                e.0 as int,
                (EntitySlot { vortex: Some(c), ..old(self).slot(e.0 as int) }),
            ),
            !ok ==> *final(self) == *old(self),
    {
        if e.0 < self.slots.len() && self.slots[e.0].alive {
            self.slots[e.0].vortex = Some(c);
            proof {
                lemma_wf_preserved(*old(self), *self, e.0 as int);
            }
            true
        } else {
            false
        }
    }

    pub fn insert_spawner(&mut self, e: Entity, c: Spawner) -> (ok: bool)
        requires
            old(self).wf(),
        ensures
            final(self).wf(),
            ok == old(self).is_alive(e.0 as int),
            ok ==> final(self).slots@ == old(self).slots@.update(
                e.0 as int,
                (EntitySlot { spawner: Some(c), ..old(self).slot(e.0 as int) }),
            ),
            !ok ==> *final(self) == *old(self),
    {
        if e.0 < self.slots.len() && self.slots[e.0].alive {
            self.slots[e.0].spawner = Some(c);
            proof {
                lemma_wf_preserved(*old(self), *self, e.0 as int);
            }
            true
        } else {
            false
        }
    }

    /// Drop the paralysis status of an entity, if any.
    pub fn remove_paralyzed(&mut self, e: Entity)
        requires
            old(self).wf(),
        ensures
            final(self).wf(),
            old(self).in_range(e.0 as int) ==> final(self).slots@ == old(self).slots@.update(
                e.0 as int,
                (EntitySlot { paralyzed: None, ..old(self).slot(e.0 as int) }),
            ),
            !old(self).in_range(e.0 as int) ==> *final(self) == *old(self),
    {
        if e.0 < self.slots.len() {
            self.slots[e.0].paralyzed = None;
            proof {
                assert forall|j: int|
                    self.in_range(j) && !(#[trigger] self.slot(j)).alive implies self.slot(
                    j,
                ).no_components() by {
                    if j != e.0 as int {
                        assert(self.slot(j) == old(self).slot(j));
                    } else {
                        assert(old(self).slot(j).no_components());
                    }
                }
            }
        }
    }

    /// All alive entities standing on cell `v`, in ascending identity order.
    pub fn entities_at_position(&self, v: Vector2I) -> (r: Vec<Entity>)
        ensures
            forall|k: int| 0 <= k < r@.len() ==> self.at_pos((#[trigger] r@[k]).0 as int, v),
            forall|e: int|
                0 <= e < self.n() && self.at_pos(e, v) ==> exists|k: int|
                    0 <= k < r@.len() && (#[trigger] r@[k]).0 == e,
            forall|k1: int, k2: int| 0 <= k1 < k2 < r@.len() ==> r@[k1].0 < r@[k2].0,
    {
        let mut r: Vec<Entity> = Vec::new();
        let mut i: usize = 0;
        while i < self.slots.len()
            invariant
                i <= self.n(),
                forall|k: int|
                    0 <= k < r@.len() ==> self.at_pos((#[trigger] r@[k]).0 as int, v) && r@[k].0
                        < i,
                forall|e: int|
                    0 <= e < i && self.at_pos(e, v) ==> exists|k: int|
                        0 <= k < r@.len() && (#[trigger] r@[k]).0 == e,
                forall|k1: int, k2: int| 0 <= k1 < k2 < r@.len() ==> r@[k1].0 < r@[k2].0,
            decreases self.n() - i,
        {
            let ghost r0 = r@;
            let mut pushed = false;
            if self.slots[i].alive {
                if let Some(p) = self.slots[i].position {
                    if p.0 == v {
                        r.push(Entity(i));
                        pushed = true;
                        proof {
                            assert(r@[r@.len() - 1].0 == i);
                        }
                    }
                }
            }
            proof {
                if !pushed {
                    assert(!self.at_pos(i as int, v));
                }
                assert forall|e: int|
                    0 <= e < i + 1 && self.at_pos(e, v) implies exists|k: int|
                    0 <= k < r@.len() && (#[trigger] r@[k]).0 == e by {
                    if e == i as int {
                        assert(r@[r@.len() - 1].0 == e);
                    } else {
                        let k = choose|k: int| 0 <= k < r0.len() && (#[trigger] r0[k]).0 == e;
                        assert(r@[k].0 == e);
                    }
                }
            }
            i += 1;
        }
        r
    }

    /// Whether some alive obstacle occupies the cell.
    pub fn any_obstacle_at(&self, v: Vector2I) -> (b: bool)
        ensures
            b == self.blocked_at(v.x as int, v.y as int),
    {
        let mut i: usize = 0;
        while i < self.slots.len()
            invariant
                i <= self.n(),
                forall|e: int| 0 <= e < i ==> !#[trigger] self.obstacle_on(e, v.x as int, v.y as int),
            decreases self.n() - i,
        {
            if self.slots[i].alive && self.slots[i].obstacle.is_some() {
                if let Some(p) = self.slots[i].position {
                    if p.0 == v {
                        proof {
                            assert(self.obstacle_on(i as int, v.x as int, v.y as int));
                        }
                        return true;
                    }
                }
            }
            i += 1;
        }
        false
    }

    /// Entity `e` is alive and carries both a player-character and a position.
    pub open spec fn pc_at(self, e: int) -> bool {
        self.is_alive(e) && self.slot(e).player_character is Some && self.slot(e).position is Some
    }

    /// The first (lowest-identity) positioned player character from `i` on.
    pub open spec fn first_pc_from(self, i: int) -> Option<int>
        decreases self.n() - i,
    {
        if i < 0 || i >= self.n() {
            None
        } else if self.pc_at(i) {
            Some(i)
        } else {
            self.first_pc_from(i + 1)
        }
    }

    /// The cell of the first positioned player character, if any.
    pub open spec fn spec_player_position(self) -> Option<Vector2I> {
        match self.first_pc_from(0) {
            Some(e) => Some(self.slot(e).position.unwrap().0),
            None => None,
        }
    }

    /// The cell of the player character: the first entity, in identity
    /// order, that carries both a player-character and a position.
    pub fn player_character_position(&self) -> (r: Option<Vector2I>)
        ensures
            r == self.spec_player_position(),
    {
        let mut i: usize = 0;
        while i < self.slots.len()
            invariant
                0 <= i <= self.n(),
                self.first_pc_from(0) == self.first_pc_from(i as int),
            decreases self.n() - i,
        {
            if self.slots[i].alive && self.slots[i].player_character.is_some() {
                if let Some(p) = self.slots[i].position {
                    proof {
                        assert(self.pc_at(i as int));
                        assert(self.first_pc_from(i as int) == Some(i as int));
                    }
                    return Some(p.0);
                }
            }
            proof {
                assert(!self.pc_at(i as int));
                assert(self.first_pc_from(i as int) == self.first_pc_from(i as int + 1));
            }
            i += 1;
        }
        None
    }
}

/// The slot of an entity freshly spawned with a name and a position.
pub open spec fn spawned_slot(s: EntitySlot, name: Seq<char>, position: Vector2I) -> bool {
    &&& s.name matches Some(nm)
    &&& nm.0@ == name
    &&& s == (EntitySlot { name: s.name, position: Some(Position(position)), ..spec_live_slot() })
}

/// Spawn a named entity standing on `position`.
///
/// The helper's own occupancy rule: the spawn fails, touching nothing,
/// when an obstacle blocks the cell; any other occupant is tolerated.
pub fn spawn_with_position(world: &mut World, name: &str, position: Vector2I) -> (r: Option<
    Entity,
>)
    requires
        old(world).wf(),
    ensures
        final(world).wf(),
        old(world).blocked_at(position.x as int, position.y as int) ==> r is None && *final(world)
            == *old(world),
        !old(world).blocked_at(position.x as int, position.y as int) ==> {
            &&& r matches Some(e)
            &&& e.0 == old(world).n()
            &&& final(world).n() == old(world).n() + 1
            &&& forall|j: int| 0 <= j < old(world).n() ==> final(world).slot(j) == old(world).slot(j)
            &&& spawned_slot(final(world).slot(old(world).n()), name@, position)
        },
{
    if world.any_obstacle_at(position) {
        return None;
    }
    let e = world.spawn_entity();
    let n = Name(name.to_owned());
    let _inserted_name = world.insert_name(e, n);
    let _inserted_position = world.insert_position(e, Position(position));
    Some(e)
}

} // verus!
