use vstd::prelude::*;
use crate::components::{Health, Paralyzed, Player, Position, Projectile};
use crate::events::ActionEvent;
use crate::vectors::Vector2I;
use crate::world::{
    spawn_with_position, spec_dead_slot, spec_live_slot, Entity, EntitySlot, World,
};

verus! {

/// What an execution returns: follow-up actions to splice into the
/// pending queue, or a failure that drops the action.
pub type ActionResult = Result<Vec<Action>, ()>;

/// Move the acting entity to the target cell.
///
/// Callers are expected to have filtered the target against obstacles
/// before constructing a travel; the execution itself overwrites the
/// position unconditionally.
#[derive(Clone, Copy, PartialEq, Eq, Structural, Debug)]
pub struct Travel {
    pub entity: Entity,
    pub target: Vector2I,
}

/// Fire along a direction up to a maximum range, stopping early at the
/// first obstacle, and spawn a projectile at the resolved impact cell.
#[derive(Clone, Copy, PartialEq, Eq, Structural, Debug)]
pub struct Shoot {
    pub source: Vector2I,
    pub dir: Vector2I,
    pub dist: u32,
    pub damage: u32,
}

/// Apply or overwrite a paralysis status on the target entity.
#[derive(Clone, Copy, PartialEq, Eq, Structural, Debug)]
pub struct Paralyze {
    pub target: Entity,
    pub value: u32,
}

/// A voluntary no-op turn; for the player character it also picks up
/// items on the occupied tile.
#[derive(Clone, Copy, PartialEq, Eq, Structural, Debug)]
pub struct Pause {
    pub entity: Entity,
}

/// Place an allied static entity with the given health at a position.
#[derive(Clone, Copy, PartialEq, Eq, Structural, Debug)]
pub struct PlaceBouy {
    pub position: Vector2I,
    pub health: u32,
}

/// Strike a cell: every health-bearing occupant receives a damage
/// follow-up action.
#[derive(Clone, Copy, PartialEq, Eq, Structural, Debug)]
pub struct MeleeHit {
    pub entity: Entity,
    pub target: Vector2I,
    pub value: u32,
}

/// Subtract hit points from the target, saturating at zero.
///
/// Only ever produced as a follow-up of another action; the candidate
/// generation path never constructs it directly.
#[derive(Clone, Copy, PartialEq, Eq, Structural, Debug)]
pub struct Damage {
    pub entity: Entity,
    pub value: u32,
}

/// Despawn every item at the acting entity's cell.
#[derive(Clone, Copy, PartialEq, Eq, Structural, Debug)]
pub struct PickItem {
    pub entity: Entity,
}

/// A schedulable unit of game effect: the closed set of action variants.
#[derive(Clone, Copy, PartialEq, Eq, Structural, Debug)]
pub enum Action {
    Travel(Travel),
    Shoot(Shoot),
    Paralyze(Paralyze),
    Pause(Pause),
    PlaceBouy(PlaceBouy),
    MeleeHit(MeleeHit),
    Damage(Damage),
    PickItem(PickItem),
}

/// Subtraction of hit points, flooring at zero.
pub open spec fn sat_sub(a: u32, b: u32) -> u32 {
    if a >= b {
        (a - b) as u32
    } else {
        0u32
    }
}

/// Step `k` of a walk from `pos` along `dir` stays on the i32 grid.
pub open spec fn step_ok(pos: Vector2I, dir: Vector2I, k: int) -> bool {
    &&& i32::MIN <= pos.x + k * dir.x <= i32::MAX
    &&& i32::MIN <= pos.y + k * dir.y <= i32::MAX
}

/// The cell a walk from `(x, y)` along `(dx, dy)` ends on: the first
/// obstacle-blocked cell on the way, or the cell `steps` steps out.
pub open spec fn spec_walk(w: World, x: int, y: int, dx: int, dy: int, steps: nat) -> (int, int)
    decreases steps,
{
    if steps == 0 {
        (x, y)
    } else {
        let nx = x + dx;
        let ny = y + dy;
        if w.blocked_at(nx, ny) {
            (nx, ny)
        } else {
            spec_walk(w, nx, ny, dx, dy, (steps - 1) as nat)
        }
    }
}

/// The identity a damage follow-up is aimed at; off-range for any other action.
pub open spec fn damage_target(a: Action) -> int {
    match a {
        Action::Damage(d) => d.entity.0 as int,
        _ => -1,
    }
}

fn walk_from(world: &World, pos: Vector2I, dir: Vector2I, steps: u32) -> (r: Vector2I)
    requires
        forall|k: int| 0 <= k <= steps ==> #[trigger] step_ok(pos, dir, k),
    ensures
        ({
            let t = spec_walk(
                *world,
                pos.x as int,
                pos.y as int,
                dir.x as int,
                dir.y as int,
                steps as nat,
            );
            r.x == t.0 && r.y == t.1
        }),
    decreases steps,
{
    if steps == 0 {
        pos
    } else {
        proof {
            assert(step_ok(pos, dir, 1));
            assert(1 * dir.x == dir.x && 1 * dir.y == dir.y) by (nonlinear_arith);
        }
        let next = pos.plus(dir);
        if world.any_obstacle_at(next) {
            next
        } else {
            proof {
                assert forall|k: int| 0 <= k <= steps - 1 implies #[trigger] step_ok(
                    next,
                    dir,
                    k,
                ) by {
                    assert(step_ok(pos, dir, k + 1));
                    assert((k + 1) * dir.x == k * dir.x + dir.x) by (nonlinear_arith);
                    assert((k + 1) * dir.y == k * dir.y + dir.y) by (nonlinear_arith);
                }
            }
            walk_from(world, next, dir, steps - 1)
        }
    }
}

impl Travel {
    /// Exact behaviour: overwrite the acting entity's position, or fail
    /// without any change when it has none.
    pub open spec fn apply(self, w0: World, w1: World, r: ActionResult) -> bool {
        if w0.position_of(self.entity.0 as int) is Some {
            &&& r matches Ok(f)
            &&& f@.len() == 0
            &&& w1.slots@ == w0.slots@.update(
                self.entity.0 as int,
                (EntitySlot { position: Some(Position(self.target)), ..w0.slot(
                    self.entity.0 as int,
                ) }),
            )
        } else {
            &&& r is Err
            &&& w1 == w0
        }
    }

    /// Utility: favours cells closer to the player character.
    pub open spec fn spec_score(self, w: World) -> int {
        match w.spec_player_position() {
            Some(p) => 20 - self.target.spec_manhattan(p),
            None => 0,
        }
    }

    pub fn execute(&self, world: &mut World) -> (r: ActionResult)
        requires
            old(world).wf(),
        ensures
            final(world).wf(),
            self.apply(*old(world), *final(world), r),
    {
        if self.entity.0 < world.num_entities() {
            if world.get_position(self.entity).is_some() {
                let _inserted = world.insert_position(self.entity, Position(self.target));
                return Ok(Vec::new());
            }
        }
        Err(())
    }

    pub fn score(&self, world: &World) -> (s: i64)
        ensures
            s == self.spec_score(*world),
    {
        match world.player_character_position() {
            Some(p) => 20 - self.target.manhattan(p),
            None => 0,
        }
    }
}

impl Shoot {
    /// No step of the walk leaves the i32 grid.
    pub open spec fn wf(self) -> bool {
        forall|k: int| 0 <= k <= self.dist ==> #[trigger] step_ok(self.source, self.dir, k)
    }

    /// The resolved impact cell.
    pub open spec fn spec_target(self, w: World) -> (int, int) {
        spec_walk(
            w,
            self.source.x as int,
            self.source.y as int,
            self.dir.x as int,
            self.dir.y as int,
            self.dist as nat,
        )
    }

    /// Walk from the source along the direction, up to the maximum range,
    /// stopping early on the first obstacle-blocked cell.
    pub fn get_target(&self, world: &World) -> (t: Vector2I)
        requires
            self.wf(),
        ensures
            ({
                let c = self.spec_target(*world);
                t.x == c.0 && t.y == c.1
            }),
    {
        walk_from(world, self.source, self.dir, self.dist)
    }

    /// Exact behaviour: spawn one projectile entity aimed at the resolved
    /// impact cell; the rest of the store is untouched; never fails.
    pub open spec fn apply(self, w0: World, w1: World, r: ActionResult) -> bool {
        &&& r matches Ok(f)
        &&& f@.len() == 0
        &&& w1.n() == w0.n() + 1
        &&& forall|j: int| 0 <= j < w0.n() ==> w1.slot(j) == w0.slot(j)
        &&& w1.slot(w0.n()).projectile matches Some(pr)
        &&& pr.damage == self.damage
        &&& pr.source == self.source
        &&& (pr.target.x as int, pr.target.y as int) == self.spec_target(w0)
        &&& w1.slot(w0.n()) == (EntitySlot { projectile: w1.slot(w0.n()).projectile, ..spec_live_slot() })
    }

    /// Utility: all or nothing, depending on whether the resolved impact
    /// cell is the player character's cell.
    pub open spec fn spec_score(self, w: World) -> int {
        match w.spec_player_position() {
            Some(p) => if self.spec_target(w) == (p.x as int, p.y as int) {
                100int
            } else {
                0
            },
            None => 0,
        }
    }

    pub fn execute(&self, world: &mut World) -> (r: ActionResult)
        requires
            self.wf(),
            old(world).wf(),
        ensures
            final(world).wf(),
            self.apply(*old(world), *final(world), r),
    {
        let target = self.get_target(world);
        let entity = world.spawn_entity();
        let _inserted = world.insert_projectile(
            entity,
            Projectile { damage: self.damage, target, source: self.source },
        );
        Ok(Vec::new())
    }

    pub fn score(&self, world: &World) -> (s: i64)
        requires
            self.wf(),
        ensures
            s == self.spec_score(*world),
    {
        match world.player_character_position() {
            Some(p) => {
                let target = self.get_target(world);
                if target.x == p.x && target.y == p.y {
                    100
                } else {
                    0
                }
            },
            None => 0,
        }
    }
}

impl Paralyze {
    /// Exact behaviour: apply or overwrite the paralysis status; fail
    /// without any change when the target is despawned or unknown.
    pub open spec fn apply(self, w0: World, w1: World, r: ActionResult) -> bool {
        if w0.is_alive(self.target.0 as int) {
            &&& r matches Ok(f)
            &&& f@.len() == 0
            &&& w1.slots@ == w0.slots@.update(
                self.target.0 as int,
                (EntitySlot { paralyzed: Some(Paralyzed(self.value)), ..w0.slot(
                    self.target.0 as int,
                ) }),
            )
        } else {
            &&& r is Err
            &&& w1 == w0
        }
    }

    pub fn execute(&self, world: &mut World) -> (r: ActionResult)
        requires
            old(world).wf(),
        ensures
            final(world).wf(),
            self.apply(*old(world), *final(world), r),
    {
        if world.insert_paralyzed(self.target, Paralyzed(self.value)) {
            Ok(Vec::new())
        } else {
            Err(())
        }
    }
}

impl Pause {
    /// Exact behaviour: nothing changes; the player character alone gets
    /// an item pickup as a follow-up to doing nothing on a tile.
    pub open spec fn apply(self, w0: World, w1: World, r: ActionResult) -> bool {
        &&& w1 == w0
        &&& r matches Ok(f)
        &&& if w0.has_player_character(self.entity.0 as int) {
            f@.len() == 1 && f@[0] == Action::PickItem(PickItem { entity: self.entity })
        } else {
            f@.len() == 0
        }
    }

    pub fn execute(&self, world: &mut World) -> (r: ActionResult)
        requires
            old(world).wf(),
        ensures
            final(world).wf(),
            self.apply(*old(world), *final(world), r),
    {
        if world.has_player_character_component(self.entity) {
            let mut f: Vec<Action> = Vec::new();
            f.push(Action::PickItem(PickItem { entity: self.entity }));
            Ok(f)
        } else {
            Ok(Vec::new())
        }
    }
}

impl PlaceBouy {
    /// Exact behaviour: spawn an allied named entity with the given
    /// health; fail without any change when an obstacle blocks the cell.
    pub open spec fn apply(self, w0: World, w1: World, r: ActionResult) -> bool {
        if w0.blocked_at(self.position.x as int, self.position.y as int) {
            &&& r is Err
            &&& w1 == w0
        } else {
            &&& r matches Ok(f)
            &&& f@.len() == 0
            &&& w1.n() == w0.n() + 1
            &&& forall|j: int| 0 <= j < w0.n() ==> w1.slot(j) == w0.slot(j)
            &&& w1.slot(w0.n()).name matches Some(nm)
            &&& nm.0@ == "Buoy"@
            &&& w1.slot(w0.n()) == (EntitySlot {
                name: w1.slot(w0.n()).name,
                position: Some(Position(self.position)),
                player: Some(Player),
                health: Some(Health(self.health)),
                ..spec_live_slot()
            })
        }
    }

    pub fn execute(&self, world: &mut World) -> (r: ActionResult)
        requires
            old(world).wf(),
        ensures
            final(world).wf(),
            self.apply(*old(world), *final(world), r),
    {
        let spawned = spawn_with_position(world, "Buoy", self.position);
        match spawned {
            Some(entity) => {
                let _inserted_player = world.insert_player(entity, Player);
                let _inserted_health = world.insert_health(entity, Health(self.health));
                Ok(Vec::new())
            },
            None => Err(()),
        }
    }
}

impl MeleeHit {
    /// Entity `e` is an occupant of the target cell that can take damage.
    pub open spec fn target_victim(self, w: World, e: int) -> bool {
        w.at_pos(e, self.target) && w.health_of(e) is Some
    }

    /// Element `k` of the follow-up list is a damage action carrying this
    /// hit's value, aimed at a victim on the target cell.
    pub open spec fn followup_at(self, w: World, f: Seq<Action>, k: int) -> bool {
        &&& f[k] matches Action::Damage(d)
        &&& d.value == self.value
        &&& self.target_victim(w, d.entity.0 as int)
    }

    /// The follow-up list holds exactly one damage action per victim on
    /// the target cell, in ascending identity order.
    pub open spec fn followups_ok(self, w: World, f: Seq<Action>) -> bool {
        &&& forall|k: int| 0 <= k < f.len() ==> #[trigger] self.followup_at(w, f, k)
        &&& forall|e: int|
            0 <= e < w.n() && #[trigger] self.target_victim(w, e) ==> exists|k: int|
                0 <= k < f.len() && (#[trigger] f[k]) == Action::Damage(
                    Damage { entity: Entity(e as usize), value: self.value },
                )
        &&& forall|k1: int, k2: int|
            0 <= k1 < k2 < f.len() ==> damage_target(f[k1]) < damage_target(f[k2])
    }

    /// Exact behaviour: one damage follow-up per health-bearing occupant
    /// of the target cell; the store itself is untouched; never fails.
    pub open spec fn apply(self, w0: World, w1: World, r: ActionResult) -> bool {
        &&& w1 == w0
        &&& r matches Ok(f)
        &&& self.followups_ok(w0, f@)
    }

    /// Some occupant of the target cell is allied with the player.
    pub open spec fn hits_player(self, w: World) -> bool {
        exists|e: int| w.at_pos(e, self.target) && #[trigger] w.has_player(e)
    }

    /// Utility: a strong attractor toward cells holding the player's
    /// side, and a penalty for swinging at nothing damageable.
    pub open spec fn spec_score(self, w: World) -> int {
        if self.hits_player(w) {
            200
        } else {
            -50
        }
    }

    pub fn execute(&self, world: &mut World) -> (r: ActionResult)
        requires
            old(world).wf(),
        ensures
            final(world).wf(),
            self.apply(*old(world), *final(world), r),
    {
        let occupants = world.entities_at_position(self.target);
        let mut f: Vec<Action> = Vec::new();
        let mut i: usize = 0;
        while i < occupants.len()
            invariant
                forall|k: int|
                    0 <= k < occupants@.len() ==> world.at_pos(
                        (#[trigger] occupants@[k]).0 as int,
                        self.target,
                    ),
                forall|e: int|
                    0 <= e < world.n() && world.at_pos(e, self.target) ==> exists|k: int|
                        0 <= k < occupants@.len() && (#[trigger] occupants@[k]).0 == e,
                forall|k1: int, k2: int|
                    0 <= k1 < k2 < occupants@.len() ==> occupants@[k1].0 < occupants@[k2].0,
                i <= occupants@.len(),
                forall|m: int| 0 <= m < f@.len() ==> #[trigger] self.followup_at(*world, f@, m),
                forall|m: int|
                    0 <= m < f@.len() ==> exists|k: int|
                        0 <= k < i && damage_target(#[trigger] f@[m]) == occupants@[k].0,
                forall|k: int|
                    0 <= k < i && world.health_of((#[trigger] occupants@[k]).0 as int) is Some
                        ==> exists|m: int|
                        0 <= m < f@.len() && (#[trigger] f@[m]) == Action::Damage(
                            Damage { entity: occupants@[k], value: self.value },
                        ),
                forall|m1: int, m2: int|
                    0 <= m1 < m2 < f@.len() ==> damage_target(f@[m1]) < damage_target(f@[m2]),
            decreases occupants@.len() - i,
        {
            let e = occupants[i];
            let ghost f0 = f@;
            if world.get_health(e).is_some() {
                f.push(Action::Damage(Damage { entity: e, value: self.value }));
                proof {
                    assert(f@[f@.len() - 1] == Action::Damage(
                        Damage { entity: e, value: self.value },
                    ));
                    assert(self.followup_at(*world, f@, f@.len() - 1));
                    assert forall|m: int|
                        0 <= m < f@.len() implies #[trigger] self.followup_at(*world, f@, m) by {
                        if m < f@.len() - 1 {
                            assert(self.followup_at(*world, f0, m));
                            assert(f@[m] == f0[m]);
                        }
                    }
                    assert forall|m1: int, m2: int|
                        0 <= m1 < m2 < f@.len() implies damage_target(f@[m1]) < damage_target(
                        f@[m2],
                    ) by {
                        if m2 == f@.len() - 1 {
                            let k = choose|k: int|
                                0 <= k < i && damage_target(f0[m1]) == occupants@[k].0;
                            assert(occupants@[k].0 < occupants@[i as int].0);
                        } else {
                            assert(f@[m1] == f0[m1] && f@[m2] == f0[m2]);
                        }
                    }
                }
            }
            proof {
                assert forall|k: int|
                    0 <= k < i + 1 && world.health_of((#[trigger] occupants@[k]).0 as int)
                        is Some implies exists|m: int|
                    0 <= m < f@.len() && (#[trigger] f@[m]) == Action::Damage(
                        Damage { entity: occupants@[k], value: self.value },
                    ) by {
                    if k < i {
                        let m = choose|m: int|
                            0 <= m < f0.len() && (#[trigger] f0[m]) == Action::Damage(
                                Damage { entity: occupants@[k], value: self.value },
                            );
                        assert(f@[m] == f0[m]);
                    } else {
                        assert(f@[f@.len() - 1] == Action::Damage(
                            Damage { entity: occupants@[k], value: self.value },
                        ));
                    }
                }
            }
            i += 1;
        }
        proof {
            assert forall|e: int|
                0 <= e < world.n() && #[trigger] self.target_victim(*world, e) implies exists|
                k: int,
            |
                0 <= k < f@.len() && (#[trigger] f@[k]) == Action::Damage(
                    Damage { entity: Entity(e as usize), value: self.value },
                ) by {
                let k = choose|k: int|
                    0 <= k < occupants@.len() && (#[trigger] occupants@[k]).0 == e;
                let m = choose|m: int|
                    0 <= m < f@.len() && (#[trigger] f@[m]) == Action::Damage(
                        Damage { entity: occupants@[k], value: self.value },
                    );
                assert(f@[m] == Action::Damage(
                    Damage { entity: Entity(e as usize), value: self.value },
                ));
            }
        }
        Ok(f)
    }

    pub fn score(&self, world: &World) -> (s: i64)
        ensures
            s == self.spec_score(*world),
    {
        let occupants = world.entities_at_position(self.target);
        let mut i: usize = 0;
        while i < occupants.len()
            invariant
                i <= occupants@.len(),
                forall|k: int|
                    0 <= k < occupants@.len() ==> world.at_pos(
                        (#[trigger] occupants@[k]).0 as int,
                        self.target,
                    ),
                forall|e: int|
                    0 <= e < world.n() && world.at_pos(e, self.target) ==> exists|k: int|
                        0 <= k < occupants@.len() && (#[trigger] occupants@[k]).0 == e,
                forall|k: int| 0 <= k < i ==> !world.has_player((#[trigger] occupants@[k]).0 as int),
            decreases occupants@.len() - i,
        {
            let e = occupants[i];
            if world.has_player_component(e) {
                proof {
                    assert(world.at_pos(e.0 as int, self.target) && world.has_player(e.0 as int));
                }
                return 200;
            }
            i += 1;
        }
        proof {
            assert forall|e: int|
                !(world.at_pos(e, self.target) && #[trigger] world.has_player(e)) by {
                if world.at_pos(e, self.target) && world.has_player(e) {
                    let k = choose|k: int|
                        0 <= k < occupants@.len() && (#[trigger] occupants@[k]).0 == e;
                }
            }
        }
        -50
    }
}

impl PickItem {
    /// Exact behaviour: despawn every alive item on the acting entity's
    /// cell and nothing else; fail without any change when the acting
    /// entity has no position.
    pub open spec fn apply(self, w0: World, w1: World, r: ActionResult) -> bool {
        match w0.position_of(self.entity.0 as int) {
            Some(p) => {
                &&& r matches Ok(f)
                &&& f@.len() == 0
                &&& w1.n() == w0.n()
                &&& forall|j: int|
                    0 <= j < w0.n() ==> w1.slot(j) == (if w0.at_pos(j, p.0) && w0.has_item(j) {
                        spec_dead_slot()
                    } else {
                        w0.slot(j)
                    })
            },
            None => {
                &&& r is Err
                &&& w1 == w0
            },
        }
    }

    pub fn execute(&self, world: &mut World) -> (r: ActionResult)
        requires
            old(world).wf(),
        ensures
            final(world).wf(),
            self.apply(*old(world), *final(world), r),
    {
        let position = match world.get_position(self.entity) {
            Some(p) => p,
            None => {
                return Err(());
            },
        };
        let items = world.entities_at_position(position.0);
        let mut i: usize = 0;
        while i < items.len()
            invariant
                world.wf(),
                i <= items@.len(),
                world.n() == old(world).n(),
                forall|k: int|
                    0 <= k < items@.len() ==> old(world).at_pos(
                        (#[trigger] items@[k]).0 as int,
                        position.0,
                    ) && items@[k].0 < old(world).n(),
                forall|e: int|
                    0 <= e < old(world).n() && old(world).at_pos(e, position.0) ==> exists|k: int|
                        0 <= k < items@.len() && (#[trigger] items@[k]).0 == e,
                forall|k1: int, k2: int|
                    0 <= k1 < k2 < items@.len() ==> items@[k1].0 < items@[k2].0,
                forall|j: int|
                    0 <= j < old(world).n() ==> world.slot(j) == (if exists|k: int|
                        0 <= k < i && (#[trigger] items@[k]).0 == j && old(world).has_item(j) {
                        spec_dead_slot()
                    } else {
                        old(world).slot(j)
                    }),
            decreases items@.len() - i,
        {
            let e = items[i];
            let ghost w_before = *world;
            proof {
                assert forall|k: int| 0 <= k < i implies (#[trigger] items@[k]).0 != e.0 by {
                    assert(items@[k].0 < items@[i as int].0);
                }
                assert(world.slot(e.0 as int) == old(world).slot(e.0 as int));
            }
            if world.has_item_component(e) {
                world.despawn_entity(e);
            }
            proof {
                assert forall|j: int|
                    0 <= j < old(world).n() implies world.slot(j) == (if exists|k: int|
                        0 <= k < i + 1 && (#[trigger] items@[k]).0 == j && old(world).has_item(j) {
                        spec_dead_slot()
                    } else {
                        old(world).slot(j)
                    }) by {
                    if j == e.0 as int {
                        assert(items@[i as int].0 == j);
                        if old(world).has_item(j) {
                            assert(world.slot(j) == spec_dead_slot());
                        } else {
                            assert(world.slot(j) == w_before.slot(j));
                        }
                    } else {
                        assert(world.slot(j) == w_before.slot(j));
                        if exists|k: int|
                            0 <= k < i && (#[trigger] items@[k]).0 == j && old(world).has_item(j) {
                            let k = choose|k: int|
                                0 <= k < i && (#[trigger] items@[k]).0 == j && old(
                                    world,
                                ).has_item(j);
                            assert(0 <= k < i + 1 && items@[k].0 == j && old(world).has_item(j));
                        } else {
                            assert(forall|k: int|
                                !(0 <= k < i + 1 && (#[trigger] items@[k]).0 == j && old(
                                    world,
                                ).has_item(j)));
                        }
                    }
                }
            }
            i += 1;
        }
        proof {
            assert forall|j: int|
                0 <= j < old(world).n() implies world.slot(j) == (if old(world).at_pos(
                j,
                position.0,
            ) && old(world).has_item(j) {
                spec_dead_slot()
            } else {
                old(world).slot(j)
            }) by {
                if old(world).at_pos(j, position.0) && old(world).has_item(j) {
                    let k = choose|k: int|
                        0 <= k < items@.len() && (#[trigger] items@[k]).0 == j;
                } else {
                    if exists|k: int|
                        0 <= k < items@.len() && (#[trigger] items@[k]).0 == j && old(
                            world,
                        ).has_item(j) {
                        let k = choose|k: int|
                            0 <= k < items@.len() && (#[trigger] items@[k]).0 == j && old(
                                world,
                            ).has_item(j);
                        assert(old(world).at_pos(j, position.0));
                    }
                }
            }
        }
        Ok(Vec::new())
    }
}

impl Damage {
    /// Exact behaviour: saturating subtraction on the target's health;
    /// fail without any change when the target has none.
    pub open spec fn apply(self, w0: World, w1: World, r: ActionResult) -> bool {
        match w0.health_of(self.entity.0 as int) {
            Some(h) => {
                &&& r matches Ok(f)
                &&& f@.len() == 0
                &&& w1.slots@ == w0.slots@.update(
                    self.entity.0 as int,
                    (EntitySlot { health: Some(Health(sat_sub(h.0, self.value))), ..w0.slot(
                        self.entity.0 as int,
                    ) }),
                )
            },
            None => {
                &&& r is Err
                &&& w1 == w0
            },
        }
    }

    pub fn execute(&self, world: &mut World) -> (r: ActionResult)
        requires
            old(world).wf(),
        ensures
            final(world).wf(),
            self.apply(*old(world), *final(world), r),
    {
        match world.get_health(self.entity) {
            Some(h) => {
                let rest = if h.0 >= self.value {
                    h.0 - self.value
                } else {
                    0
                };
                let _inserted = world.insert_health(self.entity, Health(rest));
                Ok(Vec::new())
            },
            None => Err(()),
        }
    }
}

impl Action {
    /// Machine-limit side condition: a shot's walk must stay on the grid.
    pub open spec fn wf(self) -> bool {
        match self {
            Action::Shoot(a) => a.wf(),
            _ => true,
        }
    }

    /// Cascade rank: actions that may produce follow-ups stand above
    /// those that never do. The resolution loop's termination measure.
    pub open spec fn rank(self) -> nat {
        match self {
            Action::MeleeHit(_) => 1,
            Action::Pause(_) => 1,
            _ => 0,
        }
    }

    /// Exact execution semantics of every variant, as a relation between
    /// the store before, the store after, and the returned result.
    pub open spec fn apply(self, w0: World, w1: World, r: ActionResult) -> bool {
        match self {
            Action::Travel(a) => a.apply(w0, w1, r),
            Action::Shoot(a) => a.apply(w0, w1, r),
            Action::Paralyze(a) => a.apply(w0, w1, r),
            Action::Pause(a) => a.apply(w0, w1, r),
            Action::PlaceBouy(a) => a.apply(w0, w1, r),
            Action::MeleeHit(a) => a.apply(w0, w1, r),
            Action::Damage(a) => a.apply(w0, w1, r),
            Action::PickItem(a) => a.apply(w0, w1, r),
        }
    }

    /// The event a successful execution emits.
    pub open spec fn spec_event(self) -> ActionEvent {
        match self {
            Action::Travel(a) => ActionEvent::Travel(a.entity, a.target),
            Action::MeleeHit(a) => ActionEvent::Melee(a.entity, a.target, a.value),
            _ => ActionEvent::Other,
        }
    }

    /// Utility for AI candidate selection; a pure function of the world.
    /// Damage has none by design: it is only ever a follow-up, never a
    /// candidate.
    pub open spec fn spec_score(self, w: World) -> int {
        match self {
            Action::Travel(a) => a.spec_score(w),
            Action::Shoot(a) => a.spec_score(w),
            Action::MeleeHit(a) => a.spec_score(w),
            _ => 0,
        }
    }

    /// Execute against the live store: the only mutation path. Expected
    /// failure (stale entity, blocked cell) leaves the store untouched.
    /// Follow-ups never cascade further than one level down.
    pub fn execute(&self, world: &mut World) -> (r: ActionResult)
        requires
            self.wf(),
            old(world).wf(),
        ensures
            final(world).wf(),
            self.apply(*old(world), *final(world), r),
            r matches Ok(f) ==> (forall|k: int|
                0 <= k < f@.len() ==> (#[trigger] f@[k]).wf() && f@[k].rank() == 0),
            r matches Ok(f) ==> (self.rank() == 0 ==> f@.len() == 0),
    {
        match self {
            Action::Travel(a) => a.execute(world),
            Action::Shoot(a) => a.execute(world),
            Action::Paralyze(a) => a.execute(world),
            Action::Pause(a) => a.execute(world),
            Action::PlaceBouy(a) => a.execute(world),
            Action::MeleeHit(a) => {
                let r = a.execute(world);
                if let Ok(f) = &r {
                    proof {
                        assert forall|k: int|
                            0 <= k < f@.len() implies (#[trigger] f@[k]).wf() && f@[k].rank()
                            == 0 by {
                            assert(a.followup_at(*old(world), f@, k));
                        }
                    }
                }
                r
            },
            Action::Damage(a) => a.execute(world),
            Action::PickItem(a) => a.execute(world),
        }
    }

    /// Utility of this action as an AI candidate.
    pub fn score(&self, world: &World) -> (s: i64)
        requires
            self.wf(),
        ensures
            s == self.spec_score(*world),
    {
        match self {
            Action::Travel(a) => a.score(world),
            Action::Shoot(a) => a.score(world),
            Action::MeleeHit(a) => a.score(world),
            _ => 0,
        }
    }

    /// The semantic event describing this action, for rendering or audio.
    pub fn event(&self) -> (ev: ActionEvent)
        ensures
            ev == self.spec_event(),
    {
        match self {
            Action::Travel(a) => ActionEvent::Travel(a.entity, a.target),
            Action::MeleeHit(a) => ActionEvent::Melee(a.entity, a.target, a.value),
            _ => ActionEvent::Other,
        }
    }
}

/// Per-action failure is all-or-nothing: an execution that returns an
/// error leaves every slot of the store exactly as it was.
pub proof fn lemma_failure_leaves_world_unchanged(
    a: Action,
    w0: World,
    w1: World,
    r: ActionResult,
)
    requires
        a.apply(w0, w1, r),
        r is Err,
    ensures
        w1 == w0,
{
}

/// A successful travel always leaves the acting entity exactly on the
/// target cell it was constructed with.
pub proof fn lemma_travel_reaches_target(a: Travel, w0: World, w1: World, r: ActionResult)
    requires
        a.apply(w0, w1, r),
        r is Ok,
    ensures
        w1.position_of(a.entity.0 as int) == Some(Position(a.target)),
{
    assert(w0.in_range(a.entity.0 as int));
}

/// Picking up consumes every item on the actor's cell and nothing else:
/// an entity survives exactly when it was alive and not an item on that
/// cell, and every surviving entity's slot is untouched.
pub proof fn lemma_pick_item_consumes(
    a: PickItem,
    w0: World,
    w1: World,
    r: ActionResult,
    p: Position,
)
    requires
        a.apply(w0, w1, r),
        w0.position_of(a.entity.0 as int) == Some(p),
    ensures
        forall|e: int|
            0 <= e < w0.n() ==> (w1.is_alive(e) <==> (w0.is_alive(e) && !(#[trigger] w0.at_pos(
                e,
                p.0,
            ) && w0.has_item(e)))),
        forall|e: int|
            0 <= e < w0.n() && !(#[trigger] w0.at_pos(e, p.0) && w0.has_item(e)) ==> w1.slot(e)
                == w0.slot(e),
{
}

/// A despawned entity targeted by a damage or a paralyze makes the
/// execution fail without mutating any other entity's state.
pub proof fn lemma_stale_target_fails(a: Action, w0: World, w1: World, r: ActionResult)
    requires
        w0.wf(),
        a.apply(w0, w1, r),
        (a matches Action::Damage(d) && !w0.is_alive(d.entity.0 as int)) || (a matches
            Action::Paralyze(p) && !w0.is_alive(p.target.0 as int)),
    ensures
        r is Err,
        w1 == w0,
{
    match a {
        Action::Damage(d) => {
            let e = d.entity.0 as int;
            if w0.in_range(e) {
                assert(w0.slot(e).no_components());
            }
            assert(w0.health_of(e) is None);
        },
        _ => {},
    }
}

/// The ordered backlog of not-yet-executed actions for the current
/// resolution pass; the element at index zero executes next. Follow-ups
/// splice in at the front: a cascade resolves before anything queued
/// behind its cause (immediate-cascade discipline).
pub struct PendingActions(pub Vec<Action>);

impl PendingActions {
    /// Every queued action satisfies its machine-limit side condition.
    pub open spec fn all_wf(self) -> bool {
        forall|k: int| 0 <= k < self.0@.len() ==> (#[trigger] self.0@[k]).wf()
    }

    pub fn new() -> (q: PendingActions)
        ensures
            q.0@.len() == 0,
            q.all_wf(),
    {
        PendingActions(Vec::new())
    }

    pub fn is_empty(&self) -> (b: bool)
        ensures
            b == (self.0@.len() == 0),
    {
        self.0.len() == 0
    }

    /// Enqueue a selected action behind everything already pending.
    pub fn push_back(&mut self, a: Action)
        requires
            a.wf(),
            old(self).all_wf(),
        ensures
            final(self).0@ == old(self).0@.push(a),
            final(self).all_wf(),
    {
        self.0.push(a);
        proof {
            assert forall|k: int| 0 <= k < self.0@.len() implies (#[trigger] self.0@[k]).wf() by {
                if k < self.0@.len() - 1 {
                    assert(self.0@[k] == old(self).0@[k]);
                }
            }
        }
    }
}

/// Entities awaiting their turn, in order; the front entity is on turn.
/// Rotation is round-robin: pop front, act, push back.
pub struct ActorQueue(pub Vec<Entity>);

impl ActorQueue {
    pub fn new() -> (q: ActorQueue)
        ensures
            q.0@.len() == 0,
    {
        ActorQueue(Vec::new())
    }

    pub fn push_back(&mut self, e: Entity)
        ensures
            final(self).0@ == old(self).0@.push(e),
    {
        self.0.push(e);
    }

    /// The entity whose turn it is, if any.
    pub fn current_actor(&self) -> (r: Option<Entity>)
        ensures
            self.0@.len() == 0 ==> r is None,
            self.0@.len() > 0 ==> r == Some(self.0@[0]),
    {
        if self.0.len() > 0 {
            Some(self.0[0])
        } else {
            None
        }
    }
}

} // verus!
