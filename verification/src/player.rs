//! The player: movement intent, and the weapon that throws projectiles
//! on a repeating cooldown.

use crate::geometry::Vec2i;
use crate::health::CountdownTimer;
use crate::movement::spec_direction_speed;
use crate::world::{has_role, Entity, Role, World, POS_LIMIT};
use vstd::prelude::*;

verus! {

/// Player speed in sub-units per second.
pub const PLAYER_SPEED: u64 = 100;

/// Player collider side in sub-units.
pub const PLAYER_SIZE: i64 = 32;

/// The player's starting health.
pub const PLAYER_STARTING_HEALTH: u32 = 30;

/// Milliseconds between weapon throws.
pub const PLAYER_ATTACK_COOLDOWN: u32 = 1000;

/// Milliseconds of damage immunity after a hit.
pub const PLAYER_DAMAGE_COOLDOWN: u32 = 250;

/// A player role marker value for spawning.
#[derive(Clone, Copy, Debug, PartialEq, Eq, Structural)]
pub struct Player;

/// A projectile role marker value for spawning.
#[derive(Clone, Copy, Debug, PartialEq, Eq, Structural)]
pub struct Projectile;

/// The kinds of weapon.
#[derive(Clone, Copy, Debug, PartialEq, Eq, Structural)]
pub enum WeaponType {
    Dagger,
}

/// How a weapon's projectiles are aimed when it fires.
#[derive(Clone, Copy, Debug, PartialEq, Eq, Structural)]
pub enum WeaponSpawnBehavior {
    FourDirections,
    Facing,
    Random,
}

/// The static parameters of one weapon kind.
#[derive(Clone, Copy, Debug, PartialEq, Eq, Structural)]
pub struct WeaponSpec {
    pub speed: u64,
    pub distance: i64,
    pub damage: u32,
    pub health: u32,
    pub behavior: WeaponSpawnBehavior,
    pub collider_size: Vec2i,
}

/// The parameters of each weapon kind.
pub open spec fn spec_weapon_of(kind: WeaponType) -> WeaponSpec {
    match kind {
        WeaponType::Dagger => WeaponSpec {
            speed: 200,
            distance: 32,
            damage: 5,
            health: 1,
            behavior: WeaponSpawnBehavior::FourDirections,
            collider_size: Vec2i { x: 16, y: 26 },
        },
    }
}

impl WeaponSpec {
    /// The parameters of the weapon kind.
    pub fn of(kind: WeaponType) -> (s: WeaponSpec)
        ensures
            s == spec_weapon_of(kind),
    {
        match kind {
            WeaponType::Dagger => WeaponSpec {
                speed: 200,
                distance: 32,
                damage: 5,
                health: 1,
                behavior: WeaponSpawnBehavior::FourDirections,
                collider_size: Vec2i { x: 16, y: 26 },
            },
        }
    }
}

/// The player's weapon: its kind and the repeating throw cooldown.
#[derive(Clone, Copy, Debug, PartialEq, Eq, Structural)]
pub struct Weapon {
    pub kind: WeaponType,
    pub cooldown: CountdownTimer,
}

/// What one projectile spawn consists of.
#[derive(Clone, Copy, Debug, PartialEq, Eq, Structural)]
pub struct ProjectileSpawn {
    pub pos: Vec2i,
    pub velocity: Vec2i,
    pub collider_size: Vec2i,
    pub health: u32,
    pub damage: u32,
}

/// The projectile thrown from `p` along `dir`: it starts one throw
/// distance out (clamped to the world bounds) and flies along `dir` at
/// the weapon's speed.
pub open spec fn spec_projectile(p: Vec2i, dir: Vec2i, ws: WeaponSpec) -> ProjectileSpawn {
    ProjectileSpawn {
        pos: Vec2i {
            x: crate::world::clamp_pos(p.x + dir.x * ws.distance) as i64,
            y: crate::world::clamp_pos(p.y + dir.y * ws.distance) as i64,
        },
        velocity: spec_direction_speed(dir, ws.speed),
        collider_size: ws.collider_size,
        health: ws.health,
        damage: ws.damage,
    }
}

/// Build one projectile spawn.
fn make_projectile(p: Vec2i, dir: Vec2i, ws: &WeaponSpec) -> (r: ProjectileSpawn)
    requires
        -POS_LIMIT <= p.x <= POS_LIMIT,
        -POS_LIMIT <= p.y <= POS_LIMIT,
        -0x100000 <= dir.x <= 0x100000,
        -0x100000 <= dir.y <= 0x100000,
        0 <= ws.distance <= 0x100000,
        ws.speed <= (1u64 << 20),
    ensures
        r == spec_projectile(p, dir, *ws),
{
    proof {
        assert((1i64 << 62) == 0x4000000000000000i64) by (bit_vector);
        assert((1i64 << 40) == 0x10000000000i64) by (bit_vector);
        assert(dir.x * ws.distance <= 0x100000i64 * 0x100000i64 && dir.x * ws.distance >= -(
        0x100000i64 * 0x100000i64)) by (nonlinear_arith)
            requires
                -0x100000 <= dir.x <= 0x100000,
                0 <= ws.distance <= 0x100000,
        ;
        assert(dir.y * ws.distance <= 0x100000i64 * 0x100000i64 && dir.y * ws.distance >= -(
        0x100000i64 * 0x100000i64)) by (nonlinear_arith)
            requires
                -0x100000 <= dir.y <= 0x100000,
                0 <= ws.distance <= 0x100000,
        ;
    }
    let velocity = crate::movement::Velocity::from_direction_speed(dir, ws.speed);
    ProjectileSpawn {
        pos: Vec2i {
            x: crate::world::clamp_add(p.x, dir.x * ws.distance),
            y: crate::world::clamp_add(p.y, dir.y * ws.distance),
        },
        velocity: velocity.value,
        collider_size: ws.collider_size,
        health: ws.health,
        damage: ws.damage,
    }
}

/// The projectiles one weapon throw produces: four, one along each axis,
/// for the four-directions behaviour; one along the player's facing, or
/// one along the supplied random direction, for the others. The random
/// direction is drawn by the caller; every outcome gives the same
/// projectile shape.
pub fn weapon_spawns(player_pos: Vec2i, facing: Vec2i, kind: WeaponType, random_dir: Vec2i) -> (r:
    Vec<ProjectileSpawn>)
    requires
        -POS_LIMIT <= player_pos.x <= POS_LIMIT,
        -POS_LIMIT <= player_pos.y <= POS_LIMIT,
        -0x100000 <= facing.x <= 0x100000,
        -0x100000 <= facing.y <= 0x100000,
        -0x100000 <= random_dir.x <= 0x100000,
        -0x100000 <= random_dir.y <= 0x100000,
    ensures
        ({
            let ws = spec_weapon_of(kind);
            match ws.behavior {
                WeaponSpawnBehavior::FourDirections => {
                    &&& r@.len() == 4
                    &&& r@[0] == spec_projectile(player_pos, Vec2i { x: 0, y: 1 }, ws)
                    &&& r@[1] == spec_projectile(player_pos, Vec2i { x: (-1) as i64, y: 0 }, ws)
                    &&& r@[2] == spec_projectile(player_pos, Vec2i { x: 0, y: (-1) as i64 }, ws)
                    &&& r@[3] == spec_projectile(player_pos, Vec2i { x: 1, y: 0 }, ws)
                },
                WeaponSpawnBehavior::Facing => r@.len() == 1 && r@[0] == spec_projectile(
                    player_pos,
                    facing,
                    ws,
                ),
                WeaponSpawnBehavior::Random => r@.len() == 1 && r@[0] == spec_projectile(
                    player_pos,
                    random_dir,
                    ws,
                ),
            }
        }),
{
    let ws = WeaponSpec::of(kind);
    proof {
        assert((1u64 << 20) == 0x100000u64) by (bit_vector);
    }
    let mut out: Vec<ProjectileSpawn> = Vec::new();
    match ws.behavior {
        WeaponSpawnBehavior::FourDirections => {
            out.push(make_projectile(player_pos, Vec2i { x: 0, y: 1 }, &ws));
            out.push(make_projectile(player_pos, Vec2i { x: -1, y: 0 }, &ws));
            out.push(make_projectile(player_pos, Vec2i { x: 0, y: -1 }, &ws));
            out.push(make_projectile(player_pos, Vec2i { x: 1, y: 0 }, &ws));
        },
        WeaponSpawnBehavior::Facing => {
            out.push(make_projectile(player_pos, facing, &ws));
        },
        WeaponSpawnBehavior::Random => {
            out.push(make_projectile(player_pos, random_dir, &ws));
        },
    }
    out
}

/// Tick the weapon's repeating cooldown; when it completes, it restarts
/// and the throw's projectiles are returned — one throw per completion,
/// none while the cooldown runs or without a player.
pub fn throw_weapon(
    weapon: &mut Weapon,
    player: Option<(Vec2i, Vec2i)>,
    delta: u32,
    random_dir: Vec2i,
) -> (spawns: Vec<ProjectileSpawn>)
    requires
        crate::health::timer_wf(old(weapon).cooldown),
        match player {
            Some(pf) => -POS_LIMIT <= pf.0.x <= POS_LIMIT && -POS_LIMIT <= pf.0.y <= POS_LIMIT
                && -0x100000 <= pf.1.x <= 0x100000 && -0x100000 <= pf.1.y <= 0x100000,
            None => true,
        },
        -0x100000 <= random_dir.x <= 0x100000,
        -0x100000 <= random_dir.y <= 0x100000,
    ensures
        final(weapon).kind == old(weapon).kind,
        crate::health::timer_wf(final(weapon).cooldown),
        ({
            let ticked = crate::health::spec_tick(old(weapon).cooldown, delta);
            if ticked.elapsed == ticked.duration {
                final(weapon).cooldown == (CountdownTimer { duration: ticked.duration, elapsed: 0 })
            } else {
                final(weapon).cooldown == ticked
            }
        }),
        ({
            let ticked = crate::health::spec_tick(old(weapon).cooldown, delta);
            if ticked.elapsed == ticked.duration {
                match player {
                    Some(pf) => {
                        let ws = spec_weapon_of(old(weapon).kind);
                        match ws.behavior {
                            WeaponSpawnBehavior::FourDirections => {
                                &&& spawns@.len() == 4
                                &&& spawns@[0] == spec_projectile(pf.0, Vec2i { x: 0, y: 1 }, ws)
                                &&& spawns@[1] == spec_projectile(
                                    pf.0,
                                    Vec2i { x: (-1) as i64, y: 0 },
                                    ws,
                                )
                                &&& spawns@[2] == spec_projectile(
                                    pf.0,
                                    Vec2i { x: 0, y: (-1) as i64 },
                                    ws,
                                )
                                &&& spawns@[3] == spec_projectile(pf.0, Vec2i { x: 1, y: 0 }, ws)
                            },
                            WeaponSpawnBehavior::Facing => spawns@.len() == 1 && spawns@[0]
                                == spec_projectile(pf.0, pf.1, ws),
                            WeaponSpawnBehavior::Random => spawns@.len() == 1 && spawns@[0]
                                == spec_projectile(pf.0, random_dir, ws),
                        }
                    },
                    None => spawns@.len() == 0,
                }
            } else {
                spawns@.len() == 0
            }
        }),
{
    let fin = weapon.cooldown.tick(delta);
    if fin {
        weapon.cooldown.elapsed = 0;
        match player {
            Some((pos, facing)) => weapon_spawns(pos, facing, weapon.kind, random_dir),
            None => Vec::new(),
        }
    } else {
        Vec::new()
    }
}

/// Build a projectile entity from one spawn.
pub fn spawn_projectile(w: &mut World, ps: &ProjectileSpawn) -> (id: u64)
    requires
        crate::world::world_wf(*old(w)),
        old(w).next_id < u64::MAX,
        -POS_LIMIT <= ps.pos.x <= POS_LIMIT,
        -POS_LIMIT <= ps.pos.y <= POS_LIMIT,
        0 <= ps.collider_size.x <= crate::world::SIZE_LIMIT,
        0 <= ps.collider_size.y <= crate::world::SIZE_LIMIT,
        -2 * crate::world::SPEED_LIMIT <= ps.velocity.x <= 2 * crate::world::SPEED_LIMIT,
        -2 * crate::world::SPEED_LIMIT <= ps.velocity.y <= 2 * crate::world::SPEED_LIMIT,
    ensures
        crate::world::world_wf(*final(w)),
        id == old(w).next_id,
        final(w).next_id == old(w).next_id + 1,
        final(w).entities@.len() == old(w).entities@.len() + 1,
        forall|i: int|
            0 <= i < old(w).entities@.len() ==> #[trigger] final(w).entities@[i] == old(
                w,
            ).entities@[i],
        ({
            let e = final(w).entities@.last();
            &&& e.id == id
            &&& e.pos == ps.pos
            &&& e.roles.projectile && !e.roles.player && !e.roles.enemy && !e.roles.wall
            &&& e.health == Some(crate::health::Health { amount: ps.health, total: ps.health, cooldown: None })
            &&& e.damage == Some(crate::collision::CollisionDamage { amount: ps.damage })
            &&& (e.collider matches Some(c) && c.size == ps.collider_size)
            &&& (e.velocity matches Some(v) && v.value == ps.velocity)
        }),
{
    let e = Entity {
        id: 0,
        pos: ps.pos,
        roles: crate::world::Roles {
            player: false,
            enemy: false,
            phantom: false,
            projectile: true,
            wall: false,
        },
        parent: None,
        collider: Some(crate::collision::Collider::new(ps.collider_size)),
        health: Some(crate::health::Health::new(ps.health)),
        damage: Some(crate::collision::CollisionDamage::new(ps.damage)),
        cooldown: None,
        knockback: None,
        velocity: Some(crate::movement::Velocity { value: ps.velocity }),
        facing: None,
    };
    w.spawn(e)
}

/// What the intent leaves of one player entity: a non-zero intent turns
/// it to face the intent; the velocity follows the intent at player
/// speed (a zero intent stops it).
pub open spec fn intended_player(e: Entity, dir: Vec2i) -> Entity {
    let f = if dir.x != 0 || dir.y != 0 {
        Some(crate::movement::Facing { value: dir })
    } else {
        e.facing
    };
    let v = match e.velocity {
        Some(v0) => Some(
            crate::movement::Velocity { value: spec_direction_speed(dir, PLAYER_SPEED) },
        ),
        None => None,
    };
    Entity { facing: f, velocity: v, ..e }
}

/// Apply the already-decoded movement intent to the player: a non-zero
/// intent turns the player to face it; the velocity always follows the
/// intent at player speed (a zero intent stops the player). Without a
/// player the tick is a quiet no-op.
pub fn apply_movement_intent(w: &mut World, dir: Vec2i)
    requires
        crate::world::world_wf(*old(w)),
        -0x100000 <= dir.x <= 0x100000,
        -0x100000 <= dir.y <= 0x100000,
    ensures
        crate::world::world_wf(*final(w)),
        final(w).next_id == old(w).next_id,
        final(w).entities@.len() == old(w).entities@.len(),
        forall|i: int|
            0 <= i < old(w).entities@.len() && has_role(
                (#[trigger] old(w).entities@[i]).roles,
                Role::Player,
            ) ==> final(w).entities@[i] == intended_player(old(w).entities@[i], dir),
        forall|i: int|
            0 <= i < old(w).entities@.len() && !has_role(
                (#[trigger] old(w).entities@[i]).roles,
                Role::Player,
            ) ==> final(w).entities@[i] == old(w).entities@[i],
{
    let ghost s0 = w.entities@;
    let n = w.entities.len();
    let mut i: usize = 0;
    while i < n
        invariant
            n == s0.len(),
            i <= n,
            -0x100000 <= dir.x <= 0x100000,
            -0x100000 <= dir.y <= 0x100000,
            w.next_id == old(w).next_id,
            s0 == old(w).entities@,
            crate::world::entities_wf(s0, old(w).next_id),
            w.entities@.len() == n,
            forall|i2: int| i <= i2 < n ==> #[trigger] w.entities@[i2] == s0[i2],
            forall|i2: int|
                0 <= i2 < i && has_role((#[trigger] s0[i2]).roles, Role::Player)
                    ==> w.entities@[i2] == intended_player(s0[i2], dir),
            forall|i2: int|
                0 <= i2 < i && !has_role((#[trigger] s0[i2]).roles, Role::Player)
                    ==> w.entities@[i2] == s0[i2],
        decreases n - i,
    {
        let is_player = crate::world::roles_has(&w.entities[i].roles, Role::Player);
        if is_player {
            proof {
                assert((1i64 << 40) == 0x10000000000i64) by (bit_vector);
                assert((1u64 << 21) == 0x200000u64) by (bit_vector);
                assert(PLAYER_SPEED <= (1u64 << 21)) by (bit_vector);
                assert(crate::world::entity_wf(s0[i as int]));
            }
            let e = &mut w.entities[i];
            if dir.x != 0 || dir.y != 0 {
                e.facing = Some(crate::movement::Facing { value: dir });
            }
            match &mut e.velocity {
                Some(v) => {
                    v.change_direction_speed(dir, PLAYER_SPEED);
                },
                None => {},
            }
            proof {
                let ne = w.entities@[i as int];
                assert(ne.velocity matches Some(v2) ==> crate::intmath::abs_i(v2.value.x as int)
                    <= 0x200000 && crate::intmath::abs_i(v2.value.y as int) <= 0x200000);
                assert(crate::world::entity_wf(ne));
            }
        }
        i += 1;
    }
    proof {
        assert forall|i2: int|
            0 <= i2 < n implies crate::world::same_skeleton(
            #[trigger] s0[i2],
            w.entities@[i2],
        ) && crate::world::entity_wf(w.entities@[i2]) by {
            assert(crate::world::entity_wf(s0[i2]));
            if !has_role(s0[i2].roles, Role::Player) {
                assert(w.entities@[i2] == s0[i2]);
            } else {
                assert(w.entities@[i2] == intended_player(s0[i2], dir));
                assert((1u64 << 21) == 0x200000u64) by (bit_vector);
                crate::intmath::lemma_norm_scale_bound(
                    dir.x as int,
                    dir.y as int,
                    PLAYER_SPEED as nat,
                );
                crate::intmath::lemma_norm_scale_bound(
                    dir.y as int,
                    dir.x as int,
                    PLAYER_SPEED as nat,
                );
            }
        }
        crate::world::lemma_entities_wf_from(s0, w.entities@, old(w).next_id);
    }
}

} // verus!
