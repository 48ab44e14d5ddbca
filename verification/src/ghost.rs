//! The phantom: a simple chasing enemy spawned on a timer.

use crate::collision::{Collider, CollisionDamage};
use crate::geometry::Vec2i;
use crate::health::Health;
use crate::health::CountdownTimer;
use crate::levels::GridCoords;
use crate::movement::{spec_direction_speed, Velocity};
use crate::world::{Entity, Roles, World};
use vstd::prelude::*;

verus! {

/// Phantom speed in sub-units per second.
pub const PHANTOM_SPEED: u64 = 60;

/// Phantom collider side in sub-units.
pub const PHANTOM_SIZE: i64 = 32;

/// Contact damage a phantom deals.
pub const PHANTOM_DAMAGE: u32 = 5;

/// A phantom's starting health.
pub const PHANTOM_HEALTH: u32 = 10;

/// Milliseconds between spawn attempts.
pub const SPAWN_INTERVAL: u32 = 500;

/// Build a phantom standing at `spawn_at`, drifting along `direction`
/// at phantom speed, with the phantom's collider, contact damage and
/// health.
pub fn phantom_entity(spawn_at: Vec2i, direction: Vec2i) -> (e: Entity)
    requires
        -(1i64 << 40) <= direction.x <= (1i64 << 40),
        -(1i64 << 40) <= direction.y <= (1i64 << 40),
    ensures
        e.id == 0,
        e.pos == spawn_at,
        e.roles == (Roles { player: false, enemy: false, phantom: true, projectile: false, wall: false }),
        e.parent is None,
        e.collider matches Some(c) && c.size == (Vec2i { x: PHANTOM_SIZE, y: PHANTOM_SIZE })
            && c.offset == (Vec2i { x: 0, y: 0 }) && c.collisions@ =~= Seq::<u64>::empty(),
        e.damage == Some(CollisionDamage { amount: PHANTOM_DAMAGE }),
        e.health == Some(Health { amount: PHANTOM_HEALTH, total: PHANTOM_HEALTH, cooldown: None }),
        e.cooldown is None,
        e.knockback is None,
        e.velocity matches Some(v) && v.value == spec_direction_speed(direction, PHANTOM_SPEED),
        e.facing is None,
{
    proof {
        assert(PHANTOM_SPEED <= (1u64 << 20)) by (bit_vector);
    }
    let velocity = Velocity::from_direction_speed(direction, PHANTOM_SPEED);
    Entity {
        id: 0,
        pos: spawn_at,
        roles: Roles { player: false, enemy: false, phantom: true, projectile: false, wall: false },
        parent: None,
        collider: Some(Collider::new(Vec2i { x: PHANTOM_SIZE, y: PHANTOM_SIZE })),
        health: Some(Health::new(PHANTOM_HEALTH)),
        damage: Some(CollisionDamage::new(PHANTOM_DAMAGE)),
        cooldown: None,
        knockback: None,
        velocity: Some(velocity),
        facing: None,
    }
}

/// Spawn attempt for one interval: when the repeating timer completes
/// and restarts, a free spot near the player is picked at random and a
/// phantom appears there, drifting toward the world origin at phantom
/// speed. While the timer runs nothing happens; a failed random pick
/// skips the interval.
pub fn spawn_phantom(
    w: &mut World,
    timer: &mut CountdownTimer,
    spots: &Vec<GridCoords>,
    origin: GridCoords,
    width: i64,
    height: i64,
    delta: u32,
) -> (r: Option<u64>)
    requires
        crate::world::world_wf(*old(w)),
        old(w).next_id < u64::MAX,
        crate::health::timer_wf(*old(timer)),
        0 <= width <= 0x10000,
        0 <= height <= 0x10000,
        -0x100000 <= origin.x <= 0x100000,
        -0x100000 <= origin.y <= 0x100000,
    ensures
        crate::world::world_wf(*final(w)),
        crate::health::timer_wf(*final(timer)),
        final(timer).duration == old(timer).duration,
        ({
            let ticked = crate::health::spec_tick(*old(timer), delta);
            if ticked.elapsed != ticked.duration {
                // the interval has not elapsed: nothing moves
                &&& *final(timer) == ticked
                &&& r is None
                &&& final(w).entities@ == old(w).entities@
                &&& final(w).next_id == old(w).next_id
            } else {
                &&& final(timer).elapsed == 0
                &&& match r {
                    Some(id) => ({
                        let laste = final(w).entities@.last();
                        &&& id == old(w).next_id
                        &&& final(w).next_id == old(w).next_id + 1
                        &&& final(w).entities@.len() == old(w).entities@.len() + 1
                        &&& forall|k: int|
                            0 <= k < old(w).entities@.len() ==> #[trigger] final(w).entities@[k]
                                == old(w).entities@[k]
                        &&& laste.id == id
                        &&& laste.roles == (Roles {
                            player: false,
                            enemy: false,
                            phantom: true,
                            projectile: false,
                            wall: false,
                        })
                        &&& laste.parent is None
                        &&& laste.cooldown is None
                        &&& laste.knockback is None
                        &&& laste.facing is None
                        &&& laste.health == Some(
                            Health { amount: PHANTOM_HEALTH, total: PHANTOM_HEALTH, cooldown: None },
                        )
                        &&& laste.damage == Some(CollisionDamage { amount: PHANTOM_DAMAGE })
                        &&& (laste.collider matches Some(c) && c.size == (Vec2i {
                            x: PHANTOM_SIZE,
                            y: PHANTOM_SIZE,
                        }) && c.offset == (Vec2i { x: 0, y: 0 }) && c.collisions@ =~= Seq::<
                            u64,
                        >::empty())
                        // the phantom drifts from its spawn spot toward
                        // the world origin
                        &&& exists|c: GridCoords|
                            {
                                &&& spots@.contains(c)
                                &&& 0 <= c.x <= width && 0 <= c.y <= height
                                &&& laste.pos == (Vec2i {
                                    x: (c.x * 32 + 16) as i64,
                                    y: (c.y * 32 + 16) as i64,
                                })
                                &&& (laste.velocity matches Some(v) && v.value
                                    == spec_direction_speed(
                                    Vec2i {
                                        x: (-(c.x * 32 + 16)) as i64,
                                        y: (-(c.y * 32 + 16)) as i64,
                                    },
                                    PHANTOM_SPEED,
                                ))
                            }
                    }),
                    None => final(w).entities@ == old(w).entities@ && final(w).next_id == old(
                        w,
                    ).next_id,
                }
            }
        }),
{
    let fin = timer.tick(delta);
    if !fin {
        return None;
    }
    timer.elapsed = 0;
    let spot = match crate::enemies::pick_spawn_location(origin, width, height, spots) {
        Some(c) => c,
        None => {
            return None;
        },
    };
    let pos = Vec2i { x: spot.x * 32 + 16, y: spot.y * 32 + 16 };
    proof {
        assert((1i64 << 40) == 0x10000000000i64) by (bit_vector);
    }
    let e = phantom_entity(pos, Vec2i { x: -pos.x, y: -pos.y });
    proof {
        crate::intmath::lemma_norm_scale_bound(
            -pos.x as int,
            -pos.y as int,
            PHANTOM_SPEED as nat,
        );
        crate::intmath::lemma_norm_scale_bound(
            -pos.y as int,
            -pos.x as int,
            PHANTOM_SPEED as nat,
        );
        assert(crate::world::entity_wf(e));
    }
    let id = w.spawn(e);
    Some(id)
}

/// What chasing leaves of one entity when the player stands at `pp`: a
/// phantom with a velocity is redirected toward the player at phantom
/// speed; everything else is untouched.
pub open spec fn chased_phantom(e: Entity, pp: Vec2i) -> Entity {
    if crate::world::has_role(e.roles, crate::world::Role::Phantom) && e.velocity is Some {
        let d = Vec2i { x: (pp.x - e.pos.x) as i64, y: (pp.y - e.pos.y) as i64 };
        Entity {
            velocity: Some(Velocity { value: spec_direction_speed(d, PHANTOM_SPEED) }),
            ..e
        }
    } else {
        e
    }
}

/// Chasing: every phantom re-aims its drift at the player, at phantom
/// speed. Without a player present the tick is a quiet no-op.
pub fn chase_player(w: &mut World)
    requires
        crate::world::world_wf(*old(w)),
    ensures
        crate::world::world_wf(*final(w)),
        final(w).next_id == old(w).next_id,
        final(w).entities@.len() == old(w).entities@.len(),
        crate::enemies::first_player_from(old(w).entities@, 0) < 0 ==> final(w).entities@ == old(
            w,
        ).entities@,
        crate::enemies::first_player_from(old(w).entities@, 0) >= 0 ==> forall|i: int|
            0 <= i < old(w).entities@.len() ==> #[trigger] final(w).entities@[i] == chased_phantom(
                old(w).entities@[i],
                old(w).entities@[crate::enemies::first_player_from(old(w).entities@, 0)].pos,
            ),
{
    let n = w.entities.len();
    let ghost s0 = w.entities@;
    let mut player_pos: Option<Vec2i> = None;
    let mut i: usize = 0;
    while i < n
        invariant
            n == w.entities@.len(),
            i <= n,
            w.entities@ == s0,
            crate::world::entities_wf(s0, w.next_id),
            match player_pos {
                Some(pp2) => {
                    &&& 0 <= crate::enemies::first_player_from(s0, 0) < i
                    &&& pp2 == s0[crate::enemies::first_player_from(s0, 0)].pos
                    &&& -crate::world::POS_LIMIT <= pp2.x <= crate::world::POS_LIMIT
                    &&& -crate::world::POS_LIMIT <= pp2.y <= crate::world::POS_LIMIT
                },
                None => forall|j: int|
                    0 <= j < i ==> !crate::world::has_role(
                        (#[trigger] s0[j]).roles,
                        crate::world::Role::Player,
                    ),
            },
        decreases n - i,
    {
        if crate::world::roles_has(&w.entities[i].roles, crate::world::Role::Player)
            && player_pos.is_none() {
            player_pos = Some(w.entities[i].pos);
            proof {
                assert(crate::world::entity_wf(s0[i as int]));
                crate::enemies::lemma_first_player_found(s0, i as int);
            }
        }
        i += 1;
    }
    proof {
        if player_pos is None {
            crate::enemies::lemma_first_player_none(s0, n as int);
        }
    }
    match player_pos {
        Some(pp) => {
            let mut i: usize = 0;
            while i < n
                invariant
                    n == s0.len(),
                    i <= n,
                    w.next_id == old(w).next_id,
                    s0 == old(w).entities@,
                    crate::world::entities_wf(s0, old(w).next_id),
                    -crate::world::POS_LIMIT <= pp.x <= crate::world::POS_LIMIT,
                    -crate::world::POS_LIMIT <= pp.y <= crate::world::POS_LIMIT,
                    w.entities@.len() == n,
                    forall|i2: int| i <= i2 < n ==> #[trigger] w.entities@[i2] == s0[i2],
                    forall|i2: int|
                        0 <= i2 < i ==> #[trigger] w.entities@[i2] == chased_phantom(s0[i2], pp),
                decreases n - i,
            {
                let is_phantom = crate::world::roles_has(
                    &w.entities[i].roles,
                    crate::world::Role::Phantom,
                ) && w.entities[i].velocity.is_some();
                if is_phantom {
                    let dx = pp.x - w.entities[i].pos.x;
                    let dy = pp.y - w.entities[i].pos.y;
                    proof {
                        assert((1i64 << 40) == 0x10000000000i64) by (bit_vector);
                        assert((1u64 << 21) == 0x200000u64) by (bit_vector);
                        assert(PHANTOM_SPEED <= (1u64 << 21)) by (bit_vector);
                        assert(crate::world::entity_wf(s0[i as int]));
                    }
                    let e = &mut w.entities[i];
                    match &mut e.velocity {
                        Some(v) => {
                            v.change_direction_speed(Vec2i { x: dx, y: dy }, PHANTOM_SPEED);
                        },
                        None => {},
                    }
                    proof {
                        assert(w.entities@[i as int] == chased_phantom(s0[i as int], pp));
                    }
                } else {
                    proof {
                        assert(w.entities@[i as int] == chased_phantom(s0[i as int], pp));
                    }
                }
                i += 1;
            }
            proof {
                assert forall|i2: int|
                    0 <= i2 < n implies crate::world::same_skeleton(
                    #[trigger] s0[i2],
                    w.entities@[i2],
                ) && crate::world::entity_wf(w.entities@[i2]) by {
                    assert(w.entities@[i2] == chased_phantom(s0[i2], pp));
                    assert(crate::world::entity_wf(s0[i2]));
                    if crate::world::has_role(s0[i2].roles, crate::world::Role::Phantom)
                        && s0[i2].velocity is Some {
                        assert((1u64 << 21) == 0x200000u64) by (bit_vector);
                        let d = Vec2i {
                            x: (pp.x - s0[i2].pos.x) as i64,
                            y: (pp.y - s0[i2].pos.y) as i64,
                        };
                        crate::intmath::lemma_norm_scale_bound(
                            d.x as int,
                            d.y as int,
                            PHANTOM_SPEED as nat,
                        );
                        crate::intmath::lemma_norm_scale_bound(
                            d.y as int,
                            d.x as int,
                            PHANTOM_SPEED as nat,
                        );
                    }
                }
                crate::world::lemma_entities_wf_from(s0, w.entities@, old(w).next_id);
            }
        },
        None => {},
    }
}

} // verus!
