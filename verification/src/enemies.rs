//! Enemy behaviour: chasing the player, and picking a free spawn spot
//! near the player with a bounded number of random attempts.

use crate::geometry::Vec2i;
use crate::levels::GridCoords;
use crate::world::{has_role, Entity, Role, World};
use rand::Rng;
use vstd::prelude::*;

verus! {

/// How many random spawn attempts are made before giving up for the
/// interval.
pub const SPAWN_ATTEMPTS: usize = 5;

/// Spawn candidates are drawn on the square ring this many cells from
/// the player.
pub const SPAWN_RING_RADIUS: i64 = 16;

/// An enemy role marker value for spawning.
#[derive(Clone, Copy, Debug, PartialEq, Eq, Structural)]
pub struct Enemy;

/// Relies on `rand::Rng::gen_range` over `0..n` on the thread-local
/// generator: the draw lies below `n`; the range is non-empty so the
/// call cannot panic.
#[verifier::external_body]
fn gen_range_u64(n: u64) -> (r: u64)
    requires
        n >= 1,
    ensures
        r < n,
{
    rand::thread_rng().gen_range(0..n)
}

/// A uniformly drawn cell on the square ring of Chebyshev radius
/// `SPAWN_RING_RADIUS` around the origin.
pub fn random_ring_offset() -> (r: (i64, i64))
    ensures
        -SPAWN_RING_RADIUS <= r.0 <= SPAWN_RING_RADIUS,
        -SPAWN_RING_RADIUS <= r.1 <= SPAWN_RING_RADIUS,
        r.0 == SPAWN_RING_RADIUS || r.0 == -SPAWN_RING_RADIUS || r.1 == SPAWN_RING_RADIUS
            || r.1 == -SPAWN_RING_RADIUS,
{
    let k = gen_range_u64(128);
    let side = k / 32;
    let t = (k % 32) as i64 - 16;
    proof {
        assert(k % 32 < 32) by (nonlinear_arith);
        assert(k / 32 < 4) by (nonlinear_arith)
            requires
                k < 128,
        ;
    }
    if side == 0 {
        (t, 16)
    } else if side == 1 {
        (t, -16)
    } else if side == 2 {
        (16, t)
    } else {
        (-16, t)
    }
}

/// Clamp a coordinate into `0..=hi`.
pub fn clamp_coord(v: i64, hi: i64) -> (r: i64)
    requires
        hi >= 0,
    ensures
        r == if v < 0 {
            0int
        } else if v > hi {
            hi as int
        } else {
            v as int
        },
{
    if v < 0 {
        0
    } else if v > hi {
        hi
    } else {
        v
    }
}

/// Whether the spot list contains the coordinate.
pub fn spots_contain(spots: &Vec<GridCoords>, c: &GridCoords) -> (b: bool)
    ensures
        b == spots@.contains(*c),
{
    let n = spots.len();
    let mut i: usize = 0;
    while i < n
        invariant
            n == spots@.len(),
            i <= n,
            forall|i2: int| 0 <= i2 < i ==> spots@[i2] != *c,
        decreases n - i,
    {
        if spots[i].x == c.x && spots[i].y == c.y {
            proof {
                assert(spots@[i as int] == *c);
            }
            return true;
        }
        i += 1;
    }
    proof {
        if spots@.contains(*c) {
            let i2 = choose|i2: int| 0 <= i2 < spots@.len() && spots@[i2] == *c;
            assert(spots@[i2] != *c);
        }
    }
    false
}

/// The first candidate that is a recorded spawn spot, if any.
pub fn pick_from_candidates(cands: &Vec<GridCoords>, spots: &Vec<GridCoords>) -> (r: Option<
    GridCoords,
>)
    ensures
        match r {
            Some(c) => exists|i: int|
                {
                    &&& 0 <= i < cands@.len()
                    &&& #[trigger] cands@[i] == c
                    &&& spots@.contains(c)
                    &&& forall|j: int| 0 <= j < i ==> !spots@.contains(#[trigger] cands@[j])
                },
            None => forall|i: int| 0 <= i < cands@.len() ==> !spots@.contains(#[trigger] cands@[i]),
        },
{
    let n = cands.len();
    let mut i: usize = 0;
    while i < n
        invariant
            n == cands@.len(),
            i <= n,
            forall|j: int| 0 <= j < i ==> !spots@.contains(#[trigger] cands@[j]),
        decreases n - i,
    {
        let c = cands[i];
        if spots_contain(spots, &c) {
            return Some(c);
        }
        i += 1;
    }
    None
}

/// Pick an unoccupied spawn spot near the player: up to
/// `SPAWN_ATTEMPTS` random cells on the spawn ring around the player's
/// cell, clamped into the grid, the first of which that is a recorded
/// spawn spot wins. Failing every attempt is not an error: the spawn is
/// skipped for this interval.
pub fn pick_spawn_location(
    origin: GridCoords,
    width: i64,
    height: i64,
    spots: &Vec<GridCoords>,
) -> (r: Option<GridCoords>)
    requires
        0 <= width <= 0x10000,
        0 <= height <= 0x10000,
        -0x100000 <= origin.x <= 0x100000,
        -0x100000 <= origin.y <= 0x100000,
    ensures
        match r {
            Some(c) => spots@.contains(c) && 0 <= c.x <= width && 0 <= c.y <= height,
            None => true,
        },
{
    let mut cands: Vec<GridCoords> = Vec::new();
    let mut a: usize = 0;
    while a < SPAWN_ATTEMPTS
        invariant
            a <= SPAWN_ATTEMPTS,
            0 <= width <= 0x10000,
            0 <= height <= 0x10000,
            -0x100000 <= origin.x <= 0x100000,
            -0x100000 <= origin.y <= 0x100000,
            forall|i: int|
                0 <= i < cands@.len() ==> 0 <= (#[trigger] cands@[i]).x <= width && 0 <= cands@[i].y
                    <= height,
        decreases SPAWN_ATTEMPTS - a,
    {
        let (dx, dy) = random_ring_offset();
        let c = GridCoords {
            x: clamp_coord(origin.x + dx, width),
            y: clamp_coord(origin.y + dy, height),
        };
        cands.push(c);
        a += 1;
    }
    let r = pick_from_candidates(&cands, spots);
    proof {
        if r is Some {
            let c = r.unwrap();
            let i = choose|i: int|
                0 <= i < cands@.len() && #[trigger] cands@[i] == c && spots@.contains(c);
        }
    }
    r
}

/// Build an enemy entity from a prototype's components, standing at
/// `pos`: the enemy role plus the prototype's collider shape, contact
/// damage, health and velocity.
pub fn enemy_from_prototype(prototype: &Entity, pos: Vec2i) -> (e: Entity)
    ensures
        e.id == 0,
        e.pos == pos,
        e.roles.enemy,
        !e.roles.player && !e.roles.wall,
        e.parent is None,
        e.cooldown is None,
        e.knockback is None,
        (prototype.collider matches Some(c) ==> e.collider matches Some(c2) && c2.size == c.size
            && c2.offset == c.offset && c2.collisions@ =~= Seq::<u64>::empty()),
        (prototype.collider is None ==> e.collider is None),
        e.health == prototype.health,
        e.damage == prototype.damage,
        e.velocity == prototype.velocity,
        e.facing == prototype.facing,
{
    let collider = match &prototype.collider {
        Some(c) => Some(crate::collision::Collider::with_size_and_offset(c.size, c.offset)),
        None => None,
    };
    Entity {
        id: 0,
        pos,
        roles: crate::world::Roles {
            player: false,
            enemy: true,
            phantom: false,
            projectile: false,
            wall: false,
        },
        parent: None,
        collider,
        health: prototype.health,
        damage: prototype.damage,
        cooldown: None,
        knockback: None,
        velocity: prototype.velocity,
        facing: prototype.facing,
    }
}


/// The index of the first entity carrying the player role, or -1.
pub open spec fn first_player_from(s: Seq<Entity>, i: int) -> int
    decreases s.len() - i,
{
    if i < 0 || i >= s.len() {
        -1
    } else if has_role(s[i].roles, Role::Player) {
        i
    } else {
        first_player_from(s, i + 1)
    }
}

/// What chasing leaves of one entity when the player stands at `pp`: an
/// enemy with a velocity turns toward the player, keeping its speed
/// (capped at the machine bound), and faces the player; everything else
/// is untouched.
pub open spec fn chased_entity(e: Entity, pp: Vec2i) -> Entity {
    if has_role(e.roles, Role::Enemy) && e.velocity is Some {
        let d = Vec2i { x: (pp.x - e.pos.x) as i64, y: (pp.y - e.pos.y) as i64 };
        let v0 = e.velocity.unwrap().value;
        let speed = crate::geometry::min_i(
            crate::intmath::sqrt_floor((v0.x * v0.x + v0.y * v0.y) as nat) as int,
            (1u64 << 21) as int,
        ) as u64;
        Entity {
            velocity: Some(
                crate::movement::Velocity {
                    value: crate::movement::spec_direction_speed(d, speed),
                },
            ),
            facing: Some(crate::movement::Facing { value: d }),
            ..e
        }
    } else {
        e
    }
}

/// Chasing: every enemy redirects its velocity toward the player,
/// keeping its speed, and faces the player. Without a player present
/// the tick is a quiet no-op.
pub fn chase_player(w: &mut World)
    requires
        crate::world::world_wf(*old(w)),
    ensures
        crate::world::world_wf(*final(w)),
        final(w).next_id == old(w).next_id,
        final(w).entities@.len() == old(w).entities@.len(),
        first_player_from(old(w).entities@, 0) < 0 ==> final(w).entities@ == old(w).entities@,
        first_player_from(old(w).entities@, 0) >= 0 ==> forall|i: int|
            0 <= i < old(w).entities@.len() ==> #[trigger] final(w).entities@[i] == chased_entity(
                old(w).entities@[i],
                old(w).entities@[first_player_from(old(w).entities@, 0)].pos,
            ),
{
    let n = w.entities.len();
    let ghost s0 = w.entities@;
    let mut player_pos: Option<Vec2i> = None;
    let mut i: usize = 0;
    while i < n
        invariant
            n == w.entities@.len(),
            i <= n,
            w.entities@ == s0,
            crate::world::entities_wf(s0, w.next_id),
            match player_pos {
                Some(pp2) => {
                    &&& 0 <= first_player_from(s0, 0) < i
                    &&& pp2 == s0[first_player_from(s0, 0)].pos
                    &&& -crate::world::POS_LIMIT <= pp2.x <= crate::world::POS_LIMIT
                    &&& -crate::world::POS_LIMIT <= pp2.y <= crate::world::POS_LIMIT
                },
                None => forall|j: int|
                    0 <= j < i ==> !has_role((#[trigger] s0[j]).roles, Role::Player),
            },
        decreases n - i,
    {
        if crate::world::roles_has(&w.entities[i].roles, Role::Player) && player_pos.is_none() {
            player_pos = Some(w.entities[i].pos);
            proof {
                assert(crate::world::entity_wf(s0[i as int]));
                lemma_first_player_found(s0, i as int);
            }
        }
        i += 1;
    }
    proof {
        if player_pos is None {
            lemma_first_player_none(s0, n as int);
        }
    }
    match player_pos {
        Some(pp) => {
            let mut i: usize = 0;
            while i < n
                invariant
                    n == s0.len(),
                    i <= n,
                    w.next_id == old(w).next_id,
                    s0 == old(w).entities@,
                    crate::world::entities_wf(s0, old(w).next_id),
                    -crate::world::POS_LIMIT <= pp.x <= crate::world::POS_LIMIT,
                    -crate::world::POS_LIMIT <= pp.y <= crate::world::POS_LIMIT,
                    w.entities@.len() == n,
                    forall|i2: int| i <= i2 < n ==> #[trigger] w.entities@[i2] == s0[i2],
                    forall|i2: int|
                        0 <= i2 < i ==> #[trigger] w.entities@[i2] == chased_entity(s0[i2], pp),
                decreases n - i,
            {
                let is_enemy = crate::world::roles_has(&w.entities[i].roles, Role::Enemy)
                    && w.entities[i].velocity.is_some();
                if is_enemy {
                    let dx = pp.x - w.entities[i].pos.x;
                    let dy = pp.y - w.entities[i].pos.y;
                    proof {
                        assert((1i64 << 40) == 0x10000000000i64) by (bit_vector);
                        assert((1i64 << 21) == 0x200000i64) by (bit_vector);
                        assert((1u64 << 21) == 0x200000u64) by (bit_vector);
                    }
                    let e = &mut w.entities[i];
                    match &mut e.velocity {
                        Some(v) => {
                            v.change_direction(Vec2i { x: dx, y: dy });
                        },
                        None => {},
                    }
                    e.facing = Some(crate::movement::Facing { value: Vec2i { x: dx, y: dy } });
                    proof {
                        assert(w.entities@[i as int] == chased_entity(s0[i as int], pp));
                    }
                } else {
                    proof {
                        assert(w.entities@[i as int] == chased_entity(s0[i as int], pp));
                    }
                }
                i += 1;
            }
            proof {
                assert forall|i2: int|
                    0 <= i2 < n implies crate::world::same_skeleton(
                    #[trigger] s0[i2],
                    w.entities@[i2],
                ) && crate::world::entity_wf(w.entities@[i2]) by {
                    assert(w.entities@[i2] == chased_entity(s0[i2], pp));
                    assert(crate::world::entity_wf(s0[i2]));
                    if has_role(s0[i2].roles, Role::Enemy) && s0[i2].velocity is Some {
                        assert((1u64 << 21) == 0x200000u64) by (bit_vector);
                        let d = Vec2i {
                            x: (pp.x - s0[i2].pos.x) as i64,
                            y: (pp.y - s0[i2].pos.y) as i64,
                        };
                        let v0 = s0[i2].velocity.unwrap().value;
                        let speed = crate::geometry::min_i(
                            crate::intmath::sqrt_floor((v0.x * v0.x + v0.y * v0.y) as nat) as int,
                            (1u64 << 21) as int,
                        ) as u64;
                        crate::intmath::lemma_norm_scale_bound(d.x as int, d.y as int, speed as nat);
                        crate::intmath::lemma_norm_scale_bound(d.y as int, d.x as int, speed as nat);
                    }
                }
                crate::world::lemma_entities_wf_from(s0, w.entities@, old(w).next_id);
            }
        },
        None => {},
    }
}

/// Scanning forward, the first entity with the player role is the first
/// player index.
pub proof fn lemma_first_player_found(s: Seq<Entity>, i: int)
    requires
        0 <= i < s.len(),
        has_role(s[i].roles, Role::Player),
        forall|j: int| 0 <= j < i ==> !has_role((#[trigger] s[j]).roles, Role::Player),
    ensures
        first_player_from(s, 0) == i,
{
    lemma_first_player_step(s, 0, i);
}

proof fn lemma_first_player_step(s: Seq<Entity>, k: int, i: int)
    requires
        0 <= k <= i < s.len(),
        has_role(s[i].roles, Role::Player),
        forall|j: int| k <= j < i ==> !has_role((#[trigger] s[j]).roles, Role::Player),
    ensures
        first_player_from(s, k) == i,
    decreases i - k,
{
    if k < i {
        lemma_first_player_step(s, k + 1, i);
    }
}

/// Without any player entity there is no first player index.
pub proof fn lemma_first_player_none(s: Seq<Entity>, n: int)
    requires
        n == s.len(),
        forall|j: int| 0 <= j < n ==> !has_role((#[trigger] s[j]).roles, Role::Player),
    ensures
        first_player_from(s, 0) < 0,
{
    lemma_first_player_none_from(s, 0);
}

proof fn lemma_first_player_none_from(s: Seq<Entity>, k: int)
    requires
        0 <= k,
        forall|j: int| k <= j < s.len() ==> !has_role((#[trigger] s[j]).roles, Role::Player),
    ensures
        first_player_from(s, k) < 0,
    decreases s.len() - k,
{
    if k < s.len() {
        lemma_first_player_none_from(s, k + 1);
    }
}

/// Spawn attempt for one interval: when the repeating timer completes
/// and restarts, one enemy kind is taken from the spawn budget — the
/// first with a positive count — a free spot near the player is picked
/// at random, and the first prototype of that kind is spawned there
/// with its collider shape, contact damage, health, velocity and
/// facing. While the timer runs, or with an exhausted budget, nothing
/// happens; a failed random pick or a missing prototype still consumes
/// the budget entry and skips the interval.
#[verifier::rlimit(100)]
pub fn spawn_enemy(
    w: &mut World,
    timer: &mut crate::health::CountdownTimer,
    spawns: &mut crate::levels::ActiveSpawnList,
    prototypes: &Vec<(String, Entity)>,
    spots: &Vec<GridCoords>,
    origin: GridCoords,
    width: i64,
    height: i64,
    delta: u32,
) -> (r: Option<u64>)
    requires
        crate::world::world_wf(*old(w)),
        old(w).next_id < u64::MAX,
        crate::health::timer_wf(*old(timer)),
        0 <= width <= 0x10000,
        0 <= height <= 0x10000,
        -0x100000 <= origin.x <= 0x100000,
        -0x100000 <= origin.y <= 0x100000,
        forall|i: int|
            0 <= i < prototypes@.len() ==> crate::world::entity_wf((#[trigger] prototypes@[i]).1),
    ensures
        crate::world::world_wf(*final(w)),
        crate::health::timer_wf(*final(timer)),
        final(timer).duration == old(timer).duration,
        ({
            let ticked = crate::health::spec_tick(*old(timer), delta);
            if ticked.elapsed != ticked.duration {
                // the interval has not elapsed: nothing moves
                &&& *final(timer) == ticked
                &&& r is None
                &&& final(w).entities@ == old(w).entities@
                &&& final(w).next_id == old(w).next_id
                &&& final(spawns).0@ == old(spawns).0@
            } else if forall|i: int|
                0 <= i < old(spawns).0@.len() ==> (#[trigger] old(spawns).0@[i]).1 <= 0 {
                // the budget is exhausted: the timer restarts, nothing else
                &&& final(timer).elapsed == 0
                &&& r is None
                &&& final(w).entities@ == old(w).entities@
                &&& final(w).next_id == old(w).next_id
                &&& final(spawns).0@ == old(spawns).0@
            } else {
                // the first positive budget entry is consumed either way
                &&& final(timer).elapsed == 0
                &&& exists|i: int|
                    {
                        &&& 0 <= i < old(spawns).0@.len()
                        &&& (#[trigger] old(spawns).0@[i]).1 > 0
                        &&& forall|j: int| 0 <= j < i ==> (#[trigger] old(spawns).0@[j]).1 <= 0
                        &&& final(spawns).0@ == old(spawns).0@.update(
                            i,
                            (old(spawns).0@[i].0, (old(spawns).0@[i].1 - 1) as i64),
                        )
                        &&& ((forall|j: int|
                            0 <= j < prototypes@.len() ==> (#[trigger] prototypes@[j]).0@ != old(
                                spawns,
                            ).0@[i].0@) ==> r is None)
                        &&& match r {
                            Some(id) => ({
                                let laste = final(w).entities@.last();
                                &&& id == old(w).next_id
                                &&& final(w).next_id == old(w).next_id + 1
                                &&& final(w).entities@.len() == old(w).entities@.len() + 1
                                &&& forall|k: int|
                                    0 <= k < old(w).entities@.len()
                                        ==> #[trigger] final(w).entities@[k]
                                        == old(w).entities@[k]
                                &&& laste.id == id
                                &&& laste.roles.enemy
                                &&& !laste.roles.player
                                &&& !laste.roles.wall
                                &&& laste.parent is None
                                &&& laste.cooldown is None
                                &&& laste.knockback is None
                                // the spawned enemy carries the kit of the
                                // first prototype of the popped kind
                                &&& exists|j: int|
                                    {
                                        &&& 0 <= j < prototypes@.len()
                                        &&& (#[trigger] prototypes@[j]).0@ == old(spawns).0@[i].0@
                                        &&& forall|j2: int|
                                            0 <= j2 < j ==> (#[trigger] prototypes@[j2]).0@ != old(
                                                spawns,
                                            ).0@[i].0@
                                        &&& laste.health == prototypes@[j].1.health
                                        &&& laste.damage == prototypes@[j].1.damage
                                        &&& laste.velocity == prototypes@[j].1.velocity
                                        &&& laste.facing == prototypes@[j].1.facing
                                        &&& (prototypes@[j].1.collider matches Some(c)
                                            ==> (laste.collider matches Some(c2) && c2.size
                                            == c.size && c2.offset == c.offset && c2.collisions@
                                            =~= Seq::<u64>::empty()))
                                        &&& (prototypes@[j].1.collider is None
                                            ==> laste.collider is None)
                                    }
                                &&& exists|c: GridCoords|
                                    spots@.contains(c) && 0 <= c.x <= width && 0 <= c.y <= height
                                        && laste.pos == (crate::geometry::Vec2i {
                                        x: (c.x * 32 + 16) as i64,
                                        y: (c.y * 32 + 16) as i64,
                                    })
                            }),
                            None => final(w).entities@ == old(w).entities@ && final(w).next_id
                                == old(w).next_id,
                        }
                    }
            }
        }),
{
    let fin = timer.tick(delta);
    if !fin {
        return None;
    }
    timer.elapsed = 0;
    let ghost old_budget = spawns.0@;
    let name = match spawns.pop_spawn() {
        Some(n) => n,
        None => {
            return None;
        },
    };
    let ghost bi = choose|i: int|
        {
            &&& 0 <= i < old_budget.len()
            &&& (#[trigger] old_budget[i]).1 > 0
            &&& forall|j: int| 0 <= j < i ==> (#[trigger] old_budget[j]).1 <= 0
            &&& name@ == old_budget[i].0@
            &&& spawns.0@ == old_budget.update(
                i,
                (old_budget[i].0, (old_budget[i].1 - 1) as i64),
            )
        };
    let spot = match pick_spawn_location(origin, width, height, spots) {
        Some(c) => c,
        None => {
            return None;
        },
    };
    let pos = Vec2i { x: spot.x * 32 + 16, y: spot.y * 32 + 16 };
    let n = prototypes.len();
    let mut found: Option<usize> = None;
    let mut i: usize = 0;
    while i < n
        invariant
            n == prototypes@.len(),
            i <= n,
            match found {
                Some(j) => 0 <= j < i && (prototypes@[j as int].0)@ == name@ && forall|j2: int|
                    0 <= j2 < j ==> ((#[trigger] prototypes@[j2]).0)@ != name@,
                None => forall|j2: int| 0 <= j2 < i ==> ((#[trigger] prototypes@[j2]).0)@ != name@,
            },
        decreases n - i,
    {
        if found.is_none() && prototypes[i].0.eq(&name) {
            found = Some(i);
        }
        i += 1;
    }
    match found {
        Some(j) => {
            let e = enemy_from_prototype(&prototypes[j].1, pos);
            proof {
                assert(crate::world::entity_wf(prototypes@[j as int].1));
                assert(crate::world::entity_wf(e));
            }
            let id = w.spawn(e);
            Some(id)
        },
        None => None,
    }
}

} // verus!
