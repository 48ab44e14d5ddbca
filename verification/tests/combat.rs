//! Combat scenarios run through whole ticks: damage with cooldowns,
//! knockback saturation, death and the end-to-end encounter.

use survivors_core::collision::{Collider, CollisionDamage};
use survivors_core::geometry::Vec2i;
use survivors_core::health::{CountdownTimer, Health};
use survivors_core::tick::tick;
use survivors_core::world::{Entity, Roles, World};

fn bare(pos: Vec2i) -> Entity {
    Entity::new(0, pos)
}

fn roles(player: bool, enemy: bool, phantom: bool, projectile: bool, wall: bool) -> Roles {
    Roles { player, enemy, phantom, projectile, wall }
}

fn square_collider(side: i64) -> Collider {
    Collider::new(Vec2i { x: side, y: side })
}

fn find_by_id(w: &World, id: u64) -> Option<&Entity> {
    w.entities.iter().find(|e| e.id == id)
}

/// Player with a 0.25 s damage cooldown next to an enemy dealing 5:
/// the first tick takes health to 25 and starts the cooldown; further
/// overlapping ticks within the cooldown leave 25; after it elapses the
/// next overlap takes health to 20.
#[test]
fn end_to_end_player_enemy_encounter() {
    let mut w = World::new();
    let mut player = bare(Vec2i { x: 0, y: 0 });
    player.roles = roles(true, false, false, false, false);
    player.collider = Some(square_collider(32));
    player.health = Some(Health::with_damage_cooldown(30, 250));
    let pid = w.spawn(player);
    let mut enemy = bare(Vec2i { x: 16, y: 0 });
    enemy.roles = roles(false, true, false, false, false);
    enemy.collider = Some(square_collider(32));
    enemy.damage = Some(CollisionDamage::new(5));
    enemy.health = Some(Health::new(10));
    w.spawn(enemy);

    let out = tick(&mut w, 16);
    let p = find_by_id(&w, pid).unwrap();
    assert_eq!(p.health.unwrap().amount, 25);
    assert!(p.cooldown.is_some());
    assert_eq!(out.len(), 1);
    assert_eq!(out[0].amount, 5);
    assert_eq!(out[0].receiver, pid);

    // 200 ms of further overlap: still within the cooldown
    let out2 = tick(&mut w, 100);
    let out3 = tick(&mut w, 100);
    assert_eq!(out2.len(), 0);
    assert_eq!(out3.len(), 0);
    let p = find_by_id(&w, pid).unwrap();
    assert_eq!(p.health.unwrap().amount, 25);

    // the cooldown elapses; the next overlapping tick lands a second hit
    let out4 = tick(&mut w, 100);
    let p = find_by_id(&w, pid).unwrap();
    assert_eq!(p.health.unwrap().amount, 20);
    assert_eq!(out4.len(), 1);
}

/// Many events against an entity under cooldown deal zero damage: two
/// overlapping enemies and an active cooldown leave health untouched.
#[test]
fn cooldown_blocks_all_hits_of_a_tick() {
    let mut w = World::new();
    let mut player = bare(Vec2i { x: 0, y: 0 });
    player.roles = roles(true, false, false, false, false);
    player.collider = Some(square_collider(32));
    player.health = Some(Health::with_damage_cooldown(30, 10_000));
    player.cooldown = Some(survivors_core::health::DamageCooldown::new(10_000));
    let pid = w.spawn(player);
    for k in 0..2 {
        let mut enemy = bare(Vec2i { x: 8 + k, y: 0 });
        enemy.roles = roles(false, true, false, false, false);
        enemy.collider = Some(square_collider(32));
        enemy.damage = Some(CollisionDamage::new(5));
        w.spawn(enemy);
    }
    let out = tick(&mut w, 16);
    assert_eq!(out.len(), 0);
    assert_eq!(find_by_id(&w, pid).unwrap().health.unwrap().amount, 30);
}

/// Without a cooldown in its health configuration, an entity is hit by
/// every qualifying event of the tick, saturating at zero.
#[test]
fn damage_saturates_at_zero() {
    let mut w = World::new();
    let mut victim = bare(Vec2i { x: 0, y: 0 });
    victim.roles = roles(true, false, false, false, false);
    victim.collider = Some(square_collider(32));
    victim.health = Some(Health::new(7));
    let vid = w.spawn(victim);
    for k in 0..2 {
        let mut enemy = bare(Vec2i { x: 8 + k, y: 0 });
        enemy.roles = roles(false, true, false, false, false);
        enemy.collider = Some(square_collider(32));
        enemy.damage = Some(CollisionDamage::new(5));
        w.spawn(enemy);
    }
    tick(&mut w, 16);
    // 7 - 5 - 5 saturates at 0, and the victim despawns in the same tick
    assert!(find_by_id(&w, vid).is_none());
}

/// Death is terminal: a killed entity despawns, its health-bar child
/// goes with it, and later ticks emit nothing about it.
#[test]
fn death_removes_entity_and_children() {
    let mut w = World::new();
    let mut target = bare(Vec2i { x: 0, y: 0 });
    // the target is both an enemy (for damage) and a phantom (so its
    // overlaps are dispatched)
    target.roles = roles(false, true, true, false, false);
    target.collider = Some(square_collider(32));
    target.health = Some(Health::new(5));
    let tid = w.spawn(target);
    let bar = bare(Vec2i { x: 0, y: 10 });
    w.spawn_child(bar, tid);
    let mut dagger = bare(Vec2i { x: 8, y: 0 });
    dagger.roles = roles(false, false, false, true, false);
    dagger.collider = Some(square_collider(26));
    dagger.damage = Some(CollisionDamage::new(5));
    w.spawn(dagger);
    assert_eq!(w.entities.len(), 3);

    tick(&mut w, 16);
    // the target and its child are gone; only the dagger remains
    assert!(find_by_id(&w, tid).is_none());
    assert_eq!(w.entities.len(), 1);
    assert!(w.entities[0].roles.projectile);

    // nothing in a later tick names the removed entity
    let out = tick(&mut w, 16);
    assert_eq!(out.len(), 0);
    for e in &w.entities {
        if let Some(c) = &e.collider {
            assert!(!c.collisions.contains(&tid));
        }
    }
}

/// A phantom overlapping the player knocks it back once; while the
/// effect runs, further overlaps are ignored — the displacement does
/// not change and the timer is not restarted.
#[test]
fn knockback_saturates_while_active() {
    let mut w = World::new();
    let mut player = bare(Vec2i { x: 0, y: 0 });
    player.roles = roles(true, false, false, false, false);
    player.collider = Some(square_collider(32));
    player.health = Some(Health::with_damage_cooldown(30, 250));
    let pid = w.spawn(player);
    let mut ghost = bare(Vec2i { x: 16, y: 0 });
    ghost.roles = roles(false, false, true, false, false);
    ghost.collider = Some(square_collider(32));
    w.spawn(ghost);

    tick(&mut w, 10);
    let kb1 = find_by_id(&w, pid).unwrap().knockback.unwrap();
    // pushed away from the phantom: to the left, scaled to distance 64
    assert_eq!(kb1.displacement.x, -64);
    assert_eq!(kb1.displacement.y, 0);
    assert_eq!(kb1.duration.elapsed, 0);

    tick(&mut w, 20);
    let kb2 = find_by_id(&w, pid).unwrap().knockback.unwrap();
    assert_eq!(kb2.displacement, kb1.displacement);
    assert_eq!(kb2.duration.elapsed, 20);
    // the tick moved the player by its share of the displacement
    assert_eq!(find_by_id(&w, pid).unwrap().pos.x, -12);
}

/// A knockback effect expires after its duration and is removed.
#[test]
fn knockback_expires() {
    let mut w = World::new();
    let mut player = bare(Vec2i { x: 0, y: 0 });
    player.roles = roles(true, false, false, false, false);
    player.knockback = Some(survivors_core::combat::KnockBack {
        displacement: Vec2i { x: 64, y: 0 },
        duration: CountdownTimer::new(100),
    });
    let pid = w.spawn(player);
    tick(&mut w, 100);
    assert!(find_by_id(&w, pid).unwrap().knockback.is_none());
    assert_eq!(find_by_id(&w, pid).unwrap().pos.x, 64);
}

/// Overlap symmetry: after detection both overlapping entities list
/// each other; a separated third lists no one.
#[test]
fn overlap_lists_are_symmetric() {
    let mut w = World::new();
    let mut a = bare(Vec2i { x: 0, y: 0 });
    a.collider = Some(square_collider(32));
    let ida = w.spawn(a);
    let mut b = bare(Vec2i { x: 16, y: 0 });
    b.collider = Some(square_collider(32));
    let idb = w.spawn(b);
    let mut c = bare(Vec2i { x: 500, y: 0 });
    c.collider = Some(square_collider(32));
    let idc = w.spawn(c);
    survivors_core::collision::detect_collisions(&mut w);
    let la = &find_by_id(&w, ida).unwrap().collider.as_ref().unwrap().collisions;
    let lb = &find_by_id(&w, idb).unwrap().collider.as_ref().unwrap().collisions;
    let lc = &find_by_id(&w, idc).unwrap().collider.as_ref().unwrap().collisions;
    assert!(la.contains(&idb));
    assert!(lb.contains(&ida));
    assert!(!la.contains(&idc));
    assert!(lc.is_empty());
}

/// Exactly-touching colliders are not reported as colliding.
#[test]
fn touching_colliders_produce_no_overlap() {
    let mut w = World::new();
    let mut a = bare(Vec2i { x: 0, y: 0 });
    a.collider = Some(square_collider(32));
    let ida = w.spawn(a);
    // 32 sub-units apart: the 32-wide boxes share exactly one edge
    let mut b = bare(Vec2i { x: 32, y: 0 });
    b.collider = Some(square_collider(32));
    w.spawn(b);
    survivors_core::collision::detect_collisions(&mut w);
    let la = &find_by_id(&w, ida).unwrap().collider.as_ref().unwrap().collisions;
    assert!(la.is_empty());
}

/// A mover overlapping a wall is pushed out along the shallower axis,
/// away from the wall's center.
#[test]
fn containment_pushes_mover_out_of_wall() {
    let mut w = World::new();
    let mut player = bare(Vec2i { x: -12, y: 0 });
    player.roles = roles(true, false, false, false, false);
    player.collider = Some(square_collider(32));
    let pid = w.spawn(player);
    let mut wall = bare(Vec2i { x: 16, y: 0 });
    wall.roles = roles(false, false, false, false, true);
    wall.collider = Some(Collider::new(Vec2i { x: 32, y: 200 }));
    w.spawn(wall);
    tick(&mut w, 0);
    // overlap was [0,4] x [-16,16]: 4 wide, 32 tall; the push is -4 on x
    assert_eq!(find_by_id(&w, pid).unwrap().pos.x, -16);
    assert_eq!(find_by_id(&w, pid).unwrap().pos.y, 0);
}

#[test]
fn timer_finishes_exactly_at_duration() {
    let mut t = CountdownTimer::new(100);
    assert!(!t.tick(60));
    assert_eq!(t.elapsed, 60);
    assert!(t.tick(40));
    assert_eq!(t.elapsed, 100);
    assert!(t.finished());
}

#[test]
fn health_ratio_is_exact() {
    let h = Health { amount: 25, total: 30, cooldown: None };
    assert_eq!(h.ratio_permille(), 833);
    let full = Health::new(30);
    assert_eq!(full.ratio_permille(), 1000);
}

/// A diagonal push is normalized before scaling: the knockback
/// magnitude stays within rounding of the fixed distance.
#[test]
fn diagonal_knockback_is_normalized() {
    let mut w = World::new();
    let mut player = bare(Vec2i { x: 1, y: 1 });
    player.roles = roles(true, false, false, false, false);
    player.collider = Some(square_collider(32));
    let pid = w.spawn(player);
    let mut ghost = bare(Vec2i { x: 0, y: 0 });
    ghost.roles = roles(false, false, true, false, false);
    ghost.collider = Some(square_collider(32));
    w.spawn(ghost);
    tick(&mut w, 10);
    let kb = find_by_id(&w, pid).unwrap().knockback.unwrap();
    assert_eq!(kb.displacement, Vec2i { x: 45, y: 45 });
    let m2 = kb.displacement.x * kb.displacement.x + kb.displacement.y * kb.displacement.y;
    assert!(m2 <= 64 * 64);
    assert!(m2 >= 62 * 62);
}
