//! Spawn bookkeeping, random spawn picking, weapons and chasing.

use survivors_core::enemies::{pick_from_candidates, pick_spawn_location, random_ring_offset};
use survivors_core::geometry::Vec2i;
use survivors_core::ghost::phantom_entity;
use survivors_core::health::CountdownTimer;
use survivors_core::levels::{ActiveSpawnList, GridCoords, SpawnLocations};
use survivors_core::player::{
    throw_weapon, weapon_spawns, Weapon, WeaponSpec, WeaponType,
};
use survivors_core::world::{Entity, Roles, World};

#[test]
fn pop_spawn_takes_from_first_positive_entry() {
    let mut list = ActiveSpawnList(vec![
        (String::from("crab"), 0),
        (String::from("bat"), 2),
        (String::from("spider"), 1),
    ]);
    assert_eq!(list.pop_spawn().unwrap(), "bat");
    assert_eq!(list.0[1].1, 1);
    assert_eq!(list.pop_spawn().unwrap(), "bat");
    assert_eq!(list.pop_spawn().unwrap(), "spider");
    assert!(list.pop_spawn().is_none());
    assert_eq!(list.0[0].1, 0);
}

#[test]
fn for_level_finds_matching_entry() {
    let spots = vec![GridCoords { x: 1, y: 2 }];
    let locs = SpawnLocations(vec![
        (String::from("lvl-a"), Vec::new()),
        (String::from("lvl-b"), spots),
    ]);
    let found = locs.for_level(&String::from("lvl-b")).unwrap();
    assert_eq!(found.len(), 1);
    assert_eq!(found[0], GridCoords { x: 1, y: 2 });
    assert!(locs.for_level(&String::from("lvl-c")).is_none());
}

#[test]
fn ring_offsets_lie_on_the_ring_and_vary() {
    let mut seen_different = false;
    let first = random_ring_offset();
    for _ in 0..50 {
        let (dx, dy) = random_ring_offset();
        assert!(dx.abs() <= 16 && dy.abs() <= 16);
        assert!(dx.abs() == 16 || dy.abs() == 16);
        if (dx, dy) != first {
            seen_different = true;
        }
    }
    assert!(seen_different);
}

#[test]
fn pick_from_candidates_takes_first_recorded_spot() {
    let cands = vec![
        GridCoords { x: 9, y: 9 },
        GridCoords { x: 2, y: 3 },
        GridCoords { x: 4, y: 4 },
    ];
    let spots = vec![GridCoords { x: 4, y: 4 }, GridCoords { x: 2, y: 3 }];
    let c = pick_from_candidates(&cands, &spots).unwrap();
    assert_eq!(c, GridCoords { x: 2, y: 3 });
    let none = pick_from_candidates(&cands, &Vec::new());
    assert!(none.is_none());
}

#[test]
fn picked_spawn_location_is_a_recorded_spot_in_bounds() {
    // every cell of the grid is a spot, so a pick always lands
    let mut spots = Vec::new();
    for x in 0..=40i64 {
        for y in 0..=40i64 {
            spots.push(GridCoords { x, y });
        }
    }
    for _ in 0..10 {
        let c = pick_spawn_location(GridCoords { x: 20, y: 20 }, 40, 40, &spots).unwrap();
        assert!(spots.contains(&c));
        assert!(0 <= c.x && c.x <= 40);
        assert!(0 <= c.y && c.y <= 40);
    }
}

#[test]
fn dagger_throws_four_projectiles() {
    let spawns = weapon_spawns(
        Vec2i { x: 100, y: 200 },
        Vec2i { x: 1, y: 0 },
        WeaponType::Dagger,
        Vec2i { x: 0, y: 1 },
    );
    assert_eq!(spawns.len(), 4);
    // up, left, down, right, each one throw distance out
    assert_eq!(spawns[0].pos, Vec2i { x: 100, y: 232 });
    assert_eq!(spawns[1].pos, Vec2i { x: 68, y: 200 });
    assert_eq!(spawns[2].pos, Vec2i { x: 100, y: 168 });
    assert_eq!(spawns[3].pos, Vec2i { x: 132, y: 200 });
    assert_eq!(spawns[0].velocity, Vec2i { x: 0, y: 200 });
    assert_eq!(spawns[3].velocity, Vec2i { x: 200, y: 0 });
    for s in &spawns {
        assert_eq!(s.damage, 5);
        assert_eq!(s.health, 1);
        assert_eq!(s.collider_size, Vec2i { x: 16, y: 26 });
    }
}

#[test]
fn weapon_cooldown_gates_throws() {
    let mut weapon = Weapon { kind: WeaponType::Dagger, cooldown: CountdownTimer::new(1000) };
    let player = Some((Vec2i { x: 0, y: 0 }, Vec2i { x: 1, y: 0 }));
    let none = throw_weapon(&mut weapon, player, 400, Vec2i { x: 1, y: 0 });
    assert_eq!(none.len(), 0);
    assert_eq!(weapon.cooldown.elapsed, 400);
    let thrown = throw_weapon(&mut weapon, player, 600, Vec2i { x: 1, y: 0 });
    assert_eq!(thrown.len(), 4);
    // the repeating cooldown restarted
    assert_eq!(weapon.cooldown.elapsed, 0);
}

#[test]
fn weapon_spec_of_dagger() {
    let ws = WeaponSpec::of(WeaponType::Dagger);
    assert_eq!(ws.speed, 200);
    assert_eq!(ws.distance, 32);
    assert_eq!(ws.damage, 5);
    assert_eq!(ws.health, 1);
}

#[test]
fn phantom_entity_carries_its_kit() {
    let g = phantom_entity(Vec2i { x: 64, y: 0 }, Vec2i { x: -64, y: 0 });
    assert!(g.roles.phantom);
    assert_eq!(g.health.unwrap().amount, 10);
    assert_eq!(g.damage.unwrap().amount, 5);
    // drifting toward the origin at phantom speed
    assert_eq!(g.velocity.unwrap().value, Vec2i { x: -60, y: 0 });
    assert_eq!(g.collider.unwrap().size, Vec2i { x: 32, y: 32 });
}

#[test]
fn enemies_chase_the_player() {
    let mut w = World::new();
    let mut player = Entity::new(0, Vec2i { x: 100, y: 0 });
    player.roles = Roles { player: true, enemy: false, phantom: false, projectile: false, wall: false };
    w.spawn(player);
    let mut enemy = Entity::new(0, Vec2i { x: 0, y: 0 });
    enemy.roles = Roles { player: false, enemy: true, phantom: false, projectile: false, wall: false };
    enemy.velocity = Some(survivors_core::movement::Velocity { value: Vec2i { x: 0, y: 60 } });
    let eid = w.spawn(enemy);
    survivors_core::enemies::chase_player(&mut w);
    let e = w.entities.iter().find(|e| e.id == eid).unwrap();
    // the speed is kept, the direction now points at the player
    assert_eq!(e.velocity.unwrap().value, Vec2i { x: 60, y: 0 });
    assert_eq!(e.facing.unwrap().value, Vec2i { x: 100, y: 0 });
}

#[test]
fn movement_intent_sets_player_velocity_and_facing() {
    let mut w = World::new();
    let mut player = Entity::new(0, Vec2i { x: 0, y: 0 });
    player.roles = Roles { player: true, enemy: false, phantom: false, projectile: false, wall: false };
    player.velocity = Some(survivors_core::movement::Velocity { value: Vec2i { x: 0, y: 0 } });
    let pid = w.spawn(player);
    survivors_core::player::apply_movement_intent(&mut w, Vec2i { x: 0, y: -1 });
    let p = w.entities.iter().find(|e| e.id == pid).unwrap();
    assert_eq!(p.velocity.unwrap().value, Vec2i { x: 0, y: -100 });
    assert_eq!(p.facing.unwrap().value, Vec2i { x: 0, y: -1 });
    // a zero intent stops the player but keeps the facing
    survivors_core::player::apply_movement_intent(&mut w, Vec2i { x: 0, y: 0 });
    let p = w.entities.iter().find(|e| e.id == pid).unwrap();
    assert_eq!(p.velocity.unwrap().value, Vec2i { x: 0, y: 0 });
    assert_eq!(p.facing.unwrap().value, Vec2i { x: 0, y: -1 });
}

#[test]
fn positions_integrate_velocity_over_time() {
    let mut w = World::new();
    let mut e = Entity::new(0, Vec2i { x: 0, y: 0 });
    e.velocity = Some(survivors_core::movement::Velocity { value: Vec2i { x: 100, y: -50 } });
    let id = w.spawn(e);
    survivors_core::movement::update_position(&mut w, 500);
    let e = w.entities.iter().find(|e2| e2.id == id).unwrap();
    assert_eq!(e.pos, Vec2i { x: 50, y: -25 });
}

#[test]
fn spawn_enemy_takes_budget_and_spawns_prototype() {
    let mut w = World::new();
    let mut timer = CountdownTimer::new(500);
    let mut budget = ActiveSpawnList(vec![(String::from("crab"), 1)]);
    let mut proto = Entity::new(0, Vec2i { x: 0, y: 0 });
    proto.health = Some(survivors_core::health::Health::new(8));
    proto.damage = Some(survivors_core::collision::CollisionDamage::new(3));
    proto.collider = Some(survivors_core::collision::Collider::new(Vec2i { x: 32, y: 32 }));
    let prototypes = vec![(String::from("crab"), proto)];
    let mut spots = Vec::new();
    for x in 0..=40i64 {
        for y in 0..=40i64 {
            spots.push(GridCoords { x, y });
        }
    }
    // the timer has not fired yet: nothing spawns
    let r = survivors_core::enemies::spawn_enemy(
        &mut w, &mut timer, &mut budget, &prototypes, &spots,
        GridCoords { x: 20, y: 20 }, 40, 40, 100,
    );
    assert!(r.is_none());
    assert_eq!(w.entities.len(), 0);
    // the timer fires: one crab appears and the budget is spent
    let r = survivors_core::enemies::spawn_enemy(
        &mut w, &mut timer, &mut budget, &prototypes, &spots,
        GridCoords { x: 20, y: 20 }, 40, 40, 400,
    );
    assert!(r.is_some());
    assert_eq!(w.entities.len(), 1);
    assert!(w.entities[0].roles.enemy);
    assert_eq!(w.entities[0].health.unwrap().amount, 8);
    assert_eq!(budget.0[0].1, 0);
}

#[test]
fn spawn_phantom_appears_on_a_recorded_spot() {
    let mut w = World::new();
    let mut timer = CountdownTimer::new(500);
    let mut spots = Vec::new();
    for x in 0..=40i64 {
        for y in 0..=40i64 {
            spots.push(GridCoords { x, y });
        }
    }
    let r = survivors_core::ghost::spawn_phantom(
        &mut w, &mut timer, &spots, GridCoords { x: 20, y: 20 }, 40, 40, 500,
    );
    assert!(r.is_some());
    assert_eq!(w.entities.len(), 1);
    let g = &w.entities[0];
    assert!(g.roles.phantom);
    // on a cell center inside the grid
    assert_eq!((g.pos.x - 16) % 32, 0);
    assert!(g.pos.x >= 16 && g.pos.x <= 40 * 32 + 16);
}

#[test]
fn spawn_enemy_consumes_budget_even_when_the_pick_fails() {
    let mut w = World::new();
    let mut timer = CountdownTimer::new(500);
    let mut budget = ActiveSpawnList(vec![(String::from("crab"), 2)]);
    let proto = Entity::new(0, Vec2i { x: 0, y: 0 });
    let prototypes = vec![(String::from("crab"), proto)];
    // no recorded spots: every random pick fails
    let spots: Vec<GridCoords> = Vec::new();
    let r = survivors_core::enemies::spawn_enemy(
        &mut w, &mut timer, &mut budget, &prototypes, &spots,
        GridCoords { x: 20, y: 20 }, 40, 40, 500,
    );
    assert!(r.is_none());
    assert_eq!(w.entities.len(), 0);
    // the interval's budget entry is spent regardless
    assert_eq!(budget.0[0].1, 1);
    assert_eq!(timer.elapsed, 0);
}

#[test]
fn spawn_enemy_without_matching_prototype_spawns_nothing() {
    let mut w = World::new();
    let mut timer = CountdownTimer::new(500);
    let mut budget = ActiveSpawnList(vec![(String::from("bat"), 1)]);
    let proto = Entity::new(0, Vec2i { x: 0, y: 0 });
    let prototypes = vec![(String::from("crab"), proto)];
    let mut spots = Vec::new();
    for x in 0..=40i64 {
        for y in 0..=40i64 {
            spots.push(GridCoords { x, y });
        }
    }
    let r = survivors_core::enemies::spawn_enemy(
        &mut w, &mut timer, &mut budget, &prototypes, &spots,
        GridCoords { x: 20, y: 20 }, 40, 40, 500,
    );
    assert!(r.is_none());
    assert_eq!(w.entities.len(), 0);
    assert_eq!(budget.0[0].1, 0);
}

#[test]
fn spawn_enemy_with_exhausted_budget_changes_nothing_but_the_timer() {
    let mut w = World::new();
    let mut timer = CountdownTimer::new(500);
    let mut budget = ActiveSpawnList(vec![(String::from("crab"), 0)]);
    let prototypes: Vec<(String, Entity)> = Vec::new();
    let spots: Vec<GridCoords> = Vec::new();
    let r = survivors_core::enemies::spawn_enemy(
        &mut w, &mut timer, &mut budget, &prototypes, &spots,
        GridCoords { x: 20, y: 20 }, 40, 40, 500,
    );
    assert!(r.is_none());
    assert_eq!(budget.0[0].1, 0);
    assert_eq!(timer.elapsed, 0);
}

#[test]
fn spawn_phantom_waits_for_its_timer() {
    let mut w = World::new();
    let mut timer = CountdownTimer::new(500);
    let spots = vec![GridCoords { x: 1, y: 1 }];
    let r = survivors_core::ghost::spawn_phantom(
        &mut w, &mut timer, &spots, GridCoords { x: 1, y: 1 }, 40, 40, 200,
    );
    assert!(r.is_none());
    assert_eq!(w.entities.len(), 0);
    assert_eq!(timer.elapsed, 200);
}

#[test]
fn phantoms_chase_the_player_at_phantom_speed() {
    let mut w = World::new();
    let mut player = Entity::new(0, Vec2i { x: 0, y: 200 });
    player.roles = Roles { player: true, enemy: false, phantom: false, projectile: false, wall: false };
    w.spawn(player);
    let mut ghost = Entity::new(0, Vec2i { x: 0, y: 0 });
    ghost.roles = Roles { player: false, enemy: false, phantom: true, projectile: false, wall: false };
    ghost.velocity = Some(survivors_core::movement::Velocity { value: Vec2i { x: -60, y: 0 } });
    let gid = w.spawn(ghost);
    survivors_core::ghost::chase_player(&mut w);
    let g = w.entities.iter().find(|e| e.id == gid).unwrap();
    // re-aimed at the player at the fixed phantom speed
    assert_eq!(g.velocity.unwrap().value, Vec2i { x: 0, y: 60 });
    // phantoms do not flip their facing while chasing
    assert!(g.facing.is_none());
}

#[test]
fn spawn_spots_group_by_level_without_duplicates() {
    let levels = vec![String::from("lvl-a"), String::from("lvl-b")];
    let ground = vec![
        (0usize, GridCoords { x: 1, y: 1 }),
        (1usize, GridCoords { x: 5, y: 5 }),
        (0usize, GridCoords { x: 2, y: 1 }),
        (0usize, GridCoords { x: 1, y: 1 }),
    ];
    let locs = survivors_core::levels::group_spawn_spots(&levels, &ground);
    assert_eq!(locs.0.len(), 2);
    let a = locs.for_level(&String::from("lvl-a")).unwrap();
    assert_eq!(a.len(), 2);
    assert!(a.contains(&GridCoords { x: 1, y: 1 }));
    assert!(a.contains(&GridCoords { x: 2, y: 1 }));
    let b = locs.for_level(&String::from("lvl-b")).unwrap();
    assert_eq!(b.len(), 1);
    assert_eq!(b[0], GridCoords { x: 5, y: 5 });
}

#[test]
fn diagonal_directions_are_normalized() {
    // a short diagonal is scaled to the target speed, not multiplied by
    // its own length
    let v = survivors_core::movement::Velocity::from_direction_speed(Vec2i { x: 1, y: 1 }, 100);
    assert_eq!(v.value, Vec2i { x: 70, y: 70 });
    let m2 = v.value.x * v.value.x + v.value.y * v.value.y;
    assert!(m2 <= 100 * 100);
    assert!(m2 >= 97 * 97);
    // the same through a redirection: speed 100 is kept within rounding
    let mut v2 = survivors_core::movement::Velocity { value: Vec2i { x: 60, y: 80 } };
    v2.change_direction(Vec2i { x: 1, y: 1 });
    assert_eq!(v2.value, Vec2i { x: 70, y: 70 });
}

#[test]
fn diagonal_intent_keeps_player_speed() {
    let mut w = World::new();
    let mut player = Entity::new(0, Vec2i { x: 0, y: 0 });
    player.roles = Roles { player: true, enemy: false, phantom: false, projectile: false, wall: false };
    player.velocity = Some(survivors_core::movement::Velocity { value: Vec2i { x: 0, y: 0 } });
    let pid = w.spawn(player);
    survivors_core::player::apply_movement_intent(&mut w, Vec2i { x: 1, y: 1 });
    let p = w.entities.iter().find(|e| e.id == pid).unwrap();
    // 100 sub-units/s split over the diagonal, never 100 per axis
    assert_eq!(p.velocity.unwrap().value, Vec2i { x: 70, y: 70 });
}
