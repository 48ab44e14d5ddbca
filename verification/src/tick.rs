//! The per-tick pipeline, in the mandated order: movement and timers,
//! broad-phase detection, event dispatch, combat resolution (damage,
//! then knockback), containment, and the despawn sweep — each stage
//! reading only what the stages before it produced.

use crate::collision::{detect_rel, spec_events_for, CollisionEvent};
use crate::combat::{knocked_entity, knock_moved_entity};
use crate::health::{
    cooled_entity, damage_events_upto, damage_upto, dead, survivors, DamageEvent,
};
use crate::movement::{contain_upto, moved_entity};
use crate::world::{entities_wf, Entity, Role, World};
use vstd::prelude::*;

verus! {

/// Every entity after position integration.
pub open spec fn moved_all(s: Seq<Entity>, delta: u32) -> Seq<Entity> {
    Seq::new(s.len(), |i: int| moved_entity(s[i], delta))
}

/// Every entity after its knockback share of the tick.
pub open spec fn knock_moved_all(s: Seq<Entity>, delta: u32) -> Seq<Entity> {
    Seq::new(s.len(), |i: int| knock_moved_entity(s[i], delta))
}

/// Every entity after its cooldown tick.
pub open spec fn cooled_all(s: Seq<Entity>, delta: u32) -> Seq<Entity> {
    Seq::new(s.len(), |i: int| cooled_entity(s[i], delta))
}

/// Every entity after knockback aggregation.
pub open spec fn knocked_all(
    s: Seq<Entity>,
    evs: Seq<CollisionEvent>,
    recv: Role,
    pusher: Role,
) -> Seq<Entity> {
    Seq::new(s.len(), |i: int| knocked_entity(s, evs, recv, pusher, i))
}

/// What one full tick does, given the detected state `sd`: dispatch for
/// the interested roles, damage for the configured pairs in order,
/// knockback, containment for both mover roles, and the sweep.
pub open spec fn tick_rel(
    s0: Seq<Entity>,
    delta: u32,
    sd: Seq<Entity>,
    sfinal: Seq<Entity>,
    out: Seq<DamageEvent>,
) -> bool {
    let sm = cooled_all(knock_moved_all(moved_all(s0, delta), delta), delta);
    &&& detect_rel(sm, sd)
    &&& ({
        let evs = spec_events_for(sd, Role::Player) + spec_events_for(sd, Role::Phantom)
            + spec_events_for(sd, Role::Projectile);
        let m = evs.len() as int;
        let s1 = damage_upto(sd, evs, Role::Player, Role::Enemy, m);
        let s2 = damage_upto(s1, evs, Role::Enemy, Role::Projectile, m);
        let s3 = damage_upto(s2, evs, Role::Projectile, Role::Enemy, m);
        let s4 = knocked_all(s3, evs, Role::Player, Role::Phantom);
        let s5 = contain_upto(s4, evs, Role::Player, m);
        let s6 = contain_upto(s5, evs, Role::Enemy, m);
        &&& sfinal == survivors(s6, s6.len() as int)
        &&& out == damage_events_upto(sd, evs, Role::Player, Role::Enemy, m) + damage_events_upto(
            s1,
            evs,
            Role::Enemy,
            Role::Projectile,
            m,
        ) + damage_events_upto(s2, evs, Role::Projectile, Role::Enemy, m)
    })
}

/// Run one simulation tick over the world and return the damage
/// notifications it emitted, for the presentation layer. The arena is
/// bounded so that a tick's event count stays within the knockback
/// aggregation's machine bound.
#[verifier::rlimit(100)]
pub fn tick(w: &mut World, delta: u32) -> (out: Vec<DamageEvent>)
    requires
        crate::world::world_wf(*old(w)),
        delta <= crate::world::DELTA_LIMIT,
        old(w).entities@.len() <= 256,
    ensures
        crate::world::world_wf(*final(w)),
        final(w).next_id == old(w).next_id,
        exists|sd: Seq<Entity>|
            tick_rel(old(w).entities@, delta, sd, final(w).entities@, out@),
{
    let ghost s0 = w.entities@;
    crate::movement::update_position(w, delta);
    crate::combat::apply_knockback(w, delta);
    crate::health::tick_damage_cooldown(w, delta);
    proof {
        assert(w.entities@ =~= cooled_all(knock_moved_all(moved_all(s0, delta), delta), delta));
    }
    let ghost sm = w.entities@;
    crate::collision::detect_collisions(w);
    let ghost sd = w.entities@;
    let mut events = crate::collision::handle_collisions(&*w, Role::Player);
    let mut e2 = crate::collision::handle_collisions(&*w, Role::Phantom);
    let mut e3 = crate::collision::handle_collisions(&*w, Role::Projectile);
    events.append(&mut e2);
    events.append(&mut e3);
    proof {
        assert(events@ == spec_events_for(sd, Role::Player) + spec_events_for(sd, Role::Phantom)
            + spec_events_for(sd, Role::Projectile));
        assert(events@.len() <= 0x40000) by {
            assert forall|i: int|
                0 <= i < sd.len() && (#[trigger] sd[i]).collider is Some implies sd[i].collider.unwrap().collisions@.len()
                <= 256 by {
                assert(crate::collision::detected_entity(sm, i, sd[i]));
                crate::collision::lemma_overlap_ids_len(sm, i, sm.len() as int);
            }
            crate::collision::lemma_events_len(sd, Role::Player, sd.len() as int, 256);
            crate::collision::lemma_events_len(sd, Role::Phantom, sd.len() as int, 256);
            crate::collision::lemma_events_len(sd, Role::Projectile, sd.len() as int, 256);
            assert(sd.len() * 256 <= 256 * 256) by (nonlinear_arith)
                requires
                    sd.len() <= 256,
            ;
        }
    }
    let mut out = crate::health::take_damage(w, &events, Role::Player, Role::Enemy);
    let mut d2 = crate::health::take_damage(w, &events, Role::Enemy, Role::Projectile);
    let mut d3 = crate::health::take_damage(w, &events, Role::Projectile, Role::Enemy);
    out.append(&mut d2);
    out.append(&mut d3);
    crate::combat::knockback_collisions(w, &events, Role::Player, Role::Phantom);
    proof {
        assert(w.entities@ =~= knocked_all(
            damage_upto(
                damage_upto(
                    damage_upto(sd, events@, Role::Player, Role::Enemy, events@.len() as int),
                    events@,
                    Role::Enemy,
                    Role::Projectile,
                    events@.len() as int,
                ),
                events@,
                Role::Projectile,
                Role::Enemy,
                events@.len() as int,
            ),
            events@,
            Role::Player,
            Role::Phantom,
        ));
    }
    crate::movement::keep_inside_walls(w, &events, Role::Player);
    crate::movement::keep_inside_walls(w, &events, Role::Enemy);
    crate::health::despawn_dead_entities(w);
    proof {
        let evs = events@;
        let m = evs.len() as int;
        let s1 = damage_upto(sd, evs, Role::Player, Role::Enemy, m);
        let s2 = damage_upto(s1, evs, Role::Enemy, Role::Projectile, m);
        let s3 = damage_upto(s2, evs, Role::Projectile, Role::Enemy, m);
        let s4 = knocked_all(s3, evs, Role::Player, Role::Phantom);
        let s5 = contain_upto(s4, evs, Role::Player, m);
        let s6 = contain_upto(s5, evs, Role::Enemy, m);
        assert(detect_rel(sm, sd));
        assert(w.entities@ == survivors(s6, s6.len() as int));
        assert(out@ == damage_events_upto(sd, evs, Role::Player, Role::Enemy, m)
            + damage_events_upto(s1, evs, Role::Enemy, Role::Projectile, m) + damage_events_upto(
            s2,
            evs,
            Role::Projectile,
            Role::Enemy,
            m,
        ));
        assert(tick_rel(s0, delta, sd, w.entities@, out@));
    }
    out
}

/// Death is terminal: an entity whose health has reached zero leaves
/// the world in the sweep, and nothing dispatched from the swept world
/// after a fresh detection pass names it again — it generates no
/// further collision, damage or knockback events.
pub proof fn lemma_death_is_terminal(
    s: Seq<Entity>,
    next_id: u64,
    i: int,
    sd: Seq<Entity>,
    role: Role,
)
    requires
        entities_wf(s, next_id),
        0 <= i < s.len(),
        dead(s[i]),
        detect_rel(survivors(s, s.len() as int), sd),
    ensures
        forall|k: int|
            0 <= k < survivors(s, s.len() as int).len() ==> (#[trigger] survivors(
                s,
                s.len() as int,
            )[k]).id != s[i].id,
        forall|e: int|
            0 <= e < spec_events_for(sd, role).len() ==> (#[trigger] spec_events_for(
                sd,
                role,
            )[e]).entity != s[i].id && spec_events_for(sd, role)[e].collided_with != s[i].id,
{
    let n = s.len() as int;
    let sv = survivors(s, n);
    let id = s[i].id;
    crate::health::lemma_survivors_membership(s, n);
    assert forall|k: int| 0 <= k < sv.len() implies (#[trigger] sv[k]).id != id by {
        let i2 = choose|i2: int| 0 <= i2 < n && !crate::health::doomed(s, i2) && #[trigger] sv[k] == s[i2];
        if s[i2].id == id {
            if i2 < i {
                assert(s[i2].id != s[i].id);
            } else if i < i2 {
                assert(s[i].id != s[i2].id);
            } else {
                assert(crate::health::doomed(s, i2));
            }
        }
    }
    assert forall|k: int| 0 <= k < sd.len() implies (#[trigger] sd[k]).id != id by {
        assert(crate::collision::detected_entity(sv, k, sd[k]));
        assert(sv[k].id != id);
    }
    assert forall|k: int|
        0 <= k < sd.len() && (#[trigger] sd[k]).collider is Some implies forall|v: u64|
        sd[k].collider.unwrap().collisions@.contains(v) ==> exists|k2: int|
            0 <= k2 < sd.len() && (#[trigger] sd[k2]).id == v by {
        assert(crate::collision::detected_entity(sv, k, sd[k]));
        assert forall|v: u64|
            sd[k].collider.unwrap().collisions@.contains(v) implies exists|k2: int|
            0 <= k2 < sd.len() && (#[trigger] sd[k2]).id == v by {
            crate::collision::lemma_overlap_ids_present(sv, k, sv.len() as int, v);
            let k2 = choose|k2: int| 0 <= k2 < sv.len() && (#[trigger] sv[k2]).id == v;
            assert(crate::collision::detected_entity(sv, k2, sd[k2]));
            assert(sd[k2].id == v);
        }
    }
    crate::collision::lemma_no_events_for_absent_id(sd, role, id, sd.len() as int);
}

} // verus!
