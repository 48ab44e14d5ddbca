//! Knockback effects.

use crate::collision::CollisionEvent;
use crate::geometry::Vec2i;
use crate::health::CountdownTimer;
use crate::intmath::norm_scale;
use crate::world::{has_id, has_role, idx_of, Entity, Role, World};
use vstd::prelude::*;

verus! {

/// How far a knockback pushes, in sub-units.
pub const KNOCK_BACK_DISTANCE: u64 = 64;

/// How long a knockback lasts, in milliseconds.
pub const KNOCK_BACK_DURATION: u32 = 100;

/// A short forced displacement: while present, the entity moves by
/// `displacement` spread evenly over the timer's duration, and normal
/// knockback requests are ignored.
#[derive(Clone, Copy, Debug, PartialEq, Eq, Structural)]
pub struct KnockBack {
    pub displacement: Vec2i,
    pub duration: CountdownTimer,
}

/// Whether an event contributes a push to entity `id`: it targets the
/// entity and its other party carries the pusher role.
pub open spec fn push_qual(s: Seq<Entity>, ev: CollisionEvent, pusher: Role, id: u64) -> bool {
    &&& ev.entity == id
    &&& has_id(s, ev.collided_with)
    &&& has_role(s[idx_of(s, ev.collided_with)].roles, pusher)
}

/// The x component of the summed push direction on entity `i` over the
/// first `n` events: receiver position minus pusher position, summed.
pub open spec fn push_sum_x(
    s: Seq<Entity>,
    evs: Seq<CollisionEvent>,
    i: int,
    pusher: Role,
    n: int,
) -> int
    decreases n,
{
    if n <= 0 {
        0
    } else {
        push_sum_x(s, evs, i, pusher, n - 1) + if push_qual(s, evs[n - 1], pusher, s[i].id) {
            s[i].pos.x - s[idx_of(s, evs[n - 1].collided_with)].pos.x
        } else {
            0
        }
    }
}

/// The y component of the summed push direction.
pub open spec fn push_sum_y(
    s: Seq<Entity>,
    evs: Seq<CollisionEvent>,
    i: int,
    pusher: Role,
    n: int,
) -> int
    decreases n,
{
    if n <= 0 {
        0
    } else {
        push_sum_y(s, evs, i, pusher, n - 1) + if push_qual(s, evs[n - 1], pusher, s[i].id) {
            s[i].pos.y - s[idx_of(s, evs[n - 1].collided_with)].pos.y
        } else {
            0
        }
    }
}

/// How many of the first `n` events push entity `i`.
pub open spec fn push_count(
    s: Seq<Entity>,
    evs: Seq<CollisionEvent>,
    i: int,
    pusher: Role,
    n: int,
) -> int
    decreases n,
{
    if n <= 0 {
        0
    } else {
        push_count(s, evs, i, pusher, n - 1) + if push_qual(s, evs[n - 1], pusher, s[i].id) {
            1int
        } else {
            0int
        }
    }
}

/// What the knockback pass leaves of entity `i`: an entity of the
/// receiver role that was pushed at least once and is not already under
/// a knockback gets one — the summed push direction scaled to the fixed
/// knockback distance, over the fixed short duration. An entity already
/// displaced ignores every request of the tick.
pub open spec fn knocked_entity(
    s: Seq<Entity>,
    evs: Seq<CollisionEvent>,
    recv: Role,
    pusher: Role,
    i: int,
) -> Entity {
    let e = s[i];
    let n = evs.len() as int;
    if has_role(e.roles, recv) && e.knockback is None && push_count(s, evs, i, pusher, n) > 0 {
        let dx = push_sum_x(s, evs, i, pusher, n);
        let dy = push_sum_y(s, evs, i, pusher, n);
        Entity {
            knockback: Some(
                KnockBack {
                    displacement: Vec2i {
                        x: norm_scale(dx, dy, KNOCK_BACK_DISTANCE as nat) as i64,
                        y: norm_scale(dy, dx, KNOCK_BACK_DISTANCE as nat) as i64,
                    },
                    duration: CountdownTimer { duration: KNOCK_BACK_DURATION, elapsed: 0 },
                },
            ),
            ..e
        }
    } else {
        e
    }
}

/// Knockback saturation: an entity already carrying an active Knockback
/// Effect ignores every further knockback request of the tick.
pub proof fn lemma_knockback_saturates(
    s: Seq<Entity>,
    evs: Seq<CollisionEvent>,
    recv: Role,
    pusher: Role,
    i: int,
)
    requires
        0 <= i < s.len(),
        s[i].knockback is Some,
    ensures
        knocked_entity(s, evs, recv, pusher, i) == s[i],
{
}

/// Knockback aggregation: for every entity of the receiver role without
/// an active knockback, sum the push directions of this tick's events
/// whose pusher matches, scale the sum to the fixed knockback distance
/// (a zero sum gives a zero displacement), and attach the effect.
pub fn knockback_collisions(w: &mut World, events: &Vec<CollisionEvent>, recv: Role, pusher: Role)
    requires
        crate::world::world_wf(*old(w)),
        events@.len() <= 0x40000,
    ensures
        crate::world::world_wf(*final(w)),
        final(w).next_id == old(w).next_id,
        final(w).entities@.len() == old(w).entities@.len(),
        forall|i: int|
            0 <= i < old(w).entities@.len() ==> #[trigger] final(w).entities@[i] == knocked_entity(
                old(w).entities@,
                events@,
                recv,
                pusher,
                i,
            ),
{
    let ghost s0 = w.entities@;
    let n = w.entities.len();
    let m = events.len();
    let mut i: usize = 0;
    while i < n
        invariant
            n == s0.len(),
            m == events@.len(),
            m <= 0x40000,
            i <= n,
            w.next_id == old(w).next_id,
            s0 == old(w).entities@,
            crate::world::entities_wf(s0, old(w).next_id),
            w.entities@.len() == n,
            forall|i2: int| i <= i2 < n ==> #[trigger] w.entities@[i2] == s0[i2],
            forall|i2: int|
                0 <= i2 < i ==> #[trigger] w.entities@[i2] == knocked_entity(
                    s0,
                    events@,
                    recv,
                    pusher,
                    i2,
                ),
            forall|i2: int|
                0 <= i2 < n ==> (#[trigger] w.entities@[i2]).id == s0[i2].id
                    && w.entities@[i2].pos == s0[i2].pos && w.entities@[i2].roles == s0[i2].roles,
        decreases n - i,
    {
        let eligible = crate::world::roles_has(&w.entities[i].roles, recv)
            && w.entities[i].knockback.is_none();
        if eligible {
            let rid = w.entities[i].id;
            let rpos = w.entities[i].pos;
            let mut sum_x: i64 = 0;
            let mut sum_y: i64 = 0;
            let mut count: u64 = 0;
            let mut k: usize = 0;
            proof {
                assert((1i64 << 62) == 0x4000000000000000i64) by (bit_vector);
            }
            while k < m
                invariant
                    n == s0.len(),
                    m == events@.len(),
                    m <= 0x40000,
                    i < n,
                    k <= m,
                    crate::world::entities_wf(s0, old(w).next_id),
                    w.entities@.len() == n,
                    forall|i2: int|
                        0 <= i2 < n ==> (#[trigger] w.entities@[i2]).id == s0[i2].id
                            && w.entities@[i2].pos == s0[i2].pos && w.entities@[i2].roles
                            == s0[i2].roles,
                    rid == s0[i as int].id,
                    rpos == s0[i as int].pos,
                    sum_x == push_sum_x(s0, events@, i as int, pusher, k as int),
                    sum_y == push_sum_y(s0, events@, i as int, pusher, k as int),
                    count == push_count(s0, events@, i as int, pusher, k as int),
                    -(1i64 << 62) <= sum_x <= (1i64 << 62),
                    -(1i64 << 62) <= sum_y <= (1i64 << 62),
                decreases m - k,
            {
                proof {
                    assert((1i64 << 62) == 0x4000000000000000i64) by (bit_vector);
                    lemma_push_sum_bound(s0, events@, i as int, pusher, k as int);
                    lemma_push_sum_bound(s0, events@, i as int, pusher, k + 1);
                }
                let ev = events[k];
                if ev.entity == rid {
                    match w.find(ev.collided_with) {
                        Some(pi) => {
                            proof {
                                crate::world::lemma_idx_of(s0, ev.collided_with, pi as int);
                            }
                            if crate::world::roles_has(&w.entities[pi].roles, pusher) {
                                let ppos = w.entities[pi].pos;
                                sum_x = sum_x + (rpos.x - ppos.x);
                                sum_y = sum_y + (rpos.y - ppos.y);
                                count = count + 1;
                                proof {
                                    assert(push_qual(s0, ev, pusher, s0[i as int].id));
                                }
                            } else {
                                proof {
                                    assert(!push_qual(s0, ev, pusher, s0[i as int].id));
                                }
                            }
                        },
                        None => {
                            proof {
                                assert forall|j2: int|
                                    0 <= j2 < s0.len() implies (#[trigger] s0[j2]).id
                                    != ev.collided_with by {
                                    assert(w.entities@[j2].id == s0[j2].id);
                                }
                                assert(!has_id(s0, ev.collided_with));
                            }
                        },
                    }
                } else {
                    proof {
                        assert(!push_qual(s0, ev, pusher, s0[i as int].id));
                    }
                }
                k += 1;
            }
            if count > 0 {
                proof {
                    assert((1i64 << 62) <= (1i64 << 62)) by (bit_vector);
                    assert(-(1i64 << 61) <= sum_x <= (1i64 << 61) && -(1i64 << 61) <= sum_y <= (
                    1i64 << 61)) by {
                        lemma_push_sum_bound(s0, events@, i as int, pusher, m as int);
                        assert((1i64 << 61) == 0x2000000000000000i64) by (bit_vector);
                    }
                    assert(KNOCK_BACK_DISTANCE <= (1u64 << 22)) by (bit_vector);
                    assert(crate::intmath::abs_i(sum_x as int) * KNOCK_BACK_DISTANCE <= (1i64
                        << 62) && crate::intmath::abs_i(sum_y as int) * KNOCK_BACK_DISTANCE <= (
                    1i64 << 62)) by {
                        assert((1i64 << 62) == 0x4000000000000000i64) by (bit_vector);
                        lemma_push_sum_bound(s0, events@, i as int, pusher, m as int);
                        assert(crate::intmath::abs_i(sum_x as int) <= 0x2000000000000
                            && crate::intmath::abs_i(sum_y as int) <= 0x2000000000000);
                        assert(crate::intmath::abs_i(sum_x as int) * KNOCK_BACK_DISTANCE
                            <= 0x2000000000000 * 64) by (nonlinear_arith)
                            requires
                                0 <= crate::intmath::abs_i(sum_x as int) <= 0x2000000000000,
                        ;
                        assert(crate::intmath::abs_i(sum_y as int) * KNOCK_BACK_DISTANCE
                            <= 0x2000000000000 * 64) by (nonlinear_arith)
                            requires
                                0 <= crate::intmath::abs_i(sum_y as int) <= 0x2000000000000,
                        ;
                    }
                }
                let (dx, dy) = crate::intmath::scale_vec(sum_x, sum_y, KNOCK_BACK_DISTANCE);
                let e = &mut w.entities[i];
                e.knockback = Some(
                    KnockBack {
                        displacement: Vec2i { x: dx, y: dy },
                        duration: CountdownTimer { duration: KNOCK_BACK_DURATION, elapsed: 0 },
                    },
                );
                proof {
                    assert(w.entities@[i as int] == knocked_entity(
                        s0,
                        events@,
                        recv,
                        pusher,
                        i as int,
                    ));
                }
            } else {
                proof {
                    assert(w.entities@[i as int] == knocked_entity(
                        s0,
                        events@,
                        recv,
                        pusher,
                        i as int,
                    ));
                }
            }
        } else {
            proof {
                assert(w.entities@[i as int] == knocked_entity(s0, events@, recv, pusher, i as int));
            }
        }
        i += 1;
    }
    proof {
        assert forall|i2: int|
            0 <= i2 < n implies crate::world::same_skeleton(
            #[trigger] s0[i2],
            w.entities@[i2],
        ) && crate::world::entity_wf(w.entities@[i2]) by {
            assert(w.entities@[i2] == knocked_entity(s0, events@, recv, pusher, i2));
            assert(crate::world::entity_wf(s0[i2]));
            crate::intmath::lemma_norm_scale_bound(
                push_sum_x(s0, events@, i2, pusher, events@.len() as int),
                push_sum_y(s0, events@, i2, pusher, events@.len() as int),
                KNOCK_BACK_DISTANCE as nat,
            );
            crate::intmath::lemma_norm_scale_bound(
                push_sum_y(s0, events@, i2, pusher, events@.len() as int),
                push_sum_x(s0, events@, i2, pusher, events@.len() as int),
                KNOCK_BACK_DISTANCE as nat,
            );
        }
        crate::world::lemma_entities_wf_from(s0, w.entities@, old(w).next_id);
    }
}

/// The summed push direction stays well inside the machine range: each
/// term is bounded by the world's position bounds.
pub proof fn lemma_push_sum_bound(
    s: Seq<Entity>,
    evs: Seq<CollisionEvent>,
    i: int,
    pusher: Role,
    n: int,
)
    requires
        0 <= i < s.len(),
        forall|j: int| 0 <= j < s.len() ==> crate::world::entity_wf(#[trigger] s[j]),
        0 <= n <= evs.len(),
        n <= 0x40000,
    ensures
        -(n * 2 * crate::world::POS_LIMIT) <= push_sum_x(s, evs, i, pusher, n) <= n * 2
            * crate::world::POS_LIMIT,
        -(n * 2 * crate::world::POS_LIMIT) <= push_sum_y(s, evs, i, pusher, n) <= n * 2
            * crate::world::POS_LIMIT,
        0 <= push_count(s, evs, i, pusher, n) <= n,
        -(1i64 << 62) < push_sum_x(s, evs, i, pusher, n) < (1i64 << 62),
        -(1i64 << 62) < push_sum_y(s, evs, i, pusher, n) < (1i64 << 62),
    decreases n,
{
    assert((1i64 << 62) == 0x4000000000000000i64) by (bit_vector);
    if n > 0 {
        lemma_push_sum_bound(s, evs, i, pusher, n - 1);
        if push_qual(s, evs[n - 1], pusher, s[i].id) {
            let pj = idx_of(s, evs[n - 1].collided_with);
            assert(0 <= pj < s.len() && crate::world::entity_wf(s[pj]));
            assert(crate::world::entity_wf(s[i]));
        }
        assert(n * 2 * crate::world::POS_LIMIT == (n - 1) * 2 * crate::world::POS_LIMIT + 2
            * crate::world::POS_LIMIT) by (nonlinear_arith);
        assert(0x40000 * 2 * 0x40000000 < 0x4000000000000000);
    }
}

/// What one tick leaves of a knocked entity: the timer advances, the
/// entity moves by its share `displacement * delta / duration` of the
/// displacement (clamped to the world bounds), and the effect is removed
/// once the timer completes.
pub open spec fn knock_moved_entity(e: Entity, delta: u32) -> Entity {
    match e.knockback {
        Some(kb) => {
            let t2 = crate::health::spec_tick(kb.duration, delta);
            let np = Vec2i {
                x: crate::world::clamp_pos(
                    e.pos.x + mul_div_trunc(kb.displacement.x as int, delta as int, kb.duration.duration as int),
                ) as i64,
                y: crate::world::clamp_pos(
                    e.pos.y + mul_div_trunc(kb.displacement.y as int, delta as int, kb.duration.duration as int),
                ) as i64,
            };
            if t2.elapsed == t2.duration {
                Entity { pos: np, knockback: None, ..e }
            } else {
                Entity { pos: np, knockback: Some(KnockBack { displacement: kb.displacement, duration: t2 }), ..e }
            }
        },
        None => e,
    }
}

/// `a * m / d`, truncating toward zero.
pub open spec fn mul_div_trunc(a: int, m: int, d: int) -> int {
    crate::intmath::sign_i(a) * ((crate::intmath::abs_i(a) * m) / d)
}

/// Apply every active knockback: advance its timer, move the entity by
/// the tick's share of the displacement, and drop the effect when the
/// timer completes.
pub fn apply_knockback(w: &mut World, delta: u32)
    requires
        crate::world::world_wf(*old(w)),
        delta <= crate::world::DELTA_LIMIT,
    ensures
        crate::world::world_wf(*final(w)),
        final(w).next_id == old(w).next_id,
        final(w).entities@.len() == old(w).entities@.len(),
        forall|i: int|
            0 <= i < old(w).entities@.len() ==> #[trigger] final(w).entities@[i]
                == knock_moved_entity(old(w).entities@[i], delta),
{
    let ghost s0 = w.entities@;
    let n = w.entities.len();
    let mut i: usize = 0;
    while i < n
        invariant
            n == s0.len(),
            i <= n,
            delta <= crate::world::DELTA_LIMIT,
            w.next_id == old(w).next_id,
            s0 == old(w).entities@,
            crate::world::entities_wf(s0, old(w).next_id),
            w.entities@.len() == n,
            forall|i2: int| i <= i2 < n ==> #[trigger] w.entities@[i2] == s0[i2],
            forall|i2: int|
                0 <= i2 < i ==> #[trigger] w.entities@[i2] == knock_moved_entity(s0[i2], delta),
        decreases n - i,
    {
        let has_kb = w.entities[i].knockback.is_some();
        if has_kb {
            let kb = match &w.entities[i].knockback {
                Some(kb) => *kb,
                None => KnockBack {
                    displacement: Vec2i { x: 0, y: 0 },
                    duration: CountdownTimer { duration: 1, elapsed: 0 },
                },
            };
            let sx = step_share(kb.displacement.x, delta, kb.duration.duration);
            let sy = step_share(kb.displacement.y, delta, kb.duration.duration);
            proof {
                assert((1i64 << 62) == 0x4000000000000000i64) by (bit_vector);
            }
            let e = &mut w.entities[i];
            let npx = crate::world::clamp_add(e.pos.x, sx);
            let npy = crate::world::clamp_add(e.pos.y, sy);
            e.pos = Vec2i { x: npx, y: npy };
            let mut fin = false;
            match &mut e.knockback {
                Some(kb2) => {
                    fin = kb2.duration.tick(delta);
                },
                None => {},
            }
            if fin {
                e.knockback = None;
            }
        }
        i += 1;
    }
    proof {
        assert forall|i2: int|
            0 <= i2 < n implies crate::world::same_skeleton(
            #[trigger] s0[i2],
            w.entities@[i2],
        ) && crate::world::entity_wf(w.entities@[i2]) by {
            assert(w.entities@[i2] == knock_moved_entity(s0[i2], delta));
            assert(crate::world::entity_wf(s0[i2]));
        }
        crate::world::lemma_entities_wf_from(s0, w.entities@, old(w).next_id);
    }
}

/// The share of a displacement one tick contributes:
/// `disp * delta / duration`, truncating toward zero.
fn step_share(disp: i64, delta: u32, duration: u32) -> (r: i64)
    requires
        -crate::world::SIZE_LIMIT <= disp <= crate::world::SIZE_LIMIT,
        duration >= 1,
        delta <= crate::world::DELTA_LIMIT,
    ensures
        r == mul_div_trunc(disp as int, delta as int, duration as int),
        -crate::world::SIZE_LIMIT * crate::world::DELTA_LIMIT <= r <= crate::world::SIZE_LIMIT
            * crate::world::DELTA_LIMIT,
{
    let a: u64 = if disp < 0 {
        (-(disp as i128)) as u64
    } else {
        disp as u64
    };
    proof {
        assert(a == crate::intmath::abs_i(disp as int));
        assert(a * delta <= 0x100000u64 * 0x100000u64) by (nonlinear_arith)
            requires
                0 <= a <= 0x100000,
                0 <= delta <= 0x100000,
        ;
    }
    let mag = a * (delta as u64) / (duration as u64);
    proof {
        assert(mag == (crate::intmath::abs_i(disp as int) * delta) / (duration as int));
        vstd::arithmetic::div_mod::lemma_div_is_ordered(
            a * (delta as int),
            0x100000u64 * 0x100000u64 as int,
            duration as int,
        );
        vstd::arithmetic::div_mod::lemma_div_pos_is_pos(a * (delta as int), duration as int);
        assert((0x100000u64 * 0x100000u64 as int) / (duration as int) <= 0x10000000000) by {
            vstd::arithmetic::div_mod::lemma_div_is_ordered_by_denominator(
                0x100000u64 * 0x100000u64 as int,
                1,
                duration as int,
            );
        }
    }
    let r: i64 = if disp < 0 {
        -(mag as i64)
    } else {
        mag as i64
    };
    proof {
        if disp < 0 {
            assert(crate::intmath::sign_i(disp as int) == -1);
            assert(r == -1 * (mag as int));
        } else if disp == 0 {
            assert(crate::intmath::abs_i(disp as int) == 0);
            assert((0int * (delta as int)) / (duration as int) == 0) by (nonlinear_arith)
                requires
                    duration >= 1,
            ;
        } else {
            assert(crate::intmath::sign_i(disp as int) == 1);
            assert(r == 1 * (mag as int));
        }
    }
    r
}

} // verus!
