//! Velocity, facing, and position integration.

use crate::collision::CollisionEvent;
use crate::geometry::{Rect2, Vec2i};
use crate::intmath::{abs_i, norm_scale};
use crate::world::{has_id, has_role, idx_of, Entity, Role, World};
use vstd::prelude::*;

verus! {

/// Velocity in sub-units per second.
#[derive(Clone, Copy, Debug, PartialEq, Eq, Structural)]
pub struct Velocity {
    pub value: Vec2i,
}

/// The direction an entity faces; drives sprite flipping.
#[derive(Clone, Copy, Debug, PartialEq, Eq, Structural)]
pub struct Facing {
    pub value: Vec2i,
}

/// A direction within the world range and a bounded speed satisfy the
/// scaler's overflow window.
proof fn lemma_scaling_bounds(direction: Vec2i, speed: u64)
    requires
        -(1i64 << 40) <= direction.x <= (1i64 << 40),
        -(1i64 << 40) <= direction.y <= (1i64 << 40),
        speed <= (1u64 << 22),
    ensures
        -(1i64 << 61) <= direction.x <= (1i64 << 61),
        -(1i64 << 61) <= direction.y <= (1i64 << 61),
        abs_i(direction.x as int) * speed <= (1i64 << 62),
        abs_i(direction.y as int) * speed <= (1i64 << 62),
{
    assert((1i64 << 40) == 0x10000000000i64) by (bit_vector);
    assert((1i64 << 61) == 0x2000000000000000i64) by (bit_vector);
    assert((1i64 << 62) == 0x4000000000000000i64) by (bit_vector);
    assert((1u64 << 22) == 0x400000u64) by (bit_vector);
    assert(abs_i(direction.x as int) <= 0x10000000000 && abs_i(direction.y as int)
        <= 0x10000000000);
    assert(abs_i(direction.x as int) * speed <= 0x10000000000 * 0x400000) by (nonlinear_arith)
        requires
            0 <= abs_i(direction.x as int) <= 0x10000000000,
            0 <= speed <= 0x400000,
    ;
    assert(abs_i(direction.y as int) * speed <= 0x10000000000 * 0x400000) by (nonlinear_arith)
        requires
            0 <= abs_i(direction.y as int) <= 0x10000000000,
            0 <= speed <= 0x400000,
    ;
}

/// The velocity obtained from a direction and a speed: the direction
/// normalised and scaled to `speed`, each component rounded down, so
/// the magnitude never exceeds `speed`.
pub open spec fn spec_direction_speed(direction: Vec2i, speed: u64) -> Vec2i {
    Vec2i {
        x: norm_scale(direction.x as int, direction.y as int, speed as nat) as i64,
        y: norm_scale(direction.y as int, direction.x as int, speed as nat) as i64,
    }
}

impl Velocity {
    /// A velocity pointing along `direction`, normalised and scaled to
    /// `speed` within rounding; a zero direction gives a zero velocity.
    pub fn from_direction_speed(direction: Vec2i, speed: u64) -> (v: Velocity)
        requires
            -(1i64 << 40) <= direction.x <= (1i64 << 40),
            -(1i64 << 40) <= direction.y <= (1i64 << 40),
            speed <= (1u64 << 20),
        ensures
            v.value == spec_direction_speed(direction, speed),
            abs_i(v.value.x as int) <= speed && abs_i(v.value.y as int) <= speed,
    {
        proof {
            assert((1u64 << 20) <= (1u64 << 22)) by (bit_vector);
            lemma_scaling_bounds(direction, speed);
        }
        let (x, y) = crate::intmath::scale_vec(direction.x, direction.y, speed);
        Velocity { value: Vec2i { x, y } }
    }

    /// Redirect the velocity, keeping its current magnitude within
    /// rounding; a magnitude beyond twice the speed limit is capped
    /// there, a machine bound the game never reaches.
    pub fn change_direction(&mut self, direction: Vec2i)
        requires
            -(1i64 << 40) <= direction.x <= (1i64 << 40),
            -(1i64 << 40) <= direction.y <= (1i64 << 40),
            -(1i64 << 21) <= old(self).value.x <= (1i64 << 21),
            -(1i64 << 21) <= old(self).value.y <= (1i64 << 21),
        ensures
            final(self).value == spec_direction_speed(
                direction,
                crate::geometry::min_i(
                    crate::intmath::sqrt_floor(
                        (old(self).value.x * old(self).value.x + old(self).value.y * old(
                            self,
                        ).value.y) as nat,
                    ) as int,
                    (1u64 << 21) as int,
                ) as u64,
            ),
            abs_i(final(self).value.x as int) <= (1u64 << 21),
            abs_i(final(self).value.y as int) <= (1u64 << 21),
    {
        proof {
            assert((1i64 << 21) == 0x200000i64) by (bit_vector);
            assert((1u64 << 21) == 0x200000u64) by (bit_vector);
            assert((1u128 << 126) == 0x40000000000000000000000000000000u128) by (bit_vector);
            assert(self.value.x * self.value.x + self.value.y * self.value.y
                < 0x40000000000000000000000000000000) by (nonlinear_arith)
                requires
                    -0x200000 <= self.value.x <= 0x200000,
                    -0x200000 <= self.value.y <= 0x200000,
            ;
        }
        let ax: u128 = if self.value.x < 0 {
            (-(self.value.x as i128)) as u128
        } else {
            self.value.x as u128
        };
        let ay: u128 = if self.value.y < 0 {
            (-(self.value.y as i128)) as u128
        } else {
            self.value.y as u128
        };
        proof {
            assert(ax * ax == self.value.x * self.value.x) by (nonlinear_arith)
                requires
                    ax == self.value.x as int || ax == -(self.value.x as int),
            ;
            assert(ay * ay == self.value.y * self.value.y) by (nonlinear_arith)
                requires
                    ay == self.value.y as int || ay == -(self.value.y as int),
            ;
        }
        let mut speed = crate::intmath::isqrt(ax * ax + ay * ay);
        if speed > 0x200000u64 {
            speed = 0x200000u64;
        }
        self.change_direction_speed(direction, speed);
    }

    /// Redirect the velocity to `direction`, normalised and scaled to
    /// `speed` within rounding.
    pub fn change_direction_speed(&mut self, direction: Vec2i, speed: u64)
        requires
            -(1i64 << 40) <= direction.x <= (1i64 << 40),
            -(1i64 << 40) <= direction.y <= (1i64 << 40),
            speed <= (1u64 << 21),
        ensures
            final(self).value == spec_direction_speed(direction, speed),
            abs_i(final(self).value.x as int) <= speed,
            abs_i(final(self).value.y as int) <= speed,
    {
        proof {
            assert((1u64 << 21) <= (1u64 << 22)) by (bit_vector);
            lemma_scaling_bounds(direction, speed);
        }
        let (x, y) = crate::intmath::scale_vec(direction.x, direction.y, speed);
        self.value = Vec2i { x, y };
    }
}

/// What position integration leaves of one entity: it moves by
/// `velocity * delta / 1000` (milliseconds to seconds), clamped to the
/// world bounds.
pub open spec fn moved_entity(e: Entity, delta: u32) -> Entity {
    match e.velocity {
        Some(v) => Entity {
            pos: Vec2i {
                x: crate::world::clamp_pos(
                    e.pos.x + crate::combat::mul_div_trunc(v.value.x as int, delta as int, 1000),
                ) as i64,
                y: crate::world::clamp_pos(
                    e.pos.y + crate::combat::mul_div_trunc(v.value.y as int, delta as int, 1000),
                ) as i64,
            },
            ..e
        },
        None => e,
    }
}

/// Position integration: every entity with a velocity moves by its
/// velocity times the frame delta.
pub fn update_position(w: &mut World, delta: u32)
    requires
        crate::world::world_wf(*old(w)),
        delta <= crate::world::DELTA_LIMIT,
    ensures
        crate::world::world_wf(*final(w)),
        final(w).next_id == old(w).next_id,
        final(w).entities@.len() == old(w).entities@.len(),
        forall|i: int|
            0 <= i < old(w).entities@.len() ==> #[trigger] final(w).entities@[i] == moved_entity(
                old(w).entities@[i],
                delta,
            ),
{
    let ghost s0 = w.entities@;
    let n = w.entities.len();
    let mut i: usize = 0;
    while i < n
        invariant
            n == s0.len(),
            i <= n,
            delta <= crate::world::DELTA_LIMIT,
            w.next_id == old(w).next_id,
            s0 == old(w).entities@,
            crate::world::entities_wf(s0, old(w).next_id),
            w.entities@.len() == n,
            forall|i2: int| i <= i2 < n ==> #[trigger] w.entities@[i2] == s0[i2],
            forall|i2: int|
                0 <= i2 < i ==> #[trigger] w.entities@[i2] == moved_entity(s0[i2], delta),
        decreases n - i,
    {
        let has_v = w.entities[i].velocity.is_some();
        if has_v {
            let v = match &w.entities[i].velocity {
                Some(v) => *v,
                None => Velocity { value: Vec2i { x: 0, y: 0 } },
            };
            let sx = vel_step(v.value.x, delta);
            let sy = vel_step(v.value.y, delta);
            proof {
                assert((1i64 << 62) == 0x4000000000000000i64) by (bit_vector);
            }
            let e = &mut w.entities[i];
            let npx = crate::world::clamp_add(e.pos.x, sx);
            let npy = crate::world::clamp_add(e.pos.y, sy);
            e.pos = Vec2i { x: npx, y: npy };
        }
        i += 1;
    }
    proof {
        assert forall|i2: int|
            0 <= i2 < n implies crate::world::same_skeleton(
            #[trigger] s0[i2],
            w.entities@[i2],
        ) && crate::world::entity_wf(w.entities@[i2]) by {
            assert(w.entities@[i2] == moved_entity(s0[i2], delta));
            assert(crate::world::entity_wf(s0[i2]));
        }
        crate::world::lemma_entities_wf_from(s0, w.entities@, old(w).next_id);
    }
}

/// One axis of a velocity step: `v * delta / 1000`, truncating toward
/// zero.
fn vel_step(v: i64, delta: u32) -> (r: i64)
    requires
        -2 * crate::world::SPEED_LIMIT <= v <= 2 * crate::world::SPEED_LIMIT,
        delta <= crate::world::DELTA_LIMIT,
    ensures
        r == crate::combat::mul_div_trunc(v as int, delta as int, 1000),
        -(2 * crate::world::SPEED_LIMIT * crate::world::DELTA_LIMIT) <= r <= 2
            * crate::world::SPEED_LIMIT * crate::world::DELTA_LIMIT,
{
    let a: u64 = if v < 0 {
        (-(v as i128)) as u64
    } else {
        v as u64
    };
    proof {
        assert(a == abs_i(v as int));
        assert(a * delta <= 0x200000u64 * 0x100000u64) by (nonlinear_arith)
            requires
                0 <= a <= 0x200000,
                0 <= delta <= 0x100000,
        ;
    }
    let mag = a * (delta as u64) / 1000u64;
    proof {
        assert(mag == (abs_i(v as int) * delta) / 1000);
        vstd::arithmetic::div_mod::lemma_div_is_ordered(
            a * (delta as int),
            0x200000u64 * 0x100000u64 as int,
            1000,
        );
        vstd::arithmetic::div_mod::lemma_div_pos_is_pos(a * (delta as int), 1000);
        assert((0x200000u64 * 0x100000u64 as int) / 1000 <= 0x20000000000) by {
            vstd::arithmetic::div_mod::lemma_div_is_ordered_by_denominator(
                0x200000u64 * 0x100000u64 as int,
                1,
                1000,
            );
        }
    }
    let r: i64 = if v < 0 {
        -(mag as i64)
    } else {
        mag as i64
    };
    proof {
        if v < 0 {
            assert(crate::intmath::sign_i(v as int) == -1);
            assert(r == -1 * (mag as int));
        } else if v == 0 {
            assert(abs_i(v as int) == 0);
            assert((0int * (delta as int)) / 1000 == 0) by (nonlinear_arith);
        } else {
            assert(crate::intmath::sign_i(v as int) == 1);
            assert(r == 1 * (mag as int));
        }
    }
    r
}

/// The sign a push takes from a center difference: positive unless the
/// mover's center lies strictly on the negative side.
pub open spec fn push_sign(d: int) -> int {
    if d >= 0 {
        1
    } else {
        -1
    }
}

/// Whether a containment event is acted on: its subject is a present
/// mover of the given role (never a wall) with a collider, its object a
/// present wall with a collider.
pub open spec fn contain_applies(s: Seq<Entity>, ev: CollisionEvent, mover: Role) -> bool {
    &&& has_id(s, ev.entity)
    &&& has_id(s, ev.collided_with)
    &&& has_role(s[idx_of(s, ev.entity)].roles, mover)
    &&& !has_role(s[idx_of(s, ev.entity)].roles, Role::Wall)
    &&& s[idx_of(s, ev.entity)].collider is Some
    &&& has_role(s[idx_of(s, ev.collided_with)].roles, Role::Wall)
    &&& s[idx_of(s, ev.collided_with)].collider is Some
}

/// The arena after one containment event: the mover is pushed out of
/// the wall along the axis of the smaller overlap extent, away from the
/// wall's center.
pub open spec fn contain_step(s: Seq<Entity>, ev: CollisionEvent, mover: Role) -> Seq<Entity> {
    if contain_applies(s, ev, mover) {
        let mi = idx_of(s, ev.entity);
        let m = s[mi];
        let wl = s[idx_of(s, ev.collided_with)];
        let mr = crate::collision::spec_rect_at(m.collider.unwrap(), m.pos);
        let wr = crate::collision::spec_rect_at(wl.collider.unwrap(), wl.pos);
        let ov = crate::geometry::spec_intersect(mr, wr);
        let width = ov.max.x - ov.min.x;
        let height = ov.max.y - ov.min.y;
        let sx = push_sign((mr.min.x + mr.max.x) - (wr.min.x + wr.max.x));
        let sy = push_sign((mr.min.y + mr.max.y) - (wr.min.y + wr.max.y));
        let push = if width < height {
            Vec2i { x: (width * sx) as i64, y: 0 }
        } else {
            Vec2i { x: 0, y: (height * sy) as i64 }
        };
        s.update(
            mi,
            Entity {
                pos: Vec2i {
                    x: crate::world::clamp_pos(m.pos.x + push.x) as i64,
                    y: crate::world::clamp_pos(m.pos.y + push.y) as i64,
                },
                ..m
            },
        )
    } else {
        s
    }
}

/// The arena after the first `n` containment events, applied in order;
/// a later event sees the corrections of the earlier ones.
pub open spec fn contain_upto(
    s: Seq<Entity>,
    evs: Seq<CollisionEvent>,
    mover: Role,
    n: int,
) -> Seq<Entity>
    decreases n,
{
    if n <= 0 {
        s
    } else {
        contain_step(contain_upto(s, evs, mover, n - 1), evs[n - 1], mover)
    }
}

/// Containment: for each collision event whose subject is a mover of
/// the given role and whose object is a wall, push the mover out of
/// overlap along the axis of the smaller overlap extent, away from the
/// wall's center. It only ever corrects; no state is carried.
#[verifier::rlimit(100)]
pub fn keep_inside_walls(w: &mut World, events: &Vec<CollisionEvent>, mover: Role)
    requires
        crate::world::world_wf(*old(w)),
    ensures
        crate::world::world_wf(*final(w)),
        final(w).next_id == old(w).next_id,
        final(w).entities@ == contain_upto(
            old(w).entities@,
            events@,
            mover,
            events@.len() as int,
        ),
{
    let ghost s0 = w.entities@;
    let m = events.len();
    let mut k: usize = 0;
    while k < m
        invariant
            m == events@.len(),
            k <= m,
            crate::world::world_wf(*w),
            w.next_id == old(w).next_id,
            s0 == old(w).entities@,
            crate::world::entities_wf(s0, old(w).next_id),
            w.entities@ == contain_upto(s0, events@, mover, k as int),
        decreases m - k,
    {
        let ev = events[k];
        let ghost sprev = w.entities@;
        let mi_opt = w.find(ev.entity);
        let wi_opt = w.find(ev.collided_with);
        match (mi_opt, wi_opt) {
            (Some(mi), Some(wi)) => {
                proof {
                    crate::world::lemma_idx_of(sprev, ev.entity, mi as int);
                    crate::world::lemma_idx_of(sprev, ev.collided_with, wi as int);
                }
                let mover_ok = crate::world::roles_has(&w.entities[mi].roles, mover)
                    && !crate::world::roles_has(&w.entities[mi].roles, Role::Wall)
                    && w.entities[mi].collider.is_some();
                let wall_ok = crate::world::roles_has(&w.entities[wi].roles, Role::Wall)
                    && w.entities[wi].collider.is_some();
                if mover_ok && wall_ok {
                    proof {
                        assert(contain_applies(sprev, ev, mover));
                    }
                    let mpos = w.entities[mi].pos;
                    let wpos = w.entities[wi].pos;
                    let mr = match &w.entities[mi].collider {
                        Some(c) => c.to_rect_at(mpos),
                        None => Rect2 { min: Vec2i { x: 0, y: 0 }, max: Vec2i { x: 0, y: 0 } },
                    };
                    let wr = match &w.entities[wi].collider {
                        Some(c) => c.to_rect_at(wpos),
                        None => Rect2 { min: Vec2i { x: 0, y: 0 }, max: Vec2i { x: 0, y: 0 } },
                    };
                    let ov = mr.intersect(&wr);
                    let width = ov.max.x - ov.min.x;
                    let height = ov.max.y - ov.min.y;
                    let sx: i64 = if (mr.min.x + mr.max.x) - (wr.min.x + wr.max.x) >= 0 {
                        1
                    } else {
                        -1
                    };
                    let sy: i64 = if (mr.min.y + mr.max.y) - (wr.min.y + wr.max.y) >= 0 {
                        1
                    } else {
                        -1
                    };
                    let (px, py): (i64, i64) = if width < height {
                        (width * sx, 0)
                    } else {
                        (0, height * sy)
                    };
                    proof {
                        assert((1i64 << 62) == 0x4000000000000000i64) by (bit_vector);
                    }
                    let e = &mut w.entities[mi];
                    let npx = crate::world::clamp_add(e.pos.x, px);
                    let npy = crate::world::clamp_add(e.pos.y, py);
                    e.pos = Vec2i { x: npx, y: npy };
                    proof {
                        assert(w.entities@ =~= contain_step(sprev, ev, mover));
                        assert forall|i2: int|
                            0 <= i2 < sprev.len() implies crate::world::same_skeleton(
                            #[trigger] sprev[i2],
                            w.entities@[i2],
                        ) && crate::world::entity_wf(w.entities@[i2]) by {
                            assert(crate::world::entity_wf(sprev[i2]));
                        }
                        crate::world::lemma_entities_wf_from(
                            sprev,
                            w.entities@,
                            old(w).next_id,
                        );
                    }
                } else {
                    proof {
                        assert(!contain_applies(sprev, ev, mover));
                        assert(w.entities@ == contain_step(sprev, ev, mover));
                    }
                }
            },
            _ => {
                proof {
                    assert(!contain_applies(sprev, ev, mover));
                    assert(w.entities@ == contain_step(sprev, ev, mover));
                }
            },
        }
        k += 1;
    }
}

} // verus!
