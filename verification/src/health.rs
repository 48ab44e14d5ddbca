//! Health, damage cooldowns, damage application and the despawn sweep.

use crate::collision::CollisionEvent;
use crate::world::{has_id, has_role, idx_of, Entity, Role, World};
use vstd::prelude::*;

verus! {

/// Hit points of a damageable entity: the current amount, the total for
/// ratio displays, and the optional cooldown duration (in milliseconds)
/// that a hit starts.
#[derive(Clone, Copy, Debug, PartialEq, Eq, Structural)]
pub struct Health {
    pub amount: u32,
    pub total: u32,
    pub cooldown: Option<u32>,
}

impl Health {
    pub fn new(amount: u32) -> (h: Health)
        ensures
            h == (Health { amount, total: amount, cooldown: None }),
    {
        Health { amount, total: amount, cooldown: None }
    }

    pub fn with_damage_cooldown(amount: u32, cooldown: u32) -> (h: Health)
        ensures
            h == (Health { amount, total: amount, cooldown: Some(cooldown) }),
    {
        Health { amount, total: amount, cooldown: Some(cooldown) }
    }

    /// Current health as a fraction of the total, in thousandths; for the
    /// presentation layer's health bars.
    pub fn ratio_permille(&self) -> (r: u32)
        requires
            self.total > 0,
            self.amount <= self.total,
        ensures
            r == self.amount * 1000 / (self.total as int),
            r <= 1000,
    {
        proof {
            assert(self.amount * 1000 <= self.total * 1000) by (nonlinear_arith)
                requires
                    self.amount <= self.total,
            ;
            vstd::arithmetic::div_mod::lemma_div_is_ordered(
                self.amount * 1000,
                self.total * 1000,
                self.total as int,
            );
            assert((self.total * 1000) / (self.total as int) == 1000) by (nonlinear_arith)
                requires
                    self.total > 0,
            ;
        }
        let r = (self.amount as u64 * 1000 / self.total as u64) as u32;
        r
    }
}

/// A running countdown in milliseconds.
#[derive(Clone, Copy, Debug, PartialEq, Eq, Structural)]
pub struct CountdownTimer {
    pub duration: u32,
    pub elapsed: u32,
}

/// A timer is well formed when it has a positive duration and has not
/// run past it.
pub open spec fn timer_wf(t: CountdownTimer) -> bool {
    1 <= t.duration && t.elapsed <= t.duration
}

/// What `tick` leaves behind: elapsed time grows by the delta but never
/// past the duration.
pub open spec fn spec_tick(t: CountdownTimer, delta: u32) -> CountdownTimer {
    if t.elapsed + delta >= t.duration {
        CountdownTimer { duration: t.duration, elapsed: t.duration }
    } else {
        CountdownTimer { duration: t.duration, elapsed: (t.elapsed + delta) as u32 }
    }
}

impl CountdownTimer {
    pub fn new(duration: u32) -> (t: CountdownTimer)
        requires
            duration >= 1,
        ensures
            t == (CountdownTimer { duration, elapsed: 0 }),
            timer_wf(t),
    {
        CountdownTimer { duration, elapsed: 0 }
    }

    /// Advance the timer; elapsed time saturates at the duration.
    pub fn tick(&mut self, delta: u32) -> (finished: bool)
        requires
            timer_wf(*old(self)),
        ensures
            *final(self) == spec_tick(*old(self), delta),
            timer_wf(*final(self)),
            finished == (final(self).elapsed == final(self).duration),
    {
        if delta >= self.duration - self.elapsed {
            self.elapsed = self.duration;
        } else {
            self.elapsed = self.elapsed + delta;
        }
        self.elapsed == self.duration
    }

    pub fn finished(&self) -> (f: bool)
        ensures
            f == (self.elapsed == self.duration),
    {
        self.elapsed == self.duration
    }
}

/// While present on an entity, suppresses further damage; removed the
/// instant its timer finishes.
#[derive(Clone, Copy, Debug, PartialEq, Eq, Structural)]
pub struct DamageCooldown {
    pub cooldown: CountdownTimer,
}

impl DamageCooldown {
    pub fn new(cooldown: u32) -> (d: DamageCooldown)
        requires
            cooldown >= 1,
        ensures
            d == (DamageCooldown { cooldown: CountdownTimer { duration: cooldown, elapsed: 0 } }),
            timer_wf(d.cooldown),
    {
        DamageCooldown { cooldown: CountdownTimer::new(cooldown) }
    }
}

/// A damage notification for the presentation layer: how much was dealt,
/// where, and to whom.
#[derive(Clone, Copy, Debug, PartialEq, Eq, Structural)]
pub struct DamageEvent {
    pub amount: u32,
    pub position: crate::geometry::Vec2i,
    pub receiver: u64,
}

/// Saturating subtraction: damage never drives health below zero.
pub open spec fn sat_sub_u32(a: u32, b: u32) -> u32 {
    if a >= b {
        (a - b) as u32
    } else {
        0
    }
}

/// Whether one collision event leads to damage: the event's subject is a
/// present entity carrying the receiver role with health and no active
/// cooldown, and its object is a present entity carrying the damager
/// role with contact damage.
pub open spec fn damage_applies(s: Seq<Entity>, ev: CollisionEvent, recv: Role, dmg: Role) -> bool {
    &&& has_id(s, ev.entity)
    &&& has_id(s, ev.collided_with)
    &&& has_role(s[idx_of(s, ev.entity)].roles, recv)
    &&& s[idx_of(s, ev.entity)].health is Some
    &&& s[idx_of(s, ev.entity)].cooldown is None
    &&& has_role(s[idx_of(s, ev.collided_with)].roles, dmg)
    &&& s[idx_of(s, ev.collided_with)].damage is Some
}

/// The arena after one damaging event: the receiver's health drops by
/// the damager's contact damage, saturating at zero, and a cooldown is
/// attached when the receiver's health declares one.
pub open spec fn damage_step_world(
    s: Seq<Entity>,
    ev: CollisionEvent,
    recv: Role,
    dmg: Role,
) -> Seq<Entity> {
    if damage_applies(s, ev, recv, dmg) {
        let ri = idx_of(s, ev.entity);
        let re = s[ri];
        let amt = s[idx_of(s, ev.collided_with)].damage.unwrap().amount;
        let h = re.health.unwrap();
        let ncd = match h.cooldown {
            Some(d) => if d >= 1 {
                Some(DamageCooldown { cooldown: CountdownTimer { duration: d, elapsed: 0 } })
            } else {
                re.cooldown
            },
            None => re.cooldown,
        };
        s.update(
            ri,
            Entity {
                health: Some(Health { amount: sat_sub_u32(h.amount, amt), ..h }),
                cooldown: ncd,
                ..re
            },
        )
    } else {
        s
    }
}

/// The damage notification one event emits, if any.
pub open spec fn damage_step_event(
    s: Seq<Entity>,
    ev: CollisionEvent,
    recv: Role,
    dmg: Role,
) -> Seq<DamageEvent> {
    if damage_applies(s, ev, recv, dmg) {
        let re = s[idx_of(s, ev.entity)];
        let amt = s[idx_of(s, ev.collided_with)].damage.unwrap().amount;
        seq![DamageEvent { amount: amt, position: re.pos, receiver: ev.entity }]
    } else {
        Seq::empty()
    }
}

/// The arena after the first `n` events are applied in order.
pub open spec fn damage_upto(
    s: Seq<Entity>,
    evs: Seq<CollisionEvent>,
    recv: Role,
    dmg: Role,
    n: int,
) -> Seq<Entity>
    decreases n,
{
    if n <= 0 {
        s
    } else {
        damage_step_world(damage_upto(s, evs, recv, dmg, n - 1), evs[n - 1], recv, dmg)
    }
}

/// The damage notifications the first `n` events emit, in order.
pub open spec fn damage_events_upto(
    s: Seq<Entity>,
    evs: Seq<CollisionEvent>,
    recv: Role,
    dmg: Role,
    n: int,
) -> Seq<DamageEvent>
    decreases n,
{
    if n <= 0 {
        Seq::empty()
    } else {
        damage_events_upto(s, evs, recv, dmg, n - 1) + damage_step_event(
            damage_upto(s, evs, recv, dmg, n - 1),
            evs[n - 1],
            recv,
            dmg,
        )
    }
}

/// Damage application: for each collision event in order, an entity
/// carrying `recv` with health and no active cooldown loses the contact
/// damage of the event's other entity when that one carries `dmg`;
/// health saturates at zero; a receiver whose health declares a cooldown
/// duration gets a fresh Damage Cooldown at once, so later events of the
/// same tick leave it alone. One damage notification is emitted per hit.
pub fn take_damage(w: &mut World, events: &Vec<CollisionEvent>, recv: Role, dmg: Role) -> (out: Vec<
    DamageEvent,
>)
    requires
        crate::world::world_wf(*old(w)),
    ensures
        crate::world::world_wf(*final(w)),
        final(w).next_id == old(w).next_id,
        final(w).entities@ == damage_upto(
            old(w).entities@,
            events@,
            recv,
            dmg,
            events@.len() as int,
        ),
        out@ == damage_events_upto(old(w).entities@, events@, recv, dmg, events@.len() as int),
{
    let ghost s0 = w.entities@;
    let mut out: Vec<DamageEvent> = Vec::new();
    let mut k: usize = 0;
    let n = events.len();
    while k < n
        invariant
            n == events@.len(),
            k <= n,
            crate::world::world_wf(*w),
            w.next_id == old(w).next_id,
            s0 == old(w).entities@,
            crate::world::entities_wf(s0, old(w).next_id),
            w.entities@ == damage_upto(s0, events@, recv, dmg, k as int),
            out@ == damage_events_upto(s0, events@, recv, dmg, k as int),
        decreases n - k,
    {
        let ev = events[k];
        let ghost sprev = w.entities@;
        let ri_opt = w.find(ev.entity);
        let di_opt = w.find(ev.collided_with);
        match (ri_opt, di_opt) {
            (Some(ri), Some(di)) => {
                proof {
                    crate::world::lemma_idx_of(sprev, ev.entity, ri as int);
                    crate::world::lemma_idx_of(sprev, ev.collided_with, di as int);
                }
                let recv_ok = crate::world::roles_has(&w.entities[ri].roles, recv)
                    && w.entities[ri].health.is_some() && w.entities[ri].cooldown.is_none();
                let dmg_ok = crate::world::roles_has(&w.entities[di].roles, dmg)
                    && w.entities[di].damage.is_some();
                if recv_ok && dmg_ok {
                    proof {
                        assert(damage_applies(sprev, ev, recv, dmg));
                    }
                    let amt = match &w.entities[di].damage {
                        Some(d) => d.amount,
                        None => 0,
                    };
                    let pos = w.entities[ri].pos;
                    out.push(DamageEvent { amount: amt, position: pos, receiver: ev.entity });
                    let e = &mut w.entities[ri];
                    let h = match &e.health {
                        Some(h) => *h,
                        None => Health { amount: 0, total: 0, cooldown: None },
                    };
                    let namount = if h.amount >= amt {
                        h.amount - amt
                    } else {
                        0
                    };
                    e.health = Some(Health { amount: namount, total: h.total, cooldown: h.cooldown });
                    match h.cooldown {
                        Some(d) => {
                            if d >= 1 {
                                e.cooldown = Some(DamageCooldown::new(d));
                            }
                        },
                        None => {},
                    }
                    proof {
                        assert(w.entities@ =~= damage_step_world(sprev, ev, recv, dmg));
                        assert(out@ =~= damage_events_upto(s0, events@, recv, dmg, k + 1));
                        crate::world::lemma_entities_wf_from(
                            sprev,
                            w.entities@,
                            old(w).next_id,
                        );
                    }
                } else {
                    proof {
                        assert(!damage_applies(sprev, ev, recv, dmg));
                        assert(w.entities@ == damage_step_world(sprev, ev, recv, dmg));
                        assert(out@ =~= damage_events_upto(s0, events@, recv, dmg, k + 1));
                    }
                }
            },
            _ => {
                proof {
                    assert(!damage_applies(sprev, ev, recv, dmg));
                    assert(w.entities@ == damage_step_world(sprev, ev, recv, dmg));
                    assert(out@ =~= damage_events_upto(s0, events@, recv, dmg, k + 1));
                }
            },
        }
        k += 1;
    }
    out
}

/// What damage application may change of one entity: its health amount
/// can only drop, and nothing else but the active cooldown moves.
pub open spec fn damage_touch_only(a: Entity, b: Entity) -> bool {
    &&& b.id == a.id
    &&& b.pos == a.pos
    &&& b.roles == a.roles
    &&& b.parent == a.parent
    &&& b.collider == a.collider
    &&& b.damage == a.damage
    &&& b.knockback == a.knockback
    &&& b.velocity == a.velocity
    &&& b.facing == a.facing
    &&& (a.health is Some <==> b.health is Some)
    &&& (a.health matches Some(h) ==> (b.health matches Some(h2) && h2.total == h.total
        && h2.cooldown == h.cooldown && h2.amount <= h.amount))
}

/// Damage application only lowers health amounts and toggles cooldowns;
/// identities, geometry and every other component stay put.
pub proof fn lemma_damage_upto_shape(
    s: Seq<Entity>,
    evs: Seq<CollisionEvent>,
    recv: Role,
    dmg: Role,
    n: int,
)
    requires
        crate::world::unique_ids(s),
    ensures
        damage_upto(s, evs, recv, dmg, n).len() == s.len(),
        forall|i: int|
            0 <= i < s.len() ==> damage_touch_only(
                #[trigger] s[i],
                damage_upto(s, evs, recv, dmg, n)[i],
            ),
        crate::world::unique_ids(damage_upto(s, evs, recv, dmg, n)),
    decreases n,
{
    if n > 0 {
        lemma_damage_upto_shape(s, evs, recv, dmg, n - 1);
        let s1 = damage_upto(s, evs, recv, dmg, n - 1);
        let s2 = damage_step_world(s1, evs[n - 1], recv, dmg);
        assert forall|i: int|
            0 <= i < s.len() implies damage_touch_only(#[trigger] s[i], s2[i]) by {
            assert(damage_touch_only(s[i], s1[i]));
            if damage_applies(s1, evs[n - 1], recv, dmg) {
                let ri = idx_of(s1, evs[n - 1].entity);
                if i != ri {
                    assert(s2[i] == s1[i]);
                }
            }
        }
        assert forall|i: int, j: int|
            0 <= i < j < s2.len() implies (#[trigger] s2[i]).id != (#[trigger] s2[j]).id by {
            assert(damage_touch_only(s[i], s2[i]));
            assert(damage_touch_only(s[j], s2[j]));
        }
    }
}

/// Cooldown idempotence, first half: an entity under an active Damage
/// Cooldown takes no damage at all, however many events of the tick
/// target it.
pub proof fn lemma_cooldown_blocks_damage(
    s: Seq<Entity>,
    evs: Seq<CollisionEvent>,
    recv: Role,
    dmg: Role,
    n: int,
    i: int,
)
    requires
        crate::world::unique_ids(s),
        0 <= i < s.len(),
        s[i].cooldown is Some,
    ensures
        damage_upto(s, evs, recv, dmg, n)[i] == s[i],
    decreases n,
{
    if n > 0 {
        lemma_cooldown_blocks_damage(s, evs, recv, dmg, n - 1, i);
        lemma_damage_upto_shape(s, evs, recv, dmg, n - 1);
        let s1 = damage_upto(s, evs, recv, dmg, n - 1);
        if damage_applies(s1, evs[n - 1], recv, dmg) {
            let ri = idx_of(s1, evs[n - 1].entity);
            assert(s1[ri].cooldown is None);
            assert(ri != i);
        }
    }
}

/// A cooldown, once present, stays present for the rest of the pass, and
/// the entity does not change again.
pub proof fn lemma_cooldown_persists(
    s: Seq<Entity>,
    evs: Seq<CollisionEvent>,
    recv: Role,
    dmg: Role,
    n1: int,
    n2: int,
    i: int,
)
    requires
        crate::world::unique_ids(s),
        0 <= i < s.len(),
        0 <= n1 <= n2,
        damage_upto(s, evs, recv, dmg, n1)[i].cooldown is Some,
    ensures
        damage_upto(s, evs, recv, dmg, n2)[i] == damage_upto(s, evs, recv, dmg, n1)[i],
    decreases n2 - n1,
{
    lemma_damage_upto_shape(s, evs, recv, dmg, n1);
    if n2 > n1 {
        lemma_cooldown_persists(s, evs, recv, dmg, n1, n2 - 1, i);
        let s1 = damage_upto(s, evs, recv, dmg, n2 - 1);
        lemma_damage_upto_shape(s, evs, recv, dmg, n2 - 1);
        if damage_applies(s1, evs[n2 - 1], recv, dmg) {
            let ri = idx_of(s1, evs[n2 - 1].entity);
            assert(s1[ri].cooldown is None);
            assert(ri != i);
        }
    }
}

/// Whether an event targets entity `id` with a qualified damager; the
/// damager side of `damage_applies`, which no damage step changes.
pub open spec fn ev_qual(s: Seq<Entity>, ev: CollisionEvent, dmg: Role, id: u64) -> bool {
    &&& ev.entity == id
    &&& has_id(s, ev.collided_with)
    &&& has_role(s[idx_of(s, ev.collided_with)].roles, dmg)
    &&& s[idx_of(s, ev.collided_with)].damage is Some
}

/// Cooldown idempotence, second half: an entity with a configured
/// cooldown and none active is damaged exactly once — by the first
/// event that targets it with a qualified damager — and comes out of
/// the pass under a fresh cooldown.
pub proof fn lemma_damage_exactly_once(
    s: Seq<Entity>,
    evs: Seq<CollisionEvent>,
    recv: Role,
    dmg: Role,
    i: int,
    k: int,
)
    requires
        crate::world::unique_ids(s),
        0 <= i < s.len(),
        s[i].health is Some,
        s[i].health.unwrap().cooldown matches Some(d) && d >= 1,
        s[i].cooldown is None,
        has_role(s[i].roles, recv),
        0 <= k < evs.len(),
        ev_qual(s, evs[k], dmg, s[i].id),
        forall|k2: int| 0 <= k2 < k ==> !ev_qual(s, #[trigger] evs[k2], dmg, s[i].id),
    ensures
        ({
            let s2 = damage_upto(s, evs, recv, dmg, evs.len() as int);
            let h = s[i].health.unwrap();
            let amt = s[idx_of(s, evs[k].collided_with)].damage.unwrap().amount;
            &&& s2[i].health == Some(
                Health { amount: sat_sub_u32(h.amount, amt), total: h.total, cooldown: h.cooldown },
            )
            &&& s2[i].cooldown == Some(
                DamageCooldown {
                    cooldown: CountdownTimer {
                        duration: h.cooldown.unwrap(),
                        elapsed: 0,
                    },
                },
            )
        }),
{
    let id = s[i].id;
    // before the first qualified event nothing touches the entity
    assert forall|n: int| 0 <= n <= k implies damage_upto(s, evs, recv, dmg, n)[i] == s[i] by {
        lemma_damage_untouched_before(s, evs, recv, dmg, i, k, n);
    }
    let sk = damage_upto(s, evs, recv, dmg, k);
    lemma_damage_upto_shape(s, evs, recv, dmg, k);
    crate::world::lemma_idx_of(sk, id, i);
    // at the first qualified event the hit lands
    let dj = idx_of(s, evs[k].collided_with);
    assert(0 <= dj < s.len() && s[dj].id == evs[k].collided_with);
    assert(damage_touch_only(s[dj], sk[dj]));
    crate::world::lemma_idx_of(sk, evs[k].collided_with, dj);
    assert(damage_applies(sk, evs[k], recv, dmg));
    let skk = damage_upto(s, evs, recv, dmg, k + 1);
    assert(skk == damage_step_world(sk, evs[k], recv, dmg));
    let h = s[i].health.unwrap();
    let amt = s[dj].damage.unwrap().amount;
    assert(sk[dj].damage == s[dj].damage);
    assert(skk[i].health == Some(
        Health { amount: sat_sub_u32(h.amount, amt), total: h.total, cooldown: h.cooldown },
    ));
    assert(skk[i].cooldown == Some(
        DamageCooldown {
            cooldown: CountdownTimer { duration: h.cooldown.unwrap(), elapsed: 0 },
        },
    ));
    // and the fresh cooldown shields the entity for the rest of the pass
    lemma_cooldown_persists(s, evs, recv, dmg, k + 1, evs.len() as int, i);
}

/// Helper: before the first qualified event, the entity is untouched.
proof fn lemma_damage_untouched_before(
    s: Seq<Entity>,
    evs: Seq<CollisionEvent>,
    recv: Role,
    dmg: Role,
    i: int,
    k: int,
    n: int,
)
    requires
        crate::world::unique_ids(s),
        0 <= i < s.len(),
        0 <= n <= k <= evs.len(),
        forall|k2: int| 0 <= k2 < k ==> !ev_qual(s, #[trigger] evs[k2], dmg, s[i].id),
    ensures
        damage_upto(s, evs, recv, dmg, n)[i] == s[i],
    decreases n,
{
    if n > 0 {
        lemma_damage_untouched_before(s, evs, recv, dmg, i, k, n - 1);
        lemma_damage_upto_shape(s, evs, recv, dmg, n - 1);
        let s1 = damage_upto(s, evs, recv, dmg, n - 1);
        let ev = evs[n - 1];
        if damage_applies(s1, ev, recv, dmg) {
            let ri = idx_of(s1, ev.entity);
            if ri == i {
                // the event would be qualified against the initial state
                let dj1 = idx_of(s1, ev.collided_with);
                assert(damage_touch_only(s[dj1], s1[dj1]));
                crate::world::lemma_idx_of(s1, ev.collided_with, dj1);
                assert(0 <= dj1 < s.len() && s[dj1].id == ev.collided_with);
                crate::world::lemma_idx_of(s, ev.collided_with, dj1);
                assert(s1[i].id == s[i].id);
                assert(ev_qual(s, ev, dmg, s[i].id));
                assert(false);
            }
            assert(s1.update(ri, damage_step_world(s1, ev, recv, dmg)[ri])[i] == s1[i]);
        }
    }
}

/// Cooldown ticking: what one tick leaves of an entity — an active
/// cooldown advances by the delta and is removed the instant it
/// finishes, not before.
pub open spec fn cooled_entity(e: Entity, delta: u32) -> Entity {
    match e.cooldown {
        Some(cd) => {
            let t2 = spec_tick(cd.cooldown, delta);
            if t2.elapsed == t2.duration {
                Entity { cooldown: None, ..e }
            } else {
                Entity { cooldown: Some(DamageCooldown { cooldown: t2 }), ..e }
            }
        },
        None => e,
    }
}

/// Tick every active Damage Cooldown by the frame delta and remove the
/// ones that finish.
pub fn tick_damage_cooldown(w: &mut World, delta: u32)
    requires
        crate::world::world_wf(*old(w)),
    ensures
        crate::world::world_wf(*final(w)),
        final(w).next_id == old(w).next_id,
        final(w).entities@.len() == old(w).entities@.len(),
        forall|i: int|
            0 <= i < old(w).entities@.len() ==> #[trigger] final(w).entities@[i] == cooled_entity(
                old(w).entities@[i],
                delta,
            ),
{
    let ghost s0 = w.entities@;
    let n = w.entities.len();
    let mut i: usize = 0;
    while i < n
        invariant
            n == s0.len(),
            i <= n,
            w.next_id == old(w).next_id,
            s0 == old(w).entities@,
            crate::world::entities_wf(s0, old(w).next_id),
            w.entities@.len() == n,
            forall|i2: int| i <= i2 < n ==> #[trigger] w.entities@[i2] == s0[i2],
            forall|i2: int|
                0 <= i2 < i ==> #[trigger] w.entities@[i2] == cooled_entity(s0[i2], delta),
        decreases n - i,
    {
        let e = &mut w.entities[i];
        let mut remove = false;
        match &mut e.cooldown {
            Some(cd) => {
                let fin = cd.cooldown.tick(delta);
                if fin {
                    remove = true;
                }
            },
            None => {},
        }
        if remove {
            e.cooldown = None;
        }
        i += 1;
    }
    proof {
        assert forall|i2: int|
            0 <= i2 < n implies crate::world::same_skeleton(
            #[trigger] s0[i2],
            w.entities@[i2],
        ) && crate::world::entity_wf(w.entities@[i2]) by {
            assert(w.entities@[i2] == cooled_entity(s0[i2], delta));
            assert(crate::world::entity_wf(s0[i2]));
        }
        crate::world::lemma_entities_wf_from(s0, w.entities@, old(w).next_id);
    }
}

/// An entity is dead when its health has reached zero.
pub open spec fn dead(e: Entity) -> bool {
    e.health matches Some(h) && h.amount == 0
}

/// Doomed: dead, or owned (transitively) by a doomed entity standing
/// earlier in the arena.
pub open spec fn doomed(s: Seq<Entity>, i: int) -> bool
    decreases i,
{
    ||| dead(s[i])
    ||| (s[i].parent matches Some(p) && exists|j: int|
        0 <= j < i && (#[trigger] s[j]).id == p && doomed(s, j))
}

/// The entities that survive the sweep, in arena order.
pub open spec fn survivors(s: Seq<Entity>, n: int) -> Seq<Entity>
    decreases n,
{
    if n <= 0 {
        Seq::empty()
    } else if doomed(s, n - 1) {
        survivors(s, n - 1)
    } else {
        survivors(s, n - 1).push(s[n - 1])
    }
}

/// Survivors are a subsequence: every one is an undoomed entity of the
/// input, and every undoomed entity appears exactly once, in order.
pub proof fn lemma_survivors_membership(s: Seq<Entity>, n: int)
    requires
        0 <= n <= s.len(),
    ensures
        survivors(s, n).len() <= n,
        forall|k: int|
            0 <= k < survivors(s, n).len() ==> exists|i: int|
                0 <= i < n && !doomed(s, i) && #[trigger] survivors(s, n)[k] == s[i],
        forall|i: int|
            0 <= i < n && !doomed(s, i) ==> exists|k: int|
                0 <= k < survivors(s, n).len() && #[trigger] survivors(s, n)[k] == s[i],
    decreases n,
{
    if n > 0 {
        lemma_survivors_membership(s, n - 1);
        assert forall|k: int|
            0 <= k < survivors(s, n).len() implies exists|i: int|
            0 <= i < n && !doomed(s, i) && #[trigger] survivors(s, n)[k] == s[i] by {
            if k < survivors(s, n - 1).len() {
                assert(survivors(s, n)[k] == survivors(s, n - 1)[k]);
                let i = choose|i: int|
                    0 <= i < n - 1 && !doomed(s, i) && #[trigger] survivors(s, n - 1)[k] == s[i];
                assert(0 <= i < n && !doomed(s, i) && survivors(s, n)[k] == s[i]);
            } else {
                assert(!doomed(s, n - 1) && survivors(s, n)[k] == s[n - 1]);
            }
        }
        assert forall|i: int|
            0 <= i < n && !doomed(s, i) implies exists|k: int|
            0 <= k < survivors(s, n).len() && #[trigger] survivors(s, n)[k] == s[i] by {
            if i < n - 1 {
                let k = choose|k: int|
                    0 <= k < survivors(s, n - 1).len() && #[trigger] survivors(s, n - 1)[k] == s[i];
                assert(survivors(s, n)[k] == s[i]);
            } else {
                assert(survivors(s, n)[survivors(s, n).len() - 1] == s[i]);
            }
        }
    }
}

/// How many of the first `i` entities survive; the survivor index of an
/// undoomed entity `i`.
pub open spec fn surv_pos(s: Seq<Entity>, i: int) -> int {
    survivors(s, i).len() as int
}

/// An undoomed entity stands at its survivor index, and survivor
/// indices grow with arena indices.
pub proof fn lemma_surv_pos(s: Seq<Entity>, i: int, n: int)
    requires
        0 <= i < n <= s.len(),
        !doomed(s, i),
    ensures
        surv_pos(s, i) < survivors(s, n).len(),
        survivors(s, n)[surv_pos(s, i)] == s[i],
    decreases n,
{
    if i == n - 1 {
    } else {
        lemma_surv_pos(s, i, n - 1);
    }
}

/// Survivor indices are strictly monotone in arena indices.
pub proof fn lemma_surv_pos_monotone(s: Seq<Entity>, i: int, j: int)
    requires
        0 <= i < j <= s.len(),
        !doomed(s, i),
    ensures
        surv_pos(s, i) < survivors(s, j).len(),
        surv_pos(s, i) < j,
    decreases j,
{
    if i == j - 1 {
        lemma_survivors_membership(s, i);
    } else {
        lemma_surv_pos_monotone(s, i, j - 1);
    }
}

/// The despawn sweep: remove every entity whose health has reached
/// zero, and with it, transitively, every entity parented to a removed
/// one. Survivors keep their order and are untouched.
#[verifier::rlimit(100)]
pub fn despawn_dead_entities(w: &mut World)
    requires
        crate::world::world_wf(*old(w)),
    ensures
        crate::world::world_wf(*final(w)),
        final(w).next_id == old(w).next_id,
        final(w).entities@ == survivors(old(w).entities@, old(w).entities@.len() as int),
{
    let ghost s0 = w.entities@;
    let n = w.entities.len();
    let mut flags: Vec<bool> = Vec::new();
    let mut i: usize = 0;
    while i < n
        invariant
            n == s0.len(),
            i <= n,
            w.entities@ == s0,
            w.next_id == old(w).next_id,
            crate::world::entities_wf(s0, old(w).next_id),
            flags@.len() == i,
            forall|i2: int| 0 <= i2 < i ==> #[trigger] flags@[i2] == doomed(s0, i2),
        decreases n - i,
    {
        let e = &w.entities[i];
        let mut dm = match &e.health {
            Some(h) => h.amount == 0,
            None => false,
        };
        match e.parent {
            Some(p) => {
                let mut j: usize = 0;
                let mut found = false;
                while j < i
                    invariant
                        n == s0.len(),
                        i < n,
                        j <= i,
                        w.entities@ == s0,
                        flags@.len() == i,
                        forall|i2: int| 0 <= i2 < i ==> #[trigger] flags@[i2] == doomed(s0, i2),
                        s0[i as int].parent == Some(p),
                        found == exists|j2: int|
                            0 <= j2 < j && (#[trigger] s0[j2]).id == p && doomed(s0, j2),
                    decreases i - j,
                {
                    if w.entities[j].id == p && flags[j] {
                        found = true;
                    }
                    i += 0;
                    j += 1;
                }
                if found {
                    dm = true;
                }
            },
            None => {},
        }
        proof {
            assert(dm == doomed(s0, i as int));
        }
        flags.push(dm);
        i += 1;
    }
    let mut out: Vec<Entity> = Vec::new();
    let mut i: usize = 0;
    while i < n
        invariant
            n == s0.len(),
            i <= n,
            w.entities@ =~= s0.skip(i as int),
            w.next_id == old(w).next_id,
            crate::world::entities_wf(s0, old(w).next_id),
            flags@.len() == n,
            forall|i2: int| 0 <= i2 < n ==> #[trigger] flags@[i2] == doomed(s0, i2),
            out@ == survivors(s0, i as int),
        decreases n - i,
    {
        let e = w.entities.remove(0);
        proof {
            assert(e == s0[i as int]);
            assert(w.entities@ =~= s0.skip(i + 1));
        }
        if !flags[i] {
            out.push(e);
        }
        i += 1;
    }
    w.entities = out;
    proof {
        lemma_survivors_wf(s0, n as int, old(w).next_id);
    }
}

/// The survivor list of a well-formed arena is itself well formed: the
/// sweep keeps identities unique and every owner ahead of what it owns.
#[verifier::rlimit(100)]
pub proof fn lemma_survivors_wf(s: Seq<Entity>, n: int, next_id: u64)
    requires
        crate::world::entities_wf(s, next_id),
        n == s.len(),
    ensures
        crate::world::entities_wf(survivors(s, n), next_id),
{
    let sv = survivors(s, n);
    lemma_survivors_membership(s, n);
    assert forall|k: int|
        0 <= k < sv.len() implies crate::world::entity_wf(#[trigger] sv[k]) && sv[k].id
        < next_id by {
        let i2 = choose|i2: int| 0 <= i2 < n && !doomed(s, i2) && #[trigger] sv[k] == s[i2];
        assert(crate::world::entity_wf(s[i2]));
    }
    assert forall|k1: int, k2: int|
        0 <= k1 < k2 < sv.len() implies (#[trigger] sv[k1]).id != (#[trigger] sv[k2]).id by {
        lemma_survivors_distinct(s, n, k1, k2);
    }
    assert forall|k: int|
        0 <= k < sv.len() && (#[trigger] sv[k]).parent is Some implies exists|k2: int|
        0 <= k2 < k && (#[trigger] sv[k2]).id == sv[k].parent.unwrap() by {
        let i2 = choose|i2: int| 0 <= i2 < n && !doomed(s, i2) && #[trigger] sv[k] == s[i2];
        let p = s[i2].parent.unwrap();
        let j2 = choose|j2: int| 0 <= j2 < i2 && (#[trigger] s[j2]).id == p;
        assert(!doomed(s, j2)) by {
            if doomed(s, j2) {
                assert(doomed(s, i2));
            }
        }
        lemma_surv_pos(s, j2, n);
        lemma_surv_pos(s, i2, n);
        lemma_surv_pos_same(s, i2, k, n);
        lemma_surv_pos_monotone_strict(s, j2, i2, n);
        assert(sv[surv_pos(s, j2)] == s[j2]);
    }
}

/// Distinct survivor slots come from distinct arena slots, so their
/// identities differ.
proof fn lemma_survivors_distinct(s: Seq<Entity>, n: int, k1: int, k2: int)
    requires
        crate::world::unique_ids(s),
        0 <= n <= s.len(),
        0 <= k1 < k2 < survivors(s, n).len(),
    ensures
        survivors(s, n)[k1].id != survivors(s, n)[k2].id,
    decreases n,
{
    if n > 0 {
        if k2 < survivors(s, n - 1).len() {
            lemma_survivors_distinct(s, n - 1, k1, k2);
        } else {
            lemma_survivors_membership(s, n - 1);
            let i1 = choose|i1: int|
                0 <= i1 < n - 1 && !doomed(s, i1) && #[trigger] survivors(s, n - 1)[k1] == s[i1];
            assert(s[i1].id != s[n - 1].id);
        }
    }
}

/// A survivor slot names the survivor position of its arena slot.
proof fn lemma_surv_pos_same(s: Seq<Entity>, i: int, k: int, n: int)
    requires
        crate::world::unique_ids(s),
        0 <= i < n <= s.len(),
        !doomed(s, i),
        0 <= k < survivors(s, n).len(),
        survivors(s, n)[k] == s[i],
    ensures
        k == surv_pos(s, i),
{
    lemma_surv_pos(s, i, n);
    if k != surv_pos(s, i) {
        if k < surv_pos(s, i) {
            lemma_survivors_distinct(s, n, k, surv_pos(s, i));
        } else {
            lemma_survivors_distinct(s, n, surv_pos(s, i), k);
        }
    }
}

/// Strict monotonicity between two undoomed arena slots.
proof fn lemma_surv_pos_monotone_strict(s: Seq<Entity>, j: int, i: int, n: int)
    requires
        0 <= j < i < n <= s.len(),
        !doomed(s, j),
        !doomed(s, i),
    ensures
        surv_pos(s, j) < surv_pos(s, i),
    decreases i,
{
    lemma_surv_pos_monotone(s, j, i);
    lemma_surv_pos(s, j, i);
}

} // verus!
