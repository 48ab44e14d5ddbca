//! Colliders, collision events, broad-phase detection and event dispatch.

use crate::geometry::{spec_overlaps, Rect2, Vec2i};
use crate::world::{has_role, Entity, Role, World, POS_LIMIT, SIZE_LIMIT};
use vstd::prelude::*;

verus! {

/// An axis-aligned box owned by one entity: a size, a local offset from
/// the entity's position, and the list of entities it currently overlaps,
/// recomputed in full every tick.
#[derive(Debug)]
pub struct Collider {
    pub size: Vec2i,
    pub offset: Vec2i,
    pub collisions: Vec<u64>,
}

/// Sizes are non-negative and bounded; offsets are bounded.
pub open spec fn collider_wf(c: Collider) -> bool {
    &&& 0 <= c.size.x <= SIZE_LIMIT && 0 <= c.size.y <= SIZE_LIMIT
    &&& -SIZE_LIMIT <= c.offset.x <= SIZE_LIMIT && -SIZE_LIMIT <= c.offset.y <= SIZE_LIMIT
}

/// The world rectangle of a collider for an entity standing at `pos`:
/// centered on `pos + offset`, with the collider's size.
pub open spec fn spec_rect_at(c: Collider, pos: Vec2i) -> Rect2 {
    let cx = pos.x + c.offset.x;
    let cy = pos.y + c.offset.y;
    let hx = c.size.x / 2;
    let hy = c.size.y / 2;
    Rect2 {
        min: Vec2i { x: (cx - hx) as i64, y: (cy - hy) as i64 },
        max: Vec2i { x: (cx - hx + c.size.x) as i64, y: (cy - hy + c.size.y) as i64 },
    }
}

impl Collider {
    pub fn new(size: Vec2i) -> (c: Collider)
        ensures
            c.size == size,
            c.offset == (Vec2i { x: 0, y: 0 }),
            c.collisions@ =~= Seq::<u64>::empty(),
    {
        Collider::with_size_and_offset(size, Vec2i { x: 0, y: 0 })
    }

    pub fn with_size_and_offset(size: Vec2i, offset: Vec2i) -> (c: Collider)
        ensures
            c.size == size,
            c.offset == offset,
            c.collisions@ =~= Seq::<u64>::empty(),
    {
        Collider { size, offset, collisions: Vec::new() }
    }

    /// A copy with the same size, offset and overlap list.
    pub fn duplicate(&self) -> (c: Collider)
        ensures
            c.size == self.size,
            c.offset == self.offset,
            c.collisions@ == self.collisions@,
    {
        let collisions = self.collisions.clone();
        proof {
            assert forall|i: int|
                0 <= i < self.collisions@.len() implies collisions@[i]
                == self.collisions@[i] by {
                assert(vstd::pervasive::cloned::<u64>(self.collisions[i], collisions[i]));
            }
            assert(collisions@ =~= self.collisions@);
        }
        Collider { size: self.size, offset: self.offset, collisions }
    }

    /// The collider's world rectangle for an entity standing at `pos`.
    pub fn to_rect_at(&self, pos: Vec2i) -> (r: Rect2)
        requires
            collider_wf(*self),
            -POS_LIMIT <= pos.x <= POS_LIMIT,
            -POS_LIMIT <= pos.y <= POS_LIMIT,
        ensures
            r == spec_rect_at(*self, pos),
            crate::geometry::rect_wf(r),
            -(POS_LIMIT + 3 * SIZE_LIMIT) <= r.min.x <= r.max.x <= POS_LIMIT + 3 * SIZE_LIMIT,
            -(POS_LIMIT + 3 * SIZE_LIMIT) <= r.min.y <= r.max.y <= POS_LIMIT + 3 * SIZE_LIMIT,
    {
        let cx = pos.x + self.offset.x;
        let cy = pos.y + self.offset.y;
        let hx = (self.size.x as u64 / 2) as i64;
        let hy = (self.size.y as u64 / 2) as i64;
        proof {
            assert(hx == self.size.x / 2 && 0 <= hx <= self.size.x);
            assert(hy == self.size.y / 2 && 0 <= hy <= self.size.y);
        }
        Rect2 {
            min: Vec2i { x: cx - hx, y: cy - hy },
            max: Vec2i { x: cx - hx + self.size.x, y: cy - hy + self.size.y },
        }
    }
}

/// The static amount of contact damage an entity deals.
#[derive(Clone, Copy, Debug, PartialEq, Eq, Structural)]
pub struct CollisionDamage {
    pub amount: u32,
}

impl CollisionDamage {
    pub fn new(amount: u32) -> (d: CollisionDamage)
        ensures
            d.amount == amount,
    {
        CollisionDamage { amount }
    }
}

/// A one-tick directed notification that `entity`'s collider overlaps
/// `collided_with`'s.
#[derive(Clone, Copy, Debug, PartialEq, Eq, Structural)]
pub struct CollisionEvent {
    pub entity: u64,
    pub collided_with: u64,
}

impl CollisionEvent {
    pub fn new(entity: u64, collided_with: u64) -> (e: CollisionEvent)
        ensures
            e.entity == entity,
            e.collided_with == collided_with,
    {
        CollisionEvent { entity, collided_with }
    }
}

/// Whether the world rectangles of two entities overlap strictly; false
/// unless both carry colliders.
pub open spec fn pair_collides(a: Entity, b: Entity) -> bool {
    &&& a.collider is Some
    &&& b.collider is Some
    &&& spec_overlaps(
        spec_rect_at(a.collider.unwrap(), a.pos),
        spec_rect_at(b.collider.unwrap(), b.pos),
    )
}

/// The overlap list of entity `i` computed against the first `n`
/// entities: the ids of the others whose rectangles overlap its own, in
/// arena order.
pub open spec fn overlap_ids_upto(s: Seq<Entity>, i: int, n: int) -> Seq<u64>
    decreases n,
{
    if n <= 0 {
        Seq::empty()
    } else {
        let rest = overlap_ids_upto(s, i, n - 1);
        if n - 1 != i && pair_collides(s[i], s[n - 1]) {
            rest.push(s[n - 1].id)
        } else {
            rest
        }
    }
}

/// The full overlap list of entity `i`.
pub open spec fn overlap_ids(s: Seq<Entity>, i: int) -> Seq<u64> {
    overlap_ids_upto(s, i, s.len() as int)
}

/// The two entities agree on everything but the overlap list.
pub open spec fn same_but_collisions(oe: Entity, ne: Entity) -> bool {
    &&& ne.id == oe.id
    &&& ne.pos == oe.pos
    &&& ne.roles == oe.roles
    &&& ne.parent == oe.parent
    &&& ne.health == oe.health
    &&& ne.damage == oe.damage
    &&& ne.cooldown == oe.cooldown
    &&& ne.knockback == oe.knockback
    &&& ne.velocity == oe.velocity
    &&& ne.facing == oe.facing
    &&& (oe.collider is None <==> ne.collider is None)
    &&& (oe.collider matches Some(c) ==> ne.collider matches Some(nc) && nc.size == c.size
        && nc.offset == c.offset)
}

/// What detection leaves of entity `i`: everything unchanged but the
/// overlap list, which now holds exactly the overlapping entities.
pub open spec fn detected_entity(s: Seq<Entity>, i: int, ne: Entity) -> bool {
    &&& same_but_collisions(s[i], ne)
    &&& (ne.collider matches Some(nc) ==> nc.collisions@ == overlap_ids(s, i))
}

/// Broad-phase detection: overwrite every collider's overlap list with
/// the ids of the entities it currently overlaps, in arena order. The
/// previous lists are discarded, never merged. Exactly-touching
/// rectangles do not overlap.
pub fn detect_collisions(w: &mut World)
    requires
        crate::world::world_wf(*old(w)),
    ensures
        crate::world::world_wf(*final(w)),
        final(w).next_id == old(w).next_id,
        final(w).entities@.len() == old(w).entities@.len(),
        forall|i: int|
            0 <= i < old(w).entities@.len() ==> detected_entity(
                old(w).entities@,
                i,
                #[trigger] final(w).entities@[i],
            ),
{
    let ghost s0 = w.entities@;
    let n = w.entities.len();
    let mut lists: Vec<Option<Vec<u64>>> = Vec::new();
    let mut i: usize = 0;
    while i < n
        invariant
            crate::world::world_wf(*w),
            w.entities@ == s0,
            n == s0.len(),
            i <= n,
            lists@.len() == i,
            forall|i2: int|
                0 <= i2 < i ==> ((#[trigger] lists@[i2]) is Some <==> s0[i2].collider is Some),
            forall|i2: int|
                0 <= i2 < i && s0[i2].collider is Some ==> ((#[trigger] lists@[i2]) matches Some(
                l) && l@ == overlap_ids(s0, i2)),
        decreases n - i,
    {
        if w.entities[i].collider.is_some() {
            let mut ids: Vec<u64> = Vec::new();
            let mut j: usize = 0;
            while j < n
                invariant
                    crate::world::world_wf(*w),
                    w.entities@ == s0,
                    n == s0.len(),
                    i < n,
                    j <= n,
                    s0[i as int].collider is Some,
                    ids@ == overlap_ids_upto(s0, i as int, j as int),
                decreases n - j,
            {
                if j != i && w.entities[j].collider.is_some() {
                    let ei = &w.entities[i];
                    let ej = &w.entities[j];
                    let ra = match &ei.collider {
                        Some(c) => c.to_rect_at(ei.pos),
                        None => Rect2 {
                            min: Vec2i { x: 0, y: 0 },
                            max: Vec2i { x: 0, y: 0 },
                        },
                    };
                    let rb = match &ej.collider {
                        Some(c) => c.to_rect_at(ej.pos),
                        None => Rect2 {
                            min: Vec2i { x: 0, y: 0 },
                            max: Vec2i { x: 0, y: 0 },
                        },
                    };
                    if ra.overlaps(&rb) {
                        ids.push(ej.id);
                    }
                    proof {
                        assert(ra == spec_rect_at(s0[i as int].collider.unwrap(), s0[i as int].pos));
                        assert(rb == spec_rect_at(s0[j as int].collider.unwrap(), s0[j as int].pos));
                    }
                }
                j += 1;
            }
            lists.push(Some(ids));
        } else {
            lists.push(None);
        }
        i += 1;
    }
    let mut i: usize = 0;
    while i < n
        invariant
            w.entities@.len() == s0.len(),
            w.next_id == old(w).next_id,
            crate::world::world_wf(*old(w)),
            n == s0.len(),
            i <= n,
            lists@.len() == n,
            forall|i2: int|
                i <= i2 < n ==> ((#[trigger] lists@[i2]) is Some <==> s0[i2].collider is Some),
            forall|i2: int|
                i <= i2 < n && s0[i2].collider is Some ==> ((#[trigger] lists@[i2]) matches Some(
                l) && l@ == overlap_ids(s0, i2)),
            forall|i2: int| i <= i2 < n ==> #[trigger] w.entities@[i2] == s0[i2],
            forall|i2: int| 0 <= i2 < i ==> detected_entity(s0, i2, #[trigger] w.entities@[i2]),
            s0 == old(w).entities@,
        decreases n - i,
    {
        let l = lists[i].take();
        match l {
            Some(v) => {
                let e = &mut w.entities[i];
                match &mut e.collider {
                    Some(c) => {
                        c.collisions = v;
                    },
                    None => {},
                }
            },
            None => {},
        }
        i += 1;
    }
    proof {
        assert forall|i2: int|
            0 <= i2 < s0.len() implies crate::world::entity_wf(#[trigger] w.entities@[i2]) by {
            assert(detected_entity(s0, i2, w.entities@[i2]));
            assert(crate::world::entity_wf(s0[i2]));
        }
        assert forall|i2: int, j2: int|
            0 <= i2 < j2 < w.entities@.len() implies (#[trigger] w.entities@[i2]).id != (
        #[trigger] w.entities@[j2]).id by {
            assert(detected_entity(s0, i2, w.entities@[i2]));
            assert(detected_entity(s0, j2, w.entities@[j2]));
        }
        assert forall|i2: int|
            0 <= i2 < w.entities@.len() implies (#[trigger] w.entities@[i2]).id < w.next_id by {
            assert(detected_entity(s0, i2, w.entities@[i2]));
        }
        assert forall|i2: int|
            0 <= i2 < w.entities@.len() && (#[trigger] w.entities@[i2]).parent is Some implies exists|j2: int|
            0 <= j2 < i2 && (#[trigger] w.entities@[j2]).id == w.entities@[i2].parent.unwrap() by {
            assert(detected_entity(s0, i2, w.entities@[i2]));
            let j2 = choose|j2: int|
                0 <= j2 < i2 && (#[trigger] s0[j2]).id == s0[i2].parent.unwrap();
            assert(detected_entity(s0, j2, w.entities@[j2]));
        }
    }
}

/// The events entity `e` emits when it carries `role`: one per recorded
/// overlap, in list order.
pub open spec fn entity_events(e: Entity, role: Role) -> Seq<CollisionEvent> {
    if has_role(e.roles, role) && e.collider is Some {
        e.collider.unwrap().collisions@.map_values(
            |cid: u64| CollisionEvent { entity: e.id, collided_with: cid },
        )
    } else {
        Seq::empty()
    }
}

/// The events the first `n` entities emit for `role`, in arena order.
pub open spec fn events_upto(s: Seq<Entity>, role: Role, n: int) -> Seq<CollisionEvent>
    decreases n,
{
    if n <= 0 {
        Seq::empty()
    } else {
        events_upto(s, role, n - 1) + entity_events(s[n - 1], role)
    }
}

/// All events emitted for `role` this tick.
pub open spec fn spec_events_for(s: Seq<Entity>, role: Role) -> Seq<CollisionEvent> {
    events_upto(s, role, s.len() as int)
}

/// Event dispatch: project the overlap lists of every entity carrying
/// `role` into directed collision events, one per recorded overlap.
pub fn handle_collisions(w: &World, role: Role) -> (events: Vec<CollisionEvent>)
    ensures
        events@ == spec_events_for(w.entities@, role),
{
    let s = &w.entities;
    let n = s.len();
    let mut events: Vec<CollisionEvent> = Vec::new();
    let mut i: usize = 0;
    while i < n
        invariant
            n == s@.len(),
            i <= n,
            events@ == events_upto(s@, role, i as int),
        decreases n - i,
    {
        let e = &s[i];
        if crate::world::roles_has(&e.roles, role) && e.collider.is_some() {
            match &e.collider {
                Some(c) => {
                    let m = c.collisions.len();
                    let mut j: usize = 0;
                    while j < m
                        invariant
                            n == s@.len(),
                            i < n,
                            m == c.collisions@.len(),
                            j <= m,
                            c == s@[i as int].collider.unwrap(),
                            has_role(s@[i as int].roles, role),
                            s@[i as int].collider is Some,
                            e.id == s@[i as int].id,
                            events@ == events_upto(s@, role, i as int) + c.collisions@.take(
                                j as int,
                            ).map_values(
                                |cid: u64| CollisionEvent { entity: s@[i as int].id, collided_with: cid },
                            ),
                        decreases m - j,
                    {
                        events.push(CollisionEvent { entity: e.id, collided_with: c.collisions[j] });
                        proof {
                            let f = |cid: u64|
                                CollisionEvent { entity: s@[i as int].id, collided_with: cid };
                            assert(c.collisions@.take(j + 1) =~= c.collisions@.take(j as int).push(
                                c.collisions@[j as int],
                            ));
                            assert(c.collisions@.take(j + 1).map_values(f) =~= c.collisions@.take(
                                j as int,
                            ).map_values(f).push(f(c.collisions@[j as int])));
                        }
                        j += 1;
                    }
                    proof {
                        let f = |cid: u64|
                            CollisionEvent { entity: s@[i as int].id, collided_with: cid };
                        assert(c.collisions@.take(m as int) =~= c.collisions@);
                        assert(entity_events(s@[i as int], role) == c.collisions@.map_values(f));
                        assert(events@ =~= events_upto(s@, role, i + 1));
                    }
                },
                None => {},
            }
        } else {
            proof {
                assert(entity_events(s@[i as int], role) =~= Seq::<CollisionEvent>::empty());
                assert(events@ =~= events_upto(s@, role, i + 1));
            }
        }
        i += 1;
    }
    events
}

/// Membership in an overlap list: under unique identities, entity `k`'s
/// id appears in entity `i`'s list exactly when their rectangles
/// overlap.
pub proof fn lemma_overlap_membership(s: Seq<Entity>, i: int, k: int, n: int)
    requires
        crate::world::unique_ids(s),
        0 <= i < s.len(),
        0 <= k < s.len(),
        0 <= n <= s.len(),
    ensures
        overlap_ids_upto(s, i, n).contains(s[k].id) == (k != i && k < n && pair_collides(
            s[i],
            s[k],
        )),
    decreases n,
{
    if n <= 0 {
        assert(!overlap_ids_upto(s, i, n).contains(s[k].id));
    } else {
        lemma_overlap_membership(s, i, k, n - 1);
        let rest = overlap_ids_upto(s, i, n - 1);
        let full = overlap_ids_upto(s, i, n);
        if n - 1 != i && pair_collides(s[i], s[n - 1]) {
            assert(full == rest.push(s[n - 1].id));
            assert forall|v: u64| #[trigger] full.contains(v) implies rest.contains(v) || v == s[n
                - 1].id by {
                let j = choose|j: int| 0 <= j < full.len() && full[j] == v;
                if j < rest.len() {
                    assert(rest[j] == v);
                }
            }
            if k == n - 1 {
                assert(full.last() == s[k].id);
                assert(full.contains(s[k].id));
            } else {
                if s[k].id == s[n - 1].id {
                    if k < n - 1 {
                        assert(s[k].id != s[n - 1].id);
                    } else {
                        assert(s[n - 1].id != s[k].id);
                    }
                }
                if rest.contains(s[k].id) {
                    assert(full.contains(s[k].id)) by {
                        let j = choose|j: int| 0 <= j < rest.len() && rest[j] == s[k].id;
                        assert(full[j] == s[k].id);
                    }
                }
            }
        } else {
            assert(full == rest);
        }
    }
}

/// Overlap symmetry: whenever two entities are detected as overlapping,
/// each one's recorded overlap list contains the other.
pub proof fn lemma_overlap_symmetry(s: Seq<Entity>, i: int, j: int)
    requires
        crate::world::unique_ids(s),
        0 <= i < s.len(),
        0 <= j < s.len(),
        i != j,
    ensures
        overlap_ids(s, i).contains(s[j].id) <==> overlap_ids(s, j).contains(s[i].id),
{
    lemma_overlap_membership(s, i, j, s.len() as int);
    lemma_overlap_membership(s, j, i, s.len() as int);
    assert(pair_collides(s[i], s[j]) == pair_collides(s[j], s[i]));
}

/// Every identity in an overlap list belongs to a present entity.
pub proof fn lemma_overlap_ids_present(s: Seq<Entity>, i: int, n: int, v: u64)
    requires
        0 <= i < s.len(),
        0 <= n <= s.len(),
        overlap_ids_upto(s, i, n).contains(v),
    ensures
        exists|k: int| 0 <= k < n && (#[trigger] s[k]).id == v,
    decreases n,
{
    if n > 0 {
        let rest = overlap_ids_upto(s, i, n - 1);
        let full = overlap_ids_upto(s, i, n);
        if n - 1 != i && pair_collides(s[i], s[n - 1]) {
            if v == s[n - 1].id {
            } else {
                assert(rest.contains(v)) by {
                    let j = choose|j: int| 0 <= j < full.len() && full[j] == v;
                    assert(j < rest.len());
                    assert(rest[j] == v);
                }
                lemma_overlap_ids_present(s, i, n - 1, v);
            }
        } else {
            lemma_overlap_ids_present(s, i, n - 1, v);
        }
    }
}

/// Death is terminal, event side: no dispatched event names an absent
/// identity, provided the overlap lists only hold present identities.
pub proof fn lemma_no_events_for_absent_id(s: Seq<Entity>, role: Role, id: u64, n: int)
    requires
        0 <= n <= s.len(),
        forall|k: int| 0 <= k < s.len() ==> (#[trigger] s[k]).id != id,
        forall|k: int|
            0 <= k < s.len() && (#[trigger] s[k]).collider is Some ==> forall|v: u64|
                s[k].collider.unwrap().collisions@.contains(v) ==> exists|k2: int|
                    0 <= k2 < s.len() && (#[trigger] s[k2]).id == v,
    ensures
        forall|e: int|
            0 <= e < events_upto(s, role, n).len() ==> (#[trigger] events_upto(
                s,
                role,
                n,
            )[e]).entity != id && events_upto(s, role, n)[e].collided_with != id,
    decreases n,
{
    if n > 0 {
        lemma_no_events_for_absent_id(s, role, id, n - 1);
        let prev = events_upto(s, role, n - 1);
        let full = events_upto(s, role, n);
        let ee = entity_events(s[n - 1], role);
        assert forall|e: int|
            0 <= e < full.len() implies (#[trigger] full[e]).entity != id && full[e].collided_with
            != id by {
            if e < prev.len() {
                assert(full[e] == prev[e]);
            } else {
                assert(full[e] == ee[e - prev.len()]);
                assert(has_role(s[n - 1].roles, role) && s[n - 1].collider is Some);
                let cid = s[n - 1].collider.unwrap().collisions@[e - prev.len()];
                assert(ee[e - prev.len()] == (CollisionEvent {
                    entity: s[n - 1].id,
                    collided_with: cid,
                }));
                assert(s[n - 1].collider.unwrap().collisions@.contains(cid));
                let k2 = choose|k2: int| 0 <= k2 < s.len() && (#[trigger] s[k2]).id == cid;
                assert(s[k2].id != id);
            }
        }
    }
}

/// Detection as a relation between the arena before and after.
pub open spec fn detect_rel(s0: Seq<Entity>, s1: Seq<Entity>) -> bool {
    &&& s1.len() == s0.len()
    &&& forall|i: int| 0 <= i < s0.len() ==> detected_entity(s0, i, #[trigger] s1[i])
}

/// An overlap list holds at most one entry per entity considered.
pub proof fn lemma_overlap_ids_len(s: Seq<Entity>, i: int, n: int)
    requires
        0 <= n,
    ensures
        overlap_ids_upto(s, i, n).len() <= n,
    decreases n,
{
    if n > 0 {
        lemma_overlap_ids_len(s, i, n - 1);
    }
}

/// The dispatch of one role emits at most one event per recorded
/// overlap: no more than `n * m` events when every list is at most `m`
/// long.
pub proof fn lemma_events_len(s: Seq<Entity>, role: Role, n: int, m: int)
    requires
        0 <= n <= s.len(),
        0 <= m,
        forall|i: int|
            0 <= i < s.len() && (#[trigger] s[i]).collider is Some
                ==> s[i].collider.unwrap().collisions@.len() <= m,
    ensures
        events_upto(s, role, n).len() <= n * m,
    decreases n,
{
    if n > 0 {
        lemma_events_len(s, role, n - 1, m);
        assert(entity_events(s[n - 1], role).len() <= m);
        assert(n * m == (n - 1) * m + m) by (nonlinear_arith);
    }
}

} // verus!
