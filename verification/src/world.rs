//! The simulation arena: entities, their roles, and the well-formedness
//! invariant every stage of the tick pipeline preserves.

use crate::collision::{collider_wf, Collider, CollisionDamage};
use crate::combat::KnockBack;
use crate::geometry::Vec2i;
use crate::health::{timer_wf, DamageCooldown, Health};
use crate::movement::{Facing, Velocity};
use vstd::prelude::*;

verus! {

/// Positions stay within this many sub-units of the origin.
pub const POS_LIMIT: i64 = 0x40000000;

/// Collider sizes and offsets stay within this many sub-units.
pub const SIZE_LIMIT: i64 = 0x100000;

/// Velocity components stay within this many sub-units per second.
pub const SPEED_LIMIT: i64 = 0x100000;

/// Time deltas handed to a tick stay within this many milliseconds.
pub const DELTA_LIMIT: u32 = 0x100000;

/// The gameplay roles an entity can carry; resolvers select entities by
/// role.
#[derive(Clone, Copy, Debug, PartialEq, Eq, Structural)]
pub struct Roles {
    pub player: bool,
    pub enemy: bool,
    pub phantom: bool,
    pub projectile: bool,
    pub wall: bool,
}

impl Roles {
    pub fn none() -> (r: Roles)
        ensures
            r == (Roles { player: false, enemy: false, phantom: false, projectile: false, wall: false }),
    {
        Roles { player: false, enemy: false, phantom: false, projectile: false, wall: false }
    }
}

/// One role, used to select entities.
#[derive(Clone, Copy, Debug, PartialEq, Eq, Structural)]
pub enum Role {
    Player,
    Enemy,
    Phantom,
    Projectile,
    Wall,
}

/// Whether a role set carries the given role.
pub open spec fn has_role(rs: Roles, r: Role) -> bool {
    match r {
        Role::Player => rs.player,
        Role::Enemy => rs.enemy,
        Role::Phantom => rs.phantom,
        Role::Projectile => rs.projectile,
        Role::Wall => rs.wall,
    }
}

/// Executable role test.
pub fn roles_has(rs: &Roles, r: Role) -> (b: bool)
    ensures
        b == has_role(*rs, r),
{
    match r {
        Role::Player => rs.player,
        Role::Enemy => rs.enemy,
        Role::Phantom => rs.phantom,
        Role::Projectile => rs.projectile,
        Role::Wall => rs.wall,
    }
}

/// One entity of the arena: an identity, a position, a role set, an
/// optional parent (despawning the parent despawns the child), and the
/// optional gameplay components.
#[derive(Debug)]
pub struct Entity {
    pub id: u64,
    pub pos: Vec2i,
    pub roles: Roles,
    pub parent: Option<u64>,
    pub collider: Option<Collider>,
    pub health: Option<Health>,
    pub damage: Option<CollisionDamage>,
    pub cooldown: Option<DamageCooldown>,
    pub knockback: Option<KnockBack>,
    pub velocity: Option<Velocity>,
    pub facing: Option<Facing>,
}

impl Entity {
    /// A bare entity with an identity and a position and nothing else.
    pub fn new(id: u64, pos: Vec2i) -> (e: Entity)
        ensures
            e.id == id,
            e.pos == pos,
            e.roles == (Roles {
                player: false,
                enemy: false,
                phantom: false,
                projectile: false,
                wall: false,
            }),
            e.parent is None && e.collider is None && e.health is None && e.damage is None
                && e.cooldown is None && e.knockback is None && e.velocity is None
                && e.facing is None,
    {
        Entity {
            id,
            pos,
            roles: Roles::none(),
            parent: None,
            collider: None,
            health: None,
            damage: None,
            cooldown: None,
            knockback: None,
            velocity: None,
            facing: None,
        }
    }
}

impl Entity {
    /// A copy with the same identity, components and overlap list.
    pub fn duplicate(&self) -> (e: Entity)
        ensures
            crate::collision::same_but_collisions(*self, e),
            e.collider matches Some(c) ==> self.collider matches Some(c0) && c.collisions@
                == c0.collisions@,
    {
        let collider = match &self.collider {
            Some(c) => Some(c.duplicate()),
            None => None,
        };
        Entity {
            id: self.id,
            pos: self.pos,
            roles: self.roles,
            parent: self.parent,
            collider,
            health: self.health,
            damage: self.damage,
            cooldown: self.cooldown,
            knockback: self.knockback,
            velocity: self.velocity,
            facing: self.facing,
        }
    }
}

/// Per-entity well-formedness: bounded position and components.
pub open spec fn entity_wf(e: Entity) -> bool {
    &&& -POS_LIMIT <= e.pos.x <= POS_LIMIT
    &&& -POS_LIMIT <= e.pos.y <= POS_LIMIT
    &&& (e.collider matches Some(c) ==> collider_wf(c))
    &&& (e.cooldown matches Some(cd) ==> timer_wf(cd.cooldown))
    &&& (e.knockback matches Some(kb) ==> timer_wf(kb.duration) && -SIZE_LIMIT <= kb.displacement.x
        <= SIZE_LIMIT && -SIZE_LIMIT <= kb.displacement.y <= SIZE_LIMIT)
    &&& (e.velocity matches Some(v) ==> -2 * SPEED_LIMIT <= v.value.x <= 2 * SPEED_LIMIT && -2
        * SPEED_LIMIT <= v.value.y <= 2 * SPEED_LIMIT)
}

/// The arena invariant: every entity well formed, ids unique and below
/// the allocation watermark, and every parent standing earlier in the
/// arena than its child.
pub open spec fn entities_wf(s: Seq<Entity>, next_id: u64) -> bool {
    &&& forall|i: int| 0 <= i < s.len() ==> entity_wf(#[trigger] s[i])
    &&& forall|i: int, j: int|
        0 <= i < j < s.len() ==> (#[trigger] s[i]).id != (#[trigger] s[j]).id
    &&& forall|i: int| 0 <= i < s.len() ==> (#[trigger] s[i]).id < next_id
    &&& forall|i: int|
        0 <= i < s.len() && (#[trigger] s[i]).parent is Some ==> exists|j: int|
            0 <= j < i && (#[trigger] s[j]).id == s[i].parent.unwrap()
}

/// The world invariant.
pub open spec fn world_wf(w: World) -> bool {
    entities_wf(w.entities@, w.next_id)
}

/// The simulation arena.
#[derive(Debug)]
pub struct World {
    pub entities: Vec<Entity>,
    pub next_id: u64,
}

impl World {
    pub fn new() -> (w: World)
        ensures
            w.entities@.len() == 0,
            w.next_id == 0,
            world_wf(w),
    {
        World { entities: Vec::new(), next_id: 0 }
    }

    /// Add an entity under a fresh identity and hand the identity back.
    pub fn spawn(&mut self, e: Entity) -> (id: u64)
        requires
            world_wf(*old(self)),
            old(self).next_id < u64::MAX,
            entity_wf(e),
            e.parent is None,
        ensures
            world_wf(*final(self)),
            id == old(self).next_id,
            final(self).next_id == old(self).next_id + 1,
            final(self).entities@.len() == old(self).entities@.len() + 1,
            forall|i: int|
                0 <= i < old(self).entities@.len() ==> #[trigger] final(self).entities@[i] == old(
                    self,
                ).entities@[i],
            final(self).entities@.last().id == id,
            final(self).entities@.last() == (Entity { id, ..e }),
    {
        let ghost olds = self.entities@;
        let id = self.next_id;
        let mut e2 = e;
        e2.id = id;
        self.entities.push(e2);
        self.next_id = id + 1;
        proof {
            assert forall|i: int|
                0 <= i < self.entities@.len() && (#[trigger] self.entities@[i]).parent is Some
                    implies exists|j: int|
                0 <= j < i && (#[trigger] self.entities@[j]).id
                    == self.entities@[i].parent.unwrap() by {
                assert(i < olds.len());
                assert(self.entities@[i] == olds[i]);
                let j = choose|j: int| 0 <= j < i && (#[trigger] olds[j]).id == olds[i].parent.unwrap();
                assert(self.entities@[j] == olds[j]);
            }
        }
        id
    }

    /// Add an entity owned by the entity `parent`, under a fresh
    /// identity; despawning the parent will despawn it too.
    pub fn spawn_child(&mut self, e: Entity, parent: u64) -> (id: u64)
        requires
            world_wf(*old(self)),
            old(self).next_id < u64::MAX,
            entity_wf(e),
            exists|j: int|
                0 <= j < old(self).entities@.len() && (#[trigger] old(self).entities@[j]).id
                    == parent,
        ensures
            world_wf(*final(self)),
            id == old(self).next_id,
            final(self).next_id == old(self).next_id + 1,
            final(self).entities@.len() == old(self).entities@.len() + 1,
            forall|i: int|
                0 <= i < old(self).entities@.len() ==> #[trigger] final(self).entities@[i] == old(
                    self,
                ).entities@[i],
            final(self).entities@.last() == (Entity { id, parent: Some(parent), ..e }),
    {
        let ghost olds = self.entities@;
        let id = self.next_id;
        let mut e2 = e;
        e2.id = id;
        e2.parent = Some(parent);
        self.entities.push(e2);
        self.next_id = id + 1;
        proof {
            assert forall|i: int|
                0 <= i < self.entities@.len() && (#[trigger] self.entities@[i]).parent is Some
                    implies exists|j: int|
                0 <= j < i && (#[trigger] self.entities@[j]).id
                    == self.entities@[i].parent.unwrap() by {
                if i < olds.len() {
                    assert(self.entities@[i] == olds[i]);
                    let j = choose|j: int|
                        0 <= j < i && (#[trigger] olds[j]).id == olds[i].parent.unwrap();
                    assert(self.entities@[j] == olds[j]);
                } else {
                    let j = choose|j: int| 0 <= j < olds.len() && (#[trigger] olds[j]).id == parent;
                    assert(self.entities@[j] == olds[j]);
                }
            }
        }
        id
    }

    /// Find the arena index of the entity with the given identity.
    pub fn find(&self, id: u64) -> (r: Option<usize>)
        ensures
            match r {
                Some(i) => i < self.entities@.len() && self.entities@[i as int].id == id,
                None => forall|i: int|
                    0 <= i < self.entities@.len() ==> (#[trigger] self.entities@[i]).id != id,
            },
    {
        let n = self.entities.len();
        let mut i: usize = 0;
        while i < n
            invariant
                n == self.entities@.len(),
                i <= n,
                forall|i2: int| 0 <= i2 < i ==> (#[trigger] self.entities@[i2]).id != id,
            decreases n - i,
        {
            if self.entities[i].id == id {
                return Some(i);
            }
            i += 1;
        }
        None
    }
}

/// Clamp a coordinate into the world bounds.
pub open spec fn clamp_pos(v: int) -> int {
    if v > POS_LIMIT {
        POS_LIMIT as int
    } else if v < -POS_LIMIT {
        -POS_LIMIT as int
    } else {
        v
    }
}

/// `a + b`, clamped into the world bounds.
pub fn clamp_add(a: i64, b: i64) -> (r: i64)
    requires
        -POS_LIMIT <= a <= POS_LIMIT,
        -(1i64 << 62) <= b <= (1i64 << 62),
    ensures
        r == clamp_pos(a + b),
        -POS_LIMIT <= r <= POS_LIMIT,
{
    proof {
        assert((1i64 << 62) == 0x4000000000000000i64) by (bit_vector);
    }
    let sum = a + b;
    if sum > POS_LIMIT {
        POS_LIMIT
    } else if sum < -POS_LIMIT {
        -POS_LIMIT
    } else {
        sum
    }
}

/// No two entities share an identity.
pub open spec fn unique_ids(s: Seq<Entity>) -> bool {
    forall|i: int, j: int|
        0 <= i < j < s.len() ==> (#[trigger] s[i]).id != (#[trigger] s[j]).id
}

/// Some entity carries the identity.
pub open spec fn has_id(s: Seq<Entity>, id: u64) -> bool {
    exists|i: int| 0 <= i < s.len() && (#[trigger] s[i]).id == id
}

/// The index of the entity carrying the identity; meaningful under
/// `unique_ids` when `has_id` holds.
pub open spec fn idx_of(s: Seq<Entity>, id: u64) -> int {
    choose|i: int| 0 <= i < s.len() && (#[trigger] s[i]).id == id
}

/// Under unique identities, `idx_of` names the one index that carries
/// the identity.
pub proof fn lemma_idx_of(s: Seq<Entity>, id: u64, i: int)
    requires
        unique_ids(s),
        0 <= i < s.len(),
        s[i].id == id,
    ensures
        has_id(s, id),
        idx_of(s, id) == i,
{
    assert(has_id(s, id));
    let j = idx_of(s, id);
    assert(0 <= j < s.len() && s[j].id == id);
    if j < i {
        assert(s[j].id != s[i].id);
    }
    if i < j {
        assert(s[i].id != s[j].id);
    }
}

/// The two entities agree on identity and ownership.
pub open spec fn same_skeleton(a: Entity, b: Entity) -> bool {
    a.id == b.id && a.parent == b.parent
}

/// A world stays well formed under any per-entity change that keeps
/// identities, ownership and per-entity well-formedness.
pub proof fn lemma_entities_wf_from(s1: Seq<Entity>, s2: Seq<Entity>, next_id: u64)
    requires
        entities_wf(s1, next_id),
        s2.len() == s1.len(),
        forall|i: int|
            0 <= i < s1.len() ==> same_skeleton(#[trigger] s1[i], #[trigger] s2[i]) && entity_wf(
                s2[i],
            ),
    ensures
        entities_wf(s2, next_id),
{
    assert forall|i: int| 0 <= i < s2.len() implies entity_wf(#[trigger] s2[i]) by {
        assert(same_skeleton(s1[i], s2[i]) && entity_wf(s2[i]));
    }
    assert forall|i: int, j: int|
        0 <= i < j < s2.len() implies (#[trigger] s2[i]).id != (#[trigger] s2[j]).id by {
        assert(same_skeleton(s1[i], s2[i]));
        assert(same_skeleton(s1[j], s2[j]));
    }
    assert forall|i: int| 0 <= i < s2.len() implies (#[trigger] s2[i]).id < next_id by {
        assert(same_skeleton(s1[i], s2[i]));
    }
    assert forall|i: int|
        0 <= i < s2.len() && (#[trigger] s2[i]).parent is Some implies exists|j: int|
            0 <= j < i && (#[trigger] s2[j]).id == s2[i].parent.unwrap() by {
        assert(same_skeleton(s1[i], s2[i]));
        let j = choose|j: int| 0 <= j < i && (#[trigger] s1[j]).id == s1[i].parent.unwrap();
        assert(same_skeleton(s1[j], s2[j]));
    }
}

} // verus!
