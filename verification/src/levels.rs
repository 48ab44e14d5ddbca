//! Level geometry and spawn bookkeeping: turning merged cell rectangles
//! into wall collider geometry, the per-level spawn spots, and the
//! active spawn list.

use crate::geometry::{max_i, Vec2i};
use crate::meshing::CellRect;
use crate::meshing::EdgeTags;
use crate::world::SIZE_LIMIT;
use vstd::prelude::*;

verus! {

/// A wall role marker value for spawning.
#[derive(Clone, Copy, Debug, PartialEq, Eq, Structural)]
pub struct Wall;

/// A single wall tile before meshing.
#[derive(Clone, Copy, Debug, PartialEq, Eq, Structural)]
pub struct WallTile;

/// A discrete grid coordinate.
#[derive(Clone, Copy, Debug, PartialEq, Eq, Structural)]
pub struct GridCoords {
    pub x: i64,
    pub y: i64,
}

/// Pixel-space geometry (in sub-units) of one merged wall rectangle:
/// world center, collider size and collider offset, with the rectangle's
/// edge tags.
#[derive(Clone, Copy, Debug, PartialEq, Eq, Structural)]
pub struct WallRect {
    pub center: Vec2i,
    pub size: Vec2i,
    pub offset: Vec2i,
    pub tags: EdgeTags,
}

/// The collider width of a wall rectangle, in sub-units: the spanned
/// cells at `grid_size` pixels each, shrunk by ten pixels for each
/// tagged vertical edge, never below zero.
pub open spec fn spec_wall_width(rc: CellRect, grid_size: u32) -> int {
    let base = 2 * (rc.right - rc.left + 1) * grid_size;
    let w1 = if rc.tags.left {
        base - 20
    } else {
        base
    };
    let w2 = if rc.tags.right {
        w1 - 20
    } else {
        w1
    };
    max_i(w2, 0)
}

/// The collider height, shrunk by four pixels for each tagged horizontal
/// edge.
pub open spec fn spec_wall_height(rc: CellRect, grid_size: u32) -> int {
    let base = 2 * (rc.top - rc.bottom + 1) * grid_size;
    let h1 = if rc.tags.top {
        base - 8
    } else {
        base
    };
    let h2 = if rc.tags.bottom {
        h1 - 8
    } else {
        h1
    };
    max_i(h2, 0)
}

/// The collider offset: a tagged vertical edge shifts the center away
/// from that edge, exposing a slimmer hit-box on the side that should
/// not block movement; a tagged horizontal edge shifts it toward the
/// edge.
pub open spec fn spec_wall_offset(rc: CellRect) -> Vec2i {
    let ox = (if rc.tags.left {
        4int
    } else {
        0int
    }) + (if rc.tags.right {
        -4int
    } else {
        0int
    });
    let oy = (if rc.tags.top {
        8int
    } else {
        0int
    }) + (if rc.tags.bottom {
        -8int
    } else {
        0int
    });
    Vec2i { x: ox as i64, y: oy as i64 }
}

/// The world center of the rectangle: the midpoint of its spanned cells.
pub open spec fn spec_wall_center(rc: CellRect, grid_size: u32) -> Vec2i {
    Vec2i {
        x: ((rc.left + rc.right + 1) * grid_size) as i64,
        y: ((rc.bottom + rc.top + 1) * grid_size) as i64,
    }
}

/// Derive a wall's runtime geometry from one merged cell rectangle: a
/// centered collider sized by the spanned cells, shrunk on each tagged
/// edge and shifted away from a tagged vertical edge, so a solid wall
/// exposes a slimmer hit-box on the side that should not block
/// movement.
pub fn wall_rect(rc: &CellRect, grid_size: u32) -> (r: WallRect)
    requires
        rc.left <= rc.right < 4096,
        rc.bottom <= rc.top < 4096,
        1 <= grid_size <= 4096,
        2 * (rc.right - rc.left + 1) * grid_size <= SIZE_LIMIT,
        2 * (rc.top - rc.bottom + 1) * grid_size <= SIZE_LIMIT,
    ensures
        r.center == spec_wall_center(*rc, grid_size),
        r.size.x == spec_wall_width(*rc, grid_size),
        r.size.y == spec_wall_height(*rc, grid_size),
        r.offset == spec_wall_offset(*rc),
        r.tags == rc.tags,
        0 <= r.size.x <= SIZE_LIMIT,
        0 <= r.size.y <= SIZE_LIMIT,
        -SIZE_LIMIT <= r.offset.x <= SIZE_LIMIT,
        -SIZE_LIMIT <= r.offset.y <= SIZE_LIMIT,
        0 <= r.center.x <= 0x8000000,
        0 <= r.center.y <= 0x8000000,
{
    let cw = (rc.right - rc.left + 1) as i64;
    let ch = (rc.top - rc.bottom + 1) as i64;
    let gs = grid_size as i64;
    let base_w = 2 * cw * gs;
    let base_h = 2 * ch * gs;
    let mut width = base_w;
    let mut height = base_h;
    let mut ox: i64 = 0;
    let mut oy: i64 = 0;
    if rc.tags.left {
        width = width - 20;
        ox = ox + 4;
    }
    if rc.tags.right {
        width = width - 20;
        ox = ox - 4;
    }
    if rc.tags.top {
        height = height - 8;
        oy = oy + 8;
    }
    if rc.tags.bottom {
        height = height - 8;
        oy = oy - 8;
    }
    if width < 0 {
        width = 0;
    }
    if height < 0 {
        height = 0;
    }
    proof {
        assert(((rc.left + rc.right + 1) as int) * (gs as int) <= 0x8000000) by (nonlinear_arith)
            requires
                rc.left <= rc.right < 4096,
                1 <= gs <= 4096,
        ;
        assert(((rc.bottom + rc.top + 1) as int) * (gs as int) <= 0x8000000) by (nonlinear_arith)
            requires
                rc.bottom <= rc.top < 4096,
                1 <= gs <= 4096,
        ;
        assert(((rc.left + rc.right + 1) as int) * (gs as int) >= 0) by (nonlinear_arith)
            requires
                rc.left <= rc.right,
                gs >= 1,
        ;
        assert(((rc.bottom + rc.top + 1) as int) * (gs as int) >= 0) by (nonlinear_arith)
            requires
                rc.bottom <= rc.top,
                gs >= 1,
        ;
    }
    let cx = ((rc.left + rc.right + 1) as i64) * gs;
    let cy = ((rc.bottom + rc.top + 1) as i64) * gs;
    proof {
        assert(cx == (rc.left + rc.right + 1) * grid_size && 0 <= cx <= 0x8000000)
            by (nonlinear_arith)
            requires
                cx == ((rc.left + rc.right + 1) as int) * (grid_size as int),
                rc.left <= rc.right < 4096,
                1 <= grid_size <= 4096,
        ;
        assert(cy == (rc.bottom + rc.top + 1) * grid_size && 0 <= cy <= 0x8000000)
            by (nonlinear_arith)
            requires
                cy == ((rc.bottom + rc.top + 1) as int) * (grid_size as int),
                rc.bottom <= rc.top < 4096,
                1 <= grid_size <= 4096,
        ;
        assert(base_w >= 2 * grid_size >= 2) by (nonlinear_arith)
            requires
                base_w == 2 * ((rc.right - rc.left + 1) as int) * (grid_size as int),
                rc.left <= rc.right,
                grid_size >= 1,
        ;
        assert(base_h >= 2 * grid_size >= 2) by (nonlinear_arith)
            requires
                base_h == 2 * ((rc.top - rc.bottom + 1) as int) * (grid_size as int),
                rc.bottom <= rc.top,
                grid_size >= 1,
        ;
    }
    WallRect {
        center: Vec2i { x: cx, y: cy },
        size: Vec2i { x: width, y: height },
        offset: Vec2i { x: ox, y: oy },
        tags: rc.tags,
    }
}

/// The spawn spots of each level, keyed by the level's identifier.
#[derive(Debug)]
pub struct SpawnLocations(pub Vec<(String, Vec<GridCoords>)>);

impl SpawnLocations {
    /// The spawn spots recorded for the level, if any: the first entry
    /// whose key matches.
    pub fn for_level(&self, iid: &String) -> (r: Option<&Vec<GridCoords>>)
        ensures
            match r {
                Some(v) => exists|i: int|
                    0 <= i < self.0@.len() && (#[trigger] self.0@[i]).0@ == iid@ && v == self.0@[i].1,
                None => forall|i: int| 0 <= i < self.0@.len() ==> (#[trigger] self.0@[i]).0@ != iid@,
            },
    {
        let n = self.0.len();
        let mut i: usize = 0;
        while i < n
            invariant
                n == self.0@.len(),
                i <= n,
                forall|i2: int| 0 <= i2 < i ==> (#[trigger] self.0@[i2]).0@ != iid@,
            decreases n - i,
        {
            if self.0[i].0.eq(iid) {
                return Some(&self.0[i].1);
            }
            i += 1;
        }
        None
    }
}

/// The remaining spawn budget: enemy kinds with how many of each are
/// still to be spawned.
#[derive(Debug)]
pub struct ActiveSpawnList(pub Vec<(String, i64)>);

impl ActiveSpawnList {
    /// Take one spawn from the budget: the first kind with a positive
    /// count loses one and its name is returned; when every count is
    /// exhausted, nothing changes and nothing is returned.
    pub fn pop_spawn(&mut self) -> (r: Option<String>)
        ensures
            match r {
                Some(name) => exists|i: int|
                    {
                        &&& 0 <= i < old(self).0@.len()
                        &&& (#[trigger] old(self).0@[i]).1 > 0
                        &&& forall|j: int| 0 <= j < i ==> (#[trigger] old(self).0@[j]).1 <= 0
                        &&& name@ == old(self).0@[i].0@
                        &&& final(self).0@ == old(self).0@.update(
                            i,
                            (old(self).0@[i].0, (old(self).0@[i].1 - 1) as i64),
                        )
                    },
                None => {
                    &&& forall|i: int| 0 <= i < old(self).0@.len() ==> (#[trigger] old(self).0@[i]).1 <= 0
                    &&& final(self).0@ == old(self).0@
                },
            },
    {
        let n = self.0.len();
        let mut i: usize = 0;
        while i < n
            invariant
                n == self.0@.len(),
                i <= n,
                self.0@ == old(self).0@,
                forall|j: int| 0 <= j < i ==> (#[trigger] self.0@[j]).1 <= 0,
            decreases n - i,
        {
            if self.0[i].1 > 0 {
                let name = self.0[i].0.clone();
                let count = self.0[i].1;
                let entry = &mut self.0[i];
                entry.1 = count - 1;
                proof {
                    assert(self.0@ =~= old(self).0@.update(
                        i as int,
                        (old(self).0@[i as int].0, (old(self).0@[i as int].1 - 1) as i64),
                    ));
                }
                return Some(name);
            }
            i += 1;
        }
        None
    }
}

/// Group decoded spawn-spot coordinates by level: entry `i` of the
/// result carries the key `levels[i]` and exactly the coordinates the
/// input attributes to level `i`, each once, in first-seen order.
pub fn group_spawn_spots(levels: &Vec<String>, ground: &Vec<(usize, GridCoords)>) -> (r:
    SpawnLocations)
    ensures
        r.0@.len() == levels@.len(),
        forall|i: int| 0 <= i < levels@.len() ==> ((#[trigger] r.0@[i]).0)@ == levels@[i]@,
        forall|i: int, c: GridCoords|
            0 <= i < levels@.len() ==> (#[trigger] r.0@[i].1@.contains(c) <==> exists|k: int|
                0 <= k < ground@.len() && (#[trigger] ground@[k]).0 == i && ground@[k].1 == c),
        forall|i: int| 0 <= i < levels@.len() ==> (#[trigger] r.0@[i]).1@.no_duplicates(),
{
    let nl = levels.len();
    let ng = ground.len();
    let mut out: Vec<(String, Vec<GridCoords>)> = Vec::new();
    let mut i: usize = 0;
    while i < nl
        invariant
            nl == levels@.len(),
            ng == ground@.len(),
            i <= nl,
            out@.len() == i,
            forall|i2: int| 0 <= i2 < i ==> ((#[trigger] out@[i2]).0)@ == levels@[i2]@,
            forall|i2: int, c: GridCoords|
                0 <= i2 < i ==> (#[trigger] out@[i2].1@.contains(c) <==> exists|k: int|
                    0 <= k < ground@.len() && (#[trigger] ground@[k]).0 == i2 && ground@[k].1
                        == c),
            forall|i2: int| 0 <= i2 < i ==> (#[trigger] out@[i2]).1@.no_duplicates(),
        decreases nl - i,
    {
        let mut v: Vec<GridCoords> = Vec::new();
        let mut k: usize = 0;
        while k < ng
            invariant
                ng == ground@.len(),
                i < nl,
                k <= ng,
                forall|c: GridCoords|
                    #[trigger] v@.contains(c) <==> exists|k2: int|
                        0 <= k2 < k && (#[trigger] ground@[k2]).0 == i && ground@[k2].1 == c,
                v@.no_duplicates(),
            decreases ng - k,
        {
            let entry = ground[k];
            let ghost oldv = v@;
            if entry.0 == i && !crate::enemies::spots_contain(&v, &entry.1) {
                v.push(entry.1);
                proof {
                    assert(v@.no_duplicates()) by {
                        assert forall|a: int, b: int|
                            0 <= a < b < v@.len() implies v@[a] != v@[b] by {
                            if b == v@.len() - 1 {
                                assert(oldv.contains(oldv[a]));
                            }
                        }
                    }
                }
            }
            proof {
                assert forall|c: GridCoords|
                    #[trigger] v@.contains(c) <==> exists|k2: int|
                        0 <= k2 < k + 1 && (#[trigger] ground@[k2]).0 == i && ground@[k2].1
                            == c by {
                    if v@.contains(c) {
                        let a = choose|a: int| 0 <= a < v@.len() && v@[a] == c;
                        if a < oldv.len() {
                            assert(oldv.contains(c));
                        } else {
                            assert(c == ground@[k as int].1 && ground@[k as int].0 == i);
                        }
                    }
                    if exists|k2: int|
                        0 <= k2 < k + 1 && (#[trigger] ground@[k2]).0 == i && ground@[k2].1 == c {
                        let k2 = choose|k2: int|
                            0 <= k2 < k + 1 && (#[trigger] ground@[k2]).0 == i && ground@[k2].1
                                == c;
                        if k2 < k {
                            assert(oldv.contains(c));
                            let a = choose|a: int| 0 <= a < oldv.len() && oldv[a] == c;
                            assert(v@[a] == c);
                        } else {
                            assert(v@.contains(c)) by {
                                if !oldv.contains(c) {
                                    assert(v@.last() == c);
                                }
                            }
                        }
                    }
                }
            }
            k += 1;
        }
        out.push((levels[i].clone(), v));
        i += 1;
    }
    SpawnLocations(out)
}

} // verus!
