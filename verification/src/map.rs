//! The outer map: its grid dimensions and the four boundary walls.

use crate::geometry::Vec2i;
use vstd::prelude::*;

verus! {

/// The map's extent in cells and the pixel size of a cell.
#[derive(Clone, Copy, Debug, PartialEq, Eq, Structural)]
pub struct WorldMap {
    pub dimensions: Vec2i,
    pub tile_size: u32,
}

impl WorldMap {
    /// Half of the map's cell dimensions, rounded down.
    pub fn half_extent(&self) -> (r: Vec2i)
        requires
            0 <= self.dimensions.x,
            0 <= self.dimensions.y,
        ensures
            r.x == self.dimensions.x / 2,
            r.y == self.dimensions.y / 2,
    {
        Vec2i {
            x: ((self.dimensions.x as u64) / 2) as i64,
            y: ((self.dimensions.y as u64) / 2) as i64,
        }
    }
}

/// A grid position in world sub-units: sixteen pixels, so thirty-two
/// sub-units, to a cell.
pub open spec fn spec_grid_to_world(position: Vec2i) -> Vec2i {
    Vec2i { x: (position.x * 32) as i64, y: (position.y * 32) as i64 }
}

/// Convert a grid position to world sub-units.
pub fn grid_to_world(position: Vec2i) -> (r: Vec2i)
    requires
        -0x1000000 <= position.x <= 0x1000000,
        -0x1000000 <= position.y <= 0x1000000,
    ensures
        r == spec_grid_to_world(position),
        -0x20000000 <= r.x <= 0x20000000,
        -0x20000000 <= r.y <= 0x20000000,
{
    Vec2i { x: position.x * 32, y: position.y * 32 }
}

/// A boundary wall marker value for spawning.
#[derive(Clone, Copy, Debug, PartialEq, Eq, Structural)]
pub struct Wall;

/// The geometry of one outer boundary wall: where it stands and the
/// collider it carries.
#[derive(Clone, Copy, Debug, PartialEq, Eq, Structural)]
pub struct WallSpec {
    pub pos: Vec2i,
    pub size: Vec2i,
    pub offset: Vec2i,
}

/// The four boundary walls of the map, in order top, bottom, left,
/// right: thin colliders along each edge, each nudged inward on the
/// side that faces the playing field.
pub fn outer_walls(map: &WorldMap) -> (r: Vec<WallSpec>)
    requires
        0 <= map.dimensions.x <= 0x100000,
        0 <= map.dimensions.y <= 0x100000,
    ensures
        r@.len() == 4,
        r@[0] == (WallSpec {
            pos: spec_grid_to_world(Vec2i { x: 0, y: (map.dimensions.y / 2) as i64 }),
            size: Vec2i { x: spec_grid_to_world(map.dimensions).x, y: 32 },
            offset: Vec2i { x: 0, y: 8 },
        }),
        r@[1] == (WallSpec {
            pos: spec_grid_to_world(Vec2i { x: 0, y: (-(map.dimensions.y / 2)) as i64 }),
            size: Vec2i { x: spec_grid_to_world(map.dimensions).x, y: 24 },
            offset: Vec2i { x: 0, y: (-8) as i64 },
        }),
        r@[2] == (WallSpec {
            pos: spec_grid_to_world(Vec2i { x: (-(map.dimensions.x / 2)) as i64, y: 0 }),
            size: Vec2i { x: 12, y: spec_grid_to_world(map.dimensions).y },
            offset: Vec2i { x: (-4) as i64, y: 0 },
        }),
        r@[3] == (WallSpec {
            pos: spec_grid_to_world(Vec2i { x: (map.dimensions.x / 2) as i64, y: 0 }),
            size: Vec2i { x: 12, y: spec_grid_to_world(map.dimensions).y },
            offset: Vec2i { x: 4, y: 0 },
        }),
{
    let half = map.half_extent();
    let world_x = grid_to_world(*&map.dimensions).x;
    let world_y = grid_to_world(*&map.dimensions).y;
    let mut out: Vec<WallSpec> = Vec::new();
    out.push(
        WallSpec {
            pos: grid_to_world(Vec2i { x: 0, y: half.y }),
            size: Vec2i { x: world_x, y: 32 },
            offset: Vec2i { x: 0, y: 8 },
        },
    );
    out.push(
        WallSpec {
            pos: grid_to_world(Vec2i { x: 0, y: -half.y }),
            size: Vec2i { x: world_x, y: 24 },
            offset: Vec2i { x: 0, y: -8 },
        },
    );
    out.push(
        WallSpec {
            pos: grid_to_world(Vec2i { x: -half.x, y: 0 }),
            size: Vec2i { x: 12, y: world_y },
            offset: Vec2i { x: -4, y: 0 },
        },
    );
    out.push(
        WallSpec {
            pos: grid_to_world(Vec2i { x: half.x, y: 0 }),
            size: Vec2i { x: 12, y: world_y },
            offset: Vec2i { x: 4, y: 0 },
        },
    );
    out
}

} // verus!
