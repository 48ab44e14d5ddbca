//! Rectangles, colliders, wall geometry and the outer map.

use survivors_core::collision::Collider;
use survivors_core::geometry::{Rect2, Vec2i};
use survivors_core::levels::wall_rect;
use survivors_core::map::{grid_to_world, outer_walls, WorldMap};
use survivors_core::meshing::{CellRect, EdgeTags};

fn rect(min_x: i64, min_y: i64, max_x: i64, max_y: i64) -> Rect2 {
    Rect2 { min: Vec2i { x: min_x, y: min_y }, max: Vec2i { x: max_x, y: max_y } }
}

#[test]
fn touching_rects_do_not_overlap() {
    // [0,10]x[0,10] and [10,20]x[0,10] share only an edge
    let a = rect(0, 0, 10, 10);
    let b = rect(10, 0, 20, 10);
    assert!(!a.overlaps(&b));
    assert!(!b.overlaps(&a));
    assert!(a.intersect(&b).is_empty());
}

#[test]
fn corner_touching_rects_do_not_overlap() {
    let a = rect(0, 0, 10, 10);
    let b = rect(10, 10, 20, 20);
    assert!(!a.overlaps(&b));
}

#[test]
fn proper_overlap_is_detected_symmetrically() {
    let a = rect(0, 0, 10, 10);
    let b = rect(5, 5, 15, 15);
    assert!(a.overlaps(&b));
    assert!(b.overlaps(&a));
    let ov = a.intersect(&b);
    assert_eq!(ov.min.x, 5);
    assert_eq!(ov.min.y, 5);
    assert_eq!(ov.max.x, 10);
    assert_eq!(ov.max.y, 10);
}

#[test]
fn collider_rect_is_centered_on_position_plus_offset() {
    let c = Collider::with_size_and_offset(Vec2i { x: 20, y: 10 }, Vec2i { x: 2, y: -2 });
    let r = c.to_rect_at(Vec2i { x: 100, y: 50 });
    assert_eq!(r.min.x, 92);
    assert_eq!(r.max.x, 112);
    assert_eq!(r.min.y, 43);
    assert_eq!(r.max.y, 53);
}

#[test]
fn wall_rect_untagged_is_full_size() {
    let rc = CellRect {
        left: 0,
        right: 2,
        bottom: 0,
        top: 0,
        tags: EdgeTags { left: false, right: false, top: false, bottom: false },
    };
    let w = wall_rect(&rc, 16);
    // three cells of 16 px are 96 sub-units wide, one cell 32 tall
    assert_eq!(w.size.x, 96);
    assert_eq!(w.size.y, 32);
    assert_eq!(w.offset.x, 0);
    assert_eq!(w.offset.y, 0);
    // centered over cells 0..=2: 1.5 cells = 24 px = 48 sub-units
    assert_eq!(w.center.x, 48);
    assert_eq!(w.center.y, 16);
}

#[test]
fn wall_rect_left_tag_shrinks_and_shifts() {
    let rc = CellRect {
        left: 0,
        right: 0,
        bottom: 0,
        top: 0,
        tags: EdgeTags { left: true, right: false, top: false, bottom: false },
    };
    let w = wall_rect(&rc, 16);
    // 16 px wide minus 10 px shrink = 6 px = 12 sub-units, shifted away
    // from the tagged left edge
    assert_eq!(w.size.x, 12);
    assert_eq!(w.offset.x, 4);
    assert_eq!(w.size.y, 32);
}

#[test]
fn wall_rect_top_and_bottom_tags() {
    let rc = CellRect {
        left: 0,
        right: 0,
        bottom: 0,
        top: 1,
        tags: EdgeTags { left: false, right: false, top: true, bottom: true },
    };
    let w = wall_rect(&rc, 16);
    // two cells of 16 px are 64 sub-units, minus 4 px per tag = 48
    assert_eq!(w.size.y, 48);
    assert_eq!(w.offset.y, 0);
}

#[test]
fn grid_to_world_scales_by_cell_size() {
    let p = grid_to_world(Vec2i { x: 3, y: -2 });
    assert_eq!(p.x, 96);
    assert_eq!(p.y, -64);
}

#[test]
fn outer_walls_of_the_standard_map() {
    let map = WorldMap { dimensions: Vec2i { x: 100, y: 75 }, tile_size: 16 };
    let walls = outer_walls(&map);
    assert_eq!(walls.len(), 4);
    // top wall spans the whole width and stands at half height
    assert_eq!(walls[0].size.x, 3200);
    assert_eq!(walls[0].size.y, 32);
    assert_eq!(walls[0].pos.y, 37 * 32);
    assert_eq!(walls[0].offset.y, 8);
    // bottom wall is slightly thinner and offset downward
    assert_eq!(walls[1].size.y, 24);
    assert_eq!(walls[1].pos.y, -(37 * 32));
    assert_eq!(walls[1].offset.y, -8);
    // side walls are thin and full height
    assert_eq!(walls[2].size.x, 12);
    assert_eq!(walls[2].size.y, 2400);
    assert_eq!(walls[2].pos.x, -(50 * 32));
    assert_eq!(walls[3].pos.x, 50 * 32);
    assert_eq!(walls[3].offset.x, 4);
}

#[test]
fn half_extent_rounds_down() {
    let map = WorldMap { dimensions: Vec2i { x: 101, y: 75 }, tile_size: 16 };
    let h = map.half_extent();
    assert_eq!(h.x, 50);
    assert_eq!(h.y, 37);
}
