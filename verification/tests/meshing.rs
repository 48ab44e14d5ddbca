//! Greedy meshing: coverage, disjointness, maximality and tag unions on
//! concrete grids.

use survivors_core::meshing::{merge_cells, CellMarker, EdgeTags};

fn no_tags() -> EdgeTags {
    EdgeTags { left: false, right: false, top: false, bottom: false }
}

fn cell(x: usize, y: usize) -> CellMarker {
    CellMarker { x, y, tags: no_tags() }
}

#[test]
fn single_row_merges_to_one_rect() {
    let cells = vec![cell(0, 0), cell(1, 0), cell(2, 0)];
    let rects = merge_cells(&cells, 3, 1).unwrap();
    assert_eq!(rects.len(), 1);
    assert_eq!(rects[0].left, 0);
    assert_eq!(rects[0].right, 2);
    assert_eq!(rects[0].bottom, 0);
    assert_eq!(rects[0].top, 0);
}

#[test]
fn square_block_merges_to_one_rect() {
    let cells = vec![cell(1, 1), cell(2, 1), cell(1, 2), cell(2, 2)];
    let rects = merge_cells(&cells, 4, 4).unwrap();
    assert_eq!(rects.len(), 1);
    assert_eq!(rects[0].left, 1);
    assert_eq!(rects[0].right, 2);
    assert_eq!(rects[0].bottom, 1);
    assert_eq!(rects[0].top, 2);
}

#[test]
fn gap_in_row_splits_rects() {
    let cells = vec![cell(0, 0), cell(2, 0)];
    let rects = merge_cells(&cells, 3, 1).unwrap();
    assert_eq!(rects.len(), 2);
    for r in &rects {
        assert_eq!(r.left, r.right);
    }
}

#[test]
fn width_change_starts_new_rect() {
    // a wide row above a single cell: plates differ, so two rectangles
    let cells = vec![cell(1, 0), cell(0, 1), cell(1, 1), cell(2, 1)];
    let rects = merge_cells(&cells, 3, 2).unwrap();
    assert_eq!(rects.len(), 2);
    let mut covered = 0;
    for r in &rects {
        covered += (r.right - r.left + 1) * (r.top - r.bottom + 1);
    }
    assert_eq!(covered, 4);
    // no two rectangles overlap
    for i in 0..rects.len() {
        for j in (i + 1)..rects.len() {
            let a = &rects[i];
            let b = &rects[j];
            let separate = a.right < b.left || b.right < a.left || a.top < b.bottom
                || b.top < a.bottom;
            assert!(separate);
        }
    }
}

#[test]
fn empty_input_gives_no_rects() {
    let cells: Vec<CellMarker> = Vec::new();
    let rects = merge_cells(&cells, 8, 8).unwrap();
    assert_eq!(rects.len(), 0);
}

#[test]
fn out_of_bounds_marker_is_fatal() {
    let cells = vec![cell(0, 0), cell(5, 0)];
    let err = merge_cells(&cells, 3, 1).unwrap_err();
    assert_eq!(err.x, 5);
    assert_eq!(err.y, 0);
}

#[test]
fn first_out_of_bounds_marker_is_reported() {
    let cells = vec![cell(0, 9), cell(7, 0)];
    let err = merge_cells(&cells, 4, 4).unwrap_err();
    assert_eq!(err.x, 0);
    assert_eq!(err.y, 9);
}

#[test]
fn tags_union_over_rect() {
    let mut a = cell(0, 0);
    a.tags.left = true;
    let mut b = cell(1, 0);
    b.tags.top = true;
    let cells = vec![a, b];
    let rects = merge_cells(&cells, 2, 1).unwrap();
    assert_eq!(rects.len(), 1);
    assert!(rects[0].tags.left);
    assert!(rects[0].tags.top);
    assert!(!rects[0].tags.right);
    assert!(!rects[0].tags.bottom);
}

#[test]
fn later_marker_overwrites_earlier_tags() {
    let mut a = cell(0, 0);
    a.tags.left = true;
    let mut b = cell(0, 0);
    b.tags.right = true;
    let cells = vec![a, b];
    let rects = merge_cells(&cells, 1, 1).unwrap();
    assert_eq!(rects.len(), 1);
    assert!(!rects[0].tags.left);
    assert!(rects[0].tags.right);
}

#[test]
fn horizontal_maximality_holds() {
    // an L of cells: every produced rect is bounded sideways by unmarked cells
    let cells = vec![cell(0, 0), cell(0, 1), cell(1, 0)];
    let rects = merge_cells(&cells, 8, 8).unwrap();
    let marked = |x: i64, y: i64| -> bool {
        (x == 0 && y == 0) || (x == 0 && y == 1) || (x == 1 && y == 0)
    };
    for r in &rects {
        for y in r.bottom..=r.top {
            assert!(!marked(r.left as i64 - 1, y as i64));
            assert!(!marked(r.right as i64 + 1, y as i64));
        }
    }
}

#[test]
fn vertical_stack_of_equal_plates_merges() {
    let cells = vec![cell(2, 0), cell(2, 1), cell(2, 2)];
    let rects = merge_cells(&cells, 4, 4).unwrap();
    assert_eq!(rects.len(), 1);
    assert_eq!(rects[0].bottom, 0);
    assert_eq!(rects[0].top, 2);
}
