//! Geometry extraction: greedy meshing of tagged grid cells.
//!
//! A level is described by a sparse set of marked cells, each carrying edge
//! tags. Extraction merges the marked cells into axis-aligned rectangles in
//! two passes: a row pass that turns each row's contiguous runs of marked
//! cells into one-row "plates", and a column pass that stacks plates of
//! identical horizontal extent into rectangles. The produced rectangles
//! cover exactly the marked cells, never overlap, and each row of a
//! rectangle is a maximal horizontal run.

use vstd::prelude::*;

verus! {

/// Which edges of a cell (or of a merged rectangle) are special: a tagged
/// edge later shrinks the collider on that side.
#[derive(Clone, Copy, Debug, PartialEq, Eq, Structural)]
pub struct EdgeTags {
    pub left: bool,
    pub right: bool,
    pub top: bool,
    pub bottom: bool,
}

impl EdgeTags {
    pub fn none() -> (t: EdgeTags)
        ensures
            t == (EdgeTags { left: false, right: false, top: false, bottom: false }),
    {
        EdgeTags { left: false, right: false, top: false, bottom: false }
    }

    /// Fieldwise union of two tag sets.
    pub fn union(self, other: EdgeTags) -> (t: EdgeTags)
        ensures
            t.left == (self.left || other.left),
            t.right == (self.right || other.right),
            t.top == (self.top || other.top),
            t.bottom == (self.bottom || other.bottom),
    {
        EdgeTags {
            left: self.left || other.left,
            right: self.right || other.right,
            top: self.top || other.top,
            bottom: self.bottom || other.bottom,
        }
    }
}

/// One marked cell of the input: a grid coordinate plus its edge tags.
#[derive(Clone, Copy, Debug)]
pub struct CellMarker {
    pub x: usize,
    pub y: usize,
    pub tags: EdgeTags,
}

/// A one-row-tall run of contiguous marked cells, produced by the row pass.
#[derive(Clone, Copy, Debug, PartialEq, Eq, Structural)]
pub struct Plate {
    pub left: usize,
    pub right: usize,
}

/// A merged rectangle of cells, `left..=right` by `bottom..=top`, with the
/// union of the edge tags of every covered cell.
#[derive(Clone, Copy, Debug)]
pub struct CellRect {
    pub left: usize,
    pub right: usize,
    pub bottom: usize,
    pub top: usize,
    pub tags: EdgeTags,
}

/// A marker outside the stated grid bounds: a fatal configuration error.
#[derive(Clone, Copy, Debug, PartialEq, Eq, Structural)]
pub struct OutOfBoundsCell {
    pub x: usize,
    pub y: usize,
}

/// The tags the input assigns to cell `(x, y)`: those of the last marker
/// with that coordinate, or `None` when the cell is unmarked.
pub open spec fn cell_tags(cells: Seq<CellMarker>, x: int, y: int) -> Option<EdgeTags>
    decreases cells.len(),
{
    if cells.len() == 0 {
        None
    } else if cells.last().x == x && cells.last().y == y {
        Some(cells.last().tags)
    } else {
        cell_tags(cells.drop_last(), x, y)
    }
}

/// Whether the input marks cell `(x, y)`.
pub open spec fn spec_marked(cells: Seq<CellMarker>, x: int, y: int) -> bool {
    cell_tags(cells, x, y) is Some
}

/// The dense grid: row `y` holds the tags of the marked cells of that row.
pub open spec fn grid_view(g: &Vec<Vec<Option<EdgeTags>>>) -> Seq<Seq<Option<EdgeTags>>> {
    g@.map_values(|row: Vec<Option<EdgeTags>>| row@)
}

/// Whether the dense grid marks cell `(x, y)`; out-of-range cells are
/// unmarked.
pub open spec fn grid_marked(gv: Seq<Seq<Option<EdgeTags>>>, x: int, y: int) -> bool {
    &&& 0 <= y < gv.len()
    &&& 0 <= x < gv[y].len()
    &&& gv[y][x] is Some
}

/// `[l, r]` is a maximal run of marked cells in row `y`: every cell of the
/// interval is marked and both neighbours just outside it are not.
pub open spec fn is_run(gv: Seq<Seq<Option<EdgeTags>>>, y: int, l: int, r: int) -> bool {
    &&& l <= r
    &&& forall|x: int| l <= x <= r ==> grid_marked(gv, x, y)
    &&& !grid_marked(gv, l - 1, y)
    &&& !grid_marked(gv, r + 1, y)
}

/// A well-formed dense grid: `height` rows of `width` cells each.
pub open spec fn grid_wf(gv: Seq<Seq<Option<EdgeTags>>>, width: int, height: int) -> bool {
    &&& gv.len() == height
    &&& forall|y: int| 0 <= y < height ==> #[trigger] gv[y].len() == width
}

/// Build the dense grid from the sparse markers, rejecting the first
/// marker outside the grid bounds.
pub fn build_grid(cells: &Vec<CellMarker>, width: usize, height: usize) -> (r: Result<
    Vec<Vec<Option<EdgeTags>>>,
    OutOfBoundsCell,
>)
    requires
        width <= 4096,
        height <= 4096,
    ensures
        match r {
            Ok(g) => {
                &&& grid_wf(grid_view(&g), width as int, height as int)
                &&& forall|x: int, y: int|
                    0 <= x < width && 0 <= y < height ==> #[trigger] grid_view(&g)[y][x]
                        == cell_tags(cells@, x, y)
                &&& forall|i: int|
                    0 <= i < cells@.len() ==> (#[trigger] cells@[i]).x < width && cells@[i].y
                        < height
                &&& forall|x: int, y: int|
                    #[trigger] grid_marked(grid_view(&g), x, y) == (0 <= x < width && 0 <= y
                        < height && spec_marked(cells@, x, y))
            },
            Err(e) => exists|i: int|
                {
                    &&& 0 <= i < cells@.len()
                    &&& ((#[trigger] cells@[i]).x >= width || cells@[i].y >= height)
                    &&& forall|j: int|
                        0 <= j < i ==> (#[trigger] cells@[j]).x < width && cells@[j].y < height
                    &&& e.x == cells@[i].x && e.y == cells@[i].y
                },
        },
{
    let mut i: usize = 0;
    while i < cells.len()
        invariant
            i <= cells@.len(),
            forall|j: int| 0 <= j < i ==> (#[trigger] cells@[j]).x < width && cells@[j].y < height,
        decreases cells@.len() - i,
    {
        let m = cells[i];
        if m.x >= width || m.y >= height {
            return Err(OutOfBoundsCell { x: m.x, y: m.y });
        }
        i += 1;
    }
    let mut g: Vec<Vec<Option<EdgeTags>>> = Vec::new();
    let mut y: usize = 0;
    while y < height
        invariant
            y <= height,
            g@.len() == y,
            forall|y2: int| 0 <= y2 < y ==> (#[trigger] g@[y2])@.len() == width,
            forall|x: int, y2: int|
                0 <= x < width && 0 <= y2 < y ==> #[trigger] (g@[y2])@[x] is None,
        decreases height - y,
    {
        let mut row: Vec<Option<EdgeTags>> = Vec::new();
        let mut x: usize = 0;
        while x < width
            invariant
                x <= width,
                row@.len() == x,
                forall|x2: int| 0 <= x2 < x ==> #[trigger] row@[x2] is None,
            decreases width - x,
        {
            row.push(None);
            x += 1;
        }
        g.push(row);
        y += 1;
    }
    let mut i: usize = 0;
    while i < cells.len()
        invariant
            i <= cells@.len(),
            forall|j: int| 0 <= j < cells@.len() ==> (#[trigger] cells@[j]).x < width && cells@[j].y
                < height,
            g@.len() == height,
            forall|y2: int| 0 <= y2 < height ==> (#[trigger] g@[y2])@.len() == width,
            forall|x: int, y2: int|
                0 <= x < width && 0 <= y2 < height ==> #[trigger] (g@[y2])@[x] == cell_tags(
                    cells@.take(i as int),
                    x,
                    y2,
                ),
        decreases cells@.len() - i,
    {
        let m = cells[i];
        let ghost old_gs = g@;
        let row = &mut g[m.y];
        row.set(m.x, Some(m.tags));
        proof {
            assert(g@ =~= old_gs.update(m.y as int, g@[m.y as int]));
            assert((g@[m.y as int])@ =~= (old_gs[m.y as int])@.update(
                m.x as int,
                Some(m.tags),
            ));
            assert(cells@.take(i + 1).drop_last() =~= cells@.take(i as int));
            assert(cells@.take(i + 1).last() == cells@[i as int]);
            assert forall|x: int, y2: int| 0 <= x < width && 0 <= y2 < height implies #[trigger] (
            g@[y2])@[x] == cell_tags(cells@.take(i + 1), x, y2) by {
                assert((old_gs[y2])@[x] == cell_tags(cells@.take(i as int), x, y2));
                if y2 != m.y {
                    assert(g@[y2] == old_gs[y2]);
                }
            }
        }
        i += 1;
    }
    proof {
        assert(cells@.take(cells@.len() as int) =~= cells@);
        assert forall|y2: int| 0 <= y2 < height implies #[trigger] grid_view(&g)[y2] == (
        g@[y2])@ by {}
        assert(grid_view(&g).len() == height);
        assert forall|x: int, y2: int|
            #[trigger] grid_marked(grid_view(&g), x, y2) == (0 <= x < width && 0 <= y2 < height
                && spec_marked(cells@, x, y2)) by {
            if 0 <= y2 < height {
                assert(grid_view(&g)[y2] == (g@[y2])@);
            }
        }
    }
    Ok(g)
}

/// Row pass: decompose row `y` of the grid into its maximal runs of
/// marked cells, left to right.
pub fn row_plates(g: &Vec<Vec<Option<EdgeTags>>>, y: usize) -> (plates: Vec<Plate>)
    requires
        y < g@.len(),
        (g@[y as int])@.len() <= 4096,
    ensures
        forall|k: int|
            0 <= k < plates@.len() ==> is_run(
                grid_view(g),
                y as int,
                (#[trigger] plates@[k]).left as int,
                plates@[k].right as int,
            ),
        forall|x: int|
            grid_marked(grid_view(g), x, y as int) ==> exists|k: int|
                0 <= k < plates@.len() && ((#[trigger] plates@[k]).left <= x <= plates@[k].right),
        forall|k1: int, k2: int|
            0 <= k1 < k2 < plates@.len() ==> (#[trigger] plates@[k1]).right < (
            #[trigger] plates@[k2]).left,
{
    let ghost gv = grid_view(g);
    let width = g[y].len();
    proof {
        assert(gv[y as int] == (g@[y as int])@);
    }
    let mut plates: Vec<Plate> = Vec::new();
    let mut run_start: Option<usize> = None;
    let mut x: usize = 0;
    while x <= width
        invariant
            y < g@.len(),
            gv == grid_view(g),
            gv[y as int] == (g@[y as int])@,
            width == gv[y as int].len(),
            width <= 4096,
            x <= width + 1,
            forall|k: int|
                0 <= k < plates@.len() ==> is_run(
                    gv,
                    y as int,
                    (#[trigger] plates@[k]).left as int,
                    plates@[k].right as int,
                ),
            forall|k: int| 0 <= k < plates@.len() ==> (#[trigger] plates@[k]).right + 1 < x,
            forall|k1: int, k2: int|
                0 <= k1 < k2 < plates@.len() ==> (#[trigger] plates@[k1]).right < (
                #[trigger] plates@[k2]).left,
            match run_start {
                Some(s) => {
                    &&& s < x
                    &&& x <= width
                    &&& forall|x2: int| s <= x2 < x ==> grid_marked(gv, x2, y as int)
                    &&& !grid_marked(gv, s as int - 1, y as int)
                    &&& forall|k: int|
                        0 <= k < plates@.len() ==> (#[trigger] plates@[k]).right + 1 < s
                },
                None => x == 0 || !grid_marked(gv, x as int - 1, y as int),
            },
            forall|x2: int|
                0 <= x2 < x && grid_marked(gv, x2, y as int) ==> (exists|k: int|
                    0 <= k < plates@.len() && ((#[trigger] plates@[k]).left <= x2
                        <= plates@[k].right)) || (run_start matches Some(s) && s <= x2),
        decreases width + 1 - x,
    {
        let m = x < width && g[y][x].is_some();
        proof {
            assert(m == grid_marked(gv, x as int, y as int));
        }
        let ghost old_plates = plates@;
        let ghost old_run = run_start;
        match run_start {
            Some(s) => {
                if !m {
                    plates.push(Plate { left: s, right: x - 1 });
                    run_start = None;
                }
            },
            None => {
                if m {
                    run_start = Some(x);
                }
            },
        }
        x += 1;
        proof {
            let x0 = x - 1;
            assert forall|x2: int|
                0 <= x2 < x && grid_marked(gv, x2, y as int) implies (exists|k: int|
                0 <= k < plates@.len() && ((#[trigger] plates@[k]).left <= x2
                    <= plates@[k].right)) || (run_start matches Some(s) && s <= x2) by {
                if x2 < x0 {
                    if exists|k: int|
                        0 <= k < old_plates.len() && ((#[trigger] old_plates[k]).left <= x2
                            <= old_plates[k].right) {
                        let k = choose|k: int|
                            0 <= k < old_plates.len() && ((#[trigger] old_plates[k]).left <= x2
                                <= old_plates[k].right);
                        assert(plates@[k] == old_plates[k]);
                    } else {
                        assert(old_run matches Some(s) && s <= x2);
                        if m {
                            assert(run_start == old_run);
                        } else {
                            let kk = plates@.len() - 1;
                            assert(plates@[kk].left <= x2 <= plates@[kk].right);
                        }
                    }
                } else {
                    assert(m);
                    match old_run {
                        Some(s) => {
                            assert(run_start == old_run);
                            assert(s <= x2);
                        },
                        None => {
                            assert(run_start matches Some(s2) && s2 <= x2);
                        },
                    }
                }
            }
        }
    }
    plates
}


/// An in-progress or finished rectangle of the column pass: a plate shape
/// `left..=right` stacked over rows `bottom..=top`.
#[derive(Clone, Copy, Debug, PartialEq, Eq, Structural)]
pub struct BuildRect {
    pub left: usize,
    pub right: usize,
    pub bottom: usize,
    pub top: usize,
}

/// The per-row plate lists, as a sequence of sequences.
pub open spec fn plates_view(pr: &Vec<Vec<Plate>>) -> Seq<Seq<Plate>> {
    pr@.map_values(|row: Vec<Plate>| row@)
}

/// Row `y` contains a plate of exactly the shape `[l, r]`.
pub open spec fn row_has_plate(pv: Seq<Seq<Plate>>, y: int, l: int, r: int) -> bool {
    &&& 0 <= y < pv.len()
    &&& exists|k: int|
        0 <= k < pv[y].len() && (#[trigger] pv[y][k]).left == l && pv[y][k].right == r
}

/// Two rectangles have the same plate shape.
pub open spec fn same_shape(a: BuildRect, b: BuildRect) -> bool {
    a.left == b.left && a.right == b.right
}

/// Every row of the rectangle carries the rectangle's plate shape.
#[verifier::opaque]
pub open spec fn rect_shape_rows(pv: Seq<Seq<Plate>>, rc: BuildRect) -> bool {
    forall|y: int|
        rc.bottom <= y <= rc.top ==> row_has_plate(pv, y, rc.left as int, rc.right as int)
}

/// The row below the rectangle does not carry its shape: the rectangle
/// was started as low as its shape allows.
#[verifier::opaque]
pub open spec fn rect_closed_below(pv: Seq<Seq<Plate>>, rc: BuildRect) -> bool {
    rc.bottom == 0 || !row_has_plate(pv, rc.bottom - 1, rc.left as int, rc.right as int)
}

/// The row above the rectangle does not carry its shape: the rectangle
/// was extended as high as its shape allows.
#[verifier::opaque]
pub open spec fn rect_closed_above(pv: Seq<Seq<Plate>>, rc: BuildRect) -> bool {
    !row_has_plate(pv, rc.top + 1, rc.left as int, rc.right as int)
}

/// A rectangle still open while the pass stands at row `top`.
pub open spec fn open_rect_wf(pv: Seq<Seq<Plate>>, rc: BuildRect, top: int) -> bool {
    &&& rc.top == top
    &&& rc.bottom <= rc.top < pv.len()
    &&& rect_shape_rows(pv, rc)
    &&& rect_closed_below(pv, rc)
}

/// A finished rectangle of the column pass.
pub open spec fn done_rect_wf(pv: Seq<Seq<Plate>>, rc: BuildRect) -> bool {
    &&& rc.bottom <= rc.top < pv.len()
    &&& rect_shape_rows(pv, rc)
    &&& rect_closed_below(pv, rc)
    &&& rect_closed_above(pv, rc)
}

/// The rectangles' row ranges do not meet.
pub open spec fn rows_disjoint(a: BuildRect, b: BuildRect) -> bool {
    a.top < b.bottom || b.top < a.bottom
}

/// One of the rectangles has the shape `[l, r]`.
#[verifier::opaque]
pub open spec fn shape_in(rs: Seq<BuildRect>, l: int, r: int) -> bool {
    exists|j: int| 0 <= j < rs.len() && (#[trigger] rs[j]).left == l && rs[j].right == r
}

/// One of the rectangles has the shape `[l, r]` and spans row `y`.
#[verifier::opaque]
pub open spec fn covering_in(rs: Seq<BuildRect>, l: int, r: int, y: int) -> bool {
    exists|j: int|
        0 <= j < rs.len() && (#[trigger] rs[j]).left == l && rs[j].right == r && rs[j].bottom
            <= y <= rs[j].top
}

/// One of the rectangles has the same shape as `a` and spans at least the
/// rows of `a`.
#[verifier::opaque]
pub open spec fn has_counterpart(a: BuildRect, rs: Seq<BuildRect>) -> bool {
    exists|j: int|
        0 <= j < rs.len() && same_shape(a, #[trigger] rs[j]) && rs[j].bottom <= a.bottom && a.top
            <= rs[j].top
}

/// Plate `k` of row `y` lies inside one of the rectangles.
pub open spec fn covered_plate(pv: Seq<Seq<Plate>>, rs: Seq<BuildRect>, y: int, k: int) -> bool {
    covering_in(rs, pv[y][k].left as int, pv[y][k].right as int, y)
}

/// `rs2` begins with `rs1`.
pub open spec fn seq_extends(rs1: Seq<BuildRect>, rs2: Seq<BuildRect>) -> bool {
    rs1.len() <= rs2.len() && forall|j: int| 0 <= j < rs1.len() ==> rs2[j] == #[trigger] rs1[j]
}

proof fn lemma_shape_in_extends(rs1: Seq<BuildRect>, rs2: Seq<BuildRect>, l: int, r: int)
    requires
        seq_extends(rs1, rs2),
        shape_in(rs1, l, r),
    ensures
        shape_in(rs2, l, r),
{
    reveal(shape_in);
    let j = choose|j: int| 0 <= j < rs1.len() && (#[trigger] rs1[j]).left == l && rs1[j].right == r;
    assert(rs2[j] == rs1[j]);
}

proof fn lemma_covering_in_extends(rs1: Seq<BuildRect>, rs2: Seq<BuildRect>, l: int, r: int, y: int)
    requires
        seq_extends(rs1, rs2),
        covering_in(rs1, l, r, y),
    ensures
        covering_in(rs2, l, r, y),
{
    reveal(covering_in);
    let j = choose|j: int|
        0 <= j < rs1.len() && (#[trigger] rs1[j]).left == l && rs1[j].right == r && rs1[j].bottom
            <= y <= rs1[j].top;
    assert(rs2[j] == rs1[j]);
}

proof fn lemma_counterpart_extends(a: BuildRect, rs1: Seq<BuildRect>, rs2: Seq<BuildRect>)
    requires
        seq_extends(rs1, rs2),
        has_counterpart(a, rs1),
    ensures
        has_counterpart(a, rs2),
{
    reveal(has_counterpart);
    let j = choose|j: int|
        0 <= j < rs1.len() && same_shape(a, #[trigger] rs1[j]) && rs1[j].bottom <= a.bottom
            && a.top <= rs1[j].top;
    assert(rs2[j] == rs1[j]);
}

/// Whether a row of plates contains the shape `[l, r]`.
fn row_contains(row: &Vec<Plate>, l: usize, r: usize) -> (b: bool)
    ensures
        b == exists|k: int|
            0 <= k < row@.len() && (#[trigger] row@[k]).left == l && row@[k].right == r,
{
    let mut k: usize = 0;
    while k < row.len()
        invariant
            k <= row@.len(),
            forall|k2: int| 0 <= k2 < k ==> !((#[trigger] row@[k2]).left == l && row@[k2].right == r),
        decreases row@.len() - k,
    {
        if row[k].left == l && row[k].right == r {
            return true;
        }
        k += 1;
    }
    false
}

/// Whether one of the rectangles has the shape `[l, r]`.
fn contains_shape(v: &Vec<BuildRect>, l: usize, r: usize) -> (b: bool)
    ensures
        b == shape_in(v@, l as int, r as int),
{
    proof {
        reveal(shape_in);
    }
    let mut i: usize = 0;
    while i < v.len()
        invariant
            i <= v@.len(),
            forall|i2: int| 0 <= i2 < i ==> !((#[trigger] v@[i2]).left == l && v@[i2].right == r),
        decreases v@.len() - i,
    {
        if v[i].left == l && v[i].right == r {
            proof {
                reveal(shape_in);
            }
            return true;
        }
        i += 1;
    }
    proof {
        reveal(shape_in);
    }
    false
}

/// Close pass for one row: every open rectangle whose shape reappears in
/// row `y` is kept with its top raised to `y`; the others are finished
/// and moved to `done`.
#[verifier::rlimit(100)]
fn close_pass(
    pr: &Vec<Vec<Plate>>,
    y: usize,
    active: &Vec<BuildRect>,
    done: &mut Vec<BuildRect>,
) -> (kept: Vec<BuildRect>)
    requires
        y <= plates_view(pr).len(),
        forall|i: int|
            0 <= i < active@.len() ==> open_rect_wf(
                plates_view(pr),
                #[trigger] active@[i],
                y as int - 1,
            ),
        forall|i: int, j: int|
            0 <= i < j < active@.len() ==> !same_shape(
                #[trigger] active@[i],
                #[trigger] active@[j],
            ),
        forall|i: int|
            0 <= i < old(done)@.len() ==> done_rect_wf(plates_view(pr), #[trigger] old(done)@[i])
                && (#[trigger] old(done)@[i]).top + 1 < y,
        forall|i: int, j: int|
            0 <= i < j < old(done)@.len() && same_shape(
                #[trigger] old(done)@[i],
                #[trigger] old(done)@[j],
            ) ==> rows_disjoint(old(done)@[i], old(done)@[j]),
        forall|i: int, j: int|
            0 <= i < old(done)@.len() && 0 <= j < active@.len() && same_shape(
                #[trigger] old(done)@[i],
                #[trigger] active@[j],
            ) ==> old(done)@[i].top < active@[j].bottom,
    ensures
        seq_extends(old(done)@, final(done)@),
        forall|i: int|
            0 <= i < final(done)@.len() ==> done_rect_wf(plates_view(pr), #[trigger] final(done)@[i])
                && (#[trigger] final(done)@[i]).top < y,
        forall|i: int, j: int|
            0 <= i < j < final(done)@.len() && same_shape(
                #[trigger] final(done)@[i],
                #[trigger] final(done)@[j],
            ) ==> rows_disjoint(final(done)@[i], final(done)@[j]),
        forall|i: int, j: int|
            0 <= i < final(done)@.len() && 0 <= j < kept@.len() && same_shape(
                #[trigger] final(done)@[i],
                #[trigger] kept@[j],
            ) ==> final(done)@[i].top < kept@[j].bottom,
        forall|j: int|
            0 <= j < kept@.len() ==> open_rect_wf(plates_view(pr), #[trigger] kept@[j], y as int)
                && row_has_plate(
                plates_view(pr),
                y as int,
                (#[trigger] kept@[j]).left as int,
                kept@[j].right as int,
            ),
        forall|i: int, j: int|
            0 <= i < j < kept@.len() ==> !same_shape(#[trigger] kept@[i], #[trigger] kept@[j]),
        forall|i: int|
            0 <= i < active@.len() ==> has_counterpart(#[trigger] active@[i], final(done)@)
                || has_counterpart(active@[i], kept@),
        forall|i: int|
            0 <= i < active@.len() && row_has_plate(
                plates_view(pr),
                y as int,
                (#[trigger] active@[i]).left as int,
                active@[i].right as int,
            ) ==> shape_in(kept@, active@[i].left as int, active@[i].right as int),
{
    let ghost pv = plates_view(pr);
    let ghost old_done = done@;
    let mut kept: Vec<BuildRect> = Vec::new();
    let mut i: usize = 0;
    while i < active.len()
        invariant
            pv == plates_view(pr),
            y <= pv.len(),
            i <= active@.len(),
            forall|i2: int|
                0 <= i2 < active@.len() ==> open_rect_wf(pv, #[trigger] active@[i2], y as int - 1),
            forall|i2: int, j2: int|
                0 <= i2 < j2 < active@.len() ==> !same_shape(
                    #[trigger] active@[i2],
                    #[trigger] active@[j2],
                ),
            seq_extends(old_done, done@),
            forall|i2: int|
                0 <= i2 < done@.len() ==> done_rect_wf(pv, #[trigger] done@[i2]) && (
                #[trigger] done@[i2]).top < y,
            forall|i2: int, j2: int|
                0 <= i2 < j2 < done@.len() && same_shape(
                    #[trigger] done@[i2],
                    #[trigger] done@[j2],
                ) ==> rows_disjoint(done@[i2], done@[j2]),
            forall|i2: int, j2: int|
                0 <= i2 < done@.len() && i <= j2 < active@.len() && same_shape(
                    #[trigger] done@[i2],
                    #[trigger] active@[j2],
                ) ==> done@[i2].top < active@[j2].bottom,
            forall|i2: int, j2: int|
                0 <= i2 < done@.len() && 0 <= j2 < kept@.len() && same_shape(
                    #[trigger] done@[i2],
                    #[trigger] kept@[j2],
                ) ==> done@[i2].top < kept@[j2].bottom,
            forall|j2: int|
                0 <= j2 < kept@.len() ==> open_rect_wf(pv, #[trigger] kept@[j2], y as int)
                    && row_has_plate(
                    pv,
                    y as int,
                    (#[trigger] kept@[j2]).left as int,
                    kept@[j2].right as int,
                ),
            forall|j2: int|
                0 <= j2 < kept@.len() ==> exists|i0: int|
                    0 <= i0 < i && same_shape(#[trigger] kept@[j2], active@[i0]),
            forall|i2: int, j2: int|
                0 <= i2 < j2 < kept@.len() ==> !same_shape(
                    #[trigger] kept@[i2],
                    #[trigger] kept@[j2],
                ),
            forall|i2: int|
                0 <= i2 < i ==> has_counterpart(#[trigger] active@[i2], done@)
                    || has_counterpart(active@[i2], kept@),
            forall|i2: int|
                0 <= i2 < i && row_has_plate(
                    pv,
                    y as int,
                    (#[trigger] active@[i2]).left as int,
                    active@[i2].right as int,
                ) ==> shape_in(kept@, active@[i2].left as int, active@[i2].right as int),
        decreases active@.len() - i,
    {
        let a = active[i];
        let ghost prev_done = done@;
        let ghost prev_kept = kept@;
        let present = y < pr.len() && row_contains(&pr[y], a.left, a.right);
        proof {
            if y < pr.len() {
                assert(pv[y as int] == (pr@[y as int])@);
            }
            assert(present == row_has_plate(pv, y as int, a.left as int, a.right as int));
        }
        if present {
            let nk = BuildRect { left: a.left, right: a.right, bottom: a.bottom, top: y };
            kept.push(nk);
            proof {
                let nj = kept@.len() - 1;
                assert(kept@[nj] == nk);
                assert(open_rect_wf(pv, nk, y as int)) by {
                    reveal(rect_shape_rows);
                    reveal(rect_closed_below);
                    assert(rect_shape_rows(pv, a));
                    assert forall|y2: int|
                        nk.bottom <= y2 <= nk.top implies row_has_plate(
                        pv,
                        y2,
                        nk.left as int,
                        nk.right as int,
                    ) by {
                        if y2 < y {
                            assert(a.bottom <= y2 <= a.top);
                        }
                    }
                }
                assert forall|i2: int, j2: int|
                    0 <= i2 < j2 < kept@.len() implies !same_shape(
                    #[trigger] kept@[i2],
                    #[trigger] kept@[j2],
                ) by {
                    if j2 == nj {
                        let i0 = choose|i0: int|
                            0 <= i0 < i && same_shape(kept@[i2], active@[i0]);
                        assert(!same_shape(active@[i0], active@[i as int]));
                    }
                }
                assert(has_counterpart(a, kept@)) by {
                    reveal(has_counterpart);
                    assert(same_shape(a, kept@[nj]));
                }
                assert(shape_in(kept@, a.left as int, a.right as int)) by {
                    reveal(shape_in);
                }
                assert forall|i2: int|
                    0 <= i2 < i + 1 implies has_counterpart(#[trigger] active@[i2], done@)
                    || has_counterpart(active@[i2], kept@) by {
                    if i2 < i {
                        if has_counterpart(active@[i2], prev_kept) {
                            lemma_counterpart_extends(active@[i2], prev_kept, kept@);
                        }
                    }
                }
                assert forall|i2: int|
                    0 <= i2 < i + 1 && row_has_plate(
                        pv,
                        y as int,
                        (#[trigger] active@[i2]).left as int,
                        active@[i2].right as int,
                    ) implies shape_in(kept@, active@[i2].left as int, active@[i2].right as int) by {
                    if i2 < i {
                        lemma_shape_in_extends(
                            prev_kept,
                            kept@,
                            active@[i2].left as int,
                            active@[i2].right as int,
                        );
                    }
                }
                assert forall|i2: int, j2: int|
                    0 <= i2 < done@.len() && 0 <= j2 < kept@.len() && same_shape(
                        #[trigger] done@[i2],
                        #[trigger] kept@[j2],
                    ) implies done@[i2].top < kept@[j2].bottom by {
                    if j2 == nj {
                        assert(done@[i2].top < active@[i as int].bottom);
                    }
                }
            }
        } else {
            done.push(a);
            proof {
                let nd = done@.len() - 1;
                assert(done@[nd] == a);
                assert(done_rect_wf(pv, a)) by {
                    reveal(rect_closed_above);
                }
                assert forall|i2: int, j2: int|
                    0 <= i2 < j2 < done@.len() && same_shape(
                        #[trigger] done@[i2],
                        #[trigger] done@[j2],
                    ) implies rows_disjoint(done@[i2], done@[j2]) by {
                    if j2 == nd && i2 < nd {
                        assert(done@[i2] == prev_done[i2]);
                        assert(prev_done[i2].top < a.bottom);
                    }
                }
                assert forall|i2: int, j2: int|
                    0 <= i2 < done@.len() && i + 1 <= j2 < active@.len() && same_shape(
                        #[trigger] done@[i2],
                        #[trigger] active@[j2],
                    ) implies done@[i2].top < active@[j2].bottom by {
                    if i2 == nd {
                        assert(!same_shape(active@[i as int], active@[j2]));
                    }
                }
                assert forall|i2: int, j2: int|
                    0 <= i2 < done@.len() && 0 <= j2 < kept@.len() && same_shape(
                        #[trigger] done@[i2],
                        #[trigger] kept@[j2],
                    ) implies done@[i2].top < kept@[j2].bottom by {
                    if i2 == nd {
                        let i0 = choose|i0: int|
                            0 <= i0 < i && same_shape(kept@[j2], active@[i0]);
                        assert(!same_shape(active@[i0], active@[i as int]));
                        assert(false);
                    }
                }
                assert(has_counterpart(a, done@)) by {
                    reveal(has_counterpart);
                    assert(same_shape(a, done@[nd]));
                }
                assert forall|i2: int|
                    0 <= i2 < i + 1 implies has_counterpart(#[trigger] active@[i2], done@)
                    || has_counterpart(active@[i2], kept@) by {
                    if i2 < i {
                        if has_counterpart(active@[i2], prev_done) {
                            lemma_counterpart_extends(active@[i2], prev_done, done@);
                        }
                    }
                }
            }
        }
        i += 1;
    }
    kept
}

/// Open pass for one row: every plate of row `y` whose shape has no kept
/// rectangle starts a new one-row rectangle. `prev` holds the rectangles
/// that were open while the previous row was processed.
#[verifier::rlimit(100)]
fn open_pass(
    pr: &Vec<Vec<Plate>>,
    y: usize,
    Ghost(prev): Ghost<Seq<BuildRect>>,
    kept: &mut Vec<BuildRect>,
) -> (r: ())
    requires
        y < plates_view(pr).len(),
        forall|j: int|
            0 <= j < old(kept)@.len() ==> open_rect_wf(
                plates_view(pr),
                #[trigger] old(kept)@[j],
                y as int,
            ),
        forall|i: int, j: int|
            0 <= i < j < old(kept)@.len() ==> !same_shape(
                #[trigger] old(kept)@[i],
                #[trigger] old(kept)@[j],
            ),
        forall|i: int|
            0 <= i < prev.len() && row_has_plate(
                plates_view(pr),
                y as int,
                (#[trigger] prev[i]).left as int,
                prev[i].right as int,
            ) ==> shape_in(old(kept)@, prev[i].left as int, prev[i].right as int),
        y >= 1 ==> forall|k: int|
            0 <= k < plates_view(pr)[y - 1].len() ==> shape_in(
                prev,
                (#[trigger] plates_view(pr)[y - 1][k]).left as int,
                plates_view(pr)[y - 1][k].right as int,
            ),
    ensures
        seq_extends(old(kept)@, final(kept)@),
        forall|j: int|
            0 <= j < final(kept)@.len() ==> open_rect_wf(
                plates_view(pr),
                #[trigger] final(kept)@[j],
                y as int,
            ),
        forall|i: int, j: int|
            0 <= i < j < final(kept)@.len() ==> !same_shape(
                #[trigger] final(kept)@[i],
                #[trigger] final(kept)@[j],
            ),
        forall|j: int|
            old(kept)@.len() <= j < final(kept)@.len() ==> (#[trigger] final(kept)@[j]).bottom == y,
        forall|k: int|
            0 <= k < plates_view(pr)[y as int].len() ==> covering_in(
                final(kept)@,
                (#[trigger] plates_view(pr)[y as int][k]).left as int,
                plates_view(pr)[y as int][k].right as int,
                y as int,
            ),
{
    let ghost pv = plates_view(pr);
    let ghost base = kept@;
    let row = &pr[y];
    proof {
        assert(pv[y as int] == (pr@[y as int])@);
    }
    let mut k: usize = 0;
    while k < row.len()
        invariant
            pv == plates_view(pr),
            y < pv.len(),
            row@ == pv[y as int],
            k <= row@.len(),
            seq_extends(base, kept@),
            forall|j2: int|
                0 <= j2 < kept@.len() ==> open_rect_wf(pv, #[trigger] kept@[j2], y as int),
            forall|i2: int, j2: int|
                0 <= i2 < j2 < kept@.len() ==> !same_shape(
                    #[trigger] kept@[i2],
                    #[trigger] kept@[j2],
                ),
            forall|j2: int|
                base.len() <= j2 < kept@.len() ==> (#[trigger] kept@[j2]).bottom == y,
            forall|i2: int|
                0 <= i2 < prev.len() && row_has_plate(
                    pv,
                    y as int,
                    (#[trigger] prev[i2]).left as int,
                    prev[i2].right as int,
                ) ==> shape_in(base, prev[i2].left as int, prev[i2].right as int),
            y >= 1 ==> forall|k2: int|
                0 <= k2 < pv[y - 1].len() ==> shape_in(
                    prev,
                    (#[trigger] pv[y - 1][k2]).left as int,
                    pv[y - 1][k2].right as int,
                ),
            forall|k2: int|
                0 <= k2 < k ==> covering_in(
                    kept@,
                    (#[trigger] pv[y as int][k2]).left as int,
                    pv[y as int][k2].right as int,
                    y as int,
                ),
        decreases row@.len() - k,
    {
        let p = row[k];
        let ghost prev_kept = kept@;
        let had = contains_shape(kept, p.left, p.right);
        if !had {
            proof {
                assert(row_has_plate(pv, y as int, p.left as int, p.right as int));
                // were the shape present in the row below, its rectangle
                // would still be open and therefore kept
                if y >= 1 && row_has_plate(pv, y as int - 1, p.left as int, p.right as int) {
                    let k0 = choose|k0: int|
                        0 <= k0 < pv[y - 1].len() && (#[trigger] pv[y - 1][k0]).left
                            == p.left as int && pv[y - 1][k0].right == p.right as int;
                    assert(shape_in(prev, p.left as int, p.right as int));
                    reveal(shape_in);
                    let i0 = choose|i0: int|
                        0 <= i0 < prev.len() && (#[trigger] prev[i0]).left == p.left as int
                            && prev[i0].right == p.right as int;
                    assert(row_has_plate(pv, y as int, prev[i0].left as int, prev[i0].right as int));
                    assert(shape_in(base, p.left as int, p.right as int));
                    lemma_shape_in_extends(base, kept@, p.left as int, p.right as int);
                    assert(false);
                }
            }
            let nk = BuildRect { left: p.left, right: p.right, bottom: y, top: y };
            kept.push(nk);
            proof {
                let nj = kept@.len() - 1;
                assert(kept@[nj] == nk);
                assert(open_rect_wf(pv, nk, y as int)) by {
                    reveal(rect_shape_rows);
                    reveal(rect_closed_below);
                }
                assert forall|i2: int, j2: int|
                    0 <= i2 < j2 < kept@.len() implies !same_shape(
                    #[trigger] kept@[i2],
                    #[trigger] kept@[j2],
                ) by {
                    if j2 == nj {
                        assert(!shape_in(prev_kept, nk.left as int, nk.right as int));
                        reveal(shape_in);
                    }
                }
                assert forall|k2: int| 0 <= k2 < k + 1 implies covering_in(
                    kept@,
                    (#[trigger] pv[y as int][k2]).left as int,
                    pv[y as int][k2].right as int,
                    y as int,
                ) by {
                    if k2 < k {
                        lemma_covering_in_extends(
                            prev_kept,
                            kept@,
                            pv[y as int][k2].left as int,
                            pv[y as int][k2].right as int,
                            y as int,
                        );
                    } else {
                        reveal(covering_in);
                        assert(kept@[nj].left == pv[y as int][k2].left && kept@[nj].right
                            == pv[y as int][k2].right && kept@[nj].bottom <= y <= kept@[nj].top);
                    }
                }
            }
        } else {
            proof {
                reveal(shape_in);
                let j0 = choose|j0: int|
                    0 <= j0 < kept@.len() && (#[trigger] kept@[j0]).left == p.left && kept@[j0].right
                        == p.right;
                assert forall|k2: int| 0 <= k2 < k + 1 implies covering_in(
                    kept@,
                    (#[trigger] pv[y as int][k2]).left as int,
                    pv[y as int][k2].right as int,
                    y as int,
                ) by {
                    if k2 == k {
                        reveal(covering_in);
                        assert(kept@[j0].bottom <= y <= kept@[j0].top);
                        assert(kept@[j0].left == pv[y as int][k2].left && kept@[j0].right
                            == pv[y as int][k2].right);
                    }
                }
            }
        }
        k += 1;
    }
}

/// Every plate of every row below `upto` lies inside one of the
/// rectangles of the two lists.
pub open spec fn plates_covered_upto(
    pv: Seq<Seq<Plate>>,
    done: Seq<BuildRect>,
    active: Seq<BuildRect>,
    upto: int,
) -> bool {
    forall|y: int, k: int|
        0 <= y < upto && y < pv.len() && 0 <= k < pv[y].len() ==> covering_in(
            done,
            (#[trigger] pv[y][k]).left as int,
            pv[y][k].right as int,
            y,
        ) || covering_in(
            active,
            pv[y][k].left as int,
            pv[y][k].right as int,
            y,
        )
}

/// Column pass: stack the plates of successive rows into rectangles. A
/// rectangle grows upward while its exact shape reappears; any change of
/// shape closes it. Every produced rectangle spans, on every one of its
/// rows, an occurrence of its plate shape, it is as tall as its shape
/// allows, rectangles of equal shape cover disjoint row ranges, and every
/// plate of every row lies inside a produced rectangle.
#[verifier::rlimit(100)]
pub fn assemble_rects(pr: &Vec<Vec<Plate>>) -> (rects: Vec<BuildRect>)
    requires
        pr@.len() <= 4096,
    ensures
        forall|i: int| 0 <= i < rects@.len() ==> done_rect_wf(plates_view(pr), #[trigger] rects@[i]),
        forall|i: int, j: int|
            0 <= i < j < rects@.len() && same_shape(#[trigger] rects@[i], #[trigger] rects@[j])
                ==> rows_disjoint(rects@[i], rects@[j]),
        forall|y: int, k: int|
            0 <= y < plates_view(pr).len() && 0 <= k < plates_view(pr)[y].len() ==> covering_in(
                rects@,
                (#[trigger] plates_view(pr)[y][k]).left as int,
                plates_view(pr)[y][k].right as int,
                y,
            ),
{
    let ghost pv = plates_view(pr);
    let height = pr.len();
    let mut active: Vec<BuildRect> = Vec::new();
    let mut done: Vec<BuildRect> = Vec::new();
    let mut y: usize = 0;
    while y <= height
        invariant
            pv == plates_view(pr),
            height == pv.len(),
            height <= 4096,
            y <= height + 1,
            forall|i: int|
                0 <= i < active@.len() ==> open_rect_wf(pv, #[trigger] active@[i], y as int - 1),
            forall|i: int, j: int|
                0 <= i < j < active@.len() ==> !same_shape(
                    #[trigger] active@[i],
                    #[trigger] active@[j],
                ),
            1 <= y && y - 1 < pv.len() ==> forall|k: int|
                0 <= k < pv[y - 1].len() ==> shape_in(
                    active@,
                    (#[trigger] pv[y - 1][k]).left as int,
                    pv[y - 1][k].right as int,
                ),
            forall|i: int|
                0 <= i < done@.len() ==> done_rect_wf(pv, #[trigger] done@[i]) && (
                #[trigger] done@[i]).top + 1 < y,
            forall|i: int, j: int|
                0 <= i < j < done@.len() && same_shape(#[trigger] done@[i], #[trigger] done@[j])
                    ==> rows_disjoint(done@[i], done@[j]),
            forall|i: int, j: int|
                0 <= i < done@.len() && 0 <= j < active@.len() && same_shape(
                    #[trigger] done@[i],
                    #[trigger] active@[j],
                ) ==> done@[i].top < active@[j].bottom,
            plates_covered_upto(pv, done@, active@, y as int),
        decreases height + 1 - y,
    {
        let ghost old_active = active@;
        let ghost old_done = done@;
        let mut kept = close_pass(pr, y, &active, &mut done);
        let ghost mid_done = done@;
        let ghost mid_kept = kept@;
        if y < height {
            open_pass(pr, y, Ghost(old_active), &mut kept);
        }
        proof {
            // coverage of rows below y carries over: a covering open
            // rectangle has a counterpart among the new rectangles
            assert forall|y2: int, k: int|
                0 <= y2 < y + 1 && y2 < pv.len() && 0 <= k < pv[y2].len() implies covering_in(
                done@,
                (#[trigger] pv[y2][k]).left as int,
                pv[y2][k].right as int,
                y2,
            ) || covering_in(kept@, pv[y2][k].left as int, pv[y2][k].right as int, y2) by {
                let l = pv[y2][k].left as int;
                let r = pv[y2][k].right as int;
                if y2 < y {
                    if covering_in(old_done, l, r, y2) {
                        lemma_covering_in_extends(old_done, done@, l, r, y2);
                    } else {
                        assert(covering_in(old_active, l, r, y2));
                        reveal(covering_in);
                        let j = choose|j: int|
                            0 <= j < old_active.len() && (#[trigger] old_active[j]).left == l
                                && old_active[j].right == r && old_active[j].bottom <= y2
                                <= old_active[j].top;
                        reveal(has_counterpart);
                        if has_counterpart(old_active[j], mid_done) {
                            let j2 = choose|j2: int|
                                0 <= j2 < mid_done.len() && same_shape(
                                    old_active[j],
                                    #[trigger] mid_done[j2],
                                ) && mid_done[j2].bottom <= old_active[j].bottom
                                    && old_active[j].top <= mid_done[j2].top;
                            assert(covering_in(mid_done, l, r, y2));
                            assert(mid_done == done@);
                        } else {
                            assert(has_counterpart(old_active[j], mid_kept));
                            let j2 = choose|j2: int|
                                0 <= j2 < mid_kept.len() && same_shape(
                                    old_active[j],
                                    #[trigger] mid_kept[j2],
                                ) && mid_kept[j2].bottom <= old_active[j].bottom
                                    && old_active[j].top <= mid_kept[j2].top;
                            assert(covering_in(mid_kept, l, r, y2));
                            if y < height {
                                lemma_covering_in_extends(mid_kept, kept@, l, r, y2);
                            }
                        }
                    }
                } else {
                    // y2 == y: only possible when y < height; covered by
                    // the open pass
                    assert(y < pv.len());
                    assert(covering_in(kept@, l, r, y2));
                }
            }
            // finished rectangles stay below any open rectangle of the
            // same shape
            assert forall|i: int, j: int|
                0 <= i < done@.len() && 0 <= j < kept@.len() && same_shape(
                    #[trigger] done@[i],
                    #[trigger] kept@[j],
                ) implies done@[i].top < kept@[j].bottom by {
                if j < mid_kept.len() {
                    assert(kept@[j] == mid_kept[j]);
                } else {
                    assert(kept@[j].bottom == y);
                    assert(done@[i].top < y);
                }
            }
            // every plate of row y has an open rectangle for the next round
            if y < height {
                assert forall|k: int| 0 <= k < pv[y as int].len() implies shape_in(
                    kept@,
                    (#[trigger] pv[y as int][k]).left as int,
                    pv[y as int][k].right as int,
                ) by {
                    let l = pv[y as int][k].left as int;
                    let r = pv[y as int][k].right as int;
                    assert(covering_in(kept@, l, r, y as int));
                    reveal(covering_in);
                    reveal(shape_in);
                }
            }
        }
        active = kept;
        y += 1;
    }
    proof {
        // nothing stays open past the final pass
        if active@.len() > 0 {
            assert(open_rect_wf(pv, active@[0], y as int - 1));
            assert(active@[0].top < pv.len());
            assert(false);
        }
        assert forall|y2: int, k: int|
            0 <= y2 < pv.len() && 0 <= k < pv[y2].len() implies covering_in(
            done@,
            (#[trigger] pv[y2][k]).left as int,
            pv[y2][k].right as int,
            y2,
        ) by {
            reveal(covering_in);
            assert(!covering_in(active@, pv[y2][k].left as int, pv[y2][k].right as int, y2));
        }
    }
    done
}

/// Whether the input marks cell `(x, y)` of a `w` by `h` grid.
pub open spec fn marked_in(cells: Seq<CellMarker>, w: int, h: int, x: int, y: int) -> bool {
    0 <= x < w && 0 <= y < h && spec_marked(cells, x, y)
}

/// The cells a merged rectangle covers.
pub open spec fn rect_covers(rc: CellRect, x: int, y: int) -> bool {
    rc.left <= x <= rc.right && rc.bottom <= y <= rc.top
}

/// Whether any of the rectangles covers cell `(x, y)`.
pub open spec fn cell_covered(rects: Seq<CellRect>, x: int, y: int) -> bool {
    exists|i: int| 0 <= i < rects.len() && rect_covers(#[trigger] rects[i], x, y)
}

/// Whether two merged rectangles share at least one cell.
pub open spec fn cellrects_overlap(a: CellRect, b: CellRect) -> bool {
    a.left <= b.right && b.left <= a.right && a.bottom <= b.top && b.bottom <= a.top
}

/// `[l, r]` of row `y` is a maximal run of cells the input marks.
pub open spec fn solid_run(
    cells: Seq<CellMarker>,
    w: int,
    h: int,
    y: int,
    l: int,
    r: int,
) -> bool {
    &&& forall|x: int| l <= x <= r ==> marked_in(cells, w, h, x, y)
    &&& !marked_in(cells, w, h, l - 1, y)
    &&& !marked_in(cells, w, h, r + 1, y)
}

/// A produced rectangle is maximal: sideways it is bounded by unmarked
/// cells on every row, and the row above (below) it does not hold a
/// marked run of exactly its width — any vertical extension covers an
/// unmarked cell unless a strictly wider run adjoins the rectangle.
pub open spec fn rect_maximal(cells: Seq<CellMarker>, w: int, h: int, rc: CellRect) -> bool {
    &&& forall|y: int|
        rc.bottom <= y <= rc.top ==> !(#[trigger] marked_in(cells, w, h, rc.left - 1, y))
            && !marked_in(cells, w, h, rc.right + 1, y)
    &&& !solid_run(cells, w, h, rc.top + 1, rc.left as int, rc.right as int)
    &&& !solid_run(cells, w, h, rc.bottom - 1, rc.left as int, rc.right as int)
}

/// Whether cell `(x, y)` of the dense grid carries the `left` tag.
pub open spec fn gv_tag_left(gv: Seq<Seq<Option<EdgeTags>>>, x: int, y: int) -> bool {
    &&& 0 <= y < gv.len()
    &&& 0 <= x < gv[y].len()
    &&& gv[y][x] matches Some(t) && t.left
}

/// Whether a covered cell of the rectangle carries the `left` tag.
pub open spec fn rect_has_tag_left(cells: Seq<CellMarker>, rc: CellRect) -> bool {
    exists|x: int, y: int|
        rect_covers(rc, x, y) && (#[trigger] cell_tags(cells, x, y) matches Some(t) && t.left)
}

/// Whether cell `(x, y)` of the dense grid carries the `right` tag.
pub open spec fn gv_tag_right(gv: Seq<Seq<Option<EdgeTags>>>, x: int, y: int) -> bool {
    &&& 0 <= y < gv.len()
    &&& 0 <= x < gv[y].len()
    &&& gv[y][x] matches Some(t) && t.right
}

/// Whether a covered cell of the rectangle carries the `right` tag.
pub open spec fn rect_has_tag_right(cells: Seq<CellMarker>, rc: CellRect) -> bool {
    exists|x: int, y: int|
        rect_covers(rc, x, y) && (#[trigger] cell_tags(cells, x, y) matches Some(t) && t.right)
}

/// Whether cell `(x, y)` of the dense grid carries the `top` tag.
pub open spec fn gv_tag_top(gv: Seq<Seq<Option<EdgeTags>>>, x: int, y: int) -> bool {
    &&& 0 <= y < gv.len()
    &&& 0 <= x < gv[y].len()
    &&& gv[y][x] matches Some(t) && t.top
}

/// Whether a covered cell of the rectangle carries the `top` tag.
pub open spec fn rect_has_tag_top(cells: Seq<CellMarker>, rc: CellRect) -> bool {
    exists|x: int, y: int|
        rect_covers(rc, x, y) && (#[trigger] cell_tags(cells, x, y) matches Some(t) && t.top)
}

/// Whether cell `(x, y)` of the dense grid carries the `bottom` tag.
pub open spec fn gv_tag_bottom(gv: Seq<Seq<Option<EdgeTags>>>, x: int, y: int) -> bool {
    &&& 0 <= y < gv.len()
    &&& 0 <= x < gv[y].len()
    &&& gv[y][x] matches Some(t) && t.bottom
}

/// Whether a covered cell of the rectangle carries the `bottom` tag.
pub open spec fn rect_has_tag_bottom(cells: Seq<CellMarker>, rc: CellRect) -> bool {
    exists|x: int, y: int|
        rect_covers(rc, x, y) && (#[trigger] cell_tags(cells, x, y) matches Some(t) && t.bottom)
}

/// Two maximal runs of one row that share a cell are the same run.
proof fn lemma_run_unique(
    gv: Seq<Seq<Option<EdgeTags>>>,
    y: int,
    l1: int,
    r1: int,
    l2: int,
    r2: int,
    x: int,
)
    requires
        is_run(gv, y, l1, r1),
        is_run(gv, y, l2, r2),
        l1 <= x <= r1,
        l2 <= x <= r2,
    ensures
        l1 == l2 && r1 == r2,
{
    if l1 < l2 {
        assert(l1 <= l2 - 1 <= r1);
        assert(grid_marked(gv, l2 - 1, y));
    }
    if l2 < l1 {
        assert(l2 <= l1 - 1 <= r2);
        assert(grid_marked(gv, l1 - 1, y));
    }
    if r1 < r2 {
        assert(l2 <= r1 + 1 <= r2);
        assert(grid_marked(gv, r1 + 1, y));
    }
    if r2 < r1 {
        assert(l1 <= r2 + 1 <= r1);
        assert(grid_marked(gv, r2 + 1, y));
    }
}

/// The union of the tags over the cells `[l, r]` of one grid row.
fn row_tag_scan(row: &Vec<Option<EdgeTags>>, l: usize, r: usize) -> (t: EdgeTags)
    requires
        l <= r < row@.len(),
        r < 4096,
    ensures
        t.left == exists|x: int| l <= x <= r && ((#[trigger] row@[x]) matches Some(tt) && tt.left),
        t.right == exists|x: int| l <= x <= r && ((#[trigger] row@[x]) matches Some(tt) && tt.right),
        t.top == exists|x: int| l <= x <= r && ((#[trigger] row@[x]) matches Some(tt) && tt.top),
        t.bottom == exists|x: int| l <= x <= r && ((#[trigger] row@[x]) matches Some(tt) && tt.bottom),
{
    let mut t = EdgeTags::none();
    let mut x: usize = l;
    while x <= r
        invariant
            l <= x <= r + 1,
            r < row@.len(),
            r < 4096,
            t.left == exists|x2: int|
                l <= x2 < x && ((#[trigger] row@[x2]) matches Some(tt) && tt.left),
            t.right == exists|x2: int|
                l <= x2 < x && ((#[trigger] row@[x2]) matches Some(tt) && tt.right),
            t.top == exists|x2: int|
                l <= x2 < x && ((#[trigger] row@[x2]) matches Some(tt) && tt.top),
            t.bottom == exists|x2: int|
                l <= x2 < x && ((#[trigger] row@[x2]) matches Some(tt) && tt.bottom),
        decreases r + 1 - x,
    {
        let c = row[x];
        match c {
            Some(ct) => {
                t = t.union(ct);
            },
            None => {},
        }
        x += 1;
    }
    t
}

/// The union of the tags over the cells of the rectangle
/// `[l, r]` by `[b, tp]`.
fn rect_tag_scan(g: &Vec<Vec<Option<EdgeTags>>>, l: usize, r: usize, b: usize, tp: usize) -> (t:
    EdgeTags)
    requires
        b <= tp < g@.len(),
        tp < 4096,
        forall|y: int| b <= y <= tp ==> r < (#[trigger] g@[y])@.len(),
        l <= r,
        r < 4096,
    ensures
        t.left == exists|x: int, y: int|
            l <= x <= r && b <= y <= tp && #[trigger] gv_tag_left(grid_view(g), x, y),
        t.right == exists|x: int, y: int|
            l <= x <= r && b <= y <= tp && #[trigger] gv_tag_right(grid_view(g), x, y),
        t.top == exists|x: int, y: int|
            l <= x <= r && b <= y <= tp && #[trigger] gv_tag_top(grid_view(g), x, y),
        t.bottom == exists|x: int, y: int|
            l <= x <= r && b <= y <= tp && #[trigger] gv_tag_bottom(grid_view(g), x, y),
{
    let ghost gv = grid_view(g);
    let mut t = EdgeTags::none();
    let mut y: usize = b;
    while y <= tp
        invariant
            gv == grid_view(g),
            b <= y <= tp + 1,
            tp < g@.len(),
            tp < 4096,
            r < 4096,
            forall|y2: int| b <= y2 <= tp ==> r < (#[trigger] g@[y2])@.len(),
            l <= r,
            t.left == exists|x2: int, y2: int|
                l <= x2 <= r && b <= y2 < y && #[trigger] gv_tag_left(gv, x2, y2),
            t.right == exists|x2: int, y2: int|
                l <= x2 <= r && b <= y2 < y && #[trigger] gv_tag_right(gv, x2, y2),
            t.top == exists|x2: int, y2: int|
                l <= x2 <= r && b <= y2 < y && #[trigger] gv_tag_top(gv, x2, y2),
            t.bottom == exists|x2: int, y2: int|
                l <= x2 <= r && b <= y2 < y && #[trigger] gv_tag_bottom(gv, x2, y2),
        decreases tp + 1 - y,
    {
        let rt = row_tag_scan(&g[y], l, r);
        proof {
            assert(gv[y as int] == (g@[y as int])@);
        }
        let ghost old_t = t;
        t = t.union(rt);
        proof {
            assert(t.left == (old_t.left || rt.left));
            if rt.left {
                let x2 = choose|x2: int|
                    l <= x2 <= r && ((#[trigger] (g@[y as int])@[x2]) matches Some(tt)
                        && tt.left);
                assert(gv_tag_left(gv, x2, y as int));
            }
            if rt.right {
                let x2 = choose|x2: int|
                    l <= x2 <= r && ((#[trigger] (g@[y as int])@[x2]) matches Some(tt)
                        && tt.right);
                assert(gv_tag_right(gv, x2, y as int));
            }
            if rt.top {
                let x2 = choose|x2: int|
                    l <= x2 <= r && ((#[trigger] (g@[y as int])@[x2]) matches Some(tt)
                        && tt.top);
                assert(gv_tag_top(gv, x2, y as int));
            }
            if rt.bottom {
                let x2 = choose|x2: int|
                    l <= x2 <= r && ((#[trigger] (g@[y as int])@[x2]) matches Some(tt)
                        && tt.bottom);
                assert(gv_tag_bottom(gv, x2, y as int));
            }
            assert forall|x2: int, y2: int|
                l <= x2 <= r && b <= y2 < y + 1 && #[trigger] gv_tag_left(gv, x2, y2) implies t.left by {
                if y2 == y {
                    assert(((g@[y as int])@[x2] matches Some(tt) && tt.left));
                }
            }
            assert forall|x2: int, y2: int|
                l <= x2 <= r && b <= y2 < y + 1 && #[trigger] gv_tag_right(gv, x2, y2) implies t.right by {
                if y2 == y {
                    assert(((g@[y as int])@[x2] matches Some(tt) && tt.right));
                }
            }
            assert forall|x2: int, y2: int|
                l <= x2 <= r && b <= y2 < y + 1 && #[trigger] gv_tag_top(gv, x2, y2) implies t.top by {
                if y2 == y {
                    assert(((g@[y as int])@[x2] matches Some(tt) && tt.top));
                }
            }
            assert forall|x2: int, y2: int|
                l <= x2 <= r && b <= y2 < y + 1 && #[trigger] gv_tag_bottom(gv, x2, y2) implies t.bottom by {
                if y2 == y {
                    assert(((g@[y as int])@[x2] matches Some(tt) && tt.bottom));
                }
            }
        }
        y += 1;
    }
    t
}

pub open spec fn max_usize_spec(a: int, b: int) -> int {
    if a >= b {
        a
    } else {
        b
    }
}


/// A finished rectangle of the column pass, read back through the grid
/// and the input markers, is maximal.
proof fn lemma_rect_maximality(
    cs: Seq<CellMarker>,
    w: int,
    h: int,
    gv: Seq<Seq<Option<EdgeTags>>>,
    pv: Seq<Seq<Plate>>,
    br: BuildRect,
    rc: CellRect,
)
    requires
        forall|x: int, y: int|
            #[trigger] grid_marked(gv, x, y) == (0 <= x < w && 0 <= y < h && spec_marked(cs, x, y)),
        forall|y: int, k: int|
            0 <= y < h && 0 <= k < pv[y].len() ==> is_run(
                gv,
                y,
                (#[trigger] pv[y][k]).left as int,
                pv[y][k].right as int,
            ),
        forall|y: int, x: int|
            0 <= y < h && #[trigger] grid_marked(gv, x, y) ==> exists|k: int|
                0 <= k < pv[y].len() && ((#[trigger] pv[y][k]).left <= x <= pv[y][k].right),
        pv.len() == h,
        done_rect_wf(pv, br),
        rc.left == br.left && rc.right == br.right && rc.bottom == br.bottom && rc.top == br.top,
        rc.left <= rc.right < w,
        rc.bottom <= rc.top < h,
    ensures
        rect_maximal(cs, w, h, rc),
{
    let l = rc.left as int;
    let r = rc.right as int;
    reveal(rect_shape_rows);
    assert forall|y2: int|
        rc.bottom <= y2 <= rc.top implies !(#[trigger] marked_in(cs, w, h, l - 1, y2))
        && !marked_in(cs, w, h, r + 1, y2) by {
        assert(row_has_plate(pv, y2, l, r));
        let k = choose|k: int|
            0 <= k < pv[y2].len() && (#[trigger] pv[y2][k]).left == l && pv[y2][k].right == r;
        assert(is_run(gv, y2, l, r));
        assert(!grid_marked(gv, l - 1, y2) && !grid_marked(gv, r + 1, y2));
    }
    assert(!solid_run(cs, w, h, rc.top + 1, l, r)) by {
        if solid_run(cs, w, h, rc.top + 1, l, r) {
            let ty = rc.top + 1;
            assert(marked_in(cs, w, h, l, ty));
            assert forall|x: int| l <= x <= r implies grid_marked(gv, x, ty) by {
                assert(marked_in(cs, w, h, x, ty));
            }
            assert(is_run(gv, ty, l, r));
            assert(grid_marked(gv, l, ty));
            let k = choose|k: int|
                0 <= k < pv[ty].len() && ((#[trigger] pv[ty][k]).left <= l <= pv[ty][k].right);
            assert(is_run(gv, ty, pv[ty][k].left as int, pv[ty][k].right as int));
            lemma_run_unique(gv, ty, pv[ty][k].left as int, pv[ty][k].right as int, l, r, l);
            assert(row_has_plate(pv, ty, l, r));
            reveal(rect_closed_above);
            assert(false);
        }
    }
    assert(!solid_run(cs, w, h, rc.bottom - 1, l, r)) by {
        if solid_run(cs, w, h, rc.bottom - 1, l, r) {
            let by2 = rc.bottom - 1;
            assert(marked_in(cs, w, h, l, by2));
            assert(rc.bottom >= 1);
            assert forall|x: int| l <= x <= r implies grid_marked(gv, x, by2) by {
                assert(marked_in(cs, w, h, x, by2));
            }
            assert(is_run(gv, by2, l, r));
            assert(grid_marked(gv, l, by2));
            let k = choose|k: int|
                0 <= k < pv[by2].len() && ((#[trigger] pv[by2][k]).left <= l <= pv[by2][k].right);
            assert(is_run(gv, by2, pv[by2][k].left as int, pv[by2][k].right as int));
            lemma_run_unique(gv, by2, pv[by2][k].left as int, pv[by2][k].right as int, l, r, l);
            assert(row_has_plate(pv, by2, l, r));
            reveal(rect_closed_below);
            assert(false);
        }
    }
}

/// Geometry extraction: merge the marked cells of a `width` by `height`
/// grid into maximal rectangles.
///
/// The produced rectangles cover exactly the marked cells and are
/// pairwise disjoint. Each rectangle is bounded sideways by unmarked
/// cells on every one of its rows, and the row just above (below) it
/// never holds a marked run of exactly its width, so a rectangle can
/// only be extended vertically over marked cells where a strictly wider
/// run adjoins it. A rectangle's tags are the union of the tags of the
/// cells it covers. A marker outside the grid bounds is a fatal
/// configuration error: the first such marker is reported and nothing is
/// produced. Grids are bounded at 4096 cells a side, the memory cap of
/// the dense-grid pass.
#[verifier::rlimit(100)]
pub fn merge_cells(cells: &Vec<CellMarker>, width: usize, height: usize) -> (res: Result<
    Vec<CellRect>,
    OutOfBoundsCell,
>)
    requires
        width <= 4096,
        height <= 4096,
    ensures
        match res {
            Ok(rects) => {
                &&& forall|x: int, y: int|
                    #[trigger] cell_covered(rects@, x, y) == marked_in(
                        cells@,
                        width as int,
                        height as int,
                        x,
                        y,
                    )
                &&& forall|i: int, j: int|
                    0 <= i < j < rects@.len() ==> !cellrects_overlap(
                        #[trigger] rects@[i],
                        #[trigger] rects@[j],
                    )
                &&& forall|i: int|
                    0 <= i < rects@.len() ==> {
                        let rc = #[trigger] rects@[i];
                        &&& rc.left <= rc.right < width
                        &&& rc.bottom <= rc.top < height
                        &&& rect_maximal(cells@, width as int, height as int, rc)
                        &&& rc.tags.left == rect_has_tag_left(cells@, rc)
                        &&& rc.tags.right == rect_has_tag_right(cells@, rc)
                        &&& rc.tags.top == rect_has_tag_top(cells@, rc)
                        &&& rc.tags.bottom == rect_has_tag_bottom(cells@, rc)
                    }
            },
            Err(e) => exists|i: int|
                {
                    &&& 0 <= i < cells@.len()
                    &&& ((#[trigger] cells@[i]).x >= width || cells@[i].y >= height)
                    &&& forall|j: int|
                        0 <= j < i ==> (#[trigger] cells@[j]).x < width && cells@[j].y < height
                    &&& e.x == cells@[i].x && e.y == cells@[i].y
                },
        },
{
    let g = match build_grid(cells, width, height) {
        Ok(g) => g,
        Err(e) => {
            return Err(e);
        },
    };
    let ghost gv = grid_view(&g);
    proof {
        assert forall|x: int, y2: int|
            #[trigger] grid_marked(gv, x, y2) == (0 <= x < width && 0 <= y2 < height
                && spec_marked(cells@, x, y2)) by {
            assert(grid_marked(grid_view(&g), x, y2) == (0 <= x < width && 0 <= y2 < height
                && spec_marked(cells@, x, y2)));
        }
        assert forall|x: int, y2: int|
            0 <= x < width && 0 <= y2 < height implies #[trigger] gv[y2][x] == cell_tags(
            cells@,
            x,
            y2,
        ) by {
            assert(grid_view(&g)[y2][x] == cell_tags(cells@, x, y2));
        }
    }
    let mut pr: Vec<Vec<Plate>> = Vec::new();
    let mut y: usize = 0;
    while y < height
        invariant
            gv == grid_view(&g),
            grid_wf(gv, width as int, height as int),
            width <= 4096,
            height <= 4096,
            y <= height,
            pr@.len() == y,
            forall|y2: int, k: int|
                0 <= y2 < y && 0 <= k < (pr@[y2])@.len() ==> is_run(
                    gv,
                    y2,
                    (#[trigger] (pr@[y2])@[k]).left as int,
                    (pr@[y2])@[k].right as int,
                ),
            forall|y2: int, x: int|
                0 <= y2 < y && #[trigger] grid_marked(gv, x, y2) ==> exists|k: int|
                    0 <= k < (pr@[y2])@.len() && ((#[trigger] (pr@[y2])@[k]).left <= x
                        <= (pr@[y2])@[k].right),
        decreases height - y,
    {
        proof {
            assert(gv[y as int] == (g@[y as int])@);
            assert(gv[y as int].len() == width);
        }
        let plates = row_plates(&g, y);
        let ghost old_pr = pr@;
        pr.push(plates);
        proof {
            assert forall|y2: int, k: int|
                0 <= y2 < y + 1 && 0 <= k < (pr@[y2])@.len() implies is_run(
                gv,
                y2,
                (#[trigger] (pr@[y2])@[k]).left as int,
                (pr@[y2])@[k].right as int,
            ) by {
                if y2 == y {
                    assert(pr@[y2] == plates);
                    assert(is_run(
                        grid_view(&g),
                        y as int,
                        plates@[k].left as int,
                        plates@[k].right as int,
                    ));
                } else {
                    assert(pr@[y2] == old_pr[y2]);
                }
            }
            assert forall|y2: int, x: int|
                0 <= y2 < y + 1 && #[trigger] grid_marked(gv, x, y2) implies exists|k: int|
                0 <= k < (pr@[y2])@.len() && ((#[trigger] (pr@[y2])@[k]).left <= x
                    <= (pr@[y2])@[k].right) by {
                if y2 == y {
                    assert(pr@[y2] == plates);
                    assert(grid_marked(grid_view(&g), x, y2));
                    let k = choose|k: int|
                        0 <= k < plates@.len() && ((#[trigger] plates@[k]).left <= x
                            <= plates@[k].right);
                    assert(0 <= k < (pr@[y2])@.len() && (pr@[y2])@[k].left <= x
                        <= (pr@[y2])@[k].right);
                } else {
                    assert(pr@[y2] == old_pr[y2]);
                    let k = choose|k: int|
                        0 <= k < (old_pr[y2])@.len() && ((#[trigger] (old_pr[y2])@[k]).left <= x
                            <= (old_pr[y2])@[k].right);
                    assert(0 <= k < (pr@[y2])@.len() && (pr@[y2])@[k].left <= x
                        <= (pr@[y2])@[k].right);
                }
            }
        }
        y += 1;
    }
    let ghost pv = plates_view(&pr);
    proof {
        assert forall|y2: int| 0 <= y2 < height implies #[trigger] pv[y2] == (pr@[y2])@ by {}
        assert forall|y2: int, k: int|
            0 <= y2 < height && 0 <= k < pv[y2].len() implies is_run(
            gv,
            y2,
            (#[trigger] pv[y2][k]).left as int,
            pv[y2][k].right as int,
        ) by {
            assert(pv[y2] == (pr@[y2])@);
        }
        assert forall|y2: int, x: int|
            0 <= y2 < height && #[trigger] grid_marked(gv, x, y2) implies exists|k: int|
            0 <= k < pv[y2].len() && ((#[trigger] pv[y2][k]).left <= x <= pv[y2][k].right) by {
            assert(pv[y2] == (pr@[y2])@);
            let k = choose|k: int|
                0 <= k < (pr@[y2])@.len() && ((#[trigger] (pr@[y2])@[k]).left <= x
                    <= (pr@[y2])@[k].right);
            assert(0 <= k < pv[y2].len() && pv[y2][k].left <= x <= pv[y2][k].right);
        }
    }
    let brs = assemble_rects(&pr);
    let mut rects: Vec<CellRect> = Vec::new();
    let mut i: usize = 0;
    while i < brs.len()
        invariant
            gv == grid_view(&g),
            pv == plates_view(&pr),
            grid_wf(gv, width as int, height as int),
            width <= 4096,
            height <= 4096,
            pv.len() == height,
            forall|y2: int, k: int|
                0 <= y2 < height && 0 <= k < pv[y2].len() ==> is_run(
                    gv,
                    y2,
                    (#[trigger] pv[y2][k]).left as int,
                    pv[y2][k].right as int,
                ),
            forall|i2: int| 0 <= i2 < brs@.len() ==> done_rect_wf(pv, #[trigger] brs@[i2]),
            i <= brs@.len(),
            rects@.len() == i,
            forall|i2: int|
                0 <= i2 < i ==> {
                    let rc = #[trigger] rects@[i2];
                    let br = brs@[i2];
                    &&& rc.left == br.left && rc.right == br.right && rc.bottom == br.bottom
                        && rc.top == br.top
                    &&& rc.left <= rc.right < width
                    &&& rc.bottom <= rc.top < height
                    &&& rc.tags.left == exists|x: int, y2: int|
                        rc.left <= x <= rc.right && rc.bottom <= y2 <= rc.top
                            && #[trigger] gv_tag_left(gv, x, y2)
                    &&& rc.tags.right == exists|x: int, y2: int|
                        rc.left <= x <= rc.right && rc.bottom <= y2 <= rc.top
                            && #[trigger] gv_tag_right(gv, x, y2)
                    &&& rc.tags.top == exists|x: int, y2: int|
                        rc.left <= x <= rc.right && rc.bottom <= y2 <= rc.top
                            && #[trigger] gv_tag_top(gv, x, y2)
                    &&& rc.tags.bottom == exists|x: int, y2: int|
                        rc.left <= x <= rc.right && rc.bottom <= y2 <= rc.top
                            && #[trigger] gv_tag_bottom(gv, x, y2)
                },
        decreases brs@.len() - i,
    {
        let br = brs[i];
        proof {
            assert(done_rect_wf(pv, brs@[i as int]));
            reveal(rect_shape_rows);
            assert(row_has_plate(pv, br.bottom as int, br.left as int, br.right as int));
            let k0 = choose|k0: int|
                0 <= k0 < pv[br.bottom as int].len() && (#[trigger] pv[br.bottom as int][k0]).left
                    == br.left as int && pv[br.bottom as int][k0].right == br.right as int;
            assert(is_run(gv, br.bottom as int, br.left as int, br.right as int));
            assert(grid_marked(gv, br.left as int, br.bottom as int));
            assert(grid_marked(gv, br.right as int, br.bottom as int));
            assert(br.left <= br.right < width);
            assert(br.bottom <= br.top < height);
            assert forall|y2: int| br.bottom <= y2 <= br.top implies br.right < (
            #[trigger] g@[y2])@.len() by {
                assert(gv[y2] == (g@[y2])@);
                assert(gv[y2].len() == width);
            }
        }
        let t = rect_tag_scan(&g, br.left, br.right, br.bottom, br.top);
        rects.push(
            CellRect {
                left: br.left,
                right: br.right,
                bottom: br.bottom,
                top: br.top,
                tags: t,
            },
        );
        i += 1;
    }
    proof {
        let w = width as int;
        let h = height as int;
        let cs = cells@;
        // a cell is covered exactly when it is marked
        assert forall|x: int, y2: int| #[trigger] cell_covered(rects@, x, y2) == marked_in(
            cs,
            w,
            h,
            x,
            y2,
        ) by {
            if marked_in(cs, w, h, x, y2) {
                assert(grid_marked(gv, x, y2));
                let k = choose|k: int|
                    0 <= k < pv[y2].len() && ((#[trigger] pv[y2][k]).left <= x
                        <= pv[y2][k].right);
                assert(covering_in(
                    brs@,
                    pv[y2][k].left as int,
                    pv[y2][k].right as int,
                    y2,
                ));
                reveal(covering_in);
                let j = choose|j: int|
                    0 <= j < brs@.len() && (#[trigger] brs@[j]).left == pv[y2][k].left as int
                        && brs@[j].right == pv[y2][k].right as int && brs@[j].bottom <= y2
                        <= brs@[j].top;
                assert(rect_covers(rects@[j], x, y2));
                assert(cell_covered(rects@, x, y2));
            }
            if cell_covered(rects@, x, y2) {
                let j = choose|j: int|
                    0 <= j < rects@.len() && rect_covers(#[trigger] rects@[j], x, y2);
                let br = brs@[j];
                assert(done_rect_wf(pv, br));
                reveal(rect_shape_rows);
                assert(row_has_plate(pv, y2, br.left as int, br.right as int));
                let k = choose|k: int|
                    0 <= k < pv[y2].len() && (#[trigger] pv[y2][k]).left == br.left as int
                        && pv[y2][k].right == br.right as int;
                assert(is_run(gv, y2, br.left as int, br.right as int));
                assert(grid_marked(gv, x, y2));
            }
        }
        // no two rectangles share a cell
        assert forall|i2: int, j2: int|
            0 <= i2 < j2 < rects@.len() implies !cellrects_overlap(
            #[trigger] rects@[i2],
            #[trigger] rects@[j2],
        ) by {
            if cellrects_overlap(rects@[i2], rects@[j2]) {
                let a = brs@[i2];
                let b = brs@[j2];
                let x = max_usize_spec(a.left as int, b.left as int);
                let yy = max_usize_spec(a.bottom as int, b.bottom as int);
                assert(a.left <= x <= a.right && b.left <= x <= b.right);
                assert(a.bottom <= yy <= a.top && b.bottom <= yy <= b.top);
                reveal(rect_shape_rows);
                assert(row_has_plate(pv, yy, a.left as int, a.right as int));
                assert(row_has_plate(pv, yy, b.left as int, b.right as int));
                let ka = choose|k: int|
                    0 <= k < pv[yy].len() && (#[trigger] pv[yy][k]).left == a.left as int
                        && pv[yy][k].right == a.right as int;
                let kb = choose|k: int|
                    0 <= k < pv[yy].len() && (#[trigger] pv[yy][k]).left == b.left as int
                        && pv[yy][k].right == b.right as int;
                assert(is_run(gv, yy, a.left as int, a.right as int));
                assert(is_run(gv, yy, b.left as int, b.right as int));
                lemma_run_unique(
                    gv,
                    yy,
                    a.left as int,
                    a.right as int,
                    b.left as int,
                    b.right as int,
                    x,
                );
                assert(same_shape(a, b));
                assert(rows_disjoint(a, b));
                assert(false);
            }
        }
        // maximality
        assert forall|i2: int| 0 <= i2 < rects@.len() implies rect_maximal(
            cs,
            w,
            h,
            #[trigger] rects@[i2],
        ) by {
            lemma_rect_maximality(cs, w, h, gv, pv, brs@[i2], rects@[i2]);
        }
        // exact tags: the scanned grid region speaks for the input markers
        assert forall|i2: int| 0 <= i2 < rects@.len() implies {
            let rc = #[trigger] rects@[i2];
            &&& rc.tags.left == rect_has_tag_left(cs, rc)
            &&& rc.tags.right == rect_has_tag_right(cs, rc)
            &&& rc.tags.top == rect_has_tag_top(cs, rc)
            &&& rc.tags.bottom == rect_has_tag_bottom(cs, rc)
        } by {
            let rc = rects@[i2];
            assert(rc.tags.left == rect_has_tag_left(cs, rc)) by {
                if rc.tags.left {
                    let (x, y2) = choose|x: int, y2: int|
                        rc.left <= x <= rc.right && rc.bottom <= y2 <= rc.top
                            && #[trigger] gv_tag_left(gv, x, y2);
                    assert(gv[y2][x] == cell_tags(cs, x, y2));
                    assert(rect_covers(rc, x, y2) && (#[trigger] cell_tags(cs, x, y2)
                        matches Some(t) && t.left));
                }
                if rect_has_tag_left(cs, rc) {
                    let (x, y2) = choose|x: int, y2: int|
                        rect_covers(rc, x, y2) && (#[trigger] cell_tags(cs, x, y2)
                            matches Some(t) && t.left);
                    assert(gv[y2][x] == cell_tags(cs, x, y2));
                    assert(gv_tag_left(gv, x, y2));
                }
            }
            assert(rc.tags.right == rect_has_tag_right(cs, rc)) by {
                if rc.tags.right {
                    let (x, y2) = choose|x: int, y2: int|
                        rc.left <= x <= rc.right && rc.bottom <= y2 <= rc.top
                            && #[trigger] gv_tag_right(gv, x, y2);
                    assert(gv[y2][x] == cell_tags(cs, x, y2));
                    assert(rect_covers(rc, x, y2) && (#[trigger] cell_tags(cs, x, y2)
                        matches Some(t) && t.right));
                }
                if rect_has_tag_right(cs, rc) {
                    let (x, y2) = choose|x: int, y2: int|
                        rect_covers(rc, x, y2) && (#[trigger] cell_tags(cs, x, y2)
                            matches Some(t) && t.right);
                    assert(gv[y2][x] == cell_tags(cs, x, y2));
                    assert(gv_tag_right(gv, x, y2));
                }
            }
            assert(rc.tags.top == rect_has_tag_top(cs, rc)) by {
                if rc.tags.top {
                    let (x, y2) = choose|x: int, y2: int|
                        rc.left <= x <= rc.right && rc.bottom <= y2 <= rc.top
                            && #[trigger] gv_tag_top(gv, x, y2);
                    assert(gv[y2][x] == cell_tags(cs, x, y2));
                    assert(rect_covers(rc, x, y2) && (#[trigger] cell_tags(cs, x, y2)
                        matches Some(t) && t.top));
                }
                if rect_has_tag_top(cs, rc) {
                    let (x, y2) = choose|x: int, y2: int|
                        rect_covers(rc, x, y2) && (#[trigger] cell_tags(cs, x, y2)
                            matches Some(t) && t.top);
                    assert(gv[y2][x] == cell_tags(cs, x, y2));
                    assert(gv_tag_top(gv, x, y2));
                }
            }
            assert(rc.tags.bottom == rect_has_tag_bottom(cs, rc)) by {
                if rc.tags.bottom {
                    let (x, y2) = choose|x: int, y2: int|
                        rc.left <= x <= rc.right && rc.bottom <= y2 <= rc.top
                            && #[trigger] gv_tag_bottom(gv, x, y2);
                    assert(gv[y2][x] == cell_tags(cs, x, y2));
                    assert(rect_covers(rc, x, y2) && (#[trigger] cell_tags(cs, x, y2)
                        matches Some(t) && t.bottom));
                }
                if rect_has_tag_bottom(cs, rc) {
                    let (x, y2) = choose|x: int, y2: int|
                        rect_covers(rc, x, y2) && (#[trigger] cell_tags(cs, x, y2)
                            matches Some(t) && t.bottom);
                    assert(gv[y2][x] == cell_tags(cs, x, y2));
                    assert(gv_tag_bottom(gv, x, y2));
                }
            }
        }
    }
    Ok(rects)
}

} // verus!
