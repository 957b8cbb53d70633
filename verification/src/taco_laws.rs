//! Laws of the TACO structures: what every box, dependency and index keeps.

use vstd::prelude::*;
use crate::taco::{
    BoundingBox2D, BoundingBox3D, CellCoord, CellCoord3D, TacoDependency,
    TacoSpatialIndex, box_cells, cells_before_col, column_cells, query_cells,
};

verus! {

proof fn lemma_column_cells_member(col: u32, lo: int, hi: int, cell: CellCoord)
    requires
        0 <= lo,
        hi <= u32::MAX,
    ensures
        column_cells(col, lo, hi).contains(cell) <==> (cell.col == col && lo <= cell.row <= hi),
{
    let s = column_cells(col, lo, hi);
    if cell.col == col && lo <= cell.row <= hi {
        assert(s[cell.row - lo] == cell);
    }
}

proof fn lemma_cells_before_col_member(b: BoundingBox2D, end_col: int, cell: CellCoord)
    requires
        end_col <= b.max_col + 1,
    ensures
        cells_before_col(b, end_col).contains(cell) <==> (b.min_col <= cell.col < end_col
            && b.min_row <= cell.row <= b.max_row),
    decreases end_col - b.min_col,
{
    if end_col > b.min_col {
        lemma_cells_before_col_member(b, end_col - 1, cell);
        lemma_column_cells_member((end_col - 1) as u32, b.min_row as int, b.max_row as int, cell);
        let left = cells_before_col(b, end_col - 1);
        let right = column_cells((end_col - 1) as u32, b.min_row as int, b.max_row as int);
        if left.contains(cell) {
            let i = choose|i: int| 0 <= i < left.len() && left[i] == cell;
            assert((left + right)[i] == cell);
        }
        if right.contains(cell) {
            let i = choose|i: int| 0 <= i < right.len() && right[i] == cell;
            assert((left + right)[left.len() + i] == cell);
        }
        if (left + right).contains(cell) {
            let i = choose|i: int| 0 <= i < (left + right).len() && (left + right)[i] == cell;
            if i < left.len() {
                assert(left[i] == cell);
            } else {
                assert(right[i - left.len()] == cell);
            }
        }
    }
}

proof fn lemma_cells_before_col_no_duplicates(b: BoundingBox2D, end_col: int)
    requires
        end_col <= b.max_col + 1,
    ensures
        cells_before_col(b, end_col).no_duplicates(),
    decreases end_col - b.min_col,
{
    if end_col > b.min_col {
        lemma_cells_before_col_no_duplicates(b, end_col - 1);
        let left = cells_before_col(b, end_col - 1);
        let right = column_cells((end_col - 1) as u32, b.min_row as int, b.max_row as int);
        let all = left + right;
        assert forall|i: int, j: int| 0 <= i < all.len() && 0 <= j < all.len() && i != j implies all[i]
            != all[j] by {
            if i < left.len() && j >= left.len() {
                assert(left.contains(all[i]));
                lemma_cells_before_col_member(b, end_col - 1, all[i]);
            } else if j < left.len() && i >= left.len() {
                assert(left.contains(all[j]));
                lemma_cells_before_col_member(b, end_col - 1, all[j]);
            }
        }
    }
}

/// The cells of a box are exactly the cells that the box holds, each listed once.
pub proof fn law_box_cells_exact(b: BoundingBox2D, cell: CellCoord)
    ensures
        box_cells(b).contains(cell) <==> b.holds(cell),
        box_cells(b).no_duplicates(),
{
    lemma_cells_before_col_member(b, b.max_col + 1, cell);
    lemma_cells_before_col_no_duplicates(b, b.max_col + 1);
}

/// The height of `b`: the number of rows it spans (none when its row bounds are out of order).
pub open spec fn height(b: BoundingBox2D) -> int {
    if b.max_row < b.min_row { 0 } else { b.max_row - b.min_row + 1 }
}

/// The width of `b`: the number of columns it spans.
pub open spec fn width(b: BoundingBox2D) -> int {
    if b.max_col < b.min_col { 0 } else { b.max_col - b.min_col + 1 }
}

proof fn lemma_cells_before_col_len(b: BoundingBox2D, end_col: int)
    requires
        b.min_col <= end_col <= b.max_col + 1,
    ensures
        cells_before_col(b, end_col).len() == (end_col - b.min_col) * height(b),
    decreases end_col - b.min_col,
{
    if end_col > b.min_col {
        lemma_cells_before_col_len(b, end_col - 1);
        let h = height(b);
        let k = end_col - 1 - b.min_col;
        assert(column_cells((end_col - 1) as u32, b.min_row as int, b.max_row as int).len() == h);
        assert(k * h + h == (k + 1) * h) by (nonlinear_arith);
    } else {
        let z = end_col - b.min_col;
        let h = height(b);
        assert(z == 0);
        assert(z * h == 0) by (nonlinear_arith)
            requires
                z == 0,
        ;
    }
}

/// A box has width times height cells.
pub proof fn law_box_cells_count(b: BoundingBox2D)
    ensures
        box_cells(b).len() == width(b) * height(b),
{
    if b.max_col < b.min_col {
        assert(box_cells(b).len() == 0);
    } else {
        lemma_cells_before_col_len(b, b.max_col + 1);
    }
}

/// The rectangle spanned by two corners holds both corners, does not depend on
/// their order, has its minima below its maxima, and lies inside every
/// rectangle that holds both corners.
pub proof fn law_spanning_rectangle(c1: CellCoord, c2: CellCoord, other: BoundingBox2D, cell: CellCoord)
    ensures
        BoundingBox2D::spanning(c1, c2).holds(c1),
        BoundingBox2D::spanning(c1, c2).holds(c2),
        BoundingBox2D::spanning(c1, c2) == BoundingBox2D::spanning(c2, c1),
        BoundingBox2D::spanning(c1, c2).min_col <= BoundingBox2D::spanning(c1, c2).max_col,
        BoundingBox2D::spanning(c1, c2).min_row <= BoundingBox2D::spanning(c1, c2).max_row,
        other.holds(c1) && other.holds(c2) && BoundingBox2D::spanning(c1, c2).holds(cell)
            ==> other.holds(cell),
{
}

/// The box spanned by two corners holds both corners, does not depend on their
/// order, and lies inside every box that holds both corners.
pub proof fn law_spanning_box(c1: CellCoord3D, c2: CellCoord3D, other: BoundingBox3D, p: CellCoord3D)
    ensures
        BoundingBox3D::spanning(c1, c2).holds(c1),
        BoundingBox3D::spanning(c1, c2).holds(c2),
        BoundingBox3D::spanning(c1, c2) == BoundingBox3D::spanning(c2, c1),
        other.holds(c1) && other.holds(c2) && BoundingBox3D::spanning(c1, c2).holds(p)
            ==> other.holds(p),
{
}

/// The box spanned by two corners holds exactly the points that lie between
/// the two corners on every axis, bounds included: a point whose `x` (or `y`,
/// or `z`) is below both corners' or above both corners' is not held.
pub proof fn law_box_between_corners(c1: CellCoord3D, c2: CellCoord3D, p: CellCoord3D)
    ensures
        BoundingBox3D::spanning(c1, c2).holds(p) <==> {
            &&& (c1.x <= p.x <= c2.x || c2.x <= p.x <= c1.x)
            &&& (c1.y <= p.y <= c2.y || c2.y <= p.y <= c1.y)
            &&& (c1.z <= p.z <= c2.z || c2.z <= p.z <= c1.z)
        },
{
}

/// The rectangle spanned by two corners holds exactly the cells that lie
/// between the two corners in column and in row, bounds included.
pub proof fn law_rectangle_between_corners(c1: CellCoord, c2: CellCoord, cell: CellCoord)
    ensures
        BoundingBox2D::spanning(c1, c2).holds(cell) <==> {
            &&& (c1.col <= cell.col <= c2.col || c2.col <= cell.col <= c1.col)
            &&& (c1.row <= cell.row <= c2.row || c2.row <= cell.row <= c1.row)
        },
{
}

/// Two rectangles spanned by corners overlap exactly when their column spans
/// and their row spans meet.
pub proof fn law_spanned_overlap(a1: CellCoord, a2: CellCoord, b1: CellCoord, b2: CellCoord)
    ensures
        BoundingBox2D::spanning(a1, a2).overlaps(BoundingBox2D::spanning(b1, b2)) <==> {
            &&& (a1.col <= b1.col || a1.col <= b2.col || a2.col <= b1.col || a2.col <= b2.col)
            &&& (b1.col <= a1.col || b1.col <= a2.col || b2.col <= a1.col || b2.col <= a2.col)
            &&& (a1.row <= b1.row || a1.row <= b2.row || a2.row <= b1.row || a2.row <= b2.row)
            &&& (b1.row <= a1.row || b1.row <= a2.row || b2.row <= a1.row || b2.row <= a2.row)
        },
{
}

/// Overlap is symmetric; two rectangles that hold a common cell overlap; and two
/// rectangles with ordered bounds that overlap hold a common cell.
pub proof fn law_overlap(a: BoundingBox2D, b: BoundingBox2D, cell: CellCoord)
    ensures
        a.overlaps(b) == b.overlaps(a),
        a.holds(cell) && b.holds(cell) ==> a.overlaps(b),
        a.overlaps(b) && a.min_col <= a.max_col && a.min_row <= a.max_row && b.min_col <= b.max_col
            && b.min_row <= b.max_row ==> a.holds(
            CellCoord {
                col: if a.min_col <= b.min_col { b.min_col } else { a.min_col },
                row: if a.min_row <= b.min_row { b.min_row } else { a.min_row },
            },
        ) && b.holds(
            CellCoord {
                col: if a.min_col <= b.min_col { b.min_col } else { a.min_col },
                row: if a.min_row <= b.min_row { b.min_row } else { a.min_row },
            },
        ),
{
}

/// A source cell outside the source range has no dependents; a fixed pattern
/// (FF or FR) yields exactly the cells of the target range, each once; a
/// relative-fixed pattern yields its one fixed cell; a relative-relative pattern
/// yields at most one cell, and only one inside the target range.
pub proof fn law_dependents(dep: TacoDependency, source: CellCoord, cell: CellCoord)
    ensures
        !dep.source_range.holds(source) ==> dep.dependents(source) is None,
        dep.source_range.holds(source) && (dep.locality is FF || dep.locality is FR) ==> {
            &&& dep.dependents(source) is Some
            &&& (dep.dependents(source)->0.contains(cell) <==> dep.target_range.holds(cell))
            &&& dep.dependents(source)->0.no_duplicates()
        },
        dep.source_range.holds(source) && dep.locality is RF ==> dep.dependents(source) == Some(
            seq![CellCoord { col: dep.locality->target_col, row: dep.locality->target_row }],
        ),
        dep.locality is RR && dep.dependents(source) is Some ==> {
            &&& dep.dependents(source)->0.len() == 1
            &&& dep.target_range.holds(dep.dependents(source)->0[0])
        },
{
    law_box_cells_exact(dep.target_range, cell);
}

/// A relative-relative dependency follows its offsets: from a source cell whose
/// shifted position lies in the target range, it yields exactly that position
/// (for coordinates that fit in `i32`, where the shift is plain addition).
pub proof fn law_relative_offset(dep: TacoDependency, source: CellCoord, target: CellCoord)
    requires
        dep.locality is RR,
        dep.source_range.holds(source),
        target.col == source.col + dep.locality->col_offset,
        target.row == source.row + dep.locality->row_offset,
        dep.target_range.holds(target),
        source.col <= i32::MAX,
        source.row <= i32::MAX,
        target.col <= i32::MAX,
        target.row <= i32::MAX,
    ensures
        dep.dependents(source) == Some(seq![target]),
{
    let cs = (source.col as i32) + dep.locality->col_offset;
    let rs = (source.row as i32) + dep.locality->row_offset;
    let c32: i32 = cs as i32;
    let r32: i32 = rs as i32;
    let tc: u32 = target.col;
    let tr: u32 = target.row;
    let sc: u32 = source.col;
    let sr: u32 = source.row;
    assert(sc as i32 == sc) by (bit_vector)
        requires
            sc <= 0x7fff_ffff,
    ;
    assert(sr as i32 == sr) by (bit_vector)
        requires
            sr <= 0x7fff_ffff,
    ;
    assert(c32 == tc);
    assert(r32 == tr);
    assert(c32 as u32 == tc) by (bit_vector)
        requires
            c32 == tc,
    ;
    assert(r32 as u32 == tr) by (bit_vector)
        requires
            r32 == tr,
    ;
}

/// `dep` yields `target` as a dependent of `cell`.
pub open spec fn yields(dep: TacoDependency, cell: CellCoord, target: CellCoord) -> bool {
    match dep.dependents(cell) {
        Some(cells) => cells.contains(target),
        None => false,
    }
}

/// An empty index answers every query with no cells.
pub proof fn law_query_empty(index: TacoSpatialIndex, cell: CellCoord)
    requires
        index.dependencies@.len() == 0,
    ensures
        query_cells(index.dependencies@, cell) == Seq::<CellCoord>::empty(),
{
}

/// Inserting a dependency extends every later query by exactly that
/// dependency's dependents, after the answers of the dependencies already there.
pub proof fn law_query_after_insert(deps: Seq<TacoDependency>, dep: TacoDependency, cell: CellCoord)
    ensures
        query_cells(deps.push(dep), cell) == query_cells(deps, cell) + match dep.dependents(cell) {
            Some(cells) => cells,
            None => Seq::empty(),
        },
{
    assert(deps.push(dep).drop_last() =~= deps);
}

/// A cell is in a query's answer exactly when some dependency of the index yields it.
pub proof fn law_query_member(deps: Seq<TacoDependency>, cell: CellCoord, target: CellCoord)
    ensures
        query_cells(deps, cell).contains(target) <==> exists|i: int|
            0 <= i < deps.len() && #[trigger] yields(deps[i], cell, target),
    decreases deps.len(),
{
    if deps.len() > 0 {
        let init = deps.drop_last();
        law_query_member(init, cell, target);
        let left = query_cells(init, cell);
        let right = match deps.last().dependents(cell) {
            Some(cells) => cells,
            None => Seq::empty(),
        };
        let all = left + right;
        if all.contains(target) {
            let k = choose|k: int| 0 <= k < all.len() && all[k] == target;
            if k < left.len() {
                assert(left.contains(target));
                let i = choose|i: int|
                    0 <= i < init.len() && #[trigger] yields(init[i], cell, target);
                assert(deps[i] == init[i]);
                assert(yields(deps[i], cell, target));
            } else {
                assert(right[k - left.len()] == target);
                assert(right.contains(target));
                assert(deps[deps.len() - 1].dependents(cell) is Some);
                assert(yields(deps[deps.len() - 1], cell, target));
            }
        }
        if exists|i: int|
            0 <= i < deps.len() && #[trigger] yields(deps[i], cell, target) {
            let i = choose|i: int|
                0 <= i < deps.len() && #[trigger] yields(deps[i], cell, target);
            if i < deps.len() - 1 {
                assert(init[i] == deps[i]);
                assert(yields(init[i], cell, target));
                assert(left.contains(target));
                let k = choose|k: int| 0 <= k < left.len() && left[k] == target;
                assert(all[k] == target);
            } else {
                assert(right.contains(target));
                let k = choose|k: int| 0 <= k < right.len() && right[k] == target;
                assert(all[left.len() + k] == target);
            }
        }
    }
}

} // verus!
