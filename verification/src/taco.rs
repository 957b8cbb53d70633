//! Tabular locality-based compression (TACO) of formula dependencies.
//!
//! A dependency maps each cell of a source rectangle to the cells of a target
//! rectangle that depend on it, following one of four locality patterns.

use vstd::prelude::*;

verus! {

/// A cell of a sheet, addressed by column and row.
#[derive(Debug, Clone, Copy, PartialEq, Eq, Structural)]
pub struct CellCoord {
    pub col: u32,
    pub row: u32,
}

/// A point of a three-dimensional grid.
#[derive(Debug, Clone, Copy, PartialEq, Eq, Structural)]
pub struct CellCoord3D {
    pub x: i32,
    pub y: i32,
    pub z: i32,
}

/// An axis-aligned box of grid points, bounds included.
#[derive(Debug, Clone, Copy, PartialEq, Eq, Structural)]
pub struct BoundingBox3D {
    pub min_x: i32,
    pub min_y: i32,
    pub min_z: i32,
    pub max_x: i32,
    pub max_y: i32,
    pub max_z: i32,
}

pub open spec fn min_i32(a: i32, b: i32) -> i32 {
    if a <= b { a } else { b }
}

pub open spec fn max_i32(a: i32, b: i32) -> i32 {
    if a <= b { b } else { a }
}

pub open spec fn min_u32(a: u32, b: u32) -> u32 {
    if a <= b { a } else { b }
}

pub open spec fn max_u32(a: u32, b: u32) -> u32 {
    if a <= b { b } else { a }
}

impl BoundingBox3D {
    /// The smallest box holding both corners.
    pub open spec fn spanning(c1: CellCoord3D, c2: CellCoord3D) -> BoundingBox3D {
        BoundingBox3D {
            min_x: min_i32(c1.x, c2.x),
            min_y: min_i32(c1.y, c2.y),
            min_z: min_i32(c1.z, c2.z),
            max_x: max_i32(c1.x, c2.x),
            max_y: max_i32(c1.y, c2.y),
            max_z: max_i32(c1.z, c2.z),
        }
    }

    pub open spec fn holds(self, p: CellCoord3D) -> bool {
        &&& self.min_x <= p.x <= self.max_x
        &&& self.min_y <= p.y <= self.max_y
        &&& self.min_z <= p.z <= self.max_z
    }

    pub fn new(c1: CellCoord3D, c2: CellCoord3D) -> (b: Self)
        ensures
            b == Self::spanning(c1, c2),
    {
        BoundingBox3D {
            min_x: if c1.x <= c2.x { c1.x } else { c2.x },
            min_y: if c1.y <= c2.y { c1.y } else { c2.y },
            min_z: if c1.z <= c2.z { c1.z } else { c2.z },
            max_x: if c1.x <= c2.x { c2.x } else { c1.x },
            max_y: if c1.y <= c2.y { c2.y } else { c1.y },
            max_z: if c1.z <= c2.z { c2.z } else { c1.z },
        }
    }

    pub fn contains(&self, p: CellCoord3D) -> (r: bool)
        ensures
            r == self.holds(p),
    {
        p.x >= self.min_x && p.x <= self.max_x && p.y >= self.min_y && p.y <= self.max_y && p.z
            >= self.min_z && p.z <= self.max_z
    }
}

/// A rectangle of cells, bounds included.
#[derive(Debug, Clone, Copy, PartialEq, Eq, Structural)]
pub struct BoundingBox2D {
    pub min_col: u32,
    pub min_row: u32,
    pub max_col: u32,
    pub max_row: u32,
}

impl BoundingBox2D {
    /// The smallest rectangle holding both corners.
    pub open spec fn spanning(c1: CellCoord, c2: CellCoord) -> BoundingBox2D {
        BoundingBox2D {
            min_col: min_u32(c1.col, c2.col),
            min_row: min_u32(c1.row, c2.row),
            max_col: max_u32(c1.col, c2.col),
            max_row: max_u32(c1.row, c2.row),
        }
    }

    pub open spec fn holds(self, cell: CellCoord) -> bool {
        &&& self.min_col <= cell.col <= self.max_col
        &&& self.min_row <= cell.row <= self.max_row
    }

    pub open spec fn overlaps(self, other: BoundingBox2D) -> bool {
        &&& self.min_col <= other.max_col
        &&& self.max_col >= other.min_col
        &&& self.min_row <= other.max_row
        &&& self.max_row >= other.min_row
    }

    pub fn new(c1: CellCoord, c2: CellCoord) -> (b: Self)
        ensures
            b == Self::spanning(c1, c2),
    {
        BoundingBox2D {
            min_col: if c1.col <= c2.col { c1.col } else { c2.col },
            min_row: if c1.row <= c2.row { c1.row } else { c2.row },
            max_col: if c1.col <= c2.col { c2.col } else { c1.col },
            max_row: if c1.row <= c2.row { c2.row } else { c1.row },
        }
    }

    pub fn contains(&self, cell: CellCoord) -> (r: bool)
        ensures
            r == self.holds(cell),
    {
        cell.col >= self.min_col && cell.col <= self.max_col && cell.row >= self.min_row
            && cell.row <= self.max_row
    }

    pub fn intersects(&self, other: &BoundingBox2D) -> (r: bool)
        ensures
            r == self.overlaps(*other),
    {
        self.min_col <= other.max_col && self.max_col >= other.min_col && self.min_row
            <= other.max_row && self.max_row >= other.min_row
    }
}

/// How the cells of a target range depend on a cell of the source range.
#[derive(Debug, Clone, Copy, PartialEq, Eq, Structural)]
pub enum LocalityType {
    /// Fixed-Fixed: every source cell feeds the whole target range.
    FF,
    /// Relative-Relative: a source cell feeds the cell at a fixed offset from it.
    RR { col_offset: i32, row_offset: i32 },
    /// Relative-Fixed: every source cell feeds one fixed cell.
    RF { target_col: u32, target_row: u32 },
    /// Fixed-Relative: every source cell feeds the whole target range.
    FR { source_col: u32, source_row: u32 },
}

/// A compressed dependency between a source range and a target range.
#[derive(Debug, Clone)]
pub struct TacoDependency {
    pub source_range: BoundingBox2D,
    pub target_range: BoundingBox2D,
    pub locality: LocalityType,
}

/// The cells of column `col` from row `lo` to row `hi`, top to bottom.
pub open spec fn column_cells(col: u32, lo: int, hi: int) -> Seq<CellCoord> {
    if hi < lo {
        Seq::empty()
    } else {
        Seq::new((hi - lo + 1) as nat, |k: int| CellCoord { col, row: (lo + k) as u32 })
    }
}

/// The cells of `b` in the columns before `end_col`, column by column.
pub open spec fn cells_before_col(b: BoundingBox2D, end_col: int) -> Seq<CellCoord>
    decreases end_col - b.min_col,
{
    if end_col <= b.min_col {
        Seq::empty()
    } else {
        cells_before_col(b, end_col - 1) + column_cells(
            (end_col - 1) as u32,
            b.min_row as int,
            b.max_row as int,
        )
    }
}

/// Every cell of `b`, column by column and top to bottom within a column.
pub open spec fn box_cells(b: BoundingBox2D) -> Seq<CellCoord> {
    cells_before_col(b, b.max_col + 1)
}

/// The column and row that a relative dependency reaches from `source`,
/// as mathematical integers (before any conversion back to `u32`).
pub open spec fn shifted_col(source: CellCoord, col_offset: i32) -> int {
    (source.col as i32) + col_offset
}

pub open spec fn shifted_row(source: CellCoord, row_offset: i32) -> int {
    (source.row as i32) + row_offset
}

impl TacoDependency {
    /// Resolution stays within `i32` arithmetic for `source`.
    pub open spec fn resolvable(self, source: CellCoord) -> bool {
        self.source_range.holds(source) ==> match self.locality {
            LocalityType::RR { col_offset, row_offset } => {
                &&& i32::MIN <= shifted_col(source, col_offset) <= i32::MAX
                &&& i32::MIN <= shifted_row(source, row_offset) <= i32::MAX
            },
            _ => true,
        }
    }

    /// The cells that depend on `source` under this dependency.
    pub open spec fn dependents(self, source: CellCoord) -> Option<Seq<CellCoord>> {
        if !self.source_range.holds(source) {
            None
        } else {
            match self.locality {
                LocalityType::FF => Some(box_cells(self.target_range)),
                LocalityType::FR { .. } => Some(box_cells(self.target_range)),
                LocalityType::RF { target_col, target_row } => Some(
                    seq![CellCoord { col: target_col, row: target_row }],
                ),
                LocalityType::RR { col_offset, row_offset } => {
                    let target = CellCoord {
                        col: shifted_col(source, col_offset) as i32 as u32,
                        row: shifted_row(source, row_offset) as i32 as u32,
                    };
                    if self.target_range.holds(target) {
                        Some(seq![target])
                    } else {
                        None
                    }
                },
            }
        }
    }

    /// Whether resolution from `source` stays within `i32` arithmetic (the
    /// test a caller makes before `resolve_dependencies`).
    pub fn is_resolvable(&self, source: CellCoord) -> (r: bool)
        ensures
            r == self.resolvable(source),
    {
        if !self.source_range.contains(source) {
            return true;
        }
        match self.locality {
            LocalityType::RR { col_offset, row_offset } => {
                let col: i64 = (source.col as i32) as i64 + col_offset as i64;
                let row: i64 = (source.row as i32) as i64 + row_offset as i64;
                let lo: i64 = -2147483648;
                let hi: i64 = 2147483647;
                lo <= col && col <= hi && lo <= row && row <= hi
            },
            _ => true,
        }
    }

    pub fn new(source: BoundingBox2D, target: BoundingBox2D, locality: LocalityType) -> (d: Self)
        ensures
            d.source_range == source,
            d.target_range == target,
            d.locality == locality,
    {
        TacoDependency { source_range: source, target_range: target, locality }
    }

    /// The cells of the target range in order, column by column.
    fn target_cells(&self) -> (v: Vec<CellCoord>)
        ensures
            v@ == box_cells(self.target_range),
    {
        let b = self.target_range;
        let mut targets: Vec<CellCoord> = Vec::new();
        if b.max_col < b.min_col {
            assert(box_cells(b) == Seq::<CellCoord>::empty());
            return targets;
        }
        let mut c: u32 = b.min_col;
        loop
            invariant
                b == self.target_range,
                b.min_col <= c <= b.max_col,
                targets@ == cells_before_col(b, c as int),
            decreases b.max_col - c,
        {
            let mut r: u32 = b.min_row;
            if b.min_row <= b.max_row {
                loop
                    invariant_except_break
                        b.min_row <= r <= b.max_row,
                        targets@ == cells_before_col(b, c as int) + column_cells(
                            c,
                            b.min_row as int,
                            r - 1,
                        ),
                    invariant
                        b == self.target_range,
                        b.min_col <= c <= b.max_col,
                    ensures
                        targets@ == cells_before_col(b, c as int) + column_cells(
                            c,
                            b.min_row as int,
                            b.max_row as int,
                        ),
                    decreases b.max_row - r,
                {
                    targets.push(CellCoord { col: c, row: r });
                    assert(column_cells(c, b.min_row as int, r as int) =~= column_cells(
                        c,
                        b.min_row as int,
                        r - 1,
                    ).push(CellCoord { col: c, row: r }));
                    if r == b.max_row {
                        break;
                    }
                    r = r + 1;
                }
            } else {
                assert(column_cells(c, b.min_row as int, b.max_row as int) =~= Seq::empty());
                assert(targets@ =~= cells_before_col(b, c as int) + column_cells(
                    c,
                    b.min_row as int,
                    b.max_row as int,
                ));
            }
            assert(targets@ =~= cells_before_col(b, c + 1));
            if c == b.max_col {
                return targets;
            }
            c = c + 1;
        }
    }

    /// The cells that depend on `source`, or `None` when `source` lies outside
    /// the source range (or a relative target falls outside the target range).
    pub fn resolve_dependencies(&self, source: CellCoord) -> (res: Option<Vec<CellCoord>>)
        requires
            self.resolvable(source),
        ensures
            res matches Some(v) ==> self.dependents(source) == Some(v@),
            res is None ==> self.dependents(source) is None,
    {
        if !self.source_range.contains(source) {
            return None;
        }
        match self.locality {
            LocalityType::FF => Some(self.target_cells()),
            LocalityType::RR { col_offset, row_offset } => {
                let target_col = (source.col as i32 + col_offset) as u32;
                let target_row = (source.row as i32 + row_offset) as u32;
                let target = CellCoord { col: target_col, row: target_row };
                if self.target_range.contains(target) {
                    Some(vec![target])
                } else {
                    None
                }
            },
            LocalityType::RF { target_col, target_row } => {
                Some(vec![CellCoord { col: target_col, row: target_row }])
            },
            LocalityType::FR { source_col: _, source_row: _ } => Some(self.target_cells()),
        }
    }
}

/// The cells reached by `deps` from `cell`, dependency by dependency, in
/// insertion order; dependencies that do not apply contribute nothing.
pub open spec fn query_cells(deps: Seq<TacoDependency>, cell: CellCoord) -> Seq<CellCoord>
    decreases deps.len(),
{
    if deps.len() == 0 {
        Seq::empty()
    } else {
        query_cells(deps.drop_last(), cell) + match deps.last().dependents(cell) {
            Some(cells) => cells,
            None => Seq::empty(),
        }
    }
}

/// All dependencies of a sheet, queried by source cell.
#[derive(Debug)]
pub struct TacoSpatialIndex {
    pub dependencies: Vec<TacoDependency>,
}

impl Default for TacoSpatialIndex {
    fn default() -> (index: Self)
        ensures
            index.dependencies@ == Seq::<TacoDependency>::empty(),
    {
        TacoSpatialIndex { dependencies: Vec::new() }
    }
}

impl TacoSpatialIndex {
    /// Every dependency can be resolved from `cell` without overflow.
    pub open spec fn resolvable(self, cell: CellCoord) -> bool {
        forall|i: int| 0 <= i < self.dependencies@.len() ==> #[trigger] self.dependencies@[i].resolvable(cell)
    }

    pub fn insert(&mut self, dep: TacoDependency)
        ensures
            final(self).dependencies@ == old(self).dependencies@.push(dep),
    {
        self.dependencies.push(dep);
    }

    /// Whether every dependency can be resolved from `cell` without overflow
    /// (the test a caller makes before `query`).
    pub fn is_resolvable(&self, cell: CellCoord) -> (r: bool)
        ensures
            r == self.resolvable(cell),
    {
        let n = self.dependencies.len();
        let mut i: usize = 0;
        while i < n
            invariant
                n == self.dependencies@.len(),
                i <= n,
                forall|j: int| 0 <= j < i ==> #[trigger] self.dependencies@[j].resolvable(cell),
            decreases n - i,
        {
            if !self.dependencies[i].is_resolvable(cell) {
                return false;
            }
            i = i + 1;
        }
        true
    }

    /// The cells that depend on `cell`, over all dependencies in insertion order.
    pub fn query(&self, cell: CellCoord) -> (results: Vec<CellCoord>)
        requires
            self.resolvable(cell),
        ensures
            results@ == query_cells(self.dependencies@, cell),
    {
        let mut results: Vec<CellCoord> = Vec::new();
        let n = self.dependencies.len();
        let mut i: usize = 0;
        while i < n
            invariant
                n == self.dependencies@.len(),
                i <= n,
                self.resolvable(cell),
                results@ == query_cells(self.dependencies@.take(i as int), cell),
            decreases n - i,
        {
            let dep = &self.dependencies[i];
            assert(self.dependencies@[i as int].resolvable(cell));
            assert(self.dependencies@.take(i + 1).drop_last() =~= self.dependencies@.take(i as int));
            if let Some(mut resolved) = dep.resolve_dependencies(cell) {
                results.append(&mut resolved);
            }
            i = i + 1;
        }
        assert(self.dependencies@.take(n as int) =~= self.dependencies@);
        results
    }
}

} // verus!
