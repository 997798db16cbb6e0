//! The replication pattern: a rectangular grid of `columns x rows` offsets,
//! each a multiple of a fixed spatial step along two axes.  The `(0, 0)` cell
//! is always the original entity and is never duplicated.

use crate::entity::{Entity, Vec3};
use vstd::prelude::*;

verus! {

/// A replication pattern.  A source entity yields one duplicate per grid
/// cell except the origin cell, so `columns * rows - 1` duplicates in all.
#[derive(Clone, Copy, PartialEq, Eq, Structural, Debug)]
pub struct Pattern {
    /// Cells along the x axis.
    pub columns: u32,
    /// Cells along the y axis.
    pub rows: u32,
    /// The spatial step between neighbouring cells, in integer world units.
    pub step: i64,
    /// One observed pipeline variant freezes the source entity before
    /// duplicating it; the duplicates then inherit the flag.
    pub freeze_source: bool,
}

/// A well-formed pattern has at least the origin cell in each direction.
pub open spec fn pattern_wf(p: Pattern) -> bool {
    1 <= p.columns && 1 <= p.rows
}

/// The number of grid cells, the origin included.
pub open spec fn cells(p: Pattern) -> int {
    p.columns * p.rows
}

/// The number of duplicates each source entity yields.
pub open spec fn dups_per_entity(p: Pattern) -> int {
    cells(p) - 1
}

/// The column of the cell with flat index `t`, enumerating the grid column
/// by column (the origin cell has flat index 0).
pub open spec fn cell_col(p: Pattern, t: int) -> int {
    t / (p.rows as int)
}

/// The row of the cell with flat index `t`.
pub open spec fn cell_row(p: Pattern, t: int) -> int {
    t % (p.rows as int)
}

/// Where a location lands when translated to the cell `(col, row)`.
pub open spec fn translated(loc: Vec3, p: Pattern, col: int, row: int) -> Vec3 {
    Vec3 { x: (loc.x + p.step * col) as i64, y: (loc.y + p.step * row) as i64, z: loc.z }
}

/// Every translation of `loc` over the pattern's cells stays within `i64`.
/// The offsets grow monotonically with the cell coordinates, so bounding the
/// farthest cell bounds them all.
pub open spec fn translation_fits(loc: Vec3, p: Pattern) -> bool {
    &&& i64::MIN <= p.step * (p.columns - 1) <= i64::MAX
    &&& i64::MIN <= p.step * (p.rows - 1) <= i64::MAX
    &&& i64::MIN <= loc.x + p.step * (p.columns - 1) <= i64::MAX
    &&& i64::MIN <= loc.y + p.step * (p.rows - 1) <= i64::MAX
}

/// The source entity as the pattern leaves it in place: one pipeline variant
/// sets the frozen flag on the original before duplication.
pub open spec fn placed_source(e: Entity, p: Pattern) -> Entity {
    Entity { frozen: e.frozen || p.freeze_source, ..e }
}

/// The duplicate of `src` for the cell with flat index `t` (`1 <= t <
/// cells(p)`), carrying the freshly allocated identity `id`: a value copy
/// with its location translated to the cell, the identity replaced, and the
/// payload and frozen flag of the placed source kept.
pub open spec fn duplicate_at(src: Entity, p: Pattern, t: int, id: int) -> Entity {
    Entity {
        id: Some(id as u32),
        location: translated(src.location, p, cell_col(p, t), cell_row(p, t)),
        ..placed_source(src, p)
    }
}

/// An offset multiple `step * c` and its translation both stay within `i64`
/// for every cell coordinate up to the farthest one.
pub proof fn lemma_step_in_range(step: int, c: int, cmax: int, base: int)
    requires
        0 <= c <= cmax,
        i64::MIN <= step * cmax <= i64::MAX,
        i64::MIN <= base + step * cmax <= i64::MAX,
        i64::MIN <= base <= i64::MAX,
    ensures
        i64::MIN <= step * c <= i64::MAX,
        i64::MIN <= base + step * c <= i64::MAX,
{
    assert(i64::MIN <= step * c <= i64::MAX && i64::MIN <= base + step * c <= i64::MAX)
        by (nonlinear_arith)
        requires
            0 <= c <= cmax,
            i64::MIN <= step * cmax <= i64::MAX,
            i64::MIN <= base + step * cmax <= i64::MAX,
            i64::MIN <= base <= i64::MAX,
    ;
}

} // verus!
