//! Column identifiers and per-cell value states.

use vstd::prelude::*;
use crate::field::FP;

verus! {

/// Whether a column is a witness column (solved for) or a fixed/intermediate
/// column (given, never solved for).
#[derive(Clone, Copy, PartialEq, Eq, Structural, Debug)]
pub enum PolyType {
    /// A witness column.
    Committed,
    /// A fixed or intermediate column.
    Constant,
}

/// Uniquely names a column and tags its kind. Witness and fixed columns are
/// numbered independently, each from zero.
#[derive(Clone, Copy, PartialEq, Eq, Structural, Debug)]
pub struct PolyId {
    /// Index of the column among the columns of its kind.
    pub id: usize,
    /// The column's kind.
    pub ptype: PolyType,
}

/// A reference to a column in either the current row (`next == false`) or
/// the next row (`next == true`).
#[derive(Clone, Copy, PartialEq, Eq, Structural, Debug)]
pub struct ColRef {
    /// The referenced column.
    pub poly_id: PolyId,
    /// Whether the reference is to the next row.
    pub next: bool,
}

/// An inclusive range a cell value is known to lie in.
#[derive(Clone, Copy, PartialEq, Eq, Structural, Debug)]
pub struct RangeConstraint {
    /// Smallest admissible value.
    pub min: u64,
    /// Largest admissible value.
    pub max: u64,
}

/// The state of one cell of one row.
#[derive(Clone, Copy, PartialEq, Eq, Structural, Debug)]
pub enum CellValue {
    /// The cell's value is concretely known.
    Known(u64),
    /// The cell's value is only known to lie in a range.
    RangeConstraint(RangeConstraint),
    /// Nothing is known of the cell's value.
    Unknown,
}

/// A cell is valid when a known value is a reduced field representative.
pub open spec fn cell_valid(c: CellValue) -> bool {
    c matches CellValue::Known(v) ==> v < FP
}

impl CellValue {
    /// Whether the cell's value is concretely known.
    pub fn is_known(&self) -> (r: bool)
        ensures
            r == (self is Known),
    {
        match self {
            CellValue::Known(_) => true,
            _ => false,
        }
    }
}

/// The atomic output of evaluation, tied to one column reference: either a
/// concrete assignment or a derived range constraint.
#[derive(Clone, Copy, PartialEq, Eq, Structural, Debug)]
pub enum Constraint {
    /// The referenced cell must take this value.
    Assignment(u64),
    /// The referenced cell must lie in this range.
    RangeConstraint(RangeConstraint),
}

/// What an update does to one cell.
///
/// An assignment makes the cell known; a range constraint refines an unknown
/// or range-constrained cell and leaves a known cell alone. Intersecting two
/// ranges keeps the tighter bound on each side.
pub open spec fn spec_apply_cell(cell: CellValue, c: Constraint) -> CellValue {
    match c {
        Constraint::Assignment(v) => CellValue::Known(v),
        Constraint::RangeConstraint(rc) => match cell {
            CellValue::Known(w) => CellValue::Known(w),
            CellValue::Unknown => CellValue::RangeConstraint(rc),
            CellValue::RangeConstraint(old) => CellValue::RangeConstraint(RangeConstraint {
                min: if old.min >= rc.min { old.min } else { rc.min },
                max: if old.max <= rc.max { old.max } else { rc.max },
            }),
        },
    }
}

/// Applying the same derived assignment twice to the same cell is
/// idempotent: the second application changes nothing, so it reports no
/// further progress.
pub proof fn lemma_assignment_idempotent(cell: CellValue, v: u64)
    ensures
        spec_apply_cell(spec_apply_cell(cell, Constraint::Assignment(v)), Constraint::Assignment(v))
            == spec_apply_cell(cell, Constraint::Assignment(v)),
        spec_apply_cell(spec_apply_cell(cell, Constraint::Assignment(v)), Constraint::Assignment(v))
            == CellValue::Known(v),
{
}

/// Applies one constraint to one cell and reports whether the cell changed.
pub fn apply_cell(cell: &mut CellValue, c: &Constraint) -> (changed: bool)
    ensures
        *final(cell) == spec_apply_cell(*old(cell), *c),
        changed == (*final(cell) != *old(cell)),
{
    let updated = match c {
        Constraint::Assignment(v) => CellValue::Known(*v),
        Constraint::RangeConstraint(rc) => match *cell {
            CellValue::Known(w) => CellValue::Known(w),
            CellValue::Unknown => CellValue::RangeConstraint(*rc),
            CellValue::RangeConstraint(old_rc) => CellValue::RangeConstraint(RangeConstraint {
                min: if old_rc.min >= rc.min { old_rc.min } else { rc.min },
                max: if old_rc.max <= rc.max { old_rc.max } else { rc.max },
            }),
        },
    };
    let changed = updated != *cell;
    *cell = updated;
    changed
}

} // verus!
