//! Read-only per-column data: the values of the fixed columns and the
//! metadata of the witness columns.

use vstd::prelude::*;
use crate::field::FP;

verus! {

/// Metadata of one witness column.
#[derive(Clone, Copy, PartialEq, Eq, Structural, Debug)]
pub struct WitnessColumnInfo {
    /// Whether the column has a prover query attached, answered by an
    /// external oracle.
    pub has_query: bool,
}

/// One fixed column: a given value for every row, repeated cyclically.
#[derive(Debug)]
pub struct FixedColumn {
    /// The column's values over one period.
    pub values: Vec<u64>,
}

/// The static data of all columns.
#[derive(Debug)]
pub struct FixedData {
    /// Metadata of every witness column, indexed by witness column id.
    pub witness_cols: Vec<WitnessColumnInfo>,
    /// Every fixed column, indexed by fixed column id.
    pub fixed_cols: Vec<FixedColumn>,
}

impl FixedData {
    /// Well-formedness: fixed columns are non-empty with reduced values, and
    /// the witness column count leaves room for the dense affine slots.
    pub open spec fn wf(&self) -> bool {
        &&& 2 * self.witness_cols@.len() <= usize::MAX
        &&& forall|i: int|
            0 <= i < self.fixed_cols@.len() ==> #[trigger] self.fixed_cols@[i].values@.len() > 0
        &&& forall|i: int, j: int|
            0 <= i < self.fixed_cols@.len() && 0 <= j < self.fixed_cols@[i].values@.len()
                ==> #[trigger] self.fixed_cols@[i].values@[j] < FP
    }

    /// Number of witness columns.
    pub open spec fn n_cols(&self) -> int {
        self.witness_cols@.len() as int
    }

    /// Number of fixed columns.
    pub open spec fn n_fixed(&self) -> int {
        self.fixed_cols@.len() as int
    }

    /// The value of fixed column `id` at global row `row`.
    pub open spec fn spec_fixed_value(&self, id: int, row: int) -> int {
        self.fixed_cols@[id].values@[row % self.fixed_cols@[id].values@.len() as int] as int
    }

    /// The value of fixed column `id` at global row `row`.
    pub fn fixed_value(&self, id: usize, row: u64) -> (r: u64)
        requires
            self.wf(),
            id < self.n_fixed(),
        ensures
            r == self.spec_fixed_value(id as int, row as int),
            r < FP,
    {
        let len = self.fixed_cols[id].values.len();
        self.fixed_cols[id].values[(row % (len as u64)) as usize]
    }
}

} // verus!
