//! Rows, the finalizable row window, and the row-pair evaluator that turns
//! an algebraic expression into an affine form over the remaining unknowns.

use vstd::prelude::*;
use crate::affine::{
    av, av_add, av_const, av_is_const, av_scale, av_sub, av_unit, affine_valid, spec_affine_key,
    spec_is_constant, AffineExpression, AffineV,
};
use crate::columns::{cell_valid, spec_apply_cell, CellValue, ColRef, Constraint, PolyType};
use crate::expression::{expr_in_range, Expression};
use crate::field::FP;
use crate::fixed_data::FixedData;

verus! {

/// How evaluation treats an unknown cell.
#[derive(Clone, Copy, PartialEq, Eq, Structural, Debug)]
pub enum UnknownStrategy {
    /// Unknown cells become symbols that may be solved for.
    Unknown,
    /// Unknown cells are treated as zero (check-only evaluation).
    Zero,
}

/// Why an expression could not be evaluated to an affine form. This is a
/// recoverable "not yet" signal, not a hard failure.
#[derive(Clone, Copy, PartialEq, Eq, Structural, Debug)]
pub enum IncompleteCause {
    /// A product of two expressions that both still hold unknowns.
    QuadraticTerm,
}

/// One row of the window: a cell value for every witness column.
#[derive(Debug)]
pub struct Row {
    /// The cell values, indexed by witness column id.
    pub cells: Vec<CellValue>,
}

/// Validity of a row over `n_cols` witness columns.
pub open spec fn row_valid(r: Row, n_cols: int) -> bool {
    &&& r.cells@.len() == n_cols
    &&& forall|i: int| 0 <= i < r.cells@.len() ==> cell_valid(#[trigger] r.cells@[i])
}

impl Row {
    /// A fresh row with every cell unknown.
    pub fn unknown(n_cols: usize) -> (r: Row)
        ensures
            row_valid(r, n_cols as int),
            forall|i: int| 0 <= i < n_cols ==> #[trigger] r.cells@[i] == CellValue::Unknown,
    {
        let mut cells: Vec<CellValue> = Vec::new();
        let mut i: usize = 0;
        while i < n_cols
            invariant
                i <= n_cols,
                cells@.len() == i,
                forall|j: int| 0 <= j < i ==> #[trigger] cells@[j] == CellValue::Unknown,
            decreases n_cols - i,
        {
            cells.push(CellValue::Unknown);
            i = i + 1;
        }
        Row { cells }
    }

    /// An identical copy of the row.
    pub fn duplicate(&self) -> (r: Row)
        ensures
            r.cells@ == self.cells@,
    {
        let n = self.cells.len();
        let mut cells: Vec<CellValue> = Vec::new();
        let mut i: usize = 0;
        while i < n
            invariant
                i <= n,
                n == self.cells@.len(),
                cells@.len() == i,
                forall|j: int| 0 <= j < i ==> #[trigger] cells@[j] == self.cells@[j],
            decreases n - i,
        {
            cells.push(self.cells[i]);
            i = i + 1;
        }
        proof {
            assert(cells@ =~= self.cells@);
        }
        Row { cells }
    }

    /// Applies one constraint to the cell of column `col` and reports
    /// whether the cell changed.
    pub fn apply_update(&mut self, col: usize, c: &Constraint) -> (changed: bool)
        requires
            col < old(self).cells@.len(),
        ensures
            final(self).cells@ == old(self).cells@.update(
                col as int,
                spec_apply_cell(old(self).cells@[col as int], *c),
            ),
            changed == (final(self).cells@[col as int] != old(self).cells@[col as int]),
    {
        let mut cell = self.cells[col];
        let changed = crate::columns::apply_cell(&mut cell, c);
        self.cells[col] = cell;
        changed
    }
}

/// The known cells of a row, as (column id, value) pairs in column order —
/// the diagnostic snapshot embedded in an identity violation error.
pub open spec fn spec_known_values(cells: Seq<CellValue>, n: int) -> Seq<(usize, u64)>
    decreases n,
{
    if n <= 0 {
        Seq::empty()
    } else {
        spec_known_values(cells, n - 1) + (match cells[n - 1] {
            CellValue::Known(v) => seq![(((n - 1) as usize), v)],
            _ => Seq::empty(),
        })
    }
}

/// The known cells of a row, as (column id, value) pairs in column order.
pub fn row_known_values(r: &Row) -> (out: Vec<(usize, u64)>)
    ensures
        out@ == spec_known_values(r.cells@, r.cells@.len() as int),
{
    let n = r.cells.len();
    let mut out: Vec<(usize, u64)> = Vec::new();
    let mut i: usize = 0;
    while i < n
        invariant
            i <= n,
            n == r.cells@.len(),
            out@ == spec_known_values(r.cells@, i as int),
        decreases n - i,
    {
        match r.cells[i] {
            CellValue::Known(v) => {
                out.push((i, v));
            },
            _ => {},
        }
        proof {
            assert(spec_known_values(r.cells@, i + 1 as int) == spec_known_values(
                r.cells@,
                i as int,
            ) + (match r.cells@[i as int] {
                CellValue::Known(v) => seq![((i as usize), v)],
                _ => Seq::<(usize, u64)>::empty(),
            }));
            assert(out@ =~= spec_known_values(r.cells@, i + 1 as int));
        }
        i = i + 1;
    }
    out
}

/// A window of rows that can be grown row by row and whose resolved prefix
/// can be marked immutable ("finalized").
#[derive(Debug)]
pub struct FinalizableData {
    /// The rows, indexed by local row number.
    pub rows: Vec<Row>,
    /// Whether each row has been finalized.
    pub finalized: Vec<bool>,
}

impl FinalizableData {
    /// Well-formedness over `n_cols` witness columns.
    pub open spec fn wf(&self, n_cols: int) -> bool {
        &&& self.rows@.len() == self.finalized@.len()
        &&& forall|i: int| 0 <= i < self.rows@.len() ==> row_valid(#[trigger] self.rows@[i], n_cols)
    }

    /// An empty window.
    pub fn new() -> (r: FinalizableData)
        ensures
            r.rows@.len() == 0,
            r.finalized@.len() == 0,
    {
        FinalizableData { rows: Vec::new(), finalized: Vec::new() }
    }

    /// Number of rows in the window.
    pub fn len(&self) -> (r: usize)
        ensures
            r == self.rows@.len(),
    {
        self.rows.len()
    }

    /// Appends a row, not yet finalized.
    pub fn push(&mut self, row: Row)
        ensures
            final(self).rows@ == old(self).rows@.push(row),
            final(self).finalized@ == old(self).finalized@.push(false),
    {
        self.rows.push(row);
        self.finalized.push(false);
    }

    /// Applies one constraint to the cell of column `col` in row `row` and
    /// reports whether the cell changed.
    pub fn apply_update(&mut self, row: usize, col: usize, c: &Constraint) -> (changed: bool)
        requires
            row < old(self).rows@.len(),
            col < old(self).rows@[row as int].cells@.len(),
        ensures
            final(self).rows@.len() == old(self).rows@.len(),
            final(self).rows@[row as int].cells@ == old(self).rows@[row as int].cells@.update(
                col as int,
                spec_apply_cell(old(self).rows@[row as int].cells@[col as int], *c),
            ),
            forall|i: int|
                0 <= i < final(self).rows@.len() && i != row ==> #[trigger] final(self).rows@[i]
                    == old(self).rows@[i],
            final(self).finalized@ == old(self).finalized@,
            changed == (final(self).rows@[row as int].cells@[col as int] != old(
                self,
            ).rows@[row as int].cells@[col as int]),
    {
        let r = &mut self.rows[row];
        let changed = r.apply_update(col, c);
        changed
    }

    /// Resets one cell to unknown. This is the only path that regresses a
    /// cell from known back to unknown; it serves the explicit undo of stale
    /// forced inputs.
    pub fn set_cell_unknown(&mut self, row: usize, col: usize)
        requires
            row < old(self).rows@.len(),
            col < old(self).rows@[row as int].cells@.len(),
        ensures
            final(self).rows@.len() == old(self).rows@.len(),
            final(self).rows@[row as int].cells@ == old(self).rows@[row as int].cells@.update(
                col as int,
                CellValue::Unknown,
            ),
            forall|i: int|
                0 <= i < final(self).rows@.len() && i != row ==> #[trigger] final(self).rows@[i]
                    == old(self).rows@[i],
            final(self).finalized@ == old(self).finalized@,
    {
        let r = &mut self.rows[row];
        r.cells[col] = CellValue::Unknown;
    }

    /// Marks the rows of `[start, end)` as finalized.
    pub fn finalize_range(&mut self, start: usize, end: usize)
        requires
            start <= end,
            end <= old(self).rows@.len(),
            old(self).rows@.len() == old(self).finalized@.len(),
        ensures
            final(self).rows@ == old(self).rows@,
            final(self).finalized@.len() == old(self).finalized@.len(),
            forall|i: int|
                0 <= i < final(self).finalized@.len() ==> #[trigger] final(self).finalized@[i] == (
                if start <= i < end {
                    true
                } else {
                    old(self).finalized@[i]
                }),
    {
        let mut i: usize = start;
        while i < end
            invariant
                start <= i <= end,
                end <= self.finalized@.len(),
                self.rows@ == old(self).rows@,
                self.finalized@.len() == old(self).finalized@.len(),
                forall|j: int|
                    0 <= j < self.finalized@.len() ==> #[trigger] self.finalized@[j] == (if start
                        <= j < i {
                        true
                    } else {
                        old(self).finalized@[j]
                    }),
            decreases end - i,
        {
            self.finalized[i] = true;
            i = i + 1;
        }
    }
}

/// The cell a committed column reference denotes in a view of a current row
/// and an optional next row. A next-row reference of a single-row view
/// denotes an unknown cell.
pub open spec fn spec_cell_of(
    current: Seq<CellValue>,
    next: Option<Seq<CellValue>>,
    c: ColRef,
) -> CellValue {
    if c.next {
        match next {
            Some(r) => r[c.poly_id.id as int],
            None => CellValue::Unknown,
        }
    } else {
        current[c.poly_id.id as int]
    }
}

/// The affine form of an expression over a view of two adjacent rows (or one
/// row) at global row `row`: known and fixed cells become constants; unknown
/// cells become symbols (or zero, under the check-only strategy); a product
/// of two forms that both hold unknowns cannot be evaluated.
pub open spec fn spec_eval(
    current: Seq<CellValue>,
    next: Option<Seq<CellValue>>,
    row: u64,
    fixed_data: FixedData,
    unknown_strategy: UnknownStrategy,
    e: Expression,
) -> Result<AffineV, IncompleteCause>
    decreases e,
{
    let len = 2 * fixed_data.n_cols();
    match e {
        Expression::Number(n) => Ok(av_const(len, n as int)),
        Expression::Reference(c) => match c.poly_id.ptype {
            PolyType::Constant => Ok(
                av_const(
                    len,
                    fixed_data.spec_fixed_value(
                        c.poly_id.id as int,
                        row + (if c.next {
                            1int
                        } else {
                            0int
                        }),
                    ),
                ),
            ),
            PolyType::Committed => match spec_cell_of(current, next, c) {
                CellValue::Known(v) => Ok(av_const(len, v as int)),
                _ => {
                    if unknown_strategy is Zero {
                        Ok(av_const(len, 0))
                    } else {
                        Ok(av_unit(len, spec_affine_key(c)))
                    }
                },
            },
        },
        Expression::Add(a, b) => match (
            spec_eval(current, next, row, fixed_data, unknown_strategy, *a),
            spec_eval(current, next, row, fixed_data, unknown_strategy, *b),
        ) {
            (Ok(x), Ok(y)) => Ok(av_add(x, y)),
            (Err(c), _) => Err(c),
            (_, Err(c)) => Err(c),
        },
        Expression::Sub(a, b) => match (
            spec_eval(current, next, row, fixed_data, unknown_strategy, *a),
            spec_eval(current, next, row, fixed_data, unknown_strategy, *b),
        ) {
            (Ok(x), Ok(y)) => Ok(av_sub(x, y)),
            (Err(c), _) => Err(c),
            (_, Err(c)) => Err(c),
        },
        Expression::Mul(a, b) => match (
            spec_eval(current, next, row, fixed_data, unknown_strategy, *a),
            spec_eval(current, next, row, fixed_data, unknown_strategy, *b),
        ) {
            (Ok(x), Ok(y)) => {
                if av_is_const(x) {
                    Ok(av_scale(y, x.offset))
                } else if av_is_const(y) {
                    Ok(av_scale(x, y.offset))
                } else {
                    Err(IncompleteCause::QuadraticTerm)
                }
            },
            (Err(c), _) => Err(c),
            (_, Err(c)) => Err(c),
        },
    }
}

/// A successful evaluation yields one coefficient slot per witness column
/// and row offset.
pub proof fn lemma_spec_eval_len(
    current: Seq<CellValue>,
    next: Option<Seq<CellValue>>,
    row: u64,
    fixed_data: FixedData,
    unknown_strategy: UnknownStrategy,
    e: Expression,
)
    ensures
        spec_eval(current, next, row, fixed_data, unknown_strategy, e) matches Ok(x) ==> x.coeffs.len()
            == 2 * fixed_data.n_cols(),
    decreases e,
{
    match e {
        Expression::Number(_) => {},
        Expression::Reference(_) => {},
        Expression::Add(a, b) => {
            lemma_spec_eval_len(current, next, row, fixed_data, unknown_strategy, *a);
            lemma_spec_eval_len(current, next, row, fixed_data, unknown_strategy, *b);
        },
        Expression::Sub(a, b) => {
            lemma_spec_eval_len(current, next, row, fixed_data, unknown_strategy, *a);
            lemma_spec_eval_len(current, next, row, fixed_data, unknown_strategy, *b);
        },
        Expression::Mul(a, b) => {
            lemma_spec_eval_len(current, next, row, fixed_data, unknown_strategy, *a);
            lemma_spec_eval_len(current, next, row, fixed_data, unknown_strategy, *b);
        },
    }
}

/// Two adjacent rows (or a single row) under an unknown strategy: the view an
/// expression is evaluated against. `current_row_index` is the global number
/// of the current row.
pub struct RowPair<'a> {
    /// The current row.
    pub current: &'a Row,
    /// The next row, absent for a single-row view.
    pub next: Option<&'a Row>,
    /// The global row number of the current row.
    pub current_row_index: u64,
    /// The static column data.
    pub fixed_data: &'a FixedData,
    /// How unknown cells are treated.
    pub unknown_strategy: UnknownStrategy,
}

impl<'a> RowPair<'a> {
    /// Well-formedness of the view.
    pub open spec fn wf(&self) -> bool {
        &&& self.fixed_data.wf()
        &&& row_valid(*self.current, self.fixed_data.n_cols())
        &&& (self.next matches Some(r) ==> row_valid(*r, self.fixed_data.n_cols()))
        &&& self.current_row_index < u64::MAX
    }

    /// Number of witness columns.
    pub open spec fn n_cols(&self) -> int {
        self.fixed_data.n_cols()
    }

    /// A view of two adjacent rows.
    pub fn new(
        current: &'a Row,
        next: &'a Row,
        current_row_index: u64,
        fixed_data: &'a FixedData,
        unknown_strategy: UnknownStrategy,
    ) -> (r: RowPair<'a>)
        ensures
            r.current == current,
            r.next == Some(next),
            r.current_row_index == current_row_index,
            r.fixed_data == fixed_data,
            r.unknown_strategy == unknown_strategy,
    {
        RowPair { current, next: Some(next), current_row_index, fixed_data, unknown_strategy }
    }

    /// A view of a single row; the next row is never accessed.
    pub fn from_single_row(
        current: &'a Row,
        current_row_index: u64,
        fixed_data: &'a FixedData,
        unknown_strategy: UnknownStrategy,
    ) -> (r: RowPair<'a>)
        ensures
            r.current == current,
            r.next is None,
            r.current_row_index == current_row_index,
            r.fixed_data == fixed_data,
            r.unknown_strategy == unknown_strategy,
    {
        RowPair { current, next: None, current_row_index, fixed_data, unknown_strategy }
    }

    /// The cell a committed column reference denotes. A reference to the
    /// next row of a single-row view denotes an unknown cell.
    pub open spec fn spec_cell(&self, c: ColRef) -> CellValue {
        spec_cell_of(
            self.current.cells@,
            match self.next {
                Some(r) => Some(r.cells@),
                None => None,
            },
            c,
        )
    }

    /// The affine form of an expression under this view; see [`spec_eval`].
    pub open spec fn spec_evaluate(&self, e: Expression) -> Result<AffineV, IncompleteCause> {
        spec_eval(
            self.current.cells@,
            match self.next {
                Some(r) => Some(r.cells@),
                None => None,
            },
            self.current_row_index,
            *self.fixed_data,
            self.unknown_strategy,
            e,
        )
    }

    /// Evaluates an expression into an affine form over the remaining
    /// unknowns, exactly as [`RowPair::spec_evaluate`] states.
    pub fn evaluate(&self, e: &Expression) -> (r: Result<AffineExpression, IncompleteCause>)
        requires
            self.wf(),
            expr_in_range(*e, self.n_cols(), self.fixed_data.n_fixed()),
        ensures
            r matches Ok(a) ==> self.spec_evaluate(*e) == Ok::<AffineV, IncompleteCause>(av(a))
                && affine_valid(a, self.n_cols()),
            r matches Err(c) ==> self.spec_evaluate(*e) == Err::<AffineV, IncompleteCause>(c),
            self.unknown_strategy is Zero && r is Ok ==> spec_is_constant(r->Ok_0),
        decreases *e,
    {
        let n_cols = self.fixed_data.witness_cols.len();
        match e {
            Expression::Number(n) => {
                let a = AffineExpression::constant(*n, n_cols);
                proof {
                    assert(av(a) =~= av_const(2 * self.n_cols(), *n as int));
                }
                Ok(a)
            },
            Expression::Reference(c) => {
                match c.poly_id.ptype {
                    PolyType::Constant => {
                        let row = if c.next {
                            self.current_row_index + 1
                        } else {
                            self.current_row_index
                        };
                        let v = self.fixed_data.fixed_value(c.poly_id.id, row);
                        let a = AffineExpression::constant(v, n_cols);
                        proof {
                            assert(av(a) =~= av_const(2 * self.n_cols(), v as int));
                        }
                        Ok(a)
                    },
                    PolyType::Committed => {
                        let cell = if c.next {
                            match self.next {
                                Some(r) => r.cells[c.poly_id.id],
                                None => CellValue::Unknown,
                            }
                        } else {
                            self.current.cells[c.poly_id.id]
                        };
                        match cell {
                            CellValue::Known(v) => {
                                let a = AffineExpression::constant(v, n_cols);
                                proof {
                                    assert(av(a) =~= av_const(2 * self.n_cols(), v as int));
                                }
                                Ok(a)
                            },
                            _ => match self.unknown_strategy {
                                UnknownStrategy::Zero => {
                                    let a = AffineExpression::constant(0, n_cols);
                                    proof {
                                        assert(av(a) =~= av_const(2 * self.n_cols(), 0));
                                    }
                                    Ok(a)
                                },
                                UnknownStrategy::Unknown => {
                                    let a = AffineExpression::from_unknown(*c, n_cols);
                                    proof {
                                        assert(av(a) =~= av_unit(
                                            2 * self.n_cols(),
                                            spec_affine_key(*c),
                                        ));
                                    }
                                    Ok(a)
                                },
                            },
                        }
                    },
                }
            },
            Expression::Add(a, b) => {
                let x = match self.evaluate(a) {
                    Ok(x) => x,
                    Err(c) => {
                        return Err(c);
                    },
                };
                let y = match self.evaluate(b) {
                    Ok(y) => y,
                    Err(c) => {
                        return Err(c);
                    },
                };
                let s = x.plus(&y);
                proof {
                    assert(av(s) =~= av_add(av(x), av(y)));
                    if self.unknown_strategy is Zero {
                        assert forall|i: int| 0 <= i < s.coefficients@.len() implies #[trigger] s.coefficients@[i] == 0 by {
                            assert(x.coefficients@[i] == 0);
                            assert(y.coefficients@[i] == 0);
                        }
                    }
                }
                Ok(s)
            },
            Expression::Sub(a, b) => {
                let x = match self.evaluate(a) {
                    Ok(x) => x,
                    Err(c) => {
                        return Err(c);
                    },
                };
                let y = match self.evaluate(b) {
                    Ok(y) => y,
                    Err(c) => {
                        return Err(c);
                    },
                };
                let s = x.minus(&y);
                proof {
                    assert(av(s) =~= av_sub(av(x), av(y)));
                    if self.unknown_strategy is Zero {
                        assert forall|i: int| 0 <= i < s.coefficients@.len() implies #[trigger] s.coefficients@[i] == 0 by {
                            assert(x.coefficients@[i] == 0);
                            assert(y.coefficients@[i] == 0);
                        }
                    }
                }
                Ok(s)
            },
            Expression::Mul(a, b) => {
                let x = match self.evaluate(a) {
                    Ok(x) => x,
                    Err(c) => {
                        return Err(c);
                    },
                };
                let y = match self.evaluate(b) {
                    Ok(y) => y,
                    Err(c) => {
                        return Err(c);
                    },
                };
                proof {
                    crate::affine::lemma_av_const_equiv(x);
                    crate::affine::lemma_av_const_equiv(y);
                }
                if x.is_constant() {
                    let s = y.scaled(x.offset);
                    proof {
                        assert(av(s) =~= av_scale(av(y), av(x).offset));
                        if self.unknown_strategy is Zero {
                            assert forall|i: int| 0 <= i < s.coefficients@.len() implies #[trigger] s.coefficients@[i] == 0 by {
                                assert(y.coefficients@[i] == 0);
                                assert(0 * (x.offset as int) == 0);
                            }
                        }
                    }
                    Ok(s)
                } else if y.is_constant() {
                    let s = x.scaled(y.offset);
                    proof {
                        assert(av(s) =~= av_scale(av(x), av(y).offset));
                        if self.unknown_strategy is Zero {
                            assert forall|i: int| 0 <= i < s.coefficients@.len() implies #[trigger] s.coefficients@[i] == 0 by {
                                assert(x.coefficients@[i] == 0);
                                assert(0 * (y.offset as int) == 0);
                            }
                        }
                    }
                    Ok(s)
                } else {
                    Err(IncompleteCause::QuadraticTerm)
                }
            },
        }
    }
}

} // verus!
