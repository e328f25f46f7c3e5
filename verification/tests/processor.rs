use witgen::affine::{solve, AffineExpression, SolveOutcome};
use witgen::columns::{apply_cell, CellValue, ColRef, Constraint, PolyId, PolyType};
use witgen::copy_constraints::CopyConstraints;
use witgen::expression::{Expression, Identity, SelectedExpressions};
use witgen::field::{fadd, finv, fmul, fneg, fsub, FP};
use witgen::fixed_data::{FixedColumn, FixedData, WitnessColumnInfo};
use witgen::processor::{EvalError, OuterQuery, Processor};
use witgen::rows::{FinalizableData, Row, RowPair, UnknownStrategy};

fn wref(id: usize) -> ColRef {
    ColRef { poly_id: PolyId { id, ptype: PolyType::Committed }, next: false }
}

fn fixed(n_cols: usize) -> FixedData {
    let mut witness_cols = Vec::new();
    for _ in 0..n_cols {
        witness_cols.push(WitnessColumnInfo { has_query: false });
    }
    FixedData { witness_cols, fixed_cols: Vec::new() }
}

fn window(n_cols: usize, n_rows: usize) -> FinalizableData {
    let mut data = FinalizableData::new();
    for _ in 0..n_rows {
        data.push(Row::unknown(n_cols));
    }
    data
}

fn all_owned(n_cols: usize) -> Vec<bool> {
    let mut v = Vec::new();
    for _ in 0..n_cols {
        v.push(true);
    }
    v
}

#[test]
fn field_ops_exact() {
    assert_eq!(fadd(FP - 1, 2), 1);
    assert_eq!(fsub(0, 1), FP - 1);
    assert_eq!(fmul(3, 4), 12);
    assert_eq!(fneg(5), FP - 5);
    assert_eq!(finv(1), Some(1));
    assert_eq!(finv(FP - 1), Some(FP - 1));
    let i2 = finv(2).unwrap();
    assert_eq!(fmul(2, i2), 1);
    assert_eq!(finv(0), None);
}

#[test]
fn affine_solver_cases() {
    let zero = AffineExpression { coefficients: vec![0, 0], offset: 0 };
    assert!(matches!(solve(&zero), SolveOutcome::Complete));
    let violated = AffineExpression { coefficients: vec![0, 0], offset: 8 };
    assert!(matches!(solve(&violated), SolveOutcome::Violation));
    let single = AffineExpression { coefficients: vec![1, 0], offset: FP - 5 };
    match solve(&single) {
        SolveOutcome::Assignment { key, value } => {
            assert_eq!(key, 0);
            assert_eq!(value, 5);
        },
        _ => panic!("expected an assignment"),
    }
    let many = AffineExpression { coefficients: vec![1, 1], offset: 0 };
    assert!(matches!(solve(&many), SolveOutcome::Incomplete));
}

fn sum_identity() -> Identity {
    // a + b - 5 == 0
    Identity::Polynomial {
        expression: Expression::Sub(
            Box::new(Expression::Add(
                Box::new(Expression::Reference(wref(0))),
                Box::new(Expression::Reference(wref(1))),
            )),
            Box::new(Expression::Number(5)),
        ),
    }
}

fn two_col_processor(a: CellValue, b: CellValue) -> Processor {
    let mut row0 = Row::unknown(2);
    if let CellValue::Known(v) = a {
        row0.apply_update(0, &Constraint::Assignment(v));
    }
    if let CellValue::Known(v) = b {
        row0.apply_update(1, &Constraint::Assignment(v));
    }
    let mut p = Processor::new(0, window(2, 2), fixed(2), all_owned(2));
    p.set_row(0, row0);
    p
}

#[test]
fn process_identity_solves_sum() {
    // Two-column window: a known = 3, b unknown; a + b = 5.
    let mut p = two_col_processor(CellValue::Known(3), CellValue::Unknown);
    let id = sum_identity();
    let res = p.process_identity(0, &id, UnknownStrategy::Unknown).unwrap();
    assert!(res.progress);
    assert!(res.is_complete);
    assert_eq!(p.row(0).cells[1], CellValue::Known(2));
}

#[test]
fn check_only_strategy_is_pure() {
    let mut p = two_col_processor(CellValue::Known(3), CellValue::Known(2));
    let id = sum_identity();
    let res = p.process_identity(0, &id, UnknownStrategy::Zero).unwrap();
    assert!(!res.progress);
    assert!(!res.is_complete);
    assert_eq!(p.row(0).cells[0], CellValue::Known(3));
    assert_eq!(p.row(0).cells[1], CellValue::Known(2));
}

#[test]
fn identity_violation_reports_known_values() {
    let mut p = two_col_processor(CellValue::Known(3), CellValue::Known(10));
    let id = sum_identity();
    match p.process_identity(0, &id, UnknownStrategy::Unknown) {
        Err(EvalError::IdentityViolation { row_index, current_known, next_known }) => {
            assert_eq!(row_index, 0);
            assert_eq!(current_known, vec![(0, 3), (1, 10)]);
            assert!(next_known.is_none());
        },
        _ => panic!("expected an identity violation"),
    }
    // The violation left the window unchanged.
    assert_eq!(p.row(0).cells[1], CellValue::Known(10));
}

#[test]
fn second_application_reports_no_progress() {
    let mut p = two_col_processor(CellValue::Known(3), CellValue::Unknown);
    let id = sum_identity();
    let first = p.process_identity(0, &id, UnknownStrategy::Unknown).unwrap();
    assert!(first.progress);
    let second = p.process_identity(0, &id, UnknownStrategy::Unknown).unwrap();
    assert!(!second.progress);
    assert!(second.is_complete);
    assert_eq!(p.row(0).cells[1], CellValue::Known(2));
}

#[test]
fn cell_assignment_is_idempotent() {
    let mut cell = CellValue::Unknown;
    let changed = apply_cell(&mut cell, &Constraint::Assignment(7));
    assert!(changed);
    assert_eq!(cell, CellValue::Known(7));
    let changed_again = apply_cell(&mut cell, &Constraint::Assignment(7));
    assert!(!changed_again);
    assert_eq!(cell, CellValue::Known(7));
}

#[test]
fn forced_inputs_set_when_unset() {
    let mut p = Processor::new(0, window(1, 7), fixed(1), all_owned(1));
    p.inputs = vec![(0, 7)];
    let progress = p.set_inputs_if_unset(0).unwrap();
    assert!(progress);
    assert_eq!(p.row(0).cells[0], CellValue::Known(7));
    assert_eq!(p.previously_set_inputs[0], Some(0));
    // Already known: nothing to do, no progress.
    let again = p.set_inputs_if_unset(0).unwrap();
    assert!(!again);
}

#[test]
fn stale_forced_run_is_reset_before_reforcing() {
    let mut p = Processor::new(0, window(1, 7), fixed(1), all_owned(1));
    p.inputs = vec![(0, 7)];
    assert!(p.set_inputs_if_unset(0).unwrap());
    // The cell at row 3 is unknown, so forcing again at row 3 is a fresh
    // force: the stale run [0, 3) is erased first.
    assert!(p.set_inputs_if_unset(3).unwrap());
    assert_eq!(p.row(0).cells[0], CellValue::Unknown);
    assert_eq!(p.row(1).cells[0], CellValue::Unknown);
    assert_eq!(p.row(2).cells[0], CellValue::Unknown);
    assert_eq!(p.row(3).cells[0], CellValue::Known(7));
    assert_eq!(p.previously_set_inputs[0], Some(3));
}

#[test]
fn continuously_forced_run_is_not_reset() {
    // Forced input column with target 7 at row 0, held known through row 5.
    let mut p = Processor::new(0, window(1, 7), fixed(1), all_owned(1));
    p.inputs = vec![(0, 7)];
    assert!(p.set_inputs_if_unset(0).unwrap());
    for r in 1..=5 {
        let mut row = Row::unknown(1);
        row.apply_update(0, &Constraint::Assignment(7));
        p.set_row(r, row);
    }
    // The cell at row 5 already holds 7, so nothing is re-forced and the
    // run 0..5 stays known.
    assert!(!p.set_inputs_if_unset(5).unwrap());
    for r in 0..=5 {
        assert_eq!(p.row(r).cells[0], CellValue::Known(7));
    }
    assert_eq!(p.previously_set_inputs[0], Some(0));
}

#[test]
fn copy_constraints_propagate_and_converge() {
    let cc = CopyConstraints {
        classes: vec![vec![
            (PolyId { id: 0, ptype: PolyType::Committed }, 0),
            (PolyId { id: 1, ptype: PolyType::Committed }, 1),
        ]],
    };
    let p0 = Processor::new(0, window(2, 3), fixed(2), all_owned(2));
    let mut p = p0.with_copy_constraints(cc);
    // col0 at row 0 must be 5; the class forces col1 at row 1 to 5 too.
    let id = Identity::Polynomial {
        expression: Expression::Sub(
            Box::new(Expression::Reference(wref(0))),
            Box::new(Expression::Number(5)),
        ),
    };
    let res = p.process_identity(0, &id, UnknownStrategy::Unknown).unwrap();
    assert!(res.progress);
    assert_eq!(p.row(0).cells[0], CellValue::Known(5));
    assert_eq!(p.row(1).cells[1], CellValue::Known(5));
    // Re-processing reaches a fixed point: no further progress, no change.
    let res2 = p.process_identity(0, &id, UnknownStrategy::Unknown).unwrap();
    assert!(!res2.progress);
    assert_eq!(p.row(1).cells[1], CellValue::Known(5));
}

#[test]
fn copy_constraint_to_fixed_column_fails_loudly() {
    let cc = CopyConstraints {
        classes: vec![vec![
            (PolyId { id: 0, ptype: PolyType::Committed }, 0),
            (PolyId { id: 0, ptype: PolyType::Constant }, 1),
        ]],
    };
    let p0 = Processor::new(0, window(1, 3), fixed(1), all_owned(1));
    let mut p = p0.with_copy_constraints(cc);
    let id = Identity::Polynomial {
        expression: Expression::Sub(
            Box::new(Expression::Reference(wref(0))),
            Box::new(Expression::Number(5)),
        ),
    };
    match p.process_identity(0, &id, UnknownStrategy::Unknown) {
        Err(EvalError::UnsupportedCopyConstraint { column, row }) => {
            assert_eq!(column.ptype, PolyType::Constant);
            assert_eq!(row, 1);
        },
        _ => panic!("expected the unsupported copy constraint error"),
    }
}

fn link_identity() -> Identity {
    // Caller expression [k] (column 0), callee expression [c] (column 1),
    // selector column 2.
    Identity::Connecting {
        left: SelectedExpressions {
            selector: None,
            expressions: vec![Expression::Reference(wref(0))],
        },
        right: SelectedExpressions {
            selector: Some(Expression::Reference(wref(2))),
            expressions: vec![Expression::Reference(wref(1))],
        },
    }
}

#[test]
fn outer_query_returns_caller_assignment() {
    let fd = fixed(3);
    let caller_current = Row::unknown(3);
    let caller_next = Row::unknown(3);
    let pair = RowPair::new(&caller_current, &caller_next, 0, &fd, UnknownStrategy::Unknown);
    let oq = OuterQuery::new(&pair, link_identity());
    assert!(!oq.is_complete());

    // This machine owns columns 1 (value 9, known) and 2 (the selector).
    let mut row0 = Row::unknown(3);
    row0.apply_update(1, &Constraint::Assignment(9));
    let mut p = Processor::new(0, window(3, 2), fixed(3), vec![false, true, true]);
    p.set_row(0, row0);
    let mut p = p.with_outer_query(oq);
    assert!(p.has_outer_query());
    assert!(!p.finished_outer_query());

    let (progress, outward) = p.process_outer_query(0).unwrap();
    assert!(progress);
    assert_eq!(outward.len(), 1);
    assert_eq!(outward[0].0.poly_id.id, 0);
    assert_eq!(outward[0].1, Constraint::Assignment(9));
    // The selector was forced to one, and the caller side is now complete.
    assert_eq!(p.row(0).cells[2], CellValue::Known(1));
    assert!(p.finished_outer_query());
    assert_eq!(p.latch_value(0), Some(true));
}

#[test]
fn latch_value_without_outer_query_is_none() {
    let p = Processor::new(0, window(1, 2), fixed(1), all_owned(1));
    assert_eq!(p.latch_value(0), None);
}

#[test]
fn check_row_pair_accepts_and_rejects() {
    let p = Processor::new(0, window(2, 2), fixed(2), all_owned(2));
    let id = sum_identity();
    let mut good = Row::unknown(2);
    good.apply_update(0, &Constraint::Assignment(3));
    good.apply_update(1, &Constraint::Assignment(2));
    assert!(p.check_row_pair(0, &good, &id, false));
    let mut bad = Row::unknown(2);
    bad.apply_update(0, &Constraint::Assignment(3));
    bad.apply_update(1, &Constraint::Assignment(1));
    assert!(!p.check_row_pair(0, &bad, &id, false));
}

#[test]
fn process_queries_uses_supplied_answers() {
    let mut fd = fixed(1);
    fd.witness_cols[0] = WitnessColumnInfo { has_query: true };
    let mut p = Processor::new(0, window(1, 2), fd, all_owned(1));
    let no_answer: Vec<(usize, u64)> = Vec::new();
    assert!(!p.process_queries(0, &no_answer).unwrap());
    assert_eq!(p.row(0).cells[0], CellValue::Unknown);
    let answers = vec![(0usize, 42u64)];
    assert!(p.process_queries(0, &answers).unwrap());
    assert_eq!(p.row(0).cells[0], CellValue::Known(42));
}

#[test]
fn rows_and_finalization() {
    let mut p = Processor::new(10, window(2, 1), fixed(2), all_owned(2));
    assert_eq!(p.len(), 1);
    let mut row = Row::unknown(2);
    row.apply_update(0, &Constraint::Assignment(1));
    p.set_row(1, row);
    assert_eq!(p.len(), 2);
    assert_eq!(p.row(1).cells[0], CellValue::Known(1));
    p.finalize_range(0, 1);
    let data = p.finish();
    assert!(data.finalized[0]);
    assert!(!data.finalized[1]);
}

#[test]
fn fixed_columns_evaluate_cyclically() {
    let fd = FixedData {
        witness_cols: vec![WitnessColumnInfo { has_query: false }],
        fixed_cols: vec![FixedColumn { values: vec![10, 20] }],
    };
    assert_eq!(fd.fixed_value(0, 0), 10);
    assert_eq!(fd.fixed_value(0, 1), 20);
    assert_eq!(fd.fixed_value(0, 2), 10);
}

#[test]
fn quadratic_identity_makes_no_progress() {
    let mut p = two_col_processor(CellValue::Unknown, CellValue::Unknown);
    let id = Identity::Polynomial {
        expression: Expression::Mul(
            Box::new(Expression::Reference(wref(0))),
            Box::new(Expression::Reference(wref(1))),
        ),
    };
    let res = p.process_identity(0, &id, UnknownStrategy::Unknown).unwrap();
    assert!(!res.progress);
    assert!(!res.is_complete);
    assert_eq!(p.row(0).cells[0], CellValue::Unknown);
}
