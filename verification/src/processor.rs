//! The processor: orchestrates identity resolution, queries, the
//! cross-machine link, forced inputs, and row access for one machine's
//! window of rows.

use vstd::prelude::*;
use crate::affine::{affine_valid, spec_affine_key, spec_is_constant, AffineExpression};
use crate::columns::{spec_apply_cell, CellValue, ColRef, Constraint, PolyId, PolyType};
use crate::copy_constraints::{spec_others_in_class, CellRef, CopyConstraints};
use crate::expression::{
    identity_in_range, selected_in_range, spec_simple_poly, Expression, Identity,
    SelectedExpressions,
};
use crate::field::FP;
use crate::fixed_data::FixedData;
use crate::identity_processor::{av_single, SolveError};
use crate::rows::{row_valid, FinalizableData, IncompleteCause, Row, RowPair, UnknownStrategy};

verus! {

/// An error surfaced to the driver.
#[derive(Debug)]
pub enum EvalError {
    /// Evaluation under the available information contradicts an identity.
    /// Carries the global row number and the known values of the involved
    /// rows, for diagnostics.
    IdentityViolation {
        /// Global number of the row the identity was processed at.
        row_index: u64,
        /// Known cells of the current row.
        current_known: Vec<(usize, u64)>,
        /// Known cells of the next row, where the identity references it.
        next_known: Option<Vec<(usize, u64)>>,
    },
    /// A copy constraint targets a non-witness column: an unsupported
    /// configuration this layer cannot handle.
    UnsupportedCopyConstraint {
        /// The targeted column.
        column: PolyId,
        /// The targeted global row.
        row: u64,
    },
    /// An expression could not be evaluated because required values are
    /// still unknown.
    Incomplete(IncompleteCause),
    /// An expression evaluated to a constant other than the value it was to
    /// be forced to.
    ValueMismatch,
}

/// The result of processing one identity at one row.
pub struct IdentityResult {
    /// Whether any progress was made by processing the identity.
    pub progress: bool,
    /// Whether the identity is complete (i.e. all referenced values are
    /// known).
    pub is_complete: bool,
}

/// Data needed to handle an outer query: the caller's rows, the connecting
/// identity, and the caller's left side, evaluated once.
pub struct OuterQuery {
    /// Copy of the calling machine's current row.
    pub caller_current: Row,
    /// Copy of the calling machine's next row.
    pub caller_next: Row,
    /// Global number of the caller's current row.
    pub caller_row_index: u64,
    /// The connecting identity.
    pub connecting_identity: Identity,
    /// The left side of the connecting identity, evaluated. Caller-side
    /// values change only by explicit assignment back into this structure,
    /// so re-evaluating is never needed.
    pub left: Vec<AffineExpression>,
}

/// Well-formedness of an outer query over `n_cols` witness and `n_fixed`
/// fixed columns.
pub open spec fn outer_query_wf(q: OuterQuery, n_cols: int, n_fixed: int) -> bool {
    &&& q.connecting_identity matches Identity::Connecting { left, right } && {
        &&& q.left@.len() == left.expressions@.len()
        &&& q.left@.len() == right.expressions@.len()
        &&& selected_in_range(left, n_cols, n_fixed)
        &&& selected_in_range(right, n_cols, n_fixed)
    }
    &&& forall|i: int| 0 <= i < q.left@.len() ==> affine_valid(#[trigger] q.left@[i], n_cols)
}

impl OuterQuery {
    /// Builds an outer query from the caller's row pair, evaluating the left
    /// side of the connecting identity once.
    pub fn new<'a>(caller_rows: &RowPair<'a>, connecting_identity: Identity) -> (r: OuterQuery)
        requires
            caller_rows.wf(),
            connecting_identity matches Identity::Connecting { left, right } && left.expressions@.len()
                == right.expressions@.len(),
            identity_in_range(
                connecting_identity,
                caller_rows.n_cols(),
                caller_rows.fixed_data.n_fixed(),
            ),
            forall|i: int|
                0 <= i < (connecting_identity->Connecting_left).expressions@.len()
                    ==> caller_rows.spec_evaluate(
                    #[trigger] (connecting_identity->Connecting_left).expressions@[i],
                ) is Ok,
        ensures
            outer_query_wf(r, caller_rows.n_cols(), caller_rows.fixed_data.n_fixed()),
            r.connecting_identity == connecting_identity,
            r.caller_current.cells@ == caller_rows.current.cells@,
            caller_rows.next matches Some(n) ==> r.caller_next.cells@ == n.cells@,
            r.caller_row_index == caller_rows.current_row_index,
            r.left@.len() == (connecting_identity->Connecting_left).expressions@.len(),
            forall|i: int|
                0 <= i < r.left@.len() ==> Ok::<crate::affine::AffineV, IncompleteCause>(
                    crate::affine::av(#[trigger] r.left@[i]),
                ) == caller_rows.spec_evaluate(
                    (connecting_identity->Connecting_left).expressions@[i],
                ),
    {
        let mut left: Vec<AffineExpression> = Vec::new();
        match &connecting_identity {
            Identity::Connecting { left: left_sel, .. } => {
                let n = left_sel.expressions.len();
                let mut i: usize = 0;
                while i < n
                    invariant
                        i <= n,
                        n == left_sel.expressions@.len(),
                        caller_rows.wf(),
                        selected_in_range(
                            *left_sel,
                            caller_rows.n_cols(),
                            caller_rows.fixed_data.n_fixed(),
                        ),
                        forall|j: int|
                            0 <= j < n ==> caller_rows.spec_evaluate(
                                #[trigger] left_sel.expressions@[j],
                            ) is Ok,
                        left@.len() == i,
                        forall|j: int|
                            0 <= j < i ==> affine_valid(#[trigger] left@[j], caller_rows.n_cols()),
                        forall|j: int|
                            0 <= j < i ==> Ok::<crate::affine::AffineV, IncompleteCause>(
                                crate::affine::av(#[trigger] left@[j]),
                            ) == caller_rows.spec_evaluate(left_sel.expressions@[j]),
                    decreases n - i,
                {
                    match caller_rows.evaluate(&left_sel.expressions[i]) {
                        Ok(a) => {
                            left.push(a);
                        },
                        Err(_) => {
                            proof {
                                assert(caller_rows.spec_evaluate(left_sel.expressions@[i as int])
                                    is Ok);
                            }
                        },
                    }
                    i = i + 1;
                }
            },
            Identity::Polynomial { .. } => {},
        }
        OuterQuery {
            caller_current: caller_rows.current.duplicate(),
            caller_next: match caller_rows.next {
                Some(r) => r.duplicate(),
                None => Row::unknown(caller_rows.fixed_data.witness_cols.len()),
            },
            caller_row_index: caller_rows.current_row_index,
            connecting_identity,
            left,
        }
    }

    /// True iff every caller-side left-hand expression has become a concrete
    /// constant.
    pub fn is_complete(&self) -> (r: bool)
        ensures
            r == (forall|i: int|
                0 <= i < self.left@.len() ==> spec_is_constant(#[trigger] self.left@[i])),
    {
        let n = self.left.len();
        let mut i: usize = 0;
        while i < n
            invariant
                i <= n,
                n == self.left@.len(),
                forall|j: int| 0 <= j < i ==> spec_is_constant(#[trigger] self.left@[j]),
            decreases n - i,
        {
            if !self.left[i].is_constant() {
                return false;
            }
            i = i + 1;
        }
        true
    }
}

/// The rows of a window as plain cell sequences.
pub open spec fn rows_view(data: FinalizableData) -> Seq<Seq<CellValue>> {
    data.rows@.map_values(|r: Row| r.cells@)
}

/// One cell write, as a transformation of the window's rows.
pub open spec fn spec_write(
    data: Seq<Seq<CellValue>>,
    row: int,
    col: int,
    cell: CellValue,
) -> Seq<Seq<CellValue>> {
    data.update(row, data[row].update(col, cell))
}

/// Copy-constraint propagation of the value `v` into the member cells, in
/// order. Stops, reporting failure, at the first member that is not a
/// witness column.
pub open spec fn spec_propagate(
    data: Seq<Seq<CellValue>>,
    members: Seq<CellRef>,
    row_offset: int,
    v: u64,
) -> (Seq<Seq<CellValue>>, bool)
    decreases members.len(),
{
    if members.len() == 0 {
        (data, true)
    } else {
        let m = members[0];
        if !(m.0.ptype is Committed) {
            (data, false)
        } else {
            spec_propagate(
                spec_write(data, m.1 - row_offset, m.0.id as int, CellValue::Known(v)),
                members.drop_first(),
                row_offset,
                v,
            )
        }
    }
}

/// Copy-constraint propagation reaches a fixed point: after one pass every
/// witness member of the class holds the propagated value, untouched cells
/// are unchanged, and a second pass changes nothing.
pub proof fn lemma_copy_propagation_converges(
    data: Seq<Seq<CellValue>>,
    members: Seq<CellRef>,
    row_offset: int,
    v: u64,
)
    requires
        forall|i: int| 0 <= i < members.len() ==> (#[trigger] members[i]).0.ptype is Committed,
        forall|i: int|
            0 <= i < members.len() ==> 0 <= (#[trigger] members[i]).1 - row_offset < data.len(),
        forall|i: int|
            0 <= i < members.len() ==> (#[trigger] members[i]).0.id < data[members[i].1
                - row_offset].len(),
    ensures
        spec_propagate(data, members, row_offset, v).1,
        spec_propagate(data, members, row_offset, v).0.len() == data.len(),
        forall|r: int|
            0 <= r < data.len() ==> #[trigger] spec_propagate(
                data,
                members,
                row_offset,
                v,
            ).0[r].len() == data[r].len(),
        forall|i: int|
            0 <= i < members.len() ==> spec_propagate(data, members, row_offset, v).0[(
            #[trigger] members[i]).1 - row_offset][members[i].0.id as int] == CellValue::Known(v),
        forall|r: int, c: int|
            0 <= r < data.len() && 0 <= c < data[r].len() && (forall|i: int|
                0 <= i < members.len() ==> !((#[trigger] members[i]).1 - row_offset == r
                    && members[i].0.id == c)) ==> #[trigger] spec_propagate(
                data,
                members,
                row_offset,
                v,
            ).0[r][c] == data[r][c],
        spec_propagate(
            spec_propagate(data, members, row_offset, v).0,
            members,
            row_offset,
            v,
        ).0 == spec_propagate(data, members, row_offset, v).0,
    decreases members.len(),
{
    if members.len() == 0 {
    } else {
        let m = members[0];
        let r0 = m.1 - row_offset;
        let c0 = m.0.id as int;
        let d1 = spec_write(data, r0, c0, CellValue::Known(v));
        lemma_copy_propagation_converges(d1, members.drop_first(), row_offset, v);
        assert(spec_propagate(data, members, row_offset, v) == spec_propagate(
            d1,
            members.drop_first(),
            row_offset,
            v,
        ));
        let fin = spec_propagate(data, members, row_offset, v).0;
        assert forall|i: int| 0 <= i < members.len() implies fin[(#[trigger] members[i]).1
            - row_offset][members[i].0.id as int] == CellValue::Known(v) by {
            if i == 0 {
                if forall|j: int|
                    0 <= j < members.drop_first().len() ==> !((#[trigger] members.drop_first()[
                    j]).1 - row_offset == r0 && members.drop_first()[j].0.id == c0) {
                    assert(fin[r0][c0] == d1[r0][c0]);
                } else {
                    let j = choose|j: int|
                        0 <= j < members.drop_first().len() && ((#[trigger] members.drop_first()[
                        j]).1 - row_offset == r0 && members.drop_first()[j].0.id == c0);
                    assert(fin[members.drop_first()[j].1 - row_offset][members.drop_first()[
                        j].0.id as int] == CellValue::Known(v));
                }
            } else {
                assert(members.drop_first()[i - 1] == members[i]);
            }
        }
        lemma_propagate_no_change(fin, members, row_offset, v);
    }
}

/// Propagating into cells that already hold the propagated value changes
/// nothing.
pub proof fn lemma_propagate_no_change(
    data: Seq<Seq<CellValue>>,
    members: Seq<CellRef>,
    row_offset: int,
    v: u64,
)
    requires
        forall|i: int| 0 <= i < members.len() ==> (#[trigger] members[i]).0.ptype is Committed,
        forall|i: int|
            0 <= i < members.len() ==> 0 <= (#[trigger] members[i]).1 - row_offset < data.len(),
        forall|i: int|
            0 <= i < members.len() ==> (#[trigger] members[i]).0.id < data[members[i].1
                - row_offset].len(),
        forall|i: int|
            0 <= i < members.len() ==> data[(#[trigger] members[i]).1 - row_offset][members[
                i].0.id as int] == CellValue::Known(v),
    ensures
        spec_propagate(data, members, row_offset, v).0 == data,
        spec_propagate(data, members, row_offset, v).1,
    decreases members.len(),
{
    if members.len() == 0 {
    } else {
        let m = members[0];
        let r0 = m.1 - row_offset;
        let c0 = m.0.id as int;
        let d1 = spec_write(data, r0, c0, CellValue::Known(v));
        assert(data[r0].update(c0, CellValue::Known(v)) =~= data[r0]);
        assert(d1 =~= data);
        assert forall|i: int|
            0 <= i < members.drop_first().len() implies members.drop_first()[i] == members[i
            + 1] by {}
        lemma_propagate_no_change(d1, members.drop_first(), row_offset, v);
    }
}

/// Propagation into class members stays inside the window.
pub open spec fn cc_in_window(cc: CopyConstraints, row_offset: int, len: int, n_cols: int) -> bool {
    forall|i: int, j: int|
        0 <= i < cc.classes@.len() && 0 <= j < cc.classes@[i]@.len() ==> ((
        #[trigger] cc.classes@[i]@[j]).0.ptype is Committed ==> (cc.classes@[i]@[j].0.id < n_cols
            && row_offset <= cc.classes@[i]@[j].1 < row_offset + len))
}

/// Writes `v` into every member cell, in order; fails at the first member
/// that is not a witness column, which must be reported rather than
/// silently producing an inconsistent witness.
fn propagate_cells(
    data: &mut FinalizableData,
    others: &Vec<CellRef>,
    row_offset: u64,
    v: u64,
) -> (r: Result<(), EvalError>)
    requires
        old(data).rows@.len() <= usize::MAX,
        forall|i: int|
            0 <= i < others@.len() ==> ((#[trigger] others@[i]).0.ptype is Committed ==> (
            row_offset <= others@[i].1 < row_offset + old(data).rows@.len() && others@[i].0.id
                < old(data).rows@[others@[i].1 - row_offset].cells@.len())),
    ensures
        rows_view(*final(data)) == spec_propagate(
            rows_view(*old(data)),
            others@,
            row_offset as int,
            v,
        ).0,
        r is Ok <==> spec_propagate(rows_view(*old(data)), others@, row_offset as int, v).1,
        final(data).rows@.len() == old(data).rows@.len(),
        final(data).finalized@ == old(data).finalized@,
        forall|i: int|
            0 <= i < final(data).rows@.len() ==> #[trigger] final(data).rows@[i].cells@.len()
                == old(data).rows@[i].cells@.len(),
        forall|i: int, j: int|
            0 <= i < final(data).rows@.len() && 0 <= j < final(data).rows@[i].cells@.len() ==> ((
            #[trigger] final(data).rows@[i].cells@[j]) == old(data).rows@[i].cells@[j]
                || final(data).rows@[i].cells@[j] == CellValue::Known(v)),
        r matches Err(e) ==> e is UnsupportedCopyConstraint,
{
    let n = others.len();
    let mut t: usize = 0;
    proof {
        assert(others@.skip(0) =~= others@);
    }
    while t < n
        invariant
            t <= n,
            n == others@.len(),
            old(data).rows@.len() <= usize::MAX,
            forall|i: int|
                0 <= i < others@.len() ==> ((#[trigger] others@[i]).0.ptype is Committed ==> (
                row_offset <= others@[i].1 < row_offset + old(data).rows@.len() && others@[i].0.id
                    < old(data).rows@[others@[i].1 - row_offset].cells@.len())),
            data.rows@.len() == old(data).rows@.len(),
            data.finalized@ == old(data).finalized@,
            forall|i: int|
                0 <= i < data.rows@.len() ==> #[trigger] data.rows@[i].cells@.len() == old(
                    data,
                ).rows@[i].cells@.len(),
            forall|i: int, j: int|
                0 <= i < data.rows@.len() && 0 <= j < data.rows@[i].cells@.len() ==> ((
                #[trigger] data.rows@[i].cells@[j]) == old(data).rows@[i].cells@[j]
                    || data.rows@[i].cells@[j] == CellValue::Known(v)),
            spec_propagate(rows_view(*data), others@.skip(t as int), row_offset as int, v)
                == spec_propagate(rows_view(*old(data)), others@, row_offset as int, v),
        decreases n - t,
    {
        let m = others[t];
        match m.0.ptype {
            PolyType::Constant => {
                proof {
                    assert(others@.skip(t as int)[0] == m);
                }
                return Err(EvalError::UnsupportedCopyConstraint { column: m.0, row: m.1 });
            },
            PolyType::Committed => {},
        }
        proof {
            assert(others@[t as int] == m);
            assert(m.0.ptype is Committed);
            assert(row_offset <= m.1 < row_offset + old(data).rows@.len());
        }
        let local = (m.1 - row_offset) as usize;
        let ghost before = rows_view(*data);
        let ghost pre_rows = data.rows@;
        proof {
            assert(local as int == m.1 - row_offset);
            assert(data.rows@[local as int].cells@.len() == old(data).rows@[local as int].cells@.len());
        }
        data.apply_update(local, m.0.id, &Constraint::Assignment(v));
        proof {
            assert(others@.skip(t as int)[0] == m);
            assert(others@.skip(t as int).drop_first() =~= others@.skip(t + 1 as int));
            let target = spec_write(before, m.1 - row_offset, m.0.id as int, CellValue::Known(v));
            assert(before.len() == pre_rows.len());
            assert(local as int == m.1 - row_offset);
            assert(pre_rows[local as int].cells@.len() == old(data).rows@[local as int].cells@.len());
            assert forall|i: int| 0 <= i < data.rows@.len() implies #[trigger] rows_view(
                *data,
            )[i] == target[i] by {
                assert(rows_view(*data)[i] == data.rows@[i].cells@);
                assert(before[i] == pre_rows[i].cells@);
                if i != local as int {
                    assert(data.rows@[i] == pre_rows[i]);
                    assert(target[i] == before[i]);
                } else {
                    assert(data.rows@[i].cells@ == pre_rows[i].cells@.update(
                        m.0.id as int,
                        spec_apply_cell(
                            pre_rows[i].cells@[m.0.id as int],
                            Constraint::Assignment(v),
                        ),
                    ));
                    assert(spec_apply_cell(
                        pre_rows[i].cells@[m.0.id as int],
                        Constraint::Assignment(v),
                    ) == CellValue::Known(v));
                    assert(target[i] == before[i].update(m.0.id as int, CellValue::Known(v)));
                }
            }
            assert(rows_view(*data) =~= target);
        }
        t = t + 1;
    }
    proof {
        assert(others@.skip(n as int) =~= Seq::<CellRef>::empty());
    }
    Ok(())
}

/// The forced inputs extracted from the first `n` linked pairs of an outer
/// query: every pair whose right side is a plain reference to a witness
/// column and whose left side is already a concrete constant, in pair
/// order.
pub open spec fn spec_extract_inputs(
    left: Seq<AffineExpression>,
    right: Seq<Expression>,
    n: int,
) -> Seq<(usize, u64)>
    decreases n,
{
    if n <= 0 {
        Seq::empty()
    } else {
        spec_extract_inputs(left, right, n - 1) + (match spec_simple_poly(right[n - 1]) {
            Some(cr) => {
                if cr.poly_id.ptype is Committed && spec_is_constant(left[n - 1]) {
                    seq![(cr.poly_id.id, left[n - 1].offset)]
                } else {
                    Seq::empty()
                }
            },
            None => Seq::empty(),
        })
    }
}

/// Forced inputs over which the forced-input law is stated: the columns are
/// pairwise distinct and all owned by this machine.
pub open spec fn inputs_distinct_owned(inputs: Seq<(usize, u64)>, wit: Seq<bool>) -> bool {
    &&& forall|i: int, j: int|
        0 <= i < j < inputs.len() ==> (#[trigger] inputs[i]).0 != (#[trigger] inputs[j]).0
    &&& forall|i: int| 0 <= i < inputs.len() ==> wit[(#[trigger] inputs[i]).0 as int]
}

/// Every cell of an others-list is a member of the class it came from.
proof fn lemma_others_upto_members(class: Seq<CellRef>, cell: CellRef, n: int)
    requires
        n <= class.len(),
    ensures
        forall|i: int|
            0 <= i < crate::copy_constraints::spec_others_upto(class, cell, n).len()
                ==> exists|j: int|
                0 <= j < n && class[j] == #[trigger] crate::copy_constraints::spec_others_upto(
                    class,
                    cell,
                    n,
                )[i],
    decreases n,
{
    if n <= 0 {
    } else {
        lemma_others_upto_members(class, cell, n - 1);
        let cur = crate::copy_constraints::spec_others_upto(class, cell, n);
        let prev = crate::copy_constraints::spec_others_upto(class, cell, n - 1);
        assert forall|i: int| 0 <= i < cur.len() implies exists|j: int|
            0 <= j < n && class[j] == #[trigger] cur[i] by {
            if i < prev.len() {
                assert(cur[i] == prev[i]);
                let j = choose|j: int| 0 <= j < n - 1 && class[j] == prev[i];
                assert(class[j] == cur[i]);
            } else {
                assert(cur[i] == class[n - 1]);
            }
        }
    }
}

/// The rest of a cell's equivalence class obeys the window bounds that all
/// registered copy constraints obey.
proof fn lemma_others_in_window(
    cc: CopyConstraints,
    cell: CellRef,
    row_offset: int,
    len: int,
    n_cols: int,
)
    requires
        cc.wf(),
        cc_in_window(cc, row_offset, len, n_cols),
    ensures
        forall|i: int|
            0 <= i < spec_others_in_class(cc, cell).len() ==> ((#[trigger] spec_others_in_class(
                cc,
                cell,
            )[i]).0.ptype is Committed ==> (spec_others_in_class(cc, cell)[i].0.id < n_cols
                && row_offset <= spec_others_in_class(cc, cell)[i].1 < row_offset + len)),
{
    if crate::copy_constraints::spec_has_class(cc, cell) {
        let idx = crate::copy_constraints::the_class_idx(cc, cell);
        assert(0 <= idx < cc.classes@.len() && cc.classes@[idx]@.contains(cell));
        let class = cc.classes@[idx]@;
        lemma_others_upto_members(class, cell, class.len() as int);
        let others = spec_others_in_class(cc, cell);
        assert forall|i: int| 0 <= i < others.len() implies ((#[trigger] others[i]).0.ptype
            is Committed ==> (others[i].0.id < n_cols && row_offset <= others[i].1 < row_offset
            + len)) by {
            let j = choose|j: int| 0 <= j < class.len() && class[j] == others[i];
            assert(cc.classes@[idx]@[j] == others[i]);
        }
    }
}

/// The local row a constraint's column reference targets, resolved from the
/// reference's row-offset flag.
pub open spec fn spec_target_row(row_index: int, c: ColRef) -> int {
    row_index + if c.next {
        1int
    } else {
        0int
    }
}

/// A constraint list whose targets are pairwise distinct cells, all owned by
/// this machine.
pub open spec fn own_distinct_targets(cs: Seq<(ColRef, Constraint)>, wit: Seq<bool>) -> bool {
    &&& forall|i: int| 0 <= i < cs.len() ==> wit[(#[trigger] cs[i]).0.poly_id.id as int]
    &&& forall|i: int, j: int|
        0 <= i < j < cs.len() ==> !((#[trigger] cs[i]).0.poly_id.id == (
        #[trigger] cs[j]).0.poly_id.id && cs[i].0.next == cs[j].0.next)
}

/// Whether some constraint of the list targets column `c`.
pub open spec fn targets_col(cs: Seq<(ColRef, Constraint)>, c: int) -> bool {
    exists|i: int| 0 <= i < cs.len() && (#[trigger] cs[i]).0.poly_id.id == c
}

/// A constraint list whose targets are distinct cells of the current row,
/// all owned by this machine.
pub open spec fn own_current_distinct(cs: Seq<(ColRef, Constraint)>, wit: Seq<bool>) -> bool {
    &&& forall|i: int|
        0 <= i < cs.len() ==> wit[(#[trigger] cs[i]).0.poly_id.id as int] && !cs[i].0.next
    &&& forall|i: int, j: int|
        0 <= i < j < cs.len() ==> (#[trigger] cs[i]).0.poly_id.id != (
        #[trigger] cs[j]).0.poly_id.id
}

/// Whether some constraint of the list targets the cell (`r2`, `c2`), with
/// `row_index` as the current row.
pub open spec fn targets_cell(
    cs: Seq<(ColRef, Constraint)>,
    row_index: int,
    r2: int,
    c2: int,
) -> bool {
    exists|i: int|
        0 <= i < cs.len() && spec_target_row(row_index, (#[trigger] cs[i]).0) == r2
            && cs[i].0.poly_id.id == c2
}

/// Every assignment of the list carries a reduced value.
pub open spec fn constraint_values_reduced(cs: Seq<(ColRef, Constraint)>) -> bool {
    forall|i: int|
        0 <= i < cs.len() ==> ((#[trigger] cs[i]).1 matches Constraint::Assignment(v) ==> v < FP)
}

/// The window of `post` is that of `pre` with the single derived assignment
/// of slot `k` written: the targeted cell holds `v`, every other cell and
/// every other part of the state is unchanged, and `progress` reports
/// whether the cell actually changed.
pub open spec fn assigned_cell(
    pre: Processor,
    post: Processor,
    row_index: int,
    k: int,
    v: u64,
    progress: bool,
) -> bool {
    let tr = spec_target_row(row_index, crate::identity_processor::spec_key_colref(k));
    let c = crate::identity_processor::spec_key_colref(k).poly_id.id as int;
    &&& post.data.rows@[tr].cells@[c] == CellValue::Known(v)
    &&& forall|r2: int, c2: int|
        0 <= r2 < pre.data.rows@.len() && 0 <= c2 < pre.n_cols() && !(r2 == tr && c2 == c)
            ==> #[trigger] post.data.rows@[r2].cells@[c2] == pre.data.rows@[r2].cells@[c2]
    &&& post.outer_query == pre.outer_query
    &&& progress == (pre.data.rows@[tr].cells@[c] != CellValue::Known(v))
}

/// The owned witness columns with a prover query attached, among the first
/// `n`, in column order.
pub open spec fn spec_query_columns(
    wit: Seq<bool>,
    info: Seq<crate::fixed_data::WitnessColumnInfo>,
    n: int,
) -> Seq<usize>
    decreases n,
{
    if n <= 0 {
        Seq::empty()
    } else {
        spec_query_columns(wit, info, n - 1) + (if wit[n - 1] && info[n - 1].has_query {
            seq![((n - 1) as usize)]
        } else {
            Seq::empty()
        })
    }
}

/// The first oracle answer supplied for column `col` among the first `n`
/// entries, if any.
pub open spec fn spec_first_answer(answers: Seq<(usize, u64)>, col: usize, n: int) -> Option<u64>
    decreases n,
{
    if n <= 0 {
        None
    } else if spec_first_answer(answers, col, n - 1) is Some {
        spec_first_answer(answers, col, n - 1)
    } else if answers[n - 1].0 == col {
        Some(answers[n - 1].1)
    } else {
        None
    }
}

/// A supplied answer found for a column is one of the supplied values, so it
/// is reduced whenever all supplied values are.
pub proof fn lemma_first_answer_reduced(answers: Seq<(usize, u64)>, col: usize, n: int)
    requires
        n <= answers.len(),
        forall|i: int| 0 <= i < answers.len() ==> (#[trigger] answers[i]).1 < FP,
    ensures
        spec_first_answer(answers, col, n) matches Some(v) ==> v < FP,
    decreases n,
{
    if n > 0 {
        lemma_first_answer_reduced(answers, col, n - 1);
    }
}

/// The caller-side fold of one derived assignment: slot `k`'s value `v` is
/// substituted into every left-side expression of the outer query (when one
/// is active; without one the assignment is dropped), and `progress` reports
/// whether a fold happened.
pub open spec fn folded_left(pre: Processor, post: Processor, k: int, v: u64, progress: bool) -> bool {
    &&& (pre.outer_query is None ==> (post == pre && !progress))
    &&& (pre.outer_query matches Some(q1) ==> (post.outer_query matches Some(q2) && q2.left@.len()
        == q1.left@.len() && q2.connecting_identity == q1.connecting_identity && (forall|j: int|
        0 <= j < q1.left@.len() ==> ((#[trigger] q2.left@[j]).coefficients@
            == q1.left@[j].coefficients@.update(k, 0u64) && q2.left@[j].offset
            == crate::field::f_add(
            q1.left@[j].offset as int,
            crate::field::f_mul(q1.left@[j].coefficients@[k] as int, v as int),
        ))) && progress))
}

/// Some linked pair of the outer query contradicts: this machine's side
/// evaluates, and its difference from the caller's side is a nonzero
/// constant.
pub open spec fn link_violated(pre: Processor, row_index: int) -> bool {
    pre.outer_query matches Some(q) && (q.connecting_identity matches Identity::Connecting {
        right,
        ..
    } && exists|j: int|
        0 <= j < q.left@.len() && (pre.spec_eval_at(
            row_index,
            UnknownStrategy::Unknown,
            #[trigger] right.expressions@[j],
        ) matches Ok(y) && crate::affine::av_is_const(crate::affine::av_sub(
            crate::affine::av(q.left@[j]),
            y,
        )) && crate::affine::av_sub(crate::affine::av(q.left@[j]), y).offset != 0))
}

/// Linked pair `j` of the outer query forces the constraint `c`: the
/// difference between the caller's left side and this machine's evaluated
/// right side has a single unknown at slot `k`, which `c` assigns the one
/// value that zeroes it.
pub open spec fn outward_pair_forces(
    pre: Processor,
    row_index: int,
    j: int,
    k: int,
    c: (ColRef, Constraint),
) -> bool {
    pre.outer_query matches Some(q) && (q.connecting_identity matches Identity::Connecting {
        right,
        ..
    } && {
        &&& 0 <= j < q.left@.len()
        &&& pre.spec_eval_at(row_index, UnknownStrategy::Unknown, right.expressions@[j]) matches
            Ok(y) && {
            let d = crate::affine::av_sub(crate::affine::av(q.left@[j]), y);
            &&& av_single(d, k)
            &&& c.0 == crate::identity_processor::spec_key_colref(k)
            &&& (c.1 matches Constraint::Assignment(v) && v < FP && crate::field::f_add(
                crate::field::f_mul(d.coeffs[k], v as int),
                d.offset,
            ) == 0)
        }
    })
}

/// The constraint `c` is forced by some linked pair of the outer query.
pub open spec fn outward_forced(pre: Processor, row_index: int, c: (ColRef, Constraint)) -> bool {
    exists|j: int, k: int| outward_pair_forces(pre, row_index, j, k, c)
}

/// A basic processor that holds a set of rows and knows how to process
/// identities and queries on any given row.
pub struct Processor {
    /// The global number of the window's first row.
    pub row_offset: u64,
    /// The rows being processed.
    pub data: FinalizableData,
    /// The static column data.
    pub fixed_data: FixedData,
    /// Whether each witness column is part of this machine.
    pub witness_cols: Vec<bool>,
    /// Precomputed copy of the ownership flags, for fast per-column lookup.
    pub is_relevant_witness: Vec<bool>,
    /// Owned witness columns that have a prover query attached.
    pub prover_query_witnesses: Vec<usize>,
    /// The outer query, if any. Without one, processing an outer query is
    /// not possible.
    pub outer_query: Option<OuterQuery>,
    /// The forced inputs: (column, value) pairs held fixed while active.
    pub inputs: Vec<(usize, u64)>,
    /// For each column, the row at which it was most recently force-applied.
    pub previously_set_inputs: Vec<Option<usize>>,
    /// The copy constraints to propagate assignments along.
    pub copy_constraints: CopyConstraints,
}

impl Processor {
    /// Number of witness columns.
    pub open spec fn n_cols(&self) -> int {
        self.fixed_data.n_cols()
    }

    /// Well-formedness of the processor.
    pub open spec fn wf(&self) -> bool {
        &&& self.fixed_data.wf()
        &&& self.witness_cols@.len() == self.n_cols()
        &&& self.is_relevant_witness@ == self.witness_cols@
        &&& forall|i: int|
            0 <= i < self.prover_query_witnesses@.len()
                ==> (#[trigger] self.prover_query_witnesses@[i]) < self.n_cols()
                && self.witness_cols@[self.prover_query_witnesses@[i] as int]
        &&& forall|i: int, j: int|
            0 <= i < j < self.prover_query_witnesses@.len()
                ==> (#[trigger] self.prover_query_witnesses@[i]) < (
            #[trigger] self.prover_query_witnesses@[j])
        &&& self.data.wf(self.n_cols())
        &&& self.row_offset as int + self.data.rows@.len() < u64::MAX
        &&& self.previously_set_inputs@.len() == self.n_cols()
        &&& forall|i: int|
            0 <= i < self.inputs@.len() ==> (#[trigger] self.inputs@[i]).0 < self.n_cols()
                && self.inputs@[i].1 < FP
        &&& self.copy_constraints.wf()
        &&& (self.outer_query matches Some(q) ==> outer_query_wf(
            q,
            self.n_cols(),
            self.fixed_data.n_fixed(),
        ))
    }

    /// The affine form of an expression under the two-row view at a local
    /// row of this window; see [`crate::rows::spec_eval`].
    pub open spec fn spec_eval_at(
        &self,
        row_index: int,
        strategy: UnknownStrategy,
        e: Expression,
    ) -> Result<crate::affine::AffineV, IncompleteCause> {
        crate::rows::spec_eval(
            self.data.rows@[row_index].cells@,
            Some(self.data.rows@[row_index + 1].cells@),
            (self.row_offset + row_index) as u64,
            self.fixed_data,
            strategy,
            e,
        )
    }

    /// The affine form of an expression under the single-row view at a local
    /// row of this window; see [`crate::rows::spec_eval`].
    pub open spec fn spec_eval_single(
        &self,
        row_index: int,
        strategy: UnknownStrategy,
        e: Expression,
    ) -> Result<crate::affine::AffineV, IncompleteCause> {
        crate::rows::spec_eval(
            self.data.rows@[row_index].cells@,
            None,
            (self.row_offset + row_index) as u64,
            self.fixed_data,
            strategy,
            e,
        )
    }

    /// Propagation along this processor's copy constraints stays inside the
    /// current window.
    pub open spec fn cc_ok(&self) -> bool {
        cc_in_window(
            self.copy_constraints,
            self.row_offset as int,
            self.data.rows@.len() as int,
            self.n_cols(),
        )
    }

    /// Builds a processor for one machine's window. Precomputes the
    /// per-column ownership flags and the owned columns with a prover query,
    /// so the per-row query step never rescans all columns.
    pub fn new(
        row_offset: u64,
        data: FinalizableData,
        fixed_data: FixedData,
        witness_cols: Vec<bool>,
    ) -> (r: Processor)
        requires
            fixed_data.wf(),
            witness_cols@.len() == fixed_data.n_cols(),
            data.wf(fixed_data.n_cols()),
            row_offset as int + data.rows@.len() < u64::MAX,
        ensures
            r.wf(),
            r.row_offset == row_offset,
            r.data == data,
            r.fixed_data == fixed_data,
            r.witness_cols == witness_cols,
            r.outer_query is None,
            r.inputs@.len() == 0,
            r.copy_constraints.classes@.len() == 0,
            forall|i: int|
                0 <= i < r.previously_set_inputs@.len()
                    ==> (#[trigger] r.previously_set_inputs@[i]) is None,
            r.previously_set_inputs@.len() == r.n_cols(),
            r.prover_query_witnesses@ == spec_query_columns(
                witness_cols@,
                fixed_data.witness_cols@,
                fixed_data.n_cols(),
            ),
    {
        let n_cols = fixed_data.witness_cols.len();
        let mut is_relevant_witness: Vec<bool> = Vec::new();
        let mut i: usize = 0;
        while i < n_cols
            invariant
                i <= n_cols,
                n_cols == witness_cols@.len(),
                is_relevant_witness@.len() == i,
                forall|j: int|
                    0 <= j < i ==> #[trigger] is_relevant_witness@[j] == witness_cols@[j],
            decreases n_cols - i,
        {
            is_relevant_witness.push(witness_cols[i]);
            i = i + 1;
        }
        let mut prover_query_witnesses: Vec<usize> = Vec::new();
        let mut j: usize = 0;
        while j < n_cols
            invariant
                j <= n_cols,
                n_cols == witness_cols@.len(),
                n_cols == fixed_data.witness_cols@.len(),
                forall|k: int|
                    0 <= k < prover_query_witnesses@.len()
                        ==> (#[trigger] prover_query_witnesses@[k]) < j && witness_cols@[
                        prover_query_witnesses@[k] as int
                    ],
                forall|k1: int, k2: int|
                    0 <= k1 < k2 < prover_query_witnesses@.len()
                        ==> (#[trigger] prover_query_witnesses@[k1]) < (
                        #[trigger] prover_query_witnesses@[k2]),
                prover_query_witnesses@ == spec_query_columns(
                    witness_cols@,
                    fixed_data.witness_cols@,
                    j as int,
                ),
            decreases n_cols - j,
        {
            if witness_cols[j] && fixed_data.witness_cols[j].has_query {
                prover_query_witnesses.push(j);
            }
            proof {
                assert(prover_query_witnesses@ =~= spec_query_columns(
                    witness_cols@,
                    fixed_data.witness_cols@,
                    j + 1 as int,
                ));
            }
            j = j + 1;
        }
        let mut previously_set_inputs: Vec<Option<usize>> = Vec::new();
        let mut k: usize = 0;
        while k < n_cols
            invariant
                k <= n_cols,
                previously_set_inputs@.len() == k,
                forall|t: int| 0 <= t < k ==> (#[trigger] previously_set_inputs@[t]) is None,
            decreases n_cols - k,
        {
            previously_set_inputs.push(None);
            k = k + 1;
        }
        proof {
            assert(is_relevant_witness@ =~= witness_cols@);
        }
        Processor {
            row_offset,
            data,
            fixed_data,
            witness_cols,
            is_relevant_witness,
            prover_query_witnesses,
            outer_query: None,
            inputs: Vec::new(),
            previously_set_inputs,
            copy_constraints: CopyConstraints::empty(),
        }
    }

    /// Registers externally precomputed copy constraints.
    pub fn with_copy_constraints(self, copy_constraints: CopyConstraints) -> (r: Processor)
        requires
            self.wf(),
            copy_constraints.wf(),
        ensures
            r.wf(),
            r == (Processor { copy_constraints, ..self }),
    {
        Processor { copy_constraints, ..self }
    }

    /// Number of rows in the window.
    pub fn len(&self) -> (r: usize)
        ensures
            r == self.data.rows@.len(),
    {
        self.data.len()
    }

    /// The window, handed back when processing is over.
    pub fn finish(self) -> (r: FinalizableData)
        ensures
            r == self.data,
    {
        self.data
    }

    /// Direct read access to one row.
    pub fn row(&self, i: usize) -> (r: &Row)
        requires
            i < self.data.rows@.len(),
        ensures
            *r == self.data.rows@[i as int],
    {
        &self.data.rows[i]
    }

    /// Whether an outer query is active.
    pub fn has_outer_query(&self) -> (r: bool)
        ensures
            r == (self.outer_query is Some),
    {
        match &self.outer_query {
            Some(_) => true,
            None => false,
        }
    }

    /// True if there is no outer query, or if it is complete.
    pub fn finished_outer_query(&self) -> (r: bool)
        ensures
            r == (self.outer_query matches Some(q) ==> forall|i: int|
                0 <= i < q.left@.len() ==> spec_is_constant(#[trigger] q.left@[i])),
    {
        match &self.outer_query {
            Some(q) => q.is_complete(),
            None => true,
        }
    }

    /// Sets the `i`th row, appending it if `i` is the next free index.
    pub fn set_row(&mut self, i: usize, row: Row)
        requires
            old(self).wf(),
            i <= old(self).data.rows@.len(),
            row_valid(row, old(self).n_cols()),
            i < old(self).data.rows@.len() ==> !old(self).data.finalized@[i as int],
            old(self).row_offset as int + old(self).data.rows@.len() + 1 < u64::MAX,
        ensures
            final(self).wf(),
            *final(self) == (Processor { data: final(self).data, ..*old(self) }),
            i < old(self).data.rows@.len() ==> final(self).data.rows@ == old(self).data.rows@.update(i as int, row) && final(self).data.finalized@ == old(self).data.finalized@,
            i == old(self).data.rows@.len() ==> final(self).data.rows@ == old(self).data.rows@.push(row) && final(self).data.finalized@ == old(self).data.finalized@.push(false),
    {
        if i < self.data.len() {
            self.data.rows[i] = row;
        } else {
            self.data.push(row);
        }
    }

    /// Installs an outer query and extracts the forced inputs: every linked
    /// pair whose right side is a plain owned witness column and whose left
    /// side is already a concrete constant forces that column to that value.
    pub fn with_outer_query(self, outer_query: OuterQuery) -> (r: Processor)
        requires
            self.wf(),
            outer_query_wf(outer_query, self.n_cols(), self.fixed_data.n_fixed()),
        ensures
            r.wf(),
            r.outer_query == Some(outer_query),
            r.inputs@ == spec_extract_inputs(
                outer_query.left@,
                (outer_query.connecting_identity->Connecting_right).expressions@,
                outer_query.left@.len() as int,
            ),
            r == (Processor { outer_query: Some(outer_query), inputs: r.inputs, ..self }),
    {
        let mut inputs: Vec<(usize, u64)> = Vec::new();
        match &outer_query.connecting_identity {
            Identity::Connecting { right, .. } => {
                let n = outer_query.left.len();
                let mut i: usize = 0;
                while i < n
                    invariant
                        i <= n,
                        n == outer_query.left@.len(),
                        n == right.expressions@.len(),
                        self.wf(),
                        selected_in_range(*right, self.n_cols(), self.fixed_data.n_fixed()),
                        forall|j: int|
                            0 <= j < n ==> affine_valid(
                                #[trigger] outer_query.left@[j],
                                self.n_cols(),
                            ),
                        inputs@ == spec_extract_inputs(
                            outer_query.left@,
                            right.expressions@,
                            i as int,
                        ),
                        forall|a: int|
                            0 <= a < inputs@.len() ==> (#[trigger] inputs@[a]).0 < self.n_cols()
                                && inputs@[a].1 < FP,
                    decreases n - i,
                {
                    match crate::expression::try_to_simple_poly(&right.expressions[i]) {
                        Some(c) => {
                            let committed = match c.poly_id.ptype {
                                PolyType::Committed => true,
                                PolyType::Constant => false,
                            };
                            if committed {
                                match outer_query.left[i].constant_value() {
                                    Some(v) => {
                                        inputs.push((c.poly_id.id, v));
                                    },
                                    None => {},
                                }
                            }
                        },
                        None => {},
                    }
                    proof {
                        assert(inputs@ =~= spec_extract_inputs(
                            outer_query.left@,
                            right.expressions@,
                            i + 1 as int,
                        ));
                    }
                    i = i + 1;
                }
            },
            Identity::Polynomial { .. } => {},
        }
        Processor { outer_query: Some(outer_query), inputs, ..self }
    }

    /// Applies derived constraints at a row: a constraint on an owned column
    /// is written into the current or next row (chosen by the reference's
    /// row-offset flag) and, for assignments, propagated along the copy
    /// constraints; an assignment on a column of the calling machine is
    /// folded into the outer query's left side; a range constraint on a
    /// caller column is dropped (not communicated outward). Returns whether
    /// any write occurred.
    #[verifier::rlimit(100)]
    fn apply_updates(&mut self, row_index: usize, constraints: &Vec<(ColRef, Constraint)>) -> (r:
        Result<bool, EvalError>)
        requires
            old(self).wf(),
            row_index + 1 < old(self).data.rows@.len(),
            crate::identity_processor::constraints_in_range(constraints@, old(self).n_cols()),
            constraint_values_reduced(constraints@),
            old(self).cc_ok(),
        ensures
            final(self).wf(),
            *final(self) == (Processor {
                data: final(self).data,
                outer_query: final(self).outer_query,
                ..*old(self)
            }),
            final(self).data.rows@.len() == old(self).data.rows@.len(),
            final(self).data.finalized@ == old(self).data.finalized@,
            (final(self).outer_query is Some) == (old(self).outer_query is Some),
            old(self).outer_query matches Some(q) ==> (final(self).outer_query matches Some(q2)
                && q2.connecting_identity == q.connecting_identity && q2.left@.len()
                == q.left@.len() && q2.caller_current == q.caller_current && q2.caller_next
                == q.caller_next && q2.caller_row_index == q.caller_row_index),
            old(self).copy_constraints.classes@.len() == 0 ==> r is Ok,
            r matches Err(e) ==> e is UnsupportedCopyConstraint,
            constraints@.len() == 0 ==> *final(self) == *old(self) && r == Ok::<bool, EvalError>(
                false,
            ),
            (old(self).copy_constraints.classes@.len() == 0 && own_current_distinct(
                constraints@,
                old(self).witness_cols@,
            )) ==> {
                &&& forall|i: int|
                    0 <= i < constraints@.len()
                        ==> final(self).data.rows@[row_index as int].cells@[(
                    #[trigger] constraints@[i]).0.poly_id.id as int] == spec_apply_cell(
                        old(self).data.rows@[row_index as int].cells@[constraints@[i].0.poly_id.id
                            as int],
                        constraints@[i].1,
                    )
                &&& forall|r2: int|
                    0 <= r2 < old(self).data.rows@.len() && r2 != row_index
                        ==> #[trigger] final(self).data.rows@[r2] == old(self).data.rows@[r2]
                &&& forall|c2: int|
                    0 <= c2 < old(self).n_cols() && !targets_col(constraints@, c2)
                        ==> #[trigger] final(self).data.rows@[row_index as int].cells@[c2] == old(self).data.rows@[row_index as int].cells@[c2]
                &&& final(self).outer_query == old(self).outer_query
                &&& (r matches Ok(p) && (p <==> exists|i: int|
                    0 <= i < constraints@.len() && spec_apply_cell(
                        old(self).data.rows@[row_index as int].cells@[(
                        #[trigger] constraints@[i]).0.poly_id.id as int],
                        constraints@[i].1,
                    ) != old(self).data.rows@[row_index as int].cells@[constraints@[i].0.poly_id.id
                        as int]))
            },
            (old(self).copy_constraints.classes@.len() == 0 && constraints@.len() == 1 && old(self).witness_cols@[constraints@[0].0.poly_id.id as int]) ==> {
                let tr = spec_target_row(row_index as int, constraints@[0].0);
                let c = constraints@[0].0.poly_id.id as int;
                &&& final(self).data.rows@[tr].cells@[c] == spec_apply_cell(
                    old(self).data.rows@[tr].cells@[c],
                    constraints@[0].1,
                )
                &&& forall|r2: int, c2: int|
                    0 <= r2 < old(self).data.rows@.len() && 0 <= c2 < old(self).n_cols() && !(r2
                        == tr && c2 == c)
                        ==> #[trigger] final(self).data.rows@[r2].cells@[c2] == old(self).data.rows@[r2].cells@[c2]
                &&& final(self).outer_query == old(self).outer_query
                &&& r == Ok::<bool, EvalError>(
                    spec_apply_cell(old(self).data.rows@[tr].cells@[c], constraints@[0].1) != old(self).data.rows@[tr].cells@[c],
                )
            },
            forall|r2: int, c2: int|
                0 <= r2 < old(self).data.rows@.len() && 0 <= c2 < old(self).n_cols() && old(self).data.rows@[r2].cells@[c2] is Known
                    ==> #[trigger] final(self).data.rows@[r2].cells@[c2] is Known,
            (constraints@.len() == 1 && old(self).witness_cols@[constraints@[0].0.poly_id.id
                as int] && constraints@[0].1 is RangeConstraint) ==> {
                let tr = spec_target_row(row_index as int, constraints@[0].0);
                let c = constraints@[0].0.poly_id.id as int;
                &&& final(self).data.rows@[tr].cells@[c] == spec_apply_cell(
                    old(self).data.rows@[tr].cells@[c],
                    constraints@[0].1,
                )
                &&& forall|r2: int, c2: int|
                    0 <= r2 < old(self).data.rows@.len() && 0 <= c2 < old(self).n_cols() && !(r2
                        == tr && c2 == c)
                        ==> #[trigger] final(self).data.rows@[r2].cells@[c2] == old(self).data.rows@[r2].cells@[c2]
                &&& final(self).outer_query == old(self).outer_query
                &&& r == Ok::<bool, EvalError>(
                    spec_apply_cell(old(self).data.rows@[tr].cells@[c], constraints@[0].1) != old(self).data.rows@[tr].cells@[c],
                )
            },
            (constraints@.len() == 1 && !old(self).witness_cols@[constraints@[0].0.poly_id.id
                as int]) ==> {
                &&& final(self).data == old(self).data
                &&& (constraints@[0].1 is RangeConstraint ==> (*final(self) == *old(self) && r
                    == Ok::<bool, EvalError>(false)))
                &&& (constraints@[0].1 matches Constraint::Assignment(v) ==> {
                    &&& (old(self).outer_query is None ==> (*final(self) == *old(self) && r
                        == Ok::<bool, EvalError>(false)))
                    &&& (old(self).outer_query matches Some(q1) ==> (
                    final(self).outer_query matches Some(q2) && q2.left@.len() == q1.left@.len()
                        && q2.connecting_identity == q1.connecting_identity && (forall|j: int|
                        0 <= j < q1.left@.len() ==> ((#[trigger] q2.left@[j]).coefficients@
                            == q1.left@[j].coefficients@.update(
                            spec_affine_key(constraints@[0].0),
                            0u64,
                        ) && q2.left@[j].offset == crate::field::f_add(
                            q1.left@[j].offset as int,
                            crate::field::f_mul(
                                q1.left@[j].coefficients@[spec_affine_key(constraints@[0].0)]
                                    as int,
                                v as int,
                            ),
                        ))) && r == Ok::<bool, EvalError>(true)))
                })
            },
    {
        let ghost single_f = constraints@.len() == 1 && !old(self).witness_cols@[constraints@[
            0
        ].0.poly_id.id as int];
        let ghost single_rc = constraints@.len() == 1 && old(self).witness_cols@[constraints@[
            0
        ].0.poly_id.id as int] && constraints@[0].1 is RangeConstraint;
        let ghost simple = old(self).copy_constraints.classes@.len() == 0 && own_current_distinct(
            constraints@,
            old(self).witness_cols@,
        );
        let ghost single = old(self).copy_constraints.classes@.len() == 0 && constraints@.len()
            == 1 && old(self).witness_cols@[constraints@[0].0.poly_id.id as int];
        let dlen0 = self.data.len();
        let n = constraints.len();
        let mut progress = false;
        let mut t: usize = 0;
        while t < n
            invariant
                t <= n,
                n == constraints@.len(),
                self.data.rows@.len() <= usize::MAX,
                self.wf(),
                *self == (Processor {
                    data: self.data,
                    outer_query: self.outer_query,
                    ..*old(self)
                }),
                self.data.rows@.len() == old(self).data.rows@.len(),
                self.data.finalized@ == old(self).data.finalized@,
                row_index + 1 < self.data.rows@.len(),
                (self.outer_query is Some) == (old(self).outer_query is Some),
                old(self).outer_query matches Some(q) ==> (self.outer_query matches Some(q2)
                    && q2.connecting_identity == q.connecting_identity && q2.left@.len()
                    == q.left@.len() && q2.caller_current == q.caller_current && q2.caller_next
                    == q.caller_next && q2.caller_row_index == q.caller_row_index),
                crate::identity_processor::constraints_in_range(constraints@, old(self).n_cols()),
                constraint_values_reduced(constraints@),
                old(self).cc_ok(),
                simple == (old(self).copy_constraints.classes@.len() == 0 && own_current_distinct(
                    constraints@,
                    old(self).witness_cols@,
                )),
                single == (old(self).copy_constraints.classes@.len() == 0 && constraints@.len()
                    == 1 && old(self).witness_cols@[constraints@[0].0.poly_id.id as int]),
                t == 0 ==> *self == *old(self) && !progress,
                simple ==> forall|i: int|
                    0 <= i < t ==> self.data.rows@[row_index as int].cells@[(
                    #[trigger] constraints@[i]).0.poly_id.id as int] == spec_apply_cell(
                        old(self).data.rows@[row_index as int].cells@[constraints@[i].0.poly_id.id
                            as int],
                        constraints@[i].1,
                    ),
                simple ==> forall|r2: int|
                    0 <= r2 < old(self).data.rows@.len() && r2 != row_index
                        ==> #[trigger] self.data.rows@[r2] == old(self).data.rows@[r2],
                simple ==> forall|c2: int|
                    0 <= c2 < old(self).n_cols() && (forall|i: int|
                        0 <= i < t ==> (#[trigger] constraints@[i]).0.poly_id.id != c2)
                        ==> #[trigger] self.data.rows@[row_index as int].cells@[c2] == old(self).data.rows@[row_index as int].cells@[c2],
                simple ==> self.outer_query == old(self).outer_query,
                simple ==> (progress <==> exists|i: int|
                    0 <= i < t && spec_apply_cell(
                        old(self).data.rows@[row_index as int].cells@[(
                        #[trigger] constraints@[i]).0.poly_id.id as int],
                        constraints@[i].1,
                    ) != old(self).data.rows@[row_index as int].cells@[constraints@[i].0.poly_id.id
                        as int]),
                forall|r2: int, c2: int|
                    0 <= r2 < old(self).data.rows@.len() && 0 <= c2 < old(self).n_cols() && old(self).data.rows@[r2].cells@[c2] is Known
                        ==> #[trigger] self.data.rows@[r2].cells@[c2] is Known,
                single_f == (constraints@.len() == 1 && !old(self).witness_cols@[constraints@[
                    0
                ].0.poly_id.id as int]),
                (single_f && t == 1) ==> {
                    &&& self.data == old(self).data
                    &&& (constraints@[0].1 is RangeConstraint ==> (*self == *old(self)
                        && !progress))
                    &&& (constraints@[0].1 matches Constraint::Assignment(v) ==> {
                        &&& (old(self).outer_query is None ==> (*self == *old(self) && !progress))
                        &&& (old(self).outer_query matches Some(q1) ==> (
                        self.outer_query matches Some(q2) && q2.left@.len() == q1.left@.len()
                            && q2.connecting_identity == q1.connecting_identity && (forall|j: int|
                            0 <= j < q1.left@.len() ==> ((#[trigger] q2.left@[j]).coefficients@
                                == q1.left@[j].coefficients@.update(
                                spec_affine_key(constraints@[0].0),
                                0u64,
                            ) && q2.left@[j].offset == crate::field::f_add(
                                q1.left@[j].offset as int,
                                crate::field::f_mul(
                                    q1.left@[j].coefficients@[spec_affine_key(constraints@[0].0)]
                                        as int,
                                    v as int,
                                ),
                            ))) && progress))
                    })
                },
                single_rc == (constraints@.len() == 1 && old(self).witness_cols@[constraints@[
                    0
                ].0.poly_id.id as int] && constraints@[0].1 is RangeConstraint),
                (single_rc && t == 1) ==> {
                    let tr = spec_target_row(row_index as int, constraints@[0].0);
                    let c = constraints@[0].0.poly_id.id as int;
                    &&& self.data.rows@[tr].cells@[c] == spec_apply_cell(
                        old(self).data.rows@[tr].cells@[c],
                        constraints@[0].1,
                    )
                    &&& forall|r2: int, c2: int|
                        0 <= r2 < old(self).data.rows@.len() && 0 <= c2 < old(self).n_cols() && !(
                        r2 == tr && c2 == c)
                            ==> #[trigger] self.data.rows@[r2].cells@[c2] == old(self).data.rows@[r2].cells@[c2]
                    &&& self.outer_query == old(self).outer_query
                    &&& progress == (spec_apply_cell(
                        old(self).data.rows@[tr].cells@[c],
                        constraints@[0].1,
                    ) != old(self).data.rows@[tr].cells@[c])
                },
                (single && t == 1) ==> {
                    let tr = spec_target_row(row_index as int, constraints@[0].0);
                    let c = constraints@[0].0.poly_id.id as int;
                    &&& self.data.rows@[tr].cells@[c] == spec_apply_cell(
                        old(self).data.rows@[tr].cells@[c],
                        constraints@[0].1,
                    )
                    &&& forall|r2: int, c2: int|
                        0 <= r2 < old(self).data.rows@.len() && 0 <= c2 < old(self).n_cols() && !(
                        r2 == tr && c2 == c)
                            ==> #[trigger] self.data.rows@[r2].cells@[c2] == old(self).data.rows@[r2].cells@[c2]
                    &&& self.outer_query == old(self).outer_query
                    &&& progress == (spec_apply_cell(
                        old(self).data.rows@[tr].cells@[c],
                        constraints@[0].1,
                    ) != old(self).data.rows@[tr].cells@[c])
                },
            decreases n - t,
        {
            let (colref, c) = constraints[t];
            let id = colref.poly_id.id;
            let ghost pre = *self;
            if self.witness_cols[id] {
                let target_row = if colref.next {
                    row_index + 1
                } else {
                    row_index
                };
                let changed = self.data.apply_update(target_row, id, &c);
                if changed {
                    progress = true;
                }
                match c {
                    Constraint::Assignment(v) => {
                        if !self.copy_constraints.is_empty() {
                            let dlen = self.data.len();
                            let grow = self.row_offset + (target_row as u64);
                            let others = self.copy_constraints.others_in_class(
                                (colref.poly_id, grow),
                            );
                            proof {
                                lemma_others_in_window(
                                    self.copy_constraints,
                                    (colref.poly_id, grow),
                                    self.row_offset as int,
                                    self.data.rows@.len() as int,
                                    self.n_cols(),
                                );
                            }
                            match propagate_cells(&mut self.data, &others, self.row_offset, v) {
                                Ok(()) => {},
                                Err(e) => {
                                    return Err(e);
                                },
                            }
                        }
                    },
                    Constraint::RangeConstraint(_) => {},
                }
                proof {
                    if simple {
                        assert(constraints@[t as int].0 == colref);
                        assert(!colref.next);
                        assert(target_row == row_index);
                        assert forall|i: int|
                            0 <= i < t + 1 implies self.data.rows@[row_index as int].cells@[(
                        #[trigger] constraints@[i]).0.poly_id.id as int] == spec_apply_cell(
                            old(self).data.rows@[row_index as int].cells@[constraints@[
                                i
                            ].0.poly_id.id as int],
                            constraints@[i].1,
                        ) by {
                            if i < t {
                                assert(constraints@[i].0.poly_id.id != id);
                            } else {
                                assert(pre.data.rows@[row_index as int].cells@[id as int] == old(self).data.rows@[row_index as int].cells@[id as int]);
                            }
                        }
                    }
                    if single {
                        assert(constraints@[0].0 == colref);
                        assert(target_row as int == spec_target_row(row_index as int, colref));
                    }
                    if single_rc {
                        assert(constraints@[0].0 == colref);
                        assert(target_row as int == spec_target_row(row_index as int, colref));
                    }
                }
            } else {
                match c {
                    Constraint::Assignment(v) => {
                        match &mut self.outer_query {
                            Some(q) => {
                                let ghost q0 = *q;
                                let nl = q.left.len();
                                let mut li: usize = 0;
                                while li < nl
                                    invariant
                                        li <= nl,
                                        nl == q.left@.len(),
                                        nl == q0.left@.len(),
                                        q.connecting_identity == q0.connecting_identity,
                                        q.caller_current == q0.caller_current,
                                        q.caller_next == q0.caller_next,
                                        q.caller_row_index == q0.caller_row_index,
                                        spec_affine_key(colref) < 2 * old(self).n_cols(),
                                        2 * old(self).n_cols() <= usize::MAX,
                                        forall|j: int|
                                            0 <= j < nl ==> affine_valid(
                                                #[trigger] q.left@[j],
                                                old(self).n_cols(),
                                            ),
                                        forall|j: int|
                                            0 <= j < li ==> ((#[trigger] q.left@[j]).coefficients@
                                                == q0.left@[j].coefficients@.update(
                                                spec_affine_key(colref),
                                                0u64,
                                            ) && q.left@[j].offset == crate::field::f_add(
                                                q0.left@[j].offset as int,
                                                crate::field::f_mul(
                                                    q0.left@[j].coefficients@[spec_affine_key(
                                                        colref,
                                                    )] as int,
                                                    v as int,
                                                ),
                                            )),
                                        forall|j: int|
                                            li <= j < nl ==> #[trigger] q.left@[j] == q0.left@[j],
                                    decreases nl - li,
                                {
                                    let a = &mut q.left[li];
                                    a.assign(colref, v);
                                    li = li + 1;
                                }
                                progress = true;
                            },
                            None => {},
                        }
                    },
                    Constraint::RangeConstraint(_) => {},
                }
                proof {
                    if simple {
                        assert(old(self).witness_cols@[constraints@[t as int].0.poly_id.id as int]);
                        assert(false);
                    }
                }
            }
            t = t + 1;
        }
        Ok(progress)
    }

    /// Given a row and an identity, computes any updates and applies them.
    ///
    /// Under the check-only strategy (unknowns treated as zero) a successful
    /// call mutates nothing and reports no progress: any derived constraint
    /// there would be a logic error, and the identity processor's contract
    /// rules it out. An identity violation is reported with the known values
    /// of the involved rows and leaves the window unchanged.
    pub fn process_identity(
        &mut self,
        row_index: usize,
        identity: &Identity,
        unknown_strategy: UnknownStrategy,
    ) -> (r: Result<IdentityResult, EvalError>)
        requires
            old(self).wf(),
            row_index + 1 < old(self).data.rows@.len(),
            identity_in_range(*identity, old(self).n_cols(), old(self).fixed_data.n_fixed()),
            old(self).cc_ok(),
        ensures
            final(self).wf(),
            *final(self) == (Processor {
                data: final(self).data,
                outer_query: final(self).outer_query,
                ..*old(self)
            }),
            final(self).data.rows@.len() == old(self).data.rows@.len(),
            final(self).data.finalized@ == old(self).data.finalized@,
            (final(self).outer_query is Some) == (old(self).outer_query is Some),
            unknown_strategy is Zero ==> *final(self) == *old(self),
            unknown_strategy is Zero ==> (r matches Ok(res) ==> !res.progress
                && !res.is_complete),
            r matches Err(e) ==> (e is IdentityViolation || e is UnsupportedCopyConstraint),
            old(self).copy_constraints.classes@.len() == 0 ==> (r matches Err(e) ==> e
                is IdentityViolation),
            r matches Err(e) && e is IdentityViolation ==> *final(self) == *old(self),
            identity is Connecting ==> *final(self) == *old(self),
            identity is Connecting ==> (r matches Ok(res) && !res.progress && !res.is_complete),
            r matches Err(e) ==> (e matches EvalError::IdentityViolation {
                row_index: ri,
                current_known,
                next_known,
            } ==> {
                &&& ri == old(self).row_offset + row_index
                &&& current_known@ == crate::rows::spec_known_values(
                    old(self).data.rows@[row_index as int].cells@,
                    old(self).data.rows@[row_index as int].cells@.len() as int,
                )
                &&& (identity matches Identity::Polynomial { expression } ==> {
                    &&& (crate::expression::spec_contains_next_ref(*expression) ==> (
                    next_known matches Some(nk) && nk@ == crate::rows::spec_known_values(
                        old(self).data.rows@[row_index as int + 1].cells@,
                        old(self).data.rows@[row_index as int + 1].cells@.len() as int,
                    )))
                    &&& (!crate::expression::spec_contains_next_ref(*expression) ==> next_known
                        is None)
                })
            }),
            identity matches Identity::Polynomial { expression } ==> (unknown_strategy
                is Unknown ==> {
                let pe = old(self).spec_eval_at(row_index as int, unknown_strategy, *expression);
                &&& (r matches Ok(res) ==> {
                    &&& (pe is Err ==> !res.is_complete)
                    &&& (pe matches Ok(x) && crate::affine::av_is_const(x) ==> res.is_complete)
                    &&& (pe matches Ok(x) && crate::identity_processor::av_many(x)
                        ==> !res.is_complete)
                })
            }),
            identity matches Identity::Polynomial { expression } ==> ((old(
                self,
            ).copy_constraints.classes@.len() == 0 && unknown_strategy is Unknown) ==> {
                let pe = old(self).spec_eval_at(row_index as int, unknown_strategy, *expression);
                &&& (r is Err <==> (pe matches Ok(x) && crate::affine::av_is_const(x) && x.offset
                    != 0))
                &&& (pe is Err ==> (*final(self) == *old(self) && (r matches Ok(res)
                    && !res.progress && !res.is_complete)))
                &&& ((pe matches Ok(x) && crate::affine::av_is_const(x) && x.offset == 0) ==> (
                *final(self) == *old(self) && (r matches Ok(res) && !res.progress
                    && res.is_complete)))
                &&& ((pe matches Ok(x) && crate::identity_processor::av_many(x)) ==> (*final(self)
                    == *old(self) && (r matches Ok(res) && !res.progress && !res.is_complete)))
                &&& (pe matches Ok(x) ==> forall|k: int|
                    (#[trigger] av_single(x, k) && old(self).witness_cols@[
                        crate::identity_processor::spec_key_colref(k).poly_id.id as int
                    ]) ==> (r matches Ok(res) && {
                        ||| (res.is_complete && exists|v: u64|
                            v < FP && crate::field::f_add(
                                crate::field::f_mul(x.coeffs[k], v as int),
                                x.offset,
                            ) == 0 && assigned_cell(
                                *old(self),
                                *final(self),
                                row_index as int,
                                k,
                                v,
                                res.progress,
                            ))
                        ||| (!res.is_complete && !res.progress && *final(self) == *old(self))
                    }))
                &&& ((pe matches Ok(x) && exists|k: int|
                    #[trigger] av_single(x, k) && (x.coeffs[k] == 1 || x.coeffs[k] == FP - 1))
                    ==> (r matches Ok(res) && res.is_complete))
                &&& (pe matches Ok(x) ==> forall|k: int|
                    (#[trigger] av_single(x, k) && !old(self).witness_cols@[
                        crate::identity_processor::spec_key_colref(k).poly_id.id as int
                    ]) ==> (r matches Ok(res) && {
                        ||| (res.is_complete && final(self).data == old(self).data && exists|
                            v: u64,
                        |
                            v < FP && crate::field::f_add(
                                crate::field::f_mul(x.coeffs[k], v as int),
                                x.offset,
                            ) == 0 && folded_left(
                                *old(self),
                                *final(self),
                                k,
                                v,
                                res.progress,
                            ))
                        ||| (!res.is_complete && !res.progress && *final(self) == *old(self))
                    }))
            }),
    {
        let dlen = self.data.len();
        let global_row_index = self.row_offset + (row_index as u64);
        let updates = {
            let pair = RowPair::new(
                &self.data.rows[row_index],
                &self.data.rows[row_index + 1],
                global_row_index,
                &self.fixed_data,
                unknown_strategy,
            );
            let res = crate::identity_processor::process_identity(identity, &pair);
            proof {
                match identity {
                    Identity::Polynomial { expression } => {
                        assert(pair.spec_evaluate(*expression) == old(self).spec_eval_at(
                            row_index as int,
                            unknown_strategy,
                            *expression,
                        ));
                    },
                    Identity::Connecting { .. } => {},
                }
                match &res {
                    Ok(ev) => {
                        assert(constraint_values_reduced(ev.constraints@)) by {
                            if ev.constraints@.len() > 0 {
                                match identity {
                                    Identity::Polynomial { expression } => {
                                        let x = pair.spec_evaluate(*expression)->Ok_0;
                                        assert(crate::identity_processor::solved_updates_ok(
                                            x,
                                            ev.constraints@,
                                        ));
                                        let (k, v) = choose|k: int, v: u64|
                                            av_single(x, k) && #[trigger] ev.constraints@[0] == (
                                                crate::identity_processor::spec_key_colref(k),
                                                Constraint::Assignment(v),
                                            ) && v < FP && crate::field::f_add(
                                                crate::field::f_mul(x.coeffs[k], v as int),
                                                x.offset,
                                            ) == 0;
                                        assert forall|i: int|
                                            0 <= i < ev.constraints@.len() implies ((
                                        #[trigger] ev.constraints@[i]).1 matches
                                            Constraint::Assignment(vv) ==> vv < FP) by {
                                            assert(i == 0);
                                            assert(ev.constraints@[0].1
                                                == Constraint::Assignment(v));
                                        }
                                    },
                                    Identity::Connecting { .. } => {},
                                }
                            }
                        }
                        assert(crate::identity_processor::constraints_in_range(
                            ev.constraints@,
                            self.n_cols(),
                        ));
                    },
                    Err(_) => {},
                }
            }
            res
        };
        match updates {
            Err(_) => {
                proof {
                    match identity {
                        Identity::Polynomial { expression } => {
                            let pe = old(self).spec_eval_at(
                                row_index as int,
                                unknown_strategy,
                                *expression,
                            );
                            if let Ok(x) = pe {
                                assert forall|k: int| !(#[trigger] av_single(x, k)) by {
                                    if av_single(x, k) {
                                        assert(crate::affine::av_is_const(x));
                                        assert(x.coeffs[k] == 0);
                                        assert(false);
                                    }
                                }
                            }
                        },
                        Identity::Connecting { .. } => {},
                    }
                }
                let current_known = crate::rows::row_known_values(&self.data.rows[row_index]);
                let next_known = match identity {
                    Identity::Polynomial { expression } => {
                        if crate::expression::contains_next_ref(expression) {
                            Some(crate::rows::row_known_values(&self.data.rows[row_index + 1]))
                        } else {
                            None
                        }
                    },
                    Identity::Connecting { .. } => None,
                };
                Err(EvalError::IdentityViolation {
                    row_index: global_row_index,
                    current_known,
                    next_known,
                })
            },
            Ok(ev) => {
                match unknown_strategy {
                    UnknownStrategy::Zero => Ok(
                        IdentityResult { progress: false, is_complete: false },
                    ),
                    UnknownStrategy::Unknown => {
                        let applied = self.apply_updates(row_index, &ev.constraints);
                        let out: Result<IdentityResult, EvalError> = match applied {
                            Ok(progress) => Ok(
                                IdentityResult { progress, is_complete: ev.complete },
                            ),
                            Err(e) => Err(e),
                        };
                        proof {
                            if old(self).copy_constraints.classes@.len() == 0 {
                                match identity {
                                    Identity::Polynomial { expression } => {
                                        let pe = old(self).spec_eval_at(
                                            row_index as int,
                                            unknown_strategy,
                                            *expression,
                                        );
                                        if let Ok(x) = pe {
                                            assert(crate::identity_processor::solved_updates_ok(
                                                x,
                                                ev.constraints@,
                                            ));
                                            assert forall|k: int| #[trigger] av_single(
                                                x,
                                                k,
                                            ) implies !crate::affine::av_is_const(x) by {
                                                assert(x.coeffs[k] != 0);
                                            }
                                            if ev.constraints@.len() == 0 {
                                                assert(applied == Ok::<bool, EvalError>(false));
                                                assert(*self == *old(self));
                                            }
                                            if ev.constraints@.len() == 1 {
                                                assert(ev.complete);
                                                let (k2, v) = choose|k2: int, v: u64|
                                                    av_single(x, k2) && #[trigger] ev.constraints@[0]
                                                        == (
                                                        crate::identity_processor::spec_key_colref(
                                                            k2,
                                                        ),
                                                        Constraint::Assignment(v),
                                                    ) && v < FP && crate::field::f_add(
                                                        crate::field::f_mul(x.coeffs[k2], v as int),
                                                        x.offset,
                                                    ) == 0;
                                                assert forall|k: int|
                                                    #[trigger] av_single(x, k) implies k == k2 by {
                                                    if k != k2 {
                                                        assert(x.coeffs[k] == 0);
                                                    }
                                                }
                                                assert(spec_apply_cell(
                                                    old(self).data.rows@[spec_target_row(
                                                        row_index as int,
                                                        ev.constraints@[0].0,
                                                    )].cells@[ev.constraints@[0].0.poly_id.id
                                                        as int],
                                                    ev.constraints@[0].1,
                                                ) == CellValue::Known(v));
                                                if old(self).witness_cols@[
                                                    crate::identity_processor::spec_key_colref(
                                                        k2,
                                                    ).poly_id.id as int
                                                ] {
                                                    assert(applied is Ok);
                                                    assert(out matches Ok(res) && res.progress
                                                        == applied->Ok_0 && res.is_complete);
                                                    assert(assigned_cell(
                                                        *old(self),
                                                        *self,
                                                        row_index as int,
                                                        k2,
                                                        v,
                                                        out->Ok_0.progress,
                                                    ));
                                                } else {
                                                    vstd::arithmetic::div_mod::lemma_fundamental_div_mod(
                                                        k2,
                                                        2,
                                                    );
                                                    crate::rows::lemma_spec_eval_len(
                                                        old(self).data.rows@[row_index as int].cells@,
                                                        Some(old(self).data.rows@[row_index as int + 1].cells@),
                                                        (old(self).row_offset + row_index) as u64,
                                                        old(self).fixed_data,
                                                        unknown_strategy,
                                                        *expression,
                                                    );
                                                    assert(0 <= k2 < 2 * old(self).n_cols());
                                                    assert(0 <= k2 / 2 < old(self).n_cols());
                                                    assert(((k2 / 2) as usize) as int == k2 / 2);
                                                    assert(spec_affine_key(ev.constraints@[0].0)
                                                        == k2);
                                                    assert(applied is Ok);
                                                    assert(out matches Ok(res) && res.progress
                                                        == applied->Ok_0 && res.is_complete);
                                                    assert(folded_left(
                                                        *old(self),
                                                        *self,
                                                        k2,
                                                        v,
                                                        out->Ok_0.progress,
                                                    ));
                                                }
                                            }
                                        }
                                    },
                                    Identity::Connecting { .. } => {},
                                }
                            }
                        }
                        out
                    },
                }
            },
        }
    }

    /// Sets the value of a given expression in a given row, by solving
    /// `expression - value == 0`. An expression that cannot be evaluated yet
    /// or that leaves several unknowns makes no progress; one that is
    /// already a constant other than `value` is a mismatch.
    pub fn set_value(&mut self, row_index: usize, expression: &Expression, value: u64) -> (r:
        Result<bool, EvalError>)
        requires
            old(self).wf(),
            row_index + 1 < old(self).data.rows@.len(),
            crate::expression::expr_in_range(
                *expression,
                old(self).n_cols(),
                old(self).fixed_data.n_fixed(),
            ),
            value < FP,
            old(self).cc_ok(),
        ensures
            final(self).wf(),
            *final(self) == (Processor {
                data: final(self).data,
                outer_query: final(self).outer_query,
                ..*old(self)
            }),
            final(self).data.rows@.len() == old(self).data.rows@.len(),
            final(self).data.finalized@ == old(self).data.finalized@,
            (final(self).outer_query is Some) == (old(self).outer_query is Some),
            r matches Err(e) && (e is Incomplete || e is ValueMismatch) ==> *final(self) == *old(self),
            old(self).copy_constraints.classes@.len() == 0 ==> (r matches Err(e) ==> (e
                is Incomplete || e is ValueMismatch)),
            old(self).spec_eval_at(row_index as int, UnknownStrategy::Unknown, *expression)
                matches Err(c) ==> r == Err::<bool, EvalError>(EvalError::Incomplete(c)),
            r matches Err(e) ==> (e is Incomplete ==> old(self).spec_eval_at(
                row_index as int,
                UnknownStrategy::Unknown,
                *expression,
            ) is Err),
            old(self).spec_eval_at(row_index as int, UnknownStrategy::Unknown, *expression)
                matches Ok(x) ==> {
                let d = crate::affine::av_sub(
                    x,
                    crate::affine::av_const(2 * old(self).n_cols(), value as int),
                );
                r == Err::<bool, EvalError>(EvalError::ValueMismatch) <==> (
                crate::affine::av_is_const(d) && d.offset != 0)
            },
            old(self).spec_eval_at(row_index as int, UnknownStrategy::Unknown, *expression)
                matches Ok(x) ==> ((old(self).copy_constraints.classes@.len() == 0) ==> {
                let d = crate::affine::av_sub(
                    x,
                    crate::affine::av_const(2 * old(self).n_cols(), value as int),
                );
                &&& ((crate::affine::av_is_const(d) && d.offset == 0) ==> (*final(self) == *old(self)
                    && r == Ok::<bool, EvalError>(false)))
                &&& (crate::identity_processor::av_many(d) ==> (*final(self) == *old(self) && r
                    == Ok::<bool, EvalError>(false)))
                &&& (forall|k: int|
                    (#[trigger] av_single(d, k) && old(self).witness_cols@[
                        crate::identity_processor::spec_key_colref(k).poly_id.id as int
                    ]) ==> {
                        ||| (exists|v: u64|
                            v < FP && crate::field::f_add(
                                crate::field::f_mul(d.coeffs[k], v as int),
                                d.offset,
                            ) == 0 && (r matches Ok(p) && assigned_cell(
                                *old(self),
                                *final(self),
                                row_index as int,
                                k,
                                v,
                                p,
                            )))
                        ||| (*final(self) == *old(self) && r == Ok::<bool, EvalError>(false))
                    })
                &&& ((exists|k: int|
                    #[trigger] av_single(d, k) && (d.coeffs[k] == 1 || d.coeffs[k] == FP - 1)
                        && old(self).witness_cols@[
                        crate::identity_processor::spec_key_colref(k).poly_id.id as int
                    ]) ==> (r matches Ok(p) && exists|k: int, v: u64|
                    av_single(d, k) && v < FP && crate::field::f_add(
                        crate::field::f_mul(d.coeffs[k], v as int),
                        d.offset,
                    ) == 0 && assigned_cell(*old(self), *final(self), row_index as int, k, v, p)))
            }),
    {
        let n_cols = self.fixed_data.witness_cols.len();
        let dlen = self.data.len();
        let evaluated = {
            let pair = RowPair::new(
                &self.data.rows[row_index],
                &self.data.rows[row_index + 1],
                self.row_offset + (row_index as u64),
                &self.fixed_data,
                UnknownStrategy::Unknown,
            );
            proof {
                assert(pair.spec_evaluate(*expression) == old(self).spec_eval_at(
                    row_index as int,
                    UnknownStrategy::Unknown,
                    *expression,
                ));
            }
            pair.evaluate(expression)
        };
        match evaluated {
            Err(cause) => Err(EvalError::Incomplete(cause)),
            Ok(a) => {
                let target = AffineExpression::constant(value, n_cols);
                let diff = a.minus(&target);
                proof {
                    assert(crate::affine::av(target) =~= crate::affine::av_const(
                        2 * old(self).n_cols(),
                        value as int,
                    ));
                    assert(crate::affine::av(diff) =~= crate::affine::av_sub(
                        crate::affine::av(a),
                        crate::affine::av(target),
                    ));
                    crate::affine::lemma_av_const_equiv(diff);
                }
                match crate::affine::solve(&diff) {
                    crate::affine::SolveOutcome::Complete => Ok(false),
                    crate::affine::SolveOutcome::Violation => Err(EvalError::ValueMismatch),
                    crate::affine::SolveOutcome::Incomplete => {
                        proof {
                            assert forall|k: int| #[trigger] av_single(crate::affine::av(diff), k) implies crate::affine::av(diff).coeffs[k] != 1 && crate::affine::av(diff).coeffs[k]
                                != FP - 1 by {
                                if crate::affine::av(diff).coeffs[k] == 1 || crate::affine::av(diff).coeffs[k] == FP - 1 {
                                    assert(diff.coefficients@[k] == 1 || diff.coefficients@[k]
                                        == FP - 1);
                                    assert forall|j: int|
                                        0 <= j < diff.coefficients@.len() && j != k implies
                                        #[trigger] diff.coefficients@[j] == 0 by {
                                        assert(crate::affine::av(diff).coeffs[j] == 0);
                                    }
                                    assert(false);
                                }
                            }
                        }
                        Ok(false)
                    },
                    crate::affine::SolveOutcome::Assignment { key, value: v } => {
                        let colref = crate::identity_processor::key_to_colref(key);
                        let mut constraints: Vec<(ColRef, Constraint)> = Vec::new();
                        constraints.push((colref, Constraint::Assignment(v)));
                        proof {
                            crate::identity_processor::lemma_assignment_bridge(
                                diff,
                                key as int,
                                v,
                            );
                        }
                        let applied = self.apply_updates(row_index, &constraints);
                        let out: Result<bool, EvalError> = match applied {
                            Ok(p) => Ok(p),
                            Err(e) => Err(e),
                        };
                        proof {
                            assert forall|k: int| #[trigger] av_single(crate::affine::av(diff), k) implies k
                                == key as int by {
                                if k != key as int {
                                    assert(crate::affine::av(diff).coeffs[k] == 0) by {
                                        assert(diff.coefficients@[k] == 0);
                                    }
                                }
                            }
                            if old(self).copy_constraints.classes@.len() == 0 && old(self).witness_cols@[colref.poly_id.id as int] {
                                assert(applied is Ok);
                                assert(spec_apply_cell(
                                    old(self).data.rows@[spec_target_row(
                                        row_index as int,
                                        colref,
                                    )].cells@[colref.poly_id.id as int],
                                    Constraint::Assignment(v),
                                ) == CellValue::Known(v));
                                assert(out matches Ok(p) && assigned_cell(
                                    *old(self),
                                    *self,
                                    row_index as int,
                                    key as int,
                                    v,
                                    p,
                                ));
                            }
                        }
                        out
                    },
                }
            },
        }
    }

    /// Evaluates the connecting identity's selector against a single-row
    /// view (no next-row access, unknowns unsolved) and returns whether it
    /// evaluates to exactly one, or nothing if there is no outer query, no
    /// selector, or the selector is not yet resolvable.
    pub fn latch_value(&self, row_index: usize) -> (r: Option<bool>)
        requires
            self.wf(),
            row_index < self.data.rows@.len(),
        ensures
            r == (match self.outer_query {
                Some(q) => match q.connecting_identity {
                    Identity::Connecting { right, .. } => match right.selector {
                        Some(latch) => match self.spec_eval_single(
                            row_index as int,
                            UnknownStrategy::Unknown,
                            latch,
                        ) {
                            Ok(x) => if crate::affine::av_is_const(x) {
                                Some(x.offset == 1)
                            } else {
                                None::<bool>
                            },
                            Err(_) => None::<bool>,
                        },
                        None => None::<bool>,
                    },
                    Identity::Polynomial { .. } => None::<bool>,
                },
                None => None::<bool>,
            }),
    {
        match &self.outer_query {
            None => None,
            Some(q) => match &q.connecting_identity {
                Identity::Polynomial { .. } => None,
                Identity::Connecting { right, .. } => match &right.selector {
                    None => None,
                    Some(latch) => {
                        let pair = RowPair::from_single_row(
                            &self.data.rows[row_index],
                            self.row_offset + (row_index as u64),
                            &self.fixed_data,
                            UnknownStrategy::Unknown,
                        );
                        let r = match pair.evaluate(latch) {
                            Err(_) => None,
                            Ok(a) => {
                                proof {
                                    crate::affine::lemma_av_const_equiv(a);
                                }
                                match a.constant_value() {
                                    None => None,
                                    Some(v) => Some(v == 1),
                                }
                            },
                        };
                        proof {
                            assert(pair.spec_evaluate(*latch) == self.spec_eval_single(
                                row_index as int,
                                UnknownStrategy::Unknown,
                                *latch,
                            ));
                        }
                        r
                    },
                },
            },
        }
    }

    /// Checks whether a proposed row, not yet committed to the window, would
    /// satisfy one identity, under the check-only strategy. If the identity
    /// references the next row, the pair is built from the real previous row
    /// and the proposed row; otherwise from the proposed row alone.
    pub fn check_row_pair(
        &self,
        row_index: usize,
        proposed_row: &Row,
        identity: &Identity,
        has_next_reference: bool,
    ) -> (r: bool)
        requires
            self.wf(),
            row_valid(*proposed_row, self.n_cols()),
            identity_in_range(*identity, self.n_cols(), self.fixed_data.n_fixed()),
            row_index < self.data.rows@.len(),
            has_next_reference ==> row_index > 0,
        ensures
            r == (match *identity {
                Identity::Connecting { .. } => true,
                Identity::Polynomial { expression } => {
                    let pe = if has_next_reference {
                        crate::rows::spec_eval(
                            self.data.rows@[row_index - 1].cells@,
                            Some(proposed_row.cells@),
                            (self.row_offset + row_index - 1) as u64,
                            self.fixed_data,
                            UnknownStrategy::Zero,
                            expression,
                        )
                    } else {
                        crate::rows::spec_eval(
                            proposed_row.cells@,
                            None,
                            (self.row_offset + row_index) as u64,
                            self.fixed_data,
                            UnknownStrategy::Zero,
                            expression,
                        )
                    };
                    !(pe matches Ok(x) && crate::affine::av_is_const(x) && x.offset != 0)
                },
            }),
    {
        let outcome = if has_next_reference {
            let pair = RowPair::new(
                &self.data.rows[row_index - 1],
                proposed_row,
                self.row_offset + ((row_index - 1) as u64),
                &self.fixed_data,
                UnknownStrategy::Zero,
            );
            crate::identity_processor::process_identity(identity, &pair)
        } else {
            let pair = RowPair::from_single_row(
                proposed_row,
                self.row_offset + (row_index as u64),
                &self.fixed_data,
                UnknownStrategy::Zero,
            );
            crate::identity_processor::process_identity(identity, &pair)
        };
        match outcome {
            Ok(_) => true,
            Err(_) => false,
        }
    }

    /// Runs the prover queries of this machine's query columns at one row:
    /// an externally supplied answer for a column whose cell is not yet
    /// known becomes an assignment (the first matching answer counts). A
    /// column without an answer is simply not yet resolvable.
    pub fn process_queries(&mut self, row_index: usize, answers: &Vec<(usize, u64)>) -> (r: Result<
        bool,
        EvalError,
    >)
        requires
            old(self).wf(),
            row_index + 1 < old(self).data.rows@.len(),
            forall|i: int| 0 <= i < answers@.len() ==> (#[trigger] answers@[i]).1 < FP,
            old(self).cc_ok(),
        ensures
            final(self).wf(),
            *final(self) == (Processor {
                data: final(self).data,
                outer_query: final(self).outer_query,
                ..*old(self)
            }),
            final(self).data.rows@.len() == old(self).data.rows@.len(),
            final(self).data.finalized@ == old(self).data.finalized@,
            old(self).copy_constraints.classes@.len() == 0 ==> r is Ok,
            r matches Err(e) ==> e is UnsupportedCopyConstraint,
            answers@.len() == 0 ==> *final(self) == *old(self) && r == Ok::<bool, EvalError>(
                false,
            ),
            old(self).copy_constraints.classes@.len() == 0 ==> {
                &&& forall|t: int|
                    0 <= t < old(self).prover_query_witnesses@.len() ==> {
                        let col = (#[trigger] old(self).prover_query_witnesses@[t]) as int;
                        &&& (old(self).data.rows@[row_index as int].cells@[col] is Known ==> final(self).data.rows@[row_index as int].cells@[col] == old(self).data.rows@[row_index as int].cells@[col])
                        &&& (!(old(self).data.rows@[row_index as int].cells@[col] is Known)
                            ==> final(self).data.rows@[row_index as int].cells@[col] == (
                        match spec_first_answer(
                            answers@,
                            old(self).prover_query_witnesses@[t],
                            answers@.len() as int,
                        ) {
                            Some(v) => CellValue::Known(v),
                            None => old(self).data.rows@[row_index as int].cells@[col],
                        }))
                    }
                &&& forall|r2: int, c2: int|
                    0 <= r2 < old(self).data.rows@.len() && 0 <= c2 < old(self).n_cols() && (r2
                        != row_index || (forall|t: int|
                        0 <= t < old(self).prover_query_witnesses@.len()
                            ==> (#[trigger] old(self).prover_query_witnesses@[t]) != c2))
                        ==> #[trigger] final(self).data.rows@[r2].cells@[c2] == old(self).data.rows@[r2].cells@[c2]
                &&& r == Ok::<bool, EvalError>(
                    exists|t: int|
                        0 <= t < old(self).prover_query_witnesses@.len() && !(old(self).data.rows@[
                            row_index as int
                        ].cells@[(#[trigger] old(self).prover_query_witnesses@[t]) as int]
                            is Known) && spec_first_answer(
                            answers@,
                            old(self).prover_query_witnesses@[t],
                            answers@.len() as int,
                        ) is Some,
                )
                &&& final(self).outer_query == old(self).outer_query
            },
    {
        let ghost known0 = self.data.rows@[row_index as int].cells@;
        let mut updates: Vec<(ColRef, Constraint)> = Vec::new();
        let ghost mut srcs: Seq<int> = Seq::empty();
        let nq = self.prover_query_witnesses.len();
        let mut qi: usize = 0;
        while qi < nq
            invariant
                qi <= nq,
                nq == self.prover_query_witnesses@.len(),
                self.wf(),
                *self == *old(self),
                row_index + 1 < self.data.rows@.len(),
                known0 == self.data.rows@[row_index as int].cells@,
                forall|i: int| 0 <= i < answers@.len() ==> (#[trigger] answers@[i]).1 < FP,
                srcs.len() == updates@.len(),
                forall|k: int| 0 <= k < srcs.len() ==> 0 <= #[trigger] srcs[k] < qi,
                forall|k1: int, k2: int| 0 <= k1 < k2 < srcs.len() ==> srcs[k1] < srcs[k2],
                forall|k: int|
                    0 <= k < updates@.len() ==> {
                        let t = srcs[k];
                        &&& (#[trigger] updates@[k]).0.poly_id.id
                            == self.prover_query_witnesses@[t]
                        &&& updates@[k].0.poly_id.ptype is Committed
                        &&& !updates@[k].0.next
                        &&& !(known0[self.prover_query_witnesses@[t] as int] is Known)
                        &&& spec_first_answer(
                            answers@,
                            self.prover_query_witnesses@[t],
                            answers@.len() as int,
                        ) matches Some(v) && updates@[k].1 == Constraint::Assignment(v)
                    },
                forall|t: int|
                    0 <= t < qi && !(known0[(
                    #[trigger] self.prover_query_witnesses@[t]) as int] is Known)
                        && spec_first_answer(
                        answers@,
                        self.prover_query_witnesses@[t],
                        answers@.len() as int,
                    ) is Some ==> exists|k: int| 0 <= k < srcs.len() && #[trigger] srcs[k] == t,
                answers@.len() == 0 ==> updates@.len() == 0,
            decreases nq - qi,
        {
            let col = self.prover_query_witnesses[qi];
            let ghost srcs0 = srcs;
            let ghost updates0 = updates@;
            if !self.data.rows[row_index].cells[col].is_known() {
                let na = answers.len();
                let mut found: Option<u64> = None;
                let mut ai: usize = 0;
                while ai < na
                    invariant
                        ai <= na,
                        na == answers@.len(),
                        found == spec_first_answer(answers@, col, ai as int),
                    decreases na - ai,
                {
                    if found.is_none() && answers[ai].0 == col {
                        found = Some(answers[ai].1);
                    }
                    ai = ai + 1;
                }
                match found {
                    Some(v) => {
                        proof {
                            srcs = srcs.push(qi as int);
                        }
                        updates.push(
                            (
                                ColRef {
                                    poly_id: PolyId { id: col, ptype: PolyType::Committed },
                                    next: false,
                                },
                                Constraint::Assignment(v),
                            ),
                        );
                        proof {
                            assert forall|k: int| 0 <= k < updates@.len() implies {
                                let t = srcs[k];
                                &&& (#[trigger] updates@[k]).0.poly_id.id
                                    == self.prover_query_witnesses@[t]
                                &&& updates@[k].0.poly_id.ptype is Committed
                                &&& !updates@[k].0.next
                                &&& !(known0[self.prover_query_witnesses@[t] as int] is Known)
                                &&& spec_first_answer(
                                    answers@,
                                    self.prover_query_witnesses@[t],
                                    answers@.len() as int,
                                ) matches Some(v2) && updates@[k].1 == Constraint::Assignment(v2)
                            } by {
                                if k < updates@.len() - 1 {
                                    assert(updates@[k] == updates0[k]);
                                    assert(srcs[k] == srcs0[k]);
                                } else {
                                    assert(srcs[k] == qi as int);
                                    assert(updates@[k].0.poly_id.id == col);
                                }
                            }
                            assert forall|t: int|
                                0 <= t < qi + 1 && !(known0[(
                            #[trigger] self.prover_query_witnesses@[t]) as int] is Known)
                                && spec_first_answer(
                                answers@,
                                self.prover_query_witnesses@[t],
                                answers@.len() as int,
                            ) is Some implies exists|k: int|
                                0 <= k < srcs.len() && #[trigger] srcs[k] == t by {
                                if t < qi {
                                    let k0 = choose|k: int|
                                        0 <= k < srcs0.len() && srcs0[k] == t;
                                    assert(srcs[k0] == t);
                                } else {
                                    assert(srcs[srcs.len() - 1] == t);
                                }
                            }
                        }
                    },
                    None => {},
                }
            }
            qi = qi + 1;
        }
        let ghost pqw = self.prover_query_witnesses@;
        proof {
            if old(self).copy_constraints.classes@.len() == 0 {
                assert(own_current_distinct(updates@, self.witness_cols@)) by {
                    assert forall|k1: int, k2: int|
                        0 <= k1 < k2 < updates@.len() implies (
                    #[trigger] updates@[k1]).0.poly_id.id != (
                    #[trigger] updates@[k2]).0.poly_id.id by {
                        assert(srcs[k1] < srcs[k2]);
                        assert(pqw[srcs[k1]] < pqw[srcs[k2]]);
                    }
                }
            }
            assert(crate::identity_processor::constraints_in_range(updates@, self.n_cols()));
            assert(constraint_values_reduced(updates@)) by {
                assert forall|i: int|
                    0 <= i < updates@.len() implies ((#[trigger] updates@[i]).1 matches
                    Constraint::Assignment(vv) ==> vv < FP) by {
                    lemma_first_answer_reduced(answers@, pqw[srcs[i]], answers@.len() as int);
                }
            }
        }
        let applied = self.apply_updates(row_index, &updates);
        proof {
            if old(self).copy_constraints.classes@.len() == 0 {
                assert forall|t: int|
                    0 <= t < old(self).prover_query_witnesses@.len() implies {
                    let col = (#[trigger] old(self).prover_query_witnesses@[t]) as int;
                    &&& (old(self).data.rows@[row_index as int].cells@[col] is Known ==> self.data.rows@[row_index as int].cells@[col] == old(self).data.rows@[row_index as int].cells@[col])
                    &&& (!(old(self).data.rows@[row_index as int].cells@[col] is Known)
                        ==> self.data.rows@[row_index as int].cells@[col] == (
                    match spec_first_answer(
                        answers@,
                        old(self).prover_query_witnesses@[t],
                        answers@.len() as int,
                    ) {
                        Some(v) => CellValue::Known(v),
                        None => old(self).data.rows@[row_index as int].cells@[col],
                    }))
                } by {
                    let col = old(self).prover_query_witnesses@[t] as int;
                    let fa = spec_first_answer(
                        answers@,
                        old(self).prover_query_witnesses@[t],
                        answers@.len() as int,
                    );
                    if !(known0[col] is Known) && fa is Some {
                        let k0 = choose|k: int| 0 <= k < srcs.len() && #[trigger] srcs[k] == t;
                        assert(updates@[k0].0.poly_id.id as int == col);
                        assert(updates@[k0].1 == Constraint::Assignment(fa->0));
                        assert(self.data.rows@[row_index as int].cells@[col] == spec_apply_cell(
                            old(self).data.rows@[row_index as int].cells@[col],
                            updates@[k0].1,
                        ));
                    } else {
                        assert(!targets_col(updates@, col)) by {
                            if targets_col(updates@, col) {
                                let kk = choose|kk: int|
                                    0 <= kk < updates@.len() && (
                                    #[trigger] updates@[kk]).0.poly_id.id == col;
                                let t2 = srcs[kk];
                                assert(pqw[t2] as int == col);
                                if t2 != t {
                                    assert(pqw[t2] != pqw[t]) by {
                                        if t2 < t {
                                            assert(pqw[t2] < pqw[t]);
                                        } else {
                                            assert(pqw[t] < pqw[t2]);
                                        }
                                    }
                                    assert(false);
                                }
                                assert(false);
                            }
                        }
                    }
                }
                assert forall|t2: int|
                    0 <= t2 < old(self).prover_query_witnesses@.len() && !(old(self).data.rows@[
                        row_index as int
                    ].cells@[(#[trigger] old(self).prover_query_witnesses@[t2]) as int]
                        is Known) && spec_first_answer(
                        answers@,
                        old(self).prover_query_witnesses@[t2],
                        answers@.len() as int,
                    ) is Some implies applied == Ok::<bool, EvalError>(true) by {
                    let k0 = choose|k: int| 0 <= k < srcs.len() && #[trigger] srcs[k] == t2;
                    assert(spec_apply_cell(
                        old(self).data.rows@[row_index as int].cells@[(
                        #[trigger] updates@[k0]).0.poly_id.id as int],
                        updates@[k0].1,
                    ) != old(self).data.rows@[row_index as int].cells@[updates@[
                        k0
                    ].0.poly_id.id as int]);
                }
                if updates@.len() > 0 {
                    assert(!(known0[pqw[srcs[0]] as int] is Known) && spec_first_answer(
                        answers@,
                        pqw[srcs[0]],
                        answers@.len() as int,
                    ) is Some);
                }
            }
        }
        applied
    }

    /// Processes the outer query's connecting identity at one row: the
    /// selector, if any, is first forced to one (failure to do so is
    /// tolerated, not fatal), the caller's left side is unified with this
    /// machine's right side, derived updates are applied, and exactly the
    /// derived assignments whose column this machine does not own are
    /// returned outward. Range constraints are never communicated outward.
    pub fn process_outer_query(&mut self, row_index: usize) -> (r: Result<
        (bool, Vec<(ColRef, Constraint)>),
        EvalError,
    >)
        requires
            old(self).wf(),
            old(self).outer_query is Some,
            row_index + 1 < old(self).data.rows@.len(),
            old(self).cc_ok(),
        ensures
            final(self).wf(),
            *final(self) == (Processor {
                data: final(self).data,
                outer_query: final(self).outer_query,
                ..*old(self)
            }),
            final(self).data.rows@.len() == old(self).data.rows@.len(),
            final(self).data.finalized@ == old(self).data.finalized@,
            final(self).outer_query is Some,
            r matches Ok(p) ==> forall|i: int|
                0 <= i < p.1@.len() ==> (!old(self).witness_cols@[(
                #[trigger] p.1@[i]).0.poly_id.id as int] && p.1@[i].1 is Assignment),
            r matches Err(e) ==> (e is IdentityViolation || e is UnsupportedCopyConstraint),
            old(self).copy_constraints.classes@.len() == 0 ==> (r matches Err(e) ==> e
                is IdentityViolation),
            old(self).outer_query matches Some(q) ==> ((old(
                self,
            ).copy_constraints.classes@.len() == 0 && (
            q.connecting_identity->Connecting_right).selector is None) ==> {
                &&& (r is Err <==> link_violated(*old(self), row_index as int))
                &&& (r matches Ok(p) ==> forall|i: int|
                    0 <= i < p.1@.len() ==> outward_forced(
                        *old(self),
                        row_index as int,
                        #[trigger] p.1@[i],
                    ))
            }),
    {
        let dlen = self.data.len();
        let mut progress = false;
        let selector: Option<Expression> = match &self.outer_query {
            Some(q) => match &q.connecting_identity {
                Identity::Connecting { right, .. } => match &right.selector {
                    Some(s) => Some(s.duplicate()),
                    None => None,
                },
                Identity::Polynomial { .. } => None,
            },
            None => None,
        };
        match selector {
            Some(s) => {
                match self.set_value(row_index, &s, 1) {
                    Ok(p) => {
                        if p {
                            progress = true;
                        }
                    },
                    Err(EvalError::Incomplete(_)) => {},
                    Err(EvalError::ValueMismatch) => {},
                    Err(e) => {
                        return Err(e);
                    },
                }
            },
            None => {},
        }
        let updates = {
            let pair = RowPair::new(
                &self.data.rows[row_index],
                &self.data.rows[row_index + 1],
                self.row_offset + (row_index as u64),
                &self.fixed_data,
                UnknownStrategy::Unknown,
            );
            match &self.outer_query {
                Some(q) => match &q.connecting_identity {
                    Identity::Connecting { right, .. } => {
                        let res = crate::identity_processor::process_link(&q.left, right, &pair);
                        proof {
                            let base = *self == *old(self);
                            if base {
                                assert forall|j: int|
                                    0 <= j < right.expressions@.len() implies pair.spec_evaluate(
                                    #[trigger] right.expressions@[j],
                                ) == old(self).spec_eval_at(
                                    row_index as int,
                                    UnknownStrategy::Unknown,
                                    right.expressions@[j],
                                ) by {}
                            }
                            match &res {
                                Ok(ev) => {
                                    assert forall|i: int|
                                        0 <= i < ev.constraints@.len() implies ((
                                    #[trigger] ev.constraints@[i]).1 matches
                                        Constraint::Assignment(vv) ==> vv < FP) by {
                                        assert(crate::identity_processor::link_forces(
                                            q.left@,
                                            *right,
                                            pair,
                                            ev.constraints@[i],
                                        ));
                                        let (j, k) = choose|j: int, k: int|
                                            crate::identity_processor::link_derives(
                                                q.left@,
                                                *right,
                                                pair,
                                                j,
                                                k,
                                                ev.constraints@[i],
                                            );
                                    }
                                    if base {
                                        assert(!link_violated(*old(self), row_index as int)) by {
                                            if link_violated(*old(self), row_index as int) {
                                                let j = choose|j: int|
                                                    0 <= j < q.left@.len() && (old(self).spec_eval_at(
                                                        row_index as int,
                                                        UnknownStrategy::Unknown,
                                                        #[trigger] right.expressions@[j],
                                                    ) matches Ok(y) && crate::affine::av_is_const(
                                                        crate::affine::av_sub(
                                                            crate::affine::av(q.left@[j]),
                                                            y,
                                                        ),
                                                    ) && crate::affine::av_sub(
                                                        crate::affine::av(q.left@[j]),
                                                        y,
                                                    ).offset != 0);
                                                assert(false);
                                            }
                                        }
                                        assert forall|i: int|
                                            0 <= i < ev.constraints@.len() implies outward_forced(
                                            *old(self),
                                            row_index as int,
                                            #[trigger] ev.constraints@[i],
                                        ) by {
                                            assert(crate::identity_processor::link_forces(
                                                q.left@,
                                                *right,
                                                pair,
                                                ev.constraints@[i],
                                            ));
                                            let (j, k) = choose|j: int, k: int|
                                                crate::identity_processor::link_derives(
                                                    q.left@,
                                                    *right,
                                                    pair,
                                                    j,
                                                    k,
                                                    ev.constraints@[i],
                                                );
                                            assert(pair.spec_evaluate(right.expressions@[j])
                                                == old(self).spec_eval_at(
                                                row_index as int,
                                                UnknownStrategy::Unknown,
                                                right.expressions@[j],
                                            ));
                                            assert(outward_pair_forces(
                                                *old(self),
                                                row_index as int,
                                                j,
                                                k,
                                                ev.constraints@[i],
                                            ));
                                        }
                                    }
                                },
                                Err(_) => {
                                    if base {
                                        assert(link_violated(*old(self), row_index as int)) by {
                                            let j = choose|j: int|
                                                0 <= j < q.left@.len() && (pair.spec_evaluate(
                                                    #[trigger] right.expressions@[j],
                                                ) matches Ok(y) && crate::affine::av_is_const(
                                                    crate::affine::av_sub(
                                                        crate::affine::av(q.left@[j]),
                                                        y,
                                                    ),
                                                ) && crate::affine::av_sub(
                                                    crate::affine::av(q.left@[j]),
                                                    y,
                                                ).offset != 0);
                                            assert(pair.spec_evaluate(right.expressions@[j])
                                                == old(self).spec_eval_at(
                                                row_index as int,
                                                UnknownStrategy::Unknown,
                                                right.expressions@[j],
                                            ));
                                        }
                                    }
                                },
                            }
                        }
                        res
                    },
                    Identity::Polynomial { .. } => {
                        proof {
                            assert(false);
                        }
                        Err(SolveError::ConstraintUnsatisfiable)
                    },
                },
                None => {
                    proof {
                        assert(false);
                    }
                    Err(SolveError::ConstraintUnsatisfiable)
                },
            }
        };
        match updates {
            Err(_) => {
                let current_known = crate::rows::row_known_values(&self.data.rows[row_index]);
                let next_known = Some(crate::rows::row_known_values(&self.data.rows[row_index + 1]));
                Err(EvalError::IdentityViolation {
                    row_index: self.row_offset + (row_index as u64),
                    current_known,
                    next_known,
                })
            },
            Ok(ev) => {
                let ghost sound = forall|i: int|
                    0 <= i < ev.constraints@.len() ==> outward_forced(
                        *old(self),
                        row_index as int,
                        #[trigger] ev.constraints@[i],
                    );
                match self.apply_updates(row_index, &ev.constraints) {
                    Err(e) => Err(e),
                    Ok(p2) => {
                        if p2 {
                            progress = true;
                        }
                        let mut outward: Vec<(ColRef, Constraint)> = Vec::new();
                        let nc = ev.constraints.len();
                        let mut i: usize = 0;
                        while i < nc
                            invariant
                                i <= nc,
                                nc == ev.constraints@.len(),
                                self.wf(),
                                self.witness_cols@ == old(self).witness_cols@,
                                crate::identity_processor::constraints_in_range(
                                    ev.constraints@,
                                    self.n_cols(),
                                ),
                                sound == (forall|t: int|
                                    0 <= t < ev.constraints@.len() ==> outward_forced(
                                        *old(self),
                                        row_index as int,
                                        #[trigger] ev.constraints@[t],
                                    )),
                                forall|t: int|
                                    0 <= t < outward@.len() ==> (!old(self).witness_cols@[(
                                    #[trigger] outward@[t]).0.poly_id.id as int] && outward@[t].1
                                        is Assignment),
                                sound ==> forall|t: int|
                                    0 <= t < outward@.len() ==> outward_forced(
                                        *old(self),
                                        row_index as int,
                                        #[trigger] outward@[t],
                                    ),
                            decreases nc - i,
                        {
                            let (cr, c) = ev.constraints[i];
                            match c {
                                Constraint::Assignment(_) => {
                                    if !self.is_relevant_witness[cr.poly_id.id] {
                                        outward.push((cr, c));
                                    }
                                },
                                Constraint::RangeConstraint(_) => {},
                            }
                            i = i + 1;
                        }
                        Ok((progress, outward))
                    },
                }
            },
        }
    }

    /// Sets each forced input to its value if the cell is not already
    /// concretely known. A column being freshly forced again after an
    /// earlier force at row `r1` has rows `[r1, row_index)` reset to unknown
    /// first: the stale run of forced values is erased before re-forcing,
    /// and the force record is moved to this row. This is the only path that
    /// regresses a cell from known back to unknown.
    #[verifier::rlimit(100)]
    pub fn set_inputs_if_unset(&mut self, row_index: usize) -> (r: Result<bool, EvalError>)
        requires
            old(self).wf(),
            row_index + 1 < old(self).data.rows@.len(),
            old(self).cc_ok(),
        ensures
            final(self).wf(),
            *final(self) == (Processor {
                data: final(self).data,
                previously_set_inputs: final(self).previously_set_inputs,
                outer_query: final(self).outer_query,
                ..*old(self)
            }),
            final(self).data.rows@.len() == old(self).data.rows@.len(),
            final(self).data.finalized@ == old(self).data.finalized@,
            old(self).copy_constraints.classes@.len() == 0 ==> r is Ok,
            r matches Err(e) ==> e is UnsupportedCopyConstraint,
            old(self).inputs@.len() == 0 ==> *final(self) == *old(self) && r == Ok::<
                bool,
                EvalError,
            >(false),
            (old(self).copy_constraints.classes@.len() == 0 && inputs_distinct_owned(
                old(self).inputs@,
                old(self).witness_cols@,
            )) ==> {
                &&& forall|i: int|
                    0 <= i < old(self).inputs@.len() ==> {
                        let col = (#[trigger] old(self).inputs@[i]).0 as int;
                        let val = old(self).inputs@[i].1;
                        &&& (old(self).data.rows@[row_index as int].cells@[col] is Known ==> (
                            final(self).data.rows@[row_index as int].cells@[col] == old(self).data.rows@[row_index as int].cells@[col]
                            && final(self).previously_set_inputs@[col] == old(self).previously_set_inputs@[col]
                            && forall|r2: int| 0 <= r2 < old(self).data.rows@.len() ==> #[trigger] final(self).data.rows@[r2].cells@[col] == old(self).data.rows@[r2].cells@[col]))
                        &&& (!(old(self).data.rows@[row_index as int].cells@[col] is Known) ==> (
                            final(self).data.rows@[row_index as int].cells@[col] == CellValue::Known(val)
                            && final(self).previously_set_inputs@[col] == Some(row_index)
                            && (old(self).previously_set_inputs@[col] matches Some(r1)
                                ==> forall|rr: int| r1 <= rr < row_index ==> final(self).data.rows@[rr].cells@[col] == CellValue::Unknown)))
                    }
                &&& forall|c2: int|
                    0 <= c2 < old(self).n_cols() && (forall|i: int|
                        0 <= i < old(self).inputs@.len() ==> (#[trigger] old(self).inputs@[i]).0
                            != c2) ==> ((forall|r2: int|
                        0 <= r2 < old(self).data.rows@.len()
                            ==> #[trigger] final(self).data.rows@[r2].cells@[c2] == old(self).data.rows@[r2].cells@[c2])
                        && final(self).previously_set_inputs@[c2] == old(self).previously_set_inputs@[c2])
                &&& r == Ok::<bool, EvalError>(
                    exists|i: int|
                        0 <= i < old(self).inputs@.len() && !(old(self).data.rows@[row_index
                            as int].cells@[(#[trigger] old(self).inputs@[i]).0 as int] is Known),
                )
            },
    {
        let dlen = self.data.len();
        let ghost known0 = self.data.rows@[row_index as int].cells@;
        let mut fresh: Vec<(ColRef, Constraint)> = Vec::new();
        let ghost mut srcs: Seq<int> = Seq::empty();
        let ni = self.inputs.len();
        let mut i: usize = 0;
        while i < ni
            invariant
                i <= ni,
                ni == self.inputs@.len(),
                self.wf(),
                *self == *old(self),
                row_index + 1 < self.data.rows@.len(),
                known0 == self.data.rows@[row_index as int].cells@,
                srcs.len() == fresh@.len(),
                forall|k: int| 0 <= k < srcs.len() ==> 0 <= #[trigger] srcs[k] < i,
                forall|k1: int, k2: int| 0 <= k1 < k2 < srcs.len() ==> srcs[k1] < srcs[k2],
                forall|k: int|
                    0 <= k < fresh@.len() ==> {
                        &&& (#[trigger] fresh@[k]).0.poly_id.id == self.inputs@[srcs[k]].0
                        &&& fresh@[k].0.poly_id.ptype is Committed
                        &&& !fresh@[k].0.next
                        &&& fresh@[k].1 == Constraint::Assignment(self.inputs@[srcs[k]].1)
                        &&& !(known0[self.inputs@[srcs[k]].0 as int] is Known)
                    },
                forall|j: int|
                    0 <= j < i && !(known0[(#[trigger] self.inputs@[j]).0 as int] is Known)
                        ==> exists|k: int| 0 <= k < srcs.len() && #[trigger] srcs[k] == j,
                ni == 0 ==> fresh@.len() == 0,
            decreases ni - i,
        {
            let (col, val) = self.inputs[i];
            let ghost srcs0 = srcs;
            let ghost fresh0 = fresh@;
            if !self.data.rows[row_index].cells[col].is_known() {
                proof {
                    srcs = srcs.push(i as int);
                }
                fresh.push(
                    (
                        ColRef { poly_id: PolyId { id: col, ptype: PolyType::Committed }, next: false },
                        Constraint::Assignment(val),
                    ),
                );
                proof {
                    assert(srcs[srcs.len() - 1] == i as int);
                    assert forall|k: int| 0 <= k < fresh@.len() implies {
                        &&& (#[trigger] fresh@[k]).0.poly_id.id == self.inputs@[srcs[k]].0
                        &&& fresh@[k].0.poly_id.ptype is Committed
                        &&& !fresh@[k].0.next
                        &&& fresh@[k].1 == Constraint::Assignment(self.inputs@[srcs[k]].1)
                        &&& !(known0[self.inputs@[srcs[k]].0 as int] is Known)
                    } by {
                        if k < fresh@.len() - 1 {
                            assert(fresh@[k] == fresh0[k]);
                            assert(srcs[k] == srcs0[k]);
                        } else {
                            assert(srcs[k] == i as int);
                            assert(fresh@[k].0.poly_id.id == col);
                        }
                    }
                    assert forall|j: int|
                        0 <= j < i + 1 && !(known0[(#[trigger] self.inputs@[j]).0 as int]
                            is Known) implies exists|k: int|
                        0 <= k < srcs.len() && #[trigger] srcs[k] == j by {
                        if j < i {
                            let k0 = choose|k: int| 0 <= k < srcs0.len() && srcs0[k] == j;
                            assert(srcs[k0] == j);
                        } else {
                            assert(srcs[srcs.len() - 1] == j);
                        }
                    }
                }
            }
            i = i + 1;
        }
        let ghost lawful = inputs_distinct_owned(self.inputs@, self.witness_cols@);
        proof {
            if lawful {
                assert(own_current_distinct(fresh@, self.witness_cols@)) by {
                    assert forall|k1: int, k2: int|
                        0 <= k1 < k2 < fresh@.len() implies (#[trigger] fresh@[k1]).0.poly_id.id
                        != (#[trigger] fresh@[k2]).0.poly_id.id by {
                        assert(srcs[k1] < srcs[k2]);
                        assert(self.inputs@[srcs[k1]].0 != self.inputs@[srcs[k2]].0);
                    }
                }
            }
            assert(crate::identity_processor::constraints_in_range(fresh@, self.n_cols()));
            assert(constraint_values_reduced(fresh@));
        }
        let nf = fresh.len();
        let mut k: usize = 0;
        let ghost prev0 = self.previously_set_inputs@;
        while k < nf
            invariant
                k <= nf,
                nf == fresh@.len(),
                self.wf(),
                *self == (Processor {
                    data: self.data,
                    previously_set_inputs: self.previously_set_inputs,
                    ..*old(self)
                }),
                prev0 == old(self).previously_set_inputs@,
                self.data.rows@.len() == old(self).data.rows@.len(),
                self.data.finalized@ == old(self).data.finalized@,
                row_index + 1 < self.data.rows@.len(),
                self.previously_set_inputs@.len() == prev0.len(),
                lawful == inputs_distinct_owned(old(self).inputs@, old(self).witness_cols@),
                forall|kk: int|
                    0 <= kk < fresh@.len() ==> (#[trigger] fresh@[kk]).0.poly_id.id
                        < self.n_cols(),
                lawful ==> own_current_distinct(fresh@, old(self).witness_cols@),
                nf == 0 ==> *self == *old(self),
                self.data.rows@[row_index as int] == old(self).data.rows@[row_index as int],
                lawful ==> forall|kk: int|
                    0 <= kk < k ==> #[trigger] self.previously_set_inputs@[fresh@[
                        kk
                    ].0.poly_id.id as int] == Some(row_index),
                lawful ==> forall|c2: int|
                    0 <= c2 < prev0.len() && (forall|kk: int|
                        0 <= kk < k ==> (#[trigger] fresh@[kk]).0.poly_id.id != c2)
                        ==> #[trigger] self.previously_set_inputs@[c2] == prev0[c2],
                lawful ==> forall|r2: int, c2: int|
                    0 <= r2 < self.data.rows@.len() && 0 <= c2 < self.n_cols() && (r2 == row_index
                        || (forall|kk: int|
                        0 <= kk < k ==> (#[trigger] fresh@[kk]).0.poly_id.id != c2))
                        ==> #[trigger] self.data.rows@[r2].cells@[c2] == old(self).data.rows@[r2].cells@[c2],
                lawful ==> forall|kk: int|
                    0 <= kk < k ==> ((prev0[(#[trigger] fresh@[kk]).0.poly_id.id as int] matches
                        Some(r1) ==> forall|rr: int|
                        r1 <= rr < row_index ==> self.data.rows@[rr].cells@[fresh@[
                            kk
                        ].0.poly_id.id as int] == CellValue::Unknown)),
            decreases nf - k,
        {
            let col = fresh[k].0.poly_id.id;
            proof {
                if lawful {
                    assert(forall|kk: int|
                        0 <= kk < k ==> (#[trigger] fresh@[kk]).0.poly_id.id != col);
                    assert(self.previously_set_inputs@[col as int] == prev0[col as int]);
                }
            }
            let ghost entry = *self;
            match self.previously_set_inputs[col] {
                Some(start_row) => {
                    let mut rr = start_row;
                    while rr < row_index
                        invariant
                            start_row <= rr,
                            rr <= row_index || rr == start_row,
                            row_index + 1 < self.data.rows@.len(),
                            col < self.n_cols(),
                            self.wf(),
                            *self == (Processor { data: self.data, ..entry }),
                            self.data.rows@.len() == entry.data.rows@.len(),
                            self.data.finalized@ == entry.data.finalized@,
                            entry.wf(),
                            entry.n_cols() == self.n_cols(),
                            forall|r2: int, c2: int|
                                0 <= r2 < self.data.rows@.len() && 0 <= c2 < self.n_cols() && !(c2
                                    == col && start_row <= r2 < rr)
                                    ==> #[trigger] self.data.rows@[r2].cells@[c2]
                                    == entry.data.rows@[r2].cells@[c2],
                            forall|r2: int|
                                start_row <= r2 < rr ==> self.data.rows@[r2].cells@[col as int]
                                    == CellValue::Unknown,
                            forall|r2: int|
                                rr <= r2 < self.data.rows@.len() || row_index <= r2
                                    < self.data.rows@.len() ==> #[trigger] self.data.rows@[r2]
                                    == entry.data.rows@[r2],
                        decreases row_index - rr,
                    {
                        self.data.set_cell_unknown(rr, col);
                        rr = rr + 1;
                    }
                },
                None => {},
            }
            self.previously_set_inputs[col] = Some(row_index);
            k = k + 1;
        }
        let applied = self.apply_updates(row_index, &fresh);
        proof {
            if old(self).copy_constraints.classes@.len() == 0 && lawful {
                assert forall|i2: int| 0 <= i2 < old(self).inputs@.len() implies {
                    let col = (#[trigger] old(self).inputs@[i2]).0 as int;
                    let val = old(self).inputs@[i2].1;
                    &&& (old(self).data.rows@[row_index as int].cells@[col] is Known ==> (
                        self.data.rows@[row_index as int].cells@[col] == old(self).data.rows@[row_index as int].cells@[col]
                        && self.previously_set_inputs@[col] == old(self).previously_set_inputs@[col]
                        && forall|r2: int| 0 <= r2 < old(self).data.rows@.len() ==> #[trigger] self.data.rows@[r2].cells@[col] == old(self).data.rows@[r2].cells@[col]))
                    &&& (!(old(self).data.rows@[row_index as int].cells@[col] is Known) ==> (
                        self.data.rows@[row_index as int].cells@[col] == CellValue::Known(val)
                        && self.previously_set_inputs@[col] == Some(row_index)
                        && (old(self).previously_set_inputs@[col] matches Some(r1)
                            ==> forall|rr: int| r1 <= rr < row_index ==> self.data.rows@[rr].cells@[col] == CellValue::Unknown)))
                } by {
                    let col = old(self).inputs@[i2].0 as int;
                    let val = old(self).inputs@[i2].1;
                    if known0[col] is Known {
                        assert(!targets_col(fresh@, col)) by {
                            if targets_col(fresh@, col) {
                                let kk = choose|kk: int|
                                    0 <= kk < fresh@.len() && (#[trigger] fresh@[kk]).0.poly_id.id
                                        == col;
                                assert(self.inputs@[srcs[kk]].0 as int == col);
                                if srcs[kk] != i2 {
                                    assert(old(self).inputs@[srcs[kk]].0 != old(self).inputs@[i2].0);
                                    assert(false);
                                }
                                assert(!(known0[col] is Known));
                                assert(false);
                            }
                        }
                    } else {
                        let k0 = choose|k0: int| 0 <= k0 < srcs.len() && #[trigger] srcs[k0] == i2;
                        assert(fresh@[k0].0.poly_id.id as int == col);
                        assert(fresh@[k0].1 == Constraint::Assignment(val));
                        assert(self.data.rows@[row_index as int].cells@[col]
                            == CellValue::Known(val));
                    }
                }
                assert forall|c2: int|
                    0 <= c2 < old(self).n_cols() && (forall|i2: int|
                        0 <= i2 < old(self).inputs@.len() ==> (#[trigger] old(self).inputs@[
                            i2
                        ]).0 != c2) implies ((forall|r2: int|
                    0 <= r2 < old(self).data.rows@.len()
                        ==> #[trigger] self.data.rows@[r2].cells@[c2] == old(self).data.rows@[r2].cells@[c2])
                    && self.previously_set_inputs@[c2] == old(self).previously_set_inputs@[c2]) by {
                    assert(forall|kk: int|
                        0 <= kk < fresh@.len() ==> (#[trigger] fresh@[kk]).0.poly_id.id != c2);
                    assert(!targets_col(fresh@, c2)) by {
                        if targets_col(fresh@, c2) {
                            let kk = choose|kk: int|
                                0 <= kk < fresh@.len() && (#[trigger] fresh@[kk]).0.poly_id.id
                                    == c2;
                            assert(false);
                        }
                    }
                }
                assert(applied == Ok::<bool, EvalError>(
                    exists|i2: int|
                        0 <= i2 < old(self).inputs@.len() && !(old(self).data.rows@[row_index
                            as int].cells@[(#[trigger] old(self).inputs@[i2]).0 as int] is Known),
                )) by {
                    assert(applied is Ok);
                    if exists|i2: int|
                        0 <= i2 < old(self).inputs@.len() && !(old(self).data.rows@[row_index
                            as int].cells@[(#[trigger] old(self).inputs@[i2]).0 as int]
                            is Known) {
                        let i2 = choose|i2: int|
                            0 <= i2 < old(self).inputs@.len() && !(old(self).data.rows@[row_index
                                as int].cells@[(#[trigger] old(self).inputs@[i2]).0 as int]
                                is Known);
                        let k0 = choose|k0: int| 0 <= k0 < srcs.len() && #[trigger] srcs[k0] == i2;
                        assert(spec_apply_cell(
                            self.data.rows@[row_index as int].cells@[(#[trigger] fresh@[
                                k0
                            ]).0.poly_id.id as int],
                            fresh@[k0].1,
                        ) == CellValue::Known(old(self).inputs@[i2].1));
                        assert(applied->Ok_0);
                    }
                    if applied->Ok_0 {
                        assert(fresh@.len() > 0) by {
                            if fresh@.len() == 0 {
                                assert(!applied->Ok_0);
                            }
                        }
                        assert(0 <= srcs[0] < old(self).inputs@.len() && !(known0[old(self).inputs@[
                            srcs[0]
                        ].0 as int] is Known));
                    }
                }
            }
        }
        applied
    }

    /// Marks the rows of `[start, end)` as finalized, for compaction.
    /// Forbidden while copy constraints are registered, since propagation may
    /// still need to write into already-processed rows.
    pub fn finalize_range(&mut self, start: usize, end: usize)
        requires
            old(self).wf(),
            old(self).copy_constraints.classes@.len() == 0,
            start <= end,
            end <= old(self).data.rows@.len(),
        ensures
            final(self).wf(),
            *final(self) == (Processor { data: final(self).data, ..*old(self) }),
            final(self).data.rows@ == old(self).data.rows@,
            final(self).data.finalized@.len() == old(self).data.finalized@.len(),
            forall|i: int|
                0 <= i < final(self).data.finalized@.len()
                    ==> #[trigger] final(self).data.finalized@[i] == (if start <= i < end {
                    true
                } else {
                    old(self).data.finalized@[i]
                }),
    {
        self.data.finalize_range(start, end);
    }
}

} // verus!
