//! Derives constraints from one identity (or from the connecting identity of
//! an outer query) on a row pair.

use vstd::prelude::*;
use crate::affine::{
    av, av_is_const, av_sub, affine_valid, spec_affine_key, AffineExpression, AffineV,
    SolveOutcome,
};
use crate::columns::{ColRef, Constraint, PolyId, PolyType};
use crate::expression::{selected_in_range, Identity, SelectedExpressions};
use crate::field::{f_add, f_mul, FP};
use crate::rows::{RowPair, UnknownStrategy};

verus! {

/// The set of constraints one evaluation derived, and whether every value
/// the identity references is now concretely known.
pub struct EvalValue {
    /// The derived constraints.
    pub constraints: Vec<(ColRef, Constraint)>,
    /// Whether the identity is fully resolved.
    pub complete: bool,
}

/// A hard failure: the identity cannot hold under the derived values.
#[derive(Clone, Copy, PartialEq, Eq, Structural, Debug)]
pub enum SolveError {
    /// Evaluation produced a nonzero constant where zero is required.
    ConstraintUnsatisfiable,
}

/// Whether the affine value has exactly one unknown, at slot `k`.
pub open spec fn av_single(x: AffineV, k: int) -> bool {
    &&& 0 <= k < x.coeffs.len()
    &&& x.coeffs[k] != 0
    &&& forall|j: int| 0 <= j < x.coeffs.len() && j != k ==> #[trigger] x.coeffs[j] == 0
}

/// Whether the affine value has two or more unknowns.
pub open spec fn av_many(x: AffineV) -> bool {
    exists|i: int, j: int|
        0 <= i < j < x.coeffs.len() && #[trigger] x.coeffs[i] != 0 && #[trigger] x.coeffs[j] != 0
}

/// The column reference whose dense affine slot is `key`.
pub open spec fn spec_key_colref(key: int) -> ColRef {
    ColRef {
        poly_id: PolyId { id: (key / 2) as usize, ptype: PolyType::Committed },
        next: key % 2 == 1,
    }
}

/// The column reference whose dense affine slot is `key`.
pub fn key_to_colref(key: usize) -> (r: ColRef)
    ensures
        r == spec_key_colref(key as int),
{
    ColRef {
        poly_id: PolyId { id: key / 2, ptype: PolyType::Committed },
        next: key % 2 == 1,
    }
}

/// Whether `cs` is a sound derivation from the requirement `x == 0`: either
/// nothing, or the single remaining unknown assigned the one value that
/// zeroes the affine form.
pub open spec fn solved_updates_ok(x: AffineV, cs: Seq<(ColRef, Constraint)>) -> bool {
    ||| cs.len() == 0
    ||| (cs.len() == 1 && exists|k: int, v: u64|
        av_single(x, k) && #[trigger] cs[0] == (spec_key_colref(k), Constraint::Assignment(v)) && v
            < FP && f_add(f_mul(x.coeffs[k], v as int), x.offset) == 0)
}

/// Processes one identity on a row pair and returns the constraints it can
/// derive, or fails if the identity is violated.
///
/// A polynomial identity is evaluated to an affine form that must be zero;
/// an evaluation that cannot complete is absorbed as "no progress". A
/// connecting identity is not processed here: it is handled from the callee
/// side through the outer query.
pub fn process_identity(identity: &Identity, pair: &RowPair) -> (r: Result<EvalValue, SolveError>)
    requires
        pair.wf(),
        crate::expression::identity_in_range(
            *identity,
            pair.n_cols(),
            pair.fixed_data.n_fixed(),
        ),
    ensures
        identity matches Identity::Polynomial { expression } ==> {
            &&& (r is Err <==> (pair.spec_evaluate(*expression) matches Ok(x) && av_is_const(x)
                && x.offset != 0))
            &&& (r matches Ok(ev) ==> {
                &&& (pair.spec_evaluate(*expression) matches Ok(x) ==> solved_updates_ok(
                    x,
                    ev.constraints@,
                ))
                &&& (pair.spec_evaluate(*expression) is Err ==> ev.constraints@.len() == 0
                    && !ev.complete)
                &&& (pair.spec_evaluate(*expression) matches Ok(x) && av_is_const(x) ==> ev
                    .constraints@.len() == 0 && ev.complete)
                &&& (pair.spec_evaluate(*expression) matches Ok(x) && av_many(x) ==> ev
                    .constraints@.len() == 0 && !ev.complete)
                &&& ((pair.spec_evaluate(*expression) matches Ok(x) && exists|k: int|
                    #[trigger] av_single(x, k) && (x.coeffs[k] == 1 || x.coeffs[k] == FP - 1))
                    ==> ev.constraints@.len() == 1)
                &&& (ev.complete <==> (pair.spec_evaluate(*expression) matches Ok(x) && (av_is_const(
                    x,
                ) || ev.constraints@.len() == 1)))
                &&& constraints_in_range(ev.constraints@, pair.n_cols())
            })
        },
        identity is Connecting ==> (r matches Ok(ev) && ev.constraints@.len() == 0 && !ev.complete),
        pair.unknown_strategy is Zero ==> (r matches Ok(ev) ==> ev.constraints@.len() == 0),
{
    match identity {
        Identity::Polynomial { expression } => {
            match pair.evaluate(expression) {
                Err(_) => Ok(EvalValue { constraints: Vec::new(), complete: false }),
                Ok(a) => {
                    let outcome = crate::affine::solve(&a);
                    proof {
                        crate::affine::lemma_av_const_equiv(a);
                    }
                    match outcome {
                        SolveOutcome::Complete => Ok(
                            EvalValue { constraints: Vec::new(), complete: true },
                        ),
                        SolveOutcome::Violation => Err(SolveError::ConstraintUnsatisfiable),
                        SolveOutcome::Incomplete => {
                            proof {
                                lemma_not_const_bridge(a);
                                assert forall|k: int| !(av_single(av(a), k) && (av(a).coeffs[k]
                                    == 1 || av(a).coeffs[k] == FP - 1)) by {
                                    if av_single(av(a), k) && (av(a).coeffs[k] == 1 || av(
                                        a,
                                    ).coeffs[k] == FP - 1) {
                                        assert(a.coefficients@[k] == 1 || a.coefficients@[k] == FP
                                            - 1);
                                        assert forall|j: int|
                                            0 <= j < a.coefficients@.len() && j != k implies
                                            #[trigger] a.coefficients@[j] == 0 by {
                                            assert(av(a).coeffs[j] == 0);
                                        }
                                        assert(false);
                                    }
                                }
                            }
                            Ok(EvalValue { constraints: Vec::new(), complete: false })
                        },
                        SolveOutcome::Assignment { key, value } => {
                            let colref = key_to_colref(key);
                            let mut constraints: Vec<(ColRef, Constraint)> = Vec::new();
                            constraints.push((colref, Constraint::Assignment(value)));
                            proof {
                                lemma_assignment_bridge(a, key as int, value);
                                assert(constraints@[0] == (
                                    spec_key_colref(key as int),
                                    Constraint::Assignment(value),
                                ));
                                assert(solved_updates_ok(av(a), constraints@));
                            }
                            Ok(EvalValue { constraints, complete: true })
                        },
                    }
                },
            }
        },
        Identity::Connecting { .. } => Ok(EvalValue { constraints: Vec::new(), complete: false }),
    }
}

/// Constraints that can be applied to a window of `n_cols` witness columns:
/// each names a committed column in range.
pub open spec fn constraints_in_range(cs: Seq<(ColRef, Constraint)>, n_cols: int) -> bool {
    forall|i: int|
        0 <= i < cs.len() ==> (#[trigger] cs[i]).0.poly_id.ptype is Committed
            && cs[i].0.poly_id.id < n_cols
}

/// An affine expression with a nonzero coefficient is not constant.
proof fn lemma_not_const_bridge(a: AffineExpression)
    ensures
        !crate::affine::spec_is_constant(a) ==> !av_is_const(av(a)),
{
    crate::affine::lemma_av_const_equiv(a);
}

/// Bridges the solver's outcome on an affine expression to the affine value
/// the derived constraint speaks of.
pub proof fn lemma_assignment_bridge(a: AffineExpression, k: int, v: u64)
    requires
        0 <= k < a.coefficients@.len(),
        a.coefficients@[k] != 0,
        forall|j: int| 0 <= j < a.coefficients@.len() && j != k ==> #[trigger] a.coefficients@[j]
            == 0,
        v < FP,
        f_add(f_mul(a.coefficients@[k] as int, v as int), a.offset as int) == 0,
    ensures
        av_single(av(a), k),
        f_add(f_mul(av(a).coeffs[k], v as int), av(a).offset) == 0,
        !av_is_const(av(a)),
        !av_many(av(a)),
{
    assert forall|j: int| 0 <= j < av(a).coeffs.len() && j != k implies #[trigger] av(a).coeffs[j]
        == 0 by {
        assert(a.coefficients@[j] == 0);
    }
    assert(av(a).coeffs[k] != 0);
}

/// One derived link constraint `c` is forced by linked pair `j`: the
/// difference of the caller's evaluated left side and this machine's right
/// side has a single unknown at slot `k`, and `c` assigns it the one value
/// that zeroes the difference.
pub open spec fn link_derives<'a>(
    left: Seq<AffineExpression>,
    right: SelectedExpressions,
    pair: RowPair<'a>,
    j: int,
    k: int,
    c: (ColRef, Constraint),
) -> bool {
    &&& 0 <= j < left.len()
    &&& pair.spec_evaluate(right.expressions@[j]) matches Ok(y) && {
        let d = av_sub(av(left[j]), y);
        &&& av_single(d, k)
        &&& c.0 == spec_key_colref(k)
        &&& (c.1 matches Constraint::Assignment(v) && v < FP && f_add(
            f_mul(d.coeffs[k], v as int),
            d.offset,
        ) == 0)
    }
}

/// A derived link constraint `c` is forced by one of the linked pairs.
pub open spec fn link_forces<'a>(
    left: Seq<AffineExpression>,
    right: SelectedExpressions,
    pair: RowPair<'a>,
    c: (ColRef, Constraint),
) -> bool {
    exists|j: int, k: int| link_derives(left, right, pair, j, k, c)
}

/// Jointly unifies the caller's pre-evaluated left-side expressions with
/// this machine's right-side expressions: for each linked pair, the
/// difference must be zero, and a single remaining unknown (on either side)
/// is solved for.
pub fn process_link(
    left: &Vec<AffineExpression>,
    right: &SelectedExpressions,
    pair: &RowPair,
) -> (r: Result<EvalValue, SolveError>)
    requires
        pair.wf(),
        selected_in_range(*right, pair.n_cols(), pair.fixed_data.n_fixed()),
        left@.len() == right.expressions@.len(),
        forall|i: int| 0 <= i < left@.len() ==> affine_valid(#[trigger] left@[i], pair.n_cols()),
    ensures
        r matches Ok(ev) ==> {
            &&& constraints_in_range(ev.constraints@, pair.n_cols())
            &&& forall|i: int|
                0 <= i < ev.constraints@.len() ==> (#[trigger] ev.constraints@[i]).1 is Assignment
            &&& forall|i: int|
                0 <= i < ev.constraints@.len() ==> link_forces(
                    left@,
                    *right,
                    *pair,
                    #[trigger] ev.constraints@[i],
                )
            &&& (ev.complete ==> forall|j: int|
                0 <= j < left@.len() ==> (pair.spec_evaluate(
                    #[trigger] right.expressions@[j],
                )) is Ok)
            &&& forall|j: int|
                0 <= j < left@.len() ==> (pair.spec_evaluate(#[trigger] right.expressions@[j])
                    matches Ok(y) ==> (av_is_const(av_sub(av(left@[j]), y)) ==> av_sub(
                    av(left@[j]),
                    y,
                ).offset == 0))
        },
        r is Err ==> exists|j: int|
            0 <= j < left@.len() && (pair.spec_evaluate(#[trigger] right.expressions@[j]) matches
                Ok(y) && av_is_const(av_sub(av(left@[j]), y)) && av_sub(av(left@[j]), y).offset
                != 0),
{
    let n = left.len();
    let mut constraints: Vec<(ColRef, Constraint)> = Vec::new();
    let mut complete = true;
    let mut j: usize = 0;
    while j < n
        invariant
            j <= n,
            n == left@.len(),
            n == right.expressions@.len(),
            pair.wf(),
            selected_in_range(*right, pair.n_cols(), pair.fixed_data.n_fixed()),
            forall|i: int|
                0 <= i < left@.len() ==> affine_valid(#[trigger] left@[i], pair.n_cols()),
            constraints_in_range(constraints@, pair.n_cols()),
            forall|i: int|
                0 <= i < constraints@.len() ==> (#[trigger] constraints@[i]).1 is Assignment,
            forall|i: int|
                0 <= i < constraints@.len() ==> link_forces(
                    left@,
                    *right,
                    *pair,
                    #[trigger] constraints@[i],
                ),
            complete ==> forall|jj: int|
                0 <= jj < j ==> (pair.spec_evaluate(#[trigger] right.expressions@[jj])) is Ok,
            forall|jj: int|
                0 <= jj < j ==> (pair.spec_evaluate(#[trigger] right.expressions@[jj]) matches Ok(
                    y,
                ) ==> (av_is_const(av_sub(av(left@[jj]), y)) ==> av_sub(av(left@[jj]), y).offset
                    == 0)),
        decreases n - j,
    {
        match pair.evaluate(&right.expressions[j]) {
            Err(_) => {
                complete = false;
            },
            Ok(ra) => {
                let diff = left[j].minus(&ra);
                proof {
                    assert(av(diff) =~= av_sub(av(left@[j as int]), av(ra)));
                    crate::affine::lemma_av_const_equiv(diff);
                }
                match crate::affine::solve(&diff) {
                    SolveOutcome::Complete => {},
                    SolveOutcome::Violation => {
                        return Err(SolveError::ConstraintUnsatisfiable);
                    },
                    SolveOutcome::Incomplete => {
                        complete = false;
                    },
                    SolveOutcome::Assignment { key, value } => {
                        let colref = key_to_colref(key);
                        let ghost pre = constraints@;
                        proof {
                            lemma_assignment_bridge(diff, key as int, value);
                        }
                        constraints.push((colref, Constraint::Assignment(value)));
                        proof {
                            let c = (colref, Constraint::Assignment(value));
                            assert(link_derives(left@, *right, *pair, j as int, key as int, c));
                            assert(link_forces(left@, *right, *pair, c));
                            assert(constraints@ == pre.push(c));
                        }
                    },
                }
            },
        }
        j = j + 1;
    }
    Ok(EvalValue { constraints, complete })
}

} // verus!
