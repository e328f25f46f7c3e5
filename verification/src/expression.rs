//! Algebraic expressions over columns, and the identities built from them.

use vstd::prelude::*;
use crate::columns::{ColRef, PolyType};
use crate::field::FP;

verus! {

/// An algebraic expression over column references and field constants.
#[derive(Debug)]
pub enum Expression {
    /// A field constant.
    Number(u64),
    /// A reference to a column cell in the current or next row.
    Reference(ColRef),
    /// Sum of two expressions.
    Add(Box<Expression>, Box<Expression>),
    /// Difference of two expressions.
    Sub(Box<Expression>, Box<Expression>),
    /// Product of two expressions.
    Mul(Box<Expression>, Box<Expression>),
}

impl Expression {
    /// An identical copy of the expression.
    pub fn duplicate(&self) -> (r: Expression)
        ensures
            r == *self,
        decreases *self,
    {
        match self {
            Expression::Number(n) => Expression::Number(*n),
            Expression::Reference(c) => Expression::Reference(*c),
            Expression::Add(a, b) => Expression::Add(
                Box::new(a.duplicate()),
                Box::new(b.duplicate()),
            ),
            Expression::Sub(a, b) => Expression::Sub(
                Box::new(a.duplicate()),
                Box::new(b.duplicate()),
            ),
            Expression::Mul(a, b) => Expression::Mul(
                Box::new(a.duplicate()),
                Box::new(b.duplicate()),
            ),
        }
    }
}

/// Bounds under which an expression can be evaluated against a row window:
/// witness references name one of the `n_cols` witness columns, fixed
/// references one of the `n_fixed` fixed columns, and constants are reduced.
pub open spec fn expr_in_range(e: Expression, n_cols: int, n_fixed: int) -> bool
    decreases e,
{
    match e {
        Expression::Number(n) => n < FP,
        Expression::Reference(c) => match c.poly_id.ptype {
            PolyType::Committed => c.poly_id.id < n_cols,
            PolyType::Constant => c.poly_id.id < n_fixed,
        },
        Expression::Add(a, b) => expr_in_range(*a, n_cols, n_fixed) && expr_in_range(
            *b,
            n_cols,
            n_fixed,
        ),
        Expression::Sub(a, b) => expr_in_range(*a, n_cols, n_fixed) && expr_in_range(
            *b,
            n_cols,
            n_fixed,
        ),
        Expression::Mul(a, b) => expr_in_range(*a, n_cols, n_fixed) && expr_in_range(
            *b,
            n_cols,
            n_fixed,
        ),
    }
}

/// Whether an expression references the next row.
pub open spec fn spec_contains_next_ref(e: Expression) -> bool
    decreases e,
{
    match e {
        Expression::Number(_) => false,
        Expression::Reference(c) => c.next,
        Expression::Add(a, b) => spec_contains_next_ref(*a) || spec_contains_next_ref(*b),
        Expression::Sub(a, b) => spec_contains_next_ref(*a) || spec_contains_next_ref(*b),
        Expression::Mul(a, b) => spec_contains_next_ref(*a) || spec_contains_next_ref(*b),
    }
}

/// Whether an expression references the next row.
pub fn contains_next_ref(e: &Expression) -> (r: bool)
    ensures
        r == spec_contains_next_ref(*e),
    decreases *e,
{
    match e {
        Expression::Number(_) => false,
        Expression::Reference(c) => c.next,
        Expression::Add(a, b) => contains_next_ref(a) || contains_next_ref(b),
        Expression::Sub(a, b) => contains_next_ref(a) || contains_next_ref(b),
        Expression::Mul(a, b) => contains_next_ref(a) || contains_next_ref(b),
    }
}

/// The column reference an expression consists of, if it is nothing more.
pub open spec fn spec_simple_poly(e: Expression) -> Option<ColRef> {
    match e {
        Expression::Reference(c) => Some(c),
        _ => None,
    }
}

/// The column reference an expression consists of, if it is nothing more.
pub fn try_to_simple_poly(e: &Expression) -> (r: Option<ColRef>)
    ensures
        r == spec_simple_poly(*e),
{
    match e {
        Expression::Reference(c) => Some(*c),
        _ => None,
    }
}

/// One side of a connecting identity: the linked expressions, gated by an
/// optional selector ("latch") expression.
#[derive(Debug)]
pub struct SelectedExpressions {
    /// The selector gating when the link is active, if any.
    pub selector: Option<Expression>,
    /// The linked expressions.
    pub expressions: Vec<Expression>,
}

/// An identity the rows must satisfy.
#[derive(Debug)]
pub enum Identity {
    /// An algebraic equation that must evaluate to zero on every row pair.
    Polynomial {
        /// The expression that must be zero.
        expression: Expression,
    },
    /// A connecting identity: the left side is owned by a calling machine,
    /// the right side by this machine.
    Connecting {
        /// The caller's side.
        left: SelectedExpressions,
        /// This machine's side.
        right: SelectedExpressions,
    },
}

/// Bounds under which one side of a connecting identity can be evaluated.
pub open spec fn selected_in_range(s: SelectedExpressions, n_cols: int, n_fixed: int) -> bool {
    &&& (s.selector matches Some(sel) ==> expr_in_range(sel, n_cols, n_fixed))
    &&& forall|i: int|
        0 <= i < s.expressions.len() ==> expr_in_range(#[trigger] s.expressions@[i], n_cols, n_fixed)
}

/// Bounds under which an identity can be evaluated against a row window.
pub open spec fn identity_in_range(id: Identity, n_cols: int, n_fixed: int) -> bool {
    match id {
        Identity::Polynomial { expression } => expr_in_range(expression, n_cols, n_fixed),
        Identity::Connecting { left, right } => selected_in_range(left, n_cols, n_fixed)
            && selected_in_range(right, n_cols, n_fixed),
    }
}

} // verus!
