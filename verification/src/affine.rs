//! Affine expressions over the unknown cells of a row pair, and the solver
//! that isolates a single remaining unknown.
//!
//! An affine expression is a dense vector of field coefficients, one slot per
//! (witness column, row-offset) pair, plus a constant offset: slot
//! `2 * id + next` carries the coefficient of the cell of witness column
//! `id` in the current (`next == 0`) or next (`next == 1`) row.

use vstd::prelude::*;
use crate::columns::ColRef;
use crate::field::{f_add, f_mul, f_neg, fadd, finv, fmul, fneg, fsub, f_sub, FP};

verus! {

/// The slot of a column reference in the dense coefficient vector.
pub open spec fn spec_affine_key(c: ColRef) -> int {
    2 * c.poly_id.id + if c.next {
        1int
    } else {
        0int
    }
}

/// The slot of a column reference in the dense coefficient vector.
pub fn affine_key(c: ColRef) -> (r: usize)
    requires
        2 * c.poly_id.id + 1 <= usize::MAX,
    ensures
        r == spec_affine_key(c),
{
    2 * c.poly_id.id + if c.next {
        1
    } else {
        0
    }
}

/// The mathematical value of an affine expression: a coefficient per slot
/// and a constant term, as field representatives.
#[verifier::ext_equal]
pub struct AffineV {
    /// Coefficient of each unknown-cell slot.
    pub coeffs: Seq<int>,
    /// The constant term.
    pub offset: int,
}

/// The constant affine value `v` over `len` slots.
pub open spec fn av_const(len: int, v: int) -> AffineV {
    AffineV { coeffs: Seq::new(len as nat, |i: int| 0), offset: v }
}

/// The affine value with a single unit coefficient at `key`.
pub open spec fn av_unit(len: int, key: int) -> AffineV {
    AffineV {
        coeffs: Seq::new(
            len as nat,
            |i: int|
                if i == key {
                    1int
                } else {
                    0int
                },
        ),
        offset: 0,
    }
}

/// Pointwise field sum of two affine values.
pub open spec fn av_add(x: AffineV, y: AffineV) -> AffineV {
    AffineV {
        coeffs: Seq::new(x.coeffs.len(), |i: int| f_add(x.coeffs[i], y.coeffs[i])),
        offset: f_add(x.offset, y.offset),
    }
}

/// Pointwise field difference of two affine values.
pub open spec fn av_sub(x: AffineV, y: AffineV) -> AffineV {
    AffineV {
        coeffs: Seq::new(x.coeffs.len(), |i: int| f_sub(x.coeffs[i], y.coeffs[i])),
        offset: f_sub(x.offset, y.offset),
    }
}

/// Field multiple of an affine value by a constant.
pub open spec fn av_scale(x: AffineV, k: int) -> AffineV {
    AffineV {
        coeffs: Seq::new(x.coeffs.len(), |i: int| f_mul(x.coeffs[i], k)),
        offset: f_mul(x.offset, k),
    }
}

/// Whether an affine value has no unknowns left.
pub open spec fn av_is_const(x: AffineV) -> bool {
    forall|i: int| 0 <= i < x.coeffs.len() ==> #[trigger] x.coeffs[i] == 0
}

/// A linear combination of unknown cells plus a constant, over the field.
pub struct AffineExpression {
    /// Coefficient of each unknown-cell slot.
    pub coefficients: Vec<u64>,
    /// The constant term.
    pub offset: u64,
}

/// Validity of an affine expression over `n_cols` witness columns: one slot
/// per column and row offset, all entries reduced.
pub open spec fn affine_valid(a: AffineExpression, n_cols: int) -> bool {
    &&& a.coefficients@.len() == 2 * n_cols
    &&& forall|i: int| 0 <= i < a.coefficients@.len() ==> #[trigger] a.coefficients@[i] < FP
    &&& a.offset < FP
}

/// Whether an affine expression has no unknowns left.
pub open spec fn spec_is_constant(a: AffineExpression) -> bool {
    forall|i: int| 0 <= i < a.coefficients@.len() ==> #[trigger] a.coefficients@[i] == 0
}

/// The mathematical value of an affine expression.
pub open spec fn av(a: AffineExpression) -> AffineV {
    AffineV {
        coeffs: Seq::new(a.coefficients@.len(), |i: int| a.coefficients@[i] as int),
        offset: a.offset as int,
    }
}

impl AffineExpression {
    /// The constant affine expression `v`, over `n_cols` witness columns.
    pub fn constant(v: u64, n_cols: usize) -> (r: AffineExpression)
        requires
            v < FP,
            2 * n_cols <= usize::MAX,
        ensures
            affine_valid(r, n_cols as int),
            spec_is_constant(r),
            r.offset == v,
    {
        let mut coefficients: Vec<u64> = Vec::new();
        let mut i: usize = 0;
        while i < 2 * n_cols
            invariant
                i <= 2 * n_cols,
                2 * n_cols <= usize::MAX,
                coefficients@.len() == i,
                forall|j: int| 0 <= j < i ==> #[trigger] coefficients@[j] == 0,
            decreases 2 * n_cols - i,
        {
            coefficients.push(0);
            i = i + 1;
        }
        AffineExpression { coefficients, offset: v }
    }

    /// The affine expression consisting of one unknown cell with unit
    /// coefficient.
    pub fn from_unknown(c: ColRef, n_cols: usize) -> (r: AffineExpression)
        requires
            c.poly_id.id < n_cols,
            2 * n_cols <= usize::MAX,
        ensures
            affine_valid(r, n_cols as int),
            r.offset == 0,
            r.coefficients@[spec_affine_key(c)] == 1,
            forall|i: int|
                0 <= i < r.coefficients@.len() && i != spec_affine_key(c)
                    ==> #[trigger] r.coefficients@[i] == 0,
    {
        let mut r = AffineExpression::constant(0, n_cols);
        let key = affine_key(c);
        r.coefficients[key] = 1;
        r
    }

    /// Pointwise field sum of two affine expressions.
    pub fn plus(&self, other: &AffineExpression) -> (r: AffineExpression)
        requires
            self.coefficients@.len() == other.coefficients@.len(),
        ensures
            r.coefficients@.len() == self.coefficients@.len(),
            forall|i: int|
                0 <= i < r.coefficients@.len() ==> #[trigger] r.coefficients@[i] == f_add(
                    self.coefficients@[i] as int,
                    other.coefficients@[i] as int,
                ),
            r.offset == f_add(self.offset as int, other.offset as int),
            r.offset < FP,
            forall|i: int| 0 <= i < r.coefficients@.len() ==> #[trigger] r.coefficients@[i] < FP,
    {
        let n = self.coefficients.len();
        let mut coefficients: Vec<u64> = Vec::new();
        let mut i: usize = 0;
        while i < n
            invariant
                i <= n,
                n == self.coefficients@.len(),
                n == other.coefficients@.len(),
                coefficients@.len() == i,
                forall|j: int|
                    0 <= j < i ==> #[trigger] coefficients@[j] == f_add(
                        self.coefficients@[j] as int,
                        other.coefficients@[j] as int,
                    ) && coefficients@[j] < FP,
            decreases n - i,
        {
            coefficients.push(fadd(self.coefficients[i], other.coefficients[i]));
            i = i + 1;
        }
        AffineExpression { coefficients, offset: fadd(self.offset, other.offset) }
    }

    /// Pointwise field difference of two affine expressions.
    pub fn minus(&self, other: &AffineExpression) -> (r: AffineExpression)
        requires
            self.coefficients@.len() == other.coefficients@.len(),
        ensures
            r.coefficients@.len() == self.coefficients@.len(),
            forall|i: int|
                0 <= i < r.coefficients@.len() ==> #[trigger] r.coefficients@[i] == f_sub(
                    self.coefficients@[i] as int,
                    other.coefficients@[i] as int,
                ),
            r.offset == f_sub(self.offset as int, other.offset as int),
            r.offset < FP,
            forall|i: int| 0 <= i < r.coefficients@.len() ==> #[trigger] r.coefficients@[i] < FP,
    {
        let n = self.coefficients.len();
        let mut coefficients: Vec<u64> = Vec::new();
        let mut i: usize = 0;
        while i < n
            invariant
                i <= n,
                n == self.coefficients@.len(),
                n == other.coefficients@.len(),
                coefficients@.len() == i,
                forall|j: int|
                    0 <= j < i ==> #[trigger] coefficients@[j] == f_sub(
                        self.coefficients@[j] as int,
                        other.coefficients@[j] as int,
                    ) && coefficients@[j] < FP,
            decreases n - i,
        {
            coefficients.push(fsub(self.coefficients[i], other.coefficients[i]));
            i = i + 1;
        }
        AffineExpression { coefficients, offset: fsub(self.offset, other.offset) }
    }

    /// Field multiple of an affine expression by a constant.
    pub fn scaled(&self, k: u64) -> (r: AffineExpression)
        ensures
            r.coefficients@.len() == self.coefficients@.len(),
            forall|i: int|
                0 <= i < r.coefficients@.len() ==> #[trigger] r.coefficients@[i] == f_mul(
                    self.coefficients@[i] as int,
                    k as int,
                ),
            r.offset == f_mul(self.offset as int, k as int),
            r.offset < FP,
            forall|i: int| 0 <= i < r.coefficients@.len() ==> #[trigger] r.coefficients@[i] < FP,
    {
        let n = self.coefficients.len();
        let mut coefficients: Vec<u64> = Vec::new();
        let mut i: usize = 0;
        while i < n
            invariant
                i <= n,
                n == self.coefficients@.len(),
                coefficients@.len() == i,
                forall|j: int|
                    0 <= j < i ==> #[trigger] coefficients@[j] == f_mul(
                        self.coefficients@[j] as int,
                        k as int,
                    ) && coefficients@[j] < FP,
            decreases n - i,
        {
            coefficients.push(fmul(self.coefficients[i], k));
            i = i + 1;
        }
        AffineExpression { coefficients, offset: fmul(self.offset, k) }
    }

    /// Whether the expression has no unknowns left.
    pub fn is_constant(&self) -> (r: bool)
        ensures
            r == spec_is_constant(*self),
    {
        let n = self.coefficients.len();
        let mut i: usize = 0;
        while i < n
            invariant
                i <= n,
                n == self.coefficients@.len(),
                forall|j: int| 0 <= j < i ==> #[trigger] self.coefficients@[j] == 0,
            decreases n - i,
        {
            if self.coefficients[i] != 0 {
                return false;
            }
            i = i + 1;
        }
        true
    }

    /// The expression's value, if it has become a concrete constant.
    pub fn constant_value(&self) -> (r: Option<u64>)
        ensures
            r == (if spec_is_constant(*self) {
                Some(self.offset)
            } else {
                None::<u64>
            }),
    {
        if self.is_constant() {
            Some(self.offset)
        } else {
            None
        }
    }

    /// Substitutes a known value for one unknown cell: the slot's coefficient
    /// becomes zero and the slot's contribution is folded into the offset.
    pub fn assign(&mut self, c: ColRef, v: u64)
        requires
            spec_affine_key(c) < old(self).coefficients@.len(),
            old(self).coefficients@.len() <= usize::MAX,
        ensures
            final(self).coefficients@ == old(self).coefficients@.update(spec_affine_key(c), 0u64),
            final(self).offset == f_add(
                old(self).offset as int,
                f_mul(old(self).coefficients@[spec_affine_key(c)] as int, v as int),
            ),
            final(self).offset < FP,
    {
        let key = affine_key(c);
        let coeff = self.coefficients[key];
        self.coefficients[key] = 0;
        self.offset = fadd(self.offset, fmul(coeff, v));
    }
}

/// An affine expression is constant exactly when its mathematical value is.
pub proof fn lemma_av_const_equiv(a: AffineExpression)
    ensures
        av_is_const(av(a)) <==> spec_is_constant(a),
{
    if spec_is_constant(a) {
        assert forall|i: int| 0 <= i < av(a).coeffs.len() implies #[trigger] av(a).coeffs[i]
            == 0 by {
            assert(a.coefficients@[i] == 0);
        }
    }
    if av_is_const(av(a)) {
        assert forall|i: int| 0 <= i < a.coefficients@.len() implies #[trigger] a.coefficients@[i]
            == 0 by {
            assert(av(a).coeffs[i] == 0);
        }
    }
}

/// What solving an affine expression that must equal zero yields.
pub enum SolveOutcome {
    /// The expression is the constant zero: nothing left to derive.
    Complete,
    /// Exactly one unknown remained and it was isolated.
    Assignment {
        /// The slot of the solved unknown.
        key: usize,
        /// The value the unknown must take.
        value: u64,
    },
    /// The expression is a nonzero constant: the identity is violated.
    Violation,
    /// More than one unknown remains, or the remaining coefficient could not
    /// be inverted: nothing can be derived yet.
    Incomplete,
}

/// Solves `a == 0` for the single remaining unknown, if there is one.
pub fn solve(a: &AffineExpression) -> (r: SolveOutcome)
    requires
        forall|i: int| 0 <= i < a.coefficients@.len() ==> #[trigger] a.coefficients@[i] < FP,
        a.offset < FP,
    ensures
        r is Complete <==> spec_is_constant(*a) && a.offset == 0,
        r is Violation <==> spec_is_constant(*a) && a.offset != 0,
        r matches SolveOutcome::Assignment { key, value } ==> {
            &&& 0 <= key < a.coefficients@.len()
            &&& a.coefficients@[key as int] != 0
            &&& forall|j: int|
                0 <= j < a.coefficients@.len() && j != key ==> #[trigger] a.coefficients@[j] == 0
            &&& value < FP
            &&& f_add(f_mul(a.coefficients@[key as int] as int, value as int), a.offset as int)
                == 0
        },
        forall|k: int|
            0 <= k < a.coefficients@.len() && a.coefficients@[k] != 0 && (a.coefficients@[k] == 1
                || a.coefficients@[k] == FP - 1) && (forall|j: int|
                0 <= j < a.coefficients@.len() && j != k ==> #[trigger] a.coefficients@[j] == 0)
                ==> (r matches SolveOutcome::Assignment { key, .. } && key == k),
{
    let n = a.coefficients.len();
    let mut i: usize = 0;
    let mut found: Option<usize> = None;
    while i < n
        invariant
            i <= n,
            n == a.coefficients@.len(),
            found matches Some(k) ==> 0 <= (k as int) < i && a.coefficients@[k as int] != 0
                && forall|j: int| 0 <= j < i && j != k ==> #[trigger] a.coefficients@[j] == 0,
            found is None ==> forall|j: int| 0 <= j < i ==> #[trigger] a.coefficients@[j] == 0,
        decreases n - i,
    {
        if a.coefficients[i] != 0 {
            match found {
                None => {
                    found = Some(i);
                },
                Some(_) => {
                    return SolveOutcome::Incomplete;
                },
            }
        }
        i = i + 1;
    }
    match found {
        None => {
            if a.offset == 0 {
                SolveOutcome::Complete
            } else {
                SolveOutcome::Violation
            }
        },
        Some(key) => {
            let coeff = a.coefficients[key];
            match finv(coeff) {
                None => SolveOutcome::Incomplete,
                Some(inv) => {
                    let value = fmul(inv, fneg(a.offset));
                    proof {
                        crate::field::lemma_inverse_solves(
                            coeff as int,
                            a.offset as int,
                            inv as int,
                        );
                    }
                    SolveOutcome::Assignment { key, value }
                },
            }
        },
    }
}

} // verus!
