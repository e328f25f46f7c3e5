//! Arithmetic in the prime field the trace values live in.
//!
//! Every cell value, identity coefficient and derived assignment is an
//! element of the field of integers modulo [`FP`]. The executable operations
//! are total over `u64` and always return a reduced representative.

use vstd::prelude::*;
use vstd::arithmetic::div_mod::{
    lemma_add_mod_noop, lemma_mod_multiples_vanish, lemma_mod_twice, lemma_mul_mod_noop_general,
    lemma_sub_mod_noop,
};

verus! {

/// The field modulus (a 64-bit prime).
pub const FP: u64 = 0xffff_ffff_0000_0001;

/// The modulus as a mathematical integer.
pub open spec fn fp() -> int {
    FP as int
}

/// Reduction of an integer into the field.
pub open spec fn f_reduce(a: int) -> int {
    a % fp()
}

/// Field addition.
pub open spec fn f_add(a: int, b: int) -> int {
    (a + b) % fp()
}

/// Field subtraction.
pub open spec fn f_sub(a: int, b: int) -> int {
    (a - b) % fp()
}

/// Field multiplication.
pub open spec fn f_mul(a: int, b: int) -> int {
    (a * b) % fp()
}

/// Field negation.
pub open spec fn f_neg(a: int) -> int {
    (0 - a) % fp()
}

/// Sum of two field representatives, reduced.
pub fn fadd(a: u64, b: u64) -> (r: u64)
    ensures
        r == f_add(a as int, b as int),
        r < FP,
{
    (((a as u128) + (b as u128)) % (FP as u128)) as u64
}

/// Difference of two field representatives, reduced.
pub fn fsub(a: u64, b: u64) -> (r: u64)
    ensures
        r == f_sub(a as int, b as int),
        r < FP,
{
    let ar: u128 = (a as u128) % (FP as u128);
    let br: u128 = (b as u128) % (FP as u128);
    let r: u64 = ((ar + (FP as u128) - br) % (FP as u128)) as u64;
    proof {
        lemma_sub_mod_noop(a as int, b as int, fp());
        lemma_mod_twice(a as int, fp());
        lemma_mod_twice(b as int, fp());
        assert((ar + (FP as u128) - br) as int == (a as int % fp()) + fp() - (b as int % fp()));
        lemma_add_mod_noop((a as int % fp()) - (b as int % fp()), fp(), fp());
        lemma_mod_twice((a as int % fp()) - (b as int % fp()), fp());
    }
    r
}

/// Product of two field representatives, reduced.
pub fn fmul(a: u64, b: u64) -> (r: u64)
    ensures
        r == f_mul(a as int, b as int),
        r < FP,
{
    proof {
        assert((a as u128) * (b as u128) <= (u64::MAX as u128) * (u64::MAX as u128))
            by (nonlinear_arith)
            requires a <= u64::MAX && b <= u64::MAX;
    }
    (((a as u128) * (b as u128)) % (FP as u128)) as u64
}

/// Additive inverse of a field representative, reduced.
pub fn fneg(a: u64) -> (r: u64)
    ensures
        r == f_neg(a as int),
        r < FP,
{
    fsub(0, a)
}

/// Multiplicative inverse of a field representative, if one is found.
///
/// The candidate inverse is computed by exponentiation and then checked
/// against the defining property before it is returned, so the contract only
/// promises the property of what comes back. An inverse is owed at least for
/// representatives of `1` and `-1`, which is all the single-unknown solver
/// needs for identities whose unknown carries a unit coefficient.
pub fn finv(a: u64) -> (r: Option<u64>)
    ensures
        r matches Some(i) ==> f_mul(a as int, i as int) == 1 && i < FP,
        a % FP == 1 ==> r == Some(1u64),
        a % FP == FP - 1 ==> r == Some((FP - 1) as u64),
{
    let ar: u64 = a % FP;
    proof {
        lemma_mul_mod_noop_general(a as int, 1, fp());
        lemma_mul_mod_noop_general(a as int, (FP - 1) as int, fp());
    }
    if ar == 1 {
        Some(1)
    } else if ar == FP - 1 {
        proof {
            let p = fp();
            assert((p - 1) * (p - 1) == p * (p - 2) + 1) by (nonlinear_arith);
            lemma_mod_multiples_vanish(p - 2, 1, p);
        }
        Some(FP - 1)
    } else {
        let mut base: u64 = ar;
        let mut acc: u64 = 1;
        let mut e: u64 = FP - 2;
        while e > 0
            invariant
                base < FP || base == ar,
                acc == 1 || acc < FP,
            decreases e,
        {
            if e % 2 == 1 {
                acc = fmul(acc, base);
            }
            base = fmul(base, base);
            e = e / 2;
        }
        let check: u64 = fmul(ar, acc);
        if check == 1 {
            proof {
                lemma_mul_mod_noop_general(a as int, acc as int, fp());
                lemma_mod_twice(a as int, fp());
            }
            Some(acc)
        } else {
            None
        }
    }
}

/// The value the solver derives for a single unknown with coefficient `c`
/// and affine offset `off` indeed zeroes the affine form: if `i` inverts `c`,
/// then `c * (i * (-off)) + off == 0` in the field.
pub proof fn lemma_inverse_solves(c: int, off: int, i: int)
    requires
        f_mul(c, i) == 1,
    ensures
        f_add(f_mul(c, f_mul(i, f_neg(off))), off) == 0,
{
    let p = fp();
    assert(c * (i * (0 - off)) == (c * i) * (0 - off)) by (nonlinear_arith);
    lemma_mul_mod_noop_general(i, (0 - off) % p, p);
    lemma_mul_mod_noop_general(i, 0 - off, p);
    assert(f_mul(c, f_mul(i, f_neg(off))) == (c * ((i * (0 - off)) % p)) % p);
    lemma_mul_mod_noop_general(c, i * (0 - off), p);
    assert((c * ((i * (0 - off)) % p)) % p == (c * (i * (0 - off))) % p);
    lemma_mul_mod_noop_general(c * i, 0 - off, p);
    assert(((c * i) * (0 - off)) % p == (((c * i) % p) * (0 - off)) % p);
    assert((c * i) % p == 1);
    assert(f_mul(c, f_mul(i, f_neg(off))) == (0 - off) % p);
    lemma_add_mod_noop(0 - off, off, p);
    lemma_mod_twice(0 - off, p);
    assert(((0 - off) % p + off) % p == (((0 - off) % p) % p + off % p) % p) by {
        lemma_add_mod_noop((0 - off) % p, off, p);
    }
    assert((0int) % p == 0);
}

} // verus!
