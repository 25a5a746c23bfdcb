//! Ring laws of the residues.
//!
//! `residue` is a ring homomorphism from the integers onto the field, so an
//! identity between field expressions follows from the same identity between
//! integer polynomials.

use crate::field::{fadd, fmul, fneg, fsub, in_field, modulus, residue};
use vstd::arithmetic::div_mod::{lemma_add_mod_noop, lemma_mod_bound, lemma_mul_mod_noop, lemma_small_mod, lemma_sub_mod_noop};
use vstd::prelude::*;

verus! {

/// Sums of residues are residues of sums.
pub broadcast proof fn lemma_residue_add(x: int, y: int)
    ensures
        #[trigger] fadd(residue(x), residue(y)) == residue(x + y),
{
    reveal(residue);
    reveal(fadd);
    lemma_add_mod_noop(x, y, modulus());
}

/// Differences of residues are residues of differences.
pub broadcast proof fn lemma_residue_sub(x: int, y: int)
    ensures
        #[trigger] fsub(residue(x), residue(y)) == residue(x - y),
{
    reveal(residue);
    reveal(fsub);
    lemma_sub_mod_noop(x, y, modulus());
}

/// Products of residues are residues of products.
pub broadcast proof fn lemma_residue_mul(x: int, y: int)
    ensures
        #[trigger] fmul(residue(x), residue(y)) == residue(x * y),
{
    reveal(residue);
    reveal(fmul);
    lemma_mul_mod_noop(x, y, modulus());
}

/// Negated residues are residues of negated numbers.
pub broadcast proof fn lemma_residue_neg(x: int)
    ensures
        #[trigger] fneg(residue(x)) == residue(0 - x),
{
    reveal(residue);
    reveal(fneg);
    lemma_sub_mod_noop(0, x, modulus());
    assert(0int % modulus() == 0);
}

/// A residue is its own residue.
pub proof fn lemma_residue_id(x: int)
    requires
        in_field(x),
    ensures
        residue(x) == x,
{
    reveal(residue);
    lemma_small_mod(x as nat, modulus() as nat);
}

/// Every residue lies in the field.
pub broadcast proof fn lemma_residue_in_field(x: int)
    ensures
        in_field(#[trigger] residue(x)),
{
    reveal(residue);
    lemma_mod_bound(x, modulus());
}

/// A sum lies in the field.
pub broadcast proof fn lemma_fadd_in_field(x: int, y: int)
    ensures
        in_field(#[trigger] fadd(x, y)),
{
    reveal(fadd);
    lemma_mod_bound(x + y, modulus());
}

/// A difference lies in the field.
pub broadcast proof fn lemma_fsub_in_field(x: int, y: int)
    ensures
        in_field(#[trigger] fsub(x, y)),
{
    reveal(fsub);
    lemma_mod_bound(x - y, modulus());
}

/// A product lies in the field.
pub broadcast proof fn lemma_fmul_in_field(x: int, y: int)
    ensures
        in_field(#[trigger] fmul(x, y)),
{
    reveal(fmul);
    lemma_mod_bound(x * y, modulus());
}

/// A negation lies in the field.
pub broadcast proof fn lemma_fneg_in_field(x: int)
    ensures
        in_field(#[trigger] fneg(x)),
{
    reveal(fneg);
    lemma_mod_bound(0 - x, modulus());
}

pub broadcast group group_residue {
    lemma_residue_add,
    lemma_residue_sub,
    lemma_residue_mul,
    lemma_residue_neg,
}

pub broadcast group group_in_field {
    lemma_residue_in_field,
    lemma_fadd_in_field,
    lemma_fsub_in_field,
    lemma_fmul_in_field,
    lemma_fneg_in_field,
}

/// `0` is neutral for addition.
pub proof fn lemma_fadd_zero(a: int)
    requires
        in_field(a),
    ensures
        fadd(a, 0) == a,
        fadd(0, a) == a,
        fsub(a, 0) == a,
{
    reveal(fadd);
    reveal(fsub);
    lemma_small_mod(a as nat, modulus() as nat);
}

/// `1` is neutral for multiplication and `0` absorbs.
pub proof fn lemma_fmul_one(a: int)
    requires
        in_field(a),
    ensures
        fmul(a, 1) == a,
        fmul(1, a) == a,
        fmul(a, 0) == 0,
        fmul(0, a) == 0,
{
    reveal(fmul);
    assert(a * 1 == a && 1 * a == a && a * 0 == 0 && 0 * a == 0);
    lemma_small_mod(a as nat, modulus() as nat);
    lemma_small_mod(0, modulus() as nat);
}

/// Addition and multiplication commute.
pub proof fn lemma_commute(a: int, b: int)
    ensures
        fadd(a, b) == fadd(b, a),
        fmul(a, b) == fmul(b, a),
{
    reveal(fadd);
    reveal(fmul);
    assert(a * b == b * a) by (nonlinear_arith);
}

} // verus!
