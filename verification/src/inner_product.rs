//! The sumcheck for an inner product of two tables.

use crate::eq_two_product::is_pow2;
use crate::errors::SumcheckError;
use crate::field::{Fr, fmul, in_field, residue, vals};
use crate::mle::{copied, log2_exact, mle};
use crate::mle_laws::dot;
use crate::poly::{lemma_on_lin, lemma_on_mul, lemma_poly_mul, lin, poly, poly_mul};
use crate::ring::{group_in_field, lemma_fadd_zero};
use crate::sumcheck::{
    CellIdentity, RoundPoly2, RoundReplay, SumcheckRun, cell_at, cell_line, prove_rounds,
    replay_rounds, samples_of, sc_all_split, sc_claim, sc_point, sc_state, total, vals2,
};
use crate::transcript::state_of;
use ark_crypto_primitives::sponge::merlin::Transcript;
use vstd::arithmetic::power2::pow2;
use vstd::prelude::*;

verus! {

/// Degree-2 sumcheck proof for `claim = sum_x left[x] right[x]`.
#[derive(Debug)]
pub struct InnerProductProof {
    pub rounds: Vec<RoundPoly2>,
}

/// The summand, over the columns `left, right`.
pub struct InnerProduct {}

impl CellIdentity for InnerProduct {
    open spec fn arity(&self) -> nat {
        2
    }

    open spec fn degree(&self) -> nat {
        2
    }

    open spec fn at(&self, cell: Seq<int>) -> int {
        fmul(cell[0], cell[1])
    }

    proof fn lemma_line(&self, lo: Seq<int>, hi: Seq<int>) -> (c: Seq<int>) {
        let l0 = lin(lo[0], hi[0]);
        let l1 = lin(lo[1], hi[1]);
        let c = poly_mul(l0, l1);
        lemma_poly_mul(l0, l1, 0);
        assert forall|t: int| in_field(t) implies self.at(#[trigger] cell_line(lo, hi, t))
            == residue(poly(c, t)) by {
            let x = cell_line(lo, hi, t);
            lemma_on_lin(lo[0], hi[0], t);
            lemma_on_lin(lo[1], hi[1], t);
            lemma_on_mul(x[0], l0, x[1], l1, t);
        }
        c
    }

    fn eval(&self, cell: &Vec<Fr>) -> (r: Fr) {
        cell[0].mul(cell[1])
    }
}

/// The transcript state after a proof's rounds.
pub open spec fn ip_state(proof: InnerProductProof, t0: Seq<u8>) -> Seq<u8> {
    sc_state(false, t0, samples_of(proof.rounds@), proof.rounds@.len())
}

/// The point that a proof's challenges form.
pub open spec fn ip_point(proof: InnerProductProof, t0: Seq<u8>) -> Seq<int> {
    sc_point(false, t0, samples_of(proof.rounds@))
}

/// The verdict on a proof: its rounds number `n_vars`, they split their claims
/// one after the other from `claim` on, and the last claim is `final_value`.
pub open spec fn ip_verdict(
    proof: InnerProductProof,
    n_vars: nat,
    claim: int,
    final_value: int,
    t0: Seq<u8>,
) -> Result<(), SumcheckError> {
    let s = samples_of(proof.rounds@);
    if proof.rounds@.len() != n_vars {
        Err(SumcheckError::RoundCount)
    } else if !sc_all_split(false, t0, s, claim, n_vars) {
        Err(SumcheckError::SplitMismatch)
    } else if sc_claim(false, t0, s, claim, n_vars) != final_value {
        Err(SumcheckError::FinalMismatch)
    } else {
        Ok(())
    }
}

/// The sum of an inner product's cells is the inner product.
proof fn lemma_total_is_dot(left: Seq<int>, right: Seq<int>, n: nat)
    ensures
        total(&InnerProduct {  }, seq![left, right], n) == dot(left, right, n),
    decreases n,
{
    if n > 0 {
        lemma_total_is_dot(left, right, (n - 1) as nat);
        assert(cell_at(seq![left, right], n - 1) =~= seq![left[n - 1], right[n - 1]]);
    }
}

/// Prove the inner product of two tables; returns the proof and its point. The
/// claim is not sent: the verifier knows it.
pub fn prove_inner_product_with_sponge(left: &[Fr], right: &[Fr], sponge: &mut Transcript) -> (r:
    Result<(InnerProductProof, Vec<Fr>), SumcheckError>)
    ensures
        match r {
            Err(e) => e == SumcheckError::BadLength && !(is_pow2(left@.len()) && right@.len()
                == left@.len()),
            Ok((proof, point)) => {
                let t0 = state_of(*old(sponge));
                let n = proof.rounds@.len();
                let claim = dot(vals(left@), vals(right@), left@.len());
                &&& left@.len() == pow2(n)
                &&& right@.len() == pow2(n)
                &&& vals(point@) == ip_point(proof, t0)
                &&& point@.len() == n
                &&& state_of(*final(sponge)) == ip_state(proof, t0)
                &&& ip_verdict(
                    proof,
                    n,
                    claim,
                    fmul(mle(vals(left@), vals(point@)), mle(vals(right@), vals(point@))),
                    t0,
                ) == Ok::<(), SumcheckError>(())
            },
        },
{
    let n: usize = left.len();
    let k: usize = match log2_exact(n) {
        Some(k) => k,
        None => {
            return Err(SumcheckError::BadLength);
        },
    };
    assert(is_pow2(left@.len()));
    if right.len() != n {
        return Err(SumcheckError::BadLength);
    }
    let ident: InnerProduct = InnerProduct {  };
    let claim: Fr = inner_product(left, right);
    let cols: Vec<Vec<Fr>> = vec![copied(left), copied(right)];
    let ghost cv = seq![vals(left@), vals(right@)];
    proof {
        assert(vals2(cols@) =~= cv);
        lemma_total_is_dot(vals(left@), vals(right@), left@.len());
    }
    let run: SumcheckRun<RoundPoly2> = match prove_rounds::<InnerProduct, RoundPoly2>(
        &ident,
        cols,
        k,
        claim,
        false,
        false,
        sponge,
    ) {
        Ok(run) => run,
        Err(_) => {
            return Err(SumcheckError::SplitMismatch);
        },
    };
    proof {
        broadcast use group_in_field;

        assert(run.finals@[0]@ == mle(cv[0], vals(run.point@)));
        assert(run.finals@[1]@ == mle(cv[1], vals(run.point@)));
        lemma_fadd_zero(ident.at(vals(run.finals@)));
        assert(vals(run.point@).len() == run.point@.len());
    }
    Ok((InnerProductProof { rounds: run.rounds }, run.point))
}

/// The inner product of two tables.
fn inner_product(left: &[Fr], right: &[Fr]) -> (r: Fr)
    requires
        left@.len() == right@.len(),
    ensures
        r@ == dot(vals(left@), vals(right@), left@.len()),
{
    let mut acc: Fr = Fr::from_u64(0);
    let mut i: usize = 0;
    while i < left.len()
        invariant
            i <= left@.len(),
            left@.len() == right@.len(),
            acc@ == dot(vals(left@), vals(right@), i as nat),
        decreases left@.len() - i,
    {
        acc = acc.add(left[i].mul(right[i]));
        i += 1;
    }
    acc
}

/// Verify the claim that an inner product is `claim`, where the product of the
/// tables' values at the proof's point is `final_value`; returns that point.
pub fn verify_inner_product_with_sponge(
    claim: Fr,
    n_vars: usize,
    proof: &InnerProductProof,
    final_value: Fr,
    sponge: &mut Transcript,
) -> (r: Result<Vec<Fr>, SumcheckError>)
    ensures
        proof.rounds@.len() != n_vars ==> state_of(*final(sponge)) == state_of(*old(sponge)),
        match ip_verdict(*proof, n_vars as nat, claim@, final_value@, state_of(*old(sponge))) {
            Err(e) => r == Err::<Vec<Fr>, SumcheckError>(e),
            Ok(_) => {
                &&& r matches Ok(point)
                &&& vals(point@) == ip_point(*proof, state_of(*old(sponge)))
                &&& point@.len() == n_vars
                &&& state_of(*final(sponge)) == ip_state(*proof, state_of(*old(sponge)))
            },
        },
{
    if proof.rounds.len() != n_vars {
        return Err(SumcheckError::RoundCount);
    }
    let replay: RoundReplay = match replay_rounds(&proof.rounds, claim, false, sponge) {
        Ok(replay) => replay,
        Err(_) => {
            return Err(SumcheckError::SplitMismatch);
        },
    };
    if replay.claim != final_value {
        return Err(SumcheckError::FinalMismatch);
    }
    assert(vals(replay.point@).len() == replay.point@.len());
    Ok(replay.point)
}

} // verus!
