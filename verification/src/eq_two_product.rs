//! The sumcheck for `claim = sum_x eq[x] (p1[x] q1[x] + p2[x] q2[x])`.

use crate::errors::{SnarkError, SumcheckError};
use crate::field::{Fr, fadd, fmul, in_field, residue, vals};
use crate::mle::{copied, log2_exact, mle, same_elements};
use crate::poly::{
    lemma_on_add, lemma_on_lin, lemma_on_mul, lemma_poly_mul, lin, poly, poly_add, poly_mul,
};
use crate::ring::{group_in_field, lemma_fadd_zero};
use crate::sumcheck::{
    CellIdentity, RoundPoly3, RoundReplay, SumcheckRun, cell_line, fold_cols_many, prove_rounds,
    replay_rounds, round_samples, samples_of, sc_all_split, sc_claim, sc_point, sc_state, total,
    vals2,
};
use crate::transcript::state_of;
use ark_crypto_primitives::sponge::merlin::Transcript;
use vstd::arithmetic::power2::pow2;
use vstd::prelude::*;

verus! {

/// Degree-3 sumcheck proof for `claim = sum_x eq[x] (p1[x] q1[x] + p2[x] q2[x])`.
#[derive(Debug)]
pub struct EqTwoProductProof {
    pub rounds: Vec<RoundPoly3>,
    pub r_full: Vec<Fr>,
    pub eq_eval: Fr,
    pub p1_eval: Fr,
    pub q1_eval: Fr,
    pub p2_eval: Fr,
    pub q2_eval: Fr,
}

/// The summand, over the columns `eq, p1, q1, p2, q2`.
pub struct EqTwoProduct {}

/// `eq (p1 q1 + p2 q2)`.
pub open spec fn eq_two_product(eq: int, p1: int, q1: int, p2: int, q2: int) -> int {
    fmul(eq, fadd(fmul(p1, q1), fmul(p2, q2)))
}

impl CellIdentity for EqTwoProduct {
    open spec fn arity(&self) -> nat {
        5
    }

    open spec fn degree(&self) -> nat {
        3
    }

    open spec fn at(&self, cell: Seq<int>) -> int {
        eq_two_product(cell[0], cell[1], cell[2], cell[3], cell[4])
    }

    proof fn lemma_line(&self, lo: Seq<int>, hi: Seq<int>) -> (c: Seq<int>) {
        let l0 = lin(lo[0], hi[0]);
        let l1 = lin(lo[1], hi[1]);
        let l2 = lin(lo[2], hi[2]);
        let l3 = lin(lo[3], hi[3]);
        let l4 = lin(lo[4], hi[4]);
        let s = poly_add(poly_mul(l1, l2), poly_mul(l3, l4));
        let c = poly_mul(l0, s);
        lemma_poly_mul(l1, l2, 0);
        lemma_poly_mul(l3, l4, 0);
        lemma_poly_mul(l0, s, 0);
        assert forall|t: int| in_field(t) implies self.at(#[trigger] cell_line(lo, hi, t))
            == residue(poly(c, t)) by {
            let x = cell_line(lo, hi, t);
            lemma_on_lin(lo[0], hi[0], t);
            lemma_on_lin(lo[1], hi[1], t);
            lemma_on_lin(lo[2], hi[2], t);
            lemma_on_lin(lo[3], hi[3], t);
            lemma_on_lin(lo[4], hi[4], t);
            lemma_on_mul(x[1], l1, x[2], l2, t);
            lemma_on_mul(x[3], l3, x[4], l4, t);
            lemma_on_add(fmul(x[1], x[2]), poly_mul(l1, l2), fmul(x[3], x[4]), poly_mul(l3, l4), t);
            lemma_on_mul(x[0], l0, fadd(fmul(x[1], x[2]), fmul(x[3], x[4])), s, t);
        }
        c
    }

    fn eval(&self, cell: &Vec<Fr>) -> (r: Fr) {
        cell[0].mul(cell[1].mul(cell[2]).add(cell[3].mul(cell[4])))
    }
}

/// The columns of the sum.
pub open spec fn eq2_columns(
    eq: Seq<int>,
    p1: Seq<int>,
    q1: Seq<int>,
    p2: Seq<int>,
    q2: Seq<int>,
) -> Seq<Seq<int>> {
    seq![eq, p1, q1, p2, q2]
}

/// The sum `sum_x eq[x] (p1[x] q1[x] + p2[x] q2[x])`.
pub open spec fn eq2_sum(
    eq: Seq<int>,
    p1: Seq<int>,
    q1: Seq<int>,
    p2: Seq<int>,
    q2: Seq<int>,
) -> int {
    total(&EqTwoProduct {  }, eq2_columns(eq, p1, q1, p2, q2), eq.len())
}

/// The transcript state after a proof's rounds.
pub open spec fn eq2_state(proof: EqTwoProductProof, t0: Seq<u8>) -> Seq<u8> {
    sc_state(false, t0, samples_of(proof.rounds@), proof.rounds@.len())
}

/// The verdict on a proof: its rounds number `n_vars`, they split their claims
/// one after the other from `claim` on, the challenges are those of the
/// transcript, and the evaluations meet the last claim.
pub open spec fn eq2_verdict(
    proof: EqTwoProductProof,
    n_vars: nat,
    claim: int,
    t0: Seq<u8>,
) -> Result<(), SnarkError> {
    let s = samples_of(proof.rounds@);
    if proof.rounds@.len() != n_vars || proof.r_full@.len() != n_vars {
        Err(SnarkError::ShapeMismatch { what: "eq-two-product: round count mismatch" })
    } else if !sc_all_split(false, t0, s, claim, n_vars) {
        Err(SnarkError::Sumcheck(SumcheckError::SplitMismatch))
    } else if sc_point(false, t0, s) != vals(proof.r_full@) {
        Err(SnarkError::TranscriptMismatch)
    } else if eq_two_product(
        proof.eq_eval@,
        proof.p1_eval@,
        proof.q1_eval@,
        proof.p2_eval@,
        proof.q2_eval@,
    ) != sc_claim(false, t0, s, claim, n_vars) {
        Err(SnarkError::Sumcheck(SumcheckError::FinalMismatch))
    } else {
        Ok(())
    }
}

/// Whether a slice length is a power of two.
pub open spec fn is_pow2(n: nat) -> bool {
    exists|k: nat| pow2(k) == n
}

/// Prove `claim = sum_x eq[x] (p1[x] q1[x] + p2[x] q2[x])`.
pub fn prove_eq_two_product_sumcheck(
    eq: &[Fr],
    p1: &[Fr],
    q1: &[Fr],
    p2: &[Fr],
    q2: &[Fr],
    claim: Fr,
    sponge: &mut Transcript,
) -> (r: Result<EqTwoProductProof, SnarkError>)
    ensures
        match r {
            Err(e) => {
                ||| !is_pow2(eq@.len()) && e == (SnarkError::ShapeMismatch {
                    what: "eq-two-product: non-pow2 length",
                })
                ||| is_pow2(eq@.len()) && !(p1@.len() == eq@.len() && q1@.len() == eq@.len()
                    && p2@.len() == eq@.len() && q2@.len() == eq@.len()) && e == (
                SnarkError::ShapeMismatch { what: "eq-two-product: vector length mismatch" })
            },
            Ok(proof) => {
                let t0 = state_of(*old(sponge));
                let s = samples_of(proof.rounds@);
                let point = vals(proof.r_full@);
                let cols = eq2_columns(vals(eq@), vals(p1@), vals(q1@), vals(p2@), vals(q2@));
                let n_vars = proof.rounds@.len();
                &&& eq@.len() == pow2(n_vars)
                &&& p1@.len() == eq@.len()
                &&& q1@.len() == eq@.len()
                &&& p2@.len() == eq@.len()
                &&& q2@.len() == eq@.len()
                &&& point == sc_point(false, t0, s)
                &&& forall|j: int|
                    0 <= j < n_vars ==> #[trigger] s[j] == round_samples(
                        &EqTwoProduct {  },
                        fold_cols_many(cols, point.take(j)),
                        pow2((n_vars - 1 - j) as nat),
                        3,
                    )
                &&& proof.eq_eval@ == mle(vals(eq@), point)
                &&& proof.p1_eval@ == mle(vals(p1@), point)
                &&& proof.q1_eval@ == mle(vals(q1@), point)
                &&& proof.p2_eval@ == mle(vals(p2@), point)
                &&& proof.q2_eval@ == mle(vals(q2@), point)
                &&& state_of(*final(sponge)) == eq2_state(proof, t0)
                &&& claim@ == eq2_sum(vals(eq@), vals(p1@), vals(q1@), vals(p2@), vals(q2@))
                    ==> eq2_verdict(proof, n_vars, claim@, t0) == Ok::<(), SnarkError>(())
            },
        },
{
    let n: usize = eq.len();
    let k: usize = match log2_exact(n) {
        Some(k) => k,
        None => {
            return Err(SnarkError::ShapeMismatch { what: "eq-two-product: non-pow2 length" });
        },
    };
    assert(is_pow2(eq@.len()));
    if p1.len() != n || q1.len() != n || p2.len() != n || q2.len() != n {
        return Err(SnarkError::ShapeMismatch { what: "eq-two-product: vector length mismatch" });
    }
    let ident: EqTwoProduct = EqTwoProduct {  };
    let cols: Vec<Vec<Fr>> = vec![copied(eq), copied(p1), copied(q1), copied(p2), copied(q2)];
    let ghost cv = eq2_columns(vals(eq@), vals(p1@), vals(q1@), vals(p2@), vals(q2@));
    assert(vals2(cols@) =~= cv);
    let run: SumcheckRun<RoundPoly3> = match prove_rounds::<EqTwoProduct, RoundPoly3>(
        &ident,
        cols,
        k,
        claim,
        false,
        false,
        sponge,
    ) {
        Ok(run) => run,
        Err(_) => {
            return Err(SnarkError::Sumcheck(SumcheckError::SplitMismatch));
        },
    };
    proof {
        broadcast use group_in_field;

        assert(run.finals@[0]@ == mle(cv[0], vals(run.point@)));
        assert(run.finals@[1]@ == mle(cv[1], vals(run.point@)));
        assert(run.finals@[2]@ == mle(cv[2], vals(run.point@)));
        assert(run.finals@[3]@ == mle(cv[3], vals(run.point@)));
        assert(run.finals@[4]@ == mle(cv[4], vals(run.point@)));
        lemma_fadd_zero(ident.at(vals(run.finals@)));
    }
    Ok(
        EqTwoProductProof {
            rounds: run.rounds,
            r_full: run.point,
            eq_eval: run.finals[0],
            p1_eval: run.finals[1],
            q1_eval: run.finals[2],
            p2_eval: run.finals[3],
            q2_eval: run.finals[4],
        },
    )
}

/// Verify a proof of `claim = sum_x eq[x] (p1[x] q1[x] + p2[x] q2[x])`.
pub fn verify_eq_two_product_sumcheck(
    proof: &EqTwoProductProof,
    n_vars: usize,
    claim: Fr,
    sponge: &mut Transcript,
) -> (r: Result<(), SnarkError>)
    ensures
        r == eq2_verdict(*proof, n_vars as nat, claim@, state_of(*old(sponge))),
        proof.rounds@.len() != n_vars || proof.r_full@.len() != n_vars ==> state_of(*final(sponge))
            == state_of(*old(sponge)),
        r is Ok ==> state_of(*final(sponge)) == eq2_state(*proof, state_of(*old(sponge))),
{
    if proof.rounds.len() != n_vars || proof.r_full.len() != n_vars {
        return Err(SnarkError::ShapeMismatch { what: "eq-two-product: round count mismatch" });
    }
    let replay: RoundReplay = match replay_rounds(&proof.rounds, claim, false, sponge) {
        Ok(replay) => replay,
        Err(_) => {
            return Err(SnarkError::Sumcheck(SumcheckError::SplitMismatch));
        },
    };
    if !same_elements(replay.point.as_slice(), proof.r_full.as_slice()) {
        return Err(SnarkError::TranscriptMismatch);
    }
    let final_value: Fr = proof.eq_eval.mul(
        proof.p1_eval.mul(proof.q1_eval).add(proof.p2_eval.mul(proof.q2_eval)),
    );
    if final_value != replay.claim {
        return Err(SnarkError::Sumcheck(SumcheckError::FinalMismatch));
    }
    Ok(())
}

} // verus!
