//! The step through a linear layer: `A_W = A W` and `A_b = A b`.
//!
//! The two claims are batched with a challenge, proved by one inner-product
//! sumcheck over the shared axis, and bound to the commitments by openings at
//! the sumcheck's point.

use crate::columns::{even_vars, round_up_even};
use crate::errors::{SnarkError, and_also, holds};
use crate::field::{Fr, fadd, fmul, vals};
use crate::inner_product::{
    InnerProductProof, ip_point, ip_state, ip_verdict, verify_inner_product_with_sponge,
};
use crate::mle::{concat, copied, same_elements};
use crate::openings::{
    OpeningClaim, OpeningView, claim_views, openings_state, openings_verdict, verify_openings,
};
use crate::pcs::{CommittedAux, MlPcs};
use crate::transcript::{
    abs_fr, abs_u64, absorb_fr, absorb_u64, after_squeeze, challenge, challenged, squeezable,
    squeeze, squeeze_one, squeezed, state_of,
};
use ark_crypto_primitives::sponge::merlin::Transcript;
use vstd::prelude::*;

verus! {

/// The proof of one linear step.
pub struct LinearBackwardProof<P: MlPcs> {
    pub r_spec: Vec<Fr>,
    pub r_out: Vec<Fr>,
    pub batching_alpha: Fr,
    pub matmul_claim: Fr,
    pub matvec_claim: Fr,
    pub sumcheck: InnerProductProof,
    pub r_j: Vec<Fr>,
    pub a_old_eval: Fr,
    pub w_eval: Fr,
    pub b_eval: Fr,
    pub w_open: P::Proof,
    pub b_open: P::Proof,
    pub a_old_open: P::Proof,
    pub a_w_open: P::Proof,
    pub a_b_open: P::Proof,
}

/// What the prover opens: the five tensors of a linear step.
pub struct LinearBackwardCommitContext<'a, P: MlPcs> {
    pub ck: &'a P::CommitterKey,
    pub w_aux: &'a CommittedAux<P>,
    pub w_commitment: &'a P::Commitment,
    pub b_aux: &'a CommittedAux<P>,
    pub b_commitment: &'a P::Commitment,
    pub a_old_aux: &'a CommittedAux<P>,
    pub a_old_commitment: &'a P::Commitment,
    pub a_w_aux: &'a CommittedAux<P>,
    pub a_w_commitment: &'a P::Commitment,
    pub a_b_aux: &'a CommittedAux<P>,
    pub a_b_commitment: &'a P::Commitment,
    pub max_num_vars: usize,
}

/// What the verifier checks openings against.
pub struct LinearBackwardVerifyContext<'a, P: MlPcs> {
    pub vk: &'a P::VerifierKey,
    pub w_commitment: &'a P::Commitment,
    pub b_commitment: &'a P::Commitment,
    pub a_old_commitment: &'a P::Commitment,
    pub a_w_commitment: &'a P::Commitment,
    pub a_b_commitment: &'a P::Commitment,
    pub max_num_vars: usize,
}

/// The points and values that a verified step is bound to.
#[derive(Debug)]
pub struct LinearBackwardOpenings {
    pub a_old: (Vec<Fr>, Fr),
    pub w: (Vec<Fr>, Fr),
    pub b: (Vec<Fr>, Fr),
    pub a_w: (Vec<Fr>, Fr),
    pub a_b: (Vec<Fr>, Fr),
}

/// The commitments of a linear step.
pub struct LinearComs<P: MlPcs> {
    pub w: P::Commitment,
    pub b: P::Commitment,
    pub a_old: P::Commitment,
    pub a_w: P::Commitment,
    pub a_b: P::Commitment,
}

/// The verifier's commitments.
pub open spec fn verify_coms<P: MlPcs>(ctx: LinearBackwardVerifyContext<P>) -> LinearComs<P> {
    LinearComs {
        w: *ctx.w_commitment,
        b: *ctx.b_commitment,
        a_old: *ctx.a_old_commitment,
        a_w: *ctx.a_w_commitment,
        a_b: *ctx.a_b_commitment,
    }
}

/// The prover's commitments.
pub open spec fn prover_coms<P: MlPcs>(ctx: LinearBackwardCommitContext<P>) -> LinearComs<P> {
    LinearComs {
        w: *ctx.w_commitment,
        b: *ctx.b_commitment,
        a_old: *ctx.a_old_commitment,
        a_w: *ctx.a_w_commitment,
        a_b: *ctx.a_b_commitment,
    }
}

// ---- The transcript ----

/// The state before the challenges.
pub open spec fn lb_t1(lns: usize, lni: usize, lno: usize, t0: Seq<u8>) -> Seq<u8> {
    abs_u64(abs_u64(abs_u64(t0, lns as u64), lni as u64), lno as u64)
}

/// The point of the rows.
pub open spec fn lb_r_spec(lns: usize, lni: usize, lno: usize, t0: Seq<u8>) -> Seq<int> {
    squeezed(lb_t1(lns, lni, lno, t0), lns as int)
}

/// The state after the point of the rows.
pub open spec fn lb_t2(lns: usize, lni: usize, lno: usize, t0: Seq<u8>) -> Seq<u8> {
    after_squeeze(lb_t1(lns, lni, lno, t0), lns as int)
}

/// The point of the columns.
pub open spec fn lb_r_out(lns: usize, lni: usize, lno: usize, t0: Seq<u8>) -> Seq<int> {
    squeezed(lb_t2(lns, lni, lno, t0), lno as int)
}

/// The state after both points.
pub open spec fn lb_t3(lns: usize, lni: usize, lno: usize, t0: Seq<u8>) -> Seq<u8> {
    after_squeeze(lb_t2(lns, lni, lno, t0), lno as int)
}

/// The challenge that batches the two claims.
pub open spec fn lb_alpha(lns: usize, lni: usize, lno: usize, t0: Seq<u8>) -> int {
    challenge(lb_t3(lns, lni, lno, t0))
}

/// The batched claim.
pub open spec fn batched_claim(matmul: int, alpha: int, matvec: int) -> int {
    fadd(matmul, fmul(alpha, matvec))
}

/// The state before the rounds.
pub open spec fn lb_t4(
    lns: usize,
    lni: usize,
    lno: usize,
    matmul: int,
    alpha: int,
    matvec: int,
    t0: Seq<u8>,
) -> Seq<u8> {
    abs_fr(
        abs_fr(abs_fr(challenged(lb_t3(lns, lni, lno, t0)), matmul), matvec),
        batched_claim(matmul, alpha, matvec),
    )
}

/// The state before a proof's rounds.
pub open spec fn lb_rounds_start<P: MlPcs>(
    proof: LinearBackwardProof<P>,
    lns: usize,
    lni: usize,
    lno: usize,
    t0: Seq<u8>,
) -> Seq<u8> {
    lb_t4(
        lns,
        lni,
        lno,
        proof.matmul_claim@,
        proof.batching_alpha@,
        proof.matvec_claim@,
        t0,
    )
}

/// The openings of a proof, in order.
pub open spec fn lb_claims<P: MlPcs>(
    proof: LinearBackwardProof<P>,
    coms: LinearComs<P>,
    lns: nat,
    lni: nat,
    lno: nat,
) -> Seq<OpeningView<P>> {
    seq![
        OpeningView {
            which: "W",
            commitment: coms.w,
            point: vals(proof.r_j@) + vals(proof.r_out@),
            value: proof.w_eval@,
            proof: proof.w_open,
            n_vars: even_vars(lni + lno),
        },
        OpeningView {
            which: "b",
            commitment: coms.b,
            point: vals(proof.r_j@),
            value: proof.b_eval@,
            proof: proof.b_open,
            n_vars: even_vars(lni),
        },
        OpeningView {
            which: "A_old",
            commitment: coms.a_old,
            point: vals(proof.r_spec@) + vals(proof.r_j@),
            value: proof.a_old_eval@,
            proof: proof.a_old_open,
            n_vars: even_vars(lns + lni),
        },
        OpeningView {
            which: "A_W",
            commitment: coms.a_w,
            point: vals(proof.r_spec@) + vals(proof.r_out@),
            value: proof.matmul_claim@,
            proof: proof.a_w_open,
            n_vars: even_vars(lns + lno),
        },
        OpeningView {
            which: "A_b",
            commitment: coms.a_b,
            point: vals(proof.r_spec@),
            value: proof.matvec_claim@,
            proof: proof.a_b_open,
            n_vars: even_vars(lns),
        },
    ]
}

/// The state after the whole check.
#[verifier::opaque]
pub open spec fn linear_state<P: MlPcs>(
    vk: P::VerifierKey,
    proof: LinearBackwardProof<P>,
    coms: LinearComs<P>,
    lns: usize,
    lni: usize,
    lno: usize,
    t0: Seq<u8>,
) -> Seq<u8> {
    openings_state(
        vk,
        lb_claims(proof, coms, lns as nat, lni as nat, lno as nat),
        5,
        ip_state(proof.sumcheck, lb_rounds_start(proof, lns, lni, lno, t0)),
    )
}

/// The value that the last claim must have.
pub open spec fn lb_final<P: MlPcs>(proof: LinearBackwardProof<P>) -> int {
    fmul(
        proof.a_old_eval@,
        fadd(proof.w_eval@, fmul(proof.batching_alpha@, proof.b_eval@)),
    )
}

/// The verdict on a step's proof.
#[verifier::opaque]
pub open spec fn linear_verdict<P: MlPcs>(
    vk: P::VerifierKey,
    proof: LinearBackwardProof<P>,
    coms: LinearComs<P>,
    a_dims: (usize, usize),
    w_dims: (usize, usize),
    t0: Seq<u8>,
) -> Result<(), SnarkError> {
    let (lns, lni) = a_dims;
    let lno = w_dims.1;
    let start = lb_rounds_start(proof, lns, lni, lno, t0);
    and_also(
        holds(
            lni == w_dims.0,
            SnarkError::ShapeMismatch {
                what: "verifier linear backward: A_old / W inner-dim mismatch",
            },
        ),
        and_also(
            holds(
                proof.r_spec@.len() == lns && proof.r_out@.len() == lno && proof.r_j@.len() == lni,
                SnarkError::ShapeMismatch { what: "challenge length mismatch" },
            ),
            and_also(
                holds(
                    lb_r_spec(lns, lni, lno, t0) == vals(proof.r_spec@) && lb_r_out(
                        lns,
                        lni,
                        lno,
                        t0,
                    ) == vals(proof.r_out@) && lb_alpha(lns, lni, lno, t0)
                        == proof.batching_alpha@,
                    SnarkError::TranscriptMismatch,
                ),
                and_also(
                    match ip_verdict(
                        proof.sumcheck,
                        lni as nat,
                        batched_claim(
                            proof.matmul_claim@,
                            proof.batching_alpha@,
                            proof.matvec_claim@,
                        ),
                        lb_final(proof),
                        start,
                    ) {
                        Ok(_) => Ok(()),
                        Err(e) => Err(SnarkError::Sumcheck(e)),
                    },
                    and_also(
                        holds(
                            ip_point(proof.sumcheck, start) == vals(proof.r_j@),
                            SnarkError::TranscriptMismatch,
                        ),
                        openings_verdict(
                            vk,
                            lb_claims(proof, coms, lns as nat, lni as nat, lno as nat),
                            5,
                            ip_state(proof.sumcheck, start),
                        ),
                    ),
                ),
            ),
        ),
    )
}

/// Whether the axes of a step are short enough to be drawn from a transcript.
pub open spec fn dims_fit(a_dims: (usize, usize), w_dims: (usize, usize)) -> bool {
    squeezable(a_dims.0 as int) && squeezable(a_dims.1 as int) && squeezable(w_dims.1 as int)
}

/// Verify the proof of a linear step; returns the points and values that it
/// binds.
pub fn verify_linear_backward<P: MlPcs>(
    proof: &LinearBackwardProof<P>,
    a_old_log_dims: (usize, usize),
    w_log_dims: (usize, usize),
    verify_ctx: &LinearBackwardVerifyContext<'_, P>,
    sponge: &mut Transcript,
) -> (r: Result<LinearBackwardOpenings, SnarkError>)
    requires
        dims_fit(a_old_log_dims, w_log_dims),
    ensures
        a_old_log_dims.1 != w_log_dims.0 || proof.r_spec@.len() != a_old_log_dims.0
            || proof.r_out@.len() != w_log_dims.1 || proof.r_j@.len() != a_old_log_dims.1
            ==> state_of(*final(sponge)) == state_of(*old(sponge)),
        match linear_verdict(
            *verify_ctx.vk,
            *proof,
            verify_coms(*verify_ctx),
            a_old_log_dims,
            w_log_dims,
            state_of(*old(sponge)),
        ) {
            Err(e) => r == Err::<LinearBackwardOpenings, SnarkError>(e),
            Ok(_) => {
                &&& r matches Ok(o)
                &&& o.a_old.0@ == proof.r_spec@ + proof.r_j@ && o.a_old.1 == proof.a_old_eval
                &&& o.w.0@ == proof.r_j@ + proof.r_out@ && o.w.1 == proof.w_eval
                &&& o.b.0@ == proof.r_j@ && o.b.1 == proof.b_eval
                &&& o.a_w.0@ == proof.r_spec@ + proof.r_out@ && o.a_w.1 == proof.matmul_claim
                &&& o.a_b.0@ == proof.r_spec@ && o.a_b.1 == proof.matvec_claim
                &&& state_of(*final(sponge)) == linear_state(
                    *verify_ctx.vk,
                    *proof,
                    verify_coms(*verify_ctx),
                    a_old_log_dims.0,
                    a_old_log_dims.1,
                    w_log_dims.1,
                    state_of(*old(sponge)),
                )
            },
        },
{
    proof {
        reveal(linear_verdict);
        reveal(linear_state);
    }
    let (lns, lni): (usize, usize) = a_old_log_dims;
    let (lni2, lno): (usize, usize) = w_log_dims;
    if lni != lni2 {
        return Err(
            SnarkError::ShapeMismatch {
                what: "verifier linear backward: A_old / W inner-dim mismatch",
            },
        );
    }
    if proof.r_spec.len() != lns || proof.r_out.len() != lno || proof.r_j.len() != lni {
        return Err(SnarkError::ShapeMismatch { what: "challenge length mismatch" });
    }
    absorb_u64(sponge, lns as u64);
    absorb_u64(sponge, lni as u64);
    absorb_u64(sponge, lno as u64);
    let r_spec_check: Vec<Fr> = squeeze(sponge, lns);
    let r_out_check: Vec<Fr> = squeeze(sponge, lno);
    let alpha_check: Fr = squeeze_one(sponge);
    if !same_elements(r_spec_check.as_slice(), proof.r_spec.as_slice()) || !same_elements(
        r_out_check.as_slice(),
        proof.r_out.as_slice(),
    ) || alpha_check != proof.batching_alpha {
        return Err(SnarkError::TranscriptMismatch);
    }
    absorb_fr(sponge, proof.matmul_claim);
    absorb_fr(sponge, proof.matvec_claim);
    let batched: Fr = proof.matmul_claim.add(proof.batching_alpha.mul(proof.matvec_claim));
    absorb_fr(sponge, batched);
    let final_value: Fr = proof.a_old_eval.mul(
        proof.w_eval.add(proof.batching_alpha.mul(proof.b_eval)),
    );
    let r_j: Vec<Fr> = match verify_inner_product_with_sponge(
        batched,
        lni,
        &proof.sumcheck,
        final_value,
        sponge,
    ) {
        Ok(r) => r,
        Err(e) => {
            return Err(SnarkError::Sumcheck(e));
        },
    };
    if !same_elements(r_j.as_slice(), proof.r_j.as_slice()) {
        return Err(SnarkError::TranscriptMismatch);
    }
    let w_nv: usize = round_up_even(lni + lno);
    let b_nv: usize = round_up_even(lni);
    let a_old_nv: usize = round_up_even(lns + lni);
    let a_w_nv: usize = round_up_even(lns + lno);
    let a_b_nv: usize = round_up_even(lns);
    let claims: Vec<OpeningClaim<'_, P>> = vec![
        OpeningClaim {
            which: "W",
            commitment: verify_ctx.w_commitment,
            point: concat(proof.r_j.as_slice(), proof.r_out.as_slice()),
            value: proof.w_eval,
            proof: &proof.w_open,
            n_vars: w_nv,
        },
        OpeningClaim {
            which: "b",
            commitment: verify_ctx.b_commitment,
            point: copied(proof.r_j.as_slice()),
            value: proof.b_eval,
            proof: &proof.b_open,
            n_vars: b_nv,
        },
        OpeningClaim {
            which: "A_old",
            commitment: verify_ctx.a_old_commitment,
            point: concat(proof.r_spec.as_slice(), proof.r_j.as_slice()),
            value: proof.a_old_eval,
            proof: &proof.a_old_open,
            n_vars: a_old_nv,
        },
        OpeningClaim {
            which: "A_W",
            commitment: verify_ctx.a_w_commitment,
            point: concat(proof.r_spec.as_slice(), proof.r_out.as_slice()),
            value: proof.matmul_claim,
            proof: &proof.a_w_open,
            n_vars: a_w_nv,
        },
        OpeningClaim {
            which: "A_b",
            commitment: verify_ctx.a_b_commitment,
            point: copied(proof.r_spec.as_slice()),
            value: proof.matvec_claim,
            proof: &proof.a_b_open,
            n_vars: a_b_nv,
        },
    ];
    proof {
        let want = lb_claims(*proof, verify_coms(*verify_ctx), lns as nat, lni as nat, lno as nat);
        assert(claim_views(claims@) =~= want);
    }
    match verify_openings::<P>(verify_ctx.vk, &claims, sponge) {
        Ok(_) => {},
        Err(e) => {
            return Err(e);
        },
    }
    Ok(
        LinearBackwardOpenings {
            a_old: (concat(proof.r_spec.as_slice(), proof.r_j.as_slice()), proof.a_old_eval),
            w: (concat(proof.r_j.as_slice(), proof.r_out.as_slice()), proof.w_eval),
            b: (copied(proof.r_j.as_slice()), proof.b_eval),
            a_w: (concat(proof.r_spec.as_slice(), proof.r_out.as_slice()), proof.matmul_claim),
            a_b: (copied(proof.r_spec.as_slice()), proof.matvec_claim),
        },
    )
}

} // verus!
