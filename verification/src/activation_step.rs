//! The bias that an activation layer adds.
//!
//! Every row's bias is the sum over the neurons of the positive part of its
//! coefficient times one line's offset, and of the rest times the other's. An
//! eq-weighted sumcheck of two products proves the sums at a challenge.

use crate::chain::{chain_state, chain_verdict, lemma_chain_err};
use crate::columns::{even_vars, round_up_even};
use crate::commit::{PassCommitments, RelaxationCommitments, TensorCommitments};
use crate::eq_two_product::{
    EqTwoProductProof, eq2_state, eq2_verdict, verify_eq_two_product_sumcheck,
};
use crate::errors::{SnarkError, and_also, holds, opened};
use crate::field::{Fr, fsub, vals};
use crate::logup::{lower, upper};
use crate::mle::{eq_points, eval_eq, same_elements};
use crate::openings::{pair_open_state, pair_open_verdict, verify_pair_at};
use crate::params::SnarkParams;
use crate::pcs::{MlPcs, hyrax_verify_at, open_state, open_verdict};
use crate::trace::BoundDir;
use crate::transcript::{
    abs_fr, abs_u64, absorb_fr, absorb_u64, after_squeeze, squeezable, squeeze, squeezed,
    state_of,
};
use ark_crypto_primitives::sponge::merlin::Transcript;
use vstd::prelude::*;

verus! {

/// The proof of the bias of one activation layer.
pub struct ActivationLayerStepProof<P: MlPcs> {
    pub layer_idx: usize,
    pub a_old_log_dims: (usize, usize),
    pub r_spec: Vec<Fr>,
    pub delta_b_claim: Fr,
    pub sumcheck: EqTwoProductProof,
    /// Joint opening of the coefficients and their positive parts.
    pub a_full_batched_open: P::Proof,
    /// Joint opening of the two lines' offsets.
    pub b_j_batched_open: P::Proof,
    pub bias_doubled_open: P::Proof,
    pub a_old_eval: Fr,
}

/// What a direction is bound to the transcript as.
pub open spec fn dir_code(d: BoundDir) -> u64 {
    match d {
        BoundDir::Lower => 0,
        BoundDir::Upper => 1,
    }
}

/// What a direction is bound to the transcript as.
pub fn direction_code(d: BoundDir) -> (r: u64)
    ensures
        r == dir_code(d),
{
    match d {
        BoundDir::Lower => 0,
        BoundDir::Upper => 1,
    }
}

/// Of a lower and an upper line, the one that positive coefficients take.
pub open spec fn for_positive<T>(d: BoundDir, lower: T, upper: T) -> T {
    match d {
        BoundDir::Lower => lower,
        BoundDir::Upper => upper,
    }
}

/// Of a lower and an upper line, the one that negative coefficients take.
pub open spec fn for_negative<T>(d: BoundDir, lower: T, upper: T) -> T {
    match d {
        BoundDir::Lower => upper,
        BoundDir::Upper => lower,
    }
}

/// The lower and the upper line, as positive and negative coefficients take
/// them.
pub fn by_sign<'a, T>(d: BoundDir, lower: &'a T, upper: &'a T) -> (r: (&'a T, &'a T))
    ensures
        *r.0 == for_positive(d, *lower, *upper),
        *r.1 == for_negative(d, *lower, *upper),
{
    match d {
        BoundDir::Lower => (lower, upper),
        BoundDir::Upper => (upper, lower),
    }
}

/// The commitments that a step is checked against.
pub struct ActivationComs<P: MlPcs> {
    pub a_old: P::Commitment,
    pub a_pos: P::Commitment,
    pub pos: P::Commitment,
    pub neg: P::Commitment,
    /// The bias, or the matrix, that the step makes.
    pub made: P::Commitment,
}

/// The state before the challenges.
pub open spec fn as_t1(layer: usize, d: BoundDir, dims: (usize, usize), t0: Seq<u8>) -> Seq<u8> {
    abs_u64(
        abs_u64(abs_u64(abs_u64(t0, layer as u64), dir_code(d)), dims.0 as u64),
        dims.1 as u64,
    )
}

/// The state before the rounds.
pub open spec fn as_t2<P: MlPcs>(proof: ActivationLayerStepProof<P>, d: BoundDir, t0: Seq<u8>) -> Seq<
    u8,
> {
    let lns = proof.a_old_log_dims.0 as int;
    abs_fr(
        after_squeeze(as_t1(proof.layer_idx, d, proof.a_old_log_dims, t0), lns),
        proof.delta_b_claim@,
    )
}

/// The state after the rounds.
pub open spec fn as_t3<P: MlPcs>(proof: ActivationLayerStepProof<P>, d: BoundDir, t0: Seq<u8>) -> Seq<
    u8,
> {
    eq2_state(proof.sumcheck, as_t2(proof, d, t0))
}

/// The number of variables of the coefficients' commitments.
pub open spec fn matrix_nv(dims: (usize, usize)) -> nat {
    even_vars((dims.0 + dims.1) as nat)
}

/// The state after the opening of the coefficients.
pub open spec fn as_t4<P: MlPcs>(
    vk: P::VerifierKey,
    proof: ActivationLayerStepProof<P>,
    d: BoundDir,
    coms: ActivationComs<P>,
    t0: Seq<u8>,
) -> Seq<u8> {
    pair_open_state::<P>(
        vk,
        coms.a_old,
        coms.a_pos,
        proof.a_old_eval@,
        proof.sumcheck.p1_eval@,
        vals(proof.sumcheck.r_full@),
        proof.a_full_batched_open,
        matrix_nv(proof.a_old_log_dims),
        as_t3(proof, d, t0),
    )
}

/// The state after the opening of the lines.
pub open spec fn as_t5<P: MlPcs>(
    vk: P::VerifierKey,
    proof: ActivationLayerStepProof<P>,
    d: BoundDir,
    coms: ActivationComs<P>,
    t0: Seq<u8>,
) -> Seq<u8> {
    pair_open_state::<P>(
        vk,
        coms.pos,
        coms.neg,
        proof.sumcheck.q1_eval@,
        proof.sumcheck.q2_eval@,
        vals(proof.sumcheck.r_full@).skip(proof.a_old_log_dims.0 as int),
        proof.b_j_batched_open,
        even_vars(proof.a_old_log_dims.1 as nat),
        as_t4(vk, proof, d, coms, t0),
    )
}

/// The state after the whole check.
#[verifier::opaque]
pub open spec fn activation_state<P: MlPcs>(
    vk: P::VerifierKey,
    proof: ActivationLayerStepProof<P>,
    d: BoundDir,
    coms: ActivationComs<P>,
    t0: Seq<u8>,
) -> Seq<u8> {
    open_state::<P>(
        vk,
        coms.made,
        vals(proof.r_spec@),
        proof.delta_b_claim@,
        proof.bias_doubled_open,
        even_vars(proof.a_old_log_dims.0 as nat),
        as_t5(vk, proof, d, coms, t0),
    )
}

/// A check that fails with a given error.
pub open spec fn failing_as(v: Result<(), SnarkError>, e: SnarkError) -> Result<(), SnarkError> {
    match v {
        Ok(_) => Ok(()),
        Err(_) => Err(e),
    }
}

/// The verdict on a step's challenges and rounds.
#[verifier::opaque]
pub open spec fn activation_rounds_verdict<P: MlPcs>(
    proof: ActivationLayerStepProof<P>,
    d: BoundDir,
    t0: Seq<u8>,
) -> Result<(), SnarkError> {
    let (lns, lni) = proof.a_old_log_dims;
    let bad = SnarkError::ActivationLayerRejected { layer: proof.layer_idx };
    and_also(
        holds(
            squeezed(as_t1(proof.layer_idx, d, proof.a_old_log_dims, t0), lns as int) == vals(
                proof.r_spec@,
            ),
            SnarkError::TranscriptMismatch,
        ),
        and_also(
            failing_as(
                eq2_verdict(
                    proof.sumcheck,
                    (lns + lni) as nat,
                    proof.delta_b_claim@,
                    as_t2(proof, d, t0),
                ),
                bad,
            ),
            holds(
                proof.sumcheck.eq_eval@ == eq_points(
                    vals(proof.r_spec@),
                    vals(proof.sumcheck.r_full@).take(lns as int),
                ),
                bad,
            ),
        ),
    )
}

/// The verdict on a step's openings, and on the parts that they split the
/// coefficients into.
#[verifier::opaque]
pub open spec fn activation_openings_verdict<P: MlPcs>(
    vk: P::VerifierKey,
    proof: ActivationLayerStepProof<P>,
    d: BoundDir,
    coms: ActivationComs<P>,
    t0: Seq<u8>,
) -> Result<(), SnarkError> {
    let (lns, lni) = proof.a_old_log_dims;
    let bad = SnarkError::ActivationLayerRejected { layer: proof.layer_idx };
    and_also(
        pair_open_verdict::<P>(
            vk,
            coms.a_old,
            coms.a_pos,
            proof.a_old_eval@,
            proof.sumcheck.p1_eval@,
            vals(proof.sumcheck.r_full@),
            proof.a_full_batched_open,
            matrix_nv(proof.a_old_log_dims),
            "act_A_full_batch",
            as_t3(proof, d, t0),
        ),
        and_also(
            pair_open_verdict::<P>(
                vk,
                coms.pos,
                coms.neg,
                proof.sumcheck.q1_eval@,
                proof.sumcheck.q2_eval@,
                vals(proof.sumcheck.r_full@).skip(lns as int),
                proof.b_j_batched_open,
                even_vars(lni as nat),
                "act_b_j_batch",
                as_t4(vk, proof, d, coms, t0),
            ),
            and_also(
                opened(
                    open_verdict::<P>(
                        vk,
                        coms.made,
                        vals(proof.r_spec@),
                        proof.delta_b_claim@,
                        proof.bias_doubled_open,
                        even_vars(lns as nat),
                        as_t5(vk, proof, d, coms, t0),
                    ),
                    "act_bias_doubled",
                ),
                holds(
                    proof.sumcheck.p2_eval@ == fsub(
                        proof.a_old_eval@,
                        proof.sumcheck.p1_eval@,
                    ),
                    bad,
                ),
            ),
        ),
    )
}

/// The commitments of step `i` of a pass, at a layer with a relaxation.
pub open spec fn activation_coms_at<P: MlPcs>(
    d: BoundDir,
    rel: RelaxationCommitments<P>,
    pass: PassCommitments<P>,
    layer: int,
    i: int,
) -> ActivationComs<P> {
    ActivationComs {
        a_old: pass.chain_a@[layer + 1],
        a_pos: pass.activation_a_pos@[i],
        pos: for_positive(d, rel.b_lower, rel.b_upper),
        neg: for_negative(d, rel.b_lower, rel.b_upper),
        made: pass.activation_bias_doubled@[i],
    }
}

/// The verdict on step `i` of a pass.
pub open spec fn activation_step_verdict<P: MlPcs>(
    vk: P::VerifierKey,
    proof: ActivationLayerStepProof<P>,
    d: BoundDir,
    coms: TensorCommitments<P>,
    pass: PassCommitments<P>,
    i: int,
    t0: Seq<u8>,
) -> Result<(), SnarkError> {
    and_also(
        activation_rounds_verdict(proof, d, t0),
        match coms.relaxation@[proof.layer_idx as int] {
            None => Err(SnarkError::ShapeMismatch { what: "missing relaxation commit" }),
            Some(rel) => activation_openings_verdict(
                vk,
                proof,
                d,
                activation_coms_at(d, rel, pass, proof.layer_idx as int, i),
                t0,
            ),
        },
    )
}

/// The state after step `i` of a pass.
pub open spec fn activation_step_state<P: MlPcs>(
    vk: P::VerifierKey,
    proof: ActivationLayerStepProof<P>,
    d: BoundDir,
    coms: TensorCommitments<P>,
    pass: PassCommitments<P>,
    i: int,
    t0: Seq<u8>,
) -> Seq<u8> {
    activation_state(
        vk,
        proof,
        d,
        activation_coms_at(
            d,
            coms.relaxation@[proof.layer_idx as int]->0,
            pass,
            proof.layer_idx as int,
            i,
        ),
        t0,
    )
}

/// Whether the commitments of step `i` are there, and its axes are short
/// enough to be drawn from a transcript.
pub open spec fn activation_coms_there<P: MlPcs>(
    proof: ActivationLayerStepProof<P>,
    coms: TensorCommitments<P>,
    pass: PassCommitments<P>,
    i: int,
) -> bool {
    &&& squeezable(proof.a_old_log_dims.0 as int)
    &&& squeezable(proof.a_old_log_dims.1 as int)
    &&& proof.layer_idx + 1 < pass.chain_a@.len()
    &&& i < pass.activation_a_pos@.len()
    &&& i < pass.activation_bias_doubled@.len()
    &&& proof.layer_idx < coms.relaxation@.len()
}

/// Check a step's challenges and rounds.
fn verify_activation_rounds<P: MlPcs>(
    proof: &ActivationLayerStepProof<P>,
    direction: BoundDir,
    sponge: &mut Transcript,
) -> (r: Result<(), SnarkError>)
    requires
        squeezable(proof.a_old_log_dims.0 as int),
        squeezable(proof.a_old_log_dims.1 as int),
    ensures
        r == activation_rounds_verdict(*proof, direction, state_of(*old(sponge))),
        r is Ok ==> state_of(*final(sponge)) == as_t3(
            *proof,
            direction,
            state_of(*old(sponge)),
        ) && proof.sumcheck.r_full@.len() == proof.a_old_log_dims.0 + proof.a_old_log_dims.1
            && proof.r_spec@.len() == proof.a_old_log_dims.0,
{
    proof {
        reveal(activation_rounds_verdict);
    }
    let (lns, lni): (usize, usize) = proof.a_old_log_dims;
    absorb_u64(sponge, proof.layer_idx as u64);
    absorb_u64(sponge, direction_code(direction));
    absorb_u64(sponge, lns as u64);
    absorb_u64(sponge, lni as u64);
    let r_spec_check: Vec<Fr> = squeeze(sponge, lns);
    if !same_elements(r_spec_check.as_slice(), proof.r_spec.as_slice()) {
        return Err(SnarkError::TranscriptMismatch);
    }
    assert(vals(r_spec_check@).len() == lns);
    assert(vals(proof.r_spec@).len() == proof.r_spec@.len());
    absorb_fr(sponge, proof.delta_b_claim);
    match verify_eq_two_product_sumcheck(&proof.sumcheck, lns + lni, proof.delta_b_claim, sponge) {
        Ok(_) => {},
        Err(_) => {
            return Err(SnarkError::ActivationLayerRejected { layer: proof.layer_idx });
        },
    }
    let r_i: &[Fr] = vstd::slice::slice_subrange(proof.sumcheck.r_full.as_slice(), 0, lns);
    assert(vals(r_i@) =~= vals(proof.sumcheck.r_full@).take(lns as int));
    if proof.sumcheck.eq_eval != eval_eq(proof.r_spec.as_slice(), r_i) {
        return Err(SnarkError::ActivationLayerRejected { layer: proof.layer_idx });
    }
    Ok(())
}

/// Check one step of a pass.
fn verify_activation_step<P: MlPcs>(
    proof: &ActivationLayerStepProof<P>,
    direction: BoundDir,
    pass_com: &PassCommitments<P>,
    commitments: &TensorCommitments<P>,
    i: usize,
    params: &SnarkParams<P>,
    sponge: &mut Transcript,
) -> (r: Result<(), SnarkError>)
    requires
        activation_coms_there(*proof, *commitments, *pass_com, i as int),
    ensures
        r == activation_step_verdict(
            params.verifier_key,
            *proof,
            direction,
            *commitments,
            *pass_com,
            i as int,
            state_of(*old(sponge)),
        ),
        r is Ok ==> state_of(*final(sponge)) == activation_step_state(
            params.verifier_key,
            *proof,
            direction,
            *commitments,
            *pass_com,
            i as int,
            state_of(*old(sponge)),
        ),
{
    proof {
        reveal(activation_openings_verdict);
        reveal(activation_state);
    }
    match verify_activation_rounds::<P>(proof, direction, sponge) {
        Ok(_) => {},
        Err(e) => {
            return Err(e);
        },
    }
    let (lns, lni): (usize, usize) = proof.a_old_log_dims;
    let n_full: usize = proof.sumcheck.r_full.len();
    let r_j: &[Fr] = vstd::slice::slice_subrange(proof.sumcheck.r_full.as_slice(), lns, n_full);
    assert(vals(r_j@) =~= vals(proof.sumcheck.r_full@).skip(lns as int));
    assert(proof.layer_idx + 1 < pass_com.chain_a.len());
    let a_old: &P::Commitment = &pass_com.chain_a[proof.layer_idx + 1];
    let a_pos: &P::Commitment = &pass_com.activation_a_pos[i];
    let rel: &RelaxationCommitments<P> = match &commitments.relaxation[proof.layer_idx] {
        Some(rel) => rel,
        None => {
            return Err(SnarkError::ShapeMismatch { what: "missing relaxation commit" });
        },
    };
    let (pos, neg): (&P::Commitment, &P::Commitment) = by_sign(
        direction,
        &rel.b_lower,
        &rel.b_upper,
    );
    match verify_pair_at::<P>(
        &params.verifier_key,
        a_old,
        a_pos,
        proof.a_old_eval,
        proof.sumcheck.p1_eval,
        proof.sumcheck.r_full.as_slice(),
        &proof.a_full_batched_open,
        round_up_even(lns + lni),
        "act_A_full_batch",
        sponge,
    ) {
        Ok(_) => {},
        Err(e) => {
            return Err(e);
        },
    }
    match verify_pair_at::<P>(
        &params.verifier_key,
        pos,
        neg,
        proof.sumcheck.q1_eval,
        proof.sumcheck.q2_eval,
        r_j,
        &proof.b_j_batched_open,
        round_up_even(lni),
        "act_b_j_batch",
        sponge,
    ) {
        Ok(_) => {},
        Err(e) => {
            return Err(e);
        },
    }
    match hyrax_verify_at::<P>(
        &params.verifier_key,
        &pass_com.activation_bias_doubled[i],
        proof.r_spec.as_slice(),
        proof.delta_b_claim,
        &proof.bias_doubled_open,
        round_up_even(lns),
        sponge,
    ) {
        Ok(true) => {},
        Ok(false) => {
            return Err(SnarkError::PcsOpenRejected { which: "act_bias_doubled" });
        },
        Err(e) => {
            return Err(e);
        },
    }
    if proof.sumcheck.p2_eval != proof.a_old_eval.sub(proof.sumcheck.p1_eval) {
        return Err(SnarkError::ActivationLayerRejected { layer: proof.layer_idx });
    }
    Ok(())
}

/// How a chain of steps is checked.
pub open spec fn activation_check<P: MlPcs>(
    vk: P::VerifierKey,
    proofs: Seq<ActivationLayerStepProof<P>>,
    d: BoundDir,
    coms: TensorCommitments<P>,
    pass: PassCommitments<P>,
) -> spec_fn(int, Seq<u8>) -> Result<(), SnarkError> {
    |i: int, t: Seq<u8>| activation_step_verdict(vk, proofs[i], d, coms, pass, i, t)
}

/// How a chain of steps moves the transcript.
pub open spec fn activation_next<P: MlPcs>(
    vk: P::VerifierKey,
    proofs: Seq<ActivationLayerStepProof<P>>,
    d: BoundDir,
    coms: TensorCommitments<P>,
    pass: PassCommitments<P>,
) -> spec_fn(int, Seq<u8>) -> Seq<u8> {
    |i: int, t: Seq<u8>| activation_step_state(vk, proofs[i], d, coms, pass, i, t)
}

/// Verify the activation steps of a pass.
pub fn verify_activation_backward_chain<P: MlPcs>(
    proofs: &Vec<ActivationLayerStepProof<P>>,
    direction: BoundDir,
    pass_com: &PassCommitments<P>,
    commitments: &TensorCommitments<P>,
    params: &SnarkParams<P>,
    sponge: &mut Transcript,
) -> (r: Result<(), SnarkError>)
    requires
        forall|i: int|
            0 <= i < proofs@.len() ==> activation_coms_there(
                #[trigger] proofs@[i],
                *commitments,
                *pass_com,
                i,
            ),
    ensures
        r == chain_verdict(
            activation_check(
                params.verifier_key,
                proofs@,
                direction,
                *commitments,
                *pass_com,
            ),
            activation_next(params.verifier_key, proofs@, direction, *commitments, *pass_com),
            proofs@.len(),
            state_of(*old(sponge)),
        ),
        r is Ok ==> state_of(*final(sponge)) == chain_state(
            activation_next(params.verifier_key, proofs@, direction, *commitments, *pass_com),
            proofs@.len(),
            state_of(*old(sponge)),
        ),
{
    let ghost t0 = state_of(*sponge);
    let ghost check = activation_check(
        params.verifier_key,
        proofs@,
        direction,
        *commitments,
        *pass_com,
    );
    let ghost next = activation_next(
        params.verifier_key,
        proofs@,
        direction,
        *commitments,
        *pass_com,
    );
    let mut i: usize = 0;
    while i < proofs.len()
        invariant
            i <= proofs@.len(),
            t0 == state_of(*old(sponge)),
            check == activation_check(
                params.verifier_key,
                proofs@,
                direction,
                *commitments,
                *pass_com,
            ),
            next == activation_next(
                params.verifier_key,
                proofs@,
                direction,
                *commitments,
                *pass_com,
            ),
            forall|k: int|
                0 <= k < proofs@.len() ==> activation_coms_there(
                    #[trigger] proofs@[k],
                    *commitments,
                    *pass_com,
                    k,
                ),
            chain_verdict(check, next, i as nat, t0) == Ok::<(), SnarkError>(()),
            state_of(*sponge) == chain_state(next, i as nat, t0),
        decreases proofs@.len() - i,
    {
        let ghost t1 = state_of(*sponge);
        match verify_activation_step::<P>(
            &proofs[i],
            direction,
            pass_com,
            commitments,
            i,
            params,
            sponge,
        ) {
            Ok(_) => {
                assert(check(i as int, t1) is Ok);
            },
            Err(e) => {
                proof {
                    lemma_chain_err(check, next, (i + 1) as nat, proofs@.len(), t0);
                }
                return Err(e);
            },
        }
        i += 1;
    }
    Ok(())
}

} // verus!
