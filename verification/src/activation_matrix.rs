//! The coefficients after an activation layer.
//!
//! Every coefficient is multiplied by one of two slopes: its positive part by
//! one line's, and the rest by the other's. An eq-weighted sumcheck of two
//! products over all cells proves the products at a challenge.

use crate::activation_step::{
    ActivationComs, as_t1, by_sign, direction_code, failing_as, for_negative, for_positive,
    matrix_nv,
};
use crate::chain::{chain_state, chain_verdict, lemma_chain_err};
use crate::columns::{even_vars, round_up_even};
use crate::commit::{PassCommitments, RelaxationCommitments, TensorCommitments};
use crate::eq_two_product::{
    EqTwoProductProof, eq2_state, eq2_verdict, verify_eq_two_product_sumcheck,
};
use crate::errors::{SnarkError, and_also, holds, opened};
use crate::field::{Fr, fsub, vals};
use crate::mle::{eq_points, eval_eq, same_elements};
use crate::openings::{pair_open_state, pair_open_verdict, verify_pair_at};
use crate::params::SnarkParams;
use crate::pcs::{MlPcs, hyrax_verify_at, open_state, open_verdict};
use crate::trace::BoundDir;
use crate::transcript::{
    abs_fr, absorb_fr, absorb_u64, after_squeeze, can_squeeze, squeezable, squeeze, squeezed,
    state_of,
};
use ark_crypto_primitives::sponge::merlin::Transcript;
use vstd::prelude::*;

verus! {

/// The proof of the products of one activation layer.
pub struct ActivationMatrixStepProof<P: MlPcs> {
    pub layer_idx: usize,
    /// The logarithms of the matrices' axes.
    pub log_dims: (usize, usize),
    /// The challenge over both axes.
    pub r_init: Vec<Fr>,
    /// The products' value at the challenge.
    pub a_d_claim: Fr,
    pub sumcheck: EqTwoProductProof,
    pub a_d_open: P::Proof,
    /// Joint opening of the coefficients and their positive parts.
    pub a_full_batched_open: P::Proof,
    /// Joint opening of the two lines' slopes.
    pub d_j_batched_open: P::Proof,
    pub a_old_eval: Fr,
}

/// The state before the rounds.
pub open spec fn am_t2<P: MlPcs>(proof: ActivationMatrixStepProof<P>, d: BoundDir, t0: Seq<u8>) -> Seq<
    u8,
> {
    let n = proof.log_dims.0 + proof.log_dims.1;
    abs_fr(
        after_squeeze(as_t1(proof.layer_idx, d, proof.log_dims, t0), n),
        proof.a_d_claim@,
    )
}

/// The state after the rounds.
pub open spec fn am_t3<P: MlPcs>(proof: ActivationMatrixStepProof<P>, d: BoundDir, t0: Seq<u8>) -> Seq<
    u8,
> {
    eq2_state(proof.sumcheck, am_t2(proof, d, t0))
}

/// The state after the opening of the products.
pub open spec fn am_t4<P: MlPcs>(
    vk: P::VerifierKey,
    proof: ActivationMatrixStepProof<P>,
    d: BoundDir,
    coms: ActivationComs<P>,
    t0: Seq<u8>,
) -> Seq<u8> {
    open_state::<P>(
        vk,
        coms.made,
        vals(proof.r_init@),
        proof.a_d_claim@,
        proof.a_d_open,
        matrix_nv(proof.log_dims),
        am_t3(proof, d, t0),
    )
}

/// The state after the opening of the coefficients.
pub open spec fn am_t5<P: MlPcs>(
    vk: P::VerifierKey,
    proof: ActivationMatrixStepProof<P>,
    d: BoundDir,
    coms: ActivationComs<P>,
    t0: Seq<u8>,
) -> Seq<u8> {
    pair_open_state::<P>(
        vk,
        coms.a_old,
        coms.a_pos,
        proof.a_old_eval@,
        proof.sumcheck.p1_eval@,
        vals(proof.sumcheck.r_full@),
        proof.a_full_batched_open,
        matrix_nv(proof.log_dims),
        am_t4(vk, proof, d, coms, t0),
    )
}

/// The state after the whole check: the opening of the lines is the last.
#[verifier::opaque]
pub open spec fn activation_matrix_state<P: MlPcs>(
    vk: P::VerifierKey,
    proof: ActivationMatrixStepProof<P>,
    d: BoundDir,
    coms: ActivationComs<P>,
    t0: Seq<u8>,
) -> Seq<u8> {
    pair_open_state::<P>(
        vk,
        coms.pos,
        coms.neg,
        proof.sumcheck.q1_eval@,
        proof.sumcheck.q2_eval@,
        vals(proof.sumcheck.r_full@).skip(proof.log_dims.0 as int),
        proof.d_j_batched_open,
        even_vars(proof.log_dims.1 as nat),
        am_t5(vk, proof, d, coms, t0),
    )
}

/// The verdict on a step's challenges and rounds.
#[verifier::opaque]
pub open spec fn matrix_rounds_verdict<P: MlPcs>(
    proof: ActivationMatrixStepProof<P>,
    d: BoundDir,
    t0: Seq<u8>,
) -> Result<(), SnarkError> {
    let (lns, lni) = proof.log_dims;
    let bad = SnarkError::ActivationMatrixRejected { layer: proof.layer_idx };
    and_also(
        holds(
            squeezable(lns + lni) && squeezed(
                as_t1(proof.layer_idx, d, proof.log_dims, t0),
                lns + lni,
            ) == vals(proof.r_init@),
            SnarkError::TranscriptMismatch,
        ),
        and_also(
            failing_as(
                eq2_verdict(
                    proof.sumcheck,
                    (lns + lni) as nat,
                    proof.a_d_claim@,
                    am_t2(proof, d, t0),
                ),
                bad,
            ),
            holds(
                proof.sumcheck.eq_eval@ == eq_points(
                    vals(proof.sumcheck.r_full@),
                    vals(proof.r_init@),
                ),
                bad,
            ),
        ),
    )
}

/// The verdict on a step's openings, and on the parts that they split the
/// coefficients into.
#[verifier::opaque]
pub open spec fn matrix_openings_verdict<P: MlPcs>(
    vk: P::VerifierKey,
    proof: ActivationMatrixStepProof<P>,
    d: BoundDir,
    coms: ActivationComs<P>,
    t0: Seq<u8>,
) -> Result<(), SnarkError> {
    let (lns, lni) = proof.log_dims;
    let bad = SnarkError::ActivationMatrixRejected { layer: proof.layer_idx };
    and_also(
        opened(
            open_verdict::<P>(
                vk,
                coms.made,
                vals(proof.r_init@),
                proof.a_d_claim@,
                proof.a_d_open,
                matrix_nv(proof.log_dims),
                am_t3(proof, d, t0),
            ),
            "act_matrix_a_d",
        ),
        and_also(
            pair_open_verdict::<P>(
                vk,
                coms.a_old,
                coms.a_pos,
                proof.a_old_eval@,
                proof.sumcheck.p1_eval@,
                vals(proof.sumcheck.r_full@),
                proof.a_full_batched_open,
                matrix_nv(proof.log_dims),
                "act_matrix_a_full_batch",
                am_t4(vk, proof, d, coms, t0),
            ),
            and_also(
                pair_open_verdict::<P>(
                    vk,
                    coms.pos,
                    coms.neg,
                    proof.sumcheck.q1_eval@,
                    proof.sumcheck.q2_eval@,
                    vals(proof.sumcheck.r_full@).skip(lns as int),
                    proof.d_j_batched_open,
                    even_vars(lni as nat),
                    "act_matrix_d_j_batch",
                    am_t5(vk, proof, d, coms, t0),
                ),
                holds(
                    proof.sumcheck.p2_eval@ == fsub(
                        proof.a_old_eval@,
                        proof.sumcheck.p1_eval@,
                    ),
                    bad,
                ),
            ),
        ),
    )
}

/// The commitments of step `i` of a pass, at a layer with a relaxation.
pub open spec fn matrix_coms_at<P: MlPcs>(
    d: BoundDir,
    rel: RelaxationCommitments<P>,
    pass: PassCommitments<P>,
    layer: int,
    i: int,
) -> ActivationComs<P> {
    ActivationComs {
        a_old: pass.chain_a@[layer + 1],
        a_pos: pass.activation_a_pos@[i],
        pos: for_positive(d, rel.d_lower, rel.d_upper),
        neg: for_negative(d, rel.d_lower, rel.d_upper),
        made: pass.activation_a_d_doubled@[i],
    }
}

/// Whether a pass holds the commitments that step `i` names.
pub open spec fn chain_coms_there<P: MlPcs>(
    proof: ActivationMatrixStepProof<P>,
    pass: PassCommitments<P>,
    i: int,
) -> bool {
    &&& proof.layer_idx + 1 < pass.chain_a@.len()
    &&& i < pass.activation_a_pos@.len()
    &&& i < pass.activation_a_d_doubled@.len()
}

/// The verdict on step `i` of a pass.
pub open spec fn matrix_step_verdict<P: MlPcs>(
    vk: P::VerifierKey,
    proof: ActivationMatrixStepProof<P>,
    d: BoundDir,
    coms: TensorCommitments<P>,
    pass: PassCommitments<P>,
    i: int,
    t0: Seq<u8>,
) -> Result<(), SnarkError> {
    let missing = SnarkError::ShapeMismatch { what: "missing relaxation commit (act_matrix)" };
    and_also(
        matrix_rounds_verdict(proof, d, t0),
        and_also(
            holds(
                chain_coms_there(proof, pass, i),
                SnarkError::ShapeMismatch { what: "missing chain commit (act_matrix)" },
            ),
            if proof.layer_idx >= coms.relaxation@.len() {
                Err(missing)
            } else {
                match coms.relaxation@[proof.layer_idx as int] {
                    None => Err(missing),
                    Some(rel) => matrix_openings_verdict(
                        vk,
                        proof,
                        d,
                        matrix_coms_at(d, rel, pass, proof.layer_idx as int, i),
                        t0,
                    ),
                }
            },
        ),
    )
}

/// The state after step `i` of a pass.
pub open spec fn matrix_step_state<P: MlPcs>(
    vk: P::VerifierKey,
    proof: ActivationMatrixStepProof<P>,
    d: BoundDir,
    coms: TensorCommitments<P>,
    pass: PassCommitments<P>,
    i: int,
    t0: Seq<u8>,
) -> Seq<u8> {
    activation_matrix_state(
        vk,
        proof,
        d,
        matrix_coms_at(
            d,
            coms.relaxation@[proof.layer_idx as int]->0,
            pass,
            proof.layer_idx as int,
            i,
        ),
        t0,
    )
}

/// Check a step's challenges and rounds.
fn verify_matrix_rounds<P: MlPcs>(
    proof: &ActivationMatrixStepProof<P>,
    direction: BoundDir,
    sponge: &mut Transcript,
) -> (r: Result<(), SnarkError>)
    ensures
        r == matrix_rounds_verdict(*proof, direction, state_of(*old(sponge))),
        ({
            let (lns, lni) = proof.log_dims;
            let t1 = as_t1(proof.layer_idx, direction, proof.log_dims, state_of(*old(sponge)));
            &&& !squeezable(lns + lni) ==> state_of(*final(sponge)) == state_of(*old(sponge))
            &&& squeezable(lns + lni) && squeezed(t1, lns + lni) != vals(proof.r_init@)
                ==> state_of(*final(sponge)) == after_squeeze(t1, lns + lni)
        }),
        r is Ok ==> state_of(*final(sponge)) == am_t3(
            *proof,
            direction,
            state_of(*old(sponge)),
        ) && proof.sumcheck.r_full@.len() == proof.log_dims.0 + proof.log_dims.1 && squeezable(
            proof.log_dims.0 + proof.log_dims.1,
        ),
{
    proof {
        reveal(matrix_rounds_verdict);
    }
    let (lns, lni): (usize, usize) = proof.log_dims;
    match lns.checked_add(lni) {
        Some(n) => {
            if !can_squeeze(n) {
                return Err(SnarkError::TranscriptMismatch);
            }
        },
        None => {
            return Err(SnarkError::TranscriptMismatch);
        },
    }
    absorb_u64(sponge, proof.layer_idx as u64);
    absorb_u64(sponge, direction_code(direction));
    absorb_u64(sponge, lns as u64);
    absorb_u64(sponge, lni as u64);
    let r_init_check: Vec<Fr> = squeeze(sponge, lns + lni);
    if !same_elements(r_init_check.as_slice(), proof.r_init.as_slice()) {
        return Err(SnarkError::TranscriptMismatch);
    }
    assert(vals(r_init_check@).len() == lns + lni);
    assert(vals(proof.r_init@).len() == proof.r_init@.len());
    absorb_fr(sponge, proof.a_d_claim);
    match verify_eq_two_product_sumcheck(&proof.sumcheck, lns + lni, proof.a_d_claim, sponge) {
        Ok(_) => {},
        Err(_) => {
            return Err(SnarkError::ActivationMatrixRejected { layer: proof.layer_idx });
        },
    }
    if proof.sumcheck.eq_eval != eval_eq(
        proof.sumcheck.r_full.as_slice(),
        proof.r_init.as_slice(),
    ) {
        return Err(SnarkError::ActivationMatrixRejected { layer: proof.layer_idx });
    }
    Ok(())
}

/// Check one step of a pass.
fn verify_matrix_step<P: MlPcs>(
    proof: &ActivationMatrixStepProof<P>,
    direction: BoundDir,
    pass_com: &PassCommitments<P>,
    commitments: &TensorCommitments<P>,
    i: usize,
    params: &SnarkParams<P>,
    sponge: &mut Transcript,
) -> (r: Result<(), SnarkError>)
    ensures
        r == matrix_step_verdict(
            params.verifier_key,
            *proof,
            direction,
            *commitments,
            *pass_com,
            i as int,
            state_of(*old(sponge)),
        ),
        r is Ok ==> state_of(*final(sponge)) == matrix_step_state(
            params.verifier_key,
            *proof,
            direction,
            *commitments,
            *pass_com,
            i as int,
            state_of(*old(sponge)),
        ),
{
    proof {
        reveal(matrix_openings_verdict);
        reveal(activation_matrix_state);
    }
    match verify_matrix_rounds::<P>(proof, direction, sponge) {
        Ok(_) => {},
        Err(e) => {
            return Err(e);
        },
    }
    let (lns, lni): (usize, usize) = proof.log_dims;
    let n_full: usize = proof.sumcheck.r_full.len();
    let r_j: &[Fr] = vstd::slice::slice_subrange(proof.sumcheck.r_full.as_slice(), lns, n_full);
    assert(vals(r_j@) =~= vals(proof.sumcheck.r_full@).skip(lns as int));
    if proof.layer_idx >= pass_com.chain_a.len() || proof.layer_idx + 1 >= pass_com.chain_a.len()
        || i >= pass_com.activation_a_pos.len() || i >= pass_com.activation_a_d_doubled.len() {
        return Err(SnarkError::ShapeMismatch { what: "missing chain commit (act_matrix)" });
    }
    if proof.layer_idx >= commitments.relaxation.len() {
        return Err(SnarkError::ShapeMismatch { what: "missing relaxation commit (act_matrix)" });
    }
    let a_old: &P::Commitment = &pass_com.chain_a[proof.layer_idx + 1];
    let a_pos: &P::Commitment = &pass_com.activation_a_pos[i];
    let rel: &RelaxationCommitments<P> = match &commitments.relaxation[proof.layer_idx] {
        Some(rel) => rel,
        None => {
            return Err(SnarkError::ShapeMismatch { what: "missing relaxation commit (act_matrix)" });
        },
    };
    let (pos, neg): (&P::Commitment, &P::Commitment) = by_sign(
        direction,
        &rel.d_lower,
        &rel.d_upper,
    );
    match hyrax_verify_at::<P>(
        &params.verifier_key,
        &pass_com.activation_a_d_doubled[i],
        proof.r_init.as_slice(),
        proof.a_d_claim,
        &proof.a_d_open,
        round_up_even(lns + lni),
        sponge,
    ) {
        Ok(true) => {},
        Ok(false) => {
            return Err(SnarkError::PcsOpenRejected { which: "act_matrix_a_d" });
        },
        Err(e) => {
            return Err(e);
        },
    }
    match verify_pair_at::<P>(
        &params.verifier_key,
        a_old,
        a_pos,
        proof.a_old_eval,
        proof.sumcheck.p1_eval,
        proof.sumcheck.r_full.as_slice(),
        &proof.a_full_batched_open,
        round_up_even(lns + lni),
        "act_matrix_a_full_batch",
        sponge,
    ) {
        Ok(_) => {},
        Err(e) => {
            return Err(e);
        },
    }
    match verify_pair_at::<P>(
        &params.verifier_key,
        pos,
        neg,
        proof.sumcheck.q1_eval,
        proof.sumcheck.q2_eval,
        r_j,
        &proof.d_j_batched_open,
        round_up_even(lni),
        "act_matrix_d_j_batch",
        sponge,
    ) {
        Ok(_) => {},
        Err(e) => {
            return Err(e);
        },
    }
    if proof.sumcheck.p2_eval != proof.a_old_eval.sub(proof.sumcheck.p1_eval) {
        return Err(SnarkError::ActivationMatrixRejected { layer: proof.layer_idx });
    }
    Ok(())
}

/// How a chain of steps is checked.
pub open spec fn matrix_check<P: MlPcs>(
    vk: P::VerifierKey,
    proofs: Seq<ActivationMatrixStepProof<P>>,
    d: BoundDir,
    coms: TensorCommitments<P>,
    pass: PassCommitments<P>,
) -> spec_fn(int, Seq<u8>) -> Result<(), SnarkError> {
    |i: int, t: Seq<u8>| matrix_step_verdict(vk, proofs[i], d, coms, pass, i, t)
}

/// How a chain of steps moves the transcript.
pub open spec fn matrix_next<P: MlPcs>(
    vk: P::VerifierKey,
    proofs: Seq<ActivationMatrixStepProof<P>>,
    d: BoundDir,
    coms: TensorCommitments<P>,
    pass: PassCommitments<P>,
) -> spec_fn(int, Seq<u8>) -> Seq<u8> {
    |i: int, t: Seq<u8>| matrix_step_state(vk, proofs[i], d, coms, pass, i, t)
}

/// Verify the products of the activation layers of a pass.
pub fn verify_activation_matrix_chain<P: MlPcs>(
    proofs: &Vec<ActivationMatrixStepProof<P>>,
    direction: BoundDir,
    pass_com: &PassCommitments<P>,
    commitments: &TensorCommitments<P>,
    params: &SnarkParams<P>,
    sponge: &mut Transcript,
) -> (r: Result<(), SnarkError>)
    ensures
        r == chain_verdict(
            matrix_check(
                params.verifier_key,
                proofs@,
                direction,
                *commitments,
                *pass_com,
            ),
            matrix_next(params.verifier_key, proofs@, direction, *commitments, *pass_com),
            proofs@.len(),
            state_of(*old(sponge)),
        ),
        r is Ok ==> state_of(*final(sponge)) == chain_state(
            matrix_next(params.verifier_key, proofs@, direction, *commitments, *pass_com),
            proofs@.len(),
            state_of(*old(sponge)),
        ),
{
    let ghost t0 = state_of(*sponge);
    let ghost check = matrix_check(
        params.verifier_key,
        proofs@,
        direction,
        *commitments,
        *pass_com,
    );
    let ghost next = matrix_next(
        params.verifier_key,
        proofs@,
        direction,
        *commitments,
        *pass_com,
    );
    let mut i: usize = 0;
    while i < proofs.len()
        invariant
            i <= proofs@.len(),
            t0 == state_of(*old(sponge)),
            check == matrix_check(
                params.verifier_key,
                proofs@,
                direction,
                *commitments,
                *pass_com,
            ),
            next == matrix_next(
                params.verifier_key,
                proofs@,
                direction,
                *commitments,
                *pass_com,
            ),
            chain_verdict(check, next, i as nat, t0) == Ok::<(), SnarkError>(()),
            state_of(*sponge) == chain_state(next, i as nat, t0),
        decreases proofs@.len() - i,
    {
        let ghost t1 = state_of(*sponge);
        match verify_matrix_step::<P>(
            &proofs[i],
            direction,
            pass_com,
            commitments,
            i,
            params,
            sponge,
        ) {
            Ok(_) => {
                assert(check(i as int, t1) is Ok);
            },
            Err(e) => {
                proof {
                    lemma_chain_err(check, next, (i + 1) as nat, proofs@.len(), t0);
                }
                return Err(e);
            },
        }
        i += 1;
    }
    Ok(())
}

} // verus!
