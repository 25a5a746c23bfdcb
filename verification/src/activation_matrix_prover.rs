//! The prover of the coefficients after an activation layer.

use crate::activation_matrix::{
    ActivationMatrixStepProof, activation_matrix_state, am_t2, am_t3, matrix_check,
    matrix_coms_at, matrix_next, matrix_openings_verdict, matrix_rounds_verdict,
    matrix_step_state, matrix_step_verdict,
};
use crate::activation_step::{
    ActivationComs, as_t1, by_sign, direction_code, for_negative, for_positive, matrix_nv,
};
use crate::activation_step_prover::{
    activation_inputs_there, lemma_split_values, picks_shaped, split_values,
};
use crate::cert::QuantRelaxation;
use crate::chain::{chain_state, chain_verdict, lemma_chain_prefix};
use crate::columns::{even_vars, lifted_codes, round_up_even};
use crate::commit::{
    PassCommitments, PassProverStates, ProverPolyStates, TensorCommitments, matrix_committed,
    vector_committed,
};
use crate::eq_two_product::{
    EqTwoProductProof, eq2_state, eq2_verdict, is_pow2, prove_eq_two_product_sumcheck,
};
use crate::errors::SnarkError;
use crate::field::{Fr, fsub, lemma_view_in_field, vals};
use crate::linear_chain::step_dims;
use crate::matrix_laws::law_eq2_is_value;
use crate::mle::{
    build_eq_table, ceil_log2, eq_points, eval_multilinear_full, lemma_ceil_log2,
    lemma_pow2_split, mle, next_pow2_log, tile_j_along_i,
};
use crate::mle_laws::{law_eq_points_symmetric, law_mle_of_eq_table};
use crate::openings::{
    committed_front, lemma_matrix_is_front, lemma_vector_is_front, open_front, open_pair_at,
    padded_vector, pair_accepted,
};
use crate::params::SnarkParams;
use crate::pcs::{CommittedAux, MlPcs, lemma_pow2_injective, open_accepted, open_state};
use crate::picked::{is_picked, law_padded_picked, subtract_tables};
use crate::qarray::{
    CodeMatrix, QArray1, QArray2, lemma_matrix_fits, lemma_matrix_table_is_cells, matrix_fits,
    matrix_rows, matrix_width, mle_table_from_matrix, mle_table_from_vector, padded_cells,
    vector_codes,
};
use crate::trace::{ActivationStepTrace, BackwardTrace, BoundDir};
use crate::transcript::{
    abs_fr, absorb_fr, absorb_u64, after_squeeze, squeezable, squeeze, squeezed, state_of,
};
use ark_crypto_primitives::sponge::merlin::Transcript;
use vstd::prelude::*;

verus! {

/// What the rounds of a step give.
struct MatrixRounds {
    r_init: Vec<Fr>,
    claim: Fr,
    sumcheck: EqTwoProductProof,
}

/// What holds of a step's rounds.
spec fn matrix_rounds_made(
    q: MatrixRounds,
    a_old: CodeMatrix,
    a_pos: CodeMatrix,
    a_d: CodeMatrix,
    pos: Seq<i128>,
    neg: Seq<i128>,
    dims: (usize, usize),
    t1: Seq<u8>,
) -> bool {
    let t2 = abs_fr(after_squeeze(t1, dims.0 + dims.1), q.claim@);
    &&& q.r_init@.len() == dims.0 + dims.1
    &&& vals(q.r_init@) == squeezed(t1, dims.0 + dims.1)
    &&& q.claim@ == mle(lifted_codes(padded_cells(a_d)), vals(q.r_init@))
    &&& split_values(q.sumcheck, a_old, a_pos, pos, neg, dims)
    &&& q.sumcheck.eq_eval@ == eq_points(vals(q.sumcheck.r_full@), vals(q.r_init@))
    &&& is_picked(a_old, a_pos, pos, neg, a_d) ==> eq2_verdict(
        q.sumcheck,
        (dims.0 + dims.1) as nat,
        q.claim@,
        t2,
    ) == Ok::<(), SnarkError>(())
}

/// Draw the challenges, make the claim and run the rounds.
fn matrix_rounds(
    a_old: &QArray2,
    a_pos: &QArray2,
    a_d: &QArray2,
    pos: &QArray1,
    neg: &QArray1,
    dims: (usize, usize),
    sponge: &mut Transcript,
) -> (r: Result<MatrixRounds, SnarkError>)
    requires
        picks_shaped(
            a_old.codes,
            a_pos.codes,
            vector_codes(pos.codes),
            vector_codes(neg.codes),
        ),
        dims.0 == ceil_log2(matrix_rows(a_old.codes).len()),
        dims.1 == ceil_log2(matrix_width(a_old.codes)),
        matrix_fits(a_d.codes),
        dims.0 == ceil_log2(matrix_rows(a_d.codes).len()),
        dims.1 == ceil_log2(matrix_width(a_d.codes)),
        dims.0 < 64,
        dims.1 < 64,
    ensures
        r matches Ok(q) && {
            let t1 = state_of(*old(sponge));
            &&& matrix_rounds_made(
                q,
                a_old.codes,
                a_pos.codes,
                a_d.codes,
                vector_codes(pos.codes),
                vector_codes(neg.codes),
                dims,
                t1,
            )
            &&& state_of(*final(sponge)) == eq2_state(
                q.sumcheck,
                abs_fr(after_squeeze(t1, dims.0 + dims.1), q.claim@),
            )
        },
{
    let (lns, lni): (usize, usize) = dims;
    let ghost (pc, nc) = (vector_codes(pos.codes), vector_codes(neg.codes));
    let (a_old_evals, _): (Vec<Fr>, (usize, usize)) = mle_table_from_matrix(a_old);
    let (a_pos_evals, _): (Vec<Fr>, (usize, usize)) = mle_table_from_matrix(a_pos);
    let (a_d_evals, _): (Vec<Fr>, (usize, usize)) = mle_table_from_matrix(a_d);
    let pos_evals: Vec<Fr> = mle_table_from_vector(pos);
    let neg_evals: Vec<Fr> = mle_table_from_vector(neg);
    proof {
        lemma_matrix_table_is_cells(a_old.codes);
        lemma_matrix_table_is_cells(a_pos.codes);
        lemma_matrix_table_is_cells(a_d.codes);
        assert(vals(a_d_evals@).len() == a_d_evals@.len());
        lemma_matrix_fits(a_old.codes);
        lemma_pow2_split(lns as nat, lni as nat);
        lemma_ceil_log2(pc.len());
        lemma_ceil_log2(nc.len());
        assert(vals(a_old_evals@).len() == a_old_evals@.len());
        assert(vals(a_pos_evals@).len() == a_pos_evals@.len());
        assert(vals(pos_evals@).len() == pos_evals@.len());
        assert(vals(neg_evals@).len() == neg_evals@.len());
    }
    let r_init: Vec<Fr> = squeeze(sponge, lns + lni);
    let eq_tab: Vec<Fr> = build_eq_table(r_init.as_slice());
    let a_neg_evals: Vec<Fr> = subtract_tables(a_old_evals.as_slice(), a_pos_evals.as_slice());
    let pos_full: Vec<Fr> = tile_j_along_i(pos_evals.as_slice(), lns, lni);
    let neg_full: Vec<Fr> = tile_j_along_i(neg_evals.as_slice(), lns, lni);
    let claim: Fr = eval_multilinear_full(a_d_evals.as_slice(), r_init.as_slice());
    absorb_fr(sponge, claim);
    proof {
        assert(vals(eq_tab@).len() == eq_tab@.len());
        assert(vals(pos_full@).len() == pos_full@.len());
        assert(vals(neg_full@).len() == neg_full@.len());
        assert(is_pow2(eq_tab@.len()));
        if is_picked(a_old.codes, a_pos.codes, pc, nc, a_d.codes) {
            broadcast use lemma_view_in_field;

            law_padded_picked(a_old.codes, a_pos.codes, pc, nc, a_d.codes);
            law_eq2_is_value(
                vals(r_init@),
                vals(a_pos_evals@),
                vals(pos_full@),
                vals(a_neg_evals@),
                vals(neg_full@),
            );
        }
    }
    let sumcheck: EqTwoProductProof = match prove_eq_two_product_sumcheck(
        eq_tab.as_slice(),
        a_pos_evals.as_slice(),
        pos_full.as_slice(),
        a_neg_evals.as_slice(),
        neg_full.as_slice(),
        claim,
        sponge,
    ) {
        Ok(x) => x,
        Err(e) => {
            return Err(e);
        },
    };
    proof {
        broadcast use lemma_view_in_field;

        let r = vals(sumcheck.r_full@);
        lemma_pow2_injective(sumcheck.rounds@.len(), (lns + lni) as nat);
        lemma_split_values(a_old.codes, a_pos.codes, pc, nc, lns as nat, lni as nat, r);
        law_mle_of_eq_table(vals(r_init@), r);
        law_eq_points_symmetric(vals(r_init@), r);
    }
    Ok(MatrixRounds { r_init, claim, sumcheck })
}

/// The slopes that positive coefficients take.
pub open spec fn pos_slopes(d: BoundDir, rel: QuantRelaxation) -> Seq<i128> {
    vector_codes(for_positive(d, rel.d_lower, rel.d_upper).codes)
}

/// The slopes that negative coefficients take.
pub open spec fn neg_slopes(d: BoundDir, rel: QuantRelaxation) -> Seq<i128> {
    vector_codes(for_negative(d, rel.d_lower, rel.d_upper).codes)
}

/// What the prover of the products of step `i` reads is there and fits.
pub open spec fn slope_inputs_there<P: MlPcs>(
    rels: Seq<Option<QuantRelaxation>>,
    d: BoundDir,
    step: ActivationStepTrace,
    i: int,
    coms: TensorCommitments<P>,
    pass: PassCommitments<P>,
    states: ProverPolyStates<P>,
    pass_st: PassProverStates<P>,
) -> bool {
    let rel = rels[step.layer_idx as int]->0;
    &&& activation_inputs_there(rels, d, step, i, coms, pass, states, pass_st)
    &&& i < pass.activation_a_d_doubled@.len() && i < pass_st.activation_a_d_doubled@.len()
    &&& picks_shaped(
        step.a_old.codes,
        step.a_pos.codes,
        pos_slopes(d, rel),
        neg_slopes(d, rel),
    )
    &&& matrix_fits(step.a_d_doubled.codes)
    &&& step_dims(step.a_d_doubled.codes) == step_dims(step.a_old.codes)
}

/// Whether what the prover kept of step `i` is of the step's tensors, and the
/// products are the ones that the lines make.
pub open spec fn slope_step_ready<P: MlPcs>(
    ck: P::CommitterKey,
    rels: Seq<Option<QuantRelaxation>>,
    d: BoundDir,
    step: ActivationStepTrace,
    i: int,
    coms: TensorCommitments<P>,
    pass: PassCommitments<P>,
    states: ProverPolyStates<P>,
    pass_st: PassProverStates<P>,
) -> bool {
    let l = step.layer_idx as int;
    let rel = rels[l]->0;
    let (rc, rs) = (coms.relaxation@[l]->0, states.relaxation@[l]->0);
    &&& is_picked(
        step.a_old.codes,
        step.a_pos.codes,
        pos_slopes(d, rel),
        neg_slopes(d, rel),
        step.a_d_doubled.codes,
    )
    &&& matrix_committed(ck, step.a_old.codes, pass.chain_a@[l + 1], pass_st.chain_a@[l + 1])
    &&& matrix_committed(
        ck,
        step.a_pos.codes,
        pass.activation_a_pos@[i],
        pass_st.activation_a_pos@[i],
    )
    &&& vector_committed(ck, vector_codes(rel.d_lower.codes), rc.d_lower, rs.d_lower)
    &&& vector_committed(ck, vector_codes(rel.d_upper.codes), rc.d_upper, rs.d_upper)
    &&& matrix_committed(
        ck,
        step.a_d_doubled.codes,
        pass.activation_a_d_doubled@[i],
        pass_st.activation_a_d_doubled@[i],
    )
}

/// What a step's proof says of the step's tensors.
pub open spec fn matrix_step_made<P: MlPcs>(
    proof: ActivationMatrixStepProof<P>,
    rels: Seq<Option<QuantRelaxation>>,
    d: BoundDir,
    step: ActivationStepTrace,
    t0: Seq<u8>,
) -> bool {
    let rel = rels[step.layer_idx as int]->0;
    let (p, n) = (pos_slopes(d, rel), neg_slopes(d, rel));
    let dims = proof.log_dims;
    &&& proof.layer_idx == step.layer_idx
    &&& dims.0 == ceil_log2(matrix_rows(step.a_old.codes).len())
    &&& dims.1 == ceil_log2(matrix_width(step.a_old.codes))
    &&& vals(proof.r_init@) == squeezed(as_t1(step.layer_idx, d, dims, t0), dims.0 + dims.1)
    &&& proof.a_d_claim@ == mle(
        lifted_codes(padded_cells(step.a_d_doubled.codes)),
        vals(proof.r_init@),
    )
    &&& split_values(proof.sumcheck, step.a_old.codes, step.a_pos.codes, p, n, dims)
}

/// An honest step's proof is accepted.
proof fn lemma_matrix_accepts<P: MlPcs>(
    vk: P::VerifierKey,
    proof: ActivationMatrixStepProof<P>,
    d: BoundDir,
    coms: ActivationComs<P>,
    t0: Seq<u8>,
    s4: Seq<u8>,
    s5: Seq<u8>,
    s6: Seq<u8>,
)
    requires
        squeezable(proof.log_dims.0 + proof.log_dims.1),
        squeezed(
            as_t1(proof.layer_idx, d, proof.log_dims, t0),
            proof.log_dims.0 + proof.log_dims.1,
        ) == vals(proof.r_init@),
        eq2_verdict(
            proof.sumcheck,
            (proof.log_dims.0 + proof.log_dims.1) as nat,
            proof.a_d_claim@,
            am_t2(proof, d, t0),
        ) == Ok::<(), SnarkError>(()),
        proof.sumcheck.eq_eval@ == eq_points(
            vals(proof.sumcheck.r_full@),
            vals(proof.r_init@),
        ),
        open_accepted::<P>(
            vk,
            coms.made,
            vals(proof.r_init@),
            proof.a_d_claim@,
            proof.a_d_open,
            matrix_nv(proof.log_dims),
            am_t3(proof, d, t0),
        ),
        s4 == open_state::<P>(
            vk,
            coms.made,
            vals(proof.r_init@),
            proof.a_d_claim@,
            proof.a_d_open,
            matrix_nv(proof.log_dims),
            am_t3(proof, d, t0),
        ),
        pair_accepted::<P>(
            vk,
            coms.a_old,
            coms.a_pos,
            proof.a_old_eval@,
            proof.sumcheck.p1_eval@,
            vals(proof.sumcheck.r_full@),
            proof.a_full_batched_open,
            matrix_nv(proof.log_dims),
            s4,
            s5,
        ),
        pair_accepted::<P>(
            vk,
            coms.pos,
            coms.neg,
            proof.sumcheck.q1_eval@,
            proof.sumcheck.q2_eval@,
            vals(proof.sumcheck.r_full@).skip(proof.log_dims.0 as int),
            proof.d_j_batched_open,
            even_vars(proof.log_dims.1 as nat),
            s5,
            s6,
        ),
        proof.sumcheck.p2_eval@ == fsub(proof.a_old_eval@, proof.sumcheck.p1_eval@),
    ensures
        matrix_rounds_verdict(proof, d, t0) == Ok::<(), SnarkError>(()),
        matrix_openings_verdict(vk, proof, d, coms, t0) == Ok::<(), SnarkError>(()),
        activation_matrix_state(vk, proof, d, coms, t0) == s6,
{
    reveal(matrix_rounds_verdict);
    reveal(matrix_openings_verdict);
    reveal(activation_matrix_state);
}

/// Prove the products of one activation layer.
fn build_one_activation_matrix_step<P: MlPcs>(
    step: &ActivationStepTrace,
    i: usize,
    direction: BoundDir,
    cert_relaxations: &Vec<Option<QuantRelaxation>>,
    pass_com: &PassCommitments<P>,
    pass_st: &PassProverStates<P>,
    commitments: &TensorCommitments<P>,
    prover_states: &ProverPolyStates<P>,
    params: &SnarkParams<P>,
    sponge: &mut Transcript,
    rng: &mut P::Randomness,
) -> (r: Result<ActivationMatrixStepProof<P>, SnarkError>)
    requires
        slope_inputs_there(
            cert_relaxations@,
            direction,
            *step,
            i as int,
            *commitments,
            *pass_com,
            *prover_states,
            *pass_st,
        ),
    ensures
        r matches Ok(proof) ==> matrix_step_made(
            proof,
            cert_relaxations@,
            direction,
            *step,
            state_of(*old(sponge)),
        ),
        slope_step_ready(
            params.committer_key,
            cert_relaxations@,
            direction,
            *step,
            i as int,
            *commitments,
            *pass_com,
            *prover_states,
            *pass_st,
        ) ==> {
            &&& r matches Ok(proof)
            &&& params.keys_match() ==> {
                &&& matrix_step_verdict(
                    params.verifier_key,
                    proof,
                    direction,
                    *commitments,
                    *pass_com,
                    i as int,
                    state_of(*old(sponge)),
                ) == Ok::<(), SnarkError>(())
                &&& state_of(*final(sponge)) == matrix_step_state(
                    params.verifier_key,
                    proof,
                    direction,
                    *commitments,
                    *pass_com,
                    i as int,
                    state_of(*old(sponge)),
                )
            }
        },
{
    let ghost t0 = state_of(*sponge);
    let l: usize = step.layer_idx;
    if let (Some(relax), Some(relax_com), Some(relax_st)) = (
        &cert_relaxations[l],
        &commitments.relaxation[l],
        &prover_states.relaxation[l],
    ) {
        let (pos, neg): (&QArray1, &QArray1) = by_sign(direction, &relax.d_lower, &relax.d_upper);
        let (pos_com, neg_com): (&P::Commitment, &P::Commitment) = by_sign(
            direction,
            &relax_com.d_lower,
            &relax_com.d_upper,
        );
        let (pos_aux, neg_aux): (&CommittedAux<P>, &CommittedAux<P>) = by_sign(
            direction,
            &relax_st.d_lower,
            &relax_st.d_upper,
        );
        let lns: usize = next_pow2_log(step.a_old.codes.nrows());
        let lni: usize = next_pow2_log(step.a_old.codes.ncols());
        absorb_u64(sponge, l as u64);
        absorb_u64(sponge, direction_code(direction));
        absorb_u64(sponge, lns as u64);
        absorb_u64(sponge, lni as u64);
        let q: MatrixRounds = match matrix_rounds(
            &step.a_old,
            &step.a_pos,
            &step.a_d_doubled,
            pos,
            neg,
            (lns, lni),
            sponge,
        ) {
            Ok(q) => q,
            Err(e) => {
                return Err(e);
            },
        };
        assert(l + 1 < pass_com.chain_a.len());
        let n_full: usize = q.sumcheck.r_full.len();
        assert(vals(q.sumcheck.r_full@).len() == n_full);
        let r_j: &[Fr] = vstd::slice::slice_subrange(q.sumcheck.r_full.as_slice(), lns, n_full);
        assert(vals(r_j@) =~= vals(q.sumcheck.r_full@).skip(lns as int));
        let ghost ready = slope_step_ready(
            params.committer_key,
            cert_relaxations@,
            direction,
            *step,
            i as int,
            *commitments,
            *pass_com,
            *prover_states,
            *pass_st,
        );
        let ghost ck = params.committer_key;
        let ghost (ta, tp) = (
            lifted_codes(padded_cells(step.a_old.codes)),
            lifted_codes(padded_cells(step.a_pos.codes)),
        );
        let ghost (vp, vn) = (
            padded_vector(vector_codes(pos.codes)),
            padded_vector(vector_codes(neg.codes)),
        );
        let ghost td = lifted_codes(padded_cells(step.a_d_doubled.codes));
        proof {
            if ready {
                lemma_matrix_is_front(step.a_old.codes);
                lemma_matrix_is_front(step.a_pos.codes);
                lemma_vector_is_front(vector_codes(pos.codes));
                lemma_vector_is_front(vector_codes(neg.codes));
                lemma_matrix_is_front(step.a_d_doubled.codes);
                assert(committed_front(
                    ck,
                    pass_com.chain_a@[l + 1],
                    pass_st.chain_a@[l + 1],
                    ta,
                    (lns + lni) as nat,
                ));
                assert(committed_front(
                    ck,
                    pass_com.activation_a_pos@[i as int],
                    pass_st.activation_a_pos@[i as int],
                    tp,
                    (lns + lni) as nat,
                ));
                assert(committed_front(ck, *pos_com, *pos_aux, vp, lni as nat));
                assert(committed_front(ck, *neg_com, *neg_aux, vn, lni as nat));
                assert(committed_front(
                    ck,
                    pass_com.activation_a_d_doubled@[i as int],
                    pass_st.activation_a_d_doubled@[i as int],
                    td,
                    (lns + lni) as nat,
                ));
            }
        }
        let (_a_d_val, a_d_open): (Fr, P::Proof) = match open_front::<P>(
            &params.committer_key,
            &pass_st.activation_a_d_doubled[i],
            &pass_com.activation_a_d_doubled[i],
            q.r_init.as_slice(),
            sponge,
            rng,
        ) {
            Ok(x) => x,
            Err(e) => {
                return Err(e);
            },
        };
        let ghost s4 = state_of(*sponge);
        let (a_old_val, _a_pos_val, a_full_batched_open): (Fr, Fr, P::Proof) = match open_pair_at::<
            P,
        >(
            &params.committer_key,
            &pass_st.chain_a[l + 1],
            &pass_com.chain_a[l + 1],
            &pass_st.activation_a_pos[i],
            &pass_com.activation_a_pos[i],
            q.sumcheck.r_full.as_slice(),
            round_up_even(lns + lni),
            sponge,
            rng,
        ) {
            Ok(x) => x,
            Err(e) => {
                return Err(e);
            },
        };
        let ghost s5 = state_of(*sponge);
        let (_d_pos_val, _d_neg_val, d_j_batched_open): (Fr, Fr, P::Proof) = match open_pair_at::<P>(
            &params.committer_key,
            pos_aux,
            pos_com,
            neg_aux,
            neg_com,
            r_j,
            round_up_even(lni),
            sponge,
            rng,
        ) {
            Ok(x) => x,
            Err(e) => {
                return Err(e);
            },
        };
        let ghost s6 = state_of(*sponge);
        let proof: ActivationMatrixStepProof<P> = ActivationMatrixStepProof {
            layer_idx: l,
            log_dims: (lns, lni),
            r_init: q.r_init,
            a_d_claim: q.claim,
            sumcheck: q.sumcheck,
            a_full_batched_open,
            d_j_batched_open,
            a_d_open,
            a_old_eval: a_old_val,
        };
        proof {
            if ready && params.keys_match() {
                let coms = matrix_coms_at(direction, *relax_com, *pass_com, l as int, i as int);
                lemma_matrix_accepts(
                    params.verifier_key,
                    proof,
                    direction,
                    coms,
                    t0,
                    s4,
                    s5,
                    s6,
                );
            }
        }
        Ok(proof)
    } else {
        Err(SnarkError::ActivationMatrixRejected { layer: l })
    }
}

/// Whether every activation step of a pass multiplies by its lines' slopes and
/// is committed.
pub open spec fn slope_trace_ready<P: MlPcs>(
    ck: P::CommitterKey,
    rels: Seq<Option<QuantRelaxation>>,
    d: BoundDir,
    trace: BackwardTrace,
    coms: TensorCommitments<P>,
    pass: PassCommitments<P>,
    states: ProverPolyStates<P>,
    pass_st: PassProverStates<P>,
) -> bool {
    forall|i: int|
        0 <= i < trace.activation_steps@.len() ==> slope_step_ready(
            ck,
            rels,
            d,
            #[trigger] trace.activation_steps@[i],
            i,
            coms,
            pass,
            states,
            pass_st,
        )
}

/// Prove the products of the activation layers of a pass.
pub fn build_activation_matrix_proofs<P: MlPcs>(
    trace: &BackwardTrace,
    direction: BoundDir,
    cert_relaxations: &Vec<Option<QuantRelaxation>>,
    pass_com: &PassCommitments<P>,
    pass_st: &PassProverStates<P>,
    commitments: &TensorCommitments<P>,
    prover_states: &ProverPolyStates<P>,
    params: &SnarkParams<P>,
    sponge: &mut Transcript,
    rng: &mut P::Randomness,
) -> (r: Result<Vec<ActivationMatrixStepProof<P>>, SnarkError>)
    requires
        forall|i: int|
            0 <= i < trace.activation_steps@.len() ==> slope_inputs_there(
                cert_relaxations@,
                direction,
                #[trigger] trace.activation_steps@[i],
                i,
                *commitments,
                *pass_com,
                *prover_states,
                *pass_st,
            ),
    ensures
        r matches Ok(proofs) ==> {
            &&& proofs@.len() == trace.activation_steps@.len()
            &&& forall|i: int|
                0 <= i < proofs@.len() ==> {
                    let m = trace.activation_steps@[i].a_old.codes;
                    &&& (#[trigger] proofs@[i]).layer_idx == trace.activation_steps@[i].layer_idx
                    &&& proofs@[i].log_dims.0 == ceil_log2(matrix_rows(m).len())
                    &&& proofs@[i].log_dims.1 == ceil_log2(matrix_width(m))
                }
        },
        slope_trace_ready(
            params.committer_key,
            cert_relaxations@,
            direction,
            *trace,
            *commitments,
            *pass_com,
            *prover_states,
            *pass_st,
        ) && params.keys_match() ==> {
            &&& r matches Ok(proofs)
            &&& chain_verdict(
                matrix_check(
                    params.verifier_key,
                    proofs@,
                    direction,
                    *commitments,
                    *pass_com,
                ),
                matrix_next(
                    params.verifier_key,
                    proofs@,
                    direction,
                    *commitments,
                    *pass_com,
                ),
                proofs@.len(),
                state_of(*old(sponge)),
            ) == Ok::<(), SnarkError>(())
            &&& state_of(*final(sponge)) == chain_state(
                matrix_next(
                    params.verifier_key,
                    proofs@,
                    direction,
                    *commitments,
                    *pass_com,
                ),
                proofs@.len(),
                state_of(*old(sponge)),
            )
        },
{
    let ghost t0 = state_of(*sponge);
    let ghost vk = params.verifier_key;
    let ghost ready = slope_trace_ready(
        params.committer_key,
        cert_relaxations@,
        direction,
        *trace,
        *commitments,
        *pass_com,
        *prover_states,
        *pass_st,
    ) && params.keys_match();
    let mut out: Vec<ActivationMatrixStepProof<P>> = Vec::with_capacity(
        trace.activation_steps.len(),
    );
    let mut i: usize = 0;
    while i < trace.activation_steps.len()
        invariant
            i <= trace.activation_steps@.len(),
            t0 == state_of(*old(sponge)),
            vk == params.verifier_key,
            ready == (slope_trace_ready(
                params.committer_key,
                cert_relaxations@,
                direction,
                *trace,
                *commitments,
                *pass_com,
                *prover_states,
                *pass_st,
            ) && params.keys_match()),
            forall|k: int|
                0 <= k < trace.activation_steps@.len() ==> slope_inputs_there(
                    cert_relaxations@,
                    direction,
                    #[trigger] trace.activation_steps@[k],
                    k,
                    *commitments,
                    *pass_com,
                    *prover_states,
                    *pass_st,
                ),
            out@.len() == i,
            forall|k: int|
                0 <= k < i ==> {
                    let m = trace.activation_steps@[k].a_old.codes;
                    &&& (#[trigger] out@[k]).layer_idx == trace.activation_steps@[k].layer_idx
                    &&& out@[k].log_dims.0 == ceil_log2(matrix_rows(m).len())
                    &&& out@[k].log_dims.1 == ceil_log2(matrix_width(m))
                },
            ready ==> {
                &&& chain_verdict(
                    matrix_check(vk, out@, direction, *commitments, *pass_com),
                    matrix_next(vk, out@, direction, *commitments, *pass_com),
                    i as nat,
                    t0,
                ) == Ok::<(), SnarkError>(())
                &&& state_of(*sponge) == chain_state(
                    matrix_next(vk, out@, direction, *commitments, *pass_com),
                    i as nat,
                    t0,
                )
            },
        decreases trace.activation_steps@.len() - i,
    {
        let ghost before = out@;
        let ghost t1 = state_of(*sponge);
        assert(slope_inputs_there(
            cert_relaxations@,
            direction,
            trace.activation_steps@[i as int],
            i as int,
            *commitments,
            *pass_com,
            *prover_states,
            *pass_st,
        ));
        match build_one_activation_matrix_step::<P>(
            &trace.activation_steps[i],
            i,
            direction,
            cert_relaxations,
            pass_com,
            pass_st,
            commitments,
            prover_states,
            params,
            sponge,
            rng,
        ) {
            Ok(s) => {
                out.push(s);
                proof {
                    let (c1, n1) = (
                        matrix_check(vk, before, direction, *commitments, *pass_com),
                        matrix_next(vk, before, direction, *commitments, *pass_com),
                    );
                    let (c2, n2) = (
                        matrix_check(vk, out@, direction, *commitments, *pass_com),
                        matrix_next(vk, out@, direction, *commitments, *pass_com),
                    );
                    assert forall|k: int, t: Seq<u8>| 0 <= k < i implies #[trigger] c1(k, t)
                        == c2(k, t) by {
                        assert(before[k] == out@[k]);
                    }
                    assert forall|k: int, t: Seq<u8>| 0 <= k < i implies #[trigger] n1(k, t)
                        == n2(k, t) by {
                        assert(before[k] == out@[k]);
                    }
                    lemma_chain_prefix(c1, n1, c2, n2, i as nat, t0);
                    assert(ready ==> c2(i as int, t1) is Ok);
                }
            },
            Err(e) => {
                return Err(e);
            },
        }
        i += 1;
    }
    Ok(out)
}

} // verus!
