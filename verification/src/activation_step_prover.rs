//! The prover of the bias that an activation layer adds.

use crate::activation_step::{
    ActivationComs, ActivationLayerStepProof, activation_check, activation_coms_at,
    activation_next, activation_openings_verdict, activation_rounds_verdict, activation_state,
    activation_step_state, activation_step_verdict, as_t1, as_t2, as_t3, by_sign, direction_code,
    for_negative, for_positive, matrix_nv,
};
use crate::cert::QuantRelaxation;
use crate::chain::{chain_state, chain_verdict, lemma_chain_prefix};
use crate::columns::{even_vars, lifted_codes, round_up_even};
use crate::commit::{
    PassCommitments, PassProverStates, ProverPolyStates, TensorCommitments, matrix_committed,
    vector_committed,
};
use crate::eq_two_product::{
    EqTwoProductProof, eq2_state, eq2_verdict, is_pow2, prove_eq_two_product_sumcheck,
};
use crate::errors::SnarkError;
use crate::field::{
    Fr, all_in_field, fsub, in_field, lemma_view_in_field, residue, signed_lift_to_fr, vals,
};
use crate::matrix_laws::{law_eq2_is_row_sum, law_mle_stretched};
use crate::mle::{
    build_eq_table_tiled, ceil_log2, eq_points, eq_table, eval_multilinear_full, lemma_ceil_log2,
    lemma_pow2_split, mle, next_pow2_log, pow2_usize, tile_j_along_i, tiled,
};
use crate::mle_laws::{law_mle_of_eq_table, lemma_eq_weight_in_field};
use crate::openings::{
    committed_front, lemma_matrix_is_front, lemma_vector_is_front, open_front, open_pair_at,
    padded_vector, pair_accepted,
};
use crate::params::SnarkParams;
use crate::pcs::{CommittedAux, MlPcs, lemma_pow2_injective, open_accepted, open_state};
use crate::picked::{
    is_picked_sum, law_mle_diff, law_padded_picked_sum, law_picked_rows, lemma_line_values,
    picked_rows, picked_sum, picks_fit, subtract_tables, table_diff,
};
use crate::qarray::{
    CodeMatrix, QArray1, QArray2, lemma_matrix_fits, lemma_matrix_table_is_cells, matrix_fits,
    matrix_rows, matrix_width, mle_table_from_matrix, mle_table_from_vector, padded_cells,
    vector_codes,
};
use crate::ring::{group_in_field, group_residue, lemma_residue_id};
use crate::trace::{ActivationStepTrace, BackwardTrace, BoundDir};
use crate::transcript::{abs_fr, absorb_fr, absorb_u64, after_squeeze, squeeze, squeezed, state_of};
use ark_crypto_primitives::sponge::merlin::Transcript;
use vstd::arithmetic::power2::pow2;
use vstd::prelude::*;

verus! {

/// Whether the tensors of an activation step have tables of one size, with a
/// line's entry to each neuron.
pub open spec fn picks_shaped(
    a_old: CodeMatrix,
    a_pos: CodeMatrix,
    pos: Seq<i128>,
    neg: Seq<i128>,
) -> bool {
    &&& matrix_fits(a_old)
    &&& matrix_fits(a_pos)
    &&& matrix_rows(a_pos).len() >= matrix_rows(a_old).len()
    &&& matrix_width(a_pos) >= matrix_width(a_old)
    &&& ceil_log2(matrix_rows(a_pos).len()) == ceil_log2(matrix_rows(a_old).len())
    &&& ceil_log2(matrix_width(a_pos)) == ceil_log2(matrix_width(a_old))
    &&& matrix_width(a_old) <= pos.len() <= usize::MAX / 2 + 1
    &&& matrix_width(a_old) <= neg.len() <= usize::MAX / 2 + 1
    &&& ceil_log2(pos.len()) == ceil_log2(matrix_width(a_old))
    &&& ceil_log2(neg.len()) == ceil_log2(matrix_width(a_old))
}

/// The contributions of the lines by row.
fn picked_row_table(
    a_old: &CodeMatrix,
    a_pos: &CodeMatrix,
    pos: &[i128],
    neg: &[i128],
    len: usize,
) -> (r: Vec<Fr>)
    requires
        picks_shaped(*a_old, *a_pos, pos@, neg@),
        len == pow2(ceil_log2(matrix_rows(*a_old).len())),
    ensures
        vals(r@) == picked_rows(*a_old, *a_pos, pos@, neg@),
        r@.len() == len,
{
    let n_spec: usize = a_old.nrows();
    let n_neur: usize = a_old.ncols();
    let zero: Fr = Fr::from_u64(0);
    let mut out: Vec<Fr> = Vec::with_capacity(len);
    let mut i: usize = 0;
    proof {
        lemma_residue_id(0);
    }
    while i < len
        invariant
            i <= len,
            picks_shaped(*a_old, *a_pos, pos@, neg@),
            n_spec == matrix_rows(*a_old).len(),
            n_neur == matrix_width(*a_old),
            len == pow2(ceil_log2(matrix_rows(*a_old).len())),
            zero@ == 0,
            residue(0) == 0,
            out@.len() == i,
            forall|k: int|
                0 <= k < i ==> (#[trigger] out@[k])@ == picked_rows(*a_old, *a_pos, pos@, neg@)[k],
        decreases len - i,
    {
        if i < n_spec {
            let mut acc: Fr = zero;
            let mut j: usize = 0;
            while j < n_neur
                invariant
                    j <= n_neur,
                    i < n_spec,
                    picks_shaped(*a_old, *a_pos, pos@, neg@),
                    n_spec == matrix_rows(*a_old).len(),
                    n_neur == matrix_width(*a_old),
                    acc@ == residue(picked_sum(*a_old, *a_pos, pos@, neg@, i as int, j as nat)),
                decreases n_neur - j,
            {
                let a_ij: Fr = signed_lift_to_fr(a_old.get(i, j));
                let p_ij: Fr = signed_lift_to_fr(a_pos.get(i, j));
                let pos_l: Fr = signed_lift_to_fr(pos[j]);
                let neg_l: Fr = signed_lift_to_fr(neg[j]);
                let n_ij: Fr = a_ij.sub(p_ij);
                proof {
                    broadcast use group_residue;

                }
                acc = acc.add(p_ij.mul(pos_l).add(n_ij.mul(neg_l)));
                j += 1;
            }
            out.push(acc);
        } else {
            out.push(zero);
        }
        i += 1;
    }
    assert(vals(out@) =~= picked_rows(*a_old, *a_pos, pos@, neg@));
    out
}

/// What the rounds of a step give.
struct ActivationRounds {
    r_spec: Vec<Fr>,
    delta: Fr,
    sumcheck: EqTwoProductProof,
}

/// What holds of the columns' values that end a step's rounds.
pub open spec fn split_values(
    sumcheck: EqTwoProductProof,
    a_old: CodeMatrix,
    a_pos: CodeMatrix,
    pos: Seq<i128>,
    neg: Seq<i128>,
    dims: (usize, usize),
) -> bool {
    let r = vals(sumcheck.r_full@);
    &&& r.len() == dims.0 + dims.1
    &&& sumcheck.p1_eval@ == mle(lifted_codes(padded_cells(a_pos)), r)
    &&& sumcheck.p2_eval@ == fsub(
        mle(lifted_codes(padded_cells(a_old)), r),
        sumcheck.p1_eval@,
    )
    &&& sumcheck.q1_eval@ == mle(padded_vector(pos), r.skip(dims.0 as int))
    &&& sumcheck.q2_eval@ == mle(padded_vector(neg), r.skip(dims.0 as int))
}

/// The values at a point of a step's columns.
pub proof fn lemma_split_values(
    a_old: CodeMatrix,
    a_pos: CodeMatrix,
    pos: Seq<i128>,
    neg: Seq<i128>,
    lns: nat,
    lni: nat,
    r: Seq<int>,
)
    requires
        picks_shaped(a_old, a_pos, pos, neg),
        lns == ceil_log2(matrix_rows(a_old).len()),
        lni == ceil_log2(matrix_width(a_old)),
        r.len() == lns + lni,
        all_in_field(r),
    ensures
        mle(
            table_diff(lifted_codes(padded_cells(a_old)), lifted_codes(padded_cells(a_pos))),
            r,
        ) == fsub(
            mle(lifted_codes(padded_cells(a_old)), r),
            mle(lifted_codes(padded_cells(a_pos)), r),
        ),
        mle(tiled(padded_vector(pos), pow2(lns)), r) == mle(
            padded_vector(pos),
            r.skip(lns as int),
        ),
        mle(tiled(padded_vector(neg), pow2(lns)), r) == mle(
            padded_vector(neg),
            r.skip(lns as int),
        ),
{
    broadcast use group_in_field;

    lemma_pow2_split(lns, lni);
    lemma_ceil_log2(pos.len());
    lemma_ceil_log2(neg.len());
    assert(all_in_field(padded_vector(pos)));
    assert(all_in_field(padded_vector(neg)));
    law_mle_diff(lifted_codes(padded_cells(a_old)), lifted_codes(padded_cells(a_pos)), r);
    lemma_line_values(padded_vector(pos), r, lns, lni);
    lemma_line_values(padded_vector(neg), r, lns, lni);
}

/// What holds of a step's rounds.
spec fn activation_rounds_made(
    q: ActivationRounds,
    a_old: CodeMatrix,
    a_pos: CodeMatrix,
    pos: Seq<i128>,
    neg: Seq<i128>,
    dims: (usize, usize),
    t1: Seq<u8>,
) -> bool {
    let t2 = abs_fr(after_squeeze(t1, dims.0 as int), q.delta@);
    &&& q.r_spec@.len() == dims.0
    &&& vals(q.r_spec@) == squeezed(t1, dims.0 as int)
    &&& q.delta@ == mle(picked_rows(a_old, a_pos, pos, neg), vals(q.r_spec@))
    &&& split_values(q.sumcheck, a_old, a_pos, pos, neg, dims)
    &&& q.sumcheck.eq_eval@ == eq_points(
        vals(q.r_spec@),
        vals(q.sumcheck.r_full@).take(dims.0 as int),
    )
    &&& picks_fit(a_old, a_pos, pos, neg) ==> eq2_verdict(
        q.sumcheck,
        (dims.0 + dims.1) as nat,
        q.delta@,
        t2,
    ) == Ok::<(), SnarkError>(())
}

/// Draw the challenges, make the claim and run the rounds.
fn activation_rounds(
    a_old: &QArray2,
    a_pos: &QArray2,
    pos: &QArray1,
    neg: &QArray1,
    dims: (usize, usize),
    sponge: &mut Transcript,
) -> (r: Result<ActivationRounds, SnarkError>)
    requires
        picks_shaped(
            a_old.codes,
            a_pos.codes,
            vector_codes(pos.codes),
            vector_codes(neg.codes),
        ),
        dims.0 == ceil_log2(matrix_rows(a_old.codes).len()),
        dims.1 == ceil_log2(matrix_width(a_old.codes)),
        dims.0 < 64,
        dims.1 < 64,
    ensures
        r matches Ok(q) && {
            let t1 = state_of(*old(sponge));
            &&& activation_rounds_made(
                q,
                a_old.codes,
                a_pos.codes,
                vector_codes(pos.codes),
                vector_codes(neg.codes),
                dims,
                t1,
            )
            &&& state_of(*final(sponge)) == eq2_state(
                q.sumcheck,
                abs_fr(after_squeeze(t1, dims.0 as int), q.delta@),
            )
        },
{
    let (lns, lni): (usize, usize) = dims;
    let ghost (pc, nc) = (vector_codes(pos.codes), vector_codes(neg.codes));
    let (a_old_evals, _): (Vec<Fr>, (usize, usize)) = mle_table_from_matrix(a_old);
    let (a_pos_evals, _): (Vec<Fr>, (usize, usize)) = mle_table_from_matrix(a_pos);
    let pos_evals: Vec<Fr> = mle_table_from_vector(pos);
    let neg_evals: Vec<Fr> = mle_table_from_vector(neg);
    proof {
        lemma_matrix_table_is_cells(a_old.codes);
        lemma_matrix_table_is_cells(a_pos.codes);
        lemma_matrix_fits(a_old.codes);
        lemma_pow2_split(lns as nat, lni as nat);
        lemma_ceil_log2(pc.len());
        lemma_ceil_log2(nc.len());
        assert(vals(a_old_evals@).len() == a_old_evals@.len());
        assert(vals(a_pos_evals@).len() == a_pos_evals@.len());
        assert(vals(pos_evals@).len() == pos_evals@.len());
        assert(vals(neg_evals@).len() == neg_evals@.len());
    }
    let r_spec: Vec<Fr> = squeeze(sponge, lns);
    let eq_tab: Vec<Fr> = build_eq_table_tiled(r_spec.as_slice(), lns, lni);
    let a_neg_evals: Vec<Fr> = subtract_tables(a_old_evals.as_slice(), a_pos_evals.as_slice());
    let pos_full: Vec<Fr> = tile_j_along_i(pos_evals.as_slice(), lns, lni);
    let neg_full: Vec<Fr> = tile_j_along_i(neg_evals.as_slice(), lns, lni);
    let pos_codes: Vec<i128> = pos.codes.to_vec();
    let neg_codes: Vec<i128> = neg.codes.to_vec();
    let delta_tab: Vec<Fr> = picked_row_table(
        &a_old.codes,
        &a_pos.codes,
        pos_codes.as_slice(),
        neg_codes.as_slice(),
        pow2_usize(lns),
    );
    let delta: Fr = eval_multilinear_full(delta_tab.as_slice(), r_spec.as_slice());
    absorb_fr(sponge, delta);
    proof {
        assert(vals(eq_tab@).len() == eq_tab@.len());
        assert(vals(pos_full@).len() == pos_full@.len());
        assert(vals(neg_full@).len() == neg_full@.len());
        assert(is_pow2(eq_tab@.len()));
        if picks_fit(a_old.codes, a_pos.codes, pc, nc) {
            broadcast use lemma_view_in_field;

            law_picked_rows(a_old.codes, a_pos.codes, pc, nc);
            law_eq2_is_row_sum(
                vals(r_spec@),
                pow2(lni as nat),
                vals(a_pos_evals@),
                vals(pos_full@),
                vals(a_neg_evals@),
                vals(neg_full@),
            );
        }
    }
    let sumcheck: EqTwoProductProof = match prove_eq_two_product_sumcheck(
        eq_tab.as_slice(),
        a_pos_evals.as_slice(),
        pos_full.as_slice(),
        a_neg_evals.as_slice(),
        neg_full.as_slice(),
        delta,
        sponge,
    ) {
        Ok(x) => x,
        Err(e) => {
            return Err(e);
        },
    };
    proof {
        broadcast use lemma_view_in_field;

        let r = vals(sumcheck.r_full@);
        lemma_pow2_injective(sumcheck.rounds@.len(), (lns + lni) as nat);
        lemma_split_values(a_old.codes, a_pos.codes, pc, nc, lns as nat, lni as nat, r);
        let (ri, rj) = (r.take(lns as int), r.skip(lns as int));
        assert(ri + rj =~= r);
        let e = eq_table(vals(r_spec@));
        assert forall|i: int| 0 <= i < e.len() implies in_field(#[trigger] e[i]) by {
            lemma_eq_weight_in_field(vals(r_spec@), i);
        }
        law_mle_stretched(e, ri, rj);
        law_mle_of_eq_table(vals(r_spec@), ri);
    }
    Ok(ActivationRounds { r_spec, delta, sumcheck })
}

/// What the prover of step `i` reads is there.
pub open spec fn activation_inputs_there<P: MlPcs>(
    rels: Seq<Option<QuantRelaxation>>,
    d: BoundDir,
    step: ActivationStepTrace,
    i: int,
    coms: TensorCommitments<P>,
    pass: PassCommitments<P>,
    states: ProverPolyStates<P>,
    pass_st: PassProverStates<P>,
) -> bool {
    let l = step.layer_idx as int;
    &&& l < rels.len() && rels[l] is Some
    &&& l < coms.relaxation@.len() && coms.relaxation@[l] is Some
    &&& l < states.relaxation@.len() && states.relaxation@[l] is Some
    &&& l + 1 < pass.chain_a@.len() && l + 1 < pass_st.chain_a@.len()
    &&& i < pass.activation_a_pos@.len() && i < pass_st.activation_a_pos@.len()
}

/// The offsets that positive coefficients take.
pub open spec fn pos_offsets(d: BoundDir, rel: QuantRelaxation) -> Seq<i128> {
    vector_codes(for_positive(d, rel.b_lower, rel.b_upper).codes)
}

/// The offsets that negative coefficients take.
pub open spec fn neg_offsets(d: BoundDir, rel: QuantRelaxation) -> Seq<i128> {
    vector_codes(for_negative(d, rel.b_lower, rel.b_upper).codes)
}

/// What the prover of the bias of step `i` reads is there and fits.
pub open spec fn bias_inputs_there<P: MlPcs>(
    rels: Seq<Option<QuantRelaxation>>,
    d: BoundDir,
    step: ActivationStepTrace,
    i: int,
    coms: TensorCommitments<P>,
    pass: PassCommitments<P>,
    states: ProverPolyStates<P>,
    pass_st: PassProverStates<P>,
) -> bool {
    let rel = rels[step.layer_idx as int]->0;
    &&& activation_inputs_there(rels, d, step, i, coms, pass, states, pass_st)
    &&& i < pass.activation_bias_doubled@.len() && i < pass_st.activation_bias_doubled@.len()
    &&& picks_shaped(
        step.a_old.codes,
        step.a_pos.codes,
        pos_offsets(d, rel),
        neg_offsets(d, rel),
    )
}

/// Whether what the prover kept of step `i` is of the step's tensors, and the
/// bias is the one that the lines add.
pub open spec fn bias_step_ready<P: MlPcs>(
    ck: P::CommitterKey,
    rels: Seq<Option<QuantRelaxation>>,
    d: BoundDir,
    step: ActivationStepTrace,
    i: int,
    coms: TensorCommitments<P>,
    pass: PassCommitments<P>,
    states: ProverPolyStates<P>,
    pass_st: PassProverStates<P>,
) -> bool {
    let l = step.layer_idx as int;
    let rel = rels[l]->0;
    let (rc, rs) = (coms.relaxation@[l]->0, states.relaxation@[l]->0);
    &&& is_picked_sum(
        step.a_old.codes,
        step.a_pos.codes,
        pos_offsets(d, rel),
        neg_offsets(d, rel),
        vector_codes(step.bias_delta_doubled.codes),
    )
    &&& matrix_committed(ck, step.a_old.codes, pass.chain_a@[l + 1], pass_st.chain_a@[l + 1])
    &&& matrix_committed(
        ck,
        step.a_pos.codes,
        pass.activation_a_pos@[i],
        pass_st.activation_a_pos@[i],
    )
    &&& vector_committed(ck, vector_codes(rel.b_lower.codes), rc.b_lower, rs.b_lower)
    &&& vector_committed(ck, vector_codes(rel.b_upper.codes), rc.b_upper, rs.b_upper)
    &&& vector_committed(
        ck,
        vector_codes(step.bias_delta_doubled.codes),
        pass.activation_bias_doubled@[i],
        pass_st.activation_bias_doubled@[i],
    )
}

/// What a step's proof says of the step's tensors.
pub open spec fn activation_made<P: MlPcs>(
    proof: ActivationLayerStepProof<P>,
    rels: Seq<Option<QuantRelaxation>>,
    d: BoundDir,
    step: ActivationStepTrace,
    t0: Seq<u8>,
) -> bool {
    let rel = rels[step.layer_idx as int]->0;
    let (p, n) = (pos_offsets(d, rel), neg_offsets(d, rel));
    let dims = proof.a_old_log_dims;
    &&& proof.layer_idx == step.layer_idx
    &&& dims.0 == ceil_log2(matrix_rows(step.a_old.codes).len())
    &&& dims.1 == ceil_log2(matrix_width(step.a_old.codes))
    &&& vals(proof.r_spec@) == squeezed(as_t1(step.layer_idx, d, dims, t0), dims.0 as int)
    &&& proof.delta_b_claim@ == mle(
        picked_rows(step.a_old.codes, step.a_pos.codes, p, n),
        vals(proof.r_spec@),
    )
    &&& split_values(proof.sumcheck, step.a_old.codes, step.a_pos.codes, p, n, dims)
}

/// An honest step's proof is accepted.
proof fn lemma_activation_accepts<P: MlPcs>(
    vk: P::VerifierKey,
    proof: ActivationLayerStepProof<P>,
    d: BoundDir,
    coms: ActivationComs<P>,
    t0: Seq<u8>,
    s4: Seq<u8>,
    s5: Seq<u8>,
    s6: Seq<u8>,
)
    requires
        squeezed(
            as_t1(proof.layer_idx, d, proof.a_old_log_dims, t0),
            proof.a_old_log_dims.0 as int,
        ) == vals(proof.r_spec@),
        eq2_verdict(
            proof.sumcheck,
            (proof.a_old_log_dims.0 + proof.a_old_log_dims.1) as nat,
            proof.delta_b_claim@,
            as_t2(proof, d, t0),
        ) == Ok::<(), SnarkError>(()),
        proof.sumcheck.eq_eval@ == eq_points(
            vals(proof.r_spec@),
            vals(proof.sumcheck.r_full@).take(proof.a_old_log_dims.0 as int),
        ),
        pair_accepted::<P>(
            vk,
            coms.a_old,
            coms.a_pos,
            proof.a_old_eval@,
            proof.sumcheck.p1_eval@,
            vals(proof.sumcheck.r_full@),
            proof.a_full_batched_open,
            matrix_nv(proof.a_old_log_dims),
            as_t3(proof, d, t0),
            s4,
        ),
        pair_accepted::<P>(
            vk,
            coms.pos,
            coms.neg,
            proof.sumcheck.q1_eval@,
            proof.sumcheck.q2_eval@,
            vals(proof.sumcheck.r_full@).skip(proof.a_old_log_dims.0 as int),
            proof.b_j_batched_open,
            even_vars(proof.a_old_log_dims.1 as nat),
            s4,
            s5,
        ),
        open_accepted::<P>(
            vk,
            coms.made,
            vals(proof.r_spec@),
            proof.delta_b_claim@,
            proof.bias_doubled_open,
            even_vars(proof.a_old_log_dims.0 as nat),
            s5,
        ),
        s6 == open_state::<P>(
            vk,
            coms.made,
            vals(proof.r_spec@),
            proof.delta_b_claim@,
            proof.bias_doubled_open,
            even_vars(proof.a_old_log_dims.0 as nat),
            s5,
        ),
        proof.sumcheck.p2_eval@ == fsub(proof.a_old_eval@, proof.sumcheck.p1_eval@),
    ensures
        activation_rounds_verdict(proof, d, t0) == Ok::<(), SnarkError>(()),
        activation_openings_verdict(vk, proof, d, coms, t0) == Ok::<(), SnarkError>(()),
        activation_state(vk, proof, d, coms, t0) == s6,
{
    reveal(activation_rounds_verdict);
    reveal(activation_openings_verdict);
    reveal(activation_state);
}

/// Prove the bias of one activation layer.
fn build_one_activation_step<P: MlPcs>(
    step: &ActivationStepTrace,
    i: usize,
    direction: BoundDir,
    cert_relaxations: &Vec<Option<QuantRelaxation>>,
    pass_com: &PassCommitments<P>,
    pass_st: &PassProverStates<P>,
    commitments: &TensorCommitments<P>,
    prover_states: &ProverPolyStates<P>,
    params: &SnarkParams<P>,
    sponge: &mut Transcript,
    rng: &mut P::Randomness,
) -> (r: Result<ActivationLayerStepProof<P>, SnarkError>)
    requires
        bias_inputs_there(
            cert_relaxations@,
            direction,
            *step,
            i as int,
            *commitments,
            *pass_com,
            *prover_states,
            *pass_st,
        ),
    ensures
        r matches Ok(proof) ==> activation_made(
            proof,
            cert_relaxations@,
            direction,
            *step,
            state_of(*old(sponge)),
        ),
        bias_step_ready(
            params.committer_key,
            cert_relaxations@,
            direction,
            *step,
            i as int,
            *commitments,
            *pass_com,
            *prover_states,
            *pass_st,
        ) ==> {
            &&& r matches Ok(proof)
            &&& params.keys_match() ==> {
                &&& activation_step_verdict(
                    params.verifier_key,
                    proof,
                    direction,
                    *commitments,
                    *pass_com,
                    i as int,
                    state_of(*old(sponge)),
                ) == Ok::<(), SnarkError>(())
                &&& state_of(*final(sponge)) == activation_step_state(
                    params.verifier_key,
                    proof,
                    direction,
                    *commitments,
                    *pass_com,
                    i as int,
                    state_of(*old(sponge)),
                )
            }
        },
{
    let ghost t0 = state_of(*sponge);
    let l: usize = step.layer_idx;
    if let (Some(relax), Some(relax_com), Some(relax_st)) = (
        &cert_relaxations[l],
        &commitments.relaxation[l],
        &prover_states.relaxation[l],
    ) {
        let (pos, neg): (&QArray1, &QArray1) = by_sign(direction, &relax.b_lower, &relax.b_upper);
        let (pos_com, neg_com): (&P::Commitment, &P::Commitment) = by_sign(
            direction,
            &relax_com.b_lower,
            &relax_com.b_upper,
        );
        let (pos_aux, neg_aux): (&CommittedAux<P>, &CommittedAux<P>) = by_sign(
            direction,
            &relax_st.b_lower,
            &relax_st.b_upper,
        );
        let lns: usize = next_pow2_log(step.a_old.codes.nrows());
        let lni: usize = next_pow2_log(step.a_old.codes.ncols());
        absorb_u64(sponge, l as u64);
        absorb_u64(sponge, direction_code(direction));
        absorb_u64(sponge, lns as u64);
        absorb_u64(sponge, lni as u64);
        let q: ActivationRounds = match activation_rounds(
            &step.a_old,
            &step.a_pos,
            pos,
            neg,
            (lns, lni),
            sponge,
        ) {
            Ok(q) => q,
            Err(e) => {
                return Err(e);
            },
        };
        assert(l + 1 < pass_com.chain_a.len());
        let n_full: usize = q.sumcheck.r_full.len();
        assert(vals(q.sumcheck.r_full@).len() == n_full);
        let r_j: &[Fr] = vstd::slice::slice_subrange(q.sumcheck.r_full.as_slice(), lns, n_full);
        assert(vals(r_j@) =~= vals(q.sumcheck.r_full@).skip(lns as int));
        let ghost ready = bias_step_ready(
            params.committer_key,
            cert_relaxations@,
            direction,
            *step,
            i as int,
            *commitments,
            *pass_com,
            *prover_states,
            *pass_st,
        );
        let ghost ck = params.committer_key;
        let ghost (ta, tp) = (
            lifted_codes(padded_cells(step.a_old.codes)),
            lifted_codes(padded_cells(step.a_pos.codes)),
        );
        let ghost (vp, vn) = (
            padded_vector(vector_codes(pos.codes)),
            padded_vector(vector_codes(neg.codes)),
        );
        let ghost vb = padded_vector(vector_codes(step.bias_delta_doubled.codes));
        proof {
            if ready {
                lemma_matrix_is_front(step.a_old.codes);
                lemma_matrix_is_front(step.a_pos.codes);
                lemma_vector_is_front(vector_codes(pos.codes));
                lemma_vector_is_front(vector_codes(neg.codes));
                lemma_vector_is_front(vector_codes(step.bias_delta_doubled.codes));
                law_padded_picked_sum(
                    step.a_old.codes,
                    step.a_pos.codes,
                    vector_codes(pos.codes),
                    vector_codes(neg.codes),
                    vector_codes(step.bias_delta_doubled.codes),
                );
                assert(committed_front(
                    ck,
                    pass_com.chain_a@[l + 1],
                    pass_st.chain_a@[l + 1],
                    ta,
                    (lns + lni) as nat,
                ));
                assert(committed_front(
                    ck,
                    pass_com.activation_a_pos@[i as int],
                    pass_st.activation_a_pos@[i as int],
                    tp,
                    (lns + lni) as nat,
                ));
                assert(committed_front(ck, *pos_com, *pos_aux, vp, lni as nat));
                assert(committed_front(ck, *neg_com, *neg_aux, vn, lni as nat));
                assert(committed_front(
                    ck,
                    pass_com.activation_bias_doubled@[i as int],
                    pass_st.activation_bias_doubled@[i as int],
                    vb,
                    lns as nat,
                ));
            }
        }
        let (a_old_val, _a_pos_val, a_full_batched_open): (Fr, Fr, P::Proof) = match open_pair_at::<
            P,
        >(
            &params.committer_key,
            &pass_st.chain_a[l + 1],
            &pass_com.chain_a[l + 1],
            &pass_st.activation_a_pos[i],
            &pass_com.activation_a_pos[i],
            q.sumcheck.r_full.as_slice(),
            round_up_even(lns + lni),
            sponge,
            rng,
        ) {
            Ok(x) => x,
            Err(e) => {
                return Err(e);
            },
        };
        let ghost s4 = state_of(*sponge);
        let (_b_pos_val, _b_neg_val, b_j_batched_open): (Fr, Fr, P::Proof) = match open_pair_at::<P>(
            &params.committer_key,
            pos_aux,
            pos_com,
            neg_aux,
            neg_com,
            r_j,
            round_up_even(lni),
            sponge,
            rng,
        ) {
            Ok(x) => x,
            Err(e) => {
                return Err(e);
            },
        };
        let ghost s5 = state_of(*sponge);
        let (_bias_val, bias_doubled_open): (Fr, P::Proof) = match open_front::<P>(
            &params.committer_key,
            &pass_st.activation_bias_doubled[i],
            &pass_com.activation_bias_doubled[i],
            q.r_spec.as_slice(),
            sponge,
            rng,
        ) {
            Ok(x) => x,
            Err(e) => {
                return Err(e);
            },
        };
        let ghost s6 = state_of(*sponge);
        let proof: ActivationLayerStepProof<P> = ActivationLayerStepProof {
            layer_idx: l,
            a_old_log_dims: (lns, lni),
            r_spec: q.r_spec,
            delta_b_claim: q.delta,
            sumcheck: q.sumcheck,
            a_full_batched_open,
            b_j_batched_open,
            bias_doubled_open,
            a_old_eval: a_old_val,
        };
        proof {
            if ready && params.keys_match() {
                let coms = activation_coms_at(direction, *relax_com, *pass_com, l as int, i as int);
                lemma_activation_accepts(
                    params.verifier_key,
                    proof,
                    direction,
                    coms,
                    t0,
                    s4,
                    s5,
                    s6,
                );
            }
        }
        Ok(proof)
    } else {
        Err(SnarkError::ActivationLayerRejected { layer: l })
    }
}

/// Whether every activation step of a pass adds its lines' bias and is
/// committed.
pub open spec fn bias_trace_ready<P: MlPcs>(
    ck: P::CommitterKey,
    rels: Seq<Option<QuantRelaxation>>,
    d: BoundDir,
    trace: BackwardTrace,
    coms: TensorCommitments<P>,
    pass: PassCommitments<P>,
    states: ProverPolyStates<P>,
    pass_st: PassProverStates<P>,
) -> bool {
    forall|i: int|
        0 <= i < trace.activation_steps@.len() ==> bias_step_ready(
            ck,
            rels,
            d,
            #[trigger] trace.activation_steps@[i],
            i,
            coms,
            pass,
            states,
            pass_st,
        )
}

/// Prove the biases of the activation layers of a pass.
pub fn build_activation_backward_proofs<P: MlPcs>(
    trace: &BackwardTrace,
    direction: BoundDir,
    cert_relaxations: &Vec<Option<QuantRelaxation>>,
    pass_com: &PassCommitments<P>,
    pass_st: &PassProverStates<P>,
    commitments: &TensorCommitments<P>,
    prover_states: &ProverPolyStates<P>,
    params: &SnarkParams<P>,
    sponge: &mut Transcript,
    rng: &mut P::Randomness,
) -> (r: Result<Vec<ActivationLayerStepProof<P>>, SnarkError>)
    requires
        forall|i: int|
            0 <= i < trace.activation_steps@.len() ==> bias_inputs_there(
                cert_relaxations@,
                direction,
                #[trigger] trace.activation_steps@[i],
                i,
                *commitments,
                *pass_com,
                *prover_states,
                *pass_st,
            ),
    ensures
        r matches Ok(proofs) ==> {
            &&& proofs@.len() == trace.activation_steps@.len()
            &&& forall|i: int|
                0 <= i < proofs@.len() ==> {
                    let m = trace.activation_steps@[i].a_old.codes;
                    &&& (#[trigger] proofs@[i]).layer_idx == trace.activation_steps@[i].layer_idx
                    &&& proofs@[i].a_old_log_dims.0 == ceil_log2(matrix_rows(m).len())
                    &&& proofs@[i].a_old_log_dims.1 == ceil_log2(matrix_width(m))
                }
        },
        bias_trace_ready(
            params.committer_key,
            cert_relaxations@,
            direction,
            *trace,
            *commitments,
            *pass_com,
            *prover_states,
            *pass_st,
        ) && params.keys_match() ==> {
            &&& r matches Ok(proofs)
            &&& chain_verdict(
                activation_check(
                    params.verifier_key,
                    proofs@,
                    direction,
                    *commitments,
                    *pass_com,
                ),
                activation_next(
                    params.verifier_key,
                    proofs@,
                    direction,
                    *commitments,
                    *pass_com,
                ),
                proofs@.len(),
                state_of(*old(sponge)),
            ) == Ok::<(), SnarkError>(())
            &&& state_of(*final(sponge)) == chain_state(
                activation_next(
                    params.verifier_key,
                    proofs@,
                    direction,
                    *commitments,
                    *pass_com,
                ),
                proofs@.len(),
                state_of(*old(sponge)),
            )
        },
{
    let ghost t0 = state_of(*sponge);
    let ghost vk = params.verifier_key;
    let ghost ready = bias_trace_ready(
        params.committer_key,
        cert_relaxations@,
        direction,
        *trace,
        *commitments,
        *pass_com,
        *prover_states,
        *pass_st,
    ) && params.keys_match();
    let mut out: Vec<ActivationLayerStepProof<P>> = Vec::with_capacity(
        trace.activation_steps.len(),
    );
    let mut i: usize = 0;
    while i < trace.activation_steps.len()
        invariant
            i <= trace.activation_steps@.len(),
            t0 == state_of(*old(sponge)),
            vk == params.verifier_key,
            ready == (bias_trace_ready(
                params.committer_key,
                cert_relaxations@,
                direction,
                *trace,
                *commitments,
                *pass_com,
                *prover_states,
                *pass_st,
            ) && params.keys_match()),
            forall|k: int|
                0 <= k < trace.activation_steps@.len() ==> bias_inputs_there(
                    cert_relaxations@,
                    direction,
                    #[trigger] trace.activation_steps@[k],
                    k,
                    *commitments,
                    *pass_com,
                    *prover_states,
                    *pass_st,
                ),
            out@.len() == i,
            forall|k: int|
                0 <= k < i ==> {
                    let m = trace.activation_steps@[k].a_old.codes;
                    &&& (#[trigger] out@[k]).layer_idx == trace.activation_steps@[k].layer_idx
                    &&& out@[k].a_old_log_dims.0 == ceil_log2(matrix_rows(m).len())
                    &&& out@[k].a_old_log_dims.1 == ceil_log2(matrix_width(m))
                },
            ready ==> {
                &&& chain_verdict(
                    activation_check(vk, out@, direction, *commitments, *pass_com),
                    activation_next(vk, out@, direction, *commitments, *pass_com),
                    i as nat,
                    t0,
                ) == Ok::<(), SnarkError>(())
                &&& state_of(*sponge) == chain_state(
                    activation_next(vk, out@, direction, *commitments, *pass_com),
                    i as nat,
                    t0,
                )
            },
        decreases trace.activation_steps@.len() - i,
    {
        let ghost before = out@;
        let ghost t1 = state_of(*sponge);
        assert(bias_inputs_there(
            cert_relaxations@,
            direction,
            trace.activation_steps@[i as int],
            i as int,
            *commitments,
            *pass_com,
            *prover_states,
            *pass_st,
        ));
        match build_one_activation_step::<P>(
            &trace.activation_steps[i],
            i,
            direction,
            cert_relaxations,
            pass_com,
            pass_st,
            commitments,
            prover_states,
            params,
            sponge,
            rng,
        ) {
            Ok(s) => {
                out.push(s);
                proof {
                    let (c1, n1) = (
                        activation_check(vk, before, direction, *commitments, *pass_com),
                        activation_next(vk, before, direction, *commitments, *pass_com),
                    );
                    let (c2, n2) = (
                        activation_check(vk, out@, direction, *commitments, *pass_com),
                        activation_next(vk, out@, direction, *commitments, *pass_com),
                    );
                    assert forall|k: int, t: Seq<u8>| 0 <= k < i implies #[trigger] c1(k, t)
                        == c2(k, t) by {
                        assert(before[k] == out@[k]);
                    }
                    assert forall|k: int, t: Seq<u8>| 0 <= k < i implies #[trigger] n1(k, t)
                        == n2(k, t) by {
                        assert(before[k] == out@[k]);
                    }
                    lemma_chain_prefix(c1, n1, c2, n2, i as nat, t0);
                    assert(ready ==> c2(i as int, t1) is Ok);
                }
            },
            Err(e) => {
                return Err(e);
            },
        }
        i += 1;
    }
    Ok(out)
}

} // verus!
