//! The linear steps of a pass, one after the other.

use crate::cert::QuantCert;
use crate::code_products::{
    is_product, is_vector_product, law_padded_product, law_padded_vector_product,
};
use crate::columns::lifted_codes;
use crate::commit::{
    PassCommitments, PassProverStates, ProverPolyStates, TensorCommitments, matrix_committed,
    vector_committed,
};
use crate::errors::{SnarkError, and_also};
use crate::field::Fr;
use crate::linear_step::{
    LinearBackwardCommitContext, LinearBackwardProof, LinearBackwardVerifyContext, LinearComs,
    dims_fit, linear_state, linear_verdict, verify_coms, verify_linear_backward,
};
use crate::linear_step_prover::{
    LinearTables, context_holds, linear_made, products_hold, prove_linear_backward,
};
use crate::mle::ceil_log2;
use crate::openings::{lemma_matrix_is_front, lemma_vector_is_front, padded_vector};
use crate::params::SnarkParams;
use crate::pcs::MlPcs;
use crate::qarray::{
    CodeMatrix, QArray1, QArray2, lemma_matrix_table_is_cells, matrix_fits, matrix_rows,
    matrix_width, mle_table_from_matrix, mle_table_from_vector, padded_cells, vector_codes,
};
use crate::trace::{BackwardTrace, LinearStepTrace};
use crate::transcript::{abs_u64, absorb_u64, state_of};
use ark_crypto_primitives::sponge::merlin::Transcript;
use vstd::arithmetic::power2::pow2;
use vstd::prelude::*;

verus! {

/// The proof of a pass's step at a linear layer, with its claimed shape.
pub struct LinearLayerStepProof<P: MlPcs> {
    pub layer_idx: usize,
    pub a_old_log_dims: (usize, usize),
    pub w_log_dims: (usize, usize),
    pub proof: LinearBackwardProof<P>,
}

/// The commitments of the step `i` of a pass, at a layer.
pub open spec fn linear_coms_at<P: MlPcs>(
    coms: TensorCommitments<P>,
    pass: PassCommitments<P>,
    layer: int,
    i: int,
) -> LinearComs<P> {
    LinearComs {
        w: coms.weight@[layer]->0,
        b: coms.bias@[layer]->0,
        a_old: pass.chain_a@[layer + 1],
        a_w: pass.linear_a_w@[i],
        a_b: pass.linear_a_b@[i],
    }
}

/// Whether a layer has its commitments, and so has a pass's step.
pub open spec fn linear_coms_there<P: MlPcs>(
    coms: TensorCommitments<P>,
    pass: PassCommitments<P>,
    layer: usize,
    i: int,
) -> bool {
    &&& layer < coms.weight@.len() && coms.weight@[layer as int] is Some
    &&& layer < coms.bias@.len() && coms.bias@[layer as int] is Some
    &&& layer + 1 < pass.chain_a@.len()
    &&& i < pass.linear_a_w@.len()
    &&& i < pass.linear_a_b@.len()
}

/// What a step's failure is reported as: a rejected opening as itself, and
/// anything else as the layer's.
pub open spec fn linear_failure(v: Result<(), SnarkError>, layer: usize) -> Result<
    (),
    SnarkError,
> {
    match v {
        Ok(_) => Ok(()),
        Err(SnarkError::PcsOpenRejected { which }) => Err(SnarkError::PcsOpenRejected { which }),
        Err(_) => Err(SnarkError::LinearLayerRejected { layer }),
    }
}

/// The state after the first `k` steps.
pub open spec fn linear_steps_state<P: MlPcs>(
    vk: P::VerifierKey,
    proofs: Seq<LinearLayerStepProof<P>>,
    coms: TensorCommitments<P>,
    pass: PassCommitments<P>,
    k: nat,
    t0: Seq<u8>,
) -> Seq<u8>
    decreases k,
{
    if k == 0 {
        t0
    } else {
        let s = proofs[k - 1];
        linear_state(
            vk,
            s.proof,
            linear_coms_at(coms, pass, s.layer_idx as int, k - 1),
            s.a_old_log_dims.0,
            s.a_old_log_dims.1,
            s.w_log_dims.1,
            abs_u64(
                linear_steps_state(vk, proofs, coms, pass, (k - 1) as nat, t0),
                s.layer_idx as u64,
            ),
        )
    }
}

/// The verdict on step `k`, after the ones before it.
pub open spec fn linear_step_verdict<P: MlPcs>(
    vk: P::VerifierKey,
    proofs: Seq<LinearLayerStepProof<P>>,
    coms: TensorCommitments<P>,
    pass: PassCommitments<P>,
    k: nat,
    t0: Seq<u8>,
) -> Result<(), SnarkError> {
    let s = proofs[k as int];
    linear_failure(
        linear_verdict(
            vk,
            s.proof,
            linear_coms_at(coms, pass, s.layer_idx as int, k as int),
            s.a_old_log_dims,
            s.w_log_dims,
            abs_u64(linear_steps_state(vk, proofs, coms, pass, k, t0), s.layer_idx as u64),
        ),
        s.layer_idx,
    )
}

/// The verdict on the first `k` steps: the first one that fails decides.
pub open spec fn linear_steps_verdict<P: MlPcs>(
    vk: P::VerifierKey,
    proofs: Seq<LinearLayerStepProof<P>>,
    coms: TensorCommitments<P>,
    pass: PassCommitments<P>,
    k: nat,
    t0: Seq<u8>,
) -> Result<(), SnarkError>
    decreases k,
{
    if k == 0 {
        Ok(())
    } else {
        and_also(
            linear_steps_verdict(vk, proofs, coms, pass, (k - 1) as nat, t0),
            linear_step_verdict(vk, proofs, coms, pass, (k - 1) as nat, t0),
        )
    }
}

proof fn lemma_linear_steps_err<P: MlPcs>(
    vk: P::VerifierKey,
    proofs: Seq<LinearLayerStepProof<P>>,
    coms: TensorCommitments<P>,
    pass: PassCommitments<P>,
    j: nat,
    k: nat,
    t0: Seq<u8>,
)
    requires
        j <= k,
        linear_steps_verdict(vk, proofs, coms, pass, j, t0) is Err,
    ensures
        linear_steps_verdict(vk, proofs, coms, pass, k, t0) == linear_steps_verdict(
            vk,
            proofs,
            coms,
            pass,
            j,
            t0,
        ),
    decreases k,
{
    if j < k {
        lemma_linear_steps_err(vk, proofs, coms, pass, j, (k - 1) as nat, t0);
    }
}

/// What is said of the first steps does not depend on later ones.
proof fn lemma_linear_steps_prefix<P: MlPcs>(
    vk: P::VerifierKey,
    a: Seq<LinearLayerStepProof<P>>,
    b: Seq<LinearLayerStepProof<P>>,
    coms: TensorCommitments<P>,
    pass: PassCommitments<P>,
    k: nat,
    t0: Seq<u8>,
)
    requires
        k <= a.len(),
        k <= b.len(),
        forall|i: int| 0 <= i < k ==> #[trigger] a[i] == b[i],
    ensures
        linear_steps_state(vk, a, coms, pass, k, t0) == linear_steps_state(
            vk,
            b,
            coms,
            pass,
            k,
            t0,
        ),
        linear_steps_verdict(vk, a, coms, pass, k, t0) == linear_steps_verdict(
            vk,
            b,
            coms,
            pass,
            k,
            t0,
        ),
    decreases k,
{
    if k > 0 {
        lemma_linear_steps_prefix(vk, a, b, coms, pass, (k - 1) as nat, t0);
        assert(a[k - 1] == b[k - 1]);
    }
}

/// Replay the transcript and verify the linear steps of a pass.
pub fn verify_linear_backward_chain<P: MlPcs>(
    proofs: &Vec<LinearLayerStepProof<P>>,
    commitments: &TensorCommitments<P>,
    pass_com: &PassCommitments<P>,
    params: &SnarkParams<P>,
    sponge: &mut Transcript,
) -> (r: Result<(), SnarkError>)
    requires
        forall|i: int|
            0 <= i < proofs@.len() ==> linear_coms_there(
                *commitments,
                *pass_com,
                (#[trigger] proofs@[i]).layer_idx,
                i,
            ) && dims_fit(proofs@[i].a_old_log_dims, proofs@[i].w_log_dims),
    ensures
        r == linear_steps_verdict(
            params.verifier_key,
            proofs@,
            *commitments,
            *pass_com,
            proofs@.len(),
            state_of(*old(sponge)),
        ),
        r is Ok ==> state_of(*final(sponge)) == linear_steps_state(
            params.verifier_key,
            proofs@,
            *commitments,
            *pass_com,
            proofs@.len(),
            state_of(*old(sponge)),
        ),
{
    let ghost t0 = state_of(*sponge);
    let ghost vk = params.verifier_key;
    let mut i: usize = 0;
    while i < proofs.len()
        invariant
            i <= proofs@.len(),
            t0 == state_of(*old(sponge)),
            vk == params.verifier_key,
            forall|k: int|
                0 <= k < proofs@.len() ==> linear_coms_there(
                    *commitments,
                    *pass_com,
                    (#[trigger] proofs@[k]).layer_idx,
                    k,
                ) && dims_fit(proofs@[k].a_old_log_dims, proofs@[k].w_log_dims),
            linear_steps_verdict(vk, proofs@, *commitments, *pass_com, i as nat, t0) == Ok::<
                (),
                SnarkError,
            >(()),
            state_of(*sponge) == linear_steps_state(
                vk,
                proofs@,
                *commitments,
                *pass_com,
                i as nat,
                t0,
            ),
        decreases proofs@.len() - i,
    {
        let step: &LinearLayerStepProof<P> = &proofs[i];
        let layer: usize = step.layer_idx;
        assert(linear_coms_there(*commitments, *pass_com, proofs@[i as int].layer_idx, i as int));
        absorb_u64(sponge, layer as u64);
        if let (Some(w), Some(b)) = (&commitments.weight[layer], &commitments.bias[layer]) {
            assert(layer + 1 < pass_com.chain_a.len());
            let ctx: LinearBackwardVerifyContext<'_, P> = LinearBackwardVerifyContext {
                vk: &params.verifier_key,
                w_commitment: w,
                b_commitment: b,
                a_old_commitment: &pass_com.chain_a[layer + 1],
                a_w_commitment: &pass_com.linear_a_w[i],
                a_b_commitment: &pass_com.linear_a_b[i],
                max_num_vars: params.max_num_vars,
            };
            assert(verify_coms(ctx) == linear_coms_at(
                *commitments,
                *pass_com,
                layer as int,
                i as int,
            ));
            match verify_linear_backward::<P>(
                &step.proof,
                step.a_old_log_dims,
                step.w_log_dims,
                &ctx,
                sponge,
            ) {
                Ok(_) => {},
                Err(e) => {
                    proof {
                        lemma_linear_steps_err(
                            vk,
                            proofs@,
                            *commitments,
                            *pass_com,
                            (i + 1) as nat,
                            proofs@.len(),
                            t0,
                        );
                    }
                    return match e {
                        SnarkError::PcsOpenRejected { which } => Err(
                            SnarkError::PcsOpenRejected { which },
                        ),
                        _ => Err(SnarkError::LinearLayerRejected { layer }),
                    };
                },
            }
        }
        i += 1;
    }
    Ok(())
}

// ---- The prover ----

/// What the prover of step `i` reads is there and fits.
pub open spec fn linear_inputs_there<P: MlPcs>(
    cert: QuantCert,
    step: LinearStepTrace,
    i: int,
    coms: TensorCommitments<P>,
    pass: PassCommitments<P>,
    states: ProverPolyStates<P>,
    pass_st: PassProverStates<P>,
) -> bool {
    let l = step.layer_idx;
    &&& linear_coms_there(coms, pass, l, i)
    &&& l < states.weight@.len() && states.weight@[l as int] is Some
    &&& l < states.bias@.len() && states.bias@[l as int] is Some
    &&& l + 1 < pass_st.chain_a@.len()
    &&& i < pass_st.linear_a_w@.len()
    &&& i < pass_st.linear_a_b@.len()
    &&& l < cert.weights@.len() && cert.weights@[l as int] is Some
    &&& l < cert.biases@.len() && cert.biases@[l as int] is Some
    &&& linear_tensors_fit(
        cert.weights@[l as int]->0,
        cert.biases@[l as int]->0,
        step,
    )
}

/// Whether a step's tensors have tables, and the products of their axes too.
pub open spec fn linear_tensors_fit(w: QArray2, b: QArray1, step: LinearStepTrace) -> bool {
    let la = ceil_log2(matrix_rows(step.a_old.codes).len());
    let li = ceil_log2(matrix_width(step.a_old.codes));
    let lo = ceil_log2(matrix_width(w.codes));
    &&& matrix_fits(step.a_old.codes)
    &&& matrix_fits(w.codes)
    &&& matrix_fits(step.a_w.codes)
    &&& vector_codes(b.codes).len() <= usize::MAX / 2 + 1
    &&& vector_codes(step.a_b.codes).len() <= usize::MAX / 2 + 1
    &&& pow2(la + li) <= usize::MAX
    &&& pow2(li + lo) <= usize::MAX
    &&& pow2(la + lo) <= usize::MAX
}

/// Whether what the prover kept of step `i` is of the step's tensors.
pub open spec fn linear_step_committed<P: MlPcs>(
    ck: P::CommitterKey,
    cert: QuantCert,
    step: LinearStepTrace,
    i: int,
    coms: TensorCommitments<P>,
    pass: PassCommitments<P>,
    states: ProverPolyStates<P>,
    pass_st: PassProverStates<P>,
) -> bool {
    let l = step.layer_idx as int;
    &&& matrix_committed(
        ck,
        cert.weights@[l]->0.codes,
        coms.weight@[l]->0,
        states.weight@[l]->0,
    )
    &&& vector_committed(
        ck,
        vector_codes(cert.biases@[l]->0.codes),
        coms.bias@[l]->0,
        states.bias@[l]->0,
    )
    &&& matrix_committed(ck, step.a_old.codes, pass.chain_a@[l + 1], pass_st.chain_a@[l + 1])
    &&& matrix_committed(ck, step.a_w.codes, pass.linear_a_w@[i], pass_st.linear_a_w@[i])
    &&& vector_committed(
        ck,
        vector_codes(step.a_b.codes),
        pass.linear_a_b@[i],
        pass_st.linear_a_b@[i],
    )
}

/// Whether a step multiplies the coefficients by the layer's weights and bias.
pub open spec fn linear_step_true(cert: QuantCert, step: LinearStepTrace) -> bool {
    let l = step.layer_idx as int;
    &&& is_product(step.a_old.codes, cert.weights@[l]->0.codes, step.a_w.codes)
    &&& is_vector_product(
        step.a_old.codes,
        vector_codes(cert.biases@[l]->0.codes),
        vector_codes(step.a_b.codes),
    )
}

/// A true step's tables hold its products, and its commitments are of them.
proof fn lemma_linear_step_ready<P: MlPcs>(
    cert: QuantCert,
    step: LinearStepTrace,
    ctx: LinearBackwardCommitContext<P>,
)
    requires
        linear_step_true(cert, step),
        matrix_committed(
            *ctx.ck,
            cert.weights@[step.layer_idx as int]->0.codes,
            *ctx.w_commitment,
            *ctx.w_aux,
        ),
        vector_committed(
            *ctx.ck,
            vector_codes(cert.biases@[step.layer_idx as int]->0.codes),
            *ctx.b_commitment,
            *ctx.b_aux,
        ),
        matrix_committed(*ctx.ck, step.a_old.codes, *ctx.a_old_commitment, *ctx.a_old_aux),
        matrix_committed(*ctx.ck, step.a_w.codes, *ctx.a_w_commitment, *ctx.a_w_aux),
        vector_committed(
            *ctx.ck,
            vector_codes(step.a_b.codes),
            *ctx.a_b_commitment,
            *ctx.a_b_aux,
        ),
    ensures
        ({
            let t = step_tables(cert, step);
            let (lns, lni) = step_dims(step.a_old.codes);
            let w_dims = step_dims(cert.weights@[step.layer_idx as int]->0.codes);
            &&& w_dims.0 == lni
            &&& t.a_old.len() == pow2(lns + lni)
            &&& t.w.len() == pow2(lni + w_dims.1)
            &&& t.b.len() == pow2(lni)
            &&& t.a_w.len() == pow2(lns + w_dims.1)
            &&& t.a_b.len() == pow2(lns)
            &&& products_hold(t, lns, lni, w_dims.1)
            &&& context_holds(ctx, t, lns, lni, w_dims.1)
        }),
{
    let w = cert.weights@[step.layer_idx as int]->0.codes;
    let b = vector_codes(cert.biases@[step.layer_idx as int]->0.codes);
    law_padded_product(step.a_old.codes, w, step.a_w.codes);
    law_padded_vector_product(step.a_old.codes, b, vector_codes(step.a_b.codes));
    lemma_matrix_is_front(step.a_old.codes);
    lemma_matrix_is_front(w);
    lemma_matrix_is_front(step.a_w.codes);
    lemma_vector_is_front(b);
    lemma_vector_is_front(vector_codes(step.a_b.codes));
}

/// The logarithms of a matrix's axes.
pub open spec fn step_dims(m: CodeMatrix) -> (nat, nat) {
    (ceil_log2(matrix_rows(m).len()), ceil_log2(matrix_width(m)))
}

/// The tables of a step.
pub open spec fn step_tables(cert: QuantCert, step: LinearStepTrace) -> LinearTables {
    let l = step.layer_idx as int;
    LinearTables {
        a_old: lifted_codes(padded_cells(step.a_old.codes)),
        w: lifted_codes(padded_cells(cert.weights@[l]->0.codes)),
        b: padded_vector(vector_codes(cert.biases@[l]->0.codes)),
        a_w: lifted_codes(padded_cells(step.a_w.codes)),
        a_b: padded_vector(vector_codes(step.a_b.codes)),
    }
}

/// Prove one linear step of a pass.
fn build_linear_step<P: MlPcs>(
    cert: &QuantCert,
    step: &LinearStepTrace,
    i: usize,
    pass_com: &PassCommitments<P>,
    pass_st: &PassProverStates<P>,
    commitments: &TensorCommitments<P>,
    prover_states: &ProverPolyStates<P>,
    params: &SnarkParams<P>,
    sponge: &mut Transcript,
    rng: &mut P::Randomness,
) -> (r: Result<LinearLayerStepProof<P>, SnarkError>)
    requires
        linear_inputs_there(
            *cert,
            *step,
            i as int,
            *commitments,
            *pass_com,
            *prover_states,
            *pass_st,
        ),
    ensures
        r matches Ok(s) ==> linear_layer_made(s, *cert, *step, state_of(*old(sponge))),
        linear_step_committed(
            params.committer_key,
            *cert,
            *step,
            i as int,
            *commitments,
            *pass_com,
            *prover_states,
            *pass_st,
        ) && linear_step_true(*cert, *step) ==> {
            &&& r matches Ok(s)
            &&& params.keys_match() ==> {
                let t1 = abs_u64(state_of(*old(sponge)), step.layer_idx as u64);
                let coms = linear_coms_at(
                    *commitments,
                    *pass_com,
                    step.layer_idx as int,
                    i as int,
                );
                &&& linear_verdict(
                    params.verifier_key,
                    s.proof,
                    coms,
                    s.a_old_log_dims,
                    s.w_log_dims,
                    t1,
                ) == Ok::<(), SnarkError>(())
                &&& state_of(*final(sponge)) == linear_state(
                    params.verifier_key,
                    s.proof,
                    coms,
                    s.a_old_log_dims.0,
                    s.a_old_log_dims.1,
                    s.w_log_dims.1,
                    t1,
                )
            }
        },
{
    let l: usize = step.layer_idx;
    if let (Some(w), Some(b), Some(w_aux), Some(b_aux), Some(w_com), Some(b_com)) = (
        &cert.weights[l],
        &cert.biases[l],
        &prover_states.weight[l],
        &prover_states.bias[l],
        &commitments.weight[l],
        &commitments.bias[l],
    ) {
        let (a_old_evals, a_old_log_dims): (Vec<Fr>, (usize, usize)) = mle_table_from_matrix(
            &step.a_old,
        );
        let (w_evals, w_log_dims): (Vec<Fr>, (usize, usize)) = mle_table_from_matrix(w);
        let b_evals: Vec<Fr> = mle_table_from_vector(b);
        let (a_w_evals, _): (Vec<Fr>, (usize, usize)) = mle_table_from_matrix(&step.a_w);
        let a_b_evals: Vec<Fr> = mle_table_from_vector(&step.a_b);
        proof {
            lemma_matrix_table_is_cells(step.a_old.codes);
            lemma_matrix_table_is_cells(w.codes);
            lemma_matrix_table_is_cells(step.a_w.codes);
        }
        absorb_u64(sponge, l as u64);
        assert(l + 1 < pass_com.chain_a.len());
        let ctx: LinearBackwardCommitContext<'_, P> = LinearBackwardCommitContext {
            ck: &params.committer_key,
            w_aux,
            w_commitment: w_com,
            b_aux,
            b_commitment: b_com,
            a_old_aux: &pass_st.chain_a[l + 1],
            a_old_commitment: &pass_com.chain_a[l + 1],
            a_w_aux: &pass_st.linear_a_w[i],
            a_w_commitment: &pass_com.linear_a_w[i],
            a_b_aux: &pass_st.linear_a_b[i],
            a_b_commitment: &pass_com.linear_a_b[i],
            max_num_vars: params.max_num_vars,
        };
        proof {
            if linear_step_committed(
                params.committer_key,
                *cert,
                *step,
                i as int,
                *commitments,
                *pass_com,
                *prover_states,
                *pass_st,
            ) && linear_step_true(*cert, *step) {
                lemma_linear_step_ready(*cert, *step, ctx);
            }
        }
        match prove_linear_backward::<P>(
            a_old_evals.as_slice(),
            a_old_log_dims,
            w_evals.as_slice(),
            w_log_dims,
            b_evals.as_slice(),
            a_w_evals.as_slice(),
            a_b_evals.as_slice(),
            &ctx,
            sponge,
            rng,
        ) {
            Ok(proof) => Ok(
                LinearLayerStepProof { layer_idx: l, a_old_log_dims, w_log_dims, proof },
            ),
            Err(e) => Err(e),
        }
    } else {
        Err(SnarkError::LinearLayerRejected { layer: l })
    }
}

/// A step's proof claims the step's layer and shapes.
pub open spec fn linear_step_shaped<P: MlPcs>(
    s: LinearLayerStepProof<P>,
    cert: QuantCert,
    step: LinearStepTrace,
) -> bool {
    let w = cert.weights@[step.layer_idx as int]->0.codes;
    &&& s.layer_idx == step.layer_idx
    &&& s.a_old_log_dims.0 == step_dims(step.a_old.codes).0
    &&& s.a_old_log_dims.1 == step_dims(step.a_old.codes).1
    &&& s.w_log_dims.0 == step_dims(w).0
    &&& s.w_log_dims.1 == step_dims(w).1
}

/// What a step's proof says of the step's tensors.
pub open spec fn linear_layer_made<P: MlPcs>(
    s: LinearLayerStepProof<P>,
    cert: QuantCert,
    step: LinearStepTrace,
    t0: Seq<u8>,
) -> bool {
    &&& linear_step_shaped(s, cert, step)
    &&& linear_made(
        s.proof,
        step_tables(cert, step),
        s.a_old_log_dims.0,
        s.a_old_log_dims.1,
        s.w_log_dims.1,
        abs_u64(t0, step.layer_idx as u64),
    )
}

/// Prove the linear steps of a pass.
pub fn build_linear_backward_proofs<P: MlPcs>(
    cert: &QuantCert,
    trace: &BackwardTrace,
    pass_com: &PassCommitments<P>,
    pass_st: &PassProverStates<P>,
    commitments: &TensorCommitments<P>,
    prover_states: &ProverPolyStates<P>,
    params: &SnarkParams<P>,
    sponge: &mut Transcript,
    rng: &mut P::Randomness,
) -> (r: Result<Vec<LinearLayerStepProof<P>>, SnarkError>)
    requires
        forall|i: int|
            0 <= i < trace.linear_steps@.len() ==> linear_inputs_there(
                *cert,
                #[trigger] trace.linear_steps@[i],
                i,
                *commitments,
                *pass_com,
                *prover_states,
                *pass_st,
            ),
    ensures
        r matches Ok(proofs) ==> {
            &&& proofs@.len() == trace.linear_steps@.len()
            &&& forall|i: int|
                0 <= i < proofs@.len() ==> linear_step_shaped(
                    #[trigger] proofs@[i],
                    *cert,
                    trace.linear_steps@[i],
                )
        },
        linear_trace_ready(
            *params,
            *cert,
            *trace,
            *commitments,
            *pass_com,
            *prover_states,
            *pass_st,
        ) && params.keys_match() ==> {
            &&& r matches Ok(proofs)
            &&& linear_steps_verdict(
                params.verifier_key,
                proofs@,
                *commitments,
                *pass_com,
                proofs@.len(),
                state_of(*old(sponge)),
            ) == Ok::<(), SnarkError>(())
            &&& state_of(*final(sponge)) == linear_steps_state(
                params.verifier_key,
                proofs@,
                *commitments,
                *pass_com,
                proofs@.len(),
                state_of(*old(sponge)),
            )
        },
{
    let ghost t0 = state_of(*sponge);
    let ghost vk = params.verifier_key;
    let ghost ready = linear_trace_ready(
        *params,
        *cert,
        *trace,
        *commitments,
        *pass_com,
        *prover_states,
        *pass_st,
    ) && params.keys_match();
    let mut out: Vec<LinearLayerStepProof<P>> = Vec::with_capacity(trace.linear_steps.len());
    let mut i: usize = 0;
    while i < trace.linear_steps.len()
        invariant
            i <= trace.linear_steps@.len(),
            t0 == state_of(*old(sponge)),
            vk == params.verifier_key,
            ready == (linear_trace_ready(
                *params,
                *cert,
                *trace,
                *commitments,
                *pass_com,
                *prover_states,
                *pass_st,
            ) && params.keys_match()),
            forall|k: int|
                0 <= k < trace.linear_steps@.len() ==> linear_inputs_there(
                    *cert,
                    #[trigger] trace.linear_steps@[k],
                    k,
                    *commitments,
                    *pass_com,
                    *prover_states,
                    *pass_st,
                ),
            out@.len() == i,
            forall|k: int|
                0 <= k < i ==> linear_step_shaped(
                    #[trigger] out@[k],
                    *cert,
                    trace.linear_steps@[k],
                ),
            ready ==> {
                &&& linear_steps_verdict(vk, out@, *commitments, *pass_com, i as nat, t0) == Ok::<
                    (),
                    SnarkError,
                >(())
                &&& state_of(*sponge) == linear_steps_state(
                    vk,
                    out@,
                    *commitments,
                    *pass_com,
                    i as nat,
                    t0,
                )
            },
        decreases trace.linear_steps@.len() - i,
    {
        let ghost before = out@;
        assert(ready ==> linear_step_committed(
            params.committer_key,
            *cert,
            trace.linear_steps@[i as int],
            i as int,
            *commitments,
            *pass_com,
            *prover_states,
            *pass_st,
        ));
        match build_linear_step::<P>(
            cert,
            &trace.linear_steps[i],
            i,
            pass_com,
            pass_st,
            commitments,
            prover_states,
            params,
            sponge,
            rng,
        ) {
            Ok(s) => {
                out.push(s);
                proof {
                    lemma_linear_steps_prefix(
                        vk,
                        before,
                        out@,
                        *commitments,
                        *pass_com,
                        i as nat,
                        t0,
                    );
                }
            },
            Err(e) => {
                return Err(e);
            },
        }
        i += 1;
    }
    Ok(out)
}

/// Whether every linear step of a pass is true and committed.
pub open spec fn linear_trace_ready<P: MlPcs>(
    params: SnarkParams<P>,
    cert: QuantCert,
    trace: BackwardTrace,
    coms: TensorCommitments<P>,
    pass: PassCommitments<P>,
    states: ProverPolyStates<P>,
    pass_st: PassProverStates<P>,
) -> bool {
    forall|i: int|
        0 <= i < trace.linear_steps@.len() ==> linear_step_true(
            cert,
            #[trigger] trace.linear_steps@[i],
        ) && linear_step_committed(
            params.committer_key,
            cert,
            trace.linear_steps@[i],
            i,
            coms,
            pass,
            states,
            pass_st,
        )
}

} // verus!
