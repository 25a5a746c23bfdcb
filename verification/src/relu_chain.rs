//! The sign splits of a pass: a lookup proof to every activation step, and one
//! to the last step.

use crate::activation_step::{ActivationLayerStepProof, matrix_nv};
use crate::architecture::ActivationShape;
use crate::chain::{chain_state, chain_verdict, lemma_chain_err, lemma_chain_prefix};
use crate::columns::round_up_even;
use crate::commit::{PassCommitments, PassProverStates};
use crate::errors::{SnarkError, and_also, holds};
use crate::mle::{ceil_log2, lemma_pow2_machine, pow2_usize};
use crate::params::{SnarkParams, tables_fit};
use crate::pcs::{CommittedAux, MlPcs};
use crate::qarray::{
    CodeMatrix, cell_count, lemma_matrix_fits, matrix_fits, matrix_rows, matrix_width,
};
use crate::relu_step::{
    ReluStepProof, prove_relu_step, relu_step_provable, relu_step_state, relu_step_verdict,
    verify_relu_step,
};
use crate::shapes::matrix_vars;
use crate::trace::{ActivationStepTrace, BackwardTrace, ConcretizeTrace};
use crate::transcript::state_of;
use ark_crypto_primitives::sponge::merlin::Transcript;
use vstd::arithmetic::power2::pow2;
use vstd::prelude::*;

verus! {

/// Whether the prover of the split of step `i` finds what it reads.
pub open spec fn relu_inputs_there<P: MlPcs>(
    step: ActivationStepTrace,
    i: int,
    pass: PassCommitments<P>,
    st: PassProverStates<P>,
) -> bool {
    &&& matrix_fits(step.a_old.codes)
    &&& step.layer_idx + 1 < pass.chain_a@.len()
    &&& step.layer_idx + 1 < st.chain_a@.len()
    &&& i < pass.activation_a_pos@.len()
    &&& i < st.activation_a_pos@.len()
}

/// Whether step `i` is owed a proof.
pub open spec fn relu_chain_step_ready<P: MlPcs>(
    params: SnarkParams<P>,
    step: ActivationStepTrace,
    i: int,
    pass: PassCommitments<P>,
    st: PassProverStates<P>,
) -> bool {
    relu_step_provable(
        params,
        step.a_old.codes,
        step.a_pos.codes,
        st.chain_a@[step.layer_idx + 1],
        pass.chain_a@[step.layer_idx + 1],
        st.activation_a_pos@[i],
        pass.activation_a_pos@[i],
    )
}

/// How the splits of a pass are checked, against the layers and shapes that
/// the steps' proofs claim.
pub open spec fn relu_check<P: MlPcs>(
    params: SnarkParams<P>,
    proofs: Seq<ReluStepProof<P>>,
    shapes: Seq<ActivationShape>,
    pass: PassCommitments<P>,
) -> spec_fn(int, Seq<u8>) -> Result<(), SnarkError> {
    |i: int, t: Seq<u8>|
        relu_step_verdict(
            params,
            proofs[i],
            pass.chain_a@[shapes[i].0 + 1],
            pass.activation_a_pos@[i],
            pow2((shapes[i].1.0 + shapes[i].1.1) as nat) as u64,
            matrix_nv(shapes[i].1),
            t,
        )
}

/// How the splits of a pass move the transcript.
pub open spec fn relu_next<P: MlPcs>(
    vk: P::VerifierKey,
    proofs: Seq<ReluStepProof<P>>,
    shapes: Seq<ActivationShape>,
    pass: PassCommitments<P>,
) -> spec_fn(int, Seq<u8>) -> Seq<u8> {
    |i: int, t: Seq<u8>|
        relu_step_state(
            vk,
            proofs[i],
            pass.chain_a@[shapes[i].0 + 1],
            pass.activation_a_pos@[i],
            pow2((shapes[i].1.0 + shapes[i].1.1) as nat) as u64,
            matrix_nv(shapes[i].1),
            t,
        )
}

/// The shapes that the steps' proofs claim.
pub open spec fn claimed_shapes<P: MlPcs>(steps: Seq<ActivationLayerStepProof<P>>) -> Seq<
    ActivationShape,
> {
    Seq::new(steps.len(), |i: int| (steps[i].layer_idx, steps[i].a_old_log_dims))
}

/// The shapes of a trace's steps.
pub open spec fn traced_shapes(steps: Seq<ActivationStepTrace>) -> Seq<ActivationShape> {
    Seq::new(
        steps.len(),
        |i: int|
            (
                steps[i].layer_idx,
                (
                    ceil_log2(matrix_rows(steps[i].a_old.codes).len()) as usize,
                    ceil_log2(matrix_width(steps[i].a_old.codes)) as usize,
                ),
            ),
    )
}

/// Whether a step's claimed shape can be checked: its commitments are there,
/// and its padded cells can be counted.
pub open spec fn relu_coms_there<P: MlPcs>(
    shape: ActivationShape,
    i: int,
    pass: PassCommitments<P>,
) -> bool {
    &&& shape.0 + 1 < pass.chain_a@.len()
    &&& i < pass.activation_a_pos@.len()
    &&& pow2((shape.1.0 + shape.1.1) as nat) <= usize::MAX
}

/// Whether every split of a pass is owed a proof.
pub open spec fn relu_trace_ready<P: MlPcs>(
    params: SnarkParams<P>,
    trace: BackwardTrace,
    pass: PassCommitments<P>,
    st: PassProverStates<P>,
) -> bool {
    forall|i: int|
        0 <= i < trace.activation_steps@.len() ==> relu_chain_step_ready(
            params,
            #[trigger] trace.activation_steps@[i],
            i,
            pass,
            st,
        )
}

/// A matrix's shape fits in machine numbers.
pub proof fn lemma_dims_machine(m: CodeMatrix)
    requires
        matrix_fits(m),
    ensures
        ceil_log2(matrix_rows(m).len()) < 64,
        ceil_log2(matrix_width(m)) < 64,
        cell_count(m) <= usize::MAX,
{
    lemma_matrix_fits(m);
    let (a, b) = (ceil_log2(matrix_rows(m).len()), ceil_log2(matrix_width(m)));
    lemma_pow2_machine(a + b);
}

/// Prove the splits of the activation steps of a pass.
pub fn build_relu_proofs_activation<P: MlPcs>(
    trace: &BackwardTrace,
    pass_com: &PassCommitments<P>,
    pass_st: &PassProverStates<P>,
    params: &SnarkParams<P>,
    sponge: &mut Transcript,
    rng: &mut P::Randomness,
) -> (r: Result<Vec<ReluStepProof<P>>, SnarkError>)
    requires
        tables_fit(*params),
        forall|i: int|
            0 <= i < trace.activation_steps@.len() ==> relu_inputs_there(
                #[trigger] trace.activation_steps@[i],
                i,
                *pass_com,
                *pass_st,
            ),
    ensures
        r matches Ok(proofs) ==> proofs@.len() == trace.activation_steps@.len(),
        relu_trace_ready(*params, *trace, *pass_com, *pass_st) && params.keys_match() ==> {
            let shapes = traced_shapes(trace.activation_steps@);
            &&& r matches Ok(proofs)
            &&& chain_verdict(
                relu_check(*params, proofs@, shapes, *pass_com),
                relu_next(params.verifier_key, proofs@, shapes, *pass_com),
                proofs@.len(),
                state_of(*old(sponge)),
            ) == Ok::<(), SnarkError>(())
            &&& state_of(*final(sponge)) == chain_state(
                relu_next(params.verifier_key, proofs@, shapes, *pass_com),
                proofs@.len(),
                state_of(*old(sponge)),
            )
        },
{
    let ghost t0 = state_of(*sponge);
    let ghost vk = params.verifier_key;
    let ghost shapes = traced_shapes(trace.activation_steps@);
    let ghost ready = relu_trace_ready(*params, *trace, *pass_com, *pass_st)
        && params.keys_match();
    let mut out: Vec<ReluStepProof<P>> = Vec::with_capacity(trace.activation_steps.len());
    let mut i: usize = 0;
    while i < trace.activation_steps.len()
        invariant
            i <= trace.activation_steps@.len(),
            t0 == state_of(*old(sponge)),
            vk == params.verifier_key,
            tables_fit(*params),
            shapes == traced_shapes(trace.activation_steps@),
            ready == (relu_trace_ready(*params, *trace, *pass_com, *pass_st)
                && params.keys_match()),
            forall|k: int|
                0 <= k < trace.activation_steps@.len() ==> relu_inputs_there(
                    #[trigger] trace.activation_steps@[k],
                    k,
                    *pass_com,
                    *pass_st,
                ),
            out@.len() == i,
            ready ==> {
                &&& chain_verdict(
                    relu_check(*params, out@, shapes, *pass_com),
                    relu_next(vk, out@, shapes, *pass_com),
                    i as nat,
                    t0,
                ) == Ok::<(), SnarkError>(())
                &&& state_of(*sponge) == chain_state(
                    relu_next(vk, out@, shapes, *pass_com),
                    i as nat,
                    t0,
                )
            },
        decreases trace.activation_steps@.len() - i,
    {
        let ghost before = out@;
        let ghost t1 = state_of(*sponge);
        let step: &ActivationStepTrace = &trace.activation_steps[i];
        assert(relu_inputs_there(
            trace.activation_steps@[i as int],
            i as int,
            *pass_com,
            *pass_st,
        ));
        assert(step.layer_idx + 1 < pass_com.chain_a.len());
        proof {
            lemma_dims_machine(step.a_old.codes);
        }
        match prove_relu_step::<P>(
            &step.a_old.codes,
            &step.a_pos.codes,
            &pass_st.chain_a[step.layer_idx + 1],
            &pass_com.chain_a[step.layer_idx + 1],
            &pass_st.activation_a_pos[i],
            &pass_com.activation_a_pos[i],
            params,
            sponge,
            rng,
        ) {
            Ok(s) => {
                out.push(s);
                proof {
                    let (c1, n1) = (
                        relu_check(*params, before, shapes, *pass_com),
                        relu_next(vk, before, shapes, *pass_com),
                    );
                    let (c2, n2) = (
                        relu_check(*params, out@, shapes, *pass_com),
                        relu_next(vk, out@, shapes, *pass_com),
                    );
                    assert forall|k: int, t: Seq<u8>| 0 <= k < i implies #[trigger] c1(k, t)
                        == c2(k, t) by {
                        assert(before[k] == out@[k]);
                    }
                    assert forall|k: int, t: Seq<u8>| 0 <= k < i implies #[trigger] n1(k, t)
                        == n2(k, t) by {
                        assert(before[k] == out@[k]);
                    }
                    lemma_chain_prefix(c1, n1, c2, n2, i as nat, t0);
                    assert(ready ==> c2(i as int, t1) is Ok) by {
                        assert(shapes[i as int].0 == step.layer_idx);
                        assert(relu_chain_step_ready(
                            *params,
                            trace.activation_steps@[i as int],
                            i as int,
                            *pass_com,
                            *pass_st,
                        ) || !ready);
                    }
                }
            },
            Err(e) => {
                return Err(e);
            },
        }
        i += 1;
    }
    Ok(out)
}

/// Why the prover of the last step's split refuses, where it does.
pub open spec fn relu_concretize_refusal<P: MlPcs>(
    c: ConcretizeTrace,
    pass: PassCommitments<P>,
    st: PassProverStates<P>,
) -> Result<(), SnarkError> {
    and_also(
        holds(
            st.concretize_a_pos is Some,
            SnarkError::ShapeMismatch { what: "missing concretize_a_pos state" },
        ),
        and_also(
            holds(
                pass.concretize_a_pos is Some,
                SnarkError::ShapeMismatch { what: "missing concretize_a_pos commit" },
            ),
            holds(
                matrix_rows(c.a_pos.codes).len() == matrix_rows(c.a_final.codes).len()
                    && matrix_width(c.a_pos.codes) == matrix_width(c.a_final.codes),
                SnarkError::ShapeMismatch { what: "ReLU-lookup: A vs A_pos shape" },
            ),
        ),
    )
}

/// Whether the last step's split is owed a proof.
pub open spec fn relu_concretize_ready<P: MlPcs>(
    params: SnarkParams<P>,
    c: ConcretizeTrace,
    pass: PassCommitments<P>,
    st: PassProverStates<P>,
) -> bool {
    &&& st.concretize_a_pos is Some
    &&& pass.concretize_a_pos is Some
    &&& relu_step_provable(
        params,
        c.a_final.codes,
        c.a_pos.codes,
        st.chain_a@[0],
        pass.chain_a@[0],
        st.concretize_a_pos->0,
        pass.concretize_a_pos->0,
    )
}

/// Prove the split of the last step.
pub fn build_relu_proof_concretize<P: MlPcs>(
    concretize: &ConcretizeTrace,
    pass_com: &PassCommitments<P>,
    pass_st: &PassProverStates<P>,
    params: &SnarkParams<P>,
    sponge: &mut Transcript,
    rng: &mut P::Randomness,
) -> (r: Result<ReluStepProof<P>, SnarkError>)
    requires
        tables_fit(*params),
        matrix_fits(concretize.a_final.codes),
        pass_com.chain_a@.len() > 0,
        pass_st.chain_a@.len() > 0,
    ensures
        relu_concretize_refusal(*concretize, *pass_com, *pass_st) matches Err(e) ==> r == Err::<
            ReluStepProof<P>,
            SnarkError,
        >(e),
        relu_concretize_ready(*params, *concretize, *pass_com, *pass_st) && params.keys_match()
            ==> {
            let nv = matrix_vars(
                matrix_rows(concretize.a_final.codes).len(),
                matrix_width(concretize.a_final.codes),
            );
            let np = cell_count(concretize.a_final.codes) as u64;
            &&& r matches Ok(proof)
            &&& relu_step_verdict(
                *params,
                proof,
                pass_com.chain_a@[0],
                pass_com.concretize_a_pos->0,
                np,
                nv,
                state_of(*old(sponge)),
            ) == Ok::<(), SnarkError>(())
            &&& state_of(*final(sponge)) == relu_step_state(
                params.verifier_key,
                proof,
                pass_com.chain_a@[0],
                pass_com.concretize_a_pos->0,
                np,
                nv,
                state_of(*old(sponge)),
            )
        },
{
    let a_pos_aux: &CommittedAux<P> = match &pass_st.concretize_a_pos {
        Some(x) => x,
        None => {
            return Err(SnarkError::ShapeMismatch { what: "missing concretize_a_pos state" });
        },
    };
    let a_pos_com: &P::Commitment = match &pass_com.concretize_a_pos {
        Some(x) => x,
        None => {
            return Err(SnarkError::ShapeMismatch { what: "missing concretize_a_pos commit" });
        },
    };
    prove_relu_step::<P>(
        &concretize.a_final.codes,
        &concretize.a_pos.codes,
        &pass_st.chain_a[0],
        &pass_com.chain_a[0],
        a_pos_aux,
        a_pos_com,
        params,
        sponge,
        rng,
    )
}

/// Verify the splits of the activation steps of a pass.
pub fn verify_relu_proofs_activation<P: MlPcs>(
    proofs: &Vec<ReluStepProof<P>>,
    activation_steps: &Vec<ActivationLayerStepProof<P>>,
    pass_com: &PassCommitments<P>,
    params: &SnarkParams<P>,
    sponge: &mut Transcript,
) -> (r: Result<(), SnarkError>)
    requires
        forall|i: int|
            0 <= i < activation_steps@.len() ==> relu_coms_there(
                #[trigger] claimed_shapes(activation_steps@)[i],
                i,
                *pass_com,
            ),
    ensures
        r == relu_chain_verdict(
            *params,
            proofs@,
            claimed_shapes(activation_steps@),
            *pass_com,
            state_of(*old(sponge)),
        ),
        proofs@.len() != activation_steps@.len() ==> state_of(*final(sponge)) == state_of(
            *old(sponge),
        ),
        r is Ok ==> state_of(*final(sponge)) == chain_state(
            relu_next(
                params.verifier_key,
                proofs@,
                claimed_shapes(activation_steps@),
                *pass_com,
            ),
            proofs@.len(),
            state_of(*old(sponge)),
        ),
{
    let ghost t0 = state_of(*sponge);
    let ghost shapes = claimed_shapes(activation_steps@);
    let ghost check = relu_check(*params, proofs@, shapes, *pass_com);
    let ghost next = relu_next(params.verifier_key, proofs@, shapes, *pass_com);
    if proofs.len() != activation_steps.len() {
        return Err(SnarkError::ShapeMismatch { what: "relu proofs vs activation step count" });
    }
    let mut i: usize = 0;
    while i < proofs.len()
        invariant
            i <= proofs@.len(),
            proofs@.len() == activation_steps@.len(),
            t0 == state_of(*old(sponge)),
            shapes == claimed_shapes(activation_steps@),
            check == relu_check(*params, proofs@, shapes, *pass_com),
            next == relu_next(params.verifier_key, proofs@, shapes, *pass_com),
            forall|k: int|
                0 <= k < activation_steps@.len() ==> relu_coms_there(
                    #[trigger] claimed_shapes(activation_steps@)[k],
                    k,
                    *pass_com,
                ),
            chain_verdict(check, next, i as nat, t0) == Ok::<(), SnarkError>(()),
            state_of(*sponge) == chain_state(next, i as nat, t0),
        decreases proofs@.len() - i,
    {
        let ghost t1 = state_of(*sponge);
        let layer: usize = activation_steps[i].layer_idx;
        let (lns, lni): (usize, usize) = activation_steps[i].a_old_log_dims;
        assert(relu_coms_there(shapes[i as int], i as int, *pass_com));
        proof {
            lemma_pow2_machine((lns + lni) as nat);
        }
        assert(layer + 1 < pass_com.chain_a.len());
        let n_padded: usize = pow2_usize(lns + lni);
        let commit_n_vars: usize = round_up_even(lns + lni);
        match verify_relu_step::<P>(
            &proofs[i],
            &pass_com.chain_a[layer + 1],
            &pass_com.activation_a_pos[i],
            params,
            n_padded,
            commit_n_vars,
            sponge,
        ) {
            Ok(_) => {
                assert(check(i as int, t1) is Ok);
            },
            Err(e) => {
                proof {
                    lemma_chain_err(check, next, (i + 1) as nat, proofs@.len(), t0);
                }
                return Err(e);
            },
        }
        i += 1;
    }
    Ok(())
}

/// The verdict on the splits of the activation steps of a pass.
pub open spec fn relu_chain_verdict<P: MlPcs>(
    params: SnarkParams<P>,
    proofs: Seq<ReluStepProof<P>>,
    shapes: Seq<ActivationShape>,
    pass: PassCommitments<P>,
    t0: Seq<u8>,
) -> Result<(), SnarkError> {
    and_also(
        holds(
            proofs.len() == shapes.len(),
            SnarkError::ShapeMismatch { what: "relu proofs vs activation step count" },
        ),
        chain_verdict(
            relu_check(params, proofs, shapes, pass),
            relu_next(params.verifier_key, proofs, shapes, pass),
            proofs.len(),
            t0,
        ),
    )
}

/// Verify the split of the last step, whose matrix has axes of the given
/// logarithms.
pub fn verify_relu_proof_concretize<P: MlPcs>(
    relu_proof: &ReluStepProof<P>,
    a_final_log_dims: (usize, usize),
    pass_com: &PassCommitments<P>,
    params: &SnarkParams<P>,
    sponge: &mut Transcript,
) -> (r: Result<(), SnarkError>)
    requires
        pass_com.chain_a@.len() > 0,
        pow2((a_final_log_dims.0 + a_final_log_dims.1) as nat) <= usize::MAX,
    ensures
        match pass_com.concretize_a_pos {
            None => r == Err::<(), SnarkError>(
                SnarkError::ShapeMismatch { what: "missing concretize_a_pos commit" },
            ) && state_of(*final(sponge)) == state_of(*old(sponge)),
            Some(a_pos) => {
                let np = pow2((a_final_log_dims.0 + a_final_log_dims.1) as nat) as u64;
                &&& r == relu_step_verdict(
                    *params,
                    *relu_proof,
                    pass_com.chain_a@[0],
                    a_pos,
                    np,
                    matrix_nv(a_final_log_dims),
                    state_of(*old(sponge)),
                )
                &&& r is Ok ==> state_of(*final(sponge)) == relu_step_state(
                    params.verifier_key,
                    *relu_proof,
                    pass_com.chain_a@[0],
                    a_pos,
                    np,
                    matrix_nv(a_final_log_dims),
                    state_of(*old(sponge)),
                )
            },
        },
{
    let a_pos_com: &P::Commitment = match &pass_com.concretize_a_pos {
        Some(x) => x,
        None => {
            return Err(SnarkError::ShapeMismatch { what: "missing concretize_a_pos commit" });
        },
    };
    let (lns, lni): (usize, usize) = a_final_log_dims;
    proof {
        lemma_pow2_machine((lns + lni) as nat);
    }
    let n_padded: usize = pow2_usize(lns + lni);
    let commit_n_vars: usize = round_up_even(lns + lni);
    verify_relu_step::<P>(
        relu_proof,
        &pass_com.chain_a[0],
        a_pos_com,
        params,
        n_padded,
        commit_n_vars,
        sponge,
    )
}

} // verus!
