//! The second and third parts of the check of a hidden pass.

use crate::activation_matrix::{
    ActivationMatrixStepProof, matrix_check, matrix_next, verify_activation_matrix_chain,
};
use crate::activation_step::{ActivationLayerStepProof, matrix_nv};
use crate::architecture::{
    activation_chain_verdict, activation_indices, activation_shape, law_steps_partition,
    output_width, pass_lengths_verdict,
};
use crate::bias_accumulator::{
    b_acc_state, b_acc_verdict, canonical_events, event_there, lemma_layer_counts,
    verify_b_acc_step_proofs,
};
use crate::bias_accumulator_prover::lemma_kind_at;
use crate::chain::{chain_state, chain_verdict};
use crate::commit::{PassCommitments, TensorCommitments};
use crate::errors::{SnarkError, and_also, holds};
use crate::hidden_pass::{
    HiddenFront, HiddenSplits, HiddenSteps, architecture_fits, hidden_linear_indices,
    hidden_property, hidden_shape_verdict, hidden_targets, pass_layers,
};
use crate::mle::ceil_log2;
use crate::network::{LayerShape, NetworkArchitecture};
use crate::params::SnarkParams;
use crate::pass_laws::law_hidden_target_count;
use crate::pcs::MlPcs;
use crate::relu_chain::{
    claimed_shapes, relu_chain_verdict, relu_coms_there, relu_next, verify_relu_proof_concretize,
    verify_relu_proofs_activation,
};
use crate::relu_step::{ReluStepProof, relu_step_state, relu_step_verdict};
use crate::shapes::{native_vector_n_vars, vector_vars};
use crate::trace::BoundDir;
use crate::transcript::state_of;
use ark_crypto_primitives::sponge::merlin::Transcript;
use vstd::arithmetic::power2::pow2;
use vstd::prelude::*;

verus! {

/// The layers that hidden passes are expected at, where there are as many
/// proofs as such layers.
pub fn expected_hidden_targets(arch: &NetworkArchitecture, n_proofs: usize) -> (r: Result<
    Vec<usize>,
    SnarkError,
>)
    ensures
        match r {
            Ok(targets) => {
                &&& targets@ == hidden_targets(arch.layers@, arch.layers@.len())
                &&& targets@.len() == n_proofs
                &&& forall|i: int, j: int| 0 <= i < j < targets@.len() ==> targets@[i] < targets@[j]
                &&& forall|j: int|
                    0 <= j < targets@.len() ==> {
                        let i = (#[trigger] targets@[j]) as int;
                        &&& i + 1 < arch.layers@.len()
                        &&& arch.layers@[i] is Linear
                        &&& arch.layers@[i + 1] is Activation
                    }
                &&& forall|i: int|
                    0 <= i && i + 1 < arch.layers@.len() && (#[trigger] arch.layers@[i]) is Linear
                        && arch.layers@[i + 1] is Activation ==> targets@.contains(i as usize)
            },
            Err(e) => {
                &&& e == (SnarkError::ArchitectureMismatch {
                    what: "hidden_passes: count != number of hidden Linear layers in network",
                })
                &&& hidden_targets(arch.layers@, arch.layers@.len()).len() != n_proofs
            },
        },
        r is Ok <==> n_proofs == Seq::new(arch.layers@.len(), |i: int| i).filter(
            |i: int|
                i + 1 < arch.layers@.len() && arch.layers@[i] is Linear && arch.layers@[i
                    + 1] is Activation,
        ).len(),
{
    proof {
        law_hidden_target_count(arch.layers@, arch.layers@.len());
    }
    let targets: Vec<usize> = hidden_linear_indices(arch);
    if n_proofs != targets.len() {
        return Err(
            SnarkError::ArchitectureMismatch {
                what: "hidden_passes: count != number of hidden Linear layers in network",
            },
        );
    }
    Ok(targets)
}

/// Whether a hidden pass's proof is for the layer that is expected.
pub fn check_hidden_target<P: MlPcs>(
    proof: &HiddenFront<P>,
    expected: usize,
) -> (r: Result<(), SnarkError>)
    ensures
        r == holds(
            proof.target_layer_idx == expected,
            SnarkError::ArchitectureMismatch {
                what: "hidden_passes: target_layer_idx mismatch with architecture",
            },
        ),
{
    if proof.target_layer_idx != expected {
        return Err(
            SnarkError::ArchitectureMismatch {
                what: "hidden_passes: target_layer_idx mismatch with architecture",
            },
        );
    }
    Ok(())
}

// ---- The second part ----

/// Whether the padded cells of every step can be counted.
pub open spec fn cells_countable<P: MlPcs>(steps: Seq<ActivationLayerStepProof<P>>) -> bool {
    forall|i: int|
        0 <= i < steps.len() ==> pow2(
            ((#[trigger] steps[i]).a_old_log_dims.0 + steps[i].a_old_log_dims.1) as nat,
        ) <= usize::MAX
}

/// The verdict on the split of the last step.
pub open spec fn last_split_verdict<P: MlPcs>(
    params: SnarkParams<P>,
    proof: ReluStepProof<P>,
    dims: (usize, usize),
    pass: PassCommitments<P>,
    t: Seq<u8>,
) -> Result<(), SnarkError> {
    match pass.concretize_a_pos {
        None => Err(SnarkError::ShapeMismatch { what: "missing concretize_a_pos commit" }),
        Some(a_pos) => relu_step_verdict(
            params,
            proof,
            pass.chain_a@[0],
            a_pos,
            pow2((dims.0 + dims.1) as nat) as u64,
            matrix_nv(dims),
            t,
        ),
    }
}

/// The state after the split of the last step.
pub open spec fn last_split_state<P: MlPcs>(
    vk: P::VerifierKey,
    proof: ReluStepProof<P>,
    dims: (usize, usize),
    pass: PassCommitments<P>,
    t: Seq<u8>,
) -> Seq<u8> {
    relu_step_state(
        vk,
        proof,
        pass.chain_a@[0],
        pass.concretize_a_pos->0,
        pow2((dims.0 + dims.1) as nat) as u64,
        matrix_nv(dims),
        t,
    )
}

/// The state after one direction's splits.
pub open spec fn splits_state<P: MlPcs>(
    vk: P::VerifierKey,
    proofs: Seq<ReluStepProof<P>>,
    steps: Seq<ActivationLayerStepProof<P>>,
    pass: PassCommitments<P>,
    t: Seq<u8>,
) -> Seq<u8> {
    chain_state(relu_next(vk, proofs, claimed_shapes(steps), pass), proofs.len(), t)
}

/// The state after the lower direction's splits.
pub open spec fn hs_s1<P: MlPcs>(
    vk: P::VerifierKey,
    proof: HiddenFront<P>,
    splits: HiddenSplits<P>,
    t0: Seq<u8>,
) -> Seq<u8> {
    splits_state(
        vk,
        splits.relu_lower_activation@,
        proof.activation_backward_lower@,
        proof.pass_lower,
        t0,
    )
}

/// The state after both directions' splits.
pub open spec fn hs_s2<P: MlPcs>(
    vk: P::VerifierKey,
    proof: HiddenFront<P>,
    splits: HiddenSplits<P>,
    t0: Seq<u8>,
) -> Seq<u8> {
    splits_state(
        vk,
        splits.relu_upper_activation@,
        proof.activation_backward_upper@,
        proof.pass_upper,
        hs_s1(vk, proof, splits, t0),
    )
}

/// The state after the lower direction's last split.
pub open spec fn hs_s3<P: MlPcs>(
    vk: P::VerifierKey,
    proof: HiddenFront<P>,
    splits: HiddenSplits<P>,
    lower_dims: (usize, usize),
    t0: Seq<u8>,
) -> Seq<u8> {
    last_split_state(
        vk,
        splits.relu_lower_concretize,
        lower_dims,
        proof.pass_lower,
        hs_s2(vk, proof, splits, t0),
    )
}

/// The state after the second part.
#[verifier::opaque]
pub open spec fn hidden_splits_state<P: MlPcs>(
    vk: P::VerifierKey,
    proof: HiddenFront<P>,
    splits: HiddenSplits<P>,
    lower_dims: (usize, usize),
    upper_dims: (usize, usize),
    t0: Seq<u8>,
) -> Seq<u8> {
    last_split_state(
        vk,
        splits.relu_upper_concretize,
        upper_dims,
        proof.pass_upper,
        hs_s3(vk, proof, splits, lower_dims, t0),
    )
}

/// The verdict on the second part: the splits of the activation steps, and of
/// the last step.
#[verifier::opaque]
pub open spec fn hidden_splits_verdict<P: MlPcs>(
    params: SnarkParams<P>,
    proof: HiddenFront<P>,
    splits: HiddenSplits<P>,
    lower_dims: (usize, usize),
    upper_dims: (usize, usize),
    t0: Seq<u8>,
) -> Result<(), SnarkError> {
    let vk = params.verifier_key;
    and_also(
        relu_chain_verdict(
            params,
            splits.relu_lower_activation@,
            claimed_shapes(proof.activation_backward_lower@),
            proof.pass_lower,
            t0,
        ),
        and_also(
            relu_chain_verdict(
                params,
                splits.relu_upper_activation@,
                claimed_shapes(proof.activation_backward_upper@),
                proof.pass_upper,
                hs_s1(vk, proof, splits, t0),
            ),
            and_also(
                last_split_verdict(
                    params,
                    splits.relu_lower_concretize,
                    lower_dims,
                    proof.pass_lower,
                    hs_s2(vk, proof, splits, t0),
                ),
                last_split_verdict(
                    params,
                    splits.relu_upper_concretize,
                    upper_dims,
                    proof.pass_upper,
                    hs_s3(vk, proof, splits, lower_dims, t0),
                ),
            ),
        ),
    )
}

/// Steps of a canonical shape have the commitments of their splits.
proof fn lemma_splits_there<P: MlPcs>(
    layers: Seq<LayerShape>,
    target: usize,
    n_spec: usize,
    steps: Seq<ActivationLayerStepProof<P>>,
    pass: PassCommitments<P>,
)
    requires
        architecture_fits(layers),
        target < layers.len(),
        cells_countable(steps),
        pass_lengths_verdict(pass, pass_layers(layers, target)) is Ok,
        activation_chain_verdict(
            claimed_shapes(steps),
            pass_layers(layers, target),
            hidden_property(n_spec, pass_layers(layers, target)),
        ) is Ok,
    ensures
        forall|i: int|
            0 <= i < steps.len() ==> relu_coms_there(
                #[trigger] claimed_shapes(steps)[i],
                i,
                pass,
            ),
        pass.chain_a@.len() > 0,
{
    let low = pass_layers(layers, target);
    let n = low.len();
    let idx = activation_indices(low, n);
    law_steps_partition(low, n);
    assert forall|i: int| 0 <= i < steps.len() implies relu_coms_there(
        #[trigger] claimed_shapes(steps)[i],
        i,
        pass,
    ) by {
        let c = claimed_shapes(steps)[i];
        assert(c == activation_shape(low, ceil_log2(n_spec as nat), idx[i]));
        assert(idx.contains(idx[i]));
        assert(c.1 == steps[i].a_old_log_dims);
    }
}

/// Check the second part of a hidden pass, after the check of its last step:
/// the splits of its steps into signs. The last step's matrices have axes of
/// the given logarithms.
pub fn verify_hidden_splits<P: MlPcs>(
    arch: &NetworkArchitecture,
    proof: &HiddenFront<P>,
    splits: &HiddenSplits<P>,
    lower_dims: (usize, usize),
    upper_dims: (usize, usize),
    params: &SnarkParams<P>,
    sponge: &mut Transcript,
) -> (r: Result<(), SnarkError>)
    requires
        architecture_fits(arch.layers@),
        hidden_shape_verdict(arch.layers@, *proof) is Ok,
        cells_countable(proof.activation_backward_lower@),
        cells_countable(proof.activation_backward_upper@),
        pow2((lower_dims.0 + lower_dims.1) as nat) <= usize::MAX,
        pow2((upper_dims.0 + upper_dims.1) as nat) <= usize::MAX,
    ensures
        r == hidden_splits_verdict(
            *params,
            *proof,
            *splits,
            lower_dims,
            upper_dims,
            state_of(*old(sponge)),
        ),
        r is Ok ==> state_of(*final(sponge)) == hidden_splits_state(
            params.verifier_key,
            *proof,
            *splits,
            lower_dims,
            upper_dims,
            state_of(*old(sponge)),
        ),
{
    proof {
        reveal(hidden_splits_verdict);
        reveal(hidden_splits_state);
        reveal(hidden_shape_verdict);
        lemma_splits_there(
            arch.layers@,
            proof.target_layer_idx,
            proof.n_spec,
            proof.activation_backward_lower@,
            proof.pass_lower,
        );
        lemma_splits_there(
            arch.layers@,
            proof.target_layer_idx,
            proof.n_spec,
            proof.activation_backward_upper@,
            proof.pass_upper,
        );
    }
    match verify_relu_proofs_activation::<P>(
        &splits.relu_lower_activation,
        &proof.activation_backward_lower,
        &proof.pass_lower,
        params,
        sponge,
    ) {
        Ok(_) => {},
        Err(e) => {
            return Err(e);
        },
    }
    match verify_relu_proofs_activation::<P>(
        &splits.relu_upper_activation,
        &proof.activation_backward_upper,
        &proof.pass_upper,
        params,
        sponge,
    ) {
        Ok(_) => {},
        Err(e) => {
            return Err(e);
        },
    }
    match verify_relu_proof_concretize::<P>(
        &splits.relu_lower_concretize,
        lower_dims,
        &proof.pass_lower,
        params,
        sponge,
    ) {
        Ok(_) => {},
        Err(e) => {
            return Err(e);
        },
    }
    verify_relu_proof_concretize::<P>(
        &splits.relu_upper_concretize,
        upper_dims,
        &proof.pass_upper,
        params,
        sponge,
    )
}

// ---- The third part ----

/// The verdict on one direction's products.
pub open spec fn slope_chain_verdict<P: MlPcs>(
    vk: P::VerifierKey,
    steps: Seq<ActivationMatrixStepProof<P>>,
    d: BoundDir,
    coms: TensorCommitments<P>,
    pass: PassCommitments<P>,
    t: Seq<u8>,
) -> Result<(), SnarkError> {
    chain_verdict(
        matrix_check(vk, steps, d, coms, pass),
        matrix_next(vk, steps, d, coms, pass),
        steps.len(),
        t,
    )
}

/// The state after one direction's products.
pub open spec fn slope_chain_state<P: MlPcs>(
    vk: P::VerifierKey,
    steps: Seq<ActivationMatrixStepProof<P>>,
    d: BoundDir,
    coms: TensorCommitments<P>,
    pass: PassCommitments<P>,
    t: Seq<u8>,
) -> Seq<u8> {
    chain_state(matrix_next(vk, steps, d, coms, pass), steps.len(), t)
}

/// The number of variables of a hidden pass's biases.
pub open spec fn bias_vars(n_spec: usize) -> usize {
    vector_vars(n_spec as nat) as usize
}

/// The state after the lower direction's biases.
pub open spec fn ht_s1<P: MlPcs>(
    vk: P::VerifierKey,
    layers: Seq<LayerShape>,
    proof: HiddenFront<P>,
    steps: HiddenSteps<P>,
    t0: Seq<u8>,
) -> Seq<u8> {
    b_acc_state(
        vk,
        steps.b_acc_step_lower@,
        pass_layers(layers, proof.target_layer_idx),
        proof.pass_lower,
        bias_vars(proof.n_spec),
        t0,
    )
}

/// The state after both directions' biases.
pub open spec fn ht_s2<P: MlPcs>(
    vk: P::VerifierKey,
    layers: Seq<LayerShape>,
    proof: HiddenFront<P>,
    steps: HiddenSteps<P>,
    t0: Seq<u8>,
) -> Seq<u8> {
    b_acc_state(
        vk,
        steps.b_acc_step_upper@,
        pass_layers(layers, proof.target_layer_idx),
        proof.pass_upper,
        bias_vars(proof.n_spec),
        ht_s1(vk, layers, proof, steps, t0),
    )
}

/// The state after the lower direction's products.
pub open spec fn ht_s3<P: MlPcs>(
    vk: P::VerifierKey,
    layers: Seq<LayerShape>,
    proof: HiddenFront<P>,
    steps: HiddenSteps<P>,
    coms: TensorCommitments<P>,
    t0: Seq<u8>,
) -> Seq<u8> {
    slope_chain_state(
        vk,
        steps.activation_matrix_lower@,
        BoundDir::Lower,
        coms,
        proof.pass_lower,
        ht_s2(vk, layers, proof, steps, t0),
    )
}

/// The state after the third part.
#[verifier::opaque]
pub open spec fn hidden_steps_state<P: MlPcs>(
    vk: P::VerifierKey,
    layers: Seq<LayerShape>,
    proof: HiddenFront<P>,
    steps: HiddenSteps<P>,
    coms: TensorCommitments<P>,
    t0: Seq<u8>,
) -> Seq<u8> {
    slope_chain_state(
        vk,
        steps.activation_matrix_upper@,
        BoundDir::Upper,
        coms,
        proof.pass_upper,
        ht_s3(vk, layers, proof, steps, coms, t0),
    )
}

/// The verdict on what a pass's bound is checked against: the last step's
/// share and the last bias are there, and the bound's own commitments are the
/// pass's.
pub open spec fn bound_inputs_verdict<P: MlPcs>(
    proof: HiddenFront<P>,
    claimed_lower: P::Commitment,
    claimed_upper: P::Commitment,
) -> Result<(), SnarkError> {
    and_also(
        holds(
            proof.pass_lower.concretize_acc_w is Some,
            SnarkError::ShapeMismatch {
                what: "hidden_pass: missing concretize_acc_w (lower output_bound)",
            },
        ),
        and_also(
            holds(
                proof.pass_upper.concretize_acc_w is Some,
                SnarkError::ShapeMismatch {
                    what: "hidden_pass: missing concretize_acc_w (upper output_bound)",
                },
            ),
            and_also(
                holds(
                    proof.pass_lower.chain_b_acc@.len() > 0,
                    SnarkError::ShapeMismatch {
                        what: "hidden_pass: empty chain_b_acc (lower output_bound)",
                    },
                ),
                and_also(
                    holds(
                        proof.pass_upper.chain_b_acc@.len() > 0,
                        SnarkError::ShapeMismatch {
                            what: "hidden_pass: empty chain_b_acc (upper output_bound)",
                        },
                    ),
                    and_also(
                        holds(
                            P::bytes(claimed_lower) == P::bytes(proof.preact_lower_commit),
                            SnarkError::ArchitectureMismatch {
                                what: "hidden_pass: output_bound_lower.claimed_commit != preact_lower_commit",
                            },
                        ),
                        holds(
                            P::bytes(claimed_upper) == P::bytes(proof.preact_upper_commit),
                            SnarkError::ArchitectureMismatch {
                                what: "hidden_pass: output_bound_upper.claimed_commit != preact_upper_commit",
                            },
                        ),
                    ),
                ),
            ),
        ),
    )
}

/// The verdict on the third part: the running biases, the products, and what
/// the bound is checked against.
#[verifier::opaque]
pub open spec fn hidden_steps_verdict<P: MlPcs>(
    vk: P::VerifierKey,
    layers: Seq<LayerShape>,
    proof: HiddenFront<P>,
    steps: HiddenSteps<P>,
    coms: TensorCommitments<P>,
    claimed_lower: P::Commitment,
    claimed_upper: P::Commitment,
    t0: Seq<u8>,
) -> Result<(), SnarkError> {
    let low = pass_layers(layers, proof.target_layer_idx);
    let nv = bias_vars(proof.n_spec);
    and_also(
        b_acc_verdict(vk, steps.b_acc_step_lower@, low, proof.pass_lower, nv, t0),
        and_also(
            b_acc_verdict(
                vk,
                steps.b_acc_step_upper@,
                low,
                proof.pass_upper,
                nv,
                ht_s1(vk, layers, proof, steps, t0),
            ),
            and_also(
                slope_chain_verdict(
                    vk,
                    steps.activation_matrix_lower@,
                    BoundDir::Lower,
                    coms,
                    proof.pass_lower,
                    ht_s2(vk, layers, proof, steps, t0),
                ),
                and_also(
                    slope_chain_verdict(
                        vk,
                        steps.activation_matrix_upper@,
                        BoundDir::Upper,
                        coms,
                        proof.pass_upper,
                        ht_s3(vk, layers, proof, steps, coms, t0),
                    ),
                    bound_inputs_verdict(proof, claimed_lower, claimed_upper),
                ),
            ),
        ),
    )
}

/// Passes of canonical lengths have the commitments of their running biases.
proof fn lemma_events_there<P: MlPcs>(layers: Seq<LayerShape>, target: usize, pass: PassCommitments<P>)
    requires
        architecture_fits(layers),
        target < layers.len(),
        pass_lengths_verdict(pass, pass_layers(layers, target)) is Ok,
    ensures
        forall|p: int|
            0 <= p < pass_layers(layers, target).len() ==> event_there(
                pass,
                #[trigger] canonical_events(pass_layers(layers, target))[p],
            ),
{
    let low = pass_layers(layers, target);
    let n = low.len();
    assert forall|p: int| 0 <= p < n implies event_there(
        pass,
        #[trigger] canonical_events(low)[p],
    ) by {
        let l = (n - 1 - p) as nat;
        let e = canonical_events(low)[p];
        lemma_kind_at(low, e.kind, l);
        lemma_layer_counts(low, l + 1);
    }
}

/// Whether two byte strings are the same.
fn same_bytes(a: &Vec<u8>, b: &Vec<u8>) -> (r: bool)
    ensures
        r == (a@ == b@),
{
    if a.len() != b.len() {
        return false;
    }
    let mut i: usize = 0;
    while i < a.len()
        invariant
            i <= a@.len(),
            a@.len() == b@.len(),
            forall|k: int| 0 <= k < i ==> #[trigger] a@[k] == b@[k],
        decreases a@.len() - i,
    {
        if a[i] != b[i] {
            return false;
        }
        i += 1;
    }
    assert(a@ =~= b@);
    true
}

/// Check what a pass's bound is checked against.
fn check_bound_inputs<P: MlPcs>(
    proof: &HiddenFront<P>,
    claimed_lower: &P::Commitment,
    claimed_upper: &P::Commitment,
) -> (r: Result<(), SnarkError>)
    ensures
        r == bound_inputs_verdict(*proof, *claimed_lower, *claimed_upper),
{
    if proof.pass_lower.concretize_acc_w.is_none() {
        return Err(
            SnarkError::ShapeMismatch {
                what: "hidden_pass: missing concretize_acc_w (lower output_bound)",
            },
        );
    }
    if proof.pass_upper.concretize_acc_w.is_none() {
        return Err(
            SnarkError::ShapeMismatch {
                what: "hidden_pass: missing concretize_acc_w (upper output_bound)",
            },
        );
    }
    if proof.pass_lower.chain_b_acc.len() == 0 {
        return Err(
            SnarkError::ShapeMismatch {
                what: "hidden_pass: empty chain_b_acc (lower output_bound)",
            },
        );
    }
    if proof.pass_upper.chain_b_acc.len() == 0 {
        return Err(
            SnarkError::ShapeMismatch {
                what: "hidden_pass: empty chain_b_acc (upper output_bound)",
            },
        );
    }
    let (lo_a, lo_b): (Vec<u8>, Vec<u8>) = (
        P::to_bytes(claimed_lower),
        P::to_bytes(&proof.preact_lower_commit),
    );
    if !same_bytes(&lo_a, &lo_b) {
        return Err(
            SnarkError::ArchitectureMismatch {
                what: "hidden_pass: output_bound_lower.claimed_commit != preact_lower_commit",
            },
        );
    }
    let (up_a, up_b): (Vec<u8>, Vec<u8>) = (
        P::to_bytes(claimed_upper),
        P::to_bytes(&proof.preact_upper_commit),
    );
    if !same_bytes(&up_a, &up_b) {
        return Err(
            SnarkError::ArchitectureMismatch {
                what: "hidden_pass: output_bound_upper.claimed_commit != preact_upper_commit",
            },
        );
    }
    Ok(())
}

/// Check the third part of a hidden pass, after the check of its rescalings:
/// the running biases, the products, and what the bound is checked against.
/// The bound's proofs carry the given commitments.
pub fn verify_hidden_steps<P: MlPcs>(
    arch: &NetworkArchitecture,
    proof: &HiddenFront<P>,
    steps: &HiddenSteps<P>,
    commitments: &TensorCommitments<P>,
    claimed_lower: &P::Commitment,
    claimed_upper: &P::Commitment,
    params: &SnarkParams<P>,
    sponge: &mut Transcript,
) -> (r: Result<(), SnarkError>)
    requires
        architecture_fits(arch.layers@),
        hidden_shape_verdict(arch.layers@, *proof) is Ok,
    ensures
        r == hidden_steps_verdict(
            params.verifier_key,
            arch.layers@,
            *proof,
            *steps,
            *commitments,
            *claimed_lower,
            *claimed_upper,
            state_of(*old(sponge)),
        ),
        r is Ok ==> state_of(*final(sponge)) == hidden_steps_state(
            params.verifier_key,
            arch.layers@,
            *proof,
            *steps,
            *commitments,
            state_of(*old(sponge)),
        ),
{
    proof {
        reveal(hidden_steps_verdict);
        reveal(hidden_steps_state);
        reveal(hidden_shape_verdict);
        assert(output_width(arch.layers@[proof.target_layer_idx as int]) == proof.n_spec);
        lemma_events_there(arch.layers@, proof.target_layer_idx, proof.pass_lower);
        lemma_events_there(arch.layers@, proof.target_layer_idx, proof.pass_upper);
    }
    let low: NetworkArchitecture = arch.truncate_to(proof.target_layer_idx);
    let nv: usize = native_vector_n_vars(proof.n_spec);
    match verify_b_acc_step_proofs::<P>(
        &steps.b_acc_step_lower,
        &proof.pass_lower,
        &low,
        nv,
        params,
        sponge,
    ) {
        Ok(_) => {},
        Err(e) => {
            return Err(e);
        },
    }
    match verify_b_acc_step_proofs::<P>(
        &steps.b_acc_step_upper,
        &proof.pass_upper,
        &low,
        nv,
        params,
        sponge,
    ) {
        Ok(_) => {},
        Err(e) => {
            return Err(e);
        },
    }
    match verify_activation_matrix_chain::<P>(
        &steps.activation_matrix_lower,
        BoundDir::Lower,
        &proof.pass_lower,
        commitments,
        params,
        sponge,
    ) {
        Ok(_) => {},
        Err(e) => {
            return Err(e);
        },
    }
    match verify_activation_matrix_chain::<P>(
        &steps.activation_matrix_upper,
        BoundDir::Upper,
        &proof.pass_upper,
        commitments,
        params,
        sponge,
    ) {
        Ok(_) => {},
        Err(e) => {
            return Err(e);
        },
    }
    check_bound_inputs::<P>(proof, claimed_lower, claimed_upper)
}

} // verus!
