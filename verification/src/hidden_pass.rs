//! The passes that prove the preactivation bounds of hidden layers.
//!
//! For every linear layer that an activation follows, a shorter pass starts
//! from the identity at the layer's output and runs down to the input box. A
//! pass is checked in three parts; between them stand the checks of its last
//! step and of its rescalings, and after them that of its bound, which the
//! caller makes on the same transcript.

use crate::activation_matrix::ActivationMatrixStepProof;
use crate::activation_step::{
    ActivationLayerStepProof, activation_check, activation_coms_there, activation_next,
    verify_activation_backward_chain,
};
use crate::architecture::{
    ActivationShape, LinearShape, activation_chain_verdict, activation_indices, activation_shape,
    check_activation_chain_shape, check_linear_chain_shape, check_pass_commit_lengths, cols_at,
    input_width, law_steps_partition, lemma_cols_fit, linear_chain_verdict, linear_indices,
    linear_shape, output_width, pass_lengths_verdict, widths_fit,
};
use crate::bias_accumulator::BAccStepProof;
use crate::chain::{chain_state, chain_verdict};
use crate::commit::{PassCommitments, TensorCommitments};
use crate::errors::{SnarkError, and_also, holds};
use crate::hidden_identity::{
    ChainInitFromIdentityProof, identity_init_state, identity_init_verdict,
    verify_chain_init_from_identity,
};
use crate::linear_chain::{
    LinearLayerStepProof, linear_coms_there, linear_steps_state, linear_steps_verdict,
    verify_linear_backward_chain,
};
use crate::linear_step::dims_fit;
use crate::mle::ceil_log2;
use crate::network::{LayerShape, NetworkArchitecture, Property, width_after};
use crate::params::SnarkParams;
use crate::pass_laws::law_hidden_targets;
use crate::pcs::{MlPcs, abs_com, absorb_commitment};
use crate::relu_chain::claimed_shapes;
use crate::relu_step::ReluStepProof;
use crate::shapes::{matrix_vars, native_vector_n_vars, vector_vars};
use crate::trace::BoundDir;
use crate::transcript::{abs_u64, absorb_u64, state_of};
use ark_crypto_primitives::sponge::merlin::Transcript;
use vstd::arithmetic::power2::{lemma_pow2_unfold, pow2};
use vstd::prelude::*;

verus! {

/// The first part of a hidden pass's proof: its commitments, its starts from
/// the identity, its linear steps and the biases of its activation steps.
pub struct HiddenFront<P: MlPcs> {
    pub target_layer_idx: usize,
    pub n_spec: usize,
    pub pass_lower: PassCommitments<P>,
    pub pass_upper: PassCommitments<P>,
    pub preact_lower_commit: P::Commitment,
    pub preact_upper_commit: P::Commitment,
    pub preact_n_vars: u32,
    pub chain_init_lower: ChainInitFromIdentityProof<P>,
    pub chain_init_upper: ChainInitFromIdentityProof<P>,
    pub linear_backward_lower: Vec<LinearLayerStepProof<P>>,
    pub linear_backward_upper: Vec<LinearLayerStepProof<P>>,
    pub activation_backward_lower: Vec<ActivationLayerStepProof<P>>,
    pub activation_backward_upper: Vec<ActivationLayerStepProof<P>>,
}

/// The second part: the splits of its steps into signs.
pub struct HiddenSplits<P: MlPcs> {
    pub relu_lower_activation: Vec<ReluStepProof<P>>,
    pub relu_upper_activation: Vec<ReluStepProof<P>>,
    pub relu_lower_concretize: ReluStepProof<P>,
    pub relu_upper_concretize: ReluStepProof<P>,
}

/// The third part: its running biases and its products.
pub struct HiddenSteps<P: MlPcs> {
    pub b_acc_step_lower: Vec<BAccStepProof<P>>,
    pub b_acc_step_upper: Vec<BAccStepProof<P>>,
    pub activation_matrix_lower: Vec<ActivationMatrixStepProof<P>>,
    pub activation_matrix_upper: Vec<ActivationMatrixStepProof<P>>,
}

/// The proof of one hidden pass. The parts that are checked elsewhere are
/// carried as they are: the last step's (`C`), the rescalings' (`R`) and the
/// bound's (`O`).
pub struct HiddenLayerPassProof<P: MlPcs, C, R, O> {
    pub front: HiddenFront<P>,
    pub concretize_lower: C,
    pub concretize_upper: C,
    pub splits: HiddenSplits<P>,
    pub rescale_lower: R,
    pub rescale_upper: R,
    pub steps: HiddenSteps<P>,
    pub output_bound_lower: O,
    pub output_bound_upper: O,
}

/// Whether a layer is a linear one that an activation follows.
pub open spec fn is_hidden_target(layers: Seq<LayerShape>, i: int) -> bool {
    &&& 0 <= i < layers.len()
    &&& layers[i] is Linear
    &&& i + 1 < layers.len()
    &&& layers[i + 1] is Activation
}

/// The layers among the first `k` that hidden passes start from, in order.
pub open spec fn hidden_targets(layers: Seq<LayerShape>, k: nat) -> Seq<usize>
    decreases k,
{
    if k == 0 {
        Seq::empty()
    } else {
        let rest = hidden_targets(layers, (k - 1) as nat);
        if is_hidden_target(layers, k - 1) {
            rest.push((k - 1) as usize)
        } else {
            rest
        }
    }
}

/// The layers that hidden passes start from, in order.
pub fn hidden_linear_indices(arch: &NetworkArchitecture) -> (r: Vec<usize>)
    ensures
        r@ == hidden_targets(arch.layers@, arch.layers@.len()),
        forall|i: int, j: int| 0 <= i < j < r@.len() ==> r@[i] < r@[j],
        forall|j: int|
            #![trigger r@[j]]
            0 <= j < r@.len() ==> {
                &&& r@[j] + 1 < arch.layers@.len()
                &&& arch.layers@[r@[j] as int] is Linear
                &&& arch.layers@[r@[j] + 1] is Activation
            },
        forall|i: int|
            #![trigger arch.layers@[i]]
            0 <= i && i + 1 < arch.layers@.len() && arch.layers@[i] is Linear && arch.layers@[i
                + 1] is Activation ==> r@.contains(i as usize),
{
    let n: usize = arch.layers.len();
    let mut out: Vec<usize> = Vec::new();
    let mut idx: usize = 0;
    while idx < n
        invariant
            idx <= n,
            n == arch.layers@.len(),
            out@ == hidden_targets(arch.layers@, idx as nat),
        decreases n - idx,
    {
        if let LayerShape::Linear { in_dim: _, out_dim: _ } = arch.layers[idx] {
            if idx + 1 < n {
                if let LayerShape::Activation { kind: _ } = arch.layers[idx + 1] {
                    out.push(idx);
                }
            }
        }
        idx += 1;
    }
    proof {
        law_hidden_targets(arch.layers@, arch.layers@.len());
    }
    out
}

/// The state after a hidden pass's tag.
pub open spec fn tagged(t0: Seq<u8>, target: usize, n_spec: usize) -> Seq<u8> {
    abs_u64(abs_u64(t0, target as u64), n_spec as u64)
}

/// Bind the transcript to which hidden pass follows.
pub fn absorb_hidden_pass_tag(sponge: &mut Transcript, target_layer_idx: usize, n_spec: usize)
    ensures
        state_of(*final(sponge)) == tagged(state_of(*old(sponge)), target_layer_idx, n_spec),
{
    absorb_u64(sponge, target_layer_idx as u64);
    absorb_u64(sponge, n_spec as u64);
}

// ---- Shapes ----

/// The claimed shapes of the linear steps.
pub open spec fn claimed_linear<P: MlPcs>(steps: Seq<LinearLayerStepProof<P>>) -> Seq<LinearShape> {
    Seq::new(
        steps.len(),
        |i: int| (steps[i].layer_idx, steps[i].a_old_log_dims, steps[i].w_log_dims),
    )
}

/// A property with the height of a hidden pass.
pub open spec fn hidden_property(n_spec: usize, layers: Seq<LayerShape>) -> Property {
    Property { rows: n_spec, cols: width_after(layers, layers.len()) as usize }
}

/// A property with the height of a hidden pass.
fn synthetic_property(n_spec: usize, arch: &NetworkArchitecture) -> (r: Property)
    ensures
        r == hidden_property(n_spec, arch.layers@),
{
    Property { rows: n_spec, cols: arch.output_dim() }
}

/// Whether the claimed shapes of the linear steps are those of a hidden pass
/// over an architecture.
pub fn check_linear_chain_shape_for_truncated<P: MlPcs>(
    steps: &Vec<LinearLayerStepProof<P>>,
    arch: &NetworkArchitecture,
    n_spec: usize,
) -> (r: Result<(), SnarkError>)
    requires
        widths_fit(arch.layers@, hidden_property(n_spec, arch.layers@)),
    ensures
        r == linear_chain_verdict(
            claimed_linear(steps@),
            arch.layers@,
            hidden_property(n_spec, arch.layers@),
        ),
{
    let mut claimed: Vec<LinearShape> = Vec::with_capacity(steps.len());
    let mut i: usize = 0;
    while i < steps.len()
        invariant
            i <= steps@.len(),
            claimed@.len() == i,
            forall|k: int| 0 <= k < i ==> #[trigger] claimed@[k] == claimed_linear(steps@)[k],
        decreases steps@.len() - i,
    {
        claimed.push((steps[i].layer_idx, steps[i].a_old_log_dims, steps[i].w_log_dims));
        i += 1;
    }
    assert(claimed@ =~= claimed_linear(steps@));
    let property: Property = synthetic_property(n_spec, arch);
    check_linear_chain_shape(claimed.as_slice(), arch, &property)
}

/// Whether the claimed shapes of the activation steps are those of a hidden
/// pass over an architecture.
pub fn check_activation_chain_shape_for_truncated<P: MlPcs>(
    steps: &Vec<ActivationLayerStepProof<P>>,
    arch: &NetworkArchitecture,
    n_spec: usize,
) -> (r: Result<(), SnarkError>)
    requires
        widths_fit(arch.layers@, hidden_property(n_spec, arch.layers@)),
    ensures
        r == activation_chain_verdict(
            claimed_shapes(steps@),
            arch.layers@,
            hidden_property(n_spec, arch.layers@),
        ),
{
    let mut claimed: Vec<ActivationShape> = Vec::with_capacity(steps.len());
    let mut i: usize = 0;
    while i < steps.len()
        invariant
            i <= steps@.len(),
            claimed@.len() == i,
            forall|k: int| 0 <= k < i ==> #[trigger] claimed@[k] == claimed_shapes(steps@)[k],
        decreases steps@.len() - i,
    {
        claimed.push((steps[i].layer_idx, steps[i].a_old_log_dims));
        i += 1;
    }
    assert(claimed@ =~= claimed_shapes(steps@));
    let property: Property = synthetic_property(n_spec, arch);
    check_activation_chain_shape(claimed.as_slice(), arch, &property)
}

/// The layers that a hidden pass runs through.
pub open spec fn pass_layers(layers: Seq<LayerShape>, target: usize) -> Seq<LayerShape> {
    layers.take(target + 1)
}

/// The verdict on the shapes of a hidden pass's proof: its target, its chains,
/// its commitments, its steps and its bounds.
#[verifier::opaque]
pub open spec fn hidden_shape_verdict<P: MlPcs>(
    layers: Seq<LayerShape>,
    proof: HiddenFront<P>,
) -> Result<(), SnarkError> {
    let target = proof.target_layer_idx;
    let low = pass_layers(layers, target);
    let prop = hidden_property(proof.n_spec, low);
    and_also(
        holds(
            target < layers.len() && layers[target as int] is Linear,
            SnarkError::ArchitectureMismatch { what: "hidden_pass: target_layer_idx not Linear" },
        ),
        and_also(
            holds(
                output_width(layers[target as int]) == proof.n_spec,
                SnarkError::ArchitectureMismatch {
                    what: "hidden_pass: n_spec != target Linear output dim",
                },
            ),
            and_also(
                holds(
                    proof.pass_lower.chain_a@.len() == target + 2
                        && proof.pass_upper.chain_a@.len() == target + 2,
                    SnarkError::ArchitectureMismatch {
                        what: "hidden_pass: chain_a length != target+2",
                    },
                ),
                and_also(
                    pass_lengths_verdict(proof.pass_lower, low),
                    and_also(
                        pass_lengths_verdict(proof.pass_upper, low),
                        and_also(
                            linear_chain_verdict(
                                claimed_linear(proof.linear_backward_lower@),
                                low,
                                prop,
                            ),
                            and_also(
                                linear_chain_verdict(
                                    claimed_linear(proof.linear_backward_upper@),
                                    low,
                                    prop,
                                ),
                                and_also(
                                    activation_chain_verdict(
                                        claimed_shapes(proof.activation_backward_lower@),
                                        low,
                                        prop,
                                    ),
                                    and_also(
                                        activation_chain_verdict(
                                            claimed_shapes(proof.activation_backward_upper@),
                                            low,
                                            prop,
                                        ),
                                        holds(
                                            proof.preact_n_vars == vector_vars(
                                                proof.n_spec as nat,
                                            ),
                                            SnarkError::ArchitectureMismatch {
                                                what: "hidden_pass: preact_n_vars != native_vector_n_vars(n_spec)",
                                            },
                                        ),
                                    ),
                                ),
                            ),
                        ),
                    ),
                ),
            ),
        ),
    )
}

/// Whether every width of an architecture has a next power of two.
pub open spec fn architecture_fits(layers: Seq<LayerShape>) -> bool {
    &&& layers.len() < usize::MAX - 1
    &&& forall|i: int|
        0 <= i < layers.len() ==> input_width(#[trigger] layers[i]) <= usize::MAX / 2 + 1
            && output_width(layers[i]) <= usize::MAX / 2 + 1
}

/// Whether the identity of a target layer's width can be addressed as a table.
pub open spec fn target_addressable(layers: Seq<LayerShape>, target: usize) -> bool {
    target < layers.len() && layers[target as int] is Linear ==> {
        let w = output_width(layers[target as int]) as nat;
        pow2(matrix_vars(w, w)) <= usize::MAX
    }
}

/// Check the shapes of a hidden pass's proof.
fn check_hidden_shape<P: MlPcs>(
    arch: &NetworkArchitecture,
    proof: &HiddenFront<P>,
) -> (r: Result<(), SnarkError>)
    requires
        architecture_fits(arch.layers@),
    ensures
        r == hidden_shape_verdict(arch.layers@, *proof),
{
    proof {
        reveal(hidden_shape_verdict);
    }
    let target: usize = proof.target_layer_idx;
    if target >= arch.layers.len() {
        return Err(
            SnarkError::ArchitectureMismatch { what: "hidden_pass: target_layer_idx not Linear" },
        );
    }
    let expected_n_spec: usize = match arch.layers[target] {
        LayerShape::Linear { in_dim: _, out_dim } => out_dim,
        LayerShape::Activation { kind: _ } => {
            return Err(
                SnarkError::ArchitectureMismatch {
                    what: "hidden_pass: target_layer_idx not Linear",
                },
            );
        },
    };
    if expected_n_spec != proof.n_spec {
        return Err(
            SnarkError::ArchitectureMismatch {
                what: "hidden_pass: n_spec != target Linear output dim",
            },
        );
    }
    if proof.pass_lower.chain_a.len() != target + 2 || proof.pass_upper.chain_a.len() != target
        + 2 {
        return Err(
            SnarkError::ArchitectureMismatch { what: "hidden_pass: chain_a length != target+2" },
        );
    }
    let low: NetworkArchitecture = arch.truncate_to(target);
    proof {
        assert(output_width(arch.layers@[target as int]) == proof.n_spec);
        assert forall|i: int| 0 <= i < low.layers@.len() implies input_width(
            #[trigger] low.layers@[i],
        ) <= usize::MAX / 2 + 1 && output_width(low.layers@[i]) <= usize::MAX / 2 + 1 by {
            assert(low.layers@[i] == arch.layers@[i]);
        }
    }
    match check_pass_commit_lengths::<P>(&proof.pass_lower, &low) {
        Ok(_) => {},
        Err(e) => {
            return Err(e);
        },
    }
    match check_pass_commit_lengths::<P>(&proof.pass_upper, &low) {
        Ok(_) => {},
        Err(e) => {
            return Err(e);
        },
    }
    match check_linear_chain_shape_for_truncated::<P>(
        &proof.linear_backward_lower,
        &low,
        proof.n_spec,
    ) {
        Ok(_) => {},
        Err(e) => {
            return Err(e);
        },
    }
    match check_linear_chain_shape_for_truncated::<P>(
        &proof.linear_backward_upper,
        &low,
        proof.n_spec,
    ) {
        Ok(_) => {},
        Err(e) => {
            return Err(e);
        },
    }
    match check_activation_chain_shape_for_truncated::<P>(
        &proof.activation_backward_lower,
        &low,
        proof.n_spec,
    ) {
        Ok(_) => {},
        Err(e) => {
            return Err(e);
        },
    }
    match check_activation_chain_shape_for_truncated::<P>(
        &proof.activation_backward_upper,
        &low,
        proof.n_spec,
    ) {
        Ok(_) => {},
        Err(e) => {
            return Err(e);
        },
    }
    if proof.preact_n_vars as usize != native_vector_n_vars(proof.n_spec) {
        return Err(
            SnarkError::ArchitectureMismatch {
                what: "hidden_pass: preact_n_vars != native_vector_n_vars(n_spec)",
            },
        );
    }
    Ok(())
}

// ---- What the shapes give ----

/// Whether every layer of an architecture has its shared commitments.
pub open spec fn layers_have_coms<P: MlPcs>(
    layers: Seq<LayerShape>,
    coms: TensorCommitments<P>,
) -> bool {
    &&& coms.weight@.len() >= layers.len()
    &&& coms.bias@.len() >= layers.len()
    &&& coms.relaxation@.len() >= layers.len()
    &&& forall|i: int|
        0 <= i < layers.len() && (#[trigger] layers[i]) is Linear ==> coms.weight@[i] is Some
            && coms.bias@[i] is Some
}

/// The logarithms of an architecture's widths are small.
pub proof fn lemma_log_small(n: nat)
    requires
        n <= usize::MAX / 2 + 1,
    ensures
        ceil_log2(n) < 64,
{
    vstd::arithmetic::power2::lemma2_to64_rest();
    lemma_ceil_log2_below(n, 63);
}

/// A number of at most `2^k` has a logarithm of at most `k`.
proof fn lemma_ceil_log2_below(n: nat, k: nat)
    requires
        n <= pow2(k),
    ensures
        ceil_log2(n) <= k,
    decreases k,
{
    vstd::arithmetic::power2::lemma2_to64();
    if n > 1 {
        if k == 0 {
        } else {
            lemma_pow2_unfold(k);
            lemma_ceil_log2_below((n + 1) / 2, (k - 1) as nat);
        }
    }
}

/// Canonical linear steps have their commitments, and axes that can be drawn.
proof fn lemma_linear_steps_there<P: MlPcs>(
    layers: Seq<LayerShape>,
    target: usize,
    n_spec: usize,
    steps: Seq<LinearLayerStepProof<P>>,
    pass: PassCommitments<P>,
    coms: TensorCommitments<P>,
)
    requires
        architecture_fits(layers),
        target < layers.len(),
        n_spec <= usize::MAX / 2 + 1,
        layers_have_coms(layers, coms),
        pass_lengths_verdict(pass, pass_layers(layers, target)) is Ok,
        linear_chain_verdict(
            claimed_linear(steps),
            pass_layers(layers, target),
            hidden_property(n_spec, pass_layers(layers, target)),
        ) is Ok,
    ensures
        forall|i: int|
            0 <= i < steps.len() ==> linear_coms_there(
                coms,
                pass,
                (#[trigger] steps[i]).layer_idx,
                i,
            ) && dims_fit(steps[i].a_old_log_dims, steps[i].w_log_dims),
{
    let low = pass_layers(layers, target);
    let n = low.len();
    let idx = linear_indices(low, n);
    law_steps_partition(low, n);
    assert forall|i: int| 0 <= i < steps.len() implies linear_coms_there(
        coms,
        pass,
        (#[trigger] steps[i]).layer_idx,
        i,
    ) && dims_fit(steps[i].a_old_log_dims, steps[i].w_log_dims) by {
        let c = claimed_linear(steps)[i];
        assert(c == linear_shape(low, ceil_log2(n_spec as nat), idx[i]));
        assert(idx.contains(idx[i]));
        let l = idx[i] as int;
        assert(low[l] == layers[l]);
        assert(layers[l] is Linear);
        lemma_log_small(n_spec as nat);
        lemma_log_small(output_width(layers[l]));
        lemma_log_small(input_width(layers[l]));
    }
}

/// Canonical activation steps have their commitments, and axes that can be
/// drawn and counted.
proof fn lemma_activation_steps_there<P: MlPcs>(
    layers: Seq<LayerShape>,
    target: usize,
    n_spec: usize,
    steps: Seq<ActivationLayerStepProof<P>>,
    pass: PassCommitments<P>,
    coms: TensorCommitments<P>,
)
    requires
        architecture_fits(layers),
        target < layers.len(),
        n_spec <= usize::MAX / 2 + 1,
        layers_have_coms(layers, coms),
        pass_lengths_verdict(pass, pass_layers(layers, target)) is Ok,
        activation_chain_verdict(
            claimed_shapes(steps),
            pass_layers(layers, target),
            hidden_property(n_spec, pass_layers(layers, target)),
        ) is Ok,
    ensures
        forall|i: int|
            0 <= i < steps.len() ==> activation_coms_there(#[trigger] steps[i], coms, pass, i),
{
    let low = pass_layers(layers, target);
    let n = low.len();
    let idx = activation_indices(low, n);
    law_steps_partition(low, n);
    assert forall|i: int| 0 <= i < steps.len() implies activation_coms_there(
        #[trigger] steps[i],
        coms,
        pass,
        i,
    ) by {
        let c = claimed_shapes(steps)[i];
        assert(c == activation_shape(low, ceil_log2(n_spec as nat), idx[i]));
        assert(idx.contains(idx[i]));
        assert forall|k: int| 0 <= k < low.len() implies input_width(#[trigger] low[k])
            <= usize::MAX / 2 + 1 && output_width(low[k]) <= usize::MAX / 2 + 1 by {
            assert(low[k] == layers[k]);
        }
        lemma_cols_fit(low, (idx[i] + 1) as nat, (usize::MAX / 2 + 1) as nat);
        lemma_log_small(n_spec as nat);
        lemma_log_small(cols_at(low, (idx[i] + 1) as nat));
    }
}

// ---- The first part ----

/// The state before the first check.
pub open spec fn hf_s0<P: MlPcs>(proof: HiddenFront<P>, t0: Seq<u8>) -> Seq<
    u8,
> {
    abs_com::<P>(
        abs_com::<P>(
            tagged(t0, proof.target_layer_idx, proof.n_spec),
            proof.preact_lower_commit,
        ),
        proof.preact_upper_commit,
    )
}

/// The state after the lower start from the identity.
pub open spec fn hf_s1<P: MlPcs>(
    vk: P::VerifierKey,
    proof: HiddenFront<P>,
    t0: Seq<u8>,
) -> Seq<u8> {
    identity_init_state(
        vk,
        proof.chain_init_lower,
        proof.pass_lower,
        proof.target_layer_idx,
        proof.n_spec as nat,
        hf_s0(proof, t0),
    )
}

/// The state after both starts from the identity.
pub open spec fn hf_s2<P: MlPcs>(
    vk: P::VerifierKey,
    proof: HiddenFront<P>,
    t0: Seq<u8>,
) -> Seq<u8> {
    identity_init_state(
        vk,
        proof.chain_init_upper,
        proof.pass_upper,
        proof.target_layer_idx,
        proof.n_spec as nat,
        hf_s1(vk, proof, t0),
    )
}

/// The state after the lower direction's linear steps.
pub open spec fn hf_s3<P: MlPcs>(
    vk: P::VerifierKey,
    proof: HiddenFront<P>,
    coms: TensorCommitments<P>,
    t0: Seq<u8>,
) -> Seq<u8> {
    linear_steps_state(
        vk,
        proof.linear_backward_lower@,
        coms,
        proof.pass_lower,
        proof.linear_backward_lower@.len(),
        hf_s2(vk, proof, t0),
    )
}

/// The state after both directions' linear steps.
pub open spec fn hf_s4<P: MlPcs>(
    vk: P::VerifierKey,
    proof: HiddenFront<P>,
    coms: TensorCommitments<P>,
    t0: Seq<u8>,
) -> Seq<u8> {
    linear_steps_state(
        vk,
        proof.linear_backward_upper@,
        coms,
        proof.pass_upper,
        proof.linear_backward_upper@.len(),
        hf_s3(vk, proof, coms, t0),
    )
}

/// The verdict on one direction's activation steps.
pub open spec fn bias_chain_verdict<P: MlPcs>(
    vk: P::VerifierKey,
    steps: Seq<ActivationLayerStepProof<P>>,
    d: BoundDir,
    coms: TensorCommitments<P>,
    pass: PassCommitments<P>,
    t: Seq<u8>,
) -> Result<(), SnarkError> {
    chain_verdict(
        activation_check(vk, steps, d, coms, pass),
        activation_next(vk, steps, d, coms, pass),
        steps.len(),
        t,
    )
}

/// The state after one direction's activation steps.
pub open spec fn bias_chain_state<P: MlPcs>(
    vk: P::VerifierKey,
    steps: Seq<ActivationLayerStepProof<P>>,
    d: BoundDir,
    coms: TensorCommitments<P>,
    pass: PassCommitments<P>,
    t: Seq<u8>,
) -> Seq<u8> {
    chain_state(activation_next(vk, steps, d, coms, pass), steps.len(), t)
}

/// The state after the lower direction's activation steps.
pub open spec fn hf_s5<P: MlPcs>(
    vk: P::VerifierKey,
    proof: HiddenFront<P>,
    coms: TensorCommitments<P>,
    t0: Seq<u8>,
) -> Seq<u8> {
    bias_chain_state(
        vk,
        proof.activation_backward_lower@,
        BoundDir::Lower,
        coms,
        proof.pass_lower,
        hf_s4(vk, proof, coms, t0),
    )
}

/// The state after the first part.
#[verifier::opaque]
pub open spec fn hidden_front_state<P: MlPcs>(
    vk: P::VerifierKey,
    proof: HiddenFront<P>,
    coms: TensorCommitments<P>,
    t0: Seq<u8>,
) -> Seq<u8> {
    bias_chain_state(
        vk,
        proof.activation_backward_upper@,
        BoundDir::Upper,
        coms,
        proof.pass_upper,
        hf_s5(vk, proof, coms, t0),
    )
}

/// The verdict on the first part: the shapes, the starts from the identity,
/// the linear steps and the activation steps.
#[verifier::opaque]
pub open spec fn hidden_front_verdict<P: MlPcs>(
    vk: P::VerifierKey,
    layers: Seq<LayerShape>,
    proof: HiddenFront<P>,
    coms: TensorCommitments<P>,
    one: i128,
    t0: Seq<u8>,
) -> Result<(), SnarkError> {
    let (target, n) = (proof.target_layer_idx, proof.n_spec as nat);
    and_also(
        hidden_shape_verdict(layers, proof),
        and_also(
            identity_init_verdict(
                vk,
                proof.chain_init_lower,
                proof.pass_lower,
                target,
                n,
                one,
                hf_s0(proof, t0),
            ),
            and_also(
                identity_init_verdict(
                    vk,
                    proof.chain_init_upper,
                    proof.pass_upper,
                    target,
                    n,
                    one,
                    hf_s1(vk, proof, t0),
                ),
                and_also(
                    linear_steps_verdict(
                        vk,
                        proof.linear_backward_lower@,
                        coms,
                        proof.pass_lower,
                        proof.linear_backward_lower@.len(),
                        hf_s2(vk, proof, t0),
                    ),
                    and_also(
                        linear_steps_verdict(
                            vk,
                            proof.linear_backward_upper@,
                            coms,
                            proof.pass_upper,
                            proof.linear_backward_upper@.len(),
                            hf_s3(vk, proof, coms, t0),
                        ),
                        and_also(
                            bias_chain_verdict(
                                vk,
                                proof.activation_backward_lower@,
                                BoundDir::Lower,
                                coms,
                                proof.pass_lower,
                                hf_s4(vk, proof, coms, t0),
                            ),
                            bias_chain_verdict(
                                vk,
                                proof.activation_backward_upper@,
                                BoundDir::Upper,
                                coms,
                                proof.pass_upper,
                                hf_s5(vk, proof, coms, t0),
                            ),
                        ),
                    ),
                ),
            ),
        ),
    )
}

/// Check the first part of a hidden pass: its shapes, its starts from the
/// identity with `one_code` on the diagonal, and its steps.
pub fn verify_hidden_front<P: MlPcs>(
    arch: &NetworkArchitecture,
    proof: &HiddenFront<P>,
    commitments: &TensorCommitments<P>,
    one_code: i128,
    params: &SnarkParams<P>,
    sponge: &mut Transcript,
) -> (r: Result<(), SnarkError>)
    requires
        architecture_fits(arch.layers@),
        layers_have_coms(arch.layers@, *commitments),
        target_addressable(arch.layers@, proof.target_layer_idx),
    ensures
        r == hidden_front_verdict(
            params.verifier_key,
            arch.layers@,
            *proof,
            *commitments,
            one_code,
            state_of(*old(sponge)),
        ),
        hidden_shape_verdict(arch.layers@, *proof) is Err ==> state_of(*final(sponge)) == state_of(
            *old(sponge),
        ),
        r is Ok ==> state_of(*final(sponge)) == hidden_front_state(
            params.verifier_key,
            *proof,
            *commitments,
            state_of(*old(sponge)),
        ),
        r is Ok ==> hidden_shape_verdict(arch.layers@, *proof) is Ok,
{
    proof {
        reveal(hidden_front_verdict);
        reveal(hidden_front_state);
    }
    match check_hidden_shape::<P>(arch, proof) {
        Ok(_) => {},
        Err(e) => {
            return Err(e);
        },
    }
    let target: usize = proof.target_layer_idx;
    proof {
        reveal(hidden_shape_verdict);
        let layers = arch.layers@;
        assert(output_width(layers[target as int]) == proof.n_spec);
        lemma_linear_steps_there(
            layers,
            target,
            proof.n_spec,
            proof.linear_backward_lower@,
            proof.pass_lower,
            *commitments,
        );
        lemma_linear_steps_there(
            layers,
            target,
            proof.n_spec,
            proof.linear_backward_upper@,
            proof.pass_upper,
            *commitments,
        );
        lemma_activation_steps_there(
            layers,
            target,
            proof.n_spec,
            proof.activation_backward_lower@,
            proof.pass_lower,
            *commitments,
        );
        lemma_activation_steps_there(
            layers,
            target,
            proof.n_spec,
            proof.activation_backward_upper@,
            proof.pass_upper,
            *commitments,
        );
    }
    absorb_hidden_pass_tag(sponge, target, proof.n_spec);
    absorb_commitment::<P>(sponge, &proof.preact_lower_commit);
    absorb_commitment::<P>(sponge, &proof.preact_upper_commit);
    match verify_chain_init_from_identity::<P>(
        &proof.chain_init_lower,
        &proof.pass_lower,
        target,
        proof.n_spec,
        one_code,
        params,
        sponge,
    ) {
        Ok(_) => {},
        Err(e) => {
            return Err(e);
        },
    }
    match verify_chain_init_from_identity::<P>(
        &proof.chain_init_upper,
        &proof.pass_upper,
        target,
        proof.n_spec,
        one_code,
        params,
        sponge,
    ) {
        Ok(_) => {},
        Err(e) => {
            return Err(e);
        },
    }
    match verify_linear_backward_chain::<P>(
        &proof.linear_backward_lower,
        commitments,
        &proof.pass_lower,
        params,
        sponge,
    ) {
        Ok(_) => {},
        Err(e) => {
            return Err(e);
        },
    }
    match verify_linear_backward_chain::<P>(
        &proof.linear_backward_upper,
        commitments,
        &proof.pass_upper,
        params,
        sponge,
    ) {
        Ok(_) => {},
        Err(e) => {
            return Err(e);
        },
    }
    match verify_activation_backward_chain::<P>(
        &proof.activation_backward_lower,
        BoundDir::Lower,
        &proof.pass_lower,
        commitments,
        params,
        sponge,
    ) {
        Ok(_) => {},
        Err(e) => {
            return Err(e);
        },
    }
    verify_activation_backward_chain::<P>(
        &proof.activation_backward_upper,
        BoundDir::Upper,
        &proof.pass_upper,
        commitments,
        params,
        sponge,
    )
}

} // verus!
