//! What a refused proof is answered.

use crate::activation_matrix::{
    ActivationMatrixStepProof, matrix_openings_verdict, matrix_rounds_verdict,
    matrix_step_verdict,
};
use crate::activation_step::{
    ActivationLayerStepProof, activation_openings_verdict, activation_rounds_verdict,
    activation_step_verdict,
};
use crate::architecture::{
    ActivationShape, LinearShape, activation_chain_verdict, activation_indices,
    linear_chain_verdict, linear_indices,
};
use crate::bias_accumulator::{BAccEvent, BAccStepProof, b_acc_step_verdict, b_acc_verdict};
use crate::cert::QuantCert;
use crate::chain_init::{ChainInitProof, chain_init_verdict};
use crate::commit::{PassCommitments, TensorCommitments};
use crate::errors::SnarkError;
use crate::field::{fadd, fmul, fsub, vals};
use crate::hidden_identity::{
    ChainInitFromIdentityProof, identity_init_verdict, identity_matrix_table,
};
use crate::hidden_parts::bound_inputs_verdict;
use crate::hidden_pass::{HiddenFront, hidden_shape_verdict};
use crate::linear_chain::{LinearLayerStepProof, linear_step_verdict};
use crate::linear_step::linear_verdict;
use crate::logup::{lower, tops_cancel, upper, vals4};
use crate::mle::mle;
use crate::network::{ActivationKind, LayerShape, Property};
use crate::openings::openings_verdict;
use crate::params::{SigmaTables, SnarkParams};
use crate::pcs::MlPcs;
use crate::pos_range::{PosRangeLogUp, range_verdict};
use crate::public_binding::{BindingSizes, PublicBindingProof, PublicTables, public_binding_verdict};
use crate::range_per_tensor::{TensorRangeProof, tensor_range_verdict};
use crate::relu_d_boolean::{ReluDBooleanProof, d_boolean_verdict};
use crate::relu_lower_offset::{ReluLowerOffsetProof, lower_offset_verdict};
use crate::relu_step::{ReluStepProof, relu_step_verdict};
use crate::relu_upper_endpoint::{ReluUpperEndpointProof, upper_endpoint_verdict};
use crate::scale::Scale;
use crate::sshape_critical_point::{SshapeCriticalPointProof, cp_header_verdict};
use crate::sshape_endpoint::{SshapeEndpointProof, ep_header_verdict};
use crate::sshape_endpoint_api::cert_layer_verdict;
use crate::sshape_witness::{SshapeEndpointKind, SshapeLineKind, endpoint_tag, kind_tag, line_tag};
use crate::trace::BoundDir;
use vstd::arithmetic::power2::pow2;
use vstd::prelude::*;

verus! {

/// A start of another size than the statement's is refused as misshapen, and
/// the answer that a start is not the property's comes only where an opened
/// value is not the property's.
pub proof fn law_refused_start<P: MlPcs>(
    vk: P::VerifierKey,
    proof: ChainInitProof<P>,
    pass: PassCommitments<P>,
    coms: TensorCommitments<P>,
    a_n_vars: usize,
    b_n_vars: usize,
    t0: Seq<u8>,
)
    ensures
        ({
            let v = chain_init_verdict(vk, proof, pass, coms, a_n_vars, b_n_vars, t0);
            let sized = proof.a_n_vars == a_n_vars && proof.b_n_vars == b_n_vars;
            &&& !sized ==> v == Err::<(), SnarkError>(
                SnarkError::ShapeMismatch { what: "chain_init: n_vars mismatch" },
            )
            &&& sized && pass.chain_a@.len() == 0 ==> v == Err::<(), SnarkError>(
                SnarkError::ShapeMismatch { what: "chain_init: empty chain_a (verify)" },
            )
            &&& sized && pass.chain_a@.len() > 0 && pass.chain_b_acc@.len() == 0 ==> v == Err::<
                (),
                SnarkError,
            >(SnarkError::ShapeMismatch { what: "chain_init: empty chain_b_acc (verify)" })
            &&& v matches Err(SnarkError::ChainInitMismatch) ==> proof.chain_a_eval@
                != proof.spec_c_eval@ || proof.chain_b_eval@ != proof.spec_d_eval@
            &&& v matches Err(SnarkError::PcsOpenRejected { which }) ==> which
                == "chain_init_r_a_batch" || which == "chain_init_r_b_batch"
        }),
{
}

/// A running-bias step that names another step than the one it stands for is
/// refused as misshapen, and the answer that a layer's step does not add up
/// names that layer and comes only where the opened values do not add up.
pub proof fn law_refused_bias_step<P: MlPcs>(
    vk: P::VerifierKey,
    proof: BAccStepProof<P>,
    ev: BAccEvent,
    pass: PassCommitments<P>,
    n_vars: usize,
    t0: Seq<u8>,
)
    ensures
        ({
            let v = b_acc_step_verdict(vk, proof, ev, pass, n_vars, t0);
            &&& proof.layer_idx != ev.layer || proof.step_idx != ev.step || proof.n_vars != n_vars
                || (ev.kind is Linear && proof.kind != 0) || (ev.kind is Activation && proof.kind
                != 1) ==> v == Err::<(), SnarkError>(
                SnarkError::ShapeMismatch { what: "b_acc_step: kind/layer/step/n_vars mismatch" },
            )
            &&& v matches Err(SnarkError::BAccStepBindingFailed { layer }) ==> layer == ev.layer
                && proof.b_new_eval@ != fadd(proof.b_old_eval@, proof.delta_eval@)
            &&& v matches Err(SnarkError::PcsOpenRejected { which }) ==> which
                == "b_acc_step_batched"
        }),
{
}

/// A pass with more or fewer running-bias steps than layers is refused.
pub proof fn law_refused_bias_count<P: MlPcs>(
    vk: P::VerifierKey,
    proofs: Seq<BAccStepProof<P>>,
    layers: Seq<LayerShape>,
    pass: PassCommitments<P>,
    n_vars: usize,
    t0: Seq<u8>,
)
    requires
        proofs.len() != layers.len(),
    ensures
        b_acc_verdict(vk, proofs, layers, pass, n_vars, t0) == Err::<(), SnarkError>(
            SnarkError::ShapeMismatch { what: "b_acc_step: count mismatch" },
        ),
{
}

/// A refused linear step is answered with its layer, or with the opening that
/// was refused.
pub proof fn law_refused_linear_step<P: MlPcs>(
    vk: P::VerifierKey,
    proofs: Seq<LinearLayerStepProof<P>>,
    coms: TensorCommitments<P>,
    pass: PassCommitments<P>,
    k: nat,
    t0: Seq<u8>,
)
    requires
        k < proofs.len(),
    ensures
        linear_step_verdict(vk, proofs, coms, pass, k, t0) matches Err(e) ==> {
            ||| e == (SnarkError::LinearLayerRejected { layer: proofs[k as int].layer_idx })
            ||| e is PcsOpenRejected
        },
        proofs[k as int].a_old_log_dims.1 != proofs[k as int].w_log_dims.0 ==> linear_step_verdict(
            vk,
            proofs,
            coms,
            pass,
            k,
            t0,
        ) == Err::<(), SnarkError>(
            SnarkError::LinearLayerRejected { layer: proofs[k as int].layer_idx },
        ),
{
    reveal(linear_verdict);
}

/// Rounds of an activation step's offsets are refused for their challenge, or
/// with the step's layer.
pub proof fn law_refused_activation_step<P: MlPcs>(
    vk: P::VerifierKey,
    proof: ActivationLayerStepProof<P>,
    d: BoundDir,
    coms: TensorCommitments<P>,
    pass: PassCommitments<P>,
    i: int,
    t0: Seq<u8>,
)
    ensures
        activation_rounds_verdict(proof, d, t0) matches Err(e) ==> {
            ||| e is TranscriptMismatch
            ||| e == (SnarkError::ActivationLayerRejected { layer: proof.layer_idx })
        },
        activation_rounds_verdict(proof, d, t0) is Ok && coms.relaxation@[proof.layer_idx as int]
            is None ==> activation_step_verdict(vk, proof, d, coms, pass, i, t0) == Err::<
            (),
            SnarkError,
        >(SnarkError::ShapeMismatch { what: "missing relaxation commit" }),
        activation_step_verdict(vk, proof, d, coms, pass, i, t0) matches Err(
            SnarkError::ActivationLayerRejected { layer },
        ) ==> layer == proof.layer_idx,
{
    reveal(activation_rounds_verdict);
    reveal(activation_openings_verdict);
}

/// Rounds of an activation step's slopes are refused for their challenge, or
/// with the step's layer.
pub proof fn law_refused_matrix_step<P: MlPcs>(
    vk: P::VerifierKey,
    proof: ActivationMatrixStepProof<P>,
    d: BoundDir,
    coms: TensorCommitments<P>,
    pass: PassCommitments<P>,
    i: int,
    t0: Seq<u8>,
)
    ensures
        matrix_rounds_verdict(proof, d, t0) matches Err(e) ==> {
            ||| e is TranscriptMismatch
            ||| e == (SnarkError::ActivationMatrixRejected { layer: proof.layer_idx })
        },
        matrix_step_verdict(vk, proof, d, coms, pass, i, t0) matches Err(
            SnarkError::ActivationMatrixRejected { layer },
        ) ==> layer == proof.layer_idx,
{
    reveal(matrix_rounds_verdict);
    reveal(matrix_openings_verdict);
}

/// Chains that are not the architecture's are answered with what differs:
/// their number first, their layers and sizes then.
pub proof fn law_refused_shapes(
    linear: Seq<LinearShape>,
    activation: Seq<ActivationShape>,
    layers: Seq<LayerShape>,
    property: Property,
)
    ensures
        linear_chain_verdict(linear, layers, property) matches Err(e) ==> e == (
        SnarkError::ArchitectureMismatch {
            what: if linear.len() == linear_indices(layers, layers.len()).len() {
                "linear_backward step (layer_idx, dims) mismatch"
            } else {
                "linear_backward step count != n_linear in network"
            },
        }),
        activation_chain_verdict(activation, layers, property) matches Err(e) ==> e == (
        SnarkError::ArchitectureMismatch {
            what: if activation.len() == activation_indices(layers, layers.len()).len() {
                "activation step (layer_idx, dims) mismatch"
            } else {
                "activation step count != n_activation in network"
            },
        }),
{
}

/// A hidden pass is refused where its target is no linear layer, where it has
/// another width than its target, and where its chains have another length
/// than its layers ask for, in this order.
pub proof fn law_refused_hidden_shape<P: MlPcs>(layers: Seq<LayerShape>, proof: HiddenFront<P>)
    ensures
        ({
            let v = hidden_shape_verdict(layers, proof);
            let target = proof.target_layer_idx as int;
            let linear = target < layers.len() && layers[target] is Linear;
            let wide = linear && layers[target]->out_dim == proof.n_spec;
            &&& !linear ==> v == Err::<(), SnarkError>(
                SnarkError::ArchitectureMismatch {
                    what: "hidden_pass: target_layer_idx not Linear",
                },
            )
            &&& linear && !wide ==> v == Err::<(), SnarkError>(
                SnarkError::ArchitectureMismatch {
                    what: "hidden_pass: n_spec != target Linear output dim",
                },
            )
            &&& wide && (proof.pass_lower.chain_a@.len() != target + 2
                || proof.pass_upper.chain_a@.len() != target + 2) ==> v == Err::<(), SnarkError>(
                SnarkError::ArchitectureMismatch { what: "hidden_pass: chain_a length != target+2" },
            )
        }),
{
    reveal(hidden_shape_verdict);
}

/// A hidden pass's start is refused where its chains end below its target, and
/// where it has another size; the answer that it is not the identity's comes
/// only where an opened value is not the identity's.
pub proof fn law_refused_identity_start<P: MlPcs>(
    vk: P::VerifierKey,
    proof: ChainInitFromIdentityProof<P>,
    pass: PassCommitments<P>,
    target: usize,
    n: nat,
    one: i128,
    t0: Seq<u8>,
)
    ensures
        ({
            let v = identity_init_verdict(vk, proof, pass, target, n, one, t0);
            &&& pass.chain_a@.len() <= target + 1 ==> v == Err::<(), SnarkError>(
                SnarkError::ShapeMismatch { what: "hidden_pass chain_init: chain_a out-of-range" },
            )
            &&& pass.chain_a@.len() > target + 1 && pass.chain_b_acc@.len() <= target + 1 ==> v
                == Err::<(), SnarkError>(
                SnarkError::ShapeMismatch {
                    what: "hidden_pass chain_init: chain_b_acc out-of-range",
                },
            )
            &&& v matches Err(SnarkError::ChainInitMismatch) ==> proof.chain_b_eval@ != 0
                || proof.chain_a_eval@ != mle(identity_matrix_table(n, one), vals(proof.r_a@))
        }),
{
    reveal(identity_init_verdict);
}

/// The answers of a range check: the sizes first, then the challenges; a
/// witness that is not the committed one, and a table that is not the range,
/// are told apart.
pub proof fn law_refused_range<P: MlPcs>(
    vk: P::VerifierKey,
    com: P::Commitment,
    n_vars: nat,
    bits: nat,
    range: PosRangeLogUp<P>,
    t0: Seq<u8>,
)
    ensures
        ({
            let v = range_verdict(vk, com, n_vars, bits, range, t0);
            &&& range.witness_len != pow2(n_vars) || range.table_len != pow2(bits) ==> v == Err::<
                (),
                SnarkError,
            >(SnarkError::ShapeMismatch { what: "relu_upper_endpoint: range LogUp len" })
            &&& v matches Err(SnarkError::LogUpIdentityFailed) ==> !tops_cancel(
                vals4(range.lookup_top),
                vals4(range.table_top),
            )
            &&& v matches Err(SnarkError::PerTensorRangeWitnessNotBound)
                ==> range.lookup_proof.bottom_denom@ != fsub(
                range.witness_logup_eval@,
                range.logup_beta@,
            )
            &&& v matches Err(SnarkError::LogUpTableNotCanonical { which })
                ==> range.lookup_proof.bottom_denom@ == fsub(
                range.witness_logup_eval@,
                range.logup_beta@,
            )
        }),
{
}

/// The answers of a tensor's range check.
pub proof fn law_refused_tensor_range<P: MlPcs>(
    params: SnarkParams<P>,
    proof: TensorRangeProof<P>,
    tensor: P::Commitment,
    n_vars: nat,
    t0: Seq<u8>,
)
    ensures
        ({
            let v = tensor_range_verdict(params, proof, tensor, n_vars, t0);
            &&& proof.witness_len != pow2(n_vars) ==> v == Err::<(), SnarkError>(
                SnarkError::ArchitectureMismatch {
                    what: "per-tensor range: witness_len does not match tensor_n_vars",
                },
            )
            &&& v matches Err(SnarkError::LogUpIdentityFailed) ==> !tops_cancel(
                vals4(proof.lookup_top),
                vals4(proof.table_top),
            )
            &&& v matches Err(SnarkError::PerTensorRangeWitnessNotBound)
                ==> proof.lookup_proof.bottom_denom@ != fsub(proof.tensor_eval@, proof.alpha@)
            &&& v matches Err(SnarkError::PcsOpenRejected { which }) ==> which
                == "per_tensor_range_witness" || which == "per_tensor_range_mult"
        }),
{
    reveal(tensor_range_verdict);
}

/// The answers of a split's check: a column that is not the committed one and
/// its ReLU is told apart from columns that are not in the table.
pub proof fn law_refused_split<P: MlPcs>(
    params: SnarkParams<P>,
    proof: ReluStepProof<P>,
    a: P::Commitment,
    a_pos: P::Commitment,
    n_padded: u64,
    commit_n_vars: nat,
    t0: Seq<u8>,
)
    ensures
        ({
            let v = relu_step_verdict(params, proof, a, a_pos, n_padded, commit_n_vars, t0);
            &&& v matches Err(SnarkError::ReluLookupIdentityFailed) ==> !tops_cancel(
                vals4(proof.lookup_top),
                vals4(proof.table_top),
            )
            &&& v matches Err(SnarkError::ReluLookupBindingFailed)
                ==> proof.lookup_proof.bottom_denom@ != fsub(
                fadd(fmul(proof.combine_alpha@, proof.a_eval_at_r@), proof.a_pos_eval_at_r@),
                proof.logup_beta@,
            )
            &&& v matches Err(SnarkError::PcsOpenRejected { which }) ==> which
                == "relu_A_A_pos_batch" || which == "relu_lookup_mult"
        }),
{
    reveal(relu_step_verdict);
}

/// A statement's binding with other sizes is refused as misshapen, and one with
/// other scales as not the statement's.
pub proof fn law_refused_binding<P: MlPcs>(
    vk: P::VerifierKey,
    proof: PublicBindingProof<P>,
    working: Scale,
    input: Scale,
    target: Scale,
    z: BindingSizes,
    coms: TensorCommitments<P>,
    t: PublicTables,
    t0: Seq<u8>,
)
    ensures
        ({
            let v = public_binding_verdict(vk, proof, working, input, target, z, coms, t, t0);
            let sized = proof.spec_c_n_vars == z.spec_c && proof.spec_d_n_vars == z.spec_d
                && proof.x_n_vars == z.x;
            let scaled = proof.working_c == working.c && proof.working_e == working.e
                && proof.input_c == input.c && proof.input_e == input.e && working == target;
            &&& !sized ==> v == Err::<(), SnarkError>(
                SnarkError::ShapeMismatch { what: "public_binding: n_vars mismatch" },
            )
            &&& sized && !scaled ==> v == Err::<(), SnarkError>(SnarkError::PublicBindingFailed)
            &&& v matches Err(SnarkError::PublicBindingFailed) ==> !scaled || mle(
                t.spec_c,
                vals(proof.r_spec_c@),
            ) != proof.spec_c_eval@ || mle(t.spec_d, vals(proof.r_spec_d@)) != proof.spec_d_eval@
                || mle(t.x_lower, vals(proof.r_x@)) != proof.x_lower_eval@ || mle(
                t.x_upper,
                vals(proof.r_x@),
            ) != proof.x_upper_eval@
        }),
{
    reveal(public_binding_verdict);
    reveal_with_fuel(openings_verdict, 3);
}

/// Slopes of another layer or another size than the architecture's are refused
/// as such.
pub proof fn law_refused_boolean_slopes<P: MlPcs>(
    vk: P::VerifierKey,
    proof: ReluDBooleanProof<P>,
    layer_idx: usize,
    n_vars: usize,
    s_d: int,
    com: P::Commitment,
    t0: Seq<u8>,
)
    ensures
        ({
            let v = d_boolean_verdict(vk, proof, layer_idx, n_vars, s_d, com, t0);
            &&& proof.layer_idx != layer_idx ==> v == Err::<(), SnarkError>(
                SnarkError::ArchitectureMismatch { what: "relu_d_boolean: layer_idx mismatch" },
            )
            &&& proof.layer_idx == layer_idx && proof.n_vars != n_vars ==> v == Err::<
                (),
                SnarkError,
            >(
                SnarkError::ArchitectureMismatch {
                    what: "relu_d_boolean: n_vars mismatch with public architecture",
                },
            )
        }),
{
}

/// Offsets of another layer or another size than the architecture's are refused
/// as such, and offsets that are not zero with their layer.
pub proof fn law_refused_offsets<P: MlPcs>(
    vk: P::VerifierKey,
    proof: ReluLowerOffsetProof<P>,
    layer_idx: usize,
    com: P::Commitment,
    n_vars: usize,
    t0: Seq<u8>,
)
    ensures
        ({
            let v = lower_offset_verdict(vk, proof, layer_idx, com, n_vars, t0);
            &&& proof.layer_idx != layer_idx ==> v == Err::<(), SnarkError>(
                SnarkError::ArchitectureMismatch {
                    what: "relaxation_soundness: layer_idx mismatch",
                },
            )
            &&& proof.layer_idx == layer_idx && proof.b_lower_n_vars != n_vars ==> v == Err::<
                (),
                SnarkError,
            >(
                SnarkError::ArchitectureMismatch {
                    what: "relaxation_soundness: b_lower_n_vars mismatch with public architecture",
                },
            )
            &&& v matches Err(
                SnarkError::RelaxationSoundnessReluLowerOffsetNonZero { layer_idx: l },
            ) ==> l == layer_idx && proof.b_lower_eval@ != 0
        }),
{
}

/// An upper line's proof of another layer or another size than the
/// architecture's is refused as such, and one whose offsets' scale does not
/// divide the preactivations' too.
pub proof fn law_refused_upper_line<P: MlPcs>(
    params: SnarkParams<P>,
    proof: ReluUpperEndpointProof<P>,
    layer_idx: usize,
    n_vars: usize,
    preact_lower: P::Commitment,
    preact_upper: P::Commitment,
    d: P::Commitment,
    b: P::Commitment,
    s_d: int,
    s_w: int,
    s_b: int,
    t0: Seq<u8>,
)
    ensures
        ({
            let v = upper_endpoint_verdict(
                params,
                proof,
                layer_idx,
                n_vars,
                preact_lower,
                preact_upper,
                d,
                b,
                s_d,
                s_w,
                s_b,
                t0,
            );
            let named = proof.layer_idx == layer_idx && proof.n_vars == n_vars;
            &&& proof.layer_idx != layer_idx ==> v == Err::<(), SnarkError>(
                SnarkError::ArchitectureMismatch { what: "relu_upper_endpoint: layer_idx mismatch" },
            )
            &&& proof.layer_idx == layer_idx && proof.n_vars != n_vars ==> v == Err::<
                (),
                SnarkError,
            >(SnarkError::ArchitectureMismatch { what: "relu_upper_endpoint: n_vars mismatch" })
            &&& named && s_w % s_b != 0 ==> v == Err::<(), SnarkError>(
                SnarkError::ArchitectureMismatch {
                    what: "relu_upper_endpoint: precondition q_b > q_w",
                },
            )
        }),
{
}

/// A proof made for another function, line, end, layer or number of neurons is
/// refused, and the answer names what differs.
pub proof fn law_refused_endpoint<P: MlPcs>(
    params: SnarkParams<P>,
    proof: SshapeEndpointProof<P>,
    layer_idx: usize,
    kind: ActivationKind,
    line: SshapeLineKind,
    endpoint: SshapeEndpointKind,
    n: usize,
    s_d: Scale,
    s_b: Scale,
    s_w: Scale,
)
    requires
        kind is Sigmoid || kind is Tanh,
    ensures
        ({
            let v = ep_header_verdict(
                params,
                proof,
                layer_idx,
                kind,
                line,
                endpoint,
                n,
                s_d,
                s_b,
                s_w,
            );
            let placed = proof.layer_idx == layer_idx;
            let same_kind = placed && proof.kind_tag == kind_tag(kind);
            let same_end = same_kind && proof.endpoint_tag == endpoint_tag(endpoint);
            &&& !placed ==> v == Err::<(), SnarkError>(
                SnarkError::ArchitectureMismatch { what: "sshape_endpoint: layer_idx mismatch" },
            )
            &&& placed && !same_kind ==> v == Err::<(), SnarkError>(
                SnarkError::ArchitectureMismatch { what: "sshape_endpoint: kind tag mismatch" },
            )
            &&& same_kind && !same_end ==> v == Err::<(), SnarkError>(
                SnarkError::ArchitectureMismatch {
                    what: "sshape_endpoint: endpoint tag mismatch (U(l) vs U(u) replay)",
                },
            )
            &&& same_end && proof.line_tag != line_tag(line) ==> v == Err::<(), SnarkError>(
                SnarkError::ArchitectureMismatch {
                    what: "sshape_endpoint: line tag mismatch (upper-line vs lower-line replay)",
                },
            )
        }),
{
}

/// A critical point's proof made for another function, line or layer is
/// refused, and the answer names what differs.
pub proof fn law_refused_critical_point<P: MlPcs>(
    params: SnarkParams<P>,
    proof: SshapeCriticalPointProof<P>,
    layer_idx: usize,
    kind: ActivationKind,
    line: SshapeLineKind,
    n: usize,
    s_d: Scale,
    s_b: Scale,
    s_w: Scale,
)
    requires
        kind is Sigmoid || kind is Tanh,
    ensures
        ({
            let v = cp_header_verdict(params, proof, layer_idx, kind, line, n, s_d, s_b, s_w);
            let same_kind = proof.kind_tag == kind_tag(kind);
            let same_line = same_kind && proof.line_tag == line_tag(line);
            &&& !same_kind ==> v == Err::<(), SnarkError>(
                SnarkError::ArchitectureMismatch { what: "sshape3c: kind_tag mismatch" },
            )
            &&& same_kind && !same_line ==> v == Err::<(), SnarkError>(
                SnarkError::ArchitectureMismatch { what: "sshape3c: line_tag mismatch" },
            )
            &&& same_line && proof.layer_idx != layer_idx ==> v == Err::<(), SnarkError>(
                SnarkError::ArchitectureMismatch { what: "sshape3c: layer_idx mismatch" },
            )
        }),
{
}

/// A certificate without what the endpoint check reads of a sigmoid or tanh
/// layer is refused, and the answer names what is missing.
pub proof fn law_refused_certificate(
    layers: Seq<LayerShape>,
    cert: QuantCert,
    pre: SigmaTables,
    range_bits: nat,
    i: int,
)
    requires
        0 <= i < layers.len(),
        layers[i] == (LayerShape::Activation { kind: ActivationKind::Sigmoid }) || layers[i] == (
        LayerShape::Activation { kind: ActivationKind::Tanh }),
    ensures
        ({
            let v = cert_layer_verdict(layers, cert, pre, range_bits, i);
            let relaxed = i < cert.relaxations@.len() && cert.relaxations@[i] is Some;
            let below = i - 1 < cert.preact_lower@.len() && cert.preact_lower@[i - 1] is Some;
            let above = i - 1 < cert.preact_upper@.len() && cert.preact_upper@[i - 1] is Some;
            &&& !relaxed ==> v == Err::<(), SnarkError>(
                SnarkError::ShapeMismatch {
                    what: "provable check: missing sigmoid/tanh relaxation",
                },
            )
            &&& relaxed && i == 0 ==> v == Err::<(), SnarkError>(
                SnarkError::ArchitectureMismatch {
                    what: "sigmoid/tanh activation has no preceding Linear layer",
                },
            )
            &&& relaxed && i >= 1 && !below ==> v == Err::<(), SnarkError>(
                SnarkError::ShapeMismatch {
                    what: "provable check: missing preact_lower for preceding Linear",
                },
            )
            &&& relaxed && i >= 1 && below && !above ==> v == Err::<(), SnarkError>(
                SnarkError::ShapeMismatch {
                    what: "provable check: missing preact_upper for preceding Linear",
                },
            )
        }),
{
}

/// A hidden pass whose bounds are not the committed ones is refused, the lower
/// direction's answer first.
pub proof fn law_refused_bounds<P: MlPcs>(
    proof: HiddenFront<P>,
    claimed_lower: P::Commitment,
    claimed_upper: P::Commitment,
)
    requires
        proof.pass_lower.concretize_acc_w is Some && proof.pass_upper.concretize_acc_w is Some,
        proof.pass_lower.chain_b_acc@.len() > 0 && proof.pass_upper.chain_b_acc@.len() > 0,
    ensures
        ({
            let v = bound_inputs_verdict(proof, claimed_lower, claimed_upper);
            let lower = P::bytes(claimed_lower) == P::bytes(proof.preact_lower_commit);
            let upper = P::bytes(claimed_upper) == P::bytes(proof.preact_upper_commit);
            &&& !lower ==> v == Err::<(), SnarkError>(
                SnarkError::ArchitectureMismatch {
                    what: "hidden_pass: output_bound_lower.claimed_commit != preact_lower_commit",
                },
            )
            &&& lower && !upper ==> v == Err::<(), SnarkError>(
                SnarkError::ArchitectureMismatch {
                    what: "hidden_pass: output_bound_upper.claimed_commit != preact_upper_commit",
                },
            )
            &&& lower && upper ==> v is Ok
        }),
{
}

} // verus!
