//! What calls of the library's functions give back.

use crate::bias_accumulator::{BAccStepProof, verify_b_acc_step_proofs};
use crate::cert::QuantCert;
use crate::chain_init::{ChainInitProof, verify_chain_init};
use crate::column_set::picked;
use crate::commit::{PassCommitments, TensorCommitments};
use crate::errors::SnarkError;
use crate::field::fadd;
use crate::gadget_laws::law_accepted_zero_offsets;
use crate::hidden_pass::hidden_linear_indices;
use crate::network::{ActivationKind, LayerShape, NetworkArchitecture, Property};
use crate::params::{SigmaTables, SnarkParams};
use crate::pass_laws::{law_accepted_bias_adds_the_share, law_accepted_start_agrees};
use crate::pcs::MlPcs;
use crate::public_binding::{
    PublicBindingProof, PublicCodes, derive_public_scales, public_binding_verdict,
    verify_public_binding,
};
use crate::relu_lower_offset::{ReluLowerOffsetProof, verify_relu_lower_offset};
use crate::scale::Scale;
use crate::sshape_endpoint_api::quant_cert_sshape_endpoints_ok;
use crate::statement_laws::law_sshape_layers;
use crate::transcript::state_of;
use crate::value_laws::{endpoints_accepted, law_accepted_certificate};
use ark_crypto_primitives::sponge::merlin::Transcript;
use vstd::prelude::*;

verus! {

/// The layers that a hidden pass is owed for are those linear layers that an
/// activation follows, of whatever kind, from the first one on.
pub proof fn law_hidden_linear_indices(arch: NetworkArchitecture, r: Vec<usize>)
    requires
        call_ensures(hidden_linear_indices, (&arch,), r),
    ensures
        forall|i: int, j: int| 0 <= i < j < r@.len() ==> r@[i] < r@[j],
        forall|i: usize| #[trigger]
            r@.contains(i) <==> {
                &&& i + 1 < arch.layers@.len()
                &&& arch.layers@[i as int] is Linear
                &&& arch.layers@[i + 1] is Activation
            },
{
    let layers = arch.layers@;
    assert forall|i: usize| #[trigger] r@.contains(i) <==> {
        &&& i + 1 < layers.len()
        &&& layers[i as int] is Linear
        &&& layers[i + 1] is Activation
    } by {
        if r@.contains(i) {
            let j = choose|j: int| 0 <= j < r@.len() && r@[j] == i;
            assert(r@[j] == i);
        }
    }
}

/// A statement with a sigmoid or a tanh works at the tables' scale, one without
/// at the picked scale; and a given input scale is the power of two it names.
pub proof fn law_public_scales(
    arch: NetworkArchitecture,
    picked: Scale,
    picked_input: Scale,
    input_e: Option<i32>,
    table_e: i32,
    r: (Scale, Scale),
)
    requires
        call_ensures(
            derive_public_scales,
            (&arch, picked, picked_input, input_e, table_e),
            r,
        ),
    ensures
        forall|i: int|
            0 <= i < arch.layers@.len() && (#[trigger] arch.layers@[i] == (
            LayerShape::Activation { kind: ActivationKind::Sigmoid }) || arch.layers@[i] == (
            LayerShape::Activation { kind: ActivationKind::Tanh })) ==> r.0.e == table_e && (r.0
                == picked || r.0.c == 1),
        (forall|i: int|
            0 <= i < arch.layers@.len() ==> (#[trigger] arch.layers@[i]) is Linear
                || arch.layers@[i] == (LayerShape::Activation { kind: ActivationKind::ReLU }))
            ==> r.0 == picked,
        picked.e == table_e ==> r.0 == picked,
        input_e matches Some(e) ==> r.1.c == 1 && r.1.e == e,
        input_e is None ==> r.1 == picked_input,
{
    law_sshape_layers(arch.layers@);
}

/// The endpoint check passes a certificate exactly where it accepts both lines
/// at both ends for every sigmoid and every tanh layer.
pub proof fn law_endpoint_check(
    network: NetworkArchitecture,
    cert: QuantCert,
    pre: SigmaTables,
    range_bits: usize,
    r: Result<(), SnarkError>,
)
    requires
        call_ensures(
            quant_cert_sshape_endpoints_ok,
            (&network, &cert, &pre, range_bits),
            r,
        ),
    ensures
        r is Ok <==> forall|i: int|
            0 <= i < network.layers@.len() ==> {
                &&& #[trigger] network.layers@[i] == (LayerShape::Activation {
                    kind: ActivationKind::Sigmoid,
                }) ==> endpoints_accepted(
                    ActivationKind::Sigmoid,
                    cert,
                    pre,
                    range_bits as nat,
                    i,
                )
                &&& network.layers@[i] == (LayerShape::Activation { kind: ActivationKind::Tanh })
                    ==> endpoints_accepted(ActivationKind::Tanh, cert, pre, range_bits as nat, i)
            },
{
    law_accepted_certificate(network.layers@, cert, pre, range_bits as nat, 0);
}

/// The layers of a truncated architecture are the first ones, up to and with
/// the target.
pub proof fn law_truncated(arch: NetworkArchitecture, target: usize, r: NetworkArchitecture)
    requires
        target < arch.layers@.len(),
        call_ensures(NetworkArchitecture::truncate_to, (&arch, target), r),
    ensures
        r.layers@.len() == target + 1,
        forall|i: int| 0 <= i <= target ==> #[trigger] r.layers@[i] == arch.layers@[i],
{
}

/// The start that is accepted is the property's: the values that are opened of
/// the chains and of the property agree.
pub proof fn law_start_check<P: MlPcs>(
    proof: ChainInitProof<P>,
    pass: PassCommitments<P>,
    coms: TensorCommitments<P>,
    a_n_vars: usize,
    b_n_vars: usize,
    params: SnarkParams<P>,
    sponge: &mut Transcript,
    r: Result<(), SnarkError>,
)
    requires
        call_ensures(
            verify_chain_init::<P>,
            (&proof, &pass, &coms, a_n_vars, b_n_vars, &params, sponge),
            r,
        ),
        r is Ok,
    ensures
        proof.chain_a_eval@ == proof.spec_c_eval@,
        proof.chain_b_eval@ == proof.spec_d_eval@,
{
    law_accepted_start_agrees(
        params.verifier_key,
        proof,
        pass,
        coms,
        a_n_vars,
        b_n_vars,
        state_of(*old(sponge)),
    );
}

/// The running biases that are accepted add up at every layer: the value that
/// is opened of the bias behind the layer's step is the one before it plus the
/// layer's share, whatever the layer is.
pub proof fn law_bias_check<P: MlPcs>(
    proofs: Vec<BAccStepProof<P>>,
    pass: PassCommitments<P>,
    arch: NetworkArchitecture,
    n_vars: usize,
    params: SnarkParams<P>,
    sponge: &mut Transcript,
    r: Result<(), SnarkError>,
    layer: int,
)
    requires
        call_ensures(
            verify_b_acc_step_proofs::<P>,
            (&proofs, &pass, &arch, n_vars, &params, sponge),
            r,
        ),
        r is Ok,
        0 <= layer < arch.layers@.len() <= usize::MAX,
    ensures
        proofs@.len() == arch.layers@.len(),
        ({
            let proof = proofs@[arch.layers@.len() - 1 - layer];
            &&& proof.b_new_eval@ == fadd(proof.b_old_eval@, proof.delta_eval@)
            &&& proof.layer_idx == layer
            &&& proof.kind == if arch.layers@[layer] is Linear {
                0u64
            } else {
                1u64
            }
        }),
{
    law_accepted_bias_adds_the_share(
        params.verifier_key,
        proofs@,
        arch.layers@,
        pass,
        n_vars,
        state_of(*old(sponge)),
        layer,
    );
}

/// Offsets of a ReLU's lower line that are accepted are zero at their
/// challenge, and their proof is for the layer that was asked for.
pub proof fn law_offset_check<P: MlPcs>(
    proof: ReluLowerOffsetProof<P>,
    layer_idx: usize,
    com: P::Commitment,
    n_vars: usize,
    params: SnarkParams<P>,
    sponge: &mut Transcript,
    r: Result<(), SnarkError>,
)
    requires
        call_ensures(
            verify_relu_lower_offset::<P>,
            (&proof, layer_idx, &com, n_vars, &params, sponge),
            r,
        ),
        r is Ok,
    ensures
        proof.layer_idx == layer_idx,
        proof.b_lower_n_vars == n_vars,
        proof.b_lower_eval@ == 0,
{
    law_accepted_zero_offsets(
        params.verifier_key,
        proof,
        layer_idx,
        com,
        n_vars,
        state_of(*old(sponge)),
    );
}

/// A binding that is accepted names the statement's scales, and its working
/// scale is the target's.
pub proof fn law_binding_check<P: MlPcs>(
    proof: PublicBindingProof<P>,
    working: Scale,
    input: Scale,
    property: Property,
    x_len: usize,
    canonical: PublicCodes,
    precision_bits: i32,
    coms: TensorCommitments<P>,
    target_c: i64,
    target_e: i32,
    params: SnarkParams<P>,
    sponge: &mut Transcript,
    r: Result<(), SnarkError>,
)
    requires
        call_ensures(
            verify_public_binding::<P>,
            (
                &proof,
                working,
                input,
                &property,
                x_len,
                &canonical,
                precision_bits,
                &coms,
                target_c,
                target_e,
                &params,
                sponge,
            ),
            r,
        ),
        r is Ok,
    ensures
        proof.working_c == working.c && proof.working_e == working.e,
        proof.input_c == input.c && proof.input_e == input.e,
        working.c == target_c && working.e == target_e,
{
    reveal(public_binding_verdict);
}

} // verus!
