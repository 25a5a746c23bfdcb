//! The S-shape endpoint gadget, by line and endpoint, and the check that a
//! certificate's endpoints can be proved.

use crate::cert::{QuantCert, QuantRelaxation};
use crate::columns::{
    all_below, all_decodable, decoded, lemma_signed_roundtrip, lifted_codes, pow2_i128,
};
use crate::errors::{SnarkError, and_also, holds};
use crate::field::{signed_of, vals};
use crate::logup::{lower, upper};
use crate::network::{ActivationKind, LayerShape, NetworkArchitecture};
use crate::params::{SigmaTables, SnarkParams, tables_fit};
use crate::pcs::{CommittedAux, MlPcs};
use crate::qarray::{QArray1, vector_codes};
use crate::scale::Scale;
use crate::shapes::{law_vector_vars, vector_vars};
use crate::sshape_endpoint::{
    SshapeEndpointProof, endpoint_state, endpoint_verdict, ep_header_verdict,
    verify_sshape_at_endpoint,
};
use crate::sshape_endpoint_prover::{
    endpoint_committed, endpoint_made, endpoint_provable, endpoint_refusal, ep_cells, ep_column,
    ep_columns, ep_range_error, prove_sshape_at_endpoint,
};
use crate::sshape_helpers::lemma_pow2_within_126;
use crate::sshape_witness::{
    ScaleCodes, SplitArithCellWitness, SshapeEndpointKind, SshapeLineKind, compute_witnesses,
    endpoint_cells, endpoint_error, endpoint_scan, scale_in, scale_precondition_holds, single_bit,
};
use crate::transcript::state_of;
use ark_crypto_primitives::sponge::merlin::Transcript;
use vstd::arithmetic::power2::{lemma_pow2_pos, pow2};
use vstd::prelude::*;

verus! {

/// What the prover of the endpoint gadget promises: it refuses inputs as it
/// should, and then leaves the transcript as it was; it makes a proof where it
/// owes one; every proof for committed tables is accepted by a verifier on the
/// same transcript; and every proof holds commitments to the cells.
pub open spec fn endpoint_proved<P: MlPcs>(
    params: SnarkParams<P>,
    layer_idx: usize,
    kind: ActivationKind,
    line: SshapeLineKind,
    endpoint: SshapeEndpointKind,
    preact_codes: Seq<i128>,
    preact_aux: CommittedAux<P>,
    preact: P::Commitment,
    d_aux: CommittedAux<P>,
    d: P::Commitment,
    b_aux: CommittedAux<P>,
    b: P::Commitment,
    s_d: Scale,
    s_b: Scale,
    s_w: Scale,
    r: Result<SshapeEndpointProof<P>, SnarkError>,
    t0: Seq<u8>,
    t1: Seq<u8>,
) -> bool {
    let (dv, bv) = (vals(d_aux.table@), vals(b_aux.table@));
    &&& endpoint_refusal(params, kind, line, preact_codes, dv, bv, s_d, s_b, s_w) matches Some(e)
        ==> r == Err::<SshapeEndpointProof<P>, SnarkError>(e) && t1 == t0
    &&& endpoint_provable(
        params,
        kind,
        line,
        preact_codes,
        preact_aux,
        preact,
        d_aux,
        d,
        b_aux,
        b,
        s_d,
        s_b,
        s_w,
    ) && params.keys_match() ==> r is Ok
    &&& endpoint_committed(
        params.committer_key,
        preact_aux,
        preact,
        d_aux,
        d,
        b_aux,
        b,
        pow2(vector_vars(preact_codes.len())),
    ) && params.keys_match() ==> (r matches Ok(proof) ==> {
        &&& endpoint_verdict(
            params,
            proof,
            layer_idx,
            kind,
            line,
            endpoint,
            preact_codes.len() as usize,
            preact,
            d,
            b,
            s_d,
            s_b,
            s_w,
            t0,
        ) == Ok::<(), SnarkError>(())
        &&& t1 == endpoint_state(
            params.verifier_key,
            proof,
            kind,
            line,
            endpoint,
            preact,
            d,
            b,
            t0,
        )
    })
    &&& r matches Ok(proof) ==> endpoint_made(
        params,
        proof,
        layer_idx,
        kind,
        line,
        endpoint,
        preact_codes.len(),
        ep_cells(
            params,
            kind,
            line,
            preact_codes,
            decoded(dv),
            decoded(bv),
            s_d,
            s_b,
            s_w,
        ),
    )
}

/// Prove that the upper line is above the function at the lower endpoint of
/// every neuron.
pub fn prove_sshape_upper_at_lower<P: MlPcs>(
    layer_idx: usize,
    kind: ActivationKind,
    preact_codes: &[i128],
    preact_aux: &CommittedAux<P>,
    preact_commit: &P::Commitment,
    d_line_aux: &CommittedAux<P>,
    d_line_commit: &P::Commitment,
    b_line_aux: &CommittedAux<P>,
    b_line_commit: &P::Commitment,
    s_d: Scale,
    s_b: Scale,
    s_w: Scale,
    params: &SnarkParams<P>,
    sponge: &mut Transcript,
    rng: &mut P::Randomness,
) -> (r: Result<SshapeEndpointProof<P>, SnarkError>)
    requires
        preact_codes@.len() <= usize::MAX / 2 + 1,
        pow2(vector_vars(preact_codes@.len())) <= usize::MAX,
        tables_fit(*params),
        params.scales_ok(),
    ensures
        endpoint_proved(
            *params,
            layer_idx,
            kind,
            SshapeLineKind::Upper,
            SshapeEndpointKind::Lower,
            preact_codes@,
            *preact_aux,
            *preact_commit,
            *d_line_aux,
            *d_line_commit,
            *b_line_aux,
            *b_line_commit,
            s_d,
            s_b,
            s_w,
            r,
            state_of(*old(sponge)),
            state_of(*final(sponge)),
        ),
{
    prove_sshape_at_endpoint(
        layer_idx,
        kind,
        SshapeLineKind::Upper,
        SshapeEndpointKind::Lower,
        preact_codes,
        preact_aux,
        preact_commit,
        d_line_aux,
        d_line_commit,
        b_line_aux,
        b_line_commit,
        s_d,
        s_b,
        s_w,
        params,
        sponge,
        rng,
    )
}

/// Verify that the upper line is above the function at the lower endpoint of
/// every neuron.
pub fn verify_sshape_upper_at_lower<P: MlPcs>(
    proof: &SshapeEndpointProof<P>,
    expected_layer_idx: usize,
    kind: ActivationKind,
    n_real_neurons: usize,
    preact_commit: &P::Commitment,
    d_line_commit: &P::Commitment,
    b_line_commit: &P::Commitment,
    s_d: Scale,
    s_b: Scale,
    s_w: Scale,
    params: &SnarkParams<P>,
    sponge: &mut Transcript,
) -> (r: Result<(), SnarkError>)
    requires
        n_real_neurons <= usize::MAX / 2 + 1,
        pow2(vector_vars(n_real_neurons as nat)) <= usize::MAX,
        tables_fit(*params),
        params.scales_ok(),
    ensures
        r == endpoint_verdict(
            *params,
            *proof,
            expected_layer_idx,
            kind,
            SshapeLineKind::Upper,
            SshapeEndpointKind::Lower,
            n_real_neurons,
            *preact_commit,
            *d_line_commit,
            *b_line_commit,
            s_d,
            s_b,
            s_w,
            state_of(*old(sponge)),
        ),
        ep_header_verdict(
            *params,
            *proof,
            expected_layer_idx,
            kind,
            SshapeLineKind::Upper,
            SshapeEndpointKind::Lower,
            n_real_neurons,
            s_d,
            s_b,
            s_w,
        ) is Err ==> state_of(*final(sponge)) == state_of(*old(sponge)),
        r is Ok ==> state_of(*final(sponge)) == endpoint_state(
            params.verifier_key,
            *proof,
            kind,
            SshapeLineKind::Upper,
            SshapeEndpointKind::Lower,
            *preact_commit,
            *d_line_commit,
            *b_line_commit,
            state_of(*old(sponge)),
        ),
{
    verify_sshape_at_endpoint(
        proof,
        expected_layer_idx,
        kind,
        SshapeLineKind::Upper,
        SshapeEndpointKind::Lower,
        n_real_neurons,
        preact_commit,
        d_line_commit,
        b_line_commit,
        s_d,
        s_b,
        s_w,
        params,
        sponge,
    )
}

/// Prove that the upper line is above the function at the upper endpoint of
/// every neuron.
pub fn prove_sshape_upper_at_upper<P: MlPcs>(
    layer_idx: usize,
    kind: ActivationKind,
    preact_codes: &[i128],
    preact_aux: &CommittedAux<P>,
    preact_commit: &P::Commitment,
    d_line_aux: &CommittedAux<P>,
    d_line_commit: &P::Commitment,
    b_line_aux: &CommittedAux<P>,
    b_line_commit: &P::Commitment,
    s_d: Scale,
    s_b: Scale,
    s_w: Scale,
    params: &SnarkParams<P>,
    sponge: &mut Transcript,
    rng: &mut P::Randomness,
) -> (r: Result<SshapeEndpointProof<P>, SnarkError>)
    requires
        preact_codes@.len() <= usize::MAX / 2 + 1,
        pow2(vector_vars(preact_codes@.len())) <= usize::MAX,
        tables_fit(*params),
        params.scales_ok(),
    ensures
        endpoint_proved(
            *params,
            layer_idx,
            kind,
            SshapeLineKind::Upper,
            SshapeEndpointKind::Upper,
            preact_codes@,
            *preact_aux,
            *preact_commit,
            *d_line_aux,
            *d_line_commit,
            *b_line_aux,
            *b_line_commit,
            s_d,
            s_b,
            s_w,
            r,
            state_of(*old(sponge)),
            state_of(*final(sponge)),
        ),
{
    prove_sshape_at_endpoint(
        layer_idx,
        kind,
        SshapeLineKind::Upper,
        SshapeEndpointKind::Upper,
        preact_codes,
        preact_aux,
        preact_commit,
        d_line_aux,
        d_line_commit,
        b_line_aux,
        b_line_commit,
        s_d,
        s_b,
        s_w,
        params,
        sponge,
        rng,
    )
}

/// Verify that the upper line is above the function at the upper endpoint of
/// every neuron.
pub fn verify_sshape_upper_at_upper<P: MlPcs>(
    proof: &SshapeEndpointProof<P>,
    expected_layer_idx: usize,
    kind: ActivationKind,
    n_real_neurons: usize,
    preact_commit: &P::Commitment,
    d_line_commit: &P::Commitment,
    b_line_commit: &P::Commitment,
    s_d: Scale,
    s_b: Scale,
    s_w: Scale,
    params: &SnarkParams<P>,
    sponge: &mut Transcript,
) -> (r: Result<(), SnarkError>)
    requires
        n_real_neurons <= usize::MAX / 2 + 1,
        pow2(vector_vars(n_real_neurons as nat)) <= usize::MAX,
        tables_fit(*params),
        params.scales_ok(),
    ensures
        r == endpoint_verdict(
            *params,
            *proof,
            expected_layer_idx,
            kind,
            SshapeLineKind::Upper,
            SshapeEndpointKind::Upper,
            n_real_neurons,
            *preact_commit,
            *d_line_commit,
            *b_line_commit,
            s_d,
            s_b,
            s_w,
            state_of(*old(sponge)),
        ),
        ep_header_verdict(
            *params,
            *proof,
            expected_layer_idx,
            kind,
            SshapeLineKind::Upper,
            SshapeEndpointKind::Upper,
            n_real_neurons,
            s_d,
            s_b,
            s_w,
        ) is Err ==> state_of(*final(sponge)) == state_of(*old(sponge)),
        r is Ok ==> state_of(*final(sponge)) == endpoint_state(
            params.verifier_key,
            *proof,
            kind,
            SshapeLineKind::Upper,
            SshapeEndpointKind::Upper,
            *preact_commit,
            *d_line_commit,
            *b_line_commit,
            state_of(*old(sponge)),
        ),
{
    verify_sshape_at_endpoint(
        proof,
        expected_layer_idx,
        kind,
        SshapeLineKind::Upper,
        SshapeEndpointKind::Upper,
        n_real_neurons,
        preact_commit,
        d_line_commit,
        b_line_commit,
        s_d,
        s_b,
        s_w,
        params,
        sponge,
    )
}

/// Prove that the lower line is below the function at the lower endpoint of
/// every neuron.
pub fn prove_sshape_lower_at_lower<P: MlPcs>(
    layer_idx: usize,
    kind: ActivationKind,
    preact_codes: &[i128],
    preact_aux: &CommittedAux<P>,
    preact_commit: &P::Commitment,
    d_line_aux: &CommittedAux<P>,
    d_line_commit: &P::Commitment,
    b_line_aux: &CommittedAux<P>,
    b_line_commit: &P::Commitment,
    s_d: Scale,
    s_b: Scale,
    s_w: Scale,
    params: &SnarkParams<P>,
    sponge: &mut Transcript,
    rng: &mut P::Randomness,
) -> (r: Result<SshapeEndpointProof<P>, SnarkError>)
    requires
        preact_codes@.len() <= usize::MAX / 2 + 1,
        pow2(vector_vars(preact_codes@.len())) <= usize::MAX,
        tables_fit(*params),
        params.scales_ok(),
    ensures
        endpoint_proved(
            *params,
            layer_idx,
            kind,
            SshapeLineKind::Lower,
            SshapeEndpointKind::Lower,
            preact_codes@,
            *preact_aux,
            *preact_commit,
            *d_line_aux,
            *d_line_commit,
            *b_line_aux,
            *b_line_commit,
            s_d,
            s_b,
            s_w,
            r,
            state_of(*old(sponge)),
            state_of(*final(sponge)),
        ),
{
    prove_sshape_at_endpoint(
        layer_idx,
        kind,
        SshapeLineKind::Lower,
        SshapeEndpointKind::Lower,
        preact_codes,
        preact_aux,
        preact_commit,
        d_line_aux,
        d_line_commit,
        b_line_aux,
        b_line_commit,
        s_d,
        s_b,
        s_w,
        params,
        sponge,
        rng,
    )
}

/// Verify that the lower line is below the function at the lower endpoint of
/// every neuron.
pub fn verify_sshape_lower_at_lower<P: MlPcs>(
    proof: &SshapeEndpointProof<P>,
    expected_layer_idx: usize,
    kind: ActivationKind,
    n_real_neurons: usize,
    preact_commit: &P::Commitment,
    d_line_commit: &P::Commitment,
    b_line_commit: &P::Commitment,
    s_d: Scale,
    s_b: Scale,
    s_w: Scale,
    params: &SnarkParams<P>,
    sponge: &mut Transcript,
) -> (r: Result<(), SnarkError>)
    requires
        n_real_neurons <= usize::MAX / 2 + 1,
        pow2(vector_vars(n_real_neurons as nat)) <= usize::MAX,
        tables_fit(*params),
        params.scales_ok(),
    ensures
        r == endpoint_verdict(
            *params,
            *proof,
            expected_layer_idx,
            kind,
            SshapeLineKind::Lower,
            SshapeEndpointKind::Lower,
            n_real_neurons,
            *preact_commit,
            *d_line_commit,
            *b_line_commit,
            s_d,
            s_b,
            s_w,
            state_of(*old(sponge)),
        ),
        ep_header_verdict(
            *params,
            *proof,
            expected_layer_idx,
            kind,
            SshapeLineKind::Lower,
            SshapeEndpointKind::Lower,
            n_real_neurons,
            s_d,
            s_b,
            s_w,
        ) is Err ==> state_of(*final(sponge)) == state_of(*old(sponge)),
        r is Ok ==> state_of(*final(sponge)) == endpoint_state(
            params.verifier_key,
            *proof,
            kind,
            SshapeLineKind::Lower,
            SshapeEndpointKind::Lower,
            *preact_commit,
            *d_line_commit,
            *b_line_commit,
            state_of(*old(sponge)),
        ),
{
    verify_sshape_at_endpoint(
        proof,
        expected_layer_idx,
        kind,
        SshapeLineKind::Lower,
        SshapeEndpointKind::Lower,
        n_real_neurons,
        preact_commit,
        d_line_commit,
        b_line_commit,
        s_d,
        s_b,
        s_w,
        params,
        sponge,
    )
}

/// Prove that the lower line is below the function at the upper endpoint of
/// every neuron.
pub fn prove_sshape_lower_at_upper<P: MlPcs>(
    layer_idx: usize,
    kind: ActivationKind,
    preact_codes: &[i128],
    preact_aux: &CommittedAux<P>,
    preact_commit: &P::Commitment,
    d_line_aux: &CommittedAux<P>,
    d_line_commit: &P::Commitment,
    b_line_aux: &CommittedAux<P>,
    b_line_commit: &P::Commitment,
    s_d: Scale,
    s_b: Scale,
    s_w: Scale,
    params: &SnarkParams<P>,
    sponge: &mut Transcript,
    rng: &mut P::Randomness,
) -> (r: Result<SshapeEndpointProof<P>, SnarkError>)
    requires
        preact_codes@.len() <= usize::MAX / 2 + 1,
        pow2(vector_vars(preact_codes@.len())) <= usize::MAX,
        tables_fit(*params),
        params.scales_ok(),
    ensures
        endpoint_proved(
            *params,
            layer_idx,
            kind,
            SshapeLineKind::Lower,
            SshapeEndpointKind::Upper,
            preact_codes@,
            *preact_aux,
            *preact_commit,
            *d_line_aux,
            *d_line_commit,
            *b_line_aux,
            *b_line_commit,
            s_d,
            s_b,
            s_w,
            r,
            state_of(*old(sponge)),
            state_of(*final(sponge)),
        ),
{
    prove_sshape_at_endpoint(
        layer_idx,
        kind,
        SshapeLineKind::Lower,
        SshapeEndpointKind::Upper,
        preact_codes,
        preact_aux,
        preact_commit,
        d_line_aux,
        d_line_commit,
        b_line_aux,
        b_line_commit,
        s_d,
        s_b,
        s_w,
        params,
        sponge,
        rng,
    )
}

/// Verify that the lower line is below the function at the upper endpoint of
/// every neuron.
pub fn verify_sshape_lower_at_upper<P: MlPcs>(
    proof: &SshapeEndpointProof<P>,
    expected_layer_idx: usize,
    kind: ActivationKind,
    n_real_neurons: usize,
    preact_commit: &P::Commitment,
    d_line_commit: &P::Commitment,
    b_line_commit: &P::Commitment,
    s_d: Scale,
    s_b: Scale,
    s_w: Scale,
    params: &SnarkParams<P>,
    sponge: &mut Transcript,
) -> (r: Result<(), SnarkError>)
    requires
        n_real_neurons <= usize::MAX / 2 + 1,
        pow2(vector_vars(n_real_neurons as nat)) <= usize::MAX,
        tables_fit(*params),
        params.scales_ok(),
    ensures
        r == endpoint_verdict(
            *params,
            *proof,
            expected_layer_idx,
            kind,
            SshapeLineKind::Lower,
            SshapeEndpointKind::Upper,
            n_real_neurons,
            *preact_commit,
            *d_line_commit,
            *b_line_commit,
            s_d,
            s_b,
            s_w,
            state_of(*old(sponge)),
        ),
        ep_header_verdict(
            *params,
            *proof,
            expected_layer_idx,
            kind,
            SshapeLineKind::Lower,
            SshapeEndpointKind::Upper,
            n_real_neurons,
            s_d,
            s_b,
            s_w,
        ) is Err ==> state_of(*final(sponge)) == state_of(*old(sponge)),
        r is Ok ==> state_of(*final(sponge)) == endpoint_state(
            params.verifier_key,
            *proof,
            kind,
            SshapeLineKind::Lower,
            SshapeEndpointKind::Upper,
            *preact_commit,
            *d_line_commit,
            *b_line_commit,
            state_of(*old(sponge)),
        ),
{
    verify_sshape_at_endpoint(
        proof,
        expected_layer_idx,
        kind,
        SshapeLineKind::Lower,
        SshapeEndpointKind::Upper,
        n_real_neurons,
        preact_commit,
        d_line_commit,
        b_line_commit,
        s_d,
        s_b,
        s_w,
        params,
        sponge,
    )
}

/// A proof for one line and endpoint is rejected under any other.
pub proof fn law_no_replay<P: MlPcs>(
    params: SnarkParams<P>,
    proof: SshapeEndpointProof<P>,
    layer_idx: usize,
    kind: ActivationKind,
    line: SshapeLineKind,
    endpoint: SshapeEndpointKind,
    other_kind: ActivationKind,
    other_line: SshapeLineKind,
    other_endpoint: SshapeEndpointKind,
    n: usize,
    preact: P::Commitment,
    d: P::Commitment,
    b: P::Commitment,
    s_d: Scale,
    s_b: Scale,
    s_w: Scale,
    t0: Seq<u8>,
    t1: Seq<u8>,
)
    requires
        endpoint_verdict(
            params,
            proof,
            layer_idx,
            kind,
            line,
            endpoint,
            n,
            preact,
            d,
            b,
            s_d,
            s_b,
            s_w,
            t0,
        ) == Ok::<(), SnarkError>(()),
        line != other_line || endpoint != other_endpoint || kind != other_kind,
    ensures
        endpoint_verdict(
            params,
            proof,
            layer_idx,
            other_kind,
            other_line,
            other_endpoint,
            n,
            preact,
            d,
            b,
            s_d,
            s_b,
            s_w,
            t1,
        ) is Err,
{
}

// ---- The check without cryptography ----

/// The scale codes for given scales and envelope tables.
pub open spec fn table_scale_codes(pre: SigmaTables, s_d: Scale, s_b: Scale, s_w: Scale) -> ScaleCodes {
    ScaleCodes {
        s_d: pow2(s_d.e as nat) as int,
        s_b: pow2(s_b.e as nat) as int,
        s_w: pow2(s_w.e as nat) as int,
        s_v: pow2(pre.s_v_log2 as nat) as int,
        s_w_log2: s_w.e as int,
    }
}

/// Whether the range-checked integers of a cell are below a bound.
pub open spec fn cell_in_range(c: SplitArithCellWitness, bound: int) -> bool {
    &&& 0 <= c.abs_l < bound
    &&& 0 <= c.dx_step_1_rem < bound
    &&& 0 <= c.dx_sigma_rem < bound
    &&& 0 <= c.b_sigma_rem < bound
    &&& 0 <= c.diff < bound
}

/// The verdict on the cells of a layer for one line and endpoint.
pub open spec fn cells_verdict(
    pre: SigmaTables,
    kind: ActivationKind,
    line: SshapeLineKind,
    preact: Seq<i128>,
    d: Seq<i128>,
    b: Seq<i128>,
    s_d: Scale,
    s_b: Scale,
    s_w: Scale,
    range_bits: nat,
) -> Result<(), SnarkError> {
    let bits = range_bits as int;
    let s = table_scale_codes(pre, s_d, s_b, s_w);
    let n = preact.len();
    if !(scale_in(s_d, bits) && scale_in(s_b, bits) && scale_in(s_w, bits)) {
        Err(
            SnarkError::RelaxationSoundnessFinalCheckFailed {
                which: "sshape_endpoint: DENOM ≤ 2^GADGET_RANGE_BITS precondition",
            },
        )
    } else if pre.s_x_log2 < s_w.e {
        Err(SnarkError::Reserved { what: "sshape_endpoint: s_w > s_x not yet supported" })
    } else {
        match endpoint_error(pre, kind, line, preact, d, b, s, n) {
            Some(e) => Err(e),
            None => holds(
                forall|i: int|
                    0 <= i < n ==> cell_in_range(
                        #[trigger] endpoint_cells(pre, kind, line, preact, d, b, s, n)[i],
                        pow2(range_bits) as int,
                    ),
                SnarkError::RelaxationSoundnessFinalCheckFailed {
                    which: "sshape_endpoint: diff out of range",
                },
            ),
        }
    }
}

/// Check, without cryptography, that the cells of a layer for one line and
/// endpoint can be proved.
pub fn endpoint_cells_in_range(
    pre: &SigmaTables,
    kind: ActivationKind,
    line: SshapeLineKind,
    preact_codes: &[i128],
    d_codes: &[i128],
    b_codes: &[i128],
    s_d: Scale,
    s_b: Scale,
    s_w: Scale,
    range_bits: usize,
) -> (r: Result<(), SnarkError>)
    requires
        pre.wf(),
        kind != ActivationKind::ReLU,
        range_bits < 127,
        d_codes@.len() >= preact_codes@.len(),
        b_codes@.len() >= preact_codes@.len(),
    ensures
        r == cells_verdict(
            *pre,
            kind,
            line,
            preact_codes@,
            d_codes@,
            b_codes@,
            s_d,
            s_b,
            s_w,
            range_bits as nat,
        ),
{
    if !scale_precondition_holds(s_d, s_b, s_w, range_bits) {
        return Err(
            SnarkError::RelaxationSoundnessFinalCheckFailed {
                which: "sshape_endpoint: DENOM ≤ 2^GADGET_RANGE_BITS precondition",
            },
        );
    }
    if pre.s_x_log2 < s_w.e {
        return Err(SnarkError::Reserved { what: "sshape_endpoint: s_w > s_x not yet supported" });
    }
    let n: usize = preact_codes.len();
    let s_w_code: i128 = pow2_i128(s_w.e as usize);
    let s_v_code: i128 = pow2_i128(pre.s_v_log2 as usize);
    proof {
        lemma_pow2_pos(s_w.e as nat);
        lemma_pow2_within_126(pre.s_v_log2 as nat);
    }
    assert(single_bit(s_w_code as int, s_w.e as nat));
    let cells: Vec<SplitArithCellWitness> = match compute_witnesses(
        pre,
        kind,
        line,
        preact_codes,
        d_codes,
        b_codes,
        pow2_i128(s_d.e as usize),
        pow2_i128(s_b.e as usize),
        s_w_code,
        s_v_code,
        n,
    ) {
        Ok(c) => c,
        Err(e) => {
            return Err(e);
        },
    };
    if !cells_below(&cells, pow2_i128(range_bits)) {
        return Err(
            SnarkError::RelaxationSoundnessFinalCheckFailed {
                which: "sshape_endpoint: diff out of range",
            },
        );
    }
    Ok(())
}

/// Whether the range-checked integers of all cells are below a bound.
fn cells_below(cells: &Vec<SplitArithCellWitness>, bound: i128) -> (r: bool)
    ensures
        r == forall|i: int|
            0 <= i < cells@.len() ==> cell_in_range(#[trigger] cells@[i], bound as int),
{
    let mut i: usize = 0;
    while i < cells.len()
        invariant
            i <= cells@.len(),
            forall|k: int| 0 <= k < i ==> cell_in_range(#[trigger] cells@[k], bound as int),
        decreases cells@.len() - i,
    {
        let c: &SplitArithCellWitness = &cells[i];
        if c.abs_l < 0 || c.abs_l >= bound || c.dx_step_1_rem < 0 || c.dx_step_1_rem >= bound
            || c.dx_sigma_rem < 0 || c.dx_sigma_rem >= bound || c.b_sigma_rem < 0 || c.b_sigma_rem
            >= bound || c.diff < 0 || c.diff >= bound {
            assert(!cell_in_range(cells@[i as int], bound as int));
            return false;
        }
        i += 1;
    }
    true
}

/// The codes of a vector, padded with zeros.
pub open spec fn codes_padded(codes: Seq<i128>, len: nat) -> Seq<i128> {
    Seq::new(
        len,
        |i: int|
            if i < codes.len() {
                codes[i]
            } else {
                0i128
            },
    )
}

/// The scan of real cells does not look at the padding.
proof fn lemma_scan_ignores_padding(
    pre: SigmaTables,
    kind: ActivationKind,
    line: SshapeLineKind,
    preact: Seq<i128>,
    d: Seq<i128>,
    b: Seq<i128>,
    s: ScaleCodes,
    np: nat,
    i: nat,
)
    requires
        preact.len() <= np,
        d.len() == preact.len(),
        b.len() == preact.len(),
        i <= preact.len(),
    ensures
        endpoint_scan(pre, kind, line, preact, d, b, s, preact.len(), i) == endpoint_scan(
            pre,
            kind,
            line,
            preact,
            codes_padded(d, np),
            codes_padded(b, np),
            s,
            np,
            i,
        ),
    decreases preact.len() - i,
{
    if i < preact.len() {
        lemma_scan_ignores_padding(pre, kind, line, preact, d, b, s, np, i + 1);
    }
}

/// The check without cryptography accepts a layer exactly where the prover
/// does not refuse it.
pub proof fn law_check_agrees_with_prover<P: MlPcs>(
    params: SnarkParams<P>,
    kind: ActivationKind,
    line: SshapeLineKind,
    preact: Seq<i128>,
    d: Seq<i128>,
    b: Seq<i128>,
    s_d: Scale,
    s_b: Scale,
    s_w: Scale,
)
    requires
        kind != ActivationKind::ReLU,
        preact.len() >= 1,
        d.len() == preact.len(),
        b.len() == preact.len(),
        params.sigma_x_scale_log2 == params.preprocessed.spec_sigma().s_x_log2,
        params.sigma_v_scale_log2 == params.preprocessed.spec_sigma().s_v_log2,
    ensures
        cells_verdict(
            params.preprocessed.spec_sigma(),
            kind,
            line,
            preact,
            d,
            b,
            s_d,
            s_b,
            s_w,
            params.gadget_range_bits as nat,
        ) is Ok <==> endpoint_refusal(
            params,
            kind,
            line,
            preact,
            lifted_codes(codes_padded(d, pow2(vector_vars(preact.len())))),
            lifted_codes(codes_padded(b, pow2(vector_vars(preact.len())))),
            s_d,
            s_b,
            s_w,
        ) is None,
{
    reveal(endpoint_error);
    reveal(ep_range_error);
    let pre = params.preprocessed.spec_sigma();
    let n = preact.len();
    let np = pow2(vector_vars(n));
    let bits = params.gadget_range_bits as nat;
    let s = table_scale_codes(pre, s_d, s_b, s_w);
    let (dp, bp) = (codes_padded(d, np), codes_padded(b, np));
    law_vector_vars(n);
    lemma_pow2_pos(bits);
    lemma_lifted_decodes(dp);
    lemma_lifted_decodes(bp);
    lemma_scan_ignores_padding(pre, kind, line, preact, d, b, s, np, 0);
    let bound = pow2(bits) as int;
    let few = endpoint_cells(pre, kind, line, preact, d, b, s, n);
    let all = endpoint_cells(pre, kind, line, preact, dp, bp, s, np);
    let cols = ep_columns(all);
    assert forall|j: int| 0 <= j < 11 implies #[trigger] cols[j] == ep_column(all, j) by {}
    let in_few = forall|i: int| 0 <= i < n ==> cell_in_range(#[trigger] few[i], bound);
    let in_all = ep_range_error(cols, bound) is None;
    assert forall|i: int| 0 <= i < n implies #[trigger] few[i] == all[i] by {}
    if in_few {
        assert forall|i: int| 0 <= i < np implies cell_in_range(#[trigger] all[i], bound) by {
            if i < n {
                assert(few[i] == all[i]);
            }
        }
        assert(all_below(cols[0], bound)) by {
            assert forall|i: int| 0 <= i < np implies 0 <= #[trigger] cols[0][i] < bound by {
                assert(cell_in_range(all[i], bound));
            }
        }
        assert(all_below(cols[5], bound)) by {
            assert forall|i: int| 0 <= i < np implies 0 <= #[trigger] cols[5][i] < bound by {
                assert(cell_in_range(all[i], bound));
            }
        }
        assert(all_below(cols[7], bound)) by {
            assert forall|i: int| 0 <= i < np implies 0 <= #[trigger] cols[7][i] < bound by {
                assert(cell_in_range(all[i], bound));
            }
        }
        assert(all_below(cols[9], bound)) by {
            assert forall|i: int| 0 <= i < np implies 0 <= #[trigger] cols[9][i] < bound by {
                assert(cell_in_range(all[i], bound));
            }
        }
        assert(all_below(cols[10], bound)) by {
            assert forall|i: int| 0 <= i < np implies 0 <= #[trigger] cols[10][i] < bound by {
                assert(cell_in_range(all[i], bound));
            }
        }
    }
    if in_all {
        assert forall|i: int| 0 <= i < n implies cell_in_range(#[trigger] few[i], bound) by {
            assert(few[i] == all[i]);
            assert(cols[0][i] == all[i].abs_l && cols[5][i] == all[i].dx_step_1_rem);
            assert(cols[7][i] == all[i].dx_sigma_rem && cols[9][i] == all[i].b_sigma_rem);
            assert(cols[10][i] == all[i].diff);
        }
    }
}

/// Lifting codes and reading them back gives the codes.
pub proof fn lemma_lifted_decodes(codes: Seq<i128>)
    ensures
        decoded(lifted_codes(codes)) == codes,
        all_decodable(lifted_codes(codes)),
{
    assert forall|i: int| 0 <= i < codes.len() implies signed_of(#[trigger] lifted_codes(codes)[i])
        == Some(codes[i]) by {
        lemma_signed_roundtrip(codes[i]);
    }
    assert(decoded(lifted_codes(codes)) =~= codes);
}

// ---- The check of a whole certificate ----

/// The verdict on the endpoints of one layer.
pub open spec fn layer_verdict(
    pre: SigmaTables,
    kind: ActivationKind,
    rel: QuantRelaxation,
    lower: QArray1,
    upper: QArray1,
    s_w: Scale,
    range_bits: nat,
) -> Result<(), SnarkError> {
    let (l, u) = (vector_codes(lower.codes), vector_codes(upper.codes));
    let (du, bu) = (vector_codes(rel.d_upper.codes), vector_codes(rel.b_upper.codes));
    let (dl, bl) = (vector_codes(rel.d_lower.codes), vector_codes(rel.b_lower.codes));
    let (sdu, sbu, sdl, sbl) = (
        rel.d_upper.scale,
        rel.b_upper.scale,
        rel.d_lower.scale,
        rel.b_lower.scale,
    );
    let up = SshapeLineKind::Upper;
    let lo = SshapeLineKind::Lower;
    and_also(
        cells_verdict(pre, kind, up, l, du, bu, sdu, sbu, s_w, range_bits),
        and_also(
            cells_verdict(pre, kind, up, u, du, bu, sdu, sbu, s_w, range_bits),
            and_also(
                cells_verdict(pre, kind, lo, l, dl, bl, sdl, sbl, s_w, range_bits),
                cells_verdict(pre, kind, lo, u, dl, bl, sdl, sbl, s_w, range_bits),
            ),
        ),
    )
}

/// An entry of a sequence of options, if there is one.
pub open spec fn entry<T>(s: Seq<Option<T>>, i: int) -> Option<T> {
    if 0 <= i < s.len() {
        s[i]
    } else {
        None
    }
}

/// The verdict on layer `i` of a certificate.
pub open spec fn cert_layer_verdict(
    layers: Seq<LayerShape>,
    cert: QuantCert,
    pre: SigmaTables,
    range_bits: nat,
    i: int,
) -> Result<(), SnarkError> {
    match layers[i] {
        LayerShape::Activation { kind } => if kind is ReLU {
            Ok(())
        } else {
            match entry(cert.relaxations@, i) {
                None => Err(
                    SnarkError::ShapeMismatch {
                        what: "provable check: missing sigmoid/tanh relaxation",
                    },
                ),
                Some(rel) => if i == 0 {
                    Err(
                        SnarkError::ArchitectureMismatch {
                            what: "sigmoid/tanh activation has no preceding Linear layer",
                        },
                    )
                } else {
                    match entry(cert.preact_lower@, i - 1) {
                        None => Err(
                            SnarkError::ShapeMismatch {
                                what: "provable check: missing preact_lower for preceding Linear",
                            },
                        ),
                        Some(lower) => match entry(cert.preact_upper@, i - 1) {
                            None => Err(
                                SnarkError::ShapeMismatch {
                                    what: "provable check: missing preact_upper for preceding Linear",
                                },
                            ),
                            Some(upper) => layer_verdict(
                                pre,
                                kind,
                                rel,
                                lower,
                                upper,
                                cert.scales.working,
                                range_bits,
                            ),
                        },
                    }
                },
            }
        },
        _ => Ok(()),
    }
}

/// The verdict on the layers from `i` on.
pub open spec fn cert_verdict(
    layers: Seq<LayerShape>,
    cert: QuantCert,
    pre: SigmaTables,
    range_bits: nat,
    i: nat,
) -> Result<(), SnarkError>
    decreases layers.len() - i,
{
    if i >= layers.len() {
        Ok(())
    } else {
        and_also(
            cert_layer_verdict(layers, cert, pre, range_bits, i as int),
            cert_verdict(layers, cert, pre, range_bits, i + 1),
        )
    }
}

/// Whether every line of a relaxation has an entry for every preactivation.
pub open spec fn lines_cover(rel: QuantRelaxation, preact: QArray1) -> bool {
    let n = vector_codes(preact.codes).len();
    &&& vector_codes(rel.d_upper.codes).len() >= n
    &&& vector_codes(rel.b_upper.codes).len() >= n
    &&& vector_codes(rel.d_lower.codes).len() >= n
    &&& vector_codes(rel.b_lower.codes).len() >= n
}

/// Whether the lines of layer `i` have an entry for every preactivation.
pub open spec fn layer_covered(cert: QuantCert, i: int) -> bool {
    entry(cert.relaxations@, i) matches Some(rel) ==> {
        &&& entry(cert.preact_lower@, i - 1) matches Some(p) ==> lines_cover(rel, p)
        &&& entry(cert.preact_upper@, i - 1) matches Some(p) ==> lines_cover(rel, p)
    }
}

/// Check the endpoints of one layer.
fn check_layer(
    pre: &SigmaTables,
    kind: ActivationKind,
    rel: &QuantRelaxation,
    lower: &QArray1,
    upper: &QArray1,
    s_w: Scale,
    range_bits: usize,
) -> (r: Result<(), SnarkError>)
    requires
        pre.wf(),
        kind != ActivationKind::ReLU,
        range_bits < 127,
        lines_cover(*rel, *lower),
        lines_cover(*rel, *upper),
    ensures
        r == layer_verdict(*pre, kind, *rel, *lower, *upper, s_w, range_bits as nat),
{
    let pl: Vec<i128> = lower.codes.to_vec();
    let pu: Vec<i128> = upper.codes.to_vec();
    let du: Vec<i128> = rel.d_upper.codes.to_vec();
    let bu: Vec<i128> = rel.b_upper.codes.to_vec();
    let dl: Vec<i128> = rel.d_lower.codes.to_vec();
    let bl: Vec<i128> = rel.b_lower.codes.to_vec();
    let (sdu, sbu): (Scale, Scale) = (rel.d_upper.scale, rel.b_upper.scale);
    let (sdl, sbl): (Scale, Scale) = (rel.d_lower.scale, rel.b_lower.scale);
    let up: SshapeLineKind = SshapeLineKind::Upper;
    let lo: SshapeLineKind = SshapeLineKind::Lower;
    match endpoint_cells_in_range(
        pre,
        kind,
        up,
        pl.as_slice(),
        du.as_slice(),
        bu.as_slice(),
        sdu,
        sbu,
        s_w,
        range_bits,
    ) {
        Ok(_) => {},
        Err(e) => {
            return Err(e);
        },
    }
    match endpoint_cells_in_range(
        pre,
        kind,
        up,
        pu.as_slice(),
        du.as_slice(),
        bu.as_slice(),
        sdu,
        sbu,
        s_w,
        range_bits,
    ) {
        Ok(_) => {},
        Err(e) => {
            return Err(e);
        },
    }
    match endpoint_cells_in_range(
        pre,
        kind,
        lo,
        pl.as_slice(),
        dl.as_slice(),
        bl.as_slice(),
        sdl,
        sbl,
        s_w,
        range_bits,
    ) {
        Ok(_) => {},
        Err(e) => {
            return Err(e);
        },
    }
    endpoint_cells_in_range(
        pre,
        kind,
        lo,
        pu.as_slice(),
        dl.as_slice(),
        bl.as_slice(),
        sdl,
        sbl,
        s_w,
        range_bits,
    )
}

/// A reference to an entry, if there is one.
fn entry_ref<T>(v: &Vec<Option<T>>, i: usize) -> (r: Option<&T>)
    ensures
        match entry(v@, i as int) {
            Some(x) => r == Some(&x),
            None => r is None,
        },
{
    if i < v.len() {
        v[i].as_ref()
    } else {
        None
    }
}

/// Whether the endpoint gadgets accept a quantized certificate at a range
/// budget: checks both lines at both endpoints of every sigmoid and tanh
/// layer, from the certificate's data alone. `pre` holds the envelope tables.
pub fn quant_cert_sshape_endpoints_ok(
    network: &NetworkArchitecture,
    cert: &QuantCert,
    pre: &SigmaTables,
    range_bits: usize,
) -> (r: Result<(), SnarkError>)
    requires
        pre.wf(),
        range_bits < 127,
        forall|i: int| 0 <= i < network.layers@.len() ==> #[trigger] layer_covered(*cert, i),
    ensures
        r == cert_verdict(network.layers@, *cert, *pre, range_bits as nat, 0),
{
    let layers: &Vec<LayerShape> = network.layers();
    let ghost ls = layers@;
    let ghost bits = range_bits as nat;
    let mut i: usize = 0;
    while i < layers.len()
        invariant
            i <= layers@.len(),
            ls == layers@,
            *layers == network.layers,
            bits == range_bits,
            pre.wf(),
            range_bits < 127,
            forall|k: int| 0 <= k < network.layers@.len() ==> #[trigger] layer_covered(*cert, k),
            cert_verdict(ls, *cert, *pre, bits, 0) == cert_verdict(ls, *cert, *pre, bits, i as nat),
        decreases layers@.len() - i,
    {
        assert(layer_covered(*cert, i as int));
        match layers[i] {
            LayerShape::Activation { kind } => {
                if kind != ActivationKind::ReLU {
                    let rel: &QuantRelaxation = match entry_ref(&cert.relaxations, i) {
                        Some(x) => x,
                        None => {
                            return Err(
                                SnarkError::ShapeMismatch {
                                    what: "provable check: missing sigmoid/tanh relaxation",
                                },
                            );
                        },
                    };
                    if i == 0 {
                        return Err(
                            SnarkError::ArchitectureMismatch {
                                what: "sigmoid/tanh activation has no preceding Linear layer",
                            },
                        );
                    }
                    let lower: &QArray1 = match entry_ref(&cert.preact_lower, i - 1) {
                        Some(x) => x,
                        None => {
                            return Err(
                                SnarkError::ShapeMismatch {
                                    what: "provable check: missing preact_lower for preceding Linear",
                                },
                            );
                        },
                    };
                    let upper: &QArray1 = match entry_ref(&cert.preact_upper, i - 1) {
                        Some(x) => x,
                        None => {
                            return Err(
                                SnarkError::ShapeMismatch {
                                    what: "provable check: missing preact_upper for preceding Linear",
                                },
                            );
                        },
                    };
                    match check_layer(
                        pre,
                        kind,
                        rel,
                        lower,
                        upper,
                        cert.scales.working,
                        range_bits,
                    ) {
                        Ok(_) => {},
                        Err(e) => {
                            return Err(e);
                        },
                    }
                }
            },
            LayerShape::Linear { in_dim: _, out_dim: _ } => {},
        }
        i += 1;
    }
    Ok(())
}

} // verus!
