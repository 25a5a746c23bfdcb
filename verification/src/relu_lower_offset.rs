//! The gadget that proves `b_lower[j] = 0` for every neuron of a ReLU layer,
//! by one opening of `b_lower` at a random point.

use crate::columns::lemma_mle_unpadded;
use crate::eq_two_product::is_pow2;
use crate::errors::SnarkError;
use crate::field::{Fr, lemma_view_in_field, vals};
use crate::mle::{lemma_pow2_machine, log2_exact, mle, same_elements};
use crate::mle_laws::{constant, law_mle_constant};
use crate::params::SnarkParams;
use crate::pcs::{
    CommittedAux, MlPcs, abs_com, absorb_commitment, aux_of, hyrax_open_at, hyrax_verify_at,
    open_state, open_verdict,
};
use crate::transcript::{
    abs_u64, absorb_u64, after_squeeze, squeezable, squeeze, squeezed, state_of,
};
use ark_crypto_primitives::sponge::merlin::Transcript;
use vstd::arithmetic::power2::pow2;
use vstd::prelude::*;

verus! {

/// Proof that `b_lower[j] = 0` for every neuron `j`.
pub struct ReluLowerOffsetProof<P: MlPcs> {
    /// Network index of the activation layer that this proof binds.
    pub layer_idx: usize,
    /// The number of variables of the commitment to `b_lower`.
    pub b_lower_n_vars: usize,
    /// The point at which `b_lower` is opened.
    pub r: Vec<Fr>,
    /// The claimed value, which the verifier asserts to be zero.
    pub b_lower_eval: Fr,
    pub b_lower_open: P::Proof,
}

/// The transcript state before the point is drawn.
pub open spec fn lower_offset_t1<P: MlPcs>(
    layer_idx: usize,
    n_vars: usize,
    com: P::Commitment,
    t0: Seq<u8>,
) -> Seq<u8> {
    abs_com::<P>(abs_u64(abs_u64(t0, layer_idx as u64), n_vars as u64), com)
}

/// The state after the whole check.
pub open spec fn lower_offset_state<P: MlPcs>(
    vk: P::VerifierKey,
    proof: ReluLowerOffsetProof<P>,
    com: P::Commitment,
    t0: Seq<u8>,
) -> Seq<u8> {
    open_state::<P>(
        vk,
        com,
        vals(proof.r@),
        proof.b_lower_eval@,
        proof.b_lower_open,
        proof.b_lower_n_vars as nat,
        after_squeeze(
            lower_offset_t1::<P>(proof.layer_idx, proof.b_lower_n_vars, com, t0),
            proof.b_lower_n_vars as int,
        ),
    )
}

/// The verdict on a proof.
pub open spec fn lower_offset_verdict<P: MlPcs>(
    vk: P::VerifierKey,
    proof: ReluLowerOffsetProof<P>,
    layer_idx: usize,
    com: P::Commitment,
    n_vars: usize,
    t0: Seq<u8>,
) -> Result<(), SnarkError> {
    let t1 = lower_offset_t1::<P>(layer_idx, n_vars, com, t0);
    if proof.layer_idx != layer_idx {
        Err(SnarkError::ArchitectureMismatch { what: "relaxation_soundness: layer_idx mismatch" })
    } else if proof.b_lower_n_vars != n_vars {
        Err(
            SnarkError::ArchitectureMismatch {
                what: "relaxation_soundness: b_lower_n_vars mismatch with public architecture",
            },
        )
    } else if proof.r@.len() != n_vars {
        Err(
            SnarkError::ShapeMismatch {
                what: "relaxation_soundness: r length must equal b_lower_n_vars",
            },
        )
    } else if squeezed(t1, n_vars as int) != vals(proof.r@) {
        Err(SnarkError::TranscriptMismatch)
    } else {
        match open_verdict::<P>(
            vk,
            com,
            vals(proof.r@),
            proof.b_lower_eval@,
            proof.b_lower_open,
            n_vars as nat,
            after_squeeze(t1, n_vars as int),
        ) {
            Err(e) => Err(e),
            Ok(false) => Err(
                SnarkError::PcsOpenRejected { which: "crate::snark::activation_gadget::b_lower" },
            ),
            Ok(true) => if proof.b_lower_eval@ != 0 {
                Err(SnarkError::RelaxationSoundnessReluLowerOffsetNonZero { layer_idx })
            } else {
                Ok(())
            },
        }
    }
}

/// Prove `b_lower[j] = 0` for every neuron `j` of a ReLU layer. An all-zero
/// committed table gives a proof that the verifier accepts.
pub fn prove_relu_lower_offset<P: MlPcs>(
    layer_idx: usize,
    b_lower_aux: &CommittedAux<P>,
    b_lower_commit: &P::Commitment,
    params: &SnarkParams<P>,
    sponge: &mut Transcript,
    rng: &mut P::Randomness,
) -> (r: Result<ReluLowerOffsetProof<P>, SnarkError>)
    ensures
        !is_pow2(b_lower_aux.table@.len()) ==> r == Err::<ReluLowerOffsetProof<P>, SnarkError>(
            SnarkError::ShapeMismatch {
                what: "crate::snark::activation_gadget::prove_relu_lower_offset: b_lower MLE length must be a power of two",
            },
        ),
        is_pow2(b_lower_aux.table@.len()) && aux_of(
            params.committer_key,
            *b_lower_commit,
            *b_lower_aux,
        ) ==> r is Ok,
        r matches Ok(proof) ==> {
            let t0 = state_of(*old(sponge));
            &&& proof.layer_idx == layer_idx
            &&& b_lower_aux.table@.len() == pow2(proof.b_lower_n_vars as nat)
            &&& vals(proof.r@) == squeezed(
                lower_offset_t1::<P>(layer_idx, proof.b_lower_n_vars, *b_lower_commit, t0),
                proof.b_lower_n_vars as int,
            )
            &&& (aux_of(params.committer_key, *b_lower_commit, *b_lower_aux)
                && params.keys_match()) ==> {
                &&& proof.b_lower_eval@ == mle(vals(b_lower_aux.table@), vals(proof.r@))
                &&& state_of(*final(sponge)) == lower_offset_state(
                    params.verifier_key,
                    proof,
                    *b_lower_commit,
                    t0,
                )
                &&& (forall|i: int|
                    0 <= i < b_lower_aux.table@.len() ==> (#[trigger] b_lower_aux.table@[i])@ == 0)
                    ==> lower_offset_verdict(
                    params.verifier_key,
                    proof,
                    layer_idx,
                    *b_lower_commit,
                    proof.b_lower_n_vars,
                    t0,
                ) == Ok::<(), SnarkError>(())
            }
        },
{
    let n_vars: usize = match log2_exact(b_lower_aux.table.len()) {
        Some(k) => k,
        None => {
            return Err(
                SnarkError::ShapeMismatch {
                    what: "crate::snark::activation_gadget::prove_relu_lower_offset: b_lower MLE length must be a power of two",
                },
            );
        },
    };
    assert(is_pow2(b_lower_aux.table@.len()));
    proof {
        lemma_pow2_machine(n_vars as nat);
    }
    absorb_u64(sponge, layer_idx as u64);
    absorb_u64(sponge, n_vars as u64);
    absorb_commitment::<P>(sponge, b_lower_commit);
    let r: Vec<Fr> = squeeze(sponge, n_vars);
    proof {
        broadcast use lemma_view_in_field;

        lemma_mle_unpadded(vals(b_lower_aux.table@), vals(r@));
        if forall|i: int|
            0 <= i < b_lower_aux.table@.len() ==> (#[trigger] b_lower_aux.table@[i])@ == 0 {
            assert(vals(b_lower_aux.table@) =~= constant(0, pow2(n_vars as nat)));
            law_mle_constant(0, vals(r@));
        }
    }
    let (b_lower_eval, b_lower_open): (Fr, P::Proof) = match hyrax_open_at::<P>(
        &params.committer_key,
        b_lower_aux,
        b_lower_commit,
        r.as_slice(),
        sponge,
        rng,
    ) {
        Ok(x) => x,
        Err(e) => {
            return Err(e);
        },
    };
    Ok(ReluLowerOffsetProof { layer_idx, b_lower_n_vars: n_vars, r, b_lower_eval, b_lower_open })
}

/// Verify a proof against the public commitment to `b_lower`.
pub fn verify_relu_lower_offset<P: MlPcs>(
    proof: &ReluLowerOffsetProof<P>,
    expected_layer_idx: usize,
    b_lower_commit: &P::Commitment,
    expected_b_lower_n_vars: usize,
    params: &SnarkParams<P>,
    sponge: &mut Transcript,
) -> (r: Result<(), SnarkError>)
    requires
        squeezable(expected_b_lower_n_vars as int),
    ensures
        r == lower_offset_verdict(
            params.verifier_key,
            *proof,
            expected_layer_idx,
            *b_lower_commit,
            expected_b_lower_n_vars,
            state_of(*old(sponge)),
        ),
        proof.layer_idx != expected_layer_idx || proof.b_lower_n_vars != expected_b_lower_n_vars
            || proof.r@.len() != expected_b_lower_n_vars ==> state_of(*final(sponge)) == state_of(
            *old(sponge),
        ),
        r is Ok ==> state_of(*final(sponge)) == lower_offset_state(
            params.verifier_key,
            *proof,
            *b_lower_commit,
            state_of(*old(sponge)),
        ),
{
    if proof.layer_idx != expected_layer_idx {
        return Err(
            SnarkError::ArchitectureMismatch { what: "relaxation_soundness: layer_idx mismatch" },
        );
    }
    if proof.b_lower_n_vars != expected_b_lower_n_vars {
        return Err(
            SnarkError::ArchitectureMismatch {
                what: "relaxation_soundness: b_lower_n_vars mismatch with public architecture",
            },
        );
    }
    if proof.r.len() != proof.b_lower_n_vars {
        return Err(
            SnarkError::ShapeMismatch {
                what: "relaxation_soundness: r length must equal b_lower_n_vars",
            },
        );
    }
    absorb_u64(sponge, proof.layer_idx as u64);
    absorb_u64(sponge, proof.b_lower_n_vars as u64);
    absorb_commitment::<P>(sponge, b_lower_commit);
    let expected_r: Vec<Fr> = squeeze(sponge, proof.b_lower_n_vars);
    if !same_elements(expected_r.as_slice(), proof.r.as_slice()) {
        return Err(SnarkError::TranscriptMismatch);
    }
    match hyrax_verify_at::<P>(
        &params.verifier_key,
        b_lower_commit,
        proof.r.as_slice(),
        proof.b_lower_eval,
        &proof.b_lower_open,
        proof.b_lower_n_vars,
        sponge,
    ) {
        Ok(true) => {},
        Ok(false) => {
            return Err(
                SnarkError::PcsOpenRejected { which: "crate::snark::activation_gadget::b_lower" },
            );
        },
        Err(e) => {
            return Err(e);
        },
    }
    if proof.b_lower_eval != Fr::from_u64(0) {
        return Err(
            SnarkError::RelaxationSoundnessReluLowerOffsetNonZero { layer_idx: proof.layer_idx },
        );
    }
    Ok(())
}

} // verus!
