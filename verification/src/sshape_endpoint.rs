//! The gadget that proves that a line bounds a sigmoid or tanh at a
//! preactivation endpoint of every neuron: an upper line from above, a lower
//! one from below.
//!
//! The line's value at the envelope's scale is built by the split arithmetic.
//! Its remainders and the gap to the envelope are range-checked, the envelope
//! rows are looked up in the public table, and the identities are folded into
//! one degree-4 sumcheck.

use crate::column_set::{
    abs_coms, absorb_all, derefs, picked, ranges_state, ranges_verdict, verify_ranges,
};
use crate::columns::{even_vars, mask, mask_table, pow2_i128};
use crate::envelope::{
    env_alpha_1, env_alpha_2, env_beta, env_t3, envelope_value, row_key,
    sigma_envelope_3col_table_mle_eval, sigma_tables,
};
use crate::errors::{SnarkError, and_also, holds, opened};
use crate::expr::{Expr, MaskedCombination, masked_value};
use crate::field::{Fr, fsub, vals};
use crate::logup::{LogUpProof, lower, tops_cancel, upper, vals4};
use crate::lookup_pair::{check_tops_cancel, pair_state, pair_verdict, verify_pair};
use crate::mle::{
    build_eq_table, ceil_log2, eq_table, eval_multilinear_full, lemma_ceil_log2_of_pow2,
    lemma_pow2_machine, log2_exact, mle, pow2_usize, same_elements,
};
use crate::network::ActivationKind;
use crate::params::{SnarkParams, tables_fit};
use crate::pcs::{
    BatchVerifySpec, MlPcs, abs_com, absorb_commitment, batch_coms, batch_open_state,
    batch_open_verdict, batch_values, hyrax_verify_at, hyrax_verify_batched_at,
    lemma_pow2_injective, open_state, open_verdict,
};
use crate::pos_range::{PosRangeLogUp, minus_one};
use crate::scale::Scale;
use crate::shapes::{law_vector_vars, native_vector_n_vars, vector_vars};
use crate::sshape_helpers::envelope_tables;
use crate::sshape_identities::{endpoint_exprs, endpoint_identities};
use crate::sshape_witness::{
    SshapeEndpointKind, SshapeLineKind, endpoint_tag, kind_tag, line_tag, scale_in,
    scale_precondition_holds,
};
use crate::sumcheck::{
    CellIdentity, RoundPoly4, RoundReplay, replay_rounds, samples_of, sc_all_split, sc_claim,
    sc_point, sc_state,
};
use crate::transcript::{
    abs_u64, abs_u8, absorb_fr, absorb_u64, absorb_u8, after_squeeze, challenged_n, challenges,
    squeeze, squeeze_each, squeeze_one, squeezed, state_of,
};
use crate::zero_check::{verify_items, zero_state};
use ark_crypto_primitives::sponge::merlin::Transcript;
use vstd::arithmetic::power2::pow2;
use vstd::prelude::*;

verus! {

/// The proof for one line at one endpoint.
pub struct SshapeEndpointProof<P: MlPcs> {
    pub layer_idx: usize,
    /// `0` for the sigmoid, `1` for tanh.
    pub kind_tag: u8,
    /// `0` for the lower endpoint, `1` for the upper one.
    pub endpoint_tag: u8,
    /// `0` for the upper line, `1` for the lower one.
    pub line_tag: u8,
    pub n_vars: usize,
    /// The number of real cells.
    pub n_real: usize,
    pub abs_l_commit: P::Commitment,
    pub sign_commit: P::Commitment,
    pub sigma_upper_at_abs_commit: P::Commitment,
    pub sigma_lower_at_abs_commit: P::Commitment,
    pub dx_step_1_commit: P::Commitment,
    pub dx_step_1_rem_commit: P::Commitment,
    pub dx_sigma_code_commit: P::Commitment,
    pub dx_sigma_rem_commit: P::Commitment,
    pub b_sigma_code_commit: P::Commitment,
    pub b_sigma_rem_commit: P::Commitment,
    pub diff_commit: P::Commitment,
    pub abs_l_range: PosRangeLogUp<P>,
    pub dx_step_1_rem_range: PosRangeLogUp<P>,
    pub dx_sigma_rem_range: PosRangeLogUp<P>,
    pub b_sigma_rem_range: PosRangeLogUp<P>,
    pub diff_range: PosRangeLogUp<P>,
    /// The lookup of `(abs_l, sigma_upper, sigma_lower)`.
    pub envelope_combine_alpha_1: Fr,
    pub envelope_combine_alpha_2: Fr,
    pub envelope_logup_beta: Fr,
    pub envelope_lookup_proof: LogUpProof,
    pub envelope_table_proof: LogUpProof,
    pub envelope_lookup_top: [Fr; 4],
    pub envelope_table_top: [Fr; 4],
    pub envelope_witness_len: usize,
    pub envelope_table_len: usize,
    pub envelope_mult_commit: P::Commitment,
    pub envelope_mult_open: P::Proof,
    pub envelope_mult_n_vars: usize,
    pub envelope_abs_l_eval: Fr,
    pub envelope_sigma_upper_at_abs_eval: Fr,
    pub envelope_sigma_lower_at_abs_eval: Fr,
    pub envelope_witness_batched_open: P::Proof,
    /// The coefficients that fold the six identities.
    pub combined_rho_a: Fr,
    pub combined_rho_b: Fr,
    pub combined_rho_c: Fr,
    pub combined_rho_d: Fr,
    pub combined_rho_e: Fr,
    pub r_test: Vec<Fr>,
    pub rounds: Vec<RoundPoly4>,
    pub r_final: Vec<Fr>,
    pub d_line_eval: Fr,
    pub b_line_eval: Fr,
    pub abs_l_eval: Fr,
    pub sign_eval: Fr,
    pub sigma_upper_at_abs_eval: Fr,
    pub sigma_lower_at_abs_eval: Fr,
    pub dx_step_1_eval: Fr,
    pub dx_step_1_rem_eval: Fr,
    pub dx_sigma_code_eval: Fr,
    pub dx_sigma_rem_eval: Fr,
    pub b_sigma_code_eval: Fr,
    pub b_sigma_rem_eval: Fr,
    pub diff_eval: Fr,
    pub batched_open_at_r: P::Proof,
    /// The preactivations at `r_final`, opened against their own commitment.
    pub preact_eval_at_r_final: Fr,
    pub preact_open_at_r_final: P::Proof,
}

// ---- The parts of a proof ----

/// The commitments, in the order in which they are bound.
pub open spec fn ep_coms<P: MlPcs>(proof: SshapeEndpointProof<P>) -> Seq<P::Commitment> {
    seq![
        proof.abs_l_commit,
        proof.sign_commit,
        proof.sigma_upper_at_abs_commit,
        proof.sigma_lower_at_abs_commit,
        proof.dx_step_1_commit,
        proof.dx_step_1_rem_commit,
        proof.dx_sigma_code_commit,
        proof.dx_sigma_rem_commit,
        proof.b_sigma_code_commit,
        proof.b_sigma_rem_commit,
        proof.diff_commit,
    ]
}

/// The commitments, by reference.
fn ep_com_refs<P: MlPcs>(proof: &SshapeEndpointProof<P>) -> (r: Vec<&P::Commitment>)
    ensures
        derefs(r@) == ep_coms(*proof),
{
    let out: Vec<&P::Commitment> = vec![
        &proof.abs_l_commit,
        &proof.sign_commit,
        &proof.sigma_upper_at_abs_commit,
        &proof.sigma_lower_at_abs_commit,
        &proof.dx_step_1_commit,
        &proof.dx_step_1_rem_commit,
        &proof.dx_sigma_code_commit,
        &proof.dx_sigma_rem_commit,
        &proof.b_sigma_code_commit,
        &proof.b_sigma_rem_commit,
        &proof.diff_commit,
    ];
    assert(derefs(out@) =~= ep_coms(*proof));
    out
}

/// The indices of the columns that are range-checked: `abs_l`, the remainders,
/// and `diff`.
pub open spec fn ep_checked() -> Seq<usize> {
    seq![0usize, 5usize, 7usize, 9usize, 10usize]
}

/// The range proofs.
pub open spec fn ep_ranges<P: MlPcs>(proof: SshapeEndpointProof<P>) -> Seq<PosRangeLogUp<P>> {
    seq![
        proof.abs_l_range,
        proof.dx_step_1_rem_range,
        proof.dx_sigma_rem_range,
        proof.b_sigma_rem_range,
        proof.diff_range,
    ]
}

/// The coefficients of the identities.
pub open spec fn ep_rhos<P: MlPcs>(proof: SshapeEndpointProof<P>) -> Seq<int> {
    seq![
        proof.combined_rho_a@,
        proof.combined_rho_b@,
        proof.combined_rho_c@,
        proof.combined_rho_d@,
        proof.combined_rho_e@,
    ]
}

/// The values of the joint opening at the final point.
pub open spec fn ep_values<P: MlPcs>(proof: SshapeEndpointProof<P>) -> Seq<int> {
    seq![
        proof.d_line_eval@,
        proof.b_line_eval@,
        proof.abs_l_eval@,
        proof.sign_eval@,
        proof.sigma_upper_at_abs_eval@,
        proof.sigma_lower_at_abs_eval@,
        proof.dx_step_1_eval@,
        proof.dx_step_1_rem_eval@,
        proof.dx_sigma_code_eval@,
        proof.dx_sigma_rem_eval@,
        proof.b_sigma_code_eval@,
        proof.b_sigma_rem_eval@,
        proof.diff_eval@,
    ]
}

/// The commitments of the joint opening at the final point: the line's, and
/// the gadget's own.
pub open spec fn ep_opened<P: MlPcs>(
    proof: SshapeEndpointProof<P>,
    d: P::Commitment,
    b: P::Commitment,
) -> Seq<P::Commitment> {
    seq![d, b] + ep_coms(proof)
}

/// The values of the envelope's joint opening.
pub open spec fn ep_env_values<P: MlPcs>(proof: SshapeEndpointProof<P>) -> Seq<int> {
    seq![
        proof.envelope_abs_l_eval@,
        proof.envelope_sigma_upper_at_abs_eval@,
        proof.envelope_sigma_lower_at_abs_eval@,
    ]
}

/// The commitments of the envelope's joint opening.
pub open spec fn ep_env_coms<P: MlPcs>(proof: SshapeEndpointProof<P>) -> Seq<P::Commitment> {
    seq![
        proof.abs_l_commit,
        proof.sigma_upper_at_abs_commit,
        proof.sigma_lower_at_abs_commit,
    ]
}

// ---- The transcript ----

/// The state after the header: the tags, the sizes, and the commitments that
/// the proof is about.
pub open spec fn ep_t0<P: MlPcs>(
    layer_idx: usize,
    kind: ActivationKind,
    line: SshapeLineKind,
    endpoint: SshapeEndpointKind,
    n: usize,
    preact: P::Commitment,
    d: P::Commitment,
    b: P::Commitment,
    t0: Seq<u8>,
) -> Seq<u8> {
    let h1 = abs_u8(abs_u64(t0, layer_idx as u64), kind_tag(kind));
    let h2 = abs_u8(abs_u8(h1, endpoint_tag(endpoint)), line_tag(line));
    let h3 = abs_u64(abs_u64(h2, vector_vars(n as nat) as u64), n as u64);
    abs_com::<P>(abs_com::<P>(abs_com::<P>(h3, d), b), preact)
}

/// The state before the envelope lookup, from the state after the header.
pub open spec fn ep_t2<P: MlPcs>(
    vk: P::VerifierKey,
    proof: SshapeEndpointProof<P>,
    h: Seq<u8>,
) -> Seq<u8> {
    ranges_state(
        vk,
        picked(ep_coms(proof), ep_checked()),
        proof.n_vars as nat,
        ep_ranges(proof),
        abs_coms::<P>(h, ep_coms(proof)),
        5,
    )
}

/// The state before the envelope's circuits.
pub open spec fn ep_t3<P: MlPcs>(proof: SshapeEndpointProof<P>, t2: Seq<u8>) -> Seq<u8> {
    let np = pow2(proof.n_vars as nat) as u64;
    env_t3::<P>(
        np,
        proof.envelope_mult_commit,
        proof.envelope_witness_len as u64,
        proof.envelope_table_len as u64,
        t2,
    )
}

/// The state after the envelope's circuits.
pub open spec fn ep_t4<P: MlPcs>(proof: SshapeEndpointProof<P>, t2: Seq<u8>) -> Seq<u8> {
    pair_state(
        proof.envelope_lookup_proof,
        proof.envelope_table_proof,
        proof.envelope_lookup_top,
        proof.envelope_table_top,
        ep_t3(proof, t2),
    )
}

/// The state after the opening of the envelope's columns.
pub open spec fn ep_t5<P: MlPcs>(
    vk: P::VerifierKey,
    proof: SshapeEndpointProof<P>,
    t2: Seq<u8>,
) -> Seq<u8> {
    batch_open_state::<P>(
        vk,
        ep_env_coms(proof),
        ep_env_values(proof),
        vals(proof.envelope_lookup_proof.bottom_point@),
        proof.envelope_witness_batched_open,
        proof.n_vars as nat,
        ep_t4(proof, t2),
    )
}

/// The state after the envelope lookup.
#[verifier::opaque]
pub open spec fn ep_t6<P: MlPcs>(
    vk: P::VerifierKey,
    proof: SshapeEndpointProof<P>,
    t2: Seq<u8>,
) -> Seq<u8> {
    open_state::<P>(
        vk,
        proof.envelope_mult_commit,
        vals(proof.envelope_table_proof.bottom_point@),
        proof.envelope_table_proof.bottom_num@,
        proof.envelope_mult_open,
        proof.envelope_mult_n_vars as nat,
        ep_t5(vk, proof, t2),
    )
}

/// The state before the rounds, from the state after the envelope lookup.
pub open spec fn ep_t7<P: MlPcs>(proof: SshapeEndpointProof<P>, t6: Seq<u8>) -> Seq<u8> {
    after_squeeze(challenged_n(t6, 5), proof.n_vars as int)
}

/// The state after the joint opening at the final point.
pub open spec fn ep_t8<P: MlPcs>(
    vk: P::VerifierKey,
    proof: SshapeEndpointProof<P>,
    d: P::Commitment,
    b: P::Commitment,
    t6: Seq<u8>,
) -> Seq<u8> {
    zero_state::<P>(
        vk,
        samples_of(proof.rounds@),
        vals(proof.r_final@),
        ep_opened(proof, d, b),
        ep_values(proof),
        proof.batched_open_at_r,
        proof.n_vars as nat,
        ep_t7(proof, t6),
    )
}

/// The state after the sumcheck and its openings.
#[verifier::opaque]
pub open spec fn ep_t9<P: MlPcs>(
    vk: P::VerifierKey,
    proof: SshapeEndpointProof<P>,
    preact: P::Commitment,
    d: P::Commitment,
    b: P::Commitment,
    t6: Seq<u8>,
) -> Seq<u8> {
    open_state::<P>(
        vk,
        preact,
        vals(proof.r_final@),
        proof.preact_eval_at_r_final@,
        proof.preact_open_at_r_final,
        proof.n_vars as nat,
        ep_t8(vk, proof, d, b, t6),
    )
}

/// The state after a whole proof.
pub open spec fn endpoint_state<P: MlPcs>(
    vk: P::VerifierKey,
    proof: SshapeEndpointProof<P>,
    kind: ActivationKind,
    line: SshapeLineKind,
    endpoint: SshapeEndpointKind,
    preact: P::Commitment,
    d: P::Commitment,
    b: P::Commitment,
    t0: Seq<u8>,
) -> Seq<u8> {
    let h = ep_t0::<P>(
        proof.layer_idx,
        kind,
        line,
        endpoint,
        proof.n_real,
        preact,
        d,
        b,
        t0,
    );
    ep_t9(vk, proof, preact, d, b, ep_t6(vk, proof, ep_t2(vk, proof, h)))
}

// ---- The verdict ----

/// The check of a proof's tags and sizes against the public inputs.
pub open spec fn ep_header_verdict<P: MlPcs>(
    params: SnarkParams<P>,
    proof: SshapeEndpointProof<P>,
    layer_idx: usize,
    kind: ActivationKind,
    line: SshapeLineKind,
    endpoint: SshapeEndpointKind,
    n: usize,
    s_d: Scale,
    s_b: Scale,
    s_w: Scale,
) -> Result<(), SnarkError> {
    let bits = params.gadget_range_bits as int;
    if proof.layer_idx != layer_idx {
        Err(SnarkError::ArchitectureMismatch { what: "sshape_endpoint: layer_idx mismatch" })
    } else if kind is ReLU {
        Err(SnarkError::ShapeMismatch { what: "sshape_endpoint: ReLU verifier called" })
    } else if proof.kind_tag != kind_tag(kind) {
        Err(SnarkError::ArchitectureMismatch { what: "sshape_endpoint: kind tag mismatch" })
    } else if proof.endpoint_tag != endpoint_tag(endpoint) {
        Err(
            SnarkError::ArchitectureMismatch {
                what: "sshape_endpoint: endpoint tag mismatch (U(l) vs U(u) replay)",
            },
        )
    } else if proof.line_tag != line_tag(line) {
        Err(
            SnarkError::ArchitectureMismatch {
                what: "sshape_endpoint: line tag mismatch (upper-line vs lower-line replay)",
            },
        )
    } else if !(scale_in(s_d, bits) && scale_in(s_b, bits) && scale_in(s_w, bits)) {
        Err(
            SnarkError::RelaxationSoundnessFinalCheckFailed {
                which: "sshape_endpoint: scale precondition (verify)",
            },
        )
    } else if n == 0 {
        Err(SnarkError::Reserved { what: "sshape_endpoint: requires n ≥ 1 (verifier)" })
    } else if proof.n_real != n {
        Err(
            SnarkError::ArchitectureMismatch {
                what: "sshape_endpoint: n_real mismatch (verifier — proof's n_real differs from n_real_neurons input)",
            },
        )
    } else if proof.n_vars != vector_vars(n as nat) {
        Err(SnarkError::ArchitectureMismatch { what: "sshape_endpoint: n_vars mismatch" })
    } else if params.sigma_x_scale_log2 < s_w.e {
        Err(
            SnarkError::Reserved {
                what: "sshape_endpoint: s_w > s_x not yet supported (verify)",
            },
        )
    } else {
        Ok(())
    }
}

/// The verdict on the envelope lookup.
#[verifier::opaque]
pub open spec fn ep_envelope_verdict<P: MlPcs>(
    params: SnarkParams<P>,
    proof: SshapeEndpointProof<P>,
    kind: ActivationKind,
    t2: Seq<u8>,
) -> Result<(), SnarkError> {
    let vk = params.verifier_key;
    let n_vars = proof.n_vars as nat;
    let np = pow2(n_vars) as u64;
    let (lower, upper) = envelope_tables(params.preprocessed.spec_sigma(), kind)->Some_0;
    let tl = upper.len();
    let (a1, a2) = (env_alpha_1(np, t2), env_alpha_2(np, t2));
    let beta = env_beta::<P>(np, proof.envelope_mult_commit, np, tl as u64, t2);
    let tp = vals(proof.envelope_table_proof.bottom_point@);
    let m = ceil_log2(tl);
    if a1 != proof.envelope_combine_alpha_1@ || a2 != proof.envelope_combine_alpha_2@ {
        Err(SnarkError::TranscriptMismatch)
    } else if proof.envelope_witness_len != pow2(n_vars) || proof.envelope_table_len != tl {
        Err(
            SnarkError::ArchitectureMismatch {
                what: "sshape_endpoint: envelope LogUp dimension mismatch with public inputs",
            },
        )
    } else if beta != proof.envelope_logup_beta@ {
        Err(SnarkError::TranscriptMismatch)
    } else if proof.envelope_lookup_proof.bottom_point@.len() != n_vars || tp.len() != m {
        Err(
            SnarkError::ArchitectureMismatch {
                what: "sshape_endpoint: LogUp bottom_point length mismatch",
            },
        )
    } else {
        and_also(
            pair_verdict(
                proof.envelope_lookup_proof,
                proof.envelope_table_proof,
                proof.envelope_lookup_top,
                proof.envelope_table_top,
                minus_one(n_vars),
                minus_one(m),
                ep_t3(proof, t2),
            ),
            and_also(
                holds(
                    tops_cancel(
                        vals4(proof.envelope_lookup_top),
                        vals4(proof.envelope_table_top),
                    ),
                    SnarkError::RelaxationSoundnessFinalCheckFailed {
                        which: "sshape_endpoint: σ-envelope LogUp top-fraction cancellation",
                    },
                ),
                and_also(
                    opened(
                        batch_open_verdict::<P>(
                            vk,
                            ep_env_coms(proof),
                            ep_env_values(proof),
                            vals(proof.envelope_lookup_proof.bottom_point@),
                            proof.envelope_witness_batched_open,
                            n_vars,
                            ep_t4(proof, t2),
                        ),
                        "sshape_endpoint::envelope_witness_batched_open",
                    ),
                    and_also(
                        holds(
                            proof.envelope_lookup_proof.bottom_denom@ == fsub(
                                row_key(
                                    a1,
                                    a2,
                                    proof.envelope_abs_l_eval@,
                                    proof.envelope_sigma_upper_at_abs_eval@,
                                    proof.envelope_sigma_lower_at_abs_eval@,
                                ),
                                beta,
                            ),
                            SnarkError::PerTensorRangeWitnessNotBound,
                        ),
                        and_also(
                            opened(
                                open_verdict::<P>(
                                    vk,
                                    proof.envelope_mult_commit,
                                    tp,
                                    proof.envelope_table_proof.bottom_num@,
                                    proof.envelope_mult_open,
                                    proof.envelope_mult_n_vars as nat,
                                    ep_t5(vk, proof, t2),
                                ),
                                "sshape_endpoint::envelope_mult_open",
                            ),
                            holds(
                                proof.envelope_table_proof.bottom_denom@ == fsub(
                                    envelope_value(a1, a2, upper, lower, tp),
                                    beta,
                                ),
                                SnarkError::LogUpTableNotCanonical {
                                    which: "sshape_endpoint::envelope_table",
                                },
                            ),
                        ),
                    ),
                ),
            ),
        )
    }
}

/// The identities' combination at the final point.
pub open spec fn ep_final_value<P: MlPcs>(
    proof: SshapeEndpointProof<P>,
    exprs: Seq<Expr>,
    n: nat,
) -> int {
    let point = vals(proof.r_final@);
    let np = pow2(proof.n_vars as nat);
    masked_value(
        ep_rhos(proof),
        exprs,
        seq![
            mle(eq_table(vals(proof.r_test@)), point),
            mle(mask(n, np), point),
            proof.preact_eval_at_r_final@,
        ] + ep_values(proof),
    )
}

/// The verdict on the sumcheck and its openings.
#[verifier::opaque]
pub open spec fn ep_sumcheck_verdict<P: MlPcs>(
    vk: P::VerifierKey,
    proof: SshapeEndpointProof<P>,
    exprs: Seq<Expr>,
    n: nat,
    preact: P::Commitment,
    d: P::Commitment,
    b: P::Commitment,
    t6: Seq<u8>,
) -> Result<(), SnarkError> {
    let n_vars = proof.n_vars as nat;
    let t7 = ep_t7(proof, t6);
    let s = samples_of(proof.rounds@);
    let point = vals(proof.r_final@);
    and_also(
        holds(challenges(t6, 5) == ep_rhos(proof), SnarkError::TranscriptMismatch),
        and_also(
            holds(
                squeezed(challenged_n(t6, 5), proof.n_vars as int) == vals(proof.r_test@),
                SnarkError::TranscriptMismatch,
            ),
            and_also(
                holds(
                    sc_all_split(true, t7, s, 0, s.len()),
                    SnarkError::RelaxationSoundnessFinalCheckFailed {
                        which: "sshape_endpoint: sumcheck round invariant (verify)",
                    },
                ),
                and_also(
                    holds(
                        proof.r_final@.len() == n_vars,
                        SnarkError::ShapeMismatch { what: "sshape_endpoint: r_final length" },
                    ),
                    and_also(
                        holds(sc_point(true, t7, s) == point, SnarkError::TranscriptMismatch),
                        and_also(
                            opened(
                                batch_open_verdict::<P>(
                                    vk,
                                    ep_opened(proof, d, b),
                                    ep_values(proof),
                                    point,
                                    proof.batched_open_at_r,
                                    n_vars,
                                    sc_state(true, t7, s, s.len()),
                                ),
                                "sshape_endpoint::batched_open_at_r",
                            ),
                            and_also(
                                opened(
                                    open_verdict::<P>(
                                        vk,
                                        preact,
                                        point,
                                        proof.preact_eval_at_r_final@,
                                        proof.preact_open_at_r_final,
                                        n_vars,
                                        ep_t8(vk, proof, d, b, t6),
                                    ),
                                    "sshape_endpoint: preact_open_at_r_final",
                                ),
                                holds(
                                    ep_final_value(proof, exprs, n) == sc_claim(
                                        true,
                                        t7,
                                        s,
                                        0,
                                        s.len(),
                                    ),
                                    SnarkError::RelaxationSoundnessFinalCheckFailed {
                                        which: "sshape_endpoint: final identity (verify, signed, line-aware)",
                                    },
                                ),
                            ),
                        ),
                    ),
                ),
            ),
        ),
    )
}

/// The identities for given scales.
pub open spec fn ep_exprs<P: MlPcs>(
    params: SnarkParams<P>,
    kind: ActivationKind,
    line: SshapeLineKind,
    s_d: Scale,
    s_b: Scale,
    s_w: Scale,
) -> Seq<Expr> {
    endpoint_exprs(
        kind,
        line,
        pow2(s_d.e as nat) as i128,
        pow2(s_b.e as nat) as i128,
        pow2(s_w.e as nat) as i128,
        pow2(params.sigma_v_scale_log2 as nat) as i128,
        pow2((params.sigma_x_scale_log2 - s_w.e) as nat) as i128,
    )
}

/// The verdict on a proof.
pub open spec fn endpoint_verdict<P: MlPcs>(
    params: SnarkParams<P>,
    proof: SshapeEndpointProof<P>,
    layer_idx: usize,
    kind: ActivationKind,
    line: SshapeLineKind,
    endpoint: SshapeEndpointKind,
    n: usize,
    preact: P::Commitment,
    d: P::Commitment,
    b: P::Commitment,
    s_d: Scale,
    s_b: Scale,
    s_w: Scale,
    t0: Seq<u8>,
) -> Result<(), SnarkError> {
    let vk = params.verifier_key;
    let h = ep_t0::<P>(layer_idx, kind, line, endpoint, n, preact, d, b, t0);
    let t2 = ep_t2(vk, proof, h);
    and_also(
        ep_header_verdict(params, proof, layer_idx, kind, line, endpoint, n, s_d, s_b, s_w),
        and_also(
            ranges_verdict(
                params,
                picked(ep_coms(proof), ep_checked()),
                proof.n_vars as nat,
                ep_ranges(proof),
                abs_coms::<P>(h, ep_coms(proof)),
                0,
            ),
            and_also(
                ep_envelope_verdict(params, proof, kind, t2),
                ep_sumcheck_verdict(
                    vk,
                    proof,
                    ep_exprs(params, kind, line, s_d, s_b, s_w),
                    n as nat,
                    preact,
                    d,
                    b,
                    ep_t6(vk, proof, t2),
                ),
            ),
        ),
    )
}

// ---- The verifier ----

/// Check a proof's tags and sizes.
fn check_header<P: MlPcs>(
    proof: &SshapeEndpointProof<P>,
    expected_layer_idx: usize,
    kind: ActivationKind,
    line: SshapeLineKind,
    endpoint: SshapeEndpointKind,
    n: usize,
    s_d: Scale,
    s_b: Scale,
    s_w: Scale,
    params: &SnarkParams<P>,
) -> (r: Result<(), SnarkError>)
    requires
        params.gadget_range_bits <= i32::MAX,
        n <= usize::MAX / 2 + 1,
    ensures
        r == ep_header_verdict(
            *params,
            *proof,
            expected_layer_idx,
            kind,
            line,
            endpoint,
            n,
            s_d,
            s_b,
            s_w,
        ),
{
    if proof.layer_idx != expected_layer_idx {
        return Err(
            SnarkError::ArchitectureMismatch { what: "sshape_endpoint: layer_idx mismatch" },
        );
    }
    let kind_tag_expected: u8 = match kind {
        ActivationKind::Sigmoid => 0,
        ActivationKind::Tanh => 1,
        ActivationKind::ReLU => {
            return Err(
                SnarkError::ShapeMismatch { what: "sshape_endpoint: ReLU verifier called" },
            );
        },
    };
    if proof.kind_tag != kind_tag_expected {
        return Err(
            SnarkError::ArchitectureMismatch { what: "sshape_endpoint: kind tag mismatch" },
        );
    }
    if proof.endpoint_tag != endpoint.tag() {
        return Err(
            SnarkError::ArchitectureMismatch {
                what: "sshape_endpoint: endpoint tag mismatch (U(l) vs U(u) replay)",
            },
        );
    }
    if proof.line_tag != line.tag() {
        return Err(
            SnarkError::ArchitectureMismatch {
                what: "sshape_endpoint: line tag mismatch (upper-line vs lower-line replay)",
            },
        );
    }
    if !scale_precondition_holds(s_d, s_b, s_w, params.gadget_range_bits) {
        return Err(
            SnarkError::RelaxationSoundnessFinalCheckFailed {
                which: "sshape_endpoint: scale precondition (verify)",
            },
        );
    }
    if n == 0 {
        return Err(SnarkError::Reserved { what: "sshape_endpoint: requires n ≥ 1 (verifier)" });
    }
    if proof.n_real != n {
        return Err(
            SnarkError::ArchitectureMismatch {
                what: "sshape_endpoint: n_real mismatch (verifier — proof's n_real differs from n_real_neurons input)",
            },
        );
    }
    if proof.n_vars != native_vector_n_vars(n) {
        return Err(SnarkError::ArchitectureMismatch { what: "sshape_endpoint: n_vars mismatch" });
    }
    if params.sigma_x_scale_log2 < s_w.e {
        return Err(
            SnarkError::Reserved {
                what: "sshape_endpoint: s_w > s_x not yet supported (verify)",
            },
        );
    }
    Ok(())
}

/// Verify the envelope lookup.
fn verify_endpoint_envelope<P: MlPcs>(
    proof: &SshapeEndpointProof<P>,
    kind: ActivationKind,
    params: &SnarkParams<P>,
    sponge: &mut Transcript,
) -> (r: Result<(), SnarkError>)
    requires
        kind != ActivationKind::ReLU,
        proof.n_vars >= 1,
        pow2(proof.n_vars as nat) <= usize::MAX,
    ensures
        r == ep_envelope_verdict(*params, *proof, kind, state_of(*old(sponge))),
        r is Ok ==> state_of(*final(sponge)) == ep_t6(
            params.verifier_key,
            *proof,
            state_of(*old(sponge)),
        ),
{
    proof {
        reveal(ep_envelope_verdict);
        reveal(ep_t6);
    }
    let n_vars: usize = proof.n_vars;
    let n_padded: usize = pow2_usize(n_vars);
    proof {
        lemma_pow2_machine(n_vars as nat);
    }
    absorb_u64(sponge, n_padded as u64);
    let alpha_1: Fr = squeeze_one(sponge);
    if alpha_1 != proof.envelope_combine_alpha_1 {
        return Err(SnarkError::TranscriptMismatch);
    }
    let alpha_2: Fr = squeeze_one(sponge);
    if alpha_2 != proof.envelope_combine_alpha_2 {
        return Err(SnarkError::TranscriptMismatch);
    }
    let (table_upper, table_lower): (&Vec<Fr>, &Vec<Fr>) = match sigma_tables(
        params.preprocessed.sigma(),
        kind,
    ) {
        Some(t) => t,
        None => {
            return Err(SnarkError::TranscriptMismatch);
        },
    };
    let table_len: usize = table_upper.len();
    let ghost (lower, upper) = envelope_tables(params.preprocessed.spec_sigma(), kind)->Some_0;
    assert(upper.len() == table_len);
    let table_bits: usize = match log2_exact(table_len) {
        Some(b) => b,
        None => 0,
    };
    proof {
        let m = choose|m: nat|
            2 <= m < 60 && #[trigger] pow2(m) == table_upper@.len() && pow2(even_vars(m))
                <= usize::MAX;
        lemma_pow2_injective(table_bits as nat, m);
        lemma_ceil_log2_of_pow2(m);
    }
    if proof.envelope_witness_len != n_padded || proof.envelope_table_len != table_len {
        return Err(
            SnarkError::ArchitectureMismatch {
                what: "sshape_endpoint: envelope LogUp dimension mismatch with public inputs",
            },
        );
    }
    absorb_commitment::<P>(sponge, &proof.envelope_mult_commit);
    absorb_u64(sponge, n_padded as u64);
    absorb_u64(sponge, table_len as u64);
    let beta: Fr = squeeze_one(sponge);
    if beta != proof.envelope_logup_beta {
        return Err(SnarkError::TranscriptMismatch);
    }
    absorb_fr(sponge, alpha_1);
    absorb_fr(sponge, alpha_2);
    absorb_fr(sponge, beta);
    if proof.envelope_lookup_proof.bottom_point.len() != n_vars
        || proof.envelope_table_proof.bottom_point.len() != table_bits {
        return Err(
            SnarkError::ArchitectureMismatch {
                what: "sshape_endpoint: LogUp bottom_point length mismatch",
            },
        );
    }
    match verify_pair(
        &proof.envelope_lookup_proof,
        &proof.envelope_table_proof,
        &proof.envelope_lookup_top,
        &proof.envelope_table_top,
        n_vars - 1,
        table_bits - 1,
        sponge,
    ) {
        Ok(_) => {},
        Err(e) => {
            return Err(e);
        },
    }
    if !check_tops_cancel(&proof.envelope_lookup_top, &proof.envelope_table_top) {
        return Err(
            SnarkError::RelaxationSoundnessFinalCheckFailed {
                which: "sshape_endpoint: σ-envelope LogUp top-fraction cancellation",
            },
        );
    }
    let mut items: Vec<BatchVerifySpec<'_, P>> = Vec::with_capacity(3);
    items.push(
        BatchVerifySpec {
            commitment: &proof.abs_l_commit,
            value: proof.envelope_abs_l_eval,
            commit_n_vars: n_vars,
        },
    );
    items.push(
        BatchVerifySpec {
            commitment: &proof.sigma_upper_at_abs_commit,
            value: proof.envelope_sigma_upper_at_abs_eval,
            commit_n_vars: n_vars,
        },
    );
    items.push(
        BatchVerifySpec {
            commitment: &proof.sigma_lower_at_abs_commit,
            value: proof.envelope_sigma_lower_at_abs_eval,
            commit_n_vars: n_vars,
        },
    );
    proof {
        assert(batch_coms(items@) =~= ep_env_coms(*proof));
        assert(batch_values(items@) =~= ep_env_values(*proof));
    }
    match hyrax_verify_batched_at::<P>(
        &params.verifier_key,
        &items,
        proof.envelope_lookup_proof.bottom_point.as_slice(),
        &proof.envelope_witness_batched_open,
        sponge,
    ) {
        Ok(true) => {},
        Ok(false) => {
            return Err(
                SnarkError::PcsOpenRejected {
                    which: "sshape_endpoint::envelope_witness_batched_open",
                },
            );
        },
        Err(e) => {
            return Err(e);
        },
    }
    let key: Fr = alpha_1.mul(proof.envelope_abs_l_eval).add(
        alpha_2.mul(proof.envelope_sigma_upper_at_abs_eval),
    ).add(proof.envelope_sigma_lower_at_abs_eval);
    if proof.envelope_lookup_proof.bottom_denom != key.sub(beta) {
        return Err(SnarkError::PerTensorRangeWitnessNotBound);
    }
    match hyrax_verify_at::<P>(
        &params.verifier_key,
        &proof.envelope_mult_commit,
        proof.envelope_table_proof.bottom_point.as_slice(),
        proof.envelope_table_proof.bottom_num,
        &proof.envelope_mult_open,
        proof.envelope_mult_n_vars,
        sponge,
    ) {
        Ok(true) => {},
        Ok(false) => {
            return Err(
                SnarkError::PcsOpenRejected { which: "sshape_endpoint::envelope_mult_open" },
            );
        },
        Err(e) => {
            return Err(e);
        },
    }
    let canonical: Fr = sigma_envelope_3col_table_mle_eval(
        proof.envelope_table_proof.bottom_point.as_slice(),
        alpha_1,
        alpha_2,
        table_upper.as_slice(),
        table_lower.as_slice(),
    );
    if proof.envelope_table_proof.bottom_denom != canonical.sub(beta) {
        return Err(
            SnarkError::LogUpTableNotCanonical { which: "sshape_endpoint::envelope_table" },
        );
    }
    Ok(())
}

/// The values of the joint opening.
fn ep_value_list<P: MlPcs>(proof: &SshapeEndpointProof<P>) -> (r: Vec<Fr>)
    ensures
        vals(r@) == ep_values(*proof),
        r@.len() == 13,
{
    let out: Vec<Fr> = vec![
        proof.d_line_eval,
        proof.b_line_eval,
        proof.abs_l_eval,
        proof.sign_eval,
        proof.sigma_upper_at_abs_eval,
        proof.sigma_lower_at_abs_eval,
        proof.dx_step_1_eval,
        proof.dx_step_1_rem_eval,
        proof.dx_sigma_code_eval,
        proof.dx_sigma_rem_eval,
        proof.b_sigma_code_eval,
        proof.b_sigma_rem_eval,
        proof.diff_eval,
    ];
    assert(vals(out@) =~= ep_values(*proof));
    out
}

/// Verify the sumcheck and its openings.
fn verify_endpoint_sumcheck<P: MlPcs>(
    proof: &SshapeEndpointProof<P>,
    exprs: Vec<Expr>,
    n: usize,
    preact_commit: &P::Commitment,
    d_commit: &P::Commitment,
    b_commit: &P::Commitment,
    params: &SnarkParams<P>,
    sponge: &mut Transcript,
) -> (r: Result<(), SnarkError>)
    requires
        pow2(proof.n_vars as nat) <= usize::MAX,
    ensures
        r == ep_sumcheck_verdict(
            params.verifier_key,
            *proof,
            exprs@,
            n as nat,
            *preact_commit,
            *d_commit,
            *b_commit,
            state_of(*old(sponge)),
        ),
        r is Ok ==> state_of(*final(sponge)) == ep_t9(
            params.verifier_key,
            *proof,
            *preact_commit,
            *d_commit,
            *b_commit,
            state_of(*old(sponge)),
        ),
{
    proof {
        reveal(ep_sumcheck_verdict);
        reveal(ep_t9);
    }
    let n_vars: usize = proof.n_vars;
    let n_padded: usize = pow2_usize(n_vars);
    proof {
        lemma_pow2_machine(n_vars as nat);
    }
    let rhos: Vec<Fr> = squeeze_each(sponge, 5);
    let claimed: Vec<Fr> = vec![
        proof.combined_rho_a,
        proof.combined_rho_b,
        proof.combined_rho_c,
        proof.combined_rho_d,
        proof.combined_rho_e,
    ];
    assert(vals(claimed@) =~= ep_rhos(*proof));
    if !same_elements(rhos.as_slice(), claimed.as_slice()) {
        return Err(SnarkError::TranscriptMismatch);
    }
    let r_test: Vec<Fr> = squeeze(sponge, n_vars);
    if !same_elements(r_test.as_slice(), proof.r_test.as_slice()) {
        return Err(SnarkError::TranscriptMismatch);
    }
    let zero: Fr = Fr::from_u64(0);
    let replay: RoundReplay = match replay_rounds(&proof.rounds, zero, true, sponge) {
        Ok(x) => x,
        Err(_) => {
            return Err(
                SnarkError::RelaxationSoundnessFinalCheckFailed {
                    which: "sshape_endpoint: sumcheck round invariant (verify)",
                },
            );
        },
    };
    if proof.r_final.len() != n_vars {
        return Err(SnarkError::ShapeMismatch { what: "sshape_endpoint: r_final length" });
    }
    if !same_elements(replay.point.as_slice(), proof.r_final.as_slice()) {
        return Err(SnarkError::TranscriptMismatch);
    }
    let mut refs: Vec<&P::Commitment> = vec![d_commit, b_commit];
    let mut own: Vec<&P::Commitment> = ep_com_refs(proof);
    let ghost own0 = own@;
    refs.append(&mut own);
    assert(derefs(refs@) =~= ep_opened(*proof, *d_commit, *b_commit)) by {
        assert(refs@ =~= seq![d_commit, b_commit] + own0);
        assert(derefs(own0) == ep_coms(*proof));
        assert forall|i: int| 0 <= i < own0.len() implies *own0[i] == ep_coms(*proof)[i] by {
            assert(derefs(own0)[i] == *own0[i]);
        }
        assert(own0.len() == derefs(own0).len());
    }
    let values: Vec<Fr> = ep_value_list(proof);
    let items: Vec<BatchVerifySpec<'_, P>> = verify_items::<P>(&refs, &values, n_vars);
    match hyrax_verify_batched_at::<P>(
        &params.verifier_key,
        &items,
        proof.r_final.as_slice(),
        &proof.batched_open_at_r,
        sponge,
    ) {
        Ok(true) => {},
        Ok(false) => {
            return Err(SnarkError::PcsOpenRejected { which: "sshape_endpoint::batched_open_at_r" });
        },
        Err(e) => {
            return Err(e);
        },
    }
    match hyrax_verify_at::<P>(
        &params.verifier_key,
        preact_commit,
        proof.r_final.as_slice(),
        proof.preact_eval_at_r_final,
        &proof.preact_open_at_r_final,
        n_vars,
        sponge,
    ) {
        Ok(true) => {},
        Ok(false) => {
            return Err(
                SnarkError::PcsOpenRejected { which: "sshape_endpoint: preact_open_at_r_final" },
            );
        },
        Err(e) => {
            return Err(e);
        },
    }
    let eq: Vec<Fr> = build_eq_table(proof.r_test.as_slice());
    assert(vals(eq@).len() == eq@.len());
    assert(vals(proof.r_test@).len() == vals(r_test@).len());
    let eq_eval: Fr = eval_multilinear_full(eq.as_slice(), proof.r_final.as_slice());
    let rows: Vec<Fr> = mask_table(n, n_padded);
    let real_eval: Fr = eval_multilinear_full(rows.as_slice(), proof.r_final.as_slice());
    let ident: MaskedCombination = MaskedCombination { columns: 14, exprs, rhos };
    let mut cell: Vec<Fr> = vec![eq_eval, real_eval, proof.preact_eval_at_r_final];
    let mut tail: Vec<Fr> = values;
    let ghost tail0 = tail@;
    cell.append(&mut tail);
    assert(vals(cell@) =~= seq![eq_eval@, real_eval@, proof.preact_eval_at_r_final@] + vals(tail0));
    let lhs: Fr = ident.eval(&cell);
    if lhs != replay.claim {
        return Err(
            SnarkError::RelaxationSoundnessFinalCheckFailed {
                which: "sshape_endpoint: final identity (verify, signed, line-aware)",
            },
        );
    }
    Ok(())
}

/// Verify that a line bounds the function at an endpoint of every neuron.
/// `n_real_neurons` is the public number of cells, and `preact_commit` the
/// commitment to the endpoint's preactivations.
pub fn verify_sshape_at_endpoint<P: MlPcs>(
    proof: &SshapeEndpointProof<P>,
    expected_layer_idx: usize,
    kind: ActivationKind,
    line: SshapeLineKind,
    endpoint: SshapeEndpointKind,
    n_real_neurons: usize,
    preact_commit: &P::Commitment,
    d_line_commit: &P::Commitment,
    b_line_commit: &P::Commitment,
    s_d: Scale,
    s_b: Scale,
    s_w: Scale,
    params: &SnarkParams<P>,
    sponge: &mut Transcript,
) -> (r: Result<(), SnarkError>)
    requires
        n_real_neurons <= usize::MAX / 2 + 1,
        pow2(vector_vars(n_real_neurons as nat)) <= usize::MAX,
        tables_fit(*params),
        params.scales_ok(),
    ensures
        r == endpoint_verdict(
            *params,
            *proof,
            expected_layer_idx,
            kind,
            line,
            endpoint,
            n_real_neurons,
            *preact_commit,
            *d_line_commit,
            *b_line_commit,
            s_d,
            s_b,
            s_w,
            state_of(*old(sponge)),
        ),
        ep_header_verdict(
            *params,
            *proof,
            expected_layer_idx,
            kind,
            line,
            endpoint,
            n_real_neurons,
            s_d,
            s_b,
            s_w,
        ) is Err ==> state_of(*final(sponge)) == state_of(*old(sponge)),
        r is Ok ==> state_of(*final(sponge)) == endpoint_state(
            params.verifier_key,
            *proof,
            kind,
            line,
            endpoint,
            *preact_commit,
            *d_line_commit,
            *b_line_commit,
            state_of(*old(sponge)),
        ),
{
    let ghost t0 = state_of(*sponge);
    proof {
        lemma_bits_small(params.gadget_range_bits as nat);
    }
    match check_header(
        proof,
        expected_layer_idx,
        kind,
        line,
        endpoint,
        n_real_neurons,
        s_d,
        s_b,
        s_w,
        params,
    ) {
        Ok(_) => {},
        Err(e) => {
            return Err(e);
        },
    }
    let ghost n = n_real_neurons as nat;
    proof {
        law_vector_vars(n);
    }
    absorb_u64(sponge, proof.layer_idx as u64);
    absorb_u8(sponge, proof.kind_tag);
    absorb_u8(sponge, proof.endpoint_tag);
    absorb_u8(sponge, proof.line_tag);
    absorb_u64(sponge, proof.n_vars as u64);
    absorb_u64(sponge, n_real_neurons as u64);
    absorb_commitment::<P>(sponge, d_line_commit);
    absorb_commitment::<P>(sponge, b_line_commit);
    absorb_commitment::<P>(sponge, preact_commit);
    let refs: Vec<&P::Commitment> = ep_com_refs(proof);
    absorb_all::<P>(sponge, &refs);
    let checked: Vec<&P::Commitment> = vec![
        &proof.abs_l_commit,
        &proof.dx_step_1_rem_commit,
        &proof.dx_sigma_rem_commit,
        &proof.b_sigma_rem_commit,
        &proof.diff_commit,
    ];
    let ranges: Vec<&PosRangeLogUp<P>> = vec![
        &proof.abs_l_range,
        &proof.dx_step_1_rem_range,
        &proof.dx_sigma_rem_range,
        &proof.b_sigma_rem_range,
        &proof.diff_range,
    ];
    assert(derefs(checked@) =~= picked(ep_coms(*proof), ep_checked()));
    assert(derefs(ranges@) =~= ep_ranges(*proof));
    match verify_ranges(&ranges, &checked, proof.n_vars, params, sponge) {
        Ok(_) => {},
        Err(e) => {
            return Err(e);
        },
    }
    match verify_endpoint_envelope(proof, kind, params, sponge) {
        Ok(_) => {},
        Err(e) => {
            return Err(e);
        },
    }
    let exprs: Vec<Expr> = endpoint_identities(
        kind,
        line,
        pow2_i128(s_d.e as usize),
        pow2_i128(s_b.e as usize),
        pow2_i128(s_w.e as usize),
        pow2_i128(params.sigma_v_scale_log2 as usize),
        pow2_i128((params.sigma_x_scale_log2 - s_w.e) as usize),
    );
    verify_endpoint_sumcheck(
        proof,
        exprs,
        n_real_neurons,
        preact_commit,
        d_line_commit,
        b_line_commit,
        params,
        sponge,
    )
}

/// A range table that can be addressed has fewer than 64 bits.
pub proof fn lemma_bits_small(bits: nat)
    requires
        pow2(even_vars(bits)) <= usize::MAX,
    ensures
        bits < 64,
{
    if bits >= 64 {
        lemma_pow2_machine(even_vars(bits));
    }
}

} // verus!
