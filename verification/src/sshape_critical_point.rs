//! The gadget that proves that a line's slope is that of the sigmoid or tanh
//! at a critical point of every neuron, and that the line is on the safe side
//! of the function there if the point lies inside the interval.
//!
//! The slope is matched by finite differences of the envelope at an index `z`
//! and its neighbours. Neurons whose slope is zero have no critical point, and
//! are exempt from the match.

use crate::column_set::{
    abs_coms, absorb_all, derefs, indices_ok, pick_refs, picked, ranges_state, ranges_verdict,
    verify_ranges,
};
use crate::columns::{even_vars, fits, lemma_signed_of_residue, mask, mask_table, pow2_i128};
use crate::critical_identities::{
    critical_exprs, critical_identities, opening_order, opening_order_list,
};
use crate::critical_rows::rows_key;
use crate::critical_witness::lemma_table_four;
use crate::envelope::{
    env_alpha_1, env_alpha_2, env_beta, env_t3, envelope_value,
    sigma_envelope_3col_table_mle_eval, sigma_tables,
};
use crate::errors::{SnarkError, and_also, holds, opened};
use crate::expr::{Expr, MaskedCombination, masked_value};
use crate::field::{
    Fr, fadd, fr_to_signed_i128, fsub, lemma_view_in_field, signed_lift_to_fr, signed_of, vals,
};
use crate::logup::{LogUpProof, lower, tops_cancel, upper, vals4};
use crate::lookup_pair::{check_tops_cancel, pair_state, pair_verdict, verify_pair};
use crate::mle::{
    build_eq_table, ceil_log2, eq_table, eval_multilinear_full, lemma_ceil_log2_of_pow2,
    lemma_pow2_machine, log2_exact, mle, pow2_usize, same_elements,
};
use crate::network::ActivationKind;
use crate::params::{SnarkParams, tables_fit};
use crate::pcs::{
    BatchVerifySpec, MlPcs, abs_com, absorb_commitment, batch_open_state, batch_open_verdict,
    hyrax_verify_at, hyrax_verify_batched_at, lemma_pow2_injective, open_state, open_verdict,
};
use crate::pos_range::PosRangeLogUp;
use crate::scale::Scale;
use crate::shapes::{law_vector_vars, native_vector_n_vars, vector_vars};
use crate::sshape_endpoint::lemma_bits_small;
use crate::sshape_helpers::{envelope_tables, fd_epsilon_crit};
use crate::sshape_witness::{SshapeLineKind, kind_tag, line_tag};
use crate::sumcheck::{
    CellIdentity, RoundPoly4, RoundReplay, replay_rounds, samples_of, sc_all_split, sc_claim,
    sc_point, sc_state,
};
use crate::transcript::{
    abs_u64, abs_u8, absorb_fr, absorb_u64, absorb_u8, after_squeeze, challenged_n, challenges,
    squeeze, squeeze_each, squeeze_one, squeezed, state_of,
};
use crate::zero_check::{verify_items, zero_state};
use ark_crypto_primitives::sponge::merlin::Transcript;
use vstd::arithmetic::power2::pow2;
use vstd::prelude::*;

verus! {

/// The proof for one line of a layer.
pub struct SshapeCriticalPointProof<P: MlPcs> {
    pub layer_idx: usize,
    /// `0` for the sigmoid, `1` for tanh.
    pub kind_tag: u8,
    /// `0` for the upper line, `1` for the lower one.
    pub line_tag: u8,
    pub n_vars: usize,
    /// The number of real cells.
    pub n_real: usize,
    pub z_commit: P::Commitment,
    pub sigma_lo_z_commit: P::Commitment,
    pub sigma_up_z_commit: P::Commitment,
    pub sigma_lo_zmd_commit: P::Commitment,
    pub sigma_up_zmd_commit: P::Commitment,
    pub sigma_lo_zpd_commit: P::Commitment,
    pub sigma_up_zpd_commit: P::Commitment,
    pub slack_fd1_commit: P::Commitment,
    pub slack_fd2_commit: P::Commitment,
    pub slack_fd1_high_commit: P::Commitment,
    pub slack_fd1_low_commit: P::Commitment,
    pub slack_fd2_high_commit: P::Commitment,
    pub slack_fd2_low_commit: P::Commitment,
    pub factor_a_commit: P::Commitment,
    pub factor_b_commit: P::Commitment,
    pub dz_step_1_commit: P::Commitment,
    pub dz_step_1_rem_commit: P::Commitment,
    pub dz_sigma_code_commit: P::Commitment,
    pub dz_sigma_rem_commit: P::Commitment,
    pub b_sigma_code_commit: P::Commitment,
    pub b_sigma_rem_commit: P::Commitment,
    pub is_active_commit: P::Commitment,
    pub inside_commit: P::Commitment,
    pub slack_pos_commit: P::Commitment,
    pub slack_pos_high_commit: P::Commitment,
    pub slack_pos_low_commit: P::Commitment,
    pub gated_gap_commit: P::Commitment,
    pub gated_gap_high_commit: P::Commitment,
    pub gated_gap_low_commit: P::Commitment,
    pub z_range: PosRangeLogUp<P>,
    pub slack_fd1_high_range: PosRangeLogUp<P>,
    pub slack_fd1_low_range: PosRangeLogUp<P>,
    pub slack_fd2_high_range: PosRangeLogUp<P>,
    pub slack_fd2_low_range: PosRangeLogUp<P>,
    pub slack_pos_high_range: PosRangeLogUp<P>,
    pub slack_pos_low_range: PosRangeLogUp<P>,
    pub gated_gap_high_range: PosRangeLogUp<P>,
    pub gated_gap_low_range: PosRangeLogUp<P>,
    pub dz_step_1_rem_range: PosRangeLogUp<P>,
    pub dz_sigma_rem_range: PosRangeLogUp<P>,
    pub b_sigma_rem_range: PosRangeLogUp<P>,
    /// The lookup of the rows `(x, sigma_upper(x), sigma_lower(x))`.
    pub envelope_combine_alpha_1: Fr,
    pub envelope_combine_alpha_2: Fr,
    pub envelope_logup_beta: Fr,
    pub envelope_lookup_proof: LogUpProof,
    pub envelope_table_proof: LogUpProof,
    pub envelope_lookup_top: [Fr; 4],
    pub envelope_table_top: [Fr; 4],
    pub envelope_witness_len: usize,
    pub envelope_table_len: usize,
    pub envelope_mult_commit: P::Commitment,
    pub envelope_mult_open: P::Proof,
    pub envelope_mult_n_vars: usize,
    pub envelope_z_eval: Fr,
    pub envelope_sigma_lo_z_eval: Fr,
    pub envelope_sigma_up_z_eval: Fr,
    pub envelope_sigma_lo_zmd_eval: Fr,
    pub envelope_sigma_up_zmd_eval: Fr,
    pub envelope_sigma_lo_zpd_eval: Fr,
    pub envelope_sigma_up_zpd_eval: Fr,
    pub envelope_witness_batched_open: P::Proof,
    /// The coefficients that fold the sixteen identities.
    pub combined_rho_a: Fr,
    pub combined_rho_b: Fr,
    pub combined_rho_c: Fr,
    pub combined_rho_d: Fr,
    pub combined_rho_e: Fr,
    pub combined_rho_f: Fr,
    pub combined_rho_g: Fr,
    pub combined_rho_h: Fr,
    pub combined_rho_i: Fr,
    pub combined_rho_j: Fr,
    pub combined_rho_k: Fr,
    pub combined_rho_l: Fr,
    pub combined_rho_m: Fr,
    pub combined_rho_n: Fr,
    pub combined_rho_o: Fr,
    pub r_test: Vec<Fr>,
    pub rounds: Vec<RoundPoly4>,
    pub r_final: Vec<Fr>,
    pub preact_l_eval: Fr,
    pub preact_u_eval: Fr,
    pub d_eval: Fr,
    pub b_eval: Fr,
    pub z_eval: Fr,
    pub sigma_lo_z_eval: Fr,
    pub sigma_up_z_eval: Fr,
    pub sigma_lo_zmd_eval: Fr,
    pub sigma_up_zmd_eval: Fr,
    pub sigma_lo_zpd_eval: Fr,
    pub sigma_up_zpd_eval: Fr,
    pub slack_fd1_eval: Fr,
    pub slack_fd2_eval: Fr,
    pub factor_a_eval: Fr,
    pub factor_b_eval: Fr,
    pub dz_step_1_eval: Fr,
    pub dz_step_1_rem_eval: Fr,
    pub dz_sigma_code_eval: Fr,
    pub dz_sigma_rem_eval: Fr,
    pub b_sigma_code_eval: Fr,
    pub b_sigma_rem_eval: Fr,
    pub slack_fd1_high_eval: Fr,
    pub slack_fd1_low_eval: Fr,
    pub slack_fd2_high_eval: Fr,
    pub slack_fd2_low_eval: Fr,
    pub inside_eval: Fr,
    pub slack_pos_eval: Fr,
    pub slack_pos_high_eval: Fr,
    pub slack_pos_low_eval: Fr,
    pub gated_gap_eval: Fr,
    pub gated_gap_high_eval: Fr,
    pub gated_gap_low_eval: Fr,
    pub is_active_eval: Fr,
    pub batched_open_at_r: P::Proof,
    pub preact_l_open_at_r_final: P::Proof,
    pub preact_u_open_at_r_final: P::Proof,
}

impl<P: MlPcs> SshapeCriticalPointProof<P> {
    /// The line that the proof is about, by its tag.
    pub fn line(&self) -> (r: SshapeLineKind)
        ensures
            r == (if self.line_tag == 0 {
                SshapeLineKind::Upper
            } else {
                SshapeLineKind::Lower
            }),
    {
        if self.line_tag == 0 {
            SshapeLineKind::Upper
        } else {
            SshapeLineKind::Lower
        }
    }
}

// ---- The parts of a proof ----

/// The commitments, in the order in which they are bound.
pub open spec fn cp_coms<P: MlPcs>(proof: SshapeCriticalPointProof<P>) -> Seq<P::Commitment> {
    seq![
        proof.z_commit,
        proof.sigma_lo_z_commit,
        proof.sigma_up_z_commit,
        proof.sigma_lo_zmd_commit,
        proof.sigma_up_zmd_commit,
        proof.sigma_lo_zpd_commit,
        proof.sigma_up_zpd_commit,
        proof.slack_fd1_commit,
        proof.slack_fd2_commit,
        proof.slack_fd1_high_commit,
        proof.slack_fd1_low_commit,
        proof.slack_fd2_high_commit,
        proof.slack_fd2_low_commit,
        proof.factor_a_commit,
        proof.factor_b_commit,
        proof.dz_step_1_commit,
        proof.dz_step_1_rem_commit,
        proof.dz_sigma_code_commit,
        proof.dz_sigma_rem_commit,
        proof.b_sigma_code_commit,
        proof.b_sigma_rem_commit,
        proof.is_active_commit,
        proof.inside_commit,
        proof.slack_pos_commit,
        proof.slack_pos_high_commit,
        proof.slack_pos_low_commit,
        proof.gated_gap_commit,
        proof.gated_gap_high_commit,
        proof.gated_gap_low_commit,
    ]
}

/// The commitments, by reference.
fn cp_com_refs<P: MlPcs>(proof: &SshapeCriticalPointProof<P>) -> (r: Vec<&P::Commitment>)
    ensures
        derefs(r@) == cp_coms(*proof),
        r@.len() == 29,
{
    let out: Vec<&P::Commitment> = vec![
        &proof.z_commit,
        &proof.sigma_lo_z_commit,
        &proof.sigma_up_z_commit,
        &proof.sigma_lo_zmd_commit,
        &proof.sigma_up_zmd_commit,
        &proof.sigma_lo_zpd_commit,
        &proof.sigma_up_zpd_commit,
        &proof.slack_fd1_commit,
        &proof.slack_fd2_commit,
        &proof.slack_fd1_high_commit,
        &proof.slack_fd1_low_commit,
        &proof.slack_fd2_high_commit,
        &proof.slack_fd2_low_commit,
        &proof.factor_a_commit,
        &proof.factor_b_commit,
        &proof.dz_step_1_commit,
        &proof.dz_step_1_rem_commit,
        &proof.dz_sigma_code_commit,
        &proof.dz_sigma_rem_commit,
        &proof.b_sigma_code_commit,
        &proof.b_sigma_rem_commit,
        &proof.is_active_commit,
        &proof.inside_commit,
        &proof.slack_pos_commit,
        &proof.slack_pos_high_commit,
        &proof.slack_pos_low_commit,
        &proof.gated_gap_commit,
        &proof.gated_gap_high_commit,
        &proof.gated_gap_low_commit,
    ];
    assert(derefs(out@) =~= cp_coms(*proof));
    out
}

/// The indices of the columns that are range-checked: `z`, the chunks, and the
/// remainders.
pub open spec fn cp_checked() -> Seq<usize> {
    seq![0usize, 9usize, 10usize, 11usize, 12usize, 24usize, 25usize, 27usize, 28usize, 16usize, 18usize, 20usize]
}

/// The indices of the columns that are range-checked.
pub fn cp_checked_list() -> (r: Vec<usize>)
    ensures
        r@ == cp_checked(),
        r@.len() == 12,
        indices_ok(r@, 29),
{
    let out: Vec<usize> = vec![0, 9, 10, 11, 12, 24, 25, 27, 28, 16, 18, 20];
    assert(out@ =~= cp_checked());
    out
}

/// The range proofs.
pub open spec fn cp_ranges<P: MlPcs>(proof: SshapeCriticalPointProof<P>) -> Seq<PosRangeLogUp<P>> {
    seq![
        proof.z_range,
        proof.slack_fd1_high_range,
        proof.slack_fd1_low_range,
        proof.slack_fd2_high_range,
        proof.slack_fd2_low_range,
        proof.slack_pos_high_range,
        proof.slack_pos_low_range,
        proof.gated_gap_high_range,
        proof.gated_gap_low_range,
        proof.dz_step_1_rem_range,
        proof.dz_sigma_rem_range,
        proof.b_sigma_rem_range,
    ]
}

/// The range proofs, by reference.
fn cp_range_refs<P: MlPcs>(proof: &SshapeCriticalPointProof<P>) -> (r: Vec<&PosRangeLogUp<P>>)
    ensures
        derefs(r@) == cp_ranges(*proof),
        r@.len() == 12,
{
    let out: Vec<&PosRangeLogUp<P>> = vec![
        &proof.z_range,
        &proof.slack_fd1_high_range,
        &proof.slack_fd1_low_range,
        &proof.slack_fd2_high_range,
        &proof.slack_fd2_low_range,
        &proof.slack_pos_high_range,
        &proof.slack_pos_low_range,
        &proof.gated_gap_high_range,
        &proof.gated_gap_low_range,
        &proof.dz_step_1_rem_range,
        &proof.dz_sigma_rem_range,
        &proof.b_sigma_rem_range,
    ];
    assert(derefs(out@) =~= cp_ranges(*proof));
    out
}

/// The coefficients of the identities.
pub open spec fn cp_rhos<P: MlPcs>(proof: SshapeCriticalPointProof<P>) -> Seq<int> {
    seq![
        proof.combined_rho_a@,
        proof.combined_rho_b@,
        proof.combined_rho_c@,
        proof.combined_rho_d@,
        proof.combined_rho_e@,
        proof.combined_rho_f@,
        proof.combined_rho_g@,
        proof.combined_rho_h@,
        proof.combined_rho_i@,
        proof.combined_rho_j@,
        proof.combined_rho_k@,
        proof.combined_rho_l@,
        proof.combined_rho_m@,
        proof.combined_rho_n@,
        proof.combined_rho_o@,
    ]
}

/// The coefficients of the identities.
fn cp_rho_list<P: MlPcs>(proof: &SshapeCriticalPointProof<P>) -> (r: Vec<Fr>)
    ensures
        vals(r@) == cp_rhos(*proof),
{
    let out: Vec<Fr> = vec![
        proof.combined_rho_a,
        proof.combined_rho_b,
        proof.combined_rho_c,
        proof.combined_rho_d,
        proof.combined_rho_e,
        proof.combined_rho_f,
        proof.combined_rho_g,
        proof.combined_rho_h,
        proof.combined_rho_i,
        proof.combined_rho_j,
        proof.combined_rho_k,
        proof.combined_rho_l,
        proof.combined_rho_m,
        proof.combined_rho_n,
        proof.combined_rho_o,
    ];
    assert(vals(out@) =~= cp_rhos(*proof));
    out
}

/// The values of the joint opening at the final point.
pub open spec fn cp_values<P: MlPcs>(proof: SshapeCriticalPointProof<P>) -> Seq<int> {
    seq![
        proof.d_eval@,
        proof.b_eval@,
        proof.z_eval@,
        proof.sigma_lo_z_eval@,
        proof.sigma_up_z_eval@,
        proof.sigma_lo_zmd_eval@,
        proof.sigma_up_zmd_eval@,
        proof.sigma_lo_zpd_eval@,
        proof.sigma_up_zpd_eval@,
        proof.slack_fd1_eval@,
        proof.slack_fd2_eval@,
        proof.factor_a_eval@,
        proof.factor_b_eval@,
        proof.dz_step_1_eval@,
        proof.dz_step_1_rem_eval@,
        proof.dz_sigma_code_eval@,
        proof.dz_sigma_rem_eval@,
        proof.b_sigma_code_eval@,
        proof.b_sigma_rem_eval@,
        proof.slack_fd1_high_eval@,
        proof.slack_fd1_low_eval@,
        proof.slack_fd2_high_eval@,
        proof.slack_fd2_low_eval@,
        proof.inside_eval@,
        proof.slack_pos_eval@,
        proof.slack_pos_high_eval@,
        proof.slack_pos_low_eval@,
        proof.gated_gap_eval@,
        proof.gated_gap_high_eval@,
        proof.gated_gap_low_eval@,
        proof.is_active_eval@,
    ]
}

/// The values of the joint opening at the final point.
fn cp_value_list<P: MlPcs>(proof: &SshapeCriticalPointProof<P>) -> (r: Vec<Fr>)
    ensures
        vals(r@) == cp_values(*proof),
        r@.len() == 31,
{
    let out: Vec<Fr> = vec![
        proof.d_eval,
        proof.b_eval,
        proof.z_eval,
        proof.sigma_lo_z_eval,
        proof.sigma_up_z_eval,
        proof.sigma_lo_zmd_eval,
        proof.sigma_up_zmd_eval,
        proof.sigma_lo_zpd_eval,
        proof.sigma_up_zpd_eval,
        proof.slack_fd1_eval,
        proof.slack_fd2_eval,
        proof.factor_a_eval,
        proof.factor_b_eval,
        proof.dz_step_1_eval,
        proof.dz_step_1_rem_eval,
        proof.dz_sigma_code_eval,
        proof.dz_sigma_rem_eval,
        proof.b_sigma_code_eval,
        proof.b_sigma_rem_eval,
        proof.slack_fd1_high_eval,
        proof.slack_fd1_low_eval,
        proof.slack_fd2_high_eval,
        proof.slack_fd2_low_eval,
        proof.inside_eval,
        proof.slack_pos_eval,
        proof.slack_pos_high_eval,
        proof.slack_pos_low_eval,
        proof.gated_gap_eval,
        proof.gated_gap_high_eval,
        proof.gated_gap_low_eval,
        proof.is_active_eval,
    ];
    assert(vals(out@) =~= cp_values(*proof));
    out
}

/// The commitments of the joint opening at the final point: the line's, and
/// the gadget's own.
pub open spec fn cp_opened<P: MlPcs>(
    proof: SshapeCriticalPointProof<P>,
    d: P::Commitment,
    b: P::Commitment,
) -> Seq<P::Commitment> {
    seq![d, b] + picked(cp_coms(proof), opening_order())
}

/// The values of the envelope's joint opening.
pub open spec fn cp_env_values<P: MlPcs>(proof: SshapeCriticalPointProof<P>) -> Seq<int> {
    seq![
        proof.envelope_z_eval@,
        proof.envelope_sigma_lo_z_eval@,
        proof.envelope_sigma_up_z_eval@,
        proof.envelope_sigma_lo_zmd_eval@,
        proof.envelope_sigma_up_zmd_eval@,
        proof.envelope_sigma_lo_zpd_eval@,
        proof.envelope_sigma_up_zpd_eval@,
    ]
}

/// The values of the envelope's joint opening.
fn cp_env_value_list<P: MlPcs>(proof: &SshapeCriticalPointProof<P>) -> (r: Vec<Fr>)
    ensures
        vals(r@) == cp_env_values(*proof),
        r@.len() == 7,
{
    let out: Vec<Fr> = vec![
        proof.envelope_z_eval,
        proof.envelope_sigma_lo_z_eval,
        proof.envelope_sigma_up_z_eval,
        proof.envelope_sigma_lo_zmd_eval,
        proof.envelope_sigma_up_zmd_eval,
        proof.envelope_sigma_lo_zpd_eval,
        proof.envelope_sigma_up_zpd_eval,
    ];
    assert(vals(out@) =~= cp_env_values(*proof));
    out
}

/// The commitments of the envelope's joint opening.
pub open spec fn cp_env_coms<P: MlPcs>(coms: Seq<P::Commitment>) -> Seq<P::Commitment> {
    coms.take(7)
}

// ---- The transcript ----

/// The state after the header.
pub open spec fn cp_t0<P: MlPcs>(
    layer_idx: usize,
    kind: ActivationKind,
    line: SshapeLineKind,
    n: usize,
    preact_l: P::Commitment,
    preact_u: P::Commitment,
    d: P::Commitment,
    b: P::Commitment,
    t0: Seq<u8>,
) -> Seq<u8> {
    let h1 = abs_u8(abs_u8(abs_u64(t0, layer_idx as u64), kind_tag(kind)), line_tag(line));
    let h2 = abs_u64(abs_u64(h1, vector_vars(n as nat) as u64), n as u64);
    abs_com::<P>(abs_com::<P>(abs_com::<P>(abs_com::<P>(h2, d), b), preact_l), preact_u)
}

/// The state before the envelope lookup, from the state after the header.
pub open spec fn cp_t2<P: MlPcs>(
    vk: P::VerifierKey,
    proof: SshapeCriticalPointProof<P>,
    h: Seq<u8>,
) -> Seq<u8> {
    ranges_state(
        vk,
        picked(cp_coms(proof), cp_checked()),
        proof.n_vars as nat,
        cp_ranges(proof),
        abs_coms::<P>(h, cp_coms(proof)),
        12,
    )
}

/// The length that the envelope lookup binds first.
pub open spec fn cp_len_tag(n_vars: nat) -> u64 {
    (3 * pow2(n_vars)) as u64
}

/// The state before the envelope's circuits.
pub open spec fn cp_t3<P: MlPcs>(proof: SshapeCriticalPointProof<P>, t2: Seq<u8>) -> Seq<u8> {
    env_t3::<P>(
        cp_len_tag(proof.n_vars as nat),
        proof.envelope_mult_commit,
        proof.envelope_witness_len as u64,
        proof.envelope_table_len as u64,
        t2,
    )
}

/// The state after the envelope's circuits.
pub open spec fn cp_t4<P: MlPcs>(proof: SshapeCriticalPointProof<P>, t2: Seq<u8>) -> Seq<u8> {
    pair_state(
        proof.envelope_lookup_proof,
        proof.envelope_table_proof,
        proof.envelope_lookup_top,
        proof.envelope_table_top,
        cp_t3(proof, t2),
    )
}

/// The state after the opening of the multiplicities.
pub open spec fn cp_t5<P: MlPcs>(
    vk: P::VerifierKey,
    proof: SshapeCriticalPointProof<P>,
    t2: Seq<u8>,
) -> Seq<u8> {
    open_state::<P>(
        vk,
        proof.envelope_mult_commit,
        vals(proof.envelope_table_proof.bottom_point@),
        proof.envelope_table_proof.bottom_num@,
        proof.envelope_mult_open,
        proof.envelope_mult_n_vars as nat,
        cp_t4(proof, t2),
    )
}

/// The state after the envelope lookup.
#[verifier::opaque]
pub open spec fn cp_t6<P: MlPcs>(
    vk: P::VerifierKey,
    proof: SshapeCriticalPointProof<P>,
    t2: Seq<u8>,
) -> Seq<u8> {
    batch_open_state::<P>(
        vk,
        cp_env_coms::<P>(cp_coms(proof)),
        cp_env_values(proof),
        vals(proof.envelope_lookup_proof.bottom_point@).take(proof.n_vars as int),
        proof.envelope_witness_batched_open,
        proof.n_vars as nat,
        cp_t5(vk, proof, t2),
    )
}

/// The state before the rounds, from the state after the envelope lookup.
pub open spec fn cp_t7<P: MlPcs>(proof: SshapeCriticalPointProof<P>, t6: Seq<u8>) -> Seq<u8> {
    after_squeeze(challenged_n(t6, 15), proof.n_vars as int)
}

/// The state after the joint opening at the final point.
pub open spec fn cp_t8<P: MlPcs>(
    vk: P::VerifierKey,
    proof: SshapeCriticalPointProof<P>,
    d: P::Commitment,
    b: P::Commitment,
    t6: Seq<u8>,
) -> Seq<u8> {
    zero_state::<P>(
        vk,
        samples_of(proof.rounds@),
        vals(proof.r_final@),
        cp_opened(proof, d, b),
        cp_values(proof),
        proof.batched_open_at_r,
        proof.n_vars as nat,
        cp_t7(proof, t6),
    )
}

/// The state after the opening of the lower preactivations.
pub open spec fn cp_t9<P: MlPcs>(
    vk: P::VerifierKey,
    proof: SshapeCriticalPointProof<P>,
    preact_l: P::Commitment,
    d: P::Commitment,
    b: P::Commitment,
    t6: Seq<u8>,
) -> Seq<u8> {
    open_state::<P>(
        vk,
        preact_l,
        vals(proof.r_final@),
        proof.preact_l_eval@,
        proof.preact_l_open_at_r_final,
        proof.n_vars as nat,
        cp_t8(vk, proof, d, b, t6),
    )
}

/// The state after the sumcheck and its openings.
#[verifier::opaque]
pub open spec fn cp_t10<P: MlPcs>(
    vk: P::VerifierKey,
    proof: SshapeCriticalPointProof<P>,
    preact_l: P::Commitment,
    preact_u: P::Commitment,
    d: P::Commitment,
    b: P::Commitment,
    t6: Seq<u8>,
) -> Seq<u8> {
    open_state::<P>(
        vk,
        preact_u,
        vals(proof.r_final@),
        proof.preact_u_eval@,
        proof.preact_u_open_at_r_final,
        proof.n_vars as nat,
        cp_t9(vk, proof, preact_l, d, b, t6),
    )
}

/// The state after a whole proof.
pub open spec fn critical_state<P: MlPcs>(
    vk: P::VerifierKey,
    proof: SshapeCriticalPointProof<P>,
    kind: ActivationKind,
    line: SshapeLineKind,
    preact_l: P::Commitment,
    preact_u: P::Commitment,
    d: P::Commitment,
    b: P::Commitment,
    t0: Seq<u8>,
) -> Seq<u8> {
    let h = cp_t0::<P>(
        proof.layer_idx,
        kind,
        line,
        proof.n_real,
        preact_l,
        preact_u,
        d,
        b,
        t0,
    );
    cp_t10(vk, proof, preact_l, preact_u, d, b, cp_t6(vk, proof, cp_t2(vk, proof, h)))
}

// ---- The verdict ----

/// The check of a proof's tags and sizes against the public inputs.
pub open spec fn cp_header_verdict<P: MlPcs>(
    params: SnarkParams<P>,
    proof: SshapeCriticalPointProof<P>,
    layer_idx: usize,
    kind: ActivationKind,
    line: SshapeLineKind,
    n: usize,
    s_d: Scale,
    s_b: Scale,
    s_w: Scale,
) -> Result<(), SnarkError> {
    let bits = params.gadget_range_bits as int;
    if kind is ReLU {
        Err(SnarkError::ShapeMismatch { what: "sshape3c verify called for ReLU" })
    } else if proof.kind_tag != kind_tag(kind) {
        Err(SnarkError::ArchitectureMismatch { what: "sshape3c: kind_tag mismatch" })
    } else if proof.line_tag != line_tag(line) {
        Err(SnarkError::ArchitectureMismatch { what: "sshape3c: line_tag mismatch" })
    } else if proof.layer_idx != layer_idx {
        Err(SnarkError::ArchitectureMismatch { what: "sshape3c: layer_idx mismatch" })
    } else if !s_d.spec_is_pow2() {
        Err(SnarkError::ShapeMismatch { what: "sshape3c: s_d not pow2" })
    } else if !s_b.spec_is_pow2() {
        Err(SnarkError::ShapeMismatch { what: "sshape3c: s_b not pow2" })
    } else if !s_w.spec_is_pow2() {
        Err(SnarkError::ShapeMismatch { what: "sshape3c: s_w not pow2" })
    } else if s_w.e != params.sigma_x_scale_log2 {
        Err(
            SnarkError::Reserved {
                what: "sshape3c verify: requires s_w = s_x = 2^sigma_x_scale_log2",
            },
        )
    } else if s_d.e > bits || s_b.e > bits || s_w.e > bits {
        Err(
            SnarkError::RelaxationSoundnessFinalCheckFailed {
                which: "sshape3c verify: per-scale precondition failed",
            },
        )
    } else if n == 0 {
        Err(SnarkError::Reserved { what: "sshape3c verify: requires n ≥ 1" })
    } else if proof.n_real != n {
        Err(
            SnarkError::ArchitectureMismatch {
                what: "sshape3c: n_real mismatch (verifier — proof's n_real differs from the public n_real_neurons argument)",
            },
        )
    } else if proof.n_vars != vector_vars(n as nat) {
        Err(SnarkError::ArchitectureMismatch { what: "sshape3c: n_vars mismatch" })
    } else {
        Ok(())
    }
}

/// A check of the gadget.
pub open spec fn cp_holds(cond: bool, which: &'static str) -> Result<(), SnarkError> {
    holds(cond, SnarkError::RelaxationSoundnessFinalCheckFailed { which })
}

/// A table entry, or zero where it does not stand for an integer.
pub open spec fn readable(v: int) -> int {
    if signed_of(v) is Some {
        v
    } else {
        0
    }
}

/// The key of the envelope rows, from the values of the joint opening.
pub open spec fn cp_rows_key(
    a1: int,
    a2: int,
    ev: Seq<int>,
    upper: Seq<int>,
    lower: Seq<int>,
    x: int,
    y: int,
) -> int {
    rows_key(
        a1,
        a2,
        ev[0],
        (ev[2], ev[4], ev[6]),
        (ev[1], ev[3], ev[5]),
        readable(upper[0]),
        readable(lower[0]),
        x,
        y,
    )
}

/// The verdict on the envelope lookup.
#[verifier::opaque]
pub open spec fn cp_envelope_verdict<P: MlPcs>(
    params: SnarkParams<P>,
    proof: SshapeCriticalPointProof<P>,
    kind: ActivationKind,
    t2: Seq<u8>,
) -> Result<(), SnarkError> {
    let vk = params.verifier_key;
    let n_vars = proof.n_vars as nat;
    let tag = cp_len_tag(n_vars);
    let (lower, upper) = envelope_tables(params.preprocessed.spec_sigma(), kind)->Some_0;
    let tl = upper.len();
    let (a1, a2) = (env_alpha_1(tag, t2), env_alpha_2(tag, t2));
    let beta = env_beta::<P>(
        tag,
        proof.envelope_mult_commit,
        proof.envelope_witness_len as u64,
        tl as u64,
        t2,
    );
    let lp = vals(proof.envelope_lookup_proof.bottom_point@);
    let tp = vals(proof.envelope_table_proof.bottom_point@);
    let mult = open_verdict::<P>(
        vk,
        proof.envelope_mult_commit,
        tp,
        proof.envelope_table_proof.bottom_num@,
        proof.envelope_mult_open,
        proof.envelope_mult_n_vars as nat,
        cp_t4(proof, t2),
    );
    and_also(
        cp_holds(
            a1 == proof.envelope_combine_alpha_1@ && a2 == proof.envelope_combine_alpha_2@,
            "sshape3c: envelope alpha mismatch",
        ),
        and_also(
            cp_holds(proof.envelope_table_len == tl, "sshape3c: envelope_table_len mismatch"),
            and_also(
                cp_holds(
                    proof.envelope_witness_len == 4 * pow2(n_vars),
                    "sshape3c: envelope_witness_len mismatch",
                ),
                and_also(
                    cp_holds(
                        beta == proof.envelope_logup_beta@,
                        "sshape3c: envelope beta mismatch",
                    ),
                    and_also(
                        pair_verdict(
                            proof.envelope_lookup_proof,
                            proof.envelope_table_proof,
                            proof.envelope_lookup_top,
                            proof.envelope_table_top,
                            proof.envelope_lookup_proof.layers@.len(),
                            proof.envelope_table_proof.layers@.len(),
                            cp_t3(proof, t2),
                        ),
                        and_also(
                            cp_holds(
                                tops_cancel(
                                    vals4(proof.envelope_lookup_top),
                                    vals4(proof.envelope_table_top),
                                ),
                                "sshape3c: top-fraction cancellation",
                            ),
                            and_also(
                                cp_holds(
                                    tp.len() == ceil_log2(tl)
                                        && proof.envelope_table_proof.bottom_denom@ == fsub(
                                        envelope_value(a1, a2, upper, lower, tp),
                                        beta,
                                    ),
                                    "sshape3c: envelope table bottom_denom mismatch",
                                ),
                                and_also(
                                    opened(mult, "sshape3c::envelope_mult_open"),
                                    cp_rows_verdict(params, proof, kind, a1, a2, beta, t2),
                                ),
                            ),
                        ),
                    ),
                ),
            ),
        ),
    )
}

/// The verdict on the binding of the envelope rows to the columns.
pub open spec fn cp_rows_verdict<P: MlPcs>(
    params: SnarkParams<P>,
    proof: SshapeCriticalPointProof<P>,
    kind: ActivationKind,
    a1: int,
    a2: int,
    beta: int,
    t2: Seq<u8>,
) -> Result<(), SnarkError> {
    let vk = params.verifier_key;
    let n_vars = proof.n_vars as nat;
    let (lower, upper) = envelope_tables(params.preprocessed.spec_sigma(), kind)->Some_0;
    let lp = vals(proof.envelope_lookup_proof.bottom_point@);
    if lp.len() < n_vars + 2 {
        Err(
            SnarkError::ShapeMismatch {
                what: "sshape3c verify: LogUp bottom_point too short for row decomposition",
            },
        )
    } else {
        and_also(
            opened(
                batch_open_verdict::<P>(
                    vk,
                    cp_env_coms::<P>(cp_coms(proof)),
                    cp_env_values(proof),
                    lp.take(n_vars as int),
                    proof.envelope_witness_batched_open,
                    n_vars,
                    cp_t5(vk, proof, t2),
                ),
                "sshape3c::envelope_witness_batched_open",
            ),
            cp_holds(
                fadd(proof.envelope_lookup_proof.bottom_denom@, beta) == cp_rows_key(
                    a1,
                    a2,
                    cp_env_values(proof),
                    upper,
                    lower,
                    lp[n_vars as int],
                    lp[(n_vars + 1) as int],
                ),
                "sshape3c: LogUp witness-side single-point bind mismatch",
            ),
        )
    }
}

/// The margin of the slope match.
pub open spec fn cp_margin<P: MlPcs>(params: SnarkParams<P>, s_d: Scale) -> int {
    (pow2(s_d.e as nat) * pow2(params.sigma_x_scale_log2 as nat) * 4) as int
}

/// The identities for given scales.
pub open spec fn cp_exprs<P: MlPcs>(
    params: SnarkParams<P>,
    kind: ActivationKind,
    line: SshapeLineKind,
    s_d: Scale,
    s_b: Scale,
    s_w: Scale,
) -> Seq<Expr> {
    critical_exprs(
        kind,
        line,
        pow2(s_d.e as nat) as i128,
        pow2(s_b.e as nat) as i128,
        pow2(s_w.e as nat) as i128,
        pow2(params.sigma_v_scale_log2 as nat) as i128,
        (pow2(s_d.e as nat) * pow2(params.sigma_x_scale_log2 as nat)) as i128,
        cp_margin(params, s_d) as i128,
        pow2(params.gadget_range_bits as nat) as i128,
    )
}

/// The identities' combination at the final point.
pub open spec fn cp_final_value<P: MlPcs>(
    proof: SshapeCriticalPointProof<P>,
    exprs: Seq<Expr>,
    n: nat,
) -> int {
    let point = vals(proof.r_final@);
    let np = pow2(proof.n_vars as nat);
    masked_value(
        cp_rhos(proof),
        exprs,
        seq![
            mle(eq_table(vals(proof.r_test@)), point),
            mle(mask(n, np), point),
            proof.preact_l_eval@,
            proof.preact_u_eval@,
        ] + cp_values(proof),
    )
}

/// The verdict on the sumcheck and its openings.
#[verifier::opaque]
pub open spec fn cp_sumcheck_verdict<P: MlPcs>(
    vk: P::VerifierKey,
    proof: SshapeCriticalPointProof<P>,
    exprs: Seq<Expr>,
    margin_fits: bool,
    n: nat,
    preact_l: P::Commitment,
    preact_u: P::Commitment,
    d: P::Commitment,
    b: P::Commitment,
    t6: Seq<u8>,
) -> Result<(), SnarkError> {
    let n_vars = proof.n_vars as nat;
    let t7 = cp_t7(proof, t6);
    let s = samples_of(proof.rounds@);
    let point = vals(proof.r_final@);
    and_also(
        cp_holds(challenges(t6, 15) == cp_rhos(proof), "sshape3c: rho mismatch"),
        and_also(
            cp_holds(
                squeezed(challenged_n(t6, 15), proof.n_vars as int) == vals(proof.r_test@),
                "sshape3c: r_test mismatch",
            ),
            and_also(
                holds(
                    s.len() == n_vars && point.len() == n_vars,
                    SnarkError::ArchitectureMismatch { what: "sshape3c: round count mismatch" },
                ),
                and_also(
                    cp_holds(sc_all_split(true, t7, s, 0, s.len()), "sshape3c: round invariant"),
                    and_also(
                        cp_holds(sc_point(true, t7, s) == point, "sshape3c: r_final mismatch"),
                        and_also(
                            opened(
                                batch_open_verdict::<P>(
                                    vk,
                                    cp_opened(proof, d, b),
                                    cp_values(proof),
                                    point,
                                    proof.batched_open_at_r,
                                    n_vars,
                                    sc_state(true, t7, s, s.len()),
                                ),
                                "sshape3c::batched_open_at_r",
                            ),
                            and_also(
                                opened(
                                    open_verdict::<P>(
                                        vk,
                                        preact_l,
                                        point,
                                        proof.preact_l_eval@,
                                        proof.preact_l_open_at_r_final,
                                        n_vars,
                                        cp_t8(vk, proof, d, b, t6),
                                    ),
                                    "sshape3c: preact_lower_commit open at r_final",
                                ),
                                and_also(
                                    opened(
                                        open_verdict::<P>(
                                            vk,
                                            preact_u,
                                            point,
                                            proof.preact_u_eval@,
                                            proof.preact_u_open_at_r_final,
                                            n_vars,
                                            cp_t9(vk, proof, preact_l, d, b, t6),
                                        ),
                                        "sshape3c: preact_upper_commit open at r_final",
                                    ),
                                    and_also(
                                        holds(
                                            margin_fits,
                                            SnarkError::ShapeMismatch {
                                                what: "sshape3c verify: ε_crit overflow",
                                            },
                                        ),
                                        cp_holds(
                                            cp_final_value(proof, exprs, n) == sc_claim(
                                                true,
                                                t7,
                                                s,
                                                0,
                                                s.len(),
                                            ),
                                            "sshape3c: final identity at r_final",
                                        ),
                                    ),
                                ),
                            ),
                        ),
                    ),
                ),
            ),
        ),
    )
}

/// The verdict on a proof.
pub open spec fn critical_verdict<P: MlPcs>(
    params: SnarkParams<P>,
    proof: SshapeCriticalPointProof<P>,
    layer_idx: usize,
    kind: ActivationKind,
    line: SshapeLineKind,
    n: usize,
    preact_l: P::Commitment,
    preact_u: P::Commitment,
    d: P::Commitment,
    b: P::Commitment,
    s_d: Scale,
    s_b: Scale,
    s_w: Scale,
    t0: Seq<u8>,
) -> Result<(), SnarkError> {
    let vk = params.verifier_key;
    let h = cp_t0::<P>(layer_idx, kind, line, n, preact_l, preact_u, d, b, t0);
    let t2 = cp_t2(vk, proof, h);
    and_also(
        cp_header_verdict(params, proof, layer_idx, kind, line, n, s_d, s_b, s_w),
        and_also(
            ranges_verdict(
                params,
                picked(cp_coms(proof), cp_checked()),
                proof.n_vars as nat,
                cp_ranges(proof),
                abs_coms::<P>(h, cp_coms(proof)),
                0,
            ),
            and_also(
                cp_envelope_verdict(params, proof, kind, t2),
                cp_sumcheck_verdict(
                    vk,
                    proof,
                    cp_exprs(params, kind, line, s_d, s_b, s_w),
                    fits(cp_margin(params, s_d)),
                    n as nat,
                    preact_l,
                    preact_u,
                    d,
                    b,
                    cp_t6(vk, proof, t2),
                ),
            ),
        ),
    )
}

// ---- The verifier ----

/// Check a proof's tags and sizes.
fn check_critical_header<P: MlPcs>(
    proof: &SshapeCriticalPointProof<P>,
    expected_layer_idx: usize,
    kind: ActivationKind,
    line: SshapeLineKind,
    n: usize,
    s_d: Scale,
    s_b: Scale,
    s_w: Scale,
    params: &SnarkParams<P>,
) -> (r: Result<(), SnarkError>)
    requires
        params.gadget_range_bits <= i32::MAX,
        n <= usize::MAX / 2 + 1,
    ensures
        r == cp_header_verdict(
            *params,
            *proof,
            expected_layer_idx,
            kind,
            line,
            n,
            s_d,
            s_b,
            s_w,
        ),
{
    let kind_tag: u8 = match kind {
        ActivationKind::Sigmoid => 0,
        ActivationKind::Tanh => 1,
        ActivationKind::ReLU => {
            return Err(SnarkError::ShapeMismatch { what: "sshape3c verify called for ReLU" });
        },
    };
    if proof.kind_tag != kind_tag {
        return Err(SnarkError::ArchitectureMismatch { what: "sshape3c: kind_tag mismatch" });
    }
    if proof.line_tag != line.tag() {
        return Err(SnarkError::ArchitectureMismatch { what: "sshape3c: line_tag mismatch" });
    }
    if proof.layer_idx != expected_layer_idx {
        return Err(SnarkError::ArchitectureMismatch { what: "sshape3c: layer_idx mismatch" });
    }
    let s_d_e: i32 = match s_d.pow2_exponent() {
        Ok(e) => e,
        Err(_) => {
            return Err(SnarkError::ShapeMismatch { what: "sshape3c: s_d not pow2" });
        },
    };
    let s_b_e: i32 = match s_b.pow2_exponent() {
        Ok(e) => e,
        Err(_) => {
            return Err(SnarkError::ShapeMismatch { what: "sshape3c: s_b not pow2" });
        },
    };
    let s_w_e: i32 = match s_w.pow2_exponent() {
        Ok(e) => e,
        Err(_) => {
            return Err(SnarkError::ShapeMismatch { what: "sshape3c: s_w not pow2" });
        },
    };
    if s_w_e != params.sigma_x_scale_log2 {
        return Err(
            SnarkError::Reserved {
                what: "sshape3c verify: requires s_w = s_x = 2^sigma_x_scale_log2",
            },
        );
    }
    let bits: i32 = params.gadget_range_bits as i32;
    if s_d_e > bits || s_b_e > bits || s_w_e > bits {
        return Err(
            SnarkError::RelaxationSoundnessFinalCheckFailed {
                which: "sshape3c verify: per-scale precondition failed",
            },
        );
    }
    if n == 0 {
        return Err(SnarkError::Reserved { what: "sshape3c verify: requires n ≥ 1" });
    }
    if proof.n_real != n {
        return Err(
            SnarkError::ArchitectureMismatch {
                what: "sshape3c: n_real mismatch (verifier — proof's n_real differs from the public n_real_neurons argument)",
            },
        );
    }
    if proof.n_vars != native_vector_n_vars(n) {
        return Err(SnarkError::ArchitectureMismatch { what: "sshape3c: n_vars mismatch" });
    }
    Ok(())
}

/// A table entry, or zero where it does not stand for an integer.
pub fn readable_entry(v: Fr) -> (r: Fr)
    ensures
        r@ == readable(v@),
{
    match fr_to_signed_i128(v) {
        Some(x) => {
            proof {
                lemma_view_in_field(v);
                lemma_signed_of_residue(v@);
            }
            signed_lift_to_fr(x)
        },
        None => Fr::from_u64(0),
    }
}

/// The first coordinates of a point.
pub fn first_coordinates(point: &Vec<Fr>, n: usize) -> (r: Vec<Fr>)
    requires
        n <= point@.len(),
    ensures
        vals(r@) == vals(point@).take(n as int),
        r@.len() == n,
{
    let mut out: Vec<Fr> = Vec::with_capacity(n);
    let mut i: usize = 0;
    while i < n
        invariant
            i <= n <= point@.len(),
            out@.len() == i,
            forall|k: int| 0 <= k < i ==> #[trigger] out@[k] == point@[k],
        decreases n - i,
    {
        out.push(point[i]);
        i += 1;
    }
    assert(vals(out@) =~= vals(point@).take(n as int));
    out
}

/// The key of the envelope rows.
fn rows_key_fr(
    a1: Fr,
    a2: Fr,
    ev: &Vec<Fr>,
    pad_up: Fr,
    pad_lo: Fr,
    x: Fr,
    y: Fr,
) -> (r: Fr)
    requires
        ev@.len() == 7,
    ensures
        r@ == rows_key(
            a1@,
            a2@,
            ev@[0]@,
            (ev@[2]@, ev@[4]@, ev@[6]@),
            (ev@[1]@, ev@[3]@, ev@[5]@),
            pad_up@,
            pad_lo@,
            x@,
            y@,
        ),
{
    let one: Fr = Fr::from_u64(1);
    let w0: Fr = a1.mul(ev[0]).add(a2.mul(ev[2])).add(ev[1]);
    let w1: Fr = a1.mul(ev[0].sub(one)).add(a2.mul(ev[4])).add(ev[3]);
    let w2: Fr = a1.mul(ev[0].add(one)).add(a2.mul(ev[6])).add(ev[5]);
    let w3: Fr = a2.mul(pad_up).add(pad_lo);
    let e0: Fr = one.sub(x).mul(one.sub(y));
    let e1: Fr = one.sub(x).mul(y);
    let e2: Fr = x.mul(one.sub(y));
    let e3: Fr = x.mul(y);
    e0.mul(w0).add(e1.mul(w1)).add(e2.mul(w2)).add(e3.mul(w3))
}

/// Verify the binding of the envelope rows to the columns.
fn verify_critical_rows<P: MlPcs>(
    proof: &SshapeCriticalPointProof<P>,
    kind: ActivationKind,
    a1: Fr,
    a2: Fr,
    beta: Fr,
    params: &SnarkParams<P>,
    sponge: &mut Transcript,
    Ghost(t2): Ghost<Seq<u8>>,
) -> (r: Result<(), SnarkError>)
    requires
        kind != ActivationKind::ReLU,
        proof.n_vars < 64,
        state_of(*old(sponge)) == cp_t5(params.verifier_key, *proof, t2),
    ensures
        r == cp_rows_verdict(*params, *proof, kind, a1@, a2@, beta@, t2),
        r is Ok ==> state_of(*final(sponge)) == cp_t6(params.verifier_key, *proof, t2),
{
    proof {
        reveal(cp_t6);
    }
    let n_vars: usize = proof.n_vars;
    let bp: &Vec<Fr> = &proof.envelope_lookup_proof.bottom_point;
    if bp.len() < n_vars + 2 {
        return Err(
            SnarkError::ShapeMismatch {
                what: "sshape3c verify: LogUp bottom_point too short for row decomposition",
            },
        );
    }
    let bp_high: Vec<Fr> = first_coordinates(bp, n_vars);
    let refs: Vec<&P::Commitment> = cp_com_refs(proof);
    let env_refs: Vec<&P::Commitment> = vec![
        refs[0],
        refs[1],
        refs[2],
        refs[3],
        refs[4],
        refs[5],
        refs[6],
    ];
    let ev: Vec<Fr> = cp_env_value_list(proof);
    proof {
        assert(derefs(env_refs@) =~= cp_env_coms::<P>(cp_coms(*proof))) by {
            assert forall|i: int| 0 <= i < 7 implies #[trigger] derefs(env_refs@)[i] == cp_coms(
                *proof,
            )[i] by {
                assert(derefs(refs@)[i] == *refs@[i]);
            }
        }
    }
    let items: Vec<BatchVerifySpec<'_, P>> = verify_items::<P>(&env_refs, &ev, n_vars);
    match hyrax_verify_batched_at::<P>(
        &params.verifier_key,
        &items,
        bp_high.as_slice(),
        &proof.envelope_witness_batched_open,
        sponge,
    ) {
        Ok(true) => {},
        Ok(false) => {
            return Err(
                SnarkError::PcsOpenRejected { which: "sshape3c::envelope_witness_batched_open" },
            );
        },
        Err(e) => {
            return Err(e);
        },
    }
    let (table_upper, table_lower): (&Vec<Fr>, &Vec<Fr>) = match sigma_tables(
        params.preprocessed.sigma(),
        kind,
    ) {
        Some(t) => t,
        None => {
            return Ok(());
        },
    };
    let ghost (lower, upper) = envelope_tables(params.preprocessed.spec_sigma(), kind)->Some_0;
    proof {
        lemma_table_four(params.preprocessed.spec_sigma(), kind);
        assert(upper[0] == table_upper@[0]@ && lower[0] == table_lower@[0]@);
        assert(vals(ev@)[0] == ev@[0]@ && vals(ev@)[1] == ev@[1]@ && vals(ev@)[2] == ev@[2]@);
        assert(vals(ev@)[3] == ev@[3]@ && vals(ev@)[4] == ev@[4]@ && vals(ev@)[5] == ev@[5]@);
        assert(vals(ev@)[6] == ev@[6]@);
    }
    let key: Fr = rows_key_fr(
        a1,
        a2,
        &ev,
        readable_entry(table_upper[0]),
        readable_entry(table_lower[0]),
        bp[n_vars],
        bp[n_vars + 1],
    );
    if proof.envelope_lookup_proof.bottom_denom.add(beta) != key {
        return Err(
            SnarkError::RelaxationSoundnessFinalCheckFailed {
                which: "sshape3c: LogUp witness-side single-point bind mismatch",
            },
        );
    }
    Ok(())
}

/// Verify the envelope lookup.
fn verify_critical_envelope<P: MlPcs>(
    proof: &SshapeCriticalPointProof<P>,
    kind: ActivationKind,
    params: &SnarkParams<P>,
    sponge: &mut Transcript,
) -> (r: Result<(), SnarkError>)
    requires
        kind != ActivationKind::ReLU,
        4 * pow2(proof.n_vars as nat) <= usize::MAX,
    ensures
        r == cp_envelope_verdict(*params, *proof, kind, state_of(*old(sponge))),
        r is Ok ==> state_of(*final(sponge)) == cp_t6(
            params.verifier_key,
            *proof,
            state_of(*old(sponge)),
        ),
{
    proof {
        reveal(cp_envelope_verdict);
        lemma_pow2_machine(proof.n_vars as nat);
    }
    let ghost t2 = state_of(*sponge);
    let n_padded: usize = pow2_usize(proof.n_vars);
    absorb_u64(sponge, (3 * n_padded) as u64);
    let alpha_1: Fr = squeeze_one(sponge);
    let alpha_2: Fr = squeeze_one(sponge);
    if alpha_1 != proof.envelope_combine_alpha_1 || alpha_2 != proof.envelope_combine_alpha_2 {
        return Err(
            SnarkError::RelaxationSoundnessFinalCheckFailed {
                which: "sshape3c: envelope alpha mismatch",
            },
        );
    }
    let (table_upper, table_lower): (&Vec<Fr>, &Vec<Fr>) = match sigma_tables(
        params.preprocessed.sigma(),
        kind,
    ) {
        Some(t) => t,
        None => {
            return Ok(());
        },
    };
    let table_len: usize = table_upper.len();
    let ghost (lower, upper) = envelope_tables(params.preprocessed.spec_sigma(), kind)->Some_0;
    assert(upper.len() == table_len);
    let table_bits: usize = match log2_exact(table_len) {
        Some(b) => b,
        None => 0,
    };
    proof {
        let m = choose|m: nat|
            2 <= m < 60 && #[trigger] pow2(m) == table_upper@.len() && pow2(even_vars(m))
                <= usize::MAX;
        lemma_pow2_injective(table_bits as nat, m);
        lemma_ceil_log2_of_pow2(m);
    }
    if proof.envelope_table_len != table_len {
        return Err(
            SnarkError::RelaxationSoundnessFinalCheckFailed {
                which: "sshape3c: envelope_table_len mismatch",
            },
        );
    }
    if proof.envelope_witness_len != 4 * n_padded {
        return Err(
            SnarkError::RelaxationSoundnessFinalCheckFailed {
                which: "sshape3c: envelope_witness_len mismatch",
            },
        );
    }
    absorb_commitment::<P>(sponge, &proof.envelope_mult_commit);
    absorb_u64(sponge, proof.envelope_witness_len as u64);
    absorb_u64(sponge, table_len as u64);
    let beta: Fr = squeeze_one(sponge);
    if beta != proof.envelope_logup_beta {
        return Err(
            SnarkError::RelaxationSoundnessFinalCheckFailed {
                which: "sshape3c: envelope beta mismatch",
            },
        );
    }
    absorb_fr(sponge, alpha_1);
    absorb_fr(sponge, alpha_2);
    absorb_fr(sponge, beta);
    match verify_pair(
        &proof.envelope_lookup_proof,
        &proof.envelope_table_proof,
        &proof.envelope_lookup_top,
        &proof.envelope_table_top,
        proof.envelope_lookup_proof.layers.len(),
        proof.envelope_table_proof.layers.len(),
        sponge,
    ) {
        Ok(_) => {},
        Err(e) => {
            return Err(e);
        },
    }
    if !check_tops_cancel(&proof.envelope_lookup_top, &proof.envelope_table_top) {
        return Err(
            SnarkError::RelaxationSoundnessFinalCheckFailed {
                which: "sshape3c: top-fraction cancellation",
            },
        );
    }
    if proof.envelope_table_proof.bottom_point.len() != table_bits {
        return Err(
            SnarkError::RelaxationSoundnessFinalCheckFailed {
                which: "sshape3c: envelope table bottom_denom mismatch",
            },
        );
    }
    let canonical: Fr = sigma_envelope_3col_table_mle_eval(
        proof.envelope_table_proof.bottom_point.as_slice(),
        alpha_1,
        alpha_2,
        table_upper.as_slice(),
        table_lower.as_slice(),
    );
    if proof.envelope_table_proof.bottom_denom != canonical.sub(beta) {
        return Err(
            SnarkError::RelaxationSoundnessFinalCheckFailed {
                which: "sshape3c: envelope table bottom_denom mismatch",
            },
        );
    }
    match hyrax_verify_at::<P>(
        &params.verifier_key,
        &proof.envelope_mult_commit,
        proof.envelope_table_proof.bottom_point.as_slice(),
        proof.envelope_table_proof.bottom_num,
        &proof.envelope_mult_open,
        proof.envelope_mult_n_vars,
        sponge,
    ) {
        Ok(true) => {},
        Ok(false) => {
            return Err(SnarkError::PcsOpenRejected { which: "sshape3c::envelope_mult_open" });
        },
        Err(e) => {
            return Err(e);
        },
    }
    verify_critical_rows(proof, kind, alpha_1, alpha_2, beta, params, sponge, Ghost(t2))
}

/// References to the commitments in the order in which they are opened.
fn cp_opened_refs<'a, P: MlPcs>(
    proof: &'a SshapeCriticalPointProof<P>,
    d: &'a P::Commitment,
    b: &'a P::Commitment,
) -> (r: Vec<&'a P::Commitment>)
    ensures
        derefs(r@) == cp_opened(*proof, *d, *b),
        r@.len() == 31,
{
    let refs: Vec<&P::Commitment> = cp_com_refs(proof);
    let order: Vec<usize> = opening_order_list();
    let ghost coms = cp_coms(*proof);
    let mut out: Vec<&'a P::Commitment> = vec![d, b];
    let mut i: usize = 0;
    while i < 29
        invariant
            i <= 29,
            refs@.len() == 29,
            derefs(refs@) == coms,
            order@ == opening_order(),
            order@.len() == 29,
            indices_ok(order@, 29),
            out@.len() == 2 + i,
            out@[0] == d,
            out@[1] == b,
            forall|k: int| 2 <= k < 2 + i ==> *(#[trigger] out@[k]) == coms[order@[k - 2] as int],
        decreases 29 - i,
    {
        let c: usize = order[i];
        assert(derefs(refs@)[c as int] == *refs@[c as int]);
        out.push(refs[c]);
        i += 1;
    }
    assert(derefs(out@) =~= cp_opened(*proof, *d, *b));
    out
}

/// Verify the sumcheck and its openings.
fn verify_critical_sumcheck<P: MlPcs>(
    proof: &SshapeCriticalPointProof<P>,
    exprs: Option<Vec<Expr>>,
    n: usize,
    preact_lower_commit: &P::Commitment,
    preact_upper_commit: &P::Commitment,
    d_commit: &P::Commitment,
    b_commit: &P::Commitment,
    params: &SnarkParams<P>,
    sponge: &mut Transcript,
    Ghost(ev): Ghost<Seq<Expr>>,
) -> (r: Result<(), SnarkError>)
    requires
        pow2(proof.n_vars as nat) <= usize::MAX,
        exprs matches Some(e) ==> e@ == ev,
    ensures
        r == cp_sumcheck_verdict(
            params.verifier_key,
            *proof,
            ev,
            exprs is Some,
            n as nat,
            *preact_lower_commit,
            *preact_upper_commit,
            *d_commit,
            *b_commit,
            state_of(*old(sponge)),
        ),
        r is Ok ==> state_of(*final(sponge)) == cp_t10(
            params.verifier_key,
            *proof,
            *preact_lower_commit,
            *preact_upper_commit,
            *d_commit,
            *b_commit,
            state_of(*old(sponge)),
        ),
{
    proof {
        reveal(cp_sumcheck_verdict);
        reveal(cp_t10);
        lemma_pow2_machine(proof.n_vars as nat);
    }
    let n_vars: usize = proof.n_vars;
    let n_padded: usize = pow2_usize(n_vars);
    let rhos: Vec<Fr> = squeeze_each(sponge, 15);
    let claimed: Vec<Fr> = cp_rho_list(proof);
    if !same_elements(rhos.as_slice(), claimed.as_slice()) {
        return Err(
            SnarkError::RelaxationSoundnessFinalCheckFailed { which: "sshape3c: rho mismatch" },
        );
    }
    let r_test: Vec<Fr> = squeeze(sponge, n_vars);
    if !same_elements(r_test.as_slice(), proof.r_test.as_slice()) {
        return Err(
            SnarkError::RelaxationSoundnessFinalCheckFailed { which: "sshape3c: r_test mismatch" },
        );
    }
    if proof.rounds.len() != n_vars || proof.r_final.len() != n_vars {
        return Err(SnarkError::ArchitectureMismatch { what: "sshape3c: round count mismatch" });
    }
    let zero: Fr = Fr::from_u64(0);
    let replay: RoundReplay = match replay_rounds(&proof.rounds, zero, true, sponge) {
        Ok(x) => x,
        Err(_) => {
            return Err(
                SnarkError::RelaxationSoundnessFinalCheckFailed {
                    which: "sshape3c: round invariant",
                },
            );
        },
    };
    if !same_elements(replay.point.as_slice(), proof.r_final.as_slice()) {
        return Err(
            SnarkError::RelaxationSoundnessFinalCheckFailed { which: "sshape3c: r_final mismatch" },
        );
    }
    let refs: Vec<&P::Commitment> = cp_opened_refs(proof, d_commit, b_commit);
    let values: Vec<Fr> = cp_value_list(proof);
    let items: Vec<BatchVerifySpec<'_, P>> = verify_items::<P>(&refs, &values, n_vars);
    match hyrax_verify_batched_at::<P>(
        &params.verifier_key,
        &items,
        proof.r_final.as_slice(),
        &proof.batched_open_at_r,
        sponge,
    ) {
        Ok(true) => {},
        Ok(false) => {
            return Err(SnarkError::PcsOpenRejected { which: "sshape3c::batched_open_at_r" });
        },
        Err(e) => {
            return Err(e);
        },
    }
    match hyrax_verify_at::<P>(
        &params.verifier_key,
        preact_lower_commit,
        proof.r_final.as_slice(),
        proof.preact_l_eval,
        &proof.preact_l_open_at_r_final,
        n_vars,
        sponge,
    ) {
        Ok(true) => {},
        Ok(false) => {
            return Err(
                SnarkError::PcsOpenRejected {
                    which: "sshape3c: preact_lower_commit open at r_final",
                },
            );
        },
        Err(e) => {
            return Err(e);
        },
    }
    match hyrax_verify_at::<P>(
        &params.verifier_key,
        preact_upper_commit,
        proof.r_final.as_slice(),
        proof.preact_u_eval,
        &proof.preact_u_open_at_r_final,
        n_vars,
        sponge,
    ) {
        Ok(true) => {},
        Ok(false) => {
            return Err(
                SnarkError::PcsOpenRejected {
                    which: "sshape3c: preact_upper_commit open at r_final",
                },
            );
        },
        Err(e) => {
            return Err(e);
        },
    }
    let exprs: Vec<Expr> = match exprs {
        Some(e) => e,
        None => {
            return Err(SnarkError::ShapeMismatch { what: "sshape3c verify: ε_crit overflow" });
        },
    };
    let eq: Vec<Fr> = build_eq_table(proof.r_test.as_slice());
    assert(vals(eq@).len() == eq@.len());
    assert(vals(proof.r_test@).len() == vals(r_test@).len());
    let eq_eval: Fr = eval_multilinear_full(eq.as_slice(), proof.r_final.as_slice());
    let rows: Vec<Fr> = mask_table(n, n_padded);
    let real_eval: Fr = eval_multilinear_full(rows.as_slice(), proof.r_final.as_slice());
    let ident: MaskedCombination = MaskedCombination { columns: 33, exprs, rhos };
    let mut cell: Vec<Fr> = vec![
        eq_eval,
        real_eval,
        proof.preact_l_eval,
        proof.preact_u_eval,
    ];
    let mut tail: Vec<Fr> = values;
    let ghost tail0 = tail@;
    cell.append(&mut tail);
    assert(vals(cell@) =~= seq![
        eq_eval@,
        real_eval@,
        proof.preact_l_eval@,
        proof.preact_u_eval@,
    ] + vals(tail0));
    let lhs: Fr = ident.eval(&cell);
    if lhs != replay.claim {
        return Err(
            SnarkError::RelaxationSoundnessFinalCheckFailed {
                which: "sshape3c: final identity at r_final",
            },
        );
    }
    Ok(())
}

/// Build the identities for given scales; none where the margin of the slope
/// match is out of range.
pub fn build_critical_identities<P: MlPcs>(
    kind: ActivationKind,
    line: SshapeLineKind,
    s_d: Scale,
    s_b: Scale,
    s_w: Scale,
    params: &SnarkParams<P>,
) -> (r: Option<Vec<Expr>>)
    requires
        params.gadget_range_bits < 64,
        params.scales_ok(),
        0 <= params.sigma_x_scale_log2 <= 63,
        0 <= s_d.e <= 63,
        0 <= s_b.e <= 63,
        0 <= s_w.e <= 63,
    ensures
        r is Some <==> fits(cp_margin(*params, s_d)),
        r matches Some(e) ==> e@ == cp_exprs(*params, kind, line, s_d, s_b, s_w),
{
    let s_d_code: i128 = pow2_i128(s_d.e as usize);
    let s_x_code: i128 = pow2_i128(params.sigma_x_scale_log2 as usize);
    let eps: i128 = match fd_epsilon_crit(s_d_code, s_x_code) {
        Some(e) => e,
        None => {
            return None;
        },
    };
    proof {
        assert(s_d_code * s_x_code >= 0) by (nonlinear_arith)
            requires
                s_d_code >= 0,
                s_x_code >= 0,
        ;
    }
    let c_fd: i128 = s_d_code * s_x_code;
    Some(
        critical_identities(
            kind,
            line,
            s_d_code,
            pow2_i128(s_b.e as usize),
            pow2_i128(s_w.e as usize),
            pow2_i128(params.sigma_v_scale_log2 as usize),
            c_fd,
            eps,
            pow2_i128(params.gadget_range_bits),
        ),
    )
}

/// Verify that a line's slope is matched at a critical point of every neuron,
/// and that the line is on the safe side there. A scale that is a power of two
/// must not be a fraction.
pub fn verify_sshape_critical_point<P: MlPcs>(
    proof: &SshapeCriticalPointProof<P>,
    expected_layer_idx: usize,
    kind: ActivationKind,
    line: SshapeLineKind,
    n_real_neurons: usize,
    preact_lower_commit: &P::Commitment,
    preact_upper_commit: &P::Commitment,
    d_line_commit: &P::Commitment,
    b_line_commit: &P::Commitment,
    s_d: Scale,
    s_b: Scale,
    s_w: Scale,
    params: &SnarkParams<P>,
    sponge: &mut Transcript,
) -> (r: Result<(), SnarkError>)
    requires
        n_real_neurons <= usize::MAX / 2 + 1,
        4 * pow2(vector_vars(n_real_neurons as nat)) <= usize::MAX,
        tables_fit(*params),
        params.scales_ok(),
        s_d.spec_is_pow2() ==> s_d.e >= 0,
        s_b.spec_is_pow2() ==> s_b.e >= 0,
        s_w.spec_is_pow2() ==> s_w.e >= 0,
    ensures
        r == critical_verdict(
            *params,
            *proof,
            expected_layer_idx,
            kind,
            line,
            n_real_neurons,
            *preact_lower_commit,
            *preact_upper_commit,
            *d_line_commit,
            *b_line_commit,
            s_d,
            s_b,
            s_w,
            state_of(*old(sponge)),
        ),
        cp_header_verdict(
            *params,
            *proof,
            expected_layer_idx,
            kind,
            line,
            n_real_neurons,
            s_d,
            s_b,
            s_w,
        ) is Err ==> state_of(*final(sponge)) == state_of(*old(sponge)),
        r is Ok ==> state_of(*final(sponge)) == critical_state(
            params.verifier_key,
            *proof,
            kind,
            line,
            *preact_lower_commit,
            *preact_upper_commit,
            *d_line_commit,
            *b_line_commit,
            state_of(*old(sponge)),
        ),
{
    proof {
        lemma_bits_small(params.gadget_range_bits as nat);
    }
    match check_critical_header(
        proof,
        expected_layer_idx,
        kind,
        line,
        n_real_neurons,
        s_d,
        s_b,
        s_w,
        params,
    ) {
        Ok(_) => {},
        Err(e) => {
            return Err(e);
        },
    }
    proof {
        law_vector_vars(n_real_neurons as nat);
    }
    let kind_tag: u8 = proof.kind_tag;
    absorb_u64(sponge, expected_layer_idx as u64);
    absorb_u8(sponge, kind_tag);
    absorb_u8(sponge, proof.line_tag);
    absorb_u64(sponge, proof.n_vars as u64);
    absorb_u64(sponge, n_real_neurons as u64);
    absorb_commitment::<P>(sponge, d_line_commit);
    absorb_commitment::<P>(sponge, b_line_commit);
    absorb_commitment::<P>(sponge, preact_lower_commit);
    absorb_commitment::<P>(sponge, preact_upper_commit);
    let refs: Vec<&P::Commitment> = cp_com_refs(proof);
    absorb_all::<P>(sponge, &refs);
    let which: Vec<usize> = cp_checked_list();
    let checked: Vec<&P::Commitment> = pick_refs::<P::Commitment>(&refs, &which);
    let ranges: Vec<&PosRangeLogUp<P>> = cp_range_refs(proof);
    assert(derefs(checked@) == picked(cp_coms(*proof), cp_checked()));
    match verify_ranges(&ranges, &checked, proof.n_vars, params, sponge) {
        Ok(_) => {},
        Err(e) => {
            return Err(e);
        },
    }
    match verify_critical_envelope(proof, kind, params, sponge) {
        Ok(_) => {},
        Err(e) => {
            return Err(e);
        },
    }
    let exprs: Option<Vec<Expr>> = build_critical_identities(kind, line, s_d, s_b, s_w, params);
    verify_critical_sumcheck(
        proof,
        exprs,
        n_real_neurons,
        preact_lower_commit,
        preact_upper_commit,
        d_line_commit,
        b_line_commit,
        params,
        sponge,
        Ghost(cp_exprs(*params, kind, line, s_d, s_b, s_w)),
    )
}

} // verus!
