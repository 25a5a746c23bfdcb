//! The endpoint checks of sigmoid and tanh lines: honest proofs are accepted,
//! and tampered, replayed or out-of-domain ones are not.

use ark_crypto_primitives::sponge::merlin::Transcript;
use ark_crypto_primitives::sponge::CryptographicSponge;
use crown_snark::clear_pcs::{ClearCommitment, ClearKey, ClearPcs, ClearRandomness};
use crown_snark::errors::SnarkError;
use crown_snark::field::{signed_lift_to_fr, Fr};
use crown_snark::network::ActivationKind;
use crown_snark::params::{Preprocessed, SigmaTables, SnarkParams};
use crown_snark::pcs::{commit_table, CommittedAux};
use crown_snark::scale::Scale;
use crown_snark::shapes::native_vector_n_vars;
use crown_snark::sshape_endpoint::SshapeEndpointProof;
use crown_snark::cert::{CertScales, QuantCert, QuantRelaxation};
use crown_snark::network::{LayerShape, NetworkArchitecture};
use crown_snark::qarray::{CodeMatrix, CodeVector, QArray1, QArray2};
use crown_snark::sshape_endpoint_api::{
    endpoint_cells_in_range, quant_cert_sshape_endpoints_ok, prove_sshape_lower_at_lower, prove_sshape_lower_at_upper, prove_sshape_upper_at_lower,
    prove_sshape_upper_at_upper, verify_sshape_lower_at_lower, verify_sshape_lower_at_upper,
    verify_sshape_upper_at_lower, verify_sshape_upper_at_upper,
};
use crown_snark::sshape_witness::{
    compute_sigma_used, compute_witnesses, preact_to_abs_table_index, scale_precondition_holds, SshapeEndpointKind,
    SshapeLineKind,
};

/// Envelope tables of the sigmoid and tanh up to 128, at the given scales.
fn sigma_tables(s_x_log2: i32, s_v_log2: i32) -> SigmaTables {
    let len = 128usize << s_x_log2;
    let s_x = (1i64 << s_x_log2) as f64;
    let s_v = (1i64 << s_v_log2) as f64;
    let column = |f: &dyn Fn(f64) -> f64, up: bool| -> Vec<Fr> {
        (0..len)
            .map(|i| {
                let y = f(i as f64 / s_x) * s_v;
                let code = if up { y.ceil().min(s_v) } else { (y.ceil() - 1.0).max(0.0) };
                signed_lift_to_fr(code as i128)
            })
            .collect()
    };
    let sigmoid = |x: f64| 1.0 / (1.0 + (-x).exp());
    let tanh = |x: f64| x.tanh();
    SigmaTables {
        sigmoid_lower_fr: column(&sigmoid, false),
        sigmoid_upper_fr: column(&sigmoid, true),
        tanh_lower_fr: column(&tanh, false),
        tanh_upper_fr: column(&tanh, true),
        s_x_log2,
        s_v_log2,
    }
}

fn params_with(bits: usize, s_x_log2: i32, s_v_log2: i32) -> SnarkParams<ClearPcs> {
    SnarkParams {
        committer_key: ClearKey {},
        verifier_key: ClearKey {},
        max_num_vars: 8,
        precision_bits: 14,
        out_bound_range_bits: bits,
        gadget_range_bits: bits,
        sigma_x_scale_log2: s_x_log2,
        sigma_v_scale_log2: s_v_log2,
        input_scale_log2: None,
        preprocessed: Preprocessed::build(
            bits,
            vec![bits],
            sigma_tables(s_x_log2, s_v_log2),
        ),
    }
}

/// Tables that are finer than the preactivations, yet short enough for the
/// many tests that tamper with a proof.
fn test_params() -> SnarkParams<ClearPcs> {
    params_with(13, 4, 11)
}

/// Tables at full scale.
fn full_params() -> SnarkParams<ClearPcs> {
    params_with(19, 11, 16)
}

fn commit_vec(
    params: &SnarkParams<ClearPcs>,
    codes: &[i128],
    n_vars: usize,
    rng: &mut ClearRandomness,
) -> (CommittedAux<ClearPcs>, ClearCommitment) {
    let n_padded = 1usize << n_vars;
    let mut padded: Vec<Fr> = codes.iter().map(|&v| signed_lift_to_fr(v)).collect();
    padded.resize(n_padded, Fr::from_u64(0));
    let (com, aux) = commit_table::<ClearPcs>(&params.committer_key, padded, rng).unwrap();
    (aux, com)
}

/// A proof, its parameters, the number of neurons, the commitments to the
/// preactivations, the slopes and the offsets, and the scale of all three.
type Proved = (
    SshapeEndpointProof<ClearPcs>,
    SnarkParams<ClearPcs>,
    usize,
    ClearCommitment,
    ClearCommitment,
    ClearCommitment,
    Scale,
);

/// Build a proof for given preact codes (any signs) with d=0, b=2,
/// s_d=s_b=s_w=1.
fn build_proof(kind: ActivationKind, preact: &[i128]) -> Proved {
    build_proof_under(test_params(), kind, preact)
}

fn build_proof_under(params: SnarkParams<ClearPcs>, kind: ActivationKind, preact: &[i128]) -> Proved {
    let mut rng = ClearRandomness {};
    let n = preact.len();
    let n_vars = native_vector_n_vars(n);
    let n_padded = 1usize << n_vars;
    let d_codes = vec![0i128; n_padded];
    let b_codes = vec![2i128; n_padded];
    let (preact_aux, preact_commit) = commit_vec(&params, preact, n_vars, &mut rng);
    let (d_aux, d_commit) = commit_vec(&params, &d_codes, n_vars, &mut rng);
    let (b_aux, b_commit) = commit_vec(&params, &b_codes, n_vars, &mut rng);
    let s = Scale::from_pow2(0);
    let mut sponge = <Transcript as CryptographicSponge>::new(&b"sshape-test".as_slice());
    let proof = prove_sshape_upper_at_lower(
        7,
        kind,
        preact,
        &preact_aux,
        &preact_commit,
        &d_aux,
        &d_commit,
        &b_aux,
        &b_commit,
        s,
        s,
        s,
        &params,
        &mut sponge,
        &mut rng,
    )
    .expect("prove succeeds");
    (proof, params, n, preact_commit, d_commit, b_commit, s)
}

fn verify_with(
    proof: &SshapeEndpointProof<ClearPcs>,
    params: &SnarkParams<ClearPcs>,
    kind: ActivationKind,
    layer_idx: usize,
    n_real: usize,
    preact_commit: &ClearCommitment,
    d_commit: &ClearCommitment,
    b_commit: &ClearCommitment,
    s: Scale,
) -> Result<(), SnarkError> {
    let mut sponge = <Transcript as CryptographicSponge>::new(&b"sshape-test".as_slice());
    verify_sshape_upper_at_lower(
        proof,
        layer_idx,
        kind,
        n_real,
        preact_commit,
        d_commit,
        b_commit,
        s,
        s,
        s,
        params,
        &mut sponge,
    )
}

#[test]
fn completeness_sigmoid_all_positive() {
    let (proof, params, n_real, preact_commit, d_commit, b_commit, s) =
        build_proof_under(full_params(), ActivationKind::Sigmoid, &[0, 0, 0, 0]);
    verify_with(
        &proof,
        &params,
        ActivationKind::Sigmoid,
        7,
        n_real,
        &preact_commit,
        &d_commit,
        &b_commit,
        s,
    )
    .expect("verify accepts honest all-positive sigmoid proof");
}

#[test]
fn completeness_sigmoid_mixed_pos_neg() {
    let (proof, params, n_real, preact_commit, d_commit, b_commit, s) =
        build_proof_under(full_params(), ActivationKind::Sigmoid, &[0, -1, 0, -2]);
    verify_with(
        &proof,
        &params,
        ActivationKind::Sigmoid,
        7,
        n_real,
        &preact_commit,
        &d_commit,
        &b_commit,
        s,
    )
    .expect("verify accepts mixed-sign sigmoid proof");
}

#[test]
fn completeness_tanh_all_positive() {
    let (proof, params, n_real, preact_commit, d_commit, b_commit, s) =
        build_proof_under(full_params(), ActivationKind::Tanh, &[0, 0, 0, 0]);
    verify_with(
        &proof,
        &params,
        ActivationKind::Tanh,
        7,
        n_real,
        &preact_commit,
        &d_commit,
        &b_commit,
        s,
    )
    .expect("verify accepts all-positive tanh proof");
}

#[test]
fn completeness_tanh_mixed_pos_neg() {
    let (proof, params, n_real, preact_commit, d_commit, b_commit, s) =
        build_proof_under(full_params(), ActivationKind::Tanh, &[0, -1, 0, -2]);
    verify_with(
        &proof,
        &params,
        ActivationKind::Tanh,
        7,
        n_real,
        &preact_commit,
        &d_commit,
        &b_commit,
        s,
    )
    .expect("verify accepts mixed-sign tanh proof");
}

#[test]
fn completeness_sigmoid_at_minus_table_bound() {
    let (proof, params, n_real, preact_commit, d_commit, b_commit, s) =
        build_proof_under(full_params(), ActivationKind::Sigmoid, &[0, -16, 0, 0]);
    verify_with(
        &proof,
        &params,
        ActivationKind::Sigmoid,
        7,
        n_real,
        &preact_commit,
        &d_commit,
        &b_commit,
        s,
    )
    .expect("verify accepts l = -16 sigmoid proof");
}

#[test]
fn completeness_tanh_at_minus_natural_bound() {
    let (proof, params, n_real, preact_commit, d_commit, b_commit, s) =
        build_proof_under(full_params(), ActivationKind::Tanh, &[0, -16, 0, 0]);
    verify_with(
        &proof,
        &params,
        ActivationKind::Tanh,
        7,
        n_real,
        &preact_commit,
        &d_commit,
        &b_commit,
        s,
    )
    .expect("verify accepts l = -16 tanh proof");
}

#[test]
fn tamper_sign_eval_rejects() {
    let (mut proof, params, n_real, preact_commit, d_commit, b_commit, s) =
        build_proof(ActivationKind::Sigmoid, &[0, -1, 0, -2]);
    proof.sign_eval = proof.sign_eval.add(Fr::from_u64(1));
    assert!(
        verify_with(
            &proof,
            &params,
            ActivationKind::Sigmoid,
            7,
            n_real,
            &preact_commit,
            &d_commit,
            &b_commit,
            s
        )
        .is_err(),
        "tampered sign_eval must reject"
    );
}

#[test]
fn tamper_abs_l_eval_rejects() {
    let (mut proof, params, n_real, preact_commit, d_commit, b_commit, s) =
        build_proof(ActivationKind::Sigmoid, &[0, -1, 0, -2]);
    proof.abs_l_eval = proof.abs_l_eval.add(Fr::from_u64(1));
    assert!(verify_with(
        &proof,
        &params,
        ActivationKind::Sigmoid,
        7,
        n_real,
        &preact_commit,
        &d_commit,
        &b_commit,
        s
    )
    .is_err());
}

#[test]
fn tamper_sigma_upper_at_abs_rejects() {
    let (mut proof, params, n_real, preact_commit, d_commit, b_commit, s) =
        build_proof(ActivationKind::Sigmoid, &[0, -1, 0, -2]);
    proof.sigma_upper_at_abs_eval = proof.sigma_upper_at_abs_eval.add(Fr::from_u64(1));
    assert!(verify_with(
        &proof,
        &params,
        ActivationKind::Sigmoid,
        7,
        n_real,
        &preact_commit,
        &d_commit,
        &b_commit,
        s
    )
    .is_err());
}

#[test]
fn tamper_sigma_lower_at_abs_rejects() {
    let (mut proof, params, n_real, preact_commit, d_commit, b_commit, s) =
        build_proof(ActivationKind::Sigmoid, &[0, -1, 0, -2]);
    proof.sigma_lower_at_abs_eval = proof.sigma_lower_at_abs_eval.add(Fr::from_u64(1));
    assert!(verify_with(
        &proof,
        &params,
        ActivationKind::Sigmoid,
        7,
        n_real,
        &preact_commit,
        &d_commit,
        &b_commit,
        s
    )
    .is_err());
}

#[test]
fn tamper_slack_eval_rejects() {
    let (mut proof, params, n_real, preact_commit, d_commit, b_commit, s) =
        build_proof(ActivationKind::Sigmoid, &[0, -1, 0, -2]);
    proof.diff_eval = proof.diff_eval.add(Fr::from_u64(1));
    assert!(verify_with(
        &proof,
        &params,
        ActivationKind::Sigmoid,
        7,
        n_real,
        &preact_commit,
        &d_commit,
        &b_commit,
        s
    )
    .is_err());
}

#[test]
fn tamper_epsilon_eval_rejects() {
    let (mut proof, params, n_real, preact_commit, d_commit, b_commit, s) =
        build_proof(ActivationKind::Sigmoid, &[0, -1, 0, -2]);
    proof.dx_step_1_rem_eval = proof.dx_step_1_rem_eval.add(Fr::from_u64(1));
    assert!(verify_with(
        &proof,
        &params,
        ActivationKind::Sigmoid,
        7,
        n_real,
        &preact_commit,
        &d_commit,
        &b_commit,
        s
    )
    .is_err());
}

#[test]
fn tamper_d_upper_eval_rejects() {
    let (mut proof, params, n_real, preact_commit, d_commit, b_commit, s) =
        build_proof(ActivationKind::Sigmoid, &[0, -1, 0, -2]);
    proof.d_line_eval = proof.d_line_eval.add(Fr::from_u64(1));
    assert!(verify_with(
        &proof,
        &params,
        ActivationKind::Sigmoid,
        7,
        n_real,
        &preact_commit,
        &d_commit,
        &b_commit,
        s
    )
    .is_err());
}

#[test]
fn tamper_b_upper_eval_rejects() {
    let (mut proof, params, n_real, preact_commit, d_commit, b_commit, s) =
        build_proof(ActivationKind::Sigmoid, &[0, -1, 0, -2]);
    proof.b_line_eval = proof.b_line_eval.add(Fr::from_u64(1));
    assert!(verify_with(
        &proof,
        &params,
        ActivationKind::Sigmoid,
        7,
        n_real,
        &preact_commit,
        &d_commit,
        &b_commit,
        s
    )
    .is_err());
}

#[test]
fn tamper_layer_idx_rejects() {
    let (proof, params, n_real, preact_commit, d_commit, b_commit, s) =
        build_proof(ActivationKind::Sigmoid, &[0, -1, 0, -2]);
    let r = verify_with(
        &proof,
        &params,
        ActivationKind::Sigmoid,
        99, // wrong layer idx
        n_real,
        &preact_commit,
        &d_commit,
        &b_commit,
        s,
    );
    assert!(r.is_err(), "wrong layer_idx must reject; got {r:?}");
}

#[test]
fn scale_precondition_accepts_typical_pow2_scales() {
    // The budget is an explicit runtime parameter; a scale just past
    // it must reject, at representative budgets.
    for bits in [19usize, 21] {
        assert!(scale_precondition_holds(
            Scale::from_pow2(11),
            Scale::from_pow2(11),
            Scale::from_pow2(11),
            bits,
        ));
        assert!(scale_precondition_holds(
            Scale::from_pow2(bits as i32),
            Scale::from_pow2(11),
            Scale::from_pow2(11),
            bits,
        ));
        assert!(!scale_precondition_holds(
            Scale::from_pow2(bits as i32 + 1),
            Scale::from_pow2(11),
            Scale::from_pow2(11),
            bits,
        ));
    }
}

#[test]
fn tamper_r_final_rejects() {
    let (mut proof, params, n_real, preact_commit, d_commit, b_commit, s) =
        build_proof(ActivationKind::Sigmoid, &[0, -1, 0, -2]);
    if let Some(last) = proof.r_final.last_mut() {
        *last = last.add(Fr::from_u64(1));
    }
    let r = verify_with(
        &proof,
        &params,
        ActivationKind::Sigmoid,
        7,
        n_real,
        &preact_commit,
        &d_commit,
        &b_commit,
        s,
    );
    assert!(r.is_err(), "tampered r_final must reject; got {r:?}");
}

#[test]
fn tamper_envelope_witness_len_rejects() {
    let (mut proof, params, n_real, preact_commit, d_commit, b_commit, s) =
        build_proof(ActivationKind::Sigmoid, &[0, -1, 0, -2]);
    proof.envelope_witness_len = 2;
    let r = verify_with(
        &proof,
        &params,
        ActivationKind::Sigmoid,
        7,
        n_real,
        &preact_commit,
        &d_commit,
        &b_commit,
        s,
    );
    assert!(
        r.is_err(),
        "tampered envelope_witness_len must reject; got {r:?}"
    );
}

#[test]
fn tamper_envelope_table_len_rejects() {
    let (mut proof, params, n_real, preact_commit, d_commit, b_commit, s) =
        build_proof(ActivationKind::Sigmoid, &[0, -1, 0, -2]);
    proof.envelope_table_len = 1024;
    let r = verify_with(
        &proof,
        &params,
        ActivationKind::Sigmoid,
        7,
        n_real,
        &preact_commit,
        &d_commit,
        &b_commit,
        s,
    );
    assert!(
        r.is_err(),
        "tampered envelope_table_len must reject; got {r:?}"
    );
}

#[test]
fn tamper_envelope_lookup_top_rejects() {
    let (mut proof, params, n_real, preact_commit, d_commit, b_commit, s) =
        build_proof(ActivationKind::Sigmoid, &[0, -1, 0, -2]);
    proof.envelope_lookup_top[0] = proof.envelope_lookup_top[0].add(Fr::from_u64(1));
    let r = verify_with(
        &proof,
        &params,
        ActivationKind::Sigmoid,
        7,
        n_real,
        &preact_commit,
        &d_commit,
        &b_commit,
        s,
    );
    assert!(
        r.is_err(),
        "tampered envelope_lookup_top must reject; got {r:?}"
    );
}

#[test]
fn tamper_envelope_table_top_rejects() {
    let (mut proof, params, n_real, preact_commit, d_commit, b_commit, s) =
        build_proof(ActivationKind::Sigmoid, &[0, -1, 0, -2]);
    proof.envelope_table_top[0] = proof.envelope_table_top[0].add(Fr::from_u64(1));
    let r = verify_with(
        &proof,
        &params,
        ActivationKind::Sigmoid,
        7,
        n_real,
        &preact_commit,
        &d_commit,
        &b_commit,
        s,
    );
    assert!(
        r.is_err(),
        "tampered envelope_table_top must reject; got {r:?}"
    );
}

/// Isolates the top-fraction cancellation check: tampers a
/// denominator entry the per-side GKR verify wouldn't otherwise
/// flag.
#[test]
fn tamper_envelope_lookup_top_denom_rejects() {
    let (mut proof, params, n_real, preact_commit, d_commit, b_commit, s) =
        build_proof(ActivationKind::Sigmoid, &[0, -1, 0, -2]);
    proof.envelope_lookup_top[3] = proof.envelope_lookup_top[3].add(Fr::from_u64(1));
    let r = verify_with(
        &proof,
        &params,
        ActivationKind::Sigmoid,
        7,
        n_real,
        &preact_commit,
        &d_commit,
        &b_commit,
        s,
    );
    assert!(
        r.is_err(),
        "tampered envelope_lookup_top[3] must reject; got {r:?}"
    );
}

// U(u) tests cover the upper-line at the upper endpoint; the
// `endpoint_tag` binding rules out cross-endpoint replay.

fn build_proof_at_u(kind: ActivationKind, preact_u: &[i128]) -> Proved {
    build_proof_at_u_under(test_params(), kind, preact_u)
}

fn build_proof_at_u_under(params: SnarkParams<ClearPcs>, kind: ActivationKind, preact_u: &[i128]) -> Proved {
    let mut rng = ClearRandomness {};
    let n = preact_u.len();
    let n_vars = native_vector_n_vars(n);
    let n_padded = 1usize << n_vars;
    let d_codes = vec![0i128; n_padded];
    let b_codes = vec![2i128; n_padded];
    let (preact_aux, preact_commit) = commit_vec(&params, preact_u, n_vars, &mut rng);
    let (d_aux, d_commit) = commit_vec(&params, &d_codes, n_vars, &mut rng);
    let (b_aux, b_commit) = commit_vec(&params, &b_codes, n_vars, &mut rng);
    let s = Scale::from_pow2(0);
    let mut sponge = <Transcript as CryptographicSponge>::new(&b"sshape-test".as_slice());
    let proof = prove_sshape_upper_at_upper(
        7,
        kind,
        preact_u,
        &preact_aux,
        &preact_commit,
        &d_aux,
        &d_commit,
        &b_aux,
        &b_commit,
        s,
        s,
        s,
        &params,
        &mut sponge,
        &mut rng,
    )
    .expect("U(u) prove succeeds");
    (proof, params, n, preact_commit, d_commit, b_commit, s)
}

fn verify_with_u(
    proof: &SshapeEndpointProof<ClearPcs>,
    params: &SnarkParams<ClearPcs>,
    kind: ActivationKind,
    layer_idx: usize,
    n_real: usize,
    preact_commit: &ClearCommitment,
    d_commit: &ClearCommitment,
    b_commit: &ClearCommitment,
    s: Scale,
) -> Result<(), SnarkError> {
    let mut sponge = <Transcript as CryptographicSponge>::new(&b"sshape-test".as_slice());
    verify_sshape_upper_at_upper(
        proof,
        layer_idx,
        kind,
        n_real,
        preact_commit,
        d_commit,
        b_commit,
        s,
        s,
        s,
        params,
        &mut sponge,
    )
}

#[test]
fn u_completeness_sigmoid_all_positive() {
    let (p, params, n_real, pc, dc, bc, s) =
        build_proof_at_u_under(full_params(), ActivationKind::Sigmoid, &[0, 0, 0, 0]);
    verify_with_u(
        &p,
        &params,
        ActivationKind::Sigmoid,
        7,
        n_real,
        &pc,
        &dc,
        &bc,
        s,
    )
    .expect("U(u) verify accepts honest all-positive sigmoid proof");
}

#[test]
fn u_completeness_sigmoid_mixed_pos_neg() {
    let (p, params, n_real, pc, dc, bc, s) =
        build_proof_at_u_under(full_params(), ActivationKind::Sigmoid, &[1, -1, 0, -2]);
    verify_with_u(
        &p,
        &params,
        ActivationKind::Sigmoid,
        7,
        n_real,
        &pc,
        &dc,
        &bc,
        s,
    )
    .expect("U(u) verify accepts mixed-sign sigmoid proof");
}

#[test]
fn u_completeness_tanh_all_positive() {
    let (p, params, n_real, pc, dc, bc, s) = build_proof_at_u_under(full_params(), ActivationKind::Tanh, &[0, 0, 0, 0]);
    verify_with_u(
        &p,
        &params,
        ActivationKind::Tanh,
        7,
        n_real,
        &pc,
        &dc,
        &bc,
        s,
    )
    .expect("U(u) verify accepts honest all-positive tanh proof");
}

#[test]
fn u_completeness_tanh_mixed_pos_neg() {
    let (p, params, n_real, pc, dc, bc, s) =
        build_proof_at_u_under(full_params(), ActivationKind::Tanh, &[2, -1, 1, -3]);
    verify_with_u(
        &p,
        &params,
        ActivationKind::Tanh,
        7,
        n_real,
        &pc,
        &dc,
        &bc,
        s,
    )
    .expect("U(u) verify accepts mixed-sign tanh proof");
}

#[test]
fn u_tamper_sign_eval_rejects() {
    let (mut p, params, n_real, pc, dc, bc, s) =
        build_proof_at_u(ActivationKind::Sigmoid, &[1, -1, 0, -2]);
    p.sign_eval = p.sign_eval.add(Fr::from_u64(1));
    assert!(verify_with_u(
        &p,
        &params,
        ActivationKind::Sigmoid,
        7,
        n_real,
        &pc,
        &dc,
        &bc,
        s
    )
    .is_err());
}

#[test]
fn u_tamper_abs_l_eval_rejects() {
    let (mut p, params, n_real, pc, dc, bc, s) =
        build_proof_at_u(ActivationKind::Sigmoid, &[1, -1, 0, -2]);
    p.abs_l_eval = p.abs_l_eval.add(Fr::from_u64(1));
    assert!(verify_with_u(
        &p,
        &params,
        ActivationKind::Sigmoid,
        7,
        n_real,
        &pc,
        &dc,
        &bc,
        s
    )
    .is_err());
}

#[test]
fn u_tamper_sigma_upper_at_abs_rejects() {
    let (mut p, params, n_real, pc, dc, bc, s) =
        build_proof_at_u(ActivationKind::Sigmoid, &[1, -1, 0, -2]);
    p.sigma_upper_at_abs_eval = p.sigma_upper_at_abs_eval.add(Fr::from_u64(1));
    assert!(verify_with_u(
        &p,
        &params,
        ActivationKind::Sigmoid,
        7,
        n_real,
        &pc,
        &dc,
        &bc,
        s
    )
    .is_err());
}

#[test]
fn u_tamper_sigma_lower_at_abs_rejects() {
    let (mut p, params, n_real, pc, dc, bc, s) =
        build_proof_at_u(ActivationKind::Sigmoid, &[1, -1, 0, -2]);
    p.sigma_lower_at_abs_eval = p.sigma_lower_at_abs_eval.add(Fr::from_u64(1));
    assert!(verify_with_u(
        &p,
        &params,
        ActivationKind::Sigmoid,
        7,
        n_real,
        &pc,
        &dc,
        &bc,
        s
    )
    .is_err());
}

#[test]
fn u_tamper_slack_eval_rejects() {
    let (mut p, params, n_real, pc, dc, bc, s) =
        build_proof_at_u(ActivationKind::Sigmoid, &[1, -1, 0, -2]);
    p.diff_eval = p.diff_eval.add(Fr::from_u64(1));
    assert!(verify_with_u(
        &p,
        &params,
        ActivationKind::Sigmoid,
        7,
        n_real,
        &pc,
        &dc,
        &bc,
        s
    )
    .is_err());
}

#[test]
fn u_tamper_epsilon_eval_rejects() {
    let (mut p, params, n_real, pc, dc, bc, s) =
        build_proof_at_u(ActivationKind::Sigmoid, &[1, -1, 0, -2]);
    p.dx_step_1_rem_eval = p.dx_step_1_rem_eval.add(Fr::from_u64(1));
    assert!(verify_with_u(
        &p,
        &params,
        ActivationKind::Sigmoid,
        7,
        n_real,
        &pc,
        &dc,
        &bc,
        s
    )
    .is_err());
}

#[test]
fn u_tamper_d_upper_eval_rejects() {
    let (mut p, params, n_real, pc, dc, bc, s) =
        build_proof_at_u(ActivationKind::Sigmoid, &[1, -1, 0, -2]);
    p.d_line_eval = p.d_line_eval.add(Fr::from_u64(1));
    assert!(verify_with_u(
        &p,
        &params,
        ActivationKind::Sigmoid,
        7,
        n_real,
        &pc,
        &dc,
        &bc,
        s
    )
    .is_err());
}

#[test]
fn u_tamper_b_upper_eval_rejects() {
    let (mut p, params, n_real, pc, dc, bc, s) =
        build_proof_at_u(ActivationKind::Sigmoid, &[1, -1, 0, -2]);
    p.b_line_eval = p.b_line_eval.add(Fr::from_u64(1));
    assert!(verify_with_u(
        &p,
        &params,
        ActivationKind::Sigmoid,
        7,
        n_real,
        &pc,
        &dc,
        &bc,
        s
    )
    .is_err());
}

#[test]
fn u_tamper_r_final_rejects() {
    let (mut p, params, n_real, pc, dc, bc, s) =
        build_proof_at_u(ActivationKind::Sigmoid, &[1, -1, 0, -2]);
    if let Some(last) = p.r_final.last_mut() {
        *last = last.add(Fr::from_u64(1));
    }
    assert!(verify_with_u(
        &p,
        &params,
        ActivationKind::Sigmoid,
        7,
        n_real,
        &pc,
        &dc,
        &bc,
        s
    )
    .is_err());
}

#[test]
fn u_tamper_envelope_witness_len_rejects() {
    let (mut p, params, n_real, pc, dc, bc, s) =
        build_proof_at_u(ActivationKind::Sigmoid, &[1, -1, 0, -2]);
    p.envelope_witness_len = 2;
    assert!(verify_with_u(
        &p,
        &params,
        ActivationKind::Sigmoid,
        7,
        n_real,
        &pc,
        &dc,
        &bc,
        s
    )
    .is_err());
}

#[test]
fn u_tamper_envelope_table_len_rejects() {
    let (mut p, params, n_real, pc, dc, bc, s) =
        build_proof_at_u(ActivationKind::Sigmoid, &[1, -1, 0, -2]);
    p.envelope_table_len = 1024;
    assert!(verify_with_u(
        &p,
        &params,
        ActivationKind::Sigmoid,
        7,
        n_real,
        &pc,
        &dc,
        &bc,
        s
    )
    .is_err());
}

#[test]
fn u_tamper_envelope_lookup_top_rejects() {
    let (mut p, params, n_real, pc, dc, bc, s) =
        build_proof_at_u(ActivationKind::Sigmoid, &[1, -1, 0, -2]);
    p.envelope_lookup_top[0] = p.envelope_lookup_top[0].add(Fr::from_u64(1));
    assert!(verify_with_u(
        &p,
        &params,
        ActivationKind::Sigmoid,
        7,
        n_real,
        &pc,
        &dc,
        &bc,
        s
    )
    .is_err());
}

#[test]
fn u_tamper_envelope_table_top_rejects() {
    let (mut p, params, n_real, pc, dc, bc, s) =
        build_proof_at_u(ActivationKind::Sigmoid, &[1, -1, 0, -2]);
    p.envelope_table_top[0] = p.envelope_table_top[0].add(Fr::from_u64(1));
    assert!(verify_with_u(
        &p,
        &params,
        ActivationKind::Sigmoid,
        7,
        n_real,
        &pc,
        &dc,
        &bc,
        s
    )
    .is_err());
}

#[test]
fn u_tamper_layer_idx_rejects() {
    let (p, params, n_real, pc, dc, bc, s) =
        build_proof_at_u(ActivationKind::Sigmoid, &[1, -1, 0, -2]);
    let r = verify_with_u(
        &p,
        &params,
        ActivationKind::Sigmoid,
        99,
        n_real,
        &pc,
        &dc,
        &bc,
        s,
    );
    assert!(r.is_err(), "wrong layer_idx must reject; got {r:?}");
}

/// Out-of-domain `|u| ≥ 128·s_w` must be rejected at the prover.
#[test]
fn u_out_of_domain_rejects() {
    let params = full_params();
    let mut rng = ClearRandomness {};
    let u = vec![0i128, 0, 0, 128];
    let n_vars = native_vector_n_vars(u.len());
    let n_padded = 1usize << n_vars;
    let d_codes = vec![0i128; n_padded];
    let b_codes = vec![2i128; n_padded];
    let (preact_aux, preact_commit) = commit_vec(&params, &u, n_vars, &mut rng);
    let (d_aux, d_commit) = commit_vec(&params, &d_codes, n_vars, &mut rng);
    let (b_aux, b_commit) = commit_vec(&params, &b_codes, n_vars, &mut rng);
    let s = Scale::from_pow2(0);
    let mut sponge = <Transcript as CryptographicSponge>::new(&b"sshape-test".as_slice());
    let r = prove_sshape_upper_at_upper(
        7,
        ActivationKind::Sigmoid,
        &u,
        &preact_aux,
        &preact_commit,
        &d_aux,
        &d_commit,
        &b_aux,
        &b_commit,
        s,
        s,
        s,
        &params,
        &mut sponge,
        &mut rng,
    );
    assert!(r.is_err(), "out-of-domain u must reject at prove");
}

/// Any `n ≥ 1` round-trips under the is_real mask.
#[test]
fn small_n_with_padding_now_accepted_via_is_real() {
    let params = test_params();
    let mut rng = ClearRandomness {};
    for n in [1usize, 2, 3, 8, 32] {
        let preact = vec![0i128; n];
        let n_vars = native_vector_n_vars(n);
        let n_padded = 1usize << n_vars;
        let d_codes = vec![0i128; n_padded];
        let b_codes = vec![2i128; n_padded];
        let (preact_aux, preact_commit) = commit_vec(&params, &preact, n_vars, &mut rng);
        let (d_aux, d_commit) = commit_vec(&params, &d_codes, n_vars, &mut rng);
        let (b_aux, b_commit) = commit_vec(&params, &b_codes, n_vars, &mut rng);
        let s = Scale::from_pow2(0);
        let mut sponge_p = <Transcript as CryptographicSponge>::new(&b"sshape-test".as_slice());
        let proof = prove_sshape_upper_at_lower(
            7,
            ActivationKind::Sigmoid,
            &preact,
            &preact_aux,
            &preact_commit,
            &d_aux,
            &d_commit,
            &b_aux,
            &b_commit,
            s,
            s,
            s,
            &params,
            &mut sponge_p,
            &mut rng,
        )
        .unwrap_or_else(|e| panic!("n={n} prove must succeed under is_real, got {e:?}"));

        let mut sponge_v = <Transcript as CryptographicSponge>::new(&b"sshape-test".as_slice());
        verify_sshape_upper_at_lower(
            &proof,
            7,
            ActivationKind::Sigmoid,
            n,
            &preact_commit,
            &d_commit,
            &b_commit,
            s,
            s,
            s,
            &params,
            &mut sponge_v,
        )
        .unwrap_or_else(|e| panic!("n={n} verify must accept under is_real, got {e:?}"));
    }
}

/// Shrinking `n_real` must be rejected by the FS binding.
#[test]
fn tamper_n_real_rejects() {
    let params = test_params();
    let mut rng = ClearRandomness {};
    let n: usize = 12;
    let preact: Vec<i128> = (0..n).map(|i| i as i128).collect();
    let n_vars = native_vector_n_vars(n);
    let n_padded = 1usize << n_vars;
    let d_codes = vec![0i128; n_padded];
    let b_codes = vec![2i128; n_padded];
    let (preact_aux, preact_commit) = commit_vec(&params, &preact, n_vars, &mut rng);
    let (d_aux, d_commit) = commit_vec(&params, &d_codes, n_vars, &mut rng);
    let (b_aux, b_commit) = commit_vec(&params, &b_codes, n_vars, &mut rng);
    let s = Scale::from_pow2(0);
    let mut sponge_p = <Transcript as CryptographicSponge>::new(&b"sshape-test".as_slice());
    let mut proof = prove_sshape_upper_at_lower(
        7,
        ActivationKind::Sigmoid,
        &preact,
        &preact_aux,
        &preact_commit,
        &d_aux,
        &d_commit,
        &b_aux,
        &b_commit,
        s,
        s,
        s,
        &params,
        &mut sponge_p,
        &mut rng,
    )
    .expect("honest prove must succeed");
    proof.n_real = n - 1;
    let mut sponge_v = <Transcript as CryptographicSponge>::new(&b"sshape-test".as_slice());
    let r = verify_sshape_upper_at_lower(
        &proof,
        7,
        ActivationKind::Sigmoid,
        n,
        &preact_commit,
        &d_commit,
        &b_commit,
        s,
        s,
        s,
        &params,
        &mut sponge_v,
    );
    assert!(r.is_err(), "tampered n_real must reject; got {r:?}");
}

#[test]
fn supported_n_values_succeed() {
    let preact = vec![0i128; 16];
    let params = full_params();
    let mut rng = ClearRandomness {};
    let n_vars = native_vector_n_vars(16);
    let n_padded = 1usize << n_vars;
    assert_eq!(n_padded, 16, "n=16 should not pad");
    let d_codes = vec![0i128; n_padded];
    let b_codes = vec![2i128; n_padded];
    let (preact_aux, preact_commit) = commit_vec(&params, &preact, n_vars, &mut rng);
    let (d_aux, d_commit) = commit_vec(&params, &d_codes, n_vars, &mut rng);
    let (b_aux, b_commit) = commit_vec(&params, &b_codes, n_vars, &mut rng);
    let s = Scale::from_pow2(0);
    let mut sponge = <Transcript as CryptographicSponge>::new(&b"sshape-test".as_slice());
    let proof = prove_sshape_upper_at_lower(
        7,
        ActivationKind::Sigmoid,
        &preact,
        &preact_aux,
        &preact_commit,
        &d_aux,
        &d_commit,
        &b_aux,
        &b_commit,
        s,
        s,
        s,
        &params,
        &mut sponge,
        &mut rng,
    )
    .expect("n=16 should prove");
    let mut verify_sponge = <Transcript as CryptographicSponge>::new(&b"sshape-test".as_slice());
    verify_sshape_upper_at_lower(
        &proof,
        7,
        ActivationKind::Sigmoid,
        16,
        &preact_commit,
        &d_commit,
        &b_commit,
        s,
        s,
        s,
        &params,
        &mut verify_sponge,
    )
    .expect("n=16 should verify");
}

/// A U(l) proof must not verify as U(u) (and vice versa).
#[test]
fn cross_endpoint_replay_rejects() {
    let (proof_l, params, n_real, pc, dc, bc, s) =
        build_proof(ActivationKind::Sigmoid, &[0, -1, 0, -2]);
    let r = verify_with_u(
        &proof_l,
        &params,
        ActivationKind::Sigmoid,
        7,
        n_real,
        &pc,
        &dc,
        &bc,
        s,
    );
    assert!(
        r.is_err(),
        "U(l) proof replayed as U(u) must reject; got {r:?}"
    );

    let (proof_u, params2, n_real2, pc2, dc2, bc2, s2) =
        build_proof_at_u(ActivationKind::Sigmoid, &[0, -1, 0, -2]);
    let r2 = verify_with(
        &proof_u,
        &params2,
        ActivationKind::Sigmoid,
        7,
        n_real2,
        &pc2,
        &dc2,
        &bc2,
        s2,
    );
    assert!(
        r2.is_err(),
        "U(u) proof replayed as U(l) must reject; got {r2:?}"
    );
}

// Lower-line endpoint tests: prove `σ_lower(x) ≥ L(x)` (sign-flipped
// slack identity).


/// Build a `σ_lower ≥ L` proof at the lower endpoint with
/// `d_lower = 0, b_lower = -2` so `L(x) = -2`.
fn build_proof_lower_at_l(kind: ActivationKind, preact_l: &[i128]) -> Proved {
    build_proof_lower_at_l_under(test_params(), kind, preact_l)
}

fn build_proof_lower_at_l_under(params: SnarkParams<ClearPcs>, kind: ActivationKind, preact_l: &[i128]) -> Proved {
    let mut rng = ClearRandomness {};
    let n = preact_l.len();
    let n_vars = native_vector_n_vars(n);
    let n_padded = 1usize << n_vars;
    let d_codes = vec![0i128; n_padded];
    let b_codes = vec![-2i128; n_padded];
    let (preact_aux, preact_commit) = commit_vec(&params, preact_l, n_vars, &mut rng);
    let (d_aux, d_commit) = commit_vec(&params, &d_codes, n_vars, &mut rng);
    let (b_aux, b_commit) = commit_vec(&params, &b_codes, n_vars, &mut rng);
    let s = Scale::from_pow2(0);
    let mut sponge = <Transcript as CryptographicSponge>::new(&b"sshape-test".as_slice());
    let proof = prove_sshape_lower_at_lower(
        7,
        kind,
        preact_l,
        &preact_aux,
        &preact_commit,
        &d_aux,
        &d_commit,
        &b_aux,
        &b_commit,
        s,
        s,
        s,
        &params,
        &mut sponge,
        &mut rng,
    )
    .expect("lower-l prove succeeds");
    (proof, params, n, preact_commit, d_commit, b_commit, s)
}

fn build_proof_lower_at_u(kind: ActivationKind, preact_u: &[i128]) -> Proved {
    build_proof_lower_at_u_under(test_params(), kind, preact_u)
}

fn build_proof_lower_at_u_under(params: SnarkParams<ClearPcs>, kind: ActivationKind, preact_u: &[i128]) -> Proved {
    let mut rng = ClearRandomness {};
    let n = preact_u.len();
    let n_vars = native_vector_n_vars(n);
    let n_padded = 1usize << n_vars;
    let d_codes = vec![0i128; n_padded];
    let b_codes = vec![-2i128; n_padded];
    let (preact_aux, preact_commit) = commit_vec(&params, preact_u, n_vars, &mut rng);
    let (d_aux, d_commit) = commit_vec(&params, &d_codes, n_vars, &mut rng);
    let (b_aux, b_commit) = commit_vec(&params, &b_codes, n_vars, &mut rng);
    let s = Scale::from_pow2(0);
    let mut sponge = <Transcript as CryptographicSponge>::new(&b"sshape-test".as_slice());
    let proof = prove_sshape_lower_at_upper(
        7,
        kind,
        preact_u,
        &preact_aux,
        &preact_commit,
        &d_aux,
        &d_commit,
        &b_aux,
        &b_commit,
        s,
        s,
        s,
        &params,
        &mut sponge,
        &mut rng,
    )
    .expect("lower-u prove succeeds");
    (proof, params, n, preact_commit, d_commit, b_commit, s)
}

fn verify_with_lower_l(
    proof: &SshapeEndpointProof<ClearPcs>,
    params: &SnarkParams<ClearPcs>,
    kind: ActivationKind,
    layer_idx: usize,
    n_real: usize,
    preact_commit: &ClearCommitment,
    d_commit: &ClearCommitment,
    b_commit: &ClearCommitment,
    s: Scale,
) -> Result<(), SnarkError> {
    let mut sponge = <Transcript as CryptographicSponge>::new(&b"sshape-test".as_slice());
    verify_sshape_lower_at_lower(
        proof,
        layer_idx,
        kind,
        n_real,
        preact_commit,
        d_commit,
        b_commit,
        s,
        s,
        s,
        params,
        &mut sponge,
    )
}

fn verify_with_lower_u(
    proof: &SshapeEndpointProof<ClearPcs>,
    params: &SnarkParams<ClearPcs>,
    kind: ActivationKind,
    layer_idx: usize,
    n_real: usize,
    preact_commit: &ClearCommitment,
    d_commit: &ClearCommitment,
    b_commit: &ClearCommitment,
    s: Scale,
) -> Result<(), SnarkError> {
    let mut sponge = <Transcript as CryptographicSponge>::new(&b"sshape-test".as_slice());
    verify_sshape_lower_at_upper(
        proof,
        layer_idx,
        kind,
        n_real,
        preact_commit,
        d_commit,
        b_commit,
        s,
        s,
        s,
        params,
        &mut sponge,
    )
}

#[test]
fn lower_l_completeness_sigmoid_mixed() {
    let (p, params, n_real, pc, dc, bc, s) =
        build_proof_lower_at_l_under(full_params(), ActivationKind::Sigmoid, &[0, -1, 0, -2]);
    verify_with_lower_l(
        &p,
        &params,
        ActivationKind::Sigmoid,
        7,
        n_real,
        &pc,
        &dc,
        &bc,
        s,
    )
    .expect("L(l) sigmoid mixed should verify");
}

#[test]
fn lower_l_completeness_tanh_mixed() {
    let (p, params, n_real, pc, dc, bc, s) =
        build_proof_lower_at_l_under(full_params(), ActivationKind::Tanh, &[1, -1, 0, -2]);
    verify_with_lower_l(
        &p,
        &params,
        ActivationKind::Tanh,
        7,
        n_real,
        &pc,
        &dc,
        &bc,
        s,
    )
    .expect("L(l) tanh mixed should verify");
}

#[test]
fn lower_u_completeness_sigmoid_mixed() {
    let (p, params, n_real, pc, dc, bc, s) =
        build_proof_lower_at_u_under(full_params(), ActivationKind::Sigmoid, &[1, -1, 0, -2]);
    verify_with_lower_u(
        &p,
        &params,
        ActivationKind::Sigmoid,
        7,
        n_real,
        &pc,
        &dc,
        &bc,
        s,
    )
    .expect("L(u) sigmoid mixed should verify");
}

#[test]
fn lower_u_completeness_tanh_mixed() {
    let (p, params, n_real, pc, dc, bc, s) =
        build_proof_lower_at_u_under(full_params(), ActivationKind::Tanh, &[2, -1, 1, -3]);
    verify_with_lower_u(
        &p,
        &params,
        ActivationKind::Tanh,
        7,
        n_real,
        &pc,
        &dc,
        &bc,
        s,
    )
    .expect("L(u) tanh mixed should verify");
}

#[test]
fn lower_l_completeness_all_positive() {
    let (p, params, n_real, pc, dc, bc, s) =
        build_proof_lower_at_l_under(full_params(), ActivationKind::Sigmoid, &[0, 1, 2, 3]);
    verify_with_lower_l(
        &p,
        &params,
        ActivationKind::Sigmoid,
        7,
        n_real,
        &pc,
        &dc,
        &bc,
        s,
    )
    .expect("L(l) all-positive should verify");
}

#[test]
fn lower_l_tamper_sign_eval_rejects() {
    let (mut p, params, n_real, pc, dc, bc, s) =
        build_proof_lower_at_l(ActivationKind::Sigmoid, &[0, -1, 0, -2]);
    p.sign_eval = p.sign_eval.add(Fr::from_u64(1));
    assert!(verify_with_lower_l(
        &p,
        &params,
        ActivationKind::Sigmoid,
        7,
        n_real,
        &pc,
        &dc,
        &bc,
        s
    )
    .is_err());
}

#[test]
fn lower_l_tamper_abs_l_eval_rejects() {
    let (mut p, params, n_real, pc, dc, bc, s) =
        build_proof_lower_at_l(ActivationKind::Sigmoid, &[0, -1, 0, -2]);
    p.abs_l_eval = p.abs_l_eval.add(Fr::from_u64(1));
    assert!(verify_with_lower_l(
        &p,
        &params,
        ActivationKind::Sigmoid,
        7,
        n_real,
        &pc,
        &dc,
        &bc,
        s
    )
    .is_err());
}

#[test]
fn lower_l_tamper_sigma_upper_at_abs_rejects() {
    let (mut p, params, n_real, pc, dc, bc, s) =
        build_proof_lower_at_l(ActivationKind::Sigmoid, &[0, -1, 0, -2]);
    p.sigma_upper_at_abs_eval = p.sigma_upper_at_abs_eval.add(Fr::from_u64(1));
    assert!(verify_with_lower_l(
        &p,
        &params,
        ActivationKind::Sigmoid,
        7,
        n_real,
        &pc,
        &dc,
        &bc,
        s
    )
    .is_err());
}

#[test]
fn lower_l_tamper_sigma_lower_at_abs_rejects() {
    let (mut p, params, n_real, pc, dc, bc, s) =
        build_proof_lower_at_l(ActivationKind::Sigmoid, &[0, -1, 0, -2]);
    p.sigma_lower_at_abs_eval = p.sigma_lower_at_abs_eval.add(Fr::from_u64(1));
    assert!(verify_with_lower_l(
        &p,
        &params,
        ActivationKind::Sigmoid,
        7,
        n_real,
        &pc,
        &dc,
        &bc,
        s
    )
    .is_err());
}

#[test]
fn lower_l_tamper_slack_eval_rejects() {
    let (mut p, params, n_real, pc, dc, bc, s) =
        build_proof_lower_at_l(ActivationKind::Sigmoid, &[0, -1, 0, -2]);
    p.diff_eval = p.diff_eval.add(Fr::from_u64(1));
    assert!(verify_with_lower_l(
        &p,
        &params,
        ActivationKind::Sigmoid,
        7,
        n_real,
        &pc,
        &dc,
        &bc,
        s
    )
    .is_err());
}

#[test]
fn lower_l_tamper_epsilon_eval_rejects() {
    let (mut p, params, n_real, pc, dc, bc, s) =
        build_proof_lower_at_l(ActivationKind::Sigmoid, &[0, -1, 0, -2]);
    p.dx_step_1_rem_eval = p.dx_step_1_rem_eval.add(Fr::from_u64(1));
    assert!(verify_with_lower_l(
        &p,
        &params,
        ActivationKind::Sigmoid,
        7,
        n_real,
        &pc,
        &dc,
        &bc,
        s
    )
    .is_err());
}

#[test]
fn lower_l_tamper_d_line_eval_rejects() {
    let (mut p, params, n_real, pc, dc, bc, s) =
        build_proof_lower_at_l(ActivationKind::Sigmoid, &[0, -1, 0, -2]);
    p.d_line_eval = p.d_line_eval.add(Fr::from_u64(1));
    assert!(verify_with_lower_l(
        &p,
        &params,
        ActivationKind::Sigmoid,
        7,
        n_real,
        &pc,
        &dc,
        &bc,
        s
    )
    .is_err());
}

#[test]
fn lower_l_tamper_b_line_eval_rejects() {
    let (mut p, params, n_real, pc, dc, bc, s) =
        build_proof_lower_at_l(ActivationKind::Sigmoid, &[0, -1, 0, -2]);
    p.b_line_eval = p.b_line_eval.add(Fr::from_u64(1));
    assert!(verify_with_lower_l(
        &p,
        &params,
        ActivationKind::Sigmoid,
        7,
        n_real,
        &pc,
        &dc,
        &bc,
        s
    )
    .is_err());
}

#[test]
fn lower_l_tamper_r_final_rejects() {
    let (mut p, params, n_real, pc, dc, bc, s) =
        build_proof_lower_at_l(ActivationKind::Sigmoid, &[0, -1, 0, -2]);
    if let Some(last) = p.r_final.last_mut() {
        *last = last.add(Fr::from_u64(1));
    }
    assert!(verify_with_lower_l(
        &p,
        &params,
        ActivationKind::Sigmoid,
        7,
        n_real,
        &pc,
        &dc,
        &bc,
        s
    )
    .is_err());
}

#[test]
fn lower_l_tamper_envelope_witness_len_rejects() {
    let (mut p, params, n_real, pc, dc, bc, s) =
        build_proof_lower_at_l(ActivationKind::Sigmoid, &[0, -1, 0, -2]);
    p.envelope_witness_len = 2;
    assert!(verify_with_lower_l(
        &p,
        &params,
        ActivationKind::Sigmoid,
        7,
        n_real,
        &pc,
        &dc,
        &bc,
        s
    )
    .is_err());
}

#[test]
fn lower_l_tamper_envelope_lookup_top_rejects() {
    let (mut p, params, n_real, pc, dc, bc, s) =
        build_proof_lower_at_l(ActivationKind::Sigmoid, &[0, -1, 0, -2]);
    p.envelope_lookup_top[0] = p.envelope_lookup_top[0].add(Fr::from_u64(1));
    assert!(verify_with_lower_l(
        &p,
        &params,
        ActivationKind::Sigmoid,
        7,
        n_real,
        &pc,
        &dc,
        &bc,
        s
    )
    .is_err());
}

#[test]
fn lower_l_tamper_envelope_table_top_rejects() {
    let (mut p, params, n_real, pc, dc, bc, s) =
        build_proof_lower_at_l(ActivationKind::Sigmoid, &[0, -1, 0, -2]);
    p.envelope_table_top[0] = p.envelope_table_top[0].add(Fr::from_u64(1));
    assert!(verify_with_lower_l(
        &p,
        &params,
        ActivationKind::Sigmoid,
        7,
        n_real,
        &pc,
        &dc,
        &bc,
        s
    )
    .is_err());
}

#[test]
fn lower_l_tamper_layer_idx_rejects() {
    let (p, params, n_real, pc, dc, bc, s) =
        build_proof_lower_at_l(ActivationKind::Sigmoid, &[0, -1, 0, -2]);
    let r = verify_with_lower_l(
        &p,
        &params,
        ActivationKind::Sigmoid,
        99,
        n_real,
        &pc,
        &dc,
        &bc,
        s,
    );
    assert!(r.is_err(), "wrong layer_idx must reject; got {r:?}");
}

#[test]
fn lower_l_out_of_domain_rejects() {
    let params = full_params();
    let mut rng = ClearRandomness {};
    let l = vec![0i128, 0, 0, 128];
    let n_vars = native_vector_n_vars(l.len());
    let n_padded = 1usize << n_vars;
    let d_codes = vec![0i128; n_padded];
    let b_codes = vec![-2i128; n_padded];
    let (preact_aux, preact_commit) = commit_vec(&params, &l, n_vars, &mut rng);
    let (d_aux, d_commit) = commit_vec(&params, &d_codes, n_vars, &mut rng);
    let (b_aux, b_commit) = commit_vec(&params, &b_codes, n_vars, &mut rng);
    let s = Scale::from_pow2(0);
    let mut sponge = <Transcript as CryptographicSponge>::new(&b"sshape-test".as_slice());
    let r = prove_sshape_lower_at_lower(
        7,
        ActivationKind::Sigmoid,
        &l,
        &preact_aux,
        &preact_commit,
        &d_aux,
        &d_commit,
        &b_aux,
        &b_commit,
        s,
        s,
        s,
        &params,
        &mut sponge,
        &mut rng,
    );
    assert!(r.is_err(), "out-of-domain l must reject at prove");
}

/// A lower-line proof must not verify under the upper-line wrapper.
#[test]
fn cross_line_replay_rejects() {
    let (proof_lower, params, n_real, pc, dc, bc, s) =
        build_proof_lower_at_l(ActivationKind::Sigmoid, &[0, -1, 0, -2]);
    let r = verify_with(
        &proof_lower,
        &params,
        ActivationKind::Sigmoid,
        7,
        n_real,
        &pc,
        &dc,
        &bc,
        s,
    );
    assert!(
        r.is_err(),
        "lower-line proof verified as upper-line must reject; got {r:?}"
    );

    let (proof_upper, params2, n_real2, pc2, dc2, bc2, s2) =
        build_proof(ActivationKind::Sigmoid, &[0, -1, 0, -2]);
    let r2 = verify_with_lower_l(
        &proof_upper,
        &params2,
        ActivationKind::Sigmoid,
        7,
        n_real2,
        &pc2,
        &dc2,
        &bc2,
        s2,
    );
    assert!(
        r2.is_err(),
        "upper-line proof verified as lower-line must reject; got {r2:?}"
    );
}

/// L(l) proof must not verify as L(u) and vice versa.
#[test]
fn lower_cross_endpoint_replay_rejects() {
    let (proof_lower_l, params, n_real, pc, dc, bc, s) =
        build_proof_lower_at_l(ActivationKind::Sigmoid, &[0, -1, 0, -2]);
    let r = verify_with_lower_u(
        &proof_lower_l,
        &params,
        ActivationKind::Sigmoid,
        7,
        n_real,
        &pc,
        &dc,
        &bc,
        s,
    );
    assert!(
        r.is_err(),
        "L(l) proof replayed as L(u) must reject; got {r:?}"
    );

    let (proof_lower_u, params2, n_real2, pc2, dc2, bc2, s2) =
        build_proof_lower_at_u(ActivationKind::Sigmoid, &[0, -1, 0, -2]);
    let r2 = verify_with_lower_l(
        &proof_lower_u,
        &params2,
        ActivationKind::Sigmoid,
        7,
        n_real2,
        &pc2,
        &dc2,
        &bc2,
        s2,
    );
    assert!(
        r2.is_err(),
        "L(u) proof replayed as L(l) must reject; got {r2:?}"
    );
}

#[test]
fn tags_tell_endpoints_and_lines_apart() {
    assert_ne!(SshapeEndpointKind::Lower.tag(), SshapeEndpointKind::Upper.tag());
    assert_ne!(SshapeLineKind::Lower.tag(), SshapeLineKind::Upper.tag());
}

#[test]
fn table_indices_are_rescaled_magnitudes() {
    let s = Scale::from_pow2(3);
    assert_eq!(preact_to_abs_table_index(-5, s, 5), Some(20));
    assert_eq!(preact_to_abs_table_index(5, s, 3), Some(5));
    assert_eq!(preact_to_abs_table_index(16, s, 1), Some(4));
    assert_eq!(preact_to_abs_table_index(i128::MIN, s, 5), None);
    assert_eq!(preact_to_abs_table_index(1, Scale { c: 3, e: 0 }, 5), None);
}

#[test]
fn negative_arguments_take_the_mirrored_envelope() {
    assert_eq!(compute_sigma_used(ActivationKind::Sigmoid, SshapeLineKind::Upper, 200, 190, 0, 256), 200);
    assert_eq!(compute_sigma_used(ActivationKind::Sigmoid, SshapeLineKind::Upper, 200, 190, 1, 256), 66);
    assert_eq!(compute_sigma_used(ActivationKind::Sigmoid, SshapeLineKind::Lower, 200, 190, 1, 256), 56);
    assert_eq!(compute_sigma_used(ActivationKind::Tanh, SshapeLineKind::Upper, 200, 190, 1, 256), -190);
    assert_eq!(compute_sigma_used(ActivationKind::Tanh, SshapeLineKind::Lower, 200, 190, 1, 256), -200);
    assert_eq!(compute_sigma_used(ActivationKind::Tanh, SshapeLineKind::Lower, 200, 190, 0, 256), 190);
}

#[test]
fn scale_codes_must_hold_one_bit() {
    let pre = sigma_tables(4, 11);
    let cells = |s_w: i128| {
        compute_witnesses(
            &pre,
            ActivationKind::Sigmoid,
            SshapeLineKind::Upper,
            &[0, -1],
            &[0, 0],
            &[2, 2],
            1,
            1,
            s_w,
            2048,
            4,
        )
    };
    let rows = cells(1).expect("a power of two");
    assert_eq!(rows.len(), 4);
    assert_eq!((rows[1].abs_l, rows[1].sign), (16, 1));
    assert_eq!((rows[3].abs_l, rows[3].diff), (0, 0));
    for s_w in [0, -1, -2, 3, 12, i128::MAX, i128::MIN + 1] {
        assert!(matches!(
            cells(s_w),
            Err(SnarkError::ShapeMismatch { what: "sshape_endpoint: s_w not power of two" })
        ));
    }
    // The least code holds one bit, but nothing can be divided by it.
    assert!(matches!(
        cells(i128::MIN),
        Err(SnarkError::ShapeMismatch {
            what: "sshape_endpoint: split-arith witness compute (upper)"
        })
    ));
}

#[test]
fn the_check_in_the_clear_agrees_with_the_prover() {
    let pre = sigma_tables(11, 16);
    let s = Scale::from_pow2(0);
    let cells = |preact: &[i128], b: i128, line: SshapeLineKind| {
        let d = vec![0i128; preact.len()];
        let b = vec![b; preact.len()];
        endpoint_cells_in_range(
            &pre,
            ActivationKind::Sigmoid,
            line,
            preact,
            &d,
            &b,
            s,
            s,
            s,
            19,
        )
    };
    cells(&[0, -1, 0, -2], 2, SshapeLineKind::Upper).expect("above");
    cells(&[0, -1, 0, -2], -2, SshapeLineKind::Lower).expect("below");
    assert!(cells(&[0, -1, 0, -2], 0, SshapeLineKind::Upper).is_err());
    assert!(cells(&[0, 0, 0, 128], 2, SshapeLineKind::Upper).is_err());
}

fn sigmoid_cert(b_upper: i128) -> QuantCert {
    let vector = |v: Vec<i128>| QArray1 {
        codes: CodeVector::from_vec(v),
        scale: Scale::from_pow2(0),
    };
    let matrix = || QArray2 {
        codes: CodeMatrix::from_shape_vec(1, 1, vec![1]).unwrap(),
        scale: Scale::from_pow2(0),
    };
    QuantCert {
        weights: vec![Some(matrix()), None],
        biases: vec![Some(vector(vec![0])), None],
        relaxations: vec![
            None,
            Some(QuantRelaxation {
                d_lower: vector(vec![0]),
                d_upper: vector(vec![0]),
                b_lower: vector(vec![-2]),
                b_upper: vector(vec![b_upper]),
            }),
        ],
        preact_lower: vec![Some(vector(vec![-3])), None],
        preact_upper: vec![Some(vector(vec![5])), None],
        x_lower: vector(vec![0]),
        x_upper: vector(vec![0]),
        spec_c: matrix(),
        spec_d: vector(vec![0]),
        target_lower: None,
        target_upper: None,
        scales: CertScales { working: Scale::from_pow2(0) },
    }
}

#[test]
fn whole_certificates_are_checked_in_the_clear() {
    let network = NetworkArchitecture {
        layers: vec![
            LayerShape::Linear { in_dim: 1, out_dim: 1 },
            LayerShape::Activation { kind: ActivationKind::Sigmoid },
        ],
    };
    let pre = sigma_tables(11, 16);
    quant_cert_sshape_endpoints_ok(&network, &sigmoid_cert(2), &pre, 19).expect("sound lines");
    assert!(quant_cert_sshape_endpoints_ok(&network, &sigmoid_cert(0), &pre, 19).is_err());
}
