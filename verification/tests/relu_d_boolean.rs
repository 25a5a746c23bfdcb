//! The slopes of a ReLU's lower line are zero or one.

use ark_crypto_primitives::sponge::merlin::Transcript;
use ark_crypto_primitives::sponge::CryptographicSponge;
use crown_snark::clear_pcs::{ClearCommitment, ClearKey, ClearPcs, ClearRandomness};
use crown_snark::errors::SnarkError;
use crown_snark::field::{signed_lift_to_fr, Fr};
use crown_snark::params::{Preprocessed, SigmaTables, SnarkParams};
use crown_snark::pcs::{commit_table, CommittedAux};
use crown_snark::relu_d_boolean::{prove_relu_d_boolean, verify_relu_d_boolean};

/// Envelope tables of the sigmoid and tanh up to 128, at the given scales.
fn sigma_tables(s_x_log2: i32, s_v_log2: i32) -> SigmaTables {
    let len = 128usize << s_x_log2;
    let s_x = (1i64 << s_x_log2) as f64;
    let s_v = (1i64 << s_v_log2) as f64;
    let column = |f: &dyn Fn(f64) -> f64, up: bool| -> Vec<Fr> {
        (0..len)
            .map(|i| {
                let y = f(i as f64 / s_x) * s_v;
                let code = if up { y.ceil().min(s_v) } else { (y.ceil() - 1.0).max(0.0) };
                signed_lift_to_fr(code as i128)
            })
            .collect()
    };
    let sigmoid = |x: f64| 1.0 / (1.0 + (-x).exp());
    let tanh = |x: f64| x.tanh();
    SigmaTables {
        sigmoid_lower_fr: column(&sigmoid, false),
        sigmoid_upper_fr: column(&sigmoid, true),
        tanh_lower_fr: column(&tanh, false),
        tanh_upper_fr: column(&tanh, true),
        s_x_log2,
        s_v_log2,
    }
}

fn fresh_sponge() -> Transcript {
    <Transcript as CryptographicSponge>::new(&b"relu-d-boolean-test".as_slice())
}

fn setup_params(n_vars: usize) -> SnarkParams<ClearPcs> {
    SnarkParams {
        committer_key: ClearKey {},
        verifier_key: ClearKey {},
        max_num_vars: n_vars,
        precision_bits: 14,
        out_bound_range_bits: 10,
        gadget_range_bits: 10,
        sigma_x_scale_log2: 0,
        sigma_v_scale_log2: 8,
        input_scale_log2: None,
        preprocessed: Preprocessed::build(8, vec![10], sigma_tables(0, 8)),
    }
}

fn commit_d(
    d: &[Fr],
    params: &SnarkParams<ClearPcs>,
) -> (CommittedAux<ClearPcs>, ClearCommitment) {
    let mut rng = ClearRandomness {};
    let (com, aux) =
        commit_table::<ClearPcs>(&params.committer_key, d.to_vec(), &mut rng).expect("commit");
    (aux, com)
}

#[test]
fn valid_d_lower_in_zero_or_sd_accepts() {
    // d_lower vector with cells in {0, s_d}: the gadget must
    // both prove and verify without error.
    let s_d = Fr::from_u64(1u64 << 14);
    // 16 cells (n_vars = 4) of {0, s_d}.
    let mut d: Vec<Fr> = Vec::with_capacity(16);
    for i in 0..16 {
        d.push(if i % 2 == 0 { Fr::from_u64(0u64) } else { s_d });
    }
    let params = setup_params(4);
    let (aux, commit) = commit_d(&d, &params);

    let mut prover_sponge = fresh_sponge();
    let proof = prove_relu_d_boolean(
        7,
        &d,
        &aux,
        &commit,
        s_d,
        &params,
        &mut prover_sponge,
        &mut ClearRandomness {},
    )
    .expect("valid {0, s_d} witness must prove");

    let mut verifier_sponge = fresh_sponge();
    verify_relu_d_boolean(&proof, 7, 4, s_d, &commit, &params, &mut verifier_sponge)
        .expect("valid proof must verify");
}

#[test]
fn malformed_d_lower_with_non_boolean_cell_prover_rejects() {
    // d_lower with one cell at d = s_d/2 (real-valued slope 0.5,
    // forbidden for canonical ReLU). The prover must fail fast —
    // it should NOT emit an Ok proof that the verifier later
    // rejects.
    let s_d = Fr::from_u64(1u64 << 14);
    let half_sd = Fr::from_u64(1u64 << 13); // s_d/2 — invalid
    let mut d: Vec<Fr> = Vec::with_capacity(16);
    for _ in 0..16 {
        d.push(Fr::from_u64(0u64));
    }
    d[5] = half_sd; // single invalid cell
    d[12] = s_d; // one valid s_d to make it look like a real witness
    let params = setup_params(4);
    let (aux, commit) = commit_d(&d, &params);

    let mut prover_sponge = fresh_sponge();
    let result = prove_relu_d_boolean(
        7,
        &d,
        &aux,
        &commit,
        s_d,
        &params,
        &mut prover_sponge,
        &mut ClearRandomness {},
    );
    // Either the round-invariant check or the final-identity
    // check inside the prover must fire.
    match result {
        Err(SnarkError::RelaxationSoundnessFinalCheckFailed { which }) => {
            assert!(
                which == "relu_d_boolean::sumcheck_round_invariant"
                    || which == "relu_d_boolean::final_identity",
                "unexpected which: {}",
                which
            );
        }
        Err(other) => panic!("expected RelaxationSoundnessFinalCheckFailed, got {other:?}"),
        Ok(_) => panic!(
            "prover must fail fast on a non-{{0, s_d}} d_lower cell — \
             instead it produced an Ok proof"
        ),
    }
}

#[test]
fn forged_proof_with_non_boolean_d_lower_verifier_rejects() {
    // Adversarial scenario: the prover ALMOST honestly produces
    // a proof with malformed d_lower but bypasses the prover-side
    // fail-fast check. We simulate this by constructing a proof
    // honestly, then tampering the d_lower_eval to a forced 0.
    // The verifier must reject (final-identity check).
    let s_d = Fr::from_u64(1u64 << 14);
    // Honest valid witness so the prover succeeds.
    let mut d: Vec<Fr> = Vec::with_capacity(16);
    for i in 0..16 {
        d.push(if i % 2 == 0 { Fr::from_u64(0u64) } else { s_d });
    }
    let params = setup_params(4);
    let (aux, commit) = commit_d(&d, &params);

    let mut prover_sponge = fresh_sponge();
    let mut proof = prove_relu_d_boolean(
        42,
        &d,
        &aux,
        &commit,
        s_d,
        &params,
        &mut prover_sponge,
        &mut ClearRandomness {},
    )
    .expect("honest valid witness");

    // Tamper: forge a different d_lower_eval. With overwhelming
    // probability (Schwartz-Zippel), the actual eval at the
    // sumcheck-final r' is non-zero (cells include both 0 and
    // s_d), so forcing it to 0 breaks the final identity.
    proof.d_lower_eval = Fr::from_u64(0u64);

    let mut verifier_sponge = fresh_sponge();
    let err = verify_relu_d_boolean(&proof, 42, 4, s_d, &commit, &params, &mut verifier_sponge)
        .expect_err("tampered eval must be rejected");
    // Either Hyrax open verify or final-identity check rejects.
    // Both are valid rejection paths.
    assert!(
        matches!(
            err,
            SnarkError::PcsOpenRejected { .. }
                | SnarkError::RelaxationSoundnessFinalCheckFailed { .. }
        ),
        "unexpected rejection error: {err:?}"
    );
}
