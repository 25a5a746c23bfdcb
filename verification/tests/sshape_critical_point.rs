//! The critical-point check of sigmoid and tanh lines.

use ark_crypto_primitives::sponge::merlin::Transcript;
use ark_crypto_primitives::sponge::CryptographicSponge;
use crown_snark::clear_pcs::{ClearCommitment, ClearKey, ClearPcs, ClearRandomness};
use crown_snark::critical_prover::prove_sshape_critical_point;
use crown_snark::critical_witness::find_z_witness;
use crown_snark::errors::SnarkError;
use crown_snark::field::{signed_lift_to_fr, Fr};
use crown_snark::network::ActivationKind;
use crown_snark::params::{Preprocessed, SigmaTables, SnarkParams};
use crown_snark::pcs::{absorb_commitment, commit_table, CommittedAux};
use crown_snark::transcript::{absorb_u64, absorb_u8, squeeze_one};
use crown_snark::scale::Scale;
use crown_snark::shapes::native_vector_n_vars;
use crown_snark::sshape_critical_point::{verify_sshape_critical_point, SshapeCriticalPointProof};
use crown_snark::sshape_witness::SshapeLineKind;

/// Envelope tables of the sigmoid and tanh up to 128, at the given scales.
fn sigma_tables(s_x_log2: i32, s_v_log2: i32) -> SigmaTables {
    let len = 128usize << s_x_log2;
    let s_x = (1i64 << s_x_log2) as f64;
    let s_v = (1i64 << s_v_log2) as f64;
    let column = |f: &dyn Fn(f64) -> f64, up: bool| -> Vec<Fr> {
        (0..len)
            .map(|i| {
                let y = f(i as f64 / s_x) * s_v;
                let code = if up { y.ceil().min(s_v) } else { (y.ceil() - 1.0).max(0.0) };
                signed_lift_to_fr(code as i128)
            })
            .collect()
    };
    let sigmoid = |x: f64| 1.0 / (1.0 + (-x).exp());
    let tanh = |x: f64| x.tanh();
    SigmaTables {
        sigmoid_lower_fr: column(&sigmoid, false),
        sigmoid_upper_fr: column(&sigmoid, true),
        tanh_lower_fr: column(&tanh, false),
        tanh_upper_fr: column(&tanh, true),
        s_x_log2,
        s_v_log2,
    }
}

fn test_params() -> SnarkParams<ClearPcs> {
    SnarkParams {
        committer_key: ClearKey {},
        verifier_key: ClearKey {},
        max_num_vars: 8,
        precision_bits: 14,
        out_bound_range_bits: 19,
        gadget_range_bits: 19,
        sigma_x_scale_log2: 11,
        sigma_v_scale_log2: 16,
        input_scale_log2: None,
        preprocessed: Preprocessed::build(19, vec![19], sigma_tables(11, 16)),
    }
}

fn commit_vec(
    params: &SnarkParams<ClearPcs>,
    codes: &[i128],
    n_vars: usize,
    rng: &mut ClearRandomness,
) -> (CommittedAux<ClearPcs>, ClearCommitment) {
    let n_padded = 1usize << n_vars;
    let mut padded: Vec<Fr> = codes.iter().map(|&v| signed_lift_to_fr(v)).collect();
    padded.resize(n_padded, Fr::from_u64(0));
    let (com, aux) = commit_table::<ClearPcs>(&params.committer_key, padded, rng).unwrap();
    (aux, com)
}

/// Smoke test that the prover fails closed on a degenerate input
/// (flat line, slope 0) — any of the documented rejection paths is
/// acceptable.
#[test]
fn smoke_sigmoid_phase3c_returns_scale_precondition_error() {
    let params = test_params();
    let mut rng = ClearRandomness {};
    let n: usize = 4;
    let n_vars = native_vector_n_vars(n);
    let n_padded = 1usize << n_vars;
    let s_w = Scale::from_pow2(11);
    let s_d = Scale::from_pow2(0);
    let s_b = Scale::from_pow2(0);
    let d_codes = vec![0i128; n_padded];
    let b_codes = vec![0i128; n_padded];
    let (d_aux, d_commit) = commit_vec(&params, &d_codes, n_vars, &mut rng);
    let (b_aux, b_commit) = commit_vec(&params, &b_codes, n_vars, &mut rng);
    let preact_l: Vec<i128> = vec![-2048, -2048, -2048, -2048];
    let preact_u: Vec<i128> = vec![2048, 2048, 2048, 2048];
    let (preact_l_aux, preact_l_commit) = commit_vec(&params, &preact_l, n_vars, &mut rng);
    let (preact_u_aux, preact_u_commit) = commit_vec(&params, &preact_u, n_vars, &mut rng);
    let mut sponge = <Transcript as CryptographicSponge>::new(&b"sshape3c-test".as_slice());
    let r = prove_sshape_critical_point(
        7,
        ActivationKind::Sigmoid,
        SshapeLineKind::Upper,
        &preact_l,
        &preact_u,
        &[None; 4],
        &preact_l_aux,
        &preact_l_commit,
        &preact_u_aux,
        &preact_u_commit,
        &d_aux,
        &d_commit,
        &b_aux,
        &b_commit,
        s_d,
        s_b,
        s_w,
        &params,
        &mut sponge,
        &mut rng,
    );
    assert!(
        matches!(
            r,
            Err(SnarkError::RelaxationSoundnessFinalCheckFailed { .. })
                | Err(SnarkError::RelaxationSoundnessSshapeInvalid { .. })
                | Err(SnarkError::Reserved { .. })
        ),
        "expected fail-closed rejection from prove_sshape_critical_point"
    );
}

/// Parameters with envelope tables of 2048 entries.
fn small_params() -> SnarkParams<ClearPcs> {
    SnarkParams {
        committer_key: ClearKey {},
        verifier_key: ClearKey {},
        max_num_vars: 8,
        precision_bits: 14,
        out_bound_range_bits: 11,
        gadget_range_bits: 11,
        sigma_x_scale_log2: 4,
        sigma_v_scale_log2: 10,
        input_scale_log2: None,
        preprocessed: Preprocessed::build(8, vec![11], sigma_tables(4, 10)),
    }
}

struct Line {
    params: SnarkParams<ClearPcs>,
    proof: SshapeCriticalPointProof<ClearPcs>,
    coms: [ClearCommitment; 4],
}

/// A line of slope 13/64, which is near the sigmoid's slope at 15/16, with the
/// given offset in 64ths.
fn prove_line(line: SshapeLineKind, b: i128) -> Result<Line, SnarkError> {
    let params = small_params();
    let mut rng = ClearRandomness {};
    let (d_aux, d) = commit_vec(&params, &[13, 13, 13, 13], 2, &mut rng);
    let (b_aux, bc) = commit_vec(&params, &[b, b, b, b], 2, &mut rng);
    let l = [-32i128, -16, -48, -32];
    let u = [32i128, 48, 32, 64];
    let (l_aux, lc) = commit_vec(&params, &l, 2, &mut rng);
    let (u_aux, uc) = commit_vec(&params, &u, 2, &mut rng);
    let mut sponge = <Transcript as CryptographicSponge>::new(&b"critical".as_slice());
    let proof = prove_sshape_critical_point(
        3,
        ActivationKind::Sigmoid,
        line,
        &l,
        &u,
        &[Some(15), Some(14), Some(16), Some(15)],
        &l_aux,
        &lc,
        &u_aux,
        &uc,
        &d_aux,
        &d,
        &b_aux,
        &bc,
        Scale::from_pow2(6),
        Scale::from_pow2(6),
        Scale::from_pow2(4),
        &params,
        &mut sponge,
        &mut rng,
    )?;
    Ok(Line { params, proof, coms: [lc, uc, d, bc] })
}

fn check_line(x: &Line, line: SshapeLineKind, layer: usize) -> Result<(), SnarkError> {
    let mut sponge = <Transcript as CryptographicSponge>::new(&b"critical".as_slice());
    verify_sshape_critical_point(
        &x.proof,
        layer,
        ActivationKind::Sigmoid,
        line,
        4,
        &x.coms[0],
        &x.coms[1],
        &x.coms[2],
        &x.coms[3],
        Scale::from_pow2(6),
        Scale::from_pow2(6),
        Scale::from_pow2(4),
        &x.params,
        &mut sponge,
    )
}

#[test]
fn lines_above_the_critical_point_are_accepted() {
    let mut x = match prove_line(SshapeLineKind::Upper, 44) {
        Ok(x) => x,
        Err(e) => panic!("prove: {e:?}"),
    };
    check_line(&x, SshapeLineKind::Upper, 3).expect("verify");
    assert!(check_line(&x, SshapeLineKind::Lower, 3).is_err());
    assert!(check_line(&x, SshapeLineKind::Upper, 4).is_err());
    x.proof.r_final[0] = x.proof.r_final[0].add(Fr::from_u64(1));
    assert!(check_line(&x, SshapeLineKind::Upper, 3).is_err());
}

#[test]
fn lines_below_the_critical_point_are_accepted() {
    let x = match prove_line(SshapeLineKind::Lower, 20) {
        Ok(x) => x,
        Err(e) => panic!("prove: {e:?}"),
    };
    check_line(&x, SshapeLineKind::Lower, 3).expect("verify");
}

#[test]
fn lines_that_cut_the_function_are_refused() {
    assert!(prove_line(SshapeLineKind::Upper, 20).is_err());
    assert!(prove_line(SshapeLineKind::Lower, 44).is_err());
}

#[test]
fn critical_indices_are_found_near_their_seeds() {
    // The slope of i -> 8 i at scales one is 8.
    let table: Vec<i128> = (0..32).map(|i| 8 * i).collect();
    assert_eq!(find_z_witness(&table, &table, 8, 1, 1, 1, Some(9)), Some(9));
    assert_eq!(find_z_witness(&table, &table, 8, 1, 1, 1, None), None);
    assert_eq!(find_z_witness(&table, &table, 100, 1, 1, 1, Some(9)), None);
}

/// Every opening of a proof is asked for: where one is refused, so is the
/// proof.
#[test]
fn refused_openings_refuse_the_proof() {
    let mut x = match prove_line(SshapeLineKind::Upper, 44) {
        Ok(x) => x,
        Err(e) => panic!("prove: {e:?}"),
    };
    let refused = |x: &Line| match check_line(x, SshapeLineKind::Upper, 3) {
        Err(SnarkError::PcsOpenRejected { which }) => which,
        r => panic!("accepted or refused otherwise: {r:?}"),
    };
    x.proof.envelope_mult_open.tables += 1;
    assert_eq!(refused(&x), "sshape3c::envelope_mult_open");
    x.proof.envelope_mult_open.tables -= 1;
    x.proof.envelope_witness_batched_open.tables += 1;
    refused(&x);
    x.proof.envelope_witness_batched_open.tables -= 1;
    x.proof.batched_open_at_r.tables += 1;
    refused(&x);
    x.proof.batched_open_at_r.tables -= 1;
    x.proof.preact_l_open_at_r_final.tables += 1;
    refused(&x);
    x.proof.preact_l_open_at_r_final.tables -= 1;
    x.proof.preact_u_open_at_r_final.tables += 1;
    refused(&x);
    x.proof.preact_u_open_at_r_final.tables -= 1;
    x.proof.z_range.mult_open.tables += 1;
    assert_eq!(refused(&x), "relu_upper_endpoint::range_mult");
    x.proof.z_range.mult_open.tables -= 1;
    x.proof.z_range.witness_logup_open.tables += 1;
    assert_eq!(refused(&x), "relu_upper_endpoint::range_witness_logup");
    x.proof.z_range.witness_logup_open.tables -= 1;
    check_line(&x, SshapeLineKind::Upper, 3).expect("verify");
}

/// A refusal of the scales or sizes leaves the transcript as it was; a later
/// one comes when the header is bound.
#[test]
fn refusals_after_the_header_leave_it_bound() {
    let params = small_params();
    let mut rng = ClearRandomness {};
    let (d_aux, d) = commit_vec(&params, &[13, 13, 13, 13], 2, &mut rng);
    let (b_aux, b) = commit_vec(&params, &[44, 44, 44, 44], 2, &mut rng);
    let (l_aux, lc) = commit_vec(&params, &[-32, -16, -48, -32], 2, &mut rng);
    let (u_aux, uc) = commit_vec(&params, &[32, 48, 32, 64], 2, &mut rng);
    let fresh = || <Transcript as CryptographicSponge>::new(&b"critical".as_slice());
    let mut refused = |s_w: i32| {
        let mut sponge = fresh();
        let r = prove_sshape_critical_point(
            3,
            ActivationKind::Tanh,
            SshapeLineKind::Lower,
            &[-32, -16, -48, -32],
            &[32, 48, 32, 64],
            &[None; 4],
            &l_aux,
            &lc,
            &u_aux,
            &uc,
            &d_aux,
            &d,
            &b_aux,
            &b,
            Scale::from_pow2(6),
            Scale::from_pow2(6),
            Scale::from_pow2(s_w),
            &params,
            &mut sponge,
            &mut rng,
        );
        assert!(r.is_err());
        squeeze_one(&mut sponge)
    };
    assert_eq!(refused(5), squeeze_one(&mut fresh()));
    let mut header = fresh();
    absorb_u64(&mut header, 3);
    absorb_u8(&mut header, 1);
    absorb_u8(&mut header, SshapeLineKind::Lower.tag());
    absorb_u64(&mut header, 2);
    absorb_u64(&mut header, 4);
    for com in [&d, &b, &lc, &uc] {
        absorb_commitment::<ClearPcs>(&mut header, com);
    }
    assert_eq!(refused(4), squeeze_one(&mut header));
}
