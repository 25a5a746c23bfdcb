//! The checks of ReLU relaxations: offsets, lookups and endpoints.

use ark_crypto_primitives::sponge::merlin::Transcript;
use ark_crypto_primitives::sponge::CryptographicSponge;
use crown_snark::clear_pcs::{ClearCommitment, ClearKey, ClearPcs, ClearRandomness};
use crown_snark::errors::SnarkError;
use crown_snark::field::{signed_lift_to_fr, Fr};
use crown_snark::params::{Preprocessed, SigmaTables, SnarkParams};
use crown_snark::pcs::{
    commit_table, hyrax_open_batched_at, hyrax_verify_batched_at, BatchOpenSpec, BatchVerifySpec,
    CommittedAux,
};
use crown_snark::pos_range::{prove_pos_range, verify_pos_range};
use crown_snark::relu_lookup_1d::{prove_relu_lookup_1d, verify_relu_lookup_1d};
use crown_snark::relu_lower_offset::{prove_relu_lower_offset, verify_relu_lower_offset};
use crown_snark::relu_upper_endpoint::{
    compute_slack_and_epsilon, prove_relu_upper_endpoint, verify_relu_upper_endpoint,
};

/// Envelope tables of the sigmoid and tanh up to 128, at the given scales.
fn sigma_tables(s_x_log2: i32, s_v_log2: i32) -> SigmaTables {
    let len = 128usize << s_x_log2;
    let s_x = (1i64 << s_x_log2) as f64;
    let s_v = (1i64 << s_v_log2) as f64;
    let column = |f: &dyn Fn(f64) -> f64, up: bool| -> Vec<Fr> {
        (0..len)
            .map(|i| {
                let y = f(i as f64 / s_x) * s_v;
                let code = if up { y.ceil().min(s_v) } else { (y.ceil() - 1.0).max(0.0) };
                signed_lift_to_fr(code as i128)
            })
            .collect()
    };
    let sigmoid = |x: f64| 1.0 / (1.0 + (-x).exp());
    let tanh = |x: f64| x.tanh();
    SigmaTables {
        sigmoid_lower_fr: column(&sigmoid, false),
        sigmoid_upper_fr: column(&sigmoid, true),
        tanh_lower_fr: column(&tanh, false),
        tanh_upper_fr: column(&tanh, true),
        s_x_log2,
        s_v_log2,
    }
}

fn fresh_sponge() -> Transcript {
    <Transcript as CryptographicSponge>::new(&b"relu-gadgets".as_slice())
}

fn setup_params(n_vars: usize) -> SnarkParams<ClearPcs> {
    SnarkParams {
        committer_key: ClearKey {},
        verifier_key: ClearKey {},
        max_num_vars: n_vars,
        precision_bits: 14,
        out_bound_range_bits: 10,
        gadget_range_bits: 10,
        sigma_x_scale_log2: 0,
        sigma_v_scale_log2: 8,
        input_scale_log2: None,
        preprocessed: Preprocessed::build(8, vec![10], sigma_tables(0, 8)),
    }
}

fn numbers(codes: &[i128]) -> Vec<Fr> {
    codes.iter().map(|c| signed_lift_to_fr(*c)).collect()
}

fn commit(
    params: &SnarkParams<ClearPcs>,
    codes: &[i128],
) -> (CommittedAux<ClearPcs>, ClearCommitment) {
    let mut rng = ClearRandomness {};
    let (com, aux) =
        commit_table::<ClearPcs>(&params.committer_key, numbers(codes), &mut rng).unwrap();
    (aux, com)
}

#[test]
fn zero_offsets_are_accepted_and_others_are_not() {
    let params = setup_params(2);
    let mut rng = ClearRandomness {};
    let (aux, com) = commit(&params, &[0, 0, 0, 0]);
    let proof =
        prove_relu_lower_offset(5, &aux, &com, &params, &mut fresh_sponge(), &mut rng).unwrap();
    verify_relu_lower_offset(&proof, 5, &com, 2, &params, &mut fresh_sponge()).unwrap();
    assert!(matches!(
        verify_relu_lower_offset(&proof, 6, &com, 2, &params, &mut fresh_sponge()),
        Err(SnarkError::ArchitectureMismatch { .. })
    ));
    assert!(matches!(
        verify_relu_lower_offset(&proof, 5, &com, 4, &params, &mut fresh_sponge()),
        Err(SnarkError::ArchitectureMismatch { .. })
    ));
    let (aux, com) = commit(&params, &[0, 0, 1, 0]);
    let proof =
        prove_relu_lower_offset(5, &aux, &com, &params, &mut fresh_sponge(), &mut rng).unwrap();
    assert!(matches!(
        verify_relu_lower_offset(&proof, 5, &com, 2, &params, &mut fresh_sponge()),
        Err(SnarkError::RelaxationSoundnessReluLowerOffsetNonZero { layer_idx: 5 })
    ));
    let bad = CommittedAux::<ClearPcs> { table: numbers(&[0, 0, 0]), state: aux.state };
    assert!(matches!(
        prove_relu_lower_offset(5, &bad, &com, &params, &mut fresh_sponge(), &mut rng),
        Err(SnarkError::ShapeMismatch { .. })
    ));
}

#[test]
fn relu_pairs_are_looked_up() {
    let params = setup_params(2);
    let mut rng = ClearRandomness {};
    let x = [-256, 255, -1, 0];
    let y = [0, 255, 0, 0];
    let ((xa, xc), (ya, yc)) = (commit(&params, &x), commit(&params, &y));
    let proof = prove_relu_lookup_1d(
        &numbers(&x),
        &numbers(&y),
        &xa,
        &xc,
        &ya,
        &yc,
        2,
        &params,
        &mut fresh_sponge(),
        &mut rng,
    )
    .unwrap();
    verify_relu_lookup_1d(&proof, &xc, &yc, 2, &params, &mut fresh_sponge()).unwrap();
    // Against another column's commitment the openings fail.
    assert!(verify_relu_lookup_1d(&proof, &yc, &yc, 2, &params, &mut fresh_sponge()).is_err());
    assert!(matches!(
        prove_relu_lookup_1d(
            &numbers(&x[..2]),
            &numbers(&y),
            &xa,
            &xc,
            &ya,
            &yc,
            2,
            &params,
            &mut fresh_sponge(),
            &mut rng,
        ),
        Err(SnarkError::ShapeMismatch { what: "relu_lookup_1d: padded length != 2^n_vars" })
    ));
    let wrong = [0, 255, -1, 0];
    let (wa, wc) = commit(&params, &wrong);
    let forged = prove_relu_lookup_1d(
        &numbers(&x),
        &numbers(&wrong),
        &xa,
        &xc,
        &wa,
        &wc,
        2,
        &params,
        &mut fresh_sponge(),
        &mut rng,
    );
    match forged {
        Err(_) => {}
        Ok(p) => {
            assert!(verify_relu_lookup_1d(&p, &xc, &wc, 2, &params, &mut fresh_sponge()).is_err());
        }
    }
}

#[test]
fn slacks_are_quotients() {
    // 3 (-4) + 10 (8 / 2) 2 - 0 = 68 = 34 * 2
    assert!(matches!(compute_slack_and_epsilon(3, 10, -4, 0, 2, 8, 2), Ok((34, 0))));
    // 3 5 + 1 (4 / 4) 4 - 2 4 = 11 = 2 * 4 + 3
    assert!(matches!(compute_slack_and_epsilon(3, 1, 5, 2, 4, 4, 4), Ok((2, 3))));
    assert!(matches!(
        compute_slack_and_epsilon(1, 1, 1, 1, 1, 3, 2),
        Err(SnarkError::RelaxationSoundnessFinalCheckFailed { .. })
    ));
    assert!(matches!(
        compute_slack_and_epsilon(1, 0, 5, 6, 1, 1, 1),
        Err(SnarkError::RelaxationSoundnessReluUpperEndpointInvalid { .. })
    ));
    assert!(matches!(
        compute_slack_and_epsilon(i128::MAX, 0, 2, 0, 1, 1, 1),
        Err(SnarkError::ShapeMismatch { what: "relu_upper_endpoint: d*preact i128 overflow" })
    ));
    // Scale codes below zero are divided like any other.
    // 7 3 + 5 (-6 / 3) 2 - 0 = 1 = 0 * 2 + 1
    assert!(matches!(compute_slack_and_epsilon(7, 5, 3, 0, 2, -6, 3), Ok((0, 1))));
    // 7 3 + 5 (6 / -3) 2 - 0 = 1, 7 3 + 5 (-6 / -3) 2 = 41 = 20 * 2 + 1
    assert!(matches!(compute_slack_and_epsilon(7, 5, 3, 0, 2, 6, -3), Ok((0, 1))));
    assert!(matches!(compute_slack_and_epsilon(7, 5, 3, 0, 2, -6, -3), Ok((20, 1))));
    assert!(matches!(compute_slack_and_epsilon(7, 5, 3, 0, 2, 0, 3), Ok((10, 1))));
    assert!(matches!(
        compute_slack_and_epsilon(1, 1, 1, 1, 1, -3, 2),
        Err(SnarkError::RelaxationSoundnessFinalCheckFailed { .. })
    ));
}

#[test]
fn upper_lines_above_the_relu_are_accepted() {
    let params = setup_params(2);
    let mut rng = ClearRandomness {};
    let ((la, lc), (ua, uc)) =
        (commit(&params, &[-4, -2, 0, -6]), commit(&params, &[4, 6, 3, 2]));
    let ((da, dc), (ba, bc)) = (commit(&params, &[1, 1, 2, 1]), commit(&params, &[4, 2, 0, 7]));
    let mut proof = prove_relu_upper_endpoint(
        3,
        2,
        &la,
        &lc,
        &ua,
        &uc,
        &da,
        &dc,
        &ba,
        &bc,
        1,
        2,
        1,
        &params,
        &mut fresh_sponge(),
        &mut rng,
    )
    .unwrap();
    let check = |p: &_, layer: usize, s_d: i128| {
        verify_relu_upper_endpoint(
            p,
            layer,
            2,
            &lc,
            &uc,
            &dc,
            &bc,
            s_d,
            2,
            1,
            &params,
            &mut fresh_sponge(),
        )
    };
    check(&proof, 3, 1).unwrap();
    assert!(check(&proof, 4, 1).is_err());
    assert!(check(&proof, 3, 2).is_err());
    proof.layer_idx = 4;
    assert!(check(&proof, 3, 1).is_err());
    // A line below the ReLU at an endpoint cannot be proved.
    let (da, dc) = commit(&params, &[0, 1, 2, 1]);
    let (ba, bc) = commit(&params, &[1, 2, 0, 7]);
    assert!(matches!(
        prove_relu_upper_endpoint(
            3,
            2,
            &la,
            &lc,
            &ua,
            &uc,
            &da,
            &dc,
            &ba,
            &bc,
            1,
            2,
            1,
            &params,
            &mut fresh_sponge(),
            &mut rng,
        ),
        Err(SnarkError::RelaxationSoundnessReluUpperEndpointInvalid { layer_idx: 0, .. })
    ));
    // So is one below it at a lower endpoint, before the upper ones are read.
    assert!(matches!(
        prove_relu_upper_endpoint(
            3,
            2,
            &ua,
            &uc,
            &la,
            &lc,
            &da,
            &dc,
            &ba,
            &bc,
            1,
            2,
            1,
            &params,
            &mut fresh_sponge(),
            &mut rng,
        ),
        Err(SnarkError::RelaxationSoundnessReluUpperEndpointInvalid { layer_idx: 0, .. })
    ));
    assert!(prove_relu_upper_endpoint(
        3,
        2,
        &la,
        &lc,
        &ua,
        &uc,
        &da,
        &dc,
        &ba,
        &bc,
        0,
        2,
        1,
        &params,
        &mut fresh_sponge(),
        &mut rng,
    )
    .is_err());
}

#[test]
fn lines_above_the_relu_at_both_ends_are_above_it_between() {
    for d in -3i128..=6 {
        for b in -4i128..=12 {
            let slack = |x: i128| compute_slack_and_epsilon(d, b, x, x.max(0), 3, 4, 2);
            for (l, u) in [(-5i128, 7i128), (-5, -1), (1, 9), (0, 0)] {
                if slack(l).is_ok() && slack(u).is_ok() {
                    assert!((l..=u).all(|x| slack(x).is_ok()), "d={d} b={b} l={l} u={u}");
                }
            }
        }
    }
}

#[test]
fn admitted_slopes_are_zero_and_one() {
    let s_d = 16i128;
    for d in -20i128..=20 {
        let x = signed_lift_to_fr(d);
        let product = x.mul(signed_lift_to_fr(s_d).sub(x));
        assert_eq!(product == Fr::from_u64(0), d == 0 || d == s_d);
    }
}

#[test]
fn ranges_are_proved_for_the_committed_codes_alone() {
    let params = setup_params(2);
    let mut rng = ClearRandomness {};
    let x = [0, 1023, 7, 7];
    let (aux, com) = commit(&params, &x);
    let range = prove_pos_range(
        &numbers(&x),
        &x,
        &aux,
        &com,
        &params,
        &mut fresh_sponge(),
        &mut rng,
    )
    .unwrap();
    let (mut a, mut b) = (fresh_sponge(), fresh_sponge());
    verify_pos_range(&range, 2, &com, &params, &mut a).unwrap();
    // A proof of another length leaves the transcript as it was.
    assert!(matches!(
        verify_pos_range(&range, 3, &com, &params, &mut b),
        Err(SnarkError::ShapeMismatch { what: "relu_upper_endpoint: range LogUp len" })
    ));
    assert_eq!(
        crown_snark::transcript::squeeze_one(&mut b),
        crown_snark::transcript::squeeze_one(&mut fresh_sponge())
    );
    assert!(matches!(
        prove_pos_range(
            &numbers(&[0, 1024, 7, 7]),
            &[0, 1024, 7, 7],
            &aux,
            &com,
            &params,
            &mut fresh_sponge(),
            &mut rng,
        ),
        Err(SnarkError::RelaxationSoundnessFinalCheckFailed { .. })
    ));
    // A committed column out of range, passed off as one in range.
    let y = [0, 5000, 7, 7];
    let (aux, com) = commit(&params, &y);
    let forged = prove_pos_range(
        &numbers(&y),
        &x,
        &aux,
        &com,
        &params,
        &mut fresh_sponge(),
        &mut rng,
    )
    .unwrap();
    assert!(matches!(
        verify_pos_range(&forged, 2, &com, &params, &mut fresh_sponge()),
        Err(SnarkError::LogUpIdentityFailed)
    ));
}

#[test]
fn joint_openings_refuse_tables_of_another_size() {
    let params = setup_params(2);
    let mut rng = ClearRandomness {};
    let (a, ac) = commit(&params, &[1, 2, 3, 4]);
    let (b, bc) = commit(&params, &[5, 6]);
    let odd = CommittedAux::<ClearPcs> { table: numbers(&[5, 6, 7]), state: b.state };
    let b = commit(&params, &[5, 6]).0;
    let point = numbers(&[3, 8]);
    let mut open = |second: &CommittedAux<ClearPcs>| {
        let items = vec![
            BatchOpenSpec { aux: &a, commitment: &ac, commit_n_vars: 2 },
            BatchOpenSpec { aux: second, commitment: &bc, commit_n_vars: 2 },
        ];
        hyrax_open_batched_at::<ClearPcs>(
            &params.committer_key,
            &items,
            &point,
            &mut fresh_sponge(),
            &mut rng,
        )
        .map(|_| ())
    };
    assert!(matches!(
        open(&b),
        Err(SnarkError::ShapeMismatch {
            what: "hyrax_open_batched_at: aux MLE n_vars != commit_n_vars"
        })
    ));
    assert!(matches!(
        open(&odd),
        Err(SnarkError::ShapeMismatch {
            what: "hyrax_open_batched_at: aux MLE length must be a non-zero power of two"
        })
    ));
    let mut sponge = fresh_sponge();
    let items = vec![
        BatchVerifySpec { commitment: &ac, value: Fr::from_u64(1), commit_n_vars: 2 },
        BatchVerifySpec { commitment: &bc, value: Fr::from_u64(1), commit_n_vars: 1 },
    ];
    let note = {
        let only = vec![BatchOpenSpec { aux: &a, commitment: &ac, commit_n_vars: 2 }];
        hyrax_open_batched_at::<ClearPcs>(
            &params.committer_key,
            &only,
            &point,
            &mut fresh_sponge(),
            &mut ClearRandomness {},
        )
        .unwrap()
        .1
    };
    assert!(matches!(
        hyrax_verify_batched_at::<ClearPcs>(
            &params.verifier_key,
            &items,
            &point,
            &note,
            &mut sponge,
        ),
        Err(SnarkError::ShapeMismatch {
            what: "hyrax_verify_batched_at: heterogeneous commit_n_vars"
        })
    ));
    assert_eq!(
        crown_snark::transcript::squeeze_one(&mut sponge),
        crown_snark::transcript::squeeze_one(&mut fresh_sponge())
    );
}
