//! Whole passes over a small network: two linear layers with a ReLU between
//! them. Honest records are proved and accepted; tampered ones are not.

use ark_crypto_primitives::sponge::merlin::Transcript;
use ark_crypto_primitives::sponge::CryptographicSponge;
use crown_snark::activation_matrix::verify_activation_matrix_chain;
use crown_snark::activation_matrix_prover::build_activation_matrix_proofs;
use crown_snark::activation_step::verify_activation_backward_chain;
use crown_snark::activation_step_prover::build_activation_backward_proofs;
use crown_snark::architecture::{
    check_activation_chain_shape, check_linear_chain_shape, check_pass_commit_lengths,
};
use crown_snark::bias_accumulator::{b_acc_n_vars, verify_b_acc_step_proofs};
use crown_snark::bias_accumulator_prover::build_b_acc_step_proofs;
use crown_snark::cert::{CertScales, QuantCert, QuantRelaxation};
use crown_snark::chain_init::{chain_init_n_vars, prove_chain_init, verify_chain_init};
use crown_snark::clear_pcs::{ClearKey, ClearPcs, ClearRandomness};
use crown_snark::commit::{
    absorb_commitments, PassCommitments, PassProverStates, ProverPolyStates, TensorCommitments,
};
use crown_snark::commit_all::commit_all_tensors;
use crown_snark::errors::SnarkError;
use crown_snark::field::{signed_lift_to_fr, Fr};
use crown_snark::hidden_driver::{verify_one_hidden_pass, HiddenAction, HiddenStage};
use crown_snark::hidden_proving::{prove_one_hidden_pass, HiddenProgress};
use crown_snark::hidden_parts::{
    check_hidden_target, expected_hidden_targets, verify_hidden_splits, verify_hidden_steps,
};
use crown_snark::hidden_pass::{hidden_linear_indices, verify_hidden_front};
use crown_snark::hidden_pass_prover::{
    hidden_bound_codes, lower_concretize_trace, prove_hidden_front, prove_hidden_splits,
    prove_hidden_steps, upper_concretize_trace, HiddenLayerPass,
};
use crown_snark::linear_chain::{build_linear_backward_proofs, verify_linear_backward_chain};
use crown_snark::network::{ActivationKind, LayerShape, NetworkArchitecture, Property};
use crown_snark::params::{Preprocessed, SigmaTables, SnarkParams};
use crown_snark::pcs::MlPcs;
use crown_snark::public_binding::{
    derive_public_scales, prove_public_binding, public_binding_n_vars, verify_public_binding,
    PublicCodes,
};
use crown_snark::qarray::{CodeMatrix, CodeVector, QArray1, QArray2};
use crown_snark::range_per_tensor::{prove_tensor_range_logup, verify_tensor_range_logup};
use crown_snark::relu_chain::{
    build_relu_proof_concretize, build_relu_proofs_activation, verify_relu_proof_concretize,
    verify_relu_proofs_activation,
};
use crown_snark::scale::Scale;
use crown_snark::trace::{
    ActivationStepTrace, BackwardTrace, BoundDir, ConcretizeTrace, LinearStepTrace,
};

type Rows = Vec<Vec<i128>>;

fn unit() -> Scale {
    Scale::from_pow2(0)
}

fn matrix(rows: &Rows) -> QArray2 {
    let cols = rows[0].len();
    let flat: Vec<i128> = rows.iter().flatten().copied().collect();
    let codes = CodeMatrix::from_shape_vec(rows.len(), cols, flat).expect("shape");
    QArray2 { codes, scale: unit() }
}

fn vector(v: &[i128]) -> QArray1 {
    QArray1 { codes: CodeVector::from_vec(v.to_vec()), scale: unit() }
}

fn product(a: &Rows, b: &Rows) -> Rows {
    a.iter()
        .map(|row| {
            (0..b[0].len())
                .map(|c| (0..b.len()).map(|j| row[j] * b[j][c]).sum())
                .collect()
        })
        .collect()
}

fn apply(a: &Rows, b: &[i128]) -> Vec<i128> {
    a.iter().map(|row| (0..b.len()).map(|j| row[j] * b[j]).sum()).collect()
}

fn relu(a: &Rows) -> Rows {
    a.iter().map(|row| row.iter().map(|x| (*x).max(0)).collect()).collect()
}

fn signs(a: &Rows) -> Rows {
    a.iter().map(|row| row.iter().map(|x| i128::from(*x >= 0)).collect()).collect()
}

fn plus(a: &[i128], b: &[i128]) -> Vec<i128> {
    a.iter().zip(b).map(|(x, y)| x + y).collect()
}

fn w0() -> Rows {
    vec![vec![1, -2, 3], vec![-1, 2, 1]]
}

fn b0() -> Vec<i128> {
    vec![4, -5]
}

fn w2() -> Rows {
    vec![vec![2, -1], vec![1, 3], vec![-2, 1]]
}

fn b2() -> Vec<i128> {
    vec![1, -1, 2]
}

fn slopes() -> (Vec<i128>, Vec<i128>) {
    (vec![0, 1], vec![1, 2])
}

fn offsets() -> (Vec<i128>, Vec<i128>) {
    (vec![0, -1], vec![3, 2])
}

fn layers() -> Vec<LayerShape> {
    vec![
        LayerShape::Linear { in_dim: 3, out_dim: 2 },
        LayerShape::Activation { kind: ActivationKind::ReLU },
        LayerShape::Linear { in_dim: 2, out_dim: 3 },
    ]
}

fn network() -> NetworkArchitecture {
    NetworkArchitecture { layers: layers() }
}

/// The record of a pass that starts from `c y + d`.
fn record(c: &Rows, d: &[i128], direction: BoundDir) -> BackwardTrace {
    let (d_lo, d_up) = slopes();
    let (o_lo, o_up) = offsets();
    let (d_pos, d_neg, o_pos, o_neg) = match direction {
        BoundDir::Lower => (d_lo, d_up, o_lo, o_up),
        BoundDir::Upper => (d_up, d_lo, o_up, o_lo),
    };
    let a3 = c.clone();
    let acc3 = d.to_vec();
    let a_w2 = product(&a3, &w2());
    let a_b2 = apply(&a3, &b2());
    let a2 = a_w2.clone();
    let acc2 = plus(&acc3, &a_b2);
    let a_pos = relu(&a2);
    let pick = |pos: &[i128], neg: &[i128]| -> Rows {
        a2.iter()
            .map(|row| {
                row.iter()
                    .enumerate()
                    .map(|(j, x)| (*x).max(0) * pos[j] + (*x).min(0) * neg[j])
                    .collect()
            })
            .collect()
    };
    let a_d = pick(&d_pos, &d_neg);
    let bias: Vec<i128> = pick(&o_pos, &o_neg).iter().map(|row| row.iter().sum()).collect();
    let a1 = a_d.clone();
    let acc1 = plus(&acc2, &bias);
    let a_w0 = product(&a1, &w0());
    let a_b0 = apply(&a1, &b0());
    let a0 = a_w0.clone();
    let acc0 = plus(&acc1, &a_b0);
    BackwardTrace {
        linear_steps: vec![
            LinearStepTrace {
                layer_idx: 2,
                a_old: matrix(&a3),
                a_new: matrix(&a2),
                b_acc_old: vector(&acc3),
                b_acc_new: vector(&acc2),
                a_w: matrix(&a_w2),
                a_b: vector(&a_b2),
            },
            LinearStepTrace {
                layer_idx: 0,
                a_old: matrix(&a1),
                a_new: matrix(&a0),
                b_acc_old: vector(&acc1),
                b_acc_new: vector(&acc0),
                a_w: matrix(&a_w0),
                a_b: vector(&a_b0),
            },
        ],
        activation_steps: vec![ActivationStepTrace {
            layer_idx: 1,
            a_old: matrix(&a2),
            a_new: matrix(&a1),
            b_acc_old: vector(&acc2),
            b_acc_new: vector(&acc1),
            selectors: matrix(&signs(&a2)),
            a_pos: matrix(&a_pos),
            a_d_doubled: matrix(&a_d),
            bias_delta_doubled: vector(&bias),
        }],
        concretize: Some(ConcretizeTrace {
            a_final: matrix(&a0),
            a_pos: matrix(&relu(&a0)),
            selectors: matrix(&signs(&a0)),
            target_doubled: vector(&acc0),
            final_target: vector(&plus(&acc0, &acc0)),
            b_acc_final: vector(&acc0),
        }),
    }
}

fn spec_c() -> Rows {
    vec![vec![1, 0, -1], vec![-2, 1, 1]]
}

fn spec_d() -> Vec<i128> {
    vec![7, -3]
}

fn certificate() -> QuantCert {
    let (d_lo, d_up) = slopes();
    let (o_lo, o_up) = offsets();
    QuantCert {
        weights: vec![Some(matrix(&w0())), None, Some(matrix(&w2()))],
        biases: vec![Some(vector(&b0())), None, Some(vector(&b2()))],
        relaxations: vec![
            None,
            Some(QuantRelaxation {
                d_lower: vector(&d_lo),
                d_upper: vector(&d_up),
                b_lower: vector(&o_lo),
                b_upper: vector(&o_up),
            }),
            None,
        ],
        preact_lower: vec![None, None, None],
        preact_upper: vec![None, None, None],
        x_lower: vector(&[-1, -2, -3]),
        x_upper: vector(&[1, 2, 3]),
        spec_c: matrix(&spec_c()),
        spec_d: vector(&spec_d()),
        target_lower: Some(vector(&[1, 2])),
        target_upper: None,
        scales: CertScales { working: unit() },
    }
}

fn small_sigma() -> SigmaTables {
    let column = || (0..4u64).map(Fr::from_u64).collect::<Vec<Fr>>();
    SigmaTables {
        sigmoid_lower_fr: column(),
        sigmoid_upper_fr: column(),
        tanh_lower_fr: column(),
        tanh_upper_fr: column(),
        s_x_log2: 0,
        s_v_log2: 4,
    }
}

fn parameters() -> SnarkParams<ClearPcs> {
    SnarkParams {
        committer_key: ClearKey {},
        verifier_key: ClearKey {},
        max_num_vars: 8,
        precision_bits: 14,
        out_bound_range_bits: 8,
        gadget_range_bits: 8,
        sigma_x_scale_log2: 0,
        sigma_v_scale_log2: 4,
        input_scale_log2: None,
        preprocessed: Preprocessed::build(7, vec![8], small_sigma()),
    }
}

fn transcript() -> Transcript {
    <Transcript as CryptographicSponge>::new(&b"backward-pass".as_slice())
}

struct Fixture {
    cert: QuantCert,
    trace: BackwardTrace,
    coms: TensorCommitments<ClearPcs>,
    states: ProverPolyStates<ClearPcs>,
    params: SnarkParams<ClearPcs>,
}

impl Fixture {
    fn pass(&self) -> &PassCommitments<ClearPcs> {
        self.coms.pass_lower.as_ref().unwrap()
    }

    fn pass_states(&self) -> &PassProverStates<ClearPcs> {
        self.states.pass_lower.as_ref().unwrap()
    }
}

fn fixture(direction: BoundDir) -> Fixture {
    let cert = certificate();
    let trace = record(&spec_c(), &spec_d(), direction);
    let params = parameters();
    let mut rng = ClearRandomness {};
    let (coms, states) = commit_all_tensors::<ClearPcs>(
        &cert,
        &network(),
        &params.committer_key,
        Some(&trace),
        None,
        &mut rng,
    )
    .expect("everything can be committed");
    Fixture { cert, trace, coms, states, params }
}

fn property() -> Property {
    Property { rows: 2, cols: 3 }
}

#[test]
fn commitments_are_laid_out_by_layer_and_step() {
    let f = fixture(BoundDir::Lower);
    assert!(f.coms.weight[0].is_some() && f.coms.weight[1].is_none());
    assert!(f.coms.relaxation[1].is_some() && f.coms.relaxation[2].is_none());
    assert!(f.coms.target_lower.is_some() && f.coms.target_upper.is_none());
    assert!(f.coms.pass_upper.is_none());
    assert_eq!(f.pass().chain_a.len(), 4);
    assert_eq!(f.pass().linear_a_w.len(), 2);
    assert_eq!(f.pass().activation_a_pos.len(), 1);
    assert!(f.pass().concretize_acc_w.is_some());
    check_pass_commit_lengths(f.pass(), &network()).expect("lengths");
    // The top of the chain is the property's matrix, padded to two by four.
    let top = &f.pass_states().chain_a[3].table;
    let want: Vec<Fr> = [1, 0, -1, 0, -2, 1, 1, 0, 0, 0, 0, 0, 0, 0, 0, 0]
        .iter()
        .map(|c| signed_lift_to_fr(*c))
        .collect();
    assert_eq!(top, &want);
    // The share of the first linear step is the difference of the biases.
    let share = &f.pass_states().linear_prod_w[0].table;
    let a_b = apply(&spec_c(), &b2());
    assert_eq!(share[0], signed_lift_to_fr(a_b[0]));
    assert_eq!(share[1], signed_lift_to_fr(a_b[1]));
    assert_eq!(share[2], Fr::from_u64(0));
}

#[test]
fn short_chains_are_refused() {
    let mut f = fixture(BoundDir::Lower);
    f.coms.pass_lower.as_mut().unwrap().linear_a_b.pop();
    assert!(matches!(
        check_pass_commit_lengths(f.pass(), &network()),
        Err(SnarkError::ArchitectureMismatch { what: "linear commit count" })
    ));
    let mut g = fixture(BoundDir::Lower);
    g.coms.pass_lower.as_mut().unwrap().chain_a.pop();
    assert!(matches!(
        check_pass_commit_lengths(g.pass(), &network()),
        Err(SnarkError::ArchitectureMismatch { what: "chain length" })
    ));
    let mut h = fixture(BoundDir::Lower);
    h.coms.pass_lower.as_mut().unwrap().activation_a_pos.pop();
    assert!(matches!(
        check_pass_commit_lengths(h.pass(), &network()),
        Err(SnarkError::ArchitectureMismatch { what: "activation commit count" })
    ));
}

#[test]
fn the_transcript_is_bound_to_the_commitments() {
    let f = fixture(BoundDir::Lower);
    let mut t = transcript();
    absorb_commitments(&mut t, &f.coms);
    let mut u = transcript();
    for w in f.coms.weight.iter().flatten().chain(f.coms.bias.iter().flatten()) {
        crown_snark::transcript::absorb_bytes(&mut u, &ClearPcs::to_bytes(w));
    }
    let rel = f.coms.relaxation[1].as_ref().unwrap();
    for c in [&rel.d_lower, &rel.d_upper, &rel.b_lower, &rel.b_upper] {
        crown_snark::transcript::absorb_bytes(&mut u, &ClearPcs::to_bytes(c));
    }
    for c in [&f.coms.x_lower, &f.coms.x_upper, &f.coms.spec_c, &f.coms.spec_d] {
        crown_snark::transcript::absorb_bytes(&mut u, &ClearPcs::to_bytes(c));
    }
    let t_lo = f.coms.target_lower.as_ref().unwrap();
    crown_snark::transcript::absorb_bytes(&mut u, &ClearPcs::to_bytes(t_lo));
    assert_eq!(
        crown_snark::transcript::squeeze_one(&mut t),
        crown_snark::transcript::squeeze_one(&mut u)
    );
}

#[test]
fn a_pass_starts_from_the_property() {
    let f = fixture(BoundDir::Lower);
    let (a_nv, b_nv) = chain_init_n_vars(&network(), &property());
    assert_eq!((a_nv, b_nv), (4, 2));
    let mut rng = ClearRandomness {};
    let mut proof = prove_chain_init(
        f.pass(),
        f.pass_states(),
        &f.coms,
        &f.states.spec_c,
        &f.states.spec_d,
        a_nv,
        b_nv,
        &f.params,
        &mut transcript(),
        &mut rng,
    )
    .expect("prove");
    verify_chain_init(&proof, f.pass(), &f.coms, a_nv, b_nv, &f.params, &mut transcript())
        .expect("verify");
    assert!(matches!(
        verify_chain_init(&proof, f.pass(), &f.coms, a_nv, 4, &f.params, &mut transcript()),
        Err(SnarkError::ShapeMismatch { what: "chain_init: n_vars mismatch" })
    ));
    proof.r_a[0] = proof.r_a[0].add(Fr::from_u64(1));
    assert!(matches!(
        verify_chain_init(&proof, f.pass(), &f.coms, a_nv, b_nv, &f.params, &mut transcript()),
        Err(SnarkError::TranscriptMismatch)
    ));
}

#[test]
fn a_pass_that_starts_elsewhere_is_rejected() {
    let mut f = fixture(BoundDir::Lower);
    let other = record(&vec![vec![1, 1, -1], vec![-2, 1, 1]], &spec_d(), BoundDir::Lower);
    let mut rng = ClearRandomness {};
    let (com, st) = crown_snark::commit_pass::commit_pass::<ClearPcs>(
        &other,
        &f.params.committer_key,
        &mut rng,
    )
    .unwrap();
    f.coms.pass_lower = Some(com);
    f.states.pass_lower = Some(st);
    let proof = prove_chain_init(
        f.pass(),
        f.pass_states(),
        &f.coms,
        &f.states.spec_c,
        &f.states.spec_d,
        4,
        2,
        &f.params,
        &mut transcript(),
        &mut rng,
    )
    .expect("prove");
    assert!(matches!(
        verify_chain_init(&proof, f.pass(), &f.coms, 4, 2, &f.params, &mut transcript()),
        Err(SnarkError::ChainInitMismatch)
    ));
}

#[test]
fn linear_steps_are_proved_and_checked() {
    let f = fixture(BoundDir::Lower);
    let mut rng = ClearRandomness {};
    let mut proofs = build_linear_backward_proofs(
        &f.cert,
        &f.trace,
        f.pass(),
        f.pass_states(),
        &f.coms,
        &f.states,
        &f.params,
        &mut transcript(),
        &mut rng,
    )
    .expect("prove");
    verify_linear_backward_chain(&proofs, &f.coms, f.pass(), &f.params, &mut transcript())
        .expect("verify");
    let shapes: Vec<_> =
        proofs.iter().map(|p| (p.layer_idx, p.a_old_log_dims, p.w_log_dims)).collect();
    assert_eq!(shapes, vec![(2, (1, 2), (2, 1)), (0, (1, 1), (1, 2))]);
    check_linear_chain_shape(&shapes, &network(), &property()).expect("shapes");
    assert!(matches!(
        check_linear_chain_shape(&shapes[..1], &network(), &property()),
        Err(SnarkError::ArchitectureMismatch {
            what: "linear_backward step count != n_linear in network"
        })
    ));
    proofs[1].proof.matmul_claim = proofs[1].proof.matmul_claim.add(Fr::from_u64(1));
    assert!(matches!(
        verify_linear_backward_chain(&proofs, &f.coms, f.pass(), &f.params, &mut transcript()),
        Err(SnarkError::LinearLayerRejected { layer: 0 })
    ));
}

#[test]
fn a_false_product_is_rejected() {
    let mut f = fixture(BoundDir::Lower);
    // Commit to a product that is off by one, and claim it.
    let mut a_w = product(&spec_c(), &w2());
    a_w[0][0] += 1;
    f.trace.linear_steps[0].a_w = matrix(&a_w);
    let mut rng = ClearRandomness {};
    let (com, st) = crown_snark::commit_pass::commit_pass::<ClearPcs>(
        &f.trace,
        &f.params.committer_key,
        &mut rng,
    )
    .unwrap();
    f.coms.pass_lower = Some(com);
    f.states.pass_lower = Some(st);
    let proofs = build_linear_backward_proofs(
        &f.cert,
        &f.trace,
        f.pass(),
        f.pass_states(),
        &f.coms,
        &f.states,
        &f.params,
        &mut transcript(),
        &mut rng,
    )
    .expect("prove");
    assert!(matches!(
        verify_linear_backward_chain(&proofs, &f.coms, f.pass(), &f.params, &mut transcript()),
        Err(SnarkError::LinearLayerRejected { layer: 2 })
    ));
}

#[test]
fn activation_biases_are_proved_and_checked() {
    for direction in [BoundDir::Lower, BoundDir::Upper] {
        let f = fixture(direction);
        let mut rng = ClearRandomness {};
        let mut proofs = build_activation_backward_proofs(
            &f.trace,
            direction,
            &f.cert.relaxations,
            f.pass(),
            f.pass_states(),
            &f.coms,
            &f.states,
            &f.params,
            &mut transcript(),
            &mut rng,
        )
        .expect("prove");
        verify_activation_backward_chain(
            &proofs,
            direction,
            f.pass(),
            &f.coms,
            &f.params,
            &mut transcript(),
        )
        .expect("verify");
        let shapes: Vec<_> = proofs.iter().map(|p| (p.layer_idx, p.a_old_log_dims)).collect();
        assert_eq!(shapes, vec![(1, (1, 1))]);
        check_activation_chain_shape(&shapes, &network(), &property()).expect("shapes");
        // The other direction binds another transcript.
        let other = match direction {
            BoundDir::Lower => BoundDir::Upper,
            BoundDir::Upper => BoundDir::Lower,
        };
        assert!(verify_activation_backward_chain(
            &proofs,
            other,
            f.pass(),
            &f.coms,
            &f.params,
            &mut transcript(),
        )
        .is_err());
        proofs[0].delta_b_claim = proofs[0].delta_b_claim.add(Fr::from_u64(1));
        assert!(matches!(
            verify_activation_backward_chain(
                &proofs,
                direction,
                f.pass(),
                &f.coms,
                &f.params,
                &mut transcript(),
            ),
            Err(SnarkError::ActivationLayerRejected { layer: 1 })
        ));
    }
}

#[test]
fn missing_relaxation_commitments_are_reported() {
    let mut f = fixture(BoundDir::Lower);
    let mut rng = ClearRandomness {};
    let biases = build_activation_backward_proofs(
        &f.trace,
        BoundDir::Lower,
        &f.cert.relaxations,
        f.pass(),
        f.pass_states(),
        &f.coms,
        &f.states,
        &f.params,
        &mut transcript(),
        &mut rng,
    )
    .expect("prove");
    let products = build_activation_matrix_proofs(
        &f.trace,
        BoundDir::Lower,
        &f.cert.relaxations,
        f.pass(),
        f.pass_states(),
        &f.coms,
        &f.states,
        &f.params,
        &mut transcript(),
        &mut rng,
    )
    .expect("prove");
    f.coms.relaxation[1] = None;
    assert!(matches!(
        verify_activation_backward_chain(
            &biases,
            BoundDir::Lower,
            f.pass(),
            &f.coms,
            &f.params,
            &mut transcript(),
        ),
        Err(SnarkError::ShapeMismatch { what: "missing relaxation commit" })
    ));
    assert!(matches!(
        verify_activation_matrix_chain(
            &products,
            BoundDir::Lower,
            f.pass(),
            &f.coms,
            &f.params,
            &mut transcript(),
        ),
        Err(SnarkError::ShapeMismatch { what: "missing relaxation commit (act_matrix)" })
    ));
}

#[test]
fn activation_products_are_proved_and_checked() {
    for direction in [BoundDir::Lower, BoundDir::Upper] {
        let f = fixture(direction);
        let mut rng = ClearRandomness {};
        let mut proofs = build_activation_matrix_proofs(
            &f.trace,
            direction,
            &f.cert.relaxations,
            f.pass(),
            f.pass_states(),
            &f.coms,
            &f.states,
            &f.params,
            &mut transcript(),
            &mut rng,
        )
        .expect("prove");
        verify_activation_matrix_chain(
            &proofs,
            direction,
            f.pass(),
            &f.coms,
            &f.params,
            &mut transcript(),
        )
        .expect("verify");
        proofs[0].a_d_claim = proofs[0].a_d_claim.add(Fr::from_u64(1));
        assert!(matches!(
            verify_activation_matrix_chain(
                &proofs,
                direction,
                f.pass(),
                &f.coms,
                &f.params,
                &mut transcript(),
            ),
            Err(SnarkError::ActivationMatrixRejected { layer: 1 })
        ));
        // A challenge of another length is drawn, and refused.
        let mut short = transcript();
        let last = proofs[0].r_init.pop().unwrap();
        assert!(matches!(
            verify_activation_matrix_chain(
                &proofs,
                direction,
                f.pass(),
                &f.coms,
                &f.params,
                &mut short,
            ),
            Err(SnarkError::TranscriptMismatch)
        ));
        proofs[0].r_init.push(last);
        assert_ne!(
            crown_snark::transcript::squeeze_one(&mut short),
            crown_snark::transcript::squeeze_one(&mut transcript())
        );
        // Axes and layers that nothing was proved for are refused.
        for (dims, layer) in [((usize::MAX, 2), 1), ((2, 1usize << 40), 1), ((2, 2), usize::MAX)] {
            proofs[0].log_dims = dims;
            proofs[0].layer_idx = layer;
            assert!(matches!(
                verify_activation_matrix_chain(
                    &proofs,
                    direction,
                    f.pass(),
                    &f.coms,
                    &f.params,
                    &mut transcript(),
                ),
                Err(SnarkError::TranscriptMismatch)
            ));
        }
    }
}

#[test]
fn activation_products_need_their_commitments() {
    let direction = BoundDir::Lower;
    let mut f = fixture(direction);
    let proofs = build_activation_matrix_proofs(
        &f.trace,
        direction,
        &f.cert.relaxations,
        f.pass(),
        f.pass_states(),
        &f.coms,
        &f.states,
        &f.params,
        &mut transcript(),
        &mut ClearRandomness {},
    )
    .expect("prove");
    let check = |f: &Fixture, pass: &PassCommitments<ClearPcs>| {
        verify_activation_matrix_chain(
            &proofs,
            direction,
            pass,
            &f.coms,
            &f.params,
            &mut transcript(),
        )
    };
    let whole = fixture(direction);
    let mut short = fixture(direction);
    short.coms.pass_lower.as_mut().unwrap().activation_a_pos.clear();
    assert!(matches!(
        check(&whole, short.pass()),
        Err(SnarkError::ShapeMismatch { what: "missing chain commit (act_matrix)" })
    ));
    f.coms.relaxation.clear();
    assert!(matches!(
        check(&f, whole.pass()),
        Err(SnarkError::ShapeMismatch { what: "missing relaxation commit (act_matrix)" })
    ));
}

#[test]
fn running_biases_are_proved_and_checked() {
    let f = fixture(BoundDir::Lower);
    let nv = b_acc_n_vars(&property());
    assert_eq!(nv, 2);
    let mut rng = ClearRandomness {};
    let mut proofs = build_b_acc_step_proofs(
        &f.trace,
        f.pass(),
        f.pass_states(),
        nv,
        &f.params,
        &mut transcript(),
        &mut rng,
    )
    .expect("prove");
    let order: Vec<_> = proofs.iter().map(|p| (p.kind, p.layer_idx, p.step_idx)).collect();
    assert_eq!(order, vec![(0, 2, 0), (1, 1, 0), (0, 0, 1)]);
    verify_b_acc_step_proofs(&proofs, f.pass(), &network(), nv, &f.params, &mut transcript())
        .expect("verify");
    proofs[1].step_idx = 1;
    assert!(matches!(
        verify_b_acc_step_proofs(&proofs, f.pass(), &network(), nv, &f.params, &mut transcript()),
        Err(SnarkError::ShapeMismatch { what: "b_acc_step: kind/layer/step/n_vars mismatch" })
    ));
    proofs.pop();
    assert!(matches!(
        verify_b_acc_step_proofs(&proofs, f.pass(), &network(), nv, &f.params, &mut transcript()),
        Err(SnarkError::ShapeMismatch { what: "b_acc_step: count mismatch" })
    ));
}

#[test]
fn a_bias_that_skips_a_share_is_rejected() {
    let mut f = fixture(BoundDir::Lower);
    // The next step takes up another bias than the first one left.
    f.trace.linear_steps[1].b_acc_new = vector(&[100, 100]);
    let mut rng = ClearRandomness {};
    let (com, st) = crown_snark::commit_pass::commit_pass::<ClearPcs>(
        &f.trace,
        &f.params.committer_key,
        &mut rng,
    )
    .unwrap();
    f.coms.pass_lower = Some(com);
    f.states.pass_lower = Some(st);
    // The share follows the record, so this is consistent.
    let proofs = build_b_acc_step_proofs(
        &f.trace,
        f.pass(),
        f.pass_states(),
        2,
        &f.params,
        &mut transcript(),
        &mut rng,
    )
    .expect("prove");
    verify_b_acc_step_proofs(&proofs, f.pass(), &network(), 2, &f.params, &mut transcript())
        .expect("the share is the difference");
    // With the shares of another record it is not.
    let honest = fixture(BoundDir::Lower);
    let mut mixed = f.coms.pass_lower.take().unwrap();
    let mut mixed_st = f.states.pass_lower.take().unwrap();
    mixed.linear_prod_w = honest.coms.pass_lower.unwrap().linear_prod_w;
    mixed_st.linear_prod_w = honest.states.pass_lower.unwrap().linear_prod_w;
    let proofs = build_b_acc_step_proofs(
        &f.trace,
        &mixed,
        &mixed_st,
        2,
        &f.params,
        &mut transcript(),
        &mut rng,
    )
    .expect("prove");
    assert!(matches!(
        verify_b_acc_step_proofs(&proofs, &mixed, &network(), 2, &f.params, &mut transcript()),
        Err(SnarkError::BAccStepBindingFailed { layer: 0 })
    ));
}

#[test]
fn splits_are_proved_and_checked() {
    let f = fixture(BoundDir::Lower);
    let mut rng = ClearRandomness {};
    let steps = build_activation_backward_proofs(
        &f.trace,
        BoundDir::Lower,
        &f.cert.relaxations,
        f.pass(),
        f.pass_states(),
        &f.coms,
        &f.states,
        &f.params,
        &mut transcript(),
        &mut rng,
    )
    .expect("prove");
    let mut proofs = build_relu_proofs_activation(
        &f.trace,
        f.pass(),
        f.pass_states(),
        &f.params,
        &mut transcript(),
        &mut rng,
    )
    .expect("prove");
    verify_relu_proofs_activation(&proofs, &steps, f.pass(), &f.params, &mut transcript())
        .expect("verify");
    let last = build_relu_proof_concretize(
        f.trace.concretize.as_ref().unwrap(),
        f.pass(),
        f.pass_states(),
        &f.params,
        &mut transcript(),
        &mut rng,
    )
    .expect("prove");
    verify_relu_proof_concretize(&last, (1, 2), f.pass(), &f.params, &mut transcript())
        .expect("verify");
    proofs[0].a_pos_eval_at_r = proofs[0].a_pos_eval_at_r.add(Fr::from_u64(1));
    assert!(matches!(
        verify_relu_proofs_activation(&proofs, &steps, f.pass(), &f.params, &mut transcript()),
        Err(SnarkError::PcsOpenRejected { which: "relu_A_A_pos_batch" })
    ));
    proofs[0].table_len *= 2;
    assert!(matches!(
        verify_relu_proofs_activation(&proofs, &steps, f.pass(), &f.params, &mut transcript()),
        Err(SnarkError::LogUpTableNotCanonical { .. })
    ));
    proofs.pop();
    assert!(matches!(
        verify_relu_proofs_activation(&proofs, &steps, f.pass(), &f.params, &mut transcript()),
        Err(SnarkError::ShapeMismatch { what: "relu proofs vs activation step count" })
    ));
}

#[test]
fn a_false_split_is_rejected() {
    let mut f = fixture(BoundDir::Lower);
    // Claim one cell's sign wrongly.
    let a2 = product(&spec_c(), &w2());
    let mut a_pos = relu(&a2);
    a_pos[0][0] = a2[0][0] - 1;
    f.trace.activation_steps[0].a_pos = matrix(&a_pos);
    let mut rng = ClearRandomness {};
    let (com, st) = crown_snark::commit_pass::commit_pass::<ClearPcs>(
        &f.trace,
        &f.params.committer_key,
        &mut rng,
    )
    .unwrap();
    f.coms.pass_lower = Some(com);
    f.states.pass_lower = Some(st);
    let proofs = build_relu_proofs_activation(
        &f.trace,
        f.pass(),
        f.pass_states(),
        &f.params,
        &mut transcript(),
        &mut rng,
    )
    .expect("prove");
    let steps = build_activation_backward_proofs(
        &f.trace,
        BoundDir::Lower,
        &f.cert.relaxations,
        f.pass(),
        f.pass_states(),
        &f.coms,
        &f.states,
        &f.params,
        &mut transcript(),
        &mut rng,
    )
    .expect("prove");
    assert!(matches!(
        verify_relu_proofs_activation(&proofs, &steps, f.pass(), &f.params, &mut transcript()),
        Err(SnarkError::ReluLookupIdentityFailed)
    ));
}

#[test]
fn tensors_in_range_are_proved_and_checked() {
    let f = fixture(BoundDir::Lower);
    let mut rng = ClearRandomness {};
    let aux = f.states.weight[0].as_ref().unwrap();
    let com = f.coms.weight[0].as_ref().unwrap();
    let mut proof =
        prove_tensor_range_logup(aux, com, &f.params, &mut transcript(), &mut rng).expect("prove");
    verify_tensor_range_logup(&proof, com, 4, &f.params, &mut transcript()).expect("verify");
    assert!(matches!(
        verify_tensor_range_logup(&proof, com, 2, &f.params, &mut transcript()),
        Err(SnarkError::ArchitectureMismatch { .. })
    ));
    proof.tensor_eval = proof.tensor_eval.add(Fr::from_u64(1));
    assert!(matches!(
        verify_tensor_range_logup(&proof, com, 4, &f.params, &mut transcript()),
        Err(SnarkError::PcsOpenRejected { which: "per_tensor_range_witness" })
    ));
}

#[test]
fn tensors_out_of_range_are_rejected() {
    let f = fixture(BoundDir::Lower);
    let mut rng = ClearRandomness {};
    for cell in [128i128, -129, i128::MAX, i128::MIN] {
        let table: Vec<Fr> =
            [0, 1, cell, -128].iter().map(|c| signed_lift_to_fr(*c)).collect();
        let (com, aux) = crown_snark::pcs::commit_table::<ClearPcs>(
            &f.params.committer_key,
            table,
            &mut rng,
        )
        .unwrap();
        let proof = prove_tensor_range_logup(&aux, &com, &f.params, &mut transcript(), &mut rng)
            .expect("prove");
        assert!(matches!(
            verify_tensor_range_logup(&proof, &com, 2, &f.params, &mut transcript()),
            Err(SnarkError::LogUpIdentityFailed)
        ));
    }
}

fn canonical() -> PublicCodes {
    PublicCodes {
        spec_c: matrix(&spec_c()),
        spec_d: vector(&spec_d()),
        x_lower: vector(&[-1, -2, -3]),
        x_upper: vector(&[1, 2, 3]),
    }
}

#[test]
fn the_statement_is_bound() {
    let f = fixture(BoundDir::Lower);
    let (working, input) = derive_public_scales(&network(), unit(), unit(), Some(3), 11);
    assert_eq!((working.c, working.e, input.c, input.e), (1, 0, 1, 3));
    assert_eq!(public_binding_n_vars(&property(), 3), (4, 2, 2));
    let mut rng = ClearRandomness {};
    let proof = prove_public_binding(
        working,
        input,
        &property(),
        3,
        -14,
        &f.coms,
        &f.states.spec_c,
        &f.states.spec_d,
        &f.states.x_lower,
        &f.states.x_upper,
        &f.params,
        &mut transcript(),
        &mut rng,
    )
    .expect("prove");
    let check = |codes: &PublicCodes, precision: i32, target: Scale| {
        verify_public_binding(
            &proof,
            working,
            input,
            &property(),
            3,
            codes,
            precision,
            &f.coms,
            target.c,
            target.e,
            &f.params,
            &mut transcript(),
        )
    };
    check(&canonical(), -14, working).expect("verify");
    assert!(matches!(check(&canonical(), 14, working), Err(SnarkError::TranscriptMismatch)));
    assert!(matches!(
        check(&canonical(), -14, Scale::from_pow2(1)),
        Err(SnarkError::PublicBindingFailed)
    ));
    for k in 0..4 {
        let mut codes = canonical();
        match k {
            0 => codes.spec_c = matrix(&vec![vec![1, 0, -1], vec![-2, 1, 2]]),
            1 => codes.spec_d = vector(&[7, -4]),
            2 => codes.x_lower = vector(&[-1, -2, -2]),
            _ => codes.x_upper = vector(&[1, 2, 4]),
        }
        assert!(matches!(
            check(&codes, -14, working),
            Err(SnarkError::PublicBindingFailed)
        ));
    }
}

#[test]
fn sigmoid_networks_work_at_the_envelope_scale() {
    let mut with_sigmoid = network();
    with_sigmoid.layers[1] = LayerShape::Activation { kind: ActivationKind::Sigmoid };
    let picked = Scale { c: 1, e: 5 };
    let (working, input) = derive_public_scales(&with_sigmoid, picked, picked, None, 11);
    assert_eq!((working.c, working.e), (1, 11));
    assert_eq!((input.c, input.e), (1, 5));
    let (working, _) = derive_public_scales(&network(), picked, picked, None, 11);
    assert_eq!((working.c, working.e), (1, 5));
}

fn five_layers() -> NetworkArchitecture {
    let mut all = layers();
    all.push(LayerShape::Activation { kind: ActivationKind::ReLU });
    all.push(LayerShape::Linear { in_dim: 3, out_dim: 1 });
    NetworkArchitecture { layers: all }
}

fn hidden(one: i128) -> HiddenLayerPass {
    let id: Rows = (0..3).map(|i| (0..3).map(|j| if i == j { one } else { 0 }).collect()).collect();
    HiddenLayerPass {
        target_layer_idx: 2,
        n_spec: 3,
        preact_lower: vector(&[-9, -8, -7]),
        preact_upper: vector(&[9, 8, 7]),
        lower_trace: record(&id, &[0, 0, 0], BoundDir::Lower),
        upper_trace: record(&id, &[0, 0, 0], BoundDir::Upper),
    }
}

#[test]
fn a_hidden_pass_is_proved_and_checked_in_parts() {
    let f = fixture(BoundDir::Lower);
    let arch = five_layers();
    assert_eq!(hidden_linear_indices(&arch), vec![0, 2]);
    let targets = expected_hidden_targets(&arch, 2).expect("two targets");
    assert_eq!(targets, vec![0, 2]);
    assert!(matches!(
        expected_hidden_targets(&arch, 1),
        Err(SnarkError::ArchitectureMismatch { .. })
    ));
    let mut coms = f.coms;
    let mut rng = ClearRandomness {};
    // The last linear layer's commitments are not read, but must be there.
    let extra = crown_snark::commit::commit_vector::<ClearPcs>(
        &f.params.committer_key,
        &vector(&[1]),
        &mut rng,
    )
    .unwrap()
    .0;
    coms.weight.push(None);
    coms.weight.push(Some(ClearPcs::duplicate(&extra)));
    coms.bias.push(None);
    coms.bias.push(Some(extra));
    coms.relaxation.push(None);
    coms.relaxation.push(None);
    let hp = hidden(1);
    let mut prover = transcript();
    let run = prove_hidden_front(
        &f.cert, &hp, &coms, &f.states, &f.params, &mut prover, &mut rng,
    )
    .expect("front");
    assert!(lower_concretize_trace(&hp).is_ok() && upper_concretize_trace(&hp).is_ok());
    let splits = prove_hidden_splits(
        &f.cert, &hp, &coms, &f.states, &run, &f.params, &mut prover, &mut rng,
    )
    .expect("splits");
    let steps = prove_hidden_steps(
        &f.cert, &hp, &coms, &f.states, &run, &f.params, &mut prover, &mut rng,
    )
    .expect("steps");
    let bound = hidden_bound_codes(&hp.preact_lower, 2, &run.front.pass_lower, &run.lower_st)
        .expect("bound codes");
    assert_eq!(bound.claimed, vec![-9, -8, -7, 0]);
    assert_eq!(bound.b_acc_final.len(), 4);
    let upper_bound = hidden_bound_codes(&hp.preact_upper, 2, &run.front.pass_upper, &run.upper_st)
        .expect("bound codes");

    check_hidden_target(&run.front, targets[1]).expect("target");
    assert!(check_hidden_target(&run.front, targets[0]).is_err());
    let mut verifier = transcript();
    verify_hidden_front(&arch, &run.front, &coms, 1, &f.params, &mut verifier).expect("front");
    verify_hidden_splits(&arch, &run.front, &splits, (2, 2), (2, 2), &f.params, &mut verifier)
        .expect("splits");
    verify_hidden_steps(
        &arch,
        &run.front,
        &steps,
        &coms,
        &run.front.preact_lower_commit,
        &run.front.preact_upper_commit,
        &f.params,
        &mut verifier,
    )
    .expect("steps");
    assert_eq!(
        crown_snark::transcript::squeeze_one(&mut prover),
        crown_snark::transcript::squeeze_one(&mut verifier)
    );
    // Move by move, every check is asked for, and the pass is accepted.
    let asked = [
        HiddenAction::Concretize(BoundDir::Lower),
        HiddenAction::Concretize(BoundDir::Upper),
        HiddenAction::Rescale(BoundDir::Lower),
        HiddenAction::Rescale(BoundDir::Upper),
        HiddenAction::Bound(BoundDir::Lower),
        HiddenAction::Bound(BoundDir::Upper),
        HiddenAction::Accept,
    ];
    for refused in 0..=asked.len() {
        let mut stage = HiddenStage::Start;
        let mut moves = transcript();
        for (k, expected) in asked.iter().enumerate() {
            let outcome = if k == refused { Err(SnarkError::ChainInitMismatch) } else { Ok(()) };
            let (next, action) = verify_one_hidden_pass(
                stage,
                outcome,
                &arch,
                &run.front,
                &splits,
                &steps,
                &coms,
                1,
                (2, 2),
                (2, 2),
                &run.front.preact_lower_commit,
                &run.front.preact_upper_commit,
                &f.params,
                &mut moves,
            );
            stage = next;
            if k == refused {
                assert!(matches!(action, HiddenAction::Reject(SnarkError::ChainInitMismatch)));
                break;
            }
            assert_eq!(format!("{action:?}"), format!("{expected:?}"));
        }
        assert_eq!(stage, HiddenStage::Done);
        // What was decided stays decided: no later move accepts.
        let (after, action) = verify_one_hidden_pass(
            stage,
            Ok(()),
            &arch,
            &run.front,
            &splits,
            &steps,
            &coms,
            1,
            (2, 2),
            (2, 2),
            &run.front.preact_lower_commit,
            &run.front.preact_upper_commit,
            &f.params,
            &mut moves,
        );
        assert_eq!(after, HiddenStage::Done);
        assert!(matches!(action, HiddenAction::Reject(SnarkError::Reserved { .. })));
    }
    // The proof asks for the same things, move by move, and makes the same parts.
    for refused in 0..=asked.len() {
        let mut progress = HiddenProgress { run: None, splits: None, steps: None, codes: None };
        let mut stage = HiddenStage::Start;
        let mut moves = transcript();
        for (k, expected) in asked.iter().enumerate() {
            let outcome = if k == refused { Err(SnarkError::ChainInitMismatch) } else { Ok(()) };
            let (next, action) = prove_one_hidden_pass(
                stage,
                outcome,
                &f.cert,
                &hp,
                &coms,
                &f.states,
                &mut progress,
                &f.params,
                &mut moves,
                &mut rng,
            );
            stage = next;
            if k == refused {
                assert!(matches!(action, HiddenAction::Reject(SnarkError::ChainInitMismatch)));
                break;
            }
            assert_eq!(format!("{action:?}"), format!("{expected:?}"));
            match action {
                HiddenAction::Bound(BoundDir::Lower) => {
                    let codes = progress.codes.take().expect("codes");
                    assert_eq!(codes.claimed, bound.claimed);
                    assert_eq!(codes.b_acc_final, bound.b_acc_final);
                    assert_eq!(codes.acc_w, bound.acc_w);
                }
                HiddenAction::Bound(BoundDir::Upper) => {
                    let codes = progress.codes.as_ref().expect("codes");
                    assert_eq!(codes.claimed, upper_bound.claimed);
                }
                _ => {}
            }
        }
        assert_eq!(stage, HiddenStage::Done);
        if refused == asked.len() {
            let made = progress.run.as_ref().expect("front");
            let mut check = transcript();
            verify_hidden_front(&arch, &made.front, &coms, 1, &f.params, &mut check)
                .expect("front");
            let splits = progress.splits.as_ref().expect("splits");
            verify_hidden_splits(&arch, &made.front, splits, (2, 2), (2, 2), &f.params, &mut check)
                .expect("splits");
            verify_hidden_steps(
                &arch,
                &made.front,
                progress.steps.as_ref().expect("steps"),
                &coms,
                &made.front.preact_lower_commit,
                &made.front.preact_upper_commit,
                &f.params,
                &mut check,
            )
            .expect("steps");
            assert_eq!(
                crown_snark::transcript::squeeze_one(&mut moves),
                crown_snark::transcript::squeeze_one(&mut check)
            );
            let (after, action) = prove_one_hidden_pass(
                stage,
                Ok(()),
                &f.cert,
                &hp,
                &coms,
                &f.states,
                &mut progress,
                &f.params,
                &mut moves,
                &mut rng,
            );
            assert_eq!(after, HiddenStage::Done);
            assert!(matches!(action, HiddenAction::Reject(SnarkError::Reserved { .. })));
        }
    }
    // A pass whose upper last step was not recorded is refused at its second move.
    let mut cut = hidden(1);
    cut.upper_trace.concretize = None;
    let mut progress = HiddenProgress { run: None, splits: None, steps: None, codes: None };
    let mut stage = HiddenStage::Start;
    let mut last = None;
    let mut moves = transcript();
    for _ in 0..2 {
        let (next, action) = prove_one_hidden_pass(
            stage,
            Ok(()),
            &f.cert,
            &cut,
            &coms,
            &f.states,
            &mut progress,
            &f.params,
            &mut moves,
            &mut rng,
        );
        stage = next;
        last = Some(action);
    }
    assert!(matches!(
        last,
        Some(HiddenAction::Reject(SnarkError::ShapeMismatch {
            what: "hidden pass: missing upper concretize trace"
        }))
    ));
    // Another identity code is refused.
    assert!(matches!(
        verify_hidden_front(&arch, &run.front, &coms, 2, &f.params, &mut transcript()),
        Err(SnarkError::ChainInitMismatch)
    ));
    // The bound must be on the pass's own commitments.
    let mut again = transcript();
    verify_hidden_front(&arch, &run.front, &coms, 1, &f.params, &mut again).expect("front");
    verify_hidden_splits(&arch, &run.front, &splits, (2, 2), (2, 2), &f.params, &mut again)
        .expect("splits");
    assert!(matches!(
        verify_hidden_steps(
            &arch,
            &run.front,
            &steps,
            &coms,
            &run.front.preact_upper_commit,
            &run.front.preact_upper_commit,
            &f.params,
            &mut again,
        ),
        Err(SnarkError::ArchitectureMismatch { .. })
    ));
}

#[test]
fn a_hidden_pass_of_another_shape_is_refused() {
    let f = fixture(BoundDir::Lower);
    let hp = hidden(1);
    let mut rng = ClearRandomness {};
    let mut run = prove_hidden_front(
        &f.cert,
        &hp,
        &f.coms,
        &f.states,
        &f.params,
        &mut transcript(),
        &mut rng,
    )
    .expect("front");
    run.front.target_layer_idx = 1;
    assert!(matches!(
        verify_hidden_front(&network(), &run.front, &f.coms, 1, &f.params, &mut transcript()),
        Err(SnarkError::ArchitectureMismatch { what: "hidden_pass: target_layer_idx not Linear" })
    ));
    run.front.target_layer_idx = 0;
    assert!(matches!(
        verify_hidden_front(&network(), &run.front, &f.coms, 1, &f.params, &mut transcript()),
        Err(SnarkError::ArchitectureMismatch {
            what: "hidden_pass: n_spec != target Linear output dim"
        })
    ));
    run.front.target_layer_idx = 2;
    run.front.preact_n_vars = 4;
    assert!(matches!(
        verify_hidden_front(&network(), &run.front, &f.coms, 1, &f.params, &mut transcript()),
        Err(SnarkError::ArchitectureMismatch {
            what: "hidden_pass: preact_n_vars != native_vector_n_vars(n_spec)"
        })
    ));
}

#[test]
fn missing_last_steps_are_reported() {
    let mut hp = hidden(1);
    hp.lower_trace.concretize = None;
    hp.upper_trace.concretize = None;
    assert!(matches!(
        lower_concretize_trace(&hp),
        Err(SnarkError::ShapeMismatch { what: "hidden pass: missing lower concretize trace" })
    ));
    assert!(matches!(
        upper_concretize_trace(&hp),
        Err(SnarkError::ShapeMismatch { what: "hidden pass: missing upper concretize trace" })
    ));
    let mut rng = ClearRandomness {};
    let (com, st) = crown_snark::commit_pass::commit_pass::<ClearPcs>(
        &hp.lower_trace,
        &ClearKey {},
        &mut rng,
    )
    .unwrap();
    assert!(matches!(
        hidden_bound_codes(&hp.preact_lower, 2, &com, &st),
        Err(SnarkError::ShapeMismatch { what: "hidden pass: missing concretize_acc_w state" })
    ));
    let f = fixture(BoundDir::Lower);
    assert!(matches!(
        build_relu_proof_concretize(
            f.trace.concretize.as_ref().unwrap(),
            &com,
            &st,
            &f.params,
            &mut transcript(),
            &mut rng,
        ),
        Err(SnarkError::ShapeMismatch { what: "missing concretize_a_pos state" })
    ));
}
