//! The closed forms of the lookup tables' extensions, against the dense
//! extensions of the tables.

use ark_bn254::Fr as ArkFr;
use ark_crypto_primitives::sponge::merlin::Transcript;
use ark_crypto_primitives::sponge::CryptographicSponge;
use ark_ff::{BigInt, Field, PrimeField};
use ark_poly::{DenseMultilinearExtension, Polynomial};
use ark_std::{test_rng, UniformRand};
use crown_snark::field::{signed_lift_to_fr, Fr};
use crown_snark::logup::{
    prove_circuit, top_halves, verify_circuit_with_top, LogUpCircuit,
};
use crown_snark::table_mle::{
    identity_mle_eval, pos_range_mle_eval, pow2_fr, relu_table_mle_eval,
    sigma_value_table_mle_eval, signed_centered_range_mle_eval,
};
use crown_snark::transcript::{absorb_fr, absorb_u64, squeeze_one};

fn to_ark(x: Fr) -> ArkFr {
    ArkFr::from_bigint(BigInt::new(x.to_limbs())).unwrap()
}

fn from_ark(x: ArkFr) -> Fr {
    Fr::from_limbs(x.into_bigint().0).unwrap()
}

fn random(rng: &mut impl ark_std::rand::RngCore) -> Fr {
    from_ark(ArkFr::rand(rng))
}

/// The extension of a table at a big-endian point; the dense extension's
/// points are little-endian.
fn ground_truth_mle_be(table: &[Fr], be_point: &[Fr]) -> Fr {
    assert_eq!(table.len(), 1usize << be_point.len());
    let evals: Vec<ArkFr> = table.iter().map(|x| to_ark(*x)).collect();
    let mle = DenseMultilinearExtension::from_evaluations_slice(be_point.len(), &evals);
    let le_point: Vec<ArkFr> = be_point.iter().rev().map(|x| to_ark(*x)).collect();
    from_ark(mle.evaluate(&le_point))
}

#[test]
fn identity_mle_matches_ground_truth() {
    let mut rng = test_rng();
    for n in 1..=8usize {
        let table: Vec<Fr> = (0..(1usize << n)).map(|i| Fr::from_u64(i as u64)).collect();
        let point: Vec<Fr> = (0..n).map(|_| random(&mut rng)).collect();
        let closed = identity_mle_eval(&point);
        let gt = ground_truth_mle_be(&table, &point);
        assert_eq!(closed, gt, "n={n}");
    }
}

#[test]
fn signed_centered_range_mle_matches_ground_truth() {
    let mut rng = test_rng();
    for n in 1..=8usize {
        let half = 1i128 << (n - 1);
        let table: Vec<Fr> = (0..(1usize << n))
            .map(|i| {
                let signed = i as i128 - half;
                if signed >= 0 {
                    Fr::from_u64(signed as u64)
                } else {
                    Fr::from_u64((-signed) as u64).negate()
                }
            })
            .collect();
        let point: Vec<Fr> = (0..n).map(|_| random(&mut rng)).collect();
        let closed = signed_centered_range_mle_eval(&point);
        let gt = ground_truth_mle_be(&table, &point);
        assert_eq!(closed, gt, "n={n}");
    }
}

#[test]
fn relu_table_mle_matches_ground_truth() {
    let mut rng = test_rng();
    for k in 1..=6usize {
        let n = k + 1;
        let half = 1i128 << k;
        let alpha = random(&mut rng);
        let table: Vec<Fr> = (0..(1usize << n))
            .map(|i| {
                let x = i as i128 - half;
                let x_fr = if x >= 0 {
                    Fr::from_u64(x as u64)
                } else {
                    Fr::from_u64((-x) as u64).negate()
                };
                let relu = if x >= 0 { Fr::from_u64(x as u64) } else { Fr::from_u64(0) };
                alpha.mul(x_fr).add(relu)
            })
            .collect();
        let point: Vec<Fr> = (0..n).map(|_| random(&mut rng)).collect();
        let closed = relu_table_mle_eval(&point, alpha);
        let gt = ground_truth_mle_be(&table, &point);
        assert_eq!(closed, gt, "k={k}");
    }
}

#[test]
fn sigma_value_table_mle_matches_materialized_eval() {
    let mut rng = test_rng();
    for n in 1..=6usize {
        let len = 1usize << n;
        let alpha = random(&mut rng);
        let sigma_values: Vec<Fr> = (0..len).map(|_| random(&mut rng)).collect();
        let combined: Vec<Fr> = (0..len)
            .map(|i| alpha.mul(Fr::from_u64(i as u64)).add(sigma_values[i]))
            .collect();
        let point: Vec<Fr> = (0..n).map(|_| random(&mut rng)).collect();
        let virtual_eval = sigma_value_table_mle_eval(&point, alpha, &sigma_values);
        let materialized_eval = ground_truth_mle_be(&combined, &point);
        assert_eq!(virtual_eval, materialized_eval, "n={n}");
    }
}

#[test]
fn sigma_value_table_mle_works_at_real_sigmoid_table_size() {
    let s_v = (1i64 << 16) as f64;
    let sigmoid_lower: Vec<Fr> = (0..(128usize << 11))
        .map(|i| {
            let y = s_v / (1.0 + (-(i as f64) / 2048.0).exp());
            signed_lift_to_fr((y.ceil() - 1.0) as i128)
        })
        .collect();
    let n = sigmoid_lower.len().trailing_zeros() as usize;
    assert!(n >= 17, "sigmoid half-table must be at least 2^17 entries");
    let mut rng = test_rng();
    let alpha = random(&mut rng);
    let point: Vec<Fr> = (0..n).map(|_| random(&mut rng)).collect();
    let v = sigma_value_table_mle_eval(&point, alpha, &sigmoid_lower);
    let alpha2 = alpha.add(Fr::from_u64(1));
    let v2 = sigma_value_table_mle_eval(&point, alpha2, &sigmoid_lower);
    assert_ne!(v, v2);
}

#[test]
fn pow2_fr_matches_naive() {
    for k in 0..=30usize {
        let v = pow2_fr(k);
        let naive: Fr = (0..k).fold(Fr::from_u64(1), |acc, _| acc.mul(Fr::from_u64(2)));
        assert_eq!(v, naive, "k={k}");
    }
}

/// Without a commitment to the multiplicities before the challenge, a prover
/// can pick them so that the fractions cancel for a witness outside the table.
#[test]
fn forge_test_unbound_multiplicity_gap() {
    let canonical_t: Vec<Fr> = (0..4u64).map(Fr::from_u64).collect();
    let witness: Vec<Fr> = vec![
        Fr::from_u64(0),
        Fr::from_u64(1),
        Fr::from_u64(2),
        Fr::from_u64(5),
    ];

    let mut sponge = <Transcript as CryptographicSponge>::new(&b"forge-mult".as_slice());
    absorb_u64(&mut sponge, witness.len() as u64);
    absorb_u64(&mut sponge, canonical_t.len() as u64);
    let beta = squeeze_one(&mut sponge);
    absorb_fr(&mut sponge, beta);

    let lookup_sum: ArkFr = witness
        .iter()
        .map(|w| to_ark(w.sub(beta)).inverse().unwrap())
        .sum();
    let fake_m_0 = canonical_t[0].sub(beta).mul(from_ark(lookup_sum));
    let fake_m: Vec<Fr> =
        vec![fake_m_0, Fr::from_u64(0), Fr::from_u64(0), Fr::from_u64(0)];

    let lookup_circuit = LogUpCircuit::lookup(&witness, beta).unwrap();
    let table_circuit = LogUpCircuit::table(&canonical_t, &fake_m, beta).unwrap();
    let lookup_proof = prove_circuit(&lookup_circuit, &mut sponge).unwrap();
    let table_proof = prove_circuit(&table_circuit, &mut sponge).unwrap();
    let lookup_top = top_halves(&lookup_circuit);
    let table_top = top_halves(&table_circuit);

    let mut v_sponge = <Transcript as CryptographicSponge>::new(&b"forge-mult".as_slice());
    absorb_u64(&mut v_sponge, witness.len() as u64);
    absorb_u64(&mut v_sponge, canonical_t.len() as u64);
    let beta_check = squeeze_one(&mut v_sponge);
    assert_eq!(beta, beta_check);
    absorb_fr(&mut v_sponge, beta);

    let num = |t: &[Fr; 4]| t[0].mul(t[3]).add(t[1].mul(t[2]));
    let den = |t: &[Fr; 4]| t[2].mul(t[3]);
    verify_circuit_with_top(
        &lookup_proof,
        lookup_circuit.num_vars(),
        lookup_top,
        num(&lookup_top),
        &mut v_sponge,
    )
    .expect("lookup GKR consistency holds");
    verify_circuit_with_top(
        &table_proof,
        table_circuit.num_vars(),
        table_top,
        num(&table_top),
        &mut v_sponge,
    )
    .expect("table GKR consistency holds");

    let combined = num(&lookup_top)
        .mul(den(&table_top))
        .add(den(&lookup_top).mul(num(&table_top)));
    assert_eq!(combined, Fr::from_u64(0), "the fractions cancel at this challenge");

    let canonical_t_mle = pos_range_mle_eval(&table_proof.bottom_point);
    assert_eq!(
        table_proof.bottom_denom,
        canonical_t_mle.sub(beta),
        "the table is the canonical one"
    );
    let forged_m_mle = ground_truth_mle_be(&fake_m, &table_proof.bottom_point);
    assert_eq!(
        table_proof.bottom_num, forged_m_mle,
        "bottom_num is the value of the forged multiplicities"
    );
}

/// A forged table, equal to the witness, is consistent in itself but not with
/// the canonical table's closed form.
#[test]
fn canonical_binding_rejects_forged_table() {
    let witness: Vec<Fr> = vec![
        Fr::from_u64(7),
        Fr::from_u64(11),
        Fr::from_u64(13),
        Fr::from_u64(17),
    ];
    let mut prover_sponge =
        <Transcript as CryptographicSponge>::new(&b"forged-table-test".as_slice());
    absorb_u64(&mut prover_sponge, witness.len() as u64);
    absorb_u64(&mut prover_sponge, witness.len() as u64);
    let alpha = squeeze_one(&mut prover_sponge);
    absorb_fr(&mut prover_sponge, alpha);

    let lookup_circuit = LogUpCircuit::lookup(&witness, alpha).unwrap();
    let forged_table = witness.clone();
    let mults: Vec<Fr> = vec![Fr::from_u64(1); witness.len()];
    let table_circuit = LogUpCircuit::table(&forged_table, &mults, alpha).unwrap();
    let _lookup_proof = prove_circuit(&lookup_circuit, &mut prover_sponge).unwrap();
    let table_proof = prove_circuit(&table_circuit, &mut prover_sponge).unwrap();

    let mut verifier_sponge =
        <Transcript as CryptographicSponge>::new(&b"forged-table-test".as_slice());
    absorb_u64(&mut verifier_sponge, witness.len() as u64);
    absorb_u64(&mut verifier_sponge, witness.len() as u64);
    let alpha_check = squeeze_one(&mut verifier_sponge);
    assert_eq!(alpha, alpha_check);

    let canonical_t_mle = signed_centered_range_mle_eval(&table_proof.bottom_point);
    assert_ne!(
        table_proof.bottom_denom,
        canonical_t_mle.sub(alpha),
        "forged table's bottom_denom unexpectedly equals the canonical one"
    );
    let forged_table_mle_eval = ground_truth_mle_be(&forged_table, &table_proof.bottom_point);
    assert_eq!(
        table_proof.bottom_denom,
        forged_table_mle_eval.sub(alpha),
        "bottom_denom is the value of the forged table"
    );
}
