//! The field and the transcript, against the outside implementations.

use ark_bn254::Fr as ArkFr;
use ark_crypto_primitives::sponge::merlin::Transcript;
use ark_crypto_primitives::sponge::CryptographicSponge;
use ark_ff::{BigInt, PrimeField};
use ark_serialize::CanonicalSerialize;
use ark_std::{test_rng, UniformRand};
use crown_snark::field::{fr_to_signed_i128, signed_lift_to_fr, Fr};
use crown_snark::mle::{
    build_eq_table, build_eq_table_tiled, eval_eq, eval_multilinear_full, next_pow2_log,
    partial_eval_lsb, partial_eval_msb, tile_j_along_i,
};
use crown_snark::qarray::{
    mle_table_from_matrix, mle_table_from_vector, pad_matrix_evals_2d, pad_matrix_native,
    pad_vector_evals_1d, pad_vector_native, CodeMatrix, CodeVector, QArray1, QArray2,
};
use crown_snark::scale::Scale;
use crown_snark::transcript::{absorb_bytes, absorb_fr, absorb_u64, squeeze, squeeze_one};

fn to_ark(x: Fr) -> ArkFr {
    ArkFr::from_bigint(BigInt::new(x.to_limbs())).unwrap()
}

fn from_ark(x: ArkFr) -> Fr {
    Fr::from_limbs(x.into_bigint().0).unwrap()
}

#[test]
fn arithmetic_is_that_of_the_scalar_field() {
    let mut rng = test_rng();
    for _ in 0..50 {
        let (a, b) = (ArkFr::rand(&mut rng), ArkFr::rand(&mut rng));
        let (x, y) = (from_ark(a), from_ark(b));
        assert_eq!(to_ark(x.add(y)), a + b);
        assert_eq!(to_ark(x.sub(y)), a - b);
        assert_eq!(to_ark(x.mul(y)), a * b);
        assert_eq!(to_ark(x.negate()), -a);
        let mut bytes = Vec::new();
        a.serialize_compressed(&mut bytes).unwrap();
        assert_eq!(x.to_bytes(), bytes);
    }
}

#[test]
fn limbs_past_the_modulus_are_refused() {
    let m = ArkFr::MODULUS.0;
    assert!(Fr::from_limbs(m).is_none());
    let mut below = m;
    below[0] -= 1;
    assert_eq!(Fr::from_limbs(below).unwrap().add(Fr::from_u64(1)), Fr::from_u64(0));
    assert!(Fr::from_limbs([u64::MAX; 4]).is_none());
}

#[test]
fn signed_codes_survive_the_field() {
    for v in [0, 1, -1, 1 << 100, -(1 << 100), i128::MAX, i128::MIN] {
        assert_eq!(fr_to_signed_i128(signed_lift_to_fr(v)), Some(v));
    }
    assert_eq!(signed_lift_to_fr(-5).add(Fr::from_u64(5)), Fr::from_u64(0));
    let big = Fr::from_limbs([0, 0, 1, 0]).unwrap();
    assert_eq!(fr_to_signed_i128(big), None);
}

#[test]
fn the_transcript_is_the_merlin_sponge() {
    let mut ours = <Transcript as CryptographicSponge>::new(&b"label".as_slice());
    let mut theirs = <Transcript as CryptographicSponge>::new(&b"label".as_slice());
    absorb_u64(&mut ours, 77);
    theirs.absorb(&77u64);
    absorb_bytes(&mut ours, &[1, 2, 3]);
    theirs.absorb(&vec![1u8, 2, 3]);
    let x = Fr::from_u64(123456789);
    absorb_fr(&mut ours, x);
    theirs.absorb(&to_ark(x));
    assert_eq!(to_ark(squeeze_one(&mut ours)), theirs.squeeze_field_elements::<ArkFr>(1)[0]);
    let many: Vec<ArkFr> = squeeze(&mut ours, 5).into_iter().map(to_ark).collect();
    assert_eq!(many, theirs.squeeze_field_elements::<ArkFr>(5));
    let before = squeeze_one(&mut ours);
    assert_ne!(before, squeeze_one(&mut ours));
}

fn numbers(v: &[i128]) -> Vec<Fr> {
    v.iter().map(|x| signed_lift_to_fr(*x)).collect()
}

#[test]
fn extensions_interpolate_their_tables() {
    let t = numbers(&[3, 5, 7, 11]);
    let (zero, one) = (Fr::from_u64(0), Fr::from_u64(1));
    assert_eq!(eval_multilinear_full(&t, &[zero, zero]), t[0]);
    assert_eq!(eval_multilinear_full(&t, &[zero, one]), t[1]);
    assert_eq!(eval_multilinear_full(&t, &[one, zero]), t[2]);
    // f(x, y) = 3 + 4x + 2y + 2xy
    let (x, y) = (Fr::from_u64(2), Fr::from_u64(3));
    assert_eq!(eval_multilinear_full(&t, &[x, y]), Fr::from_u64(29));
    assert_eq!(partial_eval_msb(&t, &[x]), numbers(&[11, 17]));
    assert_eq!(partial_eval_lsb(&t, &[y], 1), numbers(&[9, 19]));
    assert_eq!(
        eval_multilinear_full(&partial_eval_msb(&t, &[x]), &[y]),
        eval_multilinear_full(&t, &crown_snark::mle::concat(&[x], &[y]))
    );
    assert_eq!(
        eval_multilinear_full(&partial_eval_lsb(&t, &[y], 1), &[x]),
        eval_multilinear_full(&t, &crown_snark::mle::concat(&[x], &[y]))
    );
}

#[test]
fn equality_tables_weigh_the_entries() {
    let (x, y) = (Fr::from_u64(2), Fr::from_u64(3));
    // (1-x)(1-y), (1-x)y, x(1-y), xy
    assert_eq!(build_eq_table(&[x, y]), numbers(&[2, -3, -4, 6]));
    assert_eq!(build_eq_table_tiled(&[x], 1, 1), numbers(&[-1, -1, 2, 2]));
    assert_eq!(tile_j_along_i(&numbers(&[4, 5]), 1, 1), numbers(&[4, 5, 4, 5]));
    // xy + (1-x)(1-y)
    assert_eq!(eval_eq(&[x], &[y]), Fr::from_u64(8));
    assert_eq!(eval_eq(&[x, y], &[y, x]), eval_eq(&[y, x], &[x, y]));
    assert_eq!(eval_multilinear_full(&build_eq_table(&[x]), &[y]), eval_eq(&[x], &[y]));
    assert_eq!(next_pow2_log(0), 0);
    assert_eq!(next_pow2_log(1), 0);
    assert_eq!(next_pow2_log(5), 3);
    assert_eq!(next_pow2_log(8), 3);
}

#[test]
fn arrays_are_padded_row_by_row() {
    let scale = Scale::from_pow2(0);
    let m = CodeMatrix::from_shape_vec(2, 3, vec![1, 2, 3, -4, 5, 6]).unwrap();
    assert_eq!((m.nrows(), m.ncols(), m.get(1, 0)), (2, 3, -4));
    assert!(CodeMatrix::from_shape_vec(2, 3, vec![1, 2]).is_none());
    let (table, n_vars, logs) = pad_matrix_native(&m);
    assert_eq!((n_vars, logs), (4, (1, 2)));
    assert_eq!(table[..8], numbers(&[1, 2, 3, 0, -4, 5, 6, 0])[..]);
    assert_eq!(table[8..], numbers(&[0; 8])[..]);
    let q = QArray2 { codes: m, scale };
    assert_eq!(mle_table_from_matrix(&q).0, numbers(&[1, 2, 3, 0, -4, 5, 6, 0]));
    assert_eq!(pad_matrix_evals_2d(&q).1, 3);
    let v = CodeVector::from_vec(vec![9, -8, 7]);
    assert_eq!(v.to_vec(), vec![9, -8, 7]);
    assert_eq!(v.minus(&CodeVector::from_vec(vec![1, 1, 1])).to_vec(), vec![8, -9, 6]);
    assert_eq!(v.minus(&CodeVector::from_vec(vec![2])).to_vec(), vec![7, -10, 5]);
    assert_eq!(CodeVector::from_vec(vec![2]).minus(&v).to_vec(), vec![-7, 10, -5]);
    let q = QArray1 { codes: v, scale };
    assert_eq!(mle_table_from_vector(&q), numbers(&[9, -8, 7, 0]));
    assert_eq!(pad_vector_evals_1d(&q).1, 2);
    assert_eq!(pad_vector_native(&[1]).1, 2);
    assert_eq!(pad_vector_native(&[1]).0, numbers(&[1, 0, 0, 0]));
}
