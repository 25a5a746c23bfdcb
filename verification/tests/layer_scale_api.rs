//! Access to the scales of the layers.

use crown_snark::errors::SnarkError;
use crown_snark::layer_scale_api::{
    LayerScaleAccessor, LayerScalesCommit, ScaleClass, SCALE_E_ABS_BOUND,
};

fn empty_n(n: usize) -> LayerScalesCommit {
    LayerScalesCommit {
        weight_c: vec![1; n],
        weight_e: vec![0; n],
        bias_c: vec![1; n],
        bias_e: vec![0; n],
        relax_d_c: vec![1; n],
        relax_d_e: vec![0; n],
        relax_b_c: vec![1; n],
        relax_b_e: vec![0; n],
    }
}

#[test]
fn accessor_returns_scale_for_valid_inputs() {
    let inner = empty_n(3);
    let acc = LayerScaleAccessor::new(&inner).unwrap();
    let s = acc.weight_scale(2).unwrap();
    assert_eq!(s.c, 1);
    assert_eq!(s.e, 0);
}

#[test]
fn accessor_rejects_out_of_range_exponent() {
    let mut inner = empty_n(3);
    inner.relax_d_e[1] = SCALE_E_ABS_BOUND + 1;
    let r = LayerScaleAccessor::new(&inner);
    assert!(matches!(r, Err(SnarkError::ArchitectureMismatch { .. })));
}

#[test]
fn accessor_rejects_negative_out_of_range_exponent() {
    let mut inner = empty_n(2);
    inner.bias_e[0] = -(SCALE_E_ABS_BOUND + 1);
    let r = LayerScaleAccessor::new(&inner);
    assert!(matches!(r, Err(SnarkError::ArchitectureMismatch { .. })));
}

#[test]
fn accessor_rejects_out_of_bounds_layer_idx() {
    let inner = empty_n(2);
    let acc = LayerScaleAccessor::new(&inner).unwrap();
    let r = acc.weight_scale(5);
    assert!(matches!(r, Err(SnarkError::ArchitectureMismatch { .. })));
}

#[test]
fn accessor_rejects_e_class_in_scale_for() {
    let inner = empty_n(2);
    let acc = LayerScaleAccessor::new(&inner).unwrap();
    let r = acc.scale_for(ScaleClass::WeightE, 0);
    assert!(matches!(r, Err(SnarkError::ArchitectureMismatch { .. })));
}

#[test]
fn accessor_rejects_mismatched_vec_lengths() {
    let mut inner = empty_n(3);
    inner.weight_c.push(0);
    let r = LayerScaleAccessor::new(&inner);
    assert!(matches!(r, Err(SnarkError::ArchitectureMismatch { .. })));
}

#[test]
fn every_class_has_its_own_scale() {
    let mut inner = empty_n(2);
    inner.bias_e[1] = 3;
    inner.relax_d_e[1] = -4;
    inner.relax_b_e[1] = 5;
    inner.relax_b_c[1] = 7;
    let acc = LayerScaleAccessor::new(&inner).unwrap();
    assert_eq!(acc.bias_scale(1).unwrap().e, 3);
    assert_eq!(acc.relax_d_scale(1).unwrap().e, -4);
    assert_eq!(acc.relax_b_scale(1).unwrap().e, 5);
    assert_eq!(acc.relax_b_scale(1).unwrap().c, 7);
}
