//! The quantized certificate of a network's bounds.

use crate::qarray::{QArray1, QArray2};
use crate::scale::Scale;
use vstd::prelude::*;

verus! {

/// The relaxation lines of an activation layer, one entry to a neuron.
pub struct QuantRelaxation {
    pub d_lower: QArray1,
    pub d_upper: QArray1,
    pub b_lower: QArray1,
    pub b_upper: QArray1,
}

/// The scales that the whole certificate shares.
#[derive(Clone, Copy, Debug, PartialEq, Eq, Structural)]
pub struct CertScales {
    /// The scale of preactivations.
    pub working: Scale,
}

/// A quantized certificate: the network, the input box, the property, the
/// relaxations, and the bounds of every preactivation.
pub struct QuantCert {
    /// One per layer; none for activation layers.
    pub weights: Vec<Option<QArray2>>,
    pub biases: Vec<Option<QArray1>>,
    /// One per layer; none for linear layers.
    pub relaxations: Vec<Option<QuantRelaxation>>,
    /// Bounds of the outputs of each linear layer.
    pub preact_lower: Vec<Option<QArray1>>,
    pub preact_upper: Vec<Option<QArray1>>,
    pub x_lower: QArray1,
    pub x_upper: QArray1,
    pub spec_c: QArray2,
    pub spec_d: QArray1,
    pub target_lower: Option<QArray1>,
    pub target_upper: Option<QArray1>,
    pub scales: CertScales,
}

} // verus!
