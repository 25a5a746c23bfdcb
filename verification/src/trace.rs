//! What a prover records of a backward pass.

use crate::qarray::{QArray1, QArray2};
use vstd::prelude::*;

verus! {

/// A bound's direction.
#[derive(Clone, Copy, Debug, PartialEq, Eq, Structural)]
pub enum BoundDir {
    Lower,
    Upper,
}

/// One step through a linear layer.
pub struct LinearStepTrace {
    pub layer_idx: usize,
    /// The coefficients before and after the step.
    pub a_old: QArray2,
    pub a_new: QArray2,
    /// The accumulated bias before and after the step.
    pub b_acc_old: QArray1,
    pub b_acc_new: QArray1,
    /// The products `A W` and `A b` before they are rescaled.
    pub a_w: QArray2,
    pub a_b: QArray1,
}

/// One step through an activation layer.
pub struct ActivationStepTrace {
    pub layer_idx: usize,
    /// The coefficients before and after the step.
    pub a_old: QArray2,
    pub a_new: QArray2,
    /// The accumulated bias before and after the step.
    pub b_acc_old: QArray1,
    pub b_acc_new: QArray1,
    /// The sign of each coefficient.
    pub selectors: QArray2,
    /// `ReLU` of the coefficients before the step.
    pub a_pos: QArray2,
    /// The coefficients times the picked slopes, before they are rescaled.
    pub a_d_doubled: QArray2,
    /// The bias that the picked offsets add, before it is rescaled.
    pub bias_delta_doubled: QArray1,
}

/// The last step, over the input box.
pub struct ConcretizeTrace {
    pub a_final: QArray2,
    pub a_pos: QArray2,
    pub selectors: QArray2,
    pub target_doubled: QArray1,
    pub final_target: QArray1,
    pub b_acc_final: QArray1,
}

/// The record of a whole pass.
pub struct BackwardTrace {
    pub linear_steps: Vec<LinearStepTrace>,
    pub activation_steps: Vec<ActivationStepTrace>,
    pub concretize: Option<ConcretizeTrace>,
}

} // verus!
