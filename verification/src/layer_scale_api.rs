//! Typed access to the per-layer scales of a proof.

use crate::errors::SnarkError;
use crate::scale::Scale;
use vstd::prelude::*;

verus! {

/// The largest size of a scale's exponent. Honest networks stay well below it,
/// and no shift by such an exponent is out of range.
pub const SCALE_E_ABS_BOUND: i32 = 100;

/// Which number of which tensor's scale is meant.
#[derive(Clone, Copy, Debug, PartialEq, Eq, Structural)]
pub enum ScaleClass {
    WeightC,
    WeightE,
    BiasC,
    BiasE,
    RelaxDC,
    RelaxDE,
    RelaxBC,
    RelaxBE,
}

/// The scales `c 2^e` of every layer's weights, biases and relaxation lines.
#[derive(Clone, Debug)]
pub struct LayerScalesCommit {
    pub weight_c: Vec<i64>,
    pub weight_e: Vec<i32>,
    pub bias_c: Vec<i64>,
    pub bias_e: Vec<i32>,
    pub relax_d_c: Vec<i64>,
    pub relax_d_e: Vec<i32>,
    pub relax_b_c: Vec<i64>,
    pub relax_b_e: Vec<i32>,
}

/// Whether every list has an entry for each of `n` layers and no more.
pub open spec fn scales_sized(c: LayerScalesCommit, n: nat) -> bool {
    &&& c.weight_c@.len() == n
    &&& c.weight_e@.len() == n
    &&& c.bias_c@.len() == n
    &&& c.bias_e@.len() == n
    &&& c.relax_d_c@.len() == n
    &&& c.relax_d_e@.len() == n
    &&& c.relax_b_c@.len() == n
    &&& c.relax_b_e@.len() == n
}

/// Whether every exponent is in range.
pub open spec fn exponents_in_range(e: Seq<i32>) -> bool {
    forall|i: int| 0 <= i < e.len() ==> -100 <= #[trigger] e[i] <= 100
}

/// Whether every exponent of every list is in range.
pub open spec fn scales_in_range(c: LayerScalesCommit) -> bool {
    &&& exponents_in_range(c.weight_e@)
    &&& exponents_in_range(c.bias_e@)
    &&& exponents_in_range(c.relax_d_e@)
    &&& exponents_in_range(c.relax_b_e@)
}

/// Whether every exponent is in range.
fn check_exponents(e: &Vec<i32>) -> (r: bool)
    ensures
        r == exponents_in_range(e@),
{
    let mut i: usize = 0;
    while i < e.len()
        invariant
            i <= e@.len(),
            forall|k: int| 0 <= k < i ==> -100 <= #[trigger] e@[k] <= 100,
        decreases e@.len() - i,
    {
        if e[i] > SCALE_E_ABS_BOUND || e[i] < -SCALE_E_ABS_BOUND {
            assert(!(-100 <= e@[i as int] <= 100));
            return false;
        }
        i += 1;
    }
    true
}

/// Access to scales that were checked once.
pub struct LayerScaleAccessor<'a> {
    inner: &'a LayerScalesCommit,
    n_layers: usize,
}

impl<'a> LayerScaleAccessor<'a> {
    #[verifier::type_invariant]
    spec fn inv(&self) -> bool {
        scales_sized(*self.inner, self.n_layers as nat) && scales_in_range(*self.inner)
    }

    /// The scales that the accessor gives access to.
    pub closed spec fn scales(&self) -> LayerScalesCommit {
        *self.inner
    }

    /// Check the scales: every list has the same length, and every exponent is
    /// in range.
    pub fn new(inner: &'a LayerScalesCommit) -> (r: Result<LayerScaleAccessor<'a>, SnarkError>)
        ensures
            match r {
                Ok(acc) => {
                    &&& scales_sized(*inner, inner.weight_c@.len())
                    &&& scales_in_range(*inner)
                    &&& acc.scales() == *inner
                },
                Err(e) => if scales_sized(*inner, inner.weight_c@.len()) {
                    !scales_in_range(*inner) && e == (SnarkError::ArchitectureMismatch {
                        what: "LayerScaleAccessor: scale exponent out of the |e| ≤ SCALE_E_ABS_BOUND range",
                    })
                } else {
                    e == (SnarkError::ArchitectureMismatch {
                        what: "LayerScaleAccessor: per-class Vec length mismatch",
                    })
                },
            },
    {
        let n_layers: usize = inner.weight_c.len();
        if inner.weight_e.len() != n_layers || inner.bias_c.len() != n_layers
            || inner.bias_e.len() != n_layers || inner.relax_d_c.len() != n_layers
            || inner.relax_d_e.len() != n_layers || inner.relax_b_c.len() != n_layers
            || inner.relax_b_e.len() != n_layers {
            return Err(
                SnarkError::ArchitectureMismatch {
                    what: "LayerScaleAccessor: per-class Vec length mismatch",
                },
            );
        }
        if !check_exponents(&inner.weight_e) || !check_exponents(&inner.bias_e)
            || !check_exponents(&inner.relax_d_e) || !check_exponents(&inner.relax_b_e) {
            return Err(
                SnarkError::ArchitectureMismatch {
                    what: "LayerScaleAccessor: scale exponent out of the |e| ≤ SCALE_E_ABS_BOUND range",
                },
            );
        }
        Ok(LayerScaleAccessor { inner, n_layers })
    }

    /// The number of layers.
    pub fn n_layers(&self) -> (r: usize)
        ensures
            r == self.scales().weight_c@.len(),
            scales_sized(self.scales(), r as nat),
    {
        proof {
            use_type_invariant(self);
        }
        self.n_layers
    }

    /// The scale of a tensor class at a layer. Only the classes that name a
    /// scale's first number are accepted.
    pub fn scale_for(&self, class: ScaleClass, layer_idx: usize) -> (r: Result<Scale, SnarkError>)
        ensures
            r == scale_at(self.scales(), class, layer_idx as int),
            r matches Ok(s) ==> -100 <= s.e <= 100,
    {
        proof {
            use_type_invariant(self);
        }
        if layer_idx >= self.n_layers {
            return Err(
                SnarkError::ArchitectureMismatch {
                    what: "LayerScaleAccessor::scale_for: layer_idx out of bounds",
                },
            );
        }
        let (c, e): (i64, i32) = match class {
            ScaleClass::WeightC => (self.inner.weight_c[layer_idx], self.inner.weight_e[layer_idx]),
            ScaleClass::BiasC => (self.inner.bias_c[layer_idx], self.inner.bias_e[layer_idx]),
            ScaleClass::RelaxDC => (
                self.inner.relax_d_c[layer_idx],
                self.inner.relax_d_e[layer_idx],
            ),
            ScaleClass::RelaxBC => (
                self.inner.relax_b_c[layer_idx],
                self.inner.relax_b_e[layer_idx],
            ),
            ScaleClass::WeightE => {
                return Err(
                    SnarkError::ArchitectureMismatch {
                        what: "LayerScaleAccessor::scale_for: pass a 'C' class (e.g. WeightC); the 'E' classes are auxiliary indices",
                    },
                );
            },
            _ => {
                return Err(
                    SnarkError::ArchitectureMismatch {
                        what: "LayerScaleAccessor::scale_for: pass a 'C' class",
                    },
                );
            },
        };
        Ok(Scale { c, e })
    }

    /// The scale of a layer's weights.
    pub fn weight_scale(&self, layer_idx: usize) -> (r: Result<Scale, SnarkError>)
        ensures
            r == scale_at(self.scales(), ScaleClass::WeightC, layer_idx as int),
            r matches Ok(s) ==> -100 <= s.e <= 100,
    {
        self.scale_for(ScaleClass::WeightC, layer_idx)
    }

    /// The scale of a layer's biases.
    pub fn bias_scale(&self, layer_idx: usize) -> (r: Result<Scale, SnarkError>)
        ensures
            r == scale_at(self.scales(), ScaleClass::BiasC, layer_idx as int),
            r matches Ok(s) ==> -100 <= s.e <= 100,
    {
        self.scale_for(ScaleClass::BiasC, layer_idx)
    }

    /// The scale of a layer's relaxation slopes.
    pub fn relax_d_scale(&self, layer_idx: usize) -> (r: Result<Scale, SnarkError>)
        ensures
            r == scale_at(self.scales(), ScaleClass::RelaxDC, layer_idx as int),
            r matches Ok(s) ==> -100 <= s.e <= 100,
    {
        self.scale_for(ScaleClass::RelaxDC, layer_idx)
    }

    /// The scale of a layer's relaxation offsets.
    pub fn relax_b_scale(&self, layer_idx: usize) -> (r: Result<Scale, SnarkError>)
        ensures
            r == scale_at(self.scales(), ScaleClass::RelaxBC, layer_idx as int),
            r matches Ok(s) ==> -100 <= s.e <= 100,
    {
        self.scale_for(ScaleClass::RelaxBC, layer_idx)
    }
}

/// The scale of a tensor class at a layer, or the reason why there is none.
pub open spec fn scale_at(c: LayerScalesCommit, class: ScaleClass, i: int) -> Result<
    Scale,
    SnarkError,
> {
    if i >= c.weight_c@.len() {
        Err(
            SnarkError::ArchitectureMismatch {
                what: "LayerScaleAccessor::scale_for: layer_idx out of bounds",
            },
        )
    } else {
        match class {
            ScaleClass::WeightC => Ok(Scale { c: c.weight_c@[i], e: c.weight_e@[i] }),
            ScaleClass::BiasC => Ok(Scale { c: c.bias_c@[i], e: c.bias_e@[i] }),
            ScaleClass::RelaxDC => Ok(Scale { c: c.relax_d_c@[i], e: c.relax_d_e@[i] }),
            ScaleClass::RelaxBC => Ok(Scale { c: c.relax_b_c@[i], e: c.relax_b_e@[i] }),
            ScaleClass::WeightE => Err(
                SnarkError::ArchitectureMismatch {
                    what: "LayerScaleAccessor::scale_for: pass a 'C' class (e.g. WeightC); the 'E' classes are auxiliary indices",
                },
            ),
            _ => Err(
                SnarkError::ArchitectureMismatch {
                    what: "LayerScaleAccessor::scale_for: pass a 'C' class",
                },
            ),
        }
    }
}

} // verus!
