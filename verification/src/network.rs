//! The shape of a network: its layers and their activation functions.

use vstd::prelude::*;

verus! {

/// An activation function.
#[derive(Clone, Copy, Debug, PartialEq, Eq, Structural)]
pub enum ActivationKind {
    ReLU,
    Sigmoid,
    Tanh,
}

/// The public shape of a layer.
#[derive(Clone, Copy, Debug, PartialEq, Eq, Structural)]
pub enum LayerShape {
    Linear { in_dim: usize, out_dim: usize },
    Activation { kind: ActivationKind },
}

/// The public shape of a network, from its input to its output.
#[derive(Clone, Debug)]
pub struct NetworkArchitecture {
    pub layers: Vec<LayerShape>,
}

/// The width of the output of the first `k` layers: that of the last linear
/// layer among them.
pub open spec fn width_after(layers: Seq<LayerShape>, k: nat) -> nat
    decreases k,
{
    if k == 0 {
        0
    } else {
        match layers[k - 1] {
            LayerShape::Linear { in_dim, out_dim } => out_dim as nat,
            LayerShape::Activation { .. } => width_after(layers, (k - 1) as nat),
        }
    }
}

/// The shape of an output property `C y + d`: a row to a bound, a column to an
/// output.
#[derive(Clone, Copy, Debug, PartialEq, Eq, Structural)]
pub struct Property {
    pub rows: usize,
    pub cols: usize,
}

impl NetworkArchitecture {
    /// The layers, from input to output.
    pub fn layers(&self) -> (r: &Vec<LayerShape>)
        ensures
            *r == self.layers,
    {
        &self.layers
    }

    /// The layers up to and with a given one.
    pub fn truncate_to(&self, target: usize) -> (r: NetworkArchitecture)
        requires
            target < self.layers@.len(),
        ensures
            r.layers@ == self.layers@.take(target + 1),
    {
        let mut layers: Vec<LayerShape> = Vec::with_capacity(target);
        let mut i: usize = 0;
        let n: usize = self.layers.len();
        while i <= target
            invariant
                i <= target + 1,
                target < n,
                n == self.layers@.len(),
                layers@ == self.layers@.take(i as int),
            decreases target + 1 - i,
        {
            layers.push(self.layers[i]);
            i += 1;
            assert(self.layers@.take(i as int) =~= self.layers@.take(i - 1).push(
                self.layers@[i - 1],
            ));
        }
        NetworkArchitecture { layers }
    }

    /// The width of the output.
    pub open spec fn spec_output_dim(&self) -> nat {
        width_after(self.layers@, self.layers@.len())
    }

    /// The width of the output: that of the last linear layer.
    pub fn output_dim(&self) -> (r: usize)
        ensures
            r == self.spec_output_dim(),
    {
        let mut k: usize = self.layers.len();
        while k > 0
            invariant
                k <= self.layers@.len(),
                width_after(self.layers@, self.layers@.len()) == width_after(
                    self.layers@,
                    k as nat,
                ),
            decreases k,
        {
            match self.layers[k - 1] {
                LayerShape::Linear { in_dim: _, out_dim } => {
                    return out_dim;
                },
                LayerShape::Activation { kind: _ } => {},
            }
            k -= 1;
        }
        0
    }
}

} // verus!
