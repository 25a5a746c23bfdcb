//! The shapes that a verifier derives from the public architecture, and the
//! checks that a proof's claimed shapes are those.

use crate::commit::PassCommitments;
use crate::errors::{SnarkError, and_also, holds};
use crate::mle::{ceil_log2, next_pow2_log};
use crate::network::{LayerShape, NetworkArchitecture, Property, width_after};
use crate::pcs::MlPcs;
use crate::poly::lin;
use crate::shapes::{native_vector_n_vars, vector_vars};
use vstd::prelude::*;

verus! {

/// The width of the coefficient matrix before the layers from `idx` on are
/// taken back, counted from the output: the input width of the first linear
/// layer at or after `idx`, or the output width where there is none.
pub open spec fn cols_at(layers: Seq<LayerShape>, idx: nat) -> nat
    decreases layers.len() - idx,
{
    if idx >= layers.len() {
        width_after(layers, layers.len())
    } else {
        match layers[idx as int] {
            LayerShape::Linear { in_dim, out_dim } => in_dim as nat,
            LayerShape::Activation { .. } => cols_at(layers, idx + 1),
        }
    }
}

/// The widths of the whole chain of coefficient matrices.
pub fn chain_a_cols(arch: &NetworkArchitecture) -> (r: Vec<usize>)
    requires
        arch.layers@.len() < usize::MAX,
    ensures
        r@.len() == arch.layers@.len() + 1,
        forall|i: int| 0 <= i < r@.len() ==> #[trigger] r@[i] == cols_at(arch.layers@, i as nat),
{
    let n_layers: usize = arch.layers.len();
    let mut out: Vec<usize> = vec![0usize; n_layers + 1];
    let mut a_cols: usize = arch.output_dim();
    out.set(n_layers, a_cols);
    let mut i: usize = n_layers;
    while i > 0
        invariant
            i <= n_layers,
            n_layers == arch.layers@.len(),
            out@.len() == n_layers + 1,
            a_cols == cols_at(arch.layers@, i as nat),
            forall|k: int|
                i <= k <= n_layers ==> #[trigger] out@[k] == cols_at(arch.layers@, k as nat),
        decreases i,
    {
        i -= 1;
        match arch.layers[i] {
            LayerShape::Linear { in_dim, out_dim: _ } => {
                a_cols = in_dim;
            },
            LayerShape::Activation { kind: _ } => {},
        }
        out.set(i, a_cols);
    }
    out
}

/// The number of neurons of the activation layer `layer_idx`.
pub fn activation_neuron_count(arch: &NetworkArchitecture, layer_idx: usize) -> (r: usize)
    requires
        arch.layers@.len() < usize::MAX,
        layer_idx < arch.layers@.len(),
    ensures
        r == cols_at(arch.layers@, (layer_idx + 1) as nat),
{
    let cols: Vec<usize> = chain_a_cols(arch);
    cols[layer_idx + 1]
}

/// The number of variables that the relaxation vectors of an activation layer
/// are committed with.
pub fn relaxation_n_vars(arch: &NetworkArchitecture, layer_idx: usize) -> (r: usize)
    requires
        arch.layers@.len() < usize::MAX,
        layer_idx < arch.layers@.len(),
        cols_at(arch.layers@, (layer_idx + 1) as nat) <= usize::MAX / 2 + 1,
    ensures
        r == vector_vars(cols_at(arch.layers@, (layer_idx + 1) as nat)),
        r <= 64,
{
    native_vector_n_vars(activation_neuron_count(arch, layer_idx))
}

/// The indices of the linear layers among the first `k`, from the last one
/// down.
pub open spec fn linear_indices(layers: Seq<LayerShape>, k: nat) -> Seq<usize>
    decreases k,
{
    if k == 0 {
        Seq::empty()
    } else {
        let rest = linear_indices(layers, (k - 1) as nat);
        if layers[k - 1] is Linear {
            seq![(k - 1) as usize] + rest
        } else {
            rest
        }
    }
}

/// The indices of the activation layers among the first `k`, from the last
/// one down.
pub open spec fn activation_indices(layers: Seq<LayerShape>, k: nat) -> Seq<usize>
    decreases k,
{
    if k == 0 {
        Seq::empty()
    } else {
        let rest = activation_indices(layers, (k - 1) as nat);
        if layers[k - 1] is Linear {
            rest
        } else {
            seq![(k - 1) as usize] + rest
        }
    }
}

/// The input width of a linear layer.
pub open spec fn input_width(l: LayerShape) -> nat {
    match l {
        LayerShape::Linear { in_dim, out_dim } => in_dim as nat,
        LayerShape::Activation { .. } => 0,
    }
}

/// The output width of a linear layer.
pub open spec fn output_width(l: LayerShape) -> nat {
    match l {
        LayerShape::Linear { in_dim, out_dim } => out_dim as nat,
        LayerShape::Activation { .. } => 0,
    }
}

/// The layer's index, and the logarithms of the axes of the coefficient matrix
/// and of the weights.
pub type LinearShape = (usize, (usize, usize), (usize, usize));

/// The layer's index, and the logarithms of the axes of the coefficient
/// matrix.
pub type ActivationShape = (usize, (usize, usize));

/// The canonical shape of the step at a linear layer.
pub open spec fn linear_shape(layers: Seq<LayerShape>, log_spec: nat, i: usize) -> LinearShape {
    let o = ceil_log2(output_width(layers[i as int])) as usize;
    (i, (log_spec as usize, o), (o, ceil_log2(input_width(layers[i as int])) as usize))
}

/// The canonical shapes of the steps at the linear layers among the first `k`,
/// from the last one down.
pub open spec fn linear_shapes(layers: Seq<LayerShape>, log_spec: nat, k: nat) -> Seq<LinearShape> {
    linear_indices(layers, k).map_values(|i: usize| linear_shape(layers, log_spec, i))
}

/// The canonical shape of the step at an activation layer.
pub open spec fn activation_shape(
    layers: Seq<LayerShape>,
    log_spec: nat,
    i: usize,
) -> ActivationShape {
    (i, (log_spec as usize, ceil_log2(cols_at(layers, (i + 1) as nat)) as usize))
}

/// The canonical shapes of the steps at the activation layers among the first
/// `k`, from the last one down.
pub open spec fn activation_shapes(layers: Seq<LayerShape>, log_spec: nat, k: nat) -> Seq<
    ActivationShape,
> {
    activation_indices(layers, k).map_values(|i: usize| activation_shape(layers, log_spec, i))
}

/// Whether every width of an architecture, and the property's height, has a
/// next power of two.
pub open spec fn widths_fit(layers: Seq<LayerShape>, property: Property) -> bool {
    &&& property.rows <= usize::MAX / 2 + 1
    &&& forall|i: int|
        0 <= i < layers.len() ==> input_width(#[trigger] layers[i]) <= usize::MAX / 2 + 1
            && output_width(layers[i]) <= usize::MAX / 2 + 1
}

/// The widths of the chain are those of the layers.
pub proof fn lemma_cols_fit(layers: Seq<LayerShape>, idx: nat, bound: nat)
    requires
        forall|i: int|
            0 <= i < layers.len() ==> input_width(#[trigger] layers[i]) <= bound && output_width(
                layers[i],
            ) <= bound,
    ensures
        cols_at(layers, idx) <= bound,
    decreases layers.len() - idx,
{
    if idx < layers.len() {
        lemma_cols_fit(layers, idx + 1, bound);
        assert(input_width(layers[idx as int]) <= bound);
    } else {
        lemma_width_fits(layers, layers.len(), bound);
    }
}

proof fn lemma_width_fits(layers: Seq<LayerShape>, k: nat, bound: nat)
    requires
        k <= layers.len(),
        forall|i: int|
            0 <= i < layers.len() ==> input_width(#[trigger] layers[i]) <= bound && output_width(
                layers[i],
            ) <= bound,
    ensures
        width_after(layers, k) <= bound,
    decreases k,
{
    if k > 0 {
        lemma_width_fits(layers, (k - 1) as nat, bound);
        assert(output_width(layers[k - 1]) <= bound);
    }
}

/// The canonical shapes of the linear steps, from the last layer down.
pub fn linear_step_metadata(arch: &NetworkArchitecture, property: &Property) -> (r: Vec<
    LinearShape,
>)
    requires
        widths_fit(arch.layers@, *property),
    ensures
        r@ == linear_shapes(arch.layers@, ceil_log2(property.rows as nat), arch.layers@.len()),
{
    let log_spec: usize = next_pow2_log(property.rows);
    let ghost layers = arch.layers@;
    let ghost all = linear_shapes(layers, log_spec as nat, layers.len());
    let mut out: Vec<LinearShape> = Vec::new();
    let mut i: usize = arch.layers.len();
    assert(out@ + all =~= all);
    while i > 0
        invariant
            i <= arch.layers@.len(),
            layers == arch.layers@,
            widths_fit(arch.layers@, *property),
            log_spec == ceil_log2(property.rows as nat),
            all == linear_shapes(layers, log_spec as nat, layers.len()),
            out@ + linear_shapes(layers, log_spec as nat, i as nat) == all,
        decreases i,
    {
        let ghost before = out@;
        let ghost left = linear_shapes(layers, log_spec as nat, i as nat);
        i -= 1;
        match arch.layers[i] {
            LayerShape::Linear { in_dim, out_dim } => {
                proof {
                    assert(input_width(layers[i as int]) == in_dim);
                }
                let log_out: usize = next_pow2_log(out_dim);
                let log_in: usize = next_pow2_log(in_dim);
                out.push((i, (log_spec, log_out), (log_out, log_in)));
                proof {
                    assert(left =~= seq![linear_shape(layers, log_spec as nat, i)]
                        + linear_shapes(layers, log_spec as nat, i as nat));
                    assert(out@ + linear_shapes(layers, log_spec as nat, i as nat) =~= before + left);
                }
            },
            LayerShape::Activation { kind: _ } => {
                assert(left =~= linear_shapes(layers, log_spec as nat, i as nat));
            },
        }
    }
    assert(linear_shapes(layers, log_spec as nat, 0).len() == 0);
    assert(out@ =~= all);
    out
}

/// The canonical shapes of the activation steps, from the last layer down.
pub fn activation_step_metadata(arch: &NetworkArchitecture, property: &Property) -> (r: Vec<
    ActivationShape,
>)
    requires
        widths_fit(arch.layers@, *property),
    ensures
        r@ == activation_shapes(arch.layers@, ceil_log2(property.rows as nat), arch.layers@.len()),
{
    let log_spec: usize = next_pow2_log(property.rows);
    let ghost layers = arch.layers@;
    let ghost all = activation_shapes(layers, log_spec as nat, layers.len());
    let mut out: Vec<ActivationShape> = Vec::new();
    let mut a_cols: usize = arch.output_dim();
    let mut i: usize = arch.layers.len();
    assert(out@ + all =~= all);
    while i > 0
        invariant
            i <= arch.layers@.len(),
            layers == arch.layers@,
            widths_fit(arch.layers@, *property),
            log_spec == ceil_log2(property.rows as nat),
            a_cols == cols_at(layers, i as nat),
            all == activation_shapes(layers, log_spec as nat, layers.len()),
            out@ + activation_shapes(layers, log_spec as nat, i as nat) == all,
        decreases i,
    {
        let ghost before = out@;
        let ghost left = activation_shapes(layers, log_spec as nat, i as nat);
        i -= 1;
        match arch.layers[i] {
            LayerShape::Linear { in_dim, out_dim: _ } => {
                a_cols = in_dim;
                assert(left =~= activation_shapes(layers, log_spec as nat, i as nat));
            },
            LayerShape::Activation { kind: _ } => {
                proof {
                    lemma_cols_fit(layers, (i + 1) as nat, (usize::MAX / 2 + 1) as nat);
                }
                let log_neur: usize = next_pow2_log(a_cols);
                out.push((i, (log_spec, log_neur)));
                proof {
                    assert(left =~= seq![activation_shape(layers, log_spec as nat, i)]
                        + activation_shapes(layers, log_spec as nat, i as nat));
                    assert(out@ + activation_shapes(layers, log_spec as nat, i as nat) =~= before
                        + left);
                }
            },
        }
    }
    assert(activation_shapes(layers, log_spec as nat, 0).len() == 0);
    assert(out@ =~= all);
    out
}

/// Every layer is a linear or an activation step, and steps are as many as
/// layers.
pub proof fn law_steps_partition(layers: Seq<LayerShape>, k: nat)
    requires
        k <= layers.len() <= usize::MAX,
    ensures
        linear_indices(layers, k).len() + activation_indices(layers, k).len() == k,
        forall|i: usize| #[trigger]
            linear_indices(layers, k).contains(i) <==> i < k && layers[i as int] is Linear,
        forall|i: usize| #[trigger]
            activation_indices(layers, k).contains(i) <==> i < k && !(layers[i as int] is Linear),
    decreases k,
{
    if k > 0 {
        let j = (k - 1) as nat;
        law_steps_partition(layers, j);
        let lin = linear_indices(layers, j);
        let act = activation_indices(layers, j);
        assert forall|i: usize| #[trigger]
            linear_indices(layers, k).contains(i) <==> i < k && layers[i as int] is Linear by {
            assert(lin.contains(i) <==> i < j && layers[i as int] is Linear);
            lemma_contains_after(seq![j as usize], lin, i);
        }
        assert forall|i: usize| #[trigger]
            activation_indices(layers, k).contains(i) <==> i < k && !(layers[i as int]
            is Linear) by {
            assert(act.contains(i) <==> i < j && !(layers[i as int] is Linear));
            lemma_contains_after(seq![j as usize], act, i);
        }
    }
}

proof fn lemma_contains_after(head: Seq<usize>, rest: Seq<usize>, x: usize)
    requires
        head.len() == 1,
    ensures
        (head + rest).contains(x) <==> x == head[0] || rest.contains(x),
{
    let all = head + rest;
    if x == head[0] {
        assert(all[0] == x);
    }
    if rest.contains(x) {
        let k = choose|k: int| 0 <= k < rest.len() && rest[k] == x;
        assert(all[k + 1] == x);
    }
    if all.contains(x) {
        let k = choose|k: int| 0 <= k < all.len() && all[k] == x;
        if k > 0 {
            assert(rest[k - 1] == x);
        }
    }
}

/// The numbers of linear and of activation steps.
pub fn step_counts(arch: &NetworkArchitecture) -> (r: (usize, usize))
    ensures
        r.0 == linear_indices(arch.layers@, arch.layers@.len()).len(),
        r.1 == activation_indices(arch.layers@, arch.layers@.len()).len(),
{
    let mut linear: usize = 0;
    let mut activation: usize = 0;
    let mut i: usize = 0;
    while i < arch.layers.len()
        invariant
            i <= arch.layers@.len(),
            linear == linear_indices(arch.layers@, i as nat).len(),
            activation == activation_indices(arch.layers@, i as nat).len(),
            linear + activation == i,
        decreases arch.layers@.len() - i,
    {
        match arch.layers[i] {
            LayerShape::Linear { in_dim: _, out_dim: _ } => {
                linear += 1;
            },
            LayerShape::Activation { kind: _ } => {
                activation += 1;
            },
        }
        i += 1;
    }
    (linear, activation)
}

/// The length of a pass's chains.
pub fn chain_len(arch: &NetworkArchitecture) -> (r: usize)
    requires
        arch.layers@.len() < usize::MAX,
    ensures
        r == arch.layers@.len() + 1,
{
    arch.layers.len() + 1
}

/// Whether the claimed shapes of the linear steps are the canonical ones.
pub fn check_linear_chain_shape(
    claimed: &[LinearShape],
    arch: &NetworkArchitecture,
    property: &Property,
) -> (r: Result<(), SnarkError>)
    requires
        widths_fit(arch.layers@, *property),
    ensures
        r == linear_chain_verdict(claimed@, arch.layers@, *property),
{
    let expected: Vec<LinearShape> = linear_step_metadata(arch, property);
    if claimed.len() != expected.len() {
        return Err(
            SnarkError::ArchitectureMismatch {
                what: "linear_backward step count != n_linear in network",
            },
        );
    }
    let mut i: usize = 0;
    while i < expected.len()
        invariant
            i <= expected@.len(),
            claimed@.len() == expected@.len(),
            expected@ == linear_shapes(
                arch.layers@,
                ceil_log2(property.rows as nat),
                arch.layers@.len(),
            ),
            forall|k: int| 0 <= k < i ==> #[trigger] claimed@[k] == expected@[k],
        decreases expected@.len() - i,
    {
        let (p_layer, p_a, p_w): LinearShape = claimed[i];
        let (e_layer, e_a, e_w): LinearShape = expected[i];
        if p_layer != e_layer || p_a.0 != e_a.0 || p_a.1 != e_a.1 || p_w.0 != e_w.0 || p_w.1
            != e_w.1 {
            assert(claimed@[i as int] != expected@[i as int]);
            return Err(
                SnarkError::ArchitectureMismatch {
                    what: "linear_backward step (layer_idx, dims) mismatch",
                },
            );
        }
        i += 1;
    }
    assert(claimed@ =~= expected@);
    Ok(())
}

/// The verdict on the claimed shapes of the linear steps.
pub open spec fn linear_chain_verdict(
    claimed: Seq<LinearShape>,
    layers: Seq<LayerShape>,
    property: Property,
) -> Result<(), SnarkError> {
    let expected = linear_shapes(layers, ceil_log2(property.rows as nat), layers.len());
    and_also(
        holds(
            claimed.len() == expected.len(),
            SnarkError::ArchitectureMismatch {
                what: "linear_backward step count != n_linear in network",
            },
        ),
        holds(
            claimed == expected,
            SnarkError::ArchitectureMismatch {
                what: "linear_backward step (layer_idx, dims) mismatch",
            },
        ),
    )
}

/// Whether the claimed shapes of the activation steps are the canonical ones.
pub fn check_activation_chain_shape(
    claimed: &[ActivationShape],
    arch: &NetworkArchitecture,
    property: &Property,
) -> (r: Result<(), SnarkError>)
    requires
        widths_fit(arch.layers@, *property),
    ensures
        r == activation_chain_verdict(claimed@, arch.layers@, *property),
{
    let expected: Vec<ActivationShape> = activation_step_metadata(arch, property);
    if claimed.len() != expected.len() {
        return Err(
            SnarkError::ArchitectureMismatch {
                what: "activation step count != n_activation in network",
            },
        );
    }
    let mut i: usize = 0;
    while i < expected.len()
        invariant
            i <= expected@.len(),
            claimed@.len() == expected@.len(),
            expected@ == activation_shapes(
                arch.layers@,
                ceil_log2(property.rows as nat),
                arch.layers@.len(),
            ),
            forall|k: int| 0 <= k < i ==> #[trigger] claimed@[k] == expected@[k],
        decreases expected@.len() - i,
    {
        let (p_layer, p_dims): ActivationShape = claimed[i];
        let (e_layer, e_dims): ActivationShape = expected[i];
        if p_layer != e_layer || p_dims.0 != e_dims.0 || p_dims.1 != e_dims.1 {
            assert(claimed@[i as int] != expected@[i as int]);
            return Err(
                SnarkError::ArchitectureMismatch {
                    what: "activation step (layer_idx, dims) mismatch",
                },
            );
        }
        i += 1;
    }
    assert(claimed@ =~= expected@);
    Ok(())
}

/// The verdict on the claimed shapes of the activation steps.
pub open spec fn activation_chain_verdict(
    claimed: Seq<ActivationShape>,
    layers: Seq<LayerShape>,
    property: Property,
) -> Result<(), SnarkError> {
    let expected = activation_shapes(layers, ceil_log2(property.rows as nat), layers.len());
    and_also(
        holds(
            claimed.len() == expected.len(),
            SnarkError::ArchitectureMismatch {
                what: "activation step count != n_activation in network",
            },
        ),
        holds(
            claimed == expected,
            SnarkError::ArchitectureMismatch {
                what: "activation step (layer_idx, dims) mismatch",
            },
        ),
    )
}

/// Whether every list of a pass's commitments has the length that the public
/// architecture implies.
pub fn check_pass_commit_lengths<P: MlPcs>(
    pass_com: &PassCommitments<P>,
    arch: &NetworkArchitecture,
) -> (r: Result<(), SnarkError>)
    requires
        arch.layers@.len() < usize::MAX,
    ensures
        r == pass_lengths_verdict(*pass_com, arch.layers@),
{
    let (n_lin, n_act): (usize, usize) = step_counts(arch);
    let chain: usize = chain_len(arch);
    if pass_com.chain_a.len() != chain || pass_com.chain_b_acc.len() != chain {
        return Err(SnarkError::ArchitectureMismatch { what: "chain length" });
    }
    if pass_com.linear_a_w.len() != n_lin || pass_com.linear_a_b.len() != n_lin
        || pass_com.linear_prod_w.len() != n_lin {
        return Err(SnarkError::ArchitectureMismatch { what: "linear commit count" });
    }
    if pass_com.activation_a_pos.len() != n_act || pass_com.activation_a_d_doubled.len() != n_act
        || pass_com.activation_bias_doubled.len() != n_act
        || pass_com.activation_bias_delta.len() != n_act {
        return Err(SnarkError::ArchitectureMismatch { what: "activation commit count" });
    }
    Ok(())
}

/// The verdict on the lengths of a pass's commitments.
pub open spec fn pass_lengths_verdict<P: MlPcs>(
    pass_com: PassCommitments<P>,
    layers: Seq<LayerShape>,
) -> Result<(), SnarkError> {
    let n = layers.len();
    let n_lin = linear_indices(layers, n).len();
    let n_act = activation_indices(layers, n).len();
    and_also(
        holds(
            pass_com.chain_a@.len() == n + 1 && pass_com.chain_b_acc@.len() == n + 1,
            SnarkError::ArchitectureMismatch { what: "chain length" },
        ),
        and_also(
            holds(
                pass_com.linear_a_w@.len() == n_lin && pass_com.linear_a_b@.len() == n_lin
                    && pass_com.linear_prod_w@.len() == n_lin,
                SnarkError::ArchitectureMismatch { what: "linear commit count" },
            ),
            holds(
                pass_com.activation_a_pos@.len() == n_act
                    && pass_com.activation_a_d_doubled@.len() == n_act
                    && pass_com.activation_bias_doubled@.len() == n_act
                    && pass_com.activation_bias_delta@.len() == n_act,
                SnarkError::ArchitectureMismatch { what: "activation commit count" },
            ),
        ),
    )
}

} // verus!
