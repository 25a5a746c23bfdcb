//! What accepted shapes say of an architecture, and accepted hidden passes of
//! their parts.

use crate::activation_step::ActivationLayerStepProof;
use crate::architecture::{
    ActivationShape, LinearShape, activation_chain_verdict, activation_indices, activation_shapes,
    cols_at, linear_chain_verdict, linear_indices, linear_shapes, pass_lengths_verdict,
};
use crate::bias_accumulator::b_acc_verdict;
use crate::binding::{law_opening_binds, opens_to};
use crate::columns::even_vars;
use crate::commit::{PassCommitments, TensorCommitments};
use crate::field::{residue, vals};
use crate::hidden_identity::{
    ChainInitFromIdentityProof, hi_t3, hi_t4, identity_init_verdict, identity_matrix_table,
};
use crate::hidden_parts::{
    hidden_splits_verdict, hidden_steps_verdict, hs_s2, hs_s3, slope_chain_verdict,
};
use crate::hidden_pass::{
    HiddenFront, HiddenSplits, HiddenSteps, bias_chain_verdict, claimed_linear,
    hidden_front_verdict, hidden_shape_verdict,
};
use crate::linear_chain::{LinearLayerStepProof, linear_steps_verdict};
use crate::mle::{ceil_log2, mle};
use crate::network::{LayerShape, Property, width_after};
use crate::params::SnarkParams;
use crate::pass_laws::{activations_behind, linear_behind};
use crate::pcs::{MlPcs, mle_padded};
use crate::poly::lin;
use crate::relu_chain::{claimed_shapes, relu_chain_verdict};
use crate::relu_step::relu_step_verdict;
use crate::shapes::{matrix_vars, vector_vars};
use crate::trace::BoundDir;
use crate::transcript::{abs_u64, absorbed, after_squeeze, squeezed};
use vstd::arithmetic::power2::pow2;
use vstd::prelude::*;

verus! {

// ---- Widths ----

/// The output of the first layers is as wide as the last linear layer among
/// them makes it.
pub proof fn law_output_width(layers: Seq<LayerShape>, k: nat, j: int)
    requires
        0 <= j < k <= layers.len(),
        layers[j] is Linear,
        forall|i: int| j < i < k ==> !((#[trigger] layers[i]) is Linear),
    ensures
        width_after(layers, k) == layers[j]->out_dim,
    decreases k,
{
    if j < k - 1 {
        assert(!(layers[k - 1] is Linear));
        law_output_width(layers, (k - 1) as nat, j);
    }
}

/// The coefficients before a layer are as wide as the input of the first linear
/// layer from there on.
pub proof fn law_chain_width_is_next_input(layers: Seq<LayerShape>, idx: nat, j: int)
    requires
        idx <= j < layers.len(),
        layers[j] is Linear,
        forall|i: int| idx <= i < j ==> !((#[trigger] layers[i]) is Linear),
    ensures
        cols_at(layers, idx) == layers[j]->in_dim,
    decreases j - idx,
{
    if idx < j {
        assert(!(layers[idx as int] is Linear));
        law_chain_width_is_next_input(layers, idx + 1, j);
    }
}

/// Behind the last linear layer the coefficients are as wide as its output.
pub proof fn law_chain_width_is_output(layers: Seq<LayerShape>, idx: nat, j: int)
    requires
        0 <= j < idx <= layers.len(),
        layers[j] is Linear,
        forall|i: int| j < i < layers.len() ==> !((#[trigger] layers[i]) is Linear),
    ensures
        cols_at(layers, idx) == layers[j]->out_dim,
    decreases layers.len() - idx,
{
    if idx < layers.len() {
        assert(!(layers[idx as int] is Linear));
        law_chain_width_is_output(layers, idx + 1, j);
    } else {
        law_output_width(layers, layers.len(), j);
    }
}

// ---- Sizes ----

/// A size is rounded up to the least even number that is not below it and not
/// below two.
pub proof fn law_even_size_is_least(n: nat, k: nat)
    requires
        k >= n,
        k >= 2,
        k % 2 == 0,
    ensures
        even_vars(n) >= n,
        even_vars(n) >= 2,
        even_vars(n) % 2 == 0,
        even_vars(n) <= k,
{
}

// ---- The steps of a pass ----

/// The place of a layer among those of its kind, counted from the last one
/// among the first `k` down.
proof fn lemma_step_places(layers: Seq<LayerShape>, k: nat, l: int)
    requires
        0 <= l < k <= layers.len() <= usize::MAX,
    ensures
        layers[l] is Linear ==> ({
            let p = layers.take(k as int).skip(l + 1).filter(|x: LayerShape| x is Linear).len();
            p < linear_indices(layers, k).len() && linear_indices(layers, k)[p as int] == l
        }),
        layers[l] is Activation ==> ({
            let p = layers.take(k as int).skip(l + 1).filter(
                |x: LayerShape| x is Activation,
            ).len();
            p < activation_indices(layers, k).len() && activation_indices(layers, k)[p as int] == l
        }),
    decreases k,
{
    let lin = |x: LayerShape| x is Linear;
    let act = |x: LayerShape| x is Activation;
    let rest = layers.take(k as int).skip(l + 1);
    reveal(Seq::filter);
    if l < k - 1 {
        lemma_step_places(layers, (k - 1) as nat, l);
        let before = layers.take(k - 1).skip(l + 1);
        assert(rest =~= before.push(layers[k - 1]));
        assert(rest.drop_last() =~= before);
        assert(rest.last() == layers[k - 1]);
    } else {
        assert(rest =~= Seq::empty());
    }
}

/// The number of steps of each kind is the number of layers of that kind.
proof fn lemma_step_numbers(layers: Seq<LayerShape>, k: nat)
    requires
        k <= layers.len(),
    ensures
        linear_indices(layers, k).len() == layers.take(k as int).filter(
            |x: LayerShape| x is Linear,
        ).len(),
        activation_indices(layers, k).len() == layers.take(k as int).filter(
            |x: LayerShape| x is Activation,
        ).len(),
    decreases k,
{
    reveal(Seq::filter);
    if k > 0 {
        lemma_step_numbers(layers, (k - 1) as nat);
        assert(layers.take(k as int).drop_last() =~= layers.take(k - 1));
        assert(layers.take(k as int).last() == layers[k - 1]);
    }
}

/// The linear steps of a pass, in order: there is one for every linear layer,
/// and a layer's step stands behind those of the linear layers behind it, with
/// the logarithms of the property's height and of the layer's own widths.
pub proof fn law_linear_steps(layers: Seq<LayerShape>, log_spec: nat, l: int)
    requires
        0 <= l < layers.len() <= usize::MAX,
        layers[l] is Linear,
    ensures
        ({
            let steps = linear_shapes(layers, log_spec, layers.len());
            let p = linear_behind(layers, l) as int;
            let out = ceil_log2(layers[l]->out_dim as nat) as usize;
            let inp = ceil_log2(layers[l]->in_dim as nat) as usize;
            &&& steps.len() == layers.filter(|x: LayerShape| x is Linear).len()
            &&& p < steps.len()
            &&& steps[p] == (l as usize, (log_spec as usize, out), (out, inp))
        }),
{
    lemma_step_places(layers, layers.len(), l);
    lemma_step_numbers(layers, layers.len());
    assert(layers.take(layers.len() as int) =~= layers);
}

/// The activation steps of a pass, in order: there is one for every activation
/// layer, and a layer's step stands behind those of the activation layers
/// behind it, with the logarithms of the property's height and of the width of
/// the coefficients behind the layer.
pub proof fn law_activation_steps(layers: Seq<LayerShape>, log_spec: nat, l: int)
    requires
        0 <= l < layers.len() <= usize::MAX,
        layers[l] is Activation,
    ensures
        ({
            let steps = activation_shapes(layers, log_spec, layers.len());
            let p = activations_behind(layers, l) as int;
            &&& steps.len() == layers.filter(|x: LayerShape| x is Activation).len()
            &&& p < steps.len()
            &&& steps[p] == (
                l as usize,
                (log_spec as usize, ceil_log2(cols_at(layers, (l + 1) as nat)) as usize),
            )
        }),
{
    lemma_step_places(layers, layers.len(), l);
    lemma_step_numbers(layers, layers.len());
    assert(layers.take(layers.len() as int) =~= layers);
}

/// Accepted shapes of linear steps: there are as many as linear layers, and at
/// a linear layer's place stand its index and the logarithms of the property's
/// height and of the layer's own widths.
pub proof fn law_accepted_linear_shapes(
    claimed: Seq<LinearShape>,
    layers: Seq<LayerShape>,
    property: Property,
)
    requires
        linear_chain_verdict(claimed, layers, property) is Ok,
        layers.len() <= usize::MAX,
    ensures
        claimed.len() == layers.filter(|x: LayerShape| x is Linear).len(),
        forall|l: int|
            0 <= l < layers.len() && (#[trigger] layers[l]) is Linear ==> {
                let out = ceil_log2(layers[l]->out_dim as nat) as usize;
                let inp = ceil_log2(layers[l]->in_dim as nat) as usize;
                let rows = ceil_log2(property.rows as nat) as usize;
                claimed[linear_behind(layers, l) as int] == (l as usize, (rows, out), (out, inp))
            },
{
    lemma_step_numbers(layers, layers.len());
    assert(layers.take(layers.len() as int) =~= layers);
    assert forall|l: int| 0 <= l < layers.len() && (#[trigger] layers[l]) is Linear implies {
        let out = ceil_log2(layers[l]->out_dim as nat) as usize;
        let inp = ceil_log2(layers[l]->in_dim as nat) as usize;
        let rows = ceil_log2(property.rows as nat) as usize;
        claimed[linear_behind(layers, l) as int] == (l as usize, (rows, out), (out, inp))
    } by {
        law_linear_steps(layers, ceil_log2(property.rows as nat), l);
    }
}

/// Accepted shapes of activation steps: there are as many as activation layers,
/// and at an activation layer's place stand its index and the logarithms of the
/// property's height and of the width of the coefficients behind the layer.
pub proof fn law_accepted_activation_shapes(
    claimed: Seq<ActivationShape>,
    layers: Seq<LayerShape>,
    property: Property,
)
    requires
        activation_chain_verdict(claimed, layers, property) is Ok,
        layers.len() <= usize::MAX,
    ensures
        claimed.len() == layers.filter(|x: LayerShape| x is Activation).len(),
        forall|l: int|
            0 <= l < layers.len() && (#[trigger] layers[l]) is Activation ==> {
                let rows = ceil_log2(property.rows as nat) as usize;
                let cols = ceil_log2(cols_at(layers, (l + 1) as nat)) as usize;
                claimed[activations_behind(layers, l) as int] == (l as usize, (rows, cols))
            },
{
    lemma_step_numbers(layers, layers.len());
    assert(layers.take(layers.len() as int) =~= layers);
    assert forall|l: int| 0 <= l < layers.len() && (#[trigger] layers[l]) is Activation implies {
        let rows = ceil_log2(property.rows as nat) as usize;
        let cols = ceil_log2(cols_at(layers, (l + 1) as nat)) as usize;
        claimed[activations_behind(layers, l) as int] == (l as usize, (rows, cols))
    } by {
        law_activation_steps(layers, ceil_log2(property.rows as nat), l);
    }
}

/// A pass whose commitments have accepted lengths has a link of both chains for
/// every layer and one more, three commitments for every linear layer, and four
/// for every activation layer.
pub proof fn law_accepted_pass_lengths<P: MlPcs>(
    pass: PassCommitments<P>,
    layers: Seq<LayerShape>,
)
    requires
        pass_lengths_verdict(pass, layers) is Ok,
    ensures
        pass.chain_a@.len() == layers.len() + 1,
        pass.chain_b_acc@.len() == layers.len() + 1,
        ({
            let linear = layers.filter(|x: LayerShape| x is Linear).len();
            let activation = layers.filter(|x: LayerShape| x is Activation).len();
            &&& pass.linear_a_w@.len() == linear
            &&& pass.linear_a_b@.len() == linear
            &&& pass.linear_prod_w@.len() == linear
            &&& pass.activation_a_pos@.len() == activation
            &&& pass.activation_a_d_doubled@.len() == activation
            &&& pass.activation_bias_doubled@.len() == activation
            &&& pass.activation_bias_delta@.len() == activation
        }),
{
    lemma_step_numbers(layers, layers.len());
    assert(layers.take(layers.len() as int) =~= layers);
}

// ---- Where a hidden pass starts ----

/// The table of the identity has the diagonal's code where row and column
/// agree, and zero everywhere else, the padding included.
pub proof fn law_identity_entries(n: nat, one: i128, i: int, j: int)
    requires
        0 <= i,
        0 <= j < pow2(ceil_log2(n)),
        i * pow2(ceil_log2(n)) + j < pow2(even_vars(ceil_log2(n) + ceil_log2(n))),
    ensures
        identity_matrix_table(n, one)[i * pow2(ceil_log2(n)) + j] == (if i == j && j < n {
            residue(one as int)
        } else {
            0
        }),
{
    let d = pow2(ceil_log2(n)) as int;
    vstd::arithmetic::div_mod::lemma_fundamental_div_mod_converse(i * d + j, d, i, j);
    assert(i * d + j >= 0) by (nonlinear_arith)
        requires
            i >= 0,
            d > 0,
            j >= 0,
    ;
}

/// A hidden pass whose start is accepted: the link behind the target layer is
/// there in both chains, the claimed value of its matrix is that of the
/// identity at a challenge drawn after both links and both sizes, and the
/// claimed value of its bias is zero.
pub proof fn law_accepted_identity_start<P: MlPcs>(
    vk: P::VerifierKey,
    proof: ChainInitFromIdentityProof<P>,
    pass: PassCommitments<P>,
    target: usize,
    n: nat,
    one: i128,
    t0: Seq<u8>,
)
    requires
        identity_init_verdict(vk, proof, pass, target, n, one, t0) is Ok,
    ensures
        target + 1 < pass.chain_a@.len(),
        target + 1 < pass.chain_b_acc@.len(),
        proof.chain_a_eval@ == mle(identity_matrix_table(n, one), vals(proof.r_a@)),
        proof.chain_b_eval@ == 0,
        proof.a_n_vars == even_vars(ceil_log2(n) + ceil_log2(n)),
        proof.b_n_vars == even_vars(ceil_log2(n)),
        ({
            let (a_vars, b_vars) = (proof.a_n_vars, proof.b_n_vars);
            let t1 = abs_u64(
                abs_u64(
                    absorbed(
                        absorbed(t0, P::bytes(pass.chain_a@[target + 1])),
                        P::bytes(pass.chain_b_acc@[target + 1]),
                    ),
                    a_vars as u64,
                ),
                b_vars as u64,
            );
            &&& vals(proof.r_a@) == squeezed(t1, a_vars as int)
            &&& vals(proof.r_b@) == squeezed(after_squeeze(t1, a_vars as int), b_vars as int)
        }),
{
    reveal(identity_init_verdict);
}

/// A hidden pass whose start is accepted starts from the identity and from
/// zero, as far as the commitments hold known tables: its first matrix agrees
/// with the identity at the first challenge, and its first bias with zero at
/// the second.
pub proof fn law_accepted_identity_tables<P: MlPcs>(
    vk: P::VerifierKey,
    proof: ChainInitFromIdentityProof<P>,
    pass: PassCommitments<P>,
    target: usize,
    n: nat,
    one: i128,
    t0: Seq<u8>,
    first_a: Seq<int>,
    first_b: Seq<int>,
)
    requires
        identity_init_verdict(vk, proof, pass, target, n, one, t0) is Ok,
        opens_to::<P>(vk, pass.chain_a@[target + 1], first_a),
        opens_to::<P>(vk, pass.chain_b_acc@[target + 1], first_b),
    ensures
        mle_padded(first_a, vals(proof.r_a@), proof.a_n_vars as nat) == mle(
            identity_matrix_table(n, one),
            vals(proof.r_a@),
        ),
        mle_padded(first_b, vals(proof.r_b@), proof.b_n_vars as nat) == 0,
{
    reveal(identity_init_verdict);
    let (a, b) = (pass.chain_a@[target + 1], pass.chain_b_acc@[target + 1]);
    law_opening_binds::<P>(
        vk,
        a,
        first_a,
        vals(proof.r_a@),
        proof.chain_a_eval@,
        proof.chain_a_open,
        matrix_vars(n, n),
        hi_t3::<P>(a, b, n, t0),
    );
    law_opening_binds::<P>(
        vk,
        b,
        first_b,
        vals(proof.r_b@),
        proof.chain_b_eval@,
        proof.chain_b_open,
        vector_vars(n),
        hi_t4(vk, proof, a, b, n, t0),
    );
}

// ---- The parts of a hidden pass ----

/// A hidden pass of accepted shape: its target is a linear layer as wide as the
/// pass is high, its chains reach one link behind the target, its commitments
/// and steps are those of the layers up to the target, and its bounds have the
/// size of a vector of that height.
pub proof fn law_accepted_hidden_shape<P: MlPcs>(
    layers: Seq<LayerShape>,
    proof: HiddenFront<P>,
)
    requires
        hidden_shape_verdict(layers, proof) is Ok,
    ensures
        ({
            let target = proof.target_layer_idx as int;
            let low = layers.take(target + 1);
            &&& target < layers.len()
            &&& layers[target] is Linear
            &&& layers[target]->out_dim == proof.n_spec
            &&& proof.pass_lower.chain_a@.len() == target + 2
            &&& proof.pass_upper.chain_a@.len() == target + 2
            &&& pass_lengths_verdict(proof.pass_lower, low) is Ok
            &&& pass_lengths_verdict(proof.pass_upper, low) is Ok
            &&& proof.preact_n_vars == even_vars(ceil_log2(proof.n_spec as nat))
            &&& forall|property: Property|
                property.rows == proof.n_spec ==> {
                    &&& #[trigger] linear_chain_verdict(
                        claimed_linear(proof.linear_backward_lower@),
                        low,
                        property,
                    ) is Ok
                    &&& linear_chain_verdict(
                        claimed_linear(proof.linear_backward_upper@),
                        low,
                        property,
                    ) is Ok
                    &&& activation_chain_verdict(
                        claimed_shapes(proof.activation_backward_lower@),
                        low,
                        property,
                    ) is Ok
                    &&& activation_chain_verdict(
                        claimed_shapes(proof.activation_backward_upper@),
                        low,
                        property,
                    ) is Ok
                }
        }),
{
    reveal(hidden_shape_verdict);
}

/// The claimed shape of a step is what the step itself names.
pub proof fn law_claimed_shapes<P: MlPcs>(
    linear: Seq<LinearLayerStepProof<P>>,
    activation: Seq<ActivationLayerStepProof<P>>,
    i: int,
)
    ensures
        claimed_linear(linear).len() == linear.len(),
        claimed_shapes(activation).len() == activation.len(),
        0 <= i < linear.len() ==> claimed_linear(linear)[i] == (
            linear[i].layer_idx,
            linear[i].a_old_log_dims,
            linear[i].w_log_dims,
        ),
        0 <= i < activation.len() ==> claimed_shapes(activation)[i] == (
            activation[i].layer_idx,
            activation[i].a_old_log_dims,
        ),
{
}

/// The first part of an accepted hidden pass: its shape is accepted, and in both
/// directions its start from the identity, its linear steps and its activation
/// steps. The first start is checked after the target, the height and both
/// bounds' commitments were absorbed.
pub proof fn law_accepted_hidden_front<P: MlPcs>(
    vk: P::VerifierKey,
    layers: Seq<LayerShape>,
    proof: HiddenFront<P>,
    coms: TensorCommitments<P>,
    one: i128,
    t0: Seq<u8>,
)
    requires
        hidden_front_verdict(vk, layers, proof, coms, one, t0) is Ok,
    ensures
        hidden_shape_verdict(layers, proof) is Ok,
        ({
            let t1 = absorbed(
                absorbed(
                    abs_u64(
                        abs_u64(t0, proof.target_layer_idx as u64),
                        proof.n_spec as u64,
                    ),
                    P::bytes(proof.preact_lower_commit),
                ),
                P::bytes(proof.preact_upper_commit),
            );
            identity_init_verdict(
                vk,
                proof.chain_init_lower,
                proof.pass_lower,
                proof.target_layer_idx,
                proof.n_spec as nat,
                one,
                t1,
            ) is Ok
        }),
        exists|t: Seq<u8>|
            (#[trigger] identity_init_verdict(
                vk,
                proof.chain_init_upper,
                proof.pass_upper,
                proof.target_layer_idx,
                proof.n_spec as nat,
                one,
                t,
            )) is Ok,
        exists|t: Seq<u8>|
            (#[trigger] linear_steps_verdict(
                vk,
                proof.linear_backward_lower@,
                coms,
                proof.pass_lower,
                proof.linear_backward_lower@.len(),
                t,
            )) is Ok,
        exists|t: Seq<u8>|
            (#[trigger] linear_steps_verdict(
                vk,
                proof.linear_backward_upper@,
                coms,
                proof.pass_upper,
                proof.linear_backward_upper@.len(),
                t,
            )) is Ok,
        exists|t: Seq<u8>|
            (#[trigger] bias_chain_verdict(
                vk,
                proof.activation_backward_lower@,
                BoundDir::Lower,
                coms,
                proof.pass_lower,
                t,
            )) is Ok,
        exists|t: Seq<u8>|
            (#[trigger] bias_chain_verdict(
                vk,
                proof.activation_backward_upper@,
                BoundDir::Upper,
                coms,
                proof.pass_upper,
                t,
            )) is Ok,
{
    reveal(hidden_front_verdict);
}

/// The second part of an accepted hidden pass: in both directions the splits of
/// the activation steps, and the split of the first link's matrix, of the given
/// axes, into the positive part that the pass holds.
pub proof fn law_accepted_hidden_splits<P: MlPcs>(
    params: SnarkParams<P>,
    proof: HiddenFront<P>,
    splits: HiddenSplits<P>,
    lower_dims: (usize, usize),
    upper_dims: (usize, usize),
    t0: Seq<u8>,
)
    requires
        hidden_splits_verdict(params, proof, splits, lower_dims, upper_dims, t0) is Ok,
    ensures
        relu_chain_verdict(
            params,
            splits.relu_lower_activation@,
            claimed_shapes(proof.activation_backward_lower@),
            proof.pass_lower,
            t0,
        ) is Ok,
        exists|t: Seq<u8>|
            (#[trigger] relu_chain_verdict(
                params,
                splits.relu_upper_activation@,
                claimed_shapes(proof.activation_backward_upper@),
                proof.pass_upper,
                t,
            )) is Ok,
        proof.pass_lower.concretize_a_pos is Some,
        proof.pass_upper.concretize_a_pos is Some,
        exists|t: Seq<u8>|
            (#[trigger] relu_step_verdict(
                params,
                splits.relu_lower_concretize,
                proof.pass_lower.chain_a@[0],
                proof.pass_lower.concretize_a_pos->0,
                pow2((lower_dims.0 + lower_dims.1) as nat) as u64,
                even_vars((lower_dims.0 + lower_dims.1) as nat),
                t,
            )) is Ok,
        exists|t: Seq<u8>|
            (#[trigger] relu_step_verdict(
                params,
                splits.relu_upper_concretize,
                proof.pass_upper.chain_a@[0],
                proof.pass_upper.concretize_a_pos->0,
                pow2((upper_dims.0 + upper_dims.1) as nat) as u64,
                even_vars((upper_dims.0 + upper_dims.1) as nat),
                t,
            )) is Ok,
{
    reveal(hidden_splits_verdict);
    let vk = params.verifier_key;
    assert(relu_step_verdict(
        params,
        splits.relu_lower_concretize,
        proof.pass_lower.chain_a@[0],
        proof.pass_lower.concretize_a_pos->0,
        pow2((lower_dims.0 + lower_dims.1) as nat) as u64,
        even_vars((lower_dims.0 + lower_dims.1) as nat),
        hs_s2(vk, proof, splits, t0),
    ) is Ok);
    assert(relu_step_verdict(
        params,
        splits.relu_upper_concretize,
        proof.pass_upper.chain_a@[0],
        proof.pass_upper.concretize_a_pos->0,
        pow2((upper_dims.0 + upper_dims.1) as nat) as u64,
        even_vars((upper_dims.0 + upper_dims.1) as nat),
        hs_s3(vk, proof, splits, lower_dims, t0),
    ) is Ok);
}

/// The third part of an accepted hidden pass: in both directions the running
/// biases over the layers up to the target, the products of the activation
/// steps, and what the bound is checked against: the last step's share, a last
/// bias, and the bound's own commitment, which spells the pass's.
pub proof fn law_accepted_hidden_steps<P: MlPcs>(
    vk: P::VerifierKey,
    layers: Seq<LayerShape>,
    proof: HiddenFront<P>,
    steps: HiddenSteps<P>,
    coms: TensorCommitments<P>,
    claimed_lower: P::Commitment,
    claimed_upper: P::Commitment,
    t0: Seq<u8>,
)
    requires
        hidden_steps_verdict(
            vk,
            layers,
            proof,
            steps,
            coms,
            claimed_lower,
            claimed_upper,
            t0,
        ) is Ok,
    ensures
        b_acc_verdict(
            vk,
            steps.b_acc_step_lower@,
            layers.take(proof.target_layer_idx + 1),
            proof.pass_lower,
            even_vars(ceil_log2(proof.n_spec as nat)) as usize,
            t0,
        ) is Ok,
        exists|t: Seq<u8>|
            (#[trigger] b_acc_verdict(
                vk,
                steps.b_acc_step_upper@,
                layers.take(proof.target_layer_idx + 1),
                proof.pass_upper,
                even_vars(ceil_log2(proof.n_spec as nat)) as usize,
                t,
            )) is Ok,
        exists|t: Seq<u8>|
            (#[trigger] slope_chain_verdict(
                vk,
                steps.activation_matrix_lower@,
                BoundDir::Lower,
                coms,
                proof.pass_lower,
                t,
            )) is Ok,
        exists|t: Seq<u8>|
            (#[trigger] slope_chain_verdict(
                vk,
                steps.activation_matrix_upper@,
                BoundDir::Upper,
                coms,
                proof.pass_upper,
                t,
            )) is Ok,
        proof.pass_lower.concretize_acc_w is Some,
        proof.pass_upper.concretize_acc_w is Some,
        proof.pass_lower.chain_b_acc@.len() > 0,
        proof.pass_upper.chain_b_acc@.len() > 0,
        P::bytes(claimed_lower) == P::bytes(proof.preact_lower_commit),
        P::bytes(claimed_upper) == P::bytes(proof.preact_upper_commit),
{
    reveal(hidden_steps_verdict);
}

} // verus!
