//! What accepted proofs say of a pass.

use crate::bias_accumulator::{
    BAccEvent, BAccStepKind, BAccStepProof, b_acc_check, b_acc_coms, b_acc_next,
    b_acc_step_verdict, b_acc_verdict, ba_t1, ba_values, canonical_events, count_from,
    event_at_layer, lemma_layer_counts,
};
use crate::binding::{law_joint_opening_binds, opens_to};
use crate::chain::{chain_state, lemma_chain_each};
use crate::chain_init::{ChainInitProof, chain_init_verdict, ci_t3, ci_t4};
use crate::commit::{PassCommitments, TensorCommitments};
use crate::field::{fadd, vals};
use crate::hidden_pass::hidden_targets;
use crate::network::LayerShape;
use crate::pcs::{MlPcs, mle_padded};
use crate::poly::lin;
use crate::transcript::{abs_u64, absorbed, after_squeeze, squeezed};
use vstd::prelude::*;

verus! {

// ---- Where a pass starts ----

/// A pass whose start is accepted claims one value for the top of its matrices
/// and the property's matrix, and one for the top of its biases and the
/// property's offsets, at challenges that were drawn after both tops and both
/// sizes were absorbed.
pub proof fn law_accepted_start_agrees<P: MlPcs>(
    vk: P::VerifierKey,
    proof: ChainInitProof<P>,
    pass: PassCommitments<P>,
    coms: TensorCommitments<P>,
    a_n_vars: usize,
    b_n_vars: usize,
    t0: Seq<u8>,
)
    requires
        chain_init_verdict(vk, proof, pass, coms, a_n_vars, b_n_vars, t0) is Ok,
    ensures
        proof.chain_a_eval@ == proof.spec_c_eval@,
        proof.chain_b_eval@ == proof.spec_d_eval@,
        proof.a_n_vars == a_n_vars,
        proof.b_n_vars == b_n_vars,
        pass.chain_a@.len() > 0,
        pass.chain_b_acc@.len() > 0,
        ({
            let top_a = pass.chain_a@[pass.chain_a@.len() - 1];
            let top_b = pass.chain_b_acc@[pass.chain_b_acc@.len() - 1];
            let t1 = abs_u64(
                abs_u64(
                    absorbed(absorbed(t0, P::bytes(top_a)), P::bytes(top_b)),
                    a_n_vars as u64,
                ),
                b_n_vars as u64,
            );
            &&& vals(proof.r_a@) == squeezed(t1, a_n_vars as int)
            &&& vals(proof.r_b@) == squeezed(after_squeeze(t1, a_n_vars as int), b_n_vars as int)
        }),
{
}

/// A pass whose start is accepted starts from the property, as far as the
/// commitments hold known tables: the top of its matrices agrees with the
/// property's matrix at the first challenge, and the top of its biases with
/// the property's offsets at the second.
pub proof fn law_accepted_start_is_the_property<P: MlPcs>(
    vk: P::VerifierKey,
    proof: ChainInitProof<P>,
    pass: PassCommitments<P>,
    coms: TensorCommitments<P>,
    a_n_vars: usize,
    b_n_vars: usize,
    t0: Seq<u8>,
    top_a: Seq<int>,
    spec_c: Seq<int>,
    top_b: Seq<int>,
    spec_d: Seq<int>,
)
    requires
        chain_init_verdict(vk, proof, pass, coms, a_n_vars, b_n_vars, t0) is Ok,
        opens_to::<P>(vk, pass.chain_a@.last(), top_a),
        opens_to::<P>(vk, coms.spec_c, spec_c),
        opens_to::<P>(vk, pass.chain_b_acc@.last(), top_b),
        opens_to::<P>(vk, coms.spec_d, spec_d),
    ensures
        mle_padded(top_a, vals(proof.r_a@), a_n_vars as nat) == mle_padded(
            spec_c,
            vals(proof.r_a@),
            a_n_vars as nat,
        ),
        mle_padded(top_b, vals(proof.r_b@), b_n_vars as nat) == mle_padded(
            spec_d,
            vals(proof.r_b@),
            b_n_vars as nat,
        ),
{
    let (a, b) = (pass.chain_a@.last(), pass.chain_b_acc@.last());
    let (ra, rb) = (vals(proof.r_a@), vals(proof.r_b@));
    let ca = seq![a, coms.spec_c];
    let va = seq![proof.chain_a_eval@, proof.spec_c_eval@];
    let ta = ci_t3::<P>(a, b, a_n_vars, b_n_vars, t0);
    law_joint_opening_binds::<P>(vk, ca, top_a, va, ra, proof.r_a_open, a_n_vars as nat, ta, 0);
    law_joint_opening_binds::<P>(vk, ca, spec_c, va, ra, proof.r_a_open, a_n_vars as nat, ta, 1);
    let cb = seq![b, coms.spec_d];
    let vb = seq![proof.chain_b_eval@, proof.spec_d_eval@];
    let tb = ci_t4(vk, proof, pass, coms, a_n_vars, b_n_vars, t0);
    law_joint_opening_binds::<P>(vk, cb, top_b, vb, rb, proof.r_b_open, b_n_vars as nat, tb, 0);
    law_joint_opening_binds::<P>(vk, cb, spec_d, vb, rb, proof.r_b_open, b_n_vars as nat, tb, 1);
}

// ---- The running biases ----

/// The number of linear layers behind a layer.
pub open spec fn linear_behind(layers: Seq<LayerShape>, layer: int) -> nat {
    layers.skip(layer + 1).filter(|l: LayerShape| l is Linear).len()
}

/// The number of activation layers behind a layer.
pub open spec fn activations_behind(layers: Seq<LayerShape>, layer: int) -> nat {
    layers.skip(layer + 1).filter(|l: LayerShape| l is Activation).len()
}

/// Counting the layers of a kind from an index on is filtering them.
proof fn lemma_count_is_filter(layers: Seq<LayerShape>, from: nat)
    requires
        from <= layers.len(),
    ensures
        count_from(layers, BAccStepKind::Linear, from) == layers.skip(from as int).filter(
            |l: LayerShape| l is Linear,
        ).len(),
        count_from(layers, BAccStepKind::Activation, from) == layers.skip(from as int).filter(
            |l: LayerShape| l is Activation,
        ).len(),
    decreases layers.len() - from,
{
    let lin = |l: LayerShape| l is Linear;
    let act = |l: LayerShape| l is Activation;
    reveal(Seq::filter);
    if from < layers.len() {
        lemma_count_is_filter(layers, from + 1);
        let head = seq![layers[from as int]];
        let tail = layers.skip(from as int + 1);
        assert(layers.skip(from as int) =~= head + tail);
        Seq::filter_distributes_over_add(head, tail, lin);
        Seq::filter_distributes_over_add(head, tail, act);
        assert(head.drop_last() =~= Seq::empty());
        assert(head.last() == layers[from as int]);
        assert(Seq::<LayerShape>::empty().filter(lin) =~= Seq::empty());
        assert(Seq::<LayerShape>::empty().filter(act) =~= Seq::empty());
        assert(head.filter(lin).len() == if layers[from as int] is Linear {
            1nat
        } else {
            0
        });
        assert(head.filter(act).len() == if layers[from as int] is Activation {
            1nat
        } else {
            0
        });
    } else {
        assert(layers.skip(from as int) =~= Seq::empty());
    }
}

/// Running biases that are accepted have one step for every layer, from the
/// last layer down, and at every layer, linear or activation, the claimed bias
/// behind the step is the claimed bias before it plus the claimed share.
pub proof fn law_accepted_bias_adds_the_share<P: MlPcs>(
    vk: P::VerifierKey,
    proofs: Seq<BAccStepProof<P>>,
    layers: Seq<LayerShape>,
    pass: PassCommitments<P>,
    n_vars: usize,
    t0: Seq<u8>,
    layer: int,
)
    requires
        b_acc_verdict(vk, proofs, layers, pass, n_vars, t0) is Ok,
        0 <= layer < layers.len() <= usize::MAX,
    ensures
        proofs.len() == layers.len(),
        ({
            let proof = proofs[layers.len() - 1 - layer];
            &&& proof.b_new_eval@ == fadd(proof.b_old_eval@, proof.delta_eval@)
            &&& proof.layer_idx == layer
            &&& proof.n_vars == n_vars
            &&& layers[layer] is Linear ==> proof.kind == 0 && proof.step_idx == linear_behind(
                layers,
                layer,
            )
            &&& layers[layer] is Activation ==> proof.kind == 1 && proof.step_idx
                == activations_behind(layers, layer)
        }),
{
    let p = layers.len() - 1 - layer;
    let events = canonical_events(layers);
    let check = b_acc_check(vk, proofs, events, pass, n_vars);
    let next = b_acc_next(vk, proofs, events, pass, n_vars);
    lemma_chain_each(check, next, proofs.len(), t0, p);
    lemma_count_is_filter(layers, (layer + 1) as nat);
    lemma_layer_counts(layers, (layer + 1) as nat);
    assert(events[p] == event_at_layer(layers, layer));
}

/// Running biases that are accepted add up, as far as the commitments hold
/// known tables: at the challenge of every layer's step, the bias behind the
/// layer's step is the bias before it plus the layer's share, which is a
/// product with a linear layer's biases or an activation layer's offsets.
pub proof fn law_accepted_bias_tables_add_up<P: MlPcs>(
    vk: P::VerifierKey,
    proofs: Seq<BAccStepProof<P>>,
    layers: Seq<LayerShape>,
    pass: PassCommitments<P>,
    n_vars: usize,
    t0: Seq<u8>,
    layer: int,
    new_bias: Seq<int>,
    old_bias: Seq<int>,
    share: Seq<int>,
)
    requires
        b_acc_verdict(vk, proofs, layers, pass, n_vars, t0) is Ok,
        0 <= layer < layers.len() <= usize::MAX,
        opens_to::<P>(vk, pass.chain_b_acc@[layer], new_bias),
        opens_to::<P>(vk, pass.chain_b_acc@[layer + 1], old_bias),
        layers[layer] is Linear ==> opens_to::<P>(
            vk,
            pass.linear_prod_w@[linear_behind(layers, layer) as int],
            share,
        ),
        layers[layer] is Activation ==> opens_to::<P>(
            vk,
            pass.activation_bias_delta@[activations_behind(layers, layer) as int],
            share,
        ),
    ensures
        ({
            let r = vals(proofs[layers.len() - 1 - layer].r@);
            mle_padded(new_bias, r, n_vars as nat) == fadd(
                mle_padded(old_bias, r, n_vars as nat),
                mle_padded(share, r, n_vars as nat),
            )
        }),
{
    let p = layers.len() - 1 - layer;
    let events = canonical_events(layers);
    let check = b_acc_check(vk, proofs, events, pass, n_vars);
    let next = b_acc_next(vk, proofs, events, pass, n_vars);
    lemma_chain_each(check, next, proofs.len(), t0, p);
    lemma_count_is_filter(layers, (layer + 1) as nat);
    lemma_layer_counts(layers, (layer + 1) as nat);
    let ev = event_at_layer(layers, layer);
    assert(events[p] == ev);
    let proof = proofs[p];
    let t1 = chain_state(next, p as nat, t0);
    let t2 = after_squeeze(ba_t1(ev, n_vars, t1), n_vars as int);
    let coms = b_acc_coms(pass, ev);
    let values = ba_values(proof);
    let r = vals(proof.r@);
    let n = n_vars as nat;
    law_joint_opening_binds::<P>(vk, coms, new_bias, values, r, proof.batched_open, n, t2, 0);
    law_joint_opening_binds::<P>(vk, coms, old_bias, values, r, proof.batched_open, n, t2, 1);
    law_joint_opening_binds::<P>(vk, coms, share, values, r, proof.batched_open, n, t2, 2);
}

/// The challenge of every step of the running biases is drawn after the step's
/// kind, layer, number and size were absorbed.
pub proof fn law_accepted_bias_challenge<P: MlPcs>(
    vk: P::VerifierKey,
    proof: BAccStepProof<P>,
    ev: BAccEvent,
    pass: PassCommitments<P>,
    n_vars: usize,
    t0: Seq<u8>,
)
    requires
        b_acc_step_verdict(vk, proof, ev, pass, n_vars, t0) is Ok,
    ensures
        vals(proof.r@) == squeezed(
            abs_u64(
                abs_u64(
                    abs_u64(
                        abs_u64(
                            t0,
                            if ev.kind is Linear {
                                0
                            } else {
                                1
                            },
                        ),
                        ev.layer as u64,
                    ),
                    ev.step as u64,
                ),
                n_vars as u64,
            ),
            n_vars as int,
        ),
{
}

// ---- Which layers have hidden passes ----

/// The layers that hidden passes start from, in order, are exactly the linear
/// layers that an activation of any kind follows.
pub proof fn law_hidden_targets(layers: Seq<LayerShape>, k: nat)
    requires
        k <= layers.len() <= usize::MAX,
    ensures
        ({
            let found = hidden_targets(layers, k);
            &&& forall|i: int, j: int| 0 <= i < j < found.len() ==> found[i] < found[j]
            &&& forall|j: int|
                0 <= j < found.len() ==> {
                    let i = (#[trigger] found[j]) as int;
                    &&& i < k
                    &&& i + 1 < layers.len()
                    &&& layers[i] is Linear
                    &&& layers[i + 1] is Activation
                }
            &&& forall|i: int|
                0 <= i < k && i + 1 < layers.len() && (#[trigger] layers[i]) is Linear && layers[i
                    + 1] is Activation ==> found.contains(i as usize)
        }),
    decreases k,
{
    if k > 0 {
        law_hidden_targets(layers, (k - 1) as nat);
        let rest = hidden_targets(layers, (k - 1) as nat);
        let found = hidden_targets(layers, k);
        assert forall|i: int|
            0 <= i < k && i + 1 < layers.len() && (#[trigger] layers[i]) is Linear && layers[i
                + 1] is Activation implies found.contains(i as usize) by {
            if i < k - 1 {
                let j = choose|j: int| 0 <= j < rest.len() && rest[j] == i as usize;
                assert(found[j] == i as usize);
            } else {
                assert(found[found.len() - 1] == i as usize);
            }
        }
    }
}

/// There are as many hidden passes as there are indices of linear layers that
/// an activation follows.
pub proof fn law_hidden_target_count(layers: Seq<LayerShape>, k: nat)
    requires
        k <= layers.len(),
    ensures
        hidden_targets(layers, k).len() == Seq::new(k, |i: int| i).filter(
            |i: int|
                i + 1 < layers.len() && layers[i] is Linear && layers[i + 1] is Activation,
        ).len(),
    decreases k,
{
    let pred = |i: int|
        i + 1 < layers.len() && layers[i] is Linear && layers[i + 1] is Activation;
    let all = Seq::new(k, |i: int| i);
    reveal(Seq::filter);
    if k > 0 {
        law_hidden_target_count(layers, (k - 1) as nat);
        assert(all.drop_last() =~= Seq::new((k - 1) as nat, |i: int| i));
        assert(all.last() == k - 1);
    }
}

} // verus!
