//! The running bias of a pass: every step adds its own share.
//!
//! At each step the accumulated bias before it, the step's share and the
//! accumulated bias after it are opened together at one challenge, where the
//! last must be the sum of the others.

use crate::chain::{chain_state, chain_verdict, lemma_chain_err};
use crate::commit::PassCommitments;
use crate::errors::{SnarkError, and_also, holds, opened};
use crate::field::{Fr, fadd, vals};
use crate::mle::same_elements;
use crate::network::{LayerShape, NetworkArchitecture, Property};
use crate::params::SnarkParams;
use crate::pcs::{
    BatchVerifySpec, MlPcs, batch_coms, batch_open_state, batch_open_verdict, batch_values,
    hyrax_verify_batched_at,
};
use crate::shapes::{native_vector_n_vars, vector_vars};
use crate::transcript::{
    abs_u64, absorb_u64, after_squeeze, squeezable, squeeze, squeezed, state_of,
};
use ark_crypto_primitives::sponge::merlin::Transcript;
use vstd::prelude::*;

verus! {

/// What kind of layer a step goes through.
#[derive(Clone, Copy, Debug, PartialEq, Eq, Structural)]
pub enum BAccStepKind {
    Linear,
    Activation,
}

/// What a kind is bound to the transcript as.
pub open spec fn kind_code(k: BAccStepKind) -> u64 {
    match k {
        BAccStepKind::Linear => 0,
        BAccStepKind::Activation => 1,
    }
}

impl BAccStepKind {
    /// What the kind is bound to the transcript as.
    pub fn code(self) -> (r: u64)
        ensures
            r == kind_code(self),
    {
        match self {
            BAccStepKind::Linear => 0,
            BAccStepKind::Activation => 1,
        }
    }
}

/// The proof of one step's share.
pub struct BAccStepProof<P: MlPcs> {
    /// 0 for a linear layer, 1 for an activation layer.
    pub kind: u64,
    pub layer_idx: usize,
    /// The step's number among those of its kind.
    pub step_idx: usize,
    pub n_vars: usize,
    pub r: Vec<Fr>,
    pub batched_open: P::Proof,
    pub b_new_eval: Fr,
    pub b_old_eval: Fr,
    pub delta_eval: Fr,
}

/// A step of a pass: its kind, its layer, and its number among its kind.
#[derive(Clone, Copy, Debug, PartialEq, Eq, Structural)]
pub struct BAccEvent {
    pub kind: BAccStepKind,
    pub layer: usize,
    pub step: usize,
}

/// The number of variables that accumulated biases are committed with.
pub fn n_vars_for_b_acc(n_spec: usize) -> (r: usize)
    requires
        n_spec <= usize::MAX / 2 + 1,
    ensures
        r == vector_vars(n_spec as nat),
        r <= 64,
{
    native_vector_n_vars(n_spec)
}

/// The number of variables that a property's accumulated biases are committed
/// with.
pub fn b_acc_n_vars(property: &Property) -> (r: usize)
    requires
        property.rows <= usize::MAX / 2 + 1,
    ensures
        r == vector_vars(property.rows as nat),
        r <= 64,
{
    n_vars_for_b_acc(property.rows)
}

// ---- The canonical order ----

/// A layer's kind.
pub open spec fn kind_of(l: LayerShape) -> BAccStepKind {
    match l {
        LayerShape::Linear { .. } => BAccStepKind::Linear,
        LayerShape::Activation { .. } => BAccStepKind::Activation,
    }
}

/// How many layers of a kind there are from index `from` on.
pub open spec fn count_from(layers: Seq<LayerShape>, kind: BAccStepKind, from: nat) -> nat
    decreases layers.len() - from,
{
    if from >= layers.len() {
        0
    } else {
        count_from(layers, kind, from + 1) + if kind_of(layers[from as int]) == kind {
            1nat
        } else {
            0
        }
    }
}

/// The step at a layer: layers are taken from the last one down, and the steps
/// of each kind are numbered in that order.
pub open spec fn event_at_layer(layers: Seq<LayerShape>, layer: int) -> BAccEvent {
    let kind = kind_of(layers[layer]);
    BAccEvent {
        kind,
        layer: layer as usize,
        step: count_from(layers, kind, (layer + 1) as nat) as usize,
    }
}

/// The steps of a pass over an architecture, in order.
pub open spec fn canonical_events(layers: Seq<LayerShape>) -> Seq<BAccEvent> {
    Seq::new(layers.len(), |p: int| event_at_layer(layers, layers.len() - 1 - p))
}

pub proof fn lemma_layer_counts(layers: Seq<LayerShape>, from: nat)
    requires
        from <= layers.len(),
    ensures
        count_from(layers, BAccStepKind::Linear, from) + count_from(
            layers,
            BAccStepKind::Activation,
            from,
        ) == layers.len() - from,
    decreases layers.len() - from,
{
    if from < layers.len() {
        lemma_layer_counts(layers, from + 1);
    }
}

/// The canonical steps of an architecture.
fn expected_events(arch: &NetworkArchitecture) -> (r: Vec<BAccEvent>)
    ensures
        r@ == canonical_events(arch.layers@),
{
    let ghost layers = arch.layers@;
    let n: usize = arch.layers.len();
    let mut linear: usize = 0;
    let mut activation: usize = 0;
    let mut out: Vec<BAccEvent> = Vec::with_capacity(n);
    let mut i: usize = n;
    while i > 0
        invariant
            i <= n,
            layers == arch.layers@,
            n == layers.len(),
            linear == count_from(layers, BAccStepKind::Linear, i as nat),
            activation == count_from(layers, BAccStepKind::Activation, i as nat),
            out@.len() == n - i,
            forall|p: int|
                0 <= p < n - i ==> #[trigger] out@[p] == event_at_layer(layers, n - 1 - p),
        decreases i,
    {
        proof {
            lemma_layer_counts(layers, (i - 1) as nat);
        }
        i -= 1;
        match arch.layers[i] {
            LayerShape::Linear { in_dim: _, out_dim: _ } => {
                out.push(BAccEvent { kind: BAccStepKind::Linear, layer: i, step: linear });
                linear += 1;
            },
            LayerShape::Activation { kind: _ } => {
                out.push(BAccEvent { kind: BAccStepKind::Activation, layer: i, step: activation });
                activation += 1;
            },
        }
    }
    assert(out@ =~= canonical_events(layers));
    out
}

// ---- The verifier ----

/// The commitment to a step's share.
pub open spec fn share_com<P: MlPcs>(pass: PassCommitments<P>, ev: BAccEvent) -> P::Commitment {
    match ev.kind {
        BAccStepKind::Linear => pass.linear_prod_w@[ev.step as int],
        BAccStepKind::Activation => pass.activation_bias_delta@[ev.step as int],
    }
}

/// The commitments of a step: after, before, and the share.
pub open spec fn b_acc_coms<P: MlPcs>(pass: PassCommitments<P>, ev: BAccEvent) -> Seq<
    P::Commitment,
> {
    seq![
        pass.chain_b_acc@[ev.layer as int],
        pass.chain_b_acc@[ev.layer + 1],
        share_com(pass, ev),
    ]
}

/// Whether a step's commitments are there.
pub open spec fn event_there<P: MlPcs>(pass: PassCommitments<P>, ev: BAccEvent) -> bool {
    &&& ev.layer + 1 < pass.chain_b_acc@.len()
    &&& match ev.kind {
        BAccStepKind::Linear => ev.step < pass.linear_prod_w@.len(),
        BAccStepKind::Activation => ev.step < pass.activation_bias_delta@.len(),
    }
}

/// The state before a step's challenge.
pub open spec fn ba_t1(ev: BAccEvent, n_vars: usize, t0: Seq<u8>) -> Seq<u8> {
    abs_u64(
        abs_u64(
            abs_u64(abs_u64(t0, kind_code(ev.kind)), ev.layer as u64),
            ev.step as u64,
        ),
        n_vars as u64,
    )
}

/// The values that a step's proof claims.
pub open spec fn ba_values<P: MlPcs>(proof: BAccStepProof<P>) -> Seq<int> {
    seq![proof.b_new_eval@, proof.b_old_eval@, proof.delta_eval@]
}

/// The state after a step.
pub open spec fn b_acc_step_state<P: MlPcs>(
    vk: P::VerifierKey,
    proof: BAccStepProof<P>,
    ev: BAccEvent,
    pass: PassCommitments<P>,
    n_vars: usize,
    t0: Seq<u8>,
) -> Seq<u8> {
    batch_open_state::<P>(
        vk,
        b_acc_coms(pass, ev),
        ba_values(proof),
        vals(proof.r@),
        proof.batched_open,
        n_vars as nat,
        after_squeeze(ba_t1(ev, n_vars, t0), n_vars as int),
    )
}

/// The verdict on a step's proof.
pub open spec fn b_acc_step_verdict<P: MlPcs>(
    vk: P::VerifierKey,
    proof: BAccStepProof<P>,
    ev: BAccEvent,
    pass: PassCommitments<P>,
    n_vars: usize,
    t0: Seq<u8>,
) -> Result<(), SnarkError> {
    and_also(
        holds(
            proof.kind == kind_code(ev.kind) && proof.layer_idx == ev.layer && proof.step_idx
                == ev.step && proof.n_vars == n_vars,
            SnarkError::ShapeMismatch { what: "b_acc_step: kind/layer/step/n_vars mismatch" },
        ),
        and_also(
            holds(
                squeezed(ba_t1(ev, n_vars, t0), n_vars as int) == vals(proof.r@),
                SnarkError::TranscriptMismatch,
            ),
            and_also(
                opened(
                    batch_open_verdict::<P>(
                        vk,
                        b_acc_coms(pass, ev),
                        ba_values(proof),
                        vals(proof.r@),
                        proof.batched_open,
                        n_vars as nat,
                        after_squeeze(ba_t1(ev, n_vars, t0), n_vars as int),
                    ),
                    "b_acc_step_batched",
                ),
                holds(
                    proof.b_new_eval@ == fadd(proof.b_old_eval@, proof.delta_eval@),
                    SnarkError::BAccStepBindingFailed { layer: ev.layer },
                ),
            ),
        ),
    )
}

/// How the steps of a pass are checked.
pub open spec fn b_acc_check<P: MlPcs>(
    vk: P::VerifierKey,
    proofs: Seq<BAccStepProof<P>>,
    events: Seq<BAccEvent>,
    pass: PassCommitments<P>,
    n_vars: usize,
) -> spec_fn(int, Seq<u8>) -> Result<(), SnarkError> {
    |i: int, t: Seq<u8>| b_acc_step_verdict(vk, proofs[i], events[i], pass, n_vars, t)
}

/// How the steps of a pass move the transcript.
pub open spec fn b_acc_next<P: MlPcs>(
    vk: P::VerifierKey,
    proofs: Seq<BAccStepProof<P>>,
    events: Seq<BAccEvent>,
    pass: PassCommitments<P>,
    n_vars: usize,
) -> spec_fn(int, Seq<u8>) -> Seq<u8> {
    |i: int, t: Seq<u8>| b_acc_step_state(vk, proofs[i], events[i], pass, n_vars, t)
}

/// The verdict on the steps of a pass over an architecture.
pub open spec fn b_acc_verdict<P: MlPcs>(
    vk: P::VerifierKey,
    proofs: Seq<BAccStepProof<P>>,
    layers: Seq<LayerShape>,
    pass: PassCommitments<P>,
    n_vars: usize,
    t0: Seq<u8>,
) -> Result<(), SnarkError> {
    let events = canonical_events(layers);
    and_also(
        holds(
            layers.len() == proofs.len(),
            SnarkError::ShapeMismatch { what: "b_acc_step: count mismatch" },
        ),
        chain_verdict(
            b_acc_check(vk, proofs, events, pass, n_vars),
            b_acc_next(vk, proofs, events, pass, n_vars),
            proofs.len(),
            t0,
        ),
    )
}

/// The state after the steps of a pass over an architecture.
pub open spec fn b_acc_state<P: MlPcs>(
    vk: P::VerifierKey,
    proofs: Seq<BAccStepProof<P>>,
    layers: Seq<LayerShape>,
    pass: PassCommitments<P>,
    n_vars: usize,
    t0: Seq<u8>,
) -> Seq<u8> {
    chain_state(
        b_acc_next(vk, proofs, canonical_events(layers), pass, n_vars),
        proofs.len(),
        t0,
    )
}

/// The share's commitment.
pub fn share_commitment<'a, P: MlPcs>(pass: &'a PassCommitments<P>, ev: BAccEvent) -> (r:
    &'a P::Commitment)
    requires
        event_there(*pass, ev),
    ensures
        *r == share_com(*pass, ev),
{
    match ev.kind {
        BAccStepKind::Linear => &pass.linear_prod_w[ev.step],
        BAccStepKind::Activation => &pass.activation_bias_delta[ev.step],
    }
}

/// Verify one step.
fn verify_b_acc_step<P: MlPcs>(
    proof: &BAccStepProof<P>,
    ev: BAccEvent,
    pass_com: &PassCommitments<P>,
    n_vars: usize,
    params: &SnarkParams<P>,
    sponge: &mut Transcript,
) -> (r: Result<(), SnarkError>)
    requires
        event_there(*pass_com, ev),
        squeezable(n_vars as int),
    ensures
        r == b_acc_step_verdict(
            params.verifier_key,
            *proof,
            ev,
            *pass_com,
            n_vars,
            state_of(*old(sponge)),
        ),
        r is Ok ==> state_of(*final(sponge)) == b_acc_step_state(
            params.verifier_key,
            *proof,
            ev,
            *pass_com,
            n_vars,
            state_of(*old(sponge)),
        ),
{
    let kind_u: u64 = ev.kind.code();
    if proof.kind != kind_u || proof.layer_idx != ev.layer || proof.step_idx != ev.step
        || proof.n_vars != n_vars {
        return Err(
            SnarkError::ShapeMismatch { what: "b_acc_step: kind/layer/step/n_vars mismatch" },
        );
    }
    let delta_com: &P::Commitment = share_commitment::<P>(pass_com, ev);
    assert(ev.layer + 1 < pass_com.chain_b_acc.len());
    let b_new_com: &P::Commitment = &pass_com.chain_b_acc[ev.layer];
    let b_old_com: &P::Commitment = &pass_com.chain_b_acc[ev.layer + 1];
    absorb_u64(sponge, kind_u);
    absorb_u64(sponge, ev.layer as u64);
    absorb_u64(sponge, ev.step as u64);
    absorb_u64(sponge, n_vars as u64);
    let r: Vec<Fr> = squeeze(sponge, n_vars);
    if !same_elements(r.as_slice(), proof.r.as_slice()) {
        return Err(SnarkError::TranscriptMismatch);
    }
    let mut items: Vec<BatchVerifySpec<'_, P>> = Vec::with_capacity(3);
    items.push(
        BatchVerifySpec { commitment: b_new_com, value: proof.b_new_eval, commit_n_vars: n_vars },
    );
    items.push(
        BatchVerifySpec { commitment: b_old_com, value: proof.b_old_eval, commit_n_vars: n_vars },
    );
    items.push(
        BatchVerifySpec { commitment: delta_com, value: proof.delta_eval, commit_n_vars: n_vars },
    );
    proof {
        assert(batch_coms(items@) =~= b_acc_coms(*pass_com, ev));
        assert(batch_values(items@) =~= ba_values(*proof));
    }
    match hyrax_verify_batched_at::<P>(
        &params.verifier_key,
        &items,
        proof.r.as_slice(),
        &proof.batched_open,
        sponge,
    ) {
        Ok(true) => {},
        Ok(false) => {
            return Err(SnarkError::PcsOpenRejected { which: "b_acc_step_batched" });
        },
        Err(e) => {
            return Err(e);
        },
    }
    if proof.b_new_eval != proof.b_old_eval.add(proof.delta_eval) {
        return Err(SnarkError::BAccStepBindingFailed { layer: ev.layer });
    }
    Ok(())
}

/// Verify the steps of a pass, in the order that the public architecture
/// gives.
pub fn verify_b_acc_step_proofs<P: MlPcs>(
    proofs: &Vec<BAccStepProof<P>>,
    pass_com: &PassCommitments<P>,
    arch: &NetworkArchitecture,
    n_vars: usize,
    params: &SnarkParams<P>,
    sponge: &mut Transcript,
) -> (r: Result<(), SnarkError>)
    requires
        squeezable(n_vars as int),
        forall|p: int|
            0 <= p < arch.layers@.len() ==> event_there(
                *pass_com,
                #[trigger] canonical_events(arch.layers@)[p],
            ),
    ensures
        r == b_acc_verdict(
            params.verifier_key,
            proofs@,
            arch.layers@,
            *pass_com,
            n_vars,
            state_of(*old(sponge)),
        ),
        r is Ok ==> state_of(*final(sponge)) == b_acc_state(
            params.verifier_key,
            proofs@,
            arch.layers@,
            *pass_com,
            n_vars,
            state_of(*old(sponge)),
        ),
{
    let ghost t0 = state_of(*sponge);
    let ghost vk = params.verifier_key;
    let expected: Vec<BAccEvent> = expected_events(arch);
    if expected.len() != proofs.len() {
        return Err(SnarkError::ShapeMismatch { what: "b_acc_step: count mismatch" });
    }
    let ghost check = b_acc_check(vk, proofs@, expected@, *pass_com, n_vars);
    let ghost next = b_acc_next(vk, proofs@, expected@, *pass_com, n_vars);
    let mut i: usize = 0;
    while i < proofs.len()
        invariant
            i <= proofs@.len(),
            t0 == state_of(*old(sponge)),
            vk == params.verifier_key,
            squeezable(n_vars as int),
            expected@ == canonical_events(arch.layers@),
            expected@.len() == proofs@.len(),
            forall|p: int|
                0 <= p < arch.layers@.len() ==> event_there(
                    *pass_com,
                    #[trigger] canonical_events(arch.layers@)[p],
                ),
            check == b_acc_check(vk, proofs@, expected@, *pass_com, n_vars),
            next == b_acc_next(vk, proofs@, expected@, *pass_com, n_vars),
            chain_verdict(check, next, i as nat, t0) == Ok::<(), SnarkError>(()),
            state_of(*sponge) == chain_state(next, i as nat, t0),
        decreases proofs@.len() - i,
    {
        let ghost t1 = state_of(*sponge);
        assert(event_there(*pass_com, canonical_events(arch.layers@)[i as int]));
        match verify_b_acc_step::<P>(&proofs[i], expected[i], pass_com, n_vars, params, sponge) {
            Ok(_) => {
                assert(check(i as int, t1) is Ok);
            },
            Err(e) => {
                proof {
                    lemma_chain_err(check, next, (i + 1) as nat, proofs@.len(), t0);
                }
                return Err(e);
            },
        }
        i += 1;
    }
    Ok(())
}

} // verus!
