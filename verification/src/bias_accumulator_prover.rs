//! The prover of a pass's running bias.

use crate::architecture::{activation_indices, law_steps_partition, linear_indices};
use crate::bias_accumulator::{
    BAccEvent, BAccStepKind, BAccStepProof, b_acc_check, b_acc_coms, b_acc_next, b_acc_state,
    b_acc_step_state, b_acc_step_verdict, b_acc_verdict, ba_t1, canonical_events, count_from,
    event_there, kind_code, kind_of, lemma_layer_counts, share_com, share_commitment,
};
use crate::chain::{chain_state, chain_verdict, lemma_chain_prefix};
use crate::commit::{PassCommitments, PassProverStates, vector_committed};
use crate::errors::SnarkError;
use crate::field::{Fr, all_in_field, fadd, lemma_view_in_field, vals};
use crate::mle::mle;
use crate::mle_laws::{combined, law_mle_linear, lemma_mle_in_field};
use crate::network::LayerShape;
use crate::params::SnarkParams;
use crate::pcs::{BatchOpenSpec, CommittedAux, MlPcs, hyrax_open_batched_at, zeros};
use crate::poly::lin;
use crate::qarray::{
    QArray1, code_differences, differences_fit, repeated, vector_codes, vector_table,
};
use crate::ring::{group_in_field, lemma_fadd_zero, lemma_fmul_one, lemma_residue_add};
use crate::shapes::{law_vector_vars, vector_vars};
use crate::trace::BackwardTrace;
use crate::transcript::{absorb_u64, squeezable, squeeze, squeezed, state_of};
use ark_crypto_primitives::sponge::merlin::Transcript;
use vstd::prelude::*;

verus! {

// ---- The order of the steps ----

/// Whether one step is recorded before another: linear steps first, and each
/// kind by its numbers.
pub open spec fn recorded_before(a: BAccEvent, b: BAccEvent) -> bool {
    if a.kind == b.kind {
        a.step < b.step
    } else {
        a.kind is Linear
    }
}

/// Whether one step is proved before another: later layers first, and steps of
/// one layer as they are recorded.
pub open spec fn proved_before(a: BAccEvent, b: BAccEvent) -> bool {
    a.layer > b.layer || (a.layer == b.layer && recorded_before(a, b))
}

/// The steps of a trace, as they are recorded.
pub open spec fn recorded_events(trace: BackwardTrace) -> Seq<BAccEvent> {
    Seq::new(
        trace.linear_steps@.len(),
        |i: int|
            BAccEvent {
                kind: BAccStepKind::Linear,
                layer: trace.linear_steps@[i].layer_idx,
                step: i as usize,
            },
    ) + Seq::new(
        trace.activation_steps@.len(),
        |i: int|
            BAccEvent {
                kind: BAccStepKind::Activation,
                layer: trace.activation_steps@[i].layer_idx,
                step: i as usize,
            },
    )
}

/// Whether steps stand in the order in which they are proved.
pub open spec fn in_proving_order(events: Seq<BAccEvent>) -> bool {
    forall|i: int, j: int|
        0 <= i < j < events.len() ==> proved_before(#[trigger] events[i], #[trigger] events[j])
}

/// Whether two sequences hold the same steps.
pub open spec fn same_events(a: Seq<BAccEvent>, b: Seq<BAccEvent>) -> bool {
    forall|e: BAccEvent| #[trigger] a.contains(e) <==> b.contains(e)
}

/// The same steps in proving order are the same sequence.
pub proof fn law_proving_order_unique(a: Seq<BAccEvent>, b: Seq<BAccEvent>)
    requires
        in_proving_order(a),
        in_proving_order(b),
        same_events(a, b),
    ensures
        a == b,
    decreases a.len(),
{
    if a.len() == 0 {
        if b.len() > 0 {
            assert(b.contains(b[0]));
            assert(a.contains(b[0]));
        }
        assert(a =~= b);
    } else {
        assert(a.contains(a[0]));
        assert(b.contains(a[0]));
        let k = choose|k: int| 0 <= k < b.len() && b[k] == a[0];
        assert(b.contains(b[0]));
        assert(a.contains(b[0]));
        let m = choose|m: int| 0 <= m < a.len() && a[m] == b[0];
        if k > 0 {
            assert(proved_before(b[0], b[k]));
            if m > 0 {
                assert(proved_before(a[0], a[m]));
            }
        }
        assert(a[0] == b[0]);
        let (x, y) = (a.drop_first(), b.drop_first());
        assert forall|e: BAccEvent| #[trigger] x.contains(e) <==> y.contains(e) by {
            if x.contains(e) {
                let i = choose|i: int| 0 <= i < x.len() && x[i] == e;
                assert(a[i + 1] == e);
                assert(a.contains(e));
                assert(b.contains(e));
                let j = choose|j: int| 0 <= j < b.len() && b[j] == e;
                assert(proved_before(a[0], a[i + 1]));
                assert(j > 0);
                assert(y[j - 1] == e);
            }
            if y.contains(e) {
                let i = choose|i: int| 0 <= i < y.len() && y[i] == e;
                assert(b[i + 1] == e);
                assert(b.contains(e));
                assert(a.contains(e));
                let j = choose|j: int| 0 <= j < a.len() && a[j] == e;
                assert(proved_before(b[0], b[i + 1]));
                assert(j > 0);
                assert(x[j - 1] == e);
            }
        }
        assert forall|i: int, j: int| 0 <= i < j < x.len() implies proved_before(
            #[trigger] x[i],
            #[trigger] x[j],
        ) by {
            assert(proved_before(a[i + 1], a[j + 1]));
        }
        assert forall|i: int, j: int| 0 <= i < j < y.len() implies proved_before(
            #[trigger] y[i],
            #[trigger] y[j],
        ) by {
            assert(proved_before(b[i + 1], b[j + 1]));
        }
        law_proving_order_unique(x, y);
        assert(a =~= seq![a[0]] + x);
        assert(b =~= seq![b[0]] + y);
    }
}

/// The steps of a trace, as they are recorded.
fn collect_events(trace: &BackwardTrace) -> (r: Vec<BAccEvent>)
    ensures
        r@ == recorded_events(*trace),
{
    let ghost all = recorded_events(*trace);
    let mut out: Vec<BAccEvent> = Vec::new();
    let mut i: usize = 0;
    while i < trace.linear_steps.len()
        invariant
            i <= trace.linear_steps@.len(),
            all == recorded_events(*trace),
            out@.len() == i,
            forall|k: int| 0 <= k < i ==> #[trigger] out@[k] == all[k],
        decreases trace.linear_steps@.len() - i,
    {
        out.push(
            BAccEvent {
                kind: BAccStepKind::Linear,
                layer: trace.linear_steps[i].layer_idx,
                step: i,
            },
        );
        i += 1;
    }
    let mut j: usize = 0;
    while j < trace.activation_steps.len()
        invariant
            j <= trace.activation_steps@.len(),
            all == recorded_events(*trace),
            out@.len() == trace.linear_steps@.len() + j,
            forall|k: int|
                0 <= k < trace.linear_steps@.len() + j ==> #[trigger] out@[k] == all[k],
        decreases trace.activation_steps@.len() - j,
    {
        out.push(
            BAccEvent {
                kind: BAccStepKind::Activation,
                layer: trace.activation_steps[j].layer_idx,
                step: j,
            },
        );
        j += 1;
    }
    assert(out@ =~= all);
    out
}

/// Put a step behind the steps of its layer and of later ones.
fn insert_event(out: &mut Vec<BAccEvent>, e: BAccEvent)
    requires
        in_proving_order(old(out)@),
        forall|k: int| 0 <= k < old(out)@.len() ==> recorded_before(#[trigger] old(out)@[k], e),
        old(out)@.len() < usize::MAX,
    ensures
        in_proving_order(final(out)@),
        final(out)@.len() == old(out)@.len() + 1,
        forall|x: BAccEvent| #[trigger]
            final(out)@.contains(x) <==> old(out)@.contains(x) || x == e,
{
    let ghost before = out@;
    let mut pos: usize = 0;
    while pos < out.len() && out[pos].layer >= e.layer
        invariant
            pos <= out@.len(),
            out@ == before,
            forall|k: int| 0 <= k < pos ==> (#[trigger] out@[k]).layer >= e.layer,
        decreases out@.len() - pos,
    {
        pos += 1;
    }
    out.insert(pos, e);
    proof {
        let p = pos as int;
        assert(out@ =~= before.insert(p, e));
        assert forall|i: int, j: int| 0 <= i < j < out@.len() implies proved_before(
            #[trigger] out@[i],
            #[trigger] out@[j],
        ) by {
            let a = if i < p {
                i
            } else {
                i - 1
            };
            let b = if j < p {
                j
            } else {
                j - 1
            };
            if i != p && j != p {
                assert(proved_before(before[a], before[b]));
            } else if j == p {
                assert(before[i].layer >= e.layer);
                assert(recorded_before(before[i], e));
            } else {
                assert(before[p].layer < e.layer);
                if p < b {
                    assert(proved_before(before[p], before[b]));
                }
            }
        }
        assert forall|x: BAccEvent| #[trigger] out@.contains(x) <==> before.contains(x) || x
            == e by {
            if before.contains(x) {
                let k = choose|k: int| 0 <= k < before.len() && before[k] == x;
                assert(out@[if k < p {
                    k
                } else {
                    k + 1
                }] == x);
            }
            if x == e {
                assert(out@[p] == e);
            }
            if out@.contains(x) {
                let k = choose|k: int| 0 <= k < out@.len() && out@[k] == x;
                if k < p {
                    assert(before[k] == x);
                } else if k > p {
                    assert(before[k - 1] == x);
                }
            }
        }
    }
}

/// The steps of a trace, in the order in which they are proved.
fn ordered_events(trace: &BackwardTrace) -> (r: Vec<BAccEvent>)
    ensures
        in_proving_order(r@),
        same_events(r@, recorded_events(*trace)),
        r@.len() == recorded_events(*trace).len(),
{
    let all: Vec<BAccEvent> = collect_events(trace);
    let mut out: Vec<BAccEvent> = Vec::with_capacity(all.len());
    let mut k: usize = 0;
    while k < all.len()
        invariant
            k <= all@.len(),
            all@ == recorded_events(*trace),
            out@.len() == k,
            in_proving_order(out@),
            forall|x: BAccEvent| #[trigger] out@.contains(x) <==> all@.take(k as int).contains(x),
        decreases all@.len() - k,
    {
        let e: BAccEvent = all[k];
        proof {
            assert forall|q: int| 0 <= q < out@.len() implies recorded_before(
                #[trigger] out@[q],
                e,
            ) by {
                assert(out@.contains(out@[q]));
                let t = all@.take(k as int);
                assert(t.contains(out@[q]));
                let j = choose|j: int| 0 <= j < t.len() && t[j] == out@[q];
                assert(all@[j] == out@[q]);
            }
        }
        let ghost before = out@;
        insert_event(&mut out, e);
        proof {
            let (s, t) = (all@.take(k as int), all@.take(k + 1));
            assert(t =~= s.push(e));
            assert forall|x: BAccEvent| #[trigger] out@.contains(x) <==> t.contains(x) by {
                assert(before.contains(x) <==> s.contains(x));
                if s.contains(x) {
                    let j = choose|j: int| 0 <= j < s.len() && s[j] == x;
                    assert(t[j] == x);
                }
                if x == e {
                    assert(t[k as int] == x);
                }
                if t.contains(x) {
                    let j = choose|j: int| 0 <= j < t.len() && t[j] == x;
                    if j < k {
                        assert(s[j] == x);
                    }
                }
            }
        }
        k += 1;
    }
    assert(all@.take(all@.len() as int) =~= all@);
    out
}

// ---- The canonical order ----

/// The layers of a kind among the first `k`, from the last one down.
pub open spec fn kind_indices(layers: Seq<LayerShape>, kind: BAccStepKind, k: nat) -> Seq<usize> {
    match kind {
        BAccStepKind::Linear => linear_indices(layers, k),
        BAccStepKind::Activation => activation_indices(layers, k),
    }
}

/// Whether a trace has its steps at an architecture's layers, each kind from
/// the last layer down.
pub open spec fn trace_follows(trace: BackwardTrace, layers: Seq<LayerShape>) -> bool {
    let lin = linear_indices(layers, layers.len());
    let act = activation_indices(layers, layers.len());
    &&& layers.len() < usize::MAX
    &&& trace.linear_steps@.len() == lin.len()
    &&& trace.activation_steps@.len() == act.len()
    &&& forall|k: int|
        0 <= k < lin.len() ==> (#[trigger] trace.linear_steps@[k]).layer_idx == lin[k]
    &&& forall|k: int|
        0 <= k < act.len() ==> (#[trigger] trace.activation_steps@[k]).layer_idx == act[k]
}

proof fn lemma_kind_step(layers: Seq<LayerShape>, kind: BAccStepKind, k: nat)
    requires
        0 < k <= layers.len() <= usize::MAX,
    ensures
        kind_indices(layers, kind, k) == (if kind_of(layers[k - 1]) == kind {
            seq![(k - 1) as usize] + kind_indices(layers, kind, (k - 1) as nat)
        } else {
            kind_indices(layers, kind, (k - 1) as nat)
        }),
{
}

/// The layers of a kind below `k` follow those from `k` on.
proof fn lemma_kind_split(layers: Seq<LayerShape>, kind: BAccStepKind, k: nat)
    requires
        k <= layers.len() <= usize::MAX,
    ensures
        ({
            let all = kind_indices(layers, kind, layers.len());
            let low = kind_indices(layers, kind, k);
            let c = count_from(layers, kind, k);
            &&& all.len() == c + low.len()
            &&& forall|j: int| 0 <= j < low.len() ==> #[trigger] low[j] == all[c + j]
        }),
    decreases layers.len() - k,
{
    if k < layers.len() {
        lemma_kind_split(layers, kind, k + 1);
        lemma_kind_step(layers, kind, k + 1);
        let all = kind_indices(layers, kind, layers.len());
        let low = kind_indices(layers, kind, k);
        let high = kind_indices(layers, kind, k + 1);
        let c = count_from(layers, kind, k);
        assert forall|j: int| 0 <= j < low.len() implies #[trigger] low[j] == all[c + j] by {
            if kind_of(layers[k as int]) == kind {
                assert(high[j + 1] == low[j]);
            } else {
                assert(high[j] == low[j]);
            }
        }
    }
}

/// The layers of a kind descend.
proof fn lemma_kind_descends(layers: Seq<LayerShape>, kind: BAccStepKind, k: nat)
    requires
        k <= layers.len() <= usize::MAX,
    ensures
        ({
            let s = kind_indices(layers, kind, k);
            &&& forall|i: int| 0 <= i < s.len() ==> #[trigger] s[i] < k && kind_of(
                layers[s[i] as int],
            ) == kind
            &&& forall|i: int, j: int| 0 <= i < j < s.len() ==> #[trigger] s[i] > #[trigger] s[j]
        }),
    decreases k,
{
    if k > 0 {
        lemma_kind_descends(layers, kind, (k - 1) as nat);
        lemma_kind_step(layers, kind, k);
        let s = kind_indices(layers, kind, k);
        let r = kind_indices(layers, kind, (k - 1) as nat);
        if kind_of(layers[k - 1]) == kind {
            assert forall|i: int| 0 <= i < s.len() implies #[trigger] s[i] < k && kind_of(
                layers[s[i] as int],
            ) == kind by {
                if i > 0 {
                    assert(s[i] == r[i - 1]);
                }
            }
            assert forall|i: int, j: int| 0 <= i < j < s.len() implies #[trigger] s[i]
                > #[trigger] s[j] by {
                assert(s[j] == r[j - 1]);
                if i > 0 {
                    assert(s[i] == r[i - 1]);
                }
            }
        }
    }
}

/// The layer of a kind at its number among its kind.
pub proof fn lemma_kind_at(layers: Seq<LayerShape>, kind: BAccStepKind, l: nat)
    requires
        l < layers.len() <= usize::MAX,
        kind_of(layers[l as int]) == kind,
    ensures
        ({
            let all = kind_indices(layers, kind, layers.len());
            let c = count_from(layers, kind, l + 1);
            c < all.len() && all[c as int] == l
        }),
{
    lemma_kind_split(layers, kind, l + 1);
    lemma_kind_step(layers, kind, l + 1);
    let low = kind_indices(layers, kind, l + 1);
    assert(low[0] == l as usize);
}

/// A trace that follows an architecture holds the architecture's canonical
/// steps.
pub proof fn law_following_trace(trace: BackwardTrace, layers: Seq<LayerShape>)
    requires
        trace_follows(trace, layers),
    ensures
        same_events(recorded_events(trace), canonical_events(layers)),
        in_proving_order(canonical_events(layers)),
        recorded_events(trace).len() == layers.len(),
{
    let rec = recorded_events(trace);
    let can = canonical_events(layers);
    let n = layers.len();
    law_steps_partition(layers, n);
    assert forall|i: int, j: int| 0 <= i < j < can.len() implies proved_before(
        #[trigger] can[i],
        #[trigger] can[j],
    ) by {}
    assert forall|e: BAccEvent| #[trigger] rec.contains(e) <==> can.contains(e) by {
        if can.contains(e) {
            let p = choose|p: int| 0 <= p < can.len() && can[p] == e;
            let l = (n - 1 - p) as nat;
            lemma_kind_at(layers, e.kind, l);
            lemma_layer_counts(layers, l + 1);
            if e.kind is Linear {
                assert(trace.linear_steps@[e.step as int].layer_idx == l);
                assert(rec[e.step as int] == e);
            } else {
                assert(trace.activation_steps@[e.step as int].layer_idx == l);
                assert(rec[trace.linear_steps@.len() + e.step] == e);
            }
        }
        if rec.contains(e) {
            let i = choose|i: int| 0 <= i < rec.len() && rec[i] == e;
            let all = kind_indices(layers, e.kind, n);
            lemma_kind_descends(layers, e.kind, n);
            let l = e.layer as nat;
            if e.kind is Linear {
                assert(trace.linear_steps@[e.step as int].layer_idx == all[e.step as int]);
            } else {
                assert(trace.activation_steps@[e.step as int].layer_idx == all[e.step as int]);
            }
            assert(all[e.step as int] == l);
            lemma_kind_at(layers, e.kind, l);
            let c = count_from(layers, e.kind, l + 1) as int;
            assert(all[c] == l);
            if c < e.step {
                assert(all[c] > all[e.step as int]);
            } else if c > e.step {
                assert(all[e.step as int] > all[c]);
            }
            assert(can[n - 1 - l] == e);
        }
    }
}

// ---- The proofs ----

/// The accumulated bias after a step.
pub open spec fn bias_after(trace: BackwardTrace, ev: BAccEvent) -> QArray1 {
    match ev.kind {
        BAccStepKind::Linear => trace.linear_steps@[ev.step as int].b_acc_new,
        BAccStepKind::Activation => trace.activation_steps@[ev.step as int].b_acc_new,
    }
}

/// The accumulated bias before a step.
pub open spec fn bias_before(trace: BackwardTrace, ev: BAccEvent) -> QArray1 {
    match ev.kind {
        BAccStepKind::Linear => trace.linear_steps@[ev.step as int].b_acc_old,
        BAccStepKind::Activation => trace.activation_steps@[ev.step as int].b_acc_old,
    }
}

/// What was kept of a step's share.
pub open spec fn share_aux<P: MlPcs>(st: PassProverStates<P>, ev: BAccEvent) -> CommittedAux<P> {
    match ev.kind {
        BAccStepKind::Linear => st.linear_prod_w@[ev.step as int],
        BAccStepKind::Activation => st.activation_bias_delta@[ev.step as int],
    }
}

/// Whether what was kept of a step is there.
pub open spec fn event_kept<P: MlPcs>(st: PassProverStates<P>, ev: BAccEvent) -> bool {
    &&& ev.layer + 1 < st.chain_b_acc@.len()
    &&& match ev.kind {
        BAccStepKind::Linear => ev.step < st.linear_prod_w@.len(),
        BAccStepKind::Activation => ev.step < st.activation_bias_delta@.len(),
    }
}

/// Whether a step's share is the difference of the biases around it, and the
/// three are committed with `n_vars` variables.
pub open spec fn event_ready<P: MlPcs>(
    ck: P::CommitterKey,
    trace: BackwardTrace,
    ev: BAccEvent,
    pass: PassCommitments<P>,
    st: PassProverStates<P>,
    n_vars: usize,
) -> bool {
    let new = vector_codes(bias_after(trace, ev).codes);
    let old = vector_codes(bias_before(trace, ev).codes);
    &&& new.len() == old.len()
    &&& vector_vars(new.len()) == n_vars
    &&& differences_fit(new, old)
    &&& vector_committed(
        ck,
        new,
        pass.chain_b_acc@[ev.layer as int],
        st.chain_b_acc@[ev.layer as int],
    )
    &&& vector_committed(
        ck,
        old,
        pass.chain_b_acc@[ev.layer + 1],
        st.chain_b_acc@[ev.layer + 1],
    )
    &&& vector_committed(ck, code_differences(new, old), share_com(pass, ev), share_aux(st, ev))
}

/// A vector's table is the sum of another's and of their difference's.
proof fn lemma_share_sums(new: Seq<i128>, old: Seq<i128>, r: Seq<int>)
    requires
        new.len() == old.len(),
        vector_vars(new.len()) == r.len(),
        differences_fit(new, old),
        all_in_field(r),
    ensures
        mle(vector_table(new), r) == fadd(
            mle(vector_table(old), r),
            mle(vector_table(code_differences(new, old)), r),
        ),
{
    broadcast use group_in_field;

    let d = code_differences(new, old);
    let (tn, to, td) = (vector_table(new), vector_table(old), vector_table(d));
    law_vector_vars(new.len());
    assert forall|i: int| 0 <= i < tn.len() implies #[trigger] tn[i] == combined(1, to, td)[i] by {
        lemma_fmul_one(to[i]);
        if i < new.len() {
            assert(i128::MIN <= repeated(new, i) - repeated(old, i) <= i128::MAX);
            lemma_residue_add(old[i] as int, d[i] as int);
        } else {
            lemma_fadd_zero(0);
        }
    }
    assert(tn =~= combined(1, to, td));
    assert(all_in_field(to));
    assert(all_in_field(td));
    law_mle_linear(1, to, td, r);
    lemma_mle_in_field(to, r);
    lemma_fmul_one(mle(to, r));
}

/// What was kept of a step's share.
fn share_kept<'a, P: MlPcs>(st: &'a PassProverStates<P>, ev: BAccEvent) -> (r: &'a CommittedAux<P>)
    requires
        event_kept(*st, ev),
    ensures
        *r == share_aux(*st, ev),
{
    match ev.kind {
        BAccStepKind::Linear => &st.linear_prod_w[ev.step],
        BAccStepKind::Activation => &st.activation_bias_delta[ev.step],
    }
}

/// Prove one step.
fn build_b_acc_step<P: MlPcs>(
    trace: Ghost<BackwardTrace>,
    ev: BAccEvent,
    pass_com: &PassCommitments<P>,
    pass_st: &PassProverStates<P>,
    n_vars: usize,
    params: &SnarkParams<P>,
    sponge: &mut Transcript,
    rng: &mut P::Randomness,
) -> (r: Result<BAccStepProof<P>, SnarkError>)
    requires
        event_there(*pass_com, ev),
        event_kept(*pass_st, ev),
        squeezable(n_vars as int),
    ensures
        r matches Ok(proof) ==> {
            &&& proof.kind == kind_code(ev.kind)
            &&& proof.layer_idx == ev.layer
            &&& proof.step_idx == ev.step
            &&& proof.n_vars == n_vars
            &&& vals(proof.r@) == squeezed(
                ba_t1(ev, n_vars, state_of(*old(sponge))),
                n_vars as int,
            )
        },
        event_ready(params.committer_key, trace@, ev, *pass_com, *pass_st, n_vars) ==> {
            &&& r matches Ok(proof)
            &&& params.keys_match() ==> {
                &&& b_acc_step_verdict(
                    params.verifier_key,
                    proof,
                    ev,
                    *pass_com,
                    n_vars,
                    state_of(*old(sponge)),
                ) == Ok::<(), SnarkError>(())
                &&& state_of(*final(sponge)) == b_acc_step_state(
                    params.verifier_key,
                    proof,
                    ev,
                    *pass_com,
                    n_vars,
                    state_of(*old(sponge)),
                )
            }
        },
{
    let kind_u: u64 = ev.kind.code();
    let delta_aux: &CommittedAux<P> = share_kept::<P>(pass_st, ev);
    let delta_com: &P::Commitment = share_commitment::<P>(pass_com, ev);
    assert(ev.layer + 1 < pass_com.chain_b_acc.len());
    let b_new_aux: &CommittedAux<P> = &pass_st.chain_b_acc[ev.layer];
    let b_new_com: &P::Commitment = &pass_com.chain_b_acc[ev.layer];
    let b_old_aux: &CommittedAux<P> = &pass_st.chain_b_acc[ev.layer + 1];
    let b_old_com: &P::Commitment = &pass_com.chain_b_acc[ev.layer + 1];
    absorb_u64(sponge, kind_u);
    absorb_u64(sponge, ev.layer as u64);
    absorb_u64(sponge, ev.step as u64);
    absorb_u64(sponge, n_vars as u64);
    let r: Vec<Fr> = squeeze(sponge, n_vars);
    let mut items: Vec<BatchOpenSpec<'_, P>> = Vec::with_capacity(3);
    items.push(BatchOpenSpec { aux: b_new_aux, commitment: b_new_com, commit_n_vars: n_vars });
    items.push(BatchOpenSpec { aux: b_old_aux, commitment: b_old_com, commit_n_vars: n_vars });
    items.push(BatchOpenSpec { aux: delta_aux, commitment: delta_com, commit_n_vars: n_vars });
    let ghost ready = event_ready(
        params.committer_key,
        trace@,
        ev,
        *pass_com,
        *pass_st,
        n_vars,
    );
    let ghost new = vector_codes(bias_after(trace@, ev).codes);
    let ghost old_ = vector_codes(bias_before(trace@, ev).codes);
    proof {
        broadcast use lemma_view_in_field;

        assert(Seq::new(items@.len(), |i: int| *items@[i].commitment) =~= b_acc_coms(
            *pass_com,
            ev,
        ));
        if ready {
            law_vector_vars(new.len());
            assert(vals(b_new_aux.table@).len() == b_new_aux.table@.len());
            assert(vals(b_old_aux.table@).len() == b_old_aux.table@.len());
            assert(vals(delta_aux.table@).len() == delta_aux.table@.len());
            assert(zeros(0) + vals(r@) =~= vals(r@));
            lemma_share_sums(new, old_, vals(r@));
        }
    }
    let (values, batched_open): (Vec<Fr>, P::Proof) = match hyrax_open_batched_at::<P>(
        &params.committer_key,
        &items,
        r.as_slice(),
        sponge,
        rng,
    ) {
        Ok(x) => x,
        Err(e) => {
            return Err(e);
        },
    };
    let (b_new_eval, b_old_eval, delta_eval): (Fr, Fr, Fr) = (values[0], values[1], values[2]);
    proof {
        assert(vals(values@) =~= seq![b_new_eval@, b_old_eval@, delta_eval@]);
        assert(vals(values@)[0] == b_new_eval@ && vals(values@)[1] == b_old_eval@ && vals(
            values@,
        )[2] == delta_eval@);
    }
    Ok(
        BAccStepProof {
            kind: kind_u,
            layer_idx: ev.layer,
            step_idx: ev.step,
            n_vars,
            r,
            batched_open,
            b_new_eval,
            b_old_eval,
            delta_eval,
        },
    )
}

/// The step that a proof is of.
pub open spec fn event_of<P: MlPcs>(proof: BAccStepProof<P>) -> BAccEvent {
    BAccEvent {
        kind: if proof.kind == 0 {
            BAccStepKind::Linear
        } else {
            BAccStepKind::Activation
        },
        layer: proof.layer_idx,
        step: proof.step_idx,
    }
}

/// The steps that proofs are of.
pub open spec fn events_of<P: MlPcs>(proofs: Seq<BAccStepProof<P>>) -> Seq<BAccEvent> {
    Seq::new(proofs.len(), |i: int| event_of(proofs[i]))
}

/// Whether every step of a trace is ready to be proved.
pub open spec fn b_acc_ready<P: MlPcs>(
    ck: P::CommitterKey,
    trace: BackwardTrace,
    pass: PassCommitments<P>,
    st: PassProverStates<P>,
    n_vars: usize,
) -> bool {
    forall|e: BAccEvent| #[trigger]
        recorded_events(trace).contains(e) ==> event_ready(ck, trace, e, pass, st, n_vars)
}

/// Prove every step's share of a pass's running bias, later layers first. The
/// proofs are accepted for every architecture that the trace follows.
pub fn build_b_acc_step_proofs<P: MlPcs>(
    trace: &BackwardTrace,
    pass_com: &PassCommitments<P>,
    pass_st: &PassProverStates<P>,
    n_vars: usize,
    params: &SnarkParams<P>,
    sponge: &mut Transcript,
    rng: &mut P::Randomness,
) -> (r: Result<Vec<BAccStepProof<P>>, SnarkError>)
    requires
        squeezable(n_vars as int),
        forall|e: BAccEvent| #[trigger]
            recorded_events(*trace).contains(e) ==> event_there(*pass_com, e) && event_kept(
                *pass_st,
                e,
            ),
    ensures
        r matches Ok(proofs) ==> {
            &&& proofs@.len() == recorded_events(*trace).len()
            &&& in_proving_order(events_of(proofs@))
            &&& same_events(events_of(proofs@), recorded_events(*trace))
        },
        b_acc_ready(params.committer_key, *trace, *pass_com, *pass_st, n_vars)
            && params.keys_match() ==> {
            &&& r matches Ok(proofs)
            &&& forall|layers: Seq<LayerShape>| #[trigger]
                trace_follows(*trace, layers) ==> {
                    &&& b_acc_verdict(
                        params.verifier_key,
                        proofs@,
                        layers,
                        *pass_com,
                        n_vars,
                        state_of(*old(sponge)),
                    ) == Ok::<(), SnarkError>(())
                    &&& state_of(*final(sponge)) == b_acc_state(
                        params.verifier_key,
                        proofs@,
                        layers,
                        *pass_com,
                        n_vars,
                        state_of(*old(sponge)),
                    )
                }
        },
{
    let ghost t0 = state_of(*sponge);
    let ghost vk = params.verifier_key;
    let ghost ready = b_acc_ready(params.committer_key, *trace, *pass_com, *pass_st, n_vars)
        && params.keys_match();
    let steps: Vec<BAccEvent> = ordered_events(trace);
    let ghost ev = steps@;
    let mut out: Vec<BAccStepProof<P>> = Vec::with_capacity(steps.len());
    let mut i: usize = 0;
    while i < steps.len()
        invariant
            i <= steps@.len(),
            ev == steps@,
            t0 == state_of(*old(sponge)),
            vk == params.verifier_key,
            ready == (b_acc_ready(params.committer_key, *trace, *pass_com, *pass_st, n_vars)
                && params.keys_match()),
            squeezable(n_vars as int),
            same_events(ev, recorded_events(*trace)),
            forall|e: BAccEvent| #[trigger]
                recorded_events(*trace).contains(e) ==> event_there(*pass_com, e) && event_kept(
                    *pass_st,
                    e,
                ),
            out@.len() == i,
            forall|k: int| 0 <= k < i ==> event_of(#[trigger] out@[k]) == ev[k],
            ready ==> {
                &&& chain_verdict(
                    b_acc_check(vk, out@, ev, *pass_com, n_vars),
                    b_acc_next(vk, out@, ev, *pass_com, n_vars),
                    i as nat,
                    t0,
                ) == Ok::<(), SnarkError>(())
                &&& state_of(*sponge) == chain_state(
                    b_acc_next(vk, out@, ev, *pass_com, n_vars),
                    i as nat,
                    t0,
                )
            },
        decreases steps@.len() - i,
    {
        let ghost before = out@;
        let ghost t1 = state_of(*sponge);
        proof {
            assert(ev.contains(ev[i as int]));
            assert(recorded_events(*trace).contains(ev[i as int]));
        }
        match build_b_acc_step::<P>(
            Ghost(*trace),
            steps[i],
            pass_com,
            pass_st,
            n_vars,
            params,
            sponge,
            rng,
        ) {
            Ok(s) => {
                out.push(s);
                proof {
                    let (c1, n1) = (
                        b_acc_check(vk, before, ev, *pass_com, n_vars),
                        b_acc_next(vk, before, ev, *pass_com, n_vars),
                    );
                    let (c2, n2) = (
                        b_acc_check(vk, out@, ev, *pass_com, n_vars),
                        b_acc_next(vk, out@, ev, *pass_com, n_vars),
                    );
                    assert forall|k: int, t: Seq<u8>| 0 <= k < i implies #[trigger] c1(k, t)
                        == c2(k, t) by {
                        assert(before[k] == out@[k]);
                    }
                    assert forall|k: int, t: Seq<u8>| 0 <= k < i implies #[trigger] n1(k, t)
                        == n2(k, t) by {
                        assert(before[k] == out@[k]);
                    }
                    lemma_chain_prefix(c1, n1, c2, n2, i as nat, t0);
                    assert(ready ==> c2(i as int, t1) is Ok);
                }
            },
            Err(e) => {
                return Err(e);
            },
        }
        i += 1;
    }
    proof {
        assert(events_of(out@) =~= ev);
        if ready {
            assert forall|layers: Seq<LayerShape>| #[trigger]
                trace_follows(*trace, layers) implies ev == canonical_events(layers) by {
                law_following_trace(*trace, layers);
                assert(same_events(ev, canonical_events(layers))) by {
                    assert forall|e: BAccEvent| #[trigger] ev.contains(e) <==> canonical_events(
                        layers,
                    ).contains(e) by {
                        assert(ev.contains(e) <==> recorded_events(*trace).contains(e));
                    }
                }
                law_proving_order_unique(ev, canonical_events(layers));
            }
        }
    }
    Ok(out)
}

} // verus!
