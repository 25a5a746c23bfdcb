//! The commitments to the chains of one backward pass.

use crate::commit::{
    PassCommitments, PassProverStates, can_matrix, can_vector, commit_matrix, commit_vector,
    matrix_committed, vector_committed,
};
use crate::errors::SnarkError;
use crate::pcs::{CommittedAux, MlPcs};
use crate::poly::lin;
use crate::qarray::{
    QArray1, QArray2, broadcastable, code_differences, differences_fit, matrix_fits, vector_codes,
    vector_fits,
};
use crate::trace::{ActivationStepTrace, BackwardTrace, ConcretizeTrace, LinearStepTrace};
use vstd::prelude::*;

verus! {

/// What a step says of the chains: those before it at the index after its
/// layer's, and those after it at its layer's.
pub struct ChainLink<'a> {
    pub layer_idx: usize,
    pub a_old: &'a QArray2,
    pub a_new: &'a QArray2,
    pub b_acc_old: &'a QArray1,
    pub b_acc_new: &'a QArray1,
}

/// The link of a linear step.
pub open spec fn linear_link<'a>(s: &'a LinearStepTrace) -> ChainLink<'a> {
    ChainLink {
        layer_idx: s.layer_idx,
        a_old: &s.a_old,
        a_new: &s.a_new,
        b_acc_old: &s.b_acc_old,
        b_acc_new: &s.b_acc_new,
    }
}

/// The link of an activation step.
pub open spec fn activation_link<'a>(s: &'a ActivationStepTrace) -> ChainLink<'a> {
    ChainLink {
        layer_idx: s.layer_idx,
        a_old: &s.a_old,
        a_new: &s.a_new,
        b_acc_old: &s.b_acc_old,
        b_acc_new: &s.b_acc_new,
    }
}

/// The links of a pass: those of the linear steps, then those of the
/// activation steps.
pub open spec fn chain_links<'a>(trace: &'a BackwardTrace) -> Seq<ChainLink<'a>> {
    Seq::new(trace.linear_steps@.len(), |i: int| linear_link(&trace.linear_steps@[i])) + Seq::new(
        trace.activation_steps@.len(),
        |i: int| activation_link(&trace.activation_steps@[i]),
    )
}

/// The coefficients at an index of the chain: what the first step that speaks
/// of the index says.
pub open spec fn chain_a_at(links: Seq<ChainLink>, idx: int) -> Option<QArray2>
    decreases links.len(),
{
    if links.len() == 0 {
        None
    } else {
        match chain_a_at(links.drop_last(), idx) {
            Some(m) => Some(m),
            None => {
                let s = links.last();
                if s.layer_idx + 1 == idx {
                    Some(*s.a_old)
                } else if s.layer_idx == idx {
                    Some(*s.a_new)
                } else {
                    None
                }
            },
        }
    }
}

/// The accumulated bias at an index of the chain.
pub open spec fn chain_b_at(links: Seq<ChainLink>, idx: int) -> Option<QArray1>
    decreases links.len(),
{
    if links.len() == 0 {
        None
    } else {
        match chain_b_at(links.drop_last(), idx) {
            Some(m) => Some(m),
            None => {
                let s = links.last();
                if s.layer_idx + 1 == idx {
                    Some(*s.b_acc_old)
                } else if s.layer_idx == idx {
                    Some(*s.b_acc_new)
                } else {
                    None
                }
            },
        }
    }
}

/// Whether two vectors have differences, which have a table.
pub open spec fn differ_ok(a: QArray1, b: QArray1) -> bool {
    let (x, y) = (vector_codes(a.codes), vector_codes(b.codes));
    &&& broadcastable(x, y)
    &&& differences_fit(x, y)
    &&& vector_fits(code_differences(x, y))
}

/// The differences of two vectors' codes.
pub open spec fn difference(a: QArray1, b: QArray1) -> Seq<i128> {
    code_differences(vector_codes(a.codes), vector_codes(b.codes))
}

/// Whether a linear step's tensors have tables.
pub open spec fn linear_step_fits(s: LinearStepTrace) -> bool {
    &&& matrix_fits(s.a_w.codes)
    &&& vector_fits(vector_codes(s.a_b.codes))
    &&& differ_ok(s.b_acc_new, s.b_acc_old)
}

/// Whether an activation step's tensors have tables.
pub open spec fn activation_step_fits(s: ActivationStepTrace) -> bool {
    &&& matrix_fits(s.selectors.codes)
    &&& matrix_fits(s.a_pos.codes)
    &&& matrix_fits(s.a_d_doubled.codes)
    &&& vector_fits(vector_codes(s.bias_delta_doubled.codes))
    &&& differ_ok(s.b_acc_new, s.b_acc_old)
}

/// Whether the last step's tensors have tables.
pub open spec fn concretize_fits(s: ConcretizeTrace) -> bool {
    &&& matrix_fits(s.selectors.codes)
    &&& vector_fits(vector_codes(s.target_doubled.codes))
    &&& matrix_fits(s.a_pos.codes)
    &&& differ_ok(s.final_target, s.b_acc_final)
}

/// Whether a pass can be laid out: every layer of it has its step, and every
/// tensor has a table.
pub open spec fn trace_fits(trace: BackwardTrace) -> bool {
    let links = chain_links(&trace);
    &&& links.len() < usize::MAX
    &&& forall|k: int| 0 <= k < links.len() ==> (#[trigger] links[k]).layer_idx < links.len()
    &&& forall|i: int|
        0 <= i <= links.len() ==> {
            &&& #[trigger] chain_a_at(links, i) matches Some(m)
            &&& matrix_fits(m.codes)
        }
    &&& forall|i: int|
        0 <= i <= links.len() ==> {
            &&& #[trigger] chain_b_at(links, i) matches Some(v)
            &&& vector_fits(vector_codes(v.codes))
        }
    &&& forall|i: int|
        0 <= i < trace.linear_steps@.len() ==> linear_step_fits(#[trigger] trace.linear_steps@[i])
    &&& forall|i: int|
        0 <= i < trace.activation_steps@.len() ==> activation_step_fits(
            #[trigger] trace.activation_steps@[i],
        )
    &&& trace.concretize matches Some(c) ==> concretize_fits(c)
}

/// Whether a linear step's tensors can be committed.
pub open spec fn can_linear<P: MlPcs>(ck: P::CommitterKey, s: LinearStepTrace) -> bool {
    &&& can_matrix::<P>(ck, s.a_w.codes)
    &&& can_vector::<P>(ck, vector_codes(s.a_b.codes))
    &&& can_vector::<P>(ck, difference(s.b_acc_new, s.b_acc_old))
}

/// Whether an activation step's tensors can be committed.
pub open spec fn can_activation<P: MlPcs>(ck: P::CommitterKey, s: ActivationStepTrace) -> bool {
    &&& can_matrix::<P>(ck, s.selectors.codes)
    &&& can_matrix::<P>(ck, s.a_pos.codes)
    &&& can_matrix::<P>(ck, s.a_d_doubled.codes)
    &&& can_vector::<P>(ck, vector_codes(s.bias_delta_doubled.codes))
    &&& can_vector::<P>(ck, difference(s.b_acc_new, s.b_acc_old))
}

/// Whether the last step's tensors can be committed.
pub open spec fn can_concretize<P: MlPcs>(ck: P::CommitterKey, s: ConcretizeTrace) -> bool {
    &&& can_matrix::<P>(ck, s.selectors.codes)
    &&& can_vector::<P>(ck, vector_codes(s.target_doubled.codes))
    &&& can_matrix::<P>(ck, s.a_pos.codes)
    &&& can_vector::<P>(ck, difference(s.final_target, s.b_acc_final))
}

/// Whether every tensor of a pass can be committed.
pub open spec fn can_trace<P: MlPcs>(ck: P::CommitterKey, trace: BackwardTrace) -> bool {
    let links = chain_links(&trace);
    &&& forall|i: int|
        0 <= i <= links.len() ==> can_matrix::<P>(ck, (#[trigger] chain_a_at(links, i))->0.codes)
    &&& forall|i: int|
        0 <= i <= links.len() ==> can_vector::<P>(
            ck,
            vector_codes((#[trigger] chain_b_at(links, i))->0.codes),
        )
    &&& forall|i: int|
        0 <= i < trace.linear_steps@.len() ==> can_linear::<P>(ck, #[trigger] trace.linear_steps@[i])
    &&& forall|i: int|
        0 <= i < trace.activation_steps@.len() ==> can_activation::<P>(
            ck,
            #[trigger] trace.activation_steps@[i],
        )
    &&& trace.concretize matches Some(c) ==> can_concretize::<P>(ck, c)
}

// ---- What the commitments are of ----

/// The chain's commitments are those of its matrices.
pub open spec fn chain_a_committed<P: MlPcs>(
    ck: P::CommitterKey,
    links: Seq<ChainLink>,
    coms: Seq<P::Commitment>,
    auxes: Seq<CommittedAux<P>>,
) -> bool {
    &&& coms.len() == links.len() + 1
    &&& auxes.len() == links.len() + 1
    &&& forall|i: int|
        0 <= i <= links.len() ==> matrix_committed(
            ck,
            (#[trigger] chain_a_at(links, i))->0.codes,
            coms[i],
            auxes[i],
        )
}

/// The chain's commitments are those of its vectors.
pub open spec fn chain_b_committed<P: MlPcs>(
    ck: P::CommitterKey,
    links: Seq<ChainLink>,
    coms: Seq<P::Commitment>,
    auxes: Seq<CommittedAux<P>>,
) -> bool {
    &&& coms.len() == links.len() + 1
    &&& auxes.len() == links.len() + 1
    &&& forall|i: int|
        0 <= i <= links.len() ==> vector_committed(
            ck,
            vector_codes((#[trigger] chain_b_at(links, i))->0.codes),
            coms[i],
            auxes[i],
        )
}

/// The commitments of the linear steps are those of their tensors.
pub open spec fn linear_committed<P: MlPcs>(
    ck: P::CommitterKey,
    steps: Seq<LinearStepTrace>,
    c: LinearCommits<P>,
) -> bool {
    &&& c.a_w.0@.len() == steps.len() && c.a_w.1@.len() == steps.len()
    &&& c.a_b.0@.len() == steps.len() && c.a_b.1@.len() == steps.len()
    &&& c.prod_w.0@.len() == steps.len() && c.prod_w.1@.len() == steps.len()
    &&& forall|i: int|
        0 <= i < steps.len() ==> {
            let s = #[trigger] steps[i];
            &&& matrix_committed(ck, s.a_w.codes, c.a_w.0@[i], c.a_w.1@[i])
            &&& vector_committed(ck, vector_codes(s.a_b.codes), c.a_b.0@[i], c.a_b.1@[i])
            &&& vector_committed(
                ck,
                difference(s.b_acc_new, s.b_acc_old),
                c.prod_w.0@[i],
                c.prod_w.1@[i],
            )
        }
}

/// The commitments of the activation steps are those of their tensors.
pub open spec fn activation_committed<P: MlPcs>(
    ck: P::CommitterKey,
    steps: Seq<ActivationStepTrace>,
    c: ActivationCommits<P>,
) -> bool {
    &&& c.sel.0@.len() == steps.len() && c.sel.1@.len() == steps.len()
    &&& c.a_pos.0@.len() == steps.len() && c.a_pos.1@.len() == steps.len()
    &&& c.a_d.0@.len() == steps.len() && c.a_d.1@.len() == steps.len()
    &&& c.bias_d.0@.len() == steps.len() && c.bias_d.1@.len() == steps.len()
    &&& c.bias_delta.0@.len() == steps.len() && c.bias_delta.1@.len() == steps.len()
    &&& forall|i: int|
        0 <= i < steps.len() ==> {
            let s = #[trigger] steps[i];
            &&& matrix_committed(ck, s.selectors.codes, c.sel.0@[i], c.sel.1@[i])
            &&& matrix_committed(ck, s.a_pos.codes, c.a_pos.0@[i], c.a_pos.1@[i])
            &&& matrix_committed(ck, s.a_d_doubled.codes, c.a_d.0@[i], c.a_d.1@[i])
            &&& vector_committed(
                ck,
                vector_codes(s.bias_delta_doubled.codes),
                c.bias_d.0@[i],
                c.bias_d.1@[i],
            )
            &&& vector_committed(
                ck,
                difference(s.b_acc_new, s.b_acc_old),
                c.bias_delta.0@[i],
                c.bias_delta.1@[i],
            )
        }
}

/// The commitments of the linear steps.
pub struct LinearCommits<P: MlPcs> {
    pub a_w: (Vec<P::Commitment>, Vec<CommittedAux<P>>),
    pub a_b: (Vec<P::Commitment>, Vec<CommittedAux<P>>),
    pub prod_w: (Vec<P::Commitment>, Vec<CommittedAux<P>>),
}

/// The commitments of the activation steps.
pub struct ActivationCommits<P: MlPcs> {
    pub sel: (Vec<P::Commitment>, Vec<CommittedAux<P>>),
    pub a_pos: (Vec<P::Commitment>, Vec<CommittedAux<P>>),
    pub a_d: (Vec<P::Commitment>, Vec<CommittedAux<P>>),
    pub bias_d: (Vec<P::Commitment>, Vec<CommittedAux<P>>),
    pub bias_delta: (Vec<P::Commitment>, Vec<CommittedAux<P>>),
}

/// The commitments of the last step.
pub struct ConcretizeCommits<P: MlPcs> {
    pub sel: (P::Commitment, CommittedAux<P>),
    pub target_doubled: (P::Commitment, CommittedAux<P>),
    pub a_pos: (P::Commitment, CommittedAux<P>),
    pub acc_w: (P::Commitment, CommittedAux<P>),
}

/// The last step's commitments are those of its tensors.
pub open spec fn concretize_committed<P: MlPcs>(
    ck: P::CommitterKey,
    s: ConcretizeTrace,
    c: ConcretizeCommits<P>,
) -> bool {
    &&& matrix_committed(ck, s.selectors.codes, c.sel.0, c.sel.1)
    &&& vector_committed(
        ck,
        vector_codes(s.target_doubled.codes),
        c.target_doubled.0,
        c.target_doubled.1,
    )
    &&& matrix_committed(ck, s.a_pos.codes, c.a_pos.0, c.a_pos.1)
    &&& vector_committed(ck, difference(s.final_target, s.b_acc_final), c.acc_w.0, c.acc_w.1)
}

/// A pass's commitments, and what was kept of them, are those of its tensors.
pub open spec fn pass_committed<P: MlPcs>(
    ck: P::CommitterKey,
    trace: BackwardTrace,
    c: PassCommitments<P>,
    s: PassProverStates<P>,
) -> bool {
    let links = chain_links(&trace);
    &&& chain_a_committed(ck, links, c.chain_a@, s.chain_a@)
    &&& chain_b_committed(ck, links, c.chain_b_acc@, s.chain_b_acc@)
    &&& linear_committed(
        ck,
        trace.linear_steps@,
        LinearCommits {
            a_w: (c.linear_a_w, s.linear_a_w),
            a_b: (c.linear_a_b, s.linear_a_b),
            prod_w: (c.linear_prod_w, s.linear_prod_w),
        },
    )
    &&& activation_committed(
        ck,
        trace.activation_steps@,
        ActivationCommits {
            sel: (c.activation_sel, s.activation_sel),
            a_pos: (c.activation_a_pos, s.activation_a_pos),
            a_d: (c.activation_a_d_doubled, s.activation_a_d_doubled),
            bias_d: (c.activation_bias_doubled, s.activation_bias_doubled),
            bias_delta: (c.activation_bias_delta, s.activation_bias_delta),
        },
    )
    &&& last_committed(ck, trace.concretize, c, s)
}

/// The last step's commitments are there where the step is, and are those of
/// its tensors.
pub open spec fn last_committed<P: MlPcs>(
    ck: P::CommitterKey,
    step: Option<ConcretizeTrace>,
    c: PassCommitments<P>,
    s: PassProverStates<P>,
) -> bool {
    match step {
        None => {
            &&& c.concretize_sel is None && s.concretize_sel is None
            &&& c.concretize_target_doubled is None && s.concretize_target_doubled is None
            &&& c.concretize_a_pos is None && s.concretize_a_pos is None
            &&& c.concretize_acc_w is None && s.concretize_acc_w is None
        },
        Some(t) => {
            &&& c.concretize_sel is Some && s.concretize_sel is Some
            &&& c.concretize_target_doubled is Some && s.concretize_target_doubled is Some
            &&& c.concretize_a_pos is Some && s.concretize_a_pos is Some
            &&& c.concretize_acc_w is Some && s.concretize_acc_w is Some
            &&& concretize_committed(
                ck,
                t,
                ConcretizeCommits {
                    sel: (c.concretize_sel->0, s.concretize_sel->0),
                    target_doubled: (
                        c.concretize_target_doubled->0,
                        s.concretize_target_doubled->0,
                    ),
                    a_pos: (c.concretize_a_pos->0, s.concretize_a_pos->0),
                    acc_w: (c.concretize_acc_w->0, s.concretize_acc_w->0),
                },
            )
        },
    }
}

// ---- The committer ----

/// The links of a pass.
fn collect_links<'a>(trace: &'a BackwardTrace) -> (r: Vec<ChainLink<'a>>)
    ensures
        r@ == chain_links(trace),
{
    let mut out: Vec<ChainLink<'a>> = Vec::new();
    let ghost all = chain_links(trace);
    let mut i: usize = 0;
    while i < trace.linear_steps.len()
        invariant
            i <= trace.linear_steps@.len(),
            all == chain_links(trace),
            out@.len() == i,
            forall|k: int| 0 <= k < i ==> #[trigger] out@[k] == all[k],
        decreases trace.linear_steps@.len() - i,
    {
        let s: &LinearStepTrace = &trace.linear_steps[i];
        out.push(
            ChainLink {
                layer_idx: s.layer_idx,
                a_old: &s.a_old,
                a_new: &s.a_new,
                b_acc_old: &s.b_acc_old,
                b_acc_new: &s.b_acc_new,
            },
        );
        i += 1;
    }
    let mut j: usize = 0;
    while j < trace.activation_steps.len()
        invariant
            j <= trace.activation_steps@.len(),
            all == chain_links(trace),
            out@.len() == trace.linear_steps@.len() + j,
            forall|k: int|
                0 <= k < trace.linear_steps@.len() + j ==> #[trigger] out@[k] == all[k],
        decreases trace.activation_steps@.len() - j,
    {
        let s: &ActivationStepTrace = &trace.activation_steps[j];
        out.push(
            ChainLink {
                layer_idx: s.layer_idx,
                a_old: &s.a_old,
                a_new: &s.a_new,
                b_acc_old: &s.b_acc_old,
                b_acc_new: &s.b_acc_new,
            },
        );
        j += 1;
    }
    assert(out@ =~= all);
    out
}

/// Put a tensor at an index where nothing is yet.
fn hold<'a, T>(slots: &mut Vec<Option<&'a T>>, i: usize, x: &'a T)
    requires
        i < old(slots)@.len(),
    ensures
        final(slots)@ == (if old(slots)@[i as int] is None {
            old(slots)@.update(i as int, Some(x))
        } else {
            old(slots)@
        }),
{
    if slots[i].is_none() {
        slots.set(i, Some(x));
    }
}

/// A slot of a chain holds what the links say.
spec fn slot_of<T>(slot: Option<&T>, want: Option<T>) -> bool {
    match slot {
        None => want is None,
        Some(x) => want == Some(*x),
    }
}

/// The tensors of the chains, index by index.
fn fill_chains<'a>(links: &Vec<ChainLink<'a>>) -> (r: (
    Vec<Option<&'a QArray2>>,
    Vec<Option<&'a QArray1>>,
))
    requires
        links@.len() < usize::MAX,
        forall|k: int| 0 <= k < links@.len() ==> (#[trigger] links@[k]).layer_idx < links@.len(),
    ensures
        r.0@.len() == links@.len() + 1,
        r.1@.len() == links@.len() + 1,
        forall|i: int| 0 <= i <= links@.len() ==> slot_of(#[trigger] r.0@[i], chain_a_at(links@, i)),
        forall|i: int| 0 <= i <= links@.len() ==> slot_of(#[trigger] r.1@[i], chain_b_at(links@, i)),
{
    let n: usize = links.len();
    let mut a: Vec<Option<&'a QArray2>> = Vec::with_capacity(n + 1);
    let mut b: Vec<Option<&'a QArray1>> = Vec::with_capacity(n + 1);
    let mut z: usize = 0;
    while z < n + 1
        invariant
            z <= n + 1,
            n < usize::MAX,
            a@.len() == z,
            b@.len() == z,
            forall|i: int| 0 <= i < z ==> (#[trigger] a@[i]) is None,
            forall|i: int| 0 <= i < z ==> (#[trigger] b@[i]) is None,
        decreases n + 1 - z,
    {
        a.push(None);
        b.push(None);
        z += 1;
    }
    let mut k: usize = 0;
    while k < n
        invariant
            k <= n,
            n == links@.len(),
            n < usize::MAX,
            forall|q: int| 0 <= q < n ==> (#[trigger] links@[q]).layer_idx < n,
            a@.len() == n + 1,
            b@.len() == n + 1,
            forall|i: int|
                0 <= i <= n ==> slot_of(#[trigger] a@[i], chain_a_at(links@.take(k as int), i)),
            forall|i: int|
                0 <= i <= n ==> slot_of(#[trigger] b@[i], chain_b_at(links@.take(k as int), i)),
        decreases n - k,
    {
        let ghost done = links@.take(k as int);
        let s: &ChainLink<'a> = &links[k];
        let idx: usize = s.layer_idx;
        let (a_old, a_new): (&'a QArray2, &'a QArray2) = (s.a_old, s.a_new);
        let (b_old, b_new): (&'a QArray1, &'a QArray1) = (s.b_acc_old, s.b_acc_new);
        hold(&mut a, idx + 1, a_old);
        hold(&mut a, idx, a_new);
        hold(&mut b, idx + 1, b_old);
        hold(&mut b, idx, b_new);
        proof {
            let more = links@.take(k + 1);
            assert(more.drop_last() =~= done);
            assert(more.last() == links@[k as int]);
            assert forall|i: int| 0 <= i <= n implies slot_of(
                #[trigger] a@[i],
                chain_a_at(more, i),
            ) by {}
            assert forall|i: int| 0 <= i <= n implies slot_of(
                #[trigger] b@[i],
                chain_b_at(more, i),
            ) by {}
        }
        k += 1;
    }
    assert(links@.take(n as int) =~= links@);
    (a, b)
}

/// Commit to the chain of coefficient matrices.
fn commit_chain_a<P: MlPcs>(
    ck: &P::CommitterKey,
    links: Ghost<Seq<ChainLink>>,
    slots: &Vec<Option<&QArray2>>,
    rng: &mut P::Randomness,
) -> (r: Result<(Vec<P::Commitment>, Vec<CommittedAux<P>>), SnarkError>)
    requires
        slots@.len() == links@.len() + 1,
        forall|i: int|
            0 <= i <= links@.len() ==> slot_of(#[trigger] slots@[i], chain_a_at(links@, i)),
        forall|i: int|
            0 <= i <= links@.len() ==> {
                &&& #[trigger] chain_a_at(links@, i) matches Some(m)
                &&& matrix_fits(m.codes)
            },
    ensures
        r is Ok <==> forall|i: int|
            0 <= i <= links@.len() ==> can_matrix::<P>(
                *ck,
                (#[trigger] chain_a_at(links@, i))->0.codes,
            ),
        r matches Err(e) ==> e is Pcs,
        r matches Ok((coms, auxes)) ==> chain_a_committed(*ck, links@, coms@, auxes@),
{
    let mut coms: Vec<P::Commitment> = Vec::with_capacity(slots.len());
    let mut auxes: Vec<CommittedAux<P>> = Vec::with_capacity(slots.len());
    let mut i: usize = 0;
    while i < slots.len()
        invariant
            i <= slots@.len(),
            slots@.len() == links@.len() + 1,
            forall|q: int|
                0 <= q <= links@.len() ==> slot_of(#[trigger] slots@[q], chain_a_at(links@, q)),
            forall|q: int|
                0 <= q <= links@.len() ==> {
                    &&& #[trigger] chain_a_at(links@, q) matches Some(m)
                    &&& matrix_fits(m.codes)
                },
            coms@.len() == i,
            auxes@.len() == i,
            forall|q: int|
                0 <= q < i ==> {
                    let m = (#[trigger] chain_a_at(links@, q))->0.codes;
                    can_matrix::<P>(*ck, m) && matrix_committed(*ck, m, coms@[q], auxes@[q])
                },
        decreases slots@.len() - i,
    {
        assert(slot_of(slots@[i as int], chain_a_at(links@, i as int)));
        assert(chain_a_at(links@, i as int) is Some);
        if let Some(m) = slots[i] {
            match commit_matrix::<P>(ck, m, rng) {
                Ok((c, s)) => {
                    coms.push(c);
                    auxes.push(s);
                },
                Err(e) => {
                    return Err(e);
                },
            }
        }
        i += 1;
    }
    Ok((coms, auxes))
}

/// Commit to the chain of accumulated biases.
fn commit_chain_b<P: MlPcs>(
    ck: &P::CommitterKey,
    links: Ghost<Seq<ChainLink>>,
    slots: &Vec<Option<&QArray1>>,
    rng: &mut P::Randomness,
) -> (r: Result<(Vec<P::Commitment>, Vec<CommittedAux<P>>), SnarkError>)
    requires
        slots@.len() == links@.len() + 1,
        forall|i: int|
            0 <= i <= links@.len() ==> slot_of(#[trigger] slots@[i], chain_b_at(links@, i)),
        forall|i: int|
            0 <= i <= links@.len() ==> {
                &&& #[trigger] chain_b_at(links@, i) matches Some(m)
                &&& vector_fits(vector_codes(m.codes))
            },
    ensures
        r is Ok <==> forall|i: int|
            0 <= i <= links@.len() ==> can_vector::<P>(
                *ck,
                vector_codes((#[trigger] chain_b_at(links@, i))->0.codes),
            ),
        r matches Err(e) ==> e is Pcs,
        r matches Ok((coms, auxes)) ==> chain_b_committed(*ck, links@, coms@, auxes@),
{
    let mut coms: Vec<P::Commitment> = Vec::with_capacity(slots.len());
    let mut auxes: Vec<CommittedAux<P>> = Vec::with_capacity(slots.len());
    let mut i: usize = 0;
    while i < slots.len()
        invariant
            i <= slots@.len(),
            slots@.len() == links@.len() + 1,
            forall|q: int|
                0 <= q <= links@.len() ==> slot_of(#[trigger] slots@[q], chain_b_at(links@, q)),
            forall|q: int|
                0 <= q <= links@.len() ==> {
                    &&& #[trigger] chain_b_at(links@, q) matches Some(m)
                    &&& vector_fits(vector_codes(m.codes))
                },
            coms@.len() == i,
            auxes@.len() == i,
            forall|q: int|
                0 <= q < i ==> {
                    let v = vector_codes((#[trigger] chain_b_at(links@, q))->0.codes);
                    can_vector::<P>(*ck, v) && vector_committed(*ck, v, coms@[q], auxes@[q])
                },
        decreases slots@.len() - i,
    {
        assert(slot_of(slots@[i as int], chain_b_at(links@, i as int)));
        assert(chain_b_at(links@, i as int) is Some);
        if let Some(v) = slots[i] {
            match commit_vector::<P>(ck, v, rng) {
                Ok((c, s)) => {
                    coms.push(c);
                    auxes.push(s);
                },
                Err(e) => {
                    return Err(e);
                },
            }
        }
        i += 1;
    }
    Ok((coms, auxes))
}

/// Commit to the differences of two vectors.
fn commit_difference<P: MlPcs>(
    ck: &P::CommitterKey,
    a: &QArray1,
    b: &QArray1,
    rng: &mut P::Randomness,
) -> (r: Result<(P::Commitment, CommittedAux<P>), SnarkError>)
    requires
        differ_ok(*a, *b),
    ensures
        r is Ok <==> can_vector::<P>(*ck, difference(*a, *b)),
        r matches Err(e) ==> e is Pcs,
        r matches Ok((com, aux)) ==> vector_committed(*ck, difference(*a, *b), com, aux),
{
    let d: QArray1 = QArray1 { codes: a.codes.minus(&b.codes), scale: a.scale };
    commit_vector::<P>(ck, &d, rng)
}

/// Commit to the tensors of the linear steps.
fn commit_linear_steps<P: MlPcs>(
    ck: &P::CommitterKey,
    steps: &Vec<LinearStepTrace>,
    rng: &mut P::Randomness,
) -> (r: Result<LinearCommits<P>, SnarkError>)
    requires
        forall|i: int| 0 <= i < steps@.len() ==> linear_step_fits(#[trigger] steps@[i]),
    ensures
        r is Ok <==> forall|i: int|
            0 <= i < steps@.len() ==> can_linear::<P>(*ck, #[trigger] steps@[i]),
        r matches Err(e) ==> e is Pcs,
        r matches Ok(c) ==> linear_committed(*ck, steps@, c),
{
    let mut out: LinearCommits<P> = LinearCommits {
        a_w: (Vec::with_capacity(steps.len()), Vec::with_capacity(steps.len())),
        a_b: (Vec::with_capacity(steps.len()), Vec::with_capacity(steps.len())),
        prod_w: (Vec::with_capacity(steps.len()), Vec::with_capacity(steps.len())),
    };
    let mut i: usize = 0;
    while i < steps.len()
        invariant
            i <= steps@.len(),
            forall|k: int| 0 <= k < steps@.len() ==> linear_step_fits(#[trigger] steps@[k]),
            forall|k: int| 0 <= k < i ==> can_linear::<P>(*ck, #[trigger] steps@[k]),
            linear_committed(*ck, steps@.take(i as int), out),
        decreases steps@.len() - i,
    {
        let step: &LinearStepTrace = &steps[i];
        let (c1, s1): (P::Commitment, CommittedAux<P>) = match commit_matrix::<P>(
            ck,
            &step.a_w,
            rng,
        ) {
            Ok(x) => x,
            Err(e) => {
                return Err(e);
            },
        };
        let (c2, s2): (P::Commitment, CommittedAux<P>) = match commit_vector::<P>(
            ck,
            &step.a_b,
            rng,
        ) {
            Ok(x) => x,
            Err(e) => {
                return Err(e);
            },
        };
        let (c3, s3): (P::Commitment, CommittedAux<P>) = match commit_difference::<P>(
            ck,
            &step.b_acc_new,
            &step.b_acc_old,
            rng,
        ) {
            Ok(x) => x,
            Err(e) => {
                return Err(e);
            },
        };
        let ghost before = out;
        out.a_w.0.push(c1);
        out.a_w.1.push(s1);
        out.a_b.0.push(c2);
        out.a_b.1.push(s2);
        out.prod_w.0.push(c3);
        out.prod_w.1.push(s3);
        proof {
            let done = steps@.take(i as int);
            let more = steps@.take(i + 1);
            assert forall|k: int| 0 <= k < more.len() implies {
                let s = #[trigger] more[k];
                &&& matrix_committed(*ck, s.a_w.codes, out.a_w.0@[k], out.a_w.1@[k])
                &&& vector_committed(
                    *ck,
                    vector_codes(s.a_b.codes),
                    out.a_b.0@[k],
                    out.a_b.1@[k],
                )
                &&& vector_committed(
                    *ck,
                    difference(s.b_acc_new, s.b_acc_old),
                    out.prod_w.0@[k],
                    out.prod_w.1@[k],
                )
            } by {
                if k < i {
                    assert(done[k] == more[k]);
                }
            }
        }
        i += 1;
    }
    assert(steps@.take(steps@.len() as int) =~= steps@);
    Ok(out)
}

/// Commit to the tensors of the activation steps.
fn commit_activation_steps<P: MlPcs>(
    ck: &P::CommitterKey,
    steps: &Vec<ActivationStepTrace>,
    rng: &mut P::Randomness,
) -> (r: Result<ActivationCommits<P>, SnarkError>)
    requires
        forall|i: int| 0 <= i < steps@.len() ==> activation_step_fits(#[trigger] steps@[i]),
    ensures
        r is Ok <==> forall|i: int|
            0 <= i < steps@.len() ==> can_activation::<P>(*ck, #[trigger] steps@[i]),
        r matches Err(e) ==> e is Pcs,
        r matches Ok(c) ==> activation_committed(*ck, steps@, c),
{
    let mut out: ActivationCommits<P> = ActivationCommits {
        sel: (Vec::with_capacity(steps.len()), Vec::with_capacity(steps.len())),
        a_pos: (Vec::with_capacity(steps.len()), Vec::with_capacity(steps.len())),
        a_d: (Vec::with_capacity(steps.len()), Vec::with_capacity(steps.len())),
        bias_d: (Vec::with_capacity(steps.len()), Vec::with_capacity(steps.len())),
        bias_delta: (Vec::with_capacity(steps.len()), Vec::with_capacity(steps.len())),
    };
    let mut i: usize = 0;
    while i < steps.len()
        invariant
            i <= steps@.len(),
            forall|k: int| 0 <= k < steps@.len() ==> activation_step_fits(#[trigger] steps@[k]),
            forall|k: int| 0 <= k < i ==> can_activation::<P>(*ck, #[trigger] steps@[k]),
            activation_committed(*ck, steps@.take(i as int), out),
        decreases steps@.len() - i,
    {
        let step: &ActivationStepTrace = &steps[i];
        let (c1, s1): (P::Commitment, CommittedAux<P>) = match commit_matrix::<P>(
            ck,
            &step.selectors,
            rng,
        ) {
            Ok(x) => x,
            Err(e) => {
                return Err(e);
            },
        };
        let (c2, s2): (P::Commitment, CommittedAux<P>) = match commit_matrix::<P>(
            ck,
            &step.a_pos,
            rng,
        ) {
            Ok(x) => x,
            Err(e) => {
                return Err(e);
            },
        };
        let (c3, s3): (P::Commitment, CommittedAux<P>) = match commit_matrix::<P>(
            ck,
            &step.a_d_doubled,
            rng,
        ) {
            Ok(x) => x,
            Err(e) => {
                return Err(e);
            },
        };
        let (c4, s4): (P::Commitment, CommittedAux<P>) = match commit_vector::<P>(
            ck,
            &step.bias_delta_doubled,
            rng,
        ) {
            Ok(x) => x,
            Err(e) => {
                return Err(e);
            },
        };
        let (c5, s5): (P::Commitment, CommittedAux<P>) = match commit_difference::<P>(
            ck,
            &step.b_acc_new,
            &step.b_acc_old,
            rng,
        ) {
            Ok(x) => x,
            Err(e) => {
                return Err(e);
            },
        };
        out.sel.0.push(c1);
        out.sel.1.push(s1);
        out.a_pos.0.push(c2);
        out.a_pos.1.push(s2);
        out.a_d.0.push(c3);
        out.a_d.1.push(s3);
        out.bias_d.0.push(c4);
        out.bias_d.1.push(s4);
        out.bias_delta.0.push(c5);
        out.bias_delta.1.push(s5);
        proof {
            let done = steps@.take(i as int);
            let more = steps@.take(i + 1);
            assert forall|k: int| 0 <= k < more.len() implies {
                let s = #[trigger] more[k];
                &&& matrix_committed(*ck, s.selectors.codes, out.sel.0@[k], out.sel.1@[k])
                &&& matrix_committed(*ck, s.a_pos.codes, out.a_pos.0@[k], out.a_pos.1@[k])
                &&& matrix_committed(*ck, s.a_d_doubled.codes, out.a_d.0@[k], out.a_d.1@[k])
                &&& vector_committed(
                    *ck,
                    vector_codes(s.bias_delta_doubled.codes),
                    out.bias_d.0@[k],
                    out.bias_d.1@[k],
                )
                &&& vector_committed(
                    *ck,
                    difference(s.b_acc_new, s.b_acc_old),
                    out.bias_delta.0@[k],
                    out.bias_delta.1@[k],
                )
            } by {
                if k < i {
                    assert(done[k] == more[k]);
                }
            }
        }
        i += 1;
    }
    assert(steps@.take(steps@.len() as int) =~= steps@);
    Ok(out)
}

/// Commit to the tensors of the last step.
fn commit_concretize<P: MlPcs>(
    ck: &P::CommitterKey,
    c: &ConcretizeTrace,
    rng: &mut P::Randomness,
) -> (r: Result<ConcretizeCommits<P>, SnarkError>)
    requires
        concretize_fits(*c),
    ensures
        r is Ok <==> can_concretize::<P>(*ck, *c),
        r matches Err(e) ==> e is Pcs,
        r matches Ok(k) ==> concretize_committed(*ck, *c, k),
{
    let sel: (P::Commitment, CommittedAux<P>) = match commit_matrix::<P>(ck, &c.selectors, rng) {
        Ok(x) => x,
        Err(e) => {
            return Err(e);
        },
    };
    let target_doubled: (P::Commitment, CommittedAux<P>) = match commit_vector::<P>(
        ck,
        &c.target_doubled,
        rng,
    ) {
        Ok(x) => x,
        Err(e) => {
            return Err(e);
        },
    };
    let a_pos: (P::Commitment, CommittedAux<P>) = match commit_matrix::<P>(ck, &c.a_pos, rng) {
        Ok(x) => x,
        Err(e) => {
            return Err(e);
        },
    };
    let acc_w: (P::Commitment, CommittedAux<P>) = match commit_difference::<P>(
        ck,
        &c.final_target,
        &c.b_acc_final,
        rng,
    ) {
        Ok(x) => x,
        Err(e) => {
            return Err(e);
        },
    };
    Ok(ConcretizeCommits { sel, target_doubled, a_pos, acc_w })
}

/// Commit to every tensor of one pass. For a step at a layer, the chains hold
/// what was before it at the index after the layer's, and what came of it at
/// the layer's own.
pub fn commit_pass<P: MlPcs>(
    trace: &BackwardTrace,
    ck: &P::CommitterKey,
    rng: &mut P::Randomness,
) -> (r: Result<(PassCommitments<P>, PassProverStates<P>), SnarkError>)
    requires
        trace_fits(*trace),
    ensures
        r is Ok <==> can_trace::<P>(*ck, *trace),
        r matches Err(e) ==> e is Pcs,
        r matches Ok((coms, states)) ==> pass_committed(*ck, *trace, coms, states),
{
    let links: Vec<ChainLink> = collect_links(trace);
    let (slots_a, slots_b): (Vec<Option<&QArray2>>, Vec<Option<&QArray1>>) = fill_chains(&links);
    let ghost lk = links@;
    let chain_a: (Vec<P::Commitment>, Vec<CommittedAux<P>>) = match commit_chain_a::<P>(
        ck,
        Ghost(lk),
        &slots_a,
        rng,
    ) {
        Ok(x) => x,
        Err(e) => {
            return Err(e);
        },
    };
    let chain_b: (Vec<P::Commitment>, Vec<CommittedAux<P>>) = match commit_chain_b::<P>(
        ck,
        Ghost(lk),
        &slots_b,
        rng,
    ) {
        Ok(x) => x,
        Err(e) => {
            return Err(e);
        },
    };
    let lin: LinearCommits<P> = match commit_linear_steps::<P>(ck, &trace.linear_steps, rng) {
        Ok(x) => x,
        Err(e) => {
            return Err(e);
        },
    };
    let act: ActivationCommits<P> = match commit_activation_steps::<P>(
        ck,
        &trace.activation_steps,
        rng,
    ) {
        Ok(x) => x,
        Err(e) => {
            return Err(e);
        },
    };
    let mut com: PassCommitments<P> = PassCommitments {
        chain_a: chain_a.0,
        chain_b_acc: chain_b.0,
        linear_a_w: lin.a_w.0,
        linear_a_b: lin.a_b.0,
        activation_sel: act.sel.0,
        concretize_sel: None,
        activation_a_pos: act.a_pos.0,
        concretize_a_pos: None,
        concretize_target_doubled: None,
        linear_prod_w: lin.prod_w.0,
        activation_a_d_doubled: act.a_d.0,
        activation_bias_doubled: act.bias_d.0,
        activation_bias_delta: act.bias_delta.0,
        concretize_acc_w: None,
    };
    let mut st: PassProverStates<P> = PassProverStates {
        chain_a: chain_a.1,
        chain_b_acc: chain_b.1,
        linear_a_w: lin.a_w.1,
        linear_a_b: lin.a_b.1,
        activation_sel: act.sel.1,
        concretize_sel: None,
        activation_a_pos: act.a_pos.1,
        concretize_a_pos: None,
        concretize_target_doubled: None,
        linear_prod_w: lin.prod_w.1,
        activation_a_d_doubled: act.a_d.1,
        activation_bias_doubled: act.bias_d.1,
        activation_bias_delta: act.bias_delta.1,
        concretize_acc_w: None,
    };
    if let Some(c) = &trace.concretize {
        match commit_concretize::<P>(ck, c, rng) {
            Ok(k) => {
                com.concretize_sel = Some(k.sel.0);
                st.concretize_sel = Some(k.sel.1);
                com.concretize_target_doubled = Some(k.target_doubled.0);
                st.concretize_target_doubled = Some(k.target_doubled.1);
                com.concretize_a_pos = Some(k.a_pos.0);
                st.concretize_a_pos = Some(k.a_pos.1);
                com.concretize_acc_w = Some(k.acc_w.0);
                st.concretize_acc_w = Some(k.acc_w.1);
            },
            Err(e) => {
                return Err(e);
            },
        }
    }
    Ok((com, st))
}

} // verus!
