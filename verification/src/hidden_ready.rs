//! What a pass's trace and its commitments give the provers of its steps.

use crate::activation_matrix_prover::{
    neg_slopes, pos_slopes, slope_inputs_there, slope_step_ready, slope_trace_ready,
};
use crate::activation_step_prover::{
    bias_inputs_there, bias_step_ready, bias_trace_ready, neg_offsets, picks_shaped, pos_offsets,
};
use crate::bias_accumulator::{BAccEvent, event_there};
use crate::bias_accumulator_prover::{b_acc_ready, event_kept, event_ready, recorded_events};
use crate::cert::QuantCert;
use crate::columns::even_vars;
use crate::commit::{
    PassCommitments, PassProverStates, ProverPolyStates, TensorCommitments, matrix_committed,
    vector_committed,
};
use crate::commit_all::relaxation_committed;
use crate::commit_pass::{
    activation_link, activation_step_fits, chain_a_at, chain_b_at, chain_links, linear_link,
    linear_step_fits, pass_committed, trace_fits,
};
use crate::linear_chain::{
    linear_inputs_there, linear_step_committed, linear_step_true, linear_tensors_fit,
    linear_trace_ready, step_dims,
};
use crate::mle::ceil_log2;
use crate::params::SnarkParams;
use crate::pcs::{CommittedAux, MlPcs};
use crate::picked::{is_picked, is_picked_sum};
use crate::qarray::{CodeMatrix, matrix_fits, matrix_rows, matrix_width, padded_cells, vector_codes};
use crate::relu_chain::{relu_chain_step_ready, relu_inputs_there, relu_trace_ready};
use crate::relu_step::is_relu_pair;
use crate::shapes::vector_vars;
use crate::trace::{ActivationStepTrace, BackwardTrace, BoundDir, LinearStepTrace};
use vstd::arithmetic::power2::pow2;
use vstd::prelude::*;

verus! {

/// Whether two matrices have the same cells.
pub open spec fn same_matrix(a: CodeMatrix, b: CodeMatrix) -> bool {
    matrix_rows(a) == matrix_rows(b) && matrix_width(a) == matrix_width(b)
}

/// Whether the steps of a trace agree on the chains: what one leaves, the next
/// one takes.
pub open spec fn chain_consistent(trace: BackwardTrace) -> bool {
    let links = chain_links(&trace);
    &&& forall|k: int|
        0 <= k < links.len() ==> same_matrix(
            chain_a_at(links, (#[trigger] links[k]).layer_idx + 1)->0.codes,
            links[k].a_old.codes,
        )
    &&& forall|k: int|
        0 <= k < links.len() ==> vector_codes(
            chain_b_at(links, (#[trigger] links[k]).layer_idx + 1)->0.codes,
        ) == vector_codes(links[k].b_acc_old.codes)
    &&& forall|k: int|
        0 <= k < links.len() ==> vector_codes(
            chain_b_at(links, (#[trigger] links[k]).layer_idx as int)->0.codes,
        ) == vector_codes(links[k].b_acc_new.codes)
}

/// Whether a linear layer's weights and bias are there, with what was kept of
/// them.
pub open spec fn linear_shared_there<P: MlPcs>(
    cert: QuantCert,
    step: LinearStepTrace,
    coms: TensorCommitments<P>,
    states: ProverPolyStates<P>,
) -> bool {
    let l = step.layer_idx as int;
    &&& l < coms.weight@.len() && coms.weight@[l] is Some
    &&& l < coms.bias@.len() && coms.bias@[l] is Some
    &&& l < states.weight@.len() && states.weight@[l] is Some
    &&& l < states.bias@.len() && states.bias@[l] is Some
    &&& l < cert.weights@.len() && cert.weights@[l] is Some
    &&& l < cert.biases@.len() && cert.biases@[l] is Some
    &&& linear_tensors_fit(cert.weights@[l]->0, cert.biases@[l]->0, step)
}

/// Whether an activation layer's lines are there, with what was kept of them,
/// and fit the step.
pub open spec fn activation_shared_there<P: MlPcs>(
    cert: QuantCert,
    d: BoundDir,
    step: ActivationStepTrace,
    coms: TensorCommitments<P>,
    states: ProverPolyStates<P>,
) -> bool {
    let l = step.layer_idx as int;
    let rel = cert.relaxations@[l]->0;
    &&& l < cert.relaxations@.len() && cert.relaxations@[l] is Some
    &&& l < coms.relaxation@.len() && coms.relaxation@[l] is Some
    &&& l < states.relaxation@.len() && states.relaxation@[l] is Some
    &&& picks_shaped(
        step.a_old.codes,
        step.a_pos.codes,
        pos_offsets(d, rel),
        neg_offsets(d, rel),
    )
    &&& picks_shaped(
        step.a_old.codes,
        step.a_pos.codes,
        pos_slopes(d, rel),
        neg_slopes(d, rel),
    )
    &&& matrix_fits(step.a_d_doubled.codes)
    &&& step_dims(step.a_d_doubled.codes) == step_dims(step.a_old.codes)
}

/// Whether a direction's trace can be laid out, and its steps find what they
/// share.
pub open spec fn direction_there<P: MlPcs>(
    cert: QuantCert,
    trace: BackwardTrace,
    d: BoundDir,
    coms: TensorCommitments<P>,
    states: ProverPolyStates<P>,
) -> bool {
    &&& trace_fits(trace)
    &&& forall|i: int|
        0 <= i < trace.linear_steps@.len() ==> linear_shared_there(
            cert,
            #[trigger] trace.linear_steps@[i],
            coms,
            states,
        )
    &&& forall|i: int|
        0 <= i < trace.activation_steps@.len() ==> activation_shared_there(
            cert,
            d,
            #[trigger] trace.activation_steps@[i],
            coms,
            states,
        )
}

/// Whether a linear step is true, and its layer's tensors are committed.
pub open spec fn linear_shared_true<P: MlPcs>(
    ck: P::CommitterKey,
    cert: QuantCert,
    step: LinearStepTrace,
    coms: TensorCommitments<P>,
    states: ProverPolyStates<P>,
) -> bool {
    let l = step.layer_idx as int;
    &&& linear_step_true(cert, step)
    &&& matrix_committed(
        ck,
        cert.weights@[l]->0.codes,
        coms.weight@[l]->0,
        states.weight@[l]->0,
    )
    &&& vector_committed(
        ck,
        vector_codes(cert.biases@[l]->0.codes),
        coms.bias@[l]->0,
        states.bias@[l]->0,
    )
}

/// Whether an activation step multiplies and adds as its layer's lines say,
/// and the lines are committed.
pub open spec fn activation_shared_true<P: MlPcs>(
    ck: P::CommitterKey,
    cert: QuantCert,
    d: BoundDir,
    step: ActivationStepTrace,
    coms: TensorCommitments<P>,
    states: ProverPolyStates<P>,
) -> bool {
    let l = step.layer_idx as int;
    let rel = cert.relaxations@[l]->0;
    &&& is_picked_sum(
        step.a_old.codes,
        step.a_pos.codes,
        pos_offsets(d, rel),
        neg_offsets(d, rel),
        vector_codes(step.bias_delta_doubled.codes),
    )
    &&& is_picked(
        step.a_old.codes,
        step.a_pos.codes,
        pos_slopes(d, rel),
        neg_slopes(d, rel),
        step.a_d_doubled.codes,
    )
    &&& relaxation_committed(ck, rel, coms.relaxation@[l]->0, states.relaxation@[l]->0)
}

/// Whether a direction's trace is a true record of its pass.
pub open spec fn direction_true<P: MlPcs>(
    ck: P::CommitterKey,
    cert: QuantCert,
    trace: BackwardTrace,
    d: BoundDir,
    coms: TensorCommitments<P>,
    states: ProverPolyStates<P>,
) -> bool {
    &&& chain_consistent(trace)
    &&& forall|i: int|
        0 <= i < trace.linear_steps@.len() ==> linear_shared_true(
            ck,
            cert,
            #[trigger] trace.linear_steps@[i],
            coms,
            states,
        )
    &&& forall|i: int|
        0 <= i < trace.activation_steps@.len() ==> activation_shared_true(
            ck,
            cert,
            d,
            #[trigger] trace.activation_steps@[i],
            coms,
            states,
        )
}

/// A committed pass gives the provers of its steps what they read.
pub proof fn lemma_direction_inputs<P: MlPcs>(
    ck: P::CommitterKey,
    cert: QuantCert,
    trace: BackwardTrace,
    d: BoundDir,
    coms: TensorCommitments<P>,
    states: ProverPolyStates<P>,
    pass: PassCommitments<P>,
    st: PassProverStates<P>,
)
    requires
        direction_there(cert, trace, d, coms, states),
        pass_committed(ck, trace, pass, st),
    ensures
        forall|i: int|
            0 <= i < trace.linear_steps@.len() ==> linear_inputs_there(
                cert,
                #[trigger] trace.linear_steps@[i],
                i,
                coms,
                pass,
                states,
                st,
            ),
        forall|i: int|
            0 <= i < trace.activation_steps@.len() ==> bias_inputs_there(
                cert.relaxations@,
                d,
                #[trigger] trace.activation_steps@[i],
                i,
                coms,
                pass,
                states,
                st,
            ),
        forall|i: int|
            0 <= i < trace.activation_steps@.len() ==> slope_inputs_there(
                cert.relaxations@,
                d,
                #[trigger] trace.activation_steps@[i],
                i,
                coms,
                pass,
                states,
                st,
            ),
        forall|i: int|
            0 <= i < trace.activation_steps@.len() ==> relu_inputs_there(
                #[trigger] trace.activation_steps@[i],
                i,
                pass,
                st,
            ),
        forall|e: BAccEvent| #[trigger]
            recorded_events(trace).contains(e) ==> event_there(pass, e) && event_kept(st, e),
{
    let links = chain_links(&trace);
    let m = trace.linear_steps@.len();
    assert forall|i: int| 0 <= i < trace.linear_steps@.len() implies linear_inputs_there(
        cert,
        #[trigger] trace.linear_steps@[i],
        i,
        coms,
        pass,
        states,
        st,
    ) by {
        assert(links[i] == linear_link(&trace.linear_steps@[i]));
        assert(links[i].layer_idx < links.len());
        assert(linear_shared_there(cert, trace.linear_steps@[i], coms, states));
    }
    assert forall|i: int| 0 <= i < trace.activation_steps@.len() implies {
        &&& bias_inputs_there(
            cert.relaxations@,
            d,
            #[trigger] trace.activation_steps@[i],
            i,
            coms,
            pass,
            states,
            st,
        )
        &&& slope_inputs_there(
            cert.relaxations@,
            d,
            trace.activation_steps@[i],
            i,
            coms,
            pass,
            states,
            st,
        )
        &&& relu_inputs_there(trace.activation_steps@[i], i, pass, st)
    } by {
        assert(links[m + i] == activation_link(&trace.activation_steps@[i]));
        assert(links[m + i].layer_idx < links.len());
        assert(activation_shared_there(cert, d, trace.activation_steps@[i], coms, states));
    }
    assert forall|e: BAccEvent| #[trigger]
        recorded_events(trace).contains(e) implies event_there(pass, e) && event_kept(st, e) by {
        let rec = recorded_events(trace);
        let k = choose|k: int| 0 <= k < rec.len() && rec[k] == e;
        assert(links[k].layer_idx == e.layer);
        assert(links[k].layer_idx < links.len());
    }
}

/// A matrix with the same cells is committed alike.
proof fn lemma_same_committed<P: MlPcs>(
    ck: P::CommitterKey,
    a: CodeMatrix,
    b: CodeMatrix,
    com: P::Commitment,
    aux: CommittedAux<P>,
)
    requires
        same_matrix(a, b),
        matrix_committed(ck, a, com, aux),
    ensures
        matrix_committed(ck, b, com, aux),
{
}

/// A committed pass with a true trace is ready to be proved.
pub proof fn law_direction_ready<P: MlPcs>(
    params: SnarkParams<P>,
    cert: QuantCert,
    trace: BackwardTrace,
    d: BoundDir,
    coms: TensorCommitments<P>,
    states: ProverPolyStates<P>,
    pass: PassCommitments<P>,
    st: PassProverStates<P>,
)
    requires
        direction_there(cert, trace, d, coms, states),
        direction_true(params.committer_key, cert, trace, d, coms, states),
        pass_committed(params.committer_key, trace, pass, st),
    ensures
        linear_trace_ready(params, cert, trace, coms, pass, states, st),
        bias_trace_ready(
            params.committer_key,
            cert.relaxations@,
            d,
            trace,
            coms,
            pass,
            states,
            st,
        ),
        slope_trace_ready(
            params.committer_key,
            cert.relaxations@,
            d,
            trace,
            coms,
            pass,
            states,
            st,
        ),
{
    let ck = params.committer_key;
    let links = chain_links(&trace);
    let m = trace.linear_steps@.len();
    assert forall|i: int| 0 <= i < m implies linear_step_true(
        cert,
        #[trigger] trace.linear_steps@[i],
    ) && linear_step_committed(
        ck,
        cert,
        trace.linear_steps@[i],
        i,
        coms,
        pass,
        states,
        st,
    ) by {
        let s = trace.linear_steps@[i];
        let top = s.layer_idx + 1;
        assert(links[i] == linear_link(&trace.linear_steps@[i]));
        assert(links[i].layer_idx < links.len());
        assert(linear_shared_true(ck, cert, s, coms, states));
        lemma_same_committed(
            ck,
            chain_a_at(links, top)->0.codes,
            s.a_old.codes,
            pass.chain_a@[top],
            st.chain_a@[top],
        );
    }
    assert forall|i: int| 0 <= i < trace.activation_steps@.len() implies {
        &&& bias_step_ready(
            ck,
            cert.relaxations@,
            d,
            #[trigger] trace.activation_steps@[i],
            i,
            coms,
            pass,
            states,
            st,
        )
        &&& slope_step_ready(
            ck,
            cert.relaxations@,
            d,
            trace.activation_steps@[i],
            i,
            coms,
            pass,
            states,
            st,
        )
    } by {
        let s = trace.activation_steps@[i];
        let top = s.layer_idx + 1;
        assert(links[m + i] == activation_link(&trace.activation_steps@[i]));
        assert(links[m + i].layer_idx < links.len());
        assert(activation_shared_true(ck, cert, d, s, coms, states));
        lemma_same_committed(
            ck,
            chain_a_at(links, top)->0.codes,
            s.a_old.codes,
            pass.chain_a@[top],
            st.chain_a@[top],
        );
    }
}

/// Whether the steps' biases have one length.
pub open spec fn biases_sized(trace: BackwardTrace, n: nat) -> bool {
    forall|k: int|
        0 <= k < chain_links(&trace).len() ==> vector_codes(
            (#[trigger] chain_links(&trace)[k]).b_acc_new.codes,
        ).len() == n && vector_codes(chain_links(&trace)[k].b_acc_old.codes).len() == n
}

/// A committed pass with a consistent trace has running biases that are ready
/// to be proved.
pub proof fn law_biases_ready<P: MlPcs>(
    ck: P::CommitterKey,
    trace: BackwardTrace,
    pass: PassCommitments<P>,
    st: PassProverStates<P>,
    n: nat,
    n_vars: usize,
)
    requires
        trace_fits(trace),
        chain_consistent(trace),
        biases_sized(trace, n),
        vector_vars(n) == n_vars,
        pass_committed(ck, trace, pass, st),
    ensures
        b_acc_ready(ck, trace, pass, st, n_vars),
{
    let links = chain_links(&trace);
    let rec = recorded_events(trace);
    let m = trace.linear_steps@.len();
    assert forall|e: BAccEvent| #[trigger] rec.contains(e) implies event_ready(
        ck,
        trace,
        e,
        pass,
        st,
        n_vars,
    ) by {
        let k = choose|k: int| 0 <= k < rec.len() && rec[k] == e;
        assert(links[k].layer_idx < links.len());
        assert(links[k].layer_idx == e.layer);
        if k < m {
            assert(links[k] == linear_link(&trace.linear_steps@[k]));
            assert(linear_step_fits(trace.linear_steps@[k]));
            assert(e.step == k);
        } else {
            assert(links[k] == activation_link(&trace.activation_steps@[k - m]));
            assert(activation_step_fits(trace.activation_steps@[k - m]));
            assert(e.step == k - m);
        }
    }
}

/// Whether every activation step splits its coefficients into signs, in the
/// lookup table's domain.
pub open spec fn splits_true<P: MlPcs>(params: SnarkParams<P>, trace: BackwardTrace) -> bool {
    let hb = params.preprocessed.spec_half_bits();
    &&& P::can_commit(params.committer_key, pow2(even_vars(hb + 1)))
    &&& forall|i: int|
        0 <= i < trace.activation_steps@.len() ==> split_true(
            (#[trigger] trace.activation_steps@[i]).a_old.codes,
            trace.activation_steps@[i].a_pos.codes,
            hb,
        )
}

/// Whether a matrix is split into signs: of at least two padded cells, all in
/// the table's domain.
pub open spec fn split_true(a: CodeMatrix, a_pos: CodeMatrix, hb: nat) -> bool {
    &&& matrix_rows(a_pos).len() == matrix_rows(a).len()
    &&& matrix_width(a_pos) == matrix_width(a)
    &&& ceil_log2(matrix_rows(a).len()) + ceil_log2(matrix_width(a)) >= 1
    &&& is_relu_pair(padded_cells(a), padded_cells(a_pos), pow2(hb) as int)
}

/// A committed pass with true splits has splits that are ready to be proved.
pub proof fn law_splits_ready<P: MlPcs>(
    params: SnarkParams<P>,
    trace: BackwardTrace,
    pass: PassCommitments<P>,
    st: PassProverStates<P>,
)
    requires
        trace_fits(trace),
        chain_consistent(trace),
        splits_true(params, trace),
        pass_committed(params.committer_key, trace, pass, st),
    ensures
        relu_trace_ready(params, trace, pass, st),
{
    let ck = params.committer_key;
    let links = chain_links(&trace);
    let m = trace.linear_steps@.len();
    assert forall|i: int| 0 <= i < trace.activation_steps@.len() implies relu_chain_step_ready(
        params,
        #[trigger] trace.activation_steps@[i],
        i,
        pass,
        st,
    ) by {
        let s = trace.activation_steps@[i];
        let top = s.layer_idx + 1;
        assert(links[m + i] == activation_link(&trace.activation_steps@[i]));
        assert(links[m + i].layer_idx < links.len());
        lemma_same_committed(
            ck,
            chain_a_at(links, top)->0.codes,
            s.a_old.codes,
            pass.chain_a@[top],
            st.chain_a@[top],
        );
        assert(split_true(s.a_old.codes, s.a_pos.codes, params.preprocessed.spec_half_bits()));
    }
}

} // verus!
