//! The prover of a hidden pass, in the parts in which it is checked.

use crate::activation_matrix::ActivationMatrixStepProof;
use crate::activation_matrix_prover::build_activation_matrix_proofs;
use crate::activation_step::{ActivationLayerStepProof, matrix_nv};
use crate::activation_step_prover::{bias_trace_ready, build_activation_backward_proofs};
use crate::architecture::{
    activation_chain_verdict, activation_indices, activation_shapes, cols_at, input_width,
    law_steps_partition, linear_chain_verdict, linear_indices, linear_shapes, output_width,
    pass_lengths_verdict,
};
use crate::bias_accumulator::BAccStepProof;
use crate::bias_accumulator_prover::{
    build_b_acc_step_proofs, events_of, recorded_events, same_events, trace_follows,
};
use crate::cert::QuantCert;
use crate::code_products::min_nat;
use crate::columns::{decode_or_zero, decoded, lift, lifted_codes};
use crate::commit::{
    PassCommitments, PassProverStates, ProverPolyStates, TensorCommitments, can_vector,
    matrix_committed, vector_committed,
};
use crate::commit_pass::{
    can_trace, chain_a_at, chain_b_at, chain_links, commit_pass, pass_committed, trace_fits,
};
use crate::errors::SnarkError;
use crate::field::{Fr, vals};
use crate::hidden_identity::{
    ChainInitFromIdentityProof, identity_init_ready, is_identity, law_identity_table_committed,
    prove_chain_init_from_identity,
};
use crate::hidden_parts::{
    bound_inputs_verdict, hidden_splits_state, hidden_splits_verdict, hidden_steps_state,
    hidden_steps_verdict,
};
use crate::hidden_pass::{
    HiddenFront, HiddenSplits, HiddenSteps, absorb_hidden_pass_tag, architecture_fits,
    claimed_linear, hidden_front_state, hidden_front_verdict, hidden_property,
    hidden_shape_verdict, lemma_log_small, pass_layers,
};
use crate::hidden_ready::{
    biases_sized, chain_consistent, direction_there, direction_true, law_biases_ready,
    law_direction_ready, law_splits_ready, lemma_direction_inputs, same_matrix, split_true,
    splits_true,
};
use crate::linear_chain::{
    LinearLayerStepProof, build_linear_backward_proofs, linear_step_shaped, linear_trace_ready,
};
use crate::logup::{lower, upper};
use crate::mle::{ceil_log2, pow2_usize};
use crate::network::LayerShape;
use crate::params::{SnarkParams, tables_fit};
use crate::pcs::{CommittedAux, MlPcs, abs_com, absorb_commitment, aux_of, commit_table, zeros};
use crate::poly::lin;
use crate::public_binding::{resize_zeros, resized};
use crate::qarray::{
    QArray1, cell_count, matrix_fits, matrix_rows, matrix_width, vector_codes, vector_fits,
    vector_table,
};
use crate::relu_chain::{
    build_relu_proof_concretize, build_relu_proofs_activation, claimed_shapes, lemma_dims_machine,
    relu_concretize_ready, traced_shapes,
};
use crate::relu_step::ReluStepProof;
use crate::ring::lemma_residue_id;
use crate::shapes::{law_vector_vars, matrix_vars, native_vector_n_vars, vector_vars};
use crate::trace::{ActivationStepTrace, BackwardTrace, BoundDir, ConcretizeTrace};
use crate::transcript::state_of;
use ark_crypto_primitives::sponge::merlin::Transcript;
use vstd::arithmetic::power2::pow2;
use vstd::prelude::*;

verus! {

/// The record of one hidden pass: its target, the preactivation bounds that it
/// proves, and the traces of its two directions.
pub struct HiddenLayerPass {
    pub target_layer_idx: usize,
    pub n_spec: usize,
    pub preact_lower: QArray1,
    pub preact_upper: QArray1,
    pub lower_trace: BackwardTrace,
    pub upper_trace: BackwardTrace,
}

/// What later proofs open of a hidden pass's bounds.
pub struct HiddenPassProverAux<P: MlPcs> {
    pub target_layer_idx: usize,
    pub preact_lower_aux: CommittedAux<P>,
    pub preact_upper_aux: CommittedAux<P>,
    pub preact_lower_commit: P::Commitment,
    pub preact_upper_commit: P::Commitment,
}

/// The first part of a pass's proof, with what the prover keeps.
pub struct HiddenFrontRun<P: MlPcs> {
    pub front: HiddenFront<P>,
    pub lower_st: PassProverStates<P>,
    pub upper_st: PassProverStates<P>,
    pub aux: HiddenPassProverAux<P>,
}

/// What holds of the first part of a pass's proof, whatever the trace.
pub open spec fn front_made<P: MlPcs>(
    ck: P::CommitterKey,
    cert: QuantCert,
    hp: HiddenLayerPass,
    run: HiddenFrontRun<P>,
) -> bool {
    let f = run.front;
    let len = pow2(vector_vars(vector_codes(hp.preact_lower.codes).len()));
    &&& f.target_layer_idx == hp.target_layer_idx
    &&& f.n_spec == hp.n_spec
    &&& pass_committed(ck, hp.lower_trace, f.pass_lower, run.lower_st)
    &&& pass_committed(ck, hp.upper_trace, f.pass_upper, run.upper_st)
    &&& f.preact_n_vars == vector_vars(vector_codes(hp.preact_lower.codes).len())
    &&& run.aux.target_layer_idx == hp.target_layer_idx
    &&& run.aux.preact_lower_commit == f.preact_lower_commit
    &&& run.aux.preact_upper_commit == f.preact_upper_commit
    &&& aux_of(ck, f.preact_lower_commit, run.aux.preact_lower_aux)
    &&& aux_of(ck, f.preact_upper_commit, run.aux.preact_upper_aux)
    &&& vals(run.aux.preact_lower_aux.table@) == resized(
        lifted_codes(vector_codes(hp.preact_lower.codes)),
        len,
    )
    &&& vals(run.aux.preact_upper_aux.table@) == resized(
        lifted_codes(vector_codes(hp.preact_upper.codes)),
        len,
    )
    &&& linear_shaped(cert, f.linear_backward_lower@, hp.lower_trace)
    &&& linear_shaped(cert, f.linear_backward_upper@, hp.upper_trace)
    &&& claimed_shapes(f.activation_backward_lower@) == traced_shapes(
        hp.lower_trace.activation_steps@,
    )
    &&& claimed_shapes(f.activation_backward_upper@) == traced_shapes(
        hp.upper_trace.activation_steps@,
    )
}

/// The linear steps' proofs claim the steps' shapes.
pub open spec fn linear_shaped<P: MlPcs>(
    cert: QuantCert,
    proofs: Seq<LinearLayerStepProof<P>>,
    trace: BackwardTrace,
) -> bool {
    &&& proofs.len() == trace.linear_steps@.len()
    &&& forall|i: int|
        0 <= i < proofs.len() ==> linear_step_shaped(
            #[trigger] proofs[i],
            cert,
            trace.linear_steps@[i],
        )
}

/// Whether a trace starts from the identity and from no bias.
pub open spec fn starts_from_identity(
    trace: BackwardTrace,
    target: usize,
    n: nat,
    one: i128,
) -> bool {
    let links = chain_links(&trace);
    let b = vector_codes(chain_b_at(links, target + 1)->0.codes);
    &&& links.len() == target + 1
    &&& is_identity(chain_a_at(links, target + 1)->0.codes, n, one)
    &&& b.len() == n
    &&& forall|i: int| 0 <= i < n ==> #[trigger] b[i] == 0
}

/// A committed trace that starts from the identity is ready to show so.
proof fn lemma_start_ready<P: MlPcs>(
    ck: P::CommitterKey,
    trace: BackwardTrace,
    pass: PassCommitments<P>,
    st: PassProverStates<P>,
    target: usize,
    n: nat,
    one: i128,
)
    requires
        trace_fits(trace),
        pass_committed(ck, trace, pass, st),
        starts_from_identity(trace, target, n, one),
    ensures
        identity_init_ready(ck, pass, st, target, n, one),
{
    let links = chain_links(&trace);
    let top = target + 1;
    let m = chain_a_at(links, top)->0.codes;
    let b = vector_codes(chain_b_at(links, top)->0.codes);
    law_identity_table_committed(m, n, one);
    assert(matrix_committed(ck, m, pass.chain_a@[top], st.chain_a@[top]));
    assert(vector_committed(ck, b, pass.chain_b_acc@[top], st.chain_b_acc@[top]));
    law_vector_vars(n);
    lemma_residue_id(0);
    assert(vector_table(b) =~= zeros(pow2(vector_vars(n))));
}

/// Whether a hidden pass is owed its first part: both traces are true records
/// that start from the identity, and everything can be committed.
pub open spec fn hidden_ready<P: MlPcs>(
    ck: P::CommitterKey,
    cert: QuantCert,
    hp: HiddenLayerPass,
    coms: TensorCommitments<P>,
    states: ProverPolyStates<P>,
    one: i128,
) -> bool {
    let n = hp.n_spec as nat;
    &&& can_vector::<P>(ck, vector_codes(hp.preact_lower.codes))
    &&& can_trace::<P>(ck, hp.lower_trace)
    &&& can_trace::<P>(ck, hp.upper_trace)
    &&& direction_true(ck, cert, hp.lower_trace, BoundDir::Lower, coms, states)
    &&& direction_true(ck, cert, hp.upper_trace, BoundDir::Upper, coms, states)
    &&& starts_from_identity(hp.lower_trace, hp.target_layer_idx, n, one)
    &&& starts_from_identity(hp.upper_trace, hp.target_layer_idx, n, one)
}

/// Whether a trace's steps have the shapes of an architecture's layers.
pub open spec fn steps_shaped(
    cert: QuantCert,
    trace: BackwardTrace,
    layers: Seq<LayerShape>,
    n_spec: nat,
) -> bool {
    &&& trace_follows(trace, layers)
    &&& forall|i: int|
        0 <= i < trace.linear_steps@.len() ==> {
            let s = #[trigger] trace.linear_steps@[i];
            let l = layers[s.layer_idx as int];
            let w = cert.weights@[s.layer_idx as int]->0.codes;
            &&& matrix_rows(s.a_old.codes).len() == n_spec
            &&& matrix_width(s.a_old.codes) == output_width(l)
            &&& matrix_rows(w).len() == output_width(l)
            &&& matrix_width(w) == input_width(l)
        }
    &&& forall|i: int|
        0 <= i < trace.activation_steps@.len() ==> {
            let s = #[trigger] trace.activation_steps@[i];
            &&& matrix_rows(s.a_old.codes).len() == n_spec
            &&& matrix_width(s.a_old.codes) == cols_at(layers, (s.layer_idx + 1) as nat)
        }
}

/// Whether a hidden pass is one of an architecture.
pub open spec fn hidden_follows(cert: QuantCert, hp: HiddenLayerPass, layers: Seq<LayerShape>) -> bool {
    let low = pass_layers(layers, hp.target_layer_idx);
    &&& architecture_fits(layers)
    &&& hp.target_layer_idx < layers.len()
    &&& layers[hp.target_layer_idx as int] is Linear
    &&& output_width(layers[hp.target_layer_idx as int]) == hp.n_spec
    &&& vector_codes(hp.preact_lower.codes).len() == hp.n_spec
    &&& steps_shaped(cert, hp.lower_trace, low, hp.n_spec as nat)
    &&& steps_shaped(cert, hp.upper_trace, low, hp.n_spec as nat)
}

/// One direction of a pass that follows an architecture has its shapes.
proof fn lemma_direction_shaped<P: MlPcs>(
    ck: P::CommitterKey,
    cert: QuantCert,
    trace: BackwardTrace,
    low: Seq<LayerShape>,
    n_spec: usize,
    pass: PassCommitments<P>,
    st: PassProverStates<P>,
    lin: Seq<LinearLayerStepProof<P>>,
    act: Seq<ActivationLayerStepProof<P>>,
)
    requires
        steps_shaped(cert, trace, low, n_spec as nat),
        pass_committed(ck, trace, pass, st),
        linear_shaped(cert, lin, trace),
        claimed_shapes(act) == traced_shapes(trace.activation_steps@),
        n_spec <= usize::MAX / 2 + 1,
        forall|i: int|
            0 <= i < low.len() ==> input_width(#[trigger] low[i]) <= usize::MAX / 2 + 1
                && output_width(low[i]) <= usize::MAX / 2 + 1,
    ensures
        pass_lengths_verdict(pass, low) == Ok::<(), SnarkError>(()),
        linear_chain_verdict(claimed_linear(lin), low, hidden_property(n_spec, low)) == Ok::<
            (),
            SnarkError,
        >(()),
        activation_chain_verdict(claimed_shapes(act), low, hidden_property(n_spec, low)) == Ok::<
            (),
            SnarkError,
        >(()),
{
    let n = low.len();
    law_steps_partition(low, n);
    let li = linear_indices(low, n);
    let ai = activation_indices(low, n);
    let want = linear_shapes(low, ceil_log2(n_spec as nat), n);
    lemma_log_small(n_spec as nat);
    assert forall|i: int| 0 <= i < lin.len() implies #[trigger] claimed_linear(lin)[i]
        == want[i] by {
        let s = trace.linear_steps@[i];
        assert(linear_step_shaped(lin[i], cert, s));
        assert(s.layer_idx == li[i]);
        assert(li.contains(li[i]));
        let l = low[li[i] as int];
        lemma_log_small(output_width(l));
        lemma_log_small(input_width(l));
    }
    assert(claimed_linear(lin) =~= want);
    let awant = activation_shapes(low, ceil_log2(n_spec as nat), n);
    assert forall|i: int| 0 <= i < act.len() implies #[trigger] claimed_shapes(act)[i]
        == awant[i] by {
        let s = trace.activation_steps@[i];
        assert(claimed_shapes(act)[i] == traced_shapes(trace.activation_steps@)[i]);
        assert(s.layer_idx == ai[i]);
    }
    assert(claimed_shapes(act).len() == traced_shapes(trace.activation_steps@).len());
    assert(claimed_shapes(act) =~= awant);
}

/// A pass that follows an architecture has its shapes.
proof fn lemma_hidden_shaped<P: MlPcs>(
    ck: P::CommitterKey,
    cert: QuantCert,
    hp: HiddenLayerPass,
    run: HiddenFrontRun<P>,
    layers: Seq<LayerShape>,
)
    requires
        front_made(ck, cert, hp, run),
        hidden_follows(cert, hp, layers),
    ensures
        hidden_shape_verdict(layers, run.front) == Ok::<(), SnarkError>(()),
{
    reveal(hidden_shape_verdict);
    let low = pass_layers(layers, hp.target_layer_idx);
    let f = run.front;
    assert(layers[hp.target_layer_idx as int] is Linear);
    assert(low.len() == hp.target_layer_idx + 1);
    assert forall|i: int| 0 <= i < low.len() implies input_width(#[trigger] low[i]) <= usize::MAX
        / 2 + 1 && output_width(low[i]) <= usize::MAX / 2 + 1 by {
        assert(low[i] == layers[i]);
    }
    assert(output_width(layers[hp.target_layer_idx as int]) <= usize::MAX / 2 + 1);
    lemma_direction_shaped(
        ck,
        cert,
        hp.lower_trace,
        low,
        hp.n_spec,
        f.pass_lower,
        run.lower_st,
        f.linear_backward_lower@,
        f.activation_backward_lower@,
    );
    lemma_direction_shaped(
        ck,
        cert,
        hp.upper_trace,
        low,
        hp.n_spec,
        f.pass_upper,
        run.upper_st,
        f.linear_backward_upper@,
        f.activation_backward_upper@,
    );
    law_steps_partition(low, low.len());
}

/// What the commitments of a hidden pass are.
struct HiddenCommits<P: MlPcs> {
    lower: (PassCommitments<P>, PassProverStates<P>),
    upper: (PassCommitments<P>, PassProverStates<P>),
    preact_lower: (P::Commitment, CommittedAux<P>),
    preact_upper: (P::Commitment, CommittedAux<P>),
    n_vars: usize,
}

/// What holds of the commitments of a hidden pass.
spec fn commits_made<P: MlPcs>(ck: P::CommitterKey, hp: HiddenLayerPass, c: HiddenCommits<P>) -> bool {
    let len = pow2(vector_vars(vector_codes(hp.preact_lower.codes).len()));
    &&& c.n_vars == vector_vars(vector_codes(hp.preact_lower.codes).len())
    &&& c.n_vars <= 64
    &&& pass_committed(ck, hp.lower_trace, c.lower.0, c.lower.1)
    &&& pass_committed(ck, hp.upper_trace, c.upper.0, c.upper.1)
    &&& aux_of(ck, c.preact_lower.0, c.preact_lower.1)
    &&& aux_of(ck, c.preact_upper.0, c.preact_upper.1)
    &&& vals(c.preact_lower.1.table@) == resized(
        lifted_codes(vector_codes(hp.preact_lower.codes)),
        len,
    )
    &&& vals(c.preact_upper.1.table@) == resized(
        lifted_codes(vector_codes(hp.preact_upper.codes)),
        len,
    )
}

/// Commit to a hidden pass's bounds and chains, and bind the transcript to the
/// bounds.
fn commit_hidden<P: MlPcs>(
    hp: &HiddenLayerPass,
    ck: &P::CommitterKey,
    sponge: &mut Transcript,
    rng: &mut P::Randomness,
) -> (r: Result<HiddenCommits<P>, SnarkError>)
    requires
        trace_fits(hp.lower_trace),
        trace_fits(hp.upper_trace),
        vector_fits(vector_codes(hp.preact_lower.codes)),
    ensures
        r is Ok <==> can_vector::<P>(*ck, vector_codes(hp.preact_lower.codes)) && can_trace::<P>(
            *ck,
            hp.lower_trace,
        ) && can_trace::<P>(*ck, hp.upper_trace),
        r matches Err(e) ==> e is Pcs,
        r matches Ok(c) ==> {
            &&& commits_made(*ck, *hp, c)
            &&& state_of(*final(sponge)) == abs_com::<P>(
                abs_com::<P>(state_of(*old(sponge)), c.preact_lower.0),
                c.preact_upper.0,
            )
        },
{
    let lo_codes: Vec<i128> = hp.preact_lower.codes.to_vec();
    let hi_codes: Vec<i128> = hp.preact_upper.codes.to_vec();
    let n_vars: usize = native_vector_n_vars(lo_codes.len());
    let len: usize = pow2_usize(n_vars);
    let lo_padded: Vec<Fr> = resize_zeros(lift(lo_codes.as_slice()), len);
    let hi_padded: Vec<Fr> = resize_zeros(lift(hi_codes.as_slice()), len);
    let lo: (P::Commitment, CommittedAux<P>) = match commit_table::<P>(ck, lo_padded, rng) {
        Ok(x) => x,
        Err(e) => {
            return Err(e);
        },
    };
    let hi: (P::Commitment, CommittedAux<P>) = match commit_table::<P>(ck, hi_padded, rng) {
        Ok(x) => x,
        Err(e) => {
            return Err(e);
        },
    };
    absorb_commitment::<P>(sponge, &lo.0);
    absorb_commitment::<P>(sponge, &hi.0);
    let lower: (PassCommitments<P>, PassProverStates<P>) = match commit_pass::<P>(
        &hp.lower_trace,
        ck,
        rng,
    ) {
        Ok(x) => x,
        Err(e) => {
            return Err(e);
        },
    };
    let upper: (PassCommitments<P>, PassProverStates<P>) = match commit_pass::<P>(
        &hp.upper_trace,
        ck,
        rng,
    ) {
        Ok(x) => x,
        Err(e) => {
            return Err(e);
        },
    };
    Ok(HiddenCommits { lower, upper, preact_lower: lo, preact_upper: hi, n_vars })
}

/// The proofs of one direction's linear and activation steps match the trace.
proof fn lemma_traced<P: MlPcs>(
    proofs: Seq<ActivationLayerStepProof<P>>,
    steps: Seq<ActivationStepTrace>,
)
    requires
        proofs.len() == steps.len(),
        forall|i: int|
            0 <= i < proofs.len() ==> {
                let m = steps[i].a_old.codes;
                &&& (#[trigger] proofs[i]).layer_idx == steps[i].layer_idx
                &&& proofs[i].a_old_log_dims.0 == ceil_log2(matrix_rows(m).len())
                &&& proofs[i].a_old_log_dims.1 == ceil_log2(matrix_width(m))
            },
    ensures
        claimed_shapes(proofs) == traced_shapes(steps),
{
    assert(claimed_shapes(proofs) =~= traced_shapes(steps));
}

/// Prove the first part of a hidden pass: commit to its bounds and chains, and
/// prove its starts from the identity, its linear steps and the biases of its
/// activation steps. The proof is accepted for every architecture that the
/// pass is one of.
pub fn prove_hidden_front<P: MlPcs>(
    cert: &QuantCert,
    hp: &HiddenLayerPass,
    commitments: &TensorCommitments<P>,
    prover_states: &ProverPolyStates<P>,
    params: &SnarkParams<P>,
    sponge: &mut Transcript,
    rng: &mut P::Randomness,
) -> (r: Result<HiddenFrontRun<P>, SnarkError>)
    requires
        direction_there(*cert, hp.lower_trace, BoundDir::Lower, *commitments, *prover_states),
        direction_there(*cert, hp.upper_trace, BoundDir::Upper, *commitments, *prover_states),
        vector_fits(vector_codes(hp.preact_lower.codes)),
        hp.target_layer_idx < usize::MAX,
        hp.n_spec <= usize::MAX / 2 + 1,
    ensures
        !(can_vector::<P>(params.committer_key, vector_codes(hp.preact_lower.codes))
            && can_trace::<P>(params.committer_key, hp.lower_trace) && can_trace::<P>(
            params.committer_key,
            hp.upper_trace,
        )) ==> (r matches Err(e) && e is Pcs),
        r matches Ok(run) ==> front_made(params.committer_key, *cert, *hp, run),
        forall|one: i128| #[trigger]
            hidden_ready(params.committer_key, *cert, *hp, *commitments, *prover_states, one)
                && params.keys_match() ==> {
                &&& r matches Ok(run)
                &&& state_of(*final(sponge)) == hidden_front_state(
                    params.verifier_key,
                    run.front,
                    *commitments,
                    state_of(*old(sponge)),
                )
                &&& forall|layers: Seq<LayerShape>| #[trigger]
                    hidden_follows(*cert, *hp, layers) ==> hidden_front_verdict(
                        params.verifier_key,
                        layers,
                        run.front,
                        *commitments,
                        one,
                        state_of(*old(sponge)),
                    ) == Ok::<(), SnarkError>(())
            },
{
    let ghost t0 = state_of(*sponge);
    let ghost ck = params.committer_key;
    let ghost vk = params.verifier_key;
    absorb_hidden_pass_tag(sponge, hp.target_layer_idx, hp.n_spec);
    let c: HiddenCommits<P> = match commit_hidden::<P>(hp, &params.committer_key, sponge, rng) {
        Ok(c) => c,
        Err(e) => {
            return Err(e);
        },
    };
    proof {
        lemma_direction_inputs(
            ck,
            *cert,
            hp.lower_trace,
            BoundDir::Lower,
            *commitments,
            *prover_states,
            c.lower.0,
            c.lower.1,
        );
        lemma_direction_inputs(
            ck,
            *cert,
            hp.upper_trace,
            BoundDir::Upper,
            *commitments,
            *prover_states,
            c.upper.0,
            c.upper.1,
        );
        assert forall|one: i128| #[trigger]
            hidden_ready(ck, *cert, *hp, *commitments, *prover_states, one) implies {
            &&& identity_init_ready(
                ck,
                c.lower.0,
                c.lower.1,
                hp.target_layer_idx,
                hp.n_spec as nat,
                one,
            )
            &&& identity_init_ready(
                ck,
                c.upper.0,
                c.upper.1,
                hp.target_layer_idx,
                hp.n_spec as nat,
                one,
            )
            &&& linear_trace_ready(
                *params,
                *cert,
                hp.lower_trace,
                *commitments,
                c.lower.0,
                *prover_states,
                c.lower.1,
            )
            &&& linear_trace_ready(
                *params,
                *cert,
                hp.upper_trace,
                *commitments,
                c.upper.0,
                *prover_states,
                c.upper.1,
            )
            &&& bias_trace_ready(
                ck,
                cert.relaxations@,
                BoundDir::Lower,
                hp.lower_trace,
                *commitments,
                c.lower.0,
                *prover_states,
                c.lower.1,
            )
            &&& bias_trace_ready(
                ck,
                cert.relaxations@,
                BoundDir::Upper,
                hp.upper_trace,
                *commitments,
                c.upper.0,
                *prover_states,
                c.upper.1,
            )
        } by {
            lemma_start_ready(
                ck,
                hp.lower_trace,
                c.lower.0,
                c.lower.1,
                hp.target_layer_idx,
                hp.n_spec as nat,
                one,
            );
            lemma_start_ready(
                ck,
                hp.upper_trace,
                c.upper.0,
                c.upper.1,
                hp.target_layer_idx,
                hp.n_spec as nat,
                one,
            );
            law_direction_ready(
                *params,
                *cert,
                hp.lower_trace,
                BoundDir::Lower,
                *commitments,
                *prover_states,
                c.lower.0,
                c.lower.1,
            );
            law_direction_ready(
                *params,
                *cert,
                hp.upper_trace,
                BoundDir::Upper,
                *commitments,
                *prover_states,
                c.upper.0,
                c.upper.1,
            );
        }
    }
    let chain_init_lower: ChainInitFromIdentityProof<P> = match prove_chain_init_from_identity::<P>(
        &c.lower.0,
        &c.lower.1,
        hp.target_layer_idx,
        hp.n_spec,
        params,
        sponge,
        rng,
    ) {
        Ok(x) => x,
        Err(e) => {
            return Err(e);
        },
    };
    let chain_init_upper: ChainInitFromIdentityProof<P> = match prove_chain_init_from_identity::<P>(
        &c.upper.0,
        &c.upper.1,
        hp.target_layer_idx,
        hp.n_spec,
        params,
        sponge,
        rng,
    ) {
        Ok(x) => x,
        Err(e) => {
            return Err(e);
        },
    };
    let linear_backward_lower: Vec<LinearLayerStepProof<P>> = match build_linear_backward_proofs::<
        P,
    >(
        cert,
        &hp.lower_trace,
        &c.lower.0,
        &c.lower.1,
        commitments,
        prover_states,
        params,
        sponge,
        rng,
    ) {
        Ok(x) => x,
        Err(e) => {
            return Err(e);
        },
    };
    let linear_backward_upper: Vec<LinearLayerStepProof<P>> = match build_linear_backward_proofs::<
        P,
    >(
        cert,
        &hp.upper_trace,
        &c.upper.0,
        &c.upper.1,
        commitments,
        prover_states,
        params,
        sponge,
        rng,
    ) {
        Ok(x) => x,
        Err(e) => {
            return Err(e);
        },
    };
    let activation_backward_lower: Vec<ActivationLayerStepProof<P>> =
        match build_activation_backward_proofs::<P>(
        &hp.lower_trace,
        BoundDir::Lower,
        &cert.relaxations,
        &c.lower.0,
        &c.lower.1,
        commitments,
        prover_states,
        params,
        sponge,
        rng,
    ) {
        Ok(x) => x,
        Err(e) => {
            return Err(e);
        },
    };
    let activation_backward_upper: Vec<ActivationLayerStepProof<P>> =
        match build_activation_backward_proofs::<P>(
        &hp.upper_trace,
        BoundDir::Upper,
        &cert.relaxations,
        &c.upper.0,
        &c.upper.1,
        commitments,
        prover_states,
        params,
        sponge,
        rng,
    ) {
        Ok(x) => x,
        Err(e) => {
            return Err(e);
        },
    };
    proof {
        lemma_traced(activation_backward_lower@, hp.lower_trace.activation_steps@);
        lemma_traced(activation_backward_upper@, hp.upper_trace.activation_steps@);
    }
    let aux: HiddenPassProverAux<P> = HiddenPassProverAux {
        target_layer_idx: hp.target_layer_idx,
        preact_lower_commit: P::duplicate(&c.preact_lower.0),
        preact_upper_commit: P::duplicate(&c.preact_upper.0),
        preact_lower_aux: c.preact_lower.1,
        preact_upper_aux: c.preact_upper.1,
    };
    let run: HiddenFrontRun<P> = HiddenFrontRun {
        front: HiddenFront {
            target_layer_idx: hp.target_layer_idx,
            n_spec: hp.n_spec,
            pass_lower: c.lower.0,
            pass_upper: c.upper.0,
            preact_lower_commit: c.preact_lower.0,
            preact_upper_commit: c.preact_upper.0,
            preact_n_vars: c.n_vars as u32,
            chain_init_lower,
            chain_init_upper,
            linear_backward_lower,
            linear_backward_upper,
            activation_backward_lower,
            activation_backward_upper,
        },
        lower_st: c.lower.1,
        upper_st: c.upper.1,
        aux,
    };
    proof {
        reveal(hidden_front_verdict);
        reveal(hidden_front_state);
        assert(front_made(ck, *cert, *hp, run));
        assert forall|one: i128, layers: Seq<LayerShape>|
            #![trigger hidden_ready(ck, *cert, *hp, *commitments, *prover_states, one), hidden_follows(*cert, *hp, layers)]
            hidden_ready(ck, *cert, *hp, *commitments, *prover_states, one)
                && params.keys_match() && hidden_follows(
                *cert,
                *hp,
                layers,
            ) implies hidden_front_verdict(vk, layers, run.front, *commitments, one, t0) == Ok::<
            (),
            SnarkError,
        >(()) by {
            lemma_hidden_shaped(ck, *cert, *hp, run, layers);
        }
    }
    Ok(run)
}

// ---- The second part ----

/// The trace of the lower direction's last step.
pub fn lower_concretize_trace(hp: &HiddenLayerPass) -> (r: Result<&ConcretizeTrace, SnarkError>)
    ensures
        match hp.lower_trace.concretize {
            Some(c) => r == Ok::<&ConcretizeTrace, SnarkError>(&c),
            None => r == Err::<&ConcretizeTrace, SnarkError>(
                SnarkError::ShapeMismatch { what: "hidden pass: missing lower concretize trace" },
            ),
        },
{
    match &hp.lower_trace.concretize {
        Some(c) => Ok(c),
        None => Err(
            SnarkError::ShapeMismatch { what: "hidden pass: missing lower concretize trace" },
        ),
    }
}

/// The trace of the upper direction's last step.
pub fn upper_concretize_trace(hp: &HiddenLayerPass) -> (r: Result<&ConcretizeTrace, SnarkError>)
    ensures
        match hp.upper_trace.concretize {
            Some(c) => r == Ok::<&ConcretizeTrace, SnarkError>(&c),
            None => r == Err::<&ConcretizeTrace, SnarkError>(
                SnarkError::ShapeMismatch { what: "hidden pass: missing upper concretize trace" },
            ),
        },
{
    match &hp.upper_trace.concretize {
        Some(c) => Ok(c),
        None => Err(
            SnarkError::ShapeMismatch { what: "hidden pass: missing upper concretize trace" },
        ),
    }
}

/// Whether the last step of a trace splits its coefficients into signs, and
/// they are the chain's.
pub open spec fn last_split_true<P: MlPcs>(params: SnarkParams<P>, trace: BackwardTrace) -> bool {
    &&& trace.concretize matches Some(c)
    &&& split_true(c.a_final.codes, c.a_pos.codes, params.preprocessed.spec_half_bits())
    &&& same_matrix(chain_a_at(chain_links(&trace), 0)->0.codes, c.a_final.codes)
}

/// The logarithms of the axes of the last step's coefficients.
pub open spec fn last_dims(trace: BackwardTrace) -> (usize, usize) {
    let m = trace.concretize->0.a_final.codes;
    (ceil_log2(matrix_rows(m).len()) as usize, ceil_log2(matrix_width(m)) as usize)
}

/// A committed trace with a true last split is ready to prove it.
proof fn lemma_last_ready<P: MlPcs>(
    params: SnarkParams<P>,
    trace: BackwardTrace,
    pass: PassCommitments<P>,
    st: PassProverStates<P>,
)
    requires
        trace_fits(trace),
        splits_true(params, trace),
        last_split_true(params, trace),
        pass_committed(params.committer_key, trace, pass, st),
        matrix_fits(trace.concretize->0.a_final.codes),
    ensures
        relu_concretize_ready(params, trace.concretize->0, pass, st),
        cell_count(trace.concretize->0.a_final.codes) == pow2(
            (last_dims(trace).0 + last_dims(trace).1) as nat,
        ),
        matrix_nv(last_dims(trace)) == matrix_vars(
            matrix_rows(trace.concretize->0.a_final.codes).len(),
            matrix_width(trace.concretize->0.a_final.codes),
        ),
{
    let links = chain_links(&trace);
    let c = trace.concretize->0;
    assert(matrix_committed(
        params.committer_key,
        chain_a_at(links, 0)->0.codes,
        pass.chain_a@[0],
        st.chain_a@[0],
    ));
    lemma_dims_machine(c.a_final.codes);
}

/// Prove the second part of a hidden pass, after the proof of its last step:
/// the splits of its steps into signs.
pub fn prove_hidden_splits<P: MlPcs>(
    cert: &QuantCert,
    hp: &HiddenLayerPass,
    commitments: &TensorCommitments<P>,
    prover_states: &ProverPolyStates<P>,
    run: &HiddenFrontRun<P>,
    params: &SnarkParams<P>,
    sponge: &mut Transcript,
    rng: &mut P::Randomness,
) -> (r: Result<HiddenSplits<P>, SnarkError>)
    requires
        direction_there(*cert, hp.lower_trace, BoundDir::Lower, *commitments, *prover_states),
        direction_there(*cert, hp.upper_trace, BoundDir::Upper, *commitments, *prover_states),
        front_made(params.committer_key, *cert, *hp, *run),
        hp.lower_trace.concretize is Some,
        hp.upper_trace.concretize is Some,
        matrix_fits(hp.lower_trace.concretize->0.a_final.codes),
        matrix_fits(hp.upper_trace.concretize->0.a_final.codes),
        tables_fit(*params),
    ensures
        r matches Ok(s) ==> {
            &&& s.relu_lower_activation@.len() == hp.lower_trace.activation_steps@.len()
            &&& s.relu_upper_activation@.len() == hp.upper_trace.activation_steps@.len()
        },
        chain_consistent(hp.lower_trace) && chain_consistent(hp.upper_trace) && splits_true(
            *params,
            hp.lower_trace,
        ) && splits_true(*params, hp.upper_trace) && last_split_true(*params, hp.lower_trace)
            && last_split_true(*params, hp.upper_trace) && params.keys_match() ==> {
            let (ld, ud) = (last_dims(hp.lower_trace), last_dims(hp.upper_trace));
            &&& r matches Ok(s)
            &&& hidden_splits_verdict(
                *params,
                run.front,
                s,
                ld,
                ud,
                state_of(*old(sponge)),
            ) == Ok::<(), SnarkError>(())
            &&& state_of(*final(sponge)) == hidden_splits_state(
                params.verifier_key,
                run.front,
                s,
                ld,
                ud,
                state_of(*old(sponge)),
            )
        },
{
    let ghost ck = params.committer_key;
    let ghost ready = chain_consistent(hp.lower_trace) && chain_consistent(hp.upper_trace)
        && splits_true(*params, hp.lower_trace) && splits_true(*params, hp.upper_trace)
        && last_split_true(*params, hp.lower_trace) && last_split_true(*params, hp.upper_trace);
    let f: &HiddenFront<P> = &run.front;
    proof {
        lemma_direction_inputs(
            ck,
            *cert,
            hp.lower_trace,
            BoundDir::Lower,
            *commitments,
            *prover_states,
            f.pass_lower,
            run.lower_st,
        );
        lemma_direction_inputs(
            ck,
            *cert,
            hp.upper_trace,
            BoundDir::Upper,
            *commitments,
            *prover_states,
            f.pass_upper,
            run.upper_st,
        );
        if ready {
            law_splits_ready(*params, hp.lower_trace, f.pass_lower, run.lower_st);
            law_splits_ready(*params, hp.upper_trace, f.pass_upper, run.upper_st);
            lemma_last_ready(*params, hp.lower_trace, f.pass_lower, run.lower_st);
            lemma_last_ready(*params, hp.upper_trace, f.pass_upper, run.upper_st);
        }
    }
    let relu_lower_activation: Vec<ReluStepProof<P>> = match build_relu_proofs_activation::<P>(
        &hp.lower_trace,
        &f.pass_lower,
        &run.lower_st,
        params,
        sponge,
        rng,
    ) {
        Ok(x) => x,
        Err(e) => {
            return Err(e);
        },
    };
    let relu_upper_activation: Vec<ReluStepProof<P>> = match build_relu_proofs_activation::<P>(
        &hp.upper_trace,
        &f.pass_upper,
        &run.upper_st,
        params,
        sponge,
        rng,
    ) {
        Ok(x) => x,
        Err(e) => {
            return Err(e);
        },
    };
    let lower_last: &ConcretizeTrace = match lower_concretize_trace(hp) {
        Ok(c) => c,
        Err(e) => {
            return Err(e);
        },
    };
    let upper_last: &ConcretizeTrace = match upper_concretize_trace(hp) {
        Ok(c) => c,
        Err(e) => {
            return Err(e);
        },
    };
    let relu_lower_concretize: ReluStepProof<P> = match build_relu_proof_concretize::<P>(
        lower_last,
        &f.pass_lower,
        &run.lower_st,
        params,
        sponge,
        rng,
    ) {
        Ok(x) => x,
        Err(e) => {
            return Err(e);
        },
    };
    let relu_upper_concretize: ReluStepProof<P> = match build_relu_proof_concretize::<P>(
        upper_last,
        &f.pass_upper,
        &run.upper_st,
        params,
        sponge,
        rng,
    ) {
        Ok(x) => x,
        Err(e) => {
            return Err(e);
        },
    };
    proof {
        reveal(hidden_splits_verdict);
        reveal(hidden_splits_state);
        assert(claimed_shapes(f.activation_backward_lower@).len() == traced_shapes(
            hp.lower_trace.activation_steps@,
        ).len());
        assert(claimed_shapes(f.activation_backward_upper@).len() == traced_shapes(
            hp.upper_trace.activation_steps@,
        ).len());
    }
    Ok(
        HiddenSplits {
            relu_lower_activation,
            relu_upper_activation,
            relu_lower_concretize,
            relu_upper_concretize,
        },
    )
}

// ---- The third part ----

/// Prove the third part of a hidden pass, after the proof of its rescalings:
/// its running biases and its products.
pub fn prove_hidden_steps<P: MlPcs>(
    cert: &QuantCert,
    hp: &HiddenLayerPass,
    commitments: &TensorCommitments<P>,
    prover_states: &ProverPolyStates<P>,
    run: &HiddenFrontRun<P>,
    params: &SnarkParams<P>,
    sponge: &mut Transcript,
    rng: &mut P::Randomness,
) -> (r: Result<HiddenSteps<P>, SnarkError>)
    requires
        direction_there(*cert, hp.lower_trace, BoundDir::Lower, *commitments, *prover_states),
        direction_there(*cert, hp.upper_trace, BoundDir::Upper, *commitments, *prover_states),
        front_made(params.committer_key, *cert, *hp, *run),
        hp.n_spec <= usize::MAX / 2 + 1,
    ensures
        r matches Ok(s) ==> {
            &&& same_events(events_of(s.b_acc_step_lower@), recorded_events(hp.lower_trace))
            &&& same_events(events_of(s.b_acc_step_upper@), recorded_events(hp.upper_trace))
            &&& s.activation_matrix_lower@.len() == hp.lower_trace.activation_steps@.len()
            &&& s.activation_matrix_upper@.len() == hp.upper_trace.activation_steps@.len()
        },
        direction_true(
            params.committer_key,
            *cert,
            hp.lower_trace,
            BoundDir::Lower,
            *commitments,
            *prover_states,
        ) && direction_true(
            params.committer_key,
            *cert,
            hp.upper_trace,
            BoundDir::Upper,
            *commitments,
            *prover_states,
        ) && biases_sized(hp.lower_trace, hp.n_spec as nat) && biases_sized(
            hp.upper_trace,
            hp.n_spec as nat,
        ) && params.keys_match() ==> {
            &&& r matches Ok(s)
            &&& forall|layers: Seq<LayerShape>| #[trigger]
                hidden_follows(*cert, *hp, layers) ==> {
                    &&& state_of(*final(sponge)) == hidden_steps_state(
                        params.verifier_key,
                        layers,
                        run.front,
                        s,
                        *commitments,
                        state_of(*old(sponge)),
                    )
                    &&& forall|lo: P::Commitment, up: P::Commitment| #[trigger]
                        bound_inputs_verdict(run.front, lo, up) == Ok::<(), SnarkError>(())
                            ==> hidden_steps_verdict(
                            params.verifier_key,
                            layers,
                            run.front,
                            s,
                            *commitments,
                            lo,
                            up,
                            state_of(*old(sponge)),
                        ) == Ok::<(), SnarkError>(())
                }
        },
{
    let ghost ck = params.committer_key;
    let ghost ready = direction_true(
        ck,
        *cert,
        hp.lower_trace,
        BoundDir::Lower,
        *commitments,
        *prover_states,
    ) && direction_true(
        ck,
        *cert,
        hp.upper_trace,
        BoundDir::Upper,
        *commitments,
        *prover_states,
    ) && biases_sized(hp.lower_trace, hp.n_spec as nat) && biases_sized(
        hp.upper_trace,
        hp.n_spec as nat,
    );
    let f: &HiddenFront<P> = &run.front;
    let nv: usize = native_vector_n_vars(hp.n_spec);
    proof {
        lemma_direction_inputs(
            ck,
            *cert,
            hp.lower_trace,
            BoundDir::Lower,
            *commitments,
            *prover_states,
            f.pass_lower,
            run.lower_st,
        );
        lemma_direction_inputs(
            ck,
            *cert,
            hp.upper_trace,
            BoundDir::Upper,
            *commitments,
            *prover_states,
            f.pass_upper,
            run.upper_st,
        );
        if ready {
            law_biases_ready(
                ck,
                hp.lower_trace,
                f.pass_lower,
                run.lower_st,
                hp.n_spec as nat,
                nv,
            );
            law_biases_ready(
                ck,
                hp.upper_trace,
                f.pass_upper,
                run.upper_st,
                hp.n_spec as nat,
                nv,
            );
            law_direction_ready(
                *params,
                *cert,
                hp.lower_trace,
                BoundDir::Lower,
                *commitments,
                *prover_states,
                f.pass_lower,
                run.lower_st,
            );
            law_direction_ready(
                *params,
                *cert,
                hp.upper_trace,
                BoundDir::Upper,
                *commitments,
                *prover_states,
                f.pass_upper,
                run.upper_st,
            );
        }
    }
    let b_acc_step_lower: Vec<BAccStepProof<P>> = match build_b_acc_step_proofs::<P>(
        &hp.lower_trace,
        &f.pass_lower,
        &run.lower_st,
        nv,
        params,
        sponge,
        rng,
    ) {
        Ok(x) => x,
        Err(e) => {
            return Err(e);
        },
    };
    let b_acc_step_upper: Vec<BAccStepProof<P>> = match build_b_acc_step_proofs::<P>(
        &hp.upper_trace,
        &f.pass_upper,
        &run.upper_st,
        nv,
        params,
        sponge,
        rng,
    ) {
        Ok(x) => x,
        Err(e) => {
            return Err(e);
        },
    };
    let activation_matrix_lower: Vec<ActivationMatrixStepProof<P>> =
        match build_activation_matrix_proofs::<P>(
        &hp.lower_trace,
        BoundDir::Lower,
        &cert.relaxations,
        &f.pass_lower,
        &run.lower_st,
        commitments,
        prover_states,
        params,
        sponge,
        rng,
    ) {
        Ok(x) => x,
        Err(e) => {
            return Err(e);
        },
    };
    let activation_matrix_upper: Vec<ActivationMatrixStepProof<P>> =
        match build_activation_matrix_proofs::<P>(
        &hp.upper_trace,
        BoundDir::Upper,
        &cert.relaxations,
        &f.pass_upper,
        &run.upper_st,
        commitments,
        prover_states,
        params,
        sponge,
        rng,
    ) {
        Ok(x) => x,
        Err(e) => {
            return Err(e);
        },
    };
    proof {
        reveal(hidden_steps_verdict);
        reveal(hidden_steps_state);
        assert forall|layers: Seq<LayerShape>| #[trigger]
            hidden_follows(*cert, *hp, layers) implies trace_follows(
            hp.lower_trace,
            pass_layers(layers, hp.target_layer_idx),
        ) && trace_follows(hp.upper_trace, pass_layers(layers, hp.target_layer_idx)) by {}
    }
    Ok(
        HiddenSteps {
            b_acc_step_lower,
            b_acc_step_upper,
            activation_matrix_lower,
            activation_matrix_upper,
        },
    )
}

// ---- The bound ----

/// What a pass's bound is proved from: the claimed bounds, the last bias, and
/// the last step's share, as padded codes.
pub struct BoundCodes {
    pub claimed: Vec<i128>,
    pub b_acc_final: Vec<i128>,
    pub acc_w: Vec<i128>,
}

/// Whether codes are those of a bound: the bound itself, the last running bias,
/// and the last step's share, each over `2^n_vars` entries at most.
pub open spec fn bound_codes_of<P: MlPcs>(
    c: BoundCodes,
    preact: QArray1,
    n_vars: nat,
    st: PassProverStates<P>,
) -> bool {
    let len = pow2(n_vars);
    &&& c.claimed@ == resized_codes(vector_codes(preact.codes), len)
    &&& c.b_acc_final@ == at_most(decoded(vals(st.chain_b_acc@[0].table@)), len)
    &&& c.acc_w@ == at_most(decoded(vals(st.concretize_acc_w->0.table@)), len)
}

/// Codes cut or padded with zeros to a length.
pub open spec fn resized_codes(codes: Seq<i128>, len: nat) -> Seq<i128> {
    Seq::new(
        len,
        |i: int|
            if i < codes.len() {
                codes[i]
            } else {
                0i128
            },
    )
}

/// The front of a sequence, of at most a given length.
pub open spec fn at_most<T>(s: Seq<T>, len: nat) -> Seq<T> {
    s.take(min_nat(s.len(), len) as int)
}

/// The front of a column, as integers; what stands for none reads as zero.
fn decode_front(t: &Vec<Fr>, len: usize) -> (r: Vec<i128>)
    ensures
        r@ == at_most(decoded(vals(t@)), len as nat),
{
    let mut out: Vec<i128> = decode_or_zero(t);
    if out.len() > len {
        out.truncate(len);
    }
    assert(out@ =~= at_most(decoded(vals(t@)), len as nat));
    out
}

/// The codes that one direction's bound is proved from, padded to `2^n_vars`
/// cells.
pub fn hidden_bound_codes<P: MlPcs>(
    preact: &QArray1,
    n_vars: usize,
    pass_com: &PassCommitments<P>,
    pass_st: &PassProverStates<P>,
) -> (r: Result<BoundCodes, SnarkError>)
    requires
        pow2(n_vars as nat) <= usize::MAX,
        pass_st.chain_b_acc@.len() > 0,
    ensures
        match r {
            Err(e) => {
                ||| pass_st.concretize_acc_w is None && e == (SnarkError::ShapeMismatch {
                    what: "hidden pass: missing concretize_acc_w state",
                })
                ||| pass_st.concretize_acc_w is Some && pass_com.concretize_acc_w is None && e == (
                SnarkError::ShapeMismatch { what: "hidden pass: missing concretize_acc_w commit" })
            },
            Ok(c) => {
                &&& pass_st.concretize_acc_w is Some
                &&& pass_com.concretize_acc_w is Some
                &&& bound_codes_of(c, *preact, n_vars as nat, *pass_st)
            },
        },
{
    let acc_w_aux: &CommittedAux<P> = match &pass_st.concretize_acc_w {
        Some(x) => x,
        None => {
            return Err(
                SnarkError::ShapeMismatch { what: "hidden pass: missing concretize_acc_w state" },
            );
        },
    };
    if pass_com.concretize_acc_w.is_none() {
        return Err(
            SnarkError::ShapeMismatch { what: "hidden pass: missing concretize_acc_w commit" },
        );
    }
    let len: usize = pow2_usize(n_vars);
    let codes: Vec<i128> = preact.codes.to_vec();
    let mut claimed: Vec<i128> = Vec::with_capacity(len);
    let mut i: usize = 0;
    while i < len
        invariant
            i <= len,
            codes@ == vector_codes(preact.codes),
            claimed@.len() == i,
            forall|k: int|
                0 <= k < i ==> #[trigger] claimed@[k] == resized_codes(codes@, len as nat)[k],
        decreases len - i,
    {
        if i < codes.len() {
            claimed.push(codes[i]);
        } else {
            claimed.push(0);
        }
        i += 1;
    }
    assert(claimed@ =~= resized_codes(codes@, len as nat));
    Ok(
        BoundCodes {
            claimed,
            b_acc_final: decode_front(&pass_st.chain_b_acc[0].table, len),
            acc_w: decode_front(&acc_w_aux.table, len),
        },
    )
}

} // verus!
