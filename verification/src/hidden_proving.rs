//! The proof of a hidden pass, move by move: what the library proves itself,
//! and what it asks its caller to prove on the same transcript.

use crate::bias_accumulator_prover::{events_of, recorded_events, same_events};
use crate::cert::QuantCert;
use crate::commit::{ProverPolyStates, TensorCommitments, can_vector};
use crate::commit_pass::can_trace;
use crate::errors::SnarkError;
use crate::hidden_driver::{HiddenAction, HiddenStage, hidden_move};
use crate::hidden_parts::{
    bound_inputs_verdict, hidden_splits_state, hidden_splits_verdict, hidden_steps_state,
    hidden_steps_verdict,
};
use crate::hidden_pass::{HiddenSplits, HiddenSteps, hidden_front_state, hidden_front_verdict};
use crate::hidden_pass_prover::{
    BoundCodes, HiddenFrontRun, HiddenLayerPass, bound_codes_of, front_made, hidden_bound_codes,
    hidden_follows, hidden_ready, last_dims, last_split_true, lower_concretize_trace,
    prove_hidden_front, prove_hidden_splits, prove_hidden_steps, upper_concretize_trace,
};
use crate::hidden_ready::{
    biases_sized, chain_consistent, direction_there, direction_true, splits_true,
};
use crate::logup::lower;
use crate::network::LayerShape;
use crate::params::{SnarkParams, tables_fit};
use crate::pcs::MlPcs;
use crate::qarray::{matrix_fits, vector_codes, vector_fits};
use crate::shapes::{native_vector_n_vars, vector_vars};
use crate::trace::BoundDir;
use crate::transcript::state_of;
use ark_crypto_primitives::sponge::merlin::Transcript;
use vstd::arithmetic::power2::pow2;
use vstd::prelude::*;

verus! {

/// What was made of a pass's proof so far.
pub struct HiddenProgress<P: MlPcs> {
    pub run: Option<HiddenFrontRun<P>>,
    pub splits: Option<HiddenSplits<P>>,
    pub steps: Option<HiddenSteps<P>>,
    /// The codes of the bound that is to be proved.
    pub codes: Option<BoundCodes>,
}

/// Whether the first part was made.
pub open spec fn front_there<P: MlPcs>(
    ck: P::CommitterKey,
    cert: QuantCert,
    hp: HiddenLayerPass,
    p: HiddenProgress<P>,
) -> bool {
    p.run is Some && front_made(ck, cert, hp, p.run->0)
}

/// Whether the splits were made, one for every activation layer.
pub open spec fn splits_there<P: MlPcs>(hp: HiddenLayerPass, p: HiddenProgress<P>) -> bool {
    &&& p.splits matches Some(s)
    &&& s.relu_lower_activation@.len() == hp.lower_trace.activation_steps@.len()
    &&& s.relu_upper_activation@.len() == hp.upper_trace.activation_steps@.len()
}

/// Whether the steps were made: the recorded ones, in both directions.
pub open spec fn steps_there<P: MlPcs>(hp: HiddenLayerPass, p: HiddenProgress<P>) -> bool {
    &&& p.steps matches Some(s)
    &&& same_events(events_of(s.b_acc_step_lower@), recorded_events(hp.lower_trace))
    &&& same_events(events_of(s.b_acc_step_upper@), recorded_events(hp.upper_trace))
    &&& s.activation_matrix_lower@.len() == hp.lower_trace.activation_steps@.len()
    &&& s.activation_matrix_upper@.len() == hp.upper_trace.activation_steps@.len()
}

/// Whether the whole proof was made, but for what is proved elsewhere.
pub open spec fn all_there<P: MlPcs>(
    ck: P::CommitterKey,
    cert: QuantCert,
    hp: HiddenLayerPass,
    p: HiddenProgress<P>,
) -> bool {
    front_there(ck, cert, hp, p) && splits_there(hp, p) && steps_there(hp, p)
}

/// What holds of the progress at a stage.
pub open spec fn progress_at<P: MlPcs>(
    stage: HiddenStage,
    ck: P::CommitterKey,
    cert: QuantCert,
    hp: HiddenLayerPass,
    p: HiddenProgress<P>,
) -> bool {
    let lower = hp.lower_trace.concretize is Some;
    let both = lower && hp.upper_trace.concretize is Some;
    let n_vars = vector_vars(hp.n_spec as nat);
    match stage {
        HiddenStage::Start | HiddenStage::Done => true,
        HiddenStage::ConcretizeLower => front_there(ck, cert, hp, p) && lower,
        HiddenStage::ConcretizeUpper => front_there(ck, cert, hp, p) && both,
        HiddenStage::RescaleLower | HiddenStage::RescaleUpper => {
            front_there(ck, cert, hp, p) && both && splits_there(hp, p)
        },
        HiddenStage::BoundLower => {
            &&& all_there(ck, cert, hp, p)
            &&& both
            &&& p.codes matches Some(c) && bound_codes_of(
                c,
                hp.preact_lower,
                n_vars,
                p.run->0.lower_st,
            )
        },
        HiddenStage::BoundUpper => {
            &&& all_there(ck, cert, hp, p)
            &&& both
            &&& p.codes matches Some(c) && bound_codes_of(
                c,
                hp.preact_upper,
                n_vars,
                p.run->0.upper_st,
            )
        },
    }
}

/// Whether a move is one that a proof makes from a stage: to where the check of
/// a good pass moves, with the same thing asked for, or to the end, with a
/// refusal.
pub open spec fn proof_move(stage: HiddenStage, m: (HiddenStage, HiddenAction)) -> bool {
    if m.1 is Reject {
        m.0 == HiddenStage::Done
    } else {
        m == hidden_move(stage, Ok(()), Ok(()), Ok(()), Ok(()))
    }
}

/// The stage before a move.
pub open spec fn stage_before(moves: Seq<(HiddenStage, HiddenAction)>, i: int) -> HiddenStage {
    if i == 0 {
        HiddenStage::Start
    } else {
        moves[i - 1].0
    }
}

/// A proof none of whose moves refuses asks for every part that is proved
/// elsewhere, each in both directions and in this order, and ends with its
/// seventh move.
pub proof fn law_good_proof_makes_every_move(moves: Seq<(HiddenStage, HiddenAction)>)
    requires
        moves.len() == 7,
        forall|i: int|
            0 <= i < 7 ==> proof_move(stage_before(moves, i), #[trigger] moves[i]) && !(
            moves[i].1 is Reject),
    ensures
        moves[0].1 == HiddenAction::Concretize(BoundDir::Lower),
        moves[1].1 == HiddenAction::Concretize(BoundDir::Upper),
        moves[2].1 == HiddenAction::Rescale(BoundDir::Lower),
        moves[3].1 == HiddenAction::Rescale(BoundDir::Upper),
        moves[4].1 == HiddenAction::Bound(BoundDir::Lower),
        moves[5].1 == HiddenAction::Bound(BoundDir::Upper),
        moves[6] == (HiddenStage::Done, HiddenAction::Accept),
{
    assert(moves[0].0 == HiddenStage::ConcretizeLower);
    assert(moves[1].0 == HiddenStage::ConcretizeUpper);
    assert(moves[2].0 == HiddenStage::RescaleLower);
    assert(moves[3].0 == HiddenStage::RescaleUpper);
    assert(moves[4].0 == HiddenStage::BoundLower);
    assert(moves[5].0 == HiddenStage::BoundUpper);
}

/// Once a proof has ended, every further move refuses.
pub proof fn law_ended_proof_stays_ended(m: (HiddenStage, HiddenAction))
    requires
        proof_move(HiddenStage::Done, m),
    ensures
        m.0 == HiddenStage::Done,
        m.1 is Reject,
{
}

/// The check of a pass makes the moves of its proof: where a proof moves on
/// from a stage, and the verdicts on the parts are good, so does the check, and
/// asks for the same thing.
pub proof fn law_check_follows_proof(
    stage: HiddenStage,
    m: (HiddenStage, HiddenAction),
    front: Result<(), SnarkError>,
    splits: Result<(), SnarkError>,
    steps: Result<(), SnarkError>,
)
    requires
        proof_move(stage, m),
        !(m.1 is Reject),
        front is Ok && splits is Ok && steps is Ok,
    ensures
        hidden_move(stage, Ok(()), front, splits, steps) == m,
{
}

/// Make the next move in the proof of a hidden pass: take the outcome of the
/// proof that was asked for (at the start, a good one), make the library's own
/// proofs that follow it, and say what is to be proved next. The codes of a
/// bound that is to be proved are left in the progress.
pub fn prove_one_hidden_pass<P: MlPcs>(
    stage: HiddenStage,
    outcome: Result<(), SnarkError>,
    cert: &QuantCert,
    hp: &HiddenLayerPass,
    commitments: &TensorCommitments<P>,
    prover_states: &ProverPolyStates<P>,
    progress: &mut HiddenProgress<P>,
    params: &SnarkParams<P>,
    sponge: &mut Transcript,
    rng: &mut P::Randomness,
) -> (r: (HiddenStage, HiddenAction))
    requires
        direction_there(*cert, hp.lower_trace, BoundDir::Lower, *commitments, *prover_states),
        direction_there(*cert, hp.upper_trace, BoundDir::Upper, *commitments, *prover_states),
        vector_fits(vector_codes(hp.preact_lower.codes)),
        hp.target_layer_idx < usize::MAX,
        hp.n_spec <= usize::MAX / 2 + 1,
        pow2(vector_vars(hp.n_spec as nat)) <= usize::MAX,
        hp.lower_trace.concretize matches Some(c) ==> matrix_fits(c.a_final.codes),
        hp.upper_trace.concretize matches Some(c) ==> matrix_fits(c.a_final.codes),
        tables_fit(*params),
        progress_at(stage, params.committer_key, *cert, *hp, *old(progress)),
    ensures
        proof_move(stage, r),
        progress_at(r.0, params.committer_key, *cert, *hp, *final(progress)),
        outcome matches Err(e) ==> {
            &&& r.1 == HiddenAction::Reject(e)
            &&& *final(progress) == *old(progress)
            &&& state_of(*final(sponge)) == state_of(*old(sponge))
        },
        stage != HiddenStage::Start ==> final(progress).run == old(progress).run,
        stage != HiddenStage::Start && stage != HiddenStage::ConcretizeUpper
            ==> final(progress).splits == old(progress).splits,
        stage != HiddenStage::Start && stage != HiddenStage::RescaleUpper ==> final(progress).steps
            == old(progress).steps,
        stage != HiddenStage::Start && stage != HiddenStage::ConcretizeUpper && stage
            != HiddenStage::RescaleUpper ==> state_of(*final(sponge)) == state_of(*old(sponge)),
        r.1 is Accept ==> all_there(params.committer_key, *cert, *hp, *final(progress)),
        outcome is Ok ==> match stage {
            HiddenStage::Start => start_moved(
                *params,
                *cert,
                *hp,
                *commitments,
                *prover_states,
                *final(progress),
                r,
                state_of(*old(sponge)),
                state_of(*final(sponge)),
            ),
            HiddenStage::ConcretizeLower => r == if hp.upper_trace.concretize is Some {
                (HiddenStage::ConcretizeUpper, HiddenAction::Concretize(BoundDir::Upper))
            } else {
                (
                    HiddenStage::Done,
                    HiddenAction::Reject(
                        SnarkError::ShapeMismatch {
                            what: "hidden pass: missing upper concretize trace",
                        },
                    ),
                )
            },
            HiddenStage::ConcretizeUpper => splits_moved(
                *params,
                *hp,
                *final(progress),
                r,
                state_of(*old(sponge)),
                state_of(*final(sponge)),
            ),
            HiddenStage::RescaleUpper => steps_moved(
                *params,
                *cert,
                *hp,
                *commitments,
                *prover_states,
                *final(progress),
                r,
                state_of(*old(sponge)),
                state_of(*final(sponge)),
            ),
            HiddenStage::RescaleLower | HiddenStage::BoundLower | HiddenStage::BoundUpper => !(
            r.1 is Reject),
            HiddenStage::Done => r.1 == HiddenAction::Reject(
                SnarkError::Reserved { what: "hidden_pass: already decided" },
            ),
        },
{
    match outcome {
        Ok(_) => {},
        Err(e) => {
            return (HiddenStage::Done, HiddenAction::Reject(e));
        },
    }
    match stage {
        HiddenStage::Start => prove_front_move(
            cert,
            hp,
            commitments,
            prover_states,
            progress,
            params,
            sponge,
            rng,
        ),
        HiddenStage::ConcretizeLower => match upper_concretize_trace(hp) {
            Ok(_) => (HiddenStage::ConcretizeUpper, HiddenAction::Concretize(BoundDir::Upper)),
            Err(e) => (HiddenStage::Done, HiddenAction::Reject(e)),
        },
        HiddenStage::ConcretizeUpper => prove_splits_move(
            cert,
            hp,
            commitments,
            prover_states,
            progress,
            params,
            sponge,
            rng,
        ),
        HiddenStage::RescaleLower => (
            HiddenStage::RescaleUpper,
            HiddenAction::Rescale(BoundDir::Upper),
        ),
        HiddenStage::RescaleUpper => prove_steps_move(
            cert,
            hp,
            commitments,
            prover_states,
            progress,
            params,
            sponge,
            rng,
        ),
        HiddenStage::BoundLower => {
            let codes: BoundCodes = match &progress.run {
                Some(run) => match hidden_bound_codes::<P>(
                    &hp.preact_upper,
                    native_vector_n_vars(hp.n_spec),
                    &run.front.pass_upper,
                    &run.upper_st,
                ) {
                    Ok(c) => c,
                    Err(e) => {
                        return (HiddenStage::Done, HiddenAction::Reject(e));
                    },
                },
                None => {
                    return (HiddenStage::Done, HiddenAction::Reject(nothing_made()));
                },
            };
            progress.codes = Some(codes);
            (HiddenStage::BoundUpper, HiddenAction::Bound(BoundDir::Upper))
        },
        HiddenStage::BoundUpper => (HiddenStage::Done, HiddenAction::Accept),
        HiddenStage::Done => (
            HiddenStage::Done,
            HiddenAction::Reject(SnarkError::Reserved { what: "hidden_pass: already decided" }),
        ),
    }
}

/// The refusal to go on from a part that was not made.
fn nothing_made() -> (r: SnarkError)
    ensures
        r == (SnarkError::Reserved { what: "hidden_pass: no part to go on from" }),
{
    SnarkError::Reserved { what: "hidden_pass: no part to go on from" }
}

/// What the first move owes: on a ready pass whose lower last step was
/// recorded, the first part, which a verifier accepts; where something cannot
/// be committed or that step is missing, a refusal.
pub open spec fn start_moved<P: MlPcs>(
    params: SnarkParams<P>,
    cert: QuantCert,
    hp: HiddenLayerPass,
    coms: TensorCommitments<P>,
    states: ProverPolyStates<P>,
    p: HiddenProgress<P>,
    r: (HiddenStage, HiddenAction),
    t0: Seq<u8>,
    t1: Seq<u8>,
) -> bool {
    let ck = params.committer_key;
    let vk = params.verifier_key;
    let missing = SnarkError::ShapeMismatch {
        what: "hidden pass: missing lower concretize trace",
    };
    &&& !(can_vector::<P>(ck, vector_codes(hp.preact_lower.codes)) && can_trace::<P>(
        ck,
        hp.lower_trace,
    ) && can_trace::<P>(ck, hp.upper_trace)) ==> (r.1 matches HiddenAction::Reject(e) && e is Pcs)
    &&& hp.lower_trace.concretize is None ==> r.1 is Reject
    &&& forall|one: i128| #[trigger]
        hidden_ready(ck, cert, hp, coms, states, one) && params.keys_match() ==> {
            &&& p.run is Some
            &&& r.1 is Reject ==> hp.lower_trace.concretize is None && r.1
                == HiddenAction::Reject(missing)
            &&& t1 == hidden_front_state(vk, p.run->0.front, coms, t0)
            &&& forall|layers: Seq<LayerShape>| #[trigger]
                hidden_follows(cert, hp, layers) ==> hidden_front_verdict(
                    vk,
                    layers,
                    p.run->0.front,
                    coms,
                    one,
                    t0,
                ) == Ok::<(), SnarkError>(())
        }
}

/// Prove the first part.
fn prove_front_move<P: MlPcs>(
    cert: &QuantCert,
    hp: &HiddenLayerPass,
    commitments: &TensorCommitments<P>,
    prover_states: &ProverPolyStates<P>,
    progress: &mut HiddenProgress<P>,
    params: &SnarkParams<P>,
    sponge: &mut Transcript,
    rng: &mut P::Randomness,
) -> (r: (HiddenStage, HiddenAction))
    requires
        direction_there(*cert, hp.lower_trace, BoundDir::Lower, *commitments, *prover_states),
        direction_there(*cert, hp.upper_trace, BoundDir::Upper, *commitments, *prover_states),
        vector_fits(vector_codes(hp.preact_lower.codes)),
        hp.target_layer_idx < usize::MAX,
        hp.n_spec <= usize::MAX / 2 + 1,
    ensures
        proof_move(HiddenStage::Start, r),
        progress_at(r.0, params.committer_key, *cert, *hp, *final(progress)),
        start_moved(
            *params,
            *cert,
            *hp,
            *commitments,
            *prover_states,
            *final(progress),
            r,
            state_of(*old(sponge)),
            state_of(*final(sponge)),
        ),
{
    let run: HiddenFrontRun<P> = match prove_hidden_front::<P>(
        cert,
        hp,
        commitments,
        prover_states,
        params,
        sponge,
        rng,
    ) {
        Ok(run) => run,
        Err(e) => {
            return (HiddenStage::Done, HiddenAction::Reject(e));
        },
    };
    progress.run = Some(run);
    match lower_concretize_trace(hp) {
        Ok(_) => (HiddenStage::ConcretizeLower, HiddenAction::Concretize(BoundDir::Lower)),
        Err(e) => (HiddenStage::Done, HiddenAction::Reject(e)),
    }
}

/// What the move after both last steps owes: on true splits, proofs of them,
/// which a verifier accepts.
pub open spec fn splits_moved<P: MlPcs>(
    params: SnarkParams<P>,
    hp: HiddenLayerPass,
    p: HiddenProgress<P>,
    r: (HiddenStage, HiddenAction),
    t0: Seq<u8>,
    t1: Seq<u8>,
) -> bool {
    let (ld, ud) = (last_dims(hp.lower_trace), last_dims(hp.upper_trace));
    chain_consistent(hp.lower_trace) && chain_consistent(hp.upper_trace) && splits_true(
        params,
        hp.lower_trace,
    ) && splits_true(params, hp.upper_trace) && last_split_true(params, hp.lower_trace)
        && last_split_true(params, hp.upper_trace) && params.keys_match() ==> {
        &&& !(r.1 is Reject)
        &&& hidden_splits_verdict(params, p.run->0.front, p.splits->0, ld, ud, t0) == Ok::<
            (),
            SnarkError,
        >(())
        &&& t1 == hidden_splits_state(
            params.verifier_key,
            p.run->0.front,
            p.splits->0,
            ld,
            ud,
            t0,
        )
    }
}

/// Prove the splits.
fn prove_splits_move<P: MlPcs>(
    cert: &QuantCert,
    hp: &HiddenLayerPass,
    commitments: &TensorCommitments<P>,
    prover_states: &ProverPolyStates<P>,
    progress: &mut HiddenProgress<P>,
    params: &SnarkParams<P>,
    sponge: &mut Transcript,
    rng: &mut P::Randomness,
) -> (r: (HiddenStage, HiddenAction))
    requires
        direction_there(*cert, hp.lower_trace, BoundDir::Lower, *commitments, *prover_states),
        direction_there(*cert, hp.upper_trace, BoundDir::Upper, *commitments, *prover_states),
        hp.lower_trace.concretize matches Some(c) ==> matrix_fits(c.a_final.codes),
        hp.upper_trace.concretize matches Some(c) ==> matrix_fits(c.a_final.codes),
        tables_fit(*params),
        progress_at(
            HiddenStage::ConcretizeUpper,
            params.committer_key,
            *cert,
            *hp,
            *old(progress),
        ),
    ensures
        proof_move(HiddenStage::ConcretizeUpper, r),
        progress_at(r.0, params.committer_key, *cert, *hp, *final(progress)),
        !(r.1 is Accept),
        final(progress).run == old(progress).run,
        final(progress).steps == old(progress).steps,
        splits_moved(
            *params,
            *hp,
            *final(progress),
            r,
            state_of(*old(sponge)),
            state_of(*final(sponge)),
        ),
{
    let splits: HiddenSplits<P> = match &progress.run {
        Some(run) => match prove_hidden_splits::<P>(
            cert,
            hp,
            commitments,
            prover_states,
            run,
            params,
            sponge,
            rng,
        ) {
            Ok(s) => s,
            Err(e) => {
                return (HiddenStage::Done, HiddenAction::Reject(e));
            },
        },
        None => {
            return (HiddenStage::Done, HiddenAction::Reject(nothing_made()));
        },
    };
    progress.splits = Some(splits);
    (HiddenStage::RescaleLower, HiddenAction::Rescale(BoundDir::Lower))
}

/// What the move after both rescalings owes: on true steps, proofs of them,
/// which a verifier accepts with the bound's own commitments.
pub open spec fn steps_moved<P: MlPcs>(
    params: SnarkParams<P>,
    cert: QuantCert,
    hp: HiddenLayerPass,
    coms: TensorCommitments<P>,
    states: ProverPolyStates<P>,
    p: HiddenProgress<P>,
    r: (HiddenStage, HiddenAction),
    t0: Seq<u8>,
    t1: Seq<u8>,
) -> bool {
    let ck = params.committer_key;
    let vk = params.verifier_key;
    direction_true(ck, cert, hp.lower_trace, BoundDir::Lower, coms, states) && direction_true(
        ck,
        cert,
        hp.upper_trace,
        BoundDir::Upper,
        coms,
        states,
    ) && biases_sized(hp.lower_trace, hp.n_spec as nat) && biases_sized(
        hp.upper_trace,
        hp.n_spec as nat,
    ) && params.keys_match() ==> {
        &&& !(r.1 is Reject)
        &&& forall|layers: Seq<LayerShape>| #[trigger]
            hidden_follows(cert, hp, layers) ==> {
                &&& t1 == hidden_steps_state(
                    vk,
                    layers,
                    p.run->0.front,
                    p.steps->0,
                    coms,
                    t0,
                )
                &&& forall|lo: P::Commitment, up: P::Commitment| #[trigger]
                    bound_inputs_verdict(p.run->0.front, lo, up) == Ok::<(), SnarkError>(())
                        ==> hidden_steps_verdict(
                        vk,
                        layers,
                        p.run->0.front,
                        p.steps->0,
                        coms,
                        lo,
                        up,
                        t0,
                    ) == Ok::<(), SnarkError>(())
            }
    }
}

/// Prove the steps, and read the codes of the lower bound.
fn prove_steps_move<P: MlPcs>(
    cert: &QuantCert,
    hp: &HiddenLayerPass,
    commitments: &TensorCommitments<P>,
    prover_states: &ProverPolyStates<P>,
    progress: &mut HiddenProgress<P>,
    params: &SnarkParams<P>,
    sponge: &mut Transcript,
    rng: &mut P::Randomness,
) -> (r: (HiddenStage, HiddenAction))
    requires
        direction_there(*cert, hp.lower_trace, BoundDir::Lower, *commitments, *prover_states),
        direction_there(*cert, hp.upper_trace, BoundDir::Upper, *commitments, *prover_states),
        hp.n_spec <= usize::MAX / 2 + 1,
        pow2(vector_vars(hp.n_spec as nat)) <= usize::MAX,
        progress_at(HiddenStage::RescaleUpper, params.committer_key, *cert, *hp, *old(progress)),
    ensures
        proof_move(HiddenStage::RescaleUpper, r),
        progress_at(r.0, params.committer_key, *cert, *hp, *final(progress)),
        !(r.1 is Accept),
        final(progress).run == old(progress).run,
        final(progress).splits == old(progress).splits,
        steps_moved(
            *params,
            *cert,
            *hp,
            *commitments,
            *prover_states,
            *final(progress),
            r,
            state_of(*old(sponge)),
            state_of(*final(sponge)),
        ),
{
    let (steps, codes): (HiddenSteps<P>, BoundCodes) = match &progress.run {
        Some(run) => {
            let steps: HiddenSteps<P> = match prove_hidden_steps::<P>(
                cert,
                hp,
                commitments,
                prover_states,
                run,
                params,
                sponge,
                rng,
            ) {
                Ok(s) => s,
                Err(e) => {
                    return (HiddenStage::Done, HiddenAction::Reject(e));
                },
            };
            match hidden_bound_codes::<P>(
                &hp.preact_lower,
                native_vector_n_vars(hp.n_spec),
                &run.front.pass_lower,
                &run.lower_st,
            ) {
                Ok(c) => (steps, c),
                Err(e) => {
                    return (HiddenStage::Done, HiddenAction::Reject(e));
                },
            }
        },
        None => {
            return (HiddenStage::Done, HiddenAction::Reject(nothing_made()));
        },
    };
    progress.steps = Some(steps);
    progress.codes = Some(codes);
    (HiddenStage::BoundLower, HiddenAction::Bound(BoundDir::Lower))
}

} // verus!
