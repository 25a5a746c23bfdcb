//! The check of a hidden pass, move by move: what the library checks itself,
//! and what it asks its caller to check on the same transcript.

use crate::commit::TensorCommitments;
use crate::errors::SnarkError;
use crate::hidden_parts::{
    cells_countable, hidden_splits_state, hidden_splits_verdict, hidden_steps_state,
    hidden_steps_verdict, verify_hidden_splits, verify_hidden_steps,
};
use crate::hidden_pass::{
    HiddenFront, HiddenSplits, HiddenSteps, architecture_fits, hidden_front_state,
    hidden_front_verdict, hidden_shape_verdict, layers_have_coms, target_addressable,
    verify_hidden_front,
};
use crate::network::NetworkArchitecture;
use crate::params::SnarkParams;
use crate::pcs::MlPcs;
use crate::trace::BoundDir;
use crate::transcript::state_of;
use ark_crypto_primitives::sponge::merlin::Transcript;
use vstd::arithmetic::power2::pow2;
use vstd::prelude::*;

verus! {

/// Where the check of a hidden pass stands: before its first move, or waiting
/// for a check that was asked for.
#[derive(Clone, Copy, Debug, PartialEq, Eq, Structural)]
pub enum HiddenStage {
    Start,
    ConcretizeLower,
    ConcretizeUpper,
    RescaleLower,
    RescaleUpper,
    BoundLower,
    BoundUpper,
    Done,
}

/// What follows: a check of the last step, of the rescalings or of the bound
/// in one direction, or the end.
#[derive(Clone, Copy, Debug)]
pub enum HiddenAction {
    Concretize(BoundDir),
    Rescale(BoundDir),
    Bound(BoundDir),
    Accept,
    Reject(SnarkError),
}

/// A move to a stage and its action, unless a check fails.
pub open spec fn move_on(
    v: Result<(), SnarkError>,
    stage: HiddenStage,
    action: HiddenAction,
) -> (HiddenStage, HiddenAction) {
    match v {
        Ok(_) => (stage, action),
        Err(e) => (HiddenStage::Done, HiddenAction::Reject(e)),
    }
}

/// The move from a stage, for the outcome of the check that was asked for and
/// for the verdicts on the pass's three parts.
pub open spec fn hidden_move(
    stage: HiddenStage,
    outcome: Result<(), SnarkError>,
    front: Result<(), SnarkError>,
    splits: Result<(), SnarkError>,
    steps: Result<(), SnarkError>,
) -> (HiddenStage, HiddenAction) {
    match outcome {
        Err(e) => (HiddenStage::Done, HiddenAction::Reject(e)),
        Ok(_) => match stage {
            HiddenStage::Start => move_on(
                front,
                HiddenStage::ConcretizeLower,
                HiddenAction::Concretize(BoundDir::Lower),
            ),
            HiddenStage::ConcretizeLower => (
                HiddenStage::ConcretizeUpper,
                HiddenAction::Concretize(BoundDir::Upper),
            ),
            HiddenStage::ConcretizeUpper => move_on(
                splits,
                HiddenStage::RescaleLower,
                HiddenAction::Rescale(BoundDir::Lower),
            ),
            HiddenStage::RescaleLower => (
                HiddenStage::RescaleUpper,
                HiddenAction::Rescale(BoundDir::Upper),
            ),
            HiddenStage::RescaleUpper => move_on(
                steps,
                HiddenStage::BoundLower,
                HiddenAction::Bound(BoundDir::Lower),
            ),
            HiddenStage::BoundLower => (
                HiddenStage::BoundUpper,
                HiddenAction::Bound(BoundDir::Upper),
            ),
            HiddenStage::BoundUpper => (HiddenStage::Done, HiddenAction::Accept),
            HiddenStage::Done => (
                HiddenStage::Done,
                HiddenAction::Reject(
                    SnarkError::Reserved { what: "hidden_pass: already decided" },
                ),
            ),
        },
    }
}

/// The stage after a number of moves whose outcomes are all good.
pub open spec fn stage_after(
    k: nat,
    front: Result<(), SnarkError>,
    splits: Result<(), SnarkError>,
    steps: Result<(), SnarkError>,
) -> (HiddenStage, HiddenAction)
    decreases k,
{
    if k == 0 {
        (HiddenStage::Start, HiddenAction::Accept)
    } else {
        hidden_move(
            stage_after((k - 1) as nat, front, splits, steps).0,
            Ok(()),
            front,
            splits,
            steps,
        )
    }
}

/// A pass whose parts and checks are all good is accepted after its seventh
/// move, and after no earlier one; in between, every check is asked for, each
/// in both directions.
pub proof fn law_good_pass_is_accepted()
    ensures
        ({
            let ok = Ok::<(), SnarkError>(());
            &&& stage_after(1, ok, ok, ok).1 == HiddenAction::Concretize(BoundDir::Lower)
            &&& stage_after(2, ok, ok, ok).1 == HiddenAction::Concretize(BoundDir::Upper)
            &&& stage_after(3, ok, ok, ok).1 == HiddenAction::Rescale(BoundDir::Lower)
            &&& stage_after(4, ok, ok, ok).1 == HiddenAction::Rescale(BoundDir::Upper)
            &&& stage_after(5, ok, ok, ok).1 == HiddenAction::Bound(BoundDir::Lower)
            &&& stage_after(6, ok, ok, ok).1 == HiddenAction::Bound(BoundDir::Upper)
            &&& stage_after(7, ok, ok, ok) == (HiddenStage::Done, HiddenAction::Accept)
        }),
{
    reveal_with_fuel(stage_after, 8);
}

/// A pass with a bad part, or a bad outcome of a check, is rejected, and no
/// later move accepts it.
pub proof fn law_bad_pass_is_rejected(
    stage: HiddenStage,
    outcome: Result<(), SnarkError>,
    front: Result<(), SnarkError>,
    splits: Result<(), SnarkError>,
    steps: Result<(), SnarkError>,
)
    requires
        ({
            ||| outcome is Err
            ||| stage == HiddenStage::Done
            ||| stage == HiddenStage::Start && front is Err
            ||| stage == HiddenStage::ConcretizeUpper && splits is Err
            ||| stage == HiddenStage::RescaleUpper && steps is Err
        }),
    ensures
        hidden_move(stage, outcome, front, splits, steps).0 == HiddenStage::Done,
        hidden_move(stage, outcome, front, splits, steps).1 is Reject,
{
}

/// Make the next move in the check of a hidden pass: take the outcome of the
/// check that was asked for (at the start, a good one), make the library's own
/// checks that follow it, and say what is to be checked next.
pub fn verify_one_hidden_pass<P: MlPcs>(
    stage: HiddenStage,
    outcome: Result<(), SnarkError>,
    arch: &NetworkArchitecture,
    front: &HiddenFront<P>,
    splits: &HiddenSplits<P>,
    steps: &HiddenSteps<P>,
    commitments: &TensorCommitments<P>,
    one_code: i128,
    lower_dims: (usize, usize),
    upper_dims: (usize, usize),
    claimed_lower: &P::Commitment,
    claimed_upper: &P::Commitment,
    params: &SnarkParams<P>,
    sponge: &mut Transcript,
) -> (r: (HiddenStage, HiddenAction))
    requires
        architecture_fits(arch.layers@),
        layers_have_coms(arch.layers@, *commitments),
        target_addressable(arch.layers@, front.target_layer_idx),
        stage != HiddenStage::Start ==> hidden_shape_verdict(arch.layers@, *front) is Ok,
        stage == HiddenStage::ConcretizeUpper ==> {
            &&& cells_countable(front.activation_backward_lower@)
            &&& cells_countable(front.activation_backward_upper@)
            &&& pow2((lower_dims.0 + lower_dims.1) as nat) <= usize::MAX
            &&& pow2((upper_dims.0 + upper_dims.1) as nat) <= usize::MAX
        },
    ensures
        ({
            let t0 = state_of(*old(sponge));
            let vk = params.verifier_key;
            &&& r == hidden_move(
                stage,
                outcome,
                hidden_front_verdict(vk, arch.layers@, *front, *commitments, one_code, t0),
                hidden_splits_verdict(*params, *front, *splits, lower_dims, upper_dims, t0),
                hidden_steps_verdict(
                    vk,
                    arch.layers@,
                    *front,
                    *steps,
                    *commitments,
                    *claimed_lower,
                    *claimed_upper,
                    t0,
                ),
            )
            &&& outcome is Err || stage == HiddenStage::Done || stage == HiddenStage::Start
                && hidden_shape_verdict(arch.layers@, *front) is Err ==> state_of(*final(sponge))
                == t0
            &&& r.0 != HiddenStage::Done ==> hidden_shape_verdict(arch.layers@, *front) is Ok
            &&& !(r.1 is Reject) ==> state_of(*final(sponge)) == match stage {
                HiddenStage::Start => hidden_front_state(vk, *front, *commitments, t0),
                HiddenStage::ConcretizeUpper => hidden_splits_state(
                    vk,
                    *front,
                    *splits,
                    lower_dims,
                    upper_dims,
                    t0,
                ),
                HiddenStage::RescaleUpper => hidden_steps_state(
                    vk,
                    arch.layers@,
                    *front,
                    *steps,
                    *commitments,
                    t0,
                ),
                _ => t0,
            }
        }),
{
    match outcome {
        Ok(_) => {},
        Err(e) => {
            return (HiddenStage::Done, HiddenAction::Reject(e));
        },
    }
    match stage {
        HiddenStage::Start => {
            match verify_hidden_front::<P>(arch, front, commitments, one_code, params, sponge) {
                Ok(_) => (
                    HiddenStage::ConcretizeLower,
                    HiddenAction::Concretize(BoundDir::Lower),
                ),
                Err(e) => (HiddenStage::Done, HiddenAction::Reject(e)),
            }
        },
        HiddenStage::ConcretizeLower => (
            HiddenStage::ConcretizeUpper,
            HiddenAction::Concretize(BoundDir::Upper),
        ),
        HiddenStage::ConcretizeUpper => {
            match verify_hidden_splits::<P>(
                arch,
                front,
                splits,
                lower_dims,
                upper_dims,
                params,
                sponge,
            ) {
                Ok(_) => (HiddenStage::RescaleLower, HiddenAction::Rescale(BoundDir::Lower)),
                Err(e) => (HiddenStage::Done, HiddenAction::Reject(e)),
            }
        },
        HiddenStage::RescaleLower => (
            HiddenStage::RescaleUpper,
            HiddenAction::Rescale(BoundDir::Upper),
        ),
        HiddenStage::RescaleUpper => {
            match verify_hidden_steps::<P>(
                arch,
                front,
                steps,
                commitments,
                claimed_lower,
                claimed_upper,
                params,
                sponge,
            ) {
                Ok(_) => (HiddenStage::BoundLower, HiddenAction::Bound(BoundDir::Lower)),
                Err(e) => (HiddenStage::Done, HiddenAction::Reject(e)),
            }
        },
        HiddenStage::BoundLower => (
            HiddenStage::BoundUpper,
            HiddenAction::Bound(BoundDir::Upper),
        ),
        HiddenStage::BoundUpper => (HiddenStage::Done, HiddenAction::Accept),
        HiddenStage::Done => (
            HiddenStage::Done,
            HiddenAction::Reject(SnarkError::Reserved { what: "hidden_pass: already decided" }),
        ),
    }
}

} // verus!
