//! The errors of provers and verifiers.

use vstd::prelude::*;

verus! {

/// A failure of the polynomial commitment scheme.
#[derive(Clone, Copy, Debug, PartialEq, Eq, Structural)]
pub enum PcsError {
    /// The table's length is not one that can be committed.
    UnsupportedLength,
    /// The point, the table and the commitment do not fit together.
    PointSize,
    /// The opening is malformed.
    Malformed,
}

/// A failure of the lookup argument.
#[derive(Clone, Copy, Debug, PartialEq, Eq, Structural)]
pub enum LogUpError {
    /// A column's length is not a power of two of at least two.
    BadLength,
    /// The table and its multiplicities differ in length.
    LengthMismatch,
    /// The claimed top numerator is not that of the top fraction.
    TopMismatch,
    /// The proof has the wrong number of layers.
    LayerCount,
    /// A layer's sumcheck was rejected.
    LayerRejected,
    /// The claims at the bottom are not those that the layers lead to.
    BottomMismatch,
}

/// A failure of a sumcheck.
#[derive(Clone, Copy, Debug, PartialEq, Eq, Structural)]
pub enum SumcheckError {
    /// The columns differ in length, or their length is not a power of two.
    BadLength,
    /// The proof has the wrong number of rounds.
    RoundCount,
    /// A round does not split its claim.
    SplitMismatch,
    /// The final evaluations do not meet the last claim.
    FinalMismatch,
}

/// Why a proof could not be made, or was rejected.
#[derive(Clone, Copy, Debug)]
pub enum SnarkError {
    ArchitectureMismatch { what: &'static str },
    ShapeMismatch { what: &'static str },
    Reserved { what: &'static str },
    TranscriptMismatch,
    Pcs(PcsError),
    LogUp(LogUpError),
    Sumcheck(SumcheckError),
    PcsOpenRejected { which: &'static str },
    LogUpIdentityFailed,
    LogUpTableNotCanonical { which: &'static str },
    PerTensorRangeWitnessNotBound,
    PublicBindingFailed,
    FieldDecodeOutOfRange { which: &'static str },
    SumcheckRoundCheckFailed { round: usize },
    RelaxationSoundnessFinalCheckFailed { which: &'static str },
    RelaxationSoundnessReluUpperEndpointInvalid { layer_idx: usize, endpoint: &'static str },
    RelaxationSoundnessReluLowerOffsetNonZero { layer_idx: usize },
    RelaxationSoundnessSshapeInvalid {
        layer_idx: usize,
        activation: &'static str,
        side: &'static str,
        detail: &'static str,
    },
    ChainInitMismatch,
    BAccStepBindingFailed { layer: usize },
    LinearLayerRejected { layer: usize },
    ActivationLayerRejected { layer: usize },
    ActivationMatrixRejected { layer: usize },
    ReluLookupIdentityFailed,
    ReluLookupBindingFailed,
}

/// A check that passes where a condition holds and fails with an error where
/// it does not.
pub open spec fn holds(cond: bool, e: SnarkError) -> Result<(), SnarkError> {
    if cond {
        Ok(())
    } else {
        Err(e)
    }
}

/// Two checks, one after the other: the first one's error wins.
pub open spec fn and_also(a: Result<(), SnarkError>, b: Result<(), SnarkError>) -> Result<
    (),
    SnarkError,
> {
    match a {
        Err(e) => Err(e),
        Ok(_) => b,
    }
}

/// The check that an opening was accepted.
pub open spec fn opened(verdict: Result<bool, SnarkError>, which: &'static str) -> Result<
    (),
    SnarkError,
> {
    match verdict {
        Err(e) => Err(e),
        Ok(false) => Err(SnarkError::PcsOpenRejected { which }),
        Ok(true) => Ok(()),
    }
}

} // verus!
