//! The lookup that binds a committed `relu` column to `ReLU(preact)`.

use crate::columns::{
    count_codes, even_vars, lemma_mle_unpadded, lemma_mle_zero_padded, lemma_signed_of_residue,
    multiplicities, pad_zeros, pow2_i128, round_up_even,
};
use crate::errors::SnarkError;
use crate::field::{
    Fr, all_in_field, fadd, fmul, fneg, fr_to_signed_i128, fsub, in_field, lemma_view_in_field,
    signed_of, vals,
};
use crate::logup::{LogUpProof, shifted, tops_cancel, vals4};
use crate::lookup_laws::law_lookup_cancels;
use crate::lookup_pair::{
    LookupPair, check_tops_cancel, honest_pair, pair_state, pair_verdict, prove_pair,
    top_of_columns, verify_pair,
};
use crate::mle::{lemma_pow2_machine, mle, pow2_usize};
use crate::mle_laws::{combined, constant, law_mle_linear};
use crate::params::SnarkParams;
use crate::pcs::{
    BatchOpenSpec, BatchVerifySpec, CommittedAux, MlPcs, abs_com, absorb_commitment, aux_of,
    batch_coms, batch_open_state, batch_open_verdict, batch_values, commit_table, hyrax_open_at,
    hyrax_open_batched_at, hyrax_verify_at, hyrax_verify_batched_at, lemma_pow2_injective,
    open_state, open_verdict,
};
use crate::pos_range::{lemma_range_column, minus_one};
use crate::table_mle::{law_relu_table, relu_table, relu_table_mle_eval, relu_value};
use crate::transcript::{
    abs_fr, abs_u64, absorb_fr, absorb_u64, challenge, challenged, squeeze_one, state_of,
};
use ark_crypto_primitives::sponge::merlin::Transcript;
use vstd::arithmetic::power2::{lemma_pow2_unfold, pow2};
use vstd::prelude::*;

verus! {

/// Proof that every pair `(preact, relu)` occurs in the ReLU table.
pub struct ReluLookup1dProof<P: MlPcs> {
    pub combine_alpha: Fr,
    pub logup_beta: Fr,
    pub lookup_proof: LogUpProof,
    pub table_proof: LogUpProof,
    pub lookup_top: [Fr; 4],
    pub table_top: [Fr; 4],
    pub witness_len: usize,
    pub table_len: usize,
    pub mult_commit: P::Commitment,
    pub mult_open: P::Proof,
    pub mult_n_vars: usize,
    /// Joint opening of `(preact, relu)` at `lookup_proof.bottom_point`.
    pub witness_batched_open: P::Proof,
    pub preact_logup_eval: Fr,
    pub relu_logup_eval: Fr,
}

/// The combining challenge of a column of `n_padded` cells.
pub open spec fn relu1d_alpha(n_padded: u64, t0: Seq<u8>) -> int {
    challenge(abs_u64(t0, n_padded))
}

/// The transcript state before the second challenge.
pub open spec fn relu1d_t1<P: MlPcs>(
    proof: ReluLookup1dProof<P>,
    n_padded: u64,
    t0: Seq<u8>,
) -> Seq<u8> {
    abs_u64(
        abs_u64(
            abs_com::<P>(challenged(abs_u64(t0, n_padded)), proof.mult_commit),
            proof.witness_len as u64,
        ),
        proof.table_len as u64,
    )
}

/// The second challenge.
pub open spec fn relu1d_beta<P: MlPcs>(
    proof: ReluLookup1dProof<P>,
    n_padded: u64,
    t0: Seq<u8>,
) -> int {
    challenge(relu1d_t1(proof, n_padded, t0))
}

/// The state after the challenges.
pub open spec fn relu1d_t2<P: MlPcs>(
    proof: ReluLookup1dProof<P>,
    n_padded: u64,
    t0: Seq<u8>,
) -> Seq<u8> {
    abs_fr(challenged(relu1d_t1(proof, n_padded, t0)), relu1d_beta(proof, n_padded, t0))
}

/// The state after the two circuits.
pub open spec fn relu1d_t3<P: MlPcs>(
    proof: ReluLookup1dProof<P>,
    n_padded: u64,
    t0: Seq<u8>,
) -> Seq<u8> {
    pair_state(
        proof.lookup_proof,
        proof.table_proof,
        proof.lookup_top,
        proof.table_top,
        relu1d_t2(proof, n_padded, t0),
    )
}

/// The state after the opening of the witness columns.
pub open spec fn relu1d_t4<P: MlPcs>(
    vk: P::VerifierKey,
    proof: ReluLookup1dProof<P>,
    preact: P::Commitment,
    relu: P::Commitment,
    n_vars: nat,
    n_padded: u64,
    t0: Seq<u8>,
) -> Seq<u8> {
    batch_open_state::<P>(
        vk,
        seq![preact, relu],
        seq![proof.preact_logup_eval@, proof.relu_logup_eval@],
        vals(proof.lookup_proof.bottom_point@),
        proof.witness_batched_open,
        n_vars,
        relu1d_t3(proof, n_padded, t0),
    )
}

/// The state after the whole check.
pub open spec fn relu1d_state<P: MlPcs>(
    vk: P::VerifierKey,
    proof: ReluLookup1dProof<P>,
    preact: P::Commitment,
    relu: P::Commitment,
    n_vars: nat,
    t0: Seq<u8>,
) -> Seq<u8> {
    open_state::<P>(
        vk,
        proof.mult_commit,
        vals(proof.table_proof.bottom_point@),
        proof.table_proof.bottom_num@,
        proof.mult_open,
        proof.mult_n_vars as nat,
        relu1d_t4(vk, proof, preact, relu, n_vars, pow2(n_vars) as u64, t0),
    )
}

/// The verdict on a proof for columns of `2^n_vars` cells and the ReLU table
/// over `[-2^half_bits, 2^half_bits)`.
pub open spec fn relu1d_verdict<P: MlPcs>(
    vk: P::VerifierKey,
    proof: ReluLookup1dProof<P>,
    preact: P::Commitment,
    relu: P::Commitment,
    n_vars: nat,
    half_bits: nat,
    t0: Seq<u8>,
) -> Result<(), SnarkError> {
    let np = pow2(n_vars) as u64;
    let alpha = relu1d_alpha(np, t0);
    let beta = relu1d_beta(proof, np, t0);
    let witness_verdict = batch_open_verdict::<P>(
        vk,
        seq![preact, relu],
        seq![proof.preact_logup_eval@, proof.relu_logup_eval@],
        vals(proof.lookup_proof.bottom_point@),
        proof.witness_batched_open,
        n_vars,
        relu1d_t3(proof, np, t0),
    );
    let mult_verdict = open_verdict::<P>(
        vk,
        proof.mult_commit,
        vals(proof.table_proof.bottom_point@),
        proof.table_proof.bottom_num@,
        proof.mult_open,
        proof.mult_n_vars as nat,
        relu1d_t4(vk, proof, preact, relu, n_vars, np, t0),
    );
    if alpha != proof.combine_alpha@ {
        Err(SnarkError::TranscriptMismatch)
    } else if proof.table_len != pow2(half_bits + 1) {
        Err(
            SnarkError::LogUpTableNotCanonical {
                which: "relu_lookup_1d: table_len != canonical T_ReLU.len()",
            },
        )
    } else if half_bits == 0 {
        Err(
            SnarkError::ShapeMismatch {
                what: "relu_lookup_1d: table_len must be a power of two ≥ 4",
            },
        )
    } else if proof.table_proof.bottom_point@.len() != half_bits + 1 {
        Err(
            SnarkError::ShapeMismatch {
                what: "relu_lookup_1d: table_proof.bottom_point.len() != log2(table_len)",
            },
        )
    } else if beta != proof.logup_beta@ {
        Err(SnarkError::TranscriptMismatch)
    } else if proof.witness_len != pow2(n_vars) {
        Err(SnarkError::ShapeMismatch { what: "relu_lookup_1d: witness_len != 2^n_vars" })
    } else {
        match pair_verdict(
            proof.lookup_proof,
            proof.table_proof,
            proof.lookup_top,
            proof.table_top,
            minus_one(n_vars),
            half_bits,
            relu1d_t2(proof, np, t0),
        ) {
            Err(e) => Err(e),
            Ok(_) => if !tops_cancel(vals4(proof.lookup_top), vals4(proof.table_top)) {
                Err(SnarkError::LogUpIdentityFailed)
            } else {
                match witness_verdict {
                    Err(e) => Err(e),
                    Ok(false) => Err(
                        SnarkError::PcsOpenRejected { which: "relu_lookup_1d: witness batched open" },
                    ),
                    Ok(true) => if proof.lookup_proof.bottom_denom@ != fsub(
                        fadd(fmul(alpha, proof.preact_logup_eval@), proof.relu_logup_eval@),
                        beta,
                    ) {
                        Err(
                            SnarkError::RelaxationSoundnessFinalCheckFailed {
                                which: "relu_lookup_1d: bottom_denom != α·preact + relu − β at bottom_point",
                            },
                        )
                    } else {
                        match mult_verdict {
                            Err(e) => Err(e),
                            Ok(false) => Err(
                                SnarkError::PcsOpenRejected { which: "relu_lookup_1d: mult open" },
                            ),
                            Ok(true) => if proof.table_proof.bottom_denom@ != fsub(
                                relu_value(vals(proof.table_proof.bottom_point@), alpha),
                                beta,
                            ) {
                                Err(
                                    SnarkError::LogUpTableNotCanonical {
                                        which: "relu_lookup_1d: table not canonical",
                                    },
                                )
                            } else {
                                Ok(())
                            },
                        }
                    },
                }
            },
        }
    }
}

/// The error that a cell `(preact, relu)` gives, if any: both must be readable
/// as integers, `preact` in the table's domain, and `relu` its ReLU.
pub open spec fn relu_cell_error(preact: int, relu: int, half: int) -> Option<SnarkError> {
    match signed_of(preact) {
        None => Some(
            SnarkError::FieldDecodeOutOfRange { which: "relu_lookup_1d: preact lift" },
        ),
        Some(p) => match signed_of(relu) {
            None => Some(SnarkError::FieldDecodeOutOfRange { which: "relu_lookup_1d: relu lift" }),
            Some(r) => if p < -half || p >= half {
                Some(
                    SnarkError::RelaxationSoundnessFinalCheckFailed {
                        which: "relu_lookup_1d: preact out of T_ReLU domain",
                    },
                )
            } else if r != (if p > 0 {
                p as int
            } else {
                0
            }) {
                Some(
                    SnarkError::RelaxationSoundnessFinalCheckFailed {
                        which: "relu_lookup_1d: relu != ReLU(preact) per cell",
                    },
                )
            } else {
                None
            },
        },
    }
}

/// The first error among the cells from `i` on.
pub open spec fn relu_scan(preact: Seq<int>, relu: Seq<int>, half: int, i: nat) -> Option<
    SnarkError,
>
    decreases preact.len() - i,
{
    if i >= preact.len() {
        None
    } else {
        match relu_cell_error(preact[i as int], relu[i as int], half) {
            Some(e) => Some(e),
            None => relu_scan(preact, relu, half, i + 1),
        }
    }
}

/// The table indices of the cells.
pub open spec fn relu_indices(preact: Seq<int>, half: int) -> Seq<i128> {
    Seq::new(preact.len(), |i: int| (signed_of(preact[i])->Some_0 + half) as i128)
}

/// Whether the prover is owed success.
pub open spec fn relu1d_provable<P: MlPcs>(
    params: SnarkParams<P>,
    preact: Seq<int>,
    relu: Seq<int>,
    preact_aux: CommittedAux<P>,
    preact_com: P::Commitment,
    relu_aux: CommittedAux<P>,
    relu_com: P::Commitment,
    n_vars: nat,
) -> bool {
    let hb = params.preprocessed.spec_half_bits();
    &&& n_vars >= 1
    &&& hb >= 1
    &&& preact.len() == pow2(n_vars)
    &&& relu.len() == pow2(n_vars)
    &&& vals(preact_aux.table@) == preact
    &&& vals(relu_aux.table@) == relu
    &&& relu_scan(preact, relu, pow2(hb) as int, 0) is None
    &&& aux_of(params.committer_key, preact_com, preact_aux)
    &&& aux_of(params.committer_key, relu_com, relu_aux)
    &&& P::can_commit(params.committer_key, pow2(even_vars(hb + 1)))
}

/// The extension of a combined column with two summands.
proof fn lemma_pair_open(alpha: int, p: Seq<int>, r: Seq<int>, pt: Seq<int>)
    requires
        in_field(alpha),
        p.len() == pow2(pt.len()),
        r.len() == pow2(pt.len()),
        all_in_field(p),
        all_in_field(r),
        all_in_field(pt),
    ensures
        mle(combined(alpha, p, r), pt) == fadd(fmul(alpha, mle(p, pt)), mle(r, pt)),
{
    law_mle_linear(alpha, p, r, pt);
}

/// Where the scan finds no error, every cell passes.
pub proof fn lemma_relu_scan_none(preact: Seq<int>, relu: Seq<int>, half: int, i: nat)
    requires
        relu_scan(preact, relu, half, i) is None,
    ensures
        forall|j: int|
            i <= j < preact.len() ==> relu_cell_error(#[trigger] preact[j], relu[j], half) is None,
    decreases preact.len() - i,
{
    if i < preact.len() {
        lemma_relu_scan_none(preact, relu, half, i + 1);
    }
}

/// The top fractions of cells that pass the scan cancel with the table's.
proof fn lemma_relu_cells_cancel(
    preact: Seq<int>,
    relu: Seq<int>,
    alpha: int,
    beta: int,
    n: nat,
    hb: nat,
)
    requires
        n >= 1,
        preact.len() == pow2(n),
        relu.len() == pow2(n),
        pow2(hb) <= u64::MAX,
        all_in_field(preact),
        all_in_field(relu),
        relu_scan(preact, relu, pow2(hb) as int, 0) is None,
    ensures
        tops_cancel(
            top_of_columns(
                constant(fneg(1), pow2(n)),
                shifted(combined(alpha, preact, relu), beta),
            ),
            top_of_columns(
                multiplicities(relu_indices(preact, pow2(hb) as int), pow2(hb + 1)),
                shifted(relu_table(hb + 1, alpha), beta),
            ),
        ),
{
    let half = pow2(hb) as int;
    let idx = relu_indices(preact, half);
    let w = combined(alpha, preact, relu);
    let t = relu_table(hb + 1, alpha);
    lemma_relu_scan_none(preact, relu, half, 0);
    lemma_pow2_unfold(hb + 1);
    assert forall|j: int| 0 <= j < idx.len() implies 0 <= #[trigger] idx[j] < t.len() by {
        assert(relu_cell_error(preact[j], relu[j], half) is None);
    }
    assert forall|j: int| 0 <= j < idx.len() implies #[trigger] w[j] == t[idx[j] as int] by {
        assert(relu_cell_error(preact[j], relu[j], half) is None);
        lemma_signed_of_residue(preact[j]);
        lemma_signed_of_residue(relu[j]);
    }
    law_lookup_cancels(w, t, idx, beta, n, hb + 1);
}

/// Prove that every pair `(preact[i], relu[i])` occurs in the ReLU table.
pub fn prove_relu_lookup_1d<P: MlPcs>(
    preact_padded: &[Fr],
    relu_padded: &[Fr],
    preact_aux: &CommittedAux<P>,
    preact_commit: &P::Commitment,
    relu_aux: &CommittedAux<P>,
    relu_commit: &P::Commitment,
    n_vars: usize,
    params: &SnarkParams<P>,
    sponge: &mut Transcript,
    rng: &mut P::Randomness,
) -> (r: Result<ReluLookup1dProof<P>, SnarkError>)
    requires
        pow2(n_vars as nat) <= usize::MAX,
        pow2(even_vars(params.preprocessed.spec_half_bits() + 1)) <= usize::MAX,
    ensures
        !(preact_padded@.len() == pow2(n_vars as nat) && relu_padded@.len() == pow2(n_vars as nat)
            && preact_aux.table@.len() == pow2(n_vars as nat) && relu_aux.table@.len() == pow2(
            n_vars as nat,
        )) ==> r == Err::<ReluLookup1dProof<P>, SnarkError>(
            SnarkError::ShapeMismatch { what: "relu_lookup_1d: padded length != 2^n_vars" },
        ),
        preact_padded@.len() == pow2(n_vars as nat) && relu_padded@.len() == pow2(n_vars as nat)
            && preact_aux.table@.len() == pow2(n_vars as nat) && relu_aux.table@.len() == pow2(
            n_vars as nat,
        ) ==> (relu_scan(
            vals(preact_padded@),
            vals(relu_padded@),
            pow2(params.preprocessed.spec_half_bits()) as int,
            0,
        ) matches Some(e) ==> r == Err::<ReluLookup1dProof<P>, SnarkError>(e)),
        r is Ok && params.preprocessed.spec_half_bits() >= 1 && vals(preact_aux.table@) == vals(
            preact_padded@,
        ) && vals(relu_aux.table@) == vals(relu_padded@) && aux_of(
            params.committer_key,
            *preact_commit,
            *preact_aux,
        ) && aux_of(params.committer_key, *relu_commit, *relu_aux) ==> relu1d_provable(
            *params,
            vals(preact_padded@),
            vals(relu_padded@),
            *preact_aux,
            *preact_commit,
            *relu_aux,
            *relu_commit,
            n_vars as nat,
        ),
        relu1d_provable(
            *params,
            vals(preact_padded@),
            vals(relu_padded@),
            *preact_aux,
            *preact_commit,
            *relu_aux,
            *relu_commit,
            n_vars as nat,
        ) ==> {
            &&& r matches Ok(proof)
            &&& params.keys_match() ==> {
                &&& relu1d_verdict(
                    params.verifier_key,
                    proof,
                    *preact_commit,
                    *relu_commit,
                    n_vars as nat,
                    params.preprocessed.spec_half_bits(),
                    state_of(*old(sponge)),
                ) == Ok::<(), SnarkError>(())
                &&& state_of(*final(sponge)) == relu1d_state(
                    params.verifier_key,
                    proof,
                    *preact_commit,
                    *relu_commit,
                    n_vars as nat,
                    state_of(*old(sponge)),
                )
            }
        },
        r matches Ok(proof) ==> {
            let t0 = state_of(*old(sponge));
            let np = pow2(n_vars as nat) as u64;
            let hb = params.preprocessed.spec_half_bits();
            &&& n_vars >= 1
            &&& P::can_commit(params.committer_key, pow2(even_vars(hb + 1)))
            &&& relu_scan(vals(preact_padded@), vals(relu_padded@), pow2(hb) as int, 0) is None
            &&& proof.combine_alpha@ == relu1d_alpha(np, t0)
            &&& proof.logup_beta@ == relu1d_beta(proof, np, t0)
            &&& proof.witness_len == pow2(n_vars as nat)
            &&& proof.table_len == pow2(hb + 1)
            &&& proof.mult_n_vars == even_vars(hb + 1)
            &&& honest_pair(
                LookupPair {
                    lookup_proof: proof.lookup_proof,
                    table_proof: proof.table_proof,
                    lookup_top: proof.lookup_top,
                    table_top: proof.table_top,
                },
                combined(proof.combine_alpha@, vals(preact_padded@), vals(relu_padded@)),
                relu_table(hb + 1, proof.combine_alpha@),
                multiplicities(relu_indices(vals(preact_padded@), pow2(hb) as int), pow2(hb + 1)),
                proof.logup_beta@,
                relu1d_t2(proof, np, t0),
            )
        },
{
    let n_padded: usize = pow2_usize(n_vars);
    if preact_padded.len() != n_padded || relu_padded.len() != n_padded || preact_aux.table.len()
        != n_padded || relu_aux.table.len() != n_padded {
        return Err(
            SnarkError::ShapeMismatch { what: "relu_lookup_1d: padded length != 2^n_vars" },
        );
    }
    absorb_u64(sponge, n_padded as u64);
    let combine_alpha: Fr = squeeze_one(sponge);
    let hb: usize = params.range_table_half_bits();
    let half_range: i128 = pow2_i128(hb);
    let table: Vec<Fr> = params.preprocessed.relu_table_at(combine_alpha);
    let table_len: usize = table.len();
    let ghost pv = vals(preact_padded@);
    let ghost rv = vals(relu_padded@);
    proof {
        lemma_pow2_unfold((hb + 1) as nat);
        lemma_pow2_machine((hb + 1) as nat);
    }
    let mut witness: Vec<Fr> = Vec::with_capacity(n_padded);
    let mut indices: Vec<i128> = Vec::with_capacity(n_padded);
    let mut i: usize = 0;
    while i < n_padded
        invariant
            i <= n_padded,
            preact_padded@.len() == n_padded,
            relu_padded@.len() == n_padded,
            preact_aux.table@.len() == n_padded,
            relu_aux.table@.len() == n_padded,
            n_padded == pow2(n_vars as nat),
            pv == vals(preact_padded@),
            rv == vals(relu_padded@),
            half_range == pow2(hb as nat),
            hb == params.preprocessed.spec_half_bits(),
            half_range <= u64::MAX,
            witness@.len() == i,
            indices@.len() == i,
            forall|k: int| 0 <= k < i ==> (#[trigger] witness@[k])@ == combined(combine_alpha@, pv, rv)[k],
            forall|k: int| 0 <= k < i ==> #[trigger] indices@[k] == relu_indices(pv, half_range as int)[k],
            relu_scan(pv, rv, half_range as int, 0) == relu_scan(pv, rv, half_range as int, i as nat),
        decreases n_padded - i,
    {
        assert(pv[i as int] == preact_padded@[i as int]@);
        assert(rv[i as int] == relu_padded@[i as int]@);
        let p: i128 = match fr_to_signed_i128(preact_padded[i]) {
            Some(p) => p,
            None => {
                return Err(
                    SnarkError::FieldDecodeOutOfRange { which: "relu_lookup_1d: preact lift" },
                );
            },
        };
        let rl: i128 = match fr_to_signed_i128(relu_padded[i]) {
            Some(x) => x,
            None => {
                return Err(
                    SnarkError::FieldDecodeOutOfRange { which: "relu_lookup_1d: relu lift" },
                );
            },
        };
        if p < -half_range || p >= half_range {
            return Err(
                SnarkError::RelaxationSoundnessFinalCheckFailed {
                    which: "relu_lookup_1d: preact out of T_ReLU domain",
                },
            );
        }
        let expected_relu: i128 = if p > 0 {
            p
        } else {
            0
        };
        if rl != expected_relu {
            return Err(
                SnarkError::RelaxationSoundnessFinalCheckFailed {
                    which: "relu_lookup_1d: relu != ReLU(preact) per cell",
                },
            );
        }
        indices.push(p + half_range);
        witness.push(combine_alpha.mul(preact_padded[i]).add(relu_padded[i]));
        i += 1;
    }
    assert(vals(witness@) =~= combined(combine_alpha@, pv, rv));
    assert(indices@ =~= relu_indices(pv, half_range as int));
    let mults_fr: Vec<Fr> = count_codes(indices.as_slice(), table_len);
    assert(vals(mults_fr@).len() == mults_fr@.len());
    let mult_n_vars: usize = round_up_even(hb + 1);
    let mult_padded_len: usize = pow2_usize(mult_n_vars);
    proof {
        if hb + 1 < mult_n_vars {
            vstd::arithmetic::power2::lemma_pow2_strictly_increases(
                (hb + 1) as nat,
                mult_n_vars as nat,
            );
        }
    }
    let mults_padded: Vec<Fr> = pad_zeros(mults_fr.as_slice(), mult_padded_len);
    let (mult_commit, mult_aux): (P::Commitment, CommittedAux<P>) = match commit_table::<P>(
        &params.committer_key,
        mults_padded,
        rng,
    ) {
        Ok(c) => c,
        Err(e) => {
            return Err(e);
        },
    };
    absorb_commitment::<P>(sponge, &mult_commit);
    let witness_len: usize = witness.len();
    absorb_u64(sponge, witness_len as u64);
    absorb_u64(sponge, table_len as u64);
    let logup_beta: Fr = squeeze_one(sponge);
    absorb_fr(sponge, logup_beta);
    proof {
        lemma_range_column((hb + 1) as nat);
        if n_vars >= 1 {
            lemma_range_column(n_vars as nat);
        }
    }
    let pair: LookupPair = match prove_pair(
        witness.as_slice(),
        table.as_slice(),
        mults_fr.as_slice(),
        logup_beta,
        sponge,
    ) {
        Ok(p) => p,
        Err(e) => {
            return Err(e);
        },
    };
    let ghost tp = vals(pair.table_proof.bottom_point@);
    let ghost lp = vals(pair.lookup_proof.bottom_point@);
    let ghost coms = seq![*preact_commit, *relu_commit];
    proof {
        broadcast use lemma_view_in_field;

        lemma_pow2_injective(tp.len(), (hb + 1) as nat);
        lemma_pow2_injective(lp.len(), n_vars as nat);
        lemma_mle_zero_padded(vals(mults_fr@), tp, mult_n_vars as nat);
        law_relu_table(tp, combine_alpha@);
        lemma_pair_open(combine_alpha@, pv, rv, lp);
        if n_vars >= 1 && hb >= 1 {
            lemma_relu_cells_cancel(
                pv,
                rv,
                combine_alpha@,
                logup_beta@,
                n_vars as nat,
                hb as nat,
            );
        }
        lemma_mle_unpadded(pv, lp);
        lemma_mle_unpadded(rv, lp);
    }
    let mut items: Vec<BatchOpenSpec<'_, P>> = Vec::with_capacity(2);
    items.push(BatchOpenSpec { aux: preact_aux, commitment: preact_commit, commit_n_vars: n_vars });
    items.push(BatchOpenSpec { aux: relu_aux, commitment: relu_commit, commit_n_vars: n_vars });
    assert(Seq::new(items@.len(), |i: int| *items@[i].commitment) =~= coms);
    let (evals, witness_batched_open): (Vec<Fr>, P::Proof) = match hyrax_open_batched_at::<P>(
        &params.committer_key,
        &items,
        pair.lookup_proof.bottom_point.as_slice(),
        sponge,
        rng,
    ) {
        Ok(x) => x,
        Err(e) => {
            return Err(e);
        },
    };
    let preact_logup_eval: Fr = evals[0];
    let relu_logup_eval: Fr = evals[1];
    proof {
        assert(vals(evals@) =~= seq![preact_logup_eval@, relu_logup_eval@]);
        assert(vals(evals@)[0] == preact_logup_eval@);
        assert(vals(evals@)[1] == relu_logup_eval@);
    }
    if pair.lookup_proof.bottom_denom != combine_alpha.mul(preact_logup_eval).add(
        relu_logup_eval,
    ).sub(logup_beta) {
        return Err(
            SnarkError::RelaxationSoundnessFinalCheckFailed {
                which: "relu_lookup_1d: prover-side bottom_denom vs (α·p + r − β) drift",
            },
        );
    }
    let (mult_eval_check, mult_open): (Fr, P::Proof) = match hyrax_open_at::<P>(
        &params.committer_key,
        &mult_aux,
        &mult_commit,
        pair.table_proof.bottom_point.as_slice(),
        sponge,
        rng,
    ) {
        Ok(x) => x,
        Err(e) => {
            return Err(e);
        },
    };
    if mult_eval_check != pair.table_proof.bottom_num {
        return Err(
            SnarkError::RelaxationSoundnessFinalCheckFailed {
                which: "relu_lookup_1d: prover-side mult open vs table.bottom_num drift",
            },
        );
    }
    Ok(
        ReluLookup1dProof {
            combine_alpha,
            logup_beta,
            lookup_proof: pair.lookup_proof,
            table_proof: pair.table_proof,
            lookup_top: pair.lookup_top,
            table_top: pair.table_top,
            witness_len,
            table_len,
            mult_commit,
            mult_open,
            mult_n_vars,
            witness_batched_open,
            preact_logup_eval,
            relu_logup_eval,
        },
    )
}

/// Verify that the committed columns pair up in the ReLU table.
pub fn verify_relu_lookup_1d<P: MlPcs>(
    proof: &ReluLookup1dProof<P>,
    preact_commit: &P::Commitment,
    relu_commit: &P::Commitment,
    n_vars: usize,
    params: &SnarkParams<P>,
    sponge: &mut Transcript,
) -> (r: Result<(), SnarkError>)
    requires
        pow2(n_vars as nat) <= usize::MAX,
    ensures
        r == relu1d_verdict(
            params.verifier_key,
            *proof,
            *preact_commit,
            *relu_commit,
            n_vars as nat,
            params.preprocessed.spec_half_bits(),
            state_of(*old(sponge)),
        ),
        r is Ok ==> state_of(*final(sponge)) == relu1d_state(
            params.verifier_key,
            *proof,
            *preact_commit,
            *relu_commit,
            n_vars as nat,
            state_of(*old(sponge)),
        ),
{
    let n_padded: usize = pow2_usize(n_vars);
    absorb_u64(sponge, n_padded as u64);
    let combine_alpha: Fr = squeeze_one(sponge);
    if combine_alpha != proof.combine_alpha {
        return Err(SnarkError::TranscriptMismatch);
    }
    let hb: usize = params.range_table_half_bits();
    let canonical_table_len: usize = pow2_usize(hb + 1);
    if proof.table_len != canonical_table_len {
        return Err(
            SnarkError::LogUpTableNotCanonical {
                which: "relu_lookup_1d: table_len != canonical T_ReLU.len()",
            },
        );
    }
    if hb == 0 {
        return Err(
            SnarkError::ShapeMismatch {
                what: "relu_lookup_1d: table_len must be a power of two ≥ 4",
            },
        );
    }
    if proof.table_proof.bottom_point.len() != hb + 1 {
        return Err(
            SnarkError::ShapeMismatch {
                what: "relu_lookup_1d: table_proof.bottom_point.len() != log2(table_len)",
            },
        );
    }
    absorb_commitment::<P>(sponge, &proof.mult_commit);
    absorb_u64(sponge, proof.witness_len as u64);
    absorb_u64(sponge, proof.table_len as u64);
    let logup_beta: Fr = squeeze_one(sponge);
    absorb_fr(sponge, logup_beta);
    if logup_beta != proof.logup_beta {
        return Err(SnarkError::TranscriptMismatch);
    }
    if proof.witness_len != n_padded {
        return Err(SnarkError::ShapeMismatch { what: "relu_lookup_1d: witness_len != 2^n_vars" });
    }
    let lookup_n: usize = if n_vars == 0 {
        0
    } else {
        n_vars - 1
    };
    match verify_pair(
        &proof.lookup_proof,
        &proof.table_proof,
        &proof.lookup_top,
        &proof.table_top,
        lookup_n,
        hb,
        sponge,
    ) {
        Ok(_) => {},
        Err(e) => {
            return Err(e);
        },
    }
    if !check_tops_cancel(&proof.lookup_top, &proof.table_top) {
        return Err(SnarkError::LogUpIdentityFailed);
    }
    let mut items: Vec<BatchVerifySpec<'_, P>> = Vec::with_capacity(2);
    items.push(
        BatchVerifySpec {
            commitment: preact_commit,
            value: proof.preact_logup_eval,
            commit_n_vars: n_vars,
        },
    );
    items.push(
        BatchVerifySpec {
            commitment: relu_commit,
            value: proof.relu_logup_eval,
            commit_n_vars: n_vars,
        },
    );
    proof {
        assert(batch_coms(items@) =~= seq![*preact_commit, *relu_commit]);
        assert(batch_values(items@) =~= seq![proof.preact_logup_eval@, proof.relu_logup_eval@]);
    }
    match hyrax_verify_batched_at::<P>(
        &params.verifier_key,
        &items,
        proof.lookup_proof.bottom_point.as_slice(),
        &proof.witness_batched_open,
        sponge,
    ) {
        Ok(true) => {},
        Ok(false) => {
            return Err(
                SnarkError::PcsOpenRejected { which: "relu_lookup_1d: witness batched open" },
            );
        },
        Err(e) => {
            return Err(e);
        },
    }
    if proof.lookup_proof.bottom_denom != combine_alpha.mul(proof.preact_logup_eval).add(
        proof.relu_logup_eval,
    ).sub(logup_beta) {
        return Err(
            SnarkError::RelaxationSoundnessFinalCheckFailed {
                which: "relu_lookup_1d: bottom_denom != α·preact + relu − β at bottom_point",
            },
        );
    }
    match hyrax_verify_at::<P>(
        &params.verifier_key,
        &proof.mult_commit,
        proof.table_proof.bottom_point.as_slice(),
        proof.table_proof.bottom_num,
        &proof.mult_open,
        proof.mult_n_vars,
        sponge,
    ) {
        Ok(true) => {},
        Ok(false) => {
            return Err(SnarkError::PcsOpenRejected { which: "relu_lookup_1d: mult open" });
        },
        Err(e) => {
            return Err(e);
        },
    }
    let canonical: Fr = relu_table_mle_eval(
        proof.table_proof.bottom_point.as_slice(),
        combine_alpha,
    );
    if proof.table_proof.bottom_denom != canonical.sub(logup_beta) {
        return Err(
            SnarkError::LogUpTableNotCanonical { which: "relu_lookup_1d: table not canonical" },
        );
    }
    Ok(())
}

} // verus!
