//! The range check `witness in [0, 2^bits)` of a committed column.

use crate::columns::{
    all_below, codes_below, count_codes, even_vars, lemma_mle_unpadded, lemma_mle_zero_padded,
    lifted_codes, multiplicities, pad_zeros, pow2_i128, round_up_even, zero_padded,
};
use crate::errors::SnarkError;
use crate::field::{Fr, fneg, fsub, lemma_view_in_field, vals};
use crate::logup::{LogUpProof, column_ok, shifted, tops_cancel, vals4};
use crate::lookup_laws::law_lookup_cancels;
use crate::lookup_pair::{
    LookupPair, check_tops_cancel, honest_pair, pair_state, pair_verdict, prove_pair,
    top_of_columns, verify_pair,
};
use crate::mle::pow2_usize;
use crate::mle_laws::constant;
use crate::params::SnarkParams;
use crate::pcs::{
    CommittedAux, MlPcs, abs_com, absorb_commitment, aux_of, commit_table, hyrax_open_at,
    hyrax_verify_at, lemma_pow2_injective, open_state, open_verdict,
};
use crate::table_mle::{identity_table, identity_value, law_identity_table, pos_range_mle_eval};
use crate::transcript::{
    abs_fr, abs_u64, absorb_fr, absorb_u64, challenge, challenged, squeeze_one, state_of,
};
use ark_crypto_primitives::sponge::merlin::Transcript;
use vstd::arithmetic::power2::{lemma_pow2_pos, lemma_pow2_unfold, pow2};
use vstd::prelude::*;

verus! {

/// LogUp range proof for one committed column with entries in
/// `[0, 2^gadget_range_bits)`.
pub struct PosRangeLogUp<P: MlPcs> {
    pub logup_alpha: Fr,
    pub logup_beta: Fr,
    pub lookup_proof: LogUpProof,
    pub table_proof: LogUpProof,
    pub lookup_top: [Fr; 4],
    pub table_top: [Fr; 4],
    pub witness_len: usize,
    pub table_len: usize,
    pub mult_commit: P::Commitment,
    pub mult_open: P::Proof,
    pub mult_n_vars: usize,
    /// `witness(bottom_point) - beta = lookup.bottom_denom`.
    pub witness_logup_open: P::Proof,
    pub witness_logup_eval: Fr,
}

/// The transcript state before the challenges: the multiplicities' commitment
/// and the lengths are bound.
pub open spec fn range_t1<P: MlPcs>(range: PosRangeLogUp<P>, t0: Seq<u8>) -> Seq<u8> {
    abs_u64(
        abs_u64(abs_com::<P>(t0, range.mult_commit), range.witness_len as u64),
        range.table_len as u64,
    )
}

/// The challenge `alpha`.
pub open spec fn range_alpha<P: MlPcs>(range: PosRangeLogUp<P>, t0: Seq<u8>) -> int {
    challenge(range_t1(range, t0))
}

/// The challenge `beta`.
pub open spec fn range_beta<P: MlPcs>(range: PosRangeLogUp<P>, t0: Seq<u8>) -> int {
    challenge(challenged(range_t1(range, t0)))
}

/// The state after the challenges were drawn and bound.
pub open spec fn range_t2<P: MlPcs>(range: PosRangeLogUp<P>, t0: Seq<u8>) -> Seq<u8> {
    abs_fr(
        abs_fr(challenged(challenged(range_t1(range, t0))), range_alpha(range, t0)),
        range_beta(range, t0),
    )
}

/// The state after the two circuits.
pub open spec fn range_t3<P: MlPcs>(range: PosRangeLogUp<P>, t0: Seq<u8>) -> Seq<u8> {
    pair_state(
        range.lookup_proof,
        range.table_proof,
        range.lookup_top,
        range.table_top,
        range_t2(range, t0),
    )
}

/// The state after the opening of the multiplicities.
pub open spec fn range_t4<P: MlPcs>(
    vk: P::VerifierKey,
    range: PosRangeLogUp<P>,
    t0: Seq<u8>,
) -> Seq<u8> {
    open_state::<P>(
        vk,
        range.mult_commit,
        vals(range.table_proof.bottom_point@),
        range.table_proof.bottom_num@,
        range.mult_open,
        range.mult_n_vars as nat,
        range_t3(range, t0),
    )
}

/// The state after the whole check.
pub open spec fn range_state<P: MlPcs>(
    vk: P::VerifierKey,
    com: P::Commitment,
    n_vars: nat,
    range: PosRangeLogUp<P>,
    t0: Seq<u8>,
) -> Seq<u8> {
    open_state::<P>(
        vk,
        com,
        vals(range.lookup_proof.bottom_point@),
        range.witness_logup_eval@,
        range.witness_logup_open,
        n_vars,
        range_t4(vk, range, t0),
    )
}

/// `n - 1`, or `0` for `0`.
pub open spec fn minus_one(n: nat) -> nat {
    if n == 0 {
        0
    } else {
        (n - 1) as nat
    }
}

/// The verdict on a range proof for a column of `2^n_vars` entries and the
/// table `[0, 2^bits)`.
pub open spec fn range_verdict<P: MlPcs>(
    vk: P::VerifierKey,
    com: P::Commitment,
    n_vars: nat,
    bits: nat,
    range: PosRangeLogUp<P>,
    t0: Seq<u8>,
) -> Result<(), SnarkError> {
    let mult_verdict = open_verdict::<P>(
        vk,
        range.mult_commit,
        vals(range.table_proof.bottom_point@),
        range.table_proof.bottom_num@,
        range.mult_open,
        range.mult_n_vars as nat,
        range_t3(range, t0),
    );
    let witness_verdict = open_verdict::<P>(
        vk,
        com,
        vals(range.lookup_proof.bottom_point@),
        range.witness_logup_eval@,
        range.witness_logup_open,
        n_vars,
        range_t4(vk, range, t0),
    );
    let beta = range_beta(range, t0);
    if range.witness_len != pow2(n_vars) || range.table_len != pow2(bits) {
        Err(SnarkError::ShapeMismatch { what: "relu_upper_endpoint: range LogUp len" })
    } else if range_alpha(range, t0) != range.logup_alpha@ || beta != range.logup_beta@ {
        Err(SnarkError::TranscriptMismatch)
    } else {
        match pair_verdict(
            range.lookup_proof,
            range.table_proof,
            range.lookup_top,
            range.table_top,
            minus_one(n_vars),
            minus_one(bits),
            range_t2(range, t0),
        ) {
            Err(e) => Err(e),
            Ok(_) => if !tops_cancel(vals4(range.lookup_top), vals4(range.table_top)) {
                Err(SnarkError::LogUpIdentityFailed)
            } else {
                match mult_verdict {
                    Err(e) => Err(e),
                    Ok(false) => Err(
                        SnarkError::PcsOpenRejected { which: "relu_upper_endpoint::range_mult" },
                    ),
                    Ok(true) => match witness_verdict {
                        Err(e) => Err(e),
                        Ok(false) => Err(
                            SnarkError::PcsOpenRejected {
                                which: "relu_upper_endpoint::range_witness_logup",
                            },
                        ),
                        Ok(true) => if range.lookup_proof.bottom_denom@ != fsub(
                            range.witness_logup_eval@,
                            beta,
                        ) {
                            Err(SnarkError::PerTensorRangeWitnessNotBound)
                        } else if range.table_proof.bottom_denom@ != fsub(
                            identity_value(vals(range.table_proof.bottom_point@)),
                            beta,
                        ) {
                            Err(
                                SnarkError::LogUpTableNotCanonical {
                                    which: "relu_upper_endpoint::pos_range_table",
                                },
                            )
                        } else {
                            Ok(())
                        },
                    },
                }
            },
        }
    }
}

/// Whether a column can be range-checked: its codes are in range and lift to
/// the committed table, the range table was built, and its multiplicities can
/// be committed.
pub open spec fn range_provable<P: MlPcs>(
    params: SnarkParams<P>,
    witness: Seq<int>,
    codes: Seq<i128>,
    aux: CommittedAux<P>,
    com: P::Commitment,
) -> bool {
    let bits = params.gadget_range_bits as nat;
    &&& params.preprocessed.has_pos_table(bits)
    &&& all_below(codes, pow2(bits) as int)
    &&& column_ok(witness.len())
    &&& witness == lifted_codes(codes)
    &&& vals(aux.table@) == witness
    &&& aux_of(params.committer_key, com, aux)
    &&& P::can_commit(params.committer_key, pow2(even_vars(bits)))
}

/// Prove that a committed column lies in `[0, 2^gadget_range_bits)`.
pub fn prove_pos_range<P: MlPcs>(
    witness_fr: &[Fr],
    witness_i128: &[i128],
    witness_aux: &CommittedAux<P>,
    witness_commit: &P::Commitment,
    params: &SnarkParams<P>,
    sponge: &mut Transcript,
    rng: &mut P::Randomness,
) -> (r: Result<PosRangeLogUp<P>, SnarkError>)
    requires
        pow2(even_vars(params.gadget_range_bits as nat)) <= usize::MAX,
    ensures
        !params.preprocessed.has_pos_table(params.gadget_range_bits as nat) ==> r == Err::<
            PosRangeLogUp<P>,
            SnarkError,
        >(SnarkError::Reserved { what: "preprocessed: no range table of this width" }),
        params.preprocessed.has_pos_table(params.gadget_range_bits as nat) && !all_below(
            witness_i128@,
            pow2(params.gadget_range_bits as nat) as int,
        ) ==> r == Err::<PosRangeLogUp<P>, SnarkError>(
            SnarkError::RelaxationSoundnessFinalCheckFailed {
                which: "relu_upper_endpoint: witness out of [0, 2^GADGET_RANGE_BITS)",
            },
        ),
        !params.preprocessed.has_pos_table(params.gadget_range_bits as nat) || !all_below(
            witness_i128@,
            pow2(params.gadget_range_bits as nat) as int,
        ) ==> state_of(*final(sponge)) == state_of(*old(sponge)),
        r is Ok && vals(witness_fr@) == lifted_codes(witness_i128@) && vals(witness_aux.table@)
            == vals(witness_fr@) && aux_of(params.committer_key, *witness_commit, *witness_aux)
            ==> range_provable(
            *params,
            vals(witness_fr@),
            witness_i128@,
            *witness_aux,
            *witness_commit,
        ),
        range_provable(*params, vals(witness_fr@), witness_i128@, *witness_aux, *witness_commit)
            ==> {
            &&& r matches Ok(range)
            &&& params.keys_match() ==> {
                &&& range_verdict(
                    params.verifier_key,
                    *witness_commit,
                    vals(range.lookup_proof.bottom_point@).len(),
                    params.gadget_range_bits as nat,
                    range,
                    state_of(*old(sponge)),
                ) == Ok::<(), SnarkError>(())
                &&& state_of(*final(sponge)) == range_state(
                    params.verifier_key,
                    *witness_commit,
                    vals(range.lookup_proof.bottom_point@).len(),
                    range,
                    state_of(*old(sponge)),
                )
            }
        },
        r matches Ok(range) ==> {
            let t0 = state_of(*old(sponge));
            let bits = params.gadget_range_bits as nat;
            &&& params.preprocessed.has_pos_table(bits)
            &&& P::can_commit(params.committer_key, pow2(even_vars(bits)))
            &&& column_ok(witness_fr@.len())
            &&& all_below(witness_i128@, pow2(bits) as int)
            &&& witness_fr@.len() == pow2(vals(range.lookup_proof.bottom_point@).len())
            &&& range.witness_len == witness_fr@.len()
            &&& range.table_len == pow2(bits)
            &&& range.mult_n_vars == even_vars(bits)
            &&& range.logup_alpha@ == range_alpha(range, t0)
            &&& range.logup_beta@ == range_beta(range, t0)
            &&& exists|state: P::State|
                P::committed(
                    params.committer_key,
                    range.mult_commit,
                    state,
                    zero_padded(multiplicities(witness_i128@, pow2(bits)), pow2(even_vars(bits))),
                )
            &&& honest_pair(
                LookupPair {
                    lookup_proof: range.lookup_proof,
                    table_proof: range.table_proof,
                    lookup_top: range.lookup_top,
                    table_top: range.table_top,
                },
                vals(witness_fr@),
                identity_table(bits),
                multiplicities(witness_i128@, pow2(bits)),
                range.logup_beta@,
                range_t2(range, t0),
            )
        },
{
    let table_bits: usize = params.gadget_range_bits;
    let table: &Vec<Fr> = match params.preprocessed.pos_range_table(table_bits) {
        Ok(t) => t,
        Err(e) => {
            return Err(e);
        },
    };
    let n_padded: usize = witness_fr.len();
    let bound: i128 = pow2_i128(table_bits);
    if !codes_below(witness_i128, bound) {
        return Err(
            SnarkError::RelaxationSoundnessFinalCheckFailed {
                which: "relu_upper_endpoint: witness out of [0, 2^GADGET_RANGE_BITS)",
            },
        );
    }
    assert(vals(table@).len() == table@.len());
    let table_len: usize = table.len();
    let mults_fr: Vec<Fr> = count_codes(witness_i128, table_len);
    assert(vals(mults_fr@).len() == mults_fr@.len());
    let mult_n_vars: usize = round_up_even(table_bits);
    let mult_padded_len: usize = pow2_usize(mult_n_vars);
    proof {
        if table_bits < mult_n_vars {
            vstd::arithmetic::power2::lemma_pow2_strictly_increases(
                table_bits as nat,
                mult_n_vars as nat,
            );
        }
    }
    let mults_padded: Vec<Fr> = pad_zeros(mults_fr.as_slice(), mult_padded_len);
    let (mult_commit, mult_aux): (P::Commitment, CommittedAux<P>) = match commit_table::<P>(
        &params.committer_key,
        mults_padded,
        rng,
    ) {
        Ok(c) => c,
        Err(e) => {
            return Err(e);
        },
    };
    absorb_commitment::<P>(sponge, &mult_commit);
    absorb_u64(sponge, n_padded as u64);
    absorb_u64(sponge, table_len as u64);
    let logup_alpha: Fr = squeeze_one(sponge);
    let logup_beta: Fr = squeeze_one(sponge);
    absorb_fr(sponge, logup_alpha);
    absorb_fr(sponge, logup_beta);
    proof {
        lemma_range_column(table_bits as nat);
    }
    let pair: LookupPair = match prove_pair(
        witness_fr,
        table.as_slice(),
        mults_fr.as_slice(),
        logup_beta,
        sponge,
    ) {
        Ok(p) => p,
        Err(e) => {
            return Err(e);
        },
    };
    let ghost tp = vals(pair.table_proof.bottom_point@);
    let ghost lp = vals(pair.lookup_proof.bottom_point@);
    proof {
        broadcast use lemma_view_in_field;

        lemma_pow2_injective(tp.len(), table_bits as nat);
        lemma_mle_zero_padded(vals(mults_fr@), tp, mult_n_vars as nat);
        law_identity_table(tp);
        if vals(witness_fr@) == lifted_codes(witness_i128@) {
            lemma_codes_cancel(witness_i128@, logup_beta@, lp.len(), tp.len());
        }
    }
    let (mult_eval_check, mult_open): (Fr, P::Proof) = match hyrax_open_at::<P>(
        &params.committer_key,
        &mult_aux,
        &mult_commit,
        pair.table_proof.bottom_point.as_slice(),
        sponge,
        rng,
    ) {
        Ok(x) => x,
        Err(e) => {
            return Err(e);
        },
    };
    if mult_eval_check != pair.table_proof.bottom_num {
        return Err(
            SnarkError::RelaxationSoundnessFinalCheckFailed {
                which: "relu_upper_endpoint: mult open mismatch",
            },
        );
    }
    proof {
        lemma_mle_unpadded(vals(witness_aux.table@), lp);
    }
    let (witness_logup_eval, witness_logup_open): (Fr, P::Proof) = match hyrax_open_at::<P>(
        &params.committer_key,
        witness_aux,
        witness_commit,
        pair.lookup_proof.bottom_point.as_slice(),
        sponge,
        rng,
    ) {
        Ok(x) => x,
        Err(e) => {
            return Err(e);
        },
    };
    if pair.lookup_proof.bottom_denom != witness_logup_eval.sub(logup_beta) {
        return Err(
            SnarkError::RelaxationSoundnessFinalCheckFailed {
                which: "relu_upper_endpoint: witness logup bottom_denom mismatch",
            },
        );
    }
    Ok(
        PosRangeLogUp {
            logup_alpha,
            logup_beta,
            lookup_proof: pair.lookup_proof,
            table_proof: pair.table_proof,
            lookup_top: pair.lookup_top,
            table_top: pair.table_top,
            witness_len: n_padded,
            table_len,
            mult_commit,
            mult_open,
            mult_n_vars,
            witness_logup_open,
            witness_logup_eval,
        },
    )
}

/// The top fractions of a column of codes in range cancel with the table's.
proof fn lemma_codes_cancel(codes: Seq<i128>, beta: int, n: nat, bits: nat)
    requires
        n >= 1,
        bits >= 1,
        codes.len() == pow2(n),
        all_below(codes, pow2(bits) as int),
    ensures
        tops_cancel(
            top_of_columns(constant(fneg(1), pow2(n)), shifted(lifted_codes(codes), beta)),
            top_of_columns(
                multiplicities(codes, pow2(bits)),
                shifted(identity_table(bits), beta),
            ),
        ),
{
    let (w, t) = (lifted_codes(codes), identity_table(bits));
    assert forall|j: int| 0 <= j < codes.len() implies #[trigger] w[j] == t[codes[j] as int] by {
        assert(0 <= codes[j] < pow2(bits));
    }
    law_lookup_cancels(w, t, codes, beta, n, bits);
}

/// A range table can be the bottom of a circuit.
pub proof fn lemma_range_column(bits: nat)
    requires
        bits >= 1,
    ensures
        column_ok(pow2(bits)),
{
    lemma_pow2_unfold(bits);
    lemma_pow2_pos((bits - 1) as nat);
}

/// Verify that a committed column of `2^expected_n_vars` entries lies in
/// `[0, 2^gadget_range_bits)`.
pub fn verify_pos_range<P: MlPcs>(
    range: &PosRangeLogUp<P>,
    expected_n_vars: usize,
    witness_commit: &P::Commitment,
    params: &SnarkParams<P>,
    sponge: &mut Transcript,
) -> (r: Result<(), SnarkError>)
    requires
        pow2(expected_n_vars as nat) <= usize::MAX,
    ensures
        !params.preprocessed.has_pos_table(params.gadget_range_bits as nat) ==> r == Err::<
            (),
            SnarkError,
        >(SnarkError::Reserved { what: "preprocessed: no range table of this width" }),
        !params.preprocessed.has_pos_table(params.gadget_range_bits as nat) || range.witness_len
            != pow2(expected_n_vars as nat) || range.table_len != pow2(
            params.gadget_range_bits as nat,
        ) ==> state_of(*final(sponge)) == state_of(*old(sponge)),
        params.preprocessed.has_pos_table(params.gadget_range_bits as nat) ==> {
            &&& r == range_verdict(
                params.verifier_key,
                *witness_commit,
                expected_n_vars as nat,
                params.gadget_range_bits as nat,
                *range,
                state_of(*old(sponge)),
            )
            &&& r is Ok ==> state_of(*final(sponge)) == range_state(
                params.verifier_key,
                *witness_commit,
                expected_n_vars as nat,
                *range,
                state_of(*old(sponge)),
            )
        },
{
    let bits: usize = params.gadget_range_bits;
    let table: &Vec<Fr> = match params.preprocessed.pos_range_table(bits) {
        Ok(t) => t,
        Err(e) => {
            return Err(e);
        },
    };
    assert(vals(table@).len() == table@.len());
    let n_padded: usize = pow2_usize(expected_n_vars);
    if range.witness_len != n_padded || range.table_len != table.len() {
        return Err(SnarkError::ShapeMismatch { what: "relu_upper_endpoint: range LogUp len" });
    }
    absorb_commitment::<P>(sponge, &range.mult_commit);
    absorb_u64(sponge, range.witness_len as u64);
    absorb_u64(sponge, range.table_len as u64);
    let logup_alpha: Fr = squeeze_one(sponge);
    let logup_beta: Fr = squeeze_one(sponge);
    absorb_fr(sponge, logup_alpha);
    absorb_fr(sponge, logup_beta);
    if logup_alpha != range.logup_alpha || logup_beta != range.logup_beta {
        return Err(SnarkError::TranscriptMismatch);
    }
    let lookup_n: usize = if expected_n_vars == 0 {
        0
    } else {
        expected_n_vars - 1
    };
    let table_n: usize = bits - 1;
    match verify_pair(
        &range.lookup_proof,
        &range.table_proof,
        &range.lookup_top,
        &range.table_top,
        lookup_n,
        table_n,
        sponge,
    ) {
        Ok(_) => {},
        Err(e) => {
            return Err(e);
        },
    }
    if !check_tops_cancel(&range.lookup_top, &range.table_top) {
        return Err(SnarkError::LogUpIdentityFailed);
    }
    match hyrax_verify_at::<P>(
        &params.verifier_key,
        &range.mult_commit,
        range.table_proof.bottom_point.as_slice(),
        range.table_proof.bottom_num,
        &range.mult_open,
        range.mult_n_vars,
        sponge,
    ) {
        Ok(true) => {},
        Ok(false) => {
            return Err(
                SnarkError::PcsOpenRejected { which: "relu_upper_endpoint::range_mult" },
            );
        },
        Err(e) => {
            return Err(e);
        },
    }
    match hyrax_verify_at::<P>(
        &params.verifier_key,
        witness_commit,
        range.lookup_proof.bottom_point.as_slice(),
        range.witness_logup_eval,
        &range.witness_logup_open,
        expected_n_vars,
        sponge,
    ) {
        Ok(true) => {},
        Ok(false) => {
            return Err(
                SnarkError::PcsOpenRejected { which: "relu_upper_endpoint::range_witness_logup" },
            );
        },
        Err(e) => {
            return Err(e);
        },
    }
    if range.lookup_proof.bottom_denom != range.witness_logup_eval.sub(logup_beta) {
        return Err(SnarkError::PerTensorRangeWitnessNotBound);
    }
    let canonical_table_eval: Fr = pos_range_mle_eval(range.table_proof.bottom_point.as_slice());
    if range.table_proof.bottom_denom != canonical_table_eval.sub(logup_beta) {
        return Err(
            SnarkError::LogUpTableNotCanonical { which: "relu_upper_endpoint::pos_range_table" },
        );
    }
    Ok(())
}

} // verus!
