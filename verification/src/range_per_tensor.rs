//! The range lookup of a committed tensor: every cell lies in `[-2^k, 2^k)`.

use crate::columns::{
    count_codes, even_vars, lemma_mle_zero_padded, multiplicities, pad_zeros, pow2_i128,
    round_up_even,
};
use crate::errors::{SnarkError, and_also, holds, opened};
use crate::field::{
    Fr, all_in_field, fr_to_signed_i128, fsub, in_field, lemma_view_in_field, modulus, residue,
    signed_of, vals,
};
use crate::logup::{LogUpProof, column_ok, tops_cancel, vals4};
use crate::lookup_laws::law_lookup_cancels;
use crate::lookup_pair::{
    LookupPair, check_tops_cancel, honest_pair, pair_state, pair_verdict, prove_pair, verify_pair,
};
use crate::mle::pow2_usize;
use crate::openings::open_full;
use crate::params::{SnarkParams, tables_fit};
use crate::pcs::{
    CommittedAux, MlPcs, abs_com, absorb_commitment, aux_of, commit_table, hyrax_open_at,
    hyrax_verify_at, lemma_pow2_injective, open_state, open_verdict,
};
use crate::pos_range::lemma_range_column;
use crate::ring::{group_in_field, lemma_residue_id};
use crate::sshape_helpers::lemma_pow2_60;
use crate::table_mle::{
    half_size, identity_value, law_signed_range_table, signed_centered_range_mle_eval,
    signed_range_table,
};
use crate::transcript::{
    abs_fr, abs_u64, absorb_fr, absorb_u64, challenge, challenged, squeeze_one, state_of,
};
use ark_crypto_primitives::sponge::merlin::Transcript;
use vstd::arithmetic::div_mod::{lemma_mod_add_multiples_vanish, lemma_small_mod};
use vstd::arithmetic::power2::{lemma_pow2_strictly_increases, lemma_pow2_unfold, pow2};
use vstd::prelude::*;

verus! {

/// The range proof of one tensor. The tensor's commitment is not part of it.
pub struct TensorRangeProof<P: MlPcs> {
    pub lookup_proof: LogUpProof,
    pub table_proof: LogUpProof,
    pub lookup_top: [Fr; 4],
    pub table_top: [Fr; 4],
    pub alpha: Fr,
    pub lookup_n_vars: usize,
    pub table_n_vars: usize,
    pub witness_len: usize,
    pub table_len: usize,
    /// Opening of the tensor where the lookup's circuit ends.
    pub tensor_open: P::Proof,
    pub tensor_eval: Fr,
    /// The multiplicities, committed before the challenge, and their opening
    /// where the table's circuit ends.
    pub mult_commit: P::Commitment,
    pub mult_open: P::Proof,
    pub mult_n_vars: usize,
}

/// The state before the challenge.
pub open spec fn tr_t1<P: MlPcs>(proof: TensorRangeProof<P>, t0: Seq<u8>) -> Seq<u8> {
    abs_u64(
        abs_u64(abs_com::<P>(t0, proof.mult_commit), proof.witness_len as u64),
        proof.table_len as u64,
    )
}

/// The state after the challenge.
pub open spec fn tr_t2<P: MlPcs>(proof: TensorRangeProof<P>, t0: Seq<u8>) -> Seq<u8> {
    abs_fr(challenged(tr_t1(proof, t0)), proof.alpha@)
}

/// The state after the circuits.
pub open spec fn tr_t3<P: MlPcs>(proof: TensorRangeProof<P>, t0: Seq<u8>) -> Seq<u8> {
    pair_state(
        proof.lookup_proof,
        proof.table_proof,
        proof.lookup_top,
        proof.table_top,
        tr_t2(proof, t0),
    )
}

/// The state after the tensor's opening.
pub open spec fn tr_t4<P: MlPcs>(
    vk: P::VerifierKey,
    proof: TensorRangeProof<P>,
    tensor: P::Commitment,
    n_vars: nat,
    t0: Seq<u8>,
) -> Seq<u8> {
    open_state::<P>(
        vk,
        tensor,
        vals(proof.lookup_proof.bottom_point@),
        proof.tensor_eval@,
        proof.tensor_open,
        n_vars,
        tr_t3(proof, t0),
    )
}

/// The state after the whole check.
#[verifier::opaque]
pub open spec fn tensor_range_state<P: MlPcs>(
    vk: P::VerifierKey,
    proof: TensorRangeProof<P>,
    tensor: P::Commitment,
    n_vars: nat,
    t0: Seq<u8>,
) -> Seq<u8> {
    open_state::<P>(
        vk,
        proof.mult_commit,
        vals(proof.table_proof.bottom_point@),
        proof.table_proof.bottom_num@,
        proof.mult_open,
        proof.mult_n_vars as nat,
        tr_t4(vk, proof, tensor, n_vars, t0),
    )
}

/// The signed range table's value at a point.
pub open spec fn signed_range_value(r: Seq<int>) -> int {
    fsub(identity_value(r), residue(half_size(r.len())))
}

/// The verdict on a tensor's range proof, for a tensor that is committed with
/// `n_vars` variables.
#[verifier::opaque]
pub open spec fn tensor_range_verdict<P: MlPcs>(
    params: SnarkParams<P>,
    proof: TensorRangeProof<P>,
    tensor: P::Commitment,
    n_vars: nat,
    t0: Seq<u8>,
) -> Result<(), SnarkError> {
    let vk = params.verifier_key;
    let hb = params.preprocessed.spec_half_bits();
    let tp = vals(proof.table_proof.bottom_point@);
    and_also(
        holds(
            proof.witness_len == pow2(n_vars),
            SnarkError::ArchitectureMismatch {
                what: "per-tensor range: witness_len does not match tensor_n_vars",
            },
        ),
        and_also(
            holds(
                proof.table_len == pow2(hb + 1) && proof.table_n_vars == hb,
                SnarkError::LogUpTableNotCanonical {
                    which: "per_tensor_range: table_len != 2^(range_table_half_bits + 1)",
                },
            ),
            and_also(
                holds(challenge(tr_t1(proof, t0)) == proof.alpha@, SnarkError::TranscriptMismatch),
                and_also(
                    pair_verdict(
                        proof.lookup_proof,
                        proof.table_proof,
                        proof.lookup_top,
                        proof.table_top,
                        proof.lookup_n_vars as nat,
                        proof.table_n_vars as nat,
                        tr_t2(proof, t0),
                    ),
                    and_also(
                        holds(
                            tops_cancel(vals4(proof.lookup_top), vals4(proof.table_top)),
                            SnarkError::LogUpIdentityFailed,
                        ),
                        and_also(
                            holds(
                                proof.table_proof.bottom_denom@ == fsub(
                                    signed_range_value(tp),
                                    proof.alpha@,
                                ),
                                SnarkError::LogUpTableNotCanonical { which: "per_tensor_range" },
                            ),
                            and_also(
                                opened(
                                    open_verdict::<P>(
                                        vk,
                                        tensor,
                                        vals(proof.lookup_proof.bottom_point@),
                                        proof.tensor_eval@,
                                        proof.tensor_open,
                                        n_vars,
                                        tr_t3(proof, t0),
                                    ),
                                    "per_tensor_range_witness",
                                ),
                                and_also(
                                    holds(
                                        proof.lookup_proof.bottom_denom@ == fsub(
                                            proof.tensor_eval@,
                                            proof.alpha@,
                                        ),
                                        SnarkError::PerTensorRangeWitnessNotBound,
                                    ),
                                    opened(
                                        open_verdict::<P>(
                                            vk,
                                            proof.mult_commit,
                                            tp,
                                            proof.table_proof.bottom_num@,
                                            proof.mult_open,
                                            proof.mult_n_vars as nat,
                                            tr_t4(vk, proof, tensor, n_vars, t0),
                                        ),
                                        "per_tensor_range_mult",
                                    ),
                                ),
                            ),
                        ),
                    ),
                ),
            ),
        ),
    )
}

// ---- The prover ----

/// Where a cell stands in the signed range table; a cell outside its range
/// stands nowhere, which an index below zero says.
pub open spec fn range_index(x: int, half: int) -> i128 {
    match signed_of(x) {
        Some(v) => if -half <= v < half {
            (v + half) as i128
        } else {
            -1i128
        },
        None => -1i128,
    }
}

/// The table indices of the cells of a column.
pub open spec fn range_indices(t: Seq<int>, half: int) -> Seq<i128> {
    Seq::new(t.len(), |i: int| range_index(t[i], half))
}

/// Whether every cell of a column lies in `[-half, half)`.
pub open spec fn cells_in_range(t: Seq<int>, half: int) -> bool {
    forall|i: int| 0 <= i < t.len() ==> range_index(#[trigger] t[i], half) >= 0
}

/// The table indices of the cells of a column.
fn index_cells(t: &Vec<Fr>, half: i128) -> (r: Vec<i128>)
    requires
        0 < half <= 0x1000_0000_0000_0000,
    ensures
        r@ == range_indices(vals(t@), half as int),
{
    let mut out: Vec<i128> = Vec::with_capacity(t.len());
    let mut i: usize = 0;
    while i < t.len()
        invariant
            i <= t@.len(),
            0 < half <= 0x1000_0000_0000_0000,
            out@.len() == i,
            forall|k: int|
                0 <= k < i ==> #[trigger] out@[k] == range_indices(vals(t@), half as int)[k],
        decreases t@.len() - i,
    {
        assert(vals(t@)[i as int] == t@[i as int]@);
        let idx: i128 = match fr_to_signed_i128(t[i]) {
            Some(v) => if v >= -half && v < half {
                v + half
            } else {
                -1
            },
            None => -1,
        };
        out.push(idx);
        i += 1;
    }
    assert(out@ =~= range_indices(vals(t@), half as int));
    out
}

/// A cell in range is the table's entry at its index.
proof fn lemma_range_keys(t: Seq<int>, hb: nat)
    requires
        hb < 60,
        cells_in_range(t, pow2(hb) as int),
        all_in_field(t),
    ensures
        ({
            let idx = range_indices(t, pow2(hb) as int);
            let tab = signed_range_table(hb + 1);
            &&& tab.len() == 2 * pow2(hb)
            &&& forall|i: int| 0 <= i < t.len() ==> 0 <= #[trigger] idx[i] < tab.len()
            &&& forall|i: int| 0 <= i < t.len() ==> #[trigger] t[i] == tab[idx[i] as int]
        }),
{
    lemma_pow2_unfold(hb + 1);
    lemma_pow2_60(hb);
    let half = pow2(hb) as int;
    let idx = range_indices(t, half);
    let tab = signed_range_table(hb + 1);
    assert(half_size(hb + 1) == half);
    assert forall|i: int| 0 <= i < t.len() implies 0 <= #[trigger] idx[i] < tab.len() by {
        assert(range_index(t[i], half) >= 0);
    }
    assert forall|i: int| 0 <= i < t.len() implies #[trigger] t[i] == tab[idx[i] as int] by {
        assert(range_index(t[i], half) >= 0);
        assert(in_field(t[i]));
        let v = signed_of(t[i])->0;
        assert(idx[i] - half == v);
        lemma_residue_of_signed(t[i]);
    }
}

/// A residue is that of the integer it stands for.
proof fn lemma_residue_of_signed(x: int)
    requires
        in_field(x),
        signed_of(x) is Some,
    ensures
        residue(signed_of(x)->0 as int) == x,
{
    let v = signed_of(x)->0 as int;
    if v == x {
        lemma_residue_id(x);
    } else {
        assert(v == x - modulus());
        reveal(residue);
        lemma_mod_add_multiples_vanish(v, modulus());
        lemma_small_mod(x as nat, modulus() as nat);
    }
}

/// Whether the prover is owed success: the tensor is the committed one, its
/// cells are in range, and the multiplicities can be committed.
pub open spec fn tensor_range_provable<P: MlPcs>(
    params: SnarkParams<P>,
    aux: CommittedAux<P>,
    tensor: P::Commitment,
    n_vars: nat,
) -> bool {
    let hb = params.preprocessed.spec_half_bits();
    &&& n_vars >= 1
    &&& aux.table@.len() == pow2(n_vars)
    &&& aux_of(params.committer_key, tensor, aux)
    &&& cells_in_range(vals(aux.table@), pow2(hb) as int)
    &&& P::can_commit(params.committer_key, pow2(even_vars(hb + 1)))
}

/// Prove that every cell of a committed tensor is in range.
pub fn prove_tensor_range_logup<P: MlPcs>(
    tensor_aux: &CommittedAux<P>,
    tensor_commit: &P::Commitment,
    params: &SnarkParams<P>,
    sponge: &mut Transcript,
    rng: &mut P::Randomness,
) -> (r: Result<TensorRangeProof<P>, SnarkError>)
    requires
        tables_fit(*params),
    ensures
        r is Ok ==> column_ok(tensor_aux.table@.len()) && P::can_commit(
            params.committer_key,
            pow2(even_vars(params.preprocessed.spec_half_bits() + 1)),
        ),
        r matches Ok(proof) ==> {
            let t0 = state_of(*old(sponge));
            let hb = params.preprocessed.spec_half_bits();
            &&& proof.witness_len == tensor_aux.table@.len()
            &&& proof.table_len == pow2(hb + 1)
            &&& proof.alpha@ == challenge(tr_t1(proof, t0))
            &&& honest_pair(
                LookupPair {
                    lookup_proof: proof.lookup_proof,
                    table_proof: proof.table_proof,
                    lookup_top: proof.lookup_top,
                    table_top: proof.table_top,
                },
                vals(tensor_aux.table@),
                signed_range_table(hb + 1),
                multiplicities(
                    range_indices(vals(tensor_aux.table@), pow2(hb) as int),
                    pow2(hb + 1),
                ),
                proof.alpha@,
                tr_t2(proof, t0),
            )
        },
        forall|n_vars: nat| #[trigger]
            tensor_range_provable(*params, *tensor_aux, *tensor_commit, n_vars)
                && params.keys_match() ==> {
                &&& r matches Ok(proof)
                &&& tensor_range_verdict(
                    *params,
                    proof,
                    *tensor_commit,
                    n_vars,
                    state_of(*old(sponge)),
                ) == Ok::<(), SnarkError>(())
                &&& state_of(*final(sponge)) == tensor_range_state(
                    params.verifier_key,
                    proof,
                    *tensor_commit,
                    n_vars,
                    state_of(*old(sponge)),
                )
            },
{
    let ghost t0 = state_of(*sponge);
    let witness: &Vec<Fr> = &tensor_aux.table;
    let ghost wv = vals(witness@);
    assert(wv.len() == witness@.len());
    let hb: usize = params.range_table_half_bits();
    proof {
        lemma_pow2_60(hb as nat);
    }
    let half: i128 = pow2_i128(hb);
    let table: &Vec<Fr> = params.preprocessed.range_table();
    assert(vals(table@).len() == table@.len());
    let table_len: usize = table.len();
    let idx: Vec<i128> = index_cells(witness, half);
    let mults: Vec<Fr> = count_codes(idx.as_slice(), table_len);
    assert(vals(mults@).len() == mults@.len());
    let mult_n_vars: usize = round_up_even(hb + 1);
    proof {
        if hb + 1 < mult_n_vars {
            lemma_pow2_strictly_increases((hb + 1) as nat, mult_n_vars as nat);
        }
    }
    let mults_padded: Vec<Fr> = pad_zeros(mults.as_slice(), pow2_usize(mult_n_vars));
    let (mult_commit, mult_aux): (P::Commitment, CommittedAux<P>) = match commit_table::<P>(
        &params.committer_key,
        mults_padded,
        rng,
    ) {
        Ok(c) => c,
        Err(e) => {
            return Err(e);
        },
    };
    absorb_commitment::<P>(sponge, &mult_commit);
    let witness_len: usize = witness.len();
    absorb_u64(sponge, witness_len as u64);
    absorb_u64(sponge, table_len as u64);
    let alpha: Fr = squeeze_one(sponge);
    absorb_fr(sponge, alpha);
    proof {
        lemma_range_column((hb + 1) as nat);
        assert forall|n: nat| #[trigger]
            tensor_range_provable(*params, *tensor_aux, *tensor_commit, n) implies column_ok(
            witness@.len(),
        ) by {
            lemma_range_column(n);
        }
    }
    let pair: LookupPair = match prove_pair(
        witness.as_slice(),
        table.as_slice(),
        mults.as_slice(),
        alpha,
        sponge,
    ) {
        Ok(p) => p,
        Err(e) => {
            return Err(e);
        },
    };
    let ghost tp = vals(pair.table_proof.bottom_point@);
    let ghost lp = vals(pair.lookup_proof.bottom_point@);
    proof {
        broadcast use lemma_view_in_field, group_in_field;

        lemma_pow2_injective(tp.len(), (hb + 1) as nat);
        lemma_mle_zero_padded(vals(mults@), tp, mult_n_vars as nat);
        law_signed_range_table(tp);
        if cells_in_range(wv, pow2(hb as nat) as int) {
            lemma_range_keys(wv, hb as nat);
            law_lookup_cancels(
                wv,
                signed_range_table((hb + 1) as nat),
                idx@,
                alpha@,
                lp.len(),
                (hb + 1) as nat,
            );
        }
    }
    let (tensor_eval, tensor_open): (Fr, P::Proof) = match open_full::<P>(
        &params.committer_key,
        tensor_aux,
        tensor_commit,
        pair.lookup_proof.bottom_point.as_slice(),
        sponge,
        rng,
    ) {
        Ok(x) => x,
        Err(e) => {
            return Err(e);
        },
    };
    let (mult_eval, mult_open): (Fr, P::Proof) = match hyrax_open_at::<P>(
        &params.committer_key,
        &mult_aux,
        &mult_commit,
        pair.table_proof.bottom_point.as_slice(),
        sponge,
        rng,
    ) {
        Ok(x) => x,
        Err(e) => {
            return Err(e);
        },
    };
    assert(mult_eval@ == pair.table_proof.bottom_num@);
    let lookup_n_vars: usize = pair.lookup_proof.layers.len();
    let table_n_vars: usize = pair.table_proof.layers.len();
    let proof: TensorRangeProof<P> = TensorRangeProof {
        lookup_proof: pair.lookup_proof,
        table_proof: pair.table_proof,
        lookup_top: pair.lookup_top,
        table_top: pair.table_top,
        alpha,
        lookup_n_vars,
        table_n_vars,
        witness_len,
        table_len,
        tensor_open,
        tensor_eval,
        mult_commit,
        mult_open,
        mult_n_vars,
    };
    proof {
        reveal(tensor_range_verdict);
        reveal(tensor_range_state);
        assert forall|n: nat| #[trigger]
            tensor_range_provable(*params, *tensor_aux, *tensor_commit, n)
                && params.keys_match() implies {
            &&& tensor_range_verdict(*params, proof, *tensor_commit, n, t0) == Ok::<
                (),
                SnarkError,
            >(())
            &&& state_of(*sponge) == tensor_range_state(
                params.verifier_key,
                proof,
                *tensor_commit,
                n,
                t0,
            )
        } by {
            lemma_pow2_injective(lp.len(), n);
            assert(lp.len() == n);
        }
    }
    Ok(proof)
}

/// Verify a tensor's range proof against its commitment.
pub fn verify_tensor_range_logup<P: MlPcs>(
    proof: &TensorRangeProof<P>,
    tensor_commit: &P::Commitment,
    tensor_n_vars: usize,
    params: &SnarkParams<P>,
    sponge: &mut Transcript,
) -> (r: Result<(), SnarkError>)
    requires
        pow2(tensor_n_vars as nat) <= usize::MAX,
    ensures
        r == tensor_range_verdict(
            *params,
            *proof,
            *tensor_commit,
            tensor_n_vars as nat,
            state_of(*old(sponge)),
        ),
        proof.witness_len != pow2(tensor_n_vars as nat) || proof.table_len != pow2(
            params.preprocessed.spec_half_bits() + 1,
        ) || proof.table_n_vars != params.preprocessed.spec_half_bits() ==> state_of(
            *final(sponge),
        ) == state_of(*old(sponge)),
        r is Ok ==> state_of(*final(sponge)) == tensor_range_state(
            params.verifier_key,
            *proof,
            *tensor_commit,
            tensor_n_vars as nat,
            state_of(*old(sponge)),
        ),
{
    proof {
        reveal(tensor_range_verdict);
        reveal(tensor_range_state);
    }
    if proof.witness_len != pow2_usize(tensor_n_vars) {
        return Err(
            SnarkError::ArchitectureMismatch {
                what: "per-tensor range: witness_len does not match tensor_n_vars",
            },
        );
    }
    let hb: usize = params.range_table_half_bits();
    let expected_table_len: usize = pow2_usize(hb + 1);
    if proof.table_len != expected_table_len || proof.table_n_vars != hb {
        return Err(
            SnarkError::LogUpTableNotCanonical {
                which: "per_tensor_range: table_len != 2^(range_table_half_bits + 1)",
            },
        );
    }
    absorb_commitment::<P>(sponge, &proof.mult_commit);
    absorb_u64(sponge, proof.witness_len as u64);
    absorb_u64(sponge, proof.table_len as u64);
    let alpha_check: Fr = squeeze_one(sponge);
    if alpha_check != proof.alpha {
        return Err(SnarkError::TranscriptMismatch);
    }
    absorb_fr(sponge, proof.alpha);
    match verify_pair(
        &proof.lookup_proof,
        &proof.table_proof,
        &proof.lookup_top,
        &proof.table_top,
        proof.lookup_n_vars,
        proof.table_n_vars,
        sponge,
    ) {
        Ok(_) => {},
        Err(e) => {
            return Err(e);
        },
    }
    if !check_tops_cancel(&proof.lookup_top, &proof.table_top) {
        return Err(SnarkError::LogUpIdentityFailed);
    }
    let canonical: Fr = signed_centered_range_mle_eval(proof.table_proof.bottom_point.as_slice());
    if proof.table_proof.bottom_denom != canonical.sub(proof.alpha) {
        return Err(SnarkError::LogUpTableNotCanonical { which: "per_tensor_range" });
    }
    match hyrax_verify_at::<P>(
        &params.verifier_key,
        tensor_commit,
        proof.lookup_proof.bottom_point.as_slice(),
        proof.tensor_eval,
        &proof.tensor_open,
        tensor_n_vars,
        sponge,
    ) {
        Ok(true) => {},
        Ok(false) => {
            return Err(SnarkError::PcsOpenRejected { which: "per_tensor_range_witness" });
        },
        Err(e) => {
            return Err(e);
        },
    }
    if proof.lookup_proof.bottom_denom != proof.tensor_eval.sub(proof.alpha) {
        return Err(SnarkError::PerTensorRangeWitnessNotBound);
    }
    match hyrax_verify_at::<P>(
        &params.verifier_key,
        &proof.mult_commit,
        proof.table_proof.bottom_point.as_slice(),
        proof.table_proof.bottom_num,
        &proof.mult_open,
        proof.mult_n_vars,
        sponge,
    ) {
        Ok(true) => {},
        Ok(false) => {
            return Err(SnarkError::PcsOpenRejected { which: "per_tensor_range_mult" });
        },
        Err(e) => {
            return Err(e);
        },
    }
    Ok(())
}

} // verus!
