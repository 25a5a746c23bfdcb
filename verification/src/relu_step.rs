//! The lookup that proves `A_pos = ReLU(A)` for a pair of matrices.
//!
//! Every cell's pair is combined into `alpha A + A_pos` and looked up in the
//! table of all pairs `(x, ReLU(x))`; the columns are bound to the committed
//! matrices by one joint opening.

use crate::columns::{
    count_codes, even_vars, lemma_mle_zero_padded, lifted_codes, multiplicities, pad_zeros,
    pow2_i128, round_up_even,
};
use crate::errors::{SnarkError, and_also, holds, opened};
use crate::field::{Fr, fadd, fmul, fsub, lemma_view_in_field, signed_lift_to_fr, vals};
use crate::logup::{LogUpProof, tops_cancel, vals4};
use crate::lookup_laws::law_lookup_cancels;
use crate::lookup_pair::{
    LookupPair, check_tops_cancel, honest_pair, pair_state, pair_verdict, prove_pair, verify_pair,
};
use crate::mle::{ceil_log2, log2_exact, mle, next_pow2_log, pow2_usize};
use crate::mle_laws::{combined, law_mle_linear, law_mle_padded};
use crate::params::{SnarkParams, tables_fit};
use crate::pcs::{
    BatchOpenSpec, BatchVerifySpec, CommittedAux, MlPcs, abs_com, absorb_commitment, aux_of,
    batch_coms, batch_open_state, batch_open_verdict, batch_values, commit_table, hyrax_open_at,
    hyrax_open_batched_at, hyrax_verify_at, hyrax_verify_batched_at, lemma_pow2_injective,
    mle_padded, open_state, open_verdict,
};
use crate::pos_range::lemma_range_column;
use crate::qarray::{
    CodeMatrix, cell_count, committed_table, lemma_matrix_fits, lemma_matrix_front,
    lemma_matrix_table, matrix_fits, matrix_rows, matrix_width, padded_cells, padded_codes,
};
use crate::ring::group_in_field;
use crate::shapes::matrix_vars;
use crate::sshape_helpers::lemma_pow2_60;
use crate::table_mle::{half_size, law_relu_table, relu_table, relu_table_mle_eval, relu_value};
use crate::transcript::{
    abs_fr, abs_u64, absorb_fr, absorb_u64, challenge, challenged, squeeze_one, state_of,
};
use ark_crypto_primitives::sponge::merlin::Transcript;
use vstd::arithmetic::power2::{lemma_pow2_strictly_increases, lemma_pow2_unfold, pow2};
use vstd::prelude::*;

verus! {

/// The lookup proof of one step.
pub struct ReluStepProof<P: MlPcs> {
    pub combine_alpha: Fr,
    pub lookup_proof: LogUpProof,
    pub table_proof: LogUpProof,
    pub lookup_top: [Fr; 4],
    pub table_top: [Fr; 4],
    pub logup_beta: Fr,
    pub lookup_n_vars: usize,
    pub table_n_vars: usize,
    pub witness_len: usize,
    pub table_len: usize,
    /// Joint opening of `(A, A_pos)` where the lookup's circuit ends.
    pub a_batched_open: P::Proof,
    pub a_eval_at_r: Fr,
    pub a_pos_eval_at_r: Fr,
    pub mult_commit: P::Commitment,
    pub mult_open: P::Proof,
    pub mult_n_vars: usize,
}

/// The state before the second challenge.
pub open spec fn rs_t1<P: MlPcs>(proof: ReluStepProof<P>, n_padded: u64, t0: Seq<u8>) -> Seq<u8> {
    abs_u64(
        abs_u64(
            abs_com::<P>(challenged(abs_u64(t0, n_padded)), proof.mult_commit),
            proof.witness_len as u64,
        ),
        proof.table_len as u64,
    )
}

/// The second challenge.
pub open spec fn rs_beta<P: MlPcs>(proof: ReluStepProof<P>, n_padded: u64, t0: Seq<u8>) -> int {
    challenge(rs_t1(proof, n_padded, t0))
}

/// The state after the challenges.
pub open spec fn rs_t2<P: MlPcs>(proof: ReluStepProof<P>, n_padded: u64, t0: Seq<u8>) -> Seq<u8> {
    abs_fr(challenged(rs_t1(proof, n_padded, t0)), rs_beta(proof, n_padded, t0))
}

/// The state after the two circuits.
pub open spec fn rs_t3<P: MlPcs>(proof: ReluStepProof<P>, n_padded: u64, t0: Seq<u8>) -> Seq<u8> {
    pair_state(
        proof.lookup_proof,
        proof.table_proof,
        proof.lookup_top,
        proof.table_top,
        rs_t2(proof, n_padded, t0),
    )
}

/// The state after the opening of the matrices.
pub open spec fn rs_t4<P: MlPcs>(
    vk: P::VerifierKey,
    proof: ReluStepProof<P>,
    a: P::Commitment,
    a_pos: P::Commitment,
    n_padded: u64,
    commit_n_vars: nat,
    t0: Seq<u8>,
) -> Seq<u8> {
    batch_open_state::<P>(
        vk,
        seq![a, a_pos],
        seq![proof.a_eval_at_r@, proof.a_pos_eval_at_r@],
        vals(proof.lookup_proof.bottom_point@),
        proof.a_batched_open,
        commit_n_vars,
        rs_t3(proof, n_padded, t0),
    )
}

/// The state after the whole check.
#[verifier::opaque]
pub open spec fn relu_step_state<P: MlPcs>(
    vk: P::VerifierKey,
    proof: ReluStepProof<P>,
    a: P::Commitment,
    a_pos: P::Commitment,
    n_padded: u64,
    commit_n_vars: nat,
    t0: Seq<u8>,
) -> Seq<u8> {
    open_state::<P>(
        vk,
        proof.mult_commit,
        vals(proof.table_proof.bottom_point@),
        proof.table_proof.bottom_num@,
        proof.mult_open,
        proof.mult_n_vars as nat,
        rs_t4(vk, proof, a, a_pos, n_padded, commit_n_vars, t0),
    )
}

/// The verdict on a step's proof, for matrices of `n_padded` padded cells that
/// are committed with `commit_n_vars` variables.
#[verifier::opaque]
pub open spec fn relu_step_verdict<P: MlPcs>(
    params: SnarkParams<P>,
    proof: ReluStepProof<P>,
    a: P::Commitment,
    a_pos: P::Commitment,
    n_padded: u64,
    commit_n_vars: nat,
    t0: Seq<u8>,
) -> Result<(), SnarkError> {
    let vk = params.verifier_key;
    let hb = params.preprocessed.spec_half_bits();
    let alpha = challenge(abs_u64(t0, n_padded));
    let beta = rs_beta(proof, n_padded, t0);
    let tp = vals(proof.table_proof.bottom_point@);
    and_also(
        holds(alpha == proof.combine_alpha@, SnarkError::TranscriptMismatch),
        and_also(
            holds(
                proof.table_len == pow2(hb + 1) && proof.table_n_vars == hb,
                SnarkError::LogUpTableNotCanonical {
                    which: "relu_table: table_len != 2^(range_table_half_bits + 1)",
                },
            ),
            and_also(
                holds(beta == proof.logup_beta@, SnarkError::TranscriptMismatch),
                and_also(
                    pair_verdict(
                        proof.lookup_proof,
                        proof.table_proof,
                        proof.lookup_top,
                        proof.table_top,
                        proof.lookup_n_vars as nat,
                        proof.table_n_vars as nat,
                        rs_t2(proof, n_padded, t0),
                    ),
                    and_also(
                        holds(
                            proof.table_proof.bottom_denom@ == fsub(relu_value(tp, alpha), beta),
                            SnarkError::LogUpTableNotCanonical { which: "relu_table" },
                        ),
                        and_also(
                            holds(
                                tops_cancel(vals4(proof.lookup_top), vals4(proof.table_top)),
                                SnarkError::ReluLookupIdentityFailed,
                            ),
                            and_also(
                                opened(
                                    batch_open_verdict::<P>(
                                        vk,
                                        seq![a, a_pos],
                                        seq![proof.a_eval_at_r@, proof.a_pos_eval_at_r@],
                                        vals(proof.lookup_proof.bottom_point@),
                                        proof.a_batched_open,
                                        commit_n_vars,
                                        rs_t3(proof, n_padded, t0),
                                    ),
                                    "relu_A_A_pos_batch",
                                ),
                                and_also(
                                    holds(
                                        proof.lookup_proof.bottom_denom@ == fsub(
                                            fadd(
                                                fmul(alpha, proof.a_eval_at_r@),
                                                proof.a_pos_eval_at_r@,
                                            ),
                                            beta,
                                        ),
                                        SnarkError::ReluLookupBindingFailed,
                                    ),
                                    opened(
                                        open_verdict::<P>(
                                            vk,
                                            proof.mult_commit,
                                            tp,
                                            proof.table_proof.bottom_num@,
                                            proof.mult_open,
                                            proof.mult_n_vars as nat,
                                            rs_t4(
                                                vk,
                                                proof,
                                                a,
                                                a_pos,
                                                n_padded,
                                                commit_n_vars,
                                                t0,
                                            ),
                                        ),
                                        "relu_lookup_mult",
                                    ),
                                ),
                            ),
                        ),
                    ),
                ),
            ),
        ),
    )
}

// ---- The witness ----

/// The indices of codes; codes outside the table's domain are dropped, by an
/// index below zero.
pub open spec fn counted_indices(codes: Seq<i128>, half: int) -> Seq<i128> {
    Seq::new(
        codes.len(),
        |i: int|
            if -half <= codes[i] < half {
                (codes[i] + half) as i128
            } else {
                -1i128
            },
    )
}

/// The ReLU of an integer.
pub open spec fn relu_of(x: int) -> int {
    if x > 0 {
        x
    } else {
        0
    }
}

/// Whether a pair of matrices is a matrix in the table's domain and its ReLU.
pub open spec fn is_relu_pair(a: Seq<i128>, a_pos: Seq<i128>, half: int) -> bool {
    &&& a.len() == a_pos.len()
    &&& forall|i: int|
        0 <= i < a.len() ==> -half <= #[trigger] a[i] < half && a_pos[i] == relu_of(a[i] as int)
}

/// The combined witness of two padded matrices, and the table indices of the
/// first.
fn build_relu_witness_padded(
    a: &CodeMatrix,
    a_pos: &CodeMatrix,
    half: i128,
    alpha: Fr,
) -> (r: (Vec<Fr>, Vec<i128>))
    requires
        matrix_fits(*a),
        matrix_rows(*a_pos).len() == matrix_rows(*a).len(),
        matrix_width(*a_pos) == matrix_width(*a),
        0 < half <= 0x1000_0000_0000_0000,
    ensures
        vals(r.0@) == combined(
            alpha@,
            lifted_codes(padded_cells(*a)),
            lifted_codes(padded_cells(*a_pos)),
        ),
        r.1@ == counted_indices(padded_cells(*a), half as int),
        r.0@.len() == padded_cells(*a).len(),
{
    proof {
        lemma_matrix_fits(*a);
    }
    let log_rows: usize = next_pow2_log(a.nrows());
    let log_cols: usize = next_pow2_log(a.ncols());
    let len: usize = pow2_usize(log_rows + log_cols);
    let a_codes: Vec<i128> = padded_codes(a, log_cols, len);
    let p_codes: Vec<i128> = padded_codes(a_pos, log_cols, len);
    let ghost av = lifted_codes(a_codes@);
    let ghost pv = lifted_codes(p_codes@);
    let mut witness: Vec<Fr> = Vec::with_capacity(len);
    let mut idx: Vec<i128> = Vec::with_capacity(len);
    let mut k: usize = 0;
    while k < len
        invariant
            k <= len,
            a_codes@.len() == len,
            p_codes@.len() == len,
            av == lifted_codes(a_codes@),
            pv == lifted_codes(p_codes@),
            0 < half <= 0x1000_0000_0000_0000,
            witness@.len() == k,
            idx@.len() == k,
            forall|q: int| 0 <= q < k ==> (#[trigger] witness@[q])@ == combined(alpha@, av, pv)[q],
            forall|q: int|
                0 <= q < k ==> #[trigger] idx@[q] == counted_indices(a_codes@, half as int)[q],
        decreases len - k,
    {
        let a_v: i128 = a_codes[k];
        witness.push(alpha.mul(signed_lift_to_fr(a_v)).add(signed_lift_to_fr(p_codes[k])));
        if a_v >= -half && a_v < half {
            idx.push(a_v + half);
        } else {
            idx.push(-1);
        }
        k += 1;
    }
    assert(vals(witness@) =~= combined(alpha@, av, pv));
    assert(idx@ =~= counted_indices(a_codes@, half as int));
    (witness, idx)
}

/// Whether the prover is owed success: the matrices are a ReLU pair and the
/// committed ones, and the multiplicities can be committed.
pub open spec fn relu_step_provable<P: MlPcs>(
    params: SnarkParams<P>,
    a: CodeMatrix,
    a_pos: CodeMatrix,
    a_aux: CommittedAux<P>,
    a_com: P::Commitment,
    a_pos_aux: CommittedAux<P>,
    a_pos_com: P::Commitment,
) -> bool {
    let ck = params.committer_key;
    let hb = params.preprocessed.spec_half_bits();
    &&& matrix_rows(a_pos).len() == matrix_rows(a).len()
    &&& matrix_width(a_pos) == matrix_width(a)
    &&& ceil_log2(matrix_rows(a).len()) + ceil_log2(matrix_width(a)) >= 1
    &&& is_relu_pair(padded_cells(a), padded_cells(a_pos), pow2(hb) as int)
    &&& vals(a_aux.table@) == committed_table(a)
    &&& vals(a_pos_aux.table@) == committed_table(a_pos)
    &&& aux_of(ck, a_com, a_aux)
    &&& aux_of(ck, a_pos_com, a_pos_aux)
    &&& P::can_commit(ck, pow2(even_vars(hb + 1)))
}

/// A ReLU pair's keys are the table's at the first matrix's indices.
proof fn lemma_relu_keys(a: Seq<i128>, a_pos: Seq<i128>, hb: nat, alpha: int)
    requires
        hb < 60,
        is_relu_pair(a, a_pos, pow2(hb) as int),
    ensures
        ({
            let idx = counted_indices(a, pow2(hb) as int);
            let w = combined(alpha, lifted_codes(a), lifted_codes(a_pos));
            let t = relu_table(hb + 1, alpha);
            &&& t.len() == 2 * pow2(hb)
            &&& forall|i: int| 0 <= i < a.len() ==> 0 <= #[trigger] idx[i] < t.len()
            &&& forall|i: int| 0 <= i < a.len() ==> #[trigger] w[i] == t[idx[i] as int]
        }),
{
    lemma_pow2_unfold(hb + 1);
    lemma_pow2_60(hb);
    let half = pow2(hb) as int;
    let idx = counted_indices(a, half);
    let w = combined(alpha, lifted_codes(a), lifted_codes(a_pos));
    let t = relu_table(hb + 1, alpha);
    assert(half_size(hb + 1) == half);
    assert forall|i: int| 0 <= i < a.len() implies 0 <= #[trigger] idx[i] < t.len() by {
        assert(-half <= a[i] < half);
    }
    assert forall|i: int| 0 <= i < a.len() implies #[trigger] w[i] == t[idx[i] as int] by {
        assert(-half <= a[i] < half);
        assert(idx[i] == a[i] + half);
    }
}

/// The value of a committed matrix at a point of its natural variables.
pub proof fn lemma_committed_value(m: CodeMatrix, p: Seq<int>)
    requires
        p.len() == ceil_log2(matrix_rows(m).len()) + ceil_log2(matrix_width(m)),
    ensures
        mle_padded(
            committed_table(m),
            p,
            matrix_vars(matrix_rows(m).len(), matrix_width(m)),
        ) == mle(lifted_codes(padded_cells(m)), p),
        committed_table(m).len() == pow2(matrix_vars(matrix_rows(m).len(), matrix_width(m))),
        p.len() <= matrix_vars(matrix_rows(m).len(), matrix_width(m)),
{
    broadcast use group_in_field;

    let (h, w) = (matrix_rows(m).len(), matrix_width(m));
    let n = matrix_vars(h, w);
    let t = committed_table(m);
    if p.len() < n {
        lemma_pow2_strictly_increases(p.len(), n);
    }
    law_mle_padded(t, p, n);
    lemma_matrix_front(matrix_rows(m), w, ceil_log2(w), pow2(p.len()), pow2(n));
    lemma_matrix_table(matrix_rows(m), w, ceil_log2(w), pow2(p.len()));
}

/// Prove `A_pos = ReLU(A)` for one pair of matrices.
pub fn prove_relu_step<P: MlPcs>(
    a_codes: &CodeMatrix,
    a_pos_codes: &CodeMatrix,
    a_aux: &CommittedAux<P>,
    a_commitment: &P::Commitment,
    a_pos_aux: &CommittedAux<P>,
    a_pos_commitment: &P::Commitment,
    params: &SnarkParams<P>,
    sponge: &mut Transcript,
    rng: &mut P::Randomness,
) -> (r: Result<ReluStepProof<P>, SnarkError>)
    requires
        matrix_fits(*a_codes),
        tables_fit(*params),
    ensures
        !(matrix_rows(*a_pos_codes).len() == matrix_rows(*a_codes).len() && matrix_width(
            *a_pos_codes,
        ) == matrix_width(*a_codes)) ==> r == Err::<ReluStepProof<P>, SnarkError>(
            SnarkError::ShapeMismatch { what: "ReLU-lookup: A vs A_pos shape" },
        ),
        relu_step_provable(
            *params,
            *a_codes,
            *a_pos_codes,
            *a_aux,
            *a_commitment,
            *a_pos_aux,
            *a_pos_commitment,
        ) && params.keys_match() ==> {
            let nv = matrix_vars(matrix_rows(*a_codes).len(), matrix_width(*a_codes));
            let np = cell_count(*a_codes) as u64;
            &&& r matches Ok(proof)
            &&& relu_step_verdict(
                *params,
                proof,
                *a_commitment,
                *a_pos_commitment,
                np,
                nv,
                state_of(*old(sponge)),
            ) == Ok::<(), SnarkError>(())
            &&& state_of(*final(sponge)) == relu_step_state(
                params.verifier_key,
                proof,
                *a_commitment,
                *a_pos_commitment,
                np,
                nv,
                state_of(*old(sponge)),
            )
        },
        r matches Ok(proof) ==> {
            let t0 = state_of(*old(sponge));
            let np = cell_count(*a_codes) as u64;
            let hb = params.preprocessed.spec_half_bits();
            &&& proof.combine_alpha@ == challenge(abs_u64(t0, np))
            &&& proof.logup_beta@ == rs_beta(proof, np, t0)
            &&& proof.witness_len == cell_count(*a_codes)
            &&& proof.table_len == pow2(hb + 1)
            &&& honest_pair(
                LookupPair {
                    lookup_proof: proof.lookup_proof,
                    table_proof: proof.table_proof,
                    lookup_top: proof.lookup_top,
                    table_top: proof.table_top,
                },
                combined(
                    proof.combine_alpha@,
                    lifted_codes(padded_cells(*a_codes)),
                    lifted_codes(padded_cells(*a_pos_codes)),
                ),
                relu_table(hb + 1, proof.combine_alpha@),
                multiplicities(
                    counted_indices(padded_cells(*a_codes), pow2(hb) as int),
                    pow2(hb + 1),
                ),
                proof.logup_beta@,
                rs_t2(proof, np, t0),
            )
        },
{
    proof {
        reveal(relu_step_verdict);
        reveal(relu_step_state);
        lemma_matrix_fits(*a_codes);
    }
    let rows: usize = a_codes.nrows();
    let cols: usize = a_codes.ncols();
    if a_pos_codes.nrows() != rows || a_pos_codes.ncols() != cols {
        return Err(SnarkError::ShapeMismatch { what: "ReLU-lookup: A vs A_pos shape" });
    }
    let ghost t0 = state_of(*sponge);
    let log_rows: usize = next_pow2_log(rows);
    let log_cols: usize = next_pow2_log(cols);
    let n_padded: usize = pow2_usize(log_rows + log_cols);
    absorb_u64(sponge, n_padded as u64);
    let combine_alpha: Fr = squeeze_one(sponge);
    let hb: usize = params.range_table_half_bits();
    proof {
        lemma_pow2_60(hb as nat);
    }
    let half: i128 = pow2_i128(hb);
    let (witness, idx): (Vec<Fr>, Vec<i128>) = build_relu_witness_padded(
        a_codes,
        a_pos_codes,
        half,
        combine_alpha,
    );
    let table: Vec<Fr> = params.preprocessed.relu_table_at(combine_alpha);
    let table_len: usize = table.len();
    let mults: Vec<Fr> = count_codes(idx.as_slice(), table_len);
    assert(vals(mults@).len() == mults@.len());
    let ghost mv = multiplicities(idx@, pow2((hb + 1) as nat));
    let mult_n_vars: usize = round_up_even(hb + 1);
    let mult_padded_len: usize = pow2_usize(mult_n_vars);
    proof {
        if hb + 1 < mult_n_vars {
            lemma_pow2_strictly_increases((hb + 1) as nat, mult_n_vars as nat);
        }
    }
    let mults_padded: Vec<Fr> = pad_zeros(mults.as_slice(), mult_padded_len);
    let (mult_commit, mult_aux): (P::Commitment, CommittedAux<P>) = match commit_table::<P>(
        &params.committer_key,
        mults_padded,
        rng,
    ) {
        Ok(c) => c,
        Err(e) => {
            return Err(e);
        },
    };
    absorb_commitment::<P>(sponge, &mult_commit);
    let witness_len: usize = witness.len();
    absorb_u64(sponge, witness_len as u64);
    absorb_u64(sponge, table_len as u64);
    let logup_beta: Fr = squeeze_one(sponge);
    absorb_fr(sponge, logup_beta);
    proof {
        lemma_range_column((hb + 1) as nat);
        if log_rows + log_cols >= 1 {
            lemma_range_column((log_rows + log_cols) as nat);
        }
    }
    let pair: LookupPair = match prove_pair(
        witness.as_slice(),
        table.as_slice(),
        mults.as_slice(),
        logup_beta,
        sponge,
    ) {
        Ok(p) => p,
        Err(e) => {
            return Err(e);
        },
    };
    let ghost provable = relu_step_provable(
        *params,
        *a_codes,
        *a_pos_codes,
        *a_aux,
        *a_commitment,
        *a_pos_aux,
        *a_pos_commitment,
    ) && params.keys_match();
    let ghost tp = vals(pair.table_proof.bottom_point@);
    let ghost lp = vals(pair.lookup_proof.bottom_point@);
    let ghost av = lifted_codes(padded_cells(*a_codes));
    let ghost pv = lifted_codes(padded_cells(*a_pos_codes));
    let ghost nv = matrix_vars(rows as nat, cols as nat);
    proof {
        broadcast use lemma_view_in_field, group_in_field;

        lemma_pow2_injective(tp.len(), (hb + 1) as nat);
        lemma_pow2_injective(lp.len(), (log_rows + log_cols) as nat);
        lemma_mle_zero_padded(vals(mults@), tp, mult_n_vars as nat);
        law_relu_table(tp, combine_alpha@);
        law_mle_linear(combine_alpha@, av, pv, lp);
        lemma_committed_value(*a_codes, lp);
        lemma_committed_value(*a_pos_codes, lp);
        if provable {
            lemma_relu_keys(
                padded_cells(*a_codes),
                padded_cells(*a_pos_codes),
                hb as nat,
                combine_alpha@,
            );
            law_lookup_cancels(
                combined(combine_alpha@, av, pv),
                relu_table((hb + 1) as nat, combine_alpha@),
                idx@,
                logup_beta@,
                lp.len(),
                (hb + 1) as nat,
            );
            assert(vals(a_aux.table@).len() == a_aux.table@.len());
            assert(vals(a_pos_aux.table@).len() == a_pos_aux.table@.len());
        }
    }
    let a_n_vars: usize = match log2_exact(a_aux.table.len()) {
        Some(n) => n,
        None => {
            return Err(
                SnarkError::ShapeMismatch {
                    what: "hyrax_open_batched_at: aux MLE length must be a non-zero power of two",
                },
            );
        },
    };
    proof {
        lemma_pow2_injective(a_n_vars as nat, nv);
    }
    let mut items: Vec<BatchOpenSpec<'_, P>> = Vec::with_capacity(2);
    items.push(BatchOpenSpec { aux: a_aux, commitment: a_commitment, commit_n_vars: a_n_vars });
    items.push(
        BatchOpenSpec { aux: a_pos_aux, commitment: a_pos_commitment, commit_n_vars: a_n_vars },
    );
    assert(Seq::new(items@.len(), |i: int| *items@[i].commitment) =~= seq![
        *a_commitment,
        *a_pos_commitment,
    ]);
    let (evals, a_batched_open): (Vec<Fr>, P::Proof) = match hyrax_open_batched_at::<P>(
        &params.committer_key,
        &items,
        pair.lookup_proof.bottom_point.as_slice(),
        sponge,
        rng,
    ) {
        Ok(x) => x,
        Err(e) => {
            return Err(e);
        },
    };
    let a_eval_at_r: Fr = evals[0];
    let a_pos_eval_at_r: Fr = evals[1];
    proof {
        assert(vals(evals@) =~= seq![a_eval_at_r@, a_pos_eval_at_r@]);
        assert(vals(evals@)[0] == a_eval_at_r@ && vals(evals@)[1] == a_pos_eval_at_r@);
    }
    let (mult_eval, mult_open): (Fr, P::Proof) = match hyrax_open_at::<P>(
        &params.committer_key,
        &mult_aux,
        &mult_commit,
        pair.table_proof.bottom_point.as_slice(),
        sponge,
        rng,
    ) {
        Ok(x) => x,
        Err(e) => {
            return Err(e);
        },
    };
    assert(mult_eval@ == pair.table_proof.bottom_num@);
    let lookup_n_vars: usize = pair.lookup_proof.layers.len();
    let table_n_vars: usize = pair.table_proof.layers.len();
    Ok(
        ReluStepProof {
            combine_alpha,
            lookup_proof: pair.lookup_proof,
            table_proof: pair.table_proof,
            lookup_top: pair.lookup_top,
            table_top: pair.table_top,
            logup_beta,
            lookup_n_vars,
            table_n_vars,
            witness_len,
            table_len,
            a_batched_open,
            a_eval_at_r,
            a_pos_eval_at_r,
            mult_commit,
            mult_open,
            mult_n_vars,
        },
    )
}

/// Verify a step's proof against the committed matrices. `n_padded` is the
/// public number of padded cells, and `commit_n_vars` the number of variables
/// that the matrices are committed with.
pub fn verify_relu_step<P: MlPcs>(
    proof: &ReluStepProof<P>,
    a_commitment: &P::Commitment,
    a_pos_commitment: &P::Commitment,
    params: &SnarkParams<P>,
    n_padded: usize,
    commit_n_vars: usize,
    sponge: &mut Transcript,
) -> (r: Result<(), SnarkError>)
    ensures
        r == relu_step_verdict(
            *params,
            *proof,
            *a_commitment,
            *a_pos_commitment,
            n_padded as u64,
            commit_n_vars as nat,
            state_of(*old(sponge)),
        ),
        r is Ok ==> state_of(*final(sponge)) == relu_step_state(
            params.verifier_key,
            *proof,
            *a_commitment,
            *a_pos_commitment,
            n_padded as u64,
            commit_n_vars as nat,
            state_of(*old(sponge)),
        ),
{
    proof {
        reveal(relu_step_verdict);
        reveal(relu_step_state);
    }
    absorb_u64(sponge, n_padded as u64);
    let alpha: Fr = squeeze_one(sponge);
    if alpha != proof.combine_alpha {
        return Err(SnarkError::TranscriptMismatch);
    }
    let hb: usize = params.range_table_half_bits();
    let expected_table_len: usize = pow2_usize(hb + 1);
    if proof.table_len != expected_table_len || proof.table_n_vars != hb {
        return Err(
            SnarkError::LogUpTableNotCanonical {
                which: "relu_table: table_len != 2^(range_table_half_bits + 1)",
            },
        );
    }
    absorb_commitment::<P>(sponge, &proof.mult_commit);
    absorb_u64(sponge, proof.witness_len as u64);
    absorb_u64(sponge, proof.table_len as u64);
    let beta: Fr = squeeze_one(sponge);
    if beta != proof.logup_beta {
        return Err(SnarkError::TranscriptMismatch);
    }
    absorb_fr(sponge, beta);
    match verify_pair(
        &proof.lookup_proof,
        &proof.table_proof,
        &proof.lookup_top,
        &proof.table_top,
        proof.lookup_n_vars,
        proof.table_n_vars,
        sponge,
    ) {
        Ok(_) => {},
        Err(e) => {
            return Err(e);
        },
    }
    let canonical: Fr = relu_table_mle_eval(proof.table_proof.bottom_point.as_slice(), alpha);
    if proof.table_proof.bottom_denom != canonical.sub(beta) {
        return Err(SnarkError::LogUpTableNotCanonical { which: "relu_table" });
    }
    if !check_tops_cancel(&proof.lookup_top, &proof.table_top) {
        return Err(SnarkError::ReluLookupIdentityFailed);
    }
    let mut items: Vec<BatchVerifySpec<'_, P>> = Vec::with_capacity(2);
    items.push(
        BatchVerifySpec { commitment: a_commitment, value: proof.a_eval_at_r, commit_n_vars },
    );
    items.push(
        BatchVerifySpec {
            commitment: a_pos_commitment,
            value: proof.a_pos_eval_at_r,
            commit_n_vars,
        },
    );
    proof {
        assert(batch_coms(items@) =~= seq![*a_commitment, *a_pos_commitment]);
        assert(batch_values(items@) =~= seq![proof.a_eval_at_r@, proof.a_pos_eval_at_r@]);
    }
    match hyrax_verify_batched_at::<P>(
        &params.verifier_key,
        &items,
        proof.lookup_proof.bottom_point.as_slice(),
        &proof.a_batched_open,
        sponge,
    ) {
        Ok(true) => {},
        Ok(false) => {
            return Err(SnarkError::PcsOpenRejected { which: "relu_A_A_pos_batch" });
        },
        Err(e) => {
            return Err(e);
        },
    }
    let key: Fr = alpha.mul(proof.a_eval_at_r).add(proof.a_pos_eval_at_r);
    if proof.lookup_proof.bottom_denom != key.sub(beta) {
        return Err(SnarkError::ReluLookupBindingFailed);
    }
    match hyrax_verify_at::<P>(
        &params.verifier_key,
        &proof.mult_commit,
        proof.table_proof.bottom_point.as_slice(),
        proof.table_proof.bottom_num,
        &proof.mult_open,
        proof.mult_n_vars,
        sponge,
    ) {
        Ok(true) => {},
        Ok(false) => {
            return Err(SnarkError::PcsOpenRejected { which: "relu_lookup_mult" });
        },
        Err(e) => {
            return Err(e);
        },
    }
    Ok(())
}

} // verus!
