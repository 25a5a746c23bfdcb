//! A hidden pass starts from the identity: its first coefficients are the
//! quantized identity matrix, and its first bias is zero.

use crate::chain_init::ci_t1;
use crate::commit::{PassCommitments, PassProverStates};
use crate::errors::{SnarkError, and_also, holds, opened};
use crate::field::{Fr, lemma_view_in_field, residue, signed_lift_to_fr, vals};
use crate::mle::{
    ceil_log2, eval_multilinear_full, lemma_ceil_log2, lemma_pow2_split, mle, next_pow2_log,
    pow2_usize, same_elements,
};
use crate::mle_laws::{constant, law_mle_constant};
use crate::openings::open_full;
use crate::params::SnarkParams;
use crate::pcs::{
    CommittedAux, MlPcs, absorb_commitment, aux_of, hyrax_verify_at, open_state, open_verdict,
    zeros,
};
use crate::qarray::{CodeMatrix, committed_table, matrix_rows, matrix_width};
use crate::ring::lemma_residue_id;
use crate::shapes::{matrix_vars, native_matrix_n_vars, native_vector_n_vars, vector_vars};
use crate::sumcheck::total;
use crate::transcript::{absorb_u64, after_squeeze, squeeze, squeezed, state_of};
use ark_crypto_primitives::sponge::merlin::Transcript;
use vstd::arithmetic::div_mod::{lemma_div_pos_is_pos, lemma_mod_bound};
use vstd::arithmetic::power2::{lemma_pow2_pos, lemma_pow2_strictly_increases, pow2};
use vstd::prelude::*;

verus! {

/// The proof that a hidden pass starts from the identity.
pub struct ChainInitFromIdentityProof<P: MlPcs> {
    pub a_n_vars: usize,
    pub b_n_vars: usize,
    pub r_a: Vec<Fr>,
    pub r_b: Vec<Fr>,
    pub chain_a_eval: Fr,
    pub chain_b_eval: Fr,
    pub chain_a_open: P::Proof,
    pub chain_b_open: P::Proof,
}

/// The table of the `n x n` identity matrix with `one` on its diagonal, padded
/// to the size that it is committed with.
pub open spec fn identity_matrix_table(n: nat, one: i128) -> Seq<int> {
    Seq::new(
        pow2(matrix_vars(n, n)),
        |k: int|
            {
                let d = pow2(ceil_log2(n)) as int;
                if k / d == k % d && k % d < n {
                    residue(one as int)
                } else {
                    0
                }
            },
    )
}

/// The extension of the quantized identity matrix at a point.
pub fn identity_mle_eval(r: &[Fr], n: usize, one_code: i128) -> (v: Fr)
    requires
        n <= usize::MAX / 2 + 1,
        pow2(matrix_vars(n as nat, n as nat)) <= usize::MAX,
        r@.len() == matrix_vars(n as nat, n as nat),
    ensures
        v@ == mle(identity_matrix_table(n as nat, one_code), vals(r@)),
{
    let log_n: usize = next_pow2_log(n);
    let total: usize = native_matrix_n_vars(n, n);
    proof {
        lemma_ceil_log2(n as nat);
        lemma_pow2_split(log_n as nat, log_n as nat);
        if log_n + log_n < total {
            lemma_pow2_strictly_increases((log_n + log_n) as nat, total as nat);
        }
    }
    let pow_n: usize = pow2_usize(log_n);
    let one: Fr = signed_lift_to_fr(one_code);
    let zero: Fr = Fr::from_u64(0);
    let len: usize = pow2_usize(total);
    let mut evals: Vec<Fr> = Vec::with_capacity(len);
    let mut k: usize = 0;
    while k < len
        invariant
            k <= len,
            len == pow2(matrix_vars(n as nat, n as nat)),
            pow_n == pow2(ceil_log2(n as nat)),
            pow_n > 0,
            one@ == residue(one_code as int),
            zero@ == 0,
            evals@.len() == k,
            forall|q: int|
                0 <= q < k ==> (#[trigger] evals@[q])@ == identity_matrix_table(
                    n as nat,
                    one_code,
                )[q],
        decreases len - k,
    {
        if k / pow_n == k % pow_n && k % pow_n < n {
            evals.push(one);
        } else {
            evals.push(zero);
        }
        k += 1;
    }
    assert(vals(evals@) =~= identity_matrix_table(n as nat, one_code));
    eval_multilinear_full(evals.as_slice(), r)
}

/// Whether a matrix of codes is the identity with `one` on its diagonal.
pub open spec fn is_identity(m: CodeMatrix, n: nat, one: i128) -> bool {
    &&& matrix_rows(m).len() == n
    &&& matrix_width(m) == n
    &&& forall|i: int, j: int|
        0 <= i < n && 0 <= j < n ==> #[trigger] matrix_rows(m)[i][j] == if i == j {
            one
        } else {
            0
        }
}

/// The identity matrix is committed with the table of the identity.
pub proof fn law_identity_table_committed(m: CodeMatrix, n: nat, one: i128)
    requires
        is_identity(m, n, one),
    ensures
        committed_table(m) == identity_matrix_table(n, one),
{
    let d = pow2(ceil_log2(n)) as int;
    lemma_pow2_pos(ceil_log2(n));
    let (a, b) = (committed_table(m), identity_matrix_table(n, one));
    assert forall|k: int| 0 <= k < a.len() implies #[trigger] a[k] == b[k] by {
        let (i, j) = (k / d, k % d);
        lemma_mod_bound(k, d);
        lemma_div_pos_is_pos(k, d);
        lemma_residue_id(0);
        if i < n && j < n {
            assert(matrix_rows(m)[i][j] == if i == j {
                one
            } else {
                0
            });
        }
    }
    assert(a =~= b);
}

// ---- The transcript ----

/// The state before the challenges.
pub open spec fn hi_t1<P: MlPcs>(a: P::Commitment, b: P::Commitment, n: nat, t0: Seq<u8>) -> Seq<
    u8,
> {
    ci_t1::<P>(a, b, matrix_vars(n, n) as usize, vector_vars(n) as usize, t0)
}

/// The state after the first challenge.
pub open spec fn hi_t2<P: MlPcs>(a: P::Commitment, b: P::Commitment, n: nat, t0: Seq<u8>) -> Seq<
    u8,
> {
    after_squeeze(hi_t1::<P>(a, b, n, t0), matrix_vars(n, n) as int)
}

/// The state after the challenges.
pub open spec fn hi_t3<P: MlPcs>(a: P::Commitment, b: P::Commitment, n: nat, t0: Seq<u8>) -> Seq<
    u8,
> {
    after_squeeze(hi_t2::<P>(a, b, n, t0), vector_vars(n) as int)
}

/// The state after the matrix's opening.
pub open spec fn hi_t4<P: MlPcs>(
    vk: P::VerifierKey,
    proof: ChainInitFromIdentityProof<P>,
    a: P::Commitment,
    b: P::Commitment,
    n: nat,
    t0: Seq<u8>,
) -> Seq<u8> {
    open_state::<P>(
        vk,
        a,
        vals(proof.r_a@),
        proof.chain_a_eval@,
        proof.chain_a_open,
        matrix_vars(n, n),
        hi_t3::<P>(a, b, n, t0),
    )
}

/// The state after the whole check.
#[verifier::opaque]
pub open spec fn identity_init_state<P: MlPcs>(
    vk: P::VerifierKey,
    proof: ChainInitFromIdentityProof<P>,
    pass: PassCommitments<P>,
    target: usize,
    n: nat,
    t0: Seq<u8>,
) -> Seq<u8> {
    let (a, b) = (pass.chain_a@[target + 1], pass.chain_b_acc@[target + 1]);
    open_state::<P>(
        vk,
        b,
        vals(proof.r_b@),
        proof.chain_b_eval@,
        proof.chain_b_open,
        vector_vars(n),
        hi_t4(vk, proof, a, b, n, t0),
    )
}

/// The verdict on a proof that a hidden pass starts from the identity.
#[verifier::opaque]
pub open spec fn identity_init_verdict<P: MlPcs>(
    vk: P::VerifierKey,
    proof: ChainInitFromIdentityProof<P>,
    pass: PassCommitments<P>,
    target: usize,
    n: nat,
    one: i128,
    t0: Seq<u8>,
) -> Result<(), SnarkError> {
    let (a, b) = (pass.chain_a@[target + 1], pass.chain_b_acc@[target + 1]);
    and_also(
        holds(
            target + 1 < pass.chain_a@.len(),
            SnarkError::ShapeMismatch { what: "hidden_pass chain_init: chain_a out-of-range" },
        ),
        and_also(
            holds(
                target + 1 < pass.chain_b_acc@.len(),
                SnarkError::ShapeMismatch {
                    what: "hidden_pass chain_init: chain_b_acc out-of-range",
                },
            ),
            and_also(
                holds(
                    proof.a_n_vars == matrix_vars(n, n) && proof.b_n_vars == vector_vars(n),
                    SnarkError::ShapeMismatch { what: "hidden_pass chain_init: n_vars mismatch" },
                ),
                and_also(
                    holds(
                        squeezed(hi_t1::<P>(a, b, n, t0), matrix_vars(n, n) as int) == vals(
                            proof.r_a@,
                        ) && squeezed(hi_t2::<P>(a, b, n, t0), vector_vars(n) as int) == vals(
                            proof.r_b@,
                        ),
                        SnarkError::TranscriptMismatch,
                    ),
                    and_also(
                        opened(
                            open_verdict::<P>(
                                vk,
                                a,
                                vals(proof.r_a@),
                                proof.chain_a_eval@,
                                proof.chain_a_open,
                                matrix_vars(n, n),
                                hi_t3::<P>(a, b, n, t0),
                            ),
                            "hidden_pass_chain_init_a",
                        ),
                        and_also(
                            opened(
                                open_verdict::<P>(
                                    vk,
                                    b,
                                    vals(proof.r_b@),
                                    proof.chain_b_eval@,
                                    proof.chain_b_open,
                                    vector_vars(n),
                                    hi_t4(vk, proof, a, b, n, t0),
                                ),
                                "hidden_pass_chain_init_b",
                            ),
                            holds(
                                proof.chain_a_eval@ == mle(
                                    identity_matrix_table(n, one),
                                    vals(proof.r_a@),
                                ) && proof.chain_b_eval@ == 0,
                                SnarkError::ChainInitMismatch,
                            ),
                        ),
                    ),
                ),
            ),
        ),
    )
}

/// Why the prover refuses, where it does: the first chain that is too short.
pub open spec fn identity_init_refusal<P: MlPcs>(
    pass: PassCommitments<P>,
    st: PassProverStates<P>,
    target: usize,
) -> Result<(), SnarkError> {
    and_also(
        holds(
            target + 1 < pass.chain_a@.len(),
            SnarkError::ShapeMismatch { what: "hidden pass: chain_a out-of-range at target+1" },
        ),
        and_also(
            holds(
                target + 1 < st.chain_a@.len(),
                SnarkError::ShapeMismatch {
                    what: "hidden pass: chain_a state out-of-range at target+1",
                },
            ),
            and_also(
                holds(
                    target + 1 < pass.chain_b_acc@.len(),
                    SnarkError::ShapeMismatch {
                        what: "hidden pass: chain_b_acc out-of-range at target+1",
                    },
                ),
                holds(
                    target + 1 < st.chain_b_acc@.len(),
                    SnarkError::ShapeMismatch {
                        what: "hidden pass: chain_b_acc state out-of-range at target+1",
                    },
                ),
            ),
        ),
    )
}

/// Whether the tops of the chains are the committed identity and zero.
pub open spec fn identity_init_ready<P: MlPcs>(
    ck: P::CommitterKey,
    pass: PassCommitments<P>,
    st: PassProverStates<P>,
    target: usize,
    n: nat,
    one: i128,
) -> bool {
    let top = target + 1;
    &&& identity_init_refusal(pass, st, target) is Ok
    &&& aux_of(ck, pass.chain_a@[top], st.chain_a@[top])
    &&& vals(st.chain_a@[top].table@) == identity_matrix_table(n, one)
    &&& aux_of(ck, pass.chain_b_acc@[top], st.chain_b_acc@[top])
    &&& vals(st.chain_b_acc@[top].table@) == zeros(pow2(vector_vars(n)))
}

/// Prove that a hidden pass starts from the identity.
pub fn prove_chain_init_from_identity<P: MlPcs>(
    pass_com: &PassCommitments<P>,
    pass_st: &PassProverStates<P>,
    target_layer_idx: usize,
    n_spec: usize,
    params: &SnarkParams<P>,
    sponge: &mut Transcript,
    rng: &mut P::Randomness,
) -> (r: Result<ChainInitFromIdentityProof<P>, SnarkError>)
    requires
        target_layer_idx < usize::MAX,
        n_spec <= usize::MAX / 2 + 1,
    ensures
        identity_init_refusal(*pass_com, *pass_st, target_layer_idx) matches Err(e) ==> r == Err::<
            ChainInitFromIdentityProof<P>,
            SnarkError,
        >(e),
        r matches Ok(proof) ==> {
            let n = n_spec as nat;
            let (a, b) = (
                pass_com.chain_a@[target_layer_idx + 1],
                pass_com.chain_b_acc@[target_layer_idx + 1],
            );
            let t0 = state_of(*old(sponge));
            &&& proof.a_n_vars == matrix_vars(n, n)
            &&& proof.b_n_vars == vector_vars(n)
            &&& vals(proof.r_a@) == squeezed(hi_t1::<P>(a, b, n, t0), matrix_vars(n, n) as int)
            &&& vals(proof.r_b@) == squeezed(hi_t2::<P>(a, b, n, t0), vector_vars(n) as int)
        },
        forall|one: i128| #[trigger]
            identity_init_ready(
                params.committer_key,
                *pass_com,
                *pass_st,
                target_layer_idx,
                n_spec as nat,
                one,
            ) ==> {
                &&& r matches Ok(proof)
                &&& params.keys_match() ==> {
                    &&& identity_init_verdict(
                        params.verifier_key,
                        proof,
                        *pass_com,
                        target_layer_idx,
                        n_spec as nat,
                        one,
                        state_of(*old(sponge)),
                    ) == Ok::<(), SnarkError>(())
                    &&& state_of(*final(sponge)) == identity_init_state(
                        params.verifier_key,
                        proof,
                        *pass_com,
                        target_layer_idx,
                        n_spec as nat,
                        state_of(*old(sponge)),
                    )
                }
            },
{
    let top: usize = target_layer_idx + 1;
    if top >= pass_com.chain_a.len() {
        return Err(
            SnarkError::ShapeMismatch { what: "hidden pass: chain_a out-of-range at target+1" },
        );
    }
    if top >= pass_st.chain_a.len() {
        return Err(
            SnarkError::ShapeMismatch {
                what: "hidden pass: chain_a state out-of-range at target+1",
            },
        );
    }
    if top >= pass_com.chain_b_acc.len() {
        return Err(
            SnarkError::ShapeMismatch { what: "hidden pass: chain_b_acc out-of-range at target+1" },
        );
    }
    if top >= pass_st.chain_b_acc.len() {
        return Err(
            SnarkError::ShapeMismatch {
                what: "hidden pass: chain_b_acc state out-of-range at target+1",
            },
        );
    }
    let chain_a_com: &P::Commitment = &pass_com.chain_a[top];
    let chain_a_aux: &CommittedAux<P> = &pass_st.chain_a[top];
    let chain_b_com: &P::Commitment = &pass_com.chain_b_acc[top];
    let chain_b_aux: &CommittedAux<P> = &pass_st.chain_b_acc[top];
    let a_n_vars: usize = native_matrix_n_vars(n_spec, n_spec);
    let b_n_vars: usize = native_vector_n_vars(n_spec);
    absorb_commitment::<P>(sponge, chain_a_com);
    absorb_commitment::<P>(sponge, chain_b_com);
    absorb_u64(sponge, a_n_vars as u64);
    absorb_u64(sponge, b_n_vars as u64);
    let r_a: Vec<Fr> = squeeze(sponge, a_n_vars);
    let r_b: Vec<Fr> = squeeze(sponge, b_n_vars);
    proof {
        assert(vals(chain_a_aux.table@).len() == chain_a_aux.table@.len());
        assert(vals(chain_b_aux.table@).len() == chain_b_aux.table@.len());
    }
    let (chain_a_eval, chain_a_open): (Fr, P::Proof) = match open_full::<P>(
        &params.committer_key,
        chain_a_aux,
        chain_a_com,
        r_a.as_slice(),
        sponge,
        rng,
    ) {
        Ok(x) => x,
        Err(e) => {
            return Err(e);
        },
    };
    let (chain_b_eval, chain_b_open): (Fr, P::Proof) = match open_full::<P>(
        &params.committer_key,
        chain_b_aux,
        chain_b_com,
        r_b.as_slice(),
        sponge,
        rng,
    ) {
        Ok(x) => x,
        Err(e) => {
            return Err(e);
        },
    };
    proof {
        broadcast use lemma_view_in_field;

        reveal(identity_init_verdict);
        reveal(identity_init_state);
        let n = n_spec as nat;
        law_mle_constant(0, vals(r_b@));
        assert(zeros(pow2(vector_vars(n))) =~= constant(0, pow2(vector_vars(n))));
    }
    Ok(
        ChainInitFromIdentityProof {
            a_n_vars,
            b_n_vars,
            r_a,
            r_b,
            chain_a_eval,
            chain_b_eval,
            chain_a_open,
            chain_b_open,
        },
    )
}

/// Verify that a hidden pass starts from the identity with `one_code` on its
/// diagonal.
pub fn verify_chain_init_from_identity<P: MlPcs>(
    proof: &ChainInitFromIdentityProof<P>,
    pass_com: &PassCommitments<P>,
    target_layer_idx: usize,
    n_spec: usize,
    one_code: i128,
    params: &SnarkParams<P>,
    sponge: &mut Transcript,
) -> (r: Result<(), SnarkError>)
    requires
        target_layer_idx < usize::MAX,
        n_spec <= usize::MAX / 2 + 1,
        pow2(matrix_vars(n_spec as nat, n_spec as nat)) <= usize::MAX,
    ensures
        r == identity_init_verdict(
            params.verifier_key,
            *proof,
            *pass_com,
            target_layer_idx,
            n_spec as nat,
            one_code,
            state_of(*old(sponge)),
        ),
        target_layer_idx + 1 >= pass_com.chain_a@.len() || target_layer_idx + 1
            >= pass_com.chain_b_acc@.len() || proof.a_n_vars != matrix_vars(
            n_spec as nat,
            n_spec as nat,
        ) || proof.b_n_vars != vector_vars(n_spec as nat) ==> state_of(*final(sponge)) == state_of(
            *old(sponge),
        ),
        r is Ok ==> state_of(*final(sponge)) == identity_init_state(
            params.verifier_key,
            *proof,
            *pass_com,
            target_layer_idx,
            n_spec as nat,
            state_of(*old(sponge)),
        ),
{
    proof {
        reveal(identity_init_verdict);
        reveal(identity_init_state);
    }
    let top: usize = target_layer_idx + 1;
    if top >= pass_com.chain_a.len() {
        return Err(
            SnarkError::ShapeMismatch { what: "hidden_pass chain_init: chain_a out-of-range" },
        );
    }
    if top >= pass_com.chain_b_acc.len() {
        return Err(
            SnarkError::ShapeMismatch { what: "hidden_pass chain_init: chain_b_acc out-of-range" },
        );
    }
    let chain_a_com: &P::Commitment = &pass_com.chain_a[top];
    let chain_b_com: &P::Commitment = &pass_com.chain_b_acc[top];
    let a_n_vars: usize = native_matrix_n_vars(n_spec, n_spec);
    let b_n_vars: usize = native_vector_n_vars(n_spec);
    if proof.a_n_vars != a_n_vars || proof.b_n_vars != b_n_vars {
        return Err(SnarkError::ShapeMismatch { what: "hidden_pass chain_init: n_vars mismatch" });
    }
    absorb_commitment::<P>(sponge, chain_a_com);
    absorb_commitment::<P>(sponge, chain_b_com);
    absorb_u64(sponge, a_n_vars as u64);
    absorb_u64(sponge, b_n_vars as u64);
    let r_a: Vec<Fr> = squeeze(sponge, a_n_vars);
    let r_b: Vec<Fr> = squeeze(sponge, b_n_vars);
    if !same_elements(r_a.as_slice(), proof.r_a.as_slice()) || !same_elements(
        r_b.as_slice(),
        proof.r_b.as_slice(),
    ) {
        return Err(SnarkError::TranscriptMismatch);
    }
    match hyrax_verify_at::<P>(
        &params.verifier_key,
        chain_a_com,
        proof.r_a.as_slice(),
        proof.chain_a_eval,
        &proof.chain_a_open,
        a_n_vars,
        sponge,
    ) {
        Ok(true) => {},
        Ok(false) => {
            return Err(SnarkError::PcsOpenRejected { which: "hidden_pass_chain_init_a" });
        },
        Err(e) => {
            return Err(e);
        },
    }
    match hyrax_verify_at::<P>(
        &params.verifier_key,
        chain_b_com,
        proof.r_b.as_slice(),
        proof.chain_b_eval,
        &proof.chain_b_open,
        b_n_vars,
        sponge,
    ) {
        Ok(true) => {},
        Ok(false) => {
            return Err(SnarkError::PcsOpenRejected { which: "hidden_pass_chain_init_b" });
        },
        Err(e) => {
            return Err(e);
        },
    }
    let expected_a: Fr = identity_mle_eval(r_a.as_slice(), n_spec, one_code);
    if proof.chain_a_eval != expected_a {
        return Err(SnarkError::ChainInitMismatch);
    }
    if proof.chain_b_eval != Fr::from_u64(0) {
        return Err(SnarkError::ChainInitMismatch);
    }
    Ok(())
}

} // verus!
