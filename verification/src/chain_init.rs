//! The top of a pass's chains is the public property.
//!
//! The last coefficient matrix is opened together with the property's matrix,
//! and the last accumulated bias with the property's offset, each pair at one
//! challenge, where the two must agree.

use crate::commit::{PassCommitments, PassProverStates, TensorCommitments};
use crate::errors::{SnarkError, and_also, holds};
use crate::field::{Fr, vals};
use crate::mle::same_elements;
use crate::network::{NetworkArchitecture, Property};
use crate::openings::{open_pair_full, pair_open_state, pair_open_verdict, verify_pair_at};
use crate::params::SnarkParams;
use crate::pcs::{CommittedAux, MlPcs, abs_com, absorb_commitment, aux_of};
use crate::shapes::{matrix_vars, native_matrix_n_vars, native_vector_n_vars, vector_vars};
use crate::transcript::{
    abs_u64, absorb_u64, after_squeeze, squeezable, squeeze, squeezed, state_of,
};
use ark_crypto_primitives::sponge::merlin::Transcript;
use vstd::arithmetic::power2::pow2;
use vstd::prelude::*;

verus! {

/// The proof that a pass starts from the property.
pub struct ChainInitProof<P: MlPcs> {
    pub a_n_vars: usize,
    pub b_n_vars: usize,
    /// The challenge of the matrices.
    pub r_a: Vec<Fr>,
    /// The challenge of the vectors.
    pub r_b: Vec<Fr>,
    /// Joint opening of the matrices.
    pub r_a_open: P::Proof,
    pub chain_a_eval: Fr,
    pub spec_c_eval: Fr,
    /// Joint opening of the vectors.
    pub r_b_open: P::Proof,
    pub chain_b_eval: Fr,
    pub spec_d_eval: Fr,
}

/// The state before the challenges.
pub open spec fn ci_t1<P: MlPcs>(
    a: P::Commitment,
    b: P::Commitment,
    a_n_vars: usize,
    b_n_vars: usize,
    t0: Seq<u8>,
) -> Seq<u8> {
    abs_u64(
        abs_u64(abs_com::<P>(abs_com::<P>(t0, a), b), a_n_vars as u64),
        b_n_vars as u64,
    )
}

/// The state after the first challenge.
pub open spec fn ci_t2<P: MlPcs>(
    a: P::Commitment,
    b: P::Commitment,
    a_n_vars: usize,
    b_n_vars: usize,
    t0: Seq<u8>,
) -> Seq<u8> {
    after_squeeze(ci_t1::<P>(a, b, a_n_vars, b_n_vars, t0), a_n_vars as int)
}

/// The state after the challenges.
pub open spec fn ci_t3<P: MlPcs>(
    a: P::Commitment,
    b: P::Commitment,
    a_n_vars: usize,
    b_n_vars: usize,
    t0: Seq<u8>,
) -> Seq<u8> {
    after_squeeze(ci_t2::<P>(a, b, a_n_vars, b_n_vars, t0), b_n_vars as int)
}

/// The state after the opening of the matrices.
pub open spec fn ci_t4<P: MlPcs>(
    vk: P::VerifierKey,
    proof: ChainInitProof<P>,
    pass: PassCommitments<P>,
    coms: TensorCommitments<P>,
    a_n_vars: usize,
    b_n_vars: usize,
    t0: Seq<u8>,
) -> Seq<u8> {
    let (a, b) = (pass.chain_a@.last(), pass.chain_b_acc@.last());
    pair_open_state::<P>(
        vk,
        a,
        coms.spec_c,
        proof.chain_a_eval@,
        proof.spec_c_eval@,
        vals(proof.r_a@),
        proof.r_a_open,
        a_n_vars as nat,
        ci_t3::<P>(a, b, a_n_vars, b_n_vars, t0),
    )
}

/// The state after the whole check.
pub open spec fn chain_init_state<P: MlPcs>(
    vk: P::VerifierKey,
    proof: ChainInitProof<P>,
    pass: PassCommitments<P>,
    coms: TensorCommitments<P>,
    a_n_vars: usize,
    b_n_vars: usize,
    t0: Seq<u8>,
) -> Seq<u8> {
    pair_open_state::<P>(
        vk,
        pass.chain_b_acc@.last(),
        coms.spec_d,
        proof.chain_b_eval@,
        proof.spec_d_eval@,
        vals(proof.r_b@),
        proof.r_b_open,
        b_n_vars as nat,
        ci_t4(vk, proof, pass, coms, a_n_vars, b_n_vars, t0),
    )
}

/// The verdict on a proof that a pass starts from the property.
pub open spec fn chain_init_verdict<P: MlPcs>(
    vk: P::VerifierKey,
    proof: ChainInitProof<P>,
    pass: PassCommitments<P>,
    coms: TensorCommitments<P>,
    a_n_vars: usize,
    b_n_vars: usize,
    t0: Seq<u8>,
) -> Result<(), SnarkError> {
    let (a, b) = (pass.chain_a@.last(), pass.chain_b_acc@.last());
    and_also(
        holds(
            proof.a_n_vars == a_n_vars && proof.b_n_vars == b_n_vars,
            SnarkError::ShapeMismatch { what: "chain_init: n_vars mismatch" },
        ),
        and_also(
            holds(
                pass.chain_a@.len() > 0,
                SnarkError::ShapeMismatch { what: "chain_init: empty chain_a (verify)" },
            ),
            and_also(
                holds(
                    pass.chain_b_acc@.len() > 0,
                    SnarkError::ShapeMismatch { what: "chain_init: empty chain_b_acc (verify)" },
                ),
                and_also(
                    holds(
                        squeezed(
                            ci_t1::<P>(a, b, a_n_vars, b_n_vars, t0),
                            a_n_vars as int,
                        ) == vals(proof.r_a@) && squeezed(
                            ci_t2::<P>(a, b, a_n_vars, b_n_vars, t0),
                            b_n_vars as int,
                        ) == vals(proof.r_b@),
                        SnarkError::TranscriptMismatch,
                    ),
                    and_also(
                        pair_open_verdict::<P>(
                            vk,
                            a,
                            coms.spec_c,
                            proof.chain_a_eval@,
                            proof.spec_c_eval@,
                            vals(proof.r_a@),
                            proof.r_a_open,
                            a_n_vars as nat,
                            "chain_init_r_a_batch",
                            ci_t3::<P>(a, b, a_n_vars, b_n_vars, t0),
                        ),
                        and_also(
                            pair_open_verdict::<P>(
                                vk,
                                b,
                                coms.spec_d,
                                proof.chain_b_eval@,
                                proof.spec_d_eval@,
                                vals(proof.r_b@),
                                proof.r_b_open,
                                b_n_vars as nat,
                                "chain_init_r_b_batch",
                                ci_t4(vk, proof, pass, coms, a_n_vars, b_n_vars, t0),
                            ),
                            holds(
                                proof.chain_a_eval@ == proof.spec_c_eval@
                                    && proof.chain_b_eval@ == proof.spec_d_eval@,
                                SnarkError::ChainInitMismatch,
                            ),
                        ),
                    ),
                ),
            ),
        ),
    )
}

/// Why the prover refuses, where it does: the first chain that is empty.
pub open spec fn chain_init_refusal<P: MlPcs>(
    pass: PassCommitments<P>,
    st: PassProverStates<P>,
) -> Result<(), SnarkError> {
    and_also(
        holds(
            st.chain_a@.len() > 0,
            SnarkError::ShapeMismatch { what: "chain_init: empty chain_a" },
        ),
        and_also(
            holds(
                pass.chain_a@.len() > 0,
                SnarkError::ShapeMismatch { what: "chain_init: empty chain_a com" },
            ),
            and_also(
                holds(
                    st.chain_b_acc@.len() > 0,
                    SnarkError::ShapeMismatch { what: "chain_init: empty chain_b_acc" },
                ),
                holds(
                    pass.chain_b_acc@.len() > 0,
                    SnarkError::ShapeMismatch { what: "chain_init: empty chain_b_acc com" },
                ),
            ),
        ),
    )
}

/// Whether the tops of the chains hold the property's tables, and the four are
/// committed with the given numbers of variables.
pub open spec fn chain_init_ready<P: MlPcs>(
    ck: P::CommitterKey,
    pass: PassCommitments<P>,
    st: PassProverStates<P>,
    coms: TensorCommitments<P>,
    spec_c_aux: CommittedAux<P>,
    spec_d_aux: CommittedAux<P>,
    a_n_vars: usize,
    b_n_vars: usize,
) -> bool {
    &&& chain_init_refusal(pass, st) is Ok
    &&& aux_of(ck, pass.chain_a@.last(), st.chain_a@.last())
    &&& aux_of(ck, coms.spec_c, spec_c_aux)
    &&& vals(st.chain_a@.last().table@) == vals(spec_c_aux.table@)
    &&& spec_c_aux.table@.len() == pow2(a_n_vars as nat)
    &&& aux_of(ck, pass.chain_b_acc@.last(), st.chain_b_acc@.last())
    &&& aux_of(ck, coms.spec_d, spec_d_aux)
    &&& vals(st.chain_b_acc@.last().table@) == vals(spec_d_aux.table@)
    &&& spec_d_aux.table@.len() == pow2(b_n_vars as nat)
}

/// Prove that a pass starts from the property.
pub fn prove_chain_init<P: MlPcs>(
    pass_com: &PassCommitments<P>,
    pass_st: &PassProverStates<P>,
    commitments: &TensorCommitments<P>,
    spec_c_aux: &CommittedAux<P>,
    spec_d_aux: &CommittedAux<P>,
    a_n_vars: usize,
    b_n_vars: usize,
    params: &SnarkParams<P>,
    sponge: &mut Transcript,
    rng: &mut P::Randomness,
) -> (r: Result<ChainInitProof<P>, SnarkError>)
    requires
        squeezable(a_n_vars as int),
        squeezable(b_n_vars as int),
    ensures
        chain_init_refusal(*pass_com, *pass_st) matches Err(e) ==> r == Err::<
            ChainInitProof<P>,
            SnarkError,
        >(e),
        r matches Ok(proof) ==> {
            let (a, b) = (pass_com.chain_a@.last(), pass_com.chain_b_acc@.last());
            let t0 = state_of(*old(sponge));
            &&& proof.a_n_vars == a_n_vars
            &&& proof.b_n_vars == b_n_vars
            &&& vals(proof.r_a@) == squeezed(
                ci_t1::<P>(a, b, a_n_vars, b_n_vars, t0),
                a_n_vars as int,
            )
            &&& vals(proof.r_b@) == squeezed(
                ci_t2::<P>(a, b, a_n_vars, b_n_vars, t0),
                b_n_vars as int,
            )
        },
        chain_init_ready(
            params.committer_key,
            *pass_com,
            *pass_st,
            *commitments,
            *spec_c_aux,
            *spec_d_aux,
            a_n_vars,
            b_n_vars,
        ) ==> {
            &&& r matches Ok(proof)
            &&& params.keys_match() ==> {
                &&& chain_init_verdict(
                    params.verifier_key,
                    proof,
                    *pass_com,
                    *commitments,
                    a_n_vars,
                    b_n_vars,
                    state_of(*old(sponge)),
                ) == Ok::<(), SnarkError>(())
                &&& state_of(*final(sponge)) == chain_init_state(
                    params.verifier_key,
                    proof,
                    *pass_com,
                    *commitments,
                    a_n_vars,
                    b_n_vars,
                    state_of(*old(sponge)),
                )
            }
        },
{
    if pass_st.chain_a.len() == 0 {
        return Err(SnarkError::ShapeMismatch { what: "chain_init: empty chain_a" });
    }
    if pass_com.chain_a.len() == 0 {
        return Err(SnarkError::ShapeMismatch { what: "chain_init: empty chain_a com" });
    }
    if pass_st.chain_b_acc.len() == 0 {
        return Err(SnarkError::ShapeMismatch { what: "chain_init: empty chain_b_acc" });
    }
    if pass_com.chain_b_acc.len() == 0 {
        return Err(SnarkError::ShapeMismatch { what: "chain_init: empty chain_b_acc com" });
    }
    let chain_a_aux: &CommittedAux<P> = &pass_st.chain_a[pass_st.chain_a.len() - 1];
    let chain_a_com: &P::Commitment = &pass_com.chain_a[pass_com.chain_a.len() - 1];
    let chain_b_aux: &CommittedAux<P> = &pass_st.chain_b_acc[pass_st.chain_b_acc.len() - 1];
    let chain_b_com: &P::Commitment = &pass_com.chain_b_acc[pass_com.chain_b_acc.len() - 1];
    absorb_commitment::<P>(sponge, chain_a_com);
    absorb_commitment::<P>(sponge, chain_b_com);
    absorb_u64(sponge, a_n_vars as u64);
    absorb_u64(sponge, b_n_vars as u64);
    let r_a: Vec<Fr> = squeeze(sponge, a_n_vars);
    let r_b: Vec<Fr> = squeeze(sponge, b_n_vars);
    proof {
        assert(vals(chain_a_aux.table@).len() == chain_a_aux.table@.len());
        assert(vals(chain_b_aux.table@).len() == chain_b_aux.table@.len());
        assert(vals(spec_c_aux.table@).len() == spec_c_aux.table@.len());
        assert(vals(spec_d_aux.table@).len() == spec_d_aux.table@.len());
    }
    let (chain_a_eval, spec_c_eval, r_a_open): (Fr, Fr, P::Proof) = match open_pair_full::<P>(
        &params.committer_key,
        chain_a_aux,
        chain_a_com,
        spec_c_aux,
        &commitments.spec_c,
        r_a.as_slice(),
        sponge,
        rng,
    ) {
        Ok(x) => x,
        Err(e) => {
            return Err(e);
        },
    };
    let (chain_b_eval, spec_d_eval, r_b_open): (Fr, Fr, P::Proof) = match open_pair_full::<P>(
        &params.committer_key,
        chain_b_aux,
        chain_b_com,
        spec_d_aux,
        &commitments.spec_d,
        r_b.as_slice(),
        sponge,
        rng,
    ) {
        Ok(x) => x,
        Err(e) => {
            return Err(e);
        },
    };
    Ok(
        ChainInitProof {
            a_n_vars,
            b_n_vars,
            r_a,
            r_b,
            r_a_open,
            chain_a_eval,
            spec_c_eval,
            r_b_open,
            chain_b_eval,
            spec_d_eval,
        },
    )
}

/// Verify that a pass starts from the property.
pub fn verify_chain_init<P: MlPcs>(
    proof: &ChainInitProof<P>,
    pass_com: &PassCommitments<P>,
    commitments: &TensorCommitments<P>,
    a_n_vars: usize,
    b_n_vars: usize,
    params: &SnarkParams<P>,
    sponge: &mut Transcript,
) -> (r: Result<(), SnarkError>)
    requires
        squeezable(a_n_vars as int),
        squeezable(b_n_vars as int),
    ensures
        r == chain_init_verdict(
            params.verifier_key,
            *proof,
            *pass_com,
            *commitments,
            a_n_vars,
            b_n_vars,
            state_of(*old(sponge)),
        ),
        proof.a_n_vars != a_n_vars || proof.b_n_vars != b_n_vars || pass_com.chain_a@.len() == 0
            || pass_com.chain_b_acc@.len() == 0 ==> state_of(*final(sponge)) == state_of(
            *old(sponge),
        ),
        r is Ok ==> state_of(*final(sponge)) == chain_init_state(
            params.verifier_key,
            *proof,
            *pass_com,
            *commitments,
            a_n_vars,
            b_n_vars,
            state_of(*old(sponge)),
        ),
{
    if proof.a_n_vars != a_n_vars || proof.b_n_vars != b_n_vars {
        return Err(SnarkError::ShapeMismatch { what: "chain_init: n_vars mismatch" });
    }
    if pass_com.chain_a.len() == 0 {
        return Err(SnarkError::ShapeMismatch { what: "chain_init: empty chain_a (verify)" });
    }
    if pass_com.chain_b_acc.len() == 0 {
        return Err(SnarkError::ShapeMismatch { what: "chain_init: empty chain_b_acc (verify)" });
    }
    let chain_a_com: &P::Commitment = &pass_com.chain_a[pass_com.chain_a.len() - 1];
    let chain_b_com: &P::Commitment = &pass_com.chain_b_acc[pass_com.chain_b_acc.len() - 1];
    absorb_commitment::<P>(sponge, chain_a_com);
    absorb_commitment::<P>(sponge, chain_b_com);
    absorb_u64(sponge, a_n_vars as u64);
    absorb_u64(sponge, b_n_vars as u64);
    let r_a: Vec<Fr> = squeeze(sponge, a_n_vars);
    let r_b: Vec<Fr> = squeeze(sponge, b_n_vars);
    if !same_elements(r_a.as_slice(), proof.r_a.as_slice()) || !same_elements(
        r_b.as_slice(),
        proof.r_b.as_slice(),
    ) {
        return Err(SnarkError::TranscriptMismatch);
    }
    match verify_pair_at::<P>(
        &params.verifier_key,
        chain_a_com,
        &commitments.spec_c,
        proof.chain_a_eval,
        proof.spec_c_eval,
        proof.r_a.as_slice(),
        &proof.r_a_open,
        a_n_vars,
        "chain_init_r_a_batch",
        sponge,
    ) {
        Ok(_) => {},
        Err(e) => {
            return Err(e);
        },
    }
    match verify_pair_at::<P>(
        &params.verifier_key,
        chain_b_com,
        &commitments.spec_d,
        proof.chain_b_eval,
        proof.spec_d_eval,
        proof.r_b.as_slice(),
        &proof.r_b_open,
        b_n_vars,
        "chain_init_r_b_batch",
        sponge,
    ) {
        Ok(_) => {},
        Err(e) => {
            return Err(e);
        },
    }
    if proof.chain_a_eval != proof.spec_c_eval {
        return Err(SnarkError::ChainInitMismatch);
    }
    if proof.chain_b_eval != proof.spec_d_eval {
        return Err(SnarkError::ChainInitMismatch);
    }
    Ok(())
}

/// The numbers of variables that a property's matrix and offset are committed
/// with.
pub fn chain_init_n_vars(arch: &NetworkArchitecture, property: &Property) -> (r: (usize, usize))
    requires
        property.rows <= usize::MAX / 2 + 1,
        arch.spec_output_dim() <= usize::MAX / 2 + 1,
    ensures
        r.0 == matrix_vars(property.rows as nat, arch.spec_output_dim()),
        r.1 == vector_vars(property.rows as nat),
        r.0 <= 126 && r.1 <= 64,
{
    let n_spec: usize = property.rows;
    let n_out: usize = arch.output_dim();
    (native_matrix_n_vars(n_spec, n_out), native_vector_n_vars(n_spec))
}

} // verus!
