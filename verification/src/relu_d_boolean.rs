//! The gadget that proves `d_lower[j] in {0, s_d}` for every neuron of a ReLU
//! layer.
//!
//! The cell-wise constraint `d_lower[j] (s_d - d_lower[j]) = 0` is summed
//! against the weights of a random point by a degree-3 sumcheck, which leaves
//! one opening of `d_lower`.

use crate::columns::lemma_mle_unpadded;
use crate::eq_two_product::is_pow2;
use crate::errors::{SnarkError, opened};
use crate::field::{Fr, all_in_field, fmul, fsub, in_field, lemma_view_in_field, residue, vals};
use crate::mle::{
    build_eq_table, copied, eq_table, eval_multilinear_full, lemma_pow2_machine, log2_exact, mle,
    same_elements,
};
use crate::mle_laws::{lemma_eq_weight_in_field, lemma_fmul_assoc};
use crate::params::SnarkParams;
use crate::pcs::{
    CommittedAux, MlPcs, abs_com, absorb_commitment, aux_of, hyrax_open_at, hyrax_verify_at,
    lemma_pow2_injective, open_state, open_verdict,
};
use crate::poly::{
    lemma_on_const, lemma_on_lin, lemma_on_mul, lemma_on_sub, lemma_poly_mul, lin, poly, poly_mul,
    poly_sub,
};
use crate::ring::{
    group_in_field, lemma_fadd_zero, lemma_fmul_one, lemma_residue_id, lemma_residue_sub,
};
use crate::sumcheck::{
    CellIdentity, RoundPoly3, SumcheckRun, cell_at, cell_line, fold_cols_many, lemma_rounds_check,
    lemma_total_zero, prove_rounds, replay_rounds_at, round_samples, rounds_check, samples_of,
    sc_claim, sc_point, sc_state, total, vals2,
};
use crate::transcript::{
    abs_fr, abs_u64, absorb_fr, absorb_u64, after_squeeze, squeeze, squeezed, state_of,
};
use ark_crypto_primitives::sponge::merlin::Transcript;
use vstd::arithmetic::power2::pow2;
use vstd::prelude::*;

verus! {

/// Proof that `d_lower[j] (s_d - d_lower[j]) = 0` for every neuron `j`.
pub struct ReluDBooleanProof<P: MlPcs> {
    pub layer_idx: usize,
    pub n_vars: usize,
    pub rounds: Vec<RoundPoly3>,
    /// The test point, drawn before the first round.
    pub r: Vec<Fr>,
    /// The point of the round challenges.
    pub r_final: Vec<Fr>,
    pub d_lower_eval: Fr,
    pub d_lower_open: P::Proof,
}

/// The summand `eq d (s_d - d)`.
pub open spec fn d_boolean_cell(eq: int, d: int, s_d: int) -> int {
    fmul(fmul(eq, d), fsub(s_d, d))
}

/// The summand, over the columns `eq, d`.
pub struct DBoolean {
    pub s_d: Fr,
}

impl CellIdentity for DBoolean {
    open spec fn arity(&self) -> nat {
        2
    }

    open spec fn degree(&self) -> nat {
        3
    }

    open spec fn at(&self, cell: Seq<int>) -> int {
        d_boolean_cell(cell[0], cell[1], self.s_d@)
    }

    proof fn lemma_line(&self, lo: Seq<int>, hi: Seq<int>) -> (c: Seq<int>) {
        let l0 = lin(lo[0], hi[0]);
        let l1 = lin(lo[1], hi[1]);
        let k = seq![self.s_d@];
        let m = poly_sub(k, l1);
        let p = poly_mul(l0, l1);
        let c = poly_mul(p, m);
        lemma_poly_mul(l0, l1, 0);
        lemma_poly_mul(p, m, 0);
        lemma_view_in_field(self.s_d);
        assert forall|t: int| in_field(t) implies self.at(#[trigger] cell_line(lo, hi, t))
            == residue(poly(c, t)) by {
            let x = cell_line(lo, hi, t);
            lemma_on_lin(lo[0], hi[0], t);
            lemma_on_lin(lo[1], hi[1], t);
            lemma_on_const(self.s_d@, t);
            lemma_on_mul(x[0], l0, x[1], l1, t);
            lemma_on_sub(self.s_d@, k, x[1], l1, t);
            lemma_on_mul(fmul(x[0], x[1]), p, fsub(self.s_d@, x[1]), m, t);
        }
        c
    }

    fn eval(&self, cell: &Vec<Fr>) -> (r: Fr) {
        cell[0].mul(cell[1]).mul(self.s_d.sub(cell[1]))
    }
}

/// The transcript state before the test point.
pub open spec fn d_boolean_t1<P: MlPcs>(
    layer_idx: usize,
    n_vars: usize,
    com: P::Commitment,
    s_d: int,
    t0: Seq<u8>,
) -> Seq<u8> {
    abs_fr(abs_com::<P>(abs_u64(abs_u64(t0, layer_idx as u64), n_vars as u64), com), s_d)
}

/// The state before the first round.
pub open spec fn d_boolean_t2<P: MlPcs>(
    layer_idx: usize,
    n_vars: usize,
    com: P::Commitment,
    s_d: int,
    t0: Seq<u8>,
) -> Seq<u8> {
    after_squeeze(d_boolean_t1::<P>(layer_idx, n_vars, com, s_d, t0), n_vars as int)
}

/// The state after the rounds.
pub open spec fn d_boolean_t3<P: MlPcs>(
    proof: ReluDBooleanProof<P>,
    com: P::Commitment,
    s_d: int,
    t0: Seq<u8>,
) -> Seq<u8> {
    sc_state(
        true,
        d_boolean_t2::<P>(proof.layer_idx, proof.n_vars, com, s_d, t0),
        samples_of(proof.rounds@),
        proof.rounds@.len(),
    )
}

/// The state after the whole check.
pub open spec fn d_boolean_state<P: MlPcs>(
    vk: P::VerifierKey,
    proof: ReluDBooleanProof<P>,
    com: P::Commitment,
    s_d: int,
    t0: Seq<u8>,
) -> Seq<u8> {
    open_state::<P>(
        vk,
        com,
        vals(proof.r_final@),
        proof.d_lower_eval@,
        proof.d_lower_open,
        proof.n_vars as nat,
        d_boolean_t3(proof, com, s_d, t0),
    )
}

/// The verdict on a proof.
pub open spec fn d_boolean_verdict<P: MlPcs>(
    vk: P::VerifierKey,
    proof: ReluDBooleanProof<P>,
    layer_idx: usize,
    n_vars: usize,
    s_d: int,
    com: P::Commitment,
    t0: Seq<u8>,
) -> Result<(), SnarkError> {
    let t1 = d_boolean_t1::<P>(layer_idx, n_vars, com, s_d, t0);
    let t2 = d_boolean_t2::<P>(layer_idx, n_vars, com, s_d, t0);
    let s = samples_of(proof.rounds@);
    let opened = open_verdict::<P>(
        vk,
        com,
        vals(proof.r_final@),
        proof.d_lower_eval@,
        proof.d_lower_open,
        n_vars as nat,
        d_boolean_t3(proof, com, s_d, t0),
    );
    if proof.layer_idx != layer_idx {
        Err(SnarkError::ArchitectureMismatch { what: "relu_d_boolean: layer_idx mismatch" })
    } else if proof.n_vars != n_vars {
        Err(
            SnarkError::ArchitectureMismatch {
                what: "relu_d_boolean: n_vars mismatch with public architecture",
            },
        )
    } else if proof.r@.len() != n_vars || proof.r_final@.len() != n_vars || proof.rounds@.len()
        != n_vars {
        Err(
            SnarkError::ShapeMismatch {
                what: "relu_d_boolean: r/r_final/rounds length must match n_vars",
            },
        )
    } else if squeezed(t1, n_vars as int) != vals(proof.r@) {
        Err(SnarkError::TranscriptMismatch)
    } else {
        match rounds_check(true, t2, s, 0, vals(proof.r_final@), 0) {
            Err(e) => Err(e),
            Ok(_) => match opened {
                Err(e) => Err(e),
                Ok(false) => Err(SnarkError::PcsOpenRejected { which: "relu_d_boolean::d_lower" }),
                Ok(true) => if d_boolean_cell(
                    mle(eq_table(vals(proof.r@)), vals(proof.r_final@)),
                    proof.d_lower_eval@,
                    s_d,
                ) != sc_claim(true, t2, s, 0, n_vars as nat) {
                    Err(
                        SnarkError::RelaxationSoundnessFinalCheckFailed {
                            which: "relu_d_boolean::final_identity",
                        },
                    )
                } else {
                    Ok(())
                },
            },
        }
    }
}

/// Whether every entry is `0` or `s_d`, or otherwise annihilates `s_d - d`.
pub open spec fn all_boolean(d: Seq<int>, s_d: int) -> bool {
    forall|i: int| 0 <= i < d.len() ==> fmul(#[trigger] d[i], fsub(s_d, d[i])) == 0
}

/// `0` and `s_d` are such entries.
pub proof fn law_zero_and_scale_are_boolean(d: int, s_d: int)
    requires
        in_field(s_d),
        d == 0 || d == s_d,
    ensures
        fmul(d, fsub(s_d, d)) == 0,
{
    broadcast use group_in_field;

    lemma_fadd_zero(s_d);
    lemma_fmul_one(fsub(s_d, d));
    lemma_fmul_one(d);
    lemma_residue_id(s_d);
    lemma_residue_sub(s_d, s_d);
    lemma_residue_id(0);
}

/// Columns of boolean entries sum to zero.
proof fn lemma_boolean_total(ident: &DBoolean, eq: Seq<int>, d: Seq<int>, n: nat)
    requires
        eq.len() >= n,
        d.len() >= n,
        all_in_field(eq),
        all_in_field(d),
        all_boolean(d, ident.s_d@),
    ensures
        total(ident, seq![eq, d], n) == 0,
{
    broadcast use group_in_field;

    let cols = seq![eq, d];
    assert forall|i: int| 0 <= i < n implies ident.at(#[trigger] cell_at(cols, i)) == 0 by {
        let cell = cell_at(cols, i);
        assert(cell[0] == eq[i] && cell[1] == d[i]);
        assert(in_field(eq[i]) && in_field(d[i]));
        lemma_fmul_assoc(eq[i], d[i], fsub(ident.s_d@, d[i]));
        lemma_fmul_one(eq[i]);
    }
    lemma_total_zero(ident, cols, n);
}

/// Whether the prover is owed success: the length is a power of two, the table
/// is the committed one, and all entries are boolean.
pub open spec fn d_boolean_provable<P: MlPcs>(
    params: SnarkParams<P>,
    d: Seq<int>,
    aux: CommittedAux<P>,
    com: P::Commitment,
    s_d: int,
) -> bool {
    &&& is_pow2(d.len())
    &&& vals(aux.table@) == d
    &&& aux_of(params.committer_key, com, aux)
    &&& all_boolean(d, s_d)
}

/// The error of a prover whose round does not split its claim.
pub open spec fn round_refused() -> SnarkError {
    SnarkError::RelaxationSoundnessFinalCheckFailed {
        which: "relu_d_boolean::sumcheck_round_invariant",
    }
}

/// The error of a prover whose last claim is not the cell's value.
pub open spec fn identity_refused() -> SnarkError {
    SnarkError::RelaxationSoundnessFinalCheckFailed { which: "relu_d_boolean::final_identity" }
}

/// The sum of `d (s_d - d)` over the neurons, each weighted by the challenge
/// that the transcript gives. It is zero for boolean entries.
pub open spec fn weighted_sum<P: MlPcs>(
    layer_idx: usize,
    n_vars: usize,
    com: P::Commitment,
    s_d: Fr,
    d: Seq<int>,
    t0: Seq<u8>,
) -> int {
    let r = squeezed(d_boolean_t1::<P>(layer_idx, n_vars, com, s_d@, t0), n_vars as int);
    total(&DBoolean { s_d }, seq![eq_table(r), d], pow2(n_vars as nat))
}

/// Prove `d_lower[j] (s_d - d_lower[j]) = 0` for every neuron `j`. Where the
/// weighted sum over the committed entries is not zero, no proof is made.
pub fn prove_relu_d_boolean<P: MlPcs>(
    layer_idx: usize,
    d_lower_codes: &[Fr],
    d_lower_aux: &CommittedAux<P>,
    d_lower_commit: &P::Commitment,
    s_d: Fr,
    params: &SnarkParams<P>,
    sponge: &mut Transcript,
    rng: &mut P::Randomness,
) -> (r: Result<ReluDBooleanProof<P>, SnarkError>)
    ensures
        !is_pow2(d_lower_codes@.len()) ==> r == Err::<ReluDBooleanProof<P>, SnarkError>(
            SnarkError::ShapeMismatch {
                what: "relu_d_boolean: d_lower length must be a positive power of two",
            },
        ),
        is_pow2(d_lower_codes@.len()) && d_lower_aux.table@.len() != d_lower_codes@.len() ==> r
            == Err::<ReluDBooleanProof<P>, SnarkError>(
            SnarkError::ShapeMismatch {
                what: "relu_d_boolean: d_lower codes length != d_lower aux length",
            },
        ),
        !is_pow2(d_lower_codes@.len()) || d_lower_aux.table@.len() != d_lower_codes@.len()
            ==> state_of(*final(sponge)) == state_of(*old(sponge)),
        d_boolean_provable(*params, vals(d_lower_codes@), *d_lower_aux, *d_lower_commit, s_d@)
            ==> r is Ok,
        is_pow2(d_lower_codes@.len()) && d_lower_aux.table@.len() == d_lower_codes@.len() ==> (
        r matches Err(e) ==> {
            ||| e == round_refused()
            ||| e == identity_refused()
            ||| e is Pcs && !aux_of(params.committer_key, *d_lower_commit, *d_lower_aux)
        }),
        vals(d_lower_aux.table@) == vals(d_lower_codes@) && aux_of(
            params.committer_key,
            *d_lower_commit,
            *d_lower_aux,
        ) ==> forall|n: usize| #[trigger]
            pow2(n as nat) == d_lower_codes@.len() ==> {
                let sum = weighted_sum::<P>(
                    layer_idx,
                    n,
                    *d_lower_commit,
                    s_d,
                    vals(d_lower_codes@),
                    state_of(*old(sponge)),
                );
                &&& r is Ok <==> sum == 0
                &&& sum != 0 ==> r == Err::<ReluDBooleanProof<P>, SnarkError>(
                    if n == 0 {
                        identity_refused()
                    } else {
                        round_refused()
                    },
                )
            },
        r matches Ok(proof) ==> {
            let t0 = state_of(*old(sponge));
            let t2 = d_boolean_t2::<P>(layer_idx, proof.n_vars, *d_lower_commit, s_d@, t0);
            let s = samples_of(proof.rounds@);
            let point = vals(proof.r_final@);
            &&& proof.layer_idx == layer_idx
            &&& d_lower_codes@.len() == pow2(proof.n_vars as nat)
            &&& proof.rounds@.len() == proof.n_vars
            &&& vals(proof.r@) == squeezed(
                d_boolean_t1::<P>(layer_idx, proof.n_vars, *d_lower_commit, s_d@, t0),
                proof.n_vars as int,
            )
            &&& point == sc_point(true, t2, s)
            &&& forall|j: int|
                0 <= j < proof.n_vars ==> #[trigger] s[j] == round_samples(
                    &DBoolean { s_d },
                    fold_cols_many(
                        seq![eq_table(vals(proof.r@)), vals(d_lower_codes@)],
                        point.take(j),
                    ),
                    pow2((proof.n_vars - 1 - j) as nat),
                    3,
                )
            &&& (aux_of(params.committer_key, *d_lower_commit, *d_lower_aux)
                && params.keys_match()) ==> {
                &&& proof.d_lower_eval@ == mle(vals(d_lower_aux.table@), point)
                &&& d_boolean_verdict(
                    params.verifier_key,
                    proof,
                    layer_idx,
                    proof.n_vars,
                    s_d@,
                    *d_lower_commit,
                    t0,
                ) == Ok::<(), SnarkError>(())
                &&& state_of(*final(sponge)) == d_boolean_state(
                    params.verifier_key,
                    proof,
                    *d_lower_commit,
                    s_d@,
                    t0,
                )
            }
        },
{
    let n: usize = d_lower_codes.len();
    let n_vars: usize = match log2_exact(n) {
        Some(k) => k,
        None => {
            return Err(
                SnarkError::ShapeMismatch {
                    what: "relu_d_boolean: d_lower length must be a positive power of two",
                },
            );
        },
    };
    assert(is_pow2(d_lower_codes@.len()));
    if d_lower_aux.table.len() != n {
        return Err(
            SnarkError::ShapeMismatch {
                what: "relu_d_boolean: d_lower codes length != d_lower aux length",
            },
        );
    }
    proof {
        lemma_pow2_machine(n_vars as nat);
        assert forall|k: usize| #[trigger] pow2(k as nat) == d_lower_codes@.len() implies k
            == n_vars by {
            lemma_pow2_injective(k as nat, n_vars as nat);
        }
    }
    absorb_u64(sponge, layer_idx as u64);
    absorb_u64(sponge, n_vars as u64);
    absorb_commitment::<P>(sponge, d_lower_commit);
    absorb_fr(sponge, s_d);
    let r: Vec<Fr> = squeeze(sponge, n_vars);
    let eq: Vec<Fr> = build_eq_table(r.as_slice());
    let ghost eqv = eq_table(vals(r@));
    let ghost dv = vals(d_lower_codes@);
    let ident: DBoolean = DBoolean { s_d };
    let cols: Vec<Vec<Fr>> = vec![eq, copied(d_lower_codes)];
    proof {
        broadcast use lemma_view_in_field;

        assert(vals2(cols@) =~= seq![eqv, dv]);
        assert(vals(eq@).len() == eq@.len());
        assert forall|i: int| 0 <= i < eqv.len() implies in_field(#[trigger] eqv[i]) by {
            lemma_eq_weight_in_field(vals(r@), i);
        }
        if all_boolean(dv, s_d@) {
            lemma_boolean_total(&ident, eqv, dv, pow2(n_vars as nat));
        }
    }
    let zero: Fr = Fr::from_u64(0);
    let run: SumcheckRun<RoundPoly3> = match prove_rounds::<DBoolean, RoundPoly3>(
        &ident,
        cols,
        n_vars,
        zero,
        true,
        true,
        sponge,
    ) {
        Ok(run) => run,
        Err(_) => {
            return Err(
                SnarkError::RelaxationSoundnessFinalCheckFailed {
                    which: "relu_d_boolean::sumcheck_round_invariant",
                },
            );
        },
    };
    let ghost point = vals(run.point@);
    proof {
        lemma_mle_unpadded(vals(d_lower_aux.table@), point);
        assert(point.len() == n_vars);
    }
    let (d_lower_eval, d_lower_open): (Fr, P::Proof) = match hyrax_open_at::<P>(
        &params.committer_key,
        d_lower_aux,
        d_lower_commit,
        run.point.as_slice(),
        sponge,
        rng,
    ) {
        Ok(x) => x,
        Err(e) => {
            return Err(e);
        },
    };
    let eq2: Vec<Fr> = build_eq_table(r.as_slice());
    assert(vals(eq2@).len() == eq2@.len());
    let eq_eval: Fr = eval_multilinear_full(eq2.as_slice(), run.point.as_slice());
    proof {
        broadcast use group_in_field;

        lemma_rounds_check(
            true,
            d_boolean_t2::<P>(layer_idx, n_vars, *d_lower_commit, s_d@, state_of(*old(sponge))),
            samples_of(run.rounds@),
            0,
            point,
            0,
        );
        assert(run.finals@[0]@ == mle(seq![eqv, dv][0], point));
        assert(run.finals@[1]@ == mle(seq![eqv, dv][1], point));
        lemma_fadd_zero(ident.at(vals(run.finals@)));
        if n_vars == 0 {
            vstd::arithmetic::power2::lemma2_to64();
            reveal_with_fuel(total, 2);
            assert(vals(run.finals@) =~= cell_at(seq![eqv, dv], 0));
        }
    }
    if eq_eval.mul(d_lower_eval).mul(s_d.sub(d_lower_eval)) != run.claim {
        return Err(
            SnarkError::RelaxationSoundnessFinalCheckFailed {
                which: "relu_d_boolean::final_identity",
            },
        );
    }
    Ok(
        ReluDBooleanProof {
            layer_idx,
            n_vars,
            rounds: run.rounds,
            r,
            r_final: run.point,
            d_lower_eval,
            d_lower_open,
        },
    )
}

/// Verify a proof against the public commitment to `d_lower` and the public
/// scale code.
pub fn verify_relu_d_boolean<P: MlPcs>(
    proof: &ReluDBooleanProof<P>,
    expected_layer_idx: usize,
    expected_n_vars: usize,
    s_d: Fr,
    d_lower_commit: &P::Commitment,
    params: &SnarkParams<P>,
    sponge: &mut Transcript,
) -> (r: Result<(), SnarkError>)
    requires
        pow2(expected_n_vars as nat) <= usize::MAX,
    ensures
        r == d_boolean_verdict(
            params.verifier_key,
            *proof,
            expected_layer_idx,
            expected_n_vars,
            s_d@,
            *d_lower_commit,
            state_of(*old(sponge)),
        ),
        proof.layer_idx != expected_layer_idx || proof.n_vars != expected_n_vars || proof.r@.len()
            != expected_n_vars || proof.r_final@.len() != expected_n_vars || proof.rounds@.len()
            != expected_n_vars ==> state_of(*final(sponge)) == state_of(*old(sponge)),
        r is Ok ==> state_of(*final(sponge)) == d_boolean_state(
            params.verifier_key,
            *proof,
            *d_lower_commit,
            s_d@,
            state_of(*old(sponge)),
        ),
{
    if proof.layer_idx != expected_layer_idx {
        return Err(
            SnarkError::ArchitectureMismatch { what: "relu_d_boolean: layer_idx mismatch" },
        );
    }
    if proof.n_vars != expected_n_vars {
        return Err(
            SnarkError::ArchitectureMismatch {
                what: "relu_d_boolean: n_vars mismatch with public architecture",
            },
        );
    }
    if proof.r.len() != proof.n_vars || proof.r_final.len() != proof.n_vars || proof.rounds.len()
        != proof.n_vars {
        return Err(
            SnarkError::ShapeMismatch {
                what: "relu_d_boolean: r/r_final/rounds length must match n_vars",
            },
        );
    }
    proof {
        lemma_pow2_machine(expected_n_vars as nat);
    }
    absorb_u64(sponge, proof.layer_idx as u64);
    absorb_u64(sponge, proof.n_vars as u64);
    absorb_commitment::<P>(sponge, d_lower_commit);
    absorb_fr(sponge, s_d);
    let expected_r: Vec<Fr> = squeeze(sponge, proof.n_vars);
    if !same_elements(expected_r.as_slice(), proof.r.as_slice()) {
        return Err(SnarkError::TranscriptMismatch);
    }
    let zero: Fr = Fr::from_u64(0);
    let claim: Fr = match replay_rounds_at(&proof.rounds, zero, &proof.r_final, true, sponge) {
        Ok(c) => c,
        Err(e) => {
            return Err(e);
        },
    };
    match hyrax_verify_at::<P>(
        &params.verifier_key,
        d_lower_commit,
        proof.r_final.as_slice(),
        proof.d_lower_eval,
        &proof.d_lower_open,
        proof.n_vars,
        sponge,
    ) {
        Ok(true) => {},
        Ok(false) => {
            return Err(SnarkError::PcsOpenRejected { which: "relu_d_boolean::d_lower" });
        },
        Err(e) => {
            return Err(e);
        },
    }
    let eq: Vec<Fr> = build_eq_table(proof.r.as_slice());
    assert(vals(eq@).len() == eq@.len());
    let eq_eval: Fr = eval_multilinear_full(eq.as_slice(), proof.r_final.as_slice());
    let lhs: Fr = eq_eval.mul(proof.d_lower_eval).mul(s_d.sub(proof.d_lower_eval));
    if lhs != claim {
        return Err(
            SnarkError::RelaxationSoundnessFinalCheckFailed {
                which: "relu_d_boolean::final_identity",
            },
        );
    }
    Ok(())
}

} // verus!
