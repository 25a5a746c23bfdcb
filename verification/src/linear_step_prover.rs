//! The prover of the step through a linear layer.

use crate::eq_two_product::is_pow2;
use crate::errors::{SnarkError, SumcheckError, and_also, holds};
use crate::field::{Fr, all_in_field, fadd, fmul, in_field, lemma_view_in_field, vals};
use crate::inner_product::{
    InnerProductProof, ip_point, ip_state, ip_verdict, prove_inner_product_with_sponge,
};
use crate::linear_step::{
    LinearBackwardCommitContext, LinearBackwardProof, LinearComs, batched_claim, lb_alpha,
    lb_claims, lb_final, lb_r_out, lb_r_spec, lb_rounds_start, lb_t4, linear_state,
    linear_verdict, prover_coms,
};
use crate::matrix_laws::{law_matrix_product, law_partial_eval_lsb, product_table};
use crate::mle::{
    concat, eval_multilinear_full, fold_many, lemma_fold_many_len, lemma_pow2_machine,
    lemma_pow2_split, mle, partial_eval_lsb, partial_eval_msb, pow2_usize, rows_at,
};
use crate::mle_laws::{
    combined, dot, law_mle_linear, law_partial_eval_msb, lemma_fold_many_in_field,
    lemma_mle_in_field,
};
use crate::openings::{
    claim_accepted, committed_front, lemma_claims_accepted, open_front, openings_state,
};
use crate::pcs::{MlPcs, lemma_pow2_injective};
use crate::ring::{
    group_in_field, group_residue, lemma_commute, lemma_fadd_zero, lemma_fmul_one,
    lemma_residue_id,
};
use crate::transcript::{absorb_fr, absorb_u64, squeeze, squeeze_one, state_of};
use ark_crypto_primitives::sponge::merlin::Transcript;
use vstd::arithmetic::div_mod::{lemma_fundamental_div_mod_converse, lemma_mod_multiples_vanish, lemma_small_mod};
use vstd::arithmetic::mul::lemma_mul_is_commutative;
use vstd::arithmetic::power2::pow2;
use vstd::prelude::*;

verus! {

/// The tables of a linear step, over the logarithms of its axes.
pub struct LinearTables {
    pub a_old: Seq<int>,
    pub w: Seq<int>,
    pub b: Seq<int>,
    pub a_w: Seq<int>,
    pub a_b: Seq<int>,
}

/// Why tables are refused, where they are: the first axis or length that does
/// not fit.
pub open spec fn linear_refusal(
    t: LinearTables,
    a_dims: (usize, usize),
    w_dims: (usize, usize),
) -> Result<(), SnarkError> {
    let (lns, lni) = (a_dims.0 as nat, a_dims.1 as nat);
    let lno = w_dims.1 as nat;
    and_also(
        holds(
            lni == w_dims.0,
            SnarkError::ShapeMismatch {
                what: "linear backward: A_old's inner dim != W's inner dim",
            },
        ),
        and_also(
            holds(
                t.a_old.len() == pow2(lns + lni),
                SnarkError::ShapeMismatch { what: "A_old eval table size" },
            ),
            and_also(
                holds(
                    t.w.len() == pow2(lni + lno),
                    SnarkError::ShapeMismatch { what: "W eval table size" },
                ),
                and_also(
                    holds(
                        t.b.len() == pow2(lni),
                        SnarkError::ShapeMismatch { what: "b eval table size" },
                    ),
                    and_also(
                        holds(
                            t.a_w.len() == pow2(lns + lno),
                            SnarkError::ShapeMismatch { what: "A_W eval table size" },
                        ),
                        holds(
                            t.a_b.len() == pow2(lns),
                            SnarkError::ShapeMismatch { what: "A_b eval table size" },
                        ),
                    ),
                ),
            ),
        ),
    )
}

/// Whether `A_W` and `A_b` are the products that they are claimed to be.
pub open spec fn products_hold(t: LinearTables, lns: nat, lni: nat, lno: nat) -> bool {
    &&& t.a_w == product_table(t.a_old, t.w, pow2(lns), pow2(lni), pow2(lno))
    &&& t.a_b == product_table(t.a_old, t.b, pow2(lns), pow2(lni), 1)
}

/// Whether the five tables are the ones that the context's commitments were
/// made for.
pub open spec fn context_holds<P: MlPcs>(
    ctx: LinearBackwardCommitContext<P>,
    t: LinearTables,
    lns: nat,
    lni: nat,
    lno: nat,
) -> bool {
    &&& committed_front(*ctx.ck, *ctx.w_commitment, *ctx.w_aux, t.w, lni + lno)
    &&& committed_front(*ctx.ck, *ctx.b_commitment, *ctx.b_aux, t.b, lni)
    &&& committed_front(*ctx.ck, *ctx.a_old_commitment, *ctx.a_old_aux, t.a_old, lns + lni)
    &&& committed_front(*ctx.ck, *ctx.a_w_commitment, *ctx.a_w_aux, t.a_w, lns + lno)
    &&& committed_front(*ctx.ck, *ctx.a_b_commitment, *ctx.a_b_aux, t.a_b, lns)
}

/// What a proof says of the tables: its challenges are the transcript's, and
/// its claims are the tables' values.
pub open spec fn linear_made<P: MlPcs>(
    proof: LinearBackwardProof<P>,
    t: LinearTables,
    lns: usize,
    lni: usize,
    lno: usize,
    t0: Seq<u8>,
) -> bool {
    let (rs, ro, rj) = (vals(proof.r_spec@), vals(proof.r_out@), vals(proof.r_j@));
    &&& proof.r_spec@.len() == lns && proof.r_out@.len() == lno && proof.r_j@.len() == lni
    &&& rs == lb_r_spec(lns, lni, lno, t0)
    &&& ro == lb_r_out(lns, lni, lno, t0)
    &&& proof.batching_alpha@ == lb_alpha(lns, lni, lno, t0)
    &&& proof.matmul_claim@ == mle(t.a_w, rs + ro)
    &&& proof.matvec_claim@ == mle(t.a_b, rs)
    &&& rj == ip_point(proof.sumcheck, lb_rounds_start(proof, lns, lni, lno, t0))
    &&& proof.a_old_eval@ == mle(t.a_old, rs + rj)
    &&& proof.w_eval@ == mle(t.w, rj + ro)
    &&& proof.b_eval@ == mle(t.b, rj)
}

/// What the rounds of a step give.
struct LinearRounds {
    r_spec: Vec<Fr>,
    r_out: Vec<Fr>,
    alpha: Fr,
    matmul: Fr,
    matvec: Fr,
    sumcheck: InnerProductProof,
    r_j: Vec<Fr>,
    a_old_eval: Fr,
    w_eval: Fr,
    b_eval: Fr,
}

/// What holds of a step's rounds.
spec fn rounds_made(
    q: LinearRounds,
    t: LinearTables,
    lns: usize,
    lni: usize,
    lno: usize,
    t0: Seq<u8>,
) -> bool {
    let (rs, ro, rj) = (vals(q.r_spec@), vals(q.r_out@), vals(q.r_j@));
    let start = lb_t4(lns, lni, lno, q.matmul@, q.alpha@, q.matvec@, t0);
    &&& q.r_spec@.len() == lns && q.r_out@.len() == lno && q.r_j@.len() == lni
    &&& rs == lb_r_spec(lns, lni, lno, t0)
    &&& ro == lb_r_out(lns, lni, lno, t0)
    &&& q.alpha@ == lb_alpha(lns, lni, lno, t0)
    &&& q.matmul@ == mle(t.a_w, rs + ro)
    &&& q.matvec@ == mle(t.a_b, rs)
    &&& rj == ip_point(q.sumcheck, start)
    &&& q.a_old_eval@ == mle(t.a_old, rs + rj)
    &&& q.w_eval@ == mle(t.w, rj + ro)
    &&& q.b_eval@ == mle(t.b, rj)
    &&& products_hold(t, lns as nat, lni as nat, lno as nat) ==> ip_verdict(
        q.sumcheck,
        lni as nat,
        batched_claim(q.matmul@, q.alpha@, q.matvec@),
        fmul(q.a_old_eval@, fadd(q.w_eval@, fmul(q.alpha@, q.b_eval@))),
        start,
    ) == Ok::<(), SumcheckError>(())
}

/// The sum of products with a batched column.
proof fn lemma_dot_batched(v: Seq<int>, alpha: int, b: Seq<int>, w: Seq<int>, n: nat)
    requires
        n <= v.len(),
        b.len() == v.len(),
        w.len() == v.len(),
        all_in_field(v),
        all_in_field(b),
        all_in_field(w),
        in_field(alpha),
    ensures
        dot(v, combined(alpha, b, w), n) == fadd(dot(v, w, n), fmul(alpha, dot(v, b, n))),
        in_field(dot(v, w, n)),
        in_field(dot(v, b, n)),
    decreases n,
{
    broadcast use group_in_field;

    if n == 0 {
        lemma_fmul_one(alpha);
        lemma_fadd_zero(0);
    } else {
        let m = n - 1;
        lemma_dot_batched(v, alpha, b, w, m as nat);
        assert(in_field(v[m]) && in_field(b[m]) && in_field(w[m]));
        lemma_batched_term(
            dot(v, w, m as nat),
            dot(v, b, m as nat),
            v[m],
            alpha,
            b[m],
            w[m],
        );
    }
}

proof fn lemma_batched_term(x: int, y: int, v: int, alpha: int, b: int, w: int)
    requires
        in_field(x),
        in_field(y),
        in_field(v),
        in_field(alpha),
        in_field(b),
        in_field(w),
    ensures
        fadd(fadd(x, fmul(alpha, y)), fmul(v, fadd(fmul(alpha, b), w))) == fadd(
            fadd(x, fmul(v, w)),
            fmul(alpha, fadd(y, fmul(v, b))),
        ),
{
    broadcast use group_residue;

    lemma_residue_id(x);
    lemma_residue_id(y);
    lemma_residue_id(v);
    lemma_residue_id(alpha);
    lemma_residue_id(b);
    lemma_residue_id(w);
    let vb = v * b;
    assert(v * (alpha * b + w) == alpha * vb + v * w) by (nonlinear_arith)
        requires
            vb == v * b,
    ;
    assert(alpha * (y + vb) == alpha * y + alpha * vb) by (nonlinear_arith);
}

/// Where the products hold, the batched claim is the inner product of the two
/// columns.
proof fn lemma_linear_claim(
    t: LinearTables,
    rs: Seq<int>,
    ro: Seq<int>,
    lni: nat,
    alpha: int,
)
    requires
        t.a_old.len() == pow2(rs.len() + lni),
        t.w.len() == pow2(lni + ro.len()),
        t.b.len() == pow2(lni),
        all_in_field(t.a_old),
        all_in_field(t.w),
        all_in_field(t.b),
        all_in_field(rs),
        all_in_field(ro),
        in_field(alpha),
    ensures
        products_hold(t, rs.len(), lni, ro.len()) ==> batched_claim(
            mle(t.a_w, rs + ro),
            alpha,
            mle(t.a_b, rs),
        ) == dot(fold_many(t.a_old, rs), combined(alpha, t.b, rows_at(t.w, ro)), pow2(lni)),
        fold_many(t.a_old, rs).len() == pow2(lni),
        rows_at(t.w, ro).len() == pow2(lni),
        all_in_field(rows_at(t.w, ro)),
        all_in_field(fold_many(t.a_old, rs)),
{
    let inner = pow2(lni);
    lemma_pow2_split(rs.len(), lni);
    lemma_pow2_split(lni, ro.len());
    lemma_fold_many_len(t.a_old, rs, lni);
    lemma_fold_many_in_field(t.a_old, rs);
    let cols = pow2(ro.len());
    let rows = rows_at(t.w, ro);
    assert(t.w.len() / cols == inner) by {
        assert(t.w.len() == cols * inner) by (nonlinear_arith)
            requires
                t.w.len() == inner * cols,
        ;
        lemma_fundamental_div_mod_converse(t.w.len() as int, cols as int, inner as int, 0);
    }
    assert forall|i: int| 0 <= i < rows.len() implies in_field(#[trigger] rows[i]) by {
        let d = cols as int;
        assert(0 <= i * d && i * d + d <= t.w.len()) by (nonlinear_arith)
            requires
                0 <= i < inner,
                t.w.len() == inner * d,
                d > 0,
        ;
        lemma_mle_in_field(t.w.subrange(i * d, i * d + d), ro);
    }
    law_matrix_product(t.a_old, t.w, rs, ro, inner);
    let none = Seq::<int>::empty();
    vstd::arithmetic::power2::lemma2_to64();
    assert(inner * 1 == inner) by (nonlinear_arith);
    law_matrix_product(t.a_old, t.b, rs, none, inner);
    assert(rs + none =~= rs);
    assert(rows_at(t.b, none) =~= t.b) by {
        assert(t.b.len() / 1 == t.b.len());
        assert forall|i: int| 0 <= i < t.b.len() implies #[trigger] rows_at(t.b, none)[i]
            == t.b[i] by {
            assert(i * 1 == i);
            assert(t.b.subrange(i, i + 1)[0] == t.b[i]);
        }
    }
    lemma_dot_batched(fold_many(t.a_old, rs), alpha, t.b, rows, inner);
}

/// Draw the challenges, make the claims and run the rounds.
fn linear_rounds(
    a_old: &[Fr],
    a_dims: (usize, usize),
    w: &[Fr],
    lno: usize,
    b: &[Fr],
    a_w: &[Fr],
    a_b: &[Fr],
    sponge: &mut Transcript,
) -> (r: Result<LinearRounds, SnarkError>)
    requires
        a_old@.len() == pow2((a_dims.0 + a_dims.1) as nat),
        w@.len() == pow2((a_dims.1 + lno) as nat),
        b@.len() == pow2(a_dims.1 as nat),
        a_w@.len() == pow2((a_dims.0 + lno) as nat),
        a_b@.len() == pow2(a_dims.0 as nat),
        a_dims.0 < 64,
        a_dims.1 < 64,
        lno < 64,
    ensures
        r matches Ok(q) && {
            let t0 = state_of(*old(sponge));
            let (lns, lni) = a_dims;
            let t = LinearTables {
                a_old: vals(a_old@),
                w: vals(w@),
                b: vals(b@),
                a_w: vals(a_w@),
                a_b: vals(a_b@),
            };
            &&& rounds_made(q, t, lns, lni, lno, t0)
            &&& state_of(*final(sponge)) == ip_state(
                q.sumcheck,
                lb_t4(lns, lni, lno, q.matmul@, q.alpha@, q.matvec@, t0),
            )
        },
{
    let ghost t0 = state_of(*sponge);
    let ghost t = LinearTables {
        a_old: vals(a_old@),
        w: vals(w@),
        b: vals(b@),
        a_w: vals(a_w@),
        a_b: vals(a_b@),
    };
    let (lns, lni): (usize, usize) = a_dims;
    absorb_u64(sponge, lns as u64);
    absorb_u64(sponge, lni as u64);
    absorb_u64(sponge, lno as u64);
    let r_spec: Vec<Fr> = squeeze(sponge, lns);
    let r_out: Vec<Fr> = squeeze(sponge, lno);
    let alpha: Fr = squeeze_one(sponge);
    let w_len: usize = w.len();
    let left: Vec<Fr> = partial_eval_msb(a_old, r_spec.as_slice());
    proof {
        broadcast use lemma_view_in_field;

        lemma_linear_claim(t, vals(r_spec@), vals(r_out@), lni as nat, alpha@);
        assert(left@.len() == vals(left@).len());
        lemma_pow2_split(lni as nat, lno as nat);
        assert(pow2(lno as nat) <= w_len);
        assert(w@.len() % pow2(lno as nat) == 0) by {
            lemma_mod_multiples_vanish(pow2(lni as nat) as int, 0, pow2(lno as nat) as int);
            lemma_small_mod(0, pow2(lno as nat));
            lemma_mul_is_commutative(pow2(lni as nat) as int, pow2(lno as nat) as int);
        }
    }
    let w_at_out: Vec<Fr> = partial_eval_lsb(w, r_out.as_slice(), lno);
    assert(w_at_out@.len() == vals(w_at_out@).len());
    let right: Vec<Fr> = combine_with(alpha, b, w_at_out.as_slice());
    let full: Vec<Fr> = concat(r_spec.as_slice(), r_out.as_slice());
    let matmul: Fr = eval_multilinear_full(a_w, full.as_slice());
    let matvec: Fr = eval_multilinear_full(a_b, r_spec.as_slice());
    let batched: Fr = matmul.add(alpha.mul(matvec));
    absorb_fr(sponge, matmul);
    absorb_fr(sponge, matvec);
    absorb_fr(sponge, batched);
    let ghost start = state_of(*sponge);
    assert(is_pow2(left@.len()));
    let (sumcheck, r_j): (InnerProductProof, Vec<Fr>) = match prove_inner_product_with_sponge(
        left.as_slice(),
        right.as_slice(),
        sponge,
    ) {
        Ok(x) => x,
        Err(e) => {
            return Err(SnarkError::Sumcheck(e));
        },
    };
    proof {
        lemma_pow2_injective(sumcheck.rounds@.len(), lni as nat);
    }
    let a_point: Vec<Fr> = concat(r_spec.as_slice(), r_j.as_slice());
    let a_old_eval: Fr = eval_multilinear_full(a_old, a_point.as_slice());
    let w_point: Vec<Fr> = concat(r_j.as_slice(), r_out.as_slice());
    let w_eval: Fr = eval_multilinear_full(w, w_point.as_slice());
    let b_eval: Fr = eval_multilinear_full(b, r_j.as_slice());
    proof {
        broadcast use lemma_view_in_field, group_in_field;

        let (rs, ro, rj) = (vals(r_spec@), vals(r_out@), vals(r_j@));
        law_partial_eval_msb(t.a_old, rs, rj);
        law_partial_eval_lsb(t.w, rj, ro);
        law_mle_linear(alpha@, t.b, rows_at(t.w, ro), rj);
        lemma_commute(fmul(alpha@, mle(t.b, rj)), mle(rows_at(t.w, ro), rj));
    }
    Ok(
        LinearRounds {
            r_spec,
            r_out,
            alpha,
            matmul,
            matvec,
            sumcheck,
            r_j,
            a_old_eval,
            w_eval,
            b_eval,
        },
    )
}

/// The entrywise sum of a multiple of one column and of another.
pub fn combine_with(a: Fr, s: &[Fr], t: &[Fr]) -> (r: Vec<Fr>)
    requires
        s@.len() == t@.len(),
    ensures
        vals(r@) == combined(a@, vals(s@), vals(t@)),
        r@.len() == s@.len(),
{
    let mut out: Vec<Fr> = Vec::with_capacity(s.len());
    let mut i: usize = 0;
    while i < s.len()
        invariant
            i <= s@.len(),
            s@.len() == t@.len(),
            out@.len() == i,
            forall|k: int|
                0 <= k < i ==> (#[trigger] out@[k])@ == combined(a@, vals(s@), vals(t@))[k],
        decreases s@.len() - i,
    {
        out.push(a.mul(s[i]).add(t[i]));
        i += 1;
    }
    assert(vals(out@) =~= combined(a@, vals(s@), vals(t@)));
    out
}

/// The accepted openings of an honest proof.
proof fn lemma_linear_accepts<P: MlPcs>(
    vk: P::VerifierKey,
    proof: LinearBackwardProof<P>,
    coms: LinearComs<P>,
    a_dims: (usize, usize),
    w_dims: (usize, usize),
    t0: Seq<u8>,
)
    requires
        a_dims.1 == w_dims.0,
        proof.r_spec@.len() == a_dims.0,
        proof.r_out@.len() == w_dims.1,
        proof.r_j@.len() == a_dims.1,
        vals(proof.r_spec@) == lb_r_spec(a_dims.0, a_dims.1, w_dims.1, t0),
        vals(proof.r_out@) == lb_r_out(a_dims.0, a_dims.1, w_dims.1, t0),
        proof.batching_alpha@ == lb_alpha(a_dims.0, a_dims.1, w_dims.1, t0),
        ({
            let start = lb_rounds_start(proof, a_dims.0, a_dims.1, w_dims.1, t0);
            let s = ip_state(proof.sumcheck, start);
            let c = lb_claims(
                proof,
                coms,
                a_dims.0 as nat,
                a_dims.1 as nat,
                w_dims.1 as nat,
            );
            &&& ip_verdict(
                proof.sumcheck,
                a_dims.1 as nat,
                batched_claim(proof.matmul_claim@, proof.batching_alpha@, proof.matvec_claim@),
                lb_final(proof),
                start,
            ) == Ok::<(), SumcheckError>(())
            &&& ip_point(proof.sumcheck, start) == vals(proof.r_j@)
            &&& forall|k: nat| k < 5 ==> #[trigger] claim_accepted(vk, c, k, s)
        }),
    ensures
        linear_verdict(vk, proof, coms, a_dims, w_dims, t0) == Ok::<(), SnarkError>(()),
{
    reveal(linear_verdict);
    let start = lb_rounds_start(proof, a_dims.0, a_dims.1, w_dims.1, t0);
    let s = ip_state(proof.sumcheck, start);
    let c = lb_claims(proof, coms, a_dims.0 as nat, a_dims.1 as nat, w_dims.1 as nat);
    lemma_claims_accepted(vk, c, 5, s);
}

/// Prove a linear step.
pub fn prove_linear_backward<P: MlPcs>(
    a_old_evals: &[Fr],
    a_old_log_dims: (usize, usize),
    w_evals: &[Fr],
    w_log_dims: (usize, usize),
    b_evals: &[Fr],
    a_w_evals: &[Fr],
    a_b_evals: &[Fr],
    commit_ctx: &LinearBackwardCommitContext<'_, P>,
    sponge: &mut Transcript,
    rng: &mut P::Randomness,
) -> (r: Result<LinearBackwardProof<P>, SnarkError>)
    requires
        pow2((a_old_log_dims.0 + a_old_log_dims.1) as nat) <= usize::MAX,
        pow2((a_old_log_dims.1 + w_log_dims.1) as nat) <= usize::MAX,
        pow2((a_old_log_dims.0 + w_log_dims.1) as nat) <= usize::MAX,
    ensures
        ({
            let t = LinearTables {
                a_old: vals(a_old_evals@),
                w: vals(w_evals@),
                b: vals(b_evals@),
                a_w: vals(a_w_evals@),
                a_b: vals(a_b_evals@),
            };
            let t0 = state_of(*old(sponge));
            let (lns, lni) = a_old_log_dims;
            let lno = w_log_dims.1;
            &&& linear_refusal(t, a_old_log_dims, w_log_dims) matches Err(e) ==> r == Err::<
                LinearBackwardProof<P>,
                SnarkError,
            >(e)
            &&& r matches Ok(proof) ==> linear_made(proof, t, lns, lni, lno, t0)
            &&& linear_refusal(t, a_old_log_dims, w_log_dims) is Ok && context_holds(
                *commit_ctx,
                t,
                lns as nat,
                lni as nat,
                lno as nat,
            ) ==> {
                &&& r matches Ok(proof)
                &&& forall|vk: P::VerifierKey| #[trigger]
                    P::keys_match(*commit_ctx.ck, vk) && products_hold(
                        t,
                        lns as nat,
                        lni as nat,
                        lno as nat,
                    ) ==> {
                        &&& linear_verdict(
                            vk,
                            proof,
                            prover_coms(*commit_ctx),
                            a_old_log_dims,
                            w_log_dims,
                            t0,
                        ) == Ok::<(), SnarkError>(())
                        &&& state_of(*final(sponge)) == linear_state(
                            vk,
                            proof,
                            prover_coms(*commit_ctx),
                            lns,
                            lni,
                            lno,
                            t0,
                        )
                    }
            }
        }),
{
    let ghost t = LinearTables {
        a_old: vals(a_old_evals@),
        w: vals(w_evals@),
        b: vals(b_evals@),
        a_w: vals(a_w_evals@),
        a_b: vals(a_b_evals@),
    };
    let ghost t0 = state_of(*sponge);
    let (lns, lni): (usize, usize) = a_old_log_dims;
    let (lni2, lno): (usize, usize) = w_log_dims;
    if lni != lni2 {
        return Err(
            SnarkError::ShapeMismatch {
                what: "linear backward: A_old's inner dim != W's inner dim",
            },
        );
    }
    proof {
        lemma_pow2_machine((lns + lni) as nat);
        lemma_pow2_machine((lni + lno) as nat);
        lemma_pow2_machine((lns + lno) as nat);
        lemma_pow2_split(lns as nat, lni as nat);
    }
    if a_old_evals.len() != pow2_usize(lns + lni) {
        return Err(SnarkError::ShapeMismatch { what: "A_old eval table size" });
    }
    if w_evals.len() != pow2_usize(lni + lno) {
        return Err(SnarkError::ShapeMismatch { what: "W eval table size" });
    }
    if b_evals.len() != pow2_usize(lni) {
        return Err(SnarkError::ShapeMismatch { what: "b eval table size" });
    }
    if a_w_evals.len() != pow2_usize(lns + lno) {
        return Err(SnarkError::ShapeMismatch { what: "A_W eval table size" });
    }
    if a_b_evals.len() != pow2_usize(lns) {
        return Err(SnarkError::ShapeMismatch { what: "A_b eval table size" });
    }
    let q: LinearRounds = match linear_rounds(
        a_old_evals,
        a_old_log_dims,
        w_evals,
        lno,
        b_evals,
        a_w_evals,
        a_b_evals,
        sponge,
    ) {
        Ok(q) => q,
        Err(e) => {
            return Err(e);
        },
    };
    linear_openings(q, a_old_log_dims, w_log_dims, Ghost(t), Ghost(t0), commit_ctx, sponge, rng)
}

/// Open the five tensors at the points of the rounds.
fn linear_openings<P: MlPcs>(
    q: LinearRounds,
    a_dims: (usize, usize),
    w_dims: (usize, usize),
    t: Ghost<LinearTables>,
    t0: Ghost<Seq<u8>>,
    ctx: &LinearBackwardCommitContext<'_, P>,
    sponge: &mut Transcript,
    rng: &mut P::Randomness,
) -> (r: Result<LinearBackwardProof<P>, SnarkError>)
    requires
        a_dims.1 == w_dims.0,
        rounds_made(q, t@, a_dims.0, a_dims.1, w_dims.1, t0@),
        state_of(*old(sponge)) == ip_state(
            q.sumcheck,
            lb_t4(a_dims.0, a_dims.1, w_dims.1, q.matmul@, q.alpha@, q.matvec@, t0@),
        ),
    ensures
        r matches Ok(proof) ==> linear_made(proof, t@, a_dims.0, a_dims.1, w_dims.1, t0@),
        context_holds(*ctx, t@, a_dims.0 as nat, a_dims.1 as nat, w_dims.1 as nat) ==> {
            &&& r matches Ok(proof)
            &&& forall|vk: P::VerifierKey| #[trigger]
                P::keys_match(*ctx.ck, vk) && products_hold(
                    t@,
                    a_dims.0 as nat,
                    a_dims.1 as nat,
                    w_dims.1 as nat,
                ) ==> {
                    &&& linear_verdict(vk, proof, prover_coms(*ctx), a_dims, w_dims, t0@) == Ok::<
                        (),
                        SnarkError,
                    >(())
                    &&& state_of(*final(sponge)) == linear_state(
                        vk,
                        proof,
                        prover_coms(*ctx),
                        a_dims.0,
                        a_dims.1,
                        w_dims.1,
                        t0@,
                    )
                }
        },
{
    let ghost holds_ctx = context_holds(
        *ctx,
        t@,
        a_dims.0 as nat,
        a_dims.1 as nat,
        w_dims.1 as nat,
    );
    let ghost s0 = state_of(*sponge);
    let w_point: Vec<Fr> = concat(q.r_j.as_slice(), q.r_out.as_slice());
    let (w_val, w_open): (Fr, P::Proof) = match open_front::<P>(
        ctx.ck,
        ctx.w_aux,
        ctx.w_commitment,
        w_point.as_slice(),
        sponge,
        rng,
    ) {
        Ok(x) => x,
        Err(e) => {
            return Err(e);
        },
    };
    let ghost s1 = state_of(*sponge);
    let (b_val, b_open): (Fr, P::Proof) = match open_front::<P>(
        ctx.ck,
        ctx.b_aux,
        ctx.b_commitment,
        q.r_j.as_slice(),
        sponge,
        rng,
    ) {
        Ok(x) => x,
        Err(e) => {
            return Err(e);
        },
    };
    let ghost s2 = state_of(*sponge);
    let a_point: Vec<Fr> = concat(q.r_spec.as_slice(), q.r_j.as_slice());
    let (a_old_val, a_old_open): (Fr, P::Proof) = match open_front::<P>(
        ctx.ck,
        ctx.a_old_aux,
        ctx.a_old_commitment,
        a_point.as_slice(),
        sponge,
        rng,
    ) {
        Ok(x) => x,
        Err(e) => {
            return Err(e);
        },
    };
    let ghost s3 = state_of(*sponge);
    let aw_point: Vec<Fr> = concat(q.r_spec.as_slice(), q.r_out.as_slice());
    let (a_w_val, a_w_open): (Fr, P::Proof) = match open_front::<P>(
        ctx.ck,
        ctx.a_w_aux,
        ctx.a_w_commitment,
        aw_point.as_slice(),
        sponge,
        rng,
    ) {
        Ok(x) => x,
        Err(e) => {
            return Err(e);
        },
    };
    let ghost s4 = state_of(*sponge);
    let (a_b_val, a_b_open): (Fr, P::Proof) = match open_front::<P>(
        ctx.ck,
        ctx.a_b_aux,
        ctx.a_b_commitment,
        q.r_spec.as_slice(),
        sponge,
        rng,
    ) {
        Ok(x) => x,
        Err(e) => {
            return Err(e);
        },
    };
    let ghost s5 = state_of(*sponge);
    let proof: LinearBackwardProof<P> = LinearBackwardProof {
        r_spec: q.r_spec,
        r_out: q.r_out,
        batching_alpha: q.alpha,
        matmul_claim: q.matmul,
        matvec_claim: q.matvec,
        sumcheck: q.sumcheck,
        r_j: q.r_j,
        a_old_eval: q.a_old_eval,
        w_eval: q.w_eval,
        b_eval: q.b_eval,
        w_open,
        b_open,
        a_old_open,
        a_w_open,
        a_b_open,
    };
    proof {
        if holds_ctx {
            let (lns, lni, lno) = (a_dims.0 as nat, a_dims.1 as nat, w_dims.1 as nat);
            let coms = prover_coms(*ctx);
            let c = lb_claims(proof, coms, lns, lni, lno);
            assert forall|vk: P::VerifierKey| #[trigger]
                P::keys_match(*ctx.ck, vk) && products_hold(t@, lns, lni, lno) implies {
                &&& linear_verdict(vk, proof, coms, a_dims, w_dims, t0@) == Ok::<(), SnarkError>(
                    (),
                )
                &&& state_of(*sponge) == linear_state(
                    vk,
                    proof,
                    coms,
                    a_dims.0,
                    a_dims.1,
                    w_dims.1,
                    t0@,
                )
            } by {
                reveal(linear_state);
                reveal_with_fuel(openings_state, 6);
                assert(openings_state(vk, c, 1, s0) == s1);
                assert(openings_state(vk, c, 2, s0) == s2);
                assert(openings_state(vk, c, 3, s0) == s3);
                assert(openings_state(vk, c, 4, s0) == s4);
                assert(openings_state(vk, c, 5, s0) == s5);
                assert forall|k: nat| k < 5 implies #[trigger] claim_accepted(vk, c, k, s0) by {
                    if k == 0 {
                    } else if k == 1 {
                    } else if k == 2 {
                    } else if k == 3 {
                    } else {
                        assert(k == 4);
                    }
                }
                lemma_linear_accepts(vk, proof, coms, a_dims, w_dims, t0@);
            }
        }
    }
    Ok(proof)
}

} // verus!
