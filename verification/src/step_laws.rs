//! What accepted proofs say of the steps of a pass.

use crate::activation_matrix::{
    ActivationMatrixStepProof, am_t2, am_t3, am_t4, am_t5, matrix_check, matrix_coms_at,
    matrix_next, matrix_openings_verdict, matrix_rounds_verdict, matrix_step_verdict,
};
use crate::activation_step::{
    ActivationLayerStepProof, activation_check, activation_coms_at, activation_next,
    activation_openings_verdict, activation_rounds_verdict, activation_step_verdict, as_t2, as_t3,
    as_t4, as_t5, matrix_nv,
};
use crate::binding::{
    law_joint_opening_binds, law_opening_binds, lemma_openings_each, lemma_vals_in_field,
    opens_to,
};
use crate::chain::{chain_state, lemma_chain_each};
use crate::columns::even_vars;
use crate::commit::{PassCommitments, TensorCommitments};
use crate::field::{fadd, fmul, fsub, lemma_view_in_field, vals};
use crate::hidden_parts::slope_chain_verdict;
use crate::hidden_pass::bias_chain_verdict;
use crate::inner_product::ip_state;
use crate::linear_chain::{
    LinearLayerStepProof, linear_coms_at, linear_step_verdict, linear_steps_state,
    linear_steps_verdict,
};
use crate::linear_step::{
    LinearBackwardProof, LinearComs, batched_claim, lb_claims, lb_final, lb_rounds_start,
    linear_verdict,
};
use crate::logup::{lower, upper, vals4};
use crate::lookup_pair::pair_verdict;
use crate::mle::{eq_points, mle};
use crate::openings::{OpeningView, openings_state, openings_verdict, pair_open_verdict};
use crate::params::SnarkParams;
use crate::pcs::{MlPcs, mle_padded};
use crate::relu_chain::{claimed_shapes, relu_chain_verdict, relu_check, relu_next};
use crate::relu_step::{ReluStepProof, relu_step_verdict, rs_t2, rs_t3, rs_t4};
use crate::round_laws::{
    fractions_sum_to_zero, law_accepted_inner_product, law_accepted_pair,
    law_accepted_two_products, rounds_carry,
};
use crate::sumcheck::{samples_of, sc_point};
use crate::table_mle::{law_relu_table, relu_table};
use crate::trace::BoundDir;
use crate::transcript::{abs_fr, abs_u64, absorbed, after_squeeze, squeezed};
use vstd::arithmetic::power2::pow2;
use vstd::prelude::*;

verus! {

// ---- Linear steps ----

/// An accepted linear step: its axes agree, its challenges were drawn after the
/// axes, and its rounds carry the claimed value of the product with the weights
/// plus the challenge times that of the product with the biases to the claimed
/// coefficients times the same mix of the claimed weights and biases.
pub proof fn law_accepted_linear_step<P: MlPcs>(
    vk: P::VerifierKey,
    proof: LinearBackwardProof<P>,
    coms: LinearComs<P>,
    a_dims: (usize, usize),
    w_dims: (usize, usize),
    t0: Seq<u8>,
)
    requires
        linear_verdict(vk, proof, coms, a_dims, w_dims, t0) is Ok,
    ensures
        a_dims.1 == w_dims.0,
        proof.r_spec@.len() == a_dims.0,
        proof.r_j@.len() == a_dims.1,
        proof.r_out@.len() == w_dims.1,
        ({
            let t1 = abs_u64(
                abs_u64(abs_u64(t0, a_dims.0 as u64), a_dims.1 as u64),
                w_dims.1 as u64,
            );
            let t2 = after_squeeze(t1, a_dims.0 as int);
            &&& vals(proof.r_spec@) == squeezed(t1, a_dims.0 as int)
            &&& vals(proof.r_out@) == squeezed(t2, w_dims.1 as int)
            &&& proof.batching_alpha@ == squeezed(after_squeeze(t2, w_dims.1 as int), 1)[0]
        }),
        rounds_carry(
            samples_of(proof.sumcheck.rounds@),
            vals(proof.r_j@),
            fadd(proof.matmul_claim@, fmul(proof.batching_alpha@, proof.matvec_claim@)),
            fmul(
                proof.a_old_eval@,
                fadd(proof.w_eval@, fmul(proof.batching_alpha@, proof.b_eval@)),
            ),
        ),
{
    reveal(linear_verdict);
    law_accepted_inner_product(
        proof.sumcheck,
        a_dims.1 as nat,
        batched_claim(proof.matmul_claim@, proof.batching_alpha@, proof.matvec_claim@),
        lb_final(proof),
        lb_rounds_start(proof, a_dims.0, a_dims.1, w_dims.1, t0),
    );
}

/// The rounds of an accepted linear step were drawn after both claims were
/// absorbed.
pub proof fn law_accepted_linear_rounds<P: MlPcs>(
    vk: P::VerifierKey,
    proof: LinearBackwardProof<P>,
    coms: LinearComs<P>,
    a_dims: (usize, usize),
    w_dims: (usize, usize),
    t0: Seq<u8>,
)
    requires
        linear_verdict(vk, proof, coms, a_dims, w_dims, t0) is Ok,
    ensures
        ({
            let t1 = abs_u64(
                abs_u64(abs_u64(t0, a_dims.0 as u64), a_dims.1 as u64),
                w_dims.1 as u64,
            );
            let t2 = after_squeeze(after_squeeze(t1, a_dims.0 as int), w_dims.1 as int);
            let t3 = abs_fr(
                abs_fr(
                    abs_fr(after_squeeze(t2, 1), proof.matmul_claim@),
                    proof.matvec_claim@,
                ),
                fadd(proof.matmul_claim@, fmul(proof.batching_alpha@, proof.matvec_claim@)),
            );
            vals(proof.r_j@) == sc_point(false, t3, samples_of(proof.sumcheck.rounds@))
        }),
{
    reveal(linear_verdict);
}

/// The values that an accepted linear step claims are those of its five
/// commitments, as far as they hold known tables: the weights at the inner and
/// the outer challenge, the biases at the inner one, the coefficients at the
/// rows' and the inner one, and the two products at the rows' and, for the
/// weights' product, the outer one.
pub proof fn law_accepted_linear_tables<P: MlPcs>(
    vk: P::VerifierKey,
    proof: LinearBackwardProof<P>,
    coms: LinearComs<P>,
    a_dims: (usize, usize),
    w_dims: (usize, usize),
    t0: Seq<u8>,
    w: Seq<int>,
    b: Seq<int>,
    a_old: Seq<int>,
    a_w: Seq<int>,
    a_b: Seq<int>,
)
    requires
        linear_verdict(vk, proof, coms, a_dims, w_dims, t0) is Ok,
        opens_to::<P>(vk, coms.w, w),
        opens_to::<P>(vk, coms.b, b),
        opens_to::<P>(vk, coms.a_old, a_old),
        opens_to::<P>(vk, coms.a_w, a_w),
        opens_to::<P>(vk, coms.a_b, a_b),
    ensures
        ({
            let (rows, inner, outer) = (vals(proof.r_spec@), vals(proof.r_j@), vals(proof.r_out@));
            let (lns, lni, lno) = (a_dims.0 as nat, a_dims.1 as nat, w_dims.1 as nat);
            &&& proof.w_eval@ == mle_padded(w, inner + outer, even_vars(lni + lno))
            &&& proof.b_eval@ == mle_padded(b, inner, even_vars(lni))
            &&& proof.a_old_eval@ == mle_padded(a_old, rows + inner, even_vars(lns + lni))
            &&& proof.matmul_claim@ == mle_padded(a_w, rows + outer, even_vars(lns + lno))
            &&& proof.matvec_claim@ == mle_padded(a_b, rows, even_vars(lns))
        }),
{
    reveal(linear_verdict);
    let (lns, lni, lno) = (a_dims.0, a_dims.1, w_dims.1);
    let claims = lb_claims(proof, coms, lns as nat, lni as nat, lno as nat);
    let t1 = ip_state(proof.sumcheck, lb_rounds_start(proof, lns, lni, lno, t0));
    lemma_opened_claim(vk, claims, 5, t1, 0, w);
    lemma_opened_claim(vk, claims, 5, t1, 1, b);
    lemma_opened_claim(vk, claims, 5, t1, 2, a_old);
    lemma_opened_claim(vk, claims, 5, t1, 3, a_w);
    lemma_opened_claim(vk, claims, 5, t1, 4, a_b);
}

/// A claim among accepted openings has its table's value.
pub proof fn lemma_opened_claim<P: MlPcs>(
    vk: P::VerifierKey,
    claims: Seq<OpeningView<P>>,
    k: nat,
    t0: Seq<u8>,
    i: int,
    table: Seq<int>,
)
    requires
        openings_verdict(vk, claims, k, t0) is Ok,
        0 <= i < k,
        opens_to::<P>(vk, claims[i].commitment, table),
    ensures
        claims[i].value == mle_padded(table, claims[i].point, claims[i].n_vars),
{
    lemma_openings_each(vk, claims, k, t0, i);
    let c = claims[i];
    law_opening_binds::<P>(
        vk,
        c.commitment,
        table,
        c.point,
        c.value,
        c.proof,
        c.n_vars,
        openings_state(vk, claims, i as nat, t0),
    );
}

/// Every step of an accepted chain of linear steps is accepted, after its
/// layer's index was absorbed, for the weights and biases of its layer, the
/// coefficients behind the layer, and the products that stand at the step's
/// place.
pub proof fn law_accepted_linear_chain<P: MlPcs>(
    vk: P::VerifierKey,
    proofs: Seq<LinearLayerStepProof<P>>,
    coms: TensorCommitments<P>,
    pass: PassCommitments<P>,
    k: nat,
    t0: Seq<u8>,
    i: int,
)
    requires
        linear_steps_verdict(vk, proofs, coms, pass, k, t0) is Ok,
        0 <= i < k,
    ensures
        exists|t: Seq<u8>|
            (#[trigger] linear_verdict(
                vk,
                proofs[i].proof,
                (LinearComs {
                    w: coms.weight@[proofs[i].layer_idx as int]->0,
                    b: coms.bias@[proofs[i].layer_idx as int]->0,
                    a_old: pass.chain_a@[proofs[i].layer_idx + 1],
                    a_w: pass.linear_a_w@[i],
                    a_b: pass.linear_a_b@[i],
                }),
                proofs[i].a_old_log_dims,
                proofs[i].w_log_dims,
                abs_u64(t, proofs[i].layer_idx as u64),
            )) is Ok,
    decreases k,
{
    if i < k - 1 {
        law_accepted_linear_chain(vk, proofs, coms, pass, (k - 1) as nat, t0, i);
    } else {
        let s = proofs[i];
        let t = linear_steps_state(vk, proofs, coms, pass, i as nat, t0);
        assert(linear_step_verdict(vk, proofs, coms, pass, i as nat, t0) is Ok);
        assert(linear_verdict(
            vk,
            s.proof,
            linear_coms_at(coms, pass, s.layer_idx as int, i),
            s.a_old_log_dims,
            s.w_log_dims,
            abs_u64(t, s.layer_idx as u64),
        ) is Ok);
    }
}

// ---- Activation steps ----

/// An accepted activation step: its challenge was drawn after the layer, the
/// direction and the axes; its rounds carry the claimed bias to the weight of
/// the rows' challenge times the two products of coefficients and offsets; and
/// the coefficients that take the other line are the coefficients less those
/// that take the first.
pub proof fn law_accepted_activation_step<P: MlPcs>(
    vk: P::VerifierKey,
    proof: ActivationLayerStepProof<P>,
    d: BoundDir,
    coms: TensorCommitments<P>,
    pass: PassCommitments<P>,
    i: int,
    t0: Seq<u8>,
)
    requires
        activation_step_verdict(vk, proof, d, coms, pass, i, t0) is Ok,
    ensures
        coms.relaxation@[proof.layer_idx as int] is Some,
        ({
            let (lns, lni) = proof.a_old_log_dims;
            let sc = proof.sumcheck;
            let t1 = abs_u64(
                abs_u64(
                    abs_u64(
                        abs_u64(t0, proof.layer_idx as u64),
                        if d is Lower {
                            0
                        } else {
                            1
                        },
                    ),
                    lns as u64,
                ),
                lni as u64,
            );
            let t2 = abs_fr(after_squeeze(t1, lns as int), proof.delta_b_claim@);
            &&& vals(proof.r_spec@) == squeezed(t1, lns as int)
            &&& vals(sc.r_full@) == sc_point(false, t2, samples_of(sc.rounds@))
            &&& sc.r_full@.len() == lns + lni
            &&& rounds_carry(
                samples_of(sc.rounds@),
                vals(sc.r_full@),
                proof.delta_b_claim@,
                fmul(
                    sc.eq_eval@,
                    fadd(fmul(sc.p1_eval@, sc.q1_eval@), fmul(sc.p2_eval@, sc.q2_eval@)),
                ),
            )
            &&& sc.eq_eval@ == eq_points(vals(proof.r_spec@), vals(sc.r_full@).take(lns as int))
            &&& sc.p2_eval@ == fsub(proof.a_old_eval@, sc.p1_eval@)
        }),
{
    reveal(activation_rounds_verdict);
    reveal(activation_openings_verdict);
    let (lns, lni) = proof.a_old_log_dims;
    law_accepted_two_products(
        proof.sumcheck,
        (lns + lni) as nat,
        proof.delta_b_claim@,
        as_t2(proof, d, t0),
    );
}

/// The values that an accepted activation step claims are those of its
/// commitments, as far as they hold known tables. In the lower direction the
/// positive coefficients take the lower line's offsets and the others the
/// upper's; in the upper direction it is the other way round.
pub proof fn law_accepted_activation_tables<P: MlPcs>(
    vk: P::VerifierKey,
    proof: ActivationLayerStepProof<P>,
    d: BoundDir,
    coms: TensorCommitments<P>,
    pass: PassCommitments<P>,
    i: int,
    t0: Seq<u8>,
    a_old: Seq<int>,
    a_pos: Seq<int>,
    b_lower: Seq<int>,
    b_upper: Seq<int>,
    made: Seq<int>,
)
    requires
        activation_step_verdict(vk, proof, d, coms, pass, i, t0) is Ok,
        opens_to::<P>(vk, pass.chain_a@[proof.layer_idx + 1], a_old),
        opens_to::<P>(vk, pass.activation_a_pos@[i], a_pos),
        opens_to::<P>(vk, coms.relaxation@[proof.layer_idx as int]->0.b_lower, b_lower),
        opens_to::<P>(vk, coms.relaxation@[proof.layer_idx as int]->0.b_upper, b_upper),
        opens_to::<P>(vk, pass.activation_bias_doubled@[i], made),
    ensures
        ({
            let (lns, lni) = proof.a_old_log_dims;
            let sc = proof.sumcheck;
            let full = vals(sc.r_full@);
            let nv = even_vars((lns + lni) as nat);
            let cols = full.skip(lns as int);
            let lower = mle_padded(b_lower, cols, even_vars(lni as nat));
            let upper = mle_padded(b_upper, cols, even_vars(lni as nat));
            &&& proof.a_old_eval@ == mle_padded(a_old, full, nv)
            &&& sc.p1_eval@ == mle_padded(a_pos, full, nv)
            &&& d is Lower ==> sc.q1_eval@ == lower && sc.q2_eval@ == upper
            &&& d is Upper ==> sc.q1_eval@ == upper && sc.q2_eval@ == lower
            &&& proof.delta_b_claim@ == mle_padded(made, vals(proof.r_spec@), even_vars(lns as nat))
        }),
{
    reveal(activation_rounds_verdict);
    reveal(activation_openings_verdict);
    let (lns, lni) = proof.a_old_log_dims;
    let sc = proof.sumcheck;
    let full = vals(sc.r_full@);
    let c = activation_coms_at(
        d,
        coms.relaxation@[proof.layer_idx as int]->0,
        pass,
        proof.layer_idx as int,
        i,
    );
    lemma_opened_pair::<P>(
        vk,
        c.a_old,
        c.a_pos,
        proof.a_old_eval@,
        sc.p1_eval@,
        full,
        proof.a_full_batched_open,
        matrix_nv(proof.a_old_log_dims),
        "act_A_full_batch",
        as_t3(proof, d, t0),
        a_old,
        a_pos,
    );
    let (pos, neg) = if d is Lower {
        (b_lower, b_upper)
    } else {
        (b_upper, b_lower)
    };
    lemma_opened_pair::<P>(
        vk,
        c.pos,
        c.neg,
        sc.q1_eval@,
        sc.q2_eval@,
        full.skip(lns as int),
        proof.b_j_batched_open,
        even_vars(lni as nat),
        "act_b_j_batch",
        as_t4(vk, proof, d, c, t0),
        pos,
        neg,
    );
    law_opening_binds::<P>(
        vk,
        c.made,
        made,
        vals(proof.r_spec@),
        proof.delta_b_claim@,
        proof.bias_doubled_open,
        even_vars(lns as nat),
        as_t5(vk, proof, d, c, t0),
    );
}

/// Both values of an accepted joint opening are those of their tables.
pub proof fn lemma_opened_pair<P: MlPcs>(
    vk: P::VerifierKey,
    a: P::Commitment,
    b: P::Commitment,
    x: int,
    y: int,
    point: Seq<int>,
    proof: P::Proof,
    n_vars: nat,
    which: &'static str,
    t0: Seq<u8>,
    ta: Seq<int>,
    tb: Seq<int>,
)
    requires
        pair_open_verdict::<P>(vk, a, b, x, y, point, proof, n_vars, which, t0) is Ok,
        opens_to::<P>(vk, a, ta),
        opens_to::<P>(vk, b, tb),
    ensures
        x == mle_padded(ta, point, n_vars),
        y == mle_padded(tb, point, n_vars),
{
    law_joint_opening_binds::<P>(vk, seq![a, b], ta, seq![x, y], point, proof, n_vars, t0, 0);
    law_joint_opening_binds::<P>(vk, seq![a, b], tb, seq![x, y], point, proof, n_vars, t0, 1);
}

/// Every step of an accepted chain of activation steps is accepted at its
/// place.
pub proof fn law_accepted_activation_chain<P: MlPcs>(
    vk: P::VerifierKey,
    proofs: Seq<ActivationLayerStepProof<P>>,
    d: BoundDir,
    coms: TensorCommitments<P>,
    pass: PassCommitments<P>,
    t0: Seq<u8>,
    i: int,
)
    requires
        bias_chain_verdict(vk, proofs, d, coms, pass, t0) is Ok,
        0 <= i < proofs.len(),
    ensures
        exists|t: Seq<u8>|
            (#[trigger] activation_step_verdict(vk, proofs[i], d, coms, pass, i, t)) is Ok,
{
    let check = activation_check(vk, proofs, d, coms, pass);
    let next = activation_next(vk, proofs, d, coms, pass);
    lemma_chain_each(check, next, proofs.len(), t0, i);
    assert(activation_step_verdict(
        vk,
        proofs[i],
        d,
        coms,
        pass,
        i,
        chain_state(next, i as nat, t0),
    ) is Ok);
}

// ---- The products of activation steps ----

/// An accepted product of an activation step: its challenge over both axes was
/// drawn after the layer, the direction and the axes; its rounds carry the
/// claimed product to the weight of that challenge times the two products of
/// coefficients and slopes; and the coefficients that take the other line are
/// the coefficients less those that take the first.
pub proof fn law_accepted_matrix_step<P: MlPcs>(
    vk: P::VerifierKey,
    proof: ActivationMatrixStepProof<P>,
    d: BoundDir,
    coms: TensorCommitments<P>,
    pass: PassCommitments<P>,
    i: int,
    t0: Seq<u8>,
)
    requires
        matrix_step_verdict(vk, proof, d, coms, pass, i, t0) is Ok,
    ensures
        proof.layer_idx < coms.relaxation@.len(),
        coms.relaxation@[proof.layer_idx as int] is Some,
        proof.layer_idx + 1 < pass.chain_a@.len(),
        i < pass.activation_a_pos@.len(),
        i < pass.activation_a_d_doubled@.len(),
        ({
            let (lns, lni) = proof.log_dims;
            let sc = proof.sumcheck;
            let t1 = abs_u64(
                abs_u64(
                    abs_u64(
                        abs_u64(t0, proof.layer_idx as u64),
                        if d is Lower {
                            0
                        } else {
                            1
                        },
                    ),
                    lns as u64,
                ),
                lni as u64,
            );
            let t2 = abs_fr(after_squeeze(t1, lns + lni), proof.a_d_claim@);
            &&& vals(proof.r_init@) == squeezed(t1, lns + lni)
            &&& vals(sc.r_full@) == sc_point(false, t2, samples_of(sc.rounds@))
            &&& sc.r_full@.len() == lns + lni
            &&& rounds_carry(
                samples_of(sc.rounds@),
                vals(sc.r_full@),
                proof.a_d_claim@,
                fmul(
                    sc.eq_eval@,
                    fadd(fmul(sc.p1_eval@, sc.q1_eval@), fmul(sc.p2_eval@, sc.q2_eval@)),
                ),
            )
            &&& sc.eq_eval@ == eq_points(vals(sc.r_full@), vals(proof.r_init@))
            &&& sc.p2_eval@ == fsub(proof.a_old_eval@, sc.p1_eval@)
        }),
{
    reveal(matrix_rounds_verdict);
    reveal(matrix_openings_verdict);
    let (lns, lni) = proof.log_dims;
    law_accepted_two_products(
        proof.sumcheck,
        (lns + lni) as nat,
        proof.a_d_claim@,
        am_t2(proof, d, t0),
    );
}

/// The values that an accepted product of an activation step claims are those
/// of its commitments, as far as they hold known tables. In the lower direction
/// the positive coefficients take the lower line's slopes and the others the
/// upper's; in the upper direction it is the other way round.
pub proof fn law_accepted_matrix_tables<P: MlPcs>(
    vk: P::VerifierKey,
    proof: ActivationMatrixStepProof<P>,
    d: BoundDir,
    coms: TensorCommitments<P>,
    pass: PassCommitments<P>,
    i: int,
    t0: Seq<u8>,
    a_old: Seq<int>,
    a_pos: Seq<int>,
    d_lower: Seq<int>,
    d_upper: Seq<int>,
    made: Seq<int>,
)
    requires
        matrix_step_verdict(vk, proof, d, coms, pass, i, t0) is Ok,
        opens_to::<P>(vk, pass.chain_a@[proof.layer_idx + 1], a_old),
        opens_to::<P>(vk, pass.activation_a_pos@[i], a_pos),
        opens_to::<P>(vk, coms.relaxation@[proof.layer_idx as int]->0.d_lower, d_lower),
        opens_to::<P>(vk, coms.relaxation@[proof.layer_idx as int]->0.d_upper, d_upper),
        opens_to::<P>(vk, pass.activation_a_d_doubled@[i], made),
    ensures
        ({
            let (lns, lni) = proof.log_dims;
            let sc = proof.sumcheck;
            let full = vals(sc.r_full@);
            let nv = even_vars((lns + lni) as nat);
            let cols = full.skip(lns as int);
            let lower = mle_padded(d_lower, cols, even_vars(lni as nat));
            let upper = mle_padded(d_upper, cols, even_vars(lni as nat));
            &&& proof.a_old_eval@ == mle_padded(a_old, full, nv)
            &&& sc.p1_eval@ == mle_padded(a_pos, full, nv)
            &&& d is Lower ==> sc.q1_eval@ == lower && sc.q2_eval@ == upper
            &&& d is Upper ==> sc.q1_eval@ == upper && sc.q2_eval@ == lower
            &&& proof.a_d_claim@ == mle_padded(made, vals(proof.r_init@), nv)
        }),
{
    reveal(matrix_rounds_verdict);
    reveal(matrix_openings_verdict);
    let (lns, lni) = proof.log_dims;
    let sc = proof.sumcheck;
    let full = vals(sc.r_full@);
    let c = matrix_coms_at(
        d,
        coms.relaxation@[proof.layer_idx as int]->0,
        pass,
        proof.layer_idx as int,
        i,
    );
    lemma_opened_pair::<P>(
        vk,
        c.a_old,
        c.a_pos,
        proof.a_old_eval@,
        sc.p1_eval@,
        full,
        proof.a_full_batched_open,
        matrix_nv(proof.log_dims),
        "act_matrix_a_full_batch",
        am_t4(vk, proof, d, c, t0),
        a_old,
        a_pos,
    );
    let (pos, neg) = if d is Lower {
        (d_lower, d_upper)
    } else {
        (d_upper, d_lower)
    };
    lemma_opened_pair::<P>(
        vk,
        c.pos,
        c.neg,
        sc.q1_eval@,
        sc.q2_eval@,
        full.skip(lns as int),
        proof.d_j_batched_open,
        even_vars(lni as nat),
        "act_matrix_d_j_batch",
        am_t5(vk, proof, d, c, t0),
        pos,
        neg,
    );
    law_opening_binds::<P>(
        vk,
        c.made,
        made,
        vals(proof.r_init@),
        proof.a_d_claim@,
        proof.a_d_open,
        matrix_nv(proof.log_dims),
        am_t3(proof, d, t0),
    );
}

/// Every product of an accepted chain is accepted at its place.
pub proof fn law_accepted_matrix_chain<P: MlPcs>(
    vk: P::VerifierKey,
    proofs: Seq<ActivationMatrixStepProof<P>>,
    d: BoundDir,
    coms: TensorCommitments<P>,
    pass: PassCommitments<P>,
    t0: Seq<u8>,
    i: int,
)
    requires
        slope_chain_verdict(vk, proofs, d, coms, pass, t0) is Ok,
        0 <= i < proofs.len(),
    ensures
        exists|t: Seq<u8>|
            (#[trigger] matrix_step_verdict(vk, proofs[i], d, coms, pass, i, t)) is Ok,
{
    let check = matrix_check(vk, proofs, d, coms, pass);
    let next = matrix_next(vk, proofs, d, coms, pass);
    lemma_chain_each(check, next, proofs.len(), t0, i);
    assert(matrix_step_verdict(
        vk,
        proofs[i],
        d,
        coms,
        pass,
        i,
        chain_state(next, i as nat, t0),
    ) is Ok);
}

// ---- Splits into signs ----

/// An accepted split: its table is the whole ReLU table of the range, with a
/// row for every code from minus half on; the claimed denominators are
/// those of the ReLU table's rows and of the two matrices' cells, mixed by the
/// first challenge and shifted by the second; both sums of fractions are
/// accepted, and cancel.
pub proof fn law_accepted_split<P: MlPcs>(
    params: SnarkParams<P>,
    proof: ReluStepProof<P>,
    a: P::Commitment,
    a_pos: P::Commitment,
    n_padded: u64,
    commit_n_vars: nat,
    t0: Seq<u8>,
)
    requires
        relu_step_verdict(params, proof, a, a_pos, n_padded, commit_n_vars, t0) is Ok,
    ensures
        proof.table_len == pow2(params.preprocessed.spec_half_bits() + 1),
        proof.table_n_vars == params.preprocessed.spec_half_bits(),
        ({
            let t1 = abs_u64(t0, n_padded);
            let t2 = abs_u64(
                abs_u64(
                    absorbed(after_squeeze(t1, 1), P::bytes(proof.mult_commit)),
                    proof.witness_len as u64,
                ),
                proof.table_len as u64,
            );
            let (alpha, beta) = (proof.combine_alpha@, proof.logup_beta@);
            let t3 = abs_fr(after_squeeze(t2, 1), beta);
            let (lt, tt) = (vals4(proof.lookup_top), vals4(proof.table_top));
            let tp = vals(proof.table_proof.bottom_point@);
            &&& alpha == squeezed(t1, 1)[0]
            &&& beta == squeezed(t2, 1)[0]
            &&& pair_verdict(
                proof.lookup_proof,
                proof.table_proof,
                proof.lookup_top,
                proof.table_top,
                proof.lookup_n_vars as nat,
                proof.table_n_vars as nat,
                t3,
            ) is Ok
            &&& proof.lookup_proof.bottom_denom@ == fsub(
                fadd(fmul(alpha, proof.a_eval_at_r@), proof.a_pos_eval_at_r@),
                beta,
            )
            &&& tp.len() == params.preprocessed.spec_half_bits() + 1
            &&& proof.table_proof.bottom_denom@ == fsub(
                mle(relu_table(tp.len(), alpha), tp),
                beta,
            )
            &&& fractions_sum_to_zero(lt, tt)
        }),
{
    reveal(relu_step_verdict);
    let tp = vals(proof.table_proof.bottom_point@);
    law_accepted_pair(
        proof.lookup_proof,
        proof.table_proof,
        proof.lookup_top,
        proof.table_top,
        proof.lookup_n_vars as nat,
        proof.table_n_vars as nat,
        rs_t2(proof, n_padded, t0),
    );
    lemma_vals_in_field(proof.table_proof.bottom_point@);
    lemma_view_in_field(proof.combine_alpha);
    law_relu_table(tp, proof.combine_alpha@);
}

/// The values that an accepted split claims are those of its commitments, as
/// far as they hold known tables: of the matrix and of its positive part where
/// the lookup's circuit ends, and of the multiplicities where the table's ends.
pub proof fn law_accepted_split_tables<P: MlPcs>(
    params: SnarkParams<P>,
    proof: ReluStepProof<P>,
    a: P::Commitment,
    a_pos: P::Commitment,
    n_padded: u64,
    commit_n_vars: nat,
    t0: Seq<u8>,
    matrix: Seq<int>,
    positive: Seq<int>,
    mult: Seq<int>,
)
    requires
        relu_step_verdict(params, proof, a, a_pos, n_padded, commit_n_vars, t0) is Ok,
        opens_to::<P>(params.verifier_key, a, matrix),
        opens_to::<P>(params.verifier_key, a_pos, positive),
        opens_to::<P>(params.verifier_key, proof.mult_commit, mult),
    ensures
        ({
            let lp = vals(proof.lookup_proof.bottom_point@);
            let tp = vals(proof.table_proof.bottom_point@);
            &&& proof.a_eval_at_r@ == mle_padded(matrix, lp, commit_n_vars)
            &&& proof.a_pos_eval_at_r@ == mle_padded(positive, lp, commit_n_vars)
            &&& proof.table_proof.bottom_num@ == mle_padded(mult, tp, proof.mult_n_vars as nat)
        }),
{
    reveal(relu_step_verdict);
    let vk = params.verifier_key;
    let lp = vals(proof.lookup_proof.bottom_point@);
    let coms = seq![a, a_pos];
    let values = seq![proof.a_eval_at_r@, proof.a_pos_eval_at_r@];
    let t3 = rs_t3(proof, n_padded, t0);
    let open = proof.a_batched_open;
    law_joint_opening_binds::<P>(vk, coms, matrix, values, lp, open, commit_n_vars, t3, 0);
    law_joint_opening_binds::<P>(vk, coms, positive, values, lp, open, commit_n_vars, t3, 1);
    law_opening_binds::<P>(
        vk,
        proof.mult_commit,
        mult,
        vals(proof.table_proof.bottom_point@),
        proof.table_proof.bottom_num@,
        proof.mult_open,
        proof.mult_n_vars as nat,
        rs_t4(vk, proof, a, a_pos, n_padded, commit_n_vars, t0),
    );
}

/// Accepted splits of a pass's activation steps: there is one for every step,
/// accepted for the coefficients behind the step's layer, the positive parts
/// that stand at the step's place, and the step's padded size.
pub proof fn law_accepted_split_chain<P: MlPcs>(
    params: SnarkParams<P>,
    proofs: Seq<ReluStepProof<P>>,
    steps: Seq<ActivationLayerStepProof<P>>,
    pass: PassCommitments<P>,
    t0: Seq<u8>,
    i: int,
)
    requires
        relu_chain_verdict(params, proofs, claimed_shapes(steps), pass, t0) is Ok,
        0 <= i < steps.len(),
    ensures
        proofs.len() == steps.len(),
        exists|t: Seq<u8>|
            (#[trigger] relu_step_verdict(
                params,
                proofs[i],
                pass.chain_a@[steps[i].layer_idx + 1],
                pass.activation_a_pos@[i],
                pow2((steps[i].a_old_log_dims.0 + steps[i].a_old_log_dims.1) as nat) as u64,
                even_vars((steps[i].a_old_log_dims.0 + steps[i].a_old_log_dims.1) as nat),
                t,
            )) is Ok,
{
    let shapes = claimed_shapes(steps);
    let check = relu_check(params, proofs, shapes, pass);
    let next = relu_next(params.verifier_key, proofs, shapes, pass);
    lemma_chain_each(check, next, proofs.len(), t0, i);
    assert(shapes[i] == (steps[i].layer_idx, steps[i].a_old_log_dims));
    assert(relu_step_verdict(
        params,
        proofs[i],
        pass.chain_a@[steps[i].layer_idx + 1],
        pass.activation_a_pos@[i],
        pow2((steps[i].a_old_log_dims.0 + steps[i].a_old_log_dims.1) as nat) as u64,
        even_vars((steps[i].a_old_log_dims.0 + steps[i].a_old_log_dims.1) as nat),
        chain_state(next, i as nat, t0),
    ) is Ok);
}

/// The number of splits of a pass is the number of its activation steps.
pub proof fn law_accepted_split_count<P: MlPcs>(
    params: SnarkParams<P>,
    proofs: Seq<ReluStepProof<P>>,
    steps: Seq<ActivationLayerStepProof<P>>,
    pass: PassCommitments<P>,
    t0: Seq<u8>,
)
    requires
        relu_chain_verdict(params, proofs, claimed_shapes(steps), pass, t0) is Ok,
    ensures
        proofs.len() == steps.len(),
{
}

} // verus!
