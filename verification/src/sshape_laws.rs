//! What accepted proofs of sigmoid and tanh layers say of their columns.

use crate::binding::{law_joint_opening_binds, law_opening_binds, lemma_vals_in_field, opens_to};
use crate::column_set::{abs_coms, picked};
use crate::columns::{even_vars, fits, mask};
use crate::critical_identities::critical_exprs;
use crate::expr::{Expr, combination, field_value};
use crate::field::{fadd, fmul, fsub, vals};
use crate::gadget_laws::law_accepted_ranges;
use crate::logup::{lower, upper, vals4};
use crate::lookup_pair::pair_verdict;
use crate::mle::{ceil_log2, eq_points, mle};
use crate::mle_laws::law_mle_of_eq_table;
use crate::network::ActivationKind;
use crate::params::{SigmaTables, SnarkParams};
use crate::pcs::{MlPcs, mle_padded};
use crate::pos_range::{PosRangeLogUp, range_verdict};
use crate::round_laws::{fractions_sum_to_zero, lemma_split_rounds_carry, rounds_carry};
use crate::scale::Scale;
use crate::sshape_critical_point::{
    SshapeCriticalPointProof, cp_checked, cp_coms, cp_env_coms, cp_env_values,
    cp_envelope_verdict, cp_exprs, cp_margin, cp_opened, cp_ranges, cp_rhos, cp_sumcheck_verdict,
    cp_t0, cp_t2, cp_t4, cp_t5, cp_t6, cp_t7, cp_t8, cp_t9, cp_values, critical_verdict, readable,
};
use crate::sshape_endpoint::{
    SshapeEndpointProof, endpoint_verdict, ep_checked, ep_coms, ep_env_coms, ep_env_values,
    ep_envelope_verdict, ep_opened, ep_ranges, ep_rhos, ep_sumcheck_verdict, ep_t0, ep_t2, ep_t4,
    ep_t5, ep_t7, ep_t8, ep_values,
};
use crate::sshape_identities::endpoint_exprs;
use crate::sshape_witness::{SshapeEndpointKind, SshapeLineKind};
use crate::sumcheck::{samples_of, sc_point, sc_state};
use crate::table_mle::{identity_table, law_identity_table};
use crate::transcript::{
    abs_fr, abs_u64, absorbed, after_squeeze, challenged_n, challenges, squeezed,
};
use vstd::arithmetic::power2::pow2;
use vstd::prelude::*;

verus! {

/// The tables of a function's envelope, lower and upper.
pub open spec fn function_tables(pre: SigmaTables, kind: ActivationKind) -> (Seq<int>, Seq<int>) {
    match kind {
        ActivationKind::Sigmoid => (vals(pre.sigmoid_lower_fr@), vals(pre.sigmoid_upper_fr@)),
        _ => (vals(pre.tanh_lower_fr@), vals(pre.tanh_upper_fr@)),
    }
}

/// The first `n` of `len` rows are ones, and the others zeros.
pub open spec fn first_rows(n: nat, len: nat) -> Seq<int> {
    Seq::new(
        len,
        |i: int|
            if i < n {
                1int
            } else {
                0int
            },
    )
}

/// The values of identities at a row, the first as it is and the others each
/// times its own coefficient.
pub open spec fn mixed_values(rhos: Seq<int>, exprs: Seq<Expr>, row: Seq<int>) -> Seq<int> {
    Seq::new(
        exprs.len(),
        |k: int|
            if k == 0 {
                field_value(exprs[0], row)
            } else {
                fmul(rhos[k - 1], field_value(exprs[k], row))
            },
    )
}

/// The field sum of values.
pub open spec fn field_sum(s: Seq<int>) -> int
    decreases s.len(),
{
    if s.len() == 0 {
        0
    } else if s.len() == 1 {
        s[0]
    } else {
        fadd(field_sum(s.drop_last()), s.last())
    }
}

/// The combination of identities that a gadget sums is the sum of the first and
/// of every other one times its own coefficient: none is left out.
pub proof fn law_combination_mixes_every_identity(
    rhos: Seq<int>,
    exprs: Seq<Expr>,
    row: Seq<int>,
    k: nat,
)
    requires
        k <= exprs.len(),
        k <= rhos.len() + 1,
    ensures
        combination(rhos, exprs, row, k) == field_sum(
            mixed_values(rhos, exprs, row).take(k as int),
        ),
    decreases k,
{
    let all = mixed_values(rhos, exprs, row);
    let s = all.take(k as int);
    if k >= 2 {
        law_combination_mixes_every_identity(rhos, exprs, row, (k - 1) as nat);
        assert(s.drop_last() =~= all.take(k - 1));
        assert(s.last() == all[k - 1]);
    } else if k == 1 {
        assert(s[0] == all[0]);
    }
}

// ---- A line at an endpoint ----

/// An accepted endpoint proof is for what is asked: the layer, the function
/// (which is no ReLU), the endpoint, the line and the number of neurons, of
/// which there is at least one; its scales are powers of two within the range
/// table, and the preactivations' is not finer than the tables'.
pub proof fn law_accepted_endpoint_header<P: MlPcs>(
    params: SnarkParams<P>,
    proof: SshapeEndpointProof<P>,
    layer_idx: usize,
    kind: ActivationKind,
    line: SshapeLineKind,
    endpoint: SshapeEndpointKind,
    n: usize,
    preact: P::Commitment,
    d: P::Commitment,
    b: P::Commitment,
    s_d: Scale,
    s_b: Scale,
    s_w: Scale,
    t0: Seq<u8>,
)
    requires
        endpoint_verdict(
            params,
            proof,
            layer_idx,
            kind,
            line,
            endpoint,
            n,
            preact,
            d,
            b,
            s_d,
            s_b,
            s_w,
            t0,
        ) is Ok,
    ensures
        proof.layer_idx == layer_idx,
        kind is Sigmoid && proof.kind_tag == 0 || kind is Tanh && proof.kind_tag == 1,
        endpoint is Lower && proof.endpoint_tag == 0 || endpoint is Upper && proof.endpoint_tag
            == 1,
        line is Upper && proof.line_tag == 0 || line is Lower && proof.line_tag == 1,
        n >= 1,
        proof.n_real == n,
        proof.n_vars == even_vars(ceil_log2(n as nat)),
        s_d.c == 1 && 0 <= s_d.e <= params.gadget_range_bits,
        s_b.c == 1 && 0 <= s_b.e <= params.gadget_range_bits,
        s_w.c == 1 && 0 <= s_w.e <= params.gadget_range_bits,
        s_w.e <= params.sigma_x_scale_log2,
{
}

/// The columns of an accepted endpoint proof that must be small are each in
/// range: the table index, the three remainders and the gap.
pub proof fn law_accepted_endpoint_ranges<P: MlPcs>(
    params: SnarkParams<P>,
    proof: SshapeEndpointProof<P>,
    layer_idx: usize,
    kind: ActivationKind,
    line: SshapeLineKind,
    endpoint: SshapeEndpointKind,
    n: usize,
    preact: P::Commitment,
    d: P::Commitment,
    b: P::Commitment,
    s_d: Scale,
    s_b: Scale,
    s_w: Scale,
    t0: Seq<u8>,
)
    requires
        endpoint_verdict(
            params,
            proof,
            layer_idx,
            kind,
            line,
            endpoint,
            n,
            preact,
            d,
            b,
            s_d,
            s_b,
            s_w,
            t0,
        ) is Ok,
    ensures
        column_in_range(params, proof.abs_l_commit, proof.n_vars as nat, proof.abs_l_range),
        column_in_range(
            params,
            proof.dx_step_1_rem_commit,
            proof.n_vars as nat,
            proof.dx_step_1_rem_range,
        ),
        column_in_range(
            params,
            proof.dx_sigma_rem_commit,
            proof.n_vars as nat,
            proof.dx_sigma_rem_range,
        ),
        column_in_range(
            params,
            proof.b_sigma_rem_commit,
            proof.n_vars as nat,
            proof.b_sigma_rem_range,
        ),
        column_in_range(params, proof.diff_commit, proof.n_vars as nat, proof.diff_range),
{
    let h = ep_t0::<P>(layer_idx, kind, line, endpoint, n, preact, d, b, t0);
    let coms = picked(ep_coms(proof), ep_checked());
    let ranges = ep_ranges(proof);
    let t1 = abs_coms::<P>(h, ep_coms(proof));
    assert forall|i: int| 0 <= i < 5 implies #[trigger] column_in_range(
        params,
        coms[i],
        proof.n_vars as nat,
        ranges[i],
    ) by {
        law_accepted_ranges(params, coms, proof.n_vars as nat, ranges, t1, 0, i);
    }
    assert(column_in_range(params, coms[0], proof.n_vars as nat, ranges[0]));
    assert(column_in_range(params, coms[1], proof.n_vars as nat, ranges[1]));
    assert(column_in_range(params, coms[2], proof.n_vars as nat, ranges[2]));
    assert(column_in_range(params, coms[3], proof.n_vars as nat, ranges[3]));
    assert(column_in_range(params, coms[4], proof.n_vars as nat, ranges[4]));
}

/// Whether a range proof of a column is accepted at some point of a
/// transcript, for the range that the parameters name.
pub open spec fn column_in_range<P: MlPcs>(
    params: SnarkParams<P>,
    com: P::Commitment,
    n: nat,
    range: PosRangeLogUp<P>,
) -> bool {
    exists|t: Seq<u8>|
        (#[trigger] range_verdict(
            params.verifier_key,
            com,
            n,
            params.gadget_range_bits as nat,
            range,
            t,
        )) is Ok
}

/// The envelope lookup of an accepted endpoint proof: the lengths are those of
/// the column and of the function's tables, both sums of fractions are accepted
/// and cancel, and the claimed denominators are those of the looked-up rows
/// `(index, upper, lower)` and of the tables' rows, mixed by the first two
/// challenges and shifted by the third.
pub proof fn law_accepted_endpoint_lookup<P: MlPcs>(
    params: SnarkParams<P>,
    proof: SshapeEndpointProof<P>,
    kind: ActivationKind,
    t2: Seq<u8>,
)
    requires
        ep_envelope_verdict(params, proof, kind, t2) is Ok,
        kind is Sigmoid || kind is Tanh,
    ensures
        ({
            let (lower, upper) = function_tables(params.preprocessed.spec_sigma(), kind);
            let n_vars = proof.n_vars as nat;
            let t3 = abs_u64(t2, pow2(n_vars) as u64);
            let t4 = after_squeeze(t3, 1);
            let t5 = abs_u64(
                abs_u64(
                    absorbed(after_squeeze(t4, 1), P::bytes(proof.envelope_mult_commit)),
                    proof.envelope_witness_len as u64,
                ),
                proof.envelope_table_len as u64,
            );
            let (a1, a2) = (proof.envelope_combine_alpha_1@, proof.envelope_combine_alpha_2@);
            let beta = proof.envelope_logup_beta@;
            let t6 = abs_fr(abs_fr(abs_fr(after_squeeze(t5, 1), a1), a2), beta);
            let tp = vals(proof.envelope_table_proof.bottom_point@);
            &&& proof.envelope_witness_len == pow2(n_vars)
            &&& proof.envelope_table_len == upper.len()
            &&& a1 == squeezed(t3, 1)[0]
            &&& a2 == squeezed(t4, 1)[0]
            &&& beta == squeezed(t5, 1)[0]
            &&& proof.envelope_lookup_proof.bottom_point@.len() == n_vars
            &&& tp.len() == ceil_log2(upper.len())
            &&& pair_verdict(
                proof.envelope_lookup_proof,
                proof.envelope_table_proof,
                proof.envelope_lookup_top,
                proof.envelope_table_top,
                if n_vars == 0 {
                    0
                } else {
                    (n_vars - 1) as nat
                },
                if tp.len() == 0 {
                    0
                } else {
                    (tp.len() - 1) as nat
                },
                t6,
            ) is Ok
            &&& fractions_sum_to_zero(
                vals4(proof.envelope_lookup_top),
                vals4(proof.envelope_table_top),
            )
            &&& proof.envelope_lookup_proof.bottom_denom@ == fsub(
                fadd(
                    fadd(
                        fmul(a1, proof.envelope_abs_l_eval@),
                        fmul(a2, proof.envelope_sigma_upper_at_abs_eval@),
                    ),
                    proof.envelope_sigma_lower_at_abs_eval@,
                ),
                beta,
            )
            &&& proof.envelope_table_proof.bottom_denom@ == fsub(
                fadd(
                    fadd(
                        fmul(a1, mle(identity_table(tp.len()), tp)),
                        fmul(a2, mle(upper, tp)),
                    ),
                    mle(lower, tp),
                ),
                beta,
            )
        }),
{
    reveal(ep_envelope_verdict);
    lemma_vals_in_field(proof.envelope_table_proof.bottom_point@);
    law_identity_table(vals(proof.envelope_table_proof.bottom_point@));
}

/// The values that an accepted envelope lookup claims are those of the index,
/// upper and lower columns and of the multiplicities, as far as the
/// commitments hold known tables.
pub proof fn law_accepted_endpoint_lookup_tables<P: MlPcs>(
    params: SnarkParams<P>,
    proof: SshapeEndpointProof<P>,
    kind: ActivationKind,
    t2: Seq<u8>,
    abs_l: Seq<int>,
    upper_column: Seq<int>,
    lower_column: Seq<int>,
    mult: Seq<int>,
)
    requires
        ep_envelope_verdict(params, proof, kind, t2) is Ok,
        opens_to::<P>(params.verifier_key, proof.abs_l_commit, abs_l),
        opens_to::<P>(params.verifier_key, proof.sigma_upper_at_abs_commit, upper_column),
        opens_to::<P>(params.verifier_key, proof.sigma_lower_at_abs_commit, lower_column),
        opens_to::<P>(params.verifier_key, proof.envelope_mult_commit, mult),
    ensures
        ({
            let lp = vals(proof.envelope_lookup_proof.bottom_point@);
            &&& proof.envelope_abs_l_eval@ == mle(abs_l, lp)
            &&& proof.envelope_sigma_upper_at_abs_eval@ == mle(upper_column, lp)
            &&& proof.envelope_sigma_lower_at_abs_eval@ == mle(lower_column, lp)
            &&& proof.envelope_table_proof.bottom_num@ == mle_padded(
                mult,
                vals(proof.envelope_table_proof.bottom_point@),
                proof.envelope_mult_n_vars as nat,
            )
        }),
{
    reveal(ep_envelope_verdict);
    let vk = params.verifier_key;
    let lp = vals(proof.envelope_lookup_proof.bottom_point@);
    let coms = ep_env_coms(proof);
    let values = ep_env_values(proof);
    let open = proof.envelope_witness_batched_open;
    let n = proof.n_vars as nat;
    let t4 = ep_t4(proof, t2);
    law_joint_opening_binds::<P>(vk, coms, abs_l, values, lp, open, n, t4, 0);
    law_joint_opening_binds::<P>(vk, coms, upper_column, values, lp, open, n, t4, 1);
    law_joint_opening_binds::<P>(vk, coms, lower_column, values, lp, open, n, t4, 2);
    law_opening_binds::<P>(
        vk,
        proof.envelope_mult_commit,
        mult,
        vals(proof.envelope_table_proof.bottom_point@),
        proof.envelope_table_proof.bottom_num@,
        proof.envelope_mult_open,
        proof.envelope_mult_n_vars as nat,
        ep_t5(vk, proof, t2),
    );
}

/// The row of claimed values that an accepted endpoint proof's identities are
/// taken at: the weight, the mask, the preactivation, the line, and the columns
/// in order.
pub open spec fn endpoint_claims<P: MlPcs>(
    proof: SshapeEndpointProof<P>,
    weight: int,
    mask: int,
) -> Seq<int> {
    seq![
        weight,
        mask,
        proof.preact_eval_at_r_final@,
        proof.d_line_eval@,
        proof.b_line_eval@,
        proof.abs_l_eval@,
        proof.sign_eval@,
        proof.sigma_upper_at_abs_eval@,
        proof.sigma_lower_at_abs_eval@,
        proof.dx_step_1_eval@,
        proof.dx_step_1_rem_eval@,
        proof.dx_sigma_code_eval@,
        proof.dx_sigma_rem_eval@,
        proof.b_sigma_code_eval@,
        proof.b_sigma_rem_eval@,
        proof.diff_eval@,
    ]
}

/// The rounds of an accepted endpoint proof carry zero to the weight of the
/// test point times the mask of the real neurons times the mix of all
/// identities, at the claimed values; the coefficients and the test point were
/// drawn one after the other.
pub proof fn law_accepted_endpoint_rounds<P: MlPcs>(
    vk: P::VerifierKey,
    proof: SshapeEndpointProof<P>,
    exprs: Seq<Expr>,
    n: nat,
    preact: P::Commitment,
    d: P::Commitment,
    b: P::Commitment,
    t6: Seq<u8>,
)
    requires
        ep_sumcheck_verdict(vk, proof, exprs, n, preact, d, b, t6) is Ok,
        exprs.len() == 6,
    ensures
        proof.rounds@.len() == proof.n_vars,
        proof.r_final@.len() == proof.n_vars,
        ({
            let rhos = seq![
                proof.combined_rho_a@,
                proof.combined_rho_b@,
                proof.combined_rho_c@,
                proof.combined_rho_d@,
                proof.combined_rho_e@,
            ];
            let t7 = challenged_n(t6, 5);
            let (test, point) = (vals(proof.r_test@), vals(proof.r_final@));
            let counted = mle(first_rows(n, pow2(proof.n_vars as nat)), point);
            let weight = eq_points(test, point);
            let row = endpoint_claims(proof, weight, counted);
            &&& rhos == challenges(t6, 5)
            &&& test == squeezed(t7, proof.n_vars as int)
            &&& point == sc_point(
                true,
                after_squeeze(t7, proof.n_vars as int),
                samples_of(proof.rounds@),
            )
            &&& test.len() == proof.n_vars ==> rounds_carry(
                samples_of(proof.rounds@),
                point,
                0,
                fmul(fmul(weight, counted), field_sum(mixed_values(rhos, exprs, row))),
            )
        }),
{
    reveal(ep_sumcheck_verdict);
    let (test, point) = (vals(proof.r_test@), vals(proof.r_final@));
    let s = samples_of(proof.rounds@);
    let t7 = ep_t7(proof, t6);
    let np = pow2(proof.n_vars as nat);
    lemma_split_rounds_carry(true, t7, s, 0, s.len());
    lemma_vals_in_field(proof.r_test@);
    lemma_vals_in_field(proof.r_final@);
    assert(mask(n, np) =~= first_rows(n, np));
    assert(sc_point(true, t7, s).len() == s.len());
    if test.len() == proof.n_vars {
        law_mle_of_eq_table(test, point);
        let weight = eq_points(test, point);
        let counted = mle(first_rows(n, np), point);
        let row = endpoint_claims(proof, weight, counted);
        assert(seq![weight, counted, proof.preact_eval_at_r_final@] + ep_values(proof) =~= row);
        law_combination_mixes_every_identity(ep_rhos(proof), exprs, row, 6);
        let mixed = mixed_values(ep_rhos(proof), exprs, row);
        assert(mixed.take(6) =~= mixed);
    }
}

/// The values that an accepted endpoint proof claims at the final point are
/// those of its commitments, as far as they hold known tables: of the
/// preactivations, of the line's slopes and offsets, and of each column.
pub proof fn law_accepted_endpoint_tables<P: MlPcs>(
    vk: P::VerifierKey,
    proof: SshapeEndpointProof<P>,
    exprs: Seq<Expr>,
    n: nat,
    preact: P::Commitment,
    d: P::Commitment,
    b: P::Commitment,
    t6: Seq<u8>,
    table: Seq<int>,
)
    requires
        ep_sumcheck_verdict(vk, proof, exprs, n, preact, d, b, t6) is Ok,
    ensures
        ({
            let value = mle(table, vals(proof.r_final@));
            &&& opens_to::<P>(vk, preact, table) ==> proof.preact_eval_at_r_final@ == value
            &&& opens_to::<P>(vk, d, table) ==> proof.d_line_eval@ == value
            &&& opens_to::<P>(vk, b, table) ==> proof.b_line_eval@ == value
            &&& opens_to::<P>(vk, proof.abs_l_commit, table) ==> proof.abs_l_eval@ == value
            &&& opens_to::<P>(vk, proof.sign_commit, table) ==> proof.sign_eval@ == value
            &&& opens_to::<P>(vk, proof.sigma_upper_at_abs_commit, table)
                ==> proof.sigma_upper_at_abs_eval@ == value
            &&& opens_to::<P>(vk, proof.sigma_lower_at_abs_commit, table)
                ==> proof.sigma_lower_at_abs_eval@ == value
            &&& opens_to::<P>(vk, proof.dx_step_1_commit, table) ==> proof.dx_step_1_eval@
                == value
            &&& opens_to::<P>(vk, proof.dx_step_1_rem_commit, table)
                ==> proof.dx_step_1_rem_eval@ == value
            &&& opens_to::<P>(vk, proof.dx_sigma_code_commit, table)
                ==> proof.dx_sigma_code_eval@ == value
            &&& opens_to::<P>(vk, proof.dx_sigma_rem_commit, table)
                ==> proof.dx_sigma_rem_eval@ == value
            &&& opens_to::<P>(vk, proof.b_sigma_code_commit, table)
                ==> proof.b_sigma_code_eval@ == value
            &&& opens_to::<P>(vk, proof.b_sigma_rem_commit, table) ==> proof.b_sigma_rem_eval@
                == value
            &&& opens_to::<P>(vk, proof.diff_commit, table) ==> proof.diff_eval@ == value
        }),
{
    reveal(ep_sumcheck_verdict);
    let point = vals(proof.r_final@);
    let coms = ep_opened(proof, d, b);
    let values = ep_values(proof);
    let s = samples_of(proof.rounds@);
    let t8 = sc_state(true, ep_t7(proof, t6), s, s.len());
    let nv = proof.n_vars as nat;
    let open = proof.batched_open_at_r;
    assert forall|i: int| 0 <= i < 13 && opens_to::<P>(vk, #[trigger] coms[i], table) implies
        values[i] == mle(table, point) by {
        law_joint_opening_binds::<P>(vk, coms, table, values, point, open, nv, t8, i);
    }
    assert(coms[0] == d && coms[1] == b);
    assert(coms[2] == proof.abs_l_commit && coms[3] == proof.sign_commit);
    assert(coms[4] == proof.sigma_upper_at_abs_commit);
    assert(coms[5] == proof.sigma_lower_at_abs_commit);
    assert(coms[6] == proof.dx_step_1_commit && coms[7] == proof.dx_step_1_rem_commit);
    assert(coms[8] == proof.dx_sigma_code_commit && coms[9] == proof.dx_sigma_rem_commit);
    assert(coms[10] == proof.b_sigma_code_commit && coms[11] == proof.b_sigma_rem_commit);
    assert(coms[12] == proof.diff_commit);
    if opens_to::<P>(vk, preact, table) {
        law_opening_binds::<P>(
            vk,
            preact,
            table,
            point,
            proof.preact_eval_at_r_final@,
            proof.preact_open_at_r_final,
            nv,
            ep_t8(vk, proof, d, b, t6),
        );
    }
}

/// The lookup and the rounds of an accepted endpoint proof are each accepted:
/// the lookup against the function's tables, and the rounds for the six
/// identities of the line at the proof's scales and for the number of neurons
/// that is asked for.
pub proof fn law_accepted_endpoint_parts<P: MlPcs>(
    params: SnarkParams<P>,
    proof: SshapeEndpointProof<P>,
    layer_idx: usize,
    kind: ActivationKind,
    line: SshapeLineKind,
    endpoint: SshapeEndpointKind,
    n: usize,
    preact: P::Commitment,
    d: P::Commitment,
    b: P::Commitment,
    s_d: Scale,
    s_b: Scale,
    s_w: Scale,
    t0: Seq<u8>,
)
    requires
        endpoint_verdict(
            params,
            proof,
            layer_idx,
            kind,
            line,
            endpoint,
            n,
            preact,
            d,
            b,
            s_d,
            s_b,
            s_w,
            t0,
        ) is Ok,
    ensures
        exists|t: Seq<u8>| (#[trigger] ep_envelope_verdict(params, proof, kind, t)) is Ok,
        exists|t: Seq<u8>|
            (#[trigger] ep_sumcheck_verdict(
                params.verifier_key,
                proof,
                endpoint_exprs(
                    kind,
                    line,
                    pow2(s_d.e as nat) as i128,
                    pow2(s_b.e as nat) as i128,
                    pow2(s_w.e as nat) as i128,
                    pow2(params.sigma_v_scale_log2 as nat) as i128,
                    pow2((params.sigma_x_scale_log2 - s_w.e) as nat) as i128,
                ),
                n as nat,
                preact,
                d,
                b,
                t,
            )) is Ok,
{
    let h = ep_t0::<P>(layer_idx, kind, line, endpoint, n, preact, d, b, t0);
    let t2 = ep_t2(params.verifier_key, proof, h);
    assert(ep_envelope_verdict(params, proof, kind, t2) is Ok);
}

/// The transcript of an endpoint proof is bound to what the proof is for, one
/// after the other: the layer, the function, the endpoint, the line, the sizes,
/// and the commitments to the line and to the preactivations.
pub proof fn law_endpoint_transcript<P: MlPcs>(
    layer_idx: usize,
    kind: ActivationKind,
    line: SshapeLineKind,
    endpoint: SshapeEndpointKind,
    n: usize,
    preact: P::Commitment,
    d: P::Commitment,
    b: P::Commitment,
    t0: Seq<u8>,
)
    requires
        kind is Sigmoid || kind is Tanh,
    ensures
        ({
            let t1 = absorbed(
                abs_u64(t0, layer_idx as u64),
                seq![if kind is Sigmoid { 0u8 } else { 1u8 }],
            );
            let t2 = absorbed(t1, seq![if endpoint is Lower { 0u8 } else { 1u8 }]);
            let t3 = absorbed(t2, seq![if line is Upper { 0u8 } else { 1u8 }]);
            let t4 = abs_u64(
                abs_u64(t3, even_vars(ceil_log2(n as nat)) as u64),
                n as u64,
            );
            ep_t0::<P>(layer_idx, kind, line, endpoint, n, preact, d, b, t0) == absorbed(
                absorbed(absorbed(t4, P::bytes(d)), P::bytes(b)),
                P::bytes(preact),
            )
        }),
{
}

// ---- A line at its critical point ----

/// An accepted critical-point proof is for what is asked: the layer, the
/// function (which is no ReLU), the line and the number of neurons, of which
/// there is at least one; its scales are powers of two within the range table,
/// and the preactivations' is the tables'.
pub proof fn law_accepted_critical_header<P: MlPcs>(
    params: SnarkParams<P>,
    proof: SshapeCriticalPointProof<P>,
    layer_idx: usize,
    kind: ActivationKind,
    line: SshapeLineKind,
    n: usize,
    preact_l: P::Commitment,
    preact_u: P::Commitment,
    d: P::Commitment,
    b: P::Commitment,
    s_d: Scale,
    s_b: Scale,
    s_w: Scale,
    t0: Seq<u8>,
)
    requires
        critical_verdict(
            params,
            proof,
            layer_idx,
            kind,
            line,
            n,
            preact_l,
            preact_u,
            d,
            b,
            s_d,
            s_b,
            s_w,
            t0,
        ) is Ok,
    ensures
        proof.layer_idx == layer_idx,
        kind is Sigmoid && proof.kind_tag == 0 || kind is Tanh && proof.kind_tag == 1,
        line is Upper && proof.line_tag == 0 || line is Lower && proof.line_tag == 1,
        n >= 1,
        proof.n_real == n,
        proof.n_vars == even_vars(ceil_log2(n as nat)),
        s_d.c == 1 && s_d.e <= params.gadget_range_bits,
        s_b.c == 1 && s_b.e <= params.gadget_range_bits,
        s_w.c == 1 && s_w.e <= params.gadget_range_bits,
        s_w.e == params.sigma_x_scale_log2,
{
}

/// The columns of an accepted critical-point proof that must be small are each
/// in range: the critical point, both chunks of the two slacks of the slope, of
/// the position and of the gap, and the three remainders.
pub proof fn law_accepted_critical_ranges<P: MlPcs>(
    params: SnarkParams<P>,
    proof: SshapeCriticalPointProof<P>,
    layer_idx: usize,
    kind: ActivationKind,
    line: SshapeLineKind,
    n: usize,
    preact_l: P::Commitment,
    preact_u: P::Commitment,
    d: P::Commitment,
    b: P::Commitment,
    s_d: Scale,
    s_b: Scale,
    s_w: Scale,
    t0: Seq<u8>,
)
    requires
        critical_verdict(
            params,
            proof,
            layer_idx,
            kind,
            line,
            n,
            preact_l,
            preact_u,
            d,
            b,
            s_d,
            s_b,
            s_w,
            t0,
        ) is Ok,
    ensures
        ({
            let nv = proof.n_vars as nat;
            &&& column_in_range(params, proof.z_commit, nv, proof.z_range)
            &&& column_in_range(
                params,
                proof.slack_fd1_high_commit,
                nv,
                proof.slack_fd1_high_range,
            )
            &&& column_in_range(params, proof.slack_fd1_low_commit, nv, proof.slack_fd1_low_range)
            &&& column_in_range(
                params,
                proof.slack_fd2_high_commit,
                nv,
                proof.slack_fd2_high_range,
            )
            &&& column_in_range(params, proof.slack_fd2_low_commit, nv, proof.slack_fd2_low_range)
            &&& column_in_range(
                params,
                proof.slack_pos_high_commit,
                nv,
                proof.slack_pos_high_range,
            )
            &&& column_in_range(params, proof.slack_pos_low_commit, nv, proof.slack_pos_low_range)
            &&& column_in_range(
                params,
                proof.gated_gap_high_commit,
                nv,
                proof.gated_gap_high_range,
            )
            &&& column_in_range(params, proof.gated_gap_low_commit, nv, proof.gated_gap_low_range)
            &&& column_in_range(params, proof.dz_step_1_rem_commit, nv, proof.dz_step_1_rem_range)
            &&& column_in_range(params, proof.dz_sigma_rem_commit, nv, proof.dz_sigma_rem_range)
            &&& column_in_range(params, proof.b_sigma_rem_commit, nv, proof.b_sigma_rem_range)
        }),
{
    let h = cp_t0::<P>(layer_idx, kind, line, n, preact_l, preact_u, d, b, t0);
    let coms = picked(cp_coms(proof), cp_checked());
    let ranges = cp_ranges(proof);
    let t1 = abs_coms::<P>(h, cp_coms(proof));
    let nv = proof.n_vars as nat;
    assert forall|i: int| 0 <= i < 12 implies #[trigger] column_in_range(
        params,
        coms[i],
        nv,
        ranges[i],
    ) by {
        law_accepted_ranges(params, coms, nv, ranges, t1, 0, i);
    }
    assert(column_in_range(params, coms[0], nv, ranges[0]));
    assert(column_in_range(params, coms[1], nv, ranges[1]));
    assert(column_in_range(params, coms[2], nv, ranges[2]));
    assert(column_in_range(params, coms[3], nv, ranges[3]));
    assert(column_in_range(params, coms[4], nv, ranges[4]));
    assert(column_in_range(params, coms[5], nv, ranges[5]));
    assert(column_in_range(params, coms[6], nv, ranges[6]));
    assert(column_in_range(params, coms[7], nv, ranges[7]));
    assert(column_in_range(params, coms[8], nv, ranges[8]));
    assert(column_in_range(params, coms[9], nv, ranges[9]));
    assert(column_in_range(params, coms[10], nv, ranges[10]));
    assert(column_in_range(params, coms[11], nv, ranges[11]));
}

/// The lookup and the rounds of an accepted critical-point proof are each
/// accepted: the lookup against the function's tables, and the rounds for the
/// identities of the line at the proof's scales, with four times the product of
/// the slopes' and the inputs' scale as the margin, which fits.
pub proof fn law_accepted_critical_parts<P: MlPcs>(
    params: SnarkParams<P>,
    proof: SshapeCriticalPointProof<P>,
    layer_idx: usize,
    kind: ActivationKind,
    line: SshapeLineKind,
    n: usize,
    preact_l: P::Commitment,
    preact_u: P::Commitment,
    d: P::Commitment,
    b: P::Commitment,
    s_d: Scale,
    s_b: Scale,
    s_w: Scale,
    t0: Seq<u8>,
)
    requires
        critical_verdict(
            params,
            proof,
            layer_idx,
            kind,
            line,
            n,
            preact_l,
            preact_u,
            d,
            b,
            s_d,
            s_b,
            s_w,
            t0,
        ) is Ok,
    ensures
        exists|t: Seq<u8>| (#[trigger] cp_envelope_verdict(params, proof, kind, t)) is Ok,
        ({
            let step = pow2(s_d.e as nat) * pow2(params.sigma_x_scale_log2 as nat);
            &&& step * 4 <= i128::MAX
            &&& exists|t: Seq<u8>|
                (#[trigger] cp_sumcheck_verdict(
                    params.verifier_key,
                    proof,
                    critical_exprs(
                        kind,
                        line,
                        pow2(s_d.e as nat) as i128,
                        pow2(s_b.e as nat) as i128,
                        pow2(s_w.e as nat) as i128,
                        pow2(params.sigma_v_scale_log2 as nat) as i128,
                        step as i128,
                        (step * 4) as i128,
                        pow2(params.gadget_range_bits as nat) as i128,
                    ),
                    true,
                    n as nat,
                    preact_l,
                    preact_u,
                    d,
                    b,
                    t,
                )) is Ok
        }),
{
    let h = cp_t0::<P>(layer_idx, kind, line, n, preact_l, preact_u, d, b, t0);
    let t2 = cp_t2(params.verifier_key, proof, h);
    assert(cp_envelope_verdict(params, proof, kind, t2) is Ok);
    let t6 = cp_t6(params.verifier_key, proof, t2);
    let ok = fits(cp_margin(params, s_d));
    let exprs = cp_exprs(params, kind, line, s_d, s_b, s_w);
    assert(cp_sumcheck_verdict(
        params.verifier_key,
        proof,
        exprs,
        ok,
        n as nat,
        preact_l,
        preact_u,
        d,
        b,
        t6,
    ) is Ok);
    assert(ok) by {
        reveal(cp_sumcheck_verdict);
    }
    assert(ok == true);
}

/// The rounds of an accepted critical-point proof carry zero to the weight of
/// the test point times the mask of the real neurons times the mix of all
/// sixteen identities, at the claimed values; the coefficients and the test
/// point were drawn one after the other.
pub proof fn law_accepted_critical_rounds<P: MlPcs>(
    vk: P::VerifierKey,
    proof: SshapeCriticalPointProof<P>,
    exprs: Seq<Expr>,
    margin_fits: bool,
    n: nat,
    preact_l: P::Commitment,
    preact_u: P::Commitment,
    d: P::Commitment,
    b: P::Commitment,
    t6: Seq<u8>,
)
    requires
        cp_sumcheck_verdict(
            vk,
            proof,
            exprs,
            margin_fits,
            n,
            preact_l,
            preact_u,
            d,
            b,
            t6,
        ) is Ok,
        exprs.len() == 16,
    ensures
        margin_fits,
        proof.rounds@.len() == proof.n_vars,
        proof.r_final@.len() == proof.n_vars,
        ({
            let rhos = critical_coefficients(proof);
            let t7 = challenged_n(t6, 15);
            let (test, point) = (vals(proof.r_test@), vals(proof.r_final@));
            let counted = mle(first_rows(n, pow2(proof.n_vars as nat)), point);
            let weight = eq_points(test, point);
            let row = critical_claims(proof, weight, counted);
            &&& rhos == challenges(t6, 15)
            &&& test == squeezed(t7, proof.n_vars as int)
            &&& point == sc_point(
                true,
                after_squeeze(t7, proof.n_vars as int),
                samples_of(proof.rounds@),
            )
            &&& test.len() == proof.n_vars ==> rounds_carry(
                samples_of(proof.rounds@),
                point,
                0,
                fmul(fmul(weight, counted), field_sum(mixed_values(rhos, exprs, row))),
            )
        }),
{
    reveal(cp_sumcheck_verdict);
    let (test, point) = (vals(proof.r_test@), vals(proof.r_final@));
    let s = samples_of(proof.rounds@);
    let t7 = cp_t7(proof, t6);
    let np = pow2(proof.n_vars as nat);
    lemma_split_rounds_carry(true, t7, s, 0, s.len());
    lemma_vals_in_field(proof.r_test@);
    lemma_vals_in_field(proof.r_final@);
    assert(mask(n, np) =~= first_rows(n, np));
    assert(critical_coefficients(proof) =~= cp_rhos(proof));
    if test.len() == proof.n_vars {
        law_mle_of_eq_table(test, point);
        let weight = eq_points(test, point);
        let counted = mle(first_rows(n, np), point);
        let row = critical_claims(proof, weight, counted);
        assert(seq![weight, counted, proof.preact_l_eval@, proof.preact_u_eval@] + cp_values(proof)
            =~= row);
        law_combination_mixes_every_identity(cp_rhos(proof), exprs, row, 16);
        let mixed = mixed_values(cp_rhos(proof), exprs, row);
        assert(mixed.take(16) =~= mixed);
    }
}

/// The coefficients that mix the identities of a critical-point proof.
pub open spec fn critical_coefficients<P: MlPcs>(proof: SshapeCriticalPointProof<P>) -> Seq<int> {
    seq![
        proof.combined_rho_a@,
        proof.combined_rho_b@,
        proof.combined_rho_c@,
        proof.combined_rho_d@,
        proof.combined_rho_e@,
        proof.combined_rho_f@,
        proof.combined_rho_g@,
        proof.combined_rho_h@,
        proof.combined_rho_i@,
        proof.combined_rho_j@,
        proof.combined_rho_k@,
        proof.combined_rho_l@,
        proof.combined_rho_m@,
        proof.combined_rho_n@,
        proof.combined_rho_o@,
    ]
}

/// The row of claimed values that an accepted critical-point proof's identities
/// are taken at.
pub open spec fn critical_claims<P: MlPcs>(
    proof: SshapeCriticalPointProof<P>,
    weight: int,
    mask: int,
) -> Seq<int> {
    seq![
        weight,
        mask,
        proof.preact_l_eval@,
        proof.preact_u_eval@,
        proof.d_eval@,
        proof.b_eval@,
        proof.z_eval@,
        proof.sigma_lo_z_eval@,
        proof.sigma_up_z_eval@,
        proof.sigma_lo_zmd_eval@,
        proof.sigma_up_zmd_eval@,
        proof.sigma_lo_zpd_eval@,
        proof.sigma_up_zpd_eval@,
        proof.slack_fd1_eval@,
        proof.slack_fd2_eval@,
        proof.factor_a_eval@,
        proof.factor_b_eval@,
        proof.dz_step_1_eval@,
        proof.dz_step_1_rem_eval@,
        proof.dz_sigma_code_eval@,
        proof.dz_sigma_rem_eval@,
        proof.b_sigma_code_eval@,
        proof.b_sigma_rem_eval@,
        proof.slack_fd1_high_eval@,
        proof.slack_fd1_low_eval@,
        proof.slack_fd2_high_eval@,
        proof.slack_fd2_low_eval@,
        proof.inside_eval@,
        proof.slack_pos_eval@,
        proof.slack_pos_high_eval@,
        proof.slack_pos_low_eval@,
        proof.gated_gap_eval@,
        proof.gated_gap_high_eval@,
        proof.gated_gap_low_eval@,
        proof.is_active_eval@,
    ]
}

/// The values that an accepted critical-point proof claims at the final point
/// are those of its commitments, as far as they hold known tables: of both ends
/// of the preactivations, of the line, and of each column.
pub proof fn law_accepted_critical_tables<P: MlPcs>(
    vk: P::VerifierKey,
    proof: SshapeCriticalPointProof<P>,
    exprs: Seq<Expr>,
    margin_fits: bool,
    n: nat,
    preact_l: P::Commitment,
    preact_u: P::Commitment,
    d: P::Commitment,
    b: P::Commitment,
    t6: Seq<u8>,
    table: Seq<int>,
)
    requires
        cp_sumcheck_verdict(
            vk,
            proof,
            exprs,
            margin_fits,
            n,
            preact_l,
            preact_u,
            d,
            b,
            t6,
        ) is Ok,
    ensures
        ({
            let value = mle(table, vals(proof.r_final@));
            let coms = critical_openings(proof, d, b);
            let claims = critical_claims(proof, 0, 0).skip(4);
            &&& opens_to::<P>(vk, preact_l, table) ==> proof.preact_l_eval@ == value
            &&& opens_to::<P>(vk, preact_u, table) ==> proof.preact_u_eval@ == value
            &&& forall|i: int|
                0 <= i < 31 && opens_to::<P>(vk, #[trigger] coms[i], table) ==> claims[i] == value
        }),
{
    reveal(cp_sumcheck_verdict);
    let point = vals(proof.r_final@);
    let coms = cp_opened(proof, d, b);
    let values = cp_values(proof);
    let s = samples_of(proof.rounds@);
    let t8 = sc_state(true, cp_t7(proof, t6), s, s.len());
    let nv = proof.n_vars as nat;
    let open = proof.batched_open_at_r;
    assert(coms =~= critical_openings(proof, d, b));
    assert(values =~= critical_claims(proof, 0, 0).skip(4));
    assert forall|i: int| 0 <= i < 31 && opens_to::<P>(vk, #[trigger] coms[i], table) implies
        values[i] == mle(table, point) by {
        law_joint_opening_binds::<P>(vk, coms, table, values, point, open, nv, t8, i);
    }
    if opens_to::<P>(vk, preact_l, table) {
        law_opening_binds::<P>(
            vk,
            preact_l,
            table,
            point,
            proof.preact_l_eval@,
            proof.preact_l_open_at_r_final,
            nv,
            cp_t8(vk, proof, d, b, t6),
        );
    }
    if opens_to::<P>(vk, preact_u, table) {
        law_opening_binds::<P>(
            vk,
            preact_u,
            table,
            point,
            proof.preact_u_eval@,
            proof.preact_u_open_at_r_final,
            nv,
            cp_t9(vk, proof, preact_l, d, b, t6),
        );
    }
}

/// The commitments that a critical-point proof opens jointly, one for each of
/// the claimed values from the slope on.
pub open spec fn critical_openings<P: MlPcs>(
    proof: SshapeCriticalPointProof<P>,
    d: P::Commitment,
    b: P::Commitment,
) -> Seq<P::Commitment> {
    seq![
        d,
        b,
        proof.z_commit,
        proof.sigma_lo_z_commit,
        proof.sigma_up_z_commit,
        proof.sigma_lo_zmd_commit,
        proof.sigma_up_zmd_commit,
        proof.sigma_lo_zpd_commit,
        proof.sigma_up_zpd_commit,
        proof.slack_fd1_commit,
        proof.slack_fd2_commit,
        proof.factor_a_commit,
        proof.factor_b_commit,
        proof.dz_step_1_commit,
        proof.dz_step_1_rem_commit,
        proof.dz_sigma_code_commit,
        proof.dz_sigma_rem_commit,
        proof.b_sigma_code_commit,
        proof.b_sigma_rem_commit,
        proof.slack_fd1_high_commit,
        proof.slack_fd1_low_commit,
        proof.slack_fd2_high_commit,
        proof.slack_fd2_low_commit,
        proof.inside_commit,
        proof.slack_pos_commit,
        proof.slack_pos_high_commit,
        proof.slack_pos_low_commit,
        proof.gated_gap_commit,
        proof.gated_gap_high_commit,
        proof.gated_gap_low_commit,
        proof.is_active_commit,
    ]
}

/// The envelope lookup of an accepted critical-point proof: four rows to a
/// neuron, both sums of fractions accepted, and cancelling; the table's claimed
/// denominator is that of the function's tables, and the lookup's, shifted
/// back, is what the last two coordinates select of the rows at the critical
/// point, one step before it, one step behind it, and at zero.
pub proof fn law_accepted_critical_lookup<P: MlPcs>(
    params: SnarkParams<P>,
    proof: SshapeCriticalPointProof<P>,
    kind: ActivationKind,
    t2: Seq<u8>,
)
    requires
        cp_envelope_verdict(params, proof, kind, t2) is Ok,
        kind is Sigmoid || kind is Tanh,
    ensures
        ({
            let (lower, upper) = function_tables(params.preprocessed.spec_sigma(), kind);
            let nv = proof.n_vars as nat;
            let t3 = abs_u64(t2, (3 * pow2(nv)) as u64);
            let t4 = after_squeeze(t3, 1);
            let t5 = abs_u64(
                abs_u64(
                    absorbed(after_squeeze(t4, 1), P::bytes(proof.envelope_mult_commit)),
                    proof.envelope_witness_len as u64,
                ),
                proof.envelope_table_len as u64,
            );
            let (a1, a2) = (proof.envelope_combine_alpha_1@, proof.envelope_combine_alpha_2@);
            let beta = proof.envelope_logup_beta@;
            let t6 = abs_fr(abs_fr(abs_fr(after_squeeze(t5, 1), a1), a2), beta);
            let lp = vals(proof.envelope_lookup_proof.bottom_point@);
            let tp = vals(proof.envelope_table_proof.bottom_point@);
            let (x, y) = (lp[nv as int], lp[nv as int + 1]);
            let z = proof.envelope_z_eval@;
            let here = mixed_row(
                a1,
                a2,
                z,
                proof.envelope_sigma_up_z_eval@,
                proof.envelope_sigma_lo_z_eval@,
            );
            let before = mixed_row(
                a1,
                a2,
                fsub(z, 1),
                proof.envelope_sigma_up_zmd_eval@,
                proof.envelope_sigma_lo_zmd_eval@,
            );
            let behind = mixed_row(
                a1,
                a2,
                fadd(z, 1),
                proof.envelope_sigma_up_zpd_eval@,
                proof.envelope_sigma_lo_zpd_eval@,
            );
            let pad = fadd(fmul(a2, readable(upper[0])), readable(lower[0]));
            let (nx, ny) = (fsub(1, x), fsub(1, y));
            &&& proof.envelope_witness_len == 4 * pow2(nv)
            &&& proof.envelope_table_len == upper.len()
            &&& a1 == squeezed(t3, 1)[0]
            &&& a2 == squeezed(t4, 1)[0]
            &&& beta == squeezed(t5, 1)[0]
            &&& lp.len() >= nv + 2
            &&& tp.len() == ceil_log2(upper.len())
            &&& pair_verdict(
                proof.envelope_lookup_proof,
                proof.envelope_table_proof,
                proof.envelope_lookup_top,
                proof.envelope_table_top,
                proof.envelope_lookup_proof.layers@.len(),
                proof.envelope_table_proof.layers@.len(),
                t6,
            ) is Ok
            &&& fractions_sum_to_zero(
                vals4(proof.envelope_lookup_top),
                vals4(proof.envelope_table_top),
            )
            &&& proof.envelope_table_proof.bottom_denom@ == fsub(
                mixed_row(a1, a2, mle(identity_table(tp.len()), tp), mle(upper, tp), mle(lower, tp)),
                beta,
            )
            &&& fadd(proof.envelope_lookup_proof.bottom_denom@, beta) == fadd(
                fadd(
                    fadd(fmul(fmul(nx, ny), here), fmul(fmul(nx, y), before)),
                    fmul(fmul(x, ny), behind),
                ),
                fmul(fmul(x, y), pad),
            )
        }),
{
    reveal(cp_envelope_verdict);
    lemma_vals_in_field(proof.envelope_table_proof.bottom_point@);
    law_identity_table(vals(proof.envelope_table_proof.bottom_point@));
}

/// A row of the envelope, mixed into one value.
pub open spec fn mixed_row(a1: int, a2: int, x: int, up: int, lo: int) -> int {
    fadd(fadd(fmul(a1, x), fmul(a2, up)), lo)
}

/// The values that the envelope lookup of an accepted critical-point proof
/// claims are those of the critical point's column, of the six envelope
/// columns, and of the multiplicities, as far as the commitments hold known
/// tables.
pub proof fn law_accepted_critical_lookup_tables<P: MlPcs>(
    params: SnarkParams<P>,
    proof: SshapeCriticalPointProof<P>,
    kind: ActivationKind,
    t2: Seq<u8>,
    table: Seq<int>,
)
    requires
        cp_envelope_verdict(params, proof, kind, t2) is Ok,
    ensures
        ({
            let vk = params.verifier_key;
            let lp = vals(proof.envelope_lookup_proof.bottom_point@);
            let value = mle(table, lp.take(proof.n_vars as int));
            &&& opens_to::<P>(vk, proof.z_commit, table) ==> proof.envelope_z_eval@ == value
            &&& opens_to::<P>(vk, proof.sigma_lo_z_commit, table)
                ==> proof.envelope_sigma_lo_z_eval@ == value
            &&& opens_to::<P>(vk, proof.sigma_up_z_commit, table)
                ==> proof.envelope_sigma_up_z_eval@ == value
            &&& opens_to::<P>(vk, proof.sigma_lo_zmd_commit, table)
                ==> proof.envelope_sigma_lo_zmd_eval@ == value
            &&& opens_to::<P>(vk, proof.sigma_up_zmd_commit, table)
                ==> proof.envelope_sigma_up_zmd_eval@ == value
            &&& opens_to::<P>(vk, proof.sigma_lo_zpd_commit, table)
                ==> proof.envelope_sigma_lo_zpd_eval@ == value
            &&& opens_to::<P>(vk, proof.sigma_up_zpd_commit, table)
                ==> proof.envelope_sigma_up_zpd_eval@ == value
            &&& opens_to::<P>(vk, proof.envelope_mult_commit, table)
                ==> proof.envelope_table_proof.bottom_num@ == mle_padded(
                table,
                vals(proof.envelope_table_proof.bottom_point@),
                proof.envelope_mult_n_vars as nat,
            )
        }),
{
    reveal(cp_envelope_verdict);
    let vk = params.verifier_key;
    let lp = vals(proof.envelope_lookup_proof.bottom_point@);
    let nv = proof.n_vars as nat;
    let point = lp.take(nv as int);
    let coms = cp_env_coms::<P>(cp_coms(proof));
    let values = cp_env_values(proof);
    let open = proof.envelope_witness_batched_open;
    let t5 = cp_t5(vk, proof, t2);
    assert forall|i: int| 0 <= i < 7 && opens_to::<P>(vk, #[trigger] coms[i], table) implies
        values[i] == mle(table, point) by {
        law_joint_opening_binds::<P>(vk, coms, table, values, point, open, nv, t5, i);
    }
    assert(coms[0] == proof.z_commit && coms[1] == proof.sigma_lo_z_commit);
    assert(coms[2] == proof.sigma_up_z_commit && coms[3] == proof.sigma_lo_zmd_commit);
    assert(coms[4] == proof.sigma_up_zmd_commit && coms[5] == proof.sigma_lo_zpd_commit);
    assert(coms[6] == proof.sigma_up_zpd_commit);
    if opens_to::<P>(vk, proof.envelope_mult_commit, table) {
        law_opening_binds::<P>(
            vk,
            proof.envelope_mult_commit,
            table,
            vals(proof.envelope_table_proof.bottom_point@),
            proof.envelope_table_proof.bottom_num@,
            proof.envelope_mult_open,
            proof.envelope_mult_n_vars as nat,
            cp_t4(proof, t2),
        );
    }
}

/// The transcript of a critical-point proof is bound to what the proof is for,
/// one after the other: the layer, the function, the line, the sizes, and the
/// commitments to the line and to both ends of the preactivations.
pub proof fn law_critical_transcript<P: MlPcs>(
    layer_idx: usize,
    kind: ActivationKind,
    line: SshapeLineKind,
    n: usize,
    preact_l: P::Commitment,
    preact_u: P::Commitment,
    d: P::Commitment,
    b: P::Commitment,
    t0: Seq<u8>,
)
    requires
        kind is Sigmoid || kind is Tanh,
    ensures
        ({
            let t1 = absorbed(
                abs_u64(t0, layer_idx as u64),
                seq![if kind is Sigmoid { 0u8 } else { 1u8 }],
            );
            let t2 = absorbed(t1, seq![if line is Upper { 0u8 } else { 1u8 }]);
            let t3 = abs_u64(
                abs_u64(t2, even_vars(ceil_log2(n as nat)) as u64),
                n as u64,
            );
            cp_t0::<P>(layer_idx, kind, line, n, preact_l, preact_u, d, b, t0) == absorbed(
                absorbed(
                    absorbed(absorbed(t3, P::bytes(d)), P::bytes(b)),
                    P::bytes(preact_l),
                ),
                P::bytes(preact_u),
            )
        }),
{
}

} // verus!
