//! What accepted gadget proofs say of the columns that they are about.

use crate::binding::{law_joint_opening_binds, law_opening_binds, lemma_vals_in_field, opens_to};
use crate::column_set::ranges_verdict;
use crate::field::{fadd, fmul, fsub, lemma_view_in_field, residue, vals};
use crate::logup::vals4;
use crate::lookup_pair::pair_verdict;
use crate::mle::{eq_points, eq_table, mle};
use crate::mle_laws::law_mle_of_eq_table;
use crate::params::SnarkParams;
use crate::pcs::{MlPcs, mle_padded};
use crate::pos_range::{
    PosRangeLogUp, minus_one, range_state, range_t2, range_t3, range_t4, range_verdict,
};
use crate::range_per_tensor::{TensorRangeProof, tensor_range_verdict, tr_t2, tr_t3, tr_t4};
use crate::relu_d_boolean::{ReluDBooleanProof, d_boolean_t2, d_boolean_t3, d_boolean_verdict};
use crate::relu_lookup_1d::{ReluLookup1dProof, relu1d_t3, relu1d_t4, relu1d_verdict};
use crate::relu_lower_offset::{ReluLowerOffsetProof, lower_offset_t1, lower_offset_verdict};
use crate::relu_upper_endpoint::{
    ReluUpperEndpointHalf, ReluUpperEndpointProof, half_coms, half_t2, half_t3, half_t5,
    half_values, half_verdict, upper_endpoint_verdict, upper_line_cell,
};
use crate::round_laws::{
    fractions_sum_to_zero, law_accepted_pair, law_accepted_zero_check, law_checked_rounds_carry,
    rounds_carry,
};
use crate::sumcheck::{samples_of, sc_point, sc_state};
use crate::table_mle::{
    identity_table, law_identity_table, law_relu_table, law_signed_range_table, relu_table,
    signed_range_table,
};
use crate::transcript::{abs_fr, abs_u64, absorbed, after_squeeze, squeezed};
use vstd::arithmetic::power2::pow2;
use vstd::prelude::*;

verus! {

// ---- Ranges ----

/// An accepted range proof of a column of `2^n_vars` entries: its lengths are
/// those of the column and of the table of all numbers below `2^bits`; its
/// challenges were drawn after the multiplicities and the lengths; both sums of
/// fractions are accepted, and cancel; and the claimed denominators are those
/// of the column and of the table, shifted by the second challenge.
pub proof fn law_accepted_range<P: MlPcs>(
    vk: P::VerifierKey,
    com: P::Commitment,
    n_vars: nat,
    bits: nat,
    range: PosRangeLogUp<P>,
    t0: Seq<u8>,
)
    requires
        range_verdict(vk, com, n_vars, bits, range, t0) is Ok,
    ensures
        range.witness_len == pow2(n_vars),
        range.table_len == pow2(bits),
        ({
            let t1 = abs_u64(
                abs_u64(
                    absorbed(t0, P::bytes(range.mult_commit)),
                    range.witness_len as u64,
                ),
                range.table_len as u64,
            );
            let t2 = after_squeeze(t1, 1);
            let (alpha, beta) = (range.logup_alpha@, range.logup_beta@);
            let t3 = abs_fr(abs_fr(after_squeeze(t2, 1), alpha), beta);
            let tp = vals(range.table_proof.bottom_point@);
            &&& alpha == squeezed(t1, 1)[0]
            &&& beta == squeezed(t2, 1)[0]
            &&& pair_verdict(
                range.lookup_proof,
                range.table_proof,
                range.lookup_top,
                range.table_top,
                if n_vars == 0 {
                    0
                } else {
                    (n_vars - 1) as nat
                },
                if bits == 0 {
                    0
                } else {
                    (bits - 1) as nat
                },
                t3,
            ) is Ok
            &&& fractions_sum_to_zero(vals4(range.lookup_top), vals4(range.table_top))
            &&& range.lookup_proof.bottom_denom@ == fsub(range.witness_logup_eval@, beta)
            &&& bits >= 1 ==> tp.len() == bits
            &&& range.table_proof.bottom_denom@ == fsub(
                mle(identity_table(tp.len()), tp),
                beta,
            )
        }),
{
    law_accepted_pair(
        range.lookup_proof,
        range.table_proof,
        range.lookup_top,
        range.table_top,
        minus_one(n_vars),
        minus_one(bits),
        range_t2(range, t0),
    );
    lemma_vals_in_field(range.table_proof.bottom_point@);
    law_identity_table(vals(range.table_proof.bottom_point@));
}

/// The values that an accepted range proof claims are those of the column and
/// of its multiplicities, as far as the commitments hold known tables.
pub proof fn law_accepted_range_tables<P: MlPcs>(
    vk: P::VerifierKey,
    com: P::Commitment,
    n_vars: nat,
    bits: nat,
    range: PosRangeLogUp<P>,
    t0: Seq<u8>,
    column: Seq<int>,
    mult: Seq<int>,
)
    requires
        range_verdict(vk, com, n_vars, bits, range, t0) is Ok,
        opens_to::<P>(vk, com, column),
        opens_to::<P>(vk, range.mult_commit, mult),
    ensures
        range.witness_logup_eval@ == mle_padded(
            column,
            vals(range.lookup_proof.bottom_point@),
            n_vars,
        ),
        range.table_proof.bottom_num@ == mle_padded(
            mult,
            vals(range.table_proof.bottom_point@),
            range.mult_n_vars as nat,
        ),
{
    law_opening_binds::<P>(
        vk,
        range.mult_commit,
        mult,
        vals(range.table_proof.bottom_point@),
        range.table_proof.bottom_num@,
        range.mult_open,
        range.mult_n_vars as nat,
        range_t3(range, t0),
    );
    law_opening_binds::<P>(
        vk,
        com,
        column,
        vals(range.lookup_proof.bottom_point@),
        range.witness_logup_eval@,
        range.witness_logup_open,
        n_vars,
        range_t4(vk, range, t0),
    );
}

/// Of several columns whose range proofs are accepted, each is in the range
/// that the parameters name.
pub proof fn law_accepted_ranges<P: MlPcs>(
    params: SnarkParams<P>,
    coms: Seq<P::Commitment>,
    n: nat,
    ranges: Seq<PosRangeLogUp<P>>,
    t0: Seq<u8>,
    k: nat,
    i: int,
)
    requires
        ranges_verdict(params, coms, n, ranges, t0, k) is Ok,
        k <= i < ranges.len(),
    ensures
        params.preprocessed.has_pos_table(params.gadget_range_bits as nat),
        exists|t: Seq<u8>|
            (#[trigger] range_verdict(
                params.verifier_key,
                coms[i],
                n,
                params.gadget_range_bits as nat,
                ranges[i],
                t,
            )) is Ok,
    decreases i - k,
{
    if k < i {
        law_accepted_ranges(params, coms, n, ranges, t0, k + 1, i);
    }
}

/// An accepted range proof of a tensor: its lengths are those of the tensor and
/// of the signed range table; its challenge was drawn after the multiplicities
/// and the lengths; both sums of fractions are accepted, and cancel; and the
/// claimed denominators are those of the tensor and of the table, shifted by
/// the challenge.
pub proof fn law_accepted_tensor_range<P: MlPcs>(
    params: SnarkParams<P>,
    proof: TensorRangeProof<P>,
    tensor: P::Commitment,
    n_vars: nat,
    t0: Seq<u8>,
)
    requires
        tensor_range_verdict(params, proof, tensor, n_vars, t0) is Ok,
    ensures
        proof.witness_len == pow2(n_vars),
        proof.table_len == pow2(params.preprocessed.spec_half_bits() + 1),
        proof.table_n_vars == params.preprocessed.spec_half_bits(),
        ({
            let t1 = abs_u64(
                abs_u64(
                    absorbed(t0, P::bytes(proof.mult_commit)),
                    proof.witness_len as u64,
                ),
                proof.table_len as u64,
            );
            let alpha = proof.alpha@;
            let tp = vals(proof.table_proof.bottom_point@);
            &&& alpha == squeezed(t1, 1)[0]
            &&& pair_verdict(
                proof.lookup_proof,
                proof.table_proof,
                proof.lookup_top,
                proof.table_top,
                proof.lookup_n_vars as nat,
                proof.table_n_vars as nat,
                abs_fr(after_squeeze(t1, 1), alpha),
            ) is Ok
            &&& fractions_sum_to_zero(vals4(proof.lookup_top), vals4(proof.table_top))
            &&& proof.lookup_proof.bottom_denom@ == fsub(proof.tensor_eval@, alpha)
            &&& tp.len() == params.preprocessed.spec_half_bits() + 1
            &&& proof.table_proof.bottom_denom@ == fsub(
                mle(signed_range_table(tp.len()), tp),
                alpha,
            )
        }),
{
    reveal(tensor_range_verdict);
    law_accepted_pair(
        proof.lookup_proof,
        proof.table_proof,
        proof.lookup_top,
        proof.table_top,
        proof.lookup_n_vars as nat,
        proof.table_n_vars as nat,
        tr_t2(proof, t0),
    );
    lemma_vals_in_field(proof.table_proof.bottom_point@);
    law_signed_range_table(vals(proof.table_proof.bottom_point@));
}

/// The values that an accepted range proof of a tensor claims are those of the
/// tensor and of its multiplicities, as far as the commitments hold known
/// tables.
pub proof fn law_accepted_tensor_range_tables<P: MlPcs>(
    params: SnarkParams<P>,
    proof: TensorRangeProof<P>,
    tensor: P::Commitment,
    n_vars: nat,
    t0: Seq<u8>,
    column: Seq<int>,
    mult: Seq<int>,
)
    requires
        tensor_range_verdict(params, proof, tensor, n_vars, t0) is Ok,
        opens_to::<P>(params.verifier_key, tensor, column),
        opens_to::<P>(params.verifier_key, proof.mult_commit, mult),
    ensures
        proof.tensor_eval@ == mle_padded(
            column,
            vals(proof.lookup_proof.bottom_point@),
            n_vars,
        ),
        proof.table_proof.bottom_num@ == mle_padded(
            mult,
            vals(proof.table_proof.bottom_point@),
            proof.mult_n_vars as nat,
        ),
{
    reveal(tensor_range_verdict);
    let vk = params.verifier_key;
    law_opening_binds::<P>(
        vk,
        tensor,
        column,
        vals(proof.lookup_proof.bottom_point@),
        proof.tensor_eval@,
        proof.tensor_open,
        n_vars,
        tr_t3(proof, t0),
    );
    law_opening_binds::<P>(
        vk,
        proof.mult_commit,
        mult,
        vals(proof.table_proof.bottom_point@),
        proof.table_proof.bottom_num@,
        proof.mult_open,
        proof.mult_n_vars as nat,
        tr_t4(vk, proof, tensor, n_vars, t0),
    );
}

// ---- ReLU layers ----

/// An accepted proof that lower slopes are zero or one: it is for the layer and
/// the size that are asked for, its test point was drawn after both, the
/// commitment and the scale, and its rounds carry zero to the test point's
/// weight times the claimed slope times the scale less the slope. As far as the
/// commitment holds a known table, the claimed slope is the table's.
pub proof fn law_accepted_boolean_slopes<P: MlPcs>(
    vk: P::VerifierKey,
    proof: ReluDBooleanProof<P>,
    layer_idx: usize,
    n_vars: usize,
    s_d: int,
    com: P::Commitment,
    t0: Seq<u8>,
)
    requires
        d_boolean_verdict(vk, proof, layer_idx, n_vars, s_d, com, t0) is Ok,
    ensures
        proof.layer_idx == layer_idx,
        proof.n_vars == n_vars,
        ({
            let t1 = abs_fr(
                absorbed(
                    abs_u64(abs_u64(t0, layer_idx as u64), n_vars as u64),
                    P::bytes(com),
                ),
                s_d,
            );
            let (test, point) = (vals(proof.r@), vals(proof.r_final@));
            let d = proof.d_lower_eval@;
            &&& test == squeezed(t1, n_vars as int)
            &&& test.len() == n_vars
            &&& point == sc_point(
                true,
                after_squeeze(t1, n_vars as int),
                samples_of(proof.rounds@),
            )
            &&& proof.rounds@.len() == n_vars
            &&& rounds_carry(
                samples_of(proof.rounds@),
                point,
                0,
                fmul(fmul(eq_points(test, point), d), fsub(s_d, d)),
            )
            &&& forall|table: Seq<int>| #[trigger]
                opens_to::<P>(vk, com, table) ==> d == mle(table, point)
        }),
{
    let t2 = d_boolean_t2::<P>(layer_idx, n_vars, com, s_d, t0);
    let (test, point) = (vals(proof.r@), vals(proof.r_final@));
    law_checked_rounds_carry(true, t2, samples_of(proof.rounds@), 0, point);
    lemma_vals_in_field(proof.r@);
    lemma_vals_in_field(proof.r_final@);
    law_mle_of_eq_table(test, point);
    assert forall|table: Seq<int>| #[trigger] opens_to::<P>(vk, com, table) implies
        proof.d_lower_eval@ == mle(table, point) by {
        law_opening_binds::<P>(
            vk,
            com,
            table,
            point,
            proof.d_lower_eval@,
            proof.d_lower_open,
            n_vars as nat,
            d_boolean_t3(proof, com, s_d, t0),
        );
    }
}

/// An accepted proof that lower offsets are zero: it is for the layer and the
/// size that are asked for, its point was drawn after both and the commitment,
/// and the claimed offset there is zero. As far as the commitment holds a known
/// table, the table's value at the point is zero.
pub proof fn law_accepted_zero_offsets<P: MlPcs>(
    vk: P::VerifierKey,
    proof: ReluLowerOffsetProof<P>,
    layer_idx: usize,
    com: P::Commitment,
    n_vars: usize,
    t0: Seq<u8>,
)
    requires
        lower_offset_verdict(vk, proof, layer_idx, com, n_vars, t0) is Ok,
    ensures
        proof.layer_idx == layer_idx,
        proof.b_lower_n_vars == n_vars,
        proof.r@.len() == n_vars,
        proof.b_lower_eval@ == 0,
        vals(proof.r@) == squeezed(
            absorbed(
                abs_u64(abs_u64(t0, layer_idx as u64), n_vars as u64),
                P::bytes(com),
            ),
            n_vars as int,
        ),
        forall|table: Seq<int>| #[trigger]
            opens_to::<P>(vk, com, table) ==> mle(table, vals(proof.r@)) == 0,
{
    let t1 = lower_offset_t1::<P>(layer_idx, n_vars, com, t0);
    assert forall|table: Seq<int>| #[trigger] opens_to::<P>(vk, com, table) implies mle(
        table,
        vals(proof.r@),
    ) == 0 by {
        law_opening_binds::<P>(
            vk,
            com,
            table,
            vals(proof.r@),
            proof.b_lower_eval@,
            proof.b_lower_open,
            n_vars as nat,
            after_squeeze(t1, n_vars as int),
        );
    }
}

/// An accepted ReLU lookup of a column of `2^n_vars` cells: its lengths are
/// those of the column and of the whole ReLU table; its challenges were drawn
/// after the size, the multiplicities and the lengths; both sums of fractions
/// are accepted, and cancel; and the claimed denominators are those of the
/// table's rows and of the cells, mixed by the first challenge and shifted by
/// the second.
pub proof fn law_accepted_relu_lookup<P: MlPcs>(
    vk: P::VerifierKey,
    proof: ReluLookup1dProof<P>,
    preact: P::Commitment,
    relu: P::Commitment,
    n_vars: nat,
    half_bits: nat,
    t0: Seq<u8>,
)
    requires
        relu1d_verdict(vk, proof, preact, relu, n_vars, half_bits, t0) is Ok,
    ensures
        half_bits >= 1,
        proof.table_len == pow2(half_bits + 1),
        proof.witness_len == pow2(n_vars),
        ({
            let t1 = abs_u64(t0, pow2(n_vars) as u64);
            let t2 = abs_u64(
                abs_u64(
                    absorbed(after_squeeze(t1, 1), P::bytes(proof.mult_commit)),
                    proof.witness_len as u64,
                ),
                proof.table_len as u64,
            );
            let (alpha, beta) = (proof.combine_alpha@, proof.logup_beta@);
            let tp = vals(proof.table_proof.bottom_point@);
            &&& alpha == squeezed(t1, 1)[0]
            &&& beta == squeezed(t2, 1)[0]
            &&& pair_verdict(
                proof.lookup_proof,
                proof.table_proof,
                proof.lookup_top,
                proof.table_top,
                if n_vars == 0 {
                    0
                } else {
                    (n_vars - 1) as nat
                },
                half_bits,
                abs_fr(after_squeeze(t2, 1), beta),
            ) is Ok
            &&& fractions_sum_to_zero(vals4(proof.lookup_top), vals4(proof.table_top))
            &&& proof.lookup_proof.bottom_denom@ == fsub(
                fadd(fmul(alpha, proof.preact_logup_eval@), proof.relu_logup_eval@),
                beta,
            )
            &&& tp.len() == half_bits + 1
            &&& proof.table_proof.bottom_denom@ == fsub(
                mle(relu_table(tp.len(), alpha), tp),
                beta,
            )
        }),
{
    lemma_vals_in_field(proof.table_proof.bottom_point@);
    lemma_view_in_field(proof.combine_alpha);
    law_relu_table(vals(proof.table_proof.bottom_point@), proof.combine_alpha@);
}

/// The values that an accepted ReLU lookup claims are those of its columns and
/// of its multiplicities, as far as the commitments hold known tables.
pub proof fn law_accepted_relu_lookup_tables<P: MlPcs>(
    vk: P::VerifierKey,
    proof: ReluLookup1dProof<P>,
    preact: P::Commitment,
    relu: P::Commitment,
    n_vars: nat,
    half_bits: nat,
    t0: Seq<u8>,
    preact_table: Seq<int>,
    relu_column: Seq<int>,
    mult: Seq<int>,
)
    requires
        relu1d_verdict(vk, proof, preact, relu, n_vars, half_bits, t0) is Ok,
        opens_to::<P>(vk, preact, preact_table),
        opens_to::<P>(vk, relu, relu_column),
        opens_to::<P>(vk, proof.mult_commit, mult),
    ensures
        ({
            let lp = vals(proof.lookup_proof.bottom_point@);
            let tp = vals(proof.table_proof.bottom_point@);
            &&& proof.preact_logup_eval@ == mle_padded(preact_table, lp, n_vars)
            &&& proof.relu_logup_eval@ == mle_padded(relu_column, lp, n_vars)
            &&& proof.table_proof.bottom_num@ == mle_padded(mult, tp, proof.mult_n_vars as nat)
        }),
{
    let np = pow2(n_vars) as u64;
    let lp = vals(proof.lookup_proof.bottom_point@);
    let coms = seq![preact, relu];
    let values = seq![proof.preact_logup_eval@, proof.relu_logup_eval@];
    let t3 = relu1d_t3(proof, np, t0);
    let open = proof.witness_batched_open;
    law_joint_opening_binds::<P>(vk, coms, preact_table, values, lp, open, n_vars, t3, 0);
    law_joint_opening_binds::<P>(vk, coms, relu_column, values, lp, open, n_vars, t3, 1);
    law_opening_binds::<P>(
        vk,
        proof.mult_commit,
        mult,
        vals(proof.table_proof.bottom_point@),
        proof.table_proof.bottom_num@,
        proof.mult_open,
        proof.mult_n_vars as nat,
        relu1d_t4(vk, proof, preact, relu, n_vars, np, t0),
    );
}

/// An accepted side of a ReLU layer's upper line: its ReLU column is looked up
/// against the preactivations, its slack and its remainder are in range, and
/// its rounds carry zero to the test point's weight times
/// `slack s_d + epsilon - d preact - b c + relu s_d` at the final point.
pub proof fn law_accepted_upper_line_side<P: MlPcs>(
    params: SnarkParams<P>,
    half: ReluUpperEndpointHalf<P>,
    n_vars: usize,
    preact: P::Commitment,
    d: P::Commitment,
    b: P::Commitment,
    s_d: int,
    c: int,
    t0: Seq<u8>,
)
    requires
        half_verdict(params, half, n_vars, preact, d, b, s_d, c, t0) is Ok,
    ensures
        half.n_vars == n_vars,
        params.preprocessed.has_pos_table(params.gadget_range_bits as nat),
        ({
            let t1 = absorbed(
                absorbed(
                    absorbed(absorbed(abs_u64(t0, n_vars as u64), P::bytes(d)), P::bytes(b)),
                    P::bytes(preact),
                ),
                P::bytes(half.relu_commit),
            );
            relu1d_verdict(
                params.verifier_key,
                half.relu_lookup,
                preact,
                half.relu_commit,
                n_vars as nat,
                params.preprocessed.spec_half_bits(),
                t1,
            ) is Ok
        }),
        exists|t: Seq<u8>|
            (#[trigger] range_verdict(
                params.verifier_key,
                half.slack_commit,
                n_vars as nat,
                params.gadget_range_bits as nat,
                half.slack_range,
                absorbed(absorbed(t, P::bytes(half.slack_commit)), P::bytes(half.epsilon_commit)),
            )) is Ok,
        exists|t: Seq<u8>|
            (#[trigger] range_verdict(
                params.verifier_key,
                half.epsilon_commit,
                n_vars as nat,
                params.gadget_range_bits as nat,
                half.epsilon_range,
                t,
            )) is Ok && vals(half.r_test@) == squeezed(
                range_state(
                    params.verifier_key,
                    half.epsilon_commit,
                    n_vars as nat,
                    half.epsilon_range,
                    t,
                ),
                n_vars as int,
            ),
        half.rounds@.len() == n_vars,
        half.r_final@.len() == n_vars,
        half.r_test@.len() == n_vars ==> rounds_carry(
            samples_of(half.rounds@),
            vals(half.r_final@),
            0,
            fmul(
                eq_points(vals(half.r_test@), vals(half.r_final@)),
                fadd(
                    fsub(
                        fsub(
                            fadd(fmul(half.slack_eval@, s_d), half.epsilon_eval@),
                            fmul(half.d_upper_eval@, half.preact_eval@),
                        ),
                        fmul(half.b_upper_eval@, c),
                    ),
                    fmul(half.relu_eval@, s_d),
                ),
            ),
        ),
{
    let vk = params.verifier_key;
    let t2 = half_t2(vk, half, preact, d, b, t0);
    let t3 = half_t3(vk, half, preact, d, b, t0);
    assert(range_verdict(
        vk,
        half.slack_commit,
        n_vars as nat,
        params.gadget_range_bits as nat,
        half.slack_range,
        t2,
    ) is Ok);
    assert(range_verdict(
        vk,
        half.epsilon_commit,
        n_vars as nat,
        params.gadget_range_bits as nat,
        half.epsilon_range,
        t3,
    ) is Ok);
    lemma_vals_in_field(half.r_test@);
    lemma_vals_in_field(half.r_final@);
    if half.r_test@.len() == n_vars {
        law_mle_of_eq_table(vals(half.r_test@), vals(half.r_final@));
    }
    law_accepted_zero_check::<P>(
        vk,
        samples_of(half.rounds@),
        vals(half.r_final@),
        half_coms(half, preact, d, b),
        half_values(half),
        half.r_batched_open,
        upper_line_cell(
            mle(eq_table(vals(half.r_test@)), vals(half.r_final@)),
            half.d_upper_eval@,
            half.b_upper_eval@,
            half.slack_eval@,
            half.epsilon_eval@,
            half.preact_eval@,
            half.relu_eval@,
            s_d,
            c,
        ),
        n_vars as nat,
        "relu_upper_endpoint::batched_open",
        "relu_upper_endpoint::final_identity",
        half_t5(vk, half, preact, d, b, t0),
    );
}

/// The values that an accepted side claims at the final point are those of its
/// commitments, as far as they hold known tables.
pub proof fn law_accepted_upper_line_tables<P: MlPcs>(
    params: SnarkParams<P>,
    half: ReluUpperEndpointHalf<P>,
    n_vars: usize,
    preact: P::Commitment,
    d: P::Commitment,
    b: P::Commitment,
    s_d: int,
    c: int,
    t0: Seq<u8>,
    d_table: Seq<int>,
    b_table: Seq<int>,
    slack: Seq<int>,
    epsilon: Seq<int>,
    preact_table: Seq<int>,
    relu_column: Seq<int>,
)
    requires
        half_verdict(params, half, n_vars, preact, d, b, s_d, c, t0) is Ok,
        opens_to::<P>(params.verifier_key, d, d_table),
        opens_to::<P>(params.verifier_key, b, b_table),
        opens_to::<P>(params.verifier_key, half.slack_commit, slack),
        opens_to::<P>(params.verifier_key, half.epsilon_commit, epsilon),
        opens_to::<P>(params.verifier_key, preact, preact_table),
        opens_to::<P>(params.verifier_key, half.relu_commit, relu_column),
    ensures
        ({
            let point = vals(half.r_final@);
            &&& half.d_upper_eval@ == mle(d_table, point)
            &&& half.b_upper_eval@ == mle(b_table, point)
            &&& half.slack_eval@ == mle(slack, point)
            &&& half.epsilon_eval@ == mle(epsilon, point)
            &&& half.preact_eval@ == mle(preact_table, point)
            &&& half.relu_eval@ == mle(relu_column, point)
        }),
{
    let vk = params.verifier_key;
    let coms = half_coms(half, preact, d, b);
    let values = half_values(half);
    let point = vals(half.r_final@);
    let t5 = half_t5(vk, half, preact, d, b, t0);
    let s = samples_of(half.rounds@);
    let t6 = sc_state(true, t5, s, s.len());
    let n = n_vars as nat;
    let open = half.r_batched_open;
    law_joint_opening_binds::<P>(vk, coms, d_table, values, point, open, n, t6, 0);
    law_joint_opening_binds::<P>(vk, coms, b_table, values, point, open, n, t6, 1);
    law_joint_opening_binds::<P>(vk, coms, slack, values, point, open, n, t6, 2);
    law_joint_opening_binds::<P>(vk, coms, epsilon, values, point, open, n, t6, 3);
    law_joint_opening_binds::<P>(vk, coms, preact_table, values, point, open, n, t6, 4);
    law_joint_opening_binds::<P>(vk, coms, relu_column, values, point, open, n, t6, 5);
}

/// An accepted upper line of a ReLU layer: the proof is for the layer and the
/// size that are asked for, the offsets' scale divides the preactivations', and
/// both sides are accepted: one at the lower and one at the upper
/// preactivations, for the same line and the code `(s_w / s_b) s_d`.
pub proof fn law_accepted_upper_line<P: MlPcs>(
    params: SnarkParams<P>,
    proof: ReluUpperEndpointProof<P>,
    layer_idx: usize,
    n_vars: usize,
    preact_lower: P::Commitment,
    preact_upper: P::Commitment,
    d: P::Commitment,
    b: P::Commitment,
    s_d: int,
    s_w: int,
    s_b: int,
    t0: Seq<u8>,
)
    requires
        upper_endpoint_verdict(
            params,
            proof,
            layer_idx,
            n_vars,
            preact_lower,
            preact_upper,
            d,
            b,
            s_d,
            s_w,
            s_b,
            t0,
        ) is Ok,
    ensures
        proof.layer_idx == layer_idx,
        proof.n_vars == n_vars,
        s_w % s_b == 0,
        half_verdict(
            params,
            proof.lo,
            n_vars,
            preact_lower,
            d,
            b,
            residue(s_d),
            residue((s_w / s_b) * s_d),
            abs_u64(t0, layer_idx as u64),
        ) is Ok,
        exists|t: Seq<u8>|
            (#[trigger] half_verdict(
                params,
                proof.hi,
                n_vars,
                preact_upper,
                d,
                b,
                residue(s_d),
                residue((s_w / s_b) * s_d),
                t,
            )) is Ok,
{
}

} // verus!
