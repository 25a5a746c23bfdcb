//! The gadget that proves that the upper line `d_upper x + b_upper` dominates
//! `ReLU(x)` at the two preactivation endpoints of every neuron.
//!
//! The slack at the working scale is an integer:
//!
//! ```text
//! slack[j] s_d + epsilon[j] = d[j] preact[j] + b[j] (s_w / s_b) s_d - relu[j] s_d
//! ```
//!
//! with `epsilon[j]` in `[0, s_d)`. Each side binds `relu` to `ReLU(preact)` by
//! a lookup, range-checks `slack` and `epsilon`, and proves the identity by a
//! degree-3 sumcheck that a six-way opening closes.

use crate::columns::{
    all_below, commit_codes, even_vars, fits, lemma_signed_of_residue, lemma_signed_roundtrip,
    lifted_codes,
};
use crate::errors::{SnarkError, and_also, holds};
use crate::field::{
    Fr, all_in_field, fadd, fmul, fr_to_signed_i128, fsub, in_field, lemma_view_in_field, residue,
    signed_lift_to_fr, signed_of, vals,
};
use crate::mle::{
    build_eq_table, copied, eq_table, eval_multilinear_full, lemma_pow2_machine, mle, pow2_usize,
    same_elements,
};
use crate::mle_laws::lemma_eq_weight_in_field;
use crate::params::{SnarkParams, tables_fit};
use crate::pcs::{
    BatchOpenSpec, BatchVerifySpec, CommittedAux, MlPcs, abs_com, absorb_commitment, aux_of,
    batch_coms, batch_values, lemma_pow2_injective,
};
use crate::poly::{
    lemma_on_add, lemma_on_const, lemma_on_lin, lemma_on_mul, lemma_on_sub, lemma_poly_mul, lin,
    poly, poly_add, poly_mul, poly_sub,
};
use crate::pos_range::{
    PosRangeLogUp, lemma_range_column, prove_pos_range, range_state, range_verdict,
    verify_pos_range,
};
use crate::relu_lookup_1d::{
    ReluLookup1dProof, lemma_relu_scan_none, prove_relu_lookup_1d, relu1d_state, relu1d_verdict,
    relu_cell_error, relu_scan, verify_relu_lookup_1d,
};
use crate::ring::{
    lemma_fmul_one, lemma_residue_add, lemma_residue_id, lemma_residue_mul, lemma_residue_sub,
};
use crate::sumcheck::{
    CellIdentity, RoundPoly3, cell_at, cell_line, lemma_rounds_check, lemma_total_zero,
    samples_of, total, vals2,
};
use crate::transcript::{abs_u64, absorb_u64, after_squeeze, squeeze, squeezed, state_of};
use crate::zero_check::{
    OpenedRun, item_coms, item_tables, prove_opened, values_at, verify_zero, zero_state,
    zero_verdict,
};
use ark_crypto_primitives::sponge::merlin::Transcript;
use vstd::arithmetic::div_mod::{lemma_div_is_ordered_by_denominator, lemma_div_pos_is_pos, lemma_fundamental_div_mod, lemma_mod_bound};
use vstd::arithmetic::power2::pow2;
use vstd::prelude::*;

verus! {

/// One endpoint side of the proof.
pub struct ReluUpperEndpointHalf<P: MlPcs> {
    pub n_vars: usize,
    /// Committed `relu[j] = max(preact[j], 0)`.
    pub relu_commit: P::Commitment,
    pub slack_commit: P::Commitment,
    pub epsilon_commit: P::Commitment,
    pub relu_lookup: ReluLookup1dProof<P>,
    pub slack_range: PosRangeLogUp<P>,
    pub epsilon_range: PosRangeLogUp<P>,
    pub r_test: Vec<Fr>,
    pub rounds: Vec<RoundPoly3>,
    pub r_final: Vec<Fr>,
    /// Joint opening of `(d, b, slack, epsilon, preact, relu)` at `r_final`.
    pub r_batched_open: P::Proof,
    pub d_upper_eval: Fr,
    pub b_upper_eval: Fr,
    pub slack_eval: Fr,
    pub epsilon_eval: Fr,
    pub preact_eval: Fr,
    pub relu_eval: Fr,
}

/// The proof of a layer: the lower preactivation side and the upper one.
pub struct ReluUpperEndpointProof<P: MlPcs> {
    pub layer_idx: usize,
    pub n_vars: usize,
    pub lo: ReluUpperEndpointHalf<P>,
    pub hi: ReluUpperEndpointHalf<P>,
}

// ---- The integer identity ----

/// The numerator of the slack, at scale `s_d s_w`.
pub open spec fn slack_numerator(
    d: int,
    b: int,
    preact: int,
    relu: int,
    s_d: int,
    s_w: int,
    s_b: int,
) -> int {
    d * preact + b * (s_w / s_b) * s_d - relu * s_d
}

/// The slack and its remainder, or the reason why there are none.
pub open spec fn slack_result(
    d: int,
    b: int,
    preact: int,
    relu: int,
    s_d: int,
    s_w: int,
    s_b: int,
) -> Result<(int, int), SnarkError> {
    let num = slack_numerator(d, b, preact, relu, s_d, s_w, s_b);
    if s_w % s_b != 0 {
        Err(
            SnarkError::RelaxationSoundnessFinalCheckFailed {
                which: "relu_upper_endpoint: s_b ∤ s_w (precondition q_b > q_w)",
            },
        )
    } else if !fits(d * preact) {
        Err(SnarkError::ShapeMismatch { what: "relu_upper_endpoint: d*preact i128 overflow" })
    } else if !fits(b * (s_w / s_b)) || !fits(b * (s_w / s_b) * s_d) {
        Err(
            SnarkError::ShapeMismatch {
                what: "relu_upper_endpoint: b*(s_w/s_b)*s_d i128 overflow",
            },
        )
    } else if !fits(relu * s_d) {
        Err(SnarkError::ShapeMismatch { what: "relu_upper_endpoint: relu*s_d i128 overflow" })
    } else if !fits(d * preact + b * (s_w / s_b) * s_d) {
        Err(SnarkError::ShapeMismatch { what: "relu_upper_endpoint: numerator add overflow" })
    } else if !fits(num) {
        Err(SnarkError::ShapeMismatch { what: "relu_upper_endpoint: numerator sub overflow" })
    } else if num < 0 {
        Err(
            SnarkError::RelaxationSoundnessReluUpperEndpointInvalid {
                layer_idx: 0,
                endpoint: "numerator < 0 ⇒ committed line < ReLU at this neuron's endpoint",
            },
        )
    } else {
        Ok((num / s_d, num % s_d))
    }
}

/// The quotient of two codes, where the division leaves nothing.
fn exact_quotient(x: i128, y: i128) -> (r: Option<i128>)
    requires
        y != 0,
        x != i128::MIN || y != -1,
    ensures
        r == if x as int % y as int == 0 {
            Some((x as int / y as int) as i128)
        } else {
            None
        },
        x as int % y as int == 0 ==> fits(x as int / y as int),
{
    proof {
        lemma_quotient_fits(x as int, y as int);
    }
    match x.checked_rem_euclid(y) {
        Some(rem) => if rem == 0 {
            x.checked_div_euclid(y)
        } else {
            None
        },
        None => None,
    }
}

/// A quotient and a remainder are no larger than what they are made of, but
/// for the one quotient that is left out.
proof fn lemma_quotient_fits(x: int, y: int)
    requires
        y != 0,
        fits(x),
        fits(y),
        x != i128::MIN || y != -1,
    ensures
        fits(x / y),
        fits(x % y),
{
    let (q, r) = (x / y, x % y);
    vstd::arithmetic::div_mod::lemma_fundamental_div_mod(x, y);
    assert(0 <= r && (r < y || r < -y)) by (nonlinear_arith)
        requires
            y != 0,
            r == x % y,
    ;
    assert(x == y * q + r);
    if y == 1 || y == -1 {
        assert(r == 0);
        assert(y * q == x);
    } else {
        assert(-i128::MAX <= q <= i128::MAX) by (nonlinear_arith)
            requires
                x == y * q + r,
                0 <= r,
                r < y || r < -y,
                y >= 2 || y <= -2,
                i128::MIN <= x <= i128::MAX,
        ;
    }
}

/// Compute the slack and its remainder at scale `s_w`.
pub fn compute_slack_and_epsilon(
    d_int: i128,
    b_int: i128,
    preact_int: i128,
    relu_int: i128,
    s_d_code: i128,
    s_w_code: i128,
    s_b_code: i128,
) -> (r: Result<(i128, i128), SnarkError>)
    requires
        s_d_code > 0,
        s_b_code != 0,
        s_w_code != i128::MIN || s_b_code != -1,
    ensures
        match slack_result(
            d_int as int,
            b_int as int,
            preact_int as int,
            relu_int as int,
            s_d_code as int,
            s_w_code as int,
            s_b_code as int,
        ) {
            Ok((slack, epsilon)) => {
                &&& r matches Ok((s, e))
                &&& s == slack
                &&& e == epsilon
                &&& s >= 0
                &&& 0 <= e < s_d_code
                &&& s * s_d_code + e == slack_numerator(
                    d_int as int,
                    b_int as int,
                    preact_int as int,
                    relu_int as int,
                    s_d_code as int,
                    s_w_code as int,
                    s_b_code as int,
                )
            },
            Err(e) => r == Err::<(i128, i128), SnarkError>(e),
        },
{
    let s_w_over_s_b: i128 = match exact_quotient(s_w_code, s_b_code) {
        Some(q) => q,
        None => {
            return Err(
                SnarkError::RelaxationSoundnessFinalCheckFailed {
                    which: "relu_upper_endpoint: s_b ∤ s_w (precondition q_b > q_w)",
                },
            );
        },
    };
    let prod_d_preact: i128 = match d_int.checked_mul(preact_int) {
        Some(v) => v,
        None => {
            return Err(
                SnarkError::ShapeMismatch { what: "relu_upper_endpoint: d*preact i128 overflow" },
            );
        },
    };
    let term_b: i128 = match b_int.checked_mul(s_w_over_s_b) {
        Some(v) => v,
        None => {
            return Err(
                SnarkError::ShapeMismatch {
                    what: "relu_upper_endpoint: b*(s_w/s_b)*s_d i128 overflow",
                },
            );
        },
    };
    let term_b_scaled: i128 = match term_b.checked_mul(s_d_code) {
        Some(v) => v,
        None => {
            return Err(
                SnarkError::ShapeMismatch {
                    what: "relu_upper_endpoint: b*(s_w/s_b)*s_d i128 overflow",
                },
            );
        },
    };
    let term_relu_scaled: i128 = match relu_int.checked_mul(s_d_code) {
        Some(v) => v,
        None => {
            return Err(
                SnarkError::ShapeMismatch { what: "relu_upper_endpoint: relu*s_d i128 overflow" },
            );
        },
    };
    let sum: i128 = match prod_d_preact.checked_add(term_b_scaled) {
        Some(v) => v,
        None => {
            return Err(
                SnarkError::ShapeMismatch { what: "relu_upper_endpoint: numerator add overflow" },
            );
        },
    };
    let numerator: i128 = match sum.checked_sub(term_relu_scaled) {
        Some(v) => v,
        None => {
            return Err(
                SnarkError::ShapeMismatch { what: "relu_upper_endpoint: numerator sub overflow" },
            );
        },
    };
    if numerator < 0 {
        return Err(
            SnarkError::RelaxationSoundnessReluUpperEndpointInvalid {
                layer_idx: 0,
                endpoint: "numerator < 0 ⇒ committed line < ReLU at this neuron's endpoint",
            },
        );
    }
    let slack: i128 = numerator / s_d_code;
    proof {
        vstd::arithmetic::div_mod::lemma_fundamental_div_mod(numerator as int, s_d_code as int);
        vstd::arithmetic::div_mod::lemma_div_pos_is_pos(numerator as int, s_d_code as int);
        assert(slack * s_d_code == s_d_code * slack) by (nonlinear_arith);
    }
    let epsilon: i128 = numerator % s_d_code;
    Ok((slack, epsilon))
}

/// A cell's slack, remainder and ReLU.
pub ghost struct HalfCell {
    pub slack: int,
    pub epsilon: int,
    pub relu: int,
}

/// The integers of cell `i`, or the reason why there are none.
pub open spec fn half_cell(
    preact: int,
    d: int,
    b: int,
    s_d: int,
    s_w: int,
    s_b: int,
    i: nat,
) -> Result<HalfCell, SnarkError> {
    match signed_of(preact) {
        None => Err(
            SnarkError::FieldDecodeOutOfRange { which: "relu_upper_endpoint: preact lift" },
        ),
        Some(p) => match signed_of(d) {
            None => Err(
                SnarkError::FieldDecodeOutOfRange { which: "relu_upper_endpoint: d_upper lift" },
            ),
            Some(dd) => match signed_of(b) {
                None => Err(
                    SnarkError::FieldDecodeOutOfRange { which: "relu_upper_endpoint: b_upper lift" },
                ),
                Some(bb) => {
                    let relu = if p > 0 {
                        p as int
                    } else {
                        0
                    };
                    match slack_result(dd as int, bb as int, p as int, relu, s_d, s_w, s_b) {
                        Ok((slack, epsilon)) => Ok(HalfCell { slack, epsilon, relu }),
                        Err(
                            SnarkError::RelaxationSoundnessReluUpperEndpointInvalid {
                                layer_idx,
                                endpoint,
                            },
                        ) => Err(
                            SnarkError::RelaxationSoundnessReluUpperEndpointInvalid {
                                layer_idx: i as usize,
                                endpoint,
                            },
                        ),
                        Err(e) => Err(e),
                    }
                },
            },
        },
    }
}

/// The first error among the cells from `i` on.
pub open spec fn half_scan(
    preact: Seq<int>,
    d: Seq<int>,
    b: Seq<int>,
    s_d: int,
    s_w: int,
    s_b: int,
    i: nat,
) -> Option<SnarkError>
    decreases preact.len() - i,
{
    if i >= preact.len() {
        None
    } else {
        match half_cell(preact[i as int], d[i as int], b[i as int], s_d, s_w, s_b, i) {
            Err(e) => Some(e),
            Ok(_) => half_scan(preact, d, b, s_d, s_w, s_b, i + 1),
        }
    }
}

/// The cells of a side.
pub open spec fn half_cells(
    preact: Seq<int>,
    d: Seq<int>,
    b: Seq<int>,
    s_d: int,
    s_w: int,
    s_b: int,
) -> Seq<HalfCell> {
    Seq::new(
        preact.len(),
        |i: int| half_cell(preact[i], d[i], b[i], s_d, s_w, s_b, i as nat)->Ok_0,
    )
}

/// The slack codes of cells.
pub open spec fn slack_codes(cells: Seq<HalfCell>) -> Seq<i128> {
    Seq::new(cells.len(), |i: int| cells[i].slack as i128)
}

/// The remainder codes of cells.
pub open spec fn epsilon_codes(cells: Seq<HalfCell>) -> Seq<i128> {
    Seq::new(cells.len(), |i: int| cells[i].epsilon as i128)
}

/// The ReLU codes of cells.
pub open spec fn relu_codes(cells: Seq<HalfCell>) -> Seq<i128> {
    Seq::new(cells.len(), |i: int| cells[i].relu as i128)
}

// ---- The sumcheck's summand ----

/// `eq (slack s_d + epsilon - d preact - b c + relu s_d)`.
pub open spec fn upper_line_cell(
    eq: int,
    d: int,
    b: int,
    slack: int,
    epsilon: int,
    preact: int,
    relu: int,
    s_d: int,
    c: int,
) -> int {
    fmul(
        eq,
        fadd(
            fsub(fsub(fadd(fmul(slack, s_d), epsilon), fmul(d, preact)), fmul(b, c)),
            fmul(relu, s_d),
        ),
    )
}

/// The summand, over the columns `eq, d, b, slack, epsilon, preact, relu`.
pub struct UpperLine {
    pub s_d: Fr,
    pub c_b_sd: Fr,
}

impl UpperLine {
    fn value(&self, eq: Fr, d: Fr, b: Fr, slack: Fr, epsilon: Fr, preact: Fr, relu: Fr) -> (r: Fr)
        ensures
            r@ == upper_line_cell(
                eq@,
                d@,
                b@,
                slack@,
                epsilon@,
                preact@,
                relu@,
                self.s_d@,
                self.c_b_sd@,
            ),
    {
        eq.mul(
            slack.mul(self.s_d).add(epsilon).sub(d.mul(preact)).sub(b.mul(self.c_b_sd)).add(
                relu.mul(self.s_d),
            ),
        )
    }
}

impl CellIdentity for UpperLine {
    open spec fn arity(&self) -> nat {
        7
    }

    open spec fn degree(&self) -> nat {
        3
    }

    open spec fn at(&self, cell: Seq<int>) -> int {
        upper_line_cell(
            cell[0],
            cell[1],
            cell[2],
            cell[3],
            cell[4],
            cell[5],
            cell[6],
            self.s_d@,
            self.c_b_sd@,
        )
    }

    proof fn lemma_line(&self, lo: Seq<int>, hi: Seq<int>) -> (c: Seq<int>) {
        let l0 = lin(lo[0], hi[0]);
        let l1 = lin(lo[1], hi[1]);
        let l2 = lin(lo[2], hi[2]);
        let l3 = lin(lo[3], hi[3]);
        let l4 = lin(lo[4], hi[4]);
        let l5 = lin(lo[5], hi[5]);
        let l6 = lin(lo[6], hi[6]);
        let k = seq![self.s_d@];
        let m = seq![self.c_b_sd@];
        lemma_view_in_field(self.s_d);
        lemma_view_in_field(self.c_b_sd);
        let a1 = poly_mul(l3, k);
        let a2 = poly_add(a1, l4);
        let a3 = poly_mul(l1, l5);
        let a4 = poly_sub(a2, a3);
        let a5 = poly_mul(l2, m);
        let a6 = poly_sub(a4, a5);
        let a7 = poly_mul(l6, k);
        let a8 = poly_add(a6, a7);
        let c = poly_mul(l0, a8);
        lemma_poly_mul(l3, k, 0);
        lemma_poly_mul(l1, l5, 0);
        lemma_poly_mul(l2, m, 0);
        lemma_poly_mul(l6, k, 0);
        lemma_poly_mul(l0, a8, 0);
        assert forall|t: int| in_field(t) implies self.at(#[trigger] cell_line(lo, hi, t))
            == residue(poly(c, t)) by {
            let x = cell_line(lo, hi, t);
            lemma_on_lin(lo[0], hi[0], t);
            lemma_on_lin(lo[1], hi[1], t);
            lemma_on_lin(lo[2], hi[2], t);
            lemma_on_lin(lo[3], hi[3], t);
            lemma_on_lin(lo[4], hi[4], t);
            lemma_on_lin(lo[5], hi[5], t);
            lemma_on_lin(lo[6], hi[6], t);
            let (s_d, cc) = (self.s_d@, self.c_b_sd@);
            lemma_on_const(s_d, t);
            lemma_on_const(cc, t);
            let v1 = fmul(x[3], s_d);
            let v2 = fadd(v1, x[4]);
            let v3 = fmul(x[1], x[5]);
            let v4 = fsub(v2, v3);
            let v5 = fmul(x[2], cc);
            let v6 = fsub(v4, v5);
            let v7 = fmul(x[6], s_d);
            lemma_on_mul(x[3], l3, s_d, k, t);
            lemma_on_add(v1, a1, x[4], l4, t);
            lemma_on_mul(x[1], l1, x[5], l5, t);
            lemma_on_sub(v2, a2, v3, a3, t);
            lemma_on_mul(x[2], l2, cc, m, t);
            lemma_on_sub(v4, a4, v5, a5, t);
            lemma_on_mul(x[6], l6, s_d, k, t);
            lemma_on_add(v6, a6, v7, a7, t);
            lemma_on_mul(x[0], l0, fadd(v6, v7), a8, t);
        }
        c
    }

    fn eval(&self, cell: &Vec<Fr>) -> (r: Fr) {
        self.value(cell[0], cell[1], cell[2], cell[3], cell[4], cell[5], cell[6])
    }
}

/// An honest cell meets the identity.
proof fn lemma_upper_cell(
    eq: int,
    d: int,
    b: int,
    preact: int,
    slack: int,
    epsilon: int,
    relu: int,
    s_d: int,
    q: int,
)
    requires
        in_field(eq),
        slack * s_d + epsilon == d * preact + b * q * s_d - relu * s_d,
    ensures
        upper_line_cell(
            eq,
            residue(d),
            residue(b),
            residue(slack),
            residue(epsilon),
            residue(preact),
            residue(relu),
            residue(s_d),
            residue(q * s_d),
        ) == 0,
{
    lemma_residue_mul(slack, s_d);
    lemma_residue_add(slack * s_d, epsilon);
    lemma_residue_mul(d, preact);
    let x1 = slack * s_d + epsilon;
    lemma_residue_sub(x1, d * preact);
    lemma_residue_mul(b, q * s_d);
    let x2 = x1 - d * preact;
    lemma_residue_sub(x2, b * (q * s_d));
    lemma_residue_mul(relu, s_d);
    let x3 = x2 - b * (q * s_d);
    lemma_residue_add(x3, relu * s_d);
    assert(b * (q * s_d) == b * q * s_d) by (nonlinear_arith);
    assert(x3 + relu * s_d == 0);
    lemma_residue_id(0);
    lemma_fmul_one(eq);
}

// ---- The transcript of a side ----

/// The state before the ReLU lookup.
pub open spec fn half_t1<P: MlPcs>(
    half: ReluUpperEndpointHalf<P>,
    preact: P::Commitment,
    d: P::Commitment,
    b: P::Commitment,
    t0: Seq<u8>,
) -> Seq<u8> {
    abs_com::<P>(
        abs_com::<P>(
            abs_com::<P>(abs_com::<P>(abs_u64(t0, half.n_vars as u64), d), b),
            preact,
        ),
        half.relu_commit,
    )
}

/// The state before the first range check.
pub open spec fn half_t2<P: MlPcs>(
    vk: P::VerifierKey,
    half: ReluUpperEndpointHalf<P>,
    preact: P::Commitment,
    d: P::Commitment,
    b: P::Commitment,
    t0: Seq<u8>,
) -> Seq<u8> {
    abs_com::<P>(
        abs_com::<P>(
            relu1d_state(
                vk,
                half.relu_lookup,
                preact,
                half.relu_commit,
                half.n_vars as nat,
                half_t1(half, preact, d, b, t0),
            ),
            half.slack_commit,
        ),
        half.epsilon_commit,
    )
}

/// The state before the second range check.
pub open spec fn half_t3<P: MlPcs>(
    vk: P::VerifierKey,
    half: ReluUpperEndpointHalf<P>,
    preact: P::Commitment,
    d: P::Commitment,
    b: P::Commitment,
    t0: Seq<u8>,
) -> Seq<u8> {
    range_state(
        vk,
        half.slack_commit,
        half.n_vars as nat,
        half.slack_range,
        half_t2(vk, half, preact, d, b, t0),
    )
}

/// The state before the test point.
pub open spec fn half_t4<P: MlPcs>(
    vk: P::VerifierKey,
    half: ReluUpperEndpointHalf<P>,
    preact: P::Commitment,
    d: P::Commitment,
    b: P::Commitment,
    t0: Seq<u8>,
) -> Seq<u8> {
    range_state(
        vk,
        half.epsilon_commit,
        half.n_vars as nat,
        half.epsilon_range,
        half_t3(vk, half, preact, d, b, t0),
    )
}

/// The state before the rounds.
pub open spec fn half_t5<P: MlPcs>(
    vk: P::VerifierKey,
    half: ReluUpperEndpointHalf<P>,
    preact: P::Commitment,
    d: P::Commitment,
    b: P::Commitment,
    t0: Seq<u8>,
) -> Seq<u8> {
    after_squeeze(half_t4(vk, half, preact, d, b, t0), half.n_vars as int)
}

/// The commitments of the joint opening.
pub open spec fn half_coms<P: MlPcs>(
    half: ReluUpperEndpointHalf<P>,
    preact: P::Commitment,
    d: P::Commitment,
    b: P::Commitment,
) -> Seq<P::Commitment> {
    seq![d, b, half.slack_commit, half.epsilon_commit, preact, half.relu_commit]
}

/// The values of the joint opening.
pub open spec fn half_values<P: MlPcs>(half: ReluUpperEndpointHalf<P>) -> Seq<int> {
    seq![
        half.d_upper_eval@,
        half.b_upper_eval@,
        half.slack_eval@,
        half.epsilon_eval@,
        half.preact_eval@,
        half.relu_eval@,
    ]
}

/// The state after a side.
pub open spec fn half_state<P: MlPcs>(
    vk: P::VerifierKey,
    half: ReluUpperEndpointHalf<P>,
    preact: P::Commitment,
    d: P::Commitment,
    b: P::Commitment,
    t0: Seq<u8>,
) -> Seq<u8> {
    zero_state::<P>(
        vk,
        samples_of(half.rounds@),
        vals(half.r_final@),
        half_coms(half, preact, d, b),
        half_values(half),
        half.r_batched_open,
        half.n_vars as nat,
        half_t5(vk, half, preact, d, b, t0),
    )
}

/// The verdict on a side.
pub open spec fn half_verdict<P: MlPcs>(
    params: SnarkParams<P>,
    half: ReluUpperEndpointHalf<P>,
    n_vars: usize,
    preact: P::Commitment,
    d: P::Commitment,
    b: P::Commitment,
    s_d: int,
    c_b_sd: int,
    t0: Seq<u8>,
) -> Result<(), SnarkError> {
    let vk = params.verifier_key;
    let n = n_vars as nat;
    let bits = params.gadget_range_bits as nat;
    and_also(
        holds(
            half.n_vars == n_vars,
            SnarkError::ArchitectureMismatch { what: "relu_upper_endpoint: half.n_vars mismatch" },
        ),
        and_also(
            relu1d_verdict(
                vk,
                half.relu_lookup,
                preact,
                half.relu_commit,
                n,
                params.preprocessed.spec_half_bits(),
                half_t1(half, preact, d, b, t0),
            ),
            and_also(
                holds(
                    params.preprocessed.has_pos_table(bits),
                    SnarkError::Reserved { what: "preprocessed: no range table of this width" },
                ),
                and_also(
                    range_verdict(
                        vk,
                        half.slack_commit,
                        n,
                        bits,
                        half.slack_range,
                        half_t2(vk, half, preact, d, b, t0),
                    ),
                    and_also(
                        range_verdict(
                            vk,
                            half.epsilon_commit,
                            n,
                            bits,
                            half.epsilon_range,
                            half_t3(vk, half, preact, d, b, t0),
                        ),
                        and_also(
                            holds(
                                squeezed(half_t4(vk, half, preact, d, b, t0), n_vars as int)
                                    == vals(half.r_test@),
                                SnarkError::TranscriptMismatch,
                            ),
                            and_also(
                                holds(
                                    half.rounds@.len() == n && half.r_final@.len() == n,
                                    SnarkError::ShapeMismatch {
                                        what: "relu_upper_endpoint: sumcheck rounds length",
                                    },
                                ),
                                zero_verdict::<P>(
                                    vk,
                                    samples_of(half.rounds@),
                                    vals(half.r_final@),
                                    half_coms(half, preact, d, b),
                                    half_values(half),
                                    half.r_batched_open,
                                    upper_line_cell(
                                        mle(eq_table(vals(half.r_test@)), vals(half.r_final@)),
                                        half.d_upper_eval@,
                                        half.b_upper_eval@,
                                        half.slack_eval@,
                                        half.epsilon_eval@,
                                        half.preact_eval@,
                                        half.relu_eval@,
                                        s_d,
                                        c_b_sd,
                                    ),
                                    n,
                                    "relu_upper_endpoint::batched_open",
                                    "relu_upper_endpoint::final_identity",
                                    half_t5(vk, half, preact, d, b, t0),
                                ),
                            ),
                        ),
                    ),
                ),
            ),
        ),
    )
}

/// Verify a side.
fn verify_half<P: MlPcs>(
    half: &ReluUpperEndpointHalf<P>,
    expected_n_vars: usize,
    preact_commit: &P::Commitment,
    d_commit: &P::Commitment,
    b_commit: &P::Commitment,
    s_d: Fr,
    c_b_sd: Fr,
    params: &SnarkParams<P>,
    sponge: &mut Transcript,
) -> (r: Result<(), SnarkError>)
    requires
        pow2(expected_n_vars as nat) <= usize::MAX,
    ensures
        r == half_verdict(
            *params,
            *half,
            expected_n_vars,
            *preact_commit,
            *d_commit,
            *b_commit,
            s_d@,
            c_b_sd@,
            state_of(*old(sponge)),
        ),
        r is Ok ==> state_of(*final(sponge)) == half_state(
            params.verifier_key,
            *half,
            *preact_commit,
            *d_commit,
            *b_commit,
            state_of(*old(sponge)),
        ),
{
    if half.n_vars != expected_n_vars {
        return Err(
            SnarkError::ArchitectureMismatch { what: "relu_upper_endpoint: half.n_vars mismatch" },
        );
    }
    proof {
        lemma_pow2_machine(expected_n_vars as nat);
    }
    absorb_u64(sponge, half.n_vars as u64);
    absorb_commitment::<P>(sponge, d_commit);
    absorb_commitment::<P>(sponge, b_commit);
    absorb_commitment::<P>(sponge, preact_commit);
    absorb_commitment::<P>(sponge, &half.relu_commit);
    match verify_relu_lookup_1d(
        &half.relu_lookup,
        preact_commit,
        &half.relu_commit,
        expected_n_vars,
        params,
        sponge,
    ) {
        Ok(_) => {},
        Err(e) => {
            return Err(e);
        },
    }
    absorb_commitment::<P>(sponge, &half.slack_commit);
    absorb_commitment::<P>(sponge, &half.epsilon_commit);
    match verify_pos_range(&half.slack_range, expected_n_vars, &half.slack_commit, params, sponge) {
        Ok(_) => {},
        Err(e) => {
            return Err(e);
        },
    }
    match verify_pos_range(
        &half.epsilon_range,
        expected_n_vars,
        &half.epsilon_commit,
        params,
        sponge,
    ) {
        Ok(_) => {},
        Err(e) => {
            return Err(e);
        },
    }
    let r_test: Vec<Fr> = squeeze(sponge, half.n_vars);
    if !same_elements(r_test.as_slice(), half.r_test.as_slice()) {
        return Err(SnarkError::TranscriptMismatch);
    }
    assert(vals(half.r_test@).len() == vals(r_test@).len());
    if half.rounds.len() != half.n_vars || half.r_final.len() != half.n_vars {
        return Err(
            SnarkError::ShapeMismatch { what: "relu_upper_endpoint: sumcheck rounds length" },
        );
    }
    let n: usize = half.n_vars;
    let mut items: Vec<BatchVerifySpec<'_, P>> = Vec::with_capacity(6);
    items.push(
        BatchVerifySpec { commitment: d_commit, value: half.d_upper_eval, commit_n_vars: n },
    );
    items.push(
        BatchVerifySpec { commitment: b_commit, value: half.b_upper_eval, commit_n_vars: n },
    );
    items.push(
        BatchVerifySpec {
            commitment: &half.slack_commit,
            value: half.slack_eval,
            commit_n_vars: n,
        },
    );
    items.push(
        BatchVerifySpec {
            commitment: &half.epsilon_commit,
            value: half.epsilon_eval,
            commit_n_vars: n,
        },
    );
    items.push(
        BatchVerifySpec { commitment: preact_commit, value: half.preact_eval, commit_n_vars: n },
    );
    items.push(
        BatchVerifySpec { commitment: &half.relu_commit, value: half.relu_eval, commit_n_vars: n },
    );
    proof {
        assert(batch_coms(items@) =~= half_coms(*half, *preact_commit, *d_commit, *b_commit));
        assert(batch_values(items@) =~= half_values(*half));
    }
    let eq: Vec<Fr> = build_eq_table(half.r_test.as_slice());
    assert(vals(eq@).len() == eq@.len());
    let eq_eval: Fr = eval_multilinear_full(eq.as_slice(), half.r_final.as_slice());
    let ident: UpperLine = UpperLine { s_d, c_b_sd };
    let lhs: Fr = ident.value(
        eq_eval,
        half.d_upper_eval,
        half.b_upper_eval,
        half.slack_eval,
        half.epsilon_eval,
        half.preact_eval,
        half.relu_eval,
    );
    verify_zero::<P, RoundPoly3>(
        &params.verifier_key,
        &half.rounds,
        &half.r_final,
        &items,
        &half.r_batched_open,
        lhs,
        n,
        "relu_upper_endpoint::batched_open",
        "relu_upper_endpoint::final_identity",
        sponge,
    )
}

/// Whether a side's tables are the committed ones, and the ReLU table has more
/// than two entries.
pub open spec fn half_committed<P: MlPcs>(
    params: SnarkParams<P>,
    preact_aux: CommittedAux<P>,
    preact: P::Commitment,
    d_aux: CommittedAux<P>,
    d: P::Commitment,
    b_aux: CommittedAux<P>,
    b: P::Commitment,
) -> bool {
    &&& params.preprocessed.spec_half_bits() >= 1
    &&& aux_of(params.committer_key, preact, preact_aux)
    &&& aux_of(params.committer_key, d, d_aux)
    &&& aux_of(params.committer_key, b, b_aux)
}

/// Whether the prover of a side is owed success: the tables are the committed
/// ones, every cell has a slack, the preactivations are in the ReLU table's
/// domain, the slacks and remainders are in the range table's, and everything
/// can be committed.
pub open spec fn half_provable<P: MlPcs>(
    params: SnarkParams<P>,
    n_vars: nat,
    preact_aux: CommittedAux<P>,
    preact: P::Commitment,
    d_aux: CommittedAux<P>,
    d: P::Commitment,
    b_aux: CommittedAux<P>,
    b: P::Commitment,
    s_d: int,
    s_w: int,
    s_b: int,
) -> bool {
    let pv = vals(preact_aux.table@);
    let dv = vals(d_aux.table@);
    let bv = vals(b_aux.table@);
    let cells = half_cells(pv, dv, bv, s_d, s_w, s_b);
    let bits = params.gadget_range_bits as nat;
    let hb = params.preprocessed.spec_half_bits();
    &&& n_vars >= 1
    &&& hb >= 1
    &&& pv.len() == pow2(n_vars)
    &&& dv.len() == pow2(n_vars)
    &&& bv.len() == pow2(n_vars)
    &&& aux_of(params.committer_key, preact, preact_aux)
    &&& aux_of(params.committer_key, d, d_aux)
    &&& aux_of(params.committer_key, b, b_aux)
    &&& half_scan(pv, dv, bv, s_d, s_w, s_b, 0) is None
    &&& forall|i: int|
        0 <= i < pv.len() ==> -pow2(hb) <= signed_of(#[trigger] pv[i])->Some_0 < pow2(hb)
    &&& all_below(slack_codes(cells), pow2(bits) as int)
    &&& all_below(epsilon_codes(cells), pow2(bits) as int)
    &&& params.preprocessed.has_pos_table(bits)
    &&& P::can_commit(params.committer_key, pow2(n_vars))
    &&& P::can_commit(params.committer_key, pow2(even_vars(bits)))
    &&& P::can_commit(params.committer_key, pow2(even_vars(hb + 1)))
}

/// What a side's proof holds: commitments to the cells' slacks, remainders and
/// ReLUs, the first two in range.
pub open spec fn half_made<P: MlPcs>(
    params: SnarkParams<P>,
    half: ReluUpperEndpointHalf<P>,
    n_vars: usize,
    preact: Seq<int>,
    d: Seq<int>,
    b: Seq<int>,
    s_d: int,
    s_w: int,
    s_b: int,
) -> bool {
    let cells = half_cells(preact, d, b, s_d, s_w, s_b);
    let bits = params.gadget_range_bits as nat;
    let ck = params.committer_key;
    &&& half.n_vars == n_vars
    &&& half_scan(preact, d, b, s_d, s_w, s_b, 0) is None
    &&& all_below(slack_codes(cells), pow2(bits) as int)
    &&& all_below(epsilon_codes(cells), pow2(bits) as int)
    &&& exists|st: P::State|
        P::committed(ck, half.slack_commit, st, lifted_codes(slack_codes(cells)))
    &&& exists|st: P::State|
        P::committed(ck, half.epsilon_commit, st, lifted_codes(epsilon_codes(cells)))
    &&& exists|st: P::State|
        P::committed(ck, half.relu_commit, st, lifted_codes(relu_codes(cells)))
}

/// No error among the cells means that each cell has its integers.
proof fn lemma_half_scan_none(
    preact: Seq<int>,
    d: Seq<int>,
    b: Seq<int>,
    s_d: int,
    s_w: int,
    s_b: int,
    i: nat,
)
    requires
        half_scan(preact, d, b, s_d, s_w, s_b, i) is None,
    ensures
        forall|k: int|
            i <= k < preact.len() ==> half_cell(
                #[trigger] preact[k],
                d[k],
                b[k],
                s_d,
                s_w,
                s_b,
                k as nat,
            ) is Ok,
    decreases preact.len() - i,
{
    if i < preact.len() {
        lemma_half_scan_none(preact, d, b, s_d, s_w, s_b, i + 1);
        assert forall|k: int| i <= k < preact.len() implies half_cell(
            #[trigger] preact[k],
            d[k],
            b[k],
            s_d,
            s_w,
            s_b,
            k as nat,
        ) is Ok by {
            if k > i {
                assert(i + 1 <= k);
            }
        }
    }
}

/// Cells whose preactivations are in the domain pass the ReLU lookup's scan.
proof fn lemma_relu_scan_ok(preact: Seq<int>, codes: Seq<i128>, half: int, i: nat)
    requires
        codes.len() == preact.len(),
        i <= preact.len(),
        forall|k: int|
            0 <= k < preact.len() ==> {
                &&& signed_of(#[trigger] preact[k]) is Some
                &&& -half <= signed_of(preact[k])->Some_0 < half
                &&& codes[k] == if signed_of(preact[k])->Some_0 > 0 {
                    signed_of(preact[k])->Some_0
                } else {
                    0
                }
            },
    ensures
        relu_scan(preact, lifted_codes(codes), half, i) is None,
    decreases preact.len() - i,
{
    if i < preact.len() {
        let k = i as int;
        assert(signed_of(preact[k]) is Some);
        lemma_signed_roundtrip(codes[k]);
        lemma_relu_scan_ok(preact, codes, half, i + 1);
    }
}

/// The integers of a side's cells, as columns.
pub struct HalfColumns {
    pub slack: Vec<i128>,
    pub epsilon: Vec<i128>,
    pub relu: Vec<i128>,
}

/// Compute the slack, remainder and ReLU of every cell of a side.
fn half_columns(
    preact: &Vec<Fr>,
    d: &Vec<Fr>,
    b: &Vec<Fr>,
    s_d_code: i128,
    s_w_code: i128,
    s_b_code: i128,
) -> (r: Result<HalfColumns, SnarkError>)
    requires
        d@.len() == preact@.len(),
        b@.len() == preact@.len(),
        s_d_code > 0,
        s_w_code > 0,
        s_b_code > 0,
    ensures
        ({
            let (pv, dv, bv) = (vals(preact@), vals(d@), vals(b@));
            let (sd, sw, sb) = (s_d_code as int, s_w_code as int, s_b_code as int);
            match half_scan(pv, dv, bv, sd, sw, sb, 0) {
                Some(e) => r == Err::<HalfColumns, SnarkError>(e),
                None => {
                    let cells = half_cells(pv, dv, bv, sd, sw, sb);
                    &&& r matches Ok(c)
                    &&& c.slack@ == slack_codes(cells)
                    &&& c.epsilon@ == epsilon_codes(cells)
                    &&& c.relu@ == relu_codes(cells)
                },
            }
        }),
{
    let ghost (pv, dv, bv) = (vals(preact@), vals(d@), vals(b@));
    let ghost (sd, sw, sb) = (s_d_code as int, s_w_code as int, s_b_code as int);
    let ghost cells = half_cells(pv, dv, bv, sd, sw, sb);
    let n: usize = preact.len();
    let mut slack: Vec<i128> = Vec::with_capacity(n);
    let mut epsilon: Vec<i128> = Vec::with_capacity(n);
    let mut relu: Vec<i128> = Vec::with_capacity(n);
    let mut i: usize = 0;
    while i < n
        invariant
            i <= n,
            n == preact@.len(),
            d@.len() == n,
            b@.len() == n,
            s_d_code > 0,
            s_w_code > 0,
            s_b_code > 0,
            pv == vals(preact@),
            dv == vals(d@),
            bv == vals(b@),
            sd == s_d_code,
            sw == s_w_code,
            sb == s_b_code,
            cells == half_cells(pv, dv, bv, sd, sw, sb),
            slack@.len() == i,
            epsilon@.len() == i,
            relu@.len() == i,
            forall|k: int| 0 <= k < i ==> #[trigger] slack@[k] == slack_codes(cells)[k],
            forall|k: int| 0 <= k < i ==> #[trigger] epsilon@[k] == epsilon_codes(cells)[k],
            forall|k: int| 0 <= k < i ==> #[trigger] relu@[k] == relu_codes(cells)[k],
            half_scan(pv, dv, bv, sd, sw, sb, 0) == half_scan(pv, dv, bv, sd, sw, sb, i as nat),
        decreases n - i,
    {
        assert(pv[i as int] == preact@[i as int]@ && dv[i as int] == d@[i as int]@ && bv[i as int]
            == b@[i as int]@);
        let p: i128 = match fr_to_signed_i128(preact[i]) {
            Some(x) => x,
            None => {
                return Err(
                    SnarkError::FieldDecodeOutOfRange { which: "relu_upper_endpoint: preact lift" },
                );
            },
        };
        let dd: i128 = match fr_to_signed_i128(d[i]) {
            Some(x) => x,
            None => {
                return Err(
                    SnarkError::FieldDecodeOutOfRange { which: "relu_upper_endpoint: d_upper lift" },
                );
            },
        };
        let bb: i128 = match fr_to_signed_i128(b[i]) {
            Some(x) => x,
            None => {
                return Err(
                    SnarkError::FieldDecodeOutOfRange { which: "relu_upper_endpoint: b_upper lift" },
                );
            },
        };
        let rl: i128 = if p > 0 {
            p
        } else {
            0
        };
        match compute_slack_and_epsilon(dd, bb, p, rl, s_d_code, s_w_code, s_b_code) {
            Ok((s, e)) => {
                slack.push(s);
                epsilon.push(e);
                relu.push(rl);
            },
            Err(
                SnarkError::RelaxationSoundnessReluUpperEndpointInvalid { layer_idx: _, endpoint },
            ) => {
                return Err(
                    SnarkError::RelaxationSoundnessReluUpperEndpointInvalid {
                        layer_idx: i,
                        endpoint,
                    },
                );
            },
            Err(e) => {
                return Err(e);
            },
        }
        i += 1;
    }
    assert(slack@ =~= slack_codes(cells));
    assert(epsilon@ =~= epsilon_codes(cells));
    assert(relu@ =~= relu_codes(cells));
    Ok(HalfColumns { slack, epsilon, relu })
}

/// The tables of a side's joint opening.
pub open spec fn half_table(
    d: Seq<int>,
    b: Seq<int>,
    slack: Seq<int>,
    epsilon: Seq<int>,
    preact: Seq<int>,
    relu: Seq<int>,
) -> Seq<Seq<int>> {
    seq![d, b, slack, epsilon, preact, relu]
}

/// Honest cells sum to zero.
proof fn lemma_half_total(
    ident: &UpperLine,
    eq: Seq<int>,
    d: Seq<int>,
    b: Seq<int>,
    preact: Seq<int>,
    s_d: int,
    s_w: int,
    s_b: int,
    n: nat,
)
    requires
        eq.len() == n,
        d.len() == n,
        b.len() == n,
        preact.len() == n,
        all_in_field(eq),
        all_in_field(d),
        all_in_field(b),
        all_in_field(preact),
        s_d > 0,
        s_w > 0,
        s_b > 0,
        half_scan(preact, d, b, s_d, s_w, s_b, 0) is None,
        ident.s_d@ == residue(s_d),
        ident.c_b_sd@ == residue((s_w / s_b) * s_d),
    ensures
        ({
            let cells = half_cells(preact, d, b, s_d, s_w, s_b);
            total(
                ident,
                seq![eq] + half_table(
                    d,
                    b,
                    lifted_codes(slack_codes(cells)),
                    lifted_codes(epsilon_codes(cells)),
                    preact,
                    lifted_codes(relu_codes(cells)),
                ),
                n,
            ) == 0
        }),
{
    let cells = half_cells(preact, d, b, s_d, s_w, s_b);
    let cols = seq![eq] + half_table(
        d,
        b,
        lifted_codes(slack_codes(cells)),
        lifted_codes(epsilon_codes(cells)),
        preact,
        lifted_codes(relu_codes(cells)),
    );
    lemma_half_scan_none(preact, d, b, s_d, s_w, s_b, 0);
    assert forall|i: int| 0 <= i < n implies ident.at(#[trigger] cell_at(cols, i)) == 0 by {
        assert(half_cell(preact[i], d[i], b[i], s_d, s_w, s_b, i as nat) is Ok);
        let c = cells[i];
        let p = signed_of(preact[i])->Some_0 as int;
        let dd = signed_of(d[i])->Some_0 as int;
        let bb = signed_of(b[i])->Some_0 as int;
        assert(in_field(eq[i]) && in_field(d[i]) && in_field(b[i]) && in_field(preact[i]));
        lemma_signed_of_residue(preact[i]);
        lemma_signed_of_residue(d[i]);
        lemma_signed_of_residue(b[i]);
        let num = slack_numerator(dd, bb, p, c.relu, s_d, s_w, s_b);
        lemma_fundamental_div_mod(num, s_d);
        lemma_mod_bound(num, s_d);
        lemma_div_pos_is_pos(num, s_d);
        lemma_div_is_ordered_by_denominator(num, 1, s_d);
        assert(num / 1 == num);
        assert(c.slack * s_d == s_d * c.slack) by (nonlinear_arith);
        lemma_upper_cell(eq[i], dd, bb, p, c.slack, c.epsilon, c.relu, s_d, s_w / s_b);
        let cell = cell_at(cols, i);
        assert(c.slack as i128 == c.slack);
        assert(c.epsilon as i128 == c.epsilon);
        assert(cell[0] == eq[i] && cell[1] == d[i] && cell[2] == b[i]);
        assert(cell[3] == residue(c.slack) && cell[4] == residue(c.epsilon));
        assert(cell[5] == preact[i] && cell[6] == residue(c.relu));
    }
    lemma_total_zero(ident, cols, n);
}

/// The committed columns of a side and their lookups.
struct HalfParts<P: MlPcs> {
    relu_commit: P::Commitment,
    relu_aux: CommittedAux<P>,
    slack_commit: P::Commitment,
    slack_aux: CommittedAux<P>,
    epsilon_commit: P::Commitment,
    epsilon_aux: CommittedAux<P>,
    relu_lookup: ReluLookup1dProof<P>,
    slack_range: PosRangeLogUp<P>,
    epsilon_range: PosRangeLogUp<P>,
}

/// Whether a verifier accepts the lookups of a side.
spec fn half_parts_ok<P: MlPcs>(
    params: SnarkParams<P>,
    parts: HalfParts<P>,
    preact: P::Commitment,
    n: nat,
    t1: Seq<u8>,
    t4: Seq<u8>,
) -> bool {
    let vk = params.verifier_key;
    let bits = params.gadget_range_bits as nat;
    let s1 = abs_com::<P>(t1, parts.relu_commit);
    let s2 = abs_com::<P>(
        abs_com::<P>(
            relu1d_state(vk, parts.relu_lookup, preact, parts.relu_commit, n, s1),
            parts.slack_commit,
        ),
        parts.epsilon_commit,
    );
    let s3 = range_state(vk, parts.slack_commit, n, parts.slack_range, s2);
    &&& relu1d_verdict(
        vk,
        parts.relu_lookup,
        preact,
        parts.relu_commit,
        n,
        params.preprocessed.spec_half_bits(),
        s1,
    ) == Ok::<(), SnarkError>(())
    &&& range_verdict(vk, parts.slack_commit, n, bits, parts.slack_range, s2) == Ok::<
        (),
        SnarkError,
    >(())
    &&& range_verdict(vk, parts.epsilon_commit, n, bits, parts.epsilon_range, s3) == Ok::<
        (),
        SnarkError,
    >(())
    &&& t4 == range_state(vk, parts.epsilon_commit, n, parts.epsilon_range, s3)
}

/// Commit to the columns of a side and prove their lookups.
fn prove_half_parts<P: MlPcs>(
    n_vars: usize,
    preact_aux: &CommittedAux<P>,
    preact_commit: &P::Commitment,
    cols: &HalfColumns,
    params: &SnarkParams<P>,
    sponge: &mut Transcript,
    rng: &mut P::Randomness,
) -> (r: Result<HalfParts<P>, SnarkError>)
    requires
        pow2(n_vars as nat) <= usize::MAX,
        tables_fit(*params),
        preact_aux.table@.len() == pow2(n_vars as nat),
        cols.slack@.len() == pow2(n_vars as nat),
        cols.epsilon@.len() == pow2(n_vars as nat),
        cols.relu@.len() == pow2(n_vars as nat),
    ensures
        ({
            let hb = params.preprocessed.spec_half_bits();
            let bits = params.gadget_range_bits as nat;
            &&& n_vars >= 1
            &&& hb >= 1
            &&& aux_of(params.committer_key, *preact_commit, *preact_aux)
            &&& relu_scan(
                vals(preact_aux.table@),
                lifted_codes(cols.relu@),
                pow2(hb) as int,
                0,
            ) is None
            &&& all_below(cols.slack@, pow2(bits) as int)
            &&& all_below(cols.epsilon@, pow2(bits) as int)
            &&& params.preprocessed.has_pos_table(bits)
            &&& P::can_commit(params.committer_key, pow2(n_vars as nat))
            &&& P::can_commit(params.committer_key, pow2(even_vars(bits)))
            &&& P::can_commit(params.committer_key, pow2(even_vars(hb + 1)))
            &&& params.keys_match()
        }) ==> {
            &&& r matches Ok(parts)
            &&& half_parts_ok(
                *params,
                parts,
                *preact_commit,
                n_vars as nat,
                state_of(*old(sponge)),
                state_of(*final(sponge)),
            )
        },
        r matches Ok(parts) ==> {
            let bits = params.gadget_range_bits as nat;
            let hb = params.preprocessed.spec_half_bits();
            &&& n_vars >= 1
            &&& relu_scan(
                vals(preact_aux.table@),
                lifted_codes(cols.relu@),
                pow2(hb) as int,
                0,
            ) is None
            &&& params.preprocessed.has_pos_table(bits)
            &&& P::can_commit(params.committer_key, pow2(n_vars as nat))
            &&& P::can_commit(params.committer_key, pow2(even_vars(bits)))
            &&& P::can_commit(params.committer_key, pow2(even_vars(hb + 1)))
            &&& all_below(cols.slack@, pow2(bits) as int)
            &&& all_below(cols.epsilon@, pow2(bits) as int)
            &&& vals(parts.slack_aux.table@) == lifted_codes(cols.slack@)
            &&& vals(parts.epsilon_aux.table@) == lifted_codes(cols.epsilon@)
            &&& vals(parts.relu_aux.table@) == lifted_codes(cols.relu@)
            &&& aux_of(params.committer_key, parts.slack_commit, parts.slack_aux)
            &&& aux_of(params.committer_key, parts.epsilon_commit, parts.epsilon_aux)
            &&& aux_of(params.committer_key, parts.relu_commit, parts.relu_aux)
        },
{
    proof {
        if n_vars >= 1 {
            lemma_range_column(n_vars as nat);
        }
    }
    let (relu_commit, relu_aux): (P::Commitment, CommittedAux<P>) = match commit_codes::<P>(
        &params.committer_key,
        cols.relu.as_slice(),
        sponge,
        rng,
    ) {
        Ok(c) => c,
        Err(e) => {
            return Err(e);
        },
    };
    let relu_lookup: ReluLookup1dProof<P> = match prove_relu_lookup_1d(
        preact_aux.table.as_slice(),
        relu_aux.table.as_slice(),
        preact_aux,
        preact_commit,
        &relu_aux,
        &relu_commit,
        n_vars,
        params,
        sponge,
        rng,
    ) {
        Ok(p) => p,
        Err(e) => {
            return Err(e);
        },
    };
    let (slack_commit, slack_aux): (P::Commitment, CommittedAux<P>) = match commit_codes::<P>(
        &params.committer_key,
        cols.slack.as_slice(),
        sponge,
        rng,
    ) {
        Ok(c) => c,
        Err(e) => {
            return Err(e);
        },
    };
    let (epsilon_commit, epsilon_aux): (P::Commitment, CommittedAux<P>) = match commit_codes::<P>(
        &params.committer_key,
        cols.epsilon.as_slice(),
        sponge,
        rng,
    ) {
        Ok(c) => c,
        Err(e) => {
            return Err(e);
        },
    };
    let slack_range: PosRangeLogUp<P> = match prove_pos_range(
        slack_aux.table.as_slice(),
        cols.slack.as_slice(),
        &slack_aux,
        &slack_commit,
        params,
        sponge,
        rng,
    ) {
        Ok(p) => p,
        Err(e) => {
            return Err(e);
        },
    };
    let epsilon_range: PosRangeLogUp<P> = match prove_pos_range(
        epsilon_aux.table.as_slice(),
        cols.epsilon.as_slice(),
        &epsilon_aux,
        &epsilon_commit,
        params,
        sponge,
        rng,
    ) {
        Ok(p) => p,
        Err(e) => {
            return Err(e);
        },
    };
    proof {
        lemma_pow2_injective(
            vals(slack_range.lookup_proof.bottom_point@).len(),
            n_vars as nat,
        );
        lemma_pow2_injective(
            vals(epsilon_range.lookup_proof.bottom_point@).len(),
            n_vars as nat,
        );
    }
    Ok(
        HalfParts {
            relu_commit,
            relu_aux,
            slack_commit,
            slack_aux,
            epsilon_commit,
            epsilon_aux,
            relu_lookup,
            slack_range,
            epsilon_range,
        },
    )
}

/// Preactivations in the domain make the ReLU codes pass the lookup's scan.
proof fn lemma_half_relu_scan(
    preact: Seq<int>,
    d: Seq<int>,
    b: Seq<int>,
    s_d: int,
    s_w: int,
    s_b: int,
    half: int,
)
    requires
        half_scan(preact, d, b, s_d, s_w, s_b, 0) is None,
        forall|i: int|
            0 <= i < preact.len() ==> -half <= signed_of(#[trigger] preact[i])->Some_0 < half,
    ensures
        relu_scan(
            preact,
            lifted_codes(relu_codes(half_cells(preact, d, b, s_d, s_w, s_b))),
            half,
            0,
        ) is None,
{
    let cells = half_cells(preact, d, b, s_d, s_w, s_b);
    lemma_half_scan_none(preact, d, b, s_d, s_w, s_b, 0);
    assert forall|k: int| 0 <= k < preact.len() implies {
        &&& signed_of(#[trigger] preact[k]) is Some
        &&& -half <= signed_of(preact[k])->Some_0 < half
        &&& relu_codes(cells)[k] == if signed_of(preact[k])->Some_0 > 0 {
            signed_of(preact[k])->Some_0
        } else {
            0
        }
    } by {
        assert(half_cell(preact[k], d[k], b[k], s_d, s_w, s_b, k as nat) is Ok);
        assert(relu_codes(cells)[k] == cells[k].relu as i128);
    }
    lemma_relu_scan_ok(preact, relu_codes(cells), half, 0);
}

/// Prove a side.
fn prove_half<P: MlPcs>(
    n_vars: usize,
    preact_aux: &CommittedAux<P>,
    preact_commit: &P::Commitment,
    d_aux: &CommittedAux<P>,
    d_commit: &P::Commitment,
    b_aux: &CommittedAux<P>,
    b_commit: &P::Commitment,
    s_d: Fr,
    c_b_sd: Fr,
    s_d_code: i128,
    s_w_code: i128,
    s_b_code: i128,
    params: &SnarkParams<P>,
    sponge: &mut Transcript,
    rng: &mut P::Randomness,
) -> (r: Result<ReluUpperEndpointHalf<P>, SnarkError>)
    requires
        pow2(n_vars as nat) <= usize::MAX,
        tables_fit(*params),
        s_d_code > 0,
        s_w_code > 0,
        s_b_code > 0,
        s_d@ == residue(s_d_code as int),
        c_b_sd@ == residue((s_w_code as int / s_b_code as int) * s_d_code),
    ensures
        side_refusal(
            n_vars as nat,
            *preact_aux,
            *d_aux,
            *b_aux,
            s_d_code as int,
            s_w_code as int,
            s_b_code as int,
        ) matches Some(e) ==> r == Err::<ReluUpperEndpointHalf<P>, SnarkError>(e),
        half_provable(
            *params,
            n_vars as nat,
            *preact_aux,
            *preact_commit,
            *d_aux,
            *d_commit,
            *b_aux,
            *b_commit,
            s_d_code as int,
            s_w_code as int,
            s_b_code as int,
        ) && params.keys_match() ==> {
            &&& r matches Ok(half)
            &&& half_verdict(
                *params,
                half,
                n_vars,
                *preact_commit,
                *d_commit,
                *b_commit,
                s_d@,
                c_b_sd@,
                state_of(*old(sponge)),
            ) == Ok::<(), SnarkError>(())
            &&& state_of(*final(sponge)) == half_state(
                params.verifier_key,
                half,
                *preact_commit,
                *d_commit,
                *b_commit,
                state_of(*old(sponge)),
            )
        },
        r is Ok && half_committed(
            *params,
            *preact_aux,
            *preact_commit,
            *d_aux,
            *d_commit,
            *b_aux,
            *b_commit,
        ) ==> half_provable(
            *params,
            n_vars as nat,
            *preact_aux,
            *preact_commit,
            *d_aux,
            *d_commit,
            *b_aux,
            *b_commit,
            s_d_code as int,
            s_w_code as int,
            s_b_code as int,
        ),
        r matches Ok(half) ==> half_made(
            *params,
            half,
            n_vars,
            vals(preact_aux.table@),
            vals(d_aux.table@),
            vals(b_aux.table@),
            s_d_code as int,
            s_w_code as int,
            s_b_code as int,
        ),
{
    let n_padded: usize = pow2_usize(n_vars);
    let ghost t0 = state_of(*sponge);
    if preact_aux.table.len() != n_padded || d_aux.table.len() != n_padded || b_aux.table.len()
        != n_padded {
        return Err(
            SnarkError::ShapeMismatch { what: "relu_upper_endpoint: padded length != 2^n_vars" },
        );
    }
    let ghost (pv, dv, bv) = (vals(preact_aux.table@), vals(d_aux.table@), vals(b_aux.table@));
    let ghost (sd, sw, sb) = (s_d_code as int, s_w_code as int, s_b_code as int);
    let ghost cells = half_cells(pv, dv, bv, sd, sw, sb);
    let cols: HalfColumns = match half_columns(
        &preact_aux.table,
        &d_aux.table,
        &b_aux.table,
        s_d_code,
        s_w_code,
        s_b_code,
    ) {
        Ok(c) => c,
        Err(e) => {
            return Err(e);
        },
    };
    let ghost provable = half_provable(
        *params,
        n_vars as nat,
        *preact_aux,
        *preact_commit,
        *d_aux,
        *d_commit,
        *b_aux,
        *b_commit,
        sd,
        sw,
        sb,
    ) && params.keys_match();
    proof {
        lemma_pow2_machine(n_vars as nat);
        if provable {
            lemma_half_relu_scan(
                pv,
                dv,
                bv,
                sd,
                sw,
                sb,
                pow2(params.preprocessed.spec_half_bits()) as int,
            );
        }
    }
    absorb_u64(sponge, n_vars as u64);
    absorb_commitment::<P>(sponge, d_commit);
    absorb_commitment::<P>(sponge, b_commit);
    absorb_commitment::<P>(sponge, preact_commit);
    let parts: HalfParts<P> = match prove_half_parts(
        n_vars,
        preact_aux,
        preact_commit,
        &cols,
        params,
        sponge,
        rng,
    ) {
        Ok(p) => p,
        Err(e) => {
            return Err(e);
        },
    };
    proof {
        let half = pow2(params.preprocessed.spec_half_bits()) as int;
        let rv = lifted_codes(cols.relu@);
        lemma_relu_scan_none(pv, rv, half, 0);
        assert forall|i: int| 0 <= i < pv.len() implies -half <= signed_of(
            #[trigger] pv[i],
        )->Some_0 < half by {
            assert(relu_cell_error(pv[i], rv[i], half) is None);
        }
    }
    let r_test: Vec<Fr> = squeeze(sponge, n_vars);
    let ghost t5 = state_of(*sponge);
    let eq: Vec<Fr> = build_eq_table(r_test.as_slice());
    let ghost eqv = eq_table(vals(r_test@));
    let ident: UpperLine = UpperLine { s_d, c_b_sd };
    let mut items: Vec<BatchOpenSpec<'_, P>> = Vec::with_capacity(6);
    items.push(BatchOpenSpec { aux: d_aux, commitment: d_commit, commit_n_vars: n_vars });
    items.push(BatchOpenSpec { aux: b_aux, commitment: b_commit, commit_n_vars: n_vars });
    items.push(
        BatchOpenSpec {
            aux: &parts.slack_aux,
            commitment: &parts.slack_commit,
            commit_n_vars: n_vars,
        },
    );
    items.push(
        BatchOpenSpec {
            aux: &parts.epsilon_aux,
            commitment: &parts.epsilon_commit,
            commit_n_vars: n_vars,
        },
    );
    items.push(BatchOpenSpec { aux: preact_aux, commitment: preact_commit, commit_n_vars: n_vars });
    items.push(
        BatchOpenSpec {
            aux: &parts.relu_aux,
            commitment: &parts.relu_commit,
            commit_n_vars: n_vars,
        },
    );
    let singles: Vec<BatchOpenSpec<'_, P>> = Vec::new();
    assert(vals(eq@).len() == eq@.len());
    let table: Vec<Vec<Fr>> = vec![
        eq,
        copied(d_aux.table.as_slice()),
        copied(b_aux.table.as_slice()),
        copied(parts.slack_aux.table.as_slice()),
        copied(parts.epsilon_aux.table.as_slice()),
        copied(preact_aux.table.as_slice()),
        copied(parts.relu_aux.table.as_slice()),
    ];
    let ghost tabs = half_table(
        dv,
        bv,
        lifted_codes(slack_codes(cells)),
        lifted_codes(epsilon_codes(cells)),
        pv,
        lifted_codes(relu_codes(cells)),
    );
    proof {
        broadcast use lemma_view_in_field;

        assert(vals(parts.slack_aux.table@).len() == parts.slack_aux.table@.len());
        assert(vals(parts.epsilon_aux.table@).len() == parts.epsilon_aux.table@.len());
        assert(vals(parts.relu_aux.table@).len() == parts.relu_aux.table@.len());
        assert forall|i: int| 0 <= i < eqv.len() implies in_field(#[trigger] eqv[i]) by {
            lemma_eq_weight_in_field(vals(r_test@), i);
        }
        lemma_half_total(&ident, eqv, dv, bv, pv, sd, sw, sb, pow2(n_vars as nat));
        assert(item_tables(items@) =~= tabs);
        assert(vals2(table@) =~= seq![eqv] + tabs);
        assert(vals2(table@).skip(1) =~= item_tables(singles@) + item_tables(items@));
        assert(vals2(table@).take(1) =~= seq![eqv]);
        assert(item_coms(items@) =~= seq![
            *d_commit,
            *b_commit,
            parts.slack_commit,
            parts.epsilon_commit,
            *preact_commit,
            parts.relu_commit,
        ]);
    }
    let run: OpenedRun<P, RoundPoly3> = match prove_opened::<P, UpperLine, RoundPoly3>(
        &ident,
        table,
        1,
        &singles,
        &items,
        n_vars,
        SnarkError::RelaxationSoundnessFinalCheckFailed {
            which: "relu_upper_endpoint: sumcheck round invariant",
        },
        SnarkError::RelaxationSoundnessFinalCheckFailed {
            which: "relu_upper_endpoint: final identity",
        },
        &params.committer_key,
        sponge,
        rng,
    ) {
        Ok(run) => run,
        Err(e) => {
            return Err(e);
        },
    };
    let ghost coms = item_coms(items@);
    let v: Vec<Fr> = run.values;
    let ghost no_values = run.single_values;
    let half: ReluUpperEndpointHalf<P> = ReluUpperEndpointHalf {
        n_vars,
        relu_commit: parts.relu_commit,
        slack_commit: parts.slack_commit,
        epsilon_commit: parts.epsilon_commit,
        relu_lookup: parts.relu_lookup,
        slack_range: parts.slack_range,
        epsilon_range: parts.epsilon_range,
        r_test,
        rounds: run.rounds,
        r_final: run.point,
        r_batched_open: run.opening,
        d_upper_eval: v[0],
        b_upper_eval: v[1],
        slack_eval: v[2],
        epsilon_eval: v[3],
        preact_eval: v[4],
        relu_eval: v[5],
    };
    proof {
        assert(vals(v@) =~= half_values(half));
        if provable {
            lemma_rounds_check(
                true,
                t5,
                samples_of(half.rounds@),
                0,
                vals(half.r_final@),
                0,
            );
            let cell = values_at(seq![eqv], vals(half.r_final@)) + vals(no_values@) + vals(v@);
            assert(cell[0] == mle(eqv, vals(half.r_final@)));
            assert(cell[1] == v@[0]@ && cell[2] == v@[1]@ && cell[3] == v@[2]@);
            assert(cell[4] == v@[3]@ && cell[5] == v@[4]@ && cell[6] == v@[5]@);
            assert(half_coms(half, *preact_commit, *d_commit, *b_commit) =~= coms);
            assert(t5 == half_t5(
                params.verifier_key,
                half,
                *preact_commit,
                *d_commit,
                *b_commit,
                t0,
            ));
        }
    }
    Ok(half)
}

// ---- A layer ----

/// The code of `(s_w / s_b) s_d`.
pub open spec fn offset_code(s_d: int, s_w: int, s_b: int) -> int {
    (s_w / s_b) * s_d
}

/// The verdict on a layer's proof.
pub open spec fn upper_endpoint_verdict<P: MlPcs>(
    params: SnarkParams<P>,
    proof: ReluUpperEndpointProof<P>,
    layer_idx: usize,
    n_vars: usize,
    preact_lower: P::Commitment,
    preact_upper: P::Commitment,
    d: P::Commitment,
    b: P::Commitment,
    s_d: int,
    s_w: int,
    s_b: int,
    t0: Seq<u8>,
) -> Result<(), SnarkError> {
    let c = offset_code(s_d, s_w, s_b);
    let t1 = abs_u64(t0, layer_idx as u64);
    let t2 = half_state(params.verifier_key, proof.lo, preact_lower, d, b, t1);
    if proof.layer_idx != layer_idx {
        Err(
            SnarkError::ArchitectureMismatch { what: "relu_upper_endpoint: layer_idx mismatch" },
        )
    } else if proof.n_vars != n_vars {
        Err(SnarkError::ArchitectureMismatch { what: "relu_upper_endpoint: n_vars mismatch" })
    } else if s_w % s_b != 0 {
        Err(
            SnarkError::ArchitectureMismatch {
                what: "relu_upper_endpoint: precondition q_b > q_w",
            },
        )
    } else if !fits(c) {
        Err(SnarkError::ShapeMismatch { what: "relu_upper_endpoint: c_b_sd code overflow" })
    } else {
        and_also(
            half_verdict(
                params,
                proof.lo,
                n_vars,
                preact_lower,
                d,
                b,
                residue(s_d),
                residue(c),
                t1,
            ),
            half_verdict(
                params,
                proof.hi,
                n_vars,
                preact_upper,
                d,
                b,
                residue(s_d),
                residue(c),
                t2,
            ),
        )
    }
}

/// The state after a layer's proof.
pub open spec fn upper_endpoint_state<P: MlPcs>(
    vk: P::VerifierKey,
    proof: ReluUpperEndpointProof<P>,
    preact_lower: P::Commitment,
    preact_upper: P::Commitment,
    d: P::Commitment,
    b: P::Commitment,
    t0: Seq<u8>,
) -> Seq<u8> {
    let t1 = abs_u64(t0, proof.layer_idx as u64);
    let t2 = half_state(vk, proof.lo, preact_lower, d, b, t1);
    half_state(vk, proof.hi, preact_upper, d, b, t2)
}

/// The reason why the scale codes are refused, if they are.
pub open spec fn scale_codes_error(s_d: int, s_w: int, s_b: int) -> Option<SnarkError> {
    if s_d <= 0 || s_w <= 0 || s_b <= 0 {
        Some(SnarkError::ShapeMismatch { what: "relu_upper_endpoint: non-positive scale code" })
    } else if s_w % s_b != 0 {
        Some(
            SnarkError::RelaxationSoundnessFinalCheckFailed {
                which: "relu_upper_endpoint: precondition q_b > q_w",
            },
        )
    } else if !fits(offset_code(s_d, s_w, s_b)) {
        Some(SnarkError::ShapeMismatch { what: "relu_upper_endpoint: c_b_sd code overflow" })
    } else {
        None
    }
}

/// The reason why a side is refused before anything of it is sent, if it is:
/// the tables' lengths, or the first cell without a slack.
pub open spec fn side_refusal<P: MlPcs>(
    n_vars: nat,
    preact_aux: CommittedAux<P>,
    d_aux: CommittedAux<P>,
    b_aux: CommittedAux<P>,
    s_d: int,
    s_w: int,
    s_b: int,
) -> Option<SnarkError> {
    if preact_aux.table@.len() != pow2(n_vars) || d_aux.table@.len() != pow2(n_vars)
        || b_aux.table@.len() != pow2(n_vars) {
        Some(SnarkError::ShapeMismatch { what: "relu_upper_endpoint: padded length != 2^n_vars" })
    } else {
        half_scan(
            vals(preact_aux.table@),
            vals(d_aux.table@),
            vals(b_aux.table@),
            s_d,
            s_w,
            s_b,
            0,
        )
    }
}

/// Prove that the upper line of a ReLU layer dominates ReLU at both
/// preactivation endpoints of every neuron. The scales are given by the codes
/// of `1` at them.
pub fn prove_relu_upper_endpoint<P: MlPcs>(
    layer_idx: usize,
    n_vars: usize,
    preact_lower_aux: &CommittedAux<P>,
    preact_lower_commit: &P::Commitment,
    preact_upper_aux: &CommittedAux<P>,
    preact_upper_commit: &P::Commitment,
    d_aux: &CommittedAux<P>,
    d_commit: &P::Commitment,
    b_aux: &CommittedAux<P>,
    b_commit: &P::Commitment,
    s_d_code: i128,
    s_w_code: i128,
    s_b_code: i128,
    params: &SnarkParams<P>,
    sponge: &mut Transcript,
    rng: &mut P::Randomness,
) -> (r: Result<ReluUpperEndpointProof<P>, SnarkError>)
    requires
        pow2(n_vars as nat) <= usize::MAX,
        tables_fit(*params),
    ensures
        scale_codes_error(s_d_code as int, s_w_code as int, s_b_code as int) matches Some(e)
            ==> r == Err::<ReluUpperEndpointProof<P>, SnarkError>(e) && state_of(*final(sponge))
            == state_of(*old(sponge)),
        scale_codes_error(s_d_code as int, s_w_code as int, s_b_code as int) is None ==> (
        side_refusal(
            n_vars as nat,
            *preact_lower_aux,
            *d_aux,
            *b_aux,
            s_d_code as int,
            s_w_code as int,
            s_b_code as int,
        ) matches Some(e) ==> r == Err::<ReluUpperEndpointProof<P>, SnarkError>(e)),
        scale_codes_error(s_d_code as int, s_w_code as int, s_b_code as int) is None && half_provable(
            *params,
            n_vars as nat,
            *preact_lower_aux,
            *preact_lower_commit,
            *d_aux,
            *d_commit,
            *b_aux,
            *b_commit,
            s_d_code as int,
            s_w_code as int,
            s_b_code as int,
        ) && params.keys_match() ==> (side_refusal(
            n_vars as nat,
            *preact_upper_aux,
            *d_aux,
            *b_aux,
            s_d_code as int,
            s_w_code as int,
            s_b_code as int,
        ) matches Some(e) ==> r == Err::<ReluUpperEndpointProof<P>, SnarkError>(e)),
        scale_codes_error(s_d_code as int, s_w_code as int, s_b_code as int) is None && half_provable(
            *params,
            n_vars as nat,
            *preact_lower_aux,
            *preact_lower_commit,
            *d_aux,
            *d_commit,
            *b_aux,
            *b_commit,
            s_d_code as int,
            s_w_code as int,
            s_b_code as int,
        ) && half_provable(
            *params,
            n_vars as nat,
            *preact_upper_aux,
            *preact_upper_commit,
            *d_aux,
            *d_commit,
            *b_aux,
            *b_commit,
            s_d_code as int,
            s_w_code as int,
            s_b_code as int,
        ) && params.keys_match() ==> r is Ok,
        half_committed(
            *params,
            *preact_lower_aux,
            *preact_lower_commit,
            *d_aux,
            *d_commit,
            *b_aux,
            *b_commit,
        ) && half_committed(
            *params,
            *preact_upper_aux,
            *preact_upper_commit,
            *d_aux,
            *d_commit,
            *b_aux,
            *b_commit,
        ) && params.keys_match() ==> (r matches Ok(proof) ==> {
            &&& upper_endpoint_verdict(
                *params,
                proof,
                layer_idx,
                n_vars,
                *preact_lower_commit,
                *preact_upper_commit,
                *d_commit,
                *b_commit,
                s_d_code as int,
                s_w_code as int,
                s_b_code as int,
                state_of(*old(sponge)),
            ) == Ok::<(), SnarkError>(())
            &&& state_of(*final(sponge)) == upper_endpoint_state(
                params.verifier_key,
                proof,
                *preact_lower_commit,
                *preact_upper_commit,
                *d_commit,
                *b_commit,
                state_of(*old(sponge)),
            )
        }),
        r matches Ok(proof) ==> {
            &&& proof.layer_idx == layer_idx
            &&& proof.n_vars == n_vars
            &&& half_made(
                *params,
                proof.lo,
                n_vars,
                vals(preact_lower_aux.table@),
                vals(d_aux.table@),
                vals(b_aux.table@),
                s_d_code as int,
                s_w_code as int,
                s_b_code as int,
            )
            &&& half_made(
                *params,
                proof.hi,
                n_vars,
                vals(preact_upper_aux.table@),
                vals(d_aux.table@),
                vals(b_aux.table@),
                s_d_code as int,
                s_w_code as int,
                s_b_code as int,
            )
        },
{
    if s_d_code <= 0 || s_w_code <= 0 || s_b_code <= 0 {
        return Err(
            SnarkError::ShapeMismatch { what: "relu_upper_endpoint: non-positive scale code" },
        );
    }
    if s_w_code % s_b_code != 0 {
        return Err(
            SnarkError::RelaxationSoundnessFinalCheckFailed {
                which: "relu_upper_endpoint: precondition q_b > q_w",
            },
        );
    }
    let s_d: Fr = signed_lift_to_fr(s_d_code);
    let c_b_sd_code: i128 = match (s_w_code / s_b_code).checked_mul(s_d_code) {
        Some(c) => c,
        None => {
            return Err(
                SnarkError::ShapeMismatch { what: "relu_upper_endpoint: c_b_sd code overflow" },
            );
        },
    };
    let c_b_sd: Fr = signed_lift_to_fr(c_b_sd_code);
    absorb_u64(sponge, layer_idx as u64);
    let lo: ReluUpperEndpointHalf<P> = match prove_half(
        n_vars,
        preact_lower_aux,
        preact_lower_commit,
        d_aux,
        d_commit,
        b_aux,
        b_commit,
        s_d,
        c_b_sd,
        s_d_code,
        s_w_code,
        s_b_code,
        params,
        sponge,
        rng,
    ) {
        Ok(h) => h,
        Err(e) => {
            return Err(e);
        },
    };
    let hi: ReluUpperEndpointHalf<P> = match prove_half(
        n_vars,
        preact_upper_aux,
        preact_upper_commit,
        d_aux,
        d_commit,
        b_aux,
        b_commit,
        s_d,
        c_b_sd,
        s_d_code,
        s_w_code,
        s_b_code,
        params,
        sponge,
        rng,
    ) {
        Ok(h) => h,
        Err(e) => {
            return Err(e);
        },
    };
    Ok(ReluUpperEndpointProof { layer_idx, n_vars, lo, hi })
}

/// Verify a layer's proof against the commitments of the architecture.
pub fn verify_relu_upper_endpoint<P: MlPcs>(
    proof: &ReluUpperEndpointProof<P>,
    expected_layer_idx: usize,
    expected_n_vars: usize,
    preact_lower_commit: &P::Commitment,
    preact_upper_commit: &P::Commitment,
    d_commit: &P::Commitment,
    b_commit: &P::Commitment,
    s_d_code: i128,
    s_w_code: i128,
    s_b_code: i128,
    params: &SnarkParams<P>,
    sponge: &mut Transcript,
) -> (r: Result<(), SnarkError>)
    requires
        pow2(expected_n_vars as nat) <= usize::MAX,
        s_b_code != 0,
        s_w_code != i128::MIN || s_b_code != -1,
    ensures
        r == upper_endpoint_verdict(
            *params,
            *proof,
            expected_layer_idx,
            expected_n_vars,
            *preact_lower_commit,
            *preact_upper_commit,
            *d_commit,
            *b_commit,
            s_d_code as int,
            s_w_code as int,
            s_b_code as int,
            state_of(*old(sponge)),
        ),
        proof.layer_idx != expected_layer_idx || proof.n_vars != expected_n_vars || s_w_code as int
            % s_b_code as int != 0 || !fits(
            offset_code(s_d_code as int, s_w_code as int, s_b_code as int),
        ) ==> state_of(*final(sponge)) == state_of(*old(sponge)),
        r is Ok ==> state_of(*final(sponge)) == upper_endpoint_state(
            params.verifier_key,
            *proof,
            *preact_lower_commit,
            *preact_upper_commit,
            *d_commit,
            *b_commit,
            state_of(*old(sponge)),
        ),
{
    if proof.layer_idx != expected_layer_idx {
        return Err(
            SnarkError::ArchitectureMismatch { what: "relu_upper_endpoint: layer_idx mismatch" },
        );
    }
    if proof.n_vars != expected_n_vars {
        return Err(
            SnarkError::ArchitectureMismatch { what: "relu_upper_endpoint: n_vars mismatch" },
        );
    }
    let s_w_over_s_b: i128 = match exact_quotient(s_w_code, s_b_code) {
        Some(q) => q,
        None => {
            return Err(
                SnarkError::ArchitectureMismatch {
                    what: "relu_upper_endpoint: precondition q_b > q_w",
                },
            );
        },
    };
    let s_d: Fr = signed_lift_to_fr(s_d_code);
    let c_b_sd_code: i128 = match s_w_over_s_b.checked_mul(s_d_code) {
        Some(c) => c,
        None => {
            return Err(
                SnarkError::ShapeMismatch { what: "relu_upper_endpoint: c_b_sd code overflow" },
            );
        },
    };
    let c_b_sd: Fr = signed_lift_to_fr(c_b_sd_code);
    absorb_u64(sponge, expected_layer_idx as u64);
    match verify_half(
        &proof.lo,
        expected_n_vars,
        preact_lower_commit,
        d_commit,
        b_commit,
        s_d,
        c_b_sd,
        params,
        sponge,
    ) {
        Ok(_) => {},
        Err(e) => {
            return Err(e);
        },
    }
    verify_half(
        &proof.hi,
        expected_n_vars,
        preact_upper_commit,
        d_commit,
        b_commit,
        s_d,
        c_b_sd,
        params,
        sponge,
    )
}

} // verus!
