//! The identities that the S-shape critical-point gadget folds into one
//! sumcheck.
//!
//! A row holds, after the weight and the mask, the interval `l, u`, the line
//! `d, b`, and the neuron's integers in the order in which they are opened.

use crate::column_set::indices_ok;
use crate::columns::fits;
use crate::critical_witness::{
    CriticalScales, NeuronWitness, critical_cell, critical_field, critical_index, lower_at_minus,
    twos,
};
use crate::expr::{Expr, e_col, e_diff, e_num, e_prod, e_sum, expr_degree, int_value, top_degree};
use crate::logup::{lower, upper};
use crate::network::ActivationKind;
use crate::sshape_helpers::{
    fd1, fd2, lemma_floor, lemma_nearest_matches, lemma_rounded_line, line_scaled, reflected,
};
use crate::sshape_identities::{lemma_quot_fits, line_sign, meets_identities};
use crate::sshape_witness::SshapeLineKind;
use vstd::arithmetic::power2::pow2;
use vstd::prelude::*;

verus! {

/// The order in which the committed columns are opened.
pub open spec fn opening_order() -> Seq<usize> {
    seq![0usize, 1usize, 2usize, 3usize, 4usize, 5usize, 6usize, 7usize, 8usize, 13usize, 14usize, 15usize, 16usize, 17usize, 18usize, 19usize, 20usize, 9usize, 10usize, 11usize, 12usize, 22usize, 23usize, 24usize, 25usize, 26usize, 27usize, 28usize, 21usize]
}

/// The order in which the committed columns are opened.
pub fn opening_order_list() -> (r: Vec<usize>)
    ensures
        r@ == opening_order(),
        r@.len() == 29,
        indices_ok(r@, 29),
{
    let out: Vec<usize> = vec![0, 1, 2, 3, 4, 5, 6, 7, 8, 13, 14, 15, 16, 17, 18, 19, 20, 9, 10, 11, 12, 22, 23, 24, 25, 26, 27, 28, 21];
    assert(out@ =~= opening_order());
    out
}

/// `is_active (slack_fd1 - (sigma_lo_z - sigma_up_zmd) s_d s_x + d s_v - eps)`.
pub open spec fn fd1_expr(c_fd: i128, s_v: i128, eps: i128) -> Expr {
    e_prod(e_col(34), e_diff(e_sum(e_diff(e_col(13), e_prod(e_diff(e_col(7), e_col(10)), e_num(c_fd))), e_prod(e_col(4), e_num(s_v))), e_num(eps)))
}

/// `is_active (slack_fd2 - d s_v + (sigma_up_zpd - sigma_lo_z) s_d s_x - eps)`.
pub open spec fn fd2_expr(c_fd: i128, s_v: i128, eps: i128) -> Expr {
    e_prod(e_col(34), e_diff(e_sum(e_diff(e_col(14), e_prod(e_col(4), e_num(s_v))), e_prod(e_diff(e_col(12), e_col(7)), e_num(c_fd))), e_num(eps)))
}

/// `factor_a - (u - z)`.
pub open spec fn inside_upper_expr() -> Expr {
    e_diff(e_col(15), e_diff(e_col(3), e_col(6)))
}

/// `factor_a - (-z - l)`.
pub open spec fn inside_lower_expr() -> Expr {
    e_diff(e_col(15), e_diff(e_diff(e_num(0), e_col(6)), e_col(2)))
}

/// `factor_b - dz_sigma_code - b_sigma_code + sigma_up_z`.
pub open spec fn gap_upper_expr() -> Expr {
    e_sum(e_diff(e_diff(e_col(16), e_col(19)), e_col(21)), e_col(8))
}

/// `factor_b - (base - sigma_up_z) - dz_sigma_code + b_sigma_code`.
pub open spec fn gap_lower_expr(base: i128) -> Expr {
    e_sum(e_diff(e_diff(e_col(16), e_diff(e_num(base), e_col(8))), e_col(19)), e_col(21))
}

/// `d z - dz_step_1 s_d - dz_step_1_rem`.
pub open spec fn dz_expr(s_d: i128) -> Expr {
    e_diff(e_diff(e_prod(e_col(4), e_col(6)), e_prod(e_col(17), e_num(s_d))), e_col(18))
}

/// `dz_step_1 s_v - dz_sigma_code s_w - dz_sigma_rem`.
pub open spec fn dz_sigma_expr(s_v: i128, s_w: i128) -> Expr {
    e_diff(e_diff(e_prod(e_col(17), e_num(s_v)), e_prod(e_col(19), e_num(s_w))), e_col(20))
}

/// `+-(b s_v - b_sigma_code s_b) - b_sigma_rem`.
pub open spec fn b_sigma_expr(sign: i128, s_v: i128, s_b: i128) -> Expr {
    e_diff(e_prod(e_num(sign), e_diff(e_prod(e_col(5), e_num(s_v)), e_prod(e_col(21), e_num(s_b)))), e_col(22))
}

/// `slack_fd1 - slack_fd1_high m - slack_fd1_low`.
pub open spec fn fd1_chunk_expr(m: i128) -> Expr {
    e_diff(e_diff(e_col(13), e_prod(e_col(23), e_num(m))), e_col(24))
}

/// `slack_fd2 - slack_fd2_high m - slack_fd2_low`.
pub open spec fn fd2_chunk_expr(m: i128) -> Expr {
    e_diff(e_diff(e_col(14), e_prod(e_col(25), e_num(m))), e_col(26))
}

/// `inside (1 - inside)`.
pub open spec fn inside_bit_expr() -> Expr {
    e_prod(e_col(27), e_diff(e_num(1), e_col(27)))
}

/// `slack_pos - 2 inside factor_a + factor_a + 1 - inside`.
pub open spec fn slack_pos_expr() -> Expr {
    e_diff(e_sum(e_sum(e_diff(e_col(28), e_prod(e_prod(e_num(2), e_col(27)), e_col(15))), e_col(15)), e_num(1)), e_col(27))
}

/// `slack_pos - slack_pos_high m - slack_pos_low`.
pub open spec fn slack_pos_chunk_expr(m: i128) -> Expr {
    e_diff(e_diff(e_col(28), e_prod(e_col(29), e_num(m))), e_col(30))
}

/// `gated_gap - inside factor_b`.
pub open spec fn gated_gap_expr() -> Expr {
    e_diff(e_col(31), e_prod(e_col(27), e_col(16)))
}

/// `gated_gap - gated_gap_high m - gated_gap_low`.
pub open spec fn gated_gap_chunk_expr(m: i128) -> Expr {
    e_diff(e_diff(e_col(31), e_prod(e_col(32), e_num(m))), e_col(33))
}

/// `active (1 - active)`.
pub open spec fn active_bit_expr() -> Expr {
    e_prod(e_col(34), e_diff(e_num(1), e_col(34)))
}

/// `(1 - active) d`.
pub open spec fn active_zero_expr() -> Expr {
    e_prod(e_diff(e_num(1), e_col(34)), e_col(4))
}

/// The sixteen identities.
pub open spec fn critical_exprs(
    kind: ActivationKind,
    line: SshapeLineKind,
    s_d: i128,
    s_b: i128,
    s_w: i128,
    s_v: i128,
    c_fd: i128,
    eps: i128,
    m: i128,
) -> Seq<Expr> {
    let sign = line_sign(line);
    let inside = match line {
        SshapeLineKind::Upper => inside_upper_expr(),
        SshapeLineKind::Lower => inside_lower_expr(),
    };
    let gap = match line {
        SshapeLineKind::Upper => gap_upper_expr(),
        SshapeLineKind::Lower => gap_lower_expr(
            if kind is Sigmoid {
                s_v
            } else {
                0i128
            },
        ),
    };
    seq![
        fd1_expr(c_fd, s_v, eps),
        fd2_expr(c_fd, s_v, eps),
        inside,
        gap,
        dz_expr(s_d),
        dz_sigma_expr(s_v, s_w),
        b_sigma_expr(sign, s_v, s_b),
        fd1_chunk_expr(m),
        fd2_chunk_expr(m),
        inside_bit_expr(),
        slack_pos_expr(),
        slack_pos_chunk_expr(m),
        gated_gap_expr(),
        gated_gap_chunk_expr(m),
        active_bit_expr(),
        active_zero_expr(),
    ]
}

/// Build the sixteen identities.
pub fn critical_identities(
    kind: ActivationKind,
    line: SshapeLineKind,
    s_d: i128,
    s_b: i128,
    s_w: i128,
    s_v: i128,
    c_fd: i128,
    eps: i128,
    m: i128,
) -> (r: Vec<Expr>)
    ensures
        r@ == critical_exprs(kind, line, s_d, s_b, s_w, s_v, c_fd, eps, m),
{
    let sign: i128 = match line {
        SshapeLineKind::Upper => 1,
        SshapeLineKind::Lower => -1,
    };
    let base: i128 = match kind {
        ActivationKind::Sigmoid => s_v,
        _ => 0,
    };
    let inside: Expr = match line {
        SshapeLineKind::Upper => e_diff(e_col(15), e_diff(e_col(3), e_col(6))),
        SshapeLineKind::Lower => e_diff(e_col(15), e_diff(e_diff(e_num(0), e_col(6)), e_col(2))),
    };
    let gap: Expr = match line {
        SshapeLineKind::Upper => e_sum(e_diff(e_diff(e_col(16), e_col(19)), e_col(21)), e_col(8)),
        SshapeLineKind::Lower => e_sum(e_diff(e_diff(e_col(16), e_diff(e_num(base), e_col(8))), e_col(19)), e_col(21)),
    };
    let fd1: Expr = e_prod(e_col(34), e_diff(e_sum(e_diff(e_col(13), e_prod(e_diff(e_col(7), e_col(10)), e_num(c_fd))), e_prod(e_col(4), e_num(s_v))), e_num(eps)));
    let fd2: Expr = e_prod(e_col(34), e_diff(e_sum(e_diff(e_col(14), e_prod(e_col(4), e_num(s_v))), e_prod(e_diff(e_col(12), e_col(7)), e_num(c_fd))), e_num(eps)));
    let dz: Expr = e_diff(e_diff(e_prod(e_col(4), e_col(6)), e_prod(e_col(17), e_num(s_d))), e_col(18));
    let dz_sigma: Expr = e_diff(e_diff(e_prod(e_col(17), e_num(s_v)), e_prod(e_col(19), e_num(s_w))), e_col(20));
    let b_sigma: Expr = e_diff(e_prod(e_num(sign), e_diff(e_prod(e_col(5), e_num(s_v)), e_prod(e_col(21), e_num(s_b)))), e_col(22));
    let fd1_chunk: Expr = e_diff(e_diff(e_col(13), e_prod(e_col(23), e_num(m))), e_col(24));
    let fd2_chunk: Expr = e_diff(e_diff(e_col(14), e_prod(e_col(25), e_num(m))), e_col(26));
    let inside_bit: Expr = e_prod(e_col(27), e_diff(e_num(1), e_col(27)));
    let slack_pos: Expr = e_diff(e_sum(e_sum(e_diff(e_col(28), e_prod(e_prod(e_num(2), e_col(27)), e_col(15))), e_col(15)), e_num(1)), e_col(27));
    let slack_pos_chunk: Expr = e_diff(e_diff(e_col(28), e_prod(e_col(29), e_num(m))), e_col(30));
    let gated_gap: Expr = e_diff(e_col(31), e_prod(e_col(27), e_col(16)));
    let gated_gap_chunk: Expr = e_diff(e_diff(e_col(31), e_prod(e_col(32), e_num(m))), e_col(33));
    let active_bit: Expr = e_prod(e_col(34), e_diff(e_num(1), e_col(34)));
    let active_zero: Expr = e_prod(e_diff(e_num(1), e_col(34)), e_col(4));
    let out: Vec<Expr> = vec![
        fd1,
        fd2,
        inside,
        gap,
        dz,
        dz_sigma,
        b_sigma,
        fd1_chunk,
        fd2_chunk,
        inside_bit,
        slack_pos,
        slack_pos_chunk,
        gated_gap,
        gated_gap_chunk,
        active_bit,
        active_zero,
    ];
    assert(out@ =~= critical_exprs(kind, line, s_d, s_b, s_w, s_v, c_fd, eps, m));
    out
}

proof fn lemma_degree_fd1_expr(c_fd: i128, s_v: i128, eps: i128)
    ensures
        expr_degree(fd1_expr(c_fd, s_v, eps)) <= 2,
{
    reveal_with_fuel(expr_degree, 8);
}

proof fn lemma_degree_fd2_expr(c_fd: i128, s_v: i128, eps: i128)
    ensures
        expr_degree(fd2_expr(c_fd, s_v, eps)) <= 2,
{
    reveal_with_fuel(expr_degree, 8);
}

proof fn lemma_degree_inside_upper_expr()
    ensures
        expr_degree(inside_upper_expr()) <= 2,
{
    reveal_with_fuel(expr_degree, 8);
}

proof fn lemma_degree_inside_lower_expr()
    ensures
        expr_degree(inside_lower_expr()) <= 2,
{
    reveal_with_fuel(expr_degree, 8);
}

proof fn lemma_degree_gap_upper_expr()
    ensures
        expr_degree(gap_upper_expr()) <= 2,
{
    reveal_with_fuel(expr_degree, 8);
}

proof fn lemma_degree_gap_lower_expr(base: i128)
    ensures
        expr_degree(gap_lower_expr(base)) <= 2,
{
    reveal_with_fuel(expr_degree, 8);
}

proof fn lemma_degree_dz_expr(s_d: i128)
    ensures
        expr_degree(dz_expr(s_d)) <= 2,
{
    reveal_with_fuel(expr_degree, 8);
}

proof fn lemma_degree_dz_sigma_expr(s_v: i128, s_w: i128)
    ensures
        expr_degree(dz_sigma_expr(s_v, s_w)) <= 2,
{
    reveal_with_fuel(expr_degree, 8);
}

proof fn lemma_degree_b_sigma_expr(sign: i128, s_v: i128, s_b: i128)
    ensures
        expr_degree(b_sigma_expr(sign, s_v, s_b)) <= 2,
{
    reveal_with_fuel(expr_degree, 8);
}

proof fn lemma_degree_fd1_chunk_expr(m: i128)
    ensures
        expr_degree(fd1_chunk_expr(m)) <= 2,
{
    reveal_with_fuel(expr_degree, 8);
}

proof fn lemma_degree_fd2_chunk_expr(m: i128)
    ensures
        expr_degree(fd2_chunk_expr(m)) <= 2,
{
    reveal_with_fuel(expr_degree, 8);
}

proof fn lemma_degree_inside_bit_expr()
    ensures
        expr_degree(inside_bit_expr()) <= 2,
{
    reveal_with_fuel(expr_degree, 8);
}

proof fn lemma_degree_slack_pos_expr()
    ensures
        expr_degree(slack_pos_expr()) <= 2,
{
    reveal_with_fuel(expr_degree, 8);
}

proof fn lemma_degree_slack_pos_chunk_expr(m: i128)
    ensures
        expr_degree(slack_pos_chunk_expr(m)) <= 2,
{
    reveal_with_fuel(expr_degree, 8);
}

proof fn lemma_degree_gated_gap_expr()
    ensures
        expr_degree(gated_gap_expr()) <= 2,
{
    reveal_with_fuel(expr_degree, 8);
}

proof fn lemma_degree_gated_gap_chunk_expr(m: i128)
    ensures
        expr_degree(gated_gap_chunk_expr(m)) <= 2,
{
    reveal_with_fuel(expr_degree, 8);
}

proof fn lemma_degree_active_bit_expr()
    ensures
        expr_degree(active_bit_expr()) <= 2,
{
    reveal_with_fuel(expr_degree, 8);
}

proof fn lemma_degree_active_zero_expr()
    ensures
        expr_degree(active_zero_expr()) <= 2,
{
    reveal_with_fuel(expr_degree, 8);
}

/// The identities are of degree two.
pub proof fn lemma_critical_degree(
    kind: ActivationKind,
    line: SshapeLineKind,
    s_d: i128,
    s_b: i128,
    s_w: i128,
    s_v: i128,
    c_fd: i128,
    eps: i128,
    m: i128,
)
    ensures
        top_degree(critical_exprs(kind, line, s_d, s_b, s_w, s_v, c_fd, eps, m), 16) <= 2,
{
    let sign = line_sign(line);
    let base = if kind is Sigmoid {
        s_v
    } else {
        0i128
    };
    lemma_degree_fd1_expr(c_fd, s_v, eps);
    lemma_degree_fd2_expr(c_fd, s_v, eps);
    lemma_degree_inside_upper_expr();
    lemma_degree_inside_lower_expr();
    lemma_degree_gap_upper_expr();
    lemma_degree_gap_lower_expr(base);
    lemma_degree_dz_expr(s_d);
    lemma_degree_dz_sigma_expr(s_v, s_w);
    lemma_degree_b_sigma_expr(sign, s_v, s_b);
    lemma_degree_fd1_chunk_expr(m);
    lemma_degree_fd2_chunk_expr(m);
    lemma_degree_inside_bit_expr();
    lemma_degree_slack_pos_expr();
    lemma_degree_slack_pos_chunk_expr(m);
    lemma_degree_gated_gap_expr();
    lemma_degree_gated_gap_chunk_expr(m);
    lemma_degree_active_bit_expr();
    lemma_degree_active_zero_expr();
    let e = critical_exprs(kind, line, s_d, s_b, s_w, s_v, c_fd, eps, m);
    lemma_top_degree(e, 16);
}

/// The largest of degrees that are at most two is at most two.
proof fn lemma_top_degree(e: Seq<Expr>, k: nat)
    requires
        k <= e.len(),
        forall|i: int| 0 <= i < k ==> expr_degree(#[trigger] e[i]) <= 2,
    ensures
        top_degree(e, k) <= 2,
    decreases k,
{
    if k > 0 {
        lemma_top_degree(e, (k - 1) as nat);
        assert(expr_degree(e[k - 1]) <= 2);
    }
}

/// A row of integers.
pub open spec fn critical_row(w: int, l: int, u: int, d: int, b: int, c: NeuronWitness) -> Seq<
    int,
> {
    seq![w, 1, l, u, d, b] + Seq::new(
        29,
        |j: int| critical_field(c, opening_order()[j] as int) as int,
    )
}

/// The entries of a row.
proof fn lemma_row(w: int, l: int, u: int, d: int, b: int, c: NeuronWitness)
    ensures
        ({
            let r = critical_row(w, l, u, d, b, c);
            &&& r.len() == 35
            &&& r[2] == l
            &&& r[3] == u
            &&& r[4] == d
            &&& r[5] == b
            &&& r[6] == c.z
            &&& r[7] == c.sigma_lo_z
            &&& r[8] == c.sigma_up_z
            &&& r[9] == c.sigma_lo_zmd
            &&& r[10] == c.sigma_up_zmd
            &&& r[11] == c.sigma_lo_zpd
            &&& r[12] == c.sigma_up_zpd
            &&& r[13] == c.slack_fd1
            &&& r[14] == c.slack_fd2
            &&& r[23] == c.slack_fd1_high
            &&& r[24] == c.slack_fd1_low
            &&& r[25] == c.slack_fd2_high
            &&& r[26] == c.slack_fd2_low
            &&& r[15] == c.factor_a
            &&& r[16] == c.factor_b
            &&& r[17] == c.dz_step_1
            &&& r[18] == c.dz_step_1_rem
            &&& r[19] == c.dz_sigma_code
            &&& r[20] == c.dz_sigma_rem
            &&& r[21] == c.b_sigma_code
            &&& r[22] == c.b_sigma_rem
            &&& r[34] == c.is_active
            &&& r[27] == c.inside_bit
            &&& r[28] == c.slack_pos
            &&& r[29] == c.slack_pos_high
            &&& r[30] == c.slack_pos_low
            &&& r[31] == c.gated_gap
            &&& r[32] == c.gated_gap_high
            &&& r[33] == c.gated_gap_low
        }),
{
    let o = opening_order();
    let r = critical_row(w, l, u, d, b, c);
    assert(o[0] == 0 && r[6] == critical_field(c, 0));
    assert(o[1] == 1 && r[7] == critical_field(c, 1));
    assert(o[2] == 2 && r[8] == critical_field(c, 2));
    assert(o[3] == 3 && r[9] == critical_field(c, 3));
    assert(o[4] == 4 && r[10] == critical_field(c, 4));
    assert(o[5] == 5 && r[11] == critical_field(c, 5));
    assert(o[6] == 6 && r[12] == critical_field(c, 6));
    assert(o[7] == 7 && r[13] == critical_field(c, 7));
    assert(o[8] == 8 && r[14] == critical_field(c, 8));
    assert(o[17] == 9 && r[23] == critical_field(c, 9));
    assert(o[18] == 10 && r[24] == critical_field(c, 10));
    assert(o[19] == 11 && r[25] == critical_field(c, 11));
    assert(o[20] == 12 && r[26] == critical_field(c, 12));
    assert(o[9] == 13 && r[15] == critical_field(c, 13));
    assert(o[10] == 14 && r[16] == critical_field(c, 14));
    assert(o[11] == 15 && r[17] == critical_field(c, 15));
    assert(o[12] == 16 && r[18] == critical_field(c, 16));
    assert(o[13] == 17 && r[19] == critical_field(c, 17));
    assert(o[14] == 18 && r[20] == critical_field(c, 18));
    assert(o[15] == 19 && r[21] == critical_field(c, 19));
    assert(o[16] == 20 && r[22] == critical_field(c, 20));
    assert(o[28] == 21 && r[34] == critical_field(c, 21));
    assert(o[21] == 22 && r[27] == critical_field(c, 22));
    assert(o[22] == 23 && r[28] == critical_field(c, 23));
    assert(o[23] == 24 && r[29] == critical_field(c, 24));
    assert(o[24] == 25 && r[30] == critical_field(c, 25));
    assert(o[25] == 26 && r[31] == critical_field(c, 26));
    assert(o[26] == 27 && r[32] == critical_field(c, 27));
    assert(o[27] == 28 && r[33] == critical_field(c, 28));
}

proof fn lemma_value_fd1_expr(r: Seq<int>, c_fd: i128, s_v: i128, eps: i128)
    requires
        r.len() == 35,
    ensures
        int_value(fd1_expr(c_fd, s_v, eps), r) == (r[34] * (((r[13] - ((r[7] - r[10]) * c_fd)) + (r[4] * s_v)) - eps)),
{
    reveal_with_fuel(int_value, 8);
}

proof fn lemma_value_fd2_expr(r: Seq<int>, c_fd: i128, s_v: i128, eps: i128)
    requires
        r.len() == 35,
    ensures
        int_value(fd2_expr(c_fd, s_v, eps), r) == (r[34] * (((r[14] - (r[4] * s_v)) + ((r[12] - r[7]) * c_fd)) - eps)),
{
    reveal_with_fuel(int_value, 8);
}

proof fn lemma_value_inside_upper_expr(r: Seq<int>)
    requires
        r.len() == 35,
    ensures
        int_value(inside_upper_expr(), r) == (r[15] - (r[3] - r[6])),
{
    reveal_with_fuel(int_value, 8);
}

proof fn lemma_value_inside_lower_expr(r: Seq<int>)
    requires
        r.len() == 35,
    ensures
        int_value(inside_lower_expr(), r) == (r[15] - ((0 - r[6]) - r[2])),
{
    reveal_with_fuel(int_value, 8);
}

proof fn lemma_value_gap_upper_expr(r: Seq<int>)
    requires
        r.len() == 35,
    ensures
        int_value(gap_upper_expr(), r) == (((r[16] - r[19]) - r[21]) + r[8]),
{
    reveal_with_fuel(int_value, 8);
}

proof fn lemma_value_gap_lower_expr(r: Seq<int>, base: i128)
    requires
        r.len() == 35,
    ensures
        int_value(gap_lower_expr(base), r) == (((r[16] - (base - r[8])) - r[19]) + r[21]),
{
    reveal_with_fuel(int_value, 8);
}

proof fn lemma_value_dz_expr(r: Seq<int>, s_d: i128)
    requires
        r.len() == 35,
    ensures
        int_value(dz_expr(s_d), r) == (((r[4] * r[6]) - (r[17] * s_d)) - r[18]),
{
    reveal_with_fuel(int_value, 8);
}

proof fn lemma_value_dz_sigma_expr(r: Seq<int>, s_v: i128, s_w: i128)
    requires
        r.len() == 35,
    ensures
        int_value(dz_sigma_expr(s_v, s_w), r) == (((r[17] * s_v) - (r[19] * s_w)) - r[20]),
{
    reveal_with_fuel(int_value, 8);
}

proof fn lemma_value_b_sigma_expr(r: Seq<int>, sign: i128, s_v: i128, s_b: i128)
    requires
        r.len() == 35,
    ensures
        int_value(b_sigma_expr(sign, s_v, s_b), r) == ((sign * ((r[5] * s_v) - (r[21] * s_b))) - r[22]),
{
    reveal_with_fuel(int_value, 8);
}

proof fn lemma_value_fd1_chunk_expr(r: Seq<int>, m: i128)
    requires
        r.len() == 35,
    ensures
        int_value(fd1_chunk_expr(m), r) == ((r[13] - (r[23] * m)) - r[24]),
{
    reveal_with_fuel(int_value, 8);
}

proof fn lemma_value_fd2_chunk_expr(r: Seq<int>, m: i128)
    requires
        r.len() == 35,
    ensures
        int_value(fd2_chunk_expr(m), r) == ((r[14] - (r[25] * m)) - r[26]),
{
    reveal_with_fuel(int_value, 8);
}

proof fn lemma_value_inside_bit_expr(r: Seq<int>)
    requires
        r.len() == 35,
    ensures
        int_value(inside_bit_expr(), r) == (r[27] * (1 - r[27])),
{
    reveal_with_fuel(int_value, 8);
}

proof fn lemma_value_slack_pos_expr(r: Seq<int>)
    requires
        r.len() == 35,
    ensures
        int_value(slack_pos_expr(), r) == ((((r[28] - ((2 * r[27]) * r[15])) + r[15]) + 1) - r[27]),
{
    reveal_with_fuel(int_value, 8);
}

proof fn lemma_value_slack_pos_chunk_expr(r: Seq<int>, m: i128)
    requires
        r.len() == 35,
    ensures
        int_value(slack_pos_chunk_expr(m), r) == ((r[28] - (r[29] * m)) - r[30]),
{
    reveal_with_fuel(int_value, 8);
}

proof fn lemma_value_gated_gap_expr(r: Seq<int>)
    requires
        r.len() == 35,
    ensures
        int_value(gated_gap_expr(), r) == (r[31] - (r[27] * r[16])),
{
    reveal_with_fuel(int_value, 8);
}

proof fn lemma_value_gated_gap_chunk_expr(r: Seq<int>, m: i128)
    requires
        r.len() == 35,
    ensures
        int_value(gated_gap_chunk_expr(m), r) == ((r[31] - (r[32] * m)) - r[33]),
{
    reveal_with_fuel(int_value, 8);
}

proof fn lemma_value_active_bit_expr(r: Seq<int>)
    requires
        r.len() == 35,
    ensures
        int_value(active_bit_expr(), r) == (r[34] * (1 - r[34])),
{
    reveal_with_fuel(int_value, 8);
}

proof fn lemma_value_active_zero_expr(r: Seq<int>)
    requires
        r.len() == 35,
    ensures
        int_value(active_zero_expr(), r) == ((1 - r[34]) * r[4]),
{
    reveal_with_fuel(int_value, 8);
}

/// What the integers of a neuron satisfy.
pub open spec fn neuron_facts(
    c: NeuronWitness,
    lower: Seq<i128>,
    upper: Seq<i128>,
    kind: ActivationKind,
    line: SshapeLineKind,
    l: int,
    u: int,
    d: int,
    b: int,
    s: CriticalScales,
    bound: int,
) -> bool {
    let zw = c.z as int / (pow2((twos(s.s_x) - twos(s.s_w)) as nat) as int);
    &&& 1 <= c.z <= lower.len() - 2
    &&& c.sigma_lo_z == lower[c.z as int]
    &&& c.sigma_up_z == upper[c.z as int]
    &&& c.sigma_lo_zmd == lower[c.z - 1]
    &&& c.sigma_up_zmd == upper[c.z - 1]
    &&& c.sigma_lo_zpd == lower[c.z + 1]
    &&& c.sigma_up_zpd == upper[c.z + 1]
    &&& c.is_active == (if d != 0 {
        1int
    } else {
        0
    })
    &&& d != 0 ==> c.slack_fd1 == fd1(
        c.sigma_lo_z as int,
        c.sigma_up_zmd as int,
        d,
        s.s_d,
        s.s_x,
        s.s_v,
    )
    &&& d != 0 ==> c.slack_fd2 == fd2(
        c.sigma_lo_z as int,
        c.sigma_up_zpd as int,
        d,
        s.s_d,
        s.s_x,
        s.s_v,
    )
    &&& c.slack_fd1 == c.slack_fd1_high * bound + c.slack_fd1_low
    &&& c.slack_fd2 == c.slack_fd2_high * bound + c.slack_fd2_low
    &&& 0 <= c.slack_fd1_high < bound && 0 <= c.slack_fd1_low < bound
    &&& 0 <= c.slack_fd2_high < bound && 0 <= c.slack_fd2_low < bound
    &&& c.factor_a == (if line is Upper {
        u - zw
    } else {
        -zw - l
    })
    &&& c.factor_b == (if line is Upper {
        c.dz_sigma_code + c.b_sigma_code - c.sigma_up_z
    } else {
        lower_at_minus(kind, c.sigma_up_z as int, s.s_v) + c.dz_sigma_code - c.b_sigma_code
    })
    &&& s.s_d > 0 && s.s_w > 0 && s.s_b > 0
    &&& d * zw == c.dz_step_1 * s.s_d + c.dz_step_1_rem
    &&& 0 <= c.dz_step_1_rem < s.s_d
    &&& c.dz_step_1 * s.s_v == c.dz_sigma_code * s.s_w + c.dz_sigma_rem
    &&& 0 <= c.dz_sigma_rem < s.s_w
    &&& line_sign(line) * (b * s.s_v - c.b_sigma_code * s.s_b) == c.b_sigma_rem
    &&& 0 <= c.b_sigma_rem < s.s_b
    &&& c.inside_bit == (if c.factor_a >= 0 {
        1int
    } else {
        0
    })
    &&& c.slack_pos == (if c.factor_a >= 0 {
        c.factor_a as int
    } else {
        -c.factor_a - 1
    })
    &&& c.slack_pos == c.slack_pos_high * bound + c.slack_pos_low
    &&& 0 <= c.slack_pos_high < bound && 0 <= c.slack_pos_low < bound
    &&& c.gated_gap == (if c.factor_a >= 0 {
        c.factor_b as int
    } else {
        0
    })
    &&& c.gated_gap == c.gated_gap_high * bound + c.gated_gap_low
    &&& 0 <= c.gated_gap_high < bound && 0 <= c.gated_gap_low < bound
}

/// The integers of a neuron satisfy it.
pub proof fn lemma_neuron_facts(
    lower: Seq<i128>,
    upper: Seq<i128>,
    kind: ActivationKind,
    line: SshapeLineKind,
    layer_idx: usize,
    l: int,
    u: int,
    d: int,
    b: int,
    seed: Option<i128>,
    s: CriticalScales,
    bound: int,
)
    requires
        3 <= lower.len() <= usize::MAX,
        upper.len() == lower.len(),
        bound > 0,
        fits(s.s_d) && fits(s.s_b) && fits(s.s_w) && fits(s.s_v),
        critical_cell(lower, upper, kind, line, layer_idx, l, u, d, b, seed, s, bound) is Ok,
    ensures
        neuron_facts(
            critical_cell(lower, upper, kind, line, layer_idx, l, u, d, b, seed, s, bound)->Ok_0,
            lower,
            upper,
            kind,
            line,
            l,
            u,
            d,
            b,
            s,
            bound,
        ),
{
    let c = critical_cell(lower, upper, kind, line, layer_idx, l, u, d, b, seed, s, bound)->Ok_0;
    let active = d != 0;
    let z = if active {
        critical_index(lower, upper, d, s.s_d, s.s_x, s.s_v, seed)->Some_0
    } else {
        1int
    };
    if active {
        lemma_nearest_matches(
            lower,
            upper,
            d,
            s.s_d,
            s.s_x,
            s.s_v,
            seed->Some_0 as int,
            16,
            0,
        );
    }
    assert(1 <= z <= lower.len() - 2);
    let zw = z / (pow2((twos(s.s_x) - twos(s.s_w)) as nat) as int);
    let k1 = if active {
        fd1(lower[z] as int, upper[z - 1] as int, d, s.s_d, s.s_x, s.s_v)
    } else {
        0
    };
    let k2 = if active {
        fd2(lower[z] as int, upper[z + 1] as int, d, s.s_d, s.s_x, s.s_v)
    } else {
        0
    };
    lemma_chunks(k1, bound);
    lemma_chunks(k2, bound);
    assert(bound <= bound * bound) by (nonlinear_arith)
        requires
            bound > 0,
    ;
    let q1 = (d * zw) / s.s_d;
    lemma_quot_fits(false, d * zw, s.s_d);
    lemma_quot_fits(false, q1 * s.s_v, s.s_w);
    lemma_quot_fits(line is Lower, b * s.s_v, s.s_b);
    let (sign, y) = (line_sign(line) as int, b * s.s_v - c.b_sigma_code * s.s_b);
    assert(sign * y == (if line is Upper {
        y
    } else {
        -y
    })) by (nonlinear_arith)
        requires
            sign == (if line is Upper {
                1int
            } else {
                -1int
            }),
    ;
    lemma_chunks(c.slack_pos as int, bound);
    lemma_chunks(c.gated_gap as int, bound);
}

/// A number below the square of the bound splits into two chunks below it.
proof fn lemma_chunks(x: int, bound: int)
    requires
        bound > 0,
    ensures
        x == (x / bound) * bound + (x - (x / bound) * bound),
        0 <= x - (x / bound) * bound < bound,
        x >= 0 ==> 0 <= x / bound <= x,
        0 <= x < bound * bound ==> x / bound < bound,
{
    lemma_floor(x, bound);
    let q = x / bound;
    if 0 <= x < bound * bound && q >= bound {
        assert(q * bound >= bound * bound) by (nonlinear_arith)
            requires
                q >= bound,
                bound > 0,
        ;
    }
}

/// Integers that satisfy it meet every identity, where the table and the
/// preactivations have one scale.
proof fn lemma_facts_meet_identities(
    c: NeuronWitness,
    lower: Seq<i128>,
    upper: Seq<i128>,
    kind: ActivationKind,
    line: SshapeLineKind,
    l: int,
    u: int,
    d: int,
    b: int,
    s: CriticalScales,
    bound: int,
    w: int,
    s_d: i128,
    s_b: i128,
    s_w: i128,
    s_v: i128,
    c_fd: i128,
    eps: i128,
    m: i128,
    k: int,
)
    requires
        kind != ActivationKind::ReLU,
        s.s_d == s_d && s.s_b == s_b && s.s_w == s_w && s.s_v == s_v,
        c_fd == s.s_d * s.s_x,
        eps == s.s_d * s.s_x * 4,
        m == bound,
        twos(s.s_x) == twos(s.s_w),
        neuron_facts(c, lower, upper, kind, line, l, u, d, b, s, bound),
        0 <= k < 16,
    ensures
        int_value(
            critical_exprs(kind, line, s_d, s_b, s_w, s_v, c_fd, eps, m)[k],
            critical_row(w, l, u, d, b, c),
        ) == 0,
{
    let r = critical_row(w, l, u, d, b, c);
    lemma_row(w, l, u, d, b, c);
    vstd::arithmetic::power2::lemma2_to64();
    assert(c.z as int / 1 == c.z);
    let ia = c.is_active as int;
    let ins = c.inside_bit as int;
    let base = if kind is Sigmoid {
        s_v
    } else {
        0i128
    };
    if k == 0 {
        lemma_value_fd1_expr(r, c_fd, s_v, eps);
        let y = c.slack_fd1 - (c.sigma_lo_z - c.sigma_up_zmd) * c_fd + d * s_v - eps;
        assert(ia * y == 0) by (nonlinear_arith)
            requires
                ia == 0 || y == 0,
        ;
    } else if k == 1 {
        lemma_value_fd2_expr(r, c_fd, s_v, eps);
        let y = c.slack_fd2 - d * s_v + (c.sigma_up_zpd - c.sigma_lo_z) * c_fd - eps;
        assert(ia * y == 0) by (nonlinear_arith)
            requires
                ia == 0 || y == 0,
        ;
    } else if k == 2 {
        lemma_value_inside_upper_expr(r);
        lemma_value_inside_lower_expr(r);
    } else if k == 3 {
        lemma_value_gap_upper_expr(r);
        lemma_value_gap_lower_expr(r, base);
    } else if k == 4 {
        lemma_value_dz_expr(r, s_d);
    } else if k == 5 {
        lemma_value_dz_sigma_expr(r, s_v, s_w);
    } else if k == 6 {
        lemma_value_b_sigma_expr(r, line_sign(line), s_v, s_b);
    } else if k == 7 {
        lemma_value_fd1_chunk_expr(r, m);
    } else if k == 8 {
        lemma_value_fd2_chunk_expr(r, m);
    } else if k == 9 {
        lemma_value_inside_bit_expr(r);
        assert(ins * (1 - ins) == 0) by (nonlinear_arith)
            requires
                ins == 0 || ins == 1,
        ;
    } else if k == 10 {
        lemma_value_slack_pos_expr(r);
        let fa = c.factor_a as int;
        assert((2 * ins) * fa == (if fa >= 0 {
            2 * fa
        } else {
            0
        })) by (nonlinear_arith)
            requires
                ins == (if fa >= 0 {
                    1int
                } else {
                    0
                }),
        ;
    } else if k == 11 {
        lemma_value_slack_pos_chunk_expr(r, m);
    } else if k == 12 {
        lemma_value_gated_gap_expr(r);
        let fb = c.factor_b as int;
        assert(ins * fb == (if ins == 1 {
            fb
        } else {
            0
        })) by (nonlinear_arith)
            requires
                ins == 0 || ins == 1,
        ;
    } else if k == 13 {
        lemma_value_gated_gap_chunk_expr(r, m);
    } else if k == 14 {
        lemma_value_active_bit_expr(r);
        assert(ia * (1 - ia) == 0) by (nonlinear_arith)
            requires
                ia == 0 || ia == 1,
        ;
    } else {
        lemma_value_active_zero_expr(r);
        assert((1 - ia) * d == 0) by (nonlinear_arith)
            requires
                ia == 1 || d == 0,
        ;
    }
}

/// The neuron's integers meet every identity, where the table and the
/// preactivations have one scale.
pub proof fn law_neuron_meets_identities(
    lower: Seq<i128>,
    upper: Seq<i128>,
    kind: ActivationKind,
    line: SshapeLineKind,
    layer_idx: usize,
    l: int,
    u: int,
    d: int,
    b: int,
    seed: Option<i128>,
    s: CriticalScales,
    bound: int,
    w: int,
    s_d: i128,
    s_b: i128,
    s_w: i128,
    s_v: i128,
    c_fd: i128,
    eps: i128,
    m: i128,
    k: int,
)
    requires
        3 <= lower.len() <= usize::MAX,
        upper.len() == lower.len(),
        kind != ActivationKind::ReLU,
        s.s_d == s_d && s.s_b == s_b && s.s_w == s_w && s.s_v == s_v,
        c_fd == s.s_d * s.s_x,
        eps == s.s_d * s.s_x * 4,
        m == bound,
        bound > 0,
        twos(s.s_x) == twos(s.s_w),
        critical_cell(lower, upper, kind, line, layer_idx, l, u, d, b, seed, s, bound) is Ok,
        0 <= k < 16,
    ensures
        int_value(
            critical_exprs(kind, line, s_d, s_b, s_w, s_v, c_fd, eps, m)[k],
            critical_row(w, l, u, d, b, critical_cell(lower, upper, kind, line, layer_idx, l, u, d, b, seed, s, bound)->Ok_0),
        ) == 0,
{
    let c = critical_cell(lower, upper, kind, line, layer_idx, l, u, d, b, seed, s, bound)->Ok_0;
    lemma_neuron_facts(lower, upper, kind, line, layer_idx, l, u, d, b, seed, s, bound);
    lemma_facts_meet_identities(
        c,
        lower,
        upper,
        kind,
        line,
        l,
        u,
        d,
        b,
        s,
        bound,
        w,
        s_d,
        s_b,
        s_w,
        s_v,
        c_fd,
        eps,
        m,
        k,
    );
}

/// The point that a row speaks of: the table index for an upper line, and its
/// negative for a lower one.
pub open spec fn critical_point_of(line: SshapeLineKind, row: Seq<int>) -> int {
    match line {
        SshapeLineKind::Upper => row[6],
        SshapeLineKind::Lower => -row[6],
    }
}

/// The bound of the function at that point: the upper envelope, or the lower
/// one by reflection.
pub open spec fn critical_bound_of(
    kind: ActivationKind,
    line: SshapeLineKind,
    s_v: int,
    row: Seq<int>,
) -> int {
    match line {
        SshapeLineKind::Upper => row[8],
        SshapeLineKind::Lower => reflected(kind, s_v, (row[7], row[8])).0,
    }
}

/// Whether the point lies on the interval's side that the line is held at: at
/// most `u` for an upper line, and at least `l` for a lower one.
pub open spec fn critical_inside(line: SshapeLineKind, row: Seq<int>) -> bool {
    match line {
        SshapeLineKind::Upper => row[6] <= row[3],
        SshapeLineKind::Lower => -row[6] >= row[2],
    }
}

/// The identities say what they are for. A row of integers that meets them, and
/// whose range-checked columns are not negative, has two bits. The first is set
/// where the point is inside, and there an upper line is not below the
/// function's bound, and a lower line not above it. Where the second is set,
/// the line's slope matches the function's within the tolerance; where it is
/// not, the line is flat.
pub proof fn law_identities_bound_the_critical_point(
    kind: ActivationKind,
    line: SshapeLineKind,
    s_d: i128,
    s_b: i128,
    s_w: i128,
    s_v: i128,
    s_x: int,
    c_fd: i128,
    eps: i128,
    m: i128,
    row: Seq<int>,
)
    requires
        kind != ActivationKind::ReLU,
        row.len() == 35,
        s_d > 0,
        s_b > 0,
        s_w > 0,
        s_v >= 0,
        m >= 0,
        c_fd == s_d * s_x,
        eps == s_d * s_x * 4,
        meets_identities(critical_exprs(kind, line, s_d, s_b, s_w, s_v, c_fd, eps, m), row),
        row[18] >= 0 && row[20] >= 0 && row[22] >= 0,
        row[23] >= 0 && row[24] >= 0 && row[25] >= 0 && row[26] >= 0,
        row[29] >= 0 && row[30] >= 0 && row[32] >= 0 && row[33] >= 0,
    ensures
        row[27] == (if critical_inside(line, row) {
            1int
        } else {
            0
        }),
        critical_inside(line, row) ==> {
            let bound = critical_bound_of(kind, line, s_v as int, row);
            let scaled = line_scaled(
                row[4],
                critical_point_of(line, row),
                row[5],
                s_d as int,
                s_b as int,
                s_w as int,
                s_v as int,
            );
            &&& row[16] >= 0
            &&& match line {
                SshapeLineKind::Upper => bound * (s_d * s_w * s_b) <= scaled,
                SshapeLineKind::Lower => bound * (s_d * s_w * s_b) >= scaled,
            }
        },
        row[34] == 0 || row[34] == 1,
        row[34] == 1 ==> {
            &&& fd1(row[7], row[10], row[4], s_d as int, s_x, s_v as int) >= 0
            &&& fd2(row[7], row[12], row[4], s_d as int, s_x, s_v as int) >= 0
        },
        row[34] == 0 ==> row[4] == 0,
{
    let exprs = critical_exprs(kind, line, s_d, s_b, s_w, s_v, c_fd, eps, m);
    let base = if kind is Sigmoid {
        s_v
    } else {
        0i128
    };
    assert(exprs.len() == 16);
    assert forall|k: int| 0 <= k < 16 implies int_value(#[trigger] exprs[k], row) == 0 by {}
    lemma_value_fd1_expr(row, c_fd, s_v, eps);
    lemma_value_fd2_expr(row, c_fd, s_v, eps);
    lemma_value_inside_upper_expr(row);
    lemma_value_inside_lower_expr(row);
    lemma_value_gap_upper_expr(row);
    lemma_value_gap_lower_expr(row, base);
    lemma_value_dz_expr(row, s_d);
    lemma_value_dz_sigma_expr(row, s_v, s_w);
    lemma_value_b_sigma_expr(row, line_sign(line), s_v, s_b);
    lemma_value_fd1_chunk_expr(row, m);
    lemma_value_fd2_chunk_expr(row, m);
    lemma_value_inside_bit_expr(row);
    lemma_value_slack_pos_expr(row);
    lemma_value_slack_pos_chunk_expr(row, m);
    lemma_value_gated_gap_expr(row);
    lemma_value_gated_gap_chunk_expr(row, m);
    lemma_value_active_bit_expr(row);
    lemma_value_active_zero_expr(row);
    assert(int_value(exprs[0], row) == 0 && int_value(exprs[1], row) == 0);
    assert(int_value(exprs[2], row) == 0 && int_value(exprs[3], row) == 0);
    assert(int_value(exprs[4], row) == 0 && int_value(exprs[5], row) == 0);
    assert(int_value(exprs[6], row) == 0 && int_value(exprs[7], row) == 0);
    assert(int_value(exprs[8], row) == 0 && int_value(exprs[9], row) == 0);
    assert(int_value(exprs[10], row) == 0 && int_value(exprs[11], row) == 0);
    assert(int_value(exprs[12], row) == 0 && int_value(exprs[13], row) == 0);
    assert(int_value(exprs[14], row) == 0 && int_value(exprs[15], row) == 0);
    let (inside, active) = (row[27], row[34]);
    lemma_bit(inside);
    lemma_bit(active);
    lemma_joined_chunks(row[13], row[23], row[24], m as int);
    lemma_joined_chunks(row[14], row[25], row[26], m as int);
    lemma_joined_chunks(row[28], row[29], row[30], m as int);
    lemma_joined_chunks(row[31], row[32], row[33], m as int);
    lemma_inside_bit(inside, row[15], row[28]);
    lemma_gated(inside, row[16]);
    let y1 = ((row[13] - ((row[7] - row[10]) * c_fd)) + (row[4] * s_v)) - eps;
    let y2 = ((row[14] - (row[4] * s_v)) + ((row[12] - row[7]) * c_fd)) - eps;
    lemma_gated(active, y1);
    lemma_gated(active, y2);
    lemma_gated(1 - active, row[4]);
    match line {
        SshapeLineKind::Upper => {
            lemma_rounded_line(
                false,
                row[4],
                row[6],
                row[5],
                row[17],
                row[19],
                row[21],
                row[8],
                s_d as int,
                s_b as int,
                s_w as int,
                s_v as int,
            );
        },
        SshapeLineKind::Lower => {
            lemma_negated(row[4], row[6]);
            lemma_negated(row[17], s_d as int);
            lemma_negated(row[17], s_v as int);
            lemma_negated(row[19], s_w as int);
            lemma_rounded_line(
                true,
                row[4],
                -row[6],
                row[5],
                -row[17],
                -row[19],
                row[21],
                base - row[8],
                s_d as int,
                s_b as int,
                s_w as int,
                s_v as int,
            );
        },
    }
}

/// A number that annihilates its complement is a bit.
proof fn lemma_bit(x: int)
    requires
        x * (1 - x) == 0,
    ensures
        x == 0 || x == 1,
{
    assert(x == 0 || x == 1) by (nonlinear_arith)
        requires
            x * (1 - x) == 0,
    ;
}

/// A number with chunks that are not negative is not negative.
proof fn lemma_joined_chunks(x: int, high: int, low: int, m: int)
    requires
        x - high * m - low == 0,
        high >= 0,
        low >= 0,
        m >= 0,
    ensures
        x >= 0,
{
    assert(high * m >= 0) by (nonlinear_arith)
        requires
            high >= 0,
            m >= 0,
    ;
}

/// A product with a bit.
proof fn lemma_gated(bit: int, x: int)
    requires
        bit == 0 || bit == 1,
    ensures
        bit * x == (if bit == 1 {
            x
        } else {
            0
        }),
{
    assert(bit * x == (if bit == 1 {
        x
    } else {
        0
    })) by (nonlinear_arith)
        requires
            bit == 0 || bit == 1,
    ;
}

/// The bit with a slack that is not negative says whether a factor is not
/// negative.
proof fn lemma_inside_bit(bit: int, factor: int, slack: int)
    requires
        bit == 0 || bit == 1,
        (((slack - ((2 * bit) * factor)) + factor) + 1) - bit == 0,
        slack >= 0,
    ensures
        bit == (if factor >= 0 {
            1int
        } else {
            0
        }),
{
    assert((2 * bit) * factor == (if bit == 1 {
        2 * factor
    } else {
        0
    })) by (nonlinear_arith)
        requires
            bit == 0 || bit == 1,
    ;
}

/// A product's sign can be taken out on either side.
proof fn lemma_negated(x: int, y: int)
    ensures
        (-x) * y == -(x * y),
        x * (-y) == -(x * y),
{
    assert((-x) * y == -(x * y)) by (nonlinear_arith);
    assert(x * (-y) == -(x * y)) by (nonlinear_arith);
}

} // verus!
