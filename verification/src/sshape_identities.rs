//! The identities that the S-shape endpoint gadget folds into one sumcheck.
//!
//! A row holds, after the weight and the mask:
//!
//! ```text
//! 2 l   3 d   4 b   5 abs_l   6 sign   7 sigma_upper   8 sigma_lower
//! 9 dx_step_1   10 dx_step_1_rem   11 dx_sigma_code   12 dx_sigma_rem
//! 13 b_sigma_code   14 b_sigma_rem   15 diff
//! ```

use crate::columns::fits;
use crate::expr::{Expr, e_col, e_diff, e_num, e_prod, e_sum, expr_degree, int_value, top_degree};
use crate::network::ActivationKind;
use crate::params::SigmaTables;
use crate::sshape_helpers::{
    lemma_ceil, lemma_floor, lemma_rounded_line, line_scaled, quot, quot_rem, split_step,
};
use crate::sshape_witness::{
    ScaleCodes, SplitArithCellWitness, SshapeLineKind, abs_int, endpoint_cell, sigma_used,
};
use vstd::arithmetic::power2::pow2;
use vstd::prelude::*;

verus! {

/// `1` for an upper line, which is rounded down, and `-1` for a lower one.
pub open spec fn line_sign(line: SshapeLineKind) -> i128 {
    match line {
        SshapeLineKind::Upper => 1,
        SshapeLineKind::Lower => -1i128,
    }
}

/// `sigma_used` as an expression in the row.
pub open spec fn used_expr(kind: ActivationKind, line: SshapeLineKind, s_v: i128) -> Expr {
    let (same, opp) = match line {
        SshapeLineKind::Upper => (e_col(7), e_col(8)),
        SshapeLineKind::Lower => (e_col(8), e_col(7)),
    };
    let neg = match kind {
        ActivationKind::Sigmoid => e_diff(e_num(s_v), opp),
        _ => e_diff(e_num(0), opp),
    };
    e_sum(same, e_prod(e_col(6), e_diff(neg, same)))
}

/// `d l - dx_step_1 s_d -+ dx_step_1_rem`.
pub open spec fn step_expr(sign: i128, s_d: i128) -> Expr {
    e_diff(
        e_diff(e_prod(e_col(3), e_col(2)), e_prod(e_col(9), e_num(s_d))),
        e_prod(e_num(sign), e_col(10)),
    )
}

/// `dx_step_1 s_v - dx_sigma_code s_w -+ dx_sigma_rem`.
pub open spec fn dx_expr(sign: i128, s_v: i128, s_w: i128) -> Expr {
    e_diff(
        e_diff(e_prod(e_col(9), e_num(s_v)), e_prod(e_col(11), e_num(s_w))),
        e_prod(e_num(sign), e_col(12)),
    )
}

/// `b s_v - b_sigma_code s_b -+ b_sigma_rem`.
pub open spec fn offset_expr(sign: i128, s_v: i128, s_b: i128) -> Expr {
    e_diff(
        e_diff(e_prod(e_col(4), e_num(s_v)), e_prod(e_col(13), e_num(s_b))),
        e_prod(e_num(sign), e_col(14)),
    )
}

/// `+-(dx_sigma_code + b_sigma_code - sigma_used) - diff`.
pub open spec fn gap_expr(kind: ActivationKind, line: SshapeLineKind, s_v: i128) -> Expr {
    e_diff(
        e_prod(
            e_num(line_sign(line)),
            e_diff(e_sum(e_col(11), e_col(13)), used_expr(kind, line, s_v)),
        ),
        e_col(15),
    )
}

/// `sign (1 - sign)`.
pub open spec fn sign_expr() -> Expr {
    e_prod(e_col(6), e_diff(e_num(1), e_col(6)))
}

/// `l (s_x / s_w) - abs_l + 2 sign abs_l`.
pub open spec fn abs_expr(ratio: i128) -> Expr {
    e_sum(
        e_diff(e_prod(e_col(2), e_num(ratio)), e_col(5)),
        e_prod(e_prod(e_num(2), e_col(6)), e_col(5)),
    )
}

/// The six identities.
pub open spec fn endpoint_exprs(
    kind: ActivationKind,
    line: SshapeLineKind,
    s_d: i128,
    s_b: i128,
    s_w: i128,
    s_v: i128,
    ratio: i128,
) -> Seq<Expr> {
    let sign = line_sign(line);
    seq![
        step_expr(sign, s_d),
        dx_expr(sign, s_v, s_w),
        offset_expr(sign, s_v, s_b),
        gap_expr(kind, line, s_v),
        sign_expr(),
        abs_expr(ratio),
    ]
}

/// Build the six identities.
pub fn endpoint_identities(
    kind: ActivationKind,
    line: SshapeLineKind,
    s_d: i128,
    s_b: i128,
    s_w: i128,
    s_v: i128,
    ratio: i128,
) -> (r: Vec<Expr>)
    ensures
        r@ == endpoint_exprs(kind, line, s_d, s_b, s_w, s_v, ratio),
{
    let sign: i128 = match line {
        SshapeLineKind::Upper => 1,
        SshapeLineKind::Lower => -1,
    };
    let step: Expr = e_diff(
        e_diff(e_prod(e_col(3), e_col(2)), e_prod(e_col(9), e_num(s_d))),
        e_prod(e_num(sign), e_col(10)),
    );
    let dx: Expr = e_diff(
        e_diff(e_prod(e_col(9), e_num(s_v)), e_prod(e_col(11), e_num(s_w))),
        e_prod(e_num(sign), e_col(12)),
    );
    let offset: Expr = e_diff(
        e_diff(e_prod(e_col(4), e_num(s_v)), e_prod(e_col(13), e_num(s_b))),
        e_prod(e_num(sign), e_col(14)),
    );
    let (same, opp): (usize, usize) = match line {
        SshapeLineKind::Upper => (7, 8),
        SshapeLineKind::Lower => (8, 7),
    };
    let neg: Expr = match kind {
        ActivationKind::Sigmoid => e_diff(e_num(s_v), e_col(opp)),
        _ => e_diff(e_num(0), e_col(opp)),
    };
    let used: Expr = e_sum(e_col(same), e_prod(e_col(6), e_diff(neg, e_col(same))));
    let gap: Expr = e_diff(
        e_prod(e_num(sign), e_diff(e_sum(e_col(11), e_col(13)), used)),
        e_col(15),
    );
    let bit: Expr = e_prod(e_col(6), e_diff(e_num(1), e_col(6)));
    let abs: Expr = e_sum(
        e_diff(e_prod(e_col(2), e_num(ratio)), e_col(5)),
        e_prod(e_prod(e_num(2), e_col(6)), e_col(5)),
    );
    let out: Vec<Expr> = vec![step, dx, offset, gap, bit, abs];
    assert(out@ =~= endpoint_exprs(kind, line, s_d, s_b, s_w, s_v, ratio));
    out
}

/// The identities are of degree two.
pub proof fn lemma_endpoint_degree(
    kind: ActivationKind,
    line: SshapeLineKind,
    s_d: i128,
    s_b: i128,
    s_w: i128,
    s_v: i128,
    ratio: i128,
)
    ensures
        top_degree(endpoint_exprs(kind, line, s_d, s_b, s_w, s_v, ratio), 6) <= 2,
{
    reveal_with_fuel(top_degree, 7);
    reveal_with_fuel(expr_degree, 8);
}

/// A row of integers: the weight, the mask, the preactivation, the line, and
/// the cell's integers.
pub open spec fn endpoint_row(w: int, l: int, d: int, b: int, c: SplitArithCellWitness) -> Seq<
    int,
> {
    seq![
        w,
        1,
        l,
        d,
        b,
        c.abs_l as int,
        c.sign as int,
        c.sigma_upper_at_abs as int,
        c.sigma_lower_at_abs as int,
        c.dx_step_1 as int,
        c.dx_step_1_rem as int,
        c.dx_sigma_code as int,
        c.dx_sigma_rem as int,
        c.b_sigma_code as int,
        c.b_sigma_rem as int,
        c.diff as int,
    ]
}

proof fn lemma_split_values(sign: i128, s_d: i128, s_b: i128, s_w: i128, s_v: i128, row: Seq<int>)
    requires
        row.len() == 16,
    ensures
        int_value(step_expr(sign, s_d), row) == row[3] * row[2] - row[9] * s_d - sign * row[10],
        int_value(dx_expr(sign, s_v, s_w), row) == row[9] * s_v - row[11] * s_w - sign * row[12],
        int_value(offset_expr(sign, s_v, s_b), row) == row[4] * s_v - row[13] * s_b - sign
            * row[14],
{
    reveal_with_fuel(int_value, 5);
}

proof fn lemma_other_values(
    kind: ActivationKind,
    line: SshapeLineKind,
    s_v: i128,
    ratio: i128,
    row: Seq<int>,
)
    requires
        row.len() == 16,
        kind != ActivationKind::ReLU,
    ensures
        int_value(gap_expr(kind, line, s_v), row) == line_sign(line) * (row[11] + row[13]
            - sigma_used(kind, line, row[7], row[8], row[6], s_v as int)) - row[15],
        int_value(sign_expr(), row) == row[6] * (1 - row[6]),
        int_value(abs_expr(ratio), row) == row[2] * ratio - row[5] + (2 * row[6]) * row[5],
{
    reveal_with_fuel(int_value, 9);
}

/// The integers of a cell meet every identity.
pub proof fn law_cell_meets_identities(
    pre: SigmaTables,
    kind: ActivationKind,
    line: SshapeLineKind,
    w: int,
    l: int,
    d: int,
    b: int,
    s_d: i128,
    s_b: i128,
    s_w: i128,
    s_v: i128,
    s_w_log2: int,
    ratio: i128,
    k: int,
)
    requires
        kind != ActivationKind::ReLU,
        fits(l),
        0 <= s_w_log2 <= pre.s_x_log2,
        ratio == pow2((pre.s_x_log2 - s_w_log2) as nat),
        endpoint_cell(
            pre,
            kind,
            line,
            l,
            d,
            b,
            (ScaleCodes {
                s_d: s_d as int,
                s_b: s_b as int,
                s_w: s_w as int,
                s_v: s_v as int,
                s_w_log2,
            }),
        ) is Ok,
        0 <= k < 6,
    ensures
        int_value(
            endpoint_exprs(kind, line, s_d, s_b, s_w, s_v, ratio)[k],
            endpoint_row(
                w,
                l,
                d,
                b,
                endpoint_cell(
                    pre,
                    kind,
                    line,
                    l,
                    d,
                    b,
                    (ScaleCodes {
                        s_d: s_d as int,
                        s_b: s_b as int,
                        s_w: s_w as int,
                        s_v: s_v as int,
                        s_w_log2,
                    }),
                )->Ok_0,
            ),
        ) == 0,
{
    let s = ScaleCodes {
        s_d: s_d as int,
        s_b: s_b as int,
        s_w: s_w as int,
        s_v: s_v as int,
        s_w_log2,
    };
    let c = endpoint_cell(pre, kind, line, l, d, b, s)->Ok_0;
    let row = endpoint_row(w, l, d, b, c);
    let up = line is Lower;
    let sign = line_sign(line);
    let step = split_step(up, d, l, s.s_d);
    lemma_split_values(sign, s_d, s_b, s_w, s_v, row);
    lemma_other_values(kind, line, s_v, ratio, row);
    lemma_quot_fits(up, d * l, s.s_d);
    lemma_quot_fits(up, step * s.s_v, s.s_w);
    lemma_quot_fits(up, b * s.s_v, s.s_b);
    if k == 0 {
        assert(d * l - step * s.s_d - sign * quot_rem(up, d * l, s.s_d) == 0);
    } else if k == 1 {
    } else if k == 2 {
    } else if k == 3 {
    } else if k == 4 {
        let x = row[6];
        assert(x == 0 || x == 1);
        assert(x * (1 - x) == 0) by (nonlinear_arith)
            requires
                x == 0 || x == 1,
        ;
    } else {
        let (x, a) = (row[6], row[5]);
        let kk = pre.s_x_log2 - s_w_log2;
        assert(a == abs_int(l) * pow2(kk as nat));
        if l < 0 {
            assert((-l) * ratio == -(l * ratio)) by (nonlinear_arith);
            assert((2 * x) * a == 2 * a) by (nonlinear_arith)
                requires
                    x == 1,
            ;
        } else {
            assert((2 * x) * a == 0) by (nonlinear_arith)
                requires
                    x == 0,
            ;
        }
    }
}

/// Whether a row of integers meets every identity.
pub open spec fn meets_identities(exprs: Seq<Expr>, row: Seq<int>) -> bool {
    forall|k: int| 0 <= k < exprs.len() ==> int_value(#[trigger] exprs[k], row) == 0
}

/// The identities say what they are for: a row of integers that meets them, and
/// whose remainders and difference are not negative, has a sign bit, the size
/// of its preactivation as table index, and an upper line that is not below the
/// envelope at the preactivation, or a lower line that is not above it.
pub proof fn law_identities_bound_the_envelope(
    kind: ActivationKind,
    line: SshapeLineKind,
    s_d: i128,
    s_b: i128,
    s_w: i128,
    s_v: i128,
    ratio: i128,
    row: Seq<int>,
)
    requires
        kind != ActivationKind::ReLU,
        row.len() == 16,
        s_d > 0,
        s_b > 0,
        s_w > 0,
        s_v >= 0,
        ratio > 0,
        meets_identities(endpoint_exprs(kind, line, s_d, s_b, s_w, s_v, ratio), row),
        row[5] >= 0,
        row[10] >= 0,
        row[12] >= 0,
        row[14] >= 0,
        row[15] >= 0,
    ensures
        row[6] == 0 || row[6] == 1,
        row[5] == abs_int(row[2]) * ratio,
        row[2] > 0 ==> row[6] == 0,
        row[2] < 0 ==> row[6] == 1,
        ({
            let used = sigma_used(kind, line, row[7], row[8], row[6], s_v as int);
            let scaled = line_scaled(
                row[3],
                row[2],
                row[4],
                s_d as int,
                s_b as int,
                s_w as int,
                s_v as int,
            );
            match line {
                SshapeLineKind::Upper => used * (s_d * s_w * s_b) <= scaled,
                SshapeLineKind::Lower => used * (s_d * s_w * s_b) >= scaled,
            }
        }),
{
    let exprs = endpoint_exprs(kind, line, s_d, s_b, s_w, s_v, ratio);
    let sign = line_sign(line);
    lemma_split_values(sign, s_d, s_b, s_w, s_v, row);
    lemma_other_values(kind, line, s_v, ratio, row);
    assert(int_value(exprs[0], row) == 0 && int_value(exprs[1], row) == 0);
    assert(int_value(exprs[2], row) == 0 && int_value(exprs[3], row) == 0);
    assert(int_value(exprs[4], row) == 0 && int_value(exprs[5], row) == 0);
    let (x, a, l) = (row[6], row[5], row[2]);
    assert(x == 0 || x == 1) by (nonlinear_arith)
        requires
            x * (1 - x) == 0,
    ;
    assert((2 * x) * a == (if x == 1 {
        2 * a
    } else {
        0
    })) by (nonlinear_arith)
        requires
            x == 0 || x == 1,
    ;
    assert((-l) * ratio == -(l * ratio)) by (nonlinear_arith);
    assert(l > 0 ==> l * ratio > 0) by (nonlinear_arith)
        requires
            ratio > 0,
    ;
    assert(l < 0 ==> l * ratio < 0) by (nonlinear_arith)
        requires
            ratio > 0,
    ;
    let used = sigma_used(kind, line, row[7], row[8], x, s_v as int);
    lemma_rounded_line(
        line is Lower,
        row[3],
        l,
        row[4],
        row[9],
        row[11],
        row[13],
        used,
        s_d as int,
        s_b as int,
        s_w as int,
        s_v as int,
    );
}

/// A quotient of an `i128` by a positive divisor is an `i128`, and so is its
/// remainder; together they give back the dividend.
pub proof fn lemma_quot_fits(up: bool, n: int, d: int)
    requires
        fits(n),
        fits(d),
        d > 0,
    ensures
        fits(quot(up, n, d)),
        0 <= quot_rem(up, n, d) < d,
        n - quot(up, n, d) * d == (if up {
            -quot_rem(up, n, d)
        } else {
            quot_rem(up, n, d)
        }),
{
    lemma_floor(n, d);
    lemma_ceil(n, d);
}

} // verus!
