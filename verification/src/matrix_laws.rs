//! Laws of matrices as tables: products, repeated rows, and weighted sums.

use crate::eq_two_product::{EqTwoProduct, eq2_columns, eq2_sum};
use crate::field::{all_in_field, fadd, fmul, fsub, in_field};
use crate::mle::{
    eq_table, fold, fold_many, lemma_fold_many_len, lemma_pow2_split, mle, rows_at, stretched,
    tiled,
};
use crate::mle_laws::{
    combined, constant, dot, law_mle_constant, law_mle_is_eq_sum, law_mle_linear,
    law_partial_eval_msb, lemma_eq_weight_in_field, lemma_fold_many_concat,
    lemma_fold_many_in_field, lemma_fold_many_strided, lemma_mle_in_field, strided,
};
use crate::ring::{
    group_in_field, group_residue, lemma_commute, lemma_fadd_zero, lemma_fmul_one,
    lemma_residue_id,
};
use crate::sumcheck::{cell_at, total};
use vstd::arithmetic::div_mod::{lemma_div_pos_is_pos, lemma_fundamental_div_mod, lemma_fundamental_div_mod_converse, lemma_mod_bound, lemma_mod_multiples_vanish, lemma_small_mod};
use vstd::arithmetic::power2::{lemma_pow2_pos, lemma_pow2_unfold, pow2};
use vstd::prelude::*;

verus! {

// ---- Products of matrices ----

/// Entry `(i, c)` of a product: the sum over `j < n` of `a[i][j] w[j][c]`, for
/// tables with rows of `inner` and of `cols` entries.
pub open spec fn product_entry(
    a: Seq<int>,
    w: Seq<int>,
    inner: nat,
    cols: nat,
    i: int,
    c: int,
    n: nat,
) -> int
    decreases n,
{
    if n == 0 {
        0
    } else {
        fadd(
            product_entry(a, w, inner, cols, i, c, (n - 1) as nat),
            fmul(a[i * inner + (n - 1)], w[(n - 1) * cols + c]),
        )
    }
}

/// The product of a table with rows of `inner` entries and one with rows of
/// `cols` entries.
pub open spec fn product_table(a: Seq<int>, w: Seq<int>, rows: nat, inner: nat, cols: nat) -> Seq<
    int,
> {
    Seq::new(
        rows * cols,
        |k: int| product_entry(a, w, inner, cols, k / (cols as int), k % (cols as int), inner),
    )
}

/// One step of folding an entry of a product.
proof fn lemma_fold_product_entry(
    a: Seq<int>,
    w: Seq<int>,
    rows: nat,
    inner: nat,
    cols: nat,
    i: int,
    c: int,
    x: int,
    n: nat,
)
    requires
        a.len() == 2 * rows * inner,
        all_in_field(a),
        w.len() == inner * cols,
        all_in_field(w),
        in_field(x),
        0 <= i < rows,
        0 <= c < cols,
        n <= inner,
    ensures
        fadd(
            product_entry(a, w, inner, cols, i, c, n),
            fmul(
                x,
                fsub(
                    product_entry(a, w, inner, cols, rows + i, c, n),
                    product_entry(a, w, inner, cols, i, c, n),
                ),
            ),
        ) == product_entry(fold(a, x), w, inner, cols, i, c, n),
    decreases n,
{
    broadcast use group_in_field;

    if n == 0 {
        lemma_fadd_zero(0);
        lemma_fmul_one(x);
    } else {
        let m = (n - 1) as nat;
        lemma_fold_product_entry(a, w, rows, inner, cols, i, c, x, m);
        let lo = i * inner + m;
        let hi = (rows + i) * inner + m;
        assert(0 <= lo < rows * inner && hi == rows * inner + lo && a.len() / 2 == rows * inner)
            by (nonlinear_arith)
            requires
                0 <= i < rows,
                0 <= m < inner,
                lo == i * inner + m,
                hi == (rows + i) * inner + m,
                a.len() == 2 * rows * inner,
        ;
        let wk = m * cols + c;
        assert(0 <= wk < inner * cols) by (nonlinear_arith)
            requires
                0 <= c < cols,
                0 <= m < inner,
                wk == m * cols + c,
        ;
        assert(a.len() == 2 * (rows * inner)) by (nonlinear_arith)
            requires
                a.len() == 2 * rows * inner,
        ;
        assert(in_field(a[lo]) && in_field(a[hi]) && in_field(w[wk]));
        assert(fold(a, x)[lo] == fadd(a[lo], fmul(x, fsub(a[hi], a[lo]))));
        lemma_fold_term(
            product_entry(a, w, inner, cols, i, c, m),
            product_entry(a, w, inner, cols, rows + i, c, m),
            a[lo],
            a[hi],
            w[wk],
            x,
        );
    }
}

proof fn lemma_fold_term(s: int, t: int, lo: int, hi: int, w: int, x: int)
    requires
        in_field(s),
        in_field(t),
        in_field(lo),
        in_field(hi),
        in_field(w),
        in_field(x),
    ensures
        fadd(
            fadd(s, fmul(lo, w)),
            fmul(x, fsub(fadd(t, fmul(hi, w)), fadd(s, fmul(lo, w)))),
        ) == fadd(
            fadd(s, fmul(x, fsub(t, s))),
            fmul(fadd(lo, fmul(x, fsub(hi, lo))), w),
        ),
{
    broadcast use group_residue;

    lemma_residue_id(s);
    lemma_residue_id(t);
    lemma_residue_id(lo);
    lemma_residue_id(hi);
    lemma_residue_id(w);
    lemma_residue_id(x);
    let (lw, hw) = (lo * w, hi * w);
    assert(x * ((t + hw) - (s + lw)) == x * (t - s) + x * (hw - lw)) by (nonlinear_arith);
    assert((lo + x * (hi - lo)) * w == lw + x * (hw - lw)) by (nonlinear_arith)
        requires
            lw == lo * w,
            hw == hi * w,
    ;
}

/// Binding a row variable of a product binds it in the left factor.
proof fn lemma_fold_product(a: Seq<int>, w: Seq<int>, rows: nat, inner: nat, cols: nat, x: int)
    requires
        a.len() == 2 * rows * inner,
        all_in_field(a),
        w.len() == inner * cols,
        all_in_field(w),
        in_field(x),
        cols > 0,
    ensures
        fold(product_table(a, w, 2 * rows, inner, cols), x) == product_table(
            fold(a, x),
            w,
            rows,
            inner,
            cols,
        ),
{
    let p = product_table(a, w, 2 * rows, inner, cols);
    let f = fold(p, x);
    let q = product_table(fold(a, x), w, rows, inner, cols);
    assert((2 * rows) * cols == 2 * (rows * cols)) by (nonlinear_arith);
    assert(f.len() == rows * cols);
    assert forall|k: int| 0 <= k < rows * cols implies #[trigger] f[k] == q[k] by {
        let d = cols as int;
        let (i, c) = (k / d, k % d);
        lemma_fundamental_div_mod(k, d);
        lemma_mod_bound(k, d);
        lemma_div_pos_is_pos(k, d);
        assert(i < rows) by (nonlinear_arith)
            requires
                k == d * i + c,
                0 <= c,
                k < rows * d,
                d > 0,
        ;
        let up = rows * cols + k;
        assert(up == (rows + i) * d + c) by (nonlinear_arith)
            requires
                k == d * i + c,
                d == cols,
                up == rows * cols + k,
        ;
        lemma_fundamental_div_mod_converse(up, d, rows + i, c);
        lemma_fold_product_entry(a, w, rows, inner, cols, i, c, x, inner);
    }
    assert(f =~= q);
}

/// Binding the row variables of a product binds them in the left factor.
proof fn lemma_fold_many_product(
    a: Seq<int>,
    w: Seq<int>,
    rest: nat,
    inner: nat,
    cols: nat,
    rs: Seq<int>,
)
    requires
        a.len() == pow2(rs.len() + rest) * inner,
        all_in_field(a),
        w.len() == inner * cols,
        all_in_field(w),
        all_in_field(rs),
        cols > 0,
    ensures
        fold_many(product_table(a, w, pow2(rs.len() + rest), inner, cols), rs) == product_table(
            fold_many(a, rs),
            w,
            pow2(rest),
            inner,
            cols,
        ),
        fold_many(a, rs).len() == pow2(rest) * inner,
        all_in_field(fold_many(a, rs)),
    decreases rs.len(),
{
    lemma_fold_many_in_field(a, rs);
    if rs.len() > 0 {
        let q = rs.drop_last();
        assert(in_field(rs.last()));
        lemma_fold_many_product(a, w, rest + 1, inner, cols, q);
        lemma_pow2_unfold(rest + 1);
        let b = fold_many(a, q);
        lemma_fold_product(b, w, pow2(rest), inner, cols, rs.last());
        assert((2 * pow2(rest)) * inner == 2 * (pow2(rest) * inner)) by (nonlinear_arith);
    }
}

/// A product's single row, summed over the first `n` rows of the right factor.
spec fn partial_row(v: Seq<int>, w: Seq<int>, inner: nat, cols: nat, n: nat) -> Seq<int> {
    Seq::new(cols, |c: int| product_entry(v, w, inner, cols, 0, c, n))
}

/// A row vector times a matrix extends to the products with the rows'
/// extensions.
proof fn lemma_row_product(v: Seq<int>, w: Seq<int>, inner: nat, ro: Seq<int>, n: nat)
    requires
        v.len() == inner,
        all_in_field(v),
        w.len() == inner * pow2(ro.len()),
        all_in_field(w),
        all_in_field(ro),
        n <= inner,
    ensures
        mle(partial_row(v, w, inner, pow2(ro.len()), n), ro) == dot(v, rows_at(w, ro), n),
    decreases n,
{
    broadcast use group_in_field;

    let cols = pow2(ro.len());
    let d = cols as int;
    let p = partial_row(v, w, inner, cols, n);
    lemma_pow2_pos(ro.len());
    if n == 0 {
        assert(p =~= constant(0, cols));
        law_mle_constant(0, ro);
    } else {
        let m = (n - 1) as nat;
        lemma_row_product(v, w, inner, ro, m);
        let before = partial_row(v, w, inner, cols, m);
        assert(m * d + d <= w.len() && 0 <= m * d) by (nonlinear_arith)
            requires
                m < inner,
                w.len() == inner * d,
                d > 0,
        ;
        let row = w.subrange(m * d, m * d + d);
        assert(in_field(v[m as int]));
        assert(0 * inner + m == m) by (nonlinear_arith);
        assert forall|c: int| 0 <= c < cols implies in_field(#[trigger] before[c]) by {
            lemma_fadd_zero(0);
        }
        assert forall|c: int| 0 <= c < cols implies #[trigger] p[c] == combined(
            v[m as int],
            row,
            before,
        )[c] by {
            assert(row[c] == w[m * d + c]);
            lemma_commute(before[c], fmul(v[m as int], row[c]));
        }
        assert(p =~= combined(v[m as int], row, before));
        law_mle_linear(v[m as int], row, before, ro);
        assert(w.len() / cols == inner) by {
            assert(w.len() == d * inner) by (nonlinear_arith)
                requires
                    w.len() == inner * d,
            ;
            lemma_fundamental_div_mod_converse(w.len() as int, d, inner as int, 0);
        }
        assert(rows_at(w, ro)[m as int] == mle(row, ro));
        lemma_commute(fmul(v[m as int], mle(row, ro)), mle(before, ro));
    }
}

/// A product of matrices extends to a sum over the shared axis: of the left
/// factor with its row variables bound, times the right factor with its column
/// variables bound.
pub proof fn law_matrix_product(a: Seq<int>, w: Seq<int>, rs: Seq<int>, ro: Seq<int>, inner: nat)
    requires
        a.len() == pow2(rs.len()) * inner,
        w.len() == inner * pow2(ro.len()),
        all_in_field(a),
        all_in_field(w),
        all_in_field(rs),
        all_in_field(ro),
    ensures
        mle(product_table(a, w, pow2(rs.len()), inner, pow2(ro.len())), rs + ro) == dot(
            fold_many(a, rs),
            rows_at(w, ro),
            inner,
        ),
{
    let cols = pow2(ro.len());
    lemma_pow2_pos(ro.len());
    vstd::arithmetic::power2::lemma2_to64();
    lemma_fold_many_product(a, w, 0, inner, cols, rs);
    let v = fold_many(a, rs);
    assert(1 * inner == inner && 1 * cols == cols) by (nonlinear_arith);
    let p = product_table(v, w, 1, inner, cols);
    assert forall|c: int| 0 <= c < cols implies #[trigger] p[c] == partial_row(
        v,
        w,
        inner,
        cols,
        inner,
    )[c] by {
        lemma_fundamental_div_mod_converse(c, cols as int, 0, c);
    }
    assert(p =~= partial_row(v, w, inner, cols, inner));
    lemma_fold_many_concat(product_table(a, w, pow2(rs.len()), inner, cols), rs, ro);
    lemma_row_product(v, w, inner, ro, inner);
}

proof fn lemma_entry_is_strided(w: Seq<int>, a: Seq<int>, cols: nat, c: int, n: nat)
    requires
        n <= pow2(a.len()),
    ensures
        product_entry(eq_table(a), w, pow2(a.len()), cols, 0, c, n) == strided(
            a,
            w,
            cols as int,
            c,
            n,
        ),
    decreases n,
{
    if n > 0 {
        lemma_entry_is_strided(w, a, cols, c, (n - 1) as nat);
        assert(0 * pow2(a.len()) + (n - 1) == n - 1) by (nonlinear_arith);
    }
}

/// Fixing the trailing variables and then evaluating the rest is evaluating at
/// the joint point.
pub proof fn law_partial_eval_lsb(t: Seq<int>, a: Seq<int>, b: Seq<int>)
    requires
        t.len() == pow2(a.len() + b.len()),
        all_in_field(t),
        all_in_field(a),
        all_in_field(b),
    ensures
        mle(rows_at(t, b), a) == mle(t, a + b),
{
    broadcast use group_in_field;

    let inner = pow2(a.len());
    let cols = pow2(b.len());
    lemma_pow2_split(a.len(), b.len());
    vstd::arithmetic::power2::lemma2_to64();
    let e = eq_table(a);
    let none = Seq::<int>::empty();
    assert forall|i: int| 0 <= i < e.len() implies in_field(#[trigger] e[i]) by {
        lemma_eq_weight_in_field(a, i);
    }
    assert(1 * inner == inner && 1 * cols == cols) by (nonlinear_arith);
    law_matrix_product(e, t, none, b, inner);
    let p = product_table(e, t, 1, inner, cols);
    let f = fold_many(t, a);
    lemma_fold_many_len(t, a, b.len());
    assert forall|c: int| 0 <= c < cols implies #[trigger] p[c] == f[c] by {
        lemma_fundamental_div_mod_converse(c, cols as int, 0, c);
        lemma_entry_is_strided(t, a, cols, c, inner);
        lemma_fold_many_strided(t, a, b.len(), c);
    }
    assert(p =~= f);
    assert(none + b =~= b);
    law_partial_eval_msb(t, a, b);
    let rows = rows_at(t, b);
    assert(t.len() / cols == inner) by {
        assert(t.len() == cols * inner) by (nonlinear_arith)
            requires
                t.len() == inner * cols,
        ;
        lemma_fundamental_div_mod_converse(t.len() as int, cols as int, inner as int, 0);
    }
    assert forall|i: int| 0 <= i < rows.len() implies in_field(#[trigger] rows[i]) by {
        let d = cols as int;
        assert(0 <= i * d && i * d + d <= t.len()) by (nonlinear_arith)
            requires
                0 <= i < inner,
                t.len() == inner * d,
                d > 0,
        ;
        lemma_mle_in_field(t.subrange(i * d, i * d + d), b);
    }
    law_mle_is_eq_sum(rows, a);
}

// ---- Repeated rows and entries ----

/// A row repeated along the leading variables extends to the row's extension.
pub proof fn law_mle_tiled(row: Seq<int>, a: Seq<int>, b: Seq<int>)
    requires
        row.len() == pow2(b.len()),
        all_in_field(row),
        all_in_field(a),
        all_in_field(b),
    ensures
        mle(tiled(row, pow2(a.len())), a + b) == mle(row, b),
{
    lemma_pow2_pos(b.len());
    lemma_fold_many_concat(tiled(row, pow2(a.len())), a, b);
    lemma_fold_tiled(row, a, 0);
    vstd::arithmetic::power2::lemma2_to64();
    assert(1 * row.len() == row.len()) by (nonlinear_arith);
    assert forall|k: int| 0 <= k < row.len() implies #[trigger] tiled(row, 1)[k] == row[k] by {
        lemma_small_mod(k as nat, row.len());
    }
    assert(tiled(row, 1) =~= row);
}

proof fn lemma_fold_tiled(row: Seq<int>, a: Seq<int>, rest: nat)
    requires
        row.len() > 0,
        all_in_field(row),
        all_in_field(a),
    ensures
        fold_many(tiled(row, pow2(a.len() + rest)), a) == tiled(row, pow2(rest)),
    decreases a.len(),
{
    if a.len() > 0 {
        let q = a.drop_last();
        let x = a.last();
        assert(in_field(x));
        lemma_fold_tiled(row, q, rest + 1);
        lemma_pow2_unfold(rest + 1);
        let w = row.len() as int;
        let rows = pow2(rest) as int;
        let big = tiled(row, pow2(rest + 1));
        let small = tiled(row, pow2(rest));
        assert((2 * rows) * w == 2 * (rows * w)) by (nonlinear_arith);
        let f = fold(big, x);
        assert forall|k: int| 0 <= k < rows * w implies #[trigger] f[k] == small[k] by {
            lemma_mod_multiples_vanish(rows, k, w);
            lemma_mod_bound(k, w);
            let v = row[k % w];
            assert(in_field(v));
            assert((w * rows + k) % w == k % w);
            assert(rows * w == w * rows) by (nonlinear_arith);
            lemma_convex_same(v, x);
        }
        assert(f =~= small);
    }
}

proof fn lemma_convex_same(v: int, x: int)
    requires
        in_field(v),
        in_field(x),
    ensures
        fadd(v, fmul(x, fsub(v, v))) == v,
{
    broadcast use group_residue;

    lemma_residue_id(v);
    lemma_residue_id(x);
    assert(x * (v - v) == 0) by (nonlinear_arith);
}

/// A table with every entry repeated along the trailing variables extends to
/// the table's extension.
pub proof fn law_mle_stretched(t: Seq<int>, a: Seq<int>, b: Seq<int>)
    requires
        t.len() == pow2(a.len()),
        all_in_field(t),
        all_in_field(a),
        all_in_field(b),
    ensures
        mle(stretched(t, pow2(b.len())), a + b) == mle(t, a),
{
    let w = pow2(b.len());
    lemma_pow2_pos(b.len());
    lemma_fold_many_concat(stretched(t, w), a, b);
    lemma_fold_stretched(t, w, a, 0);
    let u = fold_many(t, a);
    lemma_fold_many_len(t, a, 0);
    lemma_fold_many_in_field(t, a);
    vstd::arithmetic::power2::lemma2_to64();
    assert(1 * w == w) by (nonlinear_arith);
    assert forall|k: int| 0 <= k < w implies #[trigger] stretched(u, w)[k] == u[0] by {
        lemma_fundamental_div_mod_converse(k, w as int, 0, k);
    }
    assert(stretched(u, w) =~= constant(u[0], w));
    assert(in_field(u[0]));
    law_mle_constant(u[0], b);
}

proof fn lemma_fold_stretched(t: Seq<int>, w: nat, a: Seq<int>, rest: nat)
    requires
        t.len() == pow2(a.len() + rest),
        w > 0,
    ensures
        fold_many(stretched(t, w), a) == stretched(fold_many(t, a), w),
        fold_many(t, a).len() == pow2(rest),
    decreases a.len(),
{
    if a.len() > 0 {
        let q = a.drop_last();
        let x = a.last();
        lemma_fold_stretched(t, w, q, rest + 1);
        lemma_pow2_unfold(rest + 1);
        let u = fold_many(t, q);
        let h = pow2(rest) as int;
        let d = w as int;
        let big = stretched(u, w);
        assert(u.len() * w == 2 * (h * d)) by (nonlinear_arith)
            requires
                u.len() == 2 * h,
                d == w,
        ;
        let f = fold(big, x);
        let small = stretched(fold(u, x), w);
        assert forall|k: int| 0 <= k < h * d implies #[trigger] f[k] == small[k] by {
            let (i, c) = (k / d, k % d);
            lemma_fundamental_div_mod(k, d);
            lemma_mod_bound(k, d);
            lemma_div_pos_is_pos(k, d);
            assert(i < h) by (nonlinear_arith)
                requires
                    k == d * i + c,
                    0 <= c,
                    k < h * d,
                    d > 0,
            ;
            let up = h * d + k;
            assert(up == (h + i) * d + c) by (nonlinear_arith)
                requires
                    k == d * i + c,
                    up == h * d + k,
            ;
            lemma_fundamental_div_mod_converse(up, d, h + i, c);
        }
        assert(f =~= small);
    }
}

// ---- Weighted sums of two products ----

/// `p1 q1 + p2 q2`, entry by entry.
pub open spec fn two_products(p1: Seq<int>, q1: Seq<int>, p2: Seq<int>, q2: Seq<int>) -> Seq<int> {
    Seq::new(p1.len(), |k: int| fadd(fmul(p1[k], q1[k]), fmul(p2[k], q2[k])))
}

/// The sum of the first `n` entries from `start` on.
pub open spec fn span_sum(t: Seq<int>, start: int, n: nat) -> int
    decreases n,
{
    if n == 0 {
        0
    } else {
        fadd(span_sum(t, start, (n - 1) as nat), t[start + n - 1])
    }
}

/// The sums of a table's rows.
pub open spec fn row_sums(t: Seq<int>, rows: nat, width: nat) -> Seq<int> {
    Seq::new(rows, |i: int| span_sum(t, i * width, width))
}

proof fn lemma_eq2_is_dot(
    e: Seq<int>,
    p1: Seq<int>,
    q1: Seq<int>,
    p2: Seq<int>,
    q2: Seq<int>,
    n: nat,
)
    requires
        n <= e.len(),
        p1.len() == e.len(),
    ensures
        total(&EqTwoProduct {  }, eq2_columns(e, p1, q1, p2, q2), n) == dot(
            e,
            two_products(p1, q1, p2, q2),
            n,
        ),
    decreases n,
{
    if n > 0 {
        lemma_eq2_is_dot(e, p1, q1, p2, q2, (n - 1) as nat);
        let c = cell_at(eq2_columns(e, p1, q1, p2, q2), n - 1);
        assert(c =~= seq![e[n - 1], p1[n - 1], q1[n - 1], p2[n - 1], q2[n - 1]]);
    }
}

/// Weighted by the equality table of a point, the sum of two products is the
/// value there of their entrywise sum.
pub proof fn law_eq2_is_value(
    r: Seq<int>,
    p1: Seq<int>,
    q1: Seq<int>,
    p2: Seq<int>,
    q2: Seq<int>,
)
    requires
        p1.len() == pow2(r.len()),
        all_in_field(r),
    ensures
        eq2_sum(eq_table(r), p1, q1, p2, q2) == mle(two_products(p1, q1, p2, q2), r),
{
    broadcast use group_in_field;

    let d = two_products(p1, q1, p2, q2);
    lemma_eq2_is_dot(eq_table(r), p1, q1, p2, q2, eq_table(r).len());
    law_mle_is_eq_sum(d, r);
}

/// A row's share of a sum weighted by rows.
proof fn lemma_stretched_row(e: Seq<int>, t: Seq<int>, i: nat, w: nat, n: nat)
    requires
        i < e.len(),
        n <= w,
        w > 0,
        t.len() == e.len() * w,
        all_in_field(e),
        all_in_field(t),
    ensures
        dot(stretched(e, w), t, i * w + n) == fadd(
            dot(stretched(e, w), t, i * w),
            fmul(e[i as int], span_sum(t, (i * w) as int, n)),
        ),
    decreases n,
{
    broadcast use group_in_field;

    let s = stretched(e, w);
    let d0 = dot(s, t, i * w);
    assert(in_field(e[i as int]));
    lemma_dot_in_field(s, t, i * w);
    if n == 0 {
        lemma_fmul_one(e[i as int]);
        lemma_fadd_zero(d0);
    } else {
        let m = (n - 1) as nat;
        lemma_stretched_row(e, t, i, w, m);
        let k = (i * w + m) as int;
        assert(0 <= k < t.len()) by (nonlinear_arith)
            requires
                i < e.len(),
                0 <= m < w,
                k == i * w + m,
                t.len() == e.len() * w,
        ;
        lemma_fundamental_div_mod_converse(k, w as int, i as int, m as int);
        assert(s[k] == e[i as int]);
        assert(in_field(t[k]));
        let x = span_sum(t, (i * w) as int, m);
        lemma_fadd_zero(0);
        lemma_add_term(d0, e[i as int], x, t[k]);
    }
}

proof fn lemma_add_term(d: int, e: int, x: int, y: int)
    requires
        in_field(d),
        in_field(e),
        in_field(x),
        in_field(y),
    ensures
        fadd(fadd(d, fmul(e, x)), fmul(e, y)) == fadd(d, fmul(e, fadd(x, y))),
{
    broadcast use group_residue;

    lemma_residue_id(d);
    lemma_residue_id(e);
    lemma_residue_id(x);
    lemma_residue_id(y);
    assert(e * (x + y) == e * x + e * y) by (nonlinear_arith);
}

proof fn lemma_dot_in_field(a: Seq<int>, b: Seq<int>, n: nat)
    ensures
        in_field(dot(a, b, n)),
{
    broadcast use group_in_field;

    lemma_fadd_zero(0);
}

proof fn lemma_stretched_dot(e: Seq<int>, t: Seq<int>, w: nat, n: nat)
    requires
        n <= e.len(),
        w > 0,
        t.len() == e.len() * w,
        all_in_field(e),
        all_in_field(t),
    ensures
        dot(stretched(e, w), t, n * w) == dot(e, row_sums(t, e.len(), w), n),
    decreases n,
{
    if n == 0 {
        assert(n * w == 0) by (nonlinear_arith)
            requires
                n == 0,
        ;
    } else {
        let m = (n - 1) as nat;
        lemma_stretched_dot(e, t, w, m);
        lemma_stretched_row(e, t, m, w, w);
        assert(n * w == m * w + w) by (nonlinear_arith)
            requires
                n == m + 1,
        ;
    }
}

/// Weighted by a point's equality table, row by row, the sum of two products
/// is the value there of their row sums.
pub proof fn law_eq2_is_row_sum(
    rs: Seq<int>,
    width: nat,
    p1: Seq<int>,
    q1: Seq<int>,
    p2: Seq<int>,
    q2: Seq<int>,
)
    requires
        width > 0,
        p1.len() == pow2(rs.len()) * width,
        all_in_field(rs),
    ensures
        eq2_sum(stretched(eq_table(rs), width), p1, q1, p2, q2) == mle(
            row_sums(two_products(p1, q1, p2, q2), pow2(rs.len()), width),
            rs,
        ),
{
    broadcast use group_in_field;

    let e = eq_table(rs);
    let d = two_products(p1, q1, p2, q2);
    assert forall|i: int| 0 <= i < e.len() implies in_field(#[trigger] e[i]) by {
        lemma_eq_weight_in_field(rs, i);
    }
    lemma_eq2_is_dot(stretched(e, width), p1, q1, p2, q2, stretched(e, width).len());
    lemma_stretched_dot(e, d, width, e.len());
    let s = row_sums(d, e.len(), width);
    assert forall|i: int| 0 <= i < s.len() implies in_field(#[trigger] s[i]) by {
        lemma_fadd_zero(0);
    }
    law_mle_is_eq_sum(s, rs);
}

} // verus!
