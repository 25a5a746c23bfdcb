//! Laws of multilinear extensions.

use crate::field::{all_in_field, fadd, fmul, fsub, in_field};
use crate::mle::{
    eq_points, eq_table, eq_weight, fold, fold_many, lemma_fold_many_len, lemma_pow2_split, mle,
};
use crate::pcs::{mle_padded, zeros};
use crate::ring::{
    group_in_field, group_residue, lemma_commute, lemma_fadd_zero, lemma_fmul_one,
    lemma_residue_id, lemma_residue_mul,
};
use crate::sumcheck::lemma_line_residue;
use vstd::arithmetic::power2::{lemma_pow2_unfold, pow2};
use vstd::prelude::*;

verus! {

/// Binding variables one group after the other is binding them all.
pub proof fn lemma_fold_many_concat(t: Seq<int>, a: Seq<int>, b: Seq<int>)
    ensures
        fold_many(t, a + b) == fold_many(fold_many(t, a), b),
    decreases b.len(),
{
    if b.len() == 0 {
        assert(a + b =~= a);
    } else {
        assert((a + b).drop_last() =~= a + b.drop_last());
        assert((a + b).last() == b.last());
        lemma_fold_many_concat(t, a, b.drop_last());
    }
}

/// Fixing the leading variables and then evaluating the rest is evaluating at
/// the joint point.
pub proof fn law_partial_eval_msb(t: Seq<int>, a: Seq<int>, b: Seq<int>)
    ensures
        mle(fold_many(t, a), b) == mle(t, a + b),
{
    lemma_fold_many_concat(t, a, b);
}

/// Binding the first variable first.
pub proof fn lemma_fold_many_front(t: Seq<int>, r: Seq<int>)
    requires
        r.len() > 0,
    ensures
        fold_many(t, r) == fold_many(fold(t, r[0]), r.drop_first()),
{
    let a = seq![r[0]];
    assert(a + r.drop_first() =~= r);
    lemma_fold_many_concat(t, a, r.drop_first());
    reveal_with_fuel(fold_many, 2);
    assert(a.drop_last() =~= Seq::<int>::empty());
    assert(fold_many(t, a) == fold(t, r[0]));
}

/// The entries of a table with variables bound are residues.
pub proof fn lemma_fold_many_in_field(t: Seq<int>, r: Seq<int>)
    requires
        all_in_field(t),
    ensures
        all_in_field(fold_many(t, r)),
    decreases r.len(),
{
    broadcast use group_in_field;

    if r.len() > 0 {
        lemma_fold_many_in_field(t, r.drop_last());
    }
}

/// An extension's value is a residue.
pub proof fn lemma_mle_in_field(t: Seq<int>, r: Seq<int>)
    requires
        all_in_field(t),
        t.len() == pow2(r.len()),
    ensures
        in_field(mle(t, r)),
{
    lemma_fold_many_in_field(t, r);
    lemma_fold_many_len(t, r, 0);
    vstd::arithmetic::power2::lemma2_to64();
}

// ---- Sums ----

/// The sum of the first `n` products of two sequences.
pub open spec fn dot(w: Seq<int>, t: Seq<int>, n: nat) -> int
    decreases n,
{
    if n == 0 {
        0
    } else {
        fadd(dot(w, t, (n - 1) as nat), fmul(w[n - 1], t[n - 1]))
    }
}

/// The sum over the first `n` indices of the weight at `a` times the entry at
/// `i * stride + j`.
pub open spec fn strided(a: Seq<int>, t: Seq<int>, stride: int, j: int, n: nat) -> int
    decreases n,
{
    if n == 0 {
        0
    } else {
        fadd(
            strided(a, t, stride, j, (n - 1) as nat),
            fmul(eq_weight(a, n - 1), t[(n - 1) * stride + j]),
        )
    }
}

proof fn lemma_strided_in_field(a: Seq<int>, t: Seq<int>, stride: int, j: int, n: nat)
    ensures
        in_field(strided(a, t, stride, j, n)),
{
    broadcast use group_in_field;

}

/// Weights are residues.
pub proof fn lemma_eq_weight_in_field(a: Seq<int>, i: int)
    ensures
        in_field(eq_weight(a, i)),
{
    broadcast use group_in_field;

}

proof fn lemma_pair_algebra(s0: int, s1: int, w: int, x: int, lo: int, hi: int)
    requires
        in_field(s0),
        in_field(s1),
        in_field(w),
        in_field(x),
        in_field(lo),
        in_field(hi),
    ensures
        fadd(
            fadd(
                fadd(fmul(fsub(1, x), s0), fmul(x, s1)),
                fmul(fmul(w, fsub(1, x)), lo),
            ),
            fmul(fmul(w, x), hi),
        ) == fadd(
            fmul(fsub(1, x), fadd(s0, fmul(w, lo))),
            fmul(x, fadd(s1, fmul(w, hi))),
        ),
{
    broadcast use group_residue;

    lemma_residue_id(s0);
    lemma_residue_id(s1);
    lemma_residue_id(w);
    lemma_residue_id(x);
    lemma_residue_id(lo);
    lemma_residue_id(hi);
    lemma_residue_id(1);
    let y = 1 - x;
    assert(y * (s0 + w * lo) == y * s0 + w * y * lo) by (nonlinear_arith);
    assert(x * (s1 + w * hi) == x * s1 + w * x * hi) by (nonlinear_arith);
}

/// Adding a low variable `x` to the weights pairs up the entries.
proof fn lemma_strided_pair(a: Seq<int>, t: Seq<int>, stride: int, j: int, n: nat)
    requires
        a.len() > 0,
        in_field(a.last()),
        stride > 0,
        0 <= j < stride,
        2 * n * stride <= t.len(),
        all_in_field(t),
    ensures
        strided(a, t, stride, j, 2 * n) == fadd(
            fmul(fsub(1, a.last()), strided(a.drop_last(), t, 2 * stride, j, n)),
            fmul(a.last(), strided(a.drop_last(), t, 2 * stride, stride + j, n)),
        ),
    decreases n,
{
    broadcast use group_in_field;

    let b = a.drop_last();
    let x = a.last();
    if n == 0 {
        lemma_fmul_one(fsub(1, x));
        lemma_fmul_one(x);
        lemma_fadd_zero(0);
    } else {
        let m = (n - 1) as nat;
        assert(2 * m * stride <= t.len()) by (nonlinear_arith)
            requires
                2 * n * stride <= t.len(),
                m == n - 1,
                stride > 0,
        ;
        lemma_strided_pair(a, t, stride, j, m);
        lemma_strided_in_field(b, t, 2 * stride, j, m);
        lemma_strided_in_field(b, t, 2 * stride, stride + j, m);
        let i0 = 2 * m * stride + j;
        let i1 = (2 * m + 1) * stride + j;
        assert(i1 == 2 * m * stride + stride + j) by (nonlinear_arith)
            requires
                i1 == (2 * m + 1) * stride + j,
        ;
        assert(m * (2 * stride) == 2 * m * stride) by (nonlinear_arith);
        assert(2 * n * stride == 2 * m * stride + 2 * stride) by (nonlinear_arith)
            requires
                n == m + 1,
        ;
        assert(0 <= 2 * m * stride) by (nonlinear_arith)
            requires
                stride > 0,
        ;
        let lo = t[i0];
        let hi = t[i1];
        assert(in_field(lo) && in_field(hi));
        let w = eq_weight(b, m as int);
        lemma_eq_weight_in_field(b, m as int);
        assert(eq_weight(a, 2 * m as int) == fmul(w, fsub(1, x)));
        assert((2 * m + 1) / 2 == m as int && (2 * m + 1) % 2 == 1);
        assert(eq_weight(a, 2 * m as int + 1) == fmul(w, x));
        let s0 = strided(b, t, 2 * stride, j, m);
        let s1 = strided(b, t, 2 * stride, stride + j, m);
        reveal_with_fuel(strided, 3);
        assert(strided(a, t, stride, j, 2 * n) == fadd(
            fadd(strided(a, t, stride, j, 2 * m), fmul(eq_weight(a, 2 * m as int), lo)),
            fmul(eq_weight(a, 2 * m as int + 1), hi),
        ));
        lemma_pair_algebra(s0, s1, w, x, lo, hi);
    }
}

/// A convex step between two residues.
proof fn lemma_convex(x: int, lo: int, hi: int)
    requires
        in_field(x),
        in_field(lo),
        in_field(hi),
    ensures
        fadd(lo, fmul(x, fsub(hi, lo))) == fadd(fmul(fsub(1, x), lo), fmul(x, hi)),
{
    broadcast use group_residue;

    lemma_residue_id(x);
    lemma_residue_id(lo);
    lemma_residue_id(hi);
    lemma_residue_id(1);
    assert(lo + x * (hi - lo) == (1 - x) * lo + x * hi) by (nonlinear_arith);
}

/// An entry of a table with variables bound is the weighted sum of the entries
/// that collapse into it.
pub proof fn lemma_fold_many_strided(t: Seq<int>, a: Seq<int>, m: nat, j: int)
    requires
        t.len() == pow2(a.len() + m),
        all_in_field(t),
        all_in_field(a),
        0 <= j < pow2(m),
    ensures
        fold_many(t, a)[j] == strided(a, t, pow2(m) as int, j, pow2(a.len())),
    decreases a.len(),
{
    vstd::arithmetic::power2::lemma2_to64();
    if a.len() == 0 {
        reveal_with_fuel(strided, 2);
        assert(0 * pow2(m) + j == j);
        assert(in_field(t[j]));
        lemma_fmul_one(t[j]);
        lemma_fadd_zero(t[j]);
    } else {
        let b = a.drop_last();
        let x = a.last();
        assert(in_field(x));
        lemma_pow2_unfold(m + 1);
        lemma_pow2_unfold(a.len());
        assert(b.len() + (m + 1) == a.len() + m);
        lemma_fold_many_strided(t, b, m + 1, j);
        lemma_fold_many_strided(t, b, m + 1, pow2(m) + j);
        lemma_fold_many_len(t, b, m + 1);
        lemma_pow2_split(a.len(), m);
        assert(2 * pow2(b.len()) * pow2(m) <= t.len()) by {
            assert(2 * pow2(b.len()) == pow2(a.len()));
        }
        lemma_strided_pair(a, t, pow2(m) as int, j, pow2(b.len()));
        lemma_strided_in_field(b, t, 2 * pow2(m) as int, j, pow2(b.len()));
        lemma_strided_in_field(b, t, 2 * pow2(m) as int, pow2(m) + j, pow2(b.len()));
        lemma_convex(
            x,
            strided(b, t, 2 * pow2(m) as int, j, pow2(b.len())),
            strided(b, t, 2 * pow2(m) as int, pow2(m) + j, pow2(b.len())),
        );
    }
}

proof fn lemma_strided_is_dot(a: Seq<int>, t: Seq<int>, n: nat)
    requires
        n <= pow2(a.len()),
    ensures
        strided(a, t, 1, 0, n) == dot(eq_table(a), t, n),
    decreases n,
{
    if n > 0 {
        lemma_strided_is_dot(a, t, (n - 1) as nat);
        assert((n - 1) * 1 + 0 == n - 1);
    }
}

/// The multilinear extension is the sum of the entries weighted by the
/// equality table of the point.
pub proof fn law_mle_is_eq_sum(t: Seq<int>, r: Seq<int>)
    requires
        t.len() == pow2(r.len()),
        all_in_field(t),
        all_in_field(r),
    ensures
        mle(t, r) == dot(eq_table(r), t, pow2(r.len())),
{
    vstd::arithmetic::power2::lemma2_to64();
    lemma_fold_many_strided(t, r, 0, 0);
    lemma_strided_is_dot(r, t, pow2(r.len()));
}

// ---- Linearity ----

/// The entrywise sum of a multiple of `s` and of `t`.
pub open spec fn combined(a: int, s: Seq<int>, t: Seq<int>) -> Seq<int> {
    Seq::new(s.len(), |i: int| fadd(fmul(a, s[i]), t[i]))
}

proof fn lemma_fold_entry_linear(a: int, s0: int, s1: int, t0: int, t1: int, x: int)
    requires
        in_field(a),
        in_field(s0),
        in_field(s1),
        in_field(t0),
        in_field(t1),
        in_field(x),
    ensures
        fadd(
            fadd(fmul(a, s0), t0),
            fmul(x, fsub(fadd(fmul(a, s1), t1), fadd(fmul(a, s0), t0))),
        ) == fadd(
            fmul(a, fadd(s0, fmul(x, fsub(s1, s0)))),
            fadd(t0, fmul(x, fsub(t1, t0))),
        ),
{
    broadcast use group_residue;

    lemma_residue_id(a);
    lemma_residue_id(s0);
    lemma_residue_id(s1);
    lemma_residue_id(t0);
    lemma_residue_id(t1);
    lemma_residue_id(x);
    let (u, v) = (s1 - s0, t1 - t0);
    assert(a * s1 - a * s0 == a * u) by (nonlinear_arith)
        requires
            u == s1 - s0,
    ;
    assert(x * (a * u + v) == x * (a * u) + x * v) by (nonlinear_arith);
    assert(a * (s0 + x * u) == a * s0 + a * (x * u)) by (nonlinear_arith);
    assert(x * (a * u) == a * (x * u)) by (nonlinear_arith);
}

proof fn lemma_fold_many_linear(a: int, s: Seq<int>, t: Seq<int>, r: Seq<int>)
    requires
        in_field(a),
        s.len() == t.len(),
        all_in_field(s),
        all_in_field(t),
        all_in_field(r),
    ensures
        fold_many(combined(a, s, t), r) == combined(a, fold_many(s, r), fold_many(t, r)),
        fold_many(s, r).len() == fold_many(t, r).len(),
    decreases r.len(),
{
    if r.len() == 0 {
    } else {
        let q = r.drop_last();
        let x = r.last();
        assert(in_field(x));
        lemma_fold_many_linear(a, s, t, q);
        let fs = fold_many(s, q);
        let ft = fold_many(t, q);
        lemma_fold_many_in_field(s, q);
        lemma_fold_many_in_field(t, q);
        let l = fold(combined(a, fs, ft), x);
        let rr = combined(a, fold(fs, x), fold(ft, x));
        assert forall|i: int| 0 <= i < l.len() implies #[trigger] l[i] == rr[i] by {
            let h = fs.len() / 2;
            assert(in_field(fs[i]) && in_field(fs[h + i]) && in_field(ft[i]) && in_field(ft[h + i]));
            lemma_fold_entry_linear(a, fs[i], fs[h + i], ft[i], ft[h + i], x);
        }
        assert(l =~= rr);
    }
}

/// Extensions are linear in the table.
pub proof fn law_mle_linear(a: int, s: Seq<int>, t: Seq<int>, r: Seq<int>)
    requires
        in_field(a),
        s.len() == pow2(r.len()),
        t.len() == pow2(r.len()),
        all_in_field(s),
        all_in_field(t),
        all_in_field(r),
    ensures
        mle(combined(a, s, t), r) == fadd(fmul(a, mle(s, r)), mle(t, r)),
{
    lemma_fold_many_linear(a, s, t, r);
    lemma_fold_many_len(s, r, 0);
    vstd::arithmetic::power2::lemma2_to64();
}

/// A table with one value everywhere.
pub open spec fn constant(a: int, n: nat) -> Seq<int> {
    Seq::new(n, |i: int| a)
}

/// A constant table extends to that constant.
pub proof fn law_mle_constant(a: int, r: Seq<int>)
    requires
        in_field(a),
        all_in_field(r),
    ensures
        mle(constant(a, pow2(r.len())), r) == a,
{
    lemma_fold_many_constant(a, r, 0);
    vstd::arithmetic::power2::lemma2_to64();
}

proof fn lemma_fold_many_constant(a: int, r: Seq<int>, m: nat)
    requires
        in_field(a),
        all_in_field(r),
    ensures
        fold_many(constant(a, pow2(r.len() + m)), r) == constant(a, pow2(m)),
    decreases r.len(),
{
    if r.len() > 0 {
        let x = r.last();
        assert(in_field(x));
        assert(r.drop_last().len() + (m + 1) == r.len() + m);
        lemma_fold_many_constant(a, r.drop_last(), m + 1);
        lemma_pow2_unfold(m + 1);
        lemma_line_residue(a, a, x);
        assert(a + x * (a - a) == a) by (nonlinear_arith);
        lemma_residue_id(a);
        assert(fold(constant(a, pow2(m + 1)), x) =~= constant(a, pow2(m)));
    }
}

// ---- Vertices and padding ----

/// Binding leading variables to zero keeps the front of the table.
pub proof fn lemma_fold_many_zeros(t: Seq<int>, m: nat, k: nat)
    requires
        t.len() == pow2(m + k),
        all_in_field(t),
    ensures
        fold_many(t, zeros(m)) == t.take(pow2(k) as int),
    decreases m,
{
    lemma_pow2_split(m, k);
    if m == 0 {
        assert(t.take(pow2(k) as int) =~= t);
    } else {
        let z = zeros(m);
        assert(z.drop_last() =~= zeros((m - 1) as nat));
        assert((m - 1) as nat + (k + 1) == m + k);
        lemma_fold_many_zeros(t, (m - 1) as nat, k + 1);
        lemma_pow2_unfold(k + 1);
        lemma_pow2_split((m - 1) as nat, k + 1);
        let u = t.take(pow2(k + 1) as int);
        let f = fold(u, 0);
        assert forall|i: int| 0 <= i < f.len() implies #[trigger] f[i] == t.take(pow2(k) as int)[i] by {
            assert(in_field(t[i]) && in_field(t[pow2(k) + i]));
            lemma_line_residue(t[i], t[pow2(k) + i], 0);
            lemma_residue_id(t[i]);
        }
        assert(f =~= t.take(pow2(k) as int));
    }
}

/// A padded table at a small point is the front of the table at that point.
pub proof fn law_mle_padded(t: Seq<int>, point: Seq<int>, n: nat)
    requires
        point.len() <= n,
        t.len() == pow2(n),
        all_in_field(t),
    ensures
        mle_padded(t, point, n) == mle(t.take(pow2(point.len()) as int), point),
{
    let m = (n - point.len()) as nat;
    lemma_fold_many_zeros(t, m, point.len());
    lemma_fold_many_concat(t, zeros(m), point);
}

/// The big-endian bits of an index, as residues.
pub open spec fn vertex(i: int, n: nat) -> Seq<int>
    decreases n,
{
    if n == 0 {
        Seq::empty()
    } else {
        vertex(i / 2, (n - 1) as nat).push(i % 2)
    }
}

/// An extension agrees with its table: at the vertex of an index it takes the
/// entry at that index.
pub proof fn law_mle_at_vertex(t: Seq<int>, i: int, n: nat)
    requires
        t.len() == pow2(n),
        all_in_field(t),
        0 <= i < pow2(n),
    ensures
        vertex(i, n).len() == n,
        mle(t, vertex(i, n)) == t[i],
{
    vstd::arithmetic::power2::lemma2_to64();
    lemma_vertex_entry(t, i, n, 0, 0);
    assert(i * 1 + 0 == i);
}

proof fn lemma_vertex_entry(t: Seq<int>, i: int, n: nat, m: nat, j: int)
    requires
        t.len() == pow2(n + m),
        all_in_field(t),
        0 <= i < pow2(n),
        0 <= j < pow2(m),
    ensures
        vertex(i, n).len() == n,
        fold_many(t, vertex(i, n)).len() == pow2(m),
        0 <= i * pow2(m) + j < t.len(),
        fold_many(t, vertex(i, n))[j] == t[i * pow2(m) + j],
    decreases n,
{
    vstd::arithmetic::power2::lemma2_to64();
    lemma_pow2_split(n, m);
    if n == 0 {
        assert(0 * pow2(m) == 0);
    } else {
        let v = vertex(i, n);
        lemma_pow2_unfold(n);
        lemma_pow2_unfold(m + 1);
        let h = i / 2;
        let b = i % 2;
        let p = pow2(m) as int;
        assert((n - 1) as nat + (m + 1) == n + m);
        lemma_vertex_entry(t, h, (n - 1) as nat, m + 1, j);
        lemma_vertex_entry(t, h, (n - 1) as nat, m + 1, p + j);
        assert(v.drop_last() =~= vertex(h, (n - 1) as nat));
        let u = fold_many(t, v.drop_last());
        assert(h * pow2(m + 1) == (2 * h) * p) by (nonlinear_arith)
            requires
                pow2(m + 1) == 2 * p,
        ;
        assert((2 * h + 1) * p == (2 * h) * p + p) by (nonlinear_arith);
        let lo = u[j];
        let hi = u[p + j];
        assert(in_field(lo) && in_field(hi));
        lemma_line_residue(lo, hi, b);
        if b == 0 {
            lemma_residue_id(lo);
            assert(lo + 0 * (hi - lo) == lo);
        } else {
            lemma_residue_id(hi);
            assert(lo + 1 * (hi - lo) == hi);
        }
        assert(u.len() / 2 == p);
    }
}

// ---- The equality polynomial ----

/// Extending an equality table gives the equality polynomial.
pub proof fn law_mle_of_eq_table(a: Seq<int>, b: Seq<int>)
    requires
        a.len() == b.len(),
        all_in_field(a),
        all_in_field(b),
    ensures
        mle(eq_table(a), b) == eq_points(a, b),
{
    vstd::arithmetic::power2::lemma2_to64();
    lemma_eq_table_folds(a, b, Seq::empty());
    assert(a + Seq::<int>::empty() =~= a);
    reveal_with_fuel(eq_weight, 2);
    broadcast use group_in_field;

    lemma_eq_points_in_field(a, b);
    lemma_fmul_one(eq_points(a, b));
}

/// The equality polynomial's value is a residue.
pub proof fn lemma_eq_points_in_field(a: Seq<int>, b: Seq<int>)
    ensures
        in_field(eq_points(a, b)),
{
    broadcast use group_in_field;

}

/// Binding the leading variables of an equality table leaves the equality
/// table of the rest, scaled by the equality polynomial of the bound ones.
proof fn lemma_eq_table_folds(a: Seq<int>, b: Seq<int>, rest: Seq<int>)
    requires
        a.len() == b.len(),
        all_in_field(a),
        all_in_field(b),
        all_in_field(rest),
    ensures
        fold_many(eq_table(a + rest), b) == Seq::new(
            pow2(rest.len()),
            |j: int| fmul(eq_points(a, b), eq_weight(rest, j)),
        ),
    decreases a.len(),
{
    broadcast use group_in_field;

    let want = Seq::new(
        pow2(rest.len()),
        |j: int| fmul(eq_points(a, b), eq_weight(rest, j)),
    );
    if a.len() == 0 {
        assert(a + rest =~= rest);
        assert forall|j: int| 0 <= j < want.len() implies eq_table(rest)[j] == #[trigger] want[j] by {
            lemma_eq_weight_in_field(rest, j);
            lemma_fmul_one(eq_weight(rest, j));
        }
        assert(eq_table(rest) =~= want);
    } else {
        let a1 = a.drop_last();
        let b1 = b.drop_last();
        let x = a.last();
        let y = b.last();
        assert(in_field(x) && in_field(y));
        let rest1 = seq![x] + rest;
        assert(a1 + rest1 =~= a + rest);
        assert(all_in_field(rest1)) by {
            assert forall|i: int| 0 <= i < rest1.len() implies in_field(#[trigger] rest1[i]) by {
                if i > 0 {
                    assert(in_field(rest[i - 1]));
                }
            }
        }
        lemma_eq_table_folds(a1, b1, rest1);
        lemma_pow2_unfold(rest1.len());
        let p = pow2(rest.len()) as int;
        let u = fold_many(eq_table(a + rest), b1);
        let e = eq_points(a1, b1);
        lemma_eq_points_in_field(a1, b1);
        let f = fold(u, y);
        assert(u.len() == 2 * p);
        assert forall|j: int| 0 <= j < want.len() implies f[j] == #[trigger] want[j] by {
            let w = eq_weight(rest, j);
            lemma_eq_weight_in_field(rest, j);
            lemma_eq_weight_cons(x, rest, j);
            lemma_eq_weight_cons(x, rest, p + j);
            let lo = u[j];
            let hi = u[p + j];
            assert(lo == fmul(e, fmul(fsub(1, x), w)));
            assert(hi == fmul(e, fmul(x, w)));
            lemma_convex(y, lo, hi);
            lemma_eq_step(e, w, x, y);
        }
        assert(f =~= want);
    }
}

proof fn lemma_eq_step(e: int, w: int, x: int, y: int)
    requires
        in_field(e),
        in_field(w),
        in_field(x),
        in_field(y),
    ensures
        fadd(
            fmul(fsub(1, y), fmul(e, fmul(fsub(1, x), w))),
            fmul(y, fmul(e, fmul(x, w))),
        ) == fmul(fmul(e, fadd(fmul(x, y), fmul(fsub(1, x), fsub(1, y)))), w),
{
    broadcast use group_residue;

    lemma_residue_id(e);
    lemma_residue_id(w);
    lemma_residue_id(x);
    lemma_residue_id(y);
    lemma_residue_id(1);
    let (u, v) = (1 - x, 1 - y);
    let (xy, uv) = (x * y, u * v);
    assert(v * (e * (u * w)) == (e * uv) * w) by (nonlinear_arith)
        requires
            uv == u * v,
    ;
    assert(y * (e * (x * w)) == (e * xy) * w) by (nonlinear_arith)
        requires
            xy == x * y,
    ;
    assert((e * (xy + uv)) * w == (e * xy) * w + (e * uv) * w) by (nonlinear_arith);
}

/// The weight of an index whose highest bit is split off.
proof fn lemma_eq_weight_cons(x: int, rest: Seq<int>, i: int)
    requires
        0 <= i < 2 * pow2(rest.len()),
        in_field(x),
        all_in_field(rest),
    ensures
        i < pow2(rest.len()) ==> eq_weight(seq![x] + rest, i) == fmul(
            fsub(1, x),
            eq_weight(rest, i),
        ),
        i >= pow2(rest.len()) ==> eq_weight(seq![x] + rest, i) == fmul(
            x,
            eq_weight(rest, i - pow2(rest.len())),
        ),
    decreases rest.len(),
{
    broadcast use group_in_field;

    vstd::arithmetic::power2::lemma2_to64();
    let s = seq![x] + rest;
    let p = pow2(rest.len()) as int;
    if rest.len() == 0 {
        assert(s.drop_last() =~= Seq::<int>::empty());
        assert(s.last() == x);
        reveal_with_fuel(eq_weight, 2);
        lemma_commute(1, x);
        lemma_commute(1, fsub(1, x));
    } else {
        let r1 = rest.drop_last();
        assert(s.drop_last() =~= seq![x] + r1);
        assert(s.last() == rest.last());
        lemma_pow2_unfold(rest.len());
        let q = pow2(r1.len()) as int;
        assert(p == 2 * q);
        assert(in_field(rest.last()));
        lemma_eq_weight_cons(x, r1, i / 2);
        let f = if i % 2 == 1 {
            rest.last()
        } else {
            fsub(1, rest.last())
        };
        if i < p {
            assert(i / 2 < q);
            lemma_eq_weight_in_field(r1, i / 2);
            lemma_fmul_assoc(fsub(1, x), eq_weight(r1, i / 2), f);
        } else {
            assert(i / 2 >= q);
            assert((i - p) / 2 == i / 2 - q);
            assert((i - p) % 2 == i % 2);
            lemma_eq_weight_in_field(r1, i / 2 - q);
            lemma_fmul_assoc(x, eq_weight(r1, i / 2 - q), f);
        }
    }
}

/// Multiplication of residues is associative.
pub proof fn lemma_fmul_assoc(a: int, b: int, c: int)
    requires
        in_field(a),
        in_field(b),
        in_field(c),
    ensures
        fmul(fmul(a, b), c) == fmul(a, fmul(b, c)),
{
    lemma_residue_id(a);
    lemma_residue_id(b);
    lemma_residue_id(c);
    lemma_residue_mul(a, b);
    lemma_residue_mul(b, c);
    lemma_residue_mul(a * b, c);
    lemma_residue_mul(a, b * c);
    assert((a * b) * c == a * (b * c)) by (nonlinear_arith);
}

/// The equality polynomial is symmetric.
pub proof fn law_eq_points_symmetric(a: Seq<int>, b: Seq<int>)
    requires
        a.len() == b.len(),
    ensures
        eq_points(a, b) == eq_points(b, a),
    decreases a.len(),
{
    if a.len() > 0 {
        law_eq_points_symmetric(a.drop_last(), b.drop_last());
        let (x, y) = (a.last(), b.last());
        lemma_commute(x, y);
        lemma_commute(fsub(1, x), fsub(1, y));
    }
}

} // verus!
