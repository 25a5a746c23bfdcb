//! The envelope rows of the critical-point gadget: four to a neuron, for the
//! indices `z`, `z - 1`, `z + 1` and `0`.

use crate::columns::{lemma_mle_shifted, lifted_codes};
use crate::envelope::{law_mle_of_row_keys, row_key, row_keys};
use crate::expr::{
    e_col, e_diff, e_num, e_prod, e_sum, field_value, int_value, law_expr_residue, residues,
};
use crate::field::{Fr, all_in_field, fadd, fmul, fneg, fsub, in_field, vals};
use crate::logup::{lerp, shifted};
use crate::mle::{fold, fold_many, lemma_fold_many_len, mle};
use crate::mle_laws::{
    constant, law_mle_constant, lemma_fold_many_concat, lemma_fold_many_front, lemma_mle_in_field,
};
use crate::ring::{
    group_in_field, lemma_fadd_zero, lemma_fmul_one, lemma_residue_add, lemma_residue_id,
    lemma_residue_neg, lemma_residue_sub,
};
use vstd::arithmetic::power2::{lemma_pow2_unfold, pow2};
use vstd::prelude::*;

verus! {

/// Four columns interleaved row by row.
pub open spec fn interleaved<T>(a: Seq<T>, b: Seq<T>, c: Seq<T>, d: Seq<T>) -> Seq<T> {
    Seq::new(
        4 * a.len(),
        |k: int|
            if k % 4 == 0 {
                a[k / 4]
            } else if k % 4 == 1 {
                b[k / 4]
            } else if k % 4 == 2 {
                c[k / 4]
            } else {
                d[k / 4]
            },
    )
}

/// Folding interleaved columns interleaves their foldings.
proof fn lemma_fold_interleaved(a: Seq<int>, b: Seq<int>, c: Seq<int>, d: Seq<int>, r: int)
    requires
        a.len() % 2 == 0,
        b.len() == a.len(),
        c.len() == a.len(),
        d.len() == a.len(),
    ensures
        fold(interleaved(a, b, c, d), r) == interleaved(
            fold(a, r),
            fold(b, r),
            fold(c, r),
            fold(d, r),
        ),
{
    let t = interleaved(a, b, c, d);
    let f = fold(t, r);
    let g = interleaved(fold(a, r), fold(b, r), fold(c, r), fold(d, r));
    let h = a.len() / 2;
    assert(t.len() / 2 == 4 * h);
    assert forall|k: int| 0 <= k < 4 * h implies #[trigger] f[k] == g[k] by {
        let q = k / 4;
        assert((4 * h + k) / 4 == h + q && (4 * h + k) % 4 == k % 4);
    }
    assert(f =~= g);
}

/// Folding interleaved columns at a point gives their values there.
proof fn lemma_fold_many_interleaved(
    a: Seq<int>,
    b: Seq<int>,
    c: Seq<int>,
    d: Seq<int>,
    p: Seq<int>,
)
    requires
        a.len() == pow2(p.len()),
        b.len() == a.len(),
        c.len() == a.len(),
        d.len() == a.len(),
    ensures
        fold_many(interleaved(a, b, c, d), p) == interleaved(
            fold_many(a, p),
            fold_many(b, p),
            fold_many(c, p),
            fold_many(d, p),
        ),
    decreases p.len(),
{
    if p.len() > 0 {
        let q = p.drop_first();
        lemma_pow2_unfold(p.len());
        lemma_fold_interleaved(a, b, c, d, p[0]);
        lemma_fold_many_front(interleaved(a, b, c, d), p);
        lemma_fold_many_front(a, p);
        lemma_fold_many_front(b, p);
        lemma_fold_many_front(c, p);
        lemma_fold_many_front(d, p);
        lemma_fold_many_interleaved(fold(a, p[0]), fold(b, p[0]), fold(c, p[0]), fold(d, p[0]), q);
    }
}

/// Four values selected by two bits.
pub open spec fn selected(x: int, y: int, a: int, b: int, c: int, d: int) -> int {
    fadd(
        fadd(
            fadd(
                fmul(fmul(fsub(1, x), fsub(1, y)), a),
                fmul(fmul(fsub(1, x), y), b),
            ),
            fmul(fmul(x, fsub(1, y)), c),
        ),
        fmul(fmul(x, y), d),
    )
}

/// Selecting is interpolating twice.
proof fn lemma_selected(x: int, y: int, a: int, b: int, c: int, d: int)
    requires
        in_field(x),
        in_field(y),
        in_field(a),
        in_field(b),
        in_field(c),
        in_field(d),
    ensures
        lerp(lerp(a, c, x), lerp(b, d, x), y) == selected(x, y, a, b, c, d),
{
    let row = seq![x, y, a, b, c, d];
    lemma_residue_id(x);
    lemma_residue_id(y);
    lemma_residue_id(a);
    lemma_residue_id(b);
    lemma_residue_id(c);
    lemma_residue_id(d);
    lemma_residue_id(1);
    assert(residues(row) =~= row);
    let (vx, vy) = (e_col(0), e_col(1));
    let (va, vb, vc, vd) = (e_col(2), e_col(3), e_col(4), e_col(5));
    let one = e_num(1);
    let ac = e_sum(va, e_prod(vx, e_diff(vc, va)));
    let bd = e_sum(vb, e_prod(vx, e_diff(vd, vb)));
    let left = e_sum(ac, e_prod(vy, e_diff(bd, ac)));
    let right = e_sum(
        e_sum(
            e_sum(
                e_prod(e_prod(e_diff(one, vx), e_diff(one, vy)), va),
                e_prod(e_prod(e_diff(one, vx), vy), vb),
            ),
            e_prod(e_prod(vx, e_diff(one, vy)), vc),
        ),
        e_prod(e_prod(vx, vy), vd),
    );
    law_expr_residue(left, row);
    law_expr_residue(right, row);
    assert(field_value(left, row) == lerp(lerp(a, c, x), lerp(b, d, x), y)) by {
        reveal_with_fuel(field_value, 8);
    }
    assert(field_value(right, row) == selected(x, y, a, b, c, d)) by {
        reveal_with_fuel(field_value, 8);
    }
    assert(int_value(left, row) == (a + x * (c - a)) + y * ((b + x * (d - b)) - (a + x * (c - a))))
        by {
        reveal_with_fuel(int_value, 8);
    }
    assert(int_value(right, row) == ((1 - x) * (1 - y)) * a + ((1 - x) * y) * b + (x * (1 - y)) * c
        + (x * y) * d) by {
        reveal_with_fuel(int_value, 8);
    }
    lemma_bilinear(x, y, a, b, c, d);
}

/// The bilinear interpolation of four integers.
proof fn lemma_bilinear(x: int, y: int, a: int, b: int, c: int, d: int)
    ensures
        (a + x * (c - a)) + y * ((b + x * (d - b)) - (a + x * (c - a))) == ((1 - x) * (1 - y)) * a
            + ((1 - x) * y) * b + (x * (1 - y)) * c + (x * y) * d,
{
    assert(x * (c - a) == x * c - x * a) by (nonlinear_arith);
    assert(x * (d - b) == x * d - x * b) by (nonlinear_arith);
    let e = b + x * d - x * b - a - x * c + x * a;
    assert(y * e == y * b + y * (x * d) - y * (x * b) - y * a - y * (x * c) + y * (x * a))
        by (nonlinear_arith)
        requires
            e == b + x * d - x * b - a - x * c + x * a,
    ;
    let xy = x * y;
    assert((1 - x) * (1 - y) == 1 - x - y + xy) by (nonlinear_arith)
        requires
            xy == x * y,
    ;
    assert((1 - x) * y == y - xy) by (nonlinear_arith)
        requires
            xy == x * y,
    ;
    assert(x * (1 - y) == x - xy) by (nonlinear_arith)
        requires
            xy == x * y,
    ;
    assert((1 - x - y + xy) * a == a - x * a - y * a + xy * a) by (nonlinear_arith);
    assert((y - xy) * b == y * b - xy * b) by (nonlinear_arith);
    assert((x - xy) * c == x * c - xy * c) by (nonlinear_arith);
    assert(y * (x * d) == xy * d) by (nonlinear_arith)
        requires
            xy == x * y,
    ;
    assert(y * (x * b) == xy * b) by (nonlinear_arith)
        requires
            xy == x * y,
    ;
    assert(y * (x * c) == xy * c) by (nonlinear_arith)
        requires
            xy == x * y,
    ;
    assert(y * (x * a) == xy * a) by (nonlinear_arith)
        requires
            xy == x * y,
    ;
}

/// The extension of interleaved columns: the last two variables select one of
/// the columns.
pub proof fn law_mle_interleaved(
    a: Seq<int>,
    b: Seq<int>,
    c: Seq<int>,
    d: Seq<int>,
    p: Seq<int>,
    x: int,
    y: int,
)
    requires
        a.len() == pow2(p.len()),
        b.len() == a.len(),
        c.len() == a.len(),
        d.len() == a.len(),
        all_in_field(a),
        all_in_field(b),
        all_in_field(c),
        all_in_field(d),
        all_in_field(p),
        in_field(x),
        in_field(y),
    ensures
        mle(interleaved(a, b, c, d), p + seq![x, y]) == selected(
            x,
            y,
            mle(a, p),
            mle(b, p),
            mle(c, p),
            mle(d, p),
        ),
{
    let t = interleaved(a, b, c, d);
    lemma_fold_many_interleaved(a, b, c, d, p);
    lemma_fold_many_concat(t, p, seq![x, y]);
    let f = fold_many(t, p);
    vstd::arithmetic::power2::lemma2_to64();
    lemma_fold_many_len(a, p, 0);
    lemma_fold_many_len(b, p, 0);
    lemma_fold_many_len(c, p, 0);
    lemma_fold_many_len(d, p, 0);
    assert(f =~= seq![mle(a, p), mle(b, p), mle(c, p), mle(d, p)]);
    let q = seq![x, y];
    assert(q.drop_last() =~= seq![x]);
    assert(q.drop_last().drop_last() =~= Seq::<int>::empty());
    reveal_with_fuel(fold_many, 3);
    lemma_mle_in_field(a, p);
    lemma_mle_in_field(b, p);
    lemma_mle_in_field(c, p);
    lemma_mle_in_field(d, p);
    lemma_selected(x, y, mle(a, p), mle(b, p), mle(c, p), mle(d, p));
}

/// The codes less one.
pub open spec fn minus_ones(z: Seq<i128>) -> Seq<i128> {
    Seq::new(z.len(), |i: int| (z[i] - 1) as i128)
}

/// The codes plus one.
pub open spec fn plus_ones(z: Seq<i128>) -> Seq<i128> {
    Seq::new(z.len(), |i: int| (z[i] + 1) as i128)
}

/// The table indices of the rows: `z`, `z - 1`, `z + 1` and `0` for each
/// neuron.
pub open spec fn row_indices(z: Seq<i128>) -> Seq<i128> {
    interleaved(z, minus_ones(z), plus_ones(z), Seq::new(z.len(), |i: int| 0i128))
}

/// Three columns interleaved with a constant one.
pub open spec fn row_values(a: Seq<int>, b: Seq<int>, c: Seq<int>, pad: int) -> Seq<int> {
    interleaved(a, b, c, constant(pad, a.len()))
}

/// The key of the rows at a point, from the columns' values at the neurons'
/// part of it.
pub open spec fn rows_key(
    a1: int,
    a2: int,
    z: int,
    up: (int, int, int),
    lo: (int, int, int),
    pad_up: int,
    pad_lo: int,
    x: int,
    y: int,
) -> int {
    selected(
        x,
        y,
        row_key(a1, a2, z, up.0, lo.0),
        row_key(a1, a2, fsub(z, 1), up.1, lo.1),
        row_key(a1, a2, fadd(z, 1), up.2, lo.2),
        fadd(fmul(a2, pad_up), pad_lo),
    )
}

/// Subtracting or adding one carries over to the extension.
proof fn lemma_mle_neighbours(z: Seq<i128>, p: Seq<int>)
    requires
        z.len() == pow2(p.len()),
        all_in_field(p),
        forall|i: int| 0 <= i < z.len() ==> i128::MIN < #[trigger] z[i] < i128::MAX,
    ensures
        mle(lifted_codes(minus_ones(z)), p) == fsub(mle(lifted_codes(z), p), 1),
        mle(lifted_codes(plus_ones(z)), p) == fadd(mle(lifted_codes(z), p), 1),
{
    broadcast use group_in_field;

    let t = lifted_codes(z);
    lemma_residue_id(1);
    assert(all_in_field(t));
    lemma_residue_neg(1);
    let m = fneg(1);
    assert forall|i: int| 0 <= i < z.len() implies #[trigger] lifted_codes(minus_ones(z))[i]
        == shifted(t, 1)[i] by {
        assert(i128::MIN < z[i]);
        lemma_residue_sub(z[i] as int, 1);
    }
    assert(lifted_codes(minus_ones(z)) =~= shifted(t, 1));
    assert forall|i: int| 0 <= i < z.len() implies #[trigger] lifted_codes(plus_ones(z))[i]
        == shifted(t, m)[i] by {
        assert(z[i] < i128::MAX);
        lemma_residue_sub(z[i] as int, -1);
    }
    assert(lifted_codes(plus_ones(z)) =~= shifted(t, m));
    lemma_mle_shifted(t, 1, p);
    lemma_mle_shifted(t, m, p);
    let v = mle(t, p);
    lemma_mle_in_field(t, p);
    lemma_residue_id(v);
    lemma_residue_sub(v, -1);
    lemma_residue_add(v, 1);
}

/// The extension of the combined rows, from the extensions of the columns.
pub proof fn law_mle_of_rows(
    a1: int,
    a2: int,
    z: Seq<i128>,
    up: (Seq<int>, Seq<int>, Seq<int>),
    lo: (Seq<int>, Seq<int>, Seq<int>),
    pad_up: int,
    pad_lo: int,
    p: Seq<int>,
    x: int,
    y: int,
)
    requires
        in_field(a1),
        in_field(a2),
        in_field(pad_up),
        in_field(pad_lo),
        in_field(x),
        in_field(y),
        all_in_field(p),
        z.len() == pow2(p.len()),
        up.0.len() == z.len() && up.1.len() == z.len() && up.2.len() == z.len(),
        lo.0.len() == z.len() && lo.1.len() == z.len() && lo.2.len() == z.len(),
        all_in_field(up.0) && all_in_field(up.1) && all_in_field(up.2),
        all_in_field(lo.0) && all_in_field(lo.1) && all_in_field(lo.2),
        forall|i: int| 0 <= i < z.len() ==> i128::MIN < #[trigger] z[i] < i128::MAX,
    ensures
        mle(
            row_keys(
                a1,
                a2,
                lifted_codes(row_indices(z)),
                row_values(up.0, up.1, up.2, pad_up),
                row_values(lo.0, lo.1, lo.2, pad_lo),
            ),
            p + seq![x, y],
        ) == rows_key(
            a1,
            a2,
            mle(lifted_codes(z), p),
            (mle(up.0, p), mle(up.1, p), mle(up.2, p)),
            (mle(lo.0, p), mle(lo.1, p), mle(lo.2, p)),
            pad_up,
            pad_lo,
            x,
            y,
        ),
{
    broadcast use group_in_field;

    let n = z.len();
    let zeros_col = Seq::new(n, |i: int| 0i128);
    let (i0, i1, i2, i3) = (
        lifted_codes(z),
        lifted_codes(minus_ones(z)),
        lifted_codes(plus_ones(z)),
        lifted_codes(zeros_col),
    );
    let (pu, pl) = (constant(pad_up, n), constant(pad_lo, n));
    let k0 = row_keys(a1, a2, i0, up.0, lo.0);
    let k1 = row_keys(a1, a2, i1, up.1, lo.1);
    let k2 = row_keys(a1, a2, i2, up.2, lo.2);
    let k3 = row_keys(a1, a2, i3, pu, pl);
    assert(row_keys(
        a1,
        a2,
        lifted_codes(row_indices(z)),
        row_values(up.0, up.1, up.2, pad_up),
        row_values(lo.0, lo.1, lo.2, pad_lo),
    ) =~= interleaved(k0, k1, k2, k3));
    law_mle_interleaved(k0, k1, k2, k3, p, x, y);
    law_mle_of_row_keys(a1, a2, i0, up.0, lo.0, p);
    law_mle_of_row_keys(a1, a2, i1, up.1, lo.1, p);
    law_mle_of_row_keys(a1, a2, i2, up.2, lo.2, p);
    law_mle_of_row_keys(a1, a2, i3, pu, pl, p);
    lemma_mle_neighbours(z, p);
    lemma_residue_id(0);
    assert(i3 =~= constant(0, n));
    law_mle_constant(0, p);
    law_mle_constant(pad_up, p);
    law_mle_constant(pad_lo, p);
    lemma_fmul_one(a1);
    lemma_fadd_zero(fmul(a2, pad_up));
}

/// Build the indices of the rows.
pub fn build_row_indices(z: &Vec<i128>) -> (r: Vec<i128>)
    requires
        4 * z@.len() <= usize::MAX,
        forall|i: int| 0 <= i < z@.len() ==> i128::MIN < #[trigger] z@[i] < i128::MAX,
    ensures
        r@ == row_indices(z@),
        r@.len() == 4 * z@.len(),
{
    let mut out: Vec<i128> = Vec::with_capacity(4 * z.len());
    let mut i: usize = 0;
    while i < z.len()
        invariant
            i <= z@.len(),
            4 * z@.len() <= usize::MAX,
            forall|k: int| 0 <= k < z@.len() ==> i128::MIN < #[trigger] z@[k] < i128::MAX,
            out@.len() == 4 * i,
            forall|k: int| 0 <= k < 4 * i ==> #[trigger] out@[k] == row_indices(z@)[k],
        decreases z@.len() - i,
    {
        let v: i128 = z[i];
        out.push(v);
        out.push(v - 1);
        out.push(v + 1);
        out.push(0);
        i += 1;
    }
    assert(out@ =~= row_indices(z@));
    out
}

/// Build three columns interleaved with a constant one.
pub fn build_row_values(a: &Vec<Fr>, b: &Vec<Fr>, c: &Vec<Fr>, pad: Fr) -> (r: Vec<Fr>)
    requires
        4 * a@.len() <= usize::MAX,
        b@.len() == a@.len(),
        c@.len() == a@.len(),
    ensures
        vals(r@) == row_values(vals(a@), vals(b@), vals(c@), pad@),
        r@.len() == 4 * a@.len(),
{
    let ghost want = row_values(vals(a@), vals(b@), vals(c@), pad@);
    let mut out: Vec<Fr> = Vec::with_capacity(4 * a.len());
    let mut i: usize = 0;
    while i < a.len()
        invariant
            i <= a@.len(),
            4 * a@.len() <= usize::MAX,
            b@.len() == a@.len(),
            c@.len() == a@.len(),
            want == row_values(vals(a@), vals(b@), vals(c@), pad@),
            out@.len() == 4 * i,
            forall|k: int| 0 <= k < 4 * i ==> (#[trigger] out@[k])@ == want[k],
        decreases a@.len() - i,
    {
        out.push(a[i]);
        out.push(b[i]);
        out.push(c[i]);
        out.push(pad);
        i += 1;
    }
    assert(vals(out@) =~= want);
    out
}

} // verus!
