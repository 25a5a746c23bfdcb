//! Why lookups work: the fractions of a witness that lies in a table cancel
//! against the table's, weighted by how often each entry is used.

use crate::columns::{count_of, multiplicities};
use crate::field::{fadd, fmul, fneg, residue};
use crate::logup::{shifted, top_den, top_num, tops_cancel, up_den, up_num};
use crate::lookup_pair::top_of_columns;
use crate::mle_laws::constant;
use crate::ring::{lemma_residue_add, lemma_residue_id, lemma_residue_in_field, lemma_residue_mul};
use vstd::arithmetic::power2::{lemma_pow2_pos, lemma_pow2_unfold, pow2};
use vstd::prelude::*;

verus! {

/// The numerator of the sum of the first `k` fractions `n[i] / d[i]`, over the
/// product of their denominators.
pub open spec fn frac_num(n: Seq<int>, d: Seq<int>, k: nat) -> int
    decreases k,
{
    if k == 0 {
        0
    } else {
        frac_num(n, d, (k - 1) as nat) * d[k - 1] + frac_den(d, (k - 1) as nat) * n[k - 1]
    }
}

/// The product of the first `k` denominators.
pub open spec fn frac_den(d: Seq<int>, k: nat) -> int
    decreases k,
{
    if k == 0 {
        1
    } else {
        frac_den(d, (k - 1) as nat) * d[k - 1]
    }
}

/// The product of the first `k` denominators but that at `j`.
pub open spec fn den_without(d: Seq<int>, j: int, k: nat) -> int
    decreases k,
{
    if k == 0 {
        1
    } else if k - 1 == j {
        frac_den(d, (k - 1) as nat)
    } else {
        den_without(d, j, (k - 1) as nat) * d[k - 1]
    }
}

/// The field operations are residues of the integer operations.
proof fn lemma_ops(x: int, y: int)
    ensures
        fmul(x, y) == residue(x * y),
        fadd(x, y) == residue(x + y),
        fneg(x) == residue(-x),
{
    reveal(fmul);
    reveal(fadd);
    reveal(fneg);
    reveal(residue);
}

/// A sum of two products of congruent factors is congruent.
proof fn lemma_congruent(a: int, b: int, c: int, e: int, a2: int, b2: int, c2: int, e2: int)
    requires
        residue(a) == residue(a2),
        residue(b) == residue(b2),
        residue(c) == residue(c2),
        residue(e) == residue(e2),
    ensures
        residue(a * b) == residue(a2 * b2),
        residue(a * b + c * e) == residue(a2 * b2 + c2 * e2),
{
    lemma_residue_mul(a, b);
    lemma_residue_mul(c, e);
    lemma_residue_mul(a2, b2);
    lemma_residue_mul(c2, e2);
    lemma_residue_add(a * b, c * e);
    lemma_residue_add(a2 * b2, c2 * e2);
}

/// A residue's residue.
proof fn lemma_residue_twice(x: int)
    ensures
        residue(residue(x)) == residue(x),
{
    lemma_residue_in_field(x);
    lemma_residue_id(residue(x));
}

/// Congruent columns have congruent fractions.
proof fn lemma_frac_congruent(n: Seq<int>, d: Seq<int>, n2: Seq<int>, d2: Seq<int>, k: nat)
    requires
        forall|i: int| 0 <= i < k ==> residue(#[trigger] n[i]) == residue(n2[i]),
        forall|i: int| 0 <= i < k ==> residue(#[trigger] d[i]) == residue(d2[i]),
    ensures
        residue(frac_num(n, d, k)) == residue(frac_num(n2, d2, k)),
        residue(frac_den(d, k)) == residue(frac_den(d2, k)),
    decreases k,
{
    if k > 0 {
        let j = (k - 1) as nat;
        lemma_frac_congruent(n, d, n2, d2, j);
        assert(residue(n[k - 1]) == residue(n2[k - 1]));
        assert(residue(d[k - 1]) == residue(d2[k - 1]));
        lemma_congruent(
            frac_num(n, d, j),
            d[k - 1],
            frac_den(d, j),
            n[k - 1],
            frac_num(n2, d2, j),
            d2[k - 1],
            frac_den(d2, j),
            n2[k - 1],
        );
        lemma_congruent(
            frac_den(d, j),
            d[k - 1],
            0,
            0,
            frac_den(d2, j),
            d2[k - 1],
            0,
            0,
        );
    }
}

/// The fractions of a column are those of its first `h` rows added to those of
/// the next `k`.
proof fn lemma_frac_concat(n: Seq<int>, d: Seq<int>, h: nat, k: nat)
    requires
        n.len() == d.len(),
        h + k <= n.len(),
    ensures
        frac_num(n, d, h + k) == frac_num(n, d, h) * frac_den(d.skip(h as int), k) + frac_den(d, h)
            * frac_num(n.skip(h as int), d.skip(h as int), k),
        frac_den(d, h + k) == frac_den(d, h) * frac_den(d.skip(h as int), k),
    decreases k,
{
    let n2 = n.skip(h as int);
    let d2 = d.skip(h as int);
    if k > 0 {
        let j = (k - 1) as nat;
        lemma_frac_concat(n, d, h, j);
        assert(h + k - 1 == h + j);
        let (x, y) = (n[(h + j) as int], d[(h + j) as int]);
        assert(n2[j as int] == x && d2[j as int] == y);
        let (n1, d1) = (frac_num(n, d, h), frac_den(d, h));
        let (nn, dd) = (frac_num(n2, d2, j), frac_den(d2, j));
        assert((n1 * dd + d1 * nn) * y == (n1 * dd) * y + (d1 * nn) * y) by (nonlinear_arith);
        assert((n1 * dd) * y == n1 * (dd * y)) by (nonlinear_arith);
        assert((d1 * nn) * y == d1 * (nn * y)) by (nonlinear_arith);
        assert((d1 * dd) * x == d1 * (dd * x)) by (nonlinear_arith);
        assert(d1 * (nn * y + dd * x) == d1 * (nn * y) + d1 * (dd * x)) by (nonlinear_arith);
        assert((d1 * dd) * y == d1 * (dd * y)) by (nonlinear_arith);
    } else {
        let (n1, d1) = (frac_num(n, d, h), frac_den(d, h));
        assert(n1 * 1 + d1 * 0 == n1) by (nonlinear_arith);
    }
}

/// The sums of the fractions `i` and `h + i`, as integers.
spec fn raw_num(n: Seq<int>, d: Seq<int>, h: int) -> Seq<int> {
    Seq::new(h as nat, |i: int| n[i] * d[h + i] + n[h + i] * d[i])
}

spec fn raw_den(d: Seq<int>, h: int) -> Seq<int> {
    Seq::new(h as nat, |i: int| d[i] * d[h + i])
}

/// Adding the fractions pairwise first does not change their sum.
proof fn lemma_frac_pairs(n: Seq<int>, d: Seq<int>, h: nat, k: nat)
    requires
        n.len() == 2 * h,
        d.len() == 2 * h,
        k <= h,
    ensures
        frac_num(raw_num(n, d, h as int), raw_den(d, h as int), k) == frac_num(n, d, k) * frac_den(
            d.skip(h as int),
            k,
        ) + frac_den(d, k) * frac_num(n.skip(h as int), d.skip(h as int), k),
        frac_den(raw_den(d, h as int), k) == frac_den(d, k) * frac_den(d.skip(h as int), k),
    decreases k,
{
    let n2 = n.skip(h as int);
    let d2 = d.skip(h as int);
    if k > 0 {
        let j = (k - 1) as nat;
        lemma_frac_pairs(n, d, h, j);
        let (x1, y1) = (n[j as int], d[j as int]);
        let (x2, y2) = (n[(h + j) as int], d[(h + j) as int]);
        assert(n2[j as int] == x2 && d2[j as int] == y2);
        assert(raw_num(n, d, h as int)[j as int] == x1 * y2 + x2 * y1);
        assert(raw_den(d, h as int)[j as int] == y1 * y2);
        let (p1, q1) = (frac_num(n, d, j), frac_den(d, j));
        let (p2, q2) = (frac_num(n2, d2, j), frac_den(d2, j));
        let a = (p1 * q2 + q1 * p2) * (y1 * y2);
        let b = (q1 * q2) * (x1 * y2 + x2 * y1);
        let c = (p1 * y1 + q1 * x1) * (q2 * y2);
        let e = (q1 * y1) * (p2 * y2 + q2 * x2);
        assert(a == (p1 * q2) * (y1 * y2) + (q1 * p2) * (y1 * y2)) by (nonlinear_arith)
            requires
                a == (p1 * q2 + q1 * p2) * (y1 * y2),
        ;
        assert(b == (q1 * q2) * (x1 * y2) + (q1 * q2) * (x2 * y1)) by (nonlinear_arith)
            requires
                b == (q1 * q2) * (x1 * y2 + x2 * y1),
        ;
        assert(c == (p1 * y1) * (q2 * y2) + (q1 * x1) * (q2 * y2)) by (nonlinear_arith)
            requires
                c == (p1 * y1 + q1 * x1) * (q2 * y2),
        ;
        assert(e == (q1 * y1) * (p2 * y2) + (q1 * y1) * (q2 * x2)) by (nonlinear_arith)
            requires
                e == (q1 * y1) * (p2 * y2 + q2 * x2),
        ;
        assert((p1 * q2) * (y1 * y2) == (p1 * y1) * (q2 * y2)) by (nonlinear_arith);
        assert((q1 * p2) * (y1 * y2) == (q1 * y1) * (p2 * y2)) by (nonlinear_arith);
        assert((q1 * q2) * (x1 * y2) == (q1 * x1) * (q2 * y2)) by (nonlinear_arith);
        assert((q1 * q2) * (x2 * y1) == (q1 * y1) * (q2 * x2)) by (nonlinear_arith);
        assert((q1 * q2) * (y1 * y2) == (q1 * y1) * (q2 * y2)) by (nonlinear_arith);
    }
}

/// The top fractions of a circuit add up to the sum of its bottom fractions.
pub proof fn law_top_is_sum(n: Seq<int>, d: Seq<int>, m: nat)
    requires
        n.len() == pow2(m),
        d.len() == pow2(m),
        m >= 1,
    ensures
        top_num(top_of_columns(n, d)) == residue(frac_num(n, d, pow2(m))),
        top_den(top_of_columns(n, d)) == residue(frac_den(d, pow2(m))),
    decreases m,
{
    vstd::arithmetic::power2::lemma2_to64();
    if m == 1 {
        reveal_with_fuel(frac_num, 3);
        reveal_with_fuel(frac_den, 3);
        assert(pow2(1) == 2);
        let t = top_of_columns(n, d);
        assert(t[0] == n[0] && t[1] == n[1] && t[2] == d[0] && t[3] == d[1]);
        lemma_ops(n[0], d[1]);
        lemma_ops(n[1], d[0]);
        lemma_residue_add(n[0] * d[1], n[1] * d[0]);
        lemma_ops(d[0], d[1]);
        assert(frac_den(d, 1) == d[0]) by {
            assert(frac_den(d, 1) == frac_den(d, 0) * d[0]);
        }
        assert(frac_num(n, d, 1) == n[0]) by {
            assert(frac_num(n, d, 1) == frac_num(n, d, 0) * d[0] + frac_den(d, 0) * n[0]);
        }
        assert(frac_num(n, d, 2) == n[0] * d[1] + d[0] * n[1]);
        assert(d[0] * n[1] == n[1] * d[0]) by (nonlinear_arith);
    } else {
        let h = pow2((m - 1) as nat);
        lemma_pow2_unfold(m);
        lemma_pow2_unfold((m - 1) as nat);
        lemma_pow2_pos((m - 2) as nat);
        let n1 = up_num(n, d);
        let d1 = up_den(d);
        law_top_is_sum(n1, d1, (m - 1) as nat);
        let rn = raw_num(n, d, h as int);
        let rd = raw_den(d, h as int);
        assert forall|i: int| 0 <= i < h implies residue(#[trigger] n1[i]) == residue(rn[i]) by {
            lemma_ops(n[i], d[h + i]);
            lemma_ops(n[h + i], d[i]);
            lemma_residue_add(n[i] * d[h + i], n[h + i] * d[i]);
            lemma_residue_twice(n[i] * d[h + i] + n[h + i] * d[i]);
        }
        assert forall|i: int| 0 <= i < h implies residue(#[trigger] d1[i]) == residue(rd[i]) by {
            lemma_ops(d[i], d[h + i]);
            lemma_residue_twice(d[i] * d[h + i]);
        }
        lemma_frac_congruent(n1, d1, rn, rd, h);
        lemma_frac_pairs(n, d, h, h);
        lemma_frac_concat(n, d, h, h);
        assert(top_of_columns(n, d) == top_of_columns(n1, d1));
    }
}

/// A denominator times the product of the others is the product of all.
proof fn lemma_den_without(d: Seq<int>, j: int, k: nat)
    requires
        0 <= j < k,
    ensures
        den_without(d, j, k) * d[j] == frac_den(d, k),
    decreases k,
{
    if k - 1 != j {
        lemma_den_without(d, j, (k - 1) as nat);
        let (w, x, y) = (den_without(d, j, (k - 1) as nat), d[j], d[k - 1]);
        assert((w * y) * x == (w * x) * y) by (nonlinear_arith);
    }
}

/// One more use of entry `j` adds the product of the other denominators.
proof fn lemma_frac_bump(n: Seq<int>, d: Seq<int>, j: int, k: nat)
    requires
        0 <= j < n.len(),
        k <= n.len(),
    ensures
        frac_num(n.update(j, n[j] + 1), d, k) == frac_num(n, d, k) + if j < k {
            den_without(d, j, k)
        } else {
            0
        },
    decreases k,
{
    if k > 0 {
        let m = n.update(j, n[j] + 1);
        lemma_frac_bump(n, d, j, (k - 1) as nat);
        let (p, q, y) = (frac_num(n, d, (k - 1) as nat), frac_den(d, (k - 1) as nat), d[k - 1]);
        if k - 1 == j {
            assert(m[k - 1] == n[k - 1] + 1);
            assert(q * (n[k - 1] + 1) == q * n[k - 1] + q) by (nonlinear_arith);
        } else {
            assert(m[k - 1] == n[k - 1]);
            let w = den_without(d, j, (k - 1) as nat);
            if j < k {
                assert((p + w) * y == p * y + w * y) by (nonlinear_arith);
            }
        }
    }
}

/// Columns that agree on their first rows have the same fractions there.
proof fn lemma_frac_zeros(n: Seq<int>, d: Seq<int>, k: nat)
    requires
        forall|i: int| 0 <= i < k ==> #[trigger] n[i] == 0,
    ensures
        frac_num(n, d, k) == 0,
    decreases k,
{
    if k > 0 {
        lemma_frac_zeros(n, d, (k - 1) as nat);
        let (q, y) = (frac_den(d, (k - 1) as nat), d[k - 1]);
        assert(n[k - 1] == 0);
        assert(0 * y + q * 0 == 0) by (nonlinear_arith);
    }
}

/// The counts of the first `i` indices.
spec fn counts(idx: Seq<i128>, len: nat, i: nat) -> Seq<int> {
    Seq::new(len, |k: int| count_of(idx, k, i) as int)
}

/// The first `i` rows of the witness cancel against the table weighted by
/// their counts.
proof fn lemma_prefix_cancels(e: Seq<int>, d: Seq<int>, idx: Seq<i128>, i: nat)
    requires
        i <= idx.len(),
        e.len() == idx.len(),
        forall|j: int| 0 <= j < idx.len() ==> 0 <= #[trigger] idx[j] < d.len(),
        forall|j: int| 0 <= j < idx.len() ==> #[trigger] e[j] == d[idx[j] as int],
    ensures
        frac_num(constant(-1, e.len()), e, i) * frac_den(d, d.len()) + frac_den(e, i) * frac_num(
            counts(idx, d.len(), i),
            d,
            d.len(),
        ) == 0,
    decreases i,
{
    let dt = frac_den(d, d.len());
    if i == 0 {
        let c = counts(idx, d.len(), 0);
        lemma_frac_zeros(c, d, d.len());
        assert(0 * dt + 1 * 0 == 0) by (nonlinear_arith);
    } else {
        let j = (i - 1) as nat;
        lemma_prefix_cancels(e, d, idx, j);
        let k = idx[i - 1] as int;
        let c0 = counts(idx, d.len(), j);
        let c1 = counts(idx, d.len(), i);
        assert(c1 =~= c0.update(k, c0[k] + 1));
        lemma_frac_bump(c0, d, k, d.len());
        lemma_den_without(d, k, d.len());
        let w = den_without(d, k, d.len());
        let x = e[i - 1];
        assert(x == d[k]);
        let (p, q) = (frac_num(constant(-1, e.len()), e, j), frac_den(e, j));
        let nt = frac_num(c0, d, d.len());
        assert(constant(-1, e.len())[i - 1] == -1);
        // (p x - q) dt + q x (nt + w) with w x = dt and p dt + q nt = 0
        assert((p * x + q * (-1)) * dt == (p * dt) * x - q * dt) by (nonlinear_arith);
        assert((q * x) * (nt + w) == (q * nt) * x + q * (w * x)) by (nonlinear_arith);
        assert((p * dt) * x + (q * nt) * x == (p * dt + q * nt) * x) by (nonlinear_arith);
        assert((p * dt + q * nt) * x == 0) by (nonlinear_arith)
            requires
                p * dt + q * nt == 0,
        ;
        assert(q * (w * x) == q * dt);
    }
}

/// Where every row of a witness is the table entry that its index names, the
/// top fractions of the witness and of the table, weighted by the indices'
/// multiplicities, cancel.
pub proof fn law_lookup_cancels(
    witness: Seq<int>,
    table: Seq<int>,
    idx: Seq<i128>,
    beta: int,
    k: nat,
    m: nat,
)
    requires
        k >= 1,
        m >= 1,
        witness.len() == pow2(k),
        table.len() == pow2(m),
        idx.len() == witness.len(),
        forall|j: int| 0 <= j < idx.len() ==> 0 <= #[trigger] idx[j] < table.len(),
        forall|j: int| 0 <= j < idx.len() ==> #[trigger] witness[j] == table[idx[j] as int],
    ensures
        tops_cancel(
            top_of_columns(constant(fneg(1), witness.len()), shifted(witness, beta)),
            top_of_columns(multiplicities(idx, table.len()), shifted(table, beta)),
        ),
{
    let e = shifted(witness, beta);
    let d = shifted(table, beta);
    let mults = multiplicities(idx, table.len());
    let minus = constant(fneg(1), witness.len());
    law_top_is_sum(minus, e, k);
    law_top_is_sum(mults, d, m);
    assert forall|j: int| 0 <= j < idx.len() implies #[trigger] e[j] == d[idx[j] as int] by {
        assert(witness[j] == table[idx[j] as int]);
    }
    lemma_prefix_cancels(e, d, idx, idx.len());
    assert(counts(idx, d.len(), idx.len()) =~= mults);
    let ints = constant(-1, witness.len());
    assert forall|i: int| 0 <= i < e.len() implies residue(#[trigger] minus[i]) == residue(ints[i]) by {
        lemma_ops(1, 1);
        lemma_residue_twice(-1);
    }
    lemma_frac_congruent(minus, e, ints, e, pow2(k));
    let (p, q) = (frac_num(ints, e, pow2(k)), frac_den(e, pow2(k)));
    let (nt, dt) = (frac_num(mults, d, pow2(m)), frac_den(d, pow2(m)));
    lemma_residue_mul(p, dt);
    lemma_residue_mul(q, nt);
    lemma_residue_add(p * dt, q * nt);
    lemma_residue_id(0);
}

} // verus!
