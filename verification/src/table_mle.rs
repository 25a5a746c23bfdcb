//! Closed forms for the extensions of the public lookup tables.
//!
//! A verifier evaluates the extension of a range, signed range, ReLU or
//! value table in time linear in the number of variables.

use crate::field::{Fr, all_in_field, fadd, fmul, fneg, fsub, in_field, residue, vals};
use crate::mle::{eval_multilinear_full, fold, mle};
use crate::mle_laws::{combined, constant, law_mle_constant, law_mle_linear, lemma_fold_many_front};
use crate::ring::{
    group_in_field, group_residue, lemma_fmul_one, lemma_residue_add, lemma_residue_id,
    lemma_residue_in_field, lemma_residue_mul, lemma_residue_sub,
};
use vstd::arithmetic::power2::{lemma_pow2_unfold, pow2};
use vstd::prelude::*;

verus! {

/// `sum_j 2^{n-1-j} r_j`: a point read as a big-endian binary number.
pub open spec fn identity_value(r: Seq<int>) -> int
    decreases r.len(),
{
    if r.len() == 0 {
        0
    } else {
        fadd(
            identity_value(r.drop_first()),
            fmul(residue(pow2((r.len() - 1) as nat) as int), r[0]),
        )
    }
}

/// The identity table `T[i] = i` of `2^n` entries.
pub open spec fn identity_table(n: nat) -> Seq<int> {
    Seq::new(pow2(n), |i: int| residue(i))
}

/// `2^{n-1}`, and `1` for `n = 0`.
pub open spec fn half_size(n: nat) -> int {
    if n == 0 {
        1
    } else {
        pow2((n - 1) as nat) as int
    }
}

/// The signed range table `T[i] = i - 2^{n-1}` of `2^n` entries.
pub open spec fn signed_range_table(n: nat) -> Seq<int> {
    Seq::new(pow2(n), |i: int| residue(i - half_size(n)))
}

/// The ReLU table `T[i] = alpha x + ReLU(x)` with `x = i - 2^{n-1}`.
pub open spec fn relu_table(n: nat, alpha: int) -> Seq<int> {
    Seq::new(
        pow2(n),
        |i: int|
            fadd(
                fmul(alpha, residue(i - half_size(n))),
                residue(
                    if i >= half_size(n) {
                        i - half_size(n)
                    } else {
                        0
                    },
                ),
            ),
    )
}

/// The closed form of the ReLU table's extension.
pub open spec fn relu_value(r: Seq<int>, alpha: int) -> int {
    let y = identity_value(r.drop_first());
    fadd(
        fmul(alpha, fsub(y, fmul(residue(half_size(r.len())), fsub(1, r[0])))),
        fmul(r[0], y),
    )
}

/// `2^k` in the field.
pub fn pow2_fr(k: usize) -> (r: Fr)
    ensures
        r@ == residue(pow2(k as nat) as int),
{
    let mut acc: Fr = Fr::from_u64(1);
    let two: Fr = Fr::from_u64(2);
    let mut i: usize = 0;
    proof {
        vstd::arithmetic::power2::lemma2_to64();
        lemma_residue_id(1);
        lemma_residue_id(2);
    }
    while i < k
        invariant
            i <= k,
            two@ == residue(2),
            acc@ == residue(pow2(i as nat) as int),
        decreases k - i,
    {
        acc = acc.mul(two);
        proof {
            lemma_residue_mul(pow2(i as nat) as int, 2);
            lemma_pow2_unfold((i + 1) as nat);
        }
        i += 1;
    }
    acc
}

/// The extension of the identity table `T[i] = i` at a point.
pub fn identity_mle_eval(point: &[Fr]) -> (r: Fr)
    ensures
        r@ == identity_value(vals(point@)),
{
    let ghost p = vals(point@);
    let n: usize = point.len();
    let mut acc: Fr = Fr::from_u64(0);
    let mut pow: Fr = Fr::from_u64(1);
    let two: Fr = Fr::from_u64(2);
    let mut k: usize = 0;
    proof {
        vstd::arithmetic::power2::lemma2_to64();
        lemma_residue_id(1);
        lemma_residue_id(2);
    }
    assert(p.skip(n as int).len() == 0);
    while k < n
        invariant
            k <= n,
            n == point@.len(),
            p == vals(point@),
            two@ == residue(2),
            pow@ == residue(pow2(k as nat) as int),
            acc@ == identity_value(p.skip(n - k)),
        decreases n - k,
    {
        let x: Fr = point[n - 1 - k];
        acc = acc.add(pow.mul(x));
        pow = pow.mul(two);
        proof {
            let s = p.skip(n - k - 1);
            assert(s.drop_first() =~= p.skip(n - k));
            assert(s[0] == x@);
            lemma_residue_mul(pow2(k as nat) as int, 2);
            lemma_pow2_unfold((k + 1) as nat);
        }
        k += 1;
    }
    assert(p.skip(0) =~= p);
    acc
}

/// The extension of the signed range table `T[i] = i - 2^{n-1}` at a point.
pub fn signed_centered_range_mle_eval(point: &[Fr]) -> (r: Fr)
    ensures
        r@ == fsub(identity_value(vals(point@)), residue(half_size(point@.len()))),
{
    let n: usize = point.len();
    proof {
        vstd::arithmetic::power2::lemma2_to64();
    }
    let half: Fr = if n == 0 {
        pow2_fr(0)
    } else {
        pow2_fr(n - 1)
    };
    identity_mle_eval(point).sub(half)
}

/// The extension of the non-negative range table `T[i] = i` at a point.
pub fn pos_range_mle_eval(point: &[Fr]) -> (r: Fr)
    ensures
        r@ == identity_value(vals(point@)),
{
    identity_mle_eval(point)
}

/// The extension of the ReLU table at a point.
pub fn relu_table_mle_eval(point: &[Fr], alpha: Fr) -> (r: Fr)
    requires
        point@.len() >= 1,
    ensures
        r@ == relu_value(vals(point@), alpha@),
{
    let n: usize = point.len();
    let r_high: Fr = point[0];
    let r_low: &[Fr] = vstd::slice::slice_subrange(point, 1, n);
    assert(vals(r_low@) =~= vals(point@).drop_first());
    let y: Fr = identity_mle_eval(r_low);
    let two_k: Fr = pow2_fr(n - 1);
    let x: Fr = y.sub(two_k.mul(Fr::from_u64(1).sub(r_high)));
    let relu: Fr = r_high.mul(y);
    alpha.mul(x).add(relu)
}

/// The extension at a point of the table `T[i] = alpha i + sigma[i]`.
pub fn sigma_value_table_mle_eval(point: &[Fr], alpha: Fr, sigma_values: &[Fr]) -> (r: Fr)
    requires
        sigma_values@.len() == pow2(point@.len()),
    ensures
        r@ == fadd(
            fmul(alpha@, identity_value(vals(point@))),
            mle(vals(sigma_values@), vals(point@)),
        ),
{
    alpha.mul(identity_mle_eval(point)).add(eval_multilinear_full(sigma_values, point))
}

// ---- The closed forms are the extensions ----

proof fn lemma_identity_in_field(r: Seq<int>)
    ensures
        in_field(identity_value(r)),
{
    broadcast use group_in_field;

}

proof fn lemma_identity_table_in_field(n: nat)
    ensures
        all_in_field(identity_table(n)),
{
    broadcast use group_in_field;

}

proof fn lemma_identity_fold_entry(i: int, p: int, x: int)
    requires
        in_field(x),
    ensures
        fadd(residue(i), fmul(x, fsub(residue(p + i), residue(i)))) == fadd(
            fmul(1, residue(i)),
            fmul(residue(p), x),
        ),
{
    broadcast use group_residue;

    lemma_residue_id(x);
    lemma_residue_id(1);
    assert(i + x * (p + i - i) == 1 * i + p * x) by (nonlinear_arith);
}

/// The closed form of the identity table is its extension.
pub proof fn law_identity_table(r: Seq<int>)
    requires
        all_in_field(r),
    ensures
        mle(identity_table(r.len()), r) == identity_value(r),
    decreases r.len(),
{
    broadcast use group_in_field;

    vstd::arithmetic::power2::lemma2_to64();
    let n = r.len();
    if n == 0 {
        lemma_residue_id(0);
    } else {
        let x = r[0];
        let q = r.drop_first();
        assert(in_field(x));
        assert forall|i: int| 0 <= i < q.len() implies in_field(#[trigger] q[i]) by {
            assert(in_field(r[i + 1]));
        }
        let m = (n - 1) as nat;
        lemma_pow2_unfold(n);
        let p = pow2(m) as int;
        let c = fmul(residue(p), x);
        let f = fold(identity_table(n), x);
        let g = combined(1, identity_table(m), constant(c, pow2(m)));
        assert forall|i: int| 0 <= i < f.len() implies #[trigger] f[i] == g[i] by {
            lemma_identity_fold_entry(i, p, x);
        }
        assert(f =~= g);
        lemma_fold_many_front(identity_table(n), r);
        law_identity_table(q);
        lemma_identity_table_in_field(m);
        law_mle_linear(1, identity_table(m), constant(c, pow2(m)), q);
        law_mle_constant(c, q);
        lemma_identity_in_field(q);
        lemma_fmul_one(identity_value(q));
    }
}

/// The closed form of the signed range table is its extension.
pub proof fn law_signed_range_table(r: Seq<int>)
    requires
        all_in_field(r),
    ensures
        mle(signed_range_table(r.len()), r) == fsub(
            identity_value(r),
            residue(half_size(r.len())),
        ),
{
    broadcast use group_in_field;

    let n = r.len();
    let c = residue(0 - half_size(n));
    let g = combined(1, identity_table(n), constant(c, pow2(n)));
    let s = signed_range_table(n);
    assert forall|i: int| 0 <= i < s.len() implies #[trigger] s[i] == g[i] by {
        lemma_residue_in_field(i);
        lemma_fmul_one(residue(i));
        lemma_residue_add(i, 0 - half_size(n));
    }
    assert(s =~= g);
    law_identity_table(r);
    lemma_identity_table_in_field(n);
    law_mle_linear(1, identity_table(n), constant(c, pow2(n)), r);
    law_mle_constant(c, r);
    let v = identity_value(r);
    lemma_identity_in_field(r);
    lemma_fmul_one(v);
    lemma_residue_id(v);
    lemma_residue_add(v, 0 - half_size(n));
    lemma_residue_sub(v, half_size(n));
}

proof fn lemma_relu_fold_entry(alpha: int, y: int, p: int, h: int)
    requires
        in_field(alpha),
        in_field(h),
    ensures
        fadd(
            fadd(fmul(alpha, residue(y - p)), residue(0)),
            fmul(
                h,
                fsub(
                    fadd(fmul(alpha, residue(y)), residue(y)),
                    fadd(fmul(alpha, residue(y - p)), residue(0)),
                ),
            ),
        ) == fadd(
            fmul(fadd(alpha, h), residue(y)),
            fneg(fmul(alpha, fmul(residue(p), fsub(1, h)))),
        ),
{
    broadcast use group_residue;

    lemma_residue_id(alpha);
    lemma_residue_id(h);
    lemma_residue_id(1);
    let lo = alpha * (y - p) + 0;
    let hi = alpha * y + y;
    assert(lo == alpha * y - alpha * p) by (nonlinear_arith)
        requires
            lo == alpha * (y - p) + 0,
    ;
    assert(h * (hi - lo) == h * y + h * (alpha * p)) by (nonlinear_arith)
        requires
            hi - lo == y + alpha * p,
    ;
    assert((alpha + h) * y == alpha * y + h * y) by (nonlinear_arith);
    assert(alpha * (p * (1 - h)) == alpha * p - h * (alpha * p)) by (nonlinear_arith);
}

proof fn lemma_relu_closing(alpha: int, y: int, k: int, h: int)
    requires
        in_field(alpha),
        in_field(h),
        in_field(y),
        in_field(k),
    ensures
        fadd(fmul(fadd(alpha, h), y), fneg(fmul(alpha, fmul(k, fsub(1, h))))) == fadd(
            fmul(alpha, fsub(y, fmul(k, fsub(1, h)))),
            fmul(h, y),
        ),
{
    broadcast use group_residue;

    lemma_residue_id(alpha);
    lemma_residue_id(h);
    lemma_residue_id(y);
    lemma_residue_id(k);
    lemma_residue_id(1);
    let z = k * (1 - h);
    assert((alpha + h) * y == alpha * y + h * y) by (nonlinear_arith);
    assert(alpha * (y - z) == alpha * y - alpha * z) by (nonlinear_arith);
}

/// The closed form of the ReLU table is its extension.
pub proof fn law_relu_table(r: Seq<int>, alpha: int)
    requires
        r.len() >= 1,
        all_in_field(r),
        in_field(alpha),
    ensures
        mle(relu_table(r.len(), alpha), r) == relu_value(r, alpha),
{
    broadcast use group_in_field;

    let n = r.len();
    let m = (n - 1) as nat;
    let h = r[0];
    let q = r.drop_first();
    assert(in_field(h));
    assert forall|i: int| 0 <= i < q.len() implies in_field(#[trigger] q[i]) by {
        assert(in_field(r[i + 1]));
    }
    lemma_pow2_unfold(n);
    let p = pow2(m) as int;
    let t = relu_table(n, alpha);
    let a = fadd(alpha, h);
    let c = fneg(fmul(alpha, fmul(residue(p), fsub(1, h))));
    let f = fold(t, h);
    let g = combined(a, identity_table(m), constant(c, pow2(m)));
    assert forall|i: int| 0 <= i < f.len() implies #[trigger] f[i] == g[i] by {
        lemma_relu_fold_entry(alpha, i, p, h);
        assert(p + i - p == i);
    }
    assert(f =~= g);
    lemma_fold_many_front(t, r);
    law_identity_table(q);
    lemma_identity_table_in_field(m);
    law_mle_linear(a, identity_table(m), constant(c, pow2(m)), q);
    law_mle_constant(c, q);
    lemma_identity_in_field(q);
    lemma_relu_closing(alpha, identity_value(q), residue(p), h);
}

/// The value table's extension is the scaled identity's plus the values'.
pub proof fn law_sigma_value_table(r: Seq<int>, alpha: int, sigma: Seq<int>)
    requires
        all_in_field(r),
        in_field(alpha),
        all_in_field(sigma),
        sigma.len() == pow2(r.len()),
    ensures
        mle(combined(alpha, identity_table(r.len()), sigma), r) == fadd(
            fmul(alpha, identity_value(r)),
            mle(sigma, r),
        ),
{
    lemma_identity_table_in_field(r.len());
    law_identity_table(r);
    law_mle_linear(alpha, identity_table(r.len()), sigma, r);
}

} // verus!
