//! Univariate polynomials over the field, given by their values at
//! `0, 1, .., d`.

use crate::field::{Fr, fadd, fmul, fsub, in_field, modulus, residue, vals};
use crate::mle::copied;
use crate::ring::{
    group_in_field, lemma_fadd_zero, lemma_fmul_one, lemma_residue_add, lemma_residue_id,
    lemma_residue_mul, lemma_residue_sub,
};
use vstd::prelude::*;

verus! {

/// The inverse modulo the field order of `1`, `2`, `3` or `4`.
pub open spec fn small_inverse(k: int) -> int {
    if k == 1 {
        1
    } else if k == 2 {
        10944121435919637611123202872628637544274182200208017171849102093287904247809int
    } else if k == 3 {
        14592161914559516814830937163504850059032242933610689562465469457717205663745int
    } else {
        16416182153879456416684804308942956316411273300312025757773653139931856371713int
    }
}

/// The forward differences of a sequence.
pub open spec fn differences(s: Seq<int>) -> Seq<int> {
    Seq::new((s.len() - 1) as nat, |i: int| fsub(s[i + 1], s[i]))
}

/// The tail, from term `k` on, of Newton's forward-difference formula:
/// `coef` is the binomial coefficient `r (r-1) .. (r-k+1) / k!`, and `s` the
/// `k`-th differences of the samples.
pub open spec fn newton_tail(s: Seq<int>, r: int, k: nat, coef: int) -> int
    decreases s.len(),
{
    if s.len() == 0 {
        0
    } else {
        fadd(
            fmul(coef, s[0]),
            newton_tail(
                differences(s),
                r,
                k + 1,
                fmul(fmul(coef, fsub(r, k as int)), small_inverse(k as int + 1)),
            ),
        )
    }
}

/// The value at `r` of the polynomial of degree below `samples.len()` that
/// takes the given values at `0, 1, ..`, by Newton's forward-difference
/// formula. At most five samples are supported.
pub open spec fn interpolate(samples: Seq<int>, r: int) -> int {
    newton_tail(samples, r, 0, 1)
}

/// The field element that `small_inverse` names.
fn small_inverse_fr(k: usize) -> (r: Fr)
    requires
        1 <= k,
    ensures
        r@ == small_inverse(k as int),
{
    let limbs: [u64; 4] = if k == 1 {
        [1, 0, 0, 0]
    } else if k == 2 {
        [0xa1f0fac9f8000001, 0x9419f4243cdcb848, 0xdc2822db40c0ac2e, 0x183227397098d014]
    } else if k == 3 {
        [0x2d414e62a0000001, 0x70229adafbd0f5b6, 0xd03583cf0100e593, 0x2042def740cbc01b]
    } else {
        [0xf2e9782ef4000001, 0xde26ee365b4b146c, 0x4a3c3448e1210245, 0x244b3ad628e5381f]
    };
    match Fr::from_limbs(limbs) {
        Some(x) => x,
        None => Fr::from_u64(0),
    }
}

/// Evaluate at `r` the polynomial that takes the given values at `0, 1, ..`.
pub fn interpolate_at(samples: &[Fr], r: Fr) -> (v: Fr)
    ensures
        v@ == interpolate(vals(samples@), r@),
{
    let s: Vec<Fr> = copied(samples);
    let n: usize = s.len();
    newton_from(s, r, 0, Fr::from_u64(1))
}

/// Evaluate the tail of Newton's formula from term `k` on.
fn newton_from(s: Vec<Fr>, r: Fr, k: usize, coef: Fr) -> (v: Fr)
    requires
        k + s@.len() <= usize::MAX,
    ensures
        v@ == newton_tail(vals(s@), r@, k as nat, coef@),
    decreases s@.len(),
{
    if s.len() == 0 {
        return Fr::from_u64(0);
    }
    let mut d: Vec<Fr> = Vec::with_capacity(s.len() - 1);
    let mut i: usize = 0;
    let last: usize = s.len() - 1;
    while i < last
        invariant
            last + 1 == s@.len(),
            i <= last,
            d@.len() == i,
            forall|j: int| 0 <= j < i ==> (#[trigger] d@[j])@ == fsub(s@[j + 1]@, s@[j]@),
        decreases last - i,
    {
        d.push(s[i + 1].sub(s[i]));
        i += 1;
    }
    assert(vals(d@) =~= differences(vals(s@)));
    let head: Fr = coef.mul(s[0]);
    let next: Fr = coef.mul(r.sub(Fr::from_u64(k as u64))).mul(small_inverse_fr(k + 1));
    head.add(newton_from(d, r, k + 1, next))
}

// ---- Polynomials by their integer coefficients ----

/// The coefficients of the line through `a` at `0` and `b` at `1`.
pub open spec fn lin(a: int, b: int) -> Seq<int> {
    seq![a, b - a]
}

/// Whether `x` is the value at `t` of the polynomial with coefficients `c`.
pub open spec fn on_poly(x: int, c: Seq<int>, t: int) -> bool {
    x == residue(poly(c, t))
}

/// A point of a line of residues.
pub proof fn lemma_on_lin(a: int, b: int, t: int)
    requires
        in_field(a),
        in_field(b),
        in_field(t),
    ensures
        on_poly(fadd(a, fmul(t, fsub(b, a))), lin(a, b), t),
{
    lemma_residue_id(a);
    lemma_residue_id(b);
    lemma_residue_id(t);
    lemma_residue_sub(b, a);
    lemma_residue_mul(t, b - a);
    lemma_residue_add(a, t * (b - a));
    let c = lin(a, b);
    reveal_with_fuel(poly, 3);
    assert(c.drop_first().drop_first().len() == 0);
    assert(c.drop_first()[0] == b - a);
    assert(t * 0 == 0);
}

/// A constant.
pub proof fn lemma_on_const(a: int, t: int)
    requires
        in_field(a),
    ensures
        on_poly(a, seq![a], t),
{
    lemma_residue_id(a);
    reveal_with_fuel(poly, 2);
    assert(seq![a].drop_first().len() == 0);
    assert(t * 0 == 0);
}

pub proof fn lemma_on_add(x: int, c: Seq<int>, y: int, d: Seq<int>, t: int)
    requires
        on_poly(x, c, t),
        on_poly(y, d, t),
    ensures
        on_poly(fadd(x, y), poly_add(c, d), t),
{
    lemma_residue_add(poly(c, t), poly(d, t));
    lemma_poly_add(c, d, t);
}

/// The coefficients of a difference.
pub open spec fn poly_sub(c: Seq<int>, d: Seq<int>) -> Seq<int> {
    poly_add(c, poly_scale(-1, d))
}

pub proof fn lemma_on_sub(x: int, c: Seq<int>, y: int, d: Seq<int>, t: int)
    requires
        on_poly(x, c, t),
        on_poly(y, d, t),
    ensures
        on_poly(fsub(x, y), poly_sub(c, d), t),
{
    lemma_residue_sub(poly(c, t), poly(d, t));
    lemma_poly_scale(-1, d, t);
    lemma_poly_add(c, poly_scale(-1, d), t);
}

pub proof fn lemma_on_mul(x: int, c: Seq<int>, y: int, d: Seq<int>, t: int)
    requires
        on_poly(x, c, t),
        on_poly(y, d, t),
    ensures
        on_poly(fmul(x, y), poly_mul(c, d), t),
{
    lemma_residue_mul(poly(c, t), poly(d, t));
    lemma_poly_mul(c, d, t);
}

/// The integer value at `t` of the polynomial with coefficients `c`, the
/// constant one first.
pub open spec fn poly(c: Seq<int>, t: int) -> int
    decreases c.len(),
{
    if c.len() == 0 {
        0
    } else {
        c[0] + t * poly(c.drop_first(), t)
    }
}

/// The coefficients of a sum.
pub open spec fn poly_add(c: Seq<int>, d: Seq<int>) -> Seq<int> {
    Seq::new(
        if c.len() >= d.len() {
            c.len()
        } else {
            d.len()
        },
        |i: int|
            (if i < c.len() {
                c[i]
            } else {
                0
            }) + (if i < d.len() {
                d[i]
            } else {
                0
            }),
    )
}

/// The coefficients of a multiple.
pub open spec fn poly_scale(a: int, c: Seq<int>) -> Seq<int> {
    Seq::new(c.len(), |i: int| a * c[i])
}

/// The coefficients of a product.
pub open spec fn poly_mul(c: Seq<int>, d: Seq<int>) -> Seq<int>
    decreases c.len(),
{
    if c.len() == 0 || d.len() == 0 {
        Seq::empty()
    } else {
        poly_add(poly_scale(c[0], d), seq![0int] + poly_mul(c.drop_first(), d))
    }
}

pub proof fn lemma_poly_add(c: Seq<int>, d: Seq<int>, t: int)
    ensures
        poly(poly_add(c, d), t) == poly(c, t) + poly(d, t),
    decreases c.len() + d.len(),
{
    if c.len() == 0 {
        assert(poly_add(c, d) =~= d);
    } else if d.len() == 0 {
        assert(poly_add(c, d) =~= c);
    } else {
        let s = poly_add(c, d);
        let c1 = c.drop_first();
        let d1 = d.drop_first();
        assert(s.drop_first() =~= poly_add(c1, d1));
        lemma_poly_add(c1, d1, t);
        assert(t * (poly(c1, t) + poly(d1, t)) == t * poly(c1, t) + t * poly(d1, t))
            by (nonlinear_arith);
    }
}

pub proof fn lemma_poly_scale(a: int, c: Seq<int>, t: int)
    ensures
        poly(poly_scale(a, c), t) == a * poly(c, t),
    decreases c.len(),
{
    if c.len() > 0 {
        assert(poly_scale(a, c).drop_first() =~= poly_scale(a, c.drop_first()));
        lemma_poly_scale(a, c.drop_first(), t);
        let p = poly(c.drop_first(), t);
        assert(a * c[0] + t * (a * p) == a * (c[0] + t * p)) by (nonlinear_arith);
    }
}

pub proof fn lemma_poly_mul(c: Seq<int>, d: Seq<int>, t: int)
    ensures
        poly(poly_mul(c, d), t) == poly(c, t) * poly(d, t),
        poly_mul(c, d).len() + 1 <= c.len() + d.len() || poly_mul(c, d).len() == 0,
    decreases c.len(),
{
    if c.len() > 0 && d.len() > 0 {
        let c1 = c.drop_first();
        let m = poly_mul(c1, d);
        lemma_poly_mul(c1, d, t);
        lemma_poly_scale(c[0], d, t);
        lemma_poly_add(poly_scale(c[0], d), seq![0int] + m, t);
        assert((seq![0int] + m).drop_first() =~= m);
        let p = poly(c1, t);
        let q = poly(d, t);
        assert(c[0] * q + t * (p * q) == (c[0] + t * p) * q) by (nonlinear_arith);
    } else if c.len() == 0 {
        assert(0 * poly(d, t) == 0);
    } else {
        assert(poly(c, t) * 0 == 0);
    }
}

/// The values of a polynomial of at most five coefficients.
proof fn lemma_poly5(c: Seq<int>, t: int)
    requires
        c.len() == 5,
    ensures
        poly(c, t) == c[0] + t * (c[1] + t * (c[2] + t * (c[3] + t * c[4]))),
{
    reveal_with_fuel(poly, 6);
    let c1 = c.drop_first();
    let c2 = c1.drop_first();
    let c3 = c2.drop_first();
    let c4 = c3.drop_first();
    assert(c4.drop_first().len() == 0);
    assert(t * 0 == 0);
}

/// Trailing zero coefficients do not matter.
proof fn lemma_poly_pad(c: Seq<int>, t: int, n: nat)
    requires
        c.len() <= n,
    ensures
        poly(poly_add(c, Seq::new(n, |i: int| 0int)), t) == poly(c, t),
        poly_add(c, Seq::new(n, |i: int| 0int)).len() == n,
{
    let z = Seq::new(n, |i: int| 0int);
    lemma_poly_add(c, z, t);
    lemma_poly_zero(z, t);
}

proof fn lemma_poly_zero(z: Seq<int>, t: int)
    requires
        forall|i: int| 0 <= i < z.len() ==> z[i] == 0,
    ensures
        poly(z, t) == 0,
    decreases z.len(),
{
    if z.len() > 0 {
        lemma_poly_zero(z.drop_first(), t);
        assert(t * 0 == 0);
    }
}

/// A small inverse cancels its argument under `residue`.
proof fn lemma_small_inverse(k: int, y: int, x: int)
    requires
        1 <= k <= 4,
    ensures
        residue(y * small_inverse(k) * (k * x)) == residue(y * x),
{
    reveal(residue);
    let p = modulus();
    let v = small_inverse(k);
    let q = (v * k - 1) / p;
    assert(v * k == 1 + q * p);
    assert(y * v * (k * x) == (y * x) + (q * (y * x)) * p) by (nonlinear_arith)
        requires
            v * k == 1 + q * p,
    ;
    vstd::arithmetic::div_mod::lemma_mod_multiples_vanish(q * (y * x), y * x, p);
    assert(p * (q * (y * x)) + y * x == (y * x) + (q * (y * x)) * p) by (nonlinear_arith);
}

/// The samples of a polynomial at `0, 1, .., n-1`.
pub open spec fn sampled(c: Seq<int>, n: nat) -> Seq<int> {
    Seq::new(n, |i: int| residue(poly(c, i)))
}

/// The leading differences of the samples of a quartic.
proof fn lemma_differences5(c: Seq<int>)
    requires
        c.len() == 5,
    ensures
        ({
            let s = sampled(c, 5);
            let d1 = differences(s);
            let d2 = differences(d1);
            let d3 = differences(d2);
            let d4 = differences(d3);
            &&& s[0] == residue(c[0])
            &&& d1[0] == residue(c[1] + c[2] + c[3] + c[4])
            &&& d2[0] == residue(2 * (c[2] + 3 * c[3] + 7 * c[4]))
            &&& d3[0] == residue(6 * (c[3] + 6 * c[4]))
            &&& d4[0] == residue(24 * c[4])
        }),
{
    let s = sampled(c, 5);
    let (c0, c1, c2, c3, c4) = (c[0], c[1], c[2], c[3], c[4]);
    lemma_poly5(c, 0);
    lemma_poly5(c, 1);
    lemma_poly5(c, 2);
    lemma_poly5(c, 3);
    lemma_poly5(c, 4);
    let s0 = c0;
    let s1 = c0 + c1 + c2 + c3 + c4;
    let s2 = c0 + 2 * c1 + 4 * c2 + 8 * c3 + 16 * c4;
    let s3 = c0 + 3 * c1 + 9 * c2 + 27 * c3 + 81 * c4;
    let s4 = c0 + 4 * c1 + 16 * c2 + 64 * c3 + 256 * c4;
    assert(s[0] == residue(s0));
    assert(s[1] == residue(s1));
    assert(s[2] == residue(s2));
    assert(s[3] == residue(s3));
    assert(s[4] == residue(s4));
    let d1 = differences(s);
    lemma_residue_sub(s1, s0);
    lemma_residue_sub(s2, s1);
    lemma_residue_sub(s3, s2);
    lemma_residue_sub(s4, s3);
    let d2 = differences(d1);
    lemma_residue_sub(s2 - s1, s1 - s0);
    lemma_residue_sub(s3 - s2, s2 - s1);
    lemma_residue_sub(s4 - s3, s3 - s2);
    let (a0, a1, a2) = ((s2 - s1) - (s1 - s0), (s3 - s2) - (s2 - s1), (s4 - s3) - (s3 - s2));
    assert(d2[0] == residue(a0) && d2[1] == residue(a1) && d2[2] == residue(a2));
    let d3 = differences(d2);
    lemma_residue_sub(a1, a0);
    lemma_residue_sub(a2, a1);
    assert(d3[0] == residue(a1 - a0) && d3[1] == residue(a2 - a1));
    lemma_residue_sub(a2 - a1, a1 - a0);
    assert(s1 - s0 == c1 + c2 + c3 + c4);
    assert(a0 == 2 * (c2 + 3 * c3 + 7 * c4));
    assert(a1 - a0 == 6 * (c3 + 6 * c4));
    assert((a2 - a1) - (a1 - a0) == 24 * c4);
}

/// The binomial coefficients of Newton's formula at `r`.
pub open spec fn binomial(r: int, k: nat) -> int
    decreases k,
{
    if k == 0 {
        1
    } else {
        fmul(fmul(binomial(r, (k - 1) as nat), fsub(r, k - 1)), small_inverse(k as int))
    }
}

/// Newton's formula written out for five samples.
proof fn lemma_newton_terms5(s: Seq<int>, r: int)
    requires
        s.len() == 5,
    ensures
        ({
            let d1 = differences(s);
            let d2 = differences(d1);
            let d3 = differences(d2);
            let d4 = differences(d3);
            interpolate(s, r) == fadd(
                fmul(binomial(r, 0), s[0]),
                fadd(
                    fmul(binomial(r, 1), d1[0]),
                    fadd(
                        fmul(binomial(r, 2), d2[0]),
                        fadd(fmul(binomial(r, 3), d3[0]), fadd(fmul(binomial(r, 4), d4[0]), 0)),
                    ),
                ),
            )
        }),
{
    reveal_with_fuel(newton_tail, 6);
    reveal_with_fuel(binomial, 5);
    let d1 = differences(s);
    let d2 = differences(d1);
    let d3 = differences(d2);
    let d4 = differences(d3);
    assert(differences(d4).len() == 0);
}

/// Newton's formula written out for four samples.
proof fn lemma_newton_terms4(s: Seq<int>, r: int)
    requires
        s.len() == 4,
    ensures
        ({
            let d1 = differences(s);
            let d2 = differences(d1);
            let d3 = differences(d2);
            interpolate(s, r) == fadd(
                fmul(binomial(r, 0), s[0]),
                fadd(
                    fmul(binomial(r, 1), d1[0]),
                    fadd(fmul(binomial(r, 2), d2[0]), fadd(fmul(binomial(r, 3), d3[0]), 0)),
                ),
            )
        }),
{
    reveal_with_fuel(newton_tail, 5);
    reveal_with_fuel(binomial, 4);
    let d1 = differences(s);
    let d2 = differences(d1);
    let d3 = differences(d2);
    assert(differences(d3).len() == 0);
}

/// Newton's formula written out for three samples.
proof fn lemma_newton_terms3(s: Seq<int>, r: int)
    requires
        s.len() == 3,
    ensures
        ({
            let d1 = differences(s);
            let d2 = differences(d1);
            interpolate(s, r) == fadd(
                fmul(binomial(r, 0), s[0]),
                fadd(fmul(binomial(r, 1), d1[0]), fadd(fmul(binomial(r, 2), d2[0]), 0)),
            )
        }),
{
    reveal_with_fuel(newton_tail, 4);
    reveal_with_fuel(binomial, 3);
    let d1 = differences(s);
    let d2 = differences(d1);
    assert(differences(d2).len() == 0);
}

/// The binomial coefficients as residues.
proof fn lemma_binomials(r: int)
    requires
        in_field(r),
    ensures
        binomial(r, 0) == residue(1),
        binomial(r, 1) == residue(r),
        binomial(r, 2) == residue(r * (r - 1) * small_inverse(2)),
        binomial(r, 3) == residue(r * (r - 1) * small_inverse(2) * (r - 2) * small_inverse(3)),
        binomial(r, 4) == residue(
            r * (r - 1) * small_inverse(2) * (r - 2) * small_inverse(3) * (r - 3) * small_inverse(4),
        ),
{
    let (v2, v3, v4) = (small_inverse(2), small_inverse(3), small_inverse(4));
    lemma_residue_id(r);
    lemma_residue_id(0);
    lemma_residue_id(1);
    lemma_residue_id(2);
    lemma_residue_id(3);
    lemma_residue_id(v2);
    lemma_residue_id(v3);
    lemma_residue_id(v4);
    lemma_residue_sub(r, 0);
    lemma_residue_sub(r, 1);
    lemma_residue_sub(r, 2);
    lemma_residue_sub(r, 3);
    reveal_with_fuel(binomial, 2);
    lemma_residue_mul(1, r);
    lemma_residue_mul(r, 1);
    assert(binomial(r, 1) == residue(r));
    let y1 = r * (r - 1);
    lemma_residue_mul(r, r - 1);
    lemma_residue_mul(y1, v2);
    assert(binomial(r, 2) == residue(y1 * v2));
    let y2 = y1 * v2 * (r - 2);
    lemma_residue_mul(y1 * v2, r - 2);
    lemma_residue_mul(y2, v3);
    assert(binomial(r, 3) == residue(y2 * v3));
    let y3 = y2 * v3 * (r - 3);
    lemma_residue_mul(y2 * v3, r - 3);
    lemma_residue_mul(y3, v4);
    assert(binomial(r, 4) == residue(y3 * v4));
}

/// The last two factors of a product can change places.
proof fn lemma_swap(a: int, b: int, c: int)
    ensures
        a * b * c == a * c * b,
{
    assert(a * b * c == a * c * b) by (nonlinear_arith);
}

/// The terms of Newton's formula on the samples of a quartic.
proof fn lemma_newton_products(c1: int, c2: int, c3: int, c4: int, r: int)
    requires
        in_field(r),
    ensures
        fmul(binomial(r, 1), residue(c1)) == residue(r * c1),
        fmul(binomial(r, 2), residue(2 * c2)) == residue(r * (r - 1) * c2),
        fmul(binomial(r, 3), residue(6 * c3)) == residue(r * (r - 1) * (r - 2) * c3),
        fmul(binomial(r, 4), residue(24 * c4)) == residue(r * (r - 1) * (r - 2) * (r - 3) * c4),
{
    lemma_binomials(r);
    let (v2, v3, v4) = (small_inverse(2), small_inverse(3), small_inverse(4));
    let y = r * (r - 1);
    let w = r - 2;
    let z = r - 3;
    lemma_residue_mul(r, c1);
    lemma_residue_mul(y * v2, 2 * c2);
    lemma_small_inverse(2, y, c2);
    lemma_residue_mul(y * v2 * w * v3, 6 * c3);
    lemma_swap(y, v2, w);
    lemma_swap(y * w, v2, v3);
    assert(6 * c3 == 2 * (3 * c3));
    assert(y * v2 * w * v3 * (6 * c3) == (y * w * v3) * v2 * (2 * (3 * c3)));
    lemma_small_inverse(2, y * w * v3, 3 * c3);
    lemma_small_inverse(3, y * w, c3);
    lemma_residue_mul(y * v2 * w * v3 * z * v4, 24 * c4);
    lemma_swap(y * w * v3, v2, z);
    lemma_swap(y * w * v3 * z, v2, v4);
    assert(24 * c4 == 2 * (12 * c4));
    assert(y * v2 * w * v3 * z * v4 * (24 * c4) == (y * w * v3 * z * v4) * v2 * (2 * (12 * c4)));
    lemma_small_inverse(2, y * w * v3 * z * v4, 12 * c4);
    lemma_swap(y * w, v3, z);
    lemma_swap(y * w * z, v3, v4);
    assert(12 * c4 == 3 * (4 * c4));
    assert((y * w * v3 * z * v4) * (12 * c4) == (y * w * z * v4) * v3 * (3 * (4 * c4)));
    lemma_small_inverse(3, y * w * z * v4, 4 * c4);
    lemma_small_inverse(4, y * w * z, c4);
}

/// Newton's formula on the samples of a polynomial of degree at most four.
proof fn lemma_newton5(c: Seq<int>, r: int)
    requires
        c.len() == 5,
        in_field(r),
    ensures
        interpolate(sampled(c, 5), r) == residue(poly(c, r)),
{
    let s = sampled(c, 5);
    let (c0, c1, c2, c3, c4) = (c[0], c[1], c[2], c[3], c[4]);
    lemma_differences5(c);
    lemma_newton_terms5(s, r);
    lemma_newton_products(c1 + c2 + c3 + c4, c2 + 3 * c3 + 7 * c4, c3 + 6 * c4, c4, r);
    lemma_binomials(r);
    lemma_residue_mul(1, c0);
    let i4 = r * (r - 1) * (r - 2) * (r - 3) * c4;
    let i3 = r * (r - 1) * (r - 2) * (c3 + 6 * c4);
    let i2 = r * (r - 1) * (c2 + 3 * c3 + 7 * c4);
    let i1 = r * (c1 + c2 + c3 + c4);
    lemma_residue_id(0);
    lemma_residue_add(i4, 0);
    lemma_residue_add(i3, i4);
    lemma_residue_add(i2, i3 + i4);
    lemma_residue_add(i1, i2 + (i3 + i4));
    lemma_residue_add(c0, i1 + (i2 + (i3 + i4)));
    lemma_poly5(c, r);
    lemma_falling_factorials(c0, c1, c2, c3, c4, r);
}

/// A quartic written in falling factorials.
proof fn lemma_falling_factorials(c0: int, c1: int, c2: int, c3: int, c4: int, r: int)
    ensures
        c0 + (r * (c1 + c2 + c3 + c4) + (r * (r - 1) * (c2 + 3 * c3 + 7 * c4) + (r * (r - 1) * (r
            - 2) * (c3 + 6 * c4) + r * (r - 1) * (r - 2) * (r - 3) * c4))) == c0 + r * (c1 + r * (c2
            + r * (c3 + r * c4))),
{
    let r2 = r * r;
    let r3 = r2 * r;
    let r4 = r3 * r;
    assert(r * (r - 1) == r2 - r) by (nonlinear_arith)
        requires
            r2 == r * r,
    ;
    assert((r2 - r) * (r - 2) == r3 - 3 * r2 + 2 * r) by (nonlinear_arith)
        requires
            r2 == r * r,
            r3 == r2 * r,
    ;
    assert((r3 - 3 * r2 + 2 * r) * (r - 3) == r4 - 6 * r3 + 11 * r2 - 6 * r) by (nonlinear_arith)
        requires
            r2 == r * r,
            r3 == r2 * r,
            r4 == r3 * r,
    ;
    assert((r4 - 6 * r3 + 11 * r2 - 6 * r) * c4 == r4 * c4 - 6 * (r3 * c4) + 11 * (r2 * c4) - 6 * (r
        * c4)) by (nonlinear_arith);
    let f3 = r3 - 3 * r2 + 2 * r;
    assert(f3 * (c3 + 6 * c4) == f3 * c3 + 6 * (f3 * c4)) by (nonlinear_arith);
    assert(f3 * c3 == r3 * c3 - 3 * (r2 * c3) + 2 * (r * c3)) by (nonlinear_arith)
        requires
            f3 == r3 - 3 * r2 + 2 * r,
    ;
    assert(f3 * c4 == r3 * c4 - 3 * (r2 * c4) + 2 * (r * c4)) by (nonlinear_arith)
        requires
            f3 == r3 - 3 * r2 + 2 * r,
    ;
    let f2 = r2 - r;
    assert(f2 * (c2 + 3 * c3 + 7 * c4) == f2 * c2 + 3 * (f2 * c3) + 7 * (f2 * c4))
        by (nonlinear_arith);
    assert(f2 * c2 == r2 * c2 - r * c2) by (nonlinear_arith)
        requires
            f2 == r2 - r,
    ;
    assert(f2 * c3 == r2 * c3 - r * c3) by (nonlinear_arith)
        requires
            f2 == r2 - r,
    ;
    assert(f2 * c4 == r2 * c4 - r * c4) by (nonlinear_arith)
        requires
            f2 == r2 - r,
    ;
    assert(r * (c1 + c2 + c3 + c4) == r * c1 + r * c2 + r * c3 + r * c4) by (nonlinear_arith);
    assert(r * (c3 + r * c4) == r * c3 + r2 * c4) by (nonlinear_arith)
        requires
            r2 == r * r,
    ;
    assert(r * (c2 + r * c3 + r2 * c4) == r * c2 + r2 * c3 + r3 * c4) by (nonlinear_arith)
        requires
            r2 == r * r,
            r3 == r2 * r,
    ;
    assert(r * (c1 + r * c2 + r2 * c3 + r3 * c4) == r * c1 + r2 * c2 + r3 * c3 + r4 * c4)
        by (nonlinear_arith)
        requires
            r2 == r * r,
            r3 == r2 * r,
            r4 == r3 * r,
    ;
}

/// Newton's formula on three to five samples of a polynomial of lower degree:
/// the further differences of the missing samples vanish.
proof fn lemma_interpolate_prefix(c: Seq<int>, r: int, n: nat)
    requires
        c.len() <= n,
        3 <= n <= 5,
        in_field(r),
    ensures
        interpolate(sampled(c, n), r) == residue(poly(c, r)),
{
    let z = Seq::new(5, |i: int| 0int);
    let p = poly_add(c, z);
    lemma_poly_pad(c, r, 5);
    let s = sampled(p, 5);
    let t = sampled(c, n);
    assert forall|i: int| 0 <= i < n implies s[i] == #[trigger] t[i] by {
        lemma_poly_pad(c, i, 5);
    }
    lemma_newton5(p, r);
    lemma_differences5(p);
    lemma_newton_terms5(s, r);
    let d1 = differences(s);
    let d2 = differences(d1);
    let d3 = differences(d2);
    let d4 = differences(d3);
    let e1 = differences(t);
    let e2 = differences(e1);
    let e3 = differences(e2);
    lemma_residue_id(0);
    if n == 5 {
        assert(s =~= t);
    } else {
        broadcast use group_in_field;

        assert(p[4] == 0);
        assert(d4[0] == 0);
        lemma_binomials(r);
        lemma_fmul_one(binomial(r, 4));
        lemma_fmul_one(binomial(r, 3));
        lemma_fadd_zero(0);
        assert(e1[0] == d1[0] && e1[1] == d1[1]);
        assert(e2[0] == d2[0]);
        if n == 4 {
            lemma_newton_terms4(t, r);
            assert(e1[2] == d1[2]);
            assert(e2[1] == d2[1]);
            assert(e3[0] == d3[0]);
        } else {
            lemma_newton_terms3(t, r);
            assert(p[3] == 0);
            assert(d3[0] == 0);
        }
    }
}

/// Interpolation is exact: through three, four or five samples of a polynomial
/// of lower degree runs that polynomial.
pub proof fn lemma_interpolate_exact(c: Seq<int>, r: int, samples: Seq<int>)
    requires
        c.len() <= samples.len(),
        3 <= samples.len() <= 5,
        in_field(r),
        forall|i: int| 0 <= i < samples.len() ==> #[trigger] samples[i] == residue(poly(c, i)),
    ensures
        interpolate(samples, r) == residue(poly(c, r)),
{
    assert(samples =~= sampled(c, samples.len()));
    lemma_interpolate_prefix(c, r, samples.len());
}

} // verus!
