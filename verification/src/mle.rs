//! Multilinear extensions of evaluation tables.
//!
//! Variables are big-endian: the first coordinate of a point binds the highest
//! bit of the table index.

use crate::field::{Fr, fadd, fmul, fsub, vals};
use crate::sumcheck::total;
use vstd::arithmetic::power2::{lemma_pow2_pos, lemma_pow2_strictly_increases, lemma_pow2_unfold, pow2};
use vstd::prelude::*;

verus! {

/// The table left over when the first variable is bound to `r`: entry `i`
/// moves from the lower half's entry to the upper half's as `r` goes from 0
/// to 1.
pub open spec fn fold(t: Seq<int>, r: int) -> Seq<int> {
    Seq::new(
        (t.len() / 2) as nat,
        |i: int| fadd(t[i], fmul(r, fsub(t[t.len() / 2 + i], t[i]))),
    )
}

/// The table left over when the first variables are bound to `rs`, in order.
pub open spec fn fold_many(t: Seq<int>, rs: Seq<int>) -> Seq<int>
    decreases rs.len(),
{
    if rs.len() == 0 {
        t
    } else {
        fold(fold_many(t, rs.drop_last()), rs.last())
    }
}

/// The multilinear extension of `t` at the point `rs`.
pub open spec fn mle(t: Seq<int>, rs: Seq<int>) -> int {
    fold_many(t, rs)[0]
}

/// The weight of table index `i` at the point `a`: the product over the
/// variables of `a_k` where the bit of `i` is set and `1 - a_k` where it is
/// not, the highest bit first.
pub open spec fn eq_weight(a: Seq<int>, i: int) -> int
    decreases a.len(),
{
    if a.len() == 0 {
        1
    } else {
        fmul(
            eq_weight(a.drop_last(), i / 2),
            if i % 2 == 1 {
                a.last()
            } else {
                fsub(1, a.last())
            },
        )
    }
}

/// The table of all index weights at the point `a`.
pub open spec fn eq_table(a: Seq<int>) -> Seq<int> {
    Seq::new(pow2(a.len()), |i: int| eq_weight(a, i))
}

/// The equality polynomial of two points: the product over the coordinates of
/// `a_k b_k + (1 - a_k)(1 - b_k)`.
pub open spec fn eq_points(a: Seq<int>, b: Seq<int>) -> int
    decreases a.len(),
{
    if a.len() == 0 {
        1
    } else {
        fmul(
            eq_points(a.drop_last(), b.drop_last()),
            fadd(fmul(a.last(), b.last()), fmul(fsub(1, a.last()), fsub(1, b.last()))),
        )
    }
}

/// A row table repeated `rows` times.
pub open spec fn tiled(row: Seq<int>, rows: nat) -> Seq<int> {
    Seq::new(rows * row.len(), |k: int| row[k % row.len() as int])
}

/// A table with every entry repeated `width` times in place.
pub open spec fn stretched(t: Seq<int>, width: nat) -> Seq<int> {
    Seq::new(t.len() * width, |k: int| t[k / width as int])
}

/// The least `k` with `2^k >= n`.
pub open spec fn ceil_log2(n: nat) -> nat
    decreases n,
{
    if n <= 1 {
        0
    } else {
        1 + ceil_log2((n + 1) / 2)
    }
}

/// Powers of two up to `2^63` fit in 64 bits, and no higher ones do.
pub proof fn lemma_pow2_machine(n: nat)
    ensures
        n < 64 <==> pow2(n) <= u64::MAX,
        n < 32 ==> pow2(n) <= u32::MAX,
{
    vstd::arithmetic::power2::lemma2_to64();
    if n < 63 {
        lemma_pow2_strictly_increases(n, 63);
    }
    if n > 64 {
        lemma_pow2_strictly_increases(64, n);
    }
    if n < 32 {
        lemma_pow2_strictly_increases(n, 32);
    }
    vstd::arithmetic::power2::lemma2_to64_rest();
}

/// `2^n`.
pub fn pow2_usize(n: usize) -> (r: usize)
    requires
        pow2(n as nat) <= usize::MAX,
    ensures
        r == pow2(n as nat),
{
    let mut r: usize = 1;
    let mut k: usize = 0;
    proof {
        vstd::arithmetic::power2::lemma2_to64();
    }
    while k < n
        invariant
            k <= n,
            r == pow2(k as nat),
            pow2(n as nat) <= usize::MAX,
        decreases n - k,
    {
        proof {
            lemma_pow2_unfold((k + 1) as nat);
            if k + 1 < n {
                lemma_pow2_strictly_increases((k + 1) as nat, n as nat);
            }
        }
        r = 2 * r;
        k += 1;
    }
    r
}

/// The exponent of a power of two, or `None` if `n` is no power of two.
pub fn log2_exact(n: usize) -> (r: Option<usize>)
    ensures
        r matches Some(k) ==> pow2(k as nat) == n,
        r is None ==> forall|k: nat| pow2(k) != n,
{
    let mut p: usize = 1;
    let mut k: usize = 0;
    proof {
        vstd::arithmetic::power2::lemma2_to64();
    }
    if n == 0 {
        proof {
            assert forall|j: nat| pow2(j) != n by {
                lemma_pow2_pos(j);
            }
        }
        return None;
    }
    while p < n
        invariant
            p == pow2(k as nat),
            k < 64,
            n > 0,
            k > 0 ==> pow2((k - 1) as nat) < n,
        decreases 64 - k,
    {
        if p > n / 2 {
            proof {
                assert forall|j: nat| pow2(j) != n by {
                    if j <= k {
                        if j < k {
                            lemma_pow2_strictly_increases(j, k as nat);
                        }
                    } else {
                        lemma_pow2_unfold((k + 1) as nat);
                        if k + 1 < j {
                            lemma_pow2_strictly_increases((k + 1) as nat, j);
                        }
                    }
                }
            }
            return None;
        }
        proof {
            lemma_pow2_unfold((k + 1) as nat);
            lemma_pow2_machine((k + 1) as nat);
        }
        p = 2 * p;
        k += 1;
    }
    if p == n {
        Some(k)
    } else {
        proof {
            assert forall|j: nat| pow2(j) != n by {
                if j < k {
                    if j < k - 1 {
                        lemma_pow2_strictly_increases(j, (k - 1) as nat);
                    }
                } else if j > k {
                    lemma_pow2_strictly_increases(k as nat, j);
                }
            }
        }
        None
    }
}

/// `ceil_log2` brackets its argument.
pub proof fn lemma_ceil_log2(n: nat)
    ensures
        n <= pow2(ceil_log2(n)),
        n >= 2 ==> ceil_log2(n) >= 1 && pow2((ceil_log2(n) - 1) as nat) < n,
    decreases n,
{
    vstd::arithmetic::power2::lemma2_to64();
    if n >= 2 {
        let h = ((n + 1) / 2) as nat;
        lemma_ceil_log2(h);
        lemma_pow2_unfold(ceil_log2(n));
        if h >= 2 {
            lemma_pow2_unfold((ceil_log2(n) - 1) as nat);
        }
    }
}

/// Only `ceil_log2` brackets `n` in that way.
pub proof fn lemma_ceil_log2_unique(n: nat, k: nat)
    requires
        n >= 2,
        k >= 1,
        pow2((k - 1) as nat) < n <= pow2(k),
    ensures
        k == ceil_log2(n),
{
    lemma_ceil_log2(n);
    let c = ceil_log2(n);
    if k < c {
        if k < c - 1 {
            lemma_pow2_strictly_increases(k, (c - 1) as nat);
        }
    } else if c < k {
        if c < k - 1 {
            lemma_pow2_strictly_increases(c, (k - 1) as nat);
        }
    }
}

/// The logarithm of a power of two.
pub proof fn lemma_ceil_log2_of_pow2(m: nat)
    ensures
        ceil_log2(pow2(m)) == m,
{
    vstd::arithmetic::power2::lemma2_to64();
    if m >= 1 {
        lemma_pow2_unfold(m);
        lemma_pow2_pos((m - 1) as nat);
        lemma_ceil_log2_unique(pow2(m), m);
    }
}

/// `ceil(log2(n))`, with `0` and `1` mapped to `0`.
pub fn next_pow2_log(n: usize) -> (r: usize)
    requires
        n <= usize::MAX / 2 + 1,
    ensures
        r == ceil_log2(n as nat),
        r < 64,
        pow2(r as nat) <= usize::MAX,
{
    proof {
        vstd::arithmetic::power2::lemma2_to64();
        lemma_ceil_log2(n as nat);
    }
    if n <= 1 {
        return 0;
    }
    let mut p: usize = 1;
    let mut k: usize = 0;
    while p < n
        invariant
            p == pow2(k as nat),
            k < 64,
            2 <= n <= usize::MAX / 2 + 1,
            k > 0 ==> pow2((k - 1) as nat) < n,
        decreases 64 - k,
    {
        proof {
            lemma_pow2_unfold((k + 1) as nat);
            lemma_pow2_machine((k + 1) as nat);
        }
        p = 2 * p;
        k += 1;
    }
    proof {
        lemma_ceil_log2_unique(n as nat, k as nat);
    }
    k
}

/// A copy of a slice of field elements.
pub fn copied(s: &[Fr]) -> (r: Vec<Fr>)
    ensures
        r@ == s@,
{
    let mut out: Vec<Fr> = Vec::with_capacity(s.len());
    let mut i: usize = 0;
    while i < s.len()
        invariant
            i <= s@.len(),
            out@ == s@.take(i as int),
        decreases s@.len() - i,
    {
        out.push(s[i]);
        i += 1;
        assert(s@.take(i as int) =~= s@.take(i - 1).push(s@[i - 1]));
    }
    assert(s@.take(i as int) =~= s@);
    out
}

/// Bind the first variable of a table to `r`, in place.
pub fn fold_in_place(tab: &mut Vec<Fr>, r: Fr)
    ensures
        vals(final(tab)@) == fold(vals(old(tab)@), r@),
{
    let half: usize = tab.len() / 2;
    let ghost before = vals(tab@);
    let mut i: usize = 0;
    while i < half
        invariant
            i <= half,
            half == before.len() / 2,
            half + half <= usize::MAX,
            tab@.len() == before.len(),
            forall|k: int| i <= k < tab@.len() ==> (#[trigger] tab@[k])@ == before[k],
            forall|k: int| 0 <= k < i ==> (#[trigger] tab@[k])@ == fold(before, r@)[k],
        decreases half - i,
    {
        let lo: Fr = tab[i];
        let hi: Fr = tab[half + i];
        let v: Fr = lo.add(r.mul(hi.sub(lo)));
        tab.set(i, v);
        i += 1;
    }
    tab.truncate(half);
    assert(vals(tab@) =~= fold(before, r@));
}

/// Fix the first `r.len()` variables to `r` and return the table over the
/// remaining ones.
pub fn partial_eval_msb(evals: &[Fr], r: &[Fr]) -> (out: Vec<Fr>)
    ensures
        vals(out@) == fold_many(vals(evals@), vals(r@)),
{
    let mut tab: Vec<Fr> = copied(evals);
    let mut i: usize = 0;
    assert(vals(r@).take(0) =~= Seq::<int>::empty());
    while i < r.len()
        invariant
            i <= r@.len(),
            vals(tab@) == fold_many(vals(evals@), vals(r@).take(i as int)),
        decreases r@.len() - i,
    {
        let ri: Fr = r[i];
        fold_in_place(&mut tab, ri);
        i += 1;
        assert(vals(r@).take(i as int).drop_last() =~= vals(r@).take(i - 1));
        assert(vals(r@).take(i as int).last() == ri@);
    }
    assert(vals(r@).take(i as int) =~= vals(r@));
    tab
}

/// Binding `k` variables divides the length of a table by `2^k`.
pub proof fn lemma_fold_many_len(t: Seq<int>, rs: Seq<int>, rest: nat)
    requires
        t.len() == pow2(rs.len() + rest),
    ensures
        fold_many(t, rs).len() == pow2(rest),
    decreases rs.len(),
{
    if rs.len() > 0 {
        lemma_fold_many_len(t, rs.drop_last(), rest + 1);
        lemma_pow2_unfold(rest + 1);
    }
}

/// Evaluate the multilinear extension of `evals` at point `r`.
pub fn eval_multilinear_full(evals: &[Fr], r: &[Fr]) -> (v: Fr)
    requires
        evals@.len() == pow2(r@.len()),
    ensures
        v@ == mle(vals(evals@), vals(r@)),
{
    let tab: Vec<Fr> = partial_eval_msb(evals, r);
    proof {
        lemma_fold_many_len(vals(evals@), vals(r@), 0);
        vstd::arithmetic::power2::lemma2_to64();
        assert(vals(tab@)[0] == tab@[0]@);
    }
    tab[0]
}

/// Fix the last `r_lsb.len()` variables to `r_lsb`, returning the table over
/// the remaining ones: entry `i` is the extension of the `i`-th row.
pub fn partial_eval_lsb(evals: &[Fr], r_lsb: &[Fr], r_lsb_log: usize) -> (out: Vec<Fr>)
    requires
        r_lsb@.len() == r_lsb_log,
        pow2(r_lsb_log as nat) <= usize::MAX,
        evals@.len() % pow2(r_lsb_log as nat) == 0,
    ensures
        out@.len() == evals@.len() / pow2(r_lsb_log as nat),
        vals(out@) == rows_at(vals(evals@), vals(r_lsb@)),
{
    let total: usize = evals.len();
    let stride: usize = pow2_usize(r_lsb_log);
    proof {
        lemma_pow2_pos(r_lsb_log as nat);
    }
    let n_msb: usize = total / stride;
    let mut out: Vec<Fr> = Vec::with_capacity(n_msb);
    let mut i: usize = 0;
    while i < n_msb
        invariant
            i <= n_msb,
            stride == pow2(r_lsb_log as nat),
            stride > 0,
            r_lsb@.len() == r_lsb_log,
            n_msb == total / stride,
            total == evals@.len(),
            out@.len() == i,
            forall|k: int| 0 <= k < i ==> (#[trigger] out@[k])@ == rows_at(vals(evals@), vals(r_lsb@))[k],
        decreases n_msb - i,
    {
        assert((i + 1) * stride <= total && i * stride + stride == (i + 1) * stride) by (nonlinear_arith)
            requires
                i < total / stride,
                stride > 0,
        ;
        let row: &[Fr] = vstd::slice::slice_subrange(evals, i * stride, i * stride + stride);
        assert(vals(row@) =~= vals(evals@).subrange(i * stride, i * stride + stride));
        out.push(eval_multilinear_full(row, r_lsb));
        i += 1;
    }
    assert(vals(out@) =~= rows_at(vals(evals@), vals(r_lsb@)));
    out
}

/// The extensions at `r` of the rows of a table, a row being `2^{r.len()}`
/// entries.
pub open spec fn rows_at(t: Seq<int>, r: Seq<int>) -> Seq<int> {
    let stride = pow2(r.len()) as int;
    Seq::new(
        (t.len() / pow2(r.len())) as nat,
        |i: int| mle(t.subrange(i * stride, i * stride + stride), r),
    )
}

/// Build the equality table against `a`: entry `i` is the weight of index `i`
/// at `a`.
pub fn build_eq_table(a: &[Fr]) -> (out: Vec<Fr>)
    requires
        pow2(a@.len()) <= usize::MAX,
    ensures
        vals(out@) == eq_table(vals(a@)),
{
    let nv: usize = a.len();
    let size: usize = pow2_usize(nv);
    let one: Fr = Fr::from_u64(1);
    let mut tab: Vec<Fr> = vec![one; size];
    let ghost av = vals(a@);
    let mut k: usize = 0;
    let mut stride: usize = size;
    assert(av.take(0) =~= Seq::<int>::empty());
    while k < nv
        invariant
            k <= nv,
            nv == a@.len(),
            av == vals(a@),
            one@ == 1,
            size == pow2(nv as nat),
            stride == pow2((nv - k) as nat),
            tab@.len() == size,
            forall|i: int| 0 <= i < size ==> (#[trigger] tab@[i])@ == eq_weight(av.take(k as int), i / stride as int),
        decreases nv - k,
    {
        let ak: Fr = a[k];
        let nak: Fr = one.sub(ak);
        let ghost big = stride as int;
        proof {
            lemma_pow2_unfold((nv - k) as nat);
            lemma_pow2_pos((nv - k - 1) as nat);
        }
        stride = stride / 2;
        let ghost sm = stride as int;
        assert(big == 2 * sm);
        let mut i: usize = 0;
        while i < size
            invariant
                i <= size,
                k < nv,
                nv == a@.len(),
                av == vals(a@),
                ak@ == av[k as int],
                nak@ == fsub(1, av[k as int]),
                stride == sm,
                sm > 0,
                big == 2 * sm,
                tab@.len() == size,
                forall|j: int| i <= j < size ==> (#[trigger] tab@[j])@ == eq_weight(av.take(k as int), j / big),
                forall|j: int| 0 <= j < i ==> (#[trigger] tab@[j])@ == eq_weight(av.take(k + 1), j / sm),
            decreases size - i,
        {
            let v: Fr = tab[i];
            let b: usize = (i / stride) % 2;
            proof {
                assert(av.take(k + 1).drop_last() =~= av.take(k as int));
                assert((i as int / sm) / 2 == i as int / big) by {
                    vstd::arithmetic::div_mod::lemma_div_denominator(i as int, sm, 2);
                    assert(sm * 2 == big);
                }
            }
            let f: Fr = if b == 1 {
                ak
            } else {
                nak
            };
            tab.set(i, v.mul(f));
            i += 1;
        }
        k += 1;
    }
    proof {
        assert(av.take(k as int) =~= av);
        vstd::arithmetic::power2::lemma2_to64();
        assert forall|i: int| 0 <= i < size implies (#[trigger] tab@[i])@ == eq_weight(av, i) by {
            assert(i / 1 == i);
        }
        assert(vals(tab@) =~= eq_table(av));
    }
    tab
}

/// Stretch a table: every entry repeated `2^lni` times in place.
fn stretch(t: &[Fr], lni: usize, width: usize) -> (out: Vec<Fr>)
    requires
        width == pow2(lni as nat),
        t@.len() * pow2(lni as nat) <= usize::MAX,
    ensures
        vals(out@) == stretched(vals(t@), pow2(lni as nat)),
{
    let mut out: Vec<Fr> = Vec::new();
    let mut i: usize = 0;
    proof {
        lemma_pow2_pos(lni as nat);
    }
    while i < t.len()
        invariant
            i <= t@.len(),
            width == pow2(lni as nat),
            width > 0,
            out@.len() == i * width,
            forall|k: int| 0 <= k < i * width ==> (#[trigger] out@[k])@ == t@[k / width as int]@,
        decreases t@.len() - i,
    {
        let mut j: usize = 0;
        let v: Fr = t[i];
        assert((i + 1) * width == i * width + width) by (nonlinear_arith);
        while j < width
            invariant
                j <= width,
                i < t@.len(),
                v == t@[i as int],
                width > 0,
                out@.len() == i * width + j,
                forall|k: int| 0 <= k < i * width + j ==> (#[trigger] out@[k])@ == t@[k / width as int]@,
            decreases width - j,
        {
            out.push(v);
            proof {
                vstd::arithmetic::div_mod::lemma_fundamental_div_mod_converse(
                    i * width + j,
                    width as int,
                    i as int,
                    j as int,
                );
            }
            j += 1;
        }
        i += 1;
    }
    proof {
        let st = stretched(vals(t@), pow2(lni as nat));
        assert forall|k: int| 0 <= k < st.len() implies vals(out@)[k] == #[trigger] st[k] by {
            vstd::arithmetic::div_mod::lemma_multiply_divide_lt(k, width as int, t@.len() as int);
            vstd::arithmetic::div_mod::lemma_div_pos_is_pos(k, width as int);
        }
        assert(vals(out@) =~= st);
    }
    out
}

/// Build the equality table against `r_spec`, then stretch it across `lni`
/// further low variables, in which it is constant.
pub fn build_eq_table_tiled(r_spec: &[Fr], lns: usize, lni: usize) -> (out: Vec<Fr>)
    requires
        r_spec@.len() == lns,
        pow2((lns + lni) as nat) <= usize::MAX,
    ensures
        vals(out@) == stretched(eq_table(vals(r_spec@)), pow2(lni as nat)),
{
    proof {
        lemma_pow2_split(lns as nat, lni as nat);
    }
    let eq: Vec<Fr> = build_eq_table(r_spec);
    let width: usize = pow2_usize(lni);
    assert(eq@.len() == pow2(lns as nat)) by {
        assert(vals(eq@).len() == eq@.len());
    }
    stretch(eq.as_slice(), lni, width)
}

/// `2^{a+b} = 2^a 2^b`, and neither factor exceeds the product.
pub proof fn lemma_pow2_split(a: nat, b: nat)
    ensures
        pow2(a + b) == pow2(a) * pow2(b),
        pow2(a) <= pow2(a + b),
        pow2(b) <= pow2(a + b),
        pow2(a) > 0,
        pow2(b) > 0,
{
    vstd::arithmetic::power2::lemma_pow2_adds(a, b);
    lemma_pow2_pos(a);
    lemma_pow2_pos(b);
    if b > 0 {
        lemma_pow2_strictly_increases(a, a + b);
    }
    if a > 0 {
        lemma_pow2_strictly_increases(b, a + b);
    }
}

/// Tile a length-`2^lni` row across `2^lns` rows.
pub fn tile_j_along_i(j_table: &[Fr], lns: usize, lni: usize) -> (out: Vec<Fr>)
    requires
        j_table@.len() == pow2(lni as nat),
        pow2((lns + lni) as nat) <= usize::MAX,
    ensures
        vals(out@) == tiled(vals(j_table@), pow2(lns as nat)),
{
    proof {
        lemma_pow2_split(lns as nat, lni as nat);
    }
    let rows: usize = pow2_usize(lns);
    let width: usize = j_table.len();
    let mut out: Vec<Fr> = Vec::new();
    let mut i: usize = 0;
    while i < rows
        invariant
            i <= rows,
            width == j_table@.len(),
            width > 0,
            out@.len() == i * width,
            forall|k: int| 0 <= k < i * width ==> (#[trigger] out@[k])@ == j_table@[k % width as int]@,
        decreases rows - i,
    {
        let mut j: usize = 0;
        assert((i + 1) * width == i * width + width) by (nonlinear_arith);
        while j < width
            invariant
                j <= width,
                width == j_table@.len(),
                width > 0,
                out@.len() == i * width + j,
                forall|k: int| 0 <= k < i * width + j ==> (#[trigger] out@[k])@ == j_table@[k % width as int]@,
            decreases width - j,
        {
            out.push(j_table[j]);
            proof {
                vstd::arithmetic::div_mod::lemma_fundamental_div_mod_converse(
                    i * width + j,
                    width as int,
                    i as int,
                    j as int,
                );
            }
            j += 1;
        }
        i += 1;
    }
    assert(vals(out@) =~= tiled(vals(j_table@), pow2(lns as nat)));
    out
}

/// Concatenate two slices of field elements.
pub fn concat(a: &[Fr], b: &[Fr]) -> (r: Vec<Fr>)
    ensures
        r@ == a@ + b@,
        vals(r@) == vals(a@) + vals(b@),
{
    let mut out: Vec<Fr> = copied(a);
    let mut tail: Vec<Fr> = copied(b);
    out.append(&mut tail);
    assert(vals(out@) =~= vals(a@) + vals(b@));
    out
}

/// Evaluate the equality polynomial at two equal-length points.
pub fn eval_eq(a: &[Fr], b: &[Fr]) -> (r: Fr)
    requires
        a@.len() == b@.len(),
    ensures
        r@ == eq_points(vals(a@), vals(b@)),
{
    let one: Fr = Fr::from_u64(1);
    let mut acc: Fr = one;
    let mut k: usize = 0;
    let ghost av = vals(a@);
    let ghost bv = vals(b@);
    while k < a.len()
        invariant
            k <= a@.len(),
            a@.len() == b@.len(),
            av == vals(a@),
            bv == vals(b@),
            one@ == 1,
            acc@ == eq_points(av.take(k as int), bv.take(k as int)),
        decreases a@.len() - k,
    {
        let ak: Fr = a[k];
        let bk: Fr = b[k];
        acc = acc.mul(ak.mul(bk).add(one.sub(ak).mul(one.sub(bk))));
        k += 1;
        assert(av.take(k as int).drop_last() =~= av.take(k - 1));
        assert(bv.take(k as int).drop_last() =~= bv.take(k - 1));
    }
    assert(av.take(k as int) =~= av);
    assert(bv.take(k as int) =~= bv);
    acc
}

/// Whether two slices hold the same field elements.
pub fn same_elements(a: &[Fr], b: &[Fr]) -> (r: bool)
    ensures
        r == (vals(a@) == vals(b@)),
{
    if a.len() != b.len() {
        assert(vals(a@).len() != vals(b@).len());
        return false;
    }
    let mut i: usize = 0;
    while i < a.len()
        invariant
            i <= a@.len(),
            a@.len() == b@.len(),
            forall|k: int| 0 <= k < i ==> (#[trigger] a@[k])@ == b@[k]@,
        decreases a@.len() - i,
    {
        if a[i] != b[i] {
            assert(vals(a@)[i as int] != vals(b@)[i as int]);
            return false;
        }
        i += 1;
    }
    assert(vals(a@) =~= vals(b@));
    true
}

} // verus!
