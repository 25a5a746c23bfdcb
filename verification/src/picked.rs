//! What an activation step multiplies the coefficients by: the positive parts
//! by one line's entries, the negative parts by the other's.

use crate::code_products::{cell_of, lemma_padded_entry, lemma_padded_len, min_nat};
use crate::columns::lifted_codes;
use crate::field::{Fr, all_in_field, fadd, fmul, fneg, fsub, in_field, residue, vals};
use crate::matrix_laws::{law_mle_tiled, row_sums, span_sum, two_products};
use crate::mle::{ceil_log2, lemma_ceil_log2, mle, tiled};
use crate::mle_laws::{combined, law_mle_linear, lemma_mle_in_field};
use crate::openings::padded_vector;
use crate::qarray::{CodeMatrix, matrix_rows, matrix_width, padded_cells};
use crate::ring::{group_in_field, group_residue, lemma_residue_add, lemma_residue_id};
use vstd::arithmetic::div_mod::{lemma_div_pos_is_pos, lemma_fundamental_div_mod, lemma_mod_bound};
use vstd::arithmetic::power2::{lemma_pow2_pos, pow2};
use vstd::prelude::*;

verus! {

/// The lines' contribution of one cell: its positive part times `pos`, and the
/// rest times `neg`.
pub open spec fn picked_cell(
    a_old: CodeMatrix,
    a_pos: CodeMatrix,
    pos: Seq<i128>,
    neg: Seq<i128>,
    i: int,
    j: int,
) -> int {
    let p = matrix_rows(a_pos)[i][j] as int;
    p * pos[j] + (matrix_rows(a_old)[i][j] - p) * neg[j]
}

/// The lines' contribution of the first `n` cells of a row.
pub open spec fn picked_sum(
    a_old: CodeMatrix,
    a_pos: CodeMatrix,
    pos: Seq<i128>,
    neg: Seq<i128>,
    i: int,
    n: nat,
) -> int
    decreases n,
{
    if n == 0 {
        0
    } else {
        picked_sum(a_old, a_pos, pos, neg, i, (n - 1) as nat) + picked_cell(
            a_old,
            a_pos,
            pos,
            neg,
            i,
            n - 1,
        )
    }
}

/// Whether a matrix and its positive part have one shape, and the lines have
/// an entry to each column.
pub open spec fn picks_fit(
    a_old: CodeMatrix,
    a_pos: CodeMatrix,
    pos: Seq<i128>,
    neg: Seq<i128>,
) -> bool {
    &&& matrix_rows(a_pos).len() == matrix_rows(a_old).len()
    &&& matrix_width(a_pos) == matrix_width(a_old)
    &&& pos.len() == matrix_width(a_old)
    &&& neg.len() == matrix_width(a_old)
}

/// The lines' contributions by row, padded with zeros to a power of two.
pub open spec fn picked_rows(
    a_old: CodeMatrix,
    a_pos: CodeMatrix,
    pos: Seq<i128>,
    neg: Seq<i128>,
) -> Seq<int> {
    Seq::new(
        pow2(ceil_log2(matrix_rows(a_old).len())),
        |i: int|
            if i < matrix_rows(a_old).len() {
                residue(picked_sum(a_old, a_pos, pos, neg, i, matrix_width(a_old)))
            } else {
                0
            },
    )
}

/// The entrywise differences of two tables.
pub open spec fn table_diff(a: Seq<int>, b: Seq<int>) -> Seq<int> {
    Seq::new(a.len(), |i: int| fsub(a[i], b[i]))
}

/// The entrywise differences of two tables.
pub fn subtract_tables(a: &[Fr], b: &[Fr]) -> (r: Vec<Fr>)
    requires
        a@.len() == b@.len(),
    ensures
        vals(r@) == table_diff(vals(a@), vals(b@)),
        r@.len() == a@.len(),
{
    let mut out: Vec<Fr> = Vec::with_capacity(a.len());
    let mut i: usize = 0;
    while i < a.len()
        invariant
            i <= a@.len(),
            a@.len() == b@.len(),
            out@.len() == i,
            forall|k: int|
                0 <= k < i ==> (#[trigger] out@[k])@ == table_diff(vals(a@), vals(b@))[k],
        decreases a@.len() - i,
    {
        out.push(a[i].sub(b[i]));
        i += 1;
    }
    assert(vals(out@) =~= table_diff(vals(a@), vals(b@)));
    out
}

/// The extension of a difference is the difference of the extensions.
pub proof fn law_mle_diff(a: Seq<int>, b: Seq<int>, r: Seq<int>)
    requires
        a.len() == pow2(r.len()),
        b.len() == pow2(r.len()),
        all_in_field(a),
        all_in_field(b),
        all_in_field(r),
    ensures
        mle(table_diff(a, b), r) == fsub(mle(a, r), mle(b, r)),
{
    broadcast use group_in_field;

    let m = fneg(1);
    assert forall|i: int| 0 <= i < a.len() implies #[trigger] table_diff(a, b)[i] == combined(
        m,
        b,
        a,
    )[i] by {
        assert(in_field(a[i]) && in_field(b[i]));
        lemma_minus(a[i], b[i]);
    }
    assert(table_diff(a, b) =~= combined(m, b, a));
    law_mle_linear(m, b, a, r);
    lemma_mle_in_field(a, r);
    lemma_mle_in_field(b, r);
    lemma_minus(mle(a, r), mle(b, r));
}

proof fn lemma_minus(x: int, y: int)
    requires
        in_field(x),
        in_field(y),
    ensures
        fsub(x, y) == fadd(fmul(fneg(1), y), x),
{
    broadcast use group_residue;

    lemma_residue_id(x);
    lemma_residue_id(y);
    lemma_residue_id(1);
    assert((0 - 1) * y + x == x - y) by (nonlinear_arith);
}

/// The tables of an activation step: the positive parts, the rest, and the
/// lines along every row.
pub open spec fn picked_products(
    a_old: CodeMatrix,
    a_pos: CodeMatrix,
    pos: Seq<i128>,
    neg: Seq<i128>,
) -> Seq<int> {
    let rows = pow2(ceil_log2(matrix_rows(a_old).len()));
    let p = lifted_codes(padded_cells(a_pos));
    two_products(
        p,
        tiled(padded_vector(pos), rows),
        table_diff(lifted_codes(padded_cells(a_old)), p),
        tiled(padded_vector(neg), rows),
    )
}

/// An entry of a vector; past its end it is zero.
spec fn entry_of(v: Seq<i128>, j: int) -> int {
    if j < v.len() {
        v[j] as int
    } else {
        0
    }
}

/// A cell's contribution, in the padded tables.
pub proof fn lemma_picked_entry(
    a_old: CodeMatrix,
    a_pos: CodeMatrix,
    pos: Seq<i128>,
    neg: Seq<i128>,
    i: int,
    j: int,
)
    requires
        picks_fit(a_old, a_pos, pos, neg),
        0 <= i < pow2(ceil_log2(matrix_rows(a_old).len())),
        0 <= j < pow2(ceil_log2(matrix_width(a_old))),
    ensures
        ({
            let d = pow2(ceil_log2(matrix_width(a_old)));
            let k = i * d + j;
            &&& 0 <= k < picked_products(a_old, a_pos, pos, neg).len()
            &&& picked_products(a_old, a_pos, pos, neg)[k] == residue(
                if i < matrix_rows(a_old).len() && j < matrix_width(a_old) {
                    picked_cell(a_old, a_pos, pos, neg, i, j)
                } else {
                    0
                },
            )
        }),
{
    broadcast use group_residue;

    let d = pow2(ceil_log2(matrix_width(a_old)));
    let rows = pow2(ceil_log2(matrix_rows(a_old).len()));
    let k = i * d + j;
    lemma_padded_entry(a_old, i, j);
    lemma_padded_entry(a_pos, i, j);
    lemma_padded_len(a_pos);
    lemma_ceil_log2(pos.len());
    lemma_residue_id(0);
    let (x, y) = (cell_of(a_pos, i, j), cell_of(a_old, i, j));
    let (u, v) = (entry_of(pos, j), entry_of(neg, j));
    assert(tiled(padded_vector(pos), rows)[k] == residue(u));
    assert(tiled(padded_vector(neg), rows)[k] == residue(v));
    assert(picked_products(a_old, a_pos, pos, neg)[k] == residue(x * u + (y - x) * v));
    if !(i < matrix_rows(a_old).len() && j < matrix_width(a_old)) {
        assert(x * u == 0 && (y - x) * v == 0) by (nonlinear_arith)
            requires
                x == 0,
                y == 0,
        ;
    }
}

/// A row's contributions, in the padded tables.
proof fn lemma_picked_span(
    a_old: CodeMatrix,
    a_pos: CodeMatrix,
    pos: Seq<i128>,
    neg: Seq<i128>,
    i: int,
    n: nat,
)
    requires
        picks_fit(a_old, a_pos, pos, neg),
        0 <= i < pow2(ceil_log2(matrix_rows(a_old).len())),
        n <= pow2(ceil_log2(matrix_width(a_old))),
    ensures
        span_sum(
            picked_products(a_old, a_pos, pos, neg),
            i * pow2(ceil_log2(matrix_width(a_old))),
            n,
        ) == residue(
            if i < matrix_rows(a_old).len() {
                picked_sum(a_old, a_pos, pos, neg, i, min_nat(n, matrix_width(a_old)))
            } else {
                0
            },
        ),
    decreases n,
{
    lemma_residue_id(0);
    if n > 0 {
        let m = (n - 1) as nat;
        lemma_picked_span(a_old, a_pos, pos, neg, i, m);
        lemma_picked_entry(a_old, a_pos, pos, neg, i, m as int);
        let before = if i < matrix_rows(a_old).len() {
            picked_sum(a_old, a_pos, pos, neg, i, min_nat(m, matrix_width(a_old)))
        } else {
            0
        };
        let x = if i < matrix_rows(a_old).len() && m < matrix_width(a_old) {
            picked_cell(a_old, a_pos, pos, neg, i, m as int)
        } else {
            0
        };
        lemma_residue_add(before, x);
    }
}

/// The row sums of the padded tables are the lines' contributions by row.
pub proof fn law_picked_rows(
    a_old: CodeMatrix,
    a_pos: CodeMatrix,
    pos: Seq<i128>,
    neg: Seq<i128>,
)
    requires
        picks_fit(a_old, a_pos, pos, neg),
    ensures
        row_sums(
            picked_products(a_old, a_pos, pos, neg),
            pow2(ceil_log2(matrix_rows(a_old).len())),
            pow2(ceil_log2(matrix_width(a_old))),
        ) == picked_rows(a_old, a_pos, pos, neg),
{
    let rows = pow2(ceil_log2(matrix_rows(a_old).len()));
    let width = pow2(ceil_log2(matrix_width(a_old)));
    let s = row_sums(picked_products(a_old, a_pos, pos, neg), rows, width);
    lemma_ceil_log2(matrix_width(a_old));
    lemma_residue_id(0);
    assert forall|i: int| 0 <= i < rows implies #[trigger] s[i] == picked_rows(
        a_old,
        a_pos,
        pos,
        neg,
    )[i] by {
        lemma_picked_span(a_old, a_pos, pos, neg, i, width);
    }
    assert(s =~= picked_rows(a_old, a_pos, pos, neg));
}

/// Whether a matrix of codes holds the cells' contributions.
pub open spec fn is_picked(
    a_old: CodeMatrix,
    a_pos: CodeMatrix,
    pos: Seq<i128>,
    neg: Seq<i128>,
    d: CodeMatrix,
) -> bool {
    &&& picks_fit(a_old, a_pos, pos, neg)
    &&& matrix_rows(d).len() == matrix_rows(a_old).len()
    &&& matrix_width(d) == matrix_width(a_old)
    &&& forall|i: int, j: int|
        0 <= i < matrix_rows(d).len() && 0 <= j < matrix_width(d) ==> #[trigger] matrix_rows(
            d,
        )[i][j] == picked_cell(a_old, a_pos, pos, neg, i, j)
}

/// The padded table of the contributions is that of the padded tables.
pub proof fn law_padded_picked(
    a_old: CodeMatrix,
    a_pos: CodeMatrix,
    pos: Seq<i128>,
    neg: Seq<i128>,
    d: CodeMatrix,
)
    requires
        is_picked(a_old, a_pos, pos, neg, d),
    ensures
        lifted_codes(padded_cells(d)) == picked_products(a_old, a_pos, pos, neg),
{
    let cols = pow2(ceil_log2(matrix_width(a_old))) as int;
    let rows = pow2(ceil_log2(matrix_rows(a_old).len())) as int;
    let t = lifted_codes(padded_cells(d));
    let q = picked_products(a_old, a_pos, pos, neg);
    lemma_padded_len(d);
    lemma_padded_len(a_pos);
    lemma_pow2_pos(ceil_log2(matrix_width(a_old)));
    assert forall|k: int| 0 <= k < rows * cols implies #[trigger] t[k] == q[k] by {
        let (i, c) = (k / cols, k % cols);
        lemma_fundamental_div_mod(k, cols);
        lemma_mod_bound(k, cols);
        lemma_div_pos_is_pos(k, cols);
        assert(i < rows && k == i * cols + c) by (nonlinear_arith)
            requires
                k == cols * i + c,
                0 <= c,
                k < rows * cols,
                cols > 0,
        ;
        lemma_padded_entry(d, i, c);
        lemma_picked_entry(a_old, a_pos, pos, neg, i, c);
    }
    assert(t =~= q);
}

/// Whether a vector of codes holds the rows' contributions.
pub open spec fn is_picked_sum(
    a_old: CodeMatrix,
    a_pos: CodeMatrix,
    pos: Seq<i128>,
    neg: Seq<i128>,
    b: Seq<i128>,
) -> bool {
    &&& picks_fit(a_old, a_pos, pos, neg)
    &&& b.len() == matrix_rows(a_old).len()
    &&& forall|i: int|
        0 <= i < b.len() ==> #[trigger] b[i] == picked_sum(
            a_old,
            a_pos,
            pos,
            neg,
            i,
            matrix_width(a_old),
        )
}

/// The padded vector of the contributions is the contributions by row.
pub proof fn law_padded_picked_sum(
    a_old: CodeMatrix,
    a_pos: CodeMatrix,
    pos: Seq<i128>,
    neg: Seq<i128>,
    b: Seq<i128>,
)
    requires
        is_picked_sum(a_old, a_pos, pos, neg, b),
    ensures
        padded_vector(b) == picked_rows(a_old, a_pos, pos, neg),
{
    lemma_ceil_log2(b.len());
    assert(padded_vector(b) =~= picked_rows(a_old, a_pos, pos, neg));
}

/// The values at a point of the tables along every row.
pub proof fn lemma_line_values(row: Seq<int>, r_full: Seq<int>, lns: nat, lni: nat)
    requires
        row.len() == pow2(lni),
        r_full.len() == lns + lni,
        all_in_field(row),
        all_in_field(r_full),
    ensures
        mle(tiled(row, pow2(lns)), r_full) == mle(row, r_full.skip(lns as int)),
{
    let (a, b) = (r_full.take(lns as int), r_full.skip(lns as int));
    assert(a + b =~= r_full);
    law_mle_tiled(row, a, b);
}

} // verus!
