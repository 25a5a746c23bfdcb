//! Products of integer matrices, and their padded tables.

use crate::columns::lifted_codes;
use crate::field::residue;
use crate::matrix_laws::{product_entry, product_table};
use crate::mle::{ceil_log2, lemma_ceil_log2, lemma_pow2_split};
use crate::openings::padded_vector;
use crate::qarray::{CodeMatrix, matrix_rows, matrix_width, padded_cells};
use crate::ring::{lemma_residue_add, lemma_residue_id, lemma_residue_mul};
use vstd::arithmetic::div_mod::{lemma_div_pos_is_pos, lemma_fundamental_div_mod, lemma_fundamental_div_mod_converse, lemma_mod_bound};
use vstd::arithmetic::power2::{lemma_pow2_pos, pow2};
use vstd::prelude::*;

verus! {

/// The sum of the first `n` products of a row's codes and a column's.
pub open spec fn row_dot(row: Seq<i128>, w: Seq<Seq<i128>>, c: int, n: nat) -> int
    decreases n,
{
    if n == 0 {
        0
    } else {
        row_dot(row, w, c, (n - 1) as nat) + row[n - 1] * w[n - 1][c]
    }
}

/// The sum of the first `n` products of two vectors' codes.
pub open spec fn code_dot(row: Seq<i128>, b: Seq<i128>, n: nat) -> int
    decreases n,
{
    if n == 0 {
        0
    } else {
        code_dot(row, b, (n - 1) as nat) + row[n - 1] * b[n - 1]
    }
}

/// Whether a matrix of codes is the product of two.
pub open spec fn is_product(a: CodeMatrix, w: CodeMatrix, p: CodeMatrix) -> bool {
    &&& matrix_rows(w).len() == matrix_width(a)
    &&& matrix_rows(p).len() == matrix_rows(a).len()
    &&& matrix_width(p) == matrix_width(w)
    &&& forall|i: int, c: int|
        0 <= i < matrix_rows(a).len() && 0 <= c < matrix_width(w) ==> #[trigger] matrix_rows(
            p,
        )[i][c] == row_dot(matrix_rows(a)[i], matrix_rows(w), c, matrix_width(a))
}

/// Whether a vector of codes is the product of a matrix and a vector.
pub open spec fn is_vector_product(a: CodeMatrix, b: Seq<i128>, p: Seq<i128>) -> bool {
    &&& b.len() == matrix_width(a)
    &&& p.len() == matrix_rows(a).len()
    &&& forall|i: int|
        0 <= i < p.len() ==> #[trigger] p[i] == code_dot(matrix_rows(a)[i], b, matrix_width(a))
}

/// A cell of a matrix; past its edges it is zero.
pub open spec fn cell_of(m: CodeMatrix, i: int, j: int) -> int {
    if i < matrix_rows(m).len() && j < matrix_width(m) {
        matrix_rows(m)[i][j] as int
    } else {
        0
    }
}

/// The entry of a padded table at a row and a column.
pub proof fn lemma_padded_entry(m: CodeMatrix, i: int, j: int)
    requires
        0 <= i < pow2(ceil_log2(matrix_rows(m).len())),
        0 <= j < pow2(ceil_log2(matrix_width(m))),
    ensures
        ({
            let d = pow2(ceil_log2(matrix_width(m)));
            let k = i * d + j;
            &&& 0 <= k < padded_cells(m).len()
            &&& padded_cells(m)[k] == cell_of(m, i, j)
            &&& lifted_codes(padded_cells(m))[k] == residue(cell_of(m, i, j))
            &&& k / (d as int) == i
            &&& k % (d as int) == j
        }),
{
    let (lr, lc) = (ceil_log2(matrix_rows(m).len()), ceil_log2(matrix_width(m)));
    let d = pow2(lc) as int;
    let k = i * d + j;
    lemma_pow2_split(lr, lc);
    assert(0 <= k < pow2(lr) * d) by (nonlinear_arith)
        requires
            0 <= i < pow2(lr),
            0 <= j < d,
            k == i * d + j,
    ;
    lemma_fundamental_div_mod_converse(k, d, i, j);
}

/// The table of a padded matrix is its cells, row by row.
pub proof fn lemma_padded_len(m: CodeMatrix)
    ensures
        padded_cells(m).len() == pow2(ceil_log2(matrix_rows(m).len())) * pow2(
            ceil_log2(matrix_width(m)),
        ),
        matrix_rows(m).len() <= pow2(ceil_log2(matrix_rows(m).len())),
        matrix_width(m) <= pow2(ceil_log2(matrix_width(m))),
{
    lemma_pow2_split(ceil_log2(matrix_rows(m).len()), ceil_log2(matrix_width(m)));
    lemma_ceil_log2(matrix_rows(m).len());
    lemma_ceil_log2(matrix_width(m));
}

/// The smaller of two numbers.
pub open spec fn min_nat(a: nat, b: nat) -> nat {
    if a < b {
        a
    } else {
        b
    }
}

/// An entry of the product of two padded tables.
proof fn lemma_product_entry(a: CodeMatrix, w: CodeMatrix, i: int, c: int, n: nat)
    requires
        matrix_rows(w).len() == matrix_width(a),
        0 <= i < pow2(ceil_log2(matrix_rows(a).len())),
        0 <= c < pow2(ceil_log2(matrix_width(w))),
        n <= pow2(ceil_log2(matrix_width(a))),
    ensures
        product_entry(
            lifted_codes(padded_cells(a)),
            lifted_codes(padded_cells(w)),
            pow2(ceil_log2(matrix_width(a))),
            pow2(ceil_log2(matrix_width(w))),
            i,
            c,
            n,
        ) == residue(
            if i < matrix_rows(a).len() && c < matrix_width(w) {
                row_dot(
                    matrix_rows(a)[i],
                    matrix_rows(w),
                    c,
                    min_nat(n, matrix_width(a)),
                )
            } else {
                0
            },
        ),
    decreases n,
{
    lemma_residue_id(0);
    if n > 0 {
        let m = (n - 1) as nat;
        lemma_product_entry(a, w, i, c, m);
        lemma_padded_entry(a, i, m as int);
        lemma_padded_entry(w, m as int, c);
        let (x, y) = (cell_of(a, i, m as int), cell_of(w, m as int, c));
        let before = if i < matrix_rows(a).len() && c < matrix_width(w) {
            row_dot(matrix_rows(a)[i], matrix_rows(w), c, min_nat(m, matrix_width(a)))
        } else {
            0
        };
        lemma_residue_mul(x, y);
        lemma_residue_add(before, x * y);
        assert(x == 0 || y == 0 ==> x * y == 0) by (nonlinear_arith);
    }
}

/// The padded table of a product is the product of the padded tables.
pub proof fn law_padded_product(a: CodeMatrix, w: CodeMatrix, p: CodeMatrix)
    requires
        is_product(a, w, p),
    ensures
        lifted_codes(padded_cells(p)) == product_table(
            lifted_codes(padded_cells(a)),
            lifted_codes(padded_cells(w)),
            pow2(ceil_log2(matrix_rows(a).len())),
            pow2(ceil_log2(matrix_width(a))),
            pow2(ceil_log2(matrix_width(w))),
        ),
{
    let rows = pow2(ceil_log2(matrix_rows(a).len()));
    let inner = pow2(ceil_log2(matrix_width(a)));
    let cols = pow2(ceil_log2(matrix_width(w)));
    let t = lifted_codes(padded_cells(p));
    let q = product_table(
        lifted_codes(padded_cells(a)),
        lifted_codes(padded_cells(w)),
        rows,
        inner,
        cols,
    );
    lemma_padded_len(p);
    lemma_padded_len(a);
    lemma_pow2_pos(ceil_log2(matrix_width(w)));
    assert forall|k: int| 0 <= k < rows * cols implies #[trigger] t[k] == q[k] by {
        let d = cols as int;
        let (i, c) = (k / d, k % d);
        lemma_fundamental_div_mod(k, d);
        lemma_mod_bound(k, d);
        lemma_div_pos_is_pos(k, d);
        assert(i < rows && k == i * d + c) by (nonlinear_arith)
            requires
                k == d * i + c,
                0 <= c,
                k < rows * d,
                d > 0,
        ;
        lemma_padded_entry(p, i, c);
        lemma_product_entry(a, w, i, c, inner);
        lemma_residue_id(0);
    }
    assert(t =~= q);
}

/// An entry of the product of a padded matrix and a padded vector.
proof fn lemma_vector_entry(a: CodeMatrix, b: Seq<i128>, i: int, n: nat)
    requires
        b.len() == matrix_width(a),
        0 <= i < pow2(ceil_log2(matrix_rows(a).len())),
        n <= pow2(ceil_log2(matrix_width(a))),
    ensures
        product_entry(
            lifted_codes(padded_cells(a)),
            padded_vector(b),
            pow2(ceil_log2(matrix_width(a))),
            1,
            i,
            0,
            n,
        ) == residue(
            if i < matrix_rows(a).len() {
                code_dot(matrix_rows(a)[i], b, min_nat(n, matrix_width(a)))
            } else {
                0
            },
        ),
    decreases n,
{
    lemma_residue_id(0);
    if n > 0 {
        let m = (n - 1) as nat;
        lemma_vector_entry(a, b, i, m);
        lemma_padded_entry(a, i, m as int);
        let x = cell_of(a, i, m as int);
        let y = if m < b.len() {
            b[m as int] as int
        } else {
            0
        };
        let before = if i < matrix_rows(a).len() {
            code_dot(matrix_rows(a)[i], b, min_nat(m, matrix_width(a)))
        } else {
            0
        };
        assert((n - 1) * 1 + 0 == m);
        assert(padded_vector(b)[m as int] == residue(y)) by {
            lemma_ceil_log2(b.len());
        }
        lemma_residue_mul(x, y);
        lemma_residue_add(before, x * y);
        assert(x == 0 || y == 0 ==> x * y == 0) by (nonlinear_arith);
    }
}

/// The padded table of a matrix-vector product is the product of the padded
/// tables.
pub proof fn law_padded_vector_product(a: CodeMatrix, b: Seq<i128>, p: Seq<i128>)
    requires
        is_vector_product(a, b, p),
    ensures
        padded_vector(p) == product_table(
            lifted_codes(padded_cells(a)),
            padded_vector(b),
            pow2(ceil_log2(matrix_rows(a).len())),
            pow2(ceil_log2(matrix_width(a))),
            1,
        ),
{
    let rows = pow2(ceil_log2(matrix_rows(a).len()));
    let inner = pow2(ceil_log2(matrix_width(a)));
    let t = padded_vector(p);
    let q = product_table(lifted_codes(padded_cells(a)), padded_vector(b), rows, inner, 1);
    lemma_ceil_log2(p.len());
    lemma_ceil_log2(matrix_width(a));
    assert forall|k: int| 0 <= k < rows implies #[trigger] t[k] == q[k] by {
        assert(k / 1 == k && k % 1 == 0);
        lemma_vector_entry(a, b, k, inner);
        lemma_residue_id(0);
        if k < p.len() {
            assert(p[k] == code_dot(matrix_rows(a)[k], b, matrix_width(a)));
        }
    }
    assert(t =~= q);
}

} // verus!
