//! Quantized vectors and matrices, and their tables over the hypercube.

use crate::columns::{lift, lift_padded, lifted_codes, zero_padded};
use crate::field::{Fr, residue, vals};
use crate::mle::{ceil_log2, lemma_ceil_log2, next_pow2_log, pow2_usize};
use crate::ring::lemma_residue_id;
use crate::scale::Scale;
use crate::shapes::{
    law_vector_vars, matrix_vars, native_matrix_n_vars, native_vector_n_vars, vector_vars,
};
use vstd::arithmetic::power2::{lemma_pow2_pos, lemma_pow2_strictly_increases, pow2};
use vstd::prelude::*;

verus! {

/// A vector of codes.
#[verifier::external_body]
pub struct CodeVector {
    inner: ndarray::Array1<i128>,
}

/// A matrix of codes.
#[verifier::external_body]
pub struct CodeMatrix {
    inner: ndarray::Array2<i128>,
}

/// The codes of a vector.
pub uninterp spec fn vector_codes(v: CodeVector) -> Seq<i128>;

/// The rows of a matrix.
pub uninterp spec fn matrix_rows(m: CodeMatrix) -> Seq<Seq<i128>>;

/// The number of columns of a matrix.
pub uninterp spec fn matrix_width(m: CodeMatrix) -> nat;

/// `ndarray::Array1::from_vec`: the array holds the vector's elements.
#[verifier::external_body]
fn array1_from_vec(codes: Vec<i128>) -> (r: CodeVector)
    ensures
        vector_codes(r) == codes@,
{
    CodeVector { inner: ndarray::Array1::from_vec(codes) }
}

/// `ArrayBase::to_vec` of a one-dimensional array: its elements in order.
#[verifier::external_body]
fn array1_to_vec(v: &CodeVector) -> (r: Vec<i128>)
    ensures
        r@ == vector_codes(*v),
{
    v.inner.to_vec()
}

/// `ndarray::Array2::from_shape_vec`: where the shape has as many cells as the
/// vector has elements, the array holds them row by row; where it has not,
/// there is no array. Nothing is said of whether an empty shape is accepted.
#[verifier::external_body]
fn array2_from_shape_vec(rows: usize, cols: usize, codes: Vec<i128>) -> (r: Option<CodeMatrix>)
    ensures
        r is Some ==> rows * cols == codes@.len(),
        rows >= 1 && cols >= 1 && rows * cols == codes@.len() ==> r is Some,
        r matches Some(m) ==> {
            &&& matrix_width(m) == cols
            &&& matrix_rows(m) == Seq::new(
                rows as nat,
                |i: int| Seq::new(cols as nat, |j: int| codes@[i * cols + j]),
            )
        },
{
    match ndarray::Array2::from_shape_vec((rows, cols), codes) {
        Ok(inner) => Some(CodeMatrix { inner }),
        Err(_) => None,
    }
}

/// `ArrayBase::nrows`: the number of rows.
#[verifier::external_body]
fn array2_nrows(m: &CodeMatrix) -> (r: usize)
    ensures
        r == matrix_rows(*m).len(),
{
    m.inner.nrows()
}

/// `ArrayBase::ncols`: the number of columns.
#[verifier::external_body]
fn array2_ncols(m: &CodeMatrix) -> (r: usize)
    ensures
        r == matrix_width(*m),
{
    m.inner.ncols()
}

/// The `[[i, j]]` indexing of a two-dimensional array: the element in row `i`
/// and column `j`. It panics out of bounds, which the precondition leaves out.
#[verifier::external_body]
fn array2_get(m: &CodeMatrix, i: usize, j: usize) -> (r: i128)
    requires
        i < matrix_rows(*m).len(),
        j < matrix_width(*m),
    ensures
        r == matrix_rows(*m)[i as int][j as int],
{
    m.inner[[i, j]]
}

/// The `&a - &b` of two one-dimensional arrays: the differences of their
/// elements, an array of one element standing for its repetition. It panics on
/// other lengths, and a difference may overflow; the precondition leaves both
/// out.
#[verifier::external_body]
fn array1_sub(a: &CodeVector, b: &CodeVector) -> (r: CodeVector)
    requires
        broadcastable(vector_codes(*a), vector_codes(*b)),
        differences_fit(vector_codes(*a), vector_codes(*b)),
    ensures
        vector_codes(r) == code_differences(vector_codes(*a), vector_codes(*b)),
{
    CodeVector { inner: &a.inner - &b.inner }
}

/// Whether two vectors can be combined element by element.
pub open spec fn broadcastable(a: Seq<i128>, b: Seq<i128>) -> bool {
    a.len() == b.len() || a.len() == 1 || b.len() == 1
}

/// The element of a vector, or of the repetition of its one element.
pub open spec fn repeated(a: Seq<i128>, i: int) -> int {
    if a.len() == 1 {
        a[0] as int
    } else {
        a[i] as int
    }
}

/// The length of two vectors combined element by element.
pub open spec fn joint_len(a: Seq<i128>, b: Seq<i128>) -> nat {
    if a.len() == 1 {
        b.len()
    } else {
        a.len()
    }
}

/// Whether the differences of two vectors are codes.
pub open spec fn differences_fit(a: Seq<i128>, b: Seq<i128>) -> bool {
    forall|i: int|
        0 <= i < joint_len(a, b) ==> i128::MIN <= #[trigger] repeated(a, i) - repeated(b, i)
            <= i128::MAX
}

/// The differences of two vectors, element by element.
pub open spec fn code_differences(a: Seq<i128>, b: Seq<i128>) -> Seq<i128> {
    Seq::new(joint_len(a, b), |i: int| (repeated(a, i) - repeated(b, i)) as i128)
}

impl CodeVector {
    /// The differences of two vectors' codes.
    pub fn minus(&self, other: &CodeVector) -> (r: CodeVector)
        requires
            broadcastable(vector_codes(*self), vector_codes(*other)),
            differences_fit(vector_codes(*self), vector_codes(*other)),
        ensures
            vector_codes(r) == code_differences(vector_codes(*self), vector_codes(*other)),
    {
        array1_sub(self, other)
    }

    /// A vector of given codes.
    pub fn from_vec(codes: Vec<i128>) -> (r: CodeVector)
        ensures
            vector_codes(r) == codes@,
    {
        array1_from_vec(codes)
    }

    /// The codes.
    pub fn to_vec(&self) -> (r: Vec<i128>)
        ensures
            r@ == vector_codes(*self),
    {
        array1_to_vec(self)
    }
}

impl CodeMatrix {
    /// A matrix from its codes, row by row.
    pub fn from_shape_vec(rows: usize, cols: usize, codes: Vec<i128>) -> (r: Option<CodeMatrix>)
        ensures
            r is Some ==> rows * cols == codes@.len(),
            rows >= 1 && cols >= 1 && rows * cols == codes@.len() ==> r is Some,
            r matches Some(m) ==> {
                &&& matrix_width(m) == cols
                &&& matrix_rows(m) == Seq::new(
                    rows as nat,
                    |i: int| Seq::new(cols as nat, |j: int| codes@[i * cols + j]),
                )
            },
    {
        array2_from_shape_vec(rows, cols, codes)
    }

    /// The number of rows.
    pub fn nrows(&self) -> (r: usize)
        ensures
            r == matrix_rows(*self).len(),
    {
        array2_nrows(self)
    }

    /// The number of columns.
    pub fn ncols(&self) -> (r: usize)
        ensures
            r == matrix_width(*self),
    {
        array2_ncols(self)
    }

    /// The code in row `i` and column `j`.
    pub fn get(&self, i: usize, j: usize) -> (r: i128)
        requires
            i < matrix_rows(*self).len(),
            j < matrix_width(*self),
        ensures
            r == matrix_rows(*self)[i as int][j as int],
    {
        array2_get(self, i, j)
    }
}

/// A quantized vector: codes at a scale.
pub struct QArray1 {
    pub codes: CodeVector,
    pub scale: Scale,
}

/// A quantized matrix: codes at a scale.
pub struct QArray2 {
    pub codes: CodeMatrix,
    pub scale: Scale,
}

// ---- Tables ----

/// The cells of a matrix, row by row, each row padded with zeros to
/// `2^log_cols` cells and the whole to `len` cells.
pub open spec fn matrix_table(rows: Seq<Seq<i128>>, width: nat, log_cols: nat, len: nat) -> Seq<
    int,
> {
    Seq::new(
        len,
        |k: int|
            {
                let i = k / (pow2(log_cols) as int);
                let j = k % (pow2(log_cols) as int);
                if i < rows.len() && j < width {
                    residue(rows[i][j] as int)
                } else {
                    0
                }
            },
    )
}

/// The codes of a padded matrix; padding reads as zero.
pub open spec fn matrix_cells(rows: Seq<Seq<i128>>, width: nat, log_cols: nat, len: nat) -> Seq<
    i128,
> {
    Seq::new(
        len,
        |k: int|
            {
                let i = k / (pow2(log_cols) as int);
                let j = k % (pow2(log_cols) as int);
                if i < rows.len() && j < width {
                    rows[i][j]
                } else {
                    0i128
                }
            },
    )
}

/// The padded table holds the residues of the padded codes.
pub proof fn lemma_matrix_table(rows: Seq<Seq<i128>>, width: nat, log_cols: nat, len: nat)
    ensures
        matrix_table(rows, width, log_cols, len) == lifted_codes(
            matrix_cells(rows, width, log_cols, len),
        ),
{
    lemma_residue_id(0);
    assert(matrix_table(rows, width, log_cols, len) =~= lifted_codes(
        matrix_cells(rows, width, log_cols, len),
    ));
}

/// The front of a padded table is the table padded less.
pub proof fn lemma_matrix_front(
    rows: Seq<Seq<i128>>,
    width: nat,
    log_cols: nat,
    len: nat,
    more: nat,
)
    requires
        len <= more,
    ensures
        matrix_table(rows, width, log_cols, more).take(len as int) == matrix_table(
            rows,
            width,
            log_cols,
            len,
        ),
{
    assert(matrix_table(rows, width, log_cols, more).take(len as int) =~= matrix_table(
        rows,
        width,
        log_cols,
        len,
    ));
}

/// Read the codes of a padded matrix.
pub fn padded_codes(m: &CodeMatrix, log_cols: usize, len: usize) -> (r: Vec<i128>)
    requires
        pow2(log_cols as nat) <= usize::MAX,
    ensures
        r@ == matrix_cells(matrix_rows(*m), matrix_width(*m), log_cols as nat, len as nat),
        r@.len() == len,
{
    let ghost rows = matrix_rows(*m);
    let ghost width = matrix_width(*m);
    let n_rows: usize = m.nrows();
    let n_cols: usize = m.ncols();
    let pow_cols: usize = pow2_usize(log_cols);
    proof {
        lemma_pow2_pos(log_cols as nat);
    }
    let mut out: Vec<i128> = Vec::with_capacity(len);
    let mut k: usize = 0;
    while k < len
        invariant
            k <= len,
            rows == matrix_rows(*m),
            width == matrix_width(*m),
            n_rows == rows.len(),
            n_cols == width,
            pow_cols == pow2(log_cols as nat),
            pow_cols > 0,
            out@.len() == k,
            forall|q: int|
                0 <= q < k ==> #[trigger] out@[q] == matrix_cells(
                    rows,
                    width,
                    log_cols as nat,
                    len as nat,
                )[q],
        decreases len - k,
    {
        let i: usize = k / pow_cols;
        let j: usize = k % pow_cols;
        if i < n_rows && j < n_cols {
            out.push(m.get(i, j));
        } else {
            out.push(0);
        }
        k += 1;
    }
    assert(out@ =~= matrix_cells(rows, width, log_cols as nat, len as nat));
    out
}

/// Build the padded table of a matrix.
fn fill_matrix(m: &CodeMatrix, log_cols: usize, len: usize) -> (r: Vec<Fr>)
    requires
        pow2(log_cols as nat) <= usize::MAX,
    ensures
        vals(r@) == matrix_table(matrix_rows(*m), matrix_width(*m), log_cols as nat, len as nat),
        r@.len() == len,
{
    let codes: Vec<i128> = padded_codes(m, log_cols, len);
    proof {
        lemma_matrix_table(matrix_rows(*m), matrix_width(*m), log_cols as nat, len as nat);
    }
    lift(codes.as_slice())
}

/// Whether a matrix has a table that can be addressed.
pub open spec fn matrix_fits(m: CodeMatrix) -> bool {
    let (h, w) = (matrix_rows(m).len(), matrix_width(m));
    &&& h <= usize::MAX / 2 + 1
    &&& w <= usize::MAX / 2 + 1
    &&& pow2(matrix_vars(h, w)) <= usize::MAX
}

/// The table of a vector, padded to the size that it is committed with.
pub open spec fn vector_table(codes: Seq<i128>) -> Seq<int> {
    zero_padded(lifted_codes(codes), pow2(vector_vars(codes.len())))
}

/// Whether a vector has a table that can be addressed.
pub open spec fn vector_fits(codes: Seq<i128>) -> bool {
    &&& codes.len() <= usize::MAX / 2 + 1
    &&& pow2(vector_vars(codes.len())) <= usize::MAX
}

/// A matrix's natural table is no larger than its committed one.
pub proof fn lemma_matrix_fits(m: CodeMatrix)
    requires
        matrix_fits(m),
    ensures
        pow2(ceil_log2(matrix_rows(m).len()) + ceil_log2(matrix_width(m))) <= usize::MAX,
        pow2(ceil_log2(matrix_width(m))) <= usize::MAX,
{
    let (a, b) = (ceil_log2(matrix_rows(m).len()), ceil_log2(matrix_width(m)));
    let n = matrix_vars(matrix_rows(m).len(), matrix_width(m));
    if a + b < n {
        lemma_pow2_strictly_increases(a + b, n);
    }
    if b < a + b {
        lemma_pow2_strictly_increases(b, a + b);
    }
}

/// Build the table of a matrix, each axis padded to a power of two; returns it
/// with the logarithms of the axes.
pub fn mle_table_from_matrix(m: &QArray2) -> (r: (Vec<Fr>, (usize, usize)))
    requires
        matrix_fits(m.codes),
    ensures
        r.1.0 == ceil_log2(matrix_rows(m.codes).len()),
        r.1.1 == ceil_log2(matrix_width(m.codes)),
        r.1.0 < 64 && r.1.1 < 64,
        vals(r.0@) == matrix_table(
            matrix_rows(m.codes),
            matrix_width(m.codes),
            r.1.1 as nat,
            pow2((r.1.0 + r.1.1) as nat),
        ),
{
    let log_rows: usize = next_pow2_log(m.codes.nrows());
    let log_cols: usize = next_pow2_log(m.codes.ncols());
    proof {
        lemma_matrix_fits(m.codes);
    }
    let len: usize = pow2_usize(log_rows + log_cols);
    let tab: Vec<Fr> = fill_matrix(&m.codes, log_cols, len);
    (tab, (log_rows, log_cols))
}

/// Build the table of a vector, padded to a power of two.
pub fn mle_table_from_vector(v: &QArray1) -> (r: Vec<Fr>)
    requires
        vector_codes(v.codes).len() <= usize::MAX / 2 + 1,
    ensures
        vals(r@) == zero_padded(
            lifted_codes(vector_codes(v.codes)),
            pow2(ceil_log2(vector_codes(v.codes).len())),
        ),
{
    let codes: Vec<i128> = v.codes.to_vec();
    let log_len: usize = next_pow2_log(codes.len());
    proof {
        lemma_ceil_log2(codes@.len());
    }
    lift_padded(codes.as_slice(), pow2_usize(log_len))
}

/// Pad a vector of codes to the size that it is committed with; returns the
/// table and its number of variables.
pub fn pad_vector_native(codes: &[i128]) -> (r: (Vec<Fr>, usize))
    requires
        codes@.len() <= usize::MAX / 2 + 1,
        pow2(vector_vars(codes@.len())) <= usize::MAX,
    ensures
        r.1 == vector_vars(codes@.len()),
        vals(r.0@) == zero_padded(lifted_codes(codes@), pow2(vector_vars(codes@.len()))),
        r.0@.len() == pow2(vector_vars(codes@.len())),
{
    let n_vars: usize = native_vector_n_vars(codes.len());
    proof {
        law_vector_vars(codes@.len());
    }
    (lift_padded(codes, pow2_usize(n_vars)), n_vars)
}

/// Pad a matrix of codes to the size that it is committed with; returns the
/// table, its number of variables, and the logarithms of the axes.
pub fn pad_matrix_native(codes: &CodeMatrix) -> (r: (Vec<Fr>, usize, (usize, usize)))
    requires
        matrix_fits(*codes),
    ensures
        r.1 == matrix_vars(matrix_rows(*codes).len(), matrix_width(*codes)),
        r.2.0 == ceil_log2(matrix_rows(*codes).len()),
        r.2.1 == ceil_log2(matrix_width(*codes)),
        vals(r.0@) == matrix_table(
            matrix_rows(*codes),
            matrix_width(*codes),
            ceil_log2(matrix_width(*codes)),
            pow2(matrix_vars(matrix_rows(*codes).len(), matrix_width(*codes))),
        ),
        r.0@.len() == pow2(matrix_vars(matrix_rows(*codes).len(), matrix_width(*codes))),
{
    let rows: usize = codes.nrows();
    let cols: usize = codes.ncols();
    let log_rows: usize = next_pow2_log(rows);
    let log_cols: usize = next_pow2_log(cols);
    let n_vars: usize = native_matrix_n_vars(rows, cols);
    proof {
        lemma_matrix_fits(*codes);
    }
    let len: usize = pow2_usize(n_vars);
    (fill_matrix(codes, log_cols, len), n_vars, (log_rows, log_cols))
}

/// Pad a matrix to a power of two per axis; returns the table and its number
/// of variables.
pub fn pad_matrix_evals_2d(m: &QArray2) -> (r: (Vec<Fr>, usize))
    requires
        matrix_fits(m.codes),
    ensures
        r.1 == ceil_log2(matrix_rows(m.codes).len()) + ceil_log2(matrix_width(m.codes)),
        vals(r.0@) == matrix_table(
            matrix_rows(m.codes),
            matrix_width(m.codes),
            ceil_log2(matrix_width(m.codes)),
            pow2(r.1 as nat),
        ),
{
    let (tab, (log_rows, log_cols)): (Vec<Fr>, (usize, usize)) = mle_table_from_matrix(m);
    (tab, log_rows + log_cols)
}

/// Pad a vector to a power of two; returns the table and its number of
/// variables.
pub fn pad_vector_evals_1d(v: &QArray1) -> (r: (Vec<Fr>, usize))
    requires
        vector_codes(v.codes).len() <= usize::MAX / 2 + 1,
    ensures
        r.1 == ceil_log2(vector_codes(v.codes).len()),
        vals(r.0@) == zero_padded(lifted_codes(vector_codes(v.codes)), pow2(r.1 as nat)),
{
    let codes: Vec<i128> = v.codes.to_vec();
    let log_n: usize = next_pow2_log(codes.len());
    (mle_table_from_vector(v), log_n)
}

/// The cells of a matrix, each axis padded to a power of two.
pub open spec fn padded_cells(m: CodeMatrix) -> Seq<i128> {
    let (h, w) = (matrix_rows(m).len(), matrix_width(m));
    matrix_cells(matrix_rows(m), w, ceil_log2(w), pow2(ceil_log2(h) + ceil_log2(w)))
}

/// The table of a matrix, padded to the size that it is committed with.
pub open spec fn committed_table(m: CodeMatrix) -> Seq<int> {
    let (h, w) = (matrix_rows(m).len(), matrix_width(m));
    matrix_table(matrix_rows(m), w, ceil_log2(w), pow2(matrix_vars(h, w)))
}

/// The number of padded cells of a matrix.
pub open spec fn cell_count(m: CodeMatrix) -> nat {
    pow2(ceil_log2(matrix_rows(m).len()) + ceil_log2(matrix_width(m)))
}

/// The table of a matrix's own axes.
pub proof fn lemma_matrix_table_is_cells(m: CodeMatrix)
    ensures
        matrix_table(
            matrix_rows(m),
            matrix_width(m),
            ceil_log2(matrix_width(m)),
            pow2(ceil_log2(matrix_rows(m).len()) + ceil_log2(matrix_width(m))),
        ) == lifted_codes(padded_cells(m)),
{
    lemma_matrix_table(
        matrix_rows(m),
        matrix_width(m),
        ceil_log2(matrix_width(m)),
        pow2(ceil_log2(matrix_rows(m).len()) + ceil_log2(matrix_width(m))),
    );
}

} // verus!
