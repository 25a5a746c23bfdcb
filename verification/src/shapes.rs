//! The numbers of variables that tensors are committed with.

use crate::columns::{even_vars, round_up_even};
use crate::mle::{ceil_log2, lemma_ceil_log2, next_pow2_log};
use vstd::arithmetic::power2::{lemma_pow2_adds, lemma_pow2_strictly_increases, pow2};
use vstd::prelude::*;

verus! {

/// The number of variables of a vector of `len` cells: enough for its cells,
/// rounded up to the next even number of at least two.
pub open spec fn vector_vars(len: nat) -> nat {
    even_vars(ceil_log2(len))
}

/// The number of variables of a `rows x cols` matrix in row-major layout.
pub open spec fn matrix_vars(rows: nat, cols: nat) -> nat {
    even_vars(ceil_log2(rows) + ceil_log2(cols))
}

/// The sum of a sequence of numbers.
pub open spec fn sum_of(s: Seq<usize>) -> nat
    decreases s.len(),
{
    if s.len() == 0 {
        0
    } else {
        sum_of(s.drop_last()) + s.last() as nat
    }
}

/// Sums grow along a sequence.
proof fn lemma_sum_prefix(s: Seq<usize>, k: nat)
    requires
        k <= s.len(),
    ensures
        sum_of(s.take(k as int)) <= sum_of(s),
    decreases s.len() - k,
{
    if k < s.len() {
        lemma_sum_prefix(s, k + 1);
        assert(s.take((k + 1) as int).drop_last() =~= s.take(k as int));
    } else {
        assert(s.take(k as int) =~= s);
    }
}

/// The number of variables of a tensor, from the logarithms of its axes: their
/// sum, rounded up to the next even number of at least two.
pub fn n_vars_from_logs(logs: &[usize]) -> (r: usize)
    requires
        sum_of(logs@) < usize::MAX,
    ensures
        r == even_vars(sum_of(logs@)),
{
    let mut n: usize = 0;
    let mut i: usize = 0;
    assert(logs@.take(0).len() == 0);
    while i < logs.len()
        invariant
            i <= logs@.len(),
            sum_of(logs@) < usize::MAX,
            n == sum_of(logs@.take(i as int)),
        decreases logs@.len() - i,
    {
        proof {
            lemma_sum_prefix(logs@, (i + 1) as nat);
            assert(logs@.take(i + 1).drop_last() =~= logs@.take(i as int));
        }
        n = n + logs[i];
        i += 1;
    }
    assert(logs@.take(logs@.len() as int) =~= logs@);
    round_up_even(n)
}

/// The number of variables of a vector of `len` cells.
pub fn native_vector_n_vars(len: usize) -> (r: usize)
    requires
        len <= usize::MAX / 2 + 1,
    ensures
        r == vector_vars(len as nat),
        r <= 64,
{
    let n: usize = next_pow2_log(len);
    round_up_even(n)
}

/// The number of variables of a `rows x cols` matrix.
pub fn native_matrix_n_vars(rows: usize, cols: usize) -> (r: usize)
    requires
        rows <= usize::MAX / 2 + 1,
        cols <= usize::MAX / 2 + 1,
    ensures
        r == matrix_vars(rows as nat, cols as nat),
        r <= 126,
{
    let n: usize = next_pow2_log(rows) + next_pow2_log(cols);
    round_up_even(n)
}

/// The variables of a vector are enough for its cells, and their number is
/// even and at least two.
pub proof fn law_vector_vars(len: nat)
    ensures
        len <= pow2(vector_vars(len)),
        vector_vars(len) >= 2,
        vector_vars(len) % 2 == 0,
        vector_vars(len) <= ceil_log2(len) + 2,
{
    lemma_ceil_log2(len);
    let k = ceil_log2(len);
    if k < vector_vars(len) {
        lemma_pow2_strictly_increases(k, vector_vars(len));
    }
}

/// The variables of a matrix are enough for its rows and columns, each padded
/// to a power of two.
pub proof fn law_matrix_vars(rows: nat, cols: nat)
    ensures
        pow2(ceil_log2(rows)) * pow2(ceil_log2(cols)) <= pow2(matrix_vars(rows, cols)),
        matrix_vars(rows, cols) >= 2,
        matrix_vars(rows, cols) % 2 == 0,
{
    let k = ceil_log2(rows) + ceil_log2(cols);
    lemma_pow2_adds(ceil_log2(rows), ceil_log2(cols));
    if k < matrix_vars(rows, cols) {
        lemma_pow2_strictly_increases(k, matrix_vars(rows, cols));
    }
}

} // verus!
