use vstd::prelude::*;

use crate::game::collections::sum_usizes;

verus! {

/// An array with `value` everywhere.
pub fn filled_array<T: Copy, const K: usize>(value: T) -> (values: [T; K])
    ensures
        forall|i: int| 0 <= i < K ==> #[trigger] values@[i] == value,
{
    [value; K]
}

/// The entries of column `j` of `matrix`, top to bottom.
pub open spec fn column<const N: usize, const M: usize>(matrix: [[usize; N]; M], j: int) -> Seq<usize> {
    Seq::new(M as nat, |i: int| matrix@[i]@[j])
}

/// The sum of row `i` of `matrix`.
pub open spec fn row_sum<const N: usize, const M: usize>(matrix: [[usize; N]; M], i: int) -> nat {
    sum_usizes(matrix@[i]@)
}

/// The sum of column `j` of `matrix`.
pub open spec fn col_sum<const N: usize, const M: usize>(matrix: [[usize; N]; M], j: int) -> nat {
    sum_usizes(column(matrix, j))
}

/// `matrix` has row sums `rows` and column sums `cols`.
pub open spec fn has_margins<const N: usize, const M: usize>(matrix: [[usize; N]; M], rows: Seq<usize>, cols: Seq<usize>) -> bool {
    &&& forall|i: int| 0 <= i < M ==> #[trigger] row_sum(matrix, i) == rows[i]
    &&& forall|j: int| 0 <= j < N ==> #[trigger] col_sum(matrix, j) == cols[j]
}

/// Changing one entry of a sequence changes its sum by the difference.
pub proof fn lemma_sum_update(s: Seq<usize>, k: int, v: usize)
    requires
        0 <= k < s.len(),
    ensures
        sum_usizes(s.update(k, v)) + s[k] == sum_usizes(s) + v,
    decreases s.len(),
{
    if k < s.len() - 1 {
        assert(s.update(k, v).drop_last() =~= s.drop_last().update(k, v));
        lemma_sum_update(s.drop_last(), k, v);
    } else {
        assert(s.update(k, v).drop_last() =~= s.drop_last());
    }
}

/// A sequence of zeros sums to zero, and a sum is zero only for zeros.
pub proof fn lemma_sum_zero(s: Seq<usize>)
    ensures
        (sum_usizes(s) == 0) <==> (forall|i: int| 0 <= i < s.len() ==> #[trigger] s[i] == 0),
    decreases s.len(),
{
    if s.len() > 0 {
        lemma_sum_zero(s.drop_last());
        if sum_usizes(s) == 0 {
            assert forall|i: int| 0 <= i < s.len() implies #[trigger] s[i] == 0 by {
                if i < s.len() - 1 {
                    assert(s.drop_last()[i] == s[i]);
                }
            }
        }
        if forall|i: int| 0 <= i < s.len() ==> #[trigger] s[i] == 0 {
            assert forall|i: int| 0 <= i < s.drop_last().len() implies #[trigger] s.drop_last()[i] == 0 by {
                assert(s[i] == 0);
            }
        }
    }
}

/// An entry is at most the sum.
pub proof fn lemma_entry_le_sum(s: Seq<usize>, k: int)
    requires
        0 <= k < s.len(),
    ensures
        s[k] <= sum_usizes(s),
    decreases s.len(),
{
    if k < s.len() - 1 {
        lemma_entry_le_sum(s.drop_last(), k);
    }
}

/// Writing `v` into cell `(r, c)` changes the sum of row `r` and of column `c` by the difference
/// and leaves the other rows and columns alone.
pub proof fn lemma_matrix_update<const N: usize, const M: usize>(
    matrix: [[usize; N]; M],
    updated: [[usize; N]; M],
    r: int,
    c: int,
    v: usize,
)
    requires
        0 <= r < M,
        0 <= c < N,
        updated@[r]@ == matrix@[r]@.update(c, v),
        forall|i: int| 0 <= i < M && i != r ==> #[trigger] updated@[i] == matrix@[i],
    ensures
        row_sum(updated, r) + matrix@[r]@[c] == row_sum(matrix, r) + v,
        col_sum(updated, c) + matrix@[r]@[c] == col_sum(matrix, c) + v,
        forall|i: int| 0 <= i < M && i != r ==> #[trigger] row_sum(updated, i) == row_sum(matrix, i),
        forall|j: int| 0 <= j < N && j != c ==> #[trigger] col_sum(updated, j) == col_sum(matrix, j),
{
    lemma_sum_update(matrix@[r]@, c, v);
    assert(column(updated, c) =~= column(matrix, c).update(r, v));
    lemma_sum_update(column(matrix, c), r, v);
    assert forall|j: int| 0 <= j < N && j != c implies #[trigger] col_sum(updated, j) == col_sum(matrix, j) by {
        assert(column(updated, j) =~= column(matrix, j));
    }
}

} // verus!
