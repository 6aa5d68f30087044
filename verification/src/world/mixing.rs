use vstd::prelude::*;

use rand::rngs::SmallRng;

use crate::game::collections::sum_usizes;
use crate::randomness::{random_below, random_between, seeded_rng, shuffle_items};
use crate::world::margins::{col_sum, column, has_margins, lemma_entry_le_sum, lemma_matrix_update, lemma_sum_update, lemma_sum_zero, row_sum};

verus! {

/// The location stored for a cell that is not in the positive support.
pub const NOT_POSITIVE: usize = usize::MAX;

/// `locations` lists cell `(r, c)` in the positive support.
pub open spec fn located<const N: usize, const M: usize>(locations: [[usize; N]; M], r: int, c: int) -> bool {
    locations@[r]@[c] != NOT_POSITIVE
}

/// How many entries of `s` are locations rather than `NOT_POSITIVE`.
pub open spec fn count_located(s: Seq<usize>) -> nat
    decreases s.len(),
{
    if s.len() == 0 {
        0
    } else {
        count_located(s.drop_last()) + if s.last() != NOT_POSITIVE { 1nat } else { 0nat }
    }
}

/// One if `v` is a location, zero if it is `NOT_POSITIVE`.
pub open spec fn location_weight(v: usize) -> int {
    if v != NOT_POSITIVE { 1 } else { 0 }
}

/// The positive support of a matrix is kept in four parts that must agree with each other: the
/// list `entries` of its cells, the table `locations` that gives each listed cell its place in
/// the list (and `NOT_POSITIVE` to every other cell), and how many listed cells each row and
/// each column has.
pub open spec fn support_valid<const N: usize, const M: usize>(
    entries: Seq<(usize, usize)>,
    locations: [[usize; N]; M],
    row_counts: Seq<usize>,
    col_counts: Seq<usize>,
) -> bool {
    &&& forall|r: int, c: int|
        0 <= r < M && 0 <= c < N && #[trigger] located(locations, r, c) ==> {
            &&& locations@[r]@[c] < entries.len()
            &&& entries[locations@[r]@[c] as int].0 == r
            &&& entries[locations@[r]@[c] as int].1 == c
        }
    &&& forall|k: int|
        0 <= k < entries.len() ==> {
            &&& (#[trigger] entries[k]).0 < M
            &&& entries[k].1 < N
            &&& locations@[entries[k].0 as int]@[entries[k].1 as int] == k
        }
    &&& row_counts.len() == M
    &&& col_counts.len() == N
    &&& forall|r: int| 0 <= r < M ==> #[trigger] row_counts[r] == count_located(locations@[r]@)
    &&& forall|c: int| 0 <= c < N ==> #[trigger] col_counts[c] == count_located(column(locations, c))
    &&& entries.len() == sum_usizes(row_counts)
    &&& entries.len() < NOT_POSITIVE
}

/// The support is valid and lists exactly the positive cells of `matrix`.
pub open spec fn support_describes<const N: usize, const M: usize>(
    matrix: [[usize; N]; M],
    entries: Seq<(usize, usize)>,
    locations: [[usize; N]; M],
    row_counts: Seq<usize>,
    col_counts: Seq<usize>,
) -> bool {
    &&& support_valid(entries, locations, row_counts, col_counts)
    &&& forall|r: int, c: int| 0 <= r < M && 0 <= c < N ==> (#[trigger] located(locations, r, c) <==> matrix@[r]@[c] > 0)
}

/// Changing one entry of a sequence changes how many locations it holds by the difference.
pub proof fn lemma_count_located_update(s: Seq<usize>, k: int, v: usize)
    requires
        0 <= k < s.len(),
    ensures
        count_located(s.update(k, v)) + location_weight(s[k]) == count_located(s) + location_weight(v),
    decreases s.len(),
{
    if k < s.len() - 1 {
        assert(s.update(k, v).drop_last() =~= s.drop_last().update(k, v));
        lemma_count_located_update(s.drop_last(), k, v);
    } else {
        assert(s.update(k, v).drop_last() =~= s.drop_last());
    }
}

/// A sequence holds at most as many locations as it has entries.
pub proof fn lemma_count_located_bound(s: Seq<usize>)
    ensures
        count_located(s) <= s.len(),
    decreases s.len(),
{
    if s.len() > 0 {
        lemma_count_located_bound(s.drop_last());
    }
}

/// A sum of `s.len()` entries, each at most `bound`, is at most `s.len() * bound`.
pub proof fn lemma_sum_bound(s: Seq<usize>, bound: nat)
    requires
        forall|i: int| 0 <= i < s.len() ==> #[trigger] s[i] <= bound,
    ensures
        sum_usizes(s) <= s.len() * bound,
    decreases s.len(),
{
    if s.len() > 0 {
        lemma_sum_bound(s.drop_last(), bound);
        let n = s.len();
        assert((n - 1) * bound + bound == n * bound) by (nonlinear_arith);
    }
}

/// Writing `v` into cell `(r, c)` of the location table changes the counts of row `r` and of
/// column `c` by the difference, and no other count.
pub proof fn lemma_location_write<const N: usize, const M: usize>(
    locations: [[usize; N]; M],
    updated: [[usize; N]; M],
    r: int,
    c: int,
    v: usize,
)
    requires
        0 <= r < M,
        0 <= c < N,
        updated@[r]@ == locations@[r]@.update(c, v),
        forall|i: int| 0 <= i < M && i != r ==> #[trigger] updated@[i] == locations@[i],
    ensures
        count_located(updated@[r]@) + location_weight(locations@[r]@[c]) == count_located(locations@[r]@) + location_weight(v),
        count_located(column(updated, c)) + location_weight(locations@[r]@[c]) == count_located(column(locations, c)) + location_weight(v),
        forall|i: int| 0 <= i < M && i != r ==> #[trigger] count_located(updated@[i]@) == count_located(locations@[i]@),
        forall|j: int| 0 <= j < N && j != c ==> #[trigger] count_located(column(updated, j)) == count_located(column(locations, j)),
        forall|i: int, j: int| 0 <= i < M && 0 <= j < N && !(i == r && j == c) ==> #[trigger] updated@[i]@[j] == locations@[i]@[j],
{
    lemma_count_located_update(locations@[r]@, c, v);
    assert(column(updated, c) =~= column(locations, c).update(r, v));
    lemma_count_located_update(column(locations, c), r, v);
    assert forall|j: int| 0 <= j < N && j != c implies #[trigger] count_located(column(updated, j)) == count_located(column(locations, j)) by {
        assert(column(updated, j) =~= column(locations, j));
    }
}

/// Writes `v` into cell `(r, c)` of a table.
fn write_cell<const M: usize, const N: usize>(locations: &mut [[usize; N]; M], r: usize, c: usize, v: usize)
    requires
        r < M,
        c < N,
    ensures
        final(locations)@[r as int]@ == old(locations)@[r as int]@.update(c as int, v),
        forall|i: int| 0 <= i < M && i != r ==> #[trigger] final(locations)@[i] == old(locations)@[i],
{
    let mut row = locations[r];
    row[c] = v;
    locations[r] = row;
}

/// Lists cell `(row, col)`, which was not listed, at the end of the positive support.
pub fn add_positive_entry<const M: usize, const N: usize>(
    positive_entries: &mut Vec<(usize, usize)>,
    positive_entry_locations: &mut [[usize; N]; M],
    positive_row_counts: &mut [usize; M],
    positive_col_counts: &mut [usize; N],
    row: usize,
    col: usize,
)
    requires
        support_valid(old(positive_entries)@, *old(positive_entry_locations), old(positive_row_counts)@, old(positive_col_counts)@),
        row < M,
        col < N,
        !located(*old(positive_entry_locations), row as int, col as int),
        M * N < usize::MAX,
    ensures
        support_valid(final(positive_entries)@, *final(positive_entry_locations), final(positive_row_counts)@, final(positive_col_counts)@),
        final(positive_entries)@ == old(positive_entries)@.push((row, col)),
        final(positive_entry_locations)@[row as int]@ == old(positive_entry_locations)@[row as int]@.update(col as int, old(positive_entries)@.len() as usize),
        forall|i: int| 0 <= i < M && i != row ==> #[trigger] final(positive_entry_locations)@[i] == old(positive_entry_locations)@[i],
        final(positive_row_counts)@ == old(positive_row_counts)@.update(row as int, (old(positive_row_counts)@[row as int] + 1) as usize),
        final(positive_col_counts)@ == old(positive_col_counts)@.update(col as int, (old(positive_col_counts)@[col as int] + 1) as usize),
{
    let ghost old_entries = positive_entries@;
    let ghost old_locations = *positive_entry_locations;
    let ghost old_rows = positive_row_counts@;
    let ghost old_cols = positive_col_counts@;
    proof {
        lemma_count_located_update(old_locations@[row as int]@, col as int, 0);
        lemma_count_located_bound(old_locations@[row as int]@.update(col as int, 0));
        lemma_count_located_update(column(old_locations, col as int), row as int, 0);
        lemma_count_located_bound(column(old_locations, col as int).update(row as int, 0));
        assert forall|i: int| 0 <= i < M implies #[trigger] old_rows.update(row as int, (old_rows[row as int] + 1) as usize)[i] <= N by {
            lemma_count_located_bound(old_locations@[i]@);
        }
        lemma_sum_update(old_rows, row as int, (old_rows[row as int] + 1) as usize);
        lemma_sum_bound(old_rows.update(row as int, (old_rows[row as int] + 1) as usize), N as nat);
    }
    let index = positive_entries.len();
    positive_entries.push((row, col));
    write_cell(positive_entry_locations, row, col, index);
    positive_row_counts[row] = positive_row_counts[row] + 1;
    positive_col_counts[col] = positive_col_counts[col] + 1;
    proof {
        let new_locations = *positive_entry_locations;
        lemma_location_write(old_locations, new_locations, row as int, col as int, index);
        assert forall|k: int| 0 <= k < positive_entries@.len() implies {
            &&& (#[trigger] positive_entries@[k]).0 < M
            &&& positive_entries@[k].1 < N
            &&& new_locations@[positive_entries@[k].0 as int]@[positive_entries@[k].1 as int] == k
        } by {
            if k < index {
                let (r, c) = old_entries[k];
                assert(located(old_locations, r as int, c as int));
            }
        }
        assert forall|r: int, c: int|
            0 <= r < M && 0 <= c < N && #[trigger] located(new_locations, r, c) implies {
                &&& new_locations@[r]@[c] < positive_entries@.len()
                &&& positive_entries@[new_locations@[r]@[c] as int].0 == r
                &&& positive_entries@[new_locations@[r]@[c] as int].1 == c
            } by {
            if !(r == row && c == col) {
                assert(located(old_locations, r, c));
            }
        }
    }
}

/// Takes cell `(row, col)`, which was listed, out of the positive support: the last listed
/// cell moves into its place in the list.
pub fn remove_positive_entry<const M: usize, const N: usize>(
    positive_entries: &mut Vec<(usize, usize)>,
    positive_entry_locations: &mut [[usize; N]; M],
    positive_row_counts: &mut [usize; M],
    positive_col_counts: &mut [usize; N],
    row: usize,
    col: usize,
)
    requires
        support_valid(old(positive_entries)@, *old(positive_entry_locations), old(positive_row_counts)@, old(positive_col_counts)@),
        row < M,
        col < N,
        located(*old(positive_entry_locations), row as int, col as int),
    ensures
        support_valid(final(positive_entries)@, *final(positive_entry_locations), final(positive_row_counts)@, final(positive_col_counts)@),
        ({
            let index = old(positive_entry_locations)@[row as int]@[col as int];
            let moved = old(positive_entries)@.last();
            &&& final(positive_entries)@ == old(positive_entries)@.update(index as int, moved).drop_last()
            &&& forall|r: int, c: int| 0 <= r < M && 0 <= c < N ==> #[trigger] final(positive_entry_locations)@[r]@[c] == if r == row && c == col {
                NOT_POSITIVE
            } else if r == moved.0 && c == moved.1 {
                index
            } else {
                old(positive_entry_locations)@[r]@[c]
            }
        }),
        final(positive_row_counts)@ == old(positive_row_counts)@.update(row as int, (old(positive_row_counts)@[row as int] - 1) as usize),
        final(positive_col_counts)@ == old(positive_col_counts)@.update(col as int, (old(positive_col_counts)@[col as int] - 1) as usize),
{
    let ghost old_entries = positive_entries@;
    let ghost old_locations = *positive_entry_locations;
    let ghost old_rows = positive_row_counts@;
    let ghost old_cols = positive_col_counts@;
    let index = positive_entry_locations[row][col];
    proof {
        lemma_count_located_update(old_locations@[row as int]@, col as int, NOT_POSITIVE);
        lemma_count_located_update(column(old_locations, col as int), row as int, NOT_POSITIVE);
        lemma_sum_update(old_rows, row as int, (old_rows[row as int] - 1) as usize);
    }

    positive_row_counts[row] = positive_row_counts[row] - 1;
    positive_col_counts[col] = positive_col_counts[col] - 1;

    let last_index = positive_entries.len() - 1;
    let last_entry = positive_entries[last_index];

    positive_entries.swap_remove(index);
    write_cell(positive_entry_locations, row, col, NOT_POSITIVE);
    let ghost middle_locations = *positive_entry_locations;
    proof {
        lemma_location_write(old_locations, middle_locations, row as int, col as int, NOT_POSITIVE);
    }

    if index != last_index {
        let (moved_row, moved_col) = last_entry;
        proof {
            assert(old_locations@[moved_row as int]@[moved_col as int] == last_index);
            assert(!(moved_row == row && moved_col == col));
        }
        write_cell(positive_entry_locations, moved_row, moved_col, index);
        proof {
            lemma_location_write(middle_locations, *positive_entry_locations, moved_row as int, moved_col as int, index);
        }
    }
    proof {
        let new_locations = *positive_entry_locations;
        let moved = old_entries.last();
        assert(old_entries[index as int] == (row, col));
        assert forall|r: int, c: int| 0 <= r < M && 0 <= c < N implies #[trigger] new_locations@[r]@[c] == if r == row && c == col {
            NOT_POSITIVE
        } else if r == moved.0 && c == moved.1 {
            index
        } else {
            old_locations@[r]@[c]
        } by {
            if index == last_index {
                assert(moved == (row, col));
            }
        }
        assert forall|k: int| 0 <= k < positive_entries@.len() implies {
            &&& (#[trigger] positive_entries@[k]).0 < M
            &&& positive_entries@[k].1 < N
            &&& new_locations@[positive_entries@[k].0 as int]@[positive_entries@[k].1 as int] == k
        } by {
            if k != index {
                let (r, c) = old_entries[k];
                assert(old_locations@[r as int]@[c as int] == k);
            }
        }
        assert forall|r: int, c: int|
            0 <= r < M && 0 <= c < N && #[trigger] located(new_locations, r, c) implies {
                &&& new_locations@[r]@[c] < positive_entries@.len()
                &&& positive_entries@[new_locations@[r]@[c] as int].0 == r
                &&& positive_entries@[new_locations@[r]@[c] as int].1 == c
            } by {
            if !(r == moved.0 && c == moved.1) {
                assert(located(old_locations, r, c));
                let k = old_locations@[r]@[c];
                assert(k != index);
                assert(k != last_index);
            }
        }
    }
}

/// Brings cell `(row, col)` of the support up to date with `matrix`: it is listed if and only
/// if its entry is positive. Nothing changes where it already agreed.
pub fn update_positive_entry<const M: usize, const N: usize>(
    matrix_to_mix: &[[usize; N]; M],
    positive_entries: &mut Vec<(usize, usize)>,
    positive_entry_locations: &mut [[usize; N]; M],
    positive_row_counts: &mut [usize; M],
    positive_col_counts: &mut [usize; N],
    row: usize,
    col: usize,
)
    requires
        support_valid(old(positive_entries)@, *old(positive_entry_locations), old(positive_row_counts)@, old(positive_col_counts)@),
        row < M,
        col < N,
        M * N < usize::MAX,
    ensures
        support_valid(final(positive_entries)@, *final(positive_entry_locations), final(positive_row_counts)@, final(positive_col_counts)@),
        located(*final(positive_entry_locations), row as int, col as int) <==> matrix_to_mix@[row as int]@[col as int] > 0,
        forall|r: int, c: int| 0 <= r < M && 0 <= c < N && !(r == row && c == col) ==>
            (#[trigger] located(*final(positive_entry_locations), r, c) <==> located(*old(positive_entry_locations), r, c)),
        (matrix_to_mix@[row as int]@[col as int] > 0) == located(*old(positive_entry_locations), row as int, col as int) ==> {
            &&& final(positive_entries)@ == old(positive_entries)@
            &&& *final(positive_entry_locations) == *old(positive_entry_locations)
            &&& final(positive_row_counts)@ == old(positive_row_counts)@
            &&& final(positive_col_counts)@ == old(positive_col_counts)@
        },
        matrix_to_mix@[row as int]@[col as int] > 0 && !located(*old(positive_entry_locations), row as int, col as int) ==>
            final(positive_entries)@ == old(positive_entries)@.push((row, col)),
        matrix_to_mix@[row as int]@[col as int] == 0 && located(*old(positive_entry_locations), row as int, col as int) ==>
            final(positive_entries)@ == old(positive_entries)@.update(
                old(positive_entry_locations)@[row as int]@[col as int] as int,
                old(positive_entries)@.last(),
            ).drop_last(),
{
    let is_positive = matrix_to_mix[row][col] > 0;
    let was_positive = positive_entry_locations[row][col] != NOT_POSITIVE;
    if !was_positive && is_positive {
        add_positive_entry(positive_entries, positive_entry_locations, positive_row_counts, positive_col_counts, row, col);
        proof {
            lemma_location_write(*old(positive_entry_locations), *positive_entry_locations, row as int, col as int, old(positive_entries)@.len() as usize);
        }
    } else if was_positive && !is_positive {
        proof {
            assert(located(*old(positive_entry_locations), row as int, col as int));
        }
        remove_positive_entry(positive_entries, positive_entry_locations, positive_row_counts, positive_col_counts, row, col);
        proof {
            assert forall|r: int, c: int| 0 <= r < M && 0 <= c < N && !(r == row && c == col) implies
                (#[trigger] located(*positive_entry_locations, r, c) <==> located(*old(positive_entry_locations), r, c)) by {
                let moved = old(positive_entries)@.last();
                if r == moved.0 && c == moved.1 {
                    assert(located(*old(positive_entry_locations), r, c)) by {
                        let k = old(positive_entries)@.len() - 1;
                        assert(old(positive_entries)@[k] == moved);
                    }
                }
            }
        }
    }
}

/// `count_located` of a sequence without locations is zero.
proof fn lemma_count_located_none(s: Seq<usize>)
    requires
        forall|i: int| 0 <= i < s.len() ==> #[trigger] s[i] == NOT_POSITIVE,
    ensures
        count_located(s) == 0,
    decreases s.len(),
{
    if s.len() > 0 {
        lemma_count_located_none(s.drop_last());
    }
}

/// `(r0, c0)` comes before `(r1, c1)` in row-major order.
pub open spec fn row_major_before(r0: int, c0: int, r1: int, c1: int) -> bool {
    r0 < r1 || (r0 == r1 && c0 < c1)
}

/// The positive support of `matrix`, with its cells listed in row-major order.
pub fn build_positive_support<const M: usize, const N: usize>(
    matrix: &[[usize; N]; M],
) -> (support: (Vec<(usize, usize)>, [[usize; N]; M], [usize; M], [usize; N]))
    requires
        M * N < usize::MAX,
    ensures
        support_describes(*matrix, support.0@, support.1, support.2@, support.3@),
        forall|p: int, q: int| 0 <= p < q < support.0@.len() ==>
            row_major_before(#[trigger] support.0@[p].0 as int, support.0@[p].1 as int, #[trigger] support.0@[q].0 as int, support.0@[q].1 as int),
{
    let mut positive_entries: Vec<(usize, usize)> = Vec::new();
    let empty_row: [usize; N] = crate::world::margins::filled_array(NOT_POSITIVE);
    let mut positive_entry_locations: [[usize; N]; M] = crate::world::margins::filled_array(empty_row);
    let mut positive_row_counts: [usize; M] = crate::world::margins::filled_array(0usize);
    let mut positive_col_counts: [usize; N] = crate::world::margins::filled_array(0usize);
    proof {
        assert forall|r: int| 0 <= r < M implies #[trigger] positive_row_counts@[r] == count_located(positive_entry_locations@[r]@) by {
            assert(positive_entry_locations@[r] == empty_row);
            lemma_count_located_none(empty_row@);
        }
        assert forall|c: int| 0 <= c < N implies #[trigger] positive_col_counts@[c] == count_located(column(positive_entry_locations, c)) by {
            assert forall|i: int| 0 <= i < M implies #[trigger] column(positive_entry_locations, c)[i] == NOT_POSITIVE by {
                assert(positive_entry_locations@[i] == empty_row);
            }
            lemma_count_located_none(column(positive_entry_locations, c));
        }
        crate::world::margins::lemma_sum_zero(positive_row_counts@);
        assert forall|r: int, c: int| 0 <= r < M && 0 <= c < N implies !#[trigger] located(positive_entry_locations, r, c) by {
            assert(positive_entry_locations@[r] == empty_row);
        }
    }
    let mut row: usize = 0;
    while row < M
        invariant
            0 <= row <= M,
            M * N < usize::MAX,
            support_valid(positive_entries@, positive_entry_locations, positive_row_counts@, positive_col_counts@),
            forall|r: int, c: int| 0 <= r < row && 0 <= c < N ==> (#[trigger] located(positive_entry_locations, r, c) <==> matrix@[r]@[c] > 0),
            forall|r: int, c: int| row <= r < M && 0 <= c < N ==> !#[trigger] located(positive_entry_locations, r, c),
            forall|k: int| 0 <= k < positive_entries@.len() ==> (#[trigger] positive_entries@[k]).0 < row,
            forall|p: int, q: int| 0 <= p < q < positive_entries@.len() ==>
                row_major_before(#[trigger] positive_entries@[p].0 as int, positive_entries@[p].1 as int, #[trigger] positive_entries@[q].0 as int, positive_entries@[q].1 as int),
        decreases M - row,
    {
        let mut col: usize = 0;
        while col < N
            invariant
                0 <= row < M,
                0 <= col <= N,
                M * N < usize::MAX,
                support_valid(positive_entries@, positive_entry_locations, positive_row_counts@, positive_col_counts@),
                forall|r: int, c: int|
                    0 <= r < M && 0 <= c < N && (r < row || (r == row && c < col)) ==> (#[trigger] located(positive_entry_locations, r, c) <==> matrix@[r]@[c] > 0),
                forall|r: int, c: int|
                    0 <= r < M && 0 <= c < N && (r > row || (r == row && c >= col)) ==> !#[trigger] located(positive_entry_locations, r, c),
                forall|k: int| 0 <= k < positive_entries@.len() ==>
                    row_major_before(#[trigger] positive_entries@[k].0 as int, positive_entries@[k].1 as int, row as int, col as int),
                forall|p: int, q: int| 0 <= p < q < positive_entries@.len() ==>
                    row_major_before(#[trigger] positive_entries@[p].0 as int, positive_entries@[p].1 as int, #[trigger] positive_entries@[q].0 as int, positive_entries@[q].1 as int),
            decreases N - col,
        {
            let ghost before_cell_values = positive_entry_locations;
            if matrix[row][col] > 0 {
                let ghost before = positive_entry_locations;
                add_positive_entry(&mut positive_entries, &mut positive_entry_locations, &mut positive_row_counts, &mut positive_col_counts, row, col);
                proof {
                    lemma_location_write(before, positive_entry_locations, row as int, col as int, (positive_entries@.len() - 1) as usize);
                }
            }
            assert(located(positive_entry_locations, row as int, col as int) <==> matrix@[row as int]@[col as int] > 0);
            assert forall|r: int, c: int|
                0 <= r < M && 0 <= c < N && (r < row || (r == row && c < col + 1)) implies (#[trigger] located(positive_entry_locations, r, c) <==> matrix@[r]@[c] > 0) by {
                if !(r == row && c == col) {
                    assert(positive_entry_locations@[r]@[c] == before_cell_values@[r]@[c]);
                    assert(located(before_cell_values, r, c) <==> matrix@[r]@[c] > 0);
                }
            }
            col = col + 1;
        }
        row = row + 1;
    }
    (positive_entries, positive_entry_locations, positive_row_counts, positive_col_counts)
}

/// A 2x2 submatrix, given by two different rows and two different columns.
#[derive(Debug, Clone, Copy)]
pub struct Submatrix {
    pub r0: u8,
    pub r1: u8,
    pub c0: u8,
    pub c1: u8,
}

/// `after` is `before` with `t` moved along the diagonal of the submatrix on rows `r0, r1` and
/// columns `c0, c1`: the cells `(r0, c0)` and `(r1, c1)` gain `t`, the cells `(r0, c1)` and
/// `(r1, c0)` lose it, and every other cell is kept.
pub open spec fn spec_mix_step<const N: usize, const M: usize>(
    before: [[usize; N]; M],
    after: [[usize; N]; M],
    r0: int,
    r1: int,
    c0: int,
    c1: int,
    t: int,
) -> bool {
    &&& 0 <= r0 < M && 0 <= r1 < M && r0 != r1
    &&& 0 <= c0 < N && 0 <= c1 < N && c0 != c1
    &&& after@[r0]@[c0] == before@[r0]@[c0] + t
    &&& after@[r0]@[c1] == before@[r0]@[c1] - t
    &&& after@[r1]@[c0] == before@[r1]@[c0] - t
    &&& after@[r1]@[c1] == before@[r1]@[c1] + t
    &&& forall|i: int, j: int|
        0 <= i < M && 0 <= j < N && !((i == r0 || i == r1) && (j == c0 || j == c1)) ==> #[trigger] after@[i]@[j] == before@[i]@[j]
}

/// Moves `t` along the diagonal of the submatrix on rows `r0, r1` and columns `c0, c1`, where
/// `t` lies between minus the smaller diagonal entry and the smaller anti-diagonal entry, so
/// that every cell stays non-negative. The row and column sums do not change.
fn shift_submatrix<const M: usize, const N: usize>(
    matrix_to_mix: &mut [[usize; N]; M],
    r0: usize,
    r1: usize,
    c0: usize,
    c1: usize,
    t: i32,
)
    requires
        r0 < M && r1 < M && r0 != r1,
        c0 < N && c1 < N && c0 != c1,
        t + old(matrix_to_mix)@[r0 as int]@[c0 as int] >= 0,
        t + old(matrix_to_mix)@[r1 as int]@[c1 as int] >= 0,
        t <= old(matrix_to_mix)@[r0 as int]@[c1 as int],
        t <= old(matrix_to_mix)@[r1 as int]@[c0 as int],
        forall|r: int| 0 <= r < M ==> #[trigger] row_sum(*old(matrix_to_mix), r) <= i32::MAX,
    ensures
        spec_mix_step(*old(matrix_to_mix), *final(matrix_to_mix), r0 as int, r1 as int, c0 as int, c1 as int, t as int),
        forall|r: int| 0 <= r < M ==> #[trigger] row_sum(*final(matrix_to_mix), r) == row_sum(*old(matrix_to_mix), r),
        forall|c: int| 0 <= c < N ==> #[trigger] col_sum(*final(matrix_to_mix), c) == col_sum(*old(matrix_to_mix), c),
{
    let ghost m0 = *matrix_to_mix;
    proof {
        lemma_entry_le_sum(m0@[r0 as int]@, c0 as int);
        lemma_entry_le_sum(m0@[r0 as int]@, c1 as int);
        lemma_entry_le_sum(m0@[r1 as int]@, c0 as int);
        lemma_entry_le_sum(m0@[r1 as int]@, c1 as int);
    }
    let a = matrix_to_mix[r0][c0] as i32;
    let b = matrix_to_mix[r0][c1] as i32;
    let c = matrix_to_mix[r1][c0] as i32;
    let d = matrix_to_mix[r1][c1] as i32;
    proof {
        assert(m0@[r0 as int]@[c0 as int] + m0@[r0 as int]@[c1 as int] <= row_sum(m0, r0 as int)) by {
            lemma_sum_update(m0@[r0 as int]@, c0 as int, 0);
            lemma_entry_le_sum(m0@[r0 as int]@.update(c0 as int, 0), c1 as int);
        }
        assert(m0@[r1 as int]@[c0 as int] + m0@[r1 as int]@[c1 as int] <= row_sum(m0, r1 as int)) by {
            lemma_sum_update(m0@[r1 as int]@, c1 as int, 0);
            lemma_entry_le_sum(m0@[r1 as int]@.update(c1 as int, 0), c0 as int);
        }
    }

    write_cell(matrix_to_mix, r0, c0, (a + t) as usize);
    let ghost m1 = *matrix_to_mix;
    proof { lemma_matrix_update(m0, m1, r0 as int, c0 as int, (a + t) as usize); }
    write_cell(matrix_to_mix, r0, c1, (b - t) as usize);
    let ghost m2 = *matrix_to_mix;
    proof { lemma_matrix_update(m1, m2, r0 as int, c1 as int, (b - t) as usize); }
    write_cell(matrix_to_mix, r1, c0, (c - t) as usize);
    let ghost m3 = *matrix_to_mix;
    proof { lemma_matrix_update(m2, m3, r1 as int, c0 as int, (c - t) as usize); }
    write_cell(matrix_to_mix, r1, c1, (d + t) as usize);
    let ghost m4 = *matrix_to_mix;
    proof {
        lemma_matrix_update(m3, m4, r1 as int, c1 as int, (d + t) as usize);
        assert forall|r: int| 0 <= r < M implies #[trigger] row_sum(m4, r) == row_sum(m0, r) by {
            if r != r0 && r != r1 {
                assert(row_sum(m1, r) == row_sum(m0, r));
                assert(row_sum(m2, r) == row_sum(m1, r));
                assert(row_sum(m3, r) == row_sum(m2, r));
            } else if r == r0 {
                assert(row_sum(m3, r) == row_sum(m2, r));
            } else {
                assert(row_sum(m1, r) == row_sum(m0, r));
                assert(row_sum(m2, r) == row_sum(m1, r));
            }
        }
        assert forall|cc: int| 0 <= cc < N implies #[trigger] col_sum(m4, cc) == col_sum(m0, cc) by {
            if cc != c0 && cc != c1 {
                assert(col_sum(m1, cc) == col_sum(m0, cc));
                assert(col_sum(m2, cc) == col_sum(m1, cc));
                assert(col_sum(m3, cc) == col_sum(m2, cc));
            } else if cc == c0 {
                assert(col_sum(m2, cc) == col_sum(m1, cc));
                assert(col_sum(m4, cc) == col_sum(m3, cc));
            } else {
                assert(col_sum(m1, cc) == col_sum(m0, cc));
                assert(col_sum(m3, cc) == col_sum(m2, cc));
            }
        }
    }
}

/// How many of the first `k` listed cells lie in row `r`.
pub open spec fn listed_in_row(entries: Seq<(usize, usize)>, r: int, k: int) -> nat
    decreases k,
{
    if k <= 0 {
        0
    } else {
        listed_in_row(entries, r, k - 1) + if entries[k - 1].0 == r { 1nat } else { 0nat }
    }
}

/// How many of the first `k` listed cells lie in column `c`.
pub open spec fn listed_in_col(entries: Seq<(usize, usize)>, c: int, k: int) -> nat
    decreases k,
{
    if k <= 0 {
        0
    } else {
        listed_in_col(entries, c, k - 1) + if entries[k - 1].1 == c { 1nat } else { 0nat }
    }
}

/// How many of the first `k` listed cells are the cell `(r, c)`.
pub open spec fn listed_at(entries: Seq<(usize, usize)>, r: int, c: int, k: int) -> nat
    decreases k,
{
    if k <= 0 {
        0
    } else {
        listed_at(entries, r, c, k - 1) + if entries[k - 1].0 == r && entries[k - 1].1 == c { 1nat } else { 0nat }
    }
}

/// How many of the first `k` listed cells lie neither in row `r` nor in column `c`: the cells
/// that can stand opposite `(r, c)` in a submatrix.
pub open spec fn partners_before(entries: Seq<(usize, usize)>, r: int, c: int, k: int) -> nat
    decreases k,
{
    if k <= 0 {
        0
    } else {
        partners_before(entries, r, c, k - 1) + if entries[k - 1].0 != r && entries[k - 1].1 != c {
            1nat
        } else {
            0nat
        }
    }
}

/// The counts per row and per column count the listed cells, and no cell is listed twice.
pub open spec fn counts_match(entries: Seq<(usize, usize)>, row_counts: Seq<usize>, col_counts: Seq<usize>) -> bool {
    &&& forall|r: int| 0 <= r < row_counts.len() ==> #[trigger] row_counts[r] == listed_in_row(entries, r, entries.len() as int)
    &&& forall|c: int| 0 <= c < col_counts.len() ==> #[trigger] col_counts[c] == listed_in_col(entries, c, entries.len() as int)
    &&& forall|j: int, k: int| 0 <= j < entries.len() && 0 <= k < entries.len() && j != k ==> #[trigger] entries[j] != #[trigger] entries[k]
}

/// The listed cell `k` has a listed partner, in another row and another column.
pub open spec fn has_listed_partner(entries: Seq<(usize, usize)>, k: int) -> bool {
    exists|j: int| 0 <= j < entries.len() && #[trigger] entries[j].0 != entries[k].0 && entries[j].1 != entries[k].1
}

/// Every listed cell has a listed partner, in another row and another column.
pub open spec fn every_entry_has_partner(entries: Seq<(usize, usize)>) -> bool {
    forall|k: int| 0 <= k < entries.len() ==> #[trigger] has_listed_partner(entries, k)
}

/// Each listed cell lies in row `r`, in column `c`, in both (the cell itself), or in neither.
proof fn lemma_listed_partition(entries: Seq<(usize, usize)>, r: int, c: int, k: int)
    requires
        k >= 0,
    ensures
        k + listed_at(entries, r, c, k) == listed_in_row(entries, r, k) + listed_in_col(entries, c, k) + partners_before(entries, r, c, k),
    decreases k,
{
    if k > 0 {
        lemma_listed_partition(entries, r, c, k - 1);
    }
}

/// A cell listed once, at `at`, is counted once among the first `k` cells past `at`.
proof fn lemma_listed_once(entries: Seq<(usize, usize)>, at: int, k: int)
    requires
        0 <= at < entries.len(),
        0 <= k <= entries.len(),
        forall|j: int| 0 <= j < entries.len() && j != at ==> #[trigger] entries[j] != entries[at],
    ensures
        listed_at(entries, entries[at].0 as int, entries[at].1 as int, k) == if at < k { 1nat } else { 0nat },
    decreases k,
{
    if k > 0 {
        lemma_listed_once(entries, at, k - 1);
        if k - 1 != at {
            assert(entries[k - 1] != entries[at]);
        }
    }
}

/// A partner among the first `k` cells makes their count of partners positive.
proof fn lemma_partner_counted(entries: Seq<(usize, usize)>, r: int, c: int, j: int, k: int)
    requires
        0 <= j < k,
        entries[j].0 != r && entries[j].1 != c,
    ensures
        partners_before(entries, r, c, k) >= 1,
    decreases k,
{
    if k - 1 != j {
        lemma_partner_counted(entries, r, c, j, k - 1);
    }
}

/// With matching counts and a partner for every listed cell, the partners of a listed cell are
/// exactly the cells its row and column counts leave over, and there is at least one.
proof fn lemma_partners_fill_the_rest(entries: Seq<(usize, usize)>, row_counts: Seq<usize>, col_counts: Seq<usize>, k0: int)
    requires
        counts_match(entries, row_counts, col_counts),
        every_entry_has_partner(entries),
        0 <= k0 < entries.len(),
        entries[k0].0 < row_counts.len(),
        entries[k0].1 < col_counts.len(),
    ensures
        row_counts[entries[k0].0 as int] + col_counts[entries[k0].1 as int] + partners_before(
            entries,
            entries[k0].0 as int,
            entries[k0].1 as int,
            entries.len() as int,
        ) == entries.len() + 1,
        partners_before(entries, entries[k0].0 as int, entries[k0].1 as int, entries.len() as int) >= 1,
{
    let r0 = entries[k0].0 as int;
    let c0 = entries[k0].1 as int;
    let len = entries.len() as int;
    lemma_listed_partition(entries, r0, c0, len);
    assert forall|j: int| 0 <= j < entries.len() && j != k0 implies #[trigger] entries[j] != entries[k0] by {}
    lemma_listed_once(entries, k0, len);
    assert(row_counts[r0] == listed_in_row(entries, r0, len));
    assert(col_counts[c0] == listed_in_col(entries, c0, len));
    assert(has_listed_partner(entries, k0));
    let j = choose|j: int| 0 <= j < entries.len() && #[trigger] entries[j].0 != entries[k0].0 && entries[j].1 != entries[k0].1;
    lemma_partner_counted(entries, r0, c0, j, len);
}

/// How many `j < n` relate to `i` by `f`.
pub open spec fn related_seconds(f: spec_fn(int, int) -> bool, i: int, n: int) -> nat
    decreases n,
{
    if n <= 0 {
        0
    } else {
        related_seconds(f, i, n - 1) + if f(i, n - 1) { 1nat } else { 0nat }
    }
}

/// How many `i < m` relate to `j` by `f`.
pub open spec fn related_firsts(f: spec_fn(int, int) -> bool, m: int, j: int) -> nat
    decreases m,
{
    if m <= 0 {
        0
    } else {
        related_firsts(f, m - 1, j) + if f(m - 1, j) { 1nat } else { 0nat }
    }
}

/// The related pairs below `(m, n)`, counted first by first.
pub open spec fn pairs_by_first(f: spec_fn(int, int) -> bool, m: int, n: int) -> nat
    decreases m,
{
    if m <= 0 {
        0
    } else {
        pairs_by_first(f, m - 1, n) + related_seconds(f, m - 1, n)
    }
}

/// The related pairs below `(m, n)`, counted second by second.
pub open spec fn pairs_by_second(f: spec_fn(int, int) -> bool, m: int, n: int) -> nat
    decreases n,
{
    if n <= 0 {
        0
    } else {
        pairs_by_second(f, m, n - 1) + related_firsts(f, m, n - 1)
    }
}

proof fn lemma_pairs_by_second_step(f: spec_fn(int, int) -> bool, m: int, n: int)
    requires
        m > 0,
    ensures
        pairs_by_second(f, m, n) == pairs_by_second(f, m - 1, n) + related_seconds(f, m - 1, n),
    decreases n,
{
    if n > 0 {
        lemma_pairs_by_second_step(f, m, n - 1);
    }
}

proof fn lemma_pairs_by_second_empty(f: spec_fn(int, int) -> bool, n: int)
    ensures
        pairs_by_second(f, 0, n) == 0,
    decreases n,
{
    if n > 0 {
        lemma_pairs_by_second_empty(f, n - 1);
    }
}

/// Counting the related pairs first by first or second by second gives the same.
proof fn lemma_pairs_swap(f: spec_fn(int, int) -> bool, m: int, n: int)
    requires
        m >= 0,
    ensures
        pairs_by_first(f, m, n) == pairs_by_second(f, m, n),
    decreases m,
{
    if m == 0 {
        lemma_pairs_by_second_empty(f, n);
    } else {
        lemma_pairs_swap(f, m - 1, n);
        lemma_pairs_by_second_step(f, m, n);
    }
}

/// Among `j < n`, only `target` (if below `n`) is related to `i` when exactly it is.
proof fn lemma_related_seconds_single(f: spec_fn(int, int) -> bool, i: int, n: int, hit: bool, target: int)
    requires
        forall|j: int| 0 <= j < n ==> (#[trigger] f(i, j) <==> (hit && j == target)),
    ensures
        related_seconds(f, i, n) == if hit && 0 <= target < n { 1nat } else { 0nat },
    decreases n,
{
    if n > 0 {
        lemma_related_seconds_single(f, i, n - 1, hit, target);
    }
}

/// Among `i < m`, only `target` (if below `m`) is related to `j` when exactly it is.
proof fn lemma_related_firsts_single(f: spec_fn(int, int) -> bool, m: int, j: int, hit: bool, target: int)
    requires
        forall|i: int| 0 <= i < m ==> (#[trigger] f(i, j) <==> (hit && i == target)),
    ensures
        related_firsts(f, m, j) == if hit && 0 <= target < m { 1nat } else { 0nat },
    decreases m,
{
    if m > 0 {
        lemma_related_firsts_single(f, m - 1, j, hit, target);
    }
}

/// Summed over the first `m` listed cells, the indicator of row `r` counts those in row `r`.
proof fn lemma_pairs_by_first_rows(entries: Seq<(usize, usize)>, f: spec_fn(int, int) -> bool, r: int, m: int, n: int)
    requires
        0 <= m <= entries.len(),
        forall|k: int| 0 <= k < entries.len() ==> (#[trigger] entries[k]).1 < n,
        forall|k: int, c: int| #[trigger] f(k, c) == (entries[k].0 == r && entries[k].1 == c),
    ensures
        pairs_by_first(f, m, n) == listed_in_row(entries, r, m),
    decreases m,
{
    if m > 0 {
        lemma_pairs_by_first_rows(entries, f, r, m - 1, n);
        let k = m - 1;
        lemma_related_seconds_single(f, k, n, entries[k].0 == r, entries[k].1 as int);
    }
}

/// Summed over the first `m` listed cells, the indicator of column `c` counts those in it.
proof fn lemma_pairs_by_first_cols(entries: Seq<(usize, usize)>, f: spec_fn(int, int) -> bool, c: int, m: int, n: int)
    requires
        0 <= m <= entries.len(),
        forall|k: int| 0 <= k < entries.len() ==> (#[trigger] entries[k]).0 < n,
        forall|k: int, r: int| #[trigger] f(k, r) == (entries[k].1 == c && entries[k].0 == r),
    ensures
        pairs_by_first(f, m, n) == listed_in_col(entries, c, m),
    decreases m,
{
    if m > 0 {
        lemma_pairs_by_first_cols(entries, f, c, m - 1, n);
        let k = m - 1;
        lemma_related_seconds_single(f, k, n, entries[k].1 == c, entries[k].0 as int);
    }
}

/// Summed over the first `n` entries of a location row or column, the indicator of a listed
/// cell counts the locations among them.
proof fn lemma_pairs_by_second_located(f: spec_fn(int, int) -> bool, line: Seq<usize>, m: int, n: int)
    requires
        0 <= n <= line.len(),
        forall|j: int| 0 <= j < line.len() && #[trigger] line[j] != NOT_POSITIVE ==> line[j] < m,
        forall|i: int, j: int| 0 <= j < line.len() && 0 <= i < m ==> (#[trigger] f(i, j) <==> (line[j] != NOT_POSITIVE && i == line[j])),
    ensures
        pairs_by_second(f, m, n) == count_located(line.take(n)),
    decreases n,
{
    if n > 0 {
        lemma_pairs_by_second_located(f, line, m, n - 1);
        let j = n - 1;
        assert(forall|i: int| 0 <= i < m ==> (#[trigger] f(i, j) <==> (line[j] != NOT_POSITIVE && i == line[j])));
        lemma_related_firsts_single(f, m, j, line[j] != NOT_POSITIVE, line[j] as int);
        assert(line.take(n).drop_last() =~= line.take(n - 1));
    }
}

/// A valid support's counts count its listed cells, and it lists no cell twice.
proof fn lemma_support_counts_match<const N: usize, const M: usize>(
    entries: Seq<(usize, usize)>,
    locations: [[usize; N]; M],
    row_counts: Seq<usize>,
    col_counts: Seq<usize>,
)
    requires
        support_valid(entries, locations, row_counts, col_counts),
    ensures
        counts_match(entries, row_counts, col_counts),
{
    let len = entries.len() as int;
    assert forall|j: int, k: int| 0 <= j < entries.len() && 0 <= k < entries.len() && j != k implies #[trigger] entries[j]
        != #[trigger] entries[k] by {
        if entries[j] == entries[k] {
            assert(locations@[entries[j].0 as int]@[entries[j].1 as int] == j);
            assert(locations@[entries[k].0 as int]@[entries[k].1 as int] == k);
        }
    }
    assert forall|r: int| 0 <= r < row_counts.len() implies #[trigger] row_counts[r] == listed_in_row(entries, r, len) by {
        let f = |k: int, c: int| entries[k].0 == r && entries[k].1 == c;
        let line = locations@[r]@;
        lemma_pairs_by_first_rows(entries, f, r, len, N as int);
        assert forall|j: int| 0 <= j < line.len() && #[trigger] line[j] != NOT_POSITIVE implies line[j] < len by {
            assert(located(locations, r, j));
        }
        assert forall|i: int, j: int| 0 <= j < line.len() && 0 <= i < len implies (#[trigger] f(i, j) <==> (line[j]
            != NOT_POSITIVE && i == line[j])) by {
            {
                if f(i, j) {
                    assert(locations@[entries[i].0 as int]@[entries[i].1 as int] == i);
                }
                if line[j] != NOT_POSITIVE && i == line[j] {
                    assert(located(locations, r, j));
                }
            }
        }
        lemma_pairs_by_second_located(f, line, len, N as int);
        lemma_pairs_swap(f, len, N as int);
        assert(line.take(N as int) =~= line);
    }
    assert forall|c: int| 0 <= c < col_counts.len() implies #[trigger] col_counts[c] == listed_in_col(entries, c, len) by {
        let f = |k: int, r: int| entries[k].1 == c && entries[k].0 == r;
        let line = column(locations, c);
        lemma_pairs_by_first_cols(entries, f, c, len, M as int);
        assert forall|j: int| 0 <= j < line.len() && #[trigger] line[j] != NOT_POSITIVE implies line[j] < len by {
            assert(located(locations, j, c));
        }
        assert forall|i: int, j: int| 0 <= j < line.len() && 0 <= i < len implies (#[trigger] f(i, j) <==> (line[j]
            != NOT_POSITIVE && i == line[j])) by {
            {
                if f(i, j) {
                    assert(locations@[entries[i].0 as int]@[entries[i].1 as int] == i);
                }
                if line[j] != NOT_POSITIVE && i == line[j] {
                    assert(located(locations, j, c));
                }
            }
        }
        lemma_pairs_by_second_located(f, line, len, M as int);
        lemma_pairs_swap(f, len, M as int);
        assert(line.take(M as int) =~= line);
    }
}

/// Every positive cell of `matrix` has a positive cell in another row and another column,
/// with which it spans a submatrix that can be mixed.
pub open spec fn every_positive_cell_has_partner<const N: usize, const M: usize>(matrix: [[usize; N]; M]) -> bool {
    forall|r: int, c: int|
        0 <= r < M && 0 <= c < N && #[trigger] matrix@[r]@[c] > 0 ==> exists|r1: int, c1: int|
            0 <= r1 < M && 0 <= c1 < N && r1 != r && c1 != c && #[trigger] matrix@[r1]@[c1] > 0
}

/// When every positive cell has a partner, so has every listed cell of a support describing
/// the matrix.
proof fn lemma_listed_partners<const N: usize, const M: usize>(
    matrix: [[usize; N]; M],
    entries: Seq<(usize, usize)>,
    locations: [[usize; N]; M],
    row_counts: Seq<usize>,
    col_counts: Seq<usize>,
)
    requires
        support_describes(matrix, entries, locations, row_counts, col_counts),
        every_positive_cell_has_partner(matrix),
    ensures
        every_entry_has_partner(entries),
{
    assert forall|k: int| 0 <= k < entries.len() implies #[trigger] has_listed_partner(entries, k) by {
        let r = entries[k].0 as int;
        let c = entries[k].1 as int;
        assert(locations@[r]@[c] == k);
        assert(located(locations, r, c));
        assert(matrix@[r]@[c] > 0);
        let (r1, c1) = choose|r1: int, c1: int| 0 <= r1 < M && 0 <= c1 < N && r1 != r && c1 != c && #[trigger] matrix@[r1]@[c1] > 0;
        assert(located(locations, r1, c1));
        let j = locations@[r1]@[c1] as int;
        assert(entries[j].0 == r1 && entries[j].1 == c1);
        assert(0 <= j < entries.len() && entries[j].0 != entries[k].0 && entries[j].1 != entries[k].1);
    }
}

/// What `sample_submatrix` needs to know of a support that describes `matrix`.
proof fn lemma_mixing_can_start<const N: usize, const M: usize>(
    matrix: [[usize; N]; M],
    entries: Seq<(usize, usize)>,
    locations: [[usize; N]; M],
    row_counts: Seq<usize>,
    col_counts: Seq<usize>,
)
    requires
        support_describes(matrix, entries, locations, row_counts, col_counts),
    ensures
        every_positive_cell_has_partner(matrix) ==> counts_match(entries, row_counts, col_counts) && every_entry_has_partner(entries),
{
    if every_positive_cell_has_partner(matrix) {
        lemma_support_counts_match(entries, locations, row_counts, col_counts);
        lemma_listed_partners(matrix, entries, locations, row_counts, col_counts);
    }
}

/// How many times `sample_submatrix` draws a first cell before it gives up.
pub const SAMPLE_ATTEMPTS: usize = 500;

/// Draws a submatrix whose diagonal cells `(r0, c0)` and `(r1, c1)` are both listed in
/// `positive_entries`: first a listed cell, then, among the listed cells in another row and
/// another column, one chosen uniformly by the counts of listed cells per row and column.
/// After `SAMPLE_ATTEMPTS` first cells with no such partner it gives up with `None`. When the
/// counts count the listed cells and every listed cell has a partner, the first draw succeeds.
pub fn sample_submatrix<const M: usize, const N: usize>(
    positive_entries: &[(usize, usize)],
    positive_row_counts: &[usize],
    positive_col_counts: &[usize],
    rng: &mut SmallRng,
) -> (sampled: Option<Submatrix>)
    requires
        0 < positive_entries@.len() < usize::MAX,
        M <= 256,
        N <= 256,
        positive_row_counts@.len() == M,
        positive_col_counts@.len() == N,
        forall|k: int| 0 <= k < positive_entries@.len() ==> (#[trigger] positive_entries@[k]).0 < M && positive_entries@[k].1 < N,
        forall|r: int| 0 <= r < M ==> #[trigger] positive_row_counts@[r] <= N,
        forall|c: int| 0 <= c < N ==> #[trigger] positive_col_counts@[c] <= M,
    ensures
        sampled matches Some(s) ==> {
            &&& s.r0 != s.r1
            &&& s.c0 != s.c1
            &&& positive_entries@.contains((s.r0 as usize, s.c0 as usize))
            &&& positive_entries@.contains((s.r1 as usize, s.c1 as usize))
        },
        counts_match(positive_entries@, positive_row_counts@, positive_col_counts@) && every_entry_has_partner(
            positive_entries@,
        ) ==> sampled is Some,
{
    let ghost fits = counts_match(positive_entries@, positive_row_counts@, positive_col_counts@) && every_entry_has_partner(
        positive_entries@,
    );
    let len = positive_entries.len();
    let mut attempt: usize = 0;
    while attempt < SAMPLE_ATTEMPTS
        invariant
            len == positive_entries@.len(),
            0 < len < usize::MAX,
            M <= 256,
            N <= 256,
            positive_row_counts@.len() == M,
            positive_col_counts@.len() == N,
            forall|k: int| 0 <= k < positive_entries@.len() ==> (#[trigger] positive_entries@[k]).0 < M && positive_entries@[k].1 < N,
            forall|r: int| 0 <= r < M ==> #[trigger] positive_row_counts@[r] <= N,
            forall|c: int| 0 <= c < N ==> #[trigger] positive_col_counts@[c] <= M,
            fits == (counts_match(positive_entries@, positive_row_counts@, positive_col_counts@) && every_entry_has_partner(
                positive_entries@,
            )),
            attempt > 0 ==> !fits,
        decreases SAMPLE_ATTEMPTS - attempt,
    {
        attempt = attempt + 1;
        let first_item = random_below(rng, len);
        let (r0, c0) = positive_entries[first_item];
        let ghost entries = positive_entries@;
        proof {
            if fits {
                lemma_partners_fill_the_rest(entries, positive_row_counts@, positive_col_counts@, first_item as int);
            }
        }
        let excluded = positive_row_counts[r0] + positive_col_counts[c0];
        if excluded < len + 1 {
            let allowed_remaining = len + 1 - excluded;
            let second_item = random_below(rng, allowed_remaining);
            let mut counter = second_item;
            let mut k: usize = 0;
            while k < len
                invariant
                    len == positive_entries@.len(),
                    entries == positive_entries@,
                    k <= len,
                    r0 < M && c0 < N,
                    M <= 256,
                    N <= 256,
                    positive_entries@.contains((r0, c0)),
                    forall|k: int| 0 <= k < positive_entries@.len() ==> (#[trigger] positive_entries@[k]).0 < M && positive_entries@[k].1 < N,
                    counter + partners_before(entries, r0 as int, c0 as int, k as int) == second_item,
                decreases len - k,
            {
                let (r1, c1) = positive_entries[k];
                if r1 != r0 && c1 != c0 {
                    if counter == 0 {
                        proof {
                            assert(positive_entries@[k as int] == (r1, c1));
                        }
                        return Some(Submatrix { r0: r0 as u8, r1: r1 as u8, c0: c0 as u8, c1: c1 as u8 });
                    }
                    counter = counter - 1;
                }
                k = k + 1;
            }
        }
    }
    None
}

/// Makes one random move on `matrix_to_mix` that keeps every row and column sum: a submatrix
/// with a positive diagonal is drawn, and a shift `t` between minus its smaller diagonal entry
/// and its smaller anti-diagonal entry is moved along that diagonal. The positive support is
/// brought up to date. Returns `false`, with nothing changed, when no submatrix was found, which
/// cannot happen when every positive cell has a partner.
pub fn mix_one_sampled<const M: usize, const N: usize>(
    matrix_to_mix: &mut [[usize; N]; M],
    positive_entries: &mut Vec<(usize, usize)>,
    positive_entry_locations: &mut [[usize; N]; M],
    positive_row_counts: &mut [usize; M],
    positive_col_counts: &mut [usize; N],
    rng: &mut SmallRng,
) -> (mixed: bool)
    requires
        support_describes(*old(matrix_to_mix), old(positive_entries)@, *old(positive_entry_locations), old(positive_row_counts)@, old(positive_col_counts)@),
        old(positive_entries)@.len() > 0,
        M <= 256,
        N <= 256,
        M * N < usize::MAX,
        forall|r: int| 0 <= r < M ==> #[trigger] row_sum(*old(matrix_to_mix), r) <= i32::MAX,
    ensures
        support_describes(*final(matrix_to_mix), final(positive_entries)@, *final(positive_entry_locations), final(positive_row_counts)@, final(positive_col_counts)@),
        forall|r: int| 0 <= r < M ==> #[trigger] row_sum(*final(matrix_to_mix), r) == row_sum(*old(matrix_to_mix), r),
        forall|c: int| 0 <= c < N ==> #[trigger] col_sum(*final(matrix_to_mix), c) == col_sum(*old(matrix_to_mix), c),
        mixed ==> exists|r0: int, r1: int, c0: int, c1: int, t: int|
            old(matrix_to_mix)@[r0]@[c0] > 0 && old(matrix_to_mix)@[r1]@[c1] > 0
                && #[trigger] spec_mix_step(*old(matrix_to_mix), *final(matrix_to_mix), r0, r1, c0, c1, t),
        !mixed ==> *final(matrix_to_mix) == *old(matrix_to_mix),
        every_positive_cell_has_partner(*old(matrix_to_mix)) ==> mixed,
{
    let ghost m0 = *matrix_to_mix;
    proof {
        lemma_mixing_can_start(m0, positive_entries@, *positive_entry_locations, positive_row_counts@, positive_col_counts@);
        assert forall|r: int| 0 <= r < M implies #[trigger] positive_row_counts@[r] <= N by {
            lemma_count_located_bound(positive_entry_locations@[r]@);
        }
        assert forall|c: int| 0 <= c < N implies #[trigger] positive_col_counts@[c] <= M by {
            lemma_count_located_bound(column(*positive_entry_locations, c));
        }
    }
    let sampled = sample_submatrix::<M, N>(positive_entries.as_slice(), positive_row_counts.as_slice(), positive_col_counts.as_slice(), rng);
    let submatrix = match sampled {
        Some(submatrix) => submatrix,
        None => {
            return false;
        },
    };
    let r0 = submatrix.r0 as usize;
    let r1 = submatrix.r1 as usize;
    let c0 = submatrix.c0 as usize;
    let c1 = submatrix.c1 as usize;
    proof {
        let k0 = choose|k: int| 0 <= k < positive_entries@.len() && positive_entries@[k] == (r0, c0);
        let k1 = choose|k: int| 0 <= k < positive_entries@.len() && positive_entries@[k] == (r1, c1);
        assert(positive_entries@[k0] == (r0, c0));
        assert(positive_entries@[k1] == (r1, c1));
        assert(located(*positive_entry_locations, r0 as int, c0 as int));
        assert(located(*positive_entry_locations, r1 as int, c1 as int));
        lemma_entry_le_sum(m0@[r0 as int]@, c0 as int);
        lemma_entry_le_sum(m0@[r0 as int]@, c1 as int);
        lemma_entry_le_sum(m0@[r1 as int]@, c0 as int);
        lemma_entry_le_sum(m0@[r1 as int]@, c1 as int);
        assert(row_sum(m0, r0 as int) <= i32::MAX);
        assert(row_sum(m0, r1 as int) <= i32::MAX);
    }

    let a = matrix_to_mix[r0][c0] as i32;
    let b = matrix_to_mix[r0][c1] as i32;
    let c = matrix_to_mix[r1][c0] as i32;
    let d = matrix_to_mix[r1][c1] as i32;

    let lower = if a < d { -a } else { -d };
    let upper = if b < c { b } else { c };

    let t = random_between(rng, lower, upper);

    if t == 0 {
        proof {
            assert(spec_mix_step(m0, *matrix_to_mix, r0 as int, r1 as int, c0 as int, c1 as int, 0));
        }
        return true;
    }

    let ghost locations_before = *positive_entry_locations;
    shift_submatrix(matrix_to_mix, r0, r1, c0, c1, t);
    let ghost m1 = *matrix_to_mix;

    update_positive_entry(matrix_to_mix, positive_entries, positive_entry_locations, positive_row_counts, positive_col_counts, r0, c0);
    update_positive_entry(matrix_to_mix, positive_entries, positive_entry_locations, positive_row_counts, positive_col_counts, r0, c1);
    update_positive_entry(matrix_to_mix, positive_entries, positive_entry_locations, positive_row_counts, positive_col_counts, r1, c0);
    update_positive_entry(matrix_to_mix, positive_entries, positive_entry_locations, positive_row_counts, positive_col_counts, r1, c1);
    proof {
        assert forall|r: int, cc: int| 0 <= r < M && 0 <= cc < N implies (#[trigger] located(*positive_entry_locations, r, cc) <==> m1@[r]@[cc] > 0) by {
            if !((r == r0 || r == r1) && (cc == c0 || cc == c1)) {
                assert(located(locations_before, r, cc) <==> m0@[r]@[cc] > 0);
            }
        }
        assert(spec_mix_step(m0, m1, r0 as int, r1 as int, c0 as int, c1 as int, t as int));
    }
    true
}

/// How many sweeps run before the first sample is taken.
pub const INITIALIZATION_SWEEPS: usize = 5;
/// How many sweeps run between two samples.
pub const MIXING_SWEEPS_PER_SAMPLE: usize = 1;
/// How many moves make up one sweep.
#[verifier::nonlinear]
pub const STEPS_PER_SWEEP: usize = (18 - 1) * (18 - 1);

/// A matrix with positive total mass has a positive cell, and so a non-empty support.
proof fn lemma_support_nonempty<const N: usize, const M: usize>(
    matrix: [[usize; N]; M],
    entries: Seq<(usize, usize)>,
    locations: [[usize; N]; M],
    row_counts: Seq<usize>,
    col_counts: Seq<usize>,
    row_margins: Seq<usize>,
    column_margins: Seq<usize>,
)
    requires
        support_describes(matrix, entries, locations, row_counts, col_counts),
        has_margins(matrix, row_margins, column_margins),
        row_margins.len() == M,
        sum_usizes(row_margins) > 0,
    ensures
        entries.len() > 0,
{
    lemma_sum_zero(row_margins);
    let r = choose|r: int| 0 <= r < row_margins.len() && row_margins[r] != 0;
    assert(row_sum(matrix, r) == row_margins[r]);
    lemma_sum_zero(matrix@[r]@);
    let c = choose|c: int| 0 <= c < matrix@[r]@.len() && matrix@[r]@[c] != 0;
    assert(located(locations, r, c));
}

/// Every matrix with row sums `rows` and column sums `columns` lets each of its positive cells
/// be mixed: each has a positive partner in another row and another column.
pub open spec fn margins_keep_partners<const N: usize, const M: usize>(rows: Seq<usize>, columns: Seq<usize>) -> bool {
    forall|matrix: [[usize; N]; M]| #[trigger] has_margins(matrix, rows, columns) ==> every_positive_cell_has_partner(matrix)
}

/// `num_samples` matrices with row sums `row_margins` and column sums `column_margins` (which
/// must add up to the same positive total), drawn by a random walk of support-sampled moves
/// from the greedy solution: `INITIALIZATION_SWEEPS` sweeps before the first sample and
/// `MIXING_SWEEPS_PER_SAMPLE` sweeps between two samples. `None` when a move found no
/// submatrix to work on: never when every table with these margins lets each of its positive
/// cells be mixed, always when the tables have a single row or a single column.
pub fn mass_mixing_sample_based<const M: usize, const N: usize>(
    num_samples: usize,
    row_margins: [usize; M],
    column_margins: [usize; N],
    rng: &mut SmallRng,
) -> (samples: Option<Vec<[[usize; N]; M]>>)
    requires
        num_samples >= 1,
        sum_usizes(row_margins@) == sum_usizes(column_margins@),
        sum_usizes(row_margins@) > 0,
        M <= 256,
        N <= 256,
        M * N < usize::MAX,
        forall|r: int| 0 <= r < M ==> #[trigger] row_margins@[r] <= i32::MAX,
    ensures
        samples matches Some(samples) ==> {
            &&& samples@.len() == num_samples
            &&& forall|k: int| 0 <= k < samples@.len() ==> has_margins(#[trigger] samples@[k], row_margins@, column_margins@)
        },
        margins_keep_partners::<N, M>(row_margins@, column_margins@) ==> samples is Some,
        M < 2 || N < 2 ==> samples is None,
{
    let ghost keeps = margins_keep_partners::<N, M>(row_margins@, column_margins@);
    let mut state = crate::world::simple::simple_valid_greedy(row_margins, column_margins);
    let (mut positive_entries, mut positive_entry_locations, mut positive_row_counts, mut positive_col_counts) =
        build_positive_support(&state);

    assert(INITIALIZATION_SWEEPS * STEPS_PER_SWEEP == 1445) by (nonlinear_arith);
    let initialization_steps = INITIALIZATION_SWEEPS * STEPS_PER_SWEEP;
    let mut step: usize = 0;
    while step < initialization_steps
        invariant
            has_margins(state, row_margins@, column_margins@),
            support_describes(state, positive_entries@, positive_entry_locations, positive_row_counts@, positive_col_counts@),
            sum_usizes(row_margins@) > 0,
            M <= 256,
            N <= 256,
            M * N < usize::MAX,
            forall|r: int| 0 <= r < M ==> #[trigger] row_margins@[r] <= i32::MAX,
            keeps == margins_keep_partners::<N, M>(row_margins@, column_margins@),
            step > 0 ==> M >= 2 && N >= 2,
        decreases initialization_steps - step,
    {
        proof {
            lemma_support_nonempty(state, positive_entries@, positive_entry_locations, positive_row_counts@, positive_col_counts@, row_margins@, column_margins@);
        }
        proof {
            if keeps {
                assert(has_margins(state, row_margins@, column_margins@));
            }
        }
        let mixed = mix_one_sampled(&mut state, &mut positive_entries, &mut positive_entry_locations, &mut positive_row_counts, &mut positive_col_counts, rng);
        if !mixed {
            return None;
        }
        step = step + 1;
    }

    let mut samples: Vec<[[usize; N]; M]> = Vec::new();
    samples.push(state);

    let mut sample: usize = 1;
    while sample < num_samples
        invariant
            1 <= sample <= num_samples,
            samples@.len() == sample,
            forall|k: int| 0 <= k < samples@.len() ==> has_margins(#[trigger] samples@[k], row_margins@, column_margins@),
            has_margins(state, row_margins@, column_margins@),
            support_describes(state, positive_entries@, positive_entry_locations, positive_row_counts@, positive_col_counts@),
            sum_usizes(row_margins@) > 0,
            M <= 256,
            N <= 256,
            M * N < usize::MAX,
            forall|r: int| 0 <= r < M ==> #[trigger] row_margins@[r] <= i32::MAX,
            keeps == margins_keep_partners::<N, M>(row_margins@, column_margins@),
            M >= 2 && N >= 2,
        decreases num_samples - sample,
    {
        assert(MIXING_SWEEPS_PER_SAMPLE * STEPS_PER_SWEEP == 289) by (nonlinear_arith);
        let steps_per_sample = MIXING_SWEEPS_PER_SAMPLE * STEPS_PER_SWEEP;
        let mut step: usize = 0;
        while step < steps_per_sample
            invariant
                has_margins(state, row_margins@, column_margins@),
                support_describes(state, positive_entries@, positive_entry_locations, positive_row_counts@, positive_col_counts@),
                sum_usizes(row_margins@) > 0,
                M <= 256,
                N <= 256,
                M * N < usize::MAX,
                forall|r: int| 0 <= r < M ==> #[trigger] row_margins@[r] <= i32::MAX,
                keeps == margins_keep_partners::<N, M>(row_margins@, column_margins@),
                M >= 2 && N >= 2,
            decreases steps_per_sample - step,
        {
            proof {
                lemma_support_nonempty(state, positive_entries@, positive_entry_locations, positive_row_counts@, positive_col_counts@, row_margins@, column_margins@);
            }
            proof {
                if keeps {
                    assert(has_margins(state, row_margins@, column_margins@));
                }
            }
            let mixed = mix_one_sampled(&mut state, &mut positive_entries, &mut positive_entry_locations, &mut positive_row_counts, &mut positive_col_counts, rng);
            if !mixed {
                return None;
            }
            step = step + 1;
        }
        samples.push(state);
        sample = sample + 1;
    }
    Some(samples)
}

/// The seed of the generator that puts the submatrix cycle in its order.
pub const SUBMATRIX_CYCLE_SEED: u64 = 1234;

/// `s` has two rows `r0 < r1` of an `m`-row matrix and two columns `c0 < c1` of an
/// `n`-column matrix.
pub open spec fn valid_submatrix(s: Submatrix, m: int, n: int) -> bool {
    s.r0 < s.r1 < m && s.c0 < s.c1 < n
}

/// `s` comes strictly before `(r0, r1, c0, c1)` in lexicographic order.
pub open spec fn lex_before(s: Submatrix, r0: int, r1: int, c0: int, c1: int) -> bool {
    ||| s.r0 < r0
    ||| s.r0 == r0 && s.r1 < r1
    ||| s.r0 == r0 && s.r1 == r1 && s.c0 < c0
    ||| s.r0 == r0 && s.r1 == r1 && s.c0 == c0 && s.c1 < c1
}

/// The invariant of the loops that list the submatrices: every listed one is valid and comes
/// before `(r0, r1, c0, c1)`, the list is in increasing order, and every valid submatrix before
/// `(r0, r1, c0, c1)` is listed.
spec fn listed_before(cycle: Seq<Submatrix>, m: int, n: int, r0: int, r1: int, c0: int, c1: int) -> bool {
    &&& forall|k: int| 0 <= k < cycle.len() ==> valid_submatrix(#[trigger] cycle[k], m, n) && lex_before(cycle[k], r0, r1, c0, c1)
    &&& forall|p: int, q: int| 0 <= p < q < cycle.len() ==>
        lex_before(#[trigger] cycle[p], cycle[q].r0 as int, cycle[q].r1 as int, cycle[q].c0 as int, #[trigger] cycle[q].c1 as int)
    &&& forall|s: Submatrix| valid_submatrix(s, m, n) && lex_before(s, r0, r1, c0, c1) ==> #[trigger] cycle.contains(s)
}

/// Every submatrix of an `M x N` matrix (rows `r0 < r1`, columns `c0 < c1`), each once, in an
/// order that a generator seeded with `SUBMATRIX_CYCLE_SEED` picks.
pub fn generate_submatrix_cycle<const M: usize, const N: usize>() -> (cycle: Vec<Submatrix>)
    requires
        1 <= M <= 256,
        1 <= N <= 256,
    ensures
        forall|k: int| 0 <= k < cycle@.len() ==> valid_submatrix(#[trigger] cycle@[k], M as int, N as int),
        forall|s: Submatrix| valid_submatrix(s, M as int, N as int) ==> #[trigger] cycle@.contains(s),
        cycle@.no_duplicates(),
{
    let mut cycle: Vec<Submatrix> = Vec::new();
    let mut r0: usize = 0;
    while r0 + 1 < M
        invariant
            1 <= M <= 256,
            1 <= N <= 256,
            r0 < M,
            listed_before(cycle@, M as int, N as int, r0 as int, r0 + 1, 0, 1),
        decreases M - r0,
    {
        let mut r1: usize = r0 + 1;
        while r1 < M
            invariant
                1 <= M <= 256,
                1 <= N <= 256,
                r0 < r1 <= M,
                listed_before(cycle@, M as int, N as int, r0 as int, r1 as int, 0, 1),
            decreases M - r1,
        {
            let mut c0: usize = 0;
            while c0 + 1 < N
                invariant
                    1 <= M <= 256,
                    1 <= N <= 256,
                    r0 < r1 < M,
                    c0 < N,
                    listed_before(cycle@, M as int, N as int, r0 as int, r1 as int, c0 as int, c0 + 1),
                decreases N - c0,
            {
                let mut c1: usize = c0 + 1;
                while c1 < N
                    invariant
                        1 <= M <= 256,
                        1 <= N <= 256,
                        r0 < r1 < M,
                        c0 < c1 <= N,
                        listed_before(cycle@, M as int, N as int, r0 as int, r1 as int, c0 as int, c1 as int),
                    decreases N - c1,
                {
                    let item = Submatrix { r0: r0 as u8, r1: r1 as u8, c0: c0 as u8, c1: c1 as u8 };
                    let ghost before = cycle@;
                    cycle.push(item);
                    proof {
                        assert forall|s: Submatrix| valid_submatrix(s, M as int, N as int) && lex_before(s, r0 as int, r1 as int, c0 as int, c1 + 1)
                            implies #[trigger] cycle@.contains(s) by {
                            if lex_before(s, r0 as int, r1 as int, c0 as int, c1 as int) {
                                assert(before.contains(s));
                                let k = choose|k: int| 0 <= k < before.len() && before[k] == s;
                                assert(cycle@[k] == s);
                            } else {
                                assert(s == item);
                                assert(cycle@[before.len() as int] == s);
                            }
                        }
                    }
                    c1 = c1 + 1;
                }
                proof {
                    assert forall|s: Submatrix| valid_submatrix(s, M as int, N as int) && lex_before(s, r0 as int, r1 as int, c0 + 1, c0 + 2)
                        implies #[trigger] cycle@.contains(s) by {
                        assert(lex_before(s, r0 as int, r1 as int, c0 as int, c1 as int));
                    }
                }
                c0 = c0 + 1;
            }
            proof {
                assert forall|s: Submatrix| valid_submatrix(s, M as int, N as int) && lex_before(s, r0 as int, r1 + 1, 0, 1)
                    implies #[trigger] cycle@.contains(s) by {
                    assert(lex_before(s, r0 as int, r1 as int, c0 as int, c0 + 1));
                }
            }
            r1 = r1 + 1;
        }
        proof {
            assert forall|s: Submatrix| valid_submatrix(s, M as int, N as int) && lex_before(s, r0 + 1, r0 + 2, 0, 1)
                implies #[trigger] cycle@.contains(s) by {
                assert(lex_before(s, r0 as int, r1 as int, 0, 1));
            }
        }
        r0 = r0 + 1;
    }
    proof {
        assert forall|s: Submatrix| valid_submatrix(s, M as int, N as int) implies #[trigger] cycle@.contains(s) by {
            assert(lex_before(s, r0 as int, r0 + 1, 0, 1));
        }
        assert(cycle@.no_duplicates()) by {
            assert forall|p: int, q: int| 0 <= p < cycle@.len() && 0 <= q < cycle@.len() && p != q implies cycle@[p] != cycle@[q] by {
                if p < q {
                    assert(lex_before(cycle@[p], cycle@[q].r0 as int, cycle@[q].r1 as int, cycle@[q].c0 as int, cycle@[q].c1 as int));
                } else {
                    assert(lex_before(cycle@[q], cycle@[p].r0 as int, cycle@[p].r1 as int, cycle@[p].c0 as int, cycle@[p].c1 as int));
                }
            }
        }
        cycle@.lemma_multiset_has_no_duplicates();
    }
    let ghost ordered = cycle@;
    let mut shuffle_rng = seeded_rng(SUBMATRIX_CYCLE_SEED);
    shuffle_items(&mut cycle, &mut shuffle_rng);
    proof {
        broadcast use vstd::seq_lib::group_to_multiset_ensures;
        assert forall|k: int| 0 <= k < cycle@.len() implies valid_submatrix(#[trigger] cycle@[k], M as int, N as int) by {
            assert(cycle@.contains(cycle@[k]));
            assert(cycle@.to_multiset().count(cycle@[k]) == ordered.to_multiset().count(cycle@[k]));
            assert(ordered.contains(cycle@[k]));
        }
        assert forall|s: Submatrix| valid_submatrix(s, M as int, N as int) implies #[trigger] cycle@.contains(s) by {
            assert(ordered.contains(s));
            assert(cycle@.to_multiset().count(s) == ordered.to_multiset().count(s));
        }
        cycle@.lemma_multiset_has_no_duplicates_conv();
    }
    cycle
}

/// Makes one random move on `matrix_to_mix` on the submatrix at `submatrix_selection_index` in
/// the cycle, and moves the index on to the next one (back to the start after the last). The
/// shift is drawn between minus the smaller diagonal entry and the smaller anti-diagonal
/// entry; where both are zero nothing is drawn. Row and column sums do not change.
pub fn mix_one_from_cycle<const M: usize, const N: usize>(
    matrix_to_mix: &mut [[usize; N]; M],
    submatrix_cycle: &[Submatrix],
    submatrix_selection_index: &mut usize,
    rng: &mut SmallRng,
)
    requires
        *old(submatrix_selection_index) < submatrix_cycle@.len(),
        forall|k: int| 0 <= k < submatrix_cycle@.len() ==> valid_submatrix(#[trigger] submatrix_cycle@[k], M as int, N as int),
        forall|r: int| 0 <= r < M ==> #[trigger] row_sum(*old(matrix_to_mix), r) <= i32::MAX,
    ensures
        *final(submatrix_selection_index) == if *old(submatrix_selection_index) + 1 == submatrix_cycle@.len() {
            0
        } else {
            *old(submatrix_selection_index) + 1
        },
        forall|r: int| 0 <= r < M ==> #[trigger] row_sum(*final(matrix_to_mix), r) == row_sum(*old(matrix_to_mix), r),
        forall|c: int| 0 <= c < N ==> #[trigger] col_sum(*final(matrix_to_mix), c) == col_sum(*old(matrix_to_mix), c),
        ({
            let s = submatrix_cycle@[*old(submatrix_selection_index) as int];
            exists|t: int| #[trigger] spec_mix_step(*old(matrix_to_mix), *final(matrix_to_mix), s.r0 as int, s.r1 as int, s.c0 as int, s.c1 as int, t)
        }),
{
    let ghost m0 = *matrix_to_mix;
    let submatrix = submatrix_cycle[*submatrix_selection_index];

    *submatrix_selection_index = *submatrix_selection_index + 1;
    if *submatrix_selection_index == submatrix_cycle.len() {
        *submatrix_selection_index = 0;
    }

    let r0 = submatrix.r0 as usize;
    let r1 = submatrix.r1 as usize;
    let c0 = submatrix.c0 as usize;
    let c1 = submatrix.c1 as usize;
    proof {
        lemma_entry_le_sum(m0@[r0 as int]@, c0 as int);
        lemma_entry_le_sum(m0@[r0 as int]@, c1 as int);
        lemma_entry_le_sum(m0@[r1 as int]@, c0 as int);
        lemma_entry_le_sum(m0@[r1 as int]@, c1 as int);
        assert(row_sum(m0, r0 as int) <= i32::MAX);
        assert(row_sum(m0, r1 as int) <= i32::MAX);
    }

    let a = matrix_to_mix[r0][c0] as i32;
    let b = matrix_to_mix[r0][c1] as i32;
    let c = matrix_to_mix[r1][c0] as i32;
    let d = matrix_to_mix[r1][c1] as i32;

    let lower = if a < d { -a } else { -d };
    let upper = if b < c { b } else { c };

    if lower == upper {
        proof {
            assert(spec_mix_step(m0, *matrix_to_mix, r0 as int, r1 as int, c0 as int, c1 as int, 0));
        }
        return;
    }

    let t = random_between(rng, lower, upper);
    shift_submatrix(matrix_to_mix, r0, r1, c0, c1, t);
}

/// `num_samples` matrices with row sums `row_margins` and column sums `column_margins` (which
/// must add up to the same total), drawn by a random walk that works through
/// `submatrix_cycle` from a random starting point, starting from the greedy solution:
/// `INITIALIZATION_SWEEPS` sweeps of `sweep_size` moves before the first sample and
/// `MIXING_SWEEPS_PER_SAMPLE` sweeps between two samples.
pub fn mass_mixing_cycle_based_sweeps<const M: usize, const N: usize>(
    num_samples: usize,
    sweep_size: usize,
    row_margins: [usize; M],
    column_margins: [usize; N],
    submatrix_cycle: &[Submatrix],
    rng: &mut SmallRng,
) -> (samples: Vec<[[usize; N]; M]>)
    requires
        num_samples >= 1,
        sum_usizes(row_margins@) == sum_usizes(column_margins@),
        submatrix_cycle@.len() > 0,
        forall|k: int| 0 <= k < submatrix_cycle@.len() ==> valid_submatrix(#[trigger] submatrix_cycle@[k], M as int, N as int),
        forall|r: int| 0 <= r < M ==> #[trigger] row_margins@[r] <= i32::MAX,
        INITIALIZATION_SWEEPS * sweep_size <= usize::MAX,
    ensures
        samples@.len() == num_samples,
        forall|k: int| 0 <= k < samples@.len() ==> has_margins(#[trigger] samples@[k], row_margins@, column_margins@),
{
    let mut state = crate::world::simple::simple_valid_greedy(row_margins, column_margins);
    let mut submatrix_selection_index = random_below(rng, submatrix_cycle.len());

    let initialization_steps = INITIALIZATION_SWEEPS * sweep_size;
    let mut step: usize = 0;
    while step < initialization_steps
        invariant
            has_margins(state, row_margins@, column_margins@),
            submatrix_selection_index < submatrix_cycle@.len(),
            forall|k: int| 0 <= k < submatrix_cycle@.len() ==> valid_submatrix(#[trigger] submatrix_cycle@[k], M as int, N as int),
            forall|r: int| 0 <= r < M ==> #[trigger] row_margins@[r] <= i32::MAX,
        decreases initialization_steps - step,
    {
        mix_one_from_cycle(&mut state, submatrix_cycle, &mut submatrix_selection_index, rng);
        step = step + 1;
    }

    let mut samples: Vec<[[usize; N]; M]> = Vec::new();
    samples.push(state);

    let steps_per_sample = MIXING_SWEEPS_PER_SAMPLE * sweep_size;
    let mut sample: usize = 1;
    while sample < num_samples
        invariant
            1 <= sample <= num_samples,
            samples@.len() == sample,
            forall|k: int| 0 <= k < samples@.len() ==> has_margins(#[trigger] samples@[k], row_margins@, column_margins@),
            has_margins(state, row_margins@, column_margins@),
            submatrix_selection_index < submatrix_cycle@.len(),
            forall|k: int| 0 <= k < submatrix_cycle@.len() ==> valid_submatrix(#[trigger] submatrix_cycle@[k], M as int, N as int),
            forall|r: int| 0 <= r < M ==> #[trigger] row_margins@[r] <= i32::MAX,
        decreases num_samples - sample,
    {
        let mut step: usize = 0;
        while step < steps_per_sample
            invariant
                has_margins(state, row_margins@, column_margins@),
                submatrix_selection_index < submatrix_cycle@.len(),
                forall|k: int| 0 <= k < submatrix_cycle@.len() ==> valid_submatrix(#[trigger] submatrix_cycle@[k], M as int, N as int),
                forall|r: int| 0 <= r < M ==> #[trigger] row_margins@[r] <= i32::MAX,
            decreases steps_per_sample - step,
        {
            mix_one_from_cycle(&mut state, submatrix_cycle, &mut submatrix_selection_index, rng);
            step = step + 1;
        }
        samples.push(state);
        sample = sample + 1;
    }
    samples
}

} // verus!
