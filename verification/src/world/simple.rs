use vstd::prelude::*;

use crate::game::collections::sum_usizes;
use crate::world::margins::{
    col_sum, filled_array, has_margins, lemma_matrix_update, lemma_sum_update, lemma_sum_zero, row_sum,
};

verus! {

/// The entries of `matrix`, row by row.
pub open spec fn table_of<const N: usize, const M: usize>(matrix: [[usize; N]; M]) -> Seq<Seq<usize>> {
    Seq::new(M as nat, |i: int| matrix@[i]@)
}

/// A table of `m` rows and `n` columns of zeros.
pub open spec fn zero_table(m: nat, n: nat) -> Seq<Seq<usize>> {
    Seq::new(m, |i: int| Seq::new(n, |j: int| 0usize))
}

/// The smaller of two masses.
pub open spec fn smaller(a: usize, b: usize) -> usize {
    if a < b { a } else { b }
}

/// `table` with cell `(i, j)` set to `v`.
pub open spec fn set_cell(table: Seq<Seq<usize>>, i: int, j: int, v: usize) -> Seq<Seq<usize>> {
    table.update(i, table[i].update(j, v))
}

/// The north-west-corner fill, from row `i` and column `j` on, with `rows` and `cols` the masses
/// the rows and columns have left and `table` what is filled so far: the cell `(i, j)` takes
/// the smaller of the two masses left, which both lose it; a row or column with nothing left
/// hands on to the next one; the fill stops past the last row or column.
pub open spec fn north_west_fill(rows: Seq<usize>, cols: Seq<usize>, i: int, j: int, table: Seq<Seq<usize>>) -> Seq<Seq<usize>>
    decreases rows.len() - i + cols.len() - j when 0 <= i && 0 <= j
{
    if i >= rows.len() || j >= cols.len() {
        table
    } else {
        let a = smaller(rows[i], cols[j]);
        let rows2 = rows.update(i, (rows[i] - a) as usize);
        let cols2 = cols.update(j, (cols[j] - a) as usize);
        let i2 = if rows2[i] == 0 { i + 1 } else { i };
        let j2 = if cols2[j] == 0 { j + 1 } else { j };
        north_west_fill(rows2, cols2, i2, j2, set_cell(table, i, j, a))
    }
}

/// The table `simple_valid_greedy` builds: the north-west-corner fill of an empty table.
pub open spec fn greedy_table(rows: Seq<usize>, cols: Seq<usize>) -> Seq<Seq<usize>> {
    north_west_fill(rows, cols, 0, 0, zero_table(rows.len(), cols.len()))
}

/// A matrix with row sums `row_margins` and column sums `column_margins` (which must add up to
/// the same total), filled from the top-left corner: each cell takes as much as both its row
/// and its column have left.
pub fn simple_valid_greedy<const M: usize, const N: usize>(
    row_margins: [usize; M],
    column_margins: [usize; N],
) -> (output: [[usize; N]; M])
    requires
        sum_usizes(row_margins@) == sum_usizes(column_margins@),
    ensures
        has_margins(output, row_margins@, column_margins@),
        table_of(output) == greedy_table(row_margins@, column_margins@),
{
    let zero_row: [usize; N] = filled_array(0usize);
    let mut output: [[usize; N]; M] = filled_array(zero_row);
    let mut remaining_row_mass = row_margins;
    let mut remaining_col_mass = column_margins;
    let mut row_index: usize = 0;
    let mut col_index: usize = 0;
    proof {
        assert(table_of(output) =~~= zero_table(M as nat, N as nat));
        assert forall|i: int| 0 <= i < M implies #[trigger] row_sum(output, i) == 0 by {
            assert(output@[i] == zero_row);
            lemma_sum_zero(zero_row@);
        }
        assert forall|j: int| 0 <= j < N implies #[trigger] col_sum(output, j) == 0 by {
            assert forall|i: int| 0 <= i < M implies #[trigger] crate::world::margins::column(output, j)[i] == 0 by {
                assert(output@[i] == zero_row);
            }
            lemma_sum_zero(crate::world::margins::column(output, j));
        }
    }
    while row_index < M && col_index < N
        invariant
            row_index <= M,
            col_index <= N,
            forall|i: int| 0 <= i < M ==> #[trigger] remaining_row_mass@[i] + row_sum(output, i) == row_margins@[i],
            forall|j: int| 0 <= j < N ==> #[trigger] remaining_col_mass@[j] + col_sum(output, j) == column_margins@[j],
            forall|i: int| 0 <= i < row_index ==> #[trigger] remaining_row_mass@[i] == 0,
            forall|j: int| 0 <= j < col_index ==> #[trigger] remaining_col_mass@[j] == 0,
            forall|i: int, j: int| row_index <= i < M && col_index <= j < N ==> #[trigger] output@[i]@[j] == 0,
            sum_usizes(remaining_row_mass@) == sum_usizes(remaining_col_mass@),
            greedy_table(row_margins@, column_margins@) == north_west_fill(
                remaining_row_mass@,
                remaining_col_mass@,
                row_index as int,
                col_index as int,
                table_of(output),
            ),
        decreases M - row_index + N - col_index,
    {
        let row_mass = remaining_row_mass[row_index];
        let col_mass = remaining_col_mass[col_index];
        let assigned_mass = if row_mass < col_mass { row_mass } else { col_mass };
        let ghost before = output;
        let ghost before_rows = remaining_row_mass@;
        let ghost before_cols = remaining_col_mass@;
        let mut row = output[row_index];
        row[col_index] = assigned_mass;
        output[row_index] = row;
        remaining_row_mass[row_index] = row_mass - assigned_mass;
        remaining_col_mass[col_index] = col_mass - assigned_mass;
        proof {
            assert(before@[row_index as int]@[col_index as int] == 0);
            lemma_matrix_update(before, output, row_index as int, col_index as int, assigned_mass);
            lemma_sum_update(before_rows, row_index as int, (row_mass - assigned_mass) as usize);
            lemma_sum_update(before_cols, col_index as int, (col_mass - assigned_mass) as usize);
            assert(table_of(output) =~~= set_cell(table_of(before), row_index as int, col_index as int, assigned_mass));
            assert(remaining_row_mass@ =~= before_rows.update(row_index as int, (before_rows[row_index as int] - assigned_mass) as usize));
            assert(remaining_col_mass@ =~= before_cols.update(col_index as int, (before_cols[col_index as int] - assigned_mass) as usize));
        }
        let ghost (i0, j0) = (row_index as int, col_index as int);
        if remaining_row_mass[row_index] == 0 {
            row_index = row_index + 1;
        }
        if remaining_col_mass[col_index] == 0 {
            col_index = col_index + 1;
        }
        proof {
            assert(north_west_fill(before_rows, before_cols, i0, j0, table_of(before)) == north_west_fill(
                remaining_row_mass@,
                remaining_col_mass@,
                row_index as int,
                col_index as int,
                table_of(output),
            ));
        }
    }
    proof {
        lemma_sum_zero(remaining_row_mass@);
        lemma_sum_zero(remaining_col_mass@);
        if row_index == M {
            assert forall|i: int| 0 <= i < remaining_row_mass@.len() implies #[trigger] remaining_row_mass@[i] == 0 by {}
        } else {
            assert forall|j: int| 0 <= j < remaining_col_mass@.len() implies #[trigger] remaining_col_mass@[j] == 0 by {}
        }
        assert forall|i: int| 0 <= i < M implies #[trigger] row_sum(output, i) == row_margins@[i] by {
            assert(remaining_row_mass@[i] == 0);
        }
        assert forall|j: int| 0 <= j < N implies #[trigger] col_sum(output, j) == column_margins@[j] by {
            assert(remaining_col_mass@[j] == 0);
        }
    }
    output
}


/// The first `num` entries of `active` list, without repeats, exactly the positions `i` with
/// `mass[i] > 0`.
pub open spec fn spec_active_list(active: Seq<usize>, num: int, mass: Seq<usize>) -> bool {
    &&& 0 <= num <= active.len()
    &&& forall|p: int| 0 <= p < num ==> (#[trigger] active[p]) < mass.len() && mass[active[p] as int] > 0
    &&& forall|i: int| 0 <= i < mass.len() && mass[i] > 0 ==> exists|p: int| 0 <= p < num && #[trigger] active[p] == i
    &&& forall|p: int, q: int| 0 <= p < q < num ==> #[trigger] active[p] != #[trigger] active[q]
}

/// The positions of the positive entries of `mass`, in order.
pub open spec fn positive_indices(mass: Seq<usize>) -> Seq<usize>
    decreases mass.len(),
{
    if mass.len() == 0 {
        Seq::empty()
    } else {
        let before = positive_indices(mass.drop_last());
        if mass.last() > 0 {
            before.push((mass.len() - 1) as usize)
        } else {
            before
        }
    }
}

/// The positions of the positive entries of `mass`, in order, padded with zeros to the length of
/// `mass`.
pub open spec fn padded_positions(mass: Seq<usize>) -> Seq<usize> {
    positive_indices(mass) + Seq::new((mass.len() - positive_indices(mass).len()) as nat, |k: int| 0usize)
}

proof fn lemma_positive_indices_len(mass: Seq<usize>)
    ensures
        positive_indices(mass).len() <= mass.len(),
    decreases mass.len(),
{
    if mass.len() > 0 {
        lemma_positive_indices_len(mass.drop_last());
    }
}

/// The positions of the positive entries of `mass`, in order, padded with zeros.
pub(crate) fn positive_positions<const K: usize>(mass: &[usize; K]) -> (result: ([usize; K], usize))
    ensures
        spec_active_list(result.0@, result.1 as int, mass@),
        result.0@ == padded_positions(mass@),
        result.1 == positive_indices(mass@).len(),
{
    let mut active: [usize; K] = filled_array(0usize);
    let mut num: usize = 0;
    let mut i: usize = 0;
    while i < K
        invariant
            i <= K,
            num <= i,
            active@.take(num as int) == positive_indices(mass@.take(i as int)),
            forall|p: int| num <= p < K ==> #[trigger] active@[p] == 0,
            forall|p: int| 0 <= p < num ==> (#[trigger] active@[p]) < i && mass@[active@[p] as int] > 0,
            forall|k: int| 0 <= k < i && mass@[k] > 0 ==> exists|p: int| 0 <= p < num && #[trigger] active@[p] == k,
            forall|p: int, q: int| 0 <= p < q < num ==> #[trigger] active@[p] < #[trigger] active@[q],
        decreases K - i,
    {
        if mass[i] > 0 {
            let ghost before = active@;
            active[num] = i;
            proof {
                assert forall|k: int| 0 <= k < i + 1 && mass@[k] > 0 implies exists|p: int| 0 <= p < num + 1 && #[trigger] active@[p] == k by {
                    if k < i {
                        let p = choose|p: int| 0 <= p < num && before[p] == k;
                        assert(active@[p] == k);
                    } else {
                        assert(active@[num as int] == k);
                    }
                }
            }
            num = num + 1;
            assert(active@.take(num as int) =~= before.take(num - 1).push(i));
        }
        assert(mass@.take(i + 1).drop_last() =~= mass@.take(i as int));
        i = i + 1;
    }
    assert(mass@.take(K as int) =~= mass@);
    assert(active@ =~= padded_positions(mass@));
    (active, num)
}

/// Removes position `location` of the active list by moving the last active entry into it.
pub(crate) proof fn lemma_swap_remove_active(active: Seq<usize>, num: int, mass: Seq<usize>, new_mass: Seq<usize>, location: int)
    requires
        spec_active_list(active, num, mass),
        0 <= location < num,
        new_mass.len() == mass.len(),
        new_mass[active[location] as int] == 0,
        forall|i: int| 0 <= i < mass.len() && i != active[location] ==> #[trigger] new_mass[i] == mass[i],
    ensures
        spec_active_list(active.update(location, active[num - 1]), num - 1, new_mass),
{
    let removed = active[location];
    let a2 = active.update(location, active[num - 1]);
    assert forall|p: int| 0 <= p < num - 1 implies (#[trigger] a2[p]) < new_mass.len() && new_mass[a2[p] as int] > 0 by {
        if p == location {
            assert(active[num - 1] != removed);
        } else {
            assert(active[p] != removed);
        }
    }
    assert forall|i: int| 0 <= i < new_mass.len() && new_mass[i] > 0 implies exists|p: int| 0 <= p < num - 1 && #[trigger] a2[p] == i by {
        assert(i != removed);
        let p = choose|p: int| 0 <= p < num && #[trigger] active[p] == i;
        if p == num - 1 {
            assert(a2[location] == i);
        } else {
            assert(p != location);
            assert(a2[p] == i);
        }
    }
    assert forall|p: int, q: int| 0 <= p < q < num - 1 implies #[trigger] a2[p] != #[trigger] a2[q] by {
        if p == location {
            assert(active[num - 1] != active[q]);
        } else if q == location {
            assert(active[p] != active[num - 1]);
        } else {
            assert(active[p] != active[q]);
        }
    }
}

/// The place, among the first `n` places of `active`, of the entry with the least mass: the
/// first such place when several tie.
pub open spec fn least_location(active: Seq<usize>, n: int, mass: Seq<usize>) -> int
    decreases n,
{
    if n <= 1 {
        0
    } else {
        let p = least_location(active, n - 1, mass);
        if mass[active[n - 1] as int] < mass[active[p] as int] {
            n - 1
        } else {
            p
        }
    }
}

/// The least-mass-first fill, with `rows` and `cols` the masses left, the first `nr` places of
/// `active_rows` and the first `nc` of `active_cols` the rows and columns with mass left, and
/// `table` what is filled so far: the row and the column with the least mass left meet in a cell
/// that takes the smaller of their two masses, which both lose it; a row or column with nothing
/// left leaves its list, the last entry of the list taking its place; the fill stops when a list
/// is empty.
pub open spec fn least_first_fill(
    rows: Seq<usize>,
    cols: Seq<usize>,
    active_rows: Seq<usize>,
    nr: int,
    active_cols: Seq<usize>,
    nc: int,
    table: Seq<Seq<usize>>,
) -> Seq<Seq<usize>>
    decreases nr + nc when nr >= 0 && nc >= 0
{
    if nr <= 0 || nc <= 0 {
        table
    } else {
        let lr = least_location(active_rows, nr, rows);
        let ri = active_rows[lr] as int;
        let lc = least_location(active_cols, nc, cols);
        let ci = active_cols[lc] as int;
        let a = smaller(rows[ri], cols[ci]);
        let rows2 = rows.update(ri, (rows[ri] - a) as usize);
        let cols2 = cols.update(ci, (cols[ci] - a) as usize);
        let table2 = set_cell(table, ri, ci, a);
        if rows2[ri] == 0 && cols2[ci] == 0 {
            least_first_fill(
                rows2,
                cols2,
                active_rows.update(lr, active_rows[nr - 1]),
                nr - 1,
                active_cols.update(lc, active_cols[nc - 1]),
                nc - 1,
                table2,
            )
        } else if rows2[ri] == 0 {
            least_first_fill(rows2, cols2, active_rows.update(lr, active_rows[nr - 1]), nr - 1, active_cols, nc, table2)
        } else {
            least_first_fill(rows2, cols2, active_rows, nr, active_cols.update(lc, active_cols[nc - 1]), nc - 1, table2)
        }
    }
}

/// The table `simple_valid_smart` builds: the least-mass-first fill of an empty table, with the
/// rows and columns of positive mass listed in order.
pub open spec fn least_first_table(rows: Seq<usize>, cols: Seq<usize>) -> Seq<Seq<usize>> {
    least_first_fill(
        rows,
        cols,
        padded_positions(rows),
        positive_indices(rows).len() as int,
        padded_positions(cols),
        positive_indices(cols).len() as int,
        zero_table(rows.len(), cols.len()),
    )
}

/// The active entry with the least mass: its position in the active list, and the entry.
fn smallest_active<const K: usize>(active: &[usize; K], num: usize, mass: &[usize; K]) -> (result: (usize, usize))
    requires
        spec_active_list(active@, num as int, mass@),
        num > 0,
    ensures
        result.0 == least_location(active@, num as int, mass@),
        result.0 < num,
        result.1 == active@[result.0 as int],
        forall|p: int| 0 <= p < num ==> mass@[result.1 as int] <= mass@[#[trigger] active@[p] as int],
{
    let mut smallest_location: usize = 0;
    let mut smallest_index: usize = active[0];
    let mut location: usize = 1;
    while location < num
        invariant
            spec_active_list(active@, num as int, mass@),
            1 <= location <= num,
            smallest_location < num,
            smallest_index == active@[smallest_location as int],
            smallest_location == least_location(active@, location as int, mass@),
            forall|p: int| 0 <= p < location ==> mass@[smallest_index as int] <= mass@[#[trigger] active@[p] as int],
        decreases num - location,
    {
        let index = active[location];
        if mass[index] < mass[smallest_index] {
            smallest_location = location;
            smallest_index = index;
        }
        location = location + 1;
    }
    (smallest_location, smallest_index)
}

/// A matrix with row sums `row_margins` and column sums `column_margins` (which must add up to
/// the same total), filled by repeatedly giving the row with the least mass left and the column
/// with the least mass left as much as both have.
pub fn simple_valid_smart<const M: usize, const N: usize>(
    row_margins: [usize; M],
    column_margins: [usize; N],
) -> (output: [[usize; N]; M])
    requires
        sum_usizes(row_margins@) == sum_usizes(column_margins@),
    ensures
        has_margins(output, row_margins@, column_margins@),
        table_of(output) == least_first_table(row_margins@, column_margins@),
{
    let zero_row: [usize; N] = filled_array(0usize);
    let mut output: [[usize; N]; M] = filled_array(zero_row);
    let mut remaining_row_mass = row_margins;
    let mut remaining_col_mass = column_margins;
    let (mut active_rows, mut num_active_rows) = positive_positions(&row_margins);
    let (mut active_cols, mut num_active_cols) = positive_positions(&column_margins);
    proof {
        assert(table_of(output) =~~= zero_table(M as nat, N as nat));
        assert forall|i: int| 0 <= i < M implies #[trigger] row_sum(output, i) == 0 by {
            assert(output@[i] == zero_row);
            lemma_sum_zero(zero_row@);
        }
        assert forall|j: int| 0 <= j < N implies #[trigger] col_sum(output, j) == 0 by {
            assert forall|i: int| 0 <= i < M implies #[trigger] crate::world::margins::column(output, j)[i] == 0 by {
                assert(output@[i] == zero_row);
            }
            lemma_sum_zero(crate::world::margins::column(output, j));
        }
    }
    while num_active_rows > 0 && num_active_cols > 0
        invariant
            spec_active_list(active_rows@, num_active_rows as int, remaining_row_mass@),
            spec_active_list(active_cols@, num_active_cols as int, remaining_col_mass@),
            forall|i: int| 0 <= i < M ==> #[trigger] remaining_row_mass@[i] + row_sum(output, i) == row_margins@[i],
            forall|j: int| 0 <= j < N ==> #[trigger] remaining_col_mass@[j] + col_sum(output, j) == column_margins@[j],
            forall|i: int, j: int|
                0 <= i < M && 0 <= j < N && remaining_row_mass@[i] > 0 && remaining_col_mass@[j] > 0
                    ==> #[trigger] output@[i]@[j] == 0,
            sum_usizes(remaining_row_mass@) == sum_usizes(remaining_col_mass@),
            least_first_table(row_margins@, column_margins@) == least_first_fill(
                remaining_row_mass@,
                remaining_col_mass@,
                active_rows@,
                num_active_rows as int,
                active_cols@,
                num_active_cols as int,
                table_of(output),
            ),
        decreases num_active_rows + num_active_cols,
    {
        let (smallest_row_location, smallest_row_index) = smallest_active(&active_rows, num_active_rows, &remaining_row_mass);
        let (smallest_col_location, smallest_col_index) = smallest_active(&active_cols, num_active_cols, &remaining_col_mass);
        let smallest_row = remaining_row_mass[smallest_row_index];
        let smallest_col = remaining_col_mass[smallest_col_index];
        let assigned_mass = if smallest_row < smallest_col { smallest_row } else { smallest_col };

        let ghost before = output;
        let ghost before_rows = remaining_row_mass@;
        let ghost before_cols = remaining_col_mass@;
        let mut row = output[smallest_row_index];
        row[smallest_col_index] = assigned_mass;
        output[smallest_row_index] = row;
        remaining_row_mass[smallest_row_index] = smallest_row - assigned_mass;
        remaining_col_mass[smallest_col_index] = smallest_col - assigned_mass;
        proof {
            assert(before@[smallest_row_index as int]@[smallest_col_index as int] == 0);
            lemma_matrix_update(before, output, smallest_row_index as int, smallest_col_index as int, assigned_mass);
            lemma_sum_update(before_rows, smallest_row_index as int, (smallest_row - assigned_mass) as usize);
            lemma_sum_update(before_cols, smallest_col_index as int, (smallest_col - assigned_mass) as usize);
            assert forall|i: int, j: int|
                0 <= i < M && 0 <= j < N && remaining_row_mass@[i] > 0 && remaining_col_mass@[j] > 0
                    implies #[trigger] output@[i]@[j] == 0 by {
                if i != smallest_row_index {
                    assert(output@[i] == before@[i]);
                }
            }
            assert(table_of(output) =~~= set_cell(table_of(before), smallest_row_index as int, smallest_col_index as int, assigned_mass));
            assert(remaining_row_mass@ =~= before_rows.update(smallest_row_index as int, (before_rows[smallest_row_index as int] - assigned_mass) as usize));
            assert(remaining_col_mass@ =~= before_cols.update(smallest_col_index as int, (before_cols[smallest_col_index as int] - assigned_mass) as usize));
        }
        let ghost fill_before = least_first_fill(
            before_rows,
            before_cols,
            active_rows@,
            num_active_rows as int,
            active_cols@,
            num_active_cols as int,
            table_of(before),
        );

        if remaining_row_mass[smallest_row_index] == 0 {
            proof {
                lemma_swap_remove_active(active_rows@, num_active_rows as int, before_rows, remaining_row_mass@, smallest_row_location as int);
            }
            num_active_rows = num_active_rows - 1;
            active_rows[smallest_row_location] = active_rows[num_active_rows];
        } else {
            assert(spec_active_list(active_rows@, num_active_rows as int, remaining_row_mass@)) by {
                assert forall|i: int| 0 <= i < M && remaining_row_mass@[i] > 0 implies exists|p: int| 0 <= p < num_active_rows && #[trigger] active_rows@[p] == i by {
                    assert(before_rows[i] > 0);
                }
            }
        }

        if remaining_col_mass[smallest_col_index] == 0 {
            proof {
                lemma_swap_remove_active(active_cols@, num_active_cols as int, before_cols, remaining_col_mass@, smallest_col_location as int);
            }
            num_active_cols = num_active_cols - 1;
            active_cols[smallest_col_location] = active_cols[num_active_cols];
        } else {
            assert(spec_active_list(active_cols@, num_active_cols as int, remaining_col_mass@)) by {
                assert forall|j: int| 0 <= j < N && remaining_col_mass@[j] > 0 implies exists|p: int| 0 <= p < num_active_cols && #[trigger] active_cols@[p] == j by {
                    assert(before_cols[j] > 0);
                }
            }
        }
        assert(fill_before == least_first_fill(
            remaining_row_mass@,
            remaining_col_mass@,
            active_rows@,
            num_active_rows as int,
            active_cols@,
            num_active_cols as int,
            table_of(output),
        ));
    }
    proof {
        lemma_sum_zero(remaining_row_mass@);
        lemma_sum_zero(remaining_col_mass@);
        if num_active_rows == 0 {
            assert forall|i: int| 0 <= i < remaining_row_mass@.len() implies #[trigger] remaining_row_mass@[i] == 0 by {
                if remaining_row_mass@[i] > 0 {
                    let p = choose|p: int| 0 <= p < num_active_rows && #[trigger] active_rows@[p] == i;
                }
            }
        } else {
            assert forall|j: int| 0 <= j < remaining_col_mass@.len() implies #[trigger] remaining_col_mass@[j] == 0 by {
                if remaining_col_mass@[j] > 0 {
                    let p = choose|p: int| 0 <= p < num_active_cols && #[trigger] active_cols@[p] == j;
                }
            }
        }
        assert forall|i: int| 0 <= i < M implies #[trigger] row_sum(output, i) == row_margins@[i] by {
            assert(remaining_row_mass@[i] == 0);
        }
        assert forall|j: int| 0 <= j < N implies #[trigger] col_sum(output, j) == column_margins@[j] by {
            assert(remaining_col_mass@[j] == 0);
        }
    }
    output
}

} // verus!
