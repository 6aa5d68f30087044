use vstd::prelude::*;

use rand::rngs::SmallRng;

use crate::game::collections::sum_usizes;
use crate::randomness::random_below;
use crate::world::margins::{column, filled_array, has_margins, lemma_matrix_update, lemma_sum_update, lemma_sum_zero, row_sum, col_sum};
use crate::world::simple::{lemma_swap_remove_active, positive_positions, spec_active_list};

verus! {

/// Deals the cards out one at a time: each card goes to a cell drawn uniformly from the rows
/// and columns that still have mass left. Every outcome has row sums `row_margins` and column
/// sums `column_margins` (which must add up to the same total).
pub fn card_dealing<const M: usize, const N: usize>(
    row_margins: [usize; M],
    column_margins: [usize; N],
    rng: &mut SmallRng,
) -> (output: [[usize; N]; M])
    requires
        sum_usizes(row_margins@) == sum_usizes(column_margins@),
        M * N <= usize::MAX,
    ensures
        has_margins(output, row_margins@, column_margins@),
{
    let zero_row: [usize; N] = filled_array(0usize);
    let mut output: [[usize; N]; M] = filled_array(zero_row);
    let mut remaining_row_mass = row_margins;
    let mut remaining_col_mass = column_margins;
    let (mut active_rows, mut num_active_rows) = positive_positions(&row_margins);
    let (mut active_cols, mut num_active_cols) = positive_positions(&column_margins);
    proof {
        assert forall|i: int| 0 <= i < M implies #[trigger] row_sum(output, i) == 0 by {
            assert(output@[i] == zero_row);
            lemma_sum_zero(zero_row@);
        }
        assert forall|j: int| 0 <= j < N implies #[trigger] col_sum(output, j) == 0 by {
            assert forall|i: int| 0 <= i < M implies #[trigger] column(output, j)[i] == 0 by {
                assert(output@[i] == zero_row);
            }
            lemma_sum_zero(column(output, j));
        }
    }
    while num_active_rows > 0 && num_active_cols > 0
        invariant
            spec_active_list(active_rows@, num_active_rows as int, remaining_row_mass@),
            spec_active_list(active_cols@, num_active_cols as int, remaining_col_mass@),
            forall|i: int| 0 <= i < M ==> #[trigger] remaining_row_mass@[i] + row_sum(output, i) == row_margins@[i],
            forall|j: int| 0 <= j < N ==> #[trigger] remaining_col_mass@[j] + col_sum(output, j) == column_margins@[j],
            sum_usizes(remaining_row_mass@) == sum_usizes(remaining_col_mass@),
            M * N <= usize::MAX,
        decreases sum_usizes(remaining_row_mass@),
    {
        let num_cols = num_active_cols;
        assert(num_active_rows * num_cols <= M * N) by (nonlinear_arith)
            requires
                num_active_rows <= M,
                num_cols <= N,
        {}
        assert(num_active_rows * num_cols > 0) by (nonlinear_arith)
            requires
                num_active_rows > 0,
                num_cols > 0,
        {}
        let index = random_below(rng, num_active_rows * num_cols);
        let row_location = index / num_cols;
        let col_location = index % num_cols;
        assert(row_location < num_active_rows) by (nonlinear_arith)
            requires
                index < num_active_rows * num_cols,
                row_location == index / num_cols,
                num_cols > 0,
        {}

        let row_index = active_rows[row_location];
        let col_index = active_cols[col_location];
        let row_mass = remaining_row_mass[row_index];
        let col_mass = remaining_col_mass[col_index];

        let ghost before = output;
        let ghost before_rows = remaining_row_mass@;
        let ghost before_cols = remaining_col_mass@;
        let mut row = output[row_index];
        let cell = row[col_index];
        proof {
            crate::world::margins::lemma_entry_le_sum(before@[row_index as int]@, col_index as int);
        }
        row[col_index] = cell + 1;
        output[row_index] = row;
        remaining_row_mass[row_index] = row_mass - 1;
        remaining_col_mass[col_index] = col_mass - 1;
        proof {
            lemma_matrix_update(before, output, row_index as int, col_index as int, (cell + 1) as usize);
            lemma_sum_update(before_rows, row_index as int, (row_mass - 1) as usize);
            lemma_sum_update(before_cols, col_index as int, (col_mass - 1) as usize);
        }

        if remaining_row_mass[row_index] == 0 {
            proof {
                lemma_swap_remove_active(active_rows@, num_active_rows as int, before_rows, remaining_row_mass@, row_location as int);
            }
            num_active_rows = num_active_rows - 1;
            active_rows[row_location] = active_rows[num_active_rows];
        } else {
            assert(spec_active_list(active_rows@, num_active_rows as int, remaining_row_mass@)) by {
                assert forall|i: int| 0 <= i < M && remaining_row_mass@[i] > 0 implies exists|p: int| 0 <= p < num_active_rows && #[trigger] active_rows@[p] == i by {
                    assert(before_rows[i] > 0);
                }
            }
        }

        if remaining_col_mass[col_index] == 0 {
            proof {
                lemma_swap_remove_active(active_cols@, num_active_cols as int, before_cols, remaining_col_mass@, col_location as int);
            }
            num_active_cols = num_active_cols - 1;
            active_cols[col_location] = active_cols[num_active_cols];
        } else {
            assert(spec_active_list(active_cols@, num_active_cols as int, remaining_col_mass@)) by {
                assert forall|j: int| 0 <= j < N && remaining_col_mass@[j] > 0 implies exists|p: int| 0 <= p < num_active_cols && #[trigger] active_cols@[p] == j by {
                    assert(before_cols[j] > 0);
                }
            }
        }
    }
    proof {
        lemma_sum_zero(remaining_row_mass@);
        lemma_sum_zero(remaining_col_mass@);
        if num_active_rows == 0 {
            assert forall|i: int| 0 <= i < remaining_row_mass@.len() implies #[trigger] remaining_row_mass@[i] == 0 by {
                if remaining_row_mass@[i] > 0 {
                    let p = choose|p: int| 0 <= p < num_active_rows && #[trigger] active_rows@[p] == i;
                }
            }
        } else {
            assert forall|j: int| 0 <= j < remaining_col_mass@.len() implies #[trigger] remaining_col_mass@[j] == 0 by {
                if remaining_col_mass@[j] > 0 {
                    let p = choose|p: int| 0 <= p < num_active_cols && #[trigger] active_cols@[p] == j;
                }
            }
        }
        assert forall|i: int| 0 <= i < M implies #[trigger] row_sum(output, i) == row_margins@[i] by {
            assert(remaining_row_mass@[i] == 0);
        }
        assert forall|j: int| 0 <= j < N implies #[trigger] col_sum(output, j) == column_margins@[j] by {
            assert(remaining_col_mass@[j] == 0);
        }
    }
    output
}

} // verus!
