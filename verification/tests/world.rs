use monte_cardo::world::mixing::{
    build_positive_support, generate_submatrix_cycle, mix_one_sampled, sample_submatrix,
    update_positive_entry, NOT_POSITIVE,
};
use monte_cardo::world::{simple_valid_greedy, simple_valid_smart};
use rand::rngs::SmallRng;
use rand::SeedableRng;

#[test]
fn submatrix_cycle_generation_functions() {
    let cycle = generate_submatrix_cycle::<10, 10>();

    let num_row_pairs = 10 * (10 - 1) / 2;
    let num_col_pairs = 10 * (10 - 1) / 2;

    assert!(num_row_pairs * num_col_pairs == cycle.len());
}

fn assert_valid_solution<const M: usize, const N: usize>(
    matrix: &[[usize; N]; M],
    expected_row_margins: [usize; M],
    expected_column_margins: [usize; N],
) {
    for row_idx in 0..M {
        let row_sum: usize = matrix[row_idx].iter().sum();

        assert_eq!(
            row_sum, expected_row_margins[row_idx],
            "row {row_idx} had wrong sum; matrix = {matrix:?}",
        );
    }

    for col_idx in 0..N {
        let col_sum: usize = matrix.iter().map(|row| row[col_idx]).sum();

        assert_eq!(
            col_sum, expected_column_margins[col_idx],
            "column {col_idx} had wrong sum; matrix = {matrix:?}",
        );
    }
}

fn assert_positive_support_consistent<const M: usize, const N: usize>(
    matrix: &[[usize; N]; M],
    positive_entries: &[(usize, usize)],
    positive_entry_locations: &[[usize; N]; M],
    positive_row_counts: &[usize],
    positive_col_counts: &[usize],
) {
    let mut expected_entries = Vec::new();
    let mut expected_row_counts = [0usize; M];
    let mut expected_col_counts = [0usize; N];

    for row in 0..M {
        for col in 0..N {
            let location = positive_entry_locations[row][col];

            if matrix[row][col] > 0 {
                expected_entries.push((row, col));
                expected_row_counts[row] += 1;
                expected_col_counts[col] += 1;

                assert_ne!(
                    location, NOT_POSITIVE,
                    "positive cell ({row}, {col}) was not listed in locations",
                );

                assert!(
                    location < positive_entries.len(),
                    "positive cell ({row}, {col}) had out-of-bounds location {location}",
                );

                assert_eq!(
                    positive_entries[location],
                    (row, col),
                    "location table pointed to the wrong positive entry",
                );
            } else {
                assert_eq!(
                    location, NOT_POSITIVE,
                    "zero cell ({row}, {col}) was marked positive",
                );
            }
        }
    }

    assert_eq!(
        positive_entries.len(),
        expected_entries.len(),
        "positive_entries had wrong length",
    );

    assert_eq!(
        positive_row_counts, &expected_row_counts,
        "positive_row_counts were inconsistent",
    );

    assert_eq!(
        positive_col_counts, &expected_col_counts,
        "positive_col_counts were inconsistent",
    );

    // Make sure every positive_entries item is real and points back to itself.
    for (index, &(row, col)) in positive_entries.iter().enumerate() {
        assert!(
            row < M && col < N,
            "positive entry {index} had invalid coordinate ({row}, {col})",
        );

        assert!(
            matrix[row][col] > 0,
            "positive entry {index} pointed to zero cell ({row}, {col})",
        );

        assert_eq!(
            positive_entry_locations[row][col], index,
            "positive entry {index} did not round-trip through location table",
        );
    }
}

#[test]
fn build_positive_support_matches_matrix() {
    let matrix = [[0, 2, 0, 1], [3, 0, 0, 0], [0, 0, 4, 0]];

    let (positive_entries, positive_entry_locations, positive_row_counts, positive_col_counts) =
        build_positive_support(&matrix);

    assert_positive_support_consistent(
        &matrix,
        &positive_entries,
        &positive_entry_locations,
        &positive_row_counts,
        &positive_col_counts,
    );

    assert_eq!(positive_entries.len(), 4);
    assert_eq!(positive_row_counts, [2, 1, 1]);
    assert_eq!(positive_col_counts, [1, 1, 1, 1]);
}

#[test]
fn update_positive_entry_adds_new_positive_cell() {
    let mut matrix = [[0, 2, 0], [1, 0, 0], [0, 0, 3]];

    let (
        mut positive_entries,
        mut positive_entry_locations,
        mut positive_row_counts,
        mut positive_col_counts,
    ) = build_positive_support(&matrix);

    matrix[0][2] = 5;

    update_positive_entry(
        &matrix,
        &mut positive_entries,
        &mut positive_entry_locations,
        &mut positive_row_counts,
        &mut positive_col_counts,
        0,
        2,
    );

    assert_positive_support_consistent(
        &matrix,
        &positive_entries,
        &positive_entry_locations,
        &positive_row_counts,
        &positive_col_counts,
    );

    assert_eq!(positive_entries.len(), 4);
    assert_ne!(positive_entry_locations[0][2], NOT_POSITIVE);
}

#[test]
fn update_positive_entry_removes_zeroed_cell() {
    let mut matrix = [[0, 2, 0], [1, 0, 0], [0, 0, 3]];

    let (
        mut positive_entries,
        mut positive_entry_locations,
        mut positive_row_counts,
        mut positive_col_counts,
    ) = build_positive_support(&matrix);

    matrix[0][1] = 0;

    update_positive_entry(
        &matrix,
        &mut positive_entries,
        &mut positive_entry_locations,
        &mut positive_row_counts,
        &mut positive_col_counts,
        0,
        1,
    );

    assert_positive_support_consistent(
        &matrix,
        &positive_entries,
        &positive_entry_locations,
        &positive_row_counts,
        &positive_col_counts,
    );

    assert_eq!(positive_entries.len(), 2);
    assert_eq!(positive_entry_locations[0][1], NOT_POSITIVE);
}

#[test]
fn update_positive_entry_handles_swap_remove_location_update() {
    let mut matrix = [[1, 2, 0], [3, 0, 0], [0, 0, 4]];

    let (
        mut positive_entries,
        mut positive_entry_locations,
        mut positive_row_counts,
        mut positive_col_counts,
    ) = build_positive_support(&matrix);

    // Remove a cell that is likely not the last positive entry.
    // The test should pass regardless of the actual internal order.
    matrix[0][0] = 0;

    update_positive_entry(
        &matrix,
        &mut positive_entries,
        &mut positive_entry_locations,
        &mut positive_row_counts,
        &mut positive_col_counts,
        0,
        0,
    );

    assert_positive_support_consistent(
        &matrix,
        &positive_entries,
        &positive_entry_locations,
        &positive_row_counts,
        &positive_col_counts,
    );
}

#[test]
fn sample_submatrix_returns_compatible_positive_diagonal() {
    let matrix = [[1, 0, 2], [0, 3, 0], [4, 0, 5]];

    let (positive_entries, _positive_entry_locations, positive_row_counts, positive_col_counts) =
        build_positive_support(&matrix);

    let mut rng = SmallRng::seed_from_u64(12345);

    for _ in 0..100 {
        let submatrix = sample_submatrix::<3, 3>(
            &positive_entries,
            &positive_row_counts,
            &positive_col_counts,
            &mut rng,
        )
        .unwrap();

        let r0 = submatrix.r0 as usize;
        let r1 = submatrix.r1 as usize;
        let c0 = submatrix.c0 as usize;
        let c1 = submatrix.c1 as usize;

        assert_ne!(r0, r1);
        assert_ne!(c0, c1);

        assert!(
            matrix[r0][c0] > 0 && matrix[r1][c1] > 0,
            "sampled submatrix did not use a positive diagonal: {submatrix:?}",
        );
    }
}

#[test]
fn mix_one_sampled_preserves_margins_and_support_consistency() {
    let row_margins = [3, 4, 5, 2];
    let col_margins = [4, 3, 2, 5];

    let mut matrix = [[1, 0, 1, 1], [0, 2, 0, 2], [2, 1, 1, 1], [1, 0, 0, 1]];

    assert_valid_solution(&matrix, row_margins, col_margins);

    let (
        mut positive_entries,
        mut positive_entry_locations,
        mut positive_row_counts,
        mut positive_col_counts,
    ) = build_positive_support(&matrix);

    let mut rng = SmallRng::seed_from_u64(67890);

    for _ in 0..500 {
        mix_one_sampled(
            &mut matrix,
            &mut positive_entries,
            &mut positive_entry_locations,
            &mut positive_row_counts,
            &mut positive_col_counts,
            &mut rng,
        );

        assert_valid_solution(&matrix, row_margins, col_margins);

        assert_positive_support_consistent(
            &matrix,
            &positive_entries,
            &positive_entry_locations,
            &positive_row_counts,
            &positive_col_counts,
        );
    }
}

#[test]
fn update_positive_entry_is_noop_when_status_does_not_change() {
    let matrix = [[0, 2, 0], [1, 0, 0], [0, 0, 3]];

    let (
        mut positive_entries,
        mut positive_entry_locations,
        mut positive_row_counts,
        mut positive_col_counts,
    ) = build_positive_support(&matrix);

    let original_entries = positive_entries.clone();
    let original_locations = positive_entry_locations;
    let original_row_counts = positive_row_counts.clone();
    let original_col_counts = positive_col_counts.clone();

    // Still zero.
    update_positive_entry(
        &matrix,
        &mut positive_entries,
        &mut positive_entry_locations,
        &mut positive_row_counts,
        &mut positive_col_counts,
        0,
        0,
    );

    // Still positive.
    update_positive_entry(
        &matrix,
        &mut positive_entries,
        &mut positive_entry_locations,
        &mut positive_row_counts,
        &mut positive_col_counts,
        0,
        1,
    );

    assert_eq!(positive_entries, original_entries);
    assert_eq!(positive_entry_locations, original_locations);
    assert_eq!(positive_row_counts, original_row_counts);
    assert_eq!(positive_col_counts, original_col_counts);
}

#[test]
fn simple_valid_smart_generates_valid_solutions() {
    let row_margins = [3, 4, 7, 2, 5, 6, 1, 6, 8, 3, 2, 5, 7, 4, 6, 5, 3, 8];
    let column_margins = [4, 3, 6, 5, 4, 7, 2, 5, 6, 3, 8, 4, 2, 7, 5, 3, 6, 5];

    assert_eq!(
        row_margins.iter().sum::<usize>(),
        column_margins.iter().sum::<usize>(),
    );

    let sample = simple_valid_smart::<18, 18>(row_margins, column_margins);
    println!("{:?}", sample);
    assert_valid_solution(&sample, row_margins, column_margins);
}

#[test]
fn simple_valid_greedy_generates_valid_solutions() {
    let row_margins = [3, 4, 7, 2, 5, 6, 1, 6, 8, 3, 2, 5, 7, 4, 6, 5, 3, 8];
    let column_margins = [4, 3, 6, 5, 4, 7, 2, 5, 6, 3, 8, 4, 2, 7, 5, 3, 6, 5];

    assert_eq!(
        row_margins.iter().sum::<usize>(),
        column_margins.iter().sum::<usize>(),
    );

    let sample = simple_valid_greedy::<18, 18>(row_margins, column_margins);
    println!("{:?}", sample);
    assert_valid_solution(&sample, row_margins, column_margins);
}

#[test]
fn card_dealing_keeps_the_margins() {
    let row_margins = [3, 4, 7, 2, 5, 6, 1, 6, 8, 3, 2, 5, 7, 4, 6, 5, 3, 8];
    let column_margins = [4, 3, 6, 5, 4, 7, 2, 5, 6, 3, 8, 4, 2, 7, 5, 3, 6, 5];
    let mut rng = SmallRng::seed_from_u64(12345);
    for _ in 0..20 {
        let sample = monte_cardo::world::card_dealing::<18, 18>(row_margins, column_margins, &mut rng);
        assert_valid_solution(&sample, row_margins, column_margins);
    }
}

#[test]
fn sampled_mixing_keeps_the_margins() {
    let row_margins = [3, 4, 7, 2, 5, 6, 1, 6, 8, 3, 2, 5, 7, 4, 6, 5, 3, 8];
    let column_margins = [4, 3, 6, 5, 4, 7, 2, 5, 6, 3, 8, 4, 2, 7, 5, 3, 6, 5];
    let mut rng = SmallRng::seed_from_u64(12345);
    let samples = monte_cardo::world::mixing::mass_mixing_sample_based::<18, 18>(10, row_margins, column_margins, &mut rng)
        .unwrap();
    assert_eq!(samples.len(), 10);
    for sample in &samples {
        assert_valid_solution(sample, row_margins, column_margins);
    }
}

#[test]
fn cycle_mixing_keeps_the_margins() {
    let row_margins = [3, 4, 7, 2, 5, 6, 1, 6, 8, 3, 2, 5, 7, 4, 6, 5, 3, 8];
    let column_margins = [4, 3, 6, 5, 4, 7, 2, 5, 6, 3, 8, 4, 2, 7, 5, 3, 6, 5];
    let cycle = generate_submatrix_cycle::<18, 18>();
    assert_eq!(cycle.len(), 153 * 153);
    let mut rng = SmallRng::seed_from_u64(12345);
    let samples = monte_cardo::world::mixing::mass_mixing_cycle_based_sweeps::<18, 18>(
        5,
        100,
        row_margins,
        column_margins,
        &cycle,
        &mut rng,
    );
    assert_eq!(samples.len(), 5);
    for sample in &samples {
        assert_valid_solution(sample, row_margins, column_margins);
    }
}

#[test]
fn submatrix_cycle_lists_every_submatrix_once() {
    let cycle = generate_submatrix_cycle::<4, 3>();
    assert_eq!(cycle.len(), 6 * 3);
    let mut seen = std::collections::HashSet::new();
    for submatrix in &cycle {
        assert!(submatrix.r0 < submatrix.r1 && submatrix.r1 < 4);
        assert!(submatrix.c0 < submatrix.c1 && submatrix.c1 < 3);
        assert!(seen.insert((submatrix.r0, submatrix.r1, submatrix.c0, submatrix.c1)));
    }
}

#[test]
fn random_initial_state_deals_the_whole_deck_evenly() {
    let deck = monte_cardo::consts::DEFAULT_DALMUTI_DECK;
    let mut rng = SmallRng::seed_from_u64(77);
    let state = monte_cardo::game::generate_random_initial_game_state(6, &deck, &mut rng);
    let mut per_rank = [0usize; 18];
    let mut sizes = Vec::new();
    for player in 0..monte_cardo::consts::MAX_PLAYERS {
        let hand = state.player_hands.get_value(monte_cardo::game::PlayerID::new(player));
        let counts = hand.to_usize_counts();
        for rank in 0..18 {
            per_rank[rank] += counts[rank];
        }
        sizes.push(hand.total_cards());
    }
    assert_eq!(per_rank, deck);
    assert_eq!(&sizes[..7], &[14, 14, 13, 13, 13, 13, 0]);
    assert_eq!(state.current_player_number, monte_cardo::game::PlayerID::new(0));
    assert!(*state.trick.has_passed.get_value(monte_cardo::game::PlayerID::new(6)));
    assert!(!*state.trick.has_passed.get_value(monte_cardo::game::PlayerID::new(5)));
}

#[test]
fn mass_mixing_generates_valid_solutions() {
    let row_margins = [3, 4, 7, 2, 5, 6, 1, 6, 8, 3, 2, 5, 7, 4, 6, 5, 3, 8];
    let column_margins = [4, 3, 6, 5, 4, 7, 2, 5, 6, 3, 8, 4, 2, 7, 5, 3, 6, 5];

    assert_eq!(row_margins.iter().sum::<usize>(), column_margins.iter().sum::<usize>());

    let mut rng = SmallRng::seed_from_u64(12345);
    let cycle = generate_submatrix_cycle::<18, 18>();
    // The sweep length is what the sparsity estimate decides; every length gives valid tables,
    // so the shortest one, for a table with every submatrix movable, is taken here.
    let sweep_size = monte_cardo::world::mixing::STEPS_PER_SWEEP;
    let samples = monte_cardo::world::mixing::mass_mixing_cycle_based_sweeps::<18, 18>(
        100,
        sweep_size,
        row_margins,
        column_margins,
        &cycle,
        &mut rng,
    );

    assert_eq!(samples.len(), 100);

    for sample in &samples {
        assert_valid_solution(sample, row_margins, column_margins);
    }
}

#[test]
fn sampled_mixing_always_succeeds_when_every_table_can_be_mixed() {
    // Every 2 x 2 table with unit margins is a permutation, whose two cells are partners.
    let mut rng = SmallRng::seed_from_u64(5);
    let samples = monte_cardo::world::mixing::mass_mixing_sample_based::<2, 2>(4, [1, 1], [1, 1], &mut rng).unwrap();
    assert_eq!(samples.len(), 4);
    for sample in &samples {
        assert_valid_solution(sample, [1, 1], [1, 1]);
    }
}

#[test]
fn sampled_mixing_of_a_single_row_finds_nothing_to_mix() {
    let mut rng = SmallRng::seed_from_u64(6);
    assert!(monte_cardo::world::mixing::mass_mixing_sample_based::<1, 3>(2, [3], [1, 1, 1], &mut rng).is_none());
    assert!(monte_cardo::world::mixing::mass_mixing_sample_based::<3, 1>(2, [1, 1, 1], [3], &mut rng).is_none());
}

#[test]
fn a_support_without_partners_gives_no_submatrix() {
    let matrix = [[2, 3, 0], [0, 0, 0], [0, 0, 0]];
    let (positive_entries, _locations, positive_row_counts, positive_col_counts) = build_positive_support(&matrix);
    let mut rng = SmallRng::seed_from_u64(7);
    assert!(sample_submatrix::<3, 3>(&positive_entries, &positive_row_counts, &positive_col_counts, &mut rng).is_none());
}

#[test]
fn mixing_a_table_whose_cells_all_have_partners_always_moves() {
    let mut matrix = [[1, 0], [0, 1]];
    let (mut entries, mut locations, mut row_counts, mut col_counts) = build_positive_support(&matrix);
    let mut rng = SmallRng::seed_from_u64(8);
    assert!(mix_one_sampled(&mut matrix, &mut entries, &mut locations, &mut row_counts, &mut col_counts, &mut rng));
    assert_valid_solution(&matrix, [1, 1], [1, 1]);
}

#[test]
fn greedy_table_fills_from_the_north_west_corner() {
    assert_eq!(simple_valid_greedy::<2, 2>([2, 1], [1, 2]), [[1, 1], [0, 1]]);
    assert_eq!(simple_valid_greedy::<2, 3>([3, 3], [2, 2, 2]), [[2, 1, 0], [0, 1, 2]]);
}

#[test]
fn smart_table_fills_the_least_mass_first() {
    assert_eq!(simple_valid_smart::<2, 2>([2, 1], [1, 2]), [[0, 2], [1, 0]]);
    assert_eq!(simple_valid_smart::<2, 3>([3, 3], [2, 2, 2]), [[2, 0, 1], [0, 2, 1]]);
}
