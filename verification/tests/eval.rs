use monte_cardo::consts;
use monte_cardo::eval::{
    normalize_incomplete_information_state, sample_possible_world, sample_possible_worlds, unseen_cards_fit,
    NaiveHeuristic, ZobristTable,
};
use monte_cardo::game::{
    create_incomplete_information_game_state, generate_random_initial_game_state, CardRank, FullInformationGameState,
    HandSizes, IncompleteInformationGameState, PlayerID,
};
use monte_cardo::eval::naive::{player_can_beat_array, player_can_beat_array_fits};
use rand::rngs::SmallRng;
use rand::SeedableRng;

#[test]
fn zobrist_hash_depends_on_the_table_and_the_state() {
    let mut rng = SmallRng::seed_from_u64(5);
    let state = generate_random_initial_game_state(4, &consts::DEFAULT_DALMUTI_DECK, &mut rng);
    let view = create_incomplete_information_game_state(&state, PlayerID::new(0));
    let (normalized, _map) = normalize_incomplete_information_state(&view).unwrap();

    let table = ZobristTable::new(7);
    let same_table = ZobristTable::new(7);
    let other_table = ZobristTable::new(8);

    assert_eq!(table.hash(&normalized), same_table.hash(&normalized));
    assert_ne!(table.hash(&normalized), other_table.hash(&normalized));

    let other_view = create_incomplete_information_game_state(&state, PlayerID::new(1));
    let (other_normalized, _map) = normalize_incomplete_information_state(&other_view).unwrap();
    assert_ne!(table.hash(&normalized), table.hash(&other_normalized));
}

#[test]
fn zobrist_hash_of_an_empty_state_is_zero() {
    let mut rng = SmallRng::seed_from_u64(5);
    let mut state = generate_random_initial_game_state(1, &[0; consts::MAX_CARD_ORDINALITY], &mut rng);
    state.trick.has_passed = monte_cardo::game::PlayerIndexed::filled(false);
    let view = create_incomplete_information_game_state(&state, PlayerID::new(0));
    let (normalized, _map) = normalize_incomplete_information_state(&view).unwrap();
    assert_eq!(ZobristTable::new(1).hash(&normalized).0, 0);
}

#[test]
fn naive_heuristic_can_be_made() {
    let _heuristic = NaiveHeuristic::new();
}

/// Checks, by counting, that `world` is a game of which `view` can be the perspective player's
/// view.
fn assert_possible_world(view: &IncompleteInformationGameState, world: &FullInformationGameState) {
    let perspective = view.perspective_player_number;
    assert_eq!(world.current_player_number, view.current_player_number);
    assert_eq!(world.number_of_players, view.number_of_players);
    assert_eq!(world.player_placements, view.player_placements);
    assert_eq!(world.trick, view.trick);
    assert_eq!(*world.player_hands.get_value(perspective), view.player_hand);
    for p in 0..consts::MAX_PLAYERS {
        let seat = PlayerID::new(p);
        if seat == perspective {
            continue;
        }
        let expected = if p < view.number_of_players { view.hand_sizes.get_size(seat) } else { 0 };
        assert_eq!(world.player_hands.get_value(seat).total_cards(), expected, "seat {p}");
    }
    for r in 0..consts::MAX_CARD_ORDINALITY {
        let rank = CardRank::new(r);
        let mut unseen = 0;
        for p in 0..view.number_of_players {
            let seat = PlayerID::new(p);
            if seat != perspective {
                unseen += world.player_hands.get_value(seat).get_count(rank).get();
            }
        }
        assert_eq!(unseen, view.opponent_cards.get_count(rank).get(), "rank {r}");
    }
}

#[test]
fn a_dealt_game_is_a_possible_world_of_each_view() {
    let mut rng = SmallRng::seed_from_u64(21);
    let state = generate_random_initial_game_state(5, &consts::DEFAULT_DALMUTI_DECK, &mut rng);
    for p in 0..5 {
        let view = create_incomplete_information_game_state(&state, PlayerID::new(p));
        assert!(unseen_cards_fit(&view));
        assert_possible_world(&view, &state);
    }
}

#[test]
fn sampled_worlds_are_possible_worlds() {
    let mut rng = SmallRng::seed_from_u64(22);
    let state = generate_random_initial_game_state(4, &consts::DEFAULT_SCUM_DECK, &mut rng);
    let view = create_incomplete_information_game_state(&state, PlayerID::new(2));
    let worlds = sample_possible_worlds(&view, 6, &mut rng);
    assert_eq!(worlds.len(), 6);
    for world in &worlds {
        assert_possible_world(&view, world);
    }
    let one = sample_possible_world(&view, &mut rng);
    assert_possible_world(&view, &one);
}

#[test]
fn sampled_worlds_deal_the_unseen_cards_to_the_other_seats() {
    let mut rng = SmallRng::seed_from_u64(23);
    let state = generate_random_initial_game_state(3, &consts::DEFAULT_DALMUTI_DECK, &mut rng);
    let view = create_incomplete_information_game_state(&state, PlayerID::new(0));
    let world = sample_possible_world(&view, &mut rng);
    // 80 cards in all, the perspective seat's hand is kept, the rest is split 27 / 26.
    let own = view.player_hand.total_cards();
    assert_eq!(own, 27);
    assert_eq!(world.player_hands.get_value(PlayerID::new(1)).total_cards(), 27);
    assert_eq!(world.player_hands.get_value(PlayerID::new(2)).total_cards(), 26);
    for p in 3..consts::MAX_PLAYERS {
        assert!(world.player_hands.get_value(PlayerID::new(p)).is_empty());
    }
}

#[test]
fn sampling_with_no_worlds_asked_gives_none() {
    let mut rng = SmallRng::seed_from_u64(24);
    let state = generate_random_initial_game_state(2, &consts::DEFAULT_DALMUTI_DECK, &mut rng);
    let view = create_incomplete_information_game_state(&state, PlayerID::new(1));
    assert!(sample_possible_worlds(&view, 0, &mut rng).is_empty());
}

#[test]
fn hand_sizes_that_miss_unseen_cards_do_not_fit() {
    let mut rng = SmallRng::seed_from_u64(25);
    let state = generate_random_initial_game_state(4, &consts::DEFAULT_DALMUTI_DECK, &mut rng);
    let mut view = create_incomplete_information_game_state(&state, PlayerID::new(0));
    assert!(unseen_cards_fit(&view));
    let mut sizes = *view.hand_sizes.get();
    sizes[3] -= 1;
    view.hand_sizes = HandSizes::new(sizes);
    assert!(!unseen_cards_fit(&view));
}

#[test]
fn the_player_has_the_same_moves_in_every_sampled_world() {
    let mut rng = SmallRng::seed_from_u64(26);
    let state = generate_random_initial_game_state(4, &consts::DEFAULT_DALMUTI_DECK, &mut rng);
    let view = create_incomplete_information_game_state(&state, state.current_player_number);
    let own_moves = monte_cardo::game::get_available_moves(&view.player_hand, view.trick.top_set);
    for world in sample_possible_worlds(&view, 5, &mut rng) {
        let hand = *world.player_hands.get_value(world.current_player_number);
        assert_eq!(monte_cardo::game::get_available_moves(&hand, world.trick.top_set), own_moves);
    }
}

fn hand_of(counts: [usize; consts::MAX_CARD_ORDINALITY]) -> monte_cardo::game::PlayerHand {
    let mut hand = monte_cardo::game::PlayerHand::empty();
    for (rank, &count) in counts.iter().enumerate() {
        hand.set_count(monte_cardo::game::CardRank::new(rank), monte_cardo::game::CardCount::new(count));
    }
    hand
}

fn marked(array: &[bool]) -> Vec<usize> {
    array.iter().enumerate().filter(|(_, &b)| b).map(|(i, _)| i).collect()
}

#[test]
fn can_beat_array_marks_the_sizes_the_opponents_cannot_answer() {
    let player = hand_of([1, 0, 0, 2, 0, 0, 0, 0, 3, 0, 0, 0, 0, 0, 0, 0, 0, 0]);
    let opponents = hand_of([0, 1, 1, 1, 2, 0, 0, 0, 1, 0, 0, 0, 0, 0, 0, 0, 0, 0]);
    assert!(player_can_beat_array_fits(&player, &opponents));
    assert_eq!(marked(&player_can_beat_array(&player, &opponents)), vec![0, 1, 2, 3]);

    let player = hand_of([0, 0, 0, 0, 0, 4, 0, 0, 0, 0, 0, 0, 0, 0, 0, 0, 0, 0]);
    let opponents = hand_of([2, 0, 0, 0, 0, 0, 0, 0, 0, 0, 0, 0, 0, 0, 0, 0, 0, 0]);
    assert_eq!(marked(&player_can_beat_array(&player, &opponents)), vec![3]);
}

#[test]
fn can_beat_array_does_not_fit_hands_that_reach_past_its_end() {
    let player = hand_of([20, 0, 0, 0, 0, 0, 0, 0, 0, 0, 0, 0, 0, 0, 0, 0, 0, 0]);
    let opponents = hand_of([0; consts::MAX_CARD_ORDINALITY]);
    assert!(!player_can_beat_array_fits(&player, &opponents));
    let player = hand_of([10, 0, 0, 0, 0, 0, 0, 0, 0, 0, 0, 0, 0, 0, 0, 0, 0, 0]);
    assert!(player_can_beat_array_fits(&player, &opponents));
}
