use monte_cardo::consts;
use monte_cardo::game::{
    create_incomplete_information_game_state, generate_random_initial_game_state, get_available_moves,
    update_full_information_game_state, CardRank, Move, PlayerID,
};
use monte_cardo::network::{
    network_card_inputs, network_inputs_fit_check, HAND_SIZES_START, LEADER_START, OPPONENT_MATRIX_START,
    PASSED_START, TOP_SET_FLAG, TOP_SET_NUMBER_START, TOP_SET_RANK_START,
};
use rand::rngs::SmallRng;
use rand::SeedableRng;

#[test]
fn card_matrices_list_the_ranks_in_play() {
    let mut rng = SmallRng::seed_from_u64(51);
    let game = generate_random_initial_game_state(4, &consts::DEFAULT_DALMUTI_DECK, &mut rng);
    let view = create_incomplete_information_game_state(&game, PlayerID::new(1));
    assert!(network_inputs_fit_check(&view));
    let inputs = network_card_inputs(&view);
    // Every rank of this deck is in play, so slot k stands for rank k.
    for rank in 0..13 {
        let mine = view.player_hand.get_count(CardRank::new(rank)).get();
        let theirs = view.opponent_cards.get_count(CardRank::new(rank)).get();
        for j in 0..consts::MAX_CARD_NUMBER {
            assert_eq!(inputs[rank * 18 + j], (j < mine) as u8, "rank {rank}, entry {j}");
            assert_eq!(inputs[OPPONENT_MATRIX_START + rank * 18 + j], (j < theirs) as u8);
        }
    }
    assert!(inputs[13 * 18..324].iter().all(|&b| b == 0));
    assert_eq!(inputs[TOP_SET_FLAG], 0);
    // Sixteen seats, none out, counted from seat 1: seat slot k is seat (1 + k) % 16.
    assert_eq!(inputs[HAND_SIZES_START], view.hand_sizes.get_size(PlayerID::new(1)) as u8);
    assert_eq!(inputs[HAND_SIZES_START + 2], view.hand_sizes.get_size(PlayerID::new(3)) as u8);
    assert_eq!(inputs[HAND_SIZES_START + 3], 0);
    assert_eq!(inputs[HAND_SIZES_START + 15], view.hand_sizes.get_size(PlayerID::new(0)) as u8);
}

#[test]
fn the_top_set_is_encoded_one_hot() {
    let mut rng = SmallRng::seed_from_u64(52);
    let mut game = generate_random_initial_game_state(3, &consts::DEFAULT_SCUM_DECK, &mut rng);
    let leader = game.current_player_number;
    let hand = *game.player_hands.get_value(leader);
    let play = match get_available_moves(&hand, None)[0] {
        Move::Play(play) => play,
        Move::Pass => unreachable!(),
    };
    update_full_information_game_state(&mut game, Move::Play(play)).unwrap();
    let view = create_incomplete_information_game_state(&game, PlayerID::new(2));
    let inputs = network_card_inputs(&view);
    assert_eq!(inputs[TOP_SET_FLAG], 1);
    for r in 0..consts::MAX_CARD_ORDINALITY {
        assert_eq!(inputs[TOP_SET_RANK_START + r], (r == play.rank.get()) as u8);
    }
    let number = play.total_count().get();
    for i in 0..consts::MAX_CARD_NUMBER - 1 {
        assert_eq!(inputs[TOP_SET_NUMBER_START + i], (i + 1 == number) as u8);
    }
    // Seat slots from seat 2: seat 2, 3, ..., 15, 0, 1; the leader is seat 0, slot 14.
    assert_eq!(leader, PlayerID::new(0));
    for k in 0..consts::MAX_PLAYERS {
        assert_eq!(inputs[LEADER_START + k], (k == 14) as u8);
        let seat = (2 + k) % 16;
        assert_eq!(inputs[PASSED_START + k], *view.trick.has_passed.get_value(PlayerID::new(seat)) as u8);
    }
}
