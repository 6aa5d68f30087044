use monte_cardo::consts;
use monte_cardo::game::{
    create_incomplete_information_game_state, generate_random_initial_game_state, get_available_moves,
    update_full_information_game_state, update_incomplete_information_game_state, Move, PlayerID,
};
use monte_cardo::game::IncompleteInformationGameState;
use rand::rngs::SmallRng;
use rand::SeedableRng;

fn assert_same_view(a: &IncompleteInformationGameState, b: &IncompleteInformationGameState, context: &str) {
    assert_eq!(a.current_player_number, b.current_player_number, "{context}");
    assert_eq!(a.perspective_player_number, b.perspective_player_number, "{context}");
    assert_eq!(a.number_of_players, b.number_of_players, "{context}");
    assert_eq!(a.player_hand, b.player_hand, "{context}");
    assert_eq!(a.opponent_cards, b.opponent_cards, "{context}");
    assert_eq!(a.player_placements, b.player_placements, "{context}");
    assert_eq!(a.hand_sizes, b.hand_sizes, "{context}");
    assert_eq!(a.trick, b.trick, "{context}");
}

/// Plays the first listed move for a few turns, checking at every turn that each player's view,
/// moved along by the move, is the view of the moved game.
#[test]
fn views_move_along_with_the_game() {
    let mut rng = SmallRng::seed_from_u64(41);
    let mut game = generate_random_initial_game_state(4, &consts::DEFAULT_DALMUTI_DECK, &mut rng);
    let mut views: Vec<_> =
        (0..4).map(|p| create_incomplete_information_game_state(&game, PlayerID::new(p))).collect();
    for turn in 0..30 {
        let current = game.current_player_number;
        let hand = *game.player_hands.get_value(current);
        let moves = get_available_moves(&hand, game.trick.top_set);
        // Alternate between the first play and a pass, when a pass is allowed.
        let player_move = if turn % 3 == 2 && moves.contains(&Move::Pass) { Move::Pass } else { moves[0] };
        let game_result = update_full_information_game_state(&mut game, player_move);
        for p in 0..4 {
            let view_result = update_incomplete_information_game_state(&mut views[p], player_move);
            assert_eq!(game_result.is_err(), view_result.is_err());
            let expected = create_incomplete_information_game_state(&game, PlayerID::new(p));
            assert_same_view(&views[p], &expected, &format!("turn {turn}, seat {p}"));
        }
        if matches!(game_result, Ok(true)) {
            break;
        }
    }
}

#[test]
fn a_pass_on_an_empty_trick_fails_in_the_game_and_in_every_view() {
    let mut rng = SmallRng::seed_from_u64(42);
    let mut game = generate_random_initial_game_state(3, &consts::DEFAULT_SCUM_DECK, &mut rng);
    let mut view = create_incomplete_information_game_state(&game, PlayerID::new(2));
    assert!(update_full_information_game_state(&mut game, Move::Pass).is_err());
    assert!(update_incomplete_information_game_state(&mut view, Move::Pass).is_err());
    let expected = create_incomplete_information_game_state(&game, PlayerID::new(2));
    assert_same_view(&view, &expected, "after the pass");
}
