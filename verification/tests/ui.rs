use monte_cardo::consts;
use monte_cardo::game::{
    generate_random_initial_game_state, CardCount, CardRank, HandSizes, IncompleteInformationGameState, Move, Play,
    PlayerHand, PlayerID, PlayerPlacements, TopSet, Trick,
};
use monte_cardo::ui::app::{
    create_initial_live_incomplete_state, current_observed_move, live_counts_fit_check, moves_are_equal, validate_incomplete_move_is_possible,
    GameSession, LiveSetupError, MoveCheckError, SessionMoveError, SessionState,
};
use monte_cardo::ui::cards::{Move as CardMove, TrickHistoryEntry};
use monte_cardo::ui::editing::{adjust_usize, parse_u64, parse_usize};
use monte_cardo::ui::hand::{MoveSuggestion, PlayerHand as HandView, PlayerTurnHand, SuggestedMove};
use monte_cardo::ui::live_widgets::{
    scroll_offset_for_selected, LivePlayerColumn, LiveSetupState, ObservedAction, ObservedMoveFocus, ObservedMoveInputState,
};
use monte_cardo::ui::players::PlayerState;
use monte_cardo::ui::solver_worker::{solver_request_plan, SolverPurpose};
use monte_cardo::ui::rank_count_editor::{fixed_max_counts, RankCountEditorState};
use monte_cardo::ui::settings::{
    adjust_deck_count, number_of_players_from_text, set_deck_count_from_text, DiscreteSettings, GameMode,
    PlayerPanelSelection, SettingsField, SettingsFocus, SettingsFormState,
};
use monte_cardo::ui::table::Player as TablePlayer;
use monte_cardo::ui::view_model::{
    build_game_widget, build_incomplete_game_widget, card_move_to_core_move, core_move_to_card_move,
};
use rand::rngs::SmallRng;
use rand::SeedableRng;

fn hand_from_pairs(pairs: &[(usize, usize)]) -> PlayerHand {
    let mut values = [CardCount::new(0); consts::MAX_CARD_ORDINALITY];
    for &(rank_index, card_count) in pairs {
        values[rank_index] = CardCount::new(card_count);
    }
    PlayerHand::new(values)
}

#[test]
fn parse_usize_reads_decimal_numbers_like_str_parse() {
    assert_eq!(parse_usize("0"), Some(0));
    assert_eq!(parse_usize("42"), Some(42));
    assert_eq!(parse_usize("+7"), Some(7));
    assert_eq!(parse_usize("007"), Some(7));
    assert_eq!(parse_usize(""), None);
    assert_eq!(parse_usize("+"), None);
    assert_eq!(parse_usize("4a"), None);
    assert_eq!(parse_usize("-3"), None);
    assert_eq!(parse_usize("18446744073709551615"), Some(usize::MAX));
    assert_eq!(parse_usize("18446744073709551616"), None);
    assert_eq!(parse_usize("99999999999999999999x"), None);
    for text in ["12", "+5", "", "x", "1 2", "340282366920938463463374607431768211456"] {
        assert_eq!(parse_usize(text), text.parse::<usize>().ok());
    }
}

#[test]
fn adjust_usize_moves_by_steps_within_bounds() {
    assert_eq!(adjust_usize(5, 1, 1, 0, 10), 6);
    assert_eq!(adjust_usize(9, 3, 1, 0, 10), 10);
    assert_eq!(adjust_usize(5, -2, 2, 0, 10), 1);
    assert_eq!(adjust_usize(5, -3, 2, 2, 10), 2);
    assert_eq!(adjust_usize(5, 0, 100, 0, 10), 5);
    assert_eq!(adjust_usize(usize::MAX - 1, 5, usize::MAX, 0, usize::MAX), usize::MAX);
    assert_eq!(adjust_usize(3, -1, usize::MAX, 1, 10), 1);
}

#[test]
fn rank_count_editor_types_and_erases_digits() {
    let mut state = RankCountEditorState::new();
    let mut counts = [0usize; consts::MAX_CARD_ORDINALITY];
    let max_counts = fixed_max_counts(12);

    state.move_rank(1);
    state.move_rank(1);
    assert_eq!(state.selected_rank, 2);
    state.start_editing();
    state.input_digit(&mut counts, &max_counts, '1');
    assert_eq!(counts[2], 1);
    state.input_digit(&mut counts, &max_counts, 'x');
    assert_eq!(state.edit_buffer, "1");
    state.input_digit(&mut counts, &max_counts, '5');
    assert_eq!(counts[2], 12);
    state.backspace_digit(&mut counts, &max_counts);
    assert_eq!(counts[2], 1);
    state.backspace_digit(&mut counts, &max_counts);
    assert_eq!(counts[2], 0);
    state.adjust_count(&mut counts, &max_counts, 20);
    assert_eq!(counts[2], 12);
    state.finish_editing();
    assert!(!state.editing);

    state.reset_to_rank(40);
    assert_eq!(state.selected_rank, consts::MAX_CARD_ORDINALITY - 1);
    state.move_rank(1);
    assert_eq!(state.selected_rank, consts::MAX_CARD_ORDINALITY - 1);
    state.reset();
    state.move_rank(-1);
    assert_eq!(state.selected_rank, 0);
}

#[test]
fn live_setup_starts_from_an_even_deal() {
    let mut state = LiveSetupState::new();
    state.reset_from_settings(&consts::DEFAULT_DALMUTI_DECK, 6);

    // 80 cards among 6 seats: 14, 14, 13, 13, 13, 13, with the player's own size taken from
    // their (still empty) hand.
    assert_eq!(&state.hand_sizes[..7], &[0, 14, 13, 13, 13, 13, 0]);

    state.input_hand_digit(&consts::DEFAULT_DALMUTI_DECK, '9');
    assert_eq!(state.hand_counts[0], 2);
    assert_eq!(state.hand_sizes[0], 2);

    state.move_hand_size_player(6, 1);
    state.move_player_column(1);
    assert_eq!(state.player_column, LivePlayerColumn::HandSize);
    assert!(state.current_hand_size_is_editable());
    state.start_hand_size_editing();
    state.input_hand_size_digit(&consts::DEFAULT_DALMUTI_DECK, '9');
    state.input_hand_size_digit(&consts::DEFAULT_DALMUTI_DECK, '9');
    assert_eq!(state.hand_sizes[1], 80);
    state.backspace_hand_size_digit();
    assert_eq!(state.hand_sizes[1], 9);
    state.adjust_hand_size(&consts::DEFAULT_DALMUTI_DECK, -20);
    assert_eq!(state.hand_sizes[1], 0);
    state.select_current_player_as_starting_player();
    assert_eq!(state.starting_player, 1);

    state.move_hand_size_player(6, -1);
    assert_eq!(state.player_column, LivePlayerColumn::StartingPlayer);
}

#[test]
fn observed_move_focus_moves_round_the_panel() {
    let mut state = ObservedMoveInputState::new();
    assert_eq!(state.focus, ObservedMoveFocus::Action);

    state.move_focus_down();
    assert_eq!(state.focus, ObservedMoveFocus::Rank);
    state.move_left_right(-1);
    assert_eq!(state.focus, ObservedMoveFocus::Wilds);
    state.move_left_right(1);
    assert_eq!(state.focus, ObservedMoveFocus::Rank);
    state.start_count_editing();
    state.input_count_digit('2');
    state.input_count_digit('5');
    assert_eq!(state.rank, consts::MAX_CARD_ORDINALITY - 1);
    state.backspace_count_digit();
    assert_eq!(state.rank, 2);
    state.backspace_count_digit();
    assert_eq!(state.rank, 1);
    state.adjust_current_count(-5);
    assert_eq!(state.rank, 1);

    state.move_focus_up();
    assert_eq!(state.focus, ObservedMoveFocus::Action);
    state.move_left_right(1);
    assert_eq!(state.action, ObservedAction::Pass);
    state.move_focus_down();
    assert_eq!(state.focus, ObservedMoveFocus::Submit);
    state.move_focus_up();
    assert_eq!(state.focus, ObservedMoveFocus::Action);

    state.reset_for_next_move();
    assert_eq!(state.action, ObservedAction::Play);
    assert_eq!(state.non_wilds, 1);
}

#[test]
fn settings_form_moves_its_cursors() {
    let mut state = SettingsFormState::new();
    assert_eq!(state.focus, SettingsFocus::Mode);
    state.move_mode_cursor(1);
    assert_eq!(state.mode_cursor, GameMode::PlayLive);
    assert_eq!(GameMode::PlayLive.label(), "Play Live");

    state.focus_deck_start();
    state.move_deck_rank(1);
    state.start_deck_editing();
    assert!(state.deck_editing);
    state.focus_players();
    assert!(!state.deck_editing);
    assert!(!state.move_player_selection_up());
    assert!(state.move_player_selection_down(4));
    assert_eq!(state.player_selection, PlayerPanelSelection::PlayerName(0));
    state.player_selection = PlayerPanelSelection::PlayerName(3);
    assert!(!state.move_player_selection_down(4));
    state.clamp_to_settings(2, false);
    assert_eq!(state.player_selection, PlayerPanelSelection::PlayerName(1));

    state.focus_rules();
    assert!(state.move_rules_down(false));
    assert!(!state.move_rules_down(false));
    assert_eq!(state.selected_rule_field(false), Some(SettingsField::SolverEnabled));
    state.rules_index = 10;
    state.clamp_to_settings(2, false);
    assert_eq!(state.rules_index, 1);
    assert_eq!(SettingsField::visible_rules(true).len(), 13);
    assert!(SettingsField::SolverEnabled.is_bool());
    assert!(SettingsField::Temperature.allows_decimal_text());
    assert_eq!(SettingsField::NumWorlds.label(), "Number of Worlds to Consider");

    let mut deck = consts::DEFAULT_DALMUTI_DECK;
    adjust_deck_count(&mut deck, 1, 200);
    assert_eq!(deck[1], 99);
    set_deck_count_from_text(&mut deck, 1, "7");
    assert_eq!(deck[1], 7);
    set_deck_count_from_text(&mut deck, 1, "x");
    assert_eq!(deck[1], 7);
    assert_eq!(number_of_players_from_text("40"), Some(consts::MAX_PLAYERS));
    assert_eq!(number_of_players_from_text("1"), Some(2));
    assert_eq!(number_of_players_from_text(""), None);
}

#[test]
fn card_moves_convert_to_and_from_plays() {
    let play = Play::new(CardRank::new(5), CardCount::new(3), CardCount::new(1));
    let card = core_move_to_card_move(Move::Play(play)).unwrap();
    assert_eq!((card.rank, card.num_wilds, card.num_non_wilds), (5, 1, 3));
    assert!(core_move_to_card_move(Move::Pass).is_none());

    // The drawn move's counts go to the play the other way round.
    let back = card_move_to_core_move(card);
    assert_eq!(back, Move::Play(Play::new(CardRank::new(5), CardCount::new(1), CardCount::new(3))));

    assert!(moves_are_equal(Move::Pass, Move::Pass));
    assert!(moves_are_equal(Move::Play(play), Move::Play(play)));
    assert!(!moves_are_equal(Move::Play(play), Move::Pass));
}

#[test]
fn game_widget_shows_the_state_of_every_seat() {
    let mut rng = SmallRng::seed_from_u64(3);
    let mut state = generate_random_initial_game_state(4, &consts::DEFAULT_DALMUTI_DECK, &mut rng);
    state.trick.top_set = Some(TopSet::new(PlayerID::new(2), CardRank::new(11), CardCount::new(1)));
    state.trick.has_passed.set_value(PlayerID::new(3), true);
    let names: Vec<String> = ["A", "B", "C", "D"].iter().map(|name| name.to_string()).collect();
    let history = vec![TrickHistoryEntry::new("C".to_string(), CardMove::new(11, 0, 1))];

    let view = build_game_widget(4, 0, None, Some(Move::Pass), &state, &history, &names);

    let states: Vec<PlayerState> = view.players.players.iter().map(|player| player.state).collect();
    assert_eq!(states, vec![PlayerState::Active, PlayerState::Normal, PlayerState::Leading, PlayerState::Passed]);
    assert_eq!(view.players.players.iter().map(|player| player.hand_size as usize).sum::<usize>(), 80);
    assert!(matches!(view.table.current_player, TablePlayer::PerspectivePlayer));
    let top_set = view.table.top_set.clone().unwrap();
    assert!(matches!(top_set.top_set_player, TablePlayer::Other(ref name) if name == "C"));
    match view.player_hand {
        HandView::CurrentTurn(turn) => {
            assert!(turn.can_pass);
            assert!(matches!(turn.suggested_move, SuggestedMove::Suggestion(MoveSuggestion::Pass)));
            for card in &turn.available_moves {
                assert!(card.rank < 11);
            }
        }
        HandView::NotPlayerTurn(_) => panic!("expected the player's turn"),
    }
}

fn live_state() -> IncompleteInformationGameState {
    create_initial_live_incomplete_state(
        &consts::DEFAULT_DALMUTI_DECK,
        4,
        hand_from_pairs(&[(0, 1), (3, 2), (12, 12)]),
        [15, 22, 22, 21, 0, 0, 0, 0, 0, 0, 0, 0, 0, 0, 0, 0],
        PlayerID::new(0),
        PlayerID::new(1),
    )
    .unwrap_or_else(|error| panic!("{:?}", error))
}

#[test]
fn live_state_pools_the_rest_of_the_deck() {
    let state = live_state();
    assert_eq!(state.current_player_number, PlayerID::new(1));
    assert_eq!(state.opponent_cards.get_count(CardRank::new(12)).get(), 0);
    assert_eq!(state.opponent_cards.get_count(CardRank::new(11)).get(), 11);
    assert_eq!(state.opponent_cards.get_count(CardRank::new(0)).get(), 1);
    assert_eq!(state.hand_sizes.get_size(PlayerID::new(3)), 21);
    assert!(*state.trick.has_passed.get_value(PlayerID::new(4)));
    assert!(!*state.trick.has_passed.get_value(PlayerID::new(3)));
}

#[test]
fn live_state_reports_the_first_failed_check() {
    let hand = hand_from_pairs(&[(1, 2)]);
    let sizes = [2, 26, 26, 26, 0, 0, 0, 0, 0, 0, 0, 0, 0, 0, 0, 0];
    let deck = &consts::DEFAULT_DALMUTI_DECK;
    let check = |n: usize, persp: usize, start: usize, sizes: [usize; 16]| {
        create_initial_live_incomplete_state(deck, n, hand, sizes, PlayerID::new(persp), PlayerID::new(start)).err()
    };
    assert_eq!(check(1, 0, 0, sizes), Some(LiveSetupError::InvalidNumberOfPlayers(1)));
    assert_eq!(check(4, 4, 0, sizes), Some(LiveSetupError::PerspectiveOutOfRange));
    assert_eq!(check(4, 0, 5, sizes), Some(LiveSetupError::StartingPlayerOutOfRange));
    assert_eq!(
        check(4, 0, 0, sizes),
        Some(LiveSetupError::HandExceedsDeck { rank: 1, player_count: 2, deck_count: 1 })
    );
    let hand = hand_from_pairs(&[(2, 2)]);
    let result = create_initial_live_incomplete_state(deck, 4, hand, sizes, PlayerID::new(0), PlayerID::new(0));
    assert!(result.is_ok());
    let short = [3, 26, 26, 26, 0, 0, 0, 0, 0, 0, 0, 0, 0, 0, 0, 0];
    let result = create_initial_live_incomplete_state(deck, 4, hand, short, PlayerID::new(0), PlayerID::new(0));
    assert_eq!(result.err(), Some(LiveSetupError::HandSizeMismatch { stated: 3, counted: 2 }));
    let wrong_total = [2, 20, 26, 26, 0, 0, 0, 0, 0, 0, 0, 0, 0, 0, 0, 0];
    let result = create_initial_live_incomplete_state(deck, 4, hand, wrong_total, PlayerID::new(0), PlayerID::new(0));
    assert_eq!(result.err(), Some(LiveSetupError::HandSizesDoNotMatchDeck { hand_sizes: 74, deck: 80 }));
}

#[test]
fn observed_moves_are_checked_against_the_known_cards() {
    let mut state = live_state();
    assert_eq!(validate_incomplete_move_is_possible(&state, Move::Pass), Err(MoveCheckError::PassOnEmptyTrick));

    let twelves = Move::Play(Play::new(CardRank::new(12), CardCount::new(2), CardCount::new(0)));
    assert_eq!(validate_incomplete_move_is_possible(&state, twelves), Err(MoveCheckError::NotPossible(twelves)));

    let elevens = Move::Play(Play::new(CardRank::new(11), CardCount::new(3), CardCount::new(0)));
    assert_eq!(validate_incomplete_move_is_possible(&state, elevens), Ok(()));

    let too_many = Move::Play(Play::new(CardRank::new(11), CardCount::new(11), CardCount::new(1)));
    state.hand_sizes = HandSizes::new([20, 5, 20, 20, 0, 0, 0, 0, 0, 0, 0, 0, 0, 0, 0, 0]);
    assert_eq!(
        validate_incomplete_move_is_possible(&state, too_many),
        Err(MoveCheckError::TooManyCards { player: 1, hand_size: 5, played: 12 })
    );
}

#[test]
fn game_session_reads_its_state() {
    let state = live_state();
    let session = GameSession {
        mode: GameMode::PlayLive,
        state: SessionState::Live(state),
        trick_history: Vec::new(),
        player_names: vec!["A".to_string(); 4],
        ui_player_number: 0,
        current_selected_move: None,
    };
    assert_eq!(session.number_of_players(), 4);
    assert_eq!(session.current_player_number(), PlayerID::new(1));
    assert_eq!(session.placement_for(PlayerID::new(2)), 0);
    let solver_state = session.incomplete_state_for_solver(PlayerID::new(0));
    assert_eq!(solver_state.player_hand, state.player_hand);

    let mut rng = SmallRng::seed_from_u64(9);
    let full = generate_random_initial_game_state(4, &consts::DEFAULT_DALMUTI_DECK, &mut rng);
    let session = GameSession { state: SessionState::Full(full), ..session };
    let view = session.incomplete_state_for_solver(PlayerID::new(2));
    assert_eq!(view.perspective_player_number, PlayerID::new(2));
    assert_eq!(view.player_hand, *full.player_hands.get_value(PlayerID::new(2)));
    let _unused = (PlayerPlacements::new(), Trick::new());
}

fn live_session() -> GameSession {
    GameSession {
        mode: GameMode::PlayLive,
        state: SessionState::Live(live_state()),
        trick_history: Vec::new(),
        player_names: vec!["Ann".to_string(), "Bo".to_string(), "Cy".to_string(), "Di".to_string()],
        ui_player_number: 0,
        current_selected_move: None,
    }
}

#[test]
fn live_session_lists_plays_only_on_the_players_turn() {
    let mut session = live_session();
    assert!(session.available_play_moves().is_empty());
    assert!(!session.can_pass());
    session.select_next_move();
    assert_eq!(session.current_selected_move, None);

    let SessionState::Live(mut state) = session.state else { unreachable!() };
    state.current_player_number = PlayerID::new(0);
    session.state = SessionState::Live(state);
    let plays = session.available_play_moves();
    // Hand: one wild, two threes, twelve twelves; leads of every size, highest key first.
    // Fifteen ranks with a wild alone, five plays of threes, twenty-five of twelves.
    assert_eq!(plays.len(), 45);
    assert_eq!(plays[0], Move::Play(Play::new(CardRank::new(17), CardCount::new(0), CardCount::new(1))));
    assert_eq!(plays[1], Move::Play(Play::new(CardRank::new(16), CardCount::new(0), CardCount::new(1))));
    assert_eq!(plays.last(), Some(&Move::Play(Play::new(CardRank::new(1), CardCount::new(0), CardCount::new(1)))));
    assert!(plays.iter().all(|m| matches!(m, Move::Play(_))));
}

#[test]
fn selection_moves_within_the_list_of_plays() {
    let mut session = live_session();
    let SessionState::Live(mut state) = session.state else { unreachable!() };
    state.current_player_number = PlayerID::new(0);
    session.state = SessionState::Live(state);
    let count = session.available_play_moves().len();

    session.select_previous_move();
    assert_eq!(session.current_selected_move, None);
    session.select_next_move();
    assert_eq!(session.current_selected_move, Some(0));
    session.select_next_move();
    assert_eq!(session.current_selected_move, Some(1));
    assert_eq!(session.current_selected_core_move(), Some(session.available_play_moves()[1]));
    session.select_previous_move();
    session.select_previous_move();
    assert_eq!(session.current_selected_move, Some(0));
    session.current_selected_move = Some(count - 1);
    session.select_next_move();
    assert_eq!(session.current_selected_move, Some(count - 1));
    session.current_selected_move = Some(count);
    assert_eq!(session.current_selected_core_move(), None);
}

#[test]
fn applying_moves_updates_the_session_and_its_history() {
    let mut session = live_session();
    session.current_selected_move = Some(3);
    let impossible = Move::Play(Play::new(CardRank::new(12), CardCount::new(2), CardCount::new(0)));
    let result = session.apply_move(impossible);
    assert!(matches!(result, Err(SessionMoveError::Impossible(MoveCheckError::NotPossible(_)))));
    assert_eq!(session.current_player_number(), PlayerID::new(1));
    assert_eq!(session.current_selected_move, Some(3));

    let elevens = Move::Play(Play::new(CardRank::new(11), CardCount::new(3), CardCount::new(0)));
    assert_eq!(session.apply_move(elevens).ok(), Some(false));
    assert_eq!(session.current_player_number(), PlayerID::new(2));
    assert_eq!(session.current_selected_move, None);
    assert_eq!(session.trick_history.len(), 1);
    assert_eq!(session.trick_history[0].player_name, "Bo");
    assert_eq!(session.trick_history[0].player_move.rank, 11);
    assert_eq!(session.trick_history[0].player_move.num_non_wilds, 3);
    assert_eq!(session.trick_history[0].player_move.num_wilds, 0);
    assert!(session.can_pass() == false);

    // Everyone else passes: the trick is won by Bo and the history is cleared.
    assert_eq!(session.apply_move(Move::Pass).ok(), Some(false));
    assert_eq!(session.trick_history.len(), 1);
    assert_eq!(session.apply_move(Move::Pass).ok(), Some(false));
    assert_eq!(session.current_player_number(), PlayerID::new(0));
    assert!(session.can_pass());
    assert_eq!(session.apply_move(Move::Pass).ok(), Some(false));
    assert!(session.trick_history.is_empty());
    assert_eq!(session.current_player_number(), PlayerID::new(1));
}

#[test]
fn full_session_reports_rule_errors_and_finished_rounds() {
    let mut rng = SmallRng::seed_from_u64(3);
    let full = generate_random_initial_game_state(2, &consts::DEFAULT_DALMUTI_DECK, &mut rng);
    let mut session = GameSession {
        mode: GameMode::PlayComputers,
        state: SessionState::Full(full),
        trick_history: Vec::new(),
        player_names: vec!["Ann".to_string(), "Bo".to_string()],
        ui_player_number: 0,
        current_selected_move: Some(0),
    };
    let result = session.apply_move(Move::Pass);
    assert!(matches!(result, Err(SessionMoveError::Rules(_))));
    assert_eq!(session.current_selected_move, Some(0));

    let mut hands = full.player_hands;
    hands.set_value(PlayerID::new(0), hand_from_pairs(&[(5, 1)]));
    let mut placements = PlayerPlacements::new();
    placements.mark_out(PlayerID::new(1));
    let finishing = monte_cardo::game::FullInformationGameState {
        player_hands: hands,
        current_player_number: PlayerID::new(0),
        player_placements: placements,
        ..full
    };
    session.state = SessionState::Full(finishing);
    let fives = Move::Play(Play::new(CardRank::new(5), CardCount::new(1), CardCount::new(0)));
    assert_eq!(session.apply_move(fives).ok(), Some(true));
    assert_eq!(session.placement_for(PlayerID::new(0)), 2);
    assert_eq!(session.trick_history[0].player_name, "Ann");
    assert_eq!(session.current_selected_move, None);
}

#[test]
fn observed_panel_gives_the_entered_move() {
    let mut observed = ObservedMoveInputState::new();
    observed.action = ObservedAction::Pass;
    assert_eq!(current_observed_move(&observed), Some(Move::Pass));
    observed.action = ObservedAction::Play;
    observed.rank = 4;
    observed.non_wilds = 0;
    observed.wilds = 0;
    assert_eq!(current_observed_move(&observed), None);
    observed.non_wilds = 2;
    observed.wilds = 1;
    assert_eq!(
        current_observed_move(&observed),
        Some(Move::Play(Play::new(CardRank::new(4), CardCount::new(2), CardCount::new(1))))
    );
}

fn discrete_defaults() -> DiscreteSettings {
    DiscreteSettings {
        inverted_ordering: false,
        ai_suggestions_enabled: true,
        solver_enabled: true,
        full_tree_depth: 1,
        num_worlds: 20,
        puct_rollouts_per_leaf: 50,
        puct_rollout_bounds: (5, 40),
        puct_mature_node_min_visits: 16,
        puct_node_capacity: 1_000_000,
        random_seed: 42,
    }
}

#[test]
fn parse_u64_reads_seeds_beyond_the_range_of_small_numbers() {
    assert_eq!(parse_u64("18446744073709551615"), Some(u64::MAX));
    assert_eq!(parse_u64("18446744073709551616"), None);
    assert_eq!(parse_u64("+7"), Some(7));
    assert_eq!(parse_u64("-7"), None);
    assert_eq!(parse_u64(""), None);
}

#[test]
fn discrete_settings_move_within_their_ranges() {
    let mut settings = discrete_defaults();
    assert!(!SettingsField::Temperature.adjust_discrete(&mut settings, 1));
    assert_eq!(settings.num_worlds, 20);
    assert!(SettingsField::NumWorlds.adjust_discrete(&mut settings, 3));
    assert_eq!(settings.num_worlds, 35);
    SettingsField::NumWorlds.adjust_discrete(&mut settings, -100);
    assert_eq!(settings.num_worlds, 1);
    SettingsField::FullTreeDepth.adjust_discrete(&mut settings, 9);
    assert_eq!(settings.full_tree_depth, 5);
    SettingsField::PuctRolloutLowerBound.adjust_discrete(&mut settings, 100);
    assert_eq!(settings.puct_rollout_bounds, (40, 40));
    SettingsField::PuctRolloutUpperBound.adjust_discrete(&mut settings, -100);
    assert_eq!(settings.puct_rollout_bounds, (40, 40));
    SettingsField::PuctCacheSize.adjust_discrete(&mut settings, -100);
    assert_eq!(settings.puct_node_capacity, 1_000);
    SettingsField::PuctMatureNodeMinVisits.adjust_discrete(&mut settings, 2);
    assert_eq!(settings.puct_mature_node_min_visits, 32);
    SettingsField::SolverEnabled.adjust_discrete(&mut settings, -1);
    assert!(!settings.solver_enabled);
    SettingsField::AiSuggestionsEnabled.adjust_discrete(&mut settings, 0);
    assert!(settings.ai_suggestions_enabled);
    settings.random_seed = u64::MAX - 1;
    SettingsField::RandomSeed.adjust_discrete(&mut settings, 5);
    assert_eq!(settings.random_seed, u64::MAX);
    settings.random_seed = 2;
    SettingsField::RandomSeed.adjust_discrete(&mut settings, -5);
    assert_eq!(settings.random_seed, 0);
}

#[test]
fn discrete_settings_take_typed_numbers() {
    let mut settings = discrete_defaults();
    assert!(!SettingsField::Greediness.set_discrete_from_text(&mut settings, "0.5"));
    assert!(SettingsField::NumWorlds.set_discrete_from_text(&mut settings, "0"));
    assert_eq!(settings.num_worlds, 1);
    SettingsField::PuctRolloutLowerBound.set_discrete_from_text(&mut settings, "70");
    assert_eq!(settings.puct_rollout_bounds, (40, 40));
    SettingsField::PuctRolloutUpperBound.set_discrete_from_text(&mut settings, "123456");
    assert_eq!(settings.puct_rollout_bounds, (40, 10_000));
    SettingsField::PuctRolloutUpperBound.set_discrete_from_text(&mut settings, "3");
    assert_eq!(settings.puct_rollout_bounds, (40, 40));
    SettingsField::FullTreeDepth.set_discrete_from_text(&mut settings, "x");
    assert_eq!(settings.full_tree_depth, 1);
    SettingsField::RandomSeed.set_discrete_from_text(&mut settings, "9000000000");
    assert_eq!(settings.random_seed, 9_000_000_000);
    SettingsField::PuctCacheSize.set_discrete_from_text(&mut settings, "999999999");
    assert_eq!(settings.puct_node_capacity, 100_000_000);
}

#[test]
fn enter_on_a_rule_flips_a_switch_or_starts_editing() {
    let mut settings = discrete_defaults();
    let mut form = SettingsFormState::new();
    form.rules_index = 1;
    form.start_rule_editing(&mut settings, 4);
    assert!(!settings.solver_enabled);
    assert!(!form.rules_editing);
    assert_eq!(form.rules_index, 1);

    settings.solver_enabled = true;
    form.rules_index = 5;
    form.start_rule_editing(&mut settings, 4);
    assert!(form.rules_editing);
    assert!(form.rules_edit_buffer.is_empty());

    let mut form = SettingsFormState::new();
    form.rules_index = 20;
    form.start_rule_editing(&mut settings, 4);
    assert!(settings.solver_enabled);
    assert!(!form.rules_editing);
    assert_eq!(form.rules_index, 20);
}

#[test]
fn trick_history_lines_take_the_widest_layout_that_fits() {
    let entry = |wilds: u8, non_wilds: u8| TrickHistoryEntry::new("Ann".to_string(), CardMove::new(5, wilds, non_wilds));
    // Three cards: 17 columns drawn in full with a padding of two, 13 cut short, 11 with a
    // padding of one; below that the compact form.
    assert_eq!(entry(0, 3).get_render_settings(20), (5, 17, 2, false));
    assert_eq!(entry(0, 3).get_render_settings(17), (2, 17, 2, false));
    assert_eq!(entry(0, 3).get_render_settings(16), (5, 13, 2, false));
    assert_eq!(entry(0, 3).get_render_settings(12), (2, 11, 1, false));
    assert_eq!(entry(0, 3).get_render_settings(11), (1, 11, 1, false));
    assert_eq!(entry(0, 3).get_render_settings(10), (1, 10, 1, true));
    // Ten cards miss the cut-short layout by more than two columns: the compact form.
    assert_eq!(entry(2, 8).get_render_settings(30), (11, 21, 2, true));
    assert_eq!(entry(0, 10).get_render_settings(20), (10, 12, 2, true));
    assert_eq!(entry(0, 10).get_render_settings(11), (2, 10, 1, true));
    assert_eq!(entry(2, 8).get_render_settings(5), (0, 5, 0, true));
}

#[test]
fn scrolling_keeps_the_selected_row_in_view() {
    assert_eq!(scroll_offset_for_selected(3, 10, 8), 0);
    assert_eq!(scroll_offset_for_selected(3, 0, 8), 0);
    assert_eq!(scroll_offset_for_selected(2, 4, 16), 0);
    assert_eq!(scroll_offset_for_selected(7, 4, 16), 4);
    assert_eq!(scroll_offset_for_selected(40, 4, 16), 12);
    assert_eq!(scroll_offset_for_selected(usize::MAX, 4, 16), 12);
}

#[test]
fn turn_hand_raises_what_the_moves_use_and_selects_the_chosen_one() {
    let moves = vec![CardMove::new(3, 1, 2), CardMove::new(3, 0, 1), CardMove::new(7, 2, 4), CardMove::new(0, 1, 3)];
    let turn = PlayerTurnHand::new(true, [0; 18], SuggestedMove::Disabled, moves, Some(2));
    let (available, selected) = turn.card_highlights();
    assert_eq!(available[0], 3);
    assert_eq!(available[3], 2);
    assert_eq!(available[7], 4);
    assert_eq!(available[5], 0);
    assert_eq!(selected[0], 2);
    assert_eq!(selected[7], 4);
    assert_eq!(selected[3], 0);
    let turn = PlayerTurnHand::new(true, [0; 18], SuggestedMove::Disabled, vec![CardMove::new(4, 1, 1)], None);
    assert_eq!(turn.card_highlights().1, [0; 18]);
}

#[test]
fn live_game_widget_shows_the_stated_hand_sizes() {
    let state = live_state();
    let names = vec!["Ann".to_string(), "Bo".to_string(), "Cy".to_string(), "Di".to_string()];
    let view = build_incomplete_game_widget(0, None, None, &state, &[], &names);
    assert_eq!(view.players.players.len(), 4);
    assert_eq!(view.players.players[1].hand_size, 22);
    assert_eq!(view.players.players[3].hand_size, 21);
    assert_eq!(view.players.players[1].state, PlayerState::Active);
    assert_eq!(view.players.players[0].hand_size, 15);
    assert!(matches!(view.table.current_player, TablePlayer::Other(ref name) if name == "Bo"));
    assert!(matches!(view.player_hand, HandView::NotPlayerTurn(bytes) if bytes[12] == 12 && bytes[3] == 2 && bytes[0] == 1));
}

fn computer_session(current_player: usize) -> GameSession {
    let mut rng = SmallRng::seed_from_u64(31);
    let mut state = generate_random_initial_game_state(4, &consts::DEFAULT_DALMUTI_DECK, &mut rng);
    state.current_player_number = PlayerID::new(current_player);
    GameSession {
        mode: GameMode::PlayComputers,
        state: SessionState::Full(state),
        trick_history: Vec::new(),
        player_names: vec!["A".to_string(); 4],
        ui_player_number: 0,
        current_selected_move: None,
    }
}

#[test]
fn solver_is_asked_for_suggestions_and_computer_moves() {
    let own_turn = computer_session(0);
    assert_eq!(
        solver_request_plan(&own_turn, true, false, true, true, false),
        Some((SolverPurpose::Suggestion, PlayerID::new(0)))
    );
    assert_eq!(solver_request_plan(&own_turn, true, false, true, true, true), None);
    let computer_turn = computer_session(2);
    assert_eq!(
        solver_request_plan(&computer_turn, true, false, true, true, true),
        Some((SolverPurpose::AiMove, PlayerID::new(2)))
    );
}

#[test]
fn solver_is_not_asked_off_screen_while_pending_or_when_disabled() {
    let computer_turn = computer_session(1);
    assert_eq!(solver_request_plan(&computer_turn, false, false, true, true, false), None);
    assert_eq!(solver_request_plan(&computer_turn, true, true, true, true, false), None);
    assert_eq!(solver_request_plan(&computer_turn, true, false, false, true, false), None);
    assert_eq!(solver_request_plan(&computer_turn, true, false, true, false, false), None);
}

#[test]
fn live_games_only_ask_for_the_players_suggestions() {
    let mut session = live_session();
    if let SessionState::Live(state) = &mut session.state {
        state.current_player_number = PlayerID::new(1);
    }
    assert_eq!(solver_request_plan(&session, true, false, true, true, false), None);
    if let SessionState::Live(state) = &mut session.state {
        state.current_player_number = PlayerID::new(0);
    }
    assert_eq!(
        solver_request_plan(&session, true, false, true, true, false),
        Some((SolverPurpose::Suggestion, PlayerID::new(0)))
    );
    assert_eq!(solver_request_plan(&session, true, false, true, true, true), None);
}

#[test]
fn live_setup_checks_come_before_the_card_count_limits() {
    let mut deck = [0usize; consts::MAX_CARD_ORDINALITY];
    deck[5] = 99;
    let hand = PlayerHand::empty();
    let sizes = [0, 99, 0, 0, 0, 0, 0, 0, 0, 0, 0, 0, 0, 0, 0, 0];
    assert!(live_counts_fit_check(&deck, 1, &hand, &sizes, PlayerID::new(0), PlayerID::new(0)));
    assert_eq!(
        create_initial_live_incomplete_state(&deck, 1, hand, sizes, PlayerID::new(0), PlayerID::new(0)).err(),
        Some(LiveSetupError::InvalidNumberOfPlayers(1))
    );
    assert!(live_counts_fit_check(&deck, 2, &hand, &sizes, PlayerID::new(0), PlayerID::new(3)));
    assert_eq!(
        create_initial_live_incomplete_state(&deck, 2, hand, sizes, PlayerID::new(0), PlayerID::new(3)).err(),
        Some(LiveSetupError::StartingPlayerOutOfRange)
    );
    // With the seats in range, 99 unseen cards of one rank are more than a card count holds.
    assert!(!live_counts_fit_check(&deck, 2, &hand, &sizes, PlayerID::new(0), PlayerID::new(1)));
}

#[test]
fn live_setup_hand_sizes_are_limited_only_once_every_check_passes() {
    let mut deck = [0usize; consts::MAX_CARD_ORDINALITY];
    deck[3] = 20;
    deck[4] = 20;
    let hand = PlayerHand::empty();
    let mismatched = [0, 50, 0, 0, 0, 0, 0, 0, 0, 0, 0, 0, 0, 0, 0, 0];
    assert!(live_counts_fit_check(&deck, 2, &hand, &mismatched, PlayerID::new(0), PlayerID::new(0)));
    assert_eq!(
        create_initial_live_incomplete_state(&deck, 2, hand, mismatched, PlayerID::new(0), PlayerID::new(0)).err(),
        Some(LiveSetupError::HandSizesDoNotMatchDeck { hand_sizes: 50, deck: 40 })
    );
    let too_many = [0, 40, 0, 0, 0, 0, 0, 0, 0, 0, 0, 0, 0, 0, 0, 0];
    assert!(!live_counts_fit_check(&deck, 2, &hand, &too_many, PlayerID::new(0), PlayerID::new(0)));
    assert!(live_counts_fit_check(&deck, 3, &hand, &[0, 20, 20, 0, 0, 0, 0, 0, 0, 0, 0, 0, 0, 0, 0, 0], PlayerID::new(0), PlayerID::new(0)));
}
