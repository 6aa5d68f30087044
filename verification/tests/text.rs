use monte_cardo::eval::{NormalizationError, RankCompressed, RankCompressionMap};
use monte_cardo::formatting::{card_rank_text, decimal_text};
use monte_cardo::game::{CardCount, CardRank, PlayerHand};
use monte_cardo::ui::cards::{Card, Move};
use monte_cardo::ui::live_widgets::{ObservedAction, ObservedMoveFocus, ObservedMoveInputState};
use monte_cardo::ui::settings::{DiscreteSettings, SettingsField};
use monte_cardo::ui::table::{Player, TopSet};
use monte_cardo::ui::text::{
    count_text, lead_message, observed_move_controls, opening_message, rank_word, textify_move,
    turn_message,
};

#[test]
fn numbers_are_written_in_decimal() {
    assert_eq!(decimal_text(0), "0");
    assert_eq!(decimal_text(7), "7");
    assert_eq!(decimal_text(10), "10");
    assert_eq!(decimal_text(1234), "1234");
    assert_eq!(decimal_text(u64::MAX), u64::MAX.to_string());
}

#[test]
fn moves_read_as_wilds_and_ranks() {
    assert_eq!(textify_move(Move::new(5, 1, 3)), "1 wild and 3 fives");
    assert_eq!(textify_move(Move::new(12, 0, 1)), "0 wild and 1 twelve");
    assert_eq!(textify_move(Move::new(1, 2, 2)), "2 wilds and 2 ones");
    assert_eq!(textify_move(Move::new(18, 1, 1)), "1 wild and 1 eighteen");
}

#[test]
fn jokers_read_as_jokers() {
    assert_eq!(textify_move(Move::new(0, 1, 0)), "1 joker");
    assert_eq!(textify_move(Move::new(0, 2, 0)), "2 jokers");
}

#[test]
fn rank_words_cover_every_rank() {
    assert_eq!(rank_word(0), "joker");
    assert_eq!(rank_word(1), "one");
    assert_eq!(rank_word(11), "eleven");
    assert_eq!(rank_word(18), "eighteen");
}

#[test]
fn count_text_shows_the_typed_text_while_editing() {
    assert_eq!(count_text(42, false, "7"), "42");
    assert_eq!(count_text(42, true, ""), "42▌");
    assert_eq!(count_text(42, true, "7"), "7▌");
    assert_eq!(count_text(0, false, ""), "0");
}

#[test]
fn observed_move_controls_follow_the_focus() {
    let mut state = ObservedMoveInputState::new();
    assert_eq!(observed_move_controls(&state), "←/→ move type    ↓ play info    ↑ confirm");
    state.action = ObservedAction::Pass;
    assert_eq!(observed_move_controls(&state), "←/→ move type    ↓ confirm    ↑ confirm");
    state.focus = ObservedMoveFocus::Wilds;
    assert_eq!(observed_move_controls(&state), "←/→ field    Enter edit    ↑ move type    ↓ confirm");
    state.focus = ObservedMoveFocus::Submit;
    assert_eq!(observed_move_controls(&state), "Enter confirm    ↑ move info    ↓ move type");
    state.editing_count = true;
    assert_eq!(observed_move_controls(&state), "Type value    ↑/→ +1    ↓/← -1    Enter/Esc finish");
}

#[test]
fn lead_message_counts_every_card_of_the_top_set() {
    let mine = TopSet::new(Move::new(3, 1, 2), Player::PerspectivePlayer);
    assert_eq!(lead_message(&mine), "You are leading the trick with 3 threes");
    let theirs = TopSet::new(Move::new(0, 2, 0), Player::Other("Bob".to_string()));
    assert_eq!(lead_message(&theirs), "Bob is leading the trick with 2 jokers");
    let single = TopSet::new(Move::new(9, 0, 1), Player::Other("Ann".to_string()));
    assert_eq!(lead_message(&single), "Ann is leading the trick with 1 nine");
}

#[test]
fn turn_messages_use_the_possessive() {
    assert_eq!(turn_message(&Player::PerspectivePlayer), "Your Turn");
    assert_eq!(turn_message(&Player::Other("Ann".to_string())), "Ann's Turn");
    assert_eq!(turn_message(&Player::Other("James".to_string())), "James' Turn");
    assert_eq!(turn_message(&Player::Other(String::new())), "'s Turn");
    assert_eq!(opening_message(&Player::PerspectivePlayer), "Your move to start the trick");
    assert_eq!(opening_message(&Player::Other("Chris".to_string())), "Chris' move to start the trick");
    assert_eq!(opening_message(&Player::Other("Bo".to_string())), "Bo's move to start the trick");
}

#[test]
fn card_faces_show_the_rank_in_two_corners() {
    let joker = Card::new(0, false).construct_full_card_lines();
    assert_eq!(joker, vec!["╭─────╮", "│J    │", "│  ⬦  │", "│    J│", "╰─────╯"]);
    let twelve = Card::new(12, true).construct_full_card_lines();
    assert_eq!(twelve, vec!["╭─────╮", "│12   │", "│  ⬦  │", "│   12│", "╰─────╯"]);
}

#[test]
fn rank_debug_text_matches_debug() {
    assert_eq!(card_rank_text(3), "CardRank(3)");
    assert_eq!(card_rank_text(17), format!("{:?}", CardRank::new(17)));
}

#[test]
fn rank_compression_errors_name_the_rank() {
    let mut hand = PlayerHand::empty();
    hand.set_count(CardRank::new(2), CardCount::new(1));
    let map = RankCompressionMap::from_hands_and_top_set(&hand, &PlayerHand::empty(), &None);
    match map.compress_rank(CardRank::new(5)) {
        Err(NormalizationError::RankCompressionError(message)) => {
            assert_eq!(message, "Attempted to compress CardRank: CardRank(5) which is not in map!")
        }
        other => panic!("unexpected {:?}", other.map(|c| *c.inner())),
    }
    match map.decompress_rank(&RankCompressed::new_unchecked(CardRank::new(9))) {
        Err(NormalizationError::RankDecompressionError(message)) => {
            assert_eq!(message, "Attempted to decompress CardRank: CardRank(9) which is not in map!")
        }
        other => panic!("unexpected {:?}", other),
    }
}

#[test]
fn missing_player_names_get_default_names() {
    let mut names = vec!["Ann".to_string(), "Bob".to_string()];
    monte_cardo::ui::settings::ensure_player_names(&mut names);
    assert_eq!(names.len(), monte_cardo::consts::MAX_PLAYERS);
    assert_eq!(names[0], "Ann");
    assert_eq!(names[1], "Bob");
    assert_eq!(names[2], "Player 3");
    assert_eq!(names[15], "Player 16");
    let mut full: Vec<String> = (0..20).map(|i| format!("Seat {i}")).collect();
    monte_cardo::ui::settings::ensure_player_names(&mut full);
    assert_eq!(full.len(), 20);
    assert_eq!(full[19], "Seat 19");
}

#[test]
fn discrete_settings_read_as_switches_and_numbers() {
    let settings = DiscreteSettings {
        inverted_ordering: true,
        ai_suggestions_enabled: false,
        solver_enabled: true,
        full_tree_depth: 2,
        num_worlds: 30,
        puct_rollouts_per_leaf: 4,
        puct_rollout_bounds: (5, 60),
        puct_mature_node_min_visits: 7,
        puct_node_capacity: 100_000,
        random_seed: 12345678901234,
    };
    assert_eq!(SettingsField::InvertedOrdering.discrete_value(&settings).as_deref(), Some("Enabled"));
    assert_eq!(SettingsField::AiSuggestionsEnabled.discrete_value(&settings).as_deref(), Some("Disabled"));
    assert_eq!(SettingsField::SolverEnabled.discrete_value(&settings).as_deref(), Some("Enabled"));
    assert_eq!(SettingsField::Temperature.discrete_value(&settings), None);
    assert_eq!(SettingsField::Greediness.discrete_value(&settings), None);
    assert_eq!(SettingsField::ExplorationFactor.discrete_value(&settings), None);
    assert_eq!(SettingsField::FullTreeDepth.discrete_value(&settings).as_deref(), Some("2"));
    assert_eq!(SettingsField::NumWorlds.discrete_value(&settings).as_deref(), Some("30"));
    assert_eq!(SettingsField::PuctRolloutsPerLeaf.discrete_value(&settings).as_deref(), Some("4"));
    assert_eq!(SettingsField::PuctRolloutLowerBound.discrete_value(&settings).as_deref(), Some("5"));
    assert_eq!(SettingsField::PuctRolloutUpperBound.discrete_value(&settings).as_deref(), Some("60"));
    assert_eq!(SettingsField::PuctMatureNodeMinVisits.discrete_value(&settings).as_deref(), Some("7"));
    assert_eq!(SettingsField::PuctCacheSize.discrete_value(&settings).as_deref(), Some("100000"));
    assert_eq!(SettingsField::RandomSeed.discrete_value(&settings).as_deref(), Some("12345678901234"));
}
