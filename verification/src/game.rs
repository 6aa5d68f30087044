pub mod actions;
pub mod collections;
pub mod primitives;
pub mod state;
pub mod views;

pub use actions::{Move, Play, TopSet, Trick};
pub use collections::{HandSizes, PlayerHand, PlayerIndexed, PlayerPlacements};
pub use primitives::{CardCount, CardRank, PlayerID, MAX_TOTAL_PLAY};
pub use state::{
    create_incomplete_information_game_state, generate_random_initial_game_state,
    FullInformationGameState, IncompleteInformationGameState,
};
pub mod rules;
pub use rules::{
    all_players_have_passed, update_full_information_game_state,
    get_available_moves, update_incomplete_information_game_state, GameLogicError,
};
