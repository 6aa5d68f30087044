pub mod actions;
pub mod errors;
pub mod naive;
pub mod normalize;
pub mod worlds;
pub mod zobrist;

pub use actions::{ActionMask, MoveID, MoveIDError, NUM_ACTIONS};
pub use errors::EvaluationError;
pub use naive::NaiveHeuristic;
pub use normalize::{
    left_rotate_array, normalize_incomplete_information_state, NormalizationError,
    NormalizedIncompleteInformation, RankCompressed, RankCompressible,
    RankCompressionMap,
};
pub use worlds::{sample_possible_world, sample_possible_worlds, unseen_cards_fit};
pub use zobrist::{ZobristHash, ZobristTable};
