use vstd::prelude::*;

use crate::eval::actions::MoveIDError;
use crate::eval::normalize::NormalizationError;
use crate::game::rules::GameLogicError;

verus! {

/// Why an evaluation of a state could not be made.
#[derive(Debug)]
pub enum EvaluationError {
    /// The state to evaluate offers no legal move.
    NoValidActions,
    /// A move could not be turned into an action number or back.
    MoveIDError(MoveIDError),
    /// The rules refused a move during the search.
    GameLogicError(GameLogicError),
    /// A rollout of the search did not reach the end of the game.
    RolloutError,
    /// The state could not be normalized.
    NormalizationError(NormalizationError),
}

} // verus!
