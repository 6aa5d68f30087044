use vstd::prelude::*;

use crate::consts::MAX_PLAYERS;
use crate::game::primitives::PlayerID;
use crate::ui::app::GameSession;
use crate::ui::settings::GameMode;

verus! {

/// What a request to the solver is for: a suggestion to the player, or the move of a
/// computer player.
#[derive(Debug, Clone, Copy, PartialEq, Eq, Structural)]
pub enum SolverPurpose {
    Suggestion,
    AiMove,
}

/// When the solver is to be asked, what for and from whose view. Nothing is asked off the game
/// screen, while a request is pending, or when the solver or the suggestions are switched off.
/// Against the computer, the player to move is suggested a move (unless a suggestion is already
/// shown) and a computer player to move gets its move; in a live game only the player is
/// suggested moves, on their turn and when none is shown. A suggestion is computed from the
/// player's view, a computer's move from that computer's.
pub open spec fn spec_solver_request_plan(
    session: GameSession,
    playing: bool,
    request_pending: bool,
    solver_enabled: bool,
    suggestions_enabled: bool,
    has_action_values: bool,
) -> Option<(SolverPurpose, PlayerID)> {
    let current = session.spec_current_player();
    let own_turn = current.0 == session.ui_player_number;
    if !playing || request_pending || !solver_enabled || !suggestions_enabled {
        None
    } else {
        match session.mode {
            GameMode::PlayComputers => if own_turn {
                if has_action_values {
                    None
                } else {
                    Some((SolverPurpose::Suggestion, PlayerID(session.ui_player_number)))
                }
            } else {
                Some((SolverPurpose::AiMove, current))
            },
            GameMode::PlayLive => if !own_turn || has_action_values {
                None
            } else {
                Some((SolverPurpose::Suggestion, PlayerID(session.ui_player_number)))
            },
        }
    }
}

/// In a game against the computer, on screen with nothing pending and the solver on, a
/// computer player to move always gets a request for its move from its own view, whatever
/// suggestion values are shown; a request for a computer's move is made in no other case,
/// and no request at all is made off screen, while one is pending, or with the solver off.
pub proof fn law_computer_to_move_gets_its_move(
    session: GameSession,
    playing: bool,
    request_pending: bool,
    solver_enabled: bool,
    suggestions_enabled: bool,
    has_action_values: bool,
)
    ensures
        (playing && !request_pending && solver_enabled && suggestions_enabled && session.mode == GameMode::PlayComputers
            && session.spec_current_player().0 != session.ui_player_number)
            ==> spec_solver_request_plan(session, playing, request_pending, solver_enabled, suggestions_enabled, has_action_values)
                == Some((SolverPurpose::AiMove, session.spec_current_player())),
        spec_solver_request_plan(session, playing, request_pending, solver_enabled, suggestions_enabled, has_action_values)
            matches Some((purpose, player)) ==> (purpose == SolverPurpose::AiMove
                ==> session.mode == GameMode::PlayComputers && player == session.spec_current_player()
                    && player.0 != session.ui_player_number),
        spec_solver_request_plan(session, playing, request_pending, solver_enabled, suggestions_enabled, has_action_values) is Some
            ==> playing && !request_pending && solver_enabled && suggestions_enabled,
{
}

/// When the solver is to be asked, what for and from whose view; see
/// `spec_solver_request_plan`.
pub fn solver_request_plan(
    session: &GameSession,
    playing: bool,
    request_pending: bool,
    solver_enabled: bool,
    suggestions_enabled: bool,
    has_action_values: bool,
) -> (plan: Option<(SolverPurpose, PlayerID)>)
    requires
        session.ui_player_number < MAX_PLAYERS,
    ensures
        plan == spec_solver_request_plan(
            *session,
            playing,
            request_pending,
            solver_enabled,
            suggestions_enabled,
            has_action_values,
        ),
        (playing && !request_pending && solver_enabled && suggestions_enabled && session.mode == GameMode::PlayComputers
            && session.spec_current_player().0 != session.ui_player_number)
            ==> plan == Some((SolverPurpose::AiMove, session.spec_current_player())),
{
    proof {
        law_computer_to_move_gets_its_move(*session, playing, request_pending, solver_enabled, suggestions_enabled, has_action_values);
    }
    if !playing || request_pending || !solver_enabled || !suggestions_enabled {
        return None;
    }
    let current = session.current_player_number();
    let ui_player = PlayerID::new(session.ui_player_number);
    let own_turn = current.0 == session.ui_player_number;
    match session.mode {
        GameMode::PlayComputers => {
            if own_turn {
                if has_action_values {
                    None
                } else {
                    Some((SolverPurpose::Suggestion, ui_player))
                }
            } else {
                Some((SolverPurpose::AiMove, current))
            }
        },
        GameMode::PlayLive => {
            if !own_turn || has_action_values {
                None
            } else {
                Some((SolverPurpose::Suggestion, ui_player))
            }
        },
    }
}

} // verus!
