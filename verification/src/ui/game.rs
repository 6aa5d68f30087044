use vstd::prelude::*;

use crate::ui::cards::TrickHistory;
use crate::ui::hand::PlayerHand;
use crate::ui::players::Players;
use crate::ui::table::Table;

verus! {

/// Everything the game screen shows: the seats, the table, the trick history and the hand.
#[derive(Debug, Clone)]
pub struct GameState {
    pub players: Players,
    pub table: Table,
    pub trick_history: TrickHistory,
    pub player_hand: PlayerHand,
}

impl GameState {
    pub fn new(players: Players, table: Table, trick_history: TrickHistory, player_hand: PlayerHand) -> (view: Self)
        ensures
            view.players == players,
            view.table == table,
            view.trick_history == trick_history,
            view.player_hand == player_hand,
    {
        GameState { players, table, trick_history, player_hand }
    }
}

} // verus!
