use vstd::prelude::*;

use crate::consts::MAX_CARD_ORDINALITY;
use crate::ui::cards::Move;

verus! {

/// A move the solver suggests: a play or a pass.
#[derive(Debug, Clone)]
pub enum MoveSuggestion {
    Move(Move),
    Pass,
}

/// The solver's suggestion, or none when suggestions are off.
#[derive(Debug, Clone)]
pub enum SuggestedMove {
    Suggestion(MoveSuggestion),
    Disabled,
}

/// The perspective player's hand on their turn: whether they may pass, their cards, the
/// suggestion, the moves they can make and the one selected.
#[derive(Debug, Clone)]
pub struct PlayerTurnHand {
    pub can_pass: bool,
    pub hand: [u8; MAX_CARD_ORDINALITY],
    pub suggested_move: SuggestedMove,
    pub available_moves: Vec<Move>,
    pub currently_selected: Option<usize>,
}

impl PlayerTurnHand {
    pub fn new(
        can_pass: bool,
        hand: [u8; MAX_CARD_ORDINALITY],
        suggested_move: SuggestedMove,
        available_moves: Vec<Move>,
        currently_selected: Option<usize>,
    ) -> (turn_hand: Self)
        ensures
            turn_hand.can_pass == can_pass,
            turn_hand.hand == hand,
            turn_hand.suggested_move == suggested_move,
            turn_hand.available_moves == available_moves,
            turn_hand.currently_selected == currently_selected,
    {
        PlayerTurnHand { can_pass, hand, suggested_move, available_moves, currently_selected }
    }

    /// How many cards of each rank to draw raised and how many to draw selected: a rank is
    /// raised as far as the largest use any available move makes of it (the wilds by their
    /// count, the rank of a move by its non-wilds), and the selected move's cards are selected.
    pub fn card_highlights(&self) -> (highlights: ([u8; MAX_CARD_ORDINALITY], [u8; MAX_CARD_ORDINALITY]))
        requires
            forall|i: int| 0 <= i < self.available_moves@.len() ==> (#[trigger] self.available_moves@[i]).rank < MAX_CARD_ORDINALITY,
            self.currently_selected matches Some(index) ==> index < self.available_moves@.len(),
        ensures
            forall|r: int| 0 <= r < MAX_CARD_ORDINALITY ==> #[trigger] highlights.0@[r] == spec_most_used(self.available_moves@, r),
            forall|r: int| 0 <= r < MAX_CARD_ORDINALITY ==> #[trigger] highlights.1@[r] == match self.currently_selected {
                Some(index) => move_use(self.available_moves@[index as int], r),
                None => 0,
            },
    {
        let mut available: [u8; MAX_CARD_ORDINALITY] = [0; MAX_CARD_ORDINALITY];
        let mut i: usize = 0;
        while i < self.available_moves.len()
            invariant
                i <= self.available_moves@.len(),
                forall|k: int| 0 <= k < self.available_moves@.len() ==> (#[trigger] self.available_moves@[k]).rank < MAX_CARD_ORDINALITY,
                forall|r: int| 0 <= r < MAX_CARD_ORDINALITY ==> #[trigger] available@[r] == spec_most_used(self.available_moves@.take(i as int), r),
            decreases self.available_moves@.len() - i,
        {
            let move_option = self.available_moves[i];
            let rank = move_option.rank as usize;
            let ghost before = available@;
            if move_option.num_wilds > available[0] {
                available[0] = move_option.num_wilds;
            }
            if move_option.num_non_wilds > available[rank] {
                available[rank] = move_option.num_non_wilds;
            }
            proof {
                let prefix = self.available_moves@.take(i as int + 1);
                assert(prefix.drop_last() =~= self.available_moves@.take(i as int));
                assert(prefix.last() == move_option);
                assert forall|r: int| 0 <= r < MAX_CARD_ORDINALITY implies #[trigger] available@[r] == spec_most_used(prefix, r) by {
                    assert(before[r] == spec_most_used(self.available_moves@.take(i as int), r));
                }
            }
            i = i + 1;
        }
        proof {
            assert(self.available_moves@.take(self.available_moves@.len() as int) =~= self.available_moves@);
        }
        let mut selected: [u8; MAX_CARD_ORDINALITY] = [0; MAX_CARD_ORDINALITY];
        if let Some(index) = self.currently_selected {
            let move_option = self.available_moves[index];
            let rank = move_option.rank as usize;
            selected[0] = move_option.num_wilds;
            if move_option.num_non_wilds > selected[rank] {
                selected[rank] = move_option.num_non_wilds;
            }
        }
        (available, selected)
    }
}

/// The number of cards of rank `r` that the move `m` shows: its wilds for the wild rank, its
/// non-wilds for its own rank, the larger of the two when both apply.
pub open spec fn move_use(m: Move, r: int) -> u8 {
    let wilds: u8 = if r == 0 { m.num_wilds } else { 0 };
    let non_wilds: u8 = if m.rank == r { m.num_non_wilds } else { 0 };
    if wilds > non_wilds { wilds } else { non_wilds }
}

/// The largest number of cards of rank `r` that any of `moves` shows.
pub open spec fn spec_most_used(moves: Seq<Move>, r: int) -> u8
    decreases moves.len(),
{
    if moves.len() == 0 {
        0
    } else {
        let rest = spec_most_used(moves.drop_last(), r);
        let last = move_use(moves.last(), r);
        if rest > last { rest } else { last }
    }
}

/// The perspective player's hand: with the moves on their turn, or just the cards otherwise.
#[derive(Debug, Clone)]
pub enum PlayerHand {
    CurrentTurn(PlayerTurnHand),
    NotPlayerTurn([u8; MAX_CARD_ORDINALITY]),
}

} // verus!
