use vstd::prelude::*;

use crate::consts::MAX_CARD_ORDINALITY;

verus! {

/// One card face: its rank, and whether it is greyed out.
pub struct Card {
    pub rank: u8,
    pub deactivated: bool,
}

impl Card {
    pub fn new(rank: u8, deactivated: bool) -> (card: Self)
        ensures
            card.rank == rank,
            card.deactivated == deactivated,
    {
        Self { rank, deactivated }
    }
}

/// A move as it is drawn: its rank and how many wilds and non-wilds it uses.
#[derive(Debug, Clone, Copy)]
pub struct Move {
    pub rank: u8,
    pub num_wilds: u8,
    pub num_non_wilds: u8,
}

impl Move {
    pub fn new(rank: u8, num_wilds: u8, num_non_wilds: u8) -> (card_move: Self)
        ensures
            card_move.rank == rank,
            card_move.num_wilds == num_wilds,
            card_move.num_non_wilds == num_non_wilds,
    {
        Self { rank, num_wilds, num_non_wilds }
    }
}

/// How a trick history line of `num_wilds` wilds and `num_non_wilds` non-wilds fits in a width
/// of `available`: `(x_start, width, padding, alternate)`. The layouts are tried in order and the
/// first that fits is taken: the cards drawn side by side, the last one in full, with a padding
/// of two; the same with the last card cut short; when that misses by at most two columns, with a
/// padding of one; then the compact form (one card per kind with its count) with a padding of
/// two, and of one. When none fits, the compact form takes the whole width without padding. The
/// line is right aligned: it starts `padding` columns after the room it leaves free.
pub open spec fn spec_render_settings(num_wilds: int, num_non_wilds: int, available: int) -> (u16, u16, u16, bool) {
    let n = num_wilds + num_non_wilds;
    let compact = if num_wilds > 0 && num_non_wilds > 0 { 17int } else { 8int };
    if 3 * n + 8 <= available {
        ((available - (3 * n + 8) + 2) as u16, (3 * n + 8) as u16, 2, false)
    } else if 3 * n + 4 <= available {
        ((available - (3 * n + 4) + 2) as u16, (3 * n + 4) as u16, 2, false)
    } else if 3 * n + 4 - available <= 2 && 3 * n + 2 <= available {
        ((available - (3 * n + 2) + 1) as u16, (3 * n + 2) as u16, 1, false)
    } else if compact + 4 <= available {
        ((available - (compact + 4) + 2) as u16, (compact + 4) as u16, 2, true)
    } else if compact + 2 <= available {
        ((available - (compact + 2) + 1) as u16, (compact + 2) as u16, 1, true)
    } else {
        (0, available as u16, 0, true)
    }
}

/// One line of the trick history: who played what.
#[derive(Debug)]
pub struct TrickHistoryEntry {
    pub player_name: String,
    pub player_move: Move,
}

impl Clone for TrickHistoryEntry {
    fn clone(&self) -> (copy: Self)
        ensures
            copy == *self,
    {
        TrickHistoryEntry { player_name: self.player_name.clone(), player_move: self.player_move }
    }
}

impl TrickHistoryEntry {
    /// Where and how wide the move of this line is drawn in `available_renderable_width`
    /// columns, with its padding and whether it takes the compact form: see
    /// `spec_render_settings`.
    pub fn get_render_settings(&self, available_renderable_width: u16) -> (settings: (u16, u16, u16, bool))
        requires
            self.player_move.num_wilds + self.player_move.num_non_wilds <= u8::MAX,
        ensures
            settings == spec_render_settings(
                self.player_move.num_wilds as int,
                self.player_move.num_non_wilds as int,
                available_renderable_width as int,
            ),
    {
        let available = available_renderable_width;
        let num_cards = (self.player_move.num_wilds + self.player_move.num_non_wilds) as u16;
        let compact: u16 = if self.player_move.num_wilds > 0 && self.player_move.num_non_wilds > 0 { 17 } else { 8 };
        let full = num_cards * 3 + 8;
        let narrow = num_cards * 3 + 4;
        if full <= available {
            (available - full + 2, full, 2, false)
        } else if narrow <= available {
            (available - narrow + 2, narrow, 2, false)
        } else if narrow - available <= 2 && narrow - 2 <= available {
            (available - (narrow - 2) + 1, narrow - 2, 1, false)
        } else if compact + 4 <= available {
            (available - (compact + 4) + 2, compact + 4, 2, true)
        } else if compact + 2 <= available {
            (available - (compact + 2) + 1, compact + 2, 1, true)
        } else {
            (0, available, 0, true)
        }
    }

    pub fn new(player_name: String, player_move: Move) -> (entry: Self)
        ensures
            entry.player_name == player_name,
            entry.player_move == player_move,
    {
        Self { player_name, player_move }
    }
}

/// The moves of the current trick, the latest first.
#[derive(Debug, Clone)]
pub struct TrickHistory {
    pub player_moves: Vec<TrickHistoryEntry>,
}

impl TrickHistory {
    pub fn new(player_moves: Vec<TrickHistoryEntry>) -> (history: Self)
        ensures
            history.player_moves == player_moves,
    {
        Self { player_moves }
    }
}

/// A hand as it is drawn: how many cards of each rank it has, how many of them can be played
/// and how many are selected.
pub struct Hand {
    pub cards: [u8; MAX_CARD_ORDINALITY],
    pub active: [u8; MAX_CARD_ORDINALITY],
    pub selected: [u8; MAX_CARD_ORDINALITY],
}

impl Hand {
    pub fn new(
        cards: [u8; MAX_CARD_ORDINALITY],
        active: [u8; MAX_CARD_ORDINALITY],
        selected: [u8; MAX_CARD_ORDINALITY],
    ) -> (hand: Self)
        ensures
            hand.cards == cards,
            hand.active == active,
            hand.selected == selected,
    {
        Self { cards, active, selected }
    }
}

} // verus!
