use vstd::prelude::*;

verus! {

/// A face-down pile of `size` cards.
pub struct CardPile {
    pub size: u16,
}

impl CardPile {
    pub fn new(size: u16) -> (pile: Self)
        ensures
            pile.size == size,
    {
        CardPile { size }
    }
}

/// How a seat is shown: in play, out, to move, holding the top set (in play or out), or passed.
#[derive(Debug, Clone, Copy, PartialEq, Structural)]
pub enum PlayerState {
    Normal,
    NormalOut,
    Active,
    Leading,
    LeadingOut,
    Passed,
}

/// A seat as it is shown: its name, its state and its number of cards.
#[derive(Debug, Clone)]
pub struct Player {
    pub name: String,
    pub state: PlayerState,
    pub hand_size: u16,
}

impl Player {
    pub fn new(name: String, state: PlayerState, hand_size: u16) -> (player: Self)
        ensures
            player.name == name,
            player.state == state,
            player.hand_size == hand_size,
    {
        Player { name, state, hand_size }
    }
}

/// All the seats, in order.
#[derive(Debug, Clone)]
pub struct Players {
    pub players: Vec<Player>,
}

impl Players {
    pub fn new(players: Vec<Player>) -> (all: Self)
        ensures
            all.players == players,
    {
        Players { players }
    }
}

} // verus!
