use vstd::prelude::*;

verus! {

/// The largest number of players a game can have.
pub const MAX_PLAYERS: usize = 16;

/// The number of different ranks a card can have (rank 0 is the wild rank).
pub const MAX_CARD_ORDINALITY: usize = 18;

/// The largest number of cards of one rank that a deck can hold.
pub const MAX_CARD_NUMBER: usize = 18;

/// The deck of "The Great Dalmuti": the first entry counts the wilds (jesters).
pub const DEFAULT_DALMUTI_DECK: [usize; 18] = [2, 1, 2, 3, 4, 5, 6, 7, 8, 9, 10, 11, 12, 0, 0, 0, 0, 0];

/// The deck of "Scum".
pub const DEFAULT_SCUM_DECK: [usize; 18] = [2, 4, 4, 4, 4, 4, 4, 4, 4, 4, 4, 4, 4, 4, 0, 0, 0, 0];

} // verus!
