use vstd::prelude::*;

use crate::consts::{MAX_CARD_ORDINALITY, MAX_PLAYERS};
use crate::game::collections::PlayerIndexed;
use crate::game::primitives::{CardCount, CardRank, PlayerID, MAX_TOTAL_PLAY};

verus! {

/// Cards laid down together: `num_non_wilds` cards of `rank` helped by `num_wilds` wilds.
#[derive(Debug, Clone, Copy, PartialEq, Eq, Structural, Hash)]
pub struct Play {
    pub rank: CardRank,
    pub num_non_wilds: CardCount,
    pub num_wilds: CardCount,
}

impl Play {
    /// A legal play: a non-wild rank, at least one card, at most `MAX_TOTAL_PLAY` cards.
    pub open spec fn wf(self) -> bool {
        &&& self.rank.wf()
        &&& self.rank.0 != 0
        &&& self.num_non_wilds.0 + self.num_wilds.0 > 0
        &&& self.num_non_wilds.0 + self.num_wilds.0 <= MAX_TOTAL_PLAY
    }

    /// The number of cards in the play.
    pub open spec fn total(self) -> nat {
        (self.num_non_wilds.0 + self.num_wilds.0) as nat
    }

    pub fn new(rank: CardRank, num_non_wilds: CardCount, num_wilds: CardCount) -> (play: Play)
        requires
            rank.wf(),
            rank.0 != 0,
            num_non_wilds.0 + num_wilds.0 > 0,
            num_non_wilds.0 + num_wilds.0 <= MAX_TOTAL_PLAY,
        ensures
            play == (Play { rank, num_non_wilds, num_wilds }),
            play.wf(),
    {
        Play { rank, num_non_wilds, num_wilds }
    }

    pub fn total_count(self) -> (total: CardCount)
        requires
            self.num_non_wilds.0 + self.num_wilds.0 <= MAX_TOTAL_PLAY,
        ensures
            total.0 == self.total(),
            total.wf(),
    {
        CardCount(self.num_non_wilds.0 + self.num_wilds.0)
    }
}

/// What a player does on their turn.
#[derive(Debug, Clone, Copy, PartialEq, Eq, Structural, Hash)]
pub enum Move {
    Play(Play),
    Pass,
}

/// The play currently to beat, and who made it.
#[derive(Debug, Clone, Copy, Hash, PartialEq, Eq, Structural)]
pub struct TopSet {
    pub player: PlayerID,
    pub rank: CardRank,
    pub number: CardCount,
}

impl TopSet {
    /// A top set of a non-wild rank with at least one card.
    pub open spec fn wf(self) -> bool {
        &&& self.player.wf()
        &&& self.rank.wf()
        &&& self.rank.0 != 0
        &&& 0 < self.number.0 <= MAX_TOTAL_PLAY
    }

    pub fn new(player: PlayerID, rank: CardRank, number: CardCount) -> (top_set: TopSet)
        requires
            player.wf(),
            rank.wf(),
            rank.0 != 0,
            0 < number.0 <= MAX_TOTAL_PLAY,
        ensures
            top_set == (TopSet { player, rank, number }),
            top_set.wf(),
    {
        TopSet { player, rank, number }
    }
}

/// The trick being played: the play to beat, if any, and who has passed on it.
#[derive(Debug, Clone, Copy, Hash, PartialEq, Eq)]
pub struct Trick {
    pub top_set: Option<TopSet>,
    pub has_passed: PlayerIndexed<bool>,
}

impl Trick {
    pub fn new() -> (trick: Trick)
        ensures
            trick.top_set.is_none(),
            forall|p: int| 0 <= p < MAX_PLAYERS ==> !#[trigger] trick.has_passed.at(p),
    {
        Trick { top_set: None, has_passed: PlayerIndexed::filled(false) }
    }
}

} // verus!
