use vstd::prelude::*;

use crate::consts::{MAX_CARD_NUMBER, MAX_CARD_ORDINALITY, MAX_PLAYERS};

verus! {

/// The most cards a single play can hold: every card of one rank plus as many wilds.
pub const MAX_TOTAL_PLAY: usize = 36;

/// The seat of a player at the table, `0 <= id < MAX_PLAYERS`.
#[derive(Debug, Clone, Copy, PartialEq, Eq, Structural, Hash)]
pub struct PlayerID(pub usize);

impl PlayerID {
    pub open spec fn wf(self) -> bool {
        self.0 < MAX_PLAYERS
    }

    pub fn new(id: usize) -> (player: Self)
        requires
            id < MAX_PLAYERS,
        ensures
            player.0 == id,
            player.wf(),
    {
        PlayerID(id)
    }

    pub fn get(self) -> (id: usize)
        ensures
            id == self.0,
    {
        self.0
    }

    /// The players `0, 1, ..., number_of_players - 1`, in seat order.
    pub fn all_player_ids(number_of_players: usize) -> (players: Vec<PlayerID>)
        requires
            0 < number_of_players <= MAX_PLAYERS,
        ensures
            players@.len() == number_of_players,
            forall|i: int| 0 <= i < number_of_players ==> (#[trigger] players@[i]).0 == i,
    {
        let mut players: Vec<PlayerID> = Vec::new();
        let mut i: usize = 0;
        while i < number_of_players
            invariant
                i <= number_of_players <= MAX_PLAYERS,
                players@.len() == i,
                forall|j: int| 0 <= j < i ==> (#[trigger] players@[j]).0 == j,
            decreases number_of_players - i,
        {
            players.push(PlayerID::new(i));
            i = i + 1;
        }
        players
    }
}

} // verus!

verus! {

/// The rank of a card. Rank 0 is the wild rank; a smaller non-wild rank beats a larger one.
#[derive(Debug, Clone, Copy, PartialEq, Eq, Structural, PartialOrd, Ord, Hash)]
pub struct CardRank(pub usize);

impl CardRank {
    /// The wild rank, which can stand in for any other rank.
    pub fn wild() -> (rank: CardRank)
        ensures
            rank.0 == 0,
    {
        CardRank(0)
    }

    /// One past the weakest rank.
    pub fn lowest() -> (rank: CardRank)
        ensures
            rank.0 == MAX_CARD_ORDINALITY,
    {
        CardRank(MAX_CARD_ORDINALITY)
    }

    /// The strongest non-wild rank.
    pub fn highest() -> (rank: CardRank)
        ensures
            rank.0 == 1,
    {
        CardRank(1)
    }

    pub open spec fn wf(self) -> bool {
        self.0 < MAX_CARD_ORDINALITY
    }

    pub fn new(rank: usize) -> (card_rank: Self)
        requires
            rank < MAX_CARD_ORDINALITY,
        ensures
            card_rank.0 == rank,
            card_rank.wf(),
    {
        CardRank(rank)
    }

    pub fn get(self) -> (rank: usize)
        ensures
            rank == self.0,
    {
        self.0
    }

    /// The ranks `lo, lo + 1, ..., hi - 1`, in increasing order.
    fn rank_range(lo: usize, hi: usize) -> (ranks: Vec<CardRank>)
        requires
            lo <= hi <= MAX_CARD_ORDINALITY,
        ensures
            ranks@.len() == hi - lo,
            forall|i: int| 0 <= i < hi - lo ==> (#[trigger] ranks@[i]).0 == lo + i,
    {
        let mut ranks: Vec<CardRank> = Vec::new();
        let mut r: usize = lo;
        while r < hi
            invariant
                lo <= r <= hi <= MAX_CARD_ORDINALITY,
                ranks@.len() == r - lo,
                forall|i: int| 0 <= i < r - lo ==> (#[trigger] ranks@[i]).0 == lo + i,
            decreases hi - r,
        {
            ranks.push(CardRank::new(r));
            r = r + 1;
        }
        ranks
    }

    /// Every rank, wild rank first.
    pub fn all() -> (ranks: Vec<CardRank>)
        ensures
            ranks@.len() == MAX_CARD_ORDINALITY,
            forall|i: int| 0 <= i < MAX_CARD_ORDINALITY ==> (#[trigger] ranks@[i]).0 == i,
    {
        Self::rank_range(0, MAX_CARD_ORDINALITY)
    }

    /// Every rank but the wild rank, in increasing order.
    pub fn non_wilds() -> (ranks: Vec<CardRank>)
        ensures
            ranks@.len() == MAX_CARD_ORDINALITY - 1,
            forall|i: int| 0 <= i < MAX_CARD_ORDINALITY - 1 ==> (#[trigger] ranks@[i]).0 == i + 1,
    {
        Self::rank_range(1, MAX_CARD_ORDINALITY)
    }

    /// The non-wild ranks strictly below `rank` (the ranks that beat it), in increasing order.
    pub fn non_wilds_below(rank: Self) -> (ranks: Vec<CardRank>)
        requires
            rank.0 <= MAX_CARD_ORDINALITY,
        ensures
            ranks@.len() == if rank.0 == 0 { 0 } else { rank.0 - 1 },
            forall|i: int| 0 <= i < ranks@.len() ==> (#[trigger] ranks@[i]).0 == i + 1,
    {
        if rank.0 == 0 {
            Vec::new()
        } else {
            Self::rank_range(1, rank.0)
        }
    }
}

/// A number of cards, `0 <= count <= MAX_TOTAL_PLAY`.
#[derive(Debug, Clone, Copy, PartialEq, Eq, Structural, PartialOrd, Ord, Hash)]
pub struct CardCount(pub usize);

impl CardCount {
    pub open spec fn wf(self) -> bool {
        self.0 <= MAX_TOTAL_PLAY
    }

    pub fn new(count: usize) -> (card_count: Self)
        requires
            count <= MAX_TOTAL_PLAY,
        ensures
            card_count.0 == count,
            card_count.wf(),
    {
        CardCount(count)
    }

    pub fn get(self) -> (count: usize)
        ensures
            count == self.0,
    {
        self.0
    }

    pub fn is_zero(self) -> (zero: bool)
        ensures
            zero == (self.0 == 0),
    {
        self.0 == 0
    }

    /// The counts `0, 1, ..., max`, in increasing order.
    pub fn choices(max: CardCount) -> (counts: Vec<CardCount>)
        requires
            max.wf(),
        ensures
            counts@.len() == max.0 + 1,
            forall|i: int| 0 <= i <= max.0 ==> (#[trigger] counts@[i]).0 == i,
    {
        let mut counts: Vec<CardCount> = Vec::new();
        let mut c: usize = 0;
        while c <= max.0
            invariant
                c <= max.0 + 1,
                max.0 <= MAX_TOTAL_PLAY,
                counts@.len() == c,
                forall|i: int| 0 <= i < c ==> (#[trigger] counts@[i]).0 == i,
            decreases max.0 + 1 - c,
        {
            counts.push(CardCount::new(c));
            c = c + 1;
        }
        counts
    }

    /// The counts `max, max - 1, ..., 0`, in decreasing order.
    pub fn choices_largest_first(max: CardCount) -> (counts: Vec<CardCount>)
        requires
            max.wf(),
        ensures
            counts@.len() == max.0 + 1,
            forall|i: int| 0 <= i <= max.0 ==> (#[trigger] counts@[i]).0 == max.0 - i,
    {
        let mut counts: Vec<CardCount> = Vec::new();
        let mut k: usize = 0;
        while k <= max.0
            invariant
                k <= max.0 + 1,
                max.0 <= MAX_TOTAL_PLAY,
                counts@.len() == k,
                forall|i: int| 0 <= i < k ==> (#[trigger] counts@[i]).0 == max.0 - i,
            decreases max.0 + 1 - k,
        {
            counts.push(CardCount::new(max.0 - k));
            k = k + 1;
        }
        counts
    }
}

impl core::ops::Add for CardCount {
    type Output = CardCount;

    fn add(self, rhs: Self) -> (sum: CardCount) {
        CardCount(self.0 + rhs.0)
    }
}

impl vstd::std_specs::ops::AddSpecImpl for CardCount {
    open spec fn obeys_add_spec() -> bool {
        true
    }

    open spec fn add_req(self, rhs: Self) -> bool {
        self.0 + rhs.0 <= MAX_TOTAL_PLAY
    }

    open spec fn add_spec(self, rhs: Self) -> CardCount {
        CardCount((self.0 + rhs.0) as usize)
    }
}

impl core::ops::Sub for CardCount {
    type Output = CardCount;

    fn sub(self, rhs: Self) -> (difference: CardCount) {
        CardCount(self.0 - rhs.0)
    }
}

impl vstd::std_specs::ops::SubSpecImpl for CardCount {
    open spec fn obeys_sub_spec() -> bool {
        true
    }

    open spec fn sub_req(self, rhs: Self) -> bool {
        rhs.0 <= self.0
    }

    open spec fn sub_spec(self, rhs: Self) -> CardCount {
        CardCount((self.0 - rhs.0) as usize)
    }
}

impl core::ops::AddAssign for CardCount {
    fn add_assign(&mut self, rhs: Self)
        ensures
            old(self).0 + rhs.0 <= usize::MAX ==> final(self).0 == old(self).0 + rhs.0,
    {
        self.0 = self.0.saturating_add(rhs.0);
    }
}

impl core::ops::SubAssign for CardCount {
    fn sub_assign(&mut self, rhs: Self)
        ensures
            rhs.0 <= old(self).0 ==> final(self).0 == old(self).0 - rhs.0,
    {
        self.0 = self.0.saturating_sub(rhs.0);
    }
}

} // verus!
