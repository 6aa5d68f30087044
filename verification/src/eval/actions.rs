use vstd::prelude::*;

use crate::consts::MAX_CARD_ORDINALITY;
use crate::game::primitives::{CardCount, CardRank, MAX_TOTAL_PLAY};
use crate::game::actions::{Move, Play, TopSet};
use crate::game::collections::PlayerHand;
use crate::game::rules::{get_available_moves, spec_legal_move};

verus! {

/// The number of distinct actions: the pass, and one play per card count and rank (a play is
/// named by its size and rank; the wilds in it are the fewest needed).
pub const NUM_ACTIONS: usize = 1 + MAX_CARD_ORDINALITY * MAX_TOTAL_PLAY;

/// Why an action number and a move do not match up.
#[derive(Debug)]
pub enum MoveIDError {
    CardCountOutOfRange(CardCount),
    NotPlayableFromHand {
        count: CardCount,
        rank: CardRank,
        available_wilds: CardCount,
        available_non_wilds: CardCount,
    },
}

/// The action number of a play of `count` cards of rank `rank`.
pub open spec fn spec_play_id(count: int, rank: int) -> int {
    MAX_CARD_ORDINALITY * (count - 1) + rank + 1
}

/// The action number of a move: 0 for the pass.
pub open spec fn spec_move_id(m: Move) -> int {
    match m {
        Move::Pass => 0,
        Move::Play(p) => spec_play_id(p.num_non_wilds.0 + p.num_wilds.0, p.rank.0 as int),
    }
}

/// An action number, `0 <= id < NUM_ACTIONS`; 0 is the pass.
#[derive(Debug, Clone, Copy, PartialEq, Eq, Structural, Hash)]
pub struct MoveID(pub usize);

impl MoveID {
    pub open spec fn wf(self) -> bool {
        self.0 < NUM_ACTIONS
    }

    /// The pass.
    pub fn pass() -> (id: MoveID)
        ensures
            id.0 == 0,
    {
        MoveID(0)
    }

    pub fn new(value: usize) -> (id: Self)
        requires
            value < NUM_ACTIONS,
        ensures
            id.0 == value,
    {
        MoveID(value)
    }

    pub fn get(self) -> (value: usize)
        ensures
            value == self.0,
    {
        self.0
    }

    /// The action of playing `count` cards of `rank`; an error unless `1 <= count <= MAX_TOTAL_PLAY`.
    pub fn from_count_and_rank(count: CardCount, rank: CardRank) -> (id: Result<Self, MoveIDError>)
        requires
            rank.wf(),
        ensures
            match id {
                Ok(id) => 1 <= count.0 <= MAX_TOTAL_PLAY && id.0 == spec_play_id(count.0 as int, rank.0 as int) && id.wf(),
                Err(e) => (count.0 == 0 || count.0 > MAX_TOTAL_PLAY) && e == MoveIDError::CardCountOutOfRange(count),
            },
    {
        if count.0 == 0 || count.0 > MAX_TOTAL_PLAY {
            return Err(MoveIDError::CardCountOutOfRange(count));
        }
        let id = MAX_CARD_ORDINALITY * (count.0 - 1) + rank.0 + 1;
        Ok(MoveID(id))
    }

    /// The action of a move; an error for a play of no cards.
    pub fn from_move(game_move: &Move) -> (id: Result<Self, MoveIDError>)
        requires
            game_move matches Move::Play(p) ==> p.rank.wf() && p.num_non_wilds.0 + p.num_wilds.0 <= MAX_TOTAL_PLAY,
        ensures
            match id {
                Ok(id) => id.0 == spec_move_id(*game_move) && id.wf(),
                Err(e) => game_move matches Move::Play(p) && p.num_non_wilds.0 + p.num_wilds.0 == 0
                    && e == MoveIDError::CardCountOutOfRange(CardCount(0)),
            },
    {
        match game_move {
            Move::Pass => Ok(MoveID::pass()),
            Move::Play(play) => MoveID::from_count_and_rank(play.num_non_wilds + play.num_wilds, play.rank),
        }
    }

    /// The card count and rank of a play action.
    pub fn to_count_and_rank(&self) -> (count_and_rank: (CardCount, CardRank))
        requires
            1 <= self.0 < NUM_ACTIONS,
        ensures
            count_and_rank.0.0 == (self.0 - 1) / (MAX_CARD_ORDINALITY as int) + 1,
            count_and_rank.1.0 == (self.0 - 1) % (MAX_CARD_ORDINALITY as int),
            1 <= count_and_rank.0.0 <= MAX_TOTAL_PLAY,
            count_and_rank.1.wf(),
            spec_play_id(count_and_rank.0.0 as int, count_and_rank.1.0 as int) == self.0,
    {
        let play_id = self.0 - 1;
        let num_to_play = play_id / MAX_CARD_ORDINALITY + 1;
        let rank_to_play = play_id % MAX_CARD_ORDINALITY;
        assert(MAX_CARD_ORDINALITY * (num_to_play - 1) + rank_to_play == play_id) by {
            vstd::arithmetic::div_mod::lemma_fundamental_div_mod(play_id as int, MAX_CARD_ORDINALITY as int);
        }
        (CardCount::new(num_to_play), CardRank::new(rank_to_play))
    }

    /// The play that this action names with `current_hand`: the fewest wilds that make up the
    /// count; an error when the hand holds too few cards of the rank and wilds together.
    pub fn to_move(self, current_hand: &PlayerHand) -> (result: Result<Move, MoveIDError>)
        requires
            self.wf(),
            current_hand.wf(),
            forall|r: int| 0 <= r < MAX_CARD_ORDINALITY ==> current_hand.count(0) + #[trigger] current_hand.count(r) <= MAX_TOTAL_PLAY,
        ensures
            self.0 == 0 ==> result == Ok::<Move, MoveIDError>(Move::Pass),
            self.0 != 0 ==> {
                let count = (self.0 - 1) / (MAX_CARD_ORDINALITY as int) + 1;
                let rank = (self.0 - 1) % (MAX_CARD_ORDINALITY as int);
                let avail = current_hand.count(rank);
                let wilds = current_hand.count(0);
                if avail + wilds < count {
                    result == Err::<Move, MoveIDError>(MoveIDError::NotPlayableFromHand {
                        count: CardCount(count as usize),
                        rank: CardRank(rank as usize),
                        available_wilds: CardCount(wilds as usize),
                        available_non_wilds: CardCount(avail as usize),
                    })
                } else {
                    let wilds_used = if count > avail { count - avail } else { 0 };
                    result == Ok::<Move, MoveIDError>(Move::Play(Play {
                        rank: CardRank(rank as usize),
                        num_non_wilds: CardCount((count - wilds_used) as usize),
                        num_wilds: CardCount(wilds_used as usize),
                    }))
                }
            },
            result matches Ok(m) ==> spec_move_id(m) == self.0,
    {
        if self.0 == 0 {
            return Ok(Move::Pass);
        }
        let (num_to_play, rank_to_play) = self.to_count_and_rank();
        let available_to_play = current_hand.get_count(rank_to_play);
        let wilds = current_hand.get_count(CardRank::wild());
        assert(current_hand.count(0) + current_hand.count(rank_to_play.0 as int) <= MAX_TOTAL_PLAY);
        if available_to_play.0 + wilds.0 < num_to_play.0 {
            return Err(MoveIDError::NotPlayableFromHand {
                count: num_to_play,
                rank: rank_to_play,
                available_wilds: wilds,
                available_non_wilds: available_to_play,
            });
        }
        let wilds_to_use = CardCount::new(num_to_play.0.saturating_sub(available_to_play.0));
        let non_wilds_to_use = num_to_play - wilds_to_use;
        Ok(Move::Play(Play { rank: rank_to_play, num_non_wilds: non_wilds_to_use, num_wilds: wilds_to_use }))
    }

    /// Every action, in increasing order.
    pub fn all() -> (ids: Vec<MoveID>)
        ensures
            ids@.len() == NUM_ACTIONS,
            forall|i: int| 0 <= i < NUM_ACTIONS ==> (#[trigger] ids@[i]).0 == i,
    {
        let mut ids: Vec<MoveID> = Vec::new();
        let mut i: usize = 0;
        while i < NUM_ACTIONS
            invariant
                i <= NUM_ACTIONS,
                ids@.len() == i,
                forall|j: int| 0 <= j < i ==> (#[trigger] ids@[j]).0 == j,
            decreases NUM_ACTIONS - i,
        {
            ids.push(MoveID::new(i));
            i = i + 1;
        }
        ids
    }

    /// Every action but the pass, in increasing order.
    pub fn all_non_pass() -> (ids: Vec<MoveID>)
        ensures
            ids@.len() == NUM_ACTIONS - 1,
            forall|i: int| 0 <= i < NUM_ACTIONS - 1 ==> (#[trigger] ids@[i]).0 == i + 1,
    {
        let mut ids: Vec<MoveID> = Vec::new();
        let mut i: usize = 1;
        while i < NUM_ACTIONS
            invariant
                1 <= i <= NUM_ACTIONS,
                ids@.len() == i - 1,
                forall|j: int| 0 <= j < i - 1 ==> (#[trigger] ids@[j]).0 == j + 1,
            decreases NUM_ACTIONS - i,
        {
            ids.push(MoveID::new(i));
            i = i + 1;
        }
        ids
    }
}

/// Reading an action number back gives the card count and rank it was made from.
pub proof fn lemma_play_id_roundtrip(count: int, rank: int)
    requires
        1 <= count <= MAX_TOTAL_PLAY,
        0 <= rank < MAX_CARD_ORDINALITY,
    ensures
        1 <= spec_play_id(count, rank) < NUM_ACTIONS,
        (spec_play_id(count, rank) - 1) / (MAX_CARD_ORDINALITY as int) + 1 == count,
        (spec_play_id(count, rank) - 1) % (MAX_CARD_ORDINALITY as int) == rank,
{
    let m = MAX_CARD_ORDINALITY as int;
    assert(spec_play_id(count, rank) - 1 == (count - 1) * m + rank) by (nonlinear_arith)
        requires m == MAX_CARD_ORDINALITY;
    assert(spec_play_id(count, rank) < NUM_ACTIONS) by (nonlinear_arith)
        requires 1 <= count <= MAX_TOTAL_PLAY, 0 <= rank < m, m == MAX_CARD_ORDINALITY;
    vstd::arithmetic::div_mod::lemma_fundamental_div_mod_converse((count - 1) * m + rank, m, count - 1, rank);
}

/// For each action, whether it is legal.
#[derive(Debug, Clone)]
pub struct ActionMask(pub [bool; NUM_ACTIONS]);

impl ActionMask {
    /// Whether action `i` is allowed.
    pub open spec fn allows(self, i: int) -> bool {
        self.0@[i]
    }

    /// The number of allowed actions among the first `k`.
    pub open spec fn count_allowed(self, k: int) -> nat
        decreases k,
    {
        if k <= 0 {
            0
        } else {
            self.count_allowed(k - 1) + if self.0@[k - 1] { 1nat } else { 0nat }
        }
    }

    pub fn empty() -> (mask: Self)
        ensures
            forall|i: int| 0 <= i < NUM_ACTIONS ==> !#[trigger] mask.allows(i),
    {
        ActionMask([false; NUM_ACTIONS])
    }

    pub fn num_valid(&self) -> (count: usize)
        ensures
            count == self.count_allowed(NUM_ACTIONS as int),
    {
        let mut count: usize = 0;
        let mut i: usize = 0;
        while i < NUM_ACTIONS
            invariant
                i <= NUM_ACTIONS,
                count == self.count_allowed(i as int),
                count <= i,
            decreases NUM_ACTIONS - i,
        {
            if self.0[i] {
                count = count + 1;
            }
            i = i + 1;
        }
        count
    }

    /// Whether action `id` is allowed.
    pub fn get_action(&self, id: MoveID) -> (allowed: bool)
        requires
            id.wf(),
        ensures
            allowed == self.allows(id.0 as int),
    {
        self.0[id.0]
    }

    /// Allows or forbids action `id`.
    pub fn set_action(&mut self, id: MoveID, allowed: bool)
        requires
            id.wf(),
        ensures
            final(self).0@ == old(self).0@.update(id.0 as int, allowed),
    {
        self.0[id.0] = allowed;
    }

    /// The actions that the legal moves of `player_hand` against `top_set` name.
    pub fn from_hand_and_top(player_hand: &PlayerHand, top_set: &Option<TopSet>) -> (mask: Self)
        requires
            player_hand.wf(),
            forall|r: int| 0 <= r < MAX_CARD_ORDINALITY ==> player_hand.count(0) + #[trigger] player_hand.count(r) <= MAX_TOTAL_PLAY,
            top_set matches Some(t) ==> t.wf(),
        ensures
            forall|i: int|
                0 <= i < NUM_ACTIONS ==> (#[trigger] mask.allows(i) <==> exists|m: Move|
                    spec_legal_move(*player_hand, *top_set, m) && spec_move_id(m) == i),
    {
        proof {
            assert forall|r: int| 1 <= r < MAX_CARD_ORDINALITY implies player_hand.count(0) + #[trigger] player_hand.count(r) <= MAX_TOTAL_PLAY by {}
        }
        let moves = get_available_moves(player_hand, *top_set);
        let mut mask = [false; NUM_ACTIONS];
        let mut k: usize = 0;
        while k < moves.len()
            invariant
                k <= moves@.len(),
                player_hand.wf(),
                forall|r: int| 0 <= r < MAX_CARD_ORDINALITY ==> player_hand.count(0) + #[trigger] player_hand.count(r) <= MAX_TOTAL_PLAY,
                top_set matches Some(t) ==> t.wf(),
                forall|m: Move| #[trigger] moves@.contains(m) <==> spec_legal_move(*player_hand, *top_set, m),
                forall|i: int|
                    0 <= i < NUM_ACTIONS ==> (#[trigger] mask@[i] <==> exists|j: int|
                        0 <= j < k && spec_move_id(moves@[j]) == i),
            decreases moves@.len() - k,
        {
            let m = moves[k];
            assert(moves@.contains(m));
            proof {
                if let Move::Play(p) = m {
                    assert(p.num_non_wilds.0 <= player_hand.count(p.rank.0 as int));
                    assert(player_hand.count(0) + player_hand.count(p.rank.0 as int) <= MAX_TOTAL_PLAY);
                }
            }
            let id = match MoveID::from_move(&m) {
                Ok(id) => id,
                Err(_) => {
                    proof {
                        assert(false);
                    }
                    MoveID(0)
                },
            };
            let ghost old_mask = mask;
            mask[id.0] = true;
            assert forall|i: int| 0 <= i < NUM_ACTIONS implies (#[trigger] mask@[i] <==> exists|j: int|
                0 <= j < k + 1 && spec_move_id(moves@[j]) == i) by {
                if mask@[i] && i != id.0 {
                    assert(old_mask@[i]);
                }
                if exists|j: int| 0 <= j < k + 1 && spec_move_id(moves@[j]) == i {
                    let j = choose|j: int| 0 <= j < k + 1 && spec_move_id(moves@[j]) == i;
                    if j < k {
                        assert(old_mask@[i]);
                    }
                }
            }
            k = k + 1;
        }
        let mask = ActionMask(mask);
        assert forall|i: int| 0 <= i < NUM_ACTIONS implies (#[trigger] mask.allows(i) <==> exists|m: Move|
            spec_legal_move(*player_hand, *top_set, m) && spec_move_id(m) == i) by {
            if mask.allows(i) {
                let j = choose|j: int| 0 <= j < moves@.len() && spec_move_id(moves@[j]) == i;
                assert(moves@.contains(moves@[j]));
            }
            if exists|m: Move| spec_legal_move(*player_hand, *top_set, m) && spec_move_id(m) == i {
                let m = choose|m: Move| spec_legal_move(*player_hand, *top_set, m) && spec_move_id(m) == i;
                assert(moves@.contains(m));
                let j = choose|j: int| 0 <= j < moves@.len() && moves@[j] == m;
            }
        }
        mask
    }

    /// The allowed flags in action order.
    pub fn iter(&self) -> (flags: std::slice::Iter<'_, bool>)
        ensures
            vstd::std_specs::slice::into_iter_elts(flags) == self.0@,
    {
        let slice: &[bool] = self.0.as_slice();
        slice.iter()
    }
}

} // verus!
