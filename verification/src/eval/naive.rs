use vstd::prelude::*;

use crate::consts::MAX_CARD_ORDINALITY;
use crate::game::collections::PlayerHand;
use crate::game::primitives::MAX_TOTAL_PLAY;

verus! {

/// The heuristic that gives every action the same prior.
pub struct NaiveHeuristic {}

impl NaiveHeuristic {
    pub fn new() -> (heuristic: Self) {
        Self {}
    }
}

/// The most cards of rank `r` that `hand` can put down: its wilds and its cards of rank `r`.
pub open spec fn play_reach(hand: PlayerHand, r: int) -> int {
    (hand.count(0) + hand.count(r)) as int
}

/// The larger reach of the two hands at rank `r`.
pub open spec fn larger_reach(player: PlayerHand, opponents: PlayerHand, r: int) -> int {
    if play_reach(player, r) >= play_reach(opponents, r) {
        play_reach(player, r)
    } else {
        play_reach(opponents, r)
    }
}

/// Where the sizes that rank `r` can claim start: just above the larger reach at the rank
/// before, or at zero for the first rank.
pub open spec fn claim_start(player: PlayerHand, opponents: PlayerHand, r: int) -> int {
    if r == 0 {
        0
    } else {
        larger_reach(player, opponents, r - 1) + 1
    }
}

/// Rank `r` is looked at: no rank before it had a larger reach of one below `MAX_TOTAL_PLAY`.
pub open spec fn rank_reached(player: PlayerHand, opponents: PlayerHand, r: int) -> bool {
    forall|q: int| 0 <= q < r ==> #[trigger] larger_reach(player, opponents, q) + 1 != MAX_TOTAL_PLAY
}

/// Rank `r` marks entry `i`: it is looked at, the player reaches further with it than the
/// opponents together, and `i` lies from its claim start up to the player's reach.
pub open spec fn rank_marks(player: PlayerHand, opponents: PlayerHand, r: int, i: int) -> bool {
    &&& rank_reached(player, opponents, r)
    &&& play_reach(player, r) > play_reach(opponents, r)
    &&& claim_start(player, opponents, r) <= i < play_reach(player, r)
}

/// One of the ranks below `k` marks entry `i`.
pub open spec fn marked_below(player: PlayerHand, opponents: PlayerHand, i: int, k: int) -> bool
    decreases k,
{
    if k <= 0 {
        false
    } else {
        marked_below(player, opponents, i, k - 1) || rank_marks(player, opponents, k - 1, i)
    }
}

/// For each entry, whether a rank marks it. The ranks are looked at in order until one has a
/// larger reach of one below `MAX_TOTAL_PLAY`; a rank where the player (wilds and all) reaches
/// further than the opponents together marks the entries from just above the larger reach at
/// the rank before up to the player's reach.
pub fn player_can_beat_array(player_hand: &PlayerHand, opponent_cards: &PlayerHand) -> (can_beat: [bool; MAX_TOTAL_PLAY])
    requires
        player_hand.wf(),
        opponent_cards.wf(),
        forall|r: int|
            0 <= r < MAX_CARD_ORDINALITY && #[trigger] rank_reached(*player_hand, *opponent_cards, r) && play_reach(
                *player_hand,
                r,
            ) > play_reach(*opponent_cards, r) ==> play_reach(*player_hand, r) <= MAX_TOTAL_PLAY || play_reach(
                *player_hand,
                r,
            ) <= claim_start(*player_hand, *opponent_cards, r),
    ensures
        forall|i: int| 0 <= i < MAX_TOTAL_PLAY ==> #[trigger] can_beat@[i] == marked_below(
            *player_hand,
            *opponent_cards,
            i,
            MAX_CARD_ORDINALITY as int,
        ),
{
    let ghost ph = *player_hand;
    let ghost oh = *opponent_cards;
    let mut can_beat = [false; MAX_TOTAL_PLAY];
    let mut fill_pointer: usize = 0;
    let mut r: usize = 0;
    while r < MAX_CARD_ORDINALITY
        invariant_except_break
            r <= MAX_CARD_ORDINALITY,
            ph == *player_hand,
            oh == *opponent_cards,
            ph.wf(),
            oh.wf(),
            forall|q: int|
                0 <= q < MAX_CARD_ORDINALITY && #[trigger] rank_reached(ph, oh, q) && play_reach(ph, q) > play_reach(oh, q)
                    ==> play_reach(ph, q) <= MAX_TOTAL_PLAY || play_reach(ph, q) <= claim_start(ph, oh, q),
            rank_reached(ph, oh, r as int),
            fill_pointer == claim_start(ph, oh, r as int),
            forall|i: int| 0 <= i < MAX_TOTAL_PLAY ==> #[trigger] can_beat@[i] == marked_below(ph, oh, i, r as int),
        ensures
            forall|i: int| 0 <= i < MAX_TOTAL_PLAY ==> #[trigger] can_beat@[i] == marked_below(ph, oh, i, MAX_CARD_ORDINALITY as int),
        decreases MAX_CARD_ORDINALITY - r,
    {
        let wilds = player_hand.0[0].0;
        let player_reach = wilds + player_hand.0[r].0;
        let opponent_reach = opponent_cards.0[0].0 + opponent_cards.0[r].0;
        assert(player_reach == play_reach(ph, r as int));
        assert(opponent_reach == play_reach(oh, r as int));
        let ghost start = fill_pointer as int;
        let ghost before = can_beat;
        if player_reach > opponent_reach {
            while fill_pointer < player_reach
                invariant
                    start <= fill_pointer,
                    fill_pointer <= player_reach || fill_pointer == start,
                    player_reach <= MAX_TOTAL_PLAY || player_reach <= start,
                    forall|i: int| 0 <= i < MAX_TOTAL_PLAY ==> #[trigger] can_beat@[i] == (before@[i] || (start <= i
                        < fill_pointer)),
                decreases player_reach - fill_pointer,
            {
                can_beat[fill_pointer] = true;
                fill_pointer = fill_pointer + 1;
            }
        }
        assert forall|i: int| 0 <= i < MAX_TOTAL_PLAY implies #[trigger] can_beat@[i] == marked_below(
            ph,
            oh,
            i,
            r + 1,
        ) by {
            assert(marked_below(ph, oh, i, r + 1) == (marked_below(ph, oh, i, r as int) || rank_marks(ph, oh, r as int, i)));
            assert(before@[i] == marked_below(ph, oh, i, r as int));
            if player_reach > opponent_reach {
                assert(can_beat@[i] == (before@[i] || (start <= i < fill_pointer)));
                if player_reach > start {
                    assert(fill_pointer == player_reach);
                } else {
                    assert(fill_pointer == start);
                }
            } else {
                assert(can_beat == before);
            }
        }
        fill_pointer = if player_reach >= opponent_reach { player_reach } else { opponent_reach } + 1;
        assert(fill_pointer == larger_reach(ph, oh, r as int) + 1);
        if fill_pointer == MAX_TOTAL_PLAY {
            proof {
                assert forall|i: int, k: int| r + 1 <= k <= MAX_CARD_ORDINALITY && 0 <= i < MAX_TOTAL_PLAY implies #[trigger] marked_below(
                    ph,
                    oh,
                    i,
                    k,
                ) == marked_below(ph, oh, i, r + 1) by {
                    lemma_unreached_marks_nothing(ph, oh, r as int, i, k);
                }
            }
            break;
        }
        r = r + 1;
    }
    can_beat
}

/// Past a rank with a larger reach of one below `MAX_TOTAL_PLAY`, no rank marks anything.
proof fn lemma_unreached_marks_nothing(player: PlayerHand, opponents: PlayerHand, r: int, i: int, k: int)
    requires
        0 <= r < k,
        larger_reach(player, opponents, r) + 1 == MAX_TOTAL_PLAY,
    ensures
        marked_below(player, opponents, i, k) == marked_below(player, opponents, i, r + 1),
    decreases k,
{
    if k > r + 1 {
        lemma_unreached_marks_nothing(player, opponents, r, i, k - 1);
        assert(!rank_reached(player, opponents, k - 1));
    }
}

/// Whether `player_can_beat_array` can run on the two hands: both hold valid counts, and no
/// rank that it looks at would mark entries past the end of the array.
pub open spec fn can_beat_array_fits(player: PlayerHand, opponents: PlayerHand) -> bool {
    &&& player.wf()
    &&& opponents.wf()
    &&& forall|r: int|
        0 <= r < MAX_CARD_ORDINALITY && #[trigger] rank_reached(player, opponents, r) && play_reach(player, r)
            > play_reach(opponents, r) ==> play_reach(player, r) <= MAX_TOTAL_PLAY || play_reach(player, r)
            <= claim_start(player, opponents, r)
}

fn hand_is_valid(hand: &PlayerHand) -> (valid: bool)
    ensures
        valid == hand.wf(),
{
    let mut r: usize = 0;
    while r < MAX_CARD_ORDINALITY
        invariant
            r <= MAX_CARD_ORDINALITY,
            forall|q: int| 0 <= q < r ==> #[trigger] hand.count(q) <= MAX_TOTAL_PLAY,
        decreases MAX_CARD_ORDINALITY - r,
    {
        if hand.0[r].0 > MAX_TOTAL_PLAY {
            assert(hand.count(r as int) > MAX_TOTAL_PLAY);
            return false;
        }
        r = r + 1;
    }
    true
}

/// Whether `player_can_beat_array` can run on the two hands; see `can_beat_array_fits`.
pub fn player_can_beat_array_fits(player_hand: &PlayerHand, opponent_cards: &PlayerHand) -> (fits: bool)
    ensures
        fits == can_beat_array_fits(*player_hand, *opponent_cards),
{
    if !hand_is_valid(player_hand) || !hand_is_valid(opponent_cards) {
        return false;
    }
    let ghost ph = *player_hand;
    let ghost oh = *opponent_cards;
    let mut start: usize = 0;
    let mut r: usize = 0;
    while r < MAX_CARD_ORDINALITY
        invariant
            r <= MAX_CARD_ORDINALITY,
            ph == *player_hand,
            oh == *opponent_cards,
            ph.wf(),
            oh.wf(),
            rank_reached(ph, oh, r as int),
            start == claim_start(ph, oh, r as int),
            forall|q: int|
                0 <= q < r && #[trigger] rank_reached(ph, oh, q) && play_reach(ph, q) > play_reach(oh, q)
                    ==> play_reach(ph, q) <= MAX_TOTAL_PLAY || play_reach(ph, q) <= claim_start(ph, oh, q),
        decreases MAX_CARD_ORDINALITY - r,
    {
        assert(ph.count(0) <= MAX_TOTAL_PLAY && ph.count(r as int) <= MAX_TOTAL_PLAY);
        assert(oh.count(0) <= MAX_TOTAL_PLAY && oh.count(r as int) <= MAX_TOTAL_PLAY);
        let player_reach = player_hand.0[0].0 + player_hand.0[r].0;
        let opponent_reach = opponent_cards.0[0].0 + opponent_cards.0[r].0;
        assert(player_reach == play_reach(ph, r as int));
        assert(opponent_reach == play_reach(oh, r as int));
        if player_reach > opponent_reach && player_reach > MAX_TOTAL_PLAY && player_reach > start {
            return false;
        }
        start = if player_reach >= opponent_reach { player_reach } else { opponent_reach } + 1;
        if start == MAX_TOTAL_PLAY {
            assert forall|q: int|
                0 <= q < MAX_CARD_ORDINALITY && #[trigger] rank_reached(ph, oh, q) && play_reach(ph, q) > play_reach(oh, q)
                    implies play_reach(ph, q) <= MAX_TOTAL_PLAY || play_reach(ph, q) <= claim_start(ph, oh, q) by {
                if q > r {
                    assert(larger_reach(ph, oh, r as int) + 1 == MAX_TOTAL_PLAY);
                }
            }
            return true;
        }
        r = r + 1;
    }
    true
}

} // verus!
