use vstd::prelude::*;

use crate::consts::{MAX_CARD_ORDINALITY, MAX_PLAYERS};
use crate::game::actions::Trick;
use crate::game::collections::{
    lemma_sum_counts_bound, sum_counts, HandSizes, PlayerHand, PlayerIndexed, PlayerPlacements,
};
use crate::game::primitives::{CardCount, CardRank, PlayerID, MAX_TOTAL_PLAY};
use crate::game::collections::sum_usizes;
use crate::randomness::random_at_most;
use crate::world::margins::{col_sum, column, filled_array, lemma_entry_le_sum, lemma_matrix_update, lemma_sum_update, lemma_sum_zero, row_sum};

use rand::rngs::SmallRng;

verus! {

/// The game as one player sees it: their own hand, the unseen cards of all opponents together,
/// and what everyone can see.
#[derive(Debug, Clone, Copy)]
pub struct IncompleteInformationGameState {
    pub current_player_number: PlayerID,
    pub perspective_player_number: PlayerID,
    pub number_of_players: usize,
    pub player_hand: PlayerHand,
    pub opponent_cards: PlayerHand,
    pub player_placements: PlayerPlacements,
    pub hand_sizes: HandSizes,
    pub trick: Trick,
}

impl IncompleteInformationGameState {
    /// A state the rules can run on: a valid number of players, the current, perspective and
    /// leading players among them, valid hands and placements.
    pub open spec fn wf(self) -> bool {
        &&& 0 < self.number_of_players <= MAX_PLAYERS
        &&& self.current_player_number.0 < self.number_of_players
        &&& self.perspective_player_number.0 < self.number_of_players
        &&& self.player_hand.wf()
        &&& self.opponent_cards.wf()
        &&& self.player_placements.wf()
        &&& self.trick.top_set matches Some(t) ==> t.wf() && t.player.0 < self.number_of_players
    }

    fn new(
        current_player_number: PlayerID,
        perspective_player_number: PlayerID,
        number_of_players: usize,
        player_hand: PlayerHand,
        opponent_cards: PlayerHand,
        player_placements: PlayerPlacements,
        hand_sizes: HandSizes,
        trick: Trick,
    ) -> (state: IncompleteInformationGameState)
        ensures
            state == (IncompleteInformationGameState {
                current_player_number,
                perspective_player_number,
                number_of_players,
                player_hand,
                opponent_cards,
                player_placements,
                hand_sizes,
                trick,
            }),
    {
        IncompleteInformationGameState {
            current_player_number,
            perspective_player_number,
            number_of_players,
            player_hand,
            opponent_cards,
            player_placements,
            hand_sizes,
            trick,
        }
    }
}

/// The whole game, every hand included.
#[derive(Debug, Clone, Copy)]
pub struct FullInformationGameState {
    pub current_player_number: PlayerID,
    pub number_of_players: usize,
    pub player_hands: PlayerIndexed<PlayerHand>,
    pub player_placements: PlayerPlacements,
    pub trick: Trick,
}

impl FullInformationGameState {
    fn new(
        current_player_number: PlayerID,
        number_of_players: usize,
        player_hands: PlayerIndexed<PlayerHand>,
        player_placements: PlayerPlacements,
        trick: Trick,
    ) -> (state: FullInformationGameState)
        ensures
            state == (FullInformationGameState {
                current_player_number,
                number_of_players,
                player_hands,
                player_placements,
                trick,
            }),
    {
        FullInformationGameState {
            current_player_number,
            number_of_players,
            player_hands,
            player_placements,
            trick,
        }
    }

    /// The hand of seat `p`.
    pub open spec fn hand(self, p: int) -> PlayerHand {
        self.player_hands.at(p)
    }

    /// A state the rules can run on: a valid number of players, the current player and the
    /// leader of the trick among them, valid hands and placements.
    pub open spec fn wf(self) -> bool {
        &&& 0 < self.number_of_players <= MAX_PLAYERS
        &&& self.current_player_number.0 < self.number_of_players
        &&& self.hands_wf()
        &&& self.player_placements.wf()
        &&& self.trick.top_set matches Some(t) ==> t.wf() && t.player.0 < self.number_of_players
    }

    /// Every hand holds valid card counts.
    pub open spec fn hands_wf(self) -> bool {
        forall|p: int| 0 <= p < MAX_PLAYERS ==> (#[trigger] self.player_hands.at(p)).wf()
    }
}

/// The number of cards of rank `r` held by the seats below `k` other than `perspective`.
pub open spec fn spec_opponent_count(
    hands: PlayerIndexed<PlayerHand>,
    perspective: int,
    r: int,
    k: int,
) -> nat
    decreases k,
{
    if k <= 0 {
        0
    } else {
        spec_opponent_count(hands, perspective, r, k - 1) + if k - 1 != perspective {
            hands.at(k - 1).count(r)
        } else {
            0
        }
    }
}

pub proof fn lemma_opponent_count_monotone(
    hands: PlayerIndexed<PlayerHand>,
    perspective: int,
    r: int,
    a: int,
    b: int,
)
    requires
        0 <= a <= b,
    ensures
        spec_opponent_count(hands, perspective, r, a) <= spec_opponent_count(hands, perspective, r, b),
    decreases b - a,
{
    if a < b {
        lemma_opponent_count_monotone(hands, perspective, r, a, b - 1);
    }
}

/// `view` is what seat `perspective` sees of `full`: their own hand, the cards of the other
/// active seats pooled rank by rank, the hand size of every active seat (none beyond them), and
/// the public state.
pub open spec fn is_view_of(view: IncompleteInformationGameState, full: FullInformationGameState, perspective: int) -> bool {
    &&& view.current_player_number == full.current_player_number
    &&& view.perspective_player_number.0 == perspective
    &&& view.number_of_players == full.number_of_players
    &&& view.player_hand == full.hand(perspective)
    &&& view.player_placements == full.player_placements
    &&& view.trick == full.trick
    &&& forall|r: int| 0 <= r < MAX_CARD_ORDINALITY ==> #[trigger] view.opponent_cards.count(r)
        == spec_opponent_count(full.player_hands, perspective, r, full.number_of_players as int)
    &&& view.opponent_cards.wf()
    &&& forall|p: int| 0 <= p < MAX_PLAYERS ==> #[trigger] view.hand_sizes.size(p) == if p < full.number_of_players {
        full.hand(p).total()
    } else {
        0
    }
}

/// What `perspective_player_number` sees of `full_information_game_state`: their own hand, the
/// cards of the other active seats pooled rank by rank, the hand size of every active seat, and
/// the public state.
pub fn create_incomplete_information_game_state(
    full_information_game_state: &FullInformationGameState,
    perspective_player_number: PlayerID,
) -> (state: IncompleteInformationGameState)
    requires
        0 < full_information_game_state.number_of_players <= MAX_PLAYERS,
        perspective_player_number.wf(),
        full_information_game_state.hands_wf(),
        forall|r: int|
            0 <= r < MAX_CARD_ORDINALITY ==> #[trigger] spec_opponent_count(
                full_information_game_state.player_hands,
                perspective_player_number.0 as int,
                r,
                full_information_game_state.number_of_players as int,
            ) <= MAX_TOTAL_PLAY,
    ensures
        state.current_player_number == full_information_game_state.current_player_number,
        state.perspective_player_number == perspective_player_number,
        state.number_of_players == full_information_game_state.number_of_players,
        state.player_hand == full_information_game_state.hand(perspective_player_number.0 as int),
        state.player_placements == full_information_game_state.player_placements,
        state.trick == full_information_game_state.trick,
        forall|r: int|
            0 <= r < MAX_CARD_ORDINALITY ==> #[trigger] state.opponent_cards.count(r)
                == spec_opponent_count(
                full_information_game_state.player_hands,
                perspective_player_number.0 as int,
                r,
                full_information_game_state.number_of_players as int,
            ),
        state.opponent_cards.wf(),
        forall|p: int|
            0 <= p < MAX_PLAYERS ==> #[trigger] state.hand_sizes.size(p) == if p
                < full_information_game_state.number_of_players {
                full_information_game_state.hand(p).total()
            } else {
                0
            },
        is_view_of(state, *full_information_game_state, perspective_player_number.0 as int),
{
    let ghost full = *full_information_game_state;
    let ghost perspective = perspective_player_number.0 as int;
    let n = full_information_game_state.number_of_players;
    let mut opponent_cards = PlayerHand::empty();
    let mut hand_sizes = HandSizes::empty();

    let mut p: usize = 0;
    while p < n
        invariant
            p <= n <= MAX_PLAYERS,
            full == *full_information_game_state,
            perspective == perspective_player_number.0,
            full.hands_wf(),
            forall|r: int|
                0 <= r < MAX_CARD_ORDINALITY ==> #[trigger] spec_opponent_count(
                    full.player_hands,
                    perspective,
                    r,
                    n as int,
                ) <= MAX_TOTAL_PLAY,
            forall|r: int|
                0 <= r < MAX_CARD_ORDINALITY ==> #[trigger] opponent_cards.count(r)
                    == spec_opponent_count(full.player_hands, perspective, r, p as int),
            forall|q: int|
                0 <= q < MAX_PLAYERS ==> #[trigger] hand_sizes.size(q) == if q < p {
                    full.hand(q).total()
                } else {
                    0
                },
        decreases n - p,
    {
        let player_id = PlayerID::new(p);
        let hand = full_information_game_state.player_hands.0[p];
        assert(hand == full.hand(p as int));
        let mut r: usize = 0;
        while r < MAX_CARD_ORDINALITY
            invariant
                r <= MAX_CARD_ORDINALITY,
                p < n <= MAX_PLAYERS,
                player_id.0 == p,
                hand == full.hand(p as int),
                hand.wf(),
                perspective == perspective_player_number.0,
                forall|s: int|
                    0 <= s < MAX_CARD_ORDINALITY ==> #[trigger] spec_opponent_count(
                        full.player_hands,
                        perspective,
                        s,
                        n as int,
                    ) <= MAX_TOTAL_PLAY,
                forall|s: int|
                    0 <= s < MAX_CARD_ORDINALITY ==> #[trigger] opponent_cards.count(s) == if s < r {
                        spec_opponent_count(full.player_hands, perspective, s, p + 1)
                    } else {
                        spec_opponent_count(full.player_hands, perspective, s, p as int)
                    },
                forall|q: int|
                    0 <= q < MAX_PLAYERS && q != p ==> #[trigger] hand_sizes.size(q) == if q < p {
                        full.hand(q).total()
                    } else {
                        0
                    },
                hand_sizes.size(p as int) == sum_counts(hand.0@.subrange(0, r as int)),
                hand_sizes.size(p as int) <= r * MAX_TOTAL_PLAY,
            decreases MAX_CARD_ORDINALITY - r,
        {
            let rank = CardRank::new(r);
            let count = hand.0[r];
            assert(hand.count(r as int) <= MAX_TOTAL_PLAY);
            assert(hand.0@.subrange(0, r + 1).drop_last() =~= hand.0@.subrange(0, r as int));
            let ghost old_sizes = hand_sizes;
            let ghost old_opp = opponent_cards;
            hand_sizes.add_cards(player_id, count);
            if p != perspective_player_number.0 {
                proof {
                    lemma_opponent_count_monotone(full.player_hands, perspective, r as int, p + 1, n as int);
                    assert(opponent_cards.count(r as int) == spec_opponent_count(full.player_hands, perspective, r as int, p as int));
                    assert(spec_opponent_count(full.player_hands, perspective, r as int, p + 1)
                        == spec_opponent_count(full.player_hands, perspective, r as int, p as int) + count.0);
                    assert(spec_opponent_count(full.player_hands, perspective, r as int, n as int) <= MAX_TOTAL_PLAY);
                }
                let current = opponent_cards.0[r];
                opponent_cards.set_count(rank, CardCount::new(current.0 + count.0));
            }
            proof {
                assert forall|q: int| 0 <= q < MAX_PLAYERS && q != p implies #[trigger] hand_sizes.size(q)
                    == if q < p { full.hand(q).total() } else { 0 } by {
                    assert(hand_sizes.size(q) == old_sizes.size(q));
                }
                assert forall|t: int| 0 <= t < MAX_CARD_ORDINALITY implies #[trigger] opponent_cards.count(t)
                    == if t < r + 1 {
                        spec_opponent_count(full.player_hands, perspective, t, p + 1)
                    } else {
                        spec_opponent_count(full.player_hands, perspective, t, p as int)
                    } by {
                    if t != r {
                        assert(opponent_cards.count(t) == old_opp.count(t));
                    } else {
                        assert(spec_opponent_count(full.player_hands, perspective, t, p + 1)
                            == spec_opponent_count(full.player_hands, perspective, t, p as int)
                            + if p != perspective { full.hand(p as int).count(t) } else { 0 });
                    }
                }
            }
            r = r + 1;
        }
        assert(hand.0@.subrange(0, MAX_CARD_ORDINALITY as int) =~= hand.0@);
        p = p + 1;
    }

    proof {
        assert forall|r: int| 0 <= r < MAX_CARD_ORDINALITY implies #[trigger] opponent_cards.count(r)
            <= MAX_TOTAL_PLAY by {
            assert(spec_opponent_count(full.player_hands, perspective, r, n as int) <= MAX_TOTAL_PLAY);
        }
    }

    IncompleteInformationGameState::new(
        full_information_game_state.current_player_number,
        perspective_player_number,
        n,
        full_information_game_state.player_hands.0[perspective_player_number.0],
        opponent_cards,
        full_information_game_state.player_placements,
        hand_sizes,
        full_information_game_state.trick,
    )
}

/// The number of positions below `k` that fall to seat `p` when cards are dealt round the
/// table of `n` seats, one at a time, starting with seat 0.
pub open spec fn dealt_to(k: nat, n: nat, p: nat) -> nat
    decreases k,
{
    if k == 0 {
        0
    } else {
        dealt_to((k - 1) as nat, n, p) + if (k - 1) % (n as int) == p { 1nat } else { 0nat }
    }
}

/// The number of cards of rank `r` in all the hands together.
pub open spec fn rank_total(hands: PlayerIndexed<PlayerHand>, r: int) -> nat {
    sum_usizes(Seq::new(MAX_PLAYERS as nat, |p: int| hands.at(p).0@[r].0))
}

/// The deal splits the cards as evenly as it can: of `k` cards dealt round `n` seats, each seat
/// gets `k / n`, and the first `k % n` seats one more.
pub proof fn law_deal_is_even(k: nat, n: nat, p: nat)
    requires
        n > 0,
        p < n,
    ensures
        dealt_to(k, n, p) == k / n + if p < k % n { 1nat } else { 0nat },
    decreases k,
{
    if k > 0 {
        let j = (k - 1) as nat;
        law_deal_is_even(j, n, p);
        vstd::arithmetic::div_mod::lemma_fundamental_div_mod(j as int, n as int);
        let q = j / n;
        let r = j % n;
        assert(dealt_to(k, n, p) == dealt_to(j, n, p) + if (j as int) % (n as int) == p { 1nat } else { 0nat });
        if r + 1 < n {
            vstd::arithmetic::div_mod::lemma_fundamental_div_mod_converse(k as int, n as int, q as int, (r + 1) as int);
            assert(k / n == q && k % n == r + 1);
        } else {
            assert(k == n * (q + 1) + 0) by (nonlinear_arith)
                requires
                    j == n * q + r,
                    r + 1 == n,
                    k == j + 1,
            {}
            vstd::arithmetic::div_mod::lemma_fundamental_div_mod_converse(k as int, n as int, (q + 1) as int, 0);
            assert(k / n == q + 1 && k % n == 0);
        }
    } else {
        vstd::arithmetic::div_mod::lemma_fundamental_div_mod_converse(0, n as int, 0, 0);
    }
}

/// A seat is dealt at most one card in every `n` positions, so at most `k` of the first `k`.
proof fn lemma_dealt_to_bound(k: nat, n: nat, p: nat)
    requires
        n > 0,
    ensures
        dealt_to(k, n, p) <= k,
        p >= n ==> dealt_to(k, n, p) == 0,
    decreases k,
{
    if k > 0 {
        lemma_dealt_to_bound((k - 1) as nat, n, p);
    }
}

/// The sum of a prefix is at most the sum of the whole.
proof fn lemma_sum_prefix(s: Seq<usize>, i: int)
    requires
        0 <= i < s.len(),
    ensures
        sum_usizes(s.take(i + 1)) == sum_usizes(s.take(i)) + s[i],
        sum_usizes(s.take(i + 1)) <= sum_usizes(s),
    decreases s.len(),
{
    assert(s.take(i + 1).drop_last() =~= s.take(i));
    if i + 1 < s.len() {
        lemma_sum_prefix(s.drop_last(), i);
        assert(s.drop_last().take(i + 1) =~= s.take(i + 1));
        assert(s.drop_last().take(i) =~= s.take(i));
    } else {
        assert(s.take(i + 1) =~= s);
    }
}

/// A hand with the given counts, each a valid card count.
pub(crate) fn hand_from_counts(counts: [usize; MAX_CARD_ORDINALITY]) -> (hand: PlayerHand)
    requires
        forall|r: int| 0 <= r < MAX_CARD_ORDINALITY ==> #[trigger] counts@[r] <= MAX_TOTAL_PLAY,
    ensures
        forall|r: int| 0 <= r < MAX_CARD_ORDINALITY ==> #[trigger] hand.0@[r].0 == counts@[r],
        hand.wf(),
{
    let mut hand = PlayerHand::empty();
    let mut r: usize = 0;
    while r < MAX_CARD_ORDINALITY
        invariant
            r <= MAX_CARD_ORDINALITY,
            forall|i: int| 0 <= i < MAX_CARD_ORDINALITY ==> #[trigger] counts@[i] <= MAX_TOTAL_PLAY,
            forall|i: int| 0 <= i < r ==> #[trigger] hand.count(i) == counts@[i],
            forall|i: int| r <= i < MAX_CARD_ORDINALITY ==> #[trigger] hand.count(i) == 0,
        decreases MAX_CARD_ORDINALITY - r,
    {
        let ghost before = hand;
        hand.set_count(CardRank(r), CardCount::new(counts[r]));
        assert forall|i: int| 0 <= i < MAX_CARD_ORDINALITY && i != r implies #[trigger] hand.count(i) == before.count(i) by {
            assert(hand.0@[i] == before.0@[i]);
        }
        r = r + 1;
    }
    assert forall|i: int| 0 <= i < MAX_CARD_ORDINALITY implies #[trigger] hand.0@[i].0 == counts@[i] by {
        assert(hand.count(i) == counts@[i]);
    }
    hand
}

/// A new game for `num_players` seats with the cards of `deck` (how many of each rank): the
/// cards are shuffled and dealt round the table one at a time from seat 0, which leads; no one
/// has passed, and the seats beyond the players count as passed.
pub fn generate_random_initial_game_state(
    num_players: usize,
    deck: &[usize; MAX_CARD_ORDINALITY],
    rng: &mut SmallRng,
) -> (state: FullInformationGameState)
    requires
        0 < num_players <= MAX_PLAYERS,
        forall|r: int| 0 <= r < MAX_CARD_ORDINALITY ==> #[trigger] deck@[r] <= MAX_TOTAL_PLAY,
    ensures
        state.wf(),
        state.current_player_number == PlayerID(0),
        state.number_of_players == num_players,
        forall|p: int| 0 <= p < MAX_PLAYERS ==> #[trigger] state.player_placements.place(p) == 0,
        state.trick.top_set.is_none(),
        forall|p: int| 0 <= p < MAX_PLAYERS ==> #[trigger] state.trick.has_passed.at(p) == (p >= num_players),
        forall|r: int| 0 <= r < MAX_CARD_ORDINALITY ==> #[trigger] rank_total(state.player_hands, r) == deck@[r],
        forall|p: int| 0 <= p < MAX_PLAYERS ==> #[trigger] state.hand(p).total() == dealt_to(sum_usizes(deck@), num_players as nat, p as nat),
{
    broadcast use vstd::seq_lib::group_to_multiset_ensures;
    broadcast use vstd::seq_lib::to_multiset_update;
    broadcast use vstd::multiset::group_multiset_axioms;

    proof {
        crate::world::mixing::lemma_sum_bound(deck@, MAX_TOTAL_PLAY as nat);
        assert(deck@.take(0) =~= Seq::<usize>::empty());
    }

    // Shuffle the deck: each card goes to a random place, and the card that was there moves to
    // the end.
    let mut shuffled: Vec<usize> = Vec::new();
    let mut i: usize = 0;
    while i < MAX_CARD_ORDINALITY
        invariant
            i <= MAX_CARD_ORDINALITY,
            sum_usizes(deck@) <= MAX_CARD_ORDINALITY * MAX_TOTAL_PLAY,
            shuffled@.len() == sum_usizes(deck@.take(i as int)),
            forall|k: int| 0 <= k < shuffled@.len() ==> #[trigger] shuffled@[k] < MAX_CARD_ORDINALITY,
            forall|r: usize| r < MAX_CARD_ORDINALITY ==> #[trigger] shuffled@.to_multiset().count(r) == if r < i { deck@[r as int] } else { 0 },
        decreases MAX_CARD_ORDINALITY - i,
    {
        let num_cards = deck[i];
        proof {
            lemma_sum_prefix(deck@, i as int);
        }
        let mut c: usize = 0;
        while c < num_cards
            invariant
                i < MAX_CARD_ORDINALITY,
                c <= num_cards == deck@[i as int],
                sum_usizes(deck@) <= MAX_CARD_ORDINALITY * MAX_TOTAL_PLAY,
                sum_usizes(deck@.take(i + 1)) == sum_usizes(deck@.take(i as int)) + deck@[i as int],
                sum_usizes(deck@.take(i + 1)) <= sum_usizes(deck@),
                shuffled@.len() == sum_usizes(deck@.take(i as int)) + c,
                forall|k: int| 0 <= k < shuffled@.len() ==> #[trigger] shuffled@[k] < MAX_CARD_ORDINALITY,
                forall|r: usize| r < MAX_CARD_ORDINALITY ==> #[trigger] shuffled@.to_multiset().count(r) == if r < i {
                    deck@[r as int] as nat
                } else if r == i {
                    c as nat
                } else {
                    0
                },
            decreases num_cards - c,
        {
            let ghost before = shuffled@;
            if shuffled.len() == 0 {
                shuffled.push(i);
                proof {
                    assert(shuffled@ == before.push(i));
                    vstd::seq_lib::to_multiset_build(before, i);
                }
            } else {
                let random_index = random_at_most(rng, shuffled.len());
                if random_index != shuffled.len() {
                    let moved = shuffled[random_index];
                    shuffled.push(moved);
                    let ghost pushed = shuffled@;
                    shuffled.set(random_index, i);
                    proof {
                        assert(pushed[random_index as int] == moved);
                        assert(shuffled@ == pushed.update(random_index as int, i));
                        assert(pushed == before.push(moved));
                        vstd::seq_lib::to_multiset_build(before, moved);
                        vstd::seq_lib::to_multiset_update(pushed, random_index as int, i);
                        assert(shuffled@.to_multiset() =~= before.to_multiset().insert(i));
                    }
                } else {
                    shuffled.push(i);
                    proof {
                        assert(shuffled@ == before.push(i));
                        vstd::seq_lib::to_multiset_build(before, i);
                    }
                }
            }
            proof {
                assert(shuffled@.to_multiset() =~= before.to_multiset().insert(i));
                assert forall|r: usize| r < MAX_CARD_ORDINALITY implies #[trigger] shuffled@.to_multiset().count(r) == if r < i {
                    deck@[r as int] as nat
                } else if r == i {
                    (c + 1) as nat
                } else {
                    0
                } by {
                    assert(before.to_multiset().count(r) == if r < i { deck@[r as int] as nat } else if r == i { c as nat } else { 0 });
                }
            }
            c = c + 1;
        }
        i = i + 1;
    }
    proof {
        assert(deck@.take(MAX_CARD_ORDINALITY as int) =~= deck@);
    }

    // Deal the cards round the table.
    let zero_row: [usize; MAX_CARD_ORDINALITY] = filled_array(0usize);
    let mut hands: [[usize; MAX_CARD_ORDINALITY]; MAX_PLAYERS] = filled_array(zero_row);
    proof {
        assert forall|p: int| 0 <= p < MAX_PLAYERS implies #[trigger] row_sum(hands, p) == 0 by {
            assert(hands@[p] == zero_row);
            lemma_sum_zero(zero_row@);
        }
        assert forall|r: int| 0 <= r < MAX_CARD_ORDINALITY implies #[trigger] col_sum(hands, r) == 0 by {
            assert forall|p: int| 0 <= p < MAX_PLAYERS implies #[trigger] column(hands, r)[p] == 0 by {
                assert(hands@[p] == zero_row);
            }
            lemma_sum_zero(column(hands, r));
        }
        assert(shuffled@.take(0) =~= Seq::<usize>::empty());
    }
    let mut k: usize = 0;
    while k < shuffled.len()
        invariant
            0 < num_players <= MAX_PLAYERS,
            k <= shuffled@.len() <= MAX_CARD_ORDINALITY * MAX_TOTAL_PLAY,
            forall|j: int| 0 <= j < shuffled@.len() ==> #[trigger] shuffled@[j] < MAX_CARD_ORDINALITY,
            forall|r: int| 0 <= r < MAX_CARD_ORDINALITY ==> #[trigger] col_sum(hands, r) == shuffled@.take(k as int).to_multiset().count(r as usize),
            forall|p: int| 0 <= p < MAX_PLAYERS ==> #[trigger] row_sum(hands, p) == dealt_to(k as nat, num_players as nat, p as nat),
        decreases shuffled@.len() - k,
    {
        let player_number = k % num_players;
        let card = shuffled[k];
        let ghost before = hands;
        let mut row = hands[player_number];
        let cell = row[card];
        proof {
            lemma_entry_le_sum(before@[player_number as int]@, card as int);
            lemma_dealt_to_bound(k as nat, num_players as nat, player_number as nat);
            assert(row_sum(before, player_number as int) == dealt_to(k as nat, num_players as nat, player_number as nat));
        }
        row[card] = cell + 1;
        hands[player_number] = row;
        proof {
            lemma_matrix_update(before, hands, player_number as int, card as int, (cell + 1) as usize);
            assert(shuffled@.take(k + 1) =~= shuffled@.take(k as int).push(card));
            vstd::seq_lib::to_multiset_build(shuffled@.take(k as int), card);
            assert forall|r: int| 0 <= r < MAX_CARD_ORDINALITY implies #[trigger] col_sum(hands, r) == shuffled@.take(k + 1).to_multiset().count(r as usize) by {
                assert(col_sum(before, r) == shuffled@.take(k as int).to_multiset().count(r as usize));
            }
            assert forall|p: int| 0 <= p < MAX_PLAYERS implies #[trigger] row_sum(hands, p) == dealt_to((k + 1) as nat, num_players as nat, p as nat) by {
                assert(row_sum(before, p) == dealt_to(k as nat, num_players as nat, p as nat));
            }
        }
        k = k + 1;
    }
    proof {
        assert(shuffled@.take(shuffled@.len() as int) =~= shuffled@);
    }

    let mut has_passed: [bool; MAX_PLAYERS] = filled_array(true);
    let mut p: usize = 0;
    while p < num_players
        invariant
            p <= num_players <= MAX_PLAYERS,
            forall|q: int| 0 <= q < MAX_PLAYERS ==> #[trigger] has_passed@[q] == (q >= p),
        decreases num_players - p,
    {
        has_passed[p] = false;
        p = p + 1;
    }

    let mut trick = Trick::new();
    trick.has_passed = PlayerIndexed::new(has_passed);

    let mut array_hands: [PlayerHand; MAX_PLAYERS] = filled_array(PlayerHand::empty());
    let mut p: usize = 0;
    while p < MAX_PLAYERS
        invariant
            p <= MAX_PLAYERS,
            forall|r: int| 0 <= r < MAX_CARD_ORDINALITY ==> #[trigger] col_sum(hands, r) == deck@[r],
            forall|r: int| 0 <= r < MAX_CARD_ORDINALITY ==> #[trigger] deck@[r] <= MAX_TOTAL_PLAY,
            forall|q: int, r: int| 0 <= q < p && 0 <= r < MAX_CARD_ORDINALITY ==> #[trigger] array_hands@[q].0@[r].0 == hands@[q]@[r],
            forall|q: int| 0 <= q < p ==> (#[trigger] array_hands@[q]).wf(),
        decreases MAX_PLAYERS - p,
    {
        proof {
            assert forall|r: int| 0 <= r < MAX_CARD_ORDINALITY implies #[trigger] hands@[p as int]@[r] <= MAX_TOTAL_PLAY by {
                lemma_entry_le_sum(column(hands, r), p as int);
                assert(col_sum(hands, r) == deck@[r]);
            }
        }
        array_hands[p] = hand_from_counts(hands[p]);
        p = p + 1;
    }

    let state = FullInformationGameState::new(
        PlayerID(0),
        num_players,
        PlayerIndexed::new(array_hands),
        PlayerPlacements::new(),
        trick,
    );
    proof {
        assert forall|r: int| 0 <= r < MAX_CARD_ORDINALITY implies #[trigger] rank_total(state.player_hands, r) == deck@[r] by {
            assert forall|p: int| 0 <= p < MAX_PLAYERS implies #[trigger] state.player_hands.at(p).0@[r].0 == hands@[p]@[r] by {
                assert(state.player_hands.at(p) == array_hands@[p]);
                assert(array_hands@[p].0@[r].0 == hands@[p]@[r]);
            }
            assert(Seq::new(MAX_PLAYERS as nat, |p: int| state.player_hands.at(p).0@[r].0) =~= column(hands, r));
            assert(col_sum(hands, r) == deck@[r]);
        }
        assert forall|p: int| 0 <= p < MAX_PLAYERS implies #[trigger] state.hand(p).total() == dealt_to(sum_usizes(deck@), num_players as nat, p as nat) by {
            crate::game::collections::lemma_sum_counts_usizes(state.hand(p).0@, hands@[p]@);
            assert(row_sum(hands, p) == dealt_to(sum_usizes(deck@), num_players as nat, p as nat));
        }
        assert(state.hands_wf());
    }
    state
}

} // verus!
