use vstd::prelude::*;

use rand::rngs::SmallRng;

use crate::consts::{MAX_CARD_ORDINALITY, MAX_PLAYERS};
use crate::game::collections::{lemma_sum_counts_usizes, sum_counts, sum_usizes, PlayerHand, PlayerIndexed};
use crate::game::actions::Move;
use crate::game::primitives::{PlayerID, MAX_TOTAL_PLAY};
use crate::game::rules::spec_legal_move;
use crate::game::state::{
    hand_from_counts, is_view_of, spec_opponent_count, FullInformationGameState, IncompleteInformationGameState,
};
use crate::world::dealing::card_dealing;
use crate::world::margins::{col_sum, column, filled_array, has_margins, lemma_entry_le_sum, row_sum};

verus! {

/// The number of seats other than the perspective player's.
pub const OTHER_SEATS: usize = MAX_PLAYERS - 1;

/// The seat of the `k`-th other player, counting the seats in order and skipping the
/// perspective player's.
pub open spec fn other_seat(perspective: int, k: int) -> int {
    if k < perspective { k } else { k + 1 }
}

/// The place of seat `p` among the other seats, for `p` other than `perspective`; for the
/// seats below `p`, how many of them are other seats.
pub open spec fn other_index(perspective: int, p: int) -> int {
    if p <= perspective { p } else { p - 1 }
}

/// The hand size that `state` states for the `k`-th other seat; none for seats beyond the
/// players.
pub open spec fn unseen_size(state: IncompleteInformationGameState, k: int) -> usize {
    let p = other_seat(state.perspective_player_number.0 as int, k);
    if p < state.number_of_players { state.hand_sizes.size(p) } else { 0 }
}

/// The hand sizes of the other seats, in seat order.
pub open spec fn unseen_sizes(state: IncompleteInformationGameState) -> Seq<usize> {
    Seq::new(OTHER_SEATS as nat, |k: int| unseen_size(state, k))
}

/// `world` is a whole game of which `state` can be the view of the perspective player: the same
/// public state and the same hand for that player; every other seat holds as many cards as
/// `state` says (none beyond the players), and together they hold exactly the unseen cards.
pub open spec fn is_possible_world(state: IncompleteInformationGameState, world: FullInformationGameState) -> bool {
    let perspective = state.perspective_player_number.0 as int;
    let n = state.number_of_players as int;
    &&& world.current_player_number == state.current_player_number
    &&& world.number_of_players == state.number_of_players
    &&& world.player_placements == state.player_placements
    &&& world.trick == state.trick
    &&& world.hands_wf()
    &&& world.hand(perspective) == state.player_hand
    &&& forall|p: int| 0 <= p < MAX_PLAYERS && p != perspective ==> #[trigger] world.hand(p).total() == if p < n {
        state.hand_sizes.size(p) as nat
    } else {
        0
    }
    &&& forall|r: int| 0 <= r < MAX_CARD_ORDINALITY ==> #[trigger] spec_opponent_count(world.player_hands, perspective, r, n)
        == state.opponent_cards.count(r)
}

/// The cards of rank `r` of the seats below `m` other than `perspective` are the first entries
/// of column `r` of `dealt`, row `k` being the hand of the `k`-th other seat.
proof fn lemma_opponent_count_is_column_prefix(
    hands: PlayerIndexed<PlayerHand>,
    dealt: [[usize; MAX_CARD_ORDINALITY]; OTHER_SEATS],
    perspective: int,
    r: int,
    m: int,
)
    requires
        0 <= perspective < MAX_PLAYERS,
        0 <= r < MAX_CARD_ORDINALITY,
        0 <= m <= MAX_PLAYERS,
        forall|k: int| 0 <= k < OTHER_SEATS ==> #[trigger] hands.at(other_seat(perspective, k)).count(r) == dealt@[k]@[r],
    ensures
        spec_opponent_count(hands, perspective, r, m) == sum_usizes(column(dealt, r).take(other_index(perspective, m))),
    decreases m,
{
    if m > 0 {
        lemma_opponent_count_is_column_prefix(hands, dealt, perspective, r, m - 1);
        let col = column(dealt, r);
        if m - 1 != perspective {
            let k = other_index(perspective, m - 1);
            assert(other_seat(perspective, k) == m - 1);
            assert(hands.at(other_seat(perspective, k)).count(r) == dealt@[k]@[r]);
            assert(other_index(perspective, m) == k + 1);
            assert(col.take(k + 1).drop_last() =~= col.take(k));
            assert(col.take(k + 1).last() == col[k]);
        } else {
            assert(other_index(perspective, m) == other_index(perspective, m - 1));
        }
    }
}

/// The cards of rank `r` of the seats below `m` other than `perspective` do not change past the
/// seats that hold none of them.
proof fn lemma_opponent_count_past_empty_seats(hands: PlayerIndexed<PlayerHand>, perspective: int, r: int, n: int, m: int)
    requires
        0 <= perspective < n <= m,
        forall|p: int| n <= p < m ==> #[trigger] hands.at(p).count(r) == 0,
    ensures
        spec_opponent_count(hands, perspective, r, m) == spec_opponent_count(hands, perspective, r, n),
    decreases m - n,
{
    if m > n {
        lemma_opponent_count_past_empty_seats(hands, perspective, r, n, m - 1);
        assert(hands.at(m - 1).count(r) == 0);
    }
}

/// One count is at most the sum of the counts.
proof fn lemma_count_le_sum(s: Seq<crate::game::primitives::CardCount>, k: int)
    requires
        0 <= k < s.len(),
    ensures
        s[k].0 <= sum_counts(s),
    decreases s.len(),
{
    if k < s.len() - 1 {
        lemma_count_le_sum(s.drop_last(), k);
    }
}

/// A whole game of which `state` can be the perspective player's view, drawn at random: the
/// perspective player keeps their hand, and the unseen cards are dealt at random to the other
/// seats, each getting as many cards as `state` says it holds.
pub fn sample_possible_world(state: &IncompleteInformationGameState, rng: &mut SmallRng) -> (world: FullInformationGameState)
    requires
        state.wf(),
        sum_usizes(unseen_sizes(*state)) == sum_counts(state.opponent_cards.0@),
    ensures
        is_possible_world(*state, world),
{
    let perspective = state.perspective_player_number.0;
    let n = state.number_of_players;

    let mut sizes: [usize; OTHER_SEATS] = filled_array(0usize);
    let mut k: usize = 0;
    while k < OTHER_SEATS
        invariant
            k <= OTHER_SEATS,
            perspective == state.perspective_player_number.0,
            n == state.number_of_players,
            perspective < n <= MAX_PLAYERS,
            forall|j: int| 0 <= j < k ==> #[trigger] sizes@[j] == unseen_size(*state, j),
        decreases OTHER_SEATS - k,
    {
        let seat = if k < perspective { k } else { k + 1 };
        if seat < n {
            sizes[k] = state.hand_sizes.get_size(PlayerID::new(seat));
        } else {
            sizes[k] = 0;
        }
        k = k + 1;
    }
    assert(sizes@ =~= unseen_sizes(*state));

    let ranks = state.opponent_cards.to_usize_counts();
    proof {
        lemma_sum_counts_usizes(state.opponent_cards.0@, ranks@);
    }
    let dealt = card_dealing::<OTHER_SEATS, MAX_CARD_ORDINALITY>(sizes, ranks, rng);

    let empty = PlayerHand::empty();
    let mut hands = PlayerIndexed::filled(empty);
    let ghost blank = hands;
    hands.set_value(state.perspective_player_number, state.player_hand);
    proof {
        assert forall|p: int| 0 <= p < MAX_PLAYERS implies (#[trigger] hands.at(p)).wf() by {
            if p != perspective as int {
                assert(hands.at(p) == blank.at(p));
            }
        }
    }
    let mut k: usize = 0;
    while k < OTHER_SEATS
        invariant
            k <= OTHER_SEATS,
            perspective == state.perspective_player_number.0,
            perspective < n <= MAX_PLAYERS,
            state.wf(),
            has_margins(dealt, sizes@, ranks@),
            forall|r: int| 0 <= r < MAX_CARD_ORDINALITY ==> #[trigger] ranks@[r] == state.opponent_cards.count(r),
            hands.at(perspective as int) == state.player_hand,
            forall|p: int| 0 <= p < MAX_PLAYERS ==> (#[trigger] hands.at(p)).wf(),
            forall|j: int, r: int| 0 <= j < k && 0 <= r < MAX_CARD_ORDINALITY
                ==> #[trigger] hands.at(other_seat(perspective as int, j)).count(r) == dealt@[j]@[r],
        decreases OTHER_SEATS - k,
    {
        proof {
            assert forall|r: int| 0 <= r < MAX_CARD_ORDINALITY implies #[trigger] dealt@[k as int]@[r] <= MAX_TOTAL_PLAY by {
                lemma_entry_le_sum(column(dealt, r), k as int);
                assert(col_sum(dealt, r) == ranks@[r]);
                assert(state.opponent_cards.count(r) <= MAX_TOTAL_PLAY);
            }
        }
        let hand = hand_from_counts(dealt[k]);
        let seat = if k < perspective { k } else { k + 1 };
        let ghost before = hands;
        hands.set_value(PlayerID::new(seat), hand);
        proof {
            assert forall|p: int| 0 <= p < MAX_PLAYERS implies (#[trigger] hands.at(p)).wf() by {
                if p != seat as int {
                    assert(hands.at(p) == before.at(p));
                }
            }
            assert forall|j: int, r: int| 0 <= j < k + 1 && 0 <= r < MAX_CARD_ORDINALITY
                implies #[trigger] hands.at(other_seat(perspective as int, j)).count(r) == dealt@[j]@[r] by {
                if j < k {
                    assert(other_seat(perspective as int, j) != seat);
                    assert(before.at(other_seat(perspective as int, j)).count(r) == dealt@[j]@[r]);
                } else {
                    assert(other_seat(perspective as int, j) == seat);
                    assert(hand.0@[r].0 == dealt@[j]@[r]);
                }
            }
        }
        k = k + 1;
    }

    let world = FullInformationGameState {
        current_player_number: state.current_player_number,
        number_of_players: n,
        player_hands: hands,
        player_placements: state.player_placements,
        trick: state.trick,
    };
    proof {
        let p0 = perspective as int;
        assert forall|k: int| 0 <= k < OTHER_SEATS implies #[trigger] world.hand(other_seat(p0, k)).total() == sizes@[k] by {
            let seat_hand = world.hand(other_seat(p0, k));
            assert forall|i: int| 0 <= i < seat_hand.0@.len() implies #[trigger] seat_hand.0@[i].0 == dealt@[k]@[i] by {
                assert(hands.at(other_seat(p0, k)).count(i) == dealt@[k]@[i]);
            }
            lemma_sum_counts_usizes(seat_hand.0@, dealt@[k]@);
            assert(row_sum(dealt, k) == sizes@[k]);
        }
        assert forall|p: int| 0 <= p < MAX_PLAYERS && p != p0 implies #[trigger] world.hand(p).total() == if p < n {
            state.hand_sizes.size(p) as nat
        } else {
            0
        } by {
            let k = other_index(p0, p);
            assert(other_seat(p0, k) == p);
            assert(world.hand(other_seat(p0, k)).total() == sizes@[k]);
            assert(sizes@[k] == unseen_size(*state, k));
        }
        assert forall|r: int| 0 <= r < MAX_CARD_ORDINALITY implies #[trigger] spec_opponent_count(world.player_hands, p0, r, n as int)
            == state.opponent_cards.count(r) by {
            assert forall|k: int| 0 <= k < OTHER_SEATS implies #[trigger] hands.at(other_seat(p0, k)).count(r) == dealt@[k]@[r] by {
                assert(hands.at(other_seat(p0, k)).count(r) == dealt@[k]@[r]);
            }
            lemma_opponent_count_is_column_prefix(hands, dealt, p0, r, MAX_PLAYERS as int);
            assert(column(dealt, r).take(OTHER_SEATS as int) =~= column(dealt, r));
            assert(col_sum(dealt, r) == ranks@[r]);
            assert forall|p: int| n <= p < MAX_PLAYERS implies #[trigger] hands.at(p).count(r) == 0 by {
                let k = other_index(p0, p);
                assert(other_seat(p0, k) == p);
                assert(world.hand(p).total() == 0);
                lemma_count_le_sum(hands.at(p).0@, r);
            }
            lemma_opponent_count_past_empty_seats(hands, p0, r, n as int, MAX_PLAYERS as int);
        }
    }
    world
}

/// Whether the hand sizes that `state` states for the other seats add up to the number of
/// unseen cards, which is what a possible world needs.
pub fn unseen_cards_fit(state: &IncompleteInformationGameState) -> (fits: bool)
    requires
        state.wf(),
    ensures
        fits == (sum_usizes(unseen_sizes(*state)) == sum_counts(state.opponent_cards.0@)),
{
    let perspective = state.perspective_player_number.0;
    let n = state.number_of_players;
    let ghost sizes = unseen_sizes(*state);
    let mut total: u128 = 0;
    let mut k: usize = 0;
    while k < OTHER_SEATS
        invariant
            k <= OTHER_SEATS,
            perspective == state.perspective_player_number.0,
            n == state.number_of_players,
            perspective < n <= MAX_PLAYERS,
            sizes == unseen_sizes(*state),
            total == sum_usizes(sizes.take(k as int)),
            total <= k * 0xffff_ffff_ffff_ffffu128,
        decreases OTHER_SEATS - k,
    {
        let seat = if k < perspective { k } else { k + 1 };
        let size: usize = if seat < n { state.hand_sizes.get_size(PlayerID::new(seat)) } else { 0 };
        assert(size == sizes[k as int]);
        assert(sizes.take(k + 1).drop_last() =~= sizes.take(k as int));
        assert(size <= 0xffff_ffff_ffff_ffffu128);
        total = total + size as u128;
        k = k + 1;
    }
    assert(sizes.take(OTHER_SEATS as int) =~= sizes);
    let unseen = state.opponent_cards.total_cards();
    total == unseen as u128
}

/// `count` whole games of which `state` can be the perspective player's view, each drawn at
/// random as `sample_possible_world` draws one.
pub fn sample_possible_worlds(
    state: &IncompleteInformationGameState,
    count: usize,
    rng: &mut SmallRng,
) -> (worlds: Vec<FullInformationGameState>)
    requires
        state.wf(),
        sum_usizes(unseen_sizes(*state)) == sum_counts(state.opponent_cards.0@),
    ensures
        worlds@.len() == count,
        forall|i: int| 0 <= i < count ==> is_possible_world(*state, #[trigger] worlds@[i]),
{
    let mut worlds: Vec<FullInformationGameState> = Vec::new();
    let mut i: usize = 0;
    while i < count
        invariant
            i <= count,
            state.wf(),
            sum_usizes(unseen_sizes(*state)) == sum_counts(state.opponent_cards.0@),
            worlds@.len() == i,
            forall|j: int| 0 <= j < i ==> is_possible_world(*state, #[trigger] worlds@[j]),
        decreases count - i,
    {
        let world = sample_possible_world(state, rng);
        worlds.push(world);
        i = i + 1;
    }
    worlds
}

/// The cards of rank `r` in seat `p`, counted only for seats other than `perspective`.
pub open spec fn unseen_entry(hands: PlayerIndexed<PlayerHand>, perspective: int, p: int, r: int) -> nat {
    if p != perspective { hands.at(p).count(r) } else { 0 }
}

/// The unseen cards of seat `p` of the ranks below `c`.
pub open spec fn seat_unseen(hands: PlayerIndexed<PlayerHand>, perspective: int, p: int, c: int) -> nat
    decreases c,
{
    if c <= 0 { 0 } else { seat_unseen(hands, perspective, p, c - 1) + unseen_entry(hands, perspective, p, c - 1) }
}

/// The unseen cards of the seats below `m`, summed seat by seat.
pub open spec fn unseen_by_seat(hands: PlayerIndexed<PlayerHand>, perspective: int, m: int) -> nat
    decreases m,
{
    if m <= 0 {
        0
    } else {
        unseen_by_seat(hands, perspective, m - 1) + seat_unseen(hands, perspective, m - 1, MAX_CARD_ORDINALITY as int)
    }
}

/// The unseen cards of the ranks below `c` in the seats below `m`, summed rank by rank.
pub open spec fn unseen_by_rank(hands: PlayerIndexed<PlayerHand>, perspective: int, m: int, c: int) -> nat
    decreases c,
{
    if c <= 0 { 0 } else { unseen_by_rank(hands, perspective, m, c - 1) + spec_opponent_count(hands, perspective, c - 1, m) }
}

proof fn lemma_unseen_by_rank_step(hands: PlayerIndexed<PlayerHand>, perspective: int, m: int, c: int)
    requires
        m > 0,
    ensures
        unseen_by_rank(hands, perspective, m, c) == unseen_by_rank(hands, perspective, m - 1, c)
            + seat_unseen(hands, perspective, m - 1, c),
    decreases c,
{
    if c > 0 {
        lemma_unseen_by_rank_step(hands, perspective, m, c - 1);
    }
}

proof fn lemma_unseen_by_rank_empty(hands: PlayerIndexed<PlayerHand>, perspective: int, c: int)
    ensures
        unseen_by_rank(hands, perspective, 0, c) == 0,
    decreases c,
{
    if c > 0 {
        lemma_unseen_by_rank_empty(hands, perspective, c - 1);
    }
}

/// Summing the unseen cards seat by seat or rank by rank gives the same.
proof fn lemma_unseen_sum_swap(hands: PlayerIndexed<PlayerHand>, perspective: int, m: int)
    requires
        m >= 0,
    ensures
        unseen_by_seat(hands, perspective, m) == unseen_by_rank(hands, perspective, m, MAX_CARD_ORDINALITY as int),
    decreases m,
{
    if m == 0 {
        lemma_unseen_by_rank_empty(hands, perspective, MAX_CARD_ORDINALITY as int);
    } else {
        lemma_unseen_sum_swap(hands, perspective, m - 1);
        lemma_unseen_by_rank_step(hands, perspective, m, MAX_CARD_ORDINALITY as int);
    }
}

/// The unseen cards of an other seat are its whole hand.
proof fn lemma_seat_unseen_is_total(hands: PlayerIndexed<PlayerHand>, perspective: int, p: int, c: int)
    requires
        p != perspective,
        0 <= c <= MAX_CARD_ORDINALITY,
    ensures
        seat_unseen(hands, perspective, p, c) == sum_counts(hands.at(p).0@.take(c)),
    decreases c,
{
    if c > 0 {
        lemma_seat_unseen_is_total(hands, perspective, p, c - 1);
        assert(hands.at(p).0@.take(c).drop_last() =~= hands.at(p).0@.take(c - 1));
    }
}

proof fn lemma_seat_unseen_of_perspective(hands: PlayerIndexed<PlayerHand>, perspective: int, c: int)
    ensures
        seat_unseen(hands, perspective, perspective, c) == 0,
    decreases c,
{
    if c > 0 {
        lemma_seat_unseen_of_perspective(hands, perspective, c - 1);
    }
}

/// The sizes of the other seats, taken in seat order up to seat `m`, sum to the unseen cards of
/// the seats below `m`.
proof fn lemma_unseen_sizes_prefix(sizes: Seq<usize>, hands: PlayerIndexed<PlayerHand>, perspective: int, m: int)
    requires
        0 <= perspective < MAX_PLAYERS,
        0 <= m <= MAX_PLAYERS,
        sizes.len() == OTHER_SEATS,
        forall|k: int| 0 <= k < OTHER_SEATS ==> #[trigger] sizes[k] == seat_unseen(
            hands,
            perspective,
            other_seat(perspective, k),
            MAX_CARD_ORDINALITY as int,
        ),
    ensures
        sum_usizes(sizes.take(other_index(perspective, m))) == unseen_by_seat(hands, perspective, m),
    decreases m,
{
    if m > 0 {
        lemma_unseen_sizes_prefix(sizes, hands, perspective, m - 1);
        if m - 1 != perspective {
            let k = other_index(perspective, m - 1);
            assert(other_seat(perspective, k) == m - 1);
            assert(sizes[k] == seat_unseen(hands, perspective, m - 1, MAX_CARD_ORDINALITY as int));
            assert(sizes.take(k + 1).drop_last() =~= sizes.take(k));
        } else {
            lemma_seat_unseen_of_perspective(hands, perspective, MAX_CARD_ORDINALITY as int);
        }
    }
}

/// Counts that agree rank by rank sum rank by rank to the same.
proof fn lemma_unseen_by_rank_counts(
    counts: Seq<crate::game::primitives::CardCount>,
    hands: PlayerIndexed<PlayerHand>,
    perspective: int,
    m: int,
    c: int,
)
    requires
        0 <= c <= counts.len(),
        forall|r: int| 0 <= r < counts.len() ==> #[trigger] counts[r].0 == spec_opponent_count(hands, perspective, r, m),
    ensures
        sum_counts(counts.take(c)) == unseen_by_rank(hands, perspective, m, c),
    decreases c,
{
    if c > 0 {
        lemma_unseen_by_rank_counts(counts, hands, perspective, m, c - 1);
        assert(counts.take(c).drop_last() =~= counts.take(c - 1));
    }
}

/// Law: the game itself is one of the possible worlds of what any of its players sees, and what
/// a player sees meets what `sample_possible_world` asks: the hand sizes of the other seats add
/// up to the unseen cards. (Seats beyond the players hold no cards, as in every dealt game.)
pub proof fn law_game_is_possible_world_of_its_view(
    full: FullInformationGameState,
    perspective: int,
    view: IncompleteInformationGameState,
)
    requires
        full.wf(),
        0 <= perspective < full.number_of_players,
        forall|p: int| full.number_of_players <= p < MAX_PLAYERS ==> #[trigger] full.hand(p).total() == 0,
        is_view_of(view, full, perspective),
    ensures
        is_possible_world(view, full),
        sum_usizes(unseen_sizes(view)) == sum_counts(view.opponent_cards.0@),
{
    let n = full.number_of_players as int;
    let hands = full.player_hands;
    let sizes = unseen_sizes(view);
    assert forall|p: int, r: int| n <= p < MAX_PLAYERS && 0 <= r < MAX_CARD_ORDINALITY implies #[trigger] hands.at(p).count(r) == 0 by {
        assert(full.hand(p).total() == 0);
        lemma_count_le_sum(hands.at(p).0@, r);
    }
    assert forall|k: int| 0 <= k < OTHER_SEATS implies #[trigger] sizes[k] == seat_unseen(
        hands,
        perspective,
        other_seat(perspective, k),
        MAX_CARD_ORDINALITY as int,
    ) by {
        let p = other_seat(perspective, k);
        lemma_seat_unseen_is_total(hands, perspective, p, MAX_CARD_ORDINALITY as int);
        assert(hands.at(p).0@.take(MAX_CARD_ORDINALITY as int) =~= hands.at(p).0@);
        assert(sizes[k] == unseen_size(view, k));
        if p < n {
            assert(view.hand_sizes.size(p) == full.hand(p).total());
        } else {
            assert(full.hand(p).total() == 0);
        }
    }
    lemma_unseen_sizes_prefix(sizes, hands, perspective, MAX_PLAYERS as int);
    assert(sizes.take(OTHER_SEATS as int) =~= sizes);
    lemma_unseen_sum_swap(hands, perspective, MAX_PLAYERS as int);
    assert forall|r: int| 0 <= r < MAX_CARD_ORDINALITY implies #[trigger] view.opponent_cards.0@[r].0
        == spec_opponent_count(hands, perspective, r, MAX_PLAYERS as int) by {
        assert(view.opponent_cards.count(r) == spec_opponent_count(hands, perspective, r, n));
        lemma_opponent_count_past_empty_seats(hands, perspective, r, n, MAX_PLAYERS as int);
    }
    lemma_unseen_by_rank_counts(view.opponent_cards.0@, hands, perspective, MAX_PLAYERS as int, MAX_CARD_ORDINALITY as int);
    assert(view.opponent_cards.0@.take(MAX_CARD_ORDINALITY as int) =~= view.opponent_cards.0@);
}

/// Law: on the perspective player's turn, the moves the rules allow are the same in every
/// possible world as in the view itself, so one list of actions serves all the worlds.
pub proof fn law_same_actions_in_every_possible_world(
    state: IncompleteInformationGameState,
    world: FullInformationGameState,
    player_move: Move,
)
    requires
        is_possible_world(state, world),
        state.current_player_number == state.perspective_player_number,
    ensures
        spec_legal_move(world.hand(world.current_player_number.0 as int), world.trick.top_set, player_move)
            == spec_legal_move(state.player_hand, state.trick.top_set, player_move),
{
}

} // verus!
