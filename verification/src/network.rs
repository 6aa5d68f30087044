use vstd::prelude::*;

use crate::consts::{MAX_CARD_NUMBER, MAX_CARD_ORDINALITY, MAX_PLAYERS};
use crate::game::collections::PlayerHand;
use crate::game::state::IncompleteInformationGameState;

verus! {

/// The length of the byte inputs of the value network: the card and table blocks, then the
/// value of the state as eight little-endian bytes.
pub const NETWORK_INPUTS_SIZE: usize = 740;
/// The length of the card and table blocks, everything but the value.
pub const NETWORK_CARD_INPUTS_SIZE: usize = 732;
/// The length of one card matrix: a row of `MAX_CARD_NUMBER` entries for each rank slot.
pub const CARD_MATRIX_SIZE: usize = 324;
/// Where the opponents' card matrix starts.
pub const OPPONENT_MATRIX_START: usize = 324;
/// The entry that says whether a set is on the table.
pub const TOP_SET_FLAG: usize = 648;
/// Where the one-hot rank of the top set starts.
pub const TOP_SET_RANK_START: usize = 649;
/// Where the one-hot size of the top set starts (size one at the first entry).
pub const TOP_SET_NUMBER_START: usize = 667;
/// Where the one-hot slot of the trick leader starts.
pub const LEADER_START: usize = 684;
/// Where the passes start, one entry per seat slot.
pub const PASSED_START: usize = 700;
/// Where the hand sizes start, one entry per seat slot.
pub const HAND_SIZES_START: usize = 716;

/// Rank `r` is still in play: the player or the opponents hold a card of it.
pub open spec fn rank_in_play(state: IncompleteInformationGameState, r: int) -> bool {
    state.opponent_cards.count(r) > 0 || state.player_hand.count(r) > 0
}

/// The ranks below `k` still in play, in order.
pub open spec fn ranks_in_play(state: IncompleteInformationGameState, k: int) -> Seq<usize>
    decreases k,
{
    if k <= 0 {
        Seq::empty()
    } else if rank_in_play(state, k - 1) {
        ranks_in_play(state, k - 1).push((k - 1) as usize)
    } else {
        ranks_in_play(state, k - 1)
    }
}

/// The ranks still in play, in order; rank slot `k` of the card matrices stands for the `k`-th.
pub open spec fn play_ranks(state: IncompleteInformationGameState) -> Seq<usize> {
    ranks_in_play(state, MAX_CARD_ORDINALITY as int)
}

/// Entry `i` of a card matrix is set by one of the first `n` rank slots: slot `k` sets the
/// `count` entries from `MAX_CARD_NUMBER * k` on, `count` being the cards of its rank in `hand`.
pub open spec fn card_covered(hand: PlayerHand, ranks: Seq<usize>, n: int, i: int) -> bool
    decreases n,
{
    if n <= 0 {
        false
    } else {
        card_covered(hand, ranks, n - 1, i) || (18 * (n - 1) <= i < 18 * (n - 1) + hand.count(ranks[n - 1] as int))
    }
}

/// The entries that the rank slots of `hand` set stay within the matrix.
pub open spec fn cards_fit(hand: PlayerHand, ranks: Seq<usize>) -> bool {
    forall|k: int| 0 <= k < ranks.len() ==> 18 * k + hand.count(#[trigger] ranks[k] as int) <= CARD_MATRIX_SIZE
}

/// The seat `i` places after the perspective player's, round the table of `MAX_PLAYERS` seats.
pub open spec fn rotated_seat(state: IncompleteInformationGameState, i: int) -> int {
    (state.perspective_player_number.0 + i) % (MAX_PLAYERS as int)
}

/// The seats among the first `k` from the perspective player on that are not out, in order.
pub open spec fn seats_in_play(state: IncompleteInformationGameState, k: int) -> Seq<usize>
    decreases k,
{
    if k <= 0 {
        Seq::empty()
    } else if state.player_placements.place(rotated_seat(state, k - 1)) == 0 {
        seats_in_play(state, k - 1).push(rotated_seat(state, k - 1) as usize)
    } else {
        seats_in_play(state, k - 1)
    }
}

/// The seats not out, from the perspective player round the table; seat slot `k` of the seat
/// blocks stands for the `k`-th.
pub open spec fn play_seats(state: IncompleteInformationGameState) -> Seq<usize> {
    seats_in_play(state, MAX_PLAYERS as int)
}

/// The first of the first `n` slots of `seats` that holds `seat`.
pub open spec fn first_slot(seats: Seq<usize>, seat: int, n: int) -> Option<int>
    decreases n,
{
    if n <= 0 {
        None
    } else {
        match first_slot(seats, seat, n - 1) {
            Some(k) => Some(k),
            None => if seats[n - 1] == seat { Some(n - 1) } else { None },
        }
    }
}

proof fn lemma_ranks_in_play(state: IncompleteInformationGameState, k: int)
    requires
        0 <= k,
    ensures
        ranks_in_play(state, k).len() <= k,
        forall|j: int| 0 <= j < ranks_in_play(state, k).len() ==> #[trigger] ranks_in_play(state, k)[j] < k,
    decreases k,
{
    if k > 0 {
        lemma_ranks_in_play(state, k - 1);
    }
}

proof fn lemma_seats_in_play(state: IncompleteInformationGameState, k: int)
    requires
        0 <= k,
        state.perspective_player_number.0 < MAX_PLAYERS,
    ensures
        seats_in_play(state, k).len() <= k,
        forall|j: int| 0 <= j < seats_in_play(state, k).len() ==> #[trigger] seats_in_play(state, k)[j] < MAX_PLAYERS,
    decreases k,
{
    if k > 0 {
        lemma_seats_in_play(state, k - 1);
    }
}

/// How many places after the perspective player's seat `seat` sits, round the table.
pub open spec fn seat_offset(state: IncompleteInformationGameState, seat: int) -> int {
    (seat - state.perspective_player_number.0 + MAX_PLAYERS as int) % (MAX_PLAYERS as int)
}

proof fn lemma_seats_in_play_are_the_seats_not_out(state: IncompleteInformationGameState, k: int)
    requires
        0 <= k <= MAX_PLAYERS,
        state.perspective_player_number.0 < MAX_PLAYERS,
    ensures
        forall|j: int| 0 <= j < seats_in_play(state, k).len()
            ==> state.player_placements.place(#[trigger] seats_in_play(state, k)[j] as int) == 0,
        forall|j: int| 0 <= j < seats_in_play(state, k).len() ==> {
            let o = seat_offset(state, #[trigger] seats_in_play(state, k)[j] as int);
            0 <= o < k && rotated_seat(state, o) == seats_in_play(state, k)[j]
        },
        forall|j1: int, j2: int| 0 <= j1 < j2 < seats_in_play(state, k).len()
            ==> seat_offset(state, #[trigger] seats_in_play(state, k)[j1] as int)
                < seat_offset(state, #[trigger] seats_in_play(state, k)[j2] as int),
        forall|i: int| 0 <= i < k && #[trigger] state.player_placements.place(rotated_seat(state, i)) == 0
            ==> seats_in_play(state, k).contains(rotated_seat(state, i) as usize),
    decreases k,
{
    if k > 0 {
        lemma_seats_in_play_are_the_seats_not_out(state, k - 1);
        let prev = seats_in_play(state, k - 1);
        let cur = seats_in_play(state, k);
        let s = rotated_seat(state, k - 1);
        let p = state.perspective_player_number.0 as int;
        assert(0 <= s < MAX_PLAYERS);
        assert(seat_offset(state, s) == k - 1) by {
            assert(s == (p + k - 1) % 16);
        }
        if state.player_placements.place(s) == 0 {
            assert(cur == prev.push(s as usize));
            assert forall|i: int| 0 <= i < k && #[trigger] state.player_placements.place(rotated_seat(state, i)) == 0
                implies cur.contains(rotated_seat(state, i) as usize) by {
                if i < k - 1 {
                    let j = choose|j: int| 0 <= j < prev.len() && prev[j] == rotated_seat(state, i) as usize;
                    assert(cur[j] == prev[j]);
                } else {
                    assert(cur[prev.len() as int] == s as usize);
                }
            }
        } else {
            assert(cur == prev);
        }
    }
}

/// The seat slots list exactly the seats that are not out, each once, in order round the table
/// from the perspective player: every seat in a slot has no placement yet, each slot holds the
/// seat some number of places after the perspective player's, those numbers grow from slot to
/// slot, and every seat without a placement has a slot.
pub proof fn law_seat_slots_are_the_seats_in_play(state: IncompleteInformationGameState)
    requires
        state.perspective_player_number.0 < MAX_PLAYERS,
    ensures
        play_seats(state).len() <= MAX_PLAYERS,
        forall|k: int| 0 <= k < play_seats(state).len()
            ==> state.player_placements.place(#[trigger] play_seats(state)[k] as int) == 0,
        forall|k: int| 0 <= k < play_seats(state).len() ==> {
            let o = seat_offset(state, #[trigger] play_seats(state)[k] as int);
            0 <= o < MAX_PLAYERS && rotated_seat(state, o) == play_seats(state)[k]
        },
        forall|j: int, k: int| 0 <= j < k < play_seats(state).len()
            ==> seat_offset(state, #[trigger] play_seats(state)[j] as int)
                < seat_offset(state, #[trigger] play_seats(state)[k] as int),
        forall|i: int| 0 <= i < MAX_PLAYERS && #[trigger] state.player_placements.place(rotated_seat(state, i)) == 0
            ==> play_seats(state).contains(rotated_seat(state, i) as usize),
{
    lemma_seats_in_play(state, MAX_PLAYERS as int);
    lemma_seats_in_play_are_the_seats_not_out(state, MAX_PLAYERS as int);
}

/// The ranks still in play, in order.
fn play_rank_list(state: &IncompleteInformationGameState) -> (ranks: Vec<usize>)
    ensures
        ranks@ == play_ranks(*state),
        ranks@.len() <= MAX_CARD_ORDINALITY,
        forall|j: int| 0 <= j < ranks@.len() ==> #[trigger] ranks@[j] < MAX_CARD_ORDINALITY,
{
    let mut ranks: Vec<usize> = Vec::new();
    let mut r: usize = 0;
    while r < MAX_CARD_ORDINALITY
        invariant
            r <= MAX_CARD_ORDINALITY,
            ranks@ == ranks_in_play(*state, r as int),
        decreases MAX_CARD_ORDINALITY - r,
    {
        if state.opponent_cards.0[r].0 > 0 || state.player_hand.0[r].0 > 0 {
            ranks.push(r);
        }
        r = r + 1;
    }
    proof {
        lemma_ranks_in_play(*state, MAX_CARD_ORDINALITY as int);
    }
    ranks
}

/// The seats not out, from the perspective player round the table.
fn play_seat_list(state: &IncompleteInformationGameState) -> (seats: Vec<usize>)
    requires
        state.perspective_player_number.0 < MAX_PLAYERS,
    ensures
        seats@ == play_seats(*state),
        seats@.len() <= MAX_PLAYERS,
        forall|j: int| 0 <= j < seats@.len() ==> #[trigger] seats@[j] < MAX_PLAYERS,
{
    let mut seats: Vec<usize> = Vec::new();
    let mut i: usize = 0;
    while i < MAX_PLAYERS
        invariant
            i <= MAX_PLAYERS,
            state.perspective_player_number.0 < MAX_PLAYERS,
            seats@ == seats_in_play(*state, i as int),
        decreases MAX_PLAYERS - i,
    {
        let seat = (state.perspective_player_number.0 + i) % MAX_PLAYERS;
        if state.player_placements.0.0[seat] == 0 {
            seats.push(seat);
        }
        i = i + 1;
    }
    proof {
        lemma_seats_in_play(*state, MAX_PLAYERS as int);
    }
    seats
}

/// Writes the card matrix of `hand` over `ranks` into the zeroed entries from `start` on.
fn write_card_matrix(inputs: &mut [u8; NETWORK_CARD_INPUTS_SIZE], start: usize, hand: &PlayerHand, ranks: &Vec<usize>)
    requires
        start + CARD_MATRIX_SIZE <= NETWORK_CARD_INPUTS_SIZE,
        ranks@.len() <= MAX_CARD_ORDINALITY,
        forall|j: int| 0 <= j < ranks@.len() ==> #[trigger] ranks@[j] < MAX_CARD_ORDINALITY,
        cards_fit(*hand, ranks@),
        forall|i: int| 0 <= i < CARD_MATRIX_SIZE ==> #[trigger] old(inputs)@[start + i] == 0,
    ensures
        forall|i: int| 0 <= i < CARD_MATRIX_SIZE ==> #[trigger] final(inputs)@[start + i] == if card_covered(
            *hand,
            ranks@,
            ranks@.len() as int,
            i,
        ) {
            1u8
        } else {
            0u8
        },
        forall|i: int| 0 <= i < NETWORK_CARD_INPUTS_SIZE && !(start <= i < start + CARD_MATRIX_SIZE) ==> #[trigger] final(inputs)@[i]
            == old(inputs)@[i],
{
    let mut k: usize = 0;
    while k < ranks.len()
        invariant
            k <= ranks@.len() <= MAX_CARD_ORDINALITY,
            start + CARD_MATRIX_SIZE <= NETWORK_CARD_INPUTS_SIZE,
            forall|j: int| 0 <= j < ranks@.len() ==> #[trigger] ranks@[j] < MAX_CARD_ORDINALITY,
            cards_fit(*hand, ranks@),
            forall|i: int| 0 <= i < CARD_MATRIX_SIZE ==> #[trigger] inputs@[start + i] == if card_covered(*hand, ranks@, k as int, i) {
                1u8
            } else {
                0u8
            },
            forall|i: int| 0 <= i < NETWORK_CARD_INPUTS_SIZE && !(start <= i < start + CARD_MATRIX_SIZE) ==> #[trigger] inputs@[i]
                == old(inputs)@[i],
        decreases ranks@.len() - k,
    {
        let count = hand.0[ranks[k]].0;
        assert(18 * k + hand.count(ranks@[k as int] as int) <= CARD_MATRIX_SIZE);
        let base = 18 * k;
        let mut j: usize = 0;
        while j < count
            invariant
                k < ranks@.len() <= MAX_CARD_ORDINALITY,
                base == 18 * k,
                count == hand.count(ranks@[k as int] as int),
                base + count <= CARD_MATRIX_SIZE,
                j <= count,
                start + CARD_MATRIX_SIZE <= NETWORK_CARD_INPUTS_SIZE,
                forall|i: int| 0 <= i < CARD_MATRIX_SIZE ==> #[trigger] inputs@[start + i] == if card_covered(
                    *hand,
                    ranks@,
                    k as int,
                    i,
                ) || (base <= i < base + j) {
                    1u8
                } else {
                    0u8
                },
                forall|i: int| 0 <= i < NETWORK_CARD_INPUTS_SIZE && !(start <= i < start + CARD_MATRIX_SIZE) ==> #[trigger] inputs@[i]
                    == old(inputs)@[i],
            decreases count - j,
        {
            inputs[start + base + j] = 1;
            j = j + 1;
        }
        k = k + 1;
    }
}

/// What `network_card_inputs` needs of `state`: a valid perspective seat, card matrices whose
/// rank slots stay within them, and a top set of a rank and a size that the one-hots hold.
pub open spec fn network_inputs_fit(state: IncompleteInformationGameState) -> bool {
    &&& state.perspective_player_number.0 < MAX_PLAYERS
    &&& cards_fit(state.player_hand, play_ranks(state))
    &&& cards_fit(state.opponent_cards, play_ranks(state))
    &&& state.trick.top_set matches Some(t) ==> 0 < t.number.0 < MAX_CARD_NUMBER && t.rank.0 < MAX_CARD_ORDINALITY
}

fn hand_fits(hand: &PlayerHand, ranks: &Vec<usize>) -> (fits: bool)
    requires
        forall|j: int| 0 <= j < ranks@.len() ==> #[trigger] ranks@[j] < MAX_CARD_ORDINALITY,
        ranks@.len() <= MAX_CARD_ORDINALITY,
    ensures
        fits == cards_fit(*hand, ranks@),
{
    let mut k: usize = 0;
    while k < ranks.len()
        invariant
            k <= ranks@.len() <= MAX_CARD_ORDINALITY,
            forall|j: int| 0 <= j < ranks@.len() ==> #[trigger] ranks@[j] < MAX_CARD_ORDINALITY,
            forall|j: int| 0 <= j < k ==> 18 * j + hand.count(#[trigger] ranks@[j] as int) <= CARD_MATRIX_SIZE,
        decreases ranks@.len() - k,
    {
        let count = hand.0[ranks[k]].0;
        if count > CARD_MATRIX_SIZE - 18 * k {
            assert(!(18 * k + hand.count(ranks@[k as int] as int) <= CARD_MATRIX_SIZE));
            return false;
        }
        k = k + 1;
    }
    true
}

/// Whether `network_card_inputs` can run on `state`; see `network_inputs_fit`.
pub fn network_inputs_fit_check(state: &IncompleteInformationGameState) -> (fits: bool)
    ensures
        fits == network_inputs_fit(*state),
{
    if state.perspective_player_number.0 >= MAX_PLAYERS {
        return false;
    }
    let ranks = play_rank_list(state);
    if !hand_fits(&state.player_hand, &ranks) || !hand_fits(&state.opponent_cards, &ranks) {
        return false;
    }
    match state.trick.top_set {
        Some(t) => 0 < t.number.0 && t.number.0 < MAX_CARD_NUMBER && t.rank.0 < MAX_CARD_ORDINALITY,
        None => true,
    }
}

/// The value network's byte inputs of `state`, all but the value of the state. The ranks still
/// in play (held by the player or the opponents) are numbered in order, and the seats not out
/// are numbered from the perspective player round the table. In order:
/// - the player's card matrix: for rank slot `k`, the first `count` of its `MAX_CARD_NUMBER`
///   entries are one, `count` being the player's cards of that rank;
/// - the opponents' card matrix, in the same way;
/// - one if a set is on the table;
/// - the rank of the top set, one-hot over the ranks;
/// - its number of cards, one-hot from one card on;
/// - the seat slot of its leader, one-hot (none when the leader is out);
/// - for each seat slot, zero if that seat has not passed, one otherwise (and for slots past the
///   seats in play);
/// - for each seat slot, that seat's hand size as a byte (zero past the seats in play).
pub fn network_card_inputs(state: &IncompleteInformationGameState) -> (inputs: [u8; NETWORK_CARD_INPUTS_SIZE])
    requires
        state.perspective_player_number.0 < MAX_PLAYERS,
        cards_fit(state.player_hand, play_ranks(*state)),
        cards_fit(state.opponent_cards, play_ranks(*state)),
        state.trick.top_set matches Some(t) ==> 0 < t.number.0 < MAX_CARD_NUMBER && t.rank.0 < MAX_CARD_ORDINALITY,
    ensures
        ({
            let ranks = play_ranks(*state);
            forall|i: int| 0 <= i < CARD_MATRIX_SIZE ==> #[trigger] inputs@[i] == if card_covered(
                state.player_hand,
                ranks,
                ranks.len() as int,
                i,
            ) {
                1u8
            } else {
                0u8
            }
        }),
        ({
            let ranks = play_ranks(*state);
            forall|i: int| 0 <= i < CARD_MATRIX_SIZE ==> #[trigger] inputs@[OPPONENT_MATRIX_START + i] == if card_covered(
                state.opponent_cards,
                ranks,
                ranks.len() as int,
                i,
            ) {
                1u8
            } else {
                0u8
            }
        }),
        inputs@[TOP_SET_FLAG as int] == if state.trick.top_set is Some { 1u8 } else { 0u8 },
        forall|r: int| 0 <= r < MAX_CARD_ORDINALITY ==> #[trigger] inputs@[TOP_SET_RANK_START + r] == if (state.trick.top_set matches Some(
            t,
        ) && t.rank.0 == r) {
            1u8
        } else {
            0u8
        },
        forall|i: int| 0 <= i < MAX_CARD_NUMBER - 1 ==> #[trigger] inputs@[TOP_SET_NUMBER_START + i] == if (state.trick.top_set matches Some(
            t,
        ) && t.number.0 == i + 1) {
            1u8
        } else {
            0u8
        },
        ({
            let seats = play_seats(*state);
            forall|k: int| 0 <= k < MAX_PLAYERS ==> #[trigger] inputs@[LEADER_START + k] == if (state.trick.top_set matches Some(t)
                && first_slot(seats, t.player.0 as int, seats.len() as int) == Some(k)) {
                1u8
            } else {
                0u8
            }
        }),
        ({
            let seats = play_seats(*state);
            forall|k: int| 0 <= k < MAX_PLAYERS ==> #[trigger] inputs@[PASSED_START + k] == if k < seats.len()
                && !state.trick.has_passed.at(seats[k] as int) {
                0u8
            } else {
                1u8
            }
        }),
        ({
            let seats = play_seats(*state);
            forall|k: int| 0 <= k < MAX_PLAYERS ==> #[trigger] inputs@[HAND_SIZES_START + k] == if k < seats.len() {
                state.hand_sizes.size(seats[k] as int) as u8
            } else {
                0u8
            }
        }),
{
    let ranks = play_rank_list(state);
    let seats = play_seat_list(state);
    let mut inputs: [u8; NETWORK_CARD_INPUTS_SIZE] = [0u8; NETWORK_CARD_INPUTS_SIZE];
    assert(forall|i: int| 0 <= i < NETWORK_CARD_INPUTS_SIZE ==> #[trigger] inputs@[i] == 0);
    write_card_matrix(&mut inputs, 0, &state.player_hand, &ranks);
    let ghost player_cards = inputs;
    write_card_matrix(&mut inputs, OPPONENT_MATRIX_START, &state.opponent_cards, &ranks);
    let ghost cards = inputs;
    proof {
        assert forall|i: int| 0 <= i < CARD_MATRIX_SIZE implies #[trigger] cards@[i] == if card_covered(
            state.player_hand,
            ranks@,
            ranks@.len() as int,
            i,
        ) {
            1u8
        } else {
            0u8
        } by {
            assert(player_cards@[0 + i] == player_cards@[i]);
            assert(cards@[i] == player_cards@[i]);
        }
    }
    let mut tail: [u8; 84] = [0u8; 84];
    assert(forall|i: int| 0 <= i < 84 ==> #[trigger] tail@[i] == 0);
    let leader = match state.trick.top_set {
        Some(t) => find_slot(&seats, t.player.0),
        None => None,
    };
    proof {
        let seats_spec = play_seats(*state);
        if let Some(t) = state.trick.top_set {
            lemma_first_slot_range(seats_spec, t.player.0 as int, seats_spec.len() as int);
        }
        assert(match state.trick.top_set {
            Some(t) => match first_slot(seats_spec, t.player.0 as int, seats_spec.len() as int) {
                Some(k) => leader == Some(k as usize) && 0 <= k < seats_spec.len(),
                None => leader is None,
            },
            None => leader is None,
        });
    }
    match state.trick.top_set {
        Some(t) => {
            tail[0] = 1;
            tail[1 + t.rank.0] = 1;
            tail[19 + t.number.0 - 1] = 1;
        },
        None => {},
    }
    let ghost set_tail = tail;
    proof {
        assert forall|i: int| 0 <= i < 84 implies #[trigger] set_tail@[i] == match state.trick.top_set {
            Some(t) => if i == 0 || i == 1 + t.rank.0 || i == 19 + t.number.0 - 1 { 1u8 } else { 0u8 },
            None => 0u8,
        } by {}
    }
    match leader {
        Some(k) => {
            tail[36 + k] = 1;
        },
        None => {},
    }
    proof {
        assert forall|i: int| 0 <= i < 52 implies #[trigger] tail@[i] == spec_tail_head(*state, i) by {
            assert(set_tail@[i] == match state.trick.top_set {
                Some(t) => if i == 0 || i == 1 + t.rank.0 || i == 19 + t.number.0 - 1 { 1u8 } else { 0u8 },
                None => 0u8,
            });
            match leader {
                Some(k) => {
                    if i != 36 + k {
                        assert(tail@[i] == set_tail@[i]);
                    }
                    if i >= 36 {
                        assert((leader == Some((i - 36) as usize)) == (state.trick.top_set matches Some(t) && first_slot(
                            play_seats(*state),
                            t.player.0 as int,
                            play_seats(*state).len() as int,
                        ) == Some(i - 36)));
                    }
                },
                None => {
                    assert(tail@[i] == set_tail@[i]);
                    if i >= 36 {
                        assert((leader == Some((i - 36) as usize)) == (state.trick.top_set matches Some(t) && first_slot(
                            play_seats(*state),
                            t.player.0 as int,
                            play_seats(*state).len() as int,
                        ) == Some(i - 36)));
                    }
                },
            }
        }
    }
    let ghost leader_tail = tail;
    let mut k: usize = 0;
    while k < MAX_PLAYERS
        invariant
            k <= MAX_PLAYERS,
            seats@.len() <= MAX_PLAYERS,
            forall|j: int| 0 <= j < seats@.len() ==> #[trigger] seats@[j] < MAX_PLAYERS,
            forall|i: int| 0 <= i < 52 ==> #[trigger] tail@[i] == leader_tail@[i],
            forall|j: int| 0 <= j < k ==> #[trigger] tail@[52 + j] == if j < seats@.len() && !state.trick.has_passed.at(
                seats@[j] as int,
            ) {
                0u8
            } else {
                1u8
            },
            forall|j: int| 0 <= j < k ==> #[trigger] tail@[68 + j] == if j < seats@.len() {
                state.hand_sizes.size(seats@[j] as int) as u8
            } else {
                0u8
            },
        decreases MAX_PLAYERS - k,
    {
        if k < seats.len() {
            let seat = seats[k];
            tail[52 + k] = if state.trick.has_passed.0[seat] { 1 } else { 0 };
            tail[68 + k] = state.hand_sizes.0.0[seat] as u8;
        } else {
            tail[52 + k] = 1;
            tail[68 + k] = 0;
        }
        k = k + 1;
    }
    let mut i: usize = 0;
    while i < 84
        invariant
            i <= 84,
            forall|j: int| 0 <= j < TOP_SET_FLAG ==> #[trigger] inputs@[j] == cards@[j],
            forall|j: int| 0 <= j < i ==> #[trigger] inputs@[TOP_SET_FLAG + j] == tail@[j],
        decreases 84 - i,
    {
        inputs[TOP_SET_FLAG + i] = tail[i];
        i = i + 1;
    }
    proof {
        let seats_spec = play_seats(*state);
        assert forall|k: int| 0 <= k < MAX_PLAYERS implies #[trigger] inputs@[LEADER_START + k] == if (state.trick.top_set matches Some(t)
            && first_slot(seats_spec, t.player.0 as int, seats_spec.len() as int) == Some(k)) {
            1u8
        } else {
            0u8
        } by {
            assert(inputs@[TOP_SET_FLAG + (36 + k)] == tail@[36 + k]);
            assert(tail@[36 + k] == spec_tail_head(*state, 36 + k));
            assert(tail@[36 + k] == leader_tail@[36 + k]);
        }
        assert forall|r: int| 0 <= r < MAX_CARD_ORDINALITY implies #[trigger] inputs@[TOP_SET_RANK_START + r] == if (state.trick.top_set matches Some(
            t,
        ) && t.rank.0 == r) {
            1u8
        } else {
            0u8
        } by {
            assert(inputs@[TOP_SET_FLAG + (1 + r)] == tail@[1 + r]);
            assert(tail@[1 + r] == spec_tail_head(*state, 1 + r));
            assert(tail@[1 + r] == leader_tail@[1 + r]);
        }
        assert forall|j: int| 0 <= j < MAX_CARD_NUMBER - 1 implies #[trigger] inputs@[TOP_SET_NUMBER_START + j] == if (state.trick.top_set matches Some(
            t,
        ) && t.number.0 == j + 1) {
            1u8
        } else {
            0u8
        } by {
            assert(inputs@[TOP_SET_FLAG + (19 + j)] == tail@[19 + j]);
            assert(tail@[19 + j] == spec_tail_head(*state, 19 + j));
            assert(tail@[19 + j] == leader_tail@[19 + j]);
        }
        assert(inputs@[TOP_SET_FLAG + 0] == tail@[0]);
        assert(tail@[0] == spec_tail_head(*state, 0));
        assert(tail@[0] == leader_tail@[0]);
        assert forall|k: int| 0 <= k < MAX_PLAYERS implies #[trigger] inputs@[PASSED_START + k] == tail@[52 + k] by {
            assert(inputs@[TOP_SET_FLAG + (52 + k)] == tail@[52 + k]);
        }
        assert forall|k: int| 0 <= k < MAX_PLAYERS implies #[trigger] inputs@[HAND_SIZES_START + k] == tail@[68 + k] by {
            assert(inputs@[TOP_SET_FLAG + (68 + k)] == tail@[68 + k]);
        }
        assert forall|i: int| 0 <= i < CARD_MATRIX_SIZE implies #[trigger] inputs@[OPPONENT_MATRIX_START + i] == cards@[OPPONENT_MATRIX_START + i] by {}
    }
    inputs
}

/// Entry `i` of the table blocks, for the flag, the rank, the number and the leader (the first
/// 52 entries after the card matrices).
pub open spec fn spec_tail_head(state: IncompleteInformationGameState, i: int) -> u8 {
    let seats = play_seats(state);
    match state.trick.top_set {
        Some(t) => if i == 0 || i == 1 + t.rank.0 || i == 19 + t.number.0 - 1 || (36 <= i && first_slot(
            seats,
            t.player.0 as int,
            seats.len() as int,
        ) == Some(i - 36)) {
            1u8
        } else {
            0u8
        },
        None => 0u8,
    }
}

/// The first slot of `seats` that holds `seat`.
fn find_slot(seats: &Vec<usize>, seat: usize) -> (slot: Option<usize>)
    requires
        seats@.len() <= MAX_PLAYERS,
    ensures
        match first_slot(seats@, seat as int, seats@.len() as int) {
            Some(k) => slot == Some(k as usize),
            None => slot is None,
        },
        slot matches Some(k) ==> k < seats@.len(),
{
    let mut k: usize = 0;
    while k < seats.len()
        invariant
            k <= seats@.len() <= MAX_PLAYERS,
            first_slot(seats@, seat as int, k as int) is None,
        decreases seats@.len() - k,
    {
        if seats[k] == seat {
            assert(first_slot(seats@, seat as int, k + 1) == Some(k as int));
            proof {
                lemma_first_slot_from(seats@, seat as int, k + 1, seats@.len() as int);
            }
            return Some(k);
        }
        k = k + 1;
    }
    None
}

/// A slot found among the first `n` slots is one of them.
proof fn lemma_first_slot_range(seats: Seq<usize>, seat: int, n: int)
    ensures
        first_slot(seats, seat, n) matches Some(k) ==> 0 <= k < n,
    decreases n,
{
    if n > 0 {
        lemma_first_slot_range(seats, seat, n - 1);
    }
}

/// A slot found among the first slots stays the first slot.
proof fn lemma_first_slot_from(seats: Seq<usize>, seat: int, a: int, b: int)
    requires
        0 <= a <= b,
        first_slot(seats, seat, a) is Some,
    ensures
        first_slot(seats, seat, b) == first_slot(seats, seat, a),
    decreases b - a,
{
    if a < b {
        lemma_first_slot_from(seats, seat, a, b - 1);
    }
}

} // verus!
