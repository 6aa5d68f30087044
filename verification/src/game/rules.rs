use vstd::prelude::*;

use crate::consts::{MAX_CARD_ORDINALITY, MAX_PLAYERS};
use crate::game::actions::{Move, Play, TopSet};
use crate::game::collections::{
    spec_next_active, spec_next_active_from, PlayerHand, PlayerIndexed, PlayerPlacements,
};
use crate::game::primitives::{CardCount, CardRank, PlayerID, MAX_TOTAL_PLAY};
use crate::game::state::{FullInformationGameState, IncompleteInformationGameState};

verus! {

/// A move that the rules refuse.
#[derive(Debug)]
pub enum GameLogicError {
    InvalidMove(String),
}

/// Every player among the first `n` seats other than the leader `top` who still holds cards has
/// passed.
pub open spec fn spec_all_passed(
    has_passed: Seq<bool>,
    placements: PlayerPlacements,
    n: int,
    top: int,
) -> bool {
    forall|p: int| 0 <= p < n && p != top && placements.place(p) == 0 ==> #[trigger] has_passed[p]
}

/// The search for the next active player only ever lands on an active seat other than the
/// current one, among the first `n` seats.
pub proof fn lemma_next_active_from_props(placements: PlayerPlacements, c: int, n: int, i: int)
    requires
        0 <= c < n <= MAX_PLAYERS,
    ensures
        spec_next_active_from(placements, c, n, i) matches Some(q) ==> {
            &&& 0 <= q.0 < n
            &&& q.0 != c
            &&& placements.place(q.0 as int) == 0
        },
    decreases n - i,
{
    if 1 <= i < n {
        if placements.place((c + i) % n) != 0 {
            lemma_next_active_from_props(placements, c, n, i + 1);
        } else {
            assert((c + i) % n != c) by {
                lemma_mod_offset(c, i, n);
            }
        }
    }
}

/// Stepping `i` seats (0 < i < n) from seat `c` around `n` seats.
pub proof fn lemma_mod_offset(c: int, i: int, n: int)
    requires
        0 <= c < n,
        0 < i < n,
    ensures
        (c + i) % n == if c + i < n { c + i } else { c + i - n },
        (c + i) % n != c,
        0 <= (c + i) % n < n,
{
    if c + i < n {
        vstd::arithmetic::div_mod::lemma_small_mod((c + i) as nat, n as nat);
    } else {
        vstd::arithmetic::div_mod::lemma_small_mod((c + i - n) as nat, n as nat);
        vstd::arithmetic::div_mod::lemma_mod_sub_multiples_vanish(c + i, n);
    }
}

/// If some seat `(c + k) % n` with `j <= k < n` is active, the search starting at offset `j`
/// finds an active seat.
pub proof fn lemma_next_active_from_finds(placements: PlayerPlacements, c: int, n: int, j: int, k: int)
    requires
        0 <= c < n <= MAX_PLAYERS,
        1 <= j <= k < n,
        placements.place((c + k) % n) == 0,
    ensures
        spec_next_active_from(placements, c, n, j) is Some,
    decreases k - j,
{
    if placements.place((c + j) % n) != 0 {
        lemma_next_active_from_finds(placements, c, n, j + 1, k);
    }
}

/// An active seat other than `c` among the first `n` makes the next active player exist.
pub proof fn lemma_next_active_exists(placements: PlayerPlacements, c: int, n: int, p: int)
    requires
        0 <= c < n <= MAX_PLAYERS,
        0 <= p < n,
        p != c,
        placements.place(p) == 0,
    ensures
        spec_next_active(placements, c, n) is Some,
{
    let k = if p > c { p - c } else { p - c + n };
    lemma_mod_offset(c, k, n);
    lemma_next_active_from_finds(placements, c, n, 1, k);
}

/// Whether every player who still holds cards, other than the leader `top_set_player`, has
/// passed.
pub fn all_players_have_passed(
    has_passed: &PlayerIndexed<bool>,
    player_placements: &PlayerPlacements,
    number_of_players: usize,
    top_set_player: PlayerID,
) -> (all_passed: bool)
    requires
        0 < number_of_players <= MAX_PLAYERS,
    ensures
        all_passed == spec_all_passed(
            has_passed.0@,
            *player_placements,
            number_of_players as int,
            top_set_player.0 as int,
        ),
{
    let mut p: usize = 0;
    while p < number_of_players
        invariant
            p <= number_of_players <= MAX_PLAYERS,
            forall|q: int|
                0 <= q < p && q != top_set_player.0 && player_placements.place(q) == 0
                    ==> #[trigger] has_passed.0@[q],
        decreases number_of_players - p,
    {
        if p != top_set_player.0 && player_placements.0.0[p] == 0 && !has_passed.0[p] {
            assert(!has_passed.0@[p as int]);
            return false;
        }
        p = p + 1;
    }
    true
}

/// `after` is `before` with the cards of `play` taken out.
pub open spec fn spec_hand_after_play(before: PlayerHand, after: PlayerHand, play: Play) -> bool {
    forall|r: int|
        0 <= r < MAX_CARD_ORDINALITY ==> #[trigger] after.count(r) == if r == 0 {
            before.count(0) - play.num_wilds.0
        } else if r == play.rank.0 {
            before.count(r) - play.num_non_wilds.0
        } else {
            before.count(r) as int
        }
}

/// `hand` holds the cards that `play` needs.
pub open spec fn spec_can_afford(hand: PlayerHand, play: Play) -> bool {
    &&& hand.count(0) >= play.num_wilds.0
    &&& hand.count(play.rank.0 as int) >= play.num_non_wilds.0
}

/// Takes the cards of `play` out of `hand`.
fn remove_play_from_hand(hand: &mut PlayerHand, play: Play)
    requires
        old(hand).wf(),
        play.wf(),
        spec_can_afford(*old(hand), play),
    ensures
        final(hand).wf(),
        spec_hand_after_play(*old(hand), *final(hand), play),
{
    let wild = CardRank::wild();
    let wilds = hand.0[0];
    hand.set_count(wild, CardCount::new(wilds.0 - play.num_wilds.0));
    let non_wilds = hand.0[play.rank.0];
    hand.set_count(play.rank, CardCount::new(non_wilds.0 - play.num_non_wilds.0));
    assert forall|r: int| 0 <= r < MAX_CARD_ORDINALITY implies #[trigger] hand.count(r) <= MAX_TOTAL_PLAY by {
        assert(old(hand).count(r) <= MAX_TOTAL_PLAY);
    }
}

/// The placements after the current player's play: they go out when their hand is empty.
pub open spec fn spec_placements_after_play(
    before: PlayerPlacements,
    after: PlayerPlacements,
    player: int,
    emptied: bool,
) -> bool {
    if emptied {
        &&& after.place(player) == before.max_place() + 1
        &&& forall|p: int| 0 <= p < MAX_PLAYERS && p != player ==> #[trigger] after.place(p) == before.place(p)
    } else {
        after == before
    }
}

/// The trick after a play: the play is the top set and nobody has passed on it.
pub open spec fn spec_trick_after_play(after_top: Option<TopSet>, after_passed: PlayerIndexed<bool>, player: PlayerID, play: Play) -> bool {
    &&& after_top == Some(TopSet { player, rank: play.rank, number: CardCount(play.total() as usize) })
    &&& forall|p: int| 0 <= p < MAX_PLAYERS ==> !#[trigger] after_passed.at(p)
}

/// How one move changes the whole game: the result of `update_full_information_game_state`
/// with the state `before` the move and `after` it.
pub open spec fn spec_full_update(
    before: FullInformationGameState,
    after: FullInformationGameState,
    player_move: Move,
    result: Result<bool, GameLogicError>,
) -> bool {
    let c = before.current_player_number;
    let n = before.number_of_players as int;
    match player_move {
        Move::Play(play) => {
            &&& spec_hand_after_play(before.hand(c.0 as int), after.hand(c.0 as int), play)
            &&& forall|p: int| 0 <= p < MAX_PLAYERS && p != c.0 ==> #[trigger] after.hand(p) == before.hand(p)
            &&& spec_trick_after_play(after.trick.top_set, after.trick.has_passed, c, play)
            &&& spec_placements_after_play(
                before.player_placements,
                after.player_placements,
                c.0 as int,
                after.hand(c.0 as int).total() == 0,
            )
            &&& match spec_next_active(after.player_placements, c.0 as int, n) {
                Some(q) => result == Ok::<bool, GameLogicError>(false) && after.current_player_number == q,
                None => result == Ok::<bool, GameLogicError>(true) && after.current_player_number == c,
            }
        },
        Move::Pass => {
            &&& after.player_hands == before.player_hands
            &&& after.player_placements == before.player_placements
            &&& match before.trick.top_set {
                None => {
                    &&& result is Err
                    &&& after.current_player_number == c
                    &&& after.trick.top_set.is_none()
                    &&& after.trick.has_passed.0@ == before.trick.has_passed.0@.update(c.0 as int, true)
                },
                Some(t) => {
                    let passed = before.trick.has_passed.0@.update(c.0 as int, true);
                    if spec_all_passed(passed, before.player_placements, n, t.player.0 as int) {
                        &&& after.trick.top_set.is_none()
                        &&& forall|p: int| 0 <= p < MAX_PLAYERS ==> !#[trigger] after.trick.has_passed.at(p)
                        &&& if before.player_placements.place(t.player.0 as int) != 0 {
                            match spec_next_active(before.player_placements, t.player.0 as int, n) {
                                Some(q) => result == Ok::<bool, GameLogicError>(false) && after.current_player_number == q,
                                None => result == Ok::<bool, GameLogicError>(true) && after.current_player_number == c,
                            }
                        } else {
                            result == Ok::<bool, GameLogicError>(false) && after.current_player_number == t.player
                        }
                    } else {
                        &&& after.trick.top_set == before.trick.top_set
                        &&& after.trick.has_passed.0@ == passed
                        &&& result == Ok::<bool, GameLogicError>(false)
                        &&& Some(after.current_player_number) == spec_next_active(before.player_placements, c.0 as int, n)
                    }
                },
            }
        },
    }
}

/// How one move changes what the perspective player knows: the result of
/// `update_incomplete_information_game_state` with the state `before` the move and `after` it.
pub open spec fn spec_incomplete_update(
    before: IncompleteInformationGameState,
    after: IncompleteInformationGameState,
    player_move: Move,
    result: Result<(), GameLogicError>,
) -> bool {
    let c = before.current_player_number;
    let n = before.number_of_players as int;
    match player_move {
        Move::Play(play) => {
            &&& result is Ok
            &&& if c == before.perspective_player_number {
                &&& spec_hand_after_play(before.player_hand, after.player_hand, play)
                &&& after.opponent_cards == before.opponent_cards
            } else {
                &&& spec_hand_after_play(before.opponent_cards, after.opponent_cards, play)
                &&& after.player_hand == before.player_hand
            }
            &&& after.hand_sizes.0.0@ == before.hand_sizes.0.0@.update(
                c.0 as int,
                (before.hand_sizes.size(c.0 as int) - play.total()) as usize,
            )
            &&& spec_trick_after_play(after.trick.top_set, after.trick.has_passed, c, play)
            &&& spec_placements_after_play(
                before.player_placements,
                after.player_placements,
                c.0 as int,
                after.hand_sizes.size(c.0 as int) == 0,
            )
            &&& match spec_next_active(after.player_placements, c.0 as int, n) {
                Some(q) => after.current_player_number == q,
                None => after.current_player_number == c,
            }
        },
        Move::Pass => {
            &&& after.player_hand == before.player_hand
            &&& after.opponent_cards == before.opponent_cards
            &&& after.hand_sizes == before.hand_sizes
            &&& after.player_placements == before.player_placements
            &&& match before.trick.top_set {
                None => {
                    &&& result is Err
                    &&& after.current_player_number == c
                    &&& after.trick.top_set.is_none()
                    &&& after.trick.has_passed.0@ == before.trick.has_passed.0@.update(c.0 as int, true)
                },
                Some(t) => {
                    let passed = before.trick.has_passed.0@.update(c.0 as int, true);
                    &&& result is Ok
                    &&& if spec_all_passed(passed, before.player_placements, n, t.player.0 as int) {
                        &&& after.trick.top_set.is_none()
                        &&& forall|p: int| 0 <= p < MAX_PLAYERS ==> !#[trigger] after.trick.has_passed.at(p)
                        &&& if before.player_placements.place(t.player.0 as int) != 0 {
                            match spec_next_active(before.player_placements, t.player.0 as int, n) {
                                Some(q) => after.current_player_number == q,
                                None => after.current_player_number == c,
                            }
                        } else {
                            after.current_player_number == t.player
                        }
                    } else {
                        &&& after.trick.top_set == before.trick.top_set
                        &&& after.trick.has_passed.0@ == passed
                        &&& Some(after.current_player_number) == spec_next_active(before.player_placements, c.0 as int, n)
                    }
                },
            }
        },
    }
}

/// Applies `player_move` for the current player. Returns `Ok(true)` when no other player holding
/// cards is left to take a turn (the round is over), `Ok(false)` otherwise, and an error for a
/// pass on an empty trick.
pub fn update_full_information_game_state(
    game_state: &mut FullInformationGameState,
    player_move: Move,
) -> (result: Result<bool, GameLogicError>)
    requires
        old(game_state).wf(),
        player_move matches Move::Play(play) ==> {
            &&& play.wf()
            &&& spec_can_afford(old(game_state).hand(old(game_state).current_player_number.0 as int), play)
            &&& old(game_state).player_placements.place(old(game_state).current_player_number.0 as int) == 0
        },
    ensures
        final(game_state).wf(),
        final(game_state).number_of_players == old(game_state).number_of_players,
        result matches Ok(false) ==> final(game_state).player_placements.place(
            final(game_state).current_player_number.0 as int,
        ) == 0,
        spec_full_update(*old(game_state), *final(game_state), player_move, result),
{
    let c = game_state.current_player_number;
    let n = game_state.number_of_players;
    let ghost before = *game_state;
    match player_move {
        Move::Play(play) => {
            let mut hand = game_state.player_hands.0[c.0];
            assert(hand == before.hand(c.0 as int));
            remove_play_from_hand(&mut hand, play);
            game_state.player_hands.set_value(c, hand);
            game_state.trick.top_set = Some(TopSet::new(c, play.rank, play.total_count()));
            let emptied = hand.is_empty();
            if emptied {
                game_state.player_placements.mark_out(c);
            }
            game_state.trick.has_passed = PlayerIndexed::filled(false);
            assert forall|p: int| 0 <= p < MAX_PLAYERS implies (#[trigger] game_state.player_hands.at(p)).wf() by {
                if p != c.0 {
                    assert(game_state.hand(p) == before.hand(p));
                }
            }
            let next = game_state.player_placements.get_next_active_player(c, n);
            proof {
                lemma_next_active_from_props(game_state.player_placements, c.0 as int, n as int, 1);
            }
            assert(game_state.hands_wf());
            assert(game_state.player_placements.wf());
            match next {
                Some(player_number) => {
                    game_state.current_player_number = player_number;
                    Ok(false)
                },
                None => Ok(true),
            }
        },
        Move::Pass => {
            game_state.trick.has_passed.set_value(c, true);
            let top_set_player = match game_state.trick.top_set {
                Some(top_set) => top_set.player,
                None => {
                    return Err(GameLogicError::InvalidMove("Tried to pass on empty trick!".to_string()));
                },
            };
            if all_players_have_passed(
                &game_state.trick.has_passed,
                &game_state.player_placements,
                n,
                top_set_player,
            ) {
                game_state.trick.has_passed = PlayerIndexed::filled(false);
                let trick_winner = top_set_player;
                game_state.trick.top_set = None;
                if game_state.player_placements.is_out(trick_winner) {
                    let next = game_state.player_placements.get_next_active_player(trick_winner, n);
                    proof {
                        lemma_next_active_from_props(game_state.player_placements, trick_winner.0 as int, n as int, 1);
                    }
                    match next {
                        Some(player_number) => {
                            game_state.current_player_number = player_number;
                            Ok(false)
                        },
                        None => Ok(true),
                    }
                } else {
                    game_state.current_player_number = trick_winner;
                    Ok(false)
                }
            } else {
                proof {
                    let hp = game_state.trick.has_passed.0@;
                    let p = choose|p: int|
                        0 <= p < n && p != top_set_player.0 && before.player_placements.place(p) == 0
                            && !#[trigger] hp[p];
                    assert(p != c.0);
                    lemma_next_active_exists(before.player_placements, c.0 as int, n as int, p);
                    lemma_next_active_from_props(before.player_placements, c.0 as int, n as int, 1);
                }
                let next = game_state.player_placements.get_next_active_player(c, n);
                match next {
                    Some(player_number) => {
                        game_state.current_player_number = player_number;
                    },
                    None => {},
                }
                Ok(false)
            }
        },
    }
}


/// Applies `player_move` for the current player to what the perspective player knows: a play
/// comes out of the perspective player's hand when it is theirs and out of the pooled opponent
/// cards otherwise. A pass on an empty trick is an error.
pub fn update_incomplete_information_game_state(
    game_state: &mut IncompleteInformationGameState,
    player_move: Move,
) -> (result: Result<(), GameLogicError>)
    requires
        old(game_state).wf(),
        player_move matches Move::Play(play) ==> {
            let c = old(game_state).current_player_number;
            &&& play.wf()
            &&& spec_can_afford(
                if c == old(game_state).perspective_player_number {
                    old(game_state).player_hand
                } else {
                    old(game_state).opponent_cards
                },
                play,
            )
            &&& old(game_state).hand_sizes.size(c.0 as int) >= play.total()
            &&& old(game_state).player_placements.place(c.0 as int) == 0
        },
    ensures
        final(game_state).wf(),
        final(game_state).number_of_players == old(game_state).number_of_players,
        final(game_state).perspective_player_number == old(game_state).perspective_player_number,
        spec_incomplete_update(*old(game_state), *final(game_state), player_move, result),
{
    let c = game_state.current_player_number;
    let n = game_state.number_of_players;
    let ghost before = *game_state;
    match player_move {
        Move::Play(play) => {
            if c.0 != game_state.perspective_player_number.0 {
                remove_play_from_hand(&mut game_state.opponent_cards, play);
            } else {
                remove_play_from_hand(&mut game_state.player_hand, play);
            }
            let total = play.total_count();
            game_state.hand_sizes.remove_cards(c, total);
            game_state.trick.top_set = Some(TopSet::new(c, play.rank, total));
            if game_state.hand_sizes.is_empty(c) {
                game_state.player_placements.mark_out(c);
            }
            game_state.trick.has_passed = PlayerIndexed::filled(false);
            let next = game_state.player_placements.get_next_active_player(c, n);
            proof {
                lemma_next_active_from_props(game_state.player_placements, c.0 as int, n as int, 1);
            }
            match next {
                Some(player_number) => {
                    game_state.current_player_number = player_number;
                },
                None => {},
            }
        },
        Move::Pass => {
            game_state.trick.has_passed.set_value(c, true);
            let top_set_player = match game_state.trick.top_set {
                Some(top_set) => top_set.player,
                None => {
                    return Err(GameLogicError::InvalidMove("Tried to pass on empty trick!".to_string()));
                },
            };
            if all_players_have_passed(
                &game_state.trick.has_passed,
                &game_state.player_placements,
                n,
                top_set_player,
            ) {
                game_state.trick.has_passed = PlayerIndexed::filled(false);
                let trick_winner = top_set_player;
                game_state.trick.top_set = None;
                if game_state.player_placements.is_out(trick_winner) {
                    let next = game_state.player_placements.get_next_active_player(trick_winner, n);
                    proof {
                        lemma_next_active_from_props(game_state.player_placements, trick_winner.0 as int, n as int, 1);
                    }
                    match next {
                        Some(player_number) => {
                            game_state.current_player_number = player_number;
                        },
                        None => {},
                    }
                } else {
                    game_state.current_player_number = trick_winner;
                }
            } else {
                proof {
                    let hp = game_state.trick.has_passed.0@;
                    let p = choose|p: int|
                        0 <= p < n && p != top_set_player.0 && before.player_placements.place(p) == 0
                            && !#[trigger] hp[p];
                    assert(p != c.0);
                    lemma_next_active_exists(before.player_placements, c.0 as int, n as int, p);
                    lemma_next_active_from_props(before.player_placements, c.0 as int, n as int, 1);
                }
                let next = game_state.player_placements.get_next_active_player(c, n);
                match next {
                    Some(player_number) => {
                        game_state.current_player_number = player_number;
                    },
                    None => {},
                }
            }
        },
    }
    Ok(())
}


/// A legal answer to the top set `t`: a pass, or as many cards as `t` of a better (smaller)
/// non-wild rank, wilds filling in, all held in `hand`.
pub open spec fn spec_legal_response(hand: PlayerHand, t: TopSet, m: Move) -> bool {
    match m {
        Move::Pass => true,
        Move::Play(p) => {
            &&& 1 <= p.rank.0 < t.rank.0
            &&& p.num_non_wilds.0 + p.num_wilds.0 == t.number.0
            &&& p.num_non_wilds.0 <= hand.count(p.rank.0 as int)
            &&& p.num_wilds.0 <= hand.count(0)
        },
    }
}

/// A legal lead on an empty trick: at least one card of a non-wild rank, wilds helping, all held
/// in `hand`.
pub open spec fn spec_legal_lead(hand: PlayerHand, m: Move) -> bool {
    match m {
        Move::Pass => false,
        Move::Play(p) => {
            &&& 1 <= p.rank.0 < MAX_CARD_ORDINALITY
            &&& p.num_non_wilds.0 <= hand.count(p.rank.0 as int)
            &&& p.num_wilds.0 <= hand.count(0)
            &&& p.num_non_wilds.0 + p.num_wilds.0 > 0
        },
    }
}

/// The moves the rules allow with `hand` against `top_set`.
pub open spec fn spec_legal_move(hand: PlayerHand, top_set: Option<TopSet>, m: Move) -> bool {
    match top_set {
        Some(t) => spec_legal_response(hand, t, m),
        None => spec_legal_lead(hand, m),
    }
}

/// The order of the move list: against a top set, by rank and then by most non-wilds first,
/// with the pass last; on an empty trick, by rank, then by non-wilds, then by wilds.
pub open spec fn spec_move_key(top_set: Option<TopSet>, m: Move) -> int {
    match m {
        Move::Pass => 262144int,
        Move::Play(p) => match top_set {
            Some(_) => p.rank.0 * 64 + (63 - p.num_non_wilds.0),
            None => p.rank.0 * 4096 + p.num_non_wilds.0 * 64 + p.num_wilds.0,
        },
    }
}

/// `moves` lists, in increasing key order, exactly the legal moves whose key is below `bound`.
pub open spec fn spec_moves_below(
    moves: Seq<Move>,
    hand: PlayerHand,
    top_set: Option<TopSet>,
    bound: int,
) -> bool {
    &&& forall|i: int|
        0 <= i < moves.len() ==> spec_legal_move(hand, top_set, #[trigger] moves[i])
            && spec_move_key(top_set, moves[i]) < bound
    &&& forall|i: int, j: int|
        0 <= i < j < moves.len() ==> spec_move_key(top_set, #[trigger] moves[i]) < spec_move_key(
            top_set,
            #[trigger] moves[j],
        )
    &&& forall|m: Move|
        spec_legal_move(hand, top_set, m) && spec_move_key(top_set, m) < bound
            ==> #[trigger] moves.contains(m)
}

/// Raising the bound over a stretch of keys that no legal move has.
proof fn lemma_moves_skip(moves: Seq<Move>, hand: PlayerHand, top_set: Option<TopSet>, b: int, b2: int)
    requires
        spec_moves_below(moves, hand, top_set, b),
        b <= b2,
        forall|m: Move|
            spec_legal_move(hand, top_set, m) && b <= #[trigger] spec_move_key(top_set, m) ==> spec_move_key(top_set, m) >= b2,
    ensures
        spec_moves_below(moves, hand, top_set, b2),
{
}

/// Appending the legal move with the smallest key not yet listed.
proof fn lemma_moves_push(moves: Seq<Move>, hand: PlayerHand, top_set: Option<TopSet>, b: int, m0: Move)
    requires
        spec_moves_below(moves, hand, top_set, b),
        spec_legal_move(hand, top_set, m0),
        b <= spec_move_key(top_set, m0),
        forall|m: Move|
            spec_legal_move(hand, top_set, m) && b <= #[trigger] spec_move_key(top_set, m) <= spec_move_key(top_set, m0) ==> m == m0,
    ensures
        spec_moves_below(moves.push(m0), hand, top_set, spec_move_key(top_set, m0) + 1),
{
    let moves2 = moves.push(m0);
    assert forall|m: Move|
        spec_legal_move(hand, top_set, m) && spec_move_key(top_set, m) < spec_move_key(top_set, m0) + 1
            implies #[trigger] moves2.contains(m) by {
        if spec_move_key(top_set, m) < b {
            assert(moves.contains(m));
            let i = choose|i: int| 0 <= i < moves.len() && moves[i] == m;
            assert(moves2[i] == m);
        } else {
            assert(m == m0);
            assert(moves2[moves.len() as int] == m0);
        }
    }
    assert forall|i: int, j: int|
        0 <= i < j < moves2.len() implies spec_move_key(top_set, #[trigger] moves2[i]) < spec_move_key(
            top_set,
            #[trigger] moves2[j],
        ) by {
        if j == moves.len() {
            assert(spec_move_key(top_set, moves[i]) < b);
        } else {
            assert(moves2[i] == moves[i] && moves2[j] == moves[j]);
        }
    }
    assert forall|i: int| 0 <= i < moves2.len() implies spec_legal_move(hand, top_set, #[trigger] moves2[i])
        && spec_move_key(top_set, moves2[i]) < spec_move_key(top_set, m0) + 1 by {
        if i < moves.len() {
            assert(moves2[i] == moves[i]);
        }
    }
}

/// Splitting a key into a high and a low digit.
proof fn lemma_digits(hi1: int, lo1: int, hi2: int, lo2: int, base: int)
    requires
        base > 0,
        0 <= lo1 < base,
        0 <= lo2 < base,
    ensures
        (hi1 * base + lo1 < hi2 * base + lo2) <==> (hi1 < hi2 || (hi1 == hi2 && lo1 < lo2)),
        (hi1 * base + lo1 == hi2 * base + lo2) <==> (hi1 == hi2 && lo1 == lo2),
{
    if hi1 < hi2 {
        assert(hi1 * base + base <= hi2 * base) by (nonlinear_arith)
            requires
                hi1 < hi2,
                base > 0,
        ;
    } else if hi1 > hi2 {
        assert(hi2 * base + base <= hi1 * base) by (nonlinear_arith)
            requires
                hi2 < hi1,
                base > 0,
        ;
    }
}

/// The moves the rules allow with `hand` against `top_set`: against a top set, every beating
/// play of the same size (most non-wilds first within a rank, ranks in increasing order) and
/// then the pass; on an empty trick, every play of a non-wild rank.
pub fn get_available_moves(hand: &PlayerHand, top_set: Option<TopSet>) -> (moves: Vec<Move>)
    requires
        hand.wf(),
        forall|r: int| 1 <= r < MAX_CARD_ORDINALITY ==> hand.count(0) + #[trigger] hand.count(r) <= MAX_TOTAL_PLAY,
        top_set matches Some(t) ==> t.wf(),
    ensures
        forall|m: Move| #[trigger] moves@.contains(m) <==> spec_legal_move(*hand, top_set, m),
        forall|i: int, j: int|
            0 <= i < j < moves@.len() ==> spec_move_key(top_set, #[trigger] moves@[i]) < spec_move_key(
                top_set,
                #[trigger] moves@[j],
            ),
{
    match top_set {
        Some(t) => responses(hand, t),
        None => leads(hand),
    }
}

/// The legal answers to `t`, in key order.
fn responses(hand: &PlayerHand, t: TopSet) -> (moves: Vec<Move>)
    requires
        hand.wf(),
        forall|r: int| 1 <= r < MAX_CARD_ORDINALITY ==> hand.count(0) + #[trigger] hand.count(r) <= MAX_TOTAL_PLAY,
        t.wf(),
    ensures
        forall|m: Move| #[trigger] moves@.contains(m) <==> spec_legal_move(*hand, Some(t), m),
        forall|i: int, j: int|
            0 <= i < j < moves@.len() ==> spec_move_key(Some(t), #[trigger] moves@[i]) < spec_move_key(
                Some(t),
                #[trigger] moves@[j],
            ),
{
    let ghost top_set = Some(t);
    let wilds: usize = hand.0[0].0;
    let number = t.number.0;
    let mut moves: Vec<Move> = Vec::new();
    let mut r: usize = 1;
    proof {
        assert(hand.count(0) <= MAX_TOTAL_PLAY);
        lemma_moves_skip(moves@, *hand, top_set, 0, 64);
    }
    while r < t.rank.0
        invariant
            1 <= r <= t.rank.0 < MAX_CARD_ORDINALITY,
            top_set == Some(t),
            t.wf(),
            number == t.number.0,
            wilds == hand.count(0),
            hand.wf(),
            forall|s: int| 1 <= s < MAX_CARD_ORDINALITY ==> hand.count(0) + #[trigger] hand.count(s) <= MAX_TOTAL_PLAY,
            spec_moves_below(moves@, *hand, top_set, r * 64),
        decreases t.rank.0 - r,
    {
        let avail: usize = hand.0[r].0;
        assert(hand.count(r as int) <= MAX_TOTAL_PLAY);
        if avail + wilds >= number {
            let max_nn: usize = if avail < number { avail } else { number };
            let lo: usize = if number > wilds { number - wilds } else { 0 };
            let count: usize = max_nn - lo + 1;
            proof {
                assert forall|m: Move| spec_legal_move(*hand, top_set, m) && r * 64 <= #[trigger] spec_move_key(top_set, m)
                    implies spec_move_key(top_set, m) >= r * 64 + (63 - max_nn) by {
                    if let Move::Play(p) = m {
                        lemma_digits(p.rank.0 as int, 63 - p.num_non_wilds.0, r as int, 0, 64);
                        lemma_digits(p.rank.0 as int, 63 - p.num_non_wilds.0, r as int, 63 - max_nn, 64);
                    }
                }
                lemma_moves_skip(moves@, *hand, top_set, r * 64, r * 64 + (63 - max_nn));
            }
            let mut k: usize = 0;
            while k < count
                invariant
                    1 <= r < t.rank.0 < MAX_CARD_ORDINALITY,
                    top_set == Some(t),
                    t.wf(),
                    number == t.number.0,
                    wilds == hand.count(0),
                    avail == hand.count(r as int),
                    avail <= MAX_TOTAL_PLAY,
                    max_nn == if avail < number { avail } else { number },
                    lo == if number > wilds { number - wilds } else { 0 },
                    lo <= max_nn,
                    count == max_nn - lo + 1,
                    k <= count,
                    hand.wf(),
                    spec_moves_below(moves@, *hand, top_set, r * 64 + (63 - max_nn) + k),
                decreases count - k,
            {
                let nn = max_nn - k;
                let play = Play::new(CardRank::new(r), CardCount::new(nn), CardCount::new(number - nn));
                proof {
                    let m0 = Move::Play(play);
                    assert(spec_move_key(top_set, m0) == r * 64 + (63 - max_nn) + k);
                    assert forall|m: Move| spec_legal_move(*hand, top_set, m) && r * 64 + (63 - max_nn) + k <= #[trigger] spec_move_key(top_set, m) <= spec_move_key(top_set, m0)
                        implies m == m0 by {
                        if let Move::Play(p) = m {
                            lemma_digits(p.rank.0 as int, 63 - p.num_non_wilds.0, r as int, 63 - nn, 64);
                        }
                    }
                    lemma_moves_push(moves@, *hand, top_set, r * 64 + (63 - max_nn) + k, m0);
                }
                moves.push(Move::Play(play));
                k = k + 1;
            }
            proof {
                assert forall|m: Move| spec_legal_move(*hand, top_set, m) && r * 64 + (63 - max_nn) + count <= #[trigger] spec_move_key(top_set, m)
                    implies spec_move_key(top_set, m) >= (r + 1) * 64 by {
                    if let Move::Play(p) = m {
                        if lo > 0 {
                            lemma_digits(p.rank.0 as int, 63 - p.num_non_wilds.0, r as int, 64 - lo, 64);
                        }
                        lemma_digits(p.rank.0 as int, 63 - p.num_non_wilds.0, r + 1, 0, 64);
                        if p.rank.0 == r {
                            assert(63 - p.num_non_wilds.0 >= 64 - lo);
                        }
                    }
                }
                lemma_moves_skip(moves@, *hand, top_set, r * 64 + (63 - max_nn) + count, (r + 1) * 64);
            }
        } else {
            proof {
                assert forall|m: Move| spec_legal_move(*hand, top_set, m) && r * 64 <= #[trigger] spec_move_key(top_set, m)
                    implies spec_move_key(top_set, m) >= (r + 1) * 64 by {
                    if let Move::Play(p) = m {
                        lemma_digits(p.rank.0 as int, 63 - p.num_non_wilds.0, r as int, 0, 64);
                        lemma_digits(p.rank.0 as int, 63 - p.num_non_wilds.0, r + 1, 0, 64);
                    }
                }
                lemma_moves_skip(moves@, *hand, top_set, r * 64, (r + 1) * 64);
            }
        }
        r = r + 1;
    }
    proof {
        let m0 = Move::Pass;
        assert forall|m: Move| spec_legal_move(*hand, top_set, m) && r * 64 <= #[trigger] spec_move_key(top_set, m) <= spec_move_key(top_set, m0)
            implies m == m0 by {
            if let Move::Play(p) = m {
                lemma_digits(p.rank.0 as int, 63 - p.num_non_wilds.0, r as int, 0, 64);
            }
        }
        lemma_moves_push(moves@, *hand, top_set, r * 64, m0);
    }
    moves.push(Move::Pass);
    proof {
        assert forall|m: Move| spec_legal_move(*hand, top_set, m) implies #[trigger] moves@.contains(m) by {
            if let Move::Play(p) = m {
                assert(p.num_non_wilds.0 <= MAX_TOTAL_PLAY) by {
                    assert(hand.count(p.rank.0 as int) <= MAX_TOTAL_PLAY);
                }
            }
        }
        assert forall|m: Move| #[trigger] moves@.contains(m) implies spec_legal_move(*hand, top_set, m) by {
            let i = choose|i: int| 0 <= i < moves@.len() && moves@[i] == m;
        }
    }
    moves
}

/// The legal leads from `hand`, in key order.
fn leads(hand: &PlayerHand) -> (moves: Vec<Move>)
    requires
        hand.wf(),
        forall|r: int| 1 <= r < MAX_CARD_ORDINALITY ==> hand.count(0) + #[trigger] hand.count(r) <= MAX_TOTAL_PLAY,
    ensures
        forall|m: Move| #[trigger] moves@.contains(m) <==> spec_legal_move(*hand, None, m),
        forall|i: int, j: int|
            0 <= i < j < moves@.len() ==> spec_move_key(None, #[trigger] moves@[i]) < spec_move_key(
                None,
                #[trigger] moves@[j],
            ),
{
    let ghost top_set: Option<TopSet> = None;
    let wilds: usize = hand.0[0].0;
    let mut moves: Vec<Move> = Vec::new();
    proof {
        assert(hand.count(0) <= MAX_TOTAL_PLAY);
        assert forall|m: Move| spec_legal_move(*hand, top_set, m) && 0 <= #[trigger] spec_move_key(top_set, m)
            implies spec_move_key(top_set, m) >= 4096 by {
            if let Move::Play(p) = m {
                assert(p.rank.0 >= 1);
            }
        }
        lemma_moves_skip(moves@, *hand, top_set, 0, 4096);
    }
    let mut r: usize = 1;
    while r < MAX_CARD_ORDINALITY
        invariant
            1 <= r <= MAX_CARD_ORDINALITY,
            top_set.is_none(),
            wilds == hand.count(0),
            wilds <= MAX_TOTAL_PLAY,
            hand.wf(),
            forall|s: int| 1 <= s < MAX_CARD_ORDINALITY ==> hand.count(0) + #[trigger] hand.count(s) <= MAX_TOTAL_PLAY,
            spec_moves_below(moves@, *hand, top_set, r * 4096),
        decreases MAX_CARD_ORDINALITY - r,
    {
        let avail: usize = hand.0[r].0;
        assert(hand.count(r as int) <= MAX_TOTAL_PLAY);
        let mut nn: usize = 0;
        while nn <= avail
            invariant
                1 <= r < MAX_CARD_ORDINALITY,
                top_set.is_none(),
                wilds == hand.count(0),
                wilds <= MAX_TOTAL_PLAY,
                avail == hand.count(r as int),
                avail + wilds <= MAX_TOTAL_PLAY,
                nn <= avail + 1,
                hand.wf(),
                spec_moves_below(moves@, *hand, top_set, r * 4096 + nn * 64),
            decreases avail + 1 - nn,
        {
            let mut nw: usize = 0;
            while nw <= wilds
                invariant
                    1 <= r < MAX_CARD_ORDINALITY,
                    top_set.is_none(),
                    wilds == hand.count(0),
                    wilds <= MAX_TOTAL_PLAY,
                    avail == hand.count(r as int),
                    avail + wilds <= MAX_TOTAL_PLAY,
                    nn <= avail,
                    nw <= wilds + 1,
                    hand.wf(),
                    spec_moves_below(moves@, *hand, top_set, r * 4096 + nn * 64 + nw),
                decreases wilds + 1 - nw,
            {
                let b = Ghost(r * 4096 + nn * 64 + nw);
                if nn == 0 && nw == 0 {
                    proof {
                        assert forall|m: Move| spec_legal_move(*hand, top_set, m) && b@ <= #[trigger] spec_move_key(top_set, m)
                            implies spec_move_key(top_set, m) >= b@ + 1 by {
                            if let Move::Play(p) = m {
                                lemma_key3(p.rank.0 as int, p.num_non_wilds.0 as int, p.num_wilds.0 as int, r as int, 0, 0);
                            }
                        }
                        lemma_moves_skip(moves@, *hand, top_set, b@, b@ + 1);
                    }
                } else {
                    let play = Play::new(CardRank::new(r), CardCount::new(nn), CardCount::new(nw));
                    proof {
                        let m0 = Move::Play(play);
                        assert(spec_move_key(top_set, m0) == b@);
                        assert forall|m: Move| spec_legal_move(*hand, top_set, m) && b@ <= #[trigger] spec_move_key(top_set, m) <= spec_move_key(top_set, m0)
                            implies m == m0 by {
                            if let Move::Play(p) = m {
                                lemma_key3(p.rank.0 as int, p.num_non_wilds.0 as int, p.num_wilds.0 as int, r as int, nn as int, nw as int);
                            }
                        }
                        lemma_moves_push(moves@, *hand, top_set, b@, m0);
                    }
                    moves.push(Move::Play(play));
                }
                nw = nw + 1;
            }
            proof {
                let b = r * 4096 + nn * 64 + nw;
                assert forall|m: Move| spec_legal_move(*hand, top_set, m) && b <= #[trigger] spec_move_key(top_set, m)
                    implies spec_move_key(top_set, m) >= r * 4096 + (nn + 1) * 64 by {
                    if let Move::Play(p) = m {
                        lemma_key3(p.rank.0 as int, p.num_non_wilds.0 as int, p.num_wilds.0 as int, r as int, nn as int, nw as int);
                        lemma_key3(p.rank.0 as int, p.num_non_wilds.0 as int, p.num_wilds.0 as int, r as int, nn + 1, 0);
                    }
                }
                lemma_moves_skip(moves@, *hand, top_set, b, r * 4096 + (nn + 1) * 64);
            }
            nn = nn + 1;
        }
        proof {
            let b = r * 4096 + nn * 64;
            assert forall|m: Move| spec_legal_move(*hand, top_set, m) && b <= #[trigger] spec_move_key(top_set, m)
                implies spec_move_key(top_set, m) >= (r + 1) * 4096 by {
                if let Move::Play(p) = m {
                    lemma_key3(p.rank.0 as int, p.num_non_wilds.0 as int, p.num_wilds.0 as int, r as int, nn as int, 0);
                    lemma_key3(p.rank.0 as int, p.num_non_wilds.0 as int, p.num_wilds.0 as int, r + 1, 0, 0);
                }
            }
            lemma_moves_skip(moves@, *hand, top_set, b, (r + 1) * 4096);
        }
        r = r + 1;
    }
    proof {
        assert forall|m: Move| spec_legal_move(*hand, top_set, m) implies #[trigger] moves@.contains(m) by {
            if let Move::Play(p) = m {
                assert(p.num_non_wilds.0 <= MAX_TOTAL_PLAY) by {
                    assert(hand.count(p.rank.0 as int) <= MAX_TOTAL_PLAY);
                }
                lemma_key3(p.rank.0 as int, p.num_non_wilds.0 as int, p.num_wilds.0 as int, MAX_CARD_ORDINALITY as int, 0, 0);
            }
        }
        assert forall|m: Move| #[trigger] moves@.contains(m) implies spec_legal_move(*hand, top_set, m) by {
            let i = choose|i: int| 0 <= i < moves@.len() && moves@[i] == m;
        }
    }
    moves
}

/// Comparing three-digit keys in base 64 (the leading digit unbounded).
proof fn lemma_key3(r1: int, a1: int, b1: int, r2: int, a2: int, b2: int)
    requires
        0 <= a1 < 64,
        0 <= b1 < 64,
        0 <= a2 < 64,
        0 <= b2 < 64,
    ensures
        (r1 * 4096 + a1 * 64 + b1 < r2 * 4096 + a2 * 64 + b2) <==> (r1 < r2 || (r1 == r2 && (a1 < a2 || (a1 == a2 && b1 < b2)))),
        (r1 * 4096 + a1 * 64 + b1 == r2 * 4096 + a2 * 64 + b2) <==> (r1 == r2 && a1 == a2 && b1 == b2),
{
    lemma_digits(a1, b1, a2, b2, 64);
    lemma_digits(r1, a1 * 64 + b1, r2, a2 * 64 + b2, 4096);
}


/// `moves` lists the plays that `hand` may make on `top_set`, each once, the highest key first.
pub open spec fn lists_plays_descending(hand: PlayerHand, top_set: Option<TopSet>, moves: Seq<Move>) -> bool {
    &&& forall|m: Move| #[trigger] moves.contains(m) <==> (m is Play && spec_legal_move(hand, top_set, m))
    &&& forall|i: int, j: int| 0 <= i < j < moves.len() ==> spec_move_key(top_set, #[trigger] moves[i])
        > spec_move_key(top_set, #[trigger] moves[j])
}

/// The plays that `hand` may make on `top_set`, the highest key first: there is exactly one such
/// list (`lemma_plays_descending_unique`).
pub open spec fn spec_plays_descending(hand: PlayerHand, top_set: Option<TopSet>) -> Seq<Move> {
    choose|moves: Seq<Move>| lists_plays_descending(hand, top_set, moves)
}

/// Any list of the plays of `hand` on `top_set`, highest key first, is the list.
pub proof fn lemma_plays_descending_unique(hand: PlayerHand, top_set: Option<TopSet>, moves: Seq<Move>)
    requires
        lists_plays_descending(hand, top_set, moves),
    ensures
        spec_plays_descending(hand, top_set) == moves,
{
    let other = spec_plays_descending(hand, top_set);
    assert(lists_plays_descending(hand, top_set, other));
    lemma_descending_unique(top_set, other, moves);
}

/// Two lists with the same members, both in strictly decreasing key order, are the same list.
pub proof fn lemma_descending_unique(top_set: Option<TopSet>, a: Seq<Move>, b: Seq<Move>)
    requires
        forall|i: int, j: int| 0 <= i < j < a.len() ==> spec_move_key(top_set, #[trigger] a[i]) > spec_move_key(top_set, #[trigger] a[j]),
        forall|i: int, j: int| 0 <= i < j < b.len() ==> spec_move_key(top_set, #[trigger] b[i]) > spec_move_key(top_set, #[trigger] b[j]),
        forall|m: Move| #[trigger] a.contains(m) <==> b.contains(m),
    ensures
        a == b,
    decreases a.len(),
{
    if a.len() == 0 {
        if b.len() > 0 {
            assert(b.contains(b[0]));
            assert(a.contains(b[0]));
        }
        assert(a =~= b);
    } else if b.len() == 0 {
        assert(a.contains(a[0]));
    } else {
        assert(a.contains(a[0]));
        assert(b.contains(a[0]));
        let j = choose|j: int| 0 <= j < b.len() && b[j] == a[0];
        assert(b.contains(b[0]));
        assert(a.contains(b[0]));
        let i = choose|i: int| 0 <= i < a.len() && a[i] == b[0];
        if j > 0 {
            assert(spec_move_key(top_set, b[0]) > spec_move_key(top_set, b[j]));
            if i > 0 {
                assert(spec_move_key(top_set, a[0]) > spec_move_key(top_set, a[i]));
            }
            assert(false);
        }
        assert(b[0] == a[0]);
        let a2 = a.drop_first();
        let b2 = b.drop_first();
        assert forall|i: int, j: int| 0 <= i < j < a2.len() implies spec_move_key(top_set, #[trigger] a2[i]) > spec_move_key(top_set, #[trigger] a2[j]) by {
            assert(a2[i] == a[i + 1] && a2[j] == a[j + 1]);
        }
        assert forall|i: int, j: int| 0 <= i < j < b2.len() implies spec_move_key(top_set, #[trigger] b2[i]) > spec_move_key(top_set, #[trigger] b2[j]) by {
            assert(b2[i] == b[i + 1] && b2[j] == b[j + 1]);
        }
        assert forall|m: Move| #[trigger] a2.contains(m) <==> b2.contains(m) by {
            if a2.contains(m) {
                let k = choose|k: int| 0 <= k < a2.len() && a2[k] == m;
                assert(a[k + 1] == m);
                assert(spec_move_key(top_set, a[0]) > spec_move_key(top_set, a[k + 1]));
                assert(a.contains(m));
                let l = choose|l: int| 0 <= l < b.len() && b[l] == m;
                assert(l != 0);
                assert(b2[l - 1] == m);
            }
            if b2.contains(m) {
                let k = choose|k: int| 0 <= k < b2.len() && b2[k] == m;
                assert(b[k + 1] == m);
                assert(spec_move_key(top_set, b[0]) > spec_move_key(top_set, b[k + 1]));
                assert(b.contains(m));
                assert(a.contains(m));
                let l = choose|l: int| 0 <= l < a.len() && a[l] == m;
                assert(l != 0);
                assert(a2[l - 1] == m);
            }
        }
        lemma_descending_unique(top_set, a2, b2);
        assert forall|k: int| 0 <= k < a.len() implies a[k] == b[k] by {
            if k > 0 {
                assert(a[k] == a2[k - 1]);
                assert(b[k] == b2[k - 1]);
            }
        }
        assert(a =~= b);
    }
}

/// The plays that `hand` may make on `top_set`, the highest key first; the pass is not among them.
pub fn plays_descending(hand: &PlayerHand, top_set: Option<TopSet>) -> (moves: Vec<Move>)
    requires
        hand.wf(),
        forall|r: int| 1 <= r < MAX_CARD_ORDINALITY ==> hand.count(0) + #[trigger] hand.count(r) <= MAX_TOTAL_PLAY,
        top_set matches Some(t) ==> t.wf(),
    ensures
        lists_plays_descending(*hand, top_set, moves@),
        moves@ == spec_plays_descending(*hand, top_set),
{
    let all_moves = get_available_moves(hand, top_set);
    let mut moves: Vec<Move> = Vec::new();
    let ghost mut idx: Seq<int> = Seq::empty();
    let mut i: usize = all_moves.len();
    while i > 0
        invariant
            i <= all_moves@.len(),
            idx.len() == moves@.len(),
            forall|k: int| 0 <= k < idx.len() ==> i <= #[trigger] idx[k] < all_moves@.len(),
            forall|k: int| 0 <= k < idx.len() ==> moves@[k] == all_moves@[#[trigger] idx[k]],
            forall|k1: int, k2: int| 0 <= k1 < k2 < idx.len() ==> #[trigger] idx[k1] > #[trigger] idx[k2],
            forall|k: int| 0 <= k < moves@.len() ==> #[trigger] moves@[k] is Play,
            forall|j: int| i <= j < all_moves@.len() && (#[trigger] all_moves@[j]) is Play ==> moves@.contains(all_moves@[j]),
        decreases i,
    {
        i = i - 1;
        let m = all_moves[i];
        if let Move::Play(_) = m {
            let ghost before = moves@;
            moves.push(m);
            proof {
                idx = idx.push(i as int);
                assert(moves@[moves@.len() - 1] == m);
                assert forall|j: int| i <= j < all_moves@.len() && (#[trigger] all_moves@[j]) is Play implies moves@.contains(all_moves@[j]) by {
                    if j == i {
                        assert(moves@[moves@.len() - 1] == all_moves@[j]);
                    } else {
                        assert(before.contains(all_moves@[j]));
                        let k = choose|k: int| 0 <= k < before.len() && before[k] == all_moves@[j];
                        assert(moves@[k] == before[k]);
                    }
                }
            }
        }
    }
    proof {
        let top = top_set;
        assert forall|m: Move| #[trigger] moves@.contains(m) <==> (m is Play && spec_legal_move(*hand, top, m)) by {
            if moves@.contains(m) {
                let k = choose|k: int| 0 <= k < moves@.len() && moves@[k] == m;
                assert(moves@[k] == all_moves@[idx[k]]);
                assert(all_moves@.contains(m));
                assert(moves@[k] is Play);
            }
            if m is Play && spec_legal_move(*hand, top, m) {
                assert(all_moves@.contains(m));
                let j = choose|j: int| 0 <= j < all_moves@.len() && all_moves@[j] == m;
                assert(all_moves@[j] is Play);
            }
        }
        assert forall|a: int, b: int| 0 <= a < b < moves@.len() implies spec_move_key(top, #[trigger] moves@[a])
            > spec_move_key(top, #[trigger] moves@[b]) by {
            assert(idx[a] > idx[b]);
            assert(moves@[a] == all_moves@[idx[a]]);
            assert(moves@[b] == all_moves@[idx[b]]);
        }
        lemma_plays_descending_unique(*hand, top_set, moves@);
    }
    moves
}

} // verus!
