use vstd::prelude::*;

use crate::consts::{MAX_CARD_ORDINALITY, MAX_PLAYERS};
use crate::game::actions::{Move, Play};
use crate::game::collections::{sum_counts, PlayerHand, PlayerIndexed};
use crate::game::primitives::MAX_TOTAL_PLAY;
use crate::game::rules::{spec_can_afford, spec_full_update, spec_hand_after_play, spec_incomplete_update, GameLogicError};
use crate::game::state::{is_view_of, spec_opponent_count, FullInformationGameState, IncompleteInformationGameState};

verus! {

/// One seat's cards of rank `r` are among the cards of that rank that the other seats below
/// `k` hold together.
proof fn lemma_seat_within_opponents(hands: PlayerIndexed<PlayerHand>, perspective: int, r: int, c: int, k: int)
    requires
        0 <= c < k,
        c != perspective,
    ensures
        hands.at(c).count(r) <= spec_opponent_count(hands, perspective, r, k),
    decreases k,
{
    if k - 1 != c {
        lemma_seat_within_opponents(hands, perspective, r, c, k - 1);
    } else if c > 0 {
        lemma_opponent_count_nonneg(hands, perspective, r, c);
    }
}

proof fn lemma_opponent_count_nonneg(hands: PlayerIndexed<PlayerHand>, perspective: int, r: int, k: int)
    ensures
        spec_opponent_count(hands, perspective, r, k) >= 0,
{
}

/// Changing the hand of seat `c` only changes the pooled count of the other seats below `k` by
/// the change of that seat, when it is one of them.
proof fn lemma_opponent_count_one_seat(
    before: PlayerIndexed<PlayerHand>,
    after: PlayerIndexed<PlayerHand>,
    perspective: int,
    r: int,
    c: int,
    k: int,
)
    requires
        0 <= c < MAX_PLAYERS,
        k <= MAX_PLAYERS,
        forall|p: int| 0 <= p < MAX_PLAYERS && p != c ==> #[trigger] after.at(p) == before.at(p),
    ensures
        spec_opponent_count(after, perspective, r, k) == spec_opponent_count(before, perspective, r, k) + if c
            != perspective && c < k {
            after.at(c).count(r) - before.at(c).count(r)
        } else {
            0
        },
    decreases k,
{
    if k > 0 {
        lemma_opponent_count_one_seat(before, after, perspective, r, c, k - 1);
        if k - 1 != c {
            assert(after.at(k - 1) == before.at(k - 1));
        }
    }
}

/// Taking the cards of a play out of a hand takes as many cards off its total.
proof fn lemma_total_after_play(before: PlayerHand, after: PlayerHand, play: Play, k: int)
    requires
        0 <= k <= MAX_CARD_ORDINALITY,
        before.0@.len() == MAX_CARD_ORDINALITY,
        play.wf(),
        spec_hand_after_play(before, after, play),
    ensures
        sum_counts(after.0@.take(k)) == sum_counts(before.0@.take(k)) - (if k > 0 { play.num_wilds.0 as int } else { 0 })
            - (if play.rank.0 < k { play.num_non_wilds.0 as int } else { 0 }),
    decreases k,
{
    if k > 0 {
        lemma_total_after_play(before, after, play, k - 1);
        assert(after.0@.take(k).drop_last() =~= after.0@.take(k - 1));
        assert(before.0@.take(k).drop_last() =~= before.0@.take(k - 1));
        assert(after.count(k - 1) == after.0@.take(k).last().0);
        assert(before.count(k - 1) == before.0@.take(k).last().0);
    }
}

/// A play takes its number of cards off the total of the hand it comes from.
proof fn lemma_hand_total_after_play(before: PlayerHand, after: PlayerHand, play: Play)
    requires
        play.wf(),
        spec_hand_after_play(before, after, play),
    ensures
        after.total() == before.total() - play.total(),
{
    lemma_total_after_play(before, after, play, MAX_CARD_ORDINALITY as int);
    assert(after.0@.take(MAX_CARD_ORDINALITY as int) =~= after.0@);
    assert(before.0@.take(MAX_CARD_ORDINALITY as int) =~= before.0@);
}

/// Two hands with the same count of every rank are the same hand.
proof fn lemma_hands_equal(a: PlayerHand, b: PlayerHand)
    requires
        forall|r: int| 0 <= r < MAX_CARD_ORDINALITY ==> #[trigger] a.count(r) == b.count(r),
    ensures
        a == b,
{
    assert forall|r: int| 0 <= r < MAX_CARD_ORDINALITY implies #[trigger] a.0@[r] == b.0@[r] by {
        assert(a.count(r) == b.count(r));
    }
    assert(a.0 =~= b.0);
}

/// Law: the rules move a player's view of a game along with the game. Every move that the rules
/// accept in the game, they accept in the view of any player; the view updated by the move is
/// the view of the game updated by the move; and the move fails in the view exactly when it fails
/// in the game.
pub proof fn law_view_follows_the_game(
    full: FullInformationGameState,
    full_after: FullInformationGameState,
    full_result: Result<bool, GameLogicError>,
    view: IncompleteInformationGameState,
    view_after: IncompleteInformationGameState,
    view_result: Result<(), GameLogicError>,
    perspective: int,
    player_move: Move,
)
    requires
        full.wf(),
        0 <= perspective < full.number_of_players,
        is_view_of(view, full, perspective),
        player_move matches Move::Play(play) ==> {
            let c = full.current_player_number.0 as int;
            &&& play.wf()
            &&& spec_can_afford(full.hand(c), play)
            &&& full.player_placements.place(c) == 0
        },
        full_after.number_of_players == full.number_of_players,
        spec_full_update(full, full_after, player_move, full_result),
        view_after.number_of_players == view.number_of_players,
        view_after.perspective_player_number == view.perspective_player_number,
        spec_incomplete_update(view, view_after, player_move, view_result),
    ensures
        view.wf(),
        player_move matches Move::Play(play) ==> {
            let c = view.current_player_number;
            &&& spec_can_afford(
                if c == view.perspective_player_number {
                    view.player_hand
                } else {
                    view.opponent_cards
                },
                play,
            )
            &&& view.hand_sizes.size(c.0 as int) >= play.total()
            &&& view.player_placements.place(c.0 as int) == 0
        },
        is_view_of(view_after, full_after, perspective),
        full_result is Err <==> view_result is Err,
{
    let n = full.number_of_players as int;
    let c = full.current_player_number.0 as int;
    assert(view.player_hand.wf()) by {
        assert(full.player_hands.at(perspective).wf());
    }
    match player_move {
        Move::Play(play) => {
            // What the view allows.
            assert(view.hand_sizes.size(c) == full.hand(c).total());
            let after_c = full_after.hand(c);
            lemma_hand_total_after_play(full.hand(c), after_c, play);
            if c != perspective {
                lemma_seat_within_opponents(full.player_hands, perspective, 0, c, n);
                lemma_seat_within_opponents(full.player_hands, perspective, play.rank.0 as int, c, n);
                assert(view.opponent_cards.count(0) == spec_opponent_count(full.player_hands, perspective, 0, n));
                assert(view.opponent_cards.count(play.rank.0 as int) == spec_opponent_count(
                    full.player_hands,
                    perspective,
                    play.rank.0 as int,
                    n,
                ));
            }
            // The hands.
            if c == perspective {
                assert forall|r: int| 0 <= r < MAX_CARD_ORDINALITY implies #[trigger] view_after.player_hand.count(r)
                    == full_after.hand(perspective).count(r) by {}
                lemma_hands_equal(view_after.player_hand, full_after.hand(perspective));
            } else {
                assert(full_after.hand(perspective) == full.hand(perspective));
            }
            assert forall|p: int| 0 <= p < MAX_PLAYERS && p != c implies #[trigger] full_after.player_hands.at(p)
                == full.player_hands.at(p) by {
                assert(full_after.hand(p) == full.hand(p));
            }
            assert forall|r: int| 0 <= r < MAX_CARD_ORDINALITY implies #[trigger] view_after.opponent_cards.count(r)
                == spec_opponent_count(full_after.player_hands, perspective, r, n) by {
                lemma_opponent_count_one_seat(full.player_hands, full_after.player_hands, perspective, r, c, n);
                assert(view.opponent_cards.count(r) == spec_opponent_count(full.player_hands, perspective, r, n));
            }
            assert forall|r: int| 0 <= r < MAX_CARD_ORDINALITY implies #[trigger] view_after.opponent_cards.count(r)
                <= MAX_TOTAL_PLAY by {
                assert(view.opponent_cards.count(r) <= MAX_TOTAL_PLAY);
            }
            // The hand sizes.
            assert(view_after.hand_sizes.size(c) == full_after.hand(c).total());
            assert forall|q: int| 0 <= q < MAX_PLAYERS implies #[trigger] view_after.hand_sizes.size(q) == if q
                < full_after.number_of_players {
                full_after.hand(q).total()
            } else {
                0
            } by {
                assert(view.hand_sizes.size(q) == if q < n { full.hand(q).total() } else { 0 });
                if q != c {
                    assert(full_after.hand(q) == full.hand(q));
                }
            }
            // The placements.
            let emptied = full_after.hand(c).total() == 0;
            assert((view_after.hand_sizes.size(c) == 0) == emptied);
            assert forall|i: int| 0 <= i < MAX_PLAYERS implies #[trigger] view_after.player_placements.0.0@[i]
                == full_after.player_placements.0.0@[i] by {
                if emptied {
                    if i != c {
                        assert(view_after.player_placements.place(i) == view.player_placements.place(i));
                        assert(full_after.player_placements.place(i) == full.player_placements.place(i));
                    }
                } else {
                    assert(view_after.player_placements == view.player_placements);
                    assert(full_after.player_placements == full.player_placements);
                }
            }
            assert(view_after.player_placements.0.0 =~= full_after.player_placements.0.0);
            // The trick.
            assert forall|i: int| 0 <= i < MAX_PLAYERS implies #[trigger] view_after.trick.has_passed.0@[i]
                == full_after.trick.has_passed.0@[i] by {
                assert(!view_after.trick.has_passed.at(i));
                assert(!full_after.trick.has_passed.at(i));
            }
            assert(view_after.trick.has_passed.0 =~= full_after.trick.has_passed.0);
        },
        Move::Pass => {
            assert forall|r: int| 0 <= r < MAX_CARD_ORDINALITY implies #[trigger] view_after.opponent_cards.count(r)
                == spec_opponent_count(full_after.player_hands, perspective, r, n) by {
                assert(view.opponent_cards.count(r) == spec_opponent_count(full.player_hands, perspective, r, n));
            }
            assert forall|q: int| 0 <= q < MAX_PLAYERS implies #[trigger] view_after.hand_sizes.size(q) == if q
                < full_after.number_of_players {
                full_after.hand(q).total()
            } else {
                0
            } by {
                assert(view.hand_sizes.size(q) == if q < n { full.hand(q).total() } else { 0 });
            }
            assert forall|i: int| 0 <= i < MAX_PLAYERS implies #[trigger] view_after.trick.has_passed.0@[i]
                == full_after.trick.has_passed.0@[i] by {
                match full.trick.top_set {
                    None => {},
                    Some(t) => {
                        let passed = full.trick.has_passed.0@.update(c, true);
                        if crate::game::rules::spec_all_passed(passed, full.player_placements, n, t.player.0 as int) {
                            assert(!view_after.trick.has_passed.at(i));
                            assert(!full_after.trick.has_passed.at(i));
                        }
                    },
                }
            }
            assert(view_after.trick.has_passed.0 =~= full_after.trick.has_passed.0);
        },
    }
}

} // verus!
