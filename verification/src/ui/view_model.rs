use vstd::prelude::*;

use crate::consts::{MAX_CARD_ORDINALITY, MAX_PLAYERS};
use crate::game::actions::{Move, Play, TopSet};
use crate::game::collections::PlayerHand;
use crate::game::primitives::{CardCount, CardRank, PlayerID, MAX_TOTAL_PLAY};
use crate::game::rules::{lists_plays_descending, plays_descending, spec_legal_move, spec_plays_descending};
use crate::game::state::{FullInformationGameState, IncompleteInformationGameState};
use crate::ui::{cards, game, hand, players, table};

verus! {

/// The drawn form of a play.
pub open spec fn spec_card_move(play: Play) -> cards::Move {
    cards::Move {
        rank: play.rank.0 as u8,
        num_wilds: play.num_wilds.0 as u8,
        num_non_wilds: play.num_non_wilds.0 as u8,
    }
}

/// The drawn forms of the plays `plays`.
pub open spec fn spec_card_moves(plays: Seq<Move>) -> Seq<cards::Move> {
    plays.map_values(|m: Move| spec_card_move(m->Play_0))
}

/// The drawn form of a move: a play is drawn, a pass is not.
pub fn core_move_to_card_move(player_move: Move) -> (card_move: Option<cards::Move>)
    ensures
        card_move == match player_move {
            Move::Play(play) => Some(spec_card_move(play)),
            Move::Pass => None,
        },
{
    match player_move {
        Move::Play(play) => Some(cards::Move::new(play.rank.0 as u8, play.num_wilds.0 as u8, play.num_non_wilds.0 as u8)),
        Move::Pass => None,
    }
}

/// The play that a drawn move stands for. The drawn move's wilds are handed to the play as its
/// non-wilds and its non-wilds as its wilds.
pub fn card_move_to_core_move(player_move: cards::Move) -> (core_move: Move)
    requires
        1 <= player_move.rank < MAX_CARD_ORDINALITY,
        0 < player_move.num_wilds + player_move.num_non_wilds <= MAX_TOTAL_PLAY,
    ensures
        core_move == Move::Play(
            Play {
                rank: CardRank(player_move.rank as usize),
                num_non_wilds: CardCount(player_move.num_wilds as usize),
                num_wilds: CardCount(player_move.num_non_wilds as usize),
            },
        ),
{
    Move::Play(
        Play::new(
            CardRank::new(player_move.rank as usize),
            CardCount::new(player_move.num_wilds as usize),
            CardCount::new(player_move.num_non_wilds as usize),
        ),
    )
}

/// `card_move` is the drawn form of a play that `hand` may make on `top_set`.
pub open spec fn is_legal_card_move(hand: PlayerHand, top_set: Option<TopSet>, card_move: cards::Move) -> bool {
    exists|play: Play| #![trigger spec_card_move(play)] spec_legal_move(hand, top_set, Move::Play(play)) && card_move == spec_card_move(play)
}

/// How seat `p` is shown: to move; out (holding the top set or not) when it has no cards;
/// passed; holding the top set; or in play.
pub open spec fn spec_player_state(game_state: FullInformationGameState, p: int) -> players::PlayerState {
    let leading = match game_state.trick.top_set {
        Some(top_set) => top_set.player.0 == p,
        None => false,
    };
    if p == game_state.current_player_number.0 {
        players::PlayerState::Active
    } else if game_state.hand(p).total() == 0 {
        if leading { players::PlayerState::LeadingOut } else { players::PlayerState::NormalOut }
    } else if game_state.trick.has_passed.at(p) {
        players::PlayerState::Passed
    } else if leading {
        players::PlayerState::Leading
    } else {
        players::PlayerState::Normal
    }
}

/// How a seat is shown, by what holds of it: the seat to move is active, and no other; a seat
/// other than the one to move that holds no cards is shown as out, and as out holding the top
/// set exactly when the top set is its own; a seat is shown as passed exactly when it is not
/// to move, still has cards and has passed on the top set.
pub proof fn law_seat_state_follows_the_seat(game_state: FullInformationGameState)
    ensures
        forall|p: int| (#[trigger] spec_player_state(game_state, p) is Active) <==> p == game_state.current_player_number.0,
        forall|p: int| (#[trigger] spec_player_state(game_state, p) is NormalOut || spec_player_state(game_state, p) is LeadingOut)
            <==> (p != game_state.current_player_number.0 && game_state.hand(p).total() == 0),
        forall|p: int| (#[trigger] spec_player_state(game_state, p) is LeadingOut)
            <==> (p != game_state.current_player_number.0 && game_state.hand(p).total() == 0
                && (game_state.trick.top_set matches Some(t) && t.player.0 == p)),
        forall|p: int| (#[trigger] spec_player_state(game_state, p) is Passed)
            <==> (p != game_state.current_player_number.0 && game_state.hand(p).total() != 0
                && game_state.trick.has_passed.at(p)),
{
}

/// How a seat of a live game is shown, by what holds of it: the seat to move is active, and no
/// other; a seat other than the one to move whose stated hand size is zero is shown as out, and
/// as out holding the top set exactly when the top set is its own; a seat is shown as passed
/// exactly when it is not to move, still has cards and has passed on the top set.
pub proof fn law_live_seat_state_follows_the_seat(game_state: IncompleteInformationGameState)
    ensures
        forall|p: int| (#[trigger] spec_live_player_state(game_state, p) is Active) <==> p == game_state.current_player_number.0,
        forall|p: int| (#[trigger] spec_live_player_state(game_state, p) is NormalOut || spec_live_player_state(game_state, p) is LeadingOut)
            <==> (p != game_state.current_player_number.0 && game_state.hand_sizes.size(p) == 0),
        forall|p: int| (#[trigger] spec_live_player_state(game_state, p) is LeadingOut)
            <==> (p != game_state.current_player_number.0 && game_state.hand_sizes.size(p) == 0
                && (game_state.trick.top_set matches Some(t) && t.player.0 == p)),
        forall|p: int| (#[trigger] spec_live_player_state(game_state, p) is Passed)
            <==> (p != game_state.current_player_number.0 && game_state.hand_sizes.size(p) != 0
                && game_state.trick.has_passed.at(p)),
{
}

/// How seat `p` is named on the table: as the perspective player, or by its name.
pub open spec fn spec_table_player(p: int, ui_player: int, player_names: Seq<String>) -> table::Player {
    if p == ui_player { table::Player::PerspectivePlayer } else { table::Player::Other(player_names[p]) }
}

/// The counts of a hand as bytes.
pub open spec fn spec_hand_bytes(hand: PlayerHand, bytes: [u8; MAX_CARD_ORDINALITY]) -> bool {
    forall|r: int| 0 <= r < MAX_CARD_ORDINALITY ==> #[trigger] bytes@[r] == hand.count(r) as u8
}

/// The suggestion as it is shown.
pub open spec fn spec_suggestion(ai_suggestion: Option<Move>) -> hand::SuggestedMove {
    match ai_suggestion {
        Some(Move::Play(play)) => hand::SuggestedMove::Suggestion(hand::MoveSuggestion::Move(spec_card_move(play))),
        Some(Move::Pass) => hand::SuggestedMove::Suggestion(hand::MoveSuggestion::Pass),
        None => hand::SuggestedMove::Disabled,
    }
}

/// The counts of `hand` as bytes.
fn hand_bytes(hand: &PlayerHand) -> (bytes: [u8; MAX_CARD_ORDINALITY])
    ensures
        spec_hand_bytes(*hand, bytes),
{
    let mut bytes: [u8; MAX_CARD_ORDINALITY] = crate::game::collections::filled_rank_array(0u8);
    let mut r: usize = 0;
    while r < MAX_CARD_ORDINALITY
        invariant
            r <= MAX_CARD_ORDINALITY,
            forall|i: int| 0 <= i < r ==> #[trigger] bytes@[i] == hand.count(i) as u8,
        decreases MAX_CARD_ORDINALITY - r,
    {
        bytes[r] = hand.0[r].0 as u8;
        r = r + 1;
    }
    bytes
}

/// The number of cards in `hand`, as the seat widget counts them.
fn hand_size(hand: &PlayerHand) -> (size: u16)
    requires
        hand.wf(),
    ensures
        size == hand.total(),
{
    proof {
        assert forall|i: int| 0 <= i < hand.0@.len() implies (#[trigger] hand.0@[i]).0 <= MAX_TOTAL_PLAY by {
            assert(hand.count(i) <= MAX_TOTAL_PLAY);
        }
        crate::game::collections::lemma_sum_counts_bound(hand.0@, MAX_TOTAL_PLAY as nat);
    }
    let total = hand.total_cards();
    total as u16
}

/// Everything the game screen shows of `game_state` to the player at `ui_player_number`: each
/// seat with its name, state and number of cards; whose turn it is and the top set; the trick
/// history; and the player's hand, with the moves they can make (the plays, strongest first)
/// when it is their turn.
pub fn build_game_widget(
    num_players: usize,
    ui_player_number: usize,
    current_selected_move: Option<usize>,
    ai_suggestion: Option<Move>,
    game_state: &FullInformationGameState,
    trick_history: &[cards::TrickHistoryEntry],
    player_names: &[String],
) -> (view: game::GameState)
    requires
        0 < num_players <= MAX_PLAYERS,
        ui_player_number < MAX_PLAYERS,
        game_state.current_player_number.0 < MAX_PLAYERS,
        num_players <= player_names@.len(),
        game_state.current_player_number.0 < player_names@.len(),
        game_state.hands_wf(),
        game_state.trick.top_set matches Some(t) ==> t.wf() && t.player.0 < player_names@.len(),
        trick_history@.len() > 0 ==> game_state.trick.top_set.is_some(),
        forall|r: int| 1 <= r < MAX_CARD_ORDINALITY ==>
            game_state.hand(ui_player_number as int).count(0) + #[trigger] game_state.hand(ui_player_number as int).count(r) <= MAX_TOTAL_PLAY,
    ensures
        view.players.players@.len() == num_players,
        forall|p: int| 0 <= p < num_players ==> {
            &&& (#[trigger] view.players.players@[p]).name == player_names@[p]
            &&& view.players.players@[p].state == spec_player_state(*game_state, p)
            &&& view.players.players@[p].hand_size == game_state.hand(p).total()
        },
        forall|p: int| 0 <= p < num_players && p != game_state.current_player_number.0 && game_state.hand(p).total() == 0
            ==> ((#[trigger] view.players.players@[p]).state is NormalOut || view.players.players@[p].state is LeadingOut),
        view.table.current_player == spec_table_player(game_state.current_player_number.0 as int, ui_player_number as int, player_names@),
        view.table.top_set == if trick_history@.len() == 0 {
            None
        } else {
            Some(
                table::TopSet {
                    top_set_move: trick_history@[0].player_move,
                    top_set_player: spec_table_player(game_state.trick.top_set->0.player.0 as int, ui_player_number as int, player_names@),
                },
            )
        },
        view.trick_history.player_moves@ == trick_history@,
        game_state.current_player_number.0 != ui_player_number ==> (view.player_hand matches hand::PlayerHand::NotPlayerTurn(bytes)
            && spec_hand_bytes(game_state.hand(ui_player_number as int), bytes)),
        game_state.current_player_number.0 == ui_player_number ==> (view.player_hand matches hand::PlayerHand::CurrentTurn(turn) && {
            &&& turn.can_pass == game_state.trick.top_set.is_some()
            &&& spec_hand_bytes(game_state.hand(ui_player_number as int), turn.hand)
            &&& turn.suggested_move == spec_suggestion(ai_suggestion)
            &&& turn.currently_selected == current_selected_move
            &&& forall|i: int| 0 <= i < turn.available_moves@.len() ==>
                is_legal_card_move(game_state.hand(ui_player_number as int), game_state.trick.top_set, #[trigger] turn.available_moves@[i])
            &&& forall|play: Play| spec_legal_move(game_state.hand(ui_player_number as int), game_state.trick.top_set, Move::Play(play))
                ==> #[trigger] turn.available_moves@.contains(spec_card_move(play))
            &&& turn.available_moves@ == spec_card_moves(spec_plays_descending(game_state.hand(ui_player_number as int), game_state.trick.top_set))
        }),
{
    let ui_player_id = PlayerID::new(ui_player_number);

    let mut player_widgets: Vec<players::Player> = Vec::new();
    let mut p: usize = 0;
    while p < num_players
        invariant
            p <= num_players <= MAX_PLAYERS,
            num_players <= player_names@.len(),
            game_state.hands_wf(),
            player_widgets@.len() == p,
            forall|q: int| 0 <= q < p ==> {
                &&& (#[trigger] player_widgets@[q]).name == player_names@[q]
                &&& player_widgets@[q].state == spec_player_state(*game_state, q)
                &&& player_widgets@[q].hand_size == game_state.hand(q).total()
            },
        decreases num_players - p,
    {
        let player_id = PlayerID::new(p);
        let player_hand = game_state.player_hands.get_value(player_id);
        let player_name = player_names[p].clone();
        assert(game_state.player_hands.at(p as int).wf());
        let size = hand_size(player_hand);

        let is_leading = match game_state.trick.top_set {
            Some(top_set) => top_set.player.0 == p,
            None => false,
        };

        let player_state = if p == game_state.current_player_number.0 {
            players::PlayerState::Active
        } else if size == 0 {
            if is_leading {
                players::PlayerState::LeadingOut
            } else {
                players::PlayerState::NormalOut
            }
        } else if *game_state.trick.has_passed.get_value(player_id) {
            players::PlayerState::Passed
        } else if is_leading {
            players::PlayerState::Leading
        } else {
            players::PlayerState::Normal
        };

        player_widgets.push(players::Player::new(player_name, player_state, size));
        p = p + 1;
    }

    let current = game_state.current_player_number.0;
    let current_player = if current == ui_player_number {
        table::Player::PerspectivePlayer
    } else {
        table::Player::Other(player_names[current].clone())
    };

    let top_set = if trick_history.len() > 0 {
        let leader = match game_state.trick.top_set {
            Some(t) => t.player.0,
            None => 0,
        };
        let top_set_player = if leader == ui_player_number {
            table::Player::PerspectivePlayer
        } else {
            table::Player::Other(player_names[leader].clone())
        };
        Some(table::TopSet::new(trick_history[0].player_move, top_set_player))
    } else {
        None
    };

    let table = table::Table::new(current_player, top_set);

    let player_hand = game_state.player_hands.get_value(ui_player_id);
    assert(*player_hand == game_state.hand(ui_player_number as int));
    assert(game_state.player_hands.at(ui_player_number as int).wf());
    let plays = plays_descending(player_hand, game_state.trick.top_set);

    // The plays, strongest first.
    let mut converted_moves: Vec<cards::Move> = Vec::new();
    let mut k: usize = 0;
    while k < plays.len()
        invariant
            k <= plays@.len(),
            lists_plays_descending(*player_hand, game_state.trick.top_set, plays@),
            converted_moves@ == spec_card_moves(plays@.take(k as int)),
        decreases plays@.len() - k,
    {
        let player_move = plays[k];
        assert(plays@.contains(player_move));
        if let Move::Play(play) = player_move {
            converted_moves.push(cards::Move::new(play.rank.0 as u8, play.num_wilds.0 as u8, play.num_non_wilds.0 as u8));
        }
        proof {
            assert(plays@.take(k as int + 1) =~= plays@.take(k as int).push(player_move));
        }
        k = k + 1;
        assert(converted_moves@ =~= spec_card_moves(plays@.take(k as int)));
    }
    proof {
        assert(plays@.take(plays@.len() as int) =~= plays@);
        assert forall|i: int| 0 <= i < converted_moves@.len() implies
            is_legal_card_move(*player_hand, game_state.trick.top_set, #[trigger] converted_moves@[i]) by {
            assert(plays@.contains(plays@[i]));
            let play = plays@[i]->Play_0;
            assert(converted_moves@[i] == spec_card_move(play));
        }
        assert forall|play: Play| spec_legal_move(*player_hand, game_state.trick.top_set, Move::Play(play))
            implies #[trigger] converted_moves@.contains(spec_card_move(play)) by {
            assert(plays@.contains(Move::Play(play)));
            let j = choose|j: int| 0 <= j < plays@.len() && plays@[j] == Move::Play(play);
            assert(converted_moves@[j] == spec_card_move(play));
        }
    }

    let suggested_move = match ai_suggestion {
        Some(Move::Play(play)) => hand::SuggestedMove::Suggestion(
            hand::MoveSuggestion::Move(cards::Move::new(play.rank.0 as u8, play.num_wilds.0 as u8, play.num_non_wilds.0 as u8)),
        ),
        Some(Move::Pass) => hand::SuggestedMove::Suggestion(hand::MoveSuggestion::Pass),
        None => hand::SuggestedMove::Disabled,
    };

    let player_hand_widget = if current == ui_player_number {
        hand::PlayerHand::CurrentTurn(
            hand::PlayerTurnHand::new(
                game_state.trick.top_set.is_some(),
                hand_bytes(player_hand),
                suggested_move,
                converted_moves,
                current_selected_move,
            ),
        )
    } else {
        hand::PlayerHand::NotPlayerTurn(hand_bytes(player_hand))
    };

    let mut history: Vec<cards::TrickHistoryEntry> = Vec::new();
    let mut i: usize = 0;
    while i < trick_history.len()
        invariant
            i <= trick_history@.len(),
            history@ == trick_history@.take(i as int),
        decreases trick_history@.len() - i,
    {
        history.push(trick_history[i].clone());
        i = i + 1;
        assert(history@ =~= trick_history@.take(i as int));
    }
    assert(history@ =~= trick_history@);

    proof {
        law_seat_state_follows_the_seat(*game_state);
    }
    game::GameState::new(
        players::Players::new(player_widgets),
        table,
        cards::TrickHistory::new(history),
        player_hand_widget,
    )
}

/// How seat `p` of a live game is shown: to move; out (holding the top set or not) when it has
/// no cards left; passed; holding the top set; or in play.
pub open spec fn spec_live_player_state(game_state: IncompleteInformationGameState, p: int) -> players::PlayerState {
    let leading = match game_state.trick.top_set {
        Some(top_set) => top_set.player.0 == p,
        None => false,
    };
    if p == game_state.current_player_number.0 {
        players::PlayerState::Active
    } else if game_state.hand_sizes.size(p) == 0 {
        if leading { players::PlayerState::LeadingOut } else { players::PlayerState::NormalOut }
    } else if game_state.trick.has_passed.at(p) {
        players::PlayerState::Passed
    } else if leading {
        players::PlayerState::Leading
    } else {
        players::PlayerState::Normal
    }
}

/// Everything the game screen of a live game shows of `game_state` to the player at
/// `ui_player_number`, whose view it is: each seat with its name, state and stated number of
/// cards; whose turn it is and the top set; the trick history; and the player's hand, with the
/// moves they can make (the plays, strongest first) when it is their turn.
pub fn build_incomplete_game_widget(
    ui_player_number: usize,
    current_selected_move: Option<usize>,
    ai_suggestion: Option<Move>,
    game_state: &IncompleteInformationGameState,
    trick_history: &[cards::TrickHistoryEntry],
    player_names: &[String],
) -> (view: game::GameState)
    requires
        game_state.wf(),
        ui_player_number == game_state.perspective_player_number.0,
        forall|p: int| 0 <= p < game_state.number_of_players ==> #[trigger] game_state.hand_sizes.size(p) <= u16::MAX,
        game_state.current_player_number.0 < MAX_PLAYERS,
        game_state.number_of_players <= player_names@.len(),
        game_state.current_player_number.0 < player_names@.len(),
        game_state.trick.top_set matches Some(t) ==> t.wf() && t.player.0 < player_names@.len(),
        trick_history@.len() > 0 ==> game_state.trick.top_set.is_some(),
        forall|r: int| 1 <= r < MAX_CARD_ORDINALITY ==>
            game_state.player_hand.count(0) + #[trigger] game_state.player_hand.count(r) <= MAX_TOTAL_PLAY,
    ensures
        view.players.players@.len() == game_state.number_of_players,
        forall|p: int| 0 <= p < game_state.number_of_players ==> {
            &&& (#[trigger] view.players.players@[p]).name == player_names@[p]
            &&& view.players.players@[p].state == spec_live_player_state(*game_state, p)
            &&& view.players.players@[p].hand_size == game_state.hand_sizes.size(p)
        },
        forall|p: int| 0 <= p < game_state.number_of_players && p != game_state.current_player_number.0
            && game_state.hand_sizes.size(p) == 0
            ==> ((#[trigger] view.players.players@[p]).state is NormalOut || view.players.players@[p].state is LeadingOut),
        view.table.current_player == spec_table_player(game_state.current_player_number.0 as int, ui_player_number as int, player_names@),
        view.table.top_set == if trick_history@.len() == 0 {
            None
        } else {
            Some(
                table::TopSet {
                    top_set_move: trick_history@[0].player_move,
                    top_set_player: spec_table_player(game_state.trick.top_set->0.player.0 as int, ui_player_number as int, player_names@),
                },
            )
        },
        view.trick_history.player_moves@ == trick_history@,
        game_state.current_player_number.0 != ui_player_number ==> (view.player_hand matches hand::PlayerHand::NotPlayerTurn(bytes)
            && spec_hand_bytes(game_state.player_hand, bytes)),
        game_state.current_player_number.0 == ui_player_number ==> (view.player_hand matches hand::PlayerHand::CurrentTurn(turn) && {
            &&& turn.can_pass == game_state.trick.top_set.is_some()
            &&& spec_hand_bytes(game_state.player_hand, turn.hand)
            &&& turn.suggested_move == spec_suggestion(ai_suggestion)
            &&& turn.currently_selected == current_selected_move
            &&& forall|i: int| 0 <= i < turn.available_moves@.len() ==>
                is_legal_card_move(game_state.player_hand, game_state.trick.top_set, #[trigger] turn.available_moves@[i])
            &&& forall|play: Play| spec_legal_move(game_state.player_hand, game_state.trick.top_set, Move::Play(play))
                ==> #[trigger] turn.available_moves@.contains(spec_card_move(play))
            &&& turn.available_moves@ == spec_card_moves(spec_plays_descending(game_state.player_hand, game_state.trick.top_set))
        }),
{
    let num_players = game_state.number_of_players;

    let mut player_widgets: Vec<players::Player> = Vec::new();
    let mut p: usize = 0;
    while p < num_players
        invariant
            p <= num_players <= MAX_PLAYERS,
            game_state.number_of_players <= player_names@.len(),
                num_players == game_state.number_of_players,
            forall|q: int| 0 <= q < num_players ==> #[trigger] game_state.hand_sizes.size(q) <= u16::MAX,
            player_widgets@.len() == p,
            forall|q: int| 0 <= q < p ==> {
                &&& (#[trigger] player_widgets@[q]).name == player_names@[q]
                &&& player_widgets@[q].state == spec_live_player_state(*game_state, q)
                &&& player_widgets@[q].hand_size == game_state.hand_sizes.size(q)
            },
        decreases num_players - p,
    {
        let player_id = PlayerID::new(p);
        let player_name = player_names[p].clone();
        assert(game_state.hand_sizes.size(p as int) <= u16::MAX);
        let size = game_state.hand_sizes.get_size(player_id) as u16;

        let is_leading = match game_state.trick.top_set {
            Some(top_set) => top_set.player.0 == p,
            None => false,
        };

        let player_state = if p == game_state.current_player_number.0 {
            players::PlayerState::Active
        } else if size == 0 {
            if is_leading {
                players::PlayerState::LeadingOut
            } else {
                players::PlayerState::NormalOut
            }
        } else if *game_state.trick.has_passed.get_value(player_id) {
            players::PlayerState::Passed
        } else if is_leading {
            players::PlayerState::Leading
        } else {
            players::PlayerState::Normal
        };

        player_widgets.push(players::Player::new(player_name, player_state, size));
        p = p + 1;
    }

    let current = game_state.current_player_number.0;
    let current_player = if current == ui_player_number {
        table::Player::PerspectivePlayer
    } else {
        table::Player::Other(player_names[current].clone())
    };

    let top_set = if trick_history.len() > 0 {
        let leader = match game_state.trick.top_set {
            Some(t) => t.player.0,
            None => 0,
        };
        let top_set_player = if leader == ui_player_number {
            table::Player::PerspectivePlayer
        } else {
            table::Player::Other(player_names[leader].clone())
        };
        Some(table::TopSet::new(trick_history[0].player_move, top_set_player))
    } else {
        None
    };

    let table = table::Table::new(current_player, top_set);

    let player_hand = &game_state.player_hand;
    let plays = plays_descending(player_hand, game_state.trick.top_set);

    // The plays, strongest first.
    let mut converted_moves: Vec<cards::Move> = Vec::new();
    let mut k: usize = 0;
    while k < plays.len()
        invariant
            k <= plays@.len(),
            lists_plays_descending(*player_hand, game_state.trick.top_set, plays@),
            converted_moves@ == spec_card_moves(plays@.take(k as int)),
        decreases plays@.len() - k,
    {
        let player_move = plays[k];
        assert(plays@.contains(player_move));
        if let Move::Play(play) = player_move {
            converted_moves.push(cards::Move::new(play.rank.0 as u8, play.num_wilds.0 as u8, play.num_non_wilds.0 as u8));
        }
        proof {
            assert(plays@.take(k as int + 1) =~= plays@.take(k as int).push(player_move));
        }
        k = k + 1;
        assert(converted_moves@ =~= spec_card_moves(plays@.take(k as int)));
    }
    proof {
        assert(plays@.take(plays@.len() as int) =~= plays@);
        assert forall|i: int| 0 <= i < converted_moves@.len() implies
            is_legal_card_move(*player_hand, game_state.trick.top_set, #[trigger] converted_moves@[i]) by {
            assert(plays@.contains(plays@[i]));
            let play = plays@[i]->Play_0;
            assert(converted_moves@[i] == spec_card_move(play));
        }
        assert forall|play: Play| spec_legal_move(*player_hand, game_state.trick.top_set, Move::Play(play))
            implies #[trigger] converted_moves@.contains(spec_card_move(play)) by {
            assert(plays@.contains(Move::Play(play)));
            let j = choose|j: int| 0 <= j < plays@.len() && plays@[j] == Move::Play(play);
            assert(converted_moves@[j] == spec_card_move(play));
        }
    }

    let suggested_move = match ai_suggestion {
        Some(Move::Play(play)) => hand::SuggestedMove::Suggestion(
            hand::MoveSuggestion::Move(cards::Move::new(play.rank.0 as u8, play.num_wilds.0 as u8, play.num_non_wilds.0 as u8)),
        ),
        Some(Move::Pass) => hand::SuggestedMove::Suggestion(hand::MoveSuggestion::Pass),
        None => hand::SuggestedMove::Disabled,
    };

    let player_hand_widget = if current == ui_player_number {
        hand::PlayerHand::CurrentTurn(
            hand::PlayerTurnHand::new(
                game_state.trick.top_set.is_some(),
                hand_bytes(player_hand),
                suggested_move,
                converted_moves,
                current_selected_move,
            ),
        )
    } else {
        hand::PlayerHand::NotPlayerTurn(hand_bytes(player_hand))
    };

    let mut history: Vec<cards::TrickHistoryEntry> = Vec::new();
    let mut i: usize = 0;
    while i < trick_history.len()
        invariant
            i <= trick_history@.len(),
            history@ == trick_history@.take(i as int),
        decreases trick_history@.len() - i,
    {
        history.push(trick_history[i].clone());
        i = i + 1;
        assert(history@ =~= trick_history@.take(i as int));
    }
    assert(history@ =~= trick_history@);

    proof {
        law_live_seat_state_follows_the_seat(*game_state);
    }
    game::GameState::new(
        players::Players::new(player_widgets),
        table,
        cards::TrickHistory::new(history),
        player_hand_widget,
    )
}

} // verus!
