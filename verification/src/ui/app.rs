use vstd::prelude::*;

use crate::consts::{MAX_CARD_ORDINALITY, MAX_PLAYERS};
use crate::game::actions::{Move, Play, TopSet, Trick};
use crate::game::collections::{sum_counts, sum_usizes, HandSizes, PlayerHand, PlayerIndexed, PlayerPlacements};
use crate::game::primitives::{CardCount, CardRank, PlayerID, MAX_TOTAL_PLAY};
use crate::game::rules::{
    get_available_moves, spec_can_afford, spec_full_update, spec_incomplete_update, spec_legal_move,
    spec_move_key, update_full_information_game_state, update_incomplete_information_game_state,
    lemma_descending_unique, lists_plays_descending, plays_descending, GameLogicError,
};
use crate::game::state::{
    create_incomplete_information_game_state, spec_opponent_count, FullInformationGameState,
    IncompleteInformationGameState,
};
use crate::ui::cards;
use crate::ui::live_widgets::{ObservedAction, ObservedMoveInputState};
use crate::ui::settings::GameMode;
use crate::world::margins::filled_array;

verus! {

/// The screen the application shows.
#[derive(Debug, Clone, Copy, PartialEq, Eq, Structural)]
pub enum Screen {
    MainMenu,
    Settings,
    LiveHandInput,
    Playing,
    GameOver,
}

/// The state of a game in progress: every hand, against the computer, or what the player can
/// see, in a live game.
#[derive(Debug, Clone)]
pub enum SessionState {
    Full(FullInformationGameState),
    Live(IncompleteInformationGameState),
}

/// A game in progress, with what the screen needs around it.
#[derive(Debug, Clone)]
pub struct GameSession {
    pub mode: GameMode,
    pub state: SessionState,
    pub trick_history: Vec<cards::TrickHistoryEntry>,
    pub player_names: Vec<String>,
    pub ui_player_number: usize,
    pub current_selected_move: Option<usize>,
}

impl GameSession {
    pub fn number_of_players(&self) -> (n: usize)
        ensures
            n == match self.state {
                SessionState::Full(state) => state.number_of_players,
                SessionState::Live(state) => state.number_of_players,
            },
    {
        match &self.state {
            SessionState::Full(state) => state.number_of_players,
            SessionState::Live(state) => state.number_of_players,
        }
    }

    pub fn current_player_number(&self) -> (player: PlayerID)
        ensures
            player == match self.state {
                SessionState::Full(state) => state.current_player_number,
                SessionState::Live(state) => state.current_player_number,
            },
    {
        match &self.state {
            SessionState::Full(state) => state.current_player_number,
            SessionState::Live(state) => state.current_player_number,
        }
    }

    /// The placement of `player_id`: zero while in play, otherwise the order in which it went
    /// out.
    pub fn placement_for(&self, player_id: PlayerID) -> (placement: usize)
        requires
            player_id.wf(),
        ensures
            placement == match self.state {
                SessionState::Full(state) => state.player_placements.place(player_id.0 as int),
                SessionState::Live(state) => state.player_placements.place(player_id.0 as int),
            },
    {
        match &self.state {
            SessionState::Full(state) => state.player_placements.get_placement(player_id),
            SessionState::Live(state) => state.player_placements.get_placement(player_id),
        }
    }

    /// What the solver works on for `perspective_player_number`: in a game against the
    /// computer, the view of that seat; in a live game, the known state, which is already that
    /// seat's view.
    pub fn incomplete_state_for_solver(&self, perspective_player_number: PlayerID) -> (state: IncompleteInformationGameState)
        requires
            perspective_player_number.wf(),
            self.state matches SessionState::Full(full) ==> {
                &&& 0 < full.number_of_players <= MAX_PLAYERS
                &&& full.hands_wf()
                &&& forall|r: int| 0 <= r < MAX_CARD_ORDINALITY ==> #[trigger] spec_opponent_count(
                    full.player_hands,
                    perspective_player_number.0 as int,
                    r,
                    full.number_of_players as int,
                ) <= MAX_TOTAL_PLAY
            },
            self.state matches SessionState::Live(live) ==> live.perspective_player_number == perspective_player_number,
        ensures
            self.state matches SessionState::Live(live) ==> state == live,
            self.state matches SessionState::Full(full) ==> {
                &&& state.current_player_number == full.current_player_number
                &&& state.perspective_player_number == perspective_player_number
                &&& state.number_of_players == full.number_of_players
                &&& state.player_hand == full.hand(perspective_player_number.0 as int)
                &&& state.player_placements == full.player_placements
                &&& state.trick == full.trick
                &&& forall|r: int| 0 <= r < MAX_CARD_ORDINALITY ==> #[trigger] state.opponent_cards.count(r)
                    == spec_opponent_count(full.player_hands, perspective_player_number.0 as int, r, full.number_of_players as int)
                &&& forall|p: int| 0 <= p < MAX_PLAYERS ==> #[trigger] state.hand_sizes.size(p)
                    == if p < full.number_of_players { full.hand(p).total() } else { 0 }
            },
    {
        match &self.state {
            SessionState::Full(game_state) => create_incomplete_information_game_state(game_state, perspective_player_number),
            SessionState::Live(game_state) => *game_state,
        }
    }

    /// The player whose turn it is.
    pub open spec fn spec_current_player(self) -> PlayerID {
        match self.state {
            SessionState::Full(state) => state.current_player_number,
            SessionState::Live(state) => state.current_player_number,
        }
    }

    /// The top set of the trick in play.
    pub open spec fn spec_top_set(self) -> Option<TopSet> {
        match self.state {
            SessionState::Full(state) => state.trick.top_set,
            SessionState::Live(state) => state.trick.top_set,
        }
    }

    /// The hand from which the player at the screen picks a play: their seat's hand against
    /// the computer; in a live game the known hand, and none while another player is to move.
    pub open spec fn choice_hand(self) -> Option<PlayerHand> {
        match self.state {
            SessionState::Full(state) => Some(state.hand(self.ui_player_number as int)),
            SessionState::Live(state) => if state.current_player_number == state.perspective_player_number {
                Some(state.player_hand)
            } else {
                None
            },
        }
    }

    /// The plays of the player at the screen can be listed: a seat in range, a valid top set and
    /// a hand within the limits of the move generator.
    pub open spec fn can_list_choices(self) -> bool {
        &&& (self.state matches SessionState::Full(_) ==> self.ui_player_number < MAX_PLAYERS)
        &&& (self.spec_top_set() matches Some(t) ==> t.wf())
        &&& (self.choice_hand() matches Some(hand) ==> {
            &&& hand.wf()
            &&& forall|r: int| 1 <= r < MAX_CARD_ORDINALITY ==> hand.count(0) + #[trigger] hand.count(r) <= MAX_TOTAL_PLAY
        })
    }

    /// `moves` lists the plays open to the player at the screen, the highest key first.
    pub open spec fn lists_play_choices(self, moves: Seq<Move>) -> bool {
        match self.choice_hand() {
            None => moves.len() == 0,
            Some(hand) => lists_plays_descending(hand, self.spec_top_set(), moves),
        }
    }

    /// The plays open to the player at the screen, the highest key first; there is only one such
    /// list (`lemma_play_choices_unique`).
    pub open spec fn play_choices(self) -> Seq<Move> {
        choose|moves: Seq<Move>| self.lists_play_choices(moves)
    }

    /// Any list of the plays open to the player at the screen, highest key first, is the list.
    pub proof fn lemma_play_choices_unique(self, moves: Seq<Move>)
        requires
            self.lists_play_choices(moves),
        ensures
            self.play_choices() == moves,
    {
        let other = self.play_choices();
        assert(self.lists_play_choices(other));
        match self.choice_hand() {
            None => {
                assert(other =~= moves);
            },
            Some(hand) => {
                lemma_descending_unique(self.spec_top_set(), other, moves);
            },
        }
    }

    /// The plays the player at the screen can choose from, the highest key first; none in a live
    /// game while another player is to move. A pass is not among them.
    pub fn available_play_moves(&self) -> (moves: Vec<Move>)
        requires
            self.can_list_choices(),
        ensures
            self.lists_play_choices(moves@),
            moves@ == self.play_choices(),
    {
        let (hand, top_set) = match &self.state {
            SessionState::Full(state) => (*state.player_hands.get_value(PlayerID::new(self.ui_player_number)), state.trick.top_set),
            SessionState::Live(state) => {
                if state.current_player_number.0 != state.perspective_player_number.0 {
                    let empty: Vec<Move> = Vec::new();
                    proof {
                        self.lemma_play_choices_unique(empty@);
                    }
                    return empty;
                }
                (state.player_hand, state.trick.top_set)
            },
        };
        assert(self.choice_hand() == Some(hand));
        assert(self.spec_top_set() == top_set);
        let moves = plays_descending(&hand, top_set);
        proof {
            self.lemma_play_choices_unique(moves@);
        }
        moves
    }

    /// Right: selects the next play, or the first when none is selected; stays on the last one,
    /// and does nothing when there are no plays.
    pub fn select_next_move(&mut self)
        requires
            old(self).can_list_choices(),
        ensures
            final(self).current_selected_move == next_selection(
                old(self).current_selected_move,
                old(self).play_choices().len(),
            ),
            final(self).state == old(self).state,
            final(self).mode == old(self).mode,
            final(self).trick_history == old(self).trick_history,
            final(self).player_names == old(self).player_names,
            final(self).ui_player_number == old(self).ui_player_number,
    {
        let move_count = self.available_play_moves().len();
        if move_count == 0 {
            return;
        }
        match self.current_selected_move {
            Some(index) => {
                if index < move_count - 1 {
                    self.current_selected_move = Some(index + 1);
                }
            },
            None => self.current_selected_move = Some(0),
        }
    }

    /// Left: selects the previous play; stays on the first one and leaves no selection as it is.
    pub fn select_previous_move(&mut self)
        ensures
            final(self).current_selected_move == match old(self).current_selected_move {
                Some(index) => if index > 0 { Some((index - 1) as usize) } else { Some(index) },
                None => None,
            },
            final(self).state == old(self).state,
            final(self).mode == old(self).mode,
            final(self).trick_history == old(self).trick_history,
            final(self).player_names == old(self).player_names,
            final(self).ui_player_number == old(self).ui_player_number,
    {
        match self.current_selected_move {
            Some(index) => {
                if index > 0 {
                    self.current_selected_move = Some(index - 1);
                }
            },
            None => {},
        }
    }

    /// The selected play, if the selection points at one.
    pub fn current_selected_core_move(&self) -> (selected: Option<Move>)
        requires
            self.can_list_choices(),
        ensures
            selected == match self.current_selected_move {
                Some(index) => if index < self.play_choices().len() {
                    Some(self.play_choices()[index as int])
                } else {
                    None
                },
                None => None,
            },
    {
        let selected_index = match self.current_selected_move {
            Some(index) => index,
            None => return None,
        };
        let moves = self.available_play_moves();
        if selected_index < moves.len() {
            Some(moves[selected_index])
        } else {
            None
        }
    }

    /// The player at the screen may pass: there is a top set to pass on, and, in a live game,
    /// it is their turn.
    pub fn can_pass(&self) -> (allowed: bool)
        ensures
            allowed == match self.state {
                SessionState::Full(state) => state.trick.top_set.is_some(),
                SessionState::Live(state) => state.current_player_number == state.perspective_player_number
                    && state.trick.top_set.is_some(),
            },
    {
        match &self.state {
            SessionState::Full(state) => state.trick.top_set.is_some(),
            SessionState::Live(state) => state.current_player_number.0 == state.perspective_player_number.0
                && state.trick.top_set.is_some(),
        }
    }

    /// Plays `player_move` for the player whose turn it is. Against the computer the whole game
    /// moves on; in a live game the move is first checked against what is known
    /// (`validate_incomplete_move_is_possible`) and refused if it cannot have been made. On
    /// success the trick history gets the play at its front (or is cleared when a pass ends the
    /// trick), the selection is dropped, and the result tells whether the round is over, which
    /// a live game does not track and reports as `false`.
    pub fn apply_move(&mut self, player_move: Move) -> (result: Result<bool, SessionMoveError>)
        requires
            old(self).spec_current_player().0 < old(self).player_names@.len(),
            match old(self).state {
                SessionState::Full(state) => {
                    &&& state.wf()
                    &&& player_move matches Move::Play(play) ==> {
                        &&& play.wf()
                        &&& spec_can_afford(state.hand(state.current_player_number.0 as int), play)
                        &&& state.player_placements.place(state.current_player_number.0 as int) == 0
                    }
                },
                SessionState::Live(state) => {
                    &&& state.wf()
                    &&& forall|r: int| 1 <= r < MAX_CARD_ORDINALITY ==> state.player_hand.count(0) + #[trigger] state.player_hand.count(r) <= MAX_TOTAL_PLAY
                    &&& forall|r: int| 1 <= r < MAX_CARD_ORDINALITY ==> state.opponent_cards.count(0) + #[trigger] state.opponent_cards.count(r) <= MAX_TOTAL_PLAY
                    &&& player_move matches Move::Play(play) ==> {
                        &&& play.total() <= MAX_TOTAL_PLAY
                        &&& state.player_placements.place(state.current_player_number.0 as int) == 0
                    }
                },
            },
        ensures
            final(self).mode == old(self).mode,
            final(self).player_names == old(self).player_names,
            final(self).ui_player_number == old(self).ui_player_number,
            match (old(self).state, final(self).state) {
                (SessionState::Full(before), SessionState::Full(after)) => match result {
                    Ok(round_finished) => spec_full_update(before, after, player_move, Ok(round_finished)),
                    Err(SessionMoveError::Rules(error)) => spec_full_update(before, after, player_move, Err(error)),
                    Err(SessionMoveError::Impossible(_)) => false,
                },
                (SessionState::Live(before), SessionState::Live(after)) => match spec_move_check(before, player_move) {
                    Err(error) => result == Err::<bool, SessionMoveError>(SessionMoveError::Impossible(error)) && after == before,
                    Ok(()) => result == Ok::<bool, SessionMoveError>(false) && spec_incomplete_update(before, after, player_move, Ok(())),
                },
                _ => false,
            },
            result is Err ==> final(self).trick_history == old(self).trick_history
                && final(self).current_selected_move == old(self).current_selected_move,
            result is Ok ==> final(self).current_selected_move.is_none(),
            result is Ok ==> final(self).trick_history@ == match player_move {
                Move::Play(play) => old(self).trick_history@.insert(0, history_entry(
                    old(self).player_names@[old(self).spec_current_player().0 as int],
                    play,
                )),
                Move::Pass => if final(self).spec_top_set().is_none() {
                    Seq::empty()
                } else {
                    old(self).trick_history@
                },
            },
    {
        let current_player = self.current_player_number();
        let current_player_name = self.player_names[current_player.0].clone();
        let round_finished = match self.state {
            SessionState::Full(state) => {
                let mut state = state;
                let update = update_full_information_game_state(&mut state, player_move);
                self.state = SessionState::Full(state);
                match update {
                    Ok(done) => done,
                    Err(error) => return Err(SessionMoveError::Rules(error)),
                }
            },
            SessionState::Live(state) => {
                if let Err(error) = validate_incomplete_move_is_possible(&state, player_move) {
                    return Err(SessionMoveError::Impossible(error));
                }
                let mut state = state;
                let update = update_incomplete_information_game_state(&mut state, player_move);
                self.state = SessionState::Live(state);
                match update {
                    Ok(()) => false,
                    Err(error) => return Err(SessionMoveError::Rules(error)),
                }
            },
        };
        match player_move {
            Move::Play(play) => {
                let history_move = cards::Move::new(
                    play.rank.0 as u8,
                    play.num_wilds.0 as u8,
                    play.num_non_wilds.0 as u8,
                );
                self.trick_history.insert(0, cards::TrickHistoryEntry::new(current_player_name, history_move));
            },
            Move::Pass => {
                let trick_is_empty = match &self.state {
                    SessionState::Full(state) => state.trick.top_set.is_none(),
                    SessionState::Live(state) => state.trick.top_set.is_none(),
                };
                if trick_is_empty {
                    self.trick_history.clear();
                }
            },
        }
        self.current_selected_move = None;
        Ok(round_finished)
    }
}

/// Why a move could not be applied to a game in progress.
#[derive(Debug)]
pub enum SessionMoveError {
    /// The rules refused it.
    Rules(GameLogicError),
    /// In a live game, what is known shows it cannot have been made.
    Impossible(MoveCheckError),
}

/// The trick history line for `play` by `player_name`.
pub open spec fn history_entry(player_name: String, play: Play) -> cards::TrickHistoryEntry {
    cards::TrickHistoryEntry {
        player_name,
        player_move: cards::Move {
            rank: play.rank.0 as u8,
            num_wilds: play.num_wilds.0 as u8,
            num_non_wilds: play.num_non_wilds.0 as u8,
        },
    }
}

/// The selection after moving right among `count` plays.
pub open spec fn next_selection(selected: Option<usize>, count: nat) -> Option<usize> {
    if count == 0 {
        selected
    } else {
        match selected {
            Some(index) => if index + 1 < count { Some((index + 1) as usize) } else { Some(index) },
            None => Some(0),
        }
    }
}

/// The move entered in the observed-move panel: a pass, a play of the entered counts, or
/// nothing while a play has no cards.
pub fn current_observed_move(observed: &ObservedMoveInputState) -> (observed_move: Option<Move>)
    requires
        observed.action == ObservedAction::Play && !(observed.non_wilds == 0 && observed.wilds == 0) ==> {
            &&& 1 <= observed.rank < MAX_CARD_ORDINALITY
            &&& observed.non_wilds + observed.wilds <= MAX_TOTAL_PLAY
        },
    ensures
        observed_move == match observed.action {
            ObservedAction::Pass => Some(Move::Pass),
            ObservedAction::Play => if observed.non_wilds == 0 && observed.wilds == 0 {
                None
            } else {
                Some(Move::Play(Play {
                    rank: CardRank(observed.rank),
                    num_non_wilds: CardCount(observed.non_wilds),
                    num_wilds: CardCount(observed.wilds),
                }))
            },
        },
{
    match observed.action {
        ObservedAction::Pass => Some(Move::Pass),
        ObservedAction::Play => {
            if observed.non_wilds == 0 && observed.wilds == 0 {
                return None;
            }
            Some(Move::Play(Play::new(
                CardRank::new(observed.rank),
                CardCount::new(observed.non_wilds),
                CardCount::new(observed.wilds),
            )))
        },
    }
}

/// Why a live game could not be set up from what the player entered.
#[derive(Debug, Clone, PartialEq, Eq, Structural)]
pub enum LiveSetupError {
    /// The number of players is outside two to `MAX_PLAYERS`.
    InvalidNumberOfPlayers(usize),
    /// The perspective player is not one of the players.
    PerspectiveOutOfRange,
    /// The starting player is not one of the players.
    StartingPlayerOutOfRange,
    /// The hand has more cards of `rank` than the deck.
    HandExceedsDeck { rank: usize, player_count: usize, deck_count: usize },
    /// The hand size entered for the perspective player is not the size of their hand.
    HandSizeMismatch { stated: usize, counted: usize },
    /// The hand sizes of the players do not add up to the deck.
    HandSizesDoNotMatchDeck { hand_sizes: usize, deck: usize },
    /// The hand sizes of the opponents do not add up to the cards they hold together.
    OpponentCardsMismatch { opponent_hand_sizes: usize, opponent_cards: usize },
}

/// The first rank below `k` of which `player_hand` has more cards than `deck`, if any.
pub open spec fn first_excess_rank(player_hand: PlayerHand, deck: Seq<usize>, k: int) -> Option<int>
    decreases k,
{
    if k <= 0 {
        None
    } else {
        match first_excess_rank(player_hand, deck, k - 1) {
            Some(r) => Some(r),
            None => if player_hand.count(k - 1) > deck[k - 1] { Some(k - 1) } else { None },
        }
    }
}

/// Once a rank with too many cards is found, it stays the first one.
proof fn lemma_first_excess_stays(player_hand: PlayerHand, deck: Seq<usize>, a: int, b: int)
    requires
        0 <= a <= b,
        first_excess_rank(player_hand, deck, a) is Some,
    ensures
        first_excess_rank(player_hand, deck, b) == first_excess_rank(player_hand, deck, a),
    decreases b - a,
{
    if a < b {
        lemma_first_excess_stays(player_hand, deck, a, b - 1);
    }
}

/// Counts that add up entry by entry add up in total.
proof fn lemma_sum_split(a: Seq<CardCount>, b: Seq<CardCount>, d: Seq<usize>)
    requires
        a.len() == b.len() == d.len(),
        forall|i: int| 0 <= i < d.len() ==> #[trigger] d[i] == a[i].0 + b[i].0,
    ensures
        sum_counts(a) + sum_counts(b) == sum_usizes(d),
    decreases d.len(),
{
    if d.len() > 0 {
        lemma_sum_split(a.drop_last(), b.drop_last(), d.drop_last());
    }
}

/// The first `n` hand sizes summed, leaving out seat `skip`.
pub open spec fn sum_sizes_except(hand_sizes: Seq<usize>, n: int, skip: int) -> nat
    decreases n,
{
    if n <= 0 {
        0
    } else {
        sum_sizes_except(hand_sizes, n - 1, skip) + if n - 1 == skip { 0 } else { hand_sizes[n - 1] as nat }
    }
}

/// A sum leaving out nothing of the first `n` is the sum of the first `n`.
proof fn lemma_sum_sizes_prefix(hand_sizes: Seq<usize>, n: int)
    requires
        0 <= n <= hand_sizes.len(),
    ensures
        sum_sizes_except(hand_sizes, n, -1) == sum_usizes(hand_sizes.take(n)),
    decreases n,
{
    if n > 0 {
        lemma_sum_sizes_prefix(hand_sizes, n - 1);
        assert(hand_sizes.take(n).drop_last() =~= hand_sizes.take(n - 1));
    }
}

/// Leaving seat `skip` out of the first `n` takes exactly its size off.
proof fn lemma_sum_sizes_skip(hand_sizes: Seq<usize>, n: int, skip: int)
    requires
        0 <= skip < n <= hand_sizes.len(),
    ensures
        sum_sizes_except(hand_sizes, n, skip) + hand_sizes[skip] == sum_sizes_except(hand_sizes, n, -1),
    decreases n,
{
    if n - 1 > skip {
        lemma_sum_sizes_skip(hand_sizes, n - 1, skip);
    } else {
        lemma_sum_sizes_none(hand_sizes, n - 1, skip);
    }
}

/// Below `skip`, leaving `skip` out changes nothing.
proof fn lemma_sum_sizes_none(hand_sizes: Seq<usize>, n: int, skip: int)
    requires
        0 <= n <= skip,
    ensures
        sum_sizes_except(hand_sizes, n, skip) == sum_sizes_except(hand_sizes, n, -1),
    decreases n,
{
    if n > 0 {
        lemma_sum_sizes_none(hand_sizes, n - 1, skip);
    }
}

/// The seats of a live setup are in range: two to `MAX_PLAYERS` players, the perspective and the
/// starting player among them.
pub open spec fn live_seats_valid(number_of_players: usize, perspective: PlayerID, starting: PlayerID) -> bool {
    &&& 2 <= number_of_players <= MAX_PLAYERS
    &&& perspective.0 < number_of_players
    &&& starting.0 < number_of_players
}

/// The counts that `create_initial_live_incomplete_state` turns into card counts fit them, on
/// the path that reaches each: once the seats are valid, the opponents' share of each rank up to
/// the first rank of which the hand has more than the deck; and once every check has passed,
/// the hand size of every player.
pub open spec fn live_counts_fit(
    deck: Seq<usize>,
    number_of_players: usize,
    player_hand: PlayerHand,
    hand_sizes: Seq<usize>,
    perspective: PlayerID,
    starting: PlayerID,
) -> bool {
    live_seats_valid(number_of_players, perspective, starting) ==> {
        &&& forall|r: int|
            0 <= r < MAX_CARD_ORDINALITY && first_excess_rank(player_hand, deck, r + 1) is None ==> #[trigger] deck[r]
                <= player_hand.count(r) + MAX_TOTAL_PLAY
        &&& (first_excess_rank(player_hand, deck, MAX_CARD_ORDINALITY as int) is None && hand_sizes[perspective.0 as int]
            == player_hand.total() && sum_usizes(hand_sizes.take(number_of_players as int)) == sum_usizes(deck)) ==> forall|p: int|
            0 <= p < number_of_players ==> #[trigger] hand_sizes[p] <= MAX_TOTAL_PLAY
    }
}

/// The opening state of a live game with `number_of_players` at the table and the cards of
/// `deck`: the perspective player's `player_hand`, the rest of the deck pooled as the
/// opponents' cards, the hand sizes entered, `starting_player_number` to lead. What was
/// entered is checked first, and the first check that fails is reported.
pub fn create_initial_live_incomplete_state(
    deck: &[usize; MAX_CARD_ORDINALITY],
    number_of_players: usize,
    player_hand: PlayerHand,
    hand_sizes: [usize; MAX_PLAYERS],
    perspective_player_number: PlayerID,
    starting_player_number: PlayerID,
) -> (result: Result<IncompleteInformationGameState, LiveSetupError>)
    requires
        player_hand.wf(),
        sum_usizes(deck@) <= usize::MAX,
        sum_usizes(hand_sizes@) <= usize::MAX,
        live_counts_fit(deck@, number_of_players, player_hand, hand_sizes@, perspective_player_number, starting_player_number),
    ensures
        (number_of_players < 2 || number_of_players > MAX_PLAYERS) ==> result == Err::<IncompleteInformationGameState, LiveSetupError>(
            LiveSetupError::InvalidNumberOfPlayers(number_of_players),
        ),
        2 <= number_of_players <= MAX_PLAYERS ==> {
            let n = number_of_players as int;
            let persp = perspective_player_number.0 as int;
            let start = starting_player_number.0 as int;
            if persp >= n {
                result == Err::<IncompleteInformationGameState, LiveSetupError>(LiveSetupError::PerspectiveOutOfRange)
            } else if start >= n {
                result == Err::<IncompleteInformationGameState, LiveSetupError>(LiveSetupError::StartingPlayerOutOfRange)
            } else if first_excess_rank(player_hand, deck@, MAX_CARD_ORDINALITY as int) is Some {
                let r = first_excess_rank(player_hand, deck@, MAX_CARD_ORDINALITY as int)->0;
                result == Err::<IncompleteInformationGameState, LiveSetupError>(
                    LiveSetupError::HandExceedsDeck { rank: r as usize, player_count: player_hand.count(r) as usize, deck_count: deck@[r] },
                )
            } else if hand_sizes@[persp] != player_hand.total() {
                result == Err::<IncompleteInformationGameState, LiveSetupError>(
                    LiveSetupError::HandSizeMismatch { stated: hand_sizes@[persp], counted: player_hand.total() as usize },
                )
            } else if sum_usizes(hand_sizes@.take(n)) != sum_usizes(deck@) {
                result == Err::<IncompleteInformationGameState, LiveSetupError>(
                    LiveSetupError::HandSizesDoNotMatchDeck { hand_sizes: sum_usizes(hand_sizes@.take(n)) as usize, deck: sum_usizes(deck@) as usize },
                )
            } else {
                &&& result is Ok
                &&& result->Ok_0.current_player_number == starting_player_number
                &&& result->Ok_0.perspective_player_number == perspective_player_number
                &&& result->Ok_0.number_of_players == number_of_players
                &&& result->Ok_0.player_hand == player_hand
                &&& forall|r: int| 0 <= r < MAX_CARD_ORDINALITY ==> #[trigger] result->Ok_0.opponent_cards.count(r) == deck@[r] - player_hand.count(r)
                &&& forall|p: int| 0 <= p < MAX_PLAYERS ==> #[trigger] result->Ok_0.player_placements.place(p) == 0
                &&& forall|p: int| 0 <= p < MAX_PLAYERS ==> #[trigger] result->Ok_0.hand_sizes.size(p) == if p < n { hand_sizes@[p] } else { 0 }
                &&& result->Ok_0.trick.top_set.is_none()
                &&& forall|p: int| 0 <= p < MAX_PLAYERS ==> #[trigger] result->Ok_0.trick.has_passed.at(p) == (p >= n)
            }
        },
{
    if number_of_players < 2 || number_of_players > MAX_PLAYERS {
        return Err(LiveSetupError::InvalidNumberOfPlayers(number_of_players));
    }
    if perspective_player_number.0 >= number_of_players {
        return Err(LiveSetupError::PerspectiveOutOfRange);
    }
    if starting_player_number.0 >= number_of_players {
        return Err(LiveSetupError::StartingPlayerOutOfRange);
    }

    let ghost n = number_of_players as int;
    let total_deck_cards = total_of(deck);

    let mut player_hand_size: usize = 0;
    let mut opponent_cards = PlayerHand::empty();
    let mut r: usize = 0;
    while r < MAX_CARD_ORDINALITY
        invariant
            r <= MAX_CARD_ORDINALITY,
            2 <= number_of_players <= MAX_PLAYERS,
            perspective_player_number.0 < number_of_players,
            starting_player_number.0 < number_of_players,
            forall|k: int| 0 <= k < r ==> #[trigger] player_hand.count(k) <= deck@[k],
            player_hand.wf(),
            first_excess_rank(player_hand, deck@, r as int) is None,
            live_counts_fit(deck@, number_of_players, player_hand, hand_sizes@, perspective_player_number, starting_player_number),
            player_hand_size == sum_counts(player_hand.0@.take(r as int)),
            player_hand_size <= r * MAX_TOTAL_PLAY,
            forall|k: int| 0 <= k < r ==> #[trigger] opponent_cards.count(k) == deck@[k] - player_hand.count(k),
            forall|k: int| r <= k < MAX_CARD_ORDINALITY ==> #[trigger] opponent_cards.count(k) == 0,
        decreases MAX_CARD_ORDINALITY - r,
    {
        let deck_count = deck[r];
        let player_count = player_hand.0[r].0;
        assert(player_hand.count(r as int) <= MAX_TOTAL_PLAY);
        if player_count > deck_count {
            proof {
                assert(first_excess_rank(player_hand, deck@, r + 1) == Some(r as int));
                lemma_first_excess_stays(player_hand, deck@, r + 1, MAX_CARD_ORDINALITY as int);
            }
            return Err(LiveSetupError::HandExceedsDeck { rank: r, player_count, deck_count });
        }
        proof {
            assert(player_hand.0@.take(r + 1).drop_last() =~= player_hand.0@.take(r as int));
        }
        player_hand_size = player_hand_size + player_count;
        assert(first_excess_rank(player_hand, deck@, r + 1) is None);
        assert(deck@[r as int] <= player_hand.count(r as int) + MAX_TOTAL_PLAY);
        let ghost before = opponent_cards;
        opponent_cards.set_count(CardRank(r), CardCount::new(deck_count - player_count));
        proof {
            assert forall|k: int| 0 <= k < MAX_CARD_ORDINALITY && k != r implies #[trigger] opponent_cards.count(k) == before.count(k) by {
                assert(opponent_cards.0@[k] == before.0@[k]);
            }
        }
        r = r + 1;
    }
    proof {
        assert(player_hand.0@.take(MAX_CARD_ORDINALITY as int) =~= player_hand.0@);
        assert forall|k: int| 0 <= k < MAX_CARD_ORDINALITY implies #[trigger] opponent_cards.count(k) <= MAX_TOTAL_PLAY by {
            if first_excess_rank(player_hand, deck@, k + 1) is Some {
                lemma_first_excess_stays(player_hand, deck@, k + 1, MAX_CARD_ORDINALITY as int);
            }
            assert(deck@[k] <= player_hand.count(k) + MAX_TOTAL_PLAY);
        }
    }

    let persp = perspective_player_number.0;
    if hand_sizes[persp] != player_hand_size {
        return Err(LiveSetupError::HandSizeMismatch { stated: hand_sizes[persp], counted: player_hand_size });
    }

    let total_hand_sizes = prefix_total(&hand_sizes, number_of_players);
    if total_hand_sizes != total_deck_cards {
        return Err(LiveSetupError::HandSizesDoNotMatchDeck { hand_sizes: total_hand_sizes, deck: total_deck_cards });
    }

    let mut opponent_hand_sizes: usize = 0;
    let mut p: usize = 0;
    while p < number_of_players
        invariant
            p <= number_of_players <= MAX_PLAYERS,
            persp < number_of_players,
            sum_usizes(hand_sizes@) <= usize::MAX,
            opponent_hand_sizes == sum_sizes_except(hand_sizes@, p as int, persp as int),
            opponent_hand_sizes <= sum_sizes_except(hand_sizes@, p as int, -1),
            sum_sizes_except(hand_sizes@, p as int, -1) == sum_usizes(hand_sizes@.take(p as int)),
        decreases number_of_players - p,
    {
        proof {
            lemma_sum_sizes_prefix(hand_sizes@, p as int + 1);
            crate::ui::app::lemma_prefix_le_total(hand_sizes@, p as int + 1);
        }
        if p != persp {
            opponent_hand_sizes = opponent_hand_sizes + hand_sizes[p];
        }
        p = p + 1;
    }

    let opponent_card_count = opponent_cards.total_cards();
    proof {
        lemma_sum_sizes_skip(hand_sizes@, number_of_players as int, persp as int);
        lemma_sum_sizes_prefix(hand_sizes@, number_of_players as int);
        assert forall|i: int| 0 <= i < MAX_CARD_ORDINALITY implies #[trigger] deck@[i] == opponent_cards.0@[i].0 + player_hand.0@[i].0 by {
            assert(opponent_cards.count(i) == deck@[i] - player_hand.count(i));
            assert(player_hand.count(i) <= deck@[i]);
        }
        lemma_sum_split(opponent_cards.0@, player_hand.0@, deck@);
    }
    if opponent_hand_sizes != opponent_card_count {
        return Err(LiveSetupError::OpponentCardsMismatch { opponent_hand_sizes, opponent_cards: opponent_card_count });
    }

    assert(forall|q: int| 0 <= q < number_of_players ==> #[trigger] hand_sizes@[q] <= MAX_TOTAL_PLAY);
    let mut core_hand_sizes = HandSizes::empty();
    let mut p: usize = 0;
    while p < number_of_players
        invariant
            p <= number_of_players <= MAX_PLAYERS,
            forall|q: int| 0 <= q < number_of_players ==> #[trigger] hand_sizes@[q] <= MAX_TOTAL_PLAY,
            forall|q: int| 0 <= q < MAX_PLAYERS ==> #[trigger] core_hand_sizes.size(q) == if q < p { hand_sizes@[q] } else { 0 },
        decreases number_of_players - p,
    {
        assert(hand_sizes@[p as int] <= MAX_TOTAL_PLAY);
        assert(core_hand_sizes.size(p as int) == 0);
        let ghost before = core_hand_sizes;
        core_hand_sizes.add_cards(PlayerID::new(p), CardCount::new(hand_sizes[p]));
        proof {
            assert forall|q: int| 0 <= q < MAX_PLAYERS implies #[trigger] core_hand_sizes.size(q) == if q < p + 1 { hand_sizes@[q] } else { 0 } by {
                if q != p {
                    assert(core_hand_sizes.size(q) == before.size(q));
                }
            }
        }
        p = p + 1;
    }

    let mut has_passed: [bool; MAX_PLAYERS] = filled_array(true);
    let mut p: usize = 0;
    while p < number_of_players
        invariant
            p <= number_of_players <= MAX_PLAYERS,
            forall|q: int| 0 <= q < MAX_PLAYERS ==> #[trigger] has_passed@[q] == (q >= p),
        decreases number_of_players - p,
    {
        has_passed[p] = false;
        p = p + 1;
    }
    let mut trick = Trick::new();
    trick.has_passed = PlayerIndexed::new(has_passed);

    Ok(IncompleteInformationGameState {
        current_player_number: starting_player_number,
        perspective_player_number,
        number_of_players,
        player_hand,
        opponent_cards,
        player_placements: PlayerPlacements::new(),
        hand_sizes: core_hand_sizes,
        trick,
    })
}

/// Whether the counts of a live setup fit the card counts that
/// `create_initial_live_incomplete_state` makes of them; see `live_counts_fit`.
pub fn live_counts_fit_check(
    deck: &[usize; MAX_CARD_ORDINALITY],
    number_of_players: usize,
    player_hand: &PlayerHand,
    hand_sizes: &[usize; MAX_PLAYERS],
    perspective_player_number: PlayerID,
    starting_player_number: PlayerID,
) -> (fits: bool)
    requires
        player_hand.wf(),
        sum_usizes(deck@) <= usize::MAX,
        sum_usizes(hand_sizes@) <= usize::MAX,
    ensures
        fits == live_counts_fit(deck@, number_of_players, *player_hand, hand_sizes@, perspective_player_number, starting_player_number),
{
    if number_of_players < 2 || number_of_players > MAX_PLAYERS || perspective_player_number.0 >= number_of_players
        || starting_player_number.0 >= number_of_players {
        return true;
    }
    let mut r: usize = 0;
    while r < MAX_CARD_ORDINALITY
        invariant
            r <= MAX_CARD_ORDINALITY,
            player_hand.wf(),
            first_excess_rank(*player_hand, deck@, r as int) is None,
            forall|k: int| 0 <= k < r ==> #[trigger] deck@[k] <= player_hand.count(k) + MAX_TOTAL_PLAY,
            live_seats_valid(number_of_players, perspective_player_number, starting_player_number),
        decreases MAX_CARD_ORDINALITY - r,
    {
        let player_count = player_hand.0[r].0;
        if player_count > deck[r] {
            proof {
                assert(first_excess_rank(*player_hand, deck@, r + 1) == Some(r as int));
                assert forall|k: int| 0 <= k < MAX_CARD_ORDINALITY && first_excess_rank(*player_hand, deck@, k + 1) is None
                    implies #[trigger] deck@[k] <= player_hand.count(k) + MAX_TOTAL_PLAY by {
                    if k >= r {
                        lemma_first_excess_stays(*player_hand, deck@, r + 1, k + 1);
                    }
                }
                lemma_first_excess_stays(*player_hand, deck@, r + 1, MAX_CARD_ORDINALITY as int);
            }
            return true;
        }
        assert(first_excess_rank(*player_hand, deck@, r + 1) is None);
        if deck[r] - player_count > MAX_TOTAL_PLAY {
            assert(!(deck@[r as int] <= player_hand.count(r as int) + MAX_TOTAL_PLAY));
            return false;
        }
        r = r + 1;
    }
    let player_total = player_hand.total_cards();
    if hand_sizes[perspective_player_number.0] != player_total
        || prefix_total(hand_sizes, number_of_players) != total_of(deck) {
        return true;
    }
    let mut p: usize = 0;
    while p < number_of_players
        invariant
            p <= number_of_players <= MAX_PLAYERS,
            forall|q: int| 0 <= q < p ==> #[trigger] hand_sizes@[q] <= MAX_TOTAL_PLAY,
            live_seats_valid(number_of_players, perspective_player_number, starting_player_number),
            first_excess_rank(*player_hand, deck@, MAX_CARD_ORDINALITY as int) is None,
            hand_sizes@[perspective_player_number.0 as int] == player_hand.total(),
            sum_usizes(hand_sizes@.take(number_of_players as int)) == sum_usizes(deck@),
        decreases number_of_players - p,
    {
        if hand_sizes[p] > MAX_TOTAL_PLAY {
            assert(!(hand_sizes@[p as int] <= MAX_TOTAL_PLAY));
            return false;
        }
        p = p + 1;
    }
    true
}

/// The sum of the entries of `values`.
fn total_of(values: &[usize; MAX_CARD_ORDINALITY]) -> (sum: usize)
    requires
        sum_usizes(values@) <= usize::MAX,
    ensures
        sum == sum_usizes(values@),
{
    let mut sum: usize = 0;
    let mut i: usize = 0;
    while i < MAX_CARD_ORDINALITY
        invariant
            i <= MAX_CARD_ORDINALITY,
            sum_usizes(values@) <= usize::MAX,
            sum == sum_usizes(values@.take(i as int)),
        decreases MAX_CARD_ORDINALITY - i,
    {
        proof {
            assert(values@.take(i + 1).drop_last() =~= values@.take(i as int));
            lemma_prefix_le_total(values@, i as int + 1);
        }
        sum = sum + values[i];
        i = i + 1;
    }
    proof {
        assert(values@.take(MAX_CARD_ORDINALITY as int) =~= values@);
    }
    sum
}

/// The sum of the first `n` hand sizes.
fn prefix_total(values: &[usize; MAX_PLAYERS], n: usize) -> (sum: usize)
    requires
        n <= MAX_PLAYERS,
        sum_usizes(values@) <= usize::MAX,
    ensures
        sum == sum_usizes(values@.take(n as int)),
{
    let mut sum: usize = 0;
    let mut i: usize = 0;
    while i < n
        invariant
            i <= n <= MAX_PLAYERS,
            sum_usizes(values@) <= usize::MAX,
            sum == sum_usizes(values@.take(i as int)),
        decreases n - i,
    {
        proof {
            assert(values@.take(i + 1).drop_last() =~= values@.take(i as int));
            lemma_prefix_le_total(values@, i as int + 1);
        }
        sum = sum + values[i];
        i = i + 1;
    }
    sum
}

/// A prefix sums to at most the whole.
proof fn lemma_prefix_le_total(s: Seq<usize>, k: int)
    requires
        0 <= k <= s.len(),
    ensures
        sum_usizes(s.take(k)) <= sum_usizes(s),
    decreases s.len() - k,
{
    if k < s.len() {
        lemma_prefix_le_total(s, k + 1);
        assert(s.take(k + 1).drop_last() =~= s.take(k));
    } else {
        assert(s.take(k) =~= s);
    }
}

/// Why an observed move cannot have been made.
#[derive(Debug, Clone, PartialEq, Eq, Structural)]
pub enum MoveCheckError {
    /// A pass on an empty trick.
    PassOnEmptyTrick,
    /// A play of no cards.
    ZeroCards,
    /// A play of more cards than the player holds.
    TooManyCards { player: usize, hand_size: usize, played: usize },
    /// A play that the known cards do not allow.
    NotPossible(Move),
}

/// What checking `player_move` against `state` gives: see `validate_incomplete_move_is_possible`.
pub open spec fn spec_move_check(state: IncompleteInformationGameState, player_move: Move) -> Result<(), MoveCheckError> {
    match player_move {
        Move::Pass => if state.trick.top_set.is_none() {
            Err(MoveCheckError::PassOnEmptyTrick)
        } else {
            Ok(())
        },
        Move::Play(play) => {
            let available = if state.current_player_number == state.perspective_player_number {
                state.player_hand
            } else {
                state.opponent_cards
            };
            let size = state.hand_sizes.size(state.current_player_number.0 as int);
            if play.total() == 0 {
                Err(MoveCheckError::ZeroCards)
            } else if play.total() > size {
                Err(MoveCheckError::TooManyCards { player: state.current_player_number.0, hand_size: size, played: play.total() as usize })
            } else if !spec_legal_move(available, state.trick.top_set, player_move) {
                Err(MoveCheckError::NotPossible(player_move))
            } else {
                Ok(())
            }
        },
    }
}

/// A play of at least one card and at most as many cards as the current player holds by the
/// stated hand sizes, legal from the cards that could be theirs, is accepted: in particular a
/// player may play all the cards they have left. And a play is refused as too many cards only
/// when it uses more cards than the current player holds, the error naming that player, their
/// hand size and the number played.
pub proof fn law_move_check_accepts_plays_that_fit(state: IncompleteInformationGameState, player_move: Move)
    ensures
        player_move matches Move::Play(play) ==> (
            (0 < play.total() <= state.hand_sizes.size(state.current_player_number.0 as int)
                && spec_legal_move(
                    if state.current_player_number == state.perspective_player_number { state.player_hand } else { state.opponent_cards },
                    state.trick.top_set,
                    player_move,
                )) ==> spec_move_check(state, player_move) is Ok),
        spec_move_check(state, player_move) matches Err(MoveCheckError::TooManyCards { player, hand_size, played }) ==> (
            player_move matches Move::Play(play)
                && play.total() > state.hand_sizes.size(state.current_player_number.0 as int)
                && hand_size == state.hand_sizes.size(state.current_player_number.0 as int)
                && played == play.total() as usize
                && player == state.current_player_number.0),
{
}

/// Checks that the current player of `state` could have made `player_move`: a pass needs a
/// top set; a play must use at least one card and no more than the player holds, and must be
/// legal from the cards that could be theirs (their own hand for the perspective player, the
/// pooled opponents' cards for anyone else).
pub fn validate_incomplete_move_is_possible(
    state: &IncompleteInformationGameState,
    player_move: Move,
) -> (result: Result<(), MoveCheckError>)
    requires
        state.current_player_number.wf(),
        state.player_hand.wf(),
        state.opponent_cards.wf(),
        forall|r: int| 1 <= r < MAX_CARD_ORDINALITY ==> state.player_hand.count(0) + #[trigger] state.player_hand.count(r) <= MAX_TOTAL_PLAY,
        forall|r: int| 1 <= r < MAX_CARD_ORDINALITY ==> state.opponent_cards.count(0) + #[trigger] state.opponent_cards.count(r) <= MAX_TOTAL_PLAY,
        state.trick.top_set matches Some(t) ==> t.wf(),
        player_move matches Move::Play(play) ==> play.total() <= MAX_TOTAL_PLAY,
    ensures
        result == spec_move_check(*state, player_move),
        player_move matches Move::Play(play) ==> (
            (0 < play.total() <= state.hand_sizes.size(state.current_player_number.0 as int)
                && spec_legal_move(
                    if state.current_player_number == state.perspective_player_number { state.player_hand } else { state.opponent_cards },
                    state.trick.top_set,
                    player_move,
                )) ==> result is Ok),
        result matches Err(MoveCheckError::TooManyCards { player, hand_size, played }) ==> (
            player_move matches Move::Play(play)
                && play.total() > state.hand_sizes.size(state.current_player_number.0 as int)
                && hand_size == state.hand_sizes.size(state.current_player_number.0 as int)
                && played == play.total() as usize
                && player == state.current_player_number.0),
{
    proof {
        law_move_check_accepts_plays_that_fit(*state, player_move);
    }
    match player_move {
        Move::Pass => {
            if state.trick.top_set.is_none() {
                return Err(MoveCheckError::PassOnEmptyTrick);
            }
            Ok(())
        },
        Move::Play(play) => {
            let total_count = play.total_count().0;
            if total_count == 0 {
                return Err(MoveCheckError::ZeroCards);
            }
            let current_hand_size = state.hand_sizes.get_size(state.current_player_number);
            if total_count > current_hand_size {
                return Err(MoveCheckError::TooManyCards {
                    player: state.current_player_number.0,
                    hand_size: current_hand_size,
                    played: total_count,
                });
            }
            let available_hand = if state.current_player_number == state.perspective_player_number {
                &state.player_hand
            } else {
                &state.opponent_cards
            };
            let available_moves = get_available_moves(available_hand, state.trick.top_set);

            let mut is_legal = false;
            let mut i: usize = 0;
            while i < available_moves.len()
                invariant
                    i <= available_moves@.len(),
                    is_legal == exists|j: int| 0 <= j < i && #[trigger] available_moves@[j] == player_move,
                decreases available_moves@.len() - i,
            {
                if moves_are_equal(available_moves[i], player_move) {
                    is_legal = true;
                }
                i = i + 1;
            }
            proof {
                if available_moves@.contains(player_move) {
                    let j = choose|j: int| 0 <= j < available_moves@.len() && available_moves@[j] == player_move;
                    assert(available_moves@[j] == player_move);
                }
            }
            if !is_legal {
                return Err(MoveCheckError::NotPossible(player_move));
            }
            Ok(())
        },
    }
}

/// Two moves are the same: both passes, or plays of the same rank with the same numbers of
/// wilds and non-wilds.
pub fn moves_are_equal(a: Move, b: Move) -> (equal: bool)
    ensures
        equal == (a == b),
{
    match (a, b) {
        (Move::Pass, Move::Pass) => true,
        (Move::Play(a), Move::Play(b)) => a.rank.0 == b.rank.0 && a.num_wilds.0 == b.num_wilds.0 && a.num_non_wilds.0 == b.num_non_wilds.0,
        _ => false,
    }
}

} // verus!
