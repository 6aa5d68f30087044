use vstd::prelude::*;

use crate::consts::{MAX_CARD_ORDINALITY, MAX_PLAYERS};
use crate::game::collections::sum_usizes;
use crate::ui::editing::{
    adjust_usize, clear_text, is_digit, parse_usize, pop_char, push_char, spec_adjust, spec_parse_usize,
};
use crate::ui::rank_count_editor::{typed_count, RankCountEditorState};
use crate::world::margins::filled_array;

verus! {

/// The part of the live setup page that has the focus.
#[derive(Debug, Clone, Copy, PartialEq, Eq, Structural)]
pub enum LiveSetupFocus {
    Hand,
    Players,
    Start,
}

/// The column of the players panel that has the focus.
#[derive(Debug, Clone, Copy, PartialEq, Eq, Structural)]
pub enum LivePlayerColumn {
    StartingPlayer,
    HandSize,
}

/// What the player enters before a live game: their own hand, the hand size of every seat,
/// and who starts.
#[derive(Debug, Clone)]
pub struct LiveSetupState {
    pub focus: LiveSetupFocus,

    pub hand_counts: [usize; MAX_CARD_ORDINALITY],
    pub hand_editor: RankCountEditorState,

    pub hand_sizes: [usize; MAX_PLAYERS],
    pub hand_size_player: usize,
    pub player_column: LivePlayerColumn,
    pub hand_size_editing: bool,
    pub hand_size_edit_buffer: String,

    pub starting_player: usize,
}

/// The sum of the entries of `values`.
fn total<const K: usize>(values: &[usize; K]) -> (sum: usize)
    requires
        sum_usizes(values@) <= usize::MAX,
    ensures
        sum == sum_usizes(values@),
{
    let mut sum: usize = 0;
    let mut i: usize = 0;
    while i < K
        invariant
            i <= K,
            sum_usizes(values@) <= usize::MAX,
            sum == sum_usizes(values@.take(i as int)),
        decreases K - i,
    {
        proof {
            assert(values@.take(i + 1).drop_last() =~= values@.take(i as int));
            crate::world::margins::lemma_sum_update(values@, i as int, 0);
            lemma_prefix_sum_le(values@, i as int + 1);
        }
        sum = sum + values[i];
        i = i + 1;
    }
    proof {
        assert(values@.take(K as int) =~= values@);
    }
    sum
}

/// A prefix sums to at most the whole.
proof fn lemma_prefix_sum_le(s: Seq<usize>, k: int)
    requires
        0 <= k <= s.len(),
    ensures
        sum_usizes(s.take(k)) <= sum_usizes(s),
    decreases s.len() - k,
{
    if k < s.len() {
        lemma_prefix_sum_le(s, k + 1);
        assert(s.take(k + 1).drop_last() =~= s.take(k));
    } else {
        assert(s.take(k) =~= s);
    }
}

/// The hand size the deal gives seat `p` of `n` seats when `total` cards are dealt evenly, the
/// first seats taking one more while the remainder lasts.
pub open spec fn even_share(total: nat, n: nat, p: nat) -> nat {
    (total / n + if p < total % n { 1nat } else { 0nat }) as nat
}

/// The hand sizes a live setup starts from are those a random deal of the same deck gives.
pub proof fn law_setup_hand_sizes_follow_the_deal(total: nat, n: nat, p: nat)
    requires
        n > 0,
        p < n,
    ensures
        even_share(total, n, p) == crate::game::state::dealt_to(total, n, p),
{
    crate::game::state::law_deal_is_even(total, n, p);
}

impl LiveSetupState {
    pub fn new() -> (state: Self)
        ensures
            state.focus == LiveSetupFocus::Hand,
            forall|r: int| 0 <= r < MAX_CARD_ORDINALITY ==> #[trigger] state.hand_counts@[r] == 0,
            state.hand_editor.selected_rank == 0,
            !state.hand_editor.editing,
            state.hand_editor.edit_buffer@ == Seq::<char>::empty(),
            forall|p: int| 0 <= p < MAX_PLAYERS ==> #[trigger] state.hand_sizes@[p] == 0,
            state.hand_size_player == 0,
            state.player_column == LivePlayerColumn::StartingPlayer,
            !state.hand_size_editing,
            state.hand_size_edit_buffer@ == Seq::<char>::empty(),
            state.starting_player == 0,
    {
        Self {
            focus: LiveSetupFocus::Hand,
            hand_counts: filled_array(0usize),
            hand_editor: RankCountEditorState::new(),
            hand_sizes: filled_array(0usize),
            hand_size_player: 0,
            player_column: LivePlayerColumn::StartingPlayer,
            hand_size_editing: false,
            hand_size_edit_buffer: String::new(),
            starting_player: 0,
        }
    }

    /// The perspective player's own hand size is not edited in the table: the hand-size column
    /// falls back to the starting-player column on their row.
    pub fn clamp_player_column(&mut self)
        ensures
            final(self).player_column == if old(self).hand_size_player == 0 && old(self).player_column == LivePlayerColumn::HandSize {
                LivePlayerColumn::StartingPlayer
            } else {
                old(self).player_column
            },
            final(self).hand_size_player == old(self).hand_size_player,
            final(self).hand_sizes == old(self).hand_sizes,
            final(self).starting_player == old(self).starting_player,
    {
        if self.hand_size_player == 0 && self.player_column == LivePlayerColumn::HandSize {
            self.player_column = LivePlayerColumn::StartingPlayer;
        }
    }

    /// A fresh setup for a game of `number_of_players` with the cards of `deck`: an empty hand,
    /// the cards shared out as evenly as the deal does, seat 0 starting.
    pub fn reset_from_settings(&mut self, deck: &[usize; MAX_CARD_ORDINALITY], number_of_players: usize)
        requires
            0 < number_of_players <= MAX_PLAYERS,
            sum_usizes(deck@) <= usize::MAX,
        ensures
            final(self).focus == LiveSetupFocus::Hand,
            forall|r: int| 0 <= r < MAX_CARD_ORDINALITY ==> #[trigger] final(self).hand_counts@[r] == 0,
            final(self).hand_editor.selected_rank == 0,
            !final(self).hand_editor.editing,
            final(self).hand_sizes@[0] == 0,
            forall|p: int| 0 < p < MAX_PLAYERS ==> #[trigger] final(self).hand_sizes@[p] == if p < number_of_players {
                even_share(sum_usizes(deck@), number_of_players as nat, p as nat)
            } else {
                0
            },
            final(self).hand_size_player == 0,
            final(self).player_column == LivePlayerColumn::StartingPlayer,
            !final(self).hand_size_editing,
            final(self).hand_size_edit_buffer@ == Seq::<char>::empty(),
            final(self).starting_player == 0,
    {
        self.focus = LiveSetupFocus::Hand;
        self.hand_counts = filled_array(0usize);
        self.hand_editor.reset();
        self.hand_sizes = filled_array(0usize);

        let total_cards = total(deck);
        let base = total_cards / number_of_players;
        let remainder = total_cards % number_of_players;
        proof {
            assert(base * number_of_players + remainder == total_cards) by (nonlinear_arith)
                requires
                    base == total_cards / number_of_players,
                    remainder == total_cards % number_of_players,
                    number_of_players > 0,
            {}
            assert(base * number_of_players >= base) by (nonlinear_arith)
                requires
                    number_of_players > 0,
            {}
            assert(remainder < number_of_players);
        }

        let mut player_index: usize = 0;
        while player_index < number_of_players
            invariant
                0 < number_of_players <= MAX_PLAYERS,
                player_index <= number_of_players,
                base <= total_cards,
                total_cards == sum_usizes(deck@),
                base == total_cards / number_of_players,
                remainder == total_cards % number_of_players,
                self.focus == LiveSetupFocus::Hand,
                forall|r: int| 0 <= r < MAX_CARD_ORDINALITY ==> #[trigger] self.hand_counts@[r] == 0,
                self.hand_editor.selected_rank == 0,
                !self.hand_editor.editing,
                forall|p: int| 0 <= p < MAX_PLAYERS ==> #[trigger] self.hand_sizes@[p] == if p < player_index {
                    even_share(sum_usizes(deck@), number_of_players as nat, p as nat)
                } else {
                    0
                },
            decreases number_of_players - player_index,
        {
            let extra: usize = if player_index < remainder { 1 } else { 0 };
            proof {
                if player_index < remainder {
                    assert(base < total_cards || remainder == 0) by (nonlinear_arith)
                        requires
                            base == total_cards / number_of_players,
                            remainder == total_cards % number_of_players,
                            number_of_players > 0,
                            remainder > 0,
                    {}
                }
            }
            self.hand_sizes[player_index] = base + extra;
            player_index = player_index + 1;
        }

        self.hand_size_player = 0;
        self.player_column = LivePlayerColumn::StartingPlayer;
        self.hand_size_editing = false;
        clear_text(&mut self.hand_size_edit_buffer);

        self.starting_player = 0;
        proof {
            crate::world::margins::lemma_sum_zero(self.hand_counts@);
        }
        self.sync_perspective_hand_size();
    }

    /// The perspective player's hand size is the number of cards in their hand.
    pub fn sync_perspective_hand_size(&mut self)
        requires
            sum_usizes(old(self).hand_counts@) <= usize::MAX,
        ensures
            final(self).hand_sizes@ == old(self).hand_sizes@.update(0, sum_usizes(old(self).hand_counts@) as usize),
            final(self).hand_counts == old(self).hand_counts,
            final(self).hand_editor == old(self).hand_editor,
            final(self).focus == old(self).focus,
            final(self).hand_size_player == old(self).hand_size_player,
            final(self).player_column == old(self).player_column,
            final(self).hand_size_editing == old(self).hand_size_editing,
            final(self).hand_size_edit_buffer == old(self).hand_size_edit_buffer,
            final(self).starting_player == old(self).starting_player,
    {
        self.hand_sizes[0] = total(&self.hand_counts);
    }

    pub fn move_hand_rank(&mut self, delta: isize)
        requires
            old(self).hand_editor.selected_rank < usize::MAX,
        ensures
            final(self).hand_editor.selected_rank == if delta > 0 {
                if old(self).hand_editor.selected_rank + 1 < MAX_CARD_ORDINALITY - 1 {
                    old(self).hand_editor.selected_rank + 1
                } else {
                    (MAX_CARD_ORDINALITY - 1) as int
                }
            } else if delta < 0 {
                if old(self).hand_editor.selected_rank > 0 { old(self).hand_editor.selected_rank - 1 } else { 0 }
            } else {
                old(self).hand_editor.selected_rank as int
            },
            final(self).hand_editor.editing == old(self).hand_editor.editing,
            final(self).hand_counts == old(self).hand_counts,
    {
        self.hand_editor.move_rank(delta);
    }

    pub fn start_hand_editing(&mut self)
        ensures
            final(self).hand_editor.editing,
            final(self).hand_editor.edit_buffer@ == Seq::<char>::empty(),
            final(self).hand_editor.selected_rank == old(self).hand_editor.selected_rank,
            final(self).hand_counts == old(self).hand_counts,
    {
        self.hand_editor.start_editing();
    }

    pub fn finish_hand_editing(&mut self)
        ensures
            !final(self).hand_editor.editing,
            final(self).hand_editor.edit_buffer@ == Seq::<char>::empty(),
            final(self).hand_editor.selected_rank == old(self).hand_editor.selected_rank,
            final(self).hand_counts == old(self).hand_counts,
    {
        self.hand_editor.finish_editing();
    }

    /// Moves the count of the selected rank of the hand by `delta`, between zero and the number
    /// of such cards in `deck`, and updates the perspective player's hand size.
    pub fn adjust_hand_count(&mut self, deck: &[usize; MAX_CARD_ORDINALITY], delta: isize)
        requires
            old(self).hand_editor.selected_rank < MAX_CARD_ORDINALITY,
            delta != isize::MIN,
            forall|r: int| 0 <= r < MAX_CARD_ORDINALITY ==> #[trigger] old(self).hand_counts@[r] <= deck@[r],
            sum_usizes(deck@) <= usize::MAX,
        ensures
            final(self).hand_counts@ == old(self).hand_counts@.update(
                old(self).hand_editor.selected_rank as int,
                spec_adjust(
                    old(self).hand_counts@[old(self).hand_editor.selected_rank as int] as int,
                    delta as int,
                    1,
                    0,
                    deck@[old(self).hand_editor.selected_rank as int] as int,
                ) as usize,
            ),
            final(self).hand_sizes@ == old(self).hand_sizes@.update(0, sum_usizes(final(self).hand_counts@) as usize),
            forall|r: int| 0 <= r < MAX_CARD_ORDINALITY ==> #[trigger] final(self).hand_counts@[r] <= deck@[r],
    {
        self.hand_editor.adjust_count(&mut self.hand_counts, deck, delta);
        proof {
            lemma_counts_within_deck(self.hand_counts@, deck@);
        }
        self.sync_perspective_hand_size();
    }

    /// Types a digit into the count of the selected rank of the hand, capped at the number of
    /// such cards in `deck`, and updates the perspective player's hand size.
    pub fn input_hand_digit(&mut self, deck: &[usize; MAX_CARD_ORDINALITY], c: char)
        requires
            old(self).hand_editor.selected_rank < MAX_CARD_ORDINALITY,
            forall|r: int| 0 <= r < MAX_CARD_ORDINALITY ==> #[trigger] old(self).hand_counts@[r] <= deck@[r],
            sum_usizes(deck@) <= usize::MAX,
        ensures
            !is_digit(c) ==> final(self).hand_counts@ == old(self).hand_counts@,
            is_digit(c) ==> final(self).hand_editor.edit_buffer@ == old(self).hand_editor.edit_buffer@.push(c),
            is_digit(c) ==> final(self).hand_counts@ == match typed_count(final(self).hand_editor.edit_buffer@, deck@[old(self).hand_editor.selected_rank as int]) {
                Some(count) => old(self).hand_counts@.update(old(self).hand_editor.selected_rank as int, count),
                None => old(self).hand_counts@,
            },
            final(self).hand_sizes@ == old(self).hand_sizes@.update(0, sum_usizes(final(self).hand_counts@) as usize),
            forall|r: int| 0 <= r < MAX_CARD_ORDINALITY ==> #[trigger] final(self).hand_counts@[r] <= deck@[r],
    {
        self.hand_editor.input_digit(&mut self.hand_counts, deck, c);
        proof {
            lemma_counts_within_deck(self.hand_counts@, deck@);
        }
        self.sync_perspective_hand_size();
    }

    /// Takes the last typed character off the count of the selected rank of the hand, and
    /// updates the perspective player's hand size.
    pub fn backspace_hand_digit(&mut self, deck: &[usize; MAX_CARD_ORDINALITY])
        requires
            old(self).hand_editor.selected_rank < MAX_CARD_ORDINALITY,
            forall|r: int| 0 <= r < MAX_CARD_ORDINALITY ==> #[trigger] old(self).hand_counts@[r] <= deck@[r],
            sum_usizes(deck@) <= usize::MAX,
        ensures
            final(self).hand_counts@ == if final(self).hand_editor.edit_buffer@.len() == 0 {
                old(self).hand_counts@.update(old(self).hand_editor.selected_rank as int, 0)
            } else {
                match typed_count(final(self).hand_editor.edit_buffer@, deck@[old(self).hand_editor.selected_rank as int]) {
                    Some(count) => old(self).hand_counts@.update(old(self).hand_editor.selected_rank as int, count),
                    None => old(self).hand_counts@,
                }
            },
            final(self).hand_sizes@ == old(self).hand_sizes@.update(0, sum_usizes(final(self).hand_counts@) as usize),
            forall|r: int| 0 <= r < MAX_CARD_ORDINALITY ==> #[trigger] final(self).hand_counts@[r] <= deck@[r],
    {
        self.hand_editor.backspace_digit(&mut self.hand_counts, deck);
        proof {
            lemma_counts_within_deck(self.hand_counts@, deck@);
        }
        self.sync_perspective_hand_size();
    }

    /// One seat down for a positive `delta` (stopping at the last player), one up for a negative
    /// one (stopping at seat 0); the column is then clamped.
    pub fn move_hand_size_player(&mut self, number_of_players: usize, delta: isize)
        requires
            0 < number_of_players,
            old(self).hand_size_player < usize::MAX,
        ensures
            final(self).hand_size_player == if delta > 0 {
                if old(self).hand_size_player + 1 < number_of_players - 1 { old(self).hand_size_player + 1 } else { number_of_players - 1 }
            } else if delta < 0 {
                if old(self).hand_size_player > 0 { old(self).hand_size_player - 1 } else { 0 }
            } else {
                old(self).hand_size_player as int
            },
            final(self).player_column == if final(self).hand_size_player == 0 && old(self).player_column == LivePlayerColumn::HandSize {
                LivePlayerColumn::StartingPlayer
            } else {
                old(self).player_column
            },
            final(self).hand_sizes == old(self).hand_sizes,
    {
        if delta > 0 {
            let next = self.hand_size_player + 1;
            self.hand_size_player = if next < number_of_players - 1 { next } else { number_of_players - 1 };
        } else if delta < 0 {
            self.hand_size_player = self.hand_size_player.saturating_sub(1);
        }
        self.clamp_player_column();
    }

    /// The hand size of the selected seat can be edited: the hand-size column has the focus and
    /// the seat is not the perspective player's.
    pub fn current_hand_size_is_editable(&self) -> (editable: bool)
        ensures
            editable == (self.player_column == LivePlayerColumn::HandSize && self.hand_size_player != 0),
    {
        self.player_column == LivePlayerColumn::HandSize && self.hand_size_player != 0
    }

    pub fn start_hand_size_editing(&mut self)
        ensures
            old(self).player_column == LivePlayerColumn::HandSize && old(self).hand_size_player != 0 ==> {
                &&& final(self).hand_size_editing
                &&& final(self).hand_size_edit_buffer@ == Seq::<char>::empty()
            },
            !(old(self).player_column == LivePlayerColumn::HandSize && old(self).hand_size_player != 0) ==> {
                &&& final(self).hand_size_editing == old(self).hand_size_editing
                &&& final(self).hand_size_edit_buffer == old(self).hand_size_edit_buffer
            },
            final(self).hand_sizes == old(self).hand_sizes,
            final(self).hand_size_player == old(self).hand_size_player,
            final(self).player_column == old(self).player_column,
    {
        if self.current_hand_size_is_editable() {
            self.hand_size_editing = true;
            clear_text(&mut self.hand_size_edit_buffer);
        }
    }

    pub fn finish_hand_size_editing(&mut self)
        ensures
            !final(self).hand_size_editing,
            final(self).hand_size_edit_buffer@ == Seq::<char>::empty(),
            final(self).hand_sizes == old(self).hand_sizes,
            final(self).hand_size_player == old(self).hand_size_player,
    {
        self.hand_size_editing = false;
        clear_text(&mut self.hand_size_edit_buffer);
    }

    /// Moves the hand size of the selected seat by `delta`, between zero and the number of cards
    /// in `deck`, where it can be edited.
    pub fn adjust_hand_size(&mut self, deck: &[usize; MAX_CARD_ORDINALITY], delta: isize)
        requires
            old(self).hand_size_player < MAX_PLAYERS,
            delta != isize::MIN,
            sum_usizes(deck@) <= usize::MAX,
        ensures
            old(self).player_column == LivePlayerColumn::HandSize && old(self).hand_size_player != 0 ==>
                final(self).hand_sizes@ == old(self).hand_sizes@.update(
                    old(self).hand_size_player as int,
                    spec_adjust(old(self).hand_sizes@[old(self).hand_size_player as int] as int, delta as int, 1, 0, sum_usizes(deck@) as int) as usize,
                ),
            !(old(self).player_column == LivePlayerColumn::HandSize && old(self).hand_size_player != 0) ==>
                final(self).hand_sizes == old(self).hand_sizes,
            final(self).hand_size_player == old(self).hand_size_player,
            final(self).player_column == old(self).player_column,
    {
        if !self.current_hand_size_is_editable() {
            return;
        }
        let player = self.hand_size_player;
        let max = total(deck);
        self.hand_sizes[player] = adjust_usize(self.hand_sizes[player], delta, 1, 0, max);
    }

    /// Types a digit into the hand size of the selected seat, capped at the number of cards in
    /// `deck`, where it can be edited; anything but a digit is ignored.
    pub fn input_hand_size_digit(&mut self, deck: &[usize; MAX_CARD_ORDINALITY], c: char)
        requires
            old(self).hand_size_player < MAX_PLAYERS,
            sum_usizes(deck@) <= usize::MAX,
        ensures
            !(old(self).player_column == LivePlayerColumn::HandSize && old(self).hand_size_player != 0) || !is_digit(c) ==> {
                &&& final(self).hand_sizes == old(self).hand_sizes
                &&& final(self).hand_size_edit_buffer == old(self).hand_size_edit_buffer
            },
            (old(self).player_column == LivePlayerColumn::HandSize && old(self).hand_size_player != 0) && is_digit(c) ==> {
                &&& final(self).hand_size_edit_buffer@ == old(self).hand_size_edit_buffer@.push(c)
                &&& final(self).hand_sizes@ == match typed_count(final(self).hand_size_edit_buffer@, sum_usizes(deck@) as usize) {
                    Some(size) => old(self).hand_sizes@.update(old(self).hand_size_player as int, size),
                    None => old(self).hand_sizes@,
                }
            },
            final(self).hand_size_player == old(self).hand_size_player,
            final(self).player_column == old(self).player_column,
    {
        let code = c as u32;
        if !self.current_hand_size_is_editable() || code < '0' as u32 || code > '9' as u32 {
            return;
        }
        push_char(&mut self.hand_size_edit_buffer, c);
        if let Some(value) = parse_usize(self.hand_size_edit_buffer.as_str()) {
            let max = total(deck);
            let player = self.hand_size_player;
            self.hand_sizes[player] = if value < max { value } else { max };
        }
    }

    /// Takes the last typed character off the hand size of the selected seat, where it can be
    /// edited: the size becomes zero when no text is left, and the typed number otherwise.
    pub fn backspace_hand_size_digit(&mut self)
        requires
            old(self).hand_size_player < MAX_PLAYERS,
        ensures
            !(old(self).player_column == LivePlayerColumn::HandSize && old(self).hand_size_player != 0) ==> {
                &&& final(self).hand_sizes == old(self).hand_sizes
                &&& final(self).hand_size_edit_buffer == old(self).hand_size_edit_buffer
            },
            (old(self).player_column == LivePlayerColumn::HandSize && old(self).hand_size_player != 0) ==> {
                &&& final(self).hand_size_edit_buffer@ == if old(self).hand_size_edit_buffer@.len() > 0 {
                    old(self).hand_size_edit_buffer@.drop_last()
                } else {
                    old(self).hand_size_edit_buffer@
                }
                &&& final(self).hand_sizes@ == if final(self).hand_size_edit_buffer@.len() == 0 {
                    old(self).hand_sizes@.update(old(self).hand_size_player as int, 0)
                } else {
                    match spec_parse_usize(final(self).hand_size_edit_buffer@) {
                        Some(size) => old(self).hand_sizes@.update(old(self).hand_size_player as int, size),
                        None => old(self).hand_sizes@,
                    }
                }
            },
            final(self).hand_size_player == old(self).hand_size_player,
            final(self).player_column == old(self).player_column,
    {
        if !self.current_hand_size_is_editable() {
            return;
        }
        pop_char(&mut self.hand_size_edit_buffer);
        let player = self.hand_size_player;
        if self.hand_size_edit_buffer.as_str().is_empty() {
            self.hand_sizes[player] = 0;
        } else if let Some(value) = parse_usize(self.hand_size_edit_buffer.as_str()) {
            self.hand_sizes[player] = value;
        }
    }

    /// Switches between the two columns of the players panel for a non-zero `delta`; the
    /// perspective player's row has only the starting-player column.
    pub fn move_player_column(&mut self, delta: isize)
        ensures
            final(self).player_column == if delta == 0 {
                old(self).player_column
            } else if old(self).player_column == LivePlayerColumn::StartingPlayer {
                if old(self).hand_size_player == 0 { LivePlayerColumn::StartingPlayer } else { LivePlayerColumn::HandSize }
            } else {
                LivePlayerColumn::StartingPlayer
            },
            final(self).hand_size_player == old(self).hand_size_player,
            final(self).hand_sizes == old(self).hand_sizes,
    {
        if delta == 0 {
            return;
        }
        self.player_column = match self.player_column {
            LivePlayerColumn::StartingPlayer => {
                if self.hand_size_player == 0 {
                    LivePlayerColumn::StartingPlayer
                } else {
                    LivePlayerColumn::HandSize
                }
            },
            LivePlayerColumn::HandSize => LivePlayerColumn::StartingPlayer,
        };
    }

    pub fn select_current_player_as_starting_player(&mut self)
        ensures
            final(self).starting_player == old(self).hand_size_player,
            final(self).hand_size_player == old(self).hand_size_player,
            final(self).hand_sizes == old(self).hand_sizes,
    {
        self.starting_player = self.hand_size_player;
    }
}

/// Counts that each stay within the deck sum to at most the deck.
proof fn lemma_counts_within_deck(counts: Seq<usize>, deck: Seq<usize>)
    requires
        counts.len() == deck.len(),
        forall|r: int| 0 <= r < counts.len() ==> #[trigger] counts[r] <= deck[r],
    ensures
        sum_usizes(counts) <= sum_usizes(deck),
    decreases counts.len(),
{
    if counts.len() > 0 {
        lemma_counts_within_deck(counts.drop_last(), deck.drop_last());
    }
}

/// Whether a move observed in a live game is a play or a pass.
#[derive(Debug, Clone, Copy, PartialEq, Eq, Structural)]
pub enum ObservedAction {
    Play,
    Pass,
}

/// The field of the observed-move panel that has the focus.
#[derive(Debug, Clone, Copy, PartialEq, Eq, Structural)]
pub enum ObservedMoveFocus {
    Action,
    Rank,
    NonWilds,
    Wilds,
    Submit,
}

/// The move of another player, as it is being entered in a live game.
#[derive(Debug, Clone)]
pub struct ObservedMoveInputState {
    pub focus: ObservedMoveFocus,
    pub action: ObservedAction,
    pub rank: usize,
    pub non_wilds: usize,
    pub wilds: usize,

    pub editing_count: bool,
    pub edit_buffer: String,
}

/// The largest count of non-wilds or wilds that can be entered.
pub const MAX_OBSERVED_COUNT: usize = 99;

/// `value` between `low` and `high`.
pub open spec fn clamped(value: int, low: int, high: int) -> int {
    if value < low { low } else if value > high { high } else { value }
}

impl ObservedMoveInputState {
    pub fn new() -> (state: Self)
        ensures
            state.focus == ObservedMoveFocus::Action,
            state.action == ObservedAction::Play,
            state.rank == 1,
            state.non_wilds == 1,
            state.wilds == 0,
            !state.editing_count,
            state.edit_buffer@ == Seq::<char>::empty(),
    {
        Self {
            focus: ObservedMoveFocus::Action,
            action: ObservedAction::Play,
            rank: 1,
            non_wilds: 1,
            wilds: 0,
            editing_count: false,
            edit_buffer: String::new(),
        }
    }

    /// Back to the state of `new`, for the next move.
    pub fn reset_for_next_move(&mut self)
        ensures
            final(self).focus == ObservedMoveFocus::Action,
            final(self).action == ObservedAction::Play,
            final(self).rank == 1,
            final(self).non_wilds == 1,
            final(self).wilds == 0,
            !final(self).editing_count,
            final(self).edit_buffer@ == Seq::<char>::empty(),
    {
        self.focus = ObservedMoveFocus::Action;
        self.action = ObservedAction::Play;
        self.rank = 1;
        self.non_wilds = 1;
        self.wilds = 0;
        self.editing_count = false;
        clear_text(&mut self.edit_buffer);
    }

    /// The field above: from the action to submit, from a count to the action, from submit to
    /// the wilds of a play or to the action of a pass.
    pub fn move_focus_up(&mut self)
        ensures
            final(self).focus == match old(self).focus {
                ObservedMoveFocus::Action => ObservedMoveFocus::Submit,
                ObservedMoveFocus::Rank | ObservedMoveFocus::NonWilds | ObservedMoveFocus::Wilds => ObservedMoveFocus::Action,
                ObservedMoveFocus::Submit => if old(self).action == ObservedAction::Play {
                    ObservedMoveFocus::Wilds
                } else {
                    ObservedMoveFocus::Action
                },
            },
            final(self).action == old(self).action,
            final(self).rank == old(self).rank,
            final(self).non_wilds == old(self).non_wilds,
            final(self).wilds == old(self).wilds,
    {
        self.focus = match self.focus {
            ObservedMoveFocus::Action => ObservedMoveFocus::Submit,
            ObservedMoveFocus::Rank | ObservedMoveFocus::NonWilds | ObservedMoveFocus::Wilds => ObservedMoveFocus::Action,
            ObservedMoveFocus::Submit => {
                if self.action == ObservedAction::Play {
                    ObservedMoveFocus::Wilds
                } else {
                    ObservedMoveFocus::Action
                }
            },
        };
    }

    /// The field below: from the action to the rank of a play or to submit for a pass, from a
    /// count to submit, from submit back to the action.
    pub fn move_focus_down(&mut self)
        ensures
            final(self).focus == match old(self).focus {
                ObservedMoveFocus::Action => if old(self).action == ObservedAction::Play {
                    ObservedMoveFocus::Rank
                } else {
                    ObservedMoveFocus::Submit
                },
                ObservedMoveFocus::Rank | ObservedMoveFocus::NonWilds | ObservedMoveFocus::Wilds => ObservedMoveFocus::Submit,
                ObservedMoveFocus::Submit => ObservedMoveFocus::Action,
            },
            final(self).action == old(self).action,
            final(self).rank == old(self).rank,
            final(self).non_wilds == old(self).non_wilds,
            final(self).wilds == old(self).wilds,
    {
        self.focus = match self.focus {
            ObservedMoveFocus::Action => {
                if self.action == ObservedAction::Play {
                    ObservedMoveFocus::Rank
                } else {
                    ObservedMoveFocus::Submit
                }
            },
            ObservedMoveFocus::Rank | ObservedMoveFocus::NonWilds | ObservedMoveFocus::Wilds => ObservedMoveFocus::Submit,
            ObservedMoveFocus::Submit => ObservedMoveFocus::Action,
        };
    }

    /// Left or right: on the action, a non-zero `delta` toggles play and pass; among the three
    /// counts the focus moves round (rank, non-wilds, wilds); submit does not move.
    pub fn move_left_right(&mut self, delta: isize)
        ensures
            final(self).action == if old(self).focus == ObservedMoveFocus::Action && delta != 0 {
                if old(self).action == ObservedAction::Play { ObservedAction::Pass } else { ObservedAction::Play }
            } else {
                old(self).action
            },
            final(self).focus == match old(self).focus {
                ObservedMoveFocus::Rank => if delta < 0 { ObservedMoveFocus::Wilds } else { ObservedMoveFocus::NonWilds },
                ObservedMoveFocus::NonWilds => if delta < 0 { ObservedMoveFocus::Rank } else { ObservedMoveFocus::Wilds },
                ObservedMoveFocus::Wilds => if delta < 0 { ObservedMoveFocus::NonWilds } else { ObservedMoveFocus::Rank },
                other => other,
            },
            final(self).rank == old(self).rank,
            final(self).non_wilds == old(self).non_wilds,
            final(self).wilds == old(self).wilds,
    {
        match self.focus {
            ObservedMoveFocus::Action => {
                if delta != 0 {
                    self.action = match self.action {
                        ObservedAction::Play => ObservedAction::Pass,
                        ObservedAction::Pass => ObservedAction::Play,
                    };
                }
            },
            ObservedMoveFocus::Rank => {
                self.focus = if delta < 0 { ObservedMoveFocus::Wilds } else { ObservedMoveFocus::NonWilds };
            },
            ObservedMoveFocus::NonWilds => {
                self.focus = if delta < 0 { ObservedMoveFocus::Rank } else { ObservedMoveFocus::Wilds };
            },
            ObservedMoveFocus::Wilds => {
                self.focus = if delta < 0 { ObservedMoveFocus::NonWilds } else { ObservedMoveFocus::Rank };
            },
            ObservedMoveFocus::Submit => {},
        }
    }

    /// Starts typing into the focused count; nothing happens elsewhere.
    pub fn start_count_editing(&mut self)
        ensures
            (old(self).focus == ObservedMoveFocus::Rank || old(self).focus == ObservedMoveFocus::NonWilds || old(self).focus == ObservedMoveFocus::Wilds) ==> {
                &&& final(self).editing_count
                &&& final(self).edit_buffer@ == Seq::<char>::empty()
            },
            !(old(self).focus == ObservedMoveFocus::Rank || old(self).focus == ObservedMoveFocus::NonWilds || old(self).focus == ObservedMoveFocus::Wilds) ==> {
                &&& final(self).editing_count == old(self).editing_count
                &&& final(self).edit_buffer == old(self).edit_buffer
            },
            final(self).focus == old(self).focus,
            final(self).rank == old(self).rank,
            final(self).non_wilds == old(self).non_wilds,
            final(self).wilds == old(self).wilds,
    {
        match self.focus {
            ObservedMoveFocus::Rank | ObservedMoveFocus::NonWilds | ObservedMoveFocus::Wilds => {
                self.editing_count = true;
                clear_text(&mut self.edit_buffer);
            },
            _ => {},
        }
    }

    pub fn finish_count_editing(&mut self)
        ensures
            !final(self).editing_count,
            final(self).edit_buffer@ == Seq::<char>::empty(),
            final(self).focus == old(self).focus,
            final(self).rank == old(self).rank,
            final(self).non_wilds == old(self).non_wilds,
            final(self).wilds == old(self).wilds,
    {
        self.editing_count = false;
        clear_text(&mut self.edit_buffer);
    }

    /// Moves the focused count by `delta`: the rank between 1 and the last rank, the numbers of
    /// non-wilds and wilds between 0 and `MAX_OBSERVED_COUNT`.
    pub fn adjust_current_count(&mut self, delta: isize)
        requires
            delta != isize::MIN,
        ensures
            final(self).rank == if old(self).focus == ObservedMoveFocus::Rank {
                spec_adjust(old(self).rank as int, delta as int, 1, 1, MAX_CARD_ORDINALITY - 1) as usize
            } else {
                old(self).rank
            },
            final(self).non_wilds == if old(self).focus == ObservedMoveFocus::NonWilds {
                spec_adjust(old(self).non_wilds as int, delta as int, 1, 0, MAX_OBSERVED_COUNT as int) as usize
            } else {
                old(self).non_wilds
            },
            final(self).wilds == if old(self).focus == ObservedMoveFocus::Wilds {
                spec_adjust(old(self).wilds as int, delta as int, 1, 0, MAX_OBSERVED_COUNT as int) as usize
            } else {
                old(self).wilds
            },
            final(self).focus == old(self).focus,
            final(self).action == old(self).action,
    {
        match self.focus {
            ObservedMoveFocus::Rank => {
                self.rank = adjust_usize(self.rank, delta, 1, 1, MAX_CARD_ORDINALITY - 1);
            },
            ObservedMoveFocus::NonWilds => {
                self.non_wilds = adjust_usize(self.non_wilds, delta, 1, 0, MAX_OBSERVED_COUNT);
            },
            ObservedMoveFocus::Wilds => {
                self.wilds = adjust_usize(self.wilds, delta, 1, 0, MAX_OBSERVED_COUNT);
            },
            _ => {},
        }
    }

    /// Types the digit `c` (anything else is ignored); when the text is a number, the focused
    /// count becomes it: the rank clamped between 1 and the last rank, the others capped at
    /// `MAX_OBSERVED_COUNT`.
    pub fn input_count_digit(&mut self, c: char)
        ensures
            !is_digit(c) ==> {
                &&& final(self).edit_buffer == old(self).edit_buffer
                &&& final(self).rank == old(self).rank
                &&& final(self).non_wilds == old(self).non_wilds
                &&& final(self).wilds == old(self).wilds
            },
            is_digit(c) ==> final(self).edit_buffer@ == old(self).edit_buffer@.push(c),
            is_digit(c) ==> match spec_parse_usize(final(self).edit_buffer@) {
                Some(value) => {
                    &&& final(self).rank == if old(self).focus == ObservedMoveFocus::Rank {
                        clamped(value as int, 1, MAX_CARD_ORDINALITY - 1) as usize
                    } else {
                        old(self).rank
                    }
                    &&& final(self).non_wilds == if old(self).focus == ObservedMoveFocus::NonWilds {
                        clamped(value as int, 0, MAX_OBSERVED_COUNT as int) as usize
                    } else {
                        old(self).non_wilds
                    }
                    &&& final(self).wilds == if old(self).focus == ObservedMoveFocus::Wilds {
                        clamped(value as int, 0, MAX_OBSERVED_COUNT as int) as usize
                    } else {
                        old(self).wilds
                    }
                },
                None => {
                    &&& final(self).rank == old(self).rank
                    &&& final(self).non_wilds == old(self).non_wilds
                    &&& final(self).wilds == old(self).wilds
                },
            },
            final(self).focus == old(self).focus,
            final(self).action == old(self).action,
    {
        let code = c as u32;
        if code < '0' as u32 || code > '9' as u32 {
            return;
        }
        push_char(&mut self.edit_buffer, c);
        if let Some(value) = parse_usize(self.edit_buffer.as_str()) {
            match self.focus {
                ObservedMoveFocus::Rank => {
                    self.rank = if value < 1 { 1 } else if value > MAX_CARD_ORDINALITY - 1 { MAX_CARD_ORDINALITY - 1 } else { value };
                },
                ObservedMoveFocus::NonWilds => {
                    self.non_wilds = if value > MAX_OBSERVED_COUNT { MAX_OBSERVED_COUNT } else { value };
                },
                ObservedMoveFocus::Wilds => {
                    self.wilds = if value > MAX_OBSERVED_COUNT { MAX_OBSERVED_COUNT } else { value };
                },
                _ => {},
            }
        }
    }

    /// Takes the last typed character off; the focused count becomes the typed number (zero for
    /// no text or text that is not a number), capped at `MAX_OBSERVED_COUNT`, and for the rank
    /// also clamped between 1 and the last rank.
    pub fn backspace_count_digit(&mut self)
        ensures
            final(self).edit_buffer@ == if old(self).edit_buffer@.len() > 0 {
                old(self).edit_buffer@.drop_last()
            } else {
                old(self).edit_buffer@
            },
            ({
                let typed = if final(self).edit_buffer@.len() == 0 {
                    0
                } else {
                    match spec_parse_usize(final(self).edit_buffer@) {
                        Some(value) => clamped(value as int, 0, MAX_OBSERVED_COUNT as int),
                        None => 0,
                    }
                };
                &&& final(self).rank == if old(self).focus == ObservedMoveFocus::Rank {
                    clamped(typed, 1, MAX_CARD_ORDINALITY - 1) as usize
                } else {
                    old(self).rank
                }
                &&& final(self).non_wilds == if old(self).focus == ObservedMoveFocus::NonWilds { typed as usize } else { old(self).non_wilds }
                &&& final(self).wilds == if old(self).focus == ObservedMoveFocus::Wilds { typed as usize } else { old(self).wilds }
            }),
            final(self).focus == old(self).focus,
            final(self).action == old(self).action,
    {
        pop_char(&mut self.edit_buffer);
        let value: usize = if self.edit_buffer.as_str().is_empty() {
            0
        } else {
            match parse_usize(self.edit_buffer.as_str()) {
                Some(parsed) => if parsed > MAX_OBSERVED_COUNT { MAX_OBSERVED_COUNT } else { parsed },
                None => 0,
            }
        };
        match self.focus {
            ObservedMoveFocus::Rank => {
                self.rank = if value < 1 { 1 } else if value > MAX_CARD_ORDINALITY - 1 { MAX_CARD_ORDINALITY - 1 } else { value };
            },
            ObservedMoveFocus::NonWilds => {
                self.non_wilds = value;
            },
            ObservedMoveFocus::Wilds => {
                self.wilds = value;
            },
            _ => {},
        }
    }
}

/// The panel in which the move of `player_name` is entered, as it is drawn.
pub struct ObservedMovePanel<'a> {
    pub state: &'a ObservedMoveInputState,
    pub player_name: &'a str,
}

impl<'a> ObservedMovePanel<'a> {
    pub fn new(state: &'a ObservedMoveInputState, player_name: &'a str) -> (panel: Self)
        ensures
            panel.state == state,
            panel.player_name == player_name,
    {
        Self { state, player_name }
    }
}


/// The first row shown of a list of `total_rows` rows, `visible_rows` at a time, so that the
/// row `selected_index` is in view: none is skipped while the list fits; otherwise the list
/// scrolls just far enough to show the selected row last, and never past its end.
pub fn scroll_offset_for_selected(selected_index: usize, visible_rows: usize, total_rows: usize) -> (offset: usize)
    ensures
        offset == if visible_rows == 0 || total_rows <= visible_rows {
            0
        } else {
            let shown_last = if selected_index + 1 > visible_rows { selected_index + 1 - visible_rows } else { 0 };
            if shown_last < total_rows - visible_rows { shown_last } else { total_rows - visible_rows }
        },
        selected_index < total_rows && visible_rows > 0 ==> offset <= selected_index < offset + visible_rows,
        offset + visible_rows <= total_rows || offset == 0,
{
    if visible_rows == 0 || total_rows <= visible_rows {
        return 0;
    }
    let shown_last = selected_index.saturating_add(1).saturating_sub(visible_rows);
    let last_start = total_rows - visible_rows;
    if shown_last < last_start { shown_last } else { last_start }
}

} // verus!
