use vstd::prelude::*;
use vstd::string::{StrSliceExecFns, StringExecFns};

use crate::formatting::{decimal, decimal_text, digit_char};
use crate::ui::cards::{Card, Move};
use crate::ui::editing::push_char;
use crate::ui::live_widgets::{ObservedAction, ObservedMoveFocus, ObservedMoveInputState};
use crate::ui::table::{Player, TopSet};

verus! {

/// The cursor drawn after a value that is being edited.
pub open spec fn cursor_mark() -> char {
    '▌'
}

/// The text of a count field: the typed text with the cursor while it is edited and something
/// has been typed, the value with the cursor while it is edited and nothing has, else the value.
pub open spec fn spec_count_text(value: nat, editing: bool, buffer: Seq<char>) -> Seq<char> {
    if editing && buffer.len() > 0 {
        buffer.push(cursor_mark())
    } else if editing {
        decimal(value).push(cursor_mark())
    } else {
        decimal(value)
    }
}

/// The text of a count field; see `spec_count_text`.
pub fn count_text(value: usize, editing: bool, buffer: &str) -> (text: String)
    ensures
        text@ == spec_count_text(value as nat, editing, buffer@),
{
    if editing && buffer.unicode_len() > 0 {
        let mut text = String::from_str(buffer);
        push_char(&mut text, '▌');
        text
    } else if editing {
        let mut text = decimal_text(value as u64);
        push_char(&mut text, '▌');
        text
    } else {
        decimal_text(value as u64)
    }
}

/// The name of rank `rank`, for ranks zero (the jokers) to eighteen.
pub open spec fn spec_rank_word(rank: nat) -> Seq<char> {
    if rank == 0 {
        "joker"@
    } else if rank == 1 {
        "one"@
    } else if rank == 2 {
        "two"@
    } else if rank == 3 {
        "three"@
    } else if rank == 4 {
        "four"@
    } else if rank == 5 {
        "five"@
    } else if rank == 6 {
        "six"@
    } else if rank == 7 {
        "seven"@
    } else if rank == 8 {
        "eight"@
    } else if rank == 9 {
        "nine"@
    } else if rank == 10 {
        "ten"@
    } else if rank == 11 {
        "eleven"@
    } else if rank == 12 {
        "twelve"@
    } else if rank == 13 {
        "thirteen"@
    } else if rank == 14 {
        "fourteen"@
    } else if rank == 15 {
        "fifteen"@
    } else if rank == 16 {
        "sixteen"@
    } else if rank == 17 {
        "seventeen"@
    } else {
        "eighteen"@
    }
}

/// The name of rank `rank`.
pub fn rank_word(rank: u8) -> (word: &'static str)
    requires
        rank <= 18,
    ensures
        word@ == spec_rank_word(rank as nat),
{
    if rank == 0 {
        "joker"
    } else if rank == 1 {
        "one"
    } else if rank == 2 {
        "two"
    } else if rank == 3 {
        "three"
    } else if rank == 4 {
        "four"
    } else if rank == 5 {
        "five"
    } else if rank == 6 {
        "six"
    } else if rank == 7 {
        "seven"
    } else if rank == 8 {
        "eight"
    } else if rank == 9 {
        "nine"
    } else if rank == 10 {
        "ten"
    } else if rank == 11 {
        "eleven"
    } else if rank == 12 {
        "twelve"
    } else if rank == 13 {
        "thirteen"
    } else if rank == 14 {
        "fourteen"
    } else if rank == 15 {
        "fifteen"
    } else if rank == 16 {
        "sixteen"
    } else if rank == 17 {
        "seventeen"
    } else {
        "eighteen"
    }
}

/// An `s` after a count above one.
pub open spec fn plural(count: nat) -> Seq<char> {
    if count > 1 {
        seq!['s']
    } else {
        Seq::empty()
    }
}

/// How a move reads: a move of rank zero as its count of jokers ("2 jokers"), any other as its
/// wilds and its non-wilds with the rank's name ("1 wild and 3 fives").
pub open spec fn spec_move_text(m: Move) -> Seq<char> {
    let wilds = m.num_wilds as nat;
    let non_wilds = m.num_non_wilds as nat;
    if m.rank == 0 {
        decimal(wilds) + " joker"@ + plural(wilds)
    } else {
        decimal(wilds) + " wild"@ + plural(wilds) + " and "@ + decimal(non_wilds) + " "@ + spec_rank_word(
            m.rank as nat,
        ) + plural(non_wilds)
    }
}

fn add_plural(text: &mut String, count: u8)
    ensures
        final(text)@ == old(text)@ + plural(count as nat),
{
    if count > 1 {
        push_char(text, 's');
    } else {
        assert(old(text)@ + plural(count as nat) =~= old(text)@);
    }
}

/// How a move reads; see `spec_move_text`.
pub fn textify_move(move_: Move) -> (text: String)
    requires
        move_.rank <= 18,
    ensures
        text@ == spec_move_text(move_),
{
    let mut text = decimal_text(move_.num_wilds as u64);
    if move_.rank == 0 {
        text.append(" joker");
        add_plural(&mut text, move_.num_wilds);
        return text;
    }
    text.append(" wild");
    add_plural(&mut text, move_.num_wilds);
    text.append(" and ");
    let non_wilds = decimal_text(move_.num_non_wilds as u64);
    text.append(non_wilds.as_str());
    text.append(" ");
    text.append(rank_word(move_.rank));
    add_plural(&mut text, move_.num_non_wilds);
    text
}

/// The key help of the observed-move panel.
pub open spec fn spec_observed_move_controls(state: ObservedMoveInputState) -> Seq<char> {
    if state.editing_count {
        "Type value    ↑/→ +1    ↓/← -1    Enter/Esc finish"@
    } else {
        match state.focus {
            ObservedMoveFocus::Action => if state.action == ObservedAction::Play {
                "←/→ move type    ↓ play info    ↑ confirm"@
            } else {
                "←/→ move type    ↓ confirm    ↑ confirm"@
            },
            ObservedMoveFocus::Submit => "Enter confirm    ↑ move info    ↓ move type"@,
            _ => "←/→ field    Enter edit    ↑ move type    ↓ confirm"@,
        }
    }
}

/// The key help of the observed-move panel: the editing keys while a count is edited, else the
/// keys of the field that has the focus.
pub fn observed_move_controls(state: &ObservedMoveInputState) -> (text: &'static str)
    ensures
        text@ == spec_observed_move_controls(*state),
{
    if state.editing_count {
        return "Type value    ↑/→ +1    ↓/← -1    Enter/Esc finish";
    }
    match state.focus {
        ObservedMoveFocus::Action => match state.action {
            ObservedAction::Play => "←/→ move type    ↓ play info    ↑ confirm",
            ObservedAction::Pass => "←/→ move type    ↓ confirm    ↑ confirm",
        },
        ObservedMoveFocus::Rank | ObservedMoveFocus::NonWilds | ObservedMoveFocus::Wilds => {
            "←/→ field    Enter edit    ↑ move type    ↓ confirm"
        },
        ObservedMoveFocus::Submit => "Enter confirm    ↑ move info    ↓ move type",
    }
}

/// The line that says who leads the trick and with what: "You are leading the trick with 3
/// fives", or the leader's name in place of "You are", the cards counted wilds and all.
pub open spec fn spec_lead_message(top_set: TopSet) -> Seq<char> {
    let leader = match top_set.top_set_player {
        Player::PerspectivePlayer => "You are leading the trick with "@,
        Player::Other(name) => name@ + " is leading the trick with "@,
    };
    let cards = top_set.top_set_move.num_wilds + top_set.top_set_move.num_non_wilds;
    leader + decimal(cards as nat) + " "@ + spec_rank_word(top_set.top_set_move.rank as nat) + plural(cards as nat)
}

/// The line that says who leads the trick; see `spec_lead_message`.
pub fn lead_message(top_set: &TopSet) -> (text: String)
    requires
        top_set.top_set_move.rank <= 18,
        top_set.top_set_move.num_wilds + top_set.top_set_move.num_non_wilds <= u8::MAX,
    ensures
        text@ == spec_lead_message(*top_set),
{
    let mut text = match &top_set.top_set_player {
        Player::PerspectivePlayer => String::from_str("You are leading the trick with "),
        Player::Other(name) => {
            let mut text = String::from_str(name.as_str());
            text.append(" is leading the trick with ");
            text
        },
    };
    let cards = top_set.top_set_move.num_wilds + top_set.top_set_move.num_non_wilds;
    let count = decimal_text(cards as u64);
    text.append(count.as_str());
    text.append(" ");
    text.append(rank_word(top_set.top_set_move.rank));
    add_plural(&mut text, cards);
    text
}

/// `name` with the possessive ending: an apostrophe after a final `s`, else `'s`.
pub open spec fn possessive(name: Seq<char>) -> Seq<char> {
    if name.len() > 0 && name.last() == 's' {
        name.push('\'')
    } else {
        name + "'s"@
    }
}

fn possessive_text(name: &String) -> (text: String)
    ensures
        text@ == possessive(name@),
{
    let mut text = String::from_str(name.as_str());
    let len = name.as_str().unicode_len();
    if len > 0 && name.as_str().get_char(len - 1) == 's' {
        push_char(&mut text, '\'');
    } else {
        text.append("'s");
    }
    text
}

/// Whose turn it is: "Your Turn", or the player's name with the possessive ending and "Turn".
pub open spec fn spec_turn_message(player: Player) -> Seq<char> {
    match player {
        Player::PerspectivePlayer => "Your Turn"@,
        Player::Other(name) => possessive(name@) + " Turn"@,
    }
}

/// Whose turn it is; see `spec_turn_message`.
pub fn turn_message(player: &Player) -> (text: String)
    ensures
        text@ == spec_turn_message(*player),
{
    match player {
        Player::PerspectivePlayer => String::from_str("Your Turn"),
        Player::Other(name) => {
            let mut text = possessive_text(name);
            text.append(" Turn");
            text
        },
    }
}

/// Who opens the trick: "Your move to start the trick", or the player's name with the
/// possessive ending in place of "Your".
pub open spec fn spec_opening_message(player: Player) -> Seq<char> {
    match player {
        Player::PerspectivePlayer => "Your move to start the trick"@,
        Player::Other(name) => possessive(name@) + " move to start the trick"@,
    }
}

/// Who opens the trick; see `spec_opening_message`.
pub fn opening_message(player: &Player) -> (text: String)
    ensures
        text@ == spec_opening_message(*player),
{
    match player {
        Player::PerspectivePlayer => String::from_str("Your move to start the trick"),
        Player::Other(name) => {
            let mut text = possessive_text(name);
            text.append(" move to start the trick");
            text
        },
    }
}

/// `n` spaces.
pub open spec fn spaces(n: int) -> Seq<char> {
    Seq::new(if n > 0 { n as nat } else { 0 }, |i: int| ' ')
}

fn push_spaces(text: &mut String, n: usize)
    ensures
        final(text)@ == old(text)@ + spaces(n as int),
{
    let mut i: usize = 0;
    while i < n
        invariant
            i <= n,
            text@ == old(text)@ + spaces(i as int),
        decreases n - i,
    {
        push_char(text, ' ');
        i = i + 1;
        assert(text@ =~= old(text)@ + spaces(i as int));
    }
}

/// The mark in the corners of a card: `J` for a joker, else the rank in decimal.
pub open spec fn rank_mark(rank: u8) -> Seq<char> {
    if rank == 0 {
        seq!['J']
    } else {
        decimal(rank as nat)
    }
}

/// The five lines of a card face: the top edge, the mark at the left of the second line, an
/// empty middle line, the mark at the right of the fourth line, and the bottom edge; the marks
/// are padded to the five columns inside the edges.
pub open spec fn spec_card_lines(card: Card) -> Seq<Seq<char>> {
    let mark = rank_mark(card.rank);
    seq![
        "╭─────╮"@,
        seq!['│'] + mark + spaces(5 - mark.len()) + seq!['│'],
        "│  ⬦  │"@,
        seq!['│'] + spaces(5 - mark.len()) + mark + seq!['│'],
        "╰─────╯"@,
    ]
}

/// A number below a thousand has at most three digits.
proof fn lemma_decimal_len(n: nat)
    requires
        n < 1000,
    ensures
        1 <= decimal(n).len() <= 3,
    decreases n,
{
    if n >= 10 {
        lemma_decimal_len(n / 10);
        if n >= 100 {
            assert(n / 10 >= 10);
            assert((n / 10) / 10 < 10);
            assert(decimal((n / 10) / 10).len() == 1);
        } else {
            assert(n / 10 < 10);
        }
    }
}

impl Card {
    /// The five lines of the card face; see `spec_card_lines`.
    pub fn construct_full_card_lines(&self) -> (lines: Vec<String>)
        ensures
            lines@.len() == 5,
            forall|i: int| 0 <= i < 5 ==> #[trigger] lines@[i]@ == spec_card_lines(*self)[i],
    {
        let mark = if self.rank == 0 {
            String::from_str("J")
        } else {
            decimal_text(self.rank as u64)
        };
        proof {
            reveal_strlit("J");
            lemma_decimal_len(self.rank as nat);
        }
        let width = mark.as_str().unicode_len();
        assert(width <= 5);
        let mut left = String::from_str("│");
        left.append(mark.as_str());
        push_spaces(&mut left, 5 - width);
        push_char(&mut left, '│');
        let mut right = String::from_str("│");
        push_spaces(&mut right, 5 - width);
        right.append(mark.as_str());
        push_char(&mut right, '│');
        proof {
            reveal_strlit("│");
        }
        let lines = vec![
            String::from_str("╭─────╮"),
            left,
            String::from_str("│  ⬦  │"),
            right,
            String::from_str("╰─────╯"),
        ];
        lines
    }
}

} // verus!
