use vstd::prelude::*;

use crate::consts::MAX_CARD_ORDINALITY;
use crate::game::collections::filled_rank_array;
use crate::ui::editing::{
    adjust_usize, clear_text, is_digit, parse_usize, pop_char, push_char, spec_adjust, spec_parse_usize,
};

verus! {

/// The cursor and the text being typed in an editor of one count per rank.
#[derive(Debug, Clone)]
pub struct RankCountEditorState {
    pub selected_rank: usize,
    pub editing: bool,
    pub edit_buffer: String,
}

/// The count that typed text gives, capped at `max`: `None` where the text is not a number.
pub open spec fn typed_count(text: Seq<char>, max: usize) -> Option<usize> {
    match spec_parse_usize(text) {
        Some(value) => Some(if value < max { value } else { max }),
        None => None,
    }
}

impl RankCountEditorState {
    pub fn new() -> (state: Self)
        ensures
            state.selected_rank == 0,
            !state.editing,
            state.edit_buffer@ == Seq::<char>::empty(),
    {
        Self { selected_rank: 0, editing: false, edit_buffer: String::new() }
    }

    /// Back to the first rank, not editing.
    pub fn reset(&mut self)
        ensures
            final(self).selected_rank == 0,
            !final(self).editing,
            final(self).edit_buffer@ == Seq::<char>::empty(),
    {
        self.selected_rank = 0;
        self.editing = false;
        clear_text(&mut self.edit_buffer);
    }

    /// To `rank` (or the last rank, if `rank` is beyond it), not editing.
    pub fn reset_to_rank(&mut self, rank: usize)
        ensures
            final(self).selected_rank == if rank < MAX_CARD_ORDINALITY - 1 { rank } else { (MAX_CARD_ORDINALITY - 1) as usize },
            !final(self).editing,
            final(self).edit_buffer@ == Seq::<char>::empty(),
    {
        self.selected_rank = if rank < MAX_CARD_ORDINALITY - 1 { rank } else { MAX_CARD_ORDINALITY - 1 };
        self.editing = false;
        clear_text(&mut self.edit_buffer);
    }

    /// One rank on for a positive `delta` (stopping at the last rank), one back for a negative
    /// one (stopping at the first).
    pub fn move_rank(&mut self, delta: isize)
        requires
            old(self).selected_rank < usize::MAX,
        ensures
            final(self).selected_rank == if delta > 0 {
                if old(self).selected_rank + 1 < MAX_CARD_ORDINALITY - 1 { old(self).selected_rank + 1 } else { (MAX_CARD_ORDINALITY - 1) as int }
            } else if delta < 0 {
                if old(self).selected_rank > 0 { old(self).selected_rank - 1 } else { 0 }
            } else {
                old(self).selected_rank as int
            },
            final(self).editing == old(self).editing,
            final(self).edit_buffer == old(self).edit_buffer,
    {
        if delta > 0 {
            let next = self.selected_rank + 1;
            self.selected_rank = if next < MAX_CARD_ORDINALITY - 1 { next } else { MAX_CARD_ORDINALITY - 1 };
        } else if delta < 0 {
            self.selected_rank = self.selected_rank.saturating_sub(1);
        }
    }

    pub fn start_editing(&mut self)
        ensures
            final(self).selected_rank == old(self).selected_rank,
            final(self).editing,
            final(self).edit_buffer@ == Seq::<char>::empty(),
    {
        self.editing = true;
        clear_text(&mut self.edit_buffer);
    }

    pub fn finish_editing(&mut self)
        ensures
            final(self).selected_rank == old(self).selected_rank,
            !final(self).editing,
            final(self).edit_buffer@ == Seq::<char>::empty(),
    {
        self.editing = false;
        clear_text(&mut self.edit_buffer);
    }

    /// Moves the count of the selected rank by `delta`, between zero and its maximum.
    pub fn adjust_count(
        &mut self,
        counts: &mut [usize; MAX_CARD_ORDINALITY],
        max_counts: &[usize; MAX_CARD_ORDINALITY],
        delta: isize,
    )
        requires
            old(self).selected_rank < MAX_CARD_ORDINALITY,
            delta != isize::MIN,
        ensures
            *final(self) == *old(self),
            final(counts)@ == old(counts)@.update(
                old(self).selected_rank as int,
                spec_adjust(
                    old(counts)@[old(self).selected_rank as int] as int,
                    delta as int,
                    1,
                    0,
                    max_counts@[old(self).selected_rank as int] as int,
                ) as usize,
            ),
    {
        let rank = self.selected_rank;
        counts[rank] = adjust_usize(counts[rank], delta, 1, 0, max_counts[rank]);
    }

    /// Types the digit `c` (anything else is ignored); the count of the selected rank becomes
    /// the typed number, capped at its maximum, when the text is a number.
    pub fn input_digit(
        &mut self,
        counts: &mut [usize; MAX_CARD_ORDINALITY],
        max_counts: &[usize; MAX_CARD_ORDINALITY],
        c: char,
    )
        requires
            old(self).selected_rank < MAX_CARD_ORDINALITY,
        ensures
            final(self).selected_rank == old(self).selected_rank,
            final(self).editing == old(self).editing,
            !is_digit(c) ==> final(self).edit_buffer@ == old(self).edit_buffer@ && final(counts)@ == old(counts)@,
            is_digit(c) ==> final(self).edit_buffer@ == old(self).edit_buffer@.push(c),
            is_digit(c) ==> final(counts)@ == match typed_count(final(self).edit_buffer@, max_counts@[old(self).selected_rank as int]) {
                Some(count) => old(counts)@.update(old(self).selected_rank as int, count),
                None => old(counts)@,
            },
    {
        let code = c as u32;
        if code < '0' as u32 || code > '9' as u32 {
            return;
        }
        push_char(&mut self.edit_buffer, c);
        if let Some(value) = parse_usize(self.edit_buffer.as_str()) {
            let rank = self.selected_rank;
            let max = max_counts[rank];
            counts[rank] = if value < max { value } else { max };
        }
    }

    /// Takes the last typed character off; the count of the selected rank becomes zero when no
    /// text is left, and the typed number, capped at its maximum, otherwise.
    pub fn backspace_digit(
        &mut self,
        counts: &mut [usize; MAX_CARD_ORDINALITY],
        max_counts: &[usize; MAX_CARD_ORDINALITY],
    )
        requires
            old(self).selected_rank < MAX_CARD_ORDINALITY,
        ensures
            final(self).selected_rank == old(self).selected_rank,
            final(self).editing == old(self).editing,
            final(self).edit_buffer@ == if old(self).edit_buffer@.len() > 0 {
                old(self).edit_buffer@.drop_last()
            } else {
                old(self).edit_buffer@
            },
            final(counts)@ == if final(self).edit_buffer@.len() == 0 {
                old(counts)@.update(old(self).selected_rank as int, 0)
            } else {
                match typed_count(final(self).edit_buffer@, max_counts@[old(self).selected_rank as int]) {
                    Some(count) => old(counts)@.update(old(self).selected_rank as int, count),
                    None => old(counts)@,
                }
            },
    {
        pop_char(&mut self.edit_buffer);
        let rank = self.selected_rank;
        if self.edit_buffer.as_str().is_empty() {
            counts[rank] = 0;
        } else if let Some(value) = parse_usize(self.edit_buffer.as_str()) {
            let max = max_counts[rank];
            counts[rank] = if value < max { value } else { max };
        }
    }

    /// Brings the selected rank back onto the last rank if it is beyond it.
    pub fn clamp_rank(&mut self)
        ensures
            final(self).selected_rank == if old(self).selected_rank < MAX_CARD_ORDINALITY - 1 {
                old(self).selected_rank
            } else {
                (MAX_CARD_ORDINALITY - 1) as usize
            },
            final(self).editing == old(self).editing,
            final(self).edit_buffer == old(self).edit_buffer,
    {
        if self.selected_rank >= MAX_CARD_ORDINALITY - 1 {
            self.selected_rank = MAX_CARD_ORDINALITY - 1;
        }
    }
}

/// An editor of one count per rank, as it is drawn: its title, the counts, the cursor, whether
/// it has the focus, and whether the ranks are shown highest first.
pub struct RankCountEditor<'a> {
    pub title: &'a str,
    pub counts: &'a [usize; MAX_CARD_ORDINALITY],
    pub state: &'a RankCountEditorState,
    pub focused: bool,
    pub inverted_ordering: bool,
}

impl<'a> RankCountEditor<'a> {
    pub fn new(
        title: &'a str,
        counts: &'a [usize; MAX_CARD_ORDINALITY],
        state: &'a RankCountEditorState,
        focused: bool,
        inverted_ordering: bool,
    ) -> (editor: Self)
        ensures
            editor.title == title,
            editor.counts == counts,
            editor.state == state,
            editor.focused == focused,
            editor.inverted_ordering == inverted_ordering,
    {
        Self { title, counts, state, focused, inverted_ordering }
    }
}

/// The same maximum `max` for every rank.
pub fn fixed_max_counts(max: usize) -> (max_counts: [usize; MAX_CARD_ORDINALITY])
    ensures
        forall|r: int| 0 <= r < MAX_CARD_ORDINALITY ==> #[trigger] max_counts@[r] == max,
{
    filled_rank_array(max)
}

} // verus!
