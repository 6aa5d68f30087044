use vstd::prelude::*;

use crate::ui::cards::{Move, TrickHistory};

verus! {

/// The perspective player, or another seat by its name.
#[derive(Debug, Clone)]
pub enum Player {
    PerspectivePlayer,
    Other(String),
}

/// The move on top of the table and who played it.
#[derive(Debug, Clone)]
pub struct TopSet {
    pub top_set_move: Move,
    pub top_set_player: Player,
}

impl TopSet {
    pub fn new(top_set_move: Move, top_set_player: Player) -> (top_set: Self)
        ensures
            top_set.top_set_move == top_set_move,
            top_set.top_set_player == top_set_player,
    {
        TopSet { top_set_move, top_set_player }
    }
}

/// The table: whose turn it is and the top set, if any.
#[derive(Debug, Clone)]
pub struct Table {
    pub current_player: Player,
    pub top_set: Option<TopSet>,
}

impl Table {
    pub fn new(current_player: Player, top_set: Option<TopSet>) -> (table: Self)
        ensures
            table.current_player == current_player,
            table.top_set == top_set,
    {
        Table { current_player, top_set }
    }
}

/// The table beside the history of the trick.
pub struct TableAndTrickHistory {
    pub table: Table,
    pub history: TrickHistory,
}

impl TableAndTrickHistory {
    pub fn new(table: Table, history: TrickHistory) -> (view: Self)
        ensures
            view.table == table,
            view.history == history,
    {
        TableAndTrickHistory { table, history }
    }
}

} // verus!
