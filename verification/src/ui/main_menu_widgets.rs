use vstd::prelude::*;

verus! {

/// The main menu, with its selected entry.
pub struct MainMenu {
    pub selected_index: usize,
}

impl MainMenu {
    pub fn new(selected_index: usize) -> (menu: Self)
        ensures
            menu.selected_index == selected_index,
    {
        Self { selected_index }
    }
}

} // verus!
