//! What the duel keeps besides the field.

use vstd::prelude::*;

verus! {

/// The minion that is selected, if one is.
#[derive(PartialEq, Eq, Clone, Copy, Debug, Structural)]
pub struct Selection {
    pub selected_minion: Option<u64>,
}

impl Default for Selection {
    /// No minion is selected.
    fn default() -> (selection: Self)
        ensures
            selection == (Selection { selected_minion: None }),
    {
        Selection { selected_minion: None }
    }
}

} // verus!
