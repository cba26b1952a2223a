//! Per-card text undo stack.
use vstd::prelude::*;

verus! {

/// Per-card text undo stack. It records no history yet: every editing
/// session starts from the text it was opened with.
#[derive(Default)]
pub struct TextUndo;

impl TextUndo {
    /// The undo stack of a card opened with `_initial`.
    pub fn new(_initial: &str) -> (u: TextUndo)
        ensures
            u == TextUndo,
    {
        TextUndo
    }
}

} // verus!
