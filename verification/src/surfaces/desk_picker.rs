//! The desk picker (Ctrl+D): choose the desk to place a card on. Up/Down
//! move the highlight, Enter or a click picks, Esc dismisses. Its rows
//! carry the same `Desk: <name>` label as the rail's (`rail::desk_row_label`).
use crate::note::{DeskId, NoteId};
use vstd::prelude::*;

verus! {

/// One picker's state: whether it is open, for which card, and the
/// highlighted desk's index.
#[derive(Clone, Copy, Debug, PartialEq, Eq, Structural)]
pub struct PickerState {
    pub open: bool,
    pub for_id: Option<NoteId>,
    pub highlight: usize,
}

impl PickerState {
    /// A closed picker.
    pub fn closed() -> (p: PickerState)
        ensures
            p == (PickerState { open: false, for_id: None, highlight: 0 }),
    {
        PickerState { open: false, for_id: None, highlight: 0 }
    }

    /// The picker opened for card `id`, highlighting the first desk.
    pub fn open_for(id: NoteId) -> (p: PickerState)
        ensures
            p == (PickerState { open: true, for_id: Some(id), highlight: 0 }),
    {
        PickerState { open: true, for_id: Some(id), highlight: 0 }
    }

    /// True while the picker is open.
    pub fn is_open(&self) -> (b: bool)
        ensures
            b == self.open,
    {
        self.open
    }
}

impl Default for PickerState {
    fn default() -> (p: PickerState)
        ensures
            p == (PickerState { open: false, for_id: None, highlight: 0 }),
    {
        PickerState::closed()
    }
}

/// The highlight after the arrow keys: Down moves to the next desk when
/// there is one, Up to the previous when there is one.
pub open spec fn moved_highlight(h: int, desk_count: int, down: bool, up: bool) -> int {
    let h1 = if down && h + 1 < desk_count { h + 1 } else { h };
    if up && h1 > 0 { h1 - 1 } else { h1 }
}

/// One frame of the picker with `desks` on offer: the arrow keys move the
/// highlight; Esc closes it; Enter picks the highlighted desk for the card
/// (when there is one) and closes it; otherwise it stays as it was with
/// the new highlight. A click on a desk (`clicked`) then picks that desk
/// and closes the picker. Returns the new state and the pick, if any.
pub fn picker_step(
    state: PickerState,
    desks: &[DeskId],
    enter: bool,
    esc: bool,
    down: bool,
    up: bool,
    clicked: Option<DeskId>,
) -> (r: (PickerState, Option<(NoteId, DeskId)>))
    requires
        state.highlight < usize::MAX,
    ensures
        ({
            let h = moved_highlight(state.highlight as int, desks@.len() as int, down, up);
            let closed = PickerState { open: false, for_id: None, highlight: 0 };
            let keyed: (PickerState, Option<(NoteId, DeskId)>) = if esc {
                (closed, None)
            } else if enter {
                (closed, if state.for_id is Some && 0 <= h < desks@.len() {
                    Some((state.for_id->0, desks@[h]))
                } else {
                    None
                })
            } else {
                (PickerState { highlight: h as usize, ..state }, None)
            };
            r == if clicked is Some && state.for_id is Some {
                (closed, Some((state.for_id->0, clicked->0)))
            } else {
                keyed
            }
        }),
{
    let n = desks.len();
    let mut h = state.highlight;
    if down && h + 1 < n {
        h = h + 1;
    }
    if up && h > 0 {
        h = h - 1;
    }
    let mut next = state;
    let mut picked: Option<(NoteId, DeskId)> = None;
    if esc {
        next = PickerState::closed();
    } else if enter {
        if let Some(for_id) = state.for_id {
            if h < n {
                picked = Some((for_id, desks[h]));
            }
        }
        next = PickerState::closed();
    } else {
        next.highlight = h;
    }
    if let Some(desk) = clicked {
        if let Some(for_id) = state.for_id {
            picked = Some((for_id, desk));
            next = PickerState::closed();
        }
    }
    (next, picked)
}

/// The arrow keys keep a highlight that is on a desk on a desk.
pub proof fn lemma_highlight_stays_on_a_desk(h: int, desk_count: int, down: bool, up: bool)
    requires
        0 <= h < desk_count,
    ensures
        0 <= moved_highlight(h, desk_count, down, up) < desk_count,
{
}


/// The arrows step the highlight one desk: Down alone to the next desk
/// (staying on the last), Up alone to the previous (staying on the first).
pub proof fn lemma_highlight_steps_one_desk(h: int, desk_count: int, down: bool, up: bool)
    requires
        0 <= h < desk_count,
    ensures
        down && !up ==> moved_highlight(h, desk_count, down, up) == (if h + 1 < desk_count { h + 1 } else { h }),
        up && !down ==> moved_highlight(h, desk_count, down, up) == (if h > 0 { h - 1 } else { h }),
        !up && !down ==> moved_highlight(h, desk_count, down, up) == h,
{
}

} // verus!
