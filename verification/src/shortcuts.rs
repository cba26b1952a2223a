//! The app-wide keys of a frame: Ctrl+K, Ctrl+N, Del, undo/redo and the
//! delete-confirm modal, with the gates between them.
use crate::note::NoteId;
use vstd::prelude::*;

verus! {

/// The app-wide keys pressed this frame.
#[derive(Debug, Clone, Copy, PartialEq, Eq, Structural, Default)]
pub struct GlobalKeys {
    pub ctrl_k: bool,
    pub ctrl_n: bool,
    pub delete: bool,
    pub ctrl_z: bool,
    pub ctrl_shift_z: bool,
    pub ctrl_y: bool,
    pub enter: bool,
    pub esc: bool,
}

/// What happens to the palette.
#[derive(Debug, Clone, Copy, PartialEq, Eq, Structural)]
pub enum PaletteToggle {
    Keep,
    Open,
    Close,
}

/// What the frame's app-wide keys ask for.
#[derive(Debug, Clone, Copy, PartialEq, Eq, Structural)]
pub struct GlobalActions {
    pub palette: PaletteToggle,
    /// Create an empty scrap (Ctrl+N) and place it where the pointer is.
    pub create_scrap: bool,
    /// Toss this scrap at once (Del on a focused scrap).
    pub toss: Option<NoteId>,
    /// Delete this card: its deletion was just confirmed (Enter).
    pub delete: Option<NoteId>,
    pub undo: bool,
    pub redo: bool,
}

/// The frame's app-wide keys. Nothing happens while the editor is open.
/// Otherwise, in order: Ctrl+K toggles the palette unless a delete waits
/// for confirmation; with no confirmation pending and the palette (as
/// toggled) closed, Ctrl+N creates a scrap, Del on a desk's focused card
/// tosses a scrap or asks to confirm deleting a card, and then (if still
/// nothing is pending) Ctrl+Z undoes or Ctrl+Shift+Z / Ctrl+Y redoes; last,
/// a pending confirmation is settled by Enter (delete) or Esc (cancel).
pub fn global_keys(
    keys: GlobalKeys,
    editor_open: bool,
    palette_open: bool,
    pending_confirm: &mut Option<NoteId>,
    on_desk: bool,
    focus: Option<NoteId>,
    focus_fleeting: bool,
) -> (a: GlobalActions)
    ensures
        editor_open ==> a == (GlobalActions {
            palette: PaletteToggle::Keep,
            create_scrap: false,
            toss: None,
            delete: None,
            undo: false,
            redo: false,
        }) && *final(pending_confirm) == *old(pending_confirm),
        !editor_open ==> ({
            let c0 = *old(pending_confirm);
            let toggle = keys.ctrl_k && c0 is None;
            let open = if toggle { !palette_open } else { palette_open };
            let free = c0 is None && !open;
            let del = free && keys.delete && on_desk && focus is Some;
            let c1 = if del && !focus_fleeting { focus } else { c0 };
            let history = c1 is None && !open;
            &&& a.palette == (if !toggle { PaletteToggle::Keep } else if palette_open {
                PaletteToggle::Close
            } else {
                PaletteToggle::Open
            })
            &&& a.create_scrap == (free && keys.ctrl_n)
            &&& a.toss == (if del && focus_fleeting { focus } else { None })
            &&& a.undo == (history && keys.ctrl_z)
            &&& a.redo == (history && !keys.ctrl_z && (keys.ctrl_shift_z || keys.ctrl_y))
            &&& a.delete == (if c1 is Some && keys.enter { c1 } else { None })
            &&& *final(pending_confirm) == (if c1 is Some && (keys.enter || keys.esc) { None } else { c1 })
        }),
{
    let mut a = GlobalActions {
        palette: PaletteToggle::Keep,
        create_scrap: false,
        toss: None,
        delete: None,
        undo: false,
        redo: false,
    };
    if editor_open {
        return a;
    }
    let mut open = palette_open;
    if keys.ctrl_k && pending_confirm.is_none() {
        if palette_open {
            a.palette = PaletteToggle::Close;
            open = false;
        } else {
            a.palette = PaletteToggle::Open;
            open = true;
        }
    }
    if keys.ctrl_n && pending_confirm.is_none() && !open {
        a.create_scrap = true;
    }
    if keys.delete && pending_confirm.is_none() && !open && on_desk {
        if let Some(id) = focus {
            if focus_fleeting {
                a.toss = Some(id);
            } else {
                *pending_confirm = Some(id);
            }
        }
    }
    if pending_confirm.is_none() && !open {
        if keys.ctrl_z {
            a.undo = true;
        } else if keys.ctrl_shift_z || keys.ctrl_y {
            a.redo = true;
        }
    }
    if let Some(id) = *pending_confirm {
        if keys.enter {
            *pending_confirm = None;
            a.delete = Some(id);
        } else if keys.esc {
            *pending_confirm = None;
        }
    }
    a
}

} // verus!
