//! Surfaces: the desk, the drawer, the map, the inbox and the desk picker
//! they share.
pub mod desk;
pub mod desk_picker;
pub mod drawer;
pub mod inbox;
pub mod map;

use vstd::prelude::*;

verus! {

/// What may be open over a surface. While any of these is up, the surface
/// takes no keys: the editor, a pending delete confirmation, the palette,
/// the desk picker, and the surface's own popup (a card or tag menu).
#[derive(Debug, Clone, Copy, PartialEq, Eq, Structural, Default)]
pub struct Overlays {
    pub editor_open: bool,
    pub confirm_pending: bool,
    pub palette_open: bool,
    pub picker_open: bool,
    pub popup_open: bool,
}

impl Overlays {
    /// Whether an overlay holds the keyboard.
    pub open spec fn blocks(self) -> bool {
        self.editor_open || self.confirm_pending || self.palette_open || self.picker_open
            || self.popup_open
    }

    /// Whether the surface's keys are blocked this frame.
    pub fn keys_blocked(&self) -> (b: bool)
        ensures
            b == self.blocks(),
    {
        self.editor_open || self.confirm_pending || self.palette_open || self.picker_open
            || self.popup_open
    }
}

} // verus!
