//! Verified core of the Junk Drawer note desk: card faces, the editor's
//! text edits, the palette, the undo journal, the body cache and the
//! decisions of each surface.
pub mod card;
pub mod create;
pub mod editor;
pub mod events;
pub mod file_manager;
pub mod ids;
pub mod journal;
pub mod menus;
pub mod note;
pub mod ops;
pub mod palette;
pub mod rail;
pub mod session;
pub mod shortcuts;
pub mod sort;
pub mod state;
pub mod surfaces;
pub mod text;
pub mod text_undo;
