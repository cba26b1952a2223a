//! Identities and classifications of notes and desks.
use vstd::prelude::*;

verus! {

/// A note's identity: its 128-bit ULID. Ids order as their big-endian bytes
/// do, which is the order of this number.
#[derive(Clone, Copy, Debug, PartialEq, Eq, Structural, Hash, PartialOrd, Ord)]
pub struct NoteId(pub u128);

/// A desk's identity.
#[derive(Clone, Copy, Debug, PartialEq, Eq, Structural, Hash, PartialOrd, Ord)]
pub struct DeskId(pub u128);

/// Whether a note is a fleeting scrap or a permanent card.
#[derive(Clone, Copy, Debug, PartialEq, Eq, Structural)]
pub enum Status {
    Fleeting,
    Permanent,
}

/// What a permanent note is for.
#[derive(Clone, Copy, Debug, PartialEq, Eq, Structural)]
pub enum Kind {
    Note,
    Literature,
    Structure,
}

} // verus!
