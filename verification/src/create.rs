//! Ctrl+N: a card created from the keyboard is placed on the first desk
//! once the vault has written it, even when that happens before the first
//! desk exists.
use crate::note::{DeskId, NoteId};
use crate::ops::VaultOp;
use vstd::prelude::*;

verus! {

/// A creation waiting for the vault: where to place the card (`at`, in
/// the caller's coordinates) and whether to open its editor.
#[derive(Debug)]
pub struct PendingCreate<P> {
    pub at: P,
    pub open_editor: bool,
}

/// Place card `id` on `desk` at `at`, opening its editor if asked.
#[derive(Debug)]
pub struct Placement<P> {
    pub desk: DeskId,
    pub id: NoteId,
    pub at: P,
    pub open_editor: bool,
}

/// The pending creation, and the id of a created card that could not be
/// placed yet because no desk existed.
#[derive(Debug)]
pub struct CreateTracker<P> {
    pub pending: Option<PendingCreate<P>>,
    pub orphaned: Option<NoteId>,
}

/// The tracker after an op that `is_create`s (its inverse is a delete) and
/// created `created`, with `first_desk` the first desk; and the placement
/// to make, if any.
pub open spec fn after_op_done<P>(
    t: CreateTracker<P>,
    is_create: bool,
    created: Seq<NoteId>,
    first_desk: Option<DeskId>,
) -> (CreateTracker<P>, Option<Placement<P>>) {
    if !is_create || t.pending is None || created.len() == 0 {
        (t, None)
    } else {
        let pend = t.pending->0;
        match first_desk {
            Some(d) => (
                CreateTracker { pending: None, orphaned: t.orphaned },
                Some(Placement { desk: d, id: created[0], at: pend.at, open_editor: pend.open_editor }),
            ),
            None => (
                CreateTracker {
                    pending: t.pending,
                    orphaned: if t.orphaned is Some { t.orphaned } else { Some(created[0]) },
                },
                None,
            ),
        }
    }
}

/// The tracker after the first scan completes with `first_desk` the first
/// desk; and the placement to make, if any.
pub open spec fn after_scan<P>(t: CreateTracker<P>, first_desk: Option<DeskId>) -> (
    CreateTracker<P>,
    Option<Placement<P>>,
) {
    match t.orphaned {
        None => (t, None),
        Some(orphan) => match t.pending {
            None => (CreateTracker { pending: None, orphaned: None }, None),
            Some(pend) => (
                CreateTracker { pending: None, orphaned: None },
                match first_desk {
                    Some(d) => Some(Placement { desk: d, id: orphan, at: pend.at, open_editor: pend.open_editor }),
                    None => None,
                },
            ),
        },
    }
}

/// A card created before any desk exists still lands on the first desk,
/// where and as it was asked for, once the first scan has made that desk;
/// nothing is left pending.
pub proof fn lemma_created_before_desk_is_placed<P>(t: CreateTracker<P>, created: Seq<NoteId>, desk: DeskId)
    requires
        t.pending is Some,
        t.orphaned is None,
        created.len() > 0,
    ensures
        ({
            let (t1, p1) = after_op_done(t, true, created, None);
            let (t2, p2) = after_scan(t1, Some(desk));
            &&& p1 is None
            &&& p2 == Some(
                Placement {
                    desk,
                    id: created[0],
                    at: t.pending->0.at,
                    open_editor: t.pending->0.open_editor,
                },
            )
            &&& t2.pending is None
            &&& t2.orphaned is None
        }),
{
}

impl<P> CreateTracker<P> {
    /// Nothing pending.
    pub fn new() -> (t: CreateTracker<P>)
        ensures
            t.pending is None,
            t.orphaned is None,
    {
        CreateTracker { pending: None, orphaned: None }
    }

    /// The vault finished an op whose inverse is `inverse` and which created
    /// `created`. Only a creation (its inverse a delete) with a card id
    /// settles the pending creation: with a first desk the card is placed
    /// there; without one the creation stays pending and the card's id is
    /// kept (the first such id only) until the desk exists.
    pub fn on_op_done(&mut self, inverse: Option<&VaultOp>, created: &[NoteId], first_desk: Option<
        DeskId,
    >) -> (p: Option<Placement<P>>)
        ensures
            (*final(self), p) == after_op_done(
                *old(self),
                inverse matches Some(VaultOp::Delete { .. }),
                created@,
                first_desk,
            ),
    {
        let is_create = match inverse {
            Some(VaultOp::Delete { .. }) => true,
            _ => false,
        };
        if !is_create || self.pending.is_none() || created.len() == 0 {
            return None;
        }
        let new_id = created[0];
        match first_desk {
            Some(desk) => {
                let pending = self.pending.take().unwrap();
                Some(Placement { desk, id: new_id, at: pending.at, open_editor: pending.open_editor })
            },
            None => {
                if self.orphaned.is_none() {
                    self.orphaned = Some(new_id);
                }
                None
            },
        }
    }

    /// The first scan finished and `first_desk` is the first desk. A card
    /// kept for want of a desk is placed now, with the pending creation's
    /// position and editor flag. Its id is used up in any case, and the
    /// pending creation too once there was such an id.
    pub fn on_scan_complete(&mut self, first_desk: Option<DeskId>) -> (p: Option<Placement<P>>)
        ensures
            (*final(self), p) == after_scan(*old(self), first_desk),
    {
        let orphan = match self.orphaned.take() {
            Some(id) => id,
            None => {
                return None;
            },
        };
        let pending = match self.pending.take() {
            Some(p) => p,
            None => {
                return None;
            },
        };
        match first_desk {
            Some(desk) => Some(Placement { desk, id: orphan, at: pending.at, open_editor: pending.open_editor }),
            None => None,
        }
    }
}

} // verus!
