//! The desks and the cards placed on them, and the journaled steps that
//! the rail performs on them: creating, renaming and reordering desks, and
//! moving a dragged card off a desk or onto another one.
use crate::journal::{InverseAction, Journal, JournalEntry, OpContext};
use crate::menus::CardMenuEvent;
use crate::note::{DeskId, NoteId};
use crate::rail::RailDropTarget;
use crate::rail::{move_card_label, new_desk_name};
use crate::text::{chars_of, extend_str, string_from_chars};
use vstd::prelude::*;

verus! {

/// A desk: its id and name, the centre of its viewport, and its cards with
/// their positions (`P`, a position on the desk's plane).
pub struct DeskCards<P> {
    pub id: DeskId,
    pub name: String,
    pub center: P,
    pub cards: Vec<(NoteId, P)>,
}

/// The value of a desk.
pub struct DeskModel<P> {
    pub id: DeskId,
    pub name: Seq<char>,
    pub center: P,
    pub cards: Seq<(NoteId, P)>,
}

impl<P> DeskCards<P> {
    /// What the desk holds.
    pub open spec fn model(self) -> DeskModel<P> {
        DeskModel { id: self.id, name: self.name@, center: self.center, cards: self.cards@ }
    }
}

/// The value of a list of desks.
pub open spec fn desks_model<P>(d: Seq<DeskCards<P>>) -> Seq<DeskModel<P>> {
    d.map_values(|x: DeskCards<P>| x.model())
}

/// A change to the desks, as the journal stores it to undo or redo.
#[derive(Debug)]
pub enum SessionOp<P> {
    /// Add an empty desk at the end.
    CreateDesk { id: DeskId, name: String, center: P },
    /// Remove a desk (the inverse of creating it).
    DeleteDesk { id: DeskId },
    RenameDesk { id: DeskId, from: String, to: String },
    /// Move the desk at `from_index` to `to_index`.
    ReorderDesk { id: DeskId, from_index: usize, to_index: usize },
    /// Move card `id` on `desk` from `from` to `to`.
    Move { desk: DeskId, id: NoteId, from: P, to: P },
    /// Put card `id` on `desk` at `pos`.
    Place { desk: DeskId, id: NoteId, pos: P },
    /// Take card `id` off `desk`; it was at `was_at`.
    PutAway { desk: DeskId, id: NoteId, was_at: P },
}

/// What the rail asks of the desks.
#[derive(Debug)]
pub enum RailEvent<P> {
    /// Create a new desk.
    CreateDesk,
    /// Rename desk `id` to `name`.
    RenameDesk { id: DeskId, name: String },
    /// Move desk `id` to index `to`.
    ReorderDesk { id: DeskId, to: usize },
    /// A card dragged off `source_desk`, where it stood at `was_at`, was
    /// dropped on the Inbox row.
    CardDroppedOnInbox { id: NoteId, source_desk: DeskId, was_at: P },
    /// A card dragged off `source_desk` was dropped on `target_desk`'s row.
    CardDroppedOnDesk { target_desk: DeskId, id: NoteId, source_desk: DeskId, was_at: P },
}

/// `cards` without card `id`.
pub open spec fn without<P>(cards: Seq<(NoteId, P)>, id: NoteId) -> Seq<(NoteId, P)>
    decreases cards.len(),
{
    if cards.len() == 0 {
        cards
    } else {
        let w = without(cards.drop_last(), id);
        if cards.last().0 == id {
            w
        } else {
            w.push(cards.last())
        }
    }
}

/// The desks after card `id` is taken off every desk with id `desk`.
pub open spec fn put_away<P>(d: Seq<DeskModel<P>>, desk: DeskId, id: NoteId) -> Seq<DeskModel<P>> {
    Seq::new(
        d.len(),
        |i: int|
            if d[i].id == desk {
                DeskModel { id: d[i].id, name: d[i].name, center: d[i].center, cards: without(d[i].cards, id) }
            } else {
                d[i]
            },
    )
}

/// The desks after card `id` is put at `pos` on every desk with id `desk`
/// (it leaves its old place there, and comes last).
pub open spec fn placed<P>(d: Seq<DeskModel<P>>, desk: DeskId, id: NoteId, pos: P) -> Seq<DeskModel<P>> {
    Seq::new(
        d.len(),
        |i: int|
            if d[i].id == desk {
                DeskModel {
                    id: d[i].id,
                    name: d[i].name,
                    center: d[i].center,
                    cards: without(d[i].cards, id).push((id, pos)),
                }
            } else {
                d[i]
            },
    )
}

/// The desks after every desk with id `desk` is named `name`.
pub open spec fn renamed<P>(d: Seq<DeskModel<P>>, desk: DeskId, name: Seq<char>) -> Seq<DeskModel<P>> {
    Seq::new(
        d.len(),
        |i: int|
            if d[i].id == desk {
                DeskModel { id: d[i].id, name, center: d[i].center, cards: d[i].cards }
            } else {
                d[i]
            },
    )
}

/// The desks with the one at `from` moved to `to`; unchanged when either
/// index is past the end.
pub open spec fn reordered<P>(d: Seq<DeskModel<P>>, from: int, to: int) -> Seq<DeskModel<P>> {
    if 0 <= from < d.len() && 0 <= to < d.len() {
        d.remove(from).insert(to, d[from])
    } else {
        d
    }
}

/// The index of the first desk with id `desk`, if any.
pub open spec fn desk_index<P>(d: Seq<DeskModel<P>>, desk: DeskId) -> Option<int>
    decreases d.len(),
{
    if d.len() == 0 {
        None
    } else if d[0].id == desk {
        Some(0)
    } else {
        match desk_index(d.skip(1), desk) {
            Some(k) => Some(k + 1),
            None => None,
        }
    }
}

/// The name of the first desk with id `desk`; blank when there is none.
pub open spec fn desk_name<P>(d: Seq<DeskModel<P>>, desk: DeskId) -> Seq<char> {
    match desk_index(d, desk) {
        Some(k) => d[k].name,
        None => Seq::empty(),
    }
}

/// The viewport centre of the first desk with id `desk`; `origin` when
/// there is none.
pub open spec fn desk_center<P>(d: Seq<DeskModel<P>>, desk: DeskId, origin: P) -> P {
    match desk_index(d, desk) {
        Some(k) => d[k].center,
        None => origin,
    }
}

proof fn lemma_desk_index<P>(d: Seq<DeskModel<P>>, desk: DeskId)
    ensures
        desk_index(d, desk) matches Some(k) ==> 0 <= k < d.len() && d[k].id == desk && forall|j: int|
            0 <= j < k ==> #[trigger] d[j].id != desk,
        desk_index(d, desk) is None ==> forall|j: int| 0 <= j < d.len() ==> #[trigger] d[j].id != desk,
    decreases d.len(),
{
    if d.len() > 0 && d[0].id != desk {
        lemma_desk_index(d.skip(1), desk);
        assert forall|j: int| 1 <= j < d.len() implies d[j].id == d.skip(1)[j - 1].id by {}
    }
}

/// Where the first desk with id `desk` stands.
fn find_desk<P>(desks: &Vec<DeskCards<P>>, desk: DeskId) -> (r: Option<usize>)
    ensures
        r matches Some(k) ==> desk_index(desks_model(desks@), desk) == Some(k as int) && k
            < desks@.len(),
        r is None ==> desk_index(desks_model(desks@), desk) is None,
{
    let ghost m = desks_model(desks@);
    let mut i: usize = 0;
    while i < desks.len()
        invariant
            i <= desks@.len(),
            m == desks_model(desks@),
            forall|j: int| 0 <= j < i ==> #[trigger] desks@[j].id != desk,
        decreases desks@.len() - i,
    {
        if desks[i].id == desk {
            proof {
                lemma_desk_index(m, desk);
                assert(m[i as int].id == desk);
                assert forall|j: int| 0 <= j < i implies #[trigger] m[j].id != desk by {
                    assert(m[j].id == desks@[j].id);
                }
                if let Some(k) = desk_index(m, desk) {
                    if k < i {
                        assert(m[k].id != desk);
                    }
                    if k > i {
                        assert(m[i as int].id != desk);
                    }
                }
            }
            return Some(i);
        }
        i = i + 1;
    }
    proof {
        lemma_desk_index(m, desk);
        if let Some(k) = desk_index(m, desk) {
            assert(m[k].id == desks@[k].id);
        }
    }
    None
}

/// `cards` without card `id`.
fn cards_without<P: Copy>(cards: &Vec<(NoteId, P)>, id: NoteId) -> (r: Vec<(NoteId, P)>)
    ensures
        r@ == without(cards@, id),
{
    let mut out: Vec<(NoteId, P)> = Vec::new();
    let mut i: usize = 0;
    while i < cards.len()
        invariant
            i <= cards@.len(),
            out@ == without(cards@.take(i as int), id),
        decreases cards@.len() - i,
    {
        let c = cards[i];
        proof {
            assert(cards@.take(i + 1).drop_last() =~= cards@.take(i as int));
        }
        if c.0 != id {
            out.push(c);
        }
        i = i + 1;
    }
    proof {
        assert(cards@.take(cards@.len() as int) =~= cards@);
    }
    out
}

/// `cards` with card `id` standing at `to`.
pub open spec fn moved<P>(cards: Seq<(NoteId, P)>, id: NoteId, to: P) -> Seq<(NoteId, P)> {
    cards.map_values(|c: (NoteId, P)| if c.0 == id { (id, to) } else { c })
}

/// `cards` with card `id` standing at `to`.
fn cards_moved<P: Copy>(cards: &Vec<(NoteId, P)>, id: NoteId, to: P) -> (r: Vec<(NoteId, P)>)
    ensures
        r@ == moved(cards@, id, to),
{
    let mut out: Vec<(NoteId, P)> = Vec::new();
    let mut i: usize = 0;
    while i < cards.len()
        invariant
            i <= cards@.len(),
            out@ == moved(cards@.take(i as int), id, to),
        decreases cards@.len() - i,
    {
        let c = cards[i];
        if c.0 == id {
            out.push((id, to));
        } else {
            out.push(c);
        }
        i = i + 1;
        proof {
            assert(out@ =~= moved(cards@.take(i as int), id, to));
        }
    }
    proof {
        assert(cards@.take(cards@.len() as int) =~= cards@);
    }
    out
}

/// A copy of a name.
fn copy_name(s: &String) -> (r: String)
    ensures
        r@ == s@,
{
    let v = chars_of(s.as_str());
    string_from_chars(&v)
}

/// What a change to the desks does to one desk.
pub enum DeskChange<P> {
    PutAway(NoteId),
    Place(NoteId, P),
    Rename(Seq<char>),
    MoveTo(NoteId, P),
}

/// One desk after `ch`.
pub open spec fn changed<P>(x: DeskModel<P>, ch: DeskChange<P>) -> DeskModel<P> {
    match ch {
        DeskChange::PutAway(id) => DeskModel { id: x.id, name: x.name, center: x.center, cards: without(x.cards, id) },
        DeskChange::Place(id, pos) => DeskModel {
            id: x.id,
            name: x.name,
            center: x.center,
            cards: without(x.cards, id).push((id, pos)),
        },
        DeskChange::Rename(name) => DeskModel { id: x.id, name, center: x.center, cards: x.cards },
        DeskChange::MoveTo(id, pos) => DeskModel { id: x.id, name: x.name, center: x.center, cards: moved(x.cards, id, pos) },
    }
}

/// Applies a card move or a rename to every desk with id `desk`.
fn change_desks<P: Copy>(
    desks: &mut Vec<DeskCards<P>>,
    desk: DeskId,
    card: NoteId,
    pos: P,
    new_name: &String,
    kind: u8,
    Ghost(ch): Ghost<DeskChange<P>>,
)
    requires
        kind == 0 ==> ch == DeskChange::<P>::PutAway(card),
        kind == 1 ==> ch == DeskChange::Place(card, pos),
        kind == 2 ==> ch == DeskChange::<P>::Rename(new_name@),
        kind == 3 ==> ch == DeskChange::MoveTo(card, pos),
        kind <= 3,
    ensures
        desks_model(final(desks)@) == Seq::new(
            old(desks)@.len(),
            |i: int|
                if old(desks)@[i].id == desk {
                    changed(old(desks)@[i].model(), ch)
                } else {
                    old(desks)@[i].model()
                },
        ),
{
    let ghost d0 = desks@;
    let mut i: usize = 0;
    while i < desks.len()
        invariant
            i <= desks@.len(),
            desks@.len() == d0.len(),
            kind == 0 ==> ch == DeskChange::<P>::PutAway(card),
            kind == 1 ==> ch == DeskChange::Place(card, pos),
            kind == 2 ==> ch == DeskChange::<P>::Rename(new_name@),
            kind == 3 ==> ch == DeskChange::MoveTo(card, pos),
            kind <= 3,
            forall|j: int|
                0 <= j < i ==> (#[trigger] desks@[j]).model() == (if d0[j].id == desk {
                    changed(d0[j].model(), ch)
                } else {
                    d0[j].model()
                }),
            forall|j: int| i <= j < desks@.len() ==> #[trigger] desks@[j] == d0[j],
        decreases desks@.len() - i,
    {
        if desks[i].id == desk {
            let mut dk = desks.remove(i);
            if kind == 0 {
                dk.cards = cards_without(&dk.cards, card);
            } else if kind == 1 {
                let mut c = cards_without(&dk.cards, card);
                c.push((card, pos));
                dk.cards = c;
            } else if kind == 2 {
                dk.name = copy_name(new_name);
            } else {
                dk.cards = cards_moved(&dk.cards, card, pos);
            }
            desks.insert(i, dk);
        }
        i = i + 1;
    }
    proof {
        let want = Seq::new(
            d0.len(),
            |i: int|
                if d0[i].id == desk {
                    changed(d0[i].model(), ch)
                } else {
                    d0[i].model()
                },
        );
        assert(desks_model(desks@) =~= want);
    }
}


/// A `String` holding `s`.
fn owned(s: &str) -> (r: String)
    ensures
        r@ == s@,
{
    let v = chars_of(s);
    string_from_chars(&v)
}

/// The desks after a rail event, and the journal entry it records.
pub open spec fn rail_outcome<P>(
    d: Seq<DeskModel<P>>,
    ev: RailEvent<P>,
    new_id: DeskId,
    origin: P,
) -> Seq<DeskModel<P>> {
    match ev {
        RailEvent::CreateDesk => d.push(
            DeskModel {
                id: new_id,
                name: "Desk "@ + crate::text::decimal(d.len() + 1),
                center: origin,
                cards: Seq::empty(),
            },
        ),
        RailEvent::RenameDesk { id, name } => renamed(d, id, name@),
        RailEvent::ReorderDesk { id, to } => reordered(
            d,
            match desk_index(d, id) {
                Some(k) => k,
                None => 0,
            },
            to as int,
        ),
        RailEvent::CardDroppedOnInbox { id, source_desk, .. } => put_away(d, source_desk, id),
        RailEvent::CardDroppedOnDesk { target_desk, id, source_desk, .. } => placed(
            put_away(d, source_desk, id),
            target_desk,
            id,
            desk_center(d, target_desk, origin),
        ),
    }
}

/// The journal entry a rail event records, given the desks before it and
/// the desk on screen (`current_desk`).
pub open spec fn rail_entry_ok<P>(
    e: JournalEntry<InverseAction<SessionOp<P>>>,
    d: Seq<DeskModel<P>>,
    ev: RailEvent<P>,
    current_desk: Option<DeskId>,
    new_id: DeskId,
    origin: P,
) -> bool {
    let here = OpContext { desk: current_desk, note: None };
    match ev {
        RailEvent::CreateDesk => e.label@ == "Create desk"@ && e.context == here && e.inverse
            == InverseAction::<SessionOp<P>>::Session(SessionOp::DeleteDesk { id: new_id }),
        RailEvent::RenameDesk { id, name } => {
            &&& e.label@ == "Rename desk"@
            &&& e.context == here
            &&& e.inverse matches InverseAction::Session(SessionOp::RenameDesk { id: i, from, to })
            &&& i == id
            &&& from@ == name@
            &&& to@ == desk_name(d, id)
        },
        RailEvent::ReorderDesk { id, to } => e.label@ == "Reorder desk"@ && e.context == here
            && e.inverse == InverseAction::<SessionOp<P>>::Session(
            SessionOp::ReorderDesk {
                id,
                from_index: to,
                to_index: match desk_index(d, id) {
                    Some(k) => k as usize,
                    None => 0,
                },
            },
        ),
        RailEvent::CardDroppedOnInbox { id, source_desk, was_at } => e.label@ == "Put card away"@
            && e.context == (OpContext { desk: Some(source_desk), note: Some(id) }) && e.inverse
            == InverseAction::<SessionOp<P>>::Session(SessionOp::Place { desk: source_desk, id, pos: was_at }),
        RailEvent::CardDroppedOnDesk { target_desk, id, source_desk, was_at } => {
            &&& e.label@ == "Move card to desk '"@ + desk_name(d, target_desk) + "'"@
            &&& e.context == (OpContext { desk: Some(source_desk), note: Some(id) })
            &&& e.inverse == InverseAction::<SessionOp<P>>::Session(
                SessionOp::Place { desk: source_desk, id, pos: was_at },
            )
        },
    }
}

/// Applies rail event `ev` to the desks and journals it as one undoable
/// step (the redo history is dropped). `current_desk` is the desk on
/// screen, `new_id` the id a created desk gets and `origin` the viewport
/// centre it starts with (and the centre assumed for a missing desk).
/// - Create desk: appends `Desk <n+1>` and returns it, to switch to;
///   undone by deleting it.
/// - Rename desk / Reorder desk: renames, or moves the desk (from where it
///   is, index 0 when missing) to the given index when both are in range;
///   undone by the reverse rename or move.
/// - A card dropped on the Inbox row leaves its desk: "Put card away",
///   undone by placing it back where it was.
/// - A card dropped on another desk's row leaves its desk and lands at the
///   target desk's viewport centre: one entry "Move card to desk '<name>'"
///   whose inverse places it back on its desk at its old place.
pub fn rail_event_step<P: Copy>(
    desks: &mut Vec<DeskCards<P>>,
    journal: &mut Journal<InverseAction<SessionOp<P>>>,
    current_desk: Option<DeskId>,
    ev: RailEvent<P>,
    new_id: DeskId,
    origin: P,
) -> (switch_to: Option<DeskId>)
    requires
        old(desks)@.len() < usize::MAX,
    ensures
        desks_model(final(desks)@) == rail_outcome(desks_model(old(desks)@), ev, new_id, origin),
        final(journal)@.undo.len() == old(journal)@.undo.len() + 1,
        final(journal)@.undo.drop_last() == old(journal)@.undo,
        final(journal)@.redo.len() == 0,
        rail_entry_ok(
            final(journal)@.undo.last(),
            desks_model(old(desks)@),
            ev,
            current_desk,
            new_id,
            origin,
        ),
        switch_to == (if ev is CreateDesk { Some(new_id) } else { None }),
{
    let ghost d = desks_model(desks@);
    let ghost u0 = journal@.undo;
    let here = OpContext { desk: current_desk, note: None };
    let no_name = String::new();
    match ev {
        RailEvent::CreateDesk => {
            let name = new_desk_name(desks.len());
            desks.push(DeskCards { id: new_id, name, center: origin, cards: Vec::new() });
            proof {
                assert(desks_model(desks@) =~= rail_outcome(d, ev, new_id, origin));
            }
            journal.push(
                JournalEntry {
                    label: owned("Create desk"),
                    inverse: InverseAction::Session(SessionOp::DeleteDesk { id: new_id }),
                    context: here,
                },
            );
            proof {
                assert(journal@.undo.drop_last() =~= u0);
            }
            Some(new_id)
        },
        RailEvent::RenameDesk { id, name } => {
            let from = match find_desk(desks, id) {
                Some(k) => copy_name(&desks[k].name),
                None => String::new(),
            };
            change_desks(desks, id, NoteId(0), origin, &name, 2, Ghost(DeskChange::Rename(name@)));
            proof {
                assert(desks_model(desks@) =~= rail_outcome(d, ev, new_id, origin));
            }
            journal.push(
                JournalEntry {
                    label: owned("Rename desk"),
                    inverse: InverseAction::Session(SessionOp::RenameDesk { id, from: name, to: from }),
                    context: here,
                },
            );
            proof {
                assert(journal@.undo.drop_last() =~= u0);
            }
            None
        },
        RailEvent::ReorderDesk { id, to } => {
            let from = match find_desk(desks, id) {
                Some(k) => k,
                None => 0,
            };
            if from < desks.len() && to < desks.len() {
                let dk = desks.remove(from);
                desks.insert(to, dk);
            }
            proof {
                assert(desks_model(desks@) =~= rail_outcome(d, ev, new_id, origin));
            }
            journal.push(
                JournalEntry {
                    label: owned("Reorder desk"),
                    inverse: InverseAction::Session(SessionOp::ReorderDesk { id, from_index: to, to_index: from }),
                    context: here,
                },
            );
            proof {
                assert(journal@.undo.drop_last() =~= u0);
            }
            None
        },
        RailEvent::CardDroppedOnInbox { id, source_desk, was_at } => {
            change_desks(desks, source_desk, id, was_at, &no_name, 0, Ghost(DeskChange::PutAway(id)));
            proof {
                assert(desks_model(desks@) =~= rail_outcome(d, ev, new_id, origin));
            }
            journal.push(
                JournalEntry {
                    label: owned("Put card away"),
                    inverse: InverseAction::Session(SessionOp::Place { desk: source_desk, id, pos: was_at }),
                    context: OpContext { desk: Some(source_desk), note: Some(id) },
                },
            );
            proof {
                assert(journal@.undo.drop_last() =~= u0);
            }
            None
        },
        RailEvent::CardDroppedOnDesk { target_desk, id, source_desk, was_at } => {
            let (target_name, target_center) = match find_desk(desks, target_desk) {
                Some(k) => (copy_name(&desks[k].name), desks[k].center),
                None => (String::new(), origin),
            };
            change_desks(desks, source_desk, id, was_at, &no_name, 0, Ghost(DeskChange::PutAway(id)));
            let ghost mid = desks_model(desks@);
            proof {
                assert(mid =~= put_away(d, source_desk, id));
            }
            change_desks(
                desks,
                target_desk,
                id,
                target_center,
                &no_name,
                1,
                Ghost(DeskChange::Place(id, target_center)),
            );
            proof {
                assert(desks_model(desks@) =~= rail_outcome(d, ev, new_id, origin));
            }
            journal.push(
                JournalEntry {
                    label: move_card_label(target_name.as_str()),
                    inverse: InverseAction::Session(SessionOp::Place { desk: source_desk, id, pos: was_at }),
                    context: OpContext { desk: Some(source_desk), note: Some(id) },
                },
            );
            proof {
                assert(journal@.undo.drop_last() =~= u0);
            }
            None
        },
    }
}


/// Where card `id` stands in `cards` (its first entry), if it is there.
pub open spec fn card_pos<P>(cards: Seq<(NoteId, P)>, id: NoteId) -> Option<P>
    decreases cards.len(),
{
    if cards.len() == 0 {
        None
    } else if cards[0].0 == id {
        Some(cards[0].1)
    } else {
        card_pos(cards.skip(1), id)
    }
}

/// Where card `id` stands on the first desk with id `desk`, if it is there.
pub open spec fn pos_on_desk<P>(d: Seq<DeskModel<P>>, desk: DeskId, id: NoteId) -> Option<P> {
    match desk_index(d, desk) {
        Some(k) => card_pos(d[k].cards, id),
        None => None,
    }
}

/// Where card `id` stands in `cards`.
fn find_card<P: Copy>(cards: &Vec<(NoteId, P)>, id: NoteId) -> (r: Option<P>)
    ensures
        r == card_pos(cards@, id),
{
    let mut i: usize = 0;
    proof {
        assert(cards@.skip(0) =~= cards@);
    }
    while i < cards.len()
        invariant
            i <= cards@.len(),
            card_pos(cards@, id) == card_pos(cards@.skip(i as int), id),
        decreases cards@.len() - i,
    {
        proof {
            assert(cards@.skip(i as int).skip(1) =~= cards@.skip(i + 1));
            assert(cards@.skip(i as int)[0] == cards@[i as int]);
        }
        if cards[i].0 == id {
            return Some(cards[i].1);
        }
        i = i + 1;
    }
    None
}

/// How a note reached a desk from the palette.
#[derive(Debug, PartialEq, Eq)]
pub enum Arrival<P> {
    /// It was already there, at this position: the view pans to it and
    /// nothing is journaled.
    Pan(P),
    /// It was placed at the desk's viewport centre ("Place card").
    Placed,
}

/// Brings note `id` to `desk` for the palette: when the note is already on
/// that desk the desks and the journal stay exactly as they were and its
/// position is returned to pan to; otherwise it is placed at the desk's
/// viewport centre (`origin` for a missing desk) and journaled as
/// "Place card", undone by putting it away again.
pub fn bring_note_to_desk<P: Copy>(
    desks: &mut Vec<DeskCards<P>>,
    journal: &mut Journal<InverseAction<SessionOp<P>>>,
    desk: DeskId,
    id: NoteId,
    origin: P,
) -> (a: Arrival<P>)
    ensures
        ({
            let d = desks_model(old(desks)@);
            let c = desk_center(d, desk, origin);
            &&& pos_on_desk(d, desk, id) matches Some(p) ==> {
                &&& a == Arrival::Pan(p)
                &&& desks_model(final(desks)@) == d
                &&& final(journal)@.undo == old(journal)@.undo
                &&& final(journal)@.redo == old(journal)@.redo
            }
            &&& pos_on_desk(d, desk, id) is None ==> {
                &&& a == Arrival::<P>::Placed
                &&& desks_model(final(desks)@) == placed(d, desk, id, c)
                &&& final(journal)@.undo.drop_last() == old(journal)@.undo
                &&& final(journal)@.undo.len() == old(journal)@.undo.len() + 1
                &&& final(journal)@.undo.last().label@ == "Place card"@
                &&& final(journal)@.undo.last().inverse == InverseAction::<SessionOp<P>>::Session(
                    SessionOp::PutAway { desk, id, was_at: c },
                )
                &&& final(journal)@.undo.last().context == (OpContext { desk: Some(desk), note: Some(id) })
                &&& final(journal)@.redo.len() == 0
            }
        }),
{
    let ghost d = desks_model(desks@);
    let ghost u0 = journal@.undo;
    let (at, center) = match find_desk(desks, desk) {
        Some(k) => (find_card(&desks[k].cards, id), desks[k].center),
        None => (None, origin),
    };
    match at {
        Some(p) => Arrival::Pan(p),
        None => {
            let no_name = String::new();
            change_desks(desks, desk, id, center, &no_name, 1, Ghost(DeskChange::Place(id, center)));
            proof {
                assert(desks_model(desks@) =~= placed(d, desk, id, center));
            }
            journal.push(
                JournalEntry {
                    label: owned("Place card"),
                    inverse: InverseAction::Session(SessionOp::PutAway { desk, id, was_at: center }),
                    context: OpContext { desk: Some(desk), note: Some(id) },
                },
            );
            proof {
                assert(journal@.undo.drop_last() =~= u0);
            }
            Arrival::Placed
        },
    }
}


/// Puts card `id` on `desk` at `pos` and journals it as "Place card" under
/// `context`, undone by putting it away again.
fn place_journaled<P: Copy>(
    desks: &mut Vec<DeskCards<P>>,
    journal: &mut Journal<InverseAction<SessionOp<P>>>,
    desk: DeskId,
    id: NoteId,
    pos: P,
    context: OpContext,
)
    ensures
        desks_model(final(desks)@) == placed(desks_model(old(desks)@), desk, id, pos),
        final(journal)@.undo == old(journal)@.undo.push(
            JournalEntry {
                label: final(journal)@.undo.last().label,
                inverse: InverseAction::Session(SessionOp::PutAway { desk, id, was_at: pos }),
                context,
            },
        ),
        final(journal)@.undo.last().label@ == "Place card"@,
        final(journal)@.redo.len() == 0,
{
    let ghost d = desks_model(desks@);
    let no_name = String::new();
    change_desks(desks, desk, id, pos, &no_name, 1, Ghost(DeskChange::Place(id, pos)));
    proof {
        assert(desks_model(desks@) =~= placed(d, desk, id, pos));
    }
    journal.push(
        JournalEntry {
            label: owned("Place card"),
            inverse: InverseAction::Session(SessionOp::PutAway { desk, id, was_at: pos }),
            context,
        },
    );
}

/// The desks after card `id` on every desk with id `desk` is moved to `to`.
pub open spec fn moved_on<P>(d: Seq<DeskModel<P>>, desk: DeskId, id: NoteId, to: P) -> Seq<DeskModel<P>> {
    Seq::new(
        d.len(),
        |i: int|
            if d[i].id == desk {
                DeskModel { id: d[i].id, name: d[i].name, center: d[i].center, cards: moved(d[i].cards, id, to) }
            } else {
                d[i]
            },
    )
}

/// A card dragged on `desk` from `from` to `to`: it moves there, journaled
/// as "Move card" (context: that desk and card), undone by moving it back.
pub fn move_card_step<P: Copy>(
    desks: &mut Vec<DeskCards<P>>,
    journal: &mut Journal<InverseAction<SessionOp<P>>>,
    desk: DeskId,
    id: NoteId,
    from: P,
    to: P,
)
    ensures
        desks_model(final(desks)@) == moved_on(desks_model(old(desks)@), desk, id, to),
        final(journal)@.undo.len() == old(journal)@.undo.len() + 1,
        final(journal)@.undo.drop_last() == old(journal)@.undo,
        final(journal)@.undo.last().label@ == "Move card"@,
        final(journal)@.undo.last().inverse == InverseAction::<SessionOp<P>>::Session(
            SessionOp::Move { desk, id, from: to, to: from },
        ),
        final(journal)@.undo.last().context == (OpContext { desk: Some(desk), note: Some(id) }),
        final(journal)@.redo.len() == 0,
{
    let ghost d = desks_model(desks@);
    let ghost u0 = journal@.undo;
    let no_name = String::new();
    change_desks(desks, desk, id, to, &no_name, 3, Ghost(DeskChange::MoveTo(id, to)));
    proof {
        assert(desks_model(desks@) =~= moved_on(d, desk, id, to));
    }
    journal.push(
        JournalEntry {
            label: owned("Move card"),
            inverse: InverseAction::Session(SessionOp::Move { desk, id, from: to, to: from }),
            context: OpContext { desk: Some(desk), note: Some(id) },
        },
    );
    proof {
        assert(journal@.undo.drop_last() =~= u0);
    }
}

/// Take to Desk and Put Away from a card's menu, on the desk `current_desk`
/// (`None` on the Inbox).
/// - Take to Desk from a desk: as if the card were dragged onto the target
///   desk's rail row (see `rail_event_step`), from where it stands (`origin`
///   when it is not there).
/// - Take to Desk from the Inbox: placed at the target desk's viewport
///   centre, journaled "Place card".
/// - Put Away on a desk: taken off it, journaled "Put card away", undone by
///   placing it back where it stood.
/// Anything else, and Put Away off a desk, changes nothing.
pub fn card_menu_desk_step<P: Copy>(
    desks: &mut Vec<DeskCards<P>>,
    journal: &mut Journal<InverseAction<SessionOp<P>>>,
    ev: CardMenuEvent,
    current_desk: Option<DeskId>,
    origin: P,
)
    requires
        old(desks)@.len() < usize::MAX,
    ensures
        ({
            let d = desks_model(old(desks)@);
            &&& current_desk is Some ==> (ev matches CardMenuEvent::TakeToDesk { id, desk } ==> {
                let src = current_desk->0;
                let was = match pos_on_desk(d, src, id) {
                    Some(p) => p,
                    None => origin,
                };
                let rev = RailEvent::CardDroppedOnDesk { target_desk: desk, id, source_desk: src, was_at: was };
                &&& desks_model(final(desks)@) == rail_outcome(d, rev, DeskId(0), origin)
                &&& final(journal)@.undo.len() == old(journal)@.undo.len() + 1
                &&& final(journal)@.undo.drop_last() == old(journal)@.undo
                &&& final(journal)@.redo.len() == 0
                &&& rail_entry_ok(final(journal)@.undo.last(), d, rev, current_desk, DeskId(0), origin)
            })
            &&& current_desk is None ==> (ev matches CardMenuEvent::TakeToDesk { id, desk } ==> {
                let c = desk_center(d, desk, origin);
                &&& desks_model(final(desks)@) == placed(d, desk, id, c)
                &&& final(journal)@.undo.len() == old(journal)@.undo.len() + 1
                &&& final(journal)@.undo.drop_last() == old(journal)@.undo
                &&& final(journal)@.redo.len() == 0
                &&& final(journal)@.undo.last().label@ == "Place card"@
                &&& final(journal)@.undo.last().inverse == InverseAction::<SessionOp<P>>::Session(
                    SessionOp::PutAway { desk, id, was_at: c },
                )
                &&& final(journal)@.undo.last().context == (OpContext { desk: None, note: Some(id) })
            })
            &&& current_desk is Some ==> (ev matches CardMenuEvent::PutAway(id) ==> {
                let dk = current_desk->0;
                let was = match pos_on_desk(d, dk, id) {
                    Some(p) => p,
                    None => origin,
                };
                &&& desks_model(final(desks)@) == put_away(d, dk, id)
                &&& final(journal)@.undo.len() == old(journal)@.undo.len() + 1
                &&& final(journal)@.undo.drop_last() == old(journal)@.undo
                &&& final(journal)@.redo.len() == 0
                &&& final(journal)@.undo.last().label@ == "Put card away"@
                &&& final(journal)@.undo.last().inverse == InverseAction::<SessionOp<P>>::Session(
                    SessionOp::Place { desk: dk, id, pos: was },
                )
                &&& final(journal)@.undo.last().context == (OpContext { desk: Some(dk), note: Some(id) })
            })
            &&& !(ev is TakeToDesk || (ev is PutAway && current_desk is Some)) ==> {
                &&& desks_model(final(desks)@) == d
                &&& final(journal)@.undo == old(journal)@.undo
                &&& final(journal)@.redo == old(journal)@.redo
            }
        }),
{
    let ghost d = desks_model(desks@);
    let ghost u0 = journal@.undo;
    match ev {
        CardMenuEvent::TakeToDesk { id, desk } => {
            match current_desk {
                Some(src) => {
                    let was = match find_desk(desks, src) {
                        Some(k) => match find_card(&desks[k].cards, id) {
                            Some(p) => p,
                            None => origin,
                        },
                        None => origin,
                    };
                    let rev = RailEvent::CardDroppedOnDesk { target_desk: desk, id, source_desk: src, was_at: was };
                    rail_event_step(desks, journal, current_desk, rev, DeskId(0), origin);
                },
                None => {
                    let c = match find_desk(desks, desk) {
                        Some(k) => desks[k].center,
                        None => origin,
                    };
                    place_journaled(desks, journal, desk, id, c, OpContext { desk: None, note: Some(id) });
                    proof {
                        assert(journal@.undo.drop_last() =~= u0);
                    }
                },
            }
        },
        CardMenuEvent::PutAway(id) => {
            if let Some(dk) = current_desk {
                let was = match find_desk(desks, dk) {
                    Some(k) => match find_card(&desks[k].cards, id) {
                        Some(p) => p,
                        None => origin,
                    },
                    None => origin,
                };
                let no_name = String::new();
                change_desks(desks, dk, id, was, &no_name, 0, Ghost(DeskChange::PutAway(id)));
                proof {
                    assert(desks_model(desks@) =~= put_away(d, dk, id));
                }
                journal.push(
                    JournalEntry {
                        label: owned("Put card away"),
                        inverse: InverseAction::Session(SessionOp::Place { desk: dk, id, pos: was }),
                        context: OpContext { desk: Some(dk), note: Some(id) },
                    },
                );
                proof {
                    assert(journal@.undo.drop_last() =~= u0);
                }
            }
        },
        _ => {},
    }
}

/// A card being dragged on a desk: which card, and where it stood.
#[derive(Debug, Clone, Copy, PartialEq, Eq)]
pub struct CardDrag<P> {
    pub id: NoteId,
    pub from: P,
}

/// What a drag asks of the app.
#[derive(Debug)]
pub enum DragOutcome<P> {
    /// The pressed card takes the focus.
    Focus(NoteId),
    /// Move the card within the desk (see `move_card_step`).
    Move { desk: DeskId, id: NoteId, from: P, to: P },
    /// The card was dropped on a rail row (see `rail_event_step`).
    Rail(RailEvent<P>),
}

/// What releasing drag `g` far enough from where it started does: dropped
/// on the Inbox row it is put away; on another desk's row it moves there;
/// anywhere else (its own desk's row included) it moves to `to`.
pub open spec fn release_outcome<P>(desk: DeskId, g: CardDrag<P>, drop: Option<RailDropTarget>, to: P) -> DragOutcome<P> {
    match drop {
        Some(RailDropTarget::Inbox) => DragOutcome::Rail(
            RailEvent::CardDroppedOnInbox { id: g.id, source_desk: desk, was_at: g.from },
        ),
        Some(RailDropTarget::Desk(t)) => if t != desk {
            DragOutcome::Rail(RailEvent::CardDroppedOnDesk { target_desk: t, id: g.id, source_desk: desk, was_at: g.from })
        } else {
            DragOutcome::Move { desk, id: g.id, from: g.from, to }
        },
        None => DragOutcome::Move { desk, id: g.id, from: g.from, to },
    }
}

/// One frame of dragging on `desk`. `pressed_on`: the primary button went
/// down over this card; unless the palette is open, that card (if it is on
/// the desk) starts a drag from where it stands and takes the focus.
/// `released`: the button came up; a drag in progress ends, and if it went
/// far enough (`far`: four pixels or more, with the pointer known) it
/// drops on `drop` (a rail row under the pointer, if any) or moves to `to`
/// (where the pointer puts it); a shorter one was just a click.
pub fn desk_drag_step<P: Copy>(
    desk: &DeskCards<P>,
    drag: &mut Option<CardDrag<P>>,
    focus: &mut Option<NoteId>,
    palette_open: bool,
    pressed_on: Option<NoteId>,
    released: bool,
    far: bool,
    drop: Option<RailDropTarget>,
    to: P,
) -> (out: Vec<DragOutcome<P>>)
    ensures
        ({
            let start = !palette_open && pressed_on is Some && card_pos(desk.cards@, pressed_on->0) is Some;
            let g1 = if start {
                Some(CardDrag { id: pressed_on->0, from: card_pos(desk.cards@, pressed_on->0)->0 })
            } else {
                *old(drag)
            };
            let e1: Seq<DragOutcome<P>> = if start && *old(focus) != pressed_on {
                seq![DragOutcome::Focus(pressed_on->0)]
            } else {
                seq![]
            };
            let ends = released && g1 is Some;
            let e2: Seq<DragOutcome<P>> = if ends && far {
                seq![release_outcome(desk.id, g1->0, drop, to)]
            } else {
                seq![]
            };
            &&& *final(focus) == (if start { pressed_on } else { *old(focus) })
            &&& *final(drag) == (if ends { None } else { g1 })
            &&& out@ == e1 + e2
        }),
{
    let mut out: Vec<DragOutcome<P>> = Vec::new();
    if !palette_open {
        if let Some(c) = pressed_on {
            if let Some(p) = find_card(&desk.cards, c) {
                *drag = Some(CardDrag { id: c, from: p });
                if *focus != Some(c) {
                    *focus = Some(c);
                    out.push(DragOutcome::Focus(c));
                } else {
                    *focus = Some(c);
                }
            }
        }
    }
    let ghost o1 = out@;
    if released {
        if let Some(g) = *drag {
            *drag = None;
            if far {
                let o = match drop {
                    Some(RailDropTarget::Inbox) => DragOutcome::Rail(
                        RailEvent::CardDroppedOnInbox { id: g.id, source_desk: desk.id, was_at: g.from },
                    ),
                    Some(RailDropTarget::Desk(t)) => {
                        if t != desk.id {
                            DragOutcome::Rail(
                                RailEvent::CardDroppedOnDesk { target_desk: t, id: g.id, source_desk: desk.id, was_at: g.from },
                            )
                        } else {
                            DragOutcome::Move { desk: desk.id, id: g.id, from: g.from, to }
                        }
                    },
                    None => DragOutcome::Move { desk: desk.id, id: g.id, from: g.from, to },
                };
                out.push(o);
            }
        }
    }
    out
}


/// The desk a split lands on: the desk on screen, else the first desk.
pub open spec fn split_desk<P>(d: Seq<DeskModel<P>>, current_desk: Option<DeskId>) -> Option<DeskId> {
    match current_desk {
        Some(k) => Some(k),
        None => if d.len() > 0 { Some(d[0].id) } else { None },
    }
}

/// Where a split lands: the desk, and where the original card stands on
/// it (the split-off card goes beside it, see `place_card`).
#[derive(Debug, Clone, Copy, PartialEq, Eq)]
pub struct SplitTarget<P> {
    pub desk: DeskId,
    pub at: P,
}

/// What placing a split does: where the split-off card should go beside,
/// and the message to show.
#[derive(Debug)]
pub struct SplitStep<P> {
    pub target: Option<SplitTarget<P>>,
    pub echo: Option<String>,
}

/// After an operation finished: when it was the user's split of card
/// `pending_split` and it created a card, the split is placed on the desk
/// on screen, else on the first desk, unjournaled (its undo rides the
/// split itself). The original stays where it stands there, or is placed
/// at the viewport centre when it is not there; the result says where it
/// stands, for the split-off card to be put beside it (`place_card`).
/// Away from a desk the message names the desk; with no desk at all
/// nothing is placed and the message says so. A user operation always
/// clears `pending_split`; other operations change nothing.
pub fn split_placement_step<P: Copy>(
    desks: &mut Vec<DeskCards<P>>,
    pending_split: &mut Option<NoteId>,
    user: bool,
    created: &[NoteId],
    current_desk: Option<DeskId>,
    origin: P,
) -> (r: SplitStep<P>)
    ensures
        !user ==> *final(pending_split) == *old(pending_split),
        user ==> *final(pending_split) is None,
        !(user && (*old(pending_split)) is Some && created@.len() > 0) ==> desks_model(final(desks)@)
            == desks_model(old(desks)@) && r.echo is None && r.target is None,
        user && (*old(pending_split)) is Some && created@.len() > 0 ==> ({
            let d = desks_model(old(desks)@);
            let orig = (*old(pending_split))->0;
            match split_desk(d, current_desk) {
                None => {
                    &&& desks_model(final(desks)@) == d
                    &&& r.target is None
                    &&& r.echo matches Some(e) && e@ == "Split cards are in the vault (no desk to place them)"@
                },
                Some(dk) => {
                    let at = pos_on_desk(d, dk, orig);
                    let o = match at {
                        Some(p) => p,
                        None => desk_center(d, dk, origin),
                    };
                    &&& desks_model(final(desks)@) == (if at is Some { d } else { placed(d, dk, orig, o) })
                    &&& r.target == Some(SplitTarget { desk: dk, at: o })
                    &&& current_desk is None ==> (r.echo matches Some(e) && e@ == "Split placed on desk '"@
                        + desk_name(d, dk) + "'"@)
                    &&& current_desk is Some ==> r.echo is None
                },
            }
        }),
{
    if !user {
        return SplitStep { target: None, echo: None };
    }
    let orig = match *pending_split {
        Some(o) => o,
        None => {
            return SplitStep { target: None, echo: None };
        },
    };
    *pending_split = None;
    if created.len() == 0 {
        return SplitStep { target: None, echo: None };
    }
    let ghost d = desks_model(desks@);
    let dk = match current_desk {
        Some(k) => k,
        None => {
            if desks.len() > 0 {
                desks[0].id
            } else {
                return SplitStep {
                    target: None,
                    echo: Some(owned("Split cards are in the vault (no desk to place them)")),
                };
            }
        },
    };
    let (at, center, name) = match find_desk(desks, dk) {
        Some(k) => (find_card(&desks[k].cards, orig), desks[k].center, copy_name(&desks[k].name)),
        None => (None, origin, String::new()),
    };
    let o = match at {
        Some(p) => p,
        None => {
            let no_name = String::new();
            change_desks(desks, dk, orig, center, &no_name, 1, Ghost(DeskChange::Place(orig, center)));
            proof {
                assert(desks_model(desks@) =~= placed(d, dk, orig, center));
            }
            center
        },
    };
    let echo = match current_desk {
        Some(_) => None,
        None => {
            let mut v: Vec<char> = Vec::new();
            extend_str(&mut v, "Split placed on desk '");
            extend_str(&mut v, name.as_str());
            extend_str(&mut v, "'");
            Some(string_from_chars(&v))
        },
    };
    SplitStep { target: Some(SplitTarget { desk: dk, at: o }), echo }
}

/// Puts card `id` on every desk with id `desk` at `pos`, unjournaled.
pub fn place_card<P: Copy>(desks: &mut Vec<DeskCards<P>>, desk: DeskId, id: NoteId, pos: P)
    ensures
        desks_model(final(desks)@) == placed(desks_model(old(desks)@), desk, id, pos),
{
    let ghost d = desks_model(desks@);
    let no_name = String::new();
    change_desks(desks, desk, id, pos, &no_name, 1, Ghost(DeskChange::Place(id, pos)));
    proof {
        assert(desks_model(desks@) =~= placed(d, desk, id, pos));
    }
}

} // verus!
