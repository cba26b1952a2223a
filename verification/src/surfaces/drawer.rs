//! The drawer surface: filter chips and the filtered, newest-first note list.
use crate::ids::contains_id;
use crate::surfaces::inbox::{linear_focus, move_linear_focus};
use crate::note::{DeskId, Kind, NoteId, Status};
use crate::sort::{sort_by_key, sorted_by_key, SortKey};
use crate::text::{decimal, extend_str, push_decimal, string_from_chars};
use vstd::prelude::*;

verus! {

/// The chip row's state — active chips compose with AND.
#[derive(Clone, Default)]
pub struct DrawerFilters {
    /// Status chips.
    pub scraps: bool,
    pub cards: bool,
    /// Kind chips.
    pub notes: bool,
    pub literature: bool,
    pub dividers: bool,
    /// Tag chip (picked from the tag popup; None = chip not active).
    pub tag: Option<String>,
    /// No outgoing links AND no backlinks.
    pub unlinked: bool,
    /// Conflicted notes (plus quarantined files, listed separately).
    pub needs_attention: bool,
}

impl DrawerFilters {
    /// Whether any chip is active.
    pub fn any_active(&self) -> (b: bool)
        ensures
            b == (self.scraps || self.cards || self.notes || self.literature || self.dividers
                || self.tag is Some || self.unlinked || self.needs_attention),
    {
        self.scraps || self.cards || self.notes || self.literature || self.dividers
            || self.tag.is_some() || self.unlinked || self.needs_attention
    }
}

/// One indexed note as the drawer's chips read it.
#[derive(Clone, Copy, Debug, PartialEq, Eq, Structural)]
pub struct DrawerNote {
    pub id: NoteId,
    pub status: Status,
    pub kind: Kind,
    /// Creation and last-modification times (seconds).
    pub created: i64,
    pub modified: i64,
    /// One of the note's tags matches the tag chip's tag.
    pub tag_match: bool,
    /// The note has no outgoing links and no backlinks.
    pub unlinked: bool,
}

/// `n` passes every active chip.
pub open spec fn passes(n: DrawerNote, f: DrawerFilters, conflicts: Seq<NoteId>) -> bool {
    &&& !f.scraps || n.status == Status::Fleeting
    &&& !f.cards || n.status == Status::Permanent
    &&& !f.notes || n.kind == Kind::Note
    &&& !f.literature || n.kind == Kind::Literature
    &&& !f.dividers || n.kind == Kind::Structure
    &&& f.tag is None || n.tag_match
    &&& !f.unlinked || n.unlinked
    &&& !f.needs_attention || conflicts.contains(n.id)
}

/// Drawer order: newest-modified first, then newest-created, then id.
pub open spec fn drawer_key(n: DrawerNote) -> SortKey {
    SortKey { first: (-n.modified) as i128, second: (-n.created) as i128, third: 0, id: n.id.0 }
}

/// The passing notes, in input order, keyed for the drawer order.
pub open spec fn drawer_selection(
    notes: Seq<DrawerNote>,
    f: DrawerFilters,
    conflicts: Seq<NoteId>,
) -> Seq<(SortKey, NoteId)>
    decreases notes.len(),
{
    if notes.len() == 0 {
        Seq::empty()
    } else {
        let before = drawer_selection(notes.drop_last(), f, conflicts);
        if passes(notes.last(), f, conflicts) {
            before.push((drawer_key(notes.last()), notes.last().id))
        } else {
            before
        }
    }
}

fn passes_exec(n: &DrawerNote, f: &DrawerFilters, conflicts: &[NoteId]) -> (b: bool)
    ensures
        b == passes(*n, *f, conflicts@),
{
    (!f.scraps || n.status == Status::Fleeting) && (!f.cards || n.status == Status::Permanent)
        && (!f.notes || n.kind == Kind::Note) && (!f.literature || n.kind == Kind::Literature)
        && (!f.dividers || n.kind == Kind::Structure) && (f.tag.is_none() || n.tag_match) && (
    !f.unlinked || n.unlinked) && (!f.needs_attention || contains_id(conflicts, n.id))
}

/// The Drawer's note list: every note passing all active chips,
/// newest-modified first (tie: created desc, then id for determinism).
pub fn drawer_ids(notes: &[DrawerNote], filters: &DrawerFilters, conflicts: &[NoteId]) -> (r: Vec<
    NoteId,
>)
    ensures
        exists|s: Seq<(SortKey, NoteId)>|
            {
                &&& s.to_multiset() == drawer_selection(notes@, *filters, conflicts@).to_multiset()
                &&& sorted_by_key(s)
                &&& r@ == s.map_values(|p: (SortKey, NoteId)| p.1)
            },
{
    let mut items: Vec<(SortKey, NoteId)> = Vec::new();
    let mut i: usize = 0;
    while i < notes.len()
        invariant
            i <= notes@.len(),
            items@ == drawer_selection(notes@.take(i as int), *filters, conflicts@),
        decreases notes@.len() - i,
    {
        let n = notes[i];
        proof {
            assert(notes@.take(i + 1).drop_last() =~= notes@.take(i as int));
            assert(notes@.take(i + 1).last() == n);
        }
        if passes_exec(&n, filters, conflicts) {
            items.push(
                (SortKey { first: -(n.modified as i128), second: -(n.created as i128), third: 0, id: n.id.0 }, n.id),
            );
        }
        i = i + 1;
    }
    proof {
        assert(notes@.take(notes@.len() as int) =~= notes@);
    }
    let sorted = sort_by_key(items);
    let mut r: Vec<NoteId> = Vec::new();
    let mut k: usize = 0;
    while k < sorted.len()
        invariant
            k <= sorted@.len(),
            r@ == sorted@.take(k as int).map_values(|p: (SortKey, NoteId)| p.1),
        decreases sorted@.len() - k,
    {
        r.push(sorted[k].1);
        proof {
            assert(sorted@.take(k + 1).map_values(|p: (SortKey, NoteId)| p.1) =~= sorted@.take(
                k as int,
            ).map_values(|p: (SortKey, NoteId)| p.1).push(sorted@[k as int].1));
        }
        k = k + 1;
    }
    proof {
        assert(sorted@.take(sorted@.len() as int) =~= sorted@);
    }
    r
}

/// A filter chip's text and accessible label: `<name> ×` while active, the
/// bare name otherwise; `Filter: <name>, active|inactive`.
pub fn chip_labels(name: &str, active: bool) -> (r: (String, String))
    ensures
        r.0@ == (if active { name@ + " ×"@ } else { name@ }),
        r.1@ == "Filter: "@ + name@ + (if active { ", active"@ } else { ", inactive"@ }),
{
    let mut text: Vec<char> = Vec::new();
    extend_str(&mut text, name);
    if active {
        extend_str(&mut text, " ×");
    }
    let mut label: Vec<char> = Vec::new();
    extend_str(&mut label, "Filter: ");
    extend_str(&mut label, name);
    if active {
        extend_str(&mut label, ", active");
    } else {
        extend_str(&mut label, ", inactive");
    }
    (string_from_chars(&text), string_from_chars(&label))
}

/// The tag chip's text and accessible label: `#<tag> ×` and
/// `Filter: #<tag>, active` while a tag filters; `Tag…` and
/// `Filter: Tag picker` otherwise.
pub fn tag_chip_labels(tag: Option<&str>) -> (r: (String, String))
    ensures
        tag matches Some(t) ==> r.0@ == "#"@ + t@ + " ×"@ && r.1@ == "Filter: #"@ + t@ + ", active"@,
        tag is None ==> r.0@ == "Tag…"@ && r.1@ == "Filter: Tag picker"@,
{
    let mut text: Vec<char> = Vec::new();
    let mut label: Vec<char> = Vec::new();
    match tag {
        Some(t) => {
            extend_str(&mut text, "#");
            extend_str(&mut text, t);
            extend_str(&mut text, " ×");
            extend_str(&mut label, "Filter: #");
            extend_str(&mut label, t);
            extend_str(&mut label, ", active");
        },
        None => {
            extend_str(&mut text, "Tag…");
            extend_str(&mut label, "Filter: Tag picker");
        },
    }
    (string_from_chars(&text), string_from_chars(&label))
}

/// What `drawer_selection` holds: exactly the passing notes, keyed.
proof fn lemma_selection_members(notes: Seq<DrawerNote>, f: DrawerFilters, conflicts: Seq<NoteId>, p: (SortKey, NoteId))
    ensures
        drawer_selection(notes, f, conflicts).contains(p) <==> exists|i: int|
            0 <= i < notes.len() && passes(#[trigger] notes[i], f, conflicts) && p == (
            drawer_key(notes[i]), notes[i].id),
    decreases notes.len(),
{
    if notes.len() > 0 {
        let init = notes.drop_last();
        lemma_selection_members(init, f, conflicts, p);
        let sel = drawer_selection(notes, f, conflicts);
        let sel0 = drawer_selection(init, f, conflicts);
        if sel.contains(p) {
            let k = choose|k: int| 0 <= k < sel.len() && sel[k] == p;
            if k < sel0.len() {
                assert(sel0.contains(p));
                let i = choose|i: int|
                    0 <= i < init.len() && passes(#[trigger] init[i], f, conflicts) && p == (drawer_key(init[i]), init[i].id);
                assert(notes[i] == init[i]);
            } else {
                assert(notes[notes.len() - 1] == notes.last());
            }
        }
        if exists|i: int|
            0 <= i < notes.len() && passes(#[trigger] notes[i], f, conflicts) && p == (drawer_key(notes[i]), notes[i].id) {
            let i = choose|i: int|
                0 <= i < notes.len() && passes(#[trigger] notes[i], f, conflicts) && p == (drawer_key(notes[i]), notes[i].id);
            if i < init.len() {
                assert(init[i] == notes[i]);
                assert(sel0.contains(p));
                let k = choose|k: int| 0 <= k < sel0.len() && sel0[k] == p;
                assert(sel[k] == p);
            } else {
                assert(sel.last() == p);
                assert(sel[sel.len() - 1] == p);
            }
        }
    } else {
        assert(drawer_selection(notes, f, conflicts).len() == 0);
    }
}

/// Every active chip filters the drawer's list (the notes being the
/// index's, each id once): each listed note is one of the notes, and is a
/// scrap when Scraps is on, a permanent card when Cards is on, of kind
/// Note / Literature / Structure when Notes / Literature / Dividers is on,
/// carries the chip's tag, is unlinked when Unlinked is on, and is in
/// conflict when Needs attention is on; and every note meeting all active
/// chips is listed.
pub proof fn lemma_drawer_chips(notes: Seq<DrawerNote>, f: DrawerFilters, conflicts: Seq<NoteId>, r: Seq<NoteId>)
    requires
        forall|a: int, b: int| 0 <= a < b < notes.len() ==> notes[a].id != notes[b].id,
        exists|s: Seq<(SortKey, NoteId)>|
            {
                &&& s.to_multiset() == drawer_selection(notes, f, conflicts).to_multiset()
                &&& sorted_by_key(s)
                &&& r == s.map_values(|p: (SortKey, NoteId)| p.1)
            },
    ensures
        forall|k: int| 0 <= k < r.len() ==> notes.map_values(|n: DrawerNote| n.id).contains(#[trigger] r[k]),
        forall|k: int, i: int|
            0 <= k < r.len() && 0 <= i < notes.len() && #[trigger] notes[i].id == #[trigger] r[k] ==> {
                &&& f.scraps ==> notes[i].status == Status::Fleeting
                &&& f.cards ==> notes[i].status == Status::Permanent
                &&& f.notes ==> notes[i].kind == Kind::Note
                &&& f.literature ==> notes[i].kind == Kind::Literature
                &&& f.dividers ==> notes[i].kind == Kind::Structure
                &&& f.tag is Some ==> notes[i].tag_match
                &&& f.unlinked ==> notes[i].unlinked
                &&& f.needs_attention ==> conflicts.contains(notes[i].id)
            },
        forall|i: int|
            0 <= i < notes.len() && (f.scraps ==> notes[i].status == Status::Fleeting) && (f.cards
                ==> notes[i].status == Status::Permanent) && (f.notes ==> notes[i].kind == Kind::Note) && (
            f.literature ==> notes[i].kind == Kind::Literature) && (f.dividers ==> notes[i].kind
                == Kind::Structure) && (f.tag is Some ==> notes[i].tag_match) && (f.unlinked
                ==> notes[i].unlinked) && (f.needs_attention ==> conflicts.contains(notes[i].id)) ==> r.contains(
                #[trigger] notes[i].id,
            ),
{
    let s = choose|s: Seq<(SortKey, NoteId)>|
        {
            &&& s.to_multiset() == drawer_selection(notes, f, conflicts).to_multiset()
            &&& sorted_by_key(s)
            &&& r == s.map_values(|p: (SortKey, NoteId)| p.1)
        };
    let sel = drawer_selection(notes, f, conflicts);
    let ids = notes.map_values(|n: DrawerNote| n.id);
    assert forall|k: int| 0 <= k < r.len() implies ids.contains(#[trigger] r[k]) && exists|j: int|
        0 <= j < notes.len() && notes[j].id == r[k] && passes(notes[j], f, conflicts) by {
        vstd::seq_lib::to_multiset_contains(s, s[k]);
        vstd::seq_lib::to_multiset_contains(sel, s[k]);
        assert(s.contains(s[k]));
        lemma_selection_members(notes, f, conflicts, s[k]);
        let j = choose|j: int|
            0 <= j < notes.len() && passes(#[trigger] notes[j], f, conflicts) && s[k] == (drawer_key(notes[j]), notes[j].id);
        assert(notes[j].id == r[k]);
        assert(ids[j] == r[k]);
    }
    assert forall|k: int, i: int|
        0 <= k < r.len() && 0 <= i < notes.len() && #[trigger] notes[i].id == #[trigger] r[k] implies passes(
        notes[i],
        f,
        conflicts,
    ) by {
        let j = choose|j: int| 0 <= j < notes.len() && notes[j].id == r[k] && passes(notes[j], f, conflicts);
        if j != i {
            if j < i {
                assert(notes[j].id != notes[i].id);
            } else {
                assert(notes[i].id != notes[j].id);
            }
        }
    }
    assert forall|i: int|
        0 <= i < notes.len() && (f.scraps ==> notes[i].status == Status::Fleeting) && (f.cards
            ==> notes[i].status == Status::Permanent) && (f.notes ==> notes[i].kind == Kind::Note) && (
        f.literature ==> notes[i].kind == Kind::Literature) && (f.dividers ==> notes[i].kind
            == Kind::Structure) && (f.tag is Some ==> notes[i].tag_match) && (f.unlinked
            ==> notes[i].unlinked) && (f.needs_attention ==> conflicts.contains(notes[i].id)) implies r.contains(
        #[trigger] notes[i].id,
    ) by {
        let p = (drawer_key(notes[i]), notes[i].id);
        assert(passes(notes[i], f, conflicts));
        lemma_selection_members(notes, f, conflicts, p);
        vstd::seq_lib::to_multiset_contains(s, p);
        vstd::seq_lib::to_multiset_contains(sel, p);
        assert(s.contains(p));
        let k = choose|k: int| 0 <= k < s.len() && s[k] == p;
        assert(r[k] == notes[i].id);
    }
}

/// A row of the tag picker: `#<tag> (<count>)`, its accessible label
/// `Tag: #<tag> (<count>)`.
pub fn tag_row_labels(tag: &str, count: usize) -> (r: (String, String))
    ensures
        r.0@ == "#"@ + tag@ + " ("@ + decimal(count as nat) + ")"@,
        r.1@ == "Tag: "@ + r.0@,
{
    let mut text: Vec<char> = Vec::new();
    extend_str(&mut text, "#");
    extend_str(&mut text, tag);
    extend_str(&mut text, " (");
    push_decimal(&mut text, count as u64);
    extend_str(&mut text, ")");
    let mut label: Vec<char> = Vec::new();
    extend_str(&mut label, "Tag: ");
    let ghost before = label@;
    let mut i: usize = 0;
    while i < text.len()
        invariant
            i <= text@.len(),
            label@ == before + text@.take(i as int),
        decreases text@.len() - i,
    {
        label.push(text[i]);
        i = i + 1;
        proof {
            assert(label@ =~= before + text@.take(i as int));
        }
    }
    proof {
        assert(text@.take(text@.len() as int) =~= text@);
    }
    (string_from_chars(&text), string_from_chars(&label))
}

/// What the drawer asks the app to do.
#[derive(Debug, Clone, Copy, PartialEq, Eq, Structural)]
pub enum DrawerEvent {
    /// Open the card's editor in place (Enter / double-click).
    OpenCard(NoteId),
    /// Place the card on `desk` at that desk's viewport centre (the desk
    /// picker's pick); its status is untouched.
    PlaceOnDesk { id: NoteId, desk: DeskId },
}

/// One frame of drawer keys over the listed cards `ids` (row-major grid
/// order): the arrows walk the list linearly (see `linear_focus`; nothing
/// moves on an empty list); Enter opens the focused card when it is listed;
/// Ctrl+D with a listed focused card and at least one desk asks for the desk
/// picker for it (the result). While an overlay holds the keyboard
/// (`blocked`) nothing happens.
pub fn drawer_keys(
    ids: &[NoteId],
    focus: &mut Option<NoteId>,
    prev: bool,
    next: bool,
    enter: bool,
    ctrl_d: bool,
    has_desks: bool,
    blocked: bool,
    events: &mut Vec<DrawerEvent>,
) -> (picker_for: Option<NoteId>)
    ensures
        blocked ==> *final(focus) == *old(focus) && final(events)@ == old(events)@ && picker_for is None,
        !blocked ==> ({
            let f = if ids@.len() > 0 && (prev || next) {
                linear_focus(ids@, *old(focus), prev, next)
            } else {
                *old(focus)
            };
            let listed = f is Some && ids@.contains(f->0);
            &&& *final(focus) == f
            &&& final(events)@ == old(events)@ + (if enter && listed {
                seq![DrawerEvent::OpenCard(f->0)]
            } else {
                Seq::<DrawerEvent>::empty()
            })
            &&& picker_for == (if ctrl_d && listed && has_desks { f } else { None })
        }),
{
    if blocked {
        return None;
    }
    if ids.len() > 0 && (prev || next) {
        *focus = move_linear_focus(ids, *focus, prev, next);
    }
    let listed = match *focus {
        Some(id) => contains_id(ids, id),
        None => false,
    };
    let ghost ev0 = events@;
    if enter && listed {
        events.push(DrawerEvent::OpenCard(focus.unwrap()));
    }
    proof {
        assert(events@ =~= ev0 + (if enter && listed {
            seq![DrawerEvent::OpenCard(focus->0)]
        } else {
            Seq::<DrawerEvent>::empty()
        }));
    }
    if ctrl_d && listed && has_desks {
        *focus
    } else {
        None
    }
}

} // verus!
