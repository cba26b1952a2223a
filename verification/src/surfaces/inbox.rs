//! The inbox: every fleeting note, oldest first, walked as one linear list.
use crate::note::{DeskId, NoteId};
use vstd::prelude::*;

verus! {

/// What the inbox asks the app to do.
#[derive(Debug, Clone, Copy, PartialEq, Eq, Structural)]
pub enum InboxEvent {
    /// Open the card editor (Enter / double-click).
    OpenCard(NoteId),
    /// Promote without typing (Ctrl+Enter).
    Promote(NoteId),
    /// Toss the card (Del); no confirm.
    Toss(NoteId),
    /// Place the card on `desk` at that desk's viewport centre; the card
    /// stays in the inbox.
    PlaceOnDesk { id: NoteId, desk: DeskId },
}

/// `i` is the first position of `x` in `s`.
pub open spec fn first_at(s: Seq<NoteId>, x: NoteId, i: int) -> bool {
    0 <= i < s.len() && s[i] == x && forall|j: int| 0 <= j < i ==> s[j] != x
}

/// The first position of `x` in `s`, if it occurs.
pub open spec fn position_of(s: Seq<NoteId>, x: NoteId) -> Option<int> {
    if s.contains(x) {
        Some(choose|i: int| first_at(s, x, i))
    } else {
        None
    }
}

proof fn lemma_position_of(s: Seq<NoteId>, x: NoteId, i: int)
    requires
        first_at(s, x, i),
    ensures
        position_of(s, x) == Some(i),
{
    assert(s.contains(x));
    let k = choose|k: int| first_at(s, x, k);
    if k < i {
        assert(s[k] != x);
    }
    if i < k {
        assert(s[i] != x);
    }
}

proof fn lemma_first_exists(s: Seq<NoteId>, x: NoteId)
    requires
        s.contains(x),
    ensures
        exists|i: int| first_at(s, x, i),
    decreases s.len(),
{
    let init = s.drop_last();
    if init.contains(x) {
        lemma_first_exists(init, x);
        let i = choose|i: int| first_at(init, x, i);
        assert(s[i] == init[i]);
        assert forall|j: int| 0 <= j < i implies s[j] != x by {
            assert(s[j] == init[j]);
        }
        assert(first_at(s, x, i));
    } else {
        let k = choose|k: int| 0 <= k < s.len() && s[k] == x;
        if k < s.len() - 1 {
            assert(init[k] == x);
        }
        assert forall|j: int| 0 <= j < s.len() - 1 implies s[j] != x by {
            assert(init[j] == s[j]);
        }
        assert(first_at(s, x, s.len() - 1));
    }
}

/// Where `x` occurs in `s`, `position_of` is its first position.
pub proof fn lemma_position_of_some(s: Seq<NoteId>, x: NoteId)
    requires
        s.contains(x),
    ensures
        position_of(s, x) matches Some(i) && first_at(s, x, i),
{
    lemma_first_exists(s, x);
}

/// The first position of `id` in `ids`.
pub fn position(ids: &[NoteId], id: NoteId) -> (r: Option<usize>)
    ensures
        r matches Some(i) ==> position_of(ids@, id) == Some(i as int) && i < ids@.len() && ids@[i as int] == id,
        r is None ==> position_of(ids@, id) is None,
{
    let mut i: usize = 0;
    while i < ids.len()
        invariant
            i <= ids@.len(),
            forall|j: int| 0 <= j < i ==> ids@[j] != id,
        decreases ids@.len() - i,
    {
        if ids[i].0 == id.0 {
            proof {
                assert(ids@[i as int] == id);
                lemma_position_of(ids@, id, i as int);
            }
            return Some(i);
        }
        i = i + 1;
    }
    proof {
        assert(!ids@.contains(id));
    }
    None
}

/// The focus after the arrow keys, the list being walked linearly (Up and
/// Left go back, Down and Right forward; forward wins when both are
/// pressed). From no focus (or a focus not in the list) forward starts at
/// the first card and back at the last; at either end the focus stays.
pub open spec fn linear_focus(ids: Seq<NoteId>, focus: Option<NoteId>, prev: bool, next: bool) -> Option<NoteId> {
    let cur = match focus {
        Some(f) => position_of(ids, f),
        None => None,
    };
    let target: Option<int> = if next {
        match cur {
            None => Some(0),
            Some(i) => if i + 1 < ids.len() { Some(i + 1) } else { None },
        }
    } else if prev {
        match cur {
            None => Some(ids.len() - 1),
            Some(i) => if i > 0 { Some(i - 1) } else { None },
        }
    } else {
        None
    };
    match target {
        Some(t) => Some(ids[t]),
        None => focus,
    }
}

/// The focus after tossing `id`: the next card, else the previous one,
/// else none (a card not in the list counts as the first).
pub open spec fn focus_after_toss(ids: Seq<NoteId>, id: NoteId) -> Option<NoteId> {
    let i = match position_of(ids, id) {
        Some(i) => i,
        None => 0,
    };
    if i + 1 < ids.len() {
        Some(ids[i + 1])
    } else if i > 0 {
        Some(ids[i - 1])
    } else {
        None
    }
}

/// The focus after the arrow keys; see `linear_focus`.
pub fn move_linear_focus(ids: &[NoteId], focus: Option<NoteId>, prev: bool, next: bool) -> (f: Option<NoteId>)
    requires
        ids@.len() > 0,
    ensures
        f == linear_focus(ids@, focus, prev, next),
{
    let cur = match focus {
        Some(f) => position(ids, f),
        None => None,
    };
    assert(cur matches Some(i) ==> i < ids@.len());
    let target: Option<usize> = if next {
        match cur {
            None => Some(0),
            Some(i) => if i < ids.len() - 1 {
                Some(i + 1)
            } else {
                None
            },
        }
    } else if prev {
        match cur {
            None => Some(ids.len() - 1),
            Some(i) => if i > 0 {
                Some(i - 1)
            } else {
                None
            },
        }
    } else {
        None
    };
    match target {
        Some(t) => Some(ids[t]),
        None => focus,
    }
}

/// The focus after tossing `id`; see `focus_after_toss`.
pub fn toss_focus(ids: &[NoteId], id: NoteId) -> (f: Option<NoteId>)
    ensures
        f == focus_after_toss(ids@, id),
{
    let i = match position(ids, id) {
        Some(i) => i,
        None => 0,
    };
    if ids.len() > 0 && i < ids.len() - 1 {
        Some(ids[i + 1])
    } else if i > 0 {
        Some(ids[i - 1])
    } else {
        None
    }
}

/// The keys pressed this frame on the inbox.
#[derive(Debug, Clone, Copy, PartialEq, Eq, Structural)]
pub struct InboxKeys {
    /// Up or Left.
    pub prev: bool,
    /// Down or Right.
    pub next: bool,
    /// Enter without Ctrl.
    pub enter: bool,
    pub ctrl_enter: bool,
    pub delete: bool,
    pub ctrl_d: bool,
}

/// One frame of inbox keys over the cards `ids` (oldest first). Nothing
/// happens on an empty inbox. Otherwise, in order: the arrows move the
/// focus; Enter opens the focused card; Ctrl+Enter promotes it; Del tosses
/// it and moves the focus to its neighbour; Ctrl+D, with a focused card and
/// at least one desk, asks for the desk picker for that card (the result).
/// While an overlay holds the keyboard (`blocked`) nothing happens.
pub fn inbox_keys(
    ids: &[NoteId],
    focus: &mut Option<NoteId>,
    keys: InboxKeys,
    has_desks: bool,
    blocked: bool,
    events: &mut Vec<InboxEvent>,
) -> (picker_for: Option<NoteId>)
    ensures
        blocked || ids@.len() == 0 ==> *final(focus) == *old(focus) && final(events)@ == old(events)@ && picker_for is None,
        !blocked && ids@.len() > 0 ==> ({
            let f1 = linear_focus(ids@, *old(focus), keys.prev, keys.next);
            let e1: Seq<InboxEvent> = if keys.enter && f1 is Some { seq![InboxEvent::OpenCard(f1->0)] } else { seq![] };
            let e2: Seq<InboxEvent> = if keys.ctrl_enter && f1 is Some { seq![InboxEvent::Promote(f1->0)] } else { seq![] };
            let e3: Seq<InboxEvent> = if keys.delete && f1 is Some { seq![InboxEvent::Toss(f1->0)] } else { seq![] };
            let f2 = if keys.delete && f1 is Some { focus_after_toss(ids@, f1->0) } else { f1 };
            &&& final(events)@ == old(events)@ + e1 + e2 + e3
            &&& *final(focus) == f2
            &&& picker_for == (if keys.ctrl_d && has_desks { f2 } else { None })
        }),
{
    if blocked || ids.len() == 0 {
        return None;
    }
    let ghost ev0 = events@;
    let f1 = move_linear_focus(ids, *focus, keys.prev, keys.next);
    *focus = f1;
    if keys.enter {
        if let Some(id) = f1 {
            events.push(InboxEvent::OpenCard(id));
        }
    }
    let ghost ev1 = events@;
    if keys.ctrl_enter {
        if let Some(id) = f1 {
            events.push(InboxEvent::Promote(id));
        }
    }
    let ghost ev2 = events@;
    if keys.delete {
        if let Some(id) = f1 {
            *focus = toss_focus(ids, id);
            events.push(InboxEvent::Toss(id));
        }
    }
    proof {
        let e1: Seq<InboxEvent> = if keys.enter && f1 is Some { seq![InboxEvent::OpenCard(f1->0)] } else { seq![] };
        let e2: Seq<InboxEvent> = if keys.ctrl_enter && f1 is Some { seq![InboxEvent::Promote(f1->0)] } else { seq![] };
        let e3: Seq<InboxEvent> = if keys.delete && f1 is Some { seq![InboxEvent::Toss(f1->0)] } else { seq![] };
        assert(ev1 =~= ev0 + e1);
        assert(ev2 =~= ev0 + e1 + e2);
        assert(events@ =~= ev0 + e1 + e2 + e3);
    }
    if keys.ctrl_d && has_desks {
        *focus
    } else {
        None
    }
}

/// Tossing the focused card moves the focus off it, onto another card of
/// the list (or nowhere when it was the only one).
pub proof fn lemma_toss_moves_focus_away(ids: Seq<NoteId>, id: NoteId)
    requires
        ids.no_duplicates(),
        ids.contains(id),
    ensures
        focus_after_toss(ids, id) != Some(id),
        focus_after_toss(ids, id) matches Some(f) ==> ids.contains(f),
        focus_after_toss(ids, id) is None ==> ids.len() == 1,
{
    lemma_position_of_some(ids, id);
    let k = position_of(ids, id)->0;
    if k + 1 < ids.len() {
        assert(ids[k + 1] != ids[k]);
        assert(ids.contains(ids[k + 1]));
    } else if k > 0 {
        assert(ids[k - 1] != ids[k]);
        assert(ids.contains(ids[k - 1]));
    }
}

/// The arrow keys move the focus onto a card of the list, or leave it as it
/// was.
pub proof fn lemma_linear_focus_stays_in_list(ids: Seq<NoteId>, focus: Option<NoteId>, prev: bool, next: bool)
    requires
        ids.len() > 0,
    ensures
        linear_focus(ids, focus, prev, next) == focus || (linear_focus(ids, focus, prev, next) matches Some(
            f,
        ) && ids.contains(f)),
{
    if let Some(f) = focus {
        if ids.contains(f) {
            lemma_position_of_some(ids, f);
        }
    }
    let cur = match focus {
        Some(f) => position_of(ids, f),
        None => None,
    };
    if let Some(g) = linear_focus(ids, focus, prev, next) {
        if linear_focus(ids, focus, prev, next) != focus {
            let t: int = if next {
                match cur {
                    None => 0,
                    Some(i) => i + 1,
                }
            } else {
                match cur {
                    None => ids.len() - 1,
                    Some(i) => i - 1,
                }
            };
            assert(g == ids[t]);
            assert(ids.contains(g));
        }
    }
}

/// A frame of pointer input on inbox card `id`: a click focuses it (the
/// palette does not gate this), a double-click opens it unless the palette
/// is open.
pub fn inbox_card_pointer(
    id: NoteId,
    focus: &mut Option<NoteId>,
    clicked: bool,
    double_clicked: bool,
    palette_open: bool,
    events: &mut Vec<InboxEvent>,
)
    ensures
        *final(focus) == (if clicked { Some(id) } else { *old(focus) }),
        final(events)@ == old(events)@ + (if double_clicked && !palette_open {
            seq![InboxEvent::OpenCard(id)]
        } else {
            Seq::<InboxEvent>::empty()
        }),
{
    if clicked && *focus != Some(id) {
        *focus = Some(id);
    }
    let ghost ev0 = events@;
    if double_clicked && !palette_open {
        events.push(InboxEvent::OpenCard(id));
    }
    proof {
        assert(events@ =~= ev0 + (if double_clicked && !palette_open {
            seq![InboxEvent::OpenCard(id)]
        } else {
            Seq::<InboxEvent>::empty()
        }));
    }
}


/// The arrow keys step the focus one card: from the card first at `i`,
/// Down/Right goes to the card after it and Up/Left (alone) to the card
/// before it; at either end, or with no arrow, the focus stays.
pub proof fn lemma_arrows_step_one_card(ids: Seq<NoteId>, i: int, prev: bool, next: bool)
    requires
        0 <= i < ids.len(),
        forall|j: int| 0 <= j < i ==> ids[j] != ids[i],
    ensures
        next && i + 1 < ids.len() ==> linear_focus(ids, Some(ids[i]), prev, next) == Some(ids[i + 1]),
        next && i + 1 == ids.len() ==> linear_focus(ids, Some(ids[i]), prev, next) == Some(ids[i]),
        prev && !next && i > 0 ==> linear_focus(ids, Some(ids[i]), prev, next) == Some(ids[i - 1]),
        prev && !next && i == 0 ==> linear_focus(ids, Some(ids[i]), prev, next) == Some(ids[i]),
        !prev && !next ==> linear_focus(ids, Some(ids[i]), prev, next) == Some(ids[i]),
{
    lemma_position_of(ids, ids[i], i);
}

/// With no focus, or a focus on no card of the list, Down/Right focuses
/// the first card and Up/Left (alone) the last one.
pub proof fn lemma_arrows_enter_list(ids: Seq<NoteId>, focus: Option<NoteId>, prev: bool, next: bool)
    requires
        ids.len() > 0,
        focus matches Some(f) ==> !ids.contains(f),
    ensures
        next ==> linear_focus(ids, focus, prev, next) == Some(ids[0]),
        prev && !next ==> linear_focus(ids, focus, prev, next) == Some(ids[ids.len() - 1]),
{
}

/// Up then Down comes back: on a list of distinct cards, stepping back
/// from any card but the first and then forward again returns to it.
pub proof fn lemma_back_then_forward(ids: Seq<NoteId>, i: int)
    requires
        0 < i < ids.len(),
        forall|a: int, b: int| 0 <= a < b < ids.len() ==> ids[a] != ids[b],
    ensures
        linear_focus(ids, linear_focus(ids, Some(ids[i]), true, false), false, true) == Some(ids[i]),
{
    lemma_arrows_step_one_card(ids, i, true, false);
    lemma_arrows_step_one_card(ids, i - 1, false, true);
}


/// Tossing the card first at `i` hands the focus to its neighbour: the card
/// after it, or the one before it when it was last, or nothing when it was
/// alone.
pub proof fn lemma_toss_focus_neighbour(ids: Seq<NoteId>, i: int)
    requires
        0 <= i < ids.len(),
        forall|j: int| 0 <= j < i ==> ids[j] != ids[i],
    ensures
        i + 1 < ids.len() ==> focus_after_toss(ids, ids[i]) == Some(ids[i + 1]),
        i + 1 == ids.len() && i > 0 ==> focus_after_toss(ids, ids[i]) == Some(ids[i - 1]),
        ids.len() == 1 ==> focus_after_toss(ids, ids[i]) is None,
{
    lemma_position_of(ids, ids[i], i);
}

} // verus!
