//! Menu decisions: the Edit menu's live labels and the card context menu's
//! item enablement.
use crate::journal::Journal;
use crate::note::{DeskId, Kind, NoteId, Status};
use crate::ops::VaultOp;
use crate::text::{extend_str, string_from_chars};
use vstd::prelude::*;

verus! {

/// Actions that can be fired from the Edit menu bar.
#[derive(Debug, Clone, PartialEq)]
pub enum EditMenuAction {
    Undo,
    Redo,
    SplitCard,
}

/// Actions that can be fired from the card context menu.
#[derive(Debug, Clone, Copy, PartialEq, Eq, Structural)]
pub enum CardMenuEvent {
    Promote(NoteId),
    Toss(NoteId),
    TakeToDesk { id: NoteId, desk: DeskId },
    PutAway(NoteId),
    SetSource(NoteId),
    MakeDivider(NoteId),
    Demote(NoteId),
    CopyLink(NoteId),
    RevealInFileManager(NoteId),
}

/// Text of the Undo (or Redo) item: `"<verb> <label>"` when there is
/// something to undo, else just the verb; the item is enabled exactly then.
pub fn history_item(verb: &str, label: Option<&str>) -> (r: (String, bool))
    ensures
        label is None ==> r.0@ == verb@ && !r.1,
        label matches Some(l) ==> r.0@ == verb@ + " "@ + l@ && r.1,
{
    let mut out: Vec<char> = Vec::new();
    extend_str(&mut out, verb);
    match label {
        Some(l) => {
            extend_str(&mut out, " ");
            extend_str(&mut out, l);
            (string_from_chars(&out), true)
        },
        None => (string_from_chars(&out), false),
    }
}

/// Which card-menu items are enabled.
#[derive(Debug, Clone, Copy, PartialEq, Eq, Structural)]
pub struct CardMenuEnablement {
    /// False while the editor or the delete-confirm modal is open: the menu
    /// then closes without emitting any action.
    pub active: bool,
    pub promote: bool,
    pub put_away: bool,
    pub make_divider: bool,
    pub demote: bool,
    pub copy_link: bool,
}

/// Item enablement rules of the card menu:
///   Promote       — only when `Status::Fleeting` (scraps can be promoted)
///   Toss, Take to Desk, Set Source…, Reveal in File Manager — always enabled
///   Put Away      — only when the card is currently on a desk (not in inbox)
///   Make Divider  — only when `Kind != Structure`
///   Demote to Scrap — only when `Status::Permanent`
///   Copy Link     — only when `Status::Permanent` AND the title is non-empty
/// With the editor or the delete-confirm modal open the menu is inactive.
pub fn card_menu_enablement(
    status: Status,
    kind: Kind,
    title: &str,
    on_desk: bool,
    editor_open: bool,
    confirm_pending: bool,
) -> (e: CardMenuEnablement)
    ensures
        e.active == !(editor_open || confirm_pending),
        e.promote == (status == Status::Fleeting),
        e.put_away == on_desk,
        e.make_divider == (kind != Kind::Structure),
        e.demote == (status == Status::Permanent),
        e.copy_link == (status == Status::Permanent && title@.len() > 0),
{
    CardMenuEnablement {
        active: !(editor_open || confirm_pending),
        promote: status == Status::Fleeting,
        put_away: on_desk,
        make_divider: kind != Kind::Structure,
        demote: status == Status::Permanent,
        copy_link: status == Status::Permanent && !title.is_empty(),
    }
}

/// The Edit menu's live items.
#[derive(Debug)]
pub struct EditMenuItems {
    pub undo_text: String,
    pub can_undo: bool,
    pub redo_text: String,
    pub can_redo: bool,
    /// Split Card works on the open editor only.
    pub can_split: bool,
}

/// The Edit menu for `journal`: `Undo <label>` / `Redo <label>` naming the
/// entries the next undo and redo would act on (each enabled exactly when
/// there is one), and Split Card enabled while the editor is open.
pub fn edit_menu_items<A>(journal: &Journal<A>, editor_open: bool) -> (m: EditMenuItems)
    ensures
        journal@.undo.len() == 0 ==> m.undo_text@ == "Undo"@ && !m.can_undo,
        journal@.undo.len() > 0 ==> m.undo_text@ == "Undo"@ + " "@ + journal@.undo.last().label@ && m.can_undo,
        journal@.redo.len() == 0 ==> m.redo_text@ == "Redo"@ && !m.can_redo,
        journal@.redo.len() > 0 ==> m.redo_text@ == "Redo"@ + " "@ + journal@.redo.last().label@ && m.can_redo,
        m.can_split == editor_open,
{
    let (undo_text, can_undo) = history_item("Undo", journal.undo_label());
    let (redo_text, can_redo) = history_item("Redo", journal.redo_label());
    EditMenuItems { undo_text, can_undo, redo_text, can_redo, can_split: editor_open }
}

/// The card a card-menu event is about.
pub open spec fn event_card(ev: CardMenuEvent) -> NoteId {
    match ev {
        CardMenuEvent::Promote(id) => id,
        CardMenuEvent::Toss(id) => id,
        CardMenuEvent::TakeToDesk { id, .. } => id,
        CardMenuEvent::PutAway(id) => id,
        CardMenuEvent::SetSource(id) => id,
        CardMenuEvent::MakeDivider(id) => id,
        CardMenuEvent::Demote(id) => id,
        CardMenuEvent::CopyLink(id) => id,
        CardMenuEvent::RevealInFileManager(id) => id,
    }
}

/// What a card-menu choice comes to.
#[derive(Debug)]
pub enum CardMenuStep {
    /// Send this vault op as the user's own.
    Send(VaultOp),
    /// Ask before tossing this card: it is not a scrap.
    ConfirmToss(NoteId),
    /// Put this text on the clipboard.
    Copy(String),
    /// Nothing to send (a link to an untitled card).
    Nothing,
    /// Open this card's editor, promoting the card when it closes.
    OpenPromoting(NoteId),
    /// Open the Set Source… dialog for this card, filled with its source.
    AskSource { id: NoteId, current: String },
    /// Show this card's file in the file manager.
    Reveal(NoteId),
    /// Take to Desk and Put Away change the desks: see
    /// `session::card_menu_desk_step`.
    OnDesks,
}

/// The step for card-menu event `ev` on a card that is `fleeting` (a
/// scrap) with title `title` and source `source`: Promote opens the editor
/// to promote on close; Toss sends a toss for a scrap and asks first
/// otherwise; Set Source asks for the source, starting from the current
/// one (blank when none); Make Divider sets the kind to Structure; Demote
/// sends a demote; Copy Link copies `[[title]]` when the title is not
/// empty; Reveal shows the file; Take to Desk and Put Away act on the desks.
pub fn card_menu_step(ev: &CardMenuEvent, fleeting: bool, title: &str, source: Option<&str>) -> (s: CardMenuStep)
    ensures
        ev is Promote ==> (s matches CardMenuStep::OpenPromoting(i) && i == event_card(*ev)),
        (ev is Toss && fleeting) ==> (s matches CardMenuStep::Send(VaultOp::Toss { id: i }) && i == event_card(*ev)),
        (ev is Toss && !fleeting) ==> (s matches CardMenuStep::ConfirmToss(i) && i == event_card(*ev)),
        ev is SetSource ==> (s matches CardMenuStep::AskSource { id: i, current } && i == event_card(*ev)
            && current@ == (match source { Some(t) => t@, None => Seq::<char>::empty() })),
        ev is MakeDivider ==> (s matches CardMenuStep::Send(VaultOp::SetKind { id: i, kind }) && i == event_card(*ev) && kind == Kind::Structure),
        ev is Demote ==> (s matches CardMenuStep::Send(VaultOp::Demote { id: i }) && i == event_card(*ev)),
        (ev is CopyLink && title@.len() > 0) ==> (s matches CardMenuStep::Copy(t) && t@ == "[["@ + title@ + "]]"@),
        (ev is CopyLink && title@.len() == 0) ==> s is Nothing,
        ev is RevealInFileManager ==> (s matches CardMenuStep::Reveal(i) && i == event_card(*ev)),
        (ev is TakeToDesk || ev is PutAway) ==> s is OnDesks,
{
    match ev {
        CardMenuEvent::Promote(id) => CardMenuStep::OpenPromoting(*id),
        CardMenuEvent::Toss(id) => {
            if fleeting {
                CardMenuStep::Send(VaultOp::Toss { id: *id })
            } else {
                CardMenuStep::ConfirmToss(*id)
            }
        },
        CardMenuEvent::SetSource(id) => {
            let mut out: Vec<char> = Vec::new();
            if let Some(t) = source {
                extend_str(&mut out, t);
            }
            CardMenuStep::AskSource { id: *id, current: string_from_chars(&out) }
        },
        CardMenuEvent::MakeDivider(id) => CardMenuStep::Send(VaultOp::SetKind { id: *id, kind: Kind::Structure }),
        CardMenuEvent::Demote(id) => CardMenuStep::Send(VaultOp::Demote { id: *id }),
        CardMenuEvent::CopyLink(_) => {
            if title.is_empty() {
                CardMenuStep::Nothing
            } else {
                let mut out: Vec<char> = Vec::new();
                extend_str(&mut out, "[[");
                extend_str(&mut out, title);
                extend_str(&mut out, "]]");
                CardMenuStep::Copy(string_from_chars(&out))
            }
        },
        CardMenuEvent::RevealInFileManager(id) => CardMenuStep::Reveal(*id),
        CardMenuEvent::TakeToDesk { .. } | CardMenuEvent::PutAway(_) => CardMenuStep::OnDesks,
    }
}

} // verus!
