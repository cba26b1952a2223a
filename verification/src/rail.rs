//! The left rail: the desk rows (rename, reorder) and the fixed rows.
use crate::note::DeskId;
use crate::text::{decimal, extend_str, push_decimal, string_from_chars, trim, trim_str};
use vstd::prelude::*;

verus! {

/// The Inbox row's text: `Inbox`, `Inbox, 1 scrap`, or `Inbox, <n> scraps`.
pub open spec fn inbox_label_text(count: nat) -> Seq<char> {
    if count == 0 {
        "Inbox"@
    } else if count == 1 {
        "Inbox, 1 scrap"@
    } else {
        "Inbox, "@ + decimal(count) + " scraps"@
    }
}

/// The Inbox row's text for `count` fleeting notes.
pub fn inbox_label(count: usize) -> (s: String)
    ensures
        s@ == inbox_label_text(count as nat),
{
    let mut out: Vec<char> = Vec::new();
    if count == 0 {
        extend_str(&mut out, "Inbox");
    } else if count == 1 {
        extend_str(&mut out, "Inbox, 1 scrap");
    } else {
        extend_str(&mut out, "Inbox, ");
        push_decimal(&mut out, count as u64);
        extend_str(&mut out, " scraps");
    }
    string_from_chars(&out)
}

/// The name of a new desk when `desk_count` desks exist: `Desk <n>`, `n`
/// being one more than their number.
pub fn new_desk_name(desk_count: usize) -> (s: String)
    requires
        desk_count < usize::MAX,
    ensures
        s@ == "Desk "@ + decimal(desk_count as nat + 1),
{
    let mut out: Vec<char> = Vec::new();
    extend_str(&mut out, "Desk ");
    push_decimal(&mut out, (desk_count + 1) as u64);
    string_from_chars(&out)
}

/// The accessible label of a desk row: `Desk: <name>`.
pub fn desk_row_label(name: &str) -> (s: String)
    ensures
        s@ == "Desk: "@ + name@,
{
    let mut out: Vec<char> = Vec::new();
    extend_str(&mut out, "Desk: ");
    extend_str(&mut out, name);
    string_from_chars(&out)
}

/// The journal label of a card dropped on another desk's rail row:
/// `Move card to desk '<name>'`.
pub fn move_card_label(desk_name: &str) -> (s: String)
    ensures
        s@ == "Move card to desk '"@ + desk_name@ + "'"@,
{
    let mut out: Vec<char> = Vec::new();
    extend_str(&mut out, "Move card to desk '");
    extend_str(&mut out, desk_name);
    extend_str(&mut out, "'");
    string_from_chars(&out)
}

/// How an inline rename ends this frame.
#[derive(Debug)]
pub enum RenameOutcome {
    /// The editor stays open.
    Editing,
    /// The editor closes; `Some(name)` renames the desk.
    Closed(Option<String>),
}

/// An inline desk rename of `current` with text `buffer`: Esc cancels;
/// Enter or leaving the field commits the trimmed text when it is not
/// empty and differs from the current name, and otherwise just closes.
pub fn rename_outcome(buffer: &str, current: &str, enter: bool, esc: bool, lost_focus: bool) -> (r:
    RenameOutcome)
    ensures
        esc ==> r matches RenameOutcome::Closed(None),
        !esc && !(enter || lost_focus) ==> r is Editing,
        !esc && (enter || lost_focus) && trim(buffer@).len() > 0 && trim(buffer@) != current@ ==> (
        r matches RenameOutcome::Closed(Some(name)) && name@ == trim(buffer@)),
        !esc && (enter || lost_focus) && (trim(buffer@).len() == 0 || trim(buffer@) == current@) ==> r matches RenameOutcome::Closed(None),
{
    if esc {
        return RenameOutcome::Closed(None);
    }
    if !(enter || lost_focus) {
        return RenameOutcome::Editing;
    }
    let t = trim_str(buffer);
    let cur = current.to_string();
    if t.as_str().is_empty() || t == cur {
        RenameOutcome::Closed(None)
    } else {
        RenameOutcome::Closed(Some(t))
    }
}

/// The indices the desk at `idx` of `count` moves to with Move Up and
/// Move Down; `None` where the item is disabled (first / last row).
pub fn reorder_targets(idx: usize, count: usize) -> (r: (Option<usize>, Option<usize>))
    ensures
        r.0 == (if idx > 0 { Some((idx - 1) as usize) } else { None::<usize> }),
        r.1 == (if idx + 1 < count { Some((idx + 1) as usize) } else { None::<usize> }),
{
    let up = if idx > 0 {
        Some(idx - 1)
    } else {
        None
    };
    let down = if count > 0 && idx < count - 1 {
        Some(idx + 1)
    } else {
        None
    };
    (up, down)
}

/// Where a card dragged onto the rail lands.
#[derive(Debug, Clone, Copy, PartialEq, Eq, Structural)]
pub enum RailDropTarget {
    Inbox,
    Desk(DeskId),
}

} // verus!
