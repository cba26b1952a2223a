use jd_app::file_manager::explorer_select_arg;
use jd_app::journal::{InverseAction, Journal, JournalEntry, OpContext};
use jd_app::menus::{card_menu_enablement, card_menu_step, edit_menu_items, history_item, CardMenuEvent, CardMenuStep};
use jd_app::note::{DeskId, Kind, NoteId, Status};
use jd_app::ops::VaultOp;
use jd_app::rail::RailDropTarget;
use jd_app::session::{
    bring_note_to_desk, card_menu_desk_step, desk_drag_step, move_card_step, place_card, rail_event_step,
    split_placement_step, Arrival, CardDrag, DeskCards, DragOutcome, RailEvent, SessionOp, SplitTarget,
};
use jd_app::rail::{desk_row_label, inbox_label, new_desk_name, rename_outcome, reorder_targets, RenameOutcome};

#[test]
fn explorer_select_arg_quotes_path() {
    let simple = r"C:\notes\file.md";
    let result = explorer_select_arg(simple);
    assert!(result.starts_with("/select,\""), "must start with /select,\": {result}");
    assert!(result.ends_with('"'), "must end with closing quote: {result}");
    assert!(result.contains("file.md"), "must contain the filename: {result}");
    let spaced = r"C:\my notes\my file.md";
    let result2 = explorer_select_arg(spaced);
    assert!(result2.starts_with("/select,\""), "spaced path must start with /select,\": {result2}");
    assert!(result2.contains("my notes"), "spaced path must contain directory: {result2}");
    assert_eq!(result2, "/select,\"C:\\my notes\\my file.md\"");
}

#[test]
fn history_items_name_the_entry() {
    assert_eq!(history_item("Undo", Some("Move card")), ("Undo Move card".to_owned(), true));
    assert_eq!(history_item("Redo", None), ("Redo".to_owned(), false));
}

#[test]
fn edit_menu_follows_the_journal() {
    let mut j: Journal<InverseAction<u8>> = Journal::new();
    let m = edit_menu_items(&j, false);
    assert_eq!((m.undo_text.as_str(), m.can_undo), ("Undo", false));
    assert_eq!((m.redo_text.as_str(), m.can_redo), ("Redo", false));
    assert!(!m.can_split);
    j.push(JournalEntry { label: "Toss".to_owned(), inverse: InverseAction::Session(1), context: OpContext::default() });
    let m = edit_menu_items(&j, true);
    assert_eq!((m.undo_text.as_str(), m.can_undo), ("Undo Toss", true));
    assert!(m.can_split);
}

#[test]
fn card_menu_enablement_rules() {
    let e = card_menu_enablement(Status::Fleeting, Kind::Note, "", false, false, false);
    assert!(e.active && e.promote && !e.put_away && e.make_divider && !e.demote && !e.copy_link);
    let e = card_menu_enablement(Status::Permanent, Kind::Structure, "T", true, false, false);
    assert!(!e.promote && e.put_away && !e.make_divider && e.demote && e.copy_link);
    assert!(!card_menu_enablement(Status::Permanent, Kind::Note, "T", true, true, false).active);
    assert!(!card_menu_enablement(Status::Permanent, Kind::Note, "T", true, false, true).active);
}

#[test]
fn card_menu_steps() {
    let id = NoteId(5);
    assert!(matches!(card_menu_step(&CardMenuEvent::Toss(id), true, "", None), CardMenuStep::Send(VaultOp::Toss { id: i }) if i == id));
    assert!(matches!(card_menu_step(&CardMenuEvent::Toss(id), false, "", None), CardMenuStep::ConfirmToss(i) if i == id));
    assert!(matches!(
        card_menu_step(&CardMenuEvent::MakeDivider(id), false, "", None),
        CardMenuStep::Send(VaultOp::SetKind { id: i, kind: Kind::Structure }) if i == id
    ));
    assert!(matches!(card_menu_step(&CardMenuEvent::Demote(id), false, "", None), CardMenuStep::Send(VaultOp::Demote { .. })));
    match card_menu_step(&CardMenuEvent::CopyLink(id), false, "Zettel", None) {
        CardMenuStep::Copy(t) => assert_eq!(t, "[[Zettel]]"),
        other => panic!("unexpected {other:?}"),
    }
    assert!(matches!(card_menu_step(&CardMenuEvent::CopyLink(id), false, "", None), CardMenuStep::Nothing));
    assert!(matches!(
        card_menu_step(&CardMenuEvent::TakeToDesk { id, desk: DeskId(1) }, false, "", None),
        CardMenuStep::OnDesks
    ));
    assert!(matches!(card_menu_step(&CardMenuEvent::PutAway(id), false, "", None), CardMenuStep::OnDesks));
    assert!(matches!(card_menu_step(&CardMenuEvent::Promote(id), true, "", None), CardMenuStep::OpenPromoting(i) if i == id));
    assert!(matches!(card_menu_step(&CardMenuEvent::RevealInFileManager(id), true, "", None), CardMenuStep::Reveal(i) if i == id));
    match card_menu_step(&CardMenuEvent::SetSource(id), false, "", Some("Ahrens 2017")) {
        CardMenuStep::AskSource { id: i, current } => {
            assert_eq!(i, id);
            assert_eq!(current, "Ahrens 2017");
        }
        other => panic!("unexpected {other:?}"),
    }
    assert!(matches!(card_menu_step(&CardMenuEvent::SetSource(id), false, "", None), CardMenuStep::AskSource { ref current, .. } if current.is_empty()));
}

#[test]
fn inbox_row_label_counts_scraps() {
    assert_eq!(inbox_label(0), "Inbox");
    assert_eq!(inbox_label(1), "Inbox, 1 scrap");
    assert_eq!(inbox_label(2), "Inbox, 2 scraps");
    assert_eq!(inbox_label(1234), "Inbox, 1234 scraps");
}

#[test]
fn new_desks_are_numbered_after_the_existing_ones() {
    assert_eq!(new_desk_name(0), "Desk 1");
    assert_eq!(new_desk_name(9), "Desk 10");
    assert_eq!(desk_row_label("Work"), "Desk: Work");
}

#[test]
fn rename_commits_trimmed_changed_names_only() {
    assert!(matches!(rename_outcome("  New  ", "Old", true, false, false), RenameOutcome::Closed(Some(ref n)) if n == "New"));
    assert!(matches!(rename_outcome("New", "Old", false, false, true), RenameOutcome::Closed(Some(_))));
    assert!(matches!(rename_outcome(" Old ", "Old", true, false, false), RenameOutcome::Closed(None)));
    assert!(matches!(rename_outcome("   ", "Old", true, false, false), RenameOutcome::Closed(None)));
    assert!(matches!(rename_outcome("New", "Old", true, true, false), RenameOutcome::Closed(None)));
    assert!(matches!(rename_outcome("New", "Old", false, false, false), RenameOutcome::Editing));
}

#[test]
fn reorder_disables_moves_past_the_ends() {
    assert_eq!(reorder_targets(0, 3), (None, Some(1)));
    assert_eq!(reorder_targets(1, 3), (Some(0), Some(2)));
    assert_eq!(reorder_targets(2, 3), (Some(1), None));
    assert_eq!(reorder_targets(0, 1), (None, None));
}

fn desk(id: u128, name: &str, center: (i32, i32), cards: Vec<(NoteId, (i32, i32))>) -> DeskCards<(i32, i32)> {
    DeskCards { id: DeskId(id), name: name.to_owned(), center, cards }
}

#[test]
fn rail_drop_on_another_desk_moves_the_card_in_one_step() {
    let card = NoteId(7);
    let mut desks = vec![
        desk(1, "A", (0, 0), vec![(NoteId(3), (1, 1)), (card, (5, 5))]),
        desk(2, "B", (100, 100), vec![]),
    ];
    let mut journal: Journal<InverseAction<SessionOp<(i32, i32)>>> = Journal::new();
    let ev = RailEvent::CardDroppedOnDesk { target_desk: DeskId(2), id: card, source_desk: DeskId(1), was_at: (5, 5) };
    assert_eq!(rail_event_step(&mut desks, &mut journal, Some(DeskId(1)), ev, DeskId(9), (0, 0)), None);
    assert_eq!(desks[0].cards, vec![(NoteId(3), (1, 1))]);
    assert_eq!(desks[1].cards, vec![(card, (100, 100))]);
    assert_eq!(journal.undo_label(), Some("Move card to desk 'B'"));
    assert_eq!(journal.redo_label(), None);
    let e = journal.pop_undo().unwrap();
    assert_eq!(e.context, OpContext { desk: Some(DeskId(1)), note: Some(card) });
    assert!(matches!(e.inverse, InverseAction::Session(SessionOp::Place { desk: DeskId(1), id, pos: (5, 5) }) if id == card));
    assert!(journal.pop_undo().is_none());
}

#[test]
fn rail_create_rename_reorder_and_put_away() {
    let card = NoteId(7);
    let mut desks = vec![desk(1, "A", (0, 0), vec![(card, (5, 5))])];
    let mut journal: Journal<InverseAction<SessionOp<(i32, i32)>>> = Journal::new();
    assert_eq!(rail_event_step(&mut desks, &mut journal, Some(DeskId(1)), RailEvent::CreateDesk, DeskId(2), (0, 0)), Some(DeskId(2)));
    assert_eq!(desks[1].name, "Desk 2");
    assert_eq!(journal.undo_label(), Some("Create desk"));
    let ev = RailEvent::RenameDesk { id: DeskId(2), name: "Reading".to_owned() };
    rail_event_step(&mut desks, &mut journal, Some(DeskId(1)), ev, DeskId(3), (0, 0));
    assert_eq!(desks[1].name, "Reading");
    assert_eq!(journal.undo_label(), Some("Rename desk"));
    let e = journal.pop_undo().unwrap();
    assert!(matches!(e.inverse, InverseAction::Session(SessionOp::RenameDesk { id: DeskId(2), ref from, ref to }) if from == "Reading" && to == "Desk 2"));
    rail_event_step(&mut desks, &mut journal, None, RailEvent::ReorderDesk { id: DeskId(2), to: 0 }, DeskId(3), (0, 0));
    assert_eq!((desks[0].id, desks[1].id), (DeskId(2), DeskId(1)));
    assert_eq!(journal.undo_label(), Some("Reorder desk"));
    let ev = RailEvent::CardDroppedOnInbox { id: card, source_desk: DeskId(1), was_at: (5, 5) };
    rail_event_step(&mut desks, &mut journal, None, ev, DeskId(3), (0, 0));
    assert!(desks[1].cards.is_empty());
    assert_eq!(journal.undo_label(), Some("Put card away"));
}

#[test]
fn palette_arrival_pans_to_a_card_already_there_without_journaling() {
    let card = NoteId(7);
    let mut desks = vec![desk(1, "A", (50, 60), vec![(card, (5, 5))])];
    let mut journal: Journal<InverseAction<SessionOp<(i32, i32)>>> = Journal::new();
    assert_eq!(bring_note_to_desk(&mut desks, &mut journal, DeskId(1), card, (0, 0)), Arrival::Pan((5, 5)));
    assert_eq!(desks[0].cards, vec![(card, (5, 5))]);
    assert_eq!(journal.undo_label(), None);
    // Another note is placed at the viewport centre and journaled.
    assert_eq!(bring_note_to_desk(&mut desks, &mut journal, DeskId(1), NoteId(8), (0, 0)), Arrival::Placed);
    assert_eq!(desks[0].cards, vec![(card, (5, 5)), (NoteId(8), (50, 60))]);
    assert_eq!(journal.undo_label(), Some("Place card"));
}

#[test]
fn card_menu_moves_cards_between_desks() {
    let card = NoteId(7);
    let mut desks = vec![desk(1, "A", (0, 0), vec![(card, (5, 5))]), desk(2, "B", (100, 100), vec![])];
    let mut journal: Journal<InverseAction<SessionOp<(i32, i32)>>> = Journal::new();
    // Take to Desk from desk A: one "Move card to desk 'B'" entry.
    card_menu_desk_step(&mut desks, &mut journal, CardMenuEvent::TakeToDesk { id: card, desk: DeskId(2) }, Some(DeskId(1)), (0, 0));
    assert!(desks[0].cards.is_empty());
    assert_eq!(desks[1].cards, vec![(card, (100, 100))]);
    assert_eq!(journal.undo_label(), Some("Move card to desk 'B'"));
    // Put Away on desk B.
    card_menu_desk_step(&mut desks, &mut journal, CardMenuEvent::PutAway(card), Some(DeskId(2)), (0, 0));
    assert!(desks[1].cards.is_empty());
    assert_eq!(journal.undo_label(), Some("Put card away"));
    let e = journal.pop_undo().unwrap();
    assert!(matches!(e.inverse, InverseAction::Session(SessionOp::Place { desk: DeskId(2), id, pos: (100, 100) }) if id == card));
    // Take to Desk from the Inbox: placed at the centre.
    card_menu_desk_step(&mut desks, &mut journal, CardMenuEvent::TakeToDesk { id: card, desk: DeskId(1) }, None, (0, 0));
    assert_eq!(desks[0].cards, vec![(card, (0, 0))]);
    assert_eq!(journal.undo_label(), Some("Place card"));
    // Put Away off a desk does nothing.
    card_menu_desk_step(&mut desks, &mut journal, CardMenuEvent::PutAway(card), None, (0, 0));
    assert_eq!(desks[0].cards, vec![(card, (0, 0))]);
    assert_eq!(journal.undo_label(), Some("Place card"));
}

#[test]
fn dragging_a_card_moves_it_or_drops_it_on_the_rail() {
    let card = NoteId(7);
    let a = desk(1, "A", (0, 0), vec![(card, (5, 5))]);
    let mut drag = None;
    let mut focus = None;
    // Press on the card: the drag starts and the card takes the focus.
    let out = desk_drag_step(&a, &mut drag, &mut focus, false, Some(card), false, false, None, (0, 0));
    assert!(matches!(out.as_slice(), [DragOutcome::Focus(i)] if *i == card));
    assert_eq!(drag, Some(CardDrag { id: card, from: (5, 5) }));
    assert_eq!(focus, Some(card));
    // A short release is a click: nothing moves.
    let out = desk_drag_step(&a, &mut drag, &mut focus, false, None, true, false, None, (9, 9));
    assert!(out.is_empty());
    assert_eq!(drag, None);
    // A long drag moves the card; onto another desk's row it moves there.
    desk_drag_step(&a, &mut drag, &mut focus, false, Some(card), false, false, None, (0, 0));
    let out = desk_drag_step(&a, &mut drag, &mut focus, false, None, true, true, None, (40, 50));
    assert!(matches!(out.as_slice(), [DragOutcome::Move { desk: DeskId(1), id, from: (5, 5), to: (40, 50) }] if *id == card));
    desk_drag_step(&a, &mut drag, &mut focus, false, Some(card), false, false, None, (0, 0));
    let out = desk_drag_step(&a, &mut drag, &mut focus, false, None, true, true, Some(RailDropTarget::Desk(DeskId(2))), (40, 50));
    assert!(matches!(out.as_slice(), [DragOutcome::Rail(RailEvent::CardDroppedOnDesk { target_desk: DeskId(2), source_desk: DeskId(1), was_at: (5, 5), .. })]));
    desk_drag_step(&a, &mut drag, &mut focus, false, Some(card), false, false, None, (0, 0));
    let out = desk_drag_step(&a, &mut drag, &mut focus, false, None, true, true, Some(RailDropTarget::Inbox), (40, 50));
    assert!(matches!(out.as_slice(), [DragOutcome::Rail(RailEvent::CardDroppedOnInbox { source_desk: DeskId(1), .. })]));
    // Behind the palette no drag starts.
    let out = desk_drag_step(&a, &mut drag, &mut focus, true, Some(card), false, false, None, (0, 0));
    assert!(out.is_empty());
    assert_eq!(drag, None);
    // Applying the move journals "Move card".
    let mut desks = vec![a];
    let mut journal: Journal<InverseAction<SessionOp<(i32, i32)>>> = Journal::new();
    move_card_step(&mut desks, &mut journal, DeskId(1), card, (5, 5), (40, 50));
    assert_eq!(desks[0].cards, vec![(card, (40, 50))]);
    assert_eq!(journal.undo_label(), Some("Move card"));
}

#[test]
fn split_lands_beside_the_original() {
    let orig = NoteId(7);
    let split = NoteId(8);
    let mut desks = vec![desk(1, "A", (0, 0), vec![(orig, (5, 5))])];
    let mut pending = Some(orig);
    let step = split_placement_step(&mut desks, &mut pending, true, &[split], None, (0, 0));
    assert_eq!(pending, None);
    assert_eq!(step.target, Some(SplitTarget { desk: DeskId(1), at: (5, 5) }));
    assert_eq!(step.echo.as_deref(), Some("Split placed on desk 'A'"));
    place_card(&mut desks, DeskId(1), split, (5 + 324, 5));
    assert_eq!(desks[0].cards, vec![(orig, (5, 5)), (split, (329, 5))]);
    // With no desk at all nothing is placed.
    let mut none: Vec<DeskCards<(i32, i32)>> = Vec::new();
    let mut pending = Some(orig);
    let step = split_placement_step(&mut none, &mut pending, true, &[split], None, (0, 0));
    assert_eq!(step.target, None);
    assert_eq!(step.echo.as_deref(), Some("Split cards are in the vault (no desk to place them)"));
    // Another source's op leaves the pending split alone.
    let mut pending = Some(orig);
    let step = split_placement_step(&mut desks, &mut pending, false, &[split], None, (0, 0));
    assert_eq!(pending, Some(orig));
    assert!(step.target.is_none() && step.echo.is_none());
}
