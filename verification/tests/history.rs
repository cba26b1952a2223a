use jd_app::journal::{
    finish_session_step, history_echo, record_op_done, restore_failed_undo_redo, start_history_step,
    view_travel, HistoryStep, InverseAction, Journal, JournalEntry, OpContext, Travel, UndoRedoKind,
    UndoRedoState,
};
use jd_app::note::{DeskId, Kind, NoteId, Status};
use jd_app::ops::{op_subject_ids, Dest, NewNote, OpSource, VaultOp};

fn nid(n: u8) -> NoteId {
    let s = format!("01ARZ3NDEKTSV4RRFFQ69G5F{n:02}");
    let alphabet = "0123456789ABCDEFGHJKMNPQRSTVWXYZ";
    let mut v: u128 = 0;
    for c in s.chars() {
        v = v * 32 + alphabet.find(c).unwrap() as u128;
    }
    NoteId(v)
}

fn journal_entry(n: u8) -> JournalEntry<InverseAction<u32>> {
    JournalEntry {
        label: format!("op {n}"),
        inverse: InverseAction::Vault(VaultOp::Promote { id: nid(n) }),
        context: OpContext::default(),
    }
}

#[test]
fn op_subject_ids_save_body() {
    let op = VaultOp::SaveBody { id: nid(1), content: "hello".into() };
    let mut out = Vec::new();
    op_subject_ids(&op, &mut out);
    assert_eq!(out, vec![nid(1)]);
}

#[test]
fn op_subject_ids_rename_title() {
    let op = VaultOp::RenameTitle { id: nid(2), new_title: "new name".into() };
    let mut out = Vec::new();
    op_subject_ids(&op, &mut out);
    assert_eq!(out, vec![nid(2)]);
}

#[test]
fn op_subject_ids_batch_collects_all() {
    let op = VaultOp::Batch(vec![
        VaultOp::SaveBody { id: nid(3), content: "body".into() },
        VaultOp::RenameTitle { id: nid(4), new_title: "title".into() },
    ]);
    let mut out = Vec::new();
    op_subject_ids(&op, &mut out);
    assert_eq!(out, vec![nid(3), nid(4)]);
}

#[test]
fn op_subject_ids_create_contributes_nothing() {
    let op = VaultOp::Create {
        seed: NewNote { body: String::new(), status: Status::Fleeting, kind: Kind::Note, source: None, tags: Vec::new() },
        dest: Dest::Inbox,
    };
    let mut out = Vec::new();
    op_subject_ids(&op, &mut out);
    assert!(out.is_empty());
}

#[test]
fn op_subject_ids_appends_nested_batches_in_order() {
    let op = VaultOp::Batch(vec![
        VaultOp::Toss { id: nid(5) },
        VaultOp::Batch(vec![VaultOp::Promote { id: nid(6) }, VaultOp::SetKind { id: nid(7), kind: Kind::Literature }]),
    ]);
    let mut out = vec![nid(1)];
    op_subject_ids(&op, &mut out);
    assert_eq!(out, vec![nid(1), nid(5), nid(6), nid(7)]);
}

#[test]
fn restore_failed_undo_redo_undo_restores_to_undo_stack() {
    let mut state: UndoRedoState<InverseAction<u32>> = UndoRedoState::new();
    let entry = journal_entry(1);
    let label = entry.label.clone();
    state.pending_undo_redo = Some(UndoRedoKind::Undo);
    state.pending_undo_entry = Some(entry);
    restore_failed_undo_redo(&mut state);
    assert!(state.pending_undo_redo.is_none(), "guard must be cleared");
    assert!(state.pending_undo_entry.is_none(), "stash must be cleared");
    assert_eq!(state.journal.undo_label(), Some(label.as_str()), "entry must be back on undo stack");
    assert!(state.journal.redo_label().is_none(), "redo stack must not be disturbed");
}

#[test]
fn restore_failed_undo_redo_redo_restores_to_redo_stack() {
    let mut state: UndoRedoState<InverseAction<u32>> = UndoRedoState::new();
    let entry = journal_entry(2);
    let label = entry.label.clone();
    state.pending_undo_redo = Some(UndoRedoKind::Redo);
    state.pending_undo_entry = Some(entry);
    restore_failed_undo_redo(&mut state);
    assert!(state.pending_undo_redo.is_none(), "guard must be cleared");
    assert!(state.pending_undo_entry.is_none(), "stash must be cleared");
    assert_eq!(state.journal.redo_label(), Some(label.as_str()), "entry must be back on redo stack");
}

#[test]
fn restore_failed_undo_redo_no_op_when_not_in_flight() {
    let mut state: UndoRedoState<InverseAction<u32>> = UndoRedoState::new();
    restore_failed_undo_redo(&mut state);
    assert!(state.pending_undo_redo.is_none());
    assert!(state.pending_undo_entry.is_none());
    assert!(state.journal.undo_label().is_none());
}

#[test]
fn push_clears_redo() {
    let mut j: Journal<InverseAction<u32>> = Journal::new();
    j.push(journal_entry(1));
    j.push_redo(journal_entry(2));
    assert_eq!(j.redo_label(), Some("op 2"));
    j.push(journal_entry(3));
    assert!(j.redo_label().is_none());
    assert_eq!(j.undo_label(), Some("op 3"));
}

#[test]
fn echo_texts() {
    assert_eq!(history_echo(UndoRedoKind::Undo, "Move card"), "Undid: Move card");
    assert_eq!(
        history_echo(UndoRedoKind::Undo, "Split card 'A'"),
        "Undid: Split card 'A' (split-off card moved to trash)"
    );
    assert_eq!(
        history_echo(UndoRedoKind::Undo, "Split scrap"),
        "Undid: Split scrap (split-off card moved to trash)"
    );
    assert_eq!(history_echo(UndoRedoKind::Redo, "Split card"), "Redid: Split card");
}

#[test]
fn vault_undo_stashes_then_fresh_inverse_goes_to_redo() {
    let mut state: UndoRedoState<InverseAction<u32>> = UndoRedoState::new();
    let mut pending_label = None;
    let travel = record_op_done(
        &mut state,
        OpSource::User,
        "Promote".to_owned(),
        Some(VaultOp::Demote { id: nid(1) }),
        &mut pending_label,
        Some(DeskId(9)),
    );
    assert!(travel.is_none());
    assert_eq!(state.journal.undo_label(), Some("Promote"));

    match start_history_step(&mut state, UndoRedoKind::Undo) {
        HistoryStep::SendVault { echo } => assert_eq!(echo, "Undid: Promote"),
        other => panic!("unexpected {other:?}"),
    }
    assert_eq!(state.pending_undo_redo, Some(UndoRedoKind::Undo));
    assert!(state.journal.undo_label().is_none());
    // A second Ctrl+Z while the first is in flight does nothing.
    assert!(matches!(start_history_step(&mut state, UndoRedoKind::Undo), HistoryStep::Idle));
    assert!(matches!(start_history_step(&mut state, UndoRedoKind::Redo), HistoryStep::Idle));

    let travel = record_op_done(
        &mut state,
        OpSource::UndoRedo,
        "Demote".to_owned(),
        Some(VaultOp::Promote { id: nid(1) }),
        &mut pending_label,
        None,
    );
    assert_eq!(travel, Some(OpContext { desk: Some(DeskId(9)), note: Some(nid(1)) }));
    assert!(state.pending_undo_redo.is_none() && state.pending_undo_entry.is_none());
    assert_eq!(state.journal.redo_label(), Some("Promote"));
}

#[test]
fn pending_label_overrides_vault_label_once() {
    let mut state: UndoRedoState<InverseAction<u32>> = UndoRedoState::new();
    let mut pending_label = Some("Promote card".to_owned());
    record_op_done(
        &mut state,
        OpSource::User,
        "Batch".to_owned(),
        Some(VaultOp::Batch(vec![VaultOp::SaveBody { id: nid(2), content: "x".into() }, VaultOp::Demote { id: nid(2) }])),
        &mut pending_label,
        None,
    );
    assert!(pending_label.is_none());
    assert_eq!(state.journal.undo_label(), Some("Promote card"));
    // A user op without an inverse is not journaled.
    record_op_done(&mut state, OpSource::User, "Nothing".to_owned(), None, &mut pending_label, None);
    assert_eq!(state.journal.undo_label(), Some("Promote card"));
}

#[test]
fn failed_vault_undo_leaves_history_as_it_was() {
    let mut state: UndoRedoState<InverseAction<u32>> = UndoRedoState::new();
    state.journal.push(journal_entry(1));
    state.journal.push(journal_entry(2));
    start_history_step(&mut state, UndoRedoKind::Undo);
    restore_failed_undo_redo(&mut state);
    assert_eq!(state.journal.undo_label(), Some("op 2"));
    assert!(state.journal.redo_label().is_none());
    assert!(state.pending_undo_redo.is_none());
}

#[test]
fn session_undo_hands_out_entry_and_reversed_inverses_go_to_redo() {
    let mut state: UndoRedoState<InverseAction<u32>> = UndoRedoState::new();
    state.journal.push(JournalEntry {
        label: "Arrange".to_owned(),
        inverse: InverseAction::Sessions(vec![1, 2, 3]),
        context: OpContext::default(),
    });
    let entry = match start_history_step(&mut state, UndoRedoKind::Undo) {
        HistoryStep::ApplySession { echo, entry } => {
            assert_eq!(echo, "Undid: Arrange");
            entry
        }
        other => panic!("unexpected {other:?}"),
    };
    assert!(state.pending_undo_redo.is_none());
    let applied = match entry.inverse {
        InverseAction::Sessions(ops) => ops.iter().map(|o| o * 10).collect::<Vec<u32>>(),
        _ => panic!("expected session ops"),
    };
    finish_session_step(&mut state.journal, UndoRedoKind::Undo, entry.label, entry.context, applied, true);
    assert_eq!(state.journal.redo_label(), Some("Arrange"));
    match start_history_step(&mut state, UndoRedoKind::Redo) {
        HistoryStep::ApplySession { echo, entry } => {
            assert_eq!(echo, "Redid: Arrange");
            match entry.inverse {
                InverseAction::Sessions(ops) => assert_eq!(ops, vec![30, 20, 10]),
                _ => panic!("expected session ops"),
            }
        }
        other => panic!("unexpected {other:?}"),
    }
}

#[test]
fn single_session_inverse_stays_single() {
    let mut j: Journal<InverseAction<u32>> = Journal::new();
    j.push_redo(journal_entry(8));
    finish_session_step(&mut j, UndoRedoKind::Redo, "Move card".to_owned(), OpContext::default(), vec![7], false);
    assert_eq!(j.undo_label(), Some("Move card"));
    assert_eq!(j.redo_label(), Some("op 8"), "a redo keeps the rest of the redo stack");
    match j.pop_undo() {
        Some(JournalEntry { inverse: InverseAction::Session(7), .. }) => {}
        other => panic!("unexpected {other:?}"),
    }
}

#[test]
fn empty_stacks_are_idle() {
    let mut state: UndoRedoState<InverseAction<u32>> = UndoRedoState::new();
    assert!(matches!(start_history_step(&mut state, UndoRedoKind::Undo), HistoryStep::Idle));
    assert!(matches!(start_history_step(&mut state, UndoRedoKind::Redo), HistoryStep::Idle));
}

#[test]
fn view_travel_skips_deleted_desk() {
    let desk_id = DeskId(1);
    let other_desk_id = DeskId(2);
    // Desk A was deleted since the entry was made; only Desk B is left and shown.
    let desks = [other_desk_id];
    let ctx = OpContext { desk: Some(desk_id), note: None };
    assert_eq!(
        view_travel(ctx, &desks, Some(other_desk_id), &[]),
        Travel::Stay,
        "current_surface should not change when desk is deleted"
    );
}

#[test]
fn view_travel_switches_and_reveals() {
    let ctx = OpContext { desk: Some(DeskId(1)), note: Some(nid(3)) };
    let desks = [DeskId(1), DeskId(2)];
    assert_eq!(
        view_travel(ctx, &desks, Some(DeskId(2)), &[nid(3)]),
        Travel::Go { desk: DeskId(1), switch: true, reveal: Some(nid(3)) }
    );
    assert_eq!(
        view_travel(ctx, &desks, Some(DeskId(1)), &[nid(4)]),
        Travel::Go { desk: DeskId(1), switch: false, reveal: None }
    );
    assert_eq!(view_travel(OpContext::default(), &desks, None, &[]), Travel::Stay);
}
