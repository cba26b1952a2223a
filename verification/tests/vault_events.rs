use jd_app::events::{drop_unindexed, vault_event_step, QuarantinedFile, VaultEvent, VaultStatus};
use jd_app::journal::UndoRedoState;
use jd_app::note::{DeskId, NoteId};
use jd_app::session::DeskCards;
use jd_app::state::BodyCache;

fn nid(n: u8) -> NoteId {
    NoteId(u128::from_be_bytes([n; 16]))
}

fn status() -> VaultStatus {
    VaultStatus {
        scan_done: false,
        quarantined: Vec::new(),
        conflicts: Vec::new(),
        pending_label: Some("Rename".to_owned()),
        last_error: None,
    }
}

#[test]
fn drain_events_tracks_quarantine_and_conflicts() {
    let mut st = status();
    let mut desks: Vec<DeskCards<(i32, i32)>> = Vec::new();
    let mut bodies = BodyCache::new();
    let mut history: UndoRedoState<u8> = UndoRedoState::new();
    let qfile = QuarantinedFile { rel_path: "notes/bad.md".to_owned(), error: "invalid UTF-8".to_owned() };
    let ev = VaultEvent::ScanComplete { quarantined: vec![qfile.clone()] };
    let switch = vault_event_step(ev, &mut st, &mut desks, &mut bodies, &mut history, DeskId(1), (0, 0));
    for n in [1u8, 1, 2] {
        vault_event_step(VaultEvent::Conflict { id: nid(n) }, &mut st, &mut desks, &mut bodies, &mut history, DeskId(2), (0, 0));
    }
    assert_eq!(st.quarantined.len(), 1, "quarantine list stored");
    assert_eq!(st.quarantined[0].rel_path, qfile.rel_path);
    assert_eq!(st.quarantined[0].error, qfile.error);
    assert_eq!(st.conflicts, vec![nid(1), nid(2)], "conflicts append in arrival order and dedup");
    // The first scan made the first desk.
    assert_eq!(switch, Some(DeskId(1)));
    assert_eq!(desks.len(), 1);
    assert_eq!(desks[0].name, "Desk");

    let ev = VaultEvent::ScanComplete { quarantined: vec![] };
    assert_eq!(vault_event_step(ev, &mut st, &mut desks, &mut bodies, &mut history, DeskId(3), (0, 0)), None);
    assert!(st.quarantined.is_empty(), "next ScanComplete replaces the list");
    assert_eq!(st.conflicts, vec![nid(1), nid(2)], "conflicts are session-scoped, not cleared by rescan");
    assert_eq!(desks.len(), 1, "no second first desk");
}

#[test]
fn failures_clear_the_pending_label_and_removals_leave_desks() {
    let mut st = status();
    let mut desks = vec![DeskCards { id: DeskId(1), name: "A".to_owned(), center: (0, 0), cards: vec![(nid(1), (1, 1)), (nid(2), (2, 2))] }];
    let mut bodies = BodyCache::new();
    bodies.insert(nid(2), "x".to_owned());
    let mut history: UndoRedoState<u8> = UndoRedoState::new();
    let ev = VaultEvent::OpFailed { label: "Save".to_owned(), message: "disk full".to_owned() };
    vault_event_step(ev, &mut st, &mut desks, &mut bodies, &mut history, DeskId(9), (0, 0));
    assert_eq!(st.last_error.as_deref(), Some("Save: disk full"));
    assert_eq!(st.pending_label, None);
    let ev = VaultEvent::External { changed: vec![], removed: vec![nid(2)] };
    vault_event_step(ev, &mut st, &mut desks, &mut bodies, &mut history, DeskId(9), (0, 0));
    assert_eq!(desks[0].cards, vec![(nid(1), (1, 1))]);
    assert!(bodies.get_cached(nid(2)).is_none());
    // Cards whose note left the index are dropped after an op.
    desks[0].cards.push((nid(3), (3, 3)));
    assert!(drop_unindexed(&mut desks, &[nid(1)]));
    assert_eq!(desks[0].cards, vec![(nid(1), (1, 1))]);
    assert!(!drop_unindexed(&mut desks, &[nid(1)]));
}
