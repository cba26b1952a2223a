use jd_app::create::{CreateTracker, PendingCreate, Placement};
use jd_app::note::{DeskId, NoteId};
use jd_app::ops::VaultOp;

fn nid(n: u8) -> NoteId {
    let s = format!("01ARZ3NDEKTSV4RRFFQ69G5F{n:02}");
    let alphabet = "0123456789ABCDEFGHJKMNPQRSTVWXYZ";
    let mut v: u128 = 0;
    for c in s.chars() {
        v = v * 32 + alphabet.find(c).unwrap() as u128;
    }
    NoteId(v)
}

#[test]
fn pending_create_sweep_opdone_before_scan_complete() {
    let mut t: CreateTracker<(f32, f32)> = CreateTracker::new();
    t.pending = Some(PendingCreate { at: (50.0, 50.0), open_editor: false });
    let new_id = nid(42);
    let inverse = VaultOp::Delete { id: new_id };
    // OpDone before any desk exists: nothing placed, the creation stays pending.
    assert!(t.on_op_done(Some(&inverse), &[new_id], None).is_none());
    assert!(t.pending.is_some(), "pending_create must stay alive when OpDone arrives before desk");
    assert_eq!(t.orphaned, Some(new_id), "orphaned_create_id must buffer the new note id");
    // ScanComplete made the bootstrap desk: the orphan is placed there.
    let desk = DeskId(7);
    let placed = t.on_scan_complete(Some(desk));
    assert!(t.orphaned.is_none(), "orphaned_create_id must be consumed after ScanComplete");
    assert!(t.pending.is_none(), "pending_create must be consumed during orphan placement");
    match placed {
        Some(Placement { desk: d, id, at, open_editor }) => {
            assert_eq!((d, id, at, open_editor), (desk, new_id, (50.0, 50.0), false));
        }
        None => panic!("orphaned card must be placed on the bootstrap desk"),
    }
}

#[test]
fn create_with_a_desk_is_placed_at_once() {
    let mut t: CreateTracker<u8> = CreateTracker::new();
    t.pending = Some(PendingCreate { at: 3, open_editor: true });
    let inverse = VaultOp::Delete { id: nid(1) };
    let p = t.on_op_done(Some(&inverse), &[nid(1)], Some(DeskId(1))).unwrap();
    assert_eq!((p.desk, p.id, p.at, p.open_editor), (DeskId(1), nid(1), 3, true));
    assert!(t.pending.is_none());
}

#[test]
fn other_ops_leave_the_pending_create_alone() {
    let mut t: CreateTracker<u8> = CreateTracker::new();
    t.pending = Some(PendingCreate { at: 3, open_editor: true });
    let inverse = VaultOp::Promote { id: nid(1) };
    assert!(t.on_op_done(Some(&inverse), &[nid(1)], Some(DeskId(1))).is_none());
    assert!(t.on_op_done(None, &[], Some(DeskId(1))).is_none());
    let delete = VaultOp::Delete { id: nid(1) };
    assert!(t.on_op_done(Some(&delete), &[], Some(DeskId(1))).is_none());
    assert!(t.pending.is_some());
    assert!(t.on_scan_complete(Some(DeskId(1))).is_none(), "nothing orphaned");
    assert!(t.pending.is_some());
}

#[test]
fn only_the_first_orphan_is_kept() {
    let mut t: CreateTracker<u8> = CreateTracker::new();
    t.pending = Some(PendingCreate { at: 0, open_editor: false });
    let delete = VaultOp::Delete { id: nid(1) };
    t.on_op_done(Some(&delete), &[nid(1)], None);
    t.on_op_done(Some(&delete), &[nid(2)], None);
    assert_eq!(t.orphaned, Some(nid(1)));
}
