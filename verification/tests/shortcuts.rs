use jd_app::note::NoteId;
use jd_app::rail::move_card_label;
use jd_app::shortcuts::{global_keys, GlobalKeys, PaletteToggle};

#[test]
fn editor_open_swallows_global_keys() {
    let mut pending = None;
    let keys = GlobalKeys { ctrl_k: true, ctrl_n: true, ctrl_z: true, ..GlobalKeys::default() };
    let a = global_keys(keys, true, false, &mut pending, true, Some(NoteId(1)), true);
    assert_eq!(a.palette, PaletteToggle::Keep);
    assert!(!a.create_scrap && !a.undo);
}

#[test]
fn ctrl_k_toggles_and_open_palette_blocks_the_rest() {
    let mut pending = None;
    let keys = GlobalKeys { ctrl_k: true, ctrl_n: true, ctrl_z: true, delete: true, ..GlobalKeys::default() };
    let a = global_keys(keys, false, false, &mut pending, true, Some(NoteId(1)), true);
    assert_eq!(a.palette, PaletteToggle::Open);
    assert!(!a.create_scrap && !a.undo && a.toss.is_none());
    let a = global_keys(keys, false, true, &mut pending, true, Some(NoteId(1)), true);
    assert_eq!(a.palette, PaletteToggle::Close);
    assert!(a.create_scrap && a.toss == Some(NoteId(1)) && a.undo);
}

#[test]
fn del_on_a_card_asks_then_enter_deletes() {
    let mut pending = None;
    let del = GlobalKeys { delete: true, ctrl_z: true, ..GlobalKeys::default() };
    let a = global_keys(del, false, false, &mut pending, true, Some(NoteId(2)), false);
    assert_eq!(pending, Some(NoteId(2)));
    assert!(a.toss.is_none() && !a.undo, "a pending confirmation blocks undo");
    let k = GlobalKeys { ctrl_k: true, ctrl_n: true, ..GlobalKeys::default() };
    let a = global_keys(k, false, false, &mut pending, true, Some(NoteId(2)), false);
    assert_eq!(a.palette, PaletteToggle::Keep);
    assert!(!a.create_scrap);
    let enter = GlobalKeys { enter: true, ..GlobalKeys::default() };
    let a = global_keys(enter, false, false, &mut pending, true, Some(NoteId(2)), false);
    assert_eq!(a.delete, Some(NoteId(2)));
    assert!(pending.is_none());
}

#[test]
fn esc_cancels_and_redo_keys() {
    let mut pending = Some(NoteId(3));
    let esc = GlobalKeys { esc: true, ..GlobalKeys::default() };
    let a = global_keys(esc, false, false, &mut pending, true, None, false);
    assert!(pending.is_none() && a.delete.is_none());
    let y = GlobalKeys { ctrl_y: true, ..GlobalKeys::default() };
    assert!(global_keys(y, false, false, &mut pending, false, None, false).redo);
    let both = GlobalKeys { ctrl_z: true, ctrl_shift_z: true, ..GlobalKeys::default() };
    let a = global_keys(both, false, false, &mut pending, false, None, false);
    assert!(a.undo && !a.redo);
    let del_off_desk = GlobalKeys { delete: true, ..GlobalKeys::default() };
    let a = global_keys(del_off_desk, false, false, &mut pending, false, Some(NoteId(4)), true);
    assert!(a.toss.is_none() && pending.is_none());
}

#[test]
fn move_label_names_the_desk() {
    assert_eq!(move_card_label("Work"), "Move card to desk 'Work'");
}
