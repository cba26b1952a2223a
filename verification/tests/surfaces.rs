use jd_app::note::{DeskId, Kind, NoteId, Status};
use jd_app::surfaces::Overlays;
use jd_app::surfaces::desk::{
    card_a11y_label, desk_card_pointer, desk_keys, ghost_click, ghost_pool, reading_order, selected_edges, step_in_order, DeskKeyEvent, DeskKeys,
    GhostCandidate, PlacedCard,
};
use jd_app::surfaces::desk_picker::{picker_step, PickerState};
use jd_app::surfaces::drawer::{chip_labels, drawer_ids, drawer_keys, DrawerEvent, tag_chip_labels, tag_row_labels, DrawerFilters, DrawerNote};
use jd_app::surfaces::inbox::{inbox_card_pointer, inbox_keys, move_linear_focus, position, toss_focus, InboxEvent, InboxKeys};
use jd_app::surfaces::map::{dimmed_node_ids, link_edges, map_keys, Arrival, LayoutSeed, MapGraph, MapKeyOutcome};

fn nid(n: u8) -> NoteId {
    NoteId(u128::from_be_bytes([n; 16]))
}

#[test]
fn a11y_labels_match_spec() {
    assert_eq!(
        card_a11y_label("Immediate mode trades layout power for state simplicity", "", false, 3, 2),
        "Card: 'Immediate mode trades layout power for state simplicity', 3 links, 2 tags"
    );
    assert_eq!(card_a11y_label("T", "", false, 1, 0), "Card: 'T', 1 link, 0 tags");
    assert_eq!(card_a11y_label("", "buy milk", true, 0, 0), "Scrap: 'buy milk'");
}

#[test]
fn selected_edges_dedup_both_directions_on_desk_only() {
    // A links B and C; B and D link back to A; C is off the desk.
    let out = [Some(nid(2)), Some(nid(3))];
    let back = [nid(2), nid(4)];
    let on_desk = [nid(1), nid(2), nid(4)];
    let edges = selected_edges(nid(1), &out, &back, &on_desk);
    assert_eq!(edges.len(), 2, "A–B (dedup) and A–D, not off-desk A–C");
    assert!(edges.contains(&(nid(1), nid(2))));
    assert!(edges.contains(&(nid(1), nid(4))));
}

#[test]
fn selected_edges_empty_without_links() {
    let on_desk = [nid(1), nid(2)];
    assert!(selected_edges(nid(1), &[], &[], &on_desk).is_empty());
    assert!(selected_edges(nid(1), &[None, Some(nid(1))], &[nid(1)], &on_desk).is_empty());
}

#[test]
fn ghost_pool_collects_relations() {
    // Anchor 1: links 2, backlinked by 3; 4 shares two tags, 5 one; 6 similar only.
    let out = [Some(nid(2)), Some(nid(2)), None];
    let back = [nid(3)];
    let tags = vec![vec![nid(1), nid(4), nid(5)], vec![nid(1), nid(4)]];
    let similar = [nid(6), nid(2)];
    let on_desk = [nid(1)];
    let indexed: Vec<NoteId> = (1..=6).map(nid).collect();
    let pool = ghost_pool(nid(1), &out, &back, &tags, &similar, &on_desk, &indexed);
    assert_eq!(
        pool,
        vec![
            GhostCandidate { id: nid(2), direct_link: true, backlink: false, shared_tags: 0 },
            GhostCandidate { id: nid(3), direct_link: false, backlink: true, shared_tags: 0 },
            GhostCandidate { id: nid(4), direct_link: false, backlink: false, shared_tags: 2 },
            GhostCandidate { id: nid(5), direct_link: false, backlink: false, shared_tags: 1 },
            GhostCandidate { id: nid(6), direct_link: false, backlink: false, shared_tags: 0 },
        ]
    );
}

#[test]
fn ghost_pool_excludes_self_on_desk_and_unindexed() {
    let out = [Some(nid(2)), Some(nid(7))];
    let back = [nid(1)];
    let on_desk = [nid(1), nid(2)];
    let indexed = [nid(1), nid(2), nid(3)];
    let pool = ghost_pool(nid(1), &out, &back, &[], &[nid(3)], &on_desk, &indexed);
    assert_eq!(pool.len(), 1);
    assert_eq!(pool[0].id, nid(3));
}

#[test]
fn dimmed_set_is_nodes_minus_palette_results() {
    let nodes = [nid(1), nid(2), nid(3)];
    let dimmed = dimmed_node_ids(&nodes, &[nid(2), nid(9)]);
    assert!(dimmed.contains(&nid(1)));
    assert!(!dimmed.contains(&nid(2)), "palette hits stay lit");
    assert!(dimmed.contains(&nid(3)));
    assert_eq!(dimmed.len(), 2);
}

#[test]
fn dimmed_set_with_no_results_dims_everything() {
    let nodes = [nid(1), nid(2)];
    let dimmed = dimmed_node_ids(&nodes, &[]);
    assert_eq!(dimmed.len(), 2, "no hits → the whole field dims");
}

#[test]
fn dimmed_set_with_all_matching_dims_nothing() {
    let nodes = [nid(1), nid(2)];
    let dimmed = dimmed_node_ids(&nodes, &[nid(1), nid(2)]);
    assert!(dimmed.is_empty());
}

#[test]
fn link_edges_collapse_directions_and_drop_self_links() {
    let ids = [nid(3), nid(1), nid(2)];
    let outs = vec![vec![Some(nid(1)), Some(nid(3)), None], vec![Some(nid(3)), Some(nid(2))], vec![]];
    let edges = link_edges(&ids, &outs);
    assert_eq!(edges, vec![(nid(1), nid(2)), (nid(1), nid(3))]);
}

#[test]
fn map_graph_build_degrees_and_orphans() {
    let ids = [nid(4), nid(1), nid(3), nid(2)];
    let outs = vec![vec![], vec![Some(nid(2)), Some(nid(3))], vec![Some(nid(1))], vec![None]];
    let g = MapGraph::build(&ids, &outs);
    assert_eq!(g.nodes, vec![nid(1), nid(2), nid(3), nid(4)]);
    assert_eq!(g.edges, vec![(nid(1), nid(2)), (nid(1), nid(3))]);
    assert_eq!(g.linked, vec![nid(1), nid(2), nid(3)]);
    assert_eq!(g.orphans, vec![nid(4)]);
    assert_eq!(g.degrees.get(&nid(1).0), Some(&2));
    assert_eq!(g.degrees.get(&nid(2).0), Some(&1));
    assert_eq!(g.degrees.get(&nid(4).0), None);
}

#[test]
fn layout_seed_cold_and_warm() {
    let ids = [nid(1), nid(2), nid(3)];
    let outs = vec![vec![Some(nid(2)), Some(nid(3))], vec![Some(nid(3))], vec![]];
    let g = MapGraph::build(&ids, &outs);
    assert!(matches!(g.layout_seed(&[]), LayoutSeed::Cold));
    match g.layout_seed(&[nid(1), nid(2), nid(9)]) {
        LayoutSeed::Warm { cached, cached_edges, newcomers } => {
            assert_eq!(cached, vec![nid(1), nid(2)]);
            assert_eq!(cached_edges, vec![(nid(1), nid(2))]);
            assert_eq!(newcomers, vec![(nid(3), vec![nid(1), nid(2)])]);
        }
        other => panic!("unexpected {other:?}"),
    }
}

#[test]
fn arriving_notes_join_layout_or_ring() {
    let ids = [nid(1), nid(2), nid(5)];
    let outs = vec![vec![Some(nid(2))], vec![], vec![]];
    let mut g = MapGraph::build(&ids, &outs);
    assert!(matches!(g.add_note(nid(1), true, &[], &[]), Arrival::Ignored));
    assert!(matches!(g.add_note(nid(8), false, &[], &[]), Arrival::Ignored));
    // Linked only to an orphan: joins the ring.
    assert!(matches!(g.add_note(nid(6), true, &[Some(nid(5))], &[]), Arrival::Orphan));
    assert_eq!(g.orphans, vec![nid(5), nid(6)]);
    match g.add_note(nid(7), true, &[Some(nid(2)), Some(nid(7)), None], &[nid(1), nid(2)]) {
        Arrival::Linked(ns) => assert_eq!(ns, vec![nid(1), nid(2)]),
        other => panic!("unexpected {other:?}"),
    }
    assert_eq!(g.edges, vec![(nid(1), nid(2)), (nid(1), nid(7)), (nid(2), nid(7))]);
    assert_eq!(g.degrees.get(&nid(1).0), Some(&2));
    assert_eq!(g.degrees.get(&nid(2).0), Some(&2));
    assert_eq!(g.degrees.get(&nid(7).0), Some(&2));
    assert_eq!(g.linked, vec![nid(1), nid(2), nid(7)]);
    assert_eq!(g.nodes, vec![nid(1), nid(2), nid(5), nid(6), nid(7)]);
}

#[test]
fn inbox_linear_focus() {
    let ids = [nid(1), nid(2), nid(3)];
    assert_eq!(move_linear_focus(&ids, None, false, true), Some(nid(1)));
    assert_eq!(move_linear_focus(&ids, None, true, false), Some(nid(3)));
    assert_eq!(move_linear_focus(&ids, Some(nid(2)), false, true), Some(nid(3)));
    assert_eq!(move_linear_focus(&ids, Some(nid(3)), false, true), Some(nid(3)), "no wrap");
    assert_eq!(move_linear_focus(&ids, Some(nid(1)), true, false), Some(nid(1)), "no wrap");
    assert_eq!(move_linear_focus(&ids, Some(nid(9)), false, true), Some(nid(1)));
    assert_eq!(position(&ids, nid(3)), Some(2));
    assert_eq!(position(&ids, nid(7)), None);
}

#[test]
fn tossing_moves_focus_to_neighbour() {
    let ids = [nid(1), nid(2), nid(3)];
    assert_eq!(toss_focus(&ids, nid(2)), Some(nid(3)));
    assert_eq!(toss_focus(&ids, nid(3)), Some(nid(2)));
    assert_eq!(toss_focus(&[nid(1)], nid(1)), None);
}

#[test]
fn inbox_keys_emit_events_in_order() {
    let ids = [nid(1), nid(2)];
    let mut focus = None;
    let mut events = Vec::new();
    let keys = InboxKeys { prev: false, next: true, enter: true, ctrl_enter: false, delete: true, ctrl_d: true };
    let picker = inbox_keys(&ids, &mut focus, keys, true, false, &mut events);
    assert_eq!(events, vec![InboxEvent::OpenCard(nid(1)), InboxEvent::Toss(nid(1))]);
    assert_eq!(focus, Some(nid(2)));
    assert_eq!(picker, Some(nid(2)));
    let mut none_events = Vec::new();
    let mut f2 = Some(nid(1));
    let quiet = InboxKeys { prev: false, next: false, enter: false, ctrl_enter: true, delete: false, ctrl_d: true };
    assert_eq!(inbox_keys(&ids, &mut f2, quiet, false, false, &mut none_events), None);
    assert_eq!(none_events, vec![InboxEvent::Promote(nid(1))]);
    let mut empty_events = Vec::new();
    assert_eq!(inbox_keys(&[], &mut f2, keys, true, false, &mut empty_events), None);
    assert!(empty_events.is_empty());
}

#[test]
fn desk_picker_steps() {
    let desks = [DeskId(10), DeskId(11), DeskId(12)];
    let open = PickerState::open_for(nid(1));
    assert!(open.is_open());
    let (s1, p1) = picker_step(open, &desks, false, false, true, false, None);
    assert_eq!(s1.highlight, 1);
    assert!(p1.is_none());
    let (s2, _) = picker_step(s1, &desks, false, false, true, false, None);
    let (s3, _) = picker_step(s2, &desks, false, false, true, false, None);
    assert_eq!(s3.highlight, 2, "stops at the last desk");
    let (s4, p4) = picker_step(s3, &desks, true, false, false, false, None);
    assert_eq!(p4, Some((nid(1), DeskId(12))));
    assert_eq!(s4, PickerState::closed());
    let (s5, p5) = picker_step(open, &desks, false, true, false, false, None);
    assert!(p5.is_none() && !s5.is_open());
    let (_, p6) = picker_step(open, &desks, false, false, false, false, Some(DeskId(11)));
    assert_eq!(p6, Some((nid(1), DeskId(11))));
    assert_eq!(PickerState::default(), PickerState::closed());
}

fn note(n: u8, status: Status, kind: Kind, created: i64, modified: i64) -> DrawerNote {
    DrawerNote { id: nid(n), status, kind, created, modified, tag_match: n % 2 == 0, unlinked: n > 2 }
}

#[test]
fn drawer_lists_newest_first_with_filters() {
    let notes = [
        note(1, Status::Fleeting, Kind::Note, 1, 10),
        note(2, Status::Permanent, Kind::Note, 2, 30),
        note(3, Status::Permanent, Kind::Literature, 3, 30),
        note(4, Status::Permanent, Kind::Structure, 4, 5),
    ];
    let all = drawer_ids(&notes, &DrawerFilters::default(), &[]);
    assert_eq!(all, vec![nid(3), nid(2), nid(1), nid(4)]);
    let cards = DrawerFilters { cards: true, ..DrawerFilters::default() };
    assert!(cards.any_active());
    assert_eq!(drawer_ids(&notes, &cards, &[]), vec![nid(3), nid(2), nid(4)]);
    let tagged = DrawerFilters { tag: Some("t".to_owned()), unlinked: true, ..DrawerFilters::default() };
    assert_eq!(drawer_ids(&notes, &tagged, &[]), vec![nid(4)]);
    let attention = DrawerFilters { needs_attention: true, ..DrawerFilters::default() };
    assert_eq!(drawer_ids(&notes, &attention, &[nid(1)]), vec![nid(1)]);
    assert!(!DrawerFilters::default().any_active());
}

fn placed(n: u8, x: f32, y: f32) -> PlacedCard {
    let b = x.to_bits() as i32;
    let x_key = (b ^ ((((b >> 31) as u32) >> 1) as i32)) as i64;
    PlacedCard { id: nid(n), band: (y / 120.0).round() as i64, x_key }
}

#[test]
fn reading_order_is_bands_then_x() {
    let cards = vec![placed(1, 300.0, 10.0), placed(2, 5.0, 50.0), placed(3, 0.0, 200.0)];
    assert_eq!(reading_order(&cards), vec![nid(2), nid(1), nid(3)]);
}

#[test]
fn reading_order_stable_under_small_drags() {
    let before = vec![placed(1, 0.0, 100.0), placed(2, 200.0, 130.0)];
    let after = vec![placed(1, 0.0, 120.0), placed(2, 200.0, 110.0)];
    assert_eq!(reading_order(&before), reading_order(&after));
}

#[test]
fn reading_order_negative_x_and_id_ties() {
    let cards = vec![placed(3, 10.0, 0.0), placed(2, -10.0, 0.0), placed(1, 10.0, 0.0)];
    assert_eq!(reading_order(&cards), vec![nid(2), nid(1), nid(3)]);
}

#[test]
fn left_right_walk_reading_order_without_wrapping() {
    let order = [nid(1), nid(2), nid(3)];
    assert_eq!(step_in_order(&order, Some(nid(1)), false), None);
    assert_eq!(step_in_order(&order, Some(nid(1)), true), Some(nid(2)));
    assert_eq!(step_in_order(&order, Some(nid(2)), true), Some(nid(3)));
    assert_eq!(step_in_order(&order, Some(nid(3)), true), None);
    assert_eq!(step_in_order(&order, None, true), Some(nid(1)));
    assert_eq!(step_in_order(&order, Some(nid(9)), false), Some(nid(1)));
    assert_eq!(step_in_order(&[], None, true), None);
}

#[test]
fn drawer_chip_labels() {
    assert_eq!(chip_labels("Scraps", true), ("Scraps ×".to_owned(), "Filter: Scraps, active".to_owned()));
    assert_eq!(chip_labels("Cards", false), ("Cards".to_owned(), "Filter: Cards, inactive".to_owned()));
    assert_eq!(tag_chip_labels(Some("rust")), ("#rust ×".to_owned(), "Filter: #rust, active".to_owned()));
    assert_eq!(tag_chip_labels(None), ("Tag…".to_owned(), "Filter: Tag picker".to_owned()));
    assert_eq!(tag_row_labels("rust", 12), ("#rust (12)".to_owned(), "Tag: #rust (12)".to_owned()));
}

#[test]
fn desk_keys_promote_open_put_away_and_menu() {
    let order = [nid(1), nid(2), nid(3)];
    let mut focus = Some(nid(2));
    let mut events = Vec::new();
    let keys = DeskKeys { ctrl_enter: true, enter: true, backspace: true, shift_f10: true };
    let menu = desk_keys(&order, &mut focus, true, keys, false, &mut events);
    assert_eq!(
        events,
        vec![
            DeskKeyEvent::Promote(nid(2)),
            DeskKeyEvent::OpenCard(nid(2)),
            DeskKeyEvent::FocusChanged(Some(nid(3))),
            DeskKeyEvent::PutAway(nid(2)),
        ]
    );
    assert_eq!(focus, Some(nid(3)));
    assert!(menu);
    // The last card hands the focus back; a lone card leaves none.
    let mut f = Some(nid(3));
    let mut ev = Vec::new();
    desk_keys(&order, &mut f, false, DeskKeys { backspace: true, ..DeskKeys::default() }, false, &mut ev);
    assert_eq!(f, Some(nid(2)));
    let mut lone = Some(nid(1));
    let mut ev2 = Vec::new();
    let menu = desk_keys(&[nid(1)], &mut lone, false, DeskKeys { backspace: true, shift_f10: true, ..DeskKeys::default() }, false, &mut ev2);
    assert_eq!(lone, None);
    assert!(!menu);
    // A permanent card is not promoted; no focus, no events.
    let mut none = None;
    let mut ev3 = Vec::new();
    assert!(!desk_keys(&order, &mut none, true, keys, false, &mut ev3));
    assert!(ev3.is_empty());
}

#[test]
fn drawer_keys_walk_open_and_pick() {
    let ids = [nid(1), nid(2)];
    let mut focus = None;
    let mut events = Vec::new();
    assert_eq!(drawer_keys(&ids, &mut focus, false, true, true, true, true, false, &mut events), Some(nid(1)));
    assert_eq!(events, vec![DrawerEvent::OpenCard(nid(1))]);
    // A focus that is no longer listed opens nothing and picks nothing.
    let mut stale = Some(nid(9));
    let mut ev = Vec::new();
    assert_eq!(drawer_keys(&ids, &mut stale, false, false, true, true, true, false, &mut ev), None);
    assert!(ev.is_empty());
    // Nothing moves on an empty list.
    let mut f = Some(nid(1));
    assert_eq!(drawer_keys(&[], &mut f, true, false, false, false, true, false, &mut ev), None);
    assert_eq!(f, Some(nid(1)));
    let mut g = Some(nid(2));
    assert_eq!(drawer_keys(&ids, &mut g, true, false, false, true, false, false, &mut ev), None, "no desks, no picker");
    assert_eq!(g, Some(nid(1)));
}

#[test]
fn map_keys_follow_drawer_bindings_and_gate() {
    let ids = [nid(1), nid(2), nid(3)];
    let present = [nid(1), nid(2), nid(3)];
    // Up from nothing lands on the last node; Enter opens it.
    let mut focus = None;
    let out = map_keys(&ids, &present, &mut focus, false, true, false, true, true, true, true);
    assert_eq!(focus, Some(nid(3)));
    assert_eq!(
        out,
        MapKeyOutcome { open: Some(nid(3)), picker_for: Some(nid(3)), arm_menu: true }
    );
    // Down on the last node stays there; no desks, no picker.
    let out = map_keys(&ids, &present, &mut focus, false, false, true, false, true, false, false);
    assert_eq!(focus, Some(nid(3)));
    assert_eq!(out, MapKeyOutcome { open: None, picker_for: None, arm_menu: false });
    // A focus on a deleted note does not arm the menu.
    let mut gone = Some(nid(9));
    let out = map_keys(&ids, &present, &mut gone, false, false, false, true, false, true, true);
    assert_eq!(out, MapKeyOutcome { open: None, picker_for: None, arm_menu: false });
    // While an overlay is up nothing moves or fires.
    let mut f = Some(nid(2));
    let out = map_keys(&ids, &present, &mut f, true, true, false, true, true, true, true);
    assert_eq!(f, Some(nid(2)));
    assert_eq!(out, MapKeyOutcome { open: None, picker_for: None, arm_menu: false });
}

#[test]
fn overlays_gate_the_surface_keys() {
    assert!(!Overlays::default().keys_blocked());
    assert!(Overlays { palette_open: true, ..Overlays::default() }.keys_blocked());
    assert!(Overlays { popup_open: true, ..Overlays::default() }.keys_blocked());
    let order = [nid(1), nid(2)];
    let ids = [nid(1), nid(2)];
    // Desk: Enter and Backspace do nothing while blocked.
    let mut focus = Some(nid(1));
    let mut ev = Vec::new();
    let keys = DeskKeys { enter: true, backspace: true, shift_f10: true, ..DeskKeys::default() };
    assert!(!desk_keys(&order, &mut focus, false, keys, true, &mut ev));
    assert_eq!(focus, Some(nid(1)));
    assert!(ev.is_empty());
    // Inbox: arrows and Del do nothing while blocked.
    let mut f = None;
    let mut iev = Vec::new();
    let ik = InboxKeys { prev: false, next: true, enter: true, ctrl_enter: false, delete: true, ctrl_d: true };
    assert_eq!(inbox_keys(&ids, &mut f, ik, true, true, &mut iev), None);
    assert_eq!(f, None);
    assert!(iev.is_empty());
    // Drawer likewise.
    let mut g = None;
    let mut dev = Vec::new();
    assert_eq!(drawer_keys(&ids, &mut g, false, true, true, true, true, true, &mut dev), None);
    assert_eq!(g, None);
    assert!(dev.is_empty());
}

#[test]
fn pointer_gates_follow_the_palette() {
    // A checkbox click toggles; behind the palette it only focuses.
    let mut focus = None;
    let mut ev = Vec::new();
    desk_card_pointer(nid(1), &mut focus, Some(2), true, false, false, &mut ev);
    assert_eq!(ev, vec![DeskKeyEvent::ToggleTaskBox { id: nid(1), ordinal: 2 }]);
    assert_eq!(focus, None);
    let mut ev = Vec::new();
    desk_card_pointer(nid(1), &mut focus, Some(2), true, true, true, &mut ev);
    assert_eq!(ev, vec![DeskKeyEvent::FocusChanged(Some(nid(1)))]);
    assert_eq!(focus, Some(nid(1)));
    // A double-click opens unless the palette is open.
    let mut ev = Vec::new();
    desk_card_pointer(nid(1), &mut focus, None, true, true, false, &mut ev);
    assert_eq!(ev, vec![DeskKeyEvent::OpenCard(nid(1))]);
    assert_eq!(ghost_click(nid(3), true, false), Some(nid(3)));
    assert_eq!(ghost_click(nid(3), true, true), None);
    let mut f = None;
    let mut iev = Vec::new();
    inbox_card_pointer(nid(4), &mut f, true, true, true, &mut iev);
    assert_eq!(f, Some(nid(4)));
    assert!(iev.is_empty());
    inbox_card_pointer(nid(4), &mut f, false, true, false, &mut iev);
    assert_eq!(iev, vec![InboxEvent::OpenCard(nid(4))]);
}
