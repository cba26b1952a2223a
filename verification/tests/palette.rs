use jd_app::note::{DeskId, Kind, NoteId, Status};
use jd_app::ops::{Dest, VaultOp};
use jd_app::palette::{
    compute_results, palette_activation, Activation, BodyHit, FuzzyScore, PaletteEvent, PaletteRow,
    PaletteState, Snippet, TitleMatch, row_view, RowMeta,
};
use jd_app::state::BodyCache;

fn nid(n: u8) -> NoteId {
    let s = format!("01ARZ3NDEKTSV4RRFFQ69G5F{n:02}");
    let alphabet = "0123456789ABCDEFGHJKMNPQRSTVWXYZ";
    let mut v: u128 = 0;
    for c in s.chars() {
        v = v * 32 + alphabet.find(c).unwrap() as u128;
    }
    NoteId(v)
}

fn title(n: u8, tier: u32, score: i64, modified: i64) -> TitleMatch {
    TitleMatch { id: nid(n), score: FuzzyScore { tier, score }, modified }
}

fn hit(n: u8, text: &str) -> BodyHit {
    BodyHit { id: nid(n), snippet: Snippet { text: text.to_owned(), highlights: vec![(0, 5)] } }
}

#[test]
fn empty_query_yields_no_rows() {
    let titled = [title(1, 0, 10, 10)];
    let hits = [hit(1, "body")];
    let mut bodies = BodyCache::default();
    let mut requests = Vec::new();
    assert!(compute_results("", &titled, &hits, &mut bodies, &mut requests).is_empty());
    assert!(compute_results("   ", &titled, &hits, &mut bodies, &mut requests).is_empty());
    assert!(requests.is_empty());
}

#[test]
fn strata_order_title_then_body_then_new_scrap() {
    let titled = [title(1, 0, 10, 10)];
    let hits = [hit(2, "alpha appears in this body")];
    let mut bodies = BodyCache::default();
    let mut requests = Vec::new();
    let rows = compute_results("alpha", &titled, &hits, &mut bodies, &mut requests);
    assert_eq!(rows.len(), 3, "title + body + new-scrap, got {rows:?}");
    assert!(matches!(&rows[0], PaletteRow::Title { id, .. } if *id == nid(1)));
    assert!(matches!(&rows[1], PaletteRow::Body { id, .. } if *id == nid(2)));
    assert!(matches!(&rows[2], PaletteRow::NewScrap));
}

#[test]
fn stratum_two_dedupes_stratum_one_ids() {
    let titled = [title(1, 0, 10, 10)];
    let hits = [hit(1, "alpha alpha alpha")];
    let mut bodies = BodyCache::default();
    let mut requests = Vec::new();
    let rows = compute_results("alpha", &titled, &hits, &mut bodies, &mut requests);
    let hits: Vec<_> = rows.iter().filter(|r| !matches!(r, PaletteRow::NewScrap)).collect();
    assert_eq!(hits.len(), 1, "deduped: {rows:?}");
    assert!(matches!(hits[0], PaletteRow::Title { id, .. } if *id == nid(1)));
    assert!(requests.is_empty(), "a deduped hit asks for no body");
}

#[test]
fn untitled_scraps_excluded_from_stratum_one_but_match_stratum_two() {
    let titled: [TitleMatch; 0] = [];
    let hits = [hit(1, "alpha scribble")];
    let mut bodies = BodyCache::default();
    let mut requests = Vec::new();
    let rows = compute_results("alpha", &titled, &hits, &mut bodies, &mut requests);
    assert!(!rows.iter().any(|r| matches!(r, PaletteRow::Title { .. })), "untitled scrap must not be a Title row: {rows:?}");
    assert!(rows.iter().any(|r| matches!(r, PaletteRow::Body { id, .. } if *id == nid(1))), "untitled scrap must match via body: {rows:?}");
}

#[test]
fn recency_breaks_title_score_ties() {
    let titled = [title(1, 0, 50, 10), title(2, 0, 50, 99)];
    let mut bodies = BodyCache::default();
    let mut requests = Vec::new();
    let rows = compute_results("alpha", &titled, &[], &mut bodies, &mut requests);
    assert!(matches!(&rows[0], PaletteRow::Title { id, .. } if *id == nid(2)), "newer note must rank first on tie: {rows:?}");
    assert!(matches!(&rows[1], PaletteRow::Title { id, .. } if *id == nid(1)));
}

#[test]
fn title_rank_is_tier_then_score_then_recency_then_id() {
    let titled = [
        title(1, 1, 90, 5),
        title(2, 0, 10, 5),
        title(3, 0, 30, 5),
        title(4, 0, 30, 5),
        title(5, 0, 30, 7),
    ];
    let mut bodies = BodyCache::default();
    let mut requests = Vec::new();
    let rows = compute_results("q", &titled, &[], &mut bodies, &mut requests);
    let ids: Vec<NoteId> = rows.iter().filter_map(|r| r.note_id()).collect();
    assert_eq!(ids, vec![nid(5), nid(3), nid(4), nid(2), nid(1)]);
}

#[test]
fn body_snippet_blank_while_loading_and_requests_once() {
    let hits = [hit(1, "alpha appears here")];
    let mut bodies = BodyCache::default();
    let mut requests = Vec::new();
    let rows = compute_results("alpha", &[], &hits, &mut bodies, &mut requests);
    let PaletteRow::Body { snippet, .. } = &rows[0] else {
        panic!("expected Body row: {rows:?}");
    };
    assert!(snippet.text.is_empty(), "blank while loading");
    assert_eq!(requests.len(), 1);
    assert_eq!(requests[0], nid(1));

    bodies.insert(nid(1), "alpha appears here".into());
    let rows = compute_results("alpha", &[], &hits, &mut bodies, &mut requests);
    let PaletteRow::Body { snippet, .. } = &rows[0] else {
        panic!("expected Body row: {rows:?}");
    };
    assert!(snippet.text.contains("alpha"), "snippet: {snippet:?}");
    assert!(!snippet.highlights.is_empty(), "highlights: {snippet:?}");
    assert_eq!(requests.len(), 1, "no duplicate ReadBody");
}

#[test]
fn new_scrap_is_always_last_even_with_no_hits() {
    let mut bodies = BodyCache::default();
    let mut requests = Vec::new();
    let rows = compute_results("zzz-no-match", &[], &[], &mut bodies, &mut requests);
    assert_eq!(rows.len(), 1);
    assert!(matches!(&rows[0], PaletteRow::NewScrap));
}

#[test]
fn strata_caps_at_eight_per_stratum() {
    let titled: Vec<TitleMatch> = (1..=12).map(|n| title(n, 0, 10, n as i64)).collect();
    let mut bodies = BodyCache::default();
    let mut requests = Vec::new();
    let rows = compute_results("alpha", &titled, &[], &mut bodies, &mut requests);
    let title_count = rows.iter().filter(|r| matches!(r, PaletteRow::Title { .. })).count();
    assert_eq!(title_count, 8, "stratum 1 capped at 8: {rows:?}");
}

#[test]
fn palette_state_selection_and_recompute() {
    let mut pal = PaletteState::new();
    assert!(pal.take_focus_request());
    assert!(!pal.take_focus_request());
    pal.query = "alpha".to_owned();
    assert!(pal.needs_recompute());
    pal.store_results(vec![
        PaletteRow::Title { id: nid(1), score: FuzzyScore { tier: 0, score: 1 } },
        PaletteRow::NewScrap,
    ]);
    assert!(!pal.needs_recompute());
    assert_eq!(pal.result_ids(), vec![nid(1)]);
    pal.move_selection(true, false);
    assert_eq!(pal.selected, 1);
    pal.move_selection(true, false);
    assert_eq!(pal.selected, 1, "no moving past the last row");
    pal.move_selection(false, true);
    assert_eq!(pal.selected, 0);
    pal.move_selection(false, true);
    assert_eq!(pal.selected, 0);
    pal.selected = 1;
    pal.store_results(vec![PaletteRow::NewScrap, PaletteRow::NewScrap]);
    assert_eq!(pal.selected, 1, "same query keeps the selection");
    pal.query = "beta".to_owned();
    pal.store_results(vec![PaletteRow::NewScrap]);
    assert_eq!(pal.selected, 0, "a new query resets the selection");
}

#[test]
fn pending_snippet_forces_recompute() {
    let mut pal = PaletteState::default();
    pal.query = "a".to_owned();
    pal.store_results(vec![PaletteRow::Body {
        id: nid(3),
        snippet: Snippet { text: String::new(), highlights: Vec::new() },
    }]);
    assert!(pal.needs_recompute());
}

#[test]
fn keys_close_or_activate() {
    let mut pal = PaletteState::new();
    pal.query = "a".to_owned();
    pal.store_results(vec![PaletteRow::Title { id: nid(4), score: FuzzyScore { tier: 0, score: 1 } }]);
    assert!(matches!(pal.key_event(true, true, false), Some(PaletteEvent::Close)));
    match pal.key_event(false, false, true) {
        Some(PaletteEvent::Activate { row: PaletteRow::Title { id, .. }, open_after }) => {
            assert_eq!(id, nid(4));
            assert!(open_after);
        }
        other => panic!("unexpected {other:?}"),
    }
    assert!(pal.key_event(false, false, false).is_none());
    pal.move_selection(false, false);
    let empty = PaletteState::new();
    assert!(empty.key_event(false, true, false).is_none());
}

#[test]
fn activation_targets_current_or_first_desk() {
    let row = PaletteRow::Title { id: nid(1), score: FuzzyScore { tier: 0, score: 1 } };
    match palette_activation(&row, true, "q", Some(DeskId(5)), Some(DeskId(6))) {
        Activation::Note { id, desk, switch, open_editor } => {
            assert_eq!((id, desk, switch, open_editor), (nid(1), DeskId(5), false, true));
        }
        other => panic!("unexpected {other:?}"),
    }
    match palette_activation(&row, false, "q", None, Some(DeskId(6))) {
        Activation::Note { desk, switch, .. } => assert_eq!((desk, switch), (DeskId(6), true)),
        other => panic!("unexpected {other:?}"),
    }
    assert!(matches!(palette_activation(&row, false, "q", None, None), Activation::Nothing));
}

#[test]
fn activation_of_new_scrap_creates_trimmed_fleeting_note() {
    match palette_activation(&PaletteRow::NewScrap, false, "  buy milk ", None, None) {
        Activation::NewScrap(VaultOp::Create { seed, dest }) => {
            assert_eq!(seed.body, "buy milk");
            assert_eq!(seed.status, Status::Fleeting);
            assert_eq!(seed.kind, Kind::Note);
            assert!(seed.source.is_none() && seed.tags.is_empty());
            assert_eq!(dest, Dest::Inbox);
        }
        other => panic!("unexpected {other:?}"),
    }
    assert!(matches!(palette_activation(&PaletteRow::NewScrap, false, " \t", None, None), Activation::Nothing));
}

#[test]
fn row_view_labels_headings_tags_and_snippets() {
    let meta = RowMeta {
        title: None,
        first_line: "buy milk".to_owned(),
        tags: vec!["a".to_owned(), "b".to_owned(), "c".to_owned()],
        status: Status::Permanent,
        kind: Kind::Literature,
    };
    let body = PaletteRow::Body {
        id: nid(1),
        snippet: Snippet { text: "…milk and eggs…".to_owned(), highlights: vec![(3, 7)] },
    };
    let v = row_view(&body, Some(&meta), "milk");
    assert_eq!(v.heading, "buy milk");
    assert_eq!(v.label, "Result: 'buy milk'");
    assert_eq!(v.tags, vec!["#a".to_owned(), "#b".to_owned()]);
    assert_eq!(v.detail.as_deref(), Some("…milk and eggs…"));
    assert_eq!((v.status, v.kind), (Status::Permanent, Kind::Literature));

    // A titled note shows its title; a blank snippet shows no detail line.
    let titled = RowMeta { title: Some("Milk".to_owned()), ..meta };
    let blank = PaletteRow::Body { id: nid(1), snippet: Snippet { text: String::new(), highlights: Vec::new() } };
    let v = row_view(&blank, Some(&titled), "milk");
    assert_eq!(v.label, "Result: 'Milk'");
    assert_eq!(v.detail, None);

    // A note the index lacks reads as a blank scrap.
    let t = PaletteRow::Title { id: nid(2), score: FuzzyScore { tier: 0, score: 1 } };
    let v = row_view(&t, None, "x");
    assert_eq!(v.label, "Result: ''");
    assert!(v.tags.is_empty());
    assert_eq!((v.status, v.kind), (Status::Fleeting, Kind::Note));

    // The new-scrap row trims the query.
    let v = row_view(&PaletteRow::NewScrap, None, "  buy milk ");
    assert_eq!(v.heading, "New scrap: 'buy milk'");
    assert_eq!(v.label, v.heading);
}

#[test]
fn body_rows_are_capped_at_the_search_limit() {
    let hits: Vec<BodyHit> = (1..=10u8).map(|n| hit(n, "alpha here")).collect();
    let mut bodies = BodyCache::new();
    let mut requests = Vec::new();
    let rows = compute_results("alpha", &[], &hits, &mut bodies, &mut requests);
    assert_eq!(rows.len(), 9, "eight body rows and the new-scrap row");
    assert_eq!(requests.len(), 8);
}
