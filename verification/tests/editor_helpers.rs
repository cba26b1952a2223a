use jd_app::editor::{editor_tick, EditorEvent};
use jd_app::ops::VaultOp;
use jd_app::editor::{
    ac_context, apply_completion, apply_enter, apply_tab, apply_url_paste, char_idx_to_byte,
    enter_action, heading_level, indent_line, is_probably_url, lex_cut, open_card_editor, AcContext, EditorState,
    EnterAction, MAX_LEXED_LINE_BYTES,
};
use jd_app::note::NoteId;
use jd_app::state::BodyCache;

#[test]
fn test_enter_action() {
    let cases: &[(&str, EnterAction)] = &[
        ("- item", EnterAction::Continue("- ".to_owned())),
        ("3. x", EnterAction::Continue("4. ".to_owned())),
        ("- [ ] x", EnterAction::Continue("- [ ] ".to_owned())),
        ("- [x] x", EnterAction::Continue("- [ ] ".to_owned())),
        ("> q", EnterAction::Continue("> ".to_owned())),
        ("- ", EnterAction::EndList { strip_from: 0 }),
        ("", EnterAction::Plain),
        ("9. x", EnterAction::Continue("10. ".to_owned())),
        ("plain line", EnterAction::Plain),
        ("  - nested", EnterAction::Continue("  - ".to_owned())),
        ("  - ", EnterAction::EndList { strip_from: 2 }),
    ];
    for (input, expected) in cases {
        let got = enter_action(input);
        assert_eq!(got, *expected, "enter_action({:?})", input);
    }
}

#[test]
fn enter_action_more_cases() {
    assert_eq!(enter_action("> "), EnterAction::EndList { strip_from: 0 });
    assert_eq!(enter_action("\u{3000}- "), EnterAction::EndList { strip_from: 3 });
    assert_eq!(enter_action("12.x"), EnterAction::Plain);
    assert_eq!(enter_action(". x"), EnterAction::Plain);
    assert_eq!(enter_action("18446744073709551614. x"), EnterAction::Continue("18446744073709551615. ".to_owned()));
    assert_eq!(enter_action("- [ ]   "), EnterAction::EndList { strip_from: 0 });
}

#[test]
fn test_indent_line() {
    assert_eq!(indent_line("- item", false), Some("  - item".to_owned()));
    assert_eq!(indent_line("  - item", false), Some("    - item".to_owned()));
    assert_eq!(indent_line("  - item", true), Some("- item".to_owned()));
    assert_eq!(indent_line("- item", true), None);
    assert_eq!(indent_line("plain", false), None);
    assert_eq!(indent_line("plain", true), None);
}

#[test]
fn indent_then_outdent_restores_list_line() {
    for line in ["- a", "> quote", "12. x", "  - deep"] {
        let indented = indent_line(line, false).unwrap();
        assert_eq!(indent_line(&indented, true).unwrap(), line);
    }
}

#[test]
fn test_ac_context() {
    let buf = "see [[Zettel";
    let ctx = ac_context(buf, buf.len());
    assert!(matches!(ctx, AcContext::Link { ref query, .. } if query == "Zettel"), "expected Link{{Zettel}}, got {:?}", ctx);
    let buf2 = "word #ta";
    let ctx2 = ac_context(buf2, buf2.len());
    assert!(matches!(ctx2, AcContext::Tag { ref query, .. } if query == "ta"), "expected Tag{{ta}}, got {:?}", ctx2);
    let buf3 = "# heading";
    let ctx3 = ac_context(buf3, buf3.len());
    assert!(matches!(ctx3, AcContext::NoContext), "heading should be None, got {:?}", ctx3);
    let buf4 = "a#b";
    let ctx4 = ac_context(buf4, buf4.len());
    assert!(matches!(ctx4, AcContext::NoContext), "a#b should be None, got {:?}", ctx4);
    let buf5 = "see [[Foo]]";
    let ctx5 = ac_context(buf5, buf5.len());
    assert!(matches!(ctx5, AcContext::NoContext), "closed [[ should be None, got {:?}", ctx5);
}

#[test]
fn ac_context_start_offsets_are_bytes() {
    assert_eq!(ac_context("é [[x", 7), AcContext::Link { start: 3, query: "x".to_owned() });
    assert_eq!(ac_context("line\nx #t", 9), AcContext::Tag { start: 7, query: "t".to_owned() });
    assert_eq!(ac_context("line\n#t", 7), AcContext::NoContext);
    assert_eq!(ac_context("see [[a]] and [[b", 100), AcContext::Link { start: 14, query: "b".to_owned() });
}

#[test]
fn test_is_probably_url() {
    assert!(is_probably_url("https://example.com"));
    assert!(is_probably_url("http://x.com/path?q=1"));
    assert!(!is_probably_url("not a url"));
    assert!(!is_probably_url("ftp://x"));
    assert!(!is_probably_url(""));
    assert!(!is_probably_url("file:///home/user"));
}

#[test]
fn char_idx_to_byte_counts_utf8_and_clamps() {
    assert_eq!(char_idx_to_byte("aé□b", 0), 0);
    assert_eq!(char_idx_to_byte("aé□b", 2), 3);
    assert_eq!(char_idx_to_byte("aé□b", 3), 6);
    assert_eq!(char_idx_to_byte("aé□b", 99), 7);
}

#[test]
fn enter_edits_the_buffer() {
    assert_eq!(apply_enter("- a", 3), "- a\n- ");
    assert_eq!(apply_enter("x\n  - ", 6), "x\n  \n");
    assert_eq!(apply_enter("ab", 1), "a\nb");
    assert_eq!(apply_enter("3. x\nrest", 4), "3. x\n4. \nrest");
    assert_eq!(apply_enter("- a", 99), "- a\n- ");
}

#[test]
fn tab_edits_the_line_under_the_cursor() {
    assert_eq!(apply_tab("top\n- a\nend", 5, false), Some("top\n  - a\nend".to_owned()));
    assert_eq!(apply_tab("top\n  - a\nend", 5, true), Some("top\n- a\nend".to_owned()));
    assert_eq!(apply_tab("top\nplain\nend", 5, false), None);
    assert_eq!(apply_tab("- a", 0, true), None);
}

#[test]
fn url_paste_over_selection_makes_a_link() {
    assert_eq!(
        apply_url_paste("see docs here", 8, 4, "https://x.io"),
        Some("see [docs](https://x.io) here".to_owned())
    );
    assert_eq!(apply_url_paste("see docs", 4, 4, "https://x.io"), None);
    assert_eq!(apply_url_paste("see docs", 4, 8, "not a url"), None);
    assert_eq!(apply_url_paste("ab", 1, 50, "http://y"), Some("a[b](http://y)".to_owned()));
}

#[test]
fn completion_replaces_the_typed_query() {
    assert_eq!(apply_completion("see [[Zet", 9, "Zettel"), Some("see [[Zettel]]".to_owned()));
    assert_eq!(apply_completion("tag #ru more", 7, "rust"), Some("tag #rust  more".to_owned()));
    assert_eq!(apply_completion("plain", 5, "x"), None);
}

#[test]
fn editor_state_opens_clean() {
    let mut ed = EditorState::open(NoteId(7), "body".to_owned());
    assert_eq!(ed.id, NoteId(7));
    assert_eq!(ed.buffer, "body");
    assert!(!ed.dirty);
    assert!(ed.needs_focus);
    assert_eq!(ed.ac_selected, 0);
    ed.set_buffer("changed".to_owned());
    assert!(ed.dirty);
    assert_eq!(ed.buffer, "changed");
}

#[test]
fn long_lines_are_cut_at_a_char_boundary() {
    assert_eq!(lex_cut("short"), None);
    let exact = "a".repeat(MAX_LEXED_LINE_BYTES);
    assert_eq!(lex_cut(&exact), None);
    let long = "a".repeat(MAX_LEXED_LINE_BYTES + 5);
    assert_eq!(lex_cut(&long), Some(MAX_LEXED_LINE_BYTES));
    let mut tricky = "a".repeat(MAX_LEXED_LINE_BYTES - 1);
    tricky.push('é');
    tricky.push_str("tail");
    assert_eq!(lex_cut(&tricky), Some(MAX_LEXED_LINE_BYTES - 1));
}

#[test]
fn heading_levels_clamp() {
    assert_eq!(heading_level("# a"), 1);
    assert_eq!(heading_level("### a"), 3);
    assert_eq!(heading_level("###### a"), 3);
    assert_eq!(heading_level("plain"), 1);
    assert_eq!(heading_level("## b"), 2);
}

#[test]
fn open_card_editor_waits_for_the_body_and_keeps_promotion() {
    let id = NoteId(7);
    let mut cache = BodyCache::new();
    let mut requests = Vec::new();
    let mut stash = false;
    // Body not loaded: one read is asked for, the promotion wish is kept.
    assert!(open_card_editor(None, id, true, &mut stash, &mut cache, &mut requests).is_none());
    assert_eq!(requests, vec![id]);
    assert!(stash);
    // A later plain open neither asks again nor drops the wish.
    assert!(open_card_editor(None, id, false, &mut stash, &mut cache, &mut requests).is_none());
    assert_eq!(requests, vec![id]);
    assert!(stash);
    // Once loaded, the editor opens with the stashed wish, which is cleared.
    cache.insert(id, "- a".to_owned());
    let (e, promote) = open_card_editor(None, id, false, &mut stash, &mut cache, &mut requests).unwrap();
    assert_eq!((e.id, e.buffer.as_str(), e.dirty), (id, "- a", false));
    assert!(promote);
    assert!(!stash);
    // Re-opening the card already in the editor changes nothing.
    let mut s2 = false;
    assert!(open_card_editor(Some(id), id, true, &mut s2, &mut cache, &mut requests).is_none());
    assert!(!s2);
    // Another editor already open: nothing opens, the wish waits.
    assert!(open_card_editor(Some(NoteId(8)), id, true, &mut s2, &mut cache, &mut requests).is_none());
    assert!(s2);
}

#[test]
fn editor_tick_autosaves_after_a_second_and_closes_on_request() {
    let mut ed = EditorState::open(NoteId(3), "a".to_owned());
    ed.set_buffer("ab".to_owned());
    // An edit at t=1000: journaled (never before), not yet saved.
    let t = editor_tick(&mut ed, true, 1000, false, false);
    assert_eq!(t.event, EditorEvent::KeepOpen);
    assert_eq!(t.journal_buffer.as_deref(), Some("ab"));
    assert!(t.save.is_none());
    assert!(ed.dirty);
    // Exactly one second later: still not saved.
    assert!(editor_tick(&mut ed, false, 2000, false, false).save.is_none());
    // Past a second: autosaved and clean, still open.
    let t = editor_tick(&mut ed, false, 2001, false, false);
    match t.save {
        Some(VaultOp::SaveBody { id, content }) => {
            assert_eq!(id, NoteId(3));
            assert_eq!(content, "ab");
        }
        _ => panic!("expected an autosave"),
    }
    assert!(!ed.dirty);
    assert_eq!(t.event, EditorEvent::KeepOpen);
    // An edit within two seconds of the last journal write is not journaled.
    let t = editor_tick(&mut ed, true, 2500, false, false);
    assert!(t.journal_buffer.is_none());
    // Ctrl+Enter or Esc/backdrop closes.
    assert_eq!(editor_tick(&mut ed, false, 2600, true, false).event, EditorEvent::CloseAndSave);
    assert_eq!(editor_tick(&mut ed, false, 2700, false, true).event, EditorEvent::CloseAndSave);
}
