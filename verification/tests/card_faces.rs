use jd_app::card::shape::{
    card_size, rules, shape_for, CardShape, CardSize, RuleInk, RuledLines, RED_RULE_Y,
    RULE_SPACING, RULE_TOP_OFFSET,
};
use jd_app::card::{divider_face_body, face_body_with_checkbox_glyphs, first_body_line, toggle_task_box};
use jd_app::note::{Kind, Status};

#[test]
fn face_body_replaces_task_boxes_with_glyphs() {
    let raw = "# Title\n- [ ] unchecked\n- [x] checked\n- [X] also checked\n- plain item";
    let (face, offsets) = face_body_with_checkbox_glyphs(raw);
    assert!(face.contains('□'), "must contain □ for unchecked");
    assert!(face.contains('■'), "must contain ■ for checked");
    assert!(!face.contains("- [ ]"), "raw unchecked marker must not appear in face body");
    assert!(!face.contains("- [x]"), "raw checked marker must not appear in face body");
    assert_eq!(offsets.len(), 3, "must have 3 checkbox char offsets");
    assert!(face.contains("plain item"), "non-task lines preserved");
    assert!(face.contains("# Title"), "heading preserved");
}

#[test]
fn toggle_task_box_unchecked_to_checked() {
    let raw = "- [ ] task one\n- [ ] task two\n- [x] task three";
    let result = toggle_task_box(raw, 0);
    assert!(result.contains("- [x] task one"), "first box must be checked, got: {result:?}");
    assert!(result.contains("- [ ] task two"), "second box unchanged, got: {result:?}");
}

#[test]
fn toggle_task_box_checked_to_unchecked() {
    let raw = "- [ ] task one\n- [x] task two";
    let result = toggle_task_box(raw, 1);
    assert!(result.contains("- [ ] task two"), "second box (checked→unchecked), got: {result:?}");
    assert!(result.contains("- [ ] task one"), "first box unchanged, got: {result:?}");
}

#[test]
fn toggle_task_box_ordinal_out_of_range_returns_unchanged() {
    let raw = "- [ ] only one box";
    let result = toggle_task_box(raw, 5);
    assert_eq!(result, raw, "out-of-range ordinal must return body unchanged");
}

#[test]
fn face_body_preserves_non_task_content() {
    let raw = "# Heading\nplain text\n**bold**";
    let (face, offsets) = face_body_with_checkbox_glyphs(raw);
    assert_eq!(face, raw, "no task boxes: face body must equal raw");
    assert!(offsets.is_empty(), "no checkbox offsets for task-free body");
}

#[test]
fn face_body_skips_task_boxes_inside_code_fence() {
    let raw = "- [ ] real task one\n```\n- [ ] fenced fake\n```\n- [ ] real task two";
    let (face, offsets) = face_body_with_checkbox_glyphs(raw);
    assert_eq!(offsets.len(), 2, "fenced task must not produce a glyph offset");
    assert!(face.contains("- [ ] fenced fake"), "fenced task line must be copied verbatim, got: {face:?}");
    assert!(face.contains("□ real task one"), "first real task must get □, got: {face:?}");
    assert!(face.contains("□ real task two"), "second real task must get □, got: {face:?}");
}

#[test]
fn toggle_task_box_skips_fenced_tasks() {
    let raw = "- [ ] real task one\n```\n- [ ] fenced fake\n```\n- [ ] real task two";
    let r0 = toggle_task_box(raw, 0);
    assert!(r0.contains("- [x] real task one"), "ordinal 0 must toggle first real task, got: {r0:?}");
    assert!(r0.contains("- [ ] fenced fake"), "fenced line must be untouched, got: {r0:?}");
    assert!(r0.contains("- [ ] real task two"), "second real task must be untouched, got: {r0:?}");
    let r1 = toggle_task_box(raw, 1);
    assert!(r1.contains("- [ ] real task one"), "first real task must be untouched, got: {r1:?}");
    assert!(r1.contains("- [ ] fenced fake"), "fenced line must be untouched, got: {r1:?}");
    assert!(r1.contains("- [x] real task two"), "ordinal 1 must toggle second real task, got: {r1:?}");
    let expected_byte_off = raw.rfind("- [ ] real task two").unwrap();
    assert_eq!(
        &r1[expected_byte_off..expected_byte_off + 19],
        "- [x] real task two",
        "toggled bytes must be at exact offset"
    );
}

#[test]
fn glyph_offsets_are_char_positions_of_the_glyphs() {
    let raw = "é\n- [ ] a\n  - [x] b";
    let (face, offsets) = face_body_with_checkbox_glyphs(raw);
    assert_eq!(face, "é\n- □ a\n  - ■ b");
    let chars: Vec<char> = face.chars().collect();
    assert_eq!(offsets, vec![4, 12]);
    assert_eq!(chars[offsets[0]], '□');
    assert_eq!(chars[offsets[1]], '■');
}

#[test]
fn toggling_twice_restores_the_body() {
    let raw = "x\n- [ ] one\n```\n- [x] fake\n```\n- [x] two";
    for ordinal in 0..3 {
        let once = toggle_task_box(raw, ordinal);
        assert_eq!(toggle_task_box(&once, ordinal), raw);
    }
}

#[test]
fn toggle_keeps_box_count_and_capital_x_unchecks() {
    let raw = "- [X] big";
    let once = toggle_task_box(raw, 0);
    assert_eq!(once, "- [ ] big");
    let (_, before) = face_body_with_checkbox_glyphs(raw);
    let (_, after) = face_body_with_checkbox_glyphs(&once);
    assert_eq!(before.len(), after.len());
}

#[test]
fn scrap_is_wider_than_tall_and_card_is_3x5() {
    let s = card_size(CardShape::Scrap);
    assert!(s.width as f32 / s.height as f32 > 1.5, "scrap reads as a torn strip");
    let c = card_size(CardShape::IndexCard);
    assert!((c.width as f32 / c.height as f32 - 1.5).abs() < 0.01, "3x5 proportions");
}

#[test]
fn card_sizes_exact() {
    assert_eq!(card_size(CardShape::Scrap), CardSize { width: 240, height: 130 });
    assert_eq!(card_size(CardShape::IndexCard), CardSize { width: 300, height: 200 });
    assert_eq!(card_size(CardShape::Literature), CardSize { width: 300, height: 224 });
    assert_eq!(card_size(CardShape::Divider), CardSize { width: 300, height: 208 });
}

#[test]
fn shape_for_exhaustive() {
    assert_eq!(shape_for(Status::Fleeting, Kind::Note), CardShape::Scrap);
    assert_eq!(shape_for(Status::Fleeting, Kind::Literature), CardShape::Scrap);
    assert_eq!(shape_for(Status::Fleeting, Kind::Structure), CardShape::Scrap);
    assert_eq!(shape_for(Status::Permanent, Kind::Note), CardShape::IndexCard);
    assert_eq!(shape_for(Status::Permanent, Kind::Literature), CardShape::Literature);
    assert_eq!(shape_for(Status::Permanent, Kind::Structure), CardShape::Divider);
}

#[test]
fn natural_rules_have_red_header_then_blue() {
    let r = rules(RuledLines::Natural, 200);
    assert!(r.len() >= 6);
    assert_eq!(r[0].1, RuleInk::Red);
    assert!(r[1..].iter().all(|(_, c)| *c == RuleInk::Blue));
    assert!(r.windows(2).all(|w| w[1].0 > w[0].0), "descending down the card");
    assert!(r.last().unwrap().0 < 200);
    assert!(rules(RuledLines::Unruled, 200).is_empty());
    assert!(rules(RuledLines::Ink, 200).iter().all(|(_, c)| *c == RuleInk::Ink));
}

#[test]
fn rule_positions_exact() {
    let r = rules(RuledLines::Natural, 200);
    assert_eq!(r[0].0, RED_RULE_Y);
    let ys: Vec<u32> = r[1..].iter().map(|(y, _)| *y).collect();
    assert_eq!(ys, vec![46, 68, 90, 112, 134, 156, 178]);
    assert_eq!(RULE_TOP_OFFSET + 7 * RULE_SPACING, 200);
    let ink: Vec<u32> = rules(RuledLines::Ink, 47).iter().map(|(y, _)| *y).collect();
    assert_eq!(ink, vec![46]);
    assert!(rules(RuledLines::Ink, 46).is_empty());
}

#[test]
fn first_body_line_strips_heading_marks_and_space() {
    assert_eq!(first_body_line(Some("## Buy milk  \nsecond")), "Buy milk");
    assert_eq!(first_body_line(Some("plain\r\nnext")), "plain");
    assert_eq!(first_body_line(Some("")), "");
    assert_eq!(first_body_line(None), "");
}

#[test]
fn divider_face_drops_title_line() {
    assert_eq!(divider_face_body("# Topics\nrest\nmore", "Topics"), Some("rest\nmore".to_owned()));
    assert_eq!(divider_face_body("# Topics", "Topics"), Some(String::new()));
    assert_eq!(divider_face_body("# Other\nrest", "Topics"), None);
}
