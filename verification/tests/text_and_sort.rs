use jd_app::ids::{contains_id, insert_sorted, push_unique};
use jd_app::note::NoteId;
use jd_app::sort::{key_less, sort_by_key, SortKey};
use jd_app::text::{is_whitespace, starts_with, trim_str};

#[test]
fn whitespace_matches_std_for_every_char() {
    for c in (0u32..=0x10FFFF).filter_map(char::from_u32) {
        assert_eq!(is_whitespace(c), c.is_whitespace(), "{:?}", c);
    }
}

#[test]
fn trim_matches_std() {
    for s in ["", "  a b  ", "\u{3000}x\u{85}", "\t\n", "abc", " é "] {
        assert_eq!(trim_str(s), s.trim());
    }
}

#[test]
fn prefix_test_matches_std() {
    for (s, p) in [("Split card x", "Split card"), ("Split", "Split card"), ("", ""), ("abc", "abd")] {
        assert_eq!(starts_with(s, p), s.starts_with(p));
    }
}

#[test]
fn sorted_id_sets() {
    let mut v: Vec<NoteId> = Vec::new();
    for n in [5u128, 1, 3, 5, 2] {
        insert_sorted(&mut v, NoteId(n));
    }
    assert_eq!(v, vec![NoteId(1), NoteId(2), NoteId(3), NoteId(5)]);
    assert!(contains_id(&v, NoteId(3)));
    assert!(!contains_id(&v, NoteId(4)));
    let mut u = vec![NoteId(1)];
    push_unique(&mut u, NoteId(1));
    push_unique(&mut u, NoteId(2));
    assert_eq!(u, vec![NoteId(1), NoteId(2)]);
}

#[test]
fn sort_by_key_orders_lexicographically() {
    let k = |a: i128, b: i128, c: i128, id: u128| SortKey { first: a, second: b, third: c, id };
    let items = vec![(k(1, 0, 0, 1), 'a'), (k(0, 5, 0, 2), 'b'), (k(0, 5, -1, 3), 'c'), (k(0, 5, -1, 0), 'd')];
    let sorted = sort_by_key(items);
    let order: String = sorted.iter().map(|p| p.1).collect();
    assert_eq!(order, "dcba");
    assert!(key_less(&k(0, 0, 0, 1), &k(0, 0, 0, 2)));
    assert!(!key_less(&k(0, 0, 0, 2), &k(0, 0, 0, 2)));
}
