use jd_app::note::NoteId;
use jd_app::ops::VaultOp;
use jd_app::state::BodyCache;

fn nid(n: u8) -> NoteId {
    let s = format!("01ARZ3NDEKTSV4RRFFQ69G5F{n:02}");
    let alphabet = "0123456789ABCDEFGHJKMNPQRSTVWXYZ";
    let mut v: u128 = 0;
    for c in s.chars() {
        v = v * 32 + alphabet.find(c).unwrap() as u128;
    }
    NoteId(v)
}

#[test]
fn body_cache_requests_once_and_caches() {
    let mut requests: Vec<NoteId> = Vec::new();
    let mut c = BodyCache::default();
    assert!(c.get_or_request(nid(1), &mut requests).is_none());
    assert!(c.get_or_request(nid(1), &mut requests).is_none());
    assert_eq!(requests.len(), 1);
    assert_eq!(requests[0], nid(1));
    c.insert(nid(1), "hello".into());
    assert_eq!(c.get_or_request(nid(1), &mut requests).unwrap().text, "hello");
    assert_eq!(requests.len(), 1);
    c.invalidate(nid(1));
    assert!(c.get_or_request(nid(1), &mut requests).is_none());
    assert_eq!(requests.len(), 2);
}

#[test]
fn get_cached_never_requests() {
    let mut requests: Vec<NoteId> = Vec::new();
    let mut c = BodyCache::new();
    assert!(c.get_cached(nid(2)).is_none());
    c.insert(nid(2), "x".into());
    assert_eq!(c.get_cached(nid(2)).unwrap().text, "x");
    c.invalidate_all();
    assert!(c.get_cached(nid(2)).is_none());
    assert!(c.get_or_request(nid(2), &mut requests).is_none());
    assert_eq!(requests, vec![nid(2)]);
}

#[test]
fn op_completion_invalidates_created_and_subjects() {
    let mut c = BodyCache::new();
    for n in 1..=4 {
        c.insert(nid(n), format!("body {n}"));
    }
    let inverse = VaultOp::Batch(vec![VaultOp::Toss { id: nid(2) }, VaultOp::Demote { id: nid(3) }]);
    c.invalidate_after_op(&[nid(1)], Some(&inverse));
    assert!(c.get_cached(nid(1)).is_none());
    assert!(c.get_cached(nid(2)).is_none());
    assert!(c.get_cached(nid(3)).is_none());
    assert_eq!(c.get_cached(nid(4)).unwrap().text, "body 4");
    c.invalidate_many(&[nid(4)]);
    assert!(c.get_cached(nid(4)).is_none());
}
