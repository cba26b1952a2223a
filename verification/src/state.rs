//! The body cache: note bodies fetched on demand with single-request discipline.
use crate::note::NoteId;
use crate::ops::{op_subject_ids, subject_ids, VaultOp};
use std::collections::{HashMap, HashSet};
use vstd::prelude::*;

verus! {

broadcast use vstd::std_specs::hash::group_hash_axioms;

/// A loaded note body.
pub struct CachedBody {
    pub text: String,
}

/// Cache for note bodies with single-request discipline.
/// A missing id asks for exactly ONE body read until either the body
/// arrives (`insert`) or the entry is invalidated (`invalidate` /
/// `invalidate_all`).
pub struct BodyCache {
    map: HashMap<u128, CachedBody>,
    pending: HashSet<u128>,
}

/// Abstract state of a `BodyCache`: the loaded bodies and the ids whose
/// read is in flight, both keyed by note id.
pub struct BodyCacheModel {
    pub bodies: Map<u128, Seq<char>>,
    pub pending: Set<u128>,
}

impl View for BodyCache {
    type V = BodyCacheModel;

    closed spec fn view(&self) -> BodyCacheModel {
        BodyCacheModel {
            bodies: self.map@.map_values(|c: CachedBody| c.text@),
            pending: self.pending@,
        }
    }
}

/// The model of one `get_or_request` on `id`: the cache after it and
/// whether a body read is issued.
pub open spec fn request_step(m: BodyCacheModel, id: NoteId) -> (BodyCacheModel, bool) {
    if m.bodies.contains_key(id.0) || m.pending.contains(id.0) {
        (m, false)
    } else {
        (BodyCacheModel { bodies: m.bodies, pending: m.pending.insert(id.0) }, true)
    }
}

impl BodyCache {
    /// An empty cache with nothing pending.
    pub fn new() -> (c: BodyCache)
        ensures
            c@.bodies == Map::<u128, Seq<char>>::empty(),
            c@.pending == Set::<u128>::empty(),
    {
        let c = BodyCache { map: HashMap::new(), pending: HashSet::new() };
        proof {
            assert(c@.bodies =~= Map::<u128, Seq<char>>::empty());
        }
        c
    }

    /// Returns the cached body, or `None` after appending ONE read request
    /// for `id` to `requests`. If a read is already pending, returns `None`
    /// without requesting a duplicate.
    pub fn get_or_request(&mut self, id: NoteId, requests: &mut Vec<NoteId>) -> (r: Option<
        &CachedBody,
    >)
        ensures
            final(self)@ == request_step(old(self)@, id).0,
            request_step(old(self)@, id).1 ==> final(requests)@ == old(requests)@.push(id),
            !request_step(old(self)@, id).1 ==> final(requests)@ == old(requests)@,
            old(self)@.bodies.contains_key(id.0) ==> (r matches Some(b) && b.text@
                == old(self)@.bodies[id.0]),
            !old(self)@.bodies.contains_key(id.0) ==> r is None,
    {
        if self.map.contains_key(&id.0) {
            return self.map.get(&id.0);
        }
        if !self.pending.contains(&id.0) {
            self.pending.insert(id.0);
            requests.push(id);
        }
        None
    }

    /// Insert a received body, clearing its pending flag.
    pub fn insert(&mut self, id: NoteId, content: String)
        ensures
            final(self)@.bodies == old(self)@.bodies.insert(id.0, content@),
            final(self)@.pending == old(self)@.pending.remove(id.0),
    {
        self.pending.remove(&id.0);
        self.map.insert(id.0, CachedBody { text: content });
        proof {
            assert(self@.bodies =~= old(self)@.bodies.insert(id.0, content@));
        }
    }

    /// Returns the cached body without requesting it; `None` if not yet loaded.
    pub fn get_cached(&self, id: NoteId) -> (r: Option<&CachedBody>)
        ensures
            self@.bodies.contains_key(id.0) ==> (r matches Some(b) && b.text@
                == self@.bodies[id.0]),
            !self@.bodies.contains_key(id.0) ==> r is None,
    {
        self.map.get(&id.0)
    }

    /// Invalidate a single entry, forcing re-request on next access.
    pub fn invalidate(&mut self, id: NoteId)
        ensures
            final(self)@.bodies == old(self)@.bodies.remove(id.0),
            final(self)@.pending == old(self)@.pending.remove(id.0),
    {
        self.map.remove(&id.0);
        self.pending.remove(&id.0);
        proof {
            assert(self@.bodies =~= old(self)@.bodies.remove(id.0));
        }
    }

    /// Invalidate every entry for `ids`.
    pub fn invalidate_many(&mut self, ids: &[NoteId])
        ensures
            final(self)@.bodies == old(self)@.bodies.remove_keys(key_set(ids@)),
            final(self)@.pending == old(self)@.pending.difference(key_set(ids@)),
    {
        let mut i: usize = 0;
        while i < ids.len()
            invariant
                i <= ids@.len(),
                self@.bodies == old(self)@.bodies.remove_keys(key_set(ids@.take(i as int))),
                self@.pending == old(self)@.pending.difference(key_set(ids@.take(i as int))),
            decreases ids@.len() - i,
        {
            self.invalidate(ids[i]);
            proof {
                assert(key_set(ids@.take(i + 1)) =~= key_set(ids@.take(i as int)).insert(ids@[i as int].0)) by {
                    assert forall|k: u128| key_set(ids@.take(i + 1)).contains(k) implies key_set(ids@.take(i as int)).insert(ids@[i as int].0).contains(k) by {
                        let j = choose|j: int| 0 <= j < i + 1 && (#[trigger] ids@.take(i + 1)[j]).0 == k;
                        if j < i {
                            assert(ids@.take(i as int)[j] == ids@.take(i + 1)[j]);
                        }
                    }
                    assert forall|k: u128| key_set(ids@.take(i as int)).insert(ids@[i as int].0).contains(k) implies key_set(ids@.take(i + 1)).contains(k) by {
                        if k == ids@[i as int].0 {
                            assert(ids@.take(i + 1)[i as int].0 == k);
                        } else {
                            let j = choose|j: int| 0 <= j < i && (#[trigger] ids@.take(i as int)[j]).0 == k;
                            assert(ids@.take(i + 1)[j] == ids@.take(i as int)[j]);
                        }
                    }
                }
                assert(self@.bodies =~= old(self)@.bodies.remove_keys(key_set(ids@.take(i + 1))));
                assert(self@.pending =~= old(self)@.pending.difference(key_set(ids@.take(i + 1))));
            }
            i = i + 1;
        }
        proof {
            assert(ids@.take(ids@.len() as int) =~= ids@);
        }
    }

    /// After a vault op: the bodies of the notes it created and of every
    /// note it acted on (the subjects of its inverse) are stale.
    pub fn invalidate_after_op(&mut self, created: &[NoteId], inverse: Option<&VaultOp>)
        ensures
            ({
                let gone = key_set(created@).union(
                    match inverse {
                        Some(op) => key_set(subject_ids(*op)),
                        None => Set::empty(),
                    },
                );
                &&& final(self)@.bodies == old(self)@.bodies.remove_keys(gone)
                &&& final(self)@.pending == old(self)@.pending.difference(gone)
            }),
    {
        self.invalidate_many(created);
        let mut subjects: Vec<NoteId> = Vec::new();
        if let Some(op) = inverse {
            op_subject_ids(op, &mut subjects);
        }
        self.invalidate_many(subjects.as_slice());
        proof {
            let gone = key_set(created@).union(
                match inverse {
                    Some(op) => key_set(subject_ids(*op)),
                    None => Set::empty(),
                },
            );
            if inverse is None {
                assert(key_set(subjects@) =~= Set::<u128>::empty());
            } else {
                assert(subjects@ =~= subject_ids(*inverse->0));
            }
            assert(self@.bodies =~= old(self)@.bodies.remove_keys(gone));
            assert(self@.pending =~= old(self)@.pending.difference(gone));
        }
    }

    /// Invalidate all entries.
    pub fn invalidate_all(&mut self)
        ensures
            final(self)@.bodies == Map::<u128, Seq<char>>::empty(),
            final(self)@.pending == Set::<u128>::empty(),
    {
        self.map.clear();
        self.pending.clear();
        proof {
            assert(self@.bodies =~= Map::<u128, Seq<char>>::empty());
        }
    }
}

impl Default for BodyCache {
    fn default() -> (c: BodyCache)
        ensures
            c@.bodies == Map::<u128, Seq<char>>::empty(),
            c@.pending == Set::<u128>::empty(),
    {
        BodyCache::new()
    }
}

/// The cache keys of `ids`.
pub open spec fn key_set(ids: Seq<NoteId>) -> Set<u128> {
    Set::new(|k: u128| exists|j: int| 0 <= j < ids.len() && (#[trigger] ids[j]).0 == k)
}

/// A body is asked for at most once: a second `get_or_request` for the same
/// id, with no `insert` or invalidation in between, issues no read.
pub proof fn lemma_requests_once(m: BodyCacheModel, id: NoteId)
    ensures
        !request_step(request_step(m, id).0, id).1,
        request_step(request_step(m, id).0, id).0 == request_step(m, id).0,
{
}

/// An id that is neither loaded nor pending is asked for; after an
/// invalidation the next access asks for it again.
pub proof fn lemma_invalidate_rerequests(m: BodyCacheModel, id: NoteId)
    ensures
        request_step(
            BodyCacheModel { bodies: m.bodies.remove(id.0), pending: m.pending.remove(id.0) },
            id,
        ).1,
{
}

/// Once its body is inserted an id is served from the cache and never
/// asked for again.
pub proof fn lemma_insert_serves(m: BodyCacheModel, id: NoteId, text: Seq<char>)
    ensures
        ({
            let m2 = BodyCacheModel {
                bodies: m.bodies.insert(id.0, text),
                pending: m.pending.remove(id.0),
            };
            &&& !request_step(m2, id).1
            &&& m2.bodies[id.0] == text
        }),
{
}

} // verus!
