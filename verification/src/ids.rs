//! Collections of note ids: membership in lists and sorted sets.
use crate::note::NoteId;
use vstd::prelude::*;

verus! {

/// `s` holds ids in strictly increasing order (a sorted set).
pub open spec fn strictly_sorted(s: Seq<NoteId>) -> bool {
    forall|i: int, j: int| 0 <= i < j < s.len() ==> (#[trigger] s[i]).0 < (#[trigger] s[j]).0
}

/// Whether `id` occurs in `ids`.
pub fn contains_id(ids: &[NoteId], id: NoteId) -> (b: bool)
    ensures
        b == ids@.contains(id),
{
    let mut i: usize = 0;
    while i < ids.len()
        invariant
            i <= ids@.len(),
            forall|j: int| 0 <= j < i ==> ids@[j] != id,
        decreases ids@.len() - i,
    {
        if ids[i].0 == id.0 {
            assert(ids@[i as int] == id);
            return true;
        }
        i = i + 1;
    }
    false
}

/// Inserts `id` into the sorted set `v`.
pub fn insert_sorted(v: &mut Vec<NoteId>, id: NoteId)
    requires
        strictly_sorted(old(v)@),
    ensures
        strictly_sorted(final(v)@),
        forall|x: NoteId| final(v)@.contains(x) <==> (old(v)@.contains(x) || x == id),
{
    let mut i: usize = 0;
    while i < v.len() && v[i].0 < id.0
        invariant
            i <= v@.len(),
            v@ == old(v)@,
            strictly_sorted(v@),
            forall|j: int| 0 <= j < i ==> (#[trigger] v@[j]).0 < id.0,
        decreases v@.len() - i,
    {
        i = i + 1;
    }
    if i < v.len() && v[i].0 == id.0 {
        proof {
            assert(v@[i as int] == id);
            assert forall|x: NoteId| v@.contains(x) <==> (old(v)@.contains(x) || x == id) by {
                if x == id {
                    assert(v@[i as int] == x);
                }
            }
        }
        return;
    }
    v.insert(i, id);
    proof {
        let o = old(v)@;
        assert(v@ =~= o.take(i as int).push(id) + o.skip(i as int));
        assert forall|a: int, b: int| 0 <= a < b < v@.len() implies (#[trigger] v@[a]).0 < (
        #[trigger] v@[b]).0 by {
            if b < i {
            } else if b == i {
                assert(v@[a] == o[a]);
            } else if a < i {
                assert(v@[b] == o[b - 1]);
                assert(o[a].0 < id.0);
                if i < o.len() {
                    assert(o[i as int].0 > id.0);
                }
            } else if a == i {
                assert(v@[b] == o[b - 1]);
                assert(o[i as int].0 > id.0);
            } else {
                assert(v@[a] == o[a - 1]);
                assert(v@[b] == o[b - 1]);
            }
        }
        assert forall|x: NoteId| v@.contains(x) <==> (o.contains(x) || x == id) by {
            if v@.contains(x) {
                let k = choose|k: int| 0 <= k < v@.len() && v@[k] == x;
                if k < i {
                    assert(o[k] == x);
                } else if k > i {
                    assert(o[k - 1] == x);
                }
            }
            if o.contains(x) {
                let k = choose|k: int| 0 <= k < o.len() && o[k] == x;
                if k < i {
                    assert(v@[k] == x);
                } else {
                    assert(v@[k + 1] == x);
                }
            }
            if x == id {
                assert(v@[i as int] == x);
            }
        }
    }
}

/// Records `id` in a list kept free of repeats: appended when new,
/// otherwise the list is unchanged.
pub fn push_unique(v: &mut Vec<NoteId>, id: NoteId)
    ensures
        old(v)@.contains(id) ==> final(v)@ == old(v)@,
        !old(v)@.contains(id) ==> final(v)@ == old(v)@.push(id),
{
    if !contains_id(v.as_slice(), id) {
        v.push(id);
    }
}

} // verus!
