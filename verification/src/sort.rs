//! Stable ordering of items by a lexicographic key.
use vstd::multiset::Multiset;
use vstd::prelude::*;

verus! {

broadcast use vstd::seq_lib::group_to_multiset_ensures;

/// A lexicographic sort key: three signed ranks, then an id that breaks ties.
#[derive(Clone, Copy, PartialEq, Eq, Debug, Structural)]
pub struct SortKey {
    pub first: i128,
    pub second: i128,
    pub third: i128,
    pub id: u128,
}

/// `a` sorts strictly before `b`.
pub open spec fn key_lt(a: SortKey, b: SortKey) -> bool {
    ||| a.first < b.first
    ||| a.first == b.first && a.second < b.second
    ||| a.first == b.first && a.second == b.second && a.third < b.third
    ||| a.first == b.first && a.second == b.second && a.third == b.third && a.id < b.id
}

/// Executable `key_lt`.
pub fn key_less(a: &SortKey, b: &SortKey) -> (r: bool)
    ensures
        r == key_lt(*a, *b),
{
    if a.first != b.first {
        a.first < b.first
    } else if a.second != b.second {
        a.second < b.second
    } else if a.third != b.third {
        a.third < b.third
    } else {
        a.id < b.id
    }
}

/// No item sorts strictly before an earlier one.
pub open spec fn sorted_by_key<T>(s: Seq<(SortKey, T)>) -> bool {
    forall|i: int, j: int| 0 <= i < j < s.len() ==> !key_lt((#[trigger] s[j]).0, (#[trigger] s[i]).0)
}

proof fn lemma_multiset_insert<A>(s: Seq<A>, i: int, x: A)
    requires
        0 <= i <= s.len(),
    ensures
        s.insert(i, x).to_multiset() == s.to_multiset().insert(x),
{
    let t = s.insert(i, x);
    s.insert_ensures(i, x);
    assert(t.remove(i) =~= s);
    assert(t.remove(i).to_multiset() =~= t.to_multiset().remove(t[i]));
    assert(t.contains(x));
    assert(t.to_multiset().count(x) > 0);
    assert(t.to_multiset() =~= s.to_multiset().insert(x));
}

/// Sorts `items` by key, ascending; items with equal keys keep no
/// particular order (keys with distinct ids are never equal).
pub fn sort_by_key<T>(items: Vec<(SortKey, T)>) -> (r: Vec<(SortKey, T)>)
    ensures
        sorted_by_key(r@),
        r@.to_multiset() == items@.to_multiset(),
        r@.len() == items@.len(),
{
    let mut rest = items;
    let mut out: Vec<(SortKey, T)> = Vec::new();
    while rest.len() > 0
        invariant
            sorted_by_key(out@),
            out@.to_multiset().add(rest@.to_multiset()) == items@.to_multiset(),
        decreases rest@.len(),
    {
        let ghost rest0 = rest@;
        let x = rest.pop().unwrap();
        proof {
            assert(rest0 =~= rest@.push(x));
        }
        let mut i: usize = 0;
        while i < out.len() && !key_less(&x.0, &out[i].0)
            invariant
                i <= out@.len(),
                forall|j: int| 0 <= j < i ==> !key_lt(x.0, (#[trigger] out@[j]).0),
            decreases out@.len() - i,
        {
            i = i + 1;
        }
        let ghost out0 = out@;
        out.insert(i, x);
        proof {
            lemma_multiset_insert(out0, i as int, x);
            out0.insert_ensures(i as int, x);
            assert(out@ == out0.insert(i as int, x));
            assert forall|a: int, b: int| 0 <= a < b < out@.len() implies !key_lt(
                (#[trigger] out@[b]).0,
                (#[trigger] out@[a]).0,
            ) by {
                if b < i {
                    assert(out@[a] == out0[a] && out@[b] == out0[b]);
                } else if b == i {
                    assert(out@[a] == out0[a]);
                    // x is not before any earlier element
                } else if a < i {
                    assert(out@[a] == out0[a] && out@[b] == out0[b - 1]);
                    if i < out0.len() {
                        assert(key_lt(x.0, out0[i as int].0));
                        if b - 1 > i {
                            assert(!key_lt(out0[b - 1].0, out0[i as int].0));
                        }
                    }
                } else if a == i {
                    assert(out@[b] == out0[b - 1]);
                    assert(key_lt(x.0, out0[i as int].0));
                    if b - 1 > i {
                        assert(!key_lt(out0[b - 1].0, out0[i as int].0));
                    }
                } else {
                    assert(out@[a] == out0[a - 1] && out@[b] == out0[b - 1]);
                }
            }
            assert(out@.to_multiset().add(rest@.to_multiset()) =~= items@.to_multiset());
        }
    }
    proof {
        assert(rest@.to_multiset() =~= Multiset::empty());
        assert(out@.to_multiset() =~= items@.to_multiset());
        assert(out@.to_multiset().len() == out@.len());
        assert(items@.to_multiset().len() == items@.len());
    }
    out
}

} // verus!
