//! The desk surface: focus directions, card labels and edges-on-select.
use crate::ids::{contains_id, insert_sorted, strictly_sorted};
use crate::note::NoteId;
use crate::sort::{key_lt, sort_by_key, sorted_by_key, SortKey};
use crate::text::{decimal, extend_str, push_decimal, string_from_chars};
use vstd::prelude::*;

verus! {

#[derive(Clone, Copy, PartialEq, Eq, Debug, Structural)]
pub enum FocusDir {
    Left,
    Right,
    Up,
    Down,
}

/// The AccessKit label of a card face: `Scrap: '<first line>'` for a scrap,
/// else `Card: '<title>', N link(s), M tag(s)` with singular nouns for one.
pub open spec fn a11y_label(
    title: Seq<char>,
    first_line: Seq<char>,
    is_scrap: bool,
    links: nat,
    tags: nat,
) -> Seq<char> {
    if is_scrap {
        "Scrap: '"@ + first_line + "'"@
    } else {
        "Card: '"@ + title + "', "@ + decimal(links) + (if links == 1 {
            " link"@
        } else {
            " links"@
        }) + ", "@ + decimal(tags) + (if tags == 1 {
            " tag"@
        } else {
            " tags"@
        })
    }
}

/// The accessible label of a card face; see `a11y_label`.
pub fn card_a11y_label(
    title: &str,
    first_line: &str,
    is_scrap: bool,
    links: usize,
    tags: usize,
) -> (label: String)
    ensures
        label@ == a11y_label(title@, first_line@, is_scrap, links as nat, tags as nat),
{
    let mut out: Vec<char> = Vec::new();
    if is_scrap {
        extend_str(&mut out, "Scrap: '");
        extend_str(&mut out, first_line);
        extend_str(&mut out, "'");
        return string_from_chars(&out);
    }
    extend_str(&mut out, "Card: '");
    extend_str(&mut out, title);
    extend_str(&mut out, "', ");
    push_decimal(&mut out, links as u64);
    if links == 1 {
        extend_str(&mut out, " link");
    } else {
        extend_str(&mut out, " links");
    }
    extend_str(&mut out, ", ");
    push_decimal(&mut out, tags as u64);
    if tags == 1 {
        extend_str(&mut out, " tag");
    } else {
        extend_str(&mut out, " tags");
    }
    string_from_chars(&out)
}

/// `o` gets an edge from `selected`: it is a resolved link target of
/// `selected` or links to it, it is not `selected` itself, and it is on the desk.
pub open spec fn is_edge_partner(
    o: NoteId,
    selected: NoteId,
    outlinks: Seq<Option<NoteId>>,
    backlinks: Seq<NoteId>,
    on_desk: Seq<NoteId>,
) -> bool {
    &&& o != selected
    &&& on_desk.contains(o)
    &&& outlinks.contains(Some(o)) || backlinks.contains(o)
}

/// Edges to draw when `selected` is the focused/open card: one edge per
/// distinct linked-or-linking note that is ON the desk (both directions,
/// deduped — a mutual link is one edge). Sorted by the far endpoint for
/// determinism. `outlinks` are the selected note's links (resolved target,
/// if any) and `backlinks` the notes linking to it.
pub fn selected_edges(
    selected: NoteId,
    outlinks: &[Option<NoteId>],
    backlinks: &[NoteId],
    on_desk: &[NoteId],
) -> (edges: Vec<(NoteId, NoteId)>)
    ensures
        forall|i: int| 0 <= i < edges@.len() ==> (#[trigger] edges@[i]).0 == selected,
        forall|i: int, j: int|
            0 <= i < j < edges@.len() ==> (#[trigger] edges@[i]).1.0 < (#[trigger] edges@[j]).1.0,
        forall|o: NoteId|
            (exists|i: int| 0 <= i < edges@.len() && (#[trigger] edges@[i]).1 == o)
                <==> is_edge_partner(o, selected, outlinks@, backlinks@, on_desk@),
{
    let mut others: Vec<NoteId> = Vec::new();
    let mut i: usize = 0;
    while i < outlinks.len()
        invariant
            i <= outlinks@.len(),
            strictly_sorted(others@),
            forall|o: NoteId|
                others@.contains(o) <==> (o != selected && on_desk@.contains(o) && exists|j: int|
                    0 <= j < i && outlinks@[j] == Some(o)),
        decreases outlinks@.len() - i,
    {
        if let Some(t) = outlinks[i] {
            if t.0 != selected.0 && contains_id(on_desk, t) {
                insert_sorted(&mut others, t);
            }
        }
        proof {
            assert forall|o: NoteId|
                others@.contains(o) <==> (o != selected && on_desk@.contains(o) && exists|j: int|
                    0 <= j < i + 1 && outlinks@[j] == Some(o)) by {
                if o != selected && on_desk@.contains(o) && outlinks@[i as int] == Some(o) {
                    assert(0 <= i < i + 1 && outlinks@[i as int] == Some(o));
                }
            }
        }
        i = i + 1;
    }
    let mut k: usize = 0;
    while k < backlinks.len()
        invariant
            k <= backlinks@.len(),
            strictly_sorted(others@),
            forall|o: NoteId|
                others@.contains(o) <==> (o != selected && on_desk@.contains(o) && ((exists|j: int|
                    0 <= j < outlinks@.len() && outlinks@[j] == Some(o)) || exists|j: int|
                    0 <= j < k && backlinks@[j] == o)),
        decreases backlinks@.len() - k,
    {
        let b = backlinks[k];
        if b.0 != selected.0 && contains_id(on_desk, b) {
            insert_sorted(&mut others, b);
        }
        proof {
            assert forall|o: NoteId|
                others@.contains(o) <==> (o != selected && on_desk@.contains(o) && ((exists|j: int|
                    0 <= j < outlinks@.len() && outlinks@[j] == Some(o)) || exists|j: int|
                    0 <= j < k + 1 && backlinks@[j] == o)) by {
                if o == b {
                    assert(0 <= k < k + 1 && backlinks@[k as int] == o);
                }
            }
        }
        k = k + 1;
    }
    let mut edges: Vec<(NoteId, NoteId)> = Vec::new();
    let mut m: usize = 0;
    while m < others.len()
        invariant
            m <= others@.len(),
            edges@.len() == m,
            forall|j: int| 0 <= j < m ==> #[trigger] edges@[j] == (selected, others@[j]),
        decreases others@.len() - m,
    {
        edges.push((selected, others[m]));
        m = m + 1;
    }
    proof {
        assert forall|o: NoteId|
            (exists|i: int| 0 <= i < edges@.len() && (#[trigger] edges@[i]).1 == o)
                <==> is_edge_partner(o, selected, outlinks@, backlinks@, on_desk@) by {
            if exists|i: int| 0 <= i < edges@.len() && (#[trigger] edges@[i]).1 == o {
                let i = choose|i: int| 0 <= i < edges@.len() && (#[trigger] edges@[i]).1 == o;
                assert(others@[i] == o);
                assert(others@.contains(o));
            }
            if is_edge_partner(o, selected, outlinks@, backlinks@, on_desk@) {
                if outlinks@.contains(Some(o)) {
                    let j = choose|j: int| 0 <= j < outlinks@.len() && outlinks@[j] == Some(o);
                    assert(exists|j: int| 0 <= j < outlinks@.len() && outlinks@[j] == Some(o));
                } else {
                    let j = choose|j: int| 0 <= j < backlinks@.len() && backlinks@[j] == o;
                    assert(exists|j: int| 0 <= j < backlinks@.len() && backlinks@[j] == o);
                }
                assert(others@.contains(o));
                let i = choose|i: int| 0 <= i < others@.len() && others@[i] == o;
                assert(edges@[i].1 == o);
            }
        }
    }
    edges
}

// ---------------------------------------------------------------------------
// Ghost candidates
// ---------------------------------------------------------------------------

/// How many times `x` occurs in `s`.
pub open spec fn occurrences(s: Seq<NoteId>, x: NoteId) -> nat
    decreases s.len(),
{
    if s.len() == 0 {
        0
    } else {
        occurrences(s.drop_last(), x) + if s.last() == x {
            1nat
        } else {
            0nat
        }
    }
}

/// How many of the anchor's tags `x` carries: its occurrences over the
/// member lists of those tags.
pub open spec fn shared_count(lists: Seq<Vec<NoteId>>, x: NoteId) -> nat
    decreases lists.len(),
{
    if lists.len() == 0 {
        0
    } else {
        shared_count(lists.drop_last(), x) + occurrences(lists.last()@, x)
    }
}

/// The number of entries over all member lists.
pub open spec fn total_members(lists: Seq<Vec<NoteId>>) -> nat
    decreases lists.len(),
{
    if lists.len() == 0 {
        0
    } else {
        total_members(lists.drop_last()) + lists.last()@.len()
    }
}

/// `x` is related to the anchor: the anchor links to it, it links to the
/// anchor, it shares a tag, or it is among the anchor's similar notes.
pub open spec fn related(
    outlinks: Seq<Option<NoteId>>,
    backlinks: Seq<NoteId>,
    tag_members: Seq<Vec<NoteId>>,
    similar: Seq<NoteId>,
    x: NoteId,
) -> bool {
    outlinks.contains(Some(x)) || backlinks.contains(x) || shared_count(tag_members, x) > 0
        || similar.contains(x)
}

/// One ghost candidate and its structural relations to the anchor (the
/// similarity score is added by the caller).
#[derive(Clone, Copy, Debug, PartialEq, Eq, Structural)]
pub struct GhostCandidate {
    pub id: NoteId,
    pub direct_link: bool,
    pub backlink: bool,
    pub shared_tags: usize,
}

proof fn lemma_occurrences_contains(s: Seq<NoteId>, x: NoteId)
    ensures
        occurrences(s, x) > 0 <==> s.contains(x),
        occurrences(s, x) <= s.len(),
    decreases s.len(),
{
    if s.len() > 0 {
        lemma_occurrences_contains(s.drop_last(), x);
        if s.drop_last().contains(x) {
            let k = choose|k: int| 0 <= k < s.drop_last().len() && s.drop_last()[k] == x;
            assert(s[k] == x);
        }
        if s.contains(x) && s.last() != x {
            let k = choose|k: int| 0 <= k < s.len() && s[k] == x;
            assert(s.drop_last()[k] == x);
        }
    }
}

proof fn lemma_shared_count(lists: Seq<Vec<NoteId>>, x: NoteId)
    ensures
        shared_count(lists, x) > 0 <==> exists|a: int| 0 <= a < lists.len() && (#[trigger] lists[a])@.contains(x),
        shared_count(lists, x) <= total_members(lists),
    decreases lists.len(),
{
    if lists.len() > 0 {
        let init = lists.drop_last();
        lemma_shared_count(init, x);
        lemma_occurrences_contains(lists.last()@, x);
        if exists|a: int| 0 <= a < init.len() && (#[trigger] init[a])@.contains(x) {
            let a = choose|a: int| 0 <= a < init.len() && (#[trigger] init[a])@.contains(x);
            assert(lists[a] == init[a]);
        }
        if exists|a: int| 0 <= a < lists.len() && (#[trigger] lists[a])@.contains(x) {
            let a = choose|a: int| 0 <= a < lists.len() && (#[trigger] lists[a])@.contains(x);
            if a < lists.len() - 1 {
                assert(init[a] == lists[a]);
            }
        }
    }
}

proof fn lemma_total_members_take(lists: Seq<Vec<NoteId>>, a: int)
    requires
        0 <= a < lists.len(),
    ensures
        total_members(lists.take(a)) + lists[a]@.len() <= total_members(lists),
    decreases lists.len(),
{
    if a < lists.len() - 1 {
        assert(lists.drop_last().take(a) =~= lists.take(a));
        assert(lists.drop_last()[a] == lists[a]);
        lemma_total_members_take(lists.drop_last(), a);
    } else {
        assert(lists.drop_last() =~= lists.take(a));
    }
}

/// How many of the anchor's tags `x` carries.
fn count_shared(tag_members: &[Vec<NoteId>], x: NoteId) -> (c: usize)
    requires
        total_members(tag_members@) <= usize::MAX,
    ensures
        c == shared_count(tag_members@, x),
{
    let mut c: usize = 0;
    let mut a: usize = 0;
    while a < tag_members.len()
        invariant
            a <= tag_members@.len(),
            total_members(tag_members@) <= usize::MAX,
            c == shared_count(tag_members@.take(a as int), x),
            c <= total_members(tag_members@.take(a as int)),
        decreases tag_members@.len() - a,
    {
        let list = &tag_members[a];
        proof {
            lemma_total_members_take(tag_members@, a as int);
            assert(tag_members@.take(a + 1).drop_last() =~= tag_members@.take(a as int));
        }
        let mut b: usize = 0;
        let ghost c0 = c;
        while b < list.len()
            invariant
                b <= list@.len(),
                c == c0 + occurrences(list@.take(b as int), x),
                c0 + list@.len() <= usize::MAX,
                occurrences(list@.take(b as int), x) <= b,
            decreases list@.len() - b,
        {
            proof {
                assert(list@.take(b + 1).drop_last() =~= list@.take(b as int));
            }
            if list[b].0 == x.0 {
                c = c + 1;
            }
            b = b + 1;
        }
        proof {
            assert(list@.take(list@.len() as int) =~= list@);
        }
        a = a + 1;
    }
    proof {
        assert(tag_members@.take(tag_members@.len() as int) =~= tag_members@);
    }
    c
}

/// The notes that could be ghosted next to the anchor `anchor`: every note
/// related to it (see `related`; `outlinks` are its resolved links,
/// `backlinks` the notes linking to it, `tag_members` the notes carrying
/// each of its tags, `similar` its similar notes) that is not the anchor,
/// not on the desk and indexed; each once, sorted by id, with its
/// relations. Scoring and ranking by score are the caller's.
pub fn ghost_pool(
    anchor: NoteId,
    outlinks: &[Option<NoteId>],
    backlinks: &[NoteId],
    tag_members: &[Vec<NoteId>],
    similar: &[NoteId],
    on_desk: &[NoteId],
    indexed: &[NoteId],
) -> (r: Vec<GhostCandidate>)
    requires
        total_members(tag_members@) <= usize::MAX,
    ensures
        forall|i: int, j: int| 0 <= i < j < r@.len() ==> (#[trigger] r@[i]).id.0 < (#[trigger] r@[j]).id.0,
        forall|x: NoteId| (exists|i: int| 0 <= i < r@.len() && (#[trigger] r@[i]).id == x) <==> (x != anchor
            && !on_desk@.contains(x) && indexed@.contains(x) && related(outlinks@, backlinks@, tag_members@, similar@, x)),
        forall|i: int| 0 <= i < r@.len() ==> (#[trigger] r@[i]).direct_link == outlinks@.contains(Some(r@[i].id))
            && r@[i].backlink == backlinks@.contains(r@[i].id)
            && r@[i].shared_tags == shared_count(tag_members@, r@[i].id),
{
    let mut pool: Vec<NoteId> = Vec::new();
    let mut i: usize = 0;
    while i < outlinks.len()
        invariant
            i <= outlinks@.len(),
            strictly_sorted(pool@),
            forall|x: NoteId| pool@.contains(x) <==> outlinks@.take(i as int).contains(Some(x)),
        decreases outlinks@.len() - i,
    {
        if let Some(t) = outlinks[i] {
            insert_sorted(&mut pool, t);
        }
        proof {
            assert forall|x: NoteId| pool@.contains(x) <==> outlinks@.take(i + 1).contains(Some(x)) by {
                if outlinks@.take(i + 1).contains(Some(x)) && outlinks@[i as int] != Some(x) {
                    let k = choose|k: int| 0 <= k < i + 1 && #[trigger] outlinks@.take(i + 1)[k] == Some(x);
                    assert(outlinks@.take(i as int)[k] == Some(x));
                }
                if outlinks@.take(i as int).contains(Some(x)) {
                    let k = choose|k: int| 0 <= k < i && #[trigger] outlinks@.take(i as int)[k] == Some(x);
                    assert(outlinks@.take(i + 1)[k] == Some(x));
                }
                if outlinks@[i as int] == Some(x) {
                    assert(outlinks@.take(i + 1)[i as int] == Some(x));
                }
            }
        }
        i = i + 1;
    }
    proof {
        assert(outlinks@.take(outlinks@.len() as int) =~= outlinks@);
    }
    let mut k: usize = 0;
    while k < backlinks.len()
        invariant
            k <= backlinks@.len(),
            strictly_sorted(pool@),
            forall|x: NoteId| pool@.contains(x) <==> (outlinks@.contains(Some(x)) || backlinks@.take(k as int).contains(x)),
        decreases backlinks@.len() - k,
    {
        insert_sorted(&mut pool, backlinks[k]);
        proof {
            assert forall|x: NoteId| pool@.contains(x) <==> (outlinks@.contains(Some(x)) || backlinks@.take(k + 1).contains(x)) by {
                if backlinks@.take(k + 1).contains(x) && backlinks@[k as int] != x {
                    let j = choose|j: int| 0 <= j < k + 1 && #[trigger] backlinks@.take(k + 1)[j] == x;
                    assert(backlinks@.take(k as int)[j] == x);
                }
                if backlinks@.take(k as int).contains(x) {
                    let j = choose|j: int| 0 <= j < k && #[trigger] backlinks@.take(k as int)[j] == x;
                    assert(backlinks@.take(k + 1)[j] == x);
                }
                if backlinks@[k as int] == x {
                    assert(backlinks@.take(k + 1)[k as int] == x);
                }
            }
        }
        k = k + 1;
    }
    proof {
        assert(backlinks@.take(backlinks@.len() as int) =~= backlinks@);
    }
    let mut m: usize = 0;
    while m < similar.len()
        invariant
            m <= similar@.len(),
            strictly_sorted(pool@),
            forall|x: NoteId| pool@.contains(x) <==> (outlinks@.contains(Some(x)) || backlinks@.contains(x) || similar@.take(m as int).contains(x)),
        decreases similar@.len() - m,
    {
        insert_sorted(&mut pool, similar[m]);
        proof {
            assert forall|x: NoteId| pool@.contains(x) <==> (outlinks@.contains(Some(x)) || backlinks@.contains(x) || similar@.take(m + 1).contains(x)) by {
                if similar@.take(m + 1).contains(x) && similar@[m as int] != x {
                    let j = choose|j: int| 0 <= j < m + 1 && #[trigger] similar@.take(m + 1)[j] == x;
                    assert(similar@.take(m as int)[j] == x);
                }
                if similar@.take(m as int).contains(x) {
                    let j = choose|j: int| 0 <= j < m && #[trigger] similar@.take(m as int)[j] == x;
                    assert(similar@.take(m + 1)[j] == x);
                }
                if similar@[m as int] == x {
                    assert(similar@.take(m + 1)[m as int] == x);
                }
            }
        }
        m = m + 1;
    }
    proof {
        assert(similar@.take(similar@.len() as int) =~= similar@);
    }
    let mut a: usize = 0;
    while a < tag_members.len()
        invariant
            a <= tag_members@.len(),
            strictly_sorted(pool@),
            forall|x: NoteId| pool@.contains(x) <==> (outlinks@.contains(Some(x)) || backlinks@.contains(x) || similar@.contains(x)
                || exists|aa: int| 0 <= aa < a && (#[trigger] tag_members@[aa])@.contains(x)),
        decreases tag_members@.len() - a,
    {
        let list = &tag_members[a];
        let mut b: usize = 0;
        while b < list.len()
            invariant
                a < tag_members@.len(),
                *list == tag_members@[a as int],
                b <= list@.len(),
                strictly_sorted(pool@),
                forall|x: NoteId| pool@.contains(x) <==> (outlinks@.contains(Some(x)) || backlinks@.contains(x) || similar@.contains(x)
                    || (exists|aa: int| 0 <= aa < a && (#[trigger] tag_members@[aa])@.contains(x))
                    || list@.take(b as int).contains(x)),
            decreases list@.len() - b,
        {
            insert_sorted(&mut pool, list[b]);
            proof {
                assert forall|x: NoteId| pool@.contains(x) <==> (outlinks@.contains(Some(x)) || backlinks@.contains(x) || similar@.contains(x)
                    || (exists|aa: int| 0 <= aa < a && (#[trigger] tag_members@[aa])@.contains(x))
                    || list@.take(b + 1).contains(x)) by {
                    if list@.take(b + 1).contains(x) && list@[b as int] != x {
                        let j = choose|j: int| 0 <= j < b + 1 && #[trigger] list@.take(b + 1)[j] == x;
                        assert(list@.take(b as int)[j] == x);
                    }
                    if list@.take(b as int).contains(x) {
                        let j = choose|j: int| 0 <= j < b && #[trigger] list@.take(b as int)[j] == x;
                        assert(list@.take(b + 1)[j] == x);
                    }
                    if list@[b as int] == x {
                        assert(list@.take(b + 1)[b as int] == x);
                    }
                }
            }
            b = b + 1;
        }
        proof {
            assert(list@.take(list@.len() as int) =~= list@);
            assert forall|x: NoteId| pool@.contains(x) <==> (outlinks@.contains(Some(x)) || backlinks@.contains(x) || similar@.contains(x)
                || exists|aa: int| 0 <= aa < a + 1 && (#[trigger] tag_members@[aa])@.contains(x)) by {
                if list@.contains(x) {
                    assert(tag_members@[a as int]@.contains(x));
                }
                if exists|aa: int| 0 <= aa < a + 1 && (#[trigger] tag_members@[aa])@.contains(x) {
                    let aa = choose|aa: int| 0 <= aa < a + 1 && (#[trigger] tag_members@[aa])@.contains(x);
                    if aa == a {
                        assert(list@.contains(x));
                    }
                }
            }
        }
        a = a + 1;
    }
    proof {
        assert forall|x: NoteId| pool@.contains(x) <==> related(outlinks@, backlinks@, tag_members@, similar@, x) by {
            lemma_shared_count(tag_members@, x);
        }
    }
    let mut r: Vec<GhostCandidate> = Vec::new();
    let mut p: usize = 0;
    while p < pool.len()
        invariant
            p <= pool@.len(),
            strictly_sorted(pool@),
            total_members(tag_members@) <= usize::MAX,
            forall|i: int| 0 <= i < r@.len() ==> exists|q: int| 0 <= q < p && (#[trigger] r@[i]).id == pool@[q],
            forall|i: int, j: int| 0 <= i < j < r@.len() ==> (#[trigger] r@[i]).id.0 < (#[trigger] r@[j]).id.0,
            forall|i: int| 0 <= i < r@.len() ==> (#[trigger] r@[i]).id != anchor && !on_desk@.contains(r@[i].id)
                && indexed@.contains(r@[i].id),
            forall|q: int| 0 <= q < p && (#[trigger] pool@[q]) != anchor && !on_desk@.contains(pool@[q])
                && indexed@.contains(pool@[q]) ==> exists|i: int| 0 <= i < r@.len() && (#[trigger] r@[i]).id == pool@[q],
            forall|i: int| 0 <= i < r@.len() ==> (#[trigger] r@[i]).direct_link == outlinks@.contains(Some(r@[i].id))
                && r@[i].backlink == backlinks@.contains(r@[i].id)
                && r@[i].shared_tags == shared_count(tag_members@, r@[i].id),
        decreases pool@.len() - p,
    {
        let c = pool[p];
        let ghost r0 = r@;
        if c.0 != anchor.0 && !contains_id(on_desk, c) && contains_id(indexed, c) {
            let mut direct = false;
            let mut q: usize = 0;
            while q < outlinks.len()
                invariant
                    q <= outlinks@.len(),
                    direct == outlinks@.take(q as int).contains(Some(c)),
                decreases outlinks@.len() - q,
            {
                proof {
                    assert(outlinks@.take(q + 1) =~= outlinks@.take(q as int).push(outlinks@[q as int]));
                    if outlinks@.take(q + 1).contains(Some(c)) && outlinks@[q as int] != Some(c) {
                        let j = choose|j: int| 0 <= j < q + 1 && #[trigger] outlinks@.take(q + 1)[j] == Some(c);
                        assert(outlinks@.take(q as int)[j] == Some(c));
                    }
                    if outlinks@.take(q as int).contains(Some(c)) {
                        let j = choose|j: int| 0 <= j < q && #[trigger] outlinks@.take(q as int)[j] == Some(c);
                        assert(outlinks@.take(q + 1)[j] == Some(c));
                    }
                    if outlinks@[q as int] == Some(c) {
                        assert(outlinks@.take(q + 1)[q as int] == Some(c));
                    }
                }
                if let Some(t) = outlinks[q] {
                    if t.0 == c.0 {
                        direct = true;
                    }
                }
                q = q + 1;
            }
            proof {
                assert(outlinks@.take(outlinks@.len() as int) =~= outlinks@);
            }
            let back = contains_id(backlinks, c);
            let shared = count_shared(tag_members, c);
            r.push(GhostCandidate { id: c, direct_link: direct, backlink: back, shared_tags: shared });
            proof {
                assert(r@[r@.len() - 1].id == pool@[p as int]);
                assert forall|i: int, j: int| 0 <= i < j < r@.len() implies (#[trigger] r@[i]).id.0 < (#[trigger] r@[j]).id.0 by {
                    if j == r@.len() - 1 {
                        let q = choose|q: int| 0 <= q < p && r0[i].id == #[trigger] pool@[q];
                        assert(r@[i] == r0[i]);
                        assert(pool@[q].0 < pool@[p as int].0);
                    } else {
                        assert(r@[i] == r0[i] && r@[j] == r0[j]);
                    }
                }
            }
        }
        proof {
            assert forall|i: int| 0 <= i < r@.len() implies exists|q: int| 0 <= q < p + 1 && (#[trigger] r@[i]).id == pool@[q] by {
                if i < r0.len() {
                    assert(r@[i] == r0[i]);
                    let q = choose|q: int| 0 <= q < p && r0[i].id == #[trigger] pool@[q];
                } else {
                    assert(r@[i].id == pool@[p as int]);
                }
            }
            assert forall|q: int| 0 <= q < p + 1 && (#[trigger] pool@[q]) != anchor && !on_desk@.contains(pool@[q])
                && indexed@.contains(pool@[q]) implies exists|i: int| 0 <= i < r@.len() && (#[trigger] r@[i]).id == pool@[q] by {
                if q < p {
                    let i = choose|i: int| 0 <= i < r0.len() && (#[trigger] r0[i]).id == pool@[q];
                    assert(r@[i] == r0[i]);
                } else {
                    assert(r@[r@.len() - 1].id == pool@[q]);
                }
            }
        }
        p = p + 1;
    }
    proof {
        assert forall|x: NoteId| (exists|i: int| 0 <= i < r@.len() && (#[trigger] r@[i]).id == x) <==> (x != anchor
            && !on_desk@.contains(x) && indexed@.contains(x) && related(outlinks@, backlinks@, tag_members@, similar@, x)) by {
            if exists|i: int| 0 <= i < r@.len() && (#[trigger] r@[i]).id == x {
                let i = choose|i: int| 0 <= i < r@.len() && (#[trigger] r@[i]).id == x;
                let q = choose|q: int| 0 <= q < p && r@[i].id == #[trigger] pool@[q];
                assert(pool@.contains(x));
            }
            if x != anchor && !on_desk@.contains(x) && indexed@.contains(x) && related(outlinks@, backlinks@, tag_members@, similar@, x) {
                assert(pool@.contains(x));
                let q = choose|q: int| 0 <= q < pool@.len() && pool@[q] == x;
                assert(pool@[q] != anchor);
            }
        }
    }
    r
}

// ---------------------------------------------------------------------------
// Reading order
// ---------------------------------------------------------------------------

/// A card as the reading order sees it: its horizontal band (rounded
/// `y / BAND_HEIGHT`, so small drags keep it) and a key that orders its `x`
/// as `f32::total_cmp` does.
#[derive(Clone, Copy, Debug, PartialEq, Eq, Structural)]
pub struct PlacedCard {
    pub id: NoteId,
    pub band: i64,
    pub x_key: i64,
}

/// The reading-order key of a card: band, then x, then id.
pub open spec fn reading_key(c: PlacedCard) -> SortKey {
    SortKey { first: c.band as i128, second: c.x_key as i128, third: 0, id: c.id.0 }
}

/// The cards keyed for the reading order, in input order.
pub open spec fn keyed_cards(cards: Seq<PlacedCard>) -> Seq<(SortKey, NoteId)> {
    cards.map_values(|c: PlacedCard| (reading_key(c), c.id))
}

/// The desk's reading order: top band first, left to right within a band,
/// ties by id.
pub fn reading_order(cards: &[PlacedCard]) -> (r: Vec<NoteId>)
    ensures
        exists|s: Seq<(SortKey, NoteId)>|
            {
                &&& s.to_multiset() == keyed_cards(cards@).to_multiset()
                &&& sorted_by_key(s)
                &&& r@ == s.map_values(|p: (SortKey, NoteId)| p.1)
            },
{
    let mut items: Vec<(SortKey, NoteId)> = Vec::new();
    let mut i: usize = 0;
    while i < cards.len()
        invariant
            i <= cards@.len(),
            items@ == keyed_cards(cards@.take(i as int)),
        decreases cards@.len() - i,
    {
        let c = cards[i];
        items.push((SortKey { first: c.band as i128, second: c.x_key as i128, third: 0, id: c.id.0 }, c.id));
        i = i + 1;
        proof {
            assert(items@ =~= keyed_cards(cards@.take(i as int)));
        }
    }
    proof {
        assert(cards@.take(cards@.len() as int) =~= cards@);
    }
    let sorted = sort_by_key(items);
    let mut r: Vec<NoteId> = Vec::new();
    let mut k: usize = 0;
    while k < sorted.len()
        invariant
            k <= sorted@.len(),
            r@ == sorted@.take(k as int).map_values(|p: (SortKey, NoteId)| p.1),
        decreases sorted@.len() - k,
    {
        r.push(sorted[k].1);
        proof {
            assert(sorted@.take(k + 1).map_values(|p: (SortKey, NoteId)| p.1) =~= sorted@.take(
                k as int,
            ).map_values(|p: (SortKey, NoteId)| p.1).push(sorted@[k as int].1));
        }
        k = k + 1;
    }
    proof {
        assert(sorted@.take(sorted@.len() as int) =~= sorted@);
    }
    r
}

/// No two cards share a note.
pub open spec fn distinct_cards(cards: Seq<PlacedCard>) -> bool {
    forall|i: int, j: int| 0 <= i < j < cards.len() ==> cards[i].id != cards[j].id
}

/// `b` is `a` moved about without changing the reading order's view of
/// it: the same notes in the same places of the list, and every two cards
/// in the same order of band, x and id.
pub open spec fn same_relative_order(a: Seq<PlacedCard>, b: Seq<PlacedCard>) -> bool {
    &&& a.len() == b.len()
    &&& forall|i: int| 0 <= i < a.len() ==> #[trigger] a[i].id == b[i].id
    &&& forall|i: int, j: int|
        0 <= i < a.len() && 0 <= j < a.len() ==> (key_lt(reading_key(a[i]), reading_key(a[j]))
            <==> key_lt(reading_key(b[i]), reading_key(b[j])))
}

/// `r` is a reading order of `cards` (what `reading_order` returns).
pub open spec fn is_reading_order(cards: Seq<PlacedCard>, r: Seq<NoteId>) -> bool {
    exists|s: Seq<(SortKey, NoteId)>|
        {
            &&& s.to_multiset() == keyed_cards(cards).to_multiset()
            &&& sorted_by_key(s)
            &&& r == s.map_values(|p: (SortKey, NoteId)| p.1)
        }
}

/// Strictly increasing keys.
spec fn strictly_keyed(s: Seq<(SortKey, NoteId)>) -> bool {
    forall|i: int, j: int| 0 <= i < j < s.len() ==> key_lt(#[trigger] s[i].0, #[trigger] s[j].0)
}

/// Two strictly increasing sequences holding the same entries are equal.
proof fn lemma_strict_unique(t: Seq<(SortKey, NoteId)>, u: Seq<(SortKey, NoteId)>, i: int)
    requires
        strictly_keyed(t),
        strictly_keyed(u),
        t.len() == u.len(),
        forall|k: int| 0 <= k < t.len() ==> u.contains(#[trigger] t[k]),
        forall|k: int| 0 <= k < u.len() ==> t.contains(#[trigger] u[k]),
        i < t.len(),
    ensures
        forall|j: int| 0 <= j <= i ==> t[j] == u[j],
    decreases i + 1,
{
    if i >= 0 {
        lemma_strict_unique(t, u, i - 1);
        assert(u.contains(t[i]));
        let p = choose|p: int| 0 <= p < u.len() && u[p] == t[i];
        assert(t.contains(u[i]));
        let q = choose|q: int| 0 <= q < t.len() && t[q] == u[i];
        if p < i {
            assert(u[p] == t[p]);
            assert(key_lt(t[p].0, t[i].0));
        } else if p > i {
            assert(key_lt(u[i].0, u[p].0));
            if q < i {
                assert(t[q] == u[q]);
                assert(key_lt(u[q].0, u[i].0));
            } else if q > i {
                assert(key_lt(t[i].0, t[q].0));
            }
        }
    }
}

/// Sorted entries with distinct notes have strictly increasing keys.
proof fn lemma_sorted_strict(s: Seq<(SortKey, NoteId)>)
    requires
        sorted_by_key(s),
        forall|i: int| 0 <= i < s.len() ==> (#[trigger] s[i]).0.id == s[i].1.0,
        forall|i: int, j: int| 0 <= i < j < s.len() ==> (#[trigger] s[i]).1 != (#[trigger] s[j]).1,
    ensures
        strictly_keyed(s),
{
    assert forall|i: int, j: int| 0 <= i < j < s.len() implies key_lt(#[trigger] s[i].0, #[trigger] s[j].0) by {
        assert(!key_lt(s[j].0, s[i].0));
        assert(s[i].1 != s[j].1);
    }
}

/// The entries of a sorted permutation of the cards: exactly the keyed
/// cards, each note once.
proof fn lemma_perm_facts(cards: Seq<PlacedCard>, s: Seq<(SortKey, NoteId)>)
    requires
        distinct_cards(cards),
        s.to_multiset() == keyed_cards(cards).to_multiset(),
    ensures
        s.len() == cards.len(),
        forall|x: (SortKey, NoteId)| s.contains(x) <==> keyed_cards(cards).contains(x),
        forall|i: int| 0 <= i < s.len() ==> (#[trigger] s[i]).0.id == s[i].1.0,
        forall|i: int, j: int| 0 <= i < j < s.len() ==> (#[trigger] s[i]).1 != (#[trigger] s[j]).1,
{
    let k = keyed_cards(cards);
    vstd::seq_lib::to_multiset_len(s);
    vstd::seq_lib::to_multiset_len(k);
    assert forall|x: (SortKey, NoteId)| s.contains(x) <==> k.contains(x) by {
        vstd::seq_lib::to_multiset_contains(s, x);
        vstd::seq_lib::to_multiset_contains(k, x);
    }
    assert(k.no_duplicates()) by {
        assert forall|i: int, j: int| 0 <= i < k.len() && 0 <= j < k.len() && i != j implies k[i] != k[j] by {
            if i < j {
                assert(cards[i].id != cards[j].id);
            } else {
                assert(cards[j].id != cards[i].id);
            }
        }
    }
    k.lemma_multiset_has_no_duplicates();
    s.lemma_multiset_has_no_duplicates_conv();
    assert forall|i: int| 0 <= i < s.len() implies (#[trigger] s[i]).0.id == s[i].1.0 by {
        assert(s.contains(s[i]));
        assert(k.contains(s[i]));
    }
    assert forall|i: int, j: int| 0 <= i < j < s.len() implies (#[trigger] s[i]).1 != (#[trigger] s[j]).1 by {
        assert(s.contains(s[i]) && s.contains(s[j]));
        let a = choose|a: int| 0 <= a < k.len() && k[a] == s[i];
        let b = choose|b: int| 0 <= b < k.len() && k[b] == s[j];
        if s[i].1 == s[j].1 {
            if a != b {
                if a < b {
                    assert(cards[a].id != cards[b].id);
                } else {
                    assert(cards[b].id != cards[a].id);
                }
            }
        }
    }
}

/// The reading order depends only on how the cards stand relative to each
/// other: moving cards without changing any band, any left-to-right order
/// within a band or which note is where leaves it unchanged.
pub proof fn lemma_reading_order_relative(
    a: Seq<PlacedCard>,
    b: Seq<PlacedCard>,
    ra: Seq<NoteId>,
    rb: Seq<NoteId>,
)
    requires
        distinct_cards(a),
        same_relative_order(a, b),
        is_reading_order(a, ra),
        is_reading_order(b, rb),
    ensures
        ra == rb,
{
    let sa = choose|s: Seq<(SortKey, NoteId)>|
        {
            &&& s.to_multiset() == keyed_cards(a).to_multiset()
            &&& sorted_by_key(s)
            &&& ra == s.map_values(|p: (SortKey, NoteId)| p.1)
        };
    let sb = choose|s: Seq<(SortKey, NoteId)>|
        {
            &&& s.to_multiset() == keyed_cards(b).to_multiset()
            &&& sorted_by_key(s)
            &&& rb == s.map_values(|p: (SortKey, NoteId)| p.1)
        };
    assert(distinct_cards(b)) by {
        assert forall|i: int, j: int| 0 <= i < j < b.len() implies b[i].id != b[j].id by {
            assert(a[i].id == b[i].id && a[j].id == b[j].id);
        }
    }
    let ka = keyed_cards(a);
    let kb = keyed_cards(b);
    lemma_perm_facts(a, sa);
    lemma_perm_facts(b, sb);
    lemma_sorted_strict(sa);
    lemma_sorted_strict(sb);
    // Where each entry of `sa` comes from in `a`.
    let src = Seq::new(sa.len(), |i: int| choose|j: int| 0 <= j < ka.len() && ka[j] == sa[i]);
    assert forall|i: int| 0 <= i < sa.len() implies 0 <= #[trigger] src[i] < a.len() && ka[src[i]] == sa[i] by {
        assert(sa.contains(sa[i]));
        assert(ka.contains(sa[i]));
    }
    let t = Seq::new(sa.len(), |i: int| kb[src[i]]);
    assert forall|i: int, j: int| 0 <= i < j < t.len() implies key_lt(#[trigger] t[i].0, #[trigger] t[j].0) by {
        assert(key_lt(sa[i].0, sa[j].0));
        assert(ka[src[i]] == sa[i] && ka[src[j]] == sa[j]);
    }
    assert forall|k: int| 0 <= k < t.len() implies sb.contains(#[trigger] t[k]) by {
        assert(kb.contains(kb[src[k]]));
    }
    assert forall|k: int| 0 <= k < sb.len() implies t.contains(#[trigger] sb[k]) by {
        assert(sb.contains(sb[k]));
        assert(kb.contains(sb[k]));
        let j = choose|j: int| 0 <= j < kb.len() && kb[j] == sb[k];
        assert(ka.contains(ka[j]));
        assert(sa.contains(ka[j]));
        let i = choose|i: int| 0 <= i < sa.len() && sa[i] == ka[j];
        assert(ka[src[i]] == ka[j]);
        if src[i] != j {
            if src[i] < j {
                assert(a[src[i]].id != a[j].id);
            } else {
                assert(a[j].id != a[src[i]].id);
            }
        }
        assert(t[i] == sb[k]);
    }
    if t.len() > 0 {
        lemma_strict_unique(t, sb, t.len() - 1);
    }
    assert(ra =~= rb) by {
        assert forall|i: int| 0 <= i < ra.len() implies ra[i] == rb[i] by {
            assert(t[i] == sb[i]);
            assert(ka[src[i]] == sa[i]);
            assert(a[src[i]].id == b[src[i]].id);
        }
    }
}

/// Left/Right focus along the reading order `order`: from no focus (or a
/// focus not on the desk) to the first card; otherwise to the previous or
/// next card, staying put at either end (`None`: no move).
pub fn step_in_order(order: &[NoteId], current: Option<NoteId>, forward: bool) -> (r: Option<NoteId>)
    ensures
        order@.len() == 0 ==> r is None,
        order@.len() > 0 && (current is None || !order@.contains(current->0)) ==> r == Some(order@[0]),
        order@.len() > 0 && current is Some && order@.contains(current->0) ==> ({
            let i = crate::surfaces::inbox::position_of(order@, current->0)->0;
            &&& forward ==> r == (if i + 1 < order@.len() { Some(order@[i + 1]) } else { None::<NoteId> })
            &&& !forward ==> r == (if i > 0 { Some(order@[i - 1]) } else { None::<NoteId> })
        }),
{
    if order.len() == 0 {
        return None;
    }
    let cur = match current {
        Some(c) => c,
        None => {
            return Some(order[0]);
        },
    };
    match crate::surfaces::inbox::position(order, cur) {
        None => Some(order[0]),
        Some(i) => {
            if forward {
                if i < order.len() - 1 {
                    Some(order[i + 1])
                } else {
                    None
                }
            } else if i > 0 {
                Some(order[i - 1])
            } else {
                None
            }
        },
    }
}

/// What the desk's card keys ask for.
#[derive(Debug, Clone, Copy, PartialEq, Eq, Structural)]
pub enum DeskKeyEvent {
    /// Promote the focused scrap (Ctrl+Enter).
    Promote(NoteId),
    /// Open the focused card's editor (Enter).
    OpenCard(NoteId),
    /// The focus moved.
    FocusChanged(Option<NoteId>),
    /// Put the focused card away (Backspace).
    PutAway(NoteId),
    /// Toggle the task box with this ordinal in the card's body (a click on
    /// a face checkbox).
    ToggleTaskBox { id: NoteId, ordinal: usize },
}

/// The card keys pressed this frame on a desk.
#[derive(Debug, Clone, Copy, PartialEq, Eq, Structural, Default)]
pub struct DeskKeys {
    pub ctrl_enter: bool,
    /// Enter without Ctrl.
    pub enter: bool,
    pub backspace: bool,
    pub shift_f10: bool,
}

/// Where the focus goes when card `id` leaves a desk with reading order
/// `order`: the next card, else the previous one, else nowhere.
pub open spec fn focus_after_put_away(order: Seq<NoteId>, id: NoteId) -> Option<NoteId> {
    let i = crate::surfaces::inbox::position_of(order, id)->0;
    if i + 1 < order.len() {
        Some(order[i + 1])
    } else if i > 0 {
        Some(order[i - 1])
    } else {
        None
    }
}

/// The desk's card keys, after the arrows have moved the focus, for the
/// cards in reading order `order`; `focus_fleeting`: the focused card is a
/// scrap. In order: Ctrl+Enter promotes a focused scrap, Enter opens the
/// focused card, Backspace puts the focused card away (the focus moving to
/// its neighbour in reading order first), and Shift+F10 asks to open the
/// focused card's menu (the result). While an overlay holds the keyboard
/// (`blocked`, see `Overlays`) nothing happens.
pub fn desk_keys(
    order: &[NoteId],
    focus: &mut Option<NoteId>,
    focus_fleeting: bool,
    keys: DeskKeys,
    blocked: bool,
    events: &mut Vec<DeskKeyEvent>,
) -> (open_menu: bool)
    ensures
        blocked ==> *final(focus) == *old(focus) && final(events)@ == old(events)@ && !open_menu,
        !blocked ==> ({
            let f = *old(focus);
            let e1: Seq<DeskKeyEvent> = if keys.ctrl_enter && f is Some && focus_fleeting {
                seq![DeskKeyEvent::Promote(f->0)]
            } else {
                seq![]
            };
            let e2: Seq<DeskKeyEvent> = if keys.enter && f is Some {
                seq![DeskKeyEvent::OpenCard(f->0)]
            } else {
                seq![]
            };
            let away = keys.backspace && f is Some && order@.contains(f->0);
            let f2 = if away { focus_after_put_away(order@, f->0) } else { f };
            let e3: Seq<DeskKeyEvent> = if away {
                seq![DeskKeyEvent::FocusChanged(f2), DeskKeyEvent::PutAway(f->0)]
            } else {
                seq![]
            };
            &&& final(events)@ == old(events)@ + e1 + e2 + e3
            &&& *final(focus) == f2
            &&& open_menu == (keys.shift_f10 && f2 is Some)
        }),
{
    if blocked {
        return false;
    }
    let ghost ev0 = events@;
    let f = *focus;
    if keys.ctrl_enter && focus_fleeting {
        if let Some(id) = f {
            events.push(DeskKeyEvent::Promote(id));
        }
    }
    let ghost ev1 = events@;
    if keys.enter {
        if let Some(id) = f {
            events.push(DeskKeyEvent::OpenCard(id));
        }
    }
    let ghost ev2 = events@;
    if keys.backspace {
        if let Some(id) = f {
            if let Some(i) = crate::surfaces::inbox::position(order, id) {
                let next = if i < order.len() - 1 {
                    Some(order[i + 1])
                } else if i > 0 {
                    Some(order[i - 1])
                } else {
                    None
                };
                *focus = next;
                events.push(DeskKeyEvent::FocusChanged(next));
                events.push(DeskKeyEvent::PutAway(id));
            }
        }
    }
    proof {
        let e1: Seq<DeskKeyEvent> = if keys.ctrl_enter && f is Some && focus_fleeting {
            seq![DeskKeyEvent::Promote(f->0)]
        } else {
            seq![]
        };
        let e2: Seq<DeskKeyEvent> = if keys.enter && f is Some {
            seq![DeskKeyEvent::OpenCard(f->0)]
        } else {
            seq![]
        };
        assert(ev1 =~= ev0 + e1);
        assert(ev2 =~= ev0 + e1 + e2);
        if keys.backspace && f is Some && order@.contains(f->0) {
            let f2 = focus_after_put_away(order@, f->0);
            assert(events@ =~= ev0 + e1 + e2 + seq![DeskKeyEvent::FocusChanged(f2), DeskKeyEvent::PutAway(f->0)]);
        } else {
            assert(events@ =~= ev0 + e1 + e2);
        }
    }
    keys.shift_f10 && focus.is_some()
}

/// A frame of pointer input on card `id` of a desk. A click on a face
/// checkbox (`checkbox`, its ordinal) toggles that box unless the palette is
/// open; any other click focuses the card if it was not focused (the palette
/// does not gate this). A double-click opens the card unless the palette is
/// open.
pub fn desk_card_pointer(
    id: NoteId,
    focus: &mut Option<NoteId>,
    checkbox: Option<usize>,
    clicked: bool,
    double_clicked: bool,
    palette_open: bool,
    events: &mut Vec<DeskKeyEvent>,
)
    ensures
        ({
            let toggle = checkbox is Some && !palette_open;
            let refocus = !toggle && clicked && *old(focus) != Some(id);
            let e1: Seq<DeskKeyEvent> = if toggle {
                seq![DeskKeyEvent::ToggleTaskBox { id, ordinal: checkbox->0 }]
            } else if refocus {
                seq![DeskKeyEvent::FocusChanged(Some(id))]
            } else {
                seq![]
            };
            let e2: Seq<DeskKeyEvent> = if double_clicked && !palette_open {
                seq![DeskKeyEvent::OpenCard(id)]
            } else {
                seq![]
            };
            &&& *final(focus) == (if refocus { Some(id) } else { *old(focus) })
            &&& final(events)@ == old(events)@ + e1 + e2
        }),
{
    let ghost ev0 = events@;
    let mut toggled = false;
    if let Some(ordinal) = checkbox {
        if !palette_open {
            events.push(DeskKeyEvent::ToggleTaskBox { id, ordinal });
            toggled = true;
        }
    }
    if !toggled && clicked && *focus != Some(id) {
        *focus = Some(id);
        events.push(DeskKeyEvent::FocusChanged(Some(id)));
    }
    let ghost ev1 = events@;
    if double_clicked && !palette_open {
        events.push(DeskKeyEvent::OpenCard(id));
    }
    proof {
        let e2: Seq<DeskKeyEvent> = if double_clicked && !palette_open {
            seq![DeskKeyEvent::OpenCard(id)]
        } else {
            seq![]
        };
        assert(events@ =~= ev1 + e2);
        assert(ev1.len() <= ev0.len() + 1);
        assert(ev1 =~= ev0 + ev1.skip(ev0.len() as int));
    }
}

/// A click on a ghost card brings the real card `id` to where the ghost
/// stood, unless the palette is open.
pub fn ghost_click(id: NoteId, clicked: bool, palette_open: bool) -> (placed: Option<NoteId>)
    ensures
        placed == (if clicked && !palette_open { Some(id) } else { None }),
{
    if clicked && !palette_open {
        Some(id)
    } else {
        None
    }
}


/// Putting away the card first at `i` of the reading order hands the focus
/// to its neighbour: the next card, or the previous one when it was last,
/// or nothing when it was alone.
pub proof fn lemma_put_away_focus_neighbour(order: Seq<NoteId>, i: int)
    requires
        0 <= i < order.len(),
        forall|j: int| 0 <= j < i ==> order[j] != order[i],
    ensures
        i + 1 < order.len() ==> focus_after_put_away(order, order[i]) == Some(order[i + 1]),
        i + 1 == order.len() && i > 0 ==> focus_after_put_away(order, order[i]) == Some(order[i - 1]),
        order.len() == 1 ==> focus_after_put_away(order, order[i]) is None,
{
    assert(order.contains(order[i]));
    crate::surfaces::inbox::lemma_position_of_some(order, order[i]);
    let k = crate::surfaces::inbox::position_of(order, order[i])->0;
    if k < i {
        assert(order[k] == order[i]);
    } else if k > i {
        assert(order[i] != order[i]);
    }
}

} // verus!
