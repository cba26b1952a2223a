//! The map's graph: every note a dot, every resolved link a line, the
//! unlinked notes on a ring of their own, and how the layout is seeded.
use crate::ids::{contains_id, insert_sorted, strictly_sorted};
use crate::note::NoteId;
use crate::surfaces::inbox::{linear_focus, move_linear_focus};
use std::collections::HashMap;
use vstd::prelude::*;

verus! {

broadcast use vstd::std_specs::hash::group_hash_axioms;

/// The nodes to dim while the palette is open on the map: every node that
/// is not among the palette's results (each once, in node order). Result
/// ids that are not map nodes are ignored; no results dims everything.
pub fn dimmed_node_ids(nodes: &[NoteId], palette_result_ids: &[NoteId]) -> (dimmed: Vec<NoteId>)
    ensures
        forall|x: NoteId| dimmed@.contains(x) <==> (nodes@.contains(x) && !palette_result_ids@.contains(x)),
        dimmed@.no_duplicates(),
{
    let mut out: Vec<NoteId> = Vec::new();
    let mut i: usize = 0;
    while i < nodes.len()
        invariant
            i <= nodes@.len(),
            out@.no_duplicates(),
            forall|x: NoteId| out@.contains(x) <==> (nodes@.take(i as int).contains(x) && !palette_result_ids@.contains(x)),
        decreases nodes@.len() - i,
    {
        let id = nodes[i];
        proof {
            assert(nodes@.take(i + 1) =~= nodes@.take(i as int).push(id));
        }
        let ghost out0 = out@;
        if !contains_id(palette_result_ids, id) && !contains_id(out.as_slice(), id) {
            out.push(id);
            proof {
                assert(out@ == out0.push(id));
                assert forall|x: NoteId| out@.contains(x) <==> (out0.contains(x) || x == id) by {
                    if out@.contains(x) && x != id {
                        let k = choose|k: int| 0 <= k < out@.len() && #[trigger] out@[k] == x;
                        assert(out0[k] == x);
                    }
                    if out0.contains(x) {
                        let k = choose|k: int| 0 <= k < out0.len() && #[trigger] out0[k] == x;
                        assert(out@[k] == x);
                    }
                    if x == id {
                        assert(out@[out0.len() as int] == x);
                    }
                }
            }
        }
        proof {
            assert(out@ == out0 || (out@ == out0.push(id) && !palette_result_ids@.contains(id)
                && forall|x: NoteId| out@.contains(x) <==> (out0.contains(x) || x == id)));
            assert forall|x: NoteId| out@.contains(x) <==> (nodes@.take(i + 1).contains(x) && !palette_result_ids@.contains(x)) by {
                if nodes@.take(i + 1).contains(x) && x != id {
                    let k = choose|k: int| 0 <= k < i + 1 && #[trigger] nodes@.take(i + 1)[k] == x;
                    assert(nodes@.take(i as int)[k] == x);
                }
                if nodes@.take(i as int).contains(x) {
                    let k = choose|k: int| 0 <= k < i && #[trigger] nodes@.take(i as int)[k] == x;
                    assert(nodes@.take(i + 1)[k] == x);
                }
                if x == id {
                    assert(nodes@.take(i + 1)[i as int] == x);
                }
                if out@.contains(x) {
                    if out0.contains(x) {
                        assert(nodes@.take(i as int).contains(x));
                        let k = choose|k: int| 0 <= k < i && #[trigger] nodes@.take(i as int)[k] == x;
                        assert(nodes@.take(i + 1)[k] == x);
                    } else {
                        assert(x == id);
                        assert(nodes@.take(i + 1)[i as int] == x);
                    }
                }
            }
        }
        i = i + 1;
    }
    proof {
        assert(nodes@.take(nodes@.len() as int) =~= nodes@);
    }
    out
}

/// A link between `a` and `b` as one undirected edge: the lower id first.
pub open spec fn norm(a: NoteId, b: NoteId) -> (NoteId, NoteId) {
    if a.0 <= b.0 {
        (a, b)
    } else {
        (b, a)
    }
}

/// Edge order: by lower id, then by higher id.
pub open spec fn edge_lt(x: (NoteId, NoteId), y: (NoteId, NoteId)) -> bool {
    x.0.0 < y.0.0 || (x.0.0 == y.0.0 && x.1.0 < y.1.0)
}

/// Edges in strictly increasing order (a sorted set).
pub open spec fn edges_sorted(s: Seq<(NoteId, NoteId)>) -> bool {
    forall|i: int, j: int| 0 <= i < j < s.len() ==> edge_lt(#[trigger] s[i], #[trigger] s[j])
}

/// Link `k` of note `ids[i]` resolves to another note, making edge `e`.
pub open spec fn link_gives(
    ids: Seq<NoteId>,
    outs: Seq<Vec<Option<NoteId>>>,
    i: int,
    k: int,
    e: (NoteId, NoteId),
) -> bool {
    &&& 0 <= i < ids.len()
    &&& 0 <= k < outs[i]@.len()
    &&& outs[i]@[k] matches Some(t) && t != ids[i] && norm(ids[i], t) == e
}

/// Some link before link `m` of note `n` makes edge `e`.
pub open spec fn edge_before(
    ids: Seq<NoteId>,
    outs: Seq<Vec<Option<NoteId>>>,
    n: int,
    m: int,
    e: (NoteId, NoteId),
) -> bool {
    exists|i: int, k: int| (i < n || (i == n && k < m)) && #[trigger] link_gives(ids, outs, i, k, e)
}

/// Some resolved link between two distinct notes makes edge `e`.
pub open spec fn link_edge(ids: Seq<NoteId>, outs: Seq<Vec<Option<NoteId>>>, e: (NoteId, NoteId)) -> bool {
    exists|i: int, k: int| #[trigger] link_gives(ids, outs, i, k, e)
}

/// Adds `e` to the sorted edge set `v`.
#[verifier::spinoff_prover]
#[verifier::rlimit(40)]
fn insert_edge(v: &mut Vec<(NoteId, NoteId)>, e: (NoteId, NoteId))
    requires
        edges_sorted(old(v)@),
    ensures
        edges_sorted(final(v)@),
        forall|x: (NoteId, NoteId)| final(v)@.contains(x) <==> (old(v)@.contains(x) || x == e),
{
    let mut i: usize = 0;
    while i < v.len() && (v[i].0.0 < e.0.0 || (v[i].0.0 == e.0.0 && v[i].1.0 < e.1.0))
        invariant
            i <= v@.len(),
            v@ == old(v)@,
            edges_sorted(v@),
            forall|j: int| 0 <= j < i ==> edge_lt(#[trigger] v@[j], e),
        decreases v@.len() - i,
    {
        i = i + 1;
    }
    if i < v.len() && v[i].0.0 == e.0.0 && v[i].1.0 == e.1.0 {
        proof {
            assert(v@[i as int] == e);
            assert forall|x: (NoteId, NoteId)| v@.contains(x) <==> (old(v)@.contains(x) || x == e) by {
                if x == e {
                    assert(v@[i as int] == x);
                }
            }
        }
        return;
    }
    v.insert(i, e);
    proof {
        let o = old(v)@;
        assert(v@ =~= o.take(i as int).push(e) + o.skip(i as int));
        assert forall|a: int, b: int| 0 <= a < b < v@.len() implies edge_lt(#[trigger] v@[a], #[trigger] v@[b]) by {
            if b < i {
            } else if b == i {
                assert(v@[a] == o[a]);
            } else if a < i {
                assert(v@[b] == o[b - 1]);
                assert(edge_lt(o[a], e));
                if i < o.len() {
                    assert(edge_lt(e, o[i as int]));
                }
            } else if a == i {
                assert(v@[b] == o[b - 1]);
                assert(edge_lt(e, o[i as int]));
            } else {
                assert(v@[a] == o[a - 1]);
                assert(v@[b] == o[b - 1]);
            }
        }
        assert forall|x: (NoteId, NoteId)| v@.contains(x) <==> (o.contains(x) || x == e) by {
            if v@.contains(x) {
                let k = choose|k: int| 0 <= k < v@.len() && v@[k] == x;
                if k < i {
                    assert(o[k] == x);
                } else if k > i {
                    assert(o[k - 1] == x);
                }
            }
            if o.contains(x) {
                let k = choose|k: int| 0 <= k < o.len() && o[k] == x;
                if k < i {
                    assert(v@[k] == x);
                } else {
                    assert(v@[k + 1] == x);
                }
            }
            if x == e {
                assert(v@[i as int] == x);
            }
        }
    }
}

/// The resolved links among `ids` (`outlinks[i]` are the links of
/// `ids[i]`, `None` where a link resolves to no note) as undirected edges:
/// self-links dropped, both directions collapsed, each edge once, sorted.
pub fn link_edges(ids: &[NoteId], outlinks: &[Vec<Option<NoteId>>]) -> (edges: Vec<(NoteId, NoteId)>)
    requires
        ids@.len() == outlinks@.len(),
    ensures
        edges_sorted(edges@),
        forall|e: (NoteId, NoteId)| edges@.contains(e) <==> link_edge(ids@, outlinks@, e),
        forall|j: int| 0 <= j < edges@.len() ==> (#[trigger] edges@[j]).0.0 < edges@[j].1.0,
{
    let mut edges: Vec<(NoteId, NoteId)> = Vec::new();
    let mut i: usize = 0;
    while i < ids.len()
        invariant
            i <= ids@.len(),
            ids@.len() == outlinks@.len(),
            edges_sorted(edges@),
            forall|e: (NoteId, NoteId)| edges@.contains(e) <==> edge_before(ids@, outlinks@, i as int, 0, e),
        decreases ids@.len() - i,
    {
        let a = ids[i];
        let links = &outlinks[i];
        let mut k: usize = 0;
        while k < links.len()
            invariant
                i < ids@.len(),
                ids@.len() == outlinks@.len(),
                a == ids@[i as int],
                *links == outlinks@[i as int],
                k <= links@.len(),
                edges_sorted(edges@),
                forall|e: (NoteId, NoteId)| edges@.contains(e) <==> edge_before(ids@, outlinks@, i as int, k as int, e),
            decreases links@.len() - k,
        {
            let ghost e0 = edges@;
            if let Some(t) = links[k] {
                if t.0 != a.0 {
                    let e = if a.0 <= t.0 { (a, t) } else { (t, a) };
                    insert_edge(&mut edges, e);
                    proof {
                        assert(link_gives(ids@, outlinks@, i as int, k as int, e));
                    }
                }
            }
            proof {
                assert forall|e: (NoteId, NoteId)| edges@.contains(e) <==> edge_before(ids@, outlinks@, i as int, k + 1, e) by {
                    if edge_before(ids@, outlinks@, i as int, k + 1, e) {
                        let (ii, kk) = choose|ii: int, kk: int| (ii < i || (ii == i && kk < k + 1)) && #[trigger] link_gives(ids@, outlinks@, ii, kk, e);
                        if ii < i || kk < k {
                            assert(edge_before(ids@, outlinks@, i as int, k as int, e));
                        }
                    }
                    if e0.contains(e) {
                        let (ii, kk) = choose|ii: int, kk: int| (ii < i || (ii == i && kk < k)) && #[trigger] link_gives(ids@, outlinks@, ii, kk, e);
                        assert(edge_before(ids@, outlinks@, i as int, k + 1, e));
                    }
                }
            }
            k = k + 1;
        }
        proof {
            assert forall|e: (NoteId, NoteId)| edge_before(ids@, outlinks@, i as int, k as int, e) <==> edge_before(ids@, outlinks@, i + 1, 0, e) by {
                if edge_before(ids@, outlinks@, i + 1, 0, e) {
                    let (ii, kk) = choose|ii: int, kk: int| (ii < i + 1 || (ii == i + 1 && kk < 0)) && #[trigger] link_gives(ids@, outlinks@, ii, kk, e);
                    assert(edge_before(ids@, outlinks@, i as int, k as int, e));
                }
                if edge_before(ids@, outlinks@, i as int, k as int, e) {
                    let (ii, kk) = choose|ii: int, kk: int| (ii < i || (ii == i && kk < k)) && #[trigger] link_gives(ids@, outlinks@, ii, kk, e);
                    assert(edge_before(ids@, outlinks@, i + 1, 0, e));
                }
            }
        }
        i = i + 1;
    }
    proof {
        assert forall|e: (NoteId, NoteId)| edge_before(ids@, outlinks@, i as int, 0, e) <==> link_edge(ids@, outlinks@, e) by {
            if link_edge(ids@, outlinks@, e) {
                let (ii, kk) = choose|ii: int, kk: int| #[trigger] link_gives(ids@, outlinks@, ii, kk, e);
                assert(edge_before(ids@, outlinks@, i as int, 0, e));
            }
        }
        assert forall|j: int| 0 <= j < edges@.len() implies (#[trigger] edges@[j]).0.0 < edges@[j].1.0 by {
            let e = edges@[j];
            assert(edges@.contains(e));
            let (ii, kk) = choose|ii: int, kk: int| #[trigger] link_gives(ids@, outlinks@, ii, kk, e);
        }
    }
    edges
}

/// Edge `e` has the note keyed `x` as an end.
pub open spec fn touches(e: (NoteId, NoteId), x: u128) -> bool {
    e.0.0 == x || e.1.0 == x
}

/// How many of `edges` have the note keyed `x` as an end.
pub open spec fn degree_in(edges: Seq<(NoteId, NoteId)>, x: u128) -> nat
    decreases edges.len(),
{
    if edges.len() == 0 {
        0
    } else {
        degree_in(edges.drop_last(), x) + if touches(edges.last(), x) {
            1nat
        } else {
            0nat
        }
    }
}

proof fn lemma_degree_bound(edges: Seq<(NoteId, NoteId)>, x: u128)
    ensures
        degree_in(edges, x) <= edges.len(),
    decreases edges.len(),
{
    if edges.len() > 0 {
        lemma_degree_bound(edges.drop_last(), x);
    }
}

/// `m` counts, for every note that ends an edge, its edges (its distinct
/// neighbours, the edges being distinct and free of self-links).
pub open spec fn is_degree_table(m: Map<u128, usize>, edges: Seq<(NoteId, NoteId)>) -> bool {
    &&& forall|x: u128| #[trigger] m.contains_key(x) <==> degree_in(edges, x) > 0
    &&& forall|x: u128| #[trigger] m.contains_key(x) ==> m[x] == degree_in(edges, x)
}

/// The degree table of `edges`, none of which is a self-link.
pub fn degrees_of(edges: &Vec<(NoteId, NoteId)>) -> (m: HashMap<u128, usize>)
    requires
        forall|j: int| 0 <= j < edges@.len() ==> (#[trigger] edges@[j]).0.0 != edges@[j].1.0,
    ensures
        is_degree_table(m@, edges@),
{
    let mut m: HashMap<u128, usize> = HashMap::new();
    let mut j: usize = 0;
    while j < edges.len()
        invariant
            j <= edges@.len(),
            forall|i: int| 0 <= i < edges@.len() ==> (#[trigger] edges@[i]).0.0 != edges@[i].1.0,
            is_degree_table(m@, edges@.take(j as int)),
        decreases edges@.len() - j,
    {
        let (a, b) = edges[j];
        let ghost before = edges@.take(j as int);
        let ghost after = edges@.take(j + 1);
        proof {
            assert(after.drop_last() =~= before);
            assert(after.last() == (a, b));
            lemma_degree_bound(before, a.0);
            lemma_degree_bound(before, b.0);
        }
        let ca: usize = match m.get(&a.0) {
            Some(v) => *v,
            None => 0,
        };
        m.insert(a.0, ca + 1);
        let cb: usize = match m.get(&b.0) {
            Some(v) => *v,
            None => 0,
        };
        m.insert(b.0, cb + 1);
        proof {
            assert forall|x: u128| #[trigger] m@.contains_key(x) <==> degree_in(after, x) > 0 by {
            }
            assert forall|x: u128| #[trigger] m@.contains_key(x) implies m@[x] == degree_in(after, x) by {
            }
        }
        j = j + 1;
    }
    proof {
        assert(edges@.take(edges@.len() as int) =~= edges@);
    }
    m
}

/// The note keyed `k` has at least one edge in the degree table `deg`.
pub open spec fn has_links(deg: Map<u128, usize>, k: u128) -> bool {
    deg.contains_key(k) && deg[k] > 0
}

/// The notes of `nodes` with links (`want`) or without (`!want`), in order.
pub open spec fn nodes_with_links(nodes: Seq<NoteId>, deg: Map<u128, usize>, want: bool) -> Seq<NoteId>
    decreases nodes.len(),
{
    if nodes.len() == 0 {
        Seq::empty()
    } else {
        let before = nodes_with_links(nodes.drop_last(), deg, want);
        if has_links(deg, nodes.last().0) == want {
            before.push(nodes.last())
        } else {
            before
        }
    }
}

/// The map's graph. `linked` are the notes in the physics layout; `orphans`
/// (no edges) sit on a ring around it instead.
pub struct MapGraph {
    /// Every note: sorted when built, then in order of arrival.
    pub nodes: Vec<NoteId>,
    /// Undirected resolved-link edges, lower id first.
    pub edges: Vec<(NoteId, NoteId)>,
    /// Notes with at least one edge, in node order (the layout's notes).
    pub linked: Vec<NoteId>,
    /// Notes without edges, in node order.
    pub orphans: Vec<NoteId>,
    /// Distinct-neighbour counts, keyed by note id.
    pub degrees: HashMap<u128, usize>,
}

impl MapGraph {
    /// No degree exceeds the number of edges.
    pub open spec fn well_formed(&self) -> bool {
        forall|k: u128| #[trigger] self.degrees@.contains_key(k) ==> self.degrees@[k] <= self.edges@.len()
    }

    /// Build the graph of the indexed notes `ids` (each once), where
    /// `outlinks[i]` are the links of `ids[i]` (`None` where a link resolves
    /// to no note): nodes sorted by id, edges = the resolved links between
    /// distinct notes, each once (see `link_edges`), degrees counted over
    /// them, and the nodes split into linked ones and orphans.
    pub fn build(ids: &[NoteId], outlinks: &[Vec<Option<NoteId>>]) -> (g: MapGraph)
        requires
            ids@.len() == outlinks@.len(),
            ids@.no_duplicates(),
        ensures
            g.well_formed(),
            strictly_sorted(g.nodes@),
            forall|x: NoteId| g.nodes@.contains(x) <==> ids@.contains(x),
            edges_sorted(g.edges@),
            forall|e: (NoteId, NoteId)| g.edges@.contains(e) <==> link_edge(ids@, outlinks@, e),
            is_degree_table(g.degrees@, g.edges@),
            g.linked@ == nodes_with_links(g.nodes@, g.degrees@, true),
            g.orphans@ == nodes_with_links(g.nodes@, g.degrees@, false),
    {
        let mut nodes: Vec<NoteId> = Vec::new();
        let mut i: usize = 0;
        while i < ids.len()
            invariant
                i <= ids@.len(),
                strictly_sorted(nodes@),
                forall|x: NoteId| nodes@.contains(x) <==> ids@.take(i as int).contains(x),
            decreases ids@.len() - i,
        {
            insert_sorted(&mut nodes, ids[i]);
            proof {
                assert(ids@.take(i + 1) =~= ids@.take(i as int).push(ids@[i as int]));
                assert forall|x: NoteId| nodes@.contains(x) <==> ids@.take(i + 1).contains(x) by {
                    if ids@.take(i + 1).contains(x) && x != ids@[i as int] {
                        let k = choose|k: int| 0 <= k < i + 1 && #[trigger] ids@.take(i + 1)[k] == x;
                        assert(ids@.take(i as int)[k] == x);
                    }
                    if ids@.take(i as int).contains(x) {
                        let k = choose|k: int| 0 <= k < i && #[trigger] ids@.take(i as int)[k] == x;
                        assert(ids@.take(i + 1)[k] == x);
                    }
                    if x == ids@[i as int] {
                        assert(ids@.take(i + 1)[i as int] == x);
                    }
                }
            }
            i = i + 1;
        }
        proof {
            assert(ids@.take(ids@.len() as int) =~= ids@);
        }
        let edges = link_edges(ids, outlinks);
        let degrees = degrees_of(&edges);
        let mut linked: Vec<NoteId> = Vec::new();
        let mut orphans: Vec<NoteId> = Vec::new();
        let mut k: usize = 0;
        while k < nodes.len()
            invariant
                k <= nodes@.len(),
                linked@ == nodes_with_links(nodes@.take(k as int), degrees@, true),
                orphans@ == nodes_with_links(nodes@.take(k as int), degrees@, false),
            decreases nodes@.len() - k,
        {
            let id = nodes[k];
            proof {
                assert(nodes@.take(k + 1).drop_last() =~= nodes@.take(k as int));
            }
            let linked_here = match degrees.get(&id.0) {
                Some(d) => *d > 0,
                None => false,
            };
            if linked_here {
                linked.push(id);
            } else {
                orphans.push(id);
            }
            k = k + 1;
        }
        proof {
            assert(nodes@.take(nodes@.len() as int) =~= nodes@);
            assert forall|x: u128| #[trigger] degrees@.contains_key(x) implies degrees@[x] <= edges@.len() by {
                lemma_degree_bound(edges@, x);
            }
        }
        MapGraph { nodes, edges, linked, orphans, degrees }
    }
}

/// The notes of `linked` that have (`want`) or lack (`!want`) a cached
/// position in `pinned`, in order.
pub open spec fn split_pinned(linked: Seq<NoteId>, pinned: Seq<NoteId>, want: bool) -> Seq<NoteId>
    decreases linked.len(),
{
    if linked.len() == 0 {
        Seq::empty()
    } else {
        let before = split_pinned(linked.drop_last(), pinned, want);
        if pinned.contains(linked.last()) == want {
            before.push(linked.last())
        } else {
            before
        }
    }
}

/// The edges of `edges` with both ends among `keep`, in order.
pub open spec fn edges_among(edges: Seq<(NoteId, NoteId)>, keep: Seq<NoteId>) -> Seq<(NoteId, NoteId)>
    decreases edges.len(),
{
    if edges.len() == 0 {
        Seq::empty()
    } else {
        let before = edges_among(edges.drop_last(), keep);
        if keep.contains(edges.last().0) && keep.contains(edges.last().1) {
            before.push(edges.last())
        } else {
            before
        }
    }
}

/// The other ends of the edges at `x`, in edge order.
pub open spec fn adjacent(edges: Seq<(NoteId, NoteId)>, x: NoteId) -> Seq<NoteId>
    decreases edges.len(),
{
    if edges.len() == 0 {
        Seq::empty()
    } else {
        let s0 = adjacent(edges.drop_last(), x);
        let e = edges.last();
        let s1 = if e.0 == x {
            s0.push(e.1)
        } else {
            s0
        };
        if e.1 == x {
            s1.push(e.0)
        } else {
            s1
        }
    }
}

/// How the physics layout is seeded.
#[derive(Debug)]
pub enum LayoutSeed {
    /// No linked note has a cached position: lay every linked note out
    /// afresh.
    Cold,
    /// Lay out the cached notes and the edges among them, freeze them, then
    /// add each newcomer, in order, next to its neighbours.
    Warm {
        cached: Vec<NoteId>,
        cached_edges: Vec<(NoteId, NoteId)>,
        newcomers: Vec<(NoteId, Vec<NoteId>)>,
    },
}

/// The other ends of the edges at `x`, in edge order.
pub fn neighbours(edges: &Vec<(NoteId, NoteId)>, x: NoteId) -> (ns: Vec<NoteId>)
    ensures
        ns@ == adjacent(edges@, x),
{
    let mut ns: Vec<NoteId> = Vec::new();
    let mut j: usize = 0;
    while j < edges.len()
        invariant
            j <= edges@.len(),
            ns@ == adjacent(edges@.take(j as int), x),
        decreases edges@.len() - j,
    {
        let (a, b) = edges[j];
        proof {
            assert(edges@.take(j + 1).drop_last() =~= edges@.take(j as int));
        }
        if a.0 == x.0 {
            ns.push(b);
        }
        if b.0 == x.0 {
            ns.push(a);
        }
        j = j + 1;
    }
    proof {
        assert(edges@.take(edges@.len() as int) =~= edges@);
    }
    ns
}

impl MapGraph {
    /// The layout seed for `pinned`, the notes with a cached position: cold
    /// when no linked note is cached; otherwise the cached linked notes with
    /// the edges among them, then the uncached linked notes in order, each
    /// with its neighbours.
    pub fn layout_seed(&self, pinned: &[NoteId]) -> (seed: LayoutSeed)
        ensures
            ({
                let cached = split_pinned(self.linked@, pinned@, true);
                let fresh = split_pinned(self.linked@, pinned@, false);
                &&& cached.len() == 0 ==> seed is Cold
                &&& cached.len() > 0 ==> (seed matches LayoutSeed::Warm { cached: c, cached_edges: ce, newcomers: nc }
                    && c@ == cached
                    && ce@ == edges_among(self.edges@, cached)
                    && nc@.len() == fresh.len()
                    && forall|i: int| 0 <= i < fresh.len() ==> (#[trigger] nc@[i]).0 == fresh[i] && nc@[i].1@ == adjacent(self.edges@, fresh[i]))
            }),
    {
        let mut cached: Vec<NoteId> = Vec::new();
        let mut fresh: Vec<NoteId> = Vec::new();
        let mut i: usize = 0;
        while i < self.linked.len()
            invariant
                i <= self.linked@.len(),
                cached@ == split_pinned(self.linked@.take(i as int), pinned@, true),
                fresh@ == split_pinned(self.linked@.take(i as int), pinned@, false),
            decreases self.linked@.len() - i,
        {
            let id = self.linked[i];
            proof {
                assert(self.linked@.take(i + 1).drop_last() =~= self.linked@.take(i as int));
            }
            if contains_id(pinned, id) {
                cached.push(id);
            } else {
                fresh.push(id);
            }
            i = i + 1;
        }
        proof {
            assert(self.linked@.take(self.linked@.len() as int) =~= self.linked@);
        }
        if cached.len() == 0 {
            return LayoutSeed::Cold;
        }
        let mut cached_edges: Vec<(NoteId, NoteId)> = Vec::new();
        let mut j: usize = 0;
        while j < self.edges.len()
            invariant
                j <= self.edges@.len(),
                cached_edges@ == edges_among(self.edges@.take(j as int), cached@),
            decreases self.edges@.len() - j,
        {
            let (a, b) = self.edges[j];
            proof {
                assert(self.edges@.take(j + 1).drop_last() =~= self.edges@.take(j as int));
            }
            if contains_id(cached.as_slice(), a) && contains_id(cached.as_slice(), b) {
                cached_edges.push((a, b));
            }
            j = j + 1;
        }
        proof {
            assert(self.edges@.take(self.edges@.len() as int) =~= self.edges@);
        }
        let mut newcomers: Vec<(NoteId, Vec<NoteId>)> = Vec::new();
        let mut k: usize = 0;
        while k < fresh.len()
            invariant
                k <= fresh@.len(),
                newcomers@.len() == k,
                forall|i: int| 0 <= i < k ==> (#[trigger] newcomers@[i]).0 == fresh@[i] && newcomers@[i].1@ == adjacent(self.edges@, fresh@[i]),
            decreases fresh@.len() - k,
        {
            let x = fresh[k];
            let ns = neighbours(&self.edges, x);
            newcomers.push((x, ns));
            k = k + 1;
        }
        LayoutSeed::Warm { cached, cached_edges, newcomers }
    }
}

proof fn lemma_sorted_subset_len(ns: Seq<NoteId>, all: Seq<NoteId>)
    requires
        strictly_sorted(ns),
        forall|x: NoteId| ns.contains(x) ==> all.contains(x),
    ensures
        ns.len() <= all.len(),
{
    broadcast use vstd::seq_lib::seq_to_set_is_finite;
    assert(ns.no_duplicates()) by {
        assert forall|i: int, j: int| 0 <= i < ns.len() && 0 <= j < ns.len() && i != j implies ns[i] != ns[j] by {
            if i < j {
                assert(ns[i].0 < ns[j].0);
            } else {
                assert(ns[j].0 < ns[i].0);
            }
        }
    }
    ns.unique_seq_to_set();
    all.lemma_cardinality_of_set();
    assert(ns.to_set().subset_of(all.to_set())) by {
        assert forall|x: NoteId| ns.to_set().contains(x) implies all.to_set().contains(x) by {
            assert(ns.contains(x));
        }
    }
    vstd::set_lib::lemma_len_subset(ns.to_set(), all.to_set());
}

/// What became of a note that appeared while the map exists.
#[derive(Debug)]
pub enum Arrival {
    /// Already on the map, or not in the index: nothing changes.
    Ignored,
    /// No neighbour in the layout: it joins the orphan ring.
    Orphan,
    /// It joins the layout next to these neighbours (sorted by id); the
    /// layout reheats around it.
    Linked(Vec<NoteId>),
}

/// `x` is a neighbour a note `id` arriving with these links joins the
/// layout next to: another note, already in the layout, that it links to
/// or that links to it.
pub open spec fn arrival_neighbour(
    id: NoteId,
    linked: Seq<NoteId>,
    outlinks: Seq<Option<NoteId>>,
    backlinks: Seq<NoteId>,
    x: NoteId,
) -> bool {
    x != id && linked.contains(x) && (outlinks.contains(Some(x)) || backlinks.contains(x))
}

/// `deg` with one more edge counted at each of `ns`.
pub open spec fn bump_all(deg: Map<u128, usize>, ns: Seq<NoteId>) -> Map<u128, usize>
    decreases ns.len(),
{
    if ns.len() == 0 {
        deg
    } else {
        let d = bump_all(deg, ns.drop_last());
        let k = ns.last().0;
        d.insert(k, ((if d.contains_key(k) { d[k] as int } else { 0 }) + 1) as usize)
    }
}

/// The edges from `id` to each of `ns`, lower id first.
pub open spec fn edges_to(id: NoteId, ns: Seq<NoteId>) -> Seq<(NoteId, NoteId)> {
    ns.map_values(|n: NoteId| norm(id, n))
}

impl MapGraph {
    /// Track a note `id` that appeared while the map exists; `indexed` says
    /// whether the index knows it, `outlinks` are its resolved links and
    /// `backlinks` the notes linking to it. A note already on the map, or
    /// not indexed, is ignored. Otherwise it becomes a node; with no
    /// neighbour in the layout (see `arrival_neighbour`) it joins the
    /// orphans, else it joins the layout: one edge to each neighbour, each
    /// neighbour's degree one higher, its own degree the neighbour count.
    pub fn add_note(&mut self, id: NoteId, indexed: bool, outlinks: &[Option<NoteId>], backlinks: &[NoteId]) -> (a: Arrival)
        requires
            old(self).well_formed(),
            old(self).edges@.len() + old(self).linked@.len() < usize::MAX,
        ensures
            final(self).well_formed(),
            old(self).nodes@.contains(id) || !indexed ==> a is Ignored && final(self).nodes@ == old(self).nodes@
                && final(self).edges@ == old(self).edges@ && final(self).linked@ == old(self).linked@
                && final(self).orphans@ == old(self).orphans@ && final(self).degrees@ == old(self).degrees@,
            !old(self).nodes@.contains(id) && indexed ==> final(self).nodes@ == old(self).nodes@.push(id),
            !old(self).nodes@.contains(id) && indexed && a is Orphan ==> (forall|x: NoteId|
                !arrival_neighbour(id, old(self).linked@, outlinks@, backlinks@, x))
                && final(self).orphans@ == old(self).orphans@.push(id)
                && final(self).edges@ == old(self).edges@ && final(self).linked@ == old(self).linked@
                && final(self).degrees@ == old(self).degrees@,
            !old(self).nodes@.contains(id) && indexed ==> !(a is Ignored),
            a matches Arrival::Linked(ns) ==> ns@.len() > 0 && strictly_sorted(ns@) && (forall|x: NoteId|
                ns@.contains(x) <==> arrival_neighbour(id, old(self).linked@, outlinks@, backlinks@, x))
                && final(self).edges@ == old(self).edges@ + edges_to(id, ns@)
                && final(self).degrees@ == bump_all(old(self).degrees@, ns@).insert(id.0, ns@.len() as usize)
                && final(self).linked@ == old(self).linked@.push(id)
                && final(self).orphans@ == old(self).orphans@,
    {
        if !indexed || contains_id(self.nodes.as_slice(), id) {
            return Arrival::Ignored;
        }
        let mut ns: Vec<NoteId> = Vec::new();
        let mut i: usize = 0;
        while i < outlinks.len()
            invariant
                i <= outlinks@.len(),
                strictly_sorted(ns@),
                forall|x: NoteId| ns@.contains(x) <==> (x != id && self.linked@.contains(x)
                    && outlinks@.take(i as int).contains(Some(x))),
            decreases outlinks@.len() - i,
        {
            proof {
                assert(outlinks@.take(i + 1) =~= outlinks@.take(i as int).push(outlinks@[i as int]));
            }
            if let Some(t) = outlinks[i] {
                if t.0 != id.0 && contains_id(self.linked.as_slice(), t) {
                    insert_sorted(&mut ns, t);
                }
            }
            proof {
                assert forall|x: NoteId| ns@.contains(x) <==> (x != id && self.linked@.contains(x)
                    && outlinks@.take(i + 1).contains(Some(x))) by {
                    if outlinks@.take(i + 1).contains(Some(x)) && outlinks@[i as int] != Some(x) {
                        let k = choose|k: int| 0 <= k < i + 1 && #[trigger] outlinks@.take(i + 1)[k] == Some(x);
                        assert(outlinks@.take(i as int)[k] == Some(x));
                    }
                    if outlinks@.take(i as int).contains(Some(x)) {
                        let k = choose|k: int| 0 <= k < i && #[trigger] outlinks@.take(i as int)[k] == Some(x);
                        assert(outlinks@.take(i + 1)[k] == Some(x));
                    }
                    if outlinks@[i as int] == Some(x) {
                        assert(outlinks@.take(i + 1)[i as int] == Some(x));
                    }
                }
            }
            i = i + 1;
        }
        proof {
            assert(outlinks@.take(outlinks@.len() as int) =~= outlinks@);
        }
        let mut j: usize = 0;
        while j < backlinks.len()
            invariant
                j <= backlinks@.len(),
                strictly_sorted(ns@),
                forall|x: NoteId| ns@.contains(x) <==> (x != id && self.linked@.contains(x)
                    && (outlinks@.contains(Some(x)) || backlinks@.take(j as int).contains(x))),
            decreases backlinks@.len() - j,
        {
            let b = backlinks[j];
            if b.0 != id.0 && contains_id(self.linked.as_slice(), b) {
                insert_sorted(&mut ns, b);
            }
            proof {
                assert forall|x: NoteId| ns@.contains(x) <==> (x != id && self.linked@.contains(x)
                    && (outlinks@.contains(Some(x)) || backlinks@.take(j + 1).contains(x))) by {
                    if backlinks@.take(j + 1).contains(x) && x != b {
                        let k = choose|k: int| 0 <= k < j + 1 && #[trigger] backlinks@.take(j + 1)[k] == x;
                        assert(backlinks@.take(j as int)[k] == x);
                    }
                    if backlinks@.take(j as int).contains(x) {
                        let k = choose|k: int| 0 <= k < j && #[trigger] backlinks@.take(j as int)[k] == x;
                        assert(backlinks@.take(j + 1)[k] == x);
                    }
                    if x == b {
                        assert(backlinks@.take(j + 1)[j as int] == x);
                    }
                }
            }
            j = j + 1;
        }
        proof {
            assert(backlinks@.take(backlinks@.len() as int) =~= backlinks@);
        }
        self.nodes.push(id);
        if ns.len() == 0 {
            self.orphans.push(id);
            proof {
                assert forall|x: NoteId| !arrival_neighbour(id, old(self).linked@, outlinks@, backlinks@, x) by {
                    if arrival_neighbour(id, old(self).linked@, outlinks@, backlinks@, x) {
                        assert(ns@.contains(x));
                    }
                }
            }
            return Arrival::Orphan;
        }
        proof {
            assert forall|x: NoteId| ns@.contains(x) implies x != id by {}
            lemma_sorted_subset_len(ns@, self.linked@);
        }
        let mut k: usize = 0;
        while k < ns.len()
            invariant
                k <= ns@.len(),
                self.edges@ == old(self).edges@ + edges_to(id, ns@.take(k as int)),
                self.degrees@ == bump_all(old(self).degrees@, ns@.take(k as int)),
                forall|key: u128| #[trigger] self.degrees@.contains_key(key) ==> self.degrees@[key] <= self.edges@.len(),
                old(self).edges@.len() + old(self).linked@.len() < usize::MAX,
                ns@.len() <= old(self).linked@.len(),
                self.nodes@ == old(self).nodes@.push(id),
                self.linked@ == old(self).linked@,
                self.orphans@ == old(self).orphans@,
            decreases ns@.len() - k,
        {
            let n = ns[k];
            let e = if id.0 <= n.0 { (id, n) } else { (n, id) };
            self.edges.push(e);
            let c: usize = match self.degrees.get(&n.0) {
                Some(v) => *v,
                None => 0,
            };
            self.degrees.insert(n.0, c + 1);
            proof {
                assert(ns@.take(k + 1).drop_last() =~= ns@.take(k as int));
                assert(edges_to(id, ns@.take(k + 1)) =~= edges_to(id, ns@.take(k as int)).push(e));
                assert(self.edges@ =~= old(self).edges@ + edges_to(id, ns@.take(k + 1)));
            }
            k = k + 1;
        }
        self.degrees.insert(id.0, ns.len());
        self.linked.push(id);
        proof {
            assert(ns@.take(ns@.len() as int) =~= ns@);
        }
        Arrival::Linked(ns)
    }
}

/// A link from `a` to `b` and one from `b` to `a` are the same edge.
pub proof fn lemma_link_direction_collapses(a: NoteId, b: NoteId)
    ensures
        norm(a, b) == norm(b, a),
{
}

/// Every node is linked or an orphan: the linked ones have an edge, the
/// orphans none (so no node is both), and the two lists together hold as
/// many entries as the nodes.
pub proof fn lemma_linked_orphans_partition(nodes: Seq<NoteId>, deg: Map<u128, usize>)
    ensures
        nodes_with_links(nodes, deg, true).len() + nodes_with_links(nodes, deg, false).len() == nodes.len(),
        forall|x: NoteId| nodes.contains(x) <==> (nodes_with_links(nodes, deg, true).contains(x)
            || nodes_with_links(nodes, deg, false).contains(x)),
        forall|x: NoteId| nodes_with_links(nodes, deg, true).contains(x) ==> has_links(deg, x.0),
        forall|x: NoteId| nodes_with_links(nodes, deg, false).contains(x) ==> !has_links(deg, x.0),
    decreases nodes.len(),
{
    if nodes.len() > 0 {
        let init = nodes.drop_last();
        let last = nodes.last();
        lemma_linked_orphans_partition(init, deg);
        let l0 = nodes_with_links(init, deg, true);
        let o0 = nodes_with_links(init, deg, false);
        let l1 = nodes_with_links(nodes, deg, true);
        let o1 = nodes_with_links(nodes, deg, false);
        assert(nodes =~= init.push(last));
        assert forall|x: NoteId| l1.contains(x) <==> (l0.contains(x) || (x == last && has_links(deg, x.0))) by {
            if has_links(deg, last.0) {
                assert(l1 == l0.push(last));
                if l1.contains(x) && x != last {
                    let k = choose|k: int| 0 <= k < l1.len() && l1[k] == x;
                    assert(l0[k] == x);
                }
                if l0.contains(x) {
                    let k = choose|k: int| 0 <= k < l0.len() && l0[k] == x;
                    assert(l1[k] == x);
                }
                if x == last {
                    assert(l1[l0.len() as int] == x);
                }
            }
        }
        assert forall|x: NoteId| o1.contains(x) <==> (o0.contains(x) || (x == last && !has_links(deg, x.0))) by {
            if !has_links(deg, last.0) {
                assert(o1 == o0.push(last));
                if o1.contains(x) && x != last {
                    let k = choose|k: int| 0 <= k < o1.len() && o1[k] == x;
                    assert(o0[k] == x);
                }
                if o0.contains(x) {
                    let k = choose|k: int| 0 <= k < o0.len() && o0[k] == x;
                    assert(o1[k] == x);
                }
                if x == last {
                    assert(o1[o0.len() as int] == x);
                }
            }
        }
        assert forall|x: NoteId| nodes.contains(x) <==> (init.contains(x) || x == last) by {
            if nodes.contains(x) && x != last {
                let k = choose|k: int| 0 <= k < nodes.len() && nodes[k] == x;
                assert(init[k] == x);
            }
            if init.contains(x) {
                let k = choose|k: int| 0 <= k < init.len() && init[k] == x;
                assert(nodes[k] == x);
            }
            if x == last {
                assert(nodes[nodes.len() - 1] == x);
            }
        }
    }
}

/// Seeding splits the linked notes: the cached ones all have a cached
/// position, the newcomers none, every linked note is one or the other,
/// and together they hold as many entries as the linked notes.
pub proof fn lemma_seed_splits_linked(linked: Seq<NoteId>, pinned: Seq<NoteId>)
    ensures
        split_pinned(linked, pinned, true).len() + split_pinned(linked, pinned, false).len() == linked.len(),
        forall|x: NoteId| linked.contains(x) <==> (split_pinned(linked, pinned, true).contains(x)
            || split_pinned(linked, pinned, false).contains(x)),
        forall|x: NoteId| split_pinned(linked, pinned, true).contains(x) ==> pinned.contains(x),
        forall|x: NoteId| split_pinned(linked, pinned, false).contains(x) ==> !pinned.contains(x),
    decreases linked.len(),
{
    if linked.len() > 0 {
        let init = linked.drop_last();
        let last = linked.last();
        lemma_seed_splits_linked(init, pinned);
        let c0 = split_pinned(init, pinned, true);
        let f0 = split_pinned(init, pinned, false);
        let c1 = split_pinned(linked, pinned, true);
        let f1 = split_pinned(linked, pinned, false);
        assert forall|x: NoteId| c1.contains(x) <==> (c0.contains(x) || (x == last && pinned.contains(x))) by {
            if pinned.contains(last) {
                assert(c1 == c0.push(last));
                if c1.contains(x) && x != last {
                    let k = choose|k: int| 0 <= k < c1.len() && c1[k] == x;
                    assert(c0[k] == x);
                }
                if c0.contains(x) {
                    let k = choose|k: int| 0 <= k < c0.len() && c0[k] == x;
                    assert(c1[k] == x);
                }
                if x == last {
                    assert(c1[c0.len() as int] == x);
                }
            }
        }
        assert forall|x: NoteId| f1.contains(x) <==> (f0.contains(x) || (x == last && !pinned.contains(x))) by {
            if !pinned.contains(last) {
                assert(f1 == f0.push(last));
                if f1.contains(x) && x != last {
                    let k = choose|k: int| 0 <= k < f1.len() && f1[k] == x;
                    assert(f0[k] == x);
                }
                if f0.contains(x) {
                    let k = choose|k: int| 0 <= k < f0.len() && f0[k] == x;
                    assert(f1[k] == x);
                }
                if x == last {
                    assert(f1[f0.len() as int] == x);
                }
            }
        }
        assert forall|x: NoteId| linked.contains(x) <==> (init.contains(x) || x == last) by {
            if linked.contains(x) && x != last {
                let k = choose|k: int| 0 <= k < linked.len() && linked[k] == x;
                assert(init[k] == x);
            }
            if init.contains(x) {
                let k = choose|k: int| 0 <= k < init.len() && init[k] == x;
                assert(linked[k] == x);
            }
            if x == last {
                assert(linked[linked.len() - 1] == x);
            }
        }
    }
}

/// What one frame of map keys asks for.
#[derive(Debug, Clone, Copy, PartialEq, Eq, Structural)]
pub struct MapKeyOutcome {
    /// Enter on a listed focused node: open that card.
    pub open: Option<NoteId>,
    /// Ctrl+D on a listed focused node with a desk to go to: open the
    /// desk picker for it.
    pub picker_for: Option<NoteId>,
    /// Shift+F10 on a focused node that is still on the map: arm its
    /// context menu.
    pub arm_menu: bool,
}

/// One frame of map keys (the drawer's bindings) over `ids`, the nodes
/// newest-modified first; `present` are the notes drawn this frame. While
/// an overlay is up (`blocked`) the keys do nothing. Otherwise the arrows
/// move the focus linearly without wrapping, and Enter, Ctrl+D and
/// Shift+F10 act on the focused node.
pub fn map_keys(
    ids: &[NoteId],
    present: &[NoteId],
    focus: &mut Option<NoteId>,
    blocked: bool,
    prev: bool,
    next: bool,
    enter: bool,
    ctrl_d: bool,
    shift_f10: bool,
    has_desks: bool,
) -> (out: MapKeyOutcome)
    ensures
        blocked ==> *final(focus) == *old(focus) && out == (MapKeyOutcome {
            open: None,
            picker_for: None,
            arm_menu: false,
        }),
        !blocked ==> ({
            let f = if ids@.len() > 0 && (prev || next) {
                linear_focus(ids@, *old(focus), prev, next)
            } else {
                *old(focus)
            };
            let listed = f is Some && ids@.contains(f->0);
            &&& *final(focus) == f
            &&& out.open == (if enter && listed { f } else { None })
            &&& out.picker_for == (if ctrl_d && listed && has_desks { f } else { None })
            &&& out.arm_menu == (shift_f10 && f is Some && present@.contains(f->0))
        }),
{
    if blocked {
        return MapKeyOutcome { open: None, picker_for: None, arm_menu: false };
    }
    if ids.len() > 0 && (prev || next) {
        *focus = move_linear_focus(ids, *focus, prev, next);
    }
    let (listed, shown) = match *focus {
        Some(id) => (contains_id(ids, id), contains_id(present, id)),
        None => (false, false),
    };
    MapKeyOutcome {
        open: if enter && listed { *focus } else { None },
        picker_for: if ctrl_d && listed && has_desks { *focus } else { None },
        arm_menu: shift_f10 && shown,
    }
}

} // verus!
