//! The Ctrl+K palette's results: title matches, body hits and the
//! always-last "New scrap" row, plus its selection movement.
use crate::ids::contains_id;
use crate::note::{DeskId, Kind, NoteId, Status};
use crate::ops::{Dest, NewNote, VaultOp};
use crate::sort::{sort_by_key, sorted_by_key, SortKey};
use crate::state::{request_step, BodyCache, BodyCacheModel};
use crate::text::{all_ws, chars_of, extend_str, leading_ws, lemma_all_ws_iff, string_from_chars, trim, trim_str};
use vstd::prelude::*;

verus! {

/// Per-stratum result cap.
pub const STRATUM_CAP: usize = 8;

/// How well a query matched a title: a lower tier is a better kind of
/// match; within a tier a higher score is better.
#[derive(Clone, Copy, Debug, PartialEq, Eq, Structural)]
pub struct FuzzyScore {
    pub tier: u32,
    pub score: i64,
}

/// A body search snippet: the excerpt and the byte ranges to highlight.
#[derive(Clone, Debug)]
pub struct Snippet {
    pub text: String,
    pub highlights: Vec<(usize, usize)>,
}

/// One palette result row. Strata order is always Title* < Body* < NewScrap.
#[derive(Clone, Debug)]
pub enum PaletteRow {
    /// Stratum 1: fuzzy title match.
    Title { id: NoteId, score: FuzzyScore },
    /// Stratum 2: body search hit (deduped against stratum 1). The snippet is
    /// blank while the body is still loading.
    Body { id: NoteId, snippet: Snippet },
    /// Stratum 3: always-last "New scrap: '<query>'" (query nonempty).
    NewScrap,
}

/// What a row shows, apart from a body row's snippet: its stratum, its
/// note, and a title row's score.
pub enum RowModel {
    Title(NoteId, FuzzyScore),
    Body(NoteId),
    NewScrap,
}

/// What row `r` shows.
pub open spec fn row_model(r: PaletteRow) -> RowModel {
    match r {
        PaletteRow::Title { id, score } => RowModel::Title(id, score),
        PaletteRow::Body { id, .. } => RowModel::Body(id),
        PaletteRow::NewScrap => RowModel::NewScrap,
    }
}

/// A title that matched the query, with the note's modification time.
#[derive(Clone, Copy, Debug, PartialEq, Eq, Structural)]
pub struct TitleMatch {
    pub id: NoteId,
    pub score: FuzzyScore,
    pub modified: i64,
}

/// Stratum-1 order: lower tier first, then higher score, then newer, then id.
pub open spec fn title_key(m: TitleMatch) -> SortKey {
    SortKey {
        first: m.score.tier as i128,
        second: (-m.score.score) as i128,
        third: (-m.modified) as i128,
        id: m.id.0,
    }
}

/// A body search hit and the snippet to show once its body is loaded.
#[derive(Clone, Debug)]
pub struct BodyHit {
    pub id: NoteId,
    pub snippet: Snippet,
}

/// Cache state and body reads after `get_or_request` on each id in turn.
pub open spec fn request_all(m: BodyCacheModel, ids: Seq<NoteId>) -> (BodyCacheModel, Seq<NoteId>)
    decreases ids.len(),
{
    if ids.len() == 0 {
        (m, Seq::empty())
    } else {
        let (m1, reqs) = request_all(m, ids.drop_last());
        let (m2, asked) = request_step(m1, ids.last());
        (m2, if asked {
            reqs.push(ids.last())
        } else {
            reqs
        })
    }
}

/// `rows` are the title rows for the matches `titled`: the matches ranked
/// by `title_key`, at most `STRATUM_CAP` of them, each with its score.
pub open spec fn is_title_stratum(
    rows: Seq<RowModel>,
    titled: Seq<TitleMatch>,
) -> bool {
    exists|s: Seq<(SortKey, TitleMatch)>|
        {
            &&& s.to_multiset() == titled.map_values(|m: TitleMatch| (title_key(m), m)).to_multiset()
            &&& sorted_by_key(s)
            &&& rows == s.take(if s.len() < STRATUM_CAP { s.len() as int } else { STRATUM_CAP as int }).map_values(
                |p: (SortKey, TitleMatch)| RowModel::Title(p.1.id, p.1.score),
            )
        }
}

impl PaletteRow {
    /// The row's note id (NewScrap carries none).
    pub fn note_id(&self) -> (r: Option<NoteId>)
        ensures
            r == match row_model(*self) {
                RowModel::Title(id, _) => Some(id),
                RowModel::Body(id) => Some(id),
                RowModel::NewScrap => None::<NoteId>,
            },
    {
        match self {
            PaletteRow::Title { id, .. } => Some(*id),
            PaletteRow::Body { id, .. } => Some(*id),
            PaletteRow::NewScrap => None,
        }
    }
}

/// The note of a title or body row.
pub open spec fn row_note(r: PaletteRow) -> NoteId {
    match r {
        PaletteRow::Title { id, .. } => id,
        PaletteRow::Body { id, .. } => id,
        PaletteRow::NewScrap => NoteId(0),
    }
}

/// Number of title rows for `titled`: all of them, up to the cap.
pub open spec fn title_count(titled: Seq<TitleMatch>) -> int {
    if titled.len() < STRATUM_CAP {
        titled.len() as int
    } else {
        STRATUM_CAP as int
    }
}

/// The body hits whose note is not already a title row, in hit order.
pub open spec fn survivor_hits(hits: Seq<BodyHit>, stratum1: Seq<NoteId>) -> Seq<BodyHit>
    decreases hits.len(),
{
    if hits.len() == 0 {
        Seq::empty()
    } else {
        let before = survivor_hits(hits.drop_last(), stratum1);
        if stratum1.contains(hits.last().id) {
            before
        } else {
            before.push(hits.last())
        }
    }
}

/// `r` is the body row for hit `h`: the hit's snippet once the body is
/// loaded (in `m`), a blank one while it loads.
pub open spec fn is_body_row(r: PaletteRow, h: BodyHit, m: BodyCacheModel) -> bool {
    &&& r is Body
    &&& r->Body_id == h.id
    &&& m.bodies.contains_key(h.id.0) ==> r->Body_snippet.text@ == h.snippet.text@
        && r->Body_snippet.highlights@ == h.snippet.highlights@
    &&& !m.bodies.contains_key(h.id.0) ==> r->Body_snippet.text@.len() == 0
        && r->Body_snippet.highlights@.len() == 0
}

/// Asking for bodies never changes which bodies are loaded.
pub proof fn lemma_request_all_keeps_bodies(m: BodyCacheModel, ids: Seq<NoteId>)
    ensures
        request_all(m, ids).0.bodies == m.bodies,
    decreases ids.len(),
{
    if ids.len() > 0 {
        lemma_request_all_keeps_bodies(m, ids.drop_last());
    }
}

/// No note occurs twice in `ids`.
pub open spec fn distinct_notes(ids: Seq<NoteId>) -> bool {
    forall|i: int, j: int| 0 <= i < j < ids.len() ==> ids[i] != ids[j]
}

/// The surviving body hits are at most the hits, none is a title note, and
/// they repeat no note when the hits repeat none.
proof fn lemma_survivors(hits: Seq<BodyHit>, stratum1: Seq<NoteId>)
    ensures
        survivor_hits(hits, stratum1).len() <= hits.len(),
        forall|i: int|
            0 <= i < survivor_hits(hits, stratum1).len() ==> !stratum1.contains(
                #[trigger] survivor_hits(hits, stratum1)[i].id,
            ) && hits.map_values(|h: BodyHit| h.id).contains(survivor_hits(hits, stratum1)[i].id),
        distinct_notes(hits.map_values(|h: BodyHit| h.id)) ==> distinct_notes(
            survivor_hits(hits, stratum1).map_values(|h: BodyHit| h.id),
        ),
    decreases hits.len(),
{
    if hits.len() > 0 {
        let init = hits.drop_last();
        lemma_survivors(init, stratum1);
        let ids = hits.map_values(|h: BodyHit| h.id);
        let iids = init.map_values(|h: BodyHit| h.id);
        assert(iids =~= ids.drop_last());
        let sv0 = survivor_hits(init, stratum1);
        let sv = survivor_hits(hits, stratum1);
        assert forall|i: int| 0 <= i < sv.len() implies !stratum1.contains(#[trigger] sv[i].id)
            && ids.contains(sv[i].id) by {
            if i < sv0.len() {
                let k = choose|k: int| 0 <= k < iids.len() && iids[k] == sv0[i].id;
                assert(ids[k] == iids[k]);
            } else {
                assert(ids[ids.len() - 1] == hits.last().id);
            }
        }
        if distinct_notes(ids) {
            assert(distinct_notes(iids));
            let svi = sv.map_values(|h: BodyHit| h.id);
            let sv0i = sv0.map_values(|h: BodyHit| h.id);
            if sv.len() > sv0.len() {
                assert forall|i: int, j: int| 0 <= i < j < svi.len() implies svi[i] != svi[j] by {
                    if j == svi.len() - 1 {
                        assert(sv[j] == hits.last());
                        let k = choose|k: int| 0 <= k < iids.len() && iids[k] == sv0[i].id;
                        assert(ids[k] == iids[k]);
                        assert(ids[ids.len() - 1] == hits.last().id);
                    } else {
                        assert(svi[i] == sv0i[i] && svi[j] == sv0i[j]);
                    }
                }
            } else {
                assert(svi =~= sv0i);
            }
        }
    }
}

/// Sorting matches that repeat no note gives an order that repeats none.
proof fn lemma_sorted_notes_distinct(titled: Seq<TitleMatch>, s: Seq<(SortKey, TitleMatch)>)
    requires
        s.to_multiset() == titled.map_values(|m: TitleMatch| (title_key(m), m)).to_multiset(),
        distinct_notes(titled.map_values(|m: TitleMatch| m.id)),
    ensures
        forall|i: int, j: int| 0 <= i < j < s.len() ==> s[i].1.id != s[j].1.id,
{
    let tm = titled.map_values(|m: TitleMatch| (title_key(m), m));
    let ids = titled.map_values(|m: TitleMatch| m.id);
    assert(tm.no_duplicates()) by {
        assert forall|i: int, j: int| 0 <= i < tm.len() && 0 <= j < tm.len() && i != j implies tm[i] != tm[j] by {
            if i < j {
                assert(ids[i] != ids[j]);
            } else {
                assert(ids[j] != ids[i]);
            }
        }
    }
    tm.lemma_multiset_has_no_duplicates();
    s.lemma_multiset_has_no_duplicates_conv();
    assert forall|i: int, j: int| 0 <= i < j < s.len() implies s[i].1.id != s[j].1.id by {
        vstd::seq_lib::to_multiset_contains(s, s[i]);
        vstd::seq_lib::to_multiset_contains(s, s[j]);
        vstd::seq_lib::to_multiset_contains(tm, s[i]);
        vstd::seq_lib::to_multiset_contains(tm, s[j]);
        assert(s.contains(s[i]));
        assert(s.contains(s[j]));
        assert(tm.contains(s[i]));
        assert(tm.contains(s[j]));
        let a = choose|a: int| 0 <= a < tm.len() && tm[a] == s[i];
        let b = choose|b: int| 0 <= b < tm.len() && tm[b] == s[j];
        if s[i].1.id == s[j].1.id {
            if a < b {
                assert(ids[a] != ids[b]);
            } else if b < a {
                assert(ids[b] != ids[a]);
            }
            assert(s[i] == s[j]);
        }
    }
}

fn clone_snippet(s: &Snippet) -> (r: Snippet)
    ensures
        r.text@ == s.text@,
        r.highlights@ == s.highlights@,
{
    let mut h: Vec<(usize, usize)> = Vec::new();
    let mut i: usize = 0;
    while i < s.highlights.len()
        invariant
            i <= s.highlights@.len(),
            h@ == s.highlights@.take(i as int),
        decreases s.highlights@.len() - i,
    {
        h.push(s.highlights[i]);
        i = i + 1;
        assert(h@ =~= s.highlights@.take(i as int));
    }
    assert(s.highlights@.take(s.highlights@.len() as int) =~= s.highlights@);
    Snippet { text: s.text.clone(), highlights: h }
}

/// The body hits the palette considers: the search's first `STRATUM_CAP`.
pub open spec fn capped_hits(hits: Seq<BodyHit>) -> Seq<BodyHit> {
    hits.take(if hits.len() < STRATUM_CAP { hits.len() as int } else { STRATUM_CAP as int })
}

/// Compute the three strata for `query`:
/// - Stratum 1: the title matches, ranked by (tier, score desc) with
///   recency tiebreak (modified desc) and id last, capped at STRATUM_CAP.
/// - Stratum 2: the first STRATUM_CAP body hits (in search order) whose
///   note is not already a title row; each asks the body cache for its body (one read request
///   per missing body) and shows its snippet once the body is loaded,
///   a blank one while it loads.
/// - Stratum 3: NewScrap, always last.
/// A blank query (empty or whitespace) yields no rows and asks for nothing.
pub fn compute_results(
    query: &str,
    titled: &[TitleMatch],
    body_hits: &[BodyHit],
    bodies: &mut BodyCache,
    requests: &mut Vec<NoteId>,
) -> (rows: Vec<PaletteRow>)
    ensures
        all_ws(query@) ==> rows@.len() == 0 && final(bodies)@ == old(bodies)@ && final(requests)@
            == old(requests)@,
        !all_ws(query@) ==> ({
            let t = title_count(titled@);
            let s1 = rows@.take(t).map_values(|r: PaletteRow| row_note(r));
            let sh = survivor_hits(capped_hits(body_hits@), s1);
            let asked = request_all(old(bodies)@, sh.map_values(|h: BodyHit| h.id));
            &&& rows@.len() == t + sh.len() + 1
            &&& is_title_stratum(rows@.take(t).map_values(|r: PaletteRow| row_model(r)), titled@)
            &&& forall|i: int| 0 <= i < sh.len() ==> is_body_row(#[trigger] rows@[t + i], sh[i], old(bodies)@)
            &&& rows@.last() is NewScrap
            &&& final(bodies)@ == asked.0
            &&& final(requests)@ == old(requests)@ + asked.1
            &&& sh.len() <= STRATUM_CAP
            &&& distinct_notes(titled@.map_values(|m: TitleMatch| m.id)) && distinct_notes(
                body_hits@.map_values(|h: BodyHit| h.id),
            ) ==> distinct_notes(rows@.drop_last().map_values(|r: PaletteRow| row_note(r)))
        }),
{
    let qv = chars_of(query);
    let blank = leading_ws(&qv, 0, qv.len());
    proof {
        assert(qv@.subrange(0, qv@.len() as int) =~= qv@);
        lemma_all_ws_iff(query@);
    }
    if blank == qv.len() {
        return Vec::new();
    }
    // Stratum 1.
    let mut items: Vec<(SortKey, TitleMatch)> = Vec::new();
    let mut i: usize = 0;
    while i < titled.len()
        invariant
            i <= titled@.len(),
            items@ == titled@.take(i as int).map_values(|m: TitleMatch| (title_key(m), m)),
        decreases titled@.len() - i,
    {
        let m = titled[i];
        items.push(
            (
                SortKey {
                    first: m.score.tier as i128,
                    second: -(m.score.score as i128),
                    third: -(m.modified as i128),
                    id: m.id.0,
                },
                m,
            ),
        );
        i = i + 1;
        proof {
            assert(items@ =~= titled@.take(i as int).map_values(|m: TitleMatch| (title_key(m), m)));
        }
    }
    proof {
        assert(titled@.take(titled@.len() as int) =~= titled@);
    }
    let sorted = sort_by_key(items);
    let t = if sorted.len() < STRATUM_CAP {
        sorted.len()
    } else {
        STRATUM_CAP
    };
    let mut rows: Vec<PaletteRow> = Vec::new();
    let mut s1: Vec<NoteId> = Vec::new();
    let mut k: usize = 0;
    while k < t
        invariant
            k <= t <= sorted@.len(),
            rows@.len() == k,
            s1@.len() == k,
            forall|j: int| 0 <= j < k ==> #[trigger] rows@[j] == (PaletteRow::Title { id: sorted@[j].1.id, score: sorted@[j].1.score }),
            forall|j: int| 0 <= j < k ==> #[trigger] s1@[j] == sorted@[j].1.id,
        decreases t - k,
    {
        let m = sorted[k].1;
        rows.push(PaletteRow::Title { id: m.id, score: m.score });
        s1.push(m.id);
        k = k + 1;
    }
    let ghost title_rows = rows@;
    proof {
        assert(rows@.map_values(|r: PaletteRow| row_model(r)) =~= sorted@.take(t as int).map_values(
            |p: (SortKey, TitleMatch)| RowModel::Title(p.1.id, p.1.score),
        ));
        assert(s1@ =~= rows@.map_values(|r: PaletteRow| row_note(r)));
    }
    // Stratum 2.
    let ghost m0 = bodies@;
    let ghost req0 = requests@;
    let mut h: usize = 0;
    let nh = if body_hits.len() < STRATUM_CAP {
        body_hits.len()
    } else {
        STRATUM_CAP
    };
    while h < nh
        invariant
            h <= nh <= body_hits@.len(),
            nh == (if body_hits@.len() < STRATUM_CAP { body_hits@.len() } else { STRATUM_CAP as nat }),
            t <= rows@.len(),
            rows@.take(t as int) == title_rows,
            s1@ == title_rows.map_values(|r: PaletteRow| row_note(r)),
            rows@.len() == t + survivor_hits(body_hits@.take(h as int), s1@).len(),
            forall|i: int|
                0 <= i < survivor_hits(body_hits@.take(h as int), s1@).len() ==> is_body_row(
                    #[trigger] rows@[t + i],
                    survivor_hits(body_hits@.take(h as int), s1@)[i],
                    m0,
                ),
            bodies@ == request_all(m0, survivor_hits(body_hits@.take(h as int), s1@).map_values(|x: BodyHit| x.id)).0,
            requests@ == req0 + request_all(m0, survivor_hits(body_hits@.take(h as int), s1@).map_values(|x: BodyHit| x.id)).1,
        decreases nh - h,
    {
        let hit = &body_hits[h];
        let ghost sv = survivor_hits(body_hits@.take(h as int), s1@);
        let ghost ids0 = sv.map_values(|x: BodyHit| x.id);
        proof {
            assert(body_hits@.take(h + 1).drop_last() =~= body_hits@.take(h as int));
            assert(body_hits@.take(h + 1).last() == *hit);
            lemma_request_all_keeps_bodies(m0, ids0);
        }
        if !contains_id(&s1, hit.id) {
            let ghost rows0 = rows@;
            let ghost reqs_before = requests@;
            let cached = bodies.get_or_request(hit.id, requests).is_some();
            let snippet = if cached {
                clone_snippet(&hit.snippet)
            } else {
                Snippet { text: String::new(), highlights: Vec::new() }
            };
            rows.push(PaletteRow::Body { id: hit.id, snippet });
            proof {
                let sv1 = sv.push(*hit);
                assert(survivor_hits(body_hits@.take(h + 1), s1@) == sv1);
                assert(sv1.map_values(|x: BodyHit| x.id) =~= ids0.push(hit.id));
                assert(ids0.push(hit.id).drop_last() =~= ids0);
                assert(rows@.take(t as int) =~= title_rows);
                assert forall|i: int| 0 <= i < sv1.len() implies is_body_row(#[trigger] rows@[t + i], sv1[i], m0) by {
                    if i < sv.len() {
                        assert(rows@[t + i] == rows0[t + i]);
                    }
                }
                if request_step(request_all(m0, ids0).0, hit.id).1 {
                    assert(requests@ =~= req0 + request_all(m0, ids0).1.push(hit.id));
                }
            }
        } else {
            proof {
                assert(survivor_hits(body_hits@.take(h + 1), s1@) == sv);
            }
        }
        h = h + 1;
    }
    proof {
        assert(body_hits@.take(nh as int) =~= capped_hits(body_hits@));
    }
    rows.push(PaletteRow::NewScrap);
    proof {
        assert(rows@.take(t as int) =~= title_rows);
        assert(t == title_count(titled@));
        assert(titled@.map_values(|m: TitleMatch| (title_key(m), m)) =~= titled@.take(titled@.len() as int).map_values(|m: TitleMatch| (title_key(m), m)));
        let ch = capped_hits(body_hits@);
        let sh = survivor_hits(ch, s1@);
        lemma_survivors(ch, s1@);
        if distinct_notes(titled@.map_values(|m: TitleMatch| m.id)) && distinct_notes(
            body_hits@.map_values(|h: BodyHit| h.id),
        ) {
            let all = body_hits@.map_values(|h: BodyHit| h.id);
            let chi = ch.map_values(|h: BodyHit| h.id);
            assert forall|i: int, j: int| 0 <= i < j < chi.len() implies chi[i] != chi[j] by {
                assert(chi[i] == all[i] && chi[j] == all[j]);
            }
            assert(distinct_notes(chi));
            lemma_sorted_notes_distinct(titled@, sorted@);
            let notes = rows@.drop_last().map_values(|r: PaletteRow| row_note(r));
            let shi = sh.map_values(|h: BodyHit| h.id);
            assert forall|i: int| 0 <= i < t implies #[trigger] notes[i] == sorted@[i].1.id by {
                assert(rows@[i] == title_rows[i]);
            }
            assert forall|i: int| t <= i < notes.len() implies #[trigger] notes[i] == shi[i - t] by {
                assert(is_body_row(rows@[t + (i - t)], sh[i - t], m0));
            }
            assert forall|i: int, j: int| 0 <= i < j < notes.len() implies notes[i] != notes[j] by {
                if j < t {
                } else if i >= t {
                    assert(shi[i - t] != shi[j - t]);
                } else {
                    assert(s1@[i] == title_rows[i]->Title_id);
                    assert(s1@.contains(notes[i]));
                    assert(!s1@.contains(sh[j - t].id));
                }
            }
        }
    }
    rows
}

/// What the palette asks the app to do this frame.
#[derive(Clone, Debug)]
pub enum PaletteEvent {
    /// Esc: close the palette, nothing else.
    Close,
    /// Enter / Ctrl+Enter on the selected row; `open_after` = Ctrl held.
    Activate { row: PaletteRow, open_after: bool },
}

/// `a` and `b` show the same row: same stratum and note, same score or
/// snippet.
pub open spec fn same_row(a: PaletteRow, b: PaletteRow) -> bool {
    match (a, b) {
        (PaletteRow::Title { id: i, score: s }, PaletteRow::Title { id: j, score: t }) => i == j && s
            == t,
        (PaletteRow::Body { id: i, snippet: s }, PaletteRow::Body { id: j, snippet: t }) => i == j
            && s.text@ == t.text@ && s.highlights@ == t.highlights@,
        (PaletteRow::NewScrap, PaletteRow::NewScrap) => true,
        _ => false,
    }
}

/// A copy of `r`.
pub fn clone_row(r: &PaletteRow) -> (c: PaletteRow)
    ensures
        same_row(c, *r),
{
    match r {
        PaletteRow::Title { id, score } => PaletteRow::Title { id: *id, score: *score },
        PaletteRow::Body { id, snippet } => PaletteRow::Body { id: *id, snippet: clone_snippet(snippet) },
        PaletteRow::NewScrap => PaletteRow::NewScrap,
    }
}

/// The note ids of the title and body rows, in order.
pub open spec fn row_ids(rows: Seq<PaletteRow>) -> Seq<NoteId>
    decreases rows.len(),
{
    if rows.len() == 0 {
        Seq::empty()
    } else {
        let before = row_ids(rows.drop_last());
        match rows.last() {
            PaletteRow::Title { id, .. } => before.push(id),
            PaletteRow::Body { id, .. } => before.push(id),
            PaletteRow::NewScrap => before,
        }
    }
}

/// A body row whose snippet is still blank (its body is loading).
pub open spec fn is_pending(r: PaletteRow) -> bool {
    r is Body && r->Body_snippet.text@.len() == 0
}

/// The palette's own state: the query, the selected row and the rows last
/// computed (for the query they were computed for).
pub struct PaletteState {
    pub query: String,
    pub selected: usize,
    pub results: Vec<PaletteRow>,
    /// The query `results` were computed for.
    pub last_query: Option<String>,
    /// One-shot: the input grabs keyboard focus on the first frame.
    pub wants_focus: bool,
}

impl PaletteState {
    /// The query the current results were computed for.
    pub open spec fn computed_for(&self) -> Option<Seq<char>> {
        match self.last_query {
            Some(q) => Some(q@),
            None => None,
        }
    }

    /// The query input still has to grab keyboard focus.
    pub open spec fn focus_pending(&self) -> bool {
        self.wants_focus
    }

    /// An empty palette whose input grabs focus on its first frame.
    pub fn new() -> (p: PaletteState)
        ensures
            p.query@.len() == 0,
            p.selected == 0,
            p.results@.len() == 0,
            p.computed_for() is None,
            p.focus_pending(),
    {
        PaletteState {
            query: String::new(),
            selected: 0,
            results: Vec::new(),
            last_query: None,
            wants_focus: true,
        }
    }

    /// Ids of the current result rows (NewScrap carries none).
    pub fn result_ids(&self) -> (ids: Vec<NoteId>)
        ensures
            ids@ == row_ids(self.results@),
    {
        let mut ids: Vec<NoteId> = Vec::new();
        let mut i: usize = 0;
        while i < self.results.len()
            invariant
                i <= self.results@.len(),
                ids@ == row_ids(self.results@.take(i as int)),
            decreases self.results@.len() - i,
        {
            proof {
                assert(self.results@.take(i + 1).drop_last() =~= self.results@.take(i as int));
            }
            match &self.results[i] {
                PaletteRow::Title { id, .. } => ids.push(*id),
                PaletteRow::Body { id, .. } => ids.push(*id),
                PaletteRow::NewScrap => {},
            }
            i = i + 1;
        }
        proof {
            assert(self.results@.take(self.results@.len() as int) =~= self.results@);
        }
        ids
    }

    /// Results are recomputed only when the query changed since they were
    /// computed, or a body row's snippet is still pending.
    pub fn needs_recompute(&self) -> (r: bool)
        ensures
            r == (self.computed_for() != Some(self.query@) || exists|i: int|
                0 <= i < self.results@.len() && is_pending(#[trigger] self.results@[i])),
    {
        let changed = match &self.last_query {
            Some(q) => !(*q == self.query),
            None => true,
        };
        if changed {
            return true;
        }
        let mut i: usize = 0;
        while i < self.results.len()
            invariant
                i <= self.results@.len(),
                forall|j: int| 0 <= j < i ==> !is_pending(#[trigger] self.results@[j]),
            decreases self.results@.len() - i,
        {
            if let PaletteRow::Body { snippet, .. } = &self.results[i] {
                if snippet.text.as_str().is_empty() {
                    return true;
                }
            }
            i = i + 1;
        }
        false
    }

    /// Keep freshly computed `results` for the current query; the
    /// selection goes back to the top when the query changed.
    pub fn store_results(&mut self, results: Vec<PaletteRow>)
        ensures
            final(self).results@ == results@,
            final(self).query@ == old(self).query@,
            final(self).computed_for() == Some(old(self).query@),
            final(self).selected == (if old(self).computed_for() == Some(old(self).query@) {
                old(self).selected
            } else {
                0
            }),
            final(self).focus_pending() == old(self).focus_pending(),
    {
        let changed = match &self.last_query {
            Some(q) => !(*q == self.query),
            None => true,
        };
        self.results = results;
        self.last_query = Some(self.query.clone());
        if changed {
            self.selected = 0;
        }
    }

    /// Arrow-key movement, then clamp to the rows there are.
    pub fn move_selection(&mut self, down: bool, up: bool)
        ensures
            final(self).results == old(self).results,
            final(self).query == old(self).query,
            final(self).computed_for() == old(self).computed_for(),
            final(self).focus_pending() == old(self).focus_pending(),
            old(self).results@.len() == 0 ==> final(self).selected == 0,
            old(self).results@.len() > 0 ==> final(self).selected == clamp_selection(
                old(self).selected as int,
                old(self).results@.len() as int,
                down,
                up,
            ),
            old(self).selected < old(self).results@.len() && up && !down ==> final(self).selected == (
            if old(self).selected > 0 {
                old(self).selected - 1
            } else {
                0
            }),
            old(self).selected + 1 < old(self).results@.len() && down && !up ==> final(self).selected
                == old(self).selected + 1,
    {
        let n = self.results.len();
        if n > 0 {
            if down {
                self.selected = if self.selected < n - 1 { self.selected + 1 } else { n - 1 };
            }
            if up {
                self.selected = if self.selected > 0 { self.selected - 1 } else { 0 };
            }
            if self.selected > n - 1 {
                self.selected = n - 1;
            }
        } else {
            self.selected = 0;
        }
    }

    /// Whether the input should grab focus now; it does so once.
    pub fn take_focus_request(&mut self) -> (r: bool)
        ensures
            r == old(self).focus_pending(),
            !final(self).focus_pending(),
            final(self).results == old(self).results,
            final(self).query == old(self).query,
            final(self).selected == old(self).selected,
            final(self).computed_for() == old(self).computed_for(),
    {
        let r = self.wants_focus;
        self.wants_focus = false;
        r
    }

    /// The event for this frame's keys: Esc closes (and wins over Enter);
    /// Enter or Ctrl+Enter activates the selected row, if there is one.
    pub fn key_event(&self, close: bool, enter: bool, enter_open: bool) -> (e: Option<PaletteEvent>)
        ensures
            close ==> e matches Some(PaletteEvent::Close),
            !close && (enter || enter_open) && self.selected < self.results@.len() ==> (e matches Some(
                PaletteEvent::Activate { row, open_after },
            ) && same_row(row, self.results@[self.selected as int]) && open_after == enter_open),
            !close && (!(enter || enter_open) || self.selected >= self.results@.len()) ==> e is None,
    {
        if close {
            Some(PaletteEvent::Close)
        } else if (enter || enter_open) && self.selected < self.results.len() {
            Some(PaletteEvent::Activate { row: clone_row(&self.results[self.selected]), open_after: enter_open })
        } else {
            None
        }
    }
}

/// Where the selection lands: one down (not past the last row), then one
/// up (not past the first), then clamped to the last row.
pub open spec fn clamp_selection(sel: int, n: int, down: bool, up: bool) -> int {
    let a = if down { if sel < n - 1 { sel + 1 } else { n - 1 } } else { sel };
    let b = if up { if a > 0 { a - 1 } else { 0 } } else { a };
    if b > n - 1 { n - 1 } else { b }
}

impl Default for PaletteState {
    fn default() -> (p: PaletteState)
        ensures
            p.query@.len() == 0,
            p.selected == 0,
            p.results@.len() == 0,
            p.computed_for() is None,
            p.focus_pending(),
    {
        PaletteState::new()
    }
}

/// What activating a palette row asks the app to do.
#[derive(Debug)]
pub enum Activation {
    /// Nothing: there is no desk to act on, or the new scrap would be blank.
    Nothing,
    /// Bring note `id` to `desk` (see `session::bring_note_to_desk`): pan
    /// to it when it is already there, else place it at the desk's
    /// viewport centre. `switch`: the palette was
    /// opened away from a desk, so the app navigates to `desk` first.
    /// `open_editor`: Ctrl was held.
    Note { id: NoteId, desk: DeskId, switch: bool, open_editor: bool },
    /// Create this scrap (then place it and open its editor).
    NewScrap(VaultOp),
}

/// Activating `row` with the palette's `query`, from the desk
/// `current_desk` (`None` on another surface) when `first_desk` is the
/// first desk: a note row acts on the current desk, else on the first desk
/// (navigating there); a new-scrap row creates a fleeting note in the inbox
/// whose body is the trimmed query, unless that is empty.
pub fn palette_activation(
    row: &PaletteRow,
    open_after: bool,
    query: &str,
    current_desk: Option<DeskId>,
    first_desk: Option<DeskId>,
) -> (a: Activation)
    ensures
        !(row is NewScrap) ==> ({
            let id = row_note(*row);
            &&& current_desk is Some ==> (a matches Activation::Note { id: i, desk, switch, open_editor }
                && i == id && desk == current_desk->0 && !switch && open_editor == open_after)
            &&& (current_desk is None && first_desk is Some) ==> (a matches Activation::Note { id: i, desk, switch, open_editor }
                && i == id && desk == first_desk->0 && switch && open_editor == open_after)
            &&& current_desk is None && first_desk is None ==> a is Nothing
        }),
        row is NewScrap ==> (trim(query@).len() == 0 ==> a is Nothing) && (trim(query@).len() > 0 ==> (
            a matches Activation::NewScrap(VaultOp::Create { seed, dest })
            && seed.body@ == trim(query@) && seed.status == Status::Fleeting && seed.kind == Kind::Note
            && seed.source is None && seed.tags@.len() == 0 && dest == Dest::Inbox)),
{
    match row {
        PaletteRow::Title { id, .. } | PaletteRow::Body { id, .. } => {
            let (desk, switch) = match current_desk {
                Some(d) => (Some(d), false),
                None => (first_desk, true),
            };
            match desk {
                Some(d) => Activation::Note { id: *id, desk: d, switch, open_editor: open_after },
                None => Activation::Nothing,
            }
        },
        PaletteRow::NewScrap => {
            let body = trim_str(query);
            if body.as_str().is_empty() {
                return Activation::Nothing;
            }
            let seed = NewNote {
                body,
                status: Status::Fleeting,
                kind: Kind::Note,
                source: None,
                tags: Vec::new(),
            };
            Activation::NewScrap(VaultOp::Create { seed, dest: Dest::Inbox })
        },
    }
}

/// Arrow keys never move the selection off the rows: wherever it was, it
/// ends on a row.
pub proof fn lemma_selection_stays_on_a_row(sel: int, n: int, down: bool, up: bool)
    requires
        sel >= 0,
        n > 0,
    ensures
        0 <= clamp_selection(sel, n, down, up) < n,
{
}

/// Each arrow moves the selection by exactly one row: Up alone goes to the
/// row above (staying on the first row), Down alone to the row below
/// (staying on the last), and with no arrow it stays.
pub proof fn lemma_arrows_move_one_row(sel: int, n: int, down: bool, up: bool)
    requires
        0 <= sel < n,
    ensures
        up && !down ==> clamp_selection(sel, n, down, up) == (if sel > 0 { sel - 1 } else { 0 }),
        down && !up ==> clamp_selection(sel, n, down, up) == (if sel + 1 < n { sel + 1 } else { sel }),
        !down && !up ==> clamp_selection(sel, n, down, up) == sel,
        down && up && sel + 1 < n ==> clamp_selection(sel, n, down, up) == sel,
{
}

/// Down then Up comes back to the same row, unless Down had nowhere to go.
pub proof fn lemma_down_then_up(sel: int, n: int)
    requires
        0 <= sel,
        sel + 1 < n,
    ensures
        clamp_selection(clamp_selection(sel, n, true, false), n, false, true) == sel,
{
    lemma_arrows_move_one_row(sel, n, true, false);
    lemma_arrows_move_one_row(sel + 1, n, false, true);
}

/// No body row repeats a note of the title rows: every surviving hit's note
/// is outside stratum 1, and every hit outside it survives.
pub proof fn lemma_body_rows_skip_title_notes(hits: Seq<BodyHit>, stratum1: Seq<NoteId>)
    ensures
        forall|i: int| 0 <= i < survivor_hits(hits, stratum1).len() ==> !stratum1.contains(
            (#[trigger] survivor_hits(hits, stratum1)[i]).id,
        ),
        forall|j: int| 0 <= j < hits.len() && !stratum1.contains(hits[j].id) ==> survivor_hits(hits, stratum1).contains(
            #[trigger] hits[j],
        ),
    decreases hits.len(),
{
    if hits.len() > 0 {
        let init = hits.drop_last();
        lemma_body_rows_skip_title_notes(init, stratum1);
        let before = survivor_hits(init, stratum1);
        let now = survivor_hits(hits, stratum1);
        if !stratum1.contains(hits.last().id) {
            assert(now == before.push(hits.last()));
            assert forall|i: int| 0 <= i < now.len() implies !stratum1.contains((#[trigger] now[i]).id) by {
                if i < before.len() {
                    assert(now[i] == before[i]);
                }
            }
            assert forall|j: int| 0 <= j < hits.len() && !stratum1.contains(hits[j].id) implies now.contains(
                #[trigger] hits[j],
            ) by {
                if j < hits.len() - 1 {
                    assert(hits[j] == init[j]);
                    assert(before.contains(init[j]));
                    let k = choose|k: int| 0 <= k < before.len() && before[k] == init[j];
                    assert(now[k] == before[k]);
                } else {
                    assert(now[before.len() as int] == hits[j]);
                }
            }
        } else {
            assert(now == before);
            assert forall|j: int| 0 <= j < hits.len() && !stratum1.contains(hits[j].id) implies now.contains(
                #[trigger] hits[j],
            ) by {
                assert(j < hits.len() - 1);
                assert(hits[j] == init[j]);
                assert(before.contains(init[j]));
            }
        }
    }
}

/// What the index holds of a row's note, as far as a row shows it.
pub struct RowMeta {
    pub title: Option<String>,
    pub first_line: String,
    pub tags: Vec<String>,
    pub status: Status,
    pub kind: Kind,
}

/// What one result row shows: its accessible label, heading, optional
/// snippet line, up to two tags, and the face it is drawn with.
pub struct RowView {
    pub label: String,
    pub heading: String,
    pub detail: Option<String>,
    pub tags: Vec<String>,
    pub status: Status,
    pub kind: Kind,
}

/// A note row's heading: the note's title, else its first line; blank for
/// a note the index does not hold.
pub open spec fn note_heading(meta: Option<&RowMeta>) -> Seq<char> {
    match meta {
        Some(m) => match m.title {
            Some(t) => t@,
            None => m.first_line@,
        },
        None => Seq::empty(),
    }
}

/// A row's snippet line: a body hit's snippet unless it is blank.
pub open spec fn shown_detail(row: PaletteRow) -> Option<Seq<char>> {
    match row {
        PaletteRow::Body { snippet, .. } => if snippet.text@.len() > 0 { Some(snippet.text@) } else { None },
        _ => None,
    }
}

/// How many tags a note row shows.
pub open spec fn shown_tags(meta: Option<&RowMeta>) -> int {
    match meta {
        Some(m) => if m.tags@.len() < 2 { m.tags@.len() as int } else { 2 },
        None => 0,
    }
}

/// The display snapshot of `row` for `query`; `meta` is what the index
/// holds of the row's note (`None` when it holds nothing). A note row is
/// labelled `Result: '<heading>'`, shows the note's first two tags as
/// `#tag` and, for a body hit, its snippet unless blank; a note the index
/// lacks shows as a scrap. The new-scrap row reads `New scrap: '<query>'`
/// with the query trimmed.
pub fn row_view(row: &PaletteRow, meta: Option<&RowMeta>, query: &str) -> (v: RowView)
    ensures
        row is NewScrap ==> {
            &&& v.heading@ == "New scrap: '"@ + trim(query@) + "'"@
            &&& v.label@ == v.heading@
            &&& v.detail is None
            &&& v.tags@.len() == 0
            &&& v.status == Status::Fleeting
            &&& v.kind == Kind::Note
        },
        !(row is NewScrap) ==> {
            &&& v.heading@ == note_heading(meta)
            &&& v.label@ == "Result: '"@ + note_heading(meta) + "'"@
            &&& v.tags@.len() == shown_tags(meta)
            &&& forall|i: int|
                0 <= i < v.tags@.len() ==> #[trigger] v.tags@[i]@ == "#"@ + meta->0.tags@[i]@
            &&& (v.detail is Some <==> shown_detail(*row) is Some)
            &&& v.detail is Some ==> v.detail->0@ == shown_detail(*row)->0
            &&& v.status == (match meta { Some(m) => m.status, None => Status::Fleeting })
            &&& v.kind == (match meta { Some(m) => m.kind, None => Kind::Note })
        },
{
    match row {
        PaletteRow::NewScrap => {
            let mut h: Vec<char> = Vec::new();
            extend_str(&mut h, "New scrap: '");
            let t = trim_str(query);
            extend_str(&mut h, t.as_str());
            extend_str(&mut h, "'");
            RowView {
                label: string_from_chars(&h),
                heading: string_from_chars(&h),
                detail: None,
                tags: Vec::new(),
                status: Status::Fleeting,
                kind: Kind::Note,
            }
        },
        _ => {
            let mut h: Vec<char> = Vec::new();
            let mut tags: Vec<String> = Vec::new();
            let mut status = Status::Fleeting;
            let mut kind = Kind::Note;
            if let Some(m) = meta {
                match &m.title {
                    Some(t) => extend_str(&mut h, t.as_str()),
                    None => extend_str(&mut h, m.first_line.as_str()),
                }
                let mut i: usize = 0;
                while i < m.tags.len() && i < 2
                    invariant
                        i <= m.tags@.len(),
                        i <= 2,
                        tags@.len() == i,
                        forall|j: int| 0 <= j < i ==> #[trigger] tags@[j]@ == "#"@ + m.tags@[j]@,
                    decreases m.tags@.len() - i,
                {
                    let mut c: Vec<char> = Vec::new();
                    extend_str(&mut c, "#");
                    extend_str(&mut c, m.tags[i].as_str());
                    tags.push(string_from_chars(&c));
                    i = i + 1;
                }
                status = m.status;
                kind = m.kind;
            }
            proof {
                assert(h@ == note_heading(meta));
            }
            let mut l: Vec<char> = Vec::new();
            extend_str(&mut l, "Result: '");
            let hs = string_from_chars(&h);
            extend_str(&mut l, hs.as_str());
            extend_str(&mut l, "'");
            let detail = match row {
                PaletteRow::Body { snippet, .. } => {
                    let cs = chars_of(snippet.text.as_str());
                    if cs.len() > 0 {
                        Some(string_from_chars(&cs))
                    } else {
                        None
                    }
                },
                _ => None,
            };
            RowView { label: string_from_chars(&l), heading: hs, detail, tags, status, kind }
        },
    }
}

} // verus!
