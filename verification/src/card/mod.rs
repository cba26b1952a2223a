//! Card faces: the face-side rendering of task boxes and click-to-toggle.
pub mod shape;

use crate::text::{
    chars_of, extend_range, find_nl, last_line, last_nl, init_lines, leading_ws, lemma_last_nl,
    lemma_last_nl_is, lemma_line_step, lemma_ws_prefix, lemma_ws_prefix_is, is_ws, string_from_chars, trim_start, ws_prefix,
};
use crate::text::{
    hash_run, lemma_hash_run_is, lemma_nl_from_is, nl_from, string_from_range, trim, trim_str,
};
use vstd::prelude::*;

verus! {

// ---------------------------------------------------------------------------
// Line classification
// ---------------------------------------------------------------------------

/// `t` starts with a task-box marker `- [m] ` where `m` is ` `, `x` or `X`.
pub open spec fn starts_with_task_marker(t: Seq<char>) -> bool {
    &&& t.len() >= 6
    &&& t[0] == '-' && t[1] == ' ' && t[2] == '[' && t[4] == ']' && t[5] == ' '
    &&& t[3] == ' ' || t[3] == 'x' || t[3] == 'X'
}

/// A task line: after optional leading whitespace it starts with a task-box marker.
pub open spec fn is_task_line(line: Seq<char>) -> bool {
    starts_with_task_marker(trim_start(line))
}

/// A fence line: after optional leading whitespace it starts with three backticks.
pub open spec fn is_fence_line(line: Seq<char>) -> bool {
    let t = trim_start(line);
    t.len() >= 3 && t[0] == '`' && t[1] == '`' && t[2] == '`'
}

/// Whether a code fence is open after the last line of `s`: each fence line
/// toggles it, starting closed.
pub open spec fn fence_open(s: Seq<char>) -> bool
    decreases s.len(),
{
    let before = if last_nl(s) >= 0 {
        proof {
            lemma_last_nl(s);
        }
        fence_open(init_lines(s))
    } else {
        false
    };
    if is_fence_line(last_line(s)) {
        !before
    } else {
        before
    }
}

/// Whether a code fence is open when the last line of `s` begins.
pub open spec fn fence_before_last(s: Seq<char>) -> bool {
    last_nl(s) >= 0 && fence_open(init_lines(s))
}

/// The last line of `s` is a recognised task box: a task line outside any fence.
pub open spec fn last_line_is_box(s: Seq<char>) -> bool {
    !fence_before_last(s) && is_task_line(last_line(s))
}

/// Face glyph for a box whose raw mark is `m`: `□` when unchecked, `■` when checked.
pub open spec fn glyph_for(m: char) -> char {
    if m == ' ' {
        '□'
    } else {
        '■'
    }
}

/// The face form of one line: a recognised task line `indent- [m] rest`
/// becomes `indent- G rest` with `G = glyph_for(m)`; every other line is
/// copied unchanged.
pub open spec fn face_line(line: Seq<char>, fenced: bool) -> Seq<char> {
    if !fenced && is_task_line(line) {
        let w = ws_prefix(line) as int;
        line.take(w) + seq!['-', ' ', glyph_for(line[w + 3]), ' '] + line.skip(w + 6)
    } else {
        line
    }
}

/// Face text of `s`: every line in its face form, joined by `'\n'`.
pub open spec fn face_text(s: Seq<char>) -> Seq<char>
    decreases s.len(),
{
    if last_nl(s) < 0 {
        face_line(s, false)
    } else {
        proof {
            lemma_last_nl(s);
        }
        face_text(init_lines(s)) + seq!['\n'] + face_line(last_line(s), fence_open(init_lines(s)))
    }
}

/// Character offsets, within `face_text(s)`, of the glyph of every recognised box.
pub open spec fn glyph_offsets(s: Seq<char>) -> Seq<int>
    decreases s.len(),
{
    let (base, before) = if last_nl(s) >= 0 {
        proof {
            lemma_last_nl(s);
        }
        (face_text(init_lines(s)).len() + 1int, glyph_offsets(init_lines(s)))
    } else {
        (0int, Seq::<int>::empty())
    };
    if last_line_is_box(s) {
        before.push(base + ws_prefix(last_line(s)) + 2)
    } else {
        before
    }
}

/// Character offsets, within `s`, of the mark (` `, `x` or `X`) of every
/// recognised box, in order. A box's ordinal is its index here.
pub open spec fn task_marks(s: Seq<char>) -> Seq<int>
    decreases s.len(),
{
    let before = if last_nl(s) >= 0 {
        proof {
            lemma_last_nl(s);
        }
        task_marks(init_lines(s))
    } else {
        Seq::<int>::empty()
    };
    if last_line_is_box(s) {
        before.push(last_nl(s) + 1 + ws_prefix(last_line(s)) + 3)
    } else {
        before
    }
}

/// The mark a toggle writes over `m`: unchecked becomes `x`, checked becomes blank.
pub open spec fn flipped(m: char) -> char {
    if m == ' ' {
        'x'
    } else {
        ' '
    }
}

/// `s` with box number `ordinal` toggled; unchanged when there is no such box.
pub open spec fn toggled(s: Seq<char>, ordinal: int) -> Seq<char> {
    let marks = task_marks(s);
    if 0 <= ordinal < marks.len() {
        s.update(marks[ordinal], flipped(s[marks[ordinal]]))
    } else {
        s
    }
}

// ---------------------------------------------------------------------------
// Executable classification of one line
// ---------------------------------------------------------------------------

/// Classifies the line `v[ls..e]`: its indentation width, whether it is a
/// fence line and whether it is a task line.
fn classify_line(v: &Vec<char>, ls: usize, e: usize) -> (r: (usize, bool, bool))
    requires
        ls <= e <= v.len(),
    ensures
        r.0 == ws_prefix(v@.subrange(ls as int, e as int)),
        ls + r.0 <= e,
        r.1 == is_fence_line(v@.subrange(ls as int, e as int)),
        r.2 == is_task_line(v@.subrange(ls as int, e as int)),
{
    let w = leading_ws(v, ls, e);
    let t = ls + w;
    let fence = e - t >= 3 && v[t] == '`' && v[t + 1] == '`' && v[t + 2] == '`';
    let task = e - t >= 6 && v[t] == '-' && v[t + 1] == ' ' && v[t + 2] == '[' && (v[t + 3]
        == ' ' || v[t + 3] == 'x' || v[t + 3] == 'X') && v[t + 4] == ']' && v[t + 5] == ' ';
    proof {
        let line = v@.subrange(ls as int, e as int);
        let tr = trim_start(line);
        assert(tr.len() == e - t);
        assert forall|j: int| 0 <= j < tr.len() implies tr[j] == v@[t + j] by {}
    }
    (w, fence, task)
}

// ---------------------------------------------------------------------------
// Public functions
// ---------------------------------------------------------------------------

/// Appends the face form of the line `v[ls..e]` to `out`, recording the
/// glyph offset when the line is a recognised box. Returns whether the line
/// is a fence line.
fn push_face_line(
    out: &mut Vec<char>,
    offs: &mut Vec<usize>,
    v: &Vec<char>,
    ls: usize,
    e: usize,
    fenced: bool,
) -> (is_fence: bool)
    requires
        ls <= e <= v.len(),
        old(out).len() + (e - ls) <= usize::MAX,
    ensures
        is_fence == is_fence_line(v@.subrange(ls as int, e as int)),
        final(out)@ == old(out)@ + face_line(v@.subrange(ls as int, e as int), fenced),
        !fenced && is_task_line(v@.subrange(ls as int, e as int)) ==> final(offs)@ == old(
            offs,
        )@.push((old(out)@.len() + ws_prefix(v@.subrange(ls as int, e as int)) + 2) as usize),
        !(!fenced && is_task_line(v@.subrange(ls as int, e as int))) ==> final(offs)@ == old(
            offs,
        )@,
{
    let ghost line = v@.subrange(ls as int, e as int);
    let (w, is_fence, is_task) = classify_line(v, ls, e);
    if fenced || !is_task {
        extend_range(out, v, ls, e);
    } else {
        extend_range(out, v, ls, ls + w);
        out.push('-');
        out.push(' ');
        offs.push(out.len());
        let glyph = if v[ls + w + 3] == ' ' {
            '□'
        } else {
            '■'
        };
        out.push(glyph);
        out.push(' ');
        extend_range(out, v, ls + w + 6, e);
        proof {
            assert(line.take(w as int) =~= v@.subrange(ls as int, ls + w));
            assert(line.skip(w + 6) =~= v@.subrange(ls + w + 6, e as int));
            assert(line[w + 3] == v@[ls + w + 3]);
            assert(out@ =~= old(out)@ + face_line(line, fenced));
        }
    }
    is_fence
}

/// How the face text, glyph offsets and fence state of `q` extend those of
/// the text before its last line.
proof fn lemma_face_step(q: Seq<char>)
    requires
        last_nl(q) >= 0,
    ensures
        face_text(q) == face_text(init_lines(q)) + seq!['\n'] + face_line(
            last_line(q),
            fence_open(init_lines(q)),
        ),
        fence_open(q) == (if is_fence_line(last_line(q)) {
            !fence_open(init_lines(q))
        } else {
            fence_open(init_lines(q))
        }),
        glyph_offsets(q) == (if last_line_is_box(q) {
            glyph_offsets(init_lines(q)).push(
                face_text(init_lines(q)).len() + 1int + ws_prefix(last_line(q)) + 2,
            )
        } else {
            glyph_offsets(init_lines(q))
        }),
{
}

/// The single-line case.
proof fn lemma_face_first(q: Seq<char>)
    requires
        last_nl(q) < 0,
    ensures
        face_text(q) == face_line(q, false),
        fence_open(q) == is_fence_line(q),
        glyph_offsets(q) == (if is_task_line(q) {
            seq![ws_prefix(q) + 2int]
        } else {
            Seq::<int>::empty()
        }),
{
    lemma_last_nl(q);
    assert(last_line(q) =~= q);
    if is_task_line(q) {
        assert(Seq::<int>::empty().push(0int + ws_prefix(q) + 2) =~= seq![ws_prefix(q) + 2int]);
    }
}

/// A line's face form is never longer than the line; a box line's is two
/// characters shorter.
pub proof fn lemma_face_line_len(line: Seq<char>, fenced: bool)
    ensures
        face_line(line, fenced).len() <= line.len(),
        !fenced && is_task_line(line) ==> face_line(line, fenced).len() == line.len() - 2,
{
    lemma_ws_prefix(line);
    if !fenced && is_task_line(line) {
        assert(trim_start(line).len() == line.len() - ws_prefix(line));
    }
}

/// The face text is never longer than the body.
pub proof fn lemma_face_text_len(s: Seq<char>)
    ensures
        face_text(s).len() <= s.len(),
    decreases s.len(),
{
    lemma_last_nl(s);
    lemma_face_line_len(last_line(s), fence_before_last(s));
    if last_nl(s) >= 0 {
        lemma_face_text_len(init_lines(s));
    } else {
        assert(last_line(s) =~= s);
    }
}

/// Transform task box markers for face-side display only.
///
/// Replaces `"- [ ] "` with `"- □ "` and `"- [x] "` / `"- [X] "` with `"- ■ "`
/// in each line. Returns the transformed text and, for each task box, the
/// 0-based char offset of the `□`/`■` glyph within the returned string.
/// The raw source body is NOT modified.
///
/// Lines inside code fences (``` … ```) are skipped: a line whose
/// `trim_start()` starts with three backticks toggles the fence, and while
/// a fence is open no task recognition is performed.
pub fn face_body_with_checkbox_glyphs(raw: &str) -> (res: (String, Vec<usize>))
    ensures
        res.0@ == face_text(raw@),
        res.1@.len() == glyph_offsets(raw@).len(),
        forall|i: int| 0 <= i < res.1@.len() ==> res.1@[i] == glyph_offsets(raw@)[i],
{
    let v = chars_of(raw);
    let n = v.len();
    let mut out: Vec<char> = Vec::new();
    let mut offs: Vec<usize> = Vec::new();
    let mut fence = false;
    let mut ls: usize = 0;
    loop
        invariant
            v@ == raw@,
            n == v.len(),
            ls <= n,
            ls > 0 ==> v@[ls - 1] == '\n',
            ls == 0 ==> out@.len() == 0 && offs@.len() == 0 && !fence,
            ls > 0 ==> out@ == face_text(v@.take(ls - 1)),
            ls > 0 ==> fence == fence_open(v@.take(ls - 1)),
            ls > 0 ==> offs@.len() == glyph_offsets(v@.take(ls - 1)).len(),
            ls > 0 ==> forall|i: int|
                0 <= i < offs@.len() ==> offs@[i] == glyph_offsets(v@.take(ls - 1))[i],
            out@.len() <= ls,
        decreases n - ls,
    {
        let e = find_nl(&v, ls, n);
        let ghost q = v@.take(e as int);
        let ghost line = v@.subrange(ls as int, e as int);
        let ghost offs0 = offs@;
        let ghost fence0 = fence;
        proof {
            lemma_line_step(v@, ls as int, e as int);
            if ls > 0 {
                lemma_face_text_len(v@.take(ls - 1));
            }
        }
        if ls > 0 {
            out.push('\n');
        }
        let ghost out1 = out@;
        let line_is_fence = push_face_line(&mut out, &mut offs, &v, ls, e, fence);
        if line_is_fence {
            fence = !fence;
        }
        proof {
            lemma_face_text_len(q);
            if ls > 0 {
                lemma_face_step(q);
                assert(out@ == face_text(q));
            } else {
                lemma_face_first(q);
                assert(line =~= q);
                assert(out1 =~= Seq::<char>::empty());
                assert(out@ =~= face_text(q));
            }
            assert(fence == fence_open(q));
            let is_box = !fence0 && is_task_line(line);
            lemma_face_line_len(line, fence0);
            lemma_ws_prefix(line);
            if is_box {
                assert(trim_start(line).len() == line.len() - ws_prefix(line));
                assert(out1.len() + ws_prefix(line) + 2 < out@.len());
            }
            if ls > 0 {
                assert(out1.len() == face_text(init_lines(q)).len() + 1);
                assert(fence0 == fence_before_last(q));
                assert(is_box == last_line_is_box(q));
                let g0 = glyph_offsets(init_lines(q));
                if is_box {
                    assert(glyph_offsets(q) == g0.push(out1.len() + ws_prefix(line) + 2int));
                    assert(offs@ == offs0.push((out1.len() + ws_prefix(line) + 2) as usize));
                    assert forall|i: int| 0 <= i < offs@.len() implies offs@[i] == glyph_offsets(
                        q,
                    )[i] by {
                        if i < offs0.len() {
                            assert(offs@[i] == offs0[i]);
                            assert(glyph_offsets(q)[i] == g0[i]);
                        }
                    }
                } else {
                    assert(glyph_offsets(q) == g0);
                    assert(offs@ == offs0);
                }
            } else {
                assert(line == q);
                assert(out1.len() == 0);
                if is_box {
                    assert(glyph_offsets(q) =~= seq![ws_prefix(q) + 2int]);
                    assert(offs@ =~= seq![(ws_prefix(q) + 2) as usize]);
                } else {
                    assert(offs@ =~= Seq::<usize>::empty());
                }
            }
            assert(offs@.len() == glyph_offsets(q).len());
            assert forall|i: int| 0 <= i < offs@.len() implies offs@[i] == glyph_offsets(q)[i] by {}
        }
        if e == n {
            proof {
                assert(v@.take(n as int) =~= v@);
            }
            return (string_from_chars(&out), offs);
        }
        ls = e + 1;
    }
}

/// How the task marks of `q` extend those of the text before its last line.
proof fn lemma_marks_step(q: Seq<char>)
    ensures
        last_nl(q) >= 0 ==> task_marks(q) == (if last_line_is_box(q) {
            task_marks(init_lines(q)).push(last_nl(q) + 1 + ws_prefix(last_line(q)) + 3)
        } else {
            task_marks(init_lines(q))
        }),
        last_nl(q) < 0 ==> task_marks(q) == (if is_task_line(q) {
            seq![ws_prefix(q) + 3int]
        } else {
            Seq::<int>::empty()
        }),
{
    lemma_last_nl(q);
    if last_nl(q) < 0 {
        assert(last_line(q) =~= q);
        if is_task_line(q) {
            assert(Seq::<int>::empty().push(-1 + 1 + ws_prefix(q) + 3) =~= seq![ws_prefix(q) + 3int]);
        }
    }
}

/// Toggle the Nth (0-based ordinal) task box in the raw body string.
/// Returns the new body with `"- [ ]"` ↔ `"- [x]"` toggled (a checked box,
/// `x` or `X`, becomes `[ ]`). If the ordinal is out of range, returns the
/// body unchanged.
///
/// Recognition matches `face_body_with_checkbox_glyphs` exactly: task boxes
/// are recognised only at the start of a line (after optional leading
/// whitespace), and lines inside code fences are skipped.
pub fn toggle_task_box(raw: &str, ordinal: usize) -> (res: String)
    ensures
        res@ == toggled(raw@, ordinal as int),
{
    let v = chars_of(raw);
    let n = v.len();
    let mut fence = false;
    let mut count: usize = 0;
    let mut found: Option<usize> = None;
    let mut ls: usize = 0;
    loop
        invariant
            v@ == raw@,
            n == v.len(),
            ls <= n,
            ls > 0 ==> v@[ls - 1] == '\n',
            ls == 0 ==> count == 0 && !fence && found is None,
            ls > 0 ==> fence == fence_open(v@.take(ls - 1)),
            ls > 0 ==> count == task_marks(v@.take(ls - 1)).len(),
            count <= ls,
            found is Some <==> ordinal < count,
            found matches Some(p) ==> p < n && ls > 0 && p == task_marks(v@.take(ls - 1))[ordinal as int],
        decreases n - ls,
    {
        let e = find_nl(&v, ls, n);
        let ghost q = v@.take(e as int);
        let ghost line = v@.subrange(ls as int, e as int);
        let ghost fence0 = fence;
        let ghost count0 = count;
        proof {
            lemma_line_step(v@, ls as int, e as int);
            lemma_marks_step(q);
            if ls > 0 {
                lemma_face_step(q);
            } else {
                lemma_face_first(q);
                assert(line =~= q);
            }
        }
        let (w, is_fence, is_task) = classify_line(&v, ls, e);
        if is_fence {
            fence = !fence;
        } else if !fence && is_task {
            proof {
                lemma_ws_prefix(line);
                assert(trim_start(line).len() == line.len() - ws_prefix(line));
            }
            if count == ordinal {
                found = Some(ls + w + 3);
            }
            count = count + 1;
        }
        proof {
            assert(fence == fence_open(q));
            if ls > 0 {
                assert(fence0 == fence_before_last(q));
            } else {
                assert(!fence_before_last(q));
            }
            assert(count == task_marks(q).len());
            if let Some(p) = found {
                if count0 > ordinal {
                    assert(task_marks(q)[ordinal as int] == task_marks(v@.take(ls - 1))[ordinal as int]);
                }
            }
        }
        if e == n {
            proof {
                assert(v@.take(n as int) =~= v@);
            }
            match found {
                Some(p) => {
                    let mut w2 = v.clone();
                    let m = if v[p] == ' ' {
                        'x'
                    } else {
                        ' '
                    };
                    w2.set(p, m);
                    return string_from_chars(&w2);
                },
                None => {
                    return raw.to_owned();
                },
            }
        }
        ls = e + 1;
    }
}

// ---------------------------------------------------------------------------
// Laws
// ---------------------------------------------------------------------------

/// Every recorded mark lies inside `s` and holds ` `, `x` or `X`.
pub proof fn lemma_marks_bounds(s: Seq<char>)
    ensures
        forall|i: int|
            0 <= i < task_marks(s).len() ==> 0 <= #[trigger] task_marks(s)[i] < s.len() && (
            s[task_marks(s)[i]] == ' ' || s[task_marks(s)[i]] == 'x' || s[task_marks(s)[i]]
                == 'X'),
    decreases s.len(),
{
    lemma_last_nl(s);
    lemma_marks_step(s);
    let line = last_line(s);
    lemma_ws_prefix(line);
    if is_task_line(line) {
        assert(trim_start(line).len() == line.len() - ws_prefix(line));
        assert(s[last_nl(s) + 1 + ws_prefix(line) + 3] == trim_start(line)[3]);
    }
    if last_nl(s) >= 0 {
        let init = init_lines(s);
        lemma_marks_bounds(init);
        assert forall|i: int| 0 <= i < task_marks(init).len() implies s[task_marks(init)[i]]
            == init[task_marks(init)[i]] by {}
    }
}

/// Overwriting a recorded mark with ` `, `x` or `X` changes neither the fence
/// structure nor which boxes are recognised, nor where their marks are.
proof fn lemma_update_mark(s: Seq<char>, j: int, c: char)
    requires
        0 <= j < task_marks(s).len(),
        c == ' ' || c == 'x' || c == 'X',
    ensures
        task_marks(s.update(task_marks(s)[j], c)) == task_marks(s),
        fence_open(s.update(task_marks(s)[j], c)) == fence_open(s),
        glyph_offsets(s.update(task_marks(s)[j], c)) == glyph_offsets(s),
        face_text(s.update(task_marks(s)[j], c)).len() == face_text(s).len(),
    decreases s.len(),
{
    let p = task_marks(s)[j];
    let t = s.update(p, c);
    lemma_marks_bounds(s);
    lemma_last_nl(s);
    lemma_marks_step(s);
    lemma_marks_step(t);
    let k = last_nl(s);
    assert(s[p] != '\n');
    // The last newline does not move.
    assert forall|i: int| k < i < t.len() implies #[trigger] t[i] != '\n' by {
        if i != p {
            assert(t[i] == s[i]);
        }
    }
    if k >= 0 {
        assert(t[k] == s[k]);
    }
    lemma_last_nl_is(t, k);
    let line = last_line(s);
    let tline = last_line(t);
    lemma_ws_prefix(line);
    if k >= 0 && p < k {
        // The mark is in an earlier line.
        let init = init_lines(s);
        assert(task_marks(s)[j] == task_marks(init)[j]) by {
            if j == task_marks(init).len() {
                lemma_marks_bounds(init);
            }
        }
        if j >= task_marks(init).len() {
            assert(task_marks(s)[j] == k + 1 + ws_prefix(line) + 3);
        }
        assert(init_lines(t) =~= init.update(p, c));
        lemma_update_mark(init, j, c);
        assert(tline =~= line);
        lemma_face_step(s);
        lemma_face_step(t);
    } else {
        // The mark is in the last line, at offset ws_prefix(line) + 3.
        if k >= 0 {
            let init = init_lines(s);
            lemma_marks_bounds(init);
            if j < task_marks(init).len() {
                assert(task_marks(s)[j] == task_marks(init)[j]);
            }
            assert(init_lines(t) =~= init);
        }
        assert(last_line_is_box(s));
        let w = ws_prefix(line) as int;
        assert(p == k + 1 + w + 3);
        assert(tline =~= line.update(w + 3, c));
        assert(trim_start(line).len() == line.len() - w);
        assert forall|i: int| 0 <= i < w implies is_ws(#[trigger] tline[i]) by {
            assert(tline[i] == line[i]);
        }
        assert(tline[w] == line[w]);
        lemma_ws_prefix_is(tline, w);
        assert(trim_start(tline) =~= trim_start(line).update(3, c));
        lemma_face_line_len(line, fence_before_last(s));
        lemma_face_line_len(tline, fence_before_last(s));
        if k < 0 {
            assert(line =~= s);
            assert(tline =~= t);
            lemma_face_first(s);
            lemma_face_first(t);
        } else {
            lemma_face_step(s);
            lemma_face_step(t);
        }
    }
}

/// Toggling keeps the text's length and every box (its ordinal and where its
/// mark sits), flips the toggled box's mark and leaves every other character
/// as it was.
pub proof fn lemma_toggle_keeps_boxes(s: Seq<char>, ordinal: int)
    ensures
        toggled(s, ordinal).len() == s.len(),
        task_marks(toggled(s, ordinal)) == task_marks(s),
        fence_open(toggled(s, ordinal)) == fence_open(s),
        0 <= ordinal < task_marks(s).len() ==> toggled(s, ordinal)[task_marks(s)[ordinal]]
            == flipped(s[task_marks(s)[ordinal]]),
        forall|i: int|
            0 <= i < s.len() && !(0 <= ordinal < task_marks(s).len() && i == task_marks(
                s,
            )[ordinal]) ==> #[trigger] toggled(s, ordinal)[i] == s[i],
{
    lemma_marks_bounds(s);
    if 0 <= ordinal < task_marks(s).len() {
        lemma_update_mark(s, ordinal, flipped(s[task_marks(s)[ordinal]]));
    }
}

/// Toggling the same box twice restores the text, unless the box was
/// checked with an upper-case `X` (which comes back as `x`).
pub proof fn lemma_toggle_twice(s: Seq<char>, ordinal: int)
    requires
        !(0 <= ordinal < task_marks(s).len() && s[task_marks(s)[ordinal]] == 'X'),
    ensures
        toggled(toggled(s, ordinal), ordinal) == s,
{
    lemma_toggle_keeps_boxes(s, ordinal);
    lemma_marks_bounds(s);
    let t = toggled(s, ordinal);
    lemma_toggle_keeps_boxes(t, ordinal);
    assert(toggled(t, ordinal) =~= s);
}

/// The face shows one glyph per recognised box, in the same order as the
/// ordinals `toggle_task_box` uses, and each glyph shows its box's state:
/// `□` for an unchecked box and `■` for a checked one.
#[verifier::rlimit(40)]
pub proof fn lemma_face_glyphs_match_boxes(s: Seq<char>)
    ensures
        glyph_offsets(s).len() == task_marks(s).len(),
        forall|i: int|
            0 <= i < glyph_offsets(s).len() ==> 0 <= #[trigger] glyph_offsets(s)[i] < face_text(
                s,
            ).len() && face_text(s)[glyph_offsets(s)[i]] == glyph_for(s[task_marks(s)[i]]),
    decreases s.len(),
{
    lemma_last_nl(s);
    lemma_marks_step(s);
    lemma_marks_bounds(s);
    let line = last_line(s);
    lemma_ws_prefix(line);
    let k = last_nl(s);
    if k >= 0 {
        let init = init_lines(s);
        lemma_face_step(s);
        lemma_face_glyphs_match_boxes(init);
        lemma_face_text_len(init);
        let f0 = face_text(init);
        let fl = face_line(line, fence_open(init));
        assert forall|i: int| 0 <= i < glyph_offsets(init).len() implies face_text(s)[glyph_offsets(
            init,
        )[i]] == f0[glyph_offsets(init)[i]] by {}
        lemma_marks_bounds(init);
        assert forall|i: int| 0 <= i < task_marks(init).len() implies s[task_marks(init)[i]]
            == init[task_marks(init)[i]] by {}
        if last_line_is_box(s) {
            let w = ws_prefix(line) as int;
            assert(trim_start(line).len() == line.len() - w);
            assert(fl[w + 2] == glyph_for(line[w + 3]));
            assert(face_text(s)[f0.len() + 1 + w + 2] == fl[w + 2]);
            assert(line[w + 3] == s[k + 1 + w + 3]);
        }
    } else {
        lemma_face_first(s);
        assert(line =~= s);
        if is_task_line(s) {
            let w = ws_prefix(s) as int;
            assert(trim_start(s).len() == s.len() - w);
            assert(face_line(s, false)[w + 2] == glyph_for(s[w + 3]));
        }
    }
}

// ---------------------------------------------------------------------------
// Face text
// ---------------------------------------------------------------------------

/// A heading line's text: without its leading `#` run, trimmed.
pub open spec fn heading_text(line: Seq<char>) -> Seq<char> {
    trim(line.skip(hash_run(line) as int))
}

/// The first line of `body` (up to its first newline, without a final
/// carriage return).
pub open spec fn first_line(body: Seq<char>) -> Seq<char> {
    let l = body.take(nl_from(body) as int);
    if l.len() > 0 && l.last() == '\r' {
        l.drop_last()
    } else {
        l
    }
}

/// `s` without its leading `#` characters.
fn strip_hashes(s: &str) -> (r: String)
    ensures
        r@ == s@.skip(hash_run(s@) as int),
{
    let v = chars_of(s);
    let mut i: usize = 0;
    while i < v.len() && v[i] == '#'
        invariant
            i <= v@.len(),
            v@ == s@,
            forall|j: int| 0 <= j < i ==> v@[j] == '#',
        decreases v@.len() - i,
    {
        i = i + 1;
    }
    proof {
        lemma_hash_run_is(s@, i as int);
        assert(v@.subrange(i as int, v@.len() as int) =~= s@.skip(i as int));
    }
    string_from_range(&v, i, v.len())
}

/// The first line of a card's body as its label shows it (a scrap's
/// stand-in title): the heading text of the body's first line; empty when
/// the body is not loaded.
pub fn first_body_line(body: Option<&str>) -> (r: String)
    ensures
        body is None ==> r@.len() == 0,
        body matches Some(b) ==> r@ == heading_text(first_line(b@)),
{
    let text = match body {
        Some(b) => b,
        None => {
            return String::new();
        },
    };
    let v = chars_of(text);
    let e = find_nl(&v, 0, v.len());
    proof {
        lemma_nl_from_is(text@, e as int);
    }
    let end = if e > 0 && v[e - 1] == '\r' {
        e - 1
    } else {
        e
    };
    let line = string_from_range(&v, 0, end);
    proof {
        let l = text@.take(e as int);
        if e > 0 && v@[e - 1] == '\r' {
            assert(line@ =~= l.drop_last());
        } else {
            assert(line@ =~= l);
        }
    }
    let stripped = strip_hashes(line.as_str());
    trim_str(stripped.as_str())
}

/// A divider shows its title on the tab, so its face drops the body's
/// first line when that line's heading text is the title: the rest of the
/// body (after the first newline), or `None` to show the body as it is.
pub fn divider_face_body(body: &str, title: &str) -> (r: Option<String>)
    ensures
        ({
            let n = nl_from(body@) as int;
            let first = body@.take(n);
            &&& heading_text(first) == title@ ==> (r matches Some(rest) && rest@ == body@.skip(
                if n < body@.len() { n + 1 } else { n },
            ))
            &&& heading_text(first) != title@ ==> r is None
        }),
{
    let v = chars_of(body);
    let e = find_nl(&v, 0, v.len());
    proof {
        lemma_nl_from_is(body@, e as int);
    }
    let line = string_from_range(&v, 0, e);
    let stripped = strip_hashes(line.as_str());
    let heading = trim_str(stripped.as_str());
    let t = title.to_string();
    if heading == t {
        let start = if e < v.len() {
            e + 1
        } else {
            e
        };
        let rest = string_from_range(&v, start, v.len());
        proof {
            assert(rest@ =~= body@.skip(start as int));
        }
        Some(rest)
    } else {
        None
    }
}

/// The number of lines of `s` (one more than its newlines).
pub open spec fn line_count(s: Seq<char>) -> nat
    decreases s.len(),
{
    if last_nl(s) < 0 {
        1
    } else {
        proof {
            lemma_last_nl(s);
        }
        line_count(init_lines(s)) + 1
    }
}

/// The face form of a line without newlines has none either.
proof fn lemma_face_line_no_nl(line: Seq<char>, fenced: bool)
    requires
        forall|i: int| 0 <= i < line.len() ==> #[trigger] line[i] != '\n',
    ensures
        forall|i: int|
            0 <= i < face_line(line, fenced).len() ==> #[trigger] face_line(line, fenced)[i] != '\n',
{
    lemma_ws_prefix(line);
    if !fenced && is_task_line(line) {
        assert(trim_start(line).len() == line.len() - ws_prefix(line));
        let w = ws_prefix(line) as int;
        let f = face_line(line, fenced);
        assert forall|i: int| 0 <= i < f.len() implies #[trigger] f[i] != '\n' by {
            if i >= w + 4 {
                assert(f[i] == line[i + 2]);
            } else if i < w {
                assert(f[i] == line[i]);
            }
        }
    }
}

/// The face keeps the body's lines: it has exactly as many.
pub proof fn lemma_face_keeps_lines(s: Seq<char>)
    ensures
        line_count(face_text(s)) == line_count(s),
    decreases s.len(),
{
    lemma_last_nl(s);
    let line = last_line(s);
    assert forall|i: int| 0 <= i < line.len() implies #[trigger] line[i] != '\n' by {
        assert(line[i] == s[last_nl(s) + 1 + i]);
    }
    if last_nl(s) < 0 {
        assert(line =~= s);
        lemma_face_first(s);
        lemma_face_line_no_nl(s, false);
        lemma_last_nl_is(face_text(s), -1);
    } else {
        let init = init_lines(s);
        lemma_face_step(s);
        lemma_face_keeps_lines(init);
        let f0 = face_text(init);
        let fl = face_line(line, fence_open(init));
        lemma_face_line_no_nl(line, fence_open(init));
        let q = face_text(s);
        assert(q == f0 + seq!['\n'] + fl);
        assert forall|i: int| f0.len() < i < q.len() implies #[trigger] q[i] != '\n' by {
            assert(q[i] == fl[i - f0.len() - 1]);
        }
        lemma_last_nl_is(q, f0.len() as int);
        assert(init_lines(q) =~= f0);
    }
}

/// Glyph offsets strictly increase: the face lists its boxes in text order.
pub proof fn lemma_glyph_offsets_increase(s: Seq<char>)
    ensures
        forall|i: int, j: int|
            0 <= i < j < glyph_offsets(s).len() ==> glyph_offsets(s)[i] < glyph_offsets(s)[j],
    decreases s.len(),
{
    lemma_last_nl(s);
    if last_nl(s) >= 0 {
        let init = init_lines(s);
        lemma_face_step(s);
        lemma_glyph_offsets_increase(init);
        lemma_face_glyphs_match_boxes(init);
        lemma_ws_prefix(last_line(s));
    } else {
        lemma_face_first(s);
    }
}

/// Toggling a box moves no glyph on the face: the toggled body's glyph
/// offsets and face length are those of the body.
pub proof fn lemma_toggle_keeps_face_offsets(s: Seq<char>, ordinal: int)
    ensures
        glyph_offsets(toggled(s, ordinal)) == glyph_offsets(s),
        face_text(toggled(s, ordinal)).len() == face_text(s).len(),
{
    lemma_marks_bounds(s);
    if 0 <= ordinal < task_marks(s).len() {
        lemma_update_mark(s, ordinal, flipped(s[task_marks(s)[ordinal]]));
    }
}

} // verus!
