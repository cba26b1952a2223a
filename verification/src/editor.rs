//! Pure editor helpers: list continuation on Enter, Tab indent/outdent,
//! the autocomplete context at the cursor, URL detection and cursor offsets.
use crate::text::{
    all_digits, all_ws, byte_len, byte_offset_of, char_index_for_cursor, char_index_of_byte,
    chars_of, decimal, digits_value, extend_range, find_pair, find_pair_in, has_prefix,
    is_boundary, is_digit, is_ws, last_nl, leading_ws, lemma_all_ws_iff, lemma_find_pair,
    lemma_find_pair_is, lemma_last_nl, lemma_last_nl_is, lemma_rfind_char_is,
    lemma_rfind_pair_is, lemma_ws_prefix, parse_digits, push_decimal, rfind_char,
    rfind_char_in, rfind_pair, rfind_pair_in, string_from_chars, string_from_range,
    trim_start, ws_prefix, extend_str, find_nl, lemma_byte_len_take_mono, hash_run,
    lemma_hash_run_is, nl_from, lemma_nl_from_is, lemma_rfind_pair, lemma_rfind_char, pair_at,
};
use crate::note::NoteId;
use crate::ops::VaultOp;
use crate::state::{request_step, BodyCache};
use crate::text_undo::TextUndo;
use vstd::prelude::*;

verus! {

// ---------------------------------------------------------------------------
// Enter: list continuation
// ---------------------------------------------------------------------------

/// What pressing Enter at the end of a line should insert.
#[derive(Debug, PartialEq, Clone)]
pub enum EnterAction {
    /// A plain newline.
    Plain,
    /// A newline followed by this list prefix.
    Continue(String),
    /// The list item is empty: replace the line from byte `strip_from` on
    /// (its marker) with a newline, ending the list.
    EndList { strip_from: usize },
}

/// Abstract value of an `EnterAction`.
pub enum EnterModel {
    Plain,
    Continue(Seq<char>),
    EndList(nat),
}

impl View for EnterAction {
    type V = EnterModel;

    open spec fn view(&self) -> EnterModel {
        match self {
            EnterAction::Plain => EnterModel::Plain,
            EnterAction::Continue(p) => EnterModel::Continue(p@),
            EnterAction::EndList { strip_from } => EnterModel::EndList(*strip_from as nat),
        }
    }
}

/// The value of an ordered-list marker `N. ` that `t` starts with: `N` is the
/// text before the first `". "`, non-empty, all ASCII digits, and at most
/// `u64::MAX`.
pub open spec fn ordered_number(t: Seq<char>) -> Option<nat> {
    let d = find_pair(t, '.', ' ');
    if d > 0 && all_digits(t.take(d)) && digits_value(t.take(d)) <= u64::MAX {
        Some(digits_value(t.take(d)))
    } else {
        None
    }
}

/// The list continuation for `line` (the text before the cursor):
/// a block quote `> `, a task item `- [ ] `/`- [x] `, a bullet `- ` or an
/// ordered item `N. ` (continued as `N+1. `), each after optional
/// indentation that the continuation repeats. An item with no content
/// ends the list instead, stripping from the end of the indentation
/// (a byte offset). Anything else is a plain newline.
pub open spec fn enter_model(line: Seq<char>) -> EnterModel {
    let w = ws_prefix(line) as int;
    let t = trim_start(line);
    let indent = line.take(w);
    let end = EnterModel::EndList(byte_len(indent));
    if has_prefix(t, seq!['>', ' ']) {
        if all_ws(t.skip(2)) {
            end
        } else {
            EnterModel::Continue(indent + seq!['>', ' '])
        }
    } else if has_prefix(t, seq!['-', ' ', '[', ' ', ']', ' ']) || has_prefix(
        t,
        seq!['-', ' ', '[', 'x', ']', ' '],
    ) {
        if all_ws(t.skip(6)) {
            end
        } else {
            EnterModel::Continue(indent + seq!['-', ' ', '[', ' ', ']', ' '])
        }
    } else if has_prefix(t, seq!['-', ' ']) {
        if all_ws(t.skip(2)) {
            end
        } else {
            EnterModel::Continue(indent + seq!['-', ' '])
        }
    } else if let Some(n) = ordered_number(t) {
        if all_ws(t.skip(find_pair(t, '.', ' ') + 2)) {
            end
        } else {
            EnterModel::Continue(indent + decimal(n + 1) + seq!['.', ' '])
        }
    } else {
        EnterModel::Plain
    }
}

/// The one line `enter_action` cannot continue: an ordered item numbered
/// `u64::MAX`, whose successor has no `u64`.
pub open spec fn enter_overflows(line: Seq<char>) -> bool {
    let t = trim_start(line);
    !has_prefix(t, seq!['>', ' ']) && !has_prefix(t, seq!['-', ' ']) && ordered_number(t)
        == Some(u64::MAX as nat)
}

/// Whether `v[from..to]` is all whitespace.
fn all_ws_range(v: &Vec<char>, from: usize, to: usize) -> (b: bool)
    requires
        from <= to <= v.len(),
    ensures
        b == all_ws(v@.subrange(from as int, to as int)),
{
    let n = leading_ws(v, from, to);
    proof {
        lemma_all_ws_iff(v@.subrange(from as int, to as int));
    }
    n == to - from
}

/// Whether `v[from..to]` is all ASCII digits.
fn all_digits_range(v: &Vec<char>, from: usize, to: usize) -> (b: bool)
    requires
        from <= to <= v.len(),
    ensures
        b == all_digits(v@.subrange(from as int, to as int)),
{
    let mut i = from;
    while i < to
        invariant
            from <= i <= to <= v.len(),
            forall|j: int| from <= j < i ==> is_digit(#[trigger] v@[j]),
        decreases to - i,
    {
        if !('0' <= v[i] && v[i] <= '9') {
            assert(v@.subrange(from as int, to as int)[i - from] == v@[i as int]);
            return false;
        }
        i = i + 1;
    }
    proof {
        assert forall|j: int| 0 <= j < to - from implies is_digit(
            #[trigger] v@.subrange(from as int, to as int)[j],
        ) by {
            assert(v@.subrange(from as int, to as int)[j] == v@[from + j]);
        }
    }
    true
}

/// Whether `v[at..]` (within `v[..end]`) starts with the characters of `p`.
fn has_prefix_at(v: &Vec<char>, at: usize, end: usize, p: &Vec<char>) -> (b: bool)
    requires
        at <= end <= v.len(),
    ensures
        b == has_prefix(v@.subrange(at as int, end as int), p@),
{
    if end - at < p.len() {
        return false;
    }
    let mut i: usize = 0;
    while i < p.len()
        invariant
            at + p.len() <= end <= v.len(),
            i <= p.len(),
            forall|j: int| 0 <= j < i ==> v@[at + j] == p@[j],
        decreases p.len() - i,
    {
        if v[at + i] != p[i] {
            proof {
                let t = v@.subrange(at as int, end as int);
                assert(t.take(p.len() as int)[i as int] == v@[at + i]);
            }
            return false;
        }
        i = i + 1;
    }
    proof {
        let t = v@.subrange(at as int, end as int);
        assert(t.take(p.len() as int) =~= p@);
    }
    true
}

/// Decides the Enter action for `line`, the text before the cursor on the
/// current line.
#[verifier::rlimit(40)]
pub fn enter_action(line: &str) -> (r: EnterAction)
    requires
        !enter_overflows(line@),
    ensures
        r@ == enter_model(line@),
{
    let nbytes = line.as_bytes().len();
    proof {
        assert(byte_len(line@) == nbytes);
    }
    let v = chars_of(line);
    let n = v.len();
    let w = leading_ws(&v, 0, n);
    let ghost l = line@;
    let ghost t = trim_start(l);
    proof {
        assert(v@.subrange(0, n as int) =~= v@);
        lemma_ws_prefix(l);
        assert(t =~= v@.subrange(w as int, n as int));
        crate::text::lemma_byte_len_take_mono(l, w as int, n as int);
        assert(l.take(n as int) =~= l);
    }
    let strip = byte_offset_of(&v, w);
    let quote = vec!['>', ' '];
    let unchecked = vec!['-', ' ', '[', ' ', ']', ' '];
    let checked = vec!['-', ' ', '[', 'x', ']', ' '];
    let bullet = vec!['-', ' '];
    if has_prefix_at(&v, w, n, &quote) {
        proof {
            assert(t.skip(2) =~= v@.subrange(w + 2, n as int));
        }
        if all_ws_range(&v, w + 2, n) {
            return EnterAction::EndList { strip_from: strip };
        }
        let mut out: Vec<char> = Vec::new();
        extend_range(&mut out, &v, 0, w);
        out.push('>');
        out.push(' ');
        proof {
            assert(out@ =~= l.take(w as int) + seq!['>', ' ']);
        }
        return EnterAction::Continue(string_from_chars(&out));
    }
    if has_prefix_at(&v, w, n, &unchecked) || has_prefix_at(&v, w, n, &checked) {
        proof {
            assert(t.skip(6) =~= v@.subrange(w + 6, n as int));
        }
        if all_ws_range(&v, w + 6, n) {
            return EnterAction::EndList { strip_from: strip };
        }
        let mut out: Vec<char> = Vec::new();
        extend_range(&mut out, &v, 0, w);
        out.push('-');
        out.push(' ');
        out.push('[');
        out.push(' ');
        out.push(']');
        out.push(' ');
        proof {
            assert(out@ =~= l.take(w as int) + seq!['-', ' ', '[', ' ', ']', ' ']);
        }
        return EnterAction::Continue(string_from_chars(&out));
    }
    if has_prefix_at(&v, w, n, &bullet) {
        proof {
            assert(t.skip(2) =~= v@.subrange(w + 2, n as int));
        }
        if all_ws_range(&v, w + 2, n) {
            return EnterAction::EndList { strip_from: strip };
        }
        let mut out: Vec<char> = Vec::new();
        extend_range(&mut out, &v, 0, w);
        out.push('-');
        out.push(' ');
        proof {
            assert(out@ =~= l.take(w as int) + seq!['-', ' ']);
        }
        return EnterAction::Continue(string_from_chars(&out));
    }
    // Ordered list: "N. "
    let dot = find_pair_in(&v, w, n, '.', ' ');
    proof {
        let d: int = if dot == n {
            -1
        } else {
            dot - w
        };
        assert forall|i: int| #![trigger crate::text::pair_at(t, i, '.', ' ')] (d < 0 || i < d) ==> !crate::text::pair_at(t, i, '.', ' ') by {
            if crate::text::pair_at(t, i, '.', ' ') {
                assert(t[i] == v@[w + i]);
                assert(t[i + 1] == v@[w + i + 1]);
            }
        }
        if d >= 0 {
            assert(t[d] == v@[dot as int]);
            assert(t[d + 1] == v@[dot + 1]);
        }
        lemma_find_pair_is(t, '.', ' ', d);
    }
    if dot < n && dot > w && all_digits_range(&v, w, dot) {
        proof {
            assert(t.take(dot - w) =~= v@.subrange(w as int, dot as int));
            assert(t.skip(dot - w + 2) =~= v@.subrange(dot + 2, n as int));
        }
        match parse_digits(&v, w, dot) {
            Some(num) => {
                if all_ws_range(&v, dot + 2, n) {
                    return EnterAction::EndList { strip_from: strip };
                }
                let mut out: Vec<char> = Vec::new();
                extend_range(&mut out, &v, 0, w);
                push_decimal(&mut out, num + 1);
                out.push('.');
                out.push(' ');
                proof {
                    assert(out@ =~= l.take(w as int) + decimal((num + 1) as nat) + seq!['.', ' ']);
                }
                return EnterAction::Continue(string_from_chars(&out));
            },
            None => {},
        }
    } else {
        proof {
            if dot < n && dot > w {
                assert(t.take(dot - w) =~= v@.subrange(w as int, dot as int));
            }
        }
    }
    EnterAction::Plain
}

// ---------------------------------------------------------------------------
// Tab / Shift+Tab: indent and outdent list lines
// ---------------------------------------------------------------------------

/// A list line: after optional indentation it starts with `- `, `> `, or an
/// ordered marker (a non-empty run of digits before the first `". "`).
pub open spec fn is_list_line(line: Seq<char>) -> bool {
    let t = trim_start(line);
    let d = find_pair(t, '.', ' ');
    ||| has_prefix(t, seq!['-', ' '])
    ||| has_prefix(t, seq!['>', ' '])
    ||| d > 0 && all_digits(t.take(d))
}

/// Returns `Some(new_line)` if the line was indented/outdented, `None` if
/// unchanged. Only list lines move; indenting prepends two spaces and
/// outdenting removes two leading spaces (when there are two).
pub fn indent_line(line: &str, outdent: bool) -> (r: Option<String>)
    ensures
        !is_list_line(line@) ==> r is None,
        is_list_line(line@) && !outdent ==> (r matches Some(s) && s@ == seq![' ', ' '] + line@),
        is_list_line(line@) && outdent && has_prefix(line@, seq![' ', ' ']) ==> (r matches Some(s)
            && s@ == line@.skip(2)),
        is_list_line(line@) && outdent && !has_prefix(line@, seq![' ', ' ']) ==> r is None,
{
    let v = chars_of(line);
    let n = v.len();
    let w = leading_ws(&v, 0, n);
    let ghost l = line@;
    let ghost t = trim_start(l);
    proof {
        assert(v@.subrange(0, n as int) =~= v@);
        lemma_ws_prefix(l);
        assert(t =~= v@.subrange(w as int, n as int));
    }
    let dash = vec!['-', ' '];
    let quote = vec!['>', ' '];
    let dot = find_pair_in(&v, w, n, '.', ' ');
    proof {
        let d: int = if dot == n {
            -1
        } else {
            dot - w
        };
        assert forall|i: int| #![trigger crate::text::pair_at(t, i, '.', ' ')] (d < 0 || i < d) ==> !crate::text::pair_at(t, i, '.', ' ') by {
            if crate::text::pair_at(t, i, '.', ' ') {
                assert(t[i] == v@[w + i]);
                assert(t[i + 1] == v@[w + i + 1]);
            }
        }
        if d >= 0 {
            assert(t[d] == v@[dot as int]);
            assert(t[d + 1] == v@[dot + 1]);
        }
        lemma_find_pair_is(t, '.', ' ', d);
        if dot < n && dot > w {
            assert(t.take(dot - w) =~= v@.subrange(w as int, dot as int));
        }
    }
    let is_list = has_prefix_at(&v, w, n, &dash) || has_prefix_at(&v, w, n, &quote) || (dot < n
        && dot > w && all_digits_range(&v, w, dot));
    if !is_list {
        return None;
    }
    let spaces = vec![' ', ' '];
    if outdent {
        if has_prefix_at(&v, 0, n, &spaces) {
            Some(string_from_range(&v, 2, n))
        } else {
            None
        }
    } else {
        let mut out: Vec<char> = Vec::new();
        out.push(' ');
        out.push(' ');
        extend_range(&mut out, &v, 0, n);
        proof {
            assert(out@ =~= seq![' ', ' '] + l);
        }
        Some(string_from_chars(&out))
    }
}

// ---------------------------------------------------------------------------
// Autocomplete context
// ---------------------------------------------------------------------------

/// What the text before the cursor is in the middle of typing.
#[derive(Debug, PartialEq, Clone)]
pub enum AcContext {
    NoContext,
    /// An unclosed `[[` link; `start` is the byte offset of the `[[`.
    Link { start: usize, query: String },
    /// A `#tag`; `start` is the byte offset of the `#`.
    Tag { start: usize, query: String },
}

/// Abstract value of an `AcContext`.
pub enum AcModel {
    NoContext,
    Link { start: nat, query: Seq<char> },
    Tag { start: nat, query: Seq<char> },
}

impl View for AcContext {
    type V = AcModel;

    open spec fn view(&self) -> AcModel {
        match self {
            AcContext::NoContext => AcModel::NoContext,
            AcContext::Link { start, query } => AcModel::Link { start: *start as nat, query: query@ },
            AcContext::Tag { start, query } => AcModel::Tag { start: *start as nat, query: query@ },
        }
    }
}

/// The autocomplete context for the text `b` with the cursor at character
/// `k`. Only the current line up to the cursor counts.
/// - Link: the last `[[` on it, when no `]]` follows; the query is the text
///   after the `[[`.
/// - Otherwise Tag: the last `#` on it, when the line does not start with
///   `#` (a heading) and the `#` is at the line start or after a space or a
///   tab; the query is the text after the `#`.
/// Offsets are UTF-8 byte offsets into `b`.
pub open spec fn ac_model(b: Seq<char>, k: int) -> AcModel {
    let before = b.take(k);
    let ls = last_nl(before) + 1;
    let lb = before.skip(ls);
    let bp = rfind_pair(lb, '[', '[');
    let hp = rfind_char(lb, '#');
    if bp >= 0 && find_pair(lb.skip(bp + 2), ']', ']') < 0 {
        AcModel::Link { start: byte_len(b.take(ls + bp)), query: lb.skip(bp + 2) }
    } else if hp >= 0 && !(lb.len() > 0 && lb[0] == '#') && (hp == 0 || lb[hp - 1] == ' '
        || lb[hp - 1] == '\t') {
        AcModel::Tag { start: byte_len(b.take(ls + hp)), query: lb.skip(hp + 1) }
    } else {
        AcModel::NoContext
    }
}

/// Start of the line holding character position `k` of `v`.
fn line_start_before(v: &Vec<char>, k: usize) -> (ls: usize)
    requires
        k <= v.len(),
    ensures
        ls == last_nl(v@.take(k as int)) + 1,
        ls <= k,
{
    let ghost before = v@.take(k as int);
    let nl = rfind_char_in(v, 0, k, '\n');
    proof {
        let j: int = if nl == k {
            -1
        } else {
            nl as int
        };
        assert forall|i: int| j < i < before.len() implies #[trigger] before[i] != '\n' by {
            assert(before[i] == v@[i]);
        }
        lemma_last_nl_is(before, j);
    }
    if nl == k {
        0
    } else {
        nl + 1
    }
}

/// Position of the unclosed `[[` that `v[ls..k]` ends in, if any.
fn open_link_in(v: &Vec<char>, ls: usize, k: usize) -> (r: Option<usize>)
    requires
        ls <= k <= v.len(),
    ensures
        ({
            let lb = v@.subrange(ls as int, k as int);
            let bp = rfind_pair(lb, '[', '[');
            &&& r is Some <==> (bp >= 0 && find_pair(lb.skip(bp + 2), ']', ']') < 0)
            &&& r matches Some(p) ==> p == ls + bp
        }),
        r matches Some(p) ==> ls <= p && p + 2 <= k,
{
    let ghost lb = v@.subrange(ls as int, k as int);
    let bp = rfind_pair_in(v, ls, k, '[', '[');
    proof {
        let j: int = if bp == k {
            -1
        } else {
            bp - ls
        };
        assert forall|i: int| #![trigger crate::text::pair_at(lb, i, '[', '[')] j < i ==> !crate::text::pair_at(lb, i, '[', '[') by {
            if crate::text::pair_at(lb, i, '[', '[') {
                assert(lb[i] == v@[ls + i]);
                assert(lb[i + 1] == v@[ls + i + 1]);
            }
        }
        if j >= 0 {
            assert(lb[j] == v@[bp as int]);
            assert(lb[j + 1] == v@[bp + 1]);
        }
        lemma_rfind_pair_is(lb, '[', '[', j);
    }
    if bp == k {
        return None;
    }
    let close = find_pair_in(v, bp + 2, k, ']', ']');
    proof {
        let after = lb.skip(bp - ls + 2);
        assert(after =~= v@.subrange(bp + 2, k as int));
        let j: int = if close == k {
            -1
        } else {
            close - (bp + 2)
        };
        assert forall|i: int| #![trigger crate::text::pair_at(after, i, ']', ']')] (j < 0 || i < j) ==> !crate::text::pair_at(after, i, ']', ']') by {
            if crate::text::pair_at(after, i, ']', ']') {
                assert(after[i] == v@[bp + 2 + i]);
                assert(after[i + 1] == v@[bp + 2 + i + 1]);
            }
        }
        if j >= 0 {
            assert(after[j] == v@[close as int]);
            assert(after[j + 1] == v@[close + 1]);
        }
        lemma_find_pair_is(after, ']', ']', j);
    }
    if close == k {
        Some(bp)
    } else {
        None
    }
}

/// Position of the `#` that starts a tag being typed at the end of
/// `v[ls..k]`, if any.
fn open_tag_in(v: &Vec<char>, ls: usize, k: usize) -> (r: Option<usize>)
    requires
        ls <= k <= v.len(),
    ensures
        ({
            let lb = v@.subrange(ls as int, k as int);
            let hp = rfind_char(lb, '#');
            &&& r is Some <==> (hp >= 0 && !(lb.len() > 0 && lb[0] == '#') && (hp == 0 || lb[hp
                - 1] == ' ' || lb[hp - 1] == '\t'))
            &&& r matches Some(p) ==> p == ls + hp
        }),
        r matches Some(p) ==> ls <= p < k,
{
    let ghost lb = v@.subrange(ls as int, k as int);
    let hp = rfind_char_in(v, ls, k, '#');
    proof {
        let j: int = if hp == k {
            -1
        } else {
            hp - ls
        };
        assert forall|i: int| j < i < lb.len() implies #[trigger] lb[i] != '#' by {
            assert(lb[i] == v@[ls + i]);
        }
        if j >= 0 {
            assert(lb[j] == v@[hp as int]);
        }
        lemma_rfind_char_is(lb, '#', j);
        if ls < k {
            assert(lb[0] == v@[ls as int]);
        }
        if hp < k && hp > ls {
            assert(lb[hp - ls - 1] == v@[hp - 1]);
        }
    }
    if hp == k || (ls < k && v[ls] == '#') {
        return None;
    }
    if hp == ls || v[hp - 1] == ' ' || v[hp - 1] == '\t' {
        Some(hp)
    } else {
        None
    }
}

/// The autocomplete context at byte offset `cursor_byte` of `buffer` (a
/// cursor past the end counts as the end).
pub fn ac_context(buffer: &str, cursor_byte: usize) -> (r: AcContext)
    requires
        cursor_byte >= byte_len(buffer@) || is_boundary(buffer@, cursor_byte as int),
    ensures
        r@ == ac_model(buffer@, char_index_for_cursor(buffer@, cursor_byte as int)),
{
    let v = chars_of(buffer);
    let k = char_index_of_byte(&v, cursor_byte);
    let ghost b = buffer@;
    let ghost before = b.take(k as int);
    let ls = line_start_before(&v, k);
    let ghost lb = before.skip(ls as int);
    proof {
        assert(lb =~= v@.subrange(ls as int, k as int));
        if cursor_byte >= byte_len(b) {
            assert(b.take(k as int) =~= b);
        }
        assert(byte_len(b.take(k as int)) <= cursor_byte);
    }
    if let Some(bp) = open_link_in(&v, ls, k) {
        proof {
            crate::text::lemma_byte_len_take_mono(b, bp as int, k as int);
        }
        let start = byte_offset_of_bounded(&v, bp, k);
        let query = string_from_range(&v, bp + 2, k);
        proof {
            assert(query@ =~= lb.skip(bp - ls + 2));
        }
        return AcContext::Link { start, query };
    }
    if let Some(hp) = open_tag_in(&v, ls, k) {
        proof {
            crate::text::lemma_byte_len_take_mono(b, hp as int, k as int);
        }
        let start = byte_offset_of_bounded(&v, hp, k);
        let query = string_from_range(&v, hp + 1, k);
        proof {
            assert(query@ =~= lb.skip(hp - ls + 1));
        }
        return AcContext::Tag { start, query };
    }
    AcContext::NoContext
}

/// UTF-8 offset of character `j` of `v`, for `j <= k` where the offset of
/// `k` is known to fit.
fn byte_offset_of_bounded(v: &Vec<char>, j: usize, k: usize) -> (b: usize)
    requires
        j <= k <= v.len(),
        byte_len(v@.take(k as int)) <= usize::MAX,
    ensures
        b == byte_len(v@.take(j as int)),
{
    let mut i: usize = 0;
    let mut acc: usize = 0;
    proof {
        assert(v@.take(0) =~= Seq::<char>::empty());
    }
    while i < j
        invariant
            i <= j <= k <= v.len(),
            acc == byte_len(v@.take(i as int)),
            byte_len(v@.take(k as int)) <= usize::MAX,
        decreases j - i,
    {
        proof {
            crate::text::lemma_byte_len_take_succ(v@, i as int);
            crate::text::lemma_byte_len_take_mono(v@, i + 1, k as int);
        }
        let w = crate::text::utf8_width(v[i]);
        acc = acc + w;
        i = i + 1;
    }
    acc
}

// ---------------------------------------------------------------------------
// URLs and cursor offsets
// ---------------------------------------------------------------------------

/// `s` starts with `https://` or `http://`.
pub fn is_probably_url(s: &str) -> (b: bool)
    ensures
        b == (has_prefix(s@, seq!['h', 't', 't', 'p', 's', ':', '/', '/']) || has_prefix(
            s@,
            seq!['h', 't', 't', 'p', ':', '/', '/'],
        )),
{
    let v = chars_of(s);
    let n = v.len();
    let https = vec!['h', 't', 't', 'p', 's', ':', '/', '/'];
    let http = vec!['h', 't', 't', 'p', ':', '/', '/'];
    proof {
        assert(v@.subrange(0, n as int) =~= v@);
    }
    has_prefix_at(&v, 0, n, &https) || has_prefix_at(&v, 0, n, &http)
}

/// Convert a char index to a byte offset in `s` (the length of `s` for an
/// index at or past its end).
pub fn char_idx_to_byte(s: &str, char_idx: usize) -> (b: usize)
    ensures
        b == byte_len(s@.take(if char_idx < s@.len() { char_idx as int } else { s@.len() as int })),
{
    let nbytes = s.as_bytes().len();
    proof {
        assert(byte_len(s@) == nbytes);
    }
    let v = chars_of(s);
    let k = if char_idx < v.len() {
        char_idx
    } else {
        v.len()
    };
    byte_offset_of(&v, k)
}

// ---------------------------------------------------------------------------
// Buffer edits
// ---------------------------------------------------------------------------

/// A cursor's character position in `b`, clamped to its end.
pub open spec fn clamp_cursor(b: Seq<char>, c: int) -> int {
    if c < b.len() {
        c
    } else {
        b.len() as int
    }
}

/// The buffer after Enter at character position `cursor` of `b` (see
/// `enter_model` for the line before the cursor): a plain newline, a
/// newline and the list prefix, or, on an empty item, the line cut back to
/// its indentation and ended.
pub open spec fn enter_edit(b: Seq<char>, cursor: int) -> Seq<char> {
    let c = clamp_cursor(b, cursor);
    let ls = last_nl(b.take(c)) + 1;
    let line = b.subrange(ls, c);
    match enter_model(line) {
        EnterModel::Plain => b.take(c) + seq!['\n'] + b.skip(c),
        EnterModel::Continue(p) => b.take(c) + seq!['\n'] + p + b.skip(c),
        EnterModel::EndList(_) => b.take(ls + ws_prefix(line)) + seq!['\n'] + b.skip(c),
    }
}

/// The line of `b` holding character position `cursor`, as it stands
/// before the cursor (what Enter continues).
pub open spec fn line_before_cursor(b: Seq<char>, cursor: int) -> Seq<char> {
    let c = clamp_cursor(b, cursor);
    b.subrange(last_nl(b.take(c)) + 1, c)
}

/// The buffer after Tab (or Shift+Tab, `outdent`) with the cursor at
/// `cursor`: the whole line under the cursor indented or outdented (see
/// `indent_line`); `None` when the line does not move.
pub open spec fn tab_edit(b: Seq<char>, cursor: int, outdent: bool) -> Option<Seq<char>> {
    let c = clamp_cursor(b, cursor);
    let ls = last_nl(b.take(c)) + 1;
    let le = c + nl_from(b.skip(c));
    let line = b.subrange(ls, le);
    if !is_list_line(line) {
        None
    } else if !outdent {
        Some(b.take(ls) + seq![' ', ' '] + line + b.skip(le))
    } else if has_prefix(line, seq![' ', ' ']) {
        Some(b.take(ls) + line.skip(2) + b.skip(le))
    } else {
        None
    }
}

/// `s` looks like a URL (what `is_probably_url` tests).
pub open spec fn looks_like_url(s: Seq<char>) -> bool {
    has_prefix(s, seq!['h', 't', 't', 'p', 's', ':', '/', '/']) || has_prefix(
        s,
        seq!['h', 't', 't', 'p', ':', '/', '/'],
    )
}

/// Pasting `url` over the selection between character positions `p` and
/// `q` of `b` makes it a Markdown link: `[selection](url)`.
pub open spec fn url_paste_edit(b: Seq<char>, p: int, q: int, url: Seq<char>) -> Seq<char> {
    let lo = clamp_cursor(b, if p < q { p } else { q });
    let hi = clamp_cursor(b, if p < q { q } else { p });
    b.take(lo) + seq!['['] + b.subrange(lo, hi) + seq![']', '('] + url + seq![')'] + b.skip(hi)
}

/// Picking `choice` from the autocomplete list with the cursor at
/// `cursor`: inside an unclosed `[[` the text after it becomes
/// `choice]]`; in a tag being typed the text after `#` becomes `choice `;
/// elsewhere there is nothing to complete (see `ac_model`).
pub open spec fn completion_edit(b: Seq<char>, cursor: int, choice: Seq<char>) -> Option<Seq<char>> {
    let c = clamp_cursor(b, cursor);
    let before = b.take(c);
    let ls = last_nl(before) + 1;
    let lb = before.skip(ls);
    let bp = rfind_pair(lb, '[', '[');
    let hp = rfind_char(lb, '#');
    if bp >= 0 && find_pair(lb.skip(bp + 2), ']', ']') < 0 {
        Some(b.take(ls + bp + 2) + choice + seq![']', ']'] + b.skip(c))
    } else if hp >= 0 && !(lb.len() > 0 && lb[0] == '#') && (hp == 0 || lb[hp - 1] == ' '
        || lb[hp - 1] == '\t') {
        Some(b.take(ls + hp + 1) + choice + seq![' '] + b.skip(c))
    } else {
        None
    }
}

/// Enter at character position `cursor` of `buffer`; see `enter_edit`.
pub fn apply_enter(buffer: &str, cursor: usize) -> (r: String)
    requires
        !enter_overflows(line_before_cursor(buffer@, cursor as int)),
    ensures
        r@ == enter_edit(buffer@, cursor as int),
{
    let nbytes = buffer.as_bytes().len();
    proof {
        assert(byte_len(buffer@) == nbytes);
    }
    let v = chars_of(buffer);
    let c = if cursor < v.len() {
        cursor
    } else {
        v.len()
    };
    let ls = line_start_before(&v, c);
    let line = string_from_range(&v, ls, c);
    proof {
        let b = buffer@;
        crate::text::lemma_encode_utf8_concat(b.take(ls as int), b.subrange(ls as int, c as int));
        assert(b.take(ls as int) + b.subrange(ls as int, c as int) =~= b.take(c as int));
        lemma_byte_len_take_mono(b, c as int, b.len() as int);
        assert(b.take(b.len() as int) =~= b);
    }
    let action = enter_action(line.as_str());
    let mut out: Vec<char> = Vec::new();
    match action {
        EnterAction::Plain => {
            extend_range(&mut out, &v, 0, c);
            out.push('\n');
        },
        EnterAction::Continue(prefix) => {
            extend_range(&mut out, &v, 0, c);
            out.push('\n');
            extend_str(&mut out, prefix.as_str());
        },
        EnterAction::EndList { .. } => {
            let w = leading_ws(&v, ls, c);
            extend_range(&mut out, &v, 0, ls + w);
            out.push('\n');
        },
    }
    extend_range(&mut out, &v, c, v.len());
    proof {
        let b = buffer@;
        assert(b.subrange(0, c as int) =~= b.take(c as int));
        assert(b.subrange(c as int, b.len() as int) =~= b.skip(c as int));
        assert(b.subrange(0, ls as int + ws_prefix(b.subrange(ls as int, c as int))) =~= b.take(ls as int + ws_prefix(b.subrange(ls as int, c as int))));
        assert(out@ =~= enter_edit(b, cursor as int));
    }
    string_from_chars(&out)
}

/// Tab / Shift+Tab at character position `cursor` of `buffer`; see
/// `tab_edit`.
pub fn apply_tab(buffer: &str, cursor: usize, outdent: bool) -> (r: Option<String>)
    ensures
        r is None <==> tab_edit(buffer@, cursor as int, outdent) is None,
        r matches Some(s) ==> tab_edit(buffer@, cursor as int, outdent) == Some(s@),
{
    let v = chars_of(buffer);
    let c = if cursor < v.len() {
        cursor
    } else {
        v.len()
    };
    let ls = line_start_before(&v, c);
    let le = find_nl(&v, c, v.len());
    proof {
        let t = buffer@.skip(c as int);
        assert forall|j: int| 0 <= j < le - c implies #[trigger] t[j] != '\n' by {
            assert(t[j] == v@[c + j]);
        }
        if le < v.len() {
            assert(t[le - c] == v@[le as int]);
        }
        lemma_nl_from_is(t, le - c);
    }
    let line = string_from_range(&v, ls, le);
    match indent_line(line.as_str(), outdent) {
        Some(new_line) => {
            let mut out: Vec<char> = Vec::new();
            extend_range(&mut out, &v, 0, ls);
            extend_str(&mut out, new_line.as_str());
            extend_range(&mut out, &v, le, v.len());
            proof {
                let b = buffer@;
                assert(b.subrange(0, ls as int) =~= b.take(ls as int));
                assert(b.subrange(le as int, b.len() as int) =~= b.skip(le as int));
                assert(Some(out@) == tab_edit(b, cursor as int, outdent));
            }
            Some(string_from_chars(&out))
        },
        None => None,
    }
}

/// A paste of `pasted` while the characters between positions `p` and `q`
/// of `buffer` are selected: a URL pasted over a non-empty selection
/// becomes a Markdown link (see `url_paste_edit`); `None` otherwise (the
/// paste proceeds as usual).
pub fn apply_url_paste(buffer: &str, p: usize, q: usize, pasted: &str) -> (r: Option<String>)
    ensures
        (p == q || !looks_like_url(pasted@)) ==> r is None,
        (p != q && looks_like_url(pasted@)) ==> (r matches Some(s) && s@ == url_paste_edit(buffer@, p as int, q as int, pasted@)),
{
    if p == q || !is_probably_url(pasted) {
        return None;
    }
    let v = chars_of(buffer);
    let n = v.len();
    let lo0 = if p < q {
        p
    } else {
        q
    };
    let hi0 = if p < q {
        q
    } else {
        p
    };
    let lo = if lo0 < n {
        lo0
    } else {
        n
    };
    let hi = if hi0 < n {
        hi0
    } else {
        n
    };
    let mut out: Vec<char> = Vec::new();
    extend_range(&mut out, &v, 0, lo);
    out.push('[');
    extend_range(&mut out, &v, lo, hi);
    out.push(']');
    out.push('(');
    extend_str(&mut out, pasted);
    out.push(')');
    extend_range(&mut out, &v, hi, n);
    proof {
        let b = buffer@;
        assert(b.subrange(0, lo as int) =~= b.take(lo as int));
        assert(b.subrange(hi as int, b.len() as int) =~= b.skip(hi as int));
        assert(out@ =~= url_paste_edit(b, p as int, q as int, pasted@));
    }
    Some(string_from_chars(&out))
}

/// Picking `choice` from the autocomplete list with the cursor at
/// character position `cursor` of `buffer`; see `completion_edit`.
pub fn apply_completion(buffer: &str, cursor: usize, choice: &str) -> (r: Option<String>)
    ensures
        r is None <==> completion_edit(buffer@, cursor as int, choice@) is None,
        r matches Some(s) ==> completion_edit(buffer@, cursor as int, choice@) == Some(s@),
{
    let v = chars_of(buffer);
    let c = if cursor < v.len() {
        cursor
    } else {
        v.len()
    };
    let ls = line_start_before(&v, c);
    proof {
        let b = buffer@;
        assert(b.take(c as int).skip(ls as int) =~= v@.subrange(ls as int, c as int));
    }
    let mut out: Vec<char> = Vec::new();
    if let Some(bp) = open_link_in(&v, ls, c) {
        extend_range(&mut out, &v, 0, bp + 2);
        extend_str(&mut out, choice);
        out.push(']');
        out.push(']');
    } else if let Some(hp) = open_tag_in(&v, ls, c) {
        extend_range(&mut out, &v, 0, hp + 1);
        extend_str(&mut out, choice);
        out.push(' ');
    } else {
        return None;
    }
    extend_range(&mut out, &v, c, v.len());
    proof {
        let b = buffer@;
        assert(b.subrange(c as int, b.len() as int) =~= b.skip(c as int));
        assert(b.subrange(0, out@.len() as int) == b.subrange(0, out@.len() as int));
        let before = b.take(c as int);
        let lb = before.skip(ls as int);
        let bpp = rfind_pair(lb, '[', '[');
        let hpp = rfind_char(lb, '#');
        if bpp >= 0 && find_pair(lb.skip(bpp + 2), ']', ']') < 0 {
            assert(b.subrange(0, ls + bpp + 2) =~= b.take(ls + bpp + 2));
        } else {
            assert(b.subrange(0, ls + hpp + 1) =~= b.take(ls + hpp + 1));
        }
        assert(Some(out@) == completion_edit(b, cursor as int, choice@));
    }
    Some(string_from_chars(&out))
}

/// An open card editor: the note, its buffer, and whether the buffer has
/// unsaved edits.
pub struct EditorState {
    pub id: NoteId,
    pub buffer: String,
    pub dirty: bool,
    pub undo: TextUndo,
    /// The text field grabs keyboard focus on the next frame.
    pub needs_focus: bool,
    /// The highlighted autocomplete entry.
    pub ac_selected: usize,
    /// When the buffer was last edited (milliseconds on the app's clock).
    pub last_edit: Option<u64>,
    /// When the buffer was last written to the recovery journal.
    pub last_journaled: Option<u64>,
}

impl EditorState {
    /// A fresh editor for `id` holding `body`: clean, focus pending, first
    /// autocomplete entry highlighted.
    pub fn open(id: NoteId, body: String) -> (e: EditorState)
        ensures
            e.id == id,
            e.buffer@ == body@,
            !e.dirty,
            e.needs_focus,
            e.ac_selected == 0,
            e.last_edit is None,
            e.last_journaled is None,
    {
        let undo = TextUndo::new(body.as_str());
        EditorState {
            id,
            buffer: body,
            dirty: false,
            undo,
            needs_focus: true,
            ac_selected: 0,
            last_edit: None,
            last_journaled: None,
        }
    }

    /// Replace the buffer after an edit; it now has unsaved changes.
    pub fn set_buffer(&mut self, text: String)
        ensures
            final(self).buffer@ == text@,
            final(self).dirty,
            final(self).id == old(self).id,
            final(self).needs_focus == old(self).needs_focus,
            final(self).ac_selected == old(self).ac_selected,
            final(self).last_edit == old(self).last_edit,
            final(self).last_journaled == old(self).last_journaled,
    {
        self.buffer = text;
        self.dirty = true;
    }
}

/// What the editor asks of the caller after a frame.
#[derive(Debug, Clone, Copy, PartialEq, Eq, Structural)]
pub enum EditorEvent {
    KeepOpen,
    /// Ctrl+Enter, Esc or a click on the backdrop: save and close.
    CloseAndSave,
}

/// The outcome of one editor frame.
#[derive(Debug)]
pub struct EditorTick {
    pub event: EditorEvent,
    /// Write this buffer to the recovery journal.
    pub journal_buffer: Option<String>,
    /// Send this save (the autosave).
    pub save: Option<VaultOp>,
}

/// Milliseconds from `from` to `now` (none when the clock went back).
pub open spec fn elapsed_ms(from: u64, now: u64) -> int {
    if now >= from {
        now - from
    } else {
        0
    }
}

/// Milliseconds from `from` to `now`.
fn elapsed(from: u64, now: u64) -> (r: u64)
    ensures
        r == elapsed_ms(from, now),
{
    if now >= from {
        now - from
    } else {
        0
    }
}

/// One editor frame at time `now` (milliseconds). `changed`: the buffer was
/// edited this frame; it becomes dirty, the edit time is `now`, and it is
/// written to the recovery journal when it never was or more than two
/// seconds ago. A dirty buffer last edited more than a second ago is
/// autosaved (a save of the buffer, sent as a user operation) and is clean
/// again; the editor stays open. Ctrl+Enter, Esc or a backdrop click
/// (`should_close`) ask to save and close.
pub fn editor_tick(ed: &mut EditorState, changed: bool, now: u64, ctrl_enter: bool, should_close: bool) -> (t: EditorTick)
    ensures
        ({
            let le = if changed { Some(now) } else { old(ed).last_edit };
            let journal = changed && match old(ed).last_journaled {
                Some(j) => elapsed_ms(j, now) > 2000,
                None => true,
            };
            let dirty = old(ed).dirty || changed;
            let save = dirty && match le {
                Some(e) => elapsed_ms(e, now) > 1000,
                None => false,
            };
            &&& final(ed).id == old(ed).id
            &&& final(ed).buffer@ == old(ed).buffer@
            &&& final(ed).needs_focus == old(ed).needs_focus
            &&& final(ed).ac_selected == old(ed).ac_selected
            &&& final(ed).last_edit == le
            &&& final(ed).last_journaled == (if journal { Some(now) } else { old(ed).last_journaled })
            &&& final(ed).dirty == (dirty && !save)
            &&& (t.journal_buffer is Some <==> journal)
            &&& t.journal_buffer matches Some(b) ==> b@ == old(ed).buffer@
            &&& (t.save is Some <==> save)
            &&& t.save matches Some(op) ==> (op matches VaultOp::SaveBody { id, content } && id
                == old(ed).id && content@ == old(ed).buffer@)
            &&& t.event == (if ctrl_enter || should_close {
                EditorEvent::CloseAndSave
            } else {
                EditorEvent::KeepOpen
            })
        }),
{
    let mut journal_buffer = None;
    if changed {
        ed.dirty = true;
        ed.last_edit = Some(now);
        let due = match ed.last_journaled {
            Some(j) => elapsed(j, now) > 2000,
            None => true,
        };
        if due {
            journal_buffer = Some(ed.buffer.clone());
            ed.last_journaled = Some(now);
        }
    }
    let mut save = None;
    if ed.dirty {
        if let Some(e) = ed.last_edit {
            if elapsed(e, now) > 1000 {
                save = Some(VaultOp::SaveBody { id: ed.id, content: ed.buffer.clone() });
                ed.dirty = false;
            }
        }
    }
    let event = if ctrl_enter || should_close {
        EditorEvent::CloseAndSave
    } else {
        EditorEvent::KeepOpen
    };
    EditorTick { event, journal_buffer, save }
}

/// Opening the editor for card `id` while the editor shows `current`.
/// Asking again for the card already open changes nothing. Otherwise the
/// promotion wish joins the stash (a `true` is never lost to a later
/// `false`) and the body is fetched through `cache`, a read being asked
/// for at most once. If the body is loaded and no editor is open, a fresh
/// editor is returned with the stashed wish, which is then cleared.
pub fn open_card_editor(
    current: Option<NoteId>,
    id: NoteId,
    promote: bool,
    stash: &mut bool,
    cache: &mut BodyCache,
    requests: &mut Vec<NoteId>,
) -> (opened: Option<(EditorState, bool)>)
    ensures
        current == Some(id) ==> {
            &&& opened is None
            &&& *final(stash) == *old(stash)
            &&& final(cache)@ == old(cache)@
            &&& final(requests)@ == old(requests)@
        },
        current != Some(id) ==> {
            let wish = *old(stash) || promote;
            let loaded = old(cache)@.bodies.contains_key(id.0);
            &&& final(cache)@ == request_step(old(cache)@, id).0
            &&& final(requests)@ == (if request_step(old(cache)@, id).1 {
                old(requests)@.push(id)
            } else {
                old(requests)@
            })
            &&& (opened is Some <==> loaded && current is None)
            &&& opened matches Some((e, p)) ==> {
                &&& e.id == id
                &&& e.buffer@ == old(cache)@.bodies[id.0]
                &&& !e.dirty
                &&& e.needs_focus
                &&& e.ac_selected == 0
                &&& p == wish
            }
            &&& *final(stash) == (wish && opened is None)
        },
{
    if current == Some(id) {
        return None;
    }
    *stash = *stash || promote;
    let body = match cache.get_or_request(id, requests) {
        Some(b) => Some(b.text.clone()),
        None => None,
    };
    match body {
        Some(text) => {
            if current.is_none() {
                let wish = *stash;
                *stash = false;
                Some((EditorState::open(id, text), wish))
            } else {
                None
            }
        },
        None => None,
    }
}

// ---------------------------------------------------------------------------
// Lexing limits
// ---------------------------------------------------------------------------

/// Lines longer than this many bytes are styled only up to it; the rest is
/// plain text.
pub const MAX_LEXED_LINE_BYTES: usize = 8192;

/// Where a line's styled head ends: `None` when the whole line (at most
/// `MAX_LEXED_LINE_BYTES` bytes) is styled, else the last character
/// boundary at or before that many bytes.
pub fn lex_cut(line: &str) -> (r: Option<usize>)
    ensures
        byte_len(line@) <= MAX_LEXED_LINE_BYTES ==> r is None,
        byte_len(line@) > MAX_LEXED_LINE_BYTES ==> (r matches Some(cut) && cut <= MAX_LEXED_LINE_BYTES
            && is_boundary(line@, cut as int) && forall|b: int| cut < b <= MAX_LEXED_LINE_BYTES
            ==> !is_boundary(line@, b)),
{
    let v = chars_of(line);
    let n = v.len();
    let mut i: usize = 0;
    let mut acc: usize = 0;
    proof {
        assert(v@.take(0) =~= Seq::<char>::empty());
    }
    while i < n && acc + crate::text::utf8_width(v[i]) <= MAX_LEXED_LINE_BYTES
        invariant
            i <= n == v@.len(),
            v@ == line@,
            acc == byte_len(v@.take(i as int)),
            acc <= MAX_LEXED_LINE_BYTES,
        decreases n - i,
    {
        proof {
            crate::text::lemma_byte_len_take_succ(v@, i as int);
        }
        acc = acc + crate::text::utf8_width(v[i]);
        i = i + 1;
    }
    if i == n {
        proof {
            assert(v@.take(n as int) =~= v@);
        }
        return None;
    }
    proof {
        crate::text::lemma_byte_len_take_succ(v@, i as int);
        assert(v@.take(n as int) =~= v@);
        lemma_byte_len_take_mono(v@, i + 1, n as int);
        assert forall|b: int| acc < b <= MAX_LEXED_LINE_BYTES implies !is_boundary(line@, b) by {
            if is_boundary(line@, b) {
                let k = choose|k: int| 0 <= k <= line@.len() && byte_len(line@.take(k)) == b;
                if k <= i {
                    lemma_byte_len_take_mono(v@, k, i as int);
                } else {
                    lemma_byte_len_take_mono(v@, i + 1, k);
                }
            }
        }
    }
    Some(acc)
}

/// The heading level a line's `#` run gives: its length, between 1 and 3.
pub fn heading_level(line: &str) -> (level: u8)
    ensures
        level as int == (if hash_run(line@) < 1 { 1 } else if hash_run(line@) > 3 { 3 } else { hash_run(line@) as int }),
{
    let v = chars_of(line);
    let mut i: usize = 0;
    while i < v.len() && v[i] == '#'
        invariant
            i <= v@.len(),
            v@ == line@,
            forall|j: int| 0 <= j < i ==> v@[j] == '#',
        decreases v@.len() - i,
    {
        i = i + 1;
    }
    proof {
        lemma_hash_run_is(line@, i as int);
    }
    if i < 1 {
        1
    } else if i > 3 {
        3
    } else {
        i as u8
    }
}

/// Tab then Shift+Tab on a list line gives the line back: indenting keeps
/// it a list line, and outdenting removes exactly the two spaces added.
pub proof fn lemma_indent_then_outdent(line: Seq<char>)
    requires
        is_list_line(line),
    ensures
        is_list_line(seq![' ', ' '] + line),
        has_prefix(seq![' ', ' '] + line, seq![' ', ' ']),
        (seq![' ', ' '] + line).skip(2) == line,
{
    let l2 = seq![' ', ' '] + line;
    lemma_ws_prefix(line);
    let w = ws_prefix(line) as int;
    assert forall|j: int| 0 <= j < w + 2 implies is_ws(#[trigger] l2[j]) by {
        if j >= 2 {
            assert(l2[j] == line[j - 2]);
        }
    }
    if w + 2 < l2.len() {
        assert(l2[w + 2] == line[w]);
    }
    crate::text::lemma_ws_prefix_is(l2, w + 2);
    assert(trim_start(l2) =~= trim_start(line));
    assert(l2.take(2) =~= seq![' ', ' ']);
    assert(l2.skip(2) =~= line);
}

/// Length of the list marker that `t` (a line without its indentation)
/// starts with, in the order Enter tries them: `> `, a task box, `- `,
/// `N. `; zero when there is none.
pub open spec fn marker_len(t: Seq<char>) -> int {
    if has_prefix(t, seq!['>', ' ']) {
        2
    } else if has_prefix(t, seq!['-', ' ', '[', ' ', ']', ' ']) || has_prefix(
        t,
        seq!['-', ' ', '[', 'x', ']', ' '],
    ) {
        6
    } else if has_prefix(t, seq!['-', ' ']) {
        2
    } else if ordered_number(t) is Some {
        find_pair(t, '.', ' ') + 2
    } else {
        0
    }
}

/// Enter on a list line: an item with nothing after its marker ends the
/// list from the end of the indentation; any other item continues with a
/// prefix that repeats the indentation and ends in a space; a line with
/// no marker gets a plain newline.
pub proof fn lemma_enter_shape(line: Seq<char>)
    ensures
        ({
            let w = ws_prefix(line) as int;
            let t = trim_start(line);
            let m = marker_len(t);
            &&& (enter_model(line) is Plain <==> m == 0)
            &&& (enter_model(line) matches EnterModel::EndList(s) ==> m > 0 && all_ws(t.skip(m))
                && s == byte_len(line.take(w)))
            &&& (enter_model(line) matches EnterModel::Continue(p) ==> m > 0 && !all_ws(t.skip(m))
                && p.len() > w && p.take(w) == line.take(w) && p.last() == ' ')
            &&& (m > 0 && all_ws(t.skip(m)) ==> enter_model(line) is EndList)
            &&& (m > 0 && !all_ws(t.skip(m)) ==> enter_model(line) is Continue)
        }),
{
    let w = ws_prefix(line) as int;
    let t = trim_start(line);
    lemma_ws_prefix(line);
    lemma_find_pair(t, '.', ' ');
    if let EnterModel::Continue(p) = enter_model(line) {
        let indent = line.take(w);
        assert(p.take(w) =~= indent);
    }
}

/// The autocomplete context names what is being typed on the cursor's
/// line: a link query is the text after an unclosed `[[`, with no `]]` and
/// no newline in it; a tag query is the text after a `#` that follows a
/// space or a tab, with no newline in it. `start` is the byte offset of the
/// `[[` or the `#`.
pub proof fn lemma_ac_shape(b: Seq<char>, k: int)
    requires
        0 <= k <= b.len(),
    ensures
        ac_model(b, k) matches AcModel::Link { start, query } ==> exists|p: int|
            0 <= p && p + 2 <= k && #[trigger] b[p] == '[' && b[p + 1] == '[' && start == byte_len(
                b.take(p),
            ) && query == b.subrange(p + 2, k) && find_pair(query, ']', ']') < 0 && (forall|i: int|
                0 <= i < query.len() ==> query[i] != '\n'),
        ac_model(b, k) matches AcModel::Tag { start, query } ==> exists|p: int|
            0 < p && p + 1 <= k && #[trigger] b[p] == '#' && (b[p - 1] == ' ' || b[p - 1] == '\t')
                && start == byte_len(b.take(p)) && query == b.subrange(p + 1, k) && (forall|i: int|
                0 <= i < query.len() ==> query[i] != '\n'),
{
    let before = b.take(k);
    let ls = last_nl(before) + 1;
    let lb = before.skip(ls);
    lemma_last_nl(before);
    lemma_rfind_pair(lb, '[', '[');
    lemma_rfind_char(lb, '#');
    let bp = rfind_pair(lb, '[', '[');
    let hp = rfind_char(lb, '#');
    assert forall|i: int| 0 <= i < lb.len() implies lb[i] != '\n' by {
        assert(lb[i] == before[ls + i]);
    }
    if let AcModel::Link { start, query } = ac_model(b, k) {
        let p = ls + bp;
        assert(pair_at(lb, bp, '[', '['));
        assert(b[p] == lb[bp]);
        assert(b[p + 1] == lb[bp + 1]);
        assert(query =~= b.subrange(p + 2, k));
        assert(b.take(p) =~= b.take(ls + bp));
        assert forall|i: int| 0 <= i < query.len() implies query[i] != '\n' by {
            assert(query[i] == lb[bp + 2 + i]);
        }
    }
    if let AcModel::Tag { start, query } = ac_model(b, k) {
        let p = ls + hp;
        assert(hp != 0);
        assert(b[p] == lb[hp]);
        assert(b[p - 1] == lb[hp - 1]);
        assert(query =~= b.subrange(p + 1, k));
        assert forall|i: int| 0 <= i < query.len() implies query[i] != '\n' by {
            assert(query[i] == lb[hp + 1 + i]);
        }
    }
}

} // verus!
