//! Character-level model of text.
//!
//! Text is modelled as its sequence of Unicode scalar values (`Seq<char>`,
//! the view Verus gives `str` and `String`). Lines are the pieces between
//! `'\n'` characters, exactly as `str::split('\n')` yields them: an empty
//! text has one empty line and a trailing newline opens a final empty line.
//! Byte offsets, where an API speaks of them, are UTF-8 offsets and are
//! stated through vstd's `encode_utf8`.
use vstd::prelude::*;
use vstd::utf8::*;

verus! {

// ---------------------------------------------------------------------------
// Whitespace
// ---------------------------------------------------------------------------

/// Unicode `White_Space`, the property `char::is_whitespace` tests.
pub open spec fn is_ws(c: char) -> bool {
    ||| c == '\t' || c == '\n' || c == '\u{0B}' || c == '\u{0C}' || c == '\r'
    ||| c == ' ' || c == '\u{85}' || c == '\u{A0}' || c == '\u{1680}'
    ||| ('\u{2000}' <= c && c <= '\u{200A}')
    ||| c == '\u{2028}' || c == '\u{2029}' || c == '\u{202F}' || c == '\u{205F}'
    ||| c == '\u{3000}'
}

/// Executable `is_ws`.
pub fn is_whitespace(c: char) -> (b: bool)
    ensures
        b == is_ws(c),
{
    c == '\t' || c == '\n' || c == '\u{0B}' || c == '\u{0C}' || c == '\r' || c == ' '
        || c == '\u{85}' || c == '\u{A0}' || c == '\u{1680}' || ('\u{2000}' <= c && c
        <= '\u{200A}') || c == '\u{2028}' || c == '\u{2029}' || c == '\u{202F}' || c
        == '\u{205F}' || c == '\u{3000}'
}

/// Number of leading whitespace characters of `s` (what `trim_start` drops).
pub open spec fn ws_prefix(s: Seq<char>) -> nat
    decreases s.len(),
{
    if s.len() > 0 && is_ws(s[0]) {
        1 + ws_prefix(s.drop_first())
    } else {
        0
    }
}

/// `s.trim_start()`.
pub open spec fn trim_start(s: Seq<char>) -> Seq<char> {
    s.skip(ws_prefix(s) as int)
}

/// Every character of `s` is whitespace (`s.trim().is_empty()`).
pub open spec fn all_ws(s: Seq<char>) -> bool {
    forall|i: int| 0 <= i < s.len() ==> is_ws(#[trigger] s[i])
}

/// The leading whitespace run: within `s`, all whitespace, and followed by
/// a non-whitespace character when it stops early.
pub proof fn lemma_ws_prefix(s: Seq<char>)
    ensures
        ws_prefix(s) <= s.len(),
        forall|j: int| 0 <= j < ws_prefix(s) ==> is_ws(#[trigger] s[j]),
        ws_prefix(s) < s.len() ==> !is_ws(s[ws_prefix(s) as int]),
    decreases s.len(),
{
    if s.len() > 0 && is_ws(s[0]) {
        lemma_ws_prefix(s.drop_first());
        assert forall|j: int| 0 <= j < ws_prefix(s) implies is_ws(#[trigger] s[j]) by {
            if j > 0 {
                assert(s[j] == s.drop_first()[j - 1]);
            }
        }
    }
}

/// `ws_prefix` is determined by where the first non-whitespace character is.
pub proof fn lemma_ws_prefix_is(s: Seq<char>, n: int)
    requires
        0 <= n <= s.len(),
        forall|j: int| 0 <= j < n ==> is_ws(#[trigger] s[j]),
        n < s.len() ==> !is_ws(s[n]),
    ensures
        ws_prefix(s) == n,
    decreases s.len(),
{
    if n > 0 {
        assert(is_ws(s[0]));
        assert forall|j: int| 0 <= j < n - 1 implies is_ws(#[trigger] s.drop_first()[j]) by {
            assert(s.drop_first()[j] == s[j + 1]);
        }
        if n - 1 < s.len() - 1 {
            assert(s.drop_first()[n - 1] == s[n]);
        }
        lemma_ws_prefix_is(s.drop_first(), n - 1);
    }
}

/// `s` is all whitespace exactly when its leading run is all of it.
pub proof fn lemma_all_ws_iff(s: Seq<char>)
    ensures
        all_ws(s) <==> ws_prefix(s) == s.len(),
{
    lemma_ws_prefix(s);
}

/// Length of the run of whitespace in `v[start..end]` that starts at `start`.
pub fn leading_ws(v: &Vec<char>, start: usize, end: usize) -> (n: usize)
    requires
        start <= end <= v.len(),
    ensures
        n == ws_prefix(v@.subrange(start as int, end as int)),
        start + n <= end,
{
    let mut i = start;
    while i < end && is_whitespace(v[i])
        invariant
            start <= i <= end <= v.len(),
            forall|j: int| start <= j < i ==> is_ws(#[trigger] v@[j]),
        decreases end - i,
    {
        i = i + 1;
    }
    proof {
        let s = v@.subrange(start as int, end as int);
        assert forall|j: int| 0 <= j < i - start implies is_ws(#[trigger] s[j]) by {
            assert(s[j] == v@[start + j]);
        }
        if i < end {
            assert(s[i - start] == v@[i as int]);
        }
        lemma_ws_prefix_is(s, i - start);
    }
    i - start
}

// ---------------------------------------------------------------------------
// Lines
// ---------------------------------------------------------------------------

/// Index of the last `'\n'` in `s`, or -1 when there is none.
pub open spec fn last_nl(s: Seq<char>) -> int
    decreases s.len(),
{
    if s.len() == 0 {
        -1
    } else if s.last() == '\n' {
        s.len() - 1
    } else {
        last_nl(s.drop_last())
    }
}

/// The last line of `s`: everything after its last `'\n'`.
pub open spec fn last_line(s: Seq<char>) -> Seq<char> {
    s.skip(last_nl(s) + 1)
}

/// `s` without its last line and the `'\n'` before it (meaningful when
/// `s` has more than one line).
pub open spec fn init_lines(s: Seq<char>) -> Seq<char> {
    s.take(last_nl(s))
}

/// `last_nl` is -1 or the index of a newline with none after it.
pub proof fn lemma_last_nl(s: Seq<char>)
    ensures
        -1 <= last_nl(s) < s.len(),
        last_nl(s) >= 0 ==> s[last_nl(s)] == '\n',
        forall|i: int| last_nl(s) < i < s.len() ==> #[trigger] s[i] != '\n',
    decreases s.len(),
{
    if s.len() > 0 && s.last() != '\n' {
        lemma_last_nl(s.drop_last());
        assert forall|i: int| last_nl(s) < i < s.len() implies #[trigger] s[i] != '\n' by {
            if i < s.len() - 1 {
                assert(s.drop_last()[i] == s[i]);
            }
        }
    }
}

/// The last newline of `s` is at `k` when `s[k]` is one and none follows.
pub proof fn lemma_last_nl_is(s: Seq<char>, k: int)
    requires
        -1 <= k < s.len(),
        k >= 0 ==> s[k] == '\n',
        forall|i: int| k < i < s.len() ==> #[trigger] s[i] != '\n',
    ensures
        last_nl(s) == k,
    decreases s.len(),
{
    if s.len() > 0 && s.last() != '\n' {
        assert forall|i: int| k < i < s.drop_last().len() implies #[trigger] s.drop_last()[i]
            != '\n' by {
            assert(s.drop_last()[i] == s[i]);
        }
        if k >= 0 {
            assert(s.drop_last()[k] == s[k]);
        }
        lemma_last_nl_is(s.drop_last(), k);
    }
}

/// First index `>= start` holding `'\n'` in `v[..end]`, or `end`.
pub fn find_nl(v: &Vec<char>, start: usize, end: usize) -> (e: usize)
    requires
        start <= end <= v.len(),
    ensures
        start <= e <= end,
        e < end ==> v@[e as int] == '\n',
        forall|i: int| start <= i < e ==> #[trigger] v@[i] != '\n',
{
    let mut i = start;
    while i < end && v[i] != '\n'
        invariant
            start <= i <= end <= v.len(),
            forall|j: int| start <= j < i ==> #[trigger] v@[j] != '\n',
        decreases end - i,
    {
        i = i + 1;
    }
    i
}

// ---------------------------------------------------------------------------
// Conversions between `str`/`String` and character vectors
// ---------------------------------------------------------------------------

/// Appends one character to `s` (`String::push`).
#[verifier::external_body]
pub(crate) fn push_char(s: &mut String, c: char)
    ensures
        final(s)@ == old(s)@.push(c),
{
    s.push(c);
}

/// The characters of `s`, in order.
pub fn chars_of(s: &str) -> (v: Vec<char>)
    ensures
        v@ == s@,
{
    let mut v: Vec<char> = Vec::new();
    for c in it: s.chars()
        invariant
            v@ == it.seq().take(it.index() as int),
            it.seq() == s@,
    {
        v.push(c);
    }
    v
}

/// The string made of the characters of `v`.
pub fn string_from_chars(v: &Vec<char>) -> (s: String)
    ensures
        s@ == v@,
{
    let mut s = String::new();
    let mut i: usize = 0;
    while i < v.len()
        invariant
            i <= v.len(),
            s@ == v@.take(i as int),
        decreases v.len() - i,
    {
        push_char(&mut s, v[i]);
        i = i + 1;
        assert(s@ == v@.take(i as int));
    }
    assert(v@.take(v.len() as int) == v@);
    s
}

/// The string made of the characters `v[start..end]`.
pub fn string_from_range(v: &Vec<char>, start: usize, end: usize) -> (s: String)
    requires
        start <= end <= v.len(),
    ensures
        s@ == v@.subrange(start as int, end as int),
{
    let mut s = String::new();
    let mut i: usize = start;
    while i < end
        invariant
            start <= i <= end <= v.len(),
            s@ == v@.subrange(start as int, i as int),
        decreases end - i,
    {
        push_char(&mut s, v[i]);
        i = i + 1;
        assert(s@ == v@.subrange(start as int, i as int));
    }
    s
}

/// Appends `v[start..end]` to `out`.
pub fn extend_range(out: &mut Vec<char>, v: &Vec<char>, start: usize, end: usize)
    requires
        start <= end <= v.len(),
    ensures
        final(out)@ == old(out)@ + v@.subrange(start as int, end as int),
{
    let mut i: usize = start;
    while i < end
        invariant
            start <= i <= end <= v.len(),
            out@ == old(out)@ + v@.subrange(start as int, i as int),
        decreases end - i,
    {
        out.push(v[i]);
        i = i + 1;
        assert(out@ == old(out)@ + v@.subrange(start as int, i as int));
    }
}

// ---------------------------------------------------------------------------
// UTF-8 byte lengths
// ---------------------------------------------------------------------------

/// Number of bytes of the UTF-8 encoding of `s` (what `str::len` reports).
pub open spec fn byte_len(s: Seq<char>) -> nat {
    encode_utf8(s).len()
}

/// The UTF-8 length of a concatenation is the sum of the lengths.
pub proof fn lemma_encode_utf8_concat(a: Seq<char>, b: Seq<char>)
    ensures
        encode_utf8(a + b) == encode_utf8(a) + encode_utf8(b),
    decreases a.len(),
{
    if a.len() == 0 {
        assert(a + b =~= b);
    } else {
        assert((a + b).drop_first() =~= a.drop_first() + b);
        lemma_encode_utf8_concat(a.drop_first(), b);
        assert((a + b)[0] == a[0]);
    }
}

/// One more character adds its UTF-8 width.
pub proof fn lemma_byte_len_push(s: Seq<char>, c: char)
    ensures
        byte_len(s.push(c)) == byte_len(s) + encode_scalar(c as u32).len(),
{
    lemma_encode_utf8_concat(s, seq![c]);
    assert(s.push(c) =~= s + seq![c]);
    assert(seq![c].drop_first() =~= Seq::<char>::empty());
    assert(encode_utf8(seq![c]) == encode_scalar(c as u32) + encode_utf8(Seq::<char>::empty()));
    assert(encode_utf8(seq![c]) =~= encode_scalar(c as u32));
}

/// UTF-8 width of `c`.
pub fn utf8_width(c: char) -> (w: usize)
    ensures
        w == encode_scalar(c as u32).len(),
        1 <= w <= 4,
{
    let u = c as u32;
    if u <= 0x7F {
        1
    } else if u <= 0x7FF {
        2
    } else if u <= 0xFFFF {
        3
    } else {
        4
    }
}

} // verus!

verus! {

/// Taking the prefix of `v` that ends a line starting at `ls` exposes that
/// line as the last one.
pub proof fn lemma_line_step(v: Seq<char>, ls: int, e: int)
    requires
        0 <= ls <= e <= v.len(),
        ls > 0 ==> v[ls - 1] == '\n',
        forall|i: int| ls <= i < e ==> #[trigger] v[i] != '\n',
    ensures
        last_nl(v.take(e)) == ls - 1,
        last_line(v.take(e)) == v.subrange(ls, e),
        ls > 0 ==> init_lines(v.take(e)) == v.take(ls - 1),
{
    let q = v.take(e);
    assert forall|i: int| ls - 1 < i < q.len() implies #[trigger] q[i] != '\n' by {
        assert(q[i] == v[i]);
    }
    lemma_last_nl_is(q, ls - 1);
    assert(last_line(q) =~= v.subrange(ls, e));
    if ls > 0 {
        assert(init_lines(q) =~= v.take(ls - 1));
    }
}

} // verus!

verus! {

// ---------------------------------------------------------------------------
// Searching
// ---------------------------------------------------------------------------

/// `s` starts with `p`.
pub open spec fn has_prefix(s: Seq<char>, p: Seq<char>) -> bool {
    p.len() <= s.len() && s.take(p.len() as int) == p
}

/// The two characters `a b` occur in `s` at index `i`.
pub open spec fn pair_at(s: Seq<char>, i: int, a: char, b: char) -> bool {
    0 <= i && i + 1 < s.len() && s[i] == a && s[i + 1] == b
}

/// Index of the first occurrence of `a b` in `s` (`str::find`), or -1.
pub open spec fn find_pair(s: Seq<char>, a: char, b: char) -> int
    decreases s.len(),
{
    if s.len() < 2 {
        -1
    } else if find_pair(s.drop_last(), a, b) >= 0 {
        find_pair(s.drop_last(), a, b)
    } else if pair_at(s, s.len() - 2, a, b) {
        s.len() - 2
    } else {
        -1
    }
}

/// Index of the last occurrence of `a b` in `s` (`str::rfind`), or -1.
pub open spec fn rfind_pair(s: Seq<char>, a: char, b: char) -> int
    decreases s.len(),
{
    if s.len() < 2 {
        -1
    } else if pair_at(s, s.len() - 2, a, b) {
        s.len() - 2
    } else {
        rfind_pair(s.drop_last(), a, b)
    }
}

/// Index of the last occurrence of `c` in `s` (`str::rfind`), or -1.
pub open spec fn rfind_char(s: Seq<char>, c: char) -> int
    decreases s.len(),
{
    if s.len() == 0 {
        -1
    } else if s.last() == c {
        s.len() - 1
    } else {
        rfind_char(s.drop_last(), c)
    }
}

/// `find_pair` is -1 or the first position of the pair.
pub proof fn lemma_find_pair(s: Seq<char>, a: char, b: char)
    ensures
        -1 <= find_pair(s, a, b) < s.len(),
        find_pair(s, a, b) >= 0 ==> pair_at(s, find_pair(s, a, b), a, b),
        forall|i: int|
            #![trigger pair_at(s, i, a, b)]
            (find_pair(s, a, b) < 0 || i < find_pair(s, a, b)) ==> !pair_at(s, i, a, b),
    decreases s.len(),
{
    if s.len() >= 2 {
        let t = s.drop_last();
        lemma_find_pair(t, a, b);
        assert forall|i: int| #![trigger pair_at(s, i, a, b)] pair_at(t, i, a, b) <==> (pair_at(s, i, a, b) && i < s.len() - 2) by {
            if 0 <= i < t.len() {
                assert(t[i] == s[i]);
            }
            if 0 <= i + 1 < t.len() {
                assert(t[i + 1] == s[i + 1]);
            }
        }
    }
}

/// `rfind_pair` is -1 or the last position of the pair.
pub proof fn lemma_rfind_pair(s: Seq<char>, a: char, b: char)
    ensures
        -1 <= rfind_pair(s, a, b) < s.len(),
        rfind_pair(s, a, b) >= 0 ==> pair_at(s, rfind_pair(s, a, b), a, b),
        forall|i: int|
            #![trigger pair_at(s, i, a, b)]
            rfind_pair(s, a, b) < i ==> !pair_at(s, i, a, b),
    decreases s.len(),
{
    if s.len() >= 2 {
        let t = s.drop_last();
        lemma_rfind_pair(t, a, b);
        assert forall|i: int| #![trigger pair_at(s, i, a, b)] pair_at(t, i, a, b) <==> (pair_at(s, i, a, b) && i < s.len() - 2) by {
            if 0 <= i < t.len() {
                assert(t[i] == s[i]);
            }
            if 0 <= i + 1 < t.len() {
                assert(t[i + 1] == s[i + 1]);
            }
        }
    }
}

/// `rfind_char` is -1 or the last position of the character.
pub proof fn lemma_rfind_char(s: Seq<char>, c: char)
    ensures
        -1 <= rfind_char(s, c) < s.len(),
        rfind_char(s, c) >= 0 ==> s[rfind_char(s, c)] == c,
        forall|i: int| rfind_char(s, c) < i < s.len() ==> #[trigger] s[i] != c,
    decreases s.len(),
{
    if s.len() > 0 && s.last() != c {
        let t = s.drop_last();
        lemma_rfind_char(t, c);
        assert forall|i: int| rfind_char(s, c) < i < s.len() implies #[trigger] s[i] != c by {
            if i < t.len() {
                assert(t[i] == s[i]);
            }
        }
    }
}

/// The first occurrence is determined by where the pair occurs.
pub proof fn lemma_find_pair_is(s: Seq<char>, a: char, b: char, j: int)
    requires
        j == -1 || pair_at(s, j, a, b),
        forall|i: int| #![trigger pair_at(s, i, a, b)] (j < 0 || i < j) ==> !pair_at(s, i, a, b),
    ensures
        find_pair(s, a, b) == j,
{
    lemma_find_pair(s, a, b);
    let f = find_pair(s, a, b);
    if f >= 0 && j >= 0 {
        if f < j {
            assert(pair_at(s, f, a, b));
        } else if j < f {
            assert(pair_at(s, j, a, b));
        }
    } else if f >= 0 {
        assert(pair_at(s, f, a, b));
    } else if j >= 0 {
        assert(pair_at(s, j, a, b));
    }
}

/// The last occurrence is determined by where the pair occurs.
pub proof fn lemma_rfind_pair_is(s: Seq<char>, a: char, b: char, j: int)
    requires
        j == -1 || pair_at(s, j, a, b),
        forall|i: int| #![trigger pair_at(s, i, a, b)] j < i ==> !pair_at(s, i, a, b),
    ensures
        rfind_pair(s, a, b) == j,
{
    lemma_rfind_pair(s, a, b);
    let f = rfind_pair(s, a, b);
    if f > j {
        assert(pair_at(s, f, a, b));
    } else if j > f {
        assert(pair_at(s, j, a, b));
    }
}

/// `rfind_char` is determined by where the character last occurs.
pub proof fn lemma_rfind_char_is(s: Seq<char>, c: char, j: int)
    requires
        -1 <= j < s.len(),
        j >= 0 ==> s[j] == c,
        forall|i: int| j < i < s.len() ==> #[trigger] s[i] != c,
    ensures
        rfind_char(s, c) == j,
{
    lemma_rfind_char(s, c);
    let f = rfind_char(s, c);
    if f > j {
        assert(s[f] == c);
    } else if j > f {
        assert(s[j] == c);
    }
}

/// First index `i` in `start..end - 1` with `v[i] == a && v[i+1] == b`, or `end`.
pub fn find_pair_in(v: &Vec<char>, start: usize, end: usize, a: char, b: char) -> (r: usize)
    requires
        start <= end <= v.len(),
    ensures
        r == end || (start <= r && r + 1 < end && v@[r as int] == a && v@[r + 1] == b),
        r <= end,
        forall|i: int| start <= i < r && i + 1 < end ==> !(#[trigger] v@[i] == a && v@[i + 1] == b),
{
    let mut i = start;
    while end - i >= 2
        invariant
            start <= i <= end <= v.len(),
            forall|j: int| start <= j < i && j + 1 < end ==> !(#[trigger] v@[j] == a && v@[j + 1] == b),
        decreases end - i,
    {
        if v[i] == a && v[i + 1] == b {
            return i;
        }
        i = i + 1;
    }
    end
}

/// Last index `i` in `start..end - 1` with `v[i] == a && v[i+1] == b`, or `end`.
pub fn rfind_pair_in(v: &Vec<char>, start: usize, end: usize, a: char, b: char) -> (r: usize)
    requires
        start <= end <= v.len(),
    ensures
        r == end || (start <= r && r + 1 < end && v@[r as int] == a && v@[r + 1] == b),
        r <= end,
        r < end ==> forall|i: int| r < i && i + 1 < end ==> !(#[trigger] v@[i] == a && v@[i + 1] == b),
        r == end ==> forall|i: int| start <= i && i + 1 < end ==> !(#[trigger] v@[i] == a && v@[i + 1] == b),
{
    let mut i = end;
    while i > start
        invariant
            start <= i <= end <= v.len(),
            forall|j: int| i <= j && j + 1 < end ==> !(#[trigger] v@[j] == a && v@[j + 1] == b),
        decreases i - start,
    {
        let j = i - 1;
        if j + 1 < end && v[j] == a && v[j + 1] == b {
            return j;
        }
        i = j;
    }
    end
}

/// Last index in `start..end` holding `c`, or `end`.
pub fn rfind_char_in(v: &Vec<char>, start: usize, end: usize, c: char) -> (r: usize)
    requires
        start <= end <= v.len(),
    ensures
        r == end || (start <= r < end && v@[r as int] == c),
        r < end ==> forall|i: int| r < i < end ==> #[trigger] v@[i] != c,
        r == end ==> forall|i: int| start <= i < end ==> #[trigger] v@[i] != c,
{
    let mut i = end;
    while i > start
        invariant
            start <= i <= end <= v.len(),
            forall|j: int| i <= j < end ==> #[trigger] v@[j] != c,
        decreases i - start,
    {
        if v[i - 1] == c {
            return i - 1;
        }
        i = i - 1;
    }
    end
}

// ---------------------------------------------------------------------------
// Decimal numbers
// ---------------------------------------------------------------------------

/// The character of decimal digit `d`.
pub open spec fn digit_char(d: nat) -> char {
    (('0' as u32) + d) as char
}

/// `c` is an ASCII digit.
pub open spec fn is_digit(c: char) -> bool {
    '0' <= c && c <= '9'
}

/// Every character of `s` is an ASCII digit.
pub open spec fn all_digits(s: Seq<char>) -> bool {
    forall|i: int| 0 <= i < s.len() ==> is_digit(#[trigger] s[i])
}

/// Value of the decimal numeral `s` (all digits).
pub open spec fn digits_value(s: Seq<char>) -> nat
    decreases s.len(),
{
    if s.len() == 0 {
        0
    } else {
        digits_value(s.drop_last()) * 10 + ((s.last() as u32) - ('0' as u32)) as nat
    }
}

/// The decimal numeral of `n`, without leading zeros.
pub open spec fn decimal(n: nat) -> Seq<char>
    decreases n,
{
    if n < 10 {
        seq![digit_char(n)]
    } else {
        decimal(n / 10).push(digit_char(n % 10))
    }
}

/// Appends the decimal numeral of `n` to `out`.
pub fn push_decimal(out: &mut Vec<char>, n: u64)
    ensures
        final(out)@ == old(out)@ + decimal(n as nat),
    decreases n,
{
    if n >= 10 {
        push_decimal(out, n / 10);
    }
    let d = (n % 10) as u8;
    let c = (48u8 + d) as char;
    assert(c == digit_char((n % 10) as nat));
    out.push(c);
    proof {
        if n >= 10 {
            assert(out@ =~= old(out)@ + decimal(n as nat));
        } else {
            assert(out@ =~= old(out)@ + decimal(n as nat));
        }
    }
}

/// Parses the all-digit numeral `v[start..end]` as a `u64`; `None` when its
/// value exceeds `u64::MAX` (`str::parse::<u64>` on a digit string).
pub fn parse_digits(v: &Vec<char>, start: usize, end: usize) -> (r: Option<u64>)
    requires
        start <= end <= v.len(),
        all_digits(v@.subrange(start as int, end as int)),
    ensures
        r matches Some(n) ==> n == digits_value(v@.subrange(start as int, end as int)),
        r is None ==> digits_value(v@.subrange(start as int, end as int)) > u64::MAX,
{
    let mut acc: u64 = 0;
    let mut i = start;
    while i < end
        invariant
            start <= i <= end <= v.len(),
            all_digits(v@.subrange(start as int, end as int)),
            acc == digits_value(v@.subrange(start as int, i as int)),
        decreases end - i,
    {
        assert(v@.subrange(start as int, end as int)[i - start] == v@[i as int]);
        let d = (v[i] as u32 - '0' as u32) as u64;
        assert(v@.subrange(start as int, i + 1).drop_last() =~= v@.subrange(start as int, i as int));
        match acc.checked_mul(10) {
            Some(m) => match m.checked_add(d) {
                Some(x) => {
                    acc = x;
                },
                None => {
                    proof {
                        lemma_digits_value_grows(v@.subrange(start as int, end as int), i + 1 - start);
                        assert(v@.subrange(start as int, end as int).take(i + 1 - start) =~= v@.subrange(start as int, i + 1));
                    }
                    return None;
                },
            },
            None => {
                proof {
                    lemma_digits_value_grows(v@.subrange(start as int, end as int), i + 1 - start);
                    assert(v@.subrange(start as int, end as int).take(i + 1 - start) =~= v@.subrange(start as int, i + 1));
                }
                return None;
            },
        }
        i = i + 1;
    }
    Some(acc)
}

/// A numeral's value is at least that of any of its prefixes.
pub proof fn lemma_digits_value_grows(s: Seq<char>, k: int)
    requires
        0 <= k <= s.len(),
        all_digits(s),
    ensures
        digits_value(s.take(k)) <= digits_value(s),
    decreases s.len() - k,
{
    if k < s.len() {
        lemma_digits_value_grows(s, k + 1);
        assert(s.take(k + 1).drop_last() =~= s.take(k));
        assert(is_digit(s[k]));
        assert(s.take(k + 1).last() == s[k]);
        assert(digits_value(s.take(k + 1)) == digits_value(s.take(k)) * 10 + ((s[k] as u32) - ('0' as u32)) as nat);
    } else {
        assert(s.take(k) =~= s);
    }
}

} // verus!

verus! {

// ---------------------------------------------------------------------------
// Byte offsets of character positions
// ---------------------------------------------------------------------------

/// Each further character of a prefix adds its (non-zero) UTF-8 width.
pub proof fn lemma_byte_len_take_succ(s: Seq<char>, k: int)
    requires
        0 <= k < s.len(),
    ensures
        byte_len(s.take(k + 1)) == byte_len(s.take(k)) + encode_scalar(s[k] as u32).len(),
        byte_len(s.take(k + 1)) > byte_len(s.take(k)),
{
    assert(s.take(k + 1) =~= s.take(k).push(s[k]));
    lemma_byte_len_push(s.take(k), s[k]);
    char_is_scalar(s[k]);
}

/// Longer prefixes have larger UTF-8 lengths.
pub proof fn lemma_byte_len_take_mono(s: Seq<char>, j: int, k: int)
    requires
        0 <= j <= k <= s.len(),
    ensures
        byte_len(s.take(j)) <= byte_len(s.take(k)),
        j < k ==> byte_len(s.take(j)) < byte_len(s.take(k)),
    decreases k - j,
{
    if j < k {
        lemma_byte_len_take_succ(s, k - 1);
        lemma_byte_len_take_mono(s, j, k - 1);
    }
}

/// `b` is the UTF-8 offset of a character boundary of `s`.
pub open spec fn is_boundary(s: Seq<char>, b: int) -> bool {
    exists|k: int| 0 <= k <= s.len() && byte_len(s.take(k)) == b
}

/// The character index whose UTF-8 offset in `s` is `b`.
pub open spec fn char_index_at(s: Seq<char>, b: int) -> int {
    choose|k: int| 0 <= k <= s.len() && byte_len(s.take(k)) == b
}

/// The character index a byte cursor `b` stands for: the boundary at `b`,
/// or the end of `s` when `b` is at or past it.
pub open spec fn char_index_for_cursor(s: Seq<char>, b: int) -> int {
    if b >= byte_len(s) {
        s.len() as int
    } else {
        char_index_at(s, b)
    }
}

/// Character index of the byte cursor `cursor` in `v`, which must be at a
/// character boundary or at or past the end.
pub fn char_index_of_byte(v: &Vec<char>, cursor: usize) -> (k: usize)
    requires
        cursor >= byte_len(v@) || is_boundary(v@, cursor as int),
    ensures
        k == char_index_for_cursor(v@, cursor as int),
        k <= v.len(),
        cursor < byte_len(v@) ==> byte_len(v@.take(k as int)) == cursor,
{
    let mut i: usize = 0;
    let mut acc: usize = 0;
    let ghost target: int = if cursor >= byte_len(v@) {
        v@.len() as int
    } else {
        char_index_at(v@, cursor as int)
    };
    proof {
        assert(v@.take(v@.len() as int) =~= v@);
        if cursor < byte_len(v@) {
            let k = choose|k: int| 0 <= k <= v@.len() && byte_len(v@.take(k)) == cursor;
            assert(0 <= target <= v@.len() && byte_len(v@.take(target)) == cursor);
        }
        assert(v@.take(0) =~= Seq::<char>::empty());
    }
    while i < v.len() && acc < cursor
        invariant
            i <= v.len(),
            0 <= target <= v@.len(),
            acc == byte_len(v@.take(i as int)),
            i <= target,
            cursor < byte_len(v@) ==> byte_len(v@.take(target)) == cursor,
            cursor >= byte_len(v@) ==> target == v@.len(),
            v@.take(v@.len() as int) == v@,
        decreases v.len() - i,
    {
        proof {
            lemma_byte_len_take_succ(v@, i as int);
            if i + 1 > target {
                lemma_byte_len_take_mono(v@, target, i as int);
            }
            lemma_byte_len_take_mono(v@, i + 1, target);
        }
        let w = utf8_width(v[i]);
        acc = acc + w;
        i = i + 1;
    }
    proof {
        if i < target {
            lemma_byte_len_take_mono(v@, i as int, target);
            if cursor >= byte_len(v@) {
                assert(i == v.len());
            }
        }
    }
    i
}

/// UTF-8 offset of character `k` of `v` (`k <= v.len()`).
pub(crate) fn byte_offset_of(v: &Vec<char>, k: usize) -> (b: usize)
    requires
        k <= v.len(),
        byte_len(v@) <= usize::MAX,
    ensures
        b == byte_len(v@.take(k as int)),
{
    let mut i: usize = 0;
    let mut acc: usize = 0;
    proof {
        assert(v@.take(0) =~= Seq::<char>::empty());
        assert(v@.take(v@.len() as int) =~= v@);
    }
    while i < k
        invariant
            i <= k <= v.len(),
            acc == byte_len(v@.take(i as int)),
            byte_len(v@) <= usize::MAX,
            v@.take(v@.len() as int) == v@,
        decreases k - i,
    {
        proof {
            lemma_byte_len_take_succ(v@, i as int);
            lemma_byte_len_take_mono(v@, i + 1, v@.len() as int);
        }
        let w = utf8_width(v[i]);
        acc = acc + w;
        i = i + 1;
    }
    acc
}

} // verus!

verus! {

/// Appends the characters of `s` to `out`.
pub fn extend_str(out: &mut Vec<char>, s: &str)
    ensures
        final(out)@ == old(out)@ + s@,
{
    let v = chars_of(s);
    extend_range(out, &v, 0, v.len());
    proof {
        assert(v@.subrange(0, v@.len() as int) =~= v@);
    }
}

/// `s` begins with `p`.
pub fn starts_with(s: &str, p: &str) -> (b: bool)
    ensures
        b == has_prefix(s@, p@),
{
    let sv = chars_of(s);
    let pv = chars_of(p);
    if pv.len() > sv.len() {
        return false;
    }
    let mut i: usize = 0;
    while i < pv.len()
        invariant
            pv@.len() <= sv@.len(),
            i <= pv@.len(),
            sv@ == s@,
            pv@ == p@,
            forall|j: int| 0 <= j < i ==> sv@[j] == pv@[j],
        decreases pv@.len() - i,
    {
        if sv[i] != pv[i] {
            proof {
                assert(sv@.take(pv@.len() as int)[i as int] != pv@[i as int]);
            }
            return false;
        }
        i = i + 1;
    }
    proof {
        assert(sv@.take(pv@.len() as int) =~= pv@);
    }
    true
}

/// Number of trailing whitespace characters of `s`.
pub open spec fn ws_suffix(s: Seq<char>) -> nat
    decreases s.len(),
{
    if s.len() > 0 && is_ws(s.last()) {
        1 + ws_suffix(s.drop_last())
    } else {
        0
    }
}

/// `s.trim()`: `s` without its leading and trailing whitespace.
pub open spec fn trim(s: Seq<char>) -> Seq<char> {
    let t = trim_start(s);
    t.take(t.len() - ws_suffix(t))
}

/// `ws_suffix` is determined by where the last non-whitespace character is.
pub proof fn lemma_ws_suffix_is(s: Seq<char>, n: int)
    requires
        0 <= n <= s.len(),
        forall|j: int| s.len() - n <= j < s.len() ==> is_ws(#[trigger] s[j]),
        n < s.len() ==> !is_ws(s[s.len() - n - 1]),
    ensures
        ws_suffix(s) == n,
    decreases s.len(),
{
    if n > 0 {
        assert(is_ws(s[s.len() - 1]));
        let d = s.drop_last();
        assert forall|j: int| d.len() - (n - 1) <= j < d.len() implies is_ws(#[trigger] d[j]) by {
            assert(d[j] == s[j]);
        }
        if n - 1 < d.len() {
            assert(d[d.len() - (n - 1) - 1] == s[s.len() - n - 1]);
        }
        lemma_ws_suffix_is(d, n - 1);
    }
}

/// `s.trim()`.
pub fn trim_str(s: &str) -> (r: String)
    ensures
        r@ == trim(s@),
{
    let v = chars_of(s);
    let a = leading_ws(&v, 0, v.len());
    proof {
        assert(v@.subrange(0, v@.len() as int) =~= v@);
    }
    let mut e = v.len();
    while e > a && is_whitespace(v[e - 1])
        invariant
            a <= e <= v@.len(),
            forall|j: int| e <= j < v@.len() ==> is_ws(#[trigger] v@[j]),
        decreases e - a,
    {
        e = e - 1;
    }
    proof {
        let t = trim_start(v@);
        assert(t =~= v@.skip(a as int));
        let n = v@.len() - e;
        assert forall|j: int| t.len() - n <= j < t.len() implies is_ws(#[trigger] t[j]) by {
            assert(t[j] == v@[a + j]);
        }
        if n < t.len() {
            assert(t[t.len() - n - 1] == v@[e - 1]);
        }
        lemma_ws_suffix_is(t, n);
        assert(trim(v@) =~= v@.subrange(a as int, e as int));
    }
    string_from_range(&v, a, e)
}

/// Offset of the first `'\n'` in `s`, or its length when there is none.
pub open spec fn nl_from(s: Seq<char>) -> nat
    decreases s.len(),
{
    if s.len() == 0 || s[0] == '\n' {
        0
    } else {
        1 + nl_from(s.drop_first())
    }
}

/// `nl_from` is determined by where the first newline is.
pub proof fn lemma_nl_from_is(s: Seq<char>, e: int)
    requires
        0 <= e <= s.len(),
        e < s.len() ==> s[e] == '\n',
        forall|j: int| 0 <= j < e ==> #[trigger] s[j] != '\n',
    ensures
        nl_from(s) == e,
    decreases s.len(),
{
    if e > 0 {
        assert(s[0] != '\n');
        let t = s.drop_first();
        assert forall|j: int| 0 <= j < e - 1 implies #[trigger] t[j] != '\n' by {
            assert(t[j] == s[j + 1]);
        }
        if e - 1 < t.len() {
            assert(t[e - 1] == s[e]);
        }
        lemma_nl_from_is(t, e - 1);
    }
}

/// Length of the run of `#` that `s` starts with.
pub open spec fn hash_run(s: Seq<char>) -> nat
    decreases s.len(),
{
    if s.len() > 0 && s[0] == '#' {
        1 + hash_run(s.drop_first())
    } else {
        0
    }
}

/// `hash_run` is determined by where the first non-`#` character is.
pub proof fn lemma_hash_run_is(s: Seq<char>, n: int)
    requires
        0 <= n <= s.len(),
        forall|j: int| 0 <= j < n ==> s[j] == '#',
        n < s.len() ==> s[n] != '#',
    ensures
        hash_run(s) == n,
    decreases s.len(),
{
    if n > 0 {
        let t = s.drop_first();
        assert forall|j: int| 0 <= j < n - 1 implies t[j] == '#' by {
            assert(t[j] == s[j + 1]);
        }
        if n - 1 < t.len() {
            assert(t[n - 1] == s[n]);
        }
        lemma_hash_run_is(t, n - 1);
    }
}

} // verus!
