//! Character-level building blocks: conversions between strings and character
//! vectors, character classes, spans, searching and trimming.
use vstd::prelude::*;
use vstd::slice::slice_subrange;

verus! {

/// `String::push` of the standard library: afterwards the string is what it
/// was before, with `ch` at its end. This is taken from its documentation,
/// without proof.
pub assume_specification[ String::push ](s: &mut String, ch: char)
    ensures
        final(s)@ == old(s)@.push(ch),
;

/// The characters of `s`, in order.
pub fn to_chars(s: &str) -> (out: Vec<char>)
    ensures
        out@ == s@,
{
    let mut out: Vec<char> = Vec::new();
    for c in it: s.chars()
        invariant
            out@ == it.seq().take(it.index() as int),
    {
        out.push(c);
    }
    out
}

/// The string made of the characters `cs`, in order.
pub fn from_chars(cs: &[char]) -> (out: String)
    ensures
        out@ == cs@,
{
    let mut out = String::new();
    let mut i: usize = 0;
    while i < cs.len()
        invariant
            i <= cs.len(),
            out@ == cs@.take(i as int),
        decreases cs.len() - i,
    {
        out.push(cs[i]);
        i += 1;
    }
    out
}

/// Appends the characters of `src` to `dst`.
pub fn push_all(dst: &mut Vec<char>, src: &[char])
    ensures
        final(dst)@ == old(dst)@ + src@,
{
    let mut i: usize = 0;
    while i < src.len()
        invariant
            i <= src.len(),
            dst@ == old(dst)@ + src@.take(i as int),
        decreases src.len() - i,
    {
        dst.push(src[i]);
        i += 1;
    }
}

/// Appends the characters `src[from..to]` to `dst`.
pub fn push_range(dst: &mut Vec<char>, src: &[char], from: usize, to: usize)
    requires
        from <= to <= src@.len(),
    ensures
        final(dst)@ == old(dst)@ + src@.subrange(from as int, to as int),
{
    let mut i: usize = from;
    while i < to
        invariant
            from <= i <= to <= src@.len(),
            dst@ == old(dst)@ + src@.subrange(from as int, i as int),
        decreases to - i,
    {
        dst.push(src[i]);
        i += 1;
    }
}

/// Appends the characters of the string `src` to `dst`.
pub fn push_str(dst: &mut Vec<char>, src: &str)
    ensures
        final(dst)@ == old(dst)@ + src@,
{
    let cs = to_chars(src);
    push_all(dst, cs.as_slice());
}

/// A copy of `src[from..to]`.
pub fn copy_range(src: &[char], from: usize, to: usize) -> (out: Vec<char>)
    requires
        from <= to <= src@.len(),
    ensures
        out@ == src@.subrange(from as int, to as int),
{
    let mut out: Vec<char> = Vec::new();
    push_range(&mut out, src, from, to);
    out
}

/// Whether two character slices hold the same characters.
pub fn same_chars(a: &[char], b: &[char]) -> (eq: bool)
    ensures
        eq == (a@ == b@),
{
    if a.len() != b.len() {
        return false;
    }
    let mut i: usize = 0;
    while i < a.len()
        invariant
            i <= a.len(),
            a.len() == b.len(),
            a@.take(i as int) == b@.take(i as int),
        decreases a.len() - i,
    {
        if a[i] != b[i] {
            return false;
        }
        assert(a@.take(i + 1) == a@.take(i as int).push(a@[i as int]));
        assert(b@.take(i + 1) == b@.take(i as int).push(b@[i as int]));
        i += 1;
    }
    assert(a@ == a@.take(a.len() as int));
    assert(b@ == b@.take(b.len() as int));
    true
}

/// Classes of characters that spans are made of.
#[derive(Clone, Copy, Debug)]
pub enum CharClass {
    /// Space, tab, carriage return and line feed.
    Blank,
    /// Every character with the Unicode property `White_Space`.
    Whitespace,
    /// ASCII letters, digits, `-`, `_` and `:`.
    Name,
    /// Every character but the given one.
    Except(char),
    /// The given character alone.
    Only(char),
    /// The ASCII digits.
    Digit,
    /// Whitespace and the comma: what parts the items of a list.
    Separator,
    /// Every character that is no separator.
    Item,
}

/// An ASCII letter.
pub open spec fn ascii_letter(c: char) -> bool {
    ('a' <= c && c <= 'z') || ('A' <= c && c <= 'Z')
}

/// An ASCII digit.
pub open spec fn ascii_digit(c: char) -> bool {
    '0' <= c && c <= '9'
}

/// A space, tab, carriage return or line feed.
pub open spec fn blank(c: char) -> bool {
    c == ' ' || c == '\t' || c == '\r' || c == '\n'
}

/// A character with the Unicode property `White_Space`.
pub open spec fn whitespace(c: char) -> bool {
    ||| ('\u{9}' <= c && c <= '\u{d}')
    ||| c == ' '
    ||| c == '\u{85}'
    ||| c == '\u{a0}'
    ||| c == '\u{1680}'
    ||| ('\u{2000}' <= c && c <= '\u{200a}')
    ||| c == '\u{2028}'
    ||| c == '\u{2029}'
    ||| c == '\u{202f}'
    ||| c == '\u{205f}'
    ||| c == '\u{3000}'
}

/// A character of a name: an ASCII letter or digit, `-`, `_` or `:`.
pub open spec fn name_char(c: char) -> bool {
    ascii_letter(c) || ascii_digit(c) || c == '-' || c == '_' || c == ':'
}

/// Whether `c` is in `class`.
pub open spec fn in_class(class: CharClass, c: char) -> bool {
    match class {
        CharClass::Blank => blank(c),
        CharClass::Whitespace => whitespace(c),
        CharClass::Name => name_char(c),
        CharClass::Except(x) => c != x,
        CharClass::Only(x) => c == x,
        CharClass::Digit => ascii_digit(c),
        CharClass::Separator => whitespace(c) || c == ',',
        CharClass::Item => !(whitespace(c) || c == ','),
    }
}

/// Whether `c` is an ASCII letter.
pub fn is_ascii_letter(c: char) -> (b: bool)
    ensures
        b == ascii_letter(c),
{
    ('a' <= c && c <= 'z') || ('A' <= c && c <= 'Z')
}

/// Whether `c` is an ASCII digit.
pub fn is_ascii_digit(c: char) -> (b: bool)
    ensures
        b == ascii_digit(c),
{
    '0' <= c && c <= '9'
}

/// Whether `c` is a space, tab, carriage return or line feed.
pub fn is_blank(c: char) -> (b: bool)
    ensures
        b == blank(c),
{
    c == ' ' || c == '\t' || c == '\r' || c == '\n'
}

/// Whether `c` has the Unicode property `White_Space`.
pub fn is_whitespace(c: char) -> (b: bool)
    ensures
        b == whitespace(c),
{
    ('\u{9}' <= c && c <= '\u{d}') || c == ' ' || c == '\u{85}' || c == '\u{a0}' || c == '\u{1680}'
        || ('\u{2000}' <= c && c <= '\u{200a}') || c == '\u{2028}' || c == '\u{2029}' || c
        == '\u{202f}' || c == '\u{205f}' || c == '\u{3000}'
}

/// Whether `ch` is a character of a name.
pub fn is_name_char(ch: char) -> (b: bool)
    ensures
        b == name_char(ch),
{
    is_ascii_letter(ch) || is_ascii_digit(ch) || ch == '-' || ch == '_' || ch == ':'
}

/// Whether `c` is in `class`.
pub fn is_in_class(class: CharClass, c: char) -> (b: bool)
    ensures
        b == in_class(class, c),
{
    match class {
        CharClass::Blank => is_blank(c),
        CharClass::Whitespace => is_whitespace(c),
        CharClass::Name => is_name_char(c),
        CharClass::Except(x) => c != x,
        CharClass::Only(x) => c == x,
        CharClass::Digit => is_ascii_digit(c),
        CharClass::Separator => is_whitespace(c) || c == ',',
        CharClass::Item => !(is_whitespace(c) || c == ','),
    }
}

/// The end of the longest run of `class` characters that starts at `i`.
pub open spec fn span_end(s: Seq<char>, i: int, class: CharClass) -> int
    decreases s.len() - i,
{
    if 0 <= i < s.len() && in_class(class, s[i]) {
        span_end(s, i + 1, class)
    } else {
        i
    }
}

/// `span_end` stops at the first character outside the class, or at the end.
pub proof fn lemma_span_end(s: Seq<char>, i: int, class: CharClass)
    requires
        0 <= i <= s.len(),
    ensures
        i <= span_end(s, i, class) <= s.len(),
        forall|k: int| i <= k < span_end(s, i, class) ==> in_class(class, #[trigger] s[k]),
        span_end(s, i, class) < s.len() ==> !in_class(class, s[span_end(s, i, class)]),
    decreases s.len() - i,
{
    if i < s.len() && in_class(class, s[i]) {
        lemma_span_end(s, i + 1, class);
    }
}

/// A position that bounds a run of `class` characters from `i` is its end.
pub proof fn lemma_span_end_is(s: Seq<char>, i: int, e: int, class: CharClass)
    requires
        0 <= i <= e <= s.len(),
        forall|k: int| i <= k < e ==> in_class(class, #[trigger] s[k]),
        e < s.len() ==> !in_class(class, s[e]),
    ensures
        span_end(s, i, class) == e,
    decreases e - i,
{
    if i < e {
        lemma_span_end_is(s, i + 1, e, class);
    }
}

/// Skips the run of `class` characters that starts at `i`.
pub fn span(s: &[char], i: usize, class: CharClass) -> (e: usize)
    requires
        i <= s@.len(),
    ensures
        e == span_end(s@, i as int, class),
        i <= e <= s@.len(),
{
    let mut e: usize = i;
    while e < s.len() && is_in_class(class, s[e])
        invariant
            i <= e <= s@.len(),
            span_end(s@, i as int, class) == span_end(s@, e as int, class),
        decreases s.len() - e,
    {
        e += 1;
    }
    proof {
        lemma_span_end(s@, i as int, class);
    }
    e
}

/// Whether `pat` stands in `s` at position `i`.
pub open spec fn occurs_at(s: Seq<char>, i: int, pat: Seq<char>) -> bool {
    0 <= i && i + pat.len() <= s.len() && s.subrange(i, i + pat.len()) == pat
}

/// The first position at or after `i` where `pat` stands in `s`.
pub open spec fn find_from(s: Seq<char>, i: int, pat: Seq<char>) -> Option<int>
    decreases s.len() - i,
{
    if i < 0 || i + pat.len() > s.len() {
        None
    } else if occurs_at(s, i, pat) {
        Some(i)
    } else if i >= s.len() {
        None
    } else {
        find_from(s, i + 1, pat)
    }
}

/// `find_from` gives the first occurrence, and `None` only where there is none.
pub proof fn lemma_find_from(s: Seq<char>, i: int, pat: Seq<char>)
    requires
        0 <= i,
    ensures
        match find_from(s, i, pat) {
            Some(j) => i <= j && occurs_at(s, j, pat) && forall|k: int|
                i <= k < j ==> !occurs_at(s, k, pat),
            None => forall|k: int| i <= k ==> !occurs_at(s, k, pat),
        },
    decreases s.len() - i,
{
    if i + pat.len() <= s.len() && !occurs_at(s, i, pat) && i < s.len() {
        lemma_find_from(s, i + 1, pat);
    }
}

/// Whether `pat` stands anywhere in `s`.
pub open spec fn contains(s: Seq<char>, pat: Seq<char>) -> bool {
    exists|i: int| occurs_at(s, i, pat)
}

/// Whether `pat` stands in `s` at position `i`.
pub fn matches_at(s: &[char], i: usize, pat: &[char]) -> (b: bool)
    ensures
        b == occurs_at(s@, i as int, pat@),
{
    if pat.len() > s.len() || i > s.len() - pat.len() {
        return false;
    }
    let mut k: usize = 0;
    while k < pat.len()
        invariant
            k <= pat.len(),
            i + pat.len() <= s.len(),
            s@.subrange(i as int, i + k) == pat@.take(k as int),
        decreases pat.len() - k,
    {
        if s[i + k] != pat[k] {
            assert(s@.subrange(i as int, i + pat.len())[k as int] != pat@[k as int]);
            return false;
        }
        assert(s@.subrange(i as int, i + k + 1) == s@.subrange(i as int, i + k).push(
            s@[i + k],
        ));
        assert(pat@.take(k + 1) == pat@.take(k as int).push(pat@[k as int]));
        k += 1;
    }
    assert(pat@.take(pat.len() as int) == pat@);
    true
}

/// The first position at or after `from` where `pat` stands in `s`.
pub fn find(s: &[char], from: usize, pat: &[char]) -> (r: Option<usize>)
    ensures
        match r {
            Some(j) => find_from(s@, from as int, pat@) == Some(j as int),
            None => find_from(s@, from as int, pat@) is None,
        },
{
    if pat.len() > s.len() || from > s.len() - pat.len() {
        return None;
    }
    let last: usize = s.len() - pat.len();
    let mut i: usize = from;
    loop
        invariant
            from <= i <= last,
            last == s.len() - pat.len(),
            find_from(s@, from as int, pat@) == find_from(s@, i as int, pat@),
        decreases last - i,
    {
        if matches_at(s, i, pat) {
            return Some(i);
        }
        if i == last {
            assert(find_from(s@, i + 1, pat@) is None);
            return None;
        }
        i += 1;
    }
}

/// Whether `pat` stands anywhere in `s`.
pub fn has(s: &[char], pat: &[char]) -> (b: bool)
    ensures
        b == contains(s@, pat@),
{
    let r = find(s, 0, pat);
    proof {
        lemma_find_from(s@, 0, pat@);
    }
    r.is_some()
}

/// The texts that a sequence of strings holds.
pub open spec fn texts(v: Seq<String>) -> Seq<Seq<char>> {
    Seq::new(v.len(), |i: int| v[i]@)
}

/// The pairs of texts that a sequence of pairs of strings holds.
pub open spec fn pair_texts(v: Seq<(String, String)>) -> Seq<(Seq<char>, Seq<char>)> {
    Seq::new(v.len(), |i: int| (v[i].0@, v[i].1@))
}

/// The texts that a sequence of character vectors holds.
pub open spec fn char_texts(v: Seq<Vec<char>>) -> Seq<Seq<char>> {
    Seq::new(v.len(), |i: int| v[i]@)
}

/// One string for each character vector of `v`, in order.
pub fn strings_from(v: &Vec<Vec<char>>) -> (out: Vec<String>)
    ensures
        texts(out@) == char_texts(v@),
{
    let mut out: Vec<String> = Vec::new();
    let mut i: usize = 0;
    while i < v.len()
        invariant
            i <= v.len(),
            out@.len() == i,
            texts(out@) == char_texts(v@.take(i as int)),
        decreases v.len() - i,
    {
        let s = from_chars(v[i].as_slice());
        proof {
            let a = texts(out@.push(s));
            let b = char_texts(v@.take(i + 1));
            assert forall|k: int| 0 <= k < a.len() implies a[k] == b[k] by {
                if k < i {
                    assert(texts(out@)[k] == char_texts(v@.take(i as int))[k]);
                }
            }
            assert(a =~= b);
        }
        out.push(s);
        i += 1;
    }
    proof {
        assert(v@.take(v.len() as int) == v@);
    }
    out
}

/// The character that writes the digit `d`.
pub open spec fn digit(d: nat) -> char {
    if d == 0 {
        '0'
    } else if d == 1 {
        '1'
    } else if d == 2 {
        '2'
    } else if d == 3 {
        '3'
    } else if d == 4 {
        '4'
    } else if d == 5 {
        '5'
    } else if d == 6 {
        '6'
    } else if d == 7 {
        '7'
    } else if d == 8 {
        '8'
    } else {
        '9'
    }
}

/// The decimal digits of `n`, without leading zeros.
pub open spec fn decimal(n: nat) -> Seq<char>
    decreases n,
{
    if n < 10 {
        seq![digit(n)]
    } else {
        decimal(n / 10).push(digit(n % 10))
    }
}

fn digit_char(d: usize) -> (c: char)
    requires
        d < 10,
    ensures
        c == digit(d as nat),
{
    if d == 0 {
        '0'
    } else if d == 1 {
        '1'
    } else if d == 2 {
        '2'
    } else if d == 3 {
        '3'
    } else if d == 4 {
        '4'
    } else if d == 5 {
        '5'
    } else if d == 6 {
        '6'
    } else if d == 7 {
        '7'
    } else if d == 8 {
        '8'
    } else {
        '9'
    }
}

/// Appends the decimal digits of `n` to `dst`.
pub fn push_decimal(dst: &mut Vec<char>, n: usize)
    ensures
        final(dst)@ == old(dst)@ + decimal(n as nat),
    decreases n,
{
    if n >= 10 {
        push_decimal(dst, n / 10);
    }
    dst.push(digit_char(n % 10));
    proof {
        if n >= 10 {
            assert(old(dst)@ + decimal(n as nat) =~= (old(dst)@ + decimal((n / 10) as nat)).push(
                digit((n % 10) as nat),
            ));
        } else {
            assert(old(dst)@ + decimal(n as nat) =~= old(dst)@.push(digit(n as nat)));
        }
    }
}

/// Whether `s` ends with `pat`.
pub open spec fn ends_with(s: Seq<char>, pat: Seq<char>) -> bool {
    pat.len() <= s.len() && s.subrange(s.len() - pat.len(), s.len() as int) == pat
}

/// Whether `s` ends with `pat`.
pub fn has_suffix(s: &[char], pat: &[char]) -> (b: bool)
    ensures
        b == ends_with(s@, pat@),
{
    if pat.len() > s.len() {
        return false;
    }
    matches_at(s, s.len() - pat.len(), pat)
}

/// The length of `s` without the whitespace at its end.
pub open spec fn trimmed_len(s: Seq<char>) -> int
    decreases s.len(),
{
    if s.len() > 0 && whitespace(s.last()) {
        trimmed_len(s.drop_last())
    } else {
        s.len() as int
    }
}

/// `s` without the whitespace at its start and at its end.
pub open spec fn trim(s: Seq<char>) -> Seq<char> {
    let e = trimmed_len(s);
    s.subrange(span_end(s.take(e), 0, CharClass::Whitespace), e)
}

proof fn lemma_trimmed_len(s: Seq<char>)
    ensures
        0 <= trimmed_len(s) <= s.len(),
        forall|k: int| trimmed_len(s) <= k < s.len() ==> whitespace(#[trigger] s[k]),
        trimmed_len(s) > 0 ==> !whitespace(s[trimmed_len(s) - 1]),
    decreases s.len(),
{
    if s.len() > 0 && whitespace(s.last()) {
        let p = s.drop_last();
        lemma_trimmed_len(p);
        assert forall|k: int| trimmed_len(s) <= k < s.len() implies whitespace(
            #[trigger] s[k],
        ) by {
            if k < p.len() {
                assert(s[k] == p[k]);
            }
        }
        if trimmed_len(s) > 0 {
            assert(s[trimmed_len(s) - 1] == p[trimmed_len(p) - 1]);
        }
    }
}

/// Trimming takes whitespace away from both ends, and nothing else: the text
/// is whitespace, then what trimming leaves, then whitespace; and what
/// trimming leaves neither starts nor ends with whitespace.
pub proof fn lemma_trim(s: Seq<char>)
    ensures
        exists|left: Seq<char>, right: Seq<char>|
            all_in(left, CharClass::Whitespace) && all_in(right, CharClass::Whitespace) && s
                == #[trigger] (left + trim(s) + right),
        trim(s).len() > 0 ==> !whitespace(trim(s)[0]) && !whitespace(trim(s).last()),
{
    let e = trimmed_len(s);
    lemma_trimmed_len(s);
    let head = s.take(e);
    let b = span_end(head, 0, CharClass::Whitespace);
    lemma_span_end(head, 0, CharClass::Whitespace);
    let left = s.take(b);
    let right = s.skip(e);
    assert forall|i: int| 0 <= i < left.len() implies in_class(
        CharClass::Whitespace,
        #[trigger] left[i],
    ) by {
        assert(left[i] == head[i]);
    }
    assert forall|i: int| 0 <= i < right.len() implies in_class(
        CharClass::Whitespace,
        #[trigger] right[i],
    ) by {
        assert(right[i] == s[e + i]);
    }
    assert(s =~= left + trim(s) + right);
    if trim(s).len() > 0 {
        assert(trim(s)[0] == head[b]);
        assert(trim(s).last() == s[e - 1]);
    }
}

/// A position behind which all is whitespace, and before which the last
/// character is none, is the trimmed length.
pub proof fn lemma_trimmed_len_is(s: Seq<char>, e: int)
    requires
        0 <= e <= s.len(),
        forall|k: int| e <= k < s.len() ==> whitespace(#[trigger] s[k]),
        e > 0 ==> !whitespace(s[e - 1]),
    ensures
        trimmed_len(s) == e,
    decreases s.len(),
{
    if e < s.len() {
        assert(whitespace(s[s.len() - 1]));
        lemma_trimmed_len_is(s.drop_last(), e);
    }
}

/// The bounds of `s` without the whitespace at its start and at its end.
pub fn trim_bounds(s: &[char]) -> (r: (usize, usize))
    ensures
        r.0 <= r.1 <= s@.len(),
        s@.subrange(r.0 as int, r.1 as int) == trim(s@),
{
    let mut e: usize = s.len();
    proof {
        assert(s@.take(s.len() as int) == s@);
    }
    while e > 0 && is_whitespace(s[e - 1])
        invariant
            e <= s@.len(),
            trimmed_len(s@) == trimmed_len(s@.take(e as int)),
        decreases e,
    {
        proof {
            assert(s@.take(e as int).drop_last() == s@.take(e - 1));
        }
        e -= 1;
    }
    let b = span(slice_subrange(s, 0, e), 0, CharClass::Whitespace);
    (b, e)
}

/// Whether every character of `s` is in `class`.
pub open spec fn all_in(s: Seq<char>, class: CharClass) -> bool {
    forall|i: int| 0 <= i < s.len() ==> in_class(class, #[trigger] s[i])
}

/// A span in a text that has something put before it ends where it ended,
/// moved by the length of what was put before.
pub proof fn lemma_span_end_shift(p: Seq<char>, r: Seq<char>, i: int, class: CharClass)
    requires
        0 <= i <= r.len(),
    ensures
        span_end(p + r, p.len() + i, class) == p.len() + span_end(r, i, class),
    decreases r.len() - i,
{
    if i < r.len() {
        assert((p + r)[p.len() + i] == r[i]);
        if in_class(class, r[i]) {
            lemma_span_end_shift(p, r, i + 1, class);
        }
    }
}

/// Text between whitespace is what trimming leaves.
pub proof fn lemma_trim_padded(left: Seq<char>, mid: Seq<char>, right: Seq<char>)
    requires
        all_in(left, CharClass::Whitespace),
        all_in(right, CharClass::Whitespace),
        mid.len() > 0,
        !whitespace(mid[0]),
        !whitespace(mid.last()),
    ensures
        trim(left + mid + right) == mid,
{
    let s = left + mid + right;
    let e = left.len() + mid.len();
    assert(s[e - 1] == mid.last());
    assert forall|k: int| e <= k < s.len() implies whitespace(#[trigger] s[k]) by {
        assert(s[k] == right[k - e]);
        assert(in_class(CharClass::Whitespace, right[k - e]));
    }
    lemma_trimmed_len_is(s, e as int);
    let t = s.take(e as int);
    assert forall|k: int| 0 <= k < left.len() implies in_class(
        CharClass::Whitespace,
        #[trigger] t[k],
    ) by {
        assert(t[k] == left[k]);
    }
    assert(t[left.len() as int] == mid[0]);
    lemma_span_end_is(t, 0, left.len() as int, CharClass::Whitespace);
    assert(s.subrange(left.len() as int, e as int) =~= mid);
}

/// Whether two strings hold the same text.
pub fn same_text(a: &str, b: &str) -> (eq: bool)
    ensures
        eq == (a@ == b@),
{
    let x = to_chars(a);
    let y = to_chars(b);
    same_chars(x.as_slice(), y.as_slice())
}

/// Whether the characters `a` are the text of the string `b`.
pub fn is_text(a: &[char], b: &str) -> (eq: bool)
    ensures
        eq == (a@ == b@),
{
    let y = to_chars(b);
    same_chars(a, y.as_slice())
}

/// A search in a text that has something put before it finds what it found,
/// moved by the length of what was put before.
pub proof fn lemma_find_from_shift(p: Seq<char>, r: Seq<char>, i: int, pat: Seq<char>)
    requires
        0 <= i,
    ensures
        find_from(p + r, p.len() + i, pat) == match find_from(r, i, pat) {
            Some(j) => Some(p.len() + j),
            None => None,
        },
    decreases r.len() - i,
{
    let s = p + r;
    if i + pat.len() <= r.len() {
        assert(s.subrange(p.len() + i, p.len() + i + pat.len()) =~= r.subrange(i, i + pat.len()));
        if !occurs_at(r, i, pat) && i < r.len() {
            lemma_find_from_shift(p, r, i + 1, pat);
        }
    }
}

} // verus!
