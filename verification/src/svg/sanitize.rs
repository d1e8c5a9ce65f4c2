//! Identifier sanitization.
//!
//! A valid identifier starts with a character of `[A-Za-z_]` and goes on with
//! characters of `[A-Za-z0-9._-]`.
use crate::text::{ascii_digit, ascii_letter, from_chars, is_ascii_digit, is_ascii_letter, to_chars};
use vstd::prelude::*;

verus! {

/// A character that may start an identifier: `[A-Za-z_]`.
pub open spec fn valid_id_start(c: char) -> bool {
    c == '_' || ascii_letter(c)
}

/// A character that may go on an identifier: `[A-Za-z0-9._-]`.
pub open spec fn valid_id_continue(c: char) -> bool {
    ascii_letter(c) || ascii_digit(c) || c == '.' || c == '_' || c == '-'
}

/// Whether a character may start an identifier.
pub fn is_valid_id_start(ch: char) -> (b: bool)
    ensures
        b == valid_id_start(ch),
{
    ch == '_' || is_ascii_letter(ch)
}

/// Whether a character may stand in an identifier after its first character.
pub fn is_valid_id_continue(ch: char) -> (b: bool)
    ensures
        b == valid_id_continue(ch),
{
    is_ascii_letter(ch) || is_ascii_digit(ch) || ch == '.' || ch == '_' || ch == '-'
}

/// A character that ends up as a dash: a dash itself, or any character that
/// an identifier cannot hold.
pub open spec fn dash_like(c: char) -> bool {
    c == '-' || !valid_id_continue(c)
}

/// The position of the first character at or after `i` that may start an
/// identifier; the length of `s` where there is none.
pub open spec fn first_start(s: Seq<char>, i: int) -> int
    decreases s.len() - i,
{
    if 0 <= i < s.len() && !valid_id_start(s[i]) {
        first_start(s, i + 1)
    } else {
        i
    }
}

/// Keeps the characters that are not dash-like, and puts a single `-` in
/// place of every run of dash-like characters that has a kept character on
/// both sides. Runs at either end vanish.
pub open spec fn squeeze(d: Seq<char>) -> Seq<char>
    decreases d.len(),
{
    if d.len() == 0 {
        Seq::empty()
    } else {
        let p = d.drop_last();
        let c = d.last();
        if dash_like(c) {
            squeeze(p)
        } else if p.len() > 0 && dash_like(p.last()) && squeeze(p).len() > 0 {
            squeeze(p).push('-').push(c)
        } else {
            squeeze(p).push(c)
        }
    }
}

/// The sanitized form of `s`: everything before the first character that may
/// start an identifier is dropped, and the rest is squeezed.
pub open spec fn sanitize(s: Seq<char>) -> Seq<char> {
    squeeze(s.skip(first_start(s, 0)))
}

/// A valid identifier without `--` and without a `-` at its end.
pub open spec fn clean_id(r: Seq<char>) -> bool {
    &&& r.len() > 0
    &&& valid_id_start(r[0])
    &&& forall|i: int| 0 <= i < r.len() ==> valid_id_continue(#[trigger] r[i])
    &&& forall|i: int| 0 <= i < r.len() - 1 ==> !(#[trigger] r[i] == '-' && r[i + 1] == '-')
    &&& r.last() != '-'
}

proof fn lemma_first_start(s: Seq<char>, i: int)
    requires
        0 <= i <= s.len(),
    ensures
        i <= first_start(s, i) <= s.len(),
        first_start(s, i) < s.len() ==> valid_id_start(s[first_start(s, i)]),
    decreases s.len() - i,
{
    if i < s.len() && !valid_id_start(s[i]) {
        lemma_first_start(s, i + 1);
    }
}

proof fn lemma_squeeze_shape(d: Seq<char>)
    ensures
        forall|i: int| 0 <= i < squeeze(d).len() ==> valid_id_continue(#[trigger] squeeze(d)[i]),
        forall|i: int|
            0 <= i < squeeze(d).len() - 1 ==> !(#[trigger] squeeze(d)[i] == '-' && squeeze(d)[i
                + 1] == '-'),
        squeeze(d).len() > 0 ==> squeeze(d).last() != '-',
        d.len() > 0 && !dash_like(d[0]) ==> squeeze(d).len() > 0 && squeeze(d)[0] == d[0],
    decreases d.len(),
{
    if d.len() > 0 {
        let p = d.drop_last();
        lemma_squeeze_shape(p);
        if p.len() > 0 {
            assert(p[0] == d[0]);
        }
    }
}

proof fn lemma_squeeze_fixed(r: Seq<char>)
    requires
        r.len() > 0 ==> r[0] != '-',
        forall|i: int| 0 <= i < r.len() ==> valid_id_continue(#[trigger] r[i]),
        forall|i: int| 0 <= i < r.len() - 1 ==> !(#[trigger] r[i] == '-' && r[i + 1] == '-'),
    ensures
        squeeze(r) == if r.len() > 0 && r.last() == '-' {
            r.drop_last()
        } else {
            r
        },
    decreases r.len(),
{
    if r.len() > 0 {
        let p = r.drop_last();
        let c = r.last();
        if p.len() > 0 {
            assert(p[0] == r[0]);
        }
        assert forall|i: int| 0 <= i < p.len() - 1 implies !(#[trigger] p[i] == '-' && p[i + 1]
            == '-') by {
            assert(p[i] == r[i] && p[i + 1] == r[i + 1]);
        }
        lemma_squeeze_fixed(p);
        if c == '-' {
            assert(r[r.len() - 2] == p.last());
            assert(squeeze(r) == p);
        } else if p.len() > 0 && p.last() == '-' {
            assert(p.len() >= 2);
            assert(p.drop_last().push('-') == p);
            assert(p.push(c) == r);
        } else {
            assert(p.push(c) == r);
        }
    }
}

/// What `sanitize` returns is empty or a clean identifier.
pub proof fn lemma_sanitize_clean(s: Seq<char>)
    ensures
        sanitize(s).len() == 0 || clean_id(sanitize(s)),
{
    lemma_first_start(s, 0);
    let t = s.skip(first_start(s, 0));
    lemma_squeeze_shape(t);
    if t.len() > 0 {
        assert(t[0] == s[first_start(s, 0)]);
    }
}

/// A clean identifier is its own sanitized form.
pub proof fn lemma_sanitize_keeps_clean(r: Seq<char>)
    requires
        r.len() == 0 || clean_id(r),
    ensures
        sanitize(r) == r,
{
    assert(first_start(r, 0) == 0);
    assert(r.skip(0) == r);
    lemma_squeeze_fixed(r);
}

/// Sanitizing twice gives what sanitizing once gives.
pub proof fn lemma_sanitize_idempotent(s: Seq<char>)
    ensures
        sanitize(sanitize(s)) == sanitize(s),
{
    lemma_sanitize_clean(s);
    lemma_sanitize_keeps_clean(sanitize(s));
}

/// Sanitizes the characters `raw`.
pub fn sanitize_chars(raw: &[char]) -> (out: Vec<char>)
    ensures
        out@ == sanitize(raw@),
        out@.len() == 0 || clean_id(out@),
        out@.len() <= raw@.len(),
{
    let n = raw.len();
    let mut start: usize = 0;
    while start < n && !is_valid_id_start(raw[start])
        invariant
            start <= n == raw@.len(),
            first_start(raw@, 0) == first_start(raw@, start as int),
        decreases n - start,
    {
        start += 1;
    }
    let ghost tail = raw@.skip(start as int);
    let mut out: Vec<char> = Vec::new();
    let mut pending = false;
    let mut i: usize = start;
    while i < n
        invariant
            start <= i <= n == raw@.len(),
            tail == raw@.skip(start as int),
            out@ == squeeze(tail.take(i - start)),
            pending == (i > start && dash_like(raw@[i - 1])),
            out@.len() + (if pending { 1int } else { 0int }) <= i - start,
        decreases n - i,
    {
        let c = raw[i];
        proof {
            let d = tail.take(i + 1 - start);
            assert(d.drop_last() == tail.take(i - start));
            assert(d.last() == c);
            if i > start {
                assert(tail.take(i - start).last() == raw@[i - 1]);
            }
        }
        if is_valid_id_continue(c) && c != '-' {
            if pending && out.len() > 0 {
                out.push('-');
            }
            out.push(c);
            pending = false;
        } else {
            pending = true;
        }
        i += 1;
    }
    proof {
        assert(tail.take(n - start) == tail);
        lemma_sanitize_clean(raw@);
    }
    out
}

/// Sanitizes an identifier: drops the characters before the first one that
/// may start an identifier, replaces every run of characters that an
/// identifier cannot hold by a single `-`, trims `-` at the end and collapses
/// adjacent `-`. The result is empty where `raw` holds no character that may
/// start an identifier.
pub fn sanitize_id(raw: &str) -> (out: String)
    ensures
        out@ == sanitize(raw@),
        out@.len() == 0 || clean_id(out@),
{
    let cs = to_chars(raw);
    let r = sanitize_chars(cs.as_slice());
    from_chars(r.as_slice())
}

} // verus!
