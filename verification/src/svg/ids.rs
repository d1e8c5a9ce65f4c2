//! Identifiers inside the content of an icon: references to an id, and the
//! rewriting of `id` attributes to `data-id` attributes.
//!
//! The content is scanned as text; it is not parsed as markup.
use crate::svg::sanitize::{sanitize, sanitize_chars};
use crate::text::{
    char_texts, contains, copy_range, decimal, from_chars, has, lemma_span_end, name_char,
    push_all, push_decimal, push_range, push_str, same_chars, span, span_end, strings_from, texts,
    to_chars, CharClass,
};
use crate::text::is_name_char;
use vstd::prelude::*;
use vstd::slice::slice_subrange;

verus! {

/// Whether `content` refers to `id` in one of the forms `href="#id"`,
/// `xlink:href="#id"`, `href='#id'`, `xlink:href='#id'` and `url(#id)`.
pub open spec fn references(content: Seq<char>, id: Seq<char>) -> bool {
    ||| contains(content, "href=\"#"@ + id + "\""@)
    ||| contains(content, "xlink:href=\"#"@ + id + "\""@)
    ||| contains(content, "href='#"@ + id + "'"@)
    ||| contains(content, "xlink:href='#"@ + id + "'"@)
    ||| contains(content, "url(#"@ + id + ")"@)
}

fn has_wrapped(content: &[char], before: &str, id: &[char], after: &str) -> (b: bool)
    ensures
        b == contains(content@, before@ + id@ + after@),
{
    let mut pat: Vec<char> = Vec::new();
    push_str(&mut pat, before);
    push_all(&mut pat, id);
    push_str(&mut pat, after);
    assert(pat@ == before@ + id@ + after@);
    has(content, pat.as_slice())
}

/// Whether the characters `content` refer to the identifier `id`.
pub fn references_chars(content: &[char], id: &[char]) -> (b: bool)
    ensures
        b == references(content@, id@),
{
    has_wrapped(content, "href=\"#", id, "\"") || has_wrapped(content, "xlink:href=\"#", id, "\"")
        || has_wrapped(content, "href='#", id, "'") || has_wrapped(
        content,
        "xlink:href='#",
        id,
        "'",
    ) || has_wrapped(content, "url(#", id, ")")
}

/// Whether `content` refers to `id` through `href`, `xlink:href` or
/// `url(...)`. The id is taken letter for letter.
pub fn references_id(content: &str, id: &str) -> (b: bool)
    ensures
        b == references(content@, id@),
{
    let c = to_chars(content);
    let i = to_chars(id);
    references_chars(c.as_slice(), i.as_slice())
}

/// A single or a double quote.
pub open spec fn quote(c: char) -> bool {
    c == '"' || c == '\''
}

/// Whether an `id` attribute of its own, with an opening quote, starts at
/// `i`: the text there reads `id=` and a quote, and the character before it
/// is not part of a name, which leaves out `data-id` and the like.
pub open spec fn id_attr_at(s: Seq<char>, i: int) -> bool {
    &&& 0 <= i
    &&& i + 4 <= s.len()
    &&& s[i] == 'i'
    &&& s[i + 1] == 'd'
    &&& s[i + 2] == '='
    &&& quote(s[i + 3])
    &&& (i == 0 || !name_char(s[i - 1]))
}

fn is_id_attr_at(s: &[char], i: usize) -> (b: bool)
    requires
        i < s@.len(),
    ensures
        b == id_attr_at(s@, i as int),
{
    if s.len() - i < 4 {
        return false;
    }
    s[i] == 'i' && s[i + 1] == 'd' && s[i + 2] == '=' && (s[i + 3] == '"' || s[i + 3] == '\'')
        && (i == 0 || !is_name_char(s[i - 1]))
}

/// The token that stands for an id whose sanitized form is empty.
pub open spec fn fallback_id() -> Seq<char> {
    seq!['x']
}

/// The sanitized form of a raw id, or the fallback token where that is empty.
pub open spec fn base_id(raw: Seq<char>) -> Seq<char> {
    if sanitize(raw).len() == 0 {
        fallback_id()
    } else {
        sanitize(raw)
    }
}

/// How often `base` occurs in `seen`.
pub open spec fn occurrences(seen: Seq<Seq<char>>, base: Seq<char>) -> nat
    decreases seen.len(),
{
    if seen.len() == 0 {
        0
    } else {
        occurrences(seen.drop_last(), base) + if seen.last() == base {
            1nat
        } else {
            0nat
        }
    }
}

/// The id emitted for `base` after the bases `seen`: `base` itself the first
/// time, and `base-N` the N-th time.
pub open spec fn final_id(seen: Seq<Seq<char>>, base: Seq<char>) -> Seq<char> {
    if occurrences(seen, base) == 0 {
        base
    } else {
        base + seq!['-'] + decimal(occurrences(seen, base) + 1)
    }
}

/// The rewritten text of `s` from position `i` on, and the ids emitted there,
/// where `seen` holds the bases of the ids emitted before `i`.
///
/// An `id` attribute whose quote is not closed ends the rewriting: the rest
/// is copied as it is.
pub open spec fn rewrite_from(s: Seq<char>, i: int, seen: Seq<Seq<char>>) -> (Seq<char>, Seq<
    Seq<char>,
>)
    decreases s.len() - i,
    via rewrite_from_decreases
{
    if i < 0 || i >= s.len() {
        (Seq::empty(), Seq::empty())
    } else if id_attr_at(s, i) {
        let q = s[i + 3];
        let j = span_end(s, i + 4, CharClass::Except(q));
        if j >= s.len() {
            (s.skip(i), Seq::empty())
        } else {
            let base = base_id(s.subrange(i + 4, j));
            let id = final_id(seen, base);
            let rest = rewrite_from(s, j + 1, seen.push(base));
            ("data-id="@ + seq![q] + id + seq![q] + rest.0, seq![id] + rest.1)
        }
    } else {
        let rest = rewrite_from(s, i + 1, seen);
        (seq![s[i]] + rest.0, rest.1)
    }
}

#[via_fn]
proof fn rewrite_from_decreases(s: Seq<char>, i: int, seen: Seq<Seq<char>>) {
    if 0 <= i < s.len() && id_attr_at(s, i) {
        lemma_span_end(s, i + 4, CharClass::Except(s[i + 3]));
    }
}

/// The content `s` with every `id` attribute of its own rewritten to
/// `data-id`, and the ids emitted, in order.
pub open spec fn rewrite(s: Seq<char>) -> (Seq<char>, Seq<Seq<char>>) {
    rewrite_from(s, 0, Seq::empty())
}

fn count_occurrences(seen: &Vec<Vec<char>>, base: &[char]) -> (n: usize)
    ensures
        n == occurrences(char_texts(seen@), base@),
        n <= seen@.len(),
{
    let mut n: usize = 0;
    let mut k: usize = 0;
    while k < seen.len()
        invariant
            k <= seen.len(),
            n <= k,
            n == occurrences(char_texts(seen@.take(k as int)), base@),
        decreases seen.len() - k,
    {
        proof {
            let t = char_texts(seen@.take(k + 1));
            assert(t.drop_last() =~= char_texts(seen@.take(k as int)));
            assert(t.last() == seen@[k as int]@);
        }
        if same_chars(seen[k].as_slice(), base) {
            n += 1;
        }
        k += 1;
    }
    proof {
        assert(seen@.take(seen.len() as int) == seen@);
    }
    n
}

/// Rewrites the `id` attributes of the characters `s`.
pub fn rewrite_chars(s: &[char]) -> (out: (Vec<char>, Vec<Vec<char>>))
    ensures
        out.0@ == rewrite(s@).0,
        char_texts(out.1@) == rewrite(s@).1,
{
    let n = s.len();
    let mut text: Vec<char> = Vec::new();
    let mut ids: Vec<Vec<char>> = Vec::new();
    let mut seen: Vec<Vec<char>> = Vec::new();
    let mut i: usize = 0;
    proof {
        assert(char_texts(seen@) =~= Seq::empty());
        assert(text@ + rewrite(s@).0 =~= rewrite(s@).0);
        assert(char_texts(ids@) + rewrite(s@).1 =~= rewrite(s@).1);
    }
    while i < n
        invariant
            i <= n == s@.len(),
            seen@.len() <= i,
            rewrite(s@).0 == text@ + rewrite_from(s@, i as int, char_texts(seen@)).0,
            rewrite(s@).1 == char_texts(ids@) + rewrite_from(s@, i as int, char_texts(seen@)).1,
        decreases n - i,
    {
        if is_id_attr_at(s, i) {
            let q = s[i + 3];
            let j = span(s, i + 4, CharClass::Except(q));
            if j >= n {
                push_range(&mut text, s, i, n);
                proof {
                    assert(s@.skip(i as int) == s@.subrange(i as int, n as int));
                    assert(char_texts(ids@) + Seq::<Seq<char>>::empty() =~= char_texts(ids@));
                }
                i = n;
            } else {
                let mut base = sanitize_chars(slice_subrange(s, i + 4, j));
                if base.len() == 0 {
                    base.push('x');
                    assert(base@ == fallback_id());
                }
                let k = count_occurrences(&seen, base.as_slice());
                let mut id = copy_range(base.as_slice(), 0, base.len());
                assert(id@ == base@);
                if k > 0 {
                    id.push('-');
                    push_decimal(&mut id, k + 1);
                }
                assert(id@ == final_id(char_texts(seen@), base@));
                let ghost before = text@;
                push_str(&mut text, "data-id=");
                text.push(q);
                push_all(&mut text, id.as_slice());
                text.push(q);
                proof {
                    let rest = rewrite_from(s@, j + 1, char_texts(seen@).push(base@));
                    assert(text@ + rest.0 =~= before + ("data-id="@ + seq![q] + id@ + seq![q]
                        + rest.0));
                    assert(char_texts(seen@.push(base)) =~= char_texts(seen@).push(base@));
                    assert(char_texts(ids@.push(id)) + rest.1 =~= char_texts(ids@) + (seq![id@]
                        + rest.1));
                }
                ids.push(id);
                seen.push(base);
                i = j + 1;
            }
        } else {
            proof {
                let rest = rewrite_from(s@, i + 1, char_texts(seen@));
                assert(text@.push(s@[i as int]) + rest.0 =~= text@ + (seq![s@[i as int]]
                    + rest.0));
            }
            text.push(s[i]);
            i += 1;
        }
    }
    proof {
        assert(text@ + Seq::<char>::empty() =~= text@);
        assert(char_texts(ids@) + Seq::<Seq<char>>::empty() =~= char_texts(ids@));
    }
    (text, ids)
}

/// Rewrites every `id="..."` and `id='...'` attribute of its own in `s` to
/// `data-id`, with the same quote. The value is sanitized, or replaced by a
/// fallback token where its sanitized form is empty; the N-th use of a value
/// gets the suffix `-N`, from the second on. Returns the rewritten content and
/// the ids emitted, in order.
pub fn rewrite_ids_to_data_ids(s: &str) -> (out: (String, Vec<String>))
    ensures
        out.0@ == rewrite(s@).0,
        texts(out.1@) == rewrite(s@).1,
{
    let cs = to_chars(s);
    let r = rewrite_chars(cs.as_slice());
    (from_chars(r.0.as_slice()), strings_from(&r.1))
}

/// The values of the `id` attributes of their own in `s` from position `i`
/// on, as they stand, in order. An `id` attribute whose quote is not closed
/// ends the list.
pub open spec fn raw_ids_from(s: Seq<char>, i: int) -> Seq<Seq<char>>
    decreases s.len() - i,
    via raw_ids_from_decreases
{
    if i < 0 || i >= s.len() {
        Seq::empty()
    } else if id_attr_at(s, i) {
        let j = span_end(s, i + 4, CharClass::Except(s[i + 3]));
        if j >= s.len() {
            Seq::empty()
        } else {
            seq![s.subrange(i + 4, j)] + raw_ids_from(s, j + 1)
        }
    } else {
        raw_ids_from(s, i + 1)
    }
}

#[via_fn]
proof fn raw_ids_from_decreases(s: Seq<char>, i: int) {
    if 0 <= i < s.len() && id_attr_at(s, i) {
        lemma_span_end(s, i + 4, CharClass::Except(s[i + 3]));
    }
}

/// The values of the `id` attributes of their own in `s`.
pub open spec fn raw_ids(s: Seq<char>) -> Seq<Seq<char>> {
    raw_ids_from(s, 0)
}

/// The ids emitted for the raw values `raws`, in order, after the bases
/// `seen`.
pub open spec fn emitted_after(seen: Seq<Seq<char>>, raws: Seq<Seq<char>>) -> Seq<Seq<char>>
    decreases raws.len(),
{
    if raws.len() == 0 {
        Seq::empty()
    } else {
        seq![final_id(seen, base_id(raws[0]))] + emitted_after(
            seen.push(base_id(raws[0])),
            raws.skip(1),
        )
    }
}

proof fn lemma_rewrite_from_emits(s: Seq<char>, i: int, seen: Seq<Seq<char>>)
    requires
        0 <= i,
    ensures
        rewrite_from(s, i, seen).1 == emitted_after(seen, raw_ids_from(s, i)),
    decreases s.len() - i,
{
    if i < s.len() {
        if id_attr_at(s, i) {
            let q = s[i + 3];
            let j = span_end(s, i + 4, CharClass::Except(q));
            lemma_span_end(s, i + 4, CharClass::Except(q));
            if j < s.len() {
                let raw = s.subrange(i + 4, j);
                lemma_rewrite_from_emits(s, j + 1, seen.push(base_id(raw)));
                let raws = raw_ids_from(s, i);
                assert(raws[0] == raw);
                assert(raws.skip(1) =~= raw_ids_from(s, j + 1));
            }
        } else {
            lemma_rewrite_from_emits(s, i + 1, seen);
            assert(rewrite_from(s, i, seen).1 == rewrite_from(s, i + 1, seen).1);
        }
    }
}

/// The ids that the rewriting emits are those of the raw values of the `id`
/// attributes, in order: each the sanitized value, or the fallback token,
/// with `-N` behind it at its N-th use, from the second on.
pub proof fn lemma_rewrite_emits(s: Seq<char>)
    ensures
        rewrite(s).1 == emitted_after(Seq::empty(), raw_ids(s)),
{
    lemma_rewrite_from_emits(s, 0, Seq::empty());
}

/// The values of the `id` attributes of their own in the characters `s`.
pub fn extract_chars(s: &[char]) -> (out: Vec<Vec<char>>)
    ensures
        char_texts(out@) == raw_ids(s@),
{
    let n = s.len();
    let mut ids: Vec<Vec<char>> = Vec::new();
    let mut i: usize = 0;
    proof {
        assert(char_texts(ids@) + raw_ids(s@) =~= raw_ids(s@));
    }
    while i < n
        invariant
            i <= n == s@.len(),
            raw_ids(s@) == char_texts(ids@) + raw_ids_from(s@, i as int),
        decreases n - i,
    {
        if is_id_attr_at(s, i) {
            let j = span(s, i + 4, CharClass::Except(s[i + 3]));
            if j >= n {
                proof {
                    assert(char_texts(ids@) + Seq::<Seq<char>>::empty() =~= char_texts(ids@));
                }
                return ids;
            }
            let raw = copy_range(s, i + 4, j);
            proof {
                let rest = raw_ids_from(s@, j + 1);
                assert(char_texts(ids@.push(raw)) + rest =~= char_texts(ids@) + (seq![raw@]
                    + rest));
            }
            ids.push(raw);
            i = j + 1;
        } else {
            i += 1;
        }
    }
    proof {
        assert(char_texts(ids@) + Seq::<Seq<char>>::empty() =~= char_texts(ids@));
    }
    ids
}

/// The values of the `id="..."` and `id='...'` attributes of their own in
/// `s`, as they stand, in order. Names that only end in `id`, such as
/// `data-id`, are passed over.
pub fn extract_ids(s: &str) -> (out: Vec<String>)
    ensures
        texts(out@) == raw_ids(s@),
{
    let cs = to_chars(s);
    let r = extract_chars(cs.as_slice());
    strings_from(&r)
}

} // verus!
