//! The parser takes back what a writer of root tags writes.
//!
//! A root tag can be written from its attributes and its content; the law at
//! the end of this file says that the parser gives both back.
use crate::svg::parsing::{
    attribute_at, attribute_list, has_entry_tag, key_value, more_attributes, parse, AttrList,
    AttrParse, ParseFailure, ParsedTag,
};
use crate::text::{
    all_in, contains, find_from, in_class, lemma_find_from, lemma_find_from_shift,
    lemma_span_end_is, occurs_at, span_end, CharClass,
};
use vstd::prelude::*;

verus! {

/// A key: not empty, and made of ASCII letters, digits, `-`, `_` and `:`.
pub open spec fn valid_key(k: Seq<char>) -> bool {
    k.len() > 0 && all_in(k, CharClass::Name)
}

/// A value that can stand in double quotes: it holds none.
pub open spec fn quotable(v: Seq<char>) -> bool {
    all_in(v, CharClass::Except('"'))
}

/// Whether every attribute has a key and a value that can be written.
pub open spec fn writable(attrs: Seq<(Seq<char>, Seq<char>)>) -> bool {
    forall|i: int|
        0 <= i < attrs.len() ==> valid_key((#[trigger] attrs[i]).0) && quotable(attrs[i].1)
}

/// An attribute as it is written: a space, the key, `=`, and the value in
/// double quotes.
pub open spec fn written_attribute(k: Seq<char>, v: Seq<char>) -> Seq<char> {
    seq![' '] + k + seq!['=', '"'] + v + seq!['"']
}

/// The attributes as they are written, in order.
pub open spec fn written_attributes(attrs: Seq<(Seq<char>, Seq<char>)>) -> Seq<char>
    decreases attrs.len(),
{
    if attrs.len() == 0 {
        Seq::empty()
    } else {
        written_attribute(attrs[0].0, attrs[0].1) + written_attributes(attrs.skip(1))
    }
}

/// A root tag as it is written: `<svg`, the attributes, a space and `>`, the
/// content, and `</svg>`.
pub open spec fn written_root(attrs: Seq<(Seq<char>, Seq<char>)>, content: Seq<char>) -> Seq<char> {
    "<svg"@ + written_attributes(attrs) + seq![' ', '>'] + content + "</svg>"@
}

proof fn lemma_written_attribute(p: Seq<char>, k: Seq<char>, v: Seq<char>, rest: Seq<char>)
    requires
        valid_key(k),
        quotable(v),
    ensures
        ({
            let s = p + written_attribute(k, v) + rest;
            let a: int = p.len() as int + 1;
            let e: int = a + k.len();
            let q: int = e + 2;
            let c: int = q + v.len();
            &&& attribute_at(s, a) == (AttrParse::Found { key: (a, e), value: (q, c), next: c + 1 })
            &&& key_value(s, (a, e), (q, c)) == (k, v)
        }),
{
    let s = p + written_attribute(k, v) + rest;
    let a: int = p.len() as int + 1;
    let e: int = a + k.len();
    let q: int = e + 2;
    let c: int = q + v.len();
    assert forall|i: int| a <= i < e implies in_class(CharClass::Name, #[trigger] s[i]) by {
        assert(s[i] == k[i - a]);
    }
    assert(s[e] == '=');
    assert(s[e + 1] == '"');
    assert forall|i: int| q <= i < c implies in_class(CharClass::Except('"'), #[trigger] s[i]) by {
        assert(s[i] == v[i - q]);
    }
    assert(s[c] == '"');
    lemma_span_end_is(s, a, e, CharClass::Name);
    lemma_span_end_is(s, e, e, CharClass::Blank);
    lemma_span_end_is(s, e + 1, e + 1, CharClass::Blank);
    lemma_span_end_is(s, q, c, CharClass::Except('"'));
    assert(s.subrange(a, e) =~= k);
    assert(s.subrange(q, c) =~= v);
}

proof fn lemma_written_attributes(
    p: Seq<char>,
    attrs: Seq<(Seq<char>, Seq<char>)>,
    tail: Seq<char>,
)
    requires
        writable(attrs),
        tail.len() >= 2,
        tail[0] == ' ',
        tail[1] == '>',
    ensures
        more_attributes(p + written_attributes(attrs) + tail, p.len() as int) == (AttrList {
            attrs,
            end: (p.len() + written_attributes(attrs).len()) as int,
            stop: AttrParse::Absent,
        }),
    decreases attrs.len(),
{
    let s = p + written_attributes(attrs) + tail;
    let at = p.len() as int;
    if attrs.len() == 0 {
        assert(s =~= p + tail);
        assert(s[at] == ' ');
        assert(s[at + 1] == '>');
        lemma_span_end_is(s, at, at + 1, CharClass::Blank);
        lemma_span_end_is(s, at + 1, at + 1, CharClass::Name);
        assert(more_attributes(s, at).attrs =~= attrs);
    } else {
        let k = attrs[0].0;
        let v = attrs[0].1;
        let rest = attrs.skip(1);
        let wa = written_attribute(k, v);
        let q = p + wa;
        assert(writable(rest)) by {
            assert forall|i: int| 0 <= i < rest.len() implies valid_key((#[trigger] rest[i]).0)
                && quotable(rest[i].1) by {
                assert(rest[i] == attrs[i + 1]);
            }
        }
        assert(s =~= p + wa + (written_attributes(rest) + tail));
        assert(s =~= q + written_attributes(rest) + tail);
        lemma_written_attribute(p, k, v, written_attributes(rest) + tail);
        lemma_written_attributes(q, rest, tail);
        assert(s[at] == ' ');
        assert(s[at + 1] == k[0]);
        assert(in_class(CharClass::Name, k[0]));
        lemma_span_end_is(s, at, at + 1, CharClass::Blank);
        assert(q.len() == at + k.len() + v.len() + 4);
        assert(seq![(k, v)] + rest =~= attrs);
    }
}

proof fn lemma_closing_tag_found(content: Seq<char>)
    requires
        !contains(content, "</svg>"@),
    ensures
        find_from(content + "</svg>"@, 0, "</svg>"@) == Some(content.len() as int),
{
    reveal_strlit("</svg>");
    let pat = "</svg>"@;
    let s = content + pat;
    let n = content.len() as int;
    assert(s.subrange(n, n + 6) =~= pat);
    assert(occurs_at(s, n, pat));
    lemma_find_from(s, 0, pat);
    let j = find_from(s, 0, pat)->0;
    if j < n {
        if j + 6 <= n {
            assert(content.subrange(j, j + 6) =~= s.subrange(j, j + 6));
            assert(occurs_at(content, j, pat));
        } else {
            let m: int = n - j;
            assert(s.subrange(j, j + 6)[m] == s[n]);
            assert(s[n] == pat[0]);
        }
    }
}

/// The opening tag as it is written: `<svg`, the attributes, a space and
/// `>`.
pub open spec fn written_opening(attrs: Seq<(Seq<char>, Seq<char>)>) -> Seq<char> {
    "<svg"@ + written_attributes(attrs) + seq![' ', '>']
}

proof fn lemma_written_opening(attrs: Seq<(Seq<char>, Seq<char>)>, rest: Seq<char>)
    requires
        writable(attrs),
    ensures
        ({
            let s = written_opening(attrs) + rest;
            let list = attribute_list(s, span_end(s, 4, CharClass::Blank));
            let g = written_opening(attrs).len() - 1;
            &&& has_entry_tag(s)
            &&& list.attrs == attrs
            &&& list.stop == AttrParse::Absent
            &&& span_end(s, list.end, CharClass::Blank) == g
            &&& s[g] == '>'
        }),
{
    reveal_strlit("<svg");
    let s = written_opening(attrs) + rest;
    let written = written_attributes(attrs);
    let tail = seq![' ', '>'] + rest;
    let g: int = written.len() as int + 5;
    assert(s =~= "<svg"@ + written + tail);
    lemma_written_attributes("<svg"@, attrs, tail);
    let more = more_attributes(s, 4);
    assert(more.attrs == attrs && more.end == g - 1 && more.stop == AttrParse::Absent);
    assert(s.subrange(0, 4) =~= "<svg"@);
    assert(s[g - 1] == ' ');
    assert(s[g] == '>');
    if attrs.len() == 0 {
        assert(s[4] == ' ');
        assert(s[5] == '>');
    } else {
        let k = attrs[0].0;
        assert(written[0] == ' ');
        assert(written[1] == k[0]);
        assert(s[4] == ' ');
        assert(s[5] == k[0]);
        assert(in_class(CharClass::Name, k[0]));
    }
    lemma_span_end_is(s, 4, 5, CharClass::Blank);
    lemma_span_end_is(s, 5, 5, CharClass::Blank);
    lemma_span_end_is(s, g - 1, g, CharClass::Blank);
    let list = attribute_list(s, 5);
    if attrs.len() == 0 {
        assert(!(attribute_at(s, 5) is Found));
        assert(list.end == 5);
        lemma_span_end_is(s, 5, 5, CharClass::Blank);
    } else {
        assert(attribute_at(s, 5) is Found);
        assert(list == more);
    }
}

/// The parser gives back the attributes and the content of a root tag that
/// was written from them, and takes all of what was written: wherever the
/// keys hold name characters alone, the values hold no double quote, and the
/// content holds no `</svg>`.
pub proof fn lemma_parse_written_root(attrs: Seq<(Seq<char>, Seq<char>)>, content: Seq<char>)
    requires
        writable(attrs),
        !contains(content, "</svg>"@),
    ensures
        parse(written_root(attrs, content)) == Ok::<_, ParseFailure>(
            ParsedTag { attrs, content, taken: written_root(attrs, content).len() as int },
        ),
{
    reveal_strlit("</svg>");
    let s = written_root(attrs, content);
    let head = written_opening(attrs);
    let close = content + "</svg>"@;
    assert(s =~= head + close);
    assert(s.len() == head.len() + content.len() + 6);
    lemma_written_opening(attrs, close);
    lemma_closing_tag_found(content);
    lemma_find_from_shift(head, close, 0, "</svg>"@);
    let g = head.len() - 1;
    assert(find_from(s, g + 1, "</svg>"@) == Some(g + 1 + content.len()));
    assert(s.subrange(g + 1, g + 1 + content.len()) =~= content);
}

} // verus!
