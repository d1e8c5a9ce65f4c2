//! The parser of the root `<svg ...>` tag.
//!
//! Only the opening tag is parsed: its attributes come out as pairs of key
//! and value, and everything up to the first `</svg>` comes out as it stands.
use crate::text::{
    blank, contains, find, find_from, from_chars, lemma_find_from, lemma_span_end, matches_at,
    occurs_at, pair_texts, span, span_end, to_chars, CharClass,
};
use vstd::prelude::*;
use vstd::slice::slice_subrange;

verus! {

/// Why a file is not taken as an icon.
#[derive(Clone, Copy, Debug, PartialEq, Eq, Structural)]
pub enum ParseFailure {
    /// The text does not start with `<svg` and a blank.
    NoSvgTag,
    /// The value of an attribute opens a quote that is never closed.
    UnterminatedValue,
    /// After `=` no quoted value follows, or the attributes do not end in `>`.
    MalformedTag,
    /// No `</svg>` follows the opening tag.
    NoClosingTag,
}

/// The byte-order mark.
pub open spec fn bom() -> char {
    '\u{feff}'
}

/// The position reached from `i` by skipping whitespace, XML declarations
/// (`<?...?>`) and comments (`<!--...-->`), as often as one of them stands
/// there. A declaration or comment that is not closed is not skipped.
pub open spec fn prolog_end(s: Seq<char>, i: int) -> int
    decreases s.len() - i,
    via prolog_end_decreases
{
    let t = span_end(s, i, CharClass::Whitespace);
    if i < 0 || i > s.len() {
        i
    } else if occurs_at(s, t, "<?"@) {
        match find_from(s, t, "?>"@) {
            Some(e) => prolog_end(s, e + 2),
            None => t,
        }
    } else if occurs_at(s, t, "<!--"@) {
        match find_from(s, t, "-->"@) {
            Some(e) => prolog_end(s, e + 3),
            None => t,
        }
    } else {
        t
    }
}

#[via_fn]
proof fn prolog_end_decreases(s: Seq<char>, i: int) {
    if 0 <= i <= s.len() {
        let t = span_end(s, i, CharClass::Whitespace);
        reveal_strlit("?>");
        reveal_strlit("-->");
        lemma_span_end(s, i, CharClass::Whitespace);
        lemma_find_from(s, t, "?>"@);
        lemma_find_from(s, t, "-->"@);
    }
}

/// Where the root tag is looked for: after the leading byte-order marks and
/// the prolog.
pub open spec fn content_start(s: Seq<char>) -> int {
    prolog_end(s, span_end(s, 0, CharClass::Only(bom())))
}

/// The text without its leading byte-order marks and prolog.
pub open spec fn preprocess(s: Seq<char>) -> Seq<char> {
    s.skip(content_start(s))
}

/// The position in `s` where the root tag is looked for.
pub fn skip_prolog(s: &[char]) -> (start: usize)
    ensures
        start == content_start(s@),
        start <= s@.len(),
{
    let n = s.len();
    let open_decl = to_chars("<?");
    let close_decl = to_chars("?>");
    let open_comment = to_chars("<!--");
    let close_comment = to_chars("-->");
    let mut i: usize = span(s, 0, CharClass::Only('\u{feff}'));
    loop
        invariant
            i <= n == s@.len(),
            content_start(s@) == prolog_end(s@, i as int),
            open_decl@ == "<?"@,
            close_decl@ == "?>"@,
            open_comment@ == "<!--"@,
            close_comment@ == "-->"@,
        decreases n - i,
    {
        let t = span(s, i, CharClass::Whitespace);
        proof {
            reveal_strlit("?>");
            reveal_strlit("-->");
            lemma_find_from(s@, t as int, "?>"@);
            lemma_find_from(s@, t as int, "-->"@);
        }
        if matches_at(s, t, open_decl.as_slice()) {
            match find(s, t, close_decl.as_slice()) {
                Some(e) => {
                    i = e + 2;
                },
                None => {
                    return t;
                },
            }
        } else if matches_at(s, t, open_comment.as_slice()) {
            match find(s, t, close_comment.as_slice()) {
                Some(e) => {
                    i = e + 3;
                },
                None => {
                    return t;
                },
            }
        } else {
            return t;
        }
    }
}

/// Strips what may stand before the root tag: byte-order marks, then
/// whitespace, XML declarations and comments in any order and number.
pub fn preprocess_svg_content(input: &str) -> (out: String)
    ensures
        out@ == preprocess(input@),
{
    let cs = to_chars(input);
    let start = skip_prolog(cs.as_slice());
    from_chars(slice_subrange(cs.as_slice(), start, cs.len()))
}

/// What stands at a position where an attribute may start. Positions count
/// characters from the start of the text.
pub enum AttrParse {
    /// No key starts here.
    Absent,
    /// An attribute: its key stands at `key.0..key.1`, its value at
    /// `value.0..value.1`, and it ends at `next`.
    Found { key: (int, int), value: (int, int), next: int },
    /// A key and `=` with no quote after them.
    Unquoted,
    /// A key, `=` and a quote that is never closed.
    Unterminated,
}

/// The attribute at position `i`: a key, then either `=` and a value in
/// single or double quotes, with blanks allowed around the `=`, or nothing,
/// in which case the key is its own value.
pub open spec fn attribute_at(s: Seq<char>, i: int) -> AttrParse {
    let k = span_end(s, i, CharClass::Name);
    let e = span_end(s, k, CharClass::Blank);
    let v = span_end(s, e + 1, CharClass::Blank);
    if k == i {
        AttrParse::Absent
    } else if !(e < s.len() && s[e] == '=') {
        AttrParse::Found { key: (i, k), value: (i, k), next: k }
    } else if !(v < s.len() && (s[v] == '"' || s[v] == '\'')) {
        AttrParse::Unquoted
    } else {
        let c = span_end(s, v + 1, CharClass::Except(s[v]));
        if c < s.len() {
            AttrParse::Found { key: (i, k), value: (v + 1, c), next: c + 1 }
        } else {
            AttrParse::Unterminated
        }
    }
}

/// The attributes parsed so far, where parsing stopped, and what stood there.
pub struct AttrList {
    pub attrs: Seq<(Seq<char>, Seq<char>)>,
    pub end: int,
    pub stop: AttrParse,
}

/// The texts of a key and a value that stand at the given positions.
pub open spec fn key_value(s: Seq<char>, key: (int, int), value: (int, int)) -> (
    Seq<char>,
    Seq<char>,
) {
    (s.subrange(key.0, key.1), s.subrange(value.0, value.1))
}

/// The attributes that follow position `i`, each after at least one blank.
pub open spec fn more_attributes(s: Seq<char>, i: int) -> AttrList
    decreases s.len() - i,
    via more_attributes_decreases
{
    let w = span_end(s, i, CharClass::Blank);
    if i < 0 || i > s.len() || w == i {
        AttrList { attrs: Seq::empty(), end: i, stop: AttrParse::Absent }
    } else {
        match attribute_at(s, w) {
            AttrParse::Found { key, value, next } => {
                let rest = more_attributes(s, next);
                AttrList {
                    attrs: seq![key_value(s, key, value)] + rest.attrs,
                    end: rest.end,
                    stop: rest.stop,
                }
            },
            other => AttrList { attrs: Seq::empty(), end: i, stop: other },
        }
    }
}

proof fn lemma_attribute_at(s: Seq<char>, i: int)
    requires
        0 <= i <= s.len(),
    ensures
        match attribute_at(s, i) {
            AttrParse::Found { key, value, next } => {
                &&& key.0 == i
                &&& i < key.1 <= next <= s.len()
                &&& key.0 <= value.0 <= value.1 <= next
            },
            _ => true,
        },
{
    let k = span_end(s, i, CharClass::Name);
    lemma_span_end(s, i, CharClass::Name);
    let e = span_end(s, k, CharClass::Blank);
    lemma_span_end(s, k, CharClass::Blank);
    if e < s.len() {
        let v = span_end(s, e + 1, CharClass::Blank);
        lemma_span_end(s, e + 1, CharClass::Blank);
        if v < s.len() {
            lemma_span_end(s, v + 1, CharClass::Except(s[v]));
        }
    }
}

#[via_fn]
proof fn more_attributes_decreases(s: Seq<char>, i: int) {
    if 0 <= i <= s.len() {
        lemma_span_end(s, i, CharClass::Blank);
        lemma_attribute_at(s, span_end(s, i, CharClass::Blank));
    }
}

/// The attribute list at position `i`: blanks, then attributes separated by
/// blanks. The list ends where no further attribute parses.
pub open spec fn attribute_list(s: Seq<char>, i: int) -> AttrList {
    let w = span_end(s, i, CharClass::Blank);
    match attribute_at(s, w) {
        AttrParse::Found { key, value, next } => {
            let rest = more_attributes(s, next);
            AttrList {
                attrs: seq![key_value(s, key, value)] + rest.attrs,
                end: rest.end,
                stop: rest.stop,
            }
        },
        other => AttrList { attrs: Seq::empty(), end: w, stop: other },
    }
}

/// Whether the text opens with `<svg` and a blank.
pub open spec fn has_entry_tag(s: Seq<char>) -> bool {
    occurs_at(s, 0, "<svg"@) && 4 < s.len() && blank(s[4])
}

/// What the parser takes from a text.
pub struct ParsedTag {
    /// The attributes of the root tag, as pairs of key and value.
    pub attrs: Seq<(Seq<char>, Seq<char>)>,
    /// The content between the `>` of the opening tag and the first `</svg>`
    /// behind it.
    pub content: Seq<char>,
    /// The number of characters taken: the position behind that `</svg>`.
    /// What stands from there on is not looked at.
    pub taken: int,
}

/// The root tag of the text `s`: its attributes, the content between the `>`
/// of the opening tag and the first `</svg>` behind it, and the position
/// behind that `</svg>`.
pub open spec fn parse(s: Seq<char>) -> Result<ParsedTag, ParseFailure> {
    let list = attribute_list(s, span_end(s, 4, CharClass::Blank));
    let g = span_end(s, list.end, CharClass::Blank);
    if !has_entry_tag(s) {
        Err(ParseFailure::NoSvgTag)
    } else if list.stop is Unterminated {
        Err(ParseFailure::UnterminatedValue)
    } else if list.stop is Unquoted || !(g < s.len() && s[g] == '>') {
        Err(ParseFailure::MalformedTag)
    } else {
        match find_from(s, g + 1, "</svg>"@) {
            Some(c) => Ok(
                ParsedTag { attrs: list.attrs, content: s.subrange(g + 1, c), taken: c + 6 },
            ),
            None => Err(ParseFailure::NoClosingTag),
        }
    }
}

/// What is taken ends behind the first `</svg>` that follows the opening
/// tag: the content stands right before that `</svg>` and holds none itself.
pub proof fn lemma_parse_taken(s: Seq<char>)
    ensures
        parse(s) matches Ok(t) ==> {
            &&& t.content.len() + 6 <= t.taken <= s.len()
            &&& s.subrange(t.taken - 6, t.taken) == "</svg>"@
            &&& s.subrange(t.taken - 6 - t.content.len(), t.taken - 6) == t.content
            &&& !contains(t.content, "</svg>"@)
        },
{
    reveal_strlit("</svg>");
    if let Ok(t) = parse(s) {
        let list = attribute_list(s, span_end(s, 4, CharClass::Blank));
        let g = span_end(s, list.end, CharClass::Blank);
        lemma_find_from(s, g + 1, "</svg>"@);
        let c = t.taken - 6;
        assert forall|k: int| !occurs_at(t.content, k, "</svg>"@) by {
            if occurs_at(t.content, k, "</svg>"@) {
                assert(s.subrange(g + 1 + k, g + 1 + k + 6) =~= t.content.subrange(k, k + 6));
                assert(occurs_at(s, g + 1 + k, "</svg>"@));
            }
        }
    }
}

/// Where an attribute stands in the text: its key at
/// `key_start..key_end`, its value at `value_start..value_end`, its end at
/// `next`.
#[derive(Clone, Copy, Debug)]
pub struct AttrSpan {
    pub key_start: usize,
    pub key_end: usize,
    pub value_start: usize,
    pub value_end: usize,
    pub next: usize,
}

/// What was found at a position where an attribute may start.
#[derive(Clone, Copy, Debug)]
pub enum AttrScan {
    Absent,
    Found(AttrSpan),
    Unquoted,
    Unterminated,
}

impl AttrSpan {
    /// The texts of the key and the value.
    pub open spec fn texts(self, s: Seq<char>) -> (Seq<char>, Seq<char>) {
        key_value(
            s,
            (self.key_start as int, self.key_end as int),
            (self.value_start as int, self.value_end as int),
        )
    }

    /// Whether the positions lie inside the text.
    pub open spec fn within(self, s: Seq<char>) -> bool {
        &&& self.key_start <= self.key_end <= s.len()
        &&& self.value_start <= self.value_end <= s.len()
    }
}

impl AttrScan {
    /// What was found, with its positions as integers.
    pub open spec fn model(self) -> AttrParse {
        match self {
            AttrScan::Absent => AttrParse::Absent,
            AttrScan::Found(a) => AttrParse::Found {
                key: (a.key_start as int, a.key_end as int),
                value: (a.value_start as int, a.value_end as int),
                next: a.next as int,
            },
            AttrScan::Unquoted => AttrParse::Unquoted,
            AttrScan::Unterminated => AttrParse::Unterminated,
        }
    }
}

/// The texts of the attributes at `spans`.
pub open spec fn span_texts(s: Seq<char>, spans: Seq<AttrSpan>) -> Seq<(Seq<char>, Seq<char>)> {
    Seq::new(spans.len(), |k: int| spans[k].texts(s))
}

/// Scans the attribute at position `i`.
pub fn scan_attribute(s: &[char], i: usize) -> (r: AttrScan)
    requires
        i <= s@.len(),
    ensures
        r.model() == attribute_at(s@, i as int),
        r matches AttrScan::Found(a) ==> a.within(s@) && i < a.next <= s@.len(),
{
    let n = s.len();
    let k = span(s, i, CharClass::Name);
    if k == i {
        return AttrScan::Absent;
    }
    let e = span(s, k, CharClass::Blank);
    if !(e < n && s[e] == '=') {
        return AttrScan::Found(
            AttrSpan { key_start: i, key_end: k, value_start: i, value_end: k, next: k },
        );
    }
    let v = span(s, e + 1, CharClass::Blank);
    if !(v < n && (s[v] == '"' || s[v] == '\'')) {
        return AttrScan::Unquoted;
    }
    let c = span(s, v + 1, CharClass::Except(s[v]));
    if c < n {
        AttrScan::Found(
            AttrSpan { key_start: i, key_end: k, value_start: v + 1, value_end: c, next: c + 1 },
        )
    } else {
        AttrScan::Unterminated
    }
}

/// Scans the attribute list at position `i`. Returns where each attribute
/// stands, where the list ends, and what stood at the place where it ended.
pub fn scan_attributes(s: &[char], i: usize) -> (r: (Vec<AttrSpan>, usize, AttrScan))
    requires
        i <= s@.len(),
    ensures
        span_texts(s@, r.0@) == attribute_list(s@, i as int).attrs,
        r.1 == attribute_list(s@, i as int).end,
        r.2.model() == attribute_list(s@, i as int).stop,
        r.1 <= s@.len(),
        forall|k: int| 0 <= k < r.0@.len() ==> (#[trigger] r.0@[k]).within(s@),
{
    let n = s.len();
    let mut spans: Vec<AttrSpan> = Vec::new();
    let w = span(s, i, CharClass::Blank);
    let mut pos: usize = w;
    match scan_attribute(s, w) {
        AttrScan::Found(a) => {
            spans.push(a);
            pos = a.next;
        },
        other => {
            assert(span_texts(s@, spans@) =~= Seq::empty());
            return (spans, w, other);
        },
    }
    let ghost whole = attribute_list(s@, i as int);
    proof {
        let rest = more_attributes(s@, pos as int);
        assert(span_texts(s@, spans@) + rest.attrs =~= seq![spans@[0].texts(s@)] + rest.attrs);
    }
    loop
        invariant
            pos <= n == s@.len(),
            whole == attribute_list(s@, i as int),
            whole.attrs == span_texts(s@, spans@) + more_attributes(s@, pos as int).attrs,
            whole.end == more_attributes(s@, pos as int).end,
            whole.stop == more_attributes(s@, pos as int).stop,
            forall|k: int| 0 <= k < spans@.len() ==> (#[trigger] spans@[k]).within(s@),
        decreases n - pos,
    {
        let w = span(s, pos, CharClass::Blank);
        if w == pos {
            assert(span_texts(s@, spans@) + Seq::empty() =~= span_texts(s@, spans@));
            return (spans, pos, AttrScan::Absent);
        }
        match scan_attribute(s, w) {
            AttrScan::Found(a) => {
                proof {
                    let rest = more_attributes(s@, a.next as int);
                    assert(span_texts(s@, spans@.push(a)) + rest.attrs =~= span_texts(s@, spans@)
                        + (seq![a.texts(s@)] + rest.attrs));
                }
                spans.push(a);
                pos = a.next;
            },
            other => {
                assert(span_texts(s@, spans@) + Seq::empty() =~= span_texts(s@, spans@));
                return (spans, pos, other);
            },
        }
    }
}

/// Where the root tag and its content stand in a text.
pub struct TagSpans {
    pub attrs: Vec<AttrSpan>,
    pub content_start: usize,
    pub content_end: usize,
    /// The position behind the closing tag.
    pub end: usize,
}

impl TagSpans {
    /// Whether the positions lie inside the text.
    pub open spec fn within(self, s: Seq<char>) -> bool {
        &&& self.content_start <= self.content_end <= self.end <= s.len()
        &&& forall|k: int| 0 <= k < self.attrs@.len() ==> (#[trigger] self.attrs@[k]).within(s)
    }

    /// The attributes and the content as texts, and the number of characters
    /// taken.
    pub open spec fn texts(self, s: Seq<char>) -> ParsedTag {
        ParsedTag {
            attrs: span_texts(s, self.attrs@),
            content: s.subrange(self.content_start as int, self.content_end as int),
            taken: self.end as int,
        }
    }
}

/// Parses the root tag of the characters `s`.
pub fn parse_chars(s: &[char]) -> (r: Result<TagSpans, ParseFailure>)
    ensures
        match r {
            Ok(t) => t.within(s@) && parse(s@) == Ok::<_, ParseFailure>(t.texts(s@)),
            Err(e) => parse(s@) == Err::<ParsedTag, _>(e),
        },
{
    let n = s.len();
    let open = to_chars("<svg");
    let close = to_chars("</svg>");
    proof {
        reveal_strlit("<svg");
        reveal_strlit("</svg>");
    }
    if !(matches_at(s, 0, open.as_slice()) && 4 < n && (s[4] == ' ' || s[4] == '\t' || s[4] == '\r'
        || s[4] == '\n')) {
        return Err(ParseFailure::NoSvgTag);
    }
    let a0 = span(s, 4, CharClass::Blank);
    let (attrs, end, stop) = scan_attributes(s, a0);
    match stop {
        AttrScan::Unterminated => {
            return Err(ParseFailure::UnterminatedValue);
        },
        AttrScan::Unquoted => {
            return Err(ParseFailure::MalformedTag);
        },
        _ => {},
    }
    let g = span(s, end, CharClass::Blank);
    if !(g < n && s[g] == '>') {
        return Err(ParseFailure::MalformedTag);
    }
    proof {
        lemma_find_from(s@, g + 1, "</svg>"@);
    }
    match find(s, g + 1, close.as_slice()) {
        Some(c) => {
            assert(c + 6 <= n);
            Ok(TagSpans { attrs, content_start: g + 1, content_end: c, end: c + 6 })
        },
        None => Err(ParseFailure::NoClosingTag),
    }
}

/// The pairs of strings that stand at `spans` in `s`.
pub fn attribute_strings(s: &[char], spans: &Vec<AttrSpan>) -> (out: Vec<(String, String)>)
    requires
        forall|k: int| 0 <= k < spans@.len() ==> (#[trigger] spans@[k]).within(s@),
    ensures
        pair_texts(out@) == span_texts(s@, spans@),
{
    let mut out: Vec<(String, String)> = Vec::new();
    let mut k: usize = 0;
    while k < spans.len()
        invariant
            k <= spans.len(),
            out@.len() == k,
            forall|j: int| 0 <= j < spans@.len() ==> (#[trigger] spans@[j]).within(s@),
            pair_texts(out@) == span_texts(s@, spans@.take(k as int)),
        decreases spans.len() - k,
    {
        let a = spans[k];
        assert(a.within(s@));
        let key = from_chars(slice_subrange(s, a.key_start, a.key_end));
        let value = from_chars(slice_subrange(s, a.value_start, a.value_end));
        proof {
            let x = pair_texts(out@.push((key, value)));
            let y = span_texts(s@, spans@.take(k + 1));
            assert forall|j: int| 0 <= j < x.len() implies x[j] == y[j] by {
                if j < k {
                    assert(pair_texts(out@)[j] == span_texts(s@, spans@.take(k as int))[j]);
                }
            }
            assert(x =~= y);
        }
        out.push((key, value));
        k += 1;
    }
    proof {
        assert(spans@.take(spans.len() as int) == spans@);
    }
    out
}

/// Parses the root tag of `input`, which starts with `<svg` and at least one
/// blank. Returns the attributes of the tag, in order, the content up to the
/// first `</svg>`, as it stands, and the number of characters taken, which
/// ends behind that `</svg>`: what follows it is left. A key holds ASCII
/// letters, digits, `-`, `_` and `:`; a value stands in single or double
/// quotes; a key without a value is its own value.
pub fn parse_svg(input: &str) -> (r: Result<(Vec<(String, String)>, String, usize), ParseFailure>)
    ensures
        match r {
            Ok(t) => parse(input@) == Ok::<_, ParseFailure>(
                ParsedTag { attrs: pair_texts(t.0@), content: t.1@, taken: t.2 as int },
            ),
            Err(e) => parse(input@) == Err::<ParsedTag, _>(e),
        },
{
    let cs = to_chars(input);
    match parse_chars(cs.as_slice()) {
        Ok(t) => {
            let attrs = attribute_strings(cs.as_slice(), &t.attrs);
            let content = from_chars(slice_subrange(cs.as_slice(), t.content_start, t.content_end));
            Ok((attrs, content, t.end))
        },
        Err(e) => Err(e),
    }
}

/// The key that `input` starts with: its longest prefix of ASCII letters,
/// digits, `-`, `_` and `:`. `None` where that prefix is empty.
pub fn kebab_alpha1(input: &str) -> (r: Option<String>)
    ensures
        match r {
            Some(k) => k@.len() > 0 && k@ == input@.take(span_end(input@, 0, CharClass::Name)),
            None => span_end(input@, 0, CharClass::Name) == 0,
        },
{
    let cs = to_chars(input);
    let k = span(cs.as_slice(), 0, CharClass::Name);
    if k == 0 {
        None
    } else {
        Some(from_chars(slice_subrange(cs.as_slice(), 0, k)))
    }
}

/// The attribute that `input` starts with, as key and value, and the number
/// of characters it takes. `None` where no attribute parses there.
pub fn parse_attribute(input: &str) -> (r: Option<((String, String), usize)>)
    ensures
        match r {
            Some((kv, n)) => attribute_at(input@, 0) matches AttrParse::Found { key, value, next }
                && n == next && (kv.0@, kv.1@) == key_value(input@, key, value),
            None => !(attribute_at(input@, 0) is Found),
        },
{
    let cs = to_chars(input);
    match scan_attribute(cs.as_slice(), 0) {
        AttrScan::Found(a) => {
            let key = from_chars(slice_subrange(cs.as_slice(), a.key_start, a.key_end));
            let value = from_chars(slice_subrange(cs.as_slice(), a.value_start, a.value_end));
            Some(((key, value), a.next))
        },
        _ => None,
    }
}

/// The attribute list that `input` starts with, and the number of characters
/// up to the end of its last attribute.
pub fn attributes(input: &str) -> (r: (Vec<(String, String)>, usize))
    ensures
        pair_texts(r.0@) == attribute_list(input@, 0).attrs,
        r.1 == attribute_list(input@, 0).end,
{
    let cs = to_chars(input);
    let (spans, end, _stop) = scan_attributes(cs.as_slice(), 0);
    (attribute_strings(cs.as_slice(), &spans), end)
}

/// The number of characters that `<svg` and the blanks after it take at the
/// start of `input`. `None` where `input` does not start with `<svg` and a
/// blank.
pub fn entry_tag(input: &str) -> (r: Option<usize>)
    ensures
        match r {
            Some(n) => has_entry_tag(input@) && n == span_end(input@, 4, CharClass::Blank),
            None => !has_entry_tag(input@),
        },
{
    let cs = to_chars(input);
    let s = cs.as_slice();
    let open = to_chars("<svg");
    proof {
        reveal_strlit("<svg");
    }
    if matches_at(s, 0, open.as_slice()) && 4 < s.len() && (s[4] == ' ' || s[4] == '\t' || s[4]
        == '\r' || s[4] == '\n') {
        Some(span(s, 4, CharClass::Blank))
    } else {
        None
    }
}

/// The number of characters up to and with the `>` that follows the blanks
/// at the start of `input`. `None` where something else follows them.
pub fn parse_gt(input: &str) -> (r: Option<usize>)
    ensures
        match r {
            Some(n) => n == span_end(input@, 0, CharClass::Blank) + 1 && n <= input@.len()
                && input@[n - 1] == '>',
            None => {
                let g = span_end(input@, 0, CharClass::Blank);
                !(g < input@.len() && input@[g] == '>')
            },
        },
{
    let cs = to_chars(input);
    let s = cs.as_slice();
    let g = span(s, 0, CharClass::Blank);
    if g < s.len() && s[g] == '>' {
        Some(g + 1)
    } else {
        None
    }
}

/// The content at the start of `input`, up to the first `</svg>`, and the
/// number of characters up to the end of that `</svg>`. `None` where `input`
/// holds no `</svg>`.
pub fn parse_children(input: &str) -> (r: Option<(String, usize)>)
    ensures
        match r {
            Some((content, n)) => find_from(input@, 0, "</svg>"@) matches Some(c) && content@
                == input@.take(c) && n == c + 6,
            None => find_from(input@, 0, "</svg>"@) is None,
        },
{
    let cs = to_chars(input);
    let s = cs.as_slice();
    let close = to_chars("</svg>");
    proof {
        reveal_strlit("</svg>");
        lemma_find_from(input@, 0, "</svg>"@);
    }
    match find(s, 0, close.as_slice()) {
        Some(c) => {
            assert(c + 6 <= s.len());
            Some((from_chars(slice_subrange(s, 0, c)), c + 6))
        },
        None => None,
    }
}

} // verus!
