//! The file processor: from the text of one file to an icon, or to the error
//! that refuses the file.
use crate::error::{AppError, ErrorModel};
use crate::svg::ids::{references, references_chars, rewrite, rewrite_chars};
use crate::svg::normalize::{
    item_bounds, lemma_normalized_viewbox_idempotent, length_token, length_token_bounds,
    normalize_length_chars, normalize_viewbox_chars, normalized_length, normalized_viewbox,
    positive_numeral, readings, viewbox_items, Reading,
};
use crate::svg::parsing::{
    parse, parse_chars, preprocess, skip_prolog, span_texts, AttrSpan, ParseFailure, ParsedTag,
};
use crate::svg::sanitize::{clean_id, lemma_sanitize_clean, sanitize, sanitize_chars};
use crate::svg::transform::{SpriteModel, SvgSprite};
use crate::text::{from_chars, is_text, pair_texts, strings_from, texts, to_chars};
use vstd::prelude::*;
use vstd::slice::slice_subrange;

verus! {

/// What is noted of a file without refusing it.
#[derive(Clone, Copy, Debug, PartialEq, Eq, Structural)]
pub enum Warning {
    /// The id of the root tag was moved to `data-id`.
    RootIdMoved,
    /// The root tag has no `width`.
    MissingWidth,
    /// The root tag has no `height`.
    MissingHeight,
    /// The root tag has no `viewBox`.
    MissingViewBox,
}

/// What the file processor makes of one file.
#[derive(Debug)]
pub struct ProcessedFile {
    /// The path of the file.
    pub path: String,
    /// The icon.
    pub sprite: SvgSprite,
    /// The ids emitted inside the content, in order.
    pub child_ids: Vec<String>,
    /// The warnings, in the order in which they arose.
    pub warnings: Vec<Warning>,
}

/// What a processed file holds, as texts.
pub struct ProcessedModel {
    pub path: Seq<char>,
    pub sprite: SpriteModel,
    pub child_ids: Seq<Seq<char>>,
    pub warnings: Seq<Warning>,
}

impl View for ProcessedFile {
    type V = ProcessedModel;

    open spec fn view(&self) -> ProcessedModel {
        ProcessedModel {
            path: self.path@,
            sprite: self.sprite@,
            child_ids: texts(self.child_ids@),
            warnings: self.warnings@,
        }
    }
}

/// What a sequence of processed files holds.
pub open spec fn processed_models(v: Seq<ProcessedFile>) -> Seq<ProcessedModel> {
    Seq::new(v.len(), |i: int| v[i]@)
}

/// The message that tells why a root tag does not parse.
pub open spec fn failure_text(f: ParseFailure) -> Seq<char> {
    match f {
        ParseFailure::NoSvgTag => "expected `<svg` followed by whitespace"@,
        ParseFailure::UnterminatedValue => "unterminated attribute value"@,
        ParseFailure::MalformedTag => "malformed opening tag"@,
        ParseFailure::NoClosingTag => "missing closing `</svg>`"@,
    }
}

/// The message that tells why a root tag does not parse.
pub fn failure_message(f: ParseFailure) -> (r: &'static str)
    ensures
        r@ == failure_text(f),
{
    match f {
        ParseFailure::NoSvgTag => "expected `<svg` followed by whitespace",
        ParseFailure::UnterminatedValue => "unterminated attribute value",
        ParseFailure::MalformedTag => "malformed opening tag",
        ParseFailure::NoClosingTag => "missing closing `</svg>`",
    }
}

/// The attributes to write out so far, and the id of the root tag if one
/// was met.
pub struct Classified {
    pub attrs: Seq<(Seq<char>, Seq<char>)>,
    pub root_id: Option<Seq<char>>,
}

/// Takes one attribute of the root tag in: `id` is set aside, `width`,
/// `height` and `viewBox` are normalized or refuse the file, and every other
/// attribute passes as it is.
pub open spec fn classify_one(
    acc: Classified,
    path: Seq<char>,
    key: Seq<char>,
    value: Seq<char>,
    table: Seq<(Seq<char>, Option<Seq<char>>)>,
) -> Result<Classified, ErrorModel> {
    if key == "id"@ {
        Ok(Classified { attrs: acc.attrs, root_id: Some(value) })
    } else if key == "width"@ || key == "height"@ {
        match normalized_length(value, table) {
            Some(n) => Ok(Classified { attrs: acc.attrs.push((key, n)), root_id: acc.root_id }),
            None => Err(ErrorModel::InvalidDimension { path, attr: key, value }),
        }
    } else if key == "viewBox"@ {
        match normalized_viewbox(value, table) {
            Some(n) => Ok(Classified { attrs: acc.attrs.push((key, n)), root_id: acc.root_id }),
            None => Err(ErrorModel::InvalidViewBox { path, value }),
        }
    } else {
        Ok(Classified { attrs: acc.attrs.push((key, value)), root_id: acc.root_id })
    }
}

/// Takes the attributes of the root tag in, in order. The first attribute
/// that refuses the file decides the error.
pub open spec fn classified(
    attrs: Seq<(Seq<char>, Seq<char>)>,
    path: Seq<char>,
    table: Seq<(Seq<char>, Option<Seq<char>>)>,
) -> Result<Classified, ErrorModel>
    decreases attrs.len(),
{
    if attrs.len() == 0 {
        Ok(Classified { attrs: Seq::empty(), root_id: None })
    } else {
        match classified(attrs.drop_last(), path, table) {
            Ok(acc) => classify_one(acc, path, attrs.last().0, attrs.last().1, table),
            Err(e) => Err(e),
        }
    }
}

/// Whether one of the attributes has the key `key`.
pub open spec fn has_key(attrs: Seq<(Seq<char>, Seq<char>)>, key: Seq<char>) -> bool {
    exists|i: int| 0 <= i < attrs.len() && (#[trigger] attrs[i]).0 == key
}

/// One warning for each of `width`, `height` and `viewBox` that the root tag
/// lacks.
pub open spec fn missing(attrs: Seq<(Seq<char>, Seq<char>)>) -> Seq<Warning> {
    (if has_key(attrs, "width"@) {
        Seq::<Warning>::empty()
    } else {
        seq![Warning::MissingWidth]
    }) + (if has_key(attrs, "height"@) {
        Seq::<Warning>::empty()
    } else {
        seq![Warning::MissingHeight]
    }) + (if has_key(attrs, "viewBox"@) {
        Seq::<Warning>::empty()
    } else {
        seq![Warning::MissingViewBox]
    })
}

/// What the file processor makes of the text of a file: the root tag is
/// parsed after the prolog, its attributes are taken in, its id is moved to
/// `data-id` at the end of the attributes, and the ids inside its content are
/// rewritten.
pub open spec fn processed(
    path: Seq<char>,
    name: Seq<char>,
    text: Seq<char>,
    table: Seq<(Seq<char>, Option<Seq<char>>)>,
) -> Result<ProcessedModel, ErrorModel> {
    match parse(preprocess(text)) {
        Err(f) => Err(ErrorModel::ParseSvg { path, message: failure_text(f) }),
        Ok(tag) => match classified(tag.attrs, path, table) {
            Err(e) => Err(e),
            Ok(c) => match c.root_id {
                Some(raw) => if sanitize(raw).len() == 0 {
                    Err(ErrorModel::InvalidIdAfterSanitize { path, original: raw })
                } else if references(tag.content, raw) {
                    Err(ErrorModel::RootIdReferenced { path, id: raw })
                } else {
                    Ok(
                        ProcessedModel {
                            path,
                            sprite: SpriteModel {
                                name,
                                attributes: c.attrs.push(("data-id"@, sanitize(raw))),
                                children: rewrite(tag.content).0,
                            },
                            child_ids: rewrite(tag.content).1,
                            warnings: seq![Warning::RootIdMoved] + missing(tag.attrs),
                        },
                    )
                },
                None => Ok(
                    ProcessedModel {
                        path,
                        sprite: SpriteModel {
                            name,
                            attributes: c.attrs,
                            children: rewrite(tag.content).0,
                        },
                        child_ids: rewrite(tag.content).1,
                        warnings: missing(tag.attrs),
                    },
                ),
            },
        },
    }
}

/// An error among the first attributes is the error of them all.
proof fn lemma_classified_error(
    attrs: Seq<(Seq<char>, Seq<char>)>,
    k: int,
    path: Seq<char>,
    table: Seq<(Seq<char>, Option<Seq<char>>)>,
)
    requires
        0 <= k <= attrs.len(),
        classified(attrs.take(k), path, table) is Err,
    ensures
        classified(attrs, path, table) == classified(attrs.take(k), path, table),
    decreases attrs.len() - k,
{
    if k < attrs.len() {
        assert(attrs.take(k + 1).drop_last() == attrs.take(k));
        lemma_classified_error(attrs, k + 1, path, table);
    } else {
        assert(attrs.take(k) == attrs);
    }
}

/// Whether an attribute is fit to be written out: its key is not `id`; the
/// value of a `width` or `height` is the numeral of a number above zero; the
/// value of a `viewBox` has four items, the third and fourth numerals of
/// numbers above zero.
pub open spec fn fit(attr: (Seq<char>, Seq<char>)) -> bool {
    &&& attr.0 != "id"@
    &&& attr.0 == "width"@ || attr.0 == "height"@ ==> positive_numeral(attr.1)
    &&& attr.0 == "viewBox"@ ==> viewbox_items(attr.1).len() == 4 && positive_numeral(
        viewbox_items(attr.1)[2],
    ) && positive_numeral(viewbox_items(attr.1)[3])
}

proof fn lemma_keys_differ()
    ensures
        "id"@ != "width"@,
        "id"@ != "height"@,
        "id"@ != "viewBox"@,
        "id"@ != "data-id"@,
        "width"@ != "height"@,
        "width"@ != "viewBox"@,
        "width"@ != "data-id"@,
        "height"@ != "viewBox"@,
        "height"@ != "data-id"@,
        "viewBox"@ != "data-id"@,
{
    reveal_strlit("id");
    reveal_strlit("width");
    reveal_strlit("height");
    reveal_strlit("viewBox");
    reveal_strlit("data-id");
    assert("id"@.len() == 2);
    assert("width"@.len() == 5);
    assert("height"@.len() == 6);
    assert("viewBox"@.len() == 7);
    assert("viewBox"@[0] == 'v');
    assert("data-id"@[0] == 'd');
}

proof fn lemma_classified_fit(
    attrs: Seq<(Seq<char>, Seq<char>)>,
    path: Seq<char>,
    table: Seq<(Seq<char>, Option<Seq<char>>)>,
)
    ensures
        classified(attrs, path, table) matches Ok(c) ==> forall|i: int|
            0 <= i < c.attrs.len() ==> fit(#[trigger] c.attrs[i]),
    decreases attrs.len(),
{
    lemma_keys_differ();
    if attrs.len() > 0 {
        lemma_classified_fit(attrs.drop_last(), path, table);
        if let Ok(acc) = classified(attrs.drop_last(), path, table) {
            if let Ok(c) = classified(attrs, path, table) {
                let key = attrs.last().0;
                let value = attrs.last().1;
                if key == "viewBox"@ {
                    lemma_normalized_viewbox_idempotent(value, table);
                }
                assert forall|i: int| 0 <= i < c.attrs.len() implies fit(#[trigger] c.attrs[i]) by {
                    if i < acc.attrs.len() {
                        assert(c.attrs[i] == acc.attrs[i]);
                    }
                }
            }
        }
    }
}

/// Every attribute of a processed file is fit to be written out: the id of
/// the root tag is never written as `id`, and what is written for `width`,
/// `height` and `viewBox` is normalized. An id that was moved stands last, as
/// `data-id`, and is a clean identifier.
pub proof fn lemma_processed_fit(
    path: Seq<char>,
    name: Seq<char>,
    text: Seq<char>,
    table: Seq<(Seq<char>, Option<Seq<char>>)>,
)
    ensures
        processed(path, name, text, table) matches Ok(p) ==> {
            &&& forall|i: int|
                0 <= i < p.sprite.attributes.len() ==> fit(#[trigger] p.sprite.attributes[i])
            &&& p.warnings.len() > 0 && p.warnings[0] == Warning::RootIdMoved ==> {
                &&& p.sprite.attributes.len() > 0
                &&& p.sprite.attributes.last().0 == "data-id"@
                &&& clean_id(p.sprite.attributes.last().1)
            }
        },
{
    lemma_keys_differ();
    if let Ok(tag) = parse(preprocess(text)) {
        let attrs = tag.attrs;
        lemma_classified_fit(attrs, path, table);
        if let Ok(c) = classified(attrs, path, table) {
            if let Ok(p) = processed(path, name, text, table) {
                match c.root_id {
                    Some(raw) => {
                        lemma_sanitize_clean(raw);
                        assert forall|i: int| 0 <= i < p.sprite.attributes.len() implies fit(
                            #[trigger] p.sprite.attributes[i],
                        ) by {
                            if i < c.attrs.len() {
                                assert(p.sprite.attributes[i] == c.attrs[i]);
                            }
                        }
                    },
                    None => {
                        assert(p.warnings == missing(attrs));
                    },
                }
            }
        }
    }
}

/// Whether one of the attributes at `spans` has the key `key`.
fn contains_key(s: &[char], spans: &Vec<AttrSpan>, key: &str) -> (b: bool)
    requires
        forall|k: int| 0 <= k < spans@.len() ==> (#[trigger] spans@[k]).within(s@),
    ensures
        b == has_key(span_texts(s@, spans@), key@),
{
    let mut i: usize = 0;
    while i < spans.len()
        invariant
            i <= spans.len(),
            forall|k: int| 0 <= k < spans@.len() ==> (#[trigger] spans@[k]).within(s@),
            forall|k: int| 0 <= k < i ==> (#[trigger] span_texts(s@, spans@)[k]).0 != key@,
        decreases spans.len() - i,
    {
        let a = spans[i];
        assert(a.within(s@));
        if is_text(slice_subrange(s, a.key_start, a.key_end), key) {
            assert(span_texts(s@, spans@)[i as int].0 == key@);
            return true;
        }
        i += 1;
    }
    false
}

/// The warnings for what the root tag lacks.
fn missing_warnings(s: &[char], spans: &Vec<AttrSpan>, warnings: &mut Vec<Warning>)
    requires
        forall|k: int| 0 <= k < spans@.len() ==> (#[trigger] spans@[k]).within(s@),
    ensures
        final(warnings)@ == old(warnings)@ + missing(span_texts(s@, spans@)),
{
    let ghost attrs = span_texts(s@, spans@);
    let ghost w0 = warnings@;
    if !contains_key(s, spans, "width") {
        warnings.push(Warning::MissingWidth);
    }
    let ghost w1 = warnings@;
    if !contains_key(s, spans, "height") {
        warnings.push(Warning::MissingHeight);
    }
    let ghost w2 = warnings@;
    if !contains_key(s, spans, "viewBox") {
        warnings.push(Warning::MissingViewBox);
    }
    proof {
        let a = if has_key(attrs, "width"@) {
            Seq::<Warning>::empty()
        } else {
            seq![Warning::MissingWidth]
        };
        let b = if has_key(attrs, "height"@) {
            Seq::<Warning>::empty()
        } else {
            seq![Warning::MissingHeight]
        };
        let c = if has_key(attrs, "viewBox"@) {
            Seq::<Warning>::empty()
        } else {
            seq![Warning::MissingViewBox]
        };
        assert(w1 =~= w0 + a);
        assert(w2 =~= w1 + b);
        assert(warnings@ =~= w2 + c);
        assert(warnings@ =~= w0 + (a + b + c));
    }
}

/// Processes one file: `path` names it in errors, `name` becomes the id of
/// its pattern, `content` is its text, and `table` holds what the caller read
/// of its numeric tokens.
///
/// The file is refused with `ParseSvg` where its root tag does not parse,
/// with `InvalidDimension` or `InvalidViewBox` at the first attribute that
/// does not normalize, with `InvalidIdAfterSanitize` where the id of the root
/// tag is empty once sanitized, and with `RootIdReferenced` where the content
/// refers to that id.
pub fn process_file(path: &str, name: &str, content: &str, table: &[Reading]) -> (r: Result<
    ProcessedFile,
    AppError,
>)
    ensures
        match r {
            Ok(p) => processed(path@, name@, content@, readings(table@)) == Ok::<_, ErrorModel>(
                p@,
            ),
            Err(e) => processed(path@, name@, content@, readings(table@)) == Err::<
                ProcessedModel,
                _,
            >(e@),
        },
{
    let cs = to_chars(content);
    let start = skip_prolog(cs.as_slice());
    let s = slice_subrange(cs.as_slice(), start, cs.len());
    assert(s@ == preprocess(content@));
    let tag = match parse_chars(s) {
        Ok(t) => t,
        Err(f) => {
            return Err(
                AppError::ParseSvg {
                    path: path.to_owned(),
                    message: failure_message(f).to_owned(),
                },
            );
        },
    };
    let ghost attrs = span_texts(s@, tag.attrs@);
    let ghost tm = readings(table@);
    let ghost inner_text = s@.subrange(tag.content_start as int, tag.content_end as int);
    let spans = &tag.attrs;
    let mut out: Vec<(String, String)> = Vec::new();
    let mut root_id: Option<(usize, usize)> = None;
    let mut i: usize = 0;
    proof {
        assert(pair_texts(out@) =~= Seq::empty());
        assert(attrs.take(0) =~= Seq::empty());
    }
    while i < spans.len()
        invariant
            i <= spans.len(),
            attrs == span_texts(s@, spans@),
            tm == readings(table@),
            parse(preprocess(content@)) == Ok::<_, ParseFailure>(
                ParsedTag { attrs, content: inner_text, taken: tag.end as int },
            ),
            forall|k: int| 0 <= k < spans@.len() ==> (#[trigger] spans@[k]).within(s@),
            root_id matches Some(b) ==> b.0 <= b.1 <= s@.len(),
            classified(attrs.take(i as int), path@, tm) == Ok::<_, ErrorModel>(
                Classified {
                    attrs: pair_texts(out@),
                    root_id: match root_id {
                        Some(b) => Some(s@.subrange(b.0 as int, b.1 as int)),
                        None => None,
                    },
                },
            ),
        decreases spans.len() - i,
    {
        let a = spans[i];
        assert(a.within(s@));
        let key = slice_subrange(s, a.key_start, a.key_end);
        let value = slice_subrange(s, a.value_start, a.value_end);
        proof {
            let now = attrs.take(i + 1);
            assert(now.drop_last() == attrs.take(i as int));
            assert(now.last() == (key@, value@));
        }
        if is_text(key, "id") {
            root_id = Some((a.value_start, a.value_end));
        } else if is_text(key, "width") || is_text(key, "height") {
            match normalize_length_chars(value, table) {
                Some(n) => {
                    let k = from_chars(key);
                    let v = from_chars(n.as_slice());
                    assert(pair_texts(out@.push((k, v))) =~= pair_texts(out@).push((key@, n@)));
                    out.push((k, v));
                },
                None => {
                    proof {
                        lemma_classified_error(attrs, i + 1, path@, tm);
                    }
                    return Err(
                        AppError::InvalidDimension {
                            path: path.to_owned(),
                            attr: from_chars(key),
                            value: from_chars(value),
                        },
                    );
                },
            }
        } else if is_text(key, "viewBox") {
            match normalize_viewbox_chars(value, table) {
                Some(n) => {
                    let k = from_chars(key);
                    let v = from_chars(n.as_slice());
                    assert(pair_texts(out@.push((k, v))) =~= pair_texts(out@).push((key@, n@)));
                    out.push((k, v));
                },
                None => {
                    proof {
                        lemma_classified_error(attrs, i + 1, path@, tm);
                    }
                    return Err(
                        AppError::InvalidViewBox {
                            path: path.to_owned(),
                            value: from_chars(value),
                        },
                    );
                },
            }
        } else {
            let k = from_chars(key);
            let v = from_chars(value);
            assert(pair_texts(out@.push((k, v))) =~= pair_texts(out@).push((key@, value@)));
            out.push((k, v));
        }
        i += 1;
    }
    proof {
        assert(attrs.take(attrs.len() as int) == attrs);
    }
    let inner = slice_subrange(s, tag.content_start, tag.content_end);
    let mut warnings: Vec<Warning> = Vec::new();
    if let Some((b, e)) = root_id {
        let raw = slice_subrange(s, b, e);
        let clean = sanitize_chars(raw);
        if clean.len() == 0 {
            return Err(
                AppError::InvalidIdAfterSanitize {
                    path: path.to_owned(),
                    original: from_chars(raw),
                },
            );
        }
        if references_chars(inner, raw) {
            return Err(AppError::RootIdReferenced { path: path.to_owned(), id: from_chars(raw) });
        }
        let k = "data-id".to_owned();
        let v = from_chars(clean.as_slice());
        assert(pair_texts(out@.push((k, v))) =~= pair_texts(out@).push(("data-id"@, clean@)));
        out.push((k, v));
        warnings.push(Warning::RootIdMoved);
    }
    let rewritten = rewrite_chars(inner);
    missing_warnings(s, spans, &mut warnings);
    Ok(
        ProcessedFile {
            path: path.to_owned(),
            sprite: SvgSprite {
                name: name.to_owned(),
                attributes: out,
                children: from_chars(rewritten.0.as_slice()),
            },
            child_ids: strings_from(&rewritten.1),
            warnings,
        },
    )
}

/// The numeric tokens of one attribute of the root tag: the token of a
/// `width` or `height`, the items of a `viewBox`, and none for any other.
pub open spec fn tokens_of_attribute(key: Seq<char>, value: Seq<char>) -> Seq<Seq<char>> {
    if key == "width"@ || key == "height"@ {
        match length_token(value) {
            Some(t) => seq![t],
            None => Seq::empty(),
        }
    } else if key == "viewBox"@ {
        viewbox_items(value)
    } else {
        Seq::empty()
    }
}

/// The numeric tokens of the attributes, in order.
pub open spec fn tokens_of(attrs: Seq<(Seq<char>, Seq<char>)>) -> Seq<Seq<char>>
    decreases attrs.len(),
{
    if attrs.len() == 0 {
        Seq::empty()
    } else {
        tokens_of(attrs.drop_last()) + tokens_of_attribute(attrs.last().0, attrs.last().1)
    }
}

/// The numeric tokens of the root tag of a file; none where the root tag does
/// not parse.
pub open spec fn numeric_token_list(text: Seq<char>) -> Seq<Seq<char>> {
    match parse(preprocess(text)) {
        Ok(tag) => tokens_of(tag.attrs),
        Err(_) => Seq::empty(),
    }
}

/// The numeric tokens of the root tag of `content`, in order: what the caller
/// has to read as numbers before the file is processed.
pub fn numeric_tokens(content: &str) -> (r: Vec<String>)
    ensures
        texts(r@) == numeric_token_list(content@),
{
    let cs = to_chars(content);
    let start = skip_prolog(cs.as_slice());
    let s = slice_subrange(cs.as_slice(), start, cs.len());
    assert(s@ == preprocess(content@));
    let mut out: Vec<String> = Vec::new();
    let tag = match parse_chars(s) {
        Ok(t) => t,
        Err(_) => {
            assert(texts(out@) =~= Seq::empty());
            return out;
        },
    };
    let ghost attrs = span_texts(s@, tag.attrs@);
    let spans = &tag.attrs;
    let mut i: usize = 0;
    proof {
        assert(texts(out@) =~= Seq::empty());
        assert(attrs.take(0) =~= Seq::empty());
    }
    while i < spans.len()
        invariant
            i <= spans.len(),
            attrs == span_texts(s@, spans@),
            forall|k: int| 0 <= k < spans@.len() ==> (#[trigger] spans@[k]).within(s@),
            texts(out@) == tokens_of(attrs.take(i as int)),
        decreases spans.len() - i,
    {
        let a = spans[i];
        assert(a.within(s@));
        let key = slice_subrange(s, a.key_start, a.key_end);
        let value = slice_subrange(s, a.value_start, a.value_end);
        let ghost before = texts(out@);
        proof {
            let now = attrs.take(i + 1);
            assert(now.drop_last() == attrs.take(i as int));
            assert(now.last() == (key@, value@));
        }
        if is_text(key, "width") || is_text(key, "height") {
            match length_token_bounds(value) {
                Some((b, e)) => {
                    let t = from_chars(slice_subrange(value, b, e));
                    assert(texts(out@.push(t)) =~= before + seq![t@]);
                    out.push(t);
                },
                None => {
                    assert(before + Seq::<Seq<char>>::empty() =~= before);
                },
            }
        } else if is_text(key, "viewBox") {
            let bounds = item_bounds(value);
            let mut k: usize = 0;
            proof {
                assert(before + viewbox_items(value@).take(0) =~= before);
            }
            while k < bounds.len()
                invariant
                    k <= bounds.len(),
                    bounds@.len() == viewbox_items(value@).len(),
                    forall|j: int|
                        0 <= j < bounds@.len() ==> (#[trigger] bounds@[j]).0 <= bounds@[j].1
                            <= value@.len() && value@.subrange(
                            bounds@[j].0 as int,
                            bounds@[j].1 as int,
                        ) == viewbox_items(value@)[j],
                    texts(out@) == before + viewbox_items(value@).take(k as int),
                decreases bounds.len() - k,
            {
                let (b, e) = bounds[k];
                let t = from_chars(slice_subrange(value, b, e));
                proof {
                    let items = viewbox_items(value@);
                    assert(items.take(k + 1) =~= items.take(k as int).push(items[k as int]));
                    assert(texts(out@.push(t)) =~= texts(out@).push(t@));
                    assert(before + items.take(k as int).push(items[k as int]) =~= (before
                        + items.take(k as int)).push(items[k as int]));
                }
                out.push(t);
                k += 1;
            }
            proof {
                let items = viewbox_items(value@);
                assert(items.take(items.len() as int) == items);
            }
        } else {
            assert(before + Seq::<Seq<char>>::empty() =~= before);
        }
        i += 1;
    }
    proof {
        assert(attrs.take(attrs.len() as int) == attrs);
    }
    out
}

impl ProcessedFile {
    /// A copy of the processed file.
    pub fn duplicate(&self) -> (r: ProcessedFile)
        ensures
            r@ == self@,
    {
        let mut attributes: Vec<(String, String)> = Vec::new();
        let mut i: usize = 0;
        while i < self.sprite.attributes.len()
            invariant
                i <= self.sprite.attributes.len(),
                attributes@.len() == i,
                forall|k: int|
                    0 <= k < i ==> (#[trigger] attributes@[k]).0@ == self.sprite.attributes@[k].0@
                        && attributes@[k].1@ == self.sprite.attributes@[k].1@,
            decreases self.sprite.attributes.len() - i,
        {
            attributes.push(
                (self.sprite.attributes[i].0.clone(), self.sprite.attributes[i].1.clone()),
            );
            i += 1;
        }
        let mut child_ids: Vec<String> = Vec::new();
        let mut j: usize = 0;
        while j < self.child_ids.len()
            invariant
                j <= self.child_ids.len(),
                child_ids@.len() == j,
                forall|k: int| 0 <= k < j ==> (#[trigger] child_ids@[k])@ == self.child_ids@[k]@,
            decreases self.child_ids.len() - j,
        {
            child_ids.push(self.child_ids[j].clone());
            j += 1;
        }
        let mut warnings: Vec<Warning> = Vec::new();
        let mut w: usize = 0;
        while w < self.warnings.len()
            invariant
                w <= self.warnings.len(),
                warnings@ == self.warnings@.take(w as int),
            decreases self.warnings.len() - w,
        {
            warnings.push(self.warnings[w]);
            assert(self.warnings@.take(w + 1) == self.warnings@.take(w as int).push(
                self.warnings@[w as int],
            ));
            w += 1;
        }
        proof {
            assert(pair_texts(attributes@) =~= pair_texts(self.sprite.attributes@));
            assert(texts(child_ids@) =~= texts(self.child_ids@));
            assert(self.warnings@.take(self.warnings.len() as int) == self.warnings@);
        }
        ProcessedFile {
            path: self.path.clone(),
            sprite: SvgSprite {
                name: self.sprite.name.clone(),
                attributes,
                children: self.sprite.children.clone(),
            },
            child_ids,
            warnings,
        }
    }
}

} // verus!
