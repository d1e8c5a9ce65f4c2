//! Normalization of the `width`, `height` and `viewBox` values of the root
//! tag.
//!
//! The library does no arithmetic on real numbers. It cuts a value into its
//! numeric tokens; the caller reads each token as a decimal number and hands
//! back, for a token that reads as a finite number, the canonical decimal
//! text of that number. The library checks that text and decides from it.
use crate::text::{
    all_in, ascii_digit, copy_range, ends_with, from_chars, has_suffix, in_class, lemma_span_end,
    lemma_span_end_is, lemma_span_end_shift, lemma_trim_padded, push_all, same_chars, span,
    span_end, to_chars, trim, trim_bounds, whitespace, CharClass,
};
use vstd::prelude::*;
use vstd::slice::slice_subrange;

verus! {

/// A numeric token and what the caller read of it.
#[derive(Debug)]
pub struct Reading {
    /// The token, as the library cut it out.
    pub token: String,
    /// The canonical decimal text of the token's value; `None` where the
    /// token does not read as a finite number.
    pub canonical: Option<String>,
}

impl Reading {
    /// The token and the canonical text, as texts.
    pub open spec fn model(self) -> (Seq<char>, Option<Seq<char>>) {
        (
            self.token@,
            match self.canonical {
                Some(c) => Some(c@),
                None => None,
            },
        )
    }
}

/// The readings that a table holds, as pairs of token and canonical text.
pub open spec fn readings(table: Seq<Reading>) -> Seq<(Seq<char>, Option<Seq<char>>)> {
    Seq::new(table.len(), |i: int| table[i].model())
}

/// A decimal numeral: an optional `-`, digits, and optionally `.` and more
/// digits.
pub open spec fn numeral(t: Seq<char>) -> bool {
    let a: int = if t.len() > 0 && t[0] == '-' {
        1
    } else {
        0
    };
    let d = span_end(t, a, CharClass::Digit);
    &&& d > a
    &&& (d == t.len() || (t[d] == '.' && d + 1 < t.len() && span_end(t, d + 1, CharClass::Digit)
        == t.len()))
}

/// A numeral of a number above zero: no sign, and a digit that is not `0`.
pub open spec fn positive_numeral(t: Seq<char>) -> bool {
    &&& numeral(t)
    &&& t[0] != '-'
    &&& exists|i: int| 0 <= i < t.len() && '1' <= #[trigger] t[i] && t[i] <= '9'
}

/// What the table says of `token`: the canonical text of the first reading
/// of that token, where it is a numeral.
pub open spec fn lookup(table: Seq<(Seq<char>, Option<Seq<char>>)>, token: Seq<char>) -> Option<
    Seq<char>,
>
    decreases table.len(),
{
    if table.len() == 0 {
        None
    } else if table[0].0 == token {
        match table[0].1 {
            Some(c) => if numeral(c) {
                Some(c)
            } else {
                None
            },
            None => None,
        }
    } else {
        lookup(table.skip(1), token)
    }
}

/// The numeric token of a length: the value without the whitespace around it
/// and without `px` at its end. `None` where it ends in `%`, `em` or `rem`.
pub open spec fn length_token(v: Seq<char>) -> Option<Seq<char>> {
    let t = trim(v);
    let num = if ends_with(t, "px"@) {
        trim(t.take(t.len() - 2))
    } else {
        t
    };
    if ends_with(num, "%"@) || ends_with(num, "em"@) || ends_with(num, "rem"@) {
        None
    } else {
        Some(num)
    }
}

/// The canonical form of the length `v`: the canonical text of its token,
/// where that is the numeral of a number above zero.
pub open spec fn normalized_length(
    v: Seq<char>,
    table: Seq<(Seq<char>, Option<Seq<char>>)>,
) -> Option<Seq<char>> {
    match length_token(v) {
        Some(token) => match lookup(table, token) {
            Some(c) => if positive_numeral(c) {
                Some(c)
            } else {
                None
            },
            None => None,
        },
        None => None,
    }
}

/// The items of a list from position `i` on: the runs of characters between
/// whitespace and commas.
pub open spec fn items_from(s: Seq<char>, i: int) -> Seq<Seq<char>>
    decreases s.len() - i,
    via items_from_decreases
{
    let a = span_end(s, i, CharClass::Separator);
    let b = span_end(s, a, CharClass::Item);
    if i < 0 || a >= s.len() {
        Seq::empty()
    } else {
        seq![s.subrange(a, b)] + items_from(s, b)
    }
}

#[via_fn]
proof fn items_from_decreases(s: Seq<char>, i: int) {
    if 0 <= i <= s.len() {
        let a = span_end(s, i, CharClass::Separator);
        lemma_span_end(s, i, CharClass::Separator);
        lemma_span_end(s, a, CharClass::Item);
    }
}

/// The numeric tokens of a `viewBox`: its items.
pub open spec fn viewbox_items(v: Seq<char>) -> Seq<Seq<char>> {
    items_from(v, 0)
}

/// Four texts joined by single spaces.
pub open spec fn joined(a: Seq<char>, b: Seq<char>, c: Seq<char>, d: Seq<char>) -> Seq<char> {
    a + seq![' '] + b + seq![' '] + c + seq![' '] + d
}

/// The canonical form of the `viewBox` `v`: the canonical texts of its four
/// tokens, joined by single spaces, where all four are numerals and the
/// third and fourth, the width and the height, are above zero.
pub open spec fn normalized_viewbox(
    v: Seq<char>,
    table: Seq<(Seq<char>, Option<Seq<char>>)>,
) -> Option<Seq<char>> {
    let items = viewbox_items(v);
    if items.len() != 4 {
        None
    } else {
        match (
            lookup(table, items[0]),
            lookup(table, items[1]),
            lookup(table, items[2]),
            lookup(table, items[3]),
        ) {
            (Some(x), Some(y), Some(w), Some(h)) => if positive_numeral(w) && positive_numeral(h) {
                Some(joined(x, y, w, h))
            } else {
                None
            },
            _ => None,
        }
    }
}

/// Whether the characters `t` are a decimal numeral.
pub fn is_numeral(t: &[char]) -> (b: bool)
    ensures
        b == numeral(t@),
{
    let n = t.len();
    let a: usize = if n > 0 && t[0] == '-' {
        1
    } else {
        0
    };
    let d = span(t, a, CharClass::Digit);
    if d == a {
        return false;
    }
    if d == n {
        return true;
    }
    if t[d] != '.' || d + 1 >= n {
        return false;
    }
    span(t, d + 1, CharClass::Digit) == n
}

/// Whether the characters `t` are the numeral of a number above zero.
pub fn is_positive_numeral(t: &[char]) -> (b: bool)
    ensures
        b == positive_numeral(t@),
{
    if !is_numeral(t) || t[0] == '-' {
        return false;
    }
    let mut i: usize = 0;
    while i < t.len()
        invariant
            i <= t.len(),
            numeral(t@),
            t@[0] != '-',
            forall|k: int| 0 <= k < i ==> !('1' <= #[trigger] t@[k] && t@[k] <= '9'),
        decreases t.len() - i,
    {
        if '1' <= t[i] && t[i] <= '9' {
            assert('1' <= t@[i as int] && t@[i as int] <= '9');
            return true;
        }
        i += 1;
    }
    false
}

/// Looks `token` up in the table.
pub fn find_reading(table: &[Reading], token: &[char]) -> (r: Option<Vec<char>>)
    ensures
        match r {
            Some(c) => lookup(readings(table@), token@) == Some(c@),
            None => lookup(readings(table@), token@) is None,
        },
{
    let mut i: usize = 0;
    proof {
        assert(readings(table@).skip(0) == readings(table@));
    }
    while i < table.len()
        invariant
            i <= table.len(),
            lookup(readings(table@), token@) == lookup(readings(table@).skip(i as int), token@),
        decreases table.len() - i,
    {
        let ghost rest = readings(table@).skip(i as int);
        proof {
            assert(rest[0] == table@[i as int].model());
            assert(rest.skip(1) == readings(table@).skip(i + 1));
        }
        let t = to_chars(table[i].token.as_str());
        if same_chars(t.as_slice(), token) {
            match &table[i].canonical {
                Some(c) => {
                    let cs = to_chars(c.as_str());
                    if is_numeral(cs.as_slice()) {
                        return Some(cs);
                    } else {
                        return None;
                    }
                },
                None => {
                    return None;
                },
            }
        }
        i += 1;
    }
    None
}

/// The bounds in `v` of the numeric token of a length.
pub fn length_token_bounds(v: &[char]) -> (r: Option<(usize, usize)>)
    ensures
        match r {
            Some((b, e)) => b <= e <= v@.len() && length_token(v@) == Some(
                v@.subrange(b as int, e as int),
            ),
            None => length_token(v@) is None,
        },
{
    let px = to_chars("px");
    let percent = to_chars("%");
    let em = to_chars("em");
    let rem = to_chars("rem");
    proof {
        reveal_strlit("px");
    }
    let (b0, e0) = trim_bounds(v);
    let t = slice_subrange(v, b0, e0);
    let (b, e) = if has_suffix(t, px.as_slice()) {
        let (b1, e1) = trim_bounds(slice_subrange(t, 0, t.len() - 2));
        proof {
            let inner = t@.take(t@.len() - 2);
            assert(inner.subrange(b1 as int, e1 as int) == v@.subrange(b0 + b1, b0 + e1));
        }
        (b0 + b1, b0 + e1)
    } else {
        (b0, e0)
    };
    let num = slice_subrange(v, b, e);
    if has_suffix(num, percent.as_slice()) || has_suffix(num, em.as_slice()) || has_suffix(
        num,
        rem.as_slice(),
    ) {
        None
    } else {
        Some((b, e))
    }
}

/// The numeric token of the length `value`, for the caller to read.
pub fn cut_length_token(value: &str) -> (r: Option<String>)
    ensures
        match r {
            Some(t) => length_token(value@) == Some(t@),
            None => length_token(value@) is None,
        },
{
    let v = to_chars(value);
    match length_token_bounds(v.as_slice()) {
        Some((b, e)) => Some(from_chars(slice_subrange(v.as_slice(), b, e))),
        None => None,
    }
}

/// Normalizes the characters of a length.
pub fn normalize_length_chars(v: &[char], table: &[Reading]) -> (r: Option<Vec<char>>)
    ensures
        match r {
            Some(c) => normalized_length(v@, readings(table@)) == Some(c@),
            None => normalized_length(v@, readings(table@)) is None,
        },
{
    match length_token_bounds(v) {
        Some((b, e)) => match find_reading(table, slice_subrange(v, b, e)) {
            Some(c) => if is_positive_numeral(c.as_slice()) {
                Some(c)
            } else {
                None
            },
            None => None,
        },
        None => None,
    }
}

/// Normalizes a `width` or `height`: a number above zero, with whitespace
/// around it and `px` behind it allowed, becomes the canonical text that the
/// table gives for it. `None` for a value with another unit, for one that the
/// table does not know as a finite number, and for a number that is not above
/// zero.
///
/// What comes out is the numeral of a number above zero and its own token;
/// so it is normalized to itself under every table that reads it as itself.
pub fn normalize_length(v: &str, table: &[Reading]) -> (r: Option<String>)
    ensures
        match r {
            Some(c) => normalized_length(v@, readings(table@)) == Some(c@),
            None => normalized_length(v@, readings(table@)) is None,
        },
        r matches Some(c) ==> {
            &&& positive_numeral(c@)
            &&& length_token(c@) == Some(c@)
            &&& forall|again: Seq<(Seq<char>, Option<Seq<char>>)>|
                lookup(again, c@) == Some(c@) ==> #[trigger] normalized_length(c@, again) == Some(
                    c@,
                )
        },
{
    let cs = to_chars(v);
    match normalize_length_chars(cs.as_slice(), table) {
        Some(c) => {
            proof {
                let none = Seq::<char>::empty();
                assert(none + c@ + none + none =~= c@);
                lemma_length_token_padded(none, c@, false, none);
            }
            Some(from_chars(c.as_slice()))
        },
        None => None,
    }
}

/// The bounds in `v` of the items of a list.
pub fn item_bounds(v: &[char]) -> (r: Vec<(usize, usize)>)
    ensures
        r@.len() == viewbox_items(v@).len(),
        forall|k: int|
            0 <= k < r@.len() ==> (#[trigger] r@[k]).0 <= r@[k].1 <= v@.len() && v@.subrange(
                r@[k].0 as int,
                r@[k].1 as int,
            ) == viewbox_items(v@)[k],
{
    let n = v.len();
    let mut out: Vec<(usize, usize)> = Vec::new();
    let mut i: usize = 0;
    let ghost mut done: Seq<Seq<char>> = Seq::empty();
    proof {
        assert(done + items_from(v@, 0) =~= items_from(v@, 0));
    }
    loop
        invariant
            i <= n == v@.len(),
            out@.len() == done.len(),
            viewbox_items(v@) == done + items_from(v@, i as int),
            forall|k: int|
                0 <= k < out@.len() ==> (#[trigger] out@[k]).0 <= out@[k].1 <= v@.len()
                    && v@.subrange(out@[k].0 as int, out@[k].1 as int) == done[k],
        decreases n - i,
    {
        let a = span(v, i, CharClass::Separator);
        if a >= n {
            proof {
                assert(done + Seq::<Seq<char>>::empty() =~= done);
            }
            return out;
        }
        let b = span(v, a, CharClass::Item);
        proof {
            lemma_span_end(v@, a as int, CharClass::Item);
            let item = v@.subrange(a as int, b as int);
            assert(done.push(item) + items_from(v@, b as int) =~= done + (seq![item] + items_from(
                v@,
                b as int,
            )));
            done = done.push(item);
        }
        out.push((a, b));
        i = b;
    }
}

/// The numeric tokens of the `viewBox` `value`, for the caller to read.
pub fn cut_viewbox_tokens(value: &str) -> (r: Vec<String>)
    ensures
        crate::text::texts(r@) == viewbox_items(value@),
{
    let v = to_chars(value);
    let bounds = item_bounds(v.as_slice());
    let mut out: Vec<String> = Vec::new();
    let mut k: usize = 0;
    while k < bounds.len()
        invariant
            k <= bounds.len(),
            out@.len() == k,
            bounds@.len() == viewbox_items(value@).len(),
            v@ == value@,
            forall|j: int|
                0 <= j < bounds@.len() ==> (#[trigger] bounds@[j]).0 <= bounds@[j].1 <= v@.len()
                    && v@.subrange(bounds@[j].0 as int, bounds@[j].1 as int) == viewbox_items(
                    v@,
                )[j],
            forall|j: int| 0 <= j < k ==> (#[trigger] out@[j])@ == viewbox_items(value@)[j],
        decreases bounds.len() - k,
    {
        let (a, b) = bounds[k];
        out.push(from_chars(slice_subrange(v.as_slice(), a, b)));
        k += 1;
    }
    proof {
        assert(crate::text::texts(out@) =~= viewbox_items(value@));
    }
    out
}

/// Normalizes the characters of a `viewBox`.
pub fn normalize_viewbox_chars(v: &[char], table: &[Reading]) -> (r: Option<Vec<char>>)
    ensures
        match r {
            Some(c) => normalized_viewbox(v@, readings(table@)) == Some(c@),
            None => normalized_viewbox(v@, readings(table@)) is None,
        },
{
    let bounds = item_bounds(v);
    if bounds.len() != 4 {
        return None;
    }
    let x = find_reading(table, slice_subrange(v, bounds[0].0, bounds[0].1));
    let y = find_reading(table, slice_subrange(v, bounds[1].0, bounds[1].1));
    let w = find_reading(table, slice_subrange(v, bounds[2].0, bounds[2].1));
    let h = find_reading(table, slice_subrange(v, bounds[3].0, bounds[3].1));
    match (x, y, w, h) {
        (Some(x), Some(y), Some(w), Some(h)) => {
            if is_positive_numeral(w.as_slice()) && is_positive_numeral(h.as_slice()) {
                let mut out = copy_range(x.as_slice(), 0, x.len());
                out.push(' ');
                push_all(&mut out, y.as_slice());
                out.push(' ');
                push_all(&mut out, w.as_slice());
                out.push(' ');
                push_all(&mut out, h.as_slice());
                proof {
                    assert(out@ =~= joined(x@, y@, w@, h@));
                }
                Some(out)
            } else {
                None
            }
        },
        _ => None,
    }
}

/// Normalizes a `viewBox`: four numbers parted by commas or whitespace, the
/// third and fourth above zero, become their canonical texts joined by single
/// spaces. `None` for any other number of tokens, for a token that the table
/// does not know as a finite number, and for a width or height that is not
/// above zero.
///
/// What comes out holds no comma and has four items, all numerals, the third
/// and fourth of numbers above zero; so it is normalized to itself under
/// every table that reads each of its items as itself.
pub fn normalize_viewbox(v: &str, table: &[Reading]) -> (r: Option<String>)
    ensures
        match r {
            Some(c) => normalized_viewbox(v@, readings(table@)) == Some(c@),
            None => normalized_viewbox(v@, readings(table@)) is None,
        },
        r matches Some(c) ==> {
            let items = viewbox_items(c@);
            &&& forall|i: int| 0 <= i < c@.len() ==> #[trigger] c@[i] != ','
            &&& items.len() == 4
            &&& numeral(items[0])
            &&& numeral(items[1])
            &&& positive_numeral(items[2])
            &&& positive_numeral(items[3])
            &&& forall|again: Seq<(Seq<char>, Option<Seq<char>>)>|
                lookup(again, items[0]) == Some(items[0]) && lookup(again, items[1]) == Some(
                    items[1],
                ) && lookup(again, items[2]) == Some(items[2]) && lookup(again, items[3]) == Some(
                    items[3],
                ) ==> #[trigger] normalized_viewbox(c@, again) == Some(c@)
        },
{
    let cs = to_chars(v);
    match normalize_viewbox_chars(cs.as_slice(), table) {
        Some(c) => {
            proof {
                let given = viewbox_items(v@);
                let t = readings(table@);
                lemma_lookup_numeral(t, given[0]);
                lemma_lookup_numeral(t, given[1]);
                lemma_lookup_numeral(t, given[2]);
                lemma_lookup_numeral(t, given[3]);
                lemma_items_of_joined(
                    lookup(t, given[0])->0,
                    lookup(t, given[1])->0,
                    lookup(t, given[2])->0,
                    lookup(t, given[3])->0,
                );
            }
            Some(from_chars(c.as_slice()))
        },
        None => None,
    }
}

/// A numeral is not empty, holds digits, `-` and `.` alone, starts with a
/// digit or `-`, and ends with a digit.
pub proof fn lemma_numeral_shape(t: Seq<char>)
    requires
        numeral(t),
    ensures
        t.len() > 0,
        t[0] == '-' || ascii_digit(t[0]),
        ascii_digit(t.last()),
        forall|i: int|
            0 <= i < t.len() ==> ascii_digit(#[trigger] t[i]) || t[i] == '-' || t[i] == '.',
        all_in(t, CharClass::Item),
{
    let a: int = if t.len() > 0 && t[0] == '-' {
        1
    } else {
        0
    };
    if a <= t.len() {
        lemma_span_end(t, a, CharClass::Digit);
        let d = span_end(t, a, CharClass::Digit);
        assert(in_class(CharClass::Digit, t[d - 1]));
        if d < t.len() {
            lemma_span_end(t, d + 1, CharClass::Digit);
            assert(in_class(CharClass::Digit, t[t.len() - 1]));
        }
        assert forall|i: int| 0 <= i < t.len() implies ascii_digit(#[trigger] t[i]) || t[i] == '-'
            || t[i] == '.' by {
            if a <= i < d {
                assert(in_class(CharClass::Digit, t[i]));
            } else if d < i {
                assert(in_class(CharClass::Digit, t[i]));
            }
        }
    }
}

/// The token of a numeral with whitespace around it, and `px` behind it or
/// not, is the numeral.
pub proof fn lemma_length_token_padded(left: Seq<char>, t: Seq<char>, px: bool, right: Seq<char>)
    requires
        all_in(left, CharClass::Whitespace),
        all_in(right, CharClass::Whitespace),
        numeral(t),
    ensures
        length_token(
            left + t + (if px {
                "px"@
            } else {
                Seq::empty()
            }) + right,
        ) == Some(t),
{
    reveal_strlit("px");
    reveal_strlit("%");
    reveal_strlit("em");
    reveal_strlit("rem");
    lemma_numeral_shape(t);
    let unit = if px {
        "px"@
    } else {
        Seq::empty()
    };
    let mid = t + unit;
    assert(left + t + unit + right =~= left + mid + right);
    lemma_trim_padded(left, mid, right);
    assert(t.subrange(t.len() - 1, t.len() as int)[0] == t.last());
    if px {
        assert(mid.subrange(mid.len() - 2, mid.len() as int) =~= "px"@);
        assert(mid.take(mid.len() - 2) =~= t);
        assert(Seq::<char>::empty() + t + Seq::<char>::empty() =~= t);
        lemma_trim_padded(Seq::empty(), t, Seq::empty());
    } else {
        assert(mid =~= t);
        if t.len() >= 2 {
            assert(t.subrange(t.len() - 2, t.len() as int)[1] == t.last());
        }
    }
    if t.len() >= 2 {
        assert(t.subrange(t.len() - 2, t.len() as int)[1] == t.last());
    }
    if t.len() >= 3 {
        assert(t.subrange(t.len() - 3, t.len() as int)[2] == t.last());
    }
}

/// A numeral with whitespace around it, and `px` behind it or not, is
/// normalized to the canonical text that the table gives for the numeral,
/// where that is the numeral of a number above zero; in every other case it
/// is refused.
pub proof fn lemma_normalized_length_padded(
    left: Seq<char>,
    t: Seq<char>,
    px: bool,
    right: Seq<char>,
    table: Seq<(Seq<char>, Option<Seq<char>>)>,
)
    requires
        all_in(left, CharClass::Whitespace),
        all_in(right, CharClass::Whitespace),
        numeral(t),
    ensures
        normalized_length(
            left + t + (if px {
                "px"@
            } else {
                Seq::empty()
            }) + right,
            table,
        ) == match lookup(table, t) {
            Some(c) => if positive_numeral(c) {
                Some(c)
            } else {
                None
            },
            None => None,
        },
{
    lemma_length_token_padded(left, t, px, right);
}

/// What `normalized_length` returns is the numeral of a number above zero.
/// Under a table that reads that numeral as itself, it is its own normal
/// form.
pub proof fn lemma_normalized_length_idempotent(
    v: Seq<char>,
    table: Seq<(Seq<char>, Option<Seq<char>>)>,
)
    requires
        normalized_length(v, table) is Some,
    ensures
        positive_numeral(normalized_length(v, table)->0),
        lookup(table, normalized_length(v, table)->0) == Some(normalized_length(v, table)->0)
            ==> normalized_length(normalized_length(v, table)->0, table) == normalized_length(
            v,
            table,
        ),
{
    let c = normalized_length(v, table)->0;
    assert(Seq::<char>::empty() + c + Seq::<char>::empty() + Seq::<char>::empty() =~= c);
    lemma_length_token_padded(Seq::empty(), c, false, Seq::empty());
}

/// The items of a text that has something put before it.
proof fn lemma_items_shift(p: Seq<char>, r: Seq<char>, i: int)
    requires
        0 <= i <= r.len(),
    ensures
        items_from(p + r, p.len() + i) == items_from(r, i),
    decreases r.len() - i,
{
    let s = p + r;
    lemma_span_end_shift(p, r, i, CharClass::Separator);
    lemma_span_end(r, i, CharClass::Separator);
    let a = span_end(r, i, CharClass::Separator);
    if a < r.len() {
        lemma_span_end_shift(p, r, a, CharClass::Item);
        lemma_span_end(r, a, CharClass::Item);
        let b = span_end(r, a, CharClass::Item);
        lemma_items_shift(p, r, b);
        assert(s.subrange(p.len() + a, p.len() + b) =~= r.subrange(a, b));
    }
}

/// The items of separators, an item, and a rest that is empty or starts with
/// a separator: the item, then the items of the rest.
proof fn lemma_items_first(sep: Seq<char>, item: Seq<char>, rest: Seq<char>)
    requires
        all_in(sep, CharClass::Separator),
        all_in(item, CharClass::Item),
        item.len() > 0,
        rest.len() > 0 ==> in_class(CharClass::Separator, rest[0]),
    ensures
        items_from(sep + item + rest, 0) == seq![item] + items_from(rest, 0),
{
    let s = sep + item + rest;
    let a = sep.len() as int;
    let b = a + item.len();
    assert forall|k: int| 0 <= k < a implies in_class(CharClass::Separator, #[trigger] s[k]) by {
        assert(s[k] == sep[k]);
    }
    assert(s[a] == item[0]);
    assert(in_class(CharClass::Item, item[0]));
    lemma_span_end_is(s, 0, a, CharClass::Separator);
    assert forall|k: int| a <= k < b implies in_class(CharClass::Item, #[trigger] s[k]) by {
        assert(s[k] == item[k - a]);
    }
    if rest.len() > 0 {
        assert(s[b] == rest[0]);
    }
    lemma_span_end_is(s, a, b, CharClass::Item);
    assert(s.subrange(a, b) =~= item);
    lemma_items_shift(sep + item, rest, 0);
}

/// Four numerals with commas or whitespace around and between them, in any
/// number but at least one between two of them, are the four items of the
/// text.
pub proof fn lemma_items_of_separated(
    s0: Seq<char>,
    a: Seq<char>,
    s1: Seq<char>,
    b: Seq<char>,
    s2: Seq<char>,
    c: Seq<char>,
    s3: Seq<char>,
    d: Seq<char>,
    s4: Seq<char>,
)
    requires
        numeral(a),
        numeral(b),
        numeral(c),
        numeral(d),
        all_in(s0, CharClass::Separator),
        all_in(s1, CharClass::Separator),
        all_in(s2, CharClass::Separator),
        all_in(s3, CharClass::Separator),
        all_in(s4, CharClass::Separator),
        s1.len() > 0,
        s2.len() > 0,
        s3.len() > 0,
    ensures
        viewbox_items(s0 + a + s1 + b + s2 + c + s3 + d + s4) == seq![a, b, c, d],
{
    lemma_numeral_shape(a);
    lemma_numeral_shape(b);
    lemma_numeral_shape(c);
    lemma_numeral_shape(d);
    let r3 = s3 + d + s4;
    let r2 = s2 + c + r3;
    let r1 = s1 + b + r2;
    assert(s0 + a + s1 + b + s2 + c + s3 + d + s4 =~= s0 + a + r1);
    assert(r1[0] == s1[0]);
    assert(r2[0] == s2[0]);
    assert(r3[0] == s3[0]);
    if s4.len() > 0 {
        assert(in_class(CharClass::Separator, s4[0]));
    }
    lemma_items_first(s0, a, r1);
    lemma_items_first(s1, b, r2);
    lemma_items_first(s2, c, r3);
    lemma_items_first(s3, d, s4);
    lemma_span_end_is(s4, 0, s4.len() as int, CharClass::Separator);
    assert(items_from(s4, 0) =~= Seq::<Seq<char>>::empty());
    assert(seq![a] + (seq![b] + (seq![c] + (seq![d] + Seq::<Seq<char>>::empty()))) =~= seq![
        a,
        b,
        c,
        d,
    ]);
}

/// Four numerals with commas or whitespace around and between them are
/// normalized to the canonical texts that the table gives for them, joined by
/// single spaces, where the table gives one for each and those of the third
/// and the fourth are numerals of numbers above zero; in every other case the
/// text is refused.
pub proof fn lemma_normalized_viewbox_separated(
    s0: Seq<char>,
    a: Seq<char>,
    s1: Seq<char>,
    b: Seq<char>,
    s2: Seq<char>,
    c: Seq<char>,
    s3: Seq<char>,
    d: Seq<char>,
    s4: Seq<char>,
    table: Seq<(Seq<char>, Option<Seq<char>>)>,
)
    requires
        numeral(a),
        numeral(b),
        numeral(c),
        numeral(d),
        all_in(s0, CharClass::Separator),
        all_in(s1, CharClass::Separator),
        all_in(s2, CharClass::Separator),
        all_in(s3, CharClass::Separator),
        all_in(s4, CharClass::Separator),
        s1.len() > 0,
        s2.len() > 0,
        s3.len() > 0,
    ensures
        normalized_viewbox(s0 + a + s1 + b + s2 + c + s3 + d + s4, table) == match (
            lookup(table, a),
            lookup(table, b),
            lookup(table, c),
            lookup(table, d),
        ) {
            (Some(x), Some(y), Some(w), Some(h)) => if positive_numeral(w) && positive_numeral(h) {
                Some(joined(x, y, w, h))
            } else {
                None
            },
            _ => None,
        },
{
    lemma_items_of_separated(s0, a, s1, b, s2, c, s3, d, s4);
}

/// Four numerals joined by single spaces hold no comma, and their items are
/// the four numerals.
pub proof fn lemma_items_of_joined(a: Seq<char>, b: Seq<char>, c: Seq<char>, d: Seq<char>)
    requires
        numeral(a),
        numeral(b),
        numeral(c),
        numeral(d),
    ensures
        viewbox_items(joined(a, b, c, d)) == seq![a, b, c, d],
        forall|i: int|
            0 <= i < joined(a, b, c, d).len() ==> #[trigger] joined(a, b, c, d)[i] != ',',
{
    lemma_numeral_shape(a);
    lemma_numeral_shape(b);
    lemma_numeral_shape(c);
    lemma_numeral_shape(d);
    let sp = seq![' '];
    let none = Seq::<char>::empty();
    let r3 = sp + d;
    let r2 = sp + c + r3;
    let r1 = sp + b + r2;
    assert(joined(a, b, c, d) =~= none + a + r1);
    assert(r3 =~= sp + d + none);
    lemma_items_first(none, a, r1);
    assert(none + r1 =~= r1);
    lemma_items_first(sp, b, r2);
    lemma_items_first(sp, c, r3);
    lemma_items_first(sp, d, none);
    assert(items_from(none, 0) =~= Seq::<Seq<char>>::empty());
    assert(seq![a] + (seq![b] + (seq![c] + (seq![d] + Seq::<Seq<char>>::empty()))) =~= seq![
        a,
        b,
        c,
        d,
    ]);
    let j = joined(a, b, c, d);
    assert forall|i: int| 0 <= i < j.len() implies #[trigger] j[i] != ',' by {
        let la = a.len() as int;
        let lb = b.len() as int;
        let lc = c.len() as int;
        if i < la {
            assert(j[i] == a[i]);
        } else if i == la {
        } else if i < la + 1 + lb {
            assert(j[i] == b[i - la - 1]);
        } else if i == la + 1 + lb {
        } else if i < la + 1 + lb + 1 + lc {
            assert(j[i] == c[i - la - lb - 2]);
        } else if i == la + 1 + lb + 1 + lc {
        } else {
            assert(j[i] == d[i - la - lb - lc - 3]);
        }
    }
}

/// What `normalized_viewbox` returns holds no comma and has exactly four
/// items, all numerals, the third and fourth of numbers above zero. Under a
/// table that reads each of the four as itself, it is its own normal form.
pub proof fn lemma_normalized_viewbox_idempotent(
    v: Seq<char>,
    table: Seq<(Seq<char>, Option<Seq<char>>)>,
)
    requires
        normalized_viewbox(v, table) is Some,
    ensures
        ({
            let out = normalized_viewbox(v, table)->0;
            let items = viewbox_items(out);
            &&& forall|i: int| 0 <= i < out.len() ==> #[trigger] out[i] != ','
            &&& items.len() == 4
            &&& numeral(items[0])
            &&& numeral(items[1])
            &&& positive_numeral(items[2])
            &&& positive_numeral(items[3])
            &&& (forall|k: int| 0 <= k < 4 ==> lookup(table, #[trigger] items[k]) == Some(items[k]))
                ==> normalized_viewbox(out, table) == Some(out)
        }),
{
    let given = viewbox_items(v);
    let x = lookup(table, given[0])->0;
    let y = lookup(table, given[1])->0;
    let w = lookup(table, given[2])->0;
    let h = lookup(table, given[3])->0;
    lemma_lookup_numeral(table, given[0]);
    lemma_lookup_numeral(table, given[1]);
    lemma_lookup_numeral(table, given[2]);
    lemma_lookup_numeral(table, given[3]);
    lemma_items_of_joined(x, y, w, h);
    let out = joined(x, y, w, h);
    let items = viewbox_items(out);
    if forall|k: int| 0 <= k < 4 ==> lookup(table, #[trigger] items[k]) == Some(items[k]) {
        assert(lookup(table, items[0]) == Some(items[0]));
        assert(lookup(table, items[1]) == Some(items[1]));
        assert(lookup(table, items[2]) == Some(items[2]));
        assert(lookup(table, items[3]) == Some(items[3]));
    }
}

/// What the table gives for a token is a numeral.
pub proof fn lemma_lookup_numeral(table: Seq<(Seq<char>, Option<Seq<char>>)>, token: Seq<char>)
    ensures
        lookup(table, token) matches Some(c) ==> numeral(c),
    decreases table.len(),
{
    if table.len() > 0 && table[0].0 != token {
        lemma_lookup_numeral(table.skip(1), token);
    }
}

} // verus!
