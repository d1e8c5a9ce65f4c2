//! What the rewriting of ids leaves behind: where every `id` attribute has
//! its closing quote, none is left, and rewriting once more changes nothing.
use crate::svg::ids::{base_id, final_id, id_attr_at, occurrences, quote, rewrite, rewrite_from};
use crate::svg::sanitize::{lemma_sanitize_clean, sanitize, valid_id_continue};
use crate::text::{decimal, lemma_span_end, span_end, CharClass};
use vstd::prelude::*;

verus! {

/// Whether every `id` attribute of its own in `s` has its closing quote.
pub open spec fn all_closed(s: Seq<char>) -> bool {
    forall|i: int| #[trigger]
        id_attr_at(s, i) ==> span_end(s, i + 4, CharClass::Except(s[i + 3])) < s.len()
}

/// Whether `t` starts with the last `k` characters of what opens an `id`
/// attribute: `i`, `d`, `=` and a quote.
pub open spec fn opens(t: Seq<char>, k: int) -> bool {
    if k == 1 {
        t.len() >= 1 && quote(t[0])
    } else if k == 2 {
        t.len() >= 2 && t[0] == '=' && quote(t[1])
    } else if k == 3 {
        t.len() >= 3 && t[0] == 'd' && t[1] == '=' && quote(t[2])
    } else if k == 4 {
        t.len() >= 4 && t[0] == 'i' && t[1] == 'd' && t[2] == '=' && quote(t[3])
    } else {
        true
    }
}

proof fn lemma_decimal_digits(n: nat)
    ensures
        decimal(n).len() > 0,
        forall|i: int| 0 <= i < decimal(n).len() ==> '0' <= #[trigger] decimal(n)[i] <= '9',
    decreases n,
{
    if n >= 10 {
        lemma_decimal_digits(n / 10);
    }
}

/// An emitted id holds no `=` and no quote.
proof fn lemma_final_id_chars(seen: Seq<Seq<char>>, raw: Seq<char>)
    ensures
        forall|i: int|
            0 <= i < final_id(seen, base_id(raw)).len() ==> {
                let c = #[trigger] final_id(seen, base_id(raw))[i];
                c != '=' && !quote(c)
            },
{
    let base = base_id(raw);
    lemma_sanitize_clean(raw);
    assert forall|i: int| 0 <= i < base.len() implies (#[trigger] base[i]) != '=' && !quote(
        base[i],
    ) by {
        if sanitize(raw).len() > 0 {
            assert(valid_id_continue(sanitize(raw)[i]));
        }
    }
    let n = occurrences(seen, base) + 1;
    lemma_decimal_digits(n);
    let id = final_id(seen, base);
    assert forall|i: int| 0 <= i < id.len() implies (#[trigger] id[i]) != '=' && !quote(id[i]) by {
        if occurrences(seen, base) > 0 {
            if i < base.len() {
                assert(id[i] == base[i]);
            } else if i > base.len() {
                assert(id[i] == decimal(n)[i - base.len() - 1]);
            }
        }
    }
}

/// The block that is written in place of an `id` attribute.
pub open spec fn block(q: char, id: Seq<char>) -> Seq<char> {
    "data-id="@ + seq![q] + id + seq![q]
}

/// No `id` attribute of its own starts inside a block, whatever stands
/// around it.
proof fn lemma_block_holds_no_id(c: Seq<char>, q: char, id: Seq<char>, rest: Seq<char>, m: int)
    requires
        quote(q),
        forall|i: int| 0 <= i < id.len() ==> (#[trigger] id[i]) != '=' && !quote(id[i]),
        c.len() <= m < c.len() + block(q, id).len(),
    ensures
        !id_attr_at(c + block(q, id) + rest, m),
{
    reveal_strlit("data-id=");
    let b = block(q, id);
    let t = c + b + rest;
    let o = m - c.len();
    assert(b.len() == id.len() + 10);
    assert(t[m] == b[o]);
    if o + 2 < b.len() {
        assert(t[m + 1] == b[o + 1]);
        assert(t[m + 2] == b[o + 2]);
        if o + 2 < 8 {
            if o == 5 {
                assert(t[m - 1] == b[4]);
                assert(b[4] == '-');
            } else {
                assert(b[o + 2] == "data-id="@[o + 2]);
            }
        } else if o + 2 == 8 {
            assert(b[8] == q);
        } else if o + 2 < 9 + id.len() {
            assert(b[o + 2] == id[o + 2 - 9]);
        } else {
            assert(b[o + 2] == q);
        }
    } else if o + 1 < b.len() {
        assert(t[m + 1] == b[o + 1]);
        assert(b[o + 1] == q);
    } else {
        assert(b[o] == q);
    }
}

/// Where the rewritten text from position `i` on starts with the end of what
/// opens an `id` attribute, the text itself does so at `i`.
proof fn lemma_opens(s: Seq<char>, i: int, seen: Seq<Seq<char>>, k: int)
    requires
        all_closed(s),
        0 <= i <= s.len(),
        1 <= k <= 4,
        opens(rewrite_from(s, i, seen).0, k),
    ensures
        opens(s.skip(i), k),
    decreases s.len() - i,
{
    reveal_strlit("data-id=");
    if i < s.len() {
        if id_attr_at(s, i) {
            let q = s[i + 3];
            let j = span_end(s, i + 4, CharClass::Except(q));
            let id = final_id(seen, base_id(s.subrange(i + 4, j)));
            let rest = rewrite_from(s, j + 1, seen.push(base_id(s.subrange(i + 4, j))));
            let out = rewrite_from(s, i, seen).0;
            assert(out == "data-id="@ + seq![q] + id + seq![q] + rest.0);
            assert(out[0] == 'd');
            assert(out[1] == 'a');
        } else {
            let rest = rewrite_from(s, i + 1, seen).0;
            let out = rewrite_from(s, i, seen).0;
            assert(out == seq![s[i]] + rest);
            assert(out[0] == s[i]);
            assert(s.skip(i)[0] == s[i]);
            if k > 1 {
                assert forall|x: int| 0 <= x < rest.len() implies out[x + 1] == rest[x] by {}
                assert(rest.len() >= k - 1);
                assert(out[1] == rest[0]);
                if k > 2 {
                    assert(out[2] == rest[1]);
                }
                if k > 3 {
                    assert(out[3] == rest[2]);
                }
                assert(opens(rest, k - 1));
                lemma_opens(s, i + 1, seen, k - 1);
                let tail = s.skip(i + 1);
                assert forall|x: int| 0 <= x < tail.len() implies s.skip(i)[x + 1] == tail[x] by {}
                assert(s.skip(i)[1] == tail[0]);
                if k > 2 {
                    assert(s.skip(i)[2] == tail[1]);
                }
                if k > 3 {
                    assert(s.skip(i)[3] == tail[2]);
                }
            }
        }
    }
}

/// No `id` attribute of its own starts in the rewritten text from position
/// `i` on, where `c` stands before it and ends as the text before `i` ends.
proof fn lemma_no_id_from(s: Seq<char>, i: int, seen: Seq<Seq<char>>, c: Seq<char>, m: int)
    requires
        all_closed(s),
        0 <= i <= s.len(),
        i == 0 ==> c.len() == 0,
        i > 0 ==> c.len() > 0 && c.last() == s[i - 1],
        m >= c.len(),
    ensures
        !id_attr_at(c + rewrite_from(s, i, seen).0, m),
    decreases s.len() - i,
{
    let out = rewrite_from(s, i, seen).0;
    let t = c + out;
    if i < s.len() {
        if id_attr_at(s, i) {
            let q = s[i + 3];
            let j = span_end(s, i + 4, CharClass::Except(q));
            lemma_span_end(s, i + 4, CharClass::Except(q));
            let raw = s.subrange(i + 4, j);
            let id = final_id(seen, base_id(raw));
            let rest = rewrite_from(s, j + 1, seen.push(base_id(raw))).0;
            let b = block(q, id);
            assert(out =~= b + rest);
            assert(t =~= c + b + rest);
            if m < c.len() + b.len() {
                lemma_final_id_chars(seen, raw);
                lemma_block_holds_no_id(c, q, id, rest, m);
            } else {
                assert((c + b).last() == q);
                assert(s[j] == q);
                assert(t =~= (c + b) + rest);
                lemma_no_id_from(s, j + 1, seen.push(base_id(raw)), c + b, m);
            }
        } else {
            let rest = rewrite_from(s, i + 1, seen).0;
            assert(out =~= seq![s[i]] + rest);
            if m == c.len() {
                if id_attr_at(t, m) {
                    assert(out[0] == t[m]);
                    assert(out[1] == t[m + 1]);
                    assert(out[2] == t[m + 2]);
                    assert(out[3] == t[m + 3]);
                    assert(opens(out, 4));
                    lemma_opens(s, i, seen, 4);
                    let tail = s.skip(i);
                    assert(tail[0] == s[i] && tail[1] == s[i + 1] && tail[2] == s[i + 2] && tail[3]
                        == s[i + 3]);
                    if i > 0 {
                        assert(t[m - 1] == c.last());
                    }
                    assert(id_attr_at(s, i));
                }
            } else {
                assert(t =~= c.push(s[i]) + rest);
                lemma_no_id_from(s, i + 1, seen, c.push(s[i]), m);
            }
        }
    }
}

/// Where every `id` attribute of its own has its closing quote, the
/// rewritten text holds no `id` attribute of its own.
pub proof fn lemma_rewrite_leaves_no_id(s: Seq<char>)
    requires
        all_closed(s),
    ensures
        forall|m: int| !#[trigger] id_attr_at(rewrite(s).0, m),
{
    assert forall|m: int| !#[trigger] id_attr_at(rewrite(s).0, m) by {
        if m >= 0 {
            lemma_no_id_from(s, 0, Seq::empty(), Seq::empty(), m);
            assert(Seq::<char>::empty() + rewrite(s).0 =~= rewrite(s).0);
        }
    }
}

proof fn lemma_rewrite_from_without_ids(t: Seq<char>, i: int, seen: Seq<Seq<char>>)
    requires
        forall|m: int| !#[trigger] id_attr_at(t, m),
        0 <= i <= t.len(),
    ensures
        rewrite_from(t, i, seen) == (t.skip(i), Seq::<Seq<char>>::empty()),
    decreases t.len() - i,
{
    if i < t.len() {
        assert(!id_attr_at(t, i));
        lemma_rewrite_from_without_ids(t, i + 1, seen);
        assert(seq![t[i]] + t.skip(i + 1) =~= t.skip(i));
    } else {
        assert(t.skip(i) =~= Seq::empty());
    }
}

/// A text without an `id` attribute of its own is rewritten to itself, and
/// no id is emitted.
pub proof fn lemma_rewrite_without_ids(t: Seq<char>)
    requires
        forall|m: int| !#[trigger] id_attr_at(t, m),
    ensures
        rewrite(t) == (t, Seq::<Seq<char>>::empty()),
{
    lemma_rewrite_from_without_ids(t, 0, Seq::empty());
    assert(t.skip(0) =~= t);
}

/// Where every `id` attribute of its own has its closing quote, rewriting
/// what was rewritten changes nothing.
pub proof fn lemma_rewrite_idempotent(s: Seq<char>)
    requires
        all_closed(s),
    ensures
        rewrite(rewrite(s).0) == (rewrite(s).0, Seq::<Seq<char>>::empty()),
{
    lemma_rewrite_leaves_no_id(s);
    lemma_rewrite_without_ids(rewrite(s).0);
}

} // verus!
