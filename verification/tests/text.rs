use svg_sheet::text::{
    copy_range, find, from_chars, has, has_suffix, is_ascii_digit, is_ascii_letter, is_blank,
    is_in_class, is_name_char, is_text, is_whitespace, matches_at, push_all, push_decimal,
    push_range, push_str, same_chars, same_text, span, strings_from, to_chars, trim_bounds,
    CharClass,
};

fn chars(s: &str) -> Vec<char> {
    s.chars().collect()
}

fn every_char() -> impl Iterator<Item = char> {
    (0u32..=0x10ffff).filter_map(char::from_u32)
}

#[test]
fn strings_and_characters_convert_both_ways() {
    for s in ["", "a", "abc", "é💥\u{feff}\n", "<svg width=\"1\">"] {
        assert_eq!(to_chars(s), chars(s));
        assert_eq!(from_chars(&chars(s)), s);
        assert_eq!(from_chars(&to_chars(s)), s);
    }
    assert_eq!(
        strings_from(&vec![chars("a"), chars(""), chars("é💥")]),
        vec!["a", "", "é💥"]
    );
    assert!(strings_from(&vec![]).is_empty());
}

#[test]
fn character_classes_agree_with_the_standard_ones() {
    for c in every_char() {
        assert_eq!(is_whitespace(c), c.is_whitespace(), "{c:?}");
        assert_eq!(is_ascii_letter(c), c.is_ascii_alphabetic(), "{c:?}");
        assert_eq!(is_ascii_digit(c), c.is_ascii_digit(), "{c:?}");
        assert_eq!(is_blank(c), matches!(c, ' ' | '\t' | '\r' | '\n'), "{c:?}");
        assert_eq!(
            is_name_char(c),
            c.is_ascii_alphanumeric() || c == '-' || c == '_' || c == ':',
            "{c:?}"
        );
        assert_eq!(is_in_class(CharClass::Blank, c), is_blank(c));
        assert_eq!(is_in_class(CharClass::Whitespace, c), c.is_whitespace());
        assert_eq!(is_in_class(CharClass::Name, c), is_name_char(c));
        assert_eq!(is_in_class(CharClass::Digit, c), c.is_ascii_digit());
        assert_eq!(is_in_class(CharClass::Except('q'), c), c != 'q');
        assert_eq!(is_in_class(CharClass::Only('q'), c), c == 'q');
        assert_eq!(is_in_class(CharClass::Separator, c), c.is_whitespace() || c == ',');
        assert_eq!(is_in_class(CharClass::Item, c), !(c.is_whitespace() || c == ','));
    }
}

#[test]
fn spans_end_at_the_first_character_outside_the_class() {
    let s = chars("  \tab12-x y");
    assert_eq!(span(&s, 0, CharClass::Blank), 3);
    assert_eq!(span(&s, 3, CharClass::Blank), 3);
    assert_eq!(span(&s, 3, CharClass::Name), 9);
    assert_eq!(span(&s, 5, CharClass::Digit), 7);
    assert_eq!(span(&s, 0, CharClass::Except('x')), 8);
    assert_eq!(span(&s, 0, CharClass::Except('z')), 11);
    assert_eq!(span(&s, 0, CharClass::Only(' ')), 2);
    assert_eq!(span(&s, 11, CharClass::Name), 11);
    assert_eq!(span(&[], 0, CharClass::Name), 0);
}

#[test]
fn searching_finds_the_first_occurrence() {
    let s = chars("abcabcé</svg>");
    assert!(matches_at(&s, 0, &chars("abc")));
    assert!(matches_at(&s, 3, &chars("abc")));
    assert!(!matches_at(&s, 1, &chars("abc")));
    assert!(matches_at(&s, 13, &[]));
    assert!(!matches_at(&s, 14, &[]));
    assert!(!matches_at(&s, 11, &chars("g>x")));
    assert!(!matches_at(&s, usize::MAX, &chars("a")));
    assert_eq!(find(&s, 0, &chars("abc")), Some(0));
    assert_eq!(find(&s, 1, &chars("abc")), Some(3));
    assert_eq!(find(&s, 4, &chars("abc")), None);
    assert_eq!(find(&s, 0, &chars("</svg>")), Some(7));
    assert_eq!(find(&s, 8, &chars("</svg>")), None);
    assert_eq!(find(&s, 5, &[]), Some(5));
    assert_eq!(find(&s, 13, &[]), Some(13));
    assert_eq!(find(&s, 14, &[]), None);
    assert_eq!(find(&[], 0, &[]), Some(0));
    assert_eq!(find(&[], 0, &chars("a")), None);
    assert!(has(&s, &chars("cé<")));
    assert!(has(&s, &[]));
    assert!(!has(&s, &chars("cab ")));
    assert!(has_suffix(&s, &chars("</svg>")));
    assert!(has_suffix(&s, &[]));
    assert!(has_suffix(&s, &s));
    assert!(!has_suffix(&s, &chars("</svg")));
    assert!(!has_suffix(&chars("vg>"), &chars("</svg>")));
}

#[test]
fn trimming_agrees_with_the_standard_one() {
    for s in [
        "",
        " ",
        "a",
        " a ",
        "\t\n a b \r\n",
        "\u{a0}a\u{3000}",
        "\u{feff} a",
        "   ",
        "a  b",
        "\u{2003}\u{2028}x\u{85}",
    ] {
        let cs = chars(s);
        let (b, e) = trim_bounds(&cs);
        assert!(b <= e && e <= cs.len());
        let trimmed: String = cs[b..e].iter().collect();
        assert_eq!(trimmed, s.trim(), "{s:?}");
    }
}

#[test]
fn texts_are_compared_by_their_characters() {
    assert!(same_chars(&chars("é💥"), &chars("é💥")));
    assert!(same_chars(&[], &[]));
    assert!(!same_chars(&chars("ab"), &chars("abc")));
    assert!(!same_chars(&chars("ab"), &chars("aB")));
    assert!(same_text("width", "width"));
    assert!(!same_text("width", "Width"));
    assert!(!same_text("width", "width "));
    assert!(is_text(&chars("id"), "id"));
    assert!(!is_text(&chars("id"), "data-id"));
}

#[test]
fn characters_are_appended() {
    let mut v = chars("a");
    push_all(&mut v, &chars("bc"));
    push_str(&mut v, "dé");
    push_range(&mut v, &chars("0123456"), 2, 5);
    push_range(&mut v, &chars("0123456"), 7, 7);
    push_decimal(&mut v, 0);
    push_decimal(&mut v, 9);
    push_decimal(&mut v, 10);
    push_decimal(&mut v, 4096);
    assert_eq!(from_chars(&v), "abcdé234091040" .to_string() + "96");
    assert_eq!(copy_range(&chars("0123456"), 1, 3), chars("12"));
    assert!(copy_range(&chars("0123456"), 0, 0).is_empty());
    let mut d = Vec::new();
    push_decimal(&mut d, usize::MAX);
    assert_eq!(from_chars(&d), usize::MAX.to_string());
}
