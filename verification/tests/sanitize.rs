use svg_sheet::svg::sanitize::{is_valid_id_continue, is_valid_id_start, sanitize_id};

#[test]
fn sanitize_sanitize_id_drops_leading_and_replaces_invalids() {
    assert_eq!(sanitize_id("123abc"), "abc");
    assert_eq!(sanitize_id("-foo"), "foo");
    assert_eq!(sanitize_id("💥x"), "x");
    assert_eq!(sanitize_id("data icon@1.5x"), "data-icon-1.5x");
}

#[test]
fn svg_sanitize_id_drops_leading_and_replaces_invalids() {
    assert_eq!(sanitize_id("123abc"), "abc");
    assert_eq!(sanitize_id("-foo"), "foo");
    assert_eq!(sanitize_id("ðŸ’¥x"), "x");
    assert_eq!(sanitize_id("data icon@1.5x"), "data-icon-1.5x");
}

#[test]
fn sanitize_id_in_the_documentation() {
    assert_eq!(sanitize_id(" 123 bad"), "bad");
}

#[test]
fn sanitize_id_may_be_empty() {
    assert_eq!(sanitize_id(""), "");
    assert_eq!(sanitize_id("123"), "");
    assert_eq!(sanitize_id("💥"), "");
    assert_eq!(sanitize_id("-- .. 42"), "");
}

#[test]
fn sanitize_id_collapses_and_trims_dashes() {
    assert_eq!(sanitize_id("a--b"), "a-b");
    assert_eq!(sanitize_id("a -b"), "a-b");
    assert_eq!(sanitize_id("a- -b"), "a-b");
    assert_eq!(sanitize_id("a-"), "a");
    assert_eq!(sanitize_id("a---"), "a");
    assert_eq!(sanitize_id("a  "), "a");
    assert_eq!(sanitize_id("a💥💥b"), "a-b");
    assert_eq!(sanitize_id("_a.b_c-d"), "_a.b_c-d");
    assert_eq!(sanitize_id("a.-.b"), "a.-.b");
    assert_eq!(sanitize_id("x y\tz\n"), "x-y-z");
}

fn is_clean(out: &str) -> bool {
    let mut chars = out.chars();
    match chars.next() {
        None => true,
        Some(first) => {
            is_valid_id_start(first)
                && out.chars().all(is_valid_id_continue)
                && !out.contains("--")
                && !out.starts_with('-')
                && !out.ends_with('-')
        }
    }
}

#[test]
fn sanitize_id_is_valid_and_idempotent_on_samples() {
    let samples = [
        "",
        "a",
        "-",
        "--",
        "a--b--c",
        " lead",
        "trail ",
        "9lives",
        "icon/arrow left",
        "été",
        "a\u{a0}b",
        "data icon@1.5x",
        "__--__",
        "a.b.c",
        "A-Z-",
        "?!x?!y?!",
        "-_-",
        "x--",
        "\"quoted\"",
        "tab\there",
    ];
    for s in samples {
        let out = sanitize_id(s);
        assert!(is_clean(&out), "{s:?} gave {out:?}");
        assert_eq!(sanitize_id(&out), out, "{s:?} gave {out:?}");
    }
}

#[test]
fn id_character_classes() {
    for c in ['a', 'z', 'A', 'Z', '_'] {
        assert!(is_valid_id_start(c));
        assert!(is_valid_id_continue(c));
    }
    for c in ['0', '9', '.', '-'] {
        assert!(!is_valid_id_start(c));
        assert!(is_valid_id_continue(c));
    }
    for c in [' ', ':', '@', 'é', '💥', '/', '`', '{', '[', '^'] {
        assert!(!is_valid_id_start(c));
        assert!(!is_valid_id_continue(c));
    }
}
