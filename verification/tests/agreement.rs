//! The text functions of the library, held against the same rules written
//! with the string functions of std, over many generated texts.
use svg_sheet::svg::ids::{extract_ids, references_id, rewrite_ids_to_data_ids};
use svg_sheet::svg::normalize::{cut_length_token, cut_viewbox_tokens};
use svg_sheet::svg::parsing::preprocess_svg_content;
use svg_sheet::svg::sanitize::sanitize_id;
use svg_sheet::svg::{is_candidate, sprite_name};

/// A small generator of repeatable numbers.
struct Numbers(u64);

impl Numbers {
    fn next(&mut self) -> u64 {
        self.0 = self
            .0
            .wrapping_mul(6364136223846793005)
            .wrapping_add(1442695040888963407);
        self.0 >> 33
    }

    fn below(&mut self, n: usize) -> usize {
        (self.next() % n as u64) as usize
    }

    fn text(&mut self, parts: &[&str], max: usize) -> String {
        let n = self.below(max + 1);
        (0..n).map(|_| parts[self.below(parts.len())]).collect()
    }
}

fn sanitize_with_std(raw: &str) -> String {
    let start = |c: char| c == '_' || c.is_ascii_alphabetic();
    let part = |c: char| c.is_ascii_alphanumeric() || c == '.' || c == '_' || c == '-';
    let tail = raw.trim_start_matches(|c| !start(c));
    let mut out = String::new();
    let mut dash = false;
    for c in tail.chars() {
        if part(c) {
            out.push(c);
            dash = false;
        } else if !dash {
            out.push('-');
            dash = true;
        }
    }
    let mut out = out.trim_matches('-').to_string();
    while out.contains("--") {
        out = out.replace("--", "-");
    }
    out
}

#[test]
fn sanitize_id_agrees_with_std() {
    let parts = [
        "a", "Z", "_", "-", "-", ".", "0", "9", " ", "@", "é", "💥", "\t", ":", "/", "x", "--",
    ];
    let mut numbers = Numbers(1);
    for _ in 0..4000 {
        let raw = numbers.text(&parts, 12);
        let out = sanitize_id(&raw);
        assert_eq!(out, sanitize_with_std(&raw), "{raw:?}");
        assert_eq!(sanitize_id(&out), out, "{raw:?}");
        assert!(!out.contains("--") && !out.starts_with('-') && !out.ends_with('-'));
    }
}

fn prolog_with_std(input: &str) -> String {
    let mut s = input.trim_start_matches('\u{feff}');
    loop {
        let trimmed = s.trim_start();
        let closed = if trimmed.starts_with("<?") {
            trimmed.find("?>").map(|end| end + 2)
        } else if trimmed.starts_with("<!--") {
            trimmed.find("-->").map(|end| end + 3)
        } else {
            None
        };
        match closed {
            Some(end) => s = &trimmed[end..],
            None => return trimmed.to_string(),
        }
    }
}

#[test]
fn preprocess_agrees_with_std() {
    let parts = [
        "\u{feff}", " ", "\n", "\u{a0}", "<?", "?>", "<!--", "-->", "<?xml?>", "<!-- c -->", "<",
        ">", "-", "?", "!", "x", "<svg >", "é",
    ];
    let mut numbers = Numbers(2);
    for _ in 0..4000 {
        let input = numbers.text(&parts, 10);
        assert_eq!(preprocess_svg_content(&input), prolog_with_std(&input), "{input:?}");
    }
}

fn length_token_with_std(v: &str) -> Option<String> {
    let t = v.trim();
    let num = match t.strip_suffix("px") {
        Some(stripped) => stripped.trim(),
        None => t,
    };
    if num.ends_with('%') || num.ends_with("em") || num.ends_with("rem") {
        return None;
    }
    Some(num.to_string())
}

#[test]
fn tokens_agree_with_std() {
    let parts = [
        " ", "\t", "\u{a0}", "\u{3000}", ",", "0", "1", "24", ".", "-", "p", "x", "px", "%", "e",
        "m", "r", "em", "rem", "é",
    ];
    let mut numbers = Numbers(3);
    for _ in 0..4000 {
        let v = numbers.text(&parts, 9);
        assert_eq!(cut_length_token(&v), length_token_with_std(&v), "{v:?}");
        let replaced = v.replace(',', " ");
        let items: Vec<&str> = replaced.split_whitespace().collect();
        assert_eq!(cut_viewbox_tokens(&v), items, "{v:?}");
    }
}

fn references_with_std(content: &str, id: &str) -> bool {
    content.contains(&format!("href=\"#{id}\""))
        || content.contains(&format!("xlink:href=\"#{id}\""))
        || content.contains(&format!("href='#{id}'"))
        || content.contains(&format!("xlink:href='#{id}'"))
        || content.contains(&format!("url(#{id})"))
}

#[test]
fn references_agree_with_std() {
    let parts = [
        "href=", "xlink:", "\"", "'", "#", "a", "b", "url(", ")", " ", "href=\"#a\"", "url(#b)",
        "é",
    ];
    let mut numbers = Numbers(4);
    for _ in 0..4000 {
        let content = numbers.text(&parts, 10);
        let id = numbers.text(&["a", "b", "é", " "], 2);
        assert_eq!(
            references_id(&content, &id),
            references_with_std(&content, &id),
            "{content:?} {id:?}"
        );
    }
}

/// The ids of the `id` attributes, found with the search functions of std.
fn ids_with_std(s: &str) -> Vec<String> {
    let name = |c: char| c.is_ascii_alphanumeric() || c == '-' || c == '_' || c == ':';
    let mut ids = Vec::new();
    let mut at = 0;
    while at < s.len() {
        let rest = &s[at..];
        let own = rest.starts_with("id=") && !s[..at].chars().next_back().is_some_and(name);
        let quote = if own { rest[3..].chars().next() } else { None };
        match quote {
            Some(q) if q == '"' || q == '\'' => match rest[4..].find(q) {
                Some(end) => {
                    ids.push(rest[4..4 + end].to_string());
                    at += 4 + end + 1;
                }
                None => break,
            },
            _ => at += rest.chars().next().map_or(1, char::len_utf8),
        }
    }
    ids
}

#[test]
fn ids_agree_with_std() {
    let parts = [
        "id=", "id", "=", "\"", "'", "a", "b", "-", "data-", " ", "<g ", "/>", "é", "i", "d", ":",
        "id=\"a\"", "id='b'",
    ];
    let mut numbers = Numbers(5);
    for _ in 0..4000 {
        let content = numbers.text(&parts, 12);
        let raw = ids_with_std(&content);
        assert_eq!(extract_ids(&content), raw, "{content:?}");
        let (out, ids) = rewrite_ids_to_data_ids(&content);
        assert_eq!(ids.len(), raw.len(), "{content:?}");
        let mut seen: Vec<String> = Vec::new();
        for (id, raw) in ids.iter().zip(&raw) {
            let mut base = sanitize_with_std(raw);
            if base.is_empty() {
                base = "x".to_string();
            }
            let n = seen.iter().filter(|b| **b == base).count() + 1;
            let expected = if n == 1 { base.clone() } else { format!("{base}-{n}") };
            assert_eq!(*id, expected, "{content:?}");
            seen.push(base);
        }
        let open = ids_with_std(&out).len();
        let (again, none) = rewrite_ids_to_data_ids(&out);
        if open == 0 {
            assert_eq!(again, out, "{content:?}");
            assert!(none.is_empty());
        }
    }
}

#[test]
fn names_agree_with_std() {
    let parts = [".svg", ".", "svg", "a", "b", ".SVG", " ", "é", "sprite"];
    let mut numbers = Numbers(6);
    for _ in 0..2000 {
        let name = numbers.text(&parts, 5);
        assert_eq!(
            sprite_name(&name),
            name.strip_suffix(".svg").unwrap_or(&name),
            "{name:?}"
        );
        let output = numbers.text(&["sprite", ".svg", "a"], 2);
        assert_eq!(
            is_candidate(&name, &output),
            name.ends_with(".svg") && name != output,
            "{name:?} {output:?}"
        );
    }
}
