use svg_sheet::svg::ids::{extract_ids, references_id, rewrite_ids_to_data_ids};
use svg_sheet::text::is_name_char;

#[test]
fn rewrite_ids_simple() {
    let input = "<g id=\"a\"/><g id='a'/><g id=\"b\"/>";
    let (out, ids) = rewrite_ids_to_data_ids(input);
    assert!(out.contains("data-id=\"a\""));
    assert!(out.contains("data-id='a-2'"));
    assert!(out.contains("data-id=\"b\""));
    assert_eq!(
        ids,
        vec!["a".to_string(), "a-2".to_string(), "b".to_string()]
    );
    assert!(!out.contains(" id=\""));
    assert!(!out.contains(" id='"));
}

#[test]
fn rewrite_ids_is_exact() {
    let input = "<g id=\"a\"/><g id='a'/><g id=\"b\"/>";
    let (out, _) = rewrite_ids_to_data_ids(input);
    assert_eq!(out, "<g data-id=\"a\"/><g data-id='a-2'/><g data-id=\"b\"/>");
}

#[test]
fn duplicate_ids_in_one_file_are_told_apart() {
    let (out, ids) = rewrite_ids_to_data_ids("<svg><g id=\"a\"/><g id=\"a\"/></svg>");
    assert_eq!(ids, vec!["a".to_string(), "a-2".to_string()]);
    assert!(!out.contains(" id=\""));
    assert_eq!(out, "<svg><g data-id=\"a\"/><g data-id=\"a-2\"/></svg>");
}

#[test]
fn counters_go_by_the_sanitized_value() {
    let mut content = String::new();
    for raw in ["a", "b", " a", "a!", "b", "a", "2", "", "a", "a", "a", "a", "a", "a", "a"] {
        content.push_str(&format!("<g id=\"{raw}\"/>"));
    }
    let (_, ids) = rewrite_ids_to_data_ids(&content);
    assert_eq!(
        ids,
        vec![
            "a", "b", "a-2", "a-3", "b-2", "a-4", "x", "x-2", "a-5", "a-6", "a-7", "a-8", "a-9",
            "a-10", "a-11"
        ]
    );
}

#[test]
fn ids_are_sanitized_or_replaced() {
    let (out, ids) = rewrite_ids_to_data_ids("<g id=\"my icon\"/><g id='123'/><g id=\"\"/>");
    assert_eq!(out, "<g data-id=\"my-icon\"/><g data-id='x'/><g data-id=\"x-2\"/>");
    assert_eq!(ids, vec!["my-icon", "x", "x-2"]);
}

#[test]
fn compound_names_are_left_alone() {
    for content in [
        "<g data-id=\"a\"/>",
        "<g xlink:id=\"a\"/>",
        "<g my_id=\"a\"/>",
        "<g grid=\"a\"/>",
        "<g 9id=\"a\"/>",
        "<g ID=\"a\"/>",
        "<g id =\"a\"/>",
        "<g id=a/>",
        "<g id=",
        "id",
        "",
    ] {
        let (out, ids) = rewrite_ids_to_data_ids(content);
        assert_eq!(out, content);
        assert!(ids.is_empty(), "{content:?}");
        assert!(extract_ids(content).is_empty(), "{content:?}");
    }
}

#[test]
fn an_id_counts_wherever_no_name_character_stands_before_it() {
    let (out, ids) = rewrite_ids_to_data_ids("id=\"a\"\tid='b'\nid=\"c\"/id=\"d\"éid=\"e\"");
    assert_eq!(
        out,
        "data-id=\"a\"\tdata-id='b'\ndata-id=\"c\"/data-id=\"d\"édata-id=\"e\""
    );
    assert_eq!(ids, vec!["a", "b", "c", "d", "e"]);
}

#[test]
fn an_open_quote_copies_the_rest() {
    let (out, ids) = rewrite_ids_to_data_ids("<g id=\"a\"/><g id=\"b/><g id='c'/>");
    assert_eq!(out, "<g data-id=\"a\"/><g id=\"b/><g id='c'/>");
    assert_eq!(ids, vec!["a"]);
    let (out, ids) = rewrite_ids_to_data_ids("<g id='a\"/>");
    assert_eq!(out, "<g id='a\"/>");
    assert!(ids.is_empty());
}

#[test]
fn other_text_is_copied_as_it_stands() {
    let content = "<text x=\"1\">é💥 &amp; <![CDATA[ id ]]></text>\n";
    let (out, ids) = rewrite_ids_to_data_ids(content);
    assert_eq!(out, content);
    assert!(ids.is_empty());
}

#[test]
fn extract_ids_gives_the_values_as_they_stand() {
    let content = "<g data-id=\"nota\" id='a b' data_id=\"x\"/><use data-id=\"a\" /><g id=\"\"/><g id=\"a b\"/>";
    assert_eq!(extract_ids(content), vec!["a b", "", "a b"]);
    assert_eq!(extract_ids("<g id=\"a\"/><g id=\"b/><g id='c'/>"), vec!["a"]);
}

#[test]
fn references_id_finds_each_form() {
    assert!(references_id("<use href=\"#a\"/>", "a"));
    assert!(references_id("<use xlink:href=\"#a\"/>", "a"));
    assert!(references_id("<use href='#a'/>", "a"));
    assert!(references_id("<use xlink:href='#a'/>", "a"));
    assert!(references_id("<rect fill=\"url(#a)\"/>", "a"));
    assert!(references_id("url(#a)", "a"));
    assert!(references_id("<use href=\"#a b\"/>", "a b"));
    assert!(references_id("url(#)", ""));
}

#[test]
fn references_id_takes_the_id_letter_for_letter() {
    let content = "<use href=\"#needle\"/><use xlink:href=\"#needle\"/><rect fill=\"url(#needle)\"/>";
    assert!(references_id(content, "needle"));
    assert!(!references_id(content, "other"));
    assert!(!references_id(content, "need"));
    assert!(!references_id(content, "eedle"));
    assert!(!references_id(content, "needle2"));
    assert!(!references_id(content, "Needle"));
    assert!(!references_id("<use href=\"a\"/>", "a"));
    assert!(!references_id("<rect fill=\"url('#a')\"/>", "a"));
    assert!(!references_id("<rect fill=\"url(&quot;#a&quot;)\"/>", "a"));
    assert!(!references_id("<use href=\"#a'/>", "a"));
    assert!(!references_id("", "a"));
    assert!(!references_id("#a", "a"));
    assert!(references_id("<use href=\"#.*\"/>", ".*"));
    assert!(!references_id("<use href=\"#abc\"/>", ".*"));
}

#[test]
fn name_characters() {
    for c in ['a', 'Z', '0', '9', '-', '_', ':'] {
        assert!(is_name_char(c));
    }
    for c in [' ', '.', '"', '\'', '=', '<', '/', 'é', '\n'] {
        assert!(!is_name_char(c));
    }
}

#[test]
fn rewriting_leaves_no_id_and_is_idempotent_then() {
    for content in [
        "",
        "<g id=\"a\"/><g id='a'/><g id=\"b\"/>",
        "id=\"a\"id=\"b\"",
        "<g class=\"grid\" id=\"grid\" data-id=\"x\"/>",
        "<g id=\"id=\"/><g id='id=\"x\"'/>",
        "<svg id=\"nested\"><use href=\"#nested\"/></svg>",
        "i<g id=\"a\"/>d<g id=\"b\"/>=\"",
        "<g id=\"é\"/>id<g id=\"\"/>=''",
    ] {
        let (out, ids) = rewrite_ids_to_data_ids(content);
        assert!(extract_ids(&out).is_empty(), "{content:?} gave {out:?}");
        assert_eq!(ids.len(), extract_ids(content).len());
        let (again, none) = rewrite_ids_to_data_ids(&out);
        assert_eq!(again, out);
        assert!(none.is_empty());
    }
}
