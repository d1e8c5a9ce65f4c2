use svg_sheet::svg::parsing::{
    attributes, entry_tag, kebab_alpha1, parse_attribute, parse_children, parse_gt, parse_svg,
    preprocess_svg_content, ParseFailure,
};

fn pair(k: &str, v: &str) -> (String, String) {
    (k.to_string(), v.to_string())
}

fn rest(input: &str, taken: usize) -> String {
    input.chars().skip(taken).collect()
}

const MULTILINE: &str = r#"<svg
  id="icon-arrow" width="24" height="24"
  viewBox="0 0 24 24"
>
  <path d="M 0 0 L 10 10"/>
</svg>
"#;

#[test]
fn parsing_parse_attribute_test() {
    let input = r##"fill="#000000""##;
    let (result, _) = parse_attribute(input).unwrap();
    let answer = pair("fill", "#000000");
    assert_eq!(result, answer)
}

#[test]
fn svg_parse_attribute_test() {
    let input = r##"fill="#000000""##;
    let (result, taken) = parse_attribute(input).unwrap();
    let answer = pair("fill", "#000000");
    assert_eq!(result, answer);
    assert_eq!(taken, 14);
}

#[test]
fn parsing_parse_attribute_in_kebab_case_test() {
    let input = r#"color-interpolation-filters="sRGB""#;
    let result = parse_attribute(input).map(|r| r.0);
    let answer = pair("color-interpolation-filters", "sRGB");
    assert_eq!(result, Some(answer))
}

#[test]
fn svg_parse_attribute_in_kebab_case_test() {
    let input = r#"color-interpolation-filters="sRGB""#;
    let result = parse_attribute(input).map(|r| r.0);
    let answer = pair("color-interpolation-filters", "sRGB");
    assert_eq!(result, Some(answer))
}

#[test]
fn parsing_parse_attribute_key_in_kebab_case_test() {
    let input = "color-interpolation-filters";
    let result = kebab_alpha1(input);
    let answer = "color-interpolation-filters";
    assert_eq!(result, Some(answer.to_string()))
}

#[test]
fn svg_parse_attribute_key_in_kebab_case_test() {
    let input = "color-interpolation-filters";
    let result = kebab_alpha1(input);
    let answer = "color-interpolation-filters";
    assert_eq!(result, Some(answer.to_string()))
}

#[test]
fn parsing_parse_attributes_test() {
    let input = r##"fill="#000000" stroke="red""##;
    let (result, _) = attributes(input);
    let answer = vec![pair("fill", "#000000"), pair("stroke", "red")];
    assert_eq!(result, answer);
}

#[test]
fn svg_parse_attributes_test() {
    let input = r##"fill="#000000" stroke="red""##;
    let (result, taken) = attributes(input);
    let answer = vec![pair("fill", "#000000"), pair("stroke", "red")];
    assert_eq!(result, answer);
    assert_eq!(taken, input.len());
}

#[test]
fn parsing_parse_attribute_single_quoted() {
    let input = "width='24'";
    let (result, _) = parse_attribute(input).unwrap();
    assert_eq!(result, pair("width", "24"));
}

#[test]
fn svg_parse_attribute_single_quoted() {
    let input = "width='24'";
    let (result, _) = parse_attribute(input).unwrap();
    assert_eq!(result, pair("width", "24"));
}

#[test]
fn parsing_parse_attribute_colon_underscore_digits_in_key() {
    let input = "data_2d:mode=\"on\"";
    let (result, _) = parse_attribute(input).unwrap();
    assert_eq!(result, pair("data_2d:mode", "on"));
}

#[test]
fn svg_parse_attribute_colon_underscore_digits_in_key() {
    let input = "data_2d:mode=\"on\"";
    let (result, _) = parse_attribute(input).unwrap();
    assert_eq!(result, pair("data_2d:mode", "on"));
}

#[test]
fn parsing_parse_boolean_attribute() {
    let input = "focusable";
    let (result, _) = parse_attribute(input).unwrap();
    assert_eq!(result, pair("focusable", "focusable"));
}

#[test]
fn svg_parse_boolean_attribute() {
    let input = "focusable";
    let (result, taken) = parse_attribute(input).unwrap();
    assert_eq!(result, pair("focusable", "focusable"));
    assert_eq!(taken, 9);
}

#[test]
fn parsing_parse_svg_simple() {
    let input = r##"<svg id="test" fill="#000000">Something</svg>"##;
    match parse_svg(input) {
        Ok((_vec, children, taken)) => {
            assert_eq!(children, "Something");
            assert_eq!(rest(input, taken), "");
        }
        Err(e) => panic!("parse_svg error: {e:?}"),
    };
}

#[test]
fn svg_parse_svg_simple() {
    let input = r##"<svg id="test" fill="#000000">Something</svg>"##;
    match parse_svg(input) {
        Ok((vec, children, taken)) => {
            assert_eq!(children, "Something");
            assert_eq!(vec, vec![pair("id", "test"), pair("fill", "#000000")]);
            assert_eq!(taken, input.len());
        }
        Err(e) => panic!("parse_svg error: {e:?}"),
    };
}

#[test]
fn parsing_parse_svg_multiline_opening_tag() {
    let (attrs, children, taken) = parse_svg(MULTILINE).expect("parse svg");
    assert!(attrs.iter().any(|(k, v)| k == "id" && v == "icon-arrow"));
    assert!(children.contains("<path"));
    assert_eq!(rest(MULTILINE, taken), "\n");
}

#[test]
fn svg_parse_svg_multiline_opening_tag() {
    let (attrs, children, taken) = parse_svg(MULTILINE).expect("parse svg");
    assert!(attrs.iter().any(|(k, v)| k == "id" && v == "icon-arrow"));
    assert!(children.contains("<path"));
    assert_eq!(children, "\n  <path d=\"M 0 0 L 10 10\"/>\n");
    assert_eq!(taken, MULTILINE.len() - 1);
}

#[test]
fn parsing_attributes_parse_multiline_block() {
    let s = MULTILINE;
    let n = entry_tag(s).expect("entry tag");
    let s = rest(s, n);
    let (attrs, n) = attributes(&s);
    assert!(attrs.iter().any(|(k, v)| k == "width" && v == "24"));
    let s = rest(&s, n);
    let n = parse_gt(&s).expect("gt");
    let s = rest(&s, n);
    let (children, _) = parse_children(&s).expect("children");
    assert!(children.contains("<path"));
}

#[test]
fn svg_attributes_parse_multiline_block() {
    let s = MULTILINE;
    let n = entry_tag(s).expect("entry tag");
    let s = rest(s, n);
    let (attrs, n) = attributes(&s);
    assert_eq!(attrs.len(), 4);
    assert!(attrs.iter().any(|(k, _)| k == "id"));
    let s = rest(&s, n);
    let n = parse_gt(&s).expect("gt");
    let s = rest(&s, n);
    let (children, n) = parse_children(&s).expect("children");
    assert!(children.contains("<path"));
    assert_eq!(rest(&s, n), "\n");
}

#[test]
fn attributes_with_extra_whitespace_and_newlines() {
    let input = "  fill=\"#333\"\n   stroke=\"red\"  ";
    let (parsed, taken) = attributes(input);
    assert_eq!(parsed, vec![pair("fill", "#333"), pair("stroke", "red")]);
    assert_eq!(rest(input, taken), "  ");
}

#[test]
fn entry_tag_needs_a_blank() {
    assert_eq!(entry_tag("<svg >"), Some(5));
    assert_eq!(entry_tag("<svg \n\t x"), Some(8));
    assert_eq!(entry_tag("<svg>"), None);
    assert_eq!(entry_tag("<svgfoo >"), None);
    assert_eq!(entry_tag(" <svg >"), None);
    assert_eq!(entry_tag("<svg"), None);
    assert_eq!(entry_tag(""), None);
    assert_eq!(entry_tag("<svg\u{a0}>"), None);
}

#[test]
fn keys_hold_name_characters_only() {
    assert_eq!(kebab_alpha1("xlink:href=\"#a\""), Some("xlink:href".to_string()));
    assert_eq!(kebab_alpha1("a.b"), Some("a".to_string()));
    assert_eq!(kebab_alpha1("é"), None);
    assert_eq!(kebab_alpha1(""), None);
    assert_eq!(kebab_alpha1("=x"), None);
}

#[test]
fn attribute_forms() {
    assert_eq!(parse_attribute("a = \"1\" b"), Some((pair("a", "1"), 7)));
    assert_eq!(parse_attribute("a\n=\n'1'"), Some((pair("a", "1"), 7)));
    assert_eq!(parse_attribute("a b"), Some((pair("a", "a"), 1)));
    assert_eq!(parse_attribute("a=\"it's\""), Some((pair("a", "it's"), 8)));
    assert_eq!(parse_attribute("a='say \"hi\"'"), Some((pair("a", "say \"hi\""), 12)));
    assert_eq!(parse_attribute("a=\"\""), Some((pair("a", ""), 4)));
    assert_eq!(parse_attribute("a=\"é>\""), Some((pair("a", "é>"), 6)));
    assert_eq!(parse_attribute("a=1"), None);
    assert_eq!(parse_attribute("a=\"1"), None);
    assert_eq!(parse_attribute("a='1\""), None);
    assert_eq!(parse_attribute("a="), None);
    assert_eq!(parse_attribute(" a"), None);
    assert_eq!(parse_attribute(""), None);
}

#[test]
fn closing_angle_after_blanks() {
    assert_eq!(parse_gt(">"), Some(1));
    assert_eq!(parse_gt(" \n>x"), Some(3));
    assert_eq!(parse_gt("x>"), None);
    assert_eq!(parse_gt("  "), None);
    assert_eq!(parse_gt(""), None);
}

#[test]
fn children_end_at_the_first_closing_tag() {
    assert_eq!(parse_children("a</svg>b</svg>"), Some(("a".to_string(), 7)));
    assert_eq!(parse_children("</svg>"), Some(("".to_string(), 6)));
    assert_eq!(parse_children("<svg><g/></svg></svg>"), Some(("<svg><g/>".to_string(), 15)));
    assert_eq!(parse_children("a</svg"), None);
    assert_eq!(parse_children(""), None);
}

#[test]
fn parse_svg_reports_each_failure() {
    assert_eq!(parse_svg("<g></g>").unwrap_err(), ParseFailure::NoSvgTag);
    assert_eq!(parse_svg("<svg></svg>").unwrap_err(), ParseFailure::NoSvgTag);
    assert_eq!(parse_svg("<svgfoo ></svg>").unwrap_err(), ParseFailure::NoSvgTag);
    assert_eq!(parse_svg("").unwrap_err(), ParseFailure::NoSvgTag);
    assert_eq!(
        parse_svg("<svg a=\"1></svg>").unwrap_err(),
        ParseFailure::UnterminatedValue
    );
    assert_eq!(
        parse_svg("<svg a=\"1\" b='2></svg>").unwrap_err(),
        ParseFailure::UnterminatedValue
    );
    assert_eq!(parse_svg("<svg a=1></svg>").unwrap_err(), ParseFailure::MalformedTag);
    assert_eq!(parse_svg("<svg a=\"1\"b=\"2\"></svg>").unwrap_err(), ParseFailure::MalformedTag);
    assert_eq!(parse_svg("<svg a=\"1\" /></svg>").unwrap_err(), ParseFailure::MalformedTag);
    assert_eq!(parse_svg("<svg a=\"1\"").unwrap_err(), ParseFailure::MalformedTag);
    assert_eq!(parse_svg("<svg a=\"1\"><g/>").unwrap_err(), ParseFailure::NoClosingTag);
    assert_eq!(parse_svg("<svg ><g/></SVG>").unwrap_err(), ParseFailure::NoClosingTag);
}

#[test]
fn parse_svg_takes_the_tag_apart() {
    assert_eq!(parse_svg("<svg ></svg>"), Ok((vec![], "".to_string(), 12)));
    assert_eq!(
        parse_svg("<svg focusable xlink:href='#a'\n>x</svg>trailing"),
        Ok((
            vec![pair("focusable", "focusable"), pair("xlink:href", "#a")],
            "x".to_string(),
            39
        ))
    );
    assert_eq!(
        parse_svg("<svg a=\"1\"><svg b=\"2\"><g/></svg></svg>"),
        Ok((vec![pair("a", "1")], "<svg b=\"2\"><g/>".to_string(), 32))
    );
    assert_eq!(
        parse_svg("<svg a=\">\" >é</svg>"),
        Ok((vec![pair("a", ">")], "é".to_string(), 19))
    );
    assert_eq!(
        parse_svg("<svg >a</svg>b</svg>"),
        Ok((vec![], "a".to_string(), 13))
    );
}

#[test]
fn prolog_is_stripped_to_a_fixed_point() {
    let svg = "<svg width=\"1\"></svg>";
    for lead in [
        "",
        "\u{feff}",
        "\u{feff}\u{feff}",
        "  \n\t",
        "<?xml version=\"1.0\"?>",
        "<!-- c0 -->",
        "<!-- c0 --><!-- c1 -->",
        "\u{feff}<?xml version=\"1.0\" encoding=\"UTF-8\"?>\n<!-- comment -->\n",
        "\u{feff}<?xml version=\"1.0\"?><!-- a --><?pi?> <!-- b -->\u{a0}\u{2003}",
        "<?><!-->",
    ] {
        let input = format!("{lead}{svg}");
        assert_eq!(preprocess_svg_content(&input), svg, "{lead:?}");
    }
}

#[test]
fn prolog_that_is_not_closed_stays() {
    assert_eq!(preprocess_svg_content("  <?xml <svg >"), "<?xml <svg >");
    assert_eq!(preprocess_svg_content("<!-- <svg >"), "<!-- <svg >");
    assert_eq!(preprocess_svg_content(" \u{feff}<svg >"), "\u{feff}<svg >");
    assert_eq!(preprocess_svg_content("<!DOCTYPE svg><svg >"), "<!DOCTYPE svg><svg >");
    assert_eq!(preprocess_svg_content("   "), "");
    assert_eq!(preprocess_svg_content(""), "");
}

#[test]
fn written_tags_parse_back() {
    let samples: [(&[(&str, &str)], &str); 5] = [
        (&[], ""),
        (&[("a", "1")], "x"),
        (&[("xlink:href", "#a"), ("data_2d:mode", "it's on"), ("c", "")], "<g/>\n"),
        (&[("a", ">"), ("-", " = ")], "</sv g></svg"),
        (&[("width", "24"), ("height", "24"), ("id", "é")], "<svg ><g/>"),
    ];
    for (attrs, content) in samples {
        let mut text = String::from("<svg");
        for (k, v) in attrs {
            text.push_str(&format!(" {k}=\"{v}\""));
        }
        text.push_str(" >");
        text.push_str(content);
        text.push_str("</svg>");
        let expected: Vec<(String, String)> = attrs.iter().map(|(k, v)| pair(k, v)).collect();
        let all = text.chars().count();
        assert_eq!(parse_svg(&text), Ok((expected, content.to_string(), all)), "{text:?}");
    }
}
