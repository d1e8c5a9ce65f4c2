//! The grammar of the root tag, written a second time with parser
//! combinators, and held against the parser of the library.
use svg_sheet::svg::parsing::{attributes, parse_attribute, parse_svg};
use winnow::{
    ascii::{multispace0, multispace1},
    combinator::{preceded, terminated},
    token::{take_until, take_while},
    PResult, Parser,
};

fn key<'s>(input: &mut &'s str) -> PResult<&'s str> {
    take_while(1.., ('a'..='z', 'A'..='Z', '0'..='9', '-', '_', ':')).parse_next(input)
}

fn equals(input: &mut &str) -> PResult<char> {
    multispace0.parse_next(input)?;
    let eq = '='.parse_next(input)?;
    multispace0.parse_next(input)?;
    Ok(eq)
}

fn value<'s>(input: &mut &'s str) -> PResult<&'s str> {
    if input.starts_with('\'') {
        return preceded('\'', terminated(take_until(0.., '\''), '\'')).parse_next(input);
    }
    preceded('"', terminated(take_until(0.., '"'), '"')).parse_next(input)
}

fn attribute<'s>(input: &mut &'s str) -> PResult<(&'s str, &'s str)> {
    let k = key.parse_next(input)?;
    let mut lookahead = *input;
    if equals.parse_next(&mut lookahead).is_ok() {
        let v = value.parse_next(&mut lookahead)?;
        *input = lookahead;
        Ok((k, v))
    } else {
        Ok((k, k))
    }
}

fn attribute_list<'s>(input: &mut &'s str) -> PResult<Vec<(&'s str, &'s str)>> {
    multispace0.parse_next(input)?;
    let mut out: Vec<(&'s str, &'s str)> = Vec::new();
    if let Ok(first) = attribute.parse_next(input) {
        out.push(first);
        loop {
            let checkpoint = *input;
            match preceded(multispace1, attribute).parse_next(input) {
                Ok(attr) => out.push(attr),
                Err(_) => {
                    *input = checkpoint;
                    break;
                }
            }
        }
    }
    Ok(out)
}

fn root<'s>(input: &mut &'s str) -> PResult<(Vec<(&'s str, &'s str)>, &'s str)> {
    terminated("<svg", multispace1).parse_next(input)?;
    let attrs = attribute_list.parse_next(input)?;
    preceded(multispace0, '>').parse_next(input)?;
    let children = terminated(take_until(0.., "</svg>"), "</svg>").parse_next(input)?;
    Ok((attrs, children))
}

fn owned(attrs: Vec<(&str, &str)>) -> Vec<(String, String)> {
    attrs
        .into_iter()
        .map(|(k, v)| (k.to_string(), v.to_string()))
        .collect()
}

const TAGS: [&str; 30] = [
    "<svg ></svg>",
    "<svg></svg>",
    "<svg\n></svg>",
    "<svg \t\r\n a=\"1\"\n>x</svg>",
    "<svg a=\"1\" b='2' c>x</svg>",
    "<svg a = \"1\">x</svg>",
    "<svg a\n=\n'1' >x</svg>",
    "<svg a=\"1\"b=\"2\">x</svg>",
    "<svg a=1>x</svg>",
    "<svg a=\"1>x</svg>",
    "<svg a='1\">x</svg>",
    "<svg a=>x</svg>",
    "<svg a b c >x</svg>",
    "<svg a= >x</svg>",
    "<svg =\"1\">x</svg>",
    "<svg a=\"1\" />x</svg>",
    "<svg a=\"1\">x",
    "<svg a=\"1\"",
    "<svg xlink:href=\"#a\" data_2d:mode='on' -x=\"y\">é💥</svg></svg>",
    "<svg a=\">\">x</svg>",
    "<svg a=\"</svg>\">x</svg>",
    "<svg é=\"1\">x</svg>",
    "<svg a=\"é\">x</svg>",
    "<svg a\u{a0}b>x</svg>",
    "<svg\u{a0}a>x</svg>",
    "<svgfoo a=\"1\">x</svg>",
    " <svg a=\"1\">x</svg>",
    "<SVG a=\"1\">x</SVG>",
    "<svg a=\"1\"><svg b=\"2\"></svg></svg>",
    "",
];

#[test]
fn root_tags_parse_as_the_combinators_parse_them() {
    for tag in TAGS {
        let mut input = tag;
        let expected = root.parse_next(&mut input).ok().map(|(a, c)| {
            let taken = tag[..tag.len() - input.len()].chars().count();
            (owned(a), c.to_string(), taken)
        });
        assert_eq!(parse_svg(tag).ok(), expected, "{tag:?}");
    }
}

const LISTS: [&str; 14] = [
    "",
    "  ",
    "a",
    "a b",
    "  a=\"1\"\n b='2'  ",
    "a=\"1\"b=\"2\"",
    "a=\"1\" b=2 c=\"3\"",
    "a=\"1\" b=\"2",
    "a =\n\"1\" b",
    ">",
    "a>",
    "a=\"1\" > b=\"2\"",
    "é a",
    "a é",
];

#[test]
fn attribute_lists_parse_as_the_combinators_parse_them() {
    for list in LISTS {
        let mut input = list;
        let expected = owned(attribute_list.parse_next(&mut input).unwrap());
        let (got, _) = attributes(list);
        assert_eq!(got, expected, "{list:?}");
    }
}

#[test]
fn attributes_parse_as_the_combinators_parse_them() {
    for text in [
        "a",
        "a=\"1\"",
        "a='1'",
        "a = '1' b",
        "a=1",
        "a=\"1",
        "a=",
        "",
        " a",
        "a-b:c_d9=\"x y\"z",
    ] {
        let mut input = text;
        let expected = attribute
            .parse_next(&mut input)
            .ok()
            .map(|(k, v)| ((k.to_string(), v.to_string()), text.len() - input.len()));
        let got = parse_attribute(text);
        assert_eq!(got, expected, "{text:?}");
    }
}
