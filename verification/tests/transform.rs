use svg_sheet::svg::transform::{
    render_pattern, render_sprite, sprite_preamble, sprite_trailer, transform, SvgSprite,
};

#[test]
fn transform_emits_pattern_per_file() {
    let svgs = vec![
        SvgSprite::new(
            "one".into(),
            vec![("width", "24"), ("height", "24")],
            "<g/>".into(),
        ),
        SvgSprite::new("two".into(), vec![("fill", "#000")], "<circle/>".into()),
    ];
    let out = transform(svgs);
    assert!(out.starts_with("<svg"));
    assert!(out.contains("<defs>"));
    assert!(out.contains("<pattern id=\"one\" width=\"24\" height=\"24\"><g/>"));
    assert!(out.contains("<pattern id=\"two\" fill=\"#000\"><circle/>"));
    assert!(out.ends_with("</defs></svg>"));
}

#[test]
fn transform_is_exact() {
    let svgs = vec![
        SvgSprite::new(
            "one".into(),
            vec![("width", "24"), ("height", "24")],
            "<g/>".into(),
        ),
        SvgSprite::new("two".into(), vec![], "".into()),
    ];
    assert_eq!(
        transform(svgs),
        "<svg xmlns=\"http://www.w3.org/2000/svg\"><defs>\
         <pattern id=\"one\" width=\"24\" height=\"24\"><g/></pattern>\
         <pattern id=\"two\"></pattern>\
         </defs></svg>"
    );
}

#[test]
fn transform_of_nothing_is_the_empty_document() {
    assert_eq!(
        transform(Vec::new()),
        "<svg xmlns=\"http://www.w3.org/2000/svg\"><defs></defs></svg>"
    );
}

#[test]
fn new_keeps_what_it_is_given() {
    let s = SvgSprite::new("n".into(), vec![("a", "1"), ("b", "2")], "c".into());
    assert_eq!(s.name, "n");
    assert_eq!(
        s.attributes,
        vec![("a".to_string(), "1".to_string()), ("b".to_string(), "2".to_string())]
    );
    assert_eq!(s.children, "c");
}

#[test]
fn patterns_can_be_streamed() {
    let a = SvgSprite::new("a".into(), vec![("x", "1")], "<g/>".into());
    let b = SvgSprite::new("b".into(), vec![], "é".into());
    assert_eq!(render_pattern(&a), "<pattern id=\"a\" x=\"1\"><g/></pattern>");
    assert_eq!(render_pattern(&b), "<pattern id=\"b\">é</pattern>");
    let mut streamed = String::from(sprite_preamble());
    streamed.push_str(&render_pattern(&a));
    streamed.push_str(&render_pattern(&b));
    streamed.push_str(sprite_trailer());
    assert_eq!(streamed, render_sprite(&vec![&a, &b]));
    assert_eq!(streamed, transform(vec![a, b]));
}
