//! The sprite document: one `<pattern>` per icon inside a shared `<defs>`.
use crate::text::{from_chars, pair_texts, push_str};
use vstd::prelude::*;

verus! {

/// One icon, ready to be written as a pattern.
#[derive(Debug)]
pub struct SvgSprite {
    /// The name of the icon: its file name without the extension.
    pub name: String,
    /// The attributes of the root tag, as they are written out.
    pub attributes: Vec<(String, String)>,
    /// The content of the root tag.
    pub children: String,
}

/// What an icon holds, as texts.
pub struct SpriteModel {
    pub name: Seq<char>,
    pub attributes: Seq<(Seq<char>, Seq<char>)>,
    pub children: Seq<char>,
}

impl View for SvgSprite {
    type V = SpriteModel;

    open spec fn view(&self) -> SpriteModel {
        SpriteModel {
            name: self.name@,
            attributes: pair_texts(self.attributes@),
            children: self.children@,
        }
    }
}

/// The icons that a sequence holds.
pub open spec fn sprite_models(v: Seq<SvgSprite>) -> Seq<SpriteModel> {
    Seq::new(v.len(), |i: int| v[i]@)
}

/// The pairs of texts that a sequence of pairs of string slices holds.
pub open spec fn slice_pair_texts(v: Seq<(&str, &str)>) -> Seq<(Seq<char>, Seq<char>)> {
    Seq::new(v.len(), |i: int| (v[i].0@, v[i].1@))
}

impl SvgSprite {
    /// An icon with the given name, attributes and content.
    pub fn new(name: String, attributes: Vec<(&str, &str)>, children: String) -> (r: Self)
        ensures
            r@.name == name@,
            r@.attributes == slice_pair_texts(attributes@),
            r@.children == children@,
    {
        let mut owned: Vec<(String, String)> = Vec::new();
        let mut i: usize = 0;
        while i < attributes.len()
            invariant
                i <= attributes.len(),
                owned@.len() == i,
                forall|k: int|
                    0 <= k < i ==> (#[trigger] owned@[k]).0@ == attributes@[k].0@ && owned@[k].1@
                        == attributes@[k].1@,
            decreases attributes.len() - i,
        {
            let (a, b) = attributes[i];
            owned.push((a.to_owned(), b.to_owned()));
            i += 1;
        }
        proof {
            assert(pair_texts(owned@) =~= slice_pair_texts(attributes@));
        }
        SvgSprite { name, attributes: owned, children }
    }
}

/// What opens the sprite document.
pub open spec fn preamble() -> Seq<char> {
    "<svg xmlns=\"http://www.w3.org/2000/svg\"><defs>"@
}

/// What closes the sprite document.
pub open spec fn trailer() -> Seq<char> {
    "</defs></svg>"@
}

/// The attributes written out, each as a space and `key="value"`.
pub open spec fn rendered_attributes(attrs: Seq<(Seq<char>, Seq<char>)>) -> Seq<char>
    decreases attrs.len(),
{
    if attrs.len() == 0 {
        Seq::empty()
    } else {
        rendered_attributes(attrs.drop_last()) + " "@ + attrs.last().0 + "=\""@ + attrs.last().1
            + "\""@
    }
}

/// The pattern of one icon.
pub open spec fn rendered_pattern(u: SpriteModel) -> Seq<char> {
    "<pattern id=\""@ + u.name + "\""@ + rendered_attributes(u.attributes) + ">"@ + u.children
        + "</pattern>"@
}

/// The patterns of the icons, in order.
pub open spec fn rendered_patterns(units: Seq<SpriteModel>) -> Seq<char>
    decreases units.len(),
{
    if units.len() == 0 {
        Seq::empty()
    } else {
        rendered_patterns(units.drop_last()) + rendered_pattern(units.last())
    }
}

/// The sprite document of the icons.
pub open spec fn sprite(units: Seq<SpriteModel>) -> Seq<char> {
    preamble() + rendered_patterns(units) + trailer()
}

/// What opens the sprite document.
pub fn sprite_preamble() -> (r: &'static str)
    ensures
        r@ == preamble(),
{
    "<svg xmlns=\"http://www.w3.org/2000/svg\"><defs>"
}

/// What closes the sprite document.
pub fn sprite_trailer() -> (r: &'static str)
    ensures
        r@ == trailer(),
{
    "</defs></svg>"
}

fn push_pattern(out: &mut Vec<char>, unit: &SvgSprite)
    ensures
        final(out)@ == old(out)@ + rendered_pattern(unit@),
{
    let ghost start = out@;
    push_str(out, "<pattern id=\"");
    push_str(out, unit.name.as_str());
    push_str(out, "\"");
    let ghost head = out@;
    let mut i: usize = 0;
    while i < unit.attributes.len()
        invariant
            i <= unit.attributes.len(),
            out@ == head + rendered_attributes(pair_texts(unit.attributes@).take(i as int)),
        decreases unit.attributes.len() - i,
    {
        let ghost before = out@;
        push_str(out, " ");
        push_str(out, unit.attributes[i].0.as_str());
        push_str(out, "=\"");
        push_str(out, unit.attributes[i].1.as_str());
        push_str(out, "\"");
        proof {
            let all = pair_texts(unit.attributes@);
            let now = all.take(i + 1);
            assert(now.drop_last() == all.take(i as int));
            assert(now.last() == (unit.attributes@[i as int].0@, unit.attributes@[i as int].1@));
            assert(out@ =~= head + rendered_attributes(now));
        }
        i += 1;
    }
    proof {
        let all = pair_texts(unit.attributes@);
        assert(all.take(all.len() as int) == all);
    }
    push_str(out, ">");
    push_str(out, unit.children.as_str());
    push_str(out, "</pattern>");
    proof {
        assert(out@ =~= start + rendered_pattern(unit@));
    }
}

/// The pattern of one icon: `<pattern id="name" key="value"...>`, the
/// content, and `</pattern>`.
pub fn render_pattern(unit: &SvgSprite) -> (r: String)
    ensures
        r@ == rendered_pattern(unit@),
{
    let mut out: Vec<char> = Vec::new();
    push_pattern(&mut out, unit);
    from_chars(out.as_slice())
}

/// The icons that a sequence of borrowed icons holds.
pub open spec fn borrowed_models(v: Seq<&SvgSprite>) -> Seq<SpriteModel> {
    Seq::new(v.len(), |i: int| v[i]@)
}

/// The sprite document of the borrowed icons `svgs`.
pub fn render_sprite(svgs: &Vec<&SvgSprite>) -> (r: String)
    ensures
        r@ == sprite(borrowed_models(svgs@)),
{
    let mut out: Vec<char> = Vec::new();
    push_str(&mut out, sprite_preamble());
    let mut i: usize = 0;
    while i < svgs.len()
        invariant
            i <= svgs.len(),
            out@ == preamble() + rendered_patterns(borrowed_models(svgs@).take(i as int)),
        decreases svgs.len() - i,
    {
        push_pattern(&mut out, svgs[i]);
        proof {
            let all = borrowed_models(svgs@);
            let now = all.take(i + 1);
            assert(now.drop_last() == all.take(i as int));
            assert(now.last() == svgs@[i as int]@);
            assert(out@ =~= preamble() + rendered_patterns(now));
        }
        i += 1;
    }
    proof {
        let all = borrowed_models(svgs@);
        assert(all.take(all.len() as int) == all);
    }
    push_str(&mut out, sprite_trailer());
    from_chars(out.as_slice())
}

/// The sprite document of the icons `svgs`: the opening, one pattern for each
/// icon in the order given, and the closing.
pub fn transform(svgs: Vec<SvgSprite>) -> (r: String)
    ensures
        r@ == sprite(sprite_models(svgs@)),
{
    let mut refs: Vec<&SvgSprite> = Vec::new();
    let mut i: usize = 0;
    while i < svgs.len()
        invariant
            i <= svgs.len(),
            refs@.len() == i,
            forall|k: int| 0 <= k < i ==> (#[trigger] refs@[k])@ == svgs@[k]@,
        decreases svgs.len() - i,
    {
        refs.push(&svgs[i]);
        i += 1;
    }
    proof {
        assert(borrowed_models(refs@) =~= sprite_models(svgs@));
    }
    render_sprite(&refs)
}

} // verus!
