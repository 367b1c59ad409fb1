use vstd::prelude::*;
use svg::Node;

use crate::attributes::map_of;
use crate::parser::Tag;
use crate::parser::TagModel;
use crate::text::push_text;

verus! {

/// An element of the `svg` crate (`svg::node::element::Element`): a name
/// and a map of attributes. It is kept inside a struct of this library,
/// which has an `Element` of its own, and Verus sees nothing inside it.
#[verifier::external_body]
pub struct Child {
    inner: svg::node::element::Element,
}

/// The root element of the `svg` crate.
#[verifier::external_type_specification]
#[verifier::external_body]
pub struct ExSvg(svg::node::element::SVG);

/// The name that an element of the `svg` crate was made with.
pub uninterp spec fn element_name(element: Child) -> Seq<char>;

/// The attributes that an element of the `svg` crate holds.
pub uninterp spec fn element_attributes(element: Child) -> Map<Seq<char>, Seq<char>>;

/// The attributes that a root element of the `svg` crate holds.
pub uninterp spec fn root_attributes(root: svg::node::element::SVG) -> Map<Seq<char>, Seq<char>>;

/// The children of a root element of the `svg` crate, each by its name and
/// its attributes, in the order in which they were added.
pub uninterp spec fn root_children(root: svg::node::element::SVG) -> Seq<
    (Seq<char>, Map<Seq<char>, Seq<char>>),
>;

/// The text that the `svg` crate writes for a root element with the given
/// attributes and the given childless children.
pub uninterp spec fn svg_text(
    attributes: Map<Seq<char>, Seq<char>>,
    children: Seq<(Seq<char>, Map<Seq<char>, Seq<char>>)>,
) -> Seq<char>;

/// A map without attributes.
pub open spec fn no_attributes() -> Map<Seq<char>, Seq<char>> {
    Map::empty()
}

/// `Element::new` makes an element with the given name, no attributes and
/// no children.
#[verifier::external_body]
fn element_new(name: &str) -> (r: Child)
    ensures
        element_name(r) == name@,
        element_attributes(r) == no_attributes(),
{
    Child { inner: svg::node::element::Element::new(name) }
}

/// `Node::assign` on an element inserts the attribute into its map of
/// attributes, in place of an earlier one of the same name; the value of a
/// string is the string itself.
#[verifier::external_body]
fn element_assign(element: &mut Child, name: &str, value: &str)
    ensures
        element_name(*final(element)) == element_name(*old(element)),
        element_attributes(*final(element)) == element_attributes(*old(element)).insert(
            name@,
            value@,
        ),
{
    element.inner.assign(name, value)
}

/// `SVG::new` makes a root element without children whose one attribute is
/// `xmlns`, set to the namespace of SVG.
#[verifier::external_body]
fn root_new() -> (r: svg::node::element::SVG)
    ensures
        root_attributes(r) == no_attributes().insert("xmlns"@, "http://www.w3.org/2000/svg"@),
        root_children(r).len() == 0,
{
    svg::node::element::SVG::new()
}

/// `SVG::set` inserts the attribute into the root's map of attributes and
/// leaves the children alone.
#[verifier::external_body]
fn root_set(root: svg::node::element::SVG, name: &str, value: &str) -> (r: svg::node::element::SVG)
    ensures
        root_attributes(r) == root_attributes(root).insert(name@, value@),
        root_children(r) == root_children(root),
{
    root.set(name, value)
}

/// `SVG::add` appends the node to the root's children and leaves the
/// attributes alone.
#[verifier::external_body]
fn root_add(root: svg::node::element::SVG, child: Child) -> (r: svg::node::element::SVG)
    ensures
        root_attributes(r) == root_attributes(root),
        root_children(r) == root_children(root).push(
            (element_name(child), element_attributes(child)),
        ),
{
    root.add(child.inner)
}

/// `to_string` on a root element writes the root tag with its attributes
/// in the order of their names, then each child on a line of its own, then
/// the closing tag. The contract names the text and claims nothing else of
/// it. It is meant for roots whose children have no children of their own,
/// which are the only ones that this module builds.
#[verifier::external_body]
fn root_to_string(root: &svg::node::element::SVG) -> (r: String)
    ensures
        r@ == svg_text(root_attributes(*root), root_children(*root)),
{
    root.to_string()
}

/// The attributes of the root element of every document.
pub open spec fn canvas() -> Map<Seq<char>, Seq<char>> {
    no_attributes().insert("xmlns"@, "http://www.w3.org/2000/svg"@).insert(
        "viewBox"@,
        "0 0 2000 2000"@,
    ).insert("width"@, "100mm"@).insert("height"@, "100mm"@).insert(
        "xmlns:svgnote"@,
        "https://github.com/ModProg/SVGNotesLib"@,
    ).insert("svgnote:version"@, "0.1"@)
}

/// The lines that every document begins with.
pub open spec fn preamble() -> Seq<char> {
    "<?xml version=\"1.0\" encoding=\"UTF-8\" standalone=\"no\"?>\n<!-- Created with SVGNotes (https://github.com/ModProg/SVGNotesLib) -->\n\n"@
}

/// The tags as pairs of a name and attributes.
pub open spec fn children_of(tags: Seq<TagModel>) -> Seq<(Seq<char>, Map<Seq<char>, Seq<char>>)> {
    Seq::new(tags.len(), |i: int| (tags[i].name, tags[i].attributes))
}

/// The text of the document with the given elements: the preamble, then
/// the root element with the attributes of the canvas and one child for
/// each tag.
pub open spec fn document_text(tags: Seq<TagModel>) -> Seq<char> {
    preamble() + svg_text(canvas(), children_of(tags))
}

/// The element of the `svg` crate for a tag.
fn compose(tag: &Tag) -> (r: Child)
    ensures
        element_name(r) == tag@.name,
        element_attributes(r) == tag@.attributes,
{
    let mut element = element_new(tag.name.as_str());
    let attributes = &tag.attributes;
    let mut i: usize = 0;
    assert(attributes.pairs().take(0) =~= Seq::<(Seq<char>, Seq<char>)>::empty());
    while i < attributes.len()
        invariant
            i <= attributes.pairs().len(),
            element_name(element) == tag@.name,
            element_attributes(element) == map_of(attributes.pairs().take(i as int)),
        decreases attributes.pairs().len() - i,
    {
        proof {
            let now = attributes.pairs().take(i + 1);
            assert(now.drop_last() =~= attributes.pairs().take(i as int));
            assert(now.last() == attributes.pairs()[i as int]);
        }
        element_assign(&mut element, attributes.name_at(i), attributes.value_at(i));
        i += 1;
    }
    assert(attributes.pairs().take(attributes.pairs().len() as int) =~= attributes.pairs());
    element
}

/// Writes the document that holds one element for each tag, in order.
pub fn render(tags: &Vec<Tag>) -> (r: String)
    ensures
        r@ == document_text(crate::parser::tag_models(tags@)),
{
    let ghost all = crate::parser::tag_models(tags@);
    let mut root = root_new();
    root = root_set(root, "viewBox", "0 0 2000 2000");
    root = root_set(root, "width", "100mm");
    root = root_set(root, "height", "100mm");
    root = root_set(root, "xmlns:svgnote", "https://github.com/ModProg/SVGNotesLib");
    root = root_set(root, "svgnote:version", "0.1");
    let mut i: usize = 0;
    assert(root_children(root) =~= children_of(all.take(0)));
    while i < tags.len()
        invariant
            i <= tags.len(),
            all == crate::parser::tag_models(tags@),
            root_attributes(root) == canvas(),
            root_children(root) == children_of(all.take(i as int)),
        decreases tags.len() - i,
    {
        let element = compose(&tags[i]);
        root = root_add(root, element);
        assert(children_of(all.take(i + 1)) =~= children_of(all.take(i as int)).push(
            (tags@[i as int]@.name, tags@[i as int]@.attributes),
        ));
        i += 1;
    }
    assert(all.take(all.len() as int) =~= all);
    let mut out = String::new();
    push_text(
        &mut out,
        "<?xml version=\"1.0\" encoding=\"UTF-8\" standalone=\"no\"?>\n<!-- Created with SVGNotes (https://github.com/ModProg/SVGNotesLib) -->\n\n",
    );
    let body = root_to_string(&root);
    push_text(&mut out, body.as_str());
    out
}

} // verus!
