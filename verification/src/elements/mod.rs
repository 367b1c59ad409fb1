use vstd::prelude::*;
use vstd::std_specs::cmp::PartialEqSpecImpl;

pub mod ellipse;
pub mod line;
pub mod ngon;
pub mod polygon;

pub use self::ellipse::Ellipse;
pub use self::line::Line;
pub use self::line::Point as LinePoint;
pub use self::ngon::Ngon;
pub use self::polygon::Polyline;
pub use self::polygon::PolylinePoint;

use crate::attributes::alike_on;
use crate::attributes::Attributes;
use crate::attributes::color_of;
use crate::attributes::lemma_alike_attributes;
use crate::attributes::lemma_names;
use crate::attributes::number_of;
use crate::attributes::pair_of;
use crate::attributes::required;
use crate::attributes::same;
use crate::DocumentError;
use crate::Failure;
use crate::numerals::Numerals;
use crate::parser::Event;
use crate::parser::Tag;
use crate::parser::TagKind;
use crate::parser::TagModel;
use crate::scalar::Scalar;
use crate::text::same_text;
use self::ellipse::ellipse_attributes;
use self::ellipse::ellipse_needs;
use self::ellipse::ellipse_of;
use self::ellipse::ellipse_requires;
use self::ellipse::ellipse_writable;
use self::ellipse::lemma_ellipse_lacks;
use self::ellipse::lemma_ellipse_round_trip;
use self::line::lemma_line_round_trip;
use self::line::line_attributes;
use self::line::line_needs;
use self::line::line_of;
use self::line::line_requires;
use self::line::line_writable;
use self::line::LineModel;
use self::ngon::lemma_ngon_lacks;
use self::ngon::lemma_ngon_round_trip;
use self::ngon::ngon_attributes;
use self::ngon::ngon_needs;
use self::ngon::ngon_of;
use self::ngon::ngon_requires;
use self::ngon::ngon_writable;
use self::polygon::lemma_polyline_round_trip;
use self::polygon::polyline_attributes;
use self::polygon::polyline_needs;
use self::polygon::polyline_of;
use self::polygon::polyline_requires;
use self::polygon::polyline_writable;
use self::polygon::PolylineModel;

verus! {

/// A shape that is decoded from the attributes of its tag.
pub trait FromAttributes: Sized + View {
    /// The shape that the attributes write, or the error in its place.
    spec fn decoded(attrs: Map<Seq<char>, Seq<char>>, numerals: Numerals) -> Result<
        Self::V,
        Failure,
    >;

    /// Reads the shape from the attributes of its tag, the numbers by the
    /// table of numerals.
    fn from_attributes(attributes: &Attributes, numerals: &Numerals) -> (r: Result<
        Self,
        DocumentError,
    >)
        ensures
            match r {
                Ok(shape) => Self::decoded(attributes@, *numerals) == Ok::<Self::V, Failure>(
                    shape@,
                ),
                Err(e) => Self::decoded(attributes@, *numerals) == Err::<Self::V, Failure>(e@),
            },
    ;
}

/// A shape with its identifier, which is unique within a document.
#[derive(Debug, Clone)]
pub enum Element {
    Line(Line, i32),
    Ngon(Ngon, i32),
    Ellipse(Ellipse, i32),
    Polyline(Polyline, i32),
}

/// An `Element` with its points as sequences.
pub enum ElementModel {
    Line(LineModel, i32),
    Ngon(Ngon, i32),
    Ellipse(Ellipse, i32),
    Polyline(PolylineModel, i32),
}

impl View for Element {
    type V = ElementModel;

    open spec fn view(&self) -> ElementModel {
        match self {
            Element::Line(line, id) => ElementModel::Line(line@, *id),
            Element::Ngon(ngon, id) => ElementModel::Ngon(*ngon, *id),
            Element::Ellipse(ellipse, id) => ElementModel::Ellipse(*ellipse, *id),
            Element::Polyline(polyline, id) => ElementModel::Polyline(polyline@, *id),
        }
    }
}

impl PartialEq for Element {
    fn eq(&self, other: &Self) -> (r: bool) {
        match (self, other) {
            (Element::Line(a, i), Element::Line(b, j)) => *a == *b && *i == *j,
            (Element::Ngon(a, i), Element::Ngon(b, j)) => *a == *b && *i == *j,
            (Element::Ellipse(a, i), Element::Ellipse(b, j)) => *a == *b && *i == *j,
            (Element::Polyline(a, i), Element::Polyline(b, j)) => *a == *b && *i == *j,
            _ => false,
        }
    }
}

impl PartialEqSpecImpl for Element {
    open spec fn obeys_eq_spec() -> bool {
        true
    }

    open spec fn eq_spec(&self, other: &Self) -> bool {
        self@ == other@
    }
}

/// The identifier of an element.
pub open spec fn id_of(element: ElementModel) -> i32 {
    match element {
        ElementModel::Line(_, id) => id,
        ElementModel::Ngon(_, id) => id,
        ElementModel::Ellipse(_, id) => id,
        ElementModel::Polyline(_, id) => id,
    }
}

/// The element that a tag with the given name and attributes writes.
///
/// A `path` is a pen stroke and a `polygon` a regular polygon; each has to
/// say so in its attribute `svgnote:tool`. A `polyline` and an `ellipse`
/// need no such mark. Any other name is an unknown event.
pub open spec fn element_of(
    name: Seq<char>,
    attrs: Map<Seq<char>, Seq<char>>,
    id: i32,
    numerals: Numerals,
) -> Result<ElementModel, Failure> {
    if name == "path"@ {
        match required(attrs, "svgnote:tool"@) {
            Err(e) => Err(e),
            Ok(tool) => if tool == "pen"@ {
                match line_of(attrs, numerals) {
                    Err(e) => Err(e),
                    Ok(line) => Ok(ElementModel::Line(line, id)),
                }
            } else {
                Err(Failure::InvalidAttribute("svgnote:tool"@, tool))
            },
        }
    } else if name == "polygon"@ {
        match required(attrs, "svgnote:tool"@) {
            Err(e) => Err(e),
            Ok(tool) => if tool == "ngon"@ {
                match ngon_of(attrs, numerals) {
                    Err(e) => Err(e),
                    Ok(ngon) => Ok(ElementModel::Ngon(ngon, id)),
                }
            } else {
                Err(Failure::InvalidAttribute("svgnote:tool"@, tool))
            },
        }
    } else if name == "polyline"@ {
        match polyline_of(attrs, numerals) {
            Err(e) => Err(e),
            Ok(polyline) => Ok(ElementModel::Polyline(polyline, id)),
        }
    } else if name == "ellipse"@ {
        match ellipse_of(attrs, numerals) {
            Err(e) => Err(e),
            Ok(ellipse) => Ok(ElementModel::Ellipse(ellipse, id)),
        }
    } else {
        Err(Failure::UnknownEvent)
    }
}

/// The element that an event writes: that of its tag if the event is a tag
/// that opens, an unknown event otherwise.
pub open spec fn element_of_event(event: Event, id: i32, numerals: Numerals) -> Result<
    ElementModel,
    Failure,
> {
    match event {
        Event::Tag(name, kind, attributes) => if kind == TagKind::End {
            Err(Failure::UnknownEvent)
        } else {
            element_of(name@, attributes@, id, numerals)
        },
        _ => Err(Failure::UnknownEvent),
    }
}

/// Whether the tag `tag` cannot be decoded without the attribute `name`.
pub open spec fn element_requires(tag: Seq<char>, name: Seq<char>) -> bool {
    if tag == "path"@ {
        name == "svgnote:tool"@ || line_requires(name)
    } else if tag == "polygon"@ {
        name == "svgnote:tool"@ || ngon_requires(name)
    } else if tag == "polyline"@ {
        polyline_requires(name)
    } else if tag == "ellipse"@ {
        ellipse_requires(name)
    } else {
        false
    }
}

/// Whether encoding the element writes the scalar `x`.
pub open spec fn element_needs(element: ElementModel, x: Scalar) -> bool {
    match element {
        ElementModel::Line(line, _) => line_needs(line, x),
        ElementModel::Ngon(ngon, _) => ngon_needs(ngon, x),
        ElementModel::Ellipse(ellipse, _) => ellipse_needs(ellipse, x),
        ElementModel::Polyline(polyline, _) => polyline_needs(polyline, x),
    }
}

/// Whether the table has a text for every scalar that encoding the element
/// writes.
pub open spec fn element_writable(element: ElementModel, numerals: Numerals) -> bool {
    match element {
        ElementModel::Line(line, _) => line_writable(line, numerals),
        ElementModel::Ngon(ngon, _) => ngon_writable(ngon, numerals),
        ElementModel::Ellipse(ellipse, _) => ellipse_writable(ellipse, numerals),
        ElementModel::Polyline(polyline, _) => polyline_writable(polyline, numerals),
    }
}

/// The tag that encodes an element: `path` for a pen stroke, `polygon` for
/// a regular polygon, `ellipse` for a circle, `polyline` for a polyline,
/// each with the attributes of its shape. The identifier is not written.
pub open spec fn element_tag(element: ElementModel, numerals: Numerals) -> TagModel {
    match element {
        ElementModel::Line(line, _) => TagModel {
            name: "path"@,
            attributes: line_attributes(line, numerals),
        },
        ElementModel::Ngon(ngon, _) => TagModel {
            name: "polygon"@,
            attributes: ngon_attributes(ngon, numerals),
        },
        ElementModel::Ellipse(ellipse, _) => TagModel {
            name: "ellipse"@,
            attributes: ellipse_attributes(ellipse, numerals),
        },
        ElementModel::Polyline(polyline, _) => TagModel {
            name: "polyline"@,
            attributes: polyline_attributes(polyline, numerals),
        },
    }
}

impl Element {
    /// The identifier of the element.
    pub fn id(&self) -> (r: i32)
        ensures
            r == id_of(self@),
    {
        match self {
            Element::Line(_, id) => *id,
            Element::Ngon(_, id) => *id,
            Element::Ellipse(_, id) => *id,
            Element::Polyline(_, id) => *id,
        }
    }

    /// The scalars that encoding the element writes.
    pub fn scalars(&self) -> (r: Vec<Scalar>)
        ensures
            forall|x: Scalar| element_needs(self@, x) <==> r@.contains(x),
    {
        match self {
            Element::Line(line, _) => line.scalars(),
            Element::Ngon(ngon, _) => ngon.scalars(),
            Element::Ellipse(ellipse, _) => ellipse.scalars(),
            Element::Polyline(polyline, _) => polyline.scalars(),
        }
    }

    /// The tag that encodes the element, if the table has a text for every
    /// scalar that its attributes write.
    pub fn encode(&self, numerals: &Numerals) -> (r: Option<Tag>)
        ensures
            match r {
                Some(tag) => element_writable(self@, *numerals) && tag@ == element_tag(
                    self@,
                    *numerals,
                ),
                None => !element_writable(self@, *numerals),
            },
    {
        match self {
            Element::Line(line, _) => {
                let attributes = line.attributes(numerals)?;
                Some(Tag { name: "path".to_owned(), attributes })
            },
            Element::Ngon(ngon, _) => {
                let attributes = ngon.attributes(numerals)?;
                Some(Tag { name: "polygon".to_owned(), attributes })
            },
            Element::Ellipse(ellipse, _) => {
                let attributes = ellipse.attributes(numerals)?;
                Some(Tag { name: "ellipse".to_owned(), attributes })
            },
            Element::Polyline(polyline, _) => {
                let attributes = polyline.attributes(numerals)?;
                Some(Tag { name: "polyline".to_owned(), attributes })
            },
        }
    }

    /// Decodes the tag `name` with the given attributes into the element
    /// with the identifier `id`.
    pub fn decode(name: &str, attributes: &Attributes, id: i32, numerals: &Numerals) -> (r: Result<
        Element,
        DocumentError,
    >)
        ensures
            match r {
                Ok(element) => element_of(name@, attributes@, id, *numerals) == Ok::<
                    ElementModel,
                    Failure,
                >(element@),
                Err(e) => element_of(name@, attributes@, id, *numerals) == Err::<
                    ElementModel,
                    Failure,
                >(e@),
            },
    {
        if same_text(name, "path") {
            let tool = attributes.require("svgnote:tool")?;
            if same_text(tool, "pen") {
                Ok(Element::Line(Line::from_attributes(attributes, numerals)?, id))
            } else {
                Err(DocumentError::InvalidAttribute("svgnote:tool".to_owned(), tool.to_owned()))
            }
        } else if same_text(name, "polygon") {
            let tool = attributes.require("svgnote:tool")?;
            if same_text(tool, "ngon") {
                Ok(Element::Ngon(Ngon::from_attributes(attributes, numerals)?, id))
            } else {
                Err(DocumentError::InvalidAttribute("svgnote:tool".to_owned(), tool.to_owned()))
            }
        } else if same_text(name, "polyline") {
            Ok(Element::Polyline(Polyline::from_attributes(attributes, numerals)?, id))
        } else if same_text(name, "ellipse") {
            Ok(Element::Ellipse(Ellipse::from_attributes(attributes, numerals)?, id))
        } else {
            Err(DocumentError::UnknownEvent)
        }
    }

    /// Decodes an event into the element with the identifier `id`. An
    /// event that is not the opening tag of a known shape is an unknown
    /// event.
    pub fn from_event(e: Event, id: i32, numerals: &Numerals) -> (r: Result<Element, DocumentError>)
        ensures
            match r {
                Ok(element) => element_of_event(e, id, *numerals) == Ok::<ElementModel, Failure>(
                    element@,
                ),
                Err(error) => element_of_event(e, id, *numerals) == Err::<ElementModel, Failure>(
                    error@,
                ),
            },
    {
        match e {
            Event::Tag(name, kind, attributes) => {
                match kind {
                    TagKind::End => Err(DocumentError::UnknownEvent),
                    _ => Element::decode(name.as_str(), &attributes, id, numerals),
                }
            },
            _ => Err(DocumentError::UnknownEvent),
        }
    }
}

proof fn lemma_tags()
    ensures
        "path"@.len() == 4,
        "polygon"@.len() == 7,
        "polyline"@.len() == 8,
        "ellipse"@.len() == 7 && "ellipse"@[0] == 'e',
        "polygon"@[0] == 'p',
{
    reveal_strlit("path");
    reveal_strlit("polygon");
    reveal_strlit("polyline");
    reveal_strlit("ellipse");
}

/// The attribute that decoding a tag reports as missing is one that the
/// tag requires and does not have.
pub proof fn lemma_element_missing(
    tag: Seq<char>,
    attrs: Map<Seq<char>, Seq<char>>,
    id: i32,
    numerals: Numerals,
    name: Seq<char>,
)
    requires
        element_of(tag, attrs, id, numerals) == Err::<ElementModel, Failure>(
            Failure::MissingAttribute(name),
        ),
    ensures
        element_requires(tag, name),
        !attrs.contains_key(name),
{
    lemma_tags();
    if tag == "path"@ {
        if attrs.contains_key("svgnote:tool"@) {
            self::line::lemma_line_missing(attrs, numerals, name);
        }
    } else if tag == "polyline"@ {
        self::polygon::lemma_polyline_missing(attrs, numerals, name);
    }
}

/// A tag that lacks one attribute that it requires, and that decodes once
/// the attribute is there, fails with that attribute reported as missing.
pub proof fn lemma_element_lacks(
    tag: Seq<char>,
    attrs: Map<Seq<char>, Seq<char>>,
    id: i32,
    numerals: Numerals,
    name: Seq<char>,
    value: Seq<char>,
)
    requires
        element_requires(tag, name),
        !attrs.contains_key(name),
        element_of(tag, attrs.insert(name, value), id, numerals) is Ok,
    ensures
        element_of(tag, attrs, id, numerals) == Err::<ElementModel, Failure>(
            Failure::MissingAttribute(name),
        ),
{
    lemma_names();
    lemma_tags();
    let full = attrs.insert(name, value);
    if tag == "path"@ {
        if name != "svgnote:tool"@ {
            assert(required(attrs, "svgnote:tool"@) == required(full, "svgnote:tool"@));
            self::line::lemma_line_lacks(attrs, numerals, name, value);
        }
    } else if tag == "polygon"@ {
        if name != "svgnote:tool"@ {
            assert(required(attrs, "svgnote:tool"@) == required(full, "svgnote:tool"@));
            lemma_ngon_lacks(attrs, numerals, name, value);
        }
    } else if tag == "polyline"@ {
        self::polygon::lemma_polyline_lacks(attrs, numerals, name, value);
    } else if tag == "ellipse"@ {
        lemma_ellipse_lacks(attrs, numerals, name, value);
    }
}

/// Two tables that read the pieces of the attribute values of a tag alike
/// decode the same element, or fail alike.
pub proof fn lemma_alike_element(
    a: Numerals,
    b: Numerals,
    tag: Seq<char>,
    attrs: Map<Seq<char>, Seq<char>>,
    id: i32,
)
    requires
        a.wf(),
        b.wf(),
        alike_on(a, b, attrs),
    ensures
        element_of(tag, attrs, id, a) == element_of(tag, attrs, id, b),
{
    lemma_alike_attributes(a, b, attrs);
    self::line::lemma_alike_line(a, b, attrs);
    self::polygon::lemma_alike_polyline(a, b, attrs);
    assert(ngon_of(attrs, a) == ngon_of(attrs, b)) by {
        assert(pair_of(attrs, a, "svgnote:position"@) == pair_of(attrs, b, "svgnote:position"@));
        assert(number_of(attrs, a, "stroke-width"@) == number_of(attrs, b, "stroke-width"@));
        assert(number_of(attrs, a, "svgnote:radius"@) == number_of(attrs, b, "svgnote:radius"@));
        assert(number_of(attrs, a, "svgnote:angle"@) == number_of(attrs, b, "svgnote:angle"@));
        assert(color_of(attrs, a, "fill"@, "fill-opacity"@) == color_of(
            attrs,
            b,
            "fill"@,
            "fill-opacity"@,
        ));
        assert(color_of(attrs, a, "stroke"@, "stroke-opacity"@) == color_of(
            attrs,
            b,
            "stroke"@,
            "stroke-opacity"@,
        ));
    }
    assert(ellipse_of(attrs, a) == ellipse_of(attrs, b)) by {
        assert(number_of(attrs, a, "cx"@) == number_of(attrs, b, "cx"@));
        assert(number_of(attrs, a, "cy"@) == number_of(attrs, b, "cy"@));
        assert(number_of(attrs, a, "stroke-width"@) == number_of(attrs, b, "stroke-width"@));
        assert(number_of(attrs, a, "rx"@) == number_of(attrs, b, "rx"@));
        assert(color_of(attrs, a, "fill"@, "fill-opacity"@) == color_of(
            attrs,
            b,
            "fill"@,
            "fill-opacity"@,
        ));
        assert(color_of(attrs, a, "stroke"@, "stroke-opacity"@) == color_of(
            attrs,
            b,
            "stroke"@,
            "stroke-opacity"@,
        ));
    }
}

/// Decoding the tag that encodes an element, under the identifier of the
/// element, gives the element back.
pub proof fn lemma_element_round_trip(element: ElementModel, numerals: Numerals)
    requires
        numerals.wf(),
        element_writable(element, numerals),
    ensures
        element_of(
            element_tag(element, numerals).name,
            element_tag(element, numerals).attributes,
            id_of(element),
            numerals,
        ) == Ok::<ElementModel, Failure>(element),
{
    lemma_names();
    reveal_strlit("path");
    reveal_strlit("polygon");
    reveal_strlit("polyline");
    reveal_strlit("ellipse");
    reveal_strlit("pen");
    reveal_strlit("ngon");
    match element {
        ElementModel::Line(line, _) => {
            lemma_line_round_trip(line, numerals);
        },
        ElementModel::Ngon(ngon, _) => {
            lemma_ngon_round_trip(ngon, numerals);
            assert("polygon"@.len() != "path"@.len());
        },
        ElementModel::Ellipse(ellipse, _) => {
            lemma_ellipse_round_trip(ellipse, numerals);
            assert("ellipse"@.len() != "path"@.len());
            assert("ellipse"@[0] != "polygon"@[0]);
            assert("ellipse"@.len() != "polyline"@.len());
        },
        ElementModel::Polyline(polyline, _) => {
            lemma_polyline_round_trip(polyline, numerals);
            assert("polyline"@.len() != "path"@.len());
            assert("polyline"@.len() != "polygon"@.len());
        },
    }
}

} // verus!
