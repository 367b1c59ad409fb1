//! Hand-drawn notes as vector graphics: pen strokes, regular polygons,
//! circles and polylines, with their encoding as the attributes of SVG tags
//! and the decoding of such tags.
//!
//! The library holds numbers as bit patterns (`scalar::Scalar`) and does no
//! floating-point arithmetic. Decimal texts stand for scalars through a
//! table that the caller fills (`numerals::Numerals`): `parser::number_texts`
//! names the texts that decoding will look up, and `Document::scalars` the
//! scalars that encoding will write.
//!
//! Reading a document: `parser::read_tags`, then `Document::decode`.
//! Writing one: `Document::encode`, then `composer::render`.

use vstd::prelude::*;
use vstd::std_specs::cmp::PartialEqSpec;

pub mod attributes;
pub mod colors;
pub mod composer;
pub mod elements;
pub mod numerals;
pub mod parser;
pub mod scalar;
pub mod text;

use crate::attributes::lemma_value_pieces;
use crate::attributes::value_pieces;
use crate::elements::Element;
use crate::elements::element_needs;
use crate::elements::element_of;
use crate::elements::element_tag;
use crate::elements::element_writable;
use crate::elements::ElementModel;
use crate::elements::id_of;
use crate::elements::lemma_alike_element;
use crate::elements::lemma_element_round_trip;
use crate::numerals::alike;
use crate::numerals::Numerals;
use crate::parser::Tag;
use crate::parser::tag_models;
use crate::parser::tag_pieces;
use crate::parser::TagModel;
use crate::scalar::Scalar;
use crate::text::pieces;
use crate::text::push_text;

verus! {

/// Why a document could not be decoded.
#[derive(Debug, Clone, PartialEq, Eq)]
pub enum DocumentError {
    /// An attribute, by name, whose value could not be read; the value
    /// follows.
    InvalidAttribute(String, String),
    /// A required attribute, by name, that the tag does not have.
    MissingAttribute(String),
    /// A token of a point list that is not a point.
    InvalidPoint(String),
    /// An event that is not the opening tag of a known shape.
    UnknownEvent,
}

/// A `DocumentError` with its strings as sequences of characters.
pub enum Failure {
    InvalidAttribute(Seq<char>, Seq<char>),
    MissingAttribute(Seq<char>),
    InvalidPoint(Seq<char>),
    UnknownEvent,
}

impl View for DocumentError {
    type V = Failure;

    open spec fn view(&self) -> Failure {
        match self {
            DocumentError::InvalidAttribute(name, value) => Failure::InvalidAttribute(
                name@,
                value@,
            ),
            DocumentError::MissingAttribute(name) => Failure::MissingAttribute(name@),
            DocumentError::InvalidPoint(token) => Failure::InvalidPoint(token@),
            DocumentError::UnknownEvent => Failure::UnknownEvent,
        }
    }
}

/// The message of an error.
pub open spec fn message(failure: Failure) -> Seq<char> {
    match failure {
        Failure::InvalidAttribute(name, value) => "Invalid "@ + name + ": `"@ + value + "`"@,
        Failure::MissingAttribute(name) => "Missing "@ + name,
        Failure::InvalidPoint(token) => "Invalid Point: `"@ + token + "`"@,
        Failure::UnknownEvent => "Unknown Event"@,
    }
}

impl DocumentError {
    /// The message of the error, for a reader.
    pub fn to_string(&self) -> (r: String)
        ensures
            r@ == message(self@),
    {
        let mut out = String::new();
        match self {
            DocumentError::InvalidAttribute(name, value) => {
                push_text(&mut out, "Invalid ");
                push_text(&mut out, name.as_str());
                push_text(&mut out, ": `");
                push_text(&mut out, value.as_str());
                push_text(&mut out, "`");
            },
            DocumentError::MissingAttribute(name) => {
                push_text(&mut out, "Missing ");
                push_text(&mut out, name.as_str());
            },
            DocumentError::InvalidPoint(token) => {
                push_text(&mut out, "Invalid Point: `");
                push_text(&mut out, token.as_str());
                push_text(&mut out, "`");
            },
            DocumentError::UnknownEvent => {
                push_text(&mut out, "Unknown Event");
            },
        }
        assert(out@ =~= message(self@));
        out
    }
}

/// Whether two slices have the same length and equal elements at every
/// index.
pub fn elems_eq<T: PartialEq>(a: &[T], b: &[T]) -> (r: bool)
    ensures
        T::obeys_eq_spec() ==> r == (a@.len() == b@.len() && forall|i: int|
            0 <= i < a@.len() ==> (#[trigger] a@[i]).eq_spec(&b@[i])),
{
    if a.len() != b.len() {
        return false;
    }
    let mut i: usize = 0;
    while i < a.len()
        invariant
            i <= a.len(),
            a.len() == b.len(),
            T::obeys_eq_spec() ==> forall|j: int|
                0 <= j < i ==> (#[trigger] a@[j]).eq_spec(&b@[j]),
        decreases a.len() - i,
    {
        if !(a[i] == b[i]) {
            return false;
        }
        i += 1;
    }
    true
}

/// A document: its elements in drawing order.
#[derive(Debug, Clone)]
pub struct Document {
    pub elements: Vec<Element>,
}

/// The views of a sequence of elements.
pub open spec fn element_models(elements: Seq<Element>) -> Seq<ElementModel> {
    Seq::new(elements.len(), |i: int| elements[i]@)
}

impl View for Document {
    type V = Seq<ElementModel>;

    open spec fn view(&self) -> Seq<ElementModel> {
        element_models(self.elements@)
    }
}

impl PartialEq for Document {
    fn eq(&self, other: &Self) -> (r: bool) {
        let same = elems_eq(self.elements.as_slice(), other.elements.as_slice());
        proof {
            assert(self@.len() == self.elements@.len());
            assert(other@.len() == other.elements@.len());
            if same {
                assert forall|i: int| 0 <= i < self@.len() implies self@[i] == other@[i] by {
                    assert(self.elements@[i].eq_spec(&other.elements@[i]));
                }
                assert(self@ =~= other@);
            }
            if self@ == other@ {
                assert forall|i: int| 0 <= i < self.elements@.len() implies (
                #[trigger] self.elements@[i]).eq_spec(&other.elements@[i]) by {
                    assert(self@[i] == other@[i]);
                    assert(self@[i] == self.elements@[i]@);
                    assert(other@[i] == other.elements@[i]@);
                }
            }
        }
        same
    }
}

impl vstd::std_specs::cmp::PartialEqSpecImpl for Document {
    open spec fn obeys_eq_spec() -> bool {
        true
    }

    open spec fn eq_spec(&self, other: &Self) -> bool {
        self@ == other@
    }
}

/// The elements that a sequence of opening tags writes, or the first error
/// among them.
///
/// The tags are numbered from 2 on, and an element has the number of its
/// tag as its identifier. A tag that is no known shape gives no element
/// and is no error.
pub open spec fn document_of(tags: Seq<TagModel>, numerals: Numerals) -> Result<
    Seq<ElementModel>,
    Failure,
>
    decreases tags.len(),
{
    if tags.len() == 0 {
        Ok(Seq::empty())
    } else {
        match document_of(tags.drop_last(), numerals) {
            Err(e) => Err(e),
            Ok(elements) => match element_of(
                tags.last().name,
                tags.last().attributes,
                (tags.len() + 1) as i32,
                numerals,
            ) {
                Ok(element) => Ok(elements.push(element)),
                Err(Failure::UnknownEvent) => Ok(elements),
                Err(e) => Err(e),
            },
        }
    }
}

/// Whether a tag is no known shape.
pub open spec fn unknown_tag(tag: TagModel) -> bool {
    tag.name != "path"@ && tag.name != "polygon"@ && tag.name != "polyline"@ && tag.name
        != "ellipse"@
}

/// Whether encoding the elements writes the scalar `x`.
pub open spec fn document_needs(elements: Seq<ElementModel>, x: Scalar) -> bool {
    exists|i: int| 0 <= i < elements.len() && element_needs(#[trigger] elements[i], x)
}

/// Whether the table has a text for every scalar that encoding the
/// elements writes.
pub open spec fn document_writable(elements: Seq<ElementModel>, numerals: Numerals) -> bool {
    forall|i: int| 0 <= i < elements.len() ==> element_writable(#[trigger] elements[i], numerals)
}

/// The tags that encode the elements, in order.
pub open spec fn document_tags(elements: Seq<ElementModel>, numerals: Numerals) -> Seq<TagModel> {
    Seq::new(elements.len(), |i: int| element_tag(elements[i], numerals))
}

impl Document {
    /// The scalars that encoding the document writes.
    pub fn scalars(&self) -> (r: Vec<Scalar>)
        ensures
            forall|x: Scalar| document_needs(self@, x) <==> r@.contains(x),
    {
        let mut out: Vec<Scalar> = Vec::new();
        let mut i: usize = 0;
        while i < self.elements.len()
            invariant
                i <= self.elements.len(),
                forall|x: Scalar|
                    out@.contains(x) <==> exists|j: int|
                        0 <= j < i && element_needs(#[trigger] self@[j], x),
            decreases self.elements.len() - i,
        {
            let mut more = self.elements[i].scalars();
            let ghost before = out@;
            let ghost added = more@;
            out.append(&mut more);
            proof {
                assert(out@ =~= before + added);
                assert forall|x: Scalar| out@.contains(x) <==> exists|j: int|
                    0 <= j < i + 1 && element_needs(#[trigger] self@[j], x) by {
                    if out@.contains(x) {
                        let k = choose|k: int| 0 <= k < out@.len() && out@[k] == x;
                        if k < before.len() {
                            assert(before[k] == x);
                            assert(before.contains(x));
                        } else {
                            assert(added[k - before.len()] == x);
                            assert(added.contains(x));
                            assert(element_needs(self@[i as int], x));
                        }
                    }
                    if exists|j: int| 0 <= j < i + 1 && element_needs(#[trigger] self@[j], x) {
                        let j = choose|j: int|
                            0 <= j < i + 1 && element_needs(#[trigger] self@[j], x);
                        if j < i {
                            assert(before.contains(x));
                            let k = choose|k: int| 0 <= k < before.len() && before[k] == x;
                            assert(out@[k] == x);
                        } else {
                            assert(added.contains(x));
                            let k = choose|k: int| 0 <= k < added.len() && added[k] == x;
                            assert(out@[before.len() + k] == x);
                        }
                    }
                }
            }
            i += 1;
        }
        out
    }

    /// The tags that encode the elements of the document, in order, if the
    /// table has a text for every scalar that they write.
    pub fn encode(&self, numerals: &Numerals) -> (r: Option<Vec<Tag>>)
        ensures
            match r {
                Some(tags) => document_writable(self@, *numerals) && tag_models(tags@)
                    == document_tags(self@, *numerals),
                None => !document_writable(self@, *numerals),
            },
    {
        let mut tags: Vec<Tag> = Vec::new();
        let mut i: usize = 0;
        while i < self.elements.len()
            invariant
                i <= self.elements.len(),
                tags@.len() == i,
                forall|j: int| 0 <= j < i ==> element_writable(#[trigger] self@[j], *numerals),
                forall|j: int|
                    0 <= j < i ==> (#[trigger] tags@[j])@ == element_tag(self@[j], *numerals),
            decreases self.elements.len() - i,
        {
            match self.elements[i].encode(numerals) {
                Some(tag) => tags.push(tag),
                None => {
                    assert(!element_writable(self@[i as int], *numerals));
                    return None;
                },
            }
            i += 1;
        }
        assert(tag_models(tags@) =~= document_tags(self@, *numerals));
        Some(tags)
    }

    /// Decodes the opening tags of a document. The first tag that is a
    /// known shape and cannot be decoded ends the work with its error.
    pub fn decode(tags: &Vec<Tag>, numerals: &Numerals) -> (r: Result<Document, DocumentError>)
        requires
            tags.len() < i32::MAX,
        ensures
            match r {
                Ok(document) => document_of(tag_models(tags@), *numerals) == Ok::<
                    Seq<ElementModel>,
                    Failure,
                >(document@),
                Err(e) => document_of(tag_models(tags@), *numerals) == Err::<
                    Seq<ElementModel>,
                    Failure,
                >(e@),
            },
    {
        let ghost all = tag_models(tags@);
        let mut elements: Vec<Element> = Vec::new();
        let mut id: i32 = 1;
        let mut i: usize = 0;
        assert(all.take(0) =~= Seq::<TagModel>::empty());
        assert(element_models(elements@) =~= Seq::<ElementModel>::empty());
        while i < tags.len()
            invariant
                i <= tags.len() < i32::MAX,
                id == i + 1,
                all == tag_models(tags@),
                document_of(all.take(i as int), *numerals) == Ok::<Seq<ElementModel>, Failure>(
                    element_models(elements@),
                ),
            decreases tags.len() - i,
        {
            id += 1;
            proof {
                assert(all.take(i + 1).drop_last() =~= all.take(i as int));
                assert(all.take(i + 1).last() == tags@[i as int]@);
            }
            match Element::decode(tags[i].name.as_str(), &tags[i].attributes, id, numerals) {
                Ok(element) => {
                    let ghost before = elements@;
                    elements.push(element);
                    assert(element_models(elements@) =~= element_models(before).push(element@));
                },
                Err(DocumentError::UnknownEvent) => {},
                Err(e) => {
                    proof {
                        assert(document_of(all.take(i + 1), *numerals) == Err::<
                            Seq<ElementModel>,
                            Failure,
                        >(e@));
                        lemma_document_fails(all, *numerals, i + 1);
                    }
                    return Err(e);
                },
            }
            i += 1;
        }
        assert(all.take(all.len() as int) =~= all);
        Ok(Document { elements })
    }
}

/// Once a beginning of the tags has failed, all of them fail in the same
/// way.
pub proof fn lemma_document_fails(tags: Seq<TagModel>, numerals: Numerals, n: int)
    requires
        0 <= n <= tags.len(),
        document_of(tags.take(n), numerals) is Err,
    ensures
        document_of(tags, numerals) == document_of(tags.take(n), numerals),
    decreases tags.len() - n,
{
    if n == tags.len() {
        assert(tags.take(n) =~= tags);
    } else {
        assert(tags.drop_last().take(n) =~= tags.take(n));
        lemma_document_fails(tags.drop_last(), numerals, n);
    }
}

/// Tags that are no known shape decode to a document without elements.
pub proof fn lemma_unknown_tags(tags: Seq<TagModel>, numerals: Numerals)
    requires
        forall|i: int| 0 <= i < tags.len() ==> unknown_tag(#[trigger] tags[i]),
    ensures
        document_of(tags, numerals) == Ok::<Seq<ElementModel>, Failure>(Seq::empty()),
    decreases tags.len(),
{
    if tags.len() > 0 {
        lemma_unknown_tags(tags.drop_last(), numerals);
        assert(unknown_tag(tags.last()));
    }
}

/// Decoding does not tell apart two tables that read alike every text that
/// `number_texts` gives for the tags: a table that holds each of those
/// texts that is a number holds all that decoding reads.
pub proof fn lemma_number_texts_suffice(tags: Seq<Tag>, a: Numerals, b: Numerals)
    requires
        a.wf(),
        b.wf(),
        forall|t: Seq<char>| #[trigger] tag_pieces(tags).contains(t) ==> a.reading(t) == b.reading(t),
    ensures
        document_of(tag_models(tags), a) == document_of(tag_models(tags), b),
    decreases tags.len(),
{
    if tags.len() > 0 {
        let init = tags.drop_last();
        let last = tags.last();
        let before = tag_pieces(init);
        let more = value_pieces(last.attributes.pairs());
        assert(tag_pieces(tags) == before + more);
        assert forall|t: Seq<char>| #[trigger] before.contains(t) implies a.reading(t)
            == b.reading(t) by {
            let k = choose|k: int| 0 <= k < before.len() && before[k] == t;
            assert((before + more)[k] == t);
            assert(tag_pieces(tags).contains(t));
        }
        lemma_number_texts_suffice(init, a, b);
        assert(tag_models(tags).drop_last() =~= tag_models(init));
        assert(tag_models(tags).last() == last@);
        let attrs = last@.attributes;
        assert forall|name: Seq<char>| attrs.contains_key(name) implies alike(
            a,
            b,
            #[trigger] attrs[name],
        ) by {
            lemma_value_pieces(last.attributes.pairs(), name);
            assert forall|t: Seq<char>| #[trigger] pieces(attrs[name]).contains(t) implies a.reading(
                t,
            ) == b.reading(t) by {
                assert(more.contains(t));
                let k = choose|k: int| 0 <= k < more.len() && more[k] == t;
                assert((before + more)[before.len() + k] == t);
                assert(tag_pieces(tags).contains(t));
            }
        }
        lemma_alike_element(a, b, last@.name, attrs, (tags.len() + 1) as i32);
    }
}

/// A table that has a text for every scalar that `scalars` gives for a
/// document can encode the document.
pub proof fn lemma_scalars_suffice(elements: Seq<ElementModel>, numerals: Numerals)
    requires
        forall|x: Scalar| #[trigger] document_needs(elements, x) ==> numerals.has_value(x),
    ensures
        document_writable(elements, numerals),
{
    assert forall|i: int| 0 <= i < elements.len() implies element_writable(
        #[trigger] elements[i],
        numerals,
    ) by {
        assert forall|x: Scalar| element_needs(elements[i], x) implies numerals.has_value(x) by {
            assert(document_needs(elements, x));
        }
        match elements[i] {
            ElementModel::Line(line, _) => {
                assert forall|x: Scalar| #[trigger]
                    crate::elements::line::line_needs(line, x) implies numerals.has_value(x) by {
                    assert(element_needs(elements[i], x));
                }
            },
            ElementModel::Ngon(ngon, _) => {
                assert forall|x: Scalar| #[trigger]
                    crate::elements::ngon::ngon_needs(ngon, x) implies numerals.has_value(x) by {
                    assert(element_needs(elements[i], x));
                }
            },
            ElementModel::Ellipse(ellipse, _) => {
                assert forall|x: Scalar| #[trigger]
                    crate::elements::ellipse::ellipse_needs(ellipse, x) implies numerals.has_value(x) by {
                    assert(element_needs(elements[i], x));
                }
            },
            ElementModel::Polyline(polyline, _) => {
                assert forall|x: Scalar| #[trigger]
                    crate::elements::polygon::polyline_needs(polyline, x) implies numerals.has_value(
                    x,
                ) by {
                    assert(element_needs(elements[i], x));
                }
            },
        }
    }
}

/// Decoding the tags that encode the elements of a document gives the
/// elements back, where each element has the number of its tag as its
/// identifier. Tags that are no known shape may come first, as the root
/// tag of a written document does; they take numbers too.
pub proof fn lemma_document_round_trip(
    elements: Seq<ElementModel>,
    numerals: Numerals,
    before: Seq<TagModel>,
)
    requires
        numerals.wf(),
        document_writable(elements, numerals),
        forall|i: int| 0 <= i < before.len() ==> unknown_tag(#[trigger] before[i]),
        forall|i: int|
            0 <= i < elements.len() ==> id_of(#[trigger] elements[i]) == before.len() + i + 2,
    ensures
        document_of(before + document_tags(elements, numerals), numerals) == Ok::<
            Seq<ElementModel>,
            Failure,
        >(elements),
    decreases elements.len(),
{
    let tags = before + document_tags(elements, numerals);
    if elements.len() == 0 {
        assert(tags =~= before);
        lemma_unknown_tags(before, numerals);
        assert(elements =~= Seq::<ElementModel>::empty());
    } else {
        let init = elements.drop_last();
        lemma_document_round_trip(init, numerals, before);
        assert(tags.drop_last() =~= before + document_tags(init, numerals));
        assert(tags.last() == element_tag(elements.last(), numerals));
        assert(element_writable(elements.last(), numerals));
        lemma_element_round_trip(elements.last(), numerals);
        assert(id_of(elements.last()) == tags.len() + 1);
        assert(init.push(elements.last()) =~= elements);
    }
}

} // verus!
