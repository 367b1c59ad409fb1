use vstd::prelude::*;
use svg::node::element::tag::Type;
use svg::parser::Event as Token;

use crate::attributes::Attributes;
use crate::attributes::value_pieces;
use crate::text::texts;

verus! {

/// The three kinds of tag.
#[derive(Debug, Clone, Copy, PartialEq, Eq, Structural)]
pub enum TagKind {
    /// `<name ..>`
    Start,
    /// `</name>`
    End,
    /// `<name ../>`
    Empty,
}

/// One piece of a document, as the tokenizer hands it out. Only a tag
/// carries anything that decoding reads.
#[derive(Debug, Clone)]
pub enum Event {
    /// A piece that the tokenizer could not read.
    Error,
    /// A tag with its name, its kind and its attributes.
    Tag(String, TagKind, Attributes),
    /// Text between tags.
    Text,
    /// A comment.
    Comment,
    /// A declaration.
    Declaration,
    /// A processing instruction.
    Instruction,
}

/// An `Event` with the name of the tag as a sequence of characters and its
/// attributes as a map.
pub enum EventModel {
    Error,
    Tag(Seq<char>, TagKind, Map<Seq<char>, Seq<char>>),
    Text,
    Comment,
    Declaration,
    Instruction,
}

impl View for Event {
    type V = EventModel;

    open spec fn view(&self) -> EventModel {
        match self {
            Event::Error => EventModel::Error,
            Event::Tag(name, kind, attributes) => EventModel::Tag(name@, *kind, attributes@),
            Event::Text => EventModel::Text,
            Event::Comment => EventModel::Comment,
            Event::Declaration => EventModel::Declaration,
            Event::Instruction => EventModel::Instruction,
        }
    }
}

/// The views of a sequence of events.
pub open spec fn event_models(events: Seq<Event>) -> Seq<EventModel> {
    Seq::new(events.len(), |i: int| events[i]@)
}

/// The events that the tokenizer of the `svg` crate finds in a text, in
/// order.
pub uninterp spec fn svg_events(text: Seq<char>) -> Seq<EventModel>;

/// Runs the tokenizer of the `svg` crate (`svg::read`, which never fails
/// on a text, and the iterator it gives, to its end) and copies of each
/// event what decoding reads:
/// which variant it is and, of a tag, its name, its kind and its attributes.
/// The contract names the outcome and claims nothing else of it.
#[verifier::external_body]
fn tokenize(text: &str) -> (r: Vec<Event>)
    ensures
        event_models(r@) == svg_events(text@),
{
    svg::read(text).into_iter().flatten().map(|event| match event {
        Token::Error(_) => Event::Error,
        Token::Tag(n, k, a) => Event::Tag(n.to_owned(), match k {
            Type::Start => TagKind::Start,
            Type::End => TagKind::End,
            Type::Empty => TagKind::Empty,
        }, Attributes::from_pairs(a.into_iter().map(|(k, v)| (k, v.into())).collect())),
        Token::Text(_) => Event::Text,
        Token::Comment(_) => Event::Comment,
        Token::Declaration(_) => Event::Declaration,
        Token::Instruction(_) => Event::Instruction,
    }).collect()
}

/// A tag that opens an element: its name and its attributes.
#[derive(Debug, Clone)]
pub struct Tag {
    pub name: String,
    pub attributes: Attributes,
}

/// A `Tag` with its name as a sequence of characters and its attributes as
/// a map.
pub struct TagModel {
    pub name: Seq<char>,
    pub attributes: Map<Seq<char>, Seq<char>>,
}

impl View for Tag {
    type V = TagModel;

    open spec fn view(&self) -> TagModel {
        TagModel { name: self.name@, attributes: self.attributes@ }
    }
}

/// The views of a sequence of tags.
pub open spec fn tag_models(tags: Seq<Tag>) -> Seq<TagModel> {
    Seq::new(tags.len(), |i: int| tags[i]@)
}

/// The tags among the events that open an element, whether or not they
/// close it too, in order.
pub open spec fn opening_tags(events: Seq<EventModel>) -> Seq<TagModel>
    decreases events.len(),
{
    if events.len() == 0 {
        Seq::empty()
    } else {
        let before = opening_tags(events.drop_last());
        match events.last() {
            EventModel::Tag(name, kind, attributes) => if kind == TagKind::End {
                before
            } else {
                before.push(TagModel { name, attributes })
            },
            _ => before,
        }
    }
}

/// The pieces of the attribute values of the tags, tag after tag.
pub open spec fn tag_pieces(tags: Seq<Tag>) -> Seq<Seq<char>>
    decreases tags.len(),
{
    if tags.len() == 0 {
        Seq::empty()
    } else {
        tag_pieces(tags.drop_last()) + value_pieces(tags.last().attributes.pairs())
    }
}

/// Every text in the attribute values of the tags that could be a number,
/// tag after tag. A table that holds each of these that is a number, with
/// its scalar, holds all that decoding the tags reads.
pub fn number_texts(tags: &Vec<Tag>) -> (r: Vec<String>)
    ensures
        texts(r@) == tag_pieces(tags@),
{
    let mut out: Vec<String> = Vec::new();
    let mut i: usize = 0;
    assert(tags@.take(0) =~= Seq::<Tag>::empty());
    assert(texts(out@) =~= Seq::<Seq<char>>::empty());
    while i < tags.len()
        invariant
            i <= tags.len(),
            texts(out@) == tag_pieces(tags@.take(i as int)),
        decreases tags.len() - i,
    {
        let mut more = tags[i].attributes.number_texts();
        proof {
            let now = tags@.take(i + 1);
            assert(now.drop_last() =~= tags@.take(i as int));
            assert(now.last() == tags@[i as int]);
        }
        let ghost before = out@;
        let ghost added = more@;
        out.append(&mut more);
        assert(out@ =~= before + added);
        assert(texts(out@) =~= texts(before) + texts(added));
        i += 1;
    }
    assert(tags@.take(tags@.len() as int) =~= tags@);
    out
}

/// The opening tags of a document, in order. Closing tags, text, comments
/// and whatever the tokenizer could not read are left out.
pub fn read_tags(text: &str) -> (r: Vec<Tag>)
    ensures
        tag_models(r@) == opening_tags(svg_events(text@)),
{
    let events = tokenize(text);
    let ghost all = event_models(events@);
    let mut tags: Vec<Tag> = Vec::new();
    assert(all.take(0) =~= Seq::<EventModel>::empty());
    for event in it: events
        invariant
            event_models(it.seq()) == all,
            tag_models(tags@) == opening_tags(all.take(it.index())),
    {
        let ghost i = it.index();
        proof {
            assert(all.take(i + 1).drop_last() =~= all.take(i));
            assert(all.take(i + 1).last() == all[i]);
            assert(all[i] == event@);
        }
        match event {
            Event::Tag(name, kind, attributes) => {
                match kind {
                    TagKind::End => {},
                    _ => {
                        let ghost before = tags@;
                        tags.push(Tag { name, attributes });
                        assert(tag_models(tags@) =~= tag_models(before).push(
                            TagModel { name: name@, attributes: attributes@ },
                        ));
                    },
                }
            },
            _ => {},
        }
    }
    assert(all.take(all.len() as int) =~= all);
    tags
}

} // verus!
