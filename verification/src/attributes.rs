use vstd::prelude::*;

use crate::colors::Color;
use crate::colors::lemma_parse_opaque_color_text;
use crate::colors::opaque_color_text;
use crate::colors::parse_color;
use crate::DocumentError;
use crate::Failure;
use crate::numerals::alike;
use crate::numerals::lemma_alike;
use crate::numerals::lemma_read_written;
use crate::numerals::Numerals;
use crate::scalar::fraction_of;
use crate::scalar::lemma_channel_of_fraction;
use crate::scalar::lemma_fraction_exists;
use crate::scalar::Scalar;
use crate::text::count_text;
use crate::text::fields;
use crate::text::join;
use crate::text::lemma_fields_of_join;
use crate::text::lemma_parse_count_text;
use crate::text::parse_count;
use crate::text::pieces;
use crate::text::read_count;
use crate::text::split_fields;
use crate::text::split_pieces;
use crate::text::texts;

verus! {

/// The map that a list of name and value pairs stands for: a later pair
/// replaces an earlier one of the same name.
pub open spec fn map_of(pairs: Seq<(Seq<char>, Seq<char>)>) -> Map<Seq<char>, Seq<char>>
    decreases pairs.len(),
{
    if pairs.len() == 0 {
        Map::empty()
    } else {
        map_of(pairs.drop_last()).insert(pairs.last().0, pairs.last().1)
    }
}

/// The pairs of strings as pairs of character sequences.
pub open spec fn pair_texts(pairs: Seq<(String, String)>) -> Seq<(Seq<char>, Seq<char>)> {
    Seq::new(pairs.len(), |i: int| (pairs[i].0@, pairs[i].1@))
}

/// Whether a decoded value, or the error in its place, is what `s` says.
pub open spec fn same<T>(r: Result<T, DocumentError>, s: Result<T, Failure>) -> bool {
    match r {
        Ok(v) => s == Ok::<T, Failure>(v),
        Err(e) => s == Err::<T, Failure>(e@),
    }
}

/// The value of a required attribute.
pub open spec fn required(attrs: Map<Seq<char>, Seq<char>>, name: Seq<char>) -> Result<
    Seq<char>,
    Failure,
> {
    if attrs.contains_key(name) {
        Ok(attrs[name])
    } else {
        Err(Failure::MissingAttribute(name))
    }
}

/// The scalar that a required attribute writes.
pub open spec fn number_of(
    attrs: Map<Seq<char>, Seq<char>>,
    numerals: Numerals,
    name: Seq<char>,
) -> Result<Scalar, Failure> {
    match required(attrs, name) {
        Err(e) => Err(e),
        Ok(value) => match numerals.reading(value) {
            Some(x) => Ok(x),
            None => Err(Failure::InvalidAttribute(name, value)),
        },
    }
}

/// The count that a required attribute writes.
pub open spec fn count_of(attrs: Map<Seq<char>, Seq<char>>, name: Seq<char>) -> Result<
    u8,
    Failure,
> {
    match required(attrs, name) {
        Err(e) => Err(e),
        Ok(value) => match parse_count(value) {
            Some(n) => Ok(n),
            None => Err(Failure::InvalidAttribute(name, value)),
        },
    }
}

/// The two scalars that a required attribute writes with a comma between
/// them.
pub open spec fn pair_of(
    attrs: Map<Seq<char>, Seq<char>>,
    numerals: Numerals,
    name: Seq<char>,
) -> Result<(Scalar, Scalar), Failure> {
    match required(attrs, name) {
        Err(e) => Err(e),
        Ok(value) => {
            let parts = fields(value);
            if parts.len() == 2 && numerals.reading(parts[0]) is Some && numerals.reading(
                parts[1],
            ) is Some {
                Ok((numerals.reading(parts[0]).unwrap(), numerals.reading(parts[1]).unwrap()))
            } else {
                Err(Failure::InvalidAttribute(name, value))
            }
        },
    }
}

/// The opacity that an optional attribute writes. One that cannot be read
/// counts as absent.
pub open spec fn opacity_of(
    attrs: Map<Seq<char>, Seq<char>>,
    numerals: Numerals,
    name: Seq<char>,
) -> Option<Scalar> {
    if attrs.contains_key(name) {
        numerals.reading(attrs[name])
    } else {
        None
    }
}

/// The color that a required attribute writes, its alpha channel replaced
/// by the opacity of the attribute `opacity_name` where that one is present
/// and can be read.
pub open spec fn color_of(
    attrs: Map<Seq<char>, Seq<char>>,
    numerals: Numerals,
    name: Seq<char>,
    opacity_name: Seq<char>,
) -> Result<Color, Failure> {
    match required(attrs, name) {
        Err(e) => Err(e),
        Ok(value) => match parse_color(value) {
            None => Err(Failure::InvalidAttribute(name, value)),
            Some(c) => match opacity_of(attrs, numerals, opacity_name) {
                Some(x) => Ok(Color { a: x.channel(), ..c }),
                None => Ok(c),
            },
        },
    }
}

/// The pieces of the values of the pairs, pair after pair.
pub open spec fn value_pieces(pairs: Seq<(Seq<char>, Seq<char>)>) -> Seq<Seq<char>>
    decreases pairs.len(),
{
    if pairs.len() == 0 {
        Seq::empty()
    } else {
        value_pieces(pairs.drop_last()) + pieces(pairs.last().1)
    }
}

/// The names of the attributes, by their lengths and a few of their
/// characters: enough to tell any two of them apart.
pub proof fn lemma_names()
    ensures
        "stroke"@.len() == 6,
        "stroke"@[0] == 's',
        "stroke"@[1] == 't',
        "stroke-opacity"@.len() == 14,
        "stroke-opacity"@[0] == 's',
        "stroke-opacity"@[1] == 't',
        "stroke-opacity"@[7] == 'o',
        "stroke-opacity"@[8] == 'p',
        "fill"@.len() == 4,
        "fill"@[0] == 'f',
        "fill"@[1] == 'i',
        "fill-opacity"@.len() == 12,
        "fill-opacity"@[0] == 'f',
        "fill-opacity"@[1] == 'i',
        "fill-opacity"@[7] == 'a',
        "fill-opacity"@[8] == 'c',
        "stroke-width"@.len() == 12,
        "stroke-width"@[0] == 's',
        "stroke-width"@[1] == 't',
        "stroke-width"@[7] == 'w',
        "stroke-width"@[8] == 'i',
        "cx"@.len() == 2,
        "cx"@[0] == 'c',
        "cx"@[1] == 'x',
        "cy"@.len() == 2,
        "cy"@[0] == 'c',
        "cy"@[1] == 'y',
        "rx"@.len() == 2,
        "rx"@[0] == 'r',
        "rx"@[1] == 'x',
        "ry"@.len() == 2,
        "ry"@[0] == 'r',
        "ry"@[1] == 'y',
        "svgnote:width"@.len() == 13,
        "svgnote:width"@[0] == 's',
        "svgnote:width"@[1] == 'v',
        "svgnote:width"@[7] == ':',
        "svgnote:width"@[8] == 'w',
        "svgnote:points"@.len() == 14,
        "svgnote:points"@[0] == 's',
        "svgnote:points"@[1] == 'v',
        "svgnote:points"@[7] == ':',
        "svgnote:points"@[8] == 'p',
        "svgnote:tool"@.len() == 12,
        "svgnote:tool"@[0] == 's',
        "svgnote:tool"@[1] == 'v',
        "svgnote:tool"@[7] == ':',
        "svgnote:tool"@[8] == 't',
        "stroke-linecap"@.len() == 14,
        "stroke-linecap"@[0] == 's',
        "stroke-linecap"@[1] == 't',
        "stroke-linecap"@[7] == 'l',
        "stroke-linecap"@[8] == 'i',
        "stroke-linejoin"@.len() == 15,
        "stroke-linejoin"@[0] == 's',
        "stroke-linejoin"@[1] == 't',
        "stroke-linejoin"@[7] == 'l',
        "stroke-linejoin"@[8] == 'i',
        "points"@.len() == 6,
        "points"@[0] == 'p',
        "points"@[1] == 'o',
        "svgnote:position"@.len() == 16,
        "svgnote:position"@[0] == 's',
        "svgnote:position"@[1] == 'v',
        "svgnote:position"@[7] == ':',
        "svgnote:position"@[8] == 'p',
        "svgnote:angle"@.len() == 13,
        "svgnote:angle"@[0] == 's',
        "svgnote:angle"@[1] == 'v',
        "svgnote:angle"@[7] == ':',
        "svgnote:angle"@[8] == 'a',
        "svgnote:n"@.len() == 9,
        "svgnote:n"@[0] == 's',
        "svgnote:n"@[1] == 'v',
        "svgnote:n"@[7] == ':',
        "svgnote:n"@[8] == 'n',
        "svgnote:radius"@.len() == 14,
        "svgnote:radius"@[0] == 's',
        "svgnote:radius"@[1] == 'v',
        "svgnote:radius"@[7] == ':',
        "svgnote:radius"@[8] == 'r',
{
    reveal_strlit("stroke");
    reveal_strlit("stroke-opacity");
    reveal_strlit("fill");
    reveal_strlit("fill-opacity");
    reveal_strlit("stroke-width");
    reveal_strlit("cx");
    reveal_strlit("cy");
    reveal_strlit("rx");
    reveal_strlit("ry");
    reveal_strlit("svgnote:width");
    reveal_strlit("svgnote:points");
    reveal_strlit("svgnote:tool");
    reveal_strlit("stroke-linecap");
    reveal_strlit("stroke-linejoin");
    reveal_strlit("points");
    reveal_strlit("svgnote:position");
    reveal_strlit("svgnote:angle");
    reveal_strlit("svgnote:n");
    reveal_strlit("svgnote:radius");
}

/// A scalar is read back from an attribute that holds its text.
pub proof fn lemma_number_written(
    attrs: Map<Seq<char>, Seq<char>>,
    numerals: Numerals,
    name: Seq<char>,
    x: Scalar,
)
    requires
        numerals.wf(),
        numerals.has_value(x),
        attrs.contains_key(name),
        attrs[name] == numerals.written(x),
    ensures
        number_of(attrs, numerals, name) == Ok::<Scalar, Failure>(x),
{
    lemma_read_written(numerals, x);
}

/// A count is read back from an attribute that holds its decimal text.
pub proof fn lemma_count_written(attrs: Map<Seq<char>, Seq<char>>, name: Seq<char>, n: u8)
    requires
        attrs.contains_key(name),
        attrs[name] == count_text(n),
    ensures
        count_of(attrs, name) == Ok::<u8, Failure>(n),
{
    lemma_parse_count_text(n);
}

/// Two scalars are read back from an attribute that holds their texts with
/// a comma between them.
pub proof fn lemma_pair_written(
    attrs: Map<Seq<char>, Seq<char>>,
    numerals: Numerals,
    name: Seq<char>,
    x: Scalar,
    y: Scalar,
)
    requires
        numerals.wf(),
        numerals.has_value(x),
        numerals.has_value(y),
        attrs.contains_key(name),
        attrs[name] == join(seq![numerals.written(x), numerals.written(y)], ','),
    ensures
        pair_of(attrs, numerals, name) == Ok::<(Scalar, Scalar), Failure>((x, y)),
{
    lemma_read_written(numerals, x);
    lemma_read_written(numerals, y);
    let parts = seq![numerals.written(x), numerals.written(y)];
    lemma_fields_of_join(parts);
}

/// A color is read back from an attribute that holds its text without
/// alpha, beside an attribute that holds the text of its opacity.
pub proof fn lemma_color_written(
    attrs: Map<Seq<char>, Seq<char>>,
    numerals: Numerals,
    name: Seq<char>,
    opacity_name: Seq<char>,
    c: Color,
)
    requires
        numerals.wf(),
        numerals.has_value(fraction_of(c.a)),
        attrs.contains_key(name),
        attrs[name] == opaque_color_text(c),
        attrs.contains_key(opacity_name),
        attrs[opacity_name] == numerals.written(fraction_of(c.a)),
    ensures
        color_of(attrs, numerals, name, opacity_name) == Ok::<Color, Failure>(c),
{
    lemma_parse_opaque_color_text(c);
    lemma_read_written(numerals, fraction_of(c.a));
    lemma_fraction_exists(c.a);
    lemma_channel_of_fraction(fraction_of(c.a), c.a);
}

/// Whether two tables read the pieces of every value of the attributes
/// alike.
pub open spec fn alike_on(a: Numerals, b: Numerals, attrs: Map<Seq<char>, Seq<char>>) -> bool {
    forall|name: Seq<char>| attrs.contains_key(name) ==> alike(a, b, #[trigger] attrs[name])
}

/// Two tables that read the pieces of the values alike give the same
/// number, pair, opacity and color for every attribute.
pub proof fn lemma_alike_attributes(a: Numerals, b: Numerals, attrs: Map<Seq<char>, Seq<char>>)
    requires
        a.wf(),
        b.wf(),
        alike_on(a, b, attrs),
    ensures
        forall|name: Seq<char>|
            (#[trigger] number_of(attrs, a, name)) == number_of(attrs, b, name),
        forall|name: Seq<char>| (#[trigger] pair_of(attrs, a, name)) == pair_of(attrs, b, name),
        forall|name: Seq<char>|
            (#[trigger] opacity_of(attrs, a, name)) == opacity_of(attrs, b, name),
        forall|name: Seq<char>, opacity_name: Seq<char>|
            (#[trigger] color_of(attrs, a, name, opacity_name)) == color_of(
                attrs,
                b,
                name,
                opacity_name,
            ),
{
    assert forall|name: Seq<char>|
        (#[trigger] number_of(attrs, a, name)) == number_of(attrs, b, name) by {
        lemma_alike_attribute(a, b, attrs, name);
    }
    assert forall|name: Seq<char>|
        (#[trigger] pair_of(attrs, a, name)) == pair_of(attrs, b, name) by {
        lemma_alike_attribute(a, b, attrs, name);
    }
    assert forall|name: Seq<char>|
        (#[trigger] opacity_of(attrs, a, name)) == opacity_of(attrs, b, name) by {
        lemma_alike_attribute(a, b, attrs, name);
    }
    assert forall|name: Seq<char>, opacity_name: Seq<char>|
        (#[trigger] color_of(attrs, a, name, opacity_name)) == color_of(
            attrs,
            b,
            name,
            opacity_name,
        ) by {
        lemma_alike_attribute(a, b, attrs, opacity_name);
    }
}

proof fn lemma_alike_attribute(
    a: Numerals,
    b: Numerals,
    attrs: Map<Seq<char>, Seq<char>>,
    name: Seq<char>,
)
    requires
        a.wf(),
        b.wf(),
        alike_on(a, b, attrs),
    ensures
        number_of(attrs, a, name) == number_of(attrs, b, name),
        pair_of(attrs, a, name) == pair_of(attrs, b, name),
        opacity_of(attrs, a, name) == opacity_of(attrs, b, name),
{
    if attrs.contains_key(name) {
        let value = attrs[name];
        assert(alike(a, b, value));
        lemma_alike(a, b, value);
        let parts = fields(value);
        if parts.len() == 2 {
            assert(parts.contains(parts[0]));
            assert(parts.contains(parts[1]));
        }
    }
}

/// The value of an attribute is the value of one of the pairs, so its
/// pieces are among the pieces of the values of the pairs.
pub proof fn lemma_value_pieces(pairs: Seq<(Seq<char>, Seq<char>)>, name: Seq<char>)
    requires
        map_of(pairs).contains_key(name),
    ensures
        forall|t: Seq<char>|
            pieces(map_of(pairs)[name]).contains(t) ==> #[trigger] value_pieces(pairs).contains(t),
    decreases pairs.len(),
{
    if pairs.len() > 0 {
        let init = value_pieces(pairs.drop_last());
        let more = pieces(pairs.last().1);
        assert forall|t: Seq<char>| pieces(map_of(pairs)[name]).contains(t) implies #[trigger] value_pieces(
            pairs,
        ).contains(t) by {
            if pairs.last().0 == name {
                let k = choose|k: int| 0 <= k < more.len() && more[k] == t;
                assert((init + more)[init.len() + k] == t);
            } else {
                lemma_value_pieces(pairs.drop_last(), name);
                assert(init.contains(t));
                let k = choose|k: int| 0 <= k < init.len() && init[k] == t;
                assert((init + more)[k] == t);
            }
        }
    }
}

/// The attributes of a tag: a map from names to values.
#[derive(Debug, Clone)]
pub struct Attributes {
    entries: Vec<(String, String)>,
}

impl View for Attributes {
    type V = Map<Seq<char>, Seq<char>>;

    open spec fn view(&self) -> Map<Seq<char>, Seq<char>> {
        map_of(self.pairs())
    }
}

impl Attributes {
    /// The pairs in the order in which they were inserted.
    pub closed spec fn pairs(&self) -> Seq<(Seq<char>, Seq<char>)> {
        pair_texts(self.entries@)
    }

    /// No attributes.
    pub fn new() -> (r: Attributes)
        ensures
            r@ == Map::<Seq<char>, Seq<char>>::empty(),
            r.pairs().len() == 0,
    {
        Attributes { entries: Vec::new() }
    }

    /// The attributes that a list of pairs stands for.
    pub fn from_pairs(pairs: Vec<(String, String)>) -> (r: Attributes)
        ensures
            r.pairs() == pair_texts(pairs@),
    {
        Attributes { entries: pairs }
    }

    /// Sets the attribute `name` to `value`.
    pub fn insert(&mut self, name: &str, value: &str)
        ensures
            final(self)@ == old(self)@.insert(name@, value@),
            final(self).pairs() == old(self).pairs().push((name@, value@)),
    {
        self.entries.push((name.to_owned(), value.to_owned()));
        assert(self.pairs() =~= old(self).pairs().push((name@, value@)));
        assert(self.pairs().drop_last() =~= old(self).pairs());
    }

    /// The number of pairs that were inserted.
    pub fn len(&self) -> (r: usize)
        ensures
            r == self.pairs().len(),
    {
        self.entries.len()
    }

    /// The name of the pair at `index`.
    pub fn name_at(&self, index: usize) -> (r: &str)
        requires
            index < self.pairs().len(),
        ensures
            r@ == self.pairs()[index as int].0,
    {
        self.entries[index].0.as_str()
    }

    /// The value of the pair at `index`.
    pub fn value_at(&self, index: usize) -> (r: &str)
        requires
            index < self.pairs().len(),
        ensures
            r@ == self.pairs()[index as int].1,
    {
        self.entries[index].1.as_str()
    }

    /// Every text in the values of the attributes that could be a number:
    /// the pieces between commas and white space, pair after pair. Decoding
    /// reads no numeral but these.
    pub fn number_texts(&self) -> (r: Vec<String>)
        ensures
            texts(r@) == value_pieces(self.pairs()),
    {
        let mut out: Vec<String> = Vec::new();
        let mut i: usize = 0;
        assert(self.pairs().take(0) =~= Seq::<(Seq<char>, Seq<char>)>::empty());
        assert(texts(out@) =~= Seq::<Seq<char>>::empty());
        while i < self.entries.len()
            invariant
                i <= self.entries.len(),
                texts(out@) == value_pieces(self.pairs().take(i as int)),
            decreases self.entries.len() - i,
        {
            let mut more = split_pieces(self.entries[i].1.as_str());
            proof {
                let now = self.pairs().take(i + 1);
                assert(now.drop_last() =~= self.pairs().take(i as int));
                assert(now.last() == self.pairs()[i as int]);
            }
            let ghost before = out@;
            let ghost added = more@;
            out.append(&mut more);
            assert(out@ =~= before + added);
            assert(texts(out@) =~= texts(before) + texts(added));
            i += 1;
        }
        assert(self.pairs().take(self.pairs().len() as int) =~= self.pairs());
        out
    }

    /// The value of the attribute `name`, which has to be there.
    pub fn require(&self, name: &str) -> (r: Result<&str, DocumentError>)
        ensures
            match r {
                Ok(value) => required(self@, name@) == Ok::<Seq<char>, Failure>(value@),
                Err(e) => required(self@, name@) == Err::<Seq<char>, Failure>(e@),
            },
    {
        match self.get(name) {
            Some(value) => Ok(value),
            None => Err(DocumentError::MissingAttribute(name.to_owned())),
        }
    }

    /// The scalar that the attribute `name` writes.
    pub fn number(&self, name: &str, numerals: &Numerals) -> (r: Result<Scalar, DocumentError>)
        ensures
            same(r, number_of(self@, *numerals, name@)),
    {
        let value = self.require(name)?;
        match numerals.read(value) {
            Some(x) => Ok(x),
            None => Err(DocumentError::InvalidAttribute(name.to_owned(), value.to_owned())),
        }
    }

    /// The count that the attribute `name` writes.
    pub fn count(&self, name: &str) -> (r: Result<u8, DocumentError>)
        ensures
            same(r, count_of(self@, name@)),
    {
        let value = self.require(name)?;
        match read_count(value) {
            Some(n) => Ok(n),
            None => Err(DocumentError::InvalidAttribute(name.to_owned(), value.to_owned())),
        }
    }

    /// The two scalars that the attribute `name` writes.
    pub fn pair(&self, name: &str, numerals: &Numerals) -> (r: Result<
        (Scalar, Scalar),
        DocumentError,
    >)
        ensures
            same(r, pair_of(self@, *numerals, name@)),
    {
        let value = self.require(name)?;
        let parts = split_fields(value);
        assert(texts(parts@).len() == parts@.len());
        if parts.len() == 2 {
            assert(texts(parts@)[0] == parts@[0]@);
            assert(texts(parts@)[1] == parts@[1]@);
            let first = numerals.read(parts[0].as_str());
            let second = numerals.read(parts[1].as_str());
            if let (Some(x), Some(y)) = (first, second) {
                return Ok((x, y));
            }
        }
        Err(DocumentError::InvalidAttribute(name.to_owned(), value.to_owned()))
    }

    /// The color that the attribute `name` writes, with the opacity of the
    /// attribute `opacity_name` where that one can be read.
    pub fn color(&self, name: &str, opacity_name: &str, numerals: &Numerals) -> (r: Result<
        Color,
        DocumentError,
    >)
        ensures
            same(r, color_of(self@, *numerals, name@, opacity_name@)),
    {
        let value = self.require(name)?;
        let color = match Color::from_str(value) {
            Ok(c) => c,
            Err(_) => {
                return Err(DocumentError::InvalidAttribute(name.to_owned(), value.to_owned()));
            },
        };
        let opacity = match self.get(opacity_name) {
            Some(text) => numerals.read(text),
            None => None,
        };
        match opacity {
            Some(x) => Ok(color.with_opacity(x)),
            None => Ok(color),
        }
    }

    /// The value of the attribute `name`, if there is one.
    pub fn get(&self, name: &str) -> (r: Option<&str>)
        ensures
            match r {
                Some(value) => self@.contains_key(name@) && self@[name@] == value@,
                None => !self@.contains_key(name@),
            },
    {
        let key = name.to_owned();
        let mut i: usize = self.entries.len();
        assert(self.pairs().take(i as int) =~= self.pairs());
        while i > 0
            invariant
                i <= self.entries.len(),
                key@ == name@,
                self@.contains_key(name@) <==> map_of(self.pairs().take(i as int)).contains_key(
                    name@,
                ),
                self@.contains_key(name@) ==> self@[name@] == map_of(
                    self.pairs().take(i as int),
                )[name@],
            decreases i,
        {
            i -= 1;
            proof {
                let prefix = self.pairs().take(i + 1);
                assert(prefix.drop_last() =~= self.pairs().take(i as int));
                assert(prefix.last() == self.pairs()[i as int]);
            }
            if self.entries[i].0 == key {
                return Some(self.entries[i].1.as_str());
            }
        }
        None
    }
}

} // verus!
