use vstd::prelude::*;
use vstd::std_specs::cmp::PartialEqSpecImpl;

use crate::attributes::alike_on;
use crate::attributes::Attributes;
use crate::attributes::color_of;
use crate::attributes::lemma_alike_attributes;
use crate::attributes::lemma_color_written;
use crate::attributes::lemma_names;
use crate::attributes::lemma_number_written;
use crate::attributes::number_of;
use crate::attributes::required;
use crate::colors::Color;
use crate::colors::opaque_color_text;
use crate::DocumentError;
use crate::elems_eq;
use crate::Failure;
use crate::numerals::lemma_alike;
use crate::numerals::lemma_read_written;
use crate::numerals::Numerals;
use crate::scalar::fraction_of;
use crate::scalar::Scalar;
use crate::text::fields;
use crate::text::join;
use crate::text::lemma_fields_of_join;
use crate::text::lemma_join_space_free;
use crate::text::lemma_tokens_of_join;
use crate::text::push_text;
use crate::text::space_free;
use crate::text::split_fields;
use crate::text::split_tokens;
use crate::text::texts;
use crate::text::tokens;
use super::FromAttributes;

verus! {

/// One corner of a polyline: x and y.
#[derive(Debug, Clone, Copy)]
pub struct PolylinePoint(pub Scalar, pub Scalar);

impl PartialEq for PolylinePoint {
    fn eq(&self, other: &Self) -> (r: bool) {
        self.0 == other.0 && self.1 == other.1
    }
}

impl PartialEqSpecImpl for PolylinePoint {
    open spec fn obeys_eq_spec() -> bool {
        true
    }

    open spec fn eq_spec(&self, other: &Self) -> bool {
        self.0 == other.0 && self.1 == other.1
    }
}

/// An open chain of straight segments.
#[derive(Debug, Clone)]
pub struct Polyline {
    pub stroke: Color,
    pub fill: Color,
    pub width: Scalar,
    pub points: Vec<PolylinePoint>,
}

/// A `Polyline` with its points as a sequence.
pub struct PolylineModel {
    pub stroke: Color,
    pub fill: Color,
    pub width: Scalar,
    pub points: Seq<PolylinePoint>,
}

impl View for Polyline {
    type V = PolylineModel;

    open spec fn view(&self) -> PolylineModel {
        PolylineModel {
            stroke: self.stroke,
            fill: self.fill,
            width: self.width,
            points: self.points@,
        }
    }
}

impl PartialEq for Polyline {
    fn eq(&self, other: &Self) -> (r: bool) {
        let same = elems_eq(self.points.as_slice(), other.points.as_slice());
        proof {
            if same {
                assert(self.points@ =~= other.points@);
            }
            if self.points@ == other.points@ {
                assert(same);
            }
        }
        self.stroke == other.stroke && self.fill == other.fill && self.width == other.width && same
    }
}

impl PartialEqSpecImpl for Polyline {
    open spec fn obeys_eq_spec() -> bool {
        true
    }

    open spec fn eq_spec(&self, other: &Self) -> bool {
        self@ == other@
    }
}

/// The corner that a token writes: two scalars with a comma between them.
pub open spec fn corner_of(token: Seq<char>, numerals: Numerals) -> Option<PolylinePoint> {
    let parts = fields(token);
    if parts.len() == 2 && numerals.reading(parts[0]) is Some && numerals.reading(parts[1]) is Some {
        Some(PolylinePoint(numerals.reading(parts[0]).unwrap(), numerals.reading(parts[1]).unwrap()))
    } else {
        None
    }
}

/// The corners that a list of tokens writes, or the first token that is not
/// a corner.
pub open spec fn corners_of(list: Seq<Seq<char>>, numerals: Numerals) -> Result<
    Seq<PolylinePoint>,
    Failure,
>
    decreases list.len(),
{
    if list.len() == 0 {
        Ok(Seq::empty())
    } else {
        match corners_of(list.drop_last(), numerals) {
            Err(e) => Err(e),
            Ok(points) => match corner_of(list.last(), numerals) {
                Some(p) => Ok(points.push(p)),
                None => Err(Failure::InvalidPoint(list.last())),
            },
        }
    }
}

/// The polyline that the attributes of a `polyline` tag write.
pub open spec fn polyline_of(attrs: Map<Seq<char>, Seq<char>>, numerals: Numerals) -> Result<
    PolylineModel,
    Failure,
> {
    match color_of(attrs, numerals, "stroke"@, "stroke-opacity"@) {
        Err(e) => Err(e),
        Ok(stroke) => match color_of(attrs, numerals, "fill"@, "fill-opacity"@) {
            Err(e) => Err(e),
            Ok(fill) => match required(attrs, "points"@) {
                Err(e) => Err(e),
                Ok(list) => match corners_of(tokens(list), numerals) {
                    Err(e) => Err(e),
                    Ok(points) => match number_of(attrs, numerals, "stroke-width"@) {
                        Err(e) => Err(e),
                        Ok(width) => Ok(PolylineModel { stroke, fill, width, points }),
                    },
                },
            },
        },
    }
}

/// Whether `x` is one of the two scalars of `p`.
pub open spec fn corner_holds(p: PolylinePoint, x: Scalar) -> bool {
    p.0 == x || p.1 == x
}

/// Whether the table has a text for both scalars of `p`.
pub open spec fn corner_writable(p: PolylinePoint, numerals: Numerals) -> bool {
    numerals.has_value(p.0) && numerals.has_value(p.1)
}

/// Whether encoding the polyline writes the scalar `x`: its width, the
/// opacities of its two colors, and the scalars of its corners.
pub open spec fn polyline_needs(polyline: PolylineModel, x: Scalar) -> bool {
    ||| x == fraction_of(polyline.stroke.a)
    ||| x == fraction_of(polyline.fill.a)
    ||| x == polyline.width
    ||| exists|i: int|
        0 <= i < polyline.points.len() && corner_holds(#[trigger] polyline.points[i], x)
}

/// Whether the table has a text for every scalar that encoding the
/// polyline writes.
pub open spec fn polyline_writable(polyline: PolylineModel, numerals: Numerals) -> bool {
    forall|x: Scalar| #[trigger] polyline_needs(polyline, x) ==> numerals.has_value(x)
}

/// The text of a corner: its two scalars with a comma between them.
pub open spec fn corner_text(p: PolylinePoint, numerals: Numerals) -> Seq<char> {
    join(seq![numerals.written(p.0), numerals.written(p.1)], ',')
}

/// The texts of a sequence of corners.
pub open spec fn corner_texts(points: Seq<PolylinePoint>, numerals: Numerals) -> Seq<Seq<char>> {
    Seq::new(points.len(), |i: int| corner_text(points[i], numerals))
}

/// The attributes that encode a polyline.
pub open spec fn polyline_attributes(polyline: PolylineModel, numerals: Numerals) -> Map<
    Seq<char>,
    Seq<char>,
> {
    Map::<Seq<char>, Seq<char>>::empty().insert(
        "stroke"@,
        opaque_color_text(polyline.stroke),
    ).insert("fill"@, opaque_color_text(polyline.fill)).insert(
        "stroke-opacity"@,
        numerals.written(fraction_of(polyline.stroke.a)),
    ).insert("fill-opacity"@, numerals.written(fraction_of(polyline.fill.a))).insert(
        "stroke-width"@,
        numerals.written(polyline.width),
    ).insert("points"@, join(corner_texts(polyline.points, numerals), ' ')).insert(
        "stroke-linecap"@,
        "round"@,
    ).insert("stroke-linejoin"@, "round"@)
}

/// Writes one corner of a polyline, if the table has a text for both of
/// its scalars.
pub fn write_corner(p: &PolylinePoint, numerals: &Numerals) -> (r: Option<String>)
    ensures
        match r {
            Some(t) => t@ == corner_text(*p, *numerals) && corner_writable(*p, *numerals),
            None => !corner_writable(*p, *numerals),
        },
{
    let x = numerals.write(p.0)?;
    let y = numerals.write(p.1)?;
    let mut out = x;
    out.push(',');
    push_text(&mut out, y.as_str());
    proof {
        let parts = seq![numerals.written(p.0), numerals.written(p.1)];
        reveal_with_fuel(join, 3);
        assert(parts.drop_last() =~= seq![parts[0]]);
        assert(out@ =~= join(parts, ','));
    }
    Some(out)
}

/// Writes the corners of a polyline with a space between neighbours, if
/// the table has a text for each of their scalars.
pub fn write_corners(points: &Vec<PolylinePoint>, numerals: &Numerals) -> (r: Option<String>)
    ensures
        match r {
            Some(t) => t@ == join(corner_texts(points@, *numerals), ' ') && forall|i: int|
                0 <= i < points@.len() ==> corner_writable(#[trigger] points@[i], *numerals),
            None => exists|i: int|
                0 <= i < points@.len() && !corner_writable(#[trigger] points@[i], *numerals),
        },
{
    let mut out = String::new();
    let mut i: usize = 0;
    assert(corner_texts(points@.take(0), *numerals) =~= Seq::<Seq<char>>::empty());
    while i < points.len()
        invariant
            i <= points.len(),
            out@ == join(corner_texts(points@.take(i as int), *numerals), ' '),
            forall|j: int| 0 <= j < i ==> corner_writable(#[trigger] points@[j], *numerals),
        decreases points.len() - i,
    {
        let p = &points[i];
        let t = match write_corner(p, numerals) {
            Some(t) => t,
            None => {
                assert(!corner_writable(points@[i as int], *numerals));
                return None;
            },
        };
        if i > 0 {
            out.push(' ');
        }
        push_text(&mut out, t.as_str());
        proof {
            let now = corner_texts(points@.take(i + 1), *numerals);
            let before = corner_texts(points@.take(i as int), *numerals);
            assert(now.drop_last() =~= before);
            assert(now.last() == t@);
            if i == 0 {
                assert(out@ =~= t@);
            }
        }
        i += 1;
    }
    assert(points@.take(points@.len() as int) =~= points@);
    Some(out)
}

/// The text of a corner is one token, and is read back as the corner.
pub proof fn lemma_corner_written(p: PolylinePoint, numerals: Numerals)
    requires
        numerals.wf(),
        corner_writable(p, numerals),
    ensures
        corner_text(p, numerals).len() >= 1,
        space_free(corner_text(p, numerals)),
        corner_of(corner_text(p, numerals), numerals) == Some(p),
{
    lemma_read_written(numerals, p.0);
    lemma_read_written(numerals, p.1);
    let parts = seq![numerals.written(p.0), numerals.written(p.1)];
    lemma_fields_of_join(parts);
    lemma_join_space_free(parts, ',');
}

/// The texts of corners are read back as the corners.
pub proof fn lemma_corners_written(points: Seq<PolylinePoint>, numerals: Numerals)
    requires
        numerals.wf(),
        forall|i: int| 0 <= i < points.len() ==> corner_writable(#[trigger] points[i], numerals),
    ensures
        corners_of(corner_texts(points, numerals), numerals) == Ok::<Seq<PolylinePoint>, Failure>(
            points,
        ),
        corners_of(tokens(join(corner_texts(points, numerals), ' ')), numerals) == Ok::<
            Seq<PolylinePoint>,
            Failure,
        >(points),
    decreases points.len(),
{
    let list = corner_texts(points, numerals);
    assert forall|i: int| 0 <= i < list.len() implies (#[trigger] list[i]).len() >= 1
        && space_free(list[i]) by {
        lemma_corner_written(points[i], numerals);
    }
    lemma_tokens_of_join(list);
    if points.len() == 0 {
        assert(points =~= Seq::<PolylinePoint>::empty());
    } else {
        lemma_corners_written(points.drop_last(), numerals);
        assert(list.drop_last() =~= corner_texts(points.drop_last(), numerals));
        lemma_corner_written(points.last(), numerals);
        assert(points.drop_last().push(points.last()) =~= points);
    }
}

/// Decoding the attributes that encode a polyline gives the polyline back.
pub proof fn lemma_polyline_round_trip(polyline: PolylineModel, numerals: Numerals)
    requires
        numerals.wf(),
        polyline_writable(polyline, numerals),
    ensures
        polyline_of(polyline_attributes(polyline, numerals), numerals) == Ok::<
            PolylineModel,
            Failure,
        >(polyline),
{
    let attrs = polyline_attributes(polyline, numerals);
    lemma_names();
    assert(polyline_needs(polyline, fraction_of(polyline.stroke.a)));
    assert(polyline_needs(polyline, fraction_of(polyline.fill.a)));
    assert(polyline_needs(polyline, polyline.width));
    assert forall|i: int| 0 <= i < polyline.points.len() implies corner_writable(
        #[trigger] polyline.points[i],
        numerals,
    ) by {
        let p = polyline.points[i];
        assert(corner_holds(p, p.0) && corner_holds(p, p.1));
        assert(polyline_needs(polyline, p.0));
        assert(polyline_needs(polyline, p.1));
    }
    lemma_color_written(attrs, numerals, "stroke"@, "stroke-opacity"@, polyline.stroke);
    lemma_color_written(attrs, numerals, "fill"@, "fill-opacity"@, polyline.fill);
    lemma_corners_written(polyline.points, numerals);
    lemma_number_written(attrs, numerals, "stroke-width"@, polyline.width);
}

/// The first token of a list that is not a corner is the error of the
/// whole list. A token with another count of fields than two is no
/// corner.
pub proof fn lemma_first_invalid_corner(list: Seq<Seq<char>>, numerals: Numerals, i: int)
    requires
        0 <= i < list.len(),
        corner_of(list[i], numerals) is None,
        forall|j: int| 0 <= j < i ==> corner_of(#[trigger] list[j], numerals) is Some,
    ensures
        corners_of(list, numerals) == Err::<Seq<PolylinePoint>, Failure>(
            Failure::InvalidPoint(list[i]),
        ),
        forall|token: Seq<char>| fields(token).len() != 2 ==> corner_of(token, numerals) is None,
{
    lemma_corners_before(list.take(i), numerals);
    assert(list.take(i + 1).drop_last() =~= list.take(i));
    assert(list.take(i + 1).last() == list[i]);
    lemma_corners_fail(list, numerals, i + 1);
}

proof fn lemma_corners_before(list: Seq<Seq<char>>, numerals: Numerals)
    requires
        forall|j: int| 0 <= j < list.len() ==> corner_of(#[trigger] list[j], numerals) is Some,
    ensures
        corners_of(list, numerals) is Ok,
    decreases list.len(),
{
    if list.len() > 0 {
        lemma_corners_before(list.drop_last(), numerals);
        assert(corner_of(list.last(), numerals) is Some);
    }
}

/// A list of corners fails with an invalid point and nothing else.
pub proof fn lemma_corners_error(list: Seq<Seq<char>>, numerals: Numerals)
    ensures
        corners_of(list, numerals) matches Err(e) ==> e is InvalidPoint,
    decreases list.len(),
{
    if list.len() > 0 {
        lemma_corners_error(list.drop_last(), numerals);
    }
}

/// Whether a polyline cannot be decoded without the attribute `name`.
pub open spec fn polyline_requires(name: Seq<char>) -> bool {
    name == "stroke"@ || name == "fill"@ || name == "points"@ || name == "stroke-width"@
}

/// The attribute that decoding a polyline reports as missing is a required
/// one that the tag does not have.
pub proof fn lemma_polyline_missing(
    attrs: Map<Seq<char>, Seq<char>>,
    numerals: Numerals,
    name: Seq<char>,
)
    requires
        polyline_of(attrs, numerals) == Err::<PolylineModel, Failure>(
            Failure::MissingAttribute(name),
        ),
    ensures
        polyline_requires(name),
        !attrs.contains_key(name),
{
    if attrs.contains_key("points"@) {
        lemma_corners_error(tokens(attrs["points"@]), numerals);
    }
}

/// A tag that lacks one required attribute of a polyline, and that decodes
/// once the attribute is there, fails with that attribute reported as
/// missing.
pub proof fn lemma_polyline_lacks(
    attrs: Map<Seq<char>, Seq<char>>,
    numerals: Numerals,
    name: Seq<char>,
    value: Seq<char>,
)
    requires
        polyline_requires(name),
        !attrs.contains_key(name),
        polyline_of(attrs.insert(name, value), numerals) is Ok,
    ensures
        polyline_of(attrs, numerals) == Err::<PolylineModel, Failure>(
            Failure::MissingAttribute(name),
        ),
{
    lemma_names();
    let full = attrs.insert(name, value);
    if name != "stroke"@ {
        assert(color_of(attrs, numerals, "stroke"@, "stroke-opacity"@) == color_of(
            full,
            numerals,
            "stroke"@,
            "stroke-opacity"@,
        ));
        if name != "fill"@ {
            assert(color_of(attrs, numerals, "fill"@, "fill-opacity"@) == color_of(
                full,
                numerals,
                "fill"@,
                "fill-opacity"@,
            ));
            if name != "points"@ {
                assert(required(attrs, "points"@) == required(full, "points"@));
            }
        }
    }
}

/// Two tables that read the fields of the tokens alike give the same
/// corners.
pub proof fn lemma_alike_corners(a: Numerals, b: Numerals, list: Seq<Seq<char>>)
    requires
        forall|i: int, t: Seq<char>|
            0 <= i < list.len() && #[trigger] fields(list[i]).contains(t) ==> a.reading(t)
                == b.reading(t),
    ensures
        corners_of(list, a) == corners_of(list, b),
    decreases list.len(),
{
    if list.len() > 0 {
        let init = list.drop_last();
        assert forall|i: int, t: Seq<char>|
            0 <= i < init.len() && #[trigger] fields(init[i]).contains(t) implies a.reading(t)
            == b.reading(t) by {
            assert(init[i] == list[i]);
        }
        lemma_alike_corners(a, b, init);
        let parts = fields(list.last());
        assert(list.last() == list[list.len() - 1]);
        if parts.len() == 2 {
            assert(parts.contains(parts[0]));
            assert(parts.contains(parts[1]));
        }
    }
}

/// Two tables that read the pieces of the attribute values alike decode
/// the same polyline, or fail alike.
pub proof fn lemma_alike_polyline(a: Numerals, b: Numerals, attrs: Map<Seq<char>, Seq<char>>)
    requires
        a.wf(),
        b.wf(),
        alike_on(a, b, attrs),
    ensures
        polyline_of(attrs, a) == polyline_of(attrs, b),
{
    lemma_alike_attributes(a, b, attrs);
    assert(color_of(attrs, a, "stroke"@, "stroke-opacity"@) == color_of(
        attrs,
        b,
        "stroke"@,
        "stroke-opacity"@,
    ));
    assert(color_of(attrs, a, "fill"@, "fill-opacity"@) == color_of(
        attrs,
        b,
        "fill"@,
        "fill-opacity"@,
    ));
    assert(number_of(attrs, a, "stroke-width"@) == number_of(attrs, b, "stroke-width"@));
    if attrs.contains_key("points"@) {
        let value = attrs["points"@];
        let list = tokens(value);
        lemma_alike(a, b, value);
        assert forall|i: int, t: Seq<char>|
            0 <= i < list.len() && #[trigger] fields(list[i]).contains(t) implies a.reading(t)
            == b.reading(t) by {
            assert(list.contains(list[i]));
        }
        lemma_alike_corners(a, b, list);
    }
}

/// Reads one corner of a polyline.
pub fn read_corner(token: &str, numerals: &Numerals) -> (r: Option<PolylinePoint>)
    ensures
        r == corner_of(token@, *numerals),
{
    let parts = split_fields(token);
    assert(texts(parts@).len() == parts@.len());
    if parts.len() != 2 {
        return None;
    }
    assert(texts(parts@)[0] == parts@[0]@);
    assert(texts(parts@)[1] == parts@[1]@);
    let x = numerals.read(parts[0].as_str());
    let y = numerals.read(parts[1].as_str());
    match (x, y) {
        (Some(x), Some(y)) => Some(PolylinePoint(x, y)),
        _ => None,
    }
}

/// Reads the corners of a polyline from a list of tokens separated by
/// white space.
pub fn read_corners(list: &str, numerals: &Numerals) -> (r: Result<
    Vec<PolylinePoint>,
    DocumentError,
>)
    ensures
        match r {
            Ok(points) => corners_of(tokens(list@), *numerals) == Ok::<
                Seq<PolylinePoint>,
                Failure,
            >(points@),
            Err(e) => corners_of(tokens(list@), *numerals) == Err::<Seq<PolylinePoint>, Failure>(
                e@,
            ),
        },
{
    let words = split_tokens(list);
    let ghost all = tokens(list@);
    let mut points: Vec<PolylinePoint> = Vec::new();
    let mut i: usize = 0;
    assert(all.take(0) =~= Seq::<Seq<char>>::empty());
    while i < words.len()
        invariant
            i <= words.len(),
            texts(words@) == all,
            all == tokens(list@),
            corners_of(all.take(i as int), *numerals) == Ok::<Seq<PolylinePoint>, Failure>(
                points@,
            ),
        decreases words.len() - i,
    {
        assert(texts(words@)[i as int] == words@[i as int]@);
        assert(all.take(i + 1).drop_last() =~= all.take(i as int));
        assert(all.take(i + 1).last() == all[i as int]);
        match read_corner(words[i].as_str(), numerals) {
            Some(p) => points.push(p),
            None => {
                proof {
                    assert(corners_of(all.take(i + 1), *numerals) == Err::<
                        Seq<PolylinePoint>,
                        Failure,
                    >(Failure::InvalidPoint(all[i as int])));
                    lemma_corners_fail(all, *numerals, i + 1);
                }
                return Err(DocumentError::InvalidPoint(words[i].clone()));
            },
        }
        i += 1;
    }
    assert(all.take(all.len() as int) =~= all);
    Ok(points)
}

/// Once a beginning of the list has failed, the whole list fails in the
/// same way.
pub proof fn lemma_corners_fail(list: Seq<Seq<char>>, numerals: Numerals, n: int)
    requires
        0 <= n <= list.len(),
        corners_of(list.take(n), numerals) is Err,
    ensures
        corners_of(list, numerals) == corners_of(list.take(n), numerals),
    decreases list.len() - n,
{
    if n == list.len() {
        assert(list.take(n) =~= list);
    } else {
        assert(list.drop_last().take(n) =~= list.take(n));
        lemma_corners_fail(list.drop_last(), numerals, n);
    }
}

impl FromAttributes for Polyline {
    open spec fn decoded(attrs: Map<Seq<char>, Seq<char>>, numerals: Numerals) -> Result<
        PolylineModel,
        Failure,
    > {
        polyline_of(attrs, numerals)
    }

    /// Reads a polyline from the attributes of a `polyline` tag.
    fn from_attributes(attributes: &Attributes, numerals: &Numerals) -> (r: Result<
        Polyline,
        DocumentError,
    >) {
        let stroke = attributes.color("stroke", "stroke-opacity", numerals)?;
        let fill = attributes.color("fill", "fill-opacity", numerals)?;
        let list = attributes.require("points")?;
        let points = read_corners(list, numerals)?;
        let width = attributes.number("stroke-width", numerals)?;
        Ok(Polyline { stroke, fill, width, points })
    }
}

impl Polyline {
    /// The scalars that encoding the polyline writes.
    pub fn scalars(&self) -> (r: Vec<Scalar>)
        ensures
            forall|x: Scalar| polyline_needs(self@, x) <==> r@.contains(x),
    {
        let mut out: Vec<Scalar> = Vec::new();
        out.push(self.stroke.opacity());
        out.push(self.fill.opacity());
        out.push(self.width);
        let ghost head = out@;
        let mut i: usize = 0;
        while i < self.points.len()
            invariant
                i <= self.points.len(),
                head.len() == 3,
                head[0] == fraction_of(self.stroke.a),
                head[1] == fraction_of(self.fill.a),
                head[2] == self.width,
                out@.len() == 3 + 2 * i,
                out@.take(3) == head,
                forall|j: int|
                    0 <= j < i ==> out@[3 + 2 * j] == self.points@[j].0 && out@[3 + 2 * j + 1] == (
                    #[trigger] self.points@[j]).1,
            decreases self.points.len() - i,
        {
            let p = self.points[i];
            out.push(p.0);
            out.push(p.1);
            assert(out@.take(3) =~= head);
            i += 1;
        }
        proof {
            assert forall|x: Scalar| polyline_needs(self@, x) implies out@.contains(x) by {
                if x == fraction_of(self.stroke.a) {
                    assert(out@.take(3)[0] == x);
                    assert(out@[0] == x);
                } else if x == fraction_of(self.fill.a) {
                    assert(out@.take(3)[1] == x);
                    assert(out@[1] == x);
                } else if x == self.width {
                    assert(out@.take(3)[2] == x);
                    assert(out@[2] == x);
                } else {
                    let j = choose|j: int|
                        0 <= j < self@.points.len() && corner_holds(#[trigger] self@.points[j], x);
                    let p = self.points@[j];
                    assert(out@[3 + 2 * j] == p.0);
                    assert(out@[3 + 2 * j + 1] == p.1);
                }
            }
            assert forall|x: Scalar| out@.contains(x) implies polyline_needs(self@, x) by {
                let k = choose|k: int| 0 <= k < out@.len() && out@[k] == x;
                if k < 3 {
                    assert(out@.take(3)[k] == out@[k]);
                } else {
                    let j = (k - 3) / 2;
                    assert(0 <= j < self.points@.len());
                    let p = self.points@[j];
                    assert(corner_holds(self@.points[j], x));
                }
            }
        }
        out
    }

    /// The attributes that encode the polyline, if the table has a text
    /// for every scalar that they write.
    pub fn attributes(&self, numerals: &Numerals) -> (r: Option<Attributes>)
        ensures
            match r {
                Some(attributes) => polyline_writable(self@, *numerals) && attributes@
                    == polyline_attributes(self@, *numerals),
                None => !polyline_writable(self@, *numerals),
            },
    {
        let stroke = self.stroke.opacity();
        let fill = self.fill.opacity();
        assert(polyline_needs(self@, stroke));
        assert(polyline_needs(self@, fill));
        assert(polyline_needs(self@, self.width));
        let stroke_opacity = numerals.write(stroke)?;
        let fill_opacity = numerals.write(fill)?;
        let width = numerals.write(self.width)?;
        let points = match write_corners(&self.points, numerals) {
            Some(t) => t,
            None => {
                proof {
                    let i = choose|i: int|
                        0 <= i < self.points@.len() && !corner_writable(
                            #[trigger] self.points@[i],
                            *numerals,
                        );
                    let q = self.points@[i];
                    let x = if !numerals.has_value(q.0) {
                        q.0
                    } else {
                        q.1
                    };
                    assert(corner_holds(self@.points[i], x));
                    assert(polyline_needs(self@, x));
                }
                return None;
            },
        };
        proof {
            assert forall|x: Scalar| #[trigger]
                polyline_needs(self@, x) implies numerals.has_value(x) by {
                if x != stroke && x != fill && x != self.width {
                    let i = choose|i: int|
                        0 <= i < self@.points.len() && corner_holds(#[trigger] self@.points[i], x);
                    assert(corner_writable(self.points@[i], *numerals));
                }
            }
        }
        let mut attributes = Attributes::new();
        attributes.insert("stroke", self.stroke.to_string_na().as_str());
        attributes.insert("fill", self.fill.to_string_na().as_str());
        attributes.insert("stroke-opacity", stroke_opacity.as_str());
        attributes.insert("fill-opacity", fill_opacity.as_str());
        attributes.insert("stroke-width", width.as_str());
        attributes.insert("points", points.as_str());
        attributes.insert("stroke-linecap", "round");
        attributes.insert("stroke-linejoin", "round");
        Some(attributes)
    }
}

} // verus!
