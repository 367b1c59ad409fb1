use vstd::prelude::*;
use vstd::std_specs::cmp::PartialEqSpecImpl;

use crate::attributes::alike_on;
use crate::attributes::Attributes;
use crate::attributes::color_of;
use crate::attributes::lemma_alike_attributes;
use crate::attributes::lemma_color_written;
use crate::attributes::lemma_names;
use crate::attributes::lemma_number_written;
use crate::attributes::number_of;
use crate::attributes::required;
use crate::attributes::same;
use crate::colors::Color;
use crate::colors::opaque_color_text;
use crate::DocumentError;
use crate::elems_eq;
use crate::Failure;
use crate::numerals::lemma_alike;
use crate::numerals::lemma_read_written;
use crate::numerals::Numerals;
use crate::scalar::fraction_of;
use crate::scalar::Scalar;
use crate::text::fields;
use crate::text::join;
use crate::text::lemma_fields_of_join;
use crate::text::lemma_join_space_free;
use crate::text::lemma_tokens_of_join;
use crate::text::push_text;
use crate::text::space_free;
use crate::text::split_fields;
use crate::text::split_tokens;
use crate::text::texts;
use crate::text::tokens;
use super::FromAttributes;

verus! {

/// One sample of a pen stroke: x, y and the pressure of the pen.
#[derive(Debug, Clone, Copy)]
pub struct Point(pub Scalar, pub Scalar, pub Scalar);

impl PartialEq for Point {
    fn eq(&self, other: &Self) -> (r: bool) {
        self.0 == other.0 && self.1 == other.1 && self.2 == other.2
    }
}

impl PartialEqSpecImpl for Point {
    open spec fn obeys_eq_spec() -> bool {
        true
    }

    open spec fn eq_spec(&self, other: &Self) -> bool {
        self.0 == other.0 && self.1 == other.1 && self.2 == other.2
    }
}

/// A pen stroke.
#[derive(Debug, Clone)]
pub struct Line {
    pub color: Color,
    pub width: Scalar,
    pub points: Vec<Point>,
}

/// A `Line` with its points as a sequence.
pub struct LineModel {
    pub color: Color,
    pub width: Scalar,
    pub points: Seq<Point>,
}

impl View for Line {
    type V = LineModel;

    open spec fn view(&self) -> LineModel {
        LineModel { color: self.color, width: self.width, points: self.points@ }
    }
}

impl PartialEq for Line {
    fn eq(&self, other: &Self) -> (r: bool) {
        let same = elems_eq(self.points.as_slice(), other.points.as_slice());
        proof {
            if same {
                assert(self.points@ =~= other.points@);
            }
            if self.points@ == other.points@ {
                assert(same);
            }
        }
        self.color == other.color && self.width == other.width && same
    }
}

impl PartialEqSpecImpl for Line {
    open spec fn obeys_eq_spec() -> bool {
        true
    }

    open spec fn eq_spec(&self, other: &Self) -> bool {
        self@ == other@
    }
}

/// The point that a token writes: three scalars with commas between them.
pub open spec fn point_of(token: Seq<char>, numerals: Numerals) -> Option<Point> {
    let parts = fields(token);
    if parts.len() == 3 && numerals.reading(parts[0]) is Some && numerals.reading(parts[1]) is Some
        && numerals.reading(parts[2]) is Some {
        Some(
            Point(
                numerals.reading(parts[0]).unwrap(),
                numerals.reading(parts[1]).unwrap(),
                numerals.reading(parts[2]).unwrap(),
            ),
        )
    } else {
        None
    }
}

/// The points that a list of tokens writes, or the first token that is not
/// a point.
pub open spec fn points_of(list: Seq<Seq<char>>, numerals: Numerals) -> Result<Seq<Point>, Failure>
    decreases list.len(),
{
    if list.len() == 0 {
        Ok(Seq::empty())
    } else {
        match points_of(list.drop_last(), numerals) {
            Err(e) => Err(e),
            Ok(points) => match point_of(list.last(), numerals) {
                Some(p) => Ok(points.push(p)),
                None => Err(Failure::InvalidPoint(list.last())),
            },
        }
    }
}

/// The pen stroke that the attributes of a `path` tag write.
pub open spec fn line_of(attrs: Map<Seq<char>, Seq<char>>, numerals: Numerals) -> Result<
    LineModel,
    Failure,
> {
    match color_of(attrs, numerals, "stroke"@, "stroke-opacity"@) {
        Err(e) => Err(e),
        Ok(color) => match required(attrs, "svgnote:points"@) {
            Err(e) => Err(e),
            Ok(list) => match points_of(tokens(list), numerals) {
                Err(e) => Err(e),
                Ok(points) => match number_of(attrs, numerals, "svgnote:width"@) {
                    Err(e) => Err(e),
                    Ok(width) => Ok(LineModel { color, width, points }),
                },
            },
        },
    }
}

/// Whether `x` is one of the three scalars of `p`.
pub open spec fn point_holds(p: Point, x: Scalar) -> bool {
    p.0 == x || p.1 == x || p.2 == x
}

/// Whether the table has a text for each of the three scalars of `p`.
pub open spec fn point_writable(p: Point, numerals: Numerals) -> bool {
    numerals.has_value(p.0) && numerals.has_value(p.1) && numerals.has_value(p.2)
}

/// Whether encoding the pen stroke writes the scalar `x`: its width, the
/// opacity of its color, and the scalars of its points.
pub open spec fn line_needs(line: LineModel, x: Scalar) -> bool {
    ||| x == fraction_of(line.color.a)
    ||| x == line.width
    ||| exists|i: int| 0 <= i < line.points.len() && point_holds(#[trigger] line.points[i], x)
}

/// Whether the table has a text for every scalar that encoding the pen
/// stroke writes.
pub open spec fn line_writable(line: LineModel, numerals: Numerals) -> bool {
    forall|x: Scalar| #[trigger] line_needs(line, x) ==> numerals.has_value(x)
}

/// The text of a point: its three scalars with commas between them.
pub open spec fn point_text(p: Point, numerals: Numerals) -> Seq<char> {
    join(seq![numerals.written(p.0), numerals.written(p.1), numerals.written(p.2)], ',')
}

/// The texts of a sequence of points.
pub open spec fn point_texts(points: Seq<Point>, numerals: Numerals) -> Seq<Seq<char>> {
    Seq::new(points.len(), |i: int| point_text(points[i], numerals))
}

/// The attributes that encode a pen stroke, but for the path data that a
/// viewer draws, which is derived from the points.
pub open spec fn line_attributes(line: LineModel, numerals: Numerals) -> Map<
    Seq<char>,
    Seq<char>,
> {
    Map::<Seq<char>, Seq<char>>::empty().insert("stroke"@, opaque_color_text(line.color)).insert(
        "stroke-opacity"@,
        numerals.written(fraction_of(line.color.a)),
    ).insert("stroke-width"@, numerals.written(line.width)).insert(
        "svgnote:width"@,
        numerals.written(line.width),
    ).insert("svgnote:points"@, join(point_texts(line.points, numerals), ' ')).insert(
        "svgnote:tool"@,
        "pen"@,
    ).insert("fill-opacity"@, "0"@).insert("stroke-linecap"@, "round"@).insert(
        "stroke-linejoin"@,
        "round"@,
    )
}

/// Writes one point of a pen stroke, if the table has a text for each of
/// its scalars.
pub fn write_point(p: &Point, numerals: &Numerals) -> (r: Option<String>)
    ensures
        match r {
            Some(t) => t@ == point_text(*p, *numerals) && point_writable(*p, *numerals),
            None => !point_writable(*p, *numerals),
        },
{
    let x = numerals.write(p.0)?;
    let y = numerals.write(p.1)?;
    let w = numerals.write(p.2)?;
    let mut out = x;
    out.push(',');
    push_text(&mut out, y.as_str());
    out.push(',');
    push_text(&mut out, w.as_str());
    proof {
        let parts = seq![numerals.written(p.0), numerals.written(p.1), numerals.written(p.2)];
        reveal_with_fuel(join, 4);
        assert(parts.drop_last() =~= seq![parts[0], parts[1]]);
        assert(parts.drop_last().drop_last() =~= seq![parts[0]]);
        assert(out@ =~= join(parts, ','));
    }
    Some(out)
}

/// Writes the points of a pen stroke with a space between neighbours, if
/// the table has a text for each of their scalars.
pub fn write_points(points: &Vec<Point>, numerals: &Numerals) -> (r: Option<String>)
    ensures
        match r {
            Some(t) => t@ == join(point_texts(points@, *numerals), ' ') && forall|i: int|
                0 <= i < points@.len() ==> point_writable(#[trigger] points@[i], *numerals),
            None => exists|i: int|
                0 <= i < points@.len() && !point_writable(#[trigger] points@[i], *numerals),
        },
{
    let mut out = String::new();
    let mut i: usize = 0;
    assert(point_texts(points@.take(0), *numerals) =~= Seq::<Seq<char>>::empty());
    while i < points.len()
        invariant
            i <= points.len(),
            out@ == join(point_texts(points@.take(i as int), *numerals), ' '),
            forall|j: int| 0 <= j < i ==> point_writable(#[trigger] points@[j], *numerals),
        decreases points.len() - i,
    {
        let p = &points[i];
        let t = match write_point(p, numerals) {
            Some(t) => t,
            None => {
                assert(!point_writable(points@[i as int], *numerals));
                return None;
            },
        };
        if i > 0 {
            out.push(' ');
        }
        push_text(&mut out, t.as_str());
        proof {
            let now = point_texts(points@.take(i + 1), *numerals);
            let before = point_texts(points@.take(i as int), *numerals);
            assert(now.drop_last() =~= before);
            assert(now.last() == t@);
            if i == 0 {
                assert(out@ =~= t@);
            }
        }
        i += 1;
    }
    assert(points@.take(points@.len() as int) =~= points@);
    Some(out)
}

/// The text of a point is one token, and is read back as the point.
pub proof fn lemma_point_written(p: Point, numerals: Numerals)
    requires
        numerals.wf(),
        point_writable(p, numerals),
    ensures
        point_text(p, numerals).len() >= 1,
        space_free(point_text(p, numerals)),
        point_of(point_text(p, numerals), numerals) == Some(p),
{
    lemma_read_written(numerals, p.0);
    lemma_read_written(numerals, p.1);
    lemma_read_written(numerals, p.2);
    let parts = seq![numerals.written(p.0), numerals.written(p.1), numerals.written(p.2)];
    lemma_fields_of_join(parts);
    lemma_join_space_free(parts, ',');
}

/// The texts of points are read back as the points.
pub proof fn lemma_points_written(points: Seq<Point>, numerals: Numerals)
    requires
        numerals.wf(),
        forall|i: int| 0 <= i < points.len() ==> point_writable(#[trigger] points[i], numerals),
    ensures
        points_of(point_texts(points, numerals), numerals) == Ok::<Seq<Point>, Failure>(points),
        points_of(tokens(join(point_texts(points, numerals), ' ')), numerals) == Ok::<
            Seq<Point>,
            Failure,
        >(points),
    decreases points.len(),
{
    let list = point_texts(points, numerals);
    assert forall|i: int| 0 <= i < list.len() implies (#[trigger] list[i]).len() >= 1
        && space_free(list[i]) by {
        lemma_point_written(points[i], numerals);
    }
    lemma_tokens_of_join(list);
    if points.len() == 0 {
        assert(points =~= Seq::<Point>::empty());
    } else {
        lemma_points_written(points.drop_last(), numerals);
        assert(list.drop_last() =~= point_texts(points.drop_last(), numerals));
        lemma_point_written(points.last(), numerals);
        assert(points.drop_last().push(points.last()) =~= points);
    }
}

/// Decoding the attributes that encode a pen stroke gives the pen stroke
/// back.
pub proof fn lemma_line_round_trip(line: LineModel, numerals: Numerals)
    requires
        numerals.wf(),
        line_writable(line, numerals),
    ensures
        line_of(line_attributes(line, numerals), numerals) == Ok::<LineModel, Failure>(line),
{
    let attrs = line_attributes(line, numerals);
    lemma_names();
    assert(line_needs(line, fraction_of(line.color.a)));
    assert(line_needs(line, line.width));
    assert forall|i: int| 0 <= i < line.points.len() implies point_writable(
        #[trigger] line.points[i],
        numerals,
    ) by {
        let p = line.points[i];
        assert(point_holds(p, p.0) && point_holds(p, p.1) && point_holds(p, p.2));
        assert(line_needs(line, p.0));
        assert(line_needs(line, p.1));
        assert(line_needs(line, p.2));
    }
    lemma_color_written(attrs, numerals, "stroke"@, "stroke-opacity"@, line.color);
    lemma_points_written(line.points, numerals);
    lemma_number_written(attrs, numerals, "svgnote:width"@, line.width);
}

/// The first token of a list that is not a point is the error of the
/// whole list. A token with another count of fields than three is no
/// point.
pub proof fn lemma_first_invalid_point(list: Seq<Seq<char>>, numerals: Numerals, i: int)
    requires
        0 <= i < list.len(),
        point_of(list[i], numerals) is None,
        forall|j: int| 0 <= j < i ==> point_of(#[trigger] list[j], numerals) is Some,
    ensures
        points_of(list, numerals) == Err::<Seq<Point>, Failure>(Failure::InvalidPoint(list[i])),
        forall|token: Seq<char>| fields(token).len() != 3 ==> point_of(token, numerals) is None,
{
    lemma_points_before(list.take(i), numerals);
    assert(list.take(i + 1).drop_last() =~= list.take(i));
    assert(list.take(i + 1).last() == list[i]);
    lemma_points_fail(list, numerals, i + 1);
}

proof fn lemma_points_before(list: Seq<Seq<char>>, numerals: Numerals)
    requires
        forall|j: int| 0 <= j < list.len() ==> point_of(#[trigger] list[j], numerals) is Some,
    ensures
        points_of(list, numerals) is Ok,
    decreases list.len(),
{
    if list.len() > 0 {
        lemma_points_before(list.drop_last(), numerals);
        assert(point_of(list.last(), numerals) is Some);
    }
}

/// A list of points fails with an invalid point and nothing else.
pub proof fn lemma_points_error(list: Seq<Seq<char>>, numerals: Numerals)
    ensures
        points_of(list, numerals) matches Err(e) ==> e is InvalidPoint,
    decreases list.len(),
{
    if list.len() > 0 {
        lemma_points_error(list.drop_last(), numerals);
    }
}

/// Whether a pen stroke cannot be decoded without the attribute `name`.
pub open spec fn line_requires(name: Seq<char>) -> bool {
    name == "stroke"@ || name == "svgnote:points"@ || name == "svgnote:width"@
}

/// The attribute that decoding a pen stroke reports as missing is a
/// required one that the tag does not have.
pub proof fn lemma_line_missing(
    attrs: Map<Seq<char>, Seq<char>>,
    numerals: Numerals,
    name: Seq<char>,
)
    requires
        line_of(attrs, numerals) == Err::<LineModel, Failure>(Failure::MissingAttribute(name)),
    ensures
        line_requires(name),
        !attrs.contains_key(name),
{
    if attrs.contains_key("svgnote:points"@) {
        lemma_points_error(tokens(attrs["svgnote:points"@]), numerals);
    }
}

/// A tag that lacks one required attribute of a pen stroke, and that
/// decodes once the attribute is there, fails with that attribute reported
/// as missing.
pub proof fn lemma_line_lacks(
    attrs: Map<Seq<char>, Seq<char>>,
    numerals: Numerals,
    name: Seq<char>,
    value: Seq<char>,
)
    requires
        line_requires(name),
        !attrs.contains_key(name),
        line_of(attrs.insert(name, value), numerals) is Ok,
    ensures
        line_of(attrs, numerals) == Err::<LineModel, Failure>(Failure::MissingAttribute(name)),
{
    lemma_names();
    let full = attrs.insert(name, value);
    if name != "stroke"@ {
        assert(color_of(attrs, numerals, "stroke"@, "stroke-opacity"@) == color_of(
            full,
            numerals,
            "stroke"@,
            "stroke-opacity"@,
        ));
        if name != "svgnote:points"@ {
            assert(required(attrs, "svgnote:points"@) == required(full, "svgnote:points"@));
        }
    }
}

/// Two tables that read the fields of the tokens alike give the same
/// points.
pub proof fn lemma_alike_points(a: Numerals, b: Numerals, list: Seq<Seq<char>>)
    requires
        forall|i: int, t: Seq<char>|
            0 <= i < list.len() && #[trigger] fields(list[i]).contains(t) ==> a.reading(t)
                == b.reading(t),
    ensures
        points_of(list, a) == points_of(list, b),
    decreases list.len(),
{
    if list.len() > 0 {
        let init = list.drop_last();
        assert forall|i: int, t: Seq<char>|
            0 <= i < init.len() && #[trigger] fields(init[i]).contains(t) implies a.reading(t)
            == b.reading(t) by {
            assert(init[i] == list[i]);
        }
        lemma_alike_points(a, b, init);
        let parts = fields(list.last());
        assert(list.last() == list[list.len() - 1]);
        if parts.len() == 3 {
            assert(parts.contains(parts[0]));
            assert(parts.contains(parts[1]));
            assert(parts.contains(parts[2]));
        }
    }
}

/// Two tables that read the pieces of the attribute values alike decode
/// the same pen stroke, or fail alike.
pub proof fn lemma_alike_line(a: Numerals, b: Numerals, attrs: Map<Seq<char>, Seq<char>>)
    requires
        a.wf(),
        b.wf(),
        alike_on(a, b, attrs),
    ensures
        line_of(attrs, a) == line_of(attrs, b),
{
    lemma_alike_attributes(a, b, attrs);
    assert(color_of(attrs, a, "stroke"@, "stroke-opacity"@) == color_of(
        attrs,
        b,
        "stroke"@,
        "stroke-opacity"@,
    ));
    assert(number_of(attrs, a, "svgnote:width"@) == number_of(attrs, b, "svgnote:width"@));
    if attrs.contains_key("svgnote:points"@) {
        let value = attrs["svgnote:points"@];
        let list = tokens(value);
        lemma_alike(a, b, value);
        assert forall|i: int, t: Seq<char>|
            0 <= i < list.len() && #[trigger] fields(list[i]).contains(t) implies a.reading(t)
            == b.reading(t) by {
            assert(list.contains(list[i]));
        }
        lemma_alike_points(a, b, list);
    }
}

/// Reads one point of a pen stroke.
pub fn read_point(token: &str, numerals: &Numerals) -> (r: Option<Point>)
    ensures
        r == point_of(token@, *numerals),
{
    let parts = split_fields(token);
    assert(texts(parts@).len() == parts@.len());
    if parts.len() != 3 {
        return None;
    }
    assert(texts(parts@)[0] == parts@[0]@);
    assert(texts(parts@)[1] == parts@[1]@);
    assert(texts(parts@)[2] == parts@[2]@);
    let x = numerals.read(parts[0].as_str());
    let y = numerals.read(parts[1].as_str());
    let w = numerals.read(parts[2].as_str());
    match (x, y, w) {
        (Some(x), Some(y), Some(w)) => Some(Point(x, y, w)),
        _ => None,
    }
}

/// Reads the points of a pen stroke from a list of tokens separated by
/// white space.
pub fn read_points(list: &str, numerals: &Numerals) -> (r: Result<Vec<Point>, DocumentError>)
    ensures
        match r {
            Ok(points) => points_of(tokens(list@), *numerals) == Ok::<Seq<Point>, Failure>(
                points@,
            ),
            Err(e) => points_of(tokens(list@), *numerals) == Err::<Seq<Point>, Failure>(e@),
        },
{
    let words = split_tokens(list);
    let ghost all = tokens(list@);
    let mut points: Vec<Point> = Vec::new();
    let mut i: usize = 0;
    assert(all.take(0) =~= Seq::<Seq<char>>::empty());
    while i < words.len()
        invariant
            i <= words.len(),
            texts(words@) == all,
            all == tokens(list@),
            points_of(all.take(i as int), *numerals) == Ok::<Seq<Point>, Failure>(points@),
        decreases words.len() - i,
    {
        assert(texts(words@)[i as int] == words@[i as int]@);
        assert(all.take(i + 1).drop_last() =~= all.take(i as int));
        assert(all.take(i + 1).last() == all[i as int]);
        match read_point(words[i].as_str(), numerals) {
            Some(p) => points.push(p),
            None => {
                proof {
                    assert(points_of(all.take(i + 1), *numerals) == Err::<Seq<Point>, Failure>(
                        Failure::InvalidPoint(all[i as int]),
                    ));
                    lemma_points_fail(all, *numerals, i + 1);
                }
                return Err(DocumentError::InvalidPoint(words[i].clone()));
            },
        }
        i += 1;
    }
    assert(all.take(all.len() as int) =~= all);
    Ok(points)
}

/// Once a beginning of the list has failed, the whole list fails in the
/// same way.
pub proof fn lemma_points_fail(list: Seq<Seq<char>>, numerals: Numerals, n: int)
    requires
        0 <= n <= list.len(),
        points_of(list.take(n), numerals) is Err,
    ensures
        points_of(list, numerals) == points_of(list.take(n), numerals),
    decreases list.len() - n,
{
    if n == list.len() {
        assert(list.take(n) =~= list);
    } else {
        assert(list.drop_last().take(n) =~= list.take(n));
        lemma_points_fail(list.drop_last(), numerals, n);
    }
}

impl FromAttributes for Line {
    open spec fn decoded(attrs: Map<Seq<char>, Seq<char>>, numerals: Numerals) -> Result<
        LineModel,
        Failure,
    > {
        line_of(attrs, numerals)
    }

    /// Reads a pen stroke from the attributes of a `path` tag.
    fn from_attributes(attributes: &Attributes, numerals: &Numerals) -> (r: Result<
        Line,
        DocumentError,
    >) {
        let color = attributes.color("stroke", "stroke-opacity", numerals)?;
        let list = attributes.require("svgnote:points")?;
        let points = read_points(list, numerals)?;
        let width = attributes.number("svgnote:width", numerals)?;
        Ok(Line { color, width, points })
    }
}

impl Line {
    /// The scalars that encoding the pen stroke writes.
    pub fn scalars(&self) -> (r: Vec<Scalar>)
        ensures
            forall|x: Scalar| line_needs(self@, x) <==> r@.contains(x),
    {
        let mut out: Vec<Scalar> = Vec::new();
        out.push(self.color.opacity());
        out.push(self.width);
        let ghost head = out@;
        assert(head[0] == fraction_of(self.color.a) && head[1] == self.width);
        let mut i: usize = 0;
        while i < self.points.len()
            invariant
                i <= self.points.len(),
                head.len() == 2,
                head[0] == fraction_of(self.color.a),
                head[1] == self.width,
                out@.len() == 2 + 3 * i,
                out@.take(2) == head,
                forall|j: int|
                    0 <= j < i ==> out@[2 + 3 * j] == self.points@[j].0 && out@[2 + 3 * j + 1]
                        == self.points@[j].1 && out@[2 + 3 * j + 2] == (#[trigger] self.points@[j]).2,
            decreases self.points.len() - i,
        {
            let p = self.points[i];
            out.push(p.0);
            out.push(p.1);
            out.push(p.2);
            assert(out@.take(2) =~= head);
            i += 1;
        }
        proof {
            assert forall|x: Scalar| line_needs(self@, x) implies out@.contains(x) by {
                if x == fraction_of(self.color.a) {
                    assert(out@.take(2)[0] == x);
                    assert(out@[0] == x);
                } else if x == self.width {
                    assert(out@.take(2)[1] == x);
                    assert(out@[1] == x);
                } else {
                    let j = choose|j: int|
                        0 <= j < self@.points.len() && point_holds(#[trigger] self@.points[j], x);
                    let p = self.points@[j];
                    assert(out@[2 + 3 * j] == p.0);
                    assert(out@[2 + 3 * j + 1] == p.1);
                    assert(out@[2 + 3 * j + 2] == p.2);
                }
            }
            assert forall|x: Scalar| out@.contains(x) implies line_needs(self@, x) by {
                let k = choose|k: int| 0 <= k < out@.len() && out@[k] == x;
                if k < 2 {
                    assert(out@.take(2)[k] == out@[k]);
                } else {
                    let j = (k - 2) / 3;
                    assert(0 <= j < self.points@.len());
                    let p = self.points@[j];
                    assert(point_holds(self@.points[j], x));
                }
            }
        }
        out
    }

    /// The attributes that encode the pen stroke, if the table has a text
    /// for every scalar that they write. The path data that a viewer draws
    /// is not among them.
    pub fn attributes(&self, numerals: &Numerals) -> (r: Option<Attributes>)
        ensures
            match r {
                Some(attributes) => line_writable(self@, *numerals) && attributes@
                    == line_attributes(self@, *numerals),
                None => !line_writable(self@, *numerals),
            },
    {
        let opacity = self.color.opacity();
        assert(line_needs(self@, opacity));
        assert(line_needs(self@, self.width));
        let stroke_opacity = numerals.write(opacity)?;
        let width = numerals.write(self.width)?;
        let points = match write_points(&self.points, numerals) {
            Some(t) => t,
            None => {
                proof {
                    let i = choose|i: int|
                        0 <= i < self.points@.len() && !point_writable(
                            #[trigger] self.points@[i],
                            *numerals,
                        );
                    let q = self.points@[i];
                    let x = if !numerals.has_value(q.0) {
                        q.0
                    } else if !numerals.has_value(q.1) {
                        q.1
                    } else {
                        q.2
                    };
                    assert(point_holds(self@.points[i], x));
                    assert(line_needs(self@, x));
                }
                return None;
            },
        };
        proof {
            assert forall|x: Scalar| #[trigger] line_needs(self@, x) implies numerals.has_value(
                x,
            ) by {
                if x != opacity && x != self.width {
                    let i = choose|i: int|
                        0 <= i < self@.points.len() && point_holds(#[trigger] self@.points[i], x);
                    assert(point_writable(self.points@[i], *numerals));
                }
            }
        }
        let mut attributes = Attributes::new();
        attributes.insert("stroke", self.color.to_string_na().as_str());
        attributes.insert("stroke-opacity", stroke_opacity.as_str());
        attributes.insert("stroke-width", width.as_str());
        attributes.insert("svgnote:width", width.as_str());
        attributes.insert("svgnote:points", points.as_str());
        attributes.insert("svgnote:tool", "pen");
        attributes.insert("fill-opacity", "0");
        attributes.insert("stroke-linecap", "round");
        attributes.insert("stroke-linejoin", "round");
        Some(attributes)
    }
}

} // verus!
