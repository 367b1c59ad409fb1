use vstd::prelude::*;
use vstd::std_specs::cmp::PartialEqSpecImpl;

use crate::attributes::Attributes;
use crate::attributes::color_of;
use crate::attributes::count_of;
use crate::attributes::lemma_color_written;
use crate::attributes::lemma_count_written;
use crate::attributes::lemma_names;
use crate::attributes::lemma_number_written;
use crate::attributes::lemma_pair_written;
use crate::attributes::number_of;
use crate::attributes::pair_of;
use crate::attributes::required;
use crate::colors::Color;
use crate::colors::opaque_color_text;
use crate::DocumentError;
use crate::Failure;
use crate::numerals::Numerals;
use crate::scalar::fraction_of;
use crate::scalar::Scalar;
use crate::text::count_text;
use crate::text::join;
use crate::text::push_text;
use crate::text::write_count;
use super::FromAttributes;

verus! {

/// A regular polygon, given by its centre, the radius of its corners, the
/// number of its sides and the angle by which it is turned. The corners are
/// derived from these and stored nowhere.
#[derive(Debug, Clone, Copy)]
pub struct Ngon {
    pub position: (Scalar, Scalar),
    pub stroke: Color,
    pub fill: Color,
    pub width: Scalar,
    pub angle: Scalar,
    pub n: u8,
    pub radius: Scalar,
}

impl View for Ngon {
    type V = Ngon;

    open spec fn view(&self) -> Ngon {
        *self
    }
}

impl PartialEq for Ngon {
    fn eq(&self, other: &Self) -> (r: bool) {
        self.position.0 == other.position.0 && self.position.1 == other.position.1 && self.stroke
            == other.stroke && self.fill == other.fill && self.width == other.width && self.angle
            == other.angle && self.n == other.n && self.radius == other.radius
    }
}

impl PartialEqSpecImpl for Ngon {
    open spec fn obeys_eq_spec() -> bool {
        true
    }

    open spec fn eq_spec(&self, other: &Self) -> bool {
        *self == *other
    }
}

/// The regular polygon that the attributes of a `polygon` tag write.
pub open spec fn ngon_of(attrs: Map<Seq<char>, Seq<char>>, numerals: Numerals) -> Result<
    Ngon,
    Failure,
> {
    match pair_of(attrs, numerals, "svgnote:position"@) {
        Err(e) => Err(e),
        Ok(position) => match number_of(attrs, numerals, "stroke-width"@) {
            Err(e) => Err(e),
            Ok(width) => match number_of(attrs, numerals, "svgnote:radius"@) {
                Err(e) => Err(e),
                Ok(radius) => match count_of(attrs, "svgnote:n"@) {
                    Err(e) => Err(e),
                    Ok(n) => match number_of(attrs, numerals, "svgnote:angle"@) {
                        Err(e) => Err(e),
                        Ok(angle) => match color_of(attrs, numerals, "fill"@, "fill-opacity"@) {
                            Err(e) => Err(e),
                            Ok(fill) => match color_of(
                                attrs,
                                numerals,
                                "stroke"@,
                                "stroke-opacity"@,
                            ) {
                                Err(e) => Err(e),
                                Ok(stroke) => Ok(
                                    Ngon { position, stroke, fill, width, angle, n, radius },
                                ),
                            },
                        },
                    },
                },
            },
        },
    }
}

/// Whether a regular polygon cannot be decoded without the attribute
/// `name`.
pub open spec fn ngon_requires(name: Seq<char>) -> bool {
    name == "svgnote:position"@ || name == "stroke-width"@ || name == "svgnote:radius"@ || name
        == "svgnote:n"@ || name == "svgnote:angle"@ || name == "fill"@ || name == "stroke"@
}

/// Whether encoding the polygon writes the scalar `x`.
pub open spec fn ngon_needs(ngon: Ngon, x: Scalar) -> bool {
    ||| x == ngon.position.0
    ||| x == ngon.position.1
    ||| x == fraction_of(ngon.stroke.a)
    ||| x == fraction_of(ngon.fill.a)
    ||| x == ngon.width
    ||| x == ngon.angle
    ||| x == ngon.radius
}

/// Whether the table has a text for every scalar that encoding the
/// polygon writes.
pub open spec fn ngon_writable(ngon: Ngon, numerals: Numerals) -> bool {
    forall|x: Scalar| #[trigger] ngon_needs(ngon, x) ==> numerals.has_value(x)
}

/// The attributes that encode a regular polygon, but for the corners that
/// a viewer draws, which are derived from the rest.
pub open spec fn ngon_attributes(ngon: Ngon, numerals: Numerals) -> Map<Seq<char>, Seq<char>> {
    Map::<Seq<char>, Seq<char>>::empty().insert(
        "svgnote:position"@,
        join(seq![numerals.written(ngon.position.0), numerals.written(ngon.position.1)], ','),
    ).insert("stroke"@, opaque_color_text(ngon.stroke)).insert(
        "fill"@,
        opaque_color_text(ngon.fill),
    ).insert("stroke-opacity"@, numerals.written(fraction_of(ngon.stroke.a))).insert(
        "fill-opacity"@,
        numerals.written(fraction_of(ngon.fill.a)),
    ).insert("stroke-width"@, numerals.written(ngon.width)).insert(
        "svgnote:angle"@,
        numerals.written(ngon.angle),
    ).insert("svgnote:n"@, count_text(ngon.n)).insert(
        "svgnote:radius"@,
        numerals.written(ngon.radius),
    ).insert("svgnote:tool"@, "ngon"@).insert("stroke-linecap"@, "round"@).insert(
        "stroke-linejoin"@,
        "round"@,
    )
}

impl FromAttributes for Ngon {
    open spec fn decoded(attrs: Map<Seq<char>, Seq<char>>, numerals: Numerals) -> Result<
        Ngon,
        Failure,
    > {
        ngon_of(attrs, numerals)
    }

    /// Reads a regular polygon from the attributes of a `polygon` tag.
    fn from_attributes(attributes: &Attributes, numerals: &Numerals) -> (r: Result<
        Ngon,
        DocumentError,
    >) {
        let position = attributes.pair("svgnote:position", numerals)?;
        let width = attributes.number("stroke-width", numerals)?;
        let radius = attributes.number("svgnote:radius", numerals)?;
        let n = attributes.count("svgnote:n")?;
        let angle = attributes.number("svgnote:angle", numerals)?;
        let fill = attributes.color("fill", "fill-opacity", numerals)?;
        let stroke = attributes.color("stroke", "stroke-opacity", numerals)?;
        Ok(Ngon { position, stroke, fill, width, angle, n, radius })
    }
}

impl Ngon {
    /// The scalars that encoding the polygon writes.
    pub fn scalars(&self) -> (r: Vec<Scalar>)
        ensures
            forall|x: Scalar| ngon_needs(*self, x) <==> r@.contains(x),
    {
        let mut out: Vec<Scalar> = Vec::new();
        out.push(self.position.0);
        out.push(self.position.1);
        out.push(self.stroke.opacity());
        out.push(self.fill.opacity());
        out.push(self.width);
        out.push(self.angle);
        out.push(self.radius);
        proof {
            assert(out@[0] == self.position.0);
            assert(out@[1] == self.position.1);
            assert(out@[2] == fraction_of(self.stroke.a));
            assert(out@[3] == fraction_of(self.fill.a));
            assert(out@[4] == self.width);
            assert(out@[5] == self.angle);
            assert(out@[6] == self.radius);
        }
        out
    }

    /// The attributes that encode the polygon, if the table has a text for
    /// every scalar that they write. The corners that a viewer draws are
    /// not among them.
    pub fn attributes(&self, numerals: &Numerals) -> (r: Option<Attributes>)
        ensures
            match r {
                Some(attributes) => ngon_writable(*self, *numerals) && attributes@
                    == ngon_attributes(*self, *numerals),
                None => !ngon_writable(*self, *numerals),
            },
    {
        let stroke = self.stroke.opacity();
        let fill = self.fill.opacity();
        assert(ngon_needs(*self, self.position.0));
        assert(ngon_needs(*self, self.position.1));
        assert(ngon_needs(*self, stroke));
        assert(ngon_needs(*self, fill));
        assert(ngon_needs(*self, self.width));
        assert(ngon_needs(*self, self.angle));
        assert(ngon_needs(*self, self.radius));
        let x = numerals.write(self.position.0)?;
        let y = numerals.write(self.position.1)?;
        let stroke_opacity = numerals.write(stroke)?;
        let fill_opacity = numerals.write(fill)?;
        let width = numerals.write(self.width)?;
        let angle = numerals.write(self.angle)?;
        let radius = numerals.write(self.radius)?;
        let mut position = x;
        position.push(',');
        push_text(&mut position, y.as_str());
        proof {
            let parts = seq![
                numerals.written(self.position.0),
                numerals.written(self.position.1),
            ];
            reveal_with_fuel(join, 3);
            assert(parts.drop_last() =~= seq![parts[0]]);
            assert(position@ =~= join(parts, ','));
        }
        let mut attributes = Attributes::new();
        attributes.insert("svgnote:position", position.as_str());
        attributes.insert("stroke", self.stroke.to_string_na().as_str());
        attributes.insert("fill", self.fill.to_string_na().as_str());
        attributes.insert("stroke-opacity", stroke_opacity.as_str());
        attributes.insert("fill-opacity", fill_opacity.as_str());
        attributes.insert("stroke-width", width.as_str());
        attributes.insert("svgnote:angle", angle.as_str());
        attributes.insert("svgnote:n", write_count(self.n).as_str());
        attributes.insert("svgnote:radius", radius.as_str());
        attributes.insert("svgnote:tool", "ngon");
        attributes.insert("stroke-linecap", "round");
        attributes.insert("stroke-linejoin", "round");
        Some(attributes)
    }
}

/// A tag that lacks one required attribute of a regular polygon, and
/// that decodes once the attribute is there, fails with that attribute
/// reported as missing.
pub proof fn lemma_ngon_lacks(
    attrs: Map<Seq<char>, Seq<char>>,
    numerals: Numerals,
    name: Seq<char>,
    value: Seq<char>,
)
    requires
        ngon_requires(name),
        !attrs.contains_key(name),
        ngon_of(attrs.insert(name, value), numerals) is Ok,
    ensures
        ngon_of(attrs, numerals) == Err::<Ngon, Failure>(Failure::MissingAttribute(name)),
{
    lemma_names();
    let full = attrs.insert(name, value);
    if name != "svgnote:position"@ {
        assert(pair_of(attrs, numerals, "svgnote:position"@) == pair_of(
            full,
            numerals,
            "svgnote:position"@,
        ));
    }
    if name != "stroke-width"@ {
        assert(number_of(attrs, numerals, "stroke-width"@) == number_of(
            full,
            numerals,
            "stroke-width"@,
        ));
    }
    if name != "svgnote:radius"@ {
        assert(number_of(attrs, numerals, "svgnote:radius"@) == number_of(
            full,
            numerals,
            "svgnote:radius"@,
        ));
    }
    if name != "svgnote:n"@ {
        assert(count_of(attrs, "svgnote:n"@) == count_of(full, "svgnote:n"@));
    }
    if name != "svgnote:angle"@ {
        assert(number_of(attrs, numerals, "svgnote:angle"@) == number_of(
            full,
            numerals,
            "svgnote:angle"@,
        ));
    }
    if name != "fill"@ {
        assert(color_of(attrs, numerals, "fill"@, "fill-opacity"@) == color_of(
            full,
            numerals,
            "fill"@,
            "fill-opacity"@,
        ));
    }
}

/// Decoding the attributes that encode a regular polygon gives the polygon
/// back.
pub proof fn lemma_ngon_round_trip(ngon: Ngon, numerals: Numerals)
    requires
        numerals.wf(),
        ngon_writable(ngon, numerals),
    ensures
        ngon_of(ngon_attributes(ngon, numerals), numerals) == Ok::<Ngon, Failure>(ngon),
{
    let attrs = ngon_attributes(ngon, numerals);
    lemma_names();
    assert(ngon_needs(ngon, ngon.position.0));
    assert(ngon_needs(ngon, ngon.position.1));
    assert(ngon_needs(ngon, fraction_of(ngon.stroke.a)));
    assert(ngon_needs(ngon, fraction_of(ngon.fill.a)));
    assert(ngon_needs(ngon, ngon.width));
    assert(ngon_needs(ngon, ngon.angle));
    assert(ngon_needs(ngon, ngon.radius));
    lemma_pair_written(attrs, numerals, "svgnote:position"@, ngon.position.0, ngon.position.1);
    lemma_number_written(attrs, numerals, "stroke-width"@, ngon.width);
    lemma_number_written(attrs, numerals, "svgnote:radius"@, ngon.radius);
    lemma_count_written(attrs, "svgnote:n"@, ngon.n);
    lemma_number_written(attrs, numerals, "svgnote:angle"@, ngon.angle);
    lemma_color_written(attrs, numerals, "fill"@, "fill-opacity"@, ngon.fill);
    lemma_color_written(attrs, numerals, "stroke"@, "stroke-opacity"@, ngon.stroke);
}

} // verus!
