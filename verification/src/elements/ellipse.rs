use vstd::prelude::*;
use vstd::std_specs::cmp::PartialEqSpecImpl;

use crate::attributes::Attributes;
use crate::attributes::color_of;
use crate::attributes::lemma_color_written;
use crate::attributes::lemma_names;
use crate::attributes::lemma_number_written;
use crate::attributes::number_of;
use crate::attributes::required;
use crate::colors::Color;
use crate::colors::opaque_color_text;
use crate::DocumentError;
use crate::Failure;
use crate::numerals::Numerals;
use crate::scalar::fraction_of;
use crate::scalar::Scalar;
use super::FromAttributes;

verus! {

/// A circle, written as an ellipse with one radius for both axes.
#[derive(Debug, Clone, Copy)]
pub struct Ellipse {
    pub position: (Scalar, Scalar),
    pub stroke: Color,
    pub fill: Color,
    pub width: Scalar,
    pub radius: Scalar,
}

impl View for Ellipse {
    type V = Ellipse;

    open spec fn view(&self) -> Ellipse {
        *self
    }
}

impl PartialEq for Ellipse {
    fn eq(&self, other: &Self) -> (r: bool) {
        self.position.0 == other.position.0 && self.position.1 == other.position.1 && self.stroke
            == other.stroke && self.fill == other.fill && self.width == other.width && self.radius
            == other.radius
    }
}

impl PartialEqSpecImpl for Ellipse {
    open spec fn obeys_eq_spec() -> bool {
        true
    }

    open spec fn eq_spec(&self, other: &Self) -> bool {
        *self == *other
    }
}

/// The circle that the attributes of an `ellipse` tag write.
pub open spec fn ellipse_of(attrs: Map<Seq<char>, Seq<char>>, numerals: Numerals) -> Result<
    Ellipse,
    Failure,
> {
    match number_of(attrs, numerals, "cx"@) {
        Err(e) => Err(e),
        Ok(x) => match number_of(attrs, numerals, "cy"@) {
            Err(e) => Err(e),
            Ok(y) => match number_of(attrs, numerals, "stroke-width"@) {
                Err(e) => Err(e),
                Ok(width) => match number_of(attrs, numerals, "rx"@) {
                    Err(e) => Err(e),
                    Ok(radius) => match color_of(attrs, numerals, "fill"@, "fill-opacity"@) {
                        Err(e) => Err(e),
                        Ok(fill) => match color_of(attrs, numerals, "stroke"@, "stroke-opacity"@) {
                            Err(e) => Err(e),
                            Ok(stroke) => Ok(
                                Ellipse { position: (x, y), stroke, fill, width, radius },
                            ),
                        },
                    },
                },
            },
        },
    }
}

/// Whether a circle cannot be decoded without the attribute `name`.
pub open spec fn ellipse_requires(name: Seq<char>) -> bool {
    name == "cx"@ || name == "cy"@ || name == "stroke-width"@ || name == "rx"@ || name == "fill"@
        || name == "stroke"@
}

/// Whether encoding the circle writes the scalar `x`.
pub open spec fn ellipse_needs(ellipse: Ellipse, x: Scalar) -> bool {
    ||| x == ellipse.position.0
    ||| x == ellipse.position.1
    ||| x == fraction_of(ellipse.stroke.a)
    ||| x == fraction_of(ellipse.fill.a)
    ||| x == ellipse.width
    ||| x == ellipse.radius
}

/// Whether the table has a text for every scalar that encoding the circle
/// writes.
pub open spec fn ellipse_writable(ellipse: Ellipse, numerals: Numerals) -> bool {
    forall|x: Scalar| #[trigger] ellipse_needs(ellipse, x) ==> numerals.has_value(x)
}

/// The attributes that encode a circle.
pub open spec fn ellipse_attributes(ellipse: Ellipse, numerals: Numerals) -> Map<
    Seq<char>,
    Seq<char>,
> {
    Map::<Seq<char>, Seq<char>>::empty().insert("stroke"@, opaque_color_text(ellipse.stroke)).insert(
        "stroke-opacity"@,
        numerals.written(fraction_of(ellipse.stroke.a)),
    ).insert("fill"@, opaque_color_text(ellipse.fill)).insert(
        "fill-opacity"@,
        numerals.written(fraction_of(ellipse.fill.a)),
    ).insert("stroke-width"@, numerals.written(ellipse.width)).insert(
        "cx"@,
        numerals.written(ellipse.position.0),
    ).insert("cy"@, numerals.written(ellipse.position.1)).insert(
        "rx"@,
        numerals.written(ellipse.radius),
    ).insert("ry"@, numerals.written(ellipse.radius))
}

impl FromAttributes for Ellipse {
    open spec fn decoded(attrs: Map<Seq<char>, Seq<char>>, numerals: Numerals) -> Result<
        Ellipse,
        Failure,
    > {
        ellipse_of(attrs, numerals)
    }

    /// Reads a circle from the attributes of an `ellipse` tag.
    fn from_attributes(attributes: &Attributes, numerals: &Numerals) -> (r: Result<
        Ellipse,
        DocumentError,
    >) {
        let x = attributes.number("cx", numerals)?;
        let y = attributes.number("cy", numerals)?;
        let width = attributes.number("stroke-width", numerals)?;
        let radius = attributes.number("rx", numerals)?;
        let fill = attributes.color("fill", "fill-opacity", numerals)?;
        let stroke = attributes.color("stroke", "stroke-opacity", numerals)?;
        Ok(Ellipse { position: (x, y), stroke, fill, width, radius })
    }
}

impl Ellipse {
    /// The scalars that encoding the circle writes.
    pub fn scalars(&self) -> (r: Vec<Scalar>)
        ensures
            forall|x: Scalar| ellipse_needs(*self, x) <==> r@.contains(x),
    {
        let mut out: Vec<Scalar> = Vec::new();
        out.push(self.position.0);
        out.push(self.position.1);
        out.push(self.stroke.opacity());
        out.push(self.fill.opacity());
        out.push(self.width);
        out.push(self.radius);
        proof {
            assert(out@[0] == self.position.0);
            assert(out@[1] == self.position.1);
            assert(out@[2] == fraction_of(self.stroke.a));
            assert(out@[3] == fraction_of(self.fill.a));
            assert(out@[4] == self.width);
            assert(out@[5] == self.radius);
        }
        out
    }

    /// The attributes that encode the circle, if the table has a text for
    /// every scalar that they write.
    pub fn attributes(&self, numerals: &Numerals) -> (r: Option<Attributes>)
        ensures
            match r {
                Some(attributes) => ellipse_writable(*self, *numerals) && attributes@
                    == ellipse_attributes(*self, *numerals),
                None => !ellipse_writable(*self, *numerals),
            },
    {
        let stroke = self.stroke.opacity();
        let fill = self.fill.opacity();
        assert(ellipse_needs(*self, self.position.0));
        assert(ellipse_needs(*self, self.position.1));
        assert(ellipse_needs(*self, stroke));
        assert(ellipse_needs(*self, fill));
        assert(ellipse_needs(*self, self.width));
        assert(ellipse_needs(*self, self.radius));
        let stroke_opacity = numerals.write(stroke)?;
        let fill_opacity = numerals.write(fill)?;
        let width = numerals.write(self.width)?;
        let x = numerals.write(self.position.0)?;
        let y = numerals.write(self.position.1)?;
        let radius = numerals.write(self.radius)?;
        let mut attributes = Attributes::new();
        attributes.insert("stroke", self.stroke.to_string_na().as_str());
        attributes.insert("stroke-opacity", stroke_opacity.as_str());
        attributes.insert("fill", self.fill.to_string_na().as_str());
        attributes.insert("fill-opacity", fill_opacity.as_str());
        attributes.insert("stroke-width", width.as_str());
        attributes.insert("cx", x.as_str());
        attributes.insert("cy", y.as_str());
        attributes.insert("rx", radius.as_str());
        attributes.insert("ry", radius.as_str());
        Some(attributes)
    }
}

/// A tag that lacks one required attribute of a circle, and that decodes
/// once the attribute is there, fails with that attribute reported as
/// missing.
pub proof fn lemma_ellipse_lacks(
    attrs: Map<Seq<char>, Seq<char>>,
    numerals: Numerals,
    name: Seq<char>,
    value: Seq<char>,
)
    requires
        ellipse_requires(name),
        !attrs.contains_key(name),
        ellipse_of(attrs.insert(name, value), numerals) is Ok,
    ensures
        ellipse_of(attrs, numerals) == Err::<Ellipse, Failure>(Failure::MissingAttribute(name)),
{
    lemma_names();
    let full = attrs.insert(name, value);
    if name != "cx"@ {
        assert(number_of(attrs, numerals, "cx"@) == number_of(full, numerals, "cx"@));
    }
    if name != "cy"@ {
        assert(number_of(attrs, numerals, "cy"@) == number_of(full, numerals, "cy"@));
    }
    if name != "stroke-width"@ {
        assert(number_of(attrs, numerals, "stroke-width"@) == number_of(
            full,
            numerals,
            "stroke-width"@,
        ));
    }
    if name != "rx"@ {
        assert(number_of(attrs, numerals, "rx"@) == number_of(full, numerals, "rx"@));
    }
    if name != "fill"@ {
        assert(color_of(attrs, numerals, "fill"@, "fill-opacity"@) == color_of(
            full,
            numerals,
            "fill"@,
            "fill-opacity"@,
        ));
    }
}

/// Decoding the attributes that encode a circle gives the circle back.
pub proof fn lemma_ellipse_round_trip(ellipse: Ellipse, numerals: Numerals)
    requires
        numerals.wf(),
        ellipse_writable(ellipse, numerals),
    ensures
        ellipse_of(ellipse_attributes(ellipse, numerals), numerals) == Ok::<Ellipse, Failure>(
            ellipse,
        ),
{
    let attrs = ellipse_attributes(ellipse, numerals);
    lemma_names();
    assert(ellipse_needs(ellipse, ellipse.position.0));
    assert(ellipse_needs(ellipse, ellipse.position.1));
    assert(ellipse_needs(ellipse, fraction_of(ellipse.stroke.a)));
    assert(ellipse_needs(ellipse, fraction_of(ellipse.fill.a)));
    assert(ellipse_needs(ellipse, ellipse.width));
    assert(ellipse_needs(ellipse, ellipse.radius));
    lemma_number_written(attrs, numerals, "cx"@, ellipse.position.0);
    lemma_number_written(attrs, numerals, "cy"@, ellipse.position.1);
    lemma_number_written(attrs, numerals, "stroke-width"@, ellipse.width);
    lemma_number_written(attrs, numerals, "rx"@, ellipse.radius);
    lemma_color_written(attrs, numerals, "fill"@, "fill-opacity"@, ellipse.fill);
    lemma_color_written(attrs, numerals, "stroke"@, "stroke-opacity"@, ellipse.stroke);
}

} // verus!
