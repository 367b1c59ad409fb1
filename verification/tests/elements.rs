use svgnotes::attributes::Attributes;
use svgnotes::colors::Color;
use svgnotes::elements::Element;
use svgnotes::elements::Ellipse;
use svgnotes::elements::FromAttributes;
use svgnotes::elements::Line;
use svgnotes::elements::LinePoint;
use svgnotes::elements::Ngon;
use svgnotes::elements::Polyline;
use svgnotes::elements::PolylinePoint;
use svgnotes::numerals::Numerals;
use svgnotes::parser::Event;
use svgnotes::parser::TagKind;
use svgnotes::scalar::Scalar;
use svgnotes::DocumentError;

fn scalar(x: f32) -> Scalar {
    Scalar::from_bits(x.to_bits())
}

fn table() -> Numerals {
    let mut numerals = Numerals::new();
    for i in 0..=100 {
        let x = i as f32;
        numerals.insert(&x.to_string(), scalar(x));
    }
    for a in 0..=255u8 {
        let x = a as f32 / 255.0;
        numerals.insert(&x.to_string(), scalar(x));
    }
    for x in [0.5f32, 1.5, 2.5, 0.25] {
        numerals.insert(&x.to_string(), scalar(x));
    }
    numerals
}

fn attributes(pairs: &[(&str, &str)]) -> Attributes {
    let mut attributes = Attributes::new();
    for (name, value) in pairs {
        attributes.insert(name, value);
    }
    attributes
}

fn without(pairs: &[(&str, &str)], name: &str) -> Attributes {
    let mut attributes = Attributes::new();
    for (n, value) in pairs {
        if *n != name {
            attributes.insert(n, value);
        }
    }
    attributes
}

fn with(pairs: &[(&str, &str)], name: &str, value: &str) -> Attributes {
    let mut attributes = attributes(pairs);
    attributes.insert(name, value);
    attributes
}

fn missing(name: &str) -> DocumentError {
    DocumentError::MissingAttribute(name.to_string())
}

fn invalid(name: &str, value: &str) -> DocumentError {
    DocumentError::InvalidAttribute(name.to_string(), value.to_string())
}

const LINE: [(&str, &str); 5] = [
    ("svgnote:tool", "pen"),
    ("stroke", "#FF0000"),
    ("stroke-opacity", "1"),
    ("svgnote:points", "10,10,1 60,30,4"),
    ("svgnote:width", "4"),
];

const NGON: [(&str, &str); 10] = [
    ("svgnote:tool", "ngon"),
    ("svgnote:position", "65,65"),
    ("stroke-width", "3"),
    ("svgnote:radius", "20"),
    ("svgnote:n", "4"),
    ("svgnote:angle", "0"),
    ("fill", "#000000"),
    ("fill-opacity", "0"),
    ("stroke", "#FF0000"),
    ("stroke-opacity", "1"),
];

const ELLIPSE: [(&str, &str); 9] = [
    ("cx", "65"),
    ("cy", "64"),
    ("stroke-width", "2"),
    ("rx", "10"),
    ("ry", "10"),
    ("fill", "#FFFF00"),
    ("fill-opacity", "0.5"),
    ("stroke", "#FFFF00"),
    ("stroke-opacity", "1"),
];

const POLYLINE: [(&str, &str); 4] = [
    ("stroke", "#0000FF"),
    ("fill", "#00FF0080"),
    ("points", "1,2 3,4 5,6"),
    ("stroke-width", "1.5"),
];

fn line() -> Line {
    Line {
        color: Color::rgb(0xFF, 0, 0),
        width: scalar(4.0),
        points: vec![
            LinePoint(scalar(10.0), scalar(10.0), scalar(1.0)),
            LinePoint(scalar(60.0), scalar(30.0), scalar(4.0)),
        ],
    }
}

fn ngon() -> Ngon {
    Ngon {
        position: (scalar(65.0), scalar(65.0)),
        stroke: Color::rgb(0xFF, 0, 0),
        fill: Color::rgba(0, 0, 0, 0),
        width: scalar(3.0),
        angle: scalar(0.0),
        n: 4,
        radius: scalar(20.0),
    }
}

fn ellipse() -> Ellipse {
    Ellipse {
        position: (scalar(65.0), scalar(64.0)),
        stroke: Color::rgb(0xFF, 0xFF, 0),
        fill: Color::rgba(0xFF, 0xFF, 0, 128),
        width: scalar(2.0),
        radius: scalar(10.0),
    }
}

fn polyline() -> Polyline {
    Polyline {
        stroke: Color::rgb(0, 0, 0xFF),
        fill: Color::rgba(0, 0xFF, 0, 0x80),
        width: scalar(1.5),
        points: vec![
            PolylinePoint(scalar(1.0), scalar(2.0)),
            PolylinePoint(scalar(3.0), scalar(4.0)),
            PolylinePoint(scalar(5.0), scalar(6.0)),
        ],
    }
}

#[test]
fn line_is_decoded() {
    assert_eq!(Line::from_attributes(&attributes(&LINE), &table()), Ok(line()));
}

#[test]
fn ngon_is_decoded() {
    assert_eq!(Ngon::from_attributes(&attributes(&NGON), &table()), Ok(ngon()));
}

#[test]
fn ellipse_is_decoded() {
    assert_eq!(Ellipse::from_attributes(&attributes(&ELLIPSE), &table()), Ok(ellipse()));
}

#[test]
fn polyline_is_decoded() {
    assert_eq!(Polyline::from_attributes(&attributes(&POLYLINE), &table()), Ok(polyline()));
}

#[test]
fn line_without_points_has_none() {
    let a = with(&LINE, "svgnote:points", "  ");
    assert_eq!(
        Line::from_attributes(&a, &table()),
        Ok(Line { points: vec![], ..line() })
    );
}

#[test]
fn missing_attribute_is_named() {
    for name in ["stroke", "svgnote:points", "svgnote:width"] {
        assert_eq!(Line::from_attributes(&without(&LINE, name), &table()), Err(missing(name)));
    }
    for name in [
        "svgnote:position",
        "stroke-width",
        "svgnote:radius",
        "svgnote:n",
        "svgnote:angle",
        "fill",
        "stroke",
    ] {
        assert_eq!(Ngon::from_attributes(&without(&NGON, name), &table()), Err(missing(name)));
    }
    for name in ["cx", "cy", "stroke-width", "rx", "fill", "stroke"] {
        assert_eq!(
            Ellipse::from_attributes(&without(&ELLIPSE, name), &table()),
            Err(missing(name))
        );
    }
    for name in ["stroke", "fill", "points", "stroke-width"] {
        assert_eq!(
            Polyline::from_attributes(&without(&POLYLINE, name), &table()),
            Err(missing(name))
        );
    }
}

#[test]
fn optional_attributes_may_be_missing() {
    assert_eq!(
        Line::from_attributes(&without(&LINE, "stroke-opacity"), &table()),
        Ok(line())
    );
    assert_eq!(
        Ellipse::from_attributes(&without(&ELLIPSE, "ry"), &table()),
        Ok(ellipse())
    );
    assert_eq!(
        Ellipse::from_attributes(&without(&ELLIPSE, "fill-opacity"), &table()),
        Ok(Ellipse { fill: Color::rgb(0xFF, 0xFF, 0), ..ellipse() })
    );
}

#[test]
fn first_missing_attribute_is_reported() {
    assert_eq!(Line::from_attributes(&Attributes::new(), &table()), Err(missing("stroke")));
    assert_eq!(
        Ngon::from_attributes(&Attributes::new(), &table()),
        Err(missing("svgnote:position"))
    );
    assert_eq!(Ellipse::from_attributes(&Attributes::new(), &table()), Err(missing("cx")));
    assert_eq!(Polyline::from_attributes(&Attributes::new(), &table()), Err(missing("stroke")));
}

#[test]
fn invalid_attribute_is_named_with_its_value() {
    assert_eq!(
        Line::from_attributes(&with(&LINE, "stroke", "red"), &table()),
        Err(invalid("stroke", "red"))
    );
    assert_eq!(
        Line::from_attributes(&with(&LINE, "svgnote:width", "wide"), &table()),
        Err(invalid("svgnote:width", "wide"))
    );
    assert_eq!(
        Ngon::from_attributes(&with(&NGON, "svgnote:position", "65"), &table()),
        Err(invalid("svgnote:position", "65"))
    );
    assert_eq!(
        Ngon::from_attributes(&with(&NGON, "svgnote:position", "65,65,65"), &table()),
        Err(invalid("svgnote:position", "65,65,65"))
    );
    assert_eq!(
        Ngon::from_attributes(&with(&NGON, "svgnote:n", "256"), &table()),
        Err(invalid("svgnote:n", "256"))
    );
    assert_eq!(
        Ngon::from_attributes(&with(&NGON, "svgnote:n", "4.0"), &table()),
        Err(invalid("svgnote:n", "4.0"))
    );
    assert_eq!(
        Ellipse::from_attributes(&with(&ELLIPSE, "rx", ""), &table()),
        Err(invalid("rx", ""))
    );
    assert_eq!(
        Polyline::from_attributes(&with(&POLYLINE, "fill", "#12"), &table()),
        Err(invalid("fill", "#12"))
    );
}

#[test]
fn invalid_point_carries_its_token() {
    assert_eq!(
        Line::from_attributes(&with(&LINE, "svgnote:points", "10,10,1 1,2 60,30,4"), &table()),
        Err(DocumentError::InvalidPoint("1,2".to_string()))
    );
    assert_eq!(
        Line::from_attributes(&with(&LINE, "svgnote:points", "1,2,3,4"), &table()),
        Err(DocumentError::InvalidPoint("1,2,3,4".to_string()))
    );
    assert_eq!(
        Line::from_attributes(&with(&LINE, "svgnote:points", "1,2,x"), &table()),
        Err(DocumentError::InvalidPoint("1,2,x".to_string()))
    );
    assert_eq!(
        Line::from_attributes(&with(&LINE, "svgnote:points", "1,,3 x"), &table()),
        Err(DocumentError::InvalidPoint("1,,3".to_string()))
    );
    assert_eq!(
        Polyline::from_attributes(&with(&POLYLINE, "points", "1,2 1,2,3"), &table()),
        Err(DocumentError::InvalidPoint("1,2,3".to_string()))
    );
    assert_eq!(
        Polyline::from_attributes(&with(&POLYLINE, "points", "15"), &table()),
        Err(DocumentError::InvalidPoint("15".to_string()))
    );
}

#[test]
fn errors_come_in_the_order_of_the_attributes() {
    let mut a = without(&LINE, "svgnote:width");
    a.insert("stroke", "red");
    assert_eq!(Line::from_attributes(&a, &table()), Err(invalid("stroke", "red")));
    let mut b = without(&LINE, "svgnote:width");
    b.insert("svgnote:points", "1,2");
    assert_eq!(
        Line::from_attributes(&b, &table()),
        Err(DocumentError::InvalidPoint("1,2".to_string()))
    );
    let mut c = without(&NGON, "stroke");
    c.insert("svgnote:radius", "r");
    assert_eq!(Ngon::from_attributes(&c, &table()), Err(invalid("svgnote:radius", "r")));
}

#[test]
fn tags_are_dispatched() {
    let n = table();
    assert_eq!(
        Element::decode("path", &attributes(&LINE), 7, &n),
        Ok(Element::Line(line(), 7))
    );
    assert_eq!(
        Element::decode("polygon", &attributes(&NGON), 8, &n),
        Ok(Element::Ngon(ngon(), 8))
    );
    assert_eq!(
        Element::decode("ellipse", &attributes(&ELLIPSE), 9, &n),
        Ok(Element::Ellipse(ellipse(), 9))
    );
    assert_eq!(
        Element::decode("polyline", &attributes(&POLYLINE), -1, &n),
        Ok(Element::Polyline(polyline(), -1))
    );
    assert_eq!(
        Element::decode("svg", &attributes(&LINE), 2, &n),
        Err(DocumentError::UnknownEvent)
    );
    assert_eq!(
        Element::decode("Path", &attributes(&LINE), 2, &n),
        Err(DocumentError::UnknownEvent)
    );
    assert_eq!(Element::decode("path", &attributes(&LINE), 7, &n).unwrap().id(), 7);
}

#[test]
fn tool_decides_for_path_and_polygon() {
    let n = table();
    assert_eq!(
        Element::decode("path", &without(&LINE, "svgnote:tool"), 2, &n),
        Err(missing("svgnote:tool"))
    );
    assert_eq!(
        Element::decode("polygon", &without(&NGON, "svgnote:tool"), 2, &n),
        Err(missing("svgnote:tool"))
    );
    assert_eq!(
        Element::decode("path", &with(&LINE, "svgnote:tool", "ngon"), 2, &n),
        Err(invalid("svgnote:tool", "ngon"))
    );
    assert_eq!(
        Element::decode("polygon", &with(&NGON, "svgnote:tool", "pen"), 2, &n),
        Err(invalid("svgnote:tool", "pen"))
    );
    assert_eq!(
        Element::decode("path", &without(&LINE, "stroke"), 2, &n),
        Err(missing("stroke"))
    );
}

#[test]
fn events_are_decoded() {
    let n = table();
    let tag = |kind| Event::Tag("ellipse".to_string(), kind, attributes(&ELLIPSE));
    assert_eq!(
        Element::from_event(tag(TagKind::Empty), 3, &n),
        Ok(Element::Ellipse(ellipse(), 3))
    );
    assert_eq!(
        Element::from_event(tag(TagKind::Start), 3, &n),
        Ok(Element::Ellipse(ellipse(), 3))
    );
    assert_eq!(Element::from_event(tag(TagKind::End), 3, &n), Err(DocumentError::UnknownEvent));
    for event in [
        Event::Error,
        Event::Text,
        Event::Comment,
        Event::Declaration,
        Event::Instruction,
        Event::Tag("g".to_string(), TagKind::Start, Attributes::new()),
    ] {
        assert_eq!(Element::from_event(event, 3, &n), Err(DocumentError::UnknownEvent));
    }
}

#[test]
fn line_is_encoded() {
    let a = line().attributes(&table()).unwrap();
    assert_eq!(a.get("stroke"), Some("#FF0000"));
    assert_eq!(a.get("stroke-opacity"), Some("1"));
    assert_eq!(a.get("stroke-width"), Some("4"));
    assert_eq!(a.get("svgnote:width"), Some("4"));
    assert_eq!(a.get("svgnote:points"), Some("10,10,1 60,30,4"));
    assert_eq!(a.get("svgnote:tool"), Some("pen"));
    assert_eq!(a.get("fill-opacity"), Some("0"));
    assert_eq!(a.get("stroke-linecap"), Some("round"));
    assert_eq!(a.get("stroke-linejoin"), Some("round"));
    assert_eq!(a.len(), 9);
}

#[test]
fn ngon_is_encoded() {
    let a = ngon().attributes(&table()).unwrap();
    assert_eq!(a.get("svgnote:position"), Some("65,65"));
    assert_eq!(a.get("stroke"), Some("#FF0000"));
    assert_eq!(a.get("fill"), Some("#000000"));
    assert_eq!(a.get("stroke-opacity"), Some("1"));
    assert_eq!(a.get("fill-opacity"), Some("0"));
    assert_eq!(a.get("stroke-width"), Some("3"));
    assert_eq!(a.get("svgnote:angle"), Some("0"));
    assert_eq!(a.get("svgnote:n"), Some("4"));
    assert_eq!(a.get("svgnote:radius"), Some("20"));
    assert_eq!(a.get("svgnote:tool"), Some("ngon"));
    assert_eq!(a.get("stroke-linecap"), Some("round"));
    assert_eq!(a.get("stroke-linejoin"), Some("round"));
    assert_eq!(a.len(), 12);
}

#[test]
fn ellipse_is_encoded() {
    let a = ellipse().attributes(&table()).unwrap();
    assert_eq!(a.get("stroke"), Some("#FFFF00"));
    assert_eq!(a.get("stroke-opacity"), Some("1"));
    assert_eq!(a.get("fill"), Some("#FFFF00"));
    assert_eq!(a.get("fill-opacity"), Some("0.5019608"));
    assert_eq!(a.get("stroke-width"), Some("2"));
    assert_eq!(a.get("cx"), Some("65"));
    assert_eq!(a.get("cy"), Some("64"));
    assert_eq!(a.get("rx"), Some("10"));
    assert_eq!(a.get("ry"), Some("10"));
    assert_eq!(a.len(), 9);
}

#[test]
fn polyline_is_encoded() {
    let a = polyline().attributes(&table()).unwrap();
    assert_eq!(a.get("stroke"), Some("#0000FF"));
    assert_eq!(a.get("fill"), Some("#00FF00"));
    assert_eq!(a.get("stroke-opacity"), Some("1"));
    assert_eq!(a.get("fill-opacity"), Some("0.5019608"));
    assert_eq!(a.get("stroke-width"), Some("1.5"));
    assert_eq!(a.get("points"), Some("1,2 3,4 5,6"));
    assert_eq!(a.get("stroke-linecap"), Some("round"));
    assert_eq!(a.get("stroke-linejoin"), Some("round"));
    assert_eq!(a.len(), 8);
}

#[test]
fn elements_are_encoded_under_their_tags() {
    let n = table();
    for (element, name) in [
        (Element::Line(line(), 2), "path"),
        (Element::Ngon(ngon(), 3), "polygon"),
        (Element::Ellipse(ellipse(), 4), "ellipse"),
        (Element::Polyline(polyline(), 5), "polyline"),
    ] {
        let tag = element.encode(&n).unwrap();
        assert_eq!(tag.name, name);
        assert_eq!(Element::decode(&tag.name, &tag.attributes, element.id(), &n), Ok(element));
    }
}

#[test]
fn nothing_is_encoded_without_its_numerals() {
    let empty = Numerals::new();
    assert!(line().attributes(&empty).is_none());
    assert!(ngon().attributes(&empty).is_none());
    assert!(ellipse().attributes(&empty).is_none());
    assert!(polyline().attributes(&empty).is_none());
    assert!(Element::Line(line(), 2).encode(&empty).is_none());
    let mut some = Numerals::new();
    for x in line().scalars() {
        some.insert(&f32::from_bits(x.to_bits()).to_string(), x);
    }
    assert!(line().attributes(&some).is_some());
    assert!(ngon().attributes(&some).is_none());
}

#[test]
fn scalars_of_shapes() {
    assert_eq!(
        line().scalars(),
        [1.0f32, 4.0, 10.0, 10.0, 1.0, 60.0, 30.0, 4.0].map(scalar).to_vec()
    );
    assert_eq!(
        ngon().scalars(),
        [65.0f32, 65.0, 1.0, 0.0, 3.0, 0.0, 20.0].map(scalar).to_vec()
    );
    assert_eq!(
        ellipse().scalars(),
        [65.0f32, 64.0, 1.0, 128.0 / 255.0, 2.0, 10.0].map(scalar).to_vec()
    );
    assert_eq!(
        polyline().scalars(),
        [1.0f32, 128.0 / 255.0, 1.5, 1.0, 2.0, 3.0, 4.0, 5.0, 6.0].map(scalar).to_vec()
    );
    assert_eq!(Element::Ellipse(ellipse(), 2).scalars(), ellipse().scalars());
}

#[test]
fn shapes_are_equal_field_by_field() {
    assert_eq!(line(), line());
    assert_ne!(line(), Line { width: scalar(5.0), ..line() });
    assert_ne!(line(), Line { points: vec![], ..line() });
    assert_ne!(ngon(), Ngon { n: 5, ..ngon() });
    assert_ne!(ellipse(), Ellipse { position: (scalar(65.0), scalar(65.0)), ..ellipse() });
    assert_ne!(polyline(), Polyline { fill: Color::rgb(0, 0xFF, 0), ..polyline() });
    assert_eq!(Element::Line(line(), 2), Element::Line(line(), 2));
    assert_ne!(Element::Line(line(), 2), Element::Line(line(), 3));
    assert_ne!(Element::Ngon(ngon(), 2), Element::Ellipse(ellipse(), 2));
}
