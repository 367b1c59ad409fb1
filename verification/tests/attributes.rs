use svgnotes::attributes::Attributes;
use svgnotes::colors::Color;
use svgnotes::numerals::Numerals;
use svgnotes::scalar::Scalar;
use svgnotes::DocumentError;

fn scalar(x: f32) -> Scalar {
    Scalar::from_bits(x.to_bits())
}

fn numerals(texts: &[&str]) -> Numerals {
    let mut numerals = Numerals::new();
    for text in texts {
        numerals.insert(text, scalar(text.parse::<f32>().unwrap()));
    }
    numerals
}

fn attributes(pairs: &[(&str, &str)]) -> Attributes {
    let mut attributes = Attributes::new();
    for (name, value) in pairs {
        attributes.insert(name, value);
    }
    attributes
}

#[test]
fn attributes_are_a_map() {
    let mut a = Attributes::new();
    assert_eq!(a.len(), 0);
    assert_eq!(a.get("x"), None);
    a.insert("x", "1");
    a.insert("y", "2");
    assert_eq!(a.get("x"), Some("1"));
    assert_eq!(a.get("y"), Some("2"));
    assert_eq!(a.get("z"), None);
    a.insert("x", "3");
    assert_eq!(a.get("x"), Some("3"));
    assert_eq!(a.len(), 3);
    assert_eq!(a.name_at(2), "x");
    assert_eq!(a.value_at(2), "3");
}

#[test]
fn attributes_from_pairs() {
    let a = Attributes::from_pairs(vec![
        ("a".to_string(), "1".to_string()),
        ("b".to_string(), "2".to_string()),
    ]);
    assert_eq!(a.get("a"), Some("1"));
    assert_eq!(a.get("b"), Some("2"));
    assert_eq!(a.len(), 2);
}

#[test]
fn required_attribute() {
    let a = attributes(&[("x", "1")]);
    assert_eq!(a.require("x"), Ok("1"));
    assert_eq!(
        a.require("y"),
        Err(DocumentError::MissingAttribute("y".to_string()))
    );
}

#[test]
fn number_attribute() {
    let n = numerals(&["4", "0.5"]);
    let a = attributes(&[("w", "4"), ("bad", "four"), ("spaced", " 4")]);
    assert_eq!(a.number("w", &n), Ok(scalar(4.0)));
    assert_eq!(
        a.number("bad", &n),
        Err(DocumentError::InvalidAttribute("bad".to_string(), "four".to_string()))
    );
    assert_eq!(
        a.number("spaced", &n),
        Err(DocumentError::InvalidAttribute("spaced".to_string(), " 4".to_string()))
    );
    assert_eq!(
        a.number("none", &n),
        Err(DocumentError::MissingAttribute("none".to_string()))
    );
}

#[test]
fn count_attribute() {
    let a = attributes(&[("n", "4"), ("big", "256"), ("neg", "-1")]);
    assert_eq!(a.count("n"), Ok(4));
    assert_eq!(
        a.count("big"),
        Err(DocumentError::InvalidAttribute("big".to_string(), "256".to_string()))
    );
    assert_eq!(
        a.count("neg"),
        Err(DocumentError::InvalidAttribute("neg".to_string(), "-1".to_string()))
    );
    assert_eq!(
        a.count("none"),
        Err(DocumentError::MissingAttribute("none".to_string()))
    );
}

#[test]
fn pair_attribute() {
    let n = numerals(&["65", "1.5"]);
    let a = attributes(&[
        ("p", "65,1.5"),
        ("one", "65"),
        ("three", "65,65,65"),
        ("bad", "65,x"),
        ("empty", ""),
    ]);
    assert_eq!(a.pair("p", &n), Ok((scalar(65.0), scalar(1.5))));
    for (name, value) in [("one", "65"), ("three", "65,65,65"), ("bad", "65,x"), ("empty", "")] {
        assert_eq!(
            a.pair(name, &n),
            Err(DocumentError::InvalidAttribute(name.to_string(), value.to_string()))
        );
    }
    assert_eq!(
        a.pair("none", &n),
        Err(DocumentError::MissingAttribute("none".to_string()))
    );
}

#[test]
fn color_attribute() {
    let n = numerals(&["0", "1", "0.5"]);
    let a = attributes(&[
        ("fill", "#102030"),
        ("fill-opacity", "0.5"),
        ("stroke", "#10203040"),
        ("short", "#123"),
        ("bad", "red"),
    ]);
    assert_eq!(a.color("fill", "fill-opacity", &n), Ok(Color::rgba(0x10, 0x20, 0x30, 128)));
    assert_eq!(
        a.color("stroke", "stroke-opacity", &n),
        Ok(Color::rgba(0x10, 0x20, 0x30, 0x40))
    );
    assert_eq!(
        a.color("short", "short-opacity", &n),
        Ok(Color::rgba(0x11, 0x22, 0x33, 0xFF))
    );
    assert_eq!(
        a.color("bad", "fill-opacity", &n),
        Err(DocumentError::InvalidAttribute("bad".to_string(), "red".to_string()))
    );
    assert_eq!(
        a.color("none", "fill-opacity", &n),
        Err(DocumentError::MissingAttribute("none".to_string()))
    );
}

#[test]
fn opacity_that_cannot_be_read_is_ignored() {
    let n = numerals(&["0.5"]);
    let a = attributes(&[("fill", "#10203040"), ("fill-opacity", "half")]);
    assert_eq!(a.color("fill", "fill-opacity", &n), Ok(Color::rgba(0x10, 0x20, 0x30, 0x40)));
}

#[test]
fn number_texts_of_attributes() {
    let a = attributes(&[
        ("stroke", "#000000"),
        ("svgnote:points", "10,10,1 60,30,4"),
        ("svgnote:width", "4"),
        ("empty", ""),
    ]);
    assert_eq!(
        a.number_texts(),
        vec!["#000000", "10", "10", "1", "60", "30", "4", "4"]
    );
}
