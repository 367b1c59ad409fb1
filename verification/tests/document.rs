use svgnotes::colors::Color;
use svgnotes::composer::render;
use svgnotes::elements::Element;
use svgnotes::elements::Ellipse;
use svgnotes::elements::Line;
use svgnotes::elements::LinePoint;
use svgnotes::elements::Ngon;
use svgnotes::elems_eq;
use svgnotes::numerals::Numerals;
use svgnotes::parser::number_texts;
use svgnotes::parser::read_tags;
use svgnotes::parser::Tag;
use svgnotes::scalar::Scalar;
use svgnotes::Document;
use svgnotes::DocumentError;

fn scalar(x: f32) -> Scalar {
    Scalar::from_bits(x.to_bits())
}

fn numerals_for_tags(tags: &Vec<Tag>) -> Numerals {
    let mut numerals = Numerals::new();
    for text in number_texts(tags) {
        if let Ok(x) = text.parse::<f32>() {
            numerals.insert(&text, scalar(x));
        }
    }
    numerals
}

fn numerals_for_document(document: &Document) -> Numerals {
    let mut numerals = Numerals::new();
    for x in document.scalars() {
        numerals.insert(&f32::from_bits(x.to_bits()).to_string(), x);
    }
    numerals
}

fn from_str(s: &str) -> Result<Document, DocumentError> {
    let tags = read_tags(s);
    let numerals = numerals_for_tags(&tags);
    Document::decode(&tags, &numerals)
}

fn to_string(document: &Document) -> String {
    let numerals = numerals_for_document(document);
    render(&document.encode(&numerals).unwrap())
}

#[test]
fn parse() {
    let s = r##"
<?xml version="1.0" encoding="UTF-8" standalone="no"?>
<!-- Created with SVGNotes (https://github.com/ModProg/SVGNotesLib) -->

<svg
   width="100mm"
   height="100mm"
   viewBox="0 0 100 100"
   version="1.1"
   xmlns="http://www.w3.org/2000/svg"
   xmlns:svg="http://www.w3.org/2000/svg"
   xmlns:svgnote="https://github.com/ModProg/SVGNotesLib"
   svgnote:version="0.1"
>
  <g id="foreground">
    <path
       fill="#000000"
       stroke="#000000"
       fill-opacity="0"
       stroke-opacity="1"
       stroke-width="4"
       stroke-linecap="round"
       stroke-linejoin="round"
       d="M 10,10 60,30 50,60 90,10"
       svgnote:tool="pen"
       svgnote:width="4"
       svgnote:points="10,10,1 60,30,4 50,60,3 90,10,2"
    />
    <polygon
       fill="#000000"
       stroke="#FF0000"
       stroke-width="3"
       fill-opacity="0"
       stroke-opacity="1"
       stroke-linecap="round"
       stroke-linejoin="round"
       points="15"
       svgnote:tool="ngon"
       svgnote:n="4"
       svgnote:angle="0"
       svgnote:position="65,65"
       svgnote:radius="20"
    />
    <ellipse
       fill="#FFFF00"
       stroke="#FFFF00"
       fill-opacity="0.3333333333"
       stroke-opacity="1"
       stroke-width="2"
       cx="65"
       cy="65"
       rx="10"
       ry="10"
    />
  </g>
</svg>
        "##;
    let d = from_str(s).unwrap();
    assert_eq!(
        d.elements.len(),
        3,
        "There should be {} elements in {:?}",
        3,
        d.elements
    );
    assert!(matches!(
        &d.elements[0],
        Element::Line(Line {
            width,
            points,
            color: Color {
                r: 0,
                g: 0,
                b: 0,
                a: 0xFF
            }
        }, _)
    if *width == scalar(4.0) && elems_eq(&points, &[(10.0,10.0,1.0),(60.0,30.0,4.0),(50.0, 60.0,3.0),(90.0, 10.0,2.0)].iter().map(|&(x,y,w)| LinePoint(scalar(x),scalar(y),scalar(w))).collect::<Vec<_>>())));
    assert!(matches!(
        &d.elements[1],
        Element::Ngon(Ngon {
            position,
            width,
            angle,
            n: 4,
            radius,
            fill: Color {
                r: 0,
                g: 0,
                b: 0,
                a: 0
            },
            stroke: Color {
                r: 0xFF,
                g: 0,
                b: 0,
                a: 0xFF
            }
        }, _)
        if
            *position == (scalar(65.0), scalar(65.0)) &&
            *width == scalar(3.0) &&
            *angle == scalar(0.0) &&
            *radius == scalar(20.0)
    ));
    assert!(matches!(
        &d.elements[2],
        Element::Ellipse(Ellipse {
            position,
            width,
            radius,
            fill: Color {
                r: 0xFF,
                g: 0xFF,
                b: 0,
                a: 0x55
            },
            stroke: Color {
                r: 0xFF,
                g: 0xFF,
                b: 0,
                a: 0xFF
            }
        }, _)
        if
            *position == (scalar(65.0), scalar(65.0)) &&
            *width == scalar(2.0) &&
            *radius == scalar(10.0)
    ));
    assert_eq!(d.elements[0].id(), 4);
    assert_eq!(d.elements[1].id(), 5);
    assert_eq!(d.elements[2].id(), 6);
}

#[test]
fn encoding() {
    let doc = Document {
        elements: vec![
            Element::Line(
                Line {
                    color: Color::rgb(0xFF, 0, 0),
                    width: scalar(5.0),
                    points: vec![
                        LinePoint(scalar(0.), scalar(0.), scalar(0.)),
                        LinePoint(scalar(2.), scalar(10.), scalar(1.)),
                        LinePoint(scalar(1.2313), scalar(10.213), scalar(1.123)),
                    ],
                },
                3,
            ),
            Element::Ngon(
                Ngon {
                    position: (scalar(3.0), scalar(12.0)),
                    stroke: Color::rgba(13, 24, 51, 123),
                    fill: Color::rgba(0xFF, 0xFF, 0xFF, 0),
                    width: scalar(15.),
                    angle: scalar(std::f32::consts::PI / 4.0),
                    n: 9,
                    radius: scalar(5.),
                },
                4,
            ),
            Element::Ellipse(
                Ellipse {
                    position: (scalar(10.), scalar(2.)),
                    stroke: Color::rgb(0xFF, 0xFF, 12),
                    fill: Color::rgba(0xFF, 0, 0, 0xFE),
                    width: scalar(13.2),
                    radius: scalar(12.2),
                },
                5,
            ),
        ],
    };

    let string = to_string(&doc);

    println!("{}", string);

    let parsed = from_str(&string).unwrap();

    assert_eq!(doc, parsed);
}

fn tag(name: &str, pairs: &[(&str, &str)]) -> Tag {
    let mut attributes = svgnotes::attributes::Attributes::new();
    for (n, v) in pairs {
        attributes.insert(n, v);
    }
    Tag { name: name.to_string(), attributes }
}

const CIRCLE: [(&str, &str); 6] = [
    ("cx", "1"),
    ("cy", "2"),
    ("stroke-width", "3"),
    ("rx", "4"),
    ("fill", "#000"),
    ("stroke", "#FFF"),
];

fn circle() -> Ellipse {
    Ellipse {
        position: (scalar(1.0), scalar(2.0)),
        stroke: Color::rgb(0xFF, 0xFF, 0xFF),
        fill: Color::rgb(0, 0, 0),
        width: scalar(3.0),
        radius: scalar(4.0),
    }
}

#[test]
fn opening_tags_are_read() {
    let tags = read_tags(
        "<?xml version=\"1.0\"?>\n<!-- note -->\n<!DOCTYPE svg>\n<svg a='1' b=\"two\">text\n<g>\n<path d=\"M 1,2\"/>\n</g>\n<broken\n</svg>",
    );
    let names: Vec<&str> = tags.iter().map(|t| t.name.as_str()).collect();
    assert_eq!(names, vec!["svg", "g", "path"]);
    assert_eq!(tags[0].attributes.get("a"), Some("1"));
    assert_eq!(tags[0].attributes.get("b"), Some("two"));
    assert_eq!(tags[0].attributes.len(), 2);
    assert_eq!(tags[1].attributes.len(), 0);
    assert_eq!(tags[2].attributes.get("d"), Some("M 1,2"));
}

#[test]
fn no_tags_in_text_without_tags() {
    assert_eq!(read_tags("").len(), 0);
    assert_eq!(read_tags("just text").len(), 0);
    assert_eq!(read_tags("</svg>").len(), 0);
    assert_eq!(read_tags("<!-- <path/> -->").len(), 0);
}

#[test]
fn number_texts_of_tags() {
    let tags = vec![
        tag("svg", &[("viewBox", "0 0 100 100")]),
        tag("ellipse", &[("cx", "65"), ("fill", "#FFFF00")]),
    ];
    assert_eq!(number_texts(&tags), vec!["0", "0", "100", "100", "65", "#FFFF00"]);
}

#[test]
fn identifiers_count_opening_tags_from_two() {
    let tags = vec![
        tag("ellipse", &CIRCLE),
        tag("g", &[]),
        tag("ellipse", &CIRCLE),
        tag("rect", &CIRCLE),
        tag("ellipse", &CIRCLE),
    ];
    let d = Document::decode(&tags, &numerals_for_tags(&tags)).unwrap();
    assert_eq!(
        d,
        Document {
            elements: vec![
                Element::Ellipse(circle(), 2),
                Element::Ellipse(circle(), 4),
                Element::Ellipse(circle(), 6),
            ]
        }
    );
}

#[test]
fn closing_tags_take_no_identifier() {
    let d = from_str(
        "<svg><ellipse cx='1' cy='2' stroke-width='3' rx='4' fill='#000' stroke='#FFF'></ellipse><ellipse cx='1' cy='2' stroke-width='3' rx='4' fill='#000' stroke='#FFF'/></svg>",
    )
    .unwrap();
    assert_eq!(
        d,
        Document {
            elements: vec![Element::Ellipse(circle(), 3), Element::Ellipse(circle(), 4)]
        }
    );
}

#[test]
fn empty_document() {
    assert_eq!(from_str(""), Ok(Document { elements: vec![] }));
    assert_eq!(from_str("<svg></svg>"), Ok(Document { elements: vec![] }));
    assert_eq!(Document::decode(&vec![], &Numerals::new()), Ok(Document { elements: vec![] }));
}

#[test]
fn first_error_ends_decoding() {
    let tags = vec![
        tag("ellipse", &CIRCLE),
        tag("ellipse", &[("cx", "1")]),
        tag("path", &[]),
    ];
    assert_eq!(
        Document::decode(&tags, &numerals_for_tags(&tags)),
        Err(DocumentError::MissingAttribute("cy".to_string()))
    );
    assert_eq!(
        from_str("<svg><path/><ellipse/></svg>"),
        Err(DocumentError::MissingAttribute("svgnote:tool".to_string()))
    );
    assert_eq!(
        from_str("<polyline stroke='#000' fill='#000' points='1,2 3' stroke-width='1'/>"),
        Err(DocumentError::InvalidPoint("3".to_string()))
    );
    assert_eq!(
        from_str("<ellipse cx='1' cy='2px' stroke-width='3' rx='4' fill='#000' stroke='#FFF'/>"),
        Err(DocumentError::InvalidAttribute("cy".to_string(), "2px".to_string()))
    );
}

#[test]
fn numbers_are_read_from_the_table_only() {
    let tags = vec![tag("ellipse", &CIRCLE)];
    assert_eq!(
        Document::decode(&tags, &Numerals::new()),
        Err(DocumentError::InvalidAttribute("cx".to_string(), "1".to_string()))
    );
}

#[test]
fn document_is_written() {
    let document = Document { elements: vec![Element::Ellipse(circle(), 3)] };
    assert_eq!(
        to_string(&document),
        "<?xml version=\"1.0\" encoding=\"UTF-8\" standalone=\"no\"?>\n\
         <!-- Created with SVGNotes (https://github.com/ModProg/SVGNotesLib) -->\n\
         \n\
         <svg height=\"100mm\" svgnote:version=\"0.1\" viewBox=\"0 0 2000 2000\" width=\"100mm\" xmlns=\"http://www.w3.org/2000/svg\" xmlns:svgnote=\"https://github.com/ModProg/SVGNotesLib\">\n\
         <ellipse cx=\"1\" cy=\"2\" fill=\"#000000\" fill-opacity=\"1\" rx=\"4\" ry=\"4\" stroke=\"#FFFFFF\" stroke-opacity=\"1\" stroke-width=\"3\"/>\n\
         </svg>"
    );
}

#[test]
fn document_without_elements_is_written() {
    assert_eq!(
        render(&vec![]),
        "<?xml version=\"1.0\" encoding=\"UTF-8\" standalone=\"no\"?>\n\
         <!-- Created with SVGNotes (https://github.com/ModProg/SVGNotesLib) -->\n\
         \n\
         <svg height=\"100mm\" svgnote:version=\"0.1\" viewBox=\"0 0 2000 2000\" width=\"100mm\" xmlns=\"http://www.w3.org/2000/svg\" xmlns:svgnote=\"https://github.com/ModProg/SVGNotesLib\"/>"
    );
}

#[test]
fn tags_are_written_in_order_with_their_attributes() {
    let text = render(&vec![
        tag("path", &[("b", "2"), ("a", "1"), ("b", "3")]),
        tag("g", &[]),
        tag("text", &[("q", "\"<&>'")]),
    ]);
    let lines: Vec<&str> = text.lines().collect();
    assert_eq!(lines[4], "<path a=\"1\" b=\"3\"/>");
    assert_eq!(lines[5], "<g/>");
    assert_eq!(lines[6], "<text q=\"&quot;&lt;&amp;&gt;&apos;\"/>");
    assert_eq!(lines[7], "</svg>");
    assert_eq!(lines.len(), 8);
}

#[test]
fn written_documents_are_read_back() {
    let document = Document {
        elements: vec![
            Element::Polyline(
                svgnotes::elements::Polyline {
                    stroke: Color::rgba(1, 2, 3, 4),
                    fill: Color::rgba(5, 6, 7, 8),
                    width: scalar(0.1),
                    points: vec![
                        svgnotes::elements::PolylinePoint(scalar(-1.5), scalar(1.0e-7)),
                        svgnotes::elements::PolylinePoint(scalar(3.0e20), scalar(-0.0)),
                    ],
                },
                3,
            ),
            Element::Line(
                Line { color: Color::rgba(0, 0, 0, 77), width: scalar(1.0), points: vec![] },
                4,
            ),
            Element::Ngon(
                Ngon {
                    position: (scalar(f32::MAX), scalar(f32::MIN_POSITIVE)),
                    stroke: Color::rgba(0, 0, 0, 1),
                    fill: Color::rgba(0, 0, 0, 254),
                    width: scalar(0.0),
                    angle: scalar(-3.1415927),
                    n: 0,
                    radius: scalar(7.0),
                },
                5,
            ),
        ],
    };
    assert_eq!(from_str(&to_string(&document)), Ok(document));
}

#[test]
fn documents_are_equal_position_by_position() {
    let a = Element::Ellipse(circle(), 2);
    let b = Element::Ellipse(circle(), 3);
    let ab = Document { elements: vec![a.clone(), b.clone()] };
    let ba = Document { elements: vec![b.clone(), a.clone()] };
    assert_eq!(ab, Document { elements: vec![a.clone(), b.clone()] });
    assert_ne!(ab, ba);
    assert_ne!(ab, Document { elements: vec![a.clone()] });
    assert!(elems_eq(&[1, 2, 3], &[1, 2, 3]));
    assert!(!elems_eq(&[1, 2, 3], &[1, 2]));
    assert!(!elems_eq(&[1, 2, 3], &[1, 3, 2]));
    assert!(elems_eq::<u8>(&[], &[]));
}

#[test]
fn scalars_of_a_document() {
    let document = Document {
        elements: vec![Element::Ellipse(circle(), 2), Element::Ellipse(circle(), 3)],
    };
    let one = [1.0f32, 2.0, 1.0, 1.0, 3.0, 4.0].map(scalar).to_vec();
    assert_eq!(document.scalars(), [one.clone(), one].concat());
    assert!(document.encode(&Numerals::new()).is_none());
    assert_eq!(document.encode(&numerals_for_document(&document)).unwrap().len(), 2);
    assert_eq!(Document { elements: vec![] }.scalars(), vec![]);
}

#[test]
fn errors_have_messages() {
    assert_eq!(
        DocumentError::InvalidAttribute("cx".to_string(), "2px".to_string()).to_string(),
        "Invalid cx: `2px`"
    );
    assert_eq!(DocumentError::MissingAttribute("cy".to_string()).to_string(), "Missing cy");
    assert_eq!(
        DocumentError::InvalidPoint("1,2".to_string()).to_string(),
        "Invalid Point: `1,2`"
    );
    assert_eq!(DocumentError::UnknownEvent.to_string(), "Unknown Event");
}
