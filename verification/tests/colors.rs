use svgnotes::colors::Color;

#[test]
fn encode_color() {
    assert_eq!(Color::rgb(0, 0, 0).to_string(), "#000000FF");
    assert_eq!(Color::rgb(0, 0, 0).to_string_na(), "#000000");
    assert_eq!(Color::rgba(0x12, 0x0F, 0xF0, 0xAA).to_string(), "#120FF0AA");
    assert_eq!(
        Color::rgba(0x12, 0x0F, 0xF0, 0xAA).to_string_na(),
        "#120FF0"
    );
}

#[test]
fn color_parsing() {
    // BLACK
    assert!(matches!(
        Color::from_str("#000"),
        Ok(Color {
            r: 0,
            g: 0,
            b: 0,
            a: 0xFF
        })
    ));
    assert!(matches!(
        Color::from_str("#000F"),
        Ok(Color {
            r: 0,
            g: 0,
            b: 0,
            a: 0xFF
        })
    ));
    assert!(matches!(
        Color::from_str("#000000"),
        Ok(Color {
            r: 0,
            g: 0,
            b: 0,
            a: 0xFF
        })
    ));
    assert!(matches!(
        Color::from_str("#000000FF"),
        Ok(Color {
            r: 0,
            g: 0,
            b: 0,
            a: 0xFF
        })
    ));
    // Transparent
    assert!(matches!(
        Color::from_str("#0000"),
        Ok(Color {
            r: 0,
            g: 0,
            b: 0,
            a: 0
        })
    ));
    // RED
    assert!(matches!(
        Color::from_str("#F00"),
        Ok(Color {
            r: 0xFF,
            g: 0,
            b: 0,
            a: 0xFF
        })
    ));
    assert!(matches!(
        Color::from_str("#400"),
        Ok(Color {
            r: 0x44,
            g: 0,
            b: 0,
            a: 0xFF
        })
    ));
    assert!(matches!(
        Color::from_str("#440000"),
        Ok(Color {
            r: 0x44,
            g: 0,
            b: 0,
            a: 0xFF
        })
    ));
    // RAND
    assert!(matches!(
        Color::from_str("#16813554"),
        Ok(Color {
            r: 0x16,
            g: 0x81,
            b: 0x35,
            a: 0x54
        })
    ));
}

#[test]
fn parse_inverts_encode() {
    for r in [0u8, 1, 15, 16, 0x7F, 0x80, 0xAB, 0xFF] {
        for a in 0..=255u8 {
            let c = Color::rgba(r, a, r ^ a, a);
            assert_eq!(Color::from_str(&c.to_string()), Ok(c));
            assert_eq!(
                Color::from_str(&c.to_string_na()),
                Ok(Color::rgba(c.r, c.g, c.b, 255))
            );
        }
    }
}

#[test]
fn color_text_is_upper_case_with_eight_digits() {
    assert_eq!(Color::rgba(0xab, 0xcd, 0xef, 0x01).to_string(), "#ABCDEF01");
    assert_eq!(Color::rgba(0xab, 0xcd, 0xef, 0x01).to_string_na(), "#ABCDEF");
}

#[test]
fn color_digits_may_be_lower_case() {
    assert_eq!(Color::from_str("#abcdef"), Ok(Color::rgb(0xAB, 0xCD, 0xEF)));
    assert_eq!(Color::from_str("#aBc9"), Ok(Color::rgba(0xAA, 0xBB, 0xCC, 0x99)));
}

#[test]
fn color_rejects_other_lengths() {
    assert_eq!(Color::from_str(""), Err(()));
    assert_eq!(Color::from_str("#"), Err(()));
    assert_eq!(Color::from_str("#1"), Err(()));
    assert_eq!(Color::from_str("#12"), Err(()));
    assert_eq!(Color::from_str("#12345"), Err(()));
    assert_eq!(Color::from_str("#1234567"), Err(()));
    assert_eq!(Color::from_str("#123456789"), Err(()));
}

#[test]
fn color_rejects_what_is_no_hex_digit() {
    assert_eq!(Color::from_str("#12345G"), Err(()));
    assert_eq!(Color::from_str("#+F+F+F+F"), Err(()));
    assert_eq!(Color::from_str("#-1-1-1"), Err(()));
    assert_eq!(Color::from_str("# 12"), Err(()));
    assert_eq!(Color::from_str("#\u{e9}\u{e9}\u{e9}"), Err(()));
}

#[test]
fn color_needs_its_hash() {
    assert_eq!(Color::from_str("0000"), Err(()));
    assert_eq!(Color::from_str("X000"), Err(()));
    assert_eq!(Color::from_str("1234567"), Err(()));
}
