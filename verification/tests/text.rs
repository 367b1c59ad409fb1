use svgnotes::text::chars_of;
use svgnotes::text::read_count;
use svgnotes::text::same_text;
use svgnotes::text::split_fields;
use svgnotes::text::split_pieces;
use svgnotes::text::split_tokens;
use svgnotes::text::string_of;
use svgnotes::text::write_count;

#[test]
fn fields_are_split_at_commas() {
    assert_eq!(split_fields("1,2,3"), vec!["1", "2", "3"]);
    assert_eq!(split_fields("1,2"), vec!["1", "2"]);
    assert_eq!(split_fields("abc"), vec!["abc"]);
    assert_eq!(split_fields(""), vec![""]);
    assert_eq!(split_fields(","), vec!["", ""]);
    assert_eq!(split_fields("1,,2"), vec!["1", "", "2"]);
    assert_eq!(split_fields("1, 2"), vec!["1", " 2"]);
}

#[test]
fn fields_agree_with_std() {
    for s in ["", ",", "a,b", ",a", "a,", "a,,b, c", "10,10,1"] {
        let expected: Vec<String> = s.split(',').map(String::from).collect();
        assert_eq!(split_fields(s), expected);
    }
}

#[test]
fn tokens_are_split_at_white_space() {
    assert_eq!(split_tokens("1,2 3,4"), vec!["1,2", "3,4"]);
    assert_eq!(split_tokens("  a \t b\n\nc\r\x0Cd  "), vec!["a", "b", "c", "d"]);
    assert_eq!(split_tokens(""), Vec::<String>::new());
    assert_eq!(split_tokens("   "), Vec::<String>::new());
    assert_eq!(split_tokens("one"), vec!["one"]);
}

#[test]
fn tokens_agree_with_std() {
    for s in ["", " ", "a b", " a", "a ", "a  b\tc", "10,10,1 60,30,4", "a\u{a0}b"] {
        let expected: Vec<String> = s.split_ascii_whitespace().map(String::from).collect();
        assert_eq!(split_tokens(s), expected);
    }
}

#[test]
fn pieces_are_split_at_both() {
    assert_eq!(split_pieces("10,10,1 60,30,4"), vec!["10", "10", "1", "60", "30", "4"]);
    assert_eq!(split_pieces(" ,, 1 ,"), vec!["1"]);
    assert_eq!(split_pieces("0.5"), vec!["0.5"]);
    assert_eq!(split_pieces(""), Vec::<String>::new());
}

#[test]
fn counts_are_read() {
    assert_eq!(read_count("0"), Some(0));
    assert_eq!(read_count("4"), Some(4));
    assert_eq!(read_count("255"), Some(255));
    assert_eq!(read_count("+5"), Some(5));
    assert_eq!(read_count("007"), Some(7));
    assert_eq!(read_count("0000000000000000000000255"), Some(255));
}

#[test]
fn counts_are_refused() {
    assert_eq!(read_count(""), None);
    assert_eq!(read_count("+"), None);
    assert_eq!(read_count("-1"), None);
    assert_eq!(read_count("-0"), None);
    assert_eq!(read_count("256"), None);
    assert_eq!(read_count("1000"), None);
    assert_eq!(read_count("99999999999999999999999999"), None);
    assert_eq!(read_count("1a"), None);
    assert_eq!(read_count(" 1"), None);
    assert_eq!(read_count("1 "), None);
    assert_eq!(read_count("++1"), None);
    assert_eq!(read_count("4.0"), None);
}

#[test]
fn counts_agree_with_std() {
    for s in ["", "+", "-", "0", "+0", "-0", "12", "255", "256", "0255", "+255", "2 5", "١"] {
        assert_eq!(read_count(s), s.parse::<u8>().ok(), "for {:?}", s);
    }
}

#[test]
fn counts_are_written_and_read_back() {
    assert_eq!(write_count(0), "0");
    assert_eq!(write_count(9), "9");
    assert_eq!(write_count(10), "10");
    assert_eq!(write_count(99), "99");
    assert_eq!(write_count(100), "100");
    assert_eq!(write_count(255), "255");
    for n in 0..=255u8 {
        assert_eq!(write_count(n), n.to_string());
        assert_eq!(read_count(&write_count(n)), Some(n));
    }
}

#[test]
fn characters_and_strings() {
    assert_eq!(chars_of("a\u{e9}b"), vec!['a', '\u{e9}', 'b']);
    assert_eq!(string_of(&vec!['x', 'y']), "xy");
    assert!(same_text("pen", "pen"));
    assert!(!same_text("pen", "pens"));
    assert!(!same_text("pen", "pan"));
}
