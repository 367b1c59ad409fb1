use svgnotes::numerals::check_numeral;
use svgnotes::numerals::Numerals;
use svgnotes::scalar::Scalar;

fn scalar(x: f32) -> Scalar {
    Scalar::from_bits(x.to_bits())
}

#[test]
fn numerals_are_read_and_written() {
    let mut numerals = Numerals::new();
    assert_eq!(numerals.len(), 0);
    assert!(numerals.insert("4", scalar(4.0)));
    assert!(numerals.insert("4.0", scalar(4.0)));
    assert!(numerals.insert("0.5", scalar(0.5)));
    assert_eq!(numerals.len(), 3);
    assert_eq!(numerals.read("4"), Some(scalar(4.0)));
    assert_eq!(numerals.read("4.0"), Some(scalar(4.0)));
    assert_eq!(numerals.read("0.5"), Some(scalar(0.5)));
    assert_eq!(numerals.read("5"), None);
    assert_eq!(numerals.write(scalar(4.0)), Some("4".to_string()));
    assert_eq!(numerals.write(scalar(0.5)), Some("0.5".to_string()));
    assert_eq!(numerals.write(scalar(5.0)), None);
}

#[test]
fn a_text_denotes_one_scalar() {
    let mut numerals = Numerals::new();
    assert!(numerals.insert("1", scalar(1.0)));
    assert!(!numerals.insert("1", scalar(2.0)));
    assert_eq!(numerals.len(), 1);
    assert_eq!(numerals.read("1"), Some(scalar(1.0)));
    assert_eq!(numerals.write(scalar(2.0)), None);
}

#[test]
fn what_is_written_is_read_back() {
    let mut numerals = Numerals::new();
    let values = [0.0f32, -0.0, 1.5, -2.25, 1.0e-8, 3.4e38, f32::INFINITY, 1.2313];
    for x in values {
        numerals.insert(&x.to_string(), scalar(x));
    }
    for x in values {
        let text = numerals.write(scalar(x)).unwrap();
        assert_eq!(numerals.read(&text), Some(scalar(x)));
    }
}

#[test]
fn separators_are_no_numerals() {
    let mut numerals = Numerals::new();
    assert!(!numerals.insert("", scalar(0.0)));
    assert!(!numerals.insert("1,2", scalar(1.0)));
    assert!(!numerals.insert(" 1", scalar(1.0)));
    assert!(!numerals.insert("1\t", scalar(1.0)));
    assert!(!numerals.insert("1\n2", scalar(1.0)));
    assert_eq!(numerals.len(), 0);
    assert!(check_numeral("-1.5e3"));
    assert!(check_numeral("NaN"));
    assert!(!check_numeral(""));
    assert!(!check_numeral(","));
    assert!(!check_numeral("1 "));
}
