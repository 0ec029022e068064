use products::decimal::Decimal;

#[test]
fn parses_plain_decimals() {
    assert_eq!(Decimal::parse("10.5"), Some(Decimal::new(false, 105, 1)));
    assert_eq!(Decimal::parse("-0.25"), Some(Decimal::new(true, 25, 2)));
    assert_eq!(Decimal::parse("+7"), Some(Decimal::new(false, 7, 0)));
    assert_eq!(Decimal::parse("1.000"), Some(Decimal::new(false, 1, 0)));
    assert_eq!(Decimal::parse(".5"), Some(Decimal::new(false, 5, 1)));
    assert_eq!(Decimal::parse("5."), Some(Decimal::new(false, 5, 0)));
    assert_eq!(Decimal::parse("-0.0"), Some(Decimal::new(false, 0, 0)));
    assert_eq!(
        Decimal::parse("18446744073709551615"),
        Some(Decimal::new(false, u64::MAX, 0))
    );
}

#[test]
fn rejects_other_texts() {
    for text in ["", "-", ".", "1.2.3", "1e5", "abc", " 1", "18446744073709551616", "NaN"] {
        assert_eq!(Decimal::parse(text), None, "{}", text);
    }
}

#[test]
fn canonical_form_drops_trailing_zeros() {
    let d = Decimal::new(true, 1500, 3);
    assert_eq!((d.negative, d.magnitude, d.scale), (true, 15, 1));
    let zero = Decimal::new(true, 0, 4);
    assert_eq!((zero.negative, zero.magnitude, zero.scale), (false, 0, 0));
}

#[test]
fn renders_without_exponent() {
    assert_eq!(Decimal::new(false, 15, 1).to_text(), "1.5");
    assert_eq!(Decimal::new(false, 10, 1).to_text(), "1");
    assert_eq!(Decimal::new(true, 5, 3).to_text(), "-0.005");
    assert_eq!(Decimal::new(false, 0, 0).to_text(), "0");
    assert_eq!(Decimal::new(false, 12345, 2).to_text(), "123.45");
}

#[test]
fn text_reads_back() {
    for d in [
        Decimal::new(false, 105, 1),
        Decimal::new(true, 1, 5),
        Decimal::new(false, u64::MAX, 7),
        Decimal::new(false, 42, 0),
    ] {
        assert_eq!(Decimal::parse(&d.to_text()), Some(d));
    }
}
