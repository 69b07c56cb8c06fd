use goodshop::price::Price;

fn price(text: &str) -> Price {
    Price::parse(text).expect("a price text")
}

#[test]
fn minor_units_of_nine_ninety_nine() {
    assert_eq!(price("9.99").to_minor_units(), Some(999));
}

#[test]
fn minor_units_truncate_half_a_cent() {
    assert_eq!(price("0.005").to_minor_units(), Some(0));
}

#[test]
fn minor_units_truncate_toward_zero_when_negative() {
    assert_eq!(price("-1.999").to_minor_units(), Some(-199));
    assert_eq!(price("-0.005").to_minor_units(), Some(0));
}

#[test]
fn minor_units_of_whole_and_one_place() {
    assert_eq!(price("12").to_minor_units(), Some(1200));
    assert_eq!(price("9.5").to_minor_units(), Some(950));
    assert_eq!(price("0.29").to_minor_units(), Some(29));
}

#[test]
fn minor_units_at_the_edges_of_i64() {
    assert_eq!(price("92233720368547758.07").to_minor_units(), Some(i64::MAX));
    assert_eq!(price("92233720368547758.08").to_minor_units(), None);
    assert_eq!(price("-92233720368547758.08").to_minor_units(), Some(i64::MIN));
    assert_eq!(price("-92233720368547758.09").to_minor_units(), None);
    assert_eq!(price("184467440737095516").to_minor_units(), None);
}

#[test]
fn minor_units_with_a_long_fraction() {
    let p = Price { negative: false, units: 123456789, scale: 40 };
    assert_eq!(p.to_minor_units(), Some(0));
    assert_eq!(price("1.23456789").to_minor_units(), Some(123));
}

#[test]
fn parse_reads_sign_units_and_scale() {
    assert_eq!(Price::parse("9.99"), Some(Price { negative: false, units: 999, scale: 2 }));
    assert_eq!(Price::parse("-0.005"), Some(Price { negative: true, units: 5, scale: 3 }));
    assert_eq!(Price::parse("007"), Some(Price { negative: false, units: 7, scale: 0 }));
    assert_eq!(
        Price::parse("18446744073709551615"),
        Some(Price { negative: false, units: u64::MAX, scale: 0 })
    );
}

#[test]
fn parse_refuses_other_shapes() {
    for text in ["", "-", "1.", ".5", "1e5", "abc", "1.2.3", "+1", " 1", "1,5", "--1"] {
        assert_eq!(Price::parse(text), None, "{text}");
    }
}

#[test]
fn parse_refuses_digits_past_u64() {
    assert_eq!(Price::parse("18446744073709551616"), None);
    assert_eq!(Price::parse("1844674407370955161.6"), None);
}

#[test]
fn to_text_writes_the_scale() {
    assert_eq!(Price { negative: false, units: 95, scale: 1 }.to_text(), "9.5");
    assert_eq!(Price { negative: false, units: 5, scale: 3 }.to_text(), "0.005");
    assert_eq!(Price { negative: false, units: 12, scale: 0 }.to_text(), "12");
    assert_eq!(Price { negative: true, units: 1999, scale: 3 }.to_text(), "-1.999");
    assert_eq!(Price { negative: false, units: 0, scale: 2 }.to_text(), "0.00");
    assert_eq!(Price { negative: false, units: u64::MAX, scale: 0 }.to_text(), "18446744073709551615");
}

#[test]
fn text_round_trips() {
    for text in ["9.5", "0.005", "12", "-1.999", "0.00", "1700000000.25"] {
        let p = price(text);
        assert_eq!(p.to_text(), text);
        assert_eq!(Price::parse(&p.to_text()), Some(p));
    }
}
