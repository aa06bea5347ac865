use sensorlog::decimal::Decimal;

#[test]
fn decimal_keeps_its_text() {
    let d = Decimal::parse("+45.0").expect("a decimal number");
    assert_eq!(d.as_str(), "+45.0");
    assert_eq!(d.clone(), d);
}

#[test]
fn decimal_refuses_what_is_no_number() {
    assert!(Decimal::parse("").is_none());
    assert!(Decimal::parse("+").is_none());
    assert!(Decimal::parse("1.").is_none());
    assert!(Decimal::parse(".5").is_none());
    assert!(Decimal::parse("1.5C").is_none());
    assert!(Decimal::parse("1 ").is_none());
    assert!(Decimal::parse("--1").is_none());
}

#[test]
fn decimal_accepts_every_form_of_number() {
    for text in ["0", "7", "007", "+1", "-1", "1.0", "+1.25", "-0.5", "123456789012345678901234567890.5"] {
        let d = Decimal::parse(text).expect("a decimal number");
        assert_eq!(d.as_str(), text);
        assert!(text.parse::<f64>().is_ok());
    }
}

#[test]
fn decimal_scale_counts_the_digits_after_the_point() {
    assert_eq!(Decimal::parse("45").unwrap().scale(), 0);
    assert_eq!(Decimal::parse("+45.0").unwrap().scale(), 1);
    assert_eq!(Decimal::parse("-5.25").unwrap().scale(), 2);
    assert_eq!(Decimal::parse("0.000").unwrap().scale(), 3);
}

#[test]
fn decimal_unscaled_is_the_number_without_its_point() {
    assert_eq!(Decimal::parse("45").unwrap().unscaled(), Some(45));
    assert_eq!(Decimal::parse("+45.0").unwrap().unscaled(), Some(450));
    assert_eq!(Decimal::parse("-5.2").unwrap().unscaled(), Some(-52));
    assert_eq!(Decimal::parse("27.8").unwrap().unscaled(), Some(278));
    assert_eq!(Decimal::parse("-0.0").unwrap().unscaled(), Some(0));
    assert_eq!(Decimal::parse("0012.3400").unwrap().unscaled(), Some(123400));
}

#[test]
fn decimal_unscaled_fits_or_is_none() {
    assert_eq!(Decimal::parse("9223372036854775807").unwrap().unscaled(), Some(i64::MAX));
    assert_eq!(Decimal::parse("+922337203685477580.7").unwrap().unscaled(), Some(i64::MAX));
    assert_eq!(Decimal::parse("9223372036854775808").unwrap().unscaled(), None);
    assert_eq!(Decimal::parse("-9223372036854775808").unwrap().unscaled(), Some(i64::MIN));
    assert_eq!(Decimal::parse("-9223372036854775809").unwrap().unscaled(), None);
    assert_eq!(Decimal::parse("-92233720368547758.09").unwrap().unscaled(), None);
    assert_eq!(Decimal::parse("123456789012345678901234567890.5").unwrap().unscaled(), None);
    assert_eq!(Decimal::parse("000000000000000000000000000001").unwrap().unscaled(), Some(1));
}

#[test]
fn decimal_value_is_unscaled_over_a_power_of_ten() {
    for text in ["+45.0", "-5.2", "27.8", "1200", "+1.05", "-0.125"] {
        let d = Decimal::parse(text).unwrap();
        let exact = d.unscaled().unwrap() as f64 / 10f64.powi(d.scale() as i32);
        let float: f64 = text.parse().unwrap();
        assert!((exact - float).abs() < 1e-12, "{}", text);
    }
}
