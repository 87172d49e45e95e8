use bundle_resolver::text::{build_title, to_decimal};

#[test]
fn decimal_text() {
    assert_eq!(to_decimal(0), "0");
    assert_eq!(to_decimal(7), "7");
    assert_eq!(to_decimal(50), "50");
    assert_eq!(to_decimal(1203), "1203");
    assert_eq!(to_decimal(u64::MAX), "18446744073709551615");
}

#[test]
fn title_pluralization() {
    assert_eq!(build_title(1, 5), "My custom bundle: 1 item (-5% off)");
    assert_eq!(build_title(2, 50), "My custom bundle: 2 items (-50% off)");
    assert_eq!(build_title(0, 0), "My custom bundle: 0 items (-0% off)");
    assert_eq!(build_title(12, 100), "My custom bundle: 12 items (-100% off)");
}
