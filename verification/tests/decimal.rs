use patches::decimal::{parse_numeral, write_numeral};

#[test]
fn reads_numerals() {
    assert_eq!(parse_numeral("0"), Some(0));
    assert_eq!(parse_numeral("7"), Some(7));
    assert_eq!(parse_numeral("10"), Some(10));
    assert_eq!(parse_numeral("1234567890"), Some(1234567890));
    assert_eq!(parse_numeral("18446744073709551615"), Some(u64::MAX));
}

#[test]
fn refuses_what_is_no_numeral() {
    assert_eq!(parse_numeral(""), None);
    assert_eq!(parse_numeral("00"), None);
    assert_eq!(parse_numeral("01"), None);
    assert_eq!(parse_numeral("1a"), None);
    assert_eq!(parse_numeral("a1"), None);
    assert_eq!(parse_numeral("-1"), None);
    assert_eq!(parse_numeral("+1"), None);
    assert_eq!(parse_numeral(" 1"), None);
    assert_eq!(parse_numeral("\u{661}"), None);
}

#[test]
fn refuses_what_does_not_fit() {
    assert_eq!(parse_numeral("18446744073709551616"), None);
    assert_eq!(parse_numeral("18446744073709551620"), None);
    assert_eq!(parse_numeral("100000000000000000000"), None);
}

#[test]
fn writes_numerals() {
    assert_eq!(write_numeral(0), "0");
    assert_eq!(write_numeral(9), "9");
    assert_eq!(write_numeral(10), "10");
    assert_eq!(write_numeral(1234567890), "1234567890");
    assert_eq!(write_numeral(u64::MAX), "18446744073709551615");
}

#[test]
fn reads_what_it_wrote() {
    for n in [0u64, 1, 9, 10, 99, 100, 4096, 1 << 32, u64::MAX - 1, u64::MAX] {
        assert_eq!(parse_numeral(&write_numeral(n)), Some(n));
    }
}
