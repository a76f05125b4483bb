use fba::args::parse_interval;
use fba::console::console_candidates;

#[test]
fn parses_plain_numerals() {
    assert_eq!(parse_interval("5"), Ok(5));
    assert_eq!(parse_interval("0"), Ok(0));
    assert_eq!(parse_interval("12345"), Ok(12345));
    assert_eq!(parse_interval("0007"), Ok(7));
}

#[test]
fn accepts_leading_plus_sign() {
    assert_eq!(parse_interval("+17"), Ok(17));
    assert_eq!(parse_interval("+0"), Ok(0));
}

#[test]
fn parses_the_largest_value_and_rejects_overflow() {
    assert_eq!(parse_interval("18446744073709551615"), Ok(u64::MAX));
    assert_eq!(parse_interval("18446744073709551616"), Err("not a number"));
    assert_eq!(parse_interval("99999999999999999999999"), Err("not a number"));
}

#[test]
fn rejects_non_numerals() {
    assert_eq!(parse_interval(""), Err("not a number"));
    assert_eq!(parse_interval("+"), Err("not a number"));
    assert_eq!(parse_interval("abc"), Err("not a number"));
    assert_eq!(parse_interval("12x"), Err("not a number"));
    assert_eq!(parse_interval("-3"), Err("not a number"));
    assert_eq!(parse_interval(" 5"), Err("not a number"));
    assert_eq!(parse_interval("1 2"), Err("not a number"));
    assert_eq!(parse_interval("++1"), Err("not a number"));
}

#[test]
fn console_device_candidates_in_order() {
    let c = console_candidates();
    assert_eq!(c, vec!["/dev/tty0", "/dev/tty", "/dev/console"]);
}
