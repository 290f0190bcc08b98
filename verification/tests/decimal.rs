use winsudo::decimal::{decimal, parse_u32};

fn wide(s: &str) -> Vec<u16> {
    s.encode_utf16().collect()
}

#[test]
fn decimal_of_zero() {
    assert_eq!(decimal(0), wide("0"));
}

#[test]
fn decimal_of_numbers() {
    assert_eq!(decimal(7), wide("7"));
    assert_eq!(decimal(10), wide("10"));
    assert_eq!(decimal(1234), wide("1234"));
    assert_eq!(decimal(4294967295), wide("4294967295"));
}

#[test]
fn parse_plain_numbers() {
    assert_eq!(parse_u32(&wide("0")), Some(0));
    assert_eq!(parse_u32(&wide("1234")), Some(1234));
    assert_eq!(parse_u32(&wide("007")), Some(7));
    assert_eq!(parse_u32(&wide("4294967295")), Some(4294967295));
}

#[test]
fn parse_accepts_plus_sign() {
    assert_eq!(parse_u32(&wide("+12")), Some(12));
}

#[test]
fn parse_rejects_out_of_range() {
    assert_eq!(parse_u32(&wide("4294967296")), None);
    assert_eq!(parse_u32(&wide("99999999999999999999999999")), None);
}

#[test]
fn parse_rejects_malformed() {
    assert_eq!(parse_u32(&wide("")), None);
    assert_eq!(parse_u32(&wide("+")), None);
    assert_eq!(parse_u32(&wide("-1")), None);
    assert_eq!(parse_u32(&wide("12a")), None);
    assert_eq!(parse_u32(&wide("1 2")), None);
    assert_eq!(parse_u32(&wide("++1")), None);
    assert_eq!(parse_u32(&wide("0x10")), None);
}

#[test]
fn parse_agrees_with_std() {
    for s in ["0", "42", "+42", "0042", "4294967295", "4294967296", "", "+", "-0", "1e3", " 1"] {
        assert_eq!(parse_u32(&wide(s)), s.parse::<u32>().ok());
    }
}

#[test]
fn parse_reads_back_decimal() {
    for n in [0u32, 1, 9, 10, 99, 100, 65535, 65536, 4294967294, 4294967295] {
        assert_eq!(parse_u32(&decimal(n)), Some(n));
        assert_eq!(decimal(n), wide(&n.to_string()));
    }
}
