use lms_discovery::port::parse_port;

#[test]
fn port_9000_is_read() {
    assert_eq!(parse_port(b"9000"), Some(9000u16));
}

#[test]
fn port_70000_is_out_of_range() {
    assert_eq!(parse_port(b"70000"), None);
}

#[test]
fn port_range_ends_at_65535() {
    assert_eq!(parse_port(b"65535"), Some(65535));
    assert_eq!(parse_port(b"65536"), None);
    assert_eq!(parse_port(b"0"), Some(0));
    assert_eq!(parse_port(b"1"), Some(1));
    assert_eq!(parse_port(b"99999"), None);
    assert_eq!(parse_port(b"4294967296"), None);
    assert_eq!(parse_port(b"4294976296"), None);
    assert_eq!(parse_port(b"18446744073709551616"), None);
}

#[test]
fn port_may_have_leading_zeros() {
    assert_eq!(parse_port(b"09000"), Some(9000));
    assert_eq!(parse_port(b"000000000000000000000000000065535"), Some(65535));
    assert_eq!(parse_port(b"000000000000000000000000000065536"), None);
    assert_eq!(parse_port(b"000"), Some(0));
}

#[test]
fn port_may_have_a_plus_sign() {
    assert_eq!(parse_port(b"+9000"), Some(9000));
    assert_eq!(parse_port(b"+0"), Some(0));
    assert_eq!(parse_port(b"+"), None);
    assert_eq!(parse_port(b"++1"), None);
    assert_eq!(parse_port(b"1+"), None);
}

#[test]
fn port_needs_digits_only() {
    assert_eq!(parse_port(b""), None);
    assert_eq!(parse_port(b"-1"), None);
    assert_eq!(parse_port(b" 9000"), None);
    assert_eq!(parse_port(b"9000 "), None);
    assert_eq!(parse_port(b"90a0"), None);
    assert_eq!(parse_port(b"9_000"), None);
    assert_eq!(parse_port(b"0x50"), None);
    assert_eq!(parse_port(b"9000\0"), None);
    assert_eq!(parse_port(b"/"), None);
    assert_eq!(parse_port(b":"), None);
    assert_eq!(parse_port("\u{664}".as_bytes()), None);
}

#[test]
fn port_agrees_with_the_standard_parser() {
    let samples: [&str; 12] = [
        "0", "7", "80", "+443", "9000", "65535", "65536", "070000", "", "+", "-0", "12 ",
    ];
    for text in samples {
        assert_eq!(parse_port(text.as_bytes()), text.parse::<u16>().ok(), "{:?}", text);
    }
}
