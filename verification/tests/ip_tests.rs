use cdu::ip::{format_ipv4, parse_ipv4, Ipv4};

#[test]
fn parse_accepts_canonical_addresses() {
    assert_eq!(parse_ipv4("1.2.3.4"), Some(Ipv4 { a: 1, b: 2, c: 3, d: 4 }));
    assert_eq!(parse_ipv4("0.0.0.0"), Some(Ipv4 { a: 0, b: 0, c: 0, d: 0 }));
    assert_eq!(
        parse_ipv4("255.255.255.255"),
        Some(Ipv4 { a: 255, b: 255, c: 255, d: 255 })
    );
    assert_eq!(parse_ipv4("93.184.216.34"), Some(Ipv4 { a: 93, b: 184, c: 216, d: 34 }));
}

#[test]
fn parse_rejects_non_addresses() {
    assert_eq!(parse_ipv4(""), None);
    assert_eq!(parse_ipv4("1.2.3"), None);
    assert_eq!(parse_ipv4("1.2.3.4.5"), None);
    assert_eq!(parse_ipv4("256.1.1.1"), None);
    assert_eq!(parse_ipv4("01.2.3.4"), None);
    assert_eq!(parse_ipv4("1.2.3.04"), None);
    assert_eq!(parse_ipv4(" 1.2.3.4"), None);
    assert_eq!(parse_ipv4("1.2.3.4 "), None);
    assert_eq!(parse_ipv4("1..2.3"), None);
    assert_eq!(parse_ipv4("a.b.c.d"), None);
    assert_eq!(parse_ipv4("1.2.3.1000"), None);
}

#[test]
fn format_is_canonical_text() {
    assert_eq!(format_ipv4(&Ipv4 { a: 5, b: 6, c: 7, d: 8 }), "5.6.7.8");
    assert_eq!(format_ipv4(&Ipv4 { a: 0, b: 10, c: 100, d: 250 }), "0.10.100.250");
    assert_eq!(
        format_ipv4(&Ipv4 { a: 255, b: 255, c: 255, d: 255 }),
        "255.255.255.255"
    );
}

#[test]
fn format_then_parse_returns_the_address() {
    let cases = [
        Ipv4 { a: 0, b: 0, c: 0, d: 0 },
        Ipv4 { a: 9, b: 10, c: 99, d: 100 },
        Ipv4 { a: 192, b: 168, c: 1, d: 254 },
        Ipv4 { a: 255, b: 0, c: 127, d: 1 },
    ];
    for ip in cases {
        assert_eq!(parse_ipv4(format_ipv4(&ip).as_str()), Some(ip));
    }
}
