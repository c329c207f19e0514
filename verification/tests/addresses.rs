use dedns::ipv4::{parse_ipv4, Ipv4Address};

#[test]
fn parses_dotted_decimal() {
    assert_eq!(parse_ipv4("127.0.0.1"), Some(Ipv4Address(127, 0, 0, 1)));
    assert_eq!(parse_ipv4("0.0.0.0"), Some(Ipv4Address(0, 0, 0, 0)));
    assert_eq!(parse_ipv4("255.255.255.255"), Some(Ipv4Address(255, 255, 255, 255)));
    assert_eq!(parse_ipv4("10.200.3.99"), Some(Ipv4Address(10, 200, 3, 99)));
}

#[test]
fn rejects_what_is_not_an_address() {
    for text in [
        "", "1.2.3", "1.2.3.4.5", "256.1.1.1", "01.2.3.4", "1.2.3.04", "1..2.3", "1.2.3.4 ",
        " 1.2.3.4", "a.b.c.d", "1.2.3.-4", "1000.1.1.1", "1.2.3.", "١.2.3.4",
    ] {
        assert_eq!(parse_ipv4(text), None, "{text}");
    }
}

#[test]
fn octet_boundaries() {
    assert_eq!(parse_ipv4("9.99.199.249"), Some(Ipv4Address(9, 99, 199, 249)));
    assert_eq!(parse_ipv4("0.10.100.200"), Some(Ipv4Address(0, 10, 100, 200)));
    assert_eq!(parse_ipv4("255.255.255.256"), None);
    assert_eq!(parse_ipv4("00.0.0.0"), None);
    assert_eq!(parse_ipv4("012.1.1.1"), None);
    assert_eq!(parse_ipv4("7.7.7.7."), None);
    assert_eq!(parse_ipv4("1.2.3.4x"), None);
}
