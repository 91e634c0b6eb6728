use wc3proxy::addr::{
    format_addr, format_ip, parse_addr, parse_canonical_u16, parse_ipv4, parse_port_text,
    IpAddress, SocketAddress,
};

fn ip(a: u8, b: u8, c: u8, d: u8) -> IpAddress {
    IpAddress { a, b, c, d }
}

#[test]
fn format_ip_examples() {
    assert_eq!(format_ip(&ip(192, 168, 1, 50)), "192.168.1.50");
    assert_eq!(format_ip(&ip(0, 0, 0, 0)), "0.0.0.0");
    assert_eq!(format_ip(&ip(255, 255, 255, 255)), "255.255.255.255");
    assert_eq!(format_ip(&ip(9, 9, 9, 9)), "9.9.9.9");
}

#[test]
fn format_addr_examples() {
    let t = SocketAddress { ip: ip(192, 168, 1, 50), port: 6112 };
    assert_eq!(format_addr(&t), "192.168.1.50:6112");
    let t2 = SocketAddress { ip: ip(1, 2, 3, 4), port: 0 };
    assert_eq!(format_addr(&t2), "1.2.3.4:0");
    let t3 = SocketAddress { ip: ip(10, 0, 0, 1), port: 65535 };
    assert_eq!(format_addr(&t3), "10.0.0.1:65535");
}

#[test]
fn parse_ipv4_accepts_dotted_quads() {
    assert_eq!(parse_ipv4("192.168.1.50"), Some(ip(192, 168, 1, 50)));
    assert_eq!(parse_ipv4("0.0.0.0"), Some(ip(0, 0, 0, 0)));
    assert_eq!(parse_ipv4("255.255.255.255"), Some(ip(255, 255, 255, 255)));
}

#[test]
fn parse_ipv4_rejects_malformed_text() {
    assert_eq!(parse_ipv4(""), None);
    assert_eq!(parse_ipv4("abc"), None);
    assert_eq!(parse_ipv4("1.2.3"), None);
    assert_eq!(parse_ipv4("1.2.3.4.5"), None);
    assert_eq!(parse_ipv4("256.1.1.1"), None);
    assert_eq!(parse_ipv4("1.2.3.256"), None);
    assert_eq!(parse_ipv4("01.2.3.4"), None);
    assert_eq!(parse_ipv4("1.2.3.04"), None);
    assert_eq!(parse_ipv4("1..2.3"), None);
    assert_eq!(parse_ipv4("1.2.3.4 "), None);
    assert_eq!(parse_ipv4("+1.2.3.4"), None);
}

#[test]
fn parse_addr_round_trips_canonical_text() {
    let cases = [
        SocketAddress { ip: ip(192, 168, 1, 50), port: 6112 },
        SocketAddress { ip: ip(0, 0, 0, 0), port: 0 },
        SocketAddress { ip: ip(255, 255, 255, 255), port: 65535 },
    ];
    for t in cases {
        assert_eq!(parse_addr(&format_addr(&t)), Some(t));
    }
}

#[test]
fn parse_addr_rejects_malformed_text() {
    assert_eq!(parse_addr(""), None);
    assert_eq!(parse_addr("1.2.3.4"), None);
    assert_eq!(parse_addr("1.2.3.4:"), None);
    assert_eq!(parse_addr(":6112"), None);
    assert_eq!(parse_addr("1.2.3.4:65536"), None);
    assert_eq!(parse_addr("1.2.3.4:06112"), None);
    assert_eq!(parse_addr("1.2.3:6112"), None);
    assert_eq!(parse_addr("1.2.3.4:6112:1"), None);
}

#[test]
fn parse_port_text_follows_number_grammar() {
    assert_eq!(parse_port_text("6112"), Some(6112));
    assert_eq!(parse_port_text("0"), Some(0));
    assert_eq!(parse_port_text("+80"), Some(80));
    assert_eq!(parse_port_text("0080"), Some(80));
    assert_eq!(parse_port_text("65535"), Some(65535));
    assert_eq!(parse_port_text("65536"), None);
    assert_eq!(parse_port_text("99999999999999999999"), None);
    assert_eq!(parse_port_text(""), None);
    assert_eq!(parse_port_text("+"), None);
    assert_eq!(parse_port_text("++1"), None);
    assert_eq!(parse_port_text("12a"), None);
    assert_eq!(parse_port_text("-1"), None);
}

#[test]
fn parse_canonical_u16_rejects_leading_zeros() {
    assert_eq!(parse_canonical_u16("6112"), Some(6112));
    assert_eq!(parse_canonical_u16("0"), Some(0));
    assert_eq!(parse_canonical_u16("007"), None);
    assert_eq!(parse_canonical_u16("65536"), None);
    assert_eq!(parse_canonical_u16("+1"), None);
}
