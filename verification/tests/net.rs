use openportal::error::Error;
use openportal::net::{decimal_text, spans_all_v6, IpAddress, IpOrRange};

#[test]
fn ipv4_addresses_are_read_as_dotted_quads() {
    assert_eq!(IpAddress::parse_v4("127.0.0.1"), Some(IpAddress::V4(0x7f000001)));
    assert_eq!(IpAddress::parse_v4("0.0.0.0"), Some(IpAddress::V4(0)));
    assert_eq!(IpAddress::parse_v4("255.255.255.255"), Some(IpAddress::V4(u32::MAX)));
    assert_eq!(IpAddress::parse_v4("10.0.1.5"), Some(IpAddress::V4(0x0a000105)));
    for bad in [
        "", "1.2.3", "1.2.3.4.5", "256.0.0.1", "1.2.3.04", "01.2.3.4", "1..3.4", "1.2.3.4 ",
        " 1.2.3.4", "1.2.3.x", "1.2.3.-4", "1.2.3.1000", "::1", "1.2.3.4/8",
    ] {
        assert_eq!(IpAddress::parse_v4(bad), None, "{:?}", bad);
    }
}

#[test]
fn addresses_are_written_as_they_are_read() {
    for text in ["127.0.0.1", "0.0.0.0", "255.255.255.255", "10.0.1.5", "192.168.100.9"] {
        let address = IpAddress::parse_v4(text).unwrap();
        assert_eq!(address.to_string(), text);
    }
    assert_eq!(IpAddress::V6(1).to_string(), "::1");
    assert_eq!(
        IpAddress::V6(0x20010db8000000000000000000000001).to_string(),
        "2001:db8::1"
    );
    assert_eq!(decimal_text(0), "0");
    assert_eq!(decimal_text(8080), "8080");
    assert_eq!(decimal_text(4294967295), "4294967295");
    assert_eq!(decimal_text(u64::MAX), "18446744073709551615");
}

#[test]
fn addresses_of_both_kinds_are_read() {
    assert_eq!(IpAddress::parse("10.0.1.5"), Some(IpAddress::V4(0x0a000105)));
    assert_eq!(IpAddress::parse("::1"), Some(IpAddress::V6(1)));
    assert_eq!(
        IpAddress::parse("2001:db8::1"),
        Some(IpAddress::V6(0x20010db8000000000000000000000001))
    );
    assert_eq!(IpAddress::parse("::ffff:1.2.3.4"), Some(IpAddress::V6(0xffff01020304)));
    for bad in ["", "localhost", "10.0.0.0/8", "::/64", "1:2", "g::1", "1.2.3.256"] {
        assert_eq!(IpAddress::parse(bad), None, "{:?}", bad);
    }
    let address = IpAddress::parse("2001:db8::1").unwrap();
    assert_eq!(IpAddress::parse(&address.to_string()), Some(address));
}

#[test]
fn blocks_allow_the_addresses_within() {
    let block = IpOrRange::new("10.0.0.0/24").unwrap();
    assert_eq!(block, IpOrRange::Range("10.0.0.0/24".to_string()));
    assert!(block.matches(&IpAddress::V4(0x0a000000)));
    assert!(block.matches(&IpAddress::V4(0x0a0000ff)));
    assert!(!block.matches(&IpAddress::V4(0x0a000105)));
    assert!(!block.matches(&IpAddress::V4(0x09ffffff)));
    let single = IpOrRange::new("10.0.1.5").unwrap();
    assert_eq!(single, IpOrRange::IP(IpAddress::V4(0x0a000105)));
    assert!(single.matches(&IpAddress::V4(0x0a000105)));
    assert!(!single.matches(&IpAddress::V4(0x0a000106)));
    assert!(!single.matches(&IpAddress::V6(0x0a000105)));
    let all = IpOrRange::new("0.0.0.0/0").unwrap();
    assert!(all.matches(&IpAddress::V4(0)));
    assert!(all.matches(&IpAddress::V4(u32::MAX)));
}

#[test]
fn ipv6_blocks_allow_the_addresses_within() {
    let block = IpOrRange::new("fe80::/10").unwrap();
    assert!(block.matches(&IpAddress::V6(0xfe800000000000000000000000000001)));
    assert!(!block.matches(&IpAddress::V6(0xfec00000000000000000000000000001)));
    let one = IpOrRange::new("::1").unwrap();
    assert_eq!(one, IpOrRange::IP(IpAddress::V6(1)));
    assert_eq!(one.to_string(), "::1");
    assert!(one.matches(&IpAddress::V6(1)));
    assert!(!one.matches(&IpAddress::V6(2)));
    assert!(!one.matches(&IpAddress::V4(1)));
    let written = IpOrRange::Range("::1".to_string());
    assert!(written.matches(&IpAddress::V6(1)));
    assert!(!written.matches(&IpAddress::V6(2)));
}

#[test]
fn what_is_no_address_and_no_block_is_refused() {
    for bad in ["", "localhost", "127.*.*.*", "10.0.0.0/33", "1.2.3.4/x", "::/129", "10.0.0.256"] {
        assert!(matches!(IpOrRange::new(bad), Err(Error::Parse(_))), "{:?}", bad);
    }
}

#[test]
fn the_whole_of_ipv6_is_not_a_block() {
    for text in ["::/0", "::/00", "1::/0", "fe80::1/000"] {
        assert!(spans_all_v6(text), "{:?}", text);
        assert!(matches!(IpOrRange::new(text), Err(Error::Parse(_))), "{:?}", text);
        assert!(!IpOrRange::Range(text.to_string()).matches(&IpAddress::V6(1)));
    }
    for text in ["::/1", "0.0.0.0/0", "::/10", "::0", "::", "::/", "/0", "::/0/0", "::/0x"] {
        assert!(!spans_all_v6(text), "{:?}", text);
    }
    assert!(IpOrRange::new("::/1").is_ok());
    // a block that is no block allows nobody
    assert!(!IpOrRange::Range("nonsense".to_string()).matches(&IpAddress::V4(1)));
}
