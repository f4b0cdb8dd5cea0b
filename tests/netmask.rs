use dynners::addr::{parse_ip, parse_ipv4, parse_ipv6, IpAddress};
use dynners::netmask::{NetworkParseErr, NetworkV4, NetworkV6};

fn v4(s: &str) -> u32 {
    parse_ipv4(s).unwrap()
}

fn v6(s: &str) -> u128 {
    parse_ipv6(s).unwrap()
}

#[test]
fn netmask_network_v4() {
    let addr = v4("198.51.100.2");
    let network = NetworkV4::from_prefix(addr, 24);

    assert!(network.in_range(v4("198.51.100.0")));
    assert!(network.in_range(v4("198.51.100.1")));
    assert!(network.in_range(v4("198.51.100.98")));
    assert!(network.in_range(v4("198.51.100.255")));
    assert!(!network.in_range(v4("198.51.101.0")));
    assert!(!network.in_range(v4("198.52.101.132")));

    let network = NetworkV4::from_prefix(addr, 8);
    assert!(network.in_range(v4("198.0.0.0")));
    assert!(network.in_range(v4("198.10.0.1")));
    assert!(network.in_range(v4("198.51.100.0")));
    assert!(network.in_range(v4("198.51.100.1")));
    assert!(network.in_range(v4("198.128.100.0")));
    assert!(network.in_range(v4("198.255.100.1")));
    assert!(!network.in_range(v4("199.0.100.0")));
    assert!(!network.in_range(v4("255.255.255.0")));

    let network = NetworkV4::from_prefix(addr, 0);
    assert!(network.in_range(v4("198.0.0.0")));
    assert!(network.in_range(v4("198.10.0.1")));
    assert!(network.in_range(v4("198.51.100.0")));
    assert!(network.in_range(v4("198.51.100.1")));
    assert!(network.in_range(v4("198.128.100.0")));
    assert!(network.in_range(v4("198.255.100.1")));
    assert!(network.in_range(v4("199.0.100.0")));
    assert!(network.in_range(v4("255.255.255.0")));

    let mask = v4("0.0.255.255");
    let network = NetworkV4::from_mask(addr, mask);
    assert!(network.in_range(v4("198.0.100.2")));
    assert!(network.in_range(v4("198.10.100.2")));
    assert!(network.in_range(v4("198.51.100.2")));
    assert!(network.in_range(v4("255.51.100.2")));
    assert!(!network.in_range(v4("198.0.98.0")));
    assert!(!network.in_range(v4("198.10.10.1")));
    assert!(!network.in_range(v4("198.51.100.0")));
    assert!(!network.in_range(v4("255.51.100.1")));
}

#[test]
fn netmask_network_v6() {
    let addr = v6("fe80::1234:cafe:babe:5678");
    let network = NetworkV6::from_prefix(addr, 64);

    assert!(network.in_range(v6("fe80::1")));
    assert!(network.in_range(v6("fe80::ff:1")));
    assert!(network.in_range(v6("fe80::8:7:6:5")));
    assert!(!network.in_range(v6("fe81::1")));
    assert!(!network.in_range(v6("2001:db8:ff::1")));
    assert!(!network.in_range(v6("8:7:6:5:4:3:2:1")));

    let mask = v6("::ffff:ffff:ffff:ffff");
    let network = NetworkV6::from_mask(addr, mask);

    assert!(network.in_range(v6("2001:db8::1234:cafe:babe:5678")));
    assert!(network.in_range(v6("2001:db9::1234:cafe:babe:5678")));
    assert!(network.in_range(v6("fe80::1234:cafe:babe:5678")));
    assert!(!network.in_range(v6("fe80::2234:cafe:babe:5678")));
    assert!(!network.in_range(v6("2001::2234:cafe:babe:5678")));
    assert!(!network.in_range(v6("fe80:1234:cafe:babe::")));

    let network = NetworkV6::from_prefix(addr, 0);
    assert!(network.in_range(v6("2001:db8::1234:cafe:babe:5678")));
    assert!(network.in_range(v6("2001:db9::1234:cafe:babe:5678")));
    assert!(network.in_range(v6("fe80::1234:cafe:babe:5678")));
    assert!(network.in_range(v6("8:7:6:5:4:3:2:1")));
    assert!(network.in_range(v6("2001::2234:cafe:babe:5678")));
    assert!(network.in_range(v6("fe80:1234:cafe:babe::")));
}

#[test]
fn network_parse() {
    "192.168.0.1/255.255.255.255".parse::<NetworkV4>().unwrap();
    "192.168.0.1/255.255.0.255".parse::<NetworkV4>().unwrap();
    "192.168.0.1/0".parse::<NetworkV4>().unwrap();
    "192.168.0.1/16".parse::<NetworkV4>().unwrap();
    "192.168.0.1/32".parse::<NetworkV4>().unwrap();
    "255.255.255.255/255.255.255.255".parse::<NetworkV4>().unwrap();
    "255.255.255.255/255.255.0.255".parse::<NetworkV4>().unwrap();
    "255.255.255.255/32".parse::<NetworkV4>().unwrap();
    "255.255.255.255/0".parse::<NetworkV4>().unwrap();

    "fe80::/0".parse::<NetworkV6>().unwrap();
    "fe80::/10".parse::<NetworkV6>().unwrap();
    "fe80::/64".parse::<NetworkV6>().unwrap();
    "fe80::/128".parse::<NetworkV6>().unwrap();
    "::dead:beef/::ffff:ffff:ffff:ffff".parse::<NetworkV6>().unwrap();
    "::dead:beef/::f00f:ffff:f00f:ffff".parse::<NetworkV6>().unwrap();
    "2001:db8::/ffff:ffff::".parse::<NetworkV6>().unwrap();
    "2001:db8::/f0f0:fcfc::".parse::<NetworkV6>().unwrap();

    assert!("255.255.255.255/33".parse::<NetworkV4>().is_err());
    assert!("::/129".parse::<NetworkV6>().is_err())
}

#[test]
fn parsed_network_contains_its_own_address() {
    for text in ["192.168.0.1/16", "10.1.2.3/255.0.255.0", "203.0.113.9/32", "1.2.3.4/0"] {
        let n = NetworkV4::parse(text).unwrap();
        let own = v4(text.split('/').next().unwrap());
        assert!(n.in_range(own));
    }
    for text in ["2001:db8::17/64", "fe80::1/ffff::", "::1/128", "1::/0"] {
        let n = NetworkV6::parse(text).unwrap();
        let own = v6(text.split('/').next().unwrap());
        assert!(n.in_range(own));
    }
}

#[test]
fn prefix_zero_contains_everything() {
    let n4 = NetworkV4::from_prefix(v4("198.51.100.2"), 0);
    for a in [0u32, 1, 0x7f00_0001, u32::MAX] {
        assert!(n4.in_range(a));
    }
    let n6 = NetworkV6::from_prefix(v6("2001:db8::1"), 0);
    for a in [0u128, 1, u128::MAX, v6("fe80::1")] {
        assert!(n6.in_range(a));
    }
}

#[test]
fn full_prefix_matches_only_itself() {
    let n = NetworkV4::from_prefix(v4("198.51.100.2"), 32);
    assert!(n.in_range(v4("198.51.100.2")));
    assert!(!n.in_range(v4("198.51.100.3")));
    let n = NetworkV6::from_prefix(v6("2001:db8::1"), 128);
    assert!(n.in_range(v6("2001:db8::1")));
    assert!(!n.in_range(v6("2001:db8::2")));
}

#[test]
fn prefix_masks_are_exact() {
    assert_eq!(NetworkV4::from_prefix(0, 24).mask, 0xffff_ff00);
    assert_eq!(NetworkV4::from_prefix(0, 1).mask, 0x8000_0000);
    assert_eq!(NetworkV4::from_prefix(0, 32).mask, 0xffff_ffff);
    assert_eq!(NetworkV6::from_prefix(0, 64).mask, 0xffff_ffff_ffff_ffff_0000_0000_0000_0000);
    assert_eq!(NetworkV6::from_prefix(0, 0).mask, 0);
}

#[test]
fn network_parse_errors() {
    assert_eq!(NetworkV4::parse("192.168.0.1"), Err(NetworkParseErr::MaskUnspecified));
    assert_eq!(NetworkV4::parse("192.168.0/24"), Err(NetworkParseErr::InvalidAddress));
    assert_eq!(NetworkV4::parse("192.168.0.1/foo"), Err(NetworkParseErr::InvalidMask));
    assert_eq!(NetworkV4::parse("192.168.0.1/300"), Err(NetworkParseErr::MaskTooLarge));
    assert_eq!(NetworkV4::parse("192.168.0.1/99999999999999999999"), Err(NetworkParseErr::MaskTooLarge));
    assert_eq!(NetworkV6::parse("::/300"), Err(NetworkParseErr::MaskTooLarge));
    assert_eq!(NetworkV4::parse("192.168.0.1/"), Err(NetworkParseErr::InvalidMask));
    assert_eq!(NetworkV4::parse("10.0.0.0/+8"), Err(NetworkParseErr::InvalidMask));
    assert_eq!(NetworkV4::parse("10.0.0.0/008").unwrap().mask, 0xff00_0000);
    assert_eq!(NetworkV4::parse("192.168.0.1/33"), Err(NetworkParseErr::MaskTooLarge));
    assert_eq!(NetworkV6::parse("::1"), Err(NetworkParseErr::MaskUnspecified));
    assert_eq!(NetworkV6::parse("1.2.3.4/8"), Err(NetworkParseErr::InvalidAddress));
    assert_eq!(NetworkV6::parse("::/1.2.3.4"), Err(NetworkParseErr::InvalidMask));
    assert_eq!(NetworkV6::parse("::/129"), Err(NetworkParseErr::MaskTooLarge));
}

#[test]
fn ipv4_text() {
    assert_eq!(parse_ipv4("198.51.100.2"), Some(0xc633_6402));
    assert_eq!(parse_ipv4("0.0.0.0"), Some(0));
    assert_eq!(parse_ipv4("255.255.255.255"), Some(u32::MAX));
    assert_eq!(parse_ipv4("256.0.0.1"), None);
    assert_eq!(parse_ipv4("01.2.3.4"), None);
    assert_eq!(parse_ipv4("1.2.3"), None);
    assert_eq!(parse_ipv4("1.2.3.4.5"), None);
    assert_eq!(parse_ipv4(""), None);
    assert_eq!(parse_ipv4("1..2.3"), None);
}

#[test]
fn ipv6_text() {
    assert_eq!(parse_ipv6("::"), Some(0));
    assert_eq!(parse_ipv6("::1"), Some(1));
    assert_eq!(parse_ipv6("1::"), Some(1u128 << 112));
    assert_eq!(parse_ipv6("2001:db8::1"), Some(0x2001_0db8_0000_0000_0000_0000_0000_0001));
    assert_eq!(parse_ipv6("1:2:3:4:5:6:7:8"), Some(0x0001_0002_0003_0004_0005_0006_0007_0008));
    assert_eq!(parse_ipv6("::ffff:192.0.2.1"), Some(0xffff_c000_0201));
    assert_eq!(parse_ipv6("FE80::ABCD"), Some(0xfe80_0000_0000_0000_0000_0000_0000_abcd));
    assert_eq!(parse_ipv6("1:2:3:4:5:6:7::"), Some(0x0001_0002_0003_0004_0005_0006_0007_0000));
    assert_eq!(parse_ipv6("1:2:3:4:5:6:7:8:9"), None);
    assert_eq!(parse_ipv6("1::2::3"), None);
    assert_eq!(parse_ipv6(":::"), None);
    assert_eq!(parse_ipv6("12345::"), None);
    assert_eq!(parse_ipv6("1:2:3:4:5:6:7"), None);
    assert_eq!(parse_ipv6(""), None);
}

#[test]
fn ip_text_either_family() {
    assert_eq!(parse_ip("10.0.0.1"), Some(IpAddress::V4(0x0a00_0001)));
    assert_eq!(parse_ip("::1"), Some(IpAddress::V6(1)));
    assert_eq!(parse_ip("example"), None);
}
