use dynners::addr::{parse_ipv4, parse_ipv6, IpAddress};
use dynners::dynamic_ip::{interface_address_v4, interface_address_v6, DynamicIpError};
use dynners::netmask::{NetworkV4, NetworkV6};

#[test]
fn interface_network_v4() {
    // Which addresses an interface has depends on the machine.
}

#[test]
fn interface_network_v6() {
    // Which addresses an interface has depends on the machine.
}

#[test]
fn interface_picks_last_matching_v4() {
    let mask: NetworkV4 = "192.168.1.0/24".parse().unwrap();
    let addrs = vec![
        IpAddress::V4(parse_ipv4("192.168.1.10").unwrap()),
        IpAddress::V6(1),
        IpAddress::V4(parse_ipv4("10.0.0.1").unwrap()),
        IpAddress::V4(parse_ipv4("192.168.1.20").unwrap()),
    ];
    assert_eq!(
        interface_address_v4(&addrs, &mask),
        Ok(IpAddress::V4(parse_ipv4("192.168.1.20").unwrap()))
    );
    let other: NetworkV4 = "172.16.0.0/12".parse().unwrap();
    assert_eq!(interface_address_v4(&addrs, &other), Err(DynamicIpError::InterfaceFailure));
}

#[test]
fn interface_skips_deprecated_v6() {
    let mask: NetworkV6 = "2001:db8::/32".parse().unwrap();
    let a = parse_ipv6("2001:db8::1").unwrap();
    let b = parse_ipv6("2001:db8::2").unwrap();
    let addrs = vec![IpAddress::V6(a), IpAddress::V6(b), IpAddress::V4(1)];
    assert_eq!(interface_address_v6(&addrs, &[], &mask), Ok(IpAddress::V6(b)));
    assert_eq!(interface_address_v6(&addrs, &[b], &mask), Ok(IpAddress::V6(a)));
    assert_eq!(interface_address_v6(&addrs, &[a, b], &mask), Err(DynamicIpError::InterfaceFailure));
}

#[test]
fn deprecated_addresses_from_kernel_table() {
    let table = "20010db8000000000000000000000001 02 40 00 a0     eth0\n\
                 20010db8000000000000000000000002 02 40 00 80     eth0\n\
                 fe800000000000000000000000000001 03 40 20 a0    wlan0\n";
    assert_eq!(
        dynners::interface::deprecated_v6_addresses(table, "eth0"),
        vec![0x2001_0db8_0000_0000_0000_0000_0000_0001u128]
    );
    assert_eq!(
        dynners::interface::deprecated_v6_addresses(table, "wlan0"),
        vec![0xfe80_0000_0000_0000_0000_0000_0000_0001u128]
    );
    assert!(dynners::interface::deprecated_v6_addresses(table, "lo").is_empty());
}
