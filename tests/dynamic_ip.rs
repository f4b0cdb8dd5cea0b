use dynners::addr::IpAddress;
use dynners::config::{IpConfig, IpConfigMethod, IpVersion};
use dynners::dynamic_ip::{
    address_from_capture, address_from_command_output, address_from_http_body, DynamicIp,
    DynamicIpError, IpService,
};
use dynners::netmask::NetworkParseErr;

fn exec_config() -> IpConfig {
    IpConfig { version: IpVersion::V4, method: IpConfigMethod::Exec { command: "true".to_string() } }
}

#[test]
fn dirty_bit_follows_resolutions() {
    let mut ip = DynamicIp::from_config(&exec_config()).unwrap();
    assert!(ip.is_dirty());
    assert_eq!(ip.address(), None);

    let a = IpAddress::V4(0x0a00_0001);
    let b = IpAddress::V4(0x0a00_0002);
    assert!(ip.update(Ok(a)).is_ok());
    assert!(ip.is_dirty());
    assert!(ip.update(Ok(a)).is_ok());
    assert!(!ip.is_dirty());
    assert!(ip.update(Ok(b)).is_ok());
    assert!(ip.is_dirty());
    assert_eq!(ip.address(), Some(b));

    let e = DynamicIpError::InterfaceFailure;
    assert_eq!(ip.update(Err(e.clone())), Err(e));
    assert_eq!(ip.address(), Some(b));
    assert!(ip.is_dirty());
}

#[test]
fn cache_seed_is_clean() {
    let mut ip = DynamicIp::from_config(&exec_config()).unwrap();
    let a = IpAddress::V4(7);
    ip.update_from_cache(a);
    assert!(!ip.is_dirty());
    ip.update(Ok(a)).unwrap();
    assert!(!ip.is_dirty());
}

#[test]
fn source_configuration_checks() {
    let iface = IpConfig {
        version: IpVersion::V4,
        method: IpConfigMethod::Interface { iface: "eth0".to_string(), matches: "".to_string() },
    };
    match IpService::from_config(&iface).unwrap() {
        IpService::InterfaceV4 { matches, .. } => assert_eq!(matches.mask, 0),
        other => panic!("unexpected {:?}", other),
    }
    let bad_net = IpConfig {
        version: IpVersion::V6,
        method: IpConfigMethod::Interface { iface: "eth0".to_string(), matches: " fe80::/200 ".to_string() },
    };
    assert_eq!(
        IpService::from_config(&bad_net),
        Err(DynamicIpError::InvalidNetwork(NetworkParseErr::MaskTooLarge))
    );
    let bad_regex = IpConfig {
        version: IpVersion::V4,
        method: IpConfigMethod::Http { url: "http://x".to_string(), regex: "(".to_string() },
    };
    assert!(matches!(IpService::from_config(&bad_regex), Err(DynamicIpError::InvalidRegex(_))));
    let http = IpConfig {
        version: IpVersion::V6,
        method: IpConfigMethod::Http { url: "http://x".to_string(), regex: "".to_string() },
    };
    assert_eq!(
        IpService::from_config(&http),
        Ok(IpService::HttpV6 { url: "http://x".to_string(), regex: None })
    );
}

#[test]
fn command_output_is_trimmed_and_parsed() {
    assert_eq!(address_from_command_output(IpVersion::V4, b" 203.0.113.5\n"), Ok(IpAddress::V4(0xcb00_7105)));
    assert!(matches!(
        address_from_command_output(IpVersion::V6, b"203.0.113.5"),
        Err(DynamicIpError::ExecutionFailure(_))
    ));
    assert!(matches!(
        address_from_command_output(IpVersion::V4, &[0xff, 0xfe]),
        Err(DynamicIpError::ExecutionFailure(_))
    ));
}

#[test]
fn http_body_with_and_without_pattern() {
    let body = "Current IP Address: 198.51.100.7\n";
    let pattern = Some(r"Address: (\S+)".to_string());
    assert_eq!(
        address_from_http_body(IpVersion::V4, body, &pattern),
        Ok(IpAddress::V4(0xc633_6407))
    );
    assert!(matches!(
        address_from_http_body(IpVersion::V4, "nothing here", &pattern),
        Err(DynamicIpError::HttpFailure(_))
    ));
    assert_eq!(address_from_http_body(IpVersion::V6, " ::1 \n", &None), Ok(IpAddress::V6(1)));
    assert_eq!(
        address_from_capture(IpVersion::V4, true, Some("10.0.0.9".to_string()), "ignored"),
        Ok(IpAddress::V4(0x0a00_0009))
    );
    assert!(matches!(
        address_from_capture(IpVersion::V4, true, None, "body"),
        Err(DynamicIpError::HttpFailure(_))
    ));
}
