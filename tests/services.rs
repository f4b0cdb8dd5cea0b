use dynners::addr::IpAddress;
use dynners::services::cloudflare;
use dynners::services::dnsomatic;
use dynners::services::duckdns;
use dynners::services::linode;
use dynners::services::noip;
use dynners::services::porkbun::split_domain;
use dynners::services::router_1::{encode_password, find_filter_index, generate_form, Protocol};
use dynners::services::shared_dyndns::{Config, Service};
use dynners::services::{DdnsUpdateError, RecordKind, Suspension};

fn config() -> Config {
    Config {
        username: "user".to_string(),
        password: "pass".to_string(),
        domains: vec!["a.example.com".to_string()],
    }
}

fn ips() -> Vec<IpAddress> {
    vec![IpAddress::V6(1), IpAddress::V4(0x0a00_0001)]
}

#[test]
fn test_checksum() {
    let gen = generate_form(&[
        ("username", "admin"),
        ("save", "Login"),
        ("submit-url", "/admin/login.asp"),
        ("encodePassword", &encode_password("admin")),
    ]);
    assert_eq!(
        &gen,
        "username=admin&save=Login&submit-url=%2Fadmin%2Flogin.asp&encodePassword=YWRtaW4%3D&postSecurityFlag=47346"
    );
}

#[test]
fn form_encodes_spaces_and_unicode() {
    let gen = generate_form(&[("k", "a b*é\n")]);
    assert!(gen.starts_with("k=a+b*%C3%A9%A&postSecurityFlag="));
}

#[test]
fn basic_auth_header() {
    let s = dnsomatic::from_config(config());
    assert_eq!(s.auth, "Basic dXNlcjpwYXNz");
    assert_eq!(s.name, "DNS-O-Matic");
    assert_eq!(s.suspended, Suspension::Cycles(0));
}

#[test]
fn outage_backoff_counts_down() {
    let mut s = Service::from_config("DNS-O-Matic", "https://example.invalid", config());
    assert!(s.begin_update().is_ok());
    let r = s.handle_response("911", &ips(), Some(60));
    assert_eq!(
        r,
        Err(DdnsUpdateError::DynDns("DNS-O-Matic", "The server is down, suspending for 30 cycles".to_string()))
    );
    assert_eq!(s.suspended, Suspension::Cycles(30));
    for left in (0..30).rev() {
        assert_eq!(s.begin_update(), Err(DdnsUpdateError::Suspended(Suspension::Cycles(left))));
    }
    assert!(s.begin_update().is_ok());
}

#[test]
fn outage_without_polling_has_no_cooldown() {
    let mut s = Service::from_config("IPv64", "https://example.invalid", config());
    assert_eq!(
        s.handle_response("dnserr", &ips(), None),
        Err(DdnsUpdateError::DynDns("IPv64", "The server is down".to_string()))
    );
    assert_eq!(s.suspended, Suspension::Cycles(0));
    assert!(s.begin_update().is_ok());
}

#[test]
fn good_answers() {
    let mut s = Service::from_config("x", "y", config());
    let r = s.handle_response("good 10.0.0.2,::2", &ips(), Some(60)).unwrap();
    assert_eq!(r.as_slice(), &[IpAddress::V4(0x0a00_0002), IpAddress::V6(2)]);
    let r = s.handle_response("good", &ips(), Some(60)).unwrap();
    assert_eq!(r.as_slice(), &[IpAddress::V4(0x0a00_0001), IpAddress::V6(1)]);
    let r = s.handle_response("nochg 10.0.0.1", &ips(), Some(60)).unwrap();
    assert_eq!(r.len(), 0);
    assert_eq!(s.suspended, Suspension::Cycles(0));
}

#[test]
fn refusal_suspends_for_good() {
    let mut s = Service::from_config("x", "y", config());
    let r = s.handle_response("badauth", &ips(), Some(60));
    assert_eq!(
        r,
        Err(DdnsUpdateError::DynDns("x", "Bad authentication details were provided".to_string()))
    );
    assert_eq!(s.suspended, Suspension::Indefinite);
    for _ in 0..3 {
        assert_eq!(s.begin_update(), Err(DdnsUpdateError::Suspended(Suspension::Indefinite)));
    }
    let mut t = Service::from_config("x", "y", config());
    assert_eq!(
        t.handle_response("weird", &ips(), Some(60)),
        Err(DdnsUpdateError::DynDns("x", "weird".to_string()))
    );
}

#[test]
fn duckdns_answers() {
    let s = duckdns::Service::from(duckdns::Config { token: "t".to_string(), domains: vec![] });
    assert_eq!(s.read_answer("OK", &ips()).unwrap().len(), 2);
    assert_eq!(s.read_answer("KO", &ips()), Err(DdnsUpdateError::DuckDns));
}

#[test]
fn noip_answers() {
    let s = noip::Service::from_config(noip::Config {
        username: "user".to_string(),
        password: "pass".to_string(),
        domains: vec![],
    });
    assert_eq!(s.auth, "Basic dXNlcjpwYXNz");
    assert_eq!(s.read_answer(200, "good", &ips()).unwrap().len(), 2);
    assert_eq!(s.read_answer(200, "nochg", &ips()).unwrap().len(), 0);
    assert_eq!(s.read_answer(503, "", &ips()), Err(DdnsUpdateError::NoIp("NoIP server is down".to_string())));
    assert_eq!(s.read_answer(401, "badauth", &ips()), Err(DdnsUpdateError::NoIp("badauth".to_string())));
}

#[test]
fn cloudflare_listing() {
    let perms = vec!["#dns_records:read".to_string(), "#dns_records:edit".to_string()];
    assert_eq!(cloudflare::zone_from_listing("ff", &perms), Ok(Some(255)));
    assert_eq!(cloudflare::zone_from_listing("ff", &vec!["#dns_records:read".to_string()]), Ok(None));
    assert!(matches!(cloudflare::zone_from_listing("zz", &perms), Err(DdnsUpdateError::Json(_))));
    assert_eq!(cloudflare::parse_hex_id("ffffffffffffffffffffffffffffffff"), Some(u128::MAX));
    assert_eq!(cloudflare::parse_hex_id("1ffffffffffffffffffffffffffffffff"), None);

    let rec = cloudflare::record_from_listing(1, "a0", "a.example.com", "A").unwrap().unwrap();
    assert_eq!(rec.kind, RecordKind::A);
    assert_eq!(cloudflare::record_from_listing(1, "a1", "a.example.com", "MX"), Ok(None));
    let rec6 = cloudflare::record_from_listing(1, "a2", "a.example.com", "AAAA").unwrap().unwrap();
    let other = cloudflare::record_from_listing(1, "a3", "b.example.com", "A").unwrap().unwrap();

    let mut s = cloudflare::Service::from(cloudflare::Config {
        ttl: 1,
        proxied: false,
        token: "tok".to_string(),
        domains: vec!["a.example.com".to_string()],
    });
    assert_eq!(s.config.token, "Bearer tok");
    s.cache_records(vec![rec, other, rec6]);
    assert_eq!(s.cached_records.len(), 2);
    let puts = s.planned_puts(Some(IpAddress::V4(5)), None);
    assert_eq!(puts, vec![(0, IpAddress::V4(5))]);
}

#[test]
fn linode_listing() {
    let d = linode::Domain { id: 3, name: "example.com".to_string() };
    let r = linode::record_from_listing(&d, 9, "www", "AAAA").unwrap();
    assert_eq!(r.name, "www.example.com");
    let apex = linode::record_from_listing(&d, 10, "", "A").unwrap();
    assert_eq!(apex.name, "example.com");
    assert!(linode::record_from_listing(&d, 11, "x", "TXT").is_none());
}

#[test]
fn porkbun_domain_split() {
    assert_eq!(split_domain("a.b.example.com"), ("a.b".to_string(), "example.com".to_string()));
    assert_eq!(split_domain("example.com"), ("".to_string(), "example.com".to_string()));
}

fn filter_page(row: &str) -> String {
    String::from("<html><form action=/boaform/formFilterV6 method=POST name=\"formFilterDel\">\n") + row + "\n</form>"
}

const ROW: &str = "<tr><td><input type=\"checkbox\" name=\"select3\" value=\"ON\"></td>\n<td>Incoming</td>\n<td>TCP</td>\n<td></td>\n<td></td>\n<td>2001:db8::1/0</td>\n<td>12298</td>\n<td>Always</td>\n<td>Allow</td>\n</tr>";

#[test]
fn router_filter_table() {
    let old = Some(0x2001_0db8_0000_0000_0000_0000_0000_0001u128);
    assert_eq!(find_filter_index(&filter_page(ROW), Protocol::Tcp, old, 12298), Ok(Some(3)));
    assert_eq!(find_filter_index(&filter_page(ROW), Protocol::Udp, old, 12298), Ok(None));
    assert_eq!(find_filter_index(&filter_page(ROW), Protocol::Tcp, None, 12298), Ok(None));
    assert_eq!(find_filter_index(&filter_page(ROW), Protocol::Tcp, old, 80), Ok(None));
    assert_eq!(find_filter_index(ROW, Protocol::Tcp, old, 12298), Ok(None));
    assert!(matches!(
        find_filter_index(&filter_page("<tr><td>garbage</tr>"), Protocol::Tcp, old, 12298),
        Err(DdnsUpdateError::Router1(0, _))
    ));
}

#[test]
fn porkbun_confirmation() {
    let v4 = Some(IpAddress::V4(1));
    let v6 = Some(IpAddress::V6(2));
    assert_eq!(dynners::services::porkbun::confirmed(v4, v6, true, false).as_slice(), &[IpAddress::V4(1)]);
    assert_eq!(dynners::services::porkbun::confirmed(v4, v6, true, true).len(), 2);
    assert_eq!(dynners::services::porkbun::confirmed(None, v6, true, false).len(), 0);
}
