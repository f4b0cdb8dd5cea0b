use dynners::json::Json;
use dynners::services::{cloudflare, linode, DdnsUpdateError, RecordKind};

fn s(x: &str) -> Json {
    Json::Str(x.to_string())
}

fn obj(entries: Vec<(&str, Json)>) -> Json {
    Json::Object(entries.into_iter().map(|(k, v)| (k.to_string(), v)).collect())
}

#[test]
fn cloudflare_zone_listing() {
    let zones = obj(vec![(
        "result",
        Json::Array(vec![
            obj(vec![("id", s("ab")), ("permissions", Json::Array(vec![s("#dns_records:read"), s("#dns_records:edit")]))]),
            obj(vec![("id", s("cd")), ("permissions", Json::Array(vec![s("#zone:read"), Json::Null]))]),
            obj(vec![("id", s("ef"))]),
        ]),
    )]);
    assert_eq!(cloudflare::zones_from_listing(&zones), Ok(vec![0xab]));
    let bad = obj(vec![("result", Json::Array(vec![obj(vec![("name", s("x"))])]))]);
    assert!(matches!(cloudflare::zones_from_listing(&bad), Err(DdnsUpdateError::Json(_))));
    assert!(matches!(cloudflare::zones_from_listing(&obj(vec![])), Err(DdnsUpdateError::Json(_))));
}

#[test]
fn cloudflare_record_listing() {
    let records = obj(vec![(
        "result",
        Json::Array(vec![
            obj(vec![("id", s("01")), ("name", s("a.example.com")), ("type", s("A"))]),
            obj(vec![("id", s("02")), ("name", s("a.example.com")), ("type", s("TXT"))]),
            obj(vec![("id", s("03")), ("name", s("b.example.com")), ("type", s("AAAA"))]),
        ]),
    )]);
    let found = cloudflare::records_from_listing(7, &records).unwrap();
    assert_eq!(found.len(), 2);
    assert_eq!((found[0].zone_id, found[0].id, found[0].kind), (7, 1, RecordKind::A));
    assert_eq!((found[1].id, found[1].domain.as_str(), found[1].kind), (3, "b.example.com", RecordKind::Aaaa));
    let bad = obj(vec![("result", Json::Array(vec![obj(vec![("id", s("zz")), ("name", s("a")), ("type", s("A"))])]))]);
    assert!(matches!(cloudflare::records_from_listing(7, &bad), Err(DdnsUpdateError::Json(_))));
}

#[test]
fn cloudflare_error_answers() {
    let body = obj(vec![(
        "errors",
        Json::Array(vec![obj(vec![("code", Json::Number(Some(9109))), ("message", s("Invalid access token"))])]),
    )]);
    assert_eq!(
        cloudflare::error_from_body(Some(&body)),
        DdnsUpdateError::Cloudflare(9109, "Invalid access token".to_string())
    );
    assert!(matches!(cloudflare::error_from_body(None), DdnsUpdateError::Json(_)));
    assert_eq!(cloudflare::check_success(&obj(vec![("success", Json::Bool(true))])), Ok(()));
    assert!(cloudflare::check_success(&obj(vec![("success", Json::Bool(false))])).is_err());
}

#[test]
fn linode_listings() {
    let domains = obj(vec![(
        "data",
        Json::Array(vec![obj(vec![("id", Json::Number(Some(12))), ("domain", s("example.com"))])]),
    )]);
    let found = linode::domains_from_listing(&domains).unwrap();
    assert_eq!(found, vec![linode::Domain { id: 12, name: "example.com".to_string() }]);
    let negative = obj(vec![("data", Json::Array(vec![obj(vec![("id", Json::Number(None)), ("domain", s("x"))])]))]);
    assert!(matches!(linode::domains_from_listing(&negative), Err(DdnsUpdateError::Json(_))));

    let records = obj(vec![(
        "data",
        Json::Array(vec![
            obj(vec![("id", Json::Number(Some(1))), ("name", s("www")), ("type", s("A"))]),
            obj(vec![("id", Json::Number(Some(2))), ("name", s("")), ("type", s("AAAA"))]),
            obj(vec![("id", Json::Number(Some(3))), ("name", s("mail")), ("type", s("MX"))]),
        ]),
    )]);
    let recs = linode::records_from_listing(&found[0], &records).unwrap();
    assert_eq!(recs.len(), 2);
    assert_eq!(recs[0].name, "www.example.com");
    assert_eq!(recs[1].name, "example.com");
    assert_eq!(recs[1].domain_id, 12);
}

#[test]
fn linode_error_answers() {
    let body = obj(vec![(
        "errors",
        Json::Array(vec![obj(vec![("reason", s("Invalid value")), ("field", s("ttl_sec"))])]),
    )]);
    assert_eq!(
        linode::error_from_body(Some(&body)),
        DdnsUpdateError::Linode("Invalid value (field = ttl_sec)".to_string())
    );
    let plain = obj(vec![("errors", Json::Array(vec![obj(vec![("reason", s("Not found"))])]))]);
    assert_eq!(linode::error_from_body(Some(&plain)), DdnsUpdateError::Linode("Not found".to_string()));
    assert!(matches!(linode::error_from_body(None), DdnsUpdateError::Json(_)));
}
