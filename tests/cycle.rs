use dynners::addr::IpAddress;
use dynners::config::{IpConfig, IpConfigMethod, IpVersion};
use dynners::dynamic_ip::DynamicIp;
use dynners::orchestrator::{dependency_indices, plan_cycle, snapshot_state};

fn ip() -> DynamicIp {
    DynamicIp::from_config(&IpConfig {
        version: IpVersion::V4,
        method: IpConfigMethod::Exec { command: "true".to_string() },
    })
    .unwrap()
}

#[test]
fn quiet_cycle_calls_nothing_and_keeps_state() {
    let mut a = ip();
    let mut b = ip();
    a.update_from_cache(IpAddress::V4(1));
    b.update_from_cache(IpAddress::V4(2));
    a.update(Ok(IpAddress::V4(1))).unwrap();
    b.update(Ok(IpAddress::V4(2))).unwrap();
    let plan = plan_cycle(&vec![a, b], &vec![vec![0], vec![0, 1]]);
    assert!(plan.calls.is_empty());
    assert!(!plan.persist);
}

#[test]
fn dirty_cycle_calls_followers_and_persists() {
    let mut a = ip();
    let mut b = ip();
    a.update_from_cache(IpAddress::V4(1));
    b.update_from_cache(IpAddress::V4(2));
    a.update(Ok(IpAddress::V4(1))).unwrap();
    b.update(Ok(IpAddress::V6(9))).unwrap();
    let plan = plan_cycle(&vec![a, b], &vec![vec![0], vec![0, 1], vec![1]]);
    assert!(plan.persist);
    assert_eq!(plan.calls.len(), 2);
    assert_eq!(plan.calls[0].target, 1);
    assert_eq!(plan.calls[0].addresses, vec![IpAddress::V4(1), IpAddress::V6(9)]);
    assert_eq!(plan.calls[1].target, 2);
    assert_eq!(plan.calls[1].addresses, vec![IpAddress::V6(9)]);
}

#[test]
fn unresolved_addresses_are_left_out() {
    let a = ip();
    let mut b = ip();
    b.update(Ok(IpAddress::V4(3))).unwrap();
    let plan = plan_cycle(&vec![a, b], &vec![vec![0], vec![0, 1]]);
    assert!(plan.persist);
    assert_eq!(plan.calls.len(), 2);
    assert_eq!(plan.calls[0].target, 0);
    assert!(plan.calls[0].addresses.is_empty());
    assert_eq!(plan.calls[1].addresses, vec![IpAddress::V4(3)]);
}

#[test]
fn snapshot_holds_known_addresses() {
    let mut a = ip();
    let b = ip();
    a.update(Ok(IpAddress::V4(4))).unwrap();
    let names = vec!["home".to_string(), "work".to_string()];
    let st = snapshot_state(&names, &vec![a, b], 77, 88);
    assert_eq!(st.config_hash, 77);
    assert_eq!(st.update_timestamp, 88);
    assert_eq!(st.get("home"), Some(IpAddress::V4(4)));
    assert_eq!(st.get("work"), None);
}

#[test]
fn dependencies_by_name() {
    let names = vec!["home".to_string(), "work".to_string()];
    assert_eq!(dependency_indices(&names, &vec!["work".to_string(), "home".to_string()]), Ok(vec![1, 0]));
    assert_eq!(dependency_indices(&names, &vec!["home".to_string(), "nope".to_string()]), Err(1));
}
