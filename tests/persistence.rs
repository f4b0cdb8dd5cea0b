use dynners::addr::IpAddress;
use dynners::persistence::{config_fingerprint, PersistentState, StateError, STATE_VERSION};

fn v4(o: [u8; 4]) -> IpAddress {
    IpAddress::V4(u32::from_be_bytes(o))
}

fn v6(s: [u16; 8]) -> IpAddress {
    IpAddress::V6(s.iter().fold(0u128, |acc, g| (acc << 16) | *g as u128))
}

fn sample() -> PersistentState {
    let mut state = PersistentState::new("hello world, please hash me uwu", 1_700_000_000);
    state.insert("hello".to_string(), v4([192, 168, 100, 200]));
    state.insert("你好".to_string(), v4([172, 19, 10, 20]));
    state.insert(
        "world".to_string(),
        v6([0x2001, 0xdb8, 0x1234, 0x4567, 0xcafe, 0xbabe, 0xdead, 0xbeef]),
    );
    state.insert(
        "世界".to_string(),
        v6([0x2001, 0xdb8, 0x1111, 0x2222, 0x1337, 0x0ff1, 0xce00, 0x4b1d]),
    );
    state
}

#[test]
fn reversible() {
    let state = sample();
    let buffer = state.to_bytes();
    assert!(buffer.len() > 0);

    println!("{:?}", &buffer);

    let state_read = PersistentState::from_bytes(&buffer).unwrap();

    assert_eq!(state.version, state_read.version);
    assert_eq!(state.update_timestamp, state_read.update_timestamp);
    assert_eq!(state.config_hash, state_read.config_hash);
    assert_eq!(state.ip_addresses, state_read.ip_addresses);
    for name in ["hello", "你好", "world", "世界"] {
        assert_eq!(state.get(name), state_read.get(name));
    }
}

#[test]
fn error_extravaganza() {
    // Invalid magic number
    let buffer = vec![100, 121, 110, 111, 101, 114, 115, 0];
    assert!(PersistentState::from_bytes(&buffer).is_err());
}

#[test]
fn corrupted_magic_is_refused() {
    let mut bytes = sample().to_bytes();
    bytes[3] = b'o';
    assert_eq!(PersistentState::from_bytes(&bytes), Err(StateError::BadMagic));
    assert_eq!(PersistentState::from_bytes(&[100, 121, 110, 111, 101, 114, 115, 0]), Err(StateError::BadMagic));
}

#[test]
fn layout_is_little_endian() {
    let mut state = PersistentState::new_with_config_hash(0x0102_0304_0506_0708, 0x1112_1314_1516_1718);
    state.insert("a".to_string(), IpAddress::V4(0xc0a8_0001));
    let bytes = state.to_bytes();
    assert_eq!(&bytes[0..8], b"dynners\0");
    assert_eq!(&bytes[8..12], &[1, 0, 0, 0]);
    assert_eq!(&bytes[12..20], &[0x18, 0x17, 0x16, 0x15, 0x14, 0x13, 0x12, 0x11]);
    assert_eq!(&bytes[20..28], &[8, 7, 6, 5, 4, 3, 2, 1]);
    assert_eq!(&bytes[28..32], &[1, 0, 0, 0]);
    assert_eq!(bytes[32], b'a');
    assert_eq!(bytes[33], 0);
    assert_eq!(&bytes[34..38], &[0x01, 0x00, 0xa8, 0xc0]);
    assert_eq!(&bytes[38..42], &[0, 0, 0, 0]);
    assert_eq!(bytes.len(), 42);
}

#[test]
fn truncated_and_invalid_files() {
    let bytes = sample().to_bytes();
    assert_eq!(PersistentState::from_bytes(&bytes[..5]), Err(StateError::Truncated));
    assert_eq!(PersistentState::from_bytes(&bytes[..20]), Err(StateError::Truncated));
    assert_eq!(PersistentState::from_bytes(&bytes[..30]), Err(StateError::Truncated));
    assert_eq!(PersistentState::from_bytes(&bytes[..34]), Err(StateError::Truncated));

    let mut newer = bytes.clone();
    newer[8] = 2;
    assert_eq!(PersistentState::from_bytes(&newer), Err(StateError::TooNew));

    let mut state = PersistentState::new_with_config_hash(7, 9);
    state.insert("ab".to_string(), IpAddress::V4(1));
    let mut bad_name = state.to_bytes();
    bad_name[32] = 0xff;
    assert_eq!(PersistentState::from_bytes(&bad_name), Err(StateError::InvalidName));
    let mut bad_type = state.to_bytes();
    bad_type[34] = 7;
    assert_eq!(PersistentState::from_bytes(&bad_type), Err(StateError::BadAddressType));
}

#[test]
fn header_only_file_is_empty_state() {
    let state = PersistentState::new_with_config_hash(5, 6);
    let bytes = state.to_bytes();
    let read = PersistentState::from_bytes(&bytes[..28]).unwrap();
    assert_eq!(read.version, STATE_VERSION);
    assert_eq!(read.config_hash, 5);
    assert_eq!(read.update_timestamp, 6);
    assert!(read.ip_addresses.is_empty());
}

#[test]
fn later_entry_of_same_name_wins() {
    let mut state = PersistentState::new_with_config_hash(1, 2);
    state.insert("x".to_string(), IpAddress::V4(1));
    state.insert("x".to_string(), IpAddress::V4(2));
    assert_eq!(state.ip_addresses.len(), 1);
    assert_eq!(state.get("x"), Some(IpAddress::V4(2)));
    assert_eq!(state.get("y"), None);
}

#[test]
fn fingerprint_formula() {
    assert_eq!(config_fingerprint("hello world, please hash me uwu"), 5932105255176668015);
    assert_eq!(config_fingerprint(""), 0);
}

#[test]
fn validation_against_config() {
    let mut state = sample();
    assert!(state.is_same_config_file("hello world, please hash me uwu"));
    assert!(state.validate_against("hello world, please hash me uwu", 5));
    assert_eq!(state.ip_addresses.len(), 4);
    assert!(!state.validate_against("changed", 42));
    assert!(state.ip_addresses.is_empty());
    assert_eq!(state.update_timestamp, 42);
    assert_eq!(state.config_hash, config_fingerprint("changed"));
}
