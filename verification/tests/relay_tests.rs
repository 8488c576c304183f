use vaultsync::relay::{hash_room, parse_hello, Arrival, RelayError, RoomTable};

#[test]
fn relay_first_line() {
    assert_eq!(parse_hello("VSR1 room-1\n").unwrap(), "room-1");
    assert_eq!(parse_hello("  VSR1   ab_C9  \r\n").unwrap(), "ab_C9");
    assert_eq!(parse_hello("VSR2 room").unwrap_err(), RelayError::BadMagic);
    assert_eq!(parse_hello("").unwrap_err(), RelayError::BadMagic);
    assert_eq!(parse_hello("VSR1").unwrap_err(), RelayError::BadRoom);
    assert_eq!(parse_hello("VSR1 bad/room").unwrap_err(), RelayError::BadRoom);
    assert_eq!(parse_hello(&format!("VSR1 {}", "a".repeat(129))).unwrap_err(), RelayError::BadRoom);
    assert!(parse_hello(&format!("VSR1 {}", "a".repeat(128))).is_ok());
    assert_eq!(RelayError::BadRoom.reply(), "ERR bad-room\n");
}

#[test]
fn relay_rooms_pair_and_expire() {
    let mut t = RoomTable::new();
    assert_eq!(t.arrive("r1", 0).0, Arrival::Waiting);
    assert_eq!(t.arrive("r1", 10).0, Arrival::Paired);
    assert_eq!(t.arrive("r1", 20).0, Arrival::Waiting);
    let (a, gone) = t.arrive("r2", 20 + 600_001);
    assert_eq!(a, Arrival::Waiting);
    assert_eq!(gone, vec!["r1".to_string()]);
}

#[test]
fn relay_room_limit() {
    let mut t = RoomTable::new();
    for i in 0..1024 {
        assert_eq!(t.arrive(&format!("room{i}"), 0).0, Arrival::Waiting);
    }
    assert_eq!(t.arrive("room0", 0).0, Arrival::Busy);
}

#[test]
fn relay_room_hash_is_fnv1a() {
    assert_eq!(hash_room(""), 0xcbf29ce484222325);
    assert_eq!(hash_room("a"), 0xaf63dc4c8601ec8c);
}

#[test]
fn hello_words_split_on_unicode_white_space() {
    assert_eq!(parse_hello("VSR1\u{3000}room-2\u{2003}").unwrap(), "room-2");
    assert_eq!(parse_hello("\u{85}VSR1\u{A0}r\u{2029}").unwrap(), "r");
    // Every character below U+3100 agrees with `char::is_whitespace` as a separator.
    for u in 0u32..0x3100 {
        if let Some(c) = char::from_u32(u) {
            let line = format!("VSR1{c}ab");
            assert_eq!(parse_hello(&line).is_ok(), c.is_whitespace(), "U+{u:04X}");
        }
    }
}
