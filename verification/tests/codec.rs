use roomtalk::codec::DecodeError;
use roomtalk::protocol::{TalkMessage, TalkProtocol};

fn round_trip(p: TalkProtocol) {
    let bytes = p.serialize();
    let back = TalkProtocol::deserialize(&bytes).unwrap();
    assert_eq!(back, p);
}

#[test]
fn round_trip_join_room() {
    round_trip(TalkProtocol::JoinRoom {
        room_id: 7,
        uuid: 0x11111111_11111111_11111111_11111111,
        username: "alice".to_string(),
        unixtime: 100,
    });
}

#[test]
fn round_trip_leave_room_negative_room() {
    round_trip(TalkProtocol::LeaveRoom {
        room_id: -3,
        uuid: 42,
        username: "bob".to_string(),
        unixtime: u64::MAX,
    });
}

#[test]
fn round_trip_change_name_unicode() {
    round_trip(TalkProtocol::ChangeName {
        uuid: 7,
        username: "h\u{e9}llo\u{1f980}".to_string(),
        old_username: "pr\u{fc}fung".to_string(),
        unixtime: 0,
    });
}

#[test]
fn round_trip_fetch_extremes() {
    round_trip(TalkProtocol::Fetch { room_id: i32::MIN, limit: i64::MIN, fetch_before: 0 });
    round_trip(TalkProtocol::Fetch { room_id: i32::MAX, limit: -1, fetch_before: u64::MAX });
}

#[test]
fn round_trip_local_error() {
    round_trip(TalkProtocol::LocalError { message: String::new() });
}

#[test]
fn round_trip_server_events() {
    round_trip(TalkProtocol::UserJoined { uuid: 9, username: "x".to_string(), room_id: 1, unixtime: 2 });
    round_trip(TalkProtocol::UserLeft { uuid: 9, username: "x".to_string(), room_id: 1, unixtime: 2 });
    round_trip(TalkProtocol::UsernameChanged {
        uuid: 9,
        username: "new".to_string(),
        old_username: "old".to_string(),
        unixtime: 2,
    });
    round_trip(TalkProtocol::Error { code: "E42".to_string(), message: "broken".to_string() });
}

#[test]
fn round_trip_post_message() {
    round_trip(TalkProtocol::PostMessage {
        message: TalkMessage {
            uuid: u128::MAX,
            username: "carol".to_string(),
            text: "hello, world".to_string(),
            room_id: -1,
            unixtime: 1234567890,
        },
    });
}

#[test]
fn round_trip_history_nested() {
    let inner = TalkProtocol::PostMessage {
        message: TalkMessage {
            uuid: 5,
            username: "u".to_string(),
            text: "t".to_string(),
            room_id: 2,
            unixtime: 3,
        },
    };
    let h = TalkProtocol::History {
        text: vec![
            TalkProtocol::UserJoined { uuid: 5, username: "u".to_string(), room_id: 2, unixtime: 1 },
            inner,
            TalkProtocol::History { text: vec![] },
        ],
    };
    round_trip(h);
}

#[test]
fn garbage_frame_is_rejected() {
    assert_eq!(TalkProtocol::deserialize(&[0xde, 0xad, 0xbe, 0xef]), Err(DecodeError));
    assert_eq!(TalkProtocol::deserialize(&[]), Err(DecodeError));
    // an unknown tag
    assert_eq!(TalkProtocol::deserialize(&[11, 0, 0, 0]), Err(DecodeError));
    // a valid tag with its fields cut off
    assert_eq!(TalkProtocol::deserialize(&[0, 0, 0, 0, 1]), Err(DecodeError));
}

#[test]
fn trailing_bytes_are_ignored() {
    let p = TalkProtocol::LocalError { message: "m".to_string() };
    let mut bytes = p.serialize();
    bytes.extend_from_slice(&[1, 2, 3]);
    assert_eq!(TalkProtocol::deserialize(&bytes).unwrap(), p);
}

#[test]
fn invalid_utf8_is_rejected() {
    // LocalError whose string claims 2 bytes of invalid UTF-8.
    let mut bytes = vec![4u32.to_le_bytes().to_vec(), 2u64.to_le_bytes().to_vec()]
        .concat();
    bytes.extend_from_slice(&[0xff, 0xfe]);
    assert_eq!(TalkProtocol::deserialize(&bytes), Err(DecodeError));
}

// The wire format matches the canonical binary serialization the rest
// of the ecosystem produces for the same data: variant tag as a 32-bit
// little-endian integer, fixed-width little-endian integers,
// length-prefixed strings and byte blobs.
#[test]
fn wire_format_matches_bincode_join_room() {
    let u = uuid::Uuid::from_u128(0x11111111_11111111_11111111_11111111);
    let ours = TalkProtocol::JoinRoom {
        room_id: 7,
        uuid: u.as_u128(),
        username: "alice".to_string(),
        unixtime: 100,
    }
    .serialize();
    let theirs =
        bincode::serialize(&(0u32, 7i32, u, "alice".to_string(), 100u64)).unwrap();
    assert_eq!(ours, theirs);
}

#[test]
fn wire_format_matches_bincode_post_message() {
    let u = uuid::Uuid::from_u128(99);
    let ours = TalkProtocol::PostMessage {
        message: TalkMessage {
            uuid: u.as_u128(),
            username: "bob".to_string(),
            text: "hi".to_string(),
            room_id: -5,
            unixtime: 42,
        },
    }
    .serialize();
    let theirs =
        bincode::serialize(&(10u32, u, "bob".to_string(), "hi".to_string(), -5i32, 42u64))
            .unwrap();
    assert_eq!(ours, theirs);
}

#[test]
fn wire_format_matches_bincode_fetch_and_empty_history() {
    let ours = TalkProtocol::Fetch { room_id: -1, limit: -2, fetch_before: 3 }.serialize();
    let theirs = bincode::serialize(&(3u32, -1i32, -2i64, 3u64)).unwrap();
    assert_eq!(ours, theirs);

    let ours = TalkProtocol::History { text: vec![] }.serialize();
    let theirs = bincode::serialize(&(8u32, Vec::<String>::new())).unwrap();
    assert_eq!(ours, theirs);
}
