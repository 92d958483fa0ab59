use roomtalk::protocol::TalkProtocol;
use roomtalk::subscriber::{
    extract_binary_payload_from_message, extract_binary_payload_from_pmessage, handle_push,
    room_channel_name, PushKind, PushValue, SubAction, SubscriberState,
};
use roomtalk::text::{parse_i32, parse_i64};

#[test]
fn first_change_subscribes_then_acks() {
    let mut s = SubscriberState::new();
    assert_eq!(s.current, None);
    let acts = s.room_change(5);
    assert_eq!(acts, vec![SubAction::Subscribe(5), SubAction::Ack]);
    assert_eq!(s.current, Some(5));
}

#[test]
fn switching_rooms_unsubscribes_first() {
    let mut s = SubscriberState::new();
    s.room_change(1);
    let acts = s.room_change(2);
    assert_eq!(acts, vec![
        SubAction::Unsubscribe(1),
        SubAction::Subscribe(2),
        SubAction::Ack,
    ]);
    assert_eq!(s.current, Some(2));
}

#[test]
fn rejoining_same_room_only_acks() {
    let mut s = SubscriberState::new();
    s.room_change(3);
    let acts = s.room_change(3);
    assert_eq!(acts, vec![SubAction::Ack]);
    assert_eq!(s.current, Some(3));
}

#[test]
fn channel_names_are_decimal() {
    assert_eq!(room_channel_name(0), "0");
    assert_eq!(room_channel_name(42), "42");
    assert_eq!(room_channel_name(-17), "-17");
    assert_eq!(room_channel_name(i32::MIN), "-2147483648");
    assert_eq!(room_channel_name(i32::MAX), "2147483647");
}

#[test]
fn payload_extraction_positions() {
    let direct = vec![PushValue::Other, PushValue::BulkString(vec![1, 2])];
    assert_eq!(extract_binary_payload_from_message(direct), Some(vec![1, 2]));

    let pattern = vec![
        PushValue::Other,
        PushValue::Other,
        PushValue::BulkString(vec![3]),
    ];
    assert_eq!(extract_binary_payload_from_pmessage(pattern), Some(vec![3]));

    assert_eq!(extract_binary_payload_from_message(vec![PushValue::Other]), None);
    assert_eq!(
        extract_binary_payload_from_pmessage(vec![PushValue::Other, PushValue::Other]),
        None
    );
}

#[test]
fn push_handler_forwards_only_decodable_smessages() {
    let event = TalkProtocol::Error { code: "c".to_string(), message: "m".to_string() };
    let frame = event.serialize();

    let data = vec![PushValue::Other, PushValue::BulkString(frame.clone())];
    let forwarded = handle_push(PushKind::SMessage, data).unwrap();
    assert_eq!(forwarded, frame);

    let data = vec![PushValue::Other, PushValue::BulkString(frame.clone())];
    assert_eq!(handle_push(PushKind::PMessage, data), None);

    let data = vec![PushValue::Other, PushValue::BulkString(vec![0xff, 0xff, 0xff, 0xff])];
    assert_eq!(handle_push(PushKind::SMessage, data), None);

    assert_eq!(handle_push(PushKind::SMessage, vec![PushValue::Other]), None);
}

#[test]
fn decimal_parsing_matches_std() {
    for s in ["0", "42", "-17", "+5", "2147483647", "-2147483648", "2147483648", "", "12a", "-",
        "9223372036854775807", "-9223372036854775808", "9223372036854775808"] {
        assert_eq!(parse_i32(s), s.parse::<i32>().ok(), "i32 {:?}", s);
        assert_eq!(parse_i64(s), s.parse::<i64>().ok(), "i64 {:?}", s);
    }
}
