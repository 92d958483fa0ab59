use roomtalk::protocol::{TalkMessage, TalkProtocol};
use roomtalk::session::{LogOp, Session};

const U: u128 = 0x11111111_11111111_11111111_11111111;

fn join(room: i32, ts: u64) -> TalkProtocol {
    TalkProtocol::JoinRoom { room_id: room, uuid: U, username: "alice".to_string(), unixtime: ts }
}

fn post(room: i32, text: &str, ts: u64) -> TalkProtocol {
    TalkProtocol::PostMessage {
        message: TalkMessage {
            uuid: U,
            username: "alice".to_string(),
            text: text.to_string(),
            room_id: room,
            unixtime: ts,
        },
    }
}

#[test]
fn session_room_switch_logs_cluster_ops_in_order() {
    let mut s = Session::new();
    s.step(join(1, 200));
    s.step(post(1, "a", 201));
    s.step(join(2, 202));
    s.step(post(2, "b", 203));

    let shapes: Vec<String> = s
        .log
        .iter()
        .map(|op| match op {
            LogOp::Subscribe(r) => format!("sub {}", r),
            LogOp::Unsubscribe(r) => format!("unsub {}", r),
            LogOp::Publish(r, _) => format!("pub {}", r),
        })
        .collect();
    assert_eq!(
        shapes,
        vec!["sub 1", "pub 1", "pub 1", "unsub 1", "sub 2", "pub 2", "pub 2"]
    );
}

#[test]
fn session_publish_frames_decode_to_the_events() {
    let mut s = Session::new();
    s.step(join(7, 100));
    s.step(post(7, "hi", 101));

    match &s.log[1] {
        LogOp::Publish(room, frame) => {
            assert_eq!(*room, 7);
            assert_eq!(
                TalkProtocol::deserialize(frame).unwrap(),
                TalkProtocol::UserJoined {
                    uuid: U,
                    username: "alice".to_string(),
                    room_id: 7,
                    unixtime: 100,
                }
            );
        }
        other => panic!("expected a publish, got {:?}", other),
    }
}

#[test]
fn session_echoes_own_messages() {
    let mut s = Session::new();
    s.step(join(4, 1));
    s.step(post(4, "echo!", 2));

    assert_eq!(s.inbox.len(), 2);
    assert_eq!(
        TalkProtocol::deserialize(&s.inbox[0]).unwrap(),
        TalkProtocol::UserJoined {
            uuid: U,
            username: "alice".to_string(),
            room_id: 4,
            unixtime: 1,
        }
    );
    assert_eq!(TalkProtocol::deserialize(&s.inbox[1]).unwrap(), post(4, "echo!", 2));
}

#[test]
fn session_post_to_another_room_is_not_echoed() {
    let mut s = Session::new();
    s.step(join(4, 1));
    s.step(post(5, "elsewhere", 2));

    // published on room 5 but not delivered back: this connection is
    // subscribed to room 4
    assert_eq!(s.inbox.len(), 1);
    match s.log.last().unwrap() {
        LogOp::Publish(room, _) => assert_eq!(*room, 5),
        other => panic!("expected a publish, got {:?}", other),
    }
}

#[test]
fn session_fetch_reply_is_point_to_point() {
    let mut s = Session::new();
    s.step(join(1, 10));
    s.step(post(1, "x", 20));
    let log_before = s.log.len();
    s.step(TalkProtocol::Fetch { room_id: 1, limit: 10, fetch_before: 100 });

    // nothing published for a fetch; the reply lands in the inbox
    assert_eq!(s.log.len(), log_before);
    let reply = TalkProtocol::deserialize(s.inbox.last().unwrap()).unwrap();
    match reply {
        TalkProtocol::History { text } => {
            assert_eq!(text.len(), 2);
            assert_eq!(text[1], post(1, "x", 20));
        }
        other => panic!("expected History, got {:?}", other),
    }
}
