//! End-to-end scenarios: the engine, subscriber, store and codec wired
//! together as the connection handler wires them, with a scripted
//! cluster that records every operation.

use roomtalk::engine::{handle_message, Action, ConnState};
use roomtalk::protocol::{TalkMessage, TalkProtocol};
use roomtalk::store::Store;
use roomtalk::subscriber::{
    handle_push, PushKind, PushValue, SubAction, SubscriberState,
};

#[derive(Debug, Clone, PartialEq)]
enum Op {
    Sub(i32),
    Unsub(i32),
    Pub(i32),
}

struct Conn {
    state: ConnState,
    sub: SubscriberState,
    received: Vec<TalkProtocol>,
}

impl Conn {
    fn new() -> Conn {
        Conn { state: ConnState::new(), sub: SubscriberState::new(), received: Vec::new() }
    }
}

struct World {
    store: Store,
    conns: Vec<Conn>,
    log: Vec<Op>,
    direct: Vec<(usize, TalkProtocol)>,
}

impl World {
    fn new(n: usize) -> World {
        let mut conns = Vec::new();
        for _ in 0..n {
            conns.push(Conn::new());
        }
        World { store: Store::new(), conns, log: Vec::new(), direct: Vec::new() }
    }

    /// Processes one client frame on connection `i`, performing the
    /// engine's actions the way the handler tasks do.
    fn step(&mut self, i: usize, msg: TalkProtocol) {
        let actions = {
            let conn = &mut self.conns[i];
            handle_message(msg, &mut conn.state, &mut self.store)
        };
        for action in actions {
            match action {
                Action::RoomChange(room) => {
                    let acts = self.conns[i].sub.room_change(room);
                    for a in acts {
                        match a {
                            SubAction::Subscribe(r) => self.log.push(Op::Sub(r)),
                            SubAction::Unsubscribe(r) => self.log.push(Op::Unsub(r)),
                            SubAction::Ack => {}
                        }
                    }
                }
                Action::Publish(room, event) => {
                    let frame = event.serialize();
                    self.log.push(Op::Pub(room));
                    for conn in self.conns.iter_mut() {
                        if conn.sub.current == Some(room) {
                            let data = vec![
                                PushValue::Other,
                                PushValue::BulkString(frame.clone()),
                            ];
                            if let Some(out) = handle_push(PushKind::SMessage, data) {
                                let delivered = TalkProtocol::deserialize(&out).unwrap();
                                conn.received.push(delivered);
                            }
                        }
                    }
                }
                Action::SendDirect(event) => {
                    self.direct.push((i, event));
                }
            }
        }
    }
}

fn join(room: i32, uuid: u128, name: &str, ts: u64) -> TalkProtocol {
    TalkProtocol::JoinRoom { room_id: room, uuid, username: name.to_string(), unixtime: ts }
}

fn leave(room: i32, uuid: u128, name: &str, ts: u64) -> TalkProtocol {
    TalkProtocol::LeaveRoom { room_id: room, uuid, username: name.to_string(), unixtime: ts }
}

fn post(room: i32, uuid: u128, name: &str, text: &str, ts: u64) -> TalkProtocol {
    TalkProtocol::PostMessage {
        message: TalkMessage {
            uuid,
            username: name.to_string(),
            text: text.to_string(),
            room_id: room,
            unixtime: ts,
        },
    }
}

const U: u128 = 0x11111111_11111111_11111111_11111111;

#[test]
fn join_post_leave_persists_three_rows() {
    let mut w = World::new(1);
    w.step(0, join(7, U, "alice", 100));
    w.step(0, post(7, U, "alice", "hi", 101));
    w.step(0, leave(7, U, "alice", 102));

    let rows = w.store.get_messages();
    assert_eq!(rows.len(), 3);
    let expect = [(100u64, 0i16, ""), (101, 4, "hi"), (102, 1, "")];
    for (row, (ts, kind, text)) in rows.iter().zip(expect.iter()) {
        assert_eq!(row.time, *ts);
        assert_eq!(row.protocol_type, *kind);
        assert_eq!(row.message, *text);
        assert_eq!(row.room_id, 7);
        assert_eq!(row.uuid, U);
        assert_eq!(row.username, "alice");
    }
    assert!(w.store.get_users().is_empty());
}

#[test]
fn room_switch_cluster_order() {
    let mut w = World::new(1);
    w.step(0, join(1, U, "c1", 200));
    w.step(0, post(1, U, "c1", "a", 201));
    w.step(0, join(2, U, "c1", 202));
    w.step(0, post(2, U, "c1", "b", 203));

    assert_eq!(
        w.log,
        vec![
            Op::Sub(1),
            Op::Pub(1),
            Op::Pub(1),
            Op::Unsub(1),
            Op::Sub(2),
            Op::Pub(2),
            Op::Pub(2),
        ]
    );
}

#[test]
fn fetch_returns_window_ascending() {
    let mut w = World::new(1);
    w.step(0, join(5, U, "alice", 0));
    for t in 1..=100u64 {
        w.step(0, post(5, U, "alice", &format!("m{}", t), t));
    }
    w.step(0, TalkProtocol::Fetch { room_id: 5, limit: 10, fetch_before: 50 });

    assert_eq!(w.direct.len(), 1);
    let (conn, reply) = &w.direct[0];
    assert_eq!(*conn, 0);
    match reply {
        TalkProtocol::History { text } => {
            assert_eq!(text.len(), 10);
            for (k, item) in text.iter().enumerate() {
                match item {
                    TalkProtocol::PostMessage { message } => {
                        assert_eq!(message.unixtime, 40 + k as u64);
                        assert_eq!(message.text, format!("m{}", 40 + k as u64));
                    }
                    other => panic!("expected a PostMessage, got {:?}", other),
                }
            }
        }
        other => panic!("expected History, got {:?}", other),
    }
}

#[test]
fn fetch_with_future_cutoff_returns_everything() {
    let mut w = World::new(1);
    w.step(0, join(1, U, "a", 0));
    for t in [10u64, 20, 30] {
        w.step(0, post(1, U, "a", "x", t));
    }
    w.step(0, TalkProtocol::Fetch {
        room_id: 1,
        limit: 50,
        fetch_before: 1_000_000_000_000_000_000,
    });
    let (_, reply) = &w.direct[0];
    match reply {
        TalkProtocol::History { text } => {
            let times: Vec<u64> = text
                .iter()
                .map(|p| match p {
                    TalkProtocol::PostMessage { message } => message.unixtime,
                    TalkProtocol::UserJoined { unixtime, .. } => *unixtime,
                    other => panic!("unexpected history entry {:?}", other),
                })
                .collect();
            assert_eq!(times, vec![0, 10, 20, 30]);
        }
        other => panic!("expected History, got {:?}", other),
    }
}

#[test]
fn fetch_with_zero_cutoff_returns_newest() {
    let mut w = World::new(1);
    w.step(0, join(1, U, "a", 1));
    for t in [10u64, 20, 30] {
        w.step(0, post(1, U, "a", "x", t));
    }
    w.step(0, TalkProtocol::Fetch { room_id: 1, limit: 2, fetch_before: 0 });
    let (_, reply) = &w.direct[0];
    match reply {
        TalkProtocol::History { text } => {
            let times: Vec<u64> = text
                .iter()
                .map(|p| match p {
                    TalkProtocol::PostMessage { message } => message.unixtime,
                    other => panic!("unexpected history entry {:?}", other),
                })
                .collect();
            assert_eq!(times, vec![20, 30]);
        }
        other => panic!("expected History, got {:?}", other),
    }
}

#[test]
fn echo_to_self() {
    let mut w = World::new(1);
    w.step(0, join(4, U, "me", 1));
    w.step(0, post(4, U, "me", "echo!", 2));

    // the connection receives its own UserJoined and its own post
    assert_eq!(w.conns[0].received.len(), 2);
    assert_eq!(w.conns[0].received[0], TalkProtocol::UserJoined {
        uuid: U,
        username: "me".to_string(),
        room_id: 4,
        unixtime: 1,
    });
    assert_eq!(w.conns[0].received[1], post(4, U, "me", "echo!", 2));
}

#[test]
fn two_peers_see_each_other() {
    const V: u128 = 0x22222222_22222222_22222222_22222222;
    let mut w = World::new(2);
    w.step(0, join(9, U, "c1", 1));
    w.step(1, join(9, V, "c2", 2));
    w.step(0, post(9, U, "c1", "x", 3));
    w.step(1, post(9, V, "c2", "y", 4));

    // C2 never saw C1's UserJoined (it preceded C2's own join), but saw
    // both posts; C1 saw C2's join and both posts.
    assert_eq!(w.conns[1].received[0], TalkProtocol::UserJoined {
        uuid: V,
        username: "c2".to_string(),
        room_id: 9,
        unixtime: 2,
    });
    assert!(w.conns[1].received.contains(&post(9, U, "c1", "x", 3)));
    assert!(w.conns[0].received.contains(&post(9, V, "c2", "y", 4)));
    assert!(!w.conns[1]
        .received
        .iter()
        .any(|m| matches!(m, TalkProtocol::UserJoined { uuid, .. } if *uuid == U)));
}

#[test]
fn malformed_frame_is_skipped_and_connection_survives() {
    let mut w = World::new(1);
    w.step(0, join(3, U, "a", 1));

    // the reader drops a frame that does not decode and goes on
    let garbage = [0xde, 0xad, 0xbe, 0xef];
    if let Ok(msg) = TalkProtocol::deserialize(&garbage) {
        w.step(0, msg);
    }
    let good = post(3, U, "a", "still here", 2);
    let frame = good.serialize();
    let decoded = TalkProtocol::deserialize(&frame).unwrap();
    w.step(0, decoded);

    assert_eq!(w.conns[0].received.last().unwrap(), &good);
    let rows = w.store.get_messages();
    assert_eq!(rows.last().unwrap().message, "still here");
}

#[test]
fn change_name_publishes_to_current_room_only_if_known() {
    let mut w = World::new(1);
    // no user row yet: silently dropped
    w.step(0, TalkProtocol::ChangeName {
        uuid: U,
        username: "n".to_string(),
        old_username: "o".to_string(),
        unixtime: 1,
    });
    assert!(w.log.is_empty());

    w.step(0, join(6, U, "o", 2));
    w.step(0, TalkProtocol::ChangeName {
        uuid: U,
        username: "n".to_string(),
        old_username: "o".to_string(),
        unixtime: 3,
    });
    assert_eq!(w.log.last().unwrap(), &Op::Pub(6));
    assert_eq!(w.conns[0].received.last().unwrap(), &TalkProtocol::UsernameChanged {
        uuid: U,
        username: "n".to_string(),
        old_username: "o".to_string(),
        unixtime: 3,
    });
}

#[test]
fn server_to_client_events_from_client_are_ignored() {
    let mut w = World::new(1);
    w.step(0, TalkProtocol::Error { code: "c".to_string(), message: "m".to_string() });
    w.step(0, TalkProtocol::History { text: vec![] });
    assert!(w.log.is_empty());
    assert!(w.store.get_messages().is_empty());
    assert!(w.direct.is_empty());
}
