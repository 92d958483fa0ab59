//! The per-connection protocol engine: a state machine over the client
//! commands. It decides, for each inbound event, which room-change,
//! publish, persist and reply actions follow, and applies the persist
//! actions to the store itself. The surrounding tasks perform the
//! returned actions in order; a room change must be acknowledged before
//! any action after it is performed.

use crate::protocol::{TalkMessage, TalkProtocol};
use crate::store::{
    lemma_filter_subset, lemma_history_properties, spec_history, spec_room_of, Message, NewMessage,
    NewUser, Store, User,
};
use vstd::prelude::*;

verus! {

/// Per-connection protocol state: which room's subscription is in
/// force, if any. `None` until the first JoinRoom is processed.
pub struct ConnState {
    pub subscribed_room: Option<i32>,
}

impl ConnState {
    pub fn new() -> (r: ConnState)
        ensures
            r.subscribed_room is None,
    {
        ConnState { subscribed_room: None }
    }
}

/// One instruction from the engine to the tasks around it.
#[derive(Debug, PartialEq)]
pub enum Action {
    /// Move this connection's subscription to the given room and await
    /// the subscriber's acknowledgement before going on. If the change
    /// fails, the connection is torn down and no later action runs.
    RoomChange(i32),
    /// Publish the event on the given room's channel.
    Publish(i32, TalkProtocol),
    /// Send the event straight to this connection's outbound queue,
    /// point-to-point.
    SendDirect(TalkProtocol),
}

/// The subscribed room after a message is processed: JoinRoom moves it,
/// nothing else touches it (LeaveRoom leaves the subscription in place;
/// the next JoinRoom replaces it atomically).
pub open spec fn spec_next_room(cur: Option<i32>, msg: TalkProtocol) -> Option<i32> {
    match msg {
        TalkProtocol::JoinRoom { room_id, .. } => Some(room_id),
        _ => cur,
    }
}

/// The event a durable row stands for, by its kind tag: the inverse of
/// persistence, used to build History replies.
pub open spec fn spec_row_event(m: Message) -> TalkProtocol {
    if m.protocol_type == 0 {
        TalkProtocol::UserJoined {
            uuid: m.uuid,
            username: m.username,
            room_id: m.room_id,
            unixtime: m.time,
        }
    } else if m.protocol_type == 1 {
        TalkProtocol::UserLeft {
            uuid: m.uuid,
            username: m.username,
            room_id: m.room_id,
            unixtime: m.time,
        }
    } else if m.protocol_type == 2 {
        TalkProtocol::UsernameChanged {
            uuid: m.uuid,
            username: m.username,
            old_username: m.message,
            unixtime: m.time,
        }
    } else if m.protocol_type == 3 {
        TalkProtocol::Error { code: m.message, message: m.message }
    } else {
        TalkProtocol::PostMessage {
            message: TalkMessage {
                uuid: m.uuid,
                username: m.username,
                text: m.message,
                room_id: m.room_id,
                unixtime: m.time,
            },
        }
    }
}

/// The new event table extends the old by exactly one row with the
/// given fields; text columns are compared as character sequences.
pub open spec fn events_extended(
    old_events: Seq<Message>,
    new_events: Seq<Message>,
    id: u64,
    time: u64,
    username: Seq<char>,
    text: Seq<char>,
    room: i32,
    uuid: u128,
    tag: i16,
) -> bool {
    &&& new_events.len() == old_events.len() + 1
    &&& new_events.take(old_events.len() as int) == old_events
    &&& new_events.last().id == id
    &&& new_events.last().time == time
    &&& new_events.last().username@ == username
    &&& new_events.last().message@ == text
    &&& new_events.last().room_id == room
    &&& new_events.last().uuid == uuid
    &&& new_events.last().protocol_type == tag
}

/// The kind tag under which a client event's server-facing counterpart
/// is persisted: JoinRoom as UserJoined, LeaveRoom as UserLeft,
/// PostMessage as itself. ChangeName's UsernameChanged counterpart is
/// broadcast but not persisted, matching the event stream this engine
/// writes.
pub open spec fn spec_persist_tag(msg: TalkProtocol) -> Option<i16> {
    match msg {
        TalkProtocol::JoinRoom { .. } => Some(0i16),
        TalkProtocol::LeaveRoom { .. } => Some(1i16),
        TalkProtocol::PostMessage { .. } => Some(4i16),
        _ => None,
    }
}

/// Processes one inbound client event, applying its persistence to the
/// store and returning the actions the surrounding tasks must perform,
/// in order. Server-to-client variants arriving from a client are
/// ignored.
///
/// The persist-set closure holds as a contract: every client event
/// whose server-facing counterpart is broadcast as UserJoined, UserLeft
/// or PostMessage leaves exactly one durable row, under that
/// counterpart's kind tag, and no other event writes to the stream.
pub fn handle_message(msg: TalkProtocol, state: &mut ConnState, store: &mut Store) -> (actions:
    Vec<Action>)
    requires
        old(store).wf(),
        old(store).next_event_id < u64::MAX,
        old(store).next_user_id < u64::MAX,
    ensures
        final(store).wf(),
        final(state).subscribed_room == spec_next_room(old(state).subscribed_room, msg),
        final(store).events@.len() == old(store).events@.len() + (match spec_persist_tag(msg) {
            Some(_) => 1int,
            None => 0int,
        }),
        (spec_persist_tag(msg) matches Some(tag) ==> final(store).events@.last().protocol_type
            == tag),
        match msg {
            TalkProtocol::JoinRoom { room_id, uuid, username, unixtime } => {
                &&& actions@ == seq![
                    Action::RoomChange(room_id),
                    Action::Publish(
                        room_id,
                        TalkProtocol::UserJoined { uuid, username, room_id, unixtime },
                    ),
                ]
                &&& final(store).users@ == old(store).users@.push(
                    (User { id: old(store).next_user_id, room_id, uuid }),
                )
                &&& events_extended(
                    old(store).events@,
                    final(store).events@,
                    old(store).next_event_id,
                    unixtime,
                    username@,
                    Seq::empty(),
                    room_id,
                    uuid,
                    0i16,
                )
                &&& final(store).next_user_id == old(store).next_user_id + 1
                &&& final(store).next_event_id == old(store).next_event_id + 1
            },
            TalkProtocol::LeaveRoom { room_id, uuid, username, unixtime } => {
                &&& actions@ == seq![
                    Action::Publish(
                        room_id,
                        TalkProtocol::UserLeft { uuid, username, room_id, unixtime },
                    ),
                ]
                &&& final(store).users@ == old(store).users@.filter(|u: User| u.uuid != uuid)
                &&& events_extended(
                    old(store).events@,
                    final(store).events@,
                    old(store).next_event_id,
                    unixtime,
                    username@,
                    Seq::empty(),
                    room_id,
                    uuid,
                    1i16,
                )
                &&& final(store).next_user_id == old(store).next_user_id
                &&& final(store).next_event_id == old(store).next_event_id + 1
            },
            TalkProtocol::ChangeName { uuid, username, old_username, unixtime } => {
                &&& final(store).users@ == old(store).users@
                &&& final(store).events@ == old(store).events@
                &&& final(store).next_user_id == old(store).next_user_id
                &&& final(store).next_event_id == old(store).next_event_id
                &&& match spec_room_of(old(store).users@, uuid) {
                    Some(u) => actions@ == seq![
                        Action::Publish(
                            u.room_id,
                            TalkProtocol::UsernameChanged { uuid, username, old_username, unixtime },
                        ),
                    ],
                    None => actions@ == Seq::<Action>::empty(),
                }
            },
            TalkProtocol::Fetch { room_id, limit, fetch_before } => {
                &&& final(store).users@ == old(store).users@
                &&& final(store).events@ == old(store).events@
                &&& final(store).next_user_id == old(store).next_user_id
                &&& final(store).next_event_id == old(store).next_event_id
                &&& actions@.len() == 1
                &&& (actions@[0] matches Action::SendDirect(TalkProtocol::History { text })
                    && text@ == spec_history(
                    old(store).events@,
                    room_id,
                    limit,
                    fetch_before,
                ).map_values(|m: Message| spec_row_event(m)))
            },
            TalkProtocol::PostMessage { message } => {
                &&& actions@ == seq![
                    Action::Publish(message.room_id, TalkProtocol::PostMessage { message }),
                ]
                &&& final(store).users@ == old(store).users@
                &&& events_extended(
                    old(store).events@,
                    final(store).events@,
                    old(store).next_event_id,
                    message.unixtime,
                    message.username@,
                    message.text@,
                    message.room_id,
                    message.uuid,
                    4i16,
                )
                &&& final(store).next_user_id == old(store).next_user_id
                &&& final(store).next_event_id == old(store).next_event_id + 1
            },
            _ => {
                &&& actions@ == Seq::<Action>::empty()
                &&& final(store).users@ == old(store).users@
                &&& final(store).events@ == old(store).events@
                &&& final(store).next_user_id == old(store).next_user_id
                &&& final(store).next_event_id == old(store).next_event_id
            },
        },
{
    match msg {
        TalkProtocol::JoinRoom { room_id, uuid, username, unixtime } => {
            let ghost gname = username;
            let mut actions: Vec<Action> = Vec::new();
            actions.push(Action::RoomChange(room_id));
            let response = TalkProtocol::UserJoined {
                uuid,
                username: username.clone(),
                room_id,
                unixtime,
            };
            actions.push(Action::Publish(room_id, response));
            state.subscribed_room = Some(room_id);
            store.insert_user(NewUser { room_id, uuid });
            store.insert_message(
                NewMessage {
                    time: unixtime,
                    username,
                    message: String::new(),
                    room_id,
                    uuid,
                    protocol_type: 0,
                },
            );
            proof {
                assert(store.events@.take(old(store).events@.len() as int)
                    =~= old(store).events@);
                assert(actions@ =~= seq![
                    Action::RoomChange(room_id),
                    Action::Publish(
                        room_id,
                        TalkProtocol::UserJoined { uuid, username: gname, room_id, unixtime },
                    ),
                ]);
            }
            actions
        },
        TalkProtocol::LeaveRoom { room_id, uuid, username, unixtime } => {
            let ghost gname = username;
            let mut actions: Vec<Action> = Vec::new();
            let response = TalkProtocol::UserLeft {
                uuid,
                username: username.clone(),
                room_id,
                unixtime,
            };
            actions.push(Action::Publish(room_id, response));
            store.delete_user_by_uuid(uuid);
            store.insert_message(
                NewMessage {
                    time: unixtime,
                    username,
                    message: String::new(),
                    room_id,
                    uuid,
                    protocol_type: 1,
                },
            );
            proof {
                assert(store.events@.take(old(store).events@.len() as int)
                    =~= old(store).events@);
                assert(actions@ =~= seq![
                    Action::Publish(
                        room_id,
                        TalkProtocol::UserLeft { uuid, username: gname, room_id, unixtime },
                    ),
                ]);
            }
            actions
        },
        TalkProtocol::ChangeName { uuid, username, old_username, unixtime } => {
            let ghost gname = username;
            let ghost gold = old_username;
            let mut actions: Vec<Action> = Vec::new();
            let rows = store.get_room_id_by_uuid(uuid);
            if rows.len() > 0 {
                let room_id = rows[0].room_id;
                actions.push(
                    Action::Publish(
                        room_id,
                        TalkProtocol::UsernameChanged { uuid, username, old_username, unixtime },
                    ),
                );
                proof {
                    let u = spec_room_of(store.users@, uuid).unwrap();
                    assert(rows@[0] == u);
                    assert(actions@ =~= seq![
                        Action::Publish(
                            u.room_id,
                            TalkProtocol::UsernameChanged {
                                uuid,
                                username: gname,
                                old_username: gold,
                                unixtime,
                            },
                        ),
                    ]);
                }
            } else {
                proof {
                    assert(actions@ =~= Seq::<Action>::empty());
                }
            }
            actions
        },
        TalkProtocol::Fetch { room_id, limit, fetch_before } => {
            let hist = store.get_history(room_id, limit, fetch_before);
            let ghost h = spec_history(store.events@, room_id, limit, fetch_before);
            let ghost f = |m: Message| spec_row_event(m);
            let mut text: Vec<TalkProtocol> = Vec::new();
            let mut i: usize = 0;
            while i < hist.len()
                invariant
                    i <= hist@.len(),
                    hist@ == h,
                    h == spec_history(store.events@, room_id, limit, fetch_before),
                    store.wf(),
                    text@ == h.take(i as int).map_values(f),
                    f == (|m: Message| spec_row_event(m)),
                decreases hist@.len() - i,
            {
                proof {
                    lemma_history_properties(store.events@, room_id, limit, fetch_before);
                    lemma_filter_subset(
                        store.events@,
                        |m: Message| m.room_id == room_id && (fetch_before == 0 || m.time
                            < fetch_before),
                    );
                    assert(h.contains(h[i as int]));
                    assert(store.events@.contains(h[i as int]));
                    let j = choose|j: int|
                        0 <= j < store.events@.len() && store.events@[j] == h[i as int];
                    assert(0 <= store.events@[j].protocol_type <= 4);
                }
                let e = &hist[i];
                let ev = TalkProtocol::from_i16(
                    e.protocol_type,
                    e.room_id,
                    e.uuid,
                    e.username.clone(),
                    e.time,
                    e.message.clone(),
                );
                text.push(ev.unwrap());
                proof {
                    assert(h.take(i + 1).map_values(f) =~= h.take(i as int).map_values(f).push(
                        f(h[i as int]),
                    ));
                }
                i = i + 1;
            }
            proof {
                assert(h.take(h.len() as int) =~= h);
            }
            let mut actions: Vec<Action> = Vec::new();
            actions.push(Action::SendDirect(TalkProtocol::History { text }));
            actions
        },
        TalkProtocol::PostMessage { message } => {
            let ghost gmsg = message;
            let mut actions: Vec<Action> = Vec::new();
            let copy = TalkMessage {
                uuid: message.uuid,
                username: message.username.clone(),
                text: message.text.clone(),
                room_id: message.room_id,
                unixtime: message.unixtime,
            };
            actions.push(Action::Publish(message.room_id, TalkProtocol::PostMessage { message: copy }));
            store.insert_message(
                NewMessage {
                    time: message.unixtime,
                    username: message.username,
                    message: message.text,
                    room_id: message.room_id,
                    uuid: message.uuid,
                    protocol_type: 4,
                },
            );
            proof {
                assert(store.events@.take(old(store).events@.len() as int)
                    =~= old(store).events@);
                assert(actions@ =~= seq![
                    Action::Publish(gmsg.room_id, TalkProtocol::PostMessage { message: gmsg }),
                ]);
            }
            actions
        },
        _ => {
            let actions: Vec<Action> = Vec::new();
            proof {
                assert(actions@ =~= Seq::<Action>::empty());
            }
            actions
        },
    }
}

// ---------- trace laws ----------

/// The room a connection's engine tracks after a sequence of client
/// messages has been processed in order.
pub open spec fn spec_room_after(msgs: Seq<TalkProtocol>) -> Option<i32>
    decreases msgs.len(),
{
    if msgs.len() == 0 {
        None
    } else {
        spec_next_room(spec_room_after(msgs.drop_last()), msgs.last())
    }
}

/// The rooms of the JoinRoom messages in a trace, in order — exactly
/// the room-change requests the engine hands the subscriber.
pub open spec fn spec_joins(msgs: Seq<TalkProtocol>) -> Seq<i32>
    decreases msgs.len(),
{
    if msgs.len() == 0 {
        Seq::empty()
    } else {
        spec_joins(msgs.drop_last()) + (match msgs.last() {
            TalkProtocol::JoinRoom { room_id, .. } => seq![room_id],
            _ => Seq::empty(),
        })
    }
}

/// The subscriber's room after serving a sequence of room-change
/// requests in order.
pub open spec fn spec_sub_after(cur: Option<i32>, rooms: Seq<i32>) -> Option<i32>
    decreases rooms.len(),
{
    if rooms.len() == 0 {
        cur
    } else {
        spec_sub_after(Some(rooms.first()), rooms.drop_first())
    }
}

proof fn lemma_sub_after_last(cur: Option<i32>, rooms: Seq<i32>)
    ensures
        spec_sub_after(cur, rooms) == if rooms.len() == 0 {
            cur
        } else {
            Some(rooms.last())
        },
    decreases rooms.len(),
{
    if rooms.len() > 0 {
        lemma_sub_after_last(Some(rooms.first()), rooms.drop_first());
        if rooms.len() > 1 {
            assert(rooms.drop_first().last() == rooms.last());
        }
    }
}

/// The single-room law: at every point of a trace, the engine's notion
/// of the current room equals what the subscriber holds after serving
/// the trace's room changes, and both are the room of the most recent
/// JoinRoom — no room at all before the first one.
pub proof fn lemma_single_room(msgs: Seq<TalkProtocol>)
    ensures
        spec_room_after(msgs) == spec_sub_after(None, spec_joins(msgs)),
        spec_joins(msgs).len() == 0 ==> spec_room_after(msgs) is None,
        spec_joins(msgs).len() > 0 ==> spec_room_after(msgs) == Some(spec_joins(msgs).last()),
    decreases msgs.len(),
{
    lemma_sub_after_last(None, spec_joins(msgs));
    if msgs.len() > 0 {
        lemma_single_room(msgs.drop_last());
        lemma_sub_after_last(None, spec_joins(msgs.drop_last()));
        match msgs.last() {
            TalkProtocol::JoinRoom { room_id, .. } => {
                assert(spec_joins(msgs).last() == room_id);
            },
            _ => {
                assert(spec_joins(msgs) =~= spec_joins(msgs.drop_last()));
            },
        }
    }
}

/// One operation as the cluster sees it.
#[derive(Debug, Clone, Copy, PartialEq, Eq, Structural)]
pub enum WireOp {
    Unsubscribe(i32),
    Subscribe(i32),
    Publish(i32),
}

/// The subscription steps a room change performs on the cluster: the
/// cluster-visible part of `spec_room_change`, in the same order.
pub open spec fn spec_sub_wire_ops(cur: Option<i32>, room: i32) -> Seq<WireOp> {
    match cur {
        Some(old_room) => if old_room == room {
            Seq::empty()
        } else {
            seq![WireOp::Unsubscribe(old_room), WireOp::Subscribe(room)]
        },
        None => seq![WireOp::Subscribe(room)],
    }
}

/// Everything a JoinRoom puts on the cluster connection, in order: the
/// room change first — acknowledged before the engine goes on — then
/// the UserJoined publish.
pub open spec fn spec_join_wire_ops(cur: Option<i32>, room: i32) -> Seq<WireOp> {
    spec_sub_wire_ops(cur, room) + seq![WireOp::Publish(room)]
}

/// The subscribe-before-publish law: in the cluster operations of a
/// JoinRoom, the publish comes last; when the subscription actually
/// moves, the subscribe to the new room stands immediately before it,
/// and nothing is published earlier.
pub proof fn lemma_subscribe_before_publish(cur: Option<i32>, room: i32)
    ensures
        ({
            let ops = spec_join_wire_ops(cur, room);
            &&& ops.len() > 0
            &&& ops.last() == WireOp::Publish(room)
            &&& forall|i: int| 0 <= i < ops.len() - 1 ==> !((#[trigger] ops[i]) is Publish)
            &&& cur != Some(room) ==> ops[ops.len() - 2] == WireOp::Subscribe(room)
        }),
{
}

} // verus!
