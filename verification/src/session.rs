//! One connection's tasks, wired together and verified: inbound events
//! run through the engine; room changes are served by the subscriber
//! before anything after them runs; publishes go out on the cluster
//! and — whenever this connection is subscribed to the published room
//! — come straight back as frames, exactly as the sharded channel
//! delivers them. Every cluster operation is recorded in order, so the
//! subscribe-before-publish discipline and the echo to self are part
//! of the contract.

use crate::codec::{lemma_round_trip, spec_encode};
use crate::engine::{
    handle_message, spec_next_room, spec_persist_tag, spec_row_event, Action, ConnState,
};
use crate::protocol::{event_view, events_view, EventView, TalkProtocol};
use crate::store::{spec_history, spec_room_of, Message, Store, User};
use crate::subscriber::{
    handle_push, spec_room_change, PushKind, PushValue, SubAction, SubscriberState,
};
use vstd::prelude::*;

verus! {

/// One operation as it went out on the cluster connection.
#[derive(Debug, PartialEq)]
pub enum LogOp {
    Subscribe(i32),
    Unsubscribe(i32),
    Publish(i32, Vec<u8>),
}

/// The model of a logged operation: the publish payload as bytes.
pub enum LogOpView {
    Subscribe(i32),
    Unsubscribe(i32),
    Publish(i32, Seq<u8>),
}

impl View for LogOp {
    type V = LogOpView;

    open spec fn view(&self) -> LogOpView {
        match self {
            LogOp::Subscribe(r) => LogOpView::Subscribe(*r),
            LogOp::Unsubscribe(r) => LogOpView::Unsubscribe(*r),
            LogOp::Publish(r, frame) => LogOpView::Publish(*r, frame@),
        }
    }
}

/// The views of a log.
pub open spec fn ops_view(s: Seq<LogOp>) -> Seq<LogOpView> {
    s.map_values(|op: LogOp| op@)
}

/// The byte views of a stack of frames.
pub open spec fn frames_view(s: Seq<Vec<u8>>) -> Seq<Seq<u8>> {
    s.map_values(|f: Vec<u8>| f@)
}

/// The cluster operations of one room change: `spec_room_change`
/// without the acknowledgement, which stays inside the process.
pub open spec fn spec_sub_log(cur: Option<i32>, room: i32) -> Seq<LogOpView> {
    match cur {
        Some(old_room) => if old_room == room {
            Seq::<LogOpView>::empty()
        } else {
            seq![LogOpView::Unsubscribe(old_room), LogOpView::Subscribe(room)]
        },
        None => seq![LogOpView::Subscribe(room)],
    }
}

/// The cluster operations a run of subscription steps logs: every
/// step but the acknowledgement, in order.
pub open spec fn sub_log_of(s: Seq<SubAction>) -> Seq<LogOpView>
    decreases s.len(),
{
    if s.len() == 0 {
        Seq::empty()
    } else {
        sub_log_of(s.drop_last()) + (match s.last() {
            SubAction::Subscribe(r) => seq![LogOpView::Subscribe(r)],
            SubAction::Unsubscribe(r) => seq![LogOpView::Unsubscribe(r)],
            SubAction::Ack => Seq::<LogOpView>::empty(),
        })
    }
}

proof fn lemma_sub_log_of_room_change(cur: Option<i32>, room: i32)
    ensures
        sub_log_of(spec_room_change(cur, room)) == spec_sub_log(cur, room),
{
    reveal_with_fuel(sub_log_of, 5);
    match cur {
        Some(old_room) => {
            if old_room == room {
                let s = seq![SubAction::Ack];
                assert(s.drop_last() =~= Seq::<SubAction>::empty());
                assert(sub_log_of(s) =~= spec_sub_log(cur, room));
            } else {
                let s = seq![
                    SubAction::Unsubscribe(old_room),
                    SubAction::Subscribe(room),
                    SubAction::Ack,
                ];
                assert(s.drop_last() =~= seq![
                    SubAction::Unsubscribe(old_room),
                    SubAction::Subscribe(room),
                ]);
                assert(s.drop_last().drop_last() =~= seq![SubAction::Unsubscribe(old_room)]);
                assert(s.drop_last().drop_last().drop_last() =~= Seq::<SubAction>::empty());
                assert(sub_log_of(s) =~= spec_sub_log(cur, room));
            }
        },
        None => {
            let s = seq![SubAction::Subscribe(room), SubAction::Ack];
            assert(s.drop_last() =~= seq![SubAction::Subscribe(room)]);
            assert(s.drop_last().drop_last() =~= Seq::<SubAction>::empty());
            assert(sub_log_of(s) =~= spec_sub_log(cur, room));
        },
    }
}

/// Runs an action list at the specification level: the subscription
/// after it, the cluster operations it logs, and the frames the peer
/// is handed — echoes of own publishes on the subscribed room, and
/// direct replies.
pub open spec fn spec_run_actions(cur: Option<i32>, acts: Seq<Action>) -> (
    Option<i32>,
    Seq<LogOpView>,
    Seq<Seq<u8>>,
)
    decreases acts.len(),
{
    if acts.len() == 0 {
        (cur, Seq::empty(), Seq::empty())
    } else {
        match acts.first() {
            Action::RoomChange(room) => {
                let rest = spec_run_actions(Some(room), acts.drop_first());
                (rest.0, spec_sub_log(cur, room) + rest.1, rest.2)
            },
            Action::Publish(room, event) => {
                let rest = spec_run_actions(cur, acts.drop_first());
                let echo: Seq<Seq<u8>> = if cur == Some(room) {
                    seq![spec_encode(event_view(event))]
                } else {
                    Seq::empty()
                };
                (
                    rest.0,
                    seq![LogOpView::Publish(room, spec_encode(event_view(event)))] + rest.1,
                    echo + rest.2,
                )
            },
            Action::SendDirect(event) => {
                let rest = spec_run_actions(cur, acts.drop_first());
                (rest.0, rest.1, seq![spec_encode(event_view(event))] + rest.2)
            },
        }
    }
}

/// The room and event one inbound message publishes, if any: the
/// server-facing counterpart of a client command, on the channel the
/// command names — for a rename, on the room of the user's most
/// recent row.
pub open spec fn spec_published(msg: TalkProtocol, users: Seq<User>) -> Option<(i32, EventView)> {
    match msg {
        TalkProtocol::JoinRoom { room_id, uuid, username, unixtime } => Some(
            ((room_id, EventView::UserJoined { uuid, username: username@, room_id, unixtime })),
        ),
        TalkProtocol::LeaveRoom { room_id, uuid, username, unixtime } => Some(
            ((room_id, EventView::UserLeft { uuid, username: username@, room_id, unixtime })),
        ),
        TalkProtocol::ChangeName { uuid, username, old_username, unixtime } => match spec_room_of(
            users,
            uuid,
        ) {
            Some(u) => Some(
                (
                    (
                        u.room_id,
                        EventView::UsernameChanged {
                            uuid,
                            username: username@,
                            old_username: old_username@,
                            unixtime,
                        },
                    )
                ),
            ),
            None => None,
        },
        TalkProtocol::PostMessage { message } => Some(
            ((message.room_id, EventView::PostMessage { message: message@ })),
        ),
        _ => None,
    }
}

/// The cluster operations one inbound message causes, in order: the
/// subscription steps of its room change, then its publish. The
/// subscribe to a joined room therefore always precedes the publish
/// on it.
pub open spec fn spec_session_log_delta(
    cur: Option<i32>,
    msg: TalkProtocol,
    users: Seq<User>,
) -> Seq<LogOpView> {
    let subs = match msg {
        TalkProtocol::JoinRoom { room_id, .. } => spec_sub_log(cur, room_id),
        _ => Seq::<LogOpView>::empty(),
    };
    match spec_published(msg, users) {
        Some((room, v)) => subs.push(LogOpView::Publish(room, spec_encode(v))),
        None => subs,
    }
}

/// Subscribe before publish, at the level of the recorded log: a
/// JoinRoom's operations end with the UserJoined publish, nothing
/// before it is a publish, and whenever the subscription actually
/// moves, the subscribe to the joined room stands immediately before
/// the publish.
pub proof fn lemma_session_subscribe_before_publish(
    cur: Option<i32>,
    msg: TalkProtocol,
    users: Seq<User>,
)
    requires
        msg is JoinRoom,
    ensures
        ({
            let ops = spec_session_log_delta(cur, msg, users);
            let room = msg->JoinRoom_room_id;
            &&& ops.len() > 0
            &&& ops.last() is Publish
            &&& ops.last()->Publish_0 == room
            &&& forall|i: int| 0 <= i < ops.len() - 1 ==> !((#[trigger] ops[i]) is Publish)
            &&& cur != Some(room) ==> ops[ops.len() - 2] == LogOpView::Subscribe(room)
        }),
{
}

/// The frames one inbound message hands this connection's peer: the
/// echo of its own publish whenever the connection is subscribed to
/// the published room once the message's room change is in force,
/// then the direct History reply of a Fetch.
pub open spec fn spec_session_inbox_delta(
    cur: Option<i32>,
    msg: TalkProtocol,
    users: Seq<User>,
    events: Seq<Message>,
) -> Seq<Seq<u8>> {
    let room_after = spec_next_room(cur, msg);
    let echoes: Seq<Seq<u8>> = match spec_published(msg, users) {
        Some((room, v)) => if room_after == Some(room) {
            seq![spec_encode(v)]
        } else {
            Seq::empty()
        },
        None => Seq::empty(),
    };
    match msg {
        TalkProtocol::Fetch { room_id, limit, fetch_before } => echoes.push(
            spec_encode(
                EventView::History {
                    text: spec_history(events, room_id, limit, fetch_before).map_values(
                        |m: Message| event_view(spec_row_event(m)),
                    ),
                },
            ),
        ),
        _ => echoes,
    }
}

/// One connection of the server, with everything it owns: its
/// protocol state, its subscription, the store, the frames awaiting
/// its peer, and the log of what it has put on the cluster.
pub struct Session {
    pub state: ConnState,
    pub sub: SubscriberState,
    pub store: Store,
    pub inbox: Vec<Vec<u8>>,
    pub log: Vec<LogOp>,
}

impl Session {
    /// The engine's idea of the current room and the subscriber's
    /// agree, and the store is sound.
    pub open spec fn wf(self) -> bool {
        &&& self.store.wf()
        &&& self.state.subscribed_room == self.sub.current
    }

    pub fn new() -> (r: Session)
        ensures
            r.wf(),
            r.state.subscribed_room is None,
            r.store.users@ == Seq::<User>::empty(),
            r.store.events@ == Seq::<Message>::empty(),
            r.inbox@ == Seq::<Vec<u8>>::empty(),
            r.log@ == Seq::<LogOp>::empty(),
    {
        Session {
            state: ConnState::new(),
            sub: SubscriberState::new(),
            store: Store::new(),
            inbox: Vec::new(),
            log: Vec::new(),
        }
    }

    /// Performs one engine action: a room change is served by the
    /// subscriber and its wire steps logged; a publish is logged and,
    /// when this connection is subscribed to the room, delivered back
    /// through the push handler byte-for-byte; a direct reply goes
    /// straight to the inbox.
    #[verifier::loop_isolation(false)]
    fn perform(&mut self, action: Action)
        ensures
            final(self).state == old(self).state,
            final(self).store == old(self).store,
            ({
                let run = spec_run_actions(old(self).sub.current, seq![action]);
                &&& final(self).sub.current == run.0
                &&& ops_view(final(self).log@) == ops_view(old(self).log@) + run.1
                &&& frames_view(final(self).inbox@) == frames_view(old(self).inbox@) + run.2
            }),
    {
        proof {
            reveal_with_fuel(spec_run_actions, 3);
            assert(seq![action].first() == action);
            assert(seq![action].drop_first() =~= Seq::<Action>::empty());
        }
        match action {
            Action::RoomChange(room) => {
                let ghost cur0 = self.sub.current;
                let ghost log0 = self.log@;
                let acts = self.sub.room_change(room);
                let mut j: usize = 0;
                while j < acts.len()
                    invariant
                        j <= acts@.len(),
                        ops_view(self.log@) == ops_view(log0) + sub_log_of(acts@.take(j as int)),
                        self.state == old(self).state,
                        self.store == old(self).store,
                        self.inbox@ == old(self).inbox@,
                        self.sub.current == Some(room),
                    decreases acts@.len() - j,
                {
                    proof {
                        assert(acts@.take(j + 1).drop_last() =~= acts@.take(j as int));
                        assert(acts@.take(j + 1).last() == acts@[j as int]);
                    }
                    match acts[j] {
                        SubAction::Subscribe(r) => {
                            let ghost lp = self.log@;
                            self.log.push(LogOp::Subscribe(r));
                            proof {
                                assert(ops_view(self.log@) =~= ops_view(lp).push(
                                    LogOpView::Subscribe(r),
                                ));
                                assert(sub_log_of(acts@.take(j + 1)) =~= sub_log_of(
                                    acts@.take(j as int),
                                ) + seq![LogOpView::Subscribe(r)]);
                                assert(ops_view(self.log@) =~= ops_view(log0) + sub_log_of(
                                    acts@.take(j + 1),
                                ));
                            }
                        },
                        SubAction::Unsubscribe(r) => {
                            let ghost lp = self.log@;
                            self.log.push(LogOp::Unsubscribe(r));
                            proof {
                                assert(ops_view(self.log@) =~= ops_view(lp).push(
                                    LogOpView::Unsubscribe(r),
                                ));
                                assert(sub_log_of(acts@.take(j + 1)) =~= sub_log_of(
                                    acts@.take(j as int),
                                ) + seq![LogOpView::Unsubscribe(r)]);
                                assert(ops_view(self.log@) =~= ops_view(log0) + sub_log_of(
                                    acts@.take(j + 1),
                                ));
                            }
                        },
                        SubAction::Ack => {
                            proof {
                                assert(sub_log_of(acts@.take(j + 1)) =~= sub_log_of(
                                    acts@.take(j as int),
                                ));
                            }
                        },
                    }
                    j = j + 1;
                }
                proof {
                    assert(acts@.take(acts@.len() as int) =~= acts@);
                    lemma_sub_log_of_room_change(cur0, room);
                    assert(ops_view(self.log@) =~= ops_view(log0) + (spec_sub_log(cur0, room)
                        + Seq::<LogOpView>::empty()));
                    assert(frames_view(self.inbox@) =~= frames_view(old(self).inbox@)
                        + Seq::<Seq<u8>>::empty());
                }
            },
            Action::Publish(room, event) => {
                let ghost v = event_view(event);
                let frame = event.serialize();
                let mut deliver = false;
                if let Some(current) = self.sub.current {
                    if current == room {
                        deliver = true;
                    }
                }
                if deliver {
                    let data = vec![PushValue::Other, PushValue::BulkString(copy_bytes(&frame))];
                    proof {
                        lemma_round_trip(v);
                    }
                    let delivered = handle_push(PushKind::SMessage, data);
                    self.inbox.push(delivered.unwrap());
                    proof {
                        assert(frames_view(self.inbox@) =~= frames_view(old(self).inbox@) + (seq![
                            spec_encode(v),
                        ] + Seq::<Seq<u8>>::empty()));
                    }
                } else {
                    proof {
                        assert(frames_view(self.inbox@) =~= frames_view(old(self).inbox@) + (
                        Seq::<Seq<u8>>::empty() + Seq::<Seq<u8>>::empty()));
                    }
                }
                self.log.push(LogOp::Publish(room, frame));
                proof {
                    assert(ops_view(self.log@) =~= ops_view(old(self).log@) + (seq![
                        LogOpView::Publish(room, spec_encode(v)),
                    ] + Seq::<LogOpView>::empty()));
                }
            },
            Action::SendDirect(event) => {
                let ghost v = event_view(event);
                self.inbox.push(event.serialize());
                proof {
                    assert(frames_view(self.inbox@) =~= frames_view(old(self).inbox@) + (seq![
                        spec_encode(v),
                    ] + Seq::<Seq<u8>>::empty()));
                    assert(ops_view(self.log@) =~= ops_view(old(self).log@)
                        + Seq::<LogOpView>::empty());
                }
            },
        }
    }

    /// Processes one decoded inbound frame end to end: the engine
    /// decides and persists, then the actions run in order.
    #[verifier::loop_isolation(false)]
    #[verifier::rlimit(100)]
    pub fn step(&mut self, msg: TalkProtocol)
        requires
            old(self).wf(),
            old(self).store.next_event_id < u64::MAX,
            old(self).store.next_user_id < u64::MAX,
        ensures
            final(self).wf(),
            final(self).state.subscribed_room == spec_next_room(
                old(self).state.subscribed_room,
                msg,
            ),
            ops_view(final(self).log@) == ops_view(old(self).log@) + spec_session_log_delta(
                old(self).sub.current,
                msg,
                old(self).store.users@,
            ),
            frames_view(final(self).inbox@) == frames_view(old(self).inbox@)
                + spec_session_inbox_delta(
                old(self).sub.current,
                msg,
                old(self).store.users@,
                old(self).store.events@,
            ),
            final(self).store.events@.len() == old(self).store.events@.len() + (
            match spec_persist_tag(msg) {
                Some(_) => 1int,
                None => 0int,
            }),
    {
        let ghost cur0 = self.sub.current;
        let ghost users0 = self.store.users@;
        let ghost events0 = self.store.events@;
        let ghost log0 = self.log@;
        let ghost inbox0 = self.inbox@;
        let ghost gmsg = msg;
        let actions = handle_message(msg, &mut self.state, &mut self.store);
        let ghost all = actions@;
        let ghost state1 = self.state;
        let ghost store1 = self.store;
        let mut actions = actions;
        while actions.len() > 0
            invariant
                self.state == state1,
                self.store == store1,
                spec_run_actions(cur0, all).0 == spec_run_actions(
                    self.sub.current,
                    actions@,
                ).0,
                ops_view(log0) + spec_run_actions(cur0, all).1 == ops_view(self.log@)
                    + spec_run_actions(self.sub.current, actions@).1,
                frames_view(inbox0) + spec_run_actions(cur0, all).2 == frames_view(self.inbox@)
                    + spec_run_actions(self.sub.current, actions@).2,
            decreases actions@.len(),
        {
            let ghost before = actions@;
            let ghost curb = self.sub.current;
            let ghost logb = self.log@;
            let ghost inbb = self.inbox@;
            let a = actions.remove(0);
            let ghost ga = a;
            proof {
                assert(actions@ =~= before.drop_first());
                assert(before.first() == ga);
            }
            self.perform(a);
            proof {
                assert(before =~= seq![ga] + before.drop_first());
                lemma_run_compose(curb, ga, before.drop_first());
                assert(seq![ga].drop_first() =~= Seq::<Action>::empty());
                assert((ops_view(logb) + spec_run_actions(curb, seq![ga]).1)
                    + spec_run_actions(self.sub.current, actions@).1 =~= ops_view(logb) + (
                spec_run_actions(curb, seq![ga]).1 + spec_run_actions(
                    self.sub.current,
                    actions@,
                ).1));
                assert((frames_view(inbb) + spec_run_actions(curb, seq![ga]).2)
                    + spec_run_actions(self.sub.current, actions@).2 =~= frames_view(inbb) + (
                spec_run_actions(curb, seq![ga]).2 + spec_run_actions(
                    self.sub.current,
                    actions@,
                ).2));
            }
        }
        proof {
            assert(spec_run_actions(self.sub.current, actions@).1 =~= Seq::<LogOpView>::empty());
            assert(spec_run_actions(self.sub.current, actions@).2 =~= Seq::<Seq<u8>>::empty());
            assert(ops_view(log0) + spec_run_actions(cur0, all).1 =~= ops_view(self.log@));
            assert(frames_view(inbox0) + spec_run_actions(cur0, all).2 =~= frames_view(
                self.inbox@,
            ));
            lemma_engine_run_deltas(cur0, gmsg, users0, events0, all);
        }
    }
}

/// Running `[a] + rest` is running `a`, then `rest` from the
/// subscription `a` leaves.
proof fn lemma_run_compose(cur: Option<i32>, a: Action, rest: Seq<Action>)
    ensures
        ({
            let head = spec_run_actions(cur, seq![a]);
            let tail = spec_run_actions(head.0, rest);
            let whole = spec_run_actions(cur, seq![a] + rest);
            &&& whole.0 == tail.0
            &&& whole.1 == head.1 + tail.1
            &&& whole.2 == head.2 + tail.2
        }),
{
    reveal_with_fuel(spec_run_actions, 3);
    let s = seq![a] + rest;
    assert(s.first() == a);
    assert(s.drop_first() =~= rest);
    assert(seq![a].first() == a);
    assert(seq![a].drop_first() =~= Seq::<Action>::empty());
    let head = spec_run_actions(cur, seq![a]);
    let tail = spec_run_actions(head.0, rest);
    match a {
        Action::RoomChange(room) => {
            assert(spec_run_actions(cur, s).1 =~= head.1 + tail.1);
            assert(spec_run_actions(cur, s).2 =~= head.2 + tail.2);
        },
        Action::Publish(room, event) => {
            assert(spec_run_actions(cur, s).1 =~= head.1 + tail.1);
            assert(spec_run_actions(cur, s).2 =~= head.2 + tail.2);
        },
        Action::SendDirect(event) => {
            assert(spec_run_actions(cur, s).1 =~= head.1 + tail.1);
            assert(spec_run_actions(cur, s).2 =~= head.2 + tail.2);
        },
    }
}

/// The view of a sequence of events is its elementwise view.
proof fn lemma_events_view_is_map(s: Seq<TalkProtocol>)
    ensures
        events_view(s) == s.map_values(|p: TalkProtocol| event_view(p)),
    decreases s.len(),
{
    if s.len() == 0 {
        assert(events_view(s) =~= s.map_values(|p: TalkProtocol| event_view(p)));
    } else {
        lemma_events_view_is_map(s.drop_last());
        assert(events_view(s) =~= s.map_values(|p: TalkProtocol| event_view(p)));
    }
}

/// Running the engine's action list for one message gives exactly the
/// session's log and inbox deltas.
#[verifier::rlimit(100)]
proof fn lemma_engine_run_deltas(
    cur: Option<i32>,
    msg: TalkProtocol,
    users: Seq<User>,
    events: Seq<Message>,
    all: Seq<Action>,
)
    requires
        match msg {
            TalkProtocol::JoinRoom { room_id, uuid, username, unixtime } => all == seq![
                Action::RoomChange(room_id),
                Action::Publish(
                    room_id,
                    TalkProtocol::UserJoined { uuid, username, room_id, unixtime },
                ),
            ],
            TalkProtocol::LeaveRoom { room_id, uuid, username, unixtime } => all == seq![
                Action::Publish(
                    room_id,
                    TalkProtocol::UserLeft { uuid, username, room_id, unixtime },
                ),
            ],
            TalkProtocol::ChangeName { uuid, username, old_username, unixtime } => match spec_room_of(
                users,
                uuid,
            ) {
                Some(u) => all == seq![
                    Action::Publish(
                        u.room_id,
                        TalkProtocol::UsernameChanged { uuid, username, old_username, unixtime },
                    ),
                ],
                None => all == Seq::<Action>::empty(),
            },
            TalkProtocol::Fetch { room_id, limit, fetch_before } => {
                &&& all.len() == 1
                &&& (all[0] matches Action::SendDirect(TalkProtocol::History { text }) && text@
                    == spec_history(events, room_id, limit, fetch_before).map_values(
                    |m: Message| spec_row_event(m),
                ))
            },
            TalkProtocol::PostMessage { message } => all == seq![
                Action::Publish(message.room_id, TalkProtocol::PostMessage { message }),
            ],
            _ => all == Seq::<Action>::empty(),
        },
    ensures
        spec_run_actions(cur, all).0 == spec_next_room(cur, msg),
        spec_run_actions(cur, all).1 == spec_session_log_delta(cur, msg, users),
        spec_run_actions(cur, all).2 == spec_session_inbox_delta(cur, msg, users, events),
{
    reveal_with_fuel(spec_run_actions, 4);
    match msg {
        TalkProtocol::JoinRoom { room_id, uuid, username, unixtime } => {
            assert(all.first() == Action::RoomChange(room_id));
            assert(all.drop_first() =~= seq![
                Action::Publish(
                    room_id,
                    TalkProtocol::UserJoined { uuid, username, room_id, unixtime },
                ),
            ]);
            assert(all.drop_first().drop_first() =~= Seq::<Action>::empty());
            assert(spec_run_actions(cur, all).1 =~= spec_session_log_delta(cur, msg, users));
            assert(spec_run_actions(cur, all).2 =~= spec_session_inbox_delta(
                cur,
                msg,
                users,
                events,
            ));
        },
        TalkProtocol::LeaveRoom { room_id, uuid, username, unixtime } => {
            assert(all.drop_first() =~= Seq::<Action>::empty());
            assert(spec_run_actions(cur, all).1 =~= spec_session_log_delta(cur, msg, users));
            assert(spec_run_actions(cur, all).2 =~= spec_session_inbox_delta(
                cur,
                msg,
                users,
                events,
            ));
        },
        TalkProtocol::ChangeName { uuid, username, old_username, unixtime } => {
            match spec_room_of(users, uuid) {
                Some(u) => {
                    assert(all.drop_first() =~= Seq::<Action>::empty());
                    assert(spec_run_actions(cur, all).1 =~= spec_session_log_delta(
                        cur,
                        msg,
                        users,
                    ));
                    assert(spec_run_actions(cur, all).2 =~= spec_session_inbox_delta(
                        cur,
                        msg,
                        users,
                        events,
                    ));
                },
                None => {
                    assert(spec_run_actions(cur, all).1 =~= spec_session_log_delta(
                        cur,
                        msg,
                        users,
                    ));
                    assert(spec_run_actions(cur, all).2 =~= spec_session_inbox_delta(
                        cur,
                        msg,
                        users,
                        events,
                    ));
                },
            }
        },
        TalkProtocol::Fetch { room_id, limit, fetch_before } => {
            assert(all.first() == all[0]);
            assert(all.drop_first() =~= Seq::<Action>::empty());
            match all[0] {
                Action::SendDirect(p) => match p {
                    TalkProtocol::History { text } => {
                        lemma_events_view_is_map(text@);
                        assert(events_view(text@) =~= spec_history(
                            events,
                            room_id,
                            limit,
                            fetch_before,
                        ).map_values(|m: Message| event_view(spec_row_event(m))));
                        assert(spec_run_actions(cur, all).1 =~= spec_session_log_delta(
                            cur,
                            msg,
                            users,
                        ));
                        assert(spec_run_actions(cur, all).2 =~= spec_session_inbox_delta(
                            cur,
                            msg,
                            users,
                            events,
                        ));
                    },
                    _ => {
                        assert(false);
                    },
                },
                _ => {
                    assert(false);
                },
            }
        },
        TalkProtocol::PostMessage { message } => {
            assert(all.drop_first() =~= Seq::<Action>::empty());
            assert(spec_run_actions(cur, all).1 =~= spec_session_log_delta(cur, msg, users));
            assert(spec_run_actions(cur, all).2 =~= spec_session_inbox_delta(
                cur,
                msg,
                users,
                events,
            ));
        },
        _ => {
            assert(spec_run_actions(cur, all).1 =~= spec_session_log_delta(cur, msg, users));
            assert(spec_run_actions(cur, all).2 =~= spec_session_inbox_delta(
                cur,
                msg,
                users,
                events,
            ));
        },
    }
}

/// A fresh copy of a frame's bytes.
fn copy_bytes(b: &Vec<u8>) -> (r: Vec<u8>)
    ensures
        r@ == b@,
{
    let mut out: Vec<u8> = Vec::new();
    let mut i: usize = 0;
    while i < b.len()
        invariant
            i <= b@.len(),
            out@ == b@.take(i as int),
        decreases b@.len() - i,
    {
        out.push(b[i]);
        proof {
            assert(b@.take(i + 1) =~= b@.take(i as int).push(b@[i as int]));
        }
        i = i + 1;
    }
    proof {
        assert(b@.take(b@.len() as int) =~= b@);
    }
    out
}

} // verus!
