//! The room subscriber: the control-side state machine that keeps one
//! connection's pub/sub subscription on exactly one room channel, and
//! the delivery-side handling that turns cluster push notifications
//! into outbound frames.

use crate::codec::{spec_decode_at, spec_encode, wf_view};
use crate::protocol::{EventView, TalkProtocol};
use crate::text::{format_i32, spec_decimal_i32};
use vstd::prelude::*;

verus! {

/// Which room's channel the connection's pub/sub connection is
/// subscribed to; `None` before the first room change.
pub struct SubscriberState {
    pub current: Option<i32>,
}

/// One step taken on the cluster connection, or the acknowledgement
/// sent back to the engine.
#[derive(Debug, Clone, Copy, PartialEq, Eq, Structural)]
pub enum SubAction {
    /// Sharded-unsubscribe from the room's channel.
    Unsubscribe(i32),
    /// Sharded-subscribe to the room's channel.
    Subscribe(i32),
    /// Signal the engine that the requested subscription is in force.
    Ack,
}

/// The steps a room-change request triggers: nothing but an
/// acknowledgement when already on the room; otherwise leave the old
/// room (if any), enter the new one, and only then acknowledge.
pub open spec fn spec_room_change(cur: Option<i32>, room: i32) -> Seq<SubAction> {
    match cur {
        Some(old_room) => if old_room == room {
            seq![SubAction::Ack]
        } else {
            seq![
                SubAction::Unsubscribe(old_room),
                SubAction::Subscribe(room),
                SubAction::Ack,
            ]
        },
        None => seq![SubAction::Subscribe(room), SubAction::Ack],
    }
}

impl SubscriberState {
    pub fn new() -> (r: SubscriberState)
        ensures
            r.current is None,
    {
        SubscriberState { current: None }
    }

    /// Processes one room-change request, returning the cluster steps
    /// to perform in order. Afterwards the subscription is on `room`,
    /// and on `room` alone.
    pub fn room_change(&mut self, room: i32) -> (acts: Vec<SubAction>)
        ensures
            final(self).current == Some(room),
            acts@ == spec_room_change(old(self).current, room),
    {
        let mut acts: Vec<SubAction> = Vec::new();
        match self.current {
            Some(old_room) => {
                if old_room == room {
                    acts.push(SubAction::Ack);
                    proof {
                        assert(acts@ =~= seq![SubAction::Ack]);
                    }
                } else {
                    acts.push(SubAction::Unsubscribe(old_room));
                    acts.push(SubAction::Subscribe(room));
                    acts.push(SubAction::Ack);
                    proof {
                        assert(acts@ =~= seq![
                            SubAction::Unsubscribe(old_room),
                            SubAction::Subscribe(room),
                            SubAction::Ack,
                        ]);
                    }
                }
            },
            None => {
                acts.push(SubAction::Subscribe(room));
                acts.push(SubAction::Ack);
                proof {
                    assert(acts@ =~= seq![SubAction::Subscribe(room), SubAction::Ack]);
                }
            },
        }
        self.current = Some(room);
        acts
    }
}

/// The channel a room is published on: the decimal text of its id.
pub fn room_channel_name(room_id: i32) -> (r: String)
    ensures
        r@ == spec_decimal_i32(room_id),
{
    format_i32(room_id)
}

/// Whatever the subscription is, the acknowledgement comes last, and a
/// subscribe to the requested room precedes it whenever the
/// subscription actually moves.
pub proof fn lemma_ack_follows_subscribe(cur: Option<i32>, room: i32)
    ensures
        ({
            let acts = spec_room_change(cur, room);
            &&& acts.len() > 0
            &&& acts.last() == SubAction::Ack
            &&& cur != Some(room) ==> acts[acts.len() - 2] == SubAction::Subscribe(room)
            &&& forall|i: int|
                0 <= i < acts.len() && acts[i] is Ack ==> i == acts.len() - 1
        }),
{
}

/// One value of a cluster push notification, as the delivery loop
/// reads it: either a binary payload or something it ignores.
#[derive(Debug, PartialEq)]
pub enum PushValue {
    BulkString(Vec<u8>),
    Other,
}

/// The kind of a cluster push notification.
#[derive(Debug, Clone, Copy, PartialEq, Eq, Structural)]
pub enum PushKind {
    SMessage,
    PMessage,
    Other,
}

/// The binary payload of a pattern-message notification, whose values
/// are pattern, channel, payload.
pub fn extract_binary_payload_from_pmessage(data: Vec<PushValue>) -> (r: Option<Vec<u8>>)
    ensures
        match r {
            Some(p) => data@.len() >= 3 && (data@[2] matches PushValue::BulkString(b) && p == b),
            None => data@.len() < 3 || !(data@[2] is BulkString),
        },
{
    let mut data = data;
    if data.len() >= 3 {
        match data.remove(2) {
            PushValue::BulkString(b) => Some(b),
            PushValue::Other => None,
        }
    } else {
        None
    }
}

/// The binary payload of a direct-message notification, whose values
/// are channel, payload.
pub fn extract_binary_payload_from_message(data: Vec<PushValue>) -> (r: Option<Vec<u8>>)
    ensures
        match r {
            Some(p) => data@.len() >= 2 && (data@[1] matches PushValue::BulkString(b) && p == b),
            None => data@.len() < 2 || !(data@[1] is BulkString),
        },
{
    let mut data = data;
    if data.len() >= 2 {
        match data.remove(1) {
            PushValue::BulkString(b) => Some(b),
            PushValue::Other => None,
        }
    } else {
        None
    }
}

/// The outbound frame a push notification produces: only a
/// sharded-message whose payload decodes to an event is forwarded, and
/// it is forwarded re-encoded.
pub open spec fn spec_push_frame(kind: PushKind, data: Seq<PushValue>) -> Option<Seq<u8>> {
    if kind != PushKind::SMessage || data.len() < 2 {
        None
    } else {
        match data[1] {
            PushValue::BulkString(b) => match spec_decode_at(b@, 0) {
                Some(pr) => Some(spec_encode(pr.0)),
                None => None,
            },
            PushValue::Other => None,
        }
    }
}

/// The delivery loop's decision for one push notification.
pub fn handle_push(kind: PushKind, data: Vec<PushValue>) -> (r: Option<Vec<u8>>)
    ensures
        match r {
            Some(frame) => spec_push_frame(kind, data@) == Some(frame@),
            None => spec_push_frame(kind, data@) is None,
        },
{
    match kind {
        PushKind::SMessage => {
            match extract_binary_payload_from_message(data) {
                None => None,
                Some(payload) => {
                    match TalkProtocol::deserialize(payload.as_slice()) {
                        Ok(event) => Some(event.serialize()),
                        Err(_) => None,
                    }
                },
            }
        },
        _ => None,
    }
}

/// Echo to self: a frame published as the encoding of a well-formed
/// event is delivered back byte-for-byte by the push handler, so a
/// connection subscribed to the room it published on receives its own
/// message.
pub proof fn lemma_echo_delivery(v: EventView, data: Seq<PushValue>)
    requires
        wf_view(v),
        data.len() >= 2,
        data[1] matches PushValue::BulkString(b) && b@ == spec_encode(v),
    ensures
        spec_push_frame(PushKind::SMessage, data) == Some(spec_encode(v)),
{
    crate::codec::lemma_round_trip(v);
}

} // verus!
