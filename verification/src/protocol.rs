//! The `Event` sum type spoken on the wire in both directions, and the
//! mapping between its server-facing variants and the small integer
//! `kind_tag` stored in the durable event stream.

use vstd::prelude::*;

verus! {

/// A posted chat message: who said what, in which room, and when.
///
/// The user identity is a 128-bit value chosen by the client; the
/// timestamp is seconds since the Unix epoch, also client-supplied.
#[derive(Debug, PartialEq)]
pub struct TalkMessage {
    pub uuid: u128,
    pub username: String,
    pub text: String,
    pub room_id: i32,
    pub unixtime: u64,
}

/// Every message exchanged between client and server, as a tagged sum.
///
/// The first five variants travel client-to-server, the next five
/// server-to-client (`LocalError` never leaves the client process), and
/// `PostMessage` travels in both directions.
#[derive(Debug, PartialEq)]
pub enum TalkProtocol {
    JoinRoom { room_id: i32, uuid: u128, username: String, unixtime: u64 },
    LeaveRoom { room_id: i32, uuid: u128, username: String, unixtime: u64 },
    ChangeName { uuid: u128, username: String, old_username: String, unixtime: u64 },
    Fetch { room_id: i32, limit: i64, fetch_before: u64 },
    LocalError { message: String },
    UserJoined { uuid: u128, username: String, room_id: i32, unixtime: u64 },
    UserLeft { uuid: u128, username: String, room_id: i32, unixtime: u64 },
    UsernameChanged { uuid: u128, username: String, old_username: String, unixtime: u64 },
    History { text: Vec<TalkProtocol> },
    Error { code: String, message: String },
    PostMessage { message: TalkMessage },
}

/// The mathematical model of a `TalkMessage`: strings as character
/// sequences.
pub struct MessageView {
    pub uuid: u128,
    pub username: Seq<char>,
    pub text: Seq<char>,
    pub room_id: i32,
    pub unixtime: u64,
}

/// The mathematical model of a `TalkProtocol` event, with strings as
/// character sequences and a history as a sequence of models.
pub enum EventView {
    JoinRoom { room_id: i32, uuid: u128, username: Seq<char>, unixtime: u64 },
    LeaveRoom { room_id: i32, uuid: u128, username: Seq<char>, unixtime: u64 },
    ChangeName { uuid: u128, username: Seq<char>, old_username: Seq<char>, unixtime: u64 },
    Fetch { room_id: i32, limit: i64, fetch_before: u64 },
    LocalError { message: Seq<char> },
    UserJoined { uuid: u128, username: Seq<char>, room_id: i32, unixtime: u64 },
    UserLeft { uuid: u128, username: Seq<char>, room_id: i32, unixtime: u64 },
    UsernameChanged { uuid: u128, username: Seq<char>, old_username: Seq<char>, unixtime: u64 },
    History { text: Seq<EventView> },
    Error { code: Seq<char>, message: Seq<char> },
    PostMessage { message: MessageView },
}

/// The model of one event.
pub open spec fn event_view(p: TalkProtocol) -> EventView
    decreases p,
{
    match p {
        TalkProtocol::JoinRoom { room_id, uuid, username, unixtime } => EventView::JoinRoom {
            room_id,
            uuid,
            username: username@,
            unixtime,
        },
        TalkProtocol::LeaveRoom { room_id, uuid, username, unixtime } => EventView::LeaveRoom {
            room_id,
            uuid,
            username: username@,
            unixtime,
        },
        TalkProtocol::ChangeName { uuid, username, old_username, unixtime } => EventView::ChangeName {
            uuid,
            username: username@,
            old_username: old_username@,
            unixtime,
        },
        TalkProtocol::Fetch { room_id, limit, fetch_before } => EventView::Fetch {
            room_id,
            limit,
            fetch_before,
        },
        TalkProtocol::LocalError { message } => EventView::LocalError { message: message@ },
        TalkProtocol::UserJoined { uuid, username, room_id, unixtime } => EventView::UserJoined {
            uuid,
            username: username@,
            room_id,
            unixtime,
        },
        TalkProtocol::UserLeft { uuid, username, room_id, unixtime } => EventView::UserLeft {
            uuid,
            username: username@,
            room_id,
            unixtime,
        },
        TalkProtocol::UsernameChanged { uuid, username, old_username, unixtime } => EventView::UsernameChanged {
            uuid,
            username: username@,
            old_username: old_username@,
            unixtime,
        },
        TalkProtocol::History { text } => EventView::History { text: events_view(text@) },
        TalkProtocol::Error { code, message } => EventView::Error {
            code: code@,
            message: message@,
        },
        TalkProtocol::PostMessage { message } => EventView::PostMessage { message: message@ },
    }
}

/// The models of a sequence of events.
pub open spec fn events_view(s: Seq<TalkProtocol>) -> Seq<EventView>
    decreases s,
{
    if s.len() == 0 {
        Seq::empty()
    } else {
        events_view(s.drop_last()).push(event_view(s.last()))
    }
}

impl View for TalkMessage {
    type V = MessageView;

    open spec fn view(&self) -> MessageView {
        MessageView {
            uuid: self.uuid,
            username: self.username@,
            text: self.text@,
            room_id: self.room_id,
            unixtime: self.unixtime,
        }
    }
}

impl View for TalkProtocol {
    type V = EventView;

    open spec fn view(&self) -> EventView {
        event_view(*self)
    }
}

impl TalkProtocol {
    /// The `kind_tag` stored in the durable event stream, defined for the
    /// five persistable variants only.
    pub open spec fn spec_kind_tag(self) -> Option<i16> {
        match self {
            TalkProtocol::UserJoined { .. } => Some(0i16),
            TalkProtocol::UserLeft { .. } => Some(1i16),
            TalkProtocol::UsernameChanged { .. } => Some(2i16),
            TalkProtocol::Error { .. } => Some(3i16),
            TalkProtocol::PostMessage { .. } => Some(4i16),
            _ => None,
        }
    }

    pub fn to_i16(&self) -> (r: Option<i16>)
        ensures
            r == self.spec_kind_tag(),
    {
        match self {
            TalkProtocol::UserJoined { .. } => Some(0),
            TalkProtocol::UserLeft { .. } => Some(1),
            TalkProtocol::UsernameChanged { .. } => Some(2),
            TalkProtocol::Error { .. } => Some(3),
            TalkProtocol::PostMessage { .. } => Some(4),
            _ => None,
        }
    }

    /// Rebuilds the event a durable row stands for. The row's single text
    /// column carries the message text for tag 4, the old username for
    /// tag 2, and both code and message for tag 3; tags outside 0..=4 are
    /// not persistable and yield `None`.
    pub fn from_i16(
        value: i16,
        room_id: i32,
        uuid: u128,
        username: String,
        unixtime: u64,
        message: String,
    ) -> (r: Option<TalkProtocol>)
        ensures
            r == match value {
                0i16 => Some(TalkProtocol::UserJoined { uuid, username, room_id, unixtime }),
                1i16 => Some(TalkProtocol::UserLeft { uuid, username, room_id, unixtime }),
                2i16 => Some(
                    TalkProtocol::UsernameChanged { uuid, username, old_username: message, unixtime },
                ),
                3i16 => Some(TalkProtocol::Error { code: message, message }),
                4i16 => Some(
                    TalkProtocol::PostMessage {
                        message: TalkMessage { uuid, username, text: message, room_id, unixtime },
                    },
                ),
                _ => None,
            },
    {
        match value {
            0 => Some(TalkProtocol::UserJoined { uuid, username, room_id, unixtime }),
            1 => Some(TalkProtocol::UserLeft { uuid, username, room_id, unixtime }),
            2 => Some(TalkProtocol::UsernameChanged { uuid, username, old_username: message, unixtime }),
            3 => Some(TalkProtocol::Error { code: message.clone(), message }),
            4 => Some(TalkProtocol::PostMessage {
                message: TalkMessage { uuid, username, text: message, room_id, unixtime },
            }),
            _ => None,
        }
    }
}

} // verus!
