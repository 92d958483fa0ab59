//! The binary wire codec: a canonical, self-describing encoding of the
//! event sum type, used identically by client and server. A frame is
//! the variant's tag as a 32-bit little-endian integer followed by the
//! variant's fields in declaration order: fixed-width little-endian
//! integers, strings as a 64-bit byte length plus UTF-8 bytes, the user
//! identity as a 64-bit length (16) plus its sixteen big-endian bytes,
//! and a history as a 64-bit count plus the encoded events.

use crate::protocol::{event_view, events_view, EventView, MessageView, TalkMessage, TalkProtocol};
use vstd::bytes::{
    lemma_auto_spec_u128_to_from_le_bytes, lemma_auto_spec_u32_to_from_le_bytes,
    lemma_auto_spec_u64_to_from_le_bytes, spec_u128_from_le_bytes, spec_u128_to_le_bytes,
    spec_u32_from_le_bytes, spec_u32_to_le_bytes, spec_u64_from_le_bytes, spec_u64_to_le_bytes,
    u128_from_le_bytes, u128_to_le_bytes, u32_from_le_bytes, u32_to_le_bytes, u64_from_le_bytes,
    u64_to_le_bytes,
};
use vstd::prelude::*;
use vstd::slice::slice_subrange;
use vstd::string::StrSliceExecFns;
use vstd::utf8::{decode_utf8, encode_utf8, encode_utf8_decode_utf8, encode_utf8_valid_utf8, valid_utf8};

verus! {

/// Returned when a frame does not decode to an event.
#[derive(Debug, Clone, Copy, PartialEq, Eq, Structural)]
pub struct DecodeError;

// ---------- two's-complement views of the signed fields ----------

/// The unsigned 32-bit value with the same bytes as `x`.
pub open spec fn u32_of_i32(x: i32) -> u32 {
    if x >= 0 {
        x as u32
    } else {
        (x + 0x1_0000_0000) as u32
    }
}

/// The signed 32-bit value with the same bytes as `u`.
pub open spec fn i32_of_u32(u: u32) -> i32 {
    if u <= 0x7fff_ffff {
        u as i32
    } else {
        (u - 0x1_0000_0000) as i32
    }
}

/// The unsigned 64-bit value with the same bytes as `x`.
pub open spec fn u64_of_i64(x: i64) -> u64 {
    if x >= 0 {
        x as u64
    } else {
        (x + 0x1_0000_0000_0000_0000) as u64
    }
}

/// The signed 64-bit value with the same bytes as `u`.
pub open spec fn i64_of_u64(u: u64) -> i64 {
    if u <= 0x7fff_ffff_ffff_ffff {
        u as i64
    } else {
        (u - 0x1_0000_0000_0000_0000) as i64
    }
}

// ---------- the encoding, at the specification level ----------

/// A 64-bit little-endian length prefix.
pub open spec fn spec_len64(n: nat) -> Seq<u8> {
    spec_u64_to_le_bytes(n as u64)
}

/// A signed 32-bit field: its two's-complement bytes, little-endian.
pub open spec fn spec_i32_le(x: i32) -> Seq<u8> {
    spec_u32_to_le_bytes(u32_of_i32(x))
}

/// A signed 64-bit field.
pub open spec fn spec_i64_le(x: i64) -> Seq<u8> {
    spec_u64_to_le_bytes(u64_of_i64(x))
}

/// The user identity: byte length (16), then the sixteen bytes of the
/// 128-bit value, most significant first.
pub open spec fn spec_uuid_bytes(x: u128) -> Seq<u8> {
    spec_len64(16) + spec_u128_to_le_bytes(x).reverse()
}

/// A string: its UTF-8 byte length, then its UTF-8 bytes.
pub open spec fn spec_str_bytes(s: Seq<char>) -> Seq<u8> {
    spec_len64(encode_utf8(s).len()) + encode_utf8(s)
}

/// A posted message's fields, in declaration order.
pub open spec fn spec_message_bytes(m: MessageView) -> Seq<u8> {
    spec_uuid_bytes(m.uuid) + spec_str_bytes(m.username) + spec_str_bytes(m.text) + spec_i32_le(
        m.room_id,
    ) + spec_u64_to_le_bytes(m.unixtime)
}

/// The encoding of one event: its tag, then its fields.
pub open spec fn spec_encode(v: EventView) -> Seq<u8>
    decreases v,
{
    match v {
        EventView::JoinRoom { room_id, uuid, username, unixtime } => spec_u32_to_le_bytes(0)
            + spec_i32_le(room_id) + spec_uuid_bytes(uuid) + spec_str_bytes(username)
            + spec_u64_to_le_bytes(unixtime),
        EventView::LeaveRoom { room_id, uuid, username, unixtime } => spec_u32_to_le_bytes(1)
            + spec_i32_le(room_id) + spec_uuid_bytes(uuid) + spec_str_bytes(username)
            + spec_u64_to_le_bytes(unixtime),
        EventView::ChangeName { uuid, username, old_username, unixtime } => spec_u32_to_le_bytes(2)
            + spec_uuid_bytes(uuid) + spec_str_bytes(username) + spec_str_bytes(old_username)
            + spec_u64_to_le_bytes(unixtime),
        EventView::Fetch { room_id, limit, fetch_before } => spec_u32_to_le_bytes(3) + spec_i32_le(
            room_id,
        ) + spec_i64_le(limit) + spec_u64_to_le_bytes(fetch_before),
        EventView::LocalError { message } => spec_u32_to_le_bytes(4) + spec_str_bytes(message),
        EventView::UserJoined { uuid, username, room_id, unixtime } => spec_u32_to_le_bytes(5)
            + spec_uuid_bytes(uuid) + spec_str_bytes(username) + spec_i32_le(room_id)
            + spec_u64_to_le_bytes(unixtime),
        EventView::UserLeft { uuid, username, room_id, unixtime } => spec_u32_to_le_bytes(6)
            + spec_uuid_bytes(uuid) + spec_str_bytes(username) + spec_i32_le(room_id)
            + spec_u64_to_le_bytes(unixtime),
        EventView::UsernameChanged { uuid, username, old_username, unixtime } => spec_u32_to_le_bytes(
            7,
        ) + spec_uuid_bytes(uuid) + spec_str_bytes(username) + spec_str_bytes(old_username)
            + spec_u64_to_le_bytes(unixtime),
        EventView::History { text } => spec_u32_to_le_bytes(8) + spec_len64(text.len())
            + spec_encode_list(text),
        EventView::Error { code, message } => spec_u32_to_le_bytes(9) + spec_str_bytes(code)
            + spec_str_bytes(message),
        EventView::PostMessage { message } => spec_u32_to_le_bytes(10) + spec_message_bytes(
            message,
        ),
    }
}

/// The encodings of a sequence of events, in order.
pub open spec fn spec_encode_list(s: Seq<EventView>) -> Seq<u8>
    decreases s,
{
    if s.len() == 0 {
        Seq::empty()
    } else {
        spec_encode(s.first()) + spec_encode_list(s.drop_first())
    }
}

// ---------- sizes the encoding can carry ----------

/// Whether every length in the event fits its 64-bit length prefix.
/// Every value built at run time satisfies this; the encoder proves it.
pub open spec fn wf_view(v: EventView) -> bool
    decreases v,
{
    match v {
        EventView::JoinRoom { username, .. } => encode_utf8(username).len() < 0x1_0000_0000_0000_0000,
        EventView::LeaveRoom { username, .. } => encode_utf8(username).len() < 0x1_0000_0000_0000_0000,
        EventView::ChangeName { username, old_username, .. } => encode_utf8(username).len()
            < 0x1_0000_0000_0000_0000 && encode_utf8(old_username).len() < 0x1_0000_0000_0000_0000,
        EventView::Fetch { .. } => true,
        EventView::LocalError { message } => encode_utf8(message).len() < 0x1_0000_0000_0000_0000,
        EventView::UserJoined { username, .. } => encode_utf8(username).len() < 0x1_0000_0000_0000_0000,
        EventView::UserLeft { username, .. } => encode_utf8(username).len() < 0x1_0000_0000_0000_0000,
        EventView::UsernameChanged { username, old_username, .. } => encode_utf8(username).len()
            < 0x1_0000_0000_0000_0000 && encode_utf8(old_username).len() < 0x1_0000_0000_0000_0000,
        EventView::History { text } => text.len() < 0x1_0000_0000_0000_0000 && wf_list(text),
        EventView::Error { code, message } => encode_utf8(code).len() < 0x1_0000_0000_0000_0000
            && encode_utf8(message).len() < 0x1_0000_0000_0000_0000,
        EventView::PostMessage { message } => wf_message(message),
    }
}

/// `wf_view` over a sequence of events.
pub open spec fn wf_list(s: Seq<EventView>) -> bool
    decreases s,
{
    if s.len() == 0 {
        true
    } else {
        wf_view(s.first()) && wf_list(s.drop_first())
    }
}

/// `wf_view` for a posted message's fields.
pub open spec fn wf_message(m: MessageView) -> bool {
    encode_utf8(m.username).len() < 0x1_0000_0000_0000_0000 && encode_utf8(m.text).len()
        < 0x1_0000_0000_0000_0000
}

// ---------- executable encoder ----------

/// Appends the bytes of `b` to `out`.
fn push_bytes(out: &mut Vec<u8>, b: &Vec<u8>)
    ensures
        final(out)@ == old(out)@ + b@,
{
    let mut i: usize = 0;
    while i < b.len()
        invariant
            i <= b@.len(),
            out@ == old(out)@ + b@.take(i as int),
        decreases b@.len() - i,
    {
        out.push(b[i]);
        proof {
            assert(old(out)@ + b@.take(i + 1) =~= (old(out)@ + b@.take(i as int)).push(
                b@[i as int],
            ));
        }
        i = i + 1;
    }
    proof {
        assert(old(out)@ + b@.take(b@.len() as int) =~= old(out)@ + b@);
    }
}

fn put_u32(out: &mut Vec<u8>, x: u32)
    ensures
        final(out)@ == old(out)@ + spec_u32_to_le_bytes(x),
{
    let b = u32_to_le_bytes(x);
    push_bytes(out, &b);
}

fn put_u64(out: &mut Vec<u8>, x: u64)
    ensures
        final(out)@ == old(out)@ + spec_u64_to_le_bytes(x),
{
    let b = u64_to_le_bytes(x);
    push_bytes(out, &b);
}

/// The unsigned value with `x`'s two's-complement bytes.
fn i32_to_u32(x: i32) -> (r: u32)
    ensures
        r == u32_of_i32(x),
{
    if x >= 0 {
        x as u32
    } else {
        ((x as i64) + 0x1_0000_0000) as u32
    }
}

/// The signed value with `u`'s bytes.
fn u32_to_i32(u: u32) -> (r: i32)
    ensures
        r == i32_of_u32(u),
{
    if u <= 0x7fff_ffff {
        u as i32
    } else {
        ((u as i64) - 0x1_0000_0000) as i32
    }
}

/// The unsigned value with `x`'s two's-complement bytes.
fn i64_to_u64(x: i64) -> (r: u64)
    ensures
        r == u64_of_i64(x),
{
    if x >= 0 {
        x as u64
    } else {
        ((x as i128) + 0x1_0000_0000_0000_0000) as u64
    }
}

/// The signed value with `u`'s bytes.
fn u64_to_i64(u: u64) -> (r: i64)
    ensures
        r == i64_of_u64(u),
{
    if u <= 0x7fff_ffff_ffff_ffff {
        u as i64
    } else {
        ((u as i128) - 0x1_0000_0000_0000_0000) as i64
    }
}

fn put_i32(out: &mut Vec<u8>, x: i32)
    ensures
        final(out)@ == old(out)@ + spec_i32_le(x),
{
    put_u32(out, i32_to_u32(x));
}

fn put_i64(out: &mut Vec<u8>, x: i64)
    ensures
        final(out)@ == old(out)@ + spec_i64_le(x),
{
    put_u64(out, i64_to_u64(x));
}

/// The same bytes in the opposite order.
fn rev_bytes(b: &Vec<u8>) -> (r: Vec<u8>)
    ensures
        r@ == b@.reverse(),
{
    let mut out: Vec<u8> = Vec::new();
    let mut i: usize = 0;
    while i < b.len()
        invariant
            i <= b@.len(),
            out@.len() == i,
            forall|j: int| 0 <= j < i ==> out@[j] == b@[b@.len() - 1 - j],
        decreases b@.len() - i,
    {
        out.push(b[b.len() - 1 - i]);
        i = i + 1;
    }
    proof {
        assert(out@ =~= b@.reverse());
    }
    out
}

fn put_uuid(out: &mut Vec<u8>, x: u128)
    ensures
        final(out)@ == old(out)@ + spec_uuid_bytes(x),
{
    put_u64(out, 16);
    let le = u128_to_le_bytes(x);
    let be = rev_bytes(&le);
    push_bytes(out, &be);
    proof {
        assert(old(out)@ + spec_len64(16) + spec_u128_to_le_bytes(x).reverse() =~= old(out)@
            + spec_uuid_bytes(x));
    }
}

fn put_str(out: &mut Vec<u8>, s: &str)
    ensures
        final(out)@ == old(out)@ + spec_str_bytes(s@),
        encode_utf8(s@).len() < 0x1_0000_0000_0000_0000,
{
    let b = s.as_bytes_vec();
    put_u64(out, b.len() as u64);
    push_bytes(out, &b);
    proof {
        assert(old(out)@ + spec_len64(encode_utf8(s@).len()) + encode_utf8(s@) =~= old(out)@
            + spec_str_bytes(s@));
    }
}

/// Appends the encoding of `p` to `out`.
#[verifier::rlimit(100)]
#[verifier::loop_isolation(false)]
fn encode_event(p: &TalkProtocol, out: &mut Vec<u8>)
    ensures
        final(out)@ == old(out)@ + spec_encode(p@),
        wf_view(p@),
    decreases *p,
{
    match p {
        TalkProtocol::JoinRoom { room_id, uuid, username, unixtime } => {
            put_u32(out, 0);
            put_i32(out, *room_id);
            put_uuid(out, *uuid);
            put_str(out, username.as_str());
            put_u64(out, *unixtime);
            proof {
                assert(out@ =~= old(out)@ + spec_encode(p@));
            }
        },
        TalkProtocol::LeaveRoom { room_id, uuid, username, unixtime } => {
            put_u32(out, 1);
            put_i32(out, *room_id);
            put_uuid(out, *uuid);
            put_str(out, username.as_str());
            put_u64(out, *unixtime);
            proof {
                assert(out@ =~= old(out)@ + spec_encode(p@));
            }
        },
        TalkProtocol::ChangeName { uuid, username, old_username, unixtime } => {
            put_u32(out, 2);
            put_uuid(out, *uuid);
            put_str(out, username.as_str());
            put_str(out, old_username.as_str());
            put_u64(out, *unixtime);
            proof {
                assert(out@ =~= old(out)@ + spec_encode(p@));
            }
        },
        TalkProtocol::Fetch { room_id, limit, fetch_before } => {
            put_u32(out, 3);
            put_i32(out, *room_id);
            put_i64(out, *limit);
            put_u64(out, *fetch_before);
            proof {
                assert(out@ =~= old(out)@ + spec_encode(p@));
            }
        },
        TalkProtocol::LocalError { message } => {
            put_u32(out, 4);
            put_str(out, message.as_str());
            proof {
                assert(out@ =~= old(out)@ + spec_encode(p@));
            }
        },
        TalkProtocol::UserJoined { uuid, username, room_id, unixtime } => {
            put_u32(out, 5);
            put_uuid(out, *uuid);
            put_str(out, username.as_str());
            put_i32(out, *room_id);
            put_u64(out, *unixtime);
            proof {
                assert(out@ =~= old(out)@ + spec_encode(p@));
            }
        },
        TalkProtocol::UserLeft { uuid, username, room_id, unixtime } => {
            put_u32(out, 6);
            put_uuid(out, *uuid);
            put_str(out, username.as_str());
            put_i32(out, *room_id);
            put_u64(out, *unixtime);
            proof {
                assert(out@ =~= old(out)@ + spec_encode(p@));
            }
        },
        TalkProtocol::UsernameChanged { uuid, username, old_username, unixtime } => {
            put_u32(out, 7);
            put_uuid(out, *uuid);
            put_str(out, username.as_str());
            put_str(out, old_username.as_str());
            put_u64(out, *unixtime);
            proof {
                assert(out@ =~= old(out)@ + spec_encode(p@));
            }
        },
        TalkProtocol::History { text } => {
            put_u32(out, 8);
            put_u64(out, text.len() as u64);
            let ghost base = out@;
            let mut i: usize = 0;
            while i < text.len()
                invariant
                    i <= text@.len(),
                    out@ == base + spec_encode_list(events_view(text@.take(i as int))),
                    wf_list(events_view(text@.take(i as int))),
                decreases text@.len() - i,
            {
                proof {
                    assert(decreases_to!(*p => (*p)->text));
                    assert((*p)->text == *text);
                    assert(decreases_to!(*text => text@));
                    assert(decreases_to!(text@ => text@[i as int]));
                    assert(decreases_to!(*p => text@[i as int]));
                }
                encode_event(&text[i], out);
                proof {
                    lemma_events_view_take_step(text@, i as int);
                    lemma_encode_list_push(
                        events_view(text@.take(i as int)),
                        event_view(text@[i as int]),
                    );
                    lemma_wf_list_push(
                        events_view(text@.take(i as int)),
                        event_view(text@[i as int]),
                    );
                }
                i = i + 1;
            }
            proof {
                assert(text@.take(text@.len() as int) =~= text@);
                lemma_events_view_len(text@);
                assert(out@ =~= old(out)@ + spec_encode(p@));
            }
        },
        TalkProtocol::Error { code, message } => {
            put_u32(out, 9);
            put_str(out, code.as_str());
            put_str(out, message.as_str());
            proof {
                assert(out@ =~= old(out)@ + spec_encode(p@));
            }
        },
        TalkProtocol::PostMessage { message } => {
            put_u32(out, 10);
            put_uuid(out, message.uuid);
            put_str(out, message.username.as_str());
            put_str(out, message.text.as_str());
            put_i32(out, message.room_id);
            put_u64(out, message.unixtime);
            proof {
                assert(out@ =~= old(out)@ + spec_encode(p@));
            }
        },
    }
}

/// Appending one event to a list appends its encoding.
proof fn lemma_encode_list_push(s: Seq<EventView>, v: EventView)
    ensures
        spec_encode_list(s.push(v)) == spec_encode_list(s) + spec_encode(v),
    decreases s.len(),
{
    let t = s.push(v);
    if s.len() == 0 {
        assert(t.first() == v);
        assert(t.drop_first() =~= Seq::<EventView>::empty());
        assert(spec_encode_list(t) == spec_encode(v) + spec_encode_list(Seq::<EventView>::empty()));
        assert(spec_encode(v) + Seq::<u8>::empty() =~= spec_encode(v));
        assert(Seq::<u8>::empty() + spec_encode(v) =~= spec_encode(v));
    } else {
        lemma_encode_list_push(s.drop_first(), v);
        assert(t.drop_first() =~= s.drop_first().push(v));
        assert(t.first() == s.first());
        assert(spec_encode_list(t) == spec_encode(s.first()) + spec_encode_list(t.drop_first()));
        assert(spec_encode(s.first()) + (spec_encode_list(s.drop_first()) + spec_encode(v)) =~= (
        spec_encode(s.first()) + spec_encode_list(s.drop_first())) + spec_encode(v));
    }
}

/// Appending a well-formed event keeps a list well-formed.
proof fn lemma_wf_list_push(s: Seq<EventView>, v: EventView)
    requires
        wf_list(s),
        wf_view(v),
    ensures
        wf_list(s.push(v)),
    decreases s.len(),
{
    let t = s.push(v);
    if s.len() == 0 {
        assert(t.first() == v);
        assert(t.drop_first() =~= Seq::<EventView>::empty());
        assert(wf_list(t.drop_first()));
        assert(wf_list(t));
    } else {
        assert(wf_view(s.first()) && wf_list(s.drop_first()));
        lemma_wf_list_push(s.drop_first(), v);
        assert(t.drop_first() =~= s.drop_first().push(v));
        assert(t.first() == s.first());
        assert(wf_list(t));
    }
}

/// The view of a sequence of events has the sequence's length.
proof fn lemma_events_view_len(s: Seq<TalkProtocol>)
    ensures
        events_view(s).len() == s.len(),
    decreases s.len(),
{
    if s.len() == 0 {
    } else {
        lemma_events_view_len(s.drop_last());
    }
}

/// One more element of a sequence of events, seen through the view.
proof fn lemma_events_view_take_step(s: Seq<TalkProtocol>, i: int)
    requires
        0 <= i < s.len(),
    ensures
        events_view(s.take(i + 1)) == events_view(s.take(i)).push(event_view(s[i])),
{
    assert(s.take(i + 1).drop_last() =~= s.take(i));
    assert(s.take(i + 1).last() == s[i]);
}

impl TalkProtocol {
    /// Encodes the event as one binary frame.
    pub fn serialize(&self) -> (r: Vec<u8>)
        ensures
            r@ == spec_encode(self@),
            wf_view(self@),
    {
        let mut out: Vec<u8> = Vec::new();
        encode_event(self, &mut out);
        out
    }
}

// ---------- the decoder, at the specification level ----------

pub open spec fn spec_read_u32(b: Seq<u8>, pos: int) -> Option<(u32, int)> {
    if 0 <= pos && pos + 4 <= b.len() {
        Some((spec_u32_from_le_bytes(b.subrange(pos, pos + 4)), pos + 4))
    } else {
        None
    }
}

pub open spec fn spec_read_u64(b: Seq<u8>, pos: int) -> Option<(u64, int)> {
    if 0 <= pos && pos + 8 <= b.len() {
        Some((spec_u64_from_le_bytes(b.subrange(pos, pos + 8)), pos + 8))
    } else {
        None
    }
}

pub open spec fn spec_read_uuid(b: Seq<u8>, pos: int) -> Option<(u128, int)> {
    match spec_read_u64(b, pos) {
        None => None,
        Some((n, q)) => if n == 16 && q + 16 <= b.len() {
            Some((spec_u128_from_le_bytes(b.subrange(q, q + 16).reverse()), q + 16))
        } else {
            None
        },
    }
}

pub open spec fn spec_read_str(b: Seq<u8>, pos: int) -> Option<(Seq<char>, int)> {
    match spec_read_u64(b, pos) {
        None => None,
        Some((n, q)) => if q + n <= b.len() && valid_utf8(b.subrange(q, q + n)) {
            Some((decode_utf8(b.subrange(q, q + n)), q + n))
        } else {
            None
        },
    }
}

/// Decodes the event starting at `pos`, returning it and the position
/// after it. Unknown tags, short input, bad lengths and invalid UTF-8
/// all fail.
pub open spec fn spec_decode_at(b: Seq<u8>, pos: int) -> Option<(EventView, int)>
    decreases b.len() - pos, 0int, 0int,
{
    match spec_read_u32(b, pos) {
        None => None,
        Some((tag, q)) => if tag == 0 || tag == 1 {
            match spec_read_u32(b, q) {
                None => None,
                Some((room, q1)) => match spec_read_uuid(b, q1) {
                    None => None,
                    Some((uuid, q2)) => match spec_read_str(b, q2) {
                        None => None,
                        Some((username, q3)) => match spec_read_u64(b, q3) {
                            None => None,
                            Some((unixtime, q4)) => if tag == 0 {
                                Some(
                                    (
                                        EventView::JoinRoom {
                                            room_id: i32_of_u32(room),
                                            uuid,
                                            username,
                                            unixtime,
                                        },
                                        q4,
                                    ),
                                )
                            } else {
                                Some(
                                    (
                                        EventView::LeaveRoom {
                                            room_id: i32_of_u32(room),
                                            uuid,
                                            username,
                                            unixtime,
                                        },
                                        q4,
                                    ),
                                )
                            },
                        },
                    },
                },
            }
        } else if tag == 2 || tag == 7 {
            match spec_read_uuid(b, q) {
                None => None,
                Some((uuid, q1)) => match spec_read_str(b, q1) {
                    None => None,
                    Some((username, q2)) => match spec_read_str(b, q2) {
                        None => None,
                        Some((old_username, q3)) => match spec_read_u64(b, q3) {
                            None => None,
                            Some((unixtime, q4)) => if tag == 2 {
                                Some(
                                    (
                                        EventView::ChangeName { uuid, username, old_username, unixtime },
                                        q4,
                                    ),
                                )
                            } else {
                                Some(
                                    (
                                        EventView::UsernameChanged {
                                            uuid,
                                            username,
                                            old_username,
                                            unixtime,
                                        },
                                        q4,
                                    ),
                                )
                            },
                        },
                    },
                },
            }
        } else if tag == 3 {
            match spec_read_u32(b, q) {
                None => None,
                Some((room, q1)) => match spec_read_u64(b, q1) {
                    None => None,
                    Some((limit, q2)) => match spec_read_u64(b, q2) {
                        None => None,
                        Some((fetch_before, q3)) => Some(
                            (
                                EventView::Fetch {
                                    room_id: i32_of_u32(room),
                                    limit: i64_of_u64(limit),
                                    fetch_before,
                                },
                                q3,
                            ),
                        ),
                    },
                },
            }
        } else if tag == 4 {
            match spec_read_str(b, q) {
                None => None,
                Some((message, q1)) => Some((EventView::LocalError { message }, q1)),
            }
        } else if tag == 5 || tag == 6 {
            match spec_read_uuid(b, q) {
                None => None,
                Some((uuid, q1)) => match spec_read_str(b, q1) {
                    None => None,
                    Some((username, q2)) => match spec_read_u32(b, q2) {
                        None => None,
                        Some((room, q3)) => match spec_read_u64(b, q3) {
                            None => None,
                            Some((unixtime, q4)) => if tag == 5 {
                                Some(
                                    (
                                        EventView::UserJoined {
                                            uuid,
                                            username,
                                            room_id: i32_of_u32(room),
                                            unixtime,
                                        },
                                        q4,
                                    ),
                                )
                            } else {
                                Some(
                                    (
                                        EventView::UserLeft {
                                            uuid,
                                            username,
                                            room_id: i32_of_u32(room),
                                            unixtime,
                                        },
                                        q4,
                                    ),
                                )
                            },
                        },
                    },
                },
            }
        } else if tag == 8 {
            match spec_read_u64(b, q) {
                None => None,
                Some((n, q1)) => match spec_decode_list(b, q1, n as nat) {
                    None => None,
                    Some((text, q2)) => Some((EventView::History { text }, q2)),
                },
            }
        } else if tag == 9 {
            match spec_read_str(b, q) {
                None => None,
                Some((code, q1)) => match spec_read_str(b, q1) {
                    None => None,
                    Some((message, q2)) => Some((EventView::Error { code, message }, q2)),
                },
            }
        } else if tag == 10 {
            match spec_read_uuid(b, q) {
                None => None,
                Some((uuid, q1)) => match spec_read_str(b, q1) {
                    None => None,
                    Some((username, q2)) => match spec_read_str(b, q2) {
                        None => None,
                        Some((text, q3)) => match spec_read_u32(b, q3) {
                            None => None,
                            Some((room, q4)) => match spec_read_u64(b, q4) {
                                None => None,
                                Some((unixtime, q5)) => Some(
                                    (
                                        EventView::PostMessage {
                                            message: MessageView {
                                                uuid,
                                                username,
                                                text,
                                                room_id: i32_of_u32(room),
                                                unixtime,
                                            },
                                        },
                                        q5,
                                    ),
                                ),
                            },
                        },
                    },
                },
            }
        } else {
            None
        },
    }
}

/// Decodes `n` consecutive events starting at `pos`.
pub open spec fn spec_decode_list(b: Seq<u8>, pos: int, n: nat) -> Option<(Seq<EventView>, int)>
    decreases b.len() - pos, 1int, n,
{
    if n == 0 {
        Some((Seq::empty(), pos))
    } else {
        match spec_decode_at(b, pos) {
            None => None,
            Some((v, q)) => if !(pos < q <= b.len()) {
                None
            } else {
                match spec_decode_list(b, q, (n - 1) as nat) {
                    None => None,
                    Some((vs, r)) => Some((seq![v] + vs, r)),
                }
            },
        }
    }
}

// ---------- executable decoder ----------

/// Relies on String::from_utf8: it succeeds exactly on valid UTF-8 and
/// returns the string those bytes encode, per vstd's UTF-8 model.
#[verifier::external_body]
fn string_from_utf8(bytes: Vec<u8>) -> (r: Option<String>)
    ensures
        match r {
            Some(s) => valid_utf8(bytes@) && s@ == decode_utf8(bytes@),
            None => !valid_utf8(bytes@),
        },
{
    String::from_utf8(bytes).ok()
}

fn read_u32(bytes: &[u8], pos: usize) -> (r: Option<(u32, usize)>)
    ensures
        match r {
            Some((x, q)) => spec_read_u32(bytes@, pos as int) == Some((x, q as int)),
            None => spec_read_u32(bytes@, pos as int) is None,
        },
{
    if pos <= bytes.len() && bytes.len() - pos >= 4 {
        let s = slice_subrange(bytes, pos, pos + 4);
        Some((u32_from_le_bytes(s), pos + 4))
    } else {
        None
    }
}

fn read_u64(bytes: &[u8], pos: usize) -> (r: Option<(u64, usize)>)
    ensures
        match r {
            Some((x, q)) => spec_read_u64(bytes@, pos as int) == Some((x, q as int)),
            None => spec_read_u64(bytes@, pos as int) is None,
        },
{
    if pos <= bytes.len() && bytes.len() - pos >= 8 {
        let s = slice_subrange(bytes, pos, pos + 8);
        Some((u64_from_le_bytes(s), pos + 8))
    } else {
        None
    }
}

fn read_uuid(bytes: &[u8], pos: usize) -> (r: Option<(u128, usize)>)
    ensures
        match r {
            Some((x, q)) => spec_read_uuid(bytes@, pos as int) == Some((x, q as int)),
            None => spec_read_uuid(bytes@, pos as int) is None,
        },
{
    match read_u64(bytes, pos) {
        None => None,
        Some((n, q)) => {
            if n == 16 && q <= bytes.len() && bytes.len() - q >= 16 {
                let s = slice_subrange(bytes, q, q + 16);
                let v = vstd::slice::slice_to_vec(s);
                let rv = rev_bytes(&v);
                Some((u128_from_le_bytes(rv.as_slice()), q + 16))
            } else {
                None
            }
        },
    }
}

fn read_str(bytes: &[u8], pos: usize) -> (r: Option<(String, usize)>)
    ensures
        match r {
            Some((s, q)) => (spec_read_str(bytes@, pos as int) matches Some(p) && p.0 == s@ && p.1
                == q as int),
            None => spec_read_str(bytes@, pos as int) is None,
        },
{
    match read_u64(bytes, pos) {
        None => None,
        Some((n, q)) => {
            if q <= bytes.len() && ((bytes.len() - q) as u64) >= n {
                let len = n as usize;
                let s = slice_subrange(bytes, q, q + len);
                let v = vstd::slice::slice_to_vec(s);
                match string_from_utf8(v) {
                    Some(st) => Some((st, q + len)),
                    None => None,
                }
            } else {
                None
            }
        },
    }
}

/// Decodes one event at `pos`, returning it and the position after it.
#[verifier::rlimit(100)]
#[verifier::loop_isolation(false)]
fn decode_at(bytes: &[u8], pos: usize) -> (r: Option<(TalkProtocol, usize)>)
    ensures
        match r {
            Some((p, q)) => (spec_decode_at(bytes@, pos as int) matches Some(pr) && pr.0 == p@
                && pr.1 == q as int),
            None => spec_decode_at(bytes@, pos as int) is None,
        },
    decreases bytes@.len() - pos, 0int, 0int,
{
    let tq = read_u32(bytes, pos);
    if tq.is_none() {
        return None;
    }
    let (tag, q) = tq.unwrap();
    if tag == 0 || tag == 1 {
        let f1 = read_u32(bytes, q);
        if f1.is_none() {
            return None;
        }
        let (room, q1) = f1.unwrap();
        let f2 = read_uuid(bytes, q1);
        if f2.is_none() {
            return None;
        }
        let (uuid, q2) = f2.unwrap();
        let f3 = read_str(bytes, q2);
        if f3.is_none() {
            return None;
        }
        let (username, q3) = f3.unwrap();
        let f4 = read_u64(bytes, q3);
        if f4.is_none() {
            return None;
        }
        let (unixtime, q4) = f4.unwrap();
        let room_id = u32_to_i32(room);
        if tag == 0 {
            Some((TalkProtocol::JoinRoom { room_id, uuid, username, unixtime }, q4))
        } else {
            Some((TalkProtocol::LeaveRoom { room_id, uuid, username, unixtime }, q4))
        }
    } else if tag == 2 || tag == 7 {
        let f1 = read_uuid(bytes, q);
        if f1.is_none() {
            return None;
        }
        let (uuid, q1) = f1.unwrap();
        let f2 = read_str(bytes, q1);
        if f2.is_none() {
            return None;
        }
        let (username, q2) = f2.unwrap();
        let f3 = read_str(bytes, q2);
        if f3.is_none() {
            return None;
        }
        let (old_username, q3) = f3.unwrap();
        let f4 = read_u64(bytes, q3);
        if f4.is_none() {
            return None;
        }
        let (unixtime, q4) = f4.unwrap();
        if tag == 2 {
            Some((TalkProtocol::ChangeName { uuid, username, old_username, unixtime }, q4))
        } else {
            Some((TalkProtocol::UsernameChanged { uuid, username, old_username, unixtime }, q4))
        }
    } else if tag == 3 {
        let f1 = read_u32(bytes, q);
        if f1.is_none() {
            return None;
        }
        let (room, q1) = f1.unwrap();
        let f2 = read_u64(bytes, q1);
        if f2.is_none() {
            return None;
        }
        let (limit, q2) = f2.unwrap();
        let f3 = read_u64(bytes, q2);
        if f3.is_none() {
            return None;
        }
        let (fetch_before, q3) = f3.unwrap();
        Some(
            (
                TalkProtocol::Fetch {
                    room_id: u32_to_i32(room),
                    limit: u64_to_i64(limit),
                    fetch_before,
                },
                q3,
            ),
        )
    } else if tag == 4 {
        let f1 = read_str(bytes, q);
        if f1.is_none() {
            return None;
        }
        let (message, q1) = f1.unwrap();
        Some((TalkProtocol::LocalError { message }, q1))
    } else if tag == 5 || tag == 6 {
        let f1 = read_uuid(bytes, q);
        if f1.is_none() {
            return None;
        }
        let (uuid, q1) = f1.unwrap();
        let f2 = read_str(bytes, q1);
        if f2.is_none() {
            return None;
        }
        let (username, q2) = f2.unwrap();
        let f3 = read_u32(bytes, q2);
        if f3.is_none() {
            return None;
        }
        let (room, q3) = f3.unwrap();
        let f4 = read_u64(bytes, q3);
        if f4.is_none() {
            return None;
        }
        let (unixtime, q4) = f4.unwrap();
        let room_id = u32_to_i32(room);
        if tag == 5 {
            Some((TalkProtocol::UserJoined { uuid, username, room_id, unixtime }, q4))
        } else {
            Some((TalkProtocol::UserLeft { uuid, username, room_id, unixtime }, q4))
        }
    } else if tag == 8 {
        let f1 = read_u64(bytes, q);
        if f1.is_none() {
            return None;
        }
        let (n, q1) = f1.unwrap();
        match decode_list(bytes, q1, n) {
            None => None,
            Some((text, q2)) => Some((TalkProtocol::History { text }, q2)),
        }
    } else if tag == 9 {
        let f1 = read_str(bytes, q);
        if f1.is_none() {
            return None;
        }
        let (code, q1) = f1.unwrap();
        let f2 = read_str(bytes, q1);
        if f2.is_none() {
            return None;
        }
        let (message, q2) = f2.unwrap();
        Some((TalkProtocol::Error { code, message }, q2))
    } else if tag == 10 {
        let f1 = read_uuid(bytes, q);
        if f1.is_none() {
            return None;
        }
        let (uuid, q1) = f1.unwrap();
        let f2 = read_str(bytes, q1);
        if f2.is_none() {
            return None;
        }
        let (username, q2) = f2.unwrap();
        let f3 = read_str(bytes, q2);
        if f3.is_none() {
            return None;
        }
        let (text, q3) = f3.unwrap();
        let f4 = read_u32(bytes, q3);
        if f4.is_none() {
            return None;
        }
        let (room, q4) = f4.unwrap();
        let f5 = read_u64(bytes, q4);
        if f5.is_none() {
            return None;
        }
        let (unixtime, q5) = f5.unwrap();
        Some(
            (
                TalkProtocol::PostMessage {
                    message: TalkMessage {
                        uuid,
                        username,
                        text,
                        room_id: u32_to_i32(room),
                        unixtime,
                    },
                },
                q5,
            ),
        )
    } else {
        None
    }
}

/// Decodes `n` consecutive events at `pos`.
#[verifier::rlimit(100)]
#[verifier::loop_isolation(false)]
fn decode_list(bytes: &[u8], pos: usize, n: u64) -> (r: Option<(Vec<TalkProtocol>, usize)>)
    ensures
        match r {
            Some((vs, q)) => (spec_decode_list(bytes@, pos as int, n as nat) matches Some(pr)
                && pr.0 == events_view(vs@) && pr.1 == q as int),
            None => spec_decode_list(bytes@, pos as int, n as nat) is None,
        },
    decreases bytes@.len() - pos, 1int, n,
{
    let mut out: Vec<TalkProtocol> = Vec::new();
    let mut cur: usize = pos;
    let mut k: u64 = 0;
    while k < n
        invariant
            pos <= cur,
            cur <= bytes@.len() || cur == pos,
            k <= n,
            events_view(out@).len() == out@.len(),
            match spec_decode_list(bytes@, cur as int, (n - k) as nat) {
                Some(pr) => spec_decode_list(bytes@, pos as int, n as nat) == Some(
                    (events_view(out@) + pr.0, pr.1),
                ),
                None => spec_decode_list(bytes@, pos as int, n as nat) is None,
            },
        decreases n - k,
    {
        let step = decode_at(bytes, cur);
        match step {
            None => {
                return None;
            },
            Some((v, q)) => {
                if q <= cur || q > bytes.len() {
                    return None;
                }
                proof {
                    lemma_events_view_push(out@, v);
                }
                out.push(v);
                cur = q;
                k = k + 1;
                proof {
                    assert(events_view(out@).len() == out@.len()) by {
                        lemma_events_view_len_tp(out@);
                    }
                    assert(forall|vs: Seq<EventView>|
                        (events_view(out@.drop_last()) + (seq![event_view(out@.last())] + vs))
                            =~= (events_view(out@) + vs));
                }
            },
        }
    }
    proof {
        assert(spec_decode_list(bytes@, cur as int, 0nat) == Some(
            (Seq::<EventView>::empty(), cur as int),
        ));
        assert(events_view(out@) + Seq::<EventView>::empty() =~= events_view(out@));
    }
    Some((out, cur))
}

/// One more event, seen through the view.
proof fn lemma_events_view_push(s: Seq<TalkProtocol>, v: TalkProtocol)
    ensures
        events_view(s.push(v)) == events_view(s).push(event_view(v)),
{
    assert(s.push(v).drop_last() =~= s);
    assert(s.push(v).last() == v);
}

/// The view of a sequence of events keeps its length.
proof fn lemma_events_view_len_tp(s: Seq<TalkProtocol>)
    ensures
        events_view(s).len() == s.len(),
    decreases s.len(),
{
    if s.len() == 0 {
    } else {
        lemma_events_view_len_tp(s.drop_last());
    }
}

// ---------- the codec round trip ----------

/// Casting to unsigned and back is the identity on signed 32-bit values.
proof fn lemma_i32_round(x: i32)
    ensures
        i32_of_u32(u32_of_i32(x)) == x,
{
}

/// Casting to unsigned and back is the identity on signed 64-bit values.
proof fn lemma_i64_round(x: i64)
    ensures
        i64_of_u64(u64_of_i64(x)) == x,
{
}

/// A slice of a buffer that holds `whole` is the matching slice of `whole`.
proof fn lemma_chunk(b: Seq<u8>, pos: int, whole: Seq<u8>, off: int, len: int)
    requires
        0 <= pos,
        pos + whole.len() <= b.len(),
        b.subrange(pos, pos + whole.len() as int) == whole,
        0 <= off,
        0 <= len,
        off + len <= whole.len(),
    ensures
        b.subrange(pos + off, pos + off + len) == whole.subrange(off, off + len),
{
    assert forall|i: int| 0 <= i < len implies #[trigger] b.subrange(pos + off, pos + off + len)[i]
        == whole.subrange(off, off + len)[i] by {
        assert(b.subrange(pos, pos + whole.len() as int)[off + i] == whole[off + i]);
    };
    assert(b.subrange(pos + off, pos + off + len) =~= whole.subrange(off, off + len));
}

proof fn lemma_read_u32_at(b: Seq<u8>, pos: int, x: u32)
    requires
        0 <= pos,
        pos + 4 <= b.len(),
        b.subrange(pos, pos + 4) == spec_u32_to_le_bytes(x),
    ensures
        spec_read_u32(b, pos) == Some((x, pos + 4)),
{
    lemma_auto_spec_u32_to_from_le_bytes();
    assert(spec_u32_to_le_bytes(x).len() == 4);
}

proof fn lemma_read_u64_at(b: Seq<u8>, pos: int, x: u64)
    requires
        0 <= pos,
        pos + 8 <= b.len(),
        b.subrange(pos, pos + 8) == spec_u64_to_le_bytes(x),
    ensures
        spec_read_u64(b, pos) == Some((x, pos + 8)),
{
    lemma_auto_spec_u64_to_from_le_bytes();
    assert(spec_u64_to_le_bytes(x).len() == 8);
}

proof fn lemma_read_uuid_at(b: Seq<u8>, pos: int, x: u128)
    requires
        0 <= pos,
        pos + 24 <= b.len(),
        b.subrange(pos, pos + 24) == spec_uuid_bytes(x),
    ensures
        spec_read_uuid(b, pos) == Some((x, pos + 24)),
{
    lemma_auto_spec_u64_to_from_le_bytes();
    lemma_auto_spec_u128_to_from_le_bytes();
    let whole = spec_uuid_bytes(x);
    let be = spec_u128_to_le_bytes(x).reverse();
    assert(whole == spec_len64(16) + be);
    lemma_chunk(b, pos, whole, 0, 8);
    assert(whole.subrange(0, 8) =~= spec_len64(16));
    lemma_read_u64_at(b, pos, 16);
    lemma_chunk(b, pos, whole, 8, 16);
    assert(whole.subrange(8, 24) =~= be);
    assert(be.reverse() =~= spec_u128_to_le_bytes(x));
    assert(spec_u128_to_le_bytes(x).len() == 16);
}

proof fn lemma_read_str_at(b: Seq<u8>, pos: int, s: Seq<char>)
    requires
        0 <= pos,
        encode_utf8(s).len() < 0x1_0000_0000_0000_0000,
        pos + spec_str_bytes(s).len() <= b.len(),
        b.subrange(pos, pos + spec_str_bytes(s).len() as int) == spec_str_bytes(s),
    ensures
        spec_read_str(b, pos) == Some((s, pos + spec_str_bytes(s).len())),
        spec_str_bytes(s).len() == 8 + encode_utf8(s).len(),
{
    lemma_auto_spec_u64_to_from_le_bytes();
    let whole = spec_str_bytes(s);
    let n = encode_utf8(s).len() as int;
    lemma_chunk(b, pos, whole, 0, 8);
    assert(whole.subrange(0, 8) =~= spec_len64(n as nat));
    lemma_read_u64_at(b, pos, n as u64);
    lemma_chunk(b, pos, whole, 8, n);
    assert(whole.subrange(8, 8 + n) =~= encode_utf8(s));
    broadcast use encode_utf8_valid_utf8;
    broadcast use encode_utf8_decode_utf8;

    assert(valid_utf8(encode_utf8(s)));
    assert(decode_utf8(encode_utf8(s)) == s);
}

/// Every encoded event is at least its four tag bytes long.
proof fn lemma_encode_len_lb(v: EventView)
    ensures
        spec_encode(v).len() >= 4,
{
    lemma_auto_spec_u32_to_from_le_bytes();
}

/// Reads of the tag-room-uuid-string-time field shape (JoinRoom, LeaveRoom).
proof fn lemma_read_room_shape(
    b: Seq<u8>,
    pos: int,
    tag: u32,
    room_id: i32,
    uuid: u128,
    username: Seq<char>,
    unixtime: u64,
)
    requires
        0 <= pos,
        encode_utf8(username).len() < 0x1_0000_0000_0000_0000,
        pos + 40 + spec_str_bytes(username).len() <= b.len(),
        b.subrange(pos, pos + 40 + spec_str_bytes(username).len() as int) == spec_u32_to_le_bytes(
            tag,
        ) + spec_i32_le(room_id) + spec_uuid_bytes(uuid) + spec_str_bytes(username)
            + spec_u64_to_le_bytes(unixtime),
    ensures
        ({
            let ns = spec_str_bytes(username).len() as int;
            &&& spec_read_u32(b, pos) == Some((tag, pos + 4))
            &&& spec_read_u32(b, pos + 4) == Some((u32_of_i32(room_id), pos + 8))
            &&& spec_read_uuid(b, pos + 8) == Some((uuid, pos + 32))
            &&& spec_read_str(b, pos + 32) == Some((username, pos + 32 + ns))
            &&& spec_read_u64(b, pos + 32 + ns) == Some((unixtime, pos + 40 + ns))
        }),
{
    lemma_auto_spec_u32_to_from_le_bytes();
    lemma_auto_spec_u64_to_from_le_bytes();
    lemma_auto_spec_u128_to_from_le_bytes();
    let ns = spec_str_bytes(username).len() as int;
    let whole = spec_u32_to_le_bytes(tag) + spec_i32_le(room_id) + spec_uuid_bytes(uuid)
        + spec_str_bytes(username) + spec_u64_to_le_bytes(unixtime);
    lemma_chunk(b, pos, whole, 0, 4);
    assert(whole.subrange(0, 4) =~= spec_u32_to_le_bytes(tag));
    lemma_read_u32_at(b, pos, tag);
    lemma_chunk(b, pos, whole, 4, 4);
    assert(whole.subrange(4, 8) =~= spec_i32_le(room_id));
    lemma_read_u32_at(b, pos + 4, u32_of_i32(room_id));
    lemma_chunk(b, pos, whole, 8, 24);
    assert(whole.subrange(8, 32) =~= spec_uuid_bytes(uuid));
    lemma_read_uuid_at(b, pos + 8, uuid);
    lemma_chunk(b, pos, whole, 32, ns);
    assert(whole.subrange(32, 32 + ns) =~= spec_str_bytes(username));
    lemma_read_str_at(b, pos + 32, username);
    lemma_chunk(b, pos, whole, 32 + ns, 8);
    assert(whole.subrange(32 + ns, 40 + ns) =~= spec_u64_to_le_bytes(unixtime));
    lemma_read_u64_at(b, pos + 32 + ns, unixtime);
}

/// Reads of the tag-uuid-string-room-time field shape (UserJoined, UserLeft).
proof fn lemma_read_user_shape(
    b: Seq<u8>,
    pos: int,
    tag: u32,
    uuid: u128,
    username: Seq<char>,
    room_id: i32,
    unixtime: u64,
)
    requires
        0 <= pos,
        encode_utf8(username).len() < 0x1_0000_0000_0000_0000,
        pos + 40 + spec_str_bytes(username).len() <= b.len(),
        b.subrange(pos, pos + 40 + spec_str_bytes(username).len() as int) == spec_u32_to_le_bytes(
            tag,
        ) + spec_uuid_bytes(uuid) + spec_str_bytes(username) + spec_i32_le(room_id)
            + spec_u64_to_le_bytes(unixtime),
    ensures
        ({
            let ns = spec_str_bytes(username).len() as int;
            &&& spec_read_u32(b, pos) == Some((tag, pos + 4))
            &&& spec_read_uuid(b, pos + 4) == Some((uuid, pos + 28))
            &&& spec_read_str(b, pos + 28) == Some((username, pos + 28 + ns))
            &&& spec_read_u32(b, pos + 28 + ns) == Some((u32_of_i32(room_id), pos + 32 + ns))
            &&& spec_read_u64(b, pos + 32 + ns) == Some((unixtime, pos + 40 + ns))
        }),
{
    lemma_auto_spec_u32_to_from_le_bytes();
    lemma_auto_spec_u64_to_from_le_bytes();
    lemma_auto_spec_u128_to_from_le_bytes();
    let ns = spec_str_bytes(username).len() as int;
    let whole = spec_u32_to_le_bytes(tag) + spec_uuid_bytes(uuid) + spec_str_bytes(username)
        + spec_i32_le(room_id) + spec_u64_to_le_bytes(unixtime);
    lemma_chunk(b, pos, whole, 0, 4);
    assert(whole.subrange(0, 4) =~= spec_u32_to_le_bytes(tag));
    lemma_read_u32_at(b, pos, tag);
    lemma_chunk(b, pos, whole, 4, 24);
    assert(whole.subrange(4, 28) =~= spec_uuid_bytes(uuid));
    lemma_read_uuid_at(b, pos + 4, uuid);
    lemma_chunk(b, pos, whole, 28, ns);
    assert(whole.subrange(28, 28 + ns) =~= spec_str_bytes(username));
    lemma_read_str_at(b, pos + 28, username);
    lemma_chunk(b, pos, whole, 28 + ns, 4);
    assert(whole.subrange(28 + ns, 32 + ns) =~= spec_i32_le(room_id));
    lemma_read_u32_at(b, pos + 28 + ns, u32_of_i32(room_id));
    lemma_chunk(b, pos, whole, 32 + ns, 8);
    assert(whole.subrange(32 + ns, 40 + ns) =~= spec_u64_to_le_bytes(unixtime));
    lemma_read_u64_at(b, pos + 32 + ns, unixtime);
}

/// Reads of the tag-uuid-string-string-time field shape (ChangeName,
/// UsernameChanged).
proof fn lemma_read_rename_shape(
    b: Seq<u8>,
    pos: int,
    tag: u32,
    uuid: u128,
    username: Seq<char>,
    old_username: Seq<char>,
    unixtime: u64,
)
    requires
        0 <= pos,
        encode_utf8(username).len() < 0x1_0000_0000_0000_0000,
        encode_utf8(old_username).len() < 0x1_0000_0000_0000_0000,
        pos + 36 + spec_str_bytes(username).len() + spec_str_bytes(old_username).len() <= b.len(),
        b.subrange(
            pos,
            pos + 36 + spec_str_bytes(username).len() + spec_str_bytes(old_username).len() as int,
        ) == spec_u32_to_le_bytes(tag) + spec_uuid_bytes(uuid) + spec_str_bytes(username)
            + spec_str_bytes(old_username) + spec_u64_to_le_bytes(unixtime),
    ensures
        ({
            let ns = spec_str_bytes(username).len() as int;
            let no = spec_str_bytes(old_username).len() as int;
            &&& spec_read_u32(b, pos) == Some((tag, pos + 4))
            &&& spec_read_uuid(b, pos + 4) == Some((uuid, pos + 28))
            &&& spec_read_str(b, pos + 28) == Some((username, pos + 28 + ns))
            &&& spec_read_str(b, pos + 28 + ns) == Some((old_username, pos + 28 + ns + no))
            &&& spec_read_u64(b, pos + 28 + ns + no) == Some((unixtime, pos + 36 + ns + no))
        }),
{
    lemma_auto_spec_u32_to_from_le_bytes();
    lemma_auto_spec_u64_to_from_le_bytes();
    lemma_auto_spec_u128_to_from_le_bytes();
    let ns = spec_str_bytes(username).len() as int;
    let no = spec_str_bytes(old_username).len() as int;
    let whole = spec_u32_to_le_bytes(tag) + spec_uuid_bytes(uuid) + spec_str_bytes(username)
        + spec_str_bytes(old_username) + spec_u64_to_le_bytes(unixtime);
    lemma_chunk(b, pos, whole, 0, 4);
    assert(whole.subrange(0, 4) =~= spec_u32_to_le_bytes(tag));
    lemma_read_u32_at(b, pos, tag);
    lemma_chunk(b, pos, whole, 4, 24);
    assert(whole.subrange(4, 28) =~= spec_uuid_bytes(uuid));
    lemma_read_uuid_at(b, pos + 4, uuid);
    lemma_chunk(b, pos, whole, 28, ns);
    assert(whole.subrange(28, 28 + ns) =~= spec_str_bytes(username));
    lemma_read_str_at(b, pos + 28, username);
    lemma_chunk(b, pos, whole, 28 + ns, no);
    assert(whole.subrange(28 + ns, 28 + ns + no) =~= spec_str_bytes(old_username));
    lemma_read_str_at(b, pos + 28 + ns, old_username);
    lemma_chunk(b, pos, whole, 28 + ns + no, 8);
    assert(whole.subrange(28 + ns + no, 36 + ns + no) =~= spec_u64_to_le_bytes(unixtime));
    lemma_read_u64_at(b, pos + 28 + ns + no, unixtime);
}

/// Decoding reverses encoding: wherever a buffer holds the encoding of
/// a well-formed event, decoding there yields exactly that event and
/// consumes exactly its encoding.
#[verifier::rlimit(100)]
pub proof fn lemma_decode_encode(v: EventView, b: Seq<u8>, pos: int)
    requires
        wf_view(v),
        0 <= pos,
        pos + spec_encode(v).len() <= b.len(),
        b.subrange(pos, pos + spec_encode(v).len() as int) == spec_encode(v),
    ensures
        spec_decode_at(b, pos) == Some((v, pos + spec_encode(v).len())),
    decreases v,
{
    lemma_auto_spec_u32_to_from_le_bytes();
    lemma_auto_spec_u64_to_from_le_bytes();
    lemma_auto_spec_u128_to_from_le_bytes();
    let whole = spec_encode(v);
    match v {
        EventView::JoinRoom { room_id, uuid, username, unixtime } => {
            lemma_read_room_shape(b, pos, 0, room_id, uuid, username, unixtime);
            lemma_i32_round(room_id);
        },
        EventView::LeaveRoom { room_id, uuid, username, unixtime } => {
            lemma_read_room_shape(b, pos, 1, room_id, uuid, username, unixtime);
            lemma_i32_round(room_id);
        },
        EventView::ChangeName { uuid, username, old_username, unixtime } => {
            lemma_read_rename_shape(b, pos, 2, uuid, username, old_username, unixtime);
        },
        EventView::Fetch { room_id, limit, fetch_before } => {
            lemma_chunk(b, pos, whole, 0, 4);
            assert(whole.subrange(0, 4) =~= spec_u32_to_le_bytes(3));
            lemma_read_u32_at(b, pos, 3);
            lemma_chunk(b, pos, whole, 4, 4);
            assert(whole.subrange(4, 8) =~= spec_i32_le(room_id));
            lemma_read_u32_at(b, pos + 4, u32_of_i32(room_id));
            lemma_i32_round(room_id);
            lemma_chunk(b, pos, whole, 8, 8);
            assert(whole.subrange(8, 16) =~= spec_i64_le(limit));
            lemma_read_u64_at(b, pos + 8, u64_of_i64(limit));
            lemma_i64_round(limit);
            lemma_chunk(b, pos, whole, 16, 8);
            assert(whole.subrange(16, 24) =~= spec_u64_to_le_bytes(fetch_before));
            lemma_read_u64_at(b, pos + 16, fetch_before);
        },
        EventView::LocalError { message } => {
            let nm = spec_str_bytes(message).len() as int;
            lemma_chunk(b, pos, whole, 0, 4);
            assert(whole.subrange(0, 4) =~= spec_u32_to_le_bytes(4));
            lemma_read_u32_at(b, pos, 4);
            lemma_chunk(b, pos, whole, 4, nm);
            assert(whole.subrange(4, 4 + nm) =~= spec_str_bytes(message));
            lemma_read_str_at(b, pos + 4, message);
        },
        EventView::UserJoined { uuid, username, room_id, unixtime } => {
            lemma_read_user_shape(b, pos, 5, uuid, username, room_id, unixtime);
            lemma_i32_round(room_id);
        },
        EventView::UserLeft { uuid, username, room_id, unixtime } => {
            lemma_read_user_shape(b, pos, 6, uuid, username, room_id, unixtime);
            lemma_i32_round(room_id);
        },
        EventView::UsernameChanged { uuid, username, old_username, unixtime } => {
            lemma_read_rename_shape(b, pos, 7, uuid, username, old_username, unixtime);
        },
        EventView::History { text } => {
            let nl = spec_encode_list(text).len() as int;
            lemma_chunk(b, pos, whole, 0, 4);
            assert(whole.subrange(0, 4) =~= spec_u32_to_le_bytes(8));
            lemma_read_u32_at(b, pos, 8);
            lemma_chunk(b, pos, whole, 4, 8);
            assert(whole.subrange(4, 12) =~= spec_len64(text.len()));
            lemma_read_u64_at(b, pos + 4, text.len() as u64);
            lemma_chunk(b, pos, whole, 12, nl);
            assert(whole.subrange(12, 12 + nl) =~= spec_encode_list(text));
            lemma_decode_encode_list(text, b, pos + 12);
            assert((text.len() as u64) as nat == text.len());
        },
        EventView::Error { code, message } => {
            let nc = spec_str_bytes(code).len() as int;
            let nm = spec_str_bytes(message).len() as int;
            lemma_chunk(b, pos, whole, 0, 4);
            assert(whole.subrange(0, 4) =~= spec_u32_to_le_bytes(9));
            lemma_read_u32_at(b, pos, 9);
            lemma_chunk(b, pos, whole, 4, nc);
            assert(whole.subrange(4, 4 + nc) =~= spec_str_bytes(code));
            lemma_read_str_at(b, pos + 4, code);
            lemma_chunk(b, pos, whole, 4 + nc, nm);
            assert(whole.subrange(4 + nc, 4 + nc + nm) =~= spec_str_bytes(message));
            lemma_read_str_at(b, pos + 4 + nc, message);
        },
        EventView::PostMessage { message } => {
            let ns = spec_str_bytes(message.username).len() as int;
            let nt = spec_str_bytes(message.text).len() as int;
            lemma_chunk(b, pos, whole, 0, 4);
            assert(whole.subrange(0, 4) =~= spec_u32_to_le_bytes(10));
            lemma_read_u32_at(b, pos, 10);
            lemma_chunk(b, pos, whole, 4, 24);
            assert(whole.subrange(4, 28) =~= spec_uuid_bytes(message.uuid));
            lemma_read_uuid_at(b, pos + 4, message.uuid);
            lemma_chunk(b, pos, whole, 28, ns);
            assert(whole.subrange(28, 28 + ns) =~= spec_str_bytes(message.username));
            lemma_read_str_at(b, pos + 28, message.username);
            lemma_chunk(b, pos, whole, 28 + ns, nt);
            assert(whole.subrange(28 + ns, 28 + ns + nt) =~= spec_str_bytes(message.text));
            lemma_read_str_at(b, pos + 28 + ns, message.text);
            lemma_chunk(b, pos, whole, 28 + ns + nt, 4);
            assert(whole.subrange(28 + ns + nt, 32 + ns + nt) =~= spec_i32_le(message.room_id));
            lemma_read_u32_at(b, pos + 28 + ns + nt, u32_of_i32(message.room_id));
            lemma_i32_round(message.room_id);
            lemma_chunk(b, pos, whole, 32 + ns + nt, 8);
            assert(whole.subrange(32 + ns + nt, 40 + ns + nt) =~= spec_u64_to_le_bytes(
                message.unixtime,
            ));
            lemma_read_u64_at(b, pos + 32 + ns + nt, message.unixtime);
        },
    }
}

/// `lemma_decode_encode`, lifted to a consecutive run of events.
proof fn lemma_decode_encode_list(s: Seq<EventView>, b: Seq<u8>, pos: int)
    requires
        wf_list(s),
        0 <= pos,
        pos + spec_encode_list(s).len() <= b.len(),
        b.subrange(pos, pos + spec_encode_list(s).len() as int) == spec_encode_list(s),
    ensures
        spec_decode_list(b, pos, s.len()) == Some((s, pos + spec_encode_list(s).len())),
    decreases s,
{
    if s.len() == 0 {
    } else {
        let whole = spec_encode_list(s);
        let e1 = spec_encode(s.first());
        let rest = spec_encode_list(s.drop_first());
        let n1 = e1.len() as int;
        assert(whole == e1 + rest);
        lemma_chunk(b, pos, whole, 0, n1);
        assert(whole.subrange(0, n1) =~= e1);
        assert(b.subrange(pos, pos + n1) == e1);
        lemma_encode_len_lb(s.first());
        lemma_decode_encode(s.first(), b, pos);
        lemma_chunk(b, pos, whole, n1, rest.len() as int);
        assert(whole.subrange(n1, n1 + rest.len() as int) =~= rest);
        lemma_decode_encode_list(s.drop_first(), b, pos + n1);
        assert(seq![s.first()] + s.drop_first() =~= s);
    }
}

/// The round trip itself: a well-formed event decoded from its own
/// encoding is itself, with nothing left over.
pub proof fn lemma_round_trip(v: EventView)
    requires
        wf_view(v),
    ensures
        spec_decode_at(spec_encode(v), 0) == Some((v, spec_encode(v).len() as int)),
{
    let b = spec_encode(v);
    assert(b.subrange(0, b.len() as int) =~= b);
    lemma_decode_encode(v, b, 0);
}

impl TalkProtocol {
    /// Decodes one binary frame; trailing bytes after the event are
    /// ignored, as the encoding is self-delimiting.
    pub fn deserialize(bytes: &[u8]) -> (r: Result<TalkProtocol, DecodeError>)
        ensures
            match r {
                Ok(p) => (spec_decode_at(bytes@, 0) matches Some(pr) && pr.0 == p@),
                Err(_) => spec_decode_at(bytes@, 0) is None,
            },
    {
        match decode_at(bytes, 0) {
            Some((p, _)) => Ok(p),
            None => Err(DecodeError),
        }
    }
}

} // verus!
