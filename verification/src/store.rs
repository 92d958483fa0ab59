//! In-memory model of the relational store: the short-lived
//! connection-tracking rows and the durable event stream, with the
//! history query's select-newest-then-return-ascending discipline.

use vstd::prelude::*;
use vstd::relations::sorted_by;

verus! {

/// A connection-tracking row: inserted on a successful JoinRoom and
/// deleted on LeaveRoom.
#[derive(Debug, Clone, Copy, PartialEq, Eq, Structural)]
pub struct User {
    pub id: u64,
    pub room_id: i32,
    pub uuid: u128,
}

/// The fields of a connection-tracking row before the store assigns it an id.
#[derive(Debug, Clone, Copy, PartialEq, Eq, Structural)]
pub struct NewUser {
    pub room_id: i32,
    pub uuid: u128,
}

/// A durable event row. `protocol_type` is the kind tag of the
/// server-facing event the row stands for, and `message` carries that
/// event's single text column.
#[derive(Debug, PartialEq)]
pub struct Message {
    pub id: u64,
    pub time: u64,
    pub username: String,
    pub message: String,
    pub room_id: i32,
    pub uuid: u128,
    pub protocol_type: i16,
}

impl Clone for Message {
    fn clone(&self) -> (res: Self)
        ensures
            res == *self,
    {
        Message {
            id: self.id,
            time: self.time,
            username: self.username.clone(),
            message: self.message.clone(),
            room_id: self.room_id,
            uuid: self.uuid,
            protocol_type: self.protocol_type,
        }
    }
}

/// The fields of a durable event row before the store assigns it an id.
#[derive(Debug, PartialEq)]
pub struct NewMessage {
    pub time: u64,
    pub username: String,
    pub message: String,
    pub room_id: i32,
    pub uuid: u128,
    pub protocol_type: i16,
}

/// Fetch ordering: by timestamp, ties broken by insertion order (row id).
pub open spec fn row_le(a: Message, b: Message) -> bool {
    a.time < b.time || (a.time == b.time && a.id <= b.id)
}

/// The rows of `events` that a fetch for `room` with cutoff `before`
/// considers: same room, timestamp strictly older than the cutoff. A
/// cutoff of zero means no cutoff at all — it considers every row of
/// the room, the same as a cutoff in the future.
pub open spec fn spec_filtered(events: Seq<Message>, room: i32, before: u64) -> Seq<Message> {
    events.filter(|m: Message| m.room_id == room && (before == 0 || m.time < before))
}

/// Stable insertion of `m` into a sequence sorted by `row_le`.
pub open spec fn insert_sorted(s: Seq<Message>, m: Message) -> Seq<Message>
    decreases s.len(),
{
    if s.len() == 0 {
        seq![m]
    } else if row_le(s.last(), m) {
        s.push(m)
    } else {
        insert_sorted(s.drop_last(), m).push(s.last())
    }
}

/// Insertion sort by `row_le`; stable, so rows with equal timestamps
/// keep their insertion order.
pub open spec fn sort_rows(s: Seq<Message>) -> Seq<Message>
    decreases s.len(),
{
    if s.len() == 0 {
        Seq::empty()
    } else {
        insert_sorted(sort_rows(s.drop_last()), s.last())
    }
}

/// How many rows a fetch with the given `limit` returns out of `avail`
/// candidates: `limit` clamped to `[0, avail]`.
pub open spec fn spec_take_count(limit: i64, avail: int) -> int {
    if limit <= 0 {
        0
    } else if limit as int >= avail {
        avail
    } else {
        limit as int
    }
}

/// The result of a history fetch: the `limit` rows with the largest
/// `(time, id)` among the candidates, in ascending `(time, id)` order —
/// the suffix of the sorted candidate sequence.
pub open spec fn spec_history(events: Seq<Message>, room: i32, limit: i64, before: u64) -> Seq<
    Message,
> {
    let f = sort_rows(spec_filtered(events, room, before));
    f.subrange(f.len() - spec_take_count(limit, f.len() as int), f.len() as int)
}

/// The most recent (last-inserted) user row for `uuid`, if any.
pub open spec fn spec_room_of(users: Seq<User>, uuid: u128) -> Option<User>
    decreases users.len(),
{
    if users.len() == 0 {
        None
    } else if users.last().uuid == uuid {
        Some(users.last())
    } else {
        spec_room_of(users.drop_last(), uuid)
    }
}

/// Comparison backing the fetch ordering.
fn le_row(a: &Message, b: &Message) -> (r: bool)
    ensures
        r == row_le(*a, *b),
{
    a.time < b.time || (a.time == b.time && a.id <= b.id)
}

/// Inserting into a sequence at the position found by scanning from the
/// right is exactly the stable sorted insertion.
proof fn lemma_insert_sorted_splice(s: Seq<Message>, m: Message, idx: int)
    requires
        0 <= idx <= s.len(),
        forall|j: int| idx <= j < s.len() ==> !row_le(#[trigger] s[j], m),
        idx > 0 ==> row_le(s[idx - 1], m),
    ensures
        insert_sorted(s, m) == s.insert(idx, m),
    decreases s.len(),
{
    if s.len() == 0 {
        assert(s.insert(0, m) =~= seq![m]);
    } else if idx == s.len() {
        assert(s.insert(idx, m) =~= s.push(m));
    } else {
        assert(!row_le(s[s.len() - 1], m));
        lemma_insert_sorted_splice(s.drop_last(), m, idx);
        assert(s.drop_last().insert(idx, m).push(s.last()) =~= s.insert(idx, m));
    }
}

proof fn lemma_insert_sorted_ensures(s: Seq<Message>, m: Message)
    ensures
        insert_sorted(s, m).len() == s.len() + 1,
        insert_sorted(s, m).to_multiset() == s.to_multiset().insert(m),
    decreases s.len(),
{
    broadcast use vstd::seq_lib::group_to_multiset_ensures;
    broadcast use vstd::multiset::group_multiset_axioms;

    if s.len() == 0 {
        assert(seq![m] =~= Seq::<Message>::empty().push(m));
        assert(insert_sorted(s, m).to_multiset() =~= s.to_multiset().insert(m));
    } else if row_le(s.last(), m) {
        assert(insert_sorted(s, m).to_multiset() =~= s.to_multiset().insert(m));
    } else {
        lemma_insert_sorted_ensures(s.drop_last(), m);
        assert(s =~= s.drop_last().push(s.last()));
        assert(s.to_multiset() =~= s.drop_last().to_multiset().insert(s.last()));
        assert(insert_sorted(s, m).to_multiset() =~= s.drop_last().to_multiset().insert(m).insert(
            s.last(),
        ));
        assert(s.drop_last().to_multiset().insert(m).insert(s.last()) =~= s.drop_last().to_multiset().insert(
            s.last(),
        ).insert(m));
    }
}

proof fn lemma_insert_sorted_sorted(s: Seq<Message>, m: Message)
    requires
        sorted_by(s, |a: Message, b: Message| row_le(a, b)),
    ensures
        sorted_by(insert_sorted(s, m), |a: Message, b: Message| row_le(a, b)),
    decreases s.len(),
{
    broadcast use vstd::seq_lib::group_to_multiset_ensures;

    let leq = |a: Message, b: Message| row_le(a, b);
    if s.len() == 0 {
    } else if row_le(s.last(), m) {
        let t = s.push(m);
        assert forall|i: int, j: int| 0 <= i < j < t.len() implies leq(t[i], t[j]) by {
            if j == s.len() {
                if i < s.len() - 1 {
                    assert(leq(s[i], s[s.len() - 1]));
                }
            }
        };
    } else {
        lemma_insert_sorted_sorted(s.drop_last(), m);
        lemma_insert_sorted_ensures(s.drop_last(), m);
        let u = insert_sorted(s.drop_last(), m);
        let t = u.push(s.last());
        assert forall|i: int, j: int| 0 <= i < j < t.len() implies leq(t[i], t[j]) by {
            if j == u.len() {
                let x = u[i];
                assert(u.contains(x));
                assert(u.to_multiset().count(x) > 0);
                if x == m {
                    assert(row_le(m, s.last()));
                } else {
                    assert(s.drop_last().to_multiset().count(x) > 0);
                    assert(s.drop_last().contains(x));
                    let k = choose|k: int|
                        0 <= k < s.drop_last().len() && s.drop_last()[k] == x;
                    assert(leq(s[k], s[s.len() - 1]));
                }
            }
        };
    }
}

/// Sorting correctness: `sort_rows` is a permutation of its input,
/// sorted by `(time, id)`.
pub proof fn lemma_sort_rows_ensures(s: Seq<Message>)
    ensures
        sort_rows(s).len() == s.len(),
        sort_rows(s).to_multiset() == s.to_multiset(),
        sorted_by(sort_rows(s), |a: Message, b: Message| row_le(a, b)),
    decreases s.len(),
{
    broadcast use vstd::seq_lib::group_to_multiset_ensures;

    if s.len() == 0 {
    } else {
        lemma_sort_rows_ensures(s.drop_last());
        lemma_insert_sorted_ensures(sort_rows(s.drop_last()), s.last());
        lemma_insert_sorted_sorted(sort_rows(s.drop_last()), s.last());
        assert(s =~= s.drop_last().push(s.last()));
        assert(s.to_multiset() =~= s.drop_last().to_multiset().insert(s.last()));
    }
}

/// A sequence already sorted by `(time, id)` is a fixpoint of `sort_rows`.
proof fn lemma_sort_rows_of_sorted(s: Seq<Message>)
    requires
        sorted_by(s, |a: Message, b: Message| row_le(a, b)),
    ensures
        sort_rows(s) == s,
    decreases s.len(),
{
    if s.len() == 0 {
        assert(sort_rows(s) =~= s);
    } else {
        lemma_sort_rows_of_sorted(s.drop_last());
        if s.len() == 1 {
            assert(sort_rows(s) =~= s);
        } else {
            let leq = |a: Message, b: Message| row_le(a, b);
            assert(leq(s[s.len() - 2], s[s.len() - 1]));
            assert(insert_sorted(s.drop_last(), s.last()) =~= s);
        }
    }
}

/// The history fetch law: the result is sorted ascending by
/// `(time, id)`, holds exactly `limit` rows (clamped to what is
/// available), each result row is a stored row for the requested room
/// strictly older than the cutoff, and every candidate row left out is
/// no newer than any row returned.
pub proof fn lemma_history_properties(events: Seq<Message>, room: i32, limit: i64, before: u64)
    ensures
        ({
            let f = spec_filtered(events, room, before);
            let sf = sort_rows(f);
            let h = spec_history(events, room, limit, before);
            &&& h.len() == spec_take_count(limit, f.len() as int)
            &&& sorted_by(h, |a: Message, b: Message| row_le(a, b))
            &&& forall|x: Message| h.contains(x) ==> f.contains(x)
            &&& forall|i: int, j: int|
                0 <= i < sf.len() - h.len() && 0 <= j < h.len() ==> row_le(sf[i], h[j])
        }),
{
    broadcast use vstd::seq_lib::group_to_multiset_ensures;

    let f = spec_filtered(events, room, before);
    let sf = sort_rows(f);
    let h = spec_history(events, room, limit, before);
    let k = spec_take_count(limit, f.len() as int);
    lemma_sort_rows_ensures(f);
    assert(h == sf.subrange(sf.len() - k, sf.len() as int));
    assert forall|x: Message| h.contains(x) implies f.contains(x) by {
        let j = choose|j: int| 0 <= j < h.len() && h[j] == x;
        assert(sf[sf.len() - k + j] == x);
        assert(sf.contains(x));
        assert(sf.to_multiset().count(x) > 0);
    };
    let leq = |a: Message, b: Message| row_le(a, b);
    assert forall|i: int, j: int|
        0 <= i < sf.len() - h.len() && 0 <= j < h.len() implies row_le(sf[i], h[j]) by {
        assert(h[j] == sf[sf.len() - k + j]);
        assert(leq(sf[i], sf[sf.len() - k + j]));
    };
}

/// Every row a filter keeps was among the rows filtered.
pub proof fn lemma_filter_subset(s: Seq<Message>, pred: spec_fn(Message) -> bool)
    ensures
        forall|x: Message| (#[trigger] s.filter(pred).contains(x)) ==> s.contains(x),
    decreases s.len(),
{
    reveal_with_fuel(Seq::filter, 2);
    if s.len() == 0 {
    } else {
        lemma_filter_subset(s.drop_last(), pred);
        assert forall|x: Message| s.filter(pred).contains(x) implies s.contains(x) by {
            if pred(s.last()) {
                assert(s.filter(pred) == s.drop_last().filter(pred).push(s.last()));
                if x == s.last() {
                    assert(s[s.len() - 1] == x);
                } else {
                    let j = choose|j: int| 0 <= j < s.filter(pred).len() && s.filter(pred)[j] == x;
                    assert(s.drop_last().filter(pred).contains(x));
                    let i = choose|i: int|
                        0 <= i < s.drop_last().len() && s.drop_last()[i] == x;
                    assert(s[i] == x);
                }
            } else {
                assert(s.filter(pred) == s.drop_last().filter(pred));
                let i = choose|i: int| 0 <= i < s.drop_last().len() && s.drop_last()[i] == x;
                assert(s[i] == x);
            }
        };
    }
}

proof fn lemma_filter_all_true(s: Seq<Message>, pred: spec_fn(Message) -> bool)
    requires
        forall|i: int| 0 <= i < s.len() ==> pred(#[trigger] s[i]),
    ensures
        s.filter(pred) == s,
    decreases s.len(),
{
    reveal_with_fuel(Seq::filter, 2);
    if s.len() == 0 {
        assert(s.filter(pred) =~= s);
    } else {
        lemma_filter_all_true(s.drop_last(), pred);
        assert(pred(s.last()));
        assert(s.filter(pred) =~= s.drop_last().push(s.last()));
        assert(s =~= s.drop_last().push(s.last()));
    }
}

/// The history round-trip law: if the rows stored for `room` carry
/// timestamps 1, 2, ..., n in insertion order, then a fetch with cutoff
/// n+1 and limit m returns exactly the last min(m, n) of them — the
/// rows with timestamps max(1, n-m+1) ..= n — in ascending order.
pub proof fn lemma_history_round_trip(events: Seq<Message>, room: i32, m: i64)
    requires
        forall|i: int| 0 <= i < events.len() ==> (#[trigger] events[i]).room_id == room,
        forall|i: int| 0 <= i < events.len() ==> (#[trigger] events[i]).time == i + 1,
        events.len() < u64::MAX,
    ensures
        ({
            let n = events.len() as int;
            let k = spec_take_count(m, n);
            let h = spec_history(events, room, m, (n + 1) as u64);
            &&& h.len() == k
            &&& forall|j: int| 0 <= j < k ==> h[j] == events[n - k + j]
        }),
{
    let n = events.len() as int;
    let k = spec_take_count(m, n);
    let before = (n + 1) as u64;
    let pred = |x: Message| x.room_id == room && (before == 0 || x.time < before);
    assert forall|i: int| 0 <= i < events.len() implies pred(#[trigger] events[i]) by {
        assert(events[i].time == i + 1 < n + 1);
    };
    lemma_filter_all_true(events, pred);
    assert(spec_filtered(events, room, before) == events);
    let leq = |a: Message, b: Message| row_le(a, b);
    assert forall|i: int, j: int| 0 <= i < j < events.len() implies leq(events[i], events[j]) by {
        assert(events[i].time == i + 1 && events[j].time == j + 1);
    };
    lemma_sort_rows_of_sorted(events);
    assert(spec_history(events, room, m, before) == events.subrange(n - k, n));
}

/// Deleting a user identity is idempotent: once every row for `uuid`
/// is gone, deleting again removes nothing and changes nothing.
pub proof fn lemma_delete_idempotent(users: Seq<User>, uuid: u128)
    ensures
        users.filter(|u: User| u.uuid != uuid).filter(|u: User| u.uuid != uuid) == users.filter(
            |u: User| u.uuid != uuid,
        ),
    decreases users.len(),
{
    reveal_with_fuel(Seq::filter, 2);
    let pred = |u: User| u.uuid != uuid;
    if users.len() == 0 {
        assert(users.filter(pred) =~= Seq::<User>::empty());
    } else {
        lemma_delete_idempotent(users.drop_last(), uuid);
        if pred(users.last()) {
            assert(users.filter(pred) == users.drop_last().filter(pred).push(users.last()));
            assert(users.filter(pred).drop_last() == users.drop_last().filter(pred));
            assert(users.filter(pred).filter(pred) =~= users.filter(pred));
        } else {
            assert(users.filter(pred) == users.drop_last().filter(pred));
        }
    }
}

/// The store itself: the two tables plus the id counters the auto
/// primary keys come from.
///
/// Well-formedness (`wf`) pins two invariants: event rows carry
/// strictly increasing ids — which makes the fetch ordering a total
/// order over the rows actually stored — and every row's kind tag is
/// one of the five persistable kinds, so each row stands for an event
/// again when a history is fetched.
pub struct Store {
    pub users: Vec<User>,
    pub events: Vec<Message>,
    pub next_user_id: u64,
    pub next_event_id: u64,
}

impl Store {
    pub open spec fn wf(self) -> bool {
        &&& forall|i: int, j: int|
            0 <= i < j < self.events@.len() ==> self.events@[i].id < self.events@[j].id
        &&& forall|i: int| 0 <= i < self.events@.len() ==> #[trigger] self.events@[i].id < self.next_event_id
        &&& forall|i: int|
            0 <= i < self.events@.len() ==> 0 <= (#[trigger] self.events@[i]).protocol_type <= 4
    }

    pub fn new() -> (r: Store)
        ensures
            r.users@ == Seq::<User>::empty(),
            r.events@ == Seq::<Message>::empty(),
            r.next_user_id == 0,
            r.next_event_id == 0,
            r.wf(),
    {
        Store { users: Vec::new(), events: Vec::new(), next_user_id: 0, next_event_id: 0 }
    }

    /// Inserts a connection-tracking row; returns the number of rows
    /// written (always one).
    pub fn insert_user(&mut self, user: NewUser) -> (r: usize)
        requires
            old(self).next_user_id < u64::MAX,
        ensures
            final(self).users@ == old(self).users@.push(
                User { id: old(self).next_user_id, room_id: user.room_id, uuid: user.uuid },
            ),
            final(self).events@ == old(self).events@,
            final(self).next_event_id == old(self).next_event_id,
            final(self).next_user_id == old(self).next_user_id + 1,
            old(self).wf() ==> final(self).wf(),
            r == 1usize,
    {
        let row = User { id: self.next_user_id, room_id: user.room_id, uuid: user.uuid };
        self.users.push(row);
        self.next_user_id = self.next_user_id + 1;
        1
    }

    /// Deletes every connection-tracking row for `uuid`; returns how
    /// many were removed. Deleting the same identity twice removes
    /// nothing the second time.
    pub fn delete_user_by_uuid(&mut self, uuid: u128) -> (r: usize)
        ensures
            final(self).users@ == old(self).users@.filter(|u: User| u.uuid != uuid),
            final(self).events@ == old(self).events@,
            final(self).next_user_id == old(self).next_user_id,
            final(self).next_event_id == old(self).next_event_id,
            old(self).wf() ==> final(self).wf(),
            r == old(self).users@.len() - final(self).users@.len(),
    {
        let mut kept: Vec<User> = Vec::new();
        let mut i: usize = 0;
        while i < self.users.len()
            invariant
                i <= self.users@.len(),
                kept@ == self.users@.take(i as int).filter(|u: User| u.uuid != uuid),
            decreases self.users@.len() - i,
        {
            proof {
                reveal_with_fuel(Seq::filter, 2);
                assert(self.users@.take(i + 1).drop_last() == self.users@.take(i as int));
                assert(self.users@.take(i + 1).last() == self.users@[i as int]);
            }
            let u = self.users[i];
            if u.uuid != uuid {
                kept.push(u);
            }
            i = i + 1;
        }
        proof {
            assert(self.users@.take(self.users@.len() as int) == self.users@);
            self.users@.lemma_filter_len(|u: User| u.uuid != uuid);
        }
        let removed = self.users.len() - kept.len();
        self.users = kept;
        removed
    }

    /// Appends a durable event row under a fresh id; returns the number
    /// of rows written (always one).
    pub fn insert_message(&mut self, msg: NewMessage) -> (r: usize)
        requires
            old(self).next_event_id < u64::MAX,
            0 <= msg.protocol_type <= 4,
        ensures
            final(self).events@ == old(self).events@.push(
                Message {
                    id: old(self).next_event_id,
                    time: msg.time,
                    username: msg.username,
                    message: msg.message,
                    room_id: msg.room_id,
                    uuid: msg.uuid,
                    protocol_type: msg.protocol_type,
                },
            ),
            final(self).users@ == old(self).users@,
            final(self).next_user_id == old(self).next_user_id,
            final(self).next_event_id == old(self).next_event_id + 1,
            old(self).wf() ==> final(self).wf(),
            r == 1usize,
    {
        let row = Message {
            id: self.next_event_id,
            time: msg.time,
            username: msg.username,
            message: msg.message,
            room_id: msg.room_id,
            uuid: msg.uuid,
            protocol_type: msg.protocol_type,
        };
        self.events.push(row);
        self.next_event_id = self.next_event_id + 1;
        1
    }

    /// All connection-tracking rows, in insertion order.
    pub fn get_users(&self) -> (r: Vec<User>)
        ensures
            r@ == self.users@,
    {
        let mut out: Vec<User> = Vec::new();
        let mut i: usize = 0;
        while i < self.users.len()
            invariant
                i <= self.users@.len(),
                out@ == self.users@.take(i as int),
            decreases self.users@.len() - i,
        {
            out.push(self.users[i]);
            proof {
                assert(self.users@.take(i + 1) == self.users@.take(i as int).push(
                    self.users@[i as int],
                ));
            }
            i = i + 1;
        }
        proof {
            assert(self.users@.take(self.users@.len() as int) == self.users@);
        }
        out
    }

    /// All durable event rows, in insertion order.
    pub fn get_messages(&self) -> (r: Vec<Message>)
        ensures
            r@ == self.events@,
    {
        let mut out: Vec<Message> = Vec::new();
        let mut i: usize = 0;
        while i < self.events.len()
            invariant
                i <= self.events@.len(),
                out@ == self.events@.take(i as int),
            decreases self.events@.len() - i,
        {
            out.push(self.events[i].clone());
            proof {
                assert(self.events@.take(i + 1) == self.events@.take(i as int).push(
                    self.events@[i as int],
                ));
            }
            i = i + 1;
        }
        proof {
            assert(self.events@.take(self.events@.len() as int) == self.events@);
        }
        out
    }

    /// The history fetch: among the durable rows for `room_id` with a
    /// timestamp strictly older than `fetch_before`, the `limit` most
    /// recent ones — largest `(time, id)` — returned in ascending
    /// `(time, id)` order. A cutoff of zero, like one in the future,
    /// returns the newest `limit` rows of the room. A non-positive
    /// `limit` returns nothing.
    pub fn get_history(&self, room_id: i32, limit: i64, fetch_before: u64) -> (r: Vec<Message>)
        ensures
            r@ == spec_history(self.events@, room_id, limit, fetch_before),
    {
        let mut f: Vec<Message> = Vec::new();
        let mut i: usize = 0;
        while i < self.events.len()
            invariant
                i <= self.events@.len(),
                f@ == self.events@.take(i as int).filter(
                    |m: Message| m.room_id == room_id && (fetch_before == 0 || m.time
                        < fetch_before),
                ),
            decreases self.events@.len() - i,
        {
            proof {
                reveal_with_fuel(Seq::filter, 2);
                assert(self.events@.take(i + 1).drop_last() == self.events@.take(i as int));
                assert(self.events@.take(i + 1).last() == self.events@[i as int]);
            }
            let m = &self.events[i];
            if m.room_id == room_id && (fetch_before == 0 || m.time < fetch_before) {
                f.push(m.clone());
            }
            i = i + 1;
        }
        proof {
            assert(self.events@.take(self.events@.len() as int) =~= self.events@);
        }
        let mut sorted: Vec<Message> = Vec::new();
        let mut i: usize = 0;
        while i < f.len()
            invariant
                i <= f@.len(),
                sorted@ == sort_rows(f@.take(i as int)),
                sorted@.len() == i,
            decreases f@.len() - i,
        {
            let m = f[i].clone();
            let mut idx: usize = sorted.len();
            while idx > 0 && !le_row(&sorted[idx - 1], &m)
                invariant
                    idx <= sorted@.len(),
                    forall|j: int| idx <= j < sorted@.len() ==> !row_le(#[trigger] sorted@[j], m),
                decreases idx,
            {
                idx = idx - 1;
            }
            proof {
                lemma_insert_sorted_splice(sorted@, m, idx as int);
                assert(f@.take(i + 1).drop_last() == f@.take(i as int));
                assert(f@.take(i + 1).last() == f@[i as int]);
            }
            sorted.insert(idx, m);
            i = i + 1;
        }
        proof {
            assert(f@.take(f@.len() as int) =~= f@);
        }
        let k: usize = if limit <= 0 {
            0
        } else if limit as u64 >= sorted.len() as u64 {
            sorted.len()
        } else {
            limit as usize
        };
        let start: usize = sorted.len() - k;
        let mut out: Vec<Message> = Vec::new();
        let mut i: usize = start;
        while i < sorted.len()
            invariant
                start <= i <= sorted@.len(),
                out@ == sorted@.subrange(start as int, i as int),
            decreases sorted@.len() - i,
        {
            out.push(sorted[i].clone());
            proof {
                assert(sorted@.subrange(start as int, i + 1) == sorted@.subrange(
                    start as int,
                    i as int,
                ).push(sorted@[i as int]));
            }
            i = i + 1;
        }
        out
    }

    /// At most one row: the most recent connection-tracking row for
    /// `uuid`, or empty if the identity has no row.
    pub fn get_room_id_by_uuid(&self, uuid: u128) -> (r: Vec<User>)
        ensures
            r@ == match spec_room_of(self.users@, uuid) {
                Some(u) => seq![u],
                None => Seq::<User>::empty(),
            },
    {
        let mut i: usize = self.users.len();
        proof {
            assert(self.users@.take(i as int) =~= self.users@);
        }
        while i > 0
            invariant
                i <= self.users@.len(),
                spec_room_of(self.users@, uuid) == spec_room_of(self.users@.take(i as int), uuid),
            decreases i,
        {
            proof {
                assert(self.users@.take(i as int).last() == self.users@[i - 1]);
                assert(self.users@.take(i as int).drop_last() == self.users@.take(i - 1));
            }
            let u = self.users[i - 1];
            if u.uuid == uuid {
                let mut out: Vec<User> = Vec::new();
                out.push(u);
                return out;
            }
            i = i - 1;
        }
        proof {
            assert(self.users@.take(0) == Seq::<User>::empty());
        }
        Vec::new()
    }
}

} // verus!
