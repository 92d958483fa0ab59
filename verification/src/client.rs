//! The client-side state and command layer: the input line, scroll and
//! mode state of the terminal client, and the parsing of typed input
//! into protocol messages. The caller supplies the current Unix time
//! and sends the returned messages itself; clock and channels stay
//! outside.

use crate::protocol::{TalkMessage, TalkProtocol};
use crate::text::{
    has_prefix, parse_i32, parse_i64, push_char, spec_parse_signed, spec_strip_all, spec_trim,
    str_starts_with, strip_all_then_trim,
};
use vstd::prelude::*;
use vstd::string::{StrSliceExecFns, StringExecFns};

verus! {

/// Whether keystrokes scroll the view or edit the input line.
#[derive(Debug, Clone, Copy, PartialEq, Eq, Structural)]
pub enum InputMode {
    Normal,
    Editing,
}

/// Relies on uuid::Uuid::new_v4 for a freshly drawn random 128-bit
/// identity; nothing can be promised of a random value.
#[verifier::external_body]
fn fresh_user_id() -> u128 {
    uuid::Uuid::new_v4().as_u128()
}

/// The terminal client's whole state: the line being edited, the
/// cursor's character position, scroll state, the events shown so far,
/// and this session's identity.
pub struct App {
    pub input: String,
    pub character_index: usize,
    pub input_mode: InputMode,
    pub scroll: usize,
    pub max_scroll: usize,
    pub auto_scroll: bool,
    pub communication: Vec<TalkProtocol>,
    pub username: String,
    pub room: i32,
    pub uuid: u128,
}

impl App {
    /// The cursor stays inside the input line.
    pub open spec fn wf(self) -> bool {
        self.character_index <= self.input@.len()
    }

    pub fn new() -> (r: App)
        ensures
            r.input@ == Seq::<char>::empty(),
            r.character_index == 0,
            r.input_mode is Normal,
            r.scroll == 0,
            r.max_scroll == 0,
            r.auto_scroll,
            r.communication@ == Seq::<TalkProtocol>::empty(),
            r.username@ == "Client"@,
            r.room == 0,
            r.wf(),
    {
        App {
            input: String::new(),
            character_index: 0,
            input_mode: InputMode::Normal,
            scroll: 0,
            max_scroll: 0,
            auto_scroll: true,
            communication: Vec::new(),
            username: "Client".to_owned(),
            room: 0,
            uuid: fresh_user_id(),
        }
    }

    /// The given cursor position, pulled back inside the input line.
    pub fn clamp_cursor(&self, new_cursor_pos: usize) -> (r: usize)
        ensures
            r == if new_cursor_pos <= self.input@.len() {
                new_cursor_pos as int
            } else {
                self.input@.len() as int
            },
    {
        let n = self.input.as_str().unicode_len();
        if new_cursor_pos <= n {
            new_cursor_pos
        } else {
            n
        }
    }

    pub fn move_cursor_left(&mut self)
        requires
            old(self).wf(),
        ensures
            *final(self) == (App {
                character_index: if old(self).character_index > 0 {
                    (old(self).character_index - 1) as usize
                } else {
                    0
                },
                ..*old(self)
            }),
            final(self).wf(),
    {
        let moved = if self.character_index > 0 {
            self.character_index - 1
        } else {
            0
        };
        self.character_index = self.clamp_cursor(moved);
    }

    pub fn move_cursor_right(&mut self)
        requires
            old(self).wf(),
            old(self).input@.len() < usize::MAX,
        ensures
            *final(self) == (App {
                character_index: if old(self).character_index < old(self).input@.len() {
                    (old(self).character_index + 1) as usize
                } else {
                    old(self).character_index
                },
                ..*old(self)
            }),
            final(self).wf(),
    {
        let moved = if self.character_index < usize::MAX {
            self.character_index + 1
        } else {
            self.character_index
        };
        self.character_index = self.clamp_cursor(moved);
    }

    pub fn reset_cursor(&mut self)
        ensures
            *final(self) == (App { character_index: 0usize, ..*old(self) }),
    {
        self.character_index = 0;
    }

    /// Inserts the character at the cursor and moves the cursor past it.
    pub fn enter_char(&mut self, new_char: char)
        requires
            old(self).wf(),
            old(self).input@.len() < usize::MAX,
        ensures
            final(self).input@ == old(self).input@.subrange(
                0,
                old(self).character_index as int,
            ).push(new_char) + old(self).input@.subrange(
                old(self).character_index as int,
                old(self).input@.len() as int,
            ),
            final(self).character_index == old(self).character_index + 1,
            final(self).wf(),
            *final(self) == (App {
                input: final(self).input,
                character_index: final(self).character_index,
                ..*old(self)
            }),
    {
        let idx = self.character_index;
        let n = self.input.as_str().unicode_len();
        let mut out: String = self.input.as_str().substring_char(0, idx).to_owned();
        push_char(&mut out, new_char);
        let tail = self.input.as_str().substring_char(idx, n);
        out.append(tail);
        self.input = out;
        self.character_index = idx + 1;
    }

    /// Deletes the character left of the cursor, if any, and moves the
    /// cursor back onto the gap.
    pub fn delete_char(&mut self)
        requires
            old(self).wf(),
        ensures
            old(self).character_index == 0 ==> *final(self) == *old(self),
            old(self).character_index > 0 ==> {
                &&& final(self).input@ == old(self).input@.subrange(
                    0,
                    old(self).character_index - 1,
                ) + old(self).input@.subrange(
                    old(self).character_index as int,
                    old(self).input@.len() as int,
                )
                &&& final(self).character_index == old(self).character_index - 1
                &&& *final(self) == (App {
                    input: final(self).input,
                    character_index: final(self).character_index,
                    ..*old(self)
                })
            },
            final(self).wf(),
    {
        if self.character_index != 0 {
            let idx = self.character_index;
            let n = self.input.as_str().unicode_len();
            let mut out: String = self.input.as_str().substring_char(0, idx - 1).to_owned();
            let tail = self.input.as_str().substring_char(idx, n);
            out.append(tail);
            self.input = out;
            self.character_index = idx - 1;
        }
    }
}

/// The timestamp the next history fetch should cut off at: the
/// timestamp of the first displayable event on screen, or the current
/// time when none is shown yet.
pub fn get_first_message_timestamp(app: &App, now: u64) -> (r: u64)
    ensures
        r == spec_first_ts(app.communication@, now),
{
    let mut i: usize = 0;
    proof {
        assert(app.communication@.skip(0) =~= app.communication@);
    }
    while i < app.communication.len()
        invariant
            i <= app.communication@.len(),
            spec_first_ts(app.communication@, now) == spec_first_ts(
                app.communication@.skip(i as int),
                now,
            ),
        decreases app.communication@.len() - i,
    {
        proof {
            assert(app.communication@.skip(i as int).first() == app.communication@[i as int]);
            assert(app.communication@.skip(i as int).drop_first() =~= app.communication@.skip(
                i + 1,
            ));
        }
        match &app.communication[i] {
            TalkProtocol::PostMessage { message } => {
                return message.unixtime;
            },
            TalkProtocol::UserJoined { unixtime, .. } => {
                return *unixtime;
            },
            TalkProtocol::UserLeft { unixtime, .. } => {
                return *unixtime;
            },
            TalkProtocol::UsernameChanged { unixtime, .. } => {
                return *unixtime;
            },
            _ => {},
        }
        i = i + 1;
    }
    now
}

/// The timestamp of the first displayable event, or `now`.
pub open spec fn spec_first_ts(s: Seq<TalkProtocol>, now: u64) -> u64
    decreases s.len(),
{
    if s.len() == 0 {
        now
    } else {
        match s.first() {
            TalkProtocol::PostMessage { message } => message.unixtime,
            TalkProtocol::UserJoined { unixtime, .. } => unixtime,
            TalkProtocol::UserLeft { unixtime, .. } => unixtime,
            TalkProtocol::UsernameChanged { unixtime, .. } => unixtime,
            _ => spec_first_ts(s.drop_first(), now),
        }
    }
}

/// The display list grew by exactly one local error with this text.
pub open spec fn comm_extended_local_error(
    old_c: Seq<TalkProtocol>,
    new_c: Seq<TalkProtocol>,
    msg: Seq<char>,
) -> bool {
    &&& new_c.len() == old_c.len() + 1
    &&& new_c.take(old_c.len() as int) == old_c
    &&& (new_c.last() matches TalkProtocol::LocalError { message } && message@ == msg)
}

/// Everything `parse` never touches.
pub open spec fn same_ui_state(a: App, b: App) -> bool {
    &&& a.uuid == b.uuid
    &&& a.scroll == b.scroll
    &&& a.max_scroll == b.max_scroll
    &&& a.auto_scroll == b.auto_scroll
    &&& a.input_mode == b.input_mode
    &&& a.character_index == b.character_index
}

fn push_local_error(comm: &mut Vec<TalkProtocol>, msg: String)
    ensures
        comm_extended_local_error(old(comm)@, final(comm)@, msg@),
{
    comm.push(TalkProtocol::LocalError { message: msg });
    proof {
        assert(comm@.take(old(comm)@.len() as int) =~= old(comm)@);
    }
}

/// The slash-stripped, trimmed command text of a slash input.
pub open spec fn spec_command(input: Seq<char>) -> Seq<char> {
    spec_trim(spec_strip_all(input, "/"@))
}

/// Turns one submitted input line into the messages to send, updating
/// the client state as the line demands. An empty line does nothing; an
/// overlong line reports a local error to the peer; a line starting
/// with `/` is a command — `name`, `room`, `clear`, `fetch` — and
/// anything else is posted to the current room as a message.
#[verifier::rlimit(100)]
pub fn parse(app: &mut App, now: u64) -> (sends: Vec<TalkProtocol>)
    ensures
        same_ui_state(*final(app), *old(app)),
        ({
            let input = old(app).input@;
            let uname = old(app).username;
            let comm = old(app).communication@;
            if input.len() == 0 {
                *final(app) == *old(app) && sends@ == Seq::<TalkProtocol>::empty()
            } else if input.len() >= 250 {
                &&& *final(app) == *old(app)
                &&& sends@.len() == 1
                &&& (sends@[0] matches TalkProtocol::LocalError { message } && message@
                    == "Input too long"@)
            } else if has_prefix(input, "/"@) {
                let cmd = spec_command(input);
                if has_prefix(cmd, "name"@) {
                    let arg = spec_trim(spec_strip_all(cmd, "name "@));
                    &&& final(app).room == old(app).room
                    &&& final(app).input@ == arg
                    &&& if arg.len() <= 15 {
                        &&& sends@.len() == 1
                        &&& (sends@[0] matches TalkProtocol::ChangeName {
                            uuid,
                            username,
                            old_username,
                            unixtime,
                        } && uuid == old(app).uuid && username@ == arg && old_username == uname
                            && unixtime == now)
                        &&& final(app).username@ == arg
                        &&& final(app).communication@ == comm
                    } else {
                        &&& sends@ == Seq::<TalkProtocol>::empty()
                        &&& final(app).username == uname
                        &&& comm_extended_local_error(comm, final(app).communication@, "Input too long"@)
                    }
                } else if has_prefix(cmd, "room"@) {
                    let arg = spec_trim(spec_strip_all(cmd, "room"@));
                    &&& final(app).input@ == arg
                    &&& final(app).username == uname
                    &&& match spec_parse_signed(arg, -0x8000_0000, 0x7fff_ffff) {
                        Some(v) => {
                            &&& sends@.len() == 2
                            &&& sends@[0] == (TalkProtocol::JoinRoom {
                                room_id: v as i32,
                                uuid: old(app).uuid,
                                username: uname,
                                unixtime: now,
                            })
                            &&& sends@[1] == (TalkProtocol::LeaveRoom {
                                room_id: old(app).room,
                                uuid: old(app).uuid,
                                username: uname,
                                unixtime: now,
                            })
                            &&& final(app).room == v as i32
                            &&& final(app).communication@ == Seq::<TalkProtocol>::empty()
                        },
                        None => {
                            &&& sends@ == Seq::<TalkProtocol>::empty()
                            &&& final(app).room == old(app).room
                            &&& comm_extended_local_error(
                                comm,
                                final(app).communication@,
                                "invalid room number"@,
                            )
                        },
                    }
                } else if cmd == "clear"@ {
                    &&& sends@ == Seq::<TalkProtocol>::empty()
                    &&& final(app).communication@ == Seq::<TalkProtocol>::empty()
                    &&& final(app).input@ == cmd
                    &&& final(app).username == uname
                    &&& final(app).room == old(app).room
                } else if has_prefix(cmd, "fetch"@) {
                    let arg = spec_trim(spec_strip_all(cmd, "fetch"@));
                    &&& final(app).input@ == arg
                    &&& final(app).username == uname
                    &&& final(app).room == old(app).room
                    &&& match spec_parse_signed(
                        arg,
                        -0x8000_0000_0000_0000,
                        0x7fff_ffff_ffff_ffff,
                    ) {
                        Some(v) => {
                            &&& sends@.len() == 1
                            &&& sends@[0] == (TalkProtocol::Fetch {
                                room_id: old(app).room,
                                limit: v as i64,
                                fetch_before: spec_first_ts(comm, now),
                            })
                            &&& final(app).communication@ == comm
                        },
                        None => {
                            &&& sends@ == Seq::<TalkProtocol>::empty()
                            &&& comm_extended_local_error(
                                comm,
                                final(app).communication@,
                                "invalid fetch limit"@,
                            )
                        },
                    }
                } else {
                    &&& sends@ == Seq::<TalkProtocol>::empty()
                    &&& final(app).input@ == cmd
                    &&& final(app).username == uname
                    &&& final(app).room == old(app).room
                    &&& comm_extended_local_error(
                        comm,
                        final(app).communication@,
                        "The command '"@ + cmd + "' does not exist"@,
                    )
                }
            } else {
                &&& *final(app) == *old(app)
                &&& sends@.len() == 1
                &&& sends@[0] == (TalkProtocol::PostMessage {
                    message: TalkMessage {
                        uuid: old(app).uuid,
                        username: uname,
                        text: old(app).input,
                        room_id: old(app).room,
                        unixtime: now,
                    },
                })
            }
        }),
{
    proof {
        reveal_strlit("/");
        reveal_strlit("name");
        reveal_strlit("name ");
        reveal_strlit("room");
        reveal_strlit("clear");
        reveal_strlit("fetch");
    }
    if app.input.as_str().is_empty() {
        return Vec::new();
    }
    if app.input.as_str().unicode_len() >= 250 {
        let mut sends: Vec<TalkProtocol> = Vec::new();
        sends.push(TalkProtocol::LocalError { message: "Input too long".to_owned() });
        return sends;
    }
    proof {
        if app.input@.len() >= 1 {
            assert(app.input@.subrange(0, 1) =~= seq![app.input@[0]]);
            assert("/"@ =~= seq!['/']);
        }
    }
    if str_starts_with(app.input.as_str(), "/") {
        let cmd = strip_all_then_trim(app.input.as_str(), "/");
        if str_starts_with(cmd.as_str(), "name") {
            let arg = strip_all_then_trim(cmd.as_str(), "name ");
            if arg.as_str().unicode_len() <= 15 {
                let mut sends: Vec<TalkProtocol> = Vec::new();
                sends.push(
                    TalkProtocol::ChangeName {
                        uuid: app.uuid,
                        username: arg.clone(),
                        old_username: app.username.clone(),
                        unixtime: now,
                    },
                );
                app.username = arg.clone();
                app.input = arg;
                sends
            } else {
                push_local_error(&mut app.communication, "Input too long".to_owned());
                app.input = arg;
                Vec::new()
            }
        } else if str_starts_with(cmd.as_str(), "room") {
            let arg = strip_all_then_trim(cmd.as_str(), "room");
            match parse_i32(arg.as_str()) {
                Some(number) => {
                    let mut sends: Vec<TalkProtocol> = Vec::new();
                    sends.push(
                        TalkProtocol::JoinRoom {
                            room_id: number,
                            uuid: app.uuid,
                            username: app.username.clone(),
                            unixtime: now,
                        },
                    );
                    sends.push(
                        TalkProtocol::LeaveRoom {
                            room_id: app.room,
                            uuid: app.uuid,
                            username: app.username.clone(),
                            unixtime: now,
                        },
                    );
                    app.room = number;
                    app.communication = Vec::new();
                    app.input = arg;
                    sends
                },
                None => {
                    push_local_error(&mut app.communication, "invalid room number".to_owned());
                    app.input = arg;
                    Vec::new()
                },
            }
        } else if cmd == "clear".to_owned() {
            app.communication = Vec::new();
            app.input = cmd;
            Vec::new()
        } else if str_starts_with(cmd.as_str(), "fetch") {
            let arg = strip_all_then_trim(cmd.as_str(), "fetch");
            match parse_i64(arg.as_str()) {
                Some(number) => {
                    let fetch_before = get_first_message_timestamp(app, now);
                    let mut sends: Vec<TalkProtocol> = Vec::new();
                    sends.push(
                        TalkProtocol::Fetch { room_id: app.room, limit: number, fetch_before },
                    );
                    app.input = arg;
                    sends
                },
                None => {
                    push_local_error(&mut app.communication, "invalid fetch limit".to_owned());
                    app.input = arg;
                    Vec::new()
                },
            }
        } else {
            let mut m = "The command '".to_owned();
            m.append(cmd.as_str());
            m.append("' does not exist");
            push_local_error(&mut app.communication, m);
            app.input = cmd;
            Vec::new()
        }
    } else {
        let mut sends: Vec<TalkProtocol> = Vec::new();
        sends.push(
            TalkProtocol::PostMessage {
                message: TalkMessage {
                    uuid: app.uuid,
                    username: app.username.clone(),
                    text: app.input.clone(),
                    room_id: app.room,
                    unixtime: now,
                },
            },
        );
        sends
    }
}

/// The JoinRoom for the client's current room and name, stamped `now`.
pub fn join_room(app: &App, now: u64) -> (r: TalkProtocol)
    ensures
        r == (TalkProtocol::JoinRoom {
            room_id: app.room,
            uuid: app.uuid,
            username: app.username,
            unixtime: now,
        }),
{
    TalkProtocol::JoinRoom {
        room_id: app.room,
        uuid: app.uuid,
        username: app.username.clone(),
        unixtime: now,
    }
}

/// The LeaveRoom for the client's current room and name, stamped `now`.
pub fn leave_room(app: &App, now: u64) -> (r: TalkProtocol)
    ensures
        r == (TalkProtocol::LeaveRoom {
            room_id: app.room,
            uuid: app.uuid,
            username: app.username,
            unixtime: now,
        }),
{
    TalkProtocol::LeaveRoom {
        room_id: app.room,
        uuid: app.uuid,
        username: app.username.clone(),
        unixtime: now,
    }
}

/// The message that enters the client's starting room: sent once,
/// right after the connection comes up.
pub fn join_initial_room(app: &App, now: u64) -> (r: TalkProtocol)
    ensures
        r == (TalkProtocol::JoinRoom {
            room_id: app.room,
            uuid: app.uuid,
            username: app.username,
            unixtime: now,
        }),
{
    join_room(app, now)
}

/// The message that leaves the current room: sent once, when the
/// client quits.
pub fn quit_app(app: &App, now: u64) -> (r: TalkProtocol)
    ensures
        r == (TalkProtocol::LeaveRoom {
            room_id: app.room,
            uuid: app.uuid,
            username: app.username,
            unixtime: now,
        }),
{
    leave_room(app, now)
}

} // verus!
