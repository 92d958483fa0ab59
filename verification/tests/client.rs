use roomtalk::client::{
    get_first_message_timestamp, join_initial_room, join_room, leave_room, parse, quit_app, App,
    InputMode,
};
use roomtalk::protocol::{TalkMessage, TalkProtocol};

fn fresh() -> App {
    let mut app = App::new();
    app.username = "alice".to_string();
    app.room = 7;
    app.uuid = 42;
    app
}

fn type_line(app: &mut App, line: &str) {
    for c in line.chars() {
        app.enter_char(c);
    }
}

#[test]
fn new_app_defaults() {
    let app = App::new();
    assert_eq!(app.input, "");
    assert_eq!(app.username, "Client");
    assert_eq!(app.room, 0);
    assert!(matches!(app.input_mode, InputMode::Normal));
    assert!(app.auto_scroll);
    assert!(app.communication.is_empty());
}

#[test]
fn plain_input_posts_to_current_room() {
    let mut app = fresh();
    type_line(&mut app, "hello there");
    let sends = parse(&mut app, 500);
    assert_eq!(sends, vec![TalkProtocol::PostMessage {
        message: TalkMessage {
            uuid: 42,
            username: "alice".to_string(),
            text: "hello there".to_string(),
            room_id: 7,
            unixtime: 500,
        },
    }]);
}

#[test]
fn empty_input_sends_nothing() {
    let mut app = fresh();
    let sends = parse(&mut app, 500);
    assert!(sends.is_empty());
}

#[test]
fn overlong_input_reports_local_error() {
    let mut app = fresh();
    type_line(&mut app, &"x".repeat(250));
    let sends = parse(&mut app, 500);
    assert_eq!(sends, vec![TalkProtocol::LocalError { message: "Input too long".to_string() }]);
}

#[test]
fn input_length_is_counted_in_code_points() {
    // 249 four-byte characters: far over 250 bytes, but under the
    // 250-code-point limit, so the line is posted.
    let mut app = fresh();
    let text = "\u{1f980}".repeat(249);
    type_line(&mut app, &text);
    let sends = parse(&mut app, 500);
    assert_eq!(sends.len(), 1);
    match &sends[0] {
        TalkProtocol::PostMessage { message } => assert_eq!(message.text, text),
        other => panic!("expected a post, got {:?}", other),
    }
}

#[test]
fn room_command_joins_then_leaves() {
    let mut app = fresh();
    app.communication.push(TalkProtocol::LocalError { message: "old".to_string() });
    type_line(&mut app, "/room 12");
    let sends = parse(&mut app, 600);
    assert_eq!(sends, vec![
        TalkProtocol::JoinRoom {
            room_id: 12,
            uuid: 42,
            username: "alice".to_string(),
            unixtime: 600,
        },
        TalkProtocol::LeaveRoom {
            room_id: 7,
            uuid: 42,
            username: "alice".to_string(),
            unixtime: 600,
        },
    ]);
    assert_eq!(app.room, 12);
    assert!(app.communication.is_empty());
}

#[test]
fn room_command_with_bad_number_reports_locally() {
    let mut app = fresh();
    type_line(&mut app, "/room twelve");
    let sends = parse(&mut app, 600);
    assert!(sends.is_empty());
    assert_eq!(app.room, 7);
    assert_eq!(app.communication.len(), 1);
    assert!(matches!(app.communication[0], TalkProtocol::LocalError { .. }));
}

#[test]
fn name_command_changes_name() {
    let mut app = fresh();
    type_line(&mut app, "/name bob");
    let sends = parse(&mut app, 700);
    assert_eq!(sends, vec![TalkProtocol::ChangeName {
        uuid: 42,
        username: "bob".to_string(),
        old_username: "alice".to_string(),
        unixtime: 700,
    }]);
    assert_eq!(app.username, "bob");
}

#[test]
fn name_command_too_long_is_local_error() {
    let mut app = fresh();
    type_line(&mut app, "/name abcdefghijklmnop");
    let sends = parse(&mut app, 700);
    assert!(sends.is_empty());
    assert_eq!(app.username, "alice");
    assert_eq!(app.communication.len(), 1);
    assert_eq!(app.communication[0], TalkProtocol::LocalError {
        message: "Input too long".to_string(),
    });
}

#[test]
fn clear_command_empties_display() {
    let mut app = fresh();
    app.communication.push(TalkProtocol::LocalError { message: "x".to_string() });
    type_line(&mut app, "/clear");
    let sends = parse(&mut app, 700);
    assert!(sends.is_empty());
    assert!(app.communication.is_empty());
}

#[test]
fn fetch_command_uses_first_shown_timestamp() {
    let mut app = fresh();
    app.communication.push(TalkProtocol::LocalError { message: "skip me".to_string() });
    app.communication.push(TalkProtocol::UserJoined {
        uuid: 1,
        username: "u".to_string(),
        room_id: 7,
        unixtime: 333,
    });
    type_line(&mut app, "/fetch 10");
    let sends = parse(&mut app, 900);
    assert_eq!(sends, vec![TalkProtocol::Fetch { room_id: 7, limit: 10, fetch_before: 333 }]);
}

#[test]
fn fetch_command_without_events_uses_now() {
    let mut app = fresh();
    type_line(&mut app, "/fetch 5");
    let sends = parse(&mut app, 900);
    assert_eq!(sends, vec![TalkProtocol::Fetch { room_id: 7, limit: 5, fetch_before: 900 }]);
}

#[test]
fn unknown_command_reports_locally() {
    let mut app = fresh();
    type_line(&mut app, "/dance");
    let sends = parse(&mut app, 900);
    assert!(sends.is_empty());
    assert_eq!(app.communication.len(), 1);
    assert_eq!(app.communication[0], TalkProtocol::LocalError {
        message: "The command 'dance' does not exist".to_string(),
    });
}

#[test]
fn first_message_timestamp_scans_in_order() {
    let mut app = fresh();
    assert_eq!(get_first_message_timestamp(&app, 77), 77);
    app.communication.push(TalkProtocol::Error {
        code: "c".to_string(),
        message: "m".to_string(),
    });
    app.communication.push(TalkProtocol::PostMessage {
        message: TalkMessage {
            uuid: 1,
            username: "u".to_string(),
            text: "t".to_string(),
            room_id: 7,
            unixtime: 55,
        },
    });
    assert_eq!(get_first_message_timestamp(&app, 77), 55);
}

#[test]
fn join_and_leave_helpers_carry_session_state() {
    let app = fresh();
    assert_eq!(join_room(&app, 10), TalkProtocol::JoinRoom {
        room_id: 7,
        uuid: 42,
        username: "alice".to_string(),
        unixtime: 10,
    });
    assert_eq!(join_initial_room(&app, 10), join_room(&app, 10));
    assert_eq!(leave_room(&app, 11), TalkProtocol::LeaveRoom {
        room_id: 7,
        uuid: 42,
        username: "alice".to_string(),
        unixtime: 11,
    });
    assert_eq!(quit_app(&app, 11), leave_room(&app, 11));
}

#[test]
fn editing_inserts_and_deletes_at_cursor() {
    let mut app = fresh();
    type_line(&mut app, "abc");
    assert_eq!(app.input, "abc");
    assert_eq!(app.character_index, 3);
    app.move_cursor_left();
    app.enter_char('X');
    assert_eq!(app.input, "abXc");
    assert_eq!(app.character_index, 3);
    app.delete_char();
    assert_eq!(app.input, "abc");
    assert_eq!(app.character_index, 2);
    app.reset_cursor();
    app.delete_char();
    assert_eq!(app.input, "abc");
    app.move_cursor_right();
    assert_eq!(app.character_index, 1);
}

#[test]
fn editing_handles_multibyte_characters() {
    let mut app = fresh();
    type_line(&mut app, "h\u{e9}\u{1f980}");
    assert_eq!(app.input, "h\u{e9}\u{1f980}");
    app.delete_char();
    assert_eq!(app.input, "h\u{e9}");
}
