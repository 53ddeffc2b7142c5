//! The wire frames: exact texts, JSON escaping, numeric rendering.

use chat_server::frames::{
    join_room_frame, list_frame, quit_room_frame, update_name_frame, update_session_frame,
    MessageContent,
};
use chat_server::hub::{RoomRoster, RosterEntry, UpdateRooms};

fn s(x: &str) -> String {
    x.to_string()
}

#[test]
fn update_session_frame_exact() {
    let frame = update_session_frame(&s("main"), &s("alice"));
    assert_eq!(frame, "update_session:{\"room\":\"main\",\"name\":\"alice\"}");
}

#[test]
fn join_and_quit_frames_exact() {
    let join = join_room_frame(&s("a"), &s("alice"), &s("r1"));
    assert_eq!(join, "join_room:{\"session_id\":\"a\",\"name\":\"alice\",\"room\":\"r1\"}");
    let quit = quit_room_frame(&s("a"), &s("alice"), &s("r1"));
    assert_eq!(quit, "quit_room:{\"session_id\":\"a\",\"name\":\"alice\",\"room\":\"r1\"}");
}

#[test]
fn update_name_frame_exact() {
    let frame = update_name_frame(&s("a"), &s("alice"), &s("al"));
    assert_eq!(
        frame,
        "update_name:{\"session_id\":\"a\",\"name\":\"alice\",\"old_name\":\"al\"}"
    );
}

#[test]
fn escaping_matches_the_json_encoder() {
    // quote, backslash, newline, tab and a raw control character
    let tricky = s("he said \"hi\\\"\n\tnul:\u{1}");
    let frame = update_session_frame(&s("main"), &tricky);
    let expected_name = serde_json::to_string(tricky.as_str()).unwrap();
    assert_eq!(frame, format!("update_session:{{\"room\":\"main\",\"name\":{}}}", expected_name));
}

#[test]
fn list_frame_renders_rosters() {
    let rooms = UpdateRooms(vec![
        RoomRoster {
            room: s("main"),
            members: vec![
                RosterEntry { session_id: s("a"), name: s("alice") },
                RosterEntry { session_id: s("b"), name: s("bob") },
            ],
        },
        RoomRoster {
            room: s("r1"),
            members: vec![RosterEntry { session_id: s("a"), name: s("alice") }],
        },
    ]);
    let frame = list_frame(&rooms);
    assert_eq!(
        frame,
        "list:{\"main\":{\"a\":\"alice\",\"b\":\"bob\"},\"r1\":{\"a\":\"alice\"}}"
    );
}

#[test]
fn empty_list_frame() {
    let frame = list_frame(&UpdateRooms(Vec::new()));
    assert_eq!(frame, "list:{}");
}

#[test]
fn message_render_exact() {
    let msg = MessageContent {
        id: 340282366920938463463374607431768211455u128,
        room: s("main"),
        from_id: s("a"),
        from_name: s("alice"),
        content: s("hello"),
        time: s("2024-01-02 03:04:05"),
    };
    assert_eq!(
        msg.render(),
        "message:{\"id\":340282366920938463463374607431768211455,\"room\":\"main\",\
         \"from_id\":\"a\",\"from_name\":\"alice\",\"content\":\"hello\",\
         \"time\":\"2024-01-02 03:04:05\"}"
    );
}

#[test]
fn message_render_zero_id() {
    let msg = MessageContent {
        id: 0,
        room: s("r"),
        from_id: s("x"),
        from_name: s("x"),
        content: s(""),
        time: s(""),
    };
    assert_eq!(
        msg.render(),
        "message:{\"id\":0,\"room\":\"r\",\"from_id\":\"x\",\"from_name\":\"x\",\
         \"content\":\"\",\"time\":\"\"}"
    );
}

#[test]
fn message_format_draws_id_and_time() {
    let frame = MessageContent::format(&s("main"), &s("a"), &s("alice"), &s("hello"));
    assert!(frame.starts_with("message:{\"id\":"));
    assert!(frame.contains("\"room\":\"main\""));
    assert!(frame.contains("\"from_id\":\"a\""));
    assert!(frame.contains("\"from_name\":\"alice\""));
    assert!(frame.contains("\"content\":\"hello\""));
    assert!(frame.ends_with("\"}"));
}
