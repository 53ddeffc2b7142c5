//! The session protocol: command grammar, notifications, heartbeat.

use chat_server::server::{ChatServer, Command};
use chat_server::session::{
    disconnect_notifications, trim_text, SessionAction, SessionEvent, SessionState,
    CLIENT_TIMEOUT_MS,
};

fn s(x: &str) -> String {
    x.to_string()
}

fn new_session() -> SessionState {
    SessionState::new(s("a"), s("alice"), 1_000)
}

#[test]
fn trim_strips_unicode_whitespace() {
    assert_eq!(trim_text(&s("  hello \n")), "hello");
    assert_eq!(trim_text(&s("\u{3000}hi\u{a0}")), "hi");
    assert_eq!(trim_text(&s("   ")), "");
    assert_eq!(trim_text(&s("")), "");
    assert_eq!(trim_text(&s("a b")), "a b");
}

#[test]
fn chat_text_becomes_a_room_message() {
    let mut session = new_session();
    let acts = session.process_text_msg(&s("  hello  "));
    assert_eq!(acts.len(), 1);
    match &acts[0] {
        SessionAction::Dispatch { cmd: Command::Message { room, id, msg } } => {
            assert_eq!(room, "main");
            assert_eq!(id, "a");
            assert!(msg.starts_with("message:{\"id\":"));
            assert!(msg.contains("\"content\":\"hello\""));
            assert!(msg.contains("\"from_id\":\"a\""));
            assert!(msg.contains("\"from_name\":\"alice\""));
        }
        _ => panic!("chat text must dispatch a message command"),
    }
    assert_eq!(session.room, "main");
}

#[test]
fn join_command_switches_room_and_notifies() {
    let mut session = new_session();
    let acts = session.process_text_msg(&s("/join r1"));
    assert_eq!(session.room, "r1");
    assert_eq!(acts.len(), 4);
    match &acts[0] {
        SessionAction::Dispatch { cmd: Command::Join { conn, room } } => {
            assert_eq!(conn, "a");
            assert_eq!(room, "r1");
        }
        _ => panic!("first a join dispatch"),
    }
    match &acts[1] {
        SessionAction::SendSelf { frame } => {
            assert_eq!(frame, "update_session:{\"room\":\"r1\",\"name\":\"alice\"}");
        }
        _ => panic!("then the session update"),
    }
    let join_frame = "join_room:{\"session_id\":\"a\",\"name\":\"alice\",\"room\":\"r1\"}";
    match &acts[2] {
        SessionAction::Dispatch { cmd: Command::Message { room, id, msg } } => {
            assert_eq!(room, "r1");
            assert_eq!(id, "a");
            assert_eq!(msg, join_frame);
        }
        _ => panic!("then the broadcast"),
    }
    match &acts[3] {
        SessionAction::SendSelf { frame } => assert_eq!(frame, join_frame),
        _ => panic!("then the echo"),
    }
}

#[test]
fn quit_default_room_is_refused() {
    let mut session = new_session();
    let acts = session.process_text_msg(&s("/quit main"));
    assert_eq!(acts.len(), 1);
    match &acts[0] {
        SessionAction::SendSelf { frame } => {
            assert_eq!(frame, "!!! you can not quit default room: main");
        }
        _ => panic!("quitting main must only send the error"),
    }
    assert_eq!(session.room, "main");
}

#[test]
fn quit_other_room_returns_to_main() {
    let mut session = new_session();
    session.process_text_msg(&s("/join r1"));
    let acts = session.process_text_msg(&s("/quit r1"));
    assert_eq!(session.room, "main");
    assert_eq!(acts.len(), 4);
    let quit_frame = "quit_room:{\"session_id\":\"a\",\"name\":\"alice\",\"room\":\"r1\"}";
    match &acts[0] {
        SessionAction::Dispatch { cmd: Command::Message { room, msg, .. } } => {
            assert_eq!(room, "r1");
            assert_eq!(msg, quit_frame);
        }
        _ => panic!("first the broadcast"),
    }
    match &acts[2] {
        SessionAction::Dispatch { cmd: Command::Quit { conn, room } } => {
            assert_eq!(conn, "a");
            assert_eq!(room, "r1");
        }
        _ => panic!("then the quit dispatch"),
    }
    match &acts[3] {
        SessionAction::SendSelf { frame } => {
            assert_eq!(frame, "update_session:{\"room\":\"main\",\"name\":\"alice\"}");
        }
        _ => panic!("then the session update"),
    }
}

#[test]
fn name_command_propagates() {
    let mut session = new_session();
    let acts = session.process_text_msg(&s("/name alice"));
    assert_eq!(session.name, "alice");
    assert_eq!(acts.len(), 3);
    match &acts[1] {
        SessionAction::SendSelf { frame } => {
            assert_eq!(frame, "update_session:{\"room\":\"main\",\"name\":\"alice\"}");
        }
        _ => panic!("the session update goes to the session itself"),
    }
    match &acts[2] {
        SessionAction::Dispatch { cmd: Command::Message { room, id, msg } } => {
            assert_eq!(room, "main");
            assert_eq!(id, "a");
            assert_eq!(
                msg,
                "update_name:{\"session_id\":\"a\",\"name\":\"alice\",\"old_name\":\"alice\"}"
            );
        }
        _ => panic!("the rename is broadcast to the default room"),
    }
}

#[test]
fn missing_arguments_and_unknown_commands() {
    let mut session = new_session();
    let cases = [
        ("/join", "!!! room name is required"),
        ("/quit", "!!! room name is required"),
        ("/name", "!!! name is required"),
        ("/frobnicate now", "!!! unknown command: /frobnicate now"),
    ];
    for (input, expected) in cases {
        let acts = session.process_text_msg(&s(input));
        assert_eq!(acts.len(), 1, "input {input:?}");
        match &acts[0] {
            SessionAction::SendSelf { frame } => assert_eq!(frame, expected, "input {input:?}"),
            _ => panic!("input {input:?} must only send an error"),
        }
    }
}

#[test]
fn argument_is_split_at_the_first_space_only() {
    // the text is trimmed, then split once: everything after the first
    // space is the argument, spaces included
    let mut session = new_session();
    session.process_text_msg(&s("/join  r1"));
    assert_eq!(session.room, " r1");
    let mut session = new_session();
    session.process_text_msg(&s("/name anna banana"));
    assert_eq!(session.name, "anna banana");
    // a trailing space is trimmed away before splitting
    let mut session = new_session();
    let acts = session.process_text_msg(&s("/join "));
    assert_eq!(acts.len(), 1);
    assert!(matches!(&acts[0], SessionAction::SendSelf { frame } if frame == "!!! room name is required"));
}

#[test]
fn empty_text_is_a_chat_message() {
    let mut session = new_session();
    let acts = session.process_text_msg(&s("   "));
    assert_eq!(acts.len(), 1);
    match &acts[0] {
        SessionAction::Dispatch { cmd: Command::Message { room, msg, .. } } => {
            assert_eq!(room, "main");
            assert!(msg.contains("\"content\":\"\""));
        }
        _ => panic!("whitespace-only text is still a chat message"),
    }
}

#[test]
fn list_command_fetches_the_roster() {
    let mut session = new_session();
    let acts = session.process_text_msg(&s("/list"));
    assert_eq!(acts.len(), 1);
    assert!(matches!(acts[0], SessionAction::FetchList));
}

#[test]
fn heartbeat_timeout_disconnects() {
    let mut session = new_session();
    // silence within the timeout: a ping goes out
    let (acts, disconnect) = session.handle_event(SessionEvent::Tick, 1_000 + CLIENT_TIMEOUT_MS);
    assert!(!disconnect);
    assert_eq!(acts.len(), 1);
    assert!(matches!(acts[0], SessionAction::SendPing));
    // one millisecond beyond the timeout: the session is given up
    let (acts, disconnect) =
        session.handle_event(SessionEvent::Tick, 1_000 + CLIENT_TIMEOUT_MS + 1);
    assert!(disconnect);
    assert!(acts.is_empty());
    // a pong refreshes the clock
    let mut session = new_session();
    session.handle_event(SessionEvent::Pong, 20_000);
    let (_, disconnect) = session.handle_event(SessionEvent::Tick, 25_000);
    assert!(!disconnect);
}

#[test]
fn ping_and_mailbox_events() {
    let mut session = new_session();
    let (acts, disconnect) = session.handle_event(SessionEvent::Ping, 5_000);
    assert!(!disconnect);
    assert_eq!(session.last_heartbeat, 5_000);
    assert!(matches!(acts[0], SessionAction::SendPong));

    let (acts, _) = session.handle_event(SessionEvent::Mailbox { msg: s("anything") }, 5_000);
    match &acts[0] {
        SessionAction::SendSelf { frame } => assert_eq!(frame, "anything"),
        _ => panic!("mailbox items are written out"),
    }

    let (acts, disconnect) = session.handle_event(SessionEvent::Binary, 5_000);
    assert!(acts.is_empty() && !disconnect);
}

#[test]
fn self_suppression_on_broadcast() {
    // two sessions in main; a sends a chat message; b is the only
    // recipient of the broadcast, a receives nothing for its own send
    let mut server = ChatServer::new();
    server.connect(s("a"), s("alice"));
    server.connect(s("b"), s("bob"));
    let mut session = new_session();
    let acts = session.process_text_msg(&s("hello"));
    let (room, sender, payload) = match &acts[0] {
        SessionAction::Dispatch { cmd: Command::Message { room, id, msg } } => {
            (room.clone(), id.clone(), msg.clone())
        }
        _ => panic!("chat text must dispatch a message command"),
    };
    // the envelope comes back from the broker and is fanned out locally
    let recipients = server.recipients(&room, &sender);
    assert_eq!(recipients, [s("b")]);
    assert!(payload.contains("\"content\":\"hello\""));
}

#[test]
fn cross_room_isolation() {
    // a and b are in r1, c only in main; a message in r1 reaches b alone
    let mut server = ChatServer::new();
    server.connect(s("a"), s("alice"));
    server.connect(s("b"), s("bob"));
    server.connect(s("c"), s("carol"));
    server.join_room(s("a"), s("r1"));
    server.join_room(s("b"), s("r1"));
    let recipients = server.recipients(&s("r1"), &s("a"));
    assert_eq!(recipients, [s("b")]);
}

#[test]
fn disconnect_notifications_per_room() {
    let rooms = vec![s("main"), s("r1")];
    let acts = disconnect_notifications(&s("a"), &s("alice"), &rooms);
    assert_eq!(acts.len(), 4);
    let main_frame = "quit_room:{\"session_id\":\"a\",\"name\":\"alice\",\"room\":\"main\"}";
    match &acts[0] {
        SessionAction::Dispatch { cmd: Command::Message { room, id, msg } } => {
            assert_eq!(room, "main");
            assert_eq!(id, "a");
            assert_eq!(msg, main_frame);
        }
        _ => panic!("broadcast first"),
    }
    match &acts[1] {
        SessionAction::SendSelf { frame } => assert_eq!(frame, main_frame),
        _ => panic!("echo second"),
    }
    match &acts[2] {
        SessionAction::Dispatch { cmd: Command::Message { room, .. } } => assert_eq!(room, "r1"),
        _ => panic!("then the next room"),
    }
}

#[test]
fn initial_notifications_after_connect() {
    let session = new_session();
    let acts = session.connect_notifications();
    assert_eq!(acts.len(), 4);
    match &acts[0] {
        SessionAction::SendSelf { frame } => {
            assert_eq!(frame, "update_session:{\"room\":\"main\",\"name\":\"alice\"}");
        }
        _ => panic!("the session update comes first"),
    }
    assert!(matches!(acts[1], SessionAction::FetchList));
    let join_frame = "join_room:{\"session_id\":\"a\",\"name\":\"alice\",\"room\":\"main\"}";
    match &acts[2] {
        SessionAction::Dispatch { cmd: Command::Message { room, msg, .. } } => {
            assert_eq!(room, "main");
            assert_eq!(msg, join_frame);
        }
        _ => panic!("the join is broadcast"),
    }
    match &acts[3] {
        SessionAction::SendSelf { frame } => assert_eq!(frame, join_frame),
        _ => panic!("and echoed"),
    }
}
