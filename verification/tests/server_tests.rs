//! The chat-server actor: registration, rooms, subscriptions, fan-out.

use chat_server::hub::RoomChangeType;
use chat_server::server::{ChatServer, Command, CommandEffect};

fn s(x: &str) -> String {
    x.to_string()
}

fn names(v: &[String]) -> Vec<&str> {
    v.iter().map(|x| x.as_str()).collect()
}

#[test]
fn connect_registers_and_joins_main() {
    let mut server = ChatServer::new();
    let eff = server.connect(s("a"), s("alice"));
    assert_eq!(eff.subscribe.as_deref(), Some("main"));
    assert_eq!(eff.change.id, "a");
    assert_eq!(eff.change.name.as_deref(), Some("alice"));
    assert_eq!(eff.change.room, "main");
    assert!(matches!(eff.change.kind, RoomChangeType::Add));
    assert_eq!(names(&server.sessions), ["a"]);
    assert_eq!(server.rooms.len(), 1);
    assert_eq!(server.rooms[0].name, "main");
    assert_eq!(names(&server.rooms[0].members), ["a"]);
    assert_eq!(names(&server.hub.channels), ["main"]);

    // a second connection shares the subscription
    let eff2 = server.connect(s("b"), s("bob"));
    assert_eq!(eff2.subscribe, None);
    assert_eq!(names(&server.rooms[0].members), ["a", "b"]);
    assert_eq!(names(&server.hub.channels), ["main"]);
}

#[test]
fn join_is_refcounted_and_noop_for_unknown() {
    let mut server = ChatServer::new();
    server.connect(s("a"), s("alice"));
    server.connect(s("b"), s("bob"));

    let eff = server.join_room(s("a"), s("r1"));
    assert_eq!(eff.subscribe.as_deref(), Some("r1"));
    let change = eff.change.expect("registered session must yield a change");
    assert_eq!(change.room, "r1");
    assert_eq!(change.name, None);
    assert!(matches!(change.kind, RoomChangeType::Add));

    // second local member of r1: no new broker subscription
    let eff = server.join_room(s("b"), s("r1"));
    assert_eq!(eff.subscribe, None);
    assert!(eff.change.is_some());
    assert_eq!(names(&server.hub.channels), ["main", "r1"]);

    // unknown session: complete no-op
    let eff = server.join_room(s("ghost"), s("r2"));
    assert_eq!(eff.subscribe, None);
    assert!(eff.change.is_none());
    assert_eq!(names(&server.hub.channels), ["main", "r1"]);
}

#[test]
fn quit_releases_subscription_of_emptied_room() {
    let mut server = ChatServer::new();
    server.connect(s("a"), s("alice"));
    server.connect(s("b"), s("bob"));
    server.join_room(s("a"), s("r1"));
    server.join_room(s("b"), s("r1"));

    // one member leaves: room stays, subscription stays
    let eff = server.quit_room(s("a"), s("r1"));
    assert_eq!(eff.unsubscribe, None);
    let change = eff.change.expect("registered session must yield a change");
    assert!(matches!(change.kind, RoomChangeType::Del));
    assert_eq!(change.room, "r1");
    assert_eq!(names(&server.hub.channels), ["main", "r1"]);

    // the last member leaves: room and subscription go
    let eff = server.quit_room(s("b"), s("r1"));
    assert_eq!(eff.unsubscribe.as_deref(), Some("r1"));
    assert_eq!(names(&server.hub.channels), ["main"]);
    assert_eq!(server.rooms.len(), 1);
    assert_eq!(server.rooms[0].name, "main");
}

#[test]
fn disconnect_cleans_every_room() {
    let mut server = ChatServer::new();
    server.connect(s("a"), s("alice"));
    server.connect(s("b"), s("bob"));
    server.join_room(s("a"), s("r1"));

    let eff = server.disconnect(&s("a"));
    assert_eq!(names(&eff.rooms), ["main", "r1"]);
    assert_eq!(eff.changes.len(), 2);
    assert!(eff.changes.iter().all(|c| matches!(c.kind, RoomChangeType::Del) && c.id == "a"));
    assert_eq!(eff.changes[0].room, "main");
    assert_eq!(eff.changes[1].room, "r1");
    // r1 lost its last local member, main still has b
    assert_eq!(names(&eff.unsubscribes), ["r1"]);
    assert_eq!(names(&server.sessions), ["b"]);
    assert_eq!(names(&server.hub.channels), ["main"]);

    // a second disconnect of the same session is a no-op
    let eff = server.disconnect(&s("a"));
    assert!(eff.rooms.is_empty() && eff.changes.is_empty() && eff.unsubscribes.is_empty());
}

#[test]
fn balanced_sequence_leaves_nothing() {
    // every connect paired with a disconnect, every join with a quit:
    // sessions, rooms and subscriptions all drain
    let mut server = ChatServer::new();
    server.connect(s("a"), s("alice"));
    server.connect(s("b"), s("bob"));
    server.join_room(s("a"), s("r1"));
    server.quit_room(s("a"), s("r1"));
    server.disconnect(&s("a"));
    server.disconnect(&s("b"));
    assert!(server.sessions.is_empty());
    assert!(server.rooms.is_empty());
    assert!(server.hub.channels.is_empty());
}

#[test]
fn recipients_skip_the_sender() {
    let mut server = ChatServer::new();
    server.connect(s("a"), s("alice"));
    server.connect(s("b"), s("bob"));
    server.connect(s("c"), s("carol"));

    let r = server.recipients(&s("main"), &s("a"));
    assert_eq!(names(&r), ["b", "c"]);
    // an unknown room delivers to nobody
    let r = server.recipients(&s("nowhere"), &s("a"));
    assert!(r.is_empty());
}

#[test]
fn no_delivery_after_disconnect() {
    // a disconnect followed by a message naming the session as recipient
    // causes zero deliveries to it
    let mut server = ChatServer::new();
    server.connect(s("a"), s("alice"));
    server.connect(s("b"), s("bob"));
    server.disconnect(&s("b"));
    let r = server.recipients(&s("main"), &s("a"));
    assert!(r.is_empty());
    let r = server.recipients(&s("main"), &s("x"));
    assert_eq!(names(&r), ["a"]);
    assert!(!r.iter().any(|m| m == "b"));
}

#[test]
fn subscriptions_match_occupied_rooms() {
    // a process is subscribed to exactly the rooms with a local member
    let mut server = ChatServer::new();
    server.connect(s("a"), s("alice"));
    server.join_room(s("a"), s("r1"));
    server.join_room(s("a"), s("r2"));
    let rooms: Vec<&str> = server.rooms.iter().map(|r| r.name.as_str()).collect();
    assert_eq!(names(&server.hub.channels), rooms);
    server.quit_room(s("a"), s("r1"));
    let rooms: Vec<&str> = server.rooms.iter().map(|r| r.name.as_str()).collect();
    assert_eq!(names(&server.hub.channels), rooms);
    assert_eq!(rooms, ["main", "r2"]);
}

#[test]
fn handle_command_message_publishes_envelope() {
    let mut server = ChatServer::new();
    server.connect(s("a"), s("alice"));
    let eff = server.handle_command(Command::Message {
        room: s("main"),
        id: s("a"),
        msg: s("payload"),
    });
    match eff {
        CommandEffect::Publish { message } => {
            assert_eq!(message.room, "main");
            assert_eq!(message.id, "a");
            assert_eq!(message.content, "payload");
        }
        _ => panic!("a message command must publish"),
    }
}

#[test]
fn handle_command_close_snapshots_rooms() {
    let mut server = ChatServer::new();
    server.connect(s("a"), s("alice"));
    server.connect(s("b"), s("bob"));
    server.join_room(s("b"), s("r1"));
    let eff = server.handle_command(Command::Close);
    match eff {
        CommandEffect::Closed { changes } => {
            let pairs: Vec<(&str, &str)> =
                changes.iter().map(|c| (c.room.as_str(), c.id.as_str())).collect();
            assert_eq!(pairs, [("main", "a"), ("main", "b"), ("r1", "b")]);
            assert!(changes.iter().all(|c| matches!(c.kind, RoomChangeType::Del)));
        }
        _ => panic!("close must return the shutdown deletions"),
    }
}

#[test]
fn handle_command_covers_the_whole_alphabet() {
    let mut server = ChatServer::new();
    match server.handle_command(Command::Connect { id: s("a"), name: s("alice") }) {
        CommandEffect::Connected { reply, effect } => {
            assert_eq!(reply, "a");
            assert_eq!(effect.subscribe.as_deref(), Some("main"));
        }
        _ => panic!("connect effect"),
    }
    match server.handle_command(Command::Join { conn: s("a"), room: s("r1") }) {
        CommandEffect::Joined { effect } => assert_eq!(effect.subscribe.as_deref(), Some("r1")),
        _ => panic!("join effect"),
    }
    match server.handle_command(Command::GetRoomsBySessionID { session_id: s("a") }) {
        CommandEffect::Retrieve { req } => assert_eq!(req.id, "a"),
        _ => panic!("retrieve effect"),
    }
    match server.handle_command(Command::GetRoomsByRoomID { room_id: s("r1") }) {
        CommandEffect::Retrieve { req } => assert_eq!(req.id, "r1"),
        _ => panic!("retrieve effect"),
    }
    match server.handle_command(Command::Name { conn: s("a"), name: s("amelia") }) {
        CommandEffect::Renamed { change } => assert!(change.is_some()),
        _ => panic!("rename effect"),
    }
    match server.handle_command(Command::Quit { conn: s("a"), room: s("r1") }) {
        CommandEffect::Quitted { effect } => {
            assert_eq!(effect.unsubscribe.as_deref(), Some("r1"));
        }
        _ => panic!("quit effect"),
    }
    match server.handle_command(Command::Disconnect { session_id: s("a") }) {
        CommandEffect::Disconnected { effect } => assert_eq!(effect.rooms, [s("main")]),
        _ => panic!("disconnect effect"),
    }
}

#[test]
fn name_change_targets_the_shared_index_only() {
    let mut server = ChatServer::new();
    server.connect(s("a"), s("alice"));
    let change = server.change_name(s("a"), s("amelia")).expect("known session");
    assert!(matches!(change.kind, RoomChangeType::NameChange));
    assert_eq!(change.id, "a");
    assert_eq!(change.name.as_deref(), Some("amelia"));
    assert_eq!(change.room, "");
    assert!(server.change_name(s("ghost"), s("x")).is_none());
}
