//! The shared membership index: the two scripts' semantics end to end.

use chat_server::hub::{
    ChangeRoomReq, RetrieveRroomsReq, RetrieveRroomsReqType, RoomChangeType,
};
use chat_server::index::SharedIndex;
use chat_server::server::{ChatServer, Command, CommandEffect};

fn s(x: &str) -> String {
    x.to_string()
}

fn add(id: &str, room: &str, name: Option<&str>) -> ChangeRoomReq {
    ChangeRoomReq {
        id: s(id),
        name: name.map(s),
        room: s(room),
        kind: RoomChangeType::Add,
    }
}

fn del(id: &str, room: &str) -> ChangeRoomReq {
    ChangeRoomReq { id: s(id), name: None, room: s(room), kind: RoomChangeType::Del }
}

fn rename(id: &str, name: &str) -> ChangeRoomReq {
    ChangeRoomReq {
        id: s(id),
        name: Some(s(name)),
        room: String::new(),
        kind: RoomChangeType::NameChange,
    }
}

fn pairs(index: &SharedIndex) -> Vec<(String, String, String)> {
    let mut out = Vec::new();
    for room in &index.rooms {
        for e in &room.members {
            out.push((room.room.clone(), e.session_id.clone(), e.name.clone()));
        }
    }
    out
}

#[test]
fn add_creates_and_overwrites() {
    let mut index = SharedIndex::new();
    let reply = index.apply_change(&add("a", "main", Some("alice")));
    assert_eq!(reply.status, 0);
    index.apply_change(&add("b", "main", Some("bob")));
    assert_eq!(
        pairs(&index),
        [(s("main"), s("a"), s("alice")), (s("main"), s("b"), s("bob"))]
    );
    // an add without a name picks the name the session already carries
    index.apply_change(&add("a", "r1", None));
    assert_eq!(pairs(&index)[2], (s("r1"), s("a"), s("alice")));
    // a repeated add overwrites the entry's name
    index.apply_change(&add("a", "main", Some("amelia")));
    assert_eq!(pairs(&index)[0], (s("main"), s("a"), s("amelia")));
}

#[test]
fn del_removes_and_collects_empty_rooms() {
    let mut index = SharedIndex::new();
    index.apply_change(&add("a", "main", Some("alice")));
    index.apply_change(&add("b", "main", Some("bob")));
    index.apply_change(&add("a", "r1", None));

    let reply = index.apply_change(&del("a", "r1"));
    assert_eq!(reply.status, 0);
    // r1 emptied and is gone
    assert_eq!(index.rooms.len(), 1);
    assert_eq!(index.rooms[0].room, "main");

    // deleting a missing entry is a semantic failure, not a change
    let reply = index.apply_change(&del("a", "r1"));
    assert_eq!(reply.status, 1);
    assert_eq!(reply.msg, "entry not found");
    assert_eq!(index.rooms.len(), 1);
}

#[test]
fn rename_twice_keeps_the_last_name() {
    // two renames in a row leave the index with the second name everywhere
    let mut index = SharedIndex::new();
    index.apply_change(&add("a", "main", Some("alice")));
    index.apply_change(&add("a", "r1", None));
    index.apply_change(&add("b", "main", Some("bob")));
    index.apply_change(&rename("a", "n1"));
    index.apply_change(&rename("a", "n2"));
    assert_eq!(
        pairs(&index),
        [
            (s("main"), s("a"), s("n2")),
            (s("main"), s("b"), s("bob")),
            (s("r1"), s("a"), s("n2")),
        ]
    );
    // a rename without a name changes nothing and fails
    let before = pairs(&index);
    let reply = index.apply_change(&ChangeRoomReq {
        id: s("a"),
        name: None,
        room: String::new(),
        kind: RoomChangeType::NameChange,
    });
    assert_eq!(reply.status, 1);
    assert_eq!(pairs(&index), before);
}

#[test]
fn retrieve_by_room_and_by_session() {
    let mut index = SharedIndex::new();
    index.apply_change(&add("a", "main", Some("alice")));
    index.apply_change(&add("b", "main", Some("bob")));
    index.apply_change(&add("a", "r1", None));

    let by_room = index.retrieve(&RetrieveRroomsReq::new(RetrieveRroomsReqType::RoomID, s("main")));
    assert_eq!(by_room.0.len(), 1);
    assert_eq!(by_room.0[0].room, "main");
    assert_eq!(by_room.0[0].members.len(), 2);

    let by_session =
        index.retrieve(&RetrieveRroomsReq::new(RetrieveRroomsReqType::SessionID, s("a")));
    let rooms: Vec<&str> = by_session.0.iter().map(|r| r.room.as_str()).collect();
    assert_eq!(rooms, ["main", "r1"]);

    let missing =
        index.retrieve(&RetrieveRroomsReq::new(RetrieveRroomsReqType::RoomID, s("nowhere")));
    assert!(missing.0.is_empty());
}

#[test]
fn rename_shows_up_in_retrieval() {
    // the /name flow against the index: after the rename, the session's
    // main entry carries the new name
    let mut index = SharedIndex::new();
    index.apply_change(&add("a", "main", Some("a")));
    index.apply_change(&rename("a", "alice"));
    let by_session =
        index.retrieve(&RetrieveRroomsReq::new(RetrieveRroomsReqType::SessionID, s("a")));
    assert_eq!(by_session.0[0].room, "main");
    assert_eq!(by_session.0[0].members[0].session_id, "a");
    assert_eq!(by_session.0[0].members[0].name, "alice");
}

#[test]
fn heartbeat_cleanup_empties_the_index() {
    // a timed-out client is disconnected: every room it had been in gets
    // its deletion, and retrieval by the session comes back empty
    let mut server = ChatServer::new();
    let mut index = SharedIndex::new();
    index.apply_change(&server.connect(s("a"), s("alice")).change);
    server.join_room(s("a"), s("r1"));
    index.apply_change(&add("a", "r1", None));

    let eff = server.disconnect(&s("a"));
    assert_eq!(eff.rooms, [s("main"), s("r1")]);
    for change in &eff.changes {
        let reply = index.apply_change(change);
        assert_eq!(reply.status, 0);
    }
    let by_session =
        index.retrieve(&RetrieveRroomsReq::new(RetrieveRroomsReqType::SessionID, s("a")));
    assert!(by_session.0.is_empty());
}

#[test]
fn graceful_shutdown_drains_the_index() {
    // on close, every (room, session) pair of the local snapshot is
    // deleted from the shared index; retrieval no longer lists them
    let mut server = ChatServer::new();
    let mut index = SharedIndex::new();
    index.apply_change(&server.connect(s("a"), s("alice")).change);
    index.apply_change(&server.connect(s("b"), s("bob")).change);
    server.join_room(s("b"), s("r1"));
    index.apply_change(&add("b", "r1", None));

    let snapshot: Vec<(String, Vec<String>)> = server
        .rooms
        .iter()
        .map(|r| (r.name.clone(), r.members.clone()))
        .collect();
    let eff = server.handle_command(Command::Close);
    let changes = match eff {
        CommandEffect::Closed { changes } => changes,
        _ => panic!("close must return the shutdown deletions"),
    };
    for change in &changes {
        let reply = index.apply_change(change);
        assert_eq!(reply.status, 0, "pair {:?}/{:?}", change.room, change.id);
    }
    for (room, members) in snapshot {
        let by_room =
            index.retrieve(&RetrieveRroomsReq::new(RetrieveRroomsReqType::RoomID, room.clone()));
        for roster in &by_room.0 {
            for member in &members {
                assert!(roster.members.iter().all(|e| e.session_id != *member));
            }
        }
    }
    assert!(index.rooms.is_empty());
}
