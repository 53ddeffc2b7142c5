//! The outbound wire frames: prefix-tagged JSON texts written to a
//! session's WebSocket.
//!
//! Every session-observable state change is announced as a human-readable
//! prefix followed by a JSON payload: `update_session:`, `list:`,
//! `join_room:`, `quit_room:`, `update_name:` and `message:`.  The payloads
//! are flat objects of strings — plus, for `message:`, a numeric identifier
//! and a timestamp — so the whole encoding is defined here character by
//! character, including JSON string escaping.

use vstd::prelude::*;

use crate::hub::{RoomRosterView, RosterEntryView, UpdateRooms};

verus! {

/// The hexadecimal digit character of `n`, for `n < 16`.
pub open spec fn hex_digit(n: u32) -> char {
    if n == 0 {
        '0'
    } else if n == 1 {
        '1'
    } else if n == 2 {
        '2'
    } else if n == 3 {
        '3'
    } else if n == 4 {
        '4'
    } else if n == 5 {
        '5'
    } else if n == 6 {
        '6'
    } else if n == 7 {
        '7'
    } else if n == 8 {
        '8'
    } else if n == 9 {
        '9'
    } else if n == 10 {
        'a'
    } else if n == 11 {
        'b'
    } else if n == 12 {
        'c'
    } else if n == 13 {
        'd'
    } else if n == 14 {
        'e'
    } else {
        'f'
    }
}

/// The JSON escape of one character: quote and backslash are escaped, the
/// named control characters use their short forms, every other control
/// character a `\u00..` form, and everything else stands for itself.
pub open spec fn escape_char(c: char) -> Seq<char> {
    if c == '"' {
        seq!['\\', '"']
    } else if c == '\\' {
        seq!['\\', '\\']
    } else if c == '\u{8}' {
        seq!['\\', 'b']
    } else if c == '\t' {
        seq!['\\', 't']
    } else if c == '\n' {
        seq!['\\', 'n']
    } else if c == '\u{c}' {
        seq!['\\', 'f']
    } else if c == '\r' {
        seq!['\\', 'r']
    } else if (c as u32) < 32 {
        seq!['\\', 'u', '0', '0', hex_digit((c as u32) / 16), hex_digit((c as u32) % 16)]
    } else {
        seq![c]
    }
}

/// The JSON escape of a string's characters.
pub open spec fn escape_str(s: Seq<char>) -> Seq<char>
    decreases s.len(),
{
    if s.len() == 0 {
        Seq::empty()
    } else {
        escape_str(s.drop_last()) + escape_char(s.last())
    }
}

/// A JSON string literal: the escaped characters between double quotes.
pub open spec fn spec_json_string(s: Seq<char>) -> Seq<char> {
    seq!['"'] + escape_str(s) + seq!['"']
}

/// The decimal digit character of `n`, for `n < 10`.
pub open spec fn dec_digit(n: u128) -> char {
    if n == 0 {
        '0'
    } else if n == 1 {
        '1'
    } else if n == 2 {
        '2'
    } else if n == 3 {
        '3'
    } else if n == 4 {
        '4'
    } else if n == 5 {
        '5'
    } else if n == 6 {
        '6'
    } else if n == 7 {
        '7'
    } else if n == 8 {
        '8'
    } else {
        '9'
    }
}

/// The decimal rendering of `n`, most significant digit first.
pub open spec fn dec_u128(n: u128) -> Seq<char>
    decreases n,
{
    if n < 10 {
        seq![dec_digit(n)]
    } else {
        dec_u128(n / 10) + seq![dec_digit(n % 10)]
    }
}

/// Relies on `String::push`: appends exactly the given character.
#[verifier::external_body]
fn push_char(out: &mut String, c: char)
    ensures
        final(out)@ == old(out)@ + seq![c],
{
    out.push(c);
}

/// Appends the hexadecimal digit character of `n`.
fn push_hex_digit(out: &mut String, n: u32)
    requires
        n < 16,
    ensures
        final(out)@ == old(out)@ + seq![hex_digit(n)],
{
    if n == 0 {
        push_char(out, '0')
    } else if n == 1 {
        push_char(out, '1')
    } else if n == 2 {
        push_char(out, '2')
    } else if n == 3 {
        push_char(out, '3')
    } else if n == 4 {
        push_char(out, '4')
    } else if n == 5 {
        push_char(out, '5')
    } else if n == 6 {
        push_char(out, '6')
    } else if n == 7 {
        push_char(out, '7')
    } else if n == 8 {
        push_char(out, '8')
    } else if n == 9 {
        push_char(out, '9')
    } else if n == 10 {
        push_char(out, 'a')
    } else if n == 11 {
        push_char(out, 'b')
    } else if n == 12 {
        push_char(out, 'c')
    } else if n == 13 {
        push_char(out, 'd')
    } else if n == 14 {
        push_char(out, 'e')
    } else {
        push_char(out, 'f')
    }
}

/// Appends the JSON escape of one character.
fn push_escaped_char(out: &mut String, c: char)
    ensures
        final(out)@ == old(out)@ + escape_char(c),
{
    if c == '"' {
        push_char(out, '\\');
        push_char(out, '"');
    } else if c == '\\' {
        push_char(out, '\\');
        push_char(out, '\\');
    } else if c == '\u{8}' {
        push_char(out, '\\');
        push_char(out, 'b');
    } else if c == '\t' {
        push_char(out, '\\');
        push_char(out, 't');
    } else if c == '\n' {
        push_char(out, '\\');
        push_char(out, 'n');
    } else if c == '\u{c}' {
        push_char(out, '\\');
        push_char(out, 'f');
    } else if c == '\r' {
        push_char(out, '\\');
        push_char(out, 'r');
    } else if (c as u32) < 32 {
        let n = c as u32;
        push_char(out, '\\');
        push_char(out, 'u');
        push_char(out, '0');
        push_char(out, '0');
        push_hex_digit(out, n / 16);
        push_hex_digit(out, n % 16);
        proof {
            assert(final(out)@ =~= old(out)@ + escape_char(c));
        }
    } else {
        push_char(out, c);
    }
    proof {
        assert(final(out)@ =~= old(out)@ + escape_char(c));
    }
}

/// Appends the JSON escape of every character of `s`.
fn push_escaped(out: &mut String, s: &String)
    ensures
        final(out)@ == old(out)@ + escape_str(s@),
{
    let len = s.as_str().unicode_len();
    let mut i: usize = 0;
    proof {
        assert(s@.take(0) =~= Seq::<char>::empty());
        assert(out@ =~= old(out)@ + escape_str(s@.take(0)));
    }
    while i < len
        invariant
            i <= len,
            len == s@.len(),
            out@ == old(out)@ + escape_str(s@.take(i as int)),
        decreases len - i,
    {
        let c = s.as_str().get_char(i);
        push_escaped_char(out, c);
        proof {
            assert(s@.take(i + 1).drop_last() =~= s@.take(i as int));
            assert(s@.take(i + 1).last() == s@[i as int]);
            assert(out@ =~= old(out)@ + escape_str(s@.take(i + 1)));
        }
        i += 1;
    }
    proof {
        assert(s@.take(s@.len() as int) =~= s@);
    }
}

/// Appends `s` as a JSON string literal.
fn push_json_string(out: &mut String, s: &String)
    ensures
        final(out)@ == old(out)@ + spec_json_string(s@),
{
    push_char(out, '"');
    push_escaped(out, s);
    push_char(out, '"');
    proof {
        assert(final(out)@ =~= old(out)@ + spec_json_string(s@));
    }
}

/// Appends the decimal rendering of `n`.
fn push_u128(out: &mut String, n: u128)
    ensures
        final(out)@ == old(out)@ + dec_u128(n),
    decreases n,
{
    if n < 10 {
        if n == 0 {
            push_char(out, '0')
        } else if n == 1 {
            push_char(out, '1')
        } else if n == 2 {
            push_char(out, '2')
        } else if n == 3 {
            push_char(out, '3')
        } else if n == 4 {
            push_char(out, '4')
        } else if n == 5 {
            push_char(out, '5')
        } else if n == 6 {
            push_char(out, '6')
        } else if n == 7 {
            push_char(out, '7')
        } else if n == 8 {
            push_char(out, '8')
        } else {
            push_char(out, '9')
        }
    } else {
        push_u128(out, n / 10);
        let d = n % 10;
        if d == 0 {
            push_char(out, '0')
        } else if d == 1 {
            push_char(out, '1')
        } else if d == 2 {
            push_char(out, '2')
        } else if d == 3 {
            push_char(out, '3')
        } else if d == 4 {
            push_char(out, '4')
        } else if d == 5 {
            push_char(out, '5')
        } else if d == 6 {
            push_char(out, '6')
        } else if d == 7 {
            push_char(out, '7')
        } else if d == 8 {
            push_char(out, '8')
        } else {
            push_char(out, '9')
        }
        proof {
            assert(final(out)@ =~= old(out)@ + dec_u128(n));
        }
    }
}

/// Payload of an `update_session:` frame.
pub open spec fn spec_update_session_frame(room: Seq<char>, name: Seq<char>) -> Seq<char> {
    "update_session:{\"room\":"@ + spec_json_string(room) + ",\"name\":"@ + spec_json_string(name)
        + "}"@
}

/// Builds the `update_session:` frame announcing a session's room and
/// display name to that session.
pub fn update_session_frame(room: &String, name: &String) -> (res: String)
    ensures
        res@ == spec_update_session_frame(room@, name@),
{
    let mut out = String::from_str("update_session:{\"room\":");
    push_json_string(&mut out, room);
    out.append(",\"name\":");
    push_json_string(&mut out, name);
    out.append("}");
    proof {
        assert(out@ =~= spec_update_session_frame(room@, name@));
    }
    out
}

/// Payload of a `join_room:` or `quit_room:` frame.
pub open spec fn spec_room_change_body(
    session_id: Seq<char>,
    name: Seq<char>,
    room: Seq<char>,
) -> Seq<char> {
    "{\"session_id\":"@ + spec_json_string(session_id) + ",\"name\":"@ + spec_json_string(name)
        + ",\"room\":"@ + spec_json_string(room) + "}"@
}

/// The `join_room:` frame.
pub open spec fn spec_join_room_frame(
    session_id: Seq<char>,
    name: Seq<char>,
    room: Seq<char>,
) -> Seq<char> {
    "join_room:"@ + spec_room_change_body(session_id, name, room)
}

/// The `quit_room:` frame.
pub open spec fn spec_quit_room_frame(
    session_id: Seq<char>,
    name: Seq<char>,
    room: Seq<char>,
) -> Seq<char> {
    "quit_room:"@ + spec_room_change_body(session_id, name, room)
}

/// Appends the body shared by `join_room:` and `quit_room:` frames.
fn push_room_change_body(out: &mut String, session_id: &String, name: &String, room: &String)
    ensures
        final(out)@ == old(out)@ + spec_room_change_body(session_id@, name@, room@),
{
    out.append("{\"session_id\":");
    push_json_string(out, session_id);
    out.append(",\"name\":");
    push_json_string(out, name);
    out.append(",\"room\":");
    push_json_string(out, room);
    out.append("}");
    proof {
        assert(final(out)@ =~= old(out)@ + spec_room_change_body(session_id@, name@, room@));
    }
}

/// Builds the `join_room:` frame announcing that `session_id` joined
/// `room`.
pub fn join_room_frame(session_id: &String, name: &String, room: &String) -> (res: String)
    ensures
        res@ == spec_join_room_frame(session_id@, name@, room@),
{
    let mut out = String::from_str("join_room:");
    push_room_change_body(&mut out, session_id, name, room);
    proof {
        assert(out@ =~= spec_join_room_frame(session_id@, name@, room@));
    }
    out
}

/// Builds the `quit_room:` frame announcing that `session_id` left `room`.
pub fn quit_room_frame(session_id: &String, name: &String, room: &String) -> (res: String)
    ensures
        res@ == spec_quit_room_frame(session_id@, name@, room@),
{
    let mut out = String::from_str("quit_room:");
    push_room_change_body(&mut out, session_id, name, room);
    proof {
        assert(out@ =~= spec_quit_room_frame(session_id@, name@, room@));
    }
    out
}

/// The `update_name:` frame.
pub open spec fn spec_update_name_frame(
    session_id: Seq<char>,
    name: Seq<char>,
    old_name: Seq<char>,
) -> Seq<char> {
    "update_name:{\"session_id\":"@ + spec_json_string(session_id) + ",\"name\":"@
        + spec_json_string(name) + ",\"old_name\":"@ + spec_json_string(old_name) + "}"@
}

/// Builds the `update_name:` frame announcing a rename to the other
/// members of the default room.
pub fn update_name_frame(session_id: &String, name: &String, old_name: &String) -> (res: String)
    ensures
        res@ == spec_update_name_frame(session_id@, name@, old_name@),
{
    let mut out = String::from_str("update_name:{\"session_id\":");
    push_json_string(&mut out, session_id);
    out.append(",\"name\":");
    push_json_string(&mut out, name);
    out.append(",\"old_name\":");
    push_json_string(&mut out, old_name);
    out.append("}");
    proof {
        assert(out@ =~= spec_update_name_frame(session_id@, name@, old_name@));
    }
    out
}

/// One `"session_id":"display_name"` pair of a `list:` roster.
pub open spec fn spec_roster_entry(e: RosterEntryView) -> Seq<char> {
    spec_json_string(e.session_id) + seq![':'] + spec_json_string(e.name)
}

/// The comma-separated pairs of one room's roster.
pub open spec fn spec_roster_members(ms: Seq<RosterEntryView>) -> Seq<char>
    decreases ms.len(),
{
    if ms.len() == 0 {
        Seq::empty()
    } else if ms.len() == 1 {
        spec_roster_entry(ms[0])
    } else {
        spec_roster_members(ms.drop_last()) + seq![','] + spec_roster_entry(ms.last())
    }
}

/// One `"room":{...}` entry of a `list:` frame.
pub open spec fn spec_roster_room(r: RoomRosterView) -> Seq<char> {
    spec_json_string(r.room) + seq![':', '{'] + spec_roster_members(r.members) + seq!['}']
}

/// The comma-separated room entries of a `list:` frame.
pub open spec fn spec_roster_rooms(rs: Seq<RoomRosterView>) -> Seq<char>
    decreases rs.len(),
{
    if rs.len() == 0 {
        Seq::empty()
    } else if rs.len() == 1 {
        spec_roster_room(rs[0])
    } else {
        spec_roster_rooms(rs.drop_last()) + seq![','] + spec_roster_room(rs.last())
    }
}

/// The `list:` frame: for each room, its members and their display names.
pub open spec fn spec_list_frame(rs: Seq<RoomRosterView>) -> Seq<char> {
    "list:{"@ + spec_roster_rooms(rs) + "}"@
}

/// Builds the `list:` frame from a decoded retrieval reply.
pub fn list_frame(rooms: &UpdateRooms) -> (res: String)
    ensures
        res@ == spec_list_frame(rooms@),
{
    let mut out = String::from_str("list:{");
    let ghost rs = rooms@;
    let mut i: usize = 0;
    proof {
        assert(rs.take(0) =~= Seq::<RoomRosterView>::empty());
        assert(out@ =~= "list:{"@ + spec_roster_rooms(rs.take(0)));
    }
    while i < rooms.0.len()
        invariant
            i <= rooms.0.len(),
            rooms@ == rs,
            rs.len() == rooms.0.len(),
            out@ == "list:{"@ + spec_roster_rooms(rs.take(i as int)),
        decreases rooms.0.len() - i,
    {
        if i > 0 {
            push_char(&mut out, ',');
        }
        proof {
            assert(rs[i as int] == rooms.0@.map_values(|r: crate::hub::RoomRoster| r@)[i as int]);
        }
        let roster = &rooms.0[i];
        push_json_string(&mut out, &roster.room);
        push_char(&mut out, ':');
        push_char(&mut out, '{');
        let ghost ms = rs[i as int].members;
        let mut j: usize = 0;
        let ghost mid = out@;
        proof {
            assert(ms.take(0) =~= Seq::<RosterEntryView>::empty());
            assert(out@ =~= mid + spec_roster_members(ms.take(0)));
        }
        while j < roster.members.len()
            invariant
                j <= roster.members.len(),
                roster@.members == ms,
                ms.len() == roster.members.len(),
                out@ == mid + spec_roster_members(ms.take(j as int)),
            decreases roster.members.len() - j,
        {
            if j > 0 {
                push_char(&mut out, ',');
            }
            proof {
                assert(ms[j as int] == roster.members@.map_values(|e: crate::hub::RosterEntry| e@)[
                    j as int
                ]);
            }
            let entry = &roster.members[j];
            push_json_string(&mut out, &entry.session_id);
            push_char(&mut out, ':');
            push_json_string(&mut out, &entry.name);
            proof {
                assert(ms.take(j + 1).drop_last() =~= ms.take(j as int));
                assert(ms.take(j + 1).last() == ms[j as int]);
                assert(out@ =~= mid + spec_roster_members(ms.take(j + 1)));
            }
            j += 1;
        }
        push_char(&mut out, '}');
        proof {
            assert(ms.take(ms.len() as int) =~= ms);
            assert(rs.take(i + 1).drop_last() =~= rs.take(i as int));
            assert(rs.take(i + 1).last() == rs[i as int]);
            assert(spec_roster_room(rs[i as int]) == spec_json_string(rs[i as int].room) + seq![
                ':',
                '{',
            ] + spec_roster_members(rs[i as int].members) + seq!['}']);
            assert(out@ =~= "list:{"@ + spec_roster_rooms(rs.take(i + 1)));
        }
        i += 1;
    }
    out.append("}");
    proof {
        assert(rs.take(rs.len() as int) =~= rs);
        assert(out@ =~= spec_list_frame(rs));
    }
    out
}

/// The `message:` frame: a chat message with its fresh identifier, origin,
/// and timestamp.
pub open spec fn spec_message_frame(
    id: u128,
    room: Seq<char>,
    from_id: Seq<char>,
    from_name: Seq<char>,
    content: Seq<char>,
    time: Seq<char>,
) -> Seq<char> {
    "message:{\"id\":"@ + dec_u128(id) + ",\"room\":"@ + spec_json_string(room) + ",\"from_id\":"@
        + spec_json_string(from_id) + ",\"from_name\":"@ + spec_json_string(from_name)
        + ",\"content\":"@ + spec_json_string(content) + ",\"time\":"@ + spec_json_string(time)
        + "}"@
}

/// A chat message as announced on the wire: a fresh identifier, the room,
/// the sender's id and display name, the text, and the send time.
pub struct MessageContent {
    pub id: u128,
    pub room: String,
    pub from_id: String,
    pub from_name: String,
    pub content: String,
    pub time: String,
}

/// Relies on `uuid::Uuid::new_v4` and `Uuid::as_u128`: a freshly drawn
/// random identifier.  Nothing is promised of the value.
#[verifier::external_body]
fn random_message_id() -> u128 {
    uuid::Uuid::new_v4().as_u128()
}

/// Relies on `chrono::Utc::now` and `DateTime::format`: the current UTC
/// wall-clock time rendered as `YYYY-MM-DD HH:MM:SS`.  Nothing is promised
/// of the value.
#[verifier::external_body]
fn utc_now_string() -> String {
    chrono::Utc::now().format("%Y-%m-%d %H:%M:%S").to_string()
}

impl MessageContent {
    /// Renders this message as its `message:` frame.
    pub fn render(&self) -> (res: String)
        ensures
            res@ == spec_message_frame(
                self.id,
                self.room@,
                self.from_id@,
                self.from_name@,
                self.content@,
                self.time@,
            ),
    {
        let mut out = String::from_str("message:{\"id\":");
        push_u128(&mut out, self.id);
        out.append(",\"room\":");
        push_json_string(&mut out, &self.room);
        out.append(",\"from_id\":");
        push_json_string(&mut out, &self.from_id);
        out.append(",\"from_name\":");
        push_json_string(&mut out, &self.from_name);
        out.append(",\"content\":");
        push_json_string(&mut out, &self.content);
        out.append(",\"time\":");
        push_json_string(&mut out, &self.time);
        out.append("}");
        proof {
            assert(out@ =~= spec_message_frame(
                self.id,
                self.room@,
                self.from_id@,
                self.from_name@,
                self.content@,
                self.time@,
            ));
        }
        out
    }

    /// Builds the `message:` frame of a chat message, drawing a fresh
    /// random identifier and the current time.  Apart from those two
    /// values the frame is pinned exactly.
    pub fn format(room: &String, from_id: &String, from_name: &String, content: &String) -> (res:
        String)
        ensures
            exists|id: u128, time: Seq<char>|
                res@ == spec_message_frame(id, room@, from_id@, from_name@, content@, time),
    {
        let msg = MessageContent {
            id: random_message_id(),
            room: room.clone(),
            from_id: from_id.clone(),
            from_name: from_name.clone(),
            content: content.clone(),
            time: utc_now_string(),
        };
        let res = msg.render();
        proof {
            assert(res@ == spec_message_frame(
                msg.id,
                room@,
                from_id@,
                from_name@,
                content@,
                msg.time@,
            ));
        }
        res
    }
}

} // verus!
