//! The per-connection session protocol.
//!
//! One session loop owns a WebSocket, the session's outbound mailbox, and a
//! heartbeat clock.  The functions here take every decision of that loop:
//! how an inbound text is parsed — a `/`-command or a chat message — which
//! actor commands are dispatched, which frames are written back, and when
//! the heartbeat gives up on a silent client.  The loop around them only
//! moves bytes and awaits.
//!
//! The command grammar: a trimmed text starting with `/` is a command,
//! split at the first space into the command word and its argument.
//! Recognized are `/list`, `/join <room>`, `/quit <room>` and
//! `/name <new_name>`; quitting the default room is refused.  Anything not
//! starting with `/` is a chat message for the session's current room.

use vstd::prelude::*;

use crate::frames::{join_room_frame, quit_room_frame, spec_join_room_frame, spec_message_frame, spec_quit_room_frame, spec_update_name_frame, spec_update_session_frame, update_name_frame, update_session_frame, MessageContent};
use crate::server::{default_room, default_room_string, Command, CommandView};

verus! {

/// How often heartbeat pings are sent, in milliseconds.
pub const HEARTBEAT_INTERVAL_MS: u64 = 5000;

/// How long a silent client is tolerated before disconnection, in
/// milliseconds.
pub const CLIENT_TIMEOUT_MS: u64 = 10000;

/// Whether the heartbeat of a client last heard at `last` has expired at
/// `now`.
pub open spec fn heartbeat_expired(now: u64, last: u64) -> bool {
    now > last && now - last > CLIENT_TIMEOUT_MS
}

/// A character with the White_Space property, as the session loop trims
/// inbound texts.
pub open spec fn is_ws_char(c: char) -> bool {
    let n = c as u32;
    (9 <= n <= 13) || n == 32 || n == 0x85 || n == 0xA0 || n == 0x1680 || (0x2000 <= n <= 0x200A)
        || n == 0x2028 || n == 0x2029 || n == 0x202F || n == 0x205F || n == 0x3000
}

/// `s` without leading whitespace.
pub open spec fn trim_start(s: Seq<char>) -> Seq<char>
    decreases s.len(),
{
    if s.len() > 0 && is_ws_char(s[0]) {
        trim_start(s.drop_first())
    } else {
        s
    }
}

/// `s` without trailing whitespace.
pub open spec fn trim_end(s: Seq<char>) -> Seq<char>
    decreases s.len(),
{
    if s.len() > 0 && is_ws_char(s.last()) {
        trim_end(s.drop_last())
    } else {
        s
    }
}

/// `s` without leading and trailing whitespace.
pub open spec fn spec_trim(s: Seq<char>) -> Seq<char> {
    trim_end(trim_start(s))
}

/// The index of the first space of `s`, or -1 when there is none.
pub open spec fn first_space(s: Seq<char>) -> int
    decreases s.len(),
{
    if s.len() == 0 {
        -1
    } else if s[0] == ' ' {
        0
    } else {
        let r = first_space(s.drop_first());
        if r == -1 {
            -1
        } else {
            r + 1
        }
    }
}

/// The command word of `s`: everything before the first space, or all of
/// `s`.
pub open spec fn cmd_token(s: Seq<char>) -> Seq<char> {
    if first_space(s) == -1 {
        s
    } else {
        s.take(first_space(s))
    }
}

/// The argument of `s`: everything after the first space, if any.
pub open spec fn cmd_arg(s: Seq<char>) -> Option<Seq<char>> {
    if first_space(s) == -1 {
        None
    } else {
        Some(s.skip(first_space(s) + 1))
    }
}

/// If the leading `a` characters are whitespace and the next one is not,
/// trimming the start drops exactly those `a` characters.
proof fn lemma_trim_start_skip(s: Seq<char>, a: int)
    requires
        0 <= a <= s.len(),
        forall|k: int| 0 <= k < a ==> is_ws_char(s[k]),
        a < s.len() ==> !is_ws_char(s[a]),
    ensures
        trim_start(s) == s.skip(a),
    decreases a,
{
    if a == 0 {
        assert(trim_start(s) =~= s.skip(0));
    } else {
        assert(is_ws_char(s[0]));
        let s1 = s.drop_first();
        assert(forall|k: int| 0 <= k < a - 1 ==> s1[k] == s[k + 1]);
        lemma_trim_start_skip(s1, a - 1);
        assert(s1.skip(a - 1) =~= s.skip(a));
    }
}

/// If the characters from `b` on are whitespace and the one before `b` is
/// not, trimming the end keeps exactly the first `b` characters.
proof fn lemma_trim_end_take(s: Seq<char>, b: int)
    requires
        0 <= b <= s.len(),
        forall|k: int| b <= k < s.len() ==> is_ws_char(s[k]),
        b > 0 ==> !is_ws_char(s[b - 1]),
    ensures
        trim_end(s) == s.take(b),
    decreases s.len(),
{
    if b == s.len() {
        assert(trim_end(s) =~= s.take(b));
    } else {
        assert(is_ws_char(s.last()));
        let s1 = s.drop_last();
        assert(forall|k: int| b <= k < s1.len() ==> s1[k] == s[k]);
        lemma_trim_end_take(s1, b);
        assert(s1.take(b) =~= s.take(b));
    }
}

/// A space at `i` with none before it is the first space.
proof fn lemma_first_space_at(s: Seq<char>, i: int)
    requires
        0 <= i < s.len(),
        s[i] == ' ',
        forall|k: int| 0 <= k < i ==> s[k] != ' ',
    ensures
        first_space(s) == i,
    decreases i,
{
    if i > 0 {
        let s1 = s.drop_first();
        assert(forall|k: int| 0 <= k < i - 1 ==> s1[k] == s[k + 1]);
        assert(s1[i - 1] == ' ');
        lemma_first_space_at(s1, i - 1);
    }
}

/// Without any space there is no first space.
proof fn lemma_first_space_none(s: Seq<char>)
    requires
        forall|k: int| 0 <= k < s.len() ==> s[k] != ' ',
    ensures
        first_space(s) == -1,
    decreases s.len(),
{
    if s.len() > 0 {
        let s1 = s.drop_first();
        assert(forall|k: int| 0 <= k < s1.len() ==> s1[k] == s[k + 1]);
        lemma_first_space_none(s1);
    }
}

/// Whether `c` has the White_Space property.
fn is_whitespace_char(c: char) -> (res: bool)
    ensures
        res == is_ws_char(c),
{
    let n = c as u32;
    (9 <= n && n <= 13) || n == 32 || n == 0x85 || n == 0xA0 || n == 0x1680 || (0x2000 <= n && n
        <= 0x200A) || n == 0x2028 || n == 0x2029 || n == 0x202F || n == 0x205F || n == 0x3000
}

/// Strips leading and trailing whitespace from a text.
pub fn trim_text(text: &String) -> (res: String)
    ensures
        res@ == spec_trim(text@),
{
    let s = text.as_str();
    let len = s.unicode_len();
    let mut a: usize = 0;
    while a < len && is_whitespace_char(s.get_char(a))
        invariant
            a <= len,
            len == s@.len(),
            forall|k: int| 0 <= k < a ==> is_ws_char(s@[k]),
        decreases len - a,
    {
        a += 1;
    }
    proof {
        lemma_trim_start_skip(s@, a as int);
    }
    if a == len {
        proof {
            assert(s@.skip(a as int) =~= Seq::<char>::empty());
            assert(trim_end(Seq::<char>::empty()) =~= Seq::<char>::empty());
        }
        return String::new();
    }
    let mut b: usize = len;
    while b > a && is_whitespace_char(s.get_char(b - 1))
        invariant
            a <= b <= len,
            len == s@.len(),
            forall|k: int| b <= k < len ==> is_ws_char(s@[k]),
        decreases b,
    {
        b -= 1;
    }
    proof {
        assert(b > a) by {
            if b == a {
                assert(!is_ws_char(s@[a as int]));
            }
        }
    }
    let res = s.substring_char(a, b).to_owned();
    proof {
        let t = s@.skip(a as int);
        assert(forall|k: int| 0 <= k < t.len() ==> t[k] == s@[k + a]);
        lemma_trim_end_take(t, b - a);
        assert(t.take(b - a) =~= s@.subrange(a as int, b as int));
        assert(res@ == spec_trim(text@));
    }
    res
}

/// Splits a trimmed command text at its first space: the command word and
/// the argument, which keeps everything after that space unaltered.
fn split_command(msg: &String) -> (res: (String, Option<String>))
    ensures
        res.0@ == cmd_token(msg@),
        match res.1 {
            Some(arg) => cmd_arg(msg@) matches Some(a) && arg@ == a,
            None => cmd_arg(msg@) is None,
        },
{
    let s = msg.as_str();
    let len = s.unicode_len();
    let mut i: usize = 0;
    while i < len && !(s.get_char(i) == ' ')
        invariant
            i <= len,
            len == s@.len(),
            forall|k: int| 0 <= k < i ==> s@[k] != ' ',
        decreases len - i,
    {
        i += 1;
    }
    if i == len {
        proof {
            lemma_first_space_none(s@);
        }
        (s.to_owned(), None)
    } else {
        proof {
            lemma_first_space_at(s@, i as int);
        }
        let token = s.substring_char(0, i).to_owned();
        let arg = s.substring_char(i + 1, len).to_owned();
        proof {
            assert(token@ =~= msg@.take(i as int));
            assert(arg@ =~= msg@.skip(i + 1));
        }
        (token, Some(arg))
    }
}

/// The state a session loop keeps between events: the authenticated id,
/// the display name and current room as the client sees them, and the
/// instant of the last heartbeat, in milliseconds.
pub struct SessionState {
    pub session_id: String,
    pub name: String,
    pub room: String,
    pub last_heartbeat: u64,
}

/// Mathematical view of a [`SessionState`].
#[verifier::ext_equal]
pub ghost struct SessionView {
    pub session_id: Seq<char>,
    pub name: Seq<char>,
    pub room: Seq<char>,
    pub last_heartbeat: u64,
}

impl View for SessionState {
    type V = SessionView;

    open spec fn view(&self) -> SessionView {
        SessionView {
            session_id: self.session_id@,
            name: self.name@,
            room: self.room@,
            last_heartbeat: self.last_heartbeat,
        }
    }
}

/// An event the session loop selects on: an inbound client frame, an item
/// of the outbound mailbox, or a heartbeat tick.  Close frames, stream
/// errors and stream end terminate the loop outside.
pub enum SessionEvent {
    /// Client ping; the loop answers with a pong echoing the payload.
    Ping,
    /// Client pong to one of our pings.
    Pong,
    /// An inbound text frame.
    Text { text: String },
    /// An inbound binary frame: logged and ignored.
    Binary,
    /// A frame delivered on the session's outbound mailbox.
    Mailbox { msg: String },
    /// A heartbeat tick.
    Tick,
}

/// One effect the session loop must perform, in order.
pub enum SessionAction {
    /// Write this text frame to the session's own socket.
    SendSelf { frame: String },
    /// Answer the client's ping with a pong carrying the same payload.
    SendPong,
    /// Send a heartbeat ping with payload `ping`.
    SendPing,
    /// Ask the actor for the rooms of this session and write the rendered
    /// `list:` frame to the own socket.
    FetchList,
    /// Dispatch this command to the actor and await its reply.
    Dispatch { cmd: Command },
}

/// Mathematical view of a [`SessionAction`].
#[verifier::ext_equal]
pub ghost enum SessionActionView {
    SendSelf { frame: Seq<char> },
    SendPong,
    SendPing,
    FetchList,
    Dispatch { cmd: CommandView },
}

impl View for SessionAction {
    type V = SessionActionView;

    open spec fn view(&self) -> SessionActionView {
        match self {
            SessionAction::SendSelf { frame } => SessionActionView::SendSelf { frame: frame@ },
            SessionAction::SendPong => SessionActionView::SendPong,
            SessionAction::SendPing => SessionActionView::SendPing,
            SessionAction::FetchList => SessionActionView::FetchList,
            SessionAction::Dispatch { cmd } => SessionActionView::Dispatch { cmd: cmd@ },
        }
    }
}

/// View sequence of a list of session actions.
pub open spec fn action_views(acts: Seq<SessionAction>) -> Seq<SessionActionView> {
    acts.map_values(|a: SessionAction| a@)
}

/// State and actions after one step of the session protocol.
#[verifier::ext_equal]
pub ghost struct SessionStep {
    pub state: SessionView,
    pub actions: Seq<SessionActionView>,
}

/// The error text sent when `/join` or `/quit` lacks its room argument.
pub open spec fn room_required_text() -> Seq<char> {
    "!!! room name is required"@
}

/// The error text sent when `/name` lacks its argument.
pub open spec fn name_required_text() -> Seq<char> {
    "!!! name is required"@
}

/// The error text sent on an attempt to quit the default room.
pub open spec fn quit_default_text() -> Seq<char> {
    "!!! you can not quit default room: main"@
}

/// The error text sent for an unrecognized command.
pub open spec fn unknown_command_text(msg: Seq<char>) -> Seq<char> {
    "!!! unknown command: "@ + msg
}

/// The whole decision an inbound text gives rise to.  `mid` and `time`
/// stand for the random message identifier and the send instant drawn
/// when the text is a chat message; every other part of the step is a
/// function of the state and the text alone.
pub open spec fn spec_process_text(
    v: SessionView,
    text: Seq<char>,
    mid: u128,
    time: Seq<char>,
) -> SessionStep {
    let msg = spec_trim(text);
    if msg.len() > 0 && msg[0] == '/' {
        let token = cmd_token(msg);
        let arg = cmd_arg(msg);
        if token == "/list"@ {
            SessionStep { state: v, actions: seq![SessionActionView::FetchList] }
        } else if token == "/join"@ {
            match arg {
                Some(r) => {
                    let frame = spec_join_room_frame(v.session_id, v.name, r);
                    SessionStep {
                        state: SessionView { room: r, ..v },
                        actions: seq![
                            SessionActionView::Dispatch {
                                cmd: CommandView::Join { conn: v.session_id, room: r },
                            },
                            SessionActionView::SendSelf {
                                frame: spec_update_session_frame(r, v.name),
                            },
                            SessionActionView::Dispatch {
                                cmd: CommandView::Message {
                                    room: r,
                                    id: v.session_id,
                                    msg: frame,
                                },
                            },
                            SessionActionView::SendSelf { frame: frame },
                        ],
                    }
                },
                None => SessionStep {
                    state: v,
                    actions: seq![
                        SessionActionView::SendSelf { frame: room_required_text() },
                    ],
                },
            }
        } else if token == "/quit"@ {
            match arg {
                Some(r) => {
                    if r == default_room() {
                        SessionStep {
                            state: v,
                            actions: seq![
                                SessionActionView::SendSelf { frame: quit_default_text() },
                            ],
                        }
                    } else {
                        let frame = spec_quit_room_frame(v.session_id, v.name, r);
                        SessionStep {
                            state: SessionView { room: default_room(), ..v },
                            actions: seq![
                                SessionActionView::Dispatch {
                                    cmd: CommandView::Message {
                                        room: r,
                                        id: v.session_id,
                                        msg: frame,
                                    },
                                },
                                SessionActionView::SendSelf { frame: frame },
                                SessionActionView::Dispatch {
                                    cmd: CommandView::Quit { conn: v.session_id, room: r },
                                },
                                SessionActionView::SendSelf {
                                    frame: spec_update_session_frame(default_room(), v.name),
                                },
                            ],
                        }
                    }
                },
                None => SessionStep {
                    state: v,
                    actions: seq![
                        SessionActionView::SendSelf { frame: room_required_text() },
                    ],
                },
            }
        } else if token == "/name"@ {
            match arg {
                Some(n) => SessionStep {
                    state: SessionView { name: n, ..v },
                    actions: seq![
                        SessionActionView::Dispatch {
                            cmd: CommandView::Name { conn: v.session_id, name: n },
                        },
                        SessionActionView::SendSelf {
                            frame: spec_update_session_frame(v.room, n),
                        },
                        SessionActionView::Dispatch {
                            cmd: CommandView::Message {
                                room: default_room(),
                                id: v.session_id,
                                msg: spec_update_name_frame(v.session_id, n, v.name),
                            },
                        },
                    ],
                },
                None => SessionStep {
                    state: v,
                    actions: seq![
                        SessionActionView::SendSelf { frame: name_required_text() },
                    ],
                },
            }
        } else {
            SessionStep {
                state: v,
                actions: seq![
                    SessionActionView::SendSelf { frame: unknown_command_text(msg) },
                ],
            }
        }
    } else {
        SessionStep {
            state: v,
            actions: seq![
                SessionActionView::Dispatch {
                    cmd: CommandView::Message {
                        room: v.room,
                        id: v.session_id,
                        msg: spec_message_frame(mid, v.room, v.session_id, v.name, msg, time),
                    },
                },
            ],
        }
    }
}

impl SessionState {
    /// A fresh session in the default room, with the heartbeat clock set
    /// to `now` milliseconds.
    pub fn new(session_id: String, name: String, now: u64) -> (res: Self)
        ensures
            res@ == (SessionView {
                session_id: session_id@,
                name: name@,
                room: default_room(),
                last_heartbeat: now,
            }),
    {
        SessionState { session_id, name, room: default_room_string(), last_heartbeat: now }
    }

    /// Processes one inbound text frame: updates the session's name or
    /// room as the command demands and returns, in order, the frames to
    /// write back and the commands to dispatch.  Apart from the fresh
    /// identifier and timestamp a chat message draws, the step is exactly
    /// [`spec_process_text`].
    pub fn process_text_msg(&mut self, text: &String) -> (res: Vec<SessionAction>)
        ensures
            exists|mid: u128, time: Seq<char>|
                final(self)@ == (#[trigger] spec_process_text(old(self)@, text@, mid, time)).state
                    && action_views(res@) == spec_process_text(
                    old(self)@,
                    text@,
                    mid,
                    time,
                ).actions,
    {
        let ghost v0 = self@;
        let msg = trim_text(text);
        let mut actions: Vec<SessionAction> = Vec::new();
        let is_command = msg.as_str().unicode_len() > 0 && msg.as_str().get_char(0) == '/';
        if is_command {
            let (token, arg) = split_command(&msg);
            if token == String::from_str("/list") {
                actions.push(SessionAction::FetchList);
                proof {
                    assert(action_views(actions@) =~= spec_process_text(
                        v0,
                        text@,
                        0,
                        Seq::<char>::empty(),
                    ).actions);
                    assert(exists|mid: u128, time: Seq<char>|
                        self@ == (#[trigger] spec_process_text(v0, text@, mid, time)).state
                            && action_views(actions@) == spec_process_text(
                            v0,
                            text@,
                            mid,
                            time,
                        ).actions) by {
                        let step = spec_process_text(v0, text@, 0u128, Seq::<char>::empty());
                        assert(self@ == step.state && action_views(actions@) == step.actions);
                    }
                }
                return actions;
            }
            if token == String::from_str("/join") {
                match arg {
                    Some(r) => {
                        let frame = join_room_frame(&self.session_id, &self.name, &r);
                        actions.push(SessionAction::Dispatch {
                            cmd: Command::Join {
                                conn: self.session_id.clone(),
                                room: r.clone(),
                            },
                        });
                        actions.push(SessionAction::SendSelf {
                            frame: update_session_frame(&r, &self.name),
                        });
                        actions.push(SessionAction::Dispatch {
                            cmd: Command::Message {
                                room: r.clone(),
                                id: self.session_id.clone(),
                                msg: frame.clone(),
                            },
                        });
                        actions.push(SessionAction::SendSelf { frame });
                        self.room = r;
                    },
                    None => {
                        actions.push(SessionAction::SendSelf {
                            frame: String::from_str("!!! room name is required"),
                        });
                    },
                }
            } else if token == String::from_str("/quit") {
                match arg {
                    Some(r) => {
                        if r == default_room_string() {
                            actions.push(SessionAction::SendSelf {
                                frame: String::from_str(
                                    "!!! you can not quit default room: main",
                                ),
                            });
                        } else {
                            let frame = quit_room_frame(&self.session_id, &self.name, &r);
                            actions.push(SessionAction::Dispatch {
                                cmd: Command::Message {
                                    room: r.clone(),
                                    id: self.session_id.clone(),
                                    msg: frame.clone(),
                                },
                            });
                            actions.push(SessionAction::SendSelf { frame });
                            actions.push(SessionAction::Dispatch {
                                cmd: Command::Quit {
                                    conn: self.session_id.clone(),
                                    room: r,
                                },
                            });
                            self.room = default_room_string();
                            actions.push(SessionAction::SendSelf {
                                frame: update_session_frame(&self.room, &self.name),
                            });
                        }
                    },
                    None => {
                        actions.push(SessionAction::SendSelf {
                            frame: String::from_str("!!! room name is required"),
                        });
                    },
                }
            } else if token == String::from_str("/name") {
                match arg {
                    Some(n) => {
                        let old_name = self.name.clone();
                        actions.push(SessionAction::Dispatch {
                            cmd: Command::Name {
                                conn: self.session_id.clone(),
                                name: n.clone(),
                            },
                        });
                        actions.push(SessionAction::SendSelf {
                            frame: update_session_frame(&self.room, &n),
                        });
                        actions.push(SessionAction::Dispatch {
                            cmd: Command::Message {
                                room: default_room_string(),
                                id: self.session_id.clone(),
                                msg: update_name_frame(&self.session_id, &n, &old_name),
                            },
                        });
                        self.name = n;
                    },
                    None => {
                        actions.push(SessionAction::SendSelf {
                            frame: String::from_str("!!! name is required"),
                        });
                    },
                }
            } else {
                let mut frame = String::from_str("!!! unknown command: ");
                frame.append(msg.as_str());
                actions.push(SessionAction::SendSelf { frame });
            }
            proof {
                assert(action_views(actions@) =~= spec_process_text(
                    v0,
                    text@,
                    0,
                    Seq::<char>::empty(),
                ).actions);
                assert(self@ =~= spec_process_text(v0, text@, 0, Seq::<char>::empty()).state);
                assert(exists|mid: u128, time: Seq<char>|
                    self@ == (#[trigger] spec_process_text(v0, text@, mid, time)).state
                        && action_views(actions@) == spec_process_text(
                        v0,
                        text@,
                        mid,
                        time,
                    ).actions) by {
                    let step = spec_process_text(v0, text@, 0u128, Seq::<char>::empty());
                    assert(self@ == step.state && action_views(actions@) == step.actions);
                }
            }
            actions
        } else {
            let frame = MessageContent::format(&self.room, &self.session_id, &self.name, &msg);
            actions.push(SessionAction::Dispatch {
                cmd: Command::Message {
                    room: self.room.clone(),
                    id: self.session_id.clone(),
                    msg: frame,
                },
            });
            proof {
                let (mid, time) = choose|mid: u128, time: Seq<char>|
                    action_views(actions@)[0] == (SessionActionView::Dispatch {
                        cmd: CommandView::Message {
                            room: v0.room,
                            id: v0.session_id,
                            msg: spec_message_frame(mid, v0.room, v0.session_id, v0.name, msg@, time),
                        },
                    });
                let step = spec_process_text(v0, text@, mid, time);
                assert(action_views(actions@) =~= step.actions);
                assert(self@ == step.state);
            }
            actions
        }
    }

    /// One turn of the session loop's select: answers pings, refreshes the
    /// heartbeat clock, processes texts, forwards mailbox items to the
    /// socket, and on a tick decides between a heartbeat ping and giving
    /// the connection up.  `disconnect` tells the loop to break and run
    /// the disconnect protocol.
    pub fn handle_event(&mut self, event: SessionEvent, now: u64) -> (res: (
        Vec<SessionAction>,
        bool,
    ))
        ensures
            match event {
                SessionEvent::Ping => final(self)@ == (SessionView {
                    last_heartbeat: now,
                    ..old(self)@
                }) && action_views(res.0@) == seq![SessionActionView::SendPong] && !res.1,
                SessionEvent::Pong => final(self)@ == (SessionView {
                    last_heartbeat: now,
                    ..old(self)@
                }) && res.0@.len() == 0 && !res.1,
                SessionEvent::Text { text } => !res.1 && exists|mid: u128, time: Seq<char>|
                    final(self)@ == (#[trigger] spec_process_text(
                        old(self)@,
                        text@,
                        mid,
                        time,
                    )).state && action_views(res.0@) == spec_process_text(
                        old(self)@,
                        text@,
                        mid,
                        time,
                    ).actions,
                SessionEvent::Binary => final(self)@ == old(self)@ && res.0@.len() == 0 && !res.1,
                SessionEvent::Mailbox { msg } => final(self)@ == old(self)@ && action_views(res.0@)
                    == seq![SessionActionView::SendSelf { frame: msg@ }] && !res.1,
                SessionEvent::Tick => final(self)@ == old(self)@ && res.1 == heartbeat_expired(
                    now,
                    old(self).last_heartbeat,
                ) && action_views(res.0@) == if heartbeat_expired(now, old(self).last_heartbeat) {
                    Seq::<SessionActionView>::empty()
                } else {
                    seq![SessionActionView::SendPing]
                },
            },
    {
        let mut actions: Vec<SessionAction> = Vec::new();
        match event {
            SessionEvent::Ping => {
                self.last_heartbeat = now;
                actions.push(SessionAction::SendPong);
                proof {
                    assert(action_views(actions@) =~= seq![SessionActionView::SendPong]);
                }
                (actions, false)
            }
            SessionEvent::Pong => {
                self.last_heartbeat = now;
                (actions, false)
            }
            SessionEvent::Text { text } => {
                let acts = self.process_text_msg(&text);
                (acts, false)
            }
            SessionEvent::Binary => (actions, false),
            SessionEvent::Mailbox { msg } => {
                let ghost mv = msg@;
                actions.push(SessionAction::SendSelf { frame: msg });
                proof {
                    assert(action_views(actions@) =~= seq![
                        SessionActionView::SendSelf { frame: mv },
                    ]);
                }
                (actions, false)
            }
            SessionEvent::Tick => {
                if now > self.last_heartbeat && now - self.last_heartbeat > CLIENT_TIMEOUT_MS {
                    proof {
                        assert(action_views(actions@) =~= Seq::<SessionActionView>::empty());
                    }
                    (actions, true)
                } else {
                    actions.push(SessionAction::SendPing);
                    proof {
                        assert(action_views(actions@) =~= seq![SessionActionView::SendPing]);
                    }
                    (actions, false)
                }
            }
        }
    }

    /// The frames and commands issued right after a successful `Connect`,
    /// in order: announce the session's room and name to itself, fetch
    /// and send the room list, broadcast the default-room join to the
    /// other members, and echo it to the session itself.
    pub fn connect_notifications(&self) -> (res: Vec<SessionAction>)
        ensures
            action_views(res@) == seq![
                SessionActionView::SendSelf {
                    frame: spec_update_session_frame(self@.room, self@.name),
                },
                SessionActionView::FetchList,
                SessionActionView::Dispatch {
                    cmd: CommandView::Message {
                        room: default_room(),
                        id: self@.session_id,
                        msg: spec_join_room_frame(self@.session_id, self@.name, default_room()),
                    },
                },
                SessionActionView::SendSelf {
                    frame: spec_join_room_frame(self@.session_id, self@.name, default_room()),
                },
            ],
    {
        let mut actions: Vec<SessionAction> = Vec::new();
        let main = default_room_string();
        let frame = join_room_frame(&self.session_id, &self.name, &main);
        actions.push(SessionAction::SendSelf {
            frame: update_session_frame(&self.room, &self.name),
        });
        actions.push(SessionAction::FetchList);
        actions.push(SessionAction::Dispatch {
            cmd: Command::Message {
                room: main,
                id: self.session_id.clone(),
                msg: frame.clone(),
            },
        });
        actions.push(SessionAction::SendSelf { frame });
        proof {
            assert(action_views(actions@) =~= seq![
                SessionActionView::SendSelf {
                    frame: spec_update_session_frame(self@.room, self@.name),
                },
                SessionActionView::FetchList,
                SessionActionView::Dispatch {
                    cmd: CommandView::Message {
                        room: default_room(),
                        id: self@.session_id,
                        msg: spec_join_room_frame(self@.session_id, self@.name, default_room()),
                    },
                },
                SessionActionView::SendSelf {
                    frame: spec_join_room_frame(self@.session_id, self@.name, default_room()),
                },
            ]);
        }
        actions
    }
}

/// The `quit_room:` notifications of one room on disconnect: broadcast to
/// the room's remaining members, and echo to the leaving session.
pub open spec fn spec_quit_notifications_for(
    session_id: Seq<char>,
    name: Seq<char>,
    room: Seq<char>,
) -> Seq<SessionActionView> {
    seq![
        SessionActionView::Dispatch {
            cmd: CommandView::Message {
                room: room,
                id: session_id,
                msg: spec_quit_room_frame(session_id, name, room),
            },
        },
        SessionActionView::SendSelf { frame: spec_quit_room_frame(session_id, name, room) },
    ]
}

/// The notifications issued after `Disconnect` returned the rooms the
/// session had been in: the `quit_room:` pair of every such room, in
/// order.
pub open spec fn spec_disconnect_notifications(
    session_id: Seq<char>,
    name: Seq<char>,
    rooms: Seq<Seq<char>>,
) -> Seq<SessionActionView>
    decreases rooms.len(),
{
    if rooms.len() == 0 {
        Seq::empty()
    } else {
        spec_disconnect_notifications(session_id, name, rooms.drop_last())
            + spec_quit_notifications_for(session_id, name, rooms.last())
    }
}

/// Builds the `quit_room:` notifications for every room a disconnected
/// session had been in.
pub fn disconnect_notifications(
    session_id: &String,
    name: &String,
    rooms: &Vec<String>,
) -> (res: Vec<SessionAction>)
    ensures
        action_views(res@) == spec_disconnect_notifications(
            session_id@,
            name@,
            crate::seqs::seq_views(rooms@),
        ),
{
    let ghost rv = crate::seqs::seq_views(rooms@);
    let mut actions: Vec<SessionAction> = Vec::new();
    let mut i: usize = 0;
    proof {
        assert(rv.take(0) =~= Seq::<Seq<char>>::empty());
        assert(action_views(actions@) =~= spec_disconnect_notifications(
            session_id@,
            name@,
            rv.take(0),
        ));
    }
    while i < rooms.len()
        invariant
            i <= rooms.len(),
            rv == crate::seqs::seq_views(rooms@),
            rv.len() == rooms.len(),
            action_views(actions@) == spec_disconnect_notifications(
                session_id@,
                name@,
                rv.take(i as int),
            ),
        decreases rooms.len() - i,
    {
        let room = &rooms[i];
        proof {
            assert(rv[i as int] == room@);
        }
        let frame = quit_room_frame(session_id, name, room);
        actions.push(SessionAction::Dispatch {
            cmd: Command::Message {
                room: room.clone(),
                id: session_id.clone(),
                msg: frame.clone(),
            },
        });
        actions.push(SessionAction::SendSelf { frame });
        proof {
            assert(rv.take(i + 1).drop_last() =~= rv.take(i as int));
            assert(rv.take(i + 1).last() == rv[i as int]);
            assert(action_views(actions@) =~= spec_disconnect_notifications(
                session_id@,
                name@,
                rv.take(i + 1),
            ));
        }
        i += 1;
    }
    proof {
        assert(rv.take(rv.len() as int) =~= rv);
    }
    actions
}

} // verus!
