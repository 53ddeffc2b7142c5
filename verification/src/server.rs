//! The chat-server actor: the single writer of this process's session and
//! room state.
//!
//! The actor owns the set of sessions anchored in this process and the map
//! from room name to the local members of that room.  Every mutation arrives
//! as a [`Command`]; the handlers below compute the state change together
//! with the effects the surrounding process must perform against the hub —
//! broker subscriptions to open or close, atomic script requests against the
//! shared membership index, and envelopes to publish.  Messages delivered by
//! the broker are fanned out to every local member of the room except the
//! sender.
//!
//! Well-formedness ties the three parts together: session ids and room names
//! are duplicate-free, every room has at least one member, every member is a
//! registered session, and the hub holds a subscription exactly for the
//! rooms with a local member.

use vstd::prelude::*;

use crate::hub::{del_req, ChangeReqView, ChangeRoomReq, HubState, MessageForHub, RetrieveRroomsReq, RetrieveRroomsReqType, RoomChangeType};
use crate::seqs::{insert_unique, lemma_seq_remove_first_at, lemma_seq_remove_first_no_duplicates, seq_remove_first, seq_views};

verus! {

/// Connection id: the authenticated user identity.
pub type SessionID = String;

/// Room id: a free-form room name.
pub type RoomID = String;

/// Message payload sent to a room.
pub type Msg = String;

/// The distinguished default room every connection is placed in.
pub open spec fn default_room() -> Seq<char> {
    "main"@
}

/// The default room as an owned string.
pub fn default_room_string() -> (res: String)
    ensures
        res@ == default_room(),
{
    String::from_str("main")
}

/// One room anchored in this process: its name and the sessions of this
/// process that are members.
pub struct Room {
    pub name: RoomID,
    pub members: Vec<SessionID>,
}

/// Mathematical view of a [`Room`].
#[verifier::ext_equal]
pub ghost struct RoomView {
    pub name: Seq<char>,
    pub members: Seq<Seq<char>>,
}

impl View for Room {
    type V = RoomView;

    open spec fn view(&self) -> RoomView {
        RoomView { name: self.name@, members: seq_views(self.members@) }
    }
}

/// Mathematical view of the actor state: registered sessions, rooms with
/// their local members, and the rooms whose broker channel is subscribed.
#[verifier::ext_equal]
pub ghost struct ServerView {
    pub sessions: Seq<Seq<char>>,
    pub rooms: Seq<RoomView>,
    pub subs: Seq<Seq<char>>,
}

/// View sequence of a sequence of rooms.
pub open spec fn room_views(rs: Seq<Room>) -> Seq<RoomView> {
    rs.map_values(|r: Room| r@)
}

/// The names of a sequence of rooms, in order.
pub open spec fn room_names(rs: Seq<RoomView>) -> Seq<Seq<char>> {
    rs.map_values(|r: RoomView| r.name)
}

/// Well-formedness of the actor state.
///
/// - session ids are duplicate-free;
/// - room names are duplicate-free;
/// - every room's member list is duplicate-free and non-empty;
/// - every member of a room is a registered session;
/// - the subscribed channels are exactly the rooms with a local member,
///   in the same order.
pub open spec fn wf(v: ServerView) -> bool {
    &&& v.sessions.no_duplicates()
    &&& room_names(v.rooms).no_duplicates()
    &&& forall|i: int| 0 <= i < v.rooms.len() ==> (#[trigger] v.rooms[i]).members.no_duplicates()
    &&& forall|i: int| 0 <= i < v.rooms.len() ==> (#[trigger] v.rooms[i]).members.len() > 0
    &&& forall|i: int, j: int|
        0 <= i < v.rooms.len() && 0 <= j < v.rooms[i].members.len()
            ==> v.sessions.contains(#[trigger] v.rooms[i].members[j])
    &&& v.subs == room_names(v.rooms)
}

/// Whether some room of `rs` is named `name`.
pub open spec fn has_room(rs: Seq<RoomView>, name: Seq<char>) -> bool {
    exists|i: int| 0 <= i < rs.len() && rs[i].name == name
}

/// The index of the room named `name`, or -1 when there is none.
pub open spec fn room_index(rs: Seq<RoomView>, name: Seq<char>) -> int {
    if has_room(rs, name) {
        choose|i: int| 0 <= i < rs.len() && rs[i].name == name
    } else {
        -1
    }
}

/// With duplicate-free names, the index of a room named `name` is the one
/// `room_index` picks.
pub proof fn lemma_room_index_unique(rs: Seq<RoomView>, name: Seq<char>, i: int)
    requires
        room_names(rs).no_duplicates(),
        0 <= i < rs.len(),
        rs[i].name == name,
    ensures
        room_index(rs, name) == i,
{
    assert(has_room(rs, name));
    let j = room_index(rs, name);
    assert(room_names(rs)[i] == name);
    assert(room_names(rs)[j] == name);
}

/// `rs` with `id` added to the members of `room`: appended to the room when
/// it exists and is not yet a member, a fresh one-member room otherwise.
pub open spec fn add_member(rs: Seq<RoomView>, room: Seq<char>, id: Seq<char>) -> Seq<RoomView> {
    let i = room_index(rs, room);
    if i == -1 {
        rs.push(RoomView { name: room, members: seq![id] })
    } else if rs[i].members.contains(id) {
        rs
    } else {
        rs.update(i, RoomView { name: room, members: rs[i].members.push(id) })
    }
}

/// Adding a member inserts the room name and keeps all other rooms as they
/// were.
pub proof fn lemma_add_member_names(rs: Seq<RoomView>, room: Seq<char>, id: Seq<char>)
    ensures
        room_names(add_member(rs, room, id)) == insert_unique(room_names(rs), room),
{
    let i = room_index(rs, room);
    if i == -1 {
        assert(!room_names(rs).contains(room)) by {
            if room_names(rs).contains(room) {
                let j = choose|j: int|
                    0 <= j < room_names(rs).len() && room_names(rs)[j] == room;
                assert(rs[j].name == room);
            }
        }
        assert(room_names(add_member(rs, room, id)) =~= room_names(rs).push(room));
    } else {
        assert(room_names(rs)[i] == room);
        assert(room_names(rs).contains(room));
        if !rs[i].members.contains(id) {
            assert(room_names(add_member(rs, room, id)) =~= room_names(rs));
        }
    }
}

/// The actor state after `Connect { id }`: the session is registered and is
/// a member of the default room, whose channel is subscribed.
pub open spec fn spec_connect(v: ServerView, id: Seq<char>) -> ServerView {
    ServerView {
        sessions: insert_unique(v.sessions, id),
        rooms: add_member(v.rooms, default_room(), id),
        subs: insert_unique(v.subs, default_room()),
    }
}

/// The actor state after `Join { id, room }`: unchanged for an unknown
/// session, otherwise the session is a member of `room` and the room's
/// channel is subscribed.
pub open spec fn spec_join(v: ServerView, id: Seq<char>, room: Seq<char>) -> ServerView {
    if !v.sessions.contains(id) {
        v
    } else {
        ServerView {
            sessions: v.sessions,
            rooms: add_member(v.rooms, room, id),
            subs: insert_unique(v.subs, room),
        }
    }
}

/// Adding a member preserves well-formedness, provided the member is a
/// registered session.
pub proof fn lemma_wf_add_member(v: ServerView, room: Seq<char>, id: Seq<char>)
    requires
        wf(v),
        v.sessions.contains(id),
    ensures
        wf(ServerView {
            sessions: v.sessions,
            rooms: add_member(v.rooms, room, id),
            subs: insert_unique(v.subs, room),
        }),
        has_room(add_member(v.rooms, room, id), room),
{
    let rs = add_member(v.rooms, room, id);
    lemma_add_member_names(v.rooms, room, id);
    let i = room_index(v.rooms, room);
    if i == -1 {
        assert(rs[rs.len() - 1].name == room);
        assert(room_names(v.rooms).push(room).no_duplicates()) by {
            if room_names(v.rooms).contains(room) {
                let j = choose|j: int|
                    0 <= j < room_names(v.rooms).len() && room_names(v.rooms)[j] == room;
                assert(v.rooms[j].name == room);
            }
        }
        assert(seq![id].no_duplicates());
        assert(forall|k: int| 0 <= k < rs.len() - 1 ==> rs[k] == v.rooms[k]);
    } else {
        assert(v.rooms[i].name == room);
        if v.rooms[i].members.contains(id) {
            assert(rs =~= v.rooms);
            assert(rs[i].name == room);
        } else {
            assert(rs[i].name == room);
            assert(rs[i].members == v.rooms[i].members.push(id));
            assert(rs[i].members.no_duplicates());
            assert(forall|k: int| 0 <= k < rs.len() && k != i ==> rs[k] == v.rooms[k]);
            assert(forall|k: int, j: int|
                0 <= k < rs.len() && 0 <= j < rs[k].members.len()
                    ==> v.sessions.contains(#[trigger] rs[k].members[j])) by {
                assert(forall|j: int|
                    0 <= j < v.rooms[i].members.len()
                        ==> v.sessions.contains(#[trigger] v.rooms[i].members[j]));
            }
        }
    }
    assert(insert_unique(v.subs, room) == room_names(rs));
}

/// `rs` with `id` removed from the members of `room`.  A room whose last
/// member leaves is dropped entirely.
pub open spec fn remove_member(rs: Seq<RoomView>, room: Seq<char>, id: Seq<char>) -> Seq<RoomView> {
    let i = room_index(rs, room);
    if i == -1 {
        rs
    } else if !rs[i].members.contains(id) {
        rs
    } else if rs[i].members.len() == 1 {
        rs.remove(i)
    } else {
        rs.update(i, RoomView { name: room, members: seq_remove_first(rs[i].members, id) })
    }
}

/// Whether `Quit { id, room }` leaves `room` without local members, so that
/// its broker subscription must be released.
pub open spec fn quit_empties(rs: Seq<RoomView>, room: Seq<char>, id: Seq<char>) -> bool {
    let i = room_index(rs, room);
    i != -1 && rs[i].members.contains(id) && rs[i].members.len() == 1
}

/// The actor state after `Quit { id, room }`: unchanged for an unknown
/// session, otherwise the session leaves `room`; an emptied room and its
/// subscription are dropped.
pub open spec fn spec_quit(v: ServerView, id: Seq<char>, room: Seq<char>) -> ServerView {
    if !v.sessions.contains(id) {
        v
    } else {
        ServerView {
            sessions: v.sessions,
            rooms: remove_member(v.rooms, room, id),
            subs: room_names(remove_member(v.rooms, room, id)),
        }
    }
}

/// Removing a member preserves well-formedness.
pub proof fn lemma_wf_remove_member(v: ServerView, room: Seq<char>, id: Seq<char>)
    requires
        wf(v),
    ensures
        wf(ServerView {
            sessions: v.sessions,
            rooms: remove_member(v.rooms, room, id),
            subs: room_names(remove_member(v.rooms, room, id)),
        }),
{
    let rs = remove_member(v.rooms, room, id);
    let i = room_index(v.rooms, room);
    if i == -1 {
    } else if !v.rooms[i].members.contains(id) {
    } else if v.rooms[i].members.len() == 1 {
        assert(forall|k: int| 0 <= k < rs.len() ==> rs[k] == (if k < i {
            v.rooms[k]
        } else {
            v.rooms[k + 1]
        }));
        assert(room_names(rs).no_duplicates()) by {
            assert(forall|p: int, q: int|
                0 <= p < q < rs.len() ==> room_names(rs)[p] != room_names(rs)[q]) by {
                assert(forall|p: int|
                    0 <= p < rs.len() ==> room_names(rs)[p] == (if p < i {
                        room_names(v.rooms)[p]
                    } else {
                        room_names(v.rooms)[p + 1]
                    }));
            }
        }
    } else {
        lemma_seq_remove_first_no_duplicates(v.rooms[i].members, id);
        assert(v.rooms[i].name == room);
        assert(room_names(rs) =~= room_names(v.rooms));
        assert(forall|k: int| 0 <= k < rs.len() && k != i ==> rs[k] == v.rooms[k]);
        assert(forall|k: int, j: int|
            0 <= k < rs.len() && 0 <= j < rs[k].members.len()
                ==> v.sessions.contains(#[trigger] rs[k].members[j])) by {
            assert(forall|j: int|
                0 <= j < rs[i].members.len() ==> v.rooms[i].members.contains(
                    #[trigger] rs[i].members[j],
                )) by {
                assert(forall|j: int|
                    0 <= j < rs[i].members.len() ==> rs[i].members.contains(
                        #[trigger] rs[i].members[j],
                    ));
            }
            assert(forall|k: int, j: int|
                0 <= k < v.rooms.len() && 0 <= j < v.rooms[k].members.len()
                    ==> v.sessions.contains(#[trigger] v.rooms[k].members[j]));
            assert forall|k: int, j: int|
                0 <= k < rs.len() && 0 <= j < rs[k].members.len() implies v.sessions.contains(
                #[trigger] rs[k].members[j],
            ) by {
                if k == i {
                    let y = rs[i].members[j];
                    let p = choose|p: int|
                        0 <= p < v.rooms[i].members.len() && v.rooms[i].members[p] == y;
                    assert(v.sessions.contains(v.rooms[i].members[p]));
                }
            }
        }
    }
}

/// The members of `ms` other than `x`, in order.
pub open spec fn filter_out(ms: Seq<Seq<char>>, x: Seq<char>) -> Seq<Seq<char>>
    decreases ms.len(),
{
    if ms.len() == 0 {
        Seq::empty()
    } else {
        filter_out(ms.drop_last(), x) + (if ms.last() == x {
            Seq::<Seq<char>>::empty()
        } else {
            seq![ms.last()]
        })
    }
}

/// The local sessions a broker envelope for `room` sent by `from` is
/// delivered to: every local member of `room` except the sender.
pub open spec fn spec_recipients(v: ServerView, room: Seq<char>, from: Seq<char>) -> Seq<Seq<char>> {
    let i = room_index(v.rooms, room);
    if i == -1 {
        Seq::empty()
    } else {
        filter_out(v.rooms[i].members, from)
    }
}

/// One membership-index deletion per member of one room.
pub open spec fn room_del_reqs(r: RoomView) -> Seq<ChangeReqView> {
    r.members.map_values(|m: Seq<char>| del_req(m, r.name))
}

/// The membership-index deletions of a graceful shutdown: one per
/// `(room, member)` pair of the local snapshot, in room order.
pub open spec fn clean_reqs(rs: Seq<RoomView>) -> Seq<ChangeReqView>
    decreases rs.len(),
{
    if rs.len() == 0 {
        Seq::empty()
    } else {
        clean_reqs(rs.drop_last()) + room_del_reqs(rs.last())
    }
}

/// What is left of one room when session `id` disappears: the room itself
/// when `id` was no member, the room without `id` otherwise, and nothing
/// when `id` was the only member.
pub open spec fn strip_room(r: RoomView, id: Seq<char>) -> Seq<RoomView> {
    if !r.members.contains(id) {
        seq![r]
    } else if r.members.len() == 1 {
        Seq::empty()
    } else {
        seq![RoomView { name: r.name, members: seq_remove_first(r.members, id) }]
    }
}

/// The rooms left when session `id` disappears from all of them, emptied
/// rooms dropped.
pub open spec fn strip_all(rs: Seq<RoomView>, id: Seq<char>) -> Seq<RoomView>
    decreases rs.len(),
{
    if rs.len() == 0 {
        Seq::empty()
    } else {
        strip_all(rs.drop_last(), id) + strip_room(rs.last(), id)
    }
}

/// The names of the rooms `id` is a member of, in room order.
pub open spec fn rooms_with(rs: Seq<RoomView>, id: Seq<char>) -> Seq<Seq<char>>
    decreases rs.len(),
{
    if rs.len() == 0 {
        Seq::empty()
    } else {
        rooms_with(rs.drop_last(), id) + (if rs.last().members.contains(id) {
            seq![rs.last().name]
        } else {
            Seq::empty()
        })
    }
}

/// The names of the rooms that lose their last local member when `id`
/// disappears, in room order.
pub open spec fn emptied_rooms(rs: Seq<RoomView>, id: Seq<char>) -> Seq<Seq<char>>
    decreases rs.len(),
{
    if rs.len() == 0 {
        Seq::empty()
    } else {
        emptied_rooms(rs.drop_last(), id) + (if rs.last().members.contains(id)
            && rs.last().members.len() == 1 {
            seq![rs.last().name]
        } else {
            Seq::empty()
        })
    }
}

/// One membership-index deletion of session `id` per room name.
pub open spec fn del_reqs_for(names: Seq<Seq<char>>, id: Seq<char>) -> Seq<ChangeReqView> {
    names.map_values(|r: Seq<char>| del_req(id, r))
}

/// The actor state after `Disconnect { id }`: unchanged for an unknown
/// session, otherwise the session is unregistered, gone from every room,
/// and emptied rooms are dropped together with their subscriptions.
pub open spec fn spec_disconnect(v: ServerView, id: Seq<char>) -> ServerView {
    if !v.sessions.contains(id) {
        v
    } else {
        ServerView {
            sessions: seq_remove_first(v.sessions, id),
            rooms: strip_all(v.rooms, id),
            subs: room_names(strip_all(v.rooms, id)),
        }
    }
}

/// What `strip_all` leaves: duplicate-free non-empty member lists without
/// `id`, drawn from the original members, under the original room names.
pub proof fn lemma_strip_all_props(rs: Seq<RoomView>, id: Seq<char>)
    requires
        forall|i: int| 0 <= i < rs.len() ==> (#[trigger] rs[i]).members.no_duplicates(),
        forall|i: int| 0 <= i < rs.len() ==> (#[trigger] rs[i]).members.len() > 0,
    ensures
        forall|i: int| 0 <= i < strip_all(rs, id).len()
            ==> (#[trigger] strip_all(rs, id)[i]).members.no_duplicates(),
        forall|i: int| 0 <= i < strip_all(rs, id).len()
            ==> (#[trigger] strip_all(rs, id)[i]).members.len() > 0,
        forall|i: int| 0 <= i < strip_all(rs, id).len()
            ==> !(#[trigger] strip_all(rs, id)[i]).members.contains(id),
        forall|i: int| 0 <= i < strip_all(rs, id).len()
            ==> room_names(rs).contains(#[trigger] strip_all(rs, id)[i].name),
        forall|i: int, y: Seq<char>|
            0 <= i < strip_all(rs, id).len() && #[trigger] strip_all(rs, id)[i].members.contains(y)
                ==> exists|j: int| 0 <= j < rs.len() && #[trigger] rs[j].members.contains(y),
        room_names(rs).no_duplicates() ==> room_names(strip_all(rs, id)).no_duplicates(),
    decreases rs.len(),
{
    if rs.len() == 0 {
    } else {
        let front = rs.drop_last();
        let last = rs.last();
        lemma_strip_all_props(front, id);
        let sf = strip_all(front, id);
        let sr = strip_room(last, id);
        let s = strip_all(rs, id);
        assert(s == sf + sr);
        if last.members.contains(id) {
            lemma_seq_remove_first_no_duplicates(last.members, id);
        }
        assert(forall|i: int| 0 <= i < sr.len() ==> (#[trigger] sr[i]).members.no_duplicates());
        assert(forall|i: int| 0 <= i < sr.len() ==> (#[trigger] sr[i]).members.len() > 0);
        assert(forall|i: int| 0 <= i < sr.len() ==> !(#[trigger] sr[i]).members.contains(id));
        assert(forall|i: int| 0 <= i < sr.len() ==> sr[i].name == last.name);
        assert(forall|i: int, y: Seq<char>|
            0 <= i < sr.len() && #[trigger] sr[i].members.contains(y)
                ==> last.members.contains(y));
        assert(forall|i: int| 0 <= i < s.len() ==> s[i] == (if i < sf.len() {
            sf[i]
        } else {
            sr[i - sf.len()]
        }));
        assert(forall|i: int| 0 <= i < front.len() ==> room_names(rs)[i] == front[i].name);
        assert(room_names(rs)[rs.len() - 1] == last.name);
        assert(forall|n: Seq<char>|
            room_names(front).contains(n) ==> room_names(rs).contains(n)) by {
            assert forall|n: Seq<char>| room_names(front).contains(n) implies room_names(
                rs,
            ).contains(n) by {
                let j = choose|j: int|
                    0 <= j < room_names(front).len() && room_names(front)[j] == n;
                assert(room_names(rs)[j] == n);
            }
        }
        assert(forall|i: int, y: Seq<char>|
            0 <= i < s.len() && #[trigger] s[i].members.contains(y)
                ==> exists|j: int| 0 <= j < rs.len() && #[trigger] rs[j].members.contains(y)) by {
            assert forall|i: int, y: Seq<char>|
                0 <= i < s.len() && #[trigger] s[i].members.contains(y) implies exists|j: int|
                0 <= j < rs.len() && #[trigger] rs[j].members.contains(y) by {
                if i < sf.len() {
                    let j = choose|j: int|
                        0 <= j < front.len() && #[trigger] front[j].members.contains(y);
                    assert(rs[j].members.contains(y));
                } else {
                    assert(last.members.contains(y));
                    assert(rs[rs.len() - 1].members.contains(y));
                }
            }
        }
        if room_names(rs).no_duplicates() {
            assert(room_names(front).no_duplicates()) by {
                assert(forall|p: int|
                    0 <= p < front.len() ==> room_names(front)[p] == room_names(rs)[p]);
            }
            assert(!room_names(front).contains(last.name)) by {
                if room_names(front).contains(last.name) {
                    let p = choose|p: int|
                        0 <= p < room_names(front).len() && room_names(front)[p] == last.name;
                    assert(room_names(rs)[p] == last.name);
                    assert(room_names(rs)[rs.len() - 1] == last.name);
                }
            }
            assert(room_names(s).no_duplicates()) by {
                assert(forall|p: int|
                    0 <= p < s.len() ==> room_names(s)[p] == s[p].name);
                assert(forall|p: int, q: int|
                    0 <= p < q < s.len() ==> room_names(s)[p] != room_names(s)[q]) by {
                    assert forall|p: int, q: int| 0 <= p < q < s.len() implies room_names(s)[p]
                        != room_names(s)[q] by {
                        if q < sf.len() {
                            assert(room_names(sf)[p] == sf[p].name);
                            assert(room_names(sf)[q] == sf[q].name);
                        } else if p < sf.len() {
                            assert(room_names(front).contains(sf[p].name)) by {
                                assert(room_names(sf)[p] == sf[p].name);
                            }
                            assert(s[q].name == last.name);
                        }
                    }
                }
            }
        }
    }
}

/// Mid-disconnect well-formedness: a state whose rooms are a stripped
/// prefix of the original rooms followed by the untouched suffix is
/// well-formed.
pub proof fn lemma_wf_concat_strip(v0: ServerView, k: int, id: Seq<char>, cur: ServerView)
    requires
        wf(v0),
        0 <= k <= v0.rooms.len(),
        cur.sessions == v0.sessions,
        cur.rooms == strip_all(v0.rooms.take(k), id) + v0.rooms.skip(k),
        cur.subs == room_names(cur.rooms),
    ensures
        wf(cur),
{
    let rs = v0.rooms;
    let tk = rs.take(k);
    lemma_strip_all_props(tk, id);
    let sp = strip_all(tk, id);
    let suf = rs.skip(k);
    assert(forall|p: int| 0 <= p < cur.rooms.len() ==> cur.rooms[p] == (if p < sp.len() {
        sp[p]
    } else {
        suf[p - sp.len()]
    }));
    assert(forall|p: int| 0 <= p < tk.len() ==> tk[p] == rs[p]);
    assert(forall|p: int| 0 <= p < suf.len() ==> suf[p] == rs[p + k]);
    assert(forall|p: int|
        0 <= p < cur.rooms.len() ==> (#[trigger] cur.rooms[p]).members.no_duplicates());
    assert(forall|p: int| 0 <= p < cur.rooms.len() ==> (#[trigger] cur.rooms[p]).members.len() > 0);
    assert(forall|p: int, q: int|
        0 <= p < cur.rooms.len() && 0 <= q < cur.rooms[p].members.len()
            ==> cur.sessions.contains(#[trigger] cur.rooms[p].members[q])) by {
        assert forall|p: int, q: int|
            0 <= p < cur.rooms.len() && 0 <= q < cur.rooms[p].members.len()
                implies cur.sessions.contains(#[trigger] cur.rooms[p].members[q]) by {
            let y = cur.rooms[p].members[q];
            if p < sp.len() {
                assert(sp[p].members.contains(y));
                let j = choose|j: int| 0 <= j < tk.len() && #[trigger] tk[j].members.contains(y);
                let q2 = choose|q2: int| 0 <= q2 < rs[j].members.len() && rs[j].members[q2] == y;
                assert(v0.sessions.contains(rs[j].members[q2]));
            } else {
                assert(rs[p - sp.len() + k].members[q] == y);
                assert(v0.sessions.contains(rs[p - sp.len() + k].members[q]));
            }
        }
    }
    assert(room_names(cur.rooms).no_duplicates()) by {
        assert(forall|p: int|
            0 <= p < cur.rooms.len() ==> room_names(cur.rooms)[p] == cur.rooms[p].name);
        assert(forall|p: int| 0 <= p < sp.len() ==> room_names(sp)[p] == sp[p].name);
        assert(forall|p: int| 0 <= p < rs.len() ==> room_names(rs)[p] == rs[p].name);
        assert(forall|p: int| 0 <= p < tk.len() ==> room_names(tk)[p] == tk[p].name);
        assert(room_names(tk).no_duplicates()) by {
            assert(forall|p: int| 0 <= p < tk.len() ==> room_names(tk)[p] == room_names(rs)[p]);
        }
        assert(room_names(sp).no_duplicates());
        assert forall|p: int, q: int| 0 <= p < q < cur.rooms.len() implies room_names(
            cur.rooms,
        )[p] != room_names(cur.rooms)[q] by {
            if q < sp.len() {
                assert(room_names(sp)[p] != room_names(sp)[q]);
            } else if p < sp.len() {
                assert(room_names(tk).contains(sp[p].name));
                let j = choose|j: int|
                    0 <= j < room_names(tk).len() && room_names(tk)[j] == sp[p].name;
                assert(room_names(rs)[j] == sp[p].name);
                assert(cur.rooms[q].name == room_names(rs)[q - sp.len() + k]);
            } else {
                assert(room_names(rs)[p - sp.len() + k] != room_names(rs)[q - sp.len() + k]);
            }
        }
    }
}

/// Effect of a `Disconnect` command: the rooms the session had been in
/// (the command's reply), one membership-index deletion per such room, and
/// the rooms whose broker subscription must be closed because their last
/// local member left.
pub struct DisconnectEffect {
    pub rooms: Vec<RoomID>,
    pub changes: Vec<ChangeRoomReq>,
    pub unsubscribes: Vec<RoomID>,
}

/// Effect of a `Quit` command.  `change` is `None` exactly when the session
/// was unknown; `unsubscribe` names the room when its last local member
/// left.
pub struct QuitEffect {
    pub unsubscribe: Option<RoomID>,
    pub change: Option<ChangeRoomReq>,
}

/// Effect of a `Connect` command: the room whose broker channel must be
/// subscribed, if any, and the membership-index mutation to apply.
pub struct ConnectEffect {
    pub subscribe: Option<RoomID>,
    pub change: ChangeRoomReq,
}

/// Effect of a `Join` command.  `change` is `None` exactly when the session
/// was unknown and the command was a no-op.
pub struct JoinEffect {
    pub subscribe: Option<RoomID>,
    pub change: Option<ChangeRoomReq>,
}

/// The chat-server actor state: registered sessions, local rooms, and the
/// hub's subscription table.
pub struct ChatServer {
    pub sessions: Vec<SessionID>,
    pub rooms: Vec<Room>,
    pub hub: HubState,
}

impl View for ChatServer {
    type V = ServerView;

    open spec fn view(&self) -> ServerView {
        ServerView {
            sessions: seq_views(self.sessions@),
            rooms: room_views(self.rooms@),
            subs: self.hub.subs(),
        }
    }
}

impl ChatServer {
    /// Well-formedness of this actor state.
    pub open spec fn inv(&self) -> bool {
        wf(self@)
    }

    /// A fresh actor with no sessions, no rooms and no subscriptions.
    pub fn new() -> (res: Self)
        ensures
            res.inv(),
            res@.sessions == Seq::<Seq<char>>::empty(),
            res@.rooms == Seq::<RoomView>::empty(),
            res@.subs == Seq::<Seq<char>>::empty(),
    {
        let res = Self { sessions: Vec::new(), rooms: Vec::new(), hub: HubState::new() };
        proof {
            assert(res@.sessions =~= Seq::<Seq<char>>::empty());
            assert(res@.rooms =~= Seq::<RoomView>::empty());
            assert(room_names(res@.rooms) =~= Seq::<Seq<char>>::empty());
        }
        res
    }

    /// Whether `id` is a registered session.
    pub fn session_exists(&self, id: &SessionID) -> (res: bool)
        ensures
            res == self@.sessions.contains(id@),
    {
        let mut i: usize = 0;
        while i < self.sessions.len()
            invariant
                i <= self.sessions.len(),
                forall|j: int| 0 <= j < i ==> self@.sessions[j] != id@,
            decreases self.sessions.len() - i,
        {
            if self.sessions[i] == *id {
                assert(self@.sessions[i as int] == id@);
                return true;
            }
            i += 1;
        }
        false
    }

    /// The index of the room named `room`, if there is one.
    fn find_room(&self, room: &RoomID) -> (res: Option<usize>)
        ensures
            match res {
                Some(i) => i < self.rooms.len() && self@.rooms[i as int].name == room@
                    && (forall|j: int| 0 <= j < i ==> self@.rooms[j].name != room@),
                None => !has_room(self@.rooms, room@),
            },
    {
        let mut i: usize = 0;
        while i < self.rooms.len()
            invariant
                i <= self.rooms.len(),
                forall|j: int| 0 <= j < i ==> self@.rooms[j].name != room@,
            decreases self.rooms.len() - i,
        {
            if self.rooms[i].name == *room {
                assert(self@.rooms[i as int].name == room@);
                return Some(i);
            }
            i += 1;
        }
        None
    }

    /// Inserts `id` into the members of `room`, creating the room when it
    /// does not exist yet, and subscribes the room's channel if needed.
    /// Returns the room name when the caller must open the broker
    /// subscription.
    fn join_local(&mut self, room: &RoomID, id: &SessionID) -> (subscribe: Option<RoomID>)
        requires
            old(self).inv(),
            old(self)@.sessions.contains(id@),
        ensures
            final(self).inv(),
            final(self)@.sessions == old(self)@.sessions,
            final(self)@.rooms == add_member(old(self)@.rooms, room@, id@),
            final(self)@.subs == insert_unique(old(self)@.subs, room@),
            (subscribe matches Some(r) && r@ == room@) <==> !old(self)@.subs.contains(room@),
            subscribe is None <==> old(self)@.subs.contains(room@),
    {
        proof {
            lemma_wf_add_member(old(self)@, room@, id@);
        }
        let ghost v0 = self@;
        match self.find_room(room) {
            Some(i) => {
                proof {
                    lemma_room_index_unique(v0.rooms, room@, i as int);
                    // the room exists, hence its channel is already subscribed
                    assert(room_names(v0.rooms)[i as int] == room@);
                    assert(v0.subs.contains(room@));
                    assert(insert_unique(v0.subs, room@) == v0.subs);
                }
                match member_pos(&self.rooms[i].members, id) {
                    Some(_) => {
                        proof {
                            assert(v0.rooms[i as int].members.contains(id@));
                            assert(add_member(v0.rooms, room@, id@) =~= v0.rooms);
                        }
                    }
                    None => {
                        self.rooms[i].members.push(id.clone());
                        proof {
                            assert(seq_views(self.rooms@[i as int].members@)
                                =~= v0.rooms[i as int].members.push(id@));
                            assert(self@.rooms =~= add_member(v0.rooms, room@, id@));
                        }
                    }
                }
                None
            }
            None => {
                proof {
                    assert(!v0.subs.contains(room@)) by {
                        if v0.subs.contains(room@) {
                            let j = choose|j: int|
                                0 <= j < v0.subs.len() && v0.subs[j] == room@;
                            assert(v0.rooms[j].name == room@);
                        }
                    }
                }
                let mut members: Vec<SessionID> = Vec::new();
                members.push(id.clone());
                self.rooms.push(Room { name: room.clone(), members });
                let _fresh = self.hub.subscribe_room(room);
                proof {
                    assert(seq_views(self.rooms@[v0.rooms.len() as int].members@) =~= seq![id@]);
                    assert(self@.rooms =~= add_member(v0.rooms, room@, id@));
                    assert(self@.subs =~= insert_unique(v0.subs, room@));
                }
                Some(room.clone())
            }
        }
    }

    /// Handles `Connect`: registers the session, joins it to the default
    /// room, and returns the hub effects — the channel to subscribe when
    /// this process had no member of the default room yet, and the
    /// membership-index addition carrying the display name.
    pub fn connect(&mut self, id: SessionID, name: String) -> (eff: ConnectEffect)
        requires
            old(self).inv(),
        ensures
            final(self).inv(),
            final(self)@ == spec_connect(old(self)@, id@),
            final(self)@.sessions.contains(id@),
            (eff.subscribe matches Some(r) && r@ == default_room())
                <==> !old(self)@.subs.contains(default_room()),
            eff.change@ == (ChangeReqView {
                id: id@,
                name: Some(name@),
                room: default_room(),
                kind: RoomChangeType::Add,
            }),
    {
        let ghost v0 = self@;
        if !self.session_exists(&id) {
            self.sessions.push(id.clone());
            proof {
                assert(self@.sessions =~= insert_unique(v0.sessions, id@));
                assert(self@.sessions[v0.sessions.len() as int] == id@);
                assert(self@.sessions.contains(id@));
                assert(self@.sessions.no_duplicates());
                assert(forall|i: int, j: int|
                    0 <= i < self@.rooms.len() && 0 <= j < self@.rooms[i].members.len()
                        ==> self@.sessions.contains(#[trigger] self@.rooms[i].members[j])) by {
                    assert forall|s: Seq<char>|
                        v0.sessions.contains(s) implies self@.sessions.contains(s) by {
                        let j = choose|j: int| 0 <= j < v0.sessions.len() && v0.sessions[j] == s;
                        assert(self@.sessions[j] == s);
                    }
                }
            }
        } else {
            proof {
                assert(insert_unique(v0.sessions, id@) == v0.sessions);
            }
        }
        assert(self@.sessions.contains(id@));
        let main = default_room_string();
        let subscribe = self.join_local(&main, &id);
        proof {
            assert(self@ =~= spec_connect(v0, id@));
        }
        let change = ChangeRoomReq {
            id,
            name: Some(name),
            room: default_room_string(),
            kind: RoomChangeType::Add,
        };
        ConnectEffect { subscribe, change }
    }

    /// Handles `Join`: a no-op for an unknown session; otherwise joins the
    /// session to `room` locally and returns the hub effects — the channel
    /// to subscribe when this was the first local member, and the
    /// membership-index addition.
    pub fn join_room(&mut self, session_id: SessionID, room: RoomID) -> (eff: JoinEffect)
        requires
            old(self).inv(),
        ensures
            final(self).inv(),
            final(self)@ == spec_join(old(self)@, session_id@, room@),
            !old(self)@.sessions.contains(session_id@)
                ==> eff.subscribe is None && eff.change is None,
            old(self)@.sessions.contains(session_id@)
                ==> (eff.change matches Some(c) && c@ == (ChangeReqView {
                    id: session_id@,
                    name: None,
                    room: room@,
                    kind: RoomChangeType::Add,
                })),
            (eff.subscribe matches Some(r) && r@ == room@)
                <==> (old(self)@.sessions.contains(session_id@)
                    && !old(self)@.subs.contains(room@)),
    {
        if !self.session_exists(&session_id) {
            return JoinEffect { subscribe: None, change: None };
        }
        let subscribe = self.join_local(&room, &session_id);
        let change = ChangeRoomReq { id: session_id, name: None, room, kind: RoomChangeType::Add };
        JoinEffect { subscribe, change: Some(change) }
    }

    /// Handles `Quit`: a no-op for an unknown session; otherwise removes the
    /// session from `room` locally — releasing the room's subscription when
    /// it empties — and returns the membership-index deletion to apply.
    pub fn quit_room(&mut self, session_id: SessionID, room: RoomID) -> (eff: QuitEffect)
        requires
            old(self).inv(),
        ensures
            final(self).inv(),
            final(self)@ == spec_quit(old(self)@, session_id@, room@),
            !old(self)@.sessions.contains(session_id@)
                ==> eff.unsubscribe is None && eff.change is None,
            old(self)@.sessions.contains(session_id@)
                ==> (eff.change matches Some(c) && c@ == del_req(session_id@, room@)),
            (eff.unsubscribe matches Some(r) && r@ == room@)
                <==> (old(self)@.sessions.contains(session_id@)
                    && quit_empties(old(self)@.rooms, room@, session_id@)),
    {
        proof {
            lemma_wf_remove_member(old(self)@, room@, session_id@);
        }
        if !self.session_exists(&session_id) {
            return QuitEffect { unsubscribe: None, change: None };
        }
        let ghost v0 = self@;
        let mut unsubscribe: Option<RoomID> = None;
        match self.find_room(&room) {
            Some(i) => {
                proof {
                    lemma_room_index_unique(v0.rooms, room@, i as int);
                }
                match member_pos(&self.rooms[i].members, &session_id) {
                    Some(j) => {
                        proof {
                            assert(v0.rooms[i as int].members[j as int] == session_id@);
                            assert(v0.rooms[i as int].members.contains(session_id@));
                        }
                        if self.rooms[i].members.len() == 1 {
                            let gone = self.rooms.remove(i);
                            proof {
                                assert(gone.name@ == room@);
                                assert(self@.rooms =~= v0.rooms.remove(i as int));
                                assert(self@.rooms =~= remove_member(v0.rooms, room@, session_id@));
                                assert(room_names(v0.rooms)[i as int] == room@);
                                assert(forall|k: int|
                                    0 <= k < i ==> room_names(v0.rooms)[k] != room@);
                            }
                            let _had = self.hub.unsubscribe_room(&gone.name);
                            unsubscribe = Some(gone.name);
                            proof {
                                lemma_seq_remove_first_at(v0.subs, room@, i as int);
                                assert(self@.subs =~= room_names(v0.rooms).remove(i as int));
                                assert(room_names(v0.rooms.remove(i as int))
                                    =~= room_names(v0.rooms).remove(i as int));
                            }
                        } else {
                            self.rooms[i].members.remove(j);
                            proof {
                                lemma_seq_remove_first_at(
                                    v0.rooms[i as int].members,
                                    session_id@,
                                    j as int,
                                );
                                assert(seq_views(self.rooms@[i as int].members@)
                                    =~= v0.rooms[i as int].members.remove(j as int));
                                assert(self@.rooms =~= remove_member(v0.rooms, room@, session_id@));
                                assert(room_names(self@.rooms) =~= room_names(v0.rooms));
                                assert(self@.subs == v0.subs);
                            }
                        }
                    }
                    None => {
                        proof {
                            assert(remove_member(v0.rooms, room@, session_id@) =~= v0.rooms);
                        }
                    }
                }
            }
            None => {
                proof {
                    assert(remove_member(v0.rooms, room@, session_id@) =~= v0.rooms);
                }
            }
        }
        proof {
            assert(self@ =~= spec_quit(v0, session_id@, room@));
        }
        let change = ChangeRoomReq { id: session_id, name: None, room, kind: RoomChangeType::Del };
        QuitEffect { unsubscribe, change: Some(change) }
    }

    /// Handles `Disconnect`: a no-op for an unknown session; otherwise
    /// unregisters the session, removes it from every room it was in —
    /// releasing the subscription of each room that empties — and returns
    /// the rooms it had been in together with the membership-index
    /// deletions.
    pub fn disconnect(&mut self, session_id: &SessionID) -> (eff: DisconnectEffect)
        requires
            old(self).inv(),
        ensures
            final(self).inv(),
            final(self)@ == spec_disconnect(old(self)@, session_id@),
            old(self)@.sessions.contains(session_id@) ==> {
                &&& seq_views(eff.rooms@) == rooms_with(old(self)@.rooms, session_id@)
                &&& eff.changes@.map_values(|c: ChangeRoomReq| c@) == del_reqs_for(
                    rooms_with(old(self)@.rooms, session_id@),
                    session_id@,
                )
                &&& seq_views(eff.unsubscribes@) == emptied_rooms(old(self)@.rooms, session_id@)
            },
            !old(self)@.sessions.contains(session_id@) ==> {
                &&& eff.rooms@.len() == 0
                &&& eff.changes@.len() == 0
                &&& eff.unsubscribes@.len() == 0
            },
    {
        let mut eff_rooms: Vec<RoomID> = Vec::new();
        let mut changes: Vec<ChangeRoomReq> = Vec::new();
        let mut unsubscribes: Vec<RoomID> = Vec::new();
        if !self.session_exists(session_id) {
            return DisconnectEffect { rooms: eff_rooms, changes, unsubscribes };
        }
        let ghost v0 = self@;
        let ghost orig = v0.rooms;
        let ghost mut k: int = 0;
        let mut i: usize = 0;
        proof {
            assert(orig.take(0) =~= Seq::<RoomView>::empty());
            assert(orig.skip(0) =~= orig);
            assert(room_views(self.rooms@) =~= strip_all(orig.take(0), session_id@) + orig.skip(0));
            assert(seq_views(eff_rooms@) =~= rooms_with(orig.take(0), session_id@));
            assert(changes@.map_values(|c: ChangeRoomReq| c@) =~= del_reqs_for(
                rooms_with(orig.take(0), session_id@),
                session_id@,
            ));
            assert(seq_views(unsubscribes@) =~= emptied_rooms(orig.take(0), session_id@));
        }
        while i < self.rooms.len()
            invariant
                0 <= k <= orig.len(),
                i == strip_all(orig.take(k), session_id@).len(),
                self@.rooms == strip_all(orig.take(k), session_id@) + orig.skip(k),
                seq_views(eff_rooms@) == rooms_with(orig.take(k), session_id@),
                changes@.map_values(|c: ChangeRoomReq| c@) == del_reqs_for(
                    rooms_with(orig.take(k), session_id@),
                    session_id@,
                ),
                seq_views(unsubscribes@) == emptied_rooms(orig.take(k), session_id@),
                self@.sessions == v0.sessions,
                wf(self@),
                wf(v0),
                v0.sessions.contains(session_id@),
                orig == v0.rooms,
            decreases orig.len() - k,
        {
            proof {
                assert(k < orig.len()) by {
                    if k == orig.len() {
                        assert(orig.skip(k) =~= Seq::<RoomView>::empty());
                        assert(self@.rooms.len() == i);
                    }
                }
                assert(orig.skip(k)[0] == orig[k]);
                assert(self@.rooms[i as int] == orig[k]);
                assert(orig.take(k + 1).drop_last() =~= orig.take(k));
                assert(orig.take(k + 1).last() == orig[k]);
            }
            let ghost pre = self@;
            let ghost strip_prefix = strip_all(orig.take(k), session_id@);
            match member_pos(&self.rooms[i].members, session_id) {
                Some(j) => {
                    proof {
                        assert(orig[k].members[j as int] == session_id@);
                        assert(orig[k].members.contains(session_id@));
                    }
                    let name = self.rooms[i].name.clone();
                    let ghost changes0 = changes@;
                    eff_rooms.push(name.clone());
                    changes.push(ChangeRoomReq {
                        id: session_id.clone(),
                        name: None,
                        room: name.clone(),
                        kind: RoomChangeType::Del,
                    });
                    proof {
                        assert(name@ == orig[k].name);
                        assert(rooms_with(orig.take(k + 1), session_id@) =~= rooms_with(
                            orig.take(k),
                            session_id@,
                        ).push(orig[k].name));
                        assert(seq_views(eff_rooms@) =~= rooms_with(orig.take(k + 1), session_id@));
                        assert(changes@.map_values(|c: ChangeRoomReq| c@) =~= changes0.map_values(
                            |c: ChangeRoomReq| c@,
                        ).push(del_req(session_id@, orig[k].name)));
                        assert(del_reqs_for(rooms_with(orig.take(k + 1), session_id@), session_id@)
                            =~= changes0.map_values(|c: ChangeRoomReq| c@).push(
                            del_req(session_id@, orig[k].name),
                        ));
                    }
                    if self.rooms[i].members.len() == 1 {
                        self.rooms.remove(i);
                        proof {
                            assert(room_views(self.rooms@) =~= pre.rooms.remove(i as int));
                            assert(strip_room(orig[k], session_id@) =~= Seq::<RoomView>::empty());
                            assert(self@.rooms =~= strip_all(orig.take(k + 1), session_id@)
                                + orig.skip(k + 1)) by {
                                assert(pre.rooms.remove(i as int) =~= strip_prefix + orig.skip(
                                    k + 1,
                                )) by {
                                    assert(orig.skip(k).drop_first() =~= orig.skip(k + 1));
                                }
                            }
                            assert(room_names(pre.rooms)[i as int] == orig[k].name);
                            assert(forall|p: int|
                                0 <= p < i ==> room_names(pre.rooms)[p] != orig[k].name);
                        }
                        let _had = self.hub.unsubscribe_room(&name);
                        unsubscribes.push(name);
                        proof {
                            lemma_seq_remove_first_at(pre.subs, orig[k].name, i as int);
                            assert(self@.subs =~= room_names(pre.rooms).remove(i as int));
                            assert(self@.subs =~= room_names(self@.rooms)) by {
                                assert(forall|p: int|
                                    0 <= p < self@.rooms.len() ==> room_names(self@.rooms)[p]
                                        == self@.rooms[p].name);
                                assert(forall|p: int|
                                    0 <= p < pre.rooms.len() - 1 ==> room_names(
                                        pre.rooms.remove(i as int),
                                    )[p] == pre.rooms.remove(i as int)[p].name);
                            }
                            assert(seq_views(unsubscribes@) =~= emptied_rooms(
                                orig.take(k + 1),
                                session_id@,
                            ));
                            k = k + 1;
                        }
                    } else {
                        self.rooms[i].members.remove(j);
                        proof {
                            lemma_seq_remove_first_at(orig[k].members, session_id@, j as int);
                            assert(seq_views(self.rooms@[i as int].members@) =~= orig[
                                k
                            ].members.remove(j as int));
                            assert(self@.rooms[i as int] =~= RoomView {
                                name: orig[k].name,
                                members: seq_remove_first(orig[k].members, session_id@),
                            });
                            assert(strip_room(orig[k], session_id@) =~= seq![self@.rooms[i as int]]);
                            assert(self@.rooms =~= strip_all(orig.take(k + 1), session_id@)
                                + orig.skip(k + 1)) by {
                                assert(self@.rooms =~= pre.rooms.update(i as int, self@.rooms[i as int]));
                                assert(orig.skip(k).drop_first() =~= orig.skip(k + 1));
                            }
                            assert(seq_views(unsubscribes@) =~= emptied_rooms(
                                orig.take(k + 1),
                                session_id@,
                            ));
                            assert(self@.subs == pre.subs);
                            assert(self@.subs =~= room_names(self@.rooms)) by {
                                assert(forall|p: int|
                                    0 <= p < self@.rooms.len() ==> room_names(self@.rooms)[p]
                                        == self@.rooms[p].name);
                                assert(forall|p: int|
                                    0 <= p < pre.rooms.len() ==> room_names(pre.rooms)[p]
                                        == pre.rooms[p].name);
                            }
                            k = k + 1;
                        }
                        i += 1;
                    }
                    proof {
                        lemma_wf_concat_strip(v0, k, session_id@, self@);
                    }
                }
                None => {
                    proof {
                        assert(!orig[k].members.contains(session_id@));
                        assert(strip_room(orig[k], session_id@) =~= seq![orig[k]]);
                        assert(self@.rooms =~= strip_all(orig.take(k + 1), session_id@)
                            + orig.skip(k + 1)) by {
                            assert(orig.skip(k).drop_first() =~= orig.skip(k + 1));
                        }
                        assert(seq_views(eff_rooms@) =~= rooms_with(orig.take(k + 1), session_id@));
                        assert(changes@.map_values(|c: ChangeRoomReq| c@) =~= del_reqs_for(
                            rooms_with(orig.take(k + 1), session_id@),
                            session_id@,
                        ));
                        assert(seq_views(unsubscribes@) =~= emptied_rooms(
                            orig.take(k + 1),
                            session_id@,
                        ));
                        k = k + 1;
                    }
                    i += 1;
                }
            }
        }
        proof {
            assert(k == orig.len()) by {
                if k < orig.len() {
                    assert(orig.skip(k)[0] == orig[k]);
                    assert(self@.rooms.len() > i);
                }
            }
            assert(orig.take(k) =~= orig);
        }
        // unregister the session itself
        match member_pos(&self.sessions, session_id) {
            Some(p) => {
                let ghost pre = self@;
                self.sessions.remove(p);
                proof {
                    assert(seq_views(self.sessions@) =~= pre.sessions.remove(p as int));
                    lemma_seq_remove_first_at(pre.sessions, session_id@, p as int);
                }
            }
            None => {
                proof {
                    assert(false);
                }
            }
        }
        proof {
            lemma_strip_all_props(orig, session_id@);
            lemma_seq_remove_first_no_duplicates(v0.sessions, session_id@);
            assert(self@.sessions.no_duplicates()) by {
                assert(self@.sessions == seq_remove_first(v0.sessions, session_id@));
            }
            assert(forall|p: int, q: int|
                0 <= p < self@.rooms.len() && 0 <= q < self@.rooms[p].members.len()
                    ==> self@.sessions.contains(#[trigger] self@.rooms[p].members[q])) by {
                assert forall|p: int, q: int|
                    0 <= p < self@.rooms.len() && 0 <= q < self@.rooms[p].members.len()
                        implies self@.sessions.contains(
                    #[trigger] self@.rooms[p].members[q],
                ) by {
                    let y = self@.rooms[p].members[q];
                    assert(self@.rooms[p].members.contains(y));
                    assert(self@.rooms == strip_all(orig, session_id@));
                    assert(y != session_id@);
                    let j = choose|j: int|
                        0 <= j < orig.len() && #[trigger] orig[j].members.contains(y);
                    assert(v0.sessions.contains(y));
                }
            }
            assert(self@ =~= spec_disconnect(v0, session_id@));
        }
        DisconnectEffect { rooms: eff_rooms, changes, unsubscribes }
    }

    /// Handles `Name`: a no-op for an unknown session; otherwise returns
    /// the membership-index mutation that renames the session everywhere
    /// (the room field of a rename is empty).  Local state is untouched —
    /// display names live only in the shared index.
    pub fn change_name(&self, session_id: SessionID, name: String) -> (change: Option<
        ChangeRoomReq,
    >)
        ensures
            !self@.sessions.contains(session_id@) ==> change is None,
            self@.sessions.contains(session_id@) ==> (change matches Some(c) && c@
                == (ChangeReqView {
                id: session_id@,
                name: Some(name@),
                room: Seq::<char>::empty(),
                kind: RoomChangeType::NameChange,
            })),
    {
        if !self.session_exists(&session_id) {
            return None;
        }
        Some(ChangeRoomReq {
            id: session_id,
            name: Some(name),
            room: String::new(),
            kind: RoomChangeType::NameChange,
        })
    }

    /// Handles `GetRoomsBySessionID`: builds the retrieval request the hub
    /// must run against the shared index.
    pub fn get_rooms_by_session_id(&self, session_id: SessionID) -> (req: RetrieveRroomsReq)
        ensures
            req.kind == RetrieveRroomsReqType::SessionID,
            req.id == session_id,
    {
        RetrieveRroomsReq::new(RetrieveRroomsReqType::SessionID, session_id)
    }

    /// Handles `GetRoomsByRoomID`: builds the retrieval request the hub
    /// must run against the shared index.
    pub fn get_rooms_by_room_id(&self, room_id: String) -> (req: RetrieveRroomsReq)
        ensures
            req.kind == RetrieveRroomsReqType::RoomID,
            req.id == room_id,
    {
        RetrieveRroomsReq::new(RetrieveRroomsReqType::RoomID, room_id)
    }

    /// Fan-out of one broker-delivered envelope: the local members of
    /// `room` the payload must be forwarded to, which is every member
    /// except `from`, the sender.
    pub fn recipients(&self, room: &RoomID, from: &SessionID) -> (res: Vec<SessionID>)
        requires
            self.inv(),
        ensures
            seq_views(res@) == spec_recipients(self@, room@, from@),
    {
        let mut out: Vec<SessionID> = Vec::new();
        match self.find_room(room) {
            Some(i) => {
                proof {
                    lemma_room_index_unique(self@.rooms, room@, i as int);
                }
                let ghost ms = self@.rooms[i as int].members;
                let members = &self.rooms[i].members;
                let mut j: usize = 0;
                proof {
                    assert(ms.take(0) =~= Seq::<Seq<char>>::empty());
                    assert(seq_views(out@) =~= filter_out(ms.take(0), from@));
                }
                while j < members.len()
                    invariant
                        j <= members.len(),
                        seq_views(members@) == ms,
                        seq_views(out@) == filter_out(ms.take(j as int), from@),
                    decreases members.len() - j,
                {
                    proof {
                        assert(ms.take(j + 1).drop_last() =~= ms.take(j as int));
                        assert(ms.take(j + 1).last() == ms[j as int]);
                    }
                    if !(members[j] == *from) {
                        out.push(members[j].clone());
                        proof {
                            assert(ms[j as int] == seq_views(members@)[j as int]);
                            assert(seq_views(out@) =~= filter_out(ms.take(j + 1), from@));
                        }
                    } else {
                        proof {
                            assert(ms[j as int] == from@);
                            assert(seq_views(out@) =~= filter_out(ms.take(j + 1), from@));
                        }
                    }
                    j += 1;
                }
                proof {
                    assert(ms.take(members@.len() as int) =~= ms);
                }
                out
            }
            None => {
                proof {
                    assert(seq_views(out@) =~= Seq::<Seq<char>>::empty());
                }
                out
            }
        }
    }

    /// Fan-out decision for one hub-delivered envelope, as the run loop
    /// performs it: forward the content to every local member of the
    /// envelope's room whose id differs from the sender's.
    pub fn handle_hub_message(&self, message: &MessageForHub) -> (res: Vec<SessionID>)
        requires
            self.inv(),
        ensures
            seq_views(res@) == spec_recipients(self@, message.room@, message.id@),
    {
        self.recipients(&message.room, &message.id)
    }

    /// Handles `Close`: the membership-index deletions of a graceful
    /// shutdown, one per `(room, member)` pair of the local snapshot.
    pub fn close(&self) -> (changes: Vec<ChangeRoomReq>)
        ensures
            changes@.map_values(|c: ChangeRoomReq| c@) == clean_reqs(self@.rooms),
    {
        let mut changes: Vec<ChangeRoomReq> = Vec::new();
        let ghost rs = self@.rooms;
        let mut i: usize = 0;
        proof {
            assert(rs.take(0) =~= Seq::<RoomView>::empty());
            assert(changes@.map_values(|c: ChangeRoomReq| c@) =~= clean_reqs(rs.take(0)));
        }
        while i < self.rooms.len()
            invariant
                i <= self.rooms.len(),
                room_views(self.rooms@) == rs,
                changes@.map_values(|c: ChangeRoomReq| c@) == clean_reqs(rs.take(i as int)),
            decreases self.rooms.len() - i,
        {
            let ghost r = rs[i as int];
            let mut j: usize = 0;
            proof {
                assert(r.members.take(0) =~= Seq::<Seq<char>>::empty());
                assert(r.members.take(0).map_values(|m: Seq<char>| del_req(m, r.name)) =~= Seq::<
                    ChangeReqView,
                >::empty());
                assert(changes@.map_values(|c: ChangeRoomReq| c@) =~= clean_reqs(rs.take(i as int))
                    + r.members.take(0).map_values(|m: Seq<char>| del_req(m, r.name)));
            }
            while j < self.rooms[i].members.len()
                invariant
                    i < self.rooms.len(),
                    j <= self.rooms[i as int].members.len(),
                    room_views(self.rooms@) == rs,
                    r == rs[i as int],
                    changes@.map_values(|c: ChangeRoomReq| c@) == clean_reqs(rs.take(i as int))
                        + r.members.take(j as int).map_values(|m: Seq<char>| del_req(m, r.name)),
                decreases self.rooms[i as int].members.len() - j,
            {
                let ghost changes0 = changes@;
                changes.push(ChangeRoomReq {
                    id: self.rooms[i].members[j].clone(),
                    name: None,
                    room: self.rooms[i].name.clone(),
                    kind: RoomChangeType::Del,
                });
                proof {
                    assert(r.members[j as int] == seq_views(self.rooms@[i as int].members@)[
                        j as int
                    ]);
                    assert(changes@.map_values(|c: ChangeRoomReq| c@) =~= changes0.map_values(
                        |c: ChangeRoomReq| c@,
                    ).push(del_req(r.members[j as int], r.name)));
                    assert(r.members.take(j + 1).drop_last() =~= r.members.take(j as int));
                    assert(r.members.take(j + 1).last() == r.members[j as int]);
                    assert(r.members.take(j + 1).map_values(|m: Seq<char>| del_req(m, r.name))
                        =~= r.members.take(j as int).map_values(|m: Seq<char>| del_req(m, r.name))
                        .push(del_req(r.members[j as int], r.name)));
                }
                j += 1;
            }
            proof {
                assert(r.members.take(r.members.len() as int) =~= r.members);
                assert(rs.take(i + 1).drop_last() =~= rs.take(i as int));
                assert(rs.take(i + 1).last() == rs[i as int]);
                assert(room_del_reqs(r) == r.members.map_values(|m: Seq<char>| del_req(m, r.name)));
                assert(changes@.map_values(|c: ChangeRoomReq| c@) =~= clean_reqs(rs.take(i + 1)));
            }
            i += 1;
        }
        proof {
            assert(rs.take(self.rooms@.len() as int) =~= rs);
        }
        changes
    }
}

/// A command received by the [`ChatServer`].  Replies travel back to the
/// issuing session loop: `Connect` answers with the session id,
/// `Disconnect` with the rooms the session had been in, the two retrievals
/// with the shared index's answer, everything else with unit.
#[allow(inconsistent_fields)]
pub enum Command {
    Connect { id: SessionID, name: String },
    Disconnect { session_id: SessionID },
    GetRoomsBySessionID { session_id: SessionID },
    GetRoomsByRoomID { room_id: String },
    Join { conn: SessionID, room: RoomID },
    Quit { conn: SessionID, room: RoomID },
    Name { conn: SessionID, name: String },
    Message { room: String, id: SessionID, msg: Msg },
    Close,
}

/// Mathematical view of a [`Command`].
#[verifier::ext_equal]
pub ghost enum CommandView {
    Connect { id: Seq<char>, name: Seq<char> },
    Disconnect { session_id: Seq<char> },
    GetRoomsBySessionID { session_id: Seq<char> },
    GetRoomsByRoomID { room_id: Seq<char> },
    Join { conn: Seq<char>, room: Seq<char> },
    Quit { conn: Seq<char>, room: Seq<char> },
    Name { conn: Seq<char>, name: Seq<char> },
    Message { room: Seq<char>, id: Seq<char>, msg: Seq<char> },
    Close,
}

impl View for Command {
    type V = CommandView;

    open spec fn view(&self) -> CommandView {
        match self {
            Command::Connect { id, name } => CommandView::Connect { id: id@, name: name@ },
            Command::Disconnect { session_id } => CommandView::Disconnect {
                session_id: session_id@,
            },
            Command::GetRoomsBySessionID { session_id } => CommandView::GetRoomsBySessionID {
                session_id: session_id@,
            },
            Command::GetRoomsByRoomID { room_id } => CommandView::GetRoomsByRoomID {
                room_id: room_id@,
            },
            Command::Join { conn, room } => CommandView::Join { conn: conn@, room: room@ },
            Command::Quit { conn, room } => CommandView::Quit { conn: conn@, room: room@ },
            Command::Name { conn, name } => CommandView::Name { conn: conn@, name: name@ },
            Command::Message { room, id, msg } => CommandView::Message {
                room: room@,
                id: id@,
                msg: msg@,
            },
            Command::Close => CommandView::Close,
        }
    }
}

/// The actor state after one command.  Only `Connect`, `Disconnect`,
/// `Join` and `Quit` touch local state; the remaining commands only
/// produce hub effects.
pub open spec fn spec_step(v: ServerView, c: CommandView) -> ServerView {
    match c {
        CommandView::Connect { id, name } => spec_connect(v, id),
        CommandView::Disconnect { session_id } => spec_disconnect(v, session_id),
        CommandView::Join { conn, room } => spec_join(v, conn, room),
        CommandView::Quit { conn, room } => spec_quit(v, conn, room),
        _ => v,
    }
}

/// The effect of one command: what the run loop must perform against the
/// hub, and the reply payload where one is computed locally.
#[allow(inconsistent_fields)]
pub enum CommandEffect {
    /// Reply to `Connect`: the session id, plus the hub effects.
    Connected { reply: SessionID, effect: ConnectEffect },
    /// Reply to `Disconnect` is `effect.rooms`; the other two lists are
    /// the hub effects.
    Disconnected { effect: DisconnectEffect },
    /// A retrieval request the hub must run; its decoded answer is the
    /// reply.
    Retrieve { req: RetrieveRroomsReq },
    Joined { effect: JoinEffect },
    Quitted { effect: QuitEffect },
    /// The rename mutation to apply, if the session was known.
    Renamed { change: Option<ChangeRoomReq> },
    /// The envelope to publish on the room's broker channel.
    Publish { message: MessageForHub },
    /// The shutdown deletions; after performing them the run loop exits.
    Closed { changes: Vec<ChangeRoomReq> },
}

impl ChatServer {
    /// One turn of the actor's run loop for a command: applies the local
    /// state change and returns the effects and reply.  The state change
    /// is exactly [`spec_step`]; the effect details are those of the
    /// per-command handlers.
    pub fn handle_command(&mut self, cmd: Command) -> (res: CommandEffect)
        requires
            old(self).inv(),
        ensures
            final(self).inv(),
            final(self)@ == spec_step(old(self)@, cmd@),
            match cmd@ {
                CommandView::Connect { id, name } => res matches CommandEffect::Connected {
                    reply,
                    effect,
                } && reply@ == id && ((effect.subscribe matches Some(r) && r@ == default_room())
                    <==> !old(self)@.subs.contains(default_room())) && effect.change@
                    == (ChangeReqView {
                    id: id,
                    name: Some(name),
                    room: default_room(),
                    kind: RoomChangeType::Add,
                }),
                CommandView::Disconnect { session_id } => res
                    matches CommandEffect::Disconnected { effect } && (old(
                    self,
                )@.sessions.contains(session_id) ==> {
                    &&& seq_views(effect.rooms@) == rooms_with(old(self)@.rooms, session_id)
                    &&& effect.changes@.map_values(|c: ChangeRoomReq| c@) == del_reqs_for(
                        rooms_with(old(self)@.rooms, session_id),
                        session_id,
                    )
                    &&& seq_views(effect.unsubscribes@) == emptied_rooms(
                        old(self)@.rooms,
                        session_id,
                    )
                }) && (!old(self)@.sessions.contains(session_id) ==> effect.rooms@.len() == 0
                    && effect.changes@.len() == 0 && effect.unsubscribes@.len() == 0),
                CommandView::GetRoomsBySessionID { session_id } => res
                    matches CommandEffect::Retrieve { req } && req.kind
                    == RetrieveRroomsReqType::SessionID && req.id@ == session_id,
                CommandView::GetRoomsByRoomID { room_id } => res matches CommandEffect::Retrieve {
                    req,
                } && req.kind == RetrieveRroomsReqType::RoomID && req.id@ == room_id,
                CommandView::Join { conn, room } => res matches CommandEffect::Joined { effect }
                    && (!old(self)@.sessions.contains(conn) ==> effect.subscribe is None
                    && effect.change is None) && (old(self)@.sessions.contains(conn)
                    ==> (effect.change matches Some(c) && c@ == (ChangeReqView {
                    id: conn,
                    name: None,
                    room: room,
                    kind: RoomChangeType::Add,
                }))) && ((effect.subscribe matches Some(r) && r@ == room) <==> (old(
                    self,
                )@.sessions.contains(conn) && !old(self)@.subs.contains(room))),
                CommandView::Quit { conn, room } => res matches CommandEffect::Quitted { effect }
                    && (!old(self)@.sessions.contains(conn) ==> effect.unsubscribe is None
                    && effect.change is None) && (old(self)@.sessions.contains(conn)
                    ==> (effect.change matches Some(c) && c@ == del_req(conn, room))) && ((
                effect.unsubscribe matches Some(r)
                    && r@ == room) <==> (old(self)@.sessions.contains(conn) && quit_empties(
                    old(self)@.rooms,
                    room,
                    conn,
                ))),
                CommandView::Name { conn, name } => res matches CommandEffect::Renamed { change }
                    && (!old(self)@.sessions.contains(conn) ==> change is None) && (old(
                    self,
                )@.sessions.contains(conn) ==> (change matches Some(c) && c@ == (ChangeReqView {
                    id: conn,
                    name: Some(name),
                    room: Seq::<char>::empty(),
                    kind: RoomChangeType::NameChange,
                }))),
                CommandView::Message { room, id, msg } => res matches CommandEffect::Publish {
                    message,
                } && message@ == (crate::hub::MessageForHubView { room, id, content: msg }),
                CommandView::Close => res matches CommandEffect::Closed { changes } && changes@
                    .map_values(|c: ChangeRoomReq| c@) == clean_reqs(old(self)@.rooms),
            },
    {
        match cmd {
            Command::Connect { id, name } => {
                let reply = id.clone();
                let effect = self.connect(id, name);
                CommandEffect::Connected { reply, effect }
            }
            Command::Disconnect { session_id } => {
                let effect = self.disconnect(&session_id);
                CommandEffect::Disconnected { effect }
            }
            Command::GetRoomsBySessionID { session_id } => {
                let req = self.get_rooms_by_session_id(session_id);
                CommandEffect::Retrieve { req }
            }
            Command::GetRoomsByRoomID { room_id } => {
                let req = self.get_rooms_by_room_id(room_id);
                CommandEffect::Retrieve { req }
            }
            Command::Join { conn, room } => {
                let effect = self.join_room(conn, room);
                CommandEffect::Joined { effect }
            }
            Command::Quit { conn, room } => {
                let effect = self.quit_room(conn, room);
                CommandEffect::Quitted { effect }
            }
            Command::Name { conn, name } => {
                let change = self.change_name(conn, name);
                CommandEffect::Renamed { change }
            }
            Command::Message { room, id, msg } => {
                let message = MessageForHub { room, id, content: msg };
                CommandEffect::Publish { message }
            }
            Command::Close => {
                let changes = self.close();
                CommandEffect::Closed { changes }
            }
        }
    }
}

/// After adding member `id` to `room`, some room named `room` has `id`
/// among its members.
pub proof fn lemma_add_member_has(rs: Seq<RoomView>, room: Seq<char>, id: Seq<char>)
    ensures
        exists|j: int|
            0 <= j < add_member(rs, room, id).len() && (#[trigger] add_member(rs, room, id)[j]).name
                == room && add_member(rs, room, id)[j].members.contains(id),
{
    let rs2 = add_member(rs, room, id);
    let i = room_index(rs, room);
    if i == -1 {
        assert(rs2[rs.len() as int].name == room);
        assert(rs2[rs.len() as int].members[0] == id);
        assert(rs2[rs.len() as int].members.contains(id));
    } else if rs[i].members.contains(id) {
        assert(rs2[i].name == room && rs2[i].members.contains(id));
    } else {
        assert(rs2[i].members[rs[i].members.len() as int] == id);
        assert(rs2[i].name == room && rs2[i].members.contains(id));
    }
}

/// `Connect` preserves well-formedness, and afterwards the session is
/// registered and is a local member of the default room.
pub proof fn lemma_wf_connect(v: ServerView, id: Seq<char>)
    requires
        wf(v),
    ensures
        wf(spec_connect(v, id)),
        spec_connect(v, id).sessions.contains(id),
        exists|j: int|
            0 <= j < spec_connect(v, id).rooms.len() && (#[trigger] spec_connect(v, id).rooms[j])
                .name == default_room() && spec_connect(v, id).rooms[j].members.contains(id),
{
    let v1 = ServerView { sessions: insert_unique(v.sessions, id), rooms: v.rooms, subs: v.subs };
    assert(wf(v1)) by {
        if !v.sessions.contains(id) {
            assert(v1.sessions =~= v.sessions.push(id));
            assert forall|s: Seq<char>| v.sessions.contains(s) implies v1.sessions.contains(s) by {
                let j = choose|j: int| 0 <= j < v.sessions.len() && v.sessions[j] == s;
                assert(v1.sessions[j] == s);
            }
        }
    }
    assert(v1.sessions.contains(id)) by {
        if !v.sessions.contains(id) {
            assert(v1.sessions[v.sessions.len() as int] == id);
        }
    }
    lemma_wf_add_member(v1, default_room(), id);
    lemma_add_member_has(v.rooms, default_room(), id);
    assert(spec_connect(v, id) =~= ServerView {
        sessions: v1.sessions,
        rooms: add_member(v1.rooms, default_room(), id),
        subs: insert_unique(v1.subs, default_room()),
    });
}

/// `Join` preserves well-formedness.
pub proof fn lemma_wf_join(v: ServerView, id: Seq<char>, room: Seq<char>)
    requires
        wf(v),
    ensures
        wf(spec_join(v, id, room)),
{
    if v.sessions.contains(id) {
        lemma_wf_add_member(v, room, id);
    }
}

/// `Quit` preserves well-formedness.
pub proof fn lemma_wf_quit(v: ServerView, id: Seq<char>, room: Seq<char>)
    requires
        wf(v),
    ensures
        wf(spec_quit(v, id, room)),
{
    if v.sessions.contains(id) {
        lemma_wf_remove_member(v, room, id);
    }
}

/// `Disconnect` preserves well-formedness, and afterwards the session is
/// neither registered nor a member of any room.
pub proof fn lemma_wf_disconnect(v: ServerView, id: Seq<char>)
    requires
        wf(v),
    ensures
        wf(spec_disconnect(v, id)),
        !spec_disconnect(v, id).sessions.contains(id),
        forall|i: int|
            0 <= i < spec_disconnect(v, id).rooms.len()
                ==> !(#[trigger] spec_disconnect(v, id).rooms[i]).members.contains(id),
{
    let v1 = spec_disconnect(v, id);
    if !v.sessions.contains(id) {
        assert(forall|i: int|
            0 <= i < v.rooms.len() ==> !(#[trigger] v.rooms[i]).members.contains(id)) by {
            assert forall|i: int|
                0 <= i < v.rooms.len() implies !(#[trigger] v.rooms[i]).members.contains(id) by {
                if v.rooms[i].members.contains(id) {
                    let j = choose|j: int|
                        0 <= j < v.rooms[i].members.len() && v.rooms[i].members[j] == id;
                    assert(v.sessions.contains(v.rooms[i].members[j]));
                }
            }
        }
    } else {
        lemma_strip_all_props(v.rooms, id);
        lemma_seq_remove_first_no_duplicates(v.sessions, id);
        assert(v1.rooms == strip_all(v.rooms, id));
        assert(forall|p: int, q: int|
            0 <= p < v1.rooms.len() && 0 <= q < v1.rooms[p].members.len()
                ==> v1.sessions.contains(#[trigger] v1.rooms[p].members[q])) by {
            assert forall|p: int, q: int|
                0 <= p < v1.rooms.len() && 0 <= q < v1.rooms[p].members.len()
                    implies v1.sessions.contains(#[trigger] v1.rooms[p].members[q]) by {
                let y = v1.rooms[p].members[q];
                assert(v1.rooms[p].members.contains(y));
                assert(y != id);
                let j = choose|j: int|
                    0 <= j < v.rooms.len() && #[trigger] v.rooms[j].members.contains(y);
                let q2 = choose|q2: int|
                    0 <= q2 < v.rooms[j].members.len() && v.rooms[j].members[q2] == y;
                assert(v.sessions.contains(v.rooms[j].members[q2]));
            }
        }
    }
}

/// Every command preserves well-formedness (the state invariants hold
/// after any sequence of commands, by induction below).
pub proof fn lemma_step_preserves_wf(v: ServerView, c: CommandView)
    requires
        wf(v),
    ensures
        wf(spec_step(v, c)),
{
    match c {
        CommandView::Connect { id, name } => lemma_wf_connect(v, id),
        CommandView::Disconnect { session_id } => lemma_wf_disconnect(v, session_id),
        CommandView::Join { conn, room } => lemma_wf_join(v, conn, room),
        CommandView::Quit { conn, room } => lemma_wf_quit(v, conn, room),
        _ => {},
    }
}

/// The actor state after a sequence of commands.
pub open spec fn run_steps(v: ServerView, cs: Seq<CommandView>) -> ServerView
    decreases cs.len(),
{
    if cs.len() == 0 {
        v
    } else {
        run_steps(spec_step(v, cs[0]), cs.drop_first())
    }
}

/// For every sequence of commands, the post-state is well-formed: session
/// ids and room names stay duplicate-free, every room member is a
/// registered session, rooms never linger empty, and the hub subscription
/// table matches the occupied rooms exactly.
pub proof fn lemma_run_preserves_wf(v: ServerView, cs: Seq<CommandView>)
    requires
        wf(v),
    ensures
        wf(run_steps(v, cs)),
    decreases cs.len(),
{
    if cs.len() > 0 {
        lemma_step_preserves_wf(v, cs[0]);
        lemma_run_preserves_wf(spec_step(v, cs[0]), cs.drop_first());
    }
}

/// The state of a freshly started actor.
pub open spec fn empty_server() -> ServerView {
    ServerView {
        sessions: Seq::empty(),
        rooms: Seq::empty(),
        subs: Seq::empty(),
    }
}

/// A well-formed state with no registered session has no room and no
/// subscription: once every `Connect` has been balanced by a
/// `Disconnect`, the local maps and the hub table are empty.
pub proof fn lemma_empty_sessions_all_empty(v: ServerView)
    requires
        wf(v),
        v.sessions.len() == 0,
    ensures
        v.rooms.len() == 0,
        v.subs.len() == 0,
{
    if v.rooms.len() > 0 {
        assert(v.rooms[0].members.len() > 0);
        assert(v.sessions.contains(v.rooms[0].members[0]));
    }
    assert(v.subs.len() == room_names(v.rooms).len());
}

/// The actor state after disconnecting each id of `ids` in turn.
pub open spec fn run_disconnects(v: ServerView, ids: Seq<Seq<char>>) -> ServerView
    decreases ids.len(),
{
    if ids.len() == 0 {
        v
    } else {
        run_disconnects(spec_disconnect(v, ids[0]), ids.drop_first())
    }
}

/// Disconnecting every registered session — in any order, with any
/// repetitions — leaves no session, no room and no subscription.
pub proof fn lemma_disconnect_all(v: ServerView, ids: Seq<Seq<char>>)
    requires
        wf(v),
        forall|s: Seq<char>| #[trigger] v.sessions.contains(s) ==> ids.contains(s),
    ensures
        wf(run_disconnects(v, ids)),
        run_disconnects(v, ids).sessions.len() == 0,
        run_disconnects(v, ids).rooms.len() == 0,
        run_disconnects(v, ids).subs.len() == 0,
    decreases ids.len(),
{
    if ids.len() == 0 {
        assert(v.sessions.len() == 0) by {
            if v.sessions.len() > 0 {
                let s0 = v.sessions[0];
                assert(v.sessions.contains(s0));
                assert(ids.contains(s0));
                let j = choose|j: int| 0 <= j < ids.len() && ids[j] == s0;
                assert(false);
            }
        }
        lemma_empty_sessions_all_empty(v);
    } else {
        let x = ids[0];
        let v1 = spec_disconnect(v, x);
        lemma_wf_disconnect(v, x);
        assert(forall|s: Seq<char>| #[trigger] v1.sessions.contains(s) ==> ids.drop_first().contains(
            s,
        )) by {
            if v.sessions.contains(x) {
                lemma_seq_remove_first_no_duplicates(v.sessions, x);
            }
            assert forall|s: Seq<char>| #[trigger] v1.sessions.contains(s) implies ids.drop_first()
                .contains(s) by {
                if v.sessions.contains(x) {
                    assert(!v1.sessions.contains(x));
                    assert(s != x);
                    assert(v.sessions.contains(s));
                } else {
                    assert(v1.sessions == v.sessions);
                    assert(v.sessions.contains(s));
                    assert(s != x);
                }
                assert(ids.contains(s));
                let j = choose|j: int| 0 <= j < ids.len() && ids[j] == s;
                assert(j >= 1);
                assert(ids.drop_first()[j - 1] == s);
                assert(ids.drop_first().contains(s));
            }
        }
        lemma_disconnect_all(v1, ids.drop_first());
    }
}

/// A balanced run drains everything: after any command sequence from the
/// empty state in which every `Connect` found its `Disconnect` — so that
/// no session remains registered — there is no room left and the hub
/// holds zero subscriptions, whatever `Join`s and `Quit`s happened in
/// between.
pub proof fn lemma_balanced_run_drains(cs: Seq<CommandView>)
    requires
        run_steps(empty_server(), cs).sessions.len() == 0,
    ensures
        run_steps(empty_server(), cs).rooms.len() == 0,
        run_steps(empty_server(), cs).subs.len() == 0,
{
    assert(wf(empty_server())) by {
        assert(room_names(empty_server().rooms) =~= Seq::<Seq<char>>::empty());
    }
    lemma_run_preserves_wf(empty_server(), cs);
    lemma_empty_sessions_all_empty(run_steps(empty_server(), cs));
}

/// Membership in a filtered member list: everyone but the excluded sender,
/// exactly.
pub proof fn lemma_filter_out_contains(ms: Seq<Seq<char>>, x: Seq<char>)
    ensures
        forall|y: Seq<char>| #[trigger]
            filter_out(ms, x).contains(y) <==> (ms.contains(y) && y != x),
    decreases ms.len(),
{
    if ms.len() > 0 {
        lemma_filter_out_contains(ms.drop_last(), x);
        let front = filter_out(ms.drop_last(), x);
        let whole = filter_out(ms, x);
        assert forall|y: Seq<char>| #[trigger] whole.contains(y) implies (ms.contains(y) && y != x) by {
            let j = choose|j: int| 0 <= j < whole.len() && whole[j] == y;
            if j < front.len() {
                assert(front[j] == y);
                assert(front.contains(y));
                let p = choose|p: int| 0 <= p < ms.drop_last().len() && ms.drop_last()[p] == y;
                assert(ms[p] == y);
            } else {
                assert(y == ms.last());
                assert(ms[ms.len() - 1] == y);
            }
        }
        assert forall|y: Seq<char>| ms.contains(y) && y != x implies #[trigger] whole.contains(y) by {
            let p = choose|p: int| 0 <= p < ms.len() && ms[p] == y;
            if p < ms.len() - 1 {
                assert(ms.drop_last()[p] == y);
                assert(ms.drop_last().contains(y));
                assert(front.contains(y));
                let q = choose|q: int| 0 <= q < front.len() && front[q] == y;
                assert(whole[q] == y);
            } else {
                assert(ms.last() == y);
                assert(whole[whole.len() - 1] == y);
            }
        }
    }
}

/// Exact fan-out of a broadcast: in a well-formed state, the recipients of
/// an envelope for `room` sent by `from` are exactly the local members of
/// `room` other than `from` — in particular the sender never receives its
/// own message back.
pub proof fn lemma_recipients_exact(v: ServerView, room: Seq<char>, from: Seq<char>)
    requires
        wf(v),
    ensures
        !spec_recipients(v, room, from).contains(from),
        forall|y: Seq<char>| #[trigger] spec_recipients(v, room, from).contains(y)
            <==> (y != from && exists|i: int|
                0 <= i < v.rooms.len() && (#[trigger] v.rooms[i]).name == room
                    && v.rooms[i].members.contains(y)),
{
    let i = room_index(v.rooms, room);
    if i == -1 {
        assert(forall|j: int| 0 <= j < v.rooms.len() ==> (#[trigger] v.rooms[j]).name != room);
    } else {
        lemma_filter_out_contains(v.rooms[i].members, from);
        assert(v.rooms[i].name == room);
        assert forall|y: Seq<char>|
            (y != from && exists|j: int|
                0 <= j < v.rooms.len() && (#[trigger] v.rooms[j]).name == room
                    && v.rooms[j].members.contains(y)) implies #[trigger] spec_recipients(
            v,
            room,
            from,
        ).contains(y) by {
            let j = choose|j: int|
                0 <= j < v.rooms.len() && (#[trigger] v.rooms[j]).name == room
                    && v.rooms[j].members.contains(y);
            lemma_room_index_unique(v.rooms, room, j);
        }
    }
}

/// Subscription exactness: in a well-formed state this process holds a
/// broker subscription for `room` exactly when some local session is a
/// member of `room`.  Hence a broadcast reaches exactly the processes
/// with at least one local member of the room.
pub proof fn lemma_subscribed_iff_occupied(v: ServerView, room: Seq<char>)
    requires
        wf(v),
    ensures
        v.subs.contains(room) <==> exists|i: int|
            0 <= i < v.rooms.len() && (#[trigger] v.rooms[i]).name == room && v.rooms[i]
                .members.len() > 0,
{
    if v.subs.contains(room) {
        let i = choose|i: int| 0 <= i < v.subs.len() && v.subs[i] == room;
        assert(v.rooms[i].name == room);
        assert(v.rooms[i].members.len() > 0);
    }
    if exists|i: int|
        0 <= i < v.rooms.len() && (#[trigger] v.rooms[i]).name == room && v.rooms[i]
            .members.len() > 0 {
        let i = choose|i: int|
            0 <= i < v.rooms.len() && (#[trigger] v.rooms[i]).name == room && v.rooms[i]
                .members.len() > 0;
        assert(v.subs[i] == room_names(v.rooms)[i]);
        assert(v.subs.contains(room));
    }
}

/// No delivery to a disconnected session: after `Disconnect` of `s`, no
/// broadcast — whatever its room and sender — lists `s` as a recipient.
pub proof fn lemma_no_delivery_after_disconnect(
    v: ServerView,
    s: Seq<char>,
    room: Seq<char>,
    from: Seq<char>,
)
    requires
        wf(v),
    ensures
        !spec_recipients(spec_disconnect(v, s), room, from).contains(s),
{
    let v1 = spec_disconnect(v, s);
    lemma_wf_disconnect(v, s);
    lemma_recipients_exact(v1, room, from);
    if spec_recipients(v1, room, from).contains(s) {
        let i = choose|i: int|
            0 <= i < v1.rooms.len() && (#[trigger] v1.rooms[i]).name == room && v1.rooms[i]
                .members.contains(s);
    }
}

/// The first position of `id` in a list of strings, if it occurs.
fn member_pos(members: &Vec<SessionID>, id: &SessionID) -> (res: Option<usize>)
    ensures
        match res {
            Some(j) => j < members.len() && seq_views(members@)[j as int] == id@
                && (forall|k: int| 0 <= k < j ==> seq_views(members@)[k] != id@),
            None => !seq_views(members@).contains(id@),
        },
{
    let mut j: usize = 0;
    while j < members.len()
        invariant
            j <= members.len(),
            forall|k: int| 0 <= k < j ==> seq_views(members@)[k] != id@,
        decreases members.len() - j,
    {
        if members[j] == *id {
            assert(seq_views(members@)[j as int] == id@);
            return Some(j);
        }
        j += 1;
    }
    None
}

} // verus!
