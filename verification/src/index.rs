//! The shared membership index: `room → { session_id → display_name }`,
//! held in the fleet-wide key-value store and mutated only by two atomic
//! server-side scripts.
//!
//! The scripts are part of the system contract, and this module is their
//! meaning: `rooms_change` applies one mutation — `Add`, `Del` or
//! `NameChange` — atomically, `rooms_retrieve` reads the index by room or
//! by session.  [`SharedIndex`] is that state with the exact semantics of
//! both scripts; a store-side implementation must behave like it, and the
//! laws at the end (a rename wins over any earlier rename; a drained
//! snapshot leaves no trace) are proved against it.
//!
//! Mutation semantics, per kind:
//! - `Add { id, room, name }` inserts `id` into `room`, creating the room
//!   if needed.  The display name is `name` when given, otherwise the name
//!   `id` already has elsewhere in the index, otherwise empty.  An
//!   existing entry has its name overwritten.
//! - `Del { id, room }` removes `id` from `room` and drops the room when
//!   it empties; deleting a missing entry is a semantic failure
//!   (status 1).
//! - `NameChange { id, name }` renames `id` in every room; a missing name
//!   is a semantic failure (status 1).

use vstd::prelude::*;

use crate::hub::{ChangeReqView, ChangeRoomReq, RetrieveRroomsReq, RetrieveRroomsReqType, RoomChangeForHubResponse, RoomChangeType, RoomRoster, RoomRosterView, RosterEntry, RosterEntryView, UpdateRooms};

verus! {

/// The index of the entry of `id` in a roster, or -1.
pub open spec fn entry_index(ms: Seq<RosterEntryView>, id: Seq<char>) -> int
    decreases ms.len(),
{
    if ms.len() == 0 {
        -1
    } else if ms[0].session_id == id {
        0
    } else {
        let r = entry_index(ms.drop_first(), id);
        if r == -1 {
            -1
        } else {
            r + 1
        }
    }
}

/// The index of the room named `room`, or -1.
pub open spec fn idx_room(rs: Seq<RoomRosterView>, room: Seq<char>) -> int
    decreases rs.len(),
{
    if rs.len() == 0 {
        -1
    } else if rs[0].room == room {
        0
    } else {
        let r = idx_room(rs.drop_first(), room);
        if r == -1 {
            -1
        } else {
            r + 1
        }
    }
}

/// Whether the index records session `id` in `room`.
pub open spec fn idx_has_pair(rs: Seq<RoomRosterView>, room: Seq<char>, id: Seq<char>) -> bool {
    let i = idx_room(rs, room);
    i != -1 && entry_index(rs[i].members, id) != -1
}

/// The display name `id` carries somewhere in the index: the one of its
/// first entry in room order, or empty when `id` is nowhere.
pub open spec fn spec_name_of(rs: Seq<RoomRosterView>, id: Seq<char>) -> Seq<char>
    decreases rs.len(),
{
    if rs.len() == 0 {
        Seq::empty()
    } else if entry_index(rs[0].members, id) != -1 {
        rs[0].members[entry_index(rs[0].members, id)].name
    } else {
        spec_name_of(rs.drop_first(), id)
    }
}

/// The index after `Add { id, room }` with the resolved display name `nm`.
pub open spec fn spec_add(
    rs: Seq<RoomRosterView>,
    room: Seq<char>,
    id: Seq<char>,
    nm: Seq<char>,
) -> Seq<RoomRosterView> {
    let i = idx_room(rs, room);
    let e = RosterEntryView { session_id: id, name: nm };
    if i == -1 {
        rs.push(RoomRosterView { room: room, members: seq![e] })
    } else {
        let j = entry_index(rs[i].members, id);
        if j == -1 {
            rs.update(i, RoomRosterView { room: room, members: rs[i].members.push(e) })
        } else {
            rs.update(i, RoomRosterView { room: room, members: rs[i].members.update(j, e) })
        }
    }
}

/// The index after `Del { id, room }`, and whether the entry existed.
pub open spec fn spec_del(rs: Seq<RoomRosterView>, room: Seq<char>, id: Seq<char>) -> (
    Seq<RoomRosterView>,
    bool,
) {
    let i = idx_room(rs, room);
    if i == -1 {
        (rs, false)
    } else {
        let j = entry_index(rs[i].members, id);
        if j == -1 {
            (rs, false)
        } else if rs[i].members.len() == 1 {
            (rs.remove(i), true)
        } else {
            (rs.update(i, RoomRosterView { room: rs[i].room, members: rs[i].members.remove(j) }),
            true)
        }
    }
}

/// The index after `NameChange { id, nm }`: every entry of `id`, in every
/// room, carries `nm`.
pub open spec fn spec_rename(rs: Seq<RoomRosterView>, id: Seq<char>, nm: Seq<char>) -> Seq<
    RoomRosterView,
> {
    rs.map_values(
        |r: RoomRosterView|
            RoomRosterView {
                room: r.room,
                members: r.members.map_values(
                    |e: RosterEntryView|
                        if e.session_id == id {
                            RosterEntryView { session_id: e.session_id, name: nm }
                        } else {
                            e
                        },
                ),
            },
    )
}

/// The retrieval reply by room: the room's roster, or nothing.
pub open spec fn spec_by_room(rs: Seq<RoomRosterView>, room: Seq<char>) -> Seq<RoomRosterView> {
    let i = idx_room(rs, room);
    if i == -1 {
        Seq::empty()
    } else {
        seq![rs[i]]
    }
}

/// The retrieval reply by session: every room whose roster lists `id`,
/// with its full roster, in room order.
pub open spec fn spec_by_session(rs: Seq<RoomRosterView>, id: Seq<char>) -> Seq<RoomRosterView>
    decreases rs.len(),
{
    if rs.len() == 0 {
        Seq::empty()
    } else {
        spec_by_session(rs.drop_last(), id) + (if entry_index(rs.last().members, id) != -1 {
            seq![rs.last()]
        } else {
            Seq::<RoomRosterView>::empty()
        })
    }
}

/// Well-formedness of the index: room names unique, rosters non-empty,
/// session ids unique within a roster.
pub open spec fn wf_index(rs: Seq<RoomRosterView>) -> bool {
    &&& forall|p: int, q: int|
        0 <= p < q < rs.len() ==> (#[trigger] rs[p]).room != (#[trigger] rs[q]).room
    &&& forall|i: int| 0 <= i < rs.len() ==> (#[trigger] rs[i]).members.len() > 0
    &&& forall|i: int, p: int, q: int|
        0 <= i < rs.len() && 0 <= p < q < rs[i].members.len()
            ==> (#[trigger] rs[i].members[p]).session_id != (#[trigger] rs[i].members[q]).session_id
}

/// The first position of `id` in a roster, if it occurs, as `entry_index`
/// finds it.
proof fn lemma_entry_index_at(ms: Seq<RosterEntryView>, id: Seq<char>, j: int)
    requires
        0 <= j < ms.len(),
        ms[j].session_id == id,
        forall|k: int| 0 <= k < j ==> ms[k].session_id != id,
    ensures
        entry_index(ms, id) == j,
    decreases j,
{
    if j > 0 {
        let m1 = ms.drop_first();
        assert(forall|k: int| 0 <= k < m1.len() ==> m1[k] == ms[k + 1]);
        lemma_entry_index_at(m1, id, j - 1);
    }
}

/// Without an entry of `id` there is no entry index.
proof fn lemma_entry_index_none(ms: Seq<RosterEntryView>, id: Seq<char>)
    requires
        forall|k: int| 0 <= k < ms.len() ==> (#[trigger] ms[k]).session_id != id,
    ensures
        entry_index(ms, id) == -1,
    decreases ms.len(),
{
    if ms.len() > 0 {
        let m1 = ms.drop_first();
        assert(forall|k: int| 0 <= k < m1.len() ==> m1[k] == ms[k + 1]);
        lemma_entry_index_none(m1, id);
    }
}

/// Where `entry_index` points: at an entry of `id`, with none before it.
proof fn lemma_entry_index_props(ms: Seq<RosterEntryView>, id: Seq<char>)
    ensures
        entry_index(ms, id) != -1 ==> {
            &&& 0 <= entry_index(ms, id) < ms.len()
            &&& ms[entry_index(ms, id)].session_id == id
        },
        entry_index(ms, id) == -1 ==> forall|k: int|
            0 <= k < ms.len() ==> (#[trigger] ms[k]).session_id != id,
    decreases ms.len(),
{
    if ms.len() > 0 {
        let m1 = ms.drop_first();
        assert(forall|k: int| 0 <= k < m1.len() ==> m1[k] == ms[k + 1]);
        lemma_entry_index_props(m1, id);
        if entry_index(ms, id) == -1 {
            assert forall|k: int| 0 <= k < ms.len() implies (#[trigger] ms[k]).session_id != id by {
                if k > 0 {
                    assert(m1[k - 1] == ms[k]);
                    assert(m1[k - 1].session_id != id);
                }
            }
        }
    }
}

/// Where `idx_room` points: at the room, with no earlier room of that
/// name.
proof fn lemma_idx_room_props(rs: Seq<RoomRosterView>, room: Seq<char>)
    ensures
        idx_room(rs, room) != -1 ==> {
            &&& 0 <= idx_room(rs, room) < rs.len()
            &&& rs[idx_room(rs, room)].room == room
        },
        idx_room(rs, room) == -1 ==> forall|k: int|
            0 <= k < rs.len() ==> (#[trigger] rs[k]).room != room,
    decreases rs.len(),
{
    if rs.len() > 0 {
        let r1 = rs.drop_first();
        assert(forall|k: int| 0 <= k < r1.len() ==> r1[k] == rs[k + 1]);
        lemma_idx_room_props(r1, room);
        if idx_room(rs, room) == -1 {
            assert forall|k: int| 0 <= k < rs.len() implies (#[trigger] rs[k]).room != room by {
                if k > 0 {
                    assert(r1[k - 1] == rs[k]);
                    assert(r1[k - 1].room != room);
                }
            }
        }
    }
}

/// A room at `i` with no earlier room of that name is the one `idx_room`
/// finds.
proof fn lemma_idx_room_at(rs: Seq<RoomRosterView>, room: Seq<char>, i: int)
    requires
        0 <= i < rs.len(),
        rs[i].room == room,
        forall|k: int| 0 <= k < i ==> rs[k].room != room,
    ensures
        idx_room(rs, room) == i,
    decreases i,
{
    if i > 0 {
        let r1 = rs.drop_first();
        assert(forall|k: int| 0 <= k < r1.len() ==> r1[k] == rs[k + 1]);
        lemma_idx_room_at(r1, room, i - 1);
    }
}

/// The shared membership index, as the two scripts maintain it.
pub struct SharedIndex {
    pub rooms: Vec<RoomRoster>,
}

impl View for SharedIndex {
    type V = Seq<RoomRosterView>;

    open spec fn view(&self) -> Seq<RoomRosterView> {
        self.rooms@.map_values(|r: RoomRoster| r@)
    }
}

/// The status of a `rooms_change` reply that succeeded.
pub open spec fn status_ok() -> int {
    0
}

/// The status of a `rooms_change` reply that failed semantically.
pub open spec fn status_failed() -> int {
    1
}

impl SharedIndex {
    /// Well-formedness of this index.
    pub open spec fn inv(&self) -> bool {
        wf_index(self@)
    }

    /// An empty index.
    pub fn new() -> (res: Self)
        ensures
            res.inv(),
            res@ == Seq::<RoomRosterView>::empty(),
    {
        let res = SharedIndex { rooms: Vec::new() };
        proof {
            assert(res@ =~= Seq::<RoomRosterView>::empty());
        }
        res
    }

    /// The first position of an entry of `id` in a roster.
    fn find_entry(ms: &Vec<RosterEntry>, id: &String) -> (res: Option<usize>)
        ensures
            match res {
                Some(j) => entry_index(ms@.map_values(|e: RosterEntry| e@), id@) == j as int && j
                    < ms.len(),
                None => entry_index(ms@.map_values(|e: RosterEntry| e@), id@) == -1,
            },
    {
        let ghost mv = ms@.map_values(|e: RosterEntry| e@);
        let mut j: usize = 0;
        while j < ms.len()
            invariant
                j <= ms.len(),
                mv == ms@.map_values(|e: RosterEntry| e@),
                forall|k: int| 0 <= k < j ==> (#[trigger] mv[k]).session_id != id@,
            decreases ms.len() - j,
        {
            if ms[j].session_id == *id {
                proof {
                    assert(mv[j as int].session_id == id@);
                    lemma_entry_index_at(mv, id@, j as int);
                }
                return Some(j);
            }
            j += 1;
        }
        proof {
            lemma_entry_index_none(mv, id@);
        }
        None
    }

    /// The position of the room named `room`.
    fn find_room(&self, room: &String) -> (res: Option<usize>)
        ensures
            match res {
                Some(i) => idx_room(self@, room@) == i as int && i < self.rooms.len(),
                None => idx_room(self@, room@) == -1,
            },
    {
        let mut i: usize = 0;
        while i < self.rooms.len()
            invariant
                i <= self.rooms.len(),
                forall|k: int| 0 <= k < i ==> (#[trigger] self@[k]).room != room@,
            decreases self.rooms.len() - i,
        {
            if self.rooms[i].room == *room {
                proof {
                    assert(self@[i as int].room == room@);
                    lemma_idx_room_at(self@, room@, i as int);
                }
                return Some(i);
            }
            i += 1;
        }
        proof {
            lemma_idx_room_props(self@, room@);
            assert(idx_room(self@, room@) == -1) by {
                if idx_room(self@, room@) != -1 {
                }
            }
        }
        None
    }

    /// The display name `id` carries in the index, or empty.
    fn name_of(&self, id: &String) -> (res: String)
        ensures
            res@ == spec_name_of(self@, id@),
    {
        let ghost rs = self@;
        let mut i: usize = 0;
        proof {
            assert(rs.skip(0) =~= rs);
        }
        while i < self.rooms.len()
            invariant
                i <= self.rooms.len(),
                rs == self@,
                rs.len() == self.rooms.len(),
                spec_name_of(rs.skip(i as int), id@) == spec_name_of(rs, id@),
            decreases self.rooms.len() - i,
        {
            proof {
                assert(rs.skip(i as int)[0] == rs[i as int]);
                assert(self.rooms@.map_values(|r: RoomRoster| r@)[i as int] == self.rooms@[
                    i as int
                ]@);
            }
            match Self::find_entry(&self.rooms[i].members, id) {
                Some(j) => {
                    proof {
                        assert(entry_index(rs[i as int].members, id@) == j as int);
                        assert(spec_name_of(rs.skip(i as int), id@) == rs[i as int].members[
                            j as int
                        ].name);
                        assert(rs[i as int].members[j as int] == self.rooms@[i as int].members@
                            .map_values(|e: RosterEntry| e@)[j as int]);
                    }
                    return self.rooms[i].members[j].name.clone();
                }
                None => {
                    proof {
                        assert(entry_index(rs[i as int].members, id@) == -1);
                        assert(rs.skip(i as int).drop_first() =~= rs.skip(i + 1));
                        assert(spec_name_of(rs.skip(i + 1), id@) == spec_name_of(
                            rs.skip(i as int),
                            id@,
                        ));
                    }
                }
            }
            i += 1;
        }
        proof {
            assert(rs.skip(rs.len() as int) =~= Seq::<RoomRosterView>::empty());
        }
        String::new()
    }

    /// Applies one `rooms_change` mutation atomically, as the script does,
    /// and returns its structured reply: status 0 on success, status 1
    /// with a message on a semantic failure (deleting a missing entry, or
    /// a rename without a name).
    pub fn apply_change(&mut self, req: &ChangeRoomReq) -> (res: RoomChangeForHubResponse)
        requires
            old(self).inv(),
        ensures
            final(self).inv(),
            match req.kind {
                RoomChangeType::Add => {
                    &&& final(self)@ == spec_add(
                        old(self)@,
                        req.room@,
                        req.id@,
                        resolved_name(old(self)@, req@),
                    )
                    &&& res.status == status_ok()
                },
                RoomChangeType::Del => {
                    &&& final(self)@ == spec_del(old(self)@, req.room@, req.id@).0
                    &&& (res.status == status_ok() <==> spec_del(
                        old(self)@,
                        req.room@,
                        req.id@,
                    ).1)
                },
                RoomChangeType::NameChange => match req.name {
                    Some(n) => final(self)@ == spec_rename(old(self)@, req.id@, n@) && res.status
                        == status_ok(),
                    None => final(self)@ == old(self)@ && res.status == status_failed(),
                },
            },
    {
        let ghost rs = self@;
        match req.kind {
            RoomChangeType::Add => {
                let nm: String = match &req.name {
                    Some(n) => n.clone(),
                    None => self.name_of(&req.id),
                };
                let entry = RosterEntry { session_id: req.id.clone(), name: nm };
                proof {
                    assert(entry@ == (RosterEntryView {
                        session_id: req.id@,
                        name: resolved_name(rs, req@),
                    }));
                }
                match self.find_room(&req.room) {
                    None => {
                        let mut members: Vec<RosterEntry> = Vec::new();
                        members.push(entry);
                        self.rooms.push(RoomRoster { room: req.room.clone(), members });
                        proof {
                            assert(self.rooms@[rs.len() as int]@.members =~= seq![
                                RosterEntryView {
                                    session_id: req.id@,
                                    name: resolved_name(rs, req@),
                                },
                            ]);
                            assert(self@ =~= spec_add(
                                rs,
                                req.room@,
                                req.id@,
                                resolved_name(rs, req@),
                            ));
                            lemma_idx_room_props(rs, req.room@);
                            lemma_wf_add(rs, req.room@, req.id@, resolved_name(rs, req@));
                        }
                    }
                    Some(i) => {
                        match Self::find_entry(&self.rooms[i].members, &req.id) {
                            None => {
                                self.rooms[i].members.push(entry);
                                proof {
                                    assert(self.rooms@[i as int]@.members =~= rs[i as int]
                                        .members.push(
                                        RosterEntryView {
                                            session_id: req.id@,
                                            name: resolved_name(rs, req@),
                                        },
                                    ));
                                    lemma_idx_room_props(rs, req.room@);
                                    assert(self@ =~= spec_add(
                                        rs,
                                        req.room@,
                                        req.id@,
                                        resolved_name(rs, req@),
                                    ));
                                    lemma_wf_add(rs, req.room@, req.id@, resolved_name(rs, req@));
                                }
                            }
                            Some(j) => {
                                self.rooms[i].members.remove(j);
                                self.rooms[i].members.insert(j, entry);
                                proof {
                                    lemma_idx_room_props(rs, req.room@);
                                    lemma_entry_index_props(rs[i as int].members, req.id@);
                                    assert(self.rooms@[i as int]@.members =~= rs[i as int]
                                        .members.update(
                                        j as int,
                                        RosterEntryView {
                                            session_id: req.id@,
                                            name: resolved_name(rs, req@),
                                        },
                                    ));
                                    assert(self@ =~= spec_add(
                                        rs,
                                        req.room@,
                                        req.id@,
                                        resolved_name(rs, req@),
                                    ));
                                    lemma_wf_add(rs, req.room@, req.id@, resolved_name(rs, req@));
                                }
                            }
                        }
                    }
                }
                RoomChangeForHubResponse { status: 0, msg: String::new() }
            }
            RoomChangeType::Del => {
                match self.find_room(&req.room) {
                    None => RoomChangeForHubResponse {
                        status: 1,
                        msg: String::from_str("entry not found"),
                    },
                    Some(i) => {
                        match Self::find_entry(&self.rooms[i].members, &req.id) {
                            None => RoomChangeForHubResponse {
                                status: 1,
                                msg: String::from_str("entry not found"),
                            },
                            Some(j) => {
                                proof {
                                    lemma_idx_room_props(rs, req.room@);
                                    lemma_entry_index_props(rs[i as int].members, req.id@);
                                }
                                if self.rooms[i].members.len() == 1 {
                                    self.rooms.remove(i);
                                    proof {
                                        assert(self@ =~= rs.remove(i as int));
                                        assert(self@ == spec_del(rs, req.room@, req.id@).0);
                                        lemma_wf_del(rs, req.room@, req.id@);
                                    }
                                } else {
                                    self.rooms[i].members.remove(j);
                                    proof {
                                        assert(self.rooms@[i as int]@.members =~= rs[i as int]
                                            .members.remove(j as int));
                                        assert(self@ =~= spec_del(rs, req.room@, req.id@).0);
                                        lemma_wf_del(rs, req.room@, req.id@);
                                    }
                                }
                                RoomChangeForHubResponse { status: 0, msg: String::new() }
                            }
                        }
                    }
                }
            }
            RoomChangeType::NameChange => {
                match &req.name {
                    None => RoomChangeForHubResponse {
                        status: 1,
                        msg: String::from_str("name required"),
                    },
                    Some(n) => {
                        let mut new_rooms: Vec<RoomRoster> = Vec::new();
                        let ghost target = spec_rename(rs, req.id@, n@);
                        let mut i: usize = 0;
                        proof {
                            assert(new_rooms@.map_values(|r: RoomRoster| r@) =~= target.take(0));
                        }
                        while i < self.rooms.len()
                            invariant
                                i <= self.rooms.len(),
                                self@ == rs,
                                rs.len() == self.rooms.len(),
                                new_rooms@.len() == i,
                                target == spec_rename(rs, req.id@, n@),
                                n@ == (match req@.name {
                                    Some(m) => m,
                                    None => Seq::<char>::empty(),
                                }),
                                new_rooms@.map_values(|r: RoomRoster| r@) == target.take(i as int),
                            decreases self.rooms.len() - i,
                        {
                            let src = &self.rooms[i];
                            proof {
                                assert(src@ == rs[i as int]);
                                assert(target[i as int] == (RoomRosterView {
                                    room: rs[i as int].room,
                                    members: rs[i as int].members.map_values(
                                        |e: RosterEntryView|
                                            if e.session_id == req.id@ {
                                                RosterEntryView {
                                                    session_id: e.session_id,
                                                    name: n@,
                                                }
                                            } else {
                                                e
                                            },
                                    ),
                                }));
                            }
                            let mut members: Vec<RosterEntry> = Vec::new();
                            let mut j: usize = 0;
                            proof {
                                assert(members@.map_values(|e: RosterEntry| e@) =~= target[
                                    i as int
                                ].members.take(0));
                            }
                            while j < src.members.len()
                                invariant
                                    j <= src.members.len(),
                                    members@.len() == j,
                                    src@ == rs[i as int],
                                    0 <= i < rs.len(),
                                    src.members@.len() == rs[i as int].members.len(),
                                    target == spec_rename(rs, req.id@, n@),
                                    target.len() == rs.len(),
                                    n@ == (match req@.name {
                                        Some(m) => m,
                                        None => Seq::<char>::empty(),
                                    }),
                                    target[i as int].members.len() == rs[i as int].members.len(),
                                    members@.map_values(|e: RosterEntry| e@) == target[
                                        i as int
                                    ].members.take(j as int),
                                decreases src.members.len() - j,
                            {
                                let entry_ref = &src.members[j];
                                proof {
                                    assert(entry_ref@ == rs[i as int].members[j as int]);
                                    assert(target[i as int].members[j as int] == (if rs[i as int]
                                        .members[j as int].session_id == req.id@ {
                                        RosterEntryView {
                                            session_id: rs[i as int].members[j as int].session_id,
                                            name: n@,
                                        }
                                    } else {
                                        rs[i as int].members[j as int]
                                    }));
                                }
                                if entry_ref.session_id == req.id {
                                    members.push(RosterEntry {
                                        session_id: entry_ref.session_id.clone(),
                                        name: n.clone(),
                                    });
                                } else {
                                    members.push(RosterEntry {
                                        session_id: entry_ref.session_id.clone(),
                                        name: entry_ref.name.clone(),
                                    });
                                }
                                proof {
                                    assert(members@.map_values(|e: RosterEntry| e@) =~= target[
                                        i as int
                                    ].members.take(j + 1));
                                }
                                j += 1;
                            }
                            new_rooms.push(RoomRoster { room: src.room.clone(), members });
                            proof {
                                assert(target[i as int].members.take(rs[i as int].members.len()
                                    as int) =~= target[i as int].members);
                                assert(new_rooms@.map_values(|r: RoomRoster| r@) =~= target.take(
                                    i + 1,
                                ));
                            }
                            i += 1;
                        }
                        self.rooms = new_rooms;
                        proof {
                            assert(target.take(rs.len() as int) =~= target);
                            assert(self@ == target);
                            lemma_wf_rename(rs, req.id@, n@);
                        }
                        RoomChangeForHubResponse { status: 0, msg: String::new() }
                    }
                }
            }
        }
    }

    /// Runs one `rooms_retrieve` read, as the script does: by room — the
    /// room's roster, or nothing — or by session — every room listing the
    /// session, with its full roster.
    pub fn retrieve(&self, req: &RetrieveRroomsReq) -> (res: UpdateRooms)
        ensures
            match req.kind {
                RetrieveRroomsReqType::RoomID => res@ == spec_by_room(self@, req.id@),
                RetrieveRroomsReqType::SessionID => res@ == spec_by_session(self@, req.id@),
            },
    {
        let mut out: Vec<RoomRoster> = Vec::new();
        match req.kind {
            RetrieveRroomsReqType::RoomID => {
                match self.find_room(&req.id) {
                    None => {
                        proof {
                            assert(out@.map_values(|r: RoomRoster| r@) =~= spec_by_room(
                                self@,
                                req.id@,
                            ));
                        }
                    }
                    Some(i) => {
                        let r = clone_roster(&self.rooms[i]);
                        out.push(r);
                        proof {
                            assert(out@.map_values(|r: RoomRoster| r@) =~= spec_by_room(
                                self@,
                                req.id@,
                            ));
                        }
                    }
                }
                UpdateRooms(out)
            }
            RetrieveRroomsReqType::SessionID => {
                let ghost rs = self@;
                let mut i: usize = 0;
                proof {
                    assert(rs.take(0) =~= Seq::<RoomRosterView>::empty());
                    assert(out@.map_values(|r: RoomRoster| r@) =~= spec_by_session(
                        rs.take(0),
                        req.id@,
                    ));
                }
                while i < self.rooms.len()
                    invariant
                        i <= self.rooms.len(),
                        rs == self@,
                        rs.len() == self.rooms.len(),
                        out@.len() == spec_by_session(rs.take(i as int), req.id@).len(),
                        out@.map_values(|r: RoomRoster| r@) == spec_by_session(
                            rs.take(i as int),
                            req.id@,
                        ),
                    decreases self.rooms.len() - i,
                {
                    proof {
                        assert(rs.take(i + 1).drop_last() =~= rs.take(i as int));
                        assert(rs.take(i + 1).last() == rs[i as int]);
                        assert(self.rooms@[i as int]@ == rs[i as int]);
                    }
                    match Self::find_entry(&self.rooms[i].members, &req.id) {
                        Some(_) => {
                            let r = clone_roster(&self.rooms[i]);
                            out.push(r);
                        }
                        None => {}
                    }
                    proof {
                        assert(out@.map_values(|r: RoomRoster| r@) =~= spec_by_session(
                            rs.take(i + 1),
                            req.id@,
                        ));
                    }
                    i += 1;
                }
                proof {
                    assert(rs.take(rs.len() as int) =~= rs);
                }
                UpdateRooms(out)
            }
        }
    }
}

/// The display name an `Add` resolves to: the given one, or the name the
/// session already carries in the index, or empty.
pub open spec fn resolved_name(rs: Seq<RoomRosterView>, req: ChangeReqView) -> Seq<char> {
    match req.name {
        Some(n) => n,
        None => spec_name_of(rs, req.id),
    }
}

/// An exact copy of one roster.
fn clone_roster(r: &RoomRoster) -> (res: RoomRoster)
    ensures
        res@ == r@,
{
    let mut members: Vec<RosterEntry> = Vec::new();
    let mut j: usize = 0;
    proof {
        assert(members@.map_values(|e: RosterEntry| e@) =~= r@.members.take(0));
    }
    while j < r.members.len()
        invariant
            j <= r.members.len(),
            r@.members.len() == r.members.len(),
            members@.len() == j,
            members@.map_values(|e: RosterEntry| e@) == r@.members.take(j as int),
        decreases r.members.len() - j,
    {
        proof {
            assert(r@.members[j as int] == r.members@.map_values(|e: RosterEntry| e@)[j as int]);
        }
        let ghost m0 = members@;
        let entry_ref = &r.members[j];
        members.push(RosterEntry {
            session_id: entry_ref.session_id.clone(),
            name: entry_ref.name.clone(),
        });
        proof {
            assert(members@.len() == j + 1);
            assert(members@[j as int]@ == r@.members[j as int]);
            assert(forall|k: int| 0 <= k < j ==> members@[k] == m0[k]);
            assert(members@.map_values(|e: RosterEntry| e@) =~= r@.members.take(j + 1));
        }
        j += 1;
    }
    proof {
        assert(r@.members.take(r@.members.len() as int) =~= r@.members);
    }
    let res = RoomRoster { room: r.room.clone(), members };
    proof {
        assert(res@ =~= r@);
    }
    res
}

/// `Add` preserves well-formedness.
pub proof fn lemma_wf_add(rs: Seq<RoomRosterView>, room: Seq<char>, id: Seq<char>, nm: Seq<char>)
    requires
        wf_index(rs),
    ensures
        wf_index(spec_add(rs, room, id, nm)),
{
    let rs2 = spec_add(rs, room, id, nm);
    let i = idx_room(rs, room);
    lemma_idx_room_props(rs, room);
    if i == -1 {
        assert(forall|k: int| 0 <= k < rs.len() ==> rs2[k] == rs[k]);
        assert(rs2[rs.len() as int].members.len() == 1);
    } else {
        let j = entry_index(rs[i].members, id);
        lemma_entry_index_props(rs[i].members, id);
        if j == -1 {
            assert(forall|k: int| 0 <= k < rs.len() && k != i ==> rs2[k] == rs[k]);
            assert(rs2[i].members =~= rs[i].members.push(
                RosterEntryView { session_id: id, name: nm },
            ));
            assert(rs2[i].room == rs[i].room);
            assert(forall|p: int, q: int|
                0 <= p < q < rs2[i].members.len() ==> (#[trigger] rs2[i].members[p]).session_id
                    != (#[trigger] rs2[i].members[q]).session_id);
        } else {
            assert(forall|k: int| 0 <= k < rs.len() && k != i ==> rs2[k] == rs[k]);
            assert(rs2[i].room == rs[i].room);
            assert(rs2[i].members[j].session_id == rs[i].members[j].session_id);
            assert(forall|p: int|
                0 <= p < rs2[i].members.len() && p != j ==> rs2[i].members[p] == rs[i].members[p]);
        }
    }
}

/// `Del` preserves well-formedness, removes exactly the requested pair,
/// and records no pair the original lacked.
pub proof fn lemma_wf_del(rs: Seq<RoomRosterView>, room: Seq<char>, id: Seq<char>)
    requires
        wf_index(rs),
    ensures
        wf_index(spec_del(rs, room, id).0),
        !idx_has_pair(spec_del(rs, room, id).0, room, id),
        forall|r2: Seq<char>, i2: Seq<char>|
            #[trigger] idx_has_pair(spec_del(rs, room, id).0, r2, i2) ==> idx_has_pair(rs, r2, i2),
{
    let rs2 = spec_del(rs, room, id).0;
    let i = idx_room(rs, room);
    lemma_idx_room_props(rs, room);
    if i == -1 {
        assert(!idx_has_pair(rs2, room, id));
    } else {
        let j = entry_index(rs[i].members, id);
        lemma_entry_index_props(rs[i].members, id);
        if j == -1 {
            assert(!idx_has_pair(rs2, room, id));
        } else if rs[i].members.len() == 1 {
            assert(forall|k: int| 0 <= k < rs2.len() ==> rs2[k] == (if k < i {
                rs[k]
            } else {
                rs[k + 1]
            }));
            assert(wf_index(rs2));
            lemma_idx_room_props(rs2, room);
            assert(!idx_has_pair(rs2, room, id)) by {
                let i2 = idx_room(rs2, room);
                if i2 != -1 {
                    assert(rs2[i2].room == room);
                    if i2 < i {
                        assert(rs[i2].room == room);
                    } else {
                        assert(rs[i2 + 1].room == room);
                    }
                }
            }
            assert forall|r2: Seq<char>, s2: Seq<char>|
                #[trigger] idx_has_pair(rs2, r2, s2) implies idx_has_pair(rs, r2, s2) by {
                let p = idx_room(rs2, r2);
                lemma_idx_room_props(rs2, r2);
                let orig = if p < i {
                    p
                } else {
                    p + 1
                };
                assert(rs[orig] == rs2[p]);
                lemma_idx_room_at_unique(rs, r2, orig);
            }
        } else {
            assert(forall|k: int| 0 <= k < rs2.len() && k != i ==> rs2[k] == rs[k]);
            assert(rs2[i].room == rs[i].room);
            assert(rs2[i].members =~= rs[i].members.remove(j));
            assert(forall|p: int| 0 <= p < rs2[i].members.len() ==> rs2[i].members[p] == (if p < j {
                rs[i].members[p]
            } else {
                rs[i].members[p + 1]
            }));
            assert(wf_index(rs2)) by {
                assert(forall|p: int, q: int|
                    0 <= p < q < rs2[i].members.len() ==> (#[trigger] rs2[i].members[p]).session_id
                        != (#[trigger] rs2[i].members[q]).session_id);
            }
            assert(!idx_has_pair(rs2, room, id)) by {
                lemma_idx_room_at_unique(rs2, room, i);
                let j2 = entry_index(rs2[i].members, id);
                lemma_entry_index_props(rs2[i].members, id);
                if j2 != -1 {
                    assert(rs2[i].members[j2].session_id == id);
                    let oj = if j2 < j {
                        j2
                    } else {
                        j2 + 1
                    };
                    assert(rs[i].members[oj].session_id == id);
                    assert(rs[i].members[j].session_id == id);
                }
            }
            assert forall|r2: Seq<char>, s2: Seq<char>|
                #[trigger] idx_has_pair(rs2, r2, s2) implies idx_has_pair(rs, r2, s2) by {
                let p = idx_room(rs2, r2);
                lemma_idx_room_props(rs2, r2);
                if p == i {
                    lemma_idx_room_at_unique(rs, r2, i);
                    let j2 = entry_index(rs2[i].members, s2);
                    lemma_entry_index_props(rs2[i].members, s2);
                    let oj = if j2 < j {
                        j2
                    } else {
                        j2 + 1
                    };
                    assert(rs[i].members[oj].session_id == s2);
                    lemma_entry_found(rs[i].members, s2, oj);
                } else {
                    lemma_idx_room_at_unique(rs, r2, p);
                }
            }
        }
    }
}

/// A room named `room` at `orig`, with unique names, is the one `idx_room`
/// finds.
proof fn lemma_idx_room_at_unique(rs: Seq<RoomRosterView>, room: Seq<char>, orig: int)
    requires
        0 <= orig < rs.len(),
        rs[orig].room == room,
        forall|p: int, q: int|
            0 <= p < q < rs.len() ==> (#[trigger] rs[p]).room != (#[trigger] rs[q]).room,
    ensures
        idx_room(rs, room) == orig,
{
    assert(forall|k: int| 0 <= k < orig ==> rs[k].room != room);
    lemma_idx_room_at(rs, room, orig);
}

/// An entry of `id` somewhere in a roster means `entry_index` finds one.
proof fn lemma_entry_found(ms: Seq<RosterEntryView>, id: Seq<char>, at: int)
    requires
        0 <= at < ms.len(),
        ms[at].session_id == id,
    ensures
        entry_index(ms, id) != -1,
{
    lemma_entry_index_props(ms, id);
    if entry_index(ms, id) == -1 {
        assert(ms[at].session_id != id);
    }
}

/// `NameChange` preserves well-formedness: it touches display names only.
pub proof fn lemma_wf_rename(rs: Seq<RoomRosterView>, id: Seq<char>, nm: Seq<char>)
    requires
        wf_index(rs),
    ensures
        wf_index(spec_rename(rs, id, nm)),
{
    let rs2 = spec_rename(rs, id, nm);
    assert(forall|k: int| 0 <= k < rs.len() ==> (#[trigger] rs2[k]).room == rs[k].room);
    assert(forall|k: int|
        0 <= k < rs.len() ==> (#[trigger] rs2[k]).members.len() == rs[k].members.len());
    assert(forall|k: int, p: int|
        0 <= k < rs.len() && 0 <= p < rs[k].members.len() ==> (#[trigger] rs2[k].members[p])
            .session_id == rs[k].members[p].session_id);
}

/// After `NameChange { id, nm }`, every entry of `id` — in every room —
/// carries exactly `nm`, and no other entry changed.
pub proof fn lemma_rename_sets_name(rs: Seq<RoomRosterView>, id: Seq<char>, nm: Seq<char>)
    ensures
        spec_rename(rs, id, nm).len() == rs.len(),
        forall|k: int, p: int|
            0 <= k < rs.len() && 0 <= p < rs[k].members.len() && rs[k].members[p].session_id == id
                ==> (#[trigger] spec_rename(rs, id, nm)[k].members[p]).name == nm,
        forall|k: int, p: int|
            0 <= k < rs.len() && 0 <= p < rs[k].members.len() && rs[k].members[p].session_id != id
                ==> (#[trigger] spec_rename(rs, id, nm)[k].members[p]) == rs[k].members[p],
{
    let rs2 = spec_rename(rs, id, nm);
    assert(forall|k: int| 0 <= k < rs.len() ==> (#[trigger] rs2[k]).members.len() == rs[
        k
    ].members.len());
}

/// Atomicity of renames: two renames of the same session in a row leave
/// exactly what the second one alone would — the index maps the session
/// to the latest name.
pub proof fn lemma_rename_last_wins(
    rs: Seq<RoomRosterView>,
    id: Seq<char>,
    n1: Seq<char>,
    n2: Seq<char>,
)
    ensures
        spec_rename(spec_rename(rs, id, n1), id, n2) == spec_rename(rs, id, n2),
{
    let a = spec_rename(spec_rename(rs, id, n1), id, n2);
    let b = spec_rename(rs, id, n2);
    assert forall|k: int| 0 <= k < rs.len() implies a[k] == b[k] by {
        assert(a[k].members =~= b[k].members);
        assert(a[k] =~= b[k]);
    }
    assert(a =~= b);
}

/// The membership-index mutation a change request denotes.
pub open spec fn spec_apply(rs: Seq<RoomRosterView>, c: ChangeReqView) -> Seq<RoomRosterView> {
    match c.kind {
        RoomChangeType::Add => spec_add(rs, c.room, c.id, resolved_name(rs, c)),
        RoomChangeType::Del => spec_del(rs, c.room, c.id).0,
        RoomChangeType::NameChange => match c.name {
            Some(n) => spec_rename(rs, c.id, n),
            None => rs,
        },
    }
}

/// The index after a sequence of mutations, applied in order.
pub open spec fn spec_apply_all(rs: Seq<RoomRosterView>, cs: Seq<ChangeReqView>) -> Seq<
    RoomRosterView,
>
    decreases cs.len(),
{
    if cs.len() == 0 {
        rs
    } else {
        spec_apply_all(spec_apply(rs, cs[0]), cs.drop_first())
    }
}

/// A sequence of deletions never records a pair the index lacked.
pub proof fn lemma_dels_monotone(
    rs: Seq<RoomRosterView>,
    cs: Seq<ChangeReqView>,
    room: Seq<char>,
    id: Seq<char>,
)
    requires
        wf_index(rs),
        forall|k: int| 0 <= k < cs.len() ==> (#[trigger] cs[k]).kind == RoomChangeType::Del,
        !idx_has_pair(rs, room, id),
    ensures
        wf_index(spec_apply_all(rs, cs)),
        !idx_has_pair(spec_apply_all(rs, cs), room, id),
    decreases cs.len(),
{
    if cs.len() > 0 {
        let rs1 = spec_apply(rs, cs[0]);
        lemma_wf_del(rs, cs[0].room, cs[0].id);
        assert(!idx_has_pair(rs1, room, id));
        let cs1 = cs.drop_first();
        assert(forall|k: int| 0 <= k < cs1.len() ==> cs1[k] == cs[k + 1]);
        lemma_dels_monotone(rs1, cs1, room, id);
    }
}

/// Graceful shutdown drains the shared index: after applying a sequence
/// of deletions, none of the deleted `(room, session)` pairs is recorded
/// any more.
pub proof fn lemma_dels_remove_all(rs: Seq<RoomRosterView>, cs: Seq<ChangeReqView>)
    requires
        wf_index(rs),
        forall|k: int| 0 <= k < cs.len() ==> (#[trigger] cs[k]).kind == RoomChangeType::Del,
    ensures
        wf_index(spec_apply_all(rs, cs)),
        forall|k: int|
            0 <= k < cs.len() ==> !idx_has_pair(
                spec_apply_all(rs, cs),
                (#[trigger] cs[k]).room,
                cs[k].id,
            ),
    decreases cs.len(),
{
    if cs.len() > 0 {
        let rs1 = spec_apply(rs, cs[0]);
        lemma_wf_del(rs, cs[0].room, cs[0].id);
        let cs1 = cs.drop_first();
        assert(forall|k: int| 0 <= k < cs1.len() ==> cs1[k] == cs[k + 1]);
        lemma_dels_remove_all(rs1, cs1);
        lemma_dels_monotone(rs1, cs1, cs[0].room, cs[0].id);
        assert forall|k: int|
            0 <= k < cs.len() implies !idx_has_pair(
            spec_apply_all(rs, cs),
            (#[trigger] cs[k]).room,
            cs[k].id,
        ) by {
            if k > 0 {
                assert(cs1[k - 1] == cs[k]);
                assert(!idx_has_pair(spec_apply_all(rs1, cs1), cs1[k - 1].room, cs1[k - 1].id));
            }
        }
    }
}

/// Every shutdown deletion is a `Del`, and every `(room, member)` pair of
/// the snapshot appears among them.
proof fn lemma_clean_reqs_cover(rooms: Seq<crate::server::RoomView>)
    ensures
        forall|k: int|
            0 <= k < crate::server::clean_reqs(rooms).len() ==> (#[trigger] crate::server::clean_reqs(
                rooms,
            )[k]).kind == RoomChangeType::Del,
        forall|i: int, j: int|
            0 <= i < rooms.len() && 0 <= j < rooms[i].members.len() ==> exists|k: int|
                0 <= k < crate::server::clean_reqs(rooms).len()
                    && (#[trigger] crate::server::clean_reqs(rooms)[k]) == crate::hub::del_req(
                    #[trigger] rooms[i].members[j],
                    rooms[i].name,
                ),
    decreases rooms.len(),
{
    if rooms.len() > 0 {
        let front = rooms.drop_last();
        let last = rooms.last();
        lemma_clean_reqs_cover(front);
        let cf = crate::server::clean_reqs(front);
        let cs = crate::server::clean_reqs(rooms);
        assert(cs == cf + crate::server::room_del_reqs(last));
        assert(forall|p: int|
            0 <= p < last.members.len() ==> crate::server::room_del_reqs(last)[p]
                == crate::hub::del_req(last.members[p], last.name));
        assert forall|i: int, j: int|
            0 <= i < rooms.len() && 0 <= j < rooms[i].members.len() implies exists|k: int|
            0 <= k < cs.len() && (#[trigger] cs[k]) == crate::hub::del_req(
                #[trigger] rooms[i].members[j],
                rooms[i].name,
            ) by {
            if i < rooms.len() - 1 {
                assert(front[i] == rooms[i]);
                let k = choose|k: int|
                    0 <= k < cf.len() && (#[trigger] cf[k]) == crate::hub::del_req(
                        front[i].members[j],
                        front[i].name,
                    );
                assert(cs[k] == cf[k]);
            } else {
                assert(rooms[i] == last);
                assert(cs[cf.len() + j] == crate::server::room_del_reqs(last)[j]);
            }
        }
    }
}

/// Graceful shutdown against the shared index: applying the deletions a
/// `Close` snapshot yields, in order, to any well-formed index leaves no
/// `(room, session)` pair of that snapshot recorded.
pub proof fn lemma_close_drains_index(
    rooms: Seq<crate::server::RoomView>,
    rs: Seq<RoomRosterView>,
)
    requires
        wf_index(rs),
    ensures
        forall|i: int, j: int|
            0 <= i < rooms.len() && 0 <= j < rooms[i].members.len() ==> !idx_has_pair(
                spec_apply_all(rs, crate::server::clean_reqs(rooms)),
                (#[trigger] rooms[i]).name,
                #[trigger] rooms[i].members[j],
            ),
{
    let cs = crate::server::clean_reqs(rooms);
    lemma_clean_reqs_cover(rooms);
    lemma_dels_remove_all(rs, cs);
    assert forall|i: int, j: int|
        0 <= i < rooms.len() && 0 <= j < rooms[i].members.len() implies !idx_has_pair(
        spec_apply_all(rs, cs),
        (#[trigger] rooms[i]).name,
        #[trigger] rooms[i].members[j],
    ) by {
        let k = choose|k: int|
            0 <= k < cs.len() && (#[trigger] cs[k]) == crate::hub::del_req(
                rooms[i].members[j],
                rooms[i].name,
            );
        assert(!idx_has_pair(spec_apply_all(rs, cs), cs[k].room, cs[k].id));
    }
}

/// A pair the index does not record does not appear in either retrieval:
/// the room's roster — if the room exists at all — does not list the
/// session, and the session's rooms do not include the room.
pub proof fn lemma_absent_pair_not_listed(rs: Seq<RoomRosterView>, room: Seq<char>, id: Seq<char>)
    requires
        wf_index(rs),
        !idx_has_pair(rs, room, id),
    ensures
        forall|k: int|
            0 <= k < spec_by_room(rs, room).len() ==> entry_index(
                (#[trigger] spec_by_room(rs, room)[k]).members,
                id,
            ) == -1,
        forall|k: int|
            0 <= k < spec_by_session(rs, id).len() ==> (#[trigger] spec_by_session(rs, id)[k]).room
                != room,
{
    let i = idx_room(rs, room);
    lemma_idx_room_props(rs, room);
    lemma_by_session_lists(rs, id);
    assert forall|k: int|
        0 <= k < spec_by_session(rs, id).len() implies (#[trigger] spec_by_session(rs, id)[k]).room
        != room by {
        let r = spec_by_session(rs, id)[k];
        let j = choose|j: int|
            0 <= j < rs.len() && rs[j] == r && entry_index(#[trigger] rs[j].members, id) != -1;
        if r.room == room {
            lemma_idx_room_at_unique(rs, room, j);
        }
    }
}

/// Every roster the by-session retrieval returns is a room of the index
/// that lists the session.
proof fn lemma_by_session_lists(rs: Seq<RoomRosterView>, id: Seq<char>)
    ensures
        forall|k: int|
            0 <= k < spec_by_session(rs, id).len() ==> exists|j: int|
                0 <= j < rs.len() && (#[trigger] spec_by_session(rs, id)[k]) == rs[j]
                    && entry_index(#[trigger] rs[j].members, id) != -1,
    decreases rs.len(),
{
    if rs.len() > 0 {
        let front = rs.drop_last();
        lemma_by_session_lists(front, id);
        let sf = spec_by_session(front, id);
        let s = spec_by_session(rs, id);
        assert forall|k: int|
            0 <= k < s.len() implies exists|j: int|
            0 <= j < rs.len() && (#[trigger] spec_by_session(rs, id)[k]) == rs[j] && entry_index(
                #[trigger] rs[j].members,
                id,
            ) != -1 by {
            if k < sf.len() {
                assert(s[k] == sf[k]);
                let j = choose|j: int|
                    0 <= j < front.len() && front[j] == sf[k] && entry_index(
                        #[trigger] front[j].members,
                        id,
                    ) != -1;
                assert(rs[j] == front[j]);
                assert(entry_index(rs[j].members, id) != -1);
            } else {
                assert(s[k] == rs.last());
                assert(entry_index(rs[rs.len() - 1].members, id) != -1);
            }
        }
    }
}

} // verus!
