//! Hub bookkeeping: the per-process table of live broker subscriptions and
//! the request/response types of the two atomic scripts on the shared
//! key-value store.
//!
//! The hub of a process subscribes to one broker channel per room that has at
//! least one local member.  The channel of room `r` is named `r_message`.
//! Subscribing is reference-like: the first local member of a room creates
//! the subscription, the last one leaving releases it.  The table below holds
//! only the room names; the transport handles live with the caller, keyed by
//! the same names.

use vstd::prelude::*;

use crate::seqs::{lemma_seq_remove_first_absent, lemma_seq_remove_first_at, seq_remove_first, seq_views};

verus! {

/// Kind of mutation applied to the shared membership index by the
/// `rooms_change` script.
#[derive(Clone, Copy, Debug, PartialEq, Eq, Structural)]
pub enum RoomChangeType {
    Add,
    Del,
    NameChange,
}

impl Default for RoomChangeType {
    /// The default mutation kind is `Add`.
    fn default() -> (res: Self)
        ensures
            res == RoomChangeType::Add,
    {
        RoomChangeType::Add
    }
}

/// One atomic mutation of the shared membership index: add a session to a
/// room, delete it from a room, or rename it everywhere.
pub struct ChangeRoomReq {
    pub id: String,
    pub name: Option<String>,
    pub room: String,
    pub kind: RoomChangeType,
}

/// Mathematical view of a [`ChangeRoomReq`].
#[verifier::ext_equal]
pub ghost struct ChangeReqView {
    pub id: Seq<char>,
    pub name: Option<Seq<char>>,
    pub room: Seq<char>,
    pub kind: RoomChangeType,
}

impl View for ChangeRoomReq {
    type V = ChangeReqView;

    open spec fn view(&self) -> ChangeReqView {
        ChangeReqView {
            id: self.id@,
            name: match self.name {
                Some(n) => Some(n@),
                None => None,
            },
            room: self.room@,
            kind: self.kind,
        }
    }
}

/// The view of a deletion request for session `id` in `room`.
pub open spec fn del_req(id: Seq<char>, room: Seq<char>) -> ChangeReqView {
    ChangeReqView { id, name: None, room, kind: RoomChangeType::Del }
}

/// Structured reply of the `rooms_change` script.  A non-zero status is a
/// semantic failure that the caller surfaces as a business error.
pub struct RoomChangeForHubResponse {
    pub status: i8,
    pub msg: String,
}

/// Envelope carried over a room's broker channel.
pub struct MessageForHub {
    pub room: String,
    pub id: String,
    pub content: String,
}

/// Mathematical view of a [`MessageForHub`].
#[verifier::ext_equal]
pub ghost struct MessageForHubView {
    pub room: Seq<char>,
    pub id: Seq<char>,
    pub content: Seq<char>,
}

impl View for MessageForHub {
    type V = MessageForHubView;

    open spec fn view(&self) -> MessageForHubView {
        MessageForHubView { room: self.room@, id: self.id@, content: self.content@ }
    }
}

/// Selector of the `rooms_retrieve` script: read the membership index by
/// room or by session.
#[derive(Clone, Copy, Debug, PartialEq, Eq, Structural)]
pub enum RetrieveRroomsReqType {
    RoomID,
    SessionID,
}

/// Request of the `rooms_retrieve` script.
pub struct RetrieveRroomsReq {
    pub kind: RetrieveRroomsReqType,
    pub id: String,
}

impl RetrieveRroomsReq {
    /// Builds a retrieval request from its selector and key.
    pub fn new(kind: RetrieveRroomsReqType, id: String) -> (res: Self)
        ensures
            res.kind == kind,
            res.id == id,
    {
        Self { kind, id }
    }
}

/// A room's roster entry: one session and its display name.
pub struct RosterEntry {
    pub session_id: String,
    pub name: String,
}

/// The roster of one room.
pub struct RoomRoster {
    pub room: String,
    pub members: Vec<RosterEntry>,
}

/// Reply of the `rooms_retrieve` script: for each room, the sessions in it
/// and their display names.
pub struct UpdateRooms(pub Vec<RoomRoster>);

/// Mathematical view of a [`RosterEntry`].
#[verifier::ext_equal]
pub ghost struct RosterEntryView {
    pub session_id: Seq<char>,
    pub name: Seq<char>,
}

impl View for RosterEntry {
    type V = RosterEntryView;

    open spec fn view(&self) -> RosterEntryView {
        RosterEntryView { session_id: self.session_id@, name: self.name@ }
    }
}

/// Mathematical view of a [`RoomRoster`].
#[verifier::ext_equal]
pub ghost struct RoomRosterView {
    pub room: Seq<char>,
    pub members: Seq<RosterEntryView>,
}

impl View for RoomRoster {
    type V = RoomRosterView;

    open spec fn view(&self) -> RoomRosterView {
        RoomRosterView {
            room: self.room@,
            members: self.members@.map_values(|e: RosterEntry| e@),
        }
    }
}

impl View for UpdateRooms {
    type V = Seq<RoomRosterView>;

    open spec fn view(&self) -> Seq<RoomRosterView> {
        self.0@.map_values(|r: RoomRoster| r@)
    }
}

/// Error surfaced when a script reports a semantic failure.
pub struct BusinessError {
    pub msg: String,
}

/// Name of the broker channel that carries the messages of `room`.
pub open spec fn spec_channel_name(room: Seq<char>) -> Seq<char> {
    room + "_message"@
}

/// Builds the broker channel name of a room.
pub fn channel_name(room: &String) -> (res: String)
    ensures
        res@ == spec_channel_name(room@),
{
    let mut out = room.clone();
    out.append("_message");
    out
}

/// Checks the structured reply of the `rooms_change` script: a zero status
/// is success, any other status is a business error carrying the reply's
/// message.
pub fn check_change_reply(reply: RoomChangeForHubResponse) -> (res: Result<(), BusinessError>)
    ensures
        reply.status == 0 <==> res is Ok,
        reply.status != 0 ==> (res matches Err(e) && e.msg == reply.msg),
{
    if reply.status == 0 {
        Ok(())
    } else {
        Err(BusinessError { msg: reply.msg })
    }
}

/// The per-process table of rooms with a live broker subscription.
pub struct HubState {
    pub channels: Vec<String>,
}

impl HubState {
    /// The rooms currently subscribed, in subscription order.
    pub open spec fn subs(&self) -> Seq<Seq<char>> {
        seq_views(self.channels@)
    }

    /// A fresh hub with no subscriptions.
    pub fn new() -> (res: Self)
        ensures
            res.subs() == Seq::<Seq<char>>::empty(),
    {
        let res = Self { channels: Vec::new() };
        proof {
            assert(res.subs() =~= Seq::<Seq<char>>::empty());
        }
        res
    }

    /// Whether `room` currently has a live subscription.
    pub fn is_subscribed(&self, room: &String) -> (res: bool)
        ensures
            res == self.subs().contains(room@),
    {
        let mut i: usize = 0;
        while i < self.channels.len()
            invariant
                i <= self.channels.len(),
                forall|j: int| 0 <= j < i ==> self.subs()[j] != room@,
            decreases self.channels.len() - i,
        {
            if self.channels[i] == *room {
                assert(self.subs()[i as int] == room@);
                return true;
            }
            i += 1;
        }
        proof {
            assert(forall|j: int| 0 <= j < self.subs().len() ==> self.subs()[j] != room@);
        }
        false
    }

    /// Records a subscription for `room` unless one is already live.
    /// Returns true when the caller must actually subscribe the broker
    /// channel (idempotence: nothing changes when a handle already exists).
    pub fn subscribe_room(&mut self, room: &String) -> (fresh: bool)
        ensures
            fresh == !old(self).subs().contains(room@),
            final(self).subs() == if fresh {
                old(self).subs().push(room@)
            } else {
                old(self).subs()
            },
    {
        if self.is_subscribed(room) {
            false
        } else {
            self.channels.push(room.clone());
            proof {
                assert(self.subs() =~= old(self).subs().push(room@));
            }
            true
        }
    }

    /// Drops the subscription record of `room` if one is live.  Returns
    /// true when the caller must signal the background task to close and
    /// wait for it to finish.
    pub fn unsubscribe_room(&mut self, room: &String) -> (had: bool)
        ensures
            had == old(self).subs().contains(room@),
            final(self).subs() == seq_remove_first(old(self).subs(), room@),
    {
        let mut i: usize = 0;
        while i < self.channels.len()
            invariant
                i <= self.channels.len(),
                forall|j: int| 0 <= j < i ==> self.subs()[j] != room@,
                self == old(self),
            decreases self.channels.len() - i,
        {
            if self.channels[i] == *room {
                self.channels.remove(i);
                proof {
                    assert(old(self).subs()[i as int] == room@);
                    lemma_seq_remove_first_at(old(self).subs(), room@, i as int);
                    assert(self.subs() =~= old(self).subs().remove(i as int));
                }
                return true;
            }
            i += 1;
        }
        proof {
            assert(!old(self).subs().contains(room@));
            lemma_seq_remove_first_absent(old(self).subs(), room@);
        }
        false
    }
}

} // verus!
