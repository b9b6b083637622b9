//! The reconciliation controller: the single owner of the room store.
//!
//! All mutations of the store go through this one coordinator: live inbound
//! events from the reader path, send intents and room switches from the
//! front end, and fetched room histories from the HTTP collaborator. A room
//! switch to an uncached room caches the fetched history before the
//! selection moves, so a selected room is never shown without its history;
//! a failed or malformed fetch aborts the switch and leaves every part of
//! the state as it was.

use vstd::prelude::*;

use crate::channel::DuplexChannel;
use crate::grouping::{
    group_into_user_messages, lemma_group_well_formed, sorted_by_timestamp, spec_append,
    spec_group,
};
use crate::messages::{ChatMessage, MsgModel, OutModel, RoomMessage, RunModel};
use crate::store::{Room, RoomModel, RoomStore, wf_history};
use crate::user::UserInfo;

verus! {

/// Server-native history order: timestamps never increase along the
/// sequence (most recent first).
pub open spec fn sorted_newest_first(ms: Seq<MsgModel>) -> bool {
    forall|i: int, j: int|
        0 <= i < j < ms.len() ==> #[trigger] ms[i].timestamp >= #[trigger] ms[j].timestamp
}

/// All messages of the sequence carry the given room.
pub open spec fn all_in_room(ms: Seq<MsgModel>, room: Seq<char>) -> bool {
    forall|i: int| 0 <= i < ms.len() ==> (#[trigger] ms[i].room) == room
}

proof fn lemma_desc_pair(ms: Seq<MsgModel>, i: int, j: int)
    requires
        forall|k: int| 0 <= k < ms.len() - 1 ==> (#[trigger] ms[k].timestamp) >= ms[k + 1].timestamp,
        0 <= i <= j < ms.len(),
    ensures
        ms[i].timestamp >= ms[j].timestamp,
    decreases j - i,
{
    if i < j {
        lemma_desc_pair(ms, i, j - 1);
    }
}

proof fn lemma_reverse_sorted(ms: Seq<MsgModel>)
    requires
        sorted_newest_first(ms),
    ensures
        sorted_by_timestamp(ms.reverse()),
{
    let n = ms.len() as int;
    assert forall|i: int, j: int| 0 <= i < j < ms.reverse().len() implies #[trigger] ms.reverse()[i].timestamp
        <= #[trigger] ms.reverse()[j].timestamp by {
        assert(ms.reverse()[i] == ms[n - 1 - i]);
        assert(ms.reverse()[j] == ms[n - 1 - j]);
        assert(ms[n - 1 - j].timestamp >= ms[n - 1 - i].timestamp);
    }
}

/// Reverses a message sequence: the bridge from the server's newest-first
/// history order to the chronological order grouping expects.
pub fn reverse_messages(v: Vec<RoomMessage>) -> (r: Vec<RoomMessage>)
    ensures
        r.deep_view() == v.deep_view().reverse(),
{
    let n = v.len();
    let mut r: Vec<RoomMessage> = Vec::new();
    let mut i: usize = 0;
    while i < n
        invariant
            i <= n,
            n == v@.len(),
            r@.len() == i,
            forall|k: int| 0 <= k < i ==> (#[trigger] r@[k]) == v@[n - 1 - k],
        decreases n - i,
    {
        r.push(v[n - 1 - i].clone());
        i = i + 1;
    }
    proof {
        assert(r.deep_view() =~= v.deep_view().reverse());
    }
    r
}

fn check_all_in_room(v: &Vec<RoomMessage>, name: &String) -> (ok: bool)
    ensures
        ok == all_in_room(v.deep_view(), name@),
{
    let mut i: usize = 0;
    while i < v.len()
        invariant
            i <= v@.len(),
            forall|k: int| 0 <= k < i ==> (#[trigger] v.deep_view()[k].room) == name@,
        decreases v@.len() - i,
    {
        if !(v[i].room == *name) {
            proof {
                assert(v.deep_view()[i as int].room == v@[i as int]@.room);
                assert(!all_in_room(v.deep_view(), name@));
            }
            return false;
        }
        i = i + 1;
    }
    true
}

fn check_newest_first(v: &Vec<RoomMessage>) -> (ok: bool)
    ensures
        ok == sorted_newest_first(v.deep_view()),
{
    let ghost ms = v.deep_view();
    if v.len() < 2 {
        return true;
    }
    let mut i: usize = 0;
    while i < v.len() - 1
        invariant
            v@.len() >= 2,
            i <= v@.len() - 1,
            ms == v.deep_view(),
            forall|k: int| 0 <= k < i ==> (#[trigger] ms[k].timestamp) >= ms[k + 1].timestamp,
        decreases v@.len() - i,
    {
        if v[i].timestamp < v[i + 1].timestamp {
            proof {
                assert(ms[i as int].timestamp < ms[i as int + 1].timestamp);
                assert(!sorted_newest_first(ms));
            }
            return false;
        }
        i = i + 1;
    }
    proof {
        assert forall|a: int, b: int| 0 <= a < b < ms.len() implies #[trigger] ms[a].timestamp
            >= #[trigger] ms[b].timestamp by {
            lemma_desc_pair(ms, a, b);
        }
    }
    true
}

/// The top-level coordinator: owns the room store, the session identity, the
/// pending input line, and the outbound handle of the duplex connection.
pub struct SyncController {
    pub store: RoomStore,
    pub user: UserInfo,
    pub textbox: String,
    pub channel: DuplexChannel,
}

impl SyncController {
    /// The controller is well formed when its store is.
    pub open spec fn wf(self) -> bool {
        self.store.wf()
    }

    /// A controller over the rooms the session starts with: no histories
    /// cached yet, and the given room selected, or none when no rooms exist.
    pub fn new(
        rooms: Vec<Room>,
        selected_room: usize,
        user: UserInfo,
        channel: DuplexChannel,
    ) -> (r: Self)
        requires
            forall|i: int|
                0 <= i < rooms@.len() ==> (#[trigger] rooms.deep_view()[i].idx) == i,
            rooms@.len() > 0 ==> selected_room < rooms@.len(),
        ensures
            r.wf(),
            r.store@.rooms == rooms.deep_view(),
            r.store@.selected == if rooms@.len() == 0 {
                Option::<int>::None
            } else {
                Some(selected_room as int)
            },
            r.store@.histories == Map::<Seq<char>, Seq<RunModel>>::empty(),
            r.textbox@ == Seq::<char>::empty(),
            r.user == user,
    {
        let selected = if rooms.len() == 0 {
            None
        } else {
            Some(selected_room)
        };
        let store = RoomStore { rooms, selected, caches: Vec::new() };
        proof {
            assert(store.caches.deep_view() =~= Seq::<crate::store::CacheModel>::empty());
        }
        SyncController { store, user, textbox: String::new(), channel }
    }

    /// Whether displaying the named room first requires a history fetch.
    pub fn needs_history(&self, name: &String) -> (r: bool)
        requires
            self.wf(),
        ensures
            r == !self.store@.histories.contains_key(name@),
    {
        !self.store.has(name)
    }

    /// Caches a fetched history: the server-native newest-first sequence is
    /// reversed to chronological order, grouped, and stored for the room.
    /// The fetch result is accepted exactly when every message belongs to
    /// the named room and the order is newest-first; anything else is
    /// treated as a failed fetch, and nothing changes.
    pub fn load_room_history(&mut self, name: String, newest_first: Vec<RoomMessage>) -> (ok:
        bool)
        requires
            old(self).wf(),
        ensures
            final(self).wf(),
            ok == (all_in_room(newest_first.deep_view(), name@) && sorted_newest_first(
                newest_first.deep_view(),
            )),
            ok ==> final(self).store@.histories == old(self).store@.histories.insert(
                name@,
                spec_group(newest_first.deep_view().reverse()),
            ),
            ok ==> final(self).store@.rooms == old(self).store@.rooms,
            ok ==> final(self).store@.selected == old(self).store@.selected,
            ok ==> final(self).user == old(self).user && final(self).textbox == old(self).textbox,
            !ok ==> *final(self) == *old(self),
    {
        let ghost ms = newest_first.deep_view();
        if !check_all_in_room(&newest_first, &name) {
            return false;
        }
        if !check_newest_first(&newest_first) {
            return false;
        }
        proof {
            lemma_reverse_sorted(ms);
        }
        let ascending = reverse_messages(newest_first);
        let ghost asc = ms.reverse();
        let grouped = group_into_user_messages(ascending);
        proof {
            lemma_group_well_formed(asc);
            if asc.len() > 0 {
                assert(asc[0] == ms[ms.len() - 1]);
                assert(asc[0].room == name@);
            }
            assert(wf_history(spec_group(asc), name@));
        }
        self.store.put(name, grouped);
        true
    }

    /// A room switch that needed a fetch: caches the fetched history, then
    /// moves the selection. The store is populated before the selection
    /// changes, so the front end never observes a selected room with no
    /// cached history: after an accepted switch the room's history is cached
    /// and non-empty whenever the fetch returned at least one message, and
    /// the selected index is the given one. A rejected fetch result aborts
    /// the switch with nothing changed.
    pub fn on_room_switch_fetched(
        &mut self,
        index: usize,
        name: String,
        newest_first: Vec<RoomMessage>,
    ) -> (ok: bool)
        requires
            old(self).wf(),
            index < old(self).store@.rooms.len(),
        ensures
            final(self).wf(),
            ok == (all_in_room(newest_first.deep_view(), name@) && sorted_newest_first(
                newest_first.deep_view(),
            )),
            ok ==> {
                &&& final(self).store@.histories == old(self).store@.histories.insert(
                    name@,
                    spec_group(newest_first.deep_view().reverse()),
                )
                &&& final(self).store@.histories.contains_key(name@)
                &&& newest_first@.len() > 0 ==> final(self).store@.histories[name@].len() > 0
                &&& final(self).store@.selected == Some(index as int)
                &&& final(self).store@.rooms == old(self).store@.rooms
            },
            !ok ==> *final(self) == *old(self),
    {
        let ghost ms = newest_first.deep_view();
        if self.load_room_history(name, newest_first) {
            self.store.select_room(index);
            proof {
                lemma_group_well_formed(ms.reverse());
            }
            true
        } else {
            false
        }
    }

    /// A room switch whose history is already cached: only the selection
    /// moves.
    pub fn on_room_switch_cached(&mut self, index: usize)
        requires
            old(self).wf(),
            index < old(self).store@.rooms.len(),
        ensures
            final(self).wf(),
            final(self).store@.selected == Some(index as int),
            final(self).store@.rooms == old(self).store@.rooms,
            final(self).store@.histories == old(self).store@.histories,
            final(self).user == old(self).user,
            final(self).textbox == old(self).textbox,
    {
        self.store.select_room(index);
    }

    /// A live inbound event: runs the message through the live-append step
    /// of its room's history and names the room the front end must refresh.
    pub fn on_incoming_event(&mut self, message: RoomMessage) -> (room: String)
        requires
            old(self).wf(),
        ensures
            final(self).wf(),
            room@ == message@.room,
            final(self).store@.histories == old(self).store@.histories.insert(
                message@.room,
                spec_append(
                    if old(self).store@.histories.contains_key(message@.room) {
                        old(self).store@.histories[message@.room]
                    } else {
                        Seq::<RunModel>::empty()
                    },
                    message@,
                ),
            ),
            final(self).store@.rooms == old(self).store@.rooms,
            final(self).store@.selected == old(self).store@.selected,
            final(self).user == old(self).user,
            final(self).textbox == old(self).textbox,
    {
        let room = message.room.clone();
        self.store.append_live(message);
        room
    }

    /// The outbound record a send intent builds: the session's author, the
    /// selected room, and the typed text. Calling with no room selected is a
    /// contract violation.
    pub fn build_outgoing(&self, text: String) -> (m: ChatMessage)
        requires
            self.wf(),
            self.store@.selected is Some,
        ensures
            m@ == (OutModel {
                user: self.user@.name,
                room: self.store@.rooms[self.store@.selected->0].name,
                message: text@,
            }),
    {
        let k = match self.store.selected {
            Some(k) => k,
            None => {
                proof {
                    assert(false);
                }
                0
            },
        };
        ChatMessage {
            user: self.user.name.clone(),
            room: self.store.rooms[k].name.clone(),
            message: text,
        }
    }

    /// A send intent from the front end: builds the outbound record, hands
    /// it to the duplex channel (fire-and-forget, no local echo), and clears
    /// the pending input line. The store changes only when the server
    /// reflects the message back through the inbound path.
    pub fn on_user_send(&mut self, text: String) -> (accepted: bool)
        requires
            old(self).wf(),
            old(self).store@.selected is Some,
        ensures
            final(self).wf(),
            final(self).textbox@ == Seq::<char>::empty(),
            final(self).store == old(self).store,
            final(self).user == old(self).user,
    {
        let intent = self.build_outgoing(text);
        let accepted = self.channel.send(&intent);
        self.textbox = String::new();
        accepted
    }

    /// A confirmed room creation: the room is appended at the end of the
    /// list with index equal to the previous room count, starts with an
    /// empty cached history, and becomes the selected room. The server
    /// confirmed the name, so it is new to the list.
    pub fn on_room_created(&mut self, name: String) -> (r: Room)
        requires
            old(self).wf(),
            forall|i: int|
                0 <= i < old(self).store@.rooms.len() ==> (#[trigger] old(
                    self,
                ).store@.rooms[i].name) != name@,
        ensures
            final(self).wf(),
            r@ == (RoomModel { name: name@, idx: old(self).store@.rooms.len() as int }),
            final(self).store@.rooms == old(self).store@.rooms.push(r@),
            final(self).store@.selected == Some(old(self).store@.rooms.len() as int),
            final(self).store@.histories == old(self).store@.histories.insert(
                name@,
                Seq::<RunModel>::empty(),
            ),
            final(self).user == old(self).user,
            final(self).textbox == old(self).textbox,
    {
        let room = self.store.create_room(name);
        let index = room.idx;
        self.store.select_room(index);
        room
    }
}

} // verus!
