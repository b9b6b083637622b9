//! The per-room message cache: room metadata, cached histories, and the
//! selected room.
//!
//! Histories are cached per room name. A cached history is always well
//! formed: no two adjacent runs share an author, no run is empty, and every
//! run carries the room it is cached under. The store is modelled as a map
//! from room name to history, together with the ordered room list and the
//! selected index.

use vstd::prelude::*;

use crate::grouping::{
    no_adjacent_same_author, runs_in_room, runs_nonempty, spec_append, append_message,
    lemma_append_well_formed,
};
use crate::messages::{RoomMessage, RunModel, UserMessages};

verus! {

/// A named chat room with its stable display-order position.
pub struct Room {
    pub name: String,
    pub idx: usize,
}

/// Model of a room: its name and display position.
#[verifier::ext_equal]
pub ghost struct RoomModel {
    pub name: Seq<char>,
    pub idx: int,
}

impl View for Room {
    type V = RoomModel;

    open spec fn view(&self) -> RoomModel {
        RoomModel { name: self.name@, idx: self.idx as int }
    }
}

impl DeepView for Room {
    type V = RoomModel;

    open spec fn deep_view(&self) -> RoomModel {
        self@
    }
}

impl Clone for Room {
    fn clone(&self) -> (res: Self)
        ensures
            res == *self,
    {
        Room { name: self.name.clone(), idx: self.idx }
    }
}

/// One cache slot: a room name and the history cached for it.
pub struct RoomCache {
    pub name: String,
    pub history: Vec<UserMessages>,
}

/// Model of one cache slot.
#[verifier::ext_equal]
pub ghost struct CacheModel {
    pub name: Seq<char>,
    pub history: Seq<RunModel>,
}

impl View for RoomCache {
    type V = CacheModel;

    open spec fn view(&self) -> CacheModel {
        CacheModel { name: self.name@, history: self.history.deep_view() }
    }
}

impl DeepView for RoomCache {
    type V = CacheModel;

    open spec fn deep_view(&self) -> CacheModel {
        self@
    }
}

/// Model of the store: the room list, the selected index, and the map from
/// room name to cached history.
#[verifier::ext_equal]
pub ghost struct StoreModel {
    pub rooms: Seq<RoomModel>,
    pub selected: Option<int>,
    pub histories: Map<Seq<char>, Seq<RunModel>>,
}

/// A well-formed history for the room named `room`.
pub open spec fn wf_history(h: Seq<RunModel>, room: Seq<char>) -> bool {
    &&& no_adjacent_same_author(h)
    &&& runs_nonempty(h)
    &&& runs_in_room(h, room)
}

/// No two cache slots share a name.
pub open spec fn distinct_cache_names(cs: Seq<CacheModel>) -> bool {
    forall|i: int, j: int|
        #![trigger cs[i].name, cs[j].name]
        0 <= i < j < cs.len() ==> cs[i].name != cs[j].name
}

/// The map a sequence of cache slots stands for: later slots win, though
/// well-formed stores never hold two slots with one name.
pub open spec fn map_of(cs: Seq<CacheModel>) -> Map<Seq<char>, Seq<RunModel>>
    decreases cs.len(),
{
    if cs.len() == 0 {
        Map::<Seq<char>, Seq<RunModel>>::empty()
    } else {
        map_of(cs.drop_last()).insert(cs.last().name, cs.last().history)
    }
}

proof fn lemma_map_of_absent(cs: Seq<CacheModel>, k: Seq<char>)
    requires
        forall|i: int| 0 <= i < cs.len() ==> (#[trigger] cs[i].name) != k,
    ensures
        !map_of(cs).contains_key(k),
    decreases cs.len(),
{
    if cs.len() > 0 {
        let prefix = cs.drop_last();
        assert(forall|i: int| 0 <= i < prefix.len() ==> (#[trigger] prefix[i].name) != k) by {
            assert(forall|i: int| 0 <= i < prefix.len() ==> prefix[i] == cs[i]);
        }
        lemma_map_of_absent(prefix, k);
        assert(cs.last().name != k);
    }
}

proof fn lemma_map_of_present(cs: Seq<CacheModel>, i: int)
    requires
        distinct_cache_names(cs),
        0 <= i < cs.len(),
    ensures
        map_of(cs).contains_key(cs[i].name),
        map_of(cs)[cs[i].name] == cs[i].history,
    decreases cs.len(),
{
    let prefix = cs.drop_last();
    if i == cs.len() - 1 {
        assert(cs.last() == cs[i]);
    } else {
        assert(distinct_cache_names(prefix)) by {
            assert(forall|x: int| 0 <= x < prefix.len() ==> prefix[x] == cs[x]);
        }
        assert(forall|x: int| 0 <= x < prefix.len() ==> prefix[x] == cs[x]);
        lemma_map_of_present(prefix, i);
        assert(cs.last().name != cs[i].name);
    }
}

proof fn lemma_map_of_push(cs: Seq<CacheModel>, c: CacheModel)
    ensures
        map_of(cs.push(c)) == map_of(cs).insert(c.name, c.history),
{
    assert(cs.push(c).drop_last() =~= cs);
    assert(cs.push(c).last() == c);
}

proof fn lemma_map_of_update(cs: Seq<CacheModel>, i: int, h: Seq<RunModel>)
    requires
        distinct_cache_names(cs),
        0 <= i < cs.len(),
    ensures
        map_of(cs.update(i, CacheModel { name: cs[i].name, history: h })) == map_of(cs).insert(
            cs[i].name,
            h,
        ),
    decreases cs.len(),
{
    let c2 = CacheModel { name: cs[i].name, history: h };
    let cs2 = cs.update(i, c2);
    let prefix = cs.drop_last();
    if i == cs.len() - 1 {
        assert(cs2.drop_last() =~= prefix);
        assert(cs2.last() == c2);
        assert(map_of(prefix).insert(cs[i].name, h) =~= map_of(cs).insert(cs[i].name, h));
    } else {
        assert(distinct_cache_names(prefix)) by {
            assert(forall|x: int| 0 <= x < prefix.len() ==> prefix[x] == cs[x]);
        }
        assert(forall|x: int| 0 <= x < prefix.len() ==> prefix[x] == cs[x]);
        lemma_map_of_update(prefix, i, h);
        assert(cs2.drop_last() =~= prefix.update(i, c2));
        assert(cs2.last() == cs.last());
        assert(cs.last().name != cs[i].name);
        assert(map_of(prefix).insert(cs[i].name, h).insert(cs.last().name, cs.last().history)
            =~= map_of(prefix).insert(cs.last().name, cs.last().history).insert(cs[i].name, h));
    }
}

/// The authoritative in-memory cache of room metadata and histories.
pub struct RoomStore {
    pub rooms: Vec<Room>,
    pub selected: Option<usize>,
    pub caches: Vec<RoomCache>,
}

impl View for RoomStore {
    type V = StoreModel;

    open spec fn view(&self) -> StoreModel {
        StoreModel {
            rooms: self.rooms.deep_view(),
            selected: match self.selected {
                Some(i) => Some(i as int),
                None => None,
            },
            histories: map_of(self.caches.deep_view()),
        }
    }
}

impl RoomStore {
    /// Internal consistency of the store: room indices are their positions,
    /// cache names are unique, the selected index is in bounds, and every
    /// cached history is well formed for the room it is cached under.
    pub open spec fn wf(self) -> bool {
        &&& forall|i: int|
            0 <= i < self.rooms@.len() ==> (#[trigger] self.rooms.deep_view()[i].idx) == i
        &&& distinct_cache_names(self.caches.deep_view())
        &&& match self.selected {
            Some(k) => k < self.rooms@.len(),
            None => true,
        }
        &&& forall|i: int|
            0 <= i < self.caches@.len() ==> wf_history(
                (#[trigger] self.caches.deep_view()[i]).history,
                self.caches.deep_view()[i].name,
            )
    }

    /// An empty store: no rooms, no caches, nothing selected.
    pub fn new() -> (res: Self)
        ensures
            res.wf(),
            res@.rooms == Seq::<RoomModel>::empty(),
            res@.selected == Option::<int>::None,
            res@.histories == Map::<Seq<char>, Seq<RunModel>>::empty(),
    {
        let res = RoomStore { rooms: Vec::new(), selected: None, caches: Vec::new() };
        proof {
            assert(res.rooms.deep_view() =~= Seq::<RoomModel>::empty());
            assert(res.caches.deep_view() =~= Seq::<CacheModel>::empty());
        }
        res
    }
}

impl Default for RoomStore {
    /// The blank state before any session data arrives.
    fn default() -> (res: Self)
        ensures
            res.wf(),
            res@.rooms == Seq::<RoomModel>::empty(),
            res@.selected == Option::<int>::None,
            res@.histories == Map::<Seq<char>, Seq<RunModel>>::empty(),
    {
        RoomStore::new()
    }
}

impl RoomStore {
    /// The position of the cache slot for `name`, if one exists.
    fn find_cache(&self, name: &String) -> (r: Option<usize>)
        ensures
            match r {
                Some(i) => i < self.caches@.len() && self.caches.deep_view()[i as int].name
                    == name@,
                None => forall|i: int|
                    0 <= i < self.caches@.len() ==> (#[trigger] self.caches.deep_view()[i].name)
                        != name@,
            },
    {
        let mut j: usize = 0;
        while j < self.caches.len()
            invariant
                j <= self.caches@.len(),
                forall|i: int|
                    0 <= i < j ==> (#[trigger] self.caches.deep_view()[i].name) != name@,
            decreases self.caches@.len() - j,
        {
            if self.caches[j].name == *name {
                return Some(j);
            }
            j = j + 1;
        }
        None
    }

    /// Membership check: is a history cached for this room name? Used to
    /// decide whether a remote fetch is required before displaying a room.
    pub fn has(&self, name: &String) -> (r: bool)
        requires
            self.wf(),
        ensures
            r == self@.histories.contains_key(name@),
    {
        let found = self.find_cache(name);
        proof {
            match found {
                Some(i) => lemma_map_of_present(self.caches.deep_view(), i as int),
                None => lemma_map_of_absent(self.caches.deep_view(), name@),
            }
        }
        found.is_some()
    }

    /// The cached history for a room name, or an empty history where none is
    /// cached. Never fails.
    pub fn get(&self, name: &String) -> (r: Vec<UserMessages>)
        requires
            self.wf(),
        ensures
            r.deep_view() == if self@.histories.contains_key(name@) {
                self@.histories[name@]
            } else {
                Seq::<RunModel>::empty()
            },
    {
        match self.find_cache(name) {
            Some(i) => {
                proof {
                    lemma_map_of_present(self.caches.deep_view(), i as int);
                }
                let r = self.caches[i].history.clone();
                proof {
                    assert(r.deep_view() =~= self.caches.deep_view()[i as int].history);
                }
                r
            },
            None => {
                proof {
                    lemma_map_of_absent(self.caches.deep_view(), name@);
                }
                let r = Vec::<UserMessages>::new();
                proof {
                    assert(r.deep_view() =~= Seq::<RunModel>::empty());
                }
                r
            },
        }
    }

    /// Replaces (or initializes) the cached history for a room. Used once per
    /// room, at first-visit fetch time.
    pub fn put(&mut self, name: String, history: Vec<UserMessages>)
        requires
            old(self).wf(),
            wf_history(history.deep_view(), name@),
        ensures
            final(self).wf(),
            final(self)@.histories == old(self)@.histories.insert(name@, history.deep_view()),
            final(self)@.rooms == old(self)@.rooms,
            final(self)@.selected == old(self)@.selected,
    {
        let ghost cs0 = self.caches.deep_view();
        let ghost h = history.deep_view();
        match self.find_cache(&name) {
            Some(i) => {
                let _old_entry = self.caches.remove(i);
                self.caches.insert(i, RoomCache { name, history });
                proof {
                    assert(self.caches.deep_view() =~= cs0.update(
                        i as int,
                        CacheModel { name: cs0[i as int].name, history: h },
                    ));
                    lemma_map_of_update(cs0, i as int, h);
                }
            },
            None => {
                self.caches.push(RoomCache { name, history });
                proof {
                    assert(self.caches.deep_view() =~= cs0.push(
                        CacheModel { name: name@, history: h },
                    ));
                    lemma_map_of_push(cs0, CacheModel { name: name@, history: h });
                }
            },
        }
    }

    /// Applies one live message: the history cached under the message's room
    /// is extended by the live-append step, and a room with no cache yet gets
    /// a fresh one-run history. Never fails.
    pub fn append_live(&mut self, message: RoomMessage)
        requires
            old(self).wf(),
        ensures
            final(self).wf(),
            final(self)@.histories == old(self)@.histories.insert(
                message@.room,
                spec_append(
                    if old(self)@.histories.contains_key(message@.room) {
                        old(self)@.histories[message@.room]
                    } else {
                        Seq::<RunModel>::empty()
                    },
                    message@,
                ),
            ),
            final(self)@.rooms == old(self)@.rooms,
            final(self)@.selected == old(self)@.selected,
    {
        let ghost cs0 = self.caches.deep_view();
        let ghost m = message@;
        match self.find_cache(&message.room) {
            Some(i) => {
                proof {
                    lemma_map_of_present(cs0, i as int);
                }
                let mut entry = self.caches.remove(i);
                let ghost h0 = entry.history.deep_view();
                proof {
                    lemma_append_well_formed(h0, m);
                }
                append_message(&mut entry.history, message);
                self.caches.insert(i, entry);
                proof {
                    assert(self.caches.deep_view() =~= cs0.update(
                        i as int,
                        CacheModel { name: cs0[i as int].name, history: spec_append(h0, m) },
                    ));
                    lemma_map_of_update(cs0, i as int, spec_append(h0, m));
                }
            },
            None => {
                proof {
                    lemma_map_of_absent(cs0, m.room);
                    lemma_append_well_formed(Seq::<RunModel>::empty(), m);
                }
                let room = message.room.clone();
                let mut history = Vec::<UserMessages>::new();
                proof {
                    assert(history.deep_view() =~= Seq::<RunModel>::empty());
                }
                append_message(&mut history, message);
                self.caches.push(RoomCache { name: room, history });
                proof {
                    let c = CacheModel {
                        name: m.room,
                        history: spec_append(Seq::<RunModel>::empty(), m),
                    };
                    assert(self.caches.deep_view() =~= cs0.push(c));
                    lemma_map_of_push(cs0, c);
                }
            },
        }
    }

    /// Appends a new room at the end of the room list, with its index equal
    /// to the previous room count, and initializes an empty history for it.
    /// Selecting the new room is the caller's responsibility.
    pub fn create_room(&mut self, name: String) -> (r: Room)
        requires
            old(self).wf(),
            forall|i: int|
                0 <= i < old(self)@.rooms.len() ==> (#[trigger] old(self)@.rooms[i].name) != name@,
        ensures
            final(self).wf(),
            r@ == (RoomModel { name: name@, idx: old(self)@.rooms.len() as int }),
            final(self)@.rooms == old(self)@.rooms.push(r@),
            final(self)@.histories == old(self)@.histories.insert(name@, Seq::<RunModel>::empty()),
            final(self)@.selected == old(self)@.selected,
    {
        let ghost rooms0 = self.rooms.deep_view();
        let idx = self.rooms.len();
        let room = Room { name: name.clone(), idx };
        let r = room.clone();
        self.rooms.push(room);
        proof {
            assert(self.rooms.deep_view() =~= rooms0.push(
                RoomModel { name: name@, idx: idx as int },
            ));
        }
        let empty_history = Vec::<UserMessages>::new();
        proof {
            assert(empty_history.deep_view() =~= Seq::<RunModel>::empty());
        }
        self.put(name, empty_history);
        r
    }

    /// Sets the selected room index. Out-of-range selection is a contract
    /// violation, not a runtime error.
    pub fn select_room(&mut self, index: usize)
        requires
            old(self).wf(),
            index < old(self)@.rooms.len(),
        ensures
            final(self).wf(),
            final(self)@.selected == Some(index as int),
            final(self)@.rooms == old(self)@.rooms,
            final(self)@.histories == old(self)@.histories,
    {
        self.selected = Some(index);
    }

    /// The history of the selected room, or an empty history when no room is
    /// selected. This is the read path the front end renders from.
    pub fn current_room_messages(&self) -> (r: Vec<UserMessages>)
        requires
            self.wf(),
        ensures
            r.deep_view() == match self@.selected {
                Some(k) => {
                    let name = self@.rooms[k].name;
                    if self@.histories.contains_key(name) {
                        self@.histories[name]
                    } else {
                        Seq::<RunModel>::empty()
                    }
                },
                None => Seq::<RunModel>::empty(),
            },
    {
        match self.selected {
            Some(k) => self.get(&self.rooms[k].name),
            None => {
                let r = Vec::<UserMessages>::new();
                proof {
                    assert(r.deep_view() =~= Seq::<RunModel>::empty());
                }
                r
            },
        }
    }
}

} // verus!
