use vstd::prelude::*;

verus! {

/// What the UI knows of one room.
#[derive(Debug)]
pub struct RoomData {
    pub id: String,
    pub name: String,
    pub unread_count: u32,
}

impl Clone for RoomData {
    fn clone(&self) -> (r: RoomData)
        ensures
            r == *self,
    {
        RoomData { id: self.id.clone(), name: self.name.clone(), unread_count: self.unread_count }
    }
}

/// Rooms by id; at most one room per id.
pub struct RoomCache {
    rooms: Vec<RoomData>,
    by_id: Ghost<Map<Seq<char>, RoomData>>,
}

impl View for RoomCache {
    type V = Map<Seq<char>, RoomData>;

    closed spec fn view(&self) -> Map<Seq<char>, RoomData> {
        self.by_id@
    }
}

/// `room` with its unread count set to `count`.
pub open spec fn with_unread(room: RoomData, count: u32) -> RoomData {
    RoomData { unread_count: count, ..room }
}

impl RoomCache {
    pub closed spec fn wf(&self) -> bool {
        &&& forall|a: int, b: int|
            0 <= a < b < self.rooms@.len() ==> self.rooms@[a].id@ != self.rooms@[b].id@
        &&& forall|k: int|
            0 <= k < self.rooms@.len() ==> self.by_id@.contains_key(#[trigger] self.rooms@[k].id@)
                && self.by_id@[self.rooms@[k].id@] == self.rooms@[k]
        &&& forall|id: Seq<char>|
            #[trigger] self.by_id@.contains_key(id) ==> exists|k: int|
                0 <= k < self.rooms@.len() && self.rooms@[k].id@ == id
    }

    pub fn new() -> (r: RoomCache)
        ensures
            r.wf(),
            r@ == Map::<Seq<char>, RoomData>::empty(),
    {
        RoomCache { rooms: Vec::new(), by_id: Ghost(Map::empty()) }
    }

    /// Where the room with id `id` is held, if anywhere.
    fn position_of(&self, id: &String) -> (r: Option<usize>)
        requires
            self.wf(),
        ensures
            r matches Some(k) ==> k < self.rooms@.len() && self.rooms@[k as int].id@ == id@,
            r is None ==> !self@.contains_key(id@),
    {
        let mut k: usize = 0;
        while k < self.rooms.len()
            invariant
                k <= self.rooms@.len(),
                forall|j: int| 0 <= j < k ==> self.rooms@[j].id@ != id@,
            decreases self.rooms@.len() - k,
        {
            if self.rooms[k].id == *id {
                return Some(k);
            }
            k = k + 1;
        }
        None
    }

    /// Adds `room`, replacing any room with the same id.
    pub fn insert(&mut self, room: RoomData)
        requires
            old(self).wf(),
        ensures
            final(self).wf(),
            final(self)@ == old(self)@.insert(room.id@, room),
    {
        let ghost key = room.id@;
        let ghost old_rooms = self.rooms@;
        let pos = self.position_of(&room.id);
        self.by_id = Ghost(self.by_id@.insert(key, room));
        match pos {
            Some(k) => {
                self.rooms.set(k, room);
                assert forall|id: Seq<char>| #[trigger] self.by_id@.contains_key(id) implies exists|
                    j: int,
                | 0 <= j < self.rooms@.len() && self.rooms@[j].id@ == id by {
                    if id != key {
                        let j = choose|j: int| 0 <= j < old_rooms.len() && old_rooms[j].id@ == id;
                        assert(self.rooms@[j].id@ == id);
                    } else {
                        assert(self.rooms@[k as int].id@ == id);
                    }
                }
            },
            None => {
                self.rooms.push(room);
                assert forall|id: Seq<char>| #[trigger] self.by_id@.contains_key(id) implies exists|
                    j: int,
                | 0 <= j < self.rooms@.len() && self.rooms@[j].id@ == id by {
                    if id != key {
                        let j = choose|j: int| 0 <= j < old_rooms.len() && old_rooms[j].id@ == id;
                        assert(self.rooms@[j].id@ == id);
                    } else {
                        assert(self.rooms@[old_rooms.len() as int].id@ == id);
                    }
                }
            },
        }
    }

    /// The room with id `room_id`, if there is one.
    pub fn get(&self, room_id: &str) -> (r: Option<RoomData>)
        requires
            self.wf(),
        ensures
            self@.contains_key(room_id@) ==> r == Some(self@[room_id@]),
            !self@.contains_key(room_id@) ==> r is None,
    {
        let id = room_id.to_owned();
        match self.position_of(&id) {
            Some(k) => Some(self.rooms[k].clone()),
            None => None,
        }
    }

    /// Sets the unread count of the room with id `room_id`; no room, no change.
    pub fn set_unread_count(&mut self, room_id: &str, count: u32)
        requires
            old(self).wf(),
        ensures
            final(self).wf(),
            old(self)@.contains_key(room_id@) ==> final(self)@ == old(self)@.insert(
                room_id@,
                with_unread(old(self)@[room_id@], count),
            ),
            !old(self)@.contains_key(room_id@) ==> final(self)@ == old(self)@,
    {
        let id = room_id.to_owned();
        match self.position_of(&id) {
            Some(k) => {
                let room = RoomData {
                    id: self.rooms[k].id.clone(),
                    name: self.rooms[k].name.clone(),
                    unread_count: count,
                };
                self.insert(room);
            },
            None => {},
        }
    }

    /// Removes every room.
    pub fn clear(&mut self)
        ensures
            final(self).wf(),
            final(self)@ == Map::<Seq<char>, RoomData>::empty(),
    {
        self.rooms = Vec::new();
        self.by_id = Ghost(Map::empty());
    }

    pub fn len(&self) -> (r: usize)
        requires
            self.wf(),
        ensures
            r == self@.len(),
    {
        proof {
            self.lemma_len();
        }
        self.rooms.len()
    }

    proof fn lemma_len(&self)
        requires
            self.wf(),
        ensures
            self.rooms@.len() == self@.len(),
    {
        let ids = Seq::new(self.rooms@.len(), |k: int| self.rooms@[k].id@);
        assert(ids.no_duplicates());
        assert(self@.dom() =~= ids.to_set()) by {
            assert forall|id: Seq<char>| self@.dom().contains(id) implies
                ids.to_set().contains(id) by {
                let k = choose|k: int| 0 <= k < self.rooms@.len() && self.rooms@[k].id@ == id;
                assert(ids[k] == id);
            }
        }
        ids.unique_seq_to_set();
    }
}

/// The UI thread's context. Holding one is what lets code touch the rooms it owns.
pub struct UiContext {
    cache: RoomCache,
}

impl UiContext {
    pub closed spec fn rooms(&self) -> Map<Seq<char>, RoomData> {
        self.cache@
    }

    pub closed spec fn wf(&self) -> bool {
        self.cache.wf()
    }

    pub fn new() -> (r: UiContext)
        ensures
            r.wf(),
            r.rooms() == Map::<Seq<char>, RoomData>::empty(),
    {
        UiContext { cache: RoomCache::new() }
    }
}

/// Adds `room` to the context's rooms, replacing any room with the same id.
pub fn add_room(ui: &mut UiContext, room: RoomData)
    requires
        old(ui).wf(),
    ensures
        final(ui).wf(),
        final(ui).rooms() == old(ui).rooms().insert(room.id@, room),
{
    ui.cache.insert(room);
}

/// The room with id `room_id`, if the context holds one.
pub fn get_room(ui: &UiContext, room_id: &str) -> (r: Option<RoomData>)
    requires
        ui.wf(),
    ensures
        ui.rooms().contains_key(room_id@) ==> r == Some(ui.rooms()[room_id@]),
        !ui.rooms().contains_key(room_id@) ==> r is None,
{
    ui.cache.get(room_id)
}

/// Sets the unread count of the room with id `room_id`; no room, no change.
pub fn update_unread_count(ui: &mut UiContext, room_id: &str, count: u32)
    requires
        old(ui).wf(),
    ensures
        final(ui).wf(),
        old(ui).rooms().contains_key(room_id@) ==> final(ui).rooms() == old(ui).rooms().insert(
            room_id@,
            with_unread(old(ui).rooms()[room_id@], count),
        ),
        !old(ui).rooms().contains_key(room_id@) ==> final(ui).rooms() == old(ui).rooms(),
{
    ui.cache.set_unread_count(room_id, count);
}

/// The context's room cache.
pub fn get_room_cache(ui: &UiContext) -> (r: &RoomCache)
    ensures
        r@ == ui.rooms(),
        ui.wf() ==> r.wf(),
{
    &ui.cache
}

/// Removes every room of the context.
pub fn clear_all_rooms(ui: &mut UiContext)
    ensures
        final(ui).wf(),
        final(ui).rooms() == Map::<Seq<char>, RoomData>::empty(),
{
    ui.cache.clear();
}

} // verus!
