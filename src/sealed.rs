use vstd::prelude::*;

use crate::rooms::{RoomCache, RoomData};

mod private;

verus! {

/// A proof of being on the UI thread. Only this crate's types implement it.
pub trait UiThread: private::Sealed {}

/// The plain marker for the UI thread.
pub struct UiThreadMarker;

impl UiThread for UiThreadMarker {}

/// A token that only the UI thread creates and hands down.
pub struct UiThreadToken {
    _private: (),
}

impl UiThread for UiThreadToken {}

impl UiThreadToken {
    pub fn new() -> (r: UiThreadToken) {
        UiThreadToken { _private: () }
    }
}

/// Adds `room` to `cache`, replacing any room with the same id; callable only with a
/// proof of being on the UI thread.
pub fn add_room<T: UiThread>(_proof: &T, cache: &mut RoomCache, room: RoomData)
    requires
        old(cache).wf(),
    ensures
        final(cache).wf(),
        final(cache)@ == old(cache)@.insert(room.id@, room),
{
    cache.insert(room);
}

/// The room with id `room_id` in `cache`, if any; callable only with a proof of being on
/// the UI thread.
pub fn get_room<T: UiThread>(_proof: &T, cache: &RoomCache, room_id: &str) -> (r: Option<RoomData>)
    requires
        cache.wf(),
    ensures
        cache@.contains_key(room_id@) ==> r == Some(cache@[room_id@]),
        !cache@.contains_key(room_id@) ==> r is None,
{
    cache.get(room_id)
}

} // verus!
