use vstd::prelude::*;

verus! {

/// One event of the timeline: an identifier and an opaque payload.
#[derive(Debug)]
pub struct Event {
    pub id: String,
    pub content: String,
}

impl Clone for Event {
    fn clone(&self) -> (r: Event)
        ensures
            r == *self,
    {
        Event { id: self.id.clone(), content: self.content.clone() }
    }
}

impl Edit {
    /// Whether this edit names a position that exists in a timeline of length `len`.
    pub fn fits(&self, len: usize) -> (r: bool)
        ensures
            r == edit_in_range(*self, len as nat),
    {
        match self {
            Edit::Append(_) => true,
            Edit::Prepend(_) => true,
            Edit::InsertAt(i, _) => *i <= len,
            Edit::RemoveAt(i) => *i < len,
        }
    }
}

impl Event {
    pub fn new(id: String, content: String) -> (r: Event)
        ensures
            r.id == id,
            r.content == content,
    {
        Event { id, content }
    }
}

/// One structural change to the timeline.
#[derive(Debug)]
pub enum Edit {
    /// Insert at the end; no existing index moves.
    Append(Event),
    /// Insert at index 0; every existing index moves up by one.
    Prepend(Event),
    /// Insert before the given index; indices at or above it move up by one.
    InsertAt(usize, Event),
    /// Remove the event at the given index; indices above it move down by one.
    RemoveAt(usize),
}

/// Whether `e` names a position that exists in a sequence of length `len`.
pub open spec fn edit_in_range(e: Edit, len: nat) -> bool {
    match e {
        Edit::Append(_) => true,
        Edit::Prepend(_) => true,
        Edit::InsertAt(i, _) => i <= len,
        Edit::RemoveAt(i) => i < len,
    }
}

/// The sequence after `e`; an edit out of range leaves it as it was.
pub open spec fn edited(s: Seq<Event>, e: Edit) -> Seq<Event> {
    if !edit_in_range(e, s.len()) {
        s
    } else {
        match e {
            Edit::Append(ev) => s.push(ev),
            Edit::Prepend(ev) => s.insert(0, ev),
            Edit::InsertAt(i, ev) => s.insert(i as int, ev),
            Edit::RemoveAt(i) => s.remove(i as int),
        }
    }
}

/// The event that `e` brings into a sequence of length `len`, with the index it lands at.
pub open spec fn introduced(e: Edit, len: nat) -> Option<(nat, Event)> {
    match e {
        Edit::Append(ev) => Some((len, ev)),
        Edit::Prepend(ev) => Some((0, ev)),
        Edit::InsertAt(i, ev) => Some((i as nat, ev)),
        Edit::RemoveAt(_) => None,
    }
}

/// Where an event at index `i` stands after the in-range edit `e`;
/// `None` when `e` deletes it.
pub open spec fn shifted(i: nat, e: Edit) -> Option<nat> {
    match e {
        Edit::Append(_) => Some(i),
        Edit::Prepend(_) => Some(i + 1),
        Edit::InsertAt(j, _) => if j <= i { Some(i + 1) } else { Some(i) },
        Edit::RemoveAt(j) => if j < i {
            Some((i - 1) as nat)
        } else if j == i {
            None
        } else {
            Some(i)
        },
    }
}

/// An event that survives an in-range edit is found at its shifted index.
pub proof fn lemma_shift_follows_event(s: Seq<Event>, i: nat, e: Edit)
    requires
        i < s.len(),
        edit_in_range(e, s.len()),
        shifted(i, e) is Some,
    ensures
        shifted(i, e).unwrap() < edited(s, e).len(),
        edited(s, e)[shifted(i, e).unwrap() as int] == s[i as int],
{
}

/// An inserting edit places its event at the index that `introduced` gives.
pub proof fn lemma_introduced_lands(s: Seq<Event>, e: Edit)
    requires
        edit_in_range(e, s.len()),
        introduced(e, s.len()) is Some,
    ensures
        introduced(e, s.len()).unwrap().0 < edited(s, e).len(),
        edited(s, e)[introduced(e, s.len()).unwrap().0 as int] == introduced(e, s.len()).unwrap().1,
{
}

/// The ordered sequence of events; index 0 is the oldest retained one.
pub struct Timeline {
    items: Vec<Event>,
}

impl View for Timeline {
    type V = Seq<Event>;

    closed spec fn view(&self) -> Seq<Event> {
        self.items@
    }
}

impl Timeline {
    pub fn new() -> (r: Timeline)
        ensures
            r@ == Seq::<Event>::empty(),
    {
        Timeline { items: Vec::new() }
    }

    pub fn from_events(items: Vec<Event>) -> (r: Timeline)
        ensures
            r@ == items@,
    {
        Timeline { items }
    }

    pub fn length(&self) -> (r: usize)
        ensures
            r == self@.len(),
    {
        self.items.len()
    }

    pub fn get(&self, index: usize) -> (r: Option<Event>)
        ensures
            index < self@.len() ==> r == Some(self@[index as int]),
            index >= self@.len() ==> r is None,
    {
        if index < self.items.len() {
            Some(self.items[index].clone())
        } else {
            None
        }
    }

    /// The id of the event at `index`.
    pub fn id_at(&self, index: usize) -> (r: &String)
        requires
            index < self@.len(),
        ensures
            *r == self@[index as int].id,
    {
        &self.items[index].id
    }

    /// Applies `edit`; returns whether it was in range. An edit out of range changes nothing.
    pub fn apply(&mut self, edit: Edit) -> (r: bool)
        ensures
            r == edit_in_range(edit, old(self)@.len()),
            final(self)@ == edited(old(self)@, edit),
    {
        match edit {
            Edit::Append(ev) => {
                self.items.push(ev);
                true
            },
            Edit::Prepend(ev) => {
                self.items.insert(0, ev);
                true
            },
            Edit::InsertAt(i, ev) => {
                if i <= self.items.len() {
                    self.items.insert(i, ev);
                    true
                } else {
                    false
                }
            },
            Edit::RemoveAt(i) => {
                if i < self.items.len() {
                    self.items.remove(i);
                    true
                } else {
                    false
                }
            },
        }
    }
}

/// Whether `found_index` holds an event with id `expected_event_id`: the read-back check
/// of a reported location.
pub fn verify_result(timeline: &Timeline, found_index: usize, expected_event_id: &str) -> (r: bool)
    ensures
        r == (found_index < timeline@.len() && timeline@[found_index as int].id@
            == expected_event_id@),
{
    if found_index < timeline.length() {
        *timeline.id_at(found_index) == expected_event_id.to_owned()
    } else {
        false
    }
}

} // verus!
