use vstd::prelude::*;

use crate::timeline::{
    edit_in_range, edited, introduced, lemma_introduced_lands, lemma_shift_follows_event, shifted,
    Edit, Event, Timeline,
};

verus! {

/// A request to find the event `target_id`, made when the caller saw a timeline of
/// `observed_len` events with the target somewhere below `hint_index`.
#[derive(Debug)]
pub struct LocateRequest {
    pub target_id: String,
    pub hint_index: usize,
    pub observed_len: usize,
}

/// What the locator reports for a request.
#[derive(Debug)]
pub enum LocateResult {
    /// The target stands at `index` in the timeline as it is when the result is emitted.
    Found { target_id: String, index: usize },
    /// The target was located and then deleted before it could be reported.
    Removed { target_id: String },
    /// The locator shut down before the target ever appeared.
    NotFound { target_id: String },
}

impl LocateResult {
    pub open spec fn target(self) -> Seq<char> {
        match self {
            LocateResult::Found { target_id, .. } => target_id@,
            LocateResult::Removed { target_id } => target_id@,
            LocateResult::NotFound { target_id } => target_id@,
        }
    }

    pub fn target_id(&self) -> (r: &String)
        ensures
            r@ == self.target(),
    {
        match self {
            LocateResult::Found { target_id, .. } => target_id,
            LocateResult::Removed { target_id } => target_id,
            LocateResult::NotFound { target_id } => target_id,
        }
    }
}

/// A request that could not be answered yet. `found_index` is where the target
/// was located and not yet reported, if anywhere.
#[derive(Debug)]
pub struct PendingSearch {
    pub target_id: String,
    pub found_index: Option<usize>,
}

/// What one edit does to a pending search.
#[derive(Debug, Clone, Copy, PartialEq, Eq, Structural)]
pub enum SearchStep {
    /// The target is still unknown; keep waiting.
    Waiting,
    /// The target stands at this index once the edit is applied.
    Found(usize),
    /// The edit deletes the target.
    Removed,
}

/// The step a pending search takes on the in-range edit `e` of a timeline of length `len`:
/// a located target follows the index shift (or is deleted); an unlocated one is
/// located when `e` brings in an event with its id.
pub open spec fn step_of(p: PendingSearch, e: Edit, len: nat) -> SearchStep {
    match p.found_index {
        Some(i) => match shifted(i as nat, e) {
            Some(j) => SearchStep::Found(j as usize),
            None => SearchStep::Removed,
        },
        None => match introduced(e, len) {
            Some(entry) => if entry.1.id@ == p.target_id@ {
                SearchStep::Found(entry.0 as usize)
            } else {
                SearchStep::Waiting
            },
            None => SearchStep::Waiting,
        },
    }
}

/// The result a pending search yields for a step other than `Waiting`.
pub open spec fn answer(p: PendingSearch, s: SearchStep) -> LocateResult {
    match s {
        SearchStep::Found(j) => LocateResult::Found { target_id: p.target_id, index: j },
        _ => LocateResult::Removed { target_id: p.target_id },
    }
}

/// Index adjustment: a search located at `i` moves to `i + 1` on a prepend, to `i - 1`
/// on a removal below it, and resolves to removed, never to `i`, when `i` itself is removed.
pub proof fn lemma_index_adjustment(p: PendingSearch, e: Edit, len: nat, i: nat)
    requires
        p.found_index == Some(i as usize),
        i < len,
        len <= usize::MAX,
        edit_in_range(e, len),
    ensures
        e is Prepend ==> step_of(p, e, len) == SearchStep::Found((i + 1) as usize),
        e is RemoveAt && e->RemoveAt_0 < i ==> step_of(p, e, len) == SearchStep::Found(
            (i - 1) as usize,
        ),
        e is RemoveAt && e->RemoveAt_0 == i ==> step_of(p, e, len) == SearchStep::Removed,
{
}

/// The exclusive upper bound of the backward scan: the caller's hint (clamped to the
/// timeline) while the timeline still has the length the caller saw, else the whole timeline.
pub open spec fn bound_of(hint_index: nat, observed_len: nat, len: nat) -> nat {
    if observed_len == len {
        if hint_index <= len {
            hint_index
        } else {
            len
        }
    } else {
        len
    }
}

/// `i` is the highest index below `bound` whose event has id `target`.
pub open spec fn nearest_below(s: Seq<Event>, target: Seq<char>, bound: nat, i: nat) -> bool {
    &&& i < bound
    &&& s[i as int].id@ == target
    &&& forall|j: int| i < j < bound ==> s[j].id@ != target
}

/// No event below `bound` has id `target`.
pub open spec fn absent_below(s: Seq<Event>, target: Seq<char>, bound: nat) -> bool {
    forall|j: int| 0 <= j < bound ==> s[j].id@ != target
}

pub open spec fn is_pending(ps: Seq<PendingSearch>, target: Seq<char>) -> bool {
    exists|k: int| 0 <= k < ps.len() && ps[k].target_id@ == target
}

/// The bound of the scan for a request: a stale snapshot never lets the hint through.
pub fn search_bound(hint_index: usize, observed_len: usize, len: usize) -> (r: usize)
    ensures
        r == bound_of(hint_index as nat, observed_len as nat, len as nat),
        observed_len != len ==> r == len,
        r <= len,
{
    if observed_len == len {
        if hint_index <= len {
            hint_index
        } else {
            len
        }
    } else {
        len
    }
}

/// Scans backward from `bound` toward index 0 for an event with id `target_id`.
pub fn find_backward(timeline: &Timeline, target_id: &String, bound: usize) -> (r: Option<usize>)
    requires
        bound <= timeline@.len(),
    ensures
        r is Some ==> nearest_below(timeline@, target_id@, bound as nat, r->0 as nat),
        r is None ==> absent_below(timeline@, target_id@, bound as nat),
{
    let mut i: usize = bound;
    while i > 0
        invariant
            i <= bound <= timeline@.len(),
            forall|j: int| i <= j < bound ==> timeline@[j].id@ != target_id@,
        decreases i,
    {
        i = i - 1;
        if *timeline.id_at(i) == *target_id {
            return Some(i);
        }
    }
    None
}

impl PendingSearch {
    pub fn new(target_id: String) -> (r: PendingSearch)
        ensures
            r.target_id == target_id,
            r.found_index is None,
    {
        PendingSearch { target_id, found_index: None }
    }

    /// What the in-range edit `edit` of a timeline of length `len` does to this search.
    pub fn on_edit(&self, edit: &Edit, len: usize) -> (r: SearchStep)
        requires
            edit_in_range(*edit, len as nat),
            self.found_index is Some ==> self.found_index->0 < len,
        ensures
            r == step_of(*self, *edit, len as nat),
    {
        match self.found_index {
            Some(i) => match edit {
                Edit::Append(_) => SearchStep::Found(i),
                Edit::Prepend(_) => SearchStep::Found(i + 1),
                Edit::InsertAt(j, _) => {
                    if *j <= i {
                        SearchStep::Found(i + 1)
                    } else {
                        SearchStep::Found(i)
                    }
                },
                Edit::RemoveAt(j) => {
                    if *j < i {
                        SearchStep::Found(i - 1)
                    } else if *j == i {
                        SearchStep::Removed
                    } else {
                        SearchStep::Found(i)
                    }
                },
            },
            None => match edit {
                Edit::Append(ev) => {
                    if ev.id == self.target_id {
                        SearchStep::Found(len)
                    } else {
                        SearchStep::Waiting
                    }
                },
                Edit::Prepend(ev) => {
                    if ev.id == self.target_id {
                        SearchStep::Found(0)
                    } else {
                        SearchStep::Waiting
                    }
                },
                Edit::InsertAt(j, ev) => {
                    if ev.id == self.target_id {
                        SearchStep::Found(*j)
                    } else {
                        SearchStep::Waiting
                    }
                },
                Edit::RemoveAt(_) => SearchStep::Waiting,
            },
        }
    }
}


/// A search is located correctly when its index holds an event with its target id.
pub open spec fn located(s: Seq<Event>, p: PendingSearch) -> bool {
    p.found_index matches Some(i) ==> i < s.len() && s[i as int].id@ == p.target_id@
}

pub open spec fn distinct_targets(ps: Seq<PendingSearch>) -> bool {
    forall|a: int, b: int| 0 <= a < b < ps.len() ==> ps[a].target_id@ != ps[b].target_id@
}

/// What became of a request handed to the locator.
#[derive(Debug)]
pub enum RequestOutcome {
    /// The target is in the timeline; this is the request's one result.
    Answered(LocateResult),
    /// The target is not in the timeline yet; a pending search now waits for an edit
    /// that brings it in.
    Waiting,
    /// A search for the same target is already pending; the request is refused.
    Duplicate,
    /// The pending set is full; the request is refused and may be sent again later.
    Busy,
}

/// Why an edit was dropped.
#[derive(Debug, Clone, Copy, PartialEq, Eq, Structural)]
pub enum EditError {
    /// The edit names an index outside the timeline.
    OutOfRange,
}

/// `e` with one more result counted for each ticket in `ts`.
pub open spec fn bumped(e: Seq<nat>, ts: Seq<nat>) -> Seq<nat> {
    Seq::new(e.len(), |t: int| if ts.contains(t as nat) { e[t] + 1 } else { e[t] })
}

/// What the ledger holds of ticket `t`: a request still pending or cancelled has had no
/// result, any other exactly one.
pub open spec fn settled(
    tickets: Seq<nat>,
    cancelled: Set<nat>,
    emitted: Seq<nat>,
    t: nat,
) -> bool {
    &&& tickets.contains(t) ==> emitted[t as int] == 0 && !cancelled.contains(t)
    &&& cancelled.contains(t) ==> emitted[t as int] == 0
    &&& !tickets.contains(t) && !cancelled.contains(t) ==> emitted[t as int] == 1
}

/// The single owner of the timeline and of the pending searches. It handles one
/// message at a time: a request or an edit.
///
/// Alongside, a ghost ledger follows every accepted request by its ticket (its place in
/// acceptance order): what it targets, whether it is still pending or was cancelled,
/// and how many results it has had.
pub struct Locator {
    timeline: Timeline,
    pending: Vec<PendingSearch>,
    max_pending: usize,
    /// The target of each accepted request, by ticket.
    requests: Ghost<Seq<Seq<char>>>,
    /// The ticket of each pending search, in pending order.
    tickets: Ghost<Seq<nat>>,
    /// The number of results emitted for each ticket.
    emitted: Ghost<Seq<nat>>,
    /// The tickets whose pending search was cancelled.
    cancelled: Ghost<Set<nat>>,
    /// The tickets of the results that the latest call returned, in the order returned.
    last: Ghost<Seq<nat>>,
}

impl Locator {
    pub closed spec fn timeline_view(&self) -> Seq<Event> {
        self.timeline@
    }

    pub closed spec fn pending_view(&self) -> Seq<PendingSearch> {
        self.pending@
    }

    pub closed spec fn capacity(&self) -> nat {
        self.max_pending as nat
    }

    /// The target of each accepted request, by ticket.
    pub closed spec fn requests(&self) -> Seq<Seq<char>> {
        self.requests@
    }

    /// The ticket of each pending search, in pending order.
    pub closed spec fn tickets(&self) -> Seq<nat> {
        self.tickets@
    }

    /// The number of results emitted for each ticket.
    pub closed spec fn emitted(&self) -> Seq<nat> {
        self.emitted@
    }

    /// The tickets whose pending search was cancelled.
    pub closed spec fn cancelled(&self) -> Set<nat> {
        self.cancelled@
    }

    /// The tickets of the results that the latest call returned, in the order returned.
    pub closed spec fn last_tickets(&self) -> Seq<nat> {
        self.last@
    }

    pub closed spec fn wf(&self) -> bool {
        &&& self.pending@.len() <= self.max_pending
        &&& distinct_targets(self.pending@)
        &&& forall|k: int|
            0 <= k < self.pending@.len() ==> located(self.timeline@, #[trigger] self.pending@[k])
        &&& self.tickets@.len() == self.pending@.len()
        &&& forall|k: int|
            0 <= k < self.tickets@.len() ==> #[trigger] self.tickets@[k] < self.requests@.len()
                && self.requests@[self.tickets@[k] as int] == self.pending@[k].target_id@
        &&& self.emitted@.len() == self.requests@.len()
        &&& forall|t: nat| #[trigger] self.cancelled@.contains(t) ==> t < self.requests@.len()
        &&& forall|t: nat| t < self.requests@.len() ==> #[trigger] settled(
            self.tickets@,
            self.cancelled@,
            self.emitted@,
            t,
        )
    }

    /// Distinct pending searches hold distinct tickets.
    proof fn lemma_tickets_distinct(&self)
        requires
            self.wf(),
        ensures
            self.tickets@.no_duplicates(),
    {
        assert forall|a: int, b: int|
            0 <= a < self.tickets@.len() && 0 <= b < self.tickets@.len() && a != b implies
            self.tickets@[a] != self.tickets@[b] by {
            if a < b {
                assert(self.pending@[a].target_id@ != self.pending@[b].target_id@);
            } else {
                assert(self.pending@[b].target_id@ != self.pending@[a].target_id@);
            }
        }
    }

    /// A locator over `timeline` that holds at most `max_pending` searches at a time.
    pub fn new(timeline: Timeline, max_pending: usize) -> (r: Locator)
        ensures
            r.wf(),
            r.timeline_view() == timeline@,
            r.pending_view().len() == 0,
            r.capacity() == max_pending,
            r.requests().len() == 0,
            r.cancelled() == Set::<nat>::empty(),
            r.last_tickets().len() == 0,
    {
        Locator {
            timeline,
            pending: Vec::new(),
            max_pending,
            requests: Ghost(Seq::empty()),
            tickets: Ghost(Seq::empty()),
            emitted: Ghost(Seq::empty()),
            cancelled: Ghost(Set::empty()),
            last: Ghost(Seq::empty()),
        }
    }

    pub fn timeline(&self) -> (r: &Timeline)
        ensures
            r@ == self.timeline_view(),
    {
        &self.timeline
    }

    pub fn pending_count(&self) -> (r: usize)
        ensures
            r == self.pending_view().len(),
    {
        self.pending.len()
    }

    /// The index of the pending search for `target_id`, if there is one.
    fn position_of(&self, target_id: &String) -> (r: Option<usize>)
        ensures
            r matches Some(k) ==> k < self.pending@.len() && self.pending@[k as int].target_id@
                == target_id@,
            r is None ==> !is_pending(self.pending@, target_id@),
    {
        let mut k: usize = 0;
        while k < self.pending.len()
            invariant
                k <= self.pending@.len(),
                forall|j: int| 0 <= j < k ==> self.pending@[j].target_id@ != target_id@,
            decreases self.pending@.len() - k,
        {
            if self.pending[k].target_id == *target_id {
                return Some(k);
            }
            k = k + 1;
        }
        None
    }

    /// Handles a request: the scan runs below the hint only while the caller's snapshot
    /// of the length is still current, and below the whole timeline otherwise.
    pub fn handle_request(&mut self, req: LocateRequest) -> (r: RequestOutcome)
        requires
            old(self).wf(),
        ensures
            final(self).wf(),
            final(self).timeline_view() == old(self).timeline_view(),
            final(self).capacity() == old(self).capacity(),
            final(self).cancelled() == old(self).cancelled(),
            ({
                let s = old(self).timeline_view();
                let b = bound_of(req.hint_index as nat, req.observed_len as nat, s.len());
                let ps = old(self).pending_view();
                let ticket = old(self).requests().len();
                match r {
                    RequestOutcome::Answered(res) => {
                        &&& res matches LocateResult::Found { target_id, index }
                        &&& target_id == req.target_id
                        &&& nearest_below(s, req.target_id@, b, index as nat)
                        &&& index < s.len()
                        &&& s[index as int].id@ == target_id@
                        &&& final(self).pending_view() == ps
                        &&& final(self).requests() == old(self).requests().push(req.target_id@)
                        &&& final(self).tickets() == old(self).tickets()
                        &&& final(self).emitted() == old(self).emitted().push(1)
                        &&& final(self).last_tickets() == seq![ticket]
                    },
                    RequestOutcome::Waiting => {
                        &&& absent_below(s, req.target_id@, b)
                        &&& !is_pending(ps, req.target_id@)
                        &&& ps.len() < old(self).capacity()
                        &&& final(self).pending_view() == ps.push(
                            PendingSearch { target_id: req.target_id, found_index: None },
                        )
                        &&& final(self).requests() == old(self).requests().push(req.target_id@)
                        &&& final(self).tickets() == old(self).tickets().push(ticket)
                        &&& final(self).emitted() == old(self).emitted().push(0)
                        &&& final(self).last_tickets().len() == 0
                    },
                    RequestOutcome::Duplicate => {
                        &&& absent_below(s, req.target_id@, b)
                        &&& is_pending(ps, req.target_id@)
                        &&& final(self).pending_view() == ps
                        &&& final(self).requests() == old(self).requests()
                        &&& final(self).tickets() == old(self).tickets()
                        &&& final(self).emitted() == old(self).emitted()
                        &&& final(self).last_tickets().len() == 0
                    },
                    RequestOutcome::Busy => {
                        &&& absent_below(s, req.target_id@, b)
                        &&& !is_pending(ps, req.target_id@)
                        &&& ps.len() >= old(self).capacity()
                        &&& final(self).pending_view() == ps
                        &&& final(self).requests() == old(self).requests()
                        &&& final(self).tickets() == old(self).tickets()
                        &&& final(self).emitted() == old(self).emitted()
                        &&& final(self).last_tickets().len() == 0
                    },
                }
            }),
    {
        let ghost old_self = *self;
        let ghost ticket = self.requests@.len();
        self.last = Ghost(Seq::empty());
        let len = self.timeline.length();
        let bound = search_bound(req.hint_index, req.observed_len, len);
        match find_backward(&self.timeline, &req.target_id, bound) {
            Some(index) => {
                self.requests = Ghost(self.requests@.push(req.target_id@));
                self.emitted = Ghost(self.emitted@.push(1));
                self.last = Ghost(Seq::empty().push(ticket));
                assert forall|t: nat| t < self.requests@.len() implies #[trigger] settled(
                    self.tickets@,
                    self.cancelled@,
                    self.emitted@,
                    t,
                ) by {
                    if t < ticket {
                        assert(settled(
                            old_self.tickets@,
                            old_self.cancelled@,
                            old_self.emitted@,
                            t,
                        ));
                    } else {
                        assert(!self.tickets@.contains(t)) by {
                            if self.tickets@.contains(t) {
                                let k = choose|k: int|
                                    0 <= k < self.tickets@.len() && self.tickets@[k] == t;
                                assert(self.tickets@[k] < ticket);
                            }
                        }
                    }
                }
                RequestOutcome::Answered(LocateResult::Found { target_id: req.target_id, index })
            },
            None => {
                if self.position_of(&req.target_id).is_some() {
                    RequestOutcome::Duplicate
                } else if self.pending.len() >= self.max_pending {
                    RequestOutcome::Busy
                } else {
                    let ghost ps = self.pending@;
                    let ghost ts = self.tickets@;
                    self.requests = Ghost(self.requests@.push(req.target_id@));
                    self.tickets = Ghost(self.tickets@.push(ticket));
                    self.emitted = Ghost(self.emitted@.push(0));
                    self.pending.push(PendingSearch::new(req.target_id));
                    assert forall|a: int, b: int|
                        0 <= a < b < self.pending@.len() implies self.pending@[a].target_id@
                        != self.pending@[b].target_id@ by {
                        if b == ps.len() {
                            assert(ps[a].target_id@ != self.pending@[b].target_id@);
                        }
                    }
                    assert forall|k: int| 0 <= k < self.tickets@.len() implies
                        #[trigger] self.tickets@[k] < self.requests@.len()
                        && self.requests@[self.tickets@[k] as int]
                        == self.pending@[k].target_id@ by {
                        if k < ts.len() {
                            assert(ts[k] < ticket);
                            assert(self.tickets@[k] == ts[k]);
                        }
                    }
                    assert forall|t: nat| t < self.requests@.len() implies #[trigger] settled(
                        self.tickets@,
                        self.cancelled@,
                        self.emitted@,
                        t,
                    ) by {
                        if t < ticket {
                            assert(settled(
                                old_self.tickets@,
                                old_self.cancelled@,
                                old_self.emitted@,
                                t,
                            ));
                            assert(self.tickets@.contains(t) == ts.contains(t)) by {
                                if self.tickets@.contains(t) && !ts.contains(t) {
                                    let k = choose|k: int|
                                        0 <= k < self.tickets@.len() && self.tickets@[k] == t;
                                    assert(self.tickets@[k] == ts[k]);
                                }
                                if ts.contains(t) {
                                    let k = choose|k: int| 0 <= k < ts.len() && ts[k] == t;
                                    assert(self.tickets@[k] == t);
                                }
                            }
                        } else {
                            assert(self.tickets@[ts.len() as int] == t);
                            assert(self.tickets@.contains(t));
                        }
                    }
                    RequestOutcome::Waiting
                }
            },
        }
    }

    /// Handles an edit. Every pending search is first adjusted to the edit or checked
    /// against the event it brings in, then the edit is committed, then each search whose
    /// target is now known (or deleted) yields its result and leaves the pending set.
    /// An edit outside the timeline is dropped and changes nothing.
    pub fn handle_edit(&mut self, edit: Edit) -> (r: Result<Vec<LocateResult>, EditError>)
        requires
            old(self).wf(),
        ensures
            final(self).wf(),
            final(self).capacity() == old(self).capacity(),
            final(self).requests() == old(self).requests(),
            final(self).cancelled() == old(self).cancelled(),
            ({
                let s = old(self).timeline_view();
                let ps = old(self).pending_view();
                match r {
                    Err(_) => {
                        &&& !edit_in_range(edit, s.len())
                        &&& final(self).timeline_view() == s
                        &&& final(self).pending_view() == ps
                        &&& final(self).tickets() == old(self).tickets()
                        &&& final(self).emitted() == old(self).emitted()
                        &&& final(self).last_tickets().len() == 0
                    },
                    Ok(results) => {
                        &&& edit_in_range(edit, s.len())
                        &&& final(self).timeline_view() == edited(s, edit)
                        // the ledger: each result is counted against the request it answers
                        &&& final(self).last_tickets().len() == results@.len()
                        &&& final(self).last_tickets().no_duplicates()
                        &&& forall|m: int|
                            0 <= m < results@.len() ==> old(self).tickets().contains(
                                #[trigger] final(self).last_tickets()[m],
                            ) && results@[m].target()
                                == old(self).requests()[final(self).last_tickets()[m] as int]
                        &&& final(self).emitted() == bumped(
                            old(self).emitted(),
                            final(self).last_tickets(),
                        )
                        &&& forall|t: nat|
                            #[trigger] final(self).tickets().contains(t) <==> (
                                old(self).tickets().contains(t)
                                && !final(self).last_tickets().contains(t)
                            )
                        &&& results@.len() + final(self).pending_view().len() == ps.len()
                        // a search stays pending, unchanged, exactly when it keeps waiting
                        &&& forall|k: int|
                            0 <= k < ps.len() ==> ((step_of(ps[k], edit, s.len()) is Waiting)
                                == final(self).pending_view().contains(#[trigger] ps[k]))
                        &&& forall|p: PendingSearch|
                            #[trigger] final(self).pending_view().contains(p) ==> ps.contains(p)
                        // every other one yields its answer, once
                        &&& forall|k: int|
                            0 <= k < ps.len() && !(step_of(ps[k], edit, s.len()) is Waiting)
                                ==> results@.contains(
                                answer(#[trigger] ps[k], step_of(ps[k], edit, s.len())),
                            )
                        &&& forall|m: int|
                            0 <= m < results@.len() ==> exists|k: int|
                                0 <= k < ps.len() && !(step_of(ps[k], edit, s.len()) is Waiting)
                                    && #[trigger] results@[m] == answer(
                                    ps[k],
                                    step_of(ps[k], edit, s.len()),
                                )
                        &&& forall|m1: int, m2: int|
                            0 <= m1 < m2 < results@.len() ==> results@[m1].target()
                                != results@[m2].target()
                        &&& forall|m: int|
                            0 <= m < results@.len() ==> !is_pending(
                                final(self).pending_view(),
                                #[trigger] results@[m].target(),
                            )
                        // a reported index holds the target in the edited timeline
                        &&& forall|m: int|
                            0 <= m < results@.len() ==> (#[trigger] results@[m]
                                matches LocateResult::Found { target_id, index } ==> {
                                let after = final(self).timeline_view();
                                index < after.len() && after[index as int].id@ == target_id@
                            })
                    },
                }
            }),
    {
        self.last = Ghost(Seq::empty());
        let len = self.timeline.length();
        if !edit.fits(len) {
            return Err(EditError::OutOfRange);
        }
        let ghost s = self.timeline@;
        let ghost ps = self.pending@;
        let ghost ts = self.tickets@;
        let ghost old_self = *old(self);
        proof {
            old_self.lemma_tickets_distinct();
        }
        let n = self.pending.len();
        let mut kept: Vec<PendingSearch> = Vec::new();
        let mut results: Vec<LocateResult> = Vec::new();
        let ghost mut ksrc: Seq<int> = Seq::empty();
        let ghost mut rsrc: Seq<int> = Seq::empty();
        let mut k: usize = 0;
        while k < n
            invariant
                old_self.wf(),
                old_self.pending@ == ps,
                old_self.tickets@ == ts,
                old_self.timeline@ == s,
                self.pending@ == ps,
                self.timeline@ == s,
                ps == old(self).pending@,
                s == old(self).timeline@,
                n == ps.len(),
                len == s.len(),
                edit_in_range(edit, s.len()),
                k <= n,
                kept@.len() == ksrc.len(),
                results@.len() == rsrc.len(),
                kept@.len() + results@.len() == k,
                forall|m: int|
                    0 <= m < ksrc.len() ==> 0 <= #[trigger] ksrc[m] < k && kept@[m] == ps[ksrc[m]]
                        && step_of(ps[ksrc[m]], edit, s.len()) is Waiting,
                forall|m1: int, m2: int| 0 <= m1 < m2 < ksrc.len() ==> ksrc[m1] < ksrc[m2],
                forall|m: int|
                    0 <= m < rsrc.len() ==> 0 <= #[trigger] rsrc[m] < k && !(step_of(
                        ps[rsrc[m]],
                        edit,
                        s.len(),
                    ) is Waiting) && results@[m] == answer(
                        ps[rsrc[m]],
                        step_of(ps[rsrc[m]], edit, s.len()),
                    ),
                forall|m1: int, m2: int| 0 <= m1 < m2 < rsrc.len() ==> rsrc[m1] < rsrc[m2],
                forall|i: int|
                    0 <= i < k && (step_of(ps[i], edit, s.len()) is Waiting) ==> kept@.contains(
                        #[trigger] ps[i],
                    ),
                forall|i: int|
                    0 <= i < k && !(step_of(ps[i], edit, s.len()) is Waiting) ==> results@.contains(
                        answer(#[trigger] ps[i], step_of(ps[i], edit, s.len())),
                    ),
                forall|m: int|
                    0 <= m < results@.len() ==> (#[trigger] results@[m]
                        matches LocateResult::Found { target_id, index } ==> index < edited(
                        s,
                        edit,
                    ).len() && edited(s, edit)[index as int].id@ == target_id@),
            decreases n - k,
        {
            let ghost kept0 = kept@;
            let ghost results0 = results@;
            let p = &self.pending[k];
            let step = p.on_edit(&edit, len);
            proof {
                assert(located(s, ps[k as int]));
                match p.found_index {
                    Some(i) => {
                        if step_of(ps[k as int], edit, s.len()) != SearchStep::Removed {
                            lemma_shift_follows_event(s, i as nat, edit);
                        }
                    },
                    None => {
                        if introduced(edit, s.len()) is Some {
                            lemma_introduced_lands(s, edit);
                        }
                    },
                }
            }
            match step {
                SearchStep::Waiting => {
                    let still = PendingSearch {
                        target_id: p.target_id.clone(),
                        found_index: p.found_index,
                    };
                    kept.push(still);
                    proof {
                        ksrc = ksrc.push(k as int);
                        assert(kept@.last() == ps[k as int]);
                    }
                },
                SearchStep::Found(j) => {
                    results.push(LocateResult::Found { target_id: p.target_id.clone(), index: j });
                    proof {
                        rsrc = rsrc.push(k as int);
                    }
                },
                SearchStep::Removed => {
                    results.push(LocateResult::Removed { target_id: p.target_id.clone() });
                    proof {
                        rsrc = rsrc.push(k as int);
                    }
                },
            }
            proof {
                assert forall|i: int|
                    0 <= i < k + 1 && (step_of(ps[i], edit, s.len()) is Waiting) implies
                    kept@.contains(#[trigger] ps[i]) by {
                    if i == k {
                        assert(kept@[kept@.len() - 1] == ps[i]);
                    } else {
                        let m = choose|m: int| 0 <= m < kept0.len() && kept0[m] == ps[i];
                        assert(kept@[m] == ps[i]);
                    }
                }
                assert forall|i: int|
                    0 <= i < k + 1 && !(step_of(ps[i], edit, s.len()) is Waiting) implies
                    results@.contains(answer(#[trigger] ps[i], step_of(ps[i], edit, s.len()))) by {
                    let a = answer(ps[i], step_of(ps[i], edit, s.len()));
                    if i == k {
                        assert(results@[results@.len() - 1] == a);
                    } else {
                        let m = choose|m: int| 0 <= m < results0.len() && results0[m] == a;
                        assert(results@[m] == a);
                    }
                }
            }
            k = k + 1;
        }
        self.timeline.apply(edit);
        self.pending = kept;
        let ghost ktick = Seq::new(ksrc.len(), |m: int| ts[ksrc[m]]);
        let ghost rtick = Seq::new(rsrc.len(), |m: int| ts[rsrc[m]]);
        self.tickets = Ghost(ktick);
        self.last = Ghost(rtick);
        self.emitted = Ghost(bumped(old_self.emitted@, rtick));
        proof {
            // every search index went to exactly one side
            assert forall|i: int|
                0 <= i < n && (step_of(ps[i], edit, s.len()) is Waiting) implies exists|m: int|
                0 <= m < ksrc.len() && ksrc[m] == i by {
                let m = choose|m: int| 0 <= m < self.pending@.len() && self.pending@[m] == ps[i];
                assert(ps[ksrc[m]] == ps[i]);
                if ksrc[m] != i {
                    if ksrc[m] < i {
                        assert(ps[ksrc[m]].target_id@ != ps[i].target_id@);
                    } else {
                        assert(ps[i].target_id@ != ps[ksrc[m]].target_id@);
                    }
                }
            }
            assert forall|i: int|
                0 <= i < n && !(step_of(ps[i], edit, s.len()) is Waiting) implies exists|m: int|
                0 <= m < rsrc.len() && rsrc[m] == i by {
                let a = answer(ps[i], step_of(ps[i], edit, s.len()));
                let m = choose|m: int| 0 <= m < results@.len() && results@[m] == a;
                assert(results@[m].target() == ps[rsrc[m]].target_id@);
                assert(a.target() == ps[i].target_id@);
                if rsrc[m] != i {
                    if rsrc[m] < i {
                        assert(ps[rsrc[m]].target_id@ != ps[i].target_id@);
                    } else {
                        assert(ps[i].target_id@ != ps[rsrc[m]].target_id@);
                    }
                }
            }
            assert forall|t: nat|
                #[trigger] ktick.contains(t) <==> (ts.contains(t) && !rtick.contains(t)) by {
                if ktick.contains(t) {
                    let m = choose|m: int| 0 <= m < ktick.len() && ktick[m] == t;
                    assert(ts[ksrc[m]] == t);
                    if rtick.contains(t) {
                        let m2 = choose|m2: int| 0 <= m2 < rtick.len() && rtick[m2] == t;
                        assert(ts[rsrc[m2]] == t);
                        assert(ksrc[m] == rsrc[m2]);
                    }
                }
                if ts.contains(t) && !rtick.contains(t) {
                    let i = choose|i: int| 0 <= i < ts.len() && ts[i] == t;
                    if step_of(ps[i], edit, s.len()) is Waiting {
                        let m = choose|m: int| 0 <= m < ksrc.len() && ksrc[m] == i;
                        assert(ktick[m] == t);
                    } else {
                        let m = choose|m: int| 0 <= m < rsrc.len() && rsrc[m] == i;
                        assert(rtick[m] == t);
                    }
                }
            }
            assert(rtick.no_duplicates()) by {
                assert forall|a: int, b: int|
                    0 <= a < rtick.len() && 0 <= b < rtick.len() && a != b implies rtick[a]
                    != rtick[b] by {
                    if a < b {
                        assert(rsrc[a] < rsrc[b]);
                    } else {
                        assert(rsrc[b] < rsrc[a]);
                    }
                }
            }
            assert forall|m: int| 0 <= m < rtick.len() implies ts.contains(#[trigger] rtick[m])
                && results@[m].target() == old_self.requests@[rtick[m] as int] by {
                assert(ts[rsrc[m]] == rtick[m]);
                assert(results@[m].target() == ps[rsrc[m]].target_id@);
            }
            assert forall|k: int| 0 <= k < ktick.len() implies #[trigger] ktick[k]
                < self.requests@.len() && self.requests@[ktick[k] as int]
                == self.pending@[k].target_id@ by {
                assert(ktick[k] == ts[ksrc[k]]);
            }
            assert forall|t: nat| t < self.requests@.len() implies #[trigger] settled(
                self.tickets@,
                self.cancelled@,
                self.emitted@,
                t,
            ) by {
                assert(settled(old_self.tickets@, old_self.cancelled@, old_self.emitted@, t));
                if rtick.contains(t) {
                    assert(ts.contains(t));
                }
            }
            assert forall|k: int|
                0 <= k < ps.len() implies ((step_of(ps[k], edit, s.len()) is Waiting)
                    == self.pending@.contains(#[trigger] ps[k])) by {
                if !(step_of(ps[k], edit, s.len()) is Waiting) && self.pending@.contains(ps[k]) {
                    let m = choose|m: int|
                        0 <= m < self.pending@.len() && self.pending@[m] == ps[k];
                    assert(ps[ksrc[m]] == ps[k]);
                }
            }
            assert forall|p: PendingSearch|
                #[trigger] self.pending@.contains(p) implies
                ps.contains(p) by {
                let m = choose|m: int| 0 <= m < self.pending@.len() && self.pending@[m] == p;
                assert(ps[ksrc[m]] == p);
            }
            assert forall|m: int| 0 <= m < results@.len() implies exists|k: int|
                0 <= k < ps.len() && !(step_of(ps[k], edit, s.len()) is Waiting)
                    && #[trigger] results@[m] == answer(ps[k], step_of(ps[k], edit, s.len())) by {
                assert(0 <= rsrc[m] < ps.len());
            }
            assert forall|m1: int, m2: int| 0 <= m1 < m2 < results@.len() implies
                results@[m1].target() != results@[m2].target() by {
                assert(rsrc[m1] < rsrc[m2]);
                assert(results@[m1].target() == ps[rsrc[m1]].target_id@);
                assert(results@[m2].target() == ps[rsrc[m2]].target_id@);
            }
            assert forall|a: int, b: int| 0 <= a < b < self.pending@.len() implies
                self.pending@[a].target_id@ != self.pending@[b].target_id@ by {
                assert(ksrc[a] < ksrc[b]);
            }
            assert forall|m: int| 0 <= m < results@.len() implies !is_pending(
                self.pending@,
                #[trigger] results@[m].target(),
            ) by {
                assert(results@[m].target() == ps[rsrc[m]].target_id@);
                if is_pending(self.pending@, results@[m].target()) {
                    let j = choose|j: int|
                        0 <= j < self.pending@.len() && self.pending@[j].target_id@
                            == results@[m].target();
                    assert(ps[ksrc[j]] == self.pending@[j]);
                    assert(ksrc[j] != rsrc[m]);
                }
            }
            assert forall|m: int|
                0 <= m < self.pending@.len() implies
                located(self.timeline@, #[trigger] self.pending@[m]) by {
                assert(step_of(ps[ksrc[m]], edit, s.len()) is Waiting);
            }
        }
        Ok(results)
    }
    /// Cancels the pending search for `target_id`; it yields no result. Returns whether
    /// there was one.
    pub fn cancel(&mut self, target_id: &String) -> (r: bool)
        requires
            old(self).wf(),
        ensures
            final(self).wf(),
            final(self).timeline_view() == old(self).timeline_view(),
            final(self).capacity() == old(self).capacity(),
            final(self).requests() == old(self).requests(),
            final(self).emitted() == old(self).emitted(),
            final(self).last_tickets().len() == 0,
            r == is_pending(old(self).pending_view(), target_id@),
            !is_pending(final(self).pending_view(), target_id@),
            r ==> exists|k: int|
                0 <= k < old(self).pending_view().len()
                    && old(self).pending_view()[k].target_id@ == target_id@
                    && final(self).pending_view() == old(self).pending_view().remove(k)
                    && final(self).tickets() == old(self).tickets().remove(k)
                    && final(self).cancelled() == old(self).cancelled().insert(
                    old(self).tickets()[k],
                ),
            !r ==> final(self).pending_view() == old(self).pending_view(),
            !r ==> final(self).tickets() == old(self).tickets(),
            !r ==> final(self).cancelled() == old(self).cancelled(),
    {
        self.last = Ghost(Seq::empty());
        match self.position_of(target_id) {
            Some(k) => {
                let ghost old_self = *self;
                let ghost ps = self.pending@;
                let ghost ts = self.tickets@;
                let ghost t0 = ts[k as int];
                proof {
                    old_self.lemma_tickets_distinct();
                }
                self.pending.remove(k);
                self.tickets = Ghost(ts.remove(k as int));
                self.cancelled = Ghost(self.cancelled@.insert(t0));
                assert forall|a: int, b: int| 0 <= a < b < self.pending@.len() implies
                    self.pending@[a].target_id@ != self.pending@[b].target_id@ by {
                    let a0 = if a < k { a } else { a + 1 };
                    let b0 = if b < k { b } else { b + 1 };
                    assert(ps[a0] == self.pending@[a] && ps[b0] == self.pending@[b]);
                }
                assert forall|j: int|
                    0 <= j < self.pending@.len() implies
                    located(self.timeline@, #[trigger] self.pending@[j]) by {
                    let j0 = if j < k { j } else { j + 1 };
                    assert(ps[j0] == self.pending@[j]);
                    assert(located(self.timeline@, ps[j0]));
                }
                assert forall|j: int| 0 <= j < self.tickets@.len() implies
                    #[trigger] self.tickets@[j] < self.requests@.len()
                    && self.requests@[self.tickets@[j] as int] == self.pending@[j].target_id@ by {
                    let j0 = if j < k { j } else { j + 1 };
                    assert(ts[j0] == self.tickets@[j]);
                    assert(ps[j0] == self.pending@[j]);
                }
                assert forall|t: nat| t < self.requests@.len() implies #[trigger] settled(
                    self.tickets@,
                    self.cancelled@,
                    self.emitted@,
                    t,
                ) by {
                    assert(settled(old_self.tickets@, old_self.cancelled@, old_self.emitted@, t));
                    assert(ts.contains(t0));
                    if self.tickets@.contains(t) {
                        let j = choose|j: int|
                            0 <= j < self.tickets@.len() && self.tickets@[j] == t;
                        let j0 = if j < k { j } else { j + 1 };
                        assert(ts[j0] == t);
                        assert(t != t0);
                    }
                    if t != t0 && ts.contains(t) {
                        let j0 = choose|j0: int| 0 <= j0 < ts.len() && ts[j0] == t;
                        let j = if j0 < k { j0 } else { j0 - 1 };
                        assert(self.tickets@[j] == t);
                    }
                }
                assert(is_pending(ps, target_id@));
                assert(!is_pending(self.pending@, target_id@)) by {
                    if is_pending(self.pending@, target_id@) {
                        let j = choose|j: int|
                            0 <= j < self.pending@.len()
                                && self.pending@[j].target_id@ == target_id@;
                        let j0 = if j < k { j } else { j + 1 };
                        assert(ps[j0] == self.pending@[j]);
                    }
                }
                true
            },
            None => false,
        }
    }

    /// Shuts the locator down: every pending search yields a not-found result, in
    /// pending order, and the pending set is left empty.
    pub fn close(&mut self) -> (r: Vec<LocateResult>)
        requires
            old(self).wf(),
        ensures
            final(self).wf(),
            final(self).timeline_view() == old(self).timeline_view(),
            final(self).capacity() == old(self).capacity(),
            final(self).pending_view().len() == 0,
            final(self).requests() == old(self).requests(),
            final(self).cancelled() == old(self).cancelled(),
            final(self).tickets().len() == 0,
            final(self).last_tickets() == old(self).tickets(),
            final(self).emitted() == bumped(old(self).emitted(), old(self).tickets()),
            r@.len() == old(self).pending_view().len(),
            forall|m: int|
                0 <= m < r@.len() ==> #[trigger] r@[m] == (LocateResult::NotFound {
                    target_id: old(self).pending_view()[m].target_id,
                }),
            forall|m: int|
                0 <= m < r@.len() ==> #[trigger] r@[m].target()
                    == old(self).requests()[old(self).tickets()[m] as int],
    {
        let ghost old_self = *self;
        let mut results: Vec<LocateResult> = Vec::new();
        let mut k: usize = 0;
        while k < self.pending.len()
            invariant
                k <= self.pending@.len(),
                self.pending@ == old(self).pending@,
                results@.len() == k,
                forall|m: int|
                    0 <= m < k ==> #[trigger] results@[m] == (LocateResult::NotFound {
                        target_id: self.pending@[m].target_id,
                    }),
            decreases self.pending@.len() - k,
        {
            results.push(LocateResult::NotFound { target_id: self.pending[k].target_id.clone() });
            k = k + 1;
        }
        let ghost ts = self.tickets@;
        self.last = Ghost(ts);
        self.emitted = Ghost(bumped(self.emitted@, ts));
        self.tickets = Ghost(Seq::empty());
        self.pending = Vec::new();
        assert forall|t: nat| t < self.requests@.len() implies #[trigger] settled(
            self.tickets@,
            self.cancelled@,
            self.emitted@,
            t,
        ) by {
            assert(settled(old_self.tickets@, old_self.cancelled@, old_self.emitted@, t));
        }
        results
    }
}

/// One result per request: a request still pending, or cancelled, has had no result,
/// and every other accepted request has had exactly one. No request ever has two.
pub proof fn lemma_one_result_per_request(l: Locator, t: nat)
    requires
        l.wf(),
        t < l.requests().len(),
    ensures
        l.emitted()[t as int] <= 1,
        l.emitted()[t as int] == 0 <==> (l.tickets().contains(t) || l.cancelled().contains(t)),
{
    assert(settled(l.tickets(), l.cancelled(), l.emitted(), t));
}

/// No lost results: once nothing is pending (as after `close`), every accepted request
/// that was not cancelled has had its one result.
pub proof fn lemma_no_lost_results(l: Locator, t: nat)
    requires
        l.wf(),
        l.pending_view().len() == 0,
        t < l.requests().len(),
        !l.cancelled().contains(t),
    ensures
        l.emitted()[t as int] == 1,
{
    assert(settled(l.tickets(), l.cancelled(), l.emitted(), t));
}

} // verus!
