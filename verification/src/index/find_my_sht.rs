//! The search controller: it debounces typed search text, resets the page
//! and forces a dispatch when the text settles or the backend changes, and
//! steps through result pages. The searchers it drives are fully owned by
//! it; running dispatched queries is its caller's work.

use vstd::prelude::*;

use crate::index::index_reader::IndexReader;
use crate::index::wiki_search::WikiReader;

verus! {

/// How long typed text must rest before it is dispatched, in milliseconds.
pub const DEBOUNCE_MS: u64 = 500;

/// Which backend answers queries.
#[derive(Debug, Clone, Copy, PartialEq, Eq, Structural)]
pub enum SearchType {
    Account,
    Wiki,
}

/// One query the controller decided to dispatch.
pub struct SearchDispatch {
    pub query: String,
    pub page: usize,
    pub target: SearchType,
}

/// The debounce-relevant part of the controller, seen mathematically.
pub struct ControllerView {
    pub search: Seq<char>,
    pub old_search: Seq<char>,
    pub last_input: u64,
}

/// An edit replaces the text and restarts the debounce clock.
pub open spec fn apply_edit(s: ControllerView, text: Seq<char>, now: u64) -> ControllerView {
    ControllerView { search: text, last_input: now, ..s }
}

/// A poll dispatches exactly when the text changed and has rested longer
/// than the debounce window.
pub open spec fn poll_dispatches(s: ControllerView, now: u64) -> bool {
    s.old_search != s.search && now > s.last_input + DEBOUNCE_MS
}

/// After a dispatching poll the dispatched text is no longer pending.
pub open spec fn apply_poll(s: ControllerView, now: u64) -> ControllerView {
    if poll_dispatches(s, now) {
        ControllerView { old_search: s.search, ..s }
    } else {
        s
    }
}

/// One event the controller sees: a text edit or a poll, each at a moment.
pub enum SearchEvent {
    Edit(Seq<char>, u64),
    Poll(u64),
}

/// The moment an event happens.
pub open spec fn event_time(e: SearchEvent) -> u64 {
    match e {
        SearchEvent::Edit(_, t) => t,
        SearchEvent::Poll(t) => t,
    }
}

/// How many of the events dispatched a query.
pub open spec fn dispatch_count(s: ControllerView, events: Seq<SearchEvent>) -> int
    decreases events.len(),
{
    if events.len() == 0 {
        0
    } else {
        match events[0] {
            SearchEvent::Edit(text, t) => dispatch_count(apply_edit(s, text, t), events.drop_first()),
            SearchEvent::Poll(t) => (if poll_dispatches(s, t) {
                1int
            } else {
                0int
            }) + dispatch_count(apply_poll(s, t), events.drop_first()),
        }
    }
}

/// Event moments never move backwards, and none lies before `lo`.
pub open spec fn times_ok(events: Seq<SearchEvent>, lo: int) -> bool
    decreases events.len(),
{
    if events.len() == 0 {
        true
    } else {
        event_time(events[0]) >= lo && times_ok(events.drop_first(), event_time(events[0]) as int)
    }
}

/// Each edit follows the edit before it within the debounce window;
/// `last_edit` is the moment of the edit before the sequence, if any.
pub open spec fn edit_gaps_ok(events: Seq<SearchEvent>, last_edit: Option<u64>) -> bool
    decreases events.len(),
{
    if events.len() == 0 {
        true
    } else {
        match events[0] {
            SearchEvent::Edit(_, t) => (match last_edit {
                Some(le) => t <= le + DEBOUNCE_MS,
                None => true,
            }) && edit_gaps_ok(events.drop_first(), Some(t)),
            SearchEvent::Poll(_) => edit_gaps_ok(events.drop_first(), last_edit),
        }
    }
}

/// No event is an edit.
pub open spec fn no_edits(events: Seq<SearchEvent>) -> bool {
    forall|k: int| 0 <= k < events.len() ==> !((#[trigger] events[k]) is Edit)
}

/// A sequence whose first edit would have to lie both after and within the
/// debounce window of a moment already passed has no edits at all.
proof fn lemma_no_edits(events: Seq<SearchEvent>, le: u64, lo: int)
    requires
        times_ok(events, lo),
        edit_gaps_ok(events, Some(le)),
        lo > le + DEBOUNCE_MS,
    ensures
        no_edits(events),
    decreases events.len(),
{
    if events.len() > 0 {
        assert(forall|k: int|
            0 <= k < events.drop_first().len() ==> events.drop_first()[k] == events[k + 1]);
        match events[0] {
            SearchEvent::Edit(_, t) => {
                assert(t >= lo);
                assert(t <= le + DEBOUNCE_MS);
                assert(false);
            }
            SearchEvent::Poll(t) => {
                lemma_no_edits(events.drop_first(), le, event_time(events[0]) as int);
                assert forall|k: int| 0 <= k < events.len() implies !((#[trigger] events[k])
                    is Edit) by {
                    if k > 0 {
                        assert(events[k] == events.drop_first()[k - 1]);
                        assert(!(events.drop_first()[k - 1] is Edit));
                    }
                }
            }
        }
    }
}

/// Without edits, a controller whose text is already published never
/// dispatches.
proof fn lemma_clean_no_dispatch(s: ControllerView, events: Seq<SearchEvent>)
    requires
        s.old_search == s.search,
        no_edits(events),
    ensures
        dispatch_count(s, events) == 0,
    decreases events.len(),
{
    if events.len() > 0 {
        assert(forall|k: int|
            0 <= k < events.drop_first().len() ==> events.drop_first()[k] == events[k + 1]);
        match events[0] {
            SearchEvent::Edit(_, _) => {
                assert(events[0] is Edit);
            }
            SearchEvent::Poll(t) => {
                assert(!poll_dispatches(s, t));
                lemma_clean_no_dispatch(apply_poll(s, t), events.drop_first());
            }
        }
    }
}

/// The debounce induction: pending or published text, a burst of edits
/// each within the debounce window of the one before yields at most one
/// dispatch.
proof fn lemma_debounce_rec(s: ControllerView, events: Seq<SearchEvent>, lo: int)
    requires
        times_ok(events, lo),
        s.old_search == s.search ==> edit_gaps_ok(events, None),
        s.old_search != s.search ==> edit_gaps_ok(events, Some(s.last_input)) && lo
            >= s.last_input,
    ensures
        dispatch_count(s, events) <= 1,
    decreases events.len(),
{
    if events.len() > 0 {
        let e = events[0];
        let rest = events.drop_first();
        let t0 = event_time(e) as int;
        assert(forall|k: int| 0 <= k < rest.len() ==> rest[k] == events[k + 1]);
        match e {
            SearchEvent::Edit(text, t) => {
                let s1 = apply_edit(s, text, t);
                assert(edit_gaps_ok(rest, Some(t)));
                if s1.old_search == s1.search {
                    lemma_edit_gaps_weaken(rest, t);
                }
                lemma_debounce_rec(s1, rest, t0);
            }
            SearchEvent::Poll(t) => {
                let s1 = apply_poll(s, t);
                if poll_dispatches(s, t) {
                    // A dispatch happened strictly after the debounce
                    // window of the last edit: no further edit fits the
                    // burst, so nothing can dispatch again.
                    assert(s.old_search != s.search);
                    assert(t > s.last_input + DEBOUNCE_MS);
                    lemma_no_edits(rest, s.last_input, t0);
                    assert(s1.old_search == s1.search);
                    lemma_clean_no_dispatch(s1, rest);
                } else {
                    assert(s1 == s);
                    lemma_debounce_rec(s1, rest, t0);
                }
            }
        }
    }
}

/// A gap bound from a given last edit also holds with no last edit.
proof fn lemma_edit_gaps_weaken(events: Seq<SearchEvent>, t: u64)
    requires
        edit_gaps_ok(events, Some(t)),
    ensures
        edit_gaps_ok(events, None),
    decreases events.len(),
{
    if events.len() > 0 {
        match events[0] {
            SearchEvent::Edit(_, t2) => {
            }
            SearchEvent::Poll(_) => {
                lemma_edit_gaps_weaken(events.drop_first(), t);
            }
        }
    }
}

/// Debounce: however many text edits arrive, each within the debounce
/// window of the one before, and however the polls fall around them, at
/// most one query is dispatched.
pub proof fn lemma_debounced_burst(s0: ControllerView, events: Seq<SearchEvent>)
    requires
        s0.old_search == s0.search,
        times_ok(events, 0),
        edit_gaps_ok(events, None),
    ensures
        dispatch_count(s0, events) <= 1,
{
    lemma_debounce_rec(s0, events, 0);
}

/// The controller: the typed text, the last text a query was dispatched
/// for, the debounce clock, the current page, the chosen backend, and the
/// two searchers it drives.
pub struct ItemSearch {
    pub show: bool,
    pub search: String,
    pub old_search: String,
    pub page: usize,
    pub last_input_update: u64,
    pub search_type: SearchType,
    pub acc_searcher: IndexReader,
    pub wiki_searcher: WikiReader,
}

impl ItemSearch {
    /// The debounce-relevant part of this controller.
    pub open spec fn controller_view(&self) -> ControllerView {
        ControllerView {
            search: self.search@,
            old_search: self.old_search@,
            last_input: self.last_input_update,
        }
    }

    /// A fresh, hidden controller at time `now_ms`: empty text, first page,
    /// account backend, fresh searchers.
    pub fn new(now_ms: u64) -> (r: ItemSearch)
        ensures
            r.show == false,
            r.search@ == Seq::<char>::empty(),
            r.old_search@ == Seq::<char>::empty(),
            r.page == 0,
            r.last_input_update == now_ms,
            r.search_type == SearchType::Account,
            r.acc_searcher.last_result@ == Seq::<crate::fms_entities::player_item::PlayerItem>::empty(),
            r.wiki_searcher.last_result@ == Seq::<crate::fms_entities::wiki_item::WikiItem>::empty(),
    {
        ItemSearch {
            show: false,
            search: String::new(),
            old_search: String::new(),
            page: 0,
            last_input_update: now_ms,
            search_type: SearchType::Account,
            acc_searcher: IndexReader::new(),
            wiki_searcher: WikiReader::new(),
        }
    }

    /// Take one text edit: the text replaces the typed text and the
    /// debounce clock restarts.
    pub fn input(&mut self, text: String, now_ms: u64)
        ensures
            final(self).controller_view() == apply_edit(
                old(self).controller_view(),
                text@,
                now_ms,
            ),
            final(self).show == old(self).show,
            final(self).page == old(self).page,
            final(self).search_type == old(self).search_type,
            final(self).acc_searcher == old(self).acc_searcher,
            final(self).wiki_searcher == old(self).wiki_searcher,
    {
        self.search = text;
        self.last_input_update = now_ms;
    }

    /// One controller step: a changed backend forces an immediate dispatch;
    /// otherwise text that changed and has rested longer than the debounce
    /// window is dispatched. Either dispatch resets the page to the first
    /// and remembers the text as published.
    pub fn poll(&mut self, selected: SearchType, now_ms: u64) -> (r: Option<SearchDispatch>)
        ensures
            final(self).show == old(self).show,
            final(self).acc_searcher == old(self).acc_searcher,
            final(self).wiki_searcher == old(self).wiki_searcher,
            selected == old(self).search_type ==> {
                &&& (r is Some <==> poll_dispatches(old(self).controller_view(), now_ms))
                &&& final(self).controller_view() == apply_poll(
                    old(self).controller_view(),
                    now_ms,
                )
                &&& final(self).search_type == old(self).search_type
                &&& (r is Some ==> final(self).page == 0)
                &&& (r is None ==> final(self).page == old(self).page)
            },
            selected != old(self).search_type ==> {
                &&& r is Some
                &&& final(self).search_type == selected
                &&& final(self).page == 0
                &&& final(self).controller_view() == (ControllerView {
                    old_search: old(self).search@,
                    ..old(self).controller_view()
                })
            },
            r is Some ==> {
                &&& r->0.query@ == old(self).search@
                &&& r->0.page == 0
                &&& r->0.target == selected
            },
    {
        let switched = selected != self.search_type;
        let rested = now_ms > self.last_input_update && now_ms - self.last_input_update
            > DEBOUNCE_MS;
        let changed = !(self.old_search == self.search);
        if switched || (changed && rested) {
            self.search_type = selected;
            self.page = 0;
            self.old_search = self.search.clone();
            Some(SearchDispatch { query: self.search.clone(), page: 0, target: selected })
        } else {
            None
        }
    }

    /// Step forward one page and dispatch the current text at it.
    pub fn next_page(&mut self) -> (r: SearchDispatch)
        requires
            old(self).page < usize::MAX,
        ensures
            final(self).page == old(self).page + 1,
            r.query@ == old(self).search@,
            r.page == old(self).page + 1,
            r.target == old(self).search_type,
            final(self).controller_view() == old(self).controller_view(),
            final(self).search_type == old(self).search_type,
            final(self).show == old(self).show,
            final(self).acc_searcher == old(self).acc_searcher,
            final(self).wiki_searcher == old(self).wiki_searcher,
    {
        self.page = self.page + 1;
        SearchDispatch { query: self.search.clone(), page: self.page, target: self.search_type }
    }

    /// Step back one page and dispatch the current text at it.
    pub fn prev_page(&mut self) -> (r: SearchDispatch)
        requires
            old(self).page > 0,
        ensures
            final(self).page == old(self).page - 1,
            r.query@ == old(self).search@,
            r.page == old(self).page - 1,
            r.target == old(self).search_type,
            final(self).controller_view() == old(self).controller_view(),
            final(self).search_type == old(self).search_type,
            final(self).show == old(self).show,
            final(self).acc_searcher == old(self).acc_searcher,
            final(self).wiki_searcher == old(self).wiki_searcher,
    {
        self.page = self.page - 1;
        SearchDispatch { query: self.search.clone(), page: self.page, target: self.search_type }
    }
}

} // verus!
