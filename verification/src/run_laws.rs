//! What is promised of many callers that look for active aliases at once, with
//! one lock for queries between them.

use crate::refresh;
use crate::refresh::{ProbeView, RefreshStepView};
use crate::tracker;
use crate::tracker::NotedView;
use vstd::prelude::*;

verus! {

// ---------------------------------------------------------------------------
// Runs
// ---------------------------------------------------------------------------

/// How far a caller has come.
pub enum Stage {
    /// It has not looked yet.
    New,
    /// It was told to take the lock, and waits for it.
    Waiting,
    /// It holds the lock, and has not looked again.
    Locked,
    /// It holds the lock, and its query is in flight.
    Querying,
    /// It has returned this.
    Done(Option<Seq<char>>),
}

/// A caller that looks for the active alias of a model.
pub struct Caller {
    pub model_id: Seq<char>,
    pub stage: Stage,
}

/// What callers share, and how far each has come.
pub struct Run {
    pub callers: Seq<Caller>,
    /// The caller that holds the lock.
    pub holder: Option<int>,
    pub notes: Map<Seq<char>, NotedView>,
    /// The time of the last event.
    pub clock: int,
}

/// What can happen next.
pub enum Event {
    /// A new caller looks.
    Look { caller: int, now: int },
    /// A waiting caller gets the lock.
    Take { caller: int },
    /// The holder of the lock looks again.
    LookAgain { caller: int, now: int },
    /// The query of a caller ends; the caller notes how it went, gives the lock
    /// back and returns.
    Answer { caller: int, probe: ProbeView, now: int },
    /// The backend has taken a request for an alias, which is noted.
    Note { model_id: Seq<char>, alias: Seq<char>, now: int },
}

impl Event {
    /// When it happens; taking the lock is not timed.
    pub open spec fn time(self, clock: int) -> int {
        match self {
            Event::Look { now, .. } => now,
            Event::Take { .. } => clock,
            Event::LookAgain { now, .. } => now,
            Event::Answer { now, .. } => now,
            Event::Note { now, .. } => now,
        }
    }
}

impl Run {
    /// `caller` is one of the callers, and has come to the stage `stage`.
    pub open spec fn is_at(self, caller: int, stage: Stage) -> bool {
        0 <= caller < self.callers.len() && self.callers[caller].stage == stage
    }

    /// The caller goes on to `stage`.
    pub open spec fn moved(self, caller: int, stage: Stage) -> Run {
        Run {
            callers: self.callers.update(
                caller,
                Caller { model_id: self.callers[caller].model_id, stage },
            ),
            ..self
        }
    }

    /// What a caller is told to do when it looks.
    pub open spec fn told(self, caller: int, now: int, ttl: int, locked: bool) -> RefreshStepView {
        refresh::next_step(self.notes, self.callers[caller].model_id, now, ttl, locked)
    }

    /// Time goes on, and each caller does one thing after the other; the lock
    /// is given only where it is free.
    pub open spec fn allows(self, e: Event) -> bool {
        &&& self.clock <= e.time(self.clock)
        &&& match e {
            Event::Look { caller, .. } => self.is_at(caller, Stage::New),
            Event::Take { caller } => self.is_at(caller, Stage::Waiting) && self.holder is None,
            Event::LookAgain { caller, .. } => self.is_at(caller, Stage::Locked),
            Event::Answer { caller, .. } => self.is_at(caller, Stage::Querying),
            Event::Note { .. } => true,
        }
    }

    /// What an event does.
    pub open spec fn after(self, e: Event, ttl: int) -> Run {
        let timed = Run { clock: e.time(self.clock), ..self };
        match e {
            Event::Look { caller, now } => match self.told(caller, now, ttl, false) {
                RefreshStepView::Use(alias) => timed.moved(caller, Stage::Done(Some(alias))),
                RefreshStepView::TakeLock => timed.moved(caller, Stage::Waiting),
                RefreshStepView::Query => timed.moved(caller, Stage::Querying),
            },
            Event::Take { caller } => Run {
                holder: Some(caller),
                ..timed.moved(caller, Stage::Locked)
            },
            Event::LookAgain { caller, now } => match self.told(caller, now, ttl, true) {
                RefreshStepView::Use(alias) => Run {
                    holder: None,
                    ..timed.moved(caller, Stage::Done(Some(alias)))
                },
                RefreshStepView::TakeLock => timed.moved(caller, Stage::Waiting),
                RefreshStepView::Query => timed.moved(caller, Stage::Querying),
            },
            Event::Answer { caller, probe, now } => {
                let model_id = self.callers[caller].model_id;
                Run {
                    holder: None,
                    notes: refresh::notes_after(self.notes, model_id, probe, now),
                    ..timed.moved(
                        caller,
                        Stage::Done(refresh::alias_after(self.notes, model_id, probe)),
                    )
                }
            },
            Event::Note { model_id, alias, now } => Run {
                notes: self.notes.insert(model_id, NotedView { alias, at: now }),
                ..timed
            },
        }
    }

    /// The event `e` starts a query for a model.
    pub open spec fn queries(self, e: Event, ttl: int, model_id: Seq<char>) -> bool {
        match e {
            Event::Look { caller, now } => self.callers[caller].model_id == model_id && self.told(
                caller,
                now,
                ttl,
                false,
            ) is Query,
            Event::LookAgain { caller, now } => self.callers[caller].model_id == model_id
                && self.told(caller, now, ttl, true) is Query,
            _ => false,
        }
    }

    /// The event `e` ends a query for a model.
    pub open spec fn answers(self, e: Event, model_id: Seq<char>) -> bool {
        e matches Event::Answer { caller, .. } && self.callers[caller].model_id == model_id
    }

    /// No caller has looked yet, and the lock is free.
    pub open spec fn is_start(self) -> bool {
        &&& self.holder is None
        &&& forall|c: int|
            0 <= c < self.callers.len() ==> (#[trigger] self.callers[c]).stage == Stage::New
    }
}

/// The state after some events.
pub open spec fn after_events(start: Run, events: Seq<Event>, ttl: int) -> Run
    decreases events.len(),
{
    if events.len() == 0 {
        start
    } else {
        after_events(start, events.drop_last(), ttl).after(events.last(), ttl)
    }
}

/// Each event can happen where the events before it have led.
pub open spec fn can_happen(start: Run, events: Seq<Event>, ttl: int) -> bool
    decreases events.len(),
{
    events.len() > 0 ==> can_happen(start, events.drop_last(), ttl) && after_events(
        start,
        events.drop_last(),
        ttl,
    ).allows(events.last())
}

/// The number of queries for a model that some events start.
pub open spec fn queries_made(
    start: Run,
    events: Seq<Event>,
    ttl: int,
    model_id: Seq<char>,
) -> nat
    decreases events.len(),
{
    if events.len() == 0 {
        0
    } else {
        let before = queries_made(start, events.drop_last(), ttl, model_id);
        if after_events(start, events.drop_last(), ttl).queries(events.last(), ttl, model_id) {
            before + 1
        } else {
            before
        }
    }
}

// ---------------------------------------------------------------------------
// One query at a time
// ---------------------------------------------------------------------------

/// The callers at the stages under the lock are those that hold it.
pub open spec fn is_guarded(r: Run) -> bool {
    &&& r.holder matches Some(h) ==> 0 <= h < r.callers.len()
    &&& forall|c: int|
        0 <= c < r.callers.len() ==> ((#[trigger] r.callers[c]).stage is Locked
            || r.callers[c].stage is Querying) == (r.holder == Some(c))
}

/// Events keep the lock with its holder.
proof fn lemma_guarded(start: Run, events: Seq<Event>, ttl: int)
    requires
        start.is_start(),
        can_happen(start, events, ttl),
    ensures
        is_guarded(after_events(start, events, ttl)),
        after_events(start, events, ttl).callers.len() == start.callers.len(),
    decreases events.len(),
{
    if events.len() > 0 {
        lemma_guarded(start, events.drop_last(), ttl);
    }
}

/// Whatever callers do, at most one query is in flight at a time, and its
/// caller holds the lock.
pub proof fn law_one_query_in_flight(
    start: Run,
    events: Seq<Event>,
    ttl: int,
    a: int,
    b: int,
)
    requires
        start.is_start(),
        can_happen(start, events, ttl),
        after_events(start, events, ttl).is_at(a, Stage::Querying),
    ensures
        after_events(start, events, ttl).holder == Some(a),
        after_events(start, events, ttl).is_at(b, Stage::Querying) ==> a == b,
{
    lemma_guarded(start, events, ttl);
}

// ---------------------------------------------------------------------------
// One query for all who wait
// ---------------------------------------------------------------------------

/// A query for the model is in flight.
spec fn in_flight(r: Run, model_id: Seq<char>) -> bool {
    r.holder matches Some(h) && r.callers[h].stage is Querying && r.callers[h].model_id == model_id
}

/// Every caller of the model that has returned has returned this.
spec fn all_returned(r: Run, model_id: Seq<char>, alias: Option<Seq<char>>) -> bool {
    forall|c: int|
        0 <= c < r.callers.len() && (#[trigger] r.callers[c]).model_id == model_id ==> (
        r.callers[c].stage matches Stage::Done(got) ==> got == alias)
}

/// No caller of the model has returned.
spec fn none_returned(r: Run, model_id: Seq<char>) -> bool {
    forall|c: int|
        0 <= c < r.callers.len() && (#[trigger] r.callers[c]).model_id == model_id ==> !(
        r.callers[c].stage is Done)
}

/// No event notes an alias for the model but the end of a query.
pub open spec fn no_notes_for(events: Seq<Event>, model_id: Seq<char>) -> bool {
    forall|i: int|
        0 <= i < events.len() ==> ((#[trigger] events[i]) matches Event::Note { model_id: m, .. }
            ==> m != model_id)
}

/// Events keep the callers and what they look for, and time goes on.
proof fn lemma_callers_stay(start: Run, events: Seq<Event>, ttl: int, n: int)
    requires
        start.is_start(),
        can_happen(start, events, ttl),
        0 <= n <= events.len(),
    ensures
        can_happen(start, events.take(n), ttl),
        after_events(start, events.take(n), ttl).clock <= after_events(start, events, ttl).clock,
        forall|c: int|
            0 <= c < start.callers.len() ==> (#[trigger] after_events(
                start,
                events.take(n),
                ttl,
            ).callers[c]).model_id == start.callers[c].model_id,
    decreases events.len(),
{
    if n == events.len() {
        assert(events.take(n) =~= events);
        if n > 0 {
            lemma_callers_stay(start, events.drop_last(), ttl, n - 1);
            assert(events.drop_last().take(n - 1) =~= events.drop_last());
            lemma_guarded(start, events.drop_last(), ttl);
        }
    } else {
        lemma_callers_stay(start, events.drop_last(), ttl, n);
        assert(events.drop_last().take(n) =~= events.take(n));
    }
}

/// Until the first query for the model ends, no caller returns, and no other
/// query for it starts.
proof fn lemma_before_answer(start: Run, events: Seq<Event>, ttl: int, model_id: Seq<char>)
    requires
        start.is_start(),
        can_happen(start, events, ttl),
        tracker::fresh_alias(start.notes, model_id, start.clock, ttl) is None,
        no_notes_for(events, model_id),
        forall|i: int|
            0 <= i < events.len() ==> !after_events(start, events.take(i), ttl).answers(
                #[trigger] events[i],
                model_id,
            ),
    ensures
        ({
            let r = after_events(start, events, ttl);
            &&& tracker::fresh_alias(r.notes, model_id, r.clock, ttl) is None
            &&& none_returned(r, model_id)
            &&& queries_made(start, events, ttl, model_id) == (if in_flight(r, model_id) {
                1nat
            } else {
                0
            })
        }),
    decreases events.len(),
{
    if events.len() > 0 {
        let shorter = events.drop_last();
        let e = events.last();
        assert forall|i: int| 0 <= i < shorter.len() implies !after_events(
            start,
            shorter.take(i),
            ttl,
        ).answers(#[trigger] shorter[i], model_id) by {
            assert(shorter.take(i) =~= events.take(i));
            assert(shorter[i] == events[i]);
        }
        assert(no_notes_for(shorter, model_id)) by {
            assert forall|i: int| 0 <= i < shorter.len() implies ((#[trigger] shorter[i])
                matches Event::Note { model_id: m, .. } ==> m != model_id) by {
                assert(shorter[i] == events[i]);
            }
        }
        lemma_before_answer(start, shorter, ttl, model_id);
        lemma_guarded(start, shorter, ttl);
        lemma_guarded(start, events, ttl);
        assert(events.take(events.len() - 1) =~= shorter);
        assert(!after_events(start, shorter, ttl).answers(events[events.len() - 1], model_id));
        assert(events[events.len() - 1] == e);
    }
}

/// Once the first query for the model has found an alias, and while its note
/// is fresh, no other query for it starts, and callers return that alias.
proof fn lemma_after_answer(
    start: Run,
    events: Seq<Event>,
    ttl: int,
    model_id: Seq<char>,
    k: int,
    alias: Seq<char>,
)
    requires
        start.is_start(),
        can_happen(start, events, ttl),
        tracker::fresh_alias(start.notes, model_id, start.clock, ttl) is None,
        no_notes_for(events, model_id),
        0 <= k < events.len(),
        forall|i: int|
            0 <= i < k ==> !after_events(start, events.take(i), ttl).answers(
                #[trigger] events[i],
                model_id,
            ),
        after_events(start, events.take(k), ttl).answers(events[k], model_id),
        events[k]->probe == ProbeView::Refreshed(Some(alias)),
        after_events(start, events, ttl).clock < events[k]->Answer_now + ttl,
    ensures
        ({
            let r = after_events(start, events, ttl);
            &&& events[k]->Answer_now <= r.clock
            &&& r.notes.contains_key(model_id)
            &&& r.notes[model_id] == NotedView { alias, at: events[k]->Answer_now }
            &&& !in_flight(r, model_id)
            &&& all_returned(r, model_id, Some(alias))
            &&& queries_made(start, events, ttl, model_id) == 1
        }),
    decreases events.len(),
{
    let shorter = events.drop_last();
    let n = events.len() - 1;
    assert(events.take(n) =~= shorter);
    lemma_callers_stay(start, events, ttl, n);
    lemma_guarded(start, shorter, ttl);
    lemma_guarded(start, events, ttl);
    assert(no_notes_for(shorter, model_id)) by {
        assert forall|i: int| 0 <= i < shorter.len() implies ((#[trigger] shorter[i])
            matches Event::Note { model_id: m, .. } ==> m != model_id) by {
            assert(shorter[i] == events[i]);
        }
    }
    assert forall|i: int| 0 <= i < k implies !after_events(start, shorter.take(i), ttl).answers(
        #[trigger] shorter[i],
        model_id,
    ) by {
        assert(shorter.take(i) =~= events.take(i));
        assert(shorter[i] == events[i]);
    }
    if k == n {
        lemma_before_answer(start, shorter, ttl, model_id);
    } else {
        assert(shorter.take(k) =~= events.take(k));
        assert(shorter[k] == events[k]);
        lemma_after_answer(start, shorter, ttl, model_id, k, alias);
        assert(events[n] == events.last());
    }
}

/// Of any number of callers that look at once for the active alias of a model
/// without a fresh note, one asks the backend. Where it is told an alias, and
/// while the note of that is fresh, that was the only query for the model, and
/// every caller that has returned got that alias; so does every caller that
/// waited and now looks again.
pub proof fn law_waiting_callers_share_one_query(
    start: Run,
    events: Seq<Event>,
    ttl: int,
    model_id: Seq<char>,
    k: int,
    alias: Seq<char>,
)
    requires
        start.is_start(),
        can_happen(start, events, ttl),
        tracker::fresh_alias(start.notes, model_id, start.clock, ttl) is None,
        no_notes_for(events, model_id),
        0 <= k < events.len(),
        forall|i: int|
            0 <= i < k ==> !after_events(start, events.take(i), ttl).answers(
                #[trigger] events[i],
                model_id,
            ),
        after_events(start, events.take(k), ttl).answers(events[k], model_id),
        events[k]->probe == ProbeView::Refreshed(Some(alias)),
        after_events(start, events, ttl).clock < events[k]->Answer_now + ttl,
    ensures
        queries_made(start, events, ttl, model_id) == 1,
        ({
            let r = after_events(start, events, ttl);
            forall|c: int| #![trigger r.callers[c]]
                0 <= c < start.callers.len() && start.callers[c].model_id == model_id ==> {
                    &&& r.callers[c].stage != Stage::Querying
                    &&& r.callers[c].stage matches Stage::Done(got) ==> got == Some(alias)
                    &&& forall|now: int, locked: bool|
                        r.clock <= now < events[k]->Answer_now + ttl ==> #[trigger] r.told(
                            c,
                            now,
                            ttl,
                            locked,
                        ) == RefreshStepView::Use(alias)
                }
        }),
{
    lemma_after_answer(start, events, ttl, model_id, k, alias);
    lemma_guarded(start, events, ttl);
    lemma_callers_stay(start, events, ttl, events.len() as int);
    assert(events.take(events.len() as int) =~= events);
}

} // verus!
