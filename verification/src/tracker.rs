//! Which alias is active for each model, and since when that is known.

use crate::table::Table;
use vstd::prelude::*;

verus! {

broadcast use vstd::string::group_string_axioms;

/// An active alias, and when it was noted.
#[derive(Debug, PartialEq)]
pub struct Noted {
    /// The alias under which the model is loaded.
    pub alias: String,
    /// The time of the note, in nanoseconds of some clock.
    pub at: u128,
}

/// A note as mathematics.
#[verifier::ext_equal]
pub struct NotedView {
    pub alias: Seq<char>,
    pub at: int,
}

impl View for Noted {
    type V = NotedView;

    open spec fn view(&self) -> NotedView {
        NotedView { alias: self.alias@, at: self.at as int }
    }
}

/// The active aliases by the identities of their models.
#[derive(Debug, PartialEq)]
pub struct Tracker {
    pub notes: Table<Noted>,
}

impl View for Tracker {
    type V = Map<Seq<char>, NotedView>;

    open spec fn view(&self) -> Map<Seq<char>, NotedView> {
        self.notes@.map_values(|n: Noted| n@)
    }
}

/// The time from `at` to `now`, which is none where the clock went back.
pub open spec fn elapsed(at: int, now: int) -> int {
    if at < now {
        now - at
    } else {
        0
    }
}

/// The alias noted for a model, where the note is younger than `ttl`.
pub open spec fn fresh_alias(
    notes: Map<Seq<char>, NotedView>,
    model_id: Seq<char>,
    now: int,
    ttl: int,
) -> Option<Seq<char>> {
    if notes.contains_key(model_id) && elapsed(notes[model_id].at, now) < ttl {
        Some(notes[model_id].alias)
    } else {
        None
    }
}

/// The alias noted for a model, however old the note is.
pub open spec fn known_alias(notes: Map<Seq<char>, NotedView>, model_id: Seq<char>) -> Option<
    Seq<char>,
> {
    if notes.contains_key(model_id) {
        Some(notes[model_id].alias)
    } else {
        None
    }
}

impl Tracker {
    /// No alias is active.
    pub fn new() -> (r: Tracker)
        ensures
            r@ == Map::<Seq<char>, NotedView>::empty(),
    {
        let r = Tracker { notes: Table::new() };
        assert(r@ =~= Map::<Seq<char>, NotedView>::empty());
        r
    }

    /// Whether no alias is noted.
    pub fn is_empty(&self) -> (r: bool)
        ensures
            r == (self@ == Map::<Seq<char>, NotedView>::empty()),
    {
        proof {
            if self.notes@ == Map::<Seq<char>, Noted>::empty() {
                assert(self@ =~= Map::<Seq<char>, NotedView>::empty());
            } else if self@ == Map::<Seq<char>, NotedView>::empty() {
                assert forall|k: Seq<char>| !self.notes@.contains_key(k) by {
                    assert(!self@.contains_key(k));
                }
                assert(self.notes@ =~= Map::<Seq<char>, Noted>::empty());
            }
        }
        self.notes.is_empty()
    }

    /// The alias noted for a model, where the note is younger than `ttl`.
    /// Times are in nanoseconds; with a `ttl` of none no note is young.
    pub fn fresh(&self, model_id: &str, now: u128, ttl: u128) -> (r: Option<String>)
        ensures
            match r {
                Some(alias) => fresh_alias(self@, model_id@, now as int, ttl as int) == Some(alias@),
                None => fresh_alias(self@, model_id@, now as int, ttl as int) is None,
            },
    {
        match self.notes.get(model_id) {
            Some(note) => {
                let age: u128 = if note.at < now {
                    now - note.at
                } else {
                    0
                };
                if age < ttl {
                    Some(note.alias.clone())
                } else {
                    None
                }
            },
            None => None,
        }
    }

    /// The alias noted for a model, however old the note is.
    pub fn known(&self, model_id: &str) -> (r: Option<String>)
        ensures
            match r {
                Some(alias) => known_alias(self@, model_id@) == Some(alias@),
                None => known_alias(self@, model_id@) is None,
            },
    {
        match self.notes.get(model_id) {
            Some(note) => Some(note.alias.clone()),
            None => None,
        }
    }

    /// Notes that `alias` is active for a model.
    pub fn record_active_alias(&mut self, model_id: &str, alias: &str, now: u128)
        ensures
            final(self)@ == old(self)@.insert(
                model_id@,
                NotedView { alias: alias@, at: now as int },
            ),
    {
        let note = Noted { alias: alias.to_owned(), at: now };
        self.notes.insert(model_id.to_owned(), note);
        assert(self@ =~= old(self)@.insert(model_id@, note@));
    }

    /// Drops the note for a model.
    pub fn forget(&mut self, model_id: &str)
        ensures
            final(self)@ == old(self)@.remove(model_id@),
    {
        let _ = self.notes.remove(model_id);
        assert(self@ =~= old(self)@.remove(model_id@));
    }
}

// ---------------------------------------------------------------------------
// Laws
// ---------------------------------------------------------------------------

/// A note counts as fresh up to its lifetime and not from then on.
pub proof fn law_note_lives_for_ttl(
    notes: Map<Seq<char>, NotedView>,
    model_id: Seq<char>,
    alias: Seq<char>,
    at: int,
    now: int,
    ttl: int,
)
    requires
        at <= now,
        ttl >= 0,
    ensures
        fresh_alias(notes.insert(model_id, NotedView { alias, at }), model_id, now, ttl) == (if now
            < at + ttl {
            Some(alias)
        } else {
            None
        }),
{
}

/// With a lifetime of none, no note is ever fresh.
pub proof fn law_no_ttl_no_cache(
    notes: Map<Seq<char>, NotedView>,
    model_id: Seq<char>,
    now: int,
)
    ensures
        fresh_alias(notes, model_id, now, 0) is None,
{
}

/// A note for one model says nothing of another.
pub proof fn law_notes_are_independent(
    notes: Map<Seq<char>, NotedView>,
    model_id: Seq<char>,
    note: NotedView,
    other: Seq<char>,
    now: int,
    ttl: int,
)
    requires
        model_id != other,
    ensures
        fresh_alias(notes.insert(model_id, note), other, now, ttl) == fresh_alias(
            notes,
            other,
            now,
            ttl,
        ),
        fresh_alias(notes.remove(model_id), other, now, ttl) == fresh_alias(
            notes,
            other,
            now,
            ttl,
        ),
{
}

/// A fresh alias is the known one.
pub proof fn law_fresh_is_known(
    notes: Map<Seq<char>, NotedView>,
    model_id: Seq<char>,
    now: int,
    ttl: int,
)
    requires
        fresh_alias(notes, model_id, now, ttl) is Some,
    ensures
        known_alias(notes, model_id) == fresh_alias(notes, model_id, now, ttl),
{
}

/// A note of the future counts as one of now.
pub proof fn law_note_of_the_future(
    notes: Map<Seq<char>, NotedView>,
    model_id: Seq<char>,
    alias: Seq<char>,
    at: int,
    now: int,
    ttl: int,
)
    requires
        now < at,
    ensures
        fresh_alias(notes.insert(model_id, NotedView { alias, at }), model_id, now, ttl) == (if 0
            < ttl {
            Some(alias)
        } else {
            None
        }),
{
}

/// What is noted of a model is known until it is dropped, and nothing is known
/// or fresh of a model without a note.
pub proof fn law_known_until_dropped(
    notes: Map<Seq<char>, NotedView>,
    model_id: Seq<char>,
    note: NotedView,
    other: Seq<char>,
    now: int,
    ttl: int,
)
    ensures
        known_alias(notes.insert(model_id, note), model_id) == Some(note.alias),
        known_alias(notes.remove(model_id), model_id) is None,
        fresh_alias(notes.remove(model_id), model_id, now, ttl) is None,
        other != model_id ==> known_alias(notes.insert(model_id, note), other) == known_alias(
            notes,
            other,
        ) && known_alias(notes.remove(model_id), other) == known_alias(notes, other),
{
}

} // verus!
