//! How the active alias of a model is found: from a fresh note, or else by a
//! query of the backend, which also brings the presets up to date.

use crate::json;
use crate::json::{Json, JsonView};
use crate::models;
use crate::models::{find_active_alias, presets_from_models_json};
use crate::preset;
use crate::preset::{Preset, PresetView};
use crate::table::Table;
use crate::tracker;
use crate::tracker::{NotedView, Tracker};
use vstd::prelude::*;

verus! {

broadcast use vstd::string::group_string_axioms;

// ---------------------------------------------------------------------------
// Whether to ask
// ---------------------------------------------------------------------------

/// What is to be done next to find the active alias of a model.
#[derive(Debug, PartialEq)]
pub enum RefreshStep {
    /// This alias is the answer.
    Use(String),
    /// Wait for the lock under which the backend is queried, and look again.
    TakeLock,
    /// Query the backend.
    Query,
}

/// A step as mathematics.
pub enum RefreshStepView {
    Use(Seq<char>),
    TakeLock,
    Query,
}

impl View for RefreshStep {
    type V = RefreshStepView;

    open spec fn view(&self) -> RefreshStepView {
        match *self {
            RefreshStep::Use(alias) => RefreshStepView::Use(alias@),
            RefreshStep::TakeLock => RefreshStepView::TakeLock,
            RefreshStep::Query => RefreshStepView::Query,
        }
    }
}

/// A fresh note is used. Else the backend is queried, and only under the lock:
/// whoever waited for it looks first whether another query has answered.
pub open spec fn next_step(
    notes: Map<Seq<char>, NotedView>,
    model_id: Seq<char>,
    now: int,
    ttl: int,
    locked: bool,
) -> RefreshStepView {
    match tracker::fresh_alias(notes, model_id, now, ttl) {
        Some(alias) => RefreshStepView::Use(alias),
        None => if locked {
            RefreshStepView::Query
        } else {
            RefreshStepView::TakeLock
        },
    }
}

/// What is to be done next to find the active alias of a model; `locked` says
/// whether the caller holds the lock for queries.
pub fn refresh_step(
    tracker: &Tracker,
    model_id: &str,
    now: u128,
    ttl: u128,
    locked: bool,
) -> (r: RefreshStep)
    ensures
        r@ == next_step(tracker@, model_id@, now as int, ttl as int, locked),
{
    match tracker.fresh(model_id, now, ttl) {
        Some(alias) => RefreshStep::Use(alias),
        None => if locked {
            RefreshStep::Query
        } else {
            RefreshStep::TakeLock
        },
    }
}

// ---------------------------------------------------------------------------
// What a query brings
// ---------------------------------------------------------------------------

/// What a model list says.
#[derive(Debug, PartialEq)]
pub struct Listing {
    /// The presets of its aliases.
    pub presets: Table<Preset>,
    /// The alias under which the model in question is loaded.
    pub alias: Option<String>,
}

/// The characters of an alias, where there is one.
pub open spec fn alias_view(alias: Option<String>) -> Option<Seq<char>> {
    match alias {
        Some(a) => Some(a@),
        None => None,
    }
}

/// The presets that a model list holds.
pub open spec fn listed_presets(data: Seq<JsonView>) -> Map<Seq<char>, PresetView> {
    preset::presets_of(models::all_sections(data))
}

/// The alias under which a model list has a model loaded, by the presets of
/// that same list.
pub open spec fn listed_alias(
    data: Seq<JsonView>,
    model_id: Seq<char>,
    preferred: Seq<char>,
) -> Option<Seq<char>> {
    models::active_alias(data, listed_presets(data), model_id, preferred)
}

/// What a model list says of its presets and of one model.
pub fn read_listing(data: &[Json], model_id: &str, preferred: &str) -> (r: Listing)
    ensures
        preset::preset_views(r.presets) == listed_presets(json::items(data@)),
        alias_view(r.alias) == listed_alias(json::items(data@), model_id@, preferred@),
{
    let presets = presets_from_models_json(data);
    let alias = find_active_alias(data, &presets, model_id, preferred);
    Listing { presets, alias }
}

/// The presets to go on with when `new` were listed: none listed leaves those
/// that are known.
pub open spec fn kept_presets(
    known: Map<Seq<char>, PresetView>,
    new: Map<Seq<char>, PresetView>,
) -> Map<Seq<char>, PresetView> {
    if new == Map::<Seq<char>, PresetView>::empty() {
        known
    } else {
        new
    }
}

/// Goes on with the presets that were listed, or with those that are known
/// where none were: a backend that is just starting lists none for a while.
pub fn commit_presets(presets: &mut Table<Preset>, new: Table<Preset>)
    ensures
        preset::preset_views(*final(presets)) == kept_presets(
            preset::preset_views(*old(presets)),
            preset::preset_views(new),
        ),
{
    proof {
        preset::lemma_views_empty(new@);
        preset::lemma_views_empty(presets@);
    }
    if !(new.is_empty() && !presets.is_empty()) {
        *presets = new;
    }
}

/// How a query for the active alias went.
#[derive(Debug, PartialEq)]
pub enum ProbeResult {
    /// It was answered; the alias, where the model is loaded at all.
    Refreshed(Option<String>),
    /// It failed, and nothing was changed.
    Failed,
}

/// The outcome of a query as mathematics.
pub enum ProbeView {
    Refreshed(Option<Seq<char>>),
    Failed,
}

impl View for ProbeResult {
    type V = ProbeView;

    open spec fn view(&self) -> ProbeView {
        match *self {
            ProbeResult::Refreshed(alias) => ProbeView::Refreshed(alias_view(alias)),
            ProbeResult::Failed => ProbeView::Failed,
        }
    }
}

/// Brings the presets up to date with the answer to a query, where there is
/// one, and says how the query went.
pub fn query_loaded_alias(presets: &mut Table<Preset>, answer: Option<Listing>) -> (r: ProbeResult)
    ensures
        match answer {
            Some(listing) => {
                &&& r@ == ProbeView::Refreshed(alias_view(listing.alias))
                &&& preset::preset_views(*final(presets)) == kept_presets(
                    preset::preset_views(*old(presets)),
                    preset::preset_views(listing.presets),
                )
            },
            None => r@ == ProbeView::Failed && *final(presets) == *old(presets),
        },
{
    match answer {
        Some(listing) => {
            commit_presets(presets, listing.presets);
            ProbeResult::Refreshed(listing.alias)
        },
        None => ProbeResult::Failed,
    }
}

/// The notes after a query for the active alias of a model.
pub open spec fn notes_after(
    notes: Map<Seq<char>, NotedView>,
    model_id: Seq<char>,
    probe: ProbeView,
    now: int,
) -> Map<Seq<char>, NotedView> {
    match probe {
        ProbeView::Refreshed(Some(alias)) => notes.insert(
            model_id,
            NotedView { alias, at: now },
        ),
        ProbeView::Refreshed(None) => notes.remove(model_id),
        ProbeView::Failed => notes,
    }
}

/// The active alias after a query: what was answered, or what was known where
/// the query failed.
pub open spec fn alias_after(
    notes: Map<Seq<char>, NotedView>,
    model_id: Seq<char>,
    probe: ProbeView,
) -> Option<Seq<char>> {
    match probe {
        ProbeView::Refreshed(alias) => alias,
        ProbeView::Failed => tracker::known_alias(notes, model_id),
    }
}

/// Notes how a query for the active alias of a model went, and gives the
/// alias to use. After a failure an old note is still used and keeps its time,
/// so the next request queries again.
pub fn finish_refresh(
    tracker: &mut Tracker,
    model_id: &str,
    probe: ProbeResult,
    now: u128,
) -> (r: Option<String>)
    ensures
        final(tracker)@ == notes_after(old(tracker)@, model_id@, probe@, now as int),
        alias_view(r) == alias_after(old(tracker)@, model_id@, probe@),
{
    match probe {
        ProbeResult::Refreshed(Some(alias)) => {
            tracker.record_active_alias(model_id, alias.as_str(), now);
            Some(alias)
        },
        ProbeResult::Refreshed(None) => {
            tracker.forget(model_id);
            None
        },
        ProbeResult::Failed => tracker.known(model_id),
    }
}

} // verus!
