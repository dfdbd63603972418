//! What happens to the body of a POST request on its way to the backend.

use crate::json;
use crate::json::{Json, JsonView};
use crate::preset;
use crate::preset::{Preset, PresetView};
use crate::refresh;
use crate::table::Table;
use crate::text::same_text;
use crate::tracker::{NotedView, Tracker};
use crate::wire;
use crate::wire::{parse_json, print_json};
use vstd::prelude::*;

verus! {

broadcast use vstd::string::group_string_axioms;

/// The body to forward, and what to note once the backend has taken it.
#[derive(Debug, PartialEq)]
pub struct PostIntercept {
    /// The bytes to forward.
    pub body_bytes: Vec<u8>,
    /// The identity of a model and the alias that is active for it from then
    /// on.
    pub record_active: Option<(String, String)>,
}

/// An intercepted body as mathematics.
#[verifier::ext_equal]
pub struct PostInterceptView {
    pub body_bytes: Seq<u8>,
    pub record_active: Option<(Seq<char>, Seq<char>)>,
}

/// The characters of what is to be noted.
pub open spec fn record_view(record: Option<(String, String)>) -> Option<(Seq<char>, Seq<char>)> {
    match record {
        Some((model_id, alias)) => Some((model_id@, alias@)),
        None => None,
    }
}

impl View for PostIntercept {
    type V = PostInterceptView;

    open spec fn view(&self) -> PostInterceptView {
        PostInterceptView {
            body_bytes: self.body_bytes@,
            record_active: record_view(self.record_active),
        }
    }
}

/// A body that is forwarded as it is, with nothing to note.
pub open spec fn unchanged(bytes: Seq<u8>) -> PostInterceptView {
    PostInterceptView { body_bytes: bytes, record_active: None }
}

impl PostIntercept {
    /// Forwards a body as it is, with nothing to note.
    pub fn passthrough(bytes: Vec<u8>) -> (r: PostIntercept)
        ensures
            r@ == unchanged(bytes@),
    {
        PostIntercept { body_bytes: bytes, record_active: None }
    }
}

// ---------------------------------------------------------------------------
// Before the active alias is known
// ---------------------------------------------------------------------------

/// A request for an alias whose model has an identity.
#[derive(Debug, PartialEq)]
pub struct Pending {
    /// The body as it came.
    pub body_bytes: Vec<u8>,
    /// The fields of the body.
    pub fields: Table<Json>,
    /// The alias that the client asked for.
    pub requested_alias: String,
    /// The preset of that alias.
    pub preset: Preset,
}

/// Such a request as mathematics.
#[verifier::ext_equal]
pub struct AskedView {
    pub fields: Map<Seq<char>, JsonView>,
    pub alias: Seq<char>,
    pub preset: PresetView,
}

impl View for Pending {
    type V = AskedView;

    open spec fn view(&self) -> AskedView {
        AskedView {
            fields: json::fields(self.fields),
            alias: self.requested_alias@,
            preset: self.preset@,
        }
    }
}

/// What a first look at a body gives.
#[derive(Debug, PartialEq)]
pub enum Inspected {
    /// The active alias makes no difference.
    Done(PostIntercept),
    /// The active alias of the model decides.
    Ask(Pending),
}

/// The request that a body makes of an alias whose model has an identity. It
/// makes none where it is not a JSON object, names no model, or names one
/// without such a preset.
pub open spec fn asked(presets: Map<Seq<char>, PresetView>, body: Option<JsonView>) -> Option<
    AskedView,
> {
    match body {
        Some(JsonView::Object(fields)) => match json::text_of(
            JsonView::Object(fields),
            "model"@,
        ) {
            Some(alias) => if presets.contains_key(alias) && presets[alias].model_id.len() > 0 {
                Some(AskedView { fields, alias, preset: presets[alias] })
            } else {
                None
            },
            None => None,
        },
        _ => None,
    }
}

/// A first look at a body that was read as `body`.
pub fn inspect_post(presets: &Table<Preset>, body: Option<Json>, bytes: Vec<u8>) -> (r: Inspected)
    ensures
        match asked(
            preset::preset_views(*presets),
            match body {
                Some(j) => Some(j.tree()),
                None => None,
            },
        ) {
            Some(request) => r matches Inspected::Ask(p) && p@ == request && p.body_bytes == bytes,
            None => r matches Inspected::Done(d) && d@ == unchanged(bytes@),
        },
{
    let fields = match body {
        Some(Json::Object(fields)) => {
            proof {
                json::lemma_object_tree(fields);
            }
            fields
        },
        _ => return Inspected::Done(PostIntercept::passthrough(bytes)),
    };
    let requested_alias = match fields.get("model") {
        Some(Json::Text(alias)) => alias.clone(),
        _ => return Inspected::Done(PostIntercept::passthrough(bytes)),
    };
    match presets.get(requested_alias.as_str()) {
        Some(p) => {
            if p.model_id.as_str().is_empty() {
                return Inspected::Done(PostIntercept::passthrough(bytes));
            }
            let preset = p.copy();
            Inspected::Ask(Pending { body_bytes: bytes, fields, requested_alias, preset })
        },
        None => Inspected::Done(PostIntercept::passthrough(bytes)),
    }
}

/// A first look at the body of a POST request.
pub fn begin_intercept(presets: &Table<Preset>, bytes: Vec<u8>) -> (r: Inspected)
    ensures
        match asked(preset::preset_views(*presets), wire::parsed_json(bytes@)) {
            Some(request) => r matches Inspected::Ask(p) && p@ == request && p.body_bytes == bytes,
            None => r matches Inspected::Done(d) && d@ == unchanged(bytes@),
        },
{
    let body = parse_json(bytes.as_slice());
    inspect_post(presets, body, bytes)
}

// ---------------------------------------------------------------------------
// When the active alias is known
// ---------------------------------------------------------------------------

/// The alias to reroute a request to: the active one, where it is another than
/// the one asked for.
pub open spec fn reroute_to(alias: Seq<char>, active: Option<Seq<char>>) -> Option<Seq<char>> {
    match active {
        Some(a) => if a != alias {
            Some(a)
        } else {
            None
        },
        None => None,
    }
}

/// The fields of a body that is rerouted to `alias`: those of the client, the
/// parameters of the preset that it did not set, and the new model.
pub open spec fn rerouted(
    p: PresetView,
    fields: Map<Seq<char>, JsonView>,
    alias: Seq<char>,
) -> Map<Seq<char>, JsonView> {
    preset::injected(p, fields).insert("model"@, JsonView::Text(alias))
}

/// The preset of an alias as it is now, or `old` where there is none any more.
pub open spec fn current_preset(
    presets: Map<Seq<char>, PresetView>,
    alias: Seq<char>,
    old: PresetView,
) -> PresetView {
    if presets.contains_key(alias) {
        presets[alias]
    } else {
        old
    }
}

/// The fields to forward for a request that is rerouted to `alias`.
pub open spec fn forwarded_fields(
    request: AskedView,
    presets: Map<Seq<char>, PresetView>,
    alias: Seq<char>,
) -> Map<Seq<char>, JsonView> {
    rerouted(current_preset(presets, request.alias, request.preset), request.fields, alias)
}

/// What is forwarded for a request, and noted. `presets` are those known after
/// the active alias was found.
pub open spec fn intercepted(
    request: AskedView,
    bytes: Seq<u8>,
    active: Option<Seq<char>>,
    presets: Map<Seq<char>, PresetView>,
) -> PostInterceptView {
    match reroute_to(request.alias, active) {
        Some(alias) => PostInterceptView {
            body_bytes: wire::json_bytes(
                JsonView::Object(forwarded_fields(request, presets, alias)),
            ),
            record_active: None,
        },
        None => PostInterceptView {
            body_bytes: bytes,
            record_active: Some((request.preset.model_id, request.alias)),
        },
    }
}

/// The fields of a body that is rerouted to `alias`.
pub fn reroute(preset: &Preset, fields: Table<Json>, alias: &str) -> (r: Table<Json>)
    ensures
        json::fields(r) == rerouted(preset@, json::fields(fields), alias@),
{
    let mut out = preset.inject(fields);
    let model = Json::Text(alias.to_owned());
    proof {
        json::lemma_trees_insert(out@, "model"@, model);
    }
    out.insert("model".to_owned(), model);
    out
}

/// What to forward for a request, given the active alias of its model. Where
/// that is another alias, the body is rewritten for it with the parameters of
/// the alias asked for; else it is forwarded as it is. What is written
/// reads back as [`wire::reads_back`] says: without floating-point numbers as
/// it is, and with them, if at all, the same but for those.
pub fn finish_intercept(
    pending: Pending,
    active: Option<String>,
    presets: &Table<Preset>,
) -> (r: PostIntercept)
    ensures
        r@ == intercepted(
            pending@,
            pending.body_bytes@,
            refresh::alias_view(active),
            preset::preset_views(*presets),
        ),
        match reroute_to(pending@.alias, refresh::alias_view(active)) {
            Some(alias) => wire::reads_back(
                wire::parsed_json(r.body_bytes@),
                JsonView::Object(
                    forwarded_fields(pending@, preset::preset_views(*presets), alias),
                ),
            ),
            None => true,
        },
{
    let Pending { body_bytes, fields, requested_alias, preset } = pending;
    match active {
        Some(alias) => {
            if !same_text(alias.as_str(), requested_alias.as_str()) {
                let out = match presets.get(requested_alias.as_str()) {
                    Some(current) => reroute(current, fields, alias.as_str()),
                    None => reroute(&preset, fields, alias.as_str()),
                };
                proof {
                    json::lemma_object_tree(out);
                }
                return PostIntercept {
                    body_bytes: print_json(Json::Object(out)),
                    record_active: None,
                };
            }
        },
        None => {},
    }
    PostIntercept { body_bytes, record_active: Some((preset.model_id, requested_alias)) }
}

// ---------------------------------------------------------------------------
// When the backend has answered
// ---------------------------------------------------------------------------

/// The status of an answer says that the request succeeded.
pub open spec fn is_success(status: u16) -> bool {
    200 <= status < 300
}

/// The notes after the backend answered a request with `status`.
pub open spec fn notes_after_answer(
    notes: Map<Seq<char>, NotedView>,
    record: Option<(Seq<char>, Seq<char>)>,
    status: u16,
    now: int,
) -> Map<Seq<char>, NotedView> {
    match record {
        Some((model_id, alias)) => if is_success(status) {
            notes.insert(model_id, NotedView { alias, at: now })
        } else {
            notes
        },
        None => notes,
    }
}

/// Notes an alias as active, where the backend has taken a request for it.
pub fn note_answer(
    tracker: &mut Tracker,
    record: &Option<(String, String)>,
    status: u16,
    now: u128,
)
    ensures
        final(tracker)@ == notes_after_answer(
            old(tracker)@,
            record_view(*record),
            status,
            now as int,
        ),
{
    if let Some((model_id, alias)) = record {
        if 200 <= status && status < 300 {
            tracker.record_active_alias(model_id.as_str(), alias.as_str(), now);
        }
    }
}

} // verus!
