//! What the mathematical views of values show: all that the values hold, as it
//! is.

use crate::headers;
use crate::ini;
use crate::intercept;
use crate::intercept::{Pending, PostIntercept};
use crate::json;
use crate::json::{Json, JsonView};
use crate::models;
use crate::models::{BadPreset, ModelsError};
use crate::preset;
use crate::preset::Preset;
use crate::refresh;
use crate::refresh::{ProbeResult, ProbeView, RefreshStep, RefreshStepView};
use crate::reply;
use crate::reply::{ContentType, Reply};
use crate::table::Table;
use crate::tracker::{Noted, Tracker};
use crate::wire;
use vstd::prelude::*;

verus! {

/// The texts of a section are its keys and values, character by character.
pub proof fn law_texts_show_all(
    kv: Table<String>,
    sections: Table<Table<String>>,
    name: Seq<char>,
    k: Seq<char>,
)
    ensures
        ini::texts(kv).contains_key(k) == kv@.contains_key(k),
        kv@.contains_key(k) ==> ini::texts(kv)[k] == kv@[k]@,
        ini::section_texts(sections).contains_key(name) == sections@.contains_key(name),
        sections@.contains_key(name) ==> ini::section_texts(sections)[name].contains_key(k)
            == sections@[name]@.contains_key(k),
        sections@.contains_key(name) && sections@[name]@.contains_key(k) ==> ini::section_texts(
            sections,
        )[name][k] == sections@[name]@[k]@,
{
}

/// The tree of a JSON value has its kind and all that it holds.
pub proof fn law_trees_show_all(
    b: bool,
    n: serde_json::Number,
    s: String,
    items: Vec<Json>,
    t: Table<Json>,
    k: Seq<char>,
)
    ensures
        Json::Null.tree() == JsonView::Null,
        Json::Bool(b).tree() == JsonView::Bool(b),
        Json::Number(n).tree() == JsonView::Number(json::number_value(n)),
        Json::Text(s).tree() == JsonView::Text(s@),
        Json::Array(items).tree() == JsonView::Array(json::items(items@)),
        json::items(items@).len() == items@.len(),
        forall|i: int| 0 <= i < items@.len() ==> #[trigger] json::items(items@)[i] == items@[i].tree(),
        Json::Object(t).tree() == JsonView::Object(json::fields(t)),
        json::fields(t).contains_key(k) == t@.contains_key(k),
        t@.contains_key(k) ==> json::fields(t)[k] == t@[k].tree(),
{
    json::lemma_array_tree(items);
    json::lemma_object_tree(t);
}

/// A field of a JSON value is there just where the value is an object that has
/// it, and is what that holds; a text in a field is the text there.
pub proof fn law_members_are_fields(v: JsonView, k: Seq<char>, j: Seq<char>)
    ensures
        json::member_of(v, k) == if v is Object && v->Object_0.contains_key(k) {
            Some(v->Object_0[k])
        } else {
            None
        },
        json::text_of(v, k) == if v is Object && v->Object_0.contains_key(k)
            && v->Object_0[k] is Text {
            Some(v->Object_0[k]->Text_0)
        } else {
            None
        },
        json::inner_text_of(v, k, j) == if v is Object && v->Object_0.contains_key(k)
            && v->Object_0[k] is Object && v->Object_0[k]->Object_0.contains_key(j)
            && v->Object_0[k]->Object_0[j] is Text {
            Some(v->Object_0[k]->Object_0[j]->Text_0)
        } else {
            None
        },
{
}

/// The view of a preset has its name, its identity, and all of its fields; that
/// of a table of presets has each under its name.
pub proof fn law_presets_show_all(p: Preset, presets: Table<Preset>, name: Seq<char>)
    ensures
        p@.name == p.name@,
        p@.model_id == p.model_id@,
        p@.params == json::fields(p.params),
        p@.chat_template_kwargs == json::fields(p.chat_template_kwargs),
        preset::preset_views(presets).contains_key(name) == presets@.contains_key(name),
        presets@.contains_key(name) ==> preset::preset_views(presets)[name] == presets@[name]@,
{
}

/// The view of a tracker has each note under its model, with its alias and its
/// time.
pub proof fn law_notes_show_all(t: Tracker, note: Noted, model_id: Seq<char>)
    ensures
        note@.alias == note.alias@,
        note@.at == note.at,
        t@.contains_key(model_id) == t.notes@.contains_key(model_id),
        t.notes@.contains_key(model_id) ==> t@[model_id] == t.notes@[model_id]@,
{
}

/// The views of headers, steps, outcomes and requests have all that these
/// hold.
pub proof fn law_steps_show_all(
    headers: Seq<(String, Vec<u8>)>,
    i: int,
    alias: String,
    model_id: String,
    content: PostIntercept,
    pending: Pending,
    bad: BadPreset,
    items: Vec<Json>,
    e: ModelsError,
)
    ensures
        headers::header_views(headers).len() == headers.len(),
        0 <= i < headers.len() ==> headers::header_views(headers)[i] == (
            headers[i].0@,
            headers[i].1@,
        ),
        refresh::alias_view(Some(alias)) == Some(alias@),
        refresh::alias_view(None) == None::<Seq<char>>,
        RefreshStep::Use(alias)@ == RefreshStepView::Use(alias@),
        RefreshStep::TakeLock@ == RefreshStepView::TakeLock,
        RefreshStep::Query@ == RefreshStepView::Query,
        ProbeResult::Refreshed(Some(alias))@ == ProbeView::Refreshed(Some(alias@)),
        ProbeResult::Refreshed(None)@ == ProbeView::Refreshed(None),
        ProbeResult::Failed@ == ProbeView::Failed,
        intercept::record_view(Some((model_id, alias))) == Some((model_id@, alias@)),
        intercept::record_view(None) == None::<(Seq<char>, Seq<char>)>,
        content@.body_bytes == content.body_bytes@,
        content@.record_active == intercept::record_view(content.record_active),
        pending@.fields == json::fields(pending.fields),
        pending@.alias == pending.requested_alias@,
        pending@.preset == pending.preset@,
        bad@.id == bad.id@,
        bad@.at == bad.error.at,
        models::entries_view(Ok(items)) == Ok::<Seq<JsonView>, ModelsError>(
            json::items(items@),
        ),
        models::entries_view(Err(e)) == Err::<Seq<JsonView>, ModelsError>(e),
{
}

/// A reply that holds a JSON value has its status, says that it is JSON, and
/// reads as the value; one that holds a text has its status, says that it is
/// text, and has the bytes of the text. An object with one text has that field
/// and no other.
pub proof fn law_replies_show_all(
    r: Reply,
    status: u16,
    body: JsonView,
    t: Seq<char>,
    name: Seq<char>,
    k: Seq<char>,
)
    ensures
        r.holds_json(status, body) ==> r.status == status && r.content_type == ContentType::Json
            && r.body@ == wire::json_bytes(body) && wire::parsed_json(r.body@) == Some(body),
        r.holds_text(status, t) ==> r.status == status && r.content_type == ContentType::Text
            && r.body@ == vstd::utf8::encode_utf8(t),
        reply::one_text(name, t) is Object,
        reply::one_text(name, t)->Object_0.contains_key(k) == (k == name),
        reply::one_text(name, t)->Object_0[name] == JsonView::Text(t),
{
}

} // verus!
