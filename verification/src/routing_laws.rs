//! What is promised of requests: which are rerouted, with what body, and what
//! the proxy remembers of them.

use crate::intercept;
use crate::intercept::AskedView;
use crate::json;
use crate::json::JsonView;
use crate::keys;
use crate::models;
use crate::preset;
use crate::preset::PresetView;
use crate::preset_laws;
use crate::refresh;
use crate::refresh::{ProbeView, RefreshStepView};
use crate::tracker;
use crate::tracker::NotedView;
use crate::wire;
use vstd::prelude::*;

verus! {

broadcast use vstd::string::group_string_axioms;

// ---------------------------------------------------------------------------
// The active alias
// ---------------------------------------------------------------------------

/// The first serving alias is one that serves, and is there where any is.
proof fn lemma_first_serving(
    data: Seq<JsonView>,
    presets: Map<Seq<char>, PresetView>,
    model_id: Seq<char>,
)
    ensures
        match models::first_serving(data, presets, model_id) {
            Some(alias) => models::is_serving(data, presets, model_id, alias),
            None => forall|alias: Seq<char>| !models::is_serving(data, presets, model_id, alias),
        },
    decreases data.len(),
{
    if data.len() > 0 {
        let shorter = data.drop_last();
        lemma_first_serving(shorter, presets, model_id);
        match models::first_serving(shorter, presets, model_id) {
            Some(alias) => {
                let i = choose|i: int|
                    0 <= i < shorter.len() && #[trigger] models::serving(
                        shorter[i],
                        presets,
                        model_id,
                    ) == Some(alias);
                assert(models::serving(data[i], presets, model_id) == Some(alias));
            },
            None => {
                match models::serving(data.last(), presets, model_id) {
                    Some(alias) => {
                        assert(models::serving(data[data.len() - 1], presets, model_id) == Some(
                            alias,
                        ));
                    },
                    None => {
                        assert forall|alias: Seq<char>| !models::is_serving(
                            data,
                            presets,
                            model_id,
                            alias,
                        ) by {
                            if models::is_serving(data, presets, model_id, alias) {
                                let i = choose|i: int|
                                    0 <= i < data.len() && #[trigger] models::serving(
                                        data[i],
                                        presets,
                                        model_id,
                                    ) == Some(alias);
                                assert(i < shorter.len());
                                assert(models::serving(shorter[i], presets, model_id) == Some(
                                    alias,
                                ));
                                assert(models::is_serving(shorter, presets, model_id, alias));
                            }
                        }
                    },
                }
            },
        }
    }
}

/// The active alias is one that is loaded and serves the model, there is one
/// just where any is, and it is the preferred one just where that is.
pub proof fn law_active_alias_serves(
    data: Seq<JsonView>,
    presets: Map<Seq<char>, PresetView>,
    model_id: Seq<char>,
    preferred: Seq<char>,
)
    ensures
        match models::active_alias(data, presets, model_id, preferred) {
            Some(alias) => models::is_serving(data, presets, model_id, alias) && presets.contains_key(
                alias,
            ) && presets[alias].model_id == model_id && ((alias == preferred)
                == models::is_serving(data, presets, model_id, preferred)),
            None => forall|alias: Seq<char>| !models::is_serving(data, presets, model_id, alias),
        },
{
    lemma_first_serving(data, presets, model_id);
    if let Some(alias) = models::active_alias(data, presets, model_id, preferred) {
        let i = choose|i: int|
            0 <= i < data.len() && #[trigger] models::serving(data[i], presets, model_id) == Some(
                alias,
            );
        assert(models::serving(data[i], presets, model_id) == Some(alias));
    }
}

/// No entry before the one of the active alias is loaded for the model, unless
/// the active alias is the preferred one.
pub proof fn law_active_alias_is_first(
    data: Seq<JsonView>,
    presets: Map<Seq<char>, PresetView>,
    model_id: Seq<char>,
    preferred: Seq<char>,
    i: int,
)
    requires
        !models::is_serving(data, presets, model_id, preferred),
        0 <= i < data.len(),
        models::serving(data[i], presets, model_id) is Some,
        forall|j: int|
            0 <= j < i ==> #[trigger] models::serving(data[j], presets, model_id) is None,
    ensures
        models::active_alias(data, presets, model_id, preferred) == models::serving(
            data[i],
            presets,
            model_id,
        ),
    decreases data.len(),
{
    let shorter = data.drop_last();
    lemma_first_serving(shorter, presets, model_id);
    if i == data.len() - 1 {
        if let Some(alias) = models::first_serving(shorter, presets, model_id) {
            let j = choose|j: int|
                0 <= j < shorter.len() && #[trigger] models::serving(shorter[j], presets, model_id)
                    == Some(alias);
            assert(models::serving(data[j], presets, model_id) == Some(alias));
        }
    } else {
        assert(!models::is_serving(shorter, presets, model_id, preferred)) by {
            if models::is_serving(shorter, presets, model_id, preferred) {
                let j = choose|j: int|
                    0 <= j < shorter.len() && #[trigger] models::serving(
                        shorter[j],
                        presets,
                        model_id,
                    ) == Some(preferred);
                assert(models::serving(data[j], presets, model_id) == Some(preferred));
            }
        }
        assert(shorter[i] == data[i]);
        assert forall|j: int| 0 <= j < i implies #[trigger] models::serving(
            shorter[j],
            presets,
            model_id,
        ) is None by {
            assert(models::serving(data[j], presets, model_id) is None);
        }
        law_active_alias_is_first(shorter, presets, model_id, preferred, i);
    }
}

// ---------------------------------------------------------------------------
// Queries
// ---------------------------------------------------------------------------

/// A query never leaves the proxy without presets where it had some.
pub proof fn law_presets_never_lost(
    known: Map<Seq<char>, PresetView>,
    new: Map<Seq<char>, PresetView>,
)
    ensures
        known != Map::<Seq<char>, PresetView>::empty() ==> refresh::kept_presets(known, new)
            != Map::<Seq<char>, PresetView>::empty(),
        new != Map::<Seq<char>, PresetView>::empty() ==> refresh::kept_presets(known, new) == new,
{
}

/// The backend is queried only under the lock, and not where a note is fresh.
pub proof fn law_query_only_when_needed(
    notes: Map<Seq<char>, NotedView>,
    model_id: Seq<char>,
    now: int,
    ttl: int,
    locked: bool,
)
    ensures
        refresh::next_step(notes, model_id, now, ttl, locked) is Query == (locked
            && tracker::fresh_alias(notes, model_id, now, ttl) is None),
        refresh::next_step(notes, model_id, now, ttl, locked) is TakeLock == (!locked
            && tracker::fresh_alias(notes, model_id, now, ttl) is None),
{
}

/// After a query that found an alias, those who waited for it use its answer
/// for as long as it is fresh, without a query of their own.
pub proof fn law_waiters_share_a_query(
    notes: Map<Seq<char>, NotedView>,
    model_id: Seq<char>,
    alias: Seq<char>,
    at: int,
    now: int,
    ttl: int,
    locked: bool,
)
    requires
        at <= now < at + ttl,
    ensures
        refresh::next_step(
            refresh::notes_after(
                notes,
                model_id,
                ProbeView::Refreshed(Some(alias)),
                at,
            ),
            model_id,
            now,
            ttl,
            locked,
        ) == RefreshStepView::Use(alias),
{
}

/// A query that fails changes no note: what was known of the model is still
/// used, and the next request asks again where this one had to.
pub proof fn law_failed_query_serves_stale(
    notes: Map<Seq<char>, NotedView>,
    model_id: Seq<char>,
    now: int,
    later: int,
    ttl: int,
    locked: bool,
)
    requires
        tracker::fresh_alias(notes, model_id, now, ttl) is None,
        now <= later,
    ensures
        refresh::notes_after(notes, model_id, ProbeView::Failed, now) == notes,
        refresh::alias_after(notes, model_id, ProbeView::Failed) == tracker::known_alias(
            notes,
            model_id,
        ),
        !(refresh::next_step(
            refresh::notes_after(notes, model_id, ProbeView::Failed, now),
            model_id,
            later,
            ttl,
            locked,
        ) is Use),
{
}

/// A query that finds the model not loaded drops what was known of it.
pub proof fn law_unloaded_model_forgotten(
    notes: Map<Seq<char>, NotedView>,
    model_id: Seq<char>,
    at: int,
)
    ensures
        refresh::alias_after(notes, model_id, ProbeView::Refreshed(None)) is None,
        tracker::known_alias(
            refresh::notes_after(notes, model_id, ProbeView::Refreshed(None), at),
            model_id,
        ) is None,
{
}

/// A query for one model leaves the notes for the others as they are.
pub proof fn law_queries_are_independent(
    notes: Map<Seq<char>, NotedView>,
    model_id: Seq<char>,
    probe: ProbeView,
    at: int,
    other: Seq<char>,
)
    requires
        model_id != other,
    ensures
        ({
            let after = refresh::notes_after(notes, model_id, probe, at);
            after.contains_key(other) == notes.contains_key(other) && (notes.contains_key(other)
                ==> after[other] == notes[other])
        }),
{
}

// ---------------------------------------------------------------------------
// Requests
// ---------------------------------------------------------------------------

/// A body is forwarded as it came, unless another alias is active for the
/// model that it asks for.
pub proof fn law_unchanged_unless_rerouted(
    request: AskedView,
    bytes: Seq<u8>,
    active: Option<Seq<char>>,
    presets: Map<Seq<char>, PresetView>,
)
    requires
        active is None || active == Some(request.alias),
    ensures
        intercept::intercepted(request, bytes, active, presets).body_bytes == bytes,
        intercept::intercepted(request, bytes, active, presets).record_active == Some(
            (request.preset.model_id, request.alias),
        ),
{
}

/// A rerouted request notes nothing.
pub proof fn law_rerouted_notes_nothing(
    request: AskedView,
    bytes: Seq<u8>,
    active: Seq<char>,
    presets: Map<Seq<char>, PresetView>,
)
    requires
        active != request.alias,
    ensures
        intercept::intercepted(request, bytes, Some(active), presets).record_active is None,
{
}

/// A request for an alias without a preset, or whose preset names no source,
/// is forwarded without a look at what is loaded; so is one without a model,
/// and one that is not a JSON object.
pub proof fn law_who_is_asked_about(
    presets: Map<Seq<char>, PresetView>,
    body: Option<JsonView>,
)
    ensures
        match intercept::asked(presets, body) {
            Some(request) => body == Some(JsonView::Object(request.fields)) && json::text_of(
                body->Some_0,
                "model"@,
            ) == Some(request.alias) && presets.contains_key(request.alias) && request.preset
                == presets[request.alias] && request.preset.model_id.len() > 0,
            None => body is None || !(body->Some_0 is Object) || json::text_of(
                body->Some_0,
                "model"@,
            ) is None || !presets.contains_key(json::text_of(body->Some_0, "model"@)->Some_0)
                || presets[json::text_of(body->Some_0, "model"@)->Some_0].model_id.len() == 0,
        },
{
}

/// The body of a rerouted request names the active alias, holds what the
/// client has set, and has the parameters of the alias asked for where the
/// client has not set them.
pub proof fn law_rerouted_body(
    request: AskedView,
    presets: Map<Seq<char>, PresetView>,
    active: Seq<char>,
    k: Seq<char>,
)
    ensures
        ({
            let p = intercept::current_preset(presets, request.alias, request.preset);
            let out = intercept::forwarded_fields(request, presets, active);
            &&& out.contains_key("model"@)
            &&& out["model"@] == JsonView::Text(active)
            &&& request.fields.contains_key(k) ==> out.contains_key(k)
            &&& request.fields.contains_key(k) && k != "model"@ && k
                != preset_laws::kwargs_name() ==> out[k] == request.fields[k]
            &&& !request.fields.contains_key(k) && k != "model"@ && k
                != preset_laws::kwargs_name() ==> out.contains_key(k) == p.params.contains_key(k)
                && (p.params.contains_key(k) ==> out[k] == p.params[k])
            &&& k != "model"@ ==> out.contains_key(k) == preset::injected(
                p,
                request.fields,
            ).contains_key(k) && (out.contains_key(k) ==> out[k] == preset::injected(
                p,
                request.fields,
            )[k])
        }),
{
    let p = intercept::current_preset(presets, request.alias, request.preset);
    if request.fields.contains_key(k) && k != preset_laws::kwargs_name() {
        preset_laws::law_client_values_win(p, request.fields, k);
    }
    if !request.fields.contains_key(k) {
        preset_laws::law_only_missing_added(p, request.fields, k);
    }
}

/// With a model list at hand, a request is rerouted only to an alias that the
/// list has loaded and that has the identity of the model asked for, and not
/// at all where the alias asked for is loaded itself.
pub proof fn law_reroute_keeps_the_model(data: Seq<JsonView>, request: AskedView)
    ensures
        ({
            let presets = refresh::listed_presets(data);
            let model_id = request.preset.model_id;
            let active = refresh::listed_alias(data, model_id, request.alias);
            match intercept::reroute_to(request.alias, active) {
                Some(alias) => models::is_serving(data, presets, model_id, alias)
                    && presets.contains_key(alias) && presets[alias].model_id == model_id
                    && !models::is_serving(data, presets, model_id, request.alias),
                None => models::is_serving(data, presets, model_id, request.alias) || forall|
                    alias: Seq<char>,
                | !models::is_serving(data, presets, model_id, alias),
            }
        }),
{
    law_active_alias_serves(
        data,
        refresh::listed_presets(data),
        request.preset.model_id,
        request.alias,
    );
}

/// An alias is noted only after the backend has taken a request for it, and
/// then its notes for other models stay.
pub proof fn law_noted_only_on_success(
    notes: Map<Seq<char>, NotedView>,
    record: Option<(Seq<char>, Seq<char>)>,
    status: u16,
    now: int,
)
    ensures
        ({
            let after = intercept::notes_after_answer(notes, record, status, now);
            &&& !(200 <= status < 300) || record is None ==> after == notes
            &&& 200 <= status < 300 && record is Some ==> after == notes.insert(
                record->Some_0.0,
                NotedView { alias: record->Some_0.1, at: now },
            )
        }),
{
}

/// Once the backend has taken a request for an alias, further requests for it
/// are forwarded as they are, and requests for other aliases of the model are
/// rerouted to it, for as long as the note is fresh.
pub proof fn law_accepted_alias_is_active(
    notes: Map<Seq<char>, NotedView>,
    request: AskedView,
    bytes: Seq<u8>,
    presets: Map<Seq<char>, PresetView>,
    status: u16,
    at: int,
    now: int,
    ttl: int,
    next: AskedView,
)
    requires
        200 <= status < 300,
        at <= now < at + ttl,
        next.preset.model_id == request.preset.model_id,
    ensures
        ({
            let sent = intercept::intercepted(request, bytes, None, presets);
            let after = intercept::notes_after_answer(notes, sent.record_active, status, at);
            let active = tracker::fresh_alias(after, next.preset.model_id, now, ttl);
            &&& active == Some(request.alias)
            &&& intercept::reroute_to(next.alias, active) == (if next.alias == request.alias {
                None
            } else {
                Some(request.alias)
            })
        }),
{
}

/// The fields that the backend gets for a request.
pub open spec fn sent_fields(
    request: AskedView,
    active: Option<Seq<char>>,
    presets: Map<Seq<char>, PresetView>,
) -> Map<Seq<char>, JsonView> {
    match intercept::reroute_to(request.alias, active) {
        Some(alias) => intercept::forwarded_fields(request, presets, alias),
        None => request.fields,
    }
}

/// Where an alias is active for the model that a request asks for, that alias
/// is the one that the backend gets named, whichever was asked for; else it is
/// the one asked for.
pub proof fn law_backend_gets_active_alias(
    known: Map<Seq<char>, PresetView>,
    body: Option<JsonView>,
    active: Option<Seq<char>>,
    presets: Map<Seq<char>, PresetView>,
)
    requires
        intercept::asked(known, body) is Some,
    ensures
        ({
            let request = intercept::asked(known, body)->Some_0;
            json::text_of(JsonView::Object(sent_fields(request, active, presets)), "model"@)
                == match active {
                Some(alias) => Some(alias),
                None => Some(request.alias),
            }
        }),
{
}

/// All notes are of models with an identity.
pub open spec fn notes_have_identity(notes: Map<Seq<char>, NotedView>) -> bool {
    forall|model_id: Seq<char>| #[trigger] notes.contains_key(model_id) ==> model_id.len() > 0
}

/// Neither a query for the model of a request nor the answer to the request
/// ever leaves a note for a model without an identity.
pub proof fn law_notes_have_identity(
    notes: Map<Seq<char>, NotedView>,
    known: Map<Seq<char>, PresetView>,
    body: Option<JsonView>,
    bytes: Seq<u8>,
    active: Option<Seq<char>>,
    presets: Map<Seq<char>, PresetView>,
    probe: ProbeView,
    status: u16,
    now: int,
)
    requires
        notes_have_identity(notes),
        intercept::asked(known, body) is Some,
    ensures
        ({
            let request = intercept::asked(known, body)->Some_0;
            let sent = intercept::intercepted(request, bytes, active, presets);
            &&& notes_have_identity(
                refresh::notes_after(notes, request.preset.model_id, probe, now),
            )
            &&& notes_have_identity(
                intercept::notes_after_answer(notes, sent.record_active, status, now),
            )
        }),
{
}

/// Names that are not that of raw JSON text.
proof fn lemma_plain_names()
    ensures
        "model"@ != json::raw_name(),
        "enable_thinking"@ != json::raw_name(),
        preset_laws::kwargs_name() != json::raw_name(),
        forall|k: Seq<char>|
            (#[trigger] keys::sampling_key(k)) is Some ==> keys::sampling_key(k)->Some_0
                != json::raw_name(),
{
    reveal_strlit("model");
    reveal_strlit("enable_thinking");
    reveal_strlit("chat_template_kwargs");
    reveal_strlit("$serde_json::private::RawValue");
    assert("model"@.len() == 5);
    assert("enable_thinking"@.len() == 15);
    assert("chat_template_kwargs"@.len() == 20);
    assert("$serde_json::private::RawValue"@.len() == 30);
    keys::lemma_sampling_names();
}

/// What a preset that was built from keys adds to a plain body leaves it plain,
/// and so does the new model: nothing in a rerouted body keeps it from reading
/// back that was not in the body of the client.
pub proof fn law_rerouted_body_is_plain(
    request: AskedView,
    presets: Map<Seq<char>, PresetView>,
    active: Seq<char>,
    name: Seq<char>,
    kv: Map<Seq<char>, Seq<char>>,
    levels: nat,
)
    requires
        levels >= 2,
        json::is_plain(JsonView::Object(request.fields), levels),
        intercept::current_preset(presets, request.alias, request.preset) == preset::preset_of(
            name,
            kv,
        ),
    ensures
        json::is_plain(
            JsonView::Object(intercept::forwarded_fields(request, presets, active)),
            levels,
        ),
{
    let p = preset::preset_of(name, kv);
    let out = intercept::forwarded_fields(request, presets, active);
    let less = (levels - 1) as nat;
    let kwargs = preset_laws::kwargs_name();
    lemma_plain_names();
    assert forall|k: Seq<char>| #[trigger] p.params.contains_key(k) implies k != json::raw_name()
        && json::is_plain(p.params[k], less) by {
        preset_laws::law_no_other_params(kv, k);
    }
    assert forall|k: Seq<char>| #[trigger] p.chat_template_kwargs.contains_key(k) implies k
        != json::raw_name() && json::is_plain(p.chat_template_kwargs[k], (less - 1) as nat) by {}
    assert forall|k: Seq<char>| #[trigger] out.contains_key(k) implies k != json::raw_name()
        && json::is_plain(out[k], less) by {
        let with_params = preset::filled(request.fields, p.params);
        if k != "model"@ && with_params.contains_key(k) {
            if request.fields.contains_key(k) {
                assert(with_params[k] == request.fields[k]);
            }
            assert(k != json::raw_name() && json::is_plain(with_params[k], less));
            if k == kwargs {
                if let JsonView::Object(given) = with_params[k] {
                    let merged = preset::filled(given, p.chat_template_kwargs);
                    assert forall|j: Seq<char>| #[trigger] merged.contains_key(j) implies j
                        != json::raw_name() && json::is_plain(merged[j], (less - 1) as nat) by {
                        if given.contains_key(j) {
                            assert(merged[j] == given[j]);
                        }
                    }
                    assert(json::is_plain(JsonView::Object(merged), less));
                }
            }
        } else if k == kwargs {
            assert(json::is_plain(JsonView::Object(p.chat_template_kwargs), less));
        }
    }
    assert(!out.contains_key(json::raw_name()));
}

/// Where what was written for a rerouted request is read, the reader sees the
/// active alias as the model, the same names, and the same values in every
/// field without floating-point numbers.
pub proof fn law_reader_sees_rerouted_body(
    request: AskedView,
    presets: Map<Seq<char>, PresetView>,
    active: Seq<char>,
    read: JsonView,
    k: Seq<char>,
)
    requires
        json::is_plain(
            JsonView::Object(intercept::forwarded_fields(request, presets, active)),
            wire::MAX_LEVELS as nat,
        ),
        wire::reads_back(
            Some(read),
            JsonView::Object(intercept::forwarded_fields(request, presets, active)),
        ),
    ensures
        json::text_of(read, "model"@) == Some(active),
        ({
            let out = intercept::forwarded_fields(request, presets, active);
            &&& json::member_of(read, k) is Some == out.contains_key(k)
            &&& out.contains_key(k) && json::is_exact(out[k], (wire::MAX_LEVELS - 1) as nat)
                ==> json::member_of(read, k) == Some(out[k])
        }),
{
    let out = intercept::forwarded_fields(request, presets, active);
    assert(read is Object);
    let got = read->Object_0;
    assert(got.dom() == out.dom());
    assert(out.contains_key("model"@));
    assert(got.dom().contains("model"@));
    assert(got.contains_key("model"@));
    json::law_exact_values(got["model"@], out["model"@], (wire::MAX_LEVELS - 1) as nat);
    assert(out.dom().contains(k) == out.contains_key(k));
    assert(got.dom().contains(k) == got.contains_key(k));
    if out.contains_key(k) && json::is_exact(out[k], (wire::MAX_LEVELS - 1) as nat) {
        json::law_exact_values(got[k], out[k], (wire::MAX_LEVELS - 1) as nat);
    }
}

// ---------------------------------------------------------------------------
// Requests, case by case
// ---------------------------------------------------------------------------

/// A body asks for an alias just where it is an object whose field `model` is
/// a text, and that text has a preset with an identity. What is kept of it are
/// all of its fields, that text, and that preset.
pub proof fn law_body_asks_for_its_model(
    presets: Map<Seq<char>, PresetView>,
    body: Option<JsonView>,
)
    ensures
        intercept::asked(presets, body) == if body is Some && body->Some_0 is Object
            && body->Some_0->Object_0.contains_key("model"@)
            && body->Some_0->Object_0["model"@] is Text && presets.contains_key(
            body->Some_0->Object_0["model"@]->Text_0,
        ) && presets[body->Some_0->Object_0["model"@]->Text_0].model_id != Seq::<char>::empty() {
            Some(
                AskedView {
                    fields: body->Some_0->Object_0,
                    alias: body->Some_0->Object_0["model"@]->Text_0,
                    preset: presets[body->Some_0->Object_0["model"@]->Text_0],
                },
            )
        } else {
            None
        },
{
    if body is Some && body->Some_0 is Object && body->Some_0->Object_0.contains_key("model"@)
        && body->Some_0->Object_0["model"@] is Text {
        let id = presets[body->Some_0->Object_0["model"@]->Text_0].model_id;
        assert((id.len() == 0) == (id =~= Seq::<char>::empty()));
    }
}

/// What is sent and noted for a request. Where another alias is active, the
/// body is the JSON text of the client's fields, with the parameters of the
/// preset that the alias asked for has now, or had where it has none now, and
/// with the active alias as the model; nothing is noted. Else the bytes are
/// those of the client, and the alias asked for is noted for its model.
pub proof fn law_sent_and_noted(
    request: AskedView,
    bytes: Seq<u8>,
    active: Option<Seq<char>>,
    presets: Map<Seq<char>, PresetView>,
)
    ensures
        ({
            let r = intercept::intercepted(request, bytes, active, presets);
            if active is Some && active->Some_0 != request.alias {
                let p = if presets.contains_key(request.alias) {
                    presets[request.alias]
                } else {
                    request.preset
                };
                &&& r.body_bytes == wire::json_bytes(
                    JsonView::Object(
                        preset::injected(p, request.fields).insert(
                            "model"@,
                            JsonView::Text(active->Some_0),
                        ),
                    ),
                )
                &&& r.record_active is None
            } else {
                &&& r.body_bytes == bytes
                &&& r.record_active == Some((request.preset.model_id, request.alias))
            }
        }),
        intercept::unchanged(bytes).body_bytes == bytes,
        intercept::unchanged(bytes).record_active is None,
{
}

/// The backend has taken a request just where it answers with a status from 200
/// to 299. Only then is the alias of the request noted, for its model, at that
/// time.
pub proof fn law_noted_from_200_to_299(
    notes: Map<Seq<char>, NotedView>,
    model_id: Seq<char>,
    alias: Seq<char>,
    status: u16,
    now: int,
)
    ensures
        intercept::notes_after_answer(notes, Some((model_id, alias)), status, now) == if status
            >= 200 && status <= 299 {
            notes.insert(model_id, NotedView { alias, at: now })
        } else {
            notes
        },
        intercept::notes_after_answer(notes, None, status, now) == notes,
{
}

/// A fresh alias is used, with the lock or without. Without one the lock is
/// taken, and with the lock the backend is queried.
pub proof fn law_steps_of_a_refresh(
    notes: Map<Seq<char>, NotedView>,
    model_id: Seq<char>,
    note: NotedView,
    now: int,
    ttl: int,
)
    requires
        note.at <= now,
        ttl >= 0,
    ensures
        ({
            let known = notes.insert(model_id, note);
            let fresh = now - note.at < ttl;
            &&& refresh::next_step(known, model_id, now, ttl, false) == (if fresh {
                RefreshStepView::Use(note.alias)
            } else {
                RefreshStepView::TakeLock
            })
            &&& refresh::next_step(known, model_id, now, ttl, true) == (if fresh {
                RefreshStepView::Use(note.alias)
            } else {
                RefreshStepView::Query
            })
        }),
        refresh::next_step(notes.remove(model_id), model_id, now, ttl, false)
            == RefreshStepView::TakeLock,
        refresh::next_step(notes.remove(model_id), model_id, now, ttl, true)
            == RefreshStepView::Query,
{
}

/// What a query leaves behind: the alias that it found, noted at its time; no
/// note, where it found none; and everything as it was, where it failed. The
/// alias to use is the one found, or the one noted before where it failed.
pub proof fn law_outcomes_of_a_query(
    notes: Map<Seq<char>, NotedView>,
    model_id: Seq<char>,
    alias: Seq<char>,
    now: int,
)
    ensures
        refresh::notes_after(notes, model_id, ProbeView::Refreshed(Some(alias)), now)
            == notes.insert(model_id, NotedView { alias, at: now }),
        refresh::alias_after(notes, model_id, ProbeView::Refreshed(Some(alias))) == Some(alias),
        refresh::notes_after(notes, model_id, ProbeView::Refreshed(None), now) == notes.remove(
            model_id,
        ),
        refresh::alias_after(notes, model_id, ProbeView::Refreshed(None)) is None,
        refresh::notes_after(notes, model_id, ProbeView::Failed, now) == notes,
        refresh::alias_after(notes, model_id, ProbeView::Failed) == if notes.contains_key(
            model_id,
        ) {
            Some(notes[model_id].alias)
        } else {
            None
        },
{
}

/// Presets that are listed take the place of those that are known; where none
/// are listed, those that are known stay.
pub proof fn law_listed_presets_replace(
    known: Map<Seq<char>, PresetView>,
    new: Map<Seq<char>, PresetView>,
    name: Seq<char>,
)
    ensures
        new.contains_key(name) ==> refresh::kept_presets(known, new) == new,
        (forall|n: Seq<char>| !new.contains_key(n)) ==> refresh::kept_presets(known, new)
            == known,
{
    if forall|n: Seq<char>| !new.contains_key(n) {
        assert(new =~= Map::<Seq<char>, PresetView>::empty());
    }
}

} // verus!
