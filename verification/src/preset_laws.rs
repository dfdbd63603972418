//! What is promised of presets: how they are built, and what they add to a
//! request.

use crate::identity;
use crate::identity_laws;
use crate::ini;
use crate::ini_laws;
use crate::json;
use crate::json::{JsonView, NumberView};
use crate::keys;
use crate::models;
use crate::preset;
use crate::preset::PresetView;
use crate::refresh;
use crate::settings;
use crate::text;
use vstd::prelude::*;

verus! {

broadcast use vstd::string::group_string_axioms;

// ---------------------------------------------------------------------------
// Injection
// ---------------------------------------------------------------------------

/// The name of the field that template arguments go to.
pub open spec fn kwargs_name() -> Seq<char> {
    "chat_template_kwargs"@
}

/// What the client has set stays as it is, but for an object
/// `chat_template_kwargs`, to which fields may be added.
pub proof fn law_client_values_win(p: PresetView, body: Map<Seq<char>, JsonView>, k: Seq<char>)
    requires
        body.contains_key(k),
        k != kwargs_name() || !(body[k] is Object) || p.chat_template_kwargs == Map::<
            Seq<char>,
            JsonView,
        >::empty(),
    ensures
        preset::injected(p, body).contains_key(k),
        preset::injected(p, body)[k] == body[k],
{
}

/// A parameter that the client has not set comes from the preset; the field
/// `chat_template_kwargs` is there where the preset has any of its own; and no
/// other field is added.
pub proof fn law_only_missing_added(p: PresetView, body: Map<Seq<char>, JsonView>, k: Seq<char>)
    requires
        !body.contains_key(k),
    ensures
        preset::injected(p, body).contains_key(k) == (p.params.contains_key(k) || (k
            == kwargs_name() && p.chat_template_kwargs != Map::<Seq<char>, JsonView>::empty())),
        k != kwargs_name() && p.params.contains_key(k) ==> preset::injected(p, body)[k]
            == p.params[k],
        k == kwargs_name() && !p.params.contains_key(k) && p.chat_template_kwargs != Map::<
            Seq<char>,
            JsonView,
        >::empty() ==> preset::injected(p, body)[k] == JsonView::Object(p.chat_template_kwargs),
{
}

/// The fields of the client's own `chat_template_kwargs` stay as they are, and
/// those of the preset that it lacks are added.
pub proof fn law_kwargs_merged(
    p: PresetView,
    body: Map<Seq<char>, JsonView>,
    given: Map<Seq<char>, JsonView>,
    k: Seq<char>,
)
    requires
        body.contains_key(kwargs_name()),
        body[kwargs_name()] == JsonView::Object(given),
    ensures
        preset::injected(p, body).contains_key(kwargs_name()),
        preset::injected(p, body)[kwargs_name()] matches JsonView::Object(merged) && merged.contains_key(
            k,
        ) == (given.contains_key(k) || p.chat_template_kwargs.contains_key(k)) && (
        given.contains_key(k) ==> merged[k] == given[k]) && (!given.contains_key(k)
            && p.chat_template_kwargs.contains_key(k) ==> merged[k] == p.chat_template_kwargs[k]),
{
    assert(preset::filled(body, p.params).contains_key(kwargs_name()));
    assert(preset::filled(body, p.params)[kwargs_name()] == JsonView::Object(given));
}

/// Injecting a preset a second time changes nothing.
pub proof fn law_injection_is_idempotent(p: PresetView, body: Map<Seq<char>, JsonView>)
    ensures
        preset::injected(p, preset::injected(p, body)) == preset::injected(p, body),
{
    let once = preset::injected(p, body);
    let none = Map::<Seq<char>, JsonView>::empty();
    assert(preset::filled(once, p.params) =~= once);
    if p.chat_template_kwargs != none && once.contains_key(kwargs_name()) {
        if let JsonView::Object(given) = once[kwargs_name()] {
            assert(preset::filled(given, p.chat_template_kwargs) =~= given);
            assert(once.insert(kwargs_name(), JsonView::Object(given)) =~= once);
        }
    }
}

/// A preset without parameters adds nothing.
pub proof fn law_empty_preset_adds_nothing(p: PresetView, body: Map<Seq<char>, JsonView>)
    requires
        p.params == Map::<Seq<char>, JsonView>::empty(),
        p.chat_template_kwargs == Map::<Seq<char>, JsonView>::empty(),
    ensures
        preset::injected(p, body) == body,
{
    assert(preset::injected(p, body) =~= body);
}

// ---------------------------------------------------------------------------
// Building
// ---------------------------------------------------------------------------

/// The keys of a section with those of the section `*` that it lacks.
pub open spec fn merged_keys(
    sections: Map<Seq<char>, Map<Seq<char>, Seq<char>>>,
    name: Seq<char>,
) -> Map<Seq<char>, Seq<char>> {
    ini::section_or_empty(sections, "*"@).union_prefer_right(sections[name])
}

/// A preset bears the name of its section, which is neither empty nor `*` nor
/// `default`, in any case of its letters; every other section gives a preset.
pub proof fn law_presets_are_sections(
    sections: Map<Seq<char>, Map<Seq<char>, Seq<char>>>,
    name: Seq<char>,
)
    ensures
        preset::presets_of(sections).contains_key(name) == (sections.contains_key(name)
            && preset::is_alias(name)),
        preset::presets_of(sections).contains_key(name) ==> preset::presets_of(sections)[name]
            == preset::preset_of(name, merged_keys(sections, name)),
        name.len() == 0 || name == "*"@ || text::ascii_lower(name) == text::ascii_lower(
            "default"@,
        ) ==> !preset::presets_of(sections).contains_key(name),
        preset::presets_of(sections).contains_key(name) ==> preset::presets_of(sections)[name].name
            == name,
{
}

/// A section's own key counts over that of the section `*`, which counts where
/// the section has none.
pub proof fn law_own_keys_count_first(
    sections: Map<Seq<char>, Map<Seq<char>, Seq<char>>>,
    name: Seq<char>,
    k: Seq<char>,
)
    requires
        sections.contains_key(name),
    ensures
        sections[name].contains_key(k) ==> merged_keys(sections, name).contains_key(k)
            && merged_keys(sections, name)[k] == sections[name][k],
        !sections[name].contains_key(k) && sections.contains_key("*"@)
            && sections["*"@].contains_key(k) ==> merged_keys(sections, name).contains_key(k)
            && merged_keys(sections, name)[k] == sections["*"@][k],
        merged_keys(sections, name).contains_key(k) == (sections[name].contains_key(k) || (
        sections.contains_key("*"@) && sections["*"@].contains_key(k))),
{
}

/// Each known key sets its parameter, and nothing else sets one.
pub proof fn law_params_come_from_keys(kv: Map<Seq<char>, Seq<char>>, k: Seq<char>)
    ensures
        keys::sampling_key(k) matches Some(name) ==> preset::params_of(kv).contains_key(name)
            == kv.contains_key(k) && (kv.contains_key(k) ==> preset::params_of(kv)[name]
            == settings::setting_json(kv[k])),
{
    if let Some(name) = keys::sampling_key(k) {
        if exists|j: Seq<char>| preset::sets_param(kv, name, j) {
            let j = choose|j: Seq<char>| preset::sets_param(kv, name, j);
            keys::law_sampling_keys_injective(j, k);
        }
        if kv.contains_key(k) {
            assert(preset::sets_param(kv, name, k));
        }
    }
}

/// Every parameter of a preset is that of some key.
pub proof fn law_no_other_params(kv: Map<Seq<char>, Seq<char>>, name: Seq<char>)
    requires
        preset::params_of(kv).contains_key(name),
    ensures
        exists|k: Seq<char>|
            kv.contains_key(k) && #[trigger] keys::sampling_key(k) == Some(name),
{
    let k = choose|k: Seq<char>| preset::sets_param(kv, name, k);
    assert(preset::sets_param(kv, name, k));
    assert(kv.contains_key(k) && keys::sampling_key(k) == Some(name));
}

/// Without the key `reasoning`, or where it says `auto`, a preset leaves
/// `enable_thinking` open; else it sets it, to true just where the key says
/// yes.
pub proof fn law_reasoning_sets_thinking(kv: Map<Seq<char>, Seq<char>>)
    ensures
        ({
            let thinking = preset::thinking_of(kv);
            let sets = kv.contains_key("reasoning"@) && !keys::says_auto(
                text::lowercase(kv["reasoning"@]),
            );
            &&& !sets ==> thinking == Map::<Seq<char>, JsonView>::empty()
            &&& sets ==> thinking.dom() == Set::empty().insert("enable_thinking"@)
                && thinking["enable_thinking"@] == JsonView::Bool(
                keys::says_yes(text::lowercase(kv["reasoning"@])),
            )
        }),
{
    if kv.contains_key("reasoning"@) && !keys::says_auto(text::lowercase(kv["reasoning"@])) {
        assert(preset::thinking_of(kv).dom() =~= Set::empty().insert("enable_thinking"@));
    }
}

/// An integer of up to 64 bits, with a sign or without, stays that integer.
pub proof fn law_integers_stay_exact(s: Seq<char>, n: int)
    requires
        settings::integer_text(s) == Some(n),
        i64::MIN <= n <= u64::MAX,
    ensures
        settings::setting_json(s) == JsonView::Number(NumberView::Integer(n)),
{
}

// ---------------------------------------------------------------------------
// Identity
// ---------------------------------------------------------------------------

/// Keys and values are those of the grammar.
pub open spec fn tidy_sections(sections: Map<Seq<char>, Map<Seq<char>, Seq<char>>>) -> bool {
    forall|name: Seq<char>, k: Seq<char>|
        sections.contains_key(name) && #[trigger] sections[name].contains_key(k)
            ==> ini_laws::is_key(k) && ini_laws::is_value(sections[name][k])
}

/// The sections of a model list are tidy.
proof fn lemma_listed_sections_tidy(data: Seq<JsonView>)
    ensures
        tidy_sections(models::all_sections(data)),
    decreases data.len(),
{
    if data.len() > 0 {
        let before = models::all_sections(data.drop_last());
        lemma_listed_sections_tidy(data.drop_last());
        match models::entry_sections(data.last()) {
            Some(more) => {
                let t = json::inner_text_of(data.last(), "status"@, "preset"@)->Some_0;
                ini_laws::law_documents_are_tidy(t);
                let after = models::with_sections(before, more);
                assert forall|name: Seq<char>, k: Seq<char>|
                    after.contains_key(name) && #[trigger] after[name].contains_key(
                        k,
                    ) implies ini_laws::is_key(k) && ini_laws::is_value(after[name][k]) by {
                    if more.contains_key(name) && name != "default"@ {
                        if more[name].contains_key(k) {
                            assert(after[name][k] == more[name][k]);
                        } else {
                            assert(before[name].contains_key(k));
                            assert(after[name][k] == before[name][k]);
                        }
                    } else {
                        assert(before[name].contains_key(k));
                    }
                }
            },
            None => {},
        }
    }
}

/// Two aliases of a model list have the same model identity just where they
/// name the same sources.
pub proof fn law_same_model_same_sources(data: Seq<JsonView>, a: Seq<char>, b: Seq<char>)
    requires
        refresh::listed_presets(data).contains_key(a),
        refresh::listed_presets(data).contains_key(b),
    ensures
        (refresh::listed_presets(data)[a].model_id == refresh::listed_presets(data)[b].model_id)
            == identity_laws::same_sources(
            merged_keys(models::all_sections(data), a),
            merged_keys(models::all_sections(data), b),
        ),
{
    let sections = models::all_sections(data);
    lemma_listed_sections_tidy(data);
    lemma_merged_plain(sections, a);
    lemma_merged_plain(sections, b);
    identity_laws::law_same_identity_same_sources(
        merged_keys(sections, a),
        merged_keys(sections, b),
    );
}

/// The values of merged keys hold no `;`.
proof fn lemma_merged_plain(
    sections: Map<Seq<char>, Map<Seq<char>, Seq<char>>>,
    name: Seq<char>,
)
    requires
        tidy_sections(sections),
        sections.contains_key(name),
    ensures
        identity_laws::plain_sources(merged_keys(sections, name)),
{
    let kv = merged_keys(sections, name);
    assert forall|k: Seq<char>| #[trigger] kv.contains_key(k) implies identity_laws::no_semicolon(
        kv[k],
    ) by {
        if sections[name].contains_key(k) {
            assert(ini_laws::is_value(kv[k]));
        } else {
            assert(sections["*"@].contains_key(k));
            assert(ini_laws::is_value(kv[k]));
        }
        assert forall|i: int| 0 <= i < kv[k].len() implies #[trigger] kv[k][i] != ';' by {
            assert(!ini::is_comment_mark(kv[k][i]));
        }
    }
}

/// An alias has no model identity just where it names no source.
pub proof fn law_no_identity_no_source(
    sections: Map<Seq<char>, Map<Seq<char>, Seq<char>>>,
    name: Seq<char>,
)
    requires
        preset::presets_of(sections).contains_key(name),
    ensures
        ({
            let kv = merged_keys(sections, name);
            (preset::presets_of(sections)[name].model_id.len() == 0) == (identity::source_value(
                kv,
                "model"@,
            ) is None && identity::source_value(kv, "model-url"@) is None
                && identity::source_value(kv, "hf-repo"@) is None && identity::source_value(
                kv,
                "hf-file"@,
            ) is None)
        }),
{
    identity_laws::law_empty_identity_no_source(merged_keys(sections, name));
}

// ---------------------------------------------------------------------------
// From keys to requests
// ---------------------------------------------------------------------------

/// A section gives a preset just where its name is not empty, not `*` and not
/// `default` in any case of its letters. The preset has the name of the
/// section, and is made of the keys of the section and of those of the section
/// `*` that the section lacks.
pub proof fn law_every_other_section_is_a_preset(
    sections: Map<Seq<char>, Map<Seq<char>, Seq<char>>>,
    name: Seq<char>,
    kv: Map<Seq<char>, Seq<char>>,
)
    requires
        forall|k: Seq<char>| #[trigger]
            kv.contains_key(k) == (sections[name].contains_key(k) || (sections.contains_key("*"@)
                && sections["*"@].contains_key(k))),
        forall|k: Seq<char>| #[trigger]
            kv.contains_key(k) ==> kv[k] == if sections[name].contains_key(k) {
                sections[name][k]
            } else {
                sections["*"@][k]
            },
    ensures
        preset::presets_of(sections).contains_key(name) == (sections.contains_key(name)
            && name.len() > 0 && name != "*"@ && text::ascii_lower(name) != text::ascii_lower(
            "default"@,
        )),
        preset::presets_of(sections).contains_key(name) ==> preset::presets_of(sections)[name]
            == (PresetView {
            name,
            model_id: identity::model_identity(kv),
            params: preset::params_of(kv),
            chat_template_kwargs: preset::thinking_of(kv),
        }),
{
    if preset::presets_of(sections).contains_key(name) {
        assert(kv =~= merged_keys(sections, name));
    }
}

/// The key `reasoning` decides on `enable_thinking`, by its text in lower case:
/// `auto` and `-1` leave it open, as does no such key; `on`, `enabled`, `true`
/// and `1` turn it on; everything else turns it off.
pub proof fn law_reasoning_words(kv: Map<Seq<char>, Seq<char>>)
    ensures
        ({
            let said = text::lowercase(kv["reasoning"@]);
            preset::thinking_of(kv) == if !kv.contains_key("reasoning"@) || said == "auto"@ || said
                == "-1"@ {
                Map::<Seq<char>, JsonView>::empty()
            } else {
                Map::<Seq<char>, JsonView>::empty().insert(
                    "enable_thinking"@,
                    JsonView::Bool(
                        said == "on"@ || said == "enabled"@ || said == "true"@ || said == "1"@,
                    ),
                )
            }
        }),
{
}

/// Each of the known keys sets its parameter to its value, and no other field
/// is a parameter.
pub proof fn law_parameters_of_keys(
    kv: Map<Seq<char>, Seq<char>>,
    k: Seq<char>,
    name: Seq<char>,
)
    ensures
        keys::sampling_key(k) == Some(name) ==> preset::params_of(kv).contains_key(name)
            == kv.contains_key(k),
        keys::sampling_key(k) == Some(name) && kv.contains_key(k) ==> preset::params_of(kv)[name]
            == settings::setting_json(kv[k]),
        (forall|j: Seq<char>| #[trigger]
            keys::sampling_key(j) == Some(name) ==> !kv.contains_key(j)) ==> !preset::params_of(
            kv,
        ).contains_key(name),
{
    law_params_come_from_keys(kv, k);
    if preset::params_of(kv).contains_key(name) {
        law_no_other_params(kv, name);
    }
}

/// What a preset does to each field of a request body. What the client has set
/// stays, and what it has not set comes from the parameters of the preset.
/// `chat_template_kwargs` is merged field by field in the same way, where it is
/// an object or not there, and stays where it is anything else.
pub proof fn law_injection_field_by_field(
    p: PresetView,
    body: Map<Seq<char>, JsonView>,
    k: Seq<char>,
)
    requires
        !p.params.contains_key("chat_template_kwargs"@),
    ensures
        ({
            let out = preset::injected(p, body);
            let none = Map::<Seq<char>, JsonView>::empty();
            if k != "chat_template_kwargs"@ {
                &&& out.contains_key(k) == (body.contains_key(k) || p.params.contains_key(k))
                &&& body.contains_key(k) ==> out[k] == body[k]
                &&& !body.contains_key(k) && p.params.contains_key(k) ==> out[k] == p.params[k]
            } else if p.chat_template_kwargs == none {
                &&& out.contains_key(k) == body.contains_key(k)
                &&& body.contains_key(k) ==> out[k] == body[k]
            } else if !body.contains_key(k) {
                out.contains_key(k) && out[k] == JsonView::Object(p.chat_template_kwargs)
            } else if !(body[k] is Object) {
                out.contains_key(k) && out[k] == body[k]
            } else {
                &&& out.contains_key(k)
                &&& out[k] is Object
                &&& forall|j: Seq<char>|
                    #![trigger out[k]->Object_0.contains_key(j)]
                    out[k]->Object_0.contains_key(j) == (body[k]->Object_0.contains_key(j)
                        || p.chat_template_kwargs.contains_key(j)) && (
                    body[k]->Object_0.contains_key(j) ==> out[k]->Object_0[j]
                        == body[k]->Object_0[j]) && (!body[k]->Object_0.contains_key(j)
                        && p.chat_template_kwargs.contains_key(j) ==> out[k]->Object_0[j]
                        == p.chat_template_kwargs[j])
            }
        }),
{
}

} // verus!
