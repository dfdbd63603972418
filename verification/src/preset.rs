//! Presets: what an alias adds to a request.

use crate::identity;
use crate::identity::compute_model_id;
use crate::ini;
use crate::ini::{copy_texts, extend_texts};
use crate::json;
use crate::json::{copy_fields, Json, JsonView};
use crate::keys;
use crate::keys::{get_sparam_json_key, is_autoy, is_truthy};
use crate::settings;
use crate::settings::setting_value;
use crate::table;
use crate::table::Table;
use crate::text;
use crate::text::same_text;
use vstd::prelude::*;

verus! {

broadcast use vstd::string::group_string_axioms;

/// A single named preset, made from an INI section.
#[derive(Debug, PartialEq)]
pub struct Preset {
    /// The name of the section, which is the alias of the model.
    pub name: String,
    /// The identity of the model; empty where the section names no source.
    pub model_id: String,
    /// Sampling parameters for request bodies, by their JSON names.
    pub params: Table<Json>,
    /// Values for `chat_template_kwargs`.
    pub chat_template_kwargs: Table<Json>,
}

/// A preset as mathematics.
#[verifier::ext_equal]
pub struct PresetView {
    pub name: Seq<char>,
    pub model_id: Seq<char>,
    pub params: Map<Seq<char>, JsonView>,
    pub chat_template_kwargs: Map<Seq<char>, JsonView>,
}

impl View for Preset {
    type V = PresetView;

    open spec fn view(&self) -> PresetView {
        PresetView {
            name: self.name@,
            model_id: self.model_id@,
            params: json::fields(self.params),
            chat_template_kwargs: json::fields(self.chat_template_kwargs),
        }
    }
}

/// The presets of a table by their names.
pub open spec fn preset_views(presets: Table<Preset>) -> Map<Seq<char>, PresetView> {
    views(presets@)
}

/// The presets of a map.
pub open spec fn views(m: Map<Seq<char>, Preset>) -> Map<Seq<char>, PresetView> {
    m.map_values(|p: Preset| p@)
}

// ---------------------------------------------------------------------------
// Injection
// ---------------------------------------------------------------------------

/// `body` with the fields of `extra` that it does not have.
pub open spec fn filled(
    body: Map<Seq<char>, JsonView>,
    extra: Map<Seq<char>, JsonView>,
) -> Map<Seq<char>, JsonView> {
    extra.union_prefer_right(body)
}

/// A request body with the parameters of a preset. What the client has set
/// stays; a `chat_template_kwargs` that is not an object stays as it is.
pub open spec fn injected(p: PresetView, body: Map<Seq<char>, JsonView>) -> Map<
    Seq<char>,
    JsonView,
> {
    let with_params = filled(body, p.params);
    let name = "chat_template_kwargs"@;
    if p.chat_template_kwargs == Map::<Seq<char>, JsonView>::empty() {
        with_params
    } else if !with_params.contains_key(name) {
        with_params.insert(name, JsonView::Object(p.chat_template_kwargs))
    } else {
        match with_params[name] {
            JsonView::Object(given) => with_params.insert(
                name,
                JsonView::Object(filled(given, p.chat_template_kwargs)),
            ),
            _ => with_params,
        }
    }
}

/// What one more field to add does.
proof fn lemma_filled_insert(
    body: Map<Seq<char>, JsonView>,
    extra: Map<Seq<char>, JsonView>,
    k: Seq<char>,
    v: JsonView,
)
    requires
        !extra.contains_key(k),
    ensures
        filled(body, extra.insert(k, v)) == if filled(body, extra).contains_key(k) {
            filled(body, extra)
        } else {
            filled(body, extra).insert(k, v)
        },
{
    let before = filled(body, extra);
    let after = filled(body, extra.insert(k, v));
    if before.contains_key(k) {
        assert(after =~= before);
    } else {
        assert(after =~= before.insert(k, v));
    }
}

/// Adds to `body` the fields of `extra` that it does not have.
fn fill(body: &mut Table<Json>, extra: &Table<Json>)
    ensures
        json::fields(*final(body)) == filled(json::fields(*old(body)), json::fields(*extra)),
{
    let len = extra.len();
    let mut i: usize = 0;
    let ghost given = json::fields(*body);
    proof {
        table::lemma_map_of_none(extra.pairs());
        assert(json::fields(*body) =~= filled(
            given,
            json::trees(table::map_of(extra.pairs().take(0))),
        ));
    }
    while i < len
        invariant
            i <= len == extra.pairs().len(),
            table::distinct_keys(extra.pairs()),
            json::fields(*body) == filled(
                given,
                json::trees(table::map_of(extra.pairs().take(i as int))),
            ),
        decreases len - i,
    {
        let key = extra.key_at(i);
        let value = extra.value_at(i);
        proof {
            table::lemma_map_of_take(extra.pairs(), i as int);
            json::lemma_trees_insert(
                table::map_of(extra.pairs().take(i as int)),
                key@,
                *value,
            );
            json::lemma_trees_keys(table::map_of(extra.pairs().take(i as int)));
            json::lemma_trees_keys(body@);
            lemma_filled_insert(
                given,
                json::trees(table::map_of(extra.pairs().take(i as int))),
                key@,
                value.tree(),
            );
        }
        if !body.contains_key(key) {
            let twin = value.copy();
            proof {
                json::lemma_trees_insert(body@, key@, twin);
            }
            body.insert(key.to_owned(), twin);
        }
        i += 1;
    }
    proof {
        table::lemma_map_of_none(extra.pairs());
    }
}

impl Preset {
    /// Adds the parameters of this preset to a request body. Only what the
    /// client did not set is added; in `chat_template_kwargs` this holds of
    /// each of its fields.
    pub fn inject(&self, body: Table<Json>) -> (r: Table<Json>)
        ensures
            json::fields(r) == injected(self@, json::fields(body)),
    {
        let mut out = body;
        fill(&mut out, &self.params);
        proof {
            json::lemma_trees_keys(self.chat_template_kwargs@);
        }
        if self.chat_template_kwargs.is_empty() {
            return out;
        }
        let name = "chat_template_kwargs";
        let ghost before = out@;
        let merged: Option<Table<Json>> = match out.get(name) {
            None => Some(copy_fields(&self.chat_template_kwargs)),
            Some(Json::Object(given)) => {
                let mut kwargs = copy_fields(given);
                fill(&mut kwargs, &self.chat_template_kwargs);
                proof {
                    json::lemma_object_tree(*given);
                }
                Some(kwargs)
            },
            Some(_) => None,
        };
        if let Some(kwargs) = merged {
            proof {
                json::lemma_object_tree(kwargs);
                json::lemma_trees_insert(before, name@, Json::Object(kwargs));
            }
            out.insert(name.to_owned(), Json::Object(kwargs));
        }
        out
    }

    /// The same preset once more.
    pub fn copy(&self) -> (r: Preset)
        ensures
            r@ == self@,
    {
        Preset {
            name: self.name.clone(),
            model_id: self.model_id.clone(),
            params: copy_fields(&self.params),
            chat_template_kwargs: copy_fields(&self.chat_template_kwargs),
        }
    }
}

// ---------------------------------------------------------------------------
// Sections
// ---------------------------------------------------------------------------

/// `k` is a key of `kv` that sets the parameter `name`.
pub open spec fn sets_param(
    kv: Map<Seq<char>, Seq<char>>,
    name: Seq<char>,
    k: Seq<char>,
) -> bool {
    kv.contains_key(k) && keys::sampling_key(k) == Some(name)
}

/// The sampling parameters that the keys of `kv` set.
pub open spec fn params_of(kv: Map<Seq<char>, Seq<char>>) -> Map<Seq<char>, JsonView> {
    Map::new(
        |name: Seq<char>| exists|k: Seq<char>| sets_param(kv, name, k),
        |name: Seq<char>|
            settings::setting_json(kv[choose|k: Seq<char>| sets_param(kv, name, k)]),
    )
}

/// What the key `reasoning` of `kv` puts into `chat_template_kwargs`: nothing
/// where it is not there or leaves the choice open.
pub open spec fn thinking_of(kv: Map<Seq<char>, Seq<char>>) -> Map<Seq<char>, JsonView> {
    let key = "reasoning"@;
    if kv.contains_key(key) && !keys::says_auto(text::lowercase(kv[key])) {
        Map::empty().insert(
            "enable_thinking"@,
            JsonView::Bool(keys::says_yes(text::lowercase(kv[key]))),
        )
    } else {
        Map::empty()
    }
}

/// The preset of the section `name` with the keys `kv`.
pub open spec fn preset_of(name: Seq<char>, kv: Map<Seq<char>, Seq<char>>) -> PresetView {
    PresetView {
        name,
        model_id: identity::model_identity(kv),
        params: params_of(kv),
        chat_template_kwargs: thinking_of(kv),
    }
}

/// A section name that can be an alias: not `*`, not empty, and not `default`
/// in any case.
pub open spec fn is_alias(name: Seq<char>) -> bool {
    name != "*"@ && name.len() > 0 && text::ascii_lower(name) != text::ascii_lower("default"@)
}

/// The presets of some sections, each with the keys of `global` that it does
/// not have itself.
pub open spec fn presets_with(
    global: Map<Seq<char>, Seq<char>>,
    sections: Map<Seq<char>, Map<Seq<char>, Seq<char>>>,
) -> Map<Seq<char>, PresetView> {
    Map::new(
        |name: Seq<char>| sections.contains_key(name) && is_alias(name),
        |name: Seq<char>| preset_of(name, global.union_prefer_right(sections[name])),
    )
}

/// The presets of some sections. The keys of the section `*` count for every
/// preset that does not have them itself.
pub open spec fn presets_of(sections: Map<Seq<char>, Map<Seq<char>, Seq<char>>>) -> Map<
    Seq<char>,
    PresetView,
> {
    presets_with(ini::section_or_empty(sections, "*"@), sections)
}

/// `reasoning` is not a sampling parameter.
proof fn lemma_reasoning()
    ensures
        keys::sampling_key("reasoning"@) is None,
{
    reveal_strlit("reasoning");
    reveal_strlit("temp");
    reveal_strlit("top-k");
    reveal_strlit("top-p");
    reveal_strlit("min-p");
    reveal_strlit("repeat-penalty");
    reveal_strlit("presence-penalty");
    reveal_strlit("frequency-penalty");
    reveal_strlit("repeat-last-n");
    reveal_strlit("top-nsigma");
    reveal_strlit("xtc-probability");
    reveal_strlit("xtc-threshold");
    reveal_strlit("typical");
    reveal_strlit("dry-multiplier");
    reveal_strlit("dry-base");
    reveal_strlit("dry-allowed-length");
    reveal_strlit("dry-penalty-last-n");
    reveal_strlit("mirostat");
    reveal_strlit("mirostat-tau");
    reveal_strlit("mirostat-eta");
    reveal_strlit("seed");
    assert("reasoning"@.len() == 9);
    assert("temp"@.len() == 4);
    assert("top-k"@.len() == 5);
    assert("top-p"@.len() == 5);
    assert("min-p"@.len() == 5);
    assert("repeat-penalty"@.len() == 14);
    assert("presence-penalty"@.len() == 16);
    assert("frequency-penalty"@.len() == 17);
    assert("repeat-last-n"@.len() == 13);
    assert("top-nsigma"@.len() == 10);
    assert("xtc-probability"@.len() == 15);
    assert("xtc-threshold"@.len() == 13);
    assert("typical"@.len() == 7);
    assert("dry-multiplier"@.len() == 14);
    assert("dry-base"@.len() == 8);
    assert("dry-allowed-length"@.len() == 18);
    assert("dry-penalty-last-n"@.len() == 18);
    assert("mirostat"@.len() == 8);
    assert("mirostat-tau"@.len() == 12);
    assert("mirostat-eta"@.len() == 12);
    assert("seed"@.len() == 4);
}

/// What one more key does to the parameters.
proof fn lemma_params_insert(kv: Map<Seq<char>, Seq<char>>, k: Seq<char>, v: Seq<char>)
    requires
        !kv.contains_key(k),
    ensures
        params_of(kv.insert(k, v)) == match keys::sampling_key(k) {
            Some(name) => params_of(kv).insert(name, settings::setting_json(v)),
            None => params_of(kv),
        },
{
    let more = kv.insert(k, v);
    assert forall|name: Seq<char>, key: Seq<char>| #[trigger]
        sets_param(more, name, key) == (sets_param(kv, name, key) || (key == k
            && keys::sampling_key(k) == Some(name))) by {}
    assert forall|name: Seq<char>|
        keys::sampling_key(k) != Some(name) && #[trigger] params_of(kv).contains_key(name) implies
        params_of(more).contains_key(name) && params_of(more)[name] == params_of(kv)[name] by {
        let old_key = choose|key: Seq<char>| sets_param(kv, name, key);
        assert(sets_param(more, name, old_key));
        let new_key = choose|key: Seq<char>| sets_param(more, name, key);
        keys::law_sampling_keys_injective(old_key, new_key);
    }
    if let Some(name) = keys::sampling_key(k) {
        assert(sets_param(more, name, k));
        let new_key = choose|key: Seq<char>| sets_param(more, name, key);
        keys::law_sampling_keys_injective(k, new_key);
        assert(params_of(more) =~= params_of(kv).insert(name, settings::setting_json(v)));
    } else {
        assert(params_of(more) =~= params_of(kv));
    }
}

/// What one more key does to the template arguments.
proof fn lemma_thinking_insert(kv: Map<Seq<char>, Seq<char>>, k: Seq<char>, v: Seq<char>)
    requires
        !kv.contains_key(k),
    ensures
        thinking_of(kv.insert(k, v)) == if k == "reasoning"@ && !keys::says_auto(
            text::lowercase(v),
        ) {
            thinking_of(kv).insert(
                "enable_thinking"@,
                JsonView::Bool(keys::says_yes(text::lowercase(v))),
            )
        } else {
            thinking_of(kv)
        },
{
}

/// The preset of the section `name` with the keys `kv`.
pub fn make_preset(name: String, kv: &Table<String>) -> (r: Preset)
    ensures
        r@ == preset_of(name@, ini::texts(*kv)),
{
    let model_id = compute_model_id(kv);
    let mut params: Table<Json> = Table::new();
    let mut chat_template_kwargs: Table<Json> = Table::new();
    let len = kv.len();
    let mut i: usize = 0;
    proof {
        ini::lemma_texts_ends(*kv);
        assert(json::fields(params) =~= params_of(Map::empty()));
        assert(json::fields(chat_template_kwargs) =~= thinking_of(Map::empty()));
    }
    while i < len
        invariant
            i <= len == kv.pairs().len(),
            table::ascending(kv.pairs()),
            json::fields(params) == params_of(ini::texts_before(*kv, i as int)),
            json::fields(chat_template_kwargs) == thinking_of(ini::texts_before(*kv, i as int)),
        decreases len - i,
    {
        let key = kv.key_at(i);
        let value = kv.value_at(i).as_str();
        proof {
            ini::lemma_texts_before(*kv, i as int);
            lemma_params_insert(ini::texts_before(*kv, i as int), key@, value@);
            lemma_thinking_insert(ini::texts_before(*kv, i as int), key@, value@);
            lemma_reasoning();
        }
        if let Some(param) = get_sparam_json_key(key) {
            let setting = setting_value(value);
            proof {
                json::lemma_trees_insert(params@, param@, setting);
            }
            params.insert(param.to_owned(), setting);
        } else if same_text(key, "reasoning") && !is_autoy(value) {
            let thinking = Json::Bool(is_truthy(value));
            proof {
                json::lemma_trees_insert(chat_template_kwargs@, "enable_thinking"@, thinking);
            }
            chat_template_kwargs.insert("enable_thinking".to_owned(), thinking);
        }
        i += 1;
    }
    proof {
        ini::lemma_texts_ends(*kv);
    }
    Preset { name, model_id, params, chat_template_kwargs }
}

/// What one more section does to the presets.
proof fn lemma_presets_insert(
    global: Map<Seq<char>, Seq<char>>,
    sections: Map<Seq<char>, Map<Seq<char>, Seq<char>>>,
    name: Seq<char>,
    kv: Map<Seq<char>, Seq<char>>,
)
    ensures
        is_alias(name) ==> presets_with(global, sections.insert(name, kv)) == presets_with(
            global,
            sections,
        ).insert(name, preset_of(name, global.union_prefer_right(kv))),
        !is_alias(name) ==> presets_with(global, sections.insert(name, kv)) == presets_with(
            global,
            sections,
        ),
{
    let before = presets_with(global, sections);
    let after = presets_with(global, sections.insert(name, kv));
    if is_alias(name) {
        assert(after =~= before.insert(name, preset_of(name, global.union_prefer_right(kv))));
    } else {
        assert(after =~= before);
    }
}

/// One more preset in a table.
pub proof fn lemma_views_insert(m: Map<Seq<char>, Preset>, name: Seq<char>, p: Preset)
    ensures
        views(m.insert(name, p)) == views(m).insert(name, p@),
{
    assert(views(m.insert(name, p)) =~= views(m).insert(name, p@));
}

/// A map of presets stands for no presets just where it holds none.
pub proof fn lemma_views_empty(m: Map<Seq<char>, Preset>)
    ensures
        (views(m) == Map::<Seq<char>, PresetView>::empty()) == (m == Map::<
            Seq<char>,
            Preset,
        >::empty()),
{
    if views(m) == Map::<Seq<char>, PresetView>::empty() {
        assert forall|k: Seq<char>| !m.contains_key(k) by {
            assert(!views(m).contains_key(k));
        }
        assert(m =~= Map::<Seq<char>, Preset>::empty());
    }
    if m == Map::<Seq<char>, Preset>::empty() {
        assert(views(m) =~= Map::<Seq<char>, PresetView>::empty());
    }
}

/// The presets of some sections, by their names. The keys of the section `*`
/// count for every preset; a section's own keys come before them.
pub fn build_presets_from_sections(sections: Table<Table<String>>) -> (r: Table<Preset>)
    ensures
        preset_views(r) == presets_of(ini::section_texts(sections)),
{
    let global = match sections.get("*") {
        Some(kv) => copy_texts(kv),
        None => Table::new(),
    };
    let ghost global_texts = ini::texts(global);
    proof {
        assert(global_texts =~= ini::section_or_empty(ini::section_texts(sections), "*"@));
    }
    let mut presets: Table<Preset> = Table::new();
    let len = sections.len();
    let mut i: usize = 0;
    proof {
        table::lemma_map_of_none(sections.pairs());
        assert(preset_views(presets) =~= presets_with(
            global_texts,
            ini::kv_texts(table::map_of(sections.pairs().take(0))),
        ));
    }
    while i < len
        invariant
            i <= len == sections.pairs().len(),
            table::distinct_keys(sections.pairs()),
            global_texts == ini::texts(global),
            preset_views(presets) == presets_with(
                global_texts,
                ini::kv_texts(table::map_of(sections.pairs().take(i as int))),
            ),
        decreases len - i,
    {
        let name = sections.key_at(i);
        let kv = sections.value_at(i);
        proof {
            let before = table::map_of(sections.pairs().take(i as int));
            table::lemma_map_of_take(sections.pairs(), i as int);
            ini::lemma_kv_texts_insert(before, name@, *kv);
            lemma_presets_insert(global_texts, ini::kv_texts(before), name@, ini::texts(*kv));
        }
        if !same_text(name, "*") && !name.is_empty() && !name.eq_ignore_ascii_case("default") {
            let mut merged = copy_texts(&global);
            extend_texts(&mut merged, kv);
            let preset = make_preset(name.to_owned(), &merged);
            proof {
                lemma_views_insert(presets@, name@, preset);
            }
            presets.insert(name.to_owned(), preset);
        }
        i += 1;
    }
    proof {
        table::lemma_map_of_none(sections.pairs());
    }
    presets
}

} // verus!
