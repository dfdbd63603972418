//! What is promised of model lists, entry by entry.

use crate::ini;
use crate::json::JsonView;
use crate::models;
use crate::models::{BadPresetView, ModelsError};
use crate::preset;
use crate::preset::PresetView;
use crate::refresh;
use vstd::prelude::*;

verus! {

broadcast use vstd::string::group_string_axioms;

/// The entries of a list are those in the array `data` of an object. An answer
/// that is not JSON, and one without such an array, give none.
pub proof fn law_entries_are_the_data(answer: JsonView)
    ensures
        models::entries_of(None) == Err::<Seq<JsonView>, ModelsError>(ModelsError::NotJson),
        models::entries_of(Some(answer)) == if answer is Object
            && answer->Object_0.contains_key("data"@) && answer->Object_0["data"@] is Array {
            Ok(answer->Object_0["data"@]->Array_0)
        } else {
            Err(ModelsError::NoData)
        },
{
}

/// An empty list has no sections. An entry adds the sections of the text at
/// `status.preset`, where that is an INI document, all but `default`: a key
/// there counts over the same key of earlier entries, and every other key
/// stays. Any other entry adds nothing.
pub proof fn law_one_entry_more(
    data: Seq<JsonView>,
    entry: JsonView,
    name: Seq<char>,
    k: Seq<char>,
)
    ensures
        models::all_sections(Seq::empty()) == Map::<
            Seq<char>,
            Map<Seq<char>, Seq<char>>,
        >::empty(),
        ({
            let before = models::all_sections(data);
            let after = models::all_sections(data.push(entry));
            if entry is Object && entry->Object_0.contains_key("status"@)
                && entry->Object_0["status"@] is Object
                && entry->Object_0["status"@]->Object_0.contains_key("preset"@)
                && entry->Object_0["status"@]->Object_0["preset"@] is Text && ini::parsed_ini(
                entry->Object_0["status"@]->Object_0["preset"@]->Text_0,
            ) is Some {
                let more = ini::parsed_ini(
                    entry->Object_0["status"@]->Object_0["preset"@]->Text_0,
                )->Some_0;
                if name == "default"@ || !more.contains_key(name) {
                    &&& after.contains_key(name) == before.contains_key(name)
                    &&& before.contains_key(name) ==> after[name] == before[name]
                } else {
                    &&& after.contains_key(name)
                    &&& after[name].contains_key(k) == (more[name].contains_key(k) || (
                    before.contains_key(name) && before[name].contains_key(k)))
                    &&& more[name].contains_key(k) ==> after[name][k] == more[name][k]
                    &&& !more[name].contains_key(k) && before.contains_key(name)
                        && before[name].contains_key(k) ==> after[name][k] == before[name][k]
                }
            } else {
                after == before
            }
        }),
{
    assert(data.push(entry).drop_last() =~= data);
    assert(data.push(entry).last() == entry);
}

/// An entry whose text at `status.preset` is not an INI document is listed as
/// bad, after those before it, with its `id`, or `?` where that is no text, and
/// with the place of its first bad line. No other entry is.
pub proof fn law_one_bad_entry_more(data: Seq<JsonView>, entry: JsonView)
    ensures
        models::bad_presets_of(Seq::empty()) == Seq::<BadPresetView>::empty(),
        models::bad_presets_of(data.push(entry)) == if entry is Object
            && entry->Object_0.contains_key("status"@) && entry->Object_0["status"@] is Object
            && entry->Object_0["status"@]->Object_0.contains_key("preset"@)
            && entry->Object_0["status"@]->Object_0["preset"@] is Text && ini::parsed_ini(
            entry->Object_0["status"@]->Object_0["preset"@]->Text_0,
        ) is None {
            models::bad_presets_of(data).push(
                BadPresetView {
                    id: if entry->Object_0.contains_key("id"@) && entry->Object_0["id"@] is Text {
                        entry->Object_0["id"@]->Text_0
                    } else {
                        "?"@
                    },
                    at: ini::first_bad_line(
                        entry->Object_0["status"@]->Object_0["preset"@]->Text_0,
                        0,
                    ),
                },
            )
        } else {
            models::bad_presets_of(data)
        },
{
    assert(data.push(entry).drop_last() =~= data);
    assert(data.push(entry).last() == entry);
}

/// The first alias that serves stands in no later an entry than any that does.
proof fn lemma_first_is_no_later(
    data: Seq<JsonView>,
    presets: Map<Seq<char>, PresetView>,
    model_id: Seq<char>,
    i: int,
)
    requires
        0 <= i < data.len(),
        models::serving(data[i], presets, model_id) is Some,
    ensures
        models::first_serving(data, presets, model_id) is Some,
        exists|j: int|
            0 <= j <= i && #[trigger] models::serving(data[j], presets, model_id)
                == models::first_serving(data, presets, model_id),
    decreases data.len(),
{
    let shorter = data.drop_last();
    if i < shorter.len() {
        assert(shorter[i] == data[i]);
        lemma_first_is_no_later(shorter, presets, model_id, i);
        let j = choose|j: int|
            0 <= j <= i && #[trigger] models::serving(shorter[j], presets, model_id)
                == models::first_serving(shorter, presets, model_id);
        assert(shorter[j] == data[j]);
        assert(models::serving(data[j], presets, model_id) == models::first_serving(
            data,
            presets,
            model_id,
        ));
    } else {
        match models::first_serving(shorter, presets, model_id) {
            Some(_) => {
                lemma_first_is_there(shorter, presets, model_id);
                let j = choose|j: int|
                    0 <= j < shorter.len() && #[trigger] models::serving(
                        shorter[j],
                        presets,
                        model_id,
                    ) == models::first_serving(shorter, presets, model_id);
                assert(shorter[j] == data[j]);
                assert(models::serving(data[j], presets, model_id) == models::first_serving(
                    data,
                    presets,
                    model_id,
                ));
            },
            None => {
                assert(models::serving(data[i], presets, model_id) == models::first_serving(
                    data,
                    presets,
                    model_id,
                ));
            },
        }
    }
}

/// The first alias that serves stands in some entry.
proof fn lemma_first_is_there(
    data: Seq<JsonView>,
    presets: Map<Seq<char>, PresetView>,
    model_id: Seq<char>,
)
    requires
        models::first_serving(data, presets, model_id) is Some,
    ensures
        exists|j: int|
            0 <= j < data.len() && #[trigger] models::serving(data[j], presets, model_id)
                == models::first_serving(data, presets, model_id),
    decreases data.len(),
{
    let shorter = data.drop_last();
    if models::first_serving(shorter, presets, model_id) is Some {
        lemma_first_is_there(shorter, presets, model_id);
        let j = choose|j: int|
            0 <= j < shorter.len() && #[trigger] models::serving(shorter[j], presets, model_id)
                == models::first_serving(shorter, presets, model_id);
        assert(shorter[j] == data[j]);
        assert(models::serving(data[j], presets, model_id) == models::first_serving(
            data,
            presets,
            model_id,
        ));
    } else {
        assert(models::serving(data[data.len() - 1], presets, model_id) == models::first_serving(
            data,
            presets,
            model_id,
        ));
    }
}

/// The active alias of a model is the `id` of an entry whose `status.value` is
/// the text `loaded` and nothing else, and it has a preset with the identity of
/// the model.
pub proof fn law_active_alias_is_loaded(
    data: Seq<JsonView>,
    presets: Map<Seq<char>, PresetView>,
    model_id: Seq<char>,
    preferred: Seq<char>,
)
    ensures
        models::active_alias(data, presets, model_id, preferred) matches Some(alias) ==> {
            &&& presets.contains_key(alias)
            &&& presets[alias].model_id == model_id
            &&& exists|i: int|
                0 <= i < data.len() && (#[trigger] data[i]) is Object
                    && data[i]->Object_0.contains_key("id"@) && data[i]->Object_0["id"@]
                    == JsonView::Text(alias) && data[i]->Object_0.contains_key("status"@)
                    && data[i]->Object_0["status"@] is Object
                    && data[i]->Object_0["status"@]->Object_0.contains_key("value"@)
                    && data[i]->Object_0["status"@]->Object_0["value"@] == JsonView::Text(
                    "loaded"@,
                )
        },
{
    if let Some(alias) = models::active_alias(data, presets, model_id, preferred) {
        let i = if models::is_serving(data, presets, model_id, preferred) {
            choose|i: int|
                0 <= i < data.len() && #[trigger] models::serving(data[i], presets, model_id)
                    == Some(preferred)
        } else {
            lemma_first_is_there(data, presets, model_id);
            choose|i: int|
                0 <= i < data.len() && #[trigger] models::serving(data[i], presets, model_id)
                    == models::first_serving(data, presets, model_id)
        };
        assert(models::serving(data[i], presets, model_id) == Some(alias));
        assert(data[i] is Object);
    }
}

/// Where an entry has the `status.value` `loaded` and an `id` that is a text
/// and has a preset with the identity of the model, the model has an active
/// alias. It is that `id` where it is the preferred one. Unless it is the
/// preferred one, it is the `id` of that entry or of an earlier one.
pub proof fn law_loaded_alias_is_found(
    data: Seq<JsonView>,
    presets: Map<Seq<char>, PresetView>,
    model_id: Seq<char>,
    preferred: Seq<char>,
    i: int,
    alias: Seq<char>,
)
    requires
        0 <= i < data.len(),
        data[i] is Object,
        data[i]->Object_0.contains_key("id"@),
        data[i]->Object_0["id"@] == JsonView::Text(alias),
        data[i]->Object_0.contains_key("status"@),
        data[i]->Object_0["status"@] is Object,
        data[i]->Object_0["status"@]->Object_0.contains_key("value"@),
        data[i]->Object_0["status"@]->Object_0["value"@] == JsonView::Text("loaded"@),
        presets.contains_key(alias),
        presets[alias].model_id == model_id,
    ensures
        models::active_alias(data, presets, model_id, preferred) is Some,
        alias == preferred ==> models::active_alias(data, presets, model_id, preferred) == Some(
            preferred,
        ),
        models::active_alias(data, presets, model_id, preferred) == Some(preferred) || exists|
            j: int,
        |
            0 <= j <= i && (#[trigger] data[j]) is Object && data[j]->Object_0.contains_key(
                "id"@,
            ) && models::active_alias(data, presets, model_id, preferred) == Some(
                data[j]->Object_0["id"@]->Text_0,
            ),
{
    assert(models::serving(data[i], presets, model_id) == Some(alias));
    lemma_first_is_no_later(data, presets, model_id, i);
    let j = choose|j: int|
        0 <= j <= i && #[trigger] models::serving(data[j], presets, model_id)
            == models::first_serving(data, presets, model_id);
    assert(models::serving(data[j], presets, model_id) is Some);
    assert(data[j] is Object);
    if alias == preferred {
        assert(models::is_serving(data, presets, model_id, preferred));
    }
}

/// A query reads the presets and the active alias from one and the same list.
pub proof fn law_listing_reads_one_list(
    data: Seq<JsonView>,
    model_id: Seq<char>,
    preferred: Seq<char>,
)
    ensures
        refresh::listed_presets(data) == preset::presets_of(models::all_sections(data)),
        refresh::listed_alias(data, model_id, preferred) == models::active_alias(
            data,
            preset::presets_of(models::all_sections(data)),
            model_id,
            preferred,
        ),
{
}

} // verus!
