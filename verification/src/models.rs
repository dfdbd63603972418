//! What the backend's model list says: the presets of its aliases, and which
//! alias is loaded.

use crate::ini;
use crate::ini::{copy_texts, extend_texts, parse_ini_str, IniError};
use crate::json;
use crate::json::{Json, JsonView};
use crate::preset;
use crate::preset::{build_presets_from_sections, Preset, PresetView};
use crate::table;
use crate::table::Table;
use crate::text::{joined, same_text};
use crate::wire;
use crate::wire::parse_json;
use vstd::prelude::*;

verus! {

broadcast use vstd::string::group_string_axioms;

// ---------------------------------------------------------------------------
// The answer to a query
// ---------------------------------------------------------------------------

/// Why an answer to a query for the models is of no use.
#[derive(Debug, Clone, Copy, PartialEq, Eq)]
pub enum ModelsError {
    /// It is not JSON.
    NotJson,
    /// It is not an object with an array `data`.
    NoData,
}

impl ModelsError {
    /// What went wrong, in words.
    pub fn message(&self) -> (r: &'static str)
        ensures
            r@ == match *self {
                ModelsError::NotJson => "/v1/models response was not valid JSON (error decoding response body)"@,
                ModelsError::NoData => "/v1/models response missing 'data' array"@,
            },
    {
        match *self {
            ModelsError::NotJson => "/v1/models response was not valid JSON (error decoding response body)",
            ModelsError::NoData => "/v1/models response missing 'data' array",
        }
    }
}

/// The entries of a model list that was read as `answer`, where that is not
/// JSON as `None`.
pub open spec fn entries_of(answer: Option<JsonView>) -> Result<Seq<JsonView>, ModelsError> {
    match answer {
        None => Err(ModelsError::NotJson),
        Some(j) => match json::member_of(j, "data"@) {
            Some(JsonView::Array(entries)) => Ok(entries),
            _ => Err(ModelsError::NoData),
        },
    }
}

/// What a result of `models_data` holds.
pub open spec fn entries_view(r: Result<Vec<Json>, ModelsError>) -> Result<
    Seq<JsonView>,
    ModelsError,
> {
    match r {
        Ok(v) => Ok(json::items(v@)),
        Err(e) => Err(e),
    }
}

/// Where the backend lists its models.
pub fn models_url(backend_url: &str) -> (r: String)
    ensures
        r@ == backend_url@ + "/models"@,
{
    joined(backend_url, "/models")
}

/// The entries of a model list that was read as `answer`.
pub fn take_data(answer: Option<Json>) -> (r: Result<Vec<Json>, ModelsError>)
    ensures
        entries_view(r) == entries_of(
            match answer {
                Some(j) => Some(j.tree()),
                None => None,
            },
        ),
{
    match answer {
        None => Err(ModelsError::NotJson),
        Some(Json::Object(fields)) => {
            let mut rest = fields;
            proof {
                json::lemma_object_tree(fields);
            }
            match rest.remove("data") {
                Some(Json::Array(entries)) => {
                    proof {
                        json::lemma_array_tree(entries);
                    }
                    Ok(entries)
                },
                _ => Err(ModelsError::NoData),
            }
        },
        Some(_) => Err(ModelsError::NoData),
    }
}

/// The entries of a model list.
pub fn models_data(bytes: &[u8]) -> (r: Result<Vec<Json>, ModelsError>)
    ensures
        entries_view(r) == entries_of(wire::parsed_json(bytes@)),
{
    take_data(parse_json(bytes))
}

// ---------------------------------------------------------------------------
// Presets
// ---------------------------------------------------------------------------

/// The sections of the preset text of an entry; nothing where there is no
/// such text or it is not an INI document.
pub open spec fn entry_sections(entry: JsonView) -> Option<
    Map<Seq<char>, Map<Seq<char>, Seq<char>>>,
> {
    match json::inner_text_of(entry, "status"@, "preset"@) {
        Some(t) => ini::parsed_ini(t),
        None => None,
    }
}

/// `all` with the sections of `more` but `default`. Where both have a key of a
/// section, its value in `more` counts.
pub open spec fn with_sections(
    all: Map<Seq<char>, Map<Seq<char>, Seq<char>>>,
    more: Map<Seq<char>, Map<Seq<char>, Seq<char>>>,
) -> Map<Seq<char>, Map<Seq<char>, Seq<char>>> {
    Map::new(
        |name: Seq<char>|
            all.contains_key(name) || (more.contains_key(name) && name != "default"@),
        |name: Seq<char>|
            if more.contains_key(name) && name != "default"@ {
                ini::section_or_empty(all, name).union_prefer_right(more[name])
            } else {
                all[name]
            },
    )
}

/// The sections of all entries of a model list, later entries counting over
/// earlier ones.
pub open spec fn all_sections(data: Seq<JsonView>) -> Map<Seq<char>, Map<Seq<char>, Seq<char>>>
    decreases data.len(),
{
    if data.len() == 0 {
        Map::empty()
    } else {
        let before = all_sections(data.drop_last());
        match entry_sections(data.last()) {
            Some(more) => with_sections(before, more),
            None => before,
        }
    }
}

/// What one more section does.
proof fn lemma_with_sections_insert(
    all: Map<Seq<char>, Map<Seq<char>, Seq<char>>>,
    more: Map<Seq<char>, Map<Seq<char>, Seq<char>>>,
    name: Seq<char>,
    kv: Map<Seq<char>, Seq<char>>,
)
    requires
        !more.contains_key(name),
    ensures
        with_sections(all, more.insert(name, kv)) == if name == "default"@ {
            with_sections(all, more)
        } else {
            with_sections(all, more).insert(
                name,
                ini::section_or_empty(with_sections(all, more), name).union_prefer_right(kv),
            )
        },
{
    let before = with_sections(all, more);
    let after = with_sections(all, more.insert(name, kv));
    if name == "default"@ {
        assert(after =~= before);
    } else {
        assert(ini::section_or_empty(before, name) =~= ini::section_or_empty(all, name));
        assert(after =~= before.insert(
            name,
            ini::section_or_empty(before, name).union_prefer_right(kv),
        ));
    }
}

/// Adds sections to those of earlier entries.
fn add_sections(all: &mut Table<Table<String>>, more: &Table<Table<String>>)
    ensures
        ini::section_texts(*final(all)) == with_sections(
            ini::section_texts(*old(all)),
            ini::section_texts(*more),
        ),
{
    let len = more.len();
    let mut i: usize = 0;
    let ghost given = ini::section_texts(*all);
    proof {
        table::lemma_map_of_none(more.pairs());
        assert(given =~= with_sections(
            given,
            ini::kv_texts(table::map_of(more.pairs().take(0))),
        ));
    }
    while i < len
        invariant
            i <= len == more.pairs().len(),
            table::distinct_keys(more.pairs()),
            ini::section_texts(*all) == with_sections(
                given,
                ini::kv_texts(table::map_of(more.pairs().take(i as int))),
            ),
        decreases len - i,
    {
        let name = more.key_at(i);
        let kv = more.value_at(i);
        let ghost before = table::map_of(more.pairs().take(i as int));
        proof {
            table::lemma_map_of_take(more.pairs(), i as int);
            ini::lemma_kv_texts_insert(before, name@, *kv);
            lemma_with_sections_insert(given, ini::kv_texts(before), name@, ini::texts(*kv));
        }
        if !same_text(name, "default") {
            let mut section = match all.get(name) {
                Some(known) => copy_texts(known),
                None => Table::new(),
            };
            proof {
                assert(ini::texts(section) =~= ini::section_or_empty(
                    ini::section_texts(*all),
                    name@,
                ));
            }
            extend_texts(&mut section, kv);
            proof {
                ini::lemma_kv_texts_insert(all@, name@, section);
            }
            all.insert(name.to_owned(), section);
        }
        i += 1;
    }
    proof {
        table::lemma_map_of_none(more.pairs());
    }
}

/// The presets in the entries of a model list. An entry without a preset text,
/// or with one that is not an INI document, adds nothing.
pub fn presets_from_models_json(data: &[Json]) -> (r: Table<Preset>)
    ensures
        preset::preset_views(r) == preset::presets_of(all_sections(json::items(data@))),
{
    let mut sections: Table<Table<String>> = Table::new();
    let mut i: usize = 0;
    let ghost entries = json::items(data@);
    proof {
        assert(entries.take(0) =~= Seq::<JsonView>::empty());
        assert(ini::section_texts(sections) =~= Map::empty());
    }
    while i < data.len()
        invariant
            i <= data@.len(),
            entries == json::items(data@),
            ini::section_texts(sections) == all_sections(entries.take(i as int)),
        decreases data.len() - i,
    {
        let entry = &data[i];
        proof {
            assert(entries.take(i + 1).drop_last() =~= entries.take(i as int));
            assert(entries.take(i + 1).last() == entry.tree());
        }
        if let Some(preset_text) = entry.inner_text("status", "preset") {
            if let Ok(more) = parse_ini_str(preset_text) {
                add_sections(&mut sections, &more);
            }
        }
        i += 1;
    }
    proof {
        assert(entries.take(i as int) =~= entries);
    }
    build_presets_from_sections(sections)
}

/// An entry whose preset text is not an INI document.
#[derive(Debug, PartialEq)]
pub struct BadPreset {
    /// The `id` of the entry, or `?` where it has none.
    pub id: String,
    /// What is wrong with the text.
    pub error: IniError,
}

/// Such an entry as mathematics.
#[verifier::ext_equal]
pub struct BadPresetView {
    pub id: Seq<char>,
    pub at: int,
}

impl View for BadPreset {
    type V = BadPresetView;

    open spec fn view(&self) -> BadPresetView {
        BadPresetView { id: self.id@, at: self.error.at as int }
    }
}

/// The entries of a list of bad presets.
pub open spec fn bad_views(bad: Seq<BadPreset>) -> Seq<BadPresetView> {
    bad.map_values(|b: BadPreset| b@)
}

/// An entry has a preset text, and that is not an INI document.
pub open spec fn has_bad_preset(entry: JsonView) -> bool {
    json::inner_text_of(entry, "status"@, "preset"@) is Some && entry_sections(entry) is None
}

/// What is wrong with the preset text of an entry: under which `id` it stands,
/// and where its first bad line starts.
pub open spec fn bad_preset_of(entry: JsonView) -> BadPresetView {
    BadPresetView {
        id: match json::text_of(entry, "id"@) {
            Some(id) => id,
            None => "?"@,
        },
        at: ini::first_bad_line(json::inner_text_of(entry, "status"@, "preset"@)->Some_0, 0),
    }
}

/// The bad presets of a model list, in its order.
pub open spec fn bad_presets_of(data: Seq<JsonView>) -> Seq<BadPresetView>
    decreases data.len(),
{
    if data.len() == 0 {
        Seq::empty()
    } else {
        let before = bad_presets_of(data.drop_last());
        if has_bad_preset(data.last()) {
            before.push(bad_preset_of(data.last()))
        } else {
            before
        }
    }
}

/// The entries of a model list whose preset texts add nothing because they are
/// not INI documents, in the order of the list.
pub fn bad_presets(data: &[Json]) -> (r: Vec<BadPreset>)
    ensures
        bad_views(r@) == bad_presets_of(json::items(data@)),
{
    let mut out: Vec<BadPreset> = Vec::new();
    let mut i: usize = 0;
    let ghost entries = json::items(data@);
    proof {
        assert(entries.take(0) =~= Seq::<JsonView>::empty());
        assert(bad_views(out@) =~= Seq::<BadPresetView>::empty());
    }
    while i < data.len()
        invariant
            i <= data@.len(),
            entries == json::items(data@),
            bad_views(out@) == bad_presets_of(entries.take(i as int)),
        decreases data.len() - i,
    {
        let entry = &data[i];
        proof {
            assert(entries.take(i + 1).drop_last() =~= entries.take(i as int));
            assert(entries.take(i + 1).last() == entry.tree());
        }
        if let Some(preset_text) = entry.inner_text("status", "preset") {
            if let Err(error) = parse_ini_str(preset_text) {
                let id = match entry.text("id") {
                    Some(id) => id.to_owned(),
                    None => "?".to_owned(),
                };
                let bad = BadPreset { id, error };
                proof {
                    assert(bad@ == bad_preset_of(entry.tree()));
                    assert(bad_views(out@.push(bad)) =~= bad_views(out@).push(bad@));
                }
                out.push(bad);
            }
        }
        i += 1;
    }
    proof {
        assert(entries.take(i as int) =~= entries);
    }
    out
}

// ---------------------------------------------------------------------------
// The active alias
// ---------------------------------------------------------------------------

/// The alias of an entry, where it is loaded and serves the model `model_id`.
pub open spec fn serving(
    entry: JsonView,
    presets: Map<Seq<char>, PresetView>,
    model_id: Seq<char>,
) -> Option<Seq<char>> {
    match json::text_of(entry, "id"@) {
        Some(id) => if json::inner_text_of(entry, "status"@, "value"@) == Some("loaded"@)
            && presets.contains_key(id) && presets[id].model_id == model_id {
            Some(id)
        } else {
            None
        },
        None => None,
    }
}

/// The first loaded alias in `data` that serves the model.
pub open spec fn first_serving(
    data: Seq<JsonView>,
    presets: Map<Seq<char>, PresetView>,
    model_id: Seq<char>,
) -> Option<Seq<char>>
    decreases data.len(),
{
    if data.len() == 0 {
        None
    } else {
        match first_serving(data.drop_last(), presets, model_id) {
            Some(id) => Some(id),
            None => serving(data.last(), presets, model_id),
        }
    }
}

/// Some entry of `data` serves the model as `alias`.
pub open spec fn is_serving(
    data: Seq<JsonView>,
    presets: Map<Seq<char>, PresetView>,
    model_id: Seq<char>,
    alias: Seq<char>,
) -> bool {
    exists|i: int|
        0 <= i < data.len() && #[trigger] serving(data[i], presets, model_id) == Some(alias)
}

/// The alias under which the model is loaded: the preferred one where it is
/// among them, else the first.
pub open spec fn active_alias(
    data: Seq<JsonView>,
    presets: Map<Seq<char>, PresetView>,
    model_id: Seq<char>,
    preferred: Seq<char>,
) -> Option<Seq<char>> {
    if is_serving(data, presets, model_id, preferred) {
        Some(preferred)
    } else {
        first_serving(data, presets, model_id)
    }
}

/// The alias of an entry, where it is loaded and serves the model `model_id`.
fn serving_alias<'a>(entry: &'a Json, presets: &Table<Preset>, model_id: &str) -> (r: Option<
    &'a str,
>)
    ensures
        match r {
            Some(id) => serving(entry.tree(), preset::preset_views(*presets), model_id@) == Some(
                id@,
            ),
            None => serving(entry.tree(), preset::preset_views(*presets), model_id@) is None,
        },
{
    let id = match entry.text("id") {
        Some(id) => id,
        None => return None,
    };
    let value = match entry.inner_text("status", "value") {
        Some(value) => value,
        None => return None,
    };
    if !same_text(value, "loaded") {
        return None;
    }
    match presets.get(id) {
        Some(p) => if same_text(p.model_id.as_str(), model_id) {
            Some(id)
        } else {
            None
        },
        None => None,
    }
}

/// The alias under which a model list has the model `model_id` loaded.
/// `preferred` is returned where it is loaded itself, else the first one.
pub fn find_active_alias(
    data: &[Json],
    presets: &Table<Preset>,
    model_id: &str,
    preferred: &str,
) -> (r: Option<String>)
    ensures
        match r {
            Some(alias) => active_alias(
                json::items(data@),
                preset::preset_views(*presets),
                model_id@,
                preferred@,
            ) == Some(alias@),
            None => active_alias(
                json::items(data@),
                preset::preset_views(*presets),
                model_id@,
                preferred@,
            ) is None,
        },
{
    let ghost entries = json::items(data@);
    let ghost known = preset::preset_views(*presets);
    let mut fallback: Option<String> = None;
    let mut i: usize = 0;
    while i < data.len()
        invariant
            i <= data@.len(),
            entries == json::items(data@),
            known == preset::preset_views(*presets),
            !is_serving(entries.take(i as int), known, model_id@, preferred@),
            match fallback {
                Some(alias) => first_serving(entries.take(i as int), known, model_id@) == Some(
                    alias@,
                ),
                None => first_serving(entries.take(i as int), known, model_id@) is None,
            },
        decreases data.len() - i,
    {
        let entry = &data[i];
        proof {
            assert(entries.take(i + 1).drop_last() =~= entries.take(i as int));
            assert(entries.take(i + 1).last() == entry.tree());
        }
        let alias = serving_alias(entry, presets, model_id);
        proof {
            assert forall|j: int| 0 <= j < i + 1 && j != i implies #[trigger] serving(
                entries.take(i + 1)[j],
                known,
                model_id@,
            ) != Some(preferred@) by {
                assert(entries.take(i + 1)[j] == entries.take(i as int)[j]);
            }
        }
        if let Some(id) = alias {
            if same_text(id, preferred) {
                proof {
                    assert(serving(entries[i as int], known, model_id@) == Some(preferred@));
                }
                return Some(preferred.to_owned());
            }
            if fallback.is_none() {
                fallback = Some(id.to_owned());
            }
        }
        i += 1;
    }
    proof {
        assert(entries.take(i as int) =~= entries);
    }
    fallback
}

} // verus!
