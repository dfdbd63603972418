//! Model identity: which physical model a preset uses.

use crate::ini;
use crate::keys;
use crate::keys::get_canonical_model_id_key;
use crate::table;
use crate::table::Table;
use crate::text;
use crate::text::{joined, same_text};
use vstd::prelude::*;

verus! {

broadcast use vstd::string::group_string_axioms;

/// `k` is a key of `kv` that gives the canonical key `canon` a value which is
/// not blank.
pub open spec fn names_source(
    kv: Map<Seq<char>, Seq<char>>,
    canon: Seq<char>,
    k: Seq<char>,
) -> bool {
    &&& kv.contains_key(k)
    &&& keys::canonical_key(k) == Some(canon)
    &&& text::trimmed(kv[k]).len() > 0
}

/// `k` is the last such key in the order of texts.
pub open spec fn decides_source(
    kv: Map<Seq<char>, Seq<char>>,
    canon: Seq<char>,
    k: Seq<char>,
) -> bool {
    &&& names_source(kv, canon, k)
    &&& forall|other: Seq<char>| #[trigger]
        names_source(kv, canon, other) ==> other == k || text::precedes(other, k)
}

/// The value of a canonical key: where several forms of the key have one, the
/// last form in the order of texts decides.
pub open spec fn source_value(kv: Map<Seq<char>, Seq<char>>, canon: Seq<char>) -> Option<
    Seq<char>,
> {
    if exists|k: Seq<char>| names_source(kv, canon, k) {
        Some(text::trimmed(kv[choose|k: Seq<char>| decides_source(kv, canon, k)]))
    } else {
        None
    }
}

/// `canon=value`, where the canonical key has a value.
pub open spec fn source_part(kv: Map<Seq<char>, Seq<char>>, canon: Seq<char>) -> Seq<Seq<char>> {
    match source_value(kv, canon) {
        Some(value) => seq![canon + "="@ + value],
        None => Seq::empty(),
    }
}

/// The parts of a model identity, in the order of the canonical keys.
pub open spec fn identity_parts(kv: Map<Seq<char>, Seq<char>>) -> Seq<Seq<char>> {
    source_part(kv, "model"@) + source_part(kv, "model-url"@) + source_part(kv, "hf-repo"@)
        + source_part(kv, "hf-file"@)
}

/// The texts with `;` between them.
pub open spec fn joined_parts(parts: Seq<Seq<char>>) -> Seq<char>
    decreases parts.len(),
{
    if parts.len() == 0 {
        Seq::empty()
    } else if parts.len() == 1 {
        parts[0]
    } else {
        joined_parts(parts.drop_last()) + ";"@ + parts.last()
    }
}

/// The identity of the model that the keys of `kv` name.
pub open spec fn model_identity(kv: Map<Seq<char>, Seq<char>>) -> Seq<char> {
    joined_parts(identity_parts(kv))
}

/// At most one key decides.
pub proof fn lemma_one_decides(
    kv: Map<Seq<char>, Seq<char>>,
    canon: Seq<char>,
    k: Seq<char>,
)
    requires
        decides_source(kv, canon, k),
    ensures
        source_value(kv, canon) == Some(text::trimmed(kv[k])),
{
    let chosen = choose|j: Seq<char>| decides_source(kv, canon, j);
    assert(names_source(kv, canon, k));
    if chosen != k {
        text::law_precedes_antisymmetric(chosen, k);
    }
}

/// What one more key does, where it comes after all others.
proof fn lemma_next_key(
    kv: Map<Seq<char>, Seq<char>>,
    canon: Seq<char>,
    k: Seq<char>,
    v: Seq<char>,
    best: Option<Seq<char>>,
)
    requires
        forall|other: Seq<char>| kv.contains_key(other) ==> text::precedes(other, k),
        match best {
            Some(b) => decides_source(kv, canon, b),
            None => forall|other: Seq<char>| !names_source(kv, canon, other),
        },
    ensures
        ({
            let more = kv.insert(k, v);
            if names_source(more, canon, k) {
                decides_source(more, canon, k)
            } else {
                match best {
                    Some(b) => decides_source(more, canon, b) && more[b] == kv[b],
                    None => forall|other: Seq<char>| !names_source(more, canon, other),
                }
            }
        }),
{
    let more = kv.insert(k, v);
    if kv.contains_key(k) {
        text::law_precedes_irreflexive(k);
    }
    assert forall|other: Seq<char>|
        other != k implies names_source(more, canon, other) == names_source(kv, canon, other) by {}
    if names_source(more, canon, k) {
        assert forall|other: Seq<char>| #[trigger]
            names_source(more, canon, other) implies other == k || text::precedes(other, k) by {}
    } else if let Some(b) = best {
        assert(names_source(kv, canon, b));
        assert(names_source(more, canon, b));
        assert forall|other: Seq<char>| #[trigger]
            names_source(more, canon, other) implies other == b || text::precedes(other, b) by {
            assert(names_source(kv, canon, other));
        }
    }
}

/// The value of a canonical key.
pub fn find_source(kv: &Table<String>, canon: &str) -> (r: Option<String>)
    ensures
        match r {
            Some(value) => source_value(ini::texts(*kv), canon@) == Some(value@),
            None => source_value(ini::texts(*kv), canon@) is None,
        },
{
    let len = kv.len();
    let mut found: Option<String> = None;
    let ghost mut best: Option<Seq<char>> = None;
    let mut i: usize = 0;
    proof {
        table::lemma_map_of_none(kv.pairs());
    }
    while i < len
        invariant
            i <= len == kv.pairs().len(),
            table::ascending(kv.pairs()),
            match best {
                Some(b) => decides_source(ini::texts_before(*kv, i as int), canon@, b) && (
                found matches Some(value) && value@ == text::trimmed(
                    ini::texts_before(*kv, i as int)[b],
                )),
                None => found is None && forall|other: Seq<char>|
                    !names_source(ini::texts_before(*kv, i as int), canon@, other),
            },
        decreases len - i,
    {
        let key = kv.key_at(i);
        let value = kv.value_at(i);
        proof {
            ini::lemma_texts_before(*kv, i as int);
            lemma_next_key(ini::texts_before(*kv, i as int), canon@, key@, value@, best);
        }
        if let Some(form) = get_canonical_model_id_key(key) {
            if same_text(form, canon) {
                let trimmed = value.as_str().trim();
                if !trimmed.is_empty() {
                    found = Some(trimmed.to_owned());
                    proof {
                        best = Some(key@);
                    }
                }
            }
        }
        i += 1;
    }
    proof {
        table::lemma_map_of_none(kv.pairs());
        assert(ini::texts_before(*kv, len as int) =~= ini::texts(*kv));
        if let Some(b) = best {
            lemma_one_decides(ini::texts(*kv), canon@, b);
        }
    }
    found
}

/// The characters of some texts.
pub open spec fn part_texts(parts: Seq<String>) -> Seq<Seq<char>> {
    parts.map_values(|p: String| p@)
}

/// Adds `canon=value` to the parts, if the canonical key has a value.
fn push_part(parts: &mut Vec<String>, kv: &Table<String>, canon: &str)
    ensures
        part_texts(final(parts)@) == part_texts(old(parts)@) + source_part(
            ini::texts(*kv),
            canon@,
        ),
{
    if let Some(value) = find_source(kv, canon) {
        let mut part = joined(canon, "=");
        part.append(value.as_str());
        parts.push(part);
    }
    assert(part_texts(parts@) =~= part_texts(old(parts)@) + source_part(ini::texts(*kv), canon@));
}

/// The texts with `;` between them.
fn join_parts(parts: &Vec<String>) -> (r: String)
    ensures
        r@ == joined_parts(part_texts(parts@)),
{
    let ghost all = part_texts(parts@);
    let mut out = String::new();
    let mut i: usize = 0;
    while i < parts.len()
        invariant
            i <= parts@.len(),
            all == part_texts(parts@),
            out@ == joined_parts(all.take(i as int)),
        decreases parts@.len() - i,
    {
        if i > 0 {
            out.append(";");
        }
        out.append(parts[i].as_str());
        i += 1;
        proof {
            assert(all.take(i as int).drop_last() =~= all.take(i - 1));
            assert(all.take(i as int).last() == parts@[i - 1]@);
            if i == 1 {
                assert(out@ =~= parts@[0]@);
            }
        }
    }
    assert(all.take(all.len() as int) =~= all);
    out
}

/// The identity of the model that the keys of `kv` name: `canon=value` for
/// each of the keys `model`, `model-url`, `hf-repo` and `hf-file` that has a
/// value which is not blank, with `;` between them.
pub fn compute_model_id(kv: &Table<String>) -> (r: String)
    ensures
        r@ == model_identity(ini::texts(*kv)),
{
    let mut parts: Vec<String> = Vec::new();
    assert(part_texts(parts@) =~= Seq::<Seq<char>>::empty());
    push_part(&mut parts, kv, "model");
    push_part(&mut parts, kv, "model-url");
    push_part(&mut parts, kv, "hf-repo");
    push_part(&mut parts, kv, "hf-file");
    assert(part_texts(parts@) =~= identity_parts(ini::texts(*kv)));
    join_parts(&parts)
}

} // verus!
