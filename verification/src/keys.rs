//! The INI keys that presets are made of.

use crate::text;
use crate::text::same_text;
use vstd::prelude::*;

verus! {

broadcast use vstd::string::group_string_axioms;

/// The long form of a key that says where a model comes from.
pub open spec fn canonical_key(k: Seq<char>) -> Option<Seq<char>> {
    if k == "model"@ || k == "m"@ {
        Some("model"@)
    } else if k == "model-url"@ || k == "mu"@ {
        Some("model-url"@)
    } else if k == "hf-repo"@ || k == "hf"@ || k == "hfr"@ {
        Some("hf-repo"@)
    } else if k == "hf-file"@ || k == "hff"@ {
        Some("hf-file"@)
    } else {
        None
    }
}

/// The long form of a key that says where a model comes from.
pub fn get_canonical_model_id_key(k: &str) -> (r: Option<&'static str>)
    ensures
        match r {
            Some(canon) => canonical_key(k@) == Some(canon@),
            None => canonical_key(k@) is None,
        },
{
    if same_text(k, "model") || same_text(k, "m") {
        Some("model")
    } else if same_text(k, "model-url") || same_text(k, "mu") {
        Some("model-url")
    } else if same_text(k, "hf-repo") || same_text(k, "hf") || same_text(k, "hfr") {
        Some("hf-repo")
    } else if same_text(k, "hf-file") || same_text(k, "hff") {
        Some("hf-file")
    } else {
        None
    }
}

/// The name in a request body of the sampling parameter that an INI key sets.
pub open spec fn sampling_key(k: Seq<char>) -> Option<Seq<char>> {
    if k == "temp"@ {
        Some("temperature"@)
    } else if k == "top-k"@ {
        Some("top_k"@)
    } else if k == "top-p"@ {
        Some("top_p"@)
    } else if k == "min-p"@ {
        Some("min_p"@)
    } else if k == "repeat-penalty"@ {
        Some("repeat_penalty"@)
    } else if k == "presence-penalty"@ {
        Some("presence_penalty"@)
    } else if k == "frequency-penalty"@ {
        Some("frequency_penalty"@)
    } else if k == "repeat-last-n"@ {
        Some("repeat_last_n"@)
    } else if k == "top-nsigma"@ {
        Some("top_n_sigma"@)
    } else if k == "xtc-probability"@ {
        Some("xtc_probability"@)
    } else if k == "xtc-threshold"@ {
        Some("xtc_threshold"@)
    } else if k == "typical"@ {
        Some("typical_p"@)
    } else if k == "dry-multiplier"@ {
        Some("dry_multiplier"@)
    } else if k == "dry-base"@ {
        Some("dry_base"@)
    } else if k == "dry-allowed-length"@ {
        Some("dry_allowed_length"@)
    } else if k == "dry-penalty-last-n"@ {
        Some("dry_penalty_last_n"@)
    } else if k == "mirostat"@ {
        Some("mirostat"@)
    } else if k == "mirostat-tau"@ {
        Some("mirostat_tau"@)
    } else if k == "mirostat-eta"@ {
        Some("mirostat_eta"@)
    } else if k == "seed"@ {
        Some("seed"@)
    } else {
        None
    }
}

/// The name in a request body of the sampling parameter that an INI key sets.
pub fn get_sparam_json_key(k: &str) -> (r: Option<&'static str>)
    ensures
        match r {
            Some(name) => sampling_key(k@) == Some(name@),
            None => sampling_key(k@) is None,
        },
{
    if same_text(k, "temp") {
        Some("temperature")
    } else if same_text(k, "top-k") {
        Some("top_k")
    } else if same_text(k, "top-p") {
        Some("top_p")
    } else if same_text(k, "min-p") {
        Some("min_p")
    } else if same_text(k, "repeat-penalty") {
        Some("repeat_penalty")
    } else if same_text(k, "presence-penalty") {
        Some("presence_penalty")
    } else if same_text(k, "frequency-penalty") {
        Some("frequency_penalty")
    } else if same_text(k, "repeat-last-n") {
        Some("repeat_last_n")
    } else if same_text(k, "top-nsigma") {
        Some("top_n_sigma")
    } else if same_text(k, "xtc-probability") {
        Some("xtc_probability")
    } else if same_text(k, "xtc-threshold") {
        Some("xtc_threshold")
    } else if same_text(k, "typical") {
        Some("typical_p")
    } else if same_text(k, "dry-multiplier") {
        Some("dry_multiplier")
    } else if same_text(k, "dry-base") {
        Some("dry_base")
    } else if same_text(k, "dry-allowed-length") {
        Some("dry_allowed_length")
    } else if same_text(k, "dry-penalty-last-n") {
        Some("dry_penalty_last_n")
    } else if same_text(k, "mirostat") {
        Some("mirostat")
    } else if same_text(k, "mirostat-tau") {
        Some("mirostat_tau")
    } else if same_text(k, "mirostat-eta") {
        Some("mirostat_eta")
    } else if same_text(k, "seed") {
        Some("seed")
    } else {
        None
    }
}

/// The lengths and some characters of the parameter names, by which they
/// differ.
pub proof fn lemma_sampling_names()
    ensures
        "temperature"@.len() == 11 && "temperature"@[1] == 'e',
        "top_k"@.len() == 5 && "top_k"@[0] == 't' && "top_k"@[4] == 'k',
        "top_p"@.len() == 5 && "top_p"@[0] == 't' && "top_p"@[4] == 'p',
        "min_p"@.len() == 5 && "min_p"@[0] == 'm',
        "repeat_penalty"@.len() == 14 && "repeat_penalty"@[0] == 'r',
        "presence_penalty"@.len() == 16,
        "frequency_penalty"@.len() == 17,
        "repeat_last_n"@.len() == 13 && "repeat_last_n"@[0] == 'r',
        "top_n_sigma"@.len() == 11 && "top_n_sigma"@[1] == 'o',
        "xtc_probability"@.len() == 15,
        "xtc_threshold"@.len() == 13 && "xtc_threshold"@[0] == 'x',
        "typical_p"@.len() == 9,
        "dry_multiplier"@.len() == 14 && "dry_multiplier"@[0] == 'd',
        "dry_base"@.len() == 8 && "dry_base"@[0] == 'd',
        "dry_allowed_length"@.len() == 18 && "dry_allowed_length"@[4] == 'a',
        "dry_penalty_last_n"@.len() == 18 && "dry_penalty_last_n"@[4] == 'p',
        "mirostat"@.len() == 8 && "mirostat"@[0] == 'm',
        "mirostat_tau"@.len() == 12 && "mirostat_tau"@[9] == 't',
        "mirostat_eta"@.len() == 12 && "mirostat_eta"@[9] == 'e',
        "seed"@.len() == 4,
{
    reveal_strlit("temperature");
    reveal_strlit("top_k");
    reveal_strlit("top_p");
    reveal_strlit("min_p");
    reveal_strlit("repeat_penalty");
    reveal_strlit("presence_penalty");
    reveal_strlit("frequency_penalty");
    reveal_strlit("repeat_last_n");
    reveal_strlit("top_n_sigma");
    reveal_strlit("xtc_probability");
    reveal_strlit("xtc_threshold");
    reveal_strlit("typical_p");
    reveal_strlit("dry_multiplier");
    reveal_strlit("dry_base");
    reveal_strlit("dry_allowed_length");
    reveal_strlit("dry_penalty_last_n");
    reveal_strlit("mirostat");
    reveal_strlit("mirostat_tau");
    reveal_strlit("mirostat_eta");
    reveal_strlit("seed");
}

/// No two INI keys set the same sampling parameter.
pub proof fn law_sampling_keys_injective(a: Seq<char>, b: Seq<char>)
    requires
        sampling_key(a) is Some,
        sampling_key(a) == sampling_key(b),
    ensures
        a == b,
{
    lemma_sampling_names();
}

/// The texts that say yes, in lower case.
pub open spec fn says_yes(v: Seq<char>) -> bool {
    v == "on"@ || v == "enabled"@ || v == "true"@ || v == "1"@
}

/// The texts that leave the choice open, in lower case.
pub open spec fn says_auto(v: Seq<char>) -> bool {
    v == "auto"@ || v == "-1"@
}

/// Whether a text in lower case says yes.
pub fn is_yes(lower: &str) -> (r: bool)
    ensures
        r == says_yes(lower@),
{
    same_text(lower, "on") || same_text(lower, "enabled") || same_text(lower, "true") || same_text(
        lower,
        "1",
    )
}

/// Whether a text in lower case leaves the choice open.
pub fn is_auto(lower: &str) -> (r: bool)
    ensures
        r == says_auto(lower@),
{
    same_text(lower, "auto") || same_text(lower, "-1")
}

/// Whether a setting says yes, in any case.
pub fn is_truthy(v: &str) -> (r: bool)
    ensures
        r == says_yes(text::lowercase(v@)),
        vstd::utf8::is_ascii_chars(v@) ==> r == says_yes(text::ascii_lower(v@)),
{
    let lower = v.to_lowercase();
    is_yes(lower.as_str())
}

/// Whether a setting leaves the choice open, in any case.
pub fn is_autoy(v: &str) -> (r: bool)
    ensures
        r == says_auto(text::lowercase(v@)),
        vstd::utf8::is_ascii_chars(v@) ==> r == says_auto(text::ascii_lower(v@)),
{
    let lower = v.to_lowercase();
    is_auto(lower.as_str())
}

// ---------------------------------------------------------------------------
// Laws
// ---------------------------------------------------------------------------

/// The characters of the canonical keys, by which they differ.
proof fn lemma_canonical_names()
    ensures
        "model"@.len() == 5,
        "model-url"@.len() == 9,
        "hf-repo"@.len() == 7 && "hf-repo"@[3] == 'r',
        "hf-file"@.len() == 7 && "hf-file"@[3] == 'f',
        "m"@.len() == 1,
        "mu"@.len() == 2 && "mu"@[0] == 'm',
        "hf"@.len() == 2 && "hf"@[0] == 'h',
        "hfr"@.len() == 3 && "hfr"@[2] == 'r',
        "hff"@.len() == 3 && "hff"@[2] == 'f',
{
    reveal_strlit("model");
    reveal_strlit("model-url");
    reveal_strlit("hf-repo");
    reveal_strlit("hf-file");
    reveal_strlit("m");
    reveal_strlit("mu");
    reveal_strlit("hf");
    reveal_strlit("hfr");
    reveal_strlit("hff");
}

/// The forms of each key that says where a model comes from. No other key says
/// so.
pub proof fn law_forms_of_source_keys(k: Seq<char>)
    ensures
        (canonical_key(k) == Some("model"@)) == (k == "model"@ || k == "m"@),
        (canonical_key(k) == Some("model-url"@)) == (k == "model-url"@ || k == "mu"@),
        (canonical_key(k) == Some("hf-repo"@)) == (k == "hf-repo"@ || k == "hf"@ || k == "hfr"@),
        (canonical_key(k) == Some("hf-file"@)) == (k == "hf-file"@ || k == "hff"@),
        canonical_key(k) is Some ==> canonical_key(k) == Some("model"@) || canonical_key(k) == Some(
            "model-url"@,
        ) || canonical_key(k) == Some("hf-repo"@) || canonical_key(k) == Some("hf-file"@),
{
    lemma_canonical_names();
}

/// The lengths and some characters of the keys of sampling parameters, by which
/// they differ.
proof fn lemma_sampling_keys()
    ensures
        "temp"@.len() == 4 && "temp"@[0] == 't',
        "top-k"@.len() == 5 && "top-k"@[0] == 't' && "top-k"@[4] == 'k',
        "top-p"@.len() == 5 && "top-p"@[0] == 't' && "top-p"@[4] == 'p',
        "min-p"@.len() == 5 && "min-p"@[0] == 'm' && "min-p"@[4] == 'p',
        "repeat-penalty"@.len() == 14 && "repeat-penalty"@[0] == 'r',
        "presence-penalty"@.len() == 16,
        "frequency-penalty"@.len() == 17,
        "repeat-last-n"@.len() == 13 && "repeat-last-n"@[0] == 'r',
        "top-nsigma"@.len() == 10,
        "xtc-probability"@.len() == 15,
        "xtc-threshold"@.len() == 13 && "xtc-threshold"@[0] == 'x',
        "typical"@.len() == 7,
        "dry-multiplier"@.len() == 14 && "dry-multiplier"@[0] == 'd',
        "dry-base"@.len() == 8 && "dry-base"@[0] == 'd',
        "dry-allowed-length"@.len() == 18 && "dry-allowed-length"@[4] == 'a',
        "dry-penalty-last-n"@.len() == 18 && "dry-penalty-last-n"@[4] == 'p',
        "mirostat"@.len() == 8 && "mirostat"@[0] == 'm',
        "mirostat-tau"@.len() == 12 && "mirostat-tau"@[9] == 't',
        "mirostat-eta"@.len() == 12 && "mirostat-eta"@[9] == 'e',
        "seed"@.len() == 4 && "seed"@[0] == 's',
{
    reveal_strlit("temp");
    reveal_strlit("top-k");
    reveal_strlit("top-p");
    reveal_strlit("min-p");
    reveal_strlit("repeat-penalty");
    reveal_strlit("presence-penalty");
    reveal_strlit("frequency-penalty");
    reveal_strlit("repeat-last-n");
    reveal_strlit("top-nsigma");
    reveal_strlit("xtc-probability");
    reveal_strlit("xtc-threshold");
    reveal_strlit("typical");
    reveal_strlit("dry-multiplier");
    reveal_strlit("dry-base");
    reveal_strlit("dry-allowed-length");
    reveal_strlit("dry-penalty-last-n");
    reveal_strlit("mirostat");
    reveal_strlit("mirostat-tau");
    reveal_strlit("mirostat-eta");
    reveal_strlit("seed");
}

/// The key that sets each sampling parameter. No other parameter is set by a
/// key.
pub proof fn law_keys_of_parameters(k: Seq<char>)
    ensures
        (sampling_key(k) == Some("temperature"@)) == (k == "temp"@),
        (sampling_key(k) == Some("top_k"@)) == (k == "top-k"@),
        (sampling_key(k) == Some("top_p"@)) == (k == "top-p"@),
        (sampling_key(k) == Some("min_p"@)) == (k == "min-p"@),
        (sampling_key(k) == Some("repeat_penalty"@)) == (k == "repeat-penalty"@),
        (sampling_key(k) == Some("presence_penalty"@)) == (k == "presence-penalty"@),
        (sampling_key(k) == Some("frequency_penalty"@)) == (k == "frequency-penalty"@),
        (sampling_key(k) == Some("repeat_last_n"@)) == (k == "repeat-last-n"@),
        (sampling_key(k) == Some("top_n_sigma"@)) == (k == "top-nsigma"@),
        (sampling_key(k) == Some("xtc_probability"@)) == (k == "xtc-probability"@),
        (sampling_key(k) == Some("xtc_threshold"@)) == (k == "xtc-threshold"@),
        (sampling_key(k) == Some("typical_p"@)) == (k == "typical"@),
        (sampling_key(k) == Some("dry_multiplier"@)) == (k == "dry-multiplier"@),
        (sampling_key(k) == Some("dry_base"@)) == (k == "dry-base"@),
        (sampling_key(k) == Some("dry_allowed_length"@)) == (k == "dry-allowed-length"@),
        (sampling_key(k) == Some("dry_penalty_last_n"@)) == (k == "dry-penalty-last-n"@),
        (sampling_key(k) == Some("mirostat"@)) == (k == "mirostat"@),
        (sampling_key(k) == Some("mirostat_tau"@)) == (k == "mirostat-tau"@),
        (sampling_key(k) == Some("mirostat_eta"@)) == (k == "mirostat-eta"@),
        (sampling_key(k) == Some("seed"@)) == (k == "seed"@),
        sampling_key(k) is Some ==> sampling_key(k) == Some(
            "temperature"@,
        ) || sampling_key(k) == Some(
            "top_k"@,
        ) || sampling_key(k) == Some(
            "top_p"@,
        ) || sampling_key(k) == Some(
            "min_p"@,
        ) || sampling_key(k) == Some(
            "repeat_penalty"@,
        ) || sampling_key(k) == Some(
            "presence_penalty"@,
        ) || sampling_key(k) == Some(
            "frequency_penalty"@,
        ) || sampling_key(k) == Some(
            "repeat_last_n"@,
        ) || sampling_key(k) == Some(
            "top_n_sigma"@,
        ) || sampling_key(k) == Some(
            "xtc_probability"@,
        ) || sampling_key(k) == Some(
            "xtc_threshold"@,
        ) || sampling_key(k) == Some(
            "typical_p"@,
        ) || sampling_key(k) == Some(
            "dry_multiplier"@,
        ) || sampling_key(k) == Some(
            "dry_base"@,
        ) || sampling_key(k) == Some(
            "dry_allowed_length"@,
        ) || sampling_key(k) == Some(
            "dry_penalty_last_n"@,
        ) || sampling_key(k) == Some(
            "mirostat"@,
        ) || sampling_key(k) == Some(
            "mirostat_tau"@,
        ) || sampling_key(k) == Some(
            "mirostat_eta"@,
        ) || sampling_key(k) == Some(
            "seed"@,
        ),
{
    lemma_sampling_names();
    lemma_sampling_keys();
}

} // verus!
