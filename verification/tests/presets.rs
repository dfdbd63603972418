use llama_preset_proxy::identity::compute_model_id;
use llama_preset_proxy::json::Json;
use llama_preset_proxy::keys::{
    get_canonical_model_id_key, get_sparam_json_key, is_auto, is_autoy, is_truthy, is_yes,
};
use llama_preset_proxy::models::{
    bad_presets, models_data, models_url, presets_from_models_json, ModelsError,
};
use llama_preset_proxy::preset::{build_presets_from_sections, Preset};
use llama_preset_proxy::settings::{number_or_text, parse_integer, setting_value};
use llama_preset_proxy::table::Table;
use llama_preset_proxy::wire::parse_json;
use serde_json::Number;

fn kv(pairs: &[(&str, &str)]) -> Table<String> {
    let mut out = Table::new();
    for (k, v) in pairs {
        out.insert(k.to_string(), v.to_string());
    }
    out
}

fn sections(data: &[(&str, &[(&str, &str)])]) -> Table<Table<String>> {
    let mut out = Table::new();
    for (sec, pairs) in data {
        out.insert(sec.to_string(), kv(pairs));
    }
    out
}

fn fields(pairs: &[(&str, Json)]) -> Table<Json> {
    let mut out = Table::new();
    for (k, v) in pairs {
        out.insert(k.to_string(), v.copy());
    }
    out
}

fn preset_with(params: &[(&str, Json)], ctk: &[(&str, Json)]) -> Preset {
    Preset {
        name: "test".to_string(),
        model_id: "model=test.gguf".to_string(),
        params: fields(params),
        chat_template_kwargs: fields(ctk),
    }
}

fn float(f: f64) -> Json {
    Json::Number(Number::from_f64(f).unwrap())
}

fn integer(i: i64) -> Json {
    Json::Number(Number::from(i))
}

fn text(s: &str) -> Json {
    Json::Text(s.to_string())
}

fn read(s: &str) -> Json {
    parse_json(s.as_bytes()).unwrap()
}

fn body(s: &str) -> Table<Json> {
    match read(s) {
        Json::Object(t) => t,
        _ => panic!("not an object"),
    }
}

fn entry(id: &str, preset: &str) -> Json {
    Json::Object(fields(&[
        ("id", text(id)),
        ("status", Json::Object(fields(&[("preset", text(preset))]))),
    ]))
}

fn param<'a>(p: &'a Table<Preset>, alias: &str, name: &str) -> Option<&'a Json> {
    p.get(alias).unwrap().params.get(name)
}

// -- compute_model_id --------------------------------------------------------

#[test]
fn model_id_empty_when_no_identity_keys() {
    assert_eq!(
        compute_model_id(&kv(&[("temp", "0.7"), ("top-k", "20")])),
        ""
    );
}

#[test]
fn model_id_single_hf_repo() {
    assert_eq!(
        compute_model_id(&kv(&[("hf-repo", "org/model:Q4")])),
        "hf-repo=org/model:Q4"
    );
}

#[test]
fn model_id_short_form_hf_equals_long_form() {
    let short = compute_model_id(&kv(&[("hf", "org/model:Q4")]));
    let long = compute_model_id(&kv(&[("hf-repo", "org/model:Q4")]));
    assert_eq!(short, long);
}

#[test]
fn model_id_short_form_m_equals_long_form() {
    let short = compute_model_id(&kv(&[("m", "/path/model.gguf")]));
    let long = compute_model_id(&kv(&[("model", "/path/model.gguf")]));
    assert_eq!(short, long);
}

#[test]
fn model_id_short_form_hfr_equals_hf_repo() {
    let a = compute_model_id(&kv(&[("hfr", "org/model:Q4")]));
    let b = compute_model_id(&kv(&[("hf-repo", "org/model:Q4")]));
    assert_eq!(a, b);
}

#[test]
fn model_id_stable_ordering_independent_of_insertion() {
    let id = compute_model_id(&kv(&[("hf-file", "model.gguf"), ("hf-repo", "org/repo")]));
    assert_eq!(id, "hf-repo=org/repo;hf-file=model.gguf");
}

#[test]
fn model_id_empty_value_ignored() {
    let id = compute_model_id(&kv(&[("hf-repo", ""), ("model", "test.gguf")]));
    assert_eq!(id, "model=test.gguf");
}

#[test]
fn model_id_whitespace_trimmed() {
    let id = compute_model_id(&kv(&[("hf-repo", "  org/model:Q4  ")]));
    assert_eq!(id, "hf-repo=org/model:Q4");
}

#[test]
fn model_id_conflicting_aliases_deterministic() {
    for _ in 0..16 {
        let id = compute_model_id(&kv(&[("m", "B.gguf"), ("model", "A.gguf")]));
        assert_eq!(id, "model=A.gguf");
    }
}

#[test]
fn model_id_of_all_four_sources_in_order() {
    let id = compute_model_id(&kv(&[
        ("hff", "f"),
        ("hf", "r"),
        ("mu", "u"),
        ("m", "p"),
    ]));
    assert_eq!(id, "model=p;model-url=u;hf-repo=r;hf-file=f");
}

#[test]
fn model_id_last_form_in_order_decides() {
    let id = compute_model_id(&kv(&[("hf", "1"), ("hf-repo", "2"), ("hfr", "3")]));
    assert_eq!(id, "hf-repo=3");
    let id = compute_model_id(&kv(&[("hf", "1"), ("hf-repo", "2"), ("hfr", " ")]));
    assert_eq!(id, "hf-repo=2");
    let id = compute_model_id(&kv(&[("mu", "short"), ("model-url", "long")]));
    assert_eq!(id, "model-url=short");
    let id = compute_model_id(&kv(&[("hff", "short"), ("hf-file", "long")]));
    assert_eq!(id, "hf-file=short");
}

#[test]
fn model_id_same_just_where_sources_are() {
    let a = kv(&[("m", "x"), ("temp", "1")]);
    let b = kv(&[("model", " x "), ("seed", "7")]);
    let c = kv(&[("model-url", "x")]);
    assert_eq!(compute_model_id(&a), compute_model_id(&b));
    assert_ne!(compute_model_id(&a), compute_model_id(&c));
}

// -- keys ----------------------------------------------------------------------

#[test]
fn canonical_keys() {
    for (k, canon) in [
        ("model", "model"),
        ("m", "model"),
        ("model-url", "model-url"),
        ("mu", "model-url"),
        ("hf-repo", "hf-repo"),
        ("hf", "hf-repo"),
        ("hfr", "hf-repo"),
        ("hf-file", "hf-file"),
        ("hff", "hf-file"),
    ] {
        assert_eq!(get_canonical_model_id_key(k), Some(canon));
    }
    assert_eq!(get_canonical_model_id_key("Model"), None);
    assert_eq!(get_canonical_model_id_key(""), None);
}

#[test]
fn sampling_keys() {
    for (k, name) in [
        ("temp", "temperature"),
        ("top-k", "top_k"),
        ("top-p", "top_p"),
        ("min-p", "min_p"),
        ("repeat-penalty", "repeat_penalty"),
        ("presence-penalty", "presence_penalty"),
        ("frequency-penalty", "frequency_penalty"),
        ("repeat-last-n", "repeat_last_n"),
        ("top-nsigma", "top_n_sigma"),
        ("xtc-probability", "xtc_probability"),
        ("xtc-threshold", "xtc_threshold"),
        ("typical", "typical_p"),
        ("dry-multiplier", "dry_multiplier"),
        ("dry-base", "dry_base"),
        ("dry-allowed-length", "dry_allowed_length"),
        ("dry-penalty-last-n", "dry_penalty_last_n"),
        ("mirostat", "mirostat"),
        ("mirostat-tau", "mirostat_tau"),
        ("mirostat-eta", "mirostat_eta"),
        ("seed", "seed"),
    ] {
        assert_eq!(get_sparam_json_key(k), Some(name));
    }
    assert_eq!(get_sparam_json_key("temperature"), None);
    assert_eq!(get_sparam_json_key("reasoning"), None);
}

#[test]
fn truthy_recognises_all_variants() {
    for v in &[
        "on", "ON", "On", "enabled", "ENABLED", "true", "TRUE", "True", "1",
    ] {
        assert!(is_truthy(v), "{v:?} should be truthy");
    }
}

#[test]
fn truthy_rejects_non_truthy() {
    for v in &["off", "false", "0", "", "disabled", "no", "yes", "2"] {
        assert!(!is_truthy(v), "{v:?} should not be truthy");
    }
}

#[test]
fn autoy_recognises_all_variants() {
    for v in &["auto", "AUTO", "Auto", "-1"] {
        assert!(is_autoy(v), "{v:?} should be autoy");
    }
}

#[test]
fn autoy_rejects_non_autoy() {
    for v in &["on", "off", "0", "1", "true", "false", ""] {
        assert!(!is_autoy(v), "{v:?} should not be autoy");
    }
}

// -- settings ------------------------------------------------------------------

#[test]
fn settings_become_json() {
    assert_eq!(setting_value("20"), integer(20));
    assert_eq!(setting_value("+20"), integer(20));
    assert_eq!(setting_value("-1"), integer(-1));
    assert_eq!(setting_value("007"), integer(7));
    assert_eq!(setting_value("0.7"), float(0.7));
    assert_eq!(setting_value("1e3"), float(1000.0));
    assert_eq!(setting_value("inf"), text("inf"));
    assert_eq!(setting_value(""), text(""));
    assert_eq!(setting_value("-"), text("-"));
    assert_eq!(setting_value("1 2"), text("1 2"));
}

#[test]
fn lower_case_settings_are_told_apart() {
    for v in ["on", "enabled", "true", "1"] {
        assert!(is_yes(v) && !is_auto(v), "{v:?}");
    }
    for v in ["auto", "-1"] {
        assert!(is_auto(v) && !is_yes(v), "{v:?}");
    }
    for v in ["ON", "Auto", "", "off"] {
        assert!(!is_yes(v) && !is_auto(v), "{v:?}");
    }
}

#[test]
fn numbers_stay_and_other_settings_are_text() {
    assert_eq!(number_or_text("0.5", Number::from_f64(0.5)), float(0.5));
    assert_eq!(number_or_text("x", None), text("x"));
}

#[test]
fn settings_at_the_ends_of_the_integers() {
    assert_eq!(
        setting_value("18446744073709551615"),
        Json::Number(Number::from(u64::MAX))
    );
    assert_eq!(
        setting_value("18446744073709551616"),
        float(18446744073709551616.0)
    );
    assert_eq!(
        setting_value("-9223372036854775808"),
        Json::Number(Number::from(i64::MIN))
    );
    assert_eq!(
        setting_value("-9223372036854775809"),
        float(-9223372036854775809.0)
    );
}

#[test]
fn integers_are_parsed() {
    assert_eq!(parse_integer("42"), Some(42));
    assert_eq!(parse_integer("-42"), Some(-42));
    assert_eq!(parse_integer("+0"), Some(0));
    assert_eq!(parse_integer("4.2"), None);
    assert_eq!(parse_integer(""), None);
    assert_eq!(parse_integer("--1"), None);
}

// -- Preset::inject ------------------------------------------------------------

#[test]
fn inject_adds_missing_param() {
    let p = preset_with(&[("temperature", float(0.7))], &[]);
    let result = p.inject(body(r#"{"model":"x"}"#));
    assert_eq!(result.get("temperature"), Some(&float(0.7)));
}

#[test]
fn inject_does_not_overwrite_existing_param() {
    let p = preset_with(&[("temperature", float(0.7))], &[]);
    let result = p.inject(body(r#"{"model":"x","temperature":1.0}"#));
    assert_eq!(result.get("temperature"), Some(&float(1.0)));
}

#[test]
fn inject_merges_chat_template_kwargs_into_absent_field() {
    let p = preset_with(&[], &[("enable_thinking", Json::Bool(true))]);
    let result = p.inject(body(r#"{"model":"x"}"#));
    assert_eq!(
        result
            .get("chat_template_kwargs")
            .unwrap()
            .member("enable_thinking"),
        Some(&Json::Bool(true))
    );
}

#[test]
fn inject_merges_chat_template_kwargs_without_overwriting_existing_keys() {
    let p = preset_with(&[], &[("enable_thinking", Json::Bool(true))]);
    let result = p.inject(body(
        r#"{"model":"x","chat_template_kwargs":{"enable_thinking":false}}"#,
    ));
    assert_eq!(
        result
            .get("chat_template_kwargs")
            .unwrap()
            .member("enable_thinking"),
        Some(&Json::Bool(false))
    );
}

#[test]
fn inject_preserves_additional_ctk_keys_from_client() {
    let p = preset_with(&[], &[("enable_thinking", Json::Bool(true))]);
    let result = p.inject(body(
        r#"{"model":"x","chat_template_kwargs":{"custom_key":"v"}}"#,
    ));
    let kwargs = result.get("chat_template_kwargs").unwrap();
    assert_eq!(kwargs.member("custom_key"), Some(&text("v")));
    assert_eq!(kwargs.member("enable_thinking"), Some(&Json::Bool(true)));
}

#[test]
fn inject_preserves_non_object_chat_template_kwargs() {
    let p = preset_with(&[], &[("enable_thinking", Json::Bool(true))]);
    let result = p.inject(body(
        r#"{"model":"x","chat_template_kwargs":"custom_string"}"#,
    ));
    assert_eq!(
        result.get("chat_template_kwargs"),
        Some(&text("custom_string"))
    );
}

#[test]
fn inject_no_ctk_in_preset_leaves_client_ctk_untouched() {
    let p = preset_with(&[], &[]);
    let result = p.inject(body(r#"{"model":"x","chat_template_kwargs":{"k":"v"}}"#));
    assert_eq!(
        result.get("chat_template_kwargs"),
        Some(&read(r#"{"k": "v"}"#))
    );
}

#[test]
fn inject_multiple_params_mixed_types() {
    let p = preset_with(
        &[
            ("temperature", float(0.6)),
            ("top_k", integer(20)),
            ("seed", integer(-1)),
        ],
        &[],
    );
    let result = p.inject(body(r#"{"model":"x"}"#));
    assert_eq!(result.get("temperature"), Some(&float(0.6)));
    assert_eq!(result.get("top_k"), Some(&integer(20)));
    assert_eq!(result.get("seed"), Some(&integer(-1)));
}

#[test]
fn inject_twice_is_inject_once() {
    let p = preset_with(
        &[("top_k", integer(20)), ("seed", integer(5))],
        &[("enable_thinking", Json::Bool(true))],
    );
    let once = p.inject(body(
        r#"{"model":"x","seed":1,"chat_template_kwargs":{"a":[1,{"b":null}]}}"#,
    ));
    let again = p.copy().inject(p.inject(body(
        r#"{"model":"x","seed":1,"chat_template_kwargs":{"a":[1,{"b":null}]}}"#,
    )));
    assert_eq!(once, again);
    assert_eq!(once.len(), 4);
    assert_eq!(once.get("seed"), Some(&integer(1)));
}

#[test]
fn inject_of_an_empty_preset_changes_nothing() {
    let p = preset_with(&[], &[]);
    let given = r#"{"model":"x","a":[1,2],"b":{"c":true}}"#;
    assert_eq!(p.inject(body(given)), body(given));
}

// -- build_presets_from_sections -----------------------------------------------

#[test]
fn build_global_merged_into_preset() {
    let s = sections(&[
        ("*", &[("temp", "0.7")]),
        ("alias", &[("hf-repo", "org/model:Q4")]),
    ]);
    let p = build_presets_from_sections(s);
    assert_eq!(param(&p, "alias", "temperature"), Some(&float(0.7)));
}

#[test]
fn build_preset_overrides_global() {
    let s = sections(&[
        ("*", &[("temp", "0.7")]),
        ("alias", &[("hf-repo", "org/model:Q4"), ("temp", "0.9")]),
    ]);
    let p = build_presets_from_sections(s);
    assert_eq!(param(&p, "alias", "temperature"), Some(&float(0.9)));
}

#[test]
fn build_default_section_skipped() {
    let s = sections(&[("DEFAULT", &[("temp", "0.5")])]);
    let p = build_presets_from_sections(s);
    assert!(!p.contains_key("DEFAULT"));
}

#[test]
fn build_default_section_case_insensitive() {
    for name in &["default", "Default", "DEFAULT", "dEfAuLt"] {
        let s = sections(&[(name, &[("hf-repo", "org/m:Q4")])]);
        let p = build_presets_from_sections(s);
        assert!(p.is_empty(), "'{name}' section should be skipped");
    }
}

#[test]
fn build_empty_section_name_skipped() {
    let mut s = sections(&[("alias", &[("hf-repo", "org/m:Q4")])]);
    s.insert("".to_string(), kv(&[("temp", "0.5")]));
    let p = build_presets_from_sections(s);
    assert!(!p.contains_key(""));
}

#[test]
fn build_model_id_computed_from_hf_repo() {
    let s = sections(&[("alias", &[("hf-repo", "org/model:Q4_K_M")])]);
    let p = build_presets_from_sections(s);
    assert_eq!(p.get("alias").unwrap().model_id, "hf-repo=org/model:Q4_K_M");
}

#[test]
fn build_no_identity_keys_yields_empty_model_id() {
    let s = sections(&[("alias", &[("temp", "0.7")])]);
    let p = build_presets_from_sections(s);
    assert_eq!(p.get("alias").unwrap().model_id, "");
}

#[test]
fn build_reasoning_off_sets_enable_thinking_false() {
    let s = sections(&[("alias", &[("hf-repo", "org/m:Q4"), ("reasoning", "off")])]);
    let p = build_presets_from_sections(s);
    assert_eq!(
        p.get("alias")
            .unwrap()
            .chat_template_kwargs
            .get("enable_thinking"),
        Some(&Json::Bool(false))
    );
}

#[test]
fn build_reasoning_on_sets_enable_thinking_true() {
    let s = sections(&[("alias", &[("hf-repo", "org/m:Q4"), ("reasoning", "on")])]);
    let p = build_presets_from_sections(s);
    assert_eq!(
        p.get("alias")
            .unwrap()
            .chat_template_kwargs
            .get("enable_thinking"),
        Some(&Json::Bool(true))
    );
}

#[test]
fn build_reasoning_auto_leaves_ctk_empty() {
    let s = sections(&[("alias", &[("hf-repo", "org/m:Q4"), ("reasoning", "auto")])]);
    let p = build_presets_from_sections(s);
    assert!(p.get("alias").unwrap().chat_template_kwargs.is_empty());
}

#[test]
fn build_nan_float_falls_back_to_string() {
    let s = sections(&[("alias", &[("hf-repo", "org/m:Q4"), ("temp", "nan")])]);
    let p = build_presets_from_sections(s);
    assert_eq!(param(&p, "alias", "temperature"), Some(&text("nan")));
}

#[test]
fn build_integer_param_stored_as_number() {
    let s = sections(&[("alias", &[("hf-repo", "org/m:Q4"), ("top-k", "20")])]);
    let p = build_presets_from_sections(s);
    assert_eq!(param(&p, "alias", "top_k"), Some(&integer(20)));
}

#[test]
fn build_two_aliases_same_model_id_differ_in_params() {
    let s = sections(&[
        ("alias-a", &[("hf-repo", "org/model:Q4"), ("temp", "0.6")]),
        ("alias-b", &[("hf-repo", "org/model:Q4"), ("temp", "0.9")]),
    ]);
    let p = build_presets_from_sections(s);
    assert_eq!(
        p.get("alias-a").unwrap().model_id,
        p.get("alias-b").unwrap().model_id
    );
    assert_ne!(
        param(&p, "alias-a", "temperature"),
        param(&p, "alias-b", "temperature")
    );
}

#[test]
fn build_u64_seed_kept_exact() {
    let s = sections(&[(
        "alias",
        &[("hf-repo", "org/m:Q4"), ("seed", "18446744073709551615")],
    )]);
    let p = build_presets_from_sections(s);
    assert_eq!(
        param(&p, "alias", "seed"),
        Some(&Json::Number(Number::from(18446744073709551615_u64)))
    );
}

#[test]
fn build_names_presets_after_their_sections() {
    let s = sections(&[
        ("*", &[("seed", "1")]),
        ("a", &[("m", "x"), ("unknown", "y")]),
        ("b", &[]),
    ]);
    let p = build_presets_from_sections(s);
    assert_eq!(p.len(), 2);
    assert_eq!(p.get("a").unwrap().name, "a");
    assert_eq!(p.get("a").unwrap().params.len(), 1);
    assert_eq!(p.get("b").unwrap().name, "b");
    assert_eq!(param(&p, "b", "seed"), Some(&integer(1)));
}

// -- presets_from_models_json --------------------------------------------------

#[test]
fn json_empty_data_yields_empty_map() {
    assert!(presets_from_models_json(&[]).is_empty());
}

#[test]
fn json_entry_without_status_preset_is_skipped() {
    let data = vec![read(r#"{"id": "alias-a"}"#)];
    assert!(presets_from_models_json(&data).is_empty());
}

#[test]
fn json_single_entry_builds_preset() {
    let data = vec![entry(
        "alias-a",
        "[alias-a]\nhf-repo = org/model:Q4\ntemp = 0.7\n",
    )];
    let p = presets_from_models_json(&data);
    assert!(p.contains_key("alias-a"));
    assert_eq!(p.get("alias-a").unwrap().model_id, "hf-repo=org/model:Q4");
    assert_eq!(param(&p, "alias-a", "temperature"), Some(&float(0.7)));
}

#[test]
fn json_default_section_excluded() {
    let data = vec![entry("alias-a", "[default]\nhf-repo = org/model:Q4\n")];
    assert!(presets_from_models_json(&data).is_empty());
}

#[test]
fn json_global_section_merged_into_preset() {
    let data = vec![entry(
        "alias-a",
        "[*]\ntemp = 0.5\n[alias-a]\nhf-repo = org/model:Q4\n",
    )];
    let p = presets_from_models_json(&data);
    assert_eq!(param(&p, "alias-a", "temperature"), Some(&float(0.5)));
}

#[test]
fn json_two_entries_each_own_preset() {
    let data = vec![
        entry("alias-a", "[alias-a]\nhf-repo = org/model:Q4\ntemp = 0.6\n"),
        entry("alias-b", "[alias-b]\nhf-repo = org/model:Q4\ntemp = 0.9\n"),
    ];
    let p = presets_from_models_json(&data);
    assert_eq!(p.len(), 2);
    assert_eq!(param(&p, "alias-a", "temperature"), Some(&float(0.6)));
    assert_eq!(param(&p, "alias-b", "temperature"), Some(&float(0.9)));
}

#[test]
fn json_bad_preset_text_is_skipped() {
    let data = vec![
        entry("a", "[a\nm = x\n"),
        read(r#"{"id": "n", "status": {"preset": 7}}"#),
        read(r#"{"id": "n", "status": "idle"}"#),
        read("[1]"),
        entry("b", "[b]\nm = x\n"),
    ];
    let p = presets_from_models_json(&data);
    assert_eq!(p.len(), 1);
    assert!(p.contains_key("b"));
}

#[test]
fn json_bad_preset_texts_are_listed() {
    let data = vec![
        entry("a", "[a\nm = x\n"),
        entry("b", "[b]\nm = x\n"),
        read(r#"{"id": "n", "status": {"preset": 7}}"#),
        read(r#"{"id": 3, "status": {"preset": "[s]\nbad key = v\n"}}"#),
    ];
    let bad = bad_presets(&data);
    assert_eq!(bad.len(), 2);
    assert_eq!(bad[0].id, "a");
    assert_eq!(bad[0].error.at, 0);
    assert_eq!(bad[1].id, "?");
    assert_eq!(bad[1].error.at, 4);
    assert!(bad_presets(&[]).is_empty());
}

#[test]
fn json_later_entry_counts_over_earlier() {
    let data = vec![
        entry("a", "[a]\nm = x\nseed = 1\ntop-k = 3\n[*]\nmin-p = 4\n"),
        entry("b", "[a]\nseed = 2\n"),
    ];
    let p = presets_from_models_json(&data);
    assert_eq!(param(&p, "a", "seed"), Some(&integer(2)));
    assert_eq!(param(&p, "a", "top_k"), Some(&integer(3)));
    assert_eq!(param(&p, "a", "min_p"), Some(&integer(4)));
    assert_eq!(p.get("a").unwrap().model_id, "model=x");
}

// -- model lists ---------------------------------------------------------------

#[test]
fn model_lists_are_read() {
    assert_eq!(
        models_url("http://127.0.0.1:8080/v1"),
        "http://127.0.0.1:8080/v1/models"
    );
    let data = models_data(br#"{"object":"list","data":[{"id":"a"},2]}"#).unwrap();
    assert_eq!(data, vec![read(r#"{"id":"a"}"#), integer(2)]);
    assert_eq!(models_data(b"{"), Err(ModelsError::NotJson));
    assert_eq!(models_data(b""), Err(ModelsError::NotJson));
    assert_eq!(models_data(b"[]"), Err(ModelsError::NoData));
    assert_eq!(models_data(b"{}"), Err(ModelsError::NoData));
    assert_eq!(models_data(br#"{"data":{}}"#), Err(ModelsError::NoData));
}

#[test]
fn model_list_errors_have_messages() {
    assert_eq!(
        ModelsError::NotJson.message(),
        "/v1/models response was not valid JSON (error decoding response body)"
    );
    assert_eq!(
        ModelsError::NoData.message(),
        "/v1/models response missing 'data' array"
    );
}
