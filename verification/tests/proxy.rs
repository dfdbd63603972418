use llama_preset_proxy::exchange::{
    take_alias, take_answer, take_body, take_target, Admitted, AfterBody, BodyRead, Head, Outgoing,
};
use llama_preset_proxy::headers::{forward_headers, is_skip_header};
use llama_preset_proxy::intercept::{begin_intercept, finish_intercept, Inspected, PostIntercept};
use llama_preset_proxy::json::Json;
use llama_preset_proxy::models::{find_active_alias, models_data};
use llama_preset_proxy::paths::{forward_path, forward_url, has_dot_segment, path_only, target_url};
use llama_preset_proxy::preset::Preset;
use llama_preset_proxy::refresh::{
    commit_presets, finish_refresh, query_loaded_alias, read_listing, refresh_step, ProbeResult,
    RefreshStep,
};
use llama_preset_proxy::reply::{
    healthz, json_error, readyz, refuse, version, ReadyStep, Refusal, Reply,
};
use llama_preset_proxy::startup::{
    backend_base, backend_root_of, max_body_bytes, retry_delay_secs, take_loaded,
};
use llama_preset_proxy::table::Table;
use llama_preset_proxy::tracker::Tracker;
use llama_preset_proxy::wire::{parse_json, print_json};

const SECOND: u128 = 1_000_000_000;

fn make_preset(model_id: &str) -> Preset {
    Preset {
        name: String::new(),
        model_id: model_id.to_string(),
        params: Table::new(),
        chat_template_kwargs: Table::new(),
    }
}

fn read(s: &str) -> Json {
    parse_json(s.as_bytes()).unwrap()
}

fn loaded_entry(id: &str) -> Json {
    read(&format!(
        r#"{{"id": "{id}", "status": {{"value": "loaded"}}}}"#
    ))
}

fn idle_entry(id: &str) -> Json {
    read(&format!(
        r#"{{"id": "{id}", "status": {{"value": "idle"}}}}"#
    ))
}

fn presets_map(entries: &[(&str, &str)]) -> Table<Preset> {
    let mut out = Table::new();
    for (id, mid) in entries {
        out.insert(id.to_string(), make_preset(mid));
    }
    out
}

fn error_of(r: &Reply) -> String {
    match parse_json(&r.body).unwrap().text("error") {
        Some(t) => t.to_string(),
        None => panic!("no error"),
    }
}

fn admitted(post: bool) -> Admitted {
    Admitted {
        url: "http://127.0.0.1:1/v1/chat/completions".to_string(),
        post,
        headers: vec![],
    }
}

fn whole(s: &str) -> BodyRead {
    BodyRead::Whole(s.as_bytes().to_vec())
}

// -- find_active_alias ---------------------------------------------------------

#[test]
fn find_active_alias_none_when_no_loaded() {
    let data = vec![idle_entry("alias-a")];
    let p = presets_map(&[("alias-a", "model=x")]);
    assert!(find_active_alias(&data, &p, "model=x", "alias-a").is_none());
}

#[test]
fn find_active_alias_returns_fallback() {
    let data = vec![idle_entry("alias-a"), loaded_entry("alias-b")];
    let p = presets_map(&[("alias-a", "model=x"), ("alias-b", "model=x")]);
    assert_eq!(
        find_active_alias(&data, &p, "model=x", "alias-a"),
        Some("alias-b".to_string())
    );
}

#[test]
fn find_active_alias_prefers_preferred_when_loaded() {
    let data = vec![loaded_entry("alias-b"), loaded_entry("alias-a")];
    let p = presets_map(&[("alias-a", "model=x"), ("alias-b", "model=x")]);
    assert_eq!(
        find_active_alias(&data, &p, "model=x", "alias-a"),
        Some("alias-a".to_string())
    );
}

#[test]
fn find_active_alias_ignores_different_model_id() {
    let data = vec![loaded_entry("alias-a")];
    let p = presets_map(&[("alias-a", "model=x")]);
    assert!(find_active_alias(&data, &p, "model=y", "alias-a").is_none());
}

#[test]
fn find_active_alias_takes_the_first_of_several() {
    let data = vec![
        read("7"),
        read(r#"{"id": 3, "status": {"value": "loaded"}}"#),
        read(r#"{"id": "alias-c"}"#),
        loaded_entry("unknown"),
        loaded_entry("alias-c"),
        loaded_entry("alias-b"),
    ];
    let p = presets_map(&[("alias-b", "model=x"), ("alias-c", "model=x")]);
    assert_eq!(
        find_active_alias(&data, &p, "model=x", "alias-a"),
        Some("alias-c".to_string())
    );
}

// -- paths ---------------------------------------------------------------------

const BACKEND: &str = "http://127.0.0.1:1/v1";

/// The status that a GET request gets where the backend does not answer.
fn status_of(target: &str) -> u16 {
    let presets = Table::new();
    let mut tracker = Tracker::new();
    let admitted = match take_target(BACKEND, false, target, vec![]) {
        Ok(admitted) => admitted,
        Err(refusal) => return refusal.status,
    };
    let out = match take_body(admitted, BodyRead::Whole(vec![]), &presets) {
        AfterBody::Send(out) => out,
        AfterBody::Answer(reply) => return reply.status,
        AfterBody::Ask(_, _) => panic!("not a POST"),
    };
    match take_answer(&mut tracker, &out.content.record_active, None, 0) {
        Ok(head) => head.status,
        Err(refusal) => refusal.status,
    }
}

#[test]
fn route_v1_dot_dot_segment_rejected() {
    assert_eq!(forward_url(BACKEND, "/v1/../slots"), None);
    assert_eq!(status_of("/v1/../slots"), 404);
}

#[test]
fn route_v1_dot_dot_deeper_segment_rejected() {
    assert_eq!(forward_url(BACKEND, "/v1/models/../../admin"), None);
    assert_eq!(status_of("/v1/models/../../admin"), 404);
}

#[test]
fn route_v1_percent_encoded_dotdot_rejected() {
    assert_eq!(forward_url(BACKEND, "/v1/%2e%2e/slots"), None);
    assert_eq!(forward_url(BACKEND, "/v1/.%2E/slots"), None);
    assert_eq!(status_of("/v1/%2e%2e/slots"), 404);
}

#[test]
fn route_v1_encoded_slash_dotdot_rejected() {
    assert_eq!(forward_url(BACKEND, "/v1/models/..%2f..%2fadmin"), None);
    assert_eq!(forward_url(BACKEND, "/v1/models%2F.%2Fadmin"), None);
    assert_eq!(status_of("/v1/models/..%2f..%2fadmin"), 404);
}

#[test]
fn route_v1_query_with_dotdot_not_rejected() {
    assert_eq!(
        forward_url(BACKEND, "/v1/models?ref=a/../b"),
        Some("http://127.0.0.1:1/v1/models?ref=a/../b".to_string())
    );
    assert_eq!(status_of("/v1/models?ref=a/../b"), 502);
}

#[test]
fn route_v1_path_reaches_handler() {
    assert_eq!(
        forward_url(BACKEND, "/v1/models"),
        Some("http://127.0.0.1:1/v1/models".to_string())
    );
    assert_ne!(status_of("/v1/models"), 404);
    assert_eq!(status_of("/v1/models"), 502);
}

#[test]
fn escapes_are_forwarded_as_they_are() {
    assert_eq!(
        forward_url(BACKEND, "/v1/a%20b/%zz/%C3%A9?x=%2e"),
        Some("http://127.0.0.1:1/v1/a%20b/%zz/%C3%A9?x=%2e".to_string())
    );
}

#[test]
fn dots_beside_bytes_that_are_no_text_are_rejected() {
    assert_eq!(forward_url(BACKEND, "/v1/%ff/../x"), None);
    assert_eq!(forward_url(BACKEND, "/v1/%e2%82/%2e"), None);
    assert!(forward_url(BACKEND, "/v1/%ff./x").is_some());
    assert!(forward_url(BACKEND, "/v1/%2").is_some());
    for path in ["/v1/%ff", "/v1/.%ff", "/v1/%f0%9f/x", "/v1/%c0%ae", "/v1/a%80.."] {
        assert_eq!(status_of(path), 502, "{path:?}");
    }
}

#[test]
fn dot_segments_are_whole_segments() {
    for path in ["..", ".", "/a/..", "../b", "a/./b", "//.", "/.."] {
        assert!(has_dot_segment(path), "{path:?}");
    }
    for path in ["", "/", "...", "/.a/", "a..b", "/a./b", "..a/"] {
        assert!(!has_dot_segment(path), "{path:?}");
    }
}

#[test]
fn targets_are_taken_apart() {
    assert_eq!(forward_path("/v1/models"), "/models");
    assert_eq!(forward_path("/v1"), "");
    assert_eq!(forward_path("/v2/models"), "/v2/models");
    assert_eq!(path_only("/models?a=?b"), "/models");
    assert_eq!(path_only("/models"), "/models");
    assert_eq!(
        target_url("http://h", "/slots?x"),
        Some("http://h/slots?x".to_string())
    );
    assert_eq!(target_url("http://h", "/a/../b"), None);
}

// -- headers -------------------------------------------------------------------

#[test]
fn hop_by_hop_headers_are_skipped() {
    for k in [
        "content-length",
        "host",
        "transfer-encoding",
        "connection",
        "keep-alive",
        "proxy-connection",
        "te",
        "trailers",
        "upgrade",
    ] {
        assert!(is_skip_header(k), "{k:?}");
    }
    for k in ["content-type", "authorization", "trailer", "accept", ""] {
        assert!(!is_skip_header(k), "{k:?}");
    }
}

#[test]
fn other_headers_keep_order_and_number() {
    let header = |k: &str, v: &str| (k.to_string(), v.as_bytes().to_vec());
    let given = vec![
        header("set-cookie", "a"),
        header("host", "h"),
        header("vary", "x"),
        header("set-cookie", "b"),
        header("te", "t"),
    ];
    let kept = forward_headers(given);
    assert_eq!(
        kept,
        vec![
            header("set-cookie", "a"),
            header("vary", "x"),
            header("set-cookie", "b"),
        ]
    );
    assert_eq!(forward_headers(kept.clone()), kept);
}

// -- replies -------------------------------------------------------------------

#[test]
fn healthz_always_ok() {
    let r = healthz();
    assert_eq!(r.status, 200);
    assert_eq!(r.body, b"ok");
    assert_eq!(r.content_type_name(), "text/plain; charset=utf-8");
}

#[test]
fn version_reports_crate_version() {
    let r = version("0.1.0");
    assert_eq!(r.status, 200);
    assert_eq!(r.body, br#"{"version":"0.1.0"}"#);
    assert_eq!(r.content_type_name(), "application/json");
}

#[test]
fn readyz_503_when_no_presets() {
    for listed in [None, Some(true), Some(false)] {
        match readyz(&Table::new(), listed) {
            ReadyStep::Answer(r) => {
                assert_eq!(r.status, 503);
                assert_eq!(error_of(&r), "no presets loaded yet");
            }
            ReadyStep::Query => panic!("no query is needed"),
        }
    }
}

#[test]
fn readyz_503_when_backend_unreachable() {
    let presets = presets_map(&[("alias-a", "model=x")]);
    assert_eq!(readyz(&presets, None), ReadyStep::Query);
    match readyz(&presets, Some(false)) {
        ReadyStep::Answer(r) => {
            assert_eq!(r.status, 503);
            assert_eq!(error_of(&r), "backend unreachable");
        }
        ReadyStep::Query => panic!("it was asked"),
    }
}

#[test]
fn readyz_200_when_presets_and_backend_ok() {
    let presets = presets_map(&[("alias-a", "model=x")]);
    assert_eq!(readyz(&presets, None), ReadyStep::Query);
    let listed = models_data(br#"{"data": []}"#).is_ok();
    match readyz(&presets, Some(listed)) {
        ReadyStep::Answer(r) => {
            assert_eq!(r.status, 200);
            assert_eq!(r.body, b"ready");
        }
        ReadyStep::Query => panic!("it was asked"),
    }
}

#[test]
fn refusals_have_status_and_message() {
    for (why, status, msg) in [
        (Refusal::NotFound, 404, "Not found"),
        (Refusal::BodyTooLarge, 413, "Request body too large"),
        (Refusal::BodyUnreadable, 400, "Failed to read request body"),
        (Refusal::BadGateway, 502, "Bad gateway"),
        (Refusal::BadAnswer, 500, "Internal server error"),
        (Refusal::Panicked, 500, "internal server error"),
        (Refusal::Overloaded, 503, "server overloaded, retry later"),
        (Refusal::NoPresets, 503, "no presets loaded yet"),
        (Refusal::BackendUnreachable, 503, "backend unreachable"),
    ] {
        let r = refuse(why);
        assert_eq!(r.status, status);
        assert_eq!(error_of(&r), msg);
        assert_eq!(r.content_type_name(), "application/json");
    }
}

#[test]
fn error_messages_are_escaped() {
    let r = json_error(418, "say \"no\"\n");
    assert_eq!(r.status, 418);
    assert_eq!(r.body, br#"{"error":"say \"no\"\n"}"#);
    assert_eq!(error_of(&r), "say \"no\"\n");
}

#[test]
fn json_reads_back_as_it_was_written() {
    let j = read(r#"{"b":[1,-2,18446744073709551615,null],"a":{"é":"\u0001\\"},"c":true}"#);
    let twin = j.copy();
    assert_eq!(parse_json(&print_json(j)), Some(twin));
    assert_eq!(parse_json(b"{\"a\":1} x"), None);
}

#[test]
fn json_with_fractions_reads_back_but_for_them() {
    let written = print_json(read(
        r#"{"a":[0.7,1e300,-0.0,1.0,12345678901234567890123],"b":"x","c":5}"#,
    ));
    let again = parse_json(&written).unwrap();
    assert_eq!(again.text("b"), Some("x"));
    assert_eq!(again.member("c"), Some(&read("5")));
    match again.member("a") {
        Some(Json::Array(items)) => {
            assert_eq!(items.len(), 5);
            for item in items {
                assert!(matches!(item, Json::Number(n) if n.is_f64()));
            }
        }
        _ => panic!("not an array"),
    }
}

#[test]
fn json_with_the_name_of_raw_text_is_written_as_it_is() {
    let given = r#"{"model":"a","$serde_json::private::RawValue":"1"}"#;
    let written = print_json(read(given));
    assert_eq!(
        written,
        br#"{"$serde_json::private::RawValue":"1","model":"a"}"#
    );
}

// -- tracker and queries -------------------------------------------------------

#[test]
fn notes_are_fresh_for_their_lifetime() {
    let mut t = Tracker::new();
    assert!(t.is_empty());
    t.record_active_alias("model=x", "alias-a", 10 * SECOND);
    assert!(!t.is_empty());
    let ttl = 30 * SECOND;
    let a = Some("alias-a".to_string());
    assert_eq!(t.fresh("model=x", 10 * SECOND, ttl), a);
    assert_eq!(t.fresh("model=x", 40 * SECOND - 1, ttl), a);
    assert_eq!(t.fresh("model=x", 40 * SECOND, ttl), None);
    assert_eq!(t.fresh("model=x", 0, ttl), a);
    assert_eq!(t.fresh("model=y", 10 * SECOND, ttl), None);
    assert_eq!(t.fresh("model=x", 10 * SECOND, 0), None);
    assert_eq!(t.known("model=x"), a);
    t.forget("model=y");
    assert_eq!(t.known("model=x"), a);
    t.forget("model=x");
    assert_eq!(t.known("model=x"), None);
}

#[test]
fn queries_are_made_under_the_lock_only() {
    let mut t = Tracker::new();
    let ttl = 30 * SECOND;
    assert_eq!(refresh_step(&t, "m", 0, ttl, false), RefreshStep::TakeLock);
    assert_eq!(refresh_step(&t, "m", 0, ttl, true), RefreshStep::Query);
    t.record_active_alias("m", "a", 0);
    let used = RefreshStep::Use("a".to_string());
    assert_eq!(refresh_step(&t, "m", 1, ttl, false), used);
    assert_eq!(refresh_step(&t, "m", 1, ttl, true), used);
    assert_eq!(refresh_step(&t, "m", ttl, ttl, true), RefreshStep::Query);
}

#[test]
fn callers_that_wait_share_one_query() {
    let mut t = Tracker::new();
    let ttl = 30 * SECOND;
    for _ in 0..3 {
        assert_eq!(refresh_step(&t, "m", 1, ttl, false), RefreshStep::TakeLock);
    }
    assert_eq!(refresh_step(&t, "m", 2, ttl, true), RefreshStep::Query);
    let probe = ProbeResult::Refreshed(Some("a".to_string()));
    assert_eq!(
        finish_refresh(&mut t, "m", probe, 3),
        Some("a".to_string())
    );
    for now in [3, 4, ttl + 2] {
        assert_eq!(
            refresh_step(&t, "m", now, ttl, true),
            RefreshStep::Use("a".to_string())
        );
    }
    assert_eq!(
        refresh_step(&t, "m", ttl + 3, ttl, true),
        RefreshStep::Query
    );
}

#[test]
fn query_outcomes_are_noted() {
    let mut t = Tracker::new();
    t.record_active_alias("m", "old", 5);
    assert_eq!(
        finish_refresh(&mut t, "m", ProbeResult::Failed, 100),
        Some("old".to_string())
    );
    assert_eq!(t.fresh("m", 100, 50), None);
    assert_eq!(finish_refresh(&mut t, "n", ProbeResult::Failed, 100), None);
    assert_eq!(
        finish_refresh(
            &mut t,
            "m",
            ProbeResult::Refreshed(Some("new".to_string())),
            100
        ),
        Some("new".to_string())
    );
    assert_eq!(t.fresh("m", 149, 50), Some("new".to_string()));
    assert_eq!(
        finish_refresh(&mut t, "m", ProbeResult::Refreshed(None), 200),
        None
    );
    assert!(t.is_empty());
}

#[test]
fn presets_are_not_lost_to_an_empty_list() {
    let mut presets = presets_map(&[("a", "model=x")]);
    let empty = read_listing(&[], "model=x", "a");
    assert_eq!(
        query_loaded_alias(&mut presets, Some(empty)),
        ProbeResult::Refreshed(None)
    );
    assert!(presets.contains_key("a"));
    assert_eq!(
        query_loaded_alias(&mut presets, None),
        ProbeResult::Failed
    );
    assert!(presets.contains_key("a"));
    commit_presets(&mut presets, presets_map(&[("b", "model=y")]));
    assert!(!presets.contains_key("a"));
    assert!(presets.contains_key("b"));
}

// -- requests ------------------------------------------------------------------

#[test]
fn failed_post_does_not_record_active_alias() {
    let presets = presets_map(&[("alias-a", "model=test.gguf")]);
    let sent = r#"{"model":"alias-a","messages":[]}"#;
    let (a, pending) = match take_body(admitted(true), whole(sent), &presets) {
        AfterBody::Ask(a, pending) => (a, pending),
        _ => panic!("the model is known"),
    };
    let out = take_alias(a, pending, None, &presets);
    assert_eq!(out.content.body_bytes, sent.as_bytes());
    assert_eq!(
        out.content.record_active,
        Some(("model=test.gguf".to_string(), "alias-a".to_string()))
    );
    let mut t = Tracker::new();
    let r = take_answer(&mut t, &out.content.record_active, None, 1).unwrap_err();
    assert_eq!(r.status, 502);
    assert!(t.is_empty());
    for status in [199, 300, 404, 500] {
        let head = Head {
            status,
            headers: vec![],
        };
        assert!(take_answer(&mut t, &out.content.record_active, Some(head), 1).is_ok());
        assert!(t.is_empty());
    }
}

#[test]
fn accepted_post_records_active_alias() {
    let record = Some(("model=x".to_string(), "alias-a".to_string()));
    for status in [200, 299] {
        let mut t = Tracker::new();
        let head = Head {
            status,
            headers: vec![
                ("te".to_string(), b"x".to_vec()),
                ("date".to_string(), b"y".to_vec()),
            ],
        };
        let passed = take_answer(&mut t, &record, Some(head), 7).unwrap();
        assert_eq!(passed.status, status);
        assert_eq!(passed.headers, vec![("date".to_string(), b"y".to_vec())]);
        assert_eq!(t.fresh("model=x", 7, 1), Some("alias-a".to_string()));
    }
}

#[test]
fn post_reroutes_to_loaded_alias_and_injects_params() {
    let list = br#"{"data": [
        {"id": "alias-a", "status": {"value": "idle",
            "preset": "[alias-a]\nhf-repo = org/m:Q4\ntemp = 0.6\n"}},
        {"id": "alias-b", "status": {"value": "loaded",
            "preset": "[alias-b]\nhf-repo = org/m:Q4\ntemp = 0.9\n"}}
    ]}"#;
    let mut presets = presets_map(&[
        ("alias-a", "hf-repo=org/m:Q4"),
        ("alias-b", "hf-repo=org/m:Q4"),
    ]);
    let mut tracker = Tracker::new();
    let (a, pending) = match take_body(
        admitted(true),
        whole(r#"{"model":"alias-a","messages":[]}"#),
        &presets,
    ) {
        AfterBody::Ask(a, pending) => (a, pending),
        _ => panic!("the model is known"),
    };
    let model_id = pending.preset.model_id.clone();
    assert_eq!(
        refresh_step(&tracker, &model_id, 5, 0, true),
        RefreshStep::Query
    );
    let data = models_data(list).unwrap();
    let listing = read_listing(&data, &model_id, &pending.requested_alias);
    let probe = query_loaded_alias(&mut presets, Some(listing));
    let active = finish_refresh(&mut tracker, &model_id, probe, 5);
    let out = take_alias(a, pending, active, &presets);
    assert_eq!(out.content.record_active, None);
    let echoed = parse_json(&out.content.body_bytes).unwrap();
    assert_eq!(echoed.text("model"), Some("alias-b"));
    assert_eq!(
        echoed.member("temperature"),
        Some(&Json::Number(serde_json::Number::from_f64(0.6).unwrap()))
    );
    assert_eq!(echoed.member("messages"), Some(&Json::Array(vec![])));
    assert_eq!(
        tracker.known("hf-repo=org/m:Q4"),
        Some("alias-b".to_string())
    );
}

#[test]
fn post_for_the_active_alias_is_not_changed() {
    let presets = presets_map(&[("a", "model=x")]);
    let sent = r#" {"model" : "a" } "#;
    match begin_intercept(&presets, sent.as_bytes().to_vec()) {
        Inspected::Ask(pending) => {
            let r = finish_intercept(pending, Some("a".to_string()), &presets);
            assert_eq!(r.body_bytes, sent.as_bytes());
            assert_eq!(
                r.record_active,
                Some(("model=x".to_string(), "a".to_string()))
            );
        }
        Inspected::Done(_) => panic!("the model is known"),
    }
}

#[test]
fn rerouted_body_keeps_what_the_client_set() {
    let mut presets = presets_map(&[("b", "model=x")]);
    let mut a = make_preset("model=x");
    a.params.insert("seed".to_string(), read("1"));
    a.params.insert("top_k".to_string(), read("2"));
    presets.insert("a".to_string(), a);
    let sent = br#"{"model":"a","seed":9,"n":[1]}"#.to_vec();
    match begin_intercept(&presets, sent) {
        Inspected::Ask(pending) => {
            let r = finish_intercept(pending, Some("b".to_string()), &Table::new());
            assert_eq!(r.body_bytes, br#"{"model":"b","n":[1],"seed":9,"top_k":2}"#);
            assert_eq!(r.record_active, None);
        }
        Inspected::Done(_) => panic!("the model is known"),
    }
}

#[test]
fn other_posts_pass_through() {
    let presets = presets_map(&[("a", "model=x"), ("anonymous", "")]);
    for sent in [
        "not json",
        "[1]",
        "{}",
        r#"{"model":7}"#,
        r#"{"model":"unknown"}"#,
        r#"{"model":"anonymous"}"#,
    ] {
        let expected = PostIntercept::passthrough(sent.as_bytes().to_vec());
        assert_eq!(
            take_body(admitted(true), whole(sent), &presets),
            AfterBody::Send(Outgoing {
                url: admitted(true).url,
                headers: vec![],
                content: expected,
            })
        );
    }
}

#[test]
fn only_posts_are_looked_into() {
    let presets = presets_map(&[("a", "model=x")]);
    let sent = r#"{"model":"a"}"#;
    match take_body(admitted(false), whole(sent), &presets) {
        AfterBody::Send(out) => {
            assert_eq!(out.content.body_bytes, sent.as_bytes());
            assert_eq!(out.content.record_active, None);
        }
        _ => panic!("not a POST"),
    }
}

#[test]
fn oversized_bodies_are_refused() {
    match take_body(admitted(true), BodyRead::TooLarge, &Table::new()) {
        AfterBody::Answer(r) => assert_eq!(r.status, 413),
        _ => panic!("too large"),
    }
    match take_body(admitted(true), BodyRead::Failed, &Table::new()) {
        AfterBody::Answer(r) => assert_eq!(r.status, 400),
        _ => panic!("not read"),
    }
}

#[test]
fn targets_are_checked_before_the_body() {
    let headers = vec![
        ("host".to_string(), b"h".to_vec()),
        ("accept".to_string(), b"*/*".to_vec()),
    ];
    let a = take_target(BACKEND, true, "/v1/models?x", headers.clone()).unwrap();
    assert_eq!(a.url, "http://127.0.0.1:1/v1/models?x");
    assert!(a.post);
    assert_eq!(a.headers, vec![("accept".to_string(), b"*/*".to_vec())]);
    let r = take_target(BACKEND, true, "/v1/%2E%2e", headers).unwrap_err();
    assert_eq!(r.status, 404);
    assert_eq!(error_of(&r), "Not found");
}

#[test]
fn accepted_alias_takes_the_requests_of_its_siblings() {
    let presets = presets_map(&[("a", "model=x"), ("b", "model=x"), ("c", "model=y")]);
    let mut tracker = Tracker::new();
    let ask = |body: &str| match begin_intercept(&presets, body.as_bytes().to_vec()) {
        Inspected::Ask(pending) => pending,
        Inspected::Done(_) => panic!("the model is known"),
    };
    let first = finish_intercept(ask(r#"{"model":"a"}"#), None, &presets);
    let head = Head {
        status: 200,
        headers: vec![],
    };
    assert!(take_answer(&mut tracker, &first.record_active, Some(head), 100).is_ok());
    let active = tracker.fresh("model=x", 129, 30);
    let second = finish_intercept(ask(r#"{"model":"b"}"#), active, &presets);
    assert_eq!(second.body_bytes, br#"{"model":"a"}"#);
    assert_eq!(second.record_active, None);
    let third = finish_intercept(
        ask(r#"{"model":"c"}"#),
        tracker.fresh("model=y", 129, 30),
        &presets,
    );
    assert_eq!(third.body_bytes, br#"{"model":"c"}"#);
}

#[test]
fn aliases_of_a_list_share_a_model_by_their_sources() {
    let data = models_data(
        br#"{"data": [
        {"id": "a", "status": {"preset": "[*]\nhf-repo = org/m ; shared\n[a]\nseed = 1\n"}},
        {"id": "b", "status": {"preset": "[b]\nhfr =  org/m\n"}},
        {"id": "c", "status": {"preset": "[c]\nhf-file = f\n"}}
    ]}"#,
    )
    .unwrap();
    let listing = read_listing(&data, "hf-repo=org/m", "a");
    let id = |alias: &str| listing.presets.get(alias).unwrap().model_id.clone();
    assert_eq!(id("a"), "hf-repo=org/m");
    assert_eq!(id("a"), id("b"));
    assert_eq!(id("c"), "hf-repo=org/m;hf-file=f");
    assert_eq!(listing.alias, None);
}

// -- startup -------------------------------------------------------------------

#[test]
fn backend_urls_are_checked_and_trimmed() {
    assert_eq!(
        backend_base("http://h:8080/v1"),
        Some("http://h:8080/v1".to_string())
    );
    assert_eq!(
        backend_base("https://h/v1///"),
        Some("https://h/v1".to_string())
    );
    assert_eq!(backend_base("ftp://h/v1"), None);
    assert_eq!(backend_base("HTTP://h/v1"), None);
    assert_eq!(backend_base(""), None);
    assert_eq!(backend_root_of("http://h/v1"), "http://h");
    assert_eq!(backend_root_of("http://h/api"), "http://h/api");
}

#[test]
fn limits_are_worked_out() {
    assert_eq!(max_body_bytes(8), 8 * 1024 * 1024);
    assert_eq!(max_body_bytes(0), 0);
    assert_eq!(max_body_bytes(usize::MAX), usize::MAX);
    assert_eq!(retry_delay_secs(0), 1);
    assert_eq!(retry_delay_secs(1), 1);
    assert_eq!(retry_delay_secs(30), 30);
}

#[test]
fn loading_goes_on_until_there_are_presets() {
    let mut presets = Table::new();
    assert!(!take_loaded(&mut presets, None));
    assert!(!take_loaded(&mut presets, Some(Table::new())));
    assert!(presets.is_empty());
    assert!(take_loaded(&mut presets, Some(presets_map(&[("a", "x")]))));
    assert!(presets.contains_key("a"));
}
