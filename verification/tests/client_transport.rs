use std::time::Duration;

use tonia_sdk::client::{
    decode_response_body, finish_non_stream, interpret_json_response, is_event_stream,
    prepare_request, reject_stream_body, speech_text, stream_chunk, stream_flush, stream_payload,
    stream_start, wants_stream, StreamStart,
};
use tonia_sdk::routes::{
    create_plan, heavy_timeout, route, route_timeout, CreatePlan, Endpoint, RequestTimeout,
};
use tonia_sdk::transport::{build_headers, is_binary_audio_content_type, join_url, AuthStyle};
use tonia_sdk::{
    audio_mime_for_name, encode_path_segment, reject_data_uri, ErrorKind,
    InvalidTranscriptionFile, JsonValue, RequestOptions, ToniaBuilder, TranscriptionFile,
    DEFAULT_BASE_URL, DEFAULT_TIMEOUT_SECS, IMAGE_TIMEOUT_SECS, SDK_USER_AGENT, SDK_VERSION,
    VERSION,
};

fn get<'a>(hdrs: &'a [(String, String)], name: &str) -> Option<&'a str> {
    hdrs.iter().find(|(k, _)| k == name).map(|(_, v)| v.as_str())
}

fn has_any_case(hdrs: &[(String, String)], name: &str) -> bool {
    hdrs.iter().any(|(k, _)| k.eq_ignore_ascii_case(name))
}

fn pairs(items: &[(&str, &str)]) -> Vec<(String, String)> {
    items.iter().map(|(k, v)| (k.to_string(), v.to_string())).collect()
}

fn s(text: &str) -> JsonValue {
    JsonValue::Str(text.to_string())
}

fn obj(entries: Vec<(&str, JsonValue)>) -> JsonValue {
    JsonValue::Object(entries.into_iter().map(|(k, v)| (k.to_string(), v)).collect())
}

#[test]
fn default_base_url_is_tonia_pass_only() {
    let config = ToniaBuilder::default().resolve(None, None);
    assert_eq!(config.base_url, DEFAULT_BASE_URL);
    assert_eq!(config.timeout, None);
}

#[test]
fn ctor_timeout_is_stored() {
    let config = ToniaBuilder::default()
        .timeout(Duration::from_millis(1250))
        .resolve(None, None);
    assert_eq!(config.timeout, Some(Duration::from_millis(1250)));
}

#[test]
fn ctor_does_not_read_tonia_base_url() {
    let config = ToniaBuilder::default().resolve(Some("k".to_string()), Some("wss://x".to_string()));
    assert_eq!(config.base_url, DEFAULT_BASE_URL);
}

#[test]
fn build_headers_sets_ua_bearer_and_missing_key() {
    let err = build_headers(None, &[], AuthStyle::Bearer, None, "application/json").unwrap_err();
    assert_eq!(err.kind, ErrorKind::Authentication);
    assert_eq!(err.code.as_deref(), Some("missing_bearer"));

    let hdrs =
        build_headers(Some("tonia_test"), &[], AuthStyle::Bearer, None, "application/json").unwrap();
    assert_eq!(get(&hdrs, "Authorization"), Some("Bearer tonia_test"));
    assert_eq!(get(&hdrs, "User-Agent"), Some(SDK_USER_AGENT));
    assert!(!has_any_case(&hdrs, "x-api-key"));

    let hdrs =
        build_headers(Some("tonia_test"), &[], AuthStyle::ApiKey, None, "application/json").unwrap();
    assert_eq!(get(&hdrs, "x-api-key"), Some("tonia_test"));
    assert!(!has_any_case(&hdrs, "authorization"));

    let none = build_headers(None, &[], AuthStyle::NoAuth, None, "application/json").unwrap();
    assert!(!has_any_case(&none, "authorization"));
    assert!(!has_any_case(&none, "x-api-key"));
}

#[test]
fn join_url_prefixes_slash() {
    assert_eq!(
        join_url("https://pass.example", "/v1/models"),
        "https://pass.example/v1/models"
    );
    assert_eq!(
        join_url("https://pass.example", "v1/models"),
        "https://pass.example/v1/models"
    );
}

#[test]
fn image_timeout_const_is_300s() {
    assert_eq!(IMAGE_TIMEOUT_SECS, 300);
    assert_eq!(DEFAULT_TIMEOUT_SECS, 60);
}

#[test]
fn models_get_encodes_slash_and_space() {
    assert_eq!(
        route(&Endpoint::ModelsGet("vendor/model id".to_string())).path,
        "/v1/models/vendor%2Fmodel%20id"
    );
    assert_eq!(
        route(&Endpoint::PublicModelsGet("vendor/model id".to_string())).path,
        "/v1/public/models/vendor%2Fmodel%20id"
    );
    assert_eq!(
        encode_path_segment("vendor/model id"),
        "vendor%2Fmodel%20id"
    );
    assert_eq!(encode_path_segment("gpt-4"), "gpt-4");
}

#[test]
fn audio_transcriptions_rejects_data_uri_before_network() {
    let err = TranscriptionFile::try_from_user("data:audio/wav;base64,AA==").unwrap_err();
    assert!(err.to_string().contains("data URI"));
    assert_eq!(err, InvalidTranscriptionFile::data_uri());
    assert_eq!(
        TranscriptionFile::try_from_user("data:audio/wav;base64,AA==").unwrap_err(),
        InvalidTranscriptionFile::data_uri()
    );
    assert_eq!(audio_mime_for_name("clip.wav"), "audio/wav");
    assert_eq!(audio_mime_for_name("clip.mpga"), "application/octet-stream");
    assert_eq!(audio_mime_for_name("clip.oga"), "application/octet-stream");
}

#[test]
fn create_stream_true_does_not_drain() {
    let body = obj(vec![
        ("model", s("gpt")),
        ("stream", JsonValue::Bool(true)),
        ("messages", JsonValue::Array(vec![])),
    ]);
    let err = reject_stream_body(&body).unwrap_err();
    assert_eq!(err.kind, ErrorKind::InvalidRequest);
    assert_eq!(err.code.as_deref(), Some("use_stream_helper"));
}

#[test]
fn request_rejects_realtime_http() {
    let config = ToniaBuilder::default().api_key("tonia_test".to_string()).resolve(None, None);
    let err = prepare_request(&config, "/v1/realtime", AuthStyle::Bearer, None, "application/json")
        .unwrap_err();
    assert_eq!(err.kind, ErrorKind::PathNotAllowed);
}

#[test]
fn request_strips_query_and_allows_audio_translations() {
    let config = ToniaBuilder::default()
        .base_url("http://127.0.0.1:9".to_string())
        .api_key("tonia_test".to_string())
        .resolve(None, None);
    let prepared = prepare_request(
        &config,
        "/v1/audio/translations?x=1",
        AuthStyle::Bearer,
        None,
        "application/json",
    )
    .unwrap();
    assert_eq!(prepared.path, "/v1/audio/translations");
    assert_eq!(prepared.url, "http://127.0.0.1:9/v1/audio/translations");
}

#[test]
fn missing_key_is_typed_before_network() {
    let config = ToniaBuilder::default().resolve(None, None);
    let r = route(&Endpoint::ModelsList);
    let err = prepare_request(&config, &r.path, r.auth, None, "application/json").unwrap_err();
    assert_eq!(err.kind, ErrorKind::Authentication);
    assert_eq!(err.code.as_deref(), Some("missing_bearer"));
}

#[test]
fn request_auth_none_overrides_bearer() {
    let config = ToniaBuilder::default().api_key("tonia_test".to_string()).resolve(None, None);
    let opts = RequestOptions {
        auth: AuthStyle::NoAuth,
        ..RequestOptions::default()
    };
    let prepared =
        prepare_request(&config, "/v1/status", opts.auth, Some(opts.headers.as_slice()), "application/json")
            .unwrap();
    assert!(!has_any_case(&prepared.headers, "authorization"));
}

#[test]
fn stream_200_non_sse_is_empty() {
    assert!(!is_event_stream(200, "application/json"));
    finish_non_stream(200, Vec::new(), obj(vec![("ok", JsonValue::Bool(true))])).unwrap();
}

#[test]
fn no_retry_on_503() {
    let err = interpret_json_response(
        503,
        Vec::new(),
        obj(vec![(
            "error",
            obj(vec![
                ("type", s("api_error")),
                ("code", s("upstream")),
                ("retryable", JsonValue::Bool(true)),
            ]),
        )]),
    )
    .unwrap_err();
    assert_eq!(err.kind, ErrorKind::Api);
}

#[test]
fn policy_carrier_on_200_does_not_set_last_limits() {
    // The client records the limits that a response hands back, and only on success.
    let mut last_limits: Option<tonia_sdk::LimitInfo> = None;
    let outcome = interpret_json_response(
        200,
        pairs(&[("x-tonia-limit-warning", "usage_limit_80_percent")]),
        obj(vec![(
            "_tonia_policy_block",
            obj(vec![("code", s("regulated_content_detected"))]),
        )]),
    );
    let err = match outcome {
        Ok((_, limits)) => {
            last_limits = limits;
            panic!("a policy carrier is an error")
        }
        Err(err) => err,
    };
    assert_eq!(err.kind, ErrorKind::PolicyBlock);
    assert!(last_limits.is_none());
}

// Further cases of the library's own.

#[test]
fn success_records_limits() {
    let (body, limits) = interpret_json_response(
        200,
        pairs(&[("x-tonia-limit-remaining", "9")]),
        obj(vec![("data", JsonValue::Array(vec![]))]),
    )
    .unwrap();
    assert_eq!(body, obj(vec![("data", JsonValue::Array(vec![]))]));
    assert_eq!(limits.unwrap().remaining.as_deref(), Some("9"));
}

#[test]
fn builder_resolution_rules() {
    let config = ToniaBuilder::default()
        .base_url("https://x.example///".to_string())
        .api_key(String::new())
        .realtime_url("  ".to_string())
        .header("X-Tonia-Title".to_string(), "example".to_string())
        .resolve(Some("env-key".to_string()), Some(" wss://env.example ".to_string()));
    assert_eq!(config.base_url, "https://x.example");
    assert_eq!(config.api_key.as_deref(), Some("env-key"));
    assert_eq!(config.realtime_url.as_deref(), Some("wss://env.example"));
    assert_eq!(config.default_headers, pairs(&[("X-Tonia-Title", "example")]));

    let config = ToniaBuilder::default()
        .api_key("explicit".to_string())
        .resolve(Some("env-key".to_string()), Some(String::new()));
    assert_eq!(config.api_key.as_deref(), Some("explicit"));
    assert_eq!(config.realtime_url, None);
}

#[test]
fn later_headers_override_earlier_ones() {
    let hdrs = build_headers(
        Some("k"),
        &pairs(&[("X-A", "1"), ("User-Agent", "custom/1")]),
        AuthStyle::Bearer,
        Some(&pairs(&[("X-A", "2"), ("Accept", "text/plain")])),
        "application/json",
    )
    .unwrap();
    assert_eq!(get(&hdrs, "X-A"), Some("2"));
    assert_eq!(get(&hdrs, "Accept"), Some("text/plain"));
    assert_eq!(get(&hdrs, "User-Agent"), Some("custom/1"));
    assert!(!hdrs.iter().any(|(k, v)| k == "User-Agent" && v == SDK_USER_AGENT));
    let lower = build_headers(
        Some("k"),
        &pairs(&[("user-agent", "mine")]),
        AuthStyle::Bearer,
        None,
        "application/json",
    )
    .unwrap();
    assert!(get(&lower, "User-Agent").is_none());
    assert_eq!(get(&lower, "user-agent"), Some("mine"));
    let empty_key = build_headers(Some(""), &[], AuthStyle::ApiKey, None, "a").unwrap_err();
    assert_eq!(empty_key.code.as_deref(), Some("missing_bearer"));
}

#[test]
fn stream_payload_sets_stream_true() {
    assert_eq!(
        stream_payload(None),
        obj(vec![("stream", JsonValue::Bool(true))])
    );
    assert_eq!(
        stream_payload(Some(obj(vec![("model", s("m")), ("stream", JsonValue::Bool(false))]))),
        obj(vec![("model", s("m")), ("stream", JsonValue::Bool(true))])
    );
    assert_eq!(
        stream_payload(Some(obj(vec![("model", s("m"))]))),
        obj(vec![("model", s("m")), ("stream", JsonValue::Bool(true))])
    );
    assert_eq!(stream_payload(Some(s("raw"))), s("raw"));
    assert!(wants_stream(&obj(vec![("stream", JsonValue::Bool(true))])));
    assert!(!wants_stream(&obj(vec![("stream", s("true"))])));
    assert!(reject_stream_body(&obj(vec![("model", s("m"))])).is_ok());
}

#[test]
fn response_bodies_are_decoded() {
    assert_eq!(decode_response_body("", true), JsonValue::Null);
    assert_eq!(
        decode_response_body("{\"a\":\"b\"}", true),
        obj(vec![("a", s("b"))])
    );
    assert_eq!(decode_response_body("ID3 not json", true), s("ID3 not json"));
    assert_eq!(decode_response_body("{}", false), s("{}"));
}

#[test]
fn event_stream_detection() {
    assert!(is_event_stream(200, "text/event-stream; charset=utf-8"));
    assert!(!is_event_stream(500, "text/event-stream"));
    assert!(!is_event_stream(204, "text/plain"));
}

#[test]
fn failed_status_without_envelope_falls_back() {
    let err = finish_non_stream(429, pairs(&[("Retry-After", "3")]), JsonValue::Null).unwrap_err();
    assert_eq!(err.kind, ErrorKind::RateLimit);
    assert_eq!(err.retry_after_seconds(), Some(3));
    assert_eq!(err.message, "HTTP 429");
}

#[test]
fn routes_of_named_helpers() {
    let chat = route(&Endpoint::ChatCompletions);
    assert_eq!(chat.method, "POST");
    assert_eq!(chat.path, "/v1/chat/completions");
    assert_eq!(chat.auth, AuthStyle::Bearer);
    assert!(chat.streams && !chat.heavy);
    let messages = route(&Endpoint::Messages);
    assert_eq!(messages.auth, AuthStyle::ApiKey);
    let catalogue = route(&Endpoint::CatalogueList);
    assert_eq!(catalogue.method, "GET");
    assert_eq!(catalogue.auth, AuthStyle::NoAuth);
    assert_eq!(catalogue.path, "/v1/public/catalogue");
    let speech = route(&Endpoint::AudioSpeech);
    assert!(speech.heavy);
    assert_eq!(get(&speech.headers, "Accept"), Some("application/octet-stream, audio/*, application/json"));
    let interactions = route(&Endpoint::Interactions);
    assert!(interactions.heavy && interactions.streams);
    assert_eq!(route(&Endpoint::ImagesEdit).path, "/v1/images/edits");
    assert_eq!(route(&Endpoint::StatusGet).auth, AuthStyle::NoAuth);
}

#[test]
fn transcription_files_and_audio_types() {
    assert!(reject_data_uri("  DATA:audio/wav;base64,AA==").is_err());
    assert!(reject_data_uri("clip.wav").is_ok());
    assert_eq!(
        TranscriptionFile::try_from_user("clip.wav").unwrap(),
        TranscriptionFile::Path("clip.wav".to_string())
    );
    assert!(TranscriptionFile::Path("data:x".to_string()).check().is_err());
    assert!(TranscriptionFile::Bytes(b"data:x".to_vec()).check().is_ok());
    assert_eq!(audio_mime_for_name("/tmp/a.b/CLIP.MP3"), "audio/mpeg");
    assert_eq!(audio_mime_for_name(".wav"), "application/octet-stream");
    assert_eq!(audio_mime_for_name("noext"), "application/octet-stream");
    assert!(is_binary_audio_content_type("Audio/MPEG"));
    assert!(is_binary_audio_content_type("application/octet-stream; x=1"));
    assert!(!is_binary_audio_content_type("application/json"));
}

#[test]
fn version_constants() {
    assert_eq!(VERSION, SDK_VERSION);
    assert_eq!(SDK_USER_AGENT, format!("tonia-sdk-rs/{SDK_VERSION}"));
}

#[test]
fn audio_speech_returns_raw_bytes() {
    let body = decode_response_body("ID3\u{0}fake-mp3", true);
    assert_eq!(speech_text(&body).as_bytes(), b"ID3\x00fake-mp3");
    let accept = get(&route(&Endpoint::AudioSpeech).headers, "Accept").unwrap().to_string();
    assert!(accept.starts_with("application/octet-stream"));
    assert_eq!(
        speech_text(&obj(vec![("a", JsonValue::Number("1".to_string()))])),
        "{\"a\":1}"
    );
}

#[test]
fn every_named_route_passes_the_path_check_unchanged() {
    let endpoints = vec![
        Endpoint::CatalogueList,
        Endpoint::PublicModelsList,
        Endpoint::PublicModelsGet("vendor/model id".to_string()),
        Endpoint::PublicModelCategoriesList,
        Endpoint::StatusGet,
        Endpoint::ModelsList,
        Endpoint::ModelsGet("gpt-4.1".to_string()),
        Endpoint::ChatCompletions,
        Endpoint::Messages,
        Endpoint::Embeddings,
        Endpoint::ImagesGenerate,
        Endpoint::ImagesEdit,
        Endpoint::AudioSpeech,
        Endpoint::AudioTranscriptions,
        Endpoint::Responses,
        Endpoint::Rerank,
        Endpoint::Interactions,
    ];
    for e in endpoints {
        let path = route(&e).path;
        assert_eq!(tonia_sdk::assert_path_allowed(&path).unwrap(), path, "{e:?}");
    }
    // Dots are encoded, so such an id stays one segment.
    let dots = route(&Endpoint::ModelsGet("..".to_string())).path;
    assert_eq!(dots, "/v1/models/%2E%2E");
    assert_eq!(tonia_sdk::assert_path_allowed(&dots).unwrap(), dots);
    assert_eq!(route(&Endpoint::ModelsGet("gpt-4.1_x~".to_string())).path, "/v1/models/gpt-4%2E1%5Fx%7E");
}

#[test]
fn no_auth_keeps_only_given_key_headers() {
    let hdrs = build_headers(
        Some("k"),
        &pairs(&[("Authorization", "Basic abc")]),
        AuthStyle::NoAuth,
        None,
        "application/json",
    )
    .unwrap();
    assert_eq!(get(&hdrs, "Authorization"), Some("Basic abc"));
    assert!(get(&hdrs, "x-api-key").is_none());
    let bearer = build_headers(
        Some("k"),
        &pairs(&[("Authorization", "Basic abc"), ("X-Trace", "1")]),
        AuthStyle::Bearer,
        None,
        "application/json",
    )
    .unwrap();
    assert_eq!(get(&bearer, "Authorization"), Some("Bearer k"));
    assert_eq!(get(&bearer, "X-Trace"), Some("1"));
}

fn tonia_config(api_key: Option<&str>) -> tonia_sdk::client::ClientConfig {
    let mut builder = ToniaBuilder::default().base_url("http://127.0.0.1:9".to_string());
    if let Some(key) = api_key {
        builder = builder.api_key(key.to_string());
    }
    builder.resolve(None, None)
}

#[test]
fn public_route_sends_no_auth() {
    let r = route(&Endpoint::PublicModelsList);
    let prepared = prepare_request(&tonia_config(None), &r.path, r.auth, None, "application/json").unwrap();
    assert_eq!(prepared.url, "http://127.0.0.1:9/v1/public/models");
    assert!(!has_any_case(&prepared.headers, "authorization"));
    let (body, _) = interpret_json_response(
        200,
        Vec::new(),
        decode_response_body("{\"data\":[{\"id\":\"gpt-test\"}]}", true),
    )
    .unwrap();
    let first = match body.get("data") {
        Some(JsonValue::Array(items)) => items[0].clone(),
        other => panic!("{other:?}"),
    };
    assert_eq!(first.get("id"), Some(&s("gpt-test")));
}

#[test]
fn bearer_default_headers_and_limits_are_preserved() {
    let config = ToniaBuilder::default()
        .base_url("http://127.0.0.1:9".to_string())
        .api_key("tonia_test".to_string())
        .header("X-Tonia-Title".to_string(), "SDK E2E".to_string())
        .resolve(None, None);
    let r = route(&Endpoint::ModelsList);
    let prepared = prepare_request(&config, &r.path, r.auth, None, "application/json").unwrap();
    assert_eq!(get(&prepared.headers, "Authorization"), Some("Bearer tonia_test"));
    assert_eq!(get(&prepared.headers, "X-Tonia-Title"), Some("SDK E2E"));
    assert_eq!(get(&prepared.headers, "User-Agent"), Some(SDK_USER_AGENT));
    let (_, limits) = interpret_json_response(
        200,
        pairs(&[
            ("x-tonia-limit-warning", "usage_limit_80_percent"),
            ("x-tonia-limit-remaining", "17"),
        ]),
        obj(vec![("data", JsonValue::Array(vec![obj(vec![("id", s("gpt-test"))])]))]),
    )
    .unwrap();
    let limits = limits.expect("limits");
    assert_eq!(limits.warning.as_deref(), Some("usage_limit_80_percent"));
    assert_eq!(limits.remaining.as_deref(), Some("17"));
}

#[test]
fn messages_uses_x_api_key_not_bearer() {
    let r = route(&Endpoint::Messages);
    let body = obj(vec![
        ("model", s("msg-model-test")),
        ("messages", JsonValue::Array(vec![])),
        ("max_tokens", JsonValue::Number("1".to_string())),
    ]);
    reject_stream_body(&body).unwrap();
    let prepared =
        prepare_request(&tonia_config(Some("tonia_test")), &r.path, r.auth, None, "application/json")
            .unwrap();
    assert_eq!(get(&prepared.headers, "x-api-key"), Some("tonia_test"));
    assert!(!has_any_case(&prepared.headers, "authorization"));
}

#[test]
fn empty_models_list_is_success() {
    let (body, _) =
        interpret_json_response(200, Vec::new(), obj(vec![("data", JsonValue::Array(vec![]))]))
            .unwrap();
    assert_eq!(body.get("data"), Some(&JsonValue::Array(vec![])));
}

#[test]
fn bare_429_is_rate_limit_and_not_retried() {
    let err = interpret_json_response(
        429,
        pairs(&[("Retry-After", "2")]),
        decode_response_body("", true),
    )
    .unwrap_err();
    assert_eq!(err.kind, ErrorKind::RateLimit);
    assert_eq!(err.retryable, Some(true));
    assert_eq!(err.retry_after_seconds(), Some(2));
}

#[test]
fn named_helpers_hit_locked_paths() {
    let cases = [
        (Endpoint::CatalogueList, "/v1/public/catalogue"),
        (Endpoint::PublicModelsGet("vendor/model".to_string()), "/v1/public/models/vendor%2Fmodel"),
        (Endpoint::PublicModelCategoriesList, "/v1/public/model-categories"),
        (Endpoint::StatusGet, "/v1/status"),
        (Endpoint::Embeddings, "/v1/embeddings"),
        (Endpoint::ImagesGenerate, "/v1/images/generations"),
        (Endpoint::ImagesEdit, "/v1/images/edits"),
        (Endpoint::AudioSpeech, "/v1/audio/speech"),
        (Endpoint::AudioTranscriptions, "/v1/audio/transcriptions"),
        (Endpoint::Responses, "/v1/responses"),
        (Endpoint::Rerank, "/v1/rerank"),
        (Endpoint::Interactions, "/v1/interactions"),
    ];
    let config = tonia_config(Some("tonia_test"));
    for (endpoint, path) in cases {
        let r = route(&endpoint);
        assert_eq!(r.path, path);
        let prepared = prepare_request(&config, &r.path, r.auth, None, "application/json").unwrap();
        assert_eq!(prepared.path, path);
    }
}

#[test]
fn systemone_stays_an_escape_hatch() {
    let prepared = prepare_request(
        &tonia_config(Some("tonia_test")),
        "/v1/systemone",
        RequestOptions::default().auth,
        None,
        "application/json",
    )
    .unwrap();
    assert_eq!(prepared.url, "http://127.0.0.1:9/v1/systemone");
}

#[test]
fn gemini_interactions_body_is_passthrough() {
    let body = obj(vec![
        ("input", JsonValue::Array(vec![obj(vec![("text", s("Make the fox sit")), ("type", s("text"))])])),
        ("model", s("gemini/gemini-2.5-flash-image")),
        ("stream", JsonValue::Bool(false)),
    ]);
    assert!(route(&Endpoint::Interactions).streams);
    reject_stream_body(&body).unwrap();
}

#[test]
fn provider_requires_surface_stays_invalid_request() {
    let err = interpret_json_response(
        400,
        Vec::new(),
        obj(vec![(
            "error",
            obj(vec![
                ("type", s("invalid_request_error")),
                ("code", s("provider_requires_surface")),
                ("provider", s("gemini")),
                ("required_surface", s("interactions")),
                ("retryable", JsonValue::Bool(false)),
            ]),
        )]),
    )
    .unwrap_err();
    assert_eq!(err.kind, ErrorKind::InvalidRequest);
    assert_eq!(err.code.as_deref(), Some("provider_requires_surface"));
    assert_eq!(err.status, Some(400));
    assert_eq!(err.retryable, Some(false));
}

#[test]
fn managed_credential_unavailable_is_not_retried() {
    let err = interpret_json_response(
        503,
        Vec::new(),
        obj(vec![(
            "error",
            obj(vec![
                ("type", s("managed_credential_unavailable")),
                ("code", s("managed_credential_unavailable")),
                ("message", s("Unavailable")),
                ("retryable", JsonValue::Bool(true)),
            ]),
        )]),
    )
    .unwrap_err();
    assert_eq!(err.kind, ErrorKind::ManagedCredentialUnavailable);
    assert_eq!(err.retryable, Some(true));
}

#[test]
fn stream_is_incremental_and_yields_done() {
    let payload = stream_payload(Some(obj(vec![
        ("messages", JsonValue::Array(vec![])),
        ("model", s("gpt-test")),
    ])));
    assert_eq!(payload.get("stream"), Some(&JsonValue::Bool(true)));
    let r = route(&Endpoint::ChatCompletions);
    let prepared =
        prepare_request(&tonia_config(Some("tonia_test")), &r.path, r.auth, None, "text/event-stream")
            .unwrap();
    assert_eq!(get(&prepared.headers, "Accept"), Some("text/event-stream"));
    assert!(is_event_stream(200, "text/event-stream"));
    let body = "data: {\"choices\":[{\"delta\":{\"content\":\"o\"}}]}\n\n\
                data: {\"choices\":[{\"finish_reason\":\"stop\"}]}\n\n\
                data: [DONE]\n\n";
    let (first, rest) = stream_chunk("", &body[..20]).unwrap();
    let (second, rest) = stream_chunk(&rest, &body[20..]).unwrap();
    let mut events = first;
    events.extend(second);
    events.extend(stream_flush(&rest).unwrap());
    assert_eq!(events.len(), 3);
    assert_eq!(events[2].data, "[DONE]");
}

#[test]
fn stream_policy_header_yields_zero_events() {
    let h = pairs(&[
        ("x-tonia-policy-block", "regulated_content_detected"),
        ("x-tonia-limit-remaining", "3"),
    ]);
    let (limits, start) = stream_start(200, &h, "text/event-stream");
    assert_eq!(limits.unwrap().remaining.as_deref(), Some("3"));
    // A blocked start ends the stream with its error: no event is delivered.
    let err = match start {
        StreamStart::Blocked(err) => err,
        other => panic!("{other:?}"),
    };
    assert_eq!(err.kind, ErrorKind::PolicyBlock);
    assert_eq!(err.code.as_deref(), Some("regulated_content_detected"));
}

#[test]
fn stream_start_outcomes() {
    let (limits, start) = stream_start(200, &[], "text/event-stream; charset=utf-8");
    assert!(limits.is_none());
    assert!(matches!(start, StreamStart::Events));
    let (_, start) = stream_start(200, &pairs(&[("x-tonia-policy-block", "p")]), "application/json");
    assert!(matches!(start, StreamStart::Body));
    let (limits, start) = stream_start(503, &pairs(&[("x-tonia-limit-used", "4")]), "text/event-stream");
    assert_eq!(limits.unwrap().used.as_deref(), Some("4"));
    assert!(matches!(start, StreamStart::Body));
}

#[test]
fn stream_agent_and_entitlement_headers() {
    let err = tonia_sdk::raise_from_stream_headers(&pairs(&[
        ("x-tonia-agent-block", "tool_calls_disabled_by_profile"),
        ("x-tonia-agent-capability", "tool_calls"),
    ]))
    .unwrap_err();
    assert_eq!(err.kind, ErrorKind::AgentBlock);
    assert_eq!(err.capability(), Some("tool_calls"));
    let err = tonia_sdk::raise_from_stream_headers(&pairs(&[(
        "x-tonia-entitlement-block",
        "managed_budget_exhausted",
    )]))
    .unwrap_err();
    assert_eq!(err.kind, ErrorKind::Entitlement);
    assert_eq!(err.code.as_deref(), Some("managed_budget_exhausted"));
}

#[test]
fn env_key_and_realtime_url_are_read() {
    let config = ToniaBuilder::default()
        .base_url("https://pass.tonia.ca:8443".to_string())
        .resolve(
            Some("from-env-key".to_string()),
            Some("wss://live.example/custom".to_string()),
        );
    assert_eq!(config.realtime_url.as_deref(), Some("wss://live.example/custom"));
    assert_eq!(config.api_key.as_deref(), Some("from-env-key"));
}

#[test]
fn env_api_key_is_sent_as_bearer() {
    let config = ToniaBuilder::default()
        .base_url("http://127.0.0.1:9".to_string())
        .resolve(Some("from-env-key".to_string()), None);
    let r = route(&Endpoint::ModelsList);
    let prepared = prepare_request(&config, &r.path, r.auth, None, "application/json").unwrap();
    assert_eq!(get(&prepared.headers, "Authorization"), Some("Bearer from-env-key"));
}

#[test]
fn create_with_stream_true_by_helper() {
    let body = obj(vec![("model", s("m")), ("stream", JsonValue::Bool(true))]);
    match create_plan(&Endpoint::ChatCompletions, &body) {
        CreatePlan::Refused(e) => assert_eq!(e.code.as_deref(), Some("use_stream_helper")),
        other => panic!("{other:?}"),
    }
    for e in [Endpoint::Messages, Endpoint::Responses, Endpoint::Interactions] {
        assert!(matches!(create_plan(&e, &body), CreatePlan::Stream), "{e:?}");
        assert!(matches!(create_plan(&e, &obj(vec![("model", s("m"))])), CreatePlan::Send));
    }
    assert!(matches!(create_plan(&Endpoint::Embeddings, &body), CreatePlan::Send));
    assert!(matches!(
        create_plan(&Endpoint::ChatCompletions, &obj(vec![("stream", JsonValue::Bool(false))])),
        CreatePlan::Send
    ));
}

#[test]
fn heavy_helpers_take_the_client_timeout_or_the_image_timeout() {
    let d = Duration::from_millis(40);
    assert_eq!(heavy_timeout(Some(d)), RequestTimeout::Client(d));
    assert_eq!(heavy_timeout(None), RequestTimeout::Seconds(IMAGE_TIMEOUT_SECS));
    assert_eq!(route_timeout(&Endpoint::ImagesGenerate, None), Some(RequestTimeout::Seconds(300)));
    assert_eq!(route_timeout(&Endpoint::Interactions, Some(d)), Some(RequestTimeout::Client(d)));
    assert_eq!(route_timeout(&Endpoint::ChatCompletions, Some(d)), None);
}
