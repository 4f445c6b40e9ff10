use tonia_sdk::errors::{parse_request_id, parse_retry_after_seconds};
use tonia_sdk::{
    error_from_http_fallback, error_from_structured, raise_from_response_body,
    raise_from_stream_headers, ErrorKind, JsonValue, ToniaError,
};

fn headers(pairs: &[(&str, &str)]) -> Vec<(String, String)> {
    pairs
        .iter()
        .map(|(k, v)| ((*k).to_string(), (*v).to_string()))
        .collect()
}

fn s(text: &str) -> JsonValue {
    JsonValue::Str(text.to_string())
}

fn obj(entries: Vec<(&str, JsonValue)>) -> JsonValue {
    JsonValue::Object(entries.into_iter().map(|(k, v)| (k.to_string(), v)).collect())
}

fn entries(entries: Vec<(&str, JsonValue)>) -> Vec<(String, JsonValue)> {
    entries.into_iter().map(|(k, v)| (k.to_string(), v)).collect()
}

fn structured(error_type: &str) -> Vec<(String, JsonValue)> {
    entries(vec![
        ("type", s(error_type)),
        ("code", s("synthetic_code")),
        ("message", s("Synthetic")),
        ("retryable", JsonValue::Bool(true)),
    ])
}

fn member<'a>(value: Option<&'a JsonValue>, key: &str) -> Option<&'a JsonValue> {
    value.and_then(|v| v.get(key))
}

#[test]
fn http_200_policy_carrier() {
    let err = raise_from_response_body(
        &obj(vec![(
            "_tonia_policy_block",
            obj(vec![("code", s("regulated_content_detected"))]),
        )]),
        200,
        &[],
    )
    .unwrap_err();
    assert_eq!(err.kind, ErrorKind::PolicyBlock);
    assert_eq!(
        member(err.policy_block(), "code"),
        Some(&s("regulated_content_detected"))
    );
}

#[test]
fn http_200_agent_carrier() {
    let err = raise_from_response_body(
        &obj(vec![(
            "_tonia_agent_block",
            obj(vec![
                ("code", s("tool_calls_disabled_by_profile")),
                ("capability", s("tool_calls")),
                ("retryable", JsonValue::Bool(false)),
            ]),
        )]),
        200,
        &[],
    )
    .unwrap_err();
    assert_eq!(err.kind, ErrorKind::AgentBlock);
    assert_eq!(
        member(err.agent_block(), "code"),
        Some(&s("tool_calls_disabled_by_profile"))
    );
    assert_eq!(err.code.as_deref(), Some("tool_calls_disabled_by_profile"));
    assert_eq!(err.capability(), Some("tool_calls"));
    assert_eq!(err.retryable, Some(false));
}

#[test]
fn http_200_entitlement_carrier() {
    let err = raise_from_response_body(
        &obj(vec![(
            "_tonia_entitlement_block",
            obj(vec![
                ("code", s("managed_budget_exhausted")),
                ("retryable", JsonValue::Bool(false)),
            ]),
        )]),
        200,
        &[],
    )
    .unwrap_err();
    assert_eq!(err.kind, ErrorKind::Entitlement);
    assert_eq!(
        member(err.entitlement_block(), "code"),
        Some(&s("managed_budget_exhausted"))
    );
    assert_eq!(err.code.as_deref(), Some("managed_budget_exhausted"));
    assert_eq!(err.retryable, Some(false));
}

#[test]
fn public_model_flat_404_is_typed() {
    let err = raise_from_response_body(&obj(vec![("error", s("not_found"))]), 404, &[]).unwrap_err();
    assert_eq!(err.kind, ErrorKind::InvalidRequest);
    assert_eq!(err.code.as_deref(), Some("not_found"));
    assert_eq!(err.retryable, Some(false));
}

#[test]
fn structured_error_taxonomy_maps_to_specific_kind() {
    let cases = [
        ("authentication_error", ErrorKind::Authentication),
        ("billing_error", ErrorKind::Billing),
        ("entitlement_error", ErrorKind::Entitlement),
        ("invalid_request_error", ErrorKind::InvalidRequest),
        ("byok_key_missing", ErrorKind::ByokKeyMissing),
        ("policy_block", ErrorKind::PolicyBlock),
        ("agent_block", ErrorKind::AgentBlock),
        ("tenant_upstream_blocked", ErrorKind::TenantUpstreamBlocked),
        (
            "managed_credential_unavailable",
            ErrorKind::ManagedCredentialUnavailable,
        ),
        ("rate_limit_error", ErrorKind::RateLimit),
        ("api_error", ErrorKind::Api),
    ];
    for (error_type, expected) in cases {
        let error = error_from_structured(
            &structured(error_type),
            Some(503),
            None,
            headers(&[("retry-after", "60")]),
        );
        assert_eq!(error.kind, expected, "{error_type}");
        assert_eq!(error.code.as_deref(), Some("synthetic_code"));
        assert_eq!(error.retryable, Some(true));
        assert_eq!(error.status, Some(503));
        assert_eq!(error.header("retry-after"), Some("60"));
        assert_eq!(error.retry_after_seconds(), Some(60));
    }
}

#[test]
fn unknown_structured_type_stays_generic() {
    let error = error_from_structured(&structured("not_a_real_type"), Some(500), None, Vec::new());
    assert_eq!(error.kind, ErrorKind::Tonia);
    assert_eq!(error.error_type, "not_a_real_type");
}

#[test]
fn stream_policy_header_raises() {
    let err = raise_from_stream_headers(&headers(&[(
        "x-tonia-policy-block",
        "regulated_content_detected",
    )]))
    .unwrap_err();
    assert_eq!(err.code.as_deref(), Some("regulated_content_detected"));
    assert_eq!(err.retryable, Some(false));
    assert_eq!(
        member(err.policy_block(), "code"),
        Some(&s("regulated_content_detected"))
    );
}

#[test]
fn stream_agent_header_raises() {
    let err = raise_from_stream_headers(&headers(&[
        ("x-tonia-agent-block", "tool_calls_disabled_by_profile"),
        ("x-tonia-agent-capability", "tool_calls"),
    ]))
    .unwrap_err();
    assert_eq!(err.code.as_deref(), Some("tool_calls_disabled_by_profile"));
    assert_eq!(err.capability(), Some("tool_calls"));
    assert_eq!(err.retryable, Some(false));
    assert_eq!(
        member(err.agent_block(), "code"),
        Some(&s("tool_calls_disabled_by_profile"))
    );
}

#[test]
fn stream_entitlement_header_raises() {
    let err = raise_from_stream_headers(&headers(&[(
        "x-tonia-entitlement-block",
        "managed_budget_exhausted",
    )]))
    .unwrap_err();
    assert_eq!(err.code.as_deref(), Some("managed_budget_exhausted"));
    assert_eq!(err.retryable, Some(true));
}

#[test]
fn stream_headers_without_block_are_noop() {
    raise_from_stream_headers(&headers(&[("content-type", "text/event-stream")])).unwrap();
}

#[test]
fn provider_requires_surface_is_invalid_request() {
    let err = raise_from_response_body(
        &obj(vec![(
            "error",
            obj(vec![
                ("type", s("invalid_request_error")),
                ("code", s("provider_requires_surface")),
                ("required_surface", s("interactions")),
                ("retryable", JsonValue::Bool(false)),
            ]),
        )]),
        400,
        &[],
    )
    .unwrap_err();
    assert_eq!(err.kind, ErrorKind::InvalidRequest);
    assert_eq!(err.code.as_deref(), Some("provider_requires_surface"));
    assert_eq!(err.retryable, Some(false));
    assert_eq!(
        member(member(err.body(), "error"), "required_surface"),
        Some(&s("interactions"))
    );
}

#[test]
fn admission_429_lifts_reason_scope_and_retry_after() {
    let err = raise_from_response_body(
        &obj(vec![(
            "error",
            obj(vec![
                ("type", s("rate_limit_error")),
                ("code", s("admission_rate_limited")),
                ("reason", s("rpm_per_key")),
                ("scope", s("key")),
                ("retryable", JsonValue::Bool(true)),
            ]),
        )]),
        429,
        &headers(&[("Retry-After", "47")]),
    )
    .unwrap_err();
    assert_eq!(err.kind, ErrorKind::RateLimit);
    assert_eq!(err.code.as_deref(), Some("admission_rate_limited"));
    assert_eq!(err.reason(), Some("rpm_per_key"));
    assert_eq!(err.scope(), Some("key"));
    assert_eq!(err.retryable, Some(true));
    assert_eq!(err.retry_after_seconds(), Some(47));
}

#[test]
fn quota_429_is_entitlement_not_rate_limit() {
    let err = raise_from_response_body(
        &obj(vec![(
            "error",
            obj(vec![
                ("type", s("entitlement_error")),
                ("code", s("request_quota_exhausted")),
                ("scope", s("organization")),
                ("retryable", JsonValue::Bool(true)),
            ]),
        )]),
        429,
        &headers(&[("Retry-After", "86400")]),
    )
    .unwrap_err();
    assert_eq!(err.kind, ErrorKind::Entitlement);
    assert_eq!(err.code.as_deref(), Some("request_quota_exhausted"));
    assert_eq!(err.scope(), Some("organization"));
    assert_eq!(err.retryable, Some(true));
    assert_eq!(err.retry_after_seconds(), Some(86400));
}

#[test]
fn http_200_entitlement_carrier_lifts_retry_after_and_scope() {
    let err = raise_from_response_body(
        &obj(vec![(
            "_tonia_entitlement_block",
            obj(vec![
                ("type", s("entitlement_block")),
                ("code", s("request_quota_exhausted")),
                ("scope", s("organization")),
                ("retryable", JsonValue::Bool(true)),
            ]),
        )]),
        200,
        &headers(&[("Retry-After", "3600")]),
    )
    .unwrap_err();
    assert_eq!(err.code.as_deref(), Some("request_quota_exhausted"));
    assert_eq!(err.scope(), Some("organization"));
    assert_eq!(err.retryable, Some(true));
    assert_eq!(err.retry_after_seconds(), Some(3600));
}

#[test]
fn audit_tip_contention_parses_retry_after_and_request_id() {
    let err = raise_from_response_body(
        &obj(vec![(
            "error",
            obj(vec![
                ("type", s("api_error")),
                ("code", s("audit_tip_contention")),
                ("retryable", JsonValue::Bool(true)),
            ]),
        )]),
        503,
        &headers(&[
            ("Retry-After", "1"),
            ("x-tonia-request-id", "tonia_req_abc"),
        ]),
    )
    .unwrap_err();
    assert_eq!(err.kind, ErrorKind::Api);
    assert_eq!(err.code.as_deref(), Some("audit_tip_contention"));
    assert_eq!(err.retryable, Some(true));
    assert_eq!(err.retry_after_seconds(), Some(1));
    assert_eq!(err.request_id(), Some("tonia_req_abc"));
}

#[test]
fn http_date_retry_after_is_ignored() {
    let error = error_from_structured(
        &entries(vec![
            ("type", s("rate_limit_error")),
            ("code", s("admission_rate_limited")),
            ("retryable", JsonValue::Bool(true)),
        ]),
        Some(429),
        None,
        headers(&[("Retry-After", "Wed, 21 Oct 2015 07:28:00 GMT")]),
    );
    assert_eq!(error.kind, ErrorKind::RateLimit);
    assert_eq!(error.retry_after_seconds(), None);
}

#[test]
fn bare_429_fallback_is_retryable_rate_limit() {
    let error = error_from_http_fallback(429, None, headers(&[("Retry-After", "2")]));
    assert_eq!(error.kind, ErrorKind::RateLimit);
    assert_eq!(error.retryable, Some(true));
    assert_eq!(error.retry_after_seconds(), Some(2));
    assert_eq!(error.reason(), None);
}

#[test]
fn bare_503_fallback_is_retryable_api_error() {
    let error = error_from_http_fallback(503, None, headers(&[("Retry-After", "60")]));
    assert_eq!(error.kind, ErrorKind::Api);
    assert_eq!(error.retryable, Some(true));
    assert_eq!(error.retry_after_seconds(), Some(60));
}

#[test]
fn bare_400_fallback_stays_non_retryable() {
    let error = error_from_http_fallback(400, None, Vec::new());
    assert_eq!(error.error_type, "invalid_request_error");
    assert_eq!(error.kind, ErrorKind::Tonia);
    assert_eq!(error.retryable, Some(false));
}

#[test]
fn bare_502_fallback_is_retryable_api_error() {
    let error = error_from_http_fallback(502, None, Vec::new());
    assert_eq!(error.kind, ErrorKind::Api);
    assert_eq!(error.retryable, Some(true));
}

#[test]
fn string_error_envelope_leaves_retryable_none() {
    let err =
        raise_from_response_body(&obj(vec![("error", s("upstream_said_no"))]), 400, &[]).unwrap_err();
    assert_eq!(err.kind, ErrorKind::Tonia);
    assert_eq!(err.error_type, "invalid_request_error");
    assert_eq!(err.retryable, None);
    assert_eq!(err.message, "upstream_said_no");
}

// Further cases of the library's own.

#[test]
fn retry_after_parsing_edges() {
    assert_eq!(parse_retry_after_seconds(&headers(&[("Retry-After", " 12 ")])), Some(12));
    assert_eq!(parse_retry_after_seconds(&headers(&[("retry-after", "")])), None);
    assert_eq!(parse_retry_after_seconds(&headers(&[("retry-after", "-1")])), None);
    assert_eq!(parse_retry_after_seconds(&headers(&[("retry-after", "1.5")])), None);
    assert_eq!(
        parse_retry_after_seconds(&headers(&[("retry-after", "18446744073709551615")])),
        Some(u64::MAX)
    );
    assert_eq!(
        parse_retry_after_seconds(&headers(&[("retry-after", "18446744073709551616")])),
        None
    );
    assert_eq!(parse_retry_after_seconds(&headers(&[])), None);
}

#[test]
fn request_id_is_trimmed_and_blank_is_none() {
    assert_eq!(
        parse_request_id(&headers(&[("X-Tonia-Request-Id", "  abc  ")])),
        Some("abc".to_string())
    );
    assert_eq!(parse_request_id(&headers(&[("x-tonia-request-id", "   ")])), None);
    assert_eq!(parse_request_id(&headers(&[])), None);
}

#[test]
fn client_errors_have_fixed_fields() {
    let e = ToniaError::missing_bearer();
    assert_eq!(e.kind, ErrorKind::Authentication);
    assert_eq!(e.error_type, "authentication_error");
    assert_eq!(e.code.as_deref(), Some("missing_bearer"));
    assert_eq!(e.retryable, Some(false));
    assert_eq!(e.message, "Missing TONIA_API_KEY");
    assert_eq!(e.status, None);

    let p = ToniaError::path_not_allowed("/v2/x");
    assert_eq!(p.kind, ErrorKind::PathNotAllowed);
    assert_eq!(p.message, "Path is not supported by this SDK: /v2/x");
    assert_eq!(p.code.as_deref(), Some("path_not_allowed"));

    let i = ToniaError::invalid_request("bad", "some_code");
    assert_eq!(i.kind, ErrorKind::InvalidRequest);
    assert_eq!(i.error_type, "invalid_request_error");
    assert_eq!(i.code.as_deref(), Some("some_code"));
}

#[test]
fn numeric_carrier_code_is_written_as_json_text() {
    let err = raise_from_response_body(
        &obj(vec![(
            "_tonia_policy_block",
            obj(vec![("code", JsonValue::Number("42".to_string()))]),
        )]),
        200,
        &[],
    )
    .unwrap_err();
    assert_eq!(err.code.as_deref(), Some("42"));
    assert_eq!(err.retryable, Some(false));
}

#[test]
fn structured_numeric_code_is_dropped() {
    let err = raise_from_response_body(
        &obj(vec![(
            "error",
            obj(vec![
                ("type", s("api_error")),
                ("code", JsonValue::Number("42".to_string())),
            ]),
        )]),
        500,
        &[],
    )
    .unwrap_err();
    assert_eq!(err.code, None);
    assert_eq!(err.message, "api_error");
}

#[test]
fn success_body_without_carrier_is_ok() {
    raise_from_response_body(&obj(vec![("data", JsonValue::Array(vec![]))]), 200, &[]).unwrap();
    raise_from_response_body(&JsonValue::Null, 200, &[]).unwrap();
}

#[test]
fn response_errors_keep_status_headers_and_request_id() {
    let h = headers(&[("x-tonia-request-id", " req-9 "), ("Retry-After", "5")]);
    let body = obj(vec![("_tonia_agent_block", obj(vec![("code", s("c"))]))]);
    let err = raise_from_response_body(&body, 200, &h).unwrap_err();
    assert_eq!(err.status, Some(200));
    assert_eq!(err.headers(), h.as_slice());
    assert_eq!(err.body(), Some(&body));
    assert_eq!(err.request_id(), Some("req-9"));
    assert_eq!(err.retry_after_seconds(), Some(5));

    let stream = raise_from_stream_headers(&headers(&[
        ("x-tonia-agent-block", "a"),
        ("x-tonia-request-id", "r1"),
    ]))
    .unwrap_err();
    assert_eq!(stream.status, Some(200));
    assert_eq!(stream.request_id(), Some("r1"));
    assert_eq!(stream.capability(), None);
    assert_eq!(
        stream.agent_block(),
        Some(&obj(vec![("capability", JsonValue::Null), ("code", s("a"))]))
    );
}
