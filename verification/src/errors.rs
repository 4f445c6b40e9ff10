//! Typed errors raised by the tonia Pass client.
use vstd::prelude::*;
use crate::json::{
    entries_get, entries_lookup, entries_view, json_text, opt_json, opt_json_ref,
    spec_json_text, JsonSpec, JsonValue,
};
use crate::limits::{header_get, hview, opt_view, spec_header_get};
use crate::text::{
    chars_of, decimal_string, decimal_text, parse_digits, spec_parse_digits, str_equal, trim,
    trim_chars, string_from_chars,
};

verus! {

/// The family of a [`ToniaError`].
#[derive(Debug, Clone, Copy, PartialEq, Eq, Structural)]
pub enum ErrorKind {
    Tonia,
    Authentication,
    Billing,
    Entitlement,
    InvalidRequest,
    ByokKeyMissing,
    PolicyBlock,
    AgentBlock,
    TenantUpstreamBlocked,
    ManagedCredentialUnavailable,
    RateLimit,
    Api,
    PathNotAllowed,
}

/// An error raised by the client, with what the response said about it.
#[derive(Debug, Clone)]
pub struct ToniaError {
    pub message: String,
    pub kind: ErrorKind,
    pub error_type: String,
    pub code: Option<String>,
    pub retryable: Option<bool>,
    pub status: Option<u16>,
    pub body: Option<JsonValue>,
    pub headers: Vec<(String, String)>,
    pub retry_after_seconds: Option<u64>,
    pub request_id: Option<String>,
    pub entitlement_block: Option<JsonValue>,
    pub scope: Option<String>,
    pub policy_block: Option<JsonValue>,
    pub agent_block: Option<JsonValue>,
    pub capability: Option<String>,
    pub provider: Option<String>,
    pub reason: Option<String>,
}

/// The mathematical value of a [`ToniaError`].
pub struct ErrorView {
    pub message: Seq<char>,
    pub kind: ErrorKind,
    pub error_type: Seq<char>,
    pub code: Option<Seq<char>>,
    pub retryable: Option<bool>,
    pub status: Option<u16>,
    pub body: Option<JsonSpec>,
    pub headers: Seq<(Seq<char>, Seq<char>)>,
    pub retry_after_seconds: Option<u64>,
    pub request_id: Option<Seq<char>>,
    pub entitlement_block: Option<JsonSpec>,
    pub scope: Option<Seq<char>>,
    pub policy_block: Option<JsonSpec>,
    pub agent_block: Option<JsonSpec>,
    pub capability: Option<Seq<char>>,
    pub provider: Option<Seq<char>>,
    pub reason: Option<Seq<char>>,
}

impl View for ToniaError {
    type V = ErrorView;

    open spec fn view(&self) -> ErrorView {
        ErrorView {
            message: self.message@,
            kind: self.kind,
            error_type: self.error_type@,
            code: opt_view(self.code),
            retryable: self.retryable,
            status: self.status,
            body: opt_json(self.body),
            headers: hview(self.headers@),
            retry_after_seconds: self.retry_after_seconds,
            request_id: opt_view(self.request_id),
            entitlement_block: opt_json(self.entitlement_block),
            scope: opt_view(self.scope),
            policy_block: opt_json(self.policy_block),
            agent_block: opt_json(self.agent_block),
            capability: opt_view(self.capability),
            provider: opt_view(self.provider),
            reason: opt_view(self.reason),
        }
    }
}

/// The view of a result that fails with a [`ToniaError`].
pub open spec fn unit_result(r: Result<(), ToniaError>) -> Result<(), ErrorView> {
    match r {
        Ok(()) => Ok(()),
        Err(e) => Err(e@),
    }
}

/// The `Retry-After` header as whole seconds; `None` when it is missing or is not
/// a run of ASCII digits (an HTTP date, for instance) after trimming.
pub open spec fn spec_retry_after(h: Seq<(Seq<char>, Seq<char>)>) -> Option<u64> {
    match spec_header_get(h, "retry-after"@) {
        Some(v) => spec_parse_digits(trim(v)),
        None => None,
    }
}

/// The trimmed `x-tonia-request-id` header, when it is not blank.
pub open spec fn spec_request_id(h: Seq<(Seq<char>, Seq<char>)>) -> Option<Seq<char>> {
    match spec_header_get(h, "x-tonia-request-id"@) {
        Some(v) => if trim(v).len() > 0 { Some(trim(v)) } else { None },
        None => None,
    }
}

/// An error with the given fields; retry delay and request id come from the headers.
pub open spec fn base_error(
    message: Seq<char>,
    kind: ErrorKind,
    error_type: Seq<char>,
    code: Option<Seq<char>>,
    retryable: Option<bool>,
    status: Option<u16>,
    body: Option<JsonSpec>,
    headers: Seq<(Seq<char>, Seq<char>)>,
) -> ErrorView {
    ErrorView {
        message,
        kind,
        error_type,
        code,
        retryable,
        status,
        body,
        headers,
        retry_after_seconds: spec_retry_after(headers),
        request_id: spec_request_id(headers),
        entitlement_block: None,
        scope: None,
        policy_block: None,
        agent_block: None,
        capability: None,
        provider: None,
        reason: None,
    }
}

/// An error of the client itself: no status, no body, no headers.
pub open spec fn client_error(
    message: Seq<char>,
    kind: ErrorKind,
    error_type: Seq<char>,
    code: Seq<char>,
    retryable: Option<bool>,
) -> ErrorView {
    base_error(message, kind, error_type, Some(code), retryable, None, None, Seq::empty())
}

/// Reads the `Retry-After` header as whole seconds.
pub fn parse_retry_after_seconds(headers: &[(String, String)]) -> (r: Option<u64>)
    ensures
        r == spec_retry_after(hview(headers@)),
{
    match header_get(headers, "retry-after") {
        Some(raw) => {
            let chars = chars_of(raw);
            let t = trim_chars(&chars);
            parse_digits(&t)
        },
        None => None,
    }
}

/// Reads the `x-tonia-request-id` header.
pub fn parse_request_id(headers: &[(String, String)]) -> (r: Option<String>)
    ensures
        opt_view(r) == spec_request_id(hview(headers@)),
{
    match header_get(headers, "x-tonia-request-id") {
        Some(raw) => {
            let chars = chars_of(raw);
            let t = trim_chars(&chars);
            if t.len() == 0 {
                None
            } else {
                Some(string_from_chars(&t))
            }
        },
        None => None,
    }
}

fn no_headers() -> (r: Vec<(String, String)>)
    ensures
        hview(r@) == Seq::<(Seq<char>, Seq<char>)>::empty(),
{
    let r: Vec<(String, String)> = Vec::new();
    assert(hview(r@) =~= Seq::<(Seq<char>, Seq<char>)>::empty());
    r
}

fn text(s: &str) -> (r: String)
    ensures
        r@ == s@,
{
    s.to_owned()
}

fn concat(a: &str, b: &str) -> (r: String)
    ensures
        r@ == a@ + b@,
{
    let mut r = a.to_owned();
    r.append(b);
    r
}

impl ToniaError {
    #[allow(clippy::too_many_arguments)]
    pub(crate) fn new(
        message: String,
        kind: ErrorKind,
        error_type: String,
        code: Option<String>,
        retryable: Option<bool>,
        status: Option<u16>,
        body: Option<JsonValue>,
        headers: Vec<(String, String)>,
    ) -> (r: Self)
        ensures
            r@ == base_error(
                message@,
                kind,
                error_type@,
                opt_view(code),
                retryable,
                status,
                opt_json(body),
                hview(headers@),
            ),
    {
        let retry_after_seconds = parse_retry_after_seconds(headers.as_slice());
        let request_id = parse_request_id(headers.as_slice());
        ToniaError {
            message,
            kind,
            error_type,
            code,
            retryable,
            status,
            body,
            headers,
            retry_after_seconds,
            request_id,
            entitlement_block: None,
            scope: None,
            policy_block: None,
            agent_block: None,
            capability: None,
            provider: None,
            reason: None,
        }
    }

    /// The error for a path that this client does not send.
    pub fn path_not_allowed(path: &str) -> (r: Self)
        ensures
            r@ == client_error(
                "Path is not supported by this SDK: "@ + path@,
                ErrorKind::PathNotAllowed,
                "client_error"@,
                "path_not_allowed"@,
                Some(false),
            ),
    {
        ToniaError::new(
            concat("Path is not supported by this SDK: ", path),
            ErrorKind::PathNotAllowed,
            text("client_error"),
            Some(text("path_not_allowed")),
            Some(false),
            None,
            None,
            no_headers(),
        )
    }

    /// An invalid-request error of the client, with its code.
    pub fn invalid_request(message: &str, code: &str) -> (r: Self)
        ensures
            r@ == client_error(
                message@,
                ErrorKind::InvalidRequest,
                "invalid_request_error"@,
                code@,
                Some(false),
            ),
    {
        ToniaError::new(
            text(message),
            ErrorKind::InvalidRequest,
            text("invalid_request_error"),
            Some(text(code)),
            Some(false),
            None,
            None,
            no_headers(),
        )
    }

    /// The error for a request that needs an API key when none is set.
    pub fn missing_bearer() -> (r: Self)
        ensures
            r@ == client_error(
                "Missing TONIA_API_KEY"@,
                ErrorKind::Authentication,
                "authentication_error"@,
                "missing_bearer"@,
                Some(false),
            ),
    {
        ToniaError::new(
            text("Missing TONIA_API_KEY"),
            ErrorKind::Authentication,
            text("authentication_error"),
            Some(text("missing_bearer")),
            Some(false),
            None,
            None,
            no_headers(),
        )
    }

    /// The first non-empty header `name` of the response, ignoring ASCII case.
    pub fn header(&self, name: &str) -> (r: Option<&str>)
        ensures
            match r {
                Some(v) => spec_header_get(self@.headers, name@) == Some(v@),
                None => spec_header_get(self@.headers, name@) is None,
            },
    {
        header_get(self.headers.as_slice(), name)
    }

    pub fn body(&self) -> (r: Option<&JsonValue>)
        ensures
            opt_json_ref(r) == self@.body,
    {
        self.body.as_ref()
    }

    pub fn headers(&self) -> (r: &[(String, String)])
        ensures
            hview(r@) == self@.headers,
    {
        self.headers.as_slice()
    }

    pub fn retry_after_seconds(&self) -> (r: Option<u64>)
        ensures
            r == self@.retry_after_seconds,
    {
        self.retry_after_seconds
    }

    pub fn request_id(&self) -> (r: Option<&str>)
        ensures
            opt_str(r) == self@.request_id,
    {
        as_deref(&self.request_id)
    }

    pub fn entitlement_block(&self) -> (r: Option<&JsonValue>)
        ensures
            opt_json_ref(r) == self@.entitlement_block,
    {
        self.entitlement_block.as_ref()
    }

    pub fn scope(&self) -> (r: Option<&str>)
        ensures
            opt_str(r) == self@.scope,
    {
        as_deref(&self.scope)
    }

    pub fn policy_block(&self) -> (r: Option<&JsonValue>)
        ensures
            opt_json_ref(r) == self@.policy_block,
    {
        self.policy_block.as_ref()
    }

    pub fn agent_block(&self) -> (r: Option<&JsonValue>)
        ensures
            opt_json_ref(r) == self@.agent_block,
    {
        self.agent_block.as_ref()
    }

    pub fn capability(&self) -> (r: Option<&str>)
        ensures
            opt_str(r) == self@.capability,
    {
        as_deref(&self.capability)
    }

    pub fn provider(&self) -> (r: Option<&str>)
        ensures
            opt_str(r) == self@.provider,
    {
        as_deref(&self.provider)
    }

    pub fn reason(&self) -> (r: Option<&str>)
        ensures
            opt_str(r) == self@.reason,
    {
        as_deref(&self.reason)
    }

    fn with_scope(self, scope: Option<String>) -> (r: Self)
        ensures
            r@ == (ErrorView { scope: opt_view(scope), ..self@ }),
    {
        ToniaError { scope, ..self }
    }

    fn with_capability(self, capability: Option<String>) -> (r: Self)
        ensures
            r@ == (ErrorView { capability: opt_view(capability), ..self@ }),
    {
        ToniaError { capability, ..self }
    }

    fn with_provider(self, provider: Option<String>) -> (r: Self)
        ensures
            r@ == (ErrorView { provider: opt_view(provider), ..self@ }),
    {
        ToniaError { provider, ..self }
    }

    fn with_reason(self, reason: Option<String>) -> (r: Self)
        ensures
            r@ == (ErrorView { reason: opt_view(reason), ..self@ }),
    {
        ToniaError { reason, ..self }
    }

    fn with_policy_block(self, block: JsonValue) -> (r: Self)
        ensures
            r@ == (ErrorView { policy_block: Some(block@), ..self@ }),
    {
        ToniaError { policy_block: Some(block), ..self }
    }

    fn with_agent_block(self, block: JsonValue) -> (r: Self)
        ensures
            r@ == (ErrorView { agent_block: Some(block@), ..self@ }),
    {
        ToniaError { agent_block: Some(block), ..self }
    }

    fn with_entitlement_block(self, block: JsonValue) -> (r: Self)
        ensures
            r@ == (ErrorView { entitlement_block: Some(block@), ..self@ }),
    {
        ToniaError { entitlement_block: Some(block), ..self }
    }
}

/// The text stored under `key` among object entries.
pub open spec fn entries_str(e: Seq<(Seq<char>, JsonSpec)>, key: Seq<char>) -> Option<Seq<char>> {
    match entries_get(e, key) {
        Some(v) => v.as_str(),
        None => None,
    }
}

fn entry_string(e: &Vec<(String, JsonValue)>, key: &str) -> (r: Option<String>)
    ensures
        opt_view(r) == entries_str(entries_view(e@), key@),
{
    match entries_lookup(e, key) {
        Some(v) => match v.as_str() {
            Some(t) => Some(t.to_owned()),
            None => None,
        },
        None => None,
    }
}

fn member_string(v: &JsonValue, key: &str) -> (r: Option<String>)
    ensures
        opt_view(r) == v@.get_str(key@),
{
    match v.get(key) {
        Some(x) => match x.as_str() {
            Some(t) => Some(t.to_owned()),
            None => None,
        },
        None => None,
    }
}

/// A number text whose digits before any exponent are not all zero.
pub open spec fn mantissa_nonzero(t: Seq<char>) -> bool
    decreases t.len(),
{
    if t.len() == 0 || t[0] == 'e' || t[0] == 'E' {
        false
    } else if '1' <= t[0] <= '9' {
        true
    } else {
        mantissa_nonzero(t.subrange(1, t.len() as int))
    }
}

/// Truthiness of a JSON value: `null`, `false`, zero, and empty texts, arrays and objects are false.
pub open spec fn spec_json_truthy(v: JsonSpec) -> bool {
    match v {
        JsonSpec::Null => false,
        JsonSpec::Bool(b) => b,
        JsonSpec::Number(t) => mantissa_nonzero(t),
        JsonSpec::Str(s) => s.len() > 0,
        JsonSpec::Array(a) => a.len() > 0,
        JsonSpec::Object(o) => o.len() > 0,
    }
}

/// Whether a block carrier says the request may be retried; `default` when it does not say.
pub open spec fn spec_carrier_retryable(c: JsonSpec, default: bool) -> bool {
    if !c.is_object() {
        default
    } else {
        match c.get("retryable"@) {
            None => default,
            Some(JsonSpec::Null) => default,
            Some(v) => spec_json_truthy(v),
        }
    }
}

/// The `code` of a block carrier as text: texts as they are, other values as JSON text;
/// nothing for a missing, `null`, empty or `false` code.
pub open spec fn spec_json_code(c: JsonSpec) -> Option<Seq<char>> {
    match c.get("code"@) {
        None => None,
        Some(JsonSpec::Null) => None,
        Some(JsonSpec::Str(s)) => if s.len() == 0 { None } else { Some(s) },
        Some(JsonSpec::Bool(false)) => None,
        Some(other) => Some(spec_json_text(other)),
    }
}

fn number_nonzero(t: &str) -> (r: bool)
    ensures
        r == mantissa_nonzero(t@),
{
    let c = chars_of(t);
    let ghost s = c@;
    assert(s.subrange(0, s.len() as int) =~= s);
    let mut i: usize = 0;
    while i < c.len()
        invariant
            s == c@,
            s == t@,
            i <= s.len(),
            mantissa_nonzero(s) == mantissa_nonzero(s.subrange(i as int, s.len() as int)),
        decreases c.len() - i,
    {
        let x = c[i];
        let ghost sub = s.subrange(i as int, s.len() as int);
        assert(sub.len() > 0);
        assert(sub[0] == x);
        if x == 'e' || x == 'E' {
            assert(!mantissa_nonzero(sub));
            return false;
        }
        if '1' <= x && x <= '9' {
            assert(mantissa_nonzero(sub));
            return true;
        }
        assert(s.subrange(i as int, s.len() as int).subrange(1, s.len() - i) =~= s.subrange(i + 1, s.len() as int));
        i = i + 1;
    }
    false
}

fn json_truthy(v: &JsonValue) -> (r: bool)
    ensures
        r == spec_json_truthy(v@),
{
    match v {
        JsonValue::Null => false,
        JsonValue::Bool(b) => *b,
        JsonValue::Number(t) => number_nonzero(t.as_str()),
        JsonValue::Str(s) => !s.as_str().is_empty(),
        JsonValue::Array(a) => a.len() > 0,
        JsonValue::Object(o) => o.len() > 0,
    }
}

fn carrier_retryable(c: &JsonValue, default: bool) -> (r: bool)
    ensures
        r == spec_carrier_retryable(c@, default),
{
    if !c.is_object() {
        return default;
    }
    match c.get("retryable") {
        None => default,
        Some(JsonValue::Null) => default,
        Some(v) => json_truthy(v),
    }
}

fn json_code(c: &JsonValue) -> (r: Option<String>)
    ensures
        opt_view(r) == spec_json_code(c@),
{
    match c.get("code") {
        None => None,
        Some(JsonValue::Null) => None,
        Some(JsonValue::Str(s)) => if s.as_str().is_empty() {
            None
        } else {
            Some(s.clone())
        },
        Some(JsonValue::Bool(false)) => None,
        Some(other) => Some(json_text(other)),
    }
}

/// The kind of error that a structured `type` names.
pub open spec fn kind_for_type(t: Seq<char>) -> ErrorKind {
    if t == "authentication_error"@ {
        ErrorKind::Authentication
    } else if t == "billing_error"@ {
        ErrorKind::Billing
    } else if t == "entitlement_error"@ {
        ErrorKind::Entitlement
    } else if t == "invalid_request_error"@ {
        ErrorKind::InvalidRequest
    } else if t == "byok_key_missing"@ {
        ErrorKind::ByokKeyMissing
    } else if t == "policy_block"@ {
        ErrorKind::PolicyBlock
    } else if t == "agent_block"@ {
        ErrorKind::AgentBlock
    } else if t == "tenant_upstream_blocked"@ {
        ErrorKind::TenantUpstreamBlocked
    } else if t == "managed_credential_unavailable"@ {
        ErrorKind::ManagedCredentialUnavailable
    } else if t == "rate_limit_error"@ {
        ErrorKind::RateLimit
    } else if t == "api_error"@ {
        ErrorKind::Api
    } else {
        ErrorKind::Tonia
    }
}

fn kind_for_type_exec(t: &str) -> (r: ErrorKind)
    ensures
        r == kind_for_type(t@),
{
    if str_equal(t, "authentication_error") {
        ErrorKind::Authentication
    } else if str_equal(t, "billing_error") {
        ErrorKind::Billing
    } else if str_equal(t, "entitlement_error") {
        ErrorKind::Entitlement
    } else if str_equal(t, "invalid_request_error") {
        ErrorKind::InvalidRequest
    } else if str_equal(t, "byok_key_missing") {
        ErrorKind::ByokKeyMissing
    } else if str_equal(t, "policy_block") {
        ErrorKind::PolicyBlock
    } else if str_equal(t, "agent_block") {
        ErrorKind::AgentBlock
    } else if str_equal(t, "tenant_upstream_blocked") {
        ErrorKind::TenantUpstreamBlocked
    } else if str_equal(t, "managed_credential_unavailable") {
        ErrorKind::ManagedCredentialUnavailable
    } else if str_equal(t, "rate_limit_error") {
        ErrorKind::RateLimit
    } else if str_equal(t, "api_error") {
        ErrorKind::Api
    } else {
        ErrorKind::Tonia
    }
}

/// The message of a structured error: its `message`, else its `code`, else its `type`.
pub open spec fn structured_message(e: Seq<(Seq<char>, JsonSpec)>) -> Seq<char> {
    match entries_str(e, "message"@) {
        Some(m) => m,
        None => match entries_str(e, "code"@) {
            Some(c) => c,
            None => match entries_str(e, "type"@) {
                Some(t) => t,
                None => "tonia API error"@,
            },
        },
    }
}

/// The `type` of a structured error, `unknown` when it has none.
pub open spec fn structured_type(e: Seq<(Seq<char>, JsonSpec)>) -> Seq<char> {
    match entries_str(e, "type"@) {
        Some(t) => t,
        None => "unknown"@,
    }
}

/// The error that a structured `{"error": {...}}` envelope describes.
pub open spec fn spec_error_from_structured(
    e: Seq<(Seq<char>, JsonSpec)>,
    status: Option<u16>,
    body: Option<JsonSpec>,
    headers: Seq<(Seq<char>, Seq<char>)>,
) -> ErrorView {
    let t = structured_type(e);
    let retryable = match entries_get(e, "retryable"@) {
        Some(v) => v.as_bool(),
        None => None,
    };
    let base = base_error(
        structured_message(e),
        kind_for_type(t),
        t,
        entries_str(e, "code"@),
        retryable,
        status,
        body,
        headers,
    );
    if t == "entitlement_error"@ {
        ErrorView { scope: entries_str(e, "scope"@), ..base }
    } else if t == "agent_block"@ {
        ErrorView { capability: entries_str(e, "capability"@), ..base }
    } else if t == "managed_credential_unavailable"@ {
        ErrorView { provider: entries_str(e, "provider"@), ..base }
    } else if t == "rate_limit_error"@ {
        ErrorView { reason: entries_str(e, "reason"@), scope: entries_str(e, "scope"@), ..base }
    } else {
        base
    }
}

/// Builds the typed error of a structured error envelope.
pub fn error_from_structured(
    err: &Vec<(String, JsonValue)>,
    status: Option<u16>,
    body: Option<JsonValue>,
    headers: Vec<(String, String)>,
) -> (r: ToniaError)
    ensures
        r@ == spec_error_from_structured(entries_view(err@), status, opt_json(body), hview(headers@)),
{
    let message = match entry_string(err, "message") {
        Some(m) => m,
        None => match entry_string(err, "code") {
            Some(c) => c,
            None => match entry_string(err, "type") {
                Some(t) => t,
                None => text("tonia API error"),
            },
        },
    };
    let code = entry_string(err, "code");
    let retryable = match entries_lookup(err, "retryable") {
        Some(JsonValue::Bool(b)) => Some(*b),
        _ => None,
    };
    let error_type = match entry_string(err, "type") {
        Some(t) => t,
        None => text("unknown"),
    };
    let kind = kind_for_type_exec(error_type.as_str());
    let is_entitlement = str_equal(error_type.as_str(), "entitlement_error");
    let is_agent = str_equal(error_type.as_str(), "agent_block");
    let is_managed = str_equal(error_type.as_str(), "managed_credential_unavailable");
    let is_rate = str_equal(error_type.as_str(), "rate_limit_error");
    let base = ToniaError::new(message, kind, error_type, code, retryable, status, body, headers);
    if is_entitlement {
        base.with_scope(entry_string(err, "scope"))
    } else if is_agent {
        base.with_capability(entry_string(err, "capability"))
    } else if is_managed {
        base.with_provider(entry_string(err, "provider"))
    } else if is_rate {
        let reason = entry_string(err, "reason");
        let scope = entry_string(err, "scope");
        base.with_reason(reason).with_scope(scope)
    } else {
        base
    }
}

/// The error for a failed HTTP status whose body says nothing typed.
pub open spec fn spec_http_fallback(
    status: u16,
    body: Option<JsonSpec>,
    headers: Seq<(Seq<char>, Seq<char>)>,
) -> ErrorView {
    let message = "HTTP "@ + decimal_text(status as nat);
    if status == 429 {
        base_error(message, ErrorKind::RateLimit, "rate_limit_error"@, None, Some(true), Some(status), body, headers)
    } else if status == 502 || status == 503 {
        base_error(message, ErrorKind::Api, "api_error"@, None, Some(true), Some(status), body, headers)
    } else {
        base_error(message, ErrorKind::Tonia, "invalid_request_error"@, None, Some(false), Some(status), body, headers)
    }
}

/// Builds the error of a failed HTTP status from the status alone.
pub fn error_from_http_fallback(
    status: u16,
    body: Option<JsonValue>,
    headers: Vec<(String, String)>,
) -> (r: ToniaError)
    ensures
        r@ == spec_http_fallback(status, opt_json(body), hview(headers@)),
{
    let digits = decimal_string(status as u64);
    let message = concat("HTTP ", digits.as_str());
    if status == 429 {
        ToniaError::new(message, ErrorKind::RateLimit, text("rate_limit_error"), None, Some(true), Some(status), body, headers)
    } else if status == 502 || status == 503 {
        ToniaError::new(message, ErrorKind::Api, text("api_error"), None, Some(true), Some(status), body, headers)
    } else {
        ToniaError::new(message, ErrorKind::Tonia, text("invalid_request_error"), None, Some(false), Some(status), body, headers)
    }
}

/// `{"code": code}`.
pub open spec fn code_object(code: Seq<char>) -> JsonSpec {
    JsonSpec::Object(seq![("code"@, JsonSpec::Str(code))])
}

/// `{"capability": capability, "code": code}`, with `null` for a missing capability.
pub open spec fn agent_object(code: Seq<char>, capability: Option<Seq<char>>) -> JsonSpec {
    JsonSpec::Object(
        seq![
            ("capability"@, text_or_null(capability)),
            ("code"@, JsonSpec::Str(code)),
        ],
    )
}

/// A text as a JSON string, `null` for none.
pub open spec fn text_or_null(t: Option<Seq<char>>) -> JsonSpec {
    match t {
        Some(c) => JsonSpec::Str(c),
        None => JsonSpec::Null,
    }
}

/// What the block headers of a streamed response raise: a policy block first, then an
/// entitlement block, then an agent block; nothing without one.
pub open spec fn spec_raise_from_stream_headers(h: Seq<(Seq<char>, Seq<char>)>) -> Result<(), ErrorView> {
    match spec_header_get(h, "x-tonia-policy-block"@) {
        Some(p) => Err(ErrorView {
            policy_block: Some(code_object(p)),
            ..base_error("tonia policy block"@, ErrorKind::PolicyBlock, "policy_block"@, Some(p), Some(false), Some(200), None, h)
        }),
        None => match spec_header_get(h, "x-tonia-entitlement-block"@) {
            Some(e) => Err(ErrorView {
                entitlement_block: Some(code_object(e)),
                ..base_error("tonia entitlement block"@, ErrorKind::Entitlement, "entitlement_error"@, Some(e), Some(true), Some(200), None, h)
            }),
            None => match spec_header_get(h, "x-tonia-agent-block"@) {
                Some(a) => {
                    let cap = spec_header_get(h, "x-tonia-agent-capability"@);
                    Err(ErrorView {
                        capability: cap,
                        agent_block: Some(agent_object(a, cap)),
                        ..base_error("tonia agent block"@, ErrorKind::AgentBlock, "agent_block"@, Some(a), Some(false), Some(200), None, h)
                    })
                },
                None => Ok(()),
            },
        },
    }
}

fn code_object_exec(code: &str) -> (r: JsonValue)
    ensures
        r@ == code_object(code@),
{
    let mut entries: Vec<(String, JsonValue)> = Vec::new();
    entries.push((text("code"), JsonValue::Str(text(code))));
    let r = JsonValue::Object(entries);
    proof {
        crate::json::lemma_object_view(entries);
        assert(entries_view(entries@) =~= seq![("code"@, JsonSpec::Str(code@))]);
    }
    r
}

fn agent_object_exec(code: &str, capability: &Option<String>) -> (r: JsonValue)
    ensures
        r@ == agent_object(code@, opt_view(*capability)),
{
    let cap = match capability {
        Some(c) => JsonValue::Str(c.clone()),
        None => JsonValue::Null,
    };
    assert(cap@ == text_or_null(opt_view(*capability)));
    let mut entries: Vec<(String, JsonValue)> = Vec::new();
    entries.push((text("capability"), cap));
    entries.push((text("code"), JsonValue::Str(text(code))));
    let r = JsonValue::Object(entries);
    proof {
        crate::json::lemma_object_view(entries);
        assert(entries_view(entries@) =~= seq![
            ("capability"@, text_or_null(opt_view(*capability))),
            ("code"@, JsonSpec::Str(code@)),
        ]);
    }
    r
}

fn owned_headers(headers: &[(String, String)]) -> (r: Vec<(String, String)>)
    ensures
        hview(r@) == hview(headers@),
{
    let mut r: Vec<(String, String)> = Vec::new();
    let mut i: usize = 0;
    while i < headers.len()
        invariant
            i <= headers@.len(),
            r@.len() == i,
            hview(r@) == hview(headers@.subrange(0, i as int)),
        decreases headers.len() - i,
    {
        let k = headers[i].0.clone();
        let v = headers[i].1.clone();
        let ghost old_r = r@;
        r.push((k, v));
        proof {
            let a = hview(r@);
            let b = hview(headers@.subrange(0, i + 1));
            assert(a.len() == b.len());
            assert forall|j: int| 0 <= j < a.len() implies a[j] == b[j] by {
                if j < i {
                    assert(hview(old_r)[j] == hview(headers@.subrange(0, i as int))[j]);
                }
            }
            assert(a =~= b);
        }
        i = i + 1;
    }
    assert(headers@.subrange(0, headers@.len() as int) =~= headers@);
    r
}

/// Raises the block that the headers of a streamed response announce.
pub fn raise_from_stream_headers(headers: &[(String, String)]) -> (r: Result<(), ToniaError>)
    ensures
        unit_result(r) == spec_raise_from_stream_headers(hview(headers@)),
{
    if let Some(policy) = header_get(headers, "x-tonia-policy-block") {
        let e = ToniaError::new(
            text("tonia policy block"),
            ErrorKind::PolicyBlock,
            text("policy_block"),
            Some(text(policy)),
            Some(false),
            Some(200),
            None,
            owned_headers(headers),
        );
        return Err(e.with_policy_block(code_object_exec(policy)));
    }
    if let Some(entitlement) = header_get(headers, "x-tonia-entitlement-block") {
        let e = ToniaError::new(
            text("tonia entitlement block"),
            ErrorKind::Entitlement,
            text("entitlement_error"),
            Some(text(entitlement)),
            Some(true),
            Some(200),
            None,
            owned_headers(headers),
        );
        return Err(e.with_entitlement_block(code_object_exec(entitlement)));
    }
    if let Some(agent) = header_get(headers, "x-tonia-agent-block") {
        let capability = match header_get(headers, "x-tonia-agent-capability") {
            Some(c) => Some(text(c)),
            None => None,
        };
        let block = agent_object_exec(agent, &capability);
        let e = ToniaError::new(
            text("tonia agent block"),
            ErrorKind::AgentBlock,
            text("agent_block"),
            Some(text(agent)),
            Some(false),
            Some(200),
            None,
            owned_headers(headers),
        );
        return Err(e.with_capability(capability).with_agent_block(block));
    }
    Ok(())
}

/// What a response body raises: on status 200 the block carriers (policy, then agent, then
/// entitlement); on 404 a flat `{"error": "not_found"}`; otherwise an `error` envelope, either
/// structured or a bare text. Bodies that are not objects raise nothing.
pub open spec fn spec_raise_from_response_body(
    body: JsonSpec,
    status: u16,
    h: Seq<(Seq<char>, Seq<char>)>,
) -> Result<(), ErrorView> {
    if !body.is_object() {
        Ok(())
    } else if status == 200 {
        match body.get("_tonia_policy_block"@) {
            Some(c) => Err(ErrorView {
                policy_block: Some(c),
                ..base_error("tonia policy block"@, ErrorKind::PolicyBlock, "policy_block"@, spec_json_code(c),
                    Some(spec_carrier_retryable(c, false)), Some(200), Some(body), h)
            }),
            None => match body.get("_tonia_agent_block"@) {
                Some(c) => Err(ErrorView {
                    agent_block: Some(c),
                    capability: c.get_str("capability"@),
                    ..base_error("tonia agent block"@, ErrorKind::AgentBlock, "agent_block"@, spec_json_code(c),
                        Some(spec_carrier_retryable(c, false)), Some(200), Some(body), h)
                }),
                None => match body.get("_tonia_entitlement_block"@) {
                    Some(c) => Err(ErrorView {
                        entitlement_block: Some(c),
                        scope: c.get_str("scope"@),
                        ..base_error("tonia entitlement block"@, ErrorKind::Entitlement, "entitlement_error"@,
                            spec_json_code(c), Some(spec_carrier_retryable(c, true)), Some(200), Some(body), h)
                    }),
                    None => Ok(()),
                },
            },
        }
    } else if status == 404 && body.get_str("error"@) == Some("not_found"@) {
        Err(base_error("not_found"@, ErrorKind::InvalidRequest, "invalid_request_error"@, Some("not_found"@),
            Some(false), Some(404), Some(body), h))
    } else {
        match body.get("error"@) {
            Some(JsonSpec::Object(env)) => Err(spec_error_from_structured(env, Some(status), Some(body), h)),
            Some(JsonSpec::Str(s)) => Err(base_error(s, ErrorKind::Tonia, "invalid_request_error"@, None, None,
                Some(status), Some(body), h)),
            _ => Ok(()),
        }
    }
}

/// A block carrier that does not say whether to retry: its `retryable` is missing or `null`.
pub open spec fn retry_unsaid(c: JsonSpec) -> bool {
    c.get("retryable"@) is None || c.get("retryable"@) == Some(JsonSpec::Null)
}

/// The block carriers of a successful body, checked in order policy, agent, entitlement: the one
/// found raises its kind of error; a policy or agent block is not retryable and an entitlement
/// block is, unless the carrier says otherwise, and a carrier's boolean `retryable` is taken as
/// it is.
pub proof fn law_carrier_retry_defaults(body: JsonSpec, h: Seq<(Seq<char>, Seq<char>)>)
    requires
        body.is_object(),
    ensures
        body.get("_tonia_policy_block"@) matches Some(c) ==> (spec_raise_from_response_body(body, 200, h) matches Err(e)
            && e.kind == ErrorKind::PolicyBlock
            && (retry_unsaid(c) ==> e.retryable == Some(false))
            && (c.get("retryable"@) matches Some(JsonSpec::Bool(b)) ==> e.retryable == Some(b))),
        body.get("_tonia_policy_block"@) is None ==> (body.get("_tonia_agent_block"@) matches Some(c)
            ==> (spec_raise_from_response_body(body, 200, h) matches Err(e)
            && e.kind == ErrorKind::AgentBlock
            && (retry_unsaid(c) ==> e.retryable == Some(false))
            && (c.get("retryable"@) matches Some(JsonSpec::Bool(b)) ==> e.retryable == Some(b)))),
        body.get("_tonia_policy_block"@) is None && body.get("_tonia_agent_block"@) is None
            ==> (body.get("_tonia_entitlement_block"@) matches Some(c)
            ==> (spec_raise_from_response_body(body, 200, h) matches Err(e)
            && e.kind == ErrorKind::Entitlement
            && (retry_unsaid(c) ==> e.retryable == Some(true))
            && (c.get("retryable"@) matches Some(JsonSpec::Bool(b)) ==> e.retryable == Some(b)))),
        body.get("_tonia_policy_block"@) is None && body.get("_tonia_agent_block"@) is None
            && body.get("_tonia_entitlement_block"@) is None ==> spec_raise_from_response_body(body, 200, h) is Ok,
{
}

/// Every error that a response raises names the response's status, keeps its headers (and its
/// body, when there is one), and lifts its `Retry-After` seconds and request id, so that a
/// caller can decide for itself whether and when to retry.
pub proof fn law_response_errors_keep_context(body: JsonSpec, status: u16, h: Seq<(Seq<char>, Seq<char>)>)
    ensures
        spec_raise_from_response_body(body, status, h) matches Err(e) ==> {
            &&& e.status == Some(status)
            &&& e.headers == h
            &&& e.body == Some(body)
            &&& e.retry_after_seconds == spec_retry_after(h)
            &&& e.request_id == spec_request_id(h)
        },
        spec_raise_from_stream_headers(h) matches Err(e) ==> {
            &&& e.status == Some(200u16)
            &&& e.headers == h
            &&& e.retry_after_seconds == spec_retry_after(h)
            &&& e.request_id == spec_request_id(h)
        },
        ({
            let e = spec_http_fallback(status, Some(body), h);
            &&& e.status == Some(status)
            &&& e.headers == h
            &&& e.body == Some(body)
            &&& e.retry_after_seconds == spec_retry_after(h)
            &&& e.request_id == spec_request_id(h)
            &&& e.retryable == Some(status == 429 || status == 502 || status == 503)
        }),
{
}

/// Raises the typed error that a response body carries.
pub fn raise_from_response_body(
    body: &JsonValue,
    status: u16,
    headers: &[(String, String)],
) -> (r: Result<(), ToniaError>)
    ensures
        unit_result(r) == spec_raise_from_response_body(body@, status, hview(headers@)),
{
    if !body.is_object() {
        return Ok(());
    }
    if status == 200 {
        if let Some(carrier) = body.get("_tonia_policy_block") {
            let e = ToniaError::new(
                text("tonia policy block"),
                ErrorKind::PolicyBlock,
                text("policy_block"),
                json_code(carrier),
                Some(carrier_retryable(carrier, false)),
                Some(200),
                Some(body.deep_clone()),
                owned_headers(headers),
            );
            return Err(e.with_policy_block(carrier.deep_clone()));
        }
        if let Some(carrier) = body.get("_tonia_agent_block") {
            let e = ToniaError::new(
                text("tonia agent block"),
                ErrorKind::AgentBlock,
                text("agent_block"),
                json_code(carrier),
                Some(carrier_retryable(carrier, false)),
                Some(200),
                Some(body.deep_clone()),
                owned_headers(headers),
            );
            let capability = member_string(carrier, "capability");
            return Err(e.with_agent_block(carrier.deep_clone()).with_capability(capability));
        }
        if let Some(carrier) = body.get("_tonia_entitlement_block") {
            let e = ToniaError::new(
                text("tonia entitlement block"),
                ErrorKind::Entitlement,
                text("entitlement_error"),
                json_code(carrier),
                Some(carrier_retryable(carrier, true)),
                Some(200),
                Some(body.deep_clone()),
                owned_headers(headers),
            );
            let scope = member_string(carrier, "scope");
            return Err(e.with_entitlement_block(carrier.deep_clone()).with_scope(scope));
        }
        return Ok(());
    }
    if status == 404 {
        let flat = match body.get("error") {
            Some(v) => match v.as_str() {
                Some(t) => str_equal(t, "not_found"),
                None => false,
            },
            None => false,
        };
        if flat {
            return Err(ToniaError::new(
                text("not_found"),
                ErrorKind::InvalidRequest,
                text("invalid_request_error"),
                Some(text("not_found")),
                Some(false),
                Some(404),
                Some(body.deep_clone()),
                owned_headers(headers),
            ));
        }
    }
    match body.get("error") {
        Some(JsonValue::Object(envelope)) => {
            proof { crate::json::lemma_object_view(*envelope); }
            Err(error_from_structured(
            envelope,
            Some(status),
            Some(body.deep_clone()),
            owned_headers(headers),
        ))},
        Some(JsonValue::Str(envelope)) => Err(ToniaError::new(
            envelope.clone(),
            ErrorKind::Tonia,
            text("invalid_request_error"),
            None,
            None,
            Some(status),
            Some(body.deep_clone()),
            owned_headers(headers),
        )),
        _ => Ok(()),
    }
}

pub open spec fn opt_str(o: Option<&str>) -> Option<Seq<char>> {
    match o {
        Some(s) => Some(s@),
        None => None,
    }
}

fn as_deref(o: &Option<String>) -> (r: Option<&str>)
    ensures
        opt_str(r) == opt_view(*o),
{
    match o {
        Some(s) => Some(s.as_str()),
        None => None,
    }
}

} // verus!
