//! What the client decides around each request: its configuration, what a request sends, and
//! what a response gives back. The transport itself runs outside this crate.
use vstd::prelude::*;
use crate::errors::{
    spec_http_fallback, spec_raise_from_response_body, unit_result, ErrorView, ToniaError,
};
use crate::escape::spec_assert_path_allowed;
use crate::json::{opt_json, parse_json, spec_parse_json, JsonSpec, JsonValue};
use crate::limits::{hview, opt_limits, opt_view, spec_limits_from_headers, LimitInfo, LimitView};
use crate::realtime::{nonblank, trim_end_char};
use crate::stream::{
    events_view, spec_feed_sse, spec_raise_if_stream_carrier, SseEvent, SseEventView,
};
use crate::text::{chars_of, string_from_chars, trim};
use crate::transport::{spec_build_headers, spec_join_url, AuthStyle, DEFAULT_BASE_URL};
use std::time::Duration;

verus! {

/// Options of one request sent through the escape hatch.
#[derive(Debug, Clone)]
pub struct RequestOptions {
    pub auth: AuthStyle,
    pub headers: Vec<(String, String)>,
    pub timeout: Option<Duration>,
}

impl Default for RequestOptions {
    fn default() -> (r: Self)
        ensures
            r.auth == AuthStyle::Bearer,
            r.headers@.len() == 0,
            r.timeout is None,
    {
        RequestOptions { auth: AuthStyle::Bearer, headers: Vec::new(), timeout: None }
    }
}

/// The settings of a client before it is built.
#[derive(Debug)]
pub struct ToniaBuilder {
    pub api_key: Option<String>,
    pub base_url: Option<String>,
    pub default_headers: Vec<(String, String)>,
    pub timeout: Option<Duration>,
    pub realtime_url: Option<String>,
}

impl Default for ToniaBuilder {
    fn default() -> (r: Self)
        ensures
            r.api_key is None,
            r.base_url is None,
            r.default_headers@.len() == 0,
            r.timeout is None,
            r.realtime_url is None,
    {
        ToniaBuilder {
            api_key: None,
            base_url: None,
            default_headers: Vec::new(),
            timeout: None,
            realtime_url: None,
        }
    }
}

/// The resolved settings of a built client.
#[derive(Debug, Clone)]
pub struct ClientConfig {
    pub api_key: Option<String>,
    pub base_url: String,
    pub default_headers: Vec<(String, String)>,
    pub timeout: Option<Duration>,
    pub realtime_url: Option<String>,
}

/// A text kept only when it is not empty.
pub open spec fn nonempty(o: Option<Seq<char>>) -> Option<Seq<char>> {
    match o {
        Some(s) => if s.len() > 0 { Some(s) } else { None },
        None => None,
    }
}

impl ToniaBuilder {
    pub fn api_key(self, api_key: String) -> (r: Self)
        ensures
            r == (ToniaBuilder { api_key: Some(api_key), ..self }),
    {
        ToniaBuilder { api_key: Some(api_key), ..self }
    }

    pub fn base_url(self, base_url: String) -> (r: Self)
        ensures
            r == (ToniaBuilder { base_url: Some(base_url), ..self }),
    {
        ToniaBuilder { base_url: Some(base_url), ..self }
    }

    /// Replaces the default headers.
    pub fn default_headers(self, headers: Vec<(String, String)>) -> (r: Self)
        ensures
            r == (ToniaBuilder { default_headers: headers, ..self }),
    {
        ToniaBuilder { default_headers: headers, ..self }
    }

    /// Adds a default header; when headers are built, a later header of exactly the same name
    /// replaces an earlier one.
    pub fn header(self, key: String, value: String) -> (r: Self)
        ensures
            r.default_headers@ == self.default_headers@.push((key, value)),
            r.api_key == self.api_key,
            r.base_url == self.base_url,
            r.timeout == self.timeout,
            r.realtime_url == self.realtime_url,
    {
        let mut s = self;
        s.default_headers.push((key, value));
        s
    }

    pub fn timeout(self, timeout: Duration) -> (r: Self)
        ensures
            r == (ToniaBuilder { timeout: Some(timeout), ..self }),
    {
        ToniaBuilder { timeout: Some(timeout), ..self }
    }

    pub fn realtime_url(self, realtime_url: String) -> (r: Self)
        ensures
            r == (ToniaBuilder { realtime_url: Some(realtime_url), ..self }),
    {
        ToniaBuilder { realtime_url: Some(realtime_url), ..self }
    }

    /// The settings of the built client. `env_api_key` and `env_realtime_url` are the values of
    /// `TONIA_API_KEY` and `TONIA_REALTIME_URL`, which the caller reads; the base URL is never
    /// taken from the environment.
    pub fn resolve(self, env_api_key: Option<String>, env_realtime_url: Option<String>) -> (r: ClientConfig)
        ensures
            r.base_url@ == trim_end_char(
                match self.base_url { Some(b) => b@, None => DEFAULT_BASE_URL@ }, '/'),
            opt_view(r.api_key) == match nonempty(opt_view(self.api_key)) {
                Some(k) => Some(k),
                None => nonempty(opt_view(env_api_key)),
            },
            opt_view(r.realtime_url) == match nonblank(opt_view(self.realtime_url)) {
                Some(u) => Some(u),
                None => nonblank(opt_view(env_realtime_url)),
            },
            r.default_headers == self.default_headers,
            r.timeout == self.timeout,
    {
        let base = match &self.base_url {
            Some(b) => chars_of(b.as_str()),
            None => chars_of(DEFAULT_BASE_URL),
        };
        let trimmed = crate::realtime::trim_end_slashes(&base);
        let api_key = match keep_nonempty(self.api_key) {
            Some(k) => Some(k),
            None => keep_nonempty(env_api_key),
        };
        let realtime_url = match keep_nonblank(self.realtime_url) {
            Some(u) => Some(u),
            None => keep_nonblank(env_realtime_url),
        };
        ClientConfig {
            api_key,
            base_url: string_from_chars(&trimmed),
            default_headers: self.default_headers,
            timeout: self.timeout,
            realtime_url,
        }
    }
}

fn keep_nonempty(o: Option<String>) -> (r: Option<String>)
    ensures
        opt_view(r) == nonempty(opt_view(o)),
{
    match o {
        Some(s) => if s.as_str().is_empty() { None } else { Some(s) },
        None => None,
    }
}

fn keep_nonblank(o: Option<String>) -> (r: Option<String>)
    ensures
        opt_view(r) == nonblank(opt_view(o)),
{
    match o {
        Some(s) => {
            let c = chars_of(s.as_str());
            let t = crate::text::trim_chars(&c);
            if t.len() == 0 { None } else { Some(string_from_chars(&t)) }
        },
        None => None,
    }
}

/// What a request sends: its path, its full URL and its headers.
#[derive(Debug, Clone)]
pub struct PreparedRequest {
    pub path: String,
    pub url: String,
    pub headers: Vec<(String, String)>,
}

/// What preparing a request gives: the path must be allowed, the headers must build.
pub open spec fn spec_prepare(
    base_url: Seq<char>,
    api_key: Option<Seq<char>>,
    default_headers: Seq<(Seq<char>, Seq<char>)>,
    path: Seq<char>,
    auth: AuthStyle,
    headers: Seq<(Seq<char>, Seq<char>)>,
    accept: Seq<char>,
) -> Result<(Seq<char>, Seq<char>, Map<Seq<char>, Seq<char>>), ErrorView> {
    match spec_assert_path_allowed(path) {
        Err(e) => Err(e),
        Ok(p) => match spec_build_headers(api_key, default_headers, auth, headers, accept) {
            Err(e) => Err(e),
            Ok(m) => Ok((p, spec_join_url(base_url, p), m)),
        },
    }
}

/// Prepares a request: checks and normalizes its path, builds its headers and its URL.
pub fn prepare_request(
    config: &ClientConfig,
    path: &str,
    auth: AuthStyle,
    headers: Option<&[(String, String)]>,
    accept: &str,
) -> (r: Result<PreparedRequest, ToniaError>)
    ensures
        match r {
            Ok(p) => crate::transport::unique_names(hview(p.headers@)) && spec_prepare(config.base_url@,
                opt_view(config.api_key), hview(config.default_headers@), path@, auth,
                match headers { Some(x) => hview(x@), None => Seq::empty() }, accept@)
                == Ok::<(Seq<char>, Seq<char>, Map<Seq<char>, Seq<char>>), ErrorView>(
                (p.path@, p.url@, crate::transport::map_of(hview(p.headers@)))),
            Err(e) => spec_prepare(config.base_url@,
                opt_view(config.api_key), hview(config.default_headers@), path@, auth,
                match headers { Some(x) => hview(x@), None => Seq::empty() }, accept@)
                == Err::<(Seq<char>, Seq<char>, Map<Seq<char>, Seq<char>>), ErrorView>(e@),
        },
{
    let p = match crate::escape::assert_path_allowed(path) {
        Ok(p) => p,
        Err(e) => return Err(e),
    };
    let key = match &config.api_key {
        Some(k) => Some(k.as_str()),
        None => None,
    };
    assert(crate::errors::opt_str(key) == opt_view(config.api_key));
    let hdrs = match crate::transport::build_headers(key, config.default_headers.as_slice(), auth, headers, accept) {
        Ok(h) => h,
        Err(e) => return Err(e),
    };
    let url = crate::transport::join_url(config.base_url.as_str(), p.as_str());
    Ok(PreparedRequest { path: p, url, headers: hdrs })
}

/// A body that asks for a streamed answer: `"stream": true`.
pub open spec fn spec_wants_stream(body: JsonSpec) -> bool {
    match body.get("stream"@) {
        Some(v) => v.as_bool() == Some(true),
        None => false,
    }
}

pub fn wants_stream(body: &JsonValue) -> (r: bool)
    ensures
        r == spec_wants_stream(body@),
{
    match body.get("stream") {
        Some(JsonValue::Bool(b)) => *b,
        _ => false,
    }
}

pub open spec fn use_stream_helper_view() -> ErrorView {
    crate::realtime::invalid_request_view("stream=true needs the stream helper"@, "use_stream_helper"@)
}

/// Refuses a `create` body that asks for a stream: streams go through the stream helpers.
pub fn reject_stream_body(body: &JsonValue) -> (r: Result<(), ToniaError>)
    ensures
        r is Err <==> spec_wants_stream(body@),
        r matches Err(e) ==> e@ == use_stream_helper_view(),
{
    if wants_stream(body) {
        return Err(ToniaError::invalid_request("stream=true needs the stream helper", "use_stream_helper"));
    }
    Ok(())
}

/// What a response body read as text is: `null` when empty, its JSON when it parses, the text
/// itself otherwise (and always when the bytes were not UTF-8, which no JSON parse accepts).
pub open spec fn spec_decode_body(text: Seq<char>, valid_utf8: bool) -> JsonSpec {
    if text.len() == 0 {
        JsonSpec::Null
    } else if !valid_utf8 {
        JsonSpec::Str(text)
    } else {
        match spec_parse_json(text) {
            Some(v) => v,
            None => JsonSpec::Str(text),
        }
    }
}

/// Decodes a response body from its text (`String::from_utf8_lossy` of the bytes) and whether
/// the bytes were UTF-8.
pub fn decode_response_body(text: &str, valid_utf8: bool) -> (r: JsonValue)
    ensures
        r@ == spec_decode_body(text@, valid_utf8),
{
    if text.is_empty() {
        return JsonValue::Null;
    }
    if !valid_utf8 {
        return JsonValue::Str(text.to_owned());
    }
    match parse_json(text) {
        Some(v) => v,
        None => JsonValue::Str(text.to_owned()),
    }
}

pub open spec fn is_success(status: u16) -> bool {
    200 <= status < 300
}

/// What a JSON response gives: an error the body carries, else the status fallback for a
/// failed status, else the body with the soft limits of the headers.
pub open spec fn spec_json_response(
    status: u16,
    headers: Seq<(Seq<char>, Seq<char>)>,
    body: JsonSpec,
) -> Result<(JsonSpec, Option<LimitView>), ErrorView> {
    match spec_raise_from_response_body(body, status, headers) {
        Err(e) => Err(e),
        Ok(()) => if !is_success(status) {
            Err(spec_http_fallback(status, Some(body), headers))
        } else {
            Ok((body, spec_limits_from_headers(headers)))
        },
    }
}

/// Interprets a JSON response. On success the caller records the returned limits as the
/// client's last limits; on failure the last limits stay as they were.
pub fn interpret_json_response(
    status: u16,
    headers: Vec<(String, String)>,
    body: JsonValue,
) -> (r: Result<(JsonValue, Option<LimitInfo>), ToniaError>)
    ensures
        match r {
            Ok((v, l)) => spec_json_response(status, hview(headers@), body@)
                == Ok::<(JsonSpec, Option<LimitView>), ErrorView>((v@, opt_limits(l))),
            Err(e) => spec_json_response(status, hview(headers@), body@)
                == Err::<(JsonSpec, Option<LimitView>), ErrorView>(e@),
        },
{
    match crate::errors::raise_from_response_body(&body, status, headers.as_slice()) {
        Err(e) => return Err(e),
        Ok(()) => {},
    }
    if !(200 <= status && status < 300) {
        return Err(crate::errors::error_from_http_fallback(status, Some(body), headers));
    }
    let limits = crate::limits::limits_from_headers(headers.as_slice());
    Ok((body, limits))
}

/// The text whose bytes are the audio of a speech answer: the answer itself when it is a JSON
/// string, its compact JSON text otherwise.
pub open spec fn spec_speech_text(value: JsonSpec) -> Seq<char> {
    match value {
        JsonSpec::Str(t) => t,
        other => crate::json::spec_json_text(other),
    }
}

/// The text of a speech answer (see [`spec_speech_text`]).
pub fn speech_text(value: &JsonValue) -> (r: String)
    ensures
        r@ == spec_speech_text(value@),
{
    match value {
        JsonValue::Str(t) => t.clone(),
        other => crate::json::json_text(other),
    }
}

/// The body of a streamed request: an object gets `"stream": true` (replacing any `stream`
/// member), no body becomes `{"stream": true}`, any other body is left as it is.
pub open spec fn spec_stream_payload(body: Option<JsonSpec>) -> JsonSpec {
    match body {
        None => JsonSpec::Object(seq![("stream"@, JsonSpec::Bool(true))]),
        Some(JsonSpec::Object(e)) => JsonSpec::Object(set_member(e, "stream"@, JsonSpec::Bool(true))),
        Some(other) => other,
    }
}

/// Object entries with `key` set to `v`: every entry named `key` takes the value, or one is
/// added at the end when there is none.
pub open spec fn set_member(e: Seq<(Seq<char>, JsonSpec)>, key: Seq<char>, v: JsonSpec) -> Seq<(Seq<char>, JsonSpec)> {
    if exists|i: int| 0 <= i < e.len() && e[i].0 == key {
        e.map_values(|p: (Seq<char>, JsonSpec)| if p.0 == key { (p.0, v) } else { p })
    } else {
        e.push((key, v))
    }
}

/// Builds the body of a streamed request (see [`spec_stream_payload`]).
pub fn stream_payload(body: Option<JsonValue>) -> (r: JsonValue)
    ensures
        r@ == spec_stream_payload(opt_json(body)),
{
    match body {
        None => {
            let mut e: Vec<(String, JsonValue)> = Vec::new();
            e.push(("stream".to_owned(), JsonValue::Bool(true)));
            proof {
                crate::json::lemma_object_view(e);
                assert(crate::json::entries_view(e@) =~= seq![("stream"@, JsonSpec::Bool(true))]);
            }
            JsonValue::Object(e)
        },
        Some(JsonValue::Object(entries)) => {
            proof { crate::json::lemma_object_view(entries); }
            let ghost ev = crate::json::entries_view(entries@);
            let mut out: Vec<(String, JsonValue)> = Vec::new();
            let mut found = false;
            let mut i: usize = 0;
            let n = entries.len();
            let mut rest = entries;
            let ghost orig = rest@;
            while i < n
                invariant
                    n == orig.len(),
                    i <= n,
                    ev == crate::json::entries_view(orig),
                    rest@ == orig,
                    out@.len() == i,
                    found == exists|j: int| 0 <= j < i && ev[j].0 == "stream"@,
                    forall|j: int| 0 <= j < i ==> (#[trigger] crate::json::entries_view(out@)[j]) == (if ev[j].0 == "stream"@ {
                        (ev[j].0, JsonSpec::Bool(true))
                    } else {
                        ev[j]
                    }),
                decreases n - i,
            {
                let k = rest[i].0.clone();
                let is_stream = crate::text::str_equal(k.as_str(), "stream");
                proof {
                    assert(ev[i as int] == (orig[i as int].0@, orig[i as int].1@));
                    assert(k@ == ev[i as int].0);
                }
                let v = if is_stream {
                    JsonValue::Bool(true)
                } else {
                    rest[i].1.deep_clone()
                };
                let ghost old_found = found;
                found = found || is_stream;
                let ghost old_out = out@;
                out.push((k, v));
                proof {
                    assert(crate::json::entries_view(out@)[i as int] == (out@[i as int].0@, out@[i as int].1@));
                    assert forall|j: int| 0 <= j < i + 1 implies (#[trigger] crate::json::entries_view(out@)[j]) == (if ev[j].0 == "stream"@ {
                        (ev[j].0, JsonSpec::Bool(true))
                    } else {
                        ev[j]
                    }) by {
                        if j < i {
                            assert(out@[j] == old_out[j]);
                            assert(crate::json::entries_view(old_out)[j] == (old_out[j].0@, old_out[j].1@));
                        }
                    }
                    if is_stream {
                        assert(0 <= i < i + 1 && ev[i as int].0 == "stream"@);
                    }
                    if old_found {
                        let w = choose|j: int| 0 <= j < i && ev[j].0 == "stream"@;
                        assert(0 <= w < i + 1 && ev[w].0 == "stream"@);
                    }
                    if found {
                        assert(exists|j: int| 0 <= j < i + 1 && ev[j].0 == "stream"@);
                    } else {
                        assert forall|j: int| 0 <= j < i + 1 implies ev[j].0 != "stream"@ by {
                            if j < i {
                                assert(!(0 <= j < i && ev[j].0 == "stream"@));
                            }
                        }
                    }
                }
                i = i + 1;
            }
            let ghost mapped = ev.map_values(|p: (Seq<char>, JsonSpec)| if p.0 == "stream"@ { (p.0, JsonSpec::Bool(true)) } else { p });
            if found {
                proof {
                    assert(crate::json::entries_view(out@) =~= mapped);
                    crate::json::lemma_object_view(out);
                }
                JsonValue::Object(out)
            } else {
                let ghost before = crate::json::entries_view(out@);
                out.push(("stream".to_owned(), JsonValue::Bool(true)));
                proof {
                    assert(before =~= ev);
                    assert(crate::json::entries_view(out@) =~= ev.push(("stream"@, JsonSpec::Bool(true))));
                    crate::json::lemma_object_view(out);
                }
                JsonValue::Object(out)
            }
        },
        Some(other) => other,
    }
}

/// `needle` occurs in `s`.
pub open spec fn contains_text(s: Seq<char>, needle: Seq<char>) -> bool {
    exists|i: int| 0 <= i && i + needle.len() <= s.len() && #[trigger] s.subrange(i, i + needle.len()) == needle
}

fn contains_exec(s: &[char], needle: &[char]) -> (r: bool)
    ensures
        r == contains_text(s@, needle@),
{
    if needle.len() > s.len() {
        return false;
    }
    let last = s.len() - needle.len();
    let mut i: usize = 0;
    while i <= last
        invariant
            last + needle@.len() == s@.len(),
            s@.len() <= usize::MAX,
            i <= last,
            forall|j: int| 0 <= j < i ==> #[trigger] s@.subrange(j, j + needle@.len()) != needle@,
        decreases last - i,
    {
        let mut k: usize = 0;
        let mut same = true;
        while k < needle.len()
            invariant
                i <= last,
                last + needle@.len() == s@.len(),
                s@.len() <= usize::MAX,
                k <= needle@.len(),
                same == forall|m: int| 0 <= m < k ==> s@[i + m] == needle@[m],
            decreases needle.len() - k,
        {
            if s[i + k] != needle[k] {
                same = false;
            }
            k = k + 1;
        }
        if same {
            assert(s@.subrange(i as int, i + needle@.len()) =~= needle@);
            return true;
        }
        assert(s@.subrange(i as int, i + needle@.len()) != needle@) by {
            let m = choose|m: int| 0 <= m < needle@.len() && s@[i + m] != needle@[m];
            assert(s@.subrange(i as int, i + needle@.len())[m] == s@[i + m]);
        }
        if i == last {
            assert forall|j: int| 0 <= j && j + needle@.len() <= s@.len() implies #[trigger] s@.subrange(j, j + needle@.len()) != needle@ by {
                assert(j <= i);
            }
            return false;
        }
        i = i + 1;
    }
    false
}

/// A response that streams events: a success status with a `text/event-stream` content type.
pub open spec fn spec_is_event_stream(status: u16, content_type: Seq<char>) -> bool {
    is_success(status) && contains_text(content_type, "text/event-stream"@)
}

pub fn is_event_stream(status: u16, content_type: &str) -> (r: bool)
    ensures
        r == spec_is_event_stream(status, content_type@),
{
    if !(200 <= status && status < 300) {
        return false;
    }
    let c = chars_of(content_type);
    let n = chars_of("text/event-stream");
    contains_exec(&c, &n)
}

/// What the start of a streamed response leads to.
#[derive(Debug)]
pub enum StreamStart {
    /// The response streams events: read them chunk by chunk.
    Events,
    /// The response does not stream: read its body and finish with [`finish_non_stream`].
    Body,
    /// The response streams, but its headers carry this block.
    Blocked(ToniaError),
}

/// Decides how a streamed response starts, from its status, headers and content type. The soft
/// limits of the headers are returned in every case, to be recorded before anything is read.
pub fn stream_start(
    status: u16,
    headers: &[(String, String)],
    content_type: &str,
) -> (r: (Option<LimitInfo>, StreamStart))
    ensures
        opt_limits(r.0) == spec_limits_from_headers(hview(headers@)),
        !spec_is_event_stream(status, content_type@) ==> r.1 is Body,
        spec_is_event_stream(status, content_type@) ==> match crate::errors::spec_raise_from_stream_headers(hview(headers@)) {
            Ok(()) => r.1 is Events,
            Err(e) => r.1 matches StreamStart::Blocked(x) && x@ == e,
        },
{
    let limits = crate::limits::limits_from_headers(headers);
    if !is_event_stream(status, content_type) {
        return (limits, StreamStart::Body);
    }
    match crate::errors::raise_from_stream_headers(headers) {
        Ok(()) => (limits, StreamStart::Events),
        Err(e) => (limits, StreamStart::Blocked(e)),
    }
}

/// What a streamed request gives when the response does not stream: the error of the body,
/// or of the status, or no events at all.
pub open spec fn spec_finish_non_stream(
    status: u16,
    headers: Seq<(Seq<char>, Seq<char>)>,
    body: JsonSpec,
) -> Result<(), ErrorView> {
    match spec_raise_from_response_body(body, status, headers) {
        Err(e) => Err(e),
        Ok(()) => if !is_success(status) { Err(spec_http_fallback(status, Some(body), headers)) } else { Ok(()) },
    }
}

pub fn finish_non_stream(
    status: u16,
    headers: Vec<(String, String)>,
    body: JsonValue,
) -> (r: Result<(), ToniaError>)
    ensures
        unit_result(r) == spec_finish_non_stream(status, hview(headers@), body@),
{
    match crate::errors::raise_from_response_body(&body, status, headers.as_slice()) {
        Err(e) => return Err(e),
        Ok(()) => {},
    }
    if !(200 <= status && status < 300) {
        return Err(crate::errors::error_from_http_fallback(status, Some(body), headers));
    }
    Ok(())
}

/// The first block that a run of events carries, checked in order.
pub open spec fn first_carrier_error(events: Seq<SseEventView>) -> Option<ErrorView>
    decreases events.len(),
{
    if events.len() == 0 {
        None
    } else {
        match first_carrier_error(events.drop_last()) {
            Some(e) => Some(e),
            None => match events.last().json {
                Some(j) => match spec_raise_if_stream_carrier(j) {
                    Err(e) => Some(e),
                    Ok(()) => None,
                },
                None => None,
            },
        }
    }
}

/// What one chunk of a stream gives: its events and the remainder, or the first block that
/// one of its events carries.
pub open spec fn spec_stream_chunk(buffer: Seq<char>, chunk: Seq<char>) -> Result<(Seq<SseEventView>, Seq<char>), ErrorView> {
    let (events, rest) = spec_feed_sse(buffer, chunk);
    match first_carrier_error(events) {
        Some(e) => Err(e),
        None => Ok((events, rest)),
    }
}

fn check_events(events: &Vec<SseEvent>) -> (r: Result<(), ToniaError>)
    ensures
        match r {
            Ok(()) => first_carrier_error(events_view(events@)) is None,
            Err(e) => first_carrier_error(events_view(events@)) == Some(e@),
        },
{
    let ghost ev = events_view(events@);
    let mut i: usize = 0;
    assert(ev.subrange(0, 0) =~= Seq::<SseEventView>::empty());
    while i < events.len()
        invariant
            i <= events@.len(),
            ev == events_view(events@),
            first_carrier_error(ev.subrange(0, i as int)) is None,
        decreases events.len() - i,
    {
        let ghost sub = ev.subrange(0, i + 1);
        proof {
            assert(sub.drop_last() =~= ev.subrange(0, i as int));
            assert(sub.last() == events@[i as int]@);
        }
        match &events[i].json {
            Some(j) => match crate::stream::raise_if_stream_carrier(j) {
                Err(e) => {
                    proof { lemma_first_error_prefix(ev, i + 1); }
                    return Err(e);
                },
                Ok(()) => {},
            },
            None => {},
        }
        i = i + 1;
    }
    assert(ev.subrange(0, events@.len() as int) =~= ev);
    Ok(())
}

proof fn lemma_first_error_prefix(ev: Seq<SseEventView>, k: int)
    requires
        0 <= k <= ev.len(),
        first_carrier_error(ev.subrange(0, k)) is Some,
    ensures
        first_carrier_error(ev) == first_carrier_error(ev.subrange(0, k)),
    decreases ev.len(),
{
    if k < ev.len() {
        let d = ev.drop_last();
        assert(d.subrange(0, k) =~= ev.subrange(0, k));
        lemma_first_error_prefix(d, k);
    } else {
        assert(ev.subrange(0, k) =~= ev);
    }
}

proof fn lemma_first_error_concat(x: Seq<SseEventView>, y: Seq<SseEventView>)
    ensures
        first_carrier_error(x + y) == match first_carrier_error(x) {
            Some(e) => Some(e),
            None => first_carrier_error(y),
        },
    decreases y.len(),
{
    if y.len() == 0 {
        assert(x + y =~= x);
    } else {
        lemma_first_error_concat(x, y.drop_last());
        assert((x + y).drop_last() =~= x + y.drop_last());
        assert((x + y).last() == y.last());
    }
}

/// A stream read in two chunks gives what it gives read in one: the same events in the same
/// order and the same remainder, or the same first block.
pub proof fn law_stream_chunking(buffer: Seq<char>, a: Seq<char>, b: Seq<char>)
    ensures
        match spec_stream_chunk(buffer, a) {
            Err(e) => spec_stream_chunk(buffer, a + b) == Err::<(Seq<SseEventView>, Seq<char>), ErrorView>(e),
            Ok((e1, r1)) => match spec_stream_chunk(r1, b) {
                Err(e) => spec_stream_chunk(buffer, a + b) == Err::<(Seq<SseEventView>, Seq<char>), ErrorView>(e),
                Ok((e2, r2)) => spec_stream_chunk(buffer, a + b)
                    == Ok::<(Seq<SseEventView>, Seq<char>), ErrorView>((e1 + e2, r2)),
            },
        },
{
    crate::stream::law_feed_sse_chunking(buffer, a, b);
    let (e1, r1) = spec_feed_sse(buffer, a);
    let (e2, r2) = spec_feed_sse(r1, b);
    lemma_first_error_concat(e1, e2);
}

/// Feeds one chunk of a stream and checks its events for blocks.
pub fn stream_chunk(buffer: &str, chunk: &str) -> (r: Result<(Vec<SseEvent>, String), ToniaError>)
    ensures
        match r {
            Ok((evs, rest)) => spec_stream_chunk(buffer@, chunk@) == Ok::<(Seq<SseEventView>, Seq<char>), ErrorView>((events_view(evs@), rest@)),
            Err(e) => spec_stream_chunk(buffer@, chunk@) == Err::<(Seq<SseEventView>, Seq<char>), ErrorView>(e@),
        },
{
    let (events, rest) = crate::stream::feed_sse(buffer, chunk);
    match check_events(&events) {
        Err(e) => Err(e),
        Ok(()) => Ok((events, rest)),
    }
}

/// What the end of a stream gives: the events of an unfinished remainder that is not blank,
/// closed by a blank line, or the first block they carry.
pub open spec fn spec_stream_flush(buffer: Seq<char>) -> Result<Seq<SseEventView>, ErrorView> {
    if trim(buffer).len() == 0 {
        Ok(Seq::empty())
    } else {
        match spec_stream_chunk(buffer, "\n\n"@) {
            Ok((events, _)) => Ok(events),
            Err(e) => Err(e),
        }
    }
}

/// Flushes the remainder of a stream that has ended.
pub fn stream_flush(buffer: &str) -> (r: Result<Vec<SseEvent>, ToniaError>)
    ensures
        match r {
            Ok(evs) => spec_stream_flush(buffer@) == Ok::<Seq<SseEventView>, ErrorView>(events_view(evs@)),
            Err(e) => spec_stream_flush(buffer@) == Err::<Seq<SseEventView>, ErrorView>(e@),
        },
{
    let c = chars_of(buffer);
    let t = crate::text::trim_chars(&c);
    if t.len() == 0 {
        let none: Vec<SseEvent> = Vec::new();
        assert(events_view(none@) =~= Seq::<SseEventView>::empty());
        return Ok(none);
    }
    match stream_chunk(buffer, "\n\n") {
        Ok((events, _rest)) => Ok(events),
        Err(e) => Err(e),
    }
}

} // verus!
