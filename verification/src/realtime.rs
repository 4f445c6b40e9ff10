//! The mediated `/v1/realtime` WebSocket: its URL, its handshake and the events it carries.
//! It is not an HTTP escape-hatch path.
use vstd::prelude::*;
use crate::errors::{
    base_error, client_error, spec_raise_from_response_body, unit_result, ErrorKind, ErrorView,
    ToniaError,
};
use crate::json::{json_text, opt_json, parse_json, spec_json_text, spec_parse_json, JsonSpec, JsonValue};
use crate::limits::{hview, opt_view};
use crate::text::{
    chars_of, decimal_string, starts_with, decimal_text, lower, lower_chars, str_equal, string_from_chars, trim,
    trim_chars,
};
use crate::transport::{utf8_bytes, utf8_char};
use base64::Engine;

verus! {

pub const FIRST_HOP_PROVIDER: &'static str = "openai";
pub const FIRST_HOP_MODEL: &'static str = "gpt-live-1";
pub const REALTIME_PATH: &'static str = "/v1/realtime";
pub const LOCAL_DATA_PORT: u16 = 8444;
pub const LOCAL_REALTIME_PORT: u16 = 8448;
/// Seconds the handshake may take at most.
pub const HANDSHAKE_TIMEOUT_SECS: u64 = 10;

pub const TURN_TYPES: [&'static str; 4] = [
    "output_text.done",
    "output_audio.done",
    "transcript.final",
    "response.function_call",
];

pub const TERMINAL_TURN_TYPES: [&'static str; 3] = [
    "output_text.done",
    "output_audio.done",
    "response.function_call",
];

/// `s` without its trailing `c` characters (`str::trim_end_matches`).
pub open spec fn trim_end_char(s: Seq<char>, c: char) -> Seq<char>
    decreases s.len(),
{
    if s.len() > 0 && s[s.len() - 1] == c {
        trim_end_char(s.subrange(0, s.len() - 1), c)
    } else {
        s
    }
}

/// `s` without its trailing slashes.
pub fn trim_end_slashes(s: &[char]) -> (r: Vec<char>)
    ensures
        r@ == trim_end_char(s@, '/'),
{
    let mut j: usize = s.len();
    assert(s@.subrange(0, s@.len() as int) =~= s@);
    while j > 0 && s[j - 1] == '/'
        invariant
            j <= s@.len(),
            trim_end_char(s@, '/') == trim_end_char(s@.subrange(0, j as int), '/'),
        decreases j,
    {
        assert(s@.subrange(0, j as int).subrange(0, j - 1) =~= s@.subrange(0, j - 1));
        j = j - 1;
    }
    crate::text::slice_chars(s, 0, j)
}

/// What `url::Url::parse` finds in a text: its scheme, its host (`host_str`) and its explicit
/// port (`port`, which leaves out the default port of the scheme); `None` where it fails.
pub uninterp spec fn spec_url_parts(input: Seq<char>) -> Option<(Seq<char>, Option<Seq<char>>, Option<u16>)>;

pub open spec fn url_parts_view(r: Option<(String, Option<String>, Option<u16>)>) -> Option<(Seq<char>, Option<Seq<char>>, Option<u16>)> {
    match r {
        Some((s, h, p)) => Some((s@, opt_view(h), p)),
        None => None,
    }
}

/// Parses a URL with `url::Url::parse` and reads its scheme, host and port.
#[verifier::external_body]
fn url_parts(input: &str) -> (r: Option<(String, Option<String>, Option<u16>)>)
    ensures
        url_parts_view(r) == spec_url_parts(input@),
{
    match url::Url::parse(input) {
        Ok(u) => Some((u.scheme().to_string(), u.host_str().map(|h| h.to_string()), u.port())),
        Err(_) => None,
    }
}

/// An explicit override: trimmed, and only when it is not blank.
pub open spec fn nonblank(o: Option<Seq<char>>) -> Option<Seq<char>> {
    match o {
        Some(s) => if trim(s).len() > 0 { Some(trim(s)) } else { None },
        None => None,
    }
}

/// The `host:port` part of the WebSocket URL. A local host (`127.0.0.1` or `localhost`) on
/// no port or the local data port goes to the local realtime port.
pub open spec fn ws_netloc(host: Seq<char>, port: Option<u16>) -> Seq<char> {
    if (host == "127.0.0.1"@ || host == "localhost"@) && (port is None || port == Some(LOCAL_DATA_PORT)) {
        host + seq![':'] + decimal_text(LOCAL_REALTIME_PORT as nat)
    } else {
        match port {
            Some(p) => host + seq![':'] + decimal_text(p as nat),
            None => host,
        }
    }
}

/// The WebSocket URL of the realtime endpoint. An explicit URL, else the one of the
/// environment, wins as given (trailing slashes dropped); otherwise the URL comes from the
/// base URL: `wss` for `https`, `ws` for anything else, and the realtime path.
pub open spec fn spec_realtime_ws_url(
    base_url: Seq<char>,
    realtime_url: Option<Seq<char>>,
    env_realtime_url: Option<Seq<char>>,
) -> Seq<char> {
    let chosen = match nonblank(realtime_url) {
        Some(u) => Some(u),
        None => nonblank(env_realtime_url),
    };
    match chosen {
        Some(u) => trim_end_char(u, '/'),
        None => {
            let base = trim_end_char(base_url, '/');
            spec_ws_url_from_parts(base, spec_url_parts(base))
        },
    }
}

/// The WebSocket URL of a base URL (without trailing slashes) from what parsing it found:
/// `wss` for `https`, `ws` for anything else, the `host:port` of [`ws_netloc`] and the realtime
/// path; `ws://` and the base itself when it did not parse.
pub open spec fn spec_ws_url_from_parts(
    base: Seq<char>,
    parts: Option<(Seq<char>, Option<Seq<char>>, Option<u16>)>,
) -> Seq<char> {
    match parts {
        None => "ws://"@ + base + REALTIME_PATH@,
        Some((scheme, host, port)) => {
            let s = if scheme == "https"@ { "wss"@ } else { "ws"@ };
            let h = match host { Some(h) => h, None => Seq::empty() };
            s + "://"@ + ws_netloc(h, port) + REALTIME_PATH@
        },
    }
}

fn nonblank_exec(o: Option<&str>) -> (r: Option<Vec<char>>)
    ensures
        match r {
            Some(v) => nonblank(crate::errors::opt_str(o)) == Some(v@),
            None => nonblank(crate::errors::opt_str(o)) is None,
        },
{
    match o {
        Some(s) => {
            let c = chars_of(s);
            let t = trim_chars(&c);
            if t.len() > 0 {
                Some(t)
            } else {
                None
            }
        },
        None => None,
    }
}

fn push_str(out: &mut String, s: &str)
    ensures
        final(out)@ == old(out)@ + s@,
{
    out.append(s);
}

fn ws_netloc_exec(host: &str, port: Option<u16>) -> (r: String)
    ensures
        r@ == ws_netloc(host@, port),
{
    proof {
        reveal_strlit(":");
        assert(":"@ =~= seq![':']);
    }
    let local = str_equal(host, "127.0.0.1") || str_equal(host, "localhost");
    let default_port = match port {
        None => true,
        Some(p) => p == LOCAL_DATA_PORT,
    };
    let mut out = host.to_owned();
    if local && default_port {
        push_str(&mut out, ":");
        let d = decimal_string(LOCAL_REALTIME_PORT as u64);
        push_str(&mut out, d.as_str());
        assert(out@ =~= host@ + seq![':'] + decimal_text(LOCAL_REALTIME_PORT as nat));
    } else {
        match port {
            Some(p) => {
                push_str(&mut out, ":");
                let d = decimal_string(p as u64);
                push_str(&mut out, d.as_str());
                assert(out@ =~= host@ + seq![':'] + decimal_text(p as nat));
            },
            None => {},
        }
    }
    out
}

/// The WebSocket URL of the realtime endpoint (see [`spec_realtime_ws_url`]).
/// `env_realtime_url` is the value of `TONIA_REALTIME_URL`, which the caller reads.
pub fn realtime_ws_url(base_url: &str, realtime_url: Option<&str>, env_realtime_url: Option<&str>) -> (r: String)
    ensures
        r@ == spec_realtime_ws_url(base_url@, crate::errors::opt_str(realtime_url), crate::errors::opt_str(env_realtime_url)),
{
    let chosen = match nonblank_exec(realtime_url) {
        Some(u) => Some(u),
        None => nonblank_exec(env_realtime_url),
    };
    match chosen {
        Some(u) => {
            let t = trim_end_slashes(&u);
            string_from_chars(&t)
        },
        None => {
            let b = chars_of(base_url);
            let base_chars = trim_end_slashes(&b);
            let base = string_from_chars(&base_chars);
            let parts = url_parts(base.as_str());
            ws_url_from_parts(base.as_str(), parts)
        },
    }
}

/// The WebSocket URL of a base URL (without trailing slashes) from its parsed scheme, host and
/// explicit port (see [`spec_ws_url_from_parts`]).
pub fn ws_url_from_parts(base: &str, parts: Option<(String, Option<String>, Option<u16>)>) -> (r: String)
    ensures
        r@ == spec_ws_url_from_parts(base@, url_parts_view(parts)),
{
    match parts {
        None => {
            let mut out = "ws://".to_owned();
            push_str(&mut out, base);
            push_str(&mut out, REALTIME_PATH);
            out
        },
        Some((scheme, host, port)) => {
            let mut out = if str_equal(scheme.as_str(), "https") {
                "wss".to_owned()
            } else {
                "ws".to_owned()
            };
            push_str(&mut out, "://");
            let h = match host {
                Some(h) => h,
                None => String::new(),
            };
            let netloc = ws_netloc_exec(h.as_str(), port);
            push_str(&mut out, netloc.as_str());
            push_str(&mut out, REALTIME_PATH);
            out
        },
    }
}

/// Parameters of the realtime connect URL.
#[derive(Debug, Clone)]
pub struct RealtimeConnectParams<'a> {
    pub base_url: &'a str,
    pub realtime_url: Option<&'a str>,
    pub provider: &'a str,
    pub model: &'a str,
    pub mode: &'a str,
    pub chat_model: Option<&'a str>,
    pub transcripts: bool,
    pub webrtc: bool,
    pub transport: Option<&'a str>,
}

impl<'a> RealtimeConnectParams<'a> {
    /// The default parameters for a base URL: first-hop provider and model, cascaded mode.
    pub fn new(base_url: &'a str) -> (r: Self)
        ensures
            r.base_url == base_url,
            r.realtime_url is None,
            r.provider == FIRST_HOP_PROVIDER,
            r.model == FIRST_HOP_MODEL,
            r.mode@ == "cascaded"@,
            r.chat_model is None,
            !r.transcripts,
            !r.webrtc,
            r.transport is None,
    {
        RealtimeConnectParams {
            base_url,
            realtime_url: None,
            provider: FIRST_HOP_PROVIDER,
            model: FIRST_HOP_MODEL,
            mode: "cascaded",
            chat_model: None,
            transcripts: false,
            webrtc: false,
            transport: None,
        }
    }
}

/// Options of a realtime session.
#[derive(Debug, Clone, Default)]
pub struct RealtimeConnect {
    pub provider: Option<String>,
    pub model: Option<String>,
    pub mode: Option<String>,
    pub chat_model: Option<String>,
    pub transcripts: bool,
}

/// A byte that form encoding keeps as it is: an ASCII letter or digit, or one of `*-._`.
pub open spec fn form_unchanged(b: u8) -> bool {
    crate::text::is_ascii_alnum(b as char) || b == 0x2A || b == 0x2D || b == 0x2E || b == 0x5F
}

/// One byte in `application/x-www-form-urlencoded` form: itself when kept, `+` for a space,
/// `%XX` (upper-case hexadecimal) otherwise.
pub open spec fn form_byte(b: u8) -> Seq<char> {
    if form_unchanged(b) {
        seq![b as char]
    } else if b == 0x20 {
        seq!['+']
    } else {
        seq!['%', crate::transport::hex_digit((b / 16) as nat), crate::transport::hex_digit((b % 16) as nat)]
    }
}

/// The form encoding of a run of bytes (`url::form_urlencoded::byte_serialize`).
pub open spec fn form_bytes(bytes: Seq<u8>) -> Seq<char>
    decreases bytes.len(),
{
    if bytes.len() == 0 {
        Seq::empty()
    } else {
        form_bytes(bytes.drop_last()) + form_byte(bytes.last())
    }
}

/// Form-encodes the UTF-8 bytes of a text with `url::form_urlencoded::byte_serialize`.
#[verifier::external_body]
fn form_encode(s: &str) -> (r: String)
    ensures
        r@ == form_bytes(utf8_bytes(s@)),
{
    url::form_urlencoded::byte_serialize(s.as_bytes()).collect()
}

/// A query string: `name=value` pairs, each form-encoded, joined by `&`.
pub open spec fn query_of(pairs: Seq<(Seq<char>, Seq<char>)>) -> Seq<char>
    decreases pairs.len(),
{
    if pairs.len() == 0 {
        Seq::empty()
    } else {
        let p = pairs.last();
        let item = form_bytes(utf8_bytes(p.0)) + seq!['='] + form_bytes(utf8_bytes(p.1));
        if pairs.len() == 1 {
            item
        } else {
            query_of(pairs.drop_last()) + seq!['&'] + item
        }
    }
}

fn query_string(pairs: &Vec<(String, String)>) -> (r: String)
    ensures
        r@ == query_of(hview(pairs@)),
{
    proof {
        reveal_strlit("=");
        reveal_strlit("&");
        assert("="@ =~= seq!['=']);
        assert("&"@ =~= seq!['&']);
    }
    let mut out = String::new();
    let mut i: usize = 0;
    assert(hview(pairs@).subrange(0, 0) =~= Seq::<(Seq<char>, Seq<char>)>::empty());
    while i < pairs.len()
        invariant
            i <= pairs@.len(),
            "="@ == seq!['='],
            "&"@ == seq!['&'],
            out@ == query_of(hview(pairs@).subrange(0, i as int)),
        decreases pairs.len() - i,
    {
        let ghost before = out@;
        if i > 0 {
            push_str(&mut out, "&");
        }
        let k = form_encode(pairs[i].0.as_str());
        push_str(&mut out, k.as_str());
        push_str(&mut out, "=");
        let v = form_encode(pairs[i].1.as_str());
        push_str(&mut out, v.as_str());
        proof {
            let sub = hview(pairs@).subrange(0, i + 1);
            assert(sub.drop_last() =~= hview(pairs@).subrange(0, i as int));
            assert(sub.last() == (pairs@[i as int].0@, pairs@[i as int].1@));
            let item = form_bytes(utf8_bytes(pairs@[i as int].0@)) + seq!['='] + form_bytes(utf8_bytes(pairs@[i as int].1@));
            assert(k@ == form_bytes(utf8_bytes(pairs@[i as int].0@)));
            if i == 0 {
                assert(query_of(sub) == item);
                assert(before == Seq::<char>::empty());
                assert(out@ =~= item);
            } else {
                assert(query_of(sub) == query_of(sub.drop_last()) + seq!['&'] + item);
                assert(out@ =~= before + seq!['&'] + item);
            }
        }
        i = i + 1;
    }
    assert(hview(pairs@).subrange(0, pairs@.len() as int) =~= hview(pairs@));
    out
}

pub open spec fn or_default(s: Seq<char>, d: Seq<char>) -> Seq<char> {
    if trim(s).len() == 0 { d } else { trim(s) }
}

/// The query pairs of a connect URL.
pub open spec fn connect_pairs(
    provider: Seq<char>,
    model: Seq<char>,
    mode: Seq<char>,
    chat_model: Option<Seq<char>>,
    transcripts: bool,
) -> Seq<(Seq<char>, Seq<char>)> {
    let base = seq![
        ("provider"@, or_default(provider, FIRST_HOP_PROVIDER@)),
        ("model"@, or_default(model, FIRST_HOP_MODEL@)),
        ("mode"@, mode),
    ];
    let with_chat = match nonblank(chat_model) {
        Some(c) => base.push(("chat_model"@, c)),
        None => base,
    };
    if transcripts { with_chat.push(("transcripts"@, "1"@)) } else { with_chat }
}

/// The normalized mode: `cascaded` when blank, the trimmed lower-cased text otherwise.
pub open spec fn mode_norm(mode: Seq<char>) -> Seq<char> {
    if trim(mode).len() == 0 { "cascaded"@ } else { lower(trim(mode)) }
}

/// The realtime connect URL, or why it is refused: WebRTC (asked for, or named as the
/// transport `webrtc` or `rtc`) is forbidden; the mode must be `cascaded` or `native`; the
/// native mode needs transcripts.
pub open spec fn spec_realtime_connect_url(
    base_url: Seq<char>,
    realtime_url: Option<Seq<char>>,
    env_realtime_url: Option<Seq<char>>,
    provider: Seq<char>,
    model: Seq<char>,
    mode: Seq<char>,
    chat_model: Option<Seq<char>>,
    transcripts: bool,
    webrtc: bool,
    transport: Option<Seq<char>>,
) -> Result<Seq<char>, ErrorView> {
    let t = lower(trim(match transport { Some(t) => t, None => Seq::empty() }));
    let m = mode_norm(mode);
    if webrtc || t == "webrtc"@ || t == "rtc"@ {
        Err(client_error("Managed WebRTC to the lab is forbidden"@, ErrorKind::InvalidRequest,
            "invalid_request_error"@, "realtime_webrtc_forbidden"@, Some(false)))
    } else if m != "cascaded"@ && m != "native"@ {
        Err(client_error("realtime mode must be cascaded or native"@, ErrorKind::InvalidRequest,
            "invalid_request_error"@, "realtime_mode_invalid"@, Some(false)))
    } else if m == "native"@ && !transcripts {
        Err(client_error("native Live needs transcripts=1"@, ErrorKind::InvalidRequest,
            "invalid_request_error"@, "realtime_native_transcripts_required"@, Some(false)))
    } else {
        Ok(spec_realtime_ws_url(base_url, realtime_url, env_realtime_url) + seq!['?']
            + query_of(connect_pairs(provider, model, m, chat_model, transcripts)))
    }
}

/// One `name=value` pair of a form-encoded query.
pub open spec fn form_item(name: Seq<char>, value: Seq<char>) -> Seq<char> {
    form_bytes(utf8_bytes(name)) + seq!['='] + form_bytes(utf8_bytes(value))
}

proof fn lemma_query_head(pairs: Seq<(Seq<char>, Seq<char>)>)
    requires
        pairs.len() >= 3,
    ensures
        starts_with(query_of(pairs), form_item(pairs[0].0, pairs[0].1) + seq!['&']
            + form_item(pairs[1].0, pairs[1].1) + seq!['&']),
    decreases pairs.len(),
{
    let head = form_item(pairs[0].0, pairs[0].1) + seq!['&'] + form_item(pairs[1].0, pairs[1].1) + seq!['&'];
    let d = pairs.drop_last();
    let p = pairs.last();
    let item = form_bytes(utf8_bytes(p.0)) + seq!['='] + form_bytes(utf8_bytes(p.1));
    assert(query_of(pairs) == query_of(d) + seq!['&'] + item);
    if pairs.len() == 3 {
        let dd = d.drop_last();
        assert(dd =~= seq![pairs[0]]);
        assert(query_of(dd) == form_item(pairs[0].0, pairs[0].1));
        assert(query_of(d) == query_of(dd) + seq!['&'] + form_item(pairs[1].0, pairs[1].1));
        assert(query_of(pairs).subrange(0, head.len() as int) =~= head);
    } else {
        lemma_query_head(d);
        assert(d[0] == pairs[0] && d[1] == pairs[1]);
        assert(query_of(d).subrange(0, head.len() as int) =~= head);
        assert(query_of(pairs).subrange(0, head.len() as int) =~= query_of(d).subrange(0, head.len() as int));
    }
}

/// A connect URL is given out exactly when WebRTC is not asked for (neither by flag nor as the
/// transport `webrtc` or `rtc`, case and surrounding whitespace ignored) and the mode, blank
/// meaning cascaded, is cascaded or is native with transcripts; its query names the provider and
/// then the model asked for, trimmed, and the first-hop provider and model stand in only for a
/// blank one.
pub proof fn law_connect_url_names_provider_and_model(
    base_url: Seq<char>,
    realtime_url: Option<Seq<char>>,
    env_realtime_url: Option<Seq<char>>,
    provider: Seq<char>,
    model: Seq<char>,
    mode: Seq<char>,
    chat_model: Option<Seq<char>>,
    transcripts: bool,
    webrtc: bool,
    transport: Option<Seq<char>>,
)
    ensures
        spec_realtime_connect_url(base_url, realtime_url, env_realtime_url, provider, model, mode,
            chat_model, transcripts, webrtc, transport) is Ok <==> ({
            let t = lower(trim(match transport { Some(t) => t, None => Seq::empty() }));
            let m = if trim(mode).len() == 0 { "cascaded"@ } else { lower(trim(mode)) };
            &&& !webrtc && t != "webrtc"@ && t != "rtc"@
            &&& (m == "cascaded"@ || (m == "native"@ && transcripts))
        }),
        spec_realtime_connect_url(base_url, realtime_url, env_realtime_url, provider, model, mode,
            chat_model, transcripts, webrtc, transport) matches Ok(u) ==> ({
            let p = if trim(provider).len() == 0 { FIRST_HOP_PROVIDER@ } else { trim(provider) };
            let m = if trim(model).len() == 0 { FIRST_HOP_MODEL@ } else { trim(model) };
            starts_with(u, spec_realtime_ws_url(base_url, realtime_url, env_realtime_url) + seq!['?']
                + form_item("provider"@, p) + seq!['&'] + form_item("model"@, m) + seq!['&'])
        }),
{
    let r = spec_realtime_connect_url(base_url, realtime_url, env_realtime_url, provider, model, mode,
        chat_model, transcripts, webrtc, transport);
    reveal_strlit("cascaded");
    reveal_strlit("native");
    assert("cascaded"@ != "native"@) by {
        assert("cascaded"@[0] != "native"@[0]);
    }
    if r is Ok {
        let pairs = connect_pairs(provider, model, mode_norm(mode), chat_model, transcripts);
        assert(pairs.len() >= 3);
        lemma_query_head(pairs);
        let ws = spec_realtime_ws_url(base_url, realtime_url, env_realtime_url) + seq!['?'];
        let q = query_of(pairs);
        let head = form_item(pairs[0].0, pairs[0].1) + seq!['&'] + form_item(pairs[1].0, pairs[1].1) + seq!['&'];
        assert((ws + q).subrange(0, (ws + head).len() as int) =~= ws + head) by {
            assert(q.subrange(0, head.len() as int) =~= head);
        }
        assert(ws + head =~= spec_realtime_ws_url(base_url, realtime_url, env_realtime_url) + seq!['?']
            + form_item(pairs[0].0, pairs[0].1) + seq!['&'] + form_item(pairs[1].0, pairs[1].1) + seq!['&']);
    }
}

fn chars_is(a: &[char], b: &str) -> (r: bool)
    ensures
        r == (a@ == b@),
{
    let s = string_from_chars(a);
    str_equal(s.as_str(), b)
}

fn text(s: &str) -> (r: String)
    ensures
        r@ == s@,
{
    s.to_owned()
}

fn or_default_exec(s: &str, d: &str) -> (r: String)
    ensures
        r@ == or_default(s@, d@),
{
    let c = chars_of(s);
    let t = trim_chars(&c);
    if t.len() == 0 {
        text(d)
    } else {
        string_from_chars(&t)
    }
}

/// The realtime connect URL (see [`spec_realtime_connect_url`]). `env_realtime_url` is the value
/// of `TONIA_REALTIME_URL`, which the caller reads.
pub fn realtime_connect_url(params: RealtimeConnectParams<'_>, env_realtime_url: Option<&str>) -> (r: Result<String, ToniaError>)
    ensures
        match r {
            Ok(u) => spec_realtime_connect_url(params.base_url@, crate::errors::opt_str(params.realtime_url),
                crate::errors::opt_str(env_realtime_url), params.provider@, params.model@, params.mode@,
                crate::errors::opt_str(params.chat_model), params.transcripts, params.webrtc,
                crate::errors::opt_str(params.transport)) == Ok::<Seq<char>, ErrorView>(u@),
            Err(e) => spec_realtime_connect_url(params.base_url@, crate::errors::opt_str(params.realtime_url),
                crate::errors::opt_str(env_realtime_url), params.provider@, params.model@, params.mode@,
                crate::errors::opt_str(params.chat_model), params.transcripts, params.webrtc,
                crate::errors::opt_str(params.transport)) == Err::<Seq<char>, ErrorView>(e@),
        },
{
    let transport_chars = match params.transport {
        Some(t) => chars_of(t),
        None => Vec::new(),
    };
    let tt = trim_chars(&transport_chars);
    let t = lower_chars(&tt);
    if params.webrtc || chars_is(&t, "webrtc") || chars_is(&t, "rtc") {
        return Err(ToniaError::invalid_request(
            "Managed WebRTC to the lab is forbidden",
            "realtime_webrtc_forbidden",
        ));
    }
    let mode_chars = chars_of(params.mode);
    let mode_trim = trim_chars(&mode_chars);
    let mode = if mode_trim.len() == 0 {
        text("cascaded")
    } else {
        let l = lower_chars(&mode_trim);
        string_from_chars(&l)
    };
    let cascaded = str_equal(mode.as_str(), "cascaded");
    let native = str_equal(mode.as_str(), "native");
    if !cascaded && !native {
        return Err(ToniaError::invalid_request(
            "realtime mode must be cascaded or native",
            "realtime_mode_invalid",
        ));
    }
    if native && !params.transcripts {
        return Err(ToniaError::invalid_request(
            "native Live needs transcripts=1",
            "realtime_native_transcripts_required",
        ));
    }
    let mut pairs: Vec<(String, String)> = Vec::new();
    pairs.push((text("provider"), or_default_exec(params.provider, FIRST_HOP_PROVIDER)));
    pairs.push((text("model"), or_default_exec(params.model, FIRST_HOP_MODEL)));
    let ghost m = mode@;
    pairs.push((text("mode"), mode));
    let ghost base_pairs = hview(pairs@);
    assert(base_pairs =~= seq![
        ("provider"@, or_default(params.provider@, FIRST_HOP_PROVIDER@)),
        ("model"@, or_default(params.model@, FIRST_HOP_MODEL@)),
        ("mode"@, m),
    ]);
    match nonblank_exec(params.chat_model) {
        Some(c) => {
            pairs.push((text("chat_model"), string_from_chars(&c)));
            assert(hview(pairs@) =~= base_pairs.push(("chat_model"@, c@)));
        },
        None => {},
    }
    let ghost chat_pairs = hview(pairs@);
    if params.transcripts {
        pairs.push((text("transcripts"), text("1")));
        assert(hview(pairs@) =~= chat_pairs.push(("transcripts"@, "1"@)));
    }
    let query = query_string(&pairs);
    let mut url = realtime_ws_url(params.base_url, params.realtime_url, env_realtime_url);
    proof {
        reveal_strlit("?");
        assert("?"@ =~= seq!['?']);
    }
    push_str(&mut url, "?");
    push_str(&mut url, query.as_str());
    Ok(url)
}

/// What [`raise_if_realtime_error`] raises: an object event of type `error`, or with an
/// `error` object, raises as a response body of status 400 would.
pub open spec fn spec_raise_if_realtime_error(payload: JsonSpec) -> Result<(), ErrorView> {
    if !payload.is_object() {
        Ok(())
    } else if payload.get_str("type"@) == Some("error"@) || (match payload.get("error"@) {
        Some(e) => e.is_object(),
        None => false,
    }) {
        spec_raise_from_response_body(payload, 400, Seq::empty())
    } else {
        Ok(())
    }
}

/// Raises the error that a realtime event reports.
pub fn raise_if_realtime_error(payload: &JsonValue) -> (r: Result<(), ToniaError>)
    ensures
        unit_result(r) == spec_raise_if_realtime_error(payload@),
{
    if !payload.is_object() {
        return Ok(());
    }
    let is_error_type = match payload.get("type") {
        Some(t) => match t.as_str() {
            Some(s) => str_equal(s, "error"),
            None => false,
        },
        None => false,
    };
    let has_error_object = match payload.get("error") {
        Some(e) => e.is_object(),
        None => false,
    };
    if is_error_type || has_error_object {
        let none: Vec<(String, String)> = Vec::new();
        assert(hview(none@) =~= Seq::<(Seq<char>, Seq<char>)>::empty());
        crate::errors::raise_from_response_body(payload, 400, none.as_slice())?;
    }
    Ok(())
}

pub open spec fn invalid_request_view(message: Seq<char>, code: Seq<char>) -> ErrorView {
    client_error(message, ErrorKind::InvalidRequest, "invalid_request_error"@, code, Some(false))
}

/// The error raised when no realtime event came in time.
pub fn probe_timeout() -> (r: ToniaError)
    ensures
        r@ == invalid_request_view("realtime recv timeout"@, "realtime_probe_timeout"@),
{
    ToniaError::invalid_request("realtime recv timeout", "realtime_probe_timeout")
}

/// An error with `body` attached; the fields that `ToniaError::new` takes are kept, the
/// others are cleared.
pub open spec fn with_body_view(e: ErrorView, body: JsonSpec) -> ErrorView {
    base_error(e.message, e.kind, e.error_type, e.code, e.retryable, e.status, Some(body), e.headers)
}

/// Attaches a body to an error.
pub fn err_with_body(err: ToniaError, body: JsonValue) -> (r: ToniaError)
    ensures
        r@ == with_body_view(err@, body@),
{
    ToniaError::new(err.message, err.kind, err.error_type, err.code, err.retryable, err.status, Some(body), err.headers)
}

/// The code of a failed handshake: the `code` text of the reply, `realtime_handshake_invalid`
/// when it has none.
pub open spec fn handshake_code(created: JsonSpec) -> Seq<char> {
    match created.get_str("code"@) {
        Some(c) => c,
        None => "realtime_handshake_invalid"@,
    }
}

pub open spec fn handshake_invalid_view(created: JsonSpec) -> ErrorView {
    with_body_view(invalid_request_view("realtime handshake failed"@, handshake_code(created)), created)
}

/// The error for a handshake reply that is not `session.created`.
pub fn handshake_invalid(created: &JsonValue) -> (r: ToniaError)
    ensures
        r@ == handshake_invalid_view(created@),
{
    let code = match created.get("code") {
        Some(c) => match c.as_str() {
            Some(t) => text(t),
            None => text("realtime_handshake_invalid"),
        },
        None => text("realtime_handshake_invalid"),
    };
    let err = ToniaError::invalid_request("realtime handshake failed", code.as_str());
    err_with_body(err, created.deep_clone())
}

/// What the handshake of a realtime session settled.
#[derive(Debug, Clone)]
pub struct RealtimeSessionInfo {
    pub session_id: String,
    pub mode: String,
    pub model: String,
    pub reconnect: String,
    pub created: JsonValue,
}

pub struct RealtimeSessionInfoView {
    pub session_id: Seq<char>,
    pub mode: Seq<char>,
    pub model: Seq<char>,
    pub reconnect: Seq<char>,
    pub created: JsonSpec,
}

impl View for RealtimeSessionInfo {
    type V = RealtimeSessionInfoView;

    open spec fn view(&self) -> RealtimeSessionInfoView {
        RealtimeSessionInfoView {
            session_id: self.session_id@,
            mode: self.mode@,
            model: self.model@,
            reconnect: self.reconnect@,
            created: self.created@,
        }
    }
}

pub open spec fn str_or(v: JsonSpec, key: Seq<char>, d: Seq<char>) -> Seq<char> {
    match v.get_str(key) {
        Some(s) => s,
        None => d,
    }
}

/// The session that a handshake reply opens: an error event raises; a reply that is not
/// `session.created` is refused; missing fields take their defaults.
pub open spec fn spec_session_from_created(created: JsonSpec) -> Result<RealtimeSessionInfoView, ErrorView> {
    match spec_raise_if_realtime_error(created) {
        Err(e) => Err(e),
        Ok(()) => if created.get_str("type"@) != Some("session.created"@) {
            Err(handshake_invalid_view(created))
        } else {
            Ok(RealtimeSessionInfoView {
                session_id: str_or(created, "session_id"@, Seq::empty()),
                mode: str_or(created, "mode"@, Seq::empty()),
                model: str_or(created, "model"@, FIRST_HOP_MODEL@),
                reconnect: str_or(created, "reconnect"@, "new_session"@),
                created,
            })
        },
    }
}

fn str_or_exec(v: &JsonValue, key: &str, d: &str) -> (r: String)
    ensures
        r@ == str_or(v@, key@, d@),
{
    match v.get(key) {
        Some(x) => match x.as_str() {
            Some(s) => text(s),
            None => text(d),
        },
        None => text(d),
    }
}

/// Reads the handshake reply of a realtime session.
pub fn session_from_created(created: JsonValue) -> (r: Result<RealtimeSessionInfo, ToniaError>)
    ensures
        match r {
            Ok(s) => spec_session_from_created(created@) == Ok::<RealtimeSessionInfoView, ErrorView>(s@),
            Err(e) => spec_session_from_created(created@) == Err::<RealtimeSessionInfoView, ErrorView>(e@),
        },
{
    match raise_if_realtime_error(&created) {
        Err(e) => return Err(e),
        Ok(()) => {},
    }
    let is_created = match created.get("type") {
        Some(t) => match t.as_str() {
            Some(s) => str_equal(s, "session.created"),
            None => false,
        },
        None => false,
    };
    if !is_created {
        return Err(handshake_invalid(&created));
    }
    proof {
        reveal_strlit("");
        assert(""@ =~= Seq::<char>::empty());
    }
    Ok(RealtimeSessionInfo {
        session_id: str_or_exec(&created, "session_id", ""),
        mode: str_or_exec(&created, "mode", ""),
        model: str_or_exec(&created, "model", FIRST_HOP_MODEL),
        reconnect: str_or_exec(&created, "reconnect", "new_session"),
        created,
    })
}

pub open spec fn turn_invalid_view() -> ErrorView {
    invalid_request_view("realtime event is not an object"@, "realtime_turn_invalid"@)
}

/// A frame read from the realtime socket, as the transport hands it over.
#[derive(Debug, Clone, PartialEq, Eq)]
pub enum SocketFrame {
    Text(String),
    /// A binary frame: its text when its bytes are UTF-8.
    Binary(Option<String>),
    Ping(Vec<u8>),
    Pong,
    /// A raw frame.
    Raw,
    Close,
    /// The socket has no more frames.
    Ended,
    /// The socket failed with this message.
    Failed(String),
}

/// What reading the socket does with a frame.
#[derive(Debug)]
pub enum FrameStep {
    /// The text of an event.
    Deliver(String),
    /// Answer with a pong that carries these bytes, then keep reading.
    Pong(Vec<u8>),
    /// Keep reading.
    Skip,
    /// Stop reading with this error.
    Fail(ToniaError),
}

pub open spec fn socket_closed_view() -> ErrorView {
    invalid_request_view("realtime socket closed"@, "realtime_turn_invalid"@)
}

/// Decides what one frame of the realtime socket gives: text frames, and binary frames that
/// are UTF-8, carry an event; pings are answered; a close or the end of the socket, a binary
/// frame that is not text and a failure of the socket end the read with an error.
pub fn frame_step(frame: SocketFrame) -> (r: FrameStep)
    ensures
        match frame {
            SocketFrame::Text(t) => r matches FrameStep::Deliver(x) && x@ == t@,
            SocketFrame::Binary(Some(t)) => r matches FrameStep::Deliver(x) && x@ == t@,
            SocketFrame::Binary(None) => r matches FrameStep::Fail(e) && e@ == turn_invalid_view(),
            SocketFrame::Ping(p) => r matches FrameStep::Pong(x) && x@ == p@,
            SocketFrame::Pong | SocketFrame::Raw => r is Skip,
            SocketFrame::Close | SocketFrame::Ended => r matches FrameStep::Fail(e) && e@ == socket_closed_view(),
            SocketFrame::Failed(m) => r matches FrameStep::Fail(e) && e@ == client_error(
                m@, ErrorKind::Tonia, "client_error"@, "transport"@, Some(true)),
        },
{
    match frame {
        SocketFrame::Text(t) => FrameStep::Deliver(t),
        SocketFrame::Binary(Some(t)) => FrameStep::Deliver(t),
        SocketFrame::Binary(None) => FrameStep::Fail(ToniaError::invalid_request(
            "realtime event is not an object",
            "realtime_turn_invalid",
        )),
        SocketFrame::Ping(p) => FrameStep::Pong(p),
        SocketFrame::Pong | SocketFrame::Raw => FrameStep::Skip,
        SocketFrame::Close | SocketFrame::Ended => FrameStep::Fail(ToniaError::invalid_request(
            "realtime socket closed",
            "realtime_turn_invalid",
        )),
        SocketFrame::Failed(m) => FrameStep::Fail(ToniaError::ws_transport(m.as_str())),
    }
}

/// What a received realtime frame gives: the event when it is a JSON object that reports no
/// error.
pub open spec fn spec_decode_realtime_event(raw: Seq<char>) -> Result<JsonSpec, ErrorView> {
    match spec_parse_json(raw) {
        None => Err(turn_invalid_view()),
        Some(v) => if !v.is_object() {
            Err(turn_invalid_view())
        } else {
            match spec_raise_if_realtime_error(v) {
                Err(e) => Err(e),
                Ok(()) => Ok(v),
            }
        },
    }
}

/// Reads one received realtime frame.
pub fn decode_realtime_event(raw: &str) -> (r: Result<JsonValue, ToniaError>)
    ensures
        match r {
            Ok(v) => spec_decode_realtime_event(raw@) == Ok::<JsonSpec, ErrorView>(v@),
            Err(e) => spec_decode_realtime_event(raw@) == Err::<JsonSpec, ErrorView>(e@),
        },
{
    let payload = match parse_json(raw) {
        Some(v) => v,
        None => {
            return Err(ToniaError::invalid_request(
                "realtime event is not an object",
                "realtime_turn_invalid",
            ))
        },
    };
    if !payload.is_object() {
        return Err(ToniaError::invalid_request(
            "realtime event is not an object",
            "realtime_turn_invalid",
        ));
    }
    match raise_if_realtime_error(&payload) {
        Err(e) => Err(e),
        Ok(()) => Ok(payload),
    }
}

/// What the first frame of a session gives: a JSON object, or the handshake error (with the
/// reply attached when it is JSON but not an object).
pub open spec fn spec_decode_handshake(raw: Seq<char>) -> Result<JsonSpec, ErrorView> {
    let e = invalid_request_view("realtime handshake failed"@, "realtime_handshake_invalid"@);
    match spec_parse_json(raw) {
        None => Err(e),
        Some(v) => if !v.is_object() { Err(with_body_view(e, v)) } else { Ok(v) },
    }
}

/// Reads the first frame of a realtime session.
pub fn decode_handshake(raw: &str) -> (r: Result<JsonValue, ToniaError>)
    ensures
        match r {
            Ok(v) => spec_decode_handshake(raw@) == Ok::<JsonSpec, ErrorView>(v@),
            Err(e) => spec_decode_handshake(raw@) == Err::<JsonSpec, ErrorView>(e@),
        },
{
    match parse_json(raw) {
        None => Err(ToniaError::invalid_request("realtime handshake failed", "realtime_handshake_invalid")),
        Some(v) => if !v.is_object() {
            let e = ToniaError::invalid_request("realtime handshake failed", "realtime_handshake_invalid");
            Err(err_with_body(e, v))
        } else {
            Ok(v)
        },
    }
}

/// An event that ends a turn: its `type` is one of [`TERMINAL_TURN_TYPES`].
pub open spec fn spec_is_terminal_turn(event: JsonSpec) -> bool {
    match event.get_str("type"@) {
        Some(t) => t == "output_text.done"@ || t == "output_audio.done"@ || t == "response.function_call"@,
        None => false,
    }
}

pub fn is_terminal_turn(event: &JsonValue) -> (r: bool)
    ensures
        r == spec_is_terminal_turn(event@),
{
    match event.get("type") {
        Some(t) => match t.as_str() {
            Some(s) => str_equal(s, TERMINAL_TURN_TYPES[0]) || str_equal(s, TERMINAL_TURN_TYPES[1])
                || str_equal(s, TERMINAL_TURN_TYPES[2]),
            None => false,
        },
        None => false,
    }
}

/// The next move while waiting for a turn to end.
pub enum TurnStep {
    /// The wait is over with this outcome.
    Done(Result<JsonValue, ToniaError>),
    /// Keep waiting; the last event seen so far.
    Wait(Option<JsonValue>),
}

pub open spec fn opt_result_json(r: Result<JsonValue, ToniaError>) -> Result<JsonSpec, ErrorView> {
    match r {
        Ok(v) => Ok(v@),
        Err(e) => Err(e@),
    }
}

/// How a wait ends without a terminal event: with the last event seen, or a timeout.
pub open spec fn spec_wait_turn_finish(last: Option<JsonSpec>) -> Result<JsonSpec, ErrorView> {
    match last {
        Some(v) => Ok(v),
        None => Err(invalid_request_view("realtime recv timeout"@, "realtime_probe_timeout"@)),
    }
}

/// Ends a wait that saw no terminal event.
pub fn wait_turn_finish(last: Option<JsonValue>) -> (r: Result<JsonValue, ToniaError>)
    ensures
        opt_result_json(r) == spec_wait_turn_finish(opt_json(last)),
{
    match last {
        Some(v) => Ok(v),
        None => Err(probe_timeout()),
    }
}

/// One step of waiting for a turn, given the last event seen and what the next receive gave:
/// a terminal event ends the wait with it; another event is remembered; a receive timeout ends
/// the wait as [`wait_turn_finish`] does; any other error ends it with that error.
pub fn wait_turn_step(last: Option<JsonValue>, outcome: Result<JsonValue, ToniaError>) -> (r: TurnStep)
    ensures
        match outcome {
            Ok(e) => if spec_is_terminal_turn(e@) {
                r matches TurnStep::Done(Ok(v)) && v@ == e@
            } else {
                r matches TurnStep::Wait(Some(v)) && v@ == e@
            },
            Err(err) => if err@.code == Some("realtime_probe_timeout"@) {
                r matches TurnStep::Done(d) && opt_result_json(d) == spec_wait_turn_finish(opt_json(last))
            } else {
                r matches TurnStep::Done(Err(x)) && x@ == err@
            },
        },
{
    match outcome {
        Ok(event) => {
            if is_terminal_turn(&event) {
                TurnStep::Done(Ok(event))
            } else {
                TurnStep::Wait(Some(event))
            }
        },
        Err(err) => {
            let timed_out = match &err.code {
                Some(c) => str_equal(c.as_str(), "realtime_probe_timeout"),
                None => false,
            };
            if timed_out {
                TurnStep::Done(wait_turn_finish(last))
            } else {
                TurnStep::Done(Err(err))
            }
        },
    }
}

impl ToniaError {
    /// The error for a failure of the realtime socket.
    pub fn ws_transport(message: &str) -> (r: Self)
        ensures
            r@ == client_error(message@, ErrorKind::Tonia, "client_error"@, "transport"@, Some(true)),
    {
        let e = ToniaError::invalid_request(message, "transport");
        ToniaError { kind: ErrorKind::Tonia, error_type: text("client_error"), retryable: Some(true), ..e }
    }
}

/// What opening a realtime session sends: the connect URL and the `Authorization` value.
pub open spec fn spec_realtime_connect_plan(
    api_key: Option<Seq<char>>,
    base_url: Seq<char>,
    realtime_url: Option<Seq<char>>,
    env_realtime_url: Option<Seq<char>>,
    provider: Option<Seq<char>>,
    model: Option<Seq<char>>,
    mode: Option<Seq<char>>,
    chat_model: Option<Seq<char>>,
    transcripts: bool,
) -> Result<(Seq<char>, Seq<char>), ErrorView> {
    match api_key {
        Some(key) if key.len() > 0 => {
            let url = spec_realtime_connect_url(
                base_url,
                realtime_url,
                env_realtime_url,
                match provider { Some(p) => p, None => FIRST_HOP_PROVIDER@ },
                match model { Some(m) => m, None => FIRST_HOP_MODEL@ },
                match mode { Some(m) => m, None => "cascaded"@ },
                chat_model,
                transcripts,
                false,
                None,
            );
            match url {
                Ok(u) => Ok((u, "Bearer "@ + key)),
                Err(e) => Err(e),
            }
        },
        _ => Err(crate::transport::missing_bearer_view()),
    }
}

fn as_str_or<'a>(o: &'a Option<String>, d: &'a str) -> (r: &'a str)
    ensures
        r@ == match o { Some(s) => s@, None => d@ },
{
    match o {
        Some(s) => s.as_str(),
        None => d,
    }
}

fn as_opt_str<'a>(o: &'a Option<String>) -> (r: Option<&'a str>)
    ensures
        crate::errors::opt_str(r) == opt_view(*o),
{
    match o {
        Some(s) => Some(s.as_str()),
        None => None,
    }
}

/// Plans the opening of a realtime session: the API key is needed, options default to the
/// first-hop provider and model in cascaded mode.
pub fn realtime_connect_plan(
    api_key: Option<&str>,
    base_url: &str,
    realtime_url: Option<&str>,
    env_realtime_url: Option<&str>,
    opts: &RealtimeConnect,
) -> (r: Result<(String, String), ToniaError>)
    ensures
        match r {
            Ok((u, a)) => spec_realtime_connect_plan(crate::errors::opt_str(api_key), base_url@,
                crate::errors::opt_str(realtime_url), crate::errors::opt_str(env_realtime_url),
                opt_view(opts.provider), opt_view(opts.model), opt_view(opts.mode), opt_view(opts.chat_model),
                opts.transcripts) == Ok::<(Seq<char>, Seq<char>), ErrorView>((u@, a@)),
            Err(e) => spec_realtime_connect_plan(crate::errors::opt_str(api_key), base_url@,
                crate::errors::opt_str(realtime_url), crate::errors::opt_str(env_realtime_url),
                opt_view(opts.provider), opt_view(opts.model), opt_view(opts.mode), opt_view(opts.chat_model),
                opts.transcripts) == Err::<(Seq<char>, Seq<char>), ErrorView>(e@),
        },
{
    let key = match api_key {
        Some(k) => if k.is_empty() {
            return Err(ToniaError::missing_bearer());
        } else {
            k
        },
        None => return Err(ToniaError::missing_bearer()),
    };
    let params = RealtimeConnectParams {
        base_url,
        realtime_url,
        provider: as_str_or(&opts.provider, FIRST_HOP_PROVIDER),
        model: as_str_or(&opts.model, FIRST_HOP_MODEL),
        mode: as_str_or(&opts.mode, "cascaded"),
        chat_model: as_opt_str(&opts.chat_model),
        transcripts: opts.transcripts,
        webrtc: false,
        transport: None,
    };
    let url = realtime_connect_url(params, env_realtime_url)?;
    let mut auth = text("Bearer ");
    push_str(&mut auth, key);
    Ok((url, auth))
}

/// The standard base64 alphabet.
pub open spec fn b64_char(i: nat) -> char {
    if i < 26 {
        ((i + 65) as u32) as char
    } else if i < 52 {
        ((i + 71) as u32) as char
    } else if i < 62 {
        ((i - 4) as u32) as char
    } else if i == 62 {
        '+'
    } else {
        '/'
    }
}

/// Standard base64 with padding, three bytes at a time.
pub open spec fn base64_of(b: Seq<u8>) -> Seq<char>
    decreases b.len(),
{
    if b.len() == 0 {
        Seq::empty()
    } else if b.len() == 1 {
        seq![b64_char((b[0] / 4) as nat), b64_char(((b[0] % 4) * 16) as nat), '=', '=']
    } else if b.len() == 2 {
        seq![b64_char((b[0] / 4) as nat), b64_char(((b[0] % 4) * 16 + b[1] / 16) as nat),
            b64_char(((b[1] % 16) * 4) as nat), '=']
    } else {
        seq![b64_char((b[0] / 4) as nat), b64_char(((b[0] % 4) * 16 + b[1] / 16) as nat),
            b64_char(((b[1] % 16) * 4 + b[2] / 64) as nat), b64_char((b[2] % 64) as nat)]
            + base64_of(b.subrange(3, b.len() as int))
    }
}

/// Encodes bytes as standard base64 with padding (`base64::engine::general_purpose::STANDARD`).
#[verifier::external_body]
fn base64_encode(bytes: &[u8]) -> (r: String)
    ensures
        r@ == base64_of(bytes@),
{
    base64::engine::general_purpose::STANDARD.encode(bytes)
}

fn pair(key: &str, value: JsonValue) -> (r: (String, JsonValue))
    ensures
        r.0@ == key@,
        r.1 == value,
{
    (text(key), value)
}

fn jstr(s: &str) -> (r: JsonValue)
    ensures
        r@ == JsonSpec::Str(s@),
{
    JsonValue::Str(text(s))
}

fn object(entries: Vec<(String, JsonValue)>) -> (r: JsonValue)
    ensures
        r@ == JsonSpec::Object(crate::json::entries_view(entries@)),
{
    proof { crate::json::lemma_object_view(entries); }
    JsonValue::Object(entries)
}

pub open spec fn text_or(o: Option<Seq<char>>, d: Seq<char>) -> Seq<char> {
    match o {
        Some(t) => t,
        None => d,
    }
}

/// The `audio` entry of a commit event, when there is audio.
pub open spec fn audio_entry(audio: Option<&[u8]>) -> Seq<(Seq<char>, JsonSpec)> {
    match audio {
        Some(a) => seq![("audio"@, JsonSpec::Str(base64_of(a@)))],
        None => Seq::empty(),
    }
}

/// `{"text": text, "type": "input_text"}`.
pub fn input_text_event(text_value: &str) -> (r: JsonValue)
    ensures
        r@ == JsonSpec::Object(seq![("text"@, JsonSpec::Str(text_value@)), ("type"@, JsonSpec::Str("input_text"@))]),
{
    let mut e: Vec<(String, JsonValue)> = Vec::new();
    e.push(pair("text", jstr(text_value)));
    e.push(pair("type", jstr("input_text")));
    assert(crate::json::entries_view(e@) =~= seq![("text"@, JsonSpec::Str(text_value@)), ("type"@, JsonSpec::Str("input_text"@))]);
    object(e)
}

/// `{"audio": base64 of the audio, "mime": mime (default `audio/wav`), "type": "input_audio.append"}`.
pub fn audio_append_event(audio: &[u8], mime: Option<&str>) -> (r: JsonValue)
    ensures
        r@ == JsonSpec::Object(seq![
            ("audio"@, JsonSpec::Str(base64_of(audio@))),
            ("mime"@, JsonSpec::Str(text_or(crate::errors::opt_str(mime), "audio/wav"@))),
            ("type"@, JsonSpec::Str("input_audio.append"@)),
        ]),
{
    let m = match mime { Some(m) => m, None => "audio/wav" };
    let mut e: Vec<(String, JsonValue)> = Vec::new();
    e.push(pair("audio", JsonValue::Str(base64_encode(audio))));
    e.push(pair("mime", jstr(m)));
    e.push(pair("type", jstr("input_audio.append")));
    assert(crate::json::entries_view(e@) =~= seq![
        ("audio"@, JsonSpec::Str(base64_of(audio@))),
        ("mime"@, JsonSpec::Str(m@)),
        ("type"@, JsonSpec::Str("input_audio.append"@)),
    ]);
    object(e)
}

/// `{"audio"?: base64 of the audio, "mime": mime (default `audio/wav`), "type": "input_audio.commit"}`.
pub fn audio_commit_event(audio: Option<&[u8]>, mime: Option<&str>) -> (r: JsonValue)
    ensures
        r@ == JsonSpec::Object(audio_entry(audio) + seq![
            ("mime"@, JsonSpec::Str(text_or(crate::errors::opt_str(mime), "audio/wav"@))),
            ("type"@, JsonSpec::Str("input_audio.commit"@)),
        ]),
{
    let m = match mime { Some(m) => m, None => "audio/wav" };
    let mut e: Vec<(String, JsonValue)> = Vec::new();
    let ghost head: Seq<(Seq<char>, JsonSpec)> = audio_entry(audio);
    match audio {
        Some(a) => {
            e.push(pair("audio", JsonValue::Str(base64_encode(a))));
        },
        None => {},
    }
    assert(crate::json::entries_view(e@) =~= head);
    e.push(pair("mime", jstr(m)));
    e.push(pair("type", jstr("input_audio.commit")));
    assert(crate::json::entries_view(e@) =~= head + seq![
        ("mime"@, JsonSpec::Str(m@)),
        ("type"@, JsonSpec::Str("input_audio.commit"@)),
    ]);
    object(e)
}

/// `{"content": content, "delegation_id": id, "kind": kind (default `commentary`), "type": "delegation.result"}`.
pub fn delegation_result_event(delegation_id: &str, content: &str, kind: Option<&str>) -> (r: JsonValue)
    ensures
        r@ == JsonSpec::Object(seq![
            ("content"@, JsonSpec::Str(content@)),
            ("delegation_id"@, JsonSpec::Str(delegation_id@)),
            ("kind"@, JsonSpec::Str(text_or(crate::errors::opt_str(kind), "commentary"@))),
            ("type"@, JsonSpec::Str("delegation.result"@)),
        ]),
{
    let k = match kind { Some(k) => k, None => "commentary" };
    let mut e: Vec<(String, JsonValue)> = Vec::new();
    e.push(pair("content", jstr(content)));
    e.push(pair("delegation_id", jstr(delegation_id)));
    e.push(pair("kind", jstr(k)));
    e.push(pair("type", jstr("delegation.result")));
    assert(crate::json::entries_view(e@) =~= seq![
        ("content"@, JsonSpec::Str(content@)),
        ("delegation_id"@, JsonSpec::Str(delegation_id@)),
        ("kind"@, JsonSpec::Str(k@)),
        ("type"@, JsonSpec::Str("delegation.result"@)),
    ]);
    object(e)
}

} // verus!
