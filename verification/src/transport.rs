//! Shared request helpers: headers, URLs, path segments and audio file checks.
use vstd::prelude::*;
use crate::errors::{client_error, ErrorKind, ErrorView, ToniaError};
use crate::limits::{hview, opt_view};
use crate::text::{
    chars_of, eq_ignore_case, eq_ignore_case_exec, is_ascii_alnum, lower, lower_chars,
    seq_starts_with, starts_with, string_from_chars, trim_start, trim_start_chars,
};

verus! {

pub const DEFAULT_BASE_URL: &'static str = "https://pass.tonia.ca:8443";
pub const SDK_VERSION: &'static str = "0.4.0";
pub const SDK_USER_AGENT: &'static str = "tonia-sdk-rs/0.4.0";
/// Seconds a request may take unless the client says otherwise.
pub const DEFAULT_TIMEOUT_SECS: u64 = 60;
/// Seconds an image, audio or interaction request may take unless the client says otherwise.
pub const IMAGE_TIMEOUT_SECS: u64 = 300;

/// How a request carries the API key.
#[derive(Debug, Clone, Copy, PartialEq, Eq, Default, Structural)]
pub enum AuthStyle {
    #[default]
    Bearer,
    ApiKey,
    NoAuth,
}

/// The map that a list of header pairs makes when inserted in order: a later pair replaces an
/// earlier one with the same name.
pub open spec fn insert_all(
    m: Map<Seq<char>, Seq<char>>,
    pairs: Seq<(Seq<char>, Seq<char>)>,
) -> Map<Seq<char>, Seq<char>>
    decreases pairs.len(),
{
    if pairs.len() == 0 {
        m
    } else {
        insert_all(m, pairs.drop_last()).insert(pairs.last().0, pairs.last().1)
    }
}

/// No two pairs share a name.
pub open spec fn unique_names(v: Seq<(Seq<char>, Seq<char>)>) -> bool {
    forall|i: int, j: int| 0 <= i < j < v.len() ==> v[i].0 != v[j].0
}

/// The map of pairs with distinct names.
pub open spec fn map_of(v: Seq<(Seq<char>, Seq<char>)>) -> Map<Seq<char>, Seq<char>> {
    Map::new(
        |k: Seq<char>| exists|i: int| 0 <= i < v.len() && v[i].0 == k,
        |k: Seq<char>| v[choose|i: int| 0 <= i < v.len() && v[i].0 == k].1,
    )
}

/// The headers that a request sends (see [`build_headers`]).
pub open spec fn spec_build_headers(
    api_key: Option<Seq<char>>,
    default_headers: Seq<(Seq<char>, Seq<char>)>,
    auth: AuthStyle,
    headers: Seq<(Seq<char>, Seq<char>)>,
    accept: Seq<char>,
) -> Result<Map<Seq<char>, Seq<char>>, ErrorView> {
    let m0 = Map::<Seq<char>, Seq<char>>::empty().insert("Accept"@, accept);
    let m1 = insert_all(insert_all(m0, default_headers), headers);
    let m2 = if exists|k: Seq<char>| m1.dom().contains(k) && eq_ignore_case(k, "user-agent"@) {
        m1
    } else {
        m1.insert("User-Agent"@, SDK_USER_AGENT@)
    };
    if auth == AuthStyle::NoAuth {
        Ok(m2)
    } else {
        match api_key {
            Some(key) if key.len() > 0 => if auth == AuthStyle::ApiKey {
                Ok(m2.insert("x-api-key"@, key))
            } else {
                Ok(m2.insert("Authorization"@, "Bearer "@ + key))
            },
            _ => Err(missing_bearer_view()),
        }
    }
}

pub open spec fn missing_bearer_view() -> ErrorView {
    client_error(
        "Missing TONIA_API_KEY"@,
        ErrorKind::Authentication,
        "authentication_error"@,
        "missing_bearer"@,
        Some(false),
    )
}

proof fn lemma_map_of_insert_new(v: Seq<(Seq<char>, Seq<char>)>, k: Seq<char>, x: Seq<char>)
    requires
        unique_names(v),
        forall|i: int| 0 <= i < v.len() ==> v[i].0 != k,
    ensures
        unique_names(v.push((k, x))),
        map_of(v.push((k, x))) == map_of(v).insert(k, x),
{
    let w = v.push((k, x));
    assert(map_of(w) =~= map_of(v).insert(k, x)) by {
        assert forall|q: Seq<char>| #[trigger] map_of(w).dom().contains(q) == map_of(v).insert(k, x).dom().contains(q) by {
            if q != k && map_of(w).dom().contains(q) {
                let i = choose|i: int| 0 <= i < w.len() && w[i].0 == q;
                assert(i < v.len());
                assert(v[i].0 == q);
            }
            if q == k {
                assert(w[v.len() as int].0 == k);
            }
            if map_of(v).dom().contains(q) {
                let i = choose|i: int| 0 <= i < v.len() && v[i].0 == q;
                assert(w[i].0 == q);
            }
        }
        assert forall|q: Seq<char>| #[trigger] map_of(w).dom().contains(q) implies map_of(w)[q] == map_of(v).insert(k, x)[q] by {
            let i = choose|i: int| 0 <= i < w.len() && w[i].0 == q;
            if q == k {
                assert(i == v.len());
            } else {
                let j = choose|j: int| 0 <= j < v.len() && v[j].0 == q;
                assert(w[j].0 == q);
                assert(i == j);
            }
        }
    }
}

proof fn lemma_map_of_update(v: Seq<(Seq<char>, Seq<char>)>, idx: int, x: Seq<char>)
    requires
        unique_names(v),
        0 <= idx < v.len(),
    ensures
        unique_names(v.update(idx, (v[idx].0, x))),
        map_of(v.update(idx, (v[idx].0, x))) == map_of(v).insert(v[idx].0, x),
{
    let k = v[idx].0;
    let w = v.update(idx, (k, x));
    assert(map_of(w) =~= map_of(v).insert(k, x)) by {
        assert forall|q: Seq<char>| #[trigger] map_of(w).dom().contains(q) == map_of(v).insert(k, x).dom().contains(q) by {
            if map_of(w).dom().contains(q) {
                let i = choose|i: int| 0 <= i < w.len() && w[i].0 == q;
                if i != idx {
                    assert(v[i].0 == q);
                }
            }
            if map_of(v).dom().contains(q) {
                let i = choose|i: int| 0 <= i < v.len() && v[i].0 == q;
                assert(w[i].0 == q);
            }
            if q == k {
                assert(w[idx].0 == k);
            }
        }
        assert forall|q: Seq<char>| #[trigger] map_of(w).dom().contains(q) implies map_of(w)[q] == map_of(v).insert(k, x)[q] by {
            let i = choose|i: int| 0 <= i < w.len() && w[i].0 == q;
            if q == k {
                assert(i == idx);
            } else {
                let j = choose|j: int| 0 <= j < v.len() && v[j].0 == q;
                assert(w[j].0 == q);
                assert(i == j);
            }
        }
    }
}

/// Sets header `name` to `value`, replacing a header of exactly that name.
pub(crate) fn set_header(hdrs: &mut Vec<(String, String)>, name: String, value: String)
    requires
        unique_names(hview(old(hdrs)@)),
    ensures
        unique_names(hview(final(hdrs)@)),
        map_of(hview(final(hdrs)@)) == map_of(hview(old(hdrs)@)).insert(name@, value@),
{
    let ghost v = hview(hdrs@);
    let mut i: usize = 0;
    while i < hdrs.len()
        invariant
            i <= hdrs@.len(),
            v == hview(hdrs@),
            v == hview(old(hdrs)@),
            unique_names(v),
            forall|j: int| 0 <= j < i ==> v[j].0 != name@,
        decreases hdrs.len() - i,
    {
        if crate::text::str_equal(hdrs[i].0.as_str(), name.as_str()) {
            let key = hdrs[i].0.clone();
            let ghost vv = value@;
            hdrs.set(i, (key, value));
            proof {
                lemma_map_of_update(v, i as int, vv);
                assert(hview(hdrs@) =~= v.update(i as int, (v[i as int].0, vv)));
                assert(v[i as int].0 == name@);
            }
            return;
        }
        i = i + 1;
    }
    let ghost nv = name@;
    let ghost vv = value@;
    hdrs.push((name, value));
    proof {
        lemma_map_of_insert_new(v, nv, vv);
        assert(hview(hdrs@) =~= v.push((nv, vv)));
    }
}

fn text(s: &str) -> (r: String)
    ensures
        r@ == s@,
{
    s.to_owned()
}

fn insert_pairs(hdrs: &mut Vec<(String, String)>, pairs: &[(String, String)])
    requires
        unique_names(hview(old(hdrs)@)),
    ensures
        unique_names(hview(final(hdrs)@)),
        map_of(hview(final(hdrs)@)) == insert_all(map_of(hview(old(hdrs)@)), hview(pairs@)),
{
    let ghost m0 = map_of(hview(hdrs@));
    let mut i: usize = 0;
    assert(hview(pairs@).subrange(0, 0) =~= Seq::<(Seq<char>, Seq<char>)>::empty());
    while i < pairs.len()
        invariant
            i <= pairs@.len(),
            unique_names(hview(hdrs@)),
            map_of(hview(hdrs@)) == insert_all(m0, hview(pairs@).subrange(0, i as int)),
        decreases pairs.len() - i,
    {
        let k = pairs[i].0.clone();
        let v = pairs[i].1.clone();
        set_header(hdrs, k, v);
        proof {
            let sub = hview(pairs@).subrange(0, i + 1);
            assert(sub.drop_last() =~= hview(pairs@).subrange(0, i as int));
            assert(sub.last() == (pairs@[i as int].0@, pairs@[i as int].1@));
        }
        i = i + 1;
    }
    assert(hview(pairs@).subrange(0, pairs@.len() as int) =~= hview(pairs@));
}

fn has_name_ignoring_case(hdrs: &Vec<(String, String)>, name: &str) -> (r: bool)
    ensures
        r == exists|k: Seq<char>| map_of(hview(hdrs@)).dom().contains(k) && eq_ignore_case(k, name@),
{
    let n = chars_of(name);
    let ghost v = hview(hdrs@);
    let mut i: usize = 0;
    while i < hdrs.len()
        invariant
            i <= hdrs@.len(),
            v == hview(hdrs@),
            n@ == name@,
            forall|j: int| 0 <= j < i ==> !eq_ignore_case(v[j].0, name@),
        decreases hdrs.len() - i,
    {
        let k = chars_of(hdrs[i].0.as_str());
        if eq_ignore_case_exec(&k, &n) {
            assert(map_of(v).dom().contains(v[i as int].0));
            return true;
        }
        i = i + 1;
    }
    assert forall|k: Seq<char>| map_of(v).dom().contains(k) implies !eq_ignore_case(k, name@) by {
        let j = choose|j: int| 0 <= j < v.len() && v[j].0 == k;
    }
    false
}

/// Builds the headers of a request: `Accept`, the client's default headers, the request's own
/// headers, a `User-Agent` unless one is set (in any case), then the API key as the style asks.
/// The result holds each name once.
pub fn build_headers(
    api_key: Option<&str>,
    default_headers: &[(String, String)],
    auth: AuthStyle,
    headers: Option<&[(String, String)]>,
    accept: &str,
) -> (r: Result<Vec<(String, String)>, ToniaError>)
    ensures
        match r {
            Ok(h) => unique_names(hview(h@)) && spec_build_headers(
                crate::errors::opt_str(api_key), hview(default_headers@), auth,
                match headers { Some(x) => hview(x@), None => Seq::empty() }, accept@,
            ) == Ok::<Map<Seq<char>, Seq<char>>, ErrorView>(map_of(hview(h@))),
            Err(e) => spec_build_headers(
                crate::errors::opt_str(api_key), hview(default_headers@), auth,
                match headers { Some(x) => hview(x@), None => Seq::empty() }, accept@,
            ) == Err::<Map<Seq<char>, Seq<char>>, ErrorView>(e@),
        },
{
    let mut hdrs: Vec<(String, String)> = Vec::new();
    proof {
        assert(map_of(hview(hdrs@)) =~= Map::<Seq<char>, Seq<char>>::empty());
    }
    set_header(&mut hdrs, text("Accept"), text(accept));
    insert_pairs(&mut hdrs, default_headers);
    let ghost extra = match headers { Some(x) => hview(x@), None => Seq::empty() };
    match headers {
        Some(extra) => insert_pairs(&mut hdrs, extra),
        None => {
            assert(insert_all(map_of(hview(hdrs@)), Seq::<(Seq<char>, Seq<char>)>::empty()) == map_of(hview(hdrs@)));
        },
    }
    if !has_name_ignoring_case(&hdrs, "user-agent") {
        set_header(&mut hdrs, text("User-Agent"), text(SDK_USER_AGENT));
    }
    if auth != AuthStyle::NoAuth {
        let key = match api_key {
            Some(k) => if k.is_empty() {
                return Err(ToniaError::missing_bearer());
            } else {
                k
            },
            None => return Err(ToniaError::missing_bearer()),
        };
        if auth == AuthStyle::ApiKey {
            set_header(&mut hdrs, text("x-api-key"), text(key));
        } else {
            let mut value = text("Bearer ");
            value.append(key);
            set_header(&mut hdrs, text("Authorization"), value);
        }
    }
    Ok(hdrs)
}

/// `base_url` and `path` joined by exactly the slash that `path` may lack.
pub open spec fn spec_join_url(base_url: Seq<char>, path: Seq<char>) -> Seq<char> {
    if starts_with(path, seq!['/']) {
        base_url + path
    } else {
        base_url + seq!['/'] + path
    }
}

/// The headers that the caller gives a request: `Accept`, then the defaults, then the request's
/// own, a later one replacing an earlier one of the same name.
pub open spec fn given_headers(
    default_headers: Seq<(Seq<char>, Seq<char>)>,
    headers: Seq<(Seq<char>, Seq<char>)>,
    accept: Seq<char>,
) -> Map<Seq<char>, Seq<char>> {
    insert_all(insert_all(Map::<Seq<char>, Seq<char>>::empty().insert("Accept"@, accept), default_headers), headers)
}

/// Every header the caller gives is sent as given, the request's own over the defaults, except
/// the one header that carries the key for the request's authentication.
pub proof fn law_given_headers_are_sent(
    api_key: Option<Seq<char>>,
    default_headers: Seq<(Seq<char>, Seq<char>)>,
    auth: AuthStyle,
    headers: Seq<(Seq<char>, Seq<char>)>,
    accept: Seq<char>,
    name: Seq<char>,
)
    requires
        spec_build_headers(api_key, default_headers, auth, headers, accept) is Ok,
        given_headers(default_headers, headers, accept).dom().contains(name),
        !(auth == AuthStyle::Bearer && name == "Authorization"@),
        !(auth == AuthStyle::ApiKey && name == "x-api-key"@),
    ensures
        ({
            let sent = spec_build_headers(api_key, default_headers, auth, headers, accept)->Ok_0;
            sent.dom().contains(name) && sent[name] == given_headers(default_headers, headers, accept)[name]
        }),
{
    let m1 = given_headers(default_headers, headers, accept);
    if !(exists|k: Seq<char>| m1.dom().contains(k) && eq_ignore_case(k, "user-agent"@)) {
        if name == "User-Agent"@ {
            reveal_strlit("User-Agent");
            reveal_strlit("user-agent");
            assert(lower("User-Agent"@) =~= lower("user-agent"@));
            assert(m1.dom().contains(name) && eq_ignore_case(name, "user-agent"@));
        }
    }
}

/// What building headers gives: it fails, with the missing-key error, exactly when the
/// authentication needs a key and there is none or it is empty; a bearer key goes in
/// `Authorization` as `Bearer <key>`, an API key in `x-api-key`; and the SDK's `User-Agent` is
/// added exactly when no given header names a user agent (ASCII case ignored).
pub proof fn law_build_headers_outcome(
    api_key: Option<Seq<char>>,
    default_headers: Seq<(Seq<char>, Seq<char>)>,
    auth: AuthStyle,
    headers: Seq<(Seq<char>, Seq<char>)>,
    accept: Seq<char>,
)
    ensures
        spec_build_headers(api_key, default_headers, auth, headers, accept) is Err
            <==> (auth != AuthStyle::NoAuth && !(api_key matches Some(k) && k.len() > 0)),
        spec_build_headers(api_key, default_headers, auth, headers, accept) matches Err(e)
            ==> e == missing_bearer_view(),
        spec_build_headers(api_key, default_headers, auth, headers, accept) matches Ok(m) ==> {
            let given = given_headers(default_headers, headers, accept);
            let named = exists|k: Seq<char>| given.dom().contains(k) && eq_ignore_case(k, "user-agent"@);
            &&& (auth == AuthStyle::Bearer ==> (api_key matches Some(key)
                && m.dom().contains("Authorization"@) && m["Authorization"@] == "Bearer "@ + key))
            &&& (auth == AuthStyle::ApiKey ==> (api_key matches Some(key)
                && m.dom().contains("x-api-key"@) && m["x-api-key"@] == key))
            &&& (!named ==> m.dom().contains("User-Agent"@) && m["User-Agent"@] == SDK_USER_AGENT@)
            &&& (named ==> (m.dom().contains("User-Agent"@) == given.dom().contains("User-Agent"@)))
        },
{
    reveal_strlit("User-Agent");
    reveal_strlit("Authorization");
    reveal_strlit("x-api-key");
    assert("User-Agent"@ != "Authorization"@) by {
        assert("User-Agent"@[0] != "Authorization"@[0]);
    }
    assert("User-Agent"@ != "x-api-key"@) by {
        assert("User-Agent"@[0] != "x-api-key"@[0]);
    }
}

/// Without authentication the client adds no key: the key headers sent are those the caller
/// gave.
pub proof fn law_no_auth_adds_no_key(
    api_key: Option<Seq<char>>,
    default_headers: Seq<(Seq<char>, Seq<char>)>,
    headers: Seq<(Seq<char>, Seq<char>)>,
    accept: Seq<char>,
)
    ensures
        spec_build_headers(api_key, default_headers, AuthStyle::NoAuth, headers, accept) is Ok,
        ({
            let sent = spec_build_headers(api_key, default_headers, AuthStyle::NoAuth, headers, accept)->Ok_0;
            let given = given_headers(default_headers, headers, accept);
            &&& sent.dom().contains("Authorization"@) == given.dom().contains("Authorization"@)
            &&& sent.dom().contains("x-api-key"@) == given.dom().contains("x-api-key"@)
        }),
{
    reveal_strlit("User-Agent");
    reveal_strlit("Authorization");
    reveal_strlit("x-api-key");
    assert("User-Agent"@ != "Authorization"@) by {
        assert("User-Agent"@[0] != "Authorization"@[0]);
    }
    assert("User-Agent"@ != "x-api-key"@) by {
        assert("User-Agent"@[0] != "x-api-key"@[0]);
    }
}

/// Joins the base URL and a path.
pub fn join_url(base_url: &str, path: &str) -> (r: String)
    ensures
        r@ == spec_join_url(base_url@, path@),
{
    let p = chars_of(path);
    let slash = chars_of("/");
    proof {
        reveal_strlit("/");
        assert("/"@ =~= seq!['/']);
    }
    let mut r = text(base_url);
    if !seq_starts_with(&p, &slash) {
        r.append("/");
    }
    r.append(path);
    r
}

/// The UTF-8 bytes of one character.
pub open spec fn utf8_char(c: char) -> Seq<u8> {
    let u = c as u32;
    if u < 0x80 {
        seq![u as u8]
    } else if u < 0x800 {
        seq![(0xC0 + u / 64) as u8, (0x80 + u % 64) as u8]
    } else if u < 0x10000 {
        seq![(0xE0 + u / 4096) as u8, (0x80 + (u / 64) % 64) as u8, (0x80 + u % 64) as u8]
    } else {
        seq![(0xF0 + u / 262144) as u8, (0x80 + (u / 4096) % 64) as u8, (0x80 + (u / 64) % 64) as u8, (0x80 + u % 64) as u8]
    }
}

/// The UTF-8 bytes of a text.
pub open spec fn utf8_bytes(s: Seq<char>) -> Seq<u8>
    decreases s.len(),
{
    if s.len() == 0 {
        Seq::empty()
    } else {
        utf8_bytes(s.drop_last()) + utf8_char(s.last())
    }
}

pub open spec fn hex_digit(d: nat) -> char {
    if d < 10 { ((d + 48) as u32) as char } else { ((d + 55) as u32) as char }
}

/// A byte kept as it is in a path segment: an ASCII letter or digit, or `-`.
pub open spec fn unreserved(b: u8) -> bool {
    is_ascii_alnum(b as char) || b == 0x2D
}

/// A byte as it stands in an encoded path segment: itself when unreserved, `%XX` otherwise.
pub open spec fn encode_byte(b: u8) -> Seq<char> {
    if unreserved(b) {
        seq![b as char]
    } else {
        seq!['%', hex_digit((b / 16) as nat), hex_digit((b % 16) as nat)]
    }
}

pub open spec fn percent_encode(bytes: Seq<u8>) -> Seq<char>
    decreases bytes.len(),
{
    if bytes.len() == 0 {
        Seq::empty()
    } else {
        percent_encode(bytes.drop_last()) + encode_byte(bytes.last())
    }
}

proof fn lemma_percent_encode_append(a: Seq<u8>, b: Seq<u8>)
    ensures
        percent_encode(a + b) == percent_encode(a) + percent_encode(b),
    decreases b.len(),
{
    if b.len() == 0 {
        assert(a + b =~= a);
        assert(percent_encode(a) + percent_encode(b) =~= percent_encode(a));
    } else {
        lemma_percent_encode_append(a, b.drop_last());
        assert((a + b).drop_last() =~= a + b.drop_last());
        assert((a + b).last() == b.last());
        assert(percent_encode(a) + percent_encode(b) =~= percent_encode(a) + percent_encode(b.drop_last()) + encode_byte(b.last()));
    }
}

fn utf8_char_exec(c: char) -> (r: Vec<u8>)
    ensures
        r@ == utf8_char(c),
{
    let u = c as u32;
    let mut r: Vec<u8> = Vec::new();
    if u < 0x80 {
        r.push(u as u8);
        assert(r@ =~= utf8_char(c));
    } else if u < 0x800 {
        r.push((0xC0 + u / 64) as u8);
        r.push((0x80 + u % 64) as u8);
        assert(r@ =~= utf8_char(c));
    } else if u < 0x10000 {
        r.push((0xE0 + u / 4096) as u8);
        r.push((0x80 + (u / 64) % 64) as u8);
        r.push((0x80 + u % 64) as u8);
        assert(r@ =~= utf8_char(c));
    } else {
        r.push((0xF0 + u / 262144) as u8);
        r.push((0x80 + (u / 4096) % 64) as u8);
        r.push((0x80 + (u / 64) % 64) as u8);
        r.push((0x80 + u % 64) as u8);
        assert(r@ =~= utf8_char(c));
    }
    r
}

fn hex_digit_exec(d: u8) -> (r: char)
    requires
        d < 16,
    ensures
        r == hex_digit(d as nat),
{
    if d < 10 {
        (d + 48) as char
    } else {
        (d + 55) as char
    }
}

fn encode_byte_into(out: &mut Vec<char>, b: u8)
    ensures
        final(out)@ == old(out)@ + encode_byte(b),
{
    let c = b as char;
    if ('0' <= c && c <= '9') || ('a' <= c && c <= 'z') || ('A' <= c && c <= 'Z') || b == 0x2D {
        out.push(c);
        assert(final(out)@ =~= old(out)@ + encode_byte(b));
    } else {
        out.push('%');
        out.push(hex_digit_exec(b / 16));
        out.push(hex_digit_exec(b % 16));
        assert(final(out)@ =~= old(out)@ + encode_byte(b));
    }
}

/// Percent-encodes an identifier for use as one path segment: every UTF-8 byte except ASCII
/// letters, digits and `-` becomes `%XX` (upper-case hexadecimal).
pub fn encode_path_segment(id: &str) -> (r: String)
    ensures
        r@ == percent_encode(utf8_bytes(id@)),
{
    let chars = chars_of(id);
    let mut out: Vec<char> = Vec::new();
    let mut i: usize = 0;
    assert(chars@.subrange(0, 0) =~= Seq::<char>::empty());
    while i < chars.len()
        invariant
            i <= chars@.len(),
            chars@ == id@,
            out@ == percent_encode(utf8_bytes(chars@.subrange(0, i as int))),
        decreases chars.len() - i,
    {
        let bytes = utf8_char_exec(chars[i]);
        let ghost before = out@;
        let mut j: usize = 0;
        assert(bytes@.subrange(0, 0) =~= Seq::<u8>::empty());
        assert(percent_encode(Seq::<u8>::empty()) == Seq::<char>::empty());
        assert(before + percent_encode(bytes@.subrange(0, 0)) =~= before);
        while j < bytes.len()
            invariant
                j <= bytes@.len(),
                out@ == before + percent_encode(bytes@.subrange(0, j as int)),
            decreases bytes.len() - j,
        {
            encode_byte_into(&mut out, bytes[j]);
            proof {
                let sub = bytes@.subrange(0, j + 1);
                assert(sub.drop_last() =~= bytes@.subrange(0, j as int));
                assert(sub.last() == bytes@[j as int]);
            }
            j = j + 1;
        }
        proof {
            assert(bytes@.subrange(0, bytes@.len() as int) =~= bytes@);
            let pre = chars@.subrange(0, i as int);
            let next = chars@.subrange(0, i + 1);
            assert(next.drop_last() =~= pre);
            assert(next.last() == chars@[i as int]);
            lemma_percent_encode_append(utf8_bytes(pre), utf8_char(chars@[i as int]));
        }
        i = i + 1;
    }
    assert(chars@.subrange(0, chars@.len() as int) =~= chars@);
    string_from_chars(&out)
}

/// A content type that carries raw audio bytes.
pub open spec fn spec_is_binary_audio(content_type: Seq<char>) -> bool {
    starts_with(lower(content_type), "audio/"@) || starts_with(lower(content_type), "application/octet-stream"@)
}

pub fn is_binary_audio_content_type(content_type: &str) -> (r: bool)
    ensures
        r == spec_is_binary_audio(content_type@),
{
    let c = chars_of(content_type);
    let lowered = lower_chars(&c);
    let audio = chars_of("audio/");
    let octet = chars_of("application/octet-stream");
    seq_starts_with(&lowered, &audio) || seq_starts_with(&lowered, &octet)
}

/// The last component of a path, as `Path::file_name` gives it: the last part between slashes
/// that is neither empty nor `.`; none when there is no such part or it is `..`.
pub open spec fn spec_file_name(path: Seq<char>) -> Option<Seq<char>> {
    let parts = name_parts(crate::text::split_on(path, '/'));
    if parts.len() == 0 || parts.last() == seq!['.', '.'] {
        None
    } else {
        Some(parts.last())
    }
}

/// A part of a path that names something: neither empty nor `.`.
pub open spec fn keep_part(x: Seq<char>) -> bool {
    x.len() > 0 && x != seq!['.']
}

pub open spec fn name_parts(parts: Seq<Seq<char>>) -> Seq<Seq<char>> {
    parts.filter(|x: Seq<char>| keep_part(x))
}

/// The extension of a file name, as `Path::extension` gives it: what follows the last `.`,
/// unless there is no `.` or the only `.` is the first character.
pub open spec fn spec_extension(name: Seq<char>) -> Option<Seq<char>> {
    match crate::text::last_index_of(name, '.') {
        Some(i) => if i == 0 { None } else { Some(name.subrange(i + 1, name.len() as int)) },
        None => None,
    }
}

/// The MIME type of an audio file name, by its lower-cased extension; `application/octet-stream`
/// for any other name.
pub open spec fn spec_audio_mime(name: Seq<char>) -> Seq<char> {
    match spec_file_name(name) {
        Some(f) => match spec_extension(f) {
            Some(e) => audio_mime_for_ext(lower(e)),
            None => "application/octet-stream"@,
        },
        None => "application/octet-stream"@,
    }
}

pub open spec fn audio_mime_for_ext(e: Seq<char>) -> Seq<char> {
    if e == "wav"@ || e == "wave"@ {
        "audio/wav"@
    } else if e == "mp3"@ {
        "audio/mpeg"@
    } else if e == "m4a"@ || e == "mp4"@ {
        "audio/mp4"@
    } else if e == "webm"@ {
        "audio/webm"@
    } else if e == "ogg"@ {
        "audio/ogg"@
    } else if e == "flac"@ {
        "audio/flac"@
    } else {
        "application/octet-stream"@
    }
}

fn chars_eq_str(a: &[char], b: &str) -> (r: bool)
    ensures
        r == (a@ == b@),
{
    let s = string_from_chars(a);
    crate::text::str_equal(s.as_str(), b)
}

fn audio_mime_for_ext_exec(e: &[char]) -> (r: &'static str)
    ensures
        r@ == audio_mime_for_ext(e@),
{
    if chars_eq_str(e, "wav") || chars_eq_str(e, "wave") {
        "audio/wav"
    } else if chars_eq_str(e, "mp3") {
        "audio/mpeg"
    } else if chars_eq_str(e, "m4a") || chars_eq_str(e, "mp4") {
        "audio/mp4"
    } else if chars_eq_str(e, "webm") {
        "audio/webm"
    } else if chars_eq_str(e, "ogg") {
        "audio/ogg"
    } else if chars_eq_str(e, "flac") {
        "audio/flac"
    } else {
        "application/octet-stream"
    }
}

fn file_name_exec(path: &[char]) -> (r: Option<Vec<char>>)
    ensures
        match r {
            Some(v) => spec_file_name(path@) == Some(v@),
            None => spec_file_name(path@) is None,
        },
{
    let parts = crate::text::split_chars(path, '/');
    let ghost all = crate::text::split_on(path@, '/');
    let mut last: Option<Vec<char>> = None;
    let mut i: usize = 0;
    assert(name_parts(all.subrange(0, 0)) =~= Seq::<Seq<char>>::empty()) by {
        reveal(Seq::filter);
    }
    while i < parts.len()
        invariant
            i <= parts@.len(),
            crate::text::parts_view(parts@) == all,
            match last {
                Some(v) => name_parts(all.subrange(0, i as int)).len() > 0 && name_parts(all.subrange(0, i as int)).last() == v@,
                None => name_parts(all.subrange(0, i as int)).len() == 0,
            },
        decreases parts.len() - i,
    {
        let p = &parts[i];
        let is_dot = p.len() == 1 && p[0] == '.';
        assert(is_dot == (p@ == seq!['.'])) by {
            if p@ == seq!['.'] {
                assert(p@.len() == 1);
            }
            if p@.len() == 1 && p@[0] == '.' {
                assert(p@ =~= seq!['.']);
            }
        }
        proof {
            reveal(Seq::filter);
            let sub = all.subrange(0, i + 1);
            assert(sub.drop_last() =~= all.subrange(0, i as int));
            assert(sub.last() == p@);
        }
        proof {
            let sub = all.subrange(0, i + 1);
            let prev = all.subrange(0, i as int);
            assert(name_parts(sub) == if keep_part(sub.last()) {
                name_parts(sub.drop_last()).push(sub.last())
            } else {
                name_parts(sub.drop_last())
            });
        }
        if p.len() > 0 && !is_dot {
            last = Some(p.clone());
        }
        i = i + 1;
    }
    assert(all.subrange(0, parts@.len() as int) =~= all);
    match last {
        None => None,
        Some(v) => {
            let dotdot = v.len() == 2 && v[0] == '.' && v[1] == '.';
            assert(dotdot == (v@ == seq!['.', '.'])) by {
                if v@ == seq!['.', '.'] {
                    assert(v@.len() == 2);
                    assert(v@[0] == '.' && v@[1] == '.');
                }
                if v@.len() == 2 && v@[0] == '.' && v@[1] == '.' {
                    assert(v@ =~= seq!['.', '.']);
                }
            }
            if dotdot {
                None
            } else {
                Some(v)
            }
        },
    }
}

/// The MIME type to send for an audio file name.
pub fn audio_mime_for_name(name: &str) -> (r: &'static str)
    ensures
        r@ == spec_audio_mime(name@),
{
    let chars = chars_of(name);
    match file_name_exec(&chars) {
        Some(f) => match crate::text::last_index_exec(&f, '.') {
            Some(i) => if i == 0 {
                "application/octet-stream"
            } else {
                assert(i < f.len());
                let start = i + 1;
                let ext = crate::text::slice_chars(&f, start, f.len());
                let lowered = lower_chars(&ext);
                audio_mime_for_ext_exec(&lowered)
            },
            None => "application/octet-stream",
        },
        None => "application/octet-stream",
    }
}

/// The error for a transcription file given as a `data:` URI.
pub open spec fn invalid_transcription_file_view() -> ErrorView {
    client_error(
        invalid_file_message(),
        ErrorKind::InvalidRequest,
        "invalid_request_error"@,
        "invalid_transcription_file"@,
        Some(false),
    )
}

pub open spec fn invalid_file_message() -> Seq<char> {
    "file must be audio bytes, a path, or a binary file object — not a data URI. Send the audio file itself."@
}

/// A text that is a `data:` URI once leading whitespace is dropped (scheme case ignored).
pub open spec fn spec_is_data_uri(file: Seq<char>) -> bool {
    starts_with(lower(trim_start(file)), "data:"@)
}

fn is_data_uri(file: &str) -> (r: bool)
    ensures
        r == spec_is_data_uri(file@),
{
    let c = chars_of(file);
    let t = trim_start_chars(&c);
    let l = lower_chars(&t);
    let d = chars_of("data:");
    seq_starts_with(&l, &d)
}

/// Refuses a transcription file given as a `data:` URI.
pub fn reject_data_uri(file: &str) -> (r: Result<(), ToniaError>)
    ensures
        r is Ok <==> !spec_is_data_uri(file@),
        r matches Err(e) ==> e@ == invalid_transcription_file_view(),
{
    if is_data_uri(file) {
        return Err(ToniaError::invalid_transcription_file());
    }
    Ok(())
}

impl ToniaError {
    /// The error for a transcription file given as a `data:` URI.
    pub fn invalid_transcription_file() -> (r: Self)
        ensures
            r@ == invalid_transcription_file_view(),
    {
        ToniaError::invalid_request(
            "file must be audio bytes, a path, or a binary file object — not a data URI. Send the audio file itself.",
            "invalid_transcription_file",
        )
    }

    /// The error for a request that the transport failed to deliver or to read back.
    pub fn transport(message: &str, timed_out: bool, connect_failed: bool) -> (r: Self)
        ensures
            r@ == client_error(
                message@,
                ErrorKind::Tonia,
                "client_error"@,
                if timed_out { "timeout"@ } else { "transport"@ },
                Some(timed_out || connect_failed),
            ),
    {
        let code = if timed_out { "timeout" } else { "transport" };
        let e = ToniaError::invalid_request(message, code);
        ToniaError {
            kind: ErrorKind::Tonia,
            error_type: text("client_error"),
            retryable: Some(timed_out || connect_failed),
            ..e
        }
    }
}

/// Why a transcription file was refused before any request.
#[derive(Debug, Clone, PartialEq, Eq)]
pub struct InvalidTranscriptionFile {
    pub message: String,
}

impl InvalidTranscriptionFile {
    /// The refusal of a `data:` URI.
    pub fn data_uri() -> (r: Self)
        ensures
            r.message@ == invalid_file_message(),
    {
        InvalidTranscriptionFile { message: text("file must be audio bytes, a path, or a binary file object — not a data URI. Send the audio file itself.") }
    }

    /// The message of the refusal.
    pub fn to_string(&self) -> (r: String)
        ensures
            r@ == self.message@,
    {
        self.message.clone()
    }
}

/// An audio file to transcribe: its bytes, or a path to read them from.
#[derive(Debug, Clone, PartialEq, Eq)]
pub enum TranscriptionFile {
    Bytes(Vec<u8>),
    Path(String),
}

impl TranscriptionFile {
    /// A file named by the user: refused when it is a `data:` URI, a path otherwise.
    pub fn try_from_user(file: &str) -> (r: Result<TranscriptionFile, InvalidTranscriptionFile>)
        ensures
            r is Err <==> spec_is_data_uri(file@),
            r matches Err(e) ==> e.message@ == invalid_file_message(),
            r matches Ok(TranscriptionFile::Path(p)) ==> p@ == file@,
            r matches Ok(f) ==> f is Path,
    {
        if is_data_uri(file) {
            Err(InvalidTranscriptionFile::data_uri())
        } else {
            Ok(TranscriptionFile::Path(text(file)))
        }
    }

    /// Refuses a path that is a `data:` URI before anything is read.
    pub fn check(&self) -> (r: Result<(), InvalidTranscriptionFile>)
        ensures
            r is Err <==> (self matches TranscriptionFile::Path(p) && spec_is_data_uri(p@)),
            r matches Err(e) ==> e.message@ == invalid_file_message(),
    {
        match self {
            TranscriptionFile::Bytes(_) => Ok(()),
            TranscriptionFile::Path(p) => if is_data_uri(p.as_str()) {
                Err(InvalidTranscriptionFile::data_uri())
            } else {
                Ok(())
            },
        }
    }
}

/// The failure of a transcription request: a refused file, or an error of the service.
#[derive(Debug, Clone)]
pub enum TranscriptionError {
    InvalidFile(InvalidTranscriptionFile),
    Api(ToniaError),
}

proof fn lemma_last_index_suffix(p: Seq<char>, x: Seq<char>, c: char)
    requires
        p.len() > 0,
        p[p.len() - 1] == c,
        forall|k: int| 0 <= k < x.len() ==> x[k] != c,
    ensures
        crate::text::last_index_of(p + x, c) == Some(p.len() - 1),
    decreases x.len(),
{
    if x.len() == 0 {
        assert(p + x =~= p);
    } else {
        let y = x.drop_last();
        lemma_last_index_suffix(p, y, c);
        assert((p + x).subrange(0, (p + x).len() - 1) =~= p + y);
        assert((p + x)[(p + x).len() - 1] == x[x.len() - 1]);
    }
}

/// The MIME type of an audio file named `stem.ext` (no `/` in it, no `.` in the extension, and
/// neither part empty) follows the extension, ASCII case ignored: `wav` and `wave` are
/// `audio/wav`, `mp3` is `audio/mpeg`, `m4a` and `mp4` are `audio/mp4`, `webm`, `ogg` and `flac`
/// are `audio/webm`, `audio/ogg` and `audio/flac`; any other extension is
/// `application/octet-stream`.
pub proof fn law_audio_mime_by_extension(stem: Seq<char>, ext: Seq<char>)
    requires
        stem.len() > 0,
        ext.len() > 0,
        forall|k: int| 0 <= k < stem.len() ==> stem[k] != '/',
        forall|k: int| 0 <= k < ext.len() ==> ext[k] != '/' && ext[k] != '.',
    ensures
        ({
            let m = spec_audio_mime(stem + seq!['.'] + ext);
            let e = lower(ext);
            &&& (e == "wav"@ || e == "wave"@) ==> m == "audio/wav"@
            &&& e == "mp3"@ ==> m == "audio/mpeg"@
            &&& (e == "m4a"@ || e == "mp4"@) ==> m == "audio/mp4"@
            &&& e == "webm"@ ==> m == "audio/webm"@
            &&& e == "ogg"@ ==> m == "audio/ogg"@
            &&& e == "flac"@ ==> m == "audio/flac"@
            &&& !(e == "wav"@ || e == "wave"@ || e == "mp3"@ || e == "m4a"@ || e == "mp4"@
                || e == "webm"@ || e == "ogg"@ || e == "flac"@) ==> m == "application/octet-stream"@
        }),
{
    let p = stem + seq!['.'];
    let name = p + ext;
    assert(stem + seq!['.'] + ext == name);
    assert forall|k: int| 0 <= k < name.len() implies name[k] != '/' by {
        if k < stem.len() {
            assert(name[k] == stem[k]);
        } else if k > stem.len() {
            assert(name[k] == ext[k - stem.len() - 1]);
        }
    }
    crate::text::lemma_split_on_absent(name, '/');
    reveal(Seq::filter);
    let one = seq![name];
    assert(one.drop_last() =~= Seq::<Seq<char>>::empty());
    assert(keep_part(name)) by {
        if name == seq!['.'] {
            assert(name.len() == 1);
        }
    }
    assert(name_parts(one) =~= one);
    assert(name != seq!['.', '.']) by {
        if name == seq!['.', '.'] {
            assert(name.len() == 2);
        }
    }
    assert(spec_file_name(name) == Some(name));
    lemma_last_index_suffix(p, ext, '.');
    assert(name.subrange(stem.len() + 1 as int, name.len() as int) =~= ext);
    assert(spec_extension(name) == Some(ext));
    reveal_strlit("wav");
    reveal_strlit("wave");
    reveal_strlit("mp3");
    reveal_strlit("m4a");
    reveal_strlit("mp4");
    reveal_strlit("webm");
    reveal_strlit("ogg");
    reveal_strlit("flac");
    let m = spec_audio_mime(name);
    assert(m == audio_mime_for_ext(lower(ext)));
    let e = lower(ext);
    assert(e == "m4a"@ ==> !(e == "wav"@ || e == "wave"@ || e == "mp3"@)) by {
        if e == "m4a"@ {
            assert(e[0] == 'm' && e[1] == '4');
        }
    }
    assert(e == "mp4"@ ==> !(e == "wav"@ || e == "wave"@ || e == "mp3"@)) by {
        if e == "mp4"@ {
            assert(e[0] == 'm' && e[1] == 'p' && e[2] == '4');
        }
    }
    assert(e == "mp3"@ ==> !(e == "wav"@ || e == "wave"@)) by {
        if e == "mp3"@ {
            assert(e[0] == 'm');
        }
    }
    assert(e == "webm"@ ==> !(e == "wav"@ || e == "wave"@ || e == "mp3"@ || e == "m4a"@ || e == "mp4"@)) by {
        if e == "webm"@ {
            assert(e[0] == 'w' && e[1] == 'e' && e.len() == 4);
        }
    }
    assert(e == "ogg"@ ==> !(e == "wav"@ || e == "wave"@ || e == "mp3"@ || e == "m4a"@ || e == "mp4"@
        || e == "webm"@)) by {
        if e == "ogg"@ {
            assert(e[0] == 'o');
        }
    }
    assert(e == "flac"@ ==> !(e == "wav"@ || e == "wave"@ || e == "mp3"@ || e == "m4a"@ || e == "mp4"@
        || e == "webm"@ || e == "ogg"@)) by {
        if e == "flac"@ {
            assert(e[0] == 'f');
        }
    }
}

} // verus!
