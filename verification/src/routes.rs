//! The named helpers of the client: the route, the authentication and the timeout class of each.
use vstd::prelude::*;
use crate::limits::hview;
use crate::escape::{
    all_plain, escape_prefixes, join_slash, lemma_normal_form, path_allowed, plain_segment,
    prefix_allows, spec_assert_path_allowed, spec_normalize_path,
};
use crate::client::{reject_stream_body, spec_wants_stream, use_stream_helper_view, wants_stream};
use crate::errors::{ErrorView, ToniaError};
use crate::json::JsonValue;
use std::time::Duration;
use crate::text::{is_ascii_alnum, is_ws};
use crate::transport::{
    encode_byte, encode_path_segment, hex_digit, percent_encode, unreserved, utf8_bytes, AuthStyle,
    IMAGE_TIMEOUT_SECS,
};

verus! {

/// A named helper of the client, with the model id it names where it takes one.
#[derive(Debug, Clone, PartialEq, Eq)]
pub enum Endpoint {
    CatalogueList,
    PublicModelsList,
    PublicModelsGet(String),
    PublicModelCategoriesList,
    StatusGet,
    ModelsList,
    ModelsGet(String),
    ChatCompletions,
    Messages,
    Embeddings,
    ImagesGenerate,
    ImagesEdit,
    AudioSpeech,
    AudioTranscriptions,
    Responses,
    Rerank,
    Interactions,
}

/// Where and how a named helper sends its request.
#[derive(Debug, Clone)]
pub struct Route {
    pub method: String,
    pub path: String,
    pub auth: AuthStyle,
    /// Headers added to the request's own.
    pub headers: Vec<(String, String)>,
    /// The helper waits as long as the client's timeout, or the image timeout when the client
    /// has none, rather than the transport's default.
    pub heavy: bool,
    /// The helper has a stream form (see [`create_plan`] for what its `create` does with a body
    /// that asks for a stream).
    pub streams: bool,
}

/// The method of a helper: the listings and lookups read, the others post.
pub open spec fn spec_route_method(e: Endpoint) -> Seq<char> {
    match e {
        Endpoint::CatalogueList | Endpoint::PublicModelsList | Endpoint::PublicModelsGet(_)
        | Endpoint::PublicModelCategoriesList | Endpoint::StatusGet | Endpoint::ModelsList
        | Endpoint::ModelsGet(_) => "GET"@,
        _ => "POST"@,
    }
}

/// The path of a helper; a model id is one percent-encoded segment.
pub open spec fn spec_route_path(e: Endpoint) -> Seq<char> {
    match e {
        Endpoint::CatalogueList => "/v1/public/catalogue"@,
        Endpoint::PublicModelsList => "/v1/public/models"@,
        Endpoint::PublicModelsGet(id) => "/v1/public/models/"@ + percent_encode(utf8_bytes(id@)),
        Endpoint::PublicModelCategoriesList => "/v1/public/model-categories"@,
        Endpoint::StatusGet => "/v1/status"@,
        Endpoint::ModelsList => "/v1/models"@,
        Endpoint::ModelsGet(id) => "/v1/models/"@ + percent_encode(utf8_bytes(id@)),
        Endpoint::ChatCompletions => "/v1/chat/completions"@,
        Endpoint::Messages => "/v1/messages"@,
        Endpoint::Embeddings => "/v1/embeddings"@,
        Endpoint::ImagesGenerate => "/v1/images/generations"@,
        Endpoint::ImagesEdit => "/v1/images/edits"@,
        Endpoint::AudioSpeech => "/v1/audio/speech"@,
        Endpoint::AudioTranscriptions => "/v1/audio/transcriptions"@,
        Endpoint::Responses => "/v1/responses"@,
        Endpoint::Rerank => "/v1/rerank"@,
        Endpoint::Interactions => "/v1/interactions"@,
    }
}

/// The public routes and the status send no key; messages send `x-api-key`; the others a
/// bearer token.
pub open spec fn spec_route_auth(e: Endpoint) -> AuthStyle {
    match e {
        Endpoint::CatalogueList | Endpoint::PublicModelsList | Endpoint::PublicModelsGet(_)
        | Endpoint::PublicModelCategoriesList | Endpoint::StatusGet => AuthStyle::NoAuth,
        Endpoint::Messages => AuthStyle::ApiKey,
        _ => AuthStyle::Bearer,
    }
}

/// Images, audio and interactions wait the longer timeout.
pub open spec fn spec_route_heavy(e: Endpoint) -> bool {
    match e {
        Endpoint::ImagesGenerate | Endpoint::ImagesEdit | Endpoint::AudioSpeech
        | Endpoint::AudioTranscriptions | Endpoint::Interactions => true,
        _ => false,
    }
}

/// Chat completions, messages, responses and interactions have a stream form.
pub open spec fn spec_route_streams(e: Endpoint) -> bool {
    match e {
        Endpoint::ChatCompletions | Endpoint::Messages | Endpoint::Responses
        | Endpoint::Interactions => true,
        _ => false,
    }
}

/// Speech asks for audio bytes first.
pub open spec fn spec_route_headers(e: Endpoint) -> Seq<(Seq<char>, Seq<char>)> {
    match e {
        Endpoint::AudioSpeech => seq![("Accept"@, "application/octet-stream, audio/*, application/json"@)],
        _ => Seq::empty(),
    }
}

fn owned(s: &str) -> (r: String)
    ensures
        r@ == s@,
{
    s.to_owned()
}

fn segment_path(prefix: &str, id: &String) -> (r: String)
    ensures
        r@ == prefix@ + percent_encode(utf8_bytes(id@)),
{
    let mut p = prefix.to_owned();
    let seg = encode_path_segment(id.as_str());
    p.append(seg.as_str());
    p
}

fn route_path(e: &Endpoint) -> (r: String)
    ensures
        r@ == spec_route_path(*e),
{
    match e {
        Endpoint::CatalogueList => owned("/v1/public/catalogue"),
        Endpoint::PublicModelsList => owned("/v1/public/models"),
        Endpoint::PublicModelsGet(id) => segment_path("/v1/public/models/", id),
        Endpoint::PublicModelCategoriesList => owned("/v1/public/model-categories"),
        Endpoint::StatusGet => owned("/v1/status"),
        Endpoint::ModelsList => owned("/v1/models"),
        Endpoint::ModelsGet(id) => segment_path("/v1/models/", id),
        Endpoint::ChatCompletions => owned("/v1/chat/completions"),
        Endpoint::Messages => owned("/v1/messages"),
        Endpoint::Embeddings => owned("/v1/embeddings"),
        Endpoint::ImagesGenerate => owned("/v1/images/generations"),
        Endpoint::ImagesEdit => owned("/v1/images/edits"),
        Endpoint::AudioSpeech => owned("/v1/audio/speech"),
        Endpoint::AudioTranscriptions => owned("/v1/audio/transcriptions"),
        Endpoint::Responses => owned("/v1/responses"),
        Endpoint::Rerank => owned("/v1/rerank"),
        Endpoint::Interactions => owned("/v1/interactions"),
    }
}

/// The route of a named helper.
pub fn route(e: &Endpoint) -> (r: Route)
    ensures
        r.method@ == spec_route_method(*e),
        r.path@ == spec_route_path(*e),
        r.auth == spec_route_auth(*e),
        hview(r.headers@) == spec_route_headers(*e),
        r.heavy == spec_route_heavy(*e),
        r.streams == spec_route_streams(*e),
{
    let method = match e {
        Endpoint::CatalogueList | Endpoint::PublicModelsList | Endpoint::PublicModelsGet(_)
        | Endpoint::PublicModelCategoriesList | Endpoint::StatusGet | Endpoint::ModelsList
        | Endpoint::ModelsGet(_) => owned("GET"),
        _ => owned("POST"),
    };
    let auth = match e {
        Endpoint::CatalogueList | Endpoint::PublicModelsList | Endpoint::PublicModelsGet(_)
        | Endpoint::PublicModelCategoriesList | Endpoint::StatusGet => AuthStyle::NoAuth,
        Endpoint::Messages => AuthStyle::ApiKey,
        _ => AuthStyle::Bearer,
    };
    let heavy = match e {
        Endpoint::ImagesGenerate | Endpoint::ImagesEdit | Endpoint::AudioSpeech
        | Endpoint::AudioTranscriptions | Endpoint::Interactions => true,
        _ => false,
    };
    let streams = match e {
        Endpoint::ChatCompletions | Endpoint::Messages | Endpoint::Responses
        | Endpoint::Interactions => true,
        _ => false,
    };
    let mut headers: Vec<(String, String)> = Vec::new();
    match e {
        Endpoint::AudioSpeech => {
            headers.push((owned("Accept"), owned("application/octet-stream, audio/*, application/json")));
        },
        _ => {},
    }
    proof {
        assert(hview(headers@) =~= spec_route_headers(*e));
    }
    Route { method, path: route_path(e), auth, headers, heavy, streams }
}

/// What a helper's `create` does with a body.
#[derive(Debug)]
pub enum CreatePlan {
    /// Send the body and return the JSON answer.
    Send,
    /// The body asks for a stream: run the stream form with it, and answer `null` once it has
    /// ended without error.
    Stream,
    /// Refuse the body before any request.
    Refused(ToniaError),
}

/// Chat completions refuse, in `create`, a body that asks for a stream; the other helpers with
/// a stream form run it; every other body is sent as it is.
pub fn create_plan(e: &Endpoint, body: &JsonValue) -> (r: CreatePlan)
    ensures
        !(spec_wants_stream(body@) && spec_route_streams(*e)) ==> r is Send,
        spec_wants_stream(body@) && spec_route_streams(*e) && *e is ChatCompletions
            ==> (r matches CreatePlan::Refused(x) && x@ == use_stream_helper_view()),
        spec_wants_stream(body@) && spec_route_streams(*e) && !(*e is ChatCompletions)
            ==> r is Stream,
{
    let streams = match e {
        Endpoint::ChatCompletions | Endpoint::Messages | Endpoint::Responses
        | Endpoint::Interactions => true,
        _ => false,
    };
    if !(streams && wants_stream(body)) {
        return CreatePlan::Send;
    }
    match e {
        Endpoint::ChatCompletions => match reject_stream_body(body) {
            Err(x) => CreatePlan::Refused(x),
            Ok(()) => CreatePlan::Send,
        },
        _ => CreatePlan::Stream,
    }
}

/// The timeout of a request: the client's own, or a number of seconds.
#[derive(Debug, Clone, Copy, PartialEq, Eq)]
pub enum RequestTimeout {
    Client(Duration),
    Seconds(u64),
}

/// The timeout of a heavy helper: the client's own when it has one, the image timeout otherwise.
pub open spec fn spec_heavy_timeout(configured: Option<Duration>) -> RequestTimeout {
    match configured {
        Some(d) => RequestTimeout::Client(d),
        None => RequestTimeout::Seconds(IMAGE_TIMEOUT_SECS),
    }
}

/// The timeout of a heavy helper (see [`spec_heavy_timeout`]).
pub fn heavy_timeout(configured: Option<Duration>) -> (r: RequestTimeout)
    ensures
        r == spec_heavy_timeout(configured),
{
    match configured {
        Some(d) => RequestTimeout::Client(d),
        None => RequestTimeout::Seconds(IMAGE_TIMEOUT_SECS),
    }
}

/// The timeout a named helper sets on its request: the heavy timeout for heavy helpers, none
/// (the transport's default) for the others.
pub fn route_timeout(e: &Endpoint, configured: Option<Duration>) -> (r: Option<RequestTimeout>)
    ensures
        r == (if spec_route_heavy(*e) { Some(spec_heavy_timeout(configured)) } else { None::<RequestTimeout> }),
{
    let heavy = match e {
        Endpoint::ImagesGenerate | Endpoint::ImagesEdit | Endpoint::AudioSpeech
        | Endpoint::AudioTranscriptions | Endpoint::Interactions => true,
        _ => false,
    };
    if heavy {
        Some(heavy_timeout(configured))
    } else {
        None
    }
}

} // verus!

verus! {

/// A character of an encoded path segment.
pub open spec fn segment_char(c: char) -> bool {
    is_ascii_alnum(c) || c == '-' || c == '%'
}

proof fn lemma_encoded_len(bytes: Seq<u8>)
    ensures
        percent_encode(bytes).len() >= bytes.len(),
    decreases bytes.len(),
{
    if bytes.len() > 0 {
        lemma_encoded_len(bytes.drop_last());
    }
}

proof fn lemma_utf8_nonempty(id: Seq<char>)
    requires
        id.len() > 0,
    ensures
        utf8_bytes(id).len() > 0,
{
    assert(utf8_bytes(id) == utf8_bytes(id.drop_last()) + crate::transport::utf8_char(id.last()));
}

proof fn lemma_encoded_chars(bytes: Seq<u8>)
    ensures
        forall|k: int| 0 <= k < percent_encode(bytes).len() ==> segment_char(#[trigger] percent_encode(bytes)[k]),
    decreases bytes.len(),
{
    if bytes.len() > 0 {
        let init = bytes.drop_last();
        lemma_encoded_chars(init);
        let p = percent_encode(init);
        let b = bytes.last();
        let e = encode_byte(b);
        assert(percent_encode(bytes) == p + e);
        assert forall|k: int| 0 <= k < percent_encode(bytes).len() implies segment_char(#[trigger] percent_encode(bytes)[k]) by {
            if k < p.len() {
                assert(percent_encode(bytes)[k] == p[k]);
            } else {
                let j = k - p.len();
                assert(percent_encode(bytes)[k] == e[j]);
                if !unreserved(b) {
                    let hi = (b / 16) as nat;
                    let lo = (b % 16) as nat;
                    assert(hi < 16 && lo < 16);
                    assert(segment_char(hex_digit(hi)));
                    assert(segment_char(hex_digit(lo)));
                }
            }
        }
    }
}

/// The encoded segment of a model id that is not empty is a plain segment that does not end in
/// whitespace.
proof fn lemma_encoded_plain(id: Seq<char>)
    requires
        id.len() > 0,
    ensures
        plain_segment(percent_encode(utf8_bytes(id))),
        !is_ws(percent_encode(utf8_bytes(id)).last()),
{
    let s = percent_encode(utf8_bytes(id));
    lemma_utf8_nonempty(id);
    lemma_encoded_len(utf8_bytes(id));
    lemma_encoded_chars(utf8_bytes(id));
    assert(segment_char(s[0]));
    assert(s != seq!['.']) by {
        if s == seq!['.'] {
            assert(s[0] == '.');
        }
    }
    assert(s != seq!['.', '.']) by {
        if s == seq!['.', '.'] {
            assert(s[0] == '.');
        }
    }
    assert forall|k: int| 0 <= k < s.len() implies s[k] != '/' && s[k] != '?' && s[k] != '#' by {
        assert(segment_char(s[k]));
    }
    assert(segment_char(s[s.len() - 1]));
}

proof fn lemma_join2(a: Seq<char>, b: Seq<char>)
    ensures
        join_slash(seq![a, b]) == a + seq!['/'] + b,
{
    assert(seq![a, b].drop_last() =~= seq![a]);
    assert(join_slash(seq![a]) == a);
}

proof fn lemma_join3(a: Seq<char>, b: Seq<char>, c: Seq<char>)
    ensures
        join_slash(seq![a, b, c]) == a + seq!['/'] + b + seq!['/'] + c,
{
    assert(seq![a, b, c].drop_last() =~= seq![a, b]);
    lemma_join2(a, b);
}

proof fn lemma_join4(a: Seq<char>, b: Seq<char>, c: Seq<char>, d: Seq<char>)
    ensures
        join_slash(seq![a, b, c, d]) == a + seq!['/'] + b + seq!['/'] + c + seq!['/'] + d,
{
    assert(seq![a, b, c, d].drop_last() =~= seq![a, b, c]);
    lemma_join3(a, b, c);
}

/// A slash and plain segments that a supported prefix admits pass the path check unchanged.
proof fn lemma_passes(n: Seq<char>, r: Seq<Seq<char>>, k: int)
    requires
        r.len() >= 1,
        all_plain(r),
        !is_ws(r.last().last()),
        n == seq!['/'] + join_slash(r),
        0 <= k < escape_prefixes().len(),
        prefix_allows(escape_prefixes()[k], n),
    ensures
        spec_assert_path_allowed(n) == Ok::<Seq<char>, ErrorView>(n),
{
    lemma_normal_form(r);
}

proof fn lemma_v1_two(n: Seq<char>, b: Seq<char>, k: int)
    requires
        n == "/v1/"@ + b,
        plain_segment(b),
        !is_ws(b.last()),
        0 <= k < escape_prefixes().len(),
        prefix_allows(escape_prefixes()[k], n),
    ensures
        spec_assert_path_allowed(n) == Ok::<Seq<char>, ErrorView>(n),
{
    reveal_strlit("v1");
    reveal_strlit("/v1/");
    let r = seq!["v1"@, b];
    lemma_join2("v1"@, b);
    assert(n =~= seq!['/'] + join_slash(r));
    assert(all_plain(r)) by {
        assert(plain_segment(r[0]));
        assert(plain_segment(r[1]));
    }
    lemma_passes(n, r, k);
}

proof fn lemma_v1_three(n: Seq<char>, b: Seq<char>, c: Seq<char>, k: int)
    requires
        n == "/v1/"@ + b + seq!['/'] + c,
        plain_segment(b),
        plain_segment(c),
        !is_ws(c.last()),
        0 <= k < escape_prefixes().len(),
        prefix_allows(escape_prefixes()[k], n),
    ensures
        spec_assert_path_allowed(n) == Ok::<Seq<char>, ErrorView>(n),
{
    reveal_strlit("v1");
    reveal_strlit("/v1/");
    let r = seq!["v1"@, b, c];
    lemma_join3("v1"@, b, c);
    assert(n =~= seq!['/'] + join_slash(r));
    assert(all_plain(r)) by {
        assert(plain_segment(r[0]));
        assert(plain_segment(r[1]));
        assert(plain_segment(r[2]));
    }
    lemma_passes(n, r, k);
}

proof fn lemma_v1_four(n: Seq<char>, b: Seq<char>, c: Seq<char>, d: Seq<char>, k: int)
    requires
        n == "/v1/"@ + b + seq!['/'] + c + seq!['/'] + d,
        plain_segment(b),
        plain_segment(c),
        plain_segment(d),
        !is_ws(d.last()),
        0 <= k < escape_prefixes().len(),
        prefix_allows(escape_prefixes()[k], n),
    ensures
        spec_assert_path_allowed(n) == Ok::<Seq<char>, ErrorView>(n),
{
    reveal_strlit("v1");
    reveal_strlit("/v1/");
    let r = seq!["v1"@, b, c, d];
    lemma_join4("v1"@, b, c, d);
    assert(n =~= seq!['/'] + join_slash(r));
    assert(all_plain(r)) by {
        assert(plain_segment(r[0]));
        assert(plain_segment(r[1]));
        assert(plain_segment(r[2]));
        assert(plain_segment(r[3]));
    }
    lemma_passes(n, r, k);
}

proof fn lemma_path_v1_public_catalogue()
    ensures
        spec_assert_path_allowed("/v1/public/catalogue"@) == Ok::<Seq<char>, ErrorView>("/v1/public/catalogue"@),
{
    reveal_strlit("/v1/public/catalogue");
    reveal_strlit("/v1/public/");
    reveal_strlit("public");
    reveal_strlit("catalogue");
    reveal_strlit("/v1/");
    assert("/v1/public/catalogue"@ =~= "/v1/"@ + "public"@ + seq!['/'] + "catalogue"@);
    assert("/v1/public/catalogue"@.subrange(0, 11) =~= "/v1/public/"@);
    assert(escape_prefixes()[0] == "/v1/public/"@);
    assert(prefix_allows(escape_prefixes()[0], "/v1/public/catalogue"@));
    lemma_v1_three("/v1/public/catalogue"@, "public"@, "catalogue"@, 0);
}

proof fn lemma_path_v1_public_models()
    ensures
        spec_assert_path_allowed("/v1/public/models"@) == Ok::<Seq<char>, ErrorView>("/v1/public/models"@),
{
    reveal_strlit("/v1/public/models");
    reveal_strlit("/v1/public/");
    reveal_strlit("public");
    reveal_strlit("models");
    reveal_strlit("/v1/");
    assert("/v1/public/models"@ =~= "/v1/"@ + "public"@ + seq!['/'] + "models"@);
    assert("/v1/public/models"@.subrange(0, 11) =~= "/v1/public/"@);
    assert(escape_prefixes()[0] == "/v1/public/"@);
    assert(prefix_allows(escape_prefixes()[0], "/v1/public/models"@));
    lemma_v1_three("/v1/public/models"@, "public"@, "models"@, 0);
}

proof fn lemma_path_v1_public_model_categories()
    ensures
        spec_assert_path_allowed("/v1/public/model-categories"@) == Ok::<Seq<char>, ErrorView>("/v1/public/model-categories"@),
{
    reveal_strlit("/v1/public/model-categories");
    reveal_strlit("/v1/public/");
    reveal_strlit("public");
    reveal_strlit("model-categories");
    reveal_strlit("/v1/");
    assert("/v1/public/model-categories"@ =~= "/v1/"@ + "public"@ + seq!['/'] + "model-categories"@);
    assert("/v1/public/model-categories"@.subrange(0, 11) =~= "/v1/public/"@);
    assert(escape_prefixes()[0] == "/v1/public/"@);
    assert(prefix_allows(escape_prefixes()[0], "/v1/public/model-categories"@));
    lemma_v1_three("/v1/public/model-categories"@, "public"@, "model-categories"@, 0);
}

proof fn lemma_path_v1_status()
    ensures
        spec_assert_path_allowed("/v1/status"@) == Ok::<Seq<char>, ErrorView>("/v1/status"@),
{
    reveal_strlit("/v1/status");
    reveal_strlit("status");
    reveal_strlit("/v1/");
    assert("/v1/status"@ =~= "/v1/"@ + "status"@);
    assert(escape_prefixes()[1] == "/v1/status"@);
    assert(prefix_allows(escape_prefixes()[1], "/v1/status"@));
    lemma_v1_two("/v1/status"@, "status"@, 1);
}

proof fn lemma_path_v1_models()
    ensures
        spec_assert_path_allowed("/v1/models"@) == Ok::<Seq<char>, ErrorView>("/v1/models"@),
{
    reveal_strlit("/v1/models");
    reveal_strlit("models");
    reveal_strlit("/v1/");
    assert("/v1/models"@ =~= "/v1/"@ + "models"@);
    assert(escape_prefixes()[2] == "/v1/models"@);
    assert(prefix_allows(escape_prefixes()[2], "/v1/models"@));
    lemma_v1_two("/v1/models"@, "models"@, 2);
}

proof fn lemma_path_v1_chat_completions()
    ensures
        spec_assert_path_allowed("/v1/chat/completions"@) == Ok::<Seq<char>, ErrorView>("/v1/chat/completions"@),
{
    reveal_strlit("/v1/chat/completions");
    reveal_strlit("/v1/chat/");
    reveal_strlit("chat");
    reveal_strlit("completions");
    reveal_strlit("/v1/");
    assert("/v1/chat/completions"@ =~= "/v1/"@ + "chat"@ + seq!['/'] + "completions"@);
    assert("/v1/chat/completions"@.subrange(0, 9) =~= "/v1/chat/"@);
    assert(escape_prefixes()[3] == "/v1/chat/"@);
    assert(prefix_allows(escape_prefixes()[3], "/v1/chat/completions"@));
    lemma_v1_three("/v1/chat/completions"@, "chat"@, "completions"@, 3);
}

proof fn lemma_path_v1_messages()
    ensures
        spec_assert_path_allowed("/v1/messages"@) == Ok::<Seq<char>, ErrorView>("/v1/messages"@),
{
    reveal_strlit("/v1/messages");
    reveal_strlit("messages");
    reveal_strlit("/v1/");
    assert("/v1/messages"@ =~= "/v1/"@ + "messages"@);
    assert(escape_prefixes()[4] == "/v1/messages"@);
    assert(prefix_allows(escape_prefixes()[4], "/v1/messages"@));
    lemma_v1_two("/v1/messages"@, "messages"@, 4);
}

proof fn lemma_path_v1_embeddings()
    ensures
        spec_assert_path_allowed("/v1/embeddings"@) == Ok::<Seq<char>, ErrorView>("/v1/embeddings"@),
{
    reveal_strlit("/v1/embeddings");
    reveal_strlit("embeddings");
    reveal_strlit("/v1/");
    assert("/v1/embeddings"@ =~= "/v1/"@ + "embeddings"@);
    assert(escape_prefixes()[5] == "/v1/embeddings"@);
    assert(prefix_allows(escape_prefixes()[5], "/v1/embeddings"@));
    lemma_v1_two("/v1/embeddings"@, "embeddings"@, 5);
}

proof fn lemma_path_v1_images_generations()
    ensures
        spec_assert_path_allowed("/v1/images/generations"@) == Ok::<Seq<char>, ErrorView>("/v1/images/generations"@),
{
    reveal_strlit("/v1/images/generations");
    reveal_strlit("/v1/images/");
    reveal_strlit("images");
    reveal_strlit("generations");
    reveal_strlit("/v1/");
    assert("/v1/images/generations"@ =~= "/v1/"@ + "images"@ + seq!['/'] + "generations"@);
    assert("/v1/images/generations"@.subrange(0, 11) =~= "/v1/images/"@);
    assert(escape_prefixes()[6] == "/v1/images/"@);
    assert(prefix_allows(escape_prefixes()[6], "/v1/images/generations"@));
    lemma_v1_three("/v1/images/generations"@, "images"@, "generations"@, 6);
}

proof fn lemma_path_v1_images_edits()
    ensures
        spec_assert_path_allowed("/v1/images/edits"@) == Ok::<Seq<char>, ErrorView>("/v1/images/edits"@),
{
    reveal_strlit("/v1/images/edits");
    reveal_strlit("/v1/images/");
    reveal_strlit("images");
    reveal_strlit("edits");
    reveal_strlit("/v1/");
    assert("/v1/images/edits"@ =~= "/v1/"@ + "images"@ + seq!['/'] + "edits"@);
    assert("/v1/images/edits"@.subrange(0, 11) =~= "/v1/images/"@);
    assert(escape_prefixes()[6] == "/v1/images/"@);
    assert(prefix_allows(escape_prefixes()[6], "/v1/images/edits"@));
    lemma_v1_three("/v1/images/edits"@, "images"@, "edits"@, 6);
}

proof fn lemma_path_v1_audio_speech()
    ensures
        spec_assert_path_allowed("/v1/audio/speech"@) == Ok::<Seq<char>, ErrorView>("/v1/audio/speech"@),
{
    reveal_strlit("/v1/audio/speech");
    reveal_strlit("/v1/audio/");
    reveal_strlit("audio");
    reveal_strlit("speech");
    reveal_strlit("/v1/");
    assert("/v1/audio/speech"@ =~= "/v1/"@ + "audio"@ + seq!['/'] + "speech"@);
    assert("/v1/audio/speech"@.subrange(0, 10) =~= "/v1/audio/"@);
    assert(escape_prefixes()[7] == "/v1/audio/"@);
    assert(prefix_allows(escape_prefixes()[7], "/v1/audio/speech"@));
    lemma_v1_three("/v1/audio/speech"@, "audio"@, "speech"@, 7);
}

proof fn lemma_path_v1_audio_transcriptions()
    ensures
        spec_assert_path_allowed("/v1/audio/transcriptions"@) == Ok::<Seq<char>, ErrorView>("/v1/audio/transcriptions"@),
{
    reveal_strlit("/v1/audio/transcriptions");
    reveal_strlit("/v1/audio/");
    reveal_strlit("audio");
    reveal_strlit("transcriptions");
    reveal_strlit("/v1/");
    assert("/v1/audio/transcriptions"@ =~= "/v1/"@ + "audio"@ + seq!['/'] + "transcriptions"@);
    assert("/v1/audio/transcriptions"@.subrange(0, 10) =~= "/v1/audio/"@);
    assert(escape_prefixes()[7] == "/v1/audio/"@);
    assert(prefix_allows(escape_prefixes()[7], "/v1/audio/transcriptions"@));
    lemma_v1_three("/v1/audio/transcriptions"@, "audio"@, "transcriptions"@, 7);
}

proof fn lemma_path_v1_responses()
    ensures
        spec_assert_path_allowed("/v1/responses"@) == Ok::<Seq<char>, ErrorView>("/v1/responses"@),
{
    reveal_strlit("/v1/responses");
    reveal_strlit("responses");
    reveal_strlit("/v1/");
    assert("/v1/responses"@ =~= "/v1/"@ + "responses"@);
    assert(escape_prefixes()[8] == "/v1/responses"@);
    assert(prefix_allows(escape_prefixes()[8], "/v1/responses"@));
    lemma_v1_two("/v1/responses"@, "responses"@, 8);
}

proof fn lemma_path_v1_rerank()
    ensures
        spec_assert_path_allowed("/v1/rerank"@) == Ok::<Seq<char>, ErrorView>("/v1/rerank"@),
{
    reveal_strlit("/v1/rerank");
    reveal_strlit("rerank");
    reveal_strlit("/v1/");
    assert("/v1/rerank"@ =~= "/v1/"@ + "rerank"@);
    assert(escape_prefixes()[9] == "/v1/rerank"@);
    assert(prefix_allows(escape_prefixes()[9], "/v1/rerank"@));
    lemma_v1_two("/v1/rerank"@, "rerank"@, 9);
}

proof fn lemma_path_v1_interactions()
    ensures
        spec_assert_path_allowed("/v1/interactions"@) == Ok::<Seq<char>, ErrorView>("/v1/interactions"@),
{
    reveal_strlit("/v1/interactions");
    reveal_strlit("interactions");
    reveal_strlit("/v1/");
    assert("/v1/interactions"@ =~= "/v1/"@ + "interactions"@);
    assert(escape_prefixes()[10] == "/v1/interactions"@);
    assert(prefix_allows(escape_prefixes()[10], "/v1/interactions"@));
    lemma_v1_two("/v1/interactions"@, "interactions"@, 10);
}

proof fn lemma_path_models_get(id: Seq<char>)
    requires
        id.len() > 0,
    ensures
        spec_assert_path_allowed("/v1/models/"@ + percent_encode(utf8_bytes(id)))
            == Ok::<Seq<char>, ErrorView>("/v1/models/"@ + percent_encode(utf8_bytes(id))),
{
    let seg = percent_encode(utf8_bytes(id));
    let n = "/v1/models/"@ + seg;
    reveal_strlit("/v1/models/");
    reveal_strlit("/v1/models");
    reveal_strlit("/v1/");
    reveal_strlit("models");
    lemma_encoded_plain(id);
    assert(n =~= "/v1/"@ + "models"@ + seq!['/'] + seg);
    assert(n.subrange(0, 11) =~= "/v1/models"@ + seq!['/']);
    assert(escape_prefixes()[2] == "/v1/models"@);
    assert(prefix_allows(escape_prefixes()[2], n));
    lemma_v1_three(n, "models"@, seg, 2);
}

proof fn lemma_path_public_models_get(id: Seq<char>)
    requires
        id.len() > 0,
    ensures
        spec_assert_path_allowed("/v1/public/models/"@ + percent_encode(utf8_bytes(id)))
            == Ok::<Seq<char>, ErrorView>("/v1/public/models/"@ + percent_encode(utf8_bytes(id))),
{
    let seg = percent_encode(utf8_bytes(id));
    let n = "/v1/public/models/"@ + seg;
    reveal_strlit("/v1/public/models/");
    reveal_strlit("/v1/public/");
    reveal_strlit("/v1/");
    reveal_strlit("public");
    reveal_strlit("models");
    lemma_encoded_plain(id);
    assert(n =~= "/v1/"@ + "public"@ + seq!['/'] + "models"@ + seq!['/'] + seg);
    assert(n.subrange(0, 11) =~= "/v1/public/"@);
    assert(escape_prefixes()[0] == "/v1/public/"@);
    assert(prefix_allows(escape_prefixes()[0], n));
    lemma_v1_four(n, "public"@, "models"@, seg, 0);
}

/// Every named helper sends a path that the path check accepts unchanged, so no helper is
/// refused by it; a model id must not be empty.
pub proof fn law_routes_pass_path_check(e: Endpoint)
    requires
        match e {
            Endpoint::PublicModelsGet(id) => id@.len() > 0,
            Endpoint::ModelsGet(id) => id@.len() > 0,
            _ => true,
        },
    ensures
        spec_assert_path_allowed(spec_route_path(e)) == Ok::<Seq<char>, ErrorView>(spec_route_path(e)),
{
    match e {
        Endpoint::PublicModelsGet(id) => lemma_path_public_models_get(id@),
        Endpoint::ModelsGet(id) => lemma_path_models_get(id@),
        Endpoint::CatalogueList => lemma_path_v1_public_catalogue(),
        Endpoint::PublicModelsList => lemma_path_v1_public_models(),
        Endpoint::PublicModelCategoriesList => lemma_path_v1_public_model_categories(),
        Endpoint::StatusGet => lemma_path_v1_status(),
        Endpoint::ModelsList => lemma_path_v1_models(),
        Endpoint::ChatCompletions => lemma_path_v1_chat_completions(),
        Endpoint::Messages => lemma_path_v1_messages(),
        Endpoint::Embeddings => lemma_path_v1_embeddings(),
        Endpoint::ImagesGenerate => lemma_path_v1_images_generations(),
        Endpoint::ImagesEdit => lemma_path_v1_images_edits(),
        Endpoint::AudioSpeech => lemma_path_v1_audio_speech(),
        Endpoint::AudioTranscriptions => lemma_path_v1_audio_transcriptions(),
        Endpoint::Responses => lemma_path_v1_responses(),
        Endpoint::Rerank => lemma_path_v1_rerank(),
        Endpoint::Interactions => lemma_path_v1_interactions(),
    }
}

} // verus!
