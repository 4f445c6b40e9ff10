//! Verified core of the tonia Pass client: request preparation, path and header rules,
//! error classification, soft limits, server-sent event framing and the realtime protocol.
pub mod text;
pub mod json;
pub mod limits;
pub mod errors;
pub mod escape;
pub mod stream;
pub mod transport;
pub mod realtime;
pub mod client;
pub mod routes;

pub use client::{RequestOptions, ToniaBuilder};
pub use errors::{
    error_from_http_fallback, error_from_structured, raise_from_response_body,
    raise_from_stream_headers, ErrorKind, ToniaError,
};
pub use escape::{assert_path_allowed, normalize_path, ESCAPE_HATCH_PREFIXES};
pub use json::JsonValue;
pub use limits::{limits_from_headers, LimitInfo};
pub use realtime::{
    raise_if_realtime_error, realtime_connect_url, realtime_ws_url, RealtimeConnect,
    RealtimeConnectParams, FIRST_HOP_MODEL, FIRST_HOP_PROVIDER, REALTIME_PATH,
    TERMINAL_TURN_TYPES, TURN_TYPES,
};
pub use stream::{feed_sse, raise_if_stream_carrier, SseEvent};
pub use transport::{
    audio_mime_for_name, encode_path_segment, reject_data_uri, AuthStyle,
    InvalidTranscriptionFile, TranscriptionError, TranscriptionFile, DEFAULT_BASE_URL,
    DEFAULT_TIMEOUT_SECS, IMAGE_TIMEOUT_SECS, SDK_USER_AGENT, SDK_VERSION,
};

use vstd::prelude::*;

verus! {

/// The version of this crate.
pub const VERSION: &'static str = "0.4.0";

} // verus!
