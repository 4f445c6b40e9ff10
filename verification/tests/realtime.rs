use tonia_sdk::{
    realtime_connect_url, realtime_ws_url, ErrorKind, RealtimeConnectParams, FIRST_HOP_MODEL,
    FIRST_HOP_PROVIDER, REALTIME_PATH,
};

#[test]
fn hosted_pass_keeps_8443() {
    assert_eq!(
        realtime_ws_url("https://pass.tonia.ca:8443", None, None),
        format!("wss://pass.tonia.ca:8443{REALTIME_PATH}")
    );
}

#[test]
fn local_8444_maps_to_8448() {
    assert_eq!(
        realtime_ws_url("http://127.0.0.1:8444", None, None),
        format!("ws://127.0.0.1:8448{REALTIME_PATH}")
    );
    assert_eq!(
        realtime_ws_url("http://localhost:8444", None, None),
        format!("ws://localhost:8448{REALTIME_PATH}")
    );
}

#[test]
fn local_missing_port_maps_to_8448() {
    assert_eq!(
        realtime_ws_url("http://127.0.0.1", None, None),
        format!("ws://127.0.0.1:8448{REALTIME_PATH}")
    );
}

#[test]
fn other_hosts_keep_8444() {
    assert_eq!(
        realtime_ws_url("https://pass-dev.example:8444", None, None),
        format!("wss://pass-dev.example:8444{REALTIME_PATH}")
    );
}

#[test]
fn override_does_not_append_path() {
    assert_eq!(
        realtime_ws_url(
            "https://pass.tonia.ca:8443",
            Some("wss://live.example/custom"),
            None
        ),
        "wss://live.example/custom"
    );
}

#[test]
fn webrtc_is_forbidden() {
    let err = realtime_connect_url(
        RealtimeConnectParams {
            webrtc: true,
            ..RealtimeConnectParams::new("https://pass.tonia.ca:8443")
        },
        None,
    )
    .unwrap_err();
    assert_eq!(err.kind, ErrorKind::InvalidRequest);
    assert_eq!(err.code.as_deref(), Some("realtime_webrtc_forbidden"));
}

#[test]
fn transport_rtc_is_forbidden() {
    let err = realtime_connect_url(
        RealtimeConnectParams {
            transport: Some("rtc"),
            ..RealtimeConnectParams::new("https://pass.tonia.ca:8443")
        },
        None,
    )
    .unwrap_err();
    assert_eq!(err.code.as_deref(), Some("realtime_webrtc_forbidden"));
}

#[test]
fn native_without_transcripts_is_invalid() {
    let err = realtime_connect_url(
        RealtimeConnectParams {
            mode: "native",
            ..RealtimeConnectParams::new("https://pass.tonia.ca:8443")
        },
        None,
    )
    .unwrap_err();
    assert_eq!(
        err.code.as_deref(),
        Some("realtime_native_transcripts_required")
    );
}

#[test]
fn connect_url_includes_query() {
    let url = realtime_connect_url(
        RealtimeConnectParams {
            provider: FIRST_HOP_PROVIDER,
            model: FIRST_HOP_MODEL,
            chat_model: Some("gpt-5.4"),
            transcripts: true,
            ..RealtimeConnectParams::new("https://pass.tonia.ca:8443")
        },
        None,
    )
    .unwrap();
    assert!(url.starts_with("wss://pass.tonia.ca:8443/v1/realtime?"));
    assert!(url.contains("provider=openai"));
    assert!(url.contains("model=gpt-live-1"));
    assert!(url.contains("mode=cascaded"));
    assert!(url.contains("chat_model=gpt-5.4"));
    assert!(url.contains("transcripts=1"));
}

// Further cases of the library's own.

use tonia_sdk::realtime::{
    audio_append_event, audio_commit_event, decode_handshake, decode_realtime_event,
    delegation_result_event, frame_step, input_text_event, is_terminal_turn, probe_timeout,
    realtime_connect_plan, session_from_created, wait_turn_finish, wait_turn_step, FrameStep,
    SocketFrame, TurnStep,
};
use tonia_sdk::realtime::ws_url_from_parts;
use tonia_sdk::{raise_if_realtime_error, JsonValue, RealtimeConnect, ToniaError};

fn s(text: &str) -> JsonValue {
    JsonValue::Str(text.to_string())
}

fn obj(entries: Vec<(&str, JsonValue)>) -> JsonValue {
    JsonValue::Object(entries.into_iter().map(|(k, v)| (k.to_string(), v)).collect())
}

#[test]
fn ws_url_overrides_and_fallbacks() {
    assert_eq!(
        realtime_ws_url("https://pass.tonia.ca:8443", None, Some("  wss://env.example/x//  ")),
        "wss://env.example/x"
    );
    assert_eq!(
        realtime_ws_url("https://pass.tonia.ca:8443", Some("   "), Some("wss://env.example")),
        "wss://env.example"
    );
    assert_eq!(
        realtime_ws_url("https://pass.tonia.ca:8443/", None, None),
        "wss://pass.tonia.ca:8443/v1/realtime"
    );
    assert_eq!(
        realtime_ws_url("https://example.com", None, None),
        "wss://example.com/v1/realtime"
    );
    assert_eq!(
        realtime_ws_url("not a url", None, None),
        "ws://not a url/v1/realtime"
    );
}

#[test]
fn connect_url_mode_rules() {
    let err = realtime_connect_url(
        RealtimeConnectParams {
            mode: "turbo",
            ..RealtimeConnectParams::new("https://pass.tonia.ca:8443")
        },
        None,
    )
    .unwrap_err();
    assert_eq!(err.code.as_deref(), Some("realtime_mode_invalid"));
    let url = realtime_connect_url(
        RealtimeConnectParams {
            mode: " NATIVE ",
            transcripts: true,
            provider: "  ",
            chat_model: Some("gpt 5"),
            ..RealtimeConnectParams::new("https://pass.tonia.ca:8443")
        },
        None,
    )
    .unwrap();
    assert_eq!(
        url,
        "wss://pass.tonia.ca:8443/v1/realtime?provider=openai&model=gpt-live-1&mode=native&chat_model=gpt+5&transcripts=1"
    );
    let err = realtime_connect_url(
        RealtimeConnectParams {
            transport: Some(" WebRTC "),
            ..RealtimeConnectParams::new("https://pass.tonia.ca:8443")
        },
        None,
    )
    .unwrap_err();
    assert_eq!(err.code.as_deref(), Some("realtime_webrtc_forbidden"));
}

#[test]
fn realtime_error_payloads() {
    let err = raise_if_realtime_error(&obj(vec![
        ("type", s("error")),
        (
            "error",
            obj(vec![("type", s("invalid_request_error")), ("code", s("bad_audio"))]),
        ),
    ]))
    .unwrap_err();
    assert_eq!(err.kind, ErrorKind::InvalidRequest);
    assert_eq!(err.code.as_deref(), Some("bad_audio"));
    assert_eq!(err.status, Some(400));
    raise_if_realtime_error(&JsonValue::Array(vec![])).unwrap();
    raise_if_realtime_error(&obj(vec![("type", s("session.created"))])).unwrap();
}

#[test]
fn session_from_created_defaults() {
    let info = session_from_created(obj(vec![
        ("type", s("session.created")),
        ("session_id", s("s1")),
    ]))
    .unwrap();
    assert_eq!(info.session_id, "s1");
    assert_eq!(info.mode, "");
    assert_eq!(info.model, FIRST_HOP_MODEL);
    assert_eq!(info.reconnect, "new_session");
    let err = session_from_created(obj(vec![("type", s("other")), ("code", s("nope"))])).unwrap_err();
    assert_eq!(err.code.as_deref(), Some("nope"));
    assert!(err.body().is_some());
    let err = session_from_created(obj(vec![("type", s("other"))])).unwrap_err();
    assert_eq!(err.code.as_deref(), Some("realtime_handshake_invalid"));
}

#[test]
fn decoding_frames() {
    let err = decode_realtime_event("[1]").unwrap_err();
    assert_eq!(err.code.as_deref(), Some("realtime_turn_invalid"));
    let err = decode_realtime_event("not json").unwrap_err();
    assert_eq!(err.code.as_deref(), Some("realtime_turn_invalid"));
    let ok = decode_realtime_event("{\"type\":\"output_text.delta\",\"text\":\"hi\"}").unwrap();
    assert_eq!(ok.get("text"), Some(&s("hi")));
    let err = decode_handshake("3").unwrap_err();
    assert_eq!(err.code.as_deref(), Some("realtime_handshake_invalid"));
    assert_eq!(err.body(), Some(&JsonValue::Number("3".to_string())));
    assert!(decode_handshake("{").unwrap_err().body().is_none());
}

#[test]
fn turn_waiting_steps() {
    let done = obj(vec![("type", s("output_text.done"))]);
    let delta = obj(vec![("type", s("output_text.delta"))]);
    assert!(is_terminal_turn(&done));
    assert!(!is_terminal_turn(&delta));
    match wait_turn_step(None, Ok(done.clone())) {
        TurnStep::Done(Ok(v)) => assert_eq!(v, done),
        _ => panic!("terminal event ends the wait"),
    }
    match wait_turn_step(None, Ok(delta.clone())) {
        TurnStep::Wait(Some(v)) => assert_eq!(v, delta),
        _ => panic!("other events keep the wait"),
    }
    match wait_turn_step(Some(delta.clone()), Err(probe_timeout())) {
        TurnStep::Done(Ok(v)) => assert_eq!(v, delta),
        _ => panic!("timeout gives the last event"),
    }
    match wait_turn_step(None, Err(ToniaError::ws_transport("boom"))) {
        TurnStep::Done(Err(e)) => assert_eq!(e.code.as_deref(), Some("transport")),
        _ => panic!("other errors end the wait"),
    }
    assert_eq!(
        wait_turn_finish(None).unwrap_err().code.as_deref(),
        Some("realtime_probe_timeout")
    );
}

#[test]
fn client_events() {
    assert_eq!(
        audio_append_event(b"hi", None),
        obj(vec![
            ("audio", s("aGk=")),
            ("mime", s("audio/wav")),
            ("type", s("input_audio.append")),
        ])
    );
    assert_eq!(
        audio_commit_event(None, Some("audio/ogg")),
        obj(vec![("mime", s("audio/ogg")), ("type", s("input_audio.commit"))])
    );
    assert_eq!(
        audio_commit_event(Some(b"abc".as_slice()), None).get("audio"),
        Some(&s("YWJj"))
    );
    assert_eq!(
        input_text_event("bonjour"),
        obj(vec![("text", s("bonjour")), ("type", s("input_text"))])
    );
    assert_eq!(
        delegation_result_event("d1", "done", None).get("kind"),
        Some(&s("commentary"))
    );
}

#[test]
fn connect_plan_needs_a_key() {
    let opts = RealtimeConnect::default();
    let err = realtime_connect_plan(None, "https://pass.tonia.ca:8443", None, None, &opts).unwrap_err();
    assert_eq!(err.code.as_deref(), Some("missing_bearer"));
    let err = realtime_connect_plan(Some(""), "https://pass.tonia.ca:8443", None, None, &opts).unwrap_err();
    assert_eq!(err.code.as_deref(), Some("missing_bearer"));
    let (url, auth) =
        realtime_connect_plan(Some("k1"), "https://pass.tonia.ca:8443", None, None, &opts).unwrap();
    assert_eq!(
        url,
        "wss://pass.tonia.ca:8443/v1/realtime?provider=openai&model=gpt-live-1&mode=cascaded"
    );
    assert_eq!(auth, "Bearer k1");
}

#[test]
fn socket_frames() {
    match frame_step(SocketFrame::Text("{}".to_string())) {
        FrameStep::Deliver(t) => assert_eq!(t, "{}"),
        other => panic!("{other:?}"),
    }
    match frame_step(SocketFrame::Binary(Some("{\"a\":1}".to_string()))) {
        FrameStep::Deliver(t) => assert_eq!(t, "{\"a\":1}"),
        other => panic!("{other:?}"),
    }
    match frame_step(SocketFrame::Binary(None)) {
        FrameStep::Fail(e) => assert_eq!(e.code.as_deref(), Some("realtime_turn_invalid")),
        other => panic!("{other:?}"),
    }
    match frame_step(SocketFrame::Ping(vec![1, 2])) {
        FrameStep::Pong(p) => assert_eq!(p, vec![1, 2]),
        other => panic!("{other:?}"),
    }
    assert!(matches!(frame_step(SocketFrame::Pong), FrameStep::Skip));
    assert!(matches!(frame_step(SocketFrame::Raw), FrameStep::Skip));
    match frame_step(SocketFrame::Close) {
        FrameStep::Fail(e) => assert_eq!(e.message, "realtime socket closed"),
        other => panic!("{other:?}"),
    }
    match frame_step(SocketFrame::Failed("reset".to_string())) {
        FrameStep::Fail(e) => {
            assert_eq!(e.code.as_deref(), Some("transport"));
            assert_eq!(e.kind, ErrorKind::Tonia);
            assert_eq!(e.retryable, Some(true));
            assert_eq!(e.message, "reset");
        }
        other => panic!("{other:?}"),
    }
}

#[test]
fn ws_url_from_given_parts() {
    assert_eq!(
        ws_url_from_parts("https://h", Some(("https".to_string(), Some("h".to_string()), None))),
        "wss://h/v1/realtime"
    );
    assert_eq!(
        ws_url_from_parts("http://localhost:8444", Some(("http".to_string(), Some("localhost".to_string()), Some(8444)))),
        "ws://localhost:8448/v1/realtime"
    );
    assert_eq!(
        ws_url_from_parts("http://x:9", Some(("http".to_string(), Some("x".to_string()), Some(9)))),
        "ws://x:9/v1/realtime"
    );
    assert_eq!(
        ws_url_from_parts("mailto:a", Some(("mailto".to_string(), None, None))),
        "ws:///v1/realtime"
    );
    assert_eq!(ws_url_from_parts("bad base", None), "ws://bad base/v1/realtime");
}
