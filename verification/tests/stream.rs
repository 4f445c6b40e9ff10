use tonia_sdk::client::{stream_chunk, stream_flush};
use tonia_sdk::stream::split_sse_frames;
use tonia_sdk::{feed_sse, limits_from_headers, raise_if_stream_carrier, ErrorKind, JsonValue};

fn s(text: &str) -> JsonValue {
    JsonValue::Str(text.to_string())
}

fn num(text: &str) -> JsonValue {
    JsonValue::Number(text.to_string())
}

fn obj(entries: Vec<(&str, JsonValue)>) -> JsonValue {
    JsonValue::Object(entries.into_iter().map(|(k, v)| (k.to_string(), v)).collect())
}

#[test]
fn feed_sse_parses_and_keeps_remainder() {
    let (events, rest) = feed_sse("", "data: {\"a\":1}\n\ndata: {\"b\"");
    assert_eq!(events.len(), 1);
    assert_eq!(events[0].json, Some(obj(vec![("a", num("1"))])));
    assert_eq!(rest, "data: {\"b\"");
}

#[test]
fn feed_sse_yields_done() {
    let (events, rest) = feed_sse("", "data: [DONE]\n\n");
    assert_eq!(events.len(), 1);
    assert_eq!(events[0].data, "[DONE]");
    assert_eq!(events[0].json, None);
    assert_eq!(rest, "");
}

#[test]
fn feed_sse_splits_crlf_frames() {
    let (events, rest) = feed_sse("", "data: {\"a\":1}\r\n\r\ndata: {\"b\":2}\r\n\r\n");
    assert_eq!(events.len(), 2);
    assert_eq!(events[0].json, Some(obj(vec![("a", num("1"))])));
    assert_eq!(events[1].json, Some(obj(vec![("b", num("2"))])));
    assert_eq!(rest, "");
}

#[test]
fn stream_carrier_nested_anthropic_message_start() {
    let err = raise_if_stream_carrier(&obj(vec![
        ("type", s("message_start")),
        (
            "message",
            obj(vec![(
                "_tonia_policy_block",
                obj(vec![("code", s("regulated_content_detected"))]),
            )]),
        ),
    ]))
    .unwrap_err();
    assert_eq!(err.kind, ErrorKind::PolicyBlock);
}

#[test]
fn stream_carrier() {
    let policy = raise_if_stream_carrier(&obj(vec![(
        "_tonia_policy_block",
        obj(vec![("code", s("regulated_content_detected"))]),
    )]))
    .unwrap_err();
    assert_eq!(policy.kind, ErrorKind::PolicyBlock);

    let entitlement = raise_if_stream_carrier(&obj(vec![(
        "_tonia_entitlement_block",
        obj(vec![("code", s("managed_budget_exhausted"))]),
    )]))
    .unwrap_err();
    assert_eq!(entitlement.kind, ErrorKind::Entitlement);
}

#[test]
fn limits_from_headers_reads_seven_keys() {
    let limits = limits_from_headers(&[
        (
            "x-tonia-limit-warning".to_string(),
            "usage_limit_80_percent".to_string(),
        ),
        ("x-tonia-limit-remaining".to_string(), "17".to_string()),
    ])
    .expect("limits");
    assert_eq!(limits.warning.as_deref(), Some("usage_limit_80_percent"));
    assert_eq!(limits.remaining.as_deref(), Some("17"));
}

// Further cases of the library's own.

#[test]
fn feeding_in_pieces_matches_feeding_at_once() {
    let whole = "event: delta\r\ndata: {\"x\":[1,2]}\r\n\r\n: comment\n\ndata: one\ndata: two\n\ndata: tail";
    let (all_events, all_rest) = feed_sse("", whole);
    for cut in 0..=whole.len() {
        let (a, b) = whole.split_at(cut);
        let (e1, r1) = feed_sse("", a);
        let (e2, r2) = feed_sse(&r1, b);
        let mut joined = e1.clone();
        joined.extend(e2);
        assert_eq!(joined, all_events, "cut at {cut}");
        assert_eq!(r2, all_rest, "cut at {cut}");
    }
    assert_eq!(all_events.len(), 2);
    assert_eq!(all_events[0].event.as_deref(), Some("delta"));
    assert_eq!(all_events[1].data, "one\ntwo");
    assert_eq!(all_events[1].json, None);
    assert_eq!(all_rest, "data: tail");
}

#[test]
fn blank_and_comment_frames_make_no_event() {
    let (events, rest) = feed_sse("", "\n\n: keep-alive\n\nevent: ping\n\n");
    assert!(events.is_empty());
    assert_eq!(rest, "");
}

#[test]
fn invalid_json_data_keeps_text_without_json() {
    let (events, _) = feed_sse("data: {not json", "\n\n");
    assert_eq!(events.len(), 1);
    assert_eq!(events[0].data, "{not json");
    assert_eq!(events[0].raw, "data: {not json");
    assert_eq!(events[0].json, None);
}

#[test]
fn frames_split_at_blank_lines() {
    let chars: Vec<char> = "a\n\nb\r\n\r\nc".chars().collect();
    let frames: Vec<String> = split_sse_frames(&chars)
        .into_iter()
        .map(|f| f.into_iter().collect())
        .collect();
    assert_eq!(frames, vec!["a", "b", "c"]);
}

#[test]
fn stream_chunk_stops_at_first_block() {
    let err = stream_chunk(
        "",
        "data: {\"ok\":true}\n\ndata: {\"_tonia_agent_block\":{\"code\":\"x\"}}\n\n",
    )
    .unwrap_err();
    assert_eq!(err.kind, ErrorKind::AgentBlock);
    assert_eq!(err.code.as_deref(), Some("x"));

    let (events, rest) = stream_chunk("", "data: {\"ok\":true}\n\ndata: par").unwrap();
    assert_eq!(events.len(), 1);
    assert_eq!(rest, "data: par");
}

#[test]
fn stream_flush_closes_the_remainder() {
    let events = stream_flush("data: {\"last\":1}").unwrap();
    assert_eq!(events.len(), 1);
    assert_eq!(events[0].json, Some(obj(vec![("last", num("1"))])));
    assert!(stream_flush("  \n ").unwrap().is_empty());
    let err = stream_flush("data: {\"_tonia_policy_block\":{\"code\":\"p\"}}").unwrap_err();
    assert_eq!(err.kind, ErrorKind::PolicyBlock);
}

#[test]
fn limits_need_a_header_that_is_set() {
    assert!(limits_from_headers(&[]).is_none());
    assert!(limits_from_headers(&[("content-type".to_string(), "x".to_string())]).is_none());
    assert!(limits_from_headers(&[("x-tonia-limit-used".to_string(), String::new())]).is_none());
    let l = limits_from_headers(&[("X-Tonia-Limit-Period-Ends-At".to_string(), "2026-01-01".to_string())])
        .unwrap();
    assert_eq!(l.period_ends_at.as_deref(), Some("2026-01-01"));
    assert_eq!(l.warning, None);
}

#[test]
fn frames_and_blank_lines_rebuild_the_text() {
    let text = "a\n\nb\r\n\r\n";
    let chars: Vec<char> = text.chars().collect();
    let frames: Vec<String> = split_sse_frames(&chars)
        .into_iter()
        .map(|f| f.into_iter().collect())
        .collect();
    assert_eq!(frames, vec!["a", "b", ""]);
    let rebuilt = format!("{}\n\n{}\r\n\r\n{}", frames[0], frames[1], frames[2]);
    assert_eq!(rebuilt, text);
    for f in &frames {
        assert!(!f.contains("\n\n") && !f.contains("\r\n\r\n"));
    }
}
