use tonia_sdk::{assert_path_allowed, normalize_path, ErrorKind, ESCAPE_HATCH_PREFIXES};

#[test]
fn normalize_path_strips_query_collapses_slashes_and_resolves_dots() {
    assert_eq!(normalize_path("v1/models?x=1"), "/v1/models");
    assert_eq!(
        normalize_path("//v1//chat//completions"),
        "/v1/chat/completions"
    );
    assert_eq!(
        normalize_path("/v1/models/../chat/completions"),
        "/v1/chat/completions"
    );
}

#[test]
fn supported_prefixes_pass() {
    for path in [
        "/v1/models",
        "/v1/chat/completions",
        "/v1/public/catalogue",
        "/v1/status",
        "/v1/interactions",
        "/v1/audio/speech",
        "/v1/audio/transcriptions",
    ] {
        assert_eq!(assert_path_allowed(path).unwrap(), path);
    }
}

#[test]
fn dot_segment_traversal_to_supported_prefix_is_allowed() {
    assert_eq!(
        assert_path_allowed("/v1/models/../chat/completions").unwrap(),
        "/v1/chat/completions"
    );
}

#[test]
fn unsupported_paths_rejected_before_send() {
    for path in [
        "/v1/billing/checkout",
        "/v1/conversations",
        "/v1/conversations/export",
        "/healthz",
        "/v1/models/../billing/checkout",
        "/v1/realtime",
    ] {
        let err = assert_path_allowed(path).unwrap_err();
        assert_eq!(err.kind, ErrorKind::PathNotAllowed);
        assert_eq!(err.error_type, "client_error");
        assert_eq!(err.code.as_deref(), Some("path_not_allowed"));
        assert_eq!(err.retryable, Some(false));
    }
}

// Further cases of the library's own.

#[test]
fn normalize_path_is_idempotent_on_examples() {
    for path in [
        "v1/models?x=1",
        "//v1//chat//completions",
        "/v1/a/./b/../c",
        "/../..",
        "",
        "  /v1/models  ",
        "/v1/models#frag",
    ] {
        let once = normalize_path(path);
        assert_eq!(normalize_path(&once), once, "{path}");
    }
}

#[test]
fn normalize_path_edges() {
    assert_eq!(normalize_path(""), "/");
    assert_eq!(normalize_path("/../.."), "/");
    assert_eq!(normalize_path("/v1/a/./b/../c"), "/v1/a/c");
    assert_eq!(normalize_path("  /v1/models  "), "/v1/models");
    assert_eq!(normalize_path("/v1/models#frag"), "/v1/models");
}

#[test]
fn allowed_path_stays_allowed_after_normalizing() {
    let once = assert_path_allowed("v1//models/../responses?stream=1").unwrap();
    assert_eq!(once, "/v1/responses");
    assert_eq!(assert_path_allowed(&once).unwrap(), once);
}

#[test]
fn prefix_must_end_at_a_segment() {
    assert!(assert_path_allowed("/v1/modelsx").is_err());
    assert!(assert_path_allowed("/v1/models/gpt").is_ok());
    assert_eq!(ESCAPE_HATCH_PREFIXES.len(), 12);
    for prefix in ESCAPE_HATCH_PREFIXES {
        assert_eq!(assert_path_allowed(prefix).unwrap(), normalize_path(prefix));
    }
    assert_eq!(assert_path_allowed("/v1/public/").unwrap(), "/v1/public");
}

#[test]
fn normal_form_shape_on_examples() {
    for path in ["v1//a/./b/../c?x#y", "   ", "/a/b/", "/..", "x"] {
        let n = normalize_path(path);
        assert!(n.starts_with('/'));
        assert!(!n.contains("//") && !n.contains('?') && !n.contains('#'));
        assert!(n == "/" || !n.ends_with('/'));
        assert!(n.split('/').skip(1).all(|seg| seg != "." && seg != ".." && (n == "/" || !seg.is_empty())));
        if !path.contains(char::is_whitespace) {
            assert_eq!(normalize_path(&n), n);
        }
    }
    assert_eq!(normalize_path("   "), "/");
}
