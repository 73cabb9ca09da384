use axum::http::{HeaderName, HeaderValue};

use cambium::config::RopcConfig;
use cambium::proxy::{
    authorization, build_upstream_url, credentials, forward_failure, forward_headers,
    is_forwardable_request_header, is_forwardable_response_header, receive, response_headers,
    unauthorized, Answer, ProxyStep, RopcState,
};
use cambium::ropc::RopcError;

fn headers(pairs: &[(&str, &[u8])]) -> Vec<(String, Vec<u8>)> {
    pairs.iter().map(|p| (p.0.to_string(), p.1.to_vec())).collect()
}

fn config(rutauth_header: &str) -> RopcConfig {
    RopcConfig {
        keycloak_issuer: "https://kc/realms/r".to_string(),
        keycloak_ropc_client_id: "id".to_string(),
        keycloak_ropc_client_secret: "secret".to_string(),
        identity_claim: "preferred_username".to_string(),
        nexus_upstream: "http://127.0.0.1:1".to_string(),
        rutauth_header: rutauth_header.to_string(),
        cache_ttl_seconds: 60,
        listen_addr: "0.0.0.0:8090".to_string(),
    }
}

fn dummy_state() -> RopcState {
    RopcState::new(&config("X-Forwarded-User")).unwrap()
}

#[test]
fn authorization_and_hop_by_hop_headers_are_not_forwardable() {
    assert!(!is_forwardable_request_header(axum::http::header::AUTHORIZATION.as_str()));
    assert!(!is_forwardable_request_header(axum::http::header::HOST.as_str()));
    assert!(!is_forwardable_request_header(HeaderName::from_static("connection").as_str()));
    assert!(!is_forwardable_request_header(HeaderName::from_static("transfer-encoding").as_str()));
}

#[test]
fn every_hop_by_hop_header_stays_in_both_directions() {
    for name in [
        "Connection",
        "keep-alive",
        "Proxy-Authenticate",
        "proxy-authorization",
        "TE",
        "trailers",
        "transfer-encoding",
        "Upgrade",
    ] {
        assert!(!is_forwardable_request_header(name), "{name}");
        assert!(!is_forwardable_response_header(name), "{name}");
    }
    assert!(is_forwardable_response_header("host"));
    assert!(is_forwardable_response_header("authorization"));
    assert!(is_forwardable_response_header("content-length"));
}

#[test]
fn ordinary_headers_are_forwardable() {
    assert!(is_forwardable_request_header(axum::http::header::CONTENT_TYPE.as_str()));
    assert!(is_forwardable_request_header(HeaderName::from_static("x-custom-header").as_str()));
}

#[test]
fn build_upstream_url_preserves_path_and_query() {
    let uri: axum::http::Uri = "/repository/npm-hosted/some-pkg?foo=bar".parse().unwrap();
    let url = build_upstream_url("http://nexus:8081/", uri.path_and_query().map(|pq| pq.as_str()));
    assert_eq!(url, "http://nexus:8081/repository/npm-hosted/some-pkg?foo=bar");
}

#[test]
fn a_request_without_a_path_goes_to_the_root() {
    assert_eq!(build_upstream_url("http://nexus:8081//", None), "http://nexus:8081/");
    assert_eq!(build_upstream_url("http://nexus", Some("//evil/x")), "http://nexus//evil/x");
}

#[test]
fn header_unsafe_identity_claim_is_rejected_not_forwarded_with_empty_header() {
    let state = dummy_state();
    let identity_with_raw_newline = "alice\ninjected-header: evil";

    let result = state.prepare(
        identity_with_raw_newline,
        Some("/repository/npm-hosted/some-pkg"),
        &headers(&[]),
    );

    match result {
        Err(RopcError::IdentityNotHeaderSafe(bad)) => {
            assert_eq!(bad, identity_with_raw_newline);
        }
        other => panic!("expected IdentityNotHeaderSafe, got {other:?}"),
    }
}

#[test]
fn header_unsafe_identity_claim_with_control_character_is_rejected() {
    let state = dummy_state();
    let identity_with_control_char = "alice\u{0007}bell";

    let result = state.prepare(
        identity_with_control_char,
        Some("/repository/npm-hosted/some-pkg"),
        &headers(&[]),
    );

    assert!(
        matches!(result, Err(RopcError::IdentityNotHeaderSafe(_))),
        "expected rejection for a control-character identity claim, got {result:?}"
    );
}

#[test]
fn ordinary_identity_claim_is_still_accepted() {
    assert!(HeaderValue::from_str("alice").is_ok());
    assert!(HeaderValue::from_str("alice@example.com").is_ok());
    for identity in ["alice", "alice@example.com", "j\u{fc}rgen", "a\tb", ""] {
        assert!(forward_headers(&headers(&[]), "x-user", identity).is_ok(), "{identity:?}");
    }
    assert!(forward_headers(&headers(&[]), "x-user", "a\u{7f}").is_err());
}

#[test]
fn a_spoofed_identity_is_dropped_and_the_rest_goes_through() {
    let sent = headers(&[
        ("accept", b"a"),
        ("X-Forwarded-USER", b"mallory"),
        ("authorization", b"Basic eA=="),
        ("x-forwarded-user", b"mallory2"),
        ("accept", b"b\xff"),
        ("host", b"h"),
    ]);
    let (url, shown) = dummy_state().prepare("alice", Some("/p"), &sent).unwrap();
    assert_eq!(url, "http://127.0.0.1:1/p");
    assert_eq!(
        shown,
        headers(&[("accept", b"a"), ("accept", b"b\xff"), ("x-forwarded-user", b"alice")])
    );
}

#[test]
fn responses_lose_the_headers_of_the_connection() {
    let sent = headers(&[
        ("content-length", b"3"),
        ("Connection", b"close"),
        ("set-cookie", b"a"),
        ("set-cookie", b"b"),
        ("transfer-encoding", b"chunked"),
    ]);
    assert_eq!(
        response_headers(&sent),
        headers(&[("content-length", b"3"), ("set-cookie", b"a"), ("set-cookie", b"b")])
    );
}

#[test]
fn the_first_authorization_header_counts() {
    let sent = headers(&[("x", b"y"), ("Authorization", b"first"), ("authorization", b"second")]);
    assert_eq!(authorization(&sent).as_deref(), Some("first"));
    assert_eq!(authorization(&headers(&[("x", b"y")])), None);
    assert_eq!(authorization(&headers(&[("authorization", b"caf\xc3\xa9")])), None);
    assert_eq!(authorization(&headers(&[("authorization", b"a\tb c")])).as_deref(), Some("a\tb c"));
    let two = headers(&[("authorization", b"\xff"), ("authorization", b"Basic YTpi")]);
    assert_eq!(authorization(&two), None);
    assert_eq!(credentials(&two), None);
}

fn challenge() -> Answer {
    Answer {
        status: 401,
        www_authenticate: Some("Basic realm=\"Nexus\"".to_string()),
        body: String::new(),
    }
}

#[test]
fn every_rejection_is_the_same_challenge() {
    assert_eq!(unauthorized(), challenge());
    for bare in [
        headers(&[]),
        headers(&[("authorization", b"Bearer x")]),
        headers(&[("authorization", b"Basic !!!")]),
        headers(&[("authorization", b"\xff")]),
    ] {
        assert!(matches!(receive(&bare), ProxyStep::Answer(a) if a == challenge()));
    }
    for error in [
        RopcError::InvalidCredentials,
        RopcError::KeycloakUpstream("down".to_string()),
        RopcError::ClaimMissing("c".to_string()),
        RopcError::TokenDecodeError,
    ] {
        let step = dummy_state().dispatch(Err(error), Some("/p"), &headers(&[]));
        assert!(matches!(step, ProxyStep::Answer(a) if a == challenge()));
    }
}

#[test]
fn well_formed_credentials_are_checked() {
    // "alice:s3cret"
    let sent = headers(&[("authorization", b"Basic YWxpY2U6czNjcmV0")]);
    match receive(&sent) {
        ProxyStep::Authenticate { username, password } => {
            assert_eq!(username, "alice");
            assert_eq!(password, "s3cret");
        }
        other => panic!("expected a check, got {other:?}"),
    }
}

#[test]
fn an_identified_client_is_forwarded() {
    let sent = headers(&[("accept", b"*/*")]);
    match dummy_state().dispatch(Ok("alice".to_string()), None, &sent) {
        ProxyStep::Forward { url, headers: shown } => {
            assert_eq!(url, "http://127.0.0.1:1/");
            assert_eq!(shown, headers(&[("accept", b"*/*"), ("x-forwarded-user", b"alice")]));
        }
        other => panic!("expected a request to Nexus, got {other:?}"),
    }
}

#[test]
fn failures_to_forward_are_told_apart() {
    let step = dummy_state().dispatch(Ok("a\nb".to_string()), None, &headers(&[]));
    let rejected = Answer {
        status: 500,
        www_authenticate: None,
        body: "identity claim could not be forwarded".to_string(),
    };
    assert!(matches!(step, ProxyStep::Answer(a) if a == rejected));
    assert_eq!(
        forward_failure(&RopcError::UpstreamRequest("refused".to_string())),
        Answer { status: 502, www_authenticate: None, body: "upstream request failed".to_string() }
    );
}

#[test]
fn the_identity_header_must_be_a_header_name() {
    let state = dummy_state();
    assert_eq!(state.rutauth_header, "x-forwarded-user");
    assert_eq!(state.identity_claim, "preferred_username");
    assert_eq!(state.nexus_upstream, "http://127.0.0.1:1");
    for bad in ["", "a b", "a:", "\u{e9}"] {
        let message = RopcState::new(&config(bad)).unwrap_err();
        assert_eq!(message, format!("invalid RUTAUTH_HEADER {bad:?}: invalid HTTP header name"));
    }
    assert!(RopcState::new(&config("a!#$%&'*+-.^_`|~9")).is_ok());
}
