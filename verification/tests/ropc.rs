use std::cell::Cell;

use cambium::ropc::{
    extract_identity_claim, judge_token_reply, jwt_payload, parse_basic_auth, pick_claim,
    read_credentials, read_token_reply, KeycloakTokenExchanger, RopcError, TokenExchanger,
    TokenResponse,
};
use cambium::token_cache::{
    authenticate, begin_authentication, cache_key, AuthStep, Clock, FakeClock, SystemClock,
    TokenCache,
};

fn basic(credentials: &[u8]) -> String {
    let encoded =
        base64::Engine::encode(&base64::engine::general_purpose::STANDARD, credentials);
    format!("Basic {encoded}")
}

#[test]
fn parses_valid_basic_auth() {
    let encoded = base64::Engine::encode(&base64::engine::general_purpose::STANDARD, b"alice:s3cret");
    let header = format!("Basic {encoded}");
    let (user, pass) = parse_basic_auth(&header).expect("should parse");
    assert_eq!(user, "alice");
    assert_eq!(pass, "s3cret");
}

#[test]
fn password_containing_colon_is_preserved_in_full() {
    let encoded = base64::Engine::encode(&base64::engine::general_purpose::STANDARD, b"alice:pass:with:colons");
    let header = format!("Basic {encoded}");
    let (user, pass) = parse_basic_auth(&header).expect("should parse");
    assert_eq!(user, "alice");
    assert_eq!(pass, "pass:with:colons");
}

#[test]
fn rejects_missing_basic_prefix() {
    let encoded = base64::Engine::encode(&base64::engine::general_purpose::STANDARD, b"alice:s3cret");
    assert!(parse_basic_auth(&encoded).is_none());
}

#[test]
fn rejects_bearer_scheme() {
    assert!(parse_basic_auth("Bearer sometoken").is_none());
}

#[test]
fn rejects_malformed_base64() {
    assert!(parse_basic_auth("Basic not-valid-base64!!!").is_none());
}

#[test]
fn rejects_missing_colon() {
    let encoded = base64::Engine::encode(&base64::engine::general_purpose::STANDARD, b"no-colon-here");
    let header = format!("Basic {encoded}");
    assert!(parse_basic_auth(&header).is_none());
}

#[test]
fn rejects_empty_username() {
    let encoded = base64::Engine::encode(&base64::engine::general_purpose::STANDARD, b":somepassword");
    let header = format!("Basic {encoded}");
    assert!(parse_basic_auth(&header).is_none());
}

#[test]
fn empty_password_is_allowed_by_the_parser() {
    let encoded = base64::Engine::encode(&base64::engine::general_purpose::STANDARD, b"alice:");
    let header = format!("Basic {encoded}");
    let (user, pass) = parse_basic_auth(&header).expect("should parse");
    assert_eq!(user, "alice");
    assert_eq!(pass, "");
}

#[test]
fn white_space_around_the_credentials_is_ignored() {
    let header = basic(b"alice:pw").replace("Basic ", "Basic \t ") + "  ";
    assert_eq!(parse_basic_auth(&header), Some(("alice".to_string(), "pw".to_string())));
    assert!(parse_basic_auth(&basic(b"alice:pw").replace("Basic", "basic")).is_none());
}

#[test]
fn credentials_must_be_text() {
    assert!(parse_basic_auth(&basic(b"ali\xffce:pw")).is_none());
    assert!(read_credentials(vec![0xc3, 0x28, b':', b'x']).is_none());
    let (user, pass) = read_credentials("j\u{fc}rgen:p\u{e4}ss".as_bytes().to_vec()).unwrap();
    assert_eq!(user, "j\u{fc}rgen");
    assert_eq!(pass, "p\u{e4}ss");
}

fn fake_jwt(claims: &[(&str, serde_json::Value)]) -> String {
    let mut object = serde_json::Map::new();
    for (name, value) in claims {
        object.insert(name.to_string(), value.clone());
    }
    let header = base64::Engine::encode(&base64::engine::general_purpose::URL_SAFE_NO_PAD, b"{\"alg\":\"none\"}");
    let payload = base64::Engine::encode(
        &base64::engine::general_purpose::URL_SAFE_NO_PAD,
        serde_json::to_vec(&serde_json::Value::Object(object)).unwrap(),
    );
    format!("{header}.{payload}.fakesig")
}

fn text(value: &str) -> serde_json::Value {
    serde_json::Value::String(value.to_string())
}

#[test]
fn extracts_claim_from_id_token_when_present() {
    let id_token = fake_jwt(&[("preferred_username", text("alice"))]);
    let token = TokenResponse {
        access_token: "irrelevant".to_string(),
        id_token: Some(id_token),
    };
    let claim = extract_identity_claim(&token, "preferred_username").unwrap();
    assert_eq!(claim, "alice");
}

#[test]
fn falls_back_to_access_token_when_no_id_token() {
    let access_token = fake_jwt(&[("preferred_username", text("bob"))]);
    let token = TokenResponse {
        access_token,
        id_token: None,
    };
    let claim = extract_identity_claim(&token, "preferred_username").unwrap();
    assert_eq!(claim, "bob");
}

#[test]
fn missing_claim_is_an_error() {
    let id_token = fake_jwt(&[("sub", text("abc-123"))]);
    let token = TokenResponse {
        access_token: "irrelevant".to_string(),
        id_token: Some(id_token),
    };
    let err = extract_identity_claim(&token, "preferred_username").unwrap_err();
    assert!(matches!(err, RopcError::ClaimMissing(c) if c == "preferred_username"));
}

#[test]
fn operator_configurable_claim_name_is_respected() {
    let id_token = fake_jwt(&[
        ("email", text("alice@example.com")),
        ("preferred_username", text("alice")),
    ]);
    let token = TokenResponse {
        access_token: "irrelevant".to_string(),
        id_token: Some(id_token),
    };
    let claim = extract_identity_claim(&token, "email").unwrap();
    assert_eq!(claim, "alice@example.com");
}

#[test]
fn malformed_jwt_is_a_decode_error() {
    let token = TokenResponse {
        access_token: "not-a-jwt".to_string(),
        id_token: None,
    };
    let err = extract_identity_claim(&token, "preferred_username").unwrap_err();
    assert!(matches!(err, RopcError::TokenDecodeError));
}

#[test]
fn a_malformed_id_token_is_not_made_up_for_by_the_access_token() {
    let token = TokenResponse {
        access_token: fake_jwt(&[("preferred_username", text("bob"))]),
        id_token: Some("x.!!.y".to_string()),
    };
    let err = extract_identity_claim(&token, "preferred_username").unwrap_err();
    assert_eq!(err, RopcError::TokenDecodeError);
}

#[test]
fn a_claim_that_is_no_text_is_missing() {
    let token = TokenResponse {
        access_token: fake_jwt(&[("n", serde_json::Value::from(7))]),
        id_token: None,
    };
    let err = extract_identity_claim(&token, "n").unwrap_err();
    assert_eq!(err, RopcError::ClaimMissing("n".to_string()));
}

#[test]
fn claims_that_are_no_object_hold_no_claim() {
    let payload =
        base64::Engine::encode(&base64::engine::general_purpose::URL_SAFE_NO_PAD, b"[\"n\"]");
    let token = TokenResponse { access_token: format!("h.{payload}"), id_token: None };
    assert_eq!(
        extract_identity_claim(&token, "n").unwrap_err(),
        RopcError::ClaimMissing("n".to_string())
    );
    assert_eq!(pick_claim(Some(None), "n"), Err(RopcError::ClaimMissing("n".to_string())));
    assert_eq!(pick_claim(None, "n"), Err(RopcError::TokenDecodeError));
    let members = vec![("m".to_string(), None), ("n".to_string(), Some("v".to_string()))];
    assert_eq!(pick_claim(Some(Some(members)), "n"), Ok("v".to_string()));
}

#[test]
fn the_payload_is_the_second_part() {
    assert_eq!(jwt_payload("a"), None);
    assert_eq!(jwt_payload("a.b").as_deref(), Some("b"));
    assert_eq!(jwt_payload("a.b.c.d").as_deref(), Some("b"));
    assert_eq!(jwt_payload("..").as_deref(), Some(""));
}

struct CountingExchanger {
    calls: Cell<usize>,
    result: TokenResponse,
    should_fail: bool,
}

impl TokenExchanger for CountingExchanger {
    fn exchange(&self, _username: &str, _password: &str) -> Result<TokenResponse, RopcError> {
        self.calls.set(self.calls.get() + 1);
        if self.should_fail {
            Err(RopcError::InvalidCredentials)
        } else {
            Ok(self.result.clone())
        }
    }
}

fn make_exchanger(username_claim: &str) -> CountingExchanger {
    let id_token = fake_jwt(&[("preferred_username", text(username_claim))]);
    CountingExchanger {
        calls: Cell::new(0),
        result: TokenResponse {
            access_token: "irrelevant".to_string(),
            id_token: Some(id_token),
        },
        should_fail: false,
    }
}

#[test]
fn repeated_credentials_within_ttl_hit_the_cache_not_keycloak() {
    let exchanger = make_exchanger("alice");
    let clock = FakeClock::new();
    let mut cache = TokenCache::new(60, clock.clone());

    let first = authenticate("alice", "pw", &exchanger, &mut cache, "preferred_username").unwrap();
    assert_eq!(first, "alice");
    assert_eq!(exchanger.calls.get(), 1);

    let second = authenticate("alice", "pw", &exchanger, &mut cache, "preferred_username").unwrap();
    assert_eq!(second, "alice");
    assert_eq!(exchanger.calls.get(), 1, "second call within TTL must be served from cache");
}

#[test]
fn cache_expires_after_ttl_and_re_exchanges() {
    let exchanger = make_exchanger("alice");
    let mut clock = FakeClock::new();
    let mut cache = TokenCache::new(60, clock.clone());

    authenticate("alice", "pw", &exchanger, &mut cache, "preferred_username").unwrap();
    assert_eq!(exchanger.calls.get(), 1);

    clock.advance(61);
    cache.set_clock(clock);

    authenticate("alice", "pw", &exchanger, &mut cache, "preferred_username").unwrap();
    assert_eq!(exchanger.calls.get(), 2, "past TTL must re-exchange with Keycloak");
}

#[test]
fn the_last_moment_of_the_ttl_is_already_too_late() {
    let mut cache = TokenCache::new(60, FakeClock::new());
    cache.put_at("alice", "pw", "id", 7);
    assert_eq!(cache.get_at("alice", "pw", 7 + 59_999_999_999).as_deref(), Some("id"));
    assert_eq!(cache.get_at("alice", "pw", 7 + 60_000_000_000), None);
    cache.put_at("alice", "pw", "id2", 60_000_000_007);
    assert_eq!(cache.get_at("alice", "pw", 60_000_000_007).as_deref(), Some("id2"));
}

#[test]
fn an_endless_ttl_does_not_overflow() {
    let mut cache = TokenCache::new(u64::MAX, FakeClock::new());
    cache.put_at("alice", "pw", "id", u64::MAX);
    assert_eq!(cache.get_at("alice", "pw", u64::MAX).as_deref(), Some("id"));
}

#[test]
fn different_passwords_for_the_same_username_are_different_cache_keys() {
    let exchanger = make_exchanger("alice");
    let clock = FakeClock::new();
    let mut cache = TokenCache::new(60, clock.clone());

    authenticate("alice", "pw1", &exchanger, &mut cache, "preferred_username").unwrap();
    authenticate("alice", "pw2", &exchanger, &mut cache, "preferred_username").unwrap();
    assert_eq!(exchanger.calls.get(), 2, "different passwords must not share a cache entry");
}

#[test]
fn failed_exchange_is_never_cached() {
    let exchanger = CountingExchanger {
        calls: Cell::new(0),
        result: TokenResponse { access_token: String::new(), id_token: None },
        should_fail: true,
    };
    let clock = FakeClock::new();
    let mut cache = TokenCache::new(60, clock);

    let first = authenticate("alice", "wrongpw", &exchanger, &mut cache, "preferred_username");
    assert!(first.is_err());
    let second = authenticate("alice", "wrongpw", &exchanger, &mut cache, "preferred_username");
    assert!(second.is_err());
    assert_eq!(exchanger.calls.get(), 2, "a failed exchange must never be cached — every attempt re-checks Keycloak");
}

#[test]
fn a_token_without_the_claim_is_never_cached() {
    let exchanger = make_exchanger("alice");
    let mut cache = TokenCache::new(60, FakeClock::new());
    for _ in 0..2 {
        let outcome = authenticate("alice", "pw", &exchanger, &mut cache, "email");
        assert_eq!(outcome, Err(RopcError::ClaimMissing("email".to_string())));
    }
    assert_eq!(exchanger.calls.get(), 2);
}

#[test]
fn the_system_clock_never_goes_back() {
    let clock = SystemClock::new();
    let first = clock.now();
    let second = clock.now();
    assert!(first <= second);
    let mut cache = TokenCache::new(60, clock);
    cache.put("alice", "pw", "id");
    assert_eq!(cache.get("alice", "pw").as_deref(), Some("id"));
    assert_eq!(cache.get("alice", "other"), None);
}

#[test]
fn cache_key_differs_for_different_username_password_boundary_split() {
    let k1 = cache_key("ab", "c");
    let k2 = cache_key("a", "bc");
    assert_ne!(k1, k2);
}

#[test]
fn cache_key_never_contains_plaintext_credentials() {
    let key = cache_key("alice", "supersecretpassword");
    assert!(!key.contains("alice"));
    assert!(!key.contains("supersecretpassword"));
    assert_eq!(key.len(), 64);
}

#[test]
fn cache_key_is_the_digest_of_the_separated_credentials() {
    assert_eq!(
        cache_key("", ""),
        "6e340b9cffb37a989ca544e6bb780a2c78901d3fb33738768511a30617afa01d"
    );
}

#[test]
fn the_token_request_is_the_password_grant() {
    let exchanger = KeycloakTokenExchanger::new(
        "https://kc/realms/r//".to_string(),
        "id".to_string(),
        "secret".to_string(),
    );
    assert_eq!(exchanger.token_url(), "https://kc/realms/r/protocol/openid-connect/token");
    let form = exchanger.token_form("alice", "pw");
    let form: Vec<(&str, &str)> = form.iter().map(|f| (f.0.as_str(), f.1.as_str())).collect();
    assert_eq!(
        form,
        vec![
            ("grant_type", "password"),
            ("client_id", "id"),
            ("client_secret", "secret"),
            ("username", "alice"),
            ("password", "pw"),
            ("scope", "openid"),
        ]
    );
}

#[test]
fn only_a_plain_success_is_a_token() {
    let token = || Some(TokenResponse { access_token: "t".to_string(), id_token: None });
    assert_eq!(read_token_reply(200, "{\"access_token\":\"t\"}", token()).unwrap().access_token, "t");
    for status in [201, 204, 302, 400, 401, 500] {
        let err = read_token_reply(status, "{}", token()).unwrap_err();
        assert_eq!(err, RopcError::InvalidCredentials, "{status}");
    }
    let err = read_token_reply(200, "{\"error\":null}", token()).unwrap_err();
    assert_eq!(err, RopcError::InvalidCredentials);
    let err = read_token_reply(200, "no json", None).unwrap_err();
    assert_eq!(err, RopcError::TokenDecodeError);
    let err = read_token_reply(200, "[\"error\"]", None).unwrap_err();
    assert_eq!(err, RopcError::TokenDecodeError);
    let err = judge_token_reply(200, Some(Some(vec![("error".to_string(), None)])), token());
    assert_eq!(err.unwrap_err(), RopcError::InvalidCredentials);
}

#[test]
fn messages_name_what_went_wrong() {
    assert_eq!(RopcError::InvalidCredentials.message(), "invalid credentials");
    assert_eq!(
        RopcError::KeycloakUpstream("x".to_string()).message(),
        "upstream Keycloak error: x"
    );
    assert_eq!(
        RopcError::ClaimMissing("a\"b".to_string()).message(),
        "token response did not contain claim \"a\\\"b\""
    );
    assert_eq!(RopcError::TokenDecodeError.message(), "failed to decode token");
    assert_eq!(
        RopcError::UpstreamRequest("x".to_string()).message(),
        "upstream Nexus request failed: x"
    );
    assert_eq!(
        RopcError::IdentityNotHeaderSafe("a\nb".to_string()).message(),
        "identity claim value is not a valid HTTP header value: \"a\\nb\""
    );
}

#[test]
fn keycloak_is_asked_exactly_where_the_cache_does_not_know() {
    let mut cache = TokenCache::new(60, FakeClock::new());
    assert!(matches!(begin_authentication("alice", "pw", &cache), AuthStep::Exchange));
    cache.put("alice", "pw", "id");
    assert!(matches!(begin_authentication("alice", "pw", &cache), AuthStep::Known(i) if i == "id"));
    assert!(matches!(begin_authentication("alice", "other", &cache), AuthStep::Exchange));
}
