use cambium::config::{
    check_upstream_url, parse_allow_insecure, parse_reserved_usernames, parse_role_map,
    validate_upstream_url, Config, ConfigError, RopcConfig, DEFAULT_RESERVED_USERNAMES,
};
use cambium::error::CambiumError;
use cambium::string_map::StringMap;

fn env(pairs: &[(&str, &str)]) -> StringMap<String> {
    let mut map = StringMap::new();
    for (key, value) in pairs {
        map.insert(key.to_string(), value.to_string());
    }
    map
}

const SYNC_ENV: &[(&str, &str)] = &[
    ("ROLE_MAP", "kc-dev:nx-dev"),
    ("KEYCLOAK_URL", "https://kc.example.com"),
    ("KEYCLOAK_REALM", "myrealm"),
    ("KEYCLOAK_CLIENT_ID", "cambium"),
    ("KEYCLOAK_CLIENT_SECRET", "s1"),
    ("NEXUS_URL", "https://nexus.example.com/"),
    ("NEXUS_USERNAME", "svc"),
    ("NEXUS_PASSWORD", "s2"),
];

const ROPC_ENV: &[(&str, &str)] = &[
    ("KEYCLOAK_ISSUER", "https://kc.example.com/realms/myrealm"),
    ("KEYCLOAK_ROPC_CLIENT_ID", "ropc"),
    ("KEYCLOAK_ROPC_CLIENT_SECRET", "s1"),
    ("NEXUS_UPSTREAM", "https://nexus.example.com"),
    ("RUTAUTH_HEADER", "X-Forwarded-User"),
];

fn without<'a>(pairs: &[(&'a str, &'a str)], key: &str) -> Vec<(&'a str, &'a str)> {
    pairs.iter().filter(|p| p.0 != key).cloned().collect()
}

fn with<'a>(pairs: &[(&'a str, &'a str)], key: &'a str, value: &'a str) -> Vec<(&'a str, &'a str)> {
    let mut all = without(pairs, key);
    all.push((key, value));
    all
}

#[test]
fn parses_multiple_entries() {
    let map = parse_role_map("kc-dev:nx-developer, kc-admin:nx-admin").unwrap();
    assert_eq!(map.get("kc-dev"), Some(&"nx-developer".to_string()));
    assert_eq!(map.get("kc-admin"), Some(&"nx-admin".to_string()));
    assert_eq!(map.len(), 2);
}

#[test]
fn ignores_trailing_comma() {
    let map = parse_role_map("kc-dev:nx-developer,").unwrap();
    assert_eq!(map.len(), 1);
}

#[test]
fn rejects_malformed_entry() {
    assert!(parse_role_map("not-a-valid-entry").is_err());
}

#[test]
fn the_first_malformed_entry_is_named() {
    let err = parse_role_map("a:b, :x , y:").unwrap_err();
    assert_eq!(err, CambiumError::InvalidRoleMapEntry(":x".to_string()));
    assert_eq!(
        err.message(),
        "invalid ROLE_MAP entry \":x\" (expected \"keycloak-group:nexus-role\")"
    );
}

#[test]
fn role_map_splits_at_the_first_colon_and_the_later_entry_wins() {
    let map = parse_role_map("a : b:c ,a:d,,\u{a0}e:f\t").unwrap();
    assert_eq!(map.get("a"), Some(&"d".to_string()));
    assert_eq!(map.get("e"), Some(&"f".to_string()));
    assert_eq!(map.len(), 2);
    let map = parse_role_map("a : b:c").unwrap();
    assert_eq!(map.get("a"), Some(&"b:c".to_string()));
    assert!(parse_role_map("").unwrap().is_empty());
}

#[test]
fn https_upstream_is_accepted() {
    assert!(validate_upstream_url("NEXUS_URL", "https://nexus.example.com", false).is_ok());
    assert!(validate_upstream_url(
        "KEYCLOAK_ISSUER",
        "https://kc.example.com/realms/myrealm",
        false
    )
    .is_ok());
}

#[test]
fn plaintext_upstream_is_rejected_by_default() {
    let err = validate_upstream_url("NEXUS_UPSTREAM", "http://nexus:8081", false)
        .expect_err("plaintext must not be accepted without the opt-in");
    let msg = err.message();
    assert!(msg.contains("NEXUS_UPSTREAM"), "names the var: {msg}");
    assert!(msg.contains("ALLOW_INSECURE_HTTP"), "names the escape hatch: {msg}");
}

#[test]
fn plaintext_upstream_is_accepted_with_the_explicit_opt_in() {
    assert!(validate_upstream_url("NEXUS_UPSTREAM", "http://nexus:8081", true).is_ok());
}

#[test]
fn schemeless_or_malformed_upstream_is_rejected() {
    for raw in ["nexus:8081", "", "not a url", "//nexus:8081"] {
        assert!(
            validate_upstream_url("NEXUS_UPSTREAM", raw, true).is_err(),
            "{raw:?} must be rejected"
        );
    }
}

#[test]
fn non_http_schemes_are_rejected_even_with_the_opt_in() {
    for raw in ["file:///etc/passwd", "ftp://nexus/", "gopher://nexus/"] {
        assert!(
            validate_upstream_url("NEXUS_UPSTREAM", raw, true).is_err(),
            "{raw:?} must be rejected"
        );
    }
}

#[test]
fn a_valid_url_is_returned_unchanged() {
    let raw = "https://nexus.example.com/context";
    assert_eq!(validate_upstream_url("NEXUS_URL", raw, false).unwrap(), raw);
}

#[test]
fn upstream_errors_carry_the_reason() {
    let reason = |raw: &str| match validate_upstream_url("V", raw, true) {
        Err(CambiumError::InvalidUpstreamUrl { var, value, reason }) => {
            assert_eq!(var, "V");
            assert_eq!(value, raw);
            reason
        }
        other => panic!("expected a refusal, got {other:?}"),
    };
    assert_eq!(reason("ftp://nexus/"), "scheme must be http or https, got \"ftp\"");
    assert_eq!(reason("not a url"), "relative URL without a base");
    let err = validate_upstream_url("V", "ftp://nexus/", true).unwrap_err();
    assert_eq!(
        err.message(),
        "invalid V \"ftp://nexus/\": scheme must be http or https, got \"ftp\""
    );
}

#[test]
fn a_url_without_a_host_is_refused() {
    for host in [None, Some(String::new())] {
        let parsed = Ok(("https".to_string(), host));
        match check_upstream_url("V", "raw", parsed, true) {
            Err(CambiumError::InvalidUpstreamUrl { reason, .. }) => assert_eq!(reason, "no host"),
            other => panic!("expected a refusal, got {other:?}"),
        }
    }
}

#[test]
fn parses_reserved_usernames_lowercased_and_trimmed() {
    let set = parse_reserved_usernames(" Admin , ANONYMOUS ,, deploy-bot ");
    assert!(set.contains("admin"));
    assert!(set.contains("anonymous"));
    assert!(set.contains("deploy-bot"));
    assert_eq!(set.len(), 3);
}

#[test]
fn empty_reserved_usernames_disables_the_guard() {
    assert!(parse_reserved_usernames("").is_empty());
}

#[test]
fn default_reserved_usernames_cover_nexus_builtins() {
    let set = parse_reserved_usernames(DEFAULT_RESERVED_USERNAMES);
    assert!(set.contains("admin"));
    assert!(set.contains("anonymous"));
}

#[test]
fn reserved_usernames_are_lowercased_beyond_ascii() {
    let set = parse_reserved_usernames("\u{c4}RGER");
    assert!(set.contains("\u{e4}rger"));
}

#[test]
fn consent_to_plaintext_is_spelled_three_ways() {
    for yes in ["1", "true", "yes", " TRUE ", "Yes\n"] {
        assert!(parse_allow_insecure(yes), "{yes:?}");
    }
    for no in ["", "0", "false", "no", "on", "11", "y"] {
        assert!(!parse_allow_insecure(no), "{no:?}");
    }
}

#[test]
fn sync_settings_have_defaults() {
    let config = Config::from_env(&env(SYNC_ENV)).unwrap();
    assert_eq!(config.keycloak_url, "https://kc.example.com");
    assert_eq!(config.keycloak_realm, "myrealm");
    assert_eq!(config.keycloak_client_id, "cambium");
    assert_eq!(config.keycloak_client_secret, "s1");
    assert_eq!(config.nexus_url, "https://nexus.example.com/");
    assert_eq!(config.nexus_username, "svc");
    assert_eq!(config.nexus_password, "s2");
    assert_eq!(config.role_map.get("kc-dev"), Some(&"nx-dev".to_string()));
    assert_eq!(config.poll_interval_seconds, 60);
    assert_eq!(config.state_file, "/var/lib/cambium/state.json");
    assert_eq!(config.fallback_email_domain, "cambium.invalid");
    assert!(config.reserved_usernames.contains("admin"));
    assert!(config.reserved_usernames.contains("anonymous"));
    assert_eq!(config.lock_file, "/var/lib/cambium/cambium.lock");
}

#[test]
fn sync_settings_can_be_overridden() {
    let mut pairs = SYNC_ENV.to_vec();
    pairs.extend([
        ("POLL_INTERVAL_SECONDS", "+5"),
        ("STATE_FILE", "s.json"),
        ("FALLBACK_EMAIL_DOMAIN", "example.com"),
        ("RESERVED_USERNAMES", ""),
        ("LOCK_FILE", "l"),
    ]);
    let config = Config::from_env(&env(&pairs)).unwrap();
    assert_eq!(config.poll_interval_seconds, 5);
    assert_eq!(config.state_file, "s.json");
    assert_eq!(config.fallback_email_domain, "example.com");
    assert!(config.reserved_usernames.is_empty());
    assert_eq!(config.lock_file, "l");
}

#[test]
fn every_required_sync_variable_is_missed() {
    for (key, _) in SYNC_ENV {
        let err = Config::from_env(&env(&without(SYNC_ENV, key))).unwrap_err();
        assert_eq!(err.message(), format!("missing required env var: {key}"));
    }
}

#[test]
fn malformed_sync_variables_are_reported() {
    let err = Config::from_env(&env(&with(SYNC_ENV, "ROLE_MAP", "x"))).unwrap_err();
    assert!(matches!(err, ConfigError::RoleMap(_)));
    assert_eq!(
        err.message(),
        "invalid ROLE_MAP: invalid ROLE_MAP entry \"x\" (expected \"keycloak-group:nexus-role\")"
    );
    let err = Config::from_env(&env(&with(SYNC_ENV, "NEXUS_URL", "http://nexus"))).unwrap_err();
    assert!(matches!(err, ConfigError::Upstream(_)));
    for bad in ["", "+", "-1", " 5", "5s", "18446744073709551616"] {
        let pairs = with(SYNC_ENV, "POLL_INTERVAL_SECONDS", bad);
        let err = Config::from_env(&env(&pairs)).unwrap_err();
        assert_eq!(err.message(), "POLL_INTERVAL_SECONDS must be a number", "{bad:?}");
    }
    let pairs = with(SYNC_ENV, "POLL_INTERVAL_SECONDS", "18446744073709551615");
    assert_eq!(Config::from_env(&env(&pairs)).unwrap().poll_interval_seconds, u64::MAX);
}

#[test]
fn plaintext_sync_upstreams_need_consent() {
    let pairs = with(SYNC_ENV, "KEYCLOAK_URL", "http://kc:8080");
    assert!(Config::from_env(&env(&pairs)).is_err());
    let pairs = with(&pairs, "ALLOW_INSECURE_HTTP", "1");
    assert_eq!(Config::from_env(&env(&pairs)).unwrap().keycloak_url, "http://kc:8080");
}

#[test]
fn proxy_settings_have_defaults() {
    let config = RopcConfig::from_env(&env(ROPC_ENV)).unwrap();
    assert_eq!(config.keycloak_issuer, "https://kc.example.com/realms/myrealm");
    assert_eq!(config.keycloak_ropc_client_id, "ropc");
    assert_eq!(config.keycloak_ropc_client_secret, "s1");
    assert_eq!(config.identity_claim, "preferred_username");
    assert_eq!(config.nexus_upstream, "https://nexus.example.com");
    assert_eq!(config.rutauth_header, "X-Forwarded-User");
    assert_eq!(config.cache_ttl_seconds, 60);
    assert_eq!(config.listen_addr, "0.0.0.0:8090");
}

#[test]
fn every_required_proxy_variable_is_missed() {
    for (key, _) in ROPC_ENV {
        let err = RopcConfig::from_env(&env(&without(ROPC_ENV, key))).unwrap_err();
        assert_eq!(err.message(), format!("missing required env var: {key}"));
    }
    let err = RopcConfig::from_env(&env(&with(ROPC_ENV, "CACHE_TTL_SECONDS", "x"))).unwrap_err();
    assert_eq!(err.message(), "CACHE_TTL_SECONDS must be a number");
}

#[test]
fn plaintext_proxy_upstreams_need_consent() {
    let pairs = with(ROPC_ENV, "NEXUS_UPSTREAM", "http://nexus:8081");
    assert!(matches!(
        RopcConfig::from_env(&env(&pairs)),
        Err(ConfigError::Upstream(_))
    ));
    let refused = with(&pairs, "ALLOW_INSECURE_HTTP", "no");
    assert!(RopcConfig::from_env(&env(&refused)).is_err());
    let accepted = with(&pairs, "ALLOW_INSECURE_HTTP", " Yes ");
    assert_eq!(RopcConfig::from_env(&env(&accepted)).unwrap().nexus_upstream, "http://nexus:8081");
}

#[test]
fn reserved_names_of_the_settings_are_in_lower_case() {
    let config = Config::from_env(&env(SYNC_ENV)).unwrap();
    assert_eq!(config.reserved_usernames.len(), 2);
    let pairs = with(SYNC_ENV, "RESERVED_USERNAMES", " ROOT ,admin");
    let config = Config::from_env(&env(&pairs)).unwrap();
    assert_eq!(config.reserved_usernames.len(), 2);
    assert!(config.reserved_usernames.contains("root"));
    assert!(config.reserved_usernames.contains("admin"));
}

#[test]
fn settings_can_be_copied() {
    let config = Config::from_env(&env(SYNC_ENV)).unwrap();
    let copy = config.clone();
    assert_eq!(copy.nexus_password, "s2");
    assert_eq!(copy.role_map.get("kc-dev"), Some(&"nx-dev".to_string()));
    assert_eq!(copy.role_map.len(), 1);
    assert_eq!(copy.reserved_usernames, config.reserved_usernames);
    assert_eq!(copy.poll_interval_seconds, 60);
}
