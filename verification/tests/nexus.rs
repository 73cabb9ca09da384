use cambium::error::CambiumError;
use cambium::nexus::{
    create_body, create_refusal, exact_match, refusal, update_body, NewNexusUser, NexusClient,
    NexusUser, NexusValidationEntry,
};

fn user(user_id: &str, first_name: &str) -> NexusUser {
    NexusUser {
        user_id: user_id.to_string(),
        first_name: first_name.to_string(),
        last_name: "L".to_string(),
        email_address: "e".to_string(),
        source: "LDAP".to_string(),
        status: "disabled".to_string(),
        roles: vec!["old".to_string()],
        external_roles: vec!["ext".to_string()],
    }
}

#[test]
fn urls_lead_to_the_security_api() {
    let nexus = NexusClient::new("https://n".to_string(), "u".to_string(), "p".to_string());
    assert_eq!(nexus.security_url("/x"), "https://n/service/rest/v1/security/x");
    assert_eq!(nexus.create_user_url(), "https://n/service/rest/v1/security/users");
    assert_eq!(
        nexus.get_user_url("a b@c/\u{e9}~_.-"),
        "https://n/service/rest/v1/security/users?userId=a%20b%40c%2F%C3%A9~_.-"
    );
    assert_eq!(
        nexus.set_user_roles_url("a@b"),
        "https://n/service/rest/v1/security/users/a@b"
    );
    assert_eq!(nexus.basic_auth(), ("u", "p"));
}

#[test]
fn a_search_is_filtered_for_the_exact_id() {
    let found = vec![user("alice2", "no"), user("alice", "yes"), user("alice", "later")];
    assert_eq!(exact_match(found, "alice").unwrap().first_name, "yes");
    assert!(exact_match(vec![user("Alice", "no")], "alice").is_none());
    assert!(exact_match(vec![], "alice").is_none());
}

#[test]
fn an_update_changes_the_roles_only() {
    let body = update_body(&user("alice", "F"), vec!["new".to_string()]);
    assert_eq!(body.user_id, "alice");
    assert_eq!(body.first_name, "F");
    assert_eq!(body.last_name, "L");
    assert_eq!(body.email_address, "e");
    assert_eq!(body.source, "LDAP");
    assert_eq!(body.status, "disabled");
    assert_eq!(body.roles, vec!["new"]);
}

#[test]
fn a_new_user_starts_out_active() {
    let body = create_body(NewNexusUser {
        user_id: "alice".to_string(),
        first_name: "f".to_string(),
        last_name: "l".to_string(),
        email_address: "e".to_string(),
        password: "p".to_string(),
        roles: vec!["r".to_string()],
    });
    assert_eq!(body.status, "active");
    assert_eq!(body.user.user_id, "alice");
    assert_eq!(body.user.roles, vec!["r"]);
}

#[test]
fn a_duplicate_user_is_recognised_by_its_exception() {
    let text = "ERROR: (ID 1) org.sonatype.nexus.security.user.DuplicateUserException: x";
    assert_eq!(
        create_refusal("alice", 500, text.to_string(), None),
        Some(CambiumError::NexusUserAlreadyExists("alice".to_string()))
    );
    assert_eq!(
        create_refusal("alice", 500, "boom".to_string(), None).unwrap().message(),
        "Nexus API returned 500: boom"
    );
    assert_eq!(
        CambiumError::NexusUserAlreadyExists("a\"".to_string()).message(),
        "Nexus user \"a\\\"\" already exists"
    );
    assert!(matches!(
        create_refusal("alice", 409, text.to_string(), None),
        Some(CambiumError::NexusUnexpected { status: 409, .. })
    ));
}

#[test]
fn a_rejected_field_is_named() {
    let entries = || {
        vec![
            NexusValidationEntry { id: "roles".to_string(), message: "m".to_string() },
            NexusValidationEntry { id: "x".to_string(), message: "y".to_string() },
        ]
    };
    let err = create_refusal("alice", 400, "[..]".to_string(), Some(entries())).unwrap();
    assert_eq!(
        err.message(),
        "Nexus rejected the request as invalid (Some(\"roles\")): m"
    );
    assert_eq!(
        CambiumError::NexusValidation { field: None, message: "m".to_string() }.message(),
        "Nexus rejected the request as invalid (None): m"
    );
    assert!(matches!(
        create_refusal("alice", 400, "[]".to_string(), Some(vec![])),
        Some(CambiumError::NexusUnexpected { status: 400, .. })
    ));
    assert!(matches!(
        create_refusal("alice", 400, "x".to_string(), None),
        Some(CambiumError::NexusUnexpected { status: 400, .. })
    ));
    assert!(matches!(
        create_refusal("alice", 422, "[..]".to_string(), Some(entries())),
        Some(CambiumError::NexusUnexpected { status: 422, .. })
    ));
    assert_eq!(create_refusal("alice", 200, String::new(), None), None);
}

#[test]
fn other_answers_are_judged_by_their_status() {
    assert_eq!(refusal(204, String::new()), None);
    assert_eq!(
        refusal(401, "no".to_string()),
        Some(CambiumError::NexusUnexpected { status: 401, body: "no".to_string() })
    );
    assert_eq!(CambiumError::Http("x".to_string()).message(), "HTTP request failed: x");
}
