use cambium::error::CambiumError;
use cambium::keycloak::{
    refusal, role_names, token_refusal, AdminTokenCache, EffectiveRoles, KcGroup, KcRole,
    KeycloakClient, RolesReply, RolesStep,
};
use cambium::string_set::StringSet;

fn set(items: &[&str]) -> StringSet {
    let items: Vec<String> = items.iter().map(|s| s.to_string()).collect();
    StringSet::from_vec(&items)
}

fn roles(names: &[&str]) -> Vec<KcRole> {
    names.iter().map(|n| KcRole { id: format!("id-{n}"), name: n.to_string() }).collect()
}

fn groups(ids: &[&str]) -> Vec<KcGroup> {
    ids.iter()
        .map(|i| KcGroup { id: i.to_string(), name: String::new(), path: String::new() })
        .collect()
}

#[test]
fn urls_lead_to_the_admin_api() {
    let kc = KeycloakClient::new(
        "https://kc".to_string(),
        "master".to_string(),
        "id".to_string(),
        "secret".to_string(),
    );
    assert_eq!(kc.realm_url("r"), "https://kc/admin/realms/r");
    assert_eq!(kc.token_url(), "https://kc/realms/master/protocol/openid-connect/token");
    let form = kc.token_form();
    let form: Vec<(&str, &str)> = form.iter().map(|f| (f.0.as_str(), f.1.as_str())).collect();
    assert_eq!(
        form,
        vec![
            ("grant_type", "client_credentials"),
            ("client_id", "id"),
            ("client_secret", "secret"),
        ]
    );
    assert_eq!(
        kc.list_groups_url("r"),
        "https://kc/admin/realms/r/groups?briefRepresentation=false"
    );
    assert_eq!(kc.group_children_url("r", "g"), "https://kc/admin/realms/r/groups/g/children");
    assert_eq!(
        kc.group_members_url("r", "g"),
        "https://kc/admin/realms/r/groups/g/members?max=1000"
    );
    assert_eq!(kc.role_users_url("r", "x"), "https://kc/admin/realms/r/roles/x/users");
    assert_eq!(kc.user_groups_url("r", "u"), "https://kc/admin/realms/r/users/u/groups");
    assert_eq!(
        kc.user_composite_realm_roles_url("r", "u"),
        "https://kc/admin/realms/r/users/u/role-mappings/realm/composite"
    );
    assert_eq!(
        kc.group_composite_realm_roles_url("r", "g"),
        "https://kc/admin/realms/r/groups/g/role-mappings/realm/composite"
    );
}

#[test]
fn a_missing_resource_is_told_apart() {
    assert_eq!(refusal(200, String::new()), None);
    assert_eq!(refusal(404, "x".to_string()), Some(CambiumError::NotFound));
    assert_eq!(
        refusal(403, "x".to_string()).unwrap().message(),
        "Keycloak API returned 403: x"
    );
    assert_eq!(CambiumError::NotFound.message(), "resource not found");
    assert_eq!(token_refusal(204, String::new()), None);
    assert_eq!(
        token_refusal(404, "x".to_string()),
        Some(CambiumError::KeycloakUnexpected { status: 404, body: "x".to_string() })
    );
}

#[test]
fn the_token_is_kept_until_shortly_before_it_expires() {
    let mut cache = AdminTokenCache::new();
    assert_eq!(cache.token(0), None);
    cache.store("t", 90, 5);
    assert_eq!(cache.token(5).as_deref(), Some("t"));
    assert_eq!(cache.token(60_000_000_004).as_deref(), Some("t"));
    assert_eq!(cache.token(60_000_000_005), None);
    cache.store("t2", 30, 5);
    assert_eq!(cache.token(5), None);
    cache.store("t3", u64::MAX, u64::MAX);
    assert_eq!(cache.token(u64::MAX).as_deref(), Some("t3"));
}

#[test]
fn effective_roles_are_direct_and_inherited() {
    let search = EffectiveRoles::new();
    assert!(matches!(search.next(), RolesStep::OwnRoles));
    let search = search.advance(RolesReply::Roles(Ok(roles(&["a", "b"]))));
    assert!(matches!(search.next(), RolesStep::UserGroups));
    let search = search.advance(RolesReply::Groups(Ok(groups(&["g", "h"]))));
    assert!(matches!(search.next(), RolesStep::GroupRoles(id) if id == "g"));
    let search = search.advance(RolesReply::Groups(Ok(groups(&["ignored"]))));
    let search = search.advance(RolesReply::Roles(Ok(roles(&["b", "c"]))));
    assert!(matches!(search.next(), RolesStep::GroupRoles(id) if id == "h"));
    let search = search.advance(RolesReply::Roles(Ok(roles(&["d"]))));
    assert!(matches!(search.next(), RolesStep::Finished));
    match search {
        EffectiveRoles::Ended(Ok(found)) => assert_eq!(found, set(&["a", "b", "c", "d"])),
        other => panic!("expected roles, got {other:?}"),
    }
}

#[test]
fn a_user_without_groups_has_direct_roles_only() {
    let search = EffectiveRoles::new()
        .advance(RolesReply::Roles(Ok(roles(&["a"]))))
        .advance(RolesReply::Groups(Ok(vec![])));
    assert!(matches!(search, EffectiveRoles::Ended(Ok(found)) if found == set(&["a"])));
}

#[test]
fn any_failure_ends_the_search() {
    let fail = || CambiumError::Http("x".to_string());
    let ended = |s: EffectiveRoles| matches!(s, EffectiveRoles::Ended(Err(e)) if e == fail());
    assert!(ended(EffectiveRoles::new().advance(RolesReply::Roles(Err(fail())))));
    let own = || EffectiveRoles::new().advance(RolesReply::Roles(Ok(roles(&["a"]))));
    assert!(ended(own().advance(RolesReply::Groups(Err(fail())))));
    let grouped = own().advance(RolesReply::Groups(Ok(groups(&["g"]))));
    assert!(ended(grouped.advance(RolesReply::Roles(Err(fail())))));
}

#[test]
fn role_names_are_a_set() {
    assert_eq!(role_names(&roles(&["a", "b", "a"])), set(&["a", "b"]));
}
