use cambium::config::{parse_reserved_usernames, DEFAULT_RESERVED_USERNAMES};
use cambium::discovery::{merge_users, DiscoveredUser, GroupWalk, WalkStep};
use cambium::keycloak::{KcGroup, KcUser};
use cambium::manifest::{Manifest, ManifestFile};
use cambium::string_map::StringMap;
use cambium::string_set::StringSet;
use cambium::sync::{
    is_reserved_username, map_to_nexus_roles, placeholder_password, random_placeholder_password,
    reconcile_roles, resolve_email_address, ReconcileInput,
};

fn set(items: &[&str]) -> StringSet {
    let items: Vec<String> = items.iter().map(|s| s.to_string()).collect();
    StringSet::from_vec(&items)
}

#[test]
fn resolve_email_address_uses_username_as_is_when_already_an_email() {
    assert_eq!(
        resolve_email_address("alice@example.com", "cambium.invalid"),
        "alice@example.com"
    );
}

#[test]
fn resolve_email_address_appends_fallback_domain_for_bare_usernames() {
    assert_eq!(
        resolve_email_address("user-alpha-1", "cambium.invalid"),
        "user-alpha-1@cambium.invalid"
    );
}

#[test]
fn resolve_email_address_treats_leading_or_trailing_at_as_not_an_email() {
    assert_eq!(
        resolve_email_address("@example.com", "cambium.invalid"),
        "@example.com@cambium.invalid"
    );
    assert_eq!(
        resolve_email_address("alice@", "cambium.invalid"),
        "alice@@cambium.invalid"
    );
}

#[test]
fn resolve_email_address_wants_exactly_one_at() {
    assert_eq!(
        resolve_email_address("a@b@c", "cambium.invalid"),
        "a@b@c@cambium.invalid"
    );
}

#[test]
fn fresh_user_gets_exactly_what_keycloak_grants() {
    let outcome = reconcile_roles(&ReconcileInput {
        desired_managed_roles: set(&["nx-developer"]),
        last_synced_roles: set(&[]),
        current_nexus_roles: set(&[]),
    });
    assert_eq!(outcome.new_roles, set(&["nx-developer"]));
    assert!(outcome.changed);
}

#[test]
fn no_op_when_nothing_changed() {
    let outcome = reconcile_roles(&ReconcileInput {
        desired_managed_roles: set(&["nx-developer"]),
        last_synced_roles: set(&["nx-developer"]),
        current_nexus_roles: set(&["nx-developer"]),
    });
    assert_eq!(outcome.new_roles, set(&["nx-developer"]));
    assert!(!outcome.changed);
}

#[test]
fn foreign_role_is_preserved_across_a_reconcile() {
    let outcome = reconcile_roles(&ReconcileInput {
        desired_managed_roles: set(&["nx-developer"]),
        last_synced_roles: set(&["nx-developer"]),
        current_nexus_roles: set(&["nx-developer", "cambium-manual-role"]),
    });
    assert_eq!(
        outcome.new_roles,
        set(&["nx-developer", "cambium-manual-role"])
    );
    assert!(!outcome.changed);
}

#[test]
fn foreign_role_survives_even_when_cambium_role_also_changes() {
    let outcome = reconcile_roles(&ReconcileInput {
        desired_managed_roles: set(&["nx-role-b"]),
        last_synced_roles: set(&["nx-role-a"]),
        current_nexus_roles: set(&["nx-role-a", "cambium-manual-role"]),
    });
    assert_eq!(
        outcome.new_roles,
        set(&["nx-role-b", "cambium-manual-role"])
    );
    assert!(outcome.changed);
}

#[test]
fn cambium_managed_role_is_revoked_when_no_longer_justified() {
    let outcome = reconcile_roles(&ReconcileInput {
        desired_managed_roles: set(&[]),
        last_synced_roles: set(&["nx-developer"]),
        current_nexus_roles: set(&["nx-developer"]),
    });
    assert_eq!(outcome.new_roles, set(&[]));
    assert!(outcome.changed);
}

#[test]
fn revocation_never_touches_a_foreign_role() {
    let outcome = reconcile_roles(&ReconcileInput {
        desired_managed_roles: set(&[]),
        last_synced_roles: set(&["nx-developer"]),
        current_nexus_roles: set(&["nx-developer", "cambium-manual-role"]),
    });
    assert_eq!(outcome.new_roles, set(&["cambium-manual-role"]));
    assert!(outcome.changed);
}

#[test]
fn missing_manifest_preserves_all_existing_roles_and_only_adds() {
    let outcome = reconcile_roles(&ReconcileInput {
        desired_managed_roles: set(&["nx-new-role"]),
        last_synced_roles: set(&[]),
        current_nexus_roles: set(&["nx-old-role-cambium-granted-before"]),
    });
    assert_eq!(
        outcome.new_roles,
        set(&["nx-new-role", "nx-old-role-cambium-granted-before"])
    );
    assert!(outcome.changed);
}

#[test]
fn adding_and_removing_in_the_same_pass() {
    let outcome = reconcile_roles(&ReconcileInput {
        desired_managed_roles: set(&["nx-role-b", "nx-role-c"]),
        last_synced_roles: set(&["nx-role-a", "nx-role-b"]),
        current_nexus_roles: set(&["nx-role-a", "nx-role-b", "cambium-manual-role"]),
    });
    assert_eq!(
        outcome.new_roles,
        set(&["nx-role-b", "nx-role-c", "cambium-manual-role"])
    );
    assert!(outcome.changed);
}

#[test]
fn reconciling_again_after_recording_is_a_no_op() {
    let first = reconcile_roles(&ReconcileInput {
        desired_managed_roles: set(&["b", "c"]),
        last_synced_roles: set(&["a"]),
        current_nexus_roles: set(&["a", "x"]),
    });
    let second = reconcile_roles(&ReconcileInput {
        desired_managed_roles: set(&["b", "c"]),
        last_synced_roles: set(&["b", "c"]),
        current_nexus_roles: first.new_roles.clone(),
    });
    assert_eq!(first.new_roles, set(&["b", "c", "x"]));
    assert_eq!(second.new_roles, first.new_roles);
    assert!(!second.changed);
}

#[test]
fn granting_and_withdrawing_gives_back_what_was_there() {
    let granted = reconcile_roles(&ReconcileInput {
        desired_managed_roles: set(&["a"]),
        last_synced_roles: set(&[]),
        current_nexus_roles: set(&["x"]),
    });
    let withdrawn = reconcile_roles(&ReconcileInput {
        desired_managed_roles: set(&[]),
        last_synced_roles: set(&["a"]),
        current_nexus_roles: granted.new_roles,
    });
    assert_eq!(withdrawn.new_roles, set(&["x"]));
}

#[test]
fn map_to_nexus_roles_drops_unmapped_and_keeps_mapped() {
    let mut role_map = StringMap::new();
    role_map.insert("kc-developers".to_string(), "nx-developer".to_string());
    role_map.insert("kc-admins".to_string(), "nx-admin".to_string());

    let effective = set(&["kc-developers", "some-unrelated-realm-role"]);
    let mapped = map_to_nexus_roles(&effective, &role_map);
    assert_eq!(mapped, set(&["nx-developer"]));
}

#[test]
fn map_to_nexus_roles_handles_empty_input() {
    let role_map = StringMap::new();
    let mapped = map_to_nexus_roles(&set(&[]), &role_map);
    assert!(mapped.is_empty());
}

fn kc_user(id: &str, username: &str) -> KcUser {
    KcUser {
        id: id.to_string(),
        username: username.to_string(),
        email: None,
        enabled: Some(true),
    }
}

fn kc_user_disabled(id: &str, username: &str) -> KcUser {
    KcUser {
        enabled: Some(false),
        ..kc_user(id, username)
    }
}

fn username_of(members: &StringMap<DiscoveredUser>, id: &str) -> Option<String> {
    members.get(id).map(|u| u.username.clone())
}

fn kc_group(id: &str, path: &str) -> KcGroup {
    KcGroup {
        id: id.to_string(),
        name: path.trim_start_matches('/').to_string(),
        path: path.to_string(),
    }
}

#[derive(Default)]
struct FakeGroupTree {
    children: Vec<(String, Vec<KcGroup>)>,
    members: Vec<(String, Vec<KcUser>)>,
}

/// Drives a walk against a tree, and counts how often members were asked for.
fn discover_group_tree_members(
    tree: &FakeGroupTree,
    top_level: &Vec<KcGroup>,
) -> (StringMap<DiscoveredUser>, usize) {
    let mut walk = GroupWalk::new(top_level);
    let mut asked = 0;
    loop {
        match walk.next() {
            WalkStep::Members(id) => {
                asked += 1;
                let found = tree.members.iter().find(|m| m.0 == id);
                walk.on_members(found.map(|m| m.1.clone()).unwrap_or_default());
            }
            WalkStep::Children(id) => {
                let found = tree.children.iter().find(|m| m.0 == id);
                walk.on_children(found.map(|m| m.1.clone()).unwrap_or_default());
            }
            WalkStep::Finished => return (walk.into_members(), asked),
        }
    }
}

#[test]
fn discover_group_tree_members_finds_a_user_in_a_direct_subgroup() {
    let mut tree = FakeGroupTree::default();
    tree.children.push((
        "team-gamma".to_string(),
        vec![kc_group("team-gamma-leads", "/team-gamma/team-gamma-leads")],
    ));
    tree.members.push((
        "team-gamma-leads".to_string(),
        vec![kc_user("u1", "user-gamma-lead-1")],
    ));

    let top_level = vec![kc_group("team-gamma", "/team-gamma")];
    let (members, _) = discover_group_tree_members(&tree, &top_level);

    assert_eq!(
        username_of(&members, "u1").as_deref(),
        Some("user-gamma-lead-1")
    );
}

#[test]
fn discover_group_tree_members_walks_multiple_nesting_levels() {
    let mut tree = FakeGroupTree::default();
    tree.children.push(("root".to_string(), vec![kc_group("child", "/root/child")]));
    tree.children.push((
        "child".to_string(),
        vec![kc_group("grandchild", "/root/child/grandchild")],
    ));
    tree.members.push((
        "grandchild".to_string(),
        vec![kc_user("u1", "deeply-nested-user")],
    ));

    let top_level = vec![kc_group("root", "/root")];
    let (members, _) = discover_group_tree_members(&tree, &top_level);

    assert_eq!(
        username_of(&members, "u1").as_deref(),
        Some("deeply-nested-user")
    );
}

#[test]
fn discover_group_tree_members_deduplicates_across_parent_and_subgroup() {
    let mut tree = FakeGroupTree::default();
    tree.children.push(("parent".to_string(), vec![kc_group("child", "/parent/child")]));
    tree.members.push(("parent".to_string(), vec![kc_user("u1", "alice")]));
    tree.members.push(("child".to_string(), vec![kc_user("u1", "alice")]));

    let top_level = vec![kc_group("parent", "/parent")];
    let (members, _) = discover_group_tree_members(&tree, &top_level);

    assert_eq!(members.len(), 1);
    assert_eq!(username_of(&members, "u1").as_deref(), Some("alice"));
}

#[test]
fn discover_group_tree_members_terminates_on_a_self_referential_cycle() {
    let mut tree = FakeGroupTree::default();
    tree.children.push(("cyclic".to_string(), vec![kc_group("cyclic", "/cyclic")]));
    tree.members.push(("cyclic".to_string(), vec![kc_user("u1", "alice")]));

    let top_level = vec![kc_group("cyclic", "/cyclic")];
    let (members, asked) = discover_group_tree_members(&tree, &top_level);

    assert_eq!(members.len(), 1);
    assert_eq!(asked, 1);
}

#[test]
fn a_group_listed_twice_is_asked_about_once() {
    let mut tree = FakeGroupTree::default();
    tree.children.push(("a".to_string(), vec![kc_group("b", "/a/b"), kc_group("b", "/a/b")]));
    tree.members.push(("b".to_string(), vec![kc_user("u1", "alice")]));

    let top_level = vec![kc_group("a", "/a"), kc_group("a", "/a"), kc_group("b", "/b")];
    let (members, asked) = discover_group_tree_members(&tree, &top_level);

    assert_eq!(members.len(), 1);
    assert_eq!(asked, 2);
}

#[test]
fn a_walk_ignores_answers_it_did_not_ask_for() {
    let mut walk = GroupWalk::new(&vec![kc_group("a", "/a")]);
    walk.on_children(vec![kc_group("x", "/x")]);
    walk.on_members(vec![kc_user("u0", "early")]);
    assert!(matches!(walk.next(), WalkStep::Members(id) if id == "a"));
    walk.on_children(vec![kc_group("x", "/x")]);
    assert!(matches!(walk.next(), WalkStep::Members(id) if id == "a"));
    walk.on_members(vec![kc_user("u1", "alice")]);
    assert!(matches!(walk.waiting(), WalkStep::Children(id) if id == "a"));
    walk.on_children(vec![]);
    assert!(matches!(walk.next(), WalkStep::Finished));
    assert_eq!(walk.into_members().len(), 1);
}

#[test]
fn merge_users_adds_a_user_with_no_group_membership() {
    let mut members = StringMap::new();
    merge_users(&mut members, vec![kc_user("g1", "alice")]);
    merge_users(&mut members, vec![kc_user("r1", "svc-example")]);

    assert_eq!(username_of(&members, "g1").as_deref(), Some("alice"));
    assert_eq!(username_of(&members, "r1").as_deref(), Some("svc-example"));
    assert_eq!(members.len(), 2);
}

#[test]
fn merge_users_deduplicates_overlap_between_group_and_direct_role_discovery() {
    let mut members = StringMap::new();
    merge_users(&mut members, vec![kc_user("u1", "bob")]);
    merge_users(&mut members, vec![kc_user("u1", "bob")]);

    assert_eq!(members.len(), 1);
    assert_eq!(username_of(&members, "u1").as_deref(), Some("bob"));
}

#[test]
fn merge_users_handles_empty_batch() {
    let mut members: StringMap<DiscoveredUser> = StringMap::new();
    merge_users(&mut members, vec![]);
    assert!(members.is_empty());
}

#[test]
fn merge_users_carries_the_disabled_flag_through_discovery() {
    let mut members = StringMap::new();
    merge_users(
        &mut members,
        vec![kc_user("u1", "alice"), kc_user_disabled("u2", "bob")],
    );

    assert!(members.get("u1").unwrap().enabled);
    assert!(!members.get("u2").unwrap().enabled);
}

#[test]
fn merge_users_treats_a_missing_enabled_field_as_enabled() {
    let mut members = StringMap::new();
    merge_users(
        &mut members,
        vec![KcUser {
            enabled: None,
            ..kc_user("u1", "alice")
        }],
    );

    assert!(members.get("u1").unwrap().enabled);
}

#[test]
fn merge_users_keeps_the_later_entry() {
    let mut members = StringMap::new();
    merge_users(&mut members, vec![kc_user("u1", "old"), kc_user_disabled("u1", "new")]);
    assert_eq!(members.len(), 1);
    assert_eq!(username_of(&members, "u1").as_deref(), Some("new"));
    assert!(!members.get("u1").unwrap().enabled);
}

#[test]
fn reserved_usernames_are_matched_case_insensitively() {
    let reserved = parse_reserved_usernames(DEFAULT_RESERVED_USERNAMES);

    assert!(is_reserved_username("admin", &reserved));
    assert!(is_reserved_username("Admin", &reserved));
    assert!(is_reserved_username("ADMIN", &reserved));
    assert!(is_reserved_username("anonymous", &reserved));
}

#[test]
fn ordinary_usernames_are_not_reserved() {
    let reserved = parse_reserved_usernames(DEFAULT_RESERVED_USERNAMES);

    assert!(!is_reserved_username("alice", &reserved));
    assert!(!is_reserved_username("admin-tools", &reserved));
    assert!(!is_reserved_username("alice@example.com", &reserved));
}

#[test]
fn an_empty_reserved_set_matches_nothing() {
    let reserved = parse_reserved_usernames("");
    assert!(!is_reserved_username("admin", &reserved));
}

#[test]
fn disabled_user_resolves_to_revoking_only_cambium_granted_roles() {
    let outcome = reconcile_roles(&ReconcileInput {
        desired_managed_roles: StringSet::new(),
        last_synced_roles: set(&["nx-developer"]),
        current_nexus_roles: set(&["nx-developer", "nx-manual"]),
    });

    assert!(outcome.changed);
    assert_eq!(outcome.new_roles, set(&["nx-manual"]));
}

/// What a restarted process finds of a record that was written down.
fn reload(manifest: &Manifest) -> Manifest {
    Manifest::load("state.json", ManifestFile::Entries(manifest.to_entries())).unwrap()
}

#[test]
fn crash_after_user_n_before_final_save_does_not_lose_track_of_granted_roles() {
    let mut manifest =
        Manifest::load("state.json", ManifestFile::Missing).expect("fresh manifest load");

    let alice_desired = set(&["nx-dev"]);
    let alice_outcome = reconcile_roles(&ReconcileInput {
        desired_managed_roles: alice_desired.clone(),
        last_synced_roles: manifest.last_synced("realm", "alice"),
        current_nexus_roles: set(&[]),
    });
    assert!(alice_outcome.changed);
    manifest.set_synced("realm", "alice", &alice_desired);

    let manifest_after_crash = reload(&manifest);
    drop(manifest);

    assert_eq!(
        manifest_after_crash.last_synced("realm", "alice"),
        alice_desired,
        "alice's grant must be durable even though the batch crashed before finishing"
    );
    assert!(manifest_after_crash.last_synced("realm", "bob").is_empty());

    let mut manifest2 = manifest_after_crash;
    let alice_revoke_outcome = reconcile_roles(&ReconcileInput {
        desired_managed_roles: set(&[]),
        last_synced_roles: manifest2.last_synced("realm", "alice"),
        current_nexus_roles: set(&["nx-dev"]),
    });

    assert!(alice_revoke_outcome.changed);
    assert_eq!(alice_revoke_outcome.new_roles, set(&[]));

    manifest2.set_synced("realm", "alice", &set(&[]));
    assert!(reload(&manifest2).last_synced("realm", "alice").is_empty());
}

#[test]
fn placeholder_passwords_are_hexadecimal_and_differ() {
    assert_eq!(placeholder_password(&[0, 1, 0xab, 0xff]), "0001abff");
    let a = random_placeholder_password();
    let b = random_placeholder_password();
    assert_eq!(a.len(), 64);
    assert!(a.chars().all(|c| c.is_ascii_digit() || ('a'..='f').contains(&c)));
    assert_ne!(a, b);
}
