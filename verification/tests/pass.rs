use cambium::error::{CambiumError, CambiumResult};
use cambium::keycloak::{KcGroup, KcUser};
use cambium::manifest::Manifest;
use cambium::nexus::NexusUser;
use cambium::pass::{PassReply, PassSettings, PassStep, SyncPass};
use cambium::string_map::StringMap;
use cambium::string_set::StringSet;
use cambium::user_sync::UserReply;

fn set(items: &[&str]) -> StringSet {
    let items: Vec<String> = items.iter().map(|s| s.to_string()).collect();
    StringSet::from_vec(&items)
}

fn settings() -> PassSettings {
    let mut role_map = StringMap::new();
    role_map.insert("kc-dev".to_string(), "nx-dev".to_string());
    PassSettings {
        kc_realm: "r".to_string(),
        role_map,
        fallback_email_domain: "cambium.invalid".to_string(),
        reserved_usernames: set(&["admin"]),
    }
}

fn group(id: &str) -> KcGroup {
    KcGroup { id: id.to_string(), name: String::new(), path: String::new() }
}

fn kc_user(id: &str, username: &str, enabled: bool) -> KcUser {
    KcUser {
        id: id.to_string(),
        username: username.to_string(),
        email: None,
        enabled: Some(enabled),
    }
}

fn nexus_user(user_id: &str, roles: &[&str]) -> NexusUser {
    NexusUser {
        user_id: user_id.to_string(),
        first_name: "F".to_string(),
        last_name: "L".to_string(),
        email_address: "e".to_string(),
        source: "default".to_string(),
        status: "active".to_string(),
        roles: roles.iter().map(|s| s.to_string()).collect(),
        external_roles: vec![],
    }
}

fn broken<T>() -> CambiumResult<T> {
    Err(CambiumError::Http("down".to_string()))
}

/// A Keycloak and a Nexus in memory, and what was asked of them.
struct World {
    members: Vec<(&'static str, Vec<KcUser>)>,
    children: Vec<(&'static str, Vec<&'static str>)>,
    role_users: CambiumResult<Vec<KcUser>>,
    effective: Vec<(&'static str, &'static [&'static str])>,
    nexus: Vec<NexusUser>,
    fail_roles_of: Option<&'static str>,
    lost_race: bool,
    log: Vec<String>,
}

impl World {
    fn new() -> World {
        World {
            members: vec![],
            children: vec![],
            role_users: Ok(vec![]),
            effective: vec![],
            nexus: vec![],
            fail_roles_of: None,
            lost_race: false,
            log: vec![],
        }
    }

    fn answer(&mut self, step: PassStep) -> PassReply {
        match step {
            PassStep::ListGroups => PassReply::Groups(Ok(vec![group("top")])),
            PassStep::GroupMembers(id) => {
                let found = self.members.iter().find(|m| m.0 == id);
                PassReply::Users(Ok(found.map(|m| m.1.clone()).unwrap_or_default()))
            }
            PassStep::GroupChildren(id) => {
                let found = self.children.iter().find(|m| m.0 == id);
                let ids = found.map(|m| m.1.clone()).unwrap_or_default();
                PassReply::Groups(Ok(ids.into_iter().map(group).collect()))
            }
            PassStep::RoleUsers(role) => {
                self.log.push(format!("role {role}"));
                PassReply::Users(std::mem::replace(&mut self.role_users, Ok(vec![])))
            }
            PassStep::EffectiveRoles(id) => {
                if self.fail_roles_of == Some(id.as_str()) {
                    return PassReply::User(UserReply::Roles(broken()));
                }
                let found = self.effective.iter().find(|e| e.0 == id);
                PassReply::User(UserReply::Roles(Ok(set(found.map(|e| e.1).unwrap_or(&[])))))
            }
            PassStep::GetUser(id) => {
                self.log.push(format!("get {id}"));
                let found = self.nexus.iter().filter(|u| u.user_id.contains(&id)).cloned();
                PassReply::User(UserReply::Found(Ok(found.collect())))
            }
            PassStep::CreateUser(body) => {
                self.log.push(format!("create {} {:?}", body.user.user_id, body.user.roles));
                assert_eq!(body.status, "active");
                assert_eq!(body.user.first_name, body.user.user_id);
                assert_eq!(body.user.last_name, "(cambium)");
                assert_eq!(
                    body.user.email_address,
                    format!("{}@cambium.invalid", body.user.user_id)
                );
                assert_eq!(body.user.password.len(), 64);
                if self.lost_race {
                    return PassReply::User(UserReply::Done(Err(
                        CambiumError::NexusUserAlreadyExists(body.user.user_id),
                    )));
                }
                let roles: Vec<&str> = body.user.roles.iter().map(|r| r.as_str()).collect();
                self.nexus.push(nexus_user(&body.user.user_id, &roles));
                PassReply::User(UserReply::Done(Ok(())))
            }
            PassStep::SetUserRoles(body) => {
                let mut roles = body.roles.clone();
                roles.sort();
                self.log.push(format!("set {} {:?}", body.user_id, roles));
                for user in self.nexus.iter_mut() {
                    if user.user_id == body.user_id {
                        user.roles = body.roles.clone();
                    }
                }
                PassReply::User(UserReply::Done(Ok(())))
            }
            PassStep::SaveManifest => {
                self.log.push("save".to_string());
                PassReply::Saved(broken())
            }
            PassStep::Finished => panic!("nothing is left to do"),
        }
    }

    fn run(&mut self, manifest: Manifest) -> (Manifest, CambiumResult<()>) {
        let settings = settings();
        let mut pass = SyncPass::new(manifest);
        loop {
            match pass.next(&settings) {
                PassStep::Finished => break,
                step => {
                    let reply = self.answer(step);
                    pass = pass.advance(&settings, reply);
                }
            }
        }
        let (manifest, result) = pass.finish();
        (manifest, result.expect("the pass is over"))
    }
}

#[test]
fn a_new_user_is_created_recorded_and_then_left_alone() {
    let mut world = World::new();
    world.members = vec![("top", vec![kc_user("u1", "alice", true)])];
    world.effective = vec![("u1", &["kc-dev", "other"])];

    let (manifest, result) = world.run(Manifest::default());
    assert!(result.is_ok());
    assert_eq!(manifest.last_synced("r", "alice"), set(&["nx-dev"]));
    assert_eq!(world.log, vec!["role kc-dev", "get alice", "create alice [\"nx-dev\"]", "save"]);

    world.log.clear();
    let (manifest, _) = world.run(manifest);
    assert_eq!(manifest.last_synced("r", "alice"), set(&["nx-dev"]));
    assert_eq!(world.log, vec!["role kc-dev", "get alice", "save"]);
}

#[test]
fn a_disabled_user_loses_what_was_granted_and_nothing_else() {
    let mut manifest = Manifest::default();
    manifest.set_synced("r", "alice", &set(&["nx-dev"]));
    let mut world = World::new();
    world.members = vec![("top", vec![kc_user("u1", "alice", false)])];
    world.effective = vec![("u1", &["kc-dev"])];
    world.nexus = vec![nexus_user("alice", &["nx-dev", "manual"])];

    let (manifest, _) = world.run(manifest);
    assert_eq!(world.log, vec!["role kc-dev", "get alice", "set alice [\"manual\"]", "save"]);
    assert!(manifest.last_synced("r", "alice").is_empty());
    assert_eq!(world.nexus[0].roles, vec!["manual"]);
}

#[test]
fn a_user_who_is_owed_nothing_is_not_created_nor_recorded() {
    let mut world = World::new();
    world.members = vec![("top", vec![kc_user("u1", "alice", true)])];
    let (manifest, _) = world.run(Manifest::default());
    assert_eq!(world.log, vec!["role kc-dev", "get alice", "save"]);
    assert!(manifest.to_entries().is_empty());
}

#[test]
fn a_reserved_user_is_passed_over() {
    let mut world = World::new();
    world.members = vec![("top", vec![kc_user("u1", "ADMIN", true)])];
    world.effective = vec![("u1", &["kc-dev"])];
    let (manifest, result) = world.run(Manifest::default());
    assert!(result.is_ok());
    assert_eq!(world.log, vec!["role kc-dev"]);
    assert!(manifest.to_entries().is_empty());
}

#[test]
fn users_are_found_in_subgroups_and_through_roles() {
    let mut world = World::new();
    world.children = vec![("top", vec!["sub"]), ("sub", vec!["top"])];
    world.members = vec![("sub", vec![kc_user("u1", "alice", true)])];
    world.role_users = Ok(vec![kc_user("u2", "svc", true), kc_user("u1", "alice", true)]);
    world.effective = vec![("u1", &["kc-dev"]), ("u2", &["kc-dev"])];
    let (manifest, _) = world.run(Manifest::default());
    assert_eq!(manifest.last_synced("r", "alice"), set(&["nx-dev"]));
    assert_eq!(manifest.last_synced("r", "svc"), set(&["nx-dev"]));
    assert_eq!(world.log.iter().filter(|l| l.starts_with("create")).count(), 2);
    assert_eq!(world.log.iter().filter(|l| *l == "save").count(), 2);
}

#[test]
fn a_role_that_cannot_be_looked_up_is_passed_over() {
    let mut world = World::new();
    world.role_users = Err(CambiumError::NotFound);
    world.members = vec![("top", vec![kc_user("u1", "alice", true)])];
    world.effective = vec![("u1", &["kc-dev"])];
    let (manifest, result) = world.run(Manifest::default());
    assert!(result.is_ok());
    assert_eq!(manifest.last_synced("r", "alice"), set(&["nx-dev"]));
}

#[test]
fn a_failed_user_leaves_the_record_alone_and_the_pass_goes_on() {
    let mut manifest = Manifest::default();
    manifest.set_synced("r", "alice", &set(&["nx-dev"]));
    let mut world = World::new();
    world.members =
        vec![("top", vec![kc_user("u1", "alice", true), kc_user("u2", "bob", true)])];
    world.effective = vec![("u2", &["kc-dev"])];
    world.fail_roles_of = Some("u1");
    let (manifest, result) = world.run(manifest);
    assert!(result.is_ok());
    assert_eq!(manifest.last_synced("r", "alice"), set(&["nx-dev"]));
    assert_eq!(manifest.last_synced("r", "bob"), set(&["nx-dev"]));
    assert_eq!(world.log.iter().filter(|l| *l == "save").count(), 1);
}

#[test]
fn losing_the_race_to_create_a_user_is_no_failure() {
    let mut world = World::new();
    world.lost_race = true;
    world.members = vec![("top", vec![kc_user("u1", "alice", true)])];
    world.effective = vec![("u1", &["kc-dev"])];
    let (manifest, result) = world.run(Manifest::default());
    assert!(result.is_ok());
    assert_eq!(manifest.last_synced("r", "alice"), set(&["nx-dev"]));
}

#[test]
fn a_similar_user_is_not_taken_for_the_user() {
    let mut world = World::new();
    world.members = vec![("top", vec![kc_user("u1", "alice", true)])];
    world.effective = vec![("u1", &["kc-dev"])];
    world.nexus = vec![nexus_user("alice2", &["x"])];
    world.run(Manifest::default());
    assert!(world.log.contains(&"create alice [\"nx-dev\"]".to_string()));
}

#[test]
fn a_failure_to_read_the_groups_ends_the_pass() {
    let settings = settings();
    let ended = |pass: SyncPass| {
        assert!(matches!(pass.next(&settings), PassStep::Finished));
        let (_, result) = pass.finish();
        assert_eq!(result.unwrap().unwrap_err(), CambiumError::Http("down".to_string()));
    };
    let start = || SyncPass::new(Manifest::default());
    ended(start().advance(&settings, PassReply::Groups(broken())));
    let walking = || start().advance(&settings, PassReply::Groups(Ok(vec![group("g")])));
    ended(walking().advance(&settings, PassReply::Users(broken())));
    let children = walking().advance(&settings, PassReply::Users(Ok(vec![])));
    ended(children.advance(&settings, PassReply::Groups(broken())));
}

#[test]
fn answers_that_were_not_asked_for_change_nothing() {
    let settings = settings();
    let pass = SyncPass::new(Manifest::default());
    let pass = pass.advance(&settings, PassReply::Saved(Ok(())));
    let pass = pass.advance(&settings, PassReply::Users(Ok(vec![kc_user("u", "x", true)])));
    assert!(matches!(pass.next(&settings), PassStep::ListGroups));
    let (manifest, result) = pass.finish();
    assert!(result.is_none());
    assert!(manifest.to_entries().is_empty());
}

#[test]
fn everyone_in_a_group_is_taken_up_although_role_lookups_and_other_users_fail() {
    let mut world = World::new();
    world.role_users = broken();
    world.children = vec![("top", vec!["sub"])];
    world.members = vec![
        ("top", vec![kc_user("u1", "alice", true), kc_user("u2", "bob", true)]),
        ("sub", vec![kc_user("u3", "carol", false)]),
    ];
    world.effective = vec![("u2", &["kc-dev"])];
    world.fail_roles_of = Some("u1");
    world.nexus = vec![nexus_user("bob", &["manual"]), nexus_user("carol", &["nx-dev", "manual"])];
    let mut manifest = Manifest::default();
    manifest.set_synced("r", "alice", &set(&["x"]));
    manifest.set_synced("r", "carol", &set(&["nx-dev"]));
    let (manifest, result) = world.run(manifest);
    assert!(result.is_ok());
    assert_eq!(manifest.last_synced("r", "alice"), set(&["x"]));
    assert_eq!(manifest.last_synced("r", "bob"), set(&["nx-dev"]));
    assert!(manifest.last_synced("r", "carol").is_empty());
    assert_eq!(StringSet::from_vec(&world.nexus[0].roles), set(&["manual", "nx-dev"]));
    assert_eq!(world.nexus[1].roles, vec!["manual"]);
}
