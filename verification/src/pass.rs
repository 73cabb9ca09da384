//! One pass of the synchronisation: from the groups and roles in Keycloak to every user found
//! there. The pass says what to do next; whoever drives it does it and hands back the answer.

use crate::discovery::{
    group_ids, merge_users, merged, walk_advanced, walk_start, walk_with_children,
    walk_with_members, DiscoveredUser, DiscoveredUserView, GroupWalk, WalkStep, WalkStepView,
    WalkView,
};
use crate::error::{CambiumErrorView, CambiumResult};
use crate::keycloak::{KcGroup, KcUser, KcUserView};
use crate::manifest::{recorded, with_record, Manifest};
use crate::nexus::{create_body, update_body, with_roles, CreateBody, UpdateBody};
use crate::outside::unicode_lower;
use crate::string_map::StringMap;
use crate::string_set::StringSet;
use crate::sync::{
    email_address, is_placeholder_password, is_reserved_username, random_placeholder_password,
};
use crate::text::views;
use crate::user_sync::{
    advance_user, begin_user, new_nexus_user, user_advanced, user_begun, UserPhase, UserPhaseView,
    UserReply, UserReplyView,
};
use vstd::prelude::*;

verus! {

/// What a pass is told by the operator.
#[derive(Debug)]
pub struct PassSettings {
    pub kc_realm: String,
    /// The Nexus role of every Keycloak role that has one.
    pub role_map: StringMap<String>,
    pub fallback_email_domain: String,
    /// The Nexus accounts that are never touched, in lower case.
    pub reserved_usernames: StringSet,
}

/// `PassSettings` with its texts and collections.
pub struct PassSettingsView {
    pub kc_realm: Seq<char>,
    pub role_map: Map<Seq<char>, Seq<char>>,
    pub fallback_email_domain: Seq<char>,
    pub reserved_usernames: Set<Seq<char>>,
}

impl View for PassSettings {
    type V = PassSettingsView;

    open spec fn view(&self) -> PassSettingsView {
        PassSettingsView {
            kc_realm: self.kc_realm@,
            role_map: self.role_map@,
            fallback_email_domain: self.fallback_email_domain@,
            reserved_usernames: self.reserved_usernames@,
        }
    }
}

/// A user to be synchronised.
#[derive(Debug)]
pub struct UserTask {
    pub id: String,
    pub username: String,
    pub enabled: bool,
}

/// A `UserTask` with its texts.
pub struct UserTaskView {
    pub id: Seq<char>,
    pub username: Seq<char>,
    pub enabled: bool,
}

impl View for UserTask {
    type V = UserTaskView;

    open spec fn view(&self) -> UserTaskView {
        UserTaskView { id: self.id@, username: self.username@, enabled: self.enabled }
    }
}

/// What a pass waits for.
#[derive(Debug)]
enum PassPhase {
    Groups,
    Walking(GroupWalk),
    Roles { members: StringMap<DiscoveredUser>, roles: Vec<String> },
    Users { users: Vec<UserTask>, phase: UserPhase },
    Saving { users: Vec<UserTask> },
    Ended(CambiumResult<()>),
}

/// What a pass waits for: the top-level groups; the walk through them; the users with the first
/// of some roles; an answer about the first of some users; the record to be saved before the
/// given users are taken up; or nothing, the pass having ended with a result.
pub enum PassPhaseView {
    Groups,
    Walking(WalkView),
    Roles { members: Map<Seq<char>, DiscoveredUserView>, roles: Seq<Seq<char>> },
    Users { users: Seq<UserTaskView>, phase: UserPhaseView },
    Saving { users: Seq<UserTaskView> },
    Ended(Result<(), CambiumErrorView>),
}

/// A pass under way, with the record of what was granted.
#[derive(Debug)]
pub struct SyncPass {
    manifest: Manifest,
    phase: PassPhase,
}

/// The state of a pass.
pub struct PassView {
    pub manifest: Map<Seq<char>, Set<Seq<char>>>,
    pub phase: PassPhaseView,
}

/// A result with the text of its error.
pub open spec fn result_view(result: CambiumResult<()>) -> Result<(), CambiumErrorView> {
    match result {
        Ok(done) => Ok(()),
        Err(e) => Err(e@),
    }
}

/// What a phase waits for.
spec fn phase_view(phase: PassPhase) -> PassPhaseView {
    match phase {
        PassPhase::Groups => PassPhaseView::Groups,
        PassPhase::Walking(walk) => PassPhaseView::Walking(walk@),
        PassPhase::Roles { members, roles } => PassPhaseView::Roles {
            members: members@,
            roles: views(roles@),
        },
        PassPhase::Users { users, phase } => PassPhaseView::Users {
            users: views(users@),
            phase: phase@,
        },
        PassPhase::Saving { users } => PassPhaseView::Saving { users: views(users@) },
        PassPhase::Ended(result) => PassPhaseView::Ended(result_view(result)),
    }
}

impl View for SyncPass {
    type V = PassView;

    closed spec fn view(&self) -> PassView {
        PassView { manifest: self.manifest@, phase: phase_view(self.phase) }
    }
}

/// Whether a phase has what it needs: a walk has asked something, there is a role or a user to
/// ask about, and the synchronisation of that user has not ended.
pub open spec fn is_open(phase: PassPhaseView) -> bool {
    match phase {
        PassPhaseView::Walking(walk) => !(walk.waiting is Finished),
        PassPhaseView::Roles { members, roles } => roles.len() > 0,
        PassPhaseView::Users { users, phase } => users.len() > 0 && !(phase is Synced) && !(
        phase is Skipped) && !(phase is Failed),
        _ => true,
    }
}

/// What is to be done next.
#[derive(Debug)]
pub enum PassStep {
    /// List the top-level groups of the realm.
    ListGroups,
    /// List the direct members of the group with this id.
    GroupMembers(String),
    /// List the immediate subgroups of the group with this id.
    GroupChildren(String),
    /// List the users to whom this role is assigned directly.
    RoleUsers(String),
    /// Find the effective roles of the Keycloak user with this id.
    EffectiveRoles(String),
    /// Search Nexus for the user with this id.
    GetUser(String),
    /// Create a user in Nexus.
    CreateUser(CreateBody),
    /// Replace a user in Nexus.
    SetUserRoles(UpdateBody),
    /// Write the record down.
    SaveManifest,
    /// Nothing: the pass is over.
    Finished,
}

/// The answer to a step.
#[derive(Debug)]
pub enum PassReply {
    /// To `ListGroups` and `GroupChildren`.
    Groups(CambiumResult<Vec<KcGroup>>),
    /// To `GroupMembers` and `RoleUsers`.
    Users(CambiumResult<Vec<KcUser>>),
    /// To `EffectiveRoles`, `GetUser`, `CreateUser` and `SetUserRoles`.
    User(UserReply),
    /// To `SaveManifest`.
    Saved(CambiumResult<()>),
}

/// A `PassReply` with its texts.
pub enum PassReplyView {
    Groups(Result<Seq<Seq<char>>, CambiumErrorView>),
    Users(Result<Seq<KcUserView>, CambiumErrorView>),
    User(UserReplyView),
    Saved(Result<(), CambiumErrorView>),
}

impl View for PassReply {
    type V = PassReplyView;

    open spec fn view(&self) -> PassReplyView {
        match *self {
            PassReply::Groups(Ok(groups)) => PassReplyView::Groups(Ok(group_ids(groups@))),
            PassReply::Groups(Err(e)) => PassReplyView::Groups(Err(e@)),
            PassReply::Users(Ok(users)) => PassReplyView::Users(Ok(views(users@))),
            PassReply::Users(Err(e)) => PassReplyView::Users(Err(e@)),
            PassReply::User(reply) => PassReplyView::User(reply@),
            PassReply::Saved(result) => PassReplyView::Saved(result_view(result)),
        }
    }
}

/// Whether a username names a reserved account.
pub open spec fn is_reserved(settings: PassSettingsView, username: Seq<char>) -> bool {
    settings.reserved_usernames.contains(unicode_lower(username))
}

/// Whether `users` lists, each once and in any order, the users found, but for reserved ones.
pub open spec fn lists_pending(
    settings: PassSettingsView,
    members: Map<Seq<char>, DiscoveredUserView>,
    users: Seq<UserTaskView>,
) -> bool {
    &&& forall|i: int, j: int| 0 <= i < j < users.len() ==> users[i].id != users[j].id
    &&& forall|i: int|
        0 <= i < users.len() ==> {
            let user = #[trigger] users[i];
            &&& members.contains_key(user.id)
            &&& members[user.id] == DiscoveredUserView {
                username: user.username,
                enabled: user.enabled,
            }
            &&& !is_reserved(settings, user.username)
        }
    &&& forall|id: Seq<char>| #[trigger]
        members.contains_key(id) && !is_reserved(settings, members[id].username)
            ==> exists|i: int| 0 <= i < users.len() && (#[trigger] users[i]).id == id
}

/// The phase in which the first of some users is taken up.
pub open spec fn users_begun(users: Seq<UserTaskView>) -> PassPhaseView {
    if users.len() == 0 {
        PassPhaseView::Ended(Ok(()))
    } else {
        PassPhaseView::Users { users, phase: user_begun(users[0].enabled) }
    }
}

/// Whether `phase` follows the discovery of `members`.
pub open spec fn follows_discovery(
    settings: PassSettingsView,
    members: Map<Seq<char>, DiscoveredUserView>,
    phase: PassPhaseView,
) -> bool {
    exists|users: Seq<UserTaskView>| #[trigger]
        lists_pending(settings, members, users) && phase == users_begun(users)
}

/// Whether `phase` follows, with the users of `roles` still to be added to `members`.
pub open spec fn follows_roles(
    settings: PassSettingsView,
    members: Map<Seq<char>, DiscoveredUserView>,
    roles: Seq<Seq<char>>,
    phase: PassPhaseView,
) -> bool {
    if roles.len() > 0 {
        phase == (PassPhaseView::Roles { members, roles })
    } else {
        follows_discovery(settings, members, phase)
    }
}

/// Whether `phase` follows a walk that came this far. Behind the walk, the users of every mapped
/// role are asked for, each role once and in any order.
pub open spec fn follows_walk(
    settings: PassSettingsView,
    walk: WalkView,
    phase: PassPhaseView,
) -> bool {
    if walk.waiting is Finished {
        exists|roles: Seq<Seq<char>>|
            roles.no_duplicates() && #[trigger] roles.to_set() == settings.role_map.dom()
                && follows_roles(settings, walk.members, roles, phase)
    } else {
        phase == PassPhaseView::Walking(walk)
    }
}

/// The state after an answer about the first of some users. A success is recorded, where there
/// is something to record, and the record is saved before the next user; a failure leaves the
/// record as it is and goes on with the next user.
pub open spec fn after_user(
    settings: PassSettingsView,
    manifest: Map<Seq<char>, Set<Seq<char>>>,
    users: Seq<UserTaskView>,
    phase: UserPhaseView,
) -> PassView {
    match phase {
        UserPhaseView::Synced { desired } => PassView {
            manifest: with_record(manifest, settings.kc_realm, users[0].username, desired),
            phase: PassPhaseView::Saving { users: users.skip(1) },
        },
        UserPhaseView::Skipped => PassView {
            manifest,
            phase: PassPhaseView::Saving { users: users.skip(1) },
        },
        UserPhaseView::Failed(e) => PassView { manifest, phase: users_begun(users.skip(1)) },
        _ => PassView { manifest, phase: PassPhaseView::Users { users, phase } },
    }
}

/// Whether a pass goes from `before` to `after` on an answer. A failure to list groups or their
/// members ends the pass; a failure to list the users of a role only means that none are added.
/// An answer to something that was not asked changes nothing.
pub open spec fn pass_advances(
    settings: PassSettingsView,
    before: PassView,
    reply: PassReplyView,
    after: PassView,
) -> bool {
    match (before.phase, reply) {
        (PassPhaseView::Groups, PassReplyView::Groups(Ok(roots))) => {
            &&& after.manifest == before.manifest
            &&& follows_walk(settings, walk_advanced(walk_start(roots)), after.phase)
        },
        (PassPhaseView::Groups, PassReplyView::Groups(Err(e))) => {
            after == PassView { manifest: before.manifest, phase: PassPhaseView::Ended(Err(e)) }
        },
        (PassPhaseView::Walking(walk), PassReplyView::Users(Ok(users))) => if walk.waiting
            is Members {
            &&& after.manifest == before.manifest
            &&& follows_walk(settings, walk_with_members(walk, users), after.phase)
        } else {
            after == before
        },
        (PassPhaseView::Walking(walk), PassReplyView::Groups(Ok(children))) => if walk.waiting
            is Children {
            &&& after.manifest == before.manifest
            &&& follows_walk(
                settings,
                walk_advanced(walk_with_children(walk, children)),
                after.phase,
            )
        } else {
            after == before
        },
        (PassPhaseView::Walking(walk), PassReplyView::Users(Err(e))) => if walk.waiting
            is Members {
            after == PassView { manifest: before.manifest, phase: PassPhaseView::Ended(Err(e)) }
        } else {
            after == before
        },
        (PassPhaseView::Walking(walk), PassReplyView::Groups(Err(e))) => if walk.waiting
            is Children {
            after == PassView { manifest: before.manifest, phase: PassPhaseView::Ended(Err(e)) }
        } else {
            after == before
        },
        (PassPhaseView::Roles { members, roles }, PassReplyView::Users(reply)) => {
            &&& after.manifest == before.manifest
            &&& follows_roles(
                settings,
                match reply {
                    Ok(users) => merged(members, users),
                    Err(e) => members,
                },
                roles.skip(1),
                after.phase,
            )
        },
        (PassPhaseView::Users { users, phase }, PassReplyView::User(reply)) => after == after_user(
            settings,
            before.manifest,
            users,
            user_advanced(
                phase,
                users[0].username,
                settings.role_map,
                recorded(before.manifest, settings.kc_realm, users[0].username),
                reply,
            ),
        ),
        (PassPhaseView::Saving { users }, PassReplyView::Saved(result)) => {
            after == PassView { manifest: before.manifest, phase: users_begun(users) }
        },
        _ => after == before,
    }
}

/// What a pass asks for in a state.
pub open spec fn is_step_of(settings: PassSettingsView, pass: PassView, step: PassStep) -> bool {
    match pass.phase {
        PassPhaseView::Groups => step is ListGroups,
        PassPhaseView::Walking(walk) => match walk.waiting {
            WalkStepView::Members(id) => step matches PassStep::GroupMembers(group) && group@ == id,
            WalkStepView::Children(id) => step matches PassStep::GroupChildren(group) && group@
                == id,
            WalkStepView::Finished => step is Finished,
        },
        PassPhaseView::Roles { members, roles } => {
            step matches PassStep::RoleUsers(role) && role@ == roles[0]
        },
        PassPhaseView::Users { users, phase } => match phase {
            UserPhaseView::Roles => step matches PassStep::EffectiveRoles(id) && id@
                == users[0].id,
            UserPhaseView::Lookup { desired } => step matches PassStep::GetUser(id) && id@
                == users[0].username,
            UserPhaseView::Create { desired } => {
                &&& step matches PassStep::CreateUser(body)
                &&& body.status@ == "active"@
                &&& body.user.user_id@ == users[0].username
                &&& body.user.first_name@ == users[0].username
                &&& body.user.last_name@ == "(cambium)"@
                &&& body.user.email_address@ == email_address(
                    users[0].username,
                    settings.fallback_email_domain,
                )
                &&& is_placeholder_password(body.user.password@)
                &&& views(body.user.roles@).to_set() == desired
                &&& views(body.user.roles@).no_duplicates()
            },
            UserPhaseView::Update { desired, user, roles } => {
                &&& step matches PassStep::SetUserRoles(body)
                &&& body@ == with_roles(user, body@.roles)
                &&& body@.roles.to_set() == roles
                &&& body@.roles.no_duplicates()
            },
            _ => step is Finished,
        },
        PassPhaseView::Saving { users } => step is SaveManifest,
        PassPhaseView::Ended(result) => step is Finished,
    }
}

impl SyncPass {
    #[verifier::type_invariant]
    spec fn well_formed(self) -> bool {
        is_open(phase_view(self.phase))
    }

    /// A pass that is about to start, with the record of what was granted so far.
    pub fn new(manifest: Manifest) -> (r: SyncPass)
        ensures
            r@ == (PassView { manifest: manifest@, phase: PassPhaseView::Groups }),
    {
        SyncPass { manifest, phase: PassPhase::Groups }
    }

    /// The record as it stands.
    pub fn manifest(&self) -> (r: &Manifest)
        ensures
            r@ == self@.manifest,
    {
        &self.manifest
    }

    /// The record, and the result of the pass where it is over.
    pub fn finish(self) -> (r: (Manifest, Option<CambiumResult<()>>))
        ensures
            r.0@ == self@.manifest,
            match (self@.phase, r.1) {
                (PassPhaseView::Ended(result), Some(shown)) => result_view(shown) == result,
                (PassPhaseView::Ended(result), None) => false,
                (_, shown) => shown is None,
            },
    {
        match self.phase {
            PassPhase::Ended(result) => (self.manifest, Some(result)),
            _ => (self.manifest, None),
        }
    }

    /// What to do next. A creation carries a password drawn at random.
    pub fn next(&self, settings: &PassSettings) -> (r: PassStep)
        ensures
            is_step_of(settings@, self@, r),
    {
        proof {
            use_type_invariant(self);
        }
        match &self.phase {
            PassPhase::Groups => PassStep::ListGroups,
            PassPhase::Walking(walk) => match walk.waiting() {
                WalkStep::Members(id) => PassStep::GroupMembers(id),
                WalkStep::Children(id) => PassStep::GroupChildren(id),
                WalkStep::Finished => PassStep::Finished,
            },
            PassPhase::Roles { roles, .. } => PassStep::RoleUsers(roles[0].clone()),
            PassPhase::Users { users, phase } => match phase {
                UserPhase::Roles => PassStep::EffectiveRoles(users[0].id.clone()),
                UserPhase::Lookup { .. } => PassStep::GetUser(users[0].username.clone()),
                UserPhase::Create { desired } => PassStep::CreateUser(
                    create_body(
                        new_nexus_user(
                            users[0].username.as_str(),
                            settings.fallback_email_domain.as_str(),
                            random_placeholder_password(),
                            desired,
                        ),
                    ),
                ),
                UserPhase::Update { user, roles, .. } => PassStep::SetUserRoles(
                    update_body(user, roles.to_vec()),
                ),
                _ => PassStep::Finished,
            },
            PassPhase::Saving { .. } => PassStep::SaveManifest,
            PassPhase::Ended(_) => PassStep::Finished,
        }
    }

    /// Takes the answer to the last step.
    pub fn advance(self, settings: &PassSettings, reply: PassReply) -> (r: SyncPass)
        ensures
            pass_advances(settings@, self@, reply@, r@),
    {
        proof {
            use_type_invariant(&self);
        }
        let SyncPass { manifest, phase } = self;
        match (phase, reply) {
            (PassPhase::Groups, PassReply::Groups(Ok(groups))) => SyncPass {
                manifest,
                phase: enter_walk(settings, GroupWalk::new(&groups)),
            },
            (PassPhase::Groups, PassReply::Groups(Err(e))) => SyncPass {
                manifest,
                phase: PassPhase::Ended(Err(e)),
            },
            (PassPhase::Walking(walk), reply) => SyncPass {
                manifest,
                phase: advance_walk(settings, walk, reply),
            },
            (PassPhase::Roles { members, roles }, PassReply::Users(reply)) => {
                let mut members = members;
                let mut roles = roles;
                let ghost held = roles@;
                match reply {
                    Ok(users) => {
                        merge_users(&mut members, users);
                    },
                    Err(_) => {},
                }
                roles.remove(0);
                assert(views(roles@) =~= views(held).skip(1));
                SyncPass { manifest, phase: enter_roles(settings, members, roles) }
            },
            (PassPhase::Users { users, phase }, PassReply::User(reply)) => advance_users(
                settings,
                manifest,
                users,
                phase,
                reply,
            ),
            (PassPhase::Saving { users }, PassReply::Saved(_)) => SyncPass {
                manifest,
                phase: begin_users(users),
            },
            (phase, _) => SyncPass { manifest, phase },
        }
    }
}

/// Takes an answer about the first of some users.
fn advance_users(
    settings: &PassSettings,
    manifest: Manifest,
    users: Vec<UserTask>,
    phase: UserPhase,
    reply: UserReply,
) -> (r: SyncPass)
    requires
        is_open(PassPhaseView::Users { users: views(users@), phase: phase@ }),
    ensures
        r@ == after_user(
            settings@,
            manifest@,
            views(users@),
            user_advanced(
                phase@,
                views(users@)[0].username,
                settings@.role_map,
                recorded(manifest@, settings@.kc_realm, views(users@)[0].username),
                reply@,
            ),
        ),
{
    let ghost held = users@;
    let mut users = users;
    let mut manifest = manifest;
    let realm = settings.kc_realm.as_str();
    let granted = manifest.last_synced(realm, users[0].username.as_str());
    let phase = advance_user(
        phase,
        users[0].username.as_str(),
        &settings.role_map,
        granted,
        reply,
    );
    match phase {
        UserPhase::Synced { desired } => {
            manifest.set_synced(realm, users[0].username.as_str(), &desired);
            users.remove(0);
            assert(views(users@) =~= views(held).skip(1));
            SyncPass { manifest, phase: PassPhase::Saving { users } }
        },
        UserPhase::Skipped => {
            users.remove(0);
            assert(views(users@) =~= views(held).skip(1));
            SyncPass { manifest, phase: PassPhase::Saving { users } }
        },
        UserPhase::Failed(_) => {
            users.remove(0);
            assert(views(users@) =~= views(held).skip(1));
            SyncPass { manifest, phase: begin_users(users) }
        },
        phase => SyncPass { manifest, phase: PassPhase::Users { users, phase } },
    }
}

/// Takes up the first of some users.
fn begin_users(users: Vec<UserTask>) -> (r: PassPhase)
    ensures
        phase_view(r) == users_begun(views(users@)),
        is_open(phase_view(r)),
{
    if users.len() == 0 {
        PassPhase::Ended(Ok(()))
    } else {
        let phase = begin_user(users[0].enabled);
        PassPhase::Users { users, phase }
    }
}

/// Takes up the users found, but for reserved ones.
fn enter_users(settings: &PassSettings, members: &StringMap<DiscoveredUser>) -> (r: PassPhase)
    ensures
        follows_discovery(settings@, members@, phase_view(r)),
        is_open(phase_view(r)),
{
    let ids = members.keys();
    let mut users: Vec<UserTask> = Vec::new();
    let mut i: usize = 0;
    while i < ids.len()
        invariant
            i <= ids.len(),
            views(ids@).to_set() == members@.dom(),
            views(ids@).no_duplicates(),
            lists_pending_of(settings@, members@, views(ids@).take(i as int), views(users@)),
        decreases ids.len() - i,
    {
        let ghost before = users@;
        let ghost id = views(ids@)[i as int];
        let ghost fewer = views(ids@).take(i as int);
        assert(id == ids@[i as int]@);
        assert(views(ids@).to_set().contains(id));
        match members.get(ids[i].as_str()) {
            Some(user) => {
                if !is_reserved_username(user.username.as_str(), &settings.reserved_usernames) {
                    let task = UserTask {
                        id: ids[i].clone(),
                        username: user.username.clone(),
                        enabled: user.enabled,
                    };
                    users.push(task);
                    assert(views(users@) =~= views(before).push(task@));
                }
            },
            None => {},
        }
        proof {
            lemma_one_more_pending(settings@, members@, fewer, id, views(before), views(users@));
            assert(views(ids@).take(i + 1) =~= fewer.push(id));
        }
        i = i + 1;
    }
    proof {
        assert(views(ids@).take(ids.len() as int) =~= views(ids@));
        lemma_all_pending(settings@, members@, views(ids@), views(users@));
    }
    begin_users(users)
}

/// Whether `users` lists the users with the given ids, but for reserved ones.
spec fn lists_pending_of(
    settings: PassSettingsView,
    members: Map<Seq<char>, DiscoveredUserView>,
    ids: Seq<Seq<char>>,
    users: Seq<UserTaskView>,
) -> bool {
    &&& forall|i: int, j: int| 0 <= i < j < users.len() ==> users[i].id != users[j].id
    &&& forall|i: int|
        0 <= i < users.len() ==> {
            let user = #[trigger] users[i];
            &&& ids.contains(user.id)
            &&& members[user.id] == DiscoveredUserView {
                username: user.username,
                enabled: user.enabled,
            }
            &&& !is_reserved(settings, user.username)
        }
    &&& forall|id: Seq<char>| #[trigger]
        ids.contains(id) && !is_reserved(settings, members[id].username)
            ==> exists|i: int| 0 <= i < users.len() && (#[trigger] users[i]).id == id
}

/// One more id adds its user to the list, unless the user is reserved.
proof fn lemma_one_more_pending(
    settings: PassSettingsView,
    members: Map<Seq<char>, DiscoveredUserView>,
    ids: Seq<Seq<char>>,
    id: Seq<char>,
    before: Seq<UserTaskView>,
    after: Seq<UserTaskView>,
)
    requires
        lists_pending_of(settings, members, ids, before),
        !ids.contains(id),
        after == if is_reserved(settings, members[id].username) {
            before
        } else {
            before.push(
                UserTaskView {
                    id,
                    username: members[id].username,
                    enabled: members[id].enabled,
                },
            )
        },
    ensures
        lists_pending_of(settings, members, ids.push(id), after),
{
    let more = ids.push(id);
    assert(more[ids.len() as int] == id);
    assert forall|x: Seq<char>| #[trigger] more.contains(x) == (ids.contains(x) || x == id) by {
        if ids.contains(x) {
            let k = ids.index_of(x);
            assert(more[k] == x);
        }
        if more.contains(x) && x != id {
            let k = more.index_of(x);
            assert(ids[k] == x);
        }
    }
    assert forall|x: Seq<char>| #[trigger]
        more.contains(x) && !is_reserved(settings, members[x].username) implies exists|i: int|
        0 <= i < after.len() && (#[trigger] after[i]).id == x by {
        if x == id {
            assert(after[before.len() as int].id == x);
        } else {
            assert(ids.contains(x));
            let i = choose|i: int| 0 <= i < before.len() && (#[trigger] before[i]).id == x;
            assert(after[i].id == x);
        }
    }
}

/// The list made from all ids lists everyone.
proof fn lemma_all_pending(
    settings: PassSettingsView,
    members: Map<Seq<char>, DiscoveredUserView>,
    ids: Seq<Seq<char>>,
    users: Seq<UserTaskView>,
)
    requires
        lists_pending_of(settings, members, ids, users),
        ids.to_set() == members.dom(),
    ensures
        lists_pending(settings, members, users),
{
    assert forall|id: Seq<char>| #[trigger] ids.contains(id) == members.contains_key(id) by {
        assert(ids.to_set().contains(id) == members.dom().contains(id));
    }
    assert forall|id: Seq<char>| #[trigger]
        members.contains_key(id) && !is_reserved(settings, members[id].username) implies exists|
        i: int,
    | 0 <= i < users.len() && (#[trigger] users[i]).id == id by {
        assert(ids.contains(id));
    }
}

/// Asks for the users of some roles, or takes up the users found where there are no more.
fn enter_roles(
    settings: &PassSettings,
    members: StringMap<DiscoveredUser>,
    roles: Vec<String>,
) -> (r: PassPhase)
    ensures
        follows_roles(settings@, members@, views(roles@), phase_view(r)),
        is_open(phase_view(r)),
{
    if roles.len() > 0 {
        PassPhase::Roles { members, roles }
    } else {
        enter_users(settings, &members)
    }
}

/// Goes on with a walk, or with the mapped roles where the walk is over.
fn enter_walk(settings: &PassSettings, walk: GroupWalk) -> (r: PassPhase)
    ensures
        follows_walk(settings@, walk_advanced(walk@), phase_view(r)),
        is_open(phase_view(r)),
{
    let mut walk = walk;
    match walk.next() {
        WalkStep::Finished => {
            let roles = settings.role_map.keys();
            let ghost names = views(roles@);
            assert(names.no_duplicates() && names.to_set() == settings@.role_map.dom());
            enter_roles(settings, walk.into_members(), roles)
        },
        _ => PassPhase::Walking(walk),
    }
}

/// Takes an answer to what a walk asked.
fn advance_walk(settings: &PassSettings, walk: GroupWalk, reply: PassReply) -> (r: PassPhase)
    requires
        is_open(PassPhaseView::Walking(walk@)),
    ensures
        forall|manifest: Map<Seq<char>, Set<Seq<char>>>| #[trigger]
            pass_advances(
                settings@,
                PassView { manifest, phase: PassPhaseView::Walking(walk@) },
                reply@,
                PassView { manifest, phase: phase_view(r) },
            ),
        is_open(phase_view(r)),
{
    let mut walk = walk;
    match (walk.waiting(), reply) {
        (WalkStep::Members(_), PassReply::Users(Ok(users))) => {
            walk.on_members(users);
            enter_walk(settings, walk)
        },
        (WalkStep::Members(_), PassReply::Users(Err(e))) => PassPhase::Ended(Err(e)),
        (WalkStep::Children(_), PassReply::Groups(Ok(children))) => {
            walk.on_children(children);
            enter_walk(settings, walk)
        },
        (WalkStep::Children(_), PassReply::Groups(Err(e))) => PassPhase::Ended(Err(e)),
        _ => PassPhase::Walking(walk),
    }
}

} // verus!
