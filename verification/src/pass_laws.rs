//! What holds of every pass, whatever Keycloak and Nexus answer.

use crate::discovery::{
    merged, walk_advanced, walk_start, walk_with_children, walk_with_members, DiscoveredUserView,
    WalkStepView, WalkView,
};
use crate::error::{CambiumError, CambiumErrorView, CambiumResult};
use crate::keycloak::{KcGroup, KcUser};
use crate::manifest::{recorded, with_record};
use crate::nexus::{exact_match_has_the_id, NexusUser};
use crate::outside::unicode_lower;
use crate::pass::{
    follows_roles, follows_walk, is_open, is_reserved, is_step_of, lists_pending, pass_advances,
    users_begun, PassPhaseView, PassReply, PassReplyView, PassSettings, PassSettingsView, PassStep,
    PassView, UserTaskView,
};
use crate::pass_discovery::begins_with;
use crate::string_set::StringSet;
use crate::sync::{email_address, mapped_roles, only_mapped_roles_are_granted, reconciled};
use crate::text::views;
use crate::user_sync::{user_advanced, UserPhaseView, UserReply, UserReplyView};
use vstd::prelude::*;

verus! {

/// Whether every role of a set stands in the role map.
pub open spec fn only_mapped(settings: PassSettingsView, roles: Set<Seq<char>>) -> bool {
    forall|role: Seq<char>| #[trigger]
        roles.contains(role) ==> exists|kc_role: Seq<char>| #[trigger]
            settings.role_map.contains_key(kc_role) && settings.role_map[kc_role] == role
}

/// Whether some users may be synchronised: none is reserved and none is listed twice.
pub open spec fn may_be_synced(settings: PassSettingsView, users: Seq<UserTaskView>) -> bool {
    &&& forall|i: int| 0 <= i < users.len() ==> !is_reserved(settings, (#[trigger] users[i]).username)
    &&& forall|i: int, j: int| 0 <= i < j < users.len() ==> users[i].id != users[j].id
}

/// Whether the synchronisation of a user is as it should be: only mapped roles are to be
/// granted, none to a disabled user, and an update concerns that very user.
pub open spec fn sync_in_order(
    settings: PassSettingsView,
    manifest: Map<Seq<char>, Set<Seq<char>>>,
    task: UserTaskView,
    phase: UserPhaseView,
) -> bool {
    match phase {
        UserPhaseView::Roles => task.enabled,
        UserPhaseView::Lookup { desired } => {
            &&& only_mapped(settings, desired)
            &&& !task.enabled ==> desired == Set::<Seq<char>>::empty()
        },
        UserPhaseView::Create { desired } => {
            &&& only_mapped(settings, desired)
            &&& task.enabled
            &&& desired != Set::<Seq<char>>::empty()
        },
        UserPhaseView::Update { desired, user, roles } => {
            &&& only_mapped(settings, desired)
            &&& !task.enabled ==> desired == Set::<Seq<char>>::empty()
            &&& user.user_id == task.username
            &&& roles == reconciled(
                desired,
                recorded(manifest, settings.kc_realm, task.username),
                user.roles.to_set(),
            )
            &&& roles != user.roles.to_set()
        },
        _ => false,
    }
}

/// What holds of a pass between any two answers.
pub open spec fn pass_invariant(settings: PassSettingsView, pass: PassView) -> bool {
    &&& is_open(pass.phase)
    &&& match pass.phase {
        PassPhaseView::Users { users, phase } => {
            &&& may_be_synced(settings, users)
            &&& sync_in_order(settings, pass.manifest, users[0], phase)
        },
        PassPhaseView::Saving { users } => may_be_synced(settings, users),
        _ => true,
    }
}

/// A pass starts in a state that satisfies the invariant.
pub proof fn pass_starts_in_order(
    settings: PassSettingsView,
    manifest: Map<Seq<char>, Set<Seq<char>>>,
)
    ensures
        pass_invariant(settings, PassView { manifest, phase: PassPhaseView::Groups }),
{
}

/// Taking up the first of some users keeps the invariant.
proof fn lemma_users_begun(
    settings: PassSettingsView,
    manifest: Map<Seq<char>, Set<Seq<char>>>,
    users: Seq<UserTaskView>,
)
    requires
        may_be_synced(settings, users),
    ensures
        pass_invariant(settings, PassView { manifest, phase: users_begun(users) }),
{
}

/// What follows the roles keeps the invariant.
proof fn lemma_follows_roles(
    settings: PassSettingsView,
    manifest: Map<Seq<char>, Set<Seq<char>>>,
    members: Map<Seq<char>, DiscoveredUserView>,
    roles: Seq<Seq<char>>,
    phase: PassPhaseView,
)
    requires
        follows_roles(settings, members, roles, phase),
    ensures
        pass_invariant(settings, PassView { manifest, phase }),
{
    if roles.len() == 0 {
        let users = choose|users: Seq<UserTaskView>| #[trigger]
            lists_pending(settings, members, users) && phase == users_begun(users);
        lemma_users_begun(settings, manifest, users);
    }
}

/// What follows a walk keeps the invariant.
proof fn lemma_follows_walk(
    settings: PassSettingsView,
    manifest: Map<Seq<char>, Set<Seq<char>>>,
    walk: WalkView,
    phase: PassPhaseView,
)
    requires
        follows_walk(settings, walk, phase),
    ensures
        pass_invariant(settings, PassView { manifest, phase }),
{
    if walk.waiting is Finished {
        let roles = choose|roles: Seq<Seq<char>>|
            roles.no_duplicates() && #[trigger] roles.to_set() == settings.role_map.dom()
                && follows_roles(settings, walk.members, roles, phase);
        lemma_follows_roles(settings, manifest, walk.members, roles, phase);
    }
}

/// An answer about a user keeps the user's synchronisation in order, unless it ends it.
proof fn lemma_user_stays_in_order(
    settings: PassSettingsView,
    manifest: Map<Seq<char>, Set<Seq<char>>>,
    task: UserTaskView,
    phase: UserPhaseView,
    reply: UserReplyView,
)
    requires
        sync_in_order(settings, manifest, task, phase),
    ensures
        ({
            let next = user_advanced(
                phase,
                task.username,
                settings.role_map,
                recorded(manifest, settings.kc_realm, task.username),
                reply,
            );
            next is Synced || next is Skipped || next is Failed || sync_in_order(
                settings,
                manifest,
                task,
                next,
            )
        }),
{
    match (phase, reply) {
        (UserPhaseView::Roles, UserReplyView::Roles(Ok(effective))) => {
            let desired = mapped_roles(effective, settings.role_map);
            assert forall|role: Seq<char>| #[trigger] desired.contains(role) implies exists|
                kc_role: Seq<char>,
            | #[trigger]
                settings.role_map.contains_key(kc_role) && settings.role_map[kc_role] == role by {
                only_mapped_roles_are_granted(effective, settings.role_map, role);
            }
        },
        (UserPhaseView::Lookup { desired }, UserReplyView::Found(Ok(users))) => {
            exact_match_has_the_id(users, task.username);
        },
        _ => {},
    }
}

/// Every answer keeps the invariant.
pub proof fn answers_keep_the_pass_in_order(
    settings: PassSettingsView,
    before: PassView,
    reply: PassReplyView,
    after: PassView,
)
    requires
        pass_invariant(settings, before),
        pass_advances(settings, before, reply, after),
    ensures
        pass_invariant(settings, after),
{
    match (before.phase, reply) {
        (PassPhaseView::Groups, PassReplyView::Groups(Ok(roots))) => {
            lemma_follows_walk(
                settings,
                after.manifest,
                walk_advanced(walk_start(roots)),
                after.phase,
            );
        },
        (PassPhaseView::Walking(walk), PassReplyView::Users(Ok(users))) => {
            if walk.waiting is Members {
                lemma_follows_walk(
                    settings,
                    after.manifest,
                    walk_with_members(walk, users),
                    after.phase,
                );
            }
        },
        (PassPhaseView::Walking(walk), PassReplyView::Groups(Ok(children))) => {
            if walk.waiting is Children {
                lemma_follows_walk(
                    settings,
                    after.manifest,
                    walk_advanced(
                        walk_with_children(walk, children),
                    ),
                    after.phase,
                );
            }
        },
        (PassPhaseView::Roles { members, roles }, PassReplyView::Users(answer)) => {
            lemma_follows_roles(
                settings,
                after.manifest,
                match answer {
                    Ok(users) => merged(members, users),
                    Err(e) => members,
                },
                roles.skip(1),
                after.phase,
            );
        },
        (PassPhaseView::Users { users, phase }, PassReplyView::User(answer)) => {
            lemma_user_stays_in_order(settings, before.manifest, users[0], phase, answer);
            assert(may_be_synced(settings, users.skip(1)));
            lemma_users_begun(settings, before.manifest, users.skip(1));
        },
        (PassPhaseView::Saving { users }, PassReplyView::Saved(result)) => {
            lemma_users_begun(settings, before.manifest, users);
        },
        _ => {},
    }
}

/// No request ever concerns a reserved Nexus account.
pub proof fn reserved_accounts_are_never_touched(
    settings: PassSettingsView,
    pass: PassView,
    step: PassStep,
)
    requires
        pass_invariant(settings, pass),
        is_step_of(settings, pass, step),
    ensures
        match step {
            PassStep::GetUser(id) => !settings.reserved_usernames.contains(unicode_lower(id@)),
            PassStep::CreateUser(body) => !settings.reserved_usernames.contains(
                unicode_lower(body.user.user_id@),
            ),
            PassStep::SetUserRoles(body) => !settings.reserved_usernames.contains(
                unicode_lower(body.user_id@),
            ),
            _ => true,
        },
{
}

/// A user is only ever created with roles from the role map, and with at least one.
pub proof fn created_users_get_mapped_roles(
    settings: PassSettingsView,
    pass: PassView,
    step: PassStep,
)
    requires
        pass_invariant(settings, pass),
        is_step_of(settings, pass, step),
    ensures
        step matches PassStep::CreateUser(body) ==> {
            &&& only_mapped(settings, views(body.user.roles@).to_set())
            &&& views(body.user.roles@).to_set() != Set::<Seq<char>>::empty()
        },
{
}

/// When a user's roles are replaced, whatever is new stands in the role map, and whatever is
/// missing was on record as granted to that user.
pub proof fn replaced_roles_keep_what_was_not_granted(
    settings: PassSettingsView,
    pass: PassView,
    step: PassStep,
    role: Seq<char>,
)
    requires
        pass_invariant(settings, pass),
        is_step_of(settings, pass, step),
        step is SetUserRoles,
    ensures
        ({
            let body = step->SetUserRoles_0@;
            let current = pass.phase->Users_phase->Update_user.roles.to_set();
            let new = body.roles.to_set();
            &&& new.contains(role) && !current.contains(role) ==> exists|kc_role: Seq<char>|
                #[trigger]
                settings.role_map.contains_key(kc_role) && settings.role_map[kc_role] == role
            &&& current.contains(role) && !new.contains(role) ==> recorded(
                pass.manifest,
                settings.kc_realm,
                body.user_id,
            ).contains(role)
        }),
{
}

/// The record only changes when a user has been synchronised: then that user's entry alone is
/// replaced, and the very next thing to do is to save the record.
pub proof fn record_changes_with_success_and_is_saved(
    settings: PassSettingsView,
    before: PassView,
    reply: PassReplyView,
    after: PassView,
    step: PassStep,
)
    requires
        pass_advances(settings, before, reply, after),
        is_step_of(settings, after, step),
        after.manifest != before.manifest,
    ensures
        step is SaveManifest,
        before.phase is Users,
        ({
            let user = before.phase->Users_users[0];
            exists|desired: Set<Seq<char>>| #[trigger]
                with_record(before.manifest, settings.kc_realm, user.username, desired)
                    == after.manifest
        }),
{
}

/// Nothing but the attempt to save gets a pass past the saving of its record.
pub proof fn saving_comes_before_the_next_user(
    settings: PassSettingsView,
    before: PassView,
    reply: PassReplyView,
    after: PassView,
)
    requires
        before.phase is Saving,
        pass_advances(settings, before, reply, after),
    ensures
        after.manifest == before.manifest,
        !(reply is Saved) ==> after == before,
{
}

/// A failure in the synchronisation of one user leaves the record alone and the pass goes on
/// with the next user.
pub proof fn failed_user_is_passed_over(
    settings: PassSettingsView,
    before: PassView,
    reply: UserReplyView,
    after: PassView,
)
    requires
        before.phase is Users,
        pass_advances(settings, before, PassReplyView::User(reply), after),
        user_advanced(
            before.phase->Users_phase,
            before.phase->Users_users[0].username,
            settings.role_map,
            recorded(
                before.manifest,
                settings.kc_realm,
                before.phase->Users_users[0].username,
            ),
            reply,
        ) is Failed,
    ensures
        after == (PassView {
            manifest: before.manifest,
            phase: users_begun(before.phase->Users_users.skip(1)),
        }),
{
}

/// A failure while the groups are read ends the pass with that error, before any user is
/// touched.
pub proof fn failed_discovery_ends_the_pass(
    settings: PassSettingsView,
    before: PassView,
    error: CambiumErrorView,
    after: PassView,
)
    requires
        ({
            ||| before.phase is Groups && pass_advances(
                settings,
                before,
                PassReplyView::Groups(Err(error)),
                after,
            )
            ||| before.phase is Walking && before.phase->Walking_0.waiting is Children
                && pass_advances(settings, before, PassReplyView::Groups(Err(error)), after)
            ||| before.phase is Walking && before.phase->Walking_0.waiting is Members
                && pass_advances(settings, before, PassReplyView::Users(Err(error)), after)
        }),
    ensures
        after == (PassView { manifest: before.manifest, phase: PassPhaseView::Ended(Err(error)) }),
{
}

/// Whether an answer is of the kind that the state of a user's synchronisation asks for.
pub open spec fn answers(phase: UserPhaseView, reply: UserReplyView) -> bool {
    match phase {
        UserPhaseView::Roles => reply is Roles,
        UserPhaseView::Lookup { desired } => reply is Found,
        UserPhaseView::Create { desired } => reply is Done,
        UserPhaseView::Update { desired, user, roles } => reply is Done,
        _ => false,
    }
}

/// A bound on the number of answers that a pass still needs once the users are known.
pub open spec fn answers_left(phase: PassPhaseView) -> int {
    match phase {
        PassPhaseView::Users { users, phase } => 5 * users.len() - 5 + match phase {
            UserPhaseView::Roles => 4int,
            UserPhaseView::Lookup { desired } => 3int,
            _ => 2int,
        },
        PassPhaseView::Saving { users } => 5 * users.len() as int + 1,
        _ => 0,
    }
}

/// Once the users are known every fitting answer brings the pass nearer to its end, so the pass
/// ends.
pub proof fn answers_bring_the_pass_to_its_end(
    settings: PassSettingsView,
    before: PassView,
    reply: PassReplyView,
    after: PassView,
)
    requires
        pass_invariant(settings, before),
        pass_advances(settings, before, reply, after),
        match (before.phase, reply) {
            (PassPhaseView::Users { users, phase }, PassReplyView::User(answer)) => answers(
                phase,
                answer,
            ),
            (PassPhaseView::Saving { users }, PassReplyView::Saved(result)) => true,
            _ => false,
        },
    ensures
        after.phase is Users || after.phase is Saving || after.phase == PassPhaseView::Ended(
            Ok(()),
        ),
        0 <= answers_left(after.phase) < answers_left(before.phase),
{
}

/// Every request is the one that the pass stands at and concerns the group, the role or the user
/// at hand: Keycloak is asked by ids, Nexus by usernames, a new account carries the username in
/// all places and starts out active, and an update leaves everything but the roles as Nexus
/// reported it.
pub proof fn requests_concern_what_is_at_hand(
    settings: PassSettings,
    pass: PassView,
    step: PassStep,
)
    requires
        pass_invariant(settings@, pass),
        is_step_of(settings@, pass, step),
    ensures
        match step {
            PassStep::ListGroups => pass.phase is Groups,
            PassStep::GroupMembers(id) => {
                &&& pass.phase matches PassPhaseView::Walking(walk)
                &&& walk.waiting == WalkStepView::Members(id@)
            },
            PassStep::GroupChildren(id) => {
                &&& pass.phase matches PassPhaseView::Walking(walk)
                &&& walk.waiting == WalkStepView::Children(id@)
            },
            PassStep::RoleUsers(role) => {
                &&& pass.phase matches PassPhaseView::Roles { members, roles }
                &&& roles.len() > 0
                &&& role@ == roles[0]
            },
            PassStep::EffectiveRoles(id) => {
                &&& pass.phase matches PassPhaseView::Users { users, phase }
                &&& id@ == users[0].id
                &&& users[0].enabled
            },
            PassStep::GetUser(username) => {
                &&& pass.phase matches PassPhaseView::Users { users, phase }
                &&& username@ == users[0].username
            },
            PassStep::CreateUser(body) => {
                &&& pass.phase matches PassPhaseView::Users { users, phase }
                &&& body.user.user_id@ == users[0].username
                &&& body.user.first_name@ == users[0].username
                &&& body.user.last_name@ == "(cambium)"@
                &&& body.user.email_address@ == email_address(
                    users[0].username,
                    settings.fallback_email_domain@,
                )
                &&& body.status@ == "active"@
                &&& body.user.password@.len() == 64
                &&& users[0].enabled
            },
            PassStep::SetUserRoles(body) => {
                &&& pass.phase matches PassPhaseView::Users { users, phase }
                &&& phase matches UserPhaseView::Update { desired, user, roles }
                &&& body.user_id@ == users[0].username
                &&& body.first_name@ == user.first_name
                &&& body.last_name@ == user.last_name
                &&& body.email_address@ == user.email_address
                &&& body.source@ == user.source
                &&& body.status@ == user.status
                &&& views(body.roles@).to_set() == roles
            },
            PassStep::SaveManifest => pass.phase is Saving,
            PassStep::Finished => pass.phase is Ended,
        },
{
}

/// A disabled user is owed nothing: no roles are asked for and no account is created, and an
/// update takes away exactly what is on record for the user.
pub proof fn disabled_users_only_lose_recorded_roles(
    settings: PassSettings,
    pass: PassView,
    step: PassStep,
    role: Seq<char>,
)
    requires
        pass_invariant(settings@, pass),
        is_step_of(settings@, pass, step),
        pass.phase is Users,
        !pass.phase->Users_users[0].enabled,
    ensures
        step is GetUser || step is SetUserRoles,
        step matches PassStep::SetUserRoles(body) ==> views(body.roles@).contains(role) == (
        pass.phase->Users_phase->Update_user.roles.contains(role) && !recorded(
            pass.manifest,
            settings.kc_realm@,
            body.user_id@,
        ).contains(role)),
{
    if step is SetUserRoles {
        let body = step->SetUserRoles_0;
        let roles = pass.phase->Users_phase->Update_user.roles;
        assert(views(body.roles@).to_set().contains(role) == views(body.roles@).contains(role));
        assert(roles.to_set().contains(role) == roles.contains(role));
    }
}

/// What becomes of the first user decides what follows. Where the user is synchronised, the roles
/// that are owed are recorded under the realm and the username, and nothing else is, and the
/// record is saved before the next user is taken up. A skipped user leaves the record as it is; a
/// failed one also does, and the next user is taken up at once. Until one of these is reached the
/// pass stays with the user.
pub proof fn users_are_dealt_with_one_by_one(
    settings: PassSettings,
    before: PassView,
    reply: UserReply,
    after: PassView,
)
    requires
        before.phase is Users,
        pass_advances(settings@, before, PassReply::User(reply)@, after),
    ensures
        ({
            let users = before.phase->Users_users;
            let key = settings.kc_realm@ + seq!['/'] + users[0].username;
            let next = user_advanced(
                before.phase->Users_phase,
                users[0].username,
                settings.role_map@,
                recorded(before.manifest, settings.kc_realm@, users[0].username),
                reply@,
            );
            match next {
                UserPhaseView::Synced { desired } => {
                    &&& after.manifest == before.manifest.insert(key, desired)
                    &&& after.phase == (PassPhaseView::Saving { users: users.skip(1) })
                },
                UserPhaseView::Skipped => {
                    &&& after.manifest == before.manifest
                    &&& after.phase == (PassPhaseView::Saving { users: users.skip(1) })
                },
                UserPhaseView::Failed(e) => {
                    &&& after.manifest == before.manifest
                    &&& begins_with(after.phase, users.skip(1))
                },
                _ => {
                    &&& after.manifest == before.manifest
                    &&& after.phase == (PassPhaseView::Users { users, phase: next })
                },
            }
        }),
{
    reveal_strlit("/");
    assert("/"@ =~= seq!['/']);
}

/// Once the record has been written, or could not be, the next user is taken up; behind the last
/// one the pass ends well.
pub proof fn next_user_follows_the_saving(
    settings: PassSettings,
    before: PassView,
    result: CambiumResult<()>,
    after: PassView,
)
    requires
        before.phase is Saving,
        pass_advances(settings@, before, PassReply::Saved(result)@, after),
    ensures
        after.manifest == before.manifest,
        begins_with(after.phase, before.phase->Saving_users),
{
}

/// Whether an answer is of the kind that a pass waits for.
pub open spec fn is_awaited(phase: PassPhaseView, reply: PassReplyView) -> bool {
    match phase {
        PassPhaseView::Groups => reply is Groups,
        PassPhaseView::Walking(walk) => (walk.waiting is Members && reply is Users) || (
        walk.waiting is Children && reply is Groups),
        PassPhaseView::Roles { members, roles } => reply is Users,
        PassPhaseView::Users { users, phase } => reply is User,
        PassPhaseView::Saving { users } => reply is Saved,
        PassPhaseView::Ended(result) => false,
    }
}

/// An answer to something that was not asked changes nothing, and nothing follows the end.
pub proof fn unawaited_answers_change_nothing(
    settings: PassSettingsView,
    before: PassView,
    reply: PassReplyView,
    after: PassView,
)
    requires
        !is_awaited(before.phase, reply),
        pass_advances(settings, before, reply, after),
    ensures
        after == before,
{
}

/// A failure to list the users of a role adds nobody and loses nobody: the pass goes on with the
/// next role.
pub proof fn failed_roles_are_passed_over(
    settings: PassSettingsView,
    before: PassView,
    error: CambiumError,
    after: PassView,
)
    requires
        before.phase is Roles,
        before.phase->Roles_roles.len() > 1,
        pass_advances(settings, before, PassReply::Users(Err(error))@, after),
    ensures
        after == (PassView {
            manifest: before.manifest,
            phase: PassPhaseView::Roles {
                members: before.phase->Roles_members,
                roles: before.phase->Roles_roles.skip(1),
            },
        }),
{
}

/// The answers show what they hold, each item in its place.
pub proof fn answers_show_what_they_hold(
    groups: Vec<KcGroup>,
    users: Vec<KcUser>,
    found: Vec<NexusUser>,
    roles: StringSet,
    error: CambiumError,
    i: int,
)
    ensures
        ({
            let ids = PassReply::Groups(Ok(groups))@->Groups_0->Ok_0;
            &&& PassReply::Groups(Ok(groups))@ is Groups
            &&& PassReply::Groups(Ok(groups))@->Groups_0 is Ok
            &&& ids.len() == groups@.len()
            &&& 0 <= i < groups@.len() ==> ids[i] == groups@[i].id@
        }),
        ({
            let shown = PassReply::Users(Ok(users))@->Users_0->Ok_0;
            &&& PassReply::Users(Ok(users))@ is Users
            &&& PassReply::Users(Ok(users))@->Users_0 is Ok
            &&& shown.len() == users@.len()
            &&& 0 <= i < users@.len() ==> shown[i] == users@[i]@
        }),
        ({
            let shown = UserReply::Found(Ok(found))@->Found_0->Ok_0;
            &&& UserReply::Found(Ok(found))@ is Found
            &&& UserReply::Found(Ok(found))@->Found_0 is Ok
            &&& shown.len() == found@.len()
            &&& 0 <= i < found@.len() ==> shown[i] == found@[i]@
        }),
        UserReply::Roles(Ok(roles))@ == UserReplyView::Roles(Ok(roles@)),
        PassReply::Groups(Err(error))@ == PassReplyView::Groups(Err(error@)),
        PassReply::Users(Err(error))@ == PassReplyView::Users(Err(error@)),
        UserReply::Roles(Err(error))@ == UserReplyView::Roles(Err(error@)),
        UserReply::Found(Err(error))@ == UserReplyView::Found(Err(error@)),
        UserReply::Done(Err(error))@ == UserReplyView::Done(Err(error@)),
        UserReply::Done(Ok(()))@ == UserReplyView::Done(Ok(())),
        PassReply::User(UserReply::Done(Err(error)))@ == PassReplyView::User(
            UserReplyView::Done(Err(error@)),
        ),
{
}

/// The settings of a pass show their texts and collections.
pub proof fn pass_settings_show_their_texts(settings: PassSettings)
    ensures
        settings@.kc_realm == settings.kc_realm@,
        settings@.role_map == settings.role_map@,
        settings@.fallback_email_domain == settings.fallback_email_domain@,
        settings@.reserved_usernames == settings.reserved_usernames@,
{
}

} // verus!
