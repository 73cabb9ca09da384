//! The synchronisation of one user, from the roles in Keycloak to those in Nexus.

use crate::error::{CambiumError, CambiumErrorView, CambiumResult};
use crate::nexus::{
    exact_match, first_exact_match_is_picked, first_with_id, partial_matches_are_not_picked,
    NewNexusUser, NexusUser, NexusUserView,
};
use crate::string_map::StringMap;
use crate::string_set::StringSet;
use crate::sync::{
    email_address, map_to_nexus_roles, mapped_roles, nothing_desired_revokes_what_was_granted,
    reconcile_roles, reconciled, reconciling_twice_changes_nothing, resolve_email_address,
    ReconcileInput,
};
use crate::text::views;
use vstd::prelude::*;

verus! {

/// How far the synchronisation of a user has come. The first four wait for an answer, the other
/// three end it.
#[derive(Debug)]
pub enum UserPhase {
    /// For the user's effective roles in Keycloak.
    Roles,
    /// For the search for the user in Nexus. `desired` holds the roles that Keycloak justifies.
    Lookup { desired: StringSet },
    /// For the creation of the user.
    Create { desired: StringSet },
    /// For the replacement of the user's roles by `roles`.
    Update { desired: StringSet, user: NexusUser, roles: StringSet },
    /// Nexus holds what it should; `desired` is to be recorded as granted.
    Synced { desired: StringSet },
    /// The user is unknown to Nexus and is owed nothing; nothing is to be recorded.
    Skipped,
    /// Something went wrong; nothing is to be recorded.
    Failed(CambiumError),
}

/// A `UserPhase` with its sets and texts.
pub enum UserPhaseView {
    Roles,
    Lookup { desired: Set<Seq<char>> },
    Create { desired: Set<Seq<char>> },
    Update { desired: Set<Seq<char>>, user: NexusUserView, roles: Set<Seq<char>> },
    Synced { desired: Set<Seq<char>> },
    Skipped,
    Failed(CambiumErrorView),
}

impl View for UserPhase {
    type V = UserPhaseView;

    open spec fn view(&self) -> UserPhaseView {
        match *self {
            UserPhase::Roles => UserPhaseView::Roles,
            UserPhase::Lookup { desired } => UserPhaseView::Lookup { desired: desired@ },
            UserPhase::Create { desired } => UserPhaseView::Create { desired: desired@ },
            UserPhase::Update { desired, user, roles } => UserPhaseView::Update {
                desired: desired@,
                user: user@,
                roles: roles@,
            },
            UserPhase::Synced { desired } => UserPhaseView::Synced { desired: desired@ },
            UserPhase::Skipped => UserPhaseView::Skipped,
            UserPhase::Failed(e) => UserPhaseView::Failed(e@),
        }
    }
}

/// An answer to what a phase waits for.
#[derive(Debug)]
pub enum UserReply {
    /// The user's effective roles in Keycloak.
    Roles(CambiumResult<StringSet>),
    /// What the search in Nexus returned.
    Found(CambiumResult<Vec<NexusUser>>),
    /// Whether the creation or the replacement went through.
    Done(CambiumResult<()>),
}

/// A `UserReply` with its sets and texts.
pub enum UserReplyView {
    Roles(Result<Set<Seq<char>>, CambiumErrorView>),
    Found(Result<Seq<NexusUserView>, CambiumErrorView>),
    Done(Result<(), CambiumErrorView>),
}

impl View for UserReply {
    type V = UserReplyView;

    open spec fn view(&self) -> UserReplyView {
        match *self {
            UserReply::Roles(Ok(roles)) => UserReplyView::Roles(Ok(roles@)),
            UserReply::Roles(Err(e)) => UserReplyView::Roles(Err(e@)),
            UserReply::Found(Ok(users)) => UserReplyView::Found(Ok(views(users@))),
            UserReply::Found(Err(e)) => UserReplyView::Found(Err(e@)),
            UserReply::Done(Ok(done)) => UserReplyView::Done(Ok(())),
            UserReply::Done(Err(e)) => UserReplyView::Done(Err(e@)),
        }
    }
}

/// Where the synchronisation of a user starts. A user who is disabled in Keycloak is owed
/// nothing, whatever roles Keycloak lists.
pub open spec fn user_begun(enabled: bool) -> UserPhaseView {
    if enabled {
        UserPhaseView::Roles
    } else {
        UserPhaseView::Lookup { desired: Set::empty() }
    }
}

/// What follows once it is known whether the user exists in Nexus. `granted` holds the roles on
/// record for the user.
pub open spec fn user_looked_up(
    desired: Set<Seq<char>>,
    granted: Set<Seq<char>>,
    found: Option<NexusUserView>,
) -> UserPhaseView {
    match found {
        None => if desired == Set::<Seq<char>>::empty() {
            UserPhaseView::Skipped
        } else {
            UserPhaseView::Create { desired }
        },
        Some(user) => {
            let current = user.roles.to_set();
            let roles = reconciled(desired, granted, current);
            if roles == current {
                UserPhaseView::Synced { desired }
            } else {
                UserPhaseView::Update { desired, user, roles }
            }
        },
    }
}

/// What follows an answer. An answer to something that was not asked changes nothing. Someone
/// else having created the user in the meantime is no failure: the next pass finds the user.
pub open spec fn user_advanced(
    phase: UserPhaseView,
    username: Seq<char>,
    role_map: Map<Seq<char>, Seq<char>>,
    granted: Set<Seq<char>>,
    reply: UserReplyView,
) -> UserPhaseView {
    match (phase, reply) {
        (UserPhaseView::Roles, UserReplyView::Roles(Ok(effective))) => UserPhaseView::Lookup {
            desired: mapped_roles(effective, role_map),
        },
        (UserPhaseView::Roles, UserReplyView::Roles(Err(e))) => UserPhaseView::Failed(e),
        (UserPhaseView::Lookup { desired }, UserReplyView::Found(Ok(users))) => user_looked_up(
            desired,
            granted,
            first_with_id(users, username),
        ),
        (UserPhaseView::Lookup { desired }, UserReplyView::Found(Err(e))) => {
            UserPhaseView::Failed(e)
        },
        (UserPhaseView::Create { desired }, UserReplyView::Done(Ok(done))) => {
            UserPhaseView::Synced { desired }
        },
        (UserPhaseView::Create { desired }, UserReplyView::Done(Err(e))) => if e
            is NexusUserAlreadyExists {
            UserPhaseView::Synced { desired }
        } else {
            UserPhaseView::Failed(e)
        },
        (UserPhaseView::Update { desired, user, roles }, UserReplyView::Done(Ok(done))) => {
            UserPhaseView::Synced { desired }
        },
        (UserPhaseView::Update { desired, user, roles }, UserReplyView::Done(Err(e))) => {
            UserPhaseView::Failed(e)
        },
        _ => phase,
    }
}

/// Starts the synchronisation of a user.
pub fn begin_user(enabled: bool) -> (r: UserPhase)
    ensures
        r@ == user_begun(enabled),
{
    if enabled {
        UserPhase::Roles
    } else {
        UserPhase::Lookup { desired: StringSet::new() }
    }
}

/// Decides what follows the search for a user in Nexus.
fn look_up(desired: StringSet, granted: StringSet, found: Option<NexusUser>) -> (r: UserPhase)
    ensures
        r@ == user_looked_up(
            desired@,
            granted@,
            match found {
                Some(user) => Some(user@),
                None => None,
            },
        ),
{
    match found {
        None => if desired.is_empty() {
            UserPhase::Skipped
        } else {
            UserPhase::Create { desired }
        },
        Some(user) => {
            let outcome = reconcile_roles(
                &ReconcileInput {
                    desired_managed_roles: desired.clone(),
                    last_synced_roles: granted,
                    current_nexus_roles: StringSet::from_vec(&user.roles),
                },
            );
            if outcome.changed {
                UserPhase::Update { desired, user, roles: outcome.new_roles }
            } else {
                UserPhase::Synced { desired }
            }
        },
    }
}

/// Takes an answer. `granted` holds the roles on record for the user.
pub fn advance_user(
    phase: UserPhase,
    username: &str,
    role_map: &StringMap<String>,
    granted: StringSet,
    reply: UserReply,
) -> (r: UserPhase)
    ensures
        r@ == user_advanced(phase@, username@, role_map@, granted@, reply@),
{
    match (phase, reply) {
        (UserPhase::Roles, UserReply::Roles(Ok(effective))) => UserPhase::Lookup {
            desired: map_to_nexus_roles(&effective, role_map),
        },
        (UserPhase::Roles, UserReply::Roles(Err(e))) => UserPhase::Failed(e),
        (UserPhase::Lookup { desired }, UserReply::Found(Ok(users))) => look_up(
            desired,
            granted,
            exact_match(users, username),
        ),
        (UserPhase::Lookup { .. }, UserReply::Found(Err(e))) => UserPhase::Failed(e),
        (UserPhase::Create { desired }, UserReply::Done(Ok(_))) => UserPhase::Synced { desired },
        (UserPhase::Create { desired }, UserReply::Done(Err(e))) => match e {
            CambiumError::NexusUserAlreadyExists(_) => UserPhase::Synced { desired },
            other => UserPhase::Failed(other),
        },
        (UserPhase::Update { desired, .. }, UserReply::Done(Ok(_))) => UserPhase::Synced {
            desired,
        },
        (UserPhase::Update { .. }, UserReply::Done(Err(e))) => UserPhase::Failed(e),
        (phase, _) => phase,
    }
}

/// The Nexus account of a user who has none yet. Nexus asks for a first and a last name and for
/// a password, though nobody signs in with it.
pub fn new_nexus_user(
    username: &str,
    fallback_email_domain: &str,
    password: String,
    roles: &StringSet,
) -> (r: NewNexusUser)
    ensures
        r.user_id@ == username@,
        r.first_name@ == username@,
        r.last_name@ == "(cambium)"@,
        r.email_address@ == email_address(username@, fallback_email_domain@),
        r.password@ == password@,
        views(r.roles@).to_set() == roles@,
        views(r.roles@).no_duplicates(),
{
    NewNexusUser {
        user_id: username.to_owned(),
        first_name: username.to_owned(),
        last_name: "(cambium)".to_owned(),
        email_address: resolve_email_address(username, fallback_email_domain),
        password,
        roles: roles.to_vec(),
    }
}

/// Once Nexus holds the roles a user was given and they are on record, synchronising the user
/// again asks nothing of Nexus.
pub proof fn synced_user_is_left_alone(
    desired: Set<Seq<char>>,
    granted: Set<Seq<char>>,
    before: NexusUserView,
    after: NexusUserView,
)
    requires
        after.roles.to_set() == reconciled(desired, granted, before.roles.to_set()),
    ensures
        user_looked_up(desired, desired, Some(after)) == (UserPhaseView::Synced { desired }),
{
    reconciling_twice_changes_nothing(desired, granted, before.roles.to_set());
}

/// A user who was just created with the desired roles is left alone as well.
pub proof fn created_user_is_left_alone(desired: Set<Seq<char>>, created: NexusUserView)
    requires
        created.roles.to_set() == desired,
    ensures
        user_looked_up(desired, desired, Some(created)) == (UserPhaseView::Synced { desired }),
{
    assert(reconciled(desired, desired, desired) =~= desired);
}

/// A disabled user who exists in Nexus loses exactly the roles on record and keeps the others,
/// without Keycloak being asked for roles.
pub proof fn disabled_user_loses_the_recorded_roles(
    granted: Set<Seq<char>>,
    username: Seq<char>,
    role_map: Map<Seq<char>, Seq<char>>,
    users: Seq<NexusUserView>,
)
    requires
        first_with_id(users, username) is Some,
    ensures
        ({
            let user = first_with_id(users, username)->0;
            let kept = user.roles.to_set().difference(granted);
            let next = user_advanced(
                user_begun(false),
                username,
                role_map,
                granted,
                UserReplyView::Found(Ok(users)),
            );
            if kept == user.roles.to_set() {
                next == UserPhaseView::Synced { desired: Set::empty() }
            } else {
                next == UserPhaseView::Update { desired: Set::empty(), user, roles: kept }
            }
        }),
{
    let user = first_with_id(users, username)->0;
    nothing_desired_revokes_what_was_granted(granted, user.roles.to_set());
}

/// A user who is unknown to Nexus and is owed nothing is not created.
pub proof fn nobody_is_created_without_roles(granted: Set<Seq<char>>)
    ensures
        user_looked_up(Set::empty(), granted, None) is Skipped,
{
}

/// A failure never leads to a record.
pub proof fn failed_answer_records_nothing(
    phase: UserPhaseView,
    username: Seq<char>,
    role_map: Map<Seq<char>, Seq<char>>,
    granted: Set<Seq<char>>,
    reply: UserReplyView,
)
    requires
        !(phase is Synced),
        match reply {
            UserReplyView::Roles(r) => r is Err,
            UserReplyView::Found(r) => r is Err,
            UserReplyView::Done(r) => r is Err && !(r->Err_0 is NexusUserAlreadyExists),
        },
    ensures
        !(user_advanced(phase, username, role_map, granted, reply) is Synced),
{
}

/// An enabled user is owed exactly what the role map makes of the user's roles, and a disabled
/// one nothing.
pub proof fn users_are_owed_what_their_roles_map_to(
    username: Seq<char>,
    role_map: Map<Seq<char>, Seq<char>>,
    granted: Set<Seq<char>>,
    effective: Set<Seq<char>>,
    role: Seq<char>,
)
    ensures
        user_begun(true) is Roles,
        ({
            let next = user_advanced(
                user_begun(true),
                username,
                role_map,
                granted,
                UserReplyView::Roles(Ok(effective)),
            );
            &&& next is Lookup
            &&& next->Lookup_desired.contains(role) == exists|kc_role: Seq<char>| #[trigger]
                effective.contains(kc_role) && role_map.contains_key(kc_role) && role_map[kc_role]
                    == role
        }),
        user_begun(false) is Lookup,
        !user_begun(false)->Lookup_desired.contains(role),
{
}

/// A user whom Nexus knows ends up with the roles that are owed and with those that are not on
/// record as granted, and with no others. Nexus is asked to change the user exactly where this
/// differs from what the user has.
pub proof fn known_users_get_what_they_are_owed(
    desired: Set<Seq<char>>,
    username: Seq<char>,
    role_map: Map<Seq<char>, Seq<char>>,
    granted: Set<Seq<char>>,
    users: Seq<NexusUser>,
    i: int,
    role: Seq<char>,
)
    requires
        0 <= i < users.len(),
        users[i].user_id@ == username,
        forall|j: int| 0 <= j < i ==> (#[trigger] users[j]).user_id@ != username,
    ensures
        ({
            let next = user_advanced(
                UserPhaseView::Lookup { desired },
                username,
                role_map,
                granted,
                UserReplyView::Found(Ok(views(users))),
            );
            let has = views(users[i].roles@).contains(role);
            let is_due = desired.contains(role) || (has && !granted.contains(role));
            &&& match next {
                UserPhaseView::Synced { desired: owed } => owed == desired && has == is_due,
                UserPhaseView::Update { desired: owed, user, roles } => {
                    owed == desired && user == users[i]@ && roles.contains(role) == is_due
                },
                _ => false,
            }
            &&& has != is_due ==> next is Update
        }),
        (forall|other: Seq<char>|
            #![trigger desired.contains(other)]
            views(users[i].roles@).contains(other) == (desired.contains(other) || (views(
                users[i].roles@,
            ).contains(other) && !granted.contains(other)))) ==> user_advanced(
            UserPhaseView::Lookup { desired },
            username,
            role_map,
            granted,
            UserReplyView::Found(Ok(views(users))),
        ) is Synced,
{
    first_exact_match_is_picked(users, i);
    let held = views(users[i].roles@);
    let current = held.to_set();
    assert(users[i]@.roles == held);
    assert forall|other: Seq<char>| #[trigger] current.contains(other) == held.contains(other) by {}
    assert(reconciled(desired, granted, current).contains(role) == (desired.contains(role) || (
    current.contains(role) && !granted.contains(role))));
    if forall|other: Seq<char>|
        #![trigger desired.contains(other)]
        held.contains(other) == (desired.contains(other) || (held.contains(other)
            && !granted.contains(other))) {
        assert forall|other: Seq<char>| #[trigger]
            reconciled(desired, granted, current).contains(other) == current.contains(other) by {
            assert(desired.contains(other) || !desired.contains(other));
        }
        assert(reconciled(desired, granted, current) =~= current);
    }
}

/// A user whom Nexus does not know is created where anything is owed, and otherwise skipped,
/// whatever similar users Nexus knows.
pub proof fn unknown_users_are_created_where_owed(
    desired: Set<Seq<char>>,
    username: Seq<char>,
    role_map: Map<Seq<char>, Seq<char>>,
    granted: Set<Seq<char>>,
    users: Seq<NexusUser>,
    role: Seq<char>,
)
    requires
        forall|j: int| 0 <= j < users.len() ==> (#[trigger] users[j]).user_id@ != username,
    ensures
        ({
            let next = user_advanced(
                UserPhaseView::Lookup { desired },
                username,
                role_map,
                granted,
                UserReplyView::Found(Ok(views(users))),
            );
            &&& desired.contains(role) ==> next == UserPhaseView::Create { desired }
            &&& desired == Set::<Seq<char>>::empty() ==> next is Skipped
        }),
{
    partial_matches_are_not_picked(users, username);
}

/// A change that went through completes the synchronisation with what was owed, and so does an
/// account that someone else has created in the meantime. Any other failure is reported as it
/// came.
pub proof fn answers_complete_or_fail_a_user(
    desired: Set<Seq<char>>,
    user: NexusUserView,
    roles: Set<Seq<char>>,
    username: Seq<char>,
    role_map: Map<Seq<char>, Seq<char>>,
    granted: Set<Seq<char>>,
    e: CambiumError,
)
    ensures
        ({
            let next = |phase: UserPhaseView, reply: UserReply|
                user_advanced(phase, username, role_map, granted, reply@);
            let lookup = UserPhaseView::Lookup { desired };
            let create = UserPhaseView::Create { desired };
            let update = UserPhaseView::Update { desired, user, roles };
            let synced = UserPhaseView::Synced { desired };
            let failed = UserPhaseView::Failed(e@);
            &&& next(create, UserReply::Done(Ok(()))) == synced
            &&& next(update, UserReply::Done(Ok(()))) == synced
            &&& next(create, UserReply::Done(Err(e))) == if e is NexusUserAlreadyExists {
                synced
            } else {
                failed
            }
            &&& next(update, UserReply::Done(Err(e))) == failed
            &&& next(lookup, UserReply::Found(Err(e))) == failed
            &&& next(UserPhaseView::Roles, UserReply::Roles(Err(e))) == failed
        }),
{
}

/// An answer to something that was not asked changes nothing, and nothing follows the end.
pub proof fn unasked_answers_change_nothing(
    phase: UserPhaseView,
    username: Seq<char>,
    role_map: Map<Seq<char>, Seq<char>>,
    granted: Set<Seq<char>>,
    reply: UserReplyView,
)
    requires
        !(phase is Roles && reply is Roles),
        !(phase is Lookup && reply is Found),
        !((phase is Create || phase is Update) && reply is Done),
    ensures
        user_advanced(phase, username, role_map, granted, reply) == phase,
{
}

/// A new account carries the username as its id and first name, gets the roles that are owed,
/// each once, and the password that was drawn for it.
pub proof fn new_accounts_carry_the_username(
    username: &str,
    fallback_email_domain: &str,
    password: String,
    roles: StringSet,
    role: Seq<char>,
    user: NewNexusUser,
)
    requires
        call_ensures(new_nexus_user, (username, fallback_email_domain, password, &roles), user),
    ensures
        user.user_id@ == username@,
        user.first_name@ == username@,
        user.last_name@ == "(cambium)"@,
        user.password@ == password@,
        user.email_address@ == email_address(username@, fallback_email_domain@),
        (exists|i: int| 0 <= i < user.roles@.len() && #[trigger] user.roles@[i]@ == role)
            == roles@.contains(role),
        forall|i: int, j: int|
            0 <= i < j < user.roles@.len() ==> #[trigger] user.roles@[i]@
                != #[trigger] user.roles@[j]@,
{
    let held = views(user.roles@);
    assert forall|i: int, j: int| 0 <= i < j < user.roles@.len() implies #[trigger] user.roles@[i]@
        != #[trigger] user.roles@[j]@ by {
        assert(held[i] == user.roles@[i]@ && held[j] == user.roles@[j]@);
    }
    if roles@.contains(role) {
        assert(held.to_set().contains(role));
        let i = held.index_of(role);
        assert(user.roles@[i]@ == role);
    }
    if exists|i: int| 0 <= i < user.roles@.len() && #[trigger] user.roles@[i]@ == role {
        let i = choose|i: int| 0 <= i < user.roles@.len() && #[trigger] user.roles@[i]@ == role;
        assert(held[i] == role);
        assert(held.to_set().contains(role));
    }
}

} // verus!
