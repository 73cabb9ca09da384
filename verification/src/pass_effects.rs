//! What a pass does to Nexus as a whole, where Keycloak and Nexus answer truthfully and do what
//! they are asked, or say that they cannot.

use crate::error::CambiumErrorView;
use crate::manifest::{keys_tell_users_apart, manifest_key, recorded};
use crate::nexus::{exact_match_has_the_id, first_with_id, NexusUserView};
use crate::pass::{
    pass_advances, users_begun, PassPhaseView, PassReplyView, PassSettingsView, PassView,
    UserTaskView,
};
use crate::pass_discovery::begins_with;
use crate::sync::{mapped_roles, reconciled};
use crate::user_sync::{user_advanced, UserPhaseView, UserReplyView};
use vstd::prelude::*;

verus! {

/// The effective roles in Keycloak by user id.
pub type RolesById = spec_fn(Seq<char>) -> Set<Seq<char>>;

/// The roles in Nexus of every account there is.
pub type Accounts = Map<Seq<char>, Set<Seq<char>>>;

/// A pass and the accounts in Nexus at one moment.
pub struct Moment {
    pub pass: PassView,
    pub accounts: Accounts,
}

/// Whether a search that returned `users` tells the truth about an account.
pub open spec fn shows(users: Seq<NexusUserView>, accounts: Accounts, username: Seq<char>) -> bool {
    match first_with_id(users, username) {
        Some(user) => accounts.contains_key(username) && user.roles.to_set() == accounts[username],
        None => !accounts.contains_key(username),
    }
}

/// Whether two maps agree on every key but one.
pub open spec fn differ_only_at(
    a: Map<Seq<char>, Set<Seq<char>>>,
    b: Map<Seq<char>, Set<Seq<char>>>,
    key: Seq<char>,
) -> bool {
    forall|other: Seq<char>| other != key ==> #[trigger] same_entry(a, b, other)
}

/// Whether one moment follows another once the users are known. What the pass asks for is
/// answered truthfully and what it has done is done, or the answer is a failure. A question that
/// fails changes nothing; of a creation or an update that fails it is left open what became of
/// the account in question, and no other account changes.
pub open spec fn follows(
    settings: PassSettingsView,
    roles_of: RolesById,
    before: Moment,
    reply: PassReplyView,
    after: Moment,
) -> bool {
    &&& pass_advances(settings, before.pass, reply, after.pass)
    &&& match (before.pass.phase, reply) {
        (PassPhaseView::Users { users, phase }, PassReplyView::User(answer)) => match (
            phase,
            answer,
        ) {
            (UserPhaseView::Roles, UserReplyView::Roles(answered)) => {
                &&& answered matches Ok(roles) ==> roles == roles_of(users[0].id)
                &&& after.accounts == before.accounts
            },
            (UserPhaseView::Lookup { desired }, UserReplyView::Found(answered)) => {
                &&& answered matches Ok(found) ==> shows(
                    found,
                    before.accounts,
                    users[0].username,
                )
                &&& after.accounts == before.accounts
            },
            (UserPhaseView::Create { desired }, UserReplyView::Done(answered)) => {
                &&& answered is Ok ==> after.accounts == before.accounts.insert(
                    users[0].username,
                    desired,
                )
                &&& differ_only_at(before.accounts, after.accounts, users[0].username)
            },
            (UserPhaseView::Update { desired, user, roles }, UserReplyView::Done(answered)) => {
                &&& answered is Ok ==> after.accounts == before.accounts.insert(
                    user.user_id,
                    roles,
                )
                &&& differ_only_at(before.accounts, after.accounts, user.user_id)
            },
            _ => false,
        },
        (PassPhaseView::Saving { users }, PassReplyView::Saved(result)) => {
            after.accounts == before.accounts
        },
        _ => false,
    }
}

/// Whether the synchronisation of this user fails at a moment.
pub open spec fn fails_at(moment: Moment, reply: PassReplyView, username: Seq<char>) -> bool {
    &&& moment.pass.phase matches PassPhaseView::Users { users, phase }
    &&& users[0].username == username
    &&& match reply {
        PassReplyView::User(UserReplyView::Roles(Err(e))) => true,
        PassReplyView::User(UserReplyView::Found(Err(e))) => true,
        PassReplyView::User(UserReplyView::Done(Err(e))) => !(phase is Create && e
            is NexusUserAlreadyExists),
        _ => false,
    }
}

/// Whether someone else turns out to have created the account of this user at a moment.
pub open spec fn loses_at(moment: Moment, reply: PassReplyView, username: Seq<char>) -> bool {
    &&& moment.pass.phase matches PassPhaseView::Users { users, phase }
    &&& users[0].username == username
    &&& phase is Create
    &&& reply matches PassReplyView::User(UserReplyView::Done(Err(e)))
    &&& e is NexusUserAlreadyExists
}

/// The users whose synchronisation fails in the first `n` answers of a run.
pub open spec fn failed_users(
    moments: Seq<Moment>,
    replies: Seq<PassReplyView>,
    n: int,
) -> Set<Seq<char>> {
    Set::new(
        |username: Seq<char>|
            exists|m: int| 0 <= m < n && fails_at(moments[m], #[trigger] replies[m], username),
    )
}

/// The users whose account turns out to have been created by someone else in the first `n`
/// answers of a run.
pub open spec fn lost_users(
    moments: Seq<Moment>,
    replies: Seq<PassReplyView>,
    n: int,
) -> Set<Seq<char>> {
    Set::new(
        |username: Seq<char>|
            exists|m: int| 0 <= m < n && loses_at(moments[m], #[trigger] replies[m], username),
    )
}

/// The Nexus roles that Keycloak justifies for a user.
pub open spec fn desired_of(
    settings: PassSettingsView,
    roles_of: RolesById,
    user: UserTaskView,
) -> Set<Seq<char>> {
    if user.enabled {
        mapped_roles(roles_of(user.id), settings.role_map)
    } else {
        Set::empty()
    }
}

/// Whether a user has been brought in line, `start` being the moment before: an account that
/// existed has the reconciled roles, one that did not exists exactly where there are roles to
/// give, and the record says what was granted.
pub open spec fn in_line(
    settings: PassSettingsView,
    roles_of: RolesById,
    user: UserTaskView,
    start: Moment,
    end: Moment,
) -> bool {
    let desired = desired_of(settings, roles_of, user);
    let granted = recorded(start.pass.manifest, settings.kc_realm, user.username);
    let key = manifest_key(settings.kc_realm, user.username);
    if start.accounts.contains_key(user.username) {
        &&& end.accounts.contains_key(user.username)
        &&& end.accounts[user.username] == reconciled(
            desired,
            granted,
            start.accounts[user.username],
        )
        &&& end.pass.manifest.contains_key(key)
        &&& end.pass.manifest[key] == desired
    } else if desired == Set::<Seq<char>>::empty() {
        &&& !end.accounts.contains_key(user.username)
        &&& same_entry(start.pass.manifest, end.pass.manifest, key)
    } else {
        &&& end.accounts.contains_key(user.username)
        &&& end.accounts[user.username] == desired
        &&& end.pass.manifest.contains_key(key)
        &&& end.pass.manifest[key] == desired
    }
}

/// Whether two maps agree on a key.
pub open spec fn same_entry(
    a: Map<Seq<char>, Set<Seq<char>>>,
    b: Map<Seq<char>, Set<Seq<char>>>,
    key: Seq<char>,
) -> bool {
    &&& a.contains_key(key) == b.contains_key(key)
    &&& a.contains_key(key) ==> a[key] == b[key]
}

/// Whether no two of some users have the same username.
pub open spec fn distinct_usernames(users: Seq<UserTaskView>) -> bool {
    forall|i: int, j: int| 0 <= i < j < users.len() ==> users[i].username != users[j].username
}

/// How many of `all` a pass has finished with.
spec fn finished_count(all: Seq<UserTaskView>, phase: PassPhaseView) -> int {
    match phase {
        PassPhaseView::Users { users, phase } => all.len() - users.len(),
        PassPhaseView::Saving { users } => all.len() - users.len(),
        _ => all.len() as int,
    }
}

/// Whether the state of the user being synchronised fits what is known of that user.
spec fn fits(
    settings: PassSettingsView,
    roles_of: RolesById,
    user: UserTaskView,
    phase: UserPhaseView,
    start: Moment,
    now: Moment,
) -> bool {
    let desired_now = desired_of(settings, roles_of, user);
    match phase {
        UserPhaseView::Roles => user.enabled,
        UserPhaseView::Lookup { desired } => desired == desired_now,
        UserPhaseView::Create { desired } => {
            &&& desired == desired_now
            &&& desired != Set::<Seq<char>>::empty()
            &&& !now.accounts.contains_key(user.username)
        },
        UserPhaseView::Update { desired, user: found, roles } => {
            &&& desired == desired_now
            &&& found.user_id == user.username
            &&& now.accounts.contains_key(user.username)
            &&& roles == reconciled(
                desired,
                recorded(start.pass.manifest, settings.kc_realm, user.username),
                now.accounts[user.username],
            )
        },
        _ => false,
    }
}

/// What has become of a user that the pass is finished with. One whose synchronisation failed
/// has the record of before. Of one whose account someone else created the record says what was
/// desired. Every other one is in line.
pub open spec fn is_settled(
    settings: PassSettingsView,
    roles_of: RolesById,
    failed: Set<Seq<char>>,
    lost: Set<Seq<char>>,
    user: UserTaskView,
    start: Moment,
    end: Moment,
) -> bool {
    let key = manifest_key(settings.kc_realm, user.username);
    if failed.contains(user.username) {
        same_entry(start.pass.manifest, end.pass.manifest, key)
    } else if lost.contains(user.username) {
        &&& end.pass.manifest.contains_key(key)
        &&& end.pass.manifest[key] == desired_of(settings, roles_of, user)
    } else {
        in_line(settings, roles_of, user, start, end)
    }
}

/// Whether the phase of a pass fits its having finished with the first `k` users.
spec fn phase_fits(
    settings: PassSettingsView,
    roles_of: RolesById,
    all: Seq<UserTaskView>,
    k: int,
    start: Moment,
    now: Moment,
) -> bool {
    match now.pass.phase {
        PassPhaseView::Users { users, phase } => {
            &&& users == all.skip(k)
            &&& users.len() > 0
            &&& fits(settings, roles_of, users[0], phase, start, now)
        },
        PassPhaseView::Saving { users } => users == all.skip(k),
        PassPhaseView::Ended(result) => result == Ok::<(), CambiumErrorView>(()),
        _ => false,
    }
}

/// Whether the first `k` users are settled, and nothing has yet gone wrong with the others.
spec fn settled_so_far(
    settings: PassSettingsView,
    roles_of: RolesById,
    all: Seq<UserTaskView>,
    k: int,
    failed: Set<Seq<char>>,
    lost: Set<Seq<char>>,
    start: Moment,
    now: Moment,
) -> bool {
    &&& forall|i: int|
        0 <= i < k ==> is_settled(settings, roles_of, failed, lost, #[trigger] all[i], start, now)
    &&& forall|i: int|
        k <= i < all.len() ==> !failed.contains((#[trigger] all[i]).username) && !lost.contains(
            all[i].username,
        )
}

/// Whether nothing has been touched but what belongs to the first `k` users.
spec fn others_untouched(
    settings: PassSettingsView,
    all: Seq<UserTaskView>,
    k: int,
    start: Moment,
    now: Moment,
) -> bool {
    forall|username: Seq<char>|
        (forall|i: int| 0 <= i < k ==> (#[trigger] all[i]).username != username) ==> (
        #[trigger] same_entry(start.accounts, now.accounts, username) && same_entry(
            start.pass.manifest,
            now.pass.manifest,
            manifest_key(settings.kc_realm, username),
        ))
}

/// What holds at every moment: the users that are finished are settled, and nothing else has
/// been touched.
spec fn progress(
    settings: PassSettingsView,
    roles_of: RolesById,
    all: Seq<UserTaskView>,
    failed: Set<Seq<char>>,
    lost: Set<Seq<char>>,
    start: Moment,
    now: Moment,
) -> bool {
    let k = finished_count(all, now.pass.phase);
    &&& 0 <= k <= all.len()
    &&& phase_fits(settings, roles_of, all, k, start, now)
    &&& settled_so_far(settings, roles_of, all, k, failed, lost, start, now)
    &&& others_untouched(settings, all, k, start, now)
}

/// Progress is kept when a user is finished with.
proof fn lemma_one_more(
    settings: PassSettingsView,
    roles_of: RolesById,
    all: Seq<UserTaskView>,
    failed: Set<Seq<char>>,
    lost: Set<Seq<char>>,
    failed_now: Set<Seq<char>>,
    lost_now: Set<Seq<char>>,
    start: Moment,
    before: Moment,
    after: Moment,
)
    requires
        distinct_usernames(all),
        progress(settings, roles_of, all, failed, lost, start, before),
        before.pass.phase is Users,
        ({
            let rest = before.pass.phase->Users_users.skip(1);
            after.pass.phase == (PassPhaseView::Saving { users: rest }) || after.pass.phase
                == users_begun(rest)
        }),
        ({
            let user = before.pass.phase->Users_users[0];
            &&& is_settled(settings, roles_of, failed_now, lost_now, user, start, after)
            &&& forall|username: Seq<char>|
                username != user.username ==> #[trigger] failed_now.contains(username)
                    == failed.contains(username)
            &&& forall|username: Seq<char>|
                username != user.username ==> #[trigger] lost_now.contains(username)
                    == lost.contains(username)
            &&& forall|username: Seq<char>|
                username != user.username ==> (#[trigger] same_entry(
                    before.accounts,
                    after.accounts,
                    username,
                ) && same_entry(
                    before.pass.manifest,
                    after.pass.manifest,
                    manifest_key(settings.kc_realm, username),
                ))
        }),
    ensures
        progress(settings, roles_of, all, failed_now, lost_now, start, after),
{
    let k = finished_count(all, before.pass.phase);
    let users = before.pass.phase->Users_users;
    let user = users[0];
    assert(user == all[k]);
    assert(users.skip(1) =~= all.skip(k + 1));
    assert(finished_count(all, after.pass.phase) == k + 1);
    assert forall|i: int| 0 <= i < k + 1 implies is_settled(
        settings,
        roles_of,
        failed_now,
        lost_now,
        #[trigger] all[i],
        start,
        after,
    ) by {
        if i < k {
            assert(is_settled(settings, roles_of, failed, lost, all[i], start, before));
            assert(all[i].username != user.username);
            assert(same_entry(before.accounts, after.accounts, all[i].username));
        }
    }
    assert forall|i: int| k + 1 <= i < all.len() implies !failed_now.contains(
        (#[trigger] all[i]).username,
    ) && !lost_now.contains(all[i].username) by {
        assert(all[i].username != user.username);
    }
    assert forall|username: Seq<char>|
        (forall|i: int| 0 <= i < k + 1 ==> (#[trigger] all[i]).username != username) implies (
    #[trigger] same_entry(start.accounts, after.accounts, username) && same_entry(
        start.pass.manifest,
        after.pass.manifest,
        manifest_key(settings.kc_realm, username),
    )) by {
        assert(all[k].username != username);
        assert(same_entry(start.accounts, before.accounts, username));
        assert(same_entry(before.accounts, after.accounts, username));
    }
    assert(phase_fits(settings, roles_of, all, k + 1, start, after));
    assert(settled_so_far(settings, roles_of, all, k + 1, failed_now, lost_now, start, after));
    assert(others_untouched(settings, all, k + 1, start, after));
}

/// Progress is kept while nothing but the state of the current user changes.
proof fn lemma_same_user(
    settings: PassSettingsView,
    roles_of: RolesById,
    all: Seq<UserTaskView>,
    failed: Set<Seq<char>>,
    lost: Set<Seq<char>>,
    start: Moment,
    before: Moment,
    after: Moment,
)
    requires
        progress(settings, roles_of, all, failed, lost, start, before),
        before.pass.phase is Users,
        after.pass.phase is Users,
        after.pass.phase->Users_users == before.pass.phase->Users_users,
        fits(
            settings,
            roles_of,
            after.pass.phase->Users_users[0],
            after.pass.phase->Users_phase,
            start,
            after,
        ),
        after.accounts == before.accounts,
        after.pass.manifest == before.pass.manifest,
    ensures
        progress(settings, roles_of, all, failed, lost, start, after),
{
    let k = finished_count(all, before.pass.phase);
    assert forall|i: int| 0 <= i < k implies is_settled(
        settings,
        roles_of,
        failed,
        lost,
        #[trigger] all[i],
        start,
        after,
    ) by {
        assert(is_settled(settings, roles_of, failed, lost, all[i], start, before));
    }
}

/// Every answer keeps the progress.
proof fn lemma_progress(
    settings: PassSettingsView,
    roles_of: RolesById,
    all: Seq<UserTaskView>,
    failed: Set<Seq<char>>,
    lost: Set<Seq<char>>,
    failed_now: Set<Seq<char>>,
    lost_now: Set<Seq<char>>,
    start: Moment,
    before: Moment,
    reply: PassReplyView,
    after: Moment,
)
    requires
        distinct_usernames(all),
        progress(settings, roles_of, all, failed, lost, start, before),
        follows(settings, roles_of, before, reply, after),
        forall|username: Seq<char>| #[trigger]
            failed_now.contains(username) == (failed.contains(username) || fails_at(
                before,
                reply,
                username,
            )),
        forall|username: Seq<char>| #[trigger]
            lost_now.contains(username) == (lost.contains(username) || loses_at(
                before,
                reply,
                username,
            )),
    ensures
        progress(settings, roles_of, all, failed_now, lost_now, start, after),
{
    let k = finished_count(all, before.pass.phase);
    match before.pass.phase {
        PassPhaseView::Users { users, phase } => {
            let user = users[0];
            assert(user == all[k]);
            assert(!failed.contains(all[k].username) && !lost.contains(all[k].username));
            assert forall|i: int| 0 <= i < k implies (#[trigger] all[i]).username
                != user.username by {}
            assert(same_entry(start.accounts, before.accounts, user.username));
            assert forall|username: Seq<char>|
                username != user.username implies #[trigger] manifest_key(
                settings.kc_realm,
                username,
            ) != manifest_key(settings.kc_realm, user.username) by {
                keys_tell_users_apart(
                    settings.kc_realm,
                    username,
                    settings.kc_realm,
                    user.username,
                );
            }
            match reply {
                PassReplyView::User(UserReplyView::Found(Ok(found))) => {
                    exact_match_has_the_id(found, user.username);
                },
                _ => {},
            }
            assert(recorded(before.pass.manifest, settings.kc_realm, user.username) == recorded(
                start.pass.manifest,
                settings.kc_realm,
                user.username,
            ));
            let next = user_advanced(
                phase,
                user.username,
                settings.role_map,
                recorded(before.pass.manifest, settings.kc_realm, user.username),
                reply->User_0,
            );
            if next is Synced || next is Skipped || next is Failed {
                lemma_one_more(
                    settings,
                    roles_of,
                    all,
                    failed,
                    lost,
                    failed_now,
                    lost_now,
                    start,
                    before,
                    after,
                );
            } else {
                assert(failed_now =~= failed);
                assert(lost_now =~= lost);
                lemma_same_user(settings, roles_of, all, failed, lost, start, before, after);
            }
        },
        PassPhaseView::Saving { users } => {
            assert(failed_now =~= failed);
            assert(lost_now =~= lost);
            assert forall|i: int| 0 <= i < k implies is_settled(
                settings,
                roles_of,
                failed,
                lost,
                #[trigger] all[i],
                start,
                after,
            ) by {
                assert(is_settled(settings, roles_of, failed, lost, all[i], start, before));
            }
        },
        _ => {},
    }
}

/// Whether each moment of a run follows the one before it.
pub open spec fn is_run(
    settings: PassSettingsView,
    roles_of: RolesById,
    moments: Seq<Moment>,
    replies: Seq<PassReplyView>,
) -> bool {
    &&& moments.len() == replies.len() + 1
    &&& forall|i: int|
        0 <= i < replies.len() ==> follows(
            settings,
            roles_of,
            moments[i],
            #[trigger] replies[i],
            moments[i + 1],
        )
}

/// Progress is kept along a run.
proof fn lemma_run(
    settings: PassSettingsView,
    roles_of: RolesById,
    all: Seq<UserTaskView>,
    moments: Seq<Moment>,
    replies: Seq<PassReplyView>,
    n: int,
)
    requires
        distinct_usernames(all),
        is_run(settings, roles_of, moments, replies),
        begins_with(moments[0].pass.phase, all),
        0 <= n <= replies.len(),
    ensures
        progress(
            settings,
            roles_of,
            all,
            failed_users(moments, replies, n),
            lost_users(moments, replies, n),
            moments[0],
            moments[n],
        ),
    decreases n,
{
    if n == 0 {
        assert(all.skip(0) =~= all);
    } else {
        let m = n - 1;
        lemma_run(settings, roles_of, all, moments, replies, m);
        assert(follows(settings, roles_of, moments[m], replies[m], moments[n]));
        assert forall|username: Seq<char>| #[trigger]
            failed_users(moments, replies, n).contains(username) == (failed_users(
                moments,
                replies,
                m,
            ).contains(username) || fails_at(moments[m], replies[m], username)) by {
            if failed_users(moments, replies, m).contains(username) {
                let j = choose|j: int|
                    0 <= j < m && fails_at(moments[j], #[trigger] replies[j], username);
                assert(fails_at(moments[j], replies[j], username));
            }
        }
        assert forall|username: Seq<char>| #[trigger]
            lost_users(moments, replies, n).contains(username) == (lost_users(
                moments,
                replies,
                m,
            ).contains(username) || loses_at(moments[m], replies[m], username)) by {
            if lost_users(moments, replies, m).contains(username) {
                let j = choose|j: int|
                    0 <= j < m && loses_at(moments[j], #[trigger] replies[j], username);
                assert(loses_at(moments[j], replies[j], username));
            }
        }
        lemma_progress(
            settings,
            roles_of,
            all,
            failed_users(moments, replies, m),
            lost_users(moments, replies, m),
            failed_users(moments, replies, n),
            lost_users(moments, replies, n),
            moments[0],
            moments[m],
            replies[m],
            moments[n],
        );
    }
}

/// Whatever fails on the way, a pass brings every user in line whose own answers succeeded, and
/// touches no account but those of its users: users who have an account end up with what they
/// had by other means and what Keycloak justifies now, users who have none get one exactly where
/// there is something to give, and the record says of each what was granted. A user whose
/// synchronisation failed has the record of before, and one whose account someone else created
/// in the meantime the record of what was desired.
pub proof fn pass_brings_every_user_in_line(
    settings: PassSettingsView,
    roles_of: RolesById,
    all: Seq<UserTaskView>,
    moments: Seq<Moment>,
    replies: Seq<PassReplyView>,
)
    requires
        distinct_usernames(all),
        is_run(settings, roles_of, moments, replies),
        begins_with(moments[0].pass.phase, all),
        moments.last().pass.phase is Ended,
    ensures
        moments.last().pass.phase == PassPhaseView::Ended(Ok(())),
        forall|i: int|
            0 <= i < all.len() ==> is_settled(
                settings,
                roles_of,
                failed_users(moments, replies, replies.len() as int),
                lost_users(moments, replies, replies.len() as int),
                #[trigger] all[i],
                moments[0],
                moments.last(),
            ),
        forall|username: Seq<char>|
            (forall|i: int| 0 <= i < all.len() ==> (#[trigger] all[i]).username != username) ==> (
            #[trigger] same_entry(moments[0].accounts, moments.last().accounts, username)
                && same_entry(
                moments[0].pass.manifest,
                moments.last().pass.manifest,
                manifest_key(settings.kc_realm, username),
            )),
{
    lemma_run(settings, roles_of, all, moments, replies, replies.len() as int);
}

} // verus!
