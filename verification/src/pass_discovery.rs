//! Whom a pass takes up, where Keycloak answers truthfully or says that it cannot.

use crate::discovery::{
    discovered, merged, walk_advanced, walk_start, walk_with_children, walk_with_members,
    DiscoveredUserView, WalkStepView, WalkView,
};
use crate::discovery_laws::{
    covers, lemma_advanced, lemma_covered, lemma_merged, lemma_visited, reachable,
    reachable_within, remaining, start_satisfies_the_invariant, turn_keeps_the_invariant,
    walk_invariant, GroupTree,
};
use crate::error::CambiumErrorView;
use crate::keycloak::KcUserView;
use crate::outside::unicode_lower;
use crate::pass::{
    follows_discovery, follows_roles, follows_walk, lists_pending, pass_advances, users_begun,
    PassPhaseView, PassReplyView, PassSettingsView, PassView, UserTaskView,
};
use crate::user_sync::UserPhaseView;
use vstd::prelude::*;

verus! {

/// What Keycloak holds: the groups, which of them are top-level, and the users to whom each role
/// is assigned directly.
pub struct Directory {
    pub tree: GroupTree,
    pub roots: Seq<Seq<char>>,
    pub role_users: spec_fn(Seq<char>) -> Seq<KcUserView>,
}

/// Whether a group at any depth has a member with this id and these properties.
pub open spec fn in_a_group(dir: Directory, id: Seq<char>, user: DiscoveredUserView) -> bool {
    exists|g: Seq<char>, i: int|
        #![trigger (dir.tree.members)(g)[i]]
        {
            &&& reachable(dir.tree, dir.roots, g)
            &&& 0 <= i < (dir.tree.members)(g).len()
            &&& (dir.tree.members)(g)[i].id == id
            &&& user.username == (dir.tree.members)(g)[i].username
            &&& user.enabled == ((dir.tree.members)(g)[i].enabled != Some(false))
        }
}

/// Whether one of some roles is assigned directly to a user with this id and these properties.
pub open spec fn has_a_role(
    dir: Directory,
    roles: Set<Seq<char>>,
    id: Seq<char>,
    user: DiscoveredUserView,
) -> bool {
    exists|role: Seq<char>, i: int|
        #![trigger (dir.role_users)(role)[i]]
        {
            &&& roles.contains(role)
            &&& 0 <= i < (dir.role_users)(role).len()
            &&& (dir.role_users)(role)[i].id == id
            &&& user.username == (dir.role_users)(role)[i].username
            &&& user.enabled == ((dir.role_users)(role)[i].enabled != Some(false))
        }
}

/// Whether `members` holds exactly the members of all groups and the users of some roles, each
/// with the properties of one of the entries under their id.
pub open spec fn holds_everyone(
    dir: Directory,
    roles: Set<Seq<char>>,
    members: Map<Seq<char>, DiscoveredUserView>,
) -> bool {
    &&& forall|g: Seq<char>, i: int|
        reachable(dir.tree, dir.roots, g) && 0 <= i < (dir.tree.members)(g).len()
            ==> members.contains_key(#[trigger] (dir.tree.members)(g)[i].id)
    &&& forall|role: Seq<char>, i: int|
        roles.contains(role) && 0 <= i < (dir.role_users)(role).len() ==> members.contains_key(
            #[trigger] (dir.role_users)(role)[i].id,
        )
    &&& forall|id: Seq<char>| #[trigger]
        members.contains_key(id) ==> in_a_group(dir, id, members[id]) || has_a_role(
            dir,
            roles,
            id,
            members[id],
        )
}

/// Whether an answer says what Keycloak holds, or that it could not be asked.
pub open spec fn truthful(dir: Directory, pass: PassView, reply: PassReplyView) -> bool {
    match (pass.phase, reply) {
        (PassPhaseView::Groups, PassReplyView::Groups(answered)) => {
            answered matches Ok(groups) ==> groups == dir.roots
        },
        (PassPhaseView::Walking(walk), PassReplyView::Users(answered)) => {
            &&& walk.waiting matches WalkStepView::Members(g)
            &&& answered matches Ok(users) ==> users == (dir.tree.members)(g)
        },
        (PassPhaseView::Walking(walk), PassReplyView::Groups(answered)) => {
            &&& walk.waiting matches WalkStepView::Children(g)
            &&& answered matches Ok(groups) ==> groups == (dir.tree.children)(g)
        },
        (PassPhaseView::Roles { members, roles }, PassReplyView::Users(answered)) => {
            answered matches Ok(users) ==> users == (dir.role_users)(roles[0])
        },
        _ => false,
    }
}

/// Whether the users of a role are asked for and told.
pub open spec fn role_told(pass: PassView, reply: PassReplyView, role: Seq<char>) -> bool {
    &&& pass.phase matches PassPhaseView::Roles { members, roles }
    &&& roles[0] == role
    &&& reply matches PassReplyView::Users(Ok(users))
}

/// Whether the users of a role are asked for in vain.
pub open spec fn role_missed(pass: PassView, reply: PassReplyView, role: Seq<char>) -> bool {
    &&& pass.phase matches PassPhaseView::Roles { members, roles }
    &&& roles[0] == role
    &&& reply matches PassReplyView::Users(Err(e))
}

/// The roles whose users are told in the first `n` answers of a search.
pub open spec fn told_roles(
    passes: Seq<PassView>,
    replies: Seq<PassReplyView>,
    n: int,
) -> Set<Seq<char>> {
    Set::new(
        |role: Seq<char>|
            exists|m: int| 0 <= m < n && role_told(passes[m], #[trigger] replies[m], role),
    )
}

/// The roles whose users are asked for in vain in the first `n` answers of a search.
pub open spec fn missed_roles(
    passes: Seq<PassView>,
    replies: Seq<PassReplyView>,
    n: int,
) -> Set<Seq<char>> {
    Set::new(
        |role: Seq<char>|
            exists|m: int| 0 <= m < n && role_missed(passes[m], #[trigger] replies[m], role),
    )
}

/// Whether Keycloak reports this user, with this username and as enabled or not, in a group at
/// any depth or as the holder of one of some roles.
pub open spec fn is_reported(dir: Directory, roles: Set<Seq<char>>, user: UserTaskView) -> bool {
    let shown = DiscoveredUserView { username: user.username, enabled: user.enabled };
    in_a_group(dir, user.id, shown) || has_a_role(dir, roles, user.id, shown)
}

/// Whether a user is among those to be synchronised, or is reported under a reserved name.
pub open spec fn is_accounted_for(
    settings: PassSettingsView,
    dir: Directory,
    roles: Set<Seq<char>>,
    users: Seq<UserTaskView>,
    id: Seq<char>,
) -> bool {
    ||| exists|i: int| 0 <= i < users.len() && (#[trigger] users[i]).id == id
    ||| exists|user: UserTaskView|
        {
            &&& #[trigger] is_reported(dir, roles, user)
            &&& user.id == id
            &&& settings.reserved_usernames.contains(unicode_lower(user.username))
        }
}

/// Whether `users` are exactly the users whom Keycloak reports in the groups and as holders of
/// some roles, each once and as reported, but for those under reserved names.
pub open spec fn are_everyone(
    settings: PassSettingsView,
    dir: Directory,
    roles: Set<Seq<char>>,
    users: Seq<UserTaskView>,
) -> bool {
    &&& forall|i: int, j: int| 0 <= i < j < users.len() ==> users[i].id != users[j].id
    &&& forall|i: int|
        0 <= i < users.len() ==> is_reported(dir, roles, #[trigger] users[i])
            && !settings.reserved_usernames.contains(unicode_lower(users[i].username))
    &&& forall|g: Seq<char>, i: int|
        reachable(dir.tree, dir.roots, g) && 0 <= i < (dir.tree.members)(g).len()
            ==> is_accounted_for(
            settings,
            dir,
            roles,
            users,
            #[trigger] (dir.tree.members)(g)[i].id,
        )
    &&& forall|role: Seq<char>, i: int|
        roles.contains(role) && 0 <= i < (dir.role_users)(role).len() ==> is_accounted_for(
            settings,
            dir,
            roles,
            users,
            #[trigger] (dir.role_users)(role)[i].id,
        )
}

/// Whether a pass is about to synchronise these users: it is over where there are none, and
/// otherwise asks for the roles of the first one, unless that user is disabled and is owed
/// nothing.
pub open spec fn begins_with(phase: PassPhaseView, users: Seq<UserTaskView>) -> bool {
    if users.len() == 0 {
        phase == PassPhaseView::Ended(Ok(()))
    } else {
        phase == (PassPhaseView::Users {
            users,
            phase: if users[0].enabled {
                UserPhaseView::Roles
            } else {
                UserPhaseView::Lookup { desired: Set::empty() }
            },
        })
    }
}

/// Whether a pass is about to synchronise the members of all groups and the users of some roles.
pub open spec fn takes_up_everyone(
    settings: PassSettingsView,
    dir: Directory,
    roles: Set<Seq<char>>,
    phase: PassPhaseView,
) -> bool {
    exists|users: Seq<UserTaskView>| #[trigger]
        are_everyone(settings, dir, roles, users) && begins_with(phase, users)
}

/// What follows the discovery of everyone takes up everyone.
proof fn lemma_takes_up(
    settings: PassSettingsView,
    dir: Directory,
    roles: Set<Seq<char>>,
    members: Map<Seq<char>, DiscoveredUserView>,
    phase: PassPhaseView,
)
    requires
        holds_everyone(dir, roles, members),
        follows_discovery(settings, members, phase),
    ensures
        takes_up_everyone(settings, dir, roles, phase),
{
    let users = choose|users: Seq<UserTaskView>| #[trigger]
        lists_pending(settings, members, users) && phase == users_begun(users);
    assert forall|id: Seq<char>| #[trigger] members.contains_key(id) implies is_accounted_for(
        settings,
        dir,
        roles,
        users,
        id,
    ) by {
        let shown = UserTaskView {
            id,
            username: members[id].username,
            enabled: members[id].enabled,
        };
        assert(is_reported(dir, roles, shown));
    }
    assert forall|i: int| 0 <= i < users.len() implies is_reported(dir, roles, #[trigger] users[i])
        && !settings.reserved_usernames.contains(unicode_lower(users[i].username)) by {
        assert(members.contains_key(users[i].id));
    }
    assert forall|g: Seq<char>, i: int|
        reachable(dir.tree, dir.roots, g) && 0 <= i < (dir.tree.members)(
            g,
        ).len() implies is_accounted_for(
        settings,
        dir,
        roles,
        users,
        #[trigger] (dir.tree.members)(g)[i].id,
    ) by {
        assert(members.contains_key((dir.tree.members)(g)[i].id));
    }
    assert forall|role: Seq<char>, i: int|
        roles.contains(role) && 0 <= i < (dir.role_users)(role).len() implies is_accounted_for(
        settings,
        dir,
        roles,
        users,
        #[trigger] (dir.role_users)(role)[i].id,
    ) by {
        assert(members.contains_key((dir.role_users)(role)[i].id));
    }
    assert(are_everyone(settings, dir, roles, users));
}

/// What holds of a pass while it finds out whom to take up.
spec fn searching(
    settings: PassSettingsView,
    dir: Directory,
    told: Set<Seq<char>>,
    missed: Set<Seq<char>>,
    pass: PassView,
) -> bool {
    match pass.phase {
        PassPhaseView::Groups => {
            &&& told == Set::<Seq<char>>::empty()
            &&& missed == Set::<Seq<char>>::empty()
        },
        PassPhaseView::Walking(walk) => {
            &&& told == Set::<Seq<char>>::empty()
            &&& missed == Set::<Seq<char>>::empty()
            &&& walk_invariant(dir.tree, dir.roots, walk)
            &&& !(walk.waiting is Finished)
        },
        PassPhaseView::Roles { members, roles } => {
            &&& roles.len() > 0
            &&& settings.role_map.dom() == told.union(missed).union(roles.to_set())
            &&& holds_everyone(dir, told, members)
        },
        PassPhaseView::Ended(Err(e)) => true,
        phase => {
            &&& settings.role_map.dom() == told.union(missed)
            &&& takes_up_everyone(settings, dir, told, phase)
        },
    }
}

/// A walk that is over has found the members of all groups.
proof fn lemma_walk_over(dir: Directory, walk: WalkView)
    requires
        walk_invariant(dir.tree, dir.roots, walk),
        walk.waiting is Finished,
        walk.queue.len() == 0,
    ensures
        holds_everyone(dir, Set::empty(), walk.members),
{
    assert forall|g: Seq<char>, i: int|
        reachable(dir.tree, dir.roots, g) && 0 <= i < (dir.tree.members)(
            g,
        ).len() implies walk.members.contains_key(#[trigger] (dir.tree.members)(g)[i].id) by {
        let depth = choose|depth: nat| #[trigger] reachable_within(dir.tree, dir.roots, depth, g);
        lemma_visited(dir.tree, dir.roots, walk, depth, g);
    }
    assert forall|id: Seq<char>| #[trigger] walk.members.contains_key(id) implies in_a_group(
        dir,
        id,
        walk.members[id],
    ) by {
        let (g, i) = choose|g: Seq<char>, i: int|
            #![trigger (dir.tree.members)(g)[i]]
            {
                &&& walk.seen.contains(g)
                &&& 0 <= i < (dir.tree.members)(g).len()
                &&& (dir.tree.members)(g)[i].id == id
                &&& walk.members[id].username == (dir.tree.members)(g)[i].username
                &&& walk.members[id].enabled == ((dir.tree.members)(g)[i].enabled != Some(false))
            };
        assert(reachable(dir.tree, dir.roots, g));
    }
}

/// The users of one more role are added.
proof fn lemma_role_added(
    dir: Directory,
    asked: Set<Seq<char>>,
    role: Seq<char>,
    members: Map<Seq<char>, DiscoveredUserView>,
)
    requires
        holds_everyone(dir, asked, members),
    ensures
        holds_everyone(dir, asked.insert(role), merged(members, (dir.role_users)(role))),
{
    let users = (dir.role_users)(role);
    let more = merged(members, users);
    let roles = asked.insert(role);
    lemma_merged(members, users);
    assert forall|r: Seq<char>, i: int|
        roles.contains(r) && 0 <= i < (dir.role_users)(r).len() implies more.contains_key(
        #[trigger] (dir.role_users)(r)[i].id,
    ) by {
        if r == role {
            assert(users[i] == (dir.role_users)(r)[i]);
        } else {
            assert(members.contains_key((dir.role_users)(r)[i].id));
        }
    }
    assert forall|g: Seq<char>, i: int|
        reachable(dir.tree, dir.roots, g) && 0 <= i < (dir.tree.members)(
            g,
        ).len() implies more.contains_key(#[trigger] (dir.tree.members)(g)[i].id) by {
        assert(members.contains_key((dir.tree.members)(g)[i].id));
    }
    assert forall|id: Seq<char>| #[trigger] more.contains_key(id) implies in_a_group(
        dir,
        id,
        more[id],
    ) || has_a_role(dir, roles, id, more[id]) by {
        if members.contains_key(id) && more[id] == members[id] {
            if !in_a_group(dir, id, members[id]) {
                let (r, i) = choose|r: Seq<char>, i: int|
                    #![trigger (dir.role_users)(r)[i]]
                    {
                        &&& asked.contains(r)
                        &&& 0 <= i < (dir.role_users)(r).len()
                        &&& (dir.role_users)(r)[i].id == id
                        &&& members[id].username == (dir.role_users)(r)[i].username
                        &&& members[id].enabled == ((dir.role_users)(r)[i].enabled != Some(false))
                    };
                assert(roles.contains(r));
            }
        } else {
            let i = choose|i: int|
                0 <= i < users.len() && (#[trigger] users[i]).id == id && discovered(users[i])
                    == more[id];
            assert(roles.contains(role));
            assert((dir.role_users)(role)[i] == users[i]);
        }
    }
}

/// What follows the walk, or the roles that are left, keeps the search in order.
proof fn lemma_after_roles(
    settings: PassSettingsView,
    dir: Directory,
    told: Set<Seq<char>>,
    missed: Set<Seq<char>>,
    members: Map<Seq<char>, DiscoveredUserView>,
    roles: Seq<Seq<char>>,
    pass: PassView,
)
    requires
        settings.role_map.dom() == told.union(missed).union(roles.to_set()),
        holds_everyone(dir, told, members),
        follows_roles(settings, members, roles, pass.phase),
    ensures
        searching(settings, dir, told, missed, pass),
        !(pass.phase matches PassPhaseView::Ended(Err(e))),
{
    if roles.len() == 0 {
        assert(told.union(missed).union(roles.to_set()) =~= told.union(missed));
        lemma_takes_up(settings, dir, told, members, pass.phase);
    }
}

/// What follows a walk keeps the search in order.
proof fn lemma_after_walk(
    settings: PassSettingsView,
    dir: Directory,
    walk: WalkView,
    pass: PassView,
)
    requires
        walk_invariant(dir.tree, dir.roots, walk),
        walk.waiting is Finished ==> walk.queue.len() == 0,
        follows_walk(settings, walk, pass.phase),
    ensures
        searching(settings, dir, Set::empty(), Set::empty(), pass),
        !(pass.phase matches PassPhaseView::Ended(Err(e))),
{
    if walk.waiting is Finished {
        lemma_walk_over(dir, walk);
        let roles = choose|roles: Seq<Seq<char>>|
            roles.no_duplicates() && #[trigger] roles.to_set() == settings.role_map.dom()
                && follows_roles(settings, walk.members, roles, pass.phase);
        let nothing = Set::<Seq<char>>::empty();
        assert(nothing.union(nothing).union(roles.to_set()) =~= roles.to_set());
        lemma_after_roles(settings, dir, nothing, nothing, walk.members, roles, pass);
    }
}

/// Whether an answer is a failure with this error.
pub open spec fn fails_with(reply: PassReplyView, e: CambiumErrorView) -> bool {
    ||| reply == PassReplyView::Groups(Err(e))
    ||| reply == PassReplyView::Users(Err(e))
}

/// Every answer keeps the search in order.
proof fn lemma_searching(
    settings: PassSettingsView,
    dir: Directory,
    told: Set<Seq<char>>,
    missed: Set<Seq<char>>,
    told_now: Set<Seq<char>>,
    missed_now: Set<Seq<char>>,
    before: PassView,
    reply: PassReplyView,
    after: PassView,
)
    requires
        searching(settings, dir, told, missed, before),
        truthful(dir, before, reply),
        pass_advances(settings, before, reply, after),
        forall|role: Seq<char>| #[trigger]
            told_now.contains(role) == (told.contains(role) || role_told(before, reply, role)),
        forall|role: Seq<char>| #[trigger]
            missed_now.contains(role) == (missed.contains(role) || role_missed(
                before,
                reply,
                role,
            )),
    ensures
        searching(settings, dir, told_now, missed_now, after),
        after.manifest == before.manifest,
        after.phase matches PassPhaseView::Ended(Err(e)) ==> fails_with(reply, e) && !(
        before.phase is Roles),
{
    match before.phase {
        PassPhaseView::Groups => {
            assert(told_now =~= Set::<Seq<char>>::empty());
            assert(missed_now =~= Set::<Seq<char>>::empty());
            if reply->Groups_0 is Ok {
                let start = walk_start(dir.roots);
                start_satisfies_the_invariant(dir.tree, dir.roots);
                turn_keeps_the_invariant(dir.tree, dir.roots, start);
                lemma_advanced(start);
                lemma_after_walk(settings, dir, walk_advanced(start), after);
            }
        },
        PassPhaseView::Walking(walk) => {
            assert(told_now =~= Set::<Seq<char>>::empty());
            assert(missed_now =~= Set::<Seq<char>>::empty());
            turn_keeps_the_invariant(dir.tree, dir.roots, walk);
            match (walk.waiting, reply) {
                (WalkStepView::Members(g), PassReplyView::Users(Ok(users))) => {
                    lemma_after_walk(
                        settings,
                        dir,
                        walk_with_members(walk, (dir.tree.members)(g)),
                        after,
                    );
                },
                (WalkStepView::Children(g), PassReplyView::Groups(Ok(groups))) => {
                    let ready = walk_with_children(walk, (dir.tree.children)(g));
                    turn_keeps_the_invariant(dir.tree, dir.roots, ready);
                    lemma_advanced(ready);
                    lemma_after_walk(settings, dir, walk_advanced(ready), after);
                },
                _ => {},
            }
        },
        PassPhaseView::Roles { members, roles } => {
            let role = roles[0];
            let rest = roles.skip(1);
            assert(roles.contains(role));
            assert forall|r: Seq<char>| #[trigger] roles.to_set().contains(r) == (
            rest.to_set().contains(r) || r == role) by {
                if rest.contains(r) {
                    let i = rest.index_of(r);
                    assert(roles[i + 1] == r);
                }
                if roles.contains(r) && r != role {
                    let i = roles.index_of(r);
                    assert(rest[i - 1] == r);
                }
            }
            assert(told.union(missed).union(roles.to_set()) =~= told_now.union(missed_now).union(
                rest.to_set(),
            ));
            match reply->Users_0 {
                Ok(users) => {
                    assert(told_now =~= told.insert(role));
                    lemma_role_added(dir, told, role, members);
                    lemma_after_roles(
                        settings,
                        dir,
                        told_now,
                        missed_now,
                        merged(members, (dir.role_users)(role)),
                        rest,
                        after,
                    );
                },
                Err(e) => {
                    assert(told_now =~= told);
                    lemma_after_roles(settings, dir, told_now, missed_now, members, rest, after);
                },
            }
        },
        _ => {},
    }
}

/// Whether a pass goes from state to state on truthful answers and failures.
pub open spec fn is_search(
    settings: PassSettingsView,
    dir: Directory,
    passes: Seq<PassView>,
    replies: Seq<PassReplyView>,
) -> bool {
    &&& passes.len() == replies.len() + 1
    &&& forall|i: int|
        0 <= i < replies.len() ==> {
            &&& truthful(dir, passes[i], #[trigger] replies[i])
            &&& pass_advances(settings, passes[i], replies[i], passes[i + 1])
        }
}

/// The search is in order at every step.
proof fn lemma_search(
    settings: PassSettingsView,
    dir: Directory,
    passes: Seq<PassView>,
    replies: Seq<PassReplyView>,
    n: int,
)
    requires
        is_search(settings, dir, passes, replies),
        passes[0].phase is Groups,
        0 <= n <= replies.len(),
    ensures
        searching(
            settings,
            dir,
            told_roles(passes, replies, n),
            missed_roles(passes, replies, n),
            passes[n],
        ),
        passes[n].manifest == passes[0].manifest,
        passes[n].phase matches PassPhaseView::Ended(Err(e)) ==> n > 0 && fails_with(
            replies[n - 1],
            e,
        ) && !(passes[n - 1].phase is Roles),
    decreases n,
{
    if n == 0 {
        assert(told_roles(passes, replies, n) =~= Set::<Seq<char>>::empty());
        assert(missed_roles(passes, replies, n) =~= Set::<Seq<char>>::empty());
    } else {
        let m = n - 1;
        lemma_search(settings, dir, passes, replies, m);
        assert(truthful(dir, passes[m], replies[m]));
        assert forall|role: Seq<char>| #[trigger]
            told_roles(passes, replies, n).contains(role) == (told_roles(
                passes,
                replies,
                m,
            ).contains(role) || role_told(passes[m], replies[m], role)) by {
            if told_roles(passes, replies, m).contains(role) {
                let j = choose|j: int|
                    0 <= j < m && role_told(passes[j], #[trigger] replies[j], role);
                assert(role_told(passes[j], replies[j], role));
            }
        }
        assert forall|role: Seq<char>| #[trigger]
            missed_roles(passes, replies, n).contains(role) == (missed_roles(
                passes,
                replies,
                m,
            ).contains(role) || role_missed(passes[m], replies[m], role)) by {
            if missed_roles(passes, replies, m).contains(role) {
                let j = choose|j: int|
                    0 <= j < m && role_missed(passes[j], #[trigger] replies[j], role);
                assert(role_missed(passes[j], replies[j], role));
            }
        }
        lemma_searching(
            settings,
            dir,
            told_roles(passes, replies, m),
            missed_roles(passes, replies, m),
            told_roles(passes, replies, n),
            missed_roles(passes, replies, n),
            passes[m],
            replies[m],
            passes[n],
        );
    }
}

/// A pass takes up everyone it is told of: unless the groups could not be read, the users it
/// goes on to synchronise are, but for reserved ones, exactly the members of all groups at any
/// depth and the users of those mapped roles whose users were told, each once. Every mapped role
/// is asked about, so with no failed lookup that is all of them, and a failed one takes nobody
/// away who is found otherwise. Only a failure to read the groups ends the pass here. Nothing
/// has been recorded until then.
pub proof fn pass_takes_up_everyone(
    settings: PassSettingsView,
    dir: Directory,
    passes: Seq<PassView>,
    replies: Seq<PassReplyView>,
)
    requires
        is_search(settings, dir, passes, replies),
        passes[0].phase is Groups,
        passes.last().phase is Users || passes.last().phase is Ended,
    ensures
        passes.last().manifest == passes[0].manifest,
        match passes.last().phase {
            PassPhaseView::Ended(Err(e)) => {
                &&& replies.len() > 0
                &&& fails_with(replies.last(), e)
                &&& !(passes[replies.len() - 1].phase is Roles)
            },
            phase => {
                let n = replies.len() as int;
                &&& takes_up_everyone(settings, dir, told_roles(passes, replies, n), phase)
                &&& settings.role_map.dom() == told_roles(passes, replies, n).union(
                    missed_roles(passes, replies, n),
                )
            },
        },
{
    lemma_search(settings, dir, passes, replies, replies.len() as int);
}

/// A user of whom every entry in Keycloak says `enabled: false` is never taken up as enabled:
/// nobody asks for the roles of such a user, who is owed nothing.
pub proof fn disabled_users_are_taken_up_as_disabled(
    settings: PassSettingsView,
    dir: Directory,
    roles: Set<Seq<char>>,
    users: Seq<UserTaskView>,
    phase: PassPhaseView,
    k: int,
)
    requires
        are_everyone(settings, dir, roles, users),
        begins_with(phase, users),
        0 <= k < users.len(),
        forall|g: Seq<char>, i: int|
            0 <= i < (dir.tree.members)(g).len() && (#[trigger] (dir.tree.members)(g)[i]).id
                == users[k].id ==> (dir.tree.members)(g)[i].enabled == Some(false),
        forall|role: Seq<char>, i: int|
            0 <= i < (dir.role_users)(role).len() && (#[trigger] (dir.role_users)(role)[i]).id
                == users[k].id ==> (dir.role_users)(role)[i].enabled == Some(false),
    ensures
        !users[k].enabled,
        k == 0 ==> phase == (PassPhaseView::Users {
            users,
            phase: UserPhaseView::Lookup { desired: Set::empty() },
        }),
{
    assert(is_reported(dir, roles, users[k]));
}

/// A bound on the number of answers that a search still needs within a set of groups, `roles`
/// being the number of mapped roles.
spec fn answers_wanted(universe: Set<Seq<char>>, roles: nat, phase: PassPhaseView) -> int {
    match phase {
        PassPhaseView::Groups => 3 * universe.len() as int + roles + 2,
        PassPhaseView::Walking(walk) => remaining(universe, walk) as int + roles + 1,
        PassPhaseView::Roles { members, roles } => roles.len() as int,
        _ => 0,
    }
}

/// What follows a walk needs fewer answers.
proof fn lemma_fewer_after_walk(
    settings: PassSettingsView,
    universe: Set<Seq<char>>,
    walk: WalkView,
    phase: PassPhaseView,
)
    requires
        follows_walk(settings, walk, phase),
    ensures
        0 <= answers_wanted(universe, settings.role_map.dom().len(), phase) <= remaining(
            universe,
            walk,
        ) + settings.role_map.dom().len() + 1,
{
    if walk.waiting is Finished {
        let roles = choose|roles: Seq<Seq<char>>|
            roles.no_duplicates() && #[trigger] roles.to_set() == settings.role_map.dom()
                && follows_roles(settings, walk.members, roles, phase);
        roles.unique_seq_to_set();
    }
}

/// Every answer leaves fewer to be given.
proof fn lemma_fewer(
    settings: PassSettingsView,
    dir: Directory,
    universe: Set<Seq<char>>,
    told: Set<Seq<char>>,
    missed: Set<Seq<char>>,
    before: PassView,
    reply: PassReplyView,
    after: PassView,
)
    requires
        universe.finite(),
        covers(dir.tree, dir.roots, universe),
        searching(settings, dir, told, missed, before),
        truthful(dir, before, reply),
        pass_advances(settings, before, reply, after),
    ensures
        ({
            let roles = settings.role_map.dom().len();
            0 <= answers_wanted(universe, roles, after.phase) < answers_wanted(
                universe,
                roles,
                before.phase,
            )
        }),
{
    match (before.phase, reply) {
        (PassPhaseView::Groups, PassReplyView::Groups(Ok(roots))) => {
            let start = walk_start(dir.roots);
            start_satisfies_the_invariant(dir.tree, dir.roots);
            assert(universe.difference(start.seen) =~= universe);
            lemma_advance_costs(dir, universe, start);
            lemma_fewer_after_walk(settings, universe, walk_advanced(start), after.phase);
        },
        (PassPhaseView::Walking(walk), PassReplyView::Users(Ok(users))) => {
            lemma_fewer_after_walk(settings, universe, walk_with_members(walk, users), after.phase);
        },
        (PassPhaseView::Walking(walk), PassReplyView::Groups(Ok(children))) => {
            let ready = walk_with_children(walk, children);
            turn_keeps_the_invariant(dir.tree, dir.roots, walk);
            lemma_advance_costs(dir, universe, ready);
            lemma_fewer_after_walk(settings, universe, walk_advanced(ready), after.phase);
        },
        _ => {},
    }
}

/// Taking up a group costs no more answers than were reckoned with.
proof fn lemma_advance_costs(dir: Directory, universe: Set<Seq<char>>, walk: WalkView)
    requires
        universe.finite(),
        covers(dir.tree, dir.roots, universe),
        walk_invariant(dir.tree, dir.roots, walk),
        walk.waiting is Finished,
    ensures
        remaining(universe, walk_advanced(walk)) <= remaining(universe, walk),
{
    let next = walk_advanced(walk);
    lemma_advanced(walk);
    if next.waiting is Members {
        let g = next.waiting->Members_0;
        assert(reachable(dir.tree, dir.roots, g));
        let depth = choose|depth: nat| #[trigger] reachable_within(dir.tree, dir.roots, depth, g);
        lemma_covered(dir.tree, dir.roots, universe, depth, g);
        assert(universe.difference(next.seen) =~= universe.difference(walk.seen).remove(g));
    }
}

/// The search of a pass comes to its end: where there are finitely many groups, it takes no more
/// than three answers for each of them, one for each mapped role, and two.
pub proof fn search_comes_to_its_end(
    settings: PassSettingsView,
    dir: Directory,
    universe: Set<Seq<char>>,
    passes: Seq<PassView>,
    replies: Seq<PassReplyView>,
)
    requires
        universe.finite(),
        covers(dir.tree, dir.roots, universe),
        is_search(settings, dir, passes, replies),
        passes[0].phase is Groups,
    ensures
        replies.len() <= 3 * universe.len() + settings.role_map.dom().len() + 2,
{
    lemma_used_up(settings, dir, universe, passes, replies, replies.len() as int);
}

/// Every answer is one of those that were reckoned with.
proof fn lemma_used_up(
    settings: PassSettingsView,
    dir: Directory,
    universe: Set<Seq<char>>,
    passes: Seq<PassView>,
    replies: Seq<PassReplyView>,
    n: int,
)
    requires
        universe.finite(),
        covers(dir.tree, dir.roots, universe),
        is_search(settings, dir, passes, replies),
        passes[0].phase is Groups,
        0 <= n <= replies.len(),
    ensures
        ({
            let roles = settings.role_map.dom().len();
            0 <= answers_wanted(universe, roles, passes[n].phase) <= 3 * universe.len() + roles + 2
                - n
        }),
    decreases n,
{
    if n > 0 {
        let m = n - 1;
        lemma_used_up(settings, dir, universe, passes, replies, m);
        lemma_search(settings, dir, passes, replies, m);
        assert(truthful(dir, passes[m], replies[m]));
        lemma_fewer(
            settings,
            dir,
            universe,
            told_roles(passes, replies, m),
            missed_roles(passes, replies, m),
            passes[m],
            replies[m],
            passes[n],
        );
    }
}

} // verus!
