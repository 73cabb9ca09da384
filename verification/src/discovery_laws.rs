//! What a walk through the group tree finds, whatever the tree looks like.

use crate::discovery::{
    discovered, group_ids, merged, walk_advanced, walk_start, walk_with_children, walk_with_members,
    DiscoveredUserView, WalkStepView, WalkView,
};
use crate::keycloak::{KcGroup, KcUser, KcUserView};
use crate::text::views;
use vstd::prelude::*;

verus! {

/// A tree of groups as Keycloak reports it: the immediate subgroups and the direct members of
/// every group. Nothing keeps it from having cycles.
pub struct GroupTree {
    pub children: spec_fn(Seq<char>) -> Seq<Seq<char>>,
    pub members: spec_fn(Seq<char>) -> Seq<KcUserView>,
}

/// Whether a group is a root or at most `depth` subgroup steps below one.
pub open spec fn reachable_within(
    tree: GroupTree,
    roots: Seq<Seq<char>>,
    depth: nat,
    group: Seq<char>,
) -> bool
    decreases depth,
{
    if depth == 0 {
        roots.contains(group)
    } else {
        ||| reachable_within(tree, roots, (depth - 1) as nat, group)
        ||| exists|parent: Seq<char>|
            #![trigger (tree.children)(parent)]
            reachable_within(tree, roots, (depth - 1) as nat, parent) && (tree.children)(
                parent,
            ).contains(group)
    }
}

/// Whether a group is a root or below one, at any depth.
pub open spec fn reachable(tree: GroupTree, roots: Seq<Seq<char>>, group: Seq<char>) -> bool {
    exists|depth: nat| #[trigger] reachable_within(tree, roots, depth, group)
}

/// One exchange with the walk: its question is answered from the tree, or it takes up the next
/// group.
pub open spec fn turn(tree: GroupTree, walk: WalkView) -> WalkView {
    match walk.waiting {
        WalkStepView::Members(group) => walk_with_members(walk, (tree.members)(group)),
        WalkStepView::Children(group) => walk_with_children(walk, (tree.children)(group)),
        WalkStepView::Finished => walk_advanced(walk),
    }
}

/// The walk after `n` exchanges.
pub open spec fn walked(tree: GroupTree, walk: WalkView, n: nat) -> WalkView
    decreases n,
{
    if n == 0 {
        walk
    } else {
        walked(tree, turn(tree, walk), (n - 1) as nat)
    }
}

/// Whether the walk has nothing left to ask.
pub open spec fn finished(walk: WalkView) -> bool {
    walk.waiting is Finished && walk.queue.len() == 0
}

/// Whether some group of `groups` has a member with this id and these properties.
pub open spec fn has_member(
    tree: GroupTree,
    groups: Set<Seq<char>>,
    id: Seq<char>,
    user: DiscoveredUserView,
) -> bool {
    exists|group: Seq<char>, i: int|
        #![trigger (tree.members)(group)[i]]
        {
            &&& groups.contains(group)
            &&& 0 <= i < (tree.members)(group).len()
            &&& (tree.members)(group)[i].id == id
            &&& user.username == (tree.members)(group)[i].username
            &&& user.enabled == ((tree.members)(group)[i].enabled != Some(false))
        }
}

/// What holds of a walk between any two exchanges.
pub open spec fn walk_invariant(tree: GroupTree, roots: Seq<Seq<char>>, walk: WalkView) -> bool {
    &&& forall|g: Seq<char>| #[trigger] walk.seen.contains(g) ==> reachable(tree, roots, g)
    &&& forall|g: Seq<char>| #[trigger] walk.queue.contains(g) ==> reachable(tree, roots, g)
    &&& forall|g: Seq<char>| #[trigger]
        roots.contains(g) ==> walk.seen.contains(g) || walk.queue.contains(g)
    &&& forall|g: Seq<char>, c: Seq<char>|
        walk.seen.contains(g) && walk.waiting != WalkStepView::Members(g) && walk.waiting
            != WalkStepView::Children(g) && #[trigger] (tree.children)(g).contains(c)
            ==> walk.seen.contains(c) || walk.queue.contains(c)
    &&& walk.waiting matches WalkStepView::Members(g) ==> walk.seen.contains(g)
    &&& walk.waiting matches WalkStepView::Children(g) ==> walk.seen.contains(g)
    &&& forall|g: Seq<char>, i: int|
        walk.seen.contains(g) && walk.waiting != WalkStepView::Members(g) && 0 <= i < (
        tree.members)(g).len() ==> walk.members.contains_key(#[trigger] (tree.members)(g)[i].id)
    &&& forall|id: Seq<char>| #[trigger]
        walk.members.contains_key(id) ==> has_member(tree, walk.seen, id, walk.members[id])
}

/// Who is in a merged batch, and with which properties.
pub proof fn lemma_merged(members: Map<Seq<char>, DiscoveredUserView>, users: Seq<KcUserView>)
    ensures
        forall|id: Seq<char>| #[trigger]
            members.contains_key(id) ==> merged(members, users).contains_key(id),
        forall|i: int|
            0 <= i < users.len() ==> merged(members, users).contains_key(#[trigger] users[i].id),
        forall|id: Seq<char>| #[trigger]
            merged(members, users).contains_key(id) ==> {
                ||| members.contains_key(id) && merged(members, users)[id] == members[id]
                ||| exists|i: int|
                    0 <= i < users.len() && (#[trigger] users[i]).id == id && discovered(users[i])
                        == merged(members, users)[id]
            },
    decreases users.len(),
{
    if users.len() > 0 {
        let rest = users.drop_last();
        let last = users.last();
        lemma_merged(members, rest);
        assert forall|i: int| 0 <= i < users.len() implies merged(members, users).contains_key(
            #[trigger] users[i].id,
        ) by {
            if i < rest.len() {
                assert(rest[i] == users[i]);
            }
        }
        assert forall|id: Seq<char>| #[trigger] merged(members, users).contains_key(id) implies {
            ||| members.contains_key(id) && merged(members, users)[id] == members[id]
            ||| exists|i: int|
                0 <= i < users.len() && (#[trigger] users[i]).id == id && discovered(users[i])
                    == merged(members, users)[id]
        } by {
            if id == last.id {
                assert(users[users.len() - 1] == last);
            } else {
                assert(merged(members, rest).contains_key(id));
                assert(merged(members, users)[id] == merged(members, rest)[id]);
                if !(members.contains_key(id) && merged(members, rest)[id] == members[id]) {
                    let i = choose|i: int|
                        0 <= i < rest.len() && (#[trigger] rest[i]).id == id && discovered(rest[i])
                            == merged(members, rest)[id];
                    assert(users[i] == rest[i]);
                }
            }
        }
    }
}

/// What taking up the next group does to the queue and the visited groups.
pub proof fn lemma_advanced(walk: WalkView)
    requires
        walk.waiting is Finished,
    ensures
        ({
            let next = walk_advanced(walk);
            &&& next.members == walk.members
            &&& forall|g: Seq<char>| #[trigger] next.queue.contains(g) ==> walk.queue.contains(g)
            &&& forall|g: Seq<char>| #[trigger]
                walk.queue.contains(g) ==> next.seen.contains(g) || next.queue.contains(g)
            &&& match next.waiting {
                WalkStepView::Members(g) => {
                    &&& !walk.seen.contains(g)
                    &&& walk.queue.contains(g)
                    &&& next.seen == walk.seen.insert(g)
                },
                WalkStepView::Children(g) => false,
                WalkStepView::Finished => next.seen == walk.seen && next.queue.len() == 0,
            }
        }),
    decreases walk.queue.len(),
{
    if walk.queue.len() > 0 {
        let head = walk.queue[0];
        let rest = walk.queue.skip(1);
        assert(walk.queue =~= seq![head] + rest);
        assert(walk.queue.contains(head));
        assert forall|g: Seq<char>| #[trigger] rest.contains(g) implies walk.queue.contains(g) by {
            let i = rest.index_of(g);
            assert(walk.queue[i + 1] == g);
        }
        assert forall|g: Seq<char>| #[trigger] walk.queue.contains(g) && g
            != head implies rest.contains(g) by {
            let i = walk.queue.index_of(g);
            assert(rest[i - 1] == g);
        }
        if walk.seen.contains(head) {
            lemma_advanced(WalkView { queue: rest, ..walk });
        }
    }
}

/// A root is reachable, and so is every subgroup of a reachable group.
proof fn lemma_reachable(tree: GroupTree, roots: Seq<Seq<char>>)
    ensures
        forall|g: Seq<char>| #[trigger] roots.contains(g) ==> reachable(tree, roots, g),
        forall|g: Seq<char>, c: Seq<char>|
            reachable(tree, roots, g) && #[trigger] (tree.children)(g).contains(c) ==> reachable(
                tree,
                roots,
                c,
            ),
{
    assert forall|g: Seq<char>| #[trigger] roots.contains(g) implies reachable(tree, roots, g) by {
        assert(reachable_within(tree, roots, 0, g));
    }
    assert forall|g: Seq<char>, c: Seq<char>|
        reachable(tree, roots, g) && #[trigger] (tree.children)(g).contains(c) implies reachable(
        tree,
        roots,
        c,
    ) by {
        let depth = choose|depth: nat| #[trigger] reachable_within(tree, roots, depth, g);
        assert(reachable_within(tree, roots, depth + 1, c));
    }
}

/// Every exchange keeps the invariant.
pub proof fn turn_keeps_the_invariant(tree: GroupTree, roots: Seq<Seq<char>>, walk: WalkView)
    requires
        walk_invariant(tree, roots, walk),
    ensures
        walk_invariant(tree, roots, turn(tree, walk)),
{
    let next = turn(tree, walk);
    lemma_reachable(tree, roots);
    match walk.waiting {
        WalkStepView::Members(group) => {
            let users = (tree.members)(group);
            lemma_merged(walk.members, users);
            assert forall|id: Seq<char>| #[trigger] next.members.contains_key(id) implies has_member(
                tree,
                next.seen,
                id,
                next.members[id],
            ) by {
                if !(walk.members.contains_key(id) && next.members[id] == walk.members[id]) {
                    let i = choose|i: int|
                        0 <= i < users.len() && (#[trigger] users[i]).id == id && discovered(
                            users[i],
                        ) == next.members[id];
                    assert((tree.members)(group)[i] == users[i]);
                }
            }
            assert forall|g: Seq<char>, i: int|
                next.seen.contains(g) && next.waiting != WalkStepView::Members(g) && 0 <= i < (
                tree.members)(g).len() implies next.members.contains_key(
                #[trigger] (tree.members)(g)[i].id,
            ) by {
                if g == group {
                    assert(users[i] == (tree.members)(g)[i]);
                }
            }
        },
        WalkStepView::Children(group) => {
            let children = (tree.children)(group);
            assert forall|g: Seq<char>| #[trigger] next.queue.contains(g) == (walk.queue.contains(g)
                || children.contains(g)) by {
                if walk.queue.contains(g) {
                    let i = walk.queue.index_of(g);
                    assert(next.queue[i] == g);
                }
                if children.contains(g) {
                    let i = children.index_of(g);
                    assert(next.queue[walk.queue.len() + i] == g);
                }
                if next.queue.contains(g) {
                    let i = next.queue.index_of(g);
                    if i < walk.queue.len() {
                        assert(walk.queue[i] == g);
                    } else {
                        assert(children[i - walk.queue.len()] == g);
                    }
                }
            }
        },
        WalkStepView::Finished => {
            lemma_advanced(walk);
            assert forall|id: Seq<char>| #[trigger] next.members.contains_key(id) implies has_member(
                tree,
                next.seen,
                id,
                next.members[id],
            ) by {
                let (g, i) = choose|g: Seq<char>, i: int|
                    #![trigger (tree.members)(g)[i]]
                    {
                        &&& walk.seen.contains(g)
                        &&& 0 <= i < (tree.members)(g).len()
                        &&& (tree.members)(g)[i].id == id
                        &&& walk.members[id].username == (tree.members)(g)[i].username
                        &&& walk.members[id].enabled == ((tree.members)(g)[i].enabled != Some(
                            false,
                        ))
                    };
                assert(next.seen.contains(g));
            }
        },
    }
}

/// A walk is about to start from a state that satisfies the invariant.
pub proof fn start_satisfies_the_invariant(tree: GroupTree, roots: Seq<Seq<char>>)
    ensures
        walk_invariant(tree, roots, walk_start(roots)),
{
    lemma_reachable(tree, roots);
}

/// No group is asked about twice: a group that the walk takes up was not visited before and is
/// visited from then on.
pub proof fn no_group_is_taken_up_twice(tree: GroupTree, walk: WalkView)
    ensures
        walk.seen.subset_of(turn(tree, walk).seen),
        walk.waiting is Finished ==> match turn(tree, walk).waiting {
            WalkStepView::Members(group) => !walk.seen.contains(group) && turn(
                tree,
                walk,
            ).seen.contains(group),
            WalkStepView::Children(group) => false,
            WalkStepView::Finished => turn(tree, walk).queue.len() == 0,
        },
{
    if walk.waiting is Finished {
        lemma_advanced(walk);
    }
}

/// Whether a set of groups holds the roots and all their subgroups.
pub open spec fn covers(tree: GroupTree, roots: Seq<Seq<char>>, universe: Set<Seq<char>>) -> bool {
    &&& forall|g: Seq<char>| #[trigger] roots.contains(g) ==> universe.contains(g)
    &&& forall|g: Seq<char>, c: Seq<char>|
        universe.contains(g) && #[trigger] (tree.children)(g).contains(c) ==> universe.contains(c)
}

/// A covering set holds every reachable group.
pub proof fn lemma_covered(
    tree: GroupTree,
    roots: Seq<Seq<char>>,
    universe: Set<Seq<char>>,
    depth: nat,
    group: Seq<char>,
)
    requires
        covers(tree, roots, universe),
        reachable_within(tree, roots, depth, group),
    ensures
        universe.contains(group),
    decreases depth,
{
    if depth > 0 {
        let less = (depth - 1) as nat;
        if reachable_within(tree, roots, less, group) {
            lemma_covered(tree, roots, universe, less, group);
        } else {
            let parent = choose|parent: Seq<char>|
                #![trigger (tree.children)(parent)]
                reachable_within(tree, roots, less, parent) && (tree.children)(parent).contains(
                    group,
                );
            lemma_covered(tree, roots, universe, less, parent);
        }
    }
}

/// How many exchanges a walk can still need within a set of groups.
pub open spec fn remaining(universe: Set<Seq<char>>, walk: WalkView) -> nat {
    3 * universe.difference(walk.seen).len() + match walk.waiting {
        WalkStepView::Members(g) => 2nat,
        WalkStepView::Children(g) => 1nat,
        WalkStepView::Finished => 0nat,
    }
}

/// A finished walk stays as it is.
proof fn lemma_stays_finished(tree: GroupTree, walk: WalkView, n: nat)
    requires
        finished(walk),
    ensures
        walked(tree, walk, n) == walk,
    decreases n,
{
    if n > 0 {
        assert(turn(tree, walk) == walk);
        lemma_stays_finished(tree, walk, (n - 1) as nat);
    }
}

/// A walk within a finite set of groups finishes, and the invariant holds at the end.
proof fn lemma_finishes(
    tree: GroupTree,
    roots: Seq<Seq<char>>,
    universe: Set<Seq<char>>,
    walk: WalkView,
    n: nat,
)
    requires
        universe.finite(),
        covers(tree, roots, universe),
        walk_invariant(tree, roots, walk),
        n > remaining(universe, walk),
    ensures
        finished(walked(tree, walk, n)),
        walk_invariant(tree, roots, walked(tree, walk, n)),
    decreases n,
{
    let next = turn(tree, walk);
    let fewer = (n - 1) as nat;
    turn_keeps_the_invariant(tree, roots, walk);
    if finished(next) {
        lemma_stays_finished(tree, next, fewer);
    } else {
        if walk.waiting is Finished {
            lemma_advanced(walk);
            let group = next.waiting->Members_0;
            let depth = choose|depth: nat| #[trigger]
                reachable_within(tree, roots, depth, group);
            lemma_covered(tree, roots, universe, depth, group);
            assert(universe.difference(next.seen) =~= universe.difference(walk.seen).remove(group));
        }
        lemma_finishes(tree, roots, universe, next, fewer);
    }
}

/// The walk finds everyone: driven against a tree with finitely many groups below the roots, it
/// finishes, having visited exactly the groups at any depth below the roots, and the users it
/// found are exactly the members of those groups, each with the properties of one of the entries
/// under their id.
pub proof fn walk_finds_the_members_of_all_groups(
    tree: GroupTree,
    roots: Seq<Seq<char>>,
    universe: Set<Seq<char>>,
)
    requires
        universe.finite(),
        covers(tree, roots, universe),
    ensures
        ({
            let end = walked(tree, walk_start(roots), 3 * universe.len() + 1);
            &&& finished(end)
            &&& forall|g: Seq<char>| end.seen.contains(g) == #[trigger] reachable(tree, roots, g)
            &&& forall|g: Seq<char>, i: int|
                reachable(tree, roots, g) && 0 <= i < (tree.members)(g).len()
                    ==> end.members.contains_key(#[trigger] (tree.members)(g)[i].id)
            &&& forall|id: Seq<char>| #[trigger]
                end.members.contains_key(id) ==> has_member(tree, end.seen, id, end.members[id])
        }),
{
    let start = walk_start(roots);
    let end = walked(tree, start, 3 * universe.len() + 1);
    start_satisfies_the_invariant(tree, roots);
    assert(universe.difference(start.seen) =~= universe);
    lemma_finishes(tree, roots, universe, start, 3 * universe.len() + 1);
    assert forall|g: Seq<char>| end.seen.contains(g) == #[trigger] reachable(tree, roots, g) by {
        if reachable(tree, roots, g) {
            let depth = choose|depth: nat| #[trigger] reachable_within(tree, roots, depth, g);
            lemma_visited(tree, roots, end, depth, g);
        }
    }
}

/// A finished walk has visited every reachable group.
pub proof fn lemma_visited(
    tree: GroupTree,
    roots: Seq<Seq<char>>,
    end: WalkView,
    depth: nat,
    group: Seq<char>,
)
    requires
        finished(end),
        walk_invariant(tree, roots, end),
        reachable_within(tree, roots, depth, group),
    ensures
        end.seen.contains(group),
    decreases depth,
{
    if depth > 0 {
        let less = (depth - 1) as nat;
        if reachable_within(tree, roots, less, group) {
            lemma_visited(tree, roots, end, less, group);
        } else {
            let parent = choose|parent: Seq<char>|
                #![trigger (tree.children)(parent)]
                reachable_within(tree, roots, less, parent) && (tree.children)(parent).contains(
                    group,
                );
            lemma_visited(tree, roots, end, less, parent);
            assert(!end.queue.contains(group));
        }
    } else {
        assert(!end.queue.contains(group));
    }
}

/// What a merged batch says of an id depends on the batch alone where the batch holds the id, and
/// on what was there before where it does not.
pub proof fn batch_decides_on_its_ids(
    members: Map<Seq<char>, DiscoveredUserView>,
    others: Map<Seq<char>, DiscoveredUserView>,
    users: Seq<KcUserView>,
    id: Seq<char>,
)
    ensures
        if exists|i: int| 0 <= i < users.len() && (#[trigger] users[i]).id == id {
            merged(members, users).contains_key(id) && merged(others, users).contains_key(id)
                && merged(members, users)[id] == merged(others, users)[id]
        } else {
            merged(members, users).contains_key(id) == members.contains_key(id) && (
            members.contains_key(id) ==> merged(members, users)[id] == members[id])
        },
    decreases users.len(),
{
    if users.len() > 0 {
        let rest = users.drop_last();
        batch_decides_on_its_ids(members, others, rest, id);
        assert(users[users.len() - 1] == users.last());
        if exists|i: int| 0 <= i < rest.len() && (#[trigger] rest[i]).id == id {
            let i = choose|i: int| 0 <= i < rest.len() && (#[trigger] rest[i]).id == id;
            assert(users[i] == rest[i]);
        } else if users.last().id != id {
            assert forall|i: int| 0 <= i < users.len() implies (#[trigger] users[i]).id != id by {
                if i < rest.len() {
                    assert(users[i] == rest[i]);
                }
            }
        }
    }
}

/// Users who are found twice are one entry: entering a batch a second time changes nothing.
pub proof fn merging_a_batch_again_changes_nothing(
    members: Map<Seq<char>, DiscoveredUserView>,
    users: Seq<KcUserView>,
)
    ensures
        merged(merged(members, users), users) == merged(members, users),
{
    let once = merged(members, users);
    let twice = merged(once, users);
    assert forall|id: Seq<char>| #[trigger] twice.contains_key(id) == once.contains_key(id) by {
        batch_decides_on_its_ids(members, once, users, id);
        batch_decides_on_its_ids(once, members, users, id);
    }
    assert forall|id: Seq<char>| #[trigger] twice.contains_key(id) implies twice[id]
        == once[id] by {
        batch_decides_on_its_ids(members, once, users, id);
        batch_decides_on_its_ids(once, members, users, id);
    }
    assert(twice =~= once);
}

/// Of every user in a batch the last entry under the user's id counts: the user carries the
/// username that Keycloak gives there, and is enabled exactly where Keycloak does not say
/// `enabled: false` there, whatever the other fields hold and whatever was known before.
pub proof fn last_entry_of_a_user_counts(
    members: Map<Seq<char>, DiscoveredUserView>,
    users: Seq<KcUser>,
    i: int,
)
    requires
        0 <= i < users.len(),
        forall|j: int| i < j < users.len() ==> (#[trigger] users[j]).id@ != users[i].id@,
    ensures
        merged(members, views(users)).contains_key(users[i].id@),
        merged(members, views(users))[users[i].id@].username == users[i].username@,
        merged(members, views(users))[users[i].id@].enabled == (users[i].enabled != Some(false)),
    decreases users.len(),
{
    let all = views(users);
    let rest = users.drop_last();
    assert(all.last() == users.last()@);
    assert(all.drop_last() =~= views(rest));
    if i < users.len() - 1 {
        assert forall|j: int| i < j < rest.len() implies (#[trigger] rest[j]).id@
            != rest[i].id@ by {
            assert(rest[j] == users[j]);
        }
        last_entry_of_a_user_counts(members, rest, i);
        assert(users[users.len() - 1].id@ != users[i].id@);
    }
}

/// Users who do not stand in a batch are as they were before it.
pub proof fn users_outside_a_batch_are_kept(
    members: Map<Seq<char>, DiscoveredUserView>,
    users: Seq<KcUser>,
    id: Seq<char>,
)
    requires
        forall|j: int| 0 <= j < users.len() ==> (#[trigger] users[j]).id@ != id,
    ensures
        merged(members, views(users)).contains_key(id) == members.contains_key(id),
        members.contains_key(id) ==> merged(members, views(users))[id] == members[id],
{
    assert forall|j: int| 0 <= j < views(users).len() implies (#[trigger] views(users)[j]).id
        != id by {
        assert(users[j].id@ != id);
    }
    batch_decides_on_its_ids(members, members, views(users), id);
}

/// The walk goes by the ids of the groups it is given, in their order.
pub proof fn groups_go_by_their_ids(groups: Seq<KcGroup>, i: int)
    requires
        0 <= i < groups.len(),
    ensures
        group_ids(groups).len() == groups.len(),
        group_ids(groups)[i] == groups[i].id@,
{
}

/// The walk goes level by level: subgroups wait behind all groups that are already waiting, and
/// the group that is taken up is the first waiting one that was not visited.
pub proof fn groups_wait_their_turn(tree: GroupTree, walk: WalkView)
    ensures
        walk.waiting is Children ==> walk.queue.is_prefix_of(turn(tree, walk).queue),
        walk.waiting is Finished && turn(tree, walk).waiting is Members ==> exists|i: int|
            {
                &&& 0 <= i < walk.queue.len()
                &&& #[trigger] walk.queue[i] == turn(tree, walk).waiting->Members_0
                &&& forall|j: int| 0 <= j < i ==> walk.seen.contains(#[trigger] walk.queue[j])
                &&& turn(tree, walk).queue == walk.queue.skip(i + 1)
            },
    decreases walk.queue.len(),
{
    let next = turn(tree, walk);
    match walk.waiting {
        WalkStepView::Children(group) => {
            assert(walk.queue =~= next.queue.subrange(0, walk.queue.len() as int));
        },
        WalkStepView::Finished => {
            if next.waiting is Members && walk.queue.len() > 0 {
                let rest = walk.queue.skip(1);
                if walk.seen.contains(walk.queue[0]) {
                    let later = WalkView { queue: rest, ..walk };
                    groups_wait_their_turn(tree, later);
                    let k = choose|k: int|
                        {
                            &&& 0 <= k < rest.len()
                            &&& #[trigger] rest[k] == next.waiting->Members_0
                            &&& forall|j: int| 0 <= j < k ==> walk.seen.contains(#[trigger] rest[j])
                            &&& next.queue == rest.skip(k + 1)
                        };
                    assert(walk.queue[k + 1] == rest[k]);
                    assert forall|j: int| 0 <= j < k + 1 implies walk.seen.contains(
                        #[trigger] walk.queue[j],
                    ) by {
                        if j > 0 {
                            assert(rest[j - 1] == walk.queue[j]);
                        }
                    }
                    assert(walk.queue.skip(k + 2) =~= rest.skip(k + 1));
                } else {
                    assert(walk.queue[0] == next.waiting->Members_0);
                }
            }
        },
        _ => {},
    }
}

} // verus!
