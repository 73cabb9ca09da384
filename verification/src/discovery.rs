//! Finding the users to synchronise: the walk through the tree of Keycloak groups.

use crate::keycloak::{KcGroup, KcUser, KcUserView};
use crate::string_map::StringMap;
use crate::string_set::StringSet;
use crate::text::views;
use vstd::prelude::*;

verus! {

/// A user found in a group or through a role. `enabled` decides whether the user keeps the roles
/// that Cambium granted, so it is carried along.
#[derive(Debug, Clone, PartialEq, Eq)]
pub struct DiscoveredUser {
    pub username: String,
    pub enabled: bool,
}

/// A `DiscoveredUser` with its text.
pub struct DiscoveredUserView {
    pub username: Seq<char>,
    pub enabled: bool,
}

impl View for DiscoveredUser {
    type V = DiscoveredUserView;

    open spec fn view(&self) -> DiscoveredUserView {
        DiscoveredUserView { username: self.username@, enabled: self.enabled }
    }
}

/// What is kept of a Keycloak user. Only an explicit `enabled: false` makes a user disabled.
pub open spec fn discovered(user: KcUserView) -> DiscoveredUserView {
    DiscoveredUserView { username: user.username, enabled: user.enabled != Some(false) }
}

/// `members` with the users of a batch entered under their Keycloak ids, in order.
pub open spec fn merged(
    members: Map<Seq<char>, DiscoveredUserView>,
    users: Seq<KcUserView>,
) -> Map<Seq<char>, DiscoveredUserView>
    decreases users.len(),
{
    if users.len() == 0 {
        members
    } else {
        merged(members, users.drop_last()).insert(users.last().id, discovered(users.last()))
    }
}

/// Enters a batch of users under their Keycloak ids, so that a user who is found twice is one
/// entry.
pub fn merge_users(members: &mut StringMap<DiscoveredUser>, users: Vec<KcUser>)
    ensures
        final(members)@ == merged(old(members)@, views(users@)),
{
    let ghost start = members@;
    let mut i: usize = 0;
    while i < users.len()
        invariant
            i <= users.len(),
            members@ == merged(start, views(users@).take(i as int)),
        decreases users.len() - i,
    {
        let ghost before = members@;
        let enabled = match users[i].enabled {
            Some(flag) => flag,
            None => true,
        };
        members.insert(
            users[i].id.clone(),
            DiscoveredUser { username: users[i].username.clone(), enabled },
        );
        proof {
            let more = views(users@).take(i + 1);
            assert(more.drop_last() == views(users@).take(i as int));
            assert(more.last() == users@[i as int]@);
        }
        i = i + 1;
    }
    assert(views(users@).take(users.len() as int) == views(users@));
}

/// What the walk is waiting for.
#[derive(Debug)]
enum WalkPhase {
    /// Nothing: the next group may be taken.
    Ready,
    /// The members of a group.
    Members(String),
    /// The subgroups of a group.
    Children(String),
}

/// A breadth-first walk through all groups and their subgroups, to any depth. The walk asks for
/// the members and then the subgroups of one group after another; whoever drives it hands back
/// the answers. No group is asked about twice, so the walk ends even on a tree with a cycle.
#[derive(Debug)]
pub struct GroupWalk {
    members: StringMap<DiscoveredUser>,
    seen: StringSet,
    queue: Vec<String>,
    phase: WalkPhase,
}

/// What the walk asks for next.
#[derive(Debug)]
pub enum WalkStep {
    /// The direct members of the group with this id.
    Members(String),
    /// The immediate subgroups of the group with this id.
    Children(String),
    /// Nothing: every group has been visited.
    Finished,
}

/// A `WalkStep` with its text, and what a walk is waiting for.
pub enum WalkStepView {
    Members(Seq<char>),
    Children(Seq<char>),
    Finished,
}

impl View for WalkStep {
    type V = WalkStepView;

    open spec fn view(&self) -> WalkStepView {
        match *self {
            WalkStep::Members(id) => WalkStepView::Members(id@),
            WalkStep::Children(id) => WalkStepView::Children(id@),
            WalkStep::Finished => WalkStepView::Finished,
        }
    }
}

/// The state of a walk: the users found, the groups visited, the groups to visit in order, and
/// what the walk is waiting for (`Finished` where that is nothing).
#[verifier::ext_equal]
pub struct WalkView {
    pub members: Map<Seq<char>, DiscoveredUserView>,
    pub seen: Set<Seq<char>>,
    pub queue: Seq<Seq<char>>,
    pub waiting: WalkStepView,
}

impl View for GroupWalk {
    type V = WalkView;

    closed spec fn view(&self) -> WalkView {
        WalkView {
            members: self.members@,
            seen: self.seen@,
            queue: views(self.queue@),
            waiting: match self.phase {
                WalkPhase::Ready => WalkStepView::Finished,
                WalkPhase::Members(id) => WalkStepView::Members(id@),
                WalkPhase::Children(id) => WalkStepView::Children(id@),
            },
        }
    }
}

/// The ids of some groups.
pub open spec fn group_ids(groups: Seq<KcGroup>) -> Seq<Seq<char>> {
    groups.map_values(|g: KcGroup| g.id@)
}

/// A walk before its first step.
pub open spec fn walk_start(roots: Seq<Seq<char>>) -> WalkView {
    WalkView {
        members: Map::empty(),
        seen: Set::empty(),
        queue: roots,
        waiting: WalkStepView::Finished,
    }
}

/// A walk that takes up the next group that was not visited, unless it waits for an answer.
pub open spec fn walk_advanced(walk: WalkView) -> WalkView
    decreases walk.queue.len(),
{
    if !(walk.waiting is Finished) || walk.queue.len() == 0 {
        walk
    } else if walk.seen.contains(walk.queue[0]) {
        walk_advanced(WalkView { queue: walk.queue.skip(1), ..walk })
    } else {
        WalkView {
            members: walk.members,
            seen: walk.seen.insert(walk.queue[0]),
            queue: walk.queue.skip(1),
            waiting: WalkStepView::Members(walk.queue[0]),
        }
    }
}

/// A walk that is handed the members of the group it asked about.
pub open spec fn walk_with_members(walk: WalkView, users: Seq<KcUserView>) -> WalkView {
    match walk.waiting {
        WalkStepView::Members(id) => WalkView {
            members: merged(walk.members, users),
            waiting: WalkStepView::Children(id),
            ..walk
        },
        _ => walk,
    }
}

/// A walk that is handed the subgroups of the group it asked about.
pub open spec fn walk_with_children(walk: WalkView, children: Seq<Seq<char>>) -> WalkView {
    match walk.waiting {
        WalkStepView::Children(id) => WalkView {
            queue: walk.queue + children,
            waiting: WalkStepView::Finished,
            ..walk
        },
        _ => walk,
    }
}

impl GroupWalk {
    /// A walk from the given top-level groups.
    pub fn new(top_level_groups: &Vec<KcGroup>) -> (r: GroupWalk)
        ensures
            r@ == walk_start(group_ids(top_level_groups@)),
    {
        let mut queue: Vec<String> = Vec::new();
        extend_ids(&mut queue, top_level_groups);
        let r = GroupWalk {
            members: StringMap::new(),
            seen: StringSet::new(),
            queue,
            phase: WalkPhase::Ready,
        };
        assert(r@ =~= walk_start(group_ids(top_level_groups@)));
        r
    }

    /// What to fetch next. A walk that waits for an answer asks for it again.
    pub fn next(&mut self) -> (r: WalkStep)
        ensures
            final(self)@ == walk_advanced(old(self)@),
            r@ == final(self)@.waiting,
    {
        let ghost start = self@;
        match &self.phase {
            WalkPhase::Members(id) => {
                return WalkStep::Members(id.clone());
            },
            WalkPhase::Children(id) => {
                return WalkStep::Children(id.clone());
            },
            WalkPhase::Ready => {},
        }
        while self.queue.len() > 0
            invariant
                start == old(self)@,
                self.phase is Ready,
                walk_advanced(self@) == walk_advanced(start),
            decreases self.queue.len(),
        {
            let ghost before = self@;
            let ghost held = self.queue@;
            let id = self.queue.remove(0);
            assert(views(self.queue@) =~= views(held).skip(1));
            assert(id@ == views(held)[0]);
            if self.seen.insert(id.clone()) {
                self.phase = WalkPhase::Members(id.clone());
                assert(self@ =~= walk_advanced(before));
                return WalkStep::Members(id);
            }
            proof {
                assert(before.seen.insert(id@) =~= before.seen);
                assert(self@ =~= WalkView { queue: before.queue.skip(1), ..before });
            }
        }
        assert(self@.queue.len() == 0);
        WalkStep::Finished
    }

    /// What the walk waits for.
    pub fn waiting(&self) -> (r: WalkStep)
        ensures
            r@ == self@.waiting,
    {
        match &self.phase {
            WalkPhase::Members(id) => WalkStep::Members(id.clone()),
            WalkPhase::Children(id) => WalkStep::Children(id.clone()),
            WalkPhase::Ready => WalkStep::Finished,
        }
    }

    /// Takes the members of the group that `next` asked about. Where it did not ask for members,
    /// nothing changes.
    pub fn on_members(&mut self, users: Vec<KcUser>)
        ensures
            final(self)@ == walk_with_members(old(self)@, views(users@)),
    {
        match &self.phase {
            WalkPhase::Members(id) => {
                let id = id.clone();
                merge_users(&mut self.members, users);
                self.phase = WalkPhase::Children(id);
            },
            _ => {},
        }
    }

    /// Takes the subgroups of the group that `next` asked about. Where it did not ask for
    /// subgroups, nothing changes.
    pub fn on_children(&mut self, children: Vec<KcGroup>)
        ensures
            final(self)@ == walk_with_children(old(self)@, group_ids(children@)),
    {
        match &self.phase {
            WalkPhase::Children(_) => {
                extend_ids(&mut self.queue, &children);
                self.phase = WalkPhase::Ready;
            },
            _ => {},
        }
    }

    /// The users found so far.
    pub fn into_members(self) -> (r: StringMap<DiscoveredUser>)
        ensures
            r@ == self@.members,
    {
        self.members
    }
}

/// Appends the ids of the groups.
pub fn extend_ids(queue: &mut Vec<String>, groups: &Vec<KcGroup>)
    ensures
        views(final(queue)@) == views(old(queue)@) + group_ids(groups@),
{
    let ghost start = queue@;
    let mut i: usize = 0;
    while i < groups.len()
        invariant
            i <= groups.len(),
            views(queue@) == views(start) + group_ids(groups@).take(i as int),
        decreases groups.len() - i,
    {
        let ghost before = queue@;
        let id = groups[i].id.clone();
        queue.push(id);
        proof {
            assert(views(queue@) =~= views(before).push(id@));
            assert(group_ids(groups@).take(i + 1) =~= group_ids(groups@).take(i as int).push(id@));
        }
        i = i + 1;
    }
    assert(group_ids(groups@).take(groups.len() as int) == group_ids(groups@));
}

} // verus!
