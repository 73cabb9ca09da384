//! The Keycloak Admin API: what is asked of it, and how its answers are read.

use crate::discovery::{extend_ids, group_ids};
use crate::error::{opt_text, CambiumError, CambiumErrorView, CambiumResult};
use crate::http::{is_success, success};
use crate::string_set::{lemma_take_insert, StringSet};
use crate::text::{join, join3, views};
use vstd::prelude::*;

verus! {

/// A Keycloak group.
#[derive(Debug, Clone)]
pub struct KcGroup {
    pub id: String,
    pub name: String,
    pub path: String,
}

/// A Keycloak user. `email` and `enabled` are missing where Keycloak leaves them out.
#[derive(Debug, Clone)]
pub struct KcUser {
    pub id: String,
    pub username: String,
    pub email: Option<String>,
    pub enabled: Option<bool>,
}

/// A `KcUser` with its texts.
pub struct KcUserView {
    pub id: Seq<char>,
    pub username: Seq<char>,
    pub email: Option<Seq<char>>,
    pub enabled: Option<bool>,
}

impl View for KcUser {
    type V = KcUserView;

    open spec fn view(&self) -> KcUserView {
        KcUserView {
            id: self.id@,
            username: self.username@,
            email: opt_text(self.email),
            enabled: self.enabled,
        }
    }
}

/// A Keycloak role.
#[derive(Debug, Clone)]
pub struct KcRole {
    pub id: String,
    pub name: String,
}

/// Where Keycloak is, and the client that administers it.
pub struct KeycloakClient {
    admin_url: String,
    admin_realm: String,
    client_id: String,
    client_secret: String,
}

/// The texts of a `KeycloakClient`.
pub struct KeycloakClientView {
    pub admin_url: Seq<char>,
    pub admin_realm: Seq<char>,
    pub client_id: Seq<char>,
    pub client_secret: Seq<char>,
}

impl View for KeycloakClient {
    type V = KeycloakClientView;

    closed spec fn view(&self) -> KeycloakClientView {
        KeycloakClientView {
            admin_url: self.admin_url@,
            admin_realm: self.admin_realm@,
            client_id: self.client_id@,
            client_secret: self.client_secret@,
        }
    }
}

/// The URL of a realm in the Admin API.
pub open spec fn realm_url_of(admin_url: Seq<char>, realm: Seq<char>) -> Seq<char> {
    admin_url + "/admin/realms/"@ + realm
}

/// The texts of the fields of a form, in order.
pub open spec fn form_view(form: Seq<(String, String)>) -> Seq<(Seq<char>, Seq<char>)> {
    form.map_values(|field: (String, String)| (field.0@, field.1@))
}

impl KeycloakClient {
    pub fn new(
        admin_url: String,
        admin_realm: String,
        client_id: String,
        client_secret: String,
    ) -> (r: KeycloakClient)
        ensures
            r@ == (KeycloakClientView {
                admin_url: admin_url@,
                admin_realm: admin_realm@,
                client_id: client_id@,
                client_secret: client_secret@,
            }),
    {
        KeycloakClient { admin_url, admin_realm, client_id, client_secret }
    }

    /// The URL of a realm in the Admin API.
    pub fn realm_url(&self, realm: &str) -> (r: String)
        ensures
            r@ == realm_url_of(self@.admin_url, realm@),
    {
        join3(self.admin_url.as_str(), "/admin/realms/", realm)
    }

    /// The URL of the token endpoint.
    pub fn token_url(&self) -> (r: String)
        ensures
            r@ == self@.admin_url + "/realms/"@ + self@.admin_realm
                + "/protocol/openid-connect/token"@,
    {
        let realm = join3(self.admin_url.as_str(), "/realms/", self.admin_realm.as_str());
        join(realm.as_str(), "/protocol/openid-connect/token")
    }

    /// The form that asks the token endpoint for an administrator's token.
    pub fn token_form(&self) -> (r: Vec<(String, String)>)
        ensures
            form_view(r@) == seq![
                ("grant_type"@, "client_credentials"@),
                ("client_id"@, self@.client_id),
                ("client_secret"@, self@.client_secret),
            ],
    {
        let mut form: Vec<(String, String)> = Vec::new();
        form.push(("grant_type".to_owned(), "client_credentials".to_owned()));
        form.push(("client_id".to_owned(), self.client_id.clone()));
        form.push(("client_secret".to_owned(), self.client_secret.clone()));
        assert(form_view(form@) =~= seq![
            ("grant_type"@, "client_credentials"@),
            ("client_id"@, self@.client_id),
            ("client_secret"@, self@.client_secret),
        ]);
        form
    }

    /// The URL that lists the top-level groups of a realm in full.
    pub fn list_groups_url(&self, realm: &str) -> (r: String)
        ensures
            r@ == realm_url_of(self@.admin_url, realm@) + "/groups?briefRepresentation=false"@,
    {
        join(self.realm_url(realm).as_str(), "/groups?briefRepresentation=false")
    }

    /// The URL that lists the immediate subgroups of a group.
    pub fn group_children_url(&self, realm: &str, group_id: &str) -> (r: String)
        ensures
            r@ == realm_url_of(self@.admin_url, realm@) + "/groups/"@ + group_id@ + "/children"@,
    {
        let group = join3(self.realm_url(realm).as_str(), "/groups/", group_id);
        join(group.as_str(), "/children")
    }

    /// The URL that lists the direct members of a group.
    pub fn group_members_url(&self, realm: &str, group_id: &str) -> (r: String)
        ensures
            r@ == realm_url_of(self@.admin_url, realm@) + "/groups/"@ + group_id@
                + "/members?max=1000"@,
    {
        let group = join3(self.realm_url(realm).as_str(), "/groups/", group_id);
        join(group.as_str(), "/members?max=1000")
    }

    /// The URL that lists the users to whom a role is assigned directly.
    pub fn role_users_url(&self, realm: &str, role_name: &str) -> (r: String)
        ensures
            r@ == realm_url_of(self@.admin_url, realm@) + "/roles/"@ + role_name@ + "/users"@,
    {
        let role = join3(self.realm_url(realm).as_str(), "/roles/", role_name);
        join(role.as_str(), "/users")
    }

    /// The URL that lists the groups to which a user belongs directly.
    pub fn user_groups_url(&self, realm: &str, user_id: &str) -> (r: String)
        ensures
            r@ == realm_url_of(self@.admin_url, realm@) + "/users/"@ + user_id@ + "/groups"@,
    {
        let user = join3(self.realm_url(realm).as_str(), "/users/", user_id);
        join(user.as_str(), "/groups")
    }

    /// The URL that lists the realm roles assigned directly to a user, with the roles they are
    /// composed of. Roles that come with a group are not among them.
    pub fn user_composite_realm_roles_url(&self, realm: &str, user_id: &str) -> (r: String)
        ensures
            r@ == realm_url_of(self@.admin_url, realm@) + "/users/"@ + user_id@
                + "/role-mappings/realm/composite"@,
    {
        let user = join3(self.realm_url(realm).as_str(), "/users/", user_id);
        join(user.as_str(), "/role-mappings/realm/composite")
    }

    /// The URL that lists the realm roles assigned directly to a group, with the roles they are
    /// composed of.
    pub fn group_composite_realm_roles_url(&self, realm: &str, group_id: &str) -> (r: String)
        ensures
            r@ == realm_url_of(self@.admin_url, realm@) + "/groups/"@ + group_id@
                + "/role-mappings/realm/composite"@,
    {
        let group = join3(self.realm_url(realm).as_str(), "/groups/", group_id);
        join(group.as_str(), "/role-mappings/realm/composite")
    }
}

/// Reads the status of an answer of the Admin API: a missing resource is told apart from the
/// other failures.
pub fn refusal(status: u16, body: String) -> (r: Option<CambiumError>)
    ensures
        match r {
            Some(e) => !success(status) && e@ == if status == 404 {
                CambiumErrorView::NotFound
            } else {
                CambiumErrorView::KeycloakUnexpected { status, body: body@ }
            },
            None => success(status),
        },
{
    if status == 404 {
        Some(CambiumError::NotFound)
    } else {
        token_refusal(status, body)
    }
}

/// Reads the status of an answer of the token endpoint.
pub fn token_refusal(status: u16, body: String) -> (r: Option<CambiumError>)
    ensures
        match r {
            Some(e) => !success(status) && e@ == (CambiumErrorView::KeycloakUnexpected {
                status,
                body: body@,
            }),
            None => success(status),
        },
{
    if is_success(status) {
        None
    } else {
        Some(CambiumError::KeycloakUnexpected { status, body })
    }
}

/// How long before its expiry a token is no longer used, in seconds.
pub const TOKEN_MARGIN_SECONDS: u64 = 30;

/// The nanosecond at which a token that was fetched at nanosecond `now` and lives for
/// `expires_in` seconds is to be fetched again.
pub open spec fn token_deadline(now: u64, expires_in: u64) -> int {
    now + (if expires_in > 30 {
        expires_in - 30
    } else {
        0
    }) * 1_000_000_000
}

/// The administrator's token, kept until shortly before it expires. Times are nanoseconds on one
/// clock.
#[derive(Debug)]
pub struct AdminTokenCache {
    held: Option<(String, u128)>,
}

impl View for AdminTokenCache {
    type V = Option<(Seq<char>, int)>;

    closed spec fn view(&self) -> Option<(Seq<char>, int)> {
        match self.held {
            Some((token, expires_at)) => Some((token@, expires_at as int)),
            None => None,
        }
    }
}

impl AdminTokenCache {
    /// A cache without a token.
    pub fn new() -> (r: AdminTokenCache)
        ensures
            r@ is None,
    {
        AdminTokenCache { held: None }
    }

    /// The token, where there is one and its time has not come.
    pub fn token(&self, now: u64) -> (r: Option<String>)
        ensures
            match (self@, r) {
                (Some((token, expires_at)), Some(shown)) => now < expires_at && shown@ == token,
                (Some((token, expires_at)), None) => now >= expires_at,
                (None, shown) => shown is None,
            },
    {
        match &self.held {
            Some((token, expires_at)) => if (now as u128) < *expires_at {
                Some(token.clone())
            } else {
                None
            },
            None => None,
        }
    }

    /// Keeps a token that was fetched now.
    pub fn store(&mut self, token: &str, expires_in: u64, now: u64)
        ensures
            final(self)@ == Some((token@, token_deadline(now, expires_in))),
    {
        let seconds: u64 = expires_in.saturating_sub(TOKEN_MARGIN_SECONDS);
        let expires_at: u128 = now as u128 + seconds as u128 * 1_000_000_000;
        self.held = Some((token.to_owned(), expires_at));
    }
}

/// The names of some roles.
pub open spec fn names_of(roles: Seq<KcRole>) -> Set<Seq<char>> {
    roles.map_values(|role: KcRole| role.name@).to_set()
}

/// The names of some roles.
pub fn role_names(roles: &Vec<KcRole>) -> (r: StringSet)
    ensures
        r@ == names_of(roles@),
{
    let ghost names = roles@.map_values(|role: KcRole| role.name@);
    let mut r = StringSet::new();
    let mut i: usize = 0;
    assert(names.take(0).to_set() =~= Set::empty());
    while i < roles.len()
        invariant
            i <= roles.len(),
            names == roles@.map_values(|role: KcRole| role.name@),
            r@ == names.take(i as int).to_set(),
        decreases roles.len() - i,
    {
        r.insert(roles[i].name.clone());
        proof {
            lemma_take_insert(names, i as int);
        }
        i = i + 1;
    }
    assert(names.take(roles.len() as int) =~= names);
    r
}

/// The search for the roles that a user has directly or through a group. Keycloak answers this
/// in no single call: it lists the user's own roles, the user's groups, and the roles of a group.
#[derive(Debug)]
pub enum EffectiveRoles {
    /// Waits for the user's own roles.
    Own,
    /// Waits for the user's groups.
    Groups { roles: StringSet },
    /// Waits for the roles of the first of some groups.
    Inherited { roles: StringSet, groups: Vec<String> },
    /// Is over.
    Ended(CambiumResult<StringSet>),
}

/// `EffectiveRoles` with its sets and texts.
pub enum EffectiveRolesView {
    Own,
    Groups { roles: Set<Seq<char>> },
    Inherited { roles: Set<Seq<char>>, groups: Seq<Seq<char>> },
    Ended(Result<Set<Seq<char>>, CambiumErrorView>),
}

impl View for EffectiveRoles {
    type V = EffectiveRolesView;

    open spec fn view(&self) -> EffectiveRolesView {
        match *self {
            EffectiveRoles::Own => EffectiveRolesView::Own,
            EffectiveRoles::Groups { roles } => EffectiveRolesView::Groups { roles: roles@ },
            EffectiveRoles::Inherited { roles, groups } => EffectiveRolesView::Inherited {
                roles: roles@,
                groups: views(groups@),
            },
            EffectiveRoles::Ended(Ok(roles)) => EffectiveRolesView::Ended(Ok(roles@)),
            EffectiveRoles::Ended(Err(e)) => EffectiveRolesView::Ended(Err(e@)),
        }
    }
}

/// What to fetch next for the search.
#[derive(Debug)]
pub enum RolesStep {
    /// The roles assigned directly to the user.
    OwnRoles,
    /// The groups of the user.
    UserGroups,
    /// The roles assigned directly to the group with this id.
    GroupRoles(String),
    /// Nothing.
    Finished,
}

/// The answer to a step of the search.
#[derive(Debug)]
pub enum RolesReply {
    /// To `OwnRoles` and `GroupRoles`.
    Roles(CambiumResult<Vec<KcRole>>),
    /// To `UserGroups`.
    Groups(CambiumResult<Vec<KcGroup>>),
}

/// A `RolesReply` with its texts.
pub enum RolesReplyView {
    Roles(Result<Set<Seq<char>>, CambiumErrorView>),
    Groups(Result<Seq<Seq<char>>, CambiumErrorView>),
}

impl View for RolesReply {
    type V = RolesReplyView;

    open spec fn view(&self) -> RolesReplyView {
        match *self {
            RolesReply::Roles(Ok(roles)) => RolesReplyView::Roles(Ok(names_of(roles@))),
            RolesReply::Roles(Err(e)) => RolesReplyView::Roles(Err(e@)),
            RolesReply::Groups(Ok(groups)) => RolesReplyView::Groups(Ok(group_ids(groups@))),
            RolesReply::Groups(Err(e)) => RolesReplyView::Groups(Err(e@)),
        }
    }
}

/// The search with some groups left.
pub open spec fn roles_gathered(
    roles: Set<Seq<char>>,
    groups: Seq<Seq<char>>,
) -> EffectiveRolesView {
    if groups.len() == 0 {
        EffectiveRolesView::Ended(Ok(roles))
    } else {
        EffectiveRolesView::Inherited { roles, groups }
    }
}

/// The search after an answer. Any failure ends it; an answer to something that was not asked
/// changes nothing.
pub open spec fn roles_advanced(
    search: EffectiveRolesView,
    reply: RolesReplyView,
) -> EffectiveRolesView {
    match (search, reply) {
        (EffectiveRolesView::Own, RolesReplyView::Roles(Ok(roles))) => EffectiveRolesView::Groups {
            roles,
        },
        (EffectiveRolesView::Own, RolesReplyView::Roles(Err(e))) => EffectiveRolesView::Ended(
            Err(e),
        ),
        (EffectiveRolesView::Groups { roles }, RolesReplyView::Groups(Ok(groups))) => {
            roles_gathered(roles, groups)
        },
        (EffectiveRolesView::Groups { roles }, RolesReplyView::Groups(Err(e))) => {
            EffectiveRolesView::Ended(Err(e))
        },
        (EffectiveRolesView::Inherited { roles, groups }, RolesReplyView::Roles(Ok(more))) => {
            if groups.len() > 0 {
                roles_gathered(roles.union(more), groups.skip(1))
            } else {
                search
            }
        },
        (EffectiveRolesView::Inherited { roles, groups }, RolesReplyView::Roles(Err(e))) => {
            EffectiveRolesView::Ended(Err(e))
        },
        _ => search,
    }
}

/// Goes on with the groups that are left.
fn gather(roles: StringSet, groups: Vec<String>) -> (r: EffectiveRoles)
    ensures
        r@ == roles_gathered(roles@, views(groups@)),
{
    if groups.len() == 0 {
        EffectiveRoles::Ended(Ok(roles))
    } else {
        EffectiveRoles::Inherited { roles, groups }
    }
}

impl EffectiveRoles {
    /// A search that is about to start.
    pub fn new() -> (r: EffectiveRoles)
        ensures
            r@ is Own,
    {
        EffectiveRoles::Own
    }

    /// What to fetch next.
    pub fn next(&self) -> (r: RolesStep)
        ensures
            match self@ {
                EffectiveRolesView::Own => r is OwnRoles,
                EffectiveRolesView::Groups { roles } => r is UserGroups,
                EffectiveRolesView::Inherited { roles, groups } => if groups.len() > 0 {
                    r matches RolesStep::GroupRoles(id) && id@ == groups[0]
                } else {
                    r is Finished
                },
                EffectiveRolesView::Ended(result) => r is Finished,
            },
    {
        match self {
            EffectiveRoles::Own => RolesStep::OwnRoles,
            EffectiveRoles::Groups { .. } => RolesStep::UserGroups,
            EffectiveRoles::Inherited { groups, .. } => if groups.len() > 0 {
                RolesStep::GroupRoles(groups[0].clone())
            } else {
                RolesStep::Finished
            },
            EffectiveRoles::Ended(_) => RolesStep::Finished,
        }
    }

    /// Takes the answer to the last step.
    pub fn advance(self, reply: RolesReply) -> (r: EffectiveRoles)
        ensures
            r@ == roles_advanced(self@, reply@),
    {
        match (self, reply) {
            (EffectiveRoles::Own, RolesReply::Roles(Ok(roles))) => EffectiveRoles::Groups {
                roles: role_names(&roles),
            },
            (EffectiveRoles::Own, RolesReply::Roles(Err(e))) => EffectiveRoles::Ended(Err(e)),
            (EffectiveRoles::Groups { roles }, RolesReply::Groups(Ok(groups))) => {
                let mut ids: Vec<String> = Vec::new();
                extend_ids(&mut ids, &groups);
                assert(views(ids@) =~= group_ids(groups@));
                gather(roles, ids)
            },
            (EffectiveRoles::Groups { .. }, RolesReply::Groups(Err(e))) => EffectiveRoles::Ended(
                Err(e),
            ),
            (EffectiveRoles::Inherited { roles, groups }, RolesReply::Roles(Ok(more))) => {
                if groups.len() == 0 {
                    return EffectiveRoles::Inherited { roles, groups };
                }
                let ghost held = groups@;
                let mut roles = roles;
                let mut groups = groups;
                roles.extend(&role_names(&more));
                groups.remove(0);
                assert(views(groups@) =~= views(held).skip(1));
                gather(roles, groups)
            },
            (EffectiveRoles::Inherited { .. }, RolesReply::Roles(Err(e))) => {
                EffectiveRoles::Ended(Err(e))
            },
            (search, _) => search,
        }
    }
}

/// The roles that a user has directly or through one of some groups.
pub open spec fn effective_roles(
    own: Set<Seq<char>>,
    groups: Seq<Seq<char>>,
    roles_of: spec_fn(Seq<char>) -> Set<Seq<char>>,
) -> Set<Seq<char>> {
    Set::new(
        |role: Seq<char>|
            own.contains(role) || exists|i: int|
                0 <= i < groups.len() && roles_of(#[trigger] groups[i]).contains(role),
    )
}

/// The search once the roles of all groups have been handed to it.
pub open spec fn roles_answered(
    search: EffectiveRolesView,
    roles_of: spec_fn(Seq<char>) -> Set<Seq<char>>,
    n: nat,
) -> EffectiveRolesView
    decreases n,
{
    match search {
        EffectiveRolesView::Inherited { roles, groups } if n > 0 => roles_answered(
            roles_advanced(search, RolesReplyView::Roles(Ok(roles_of(groups[0])))),
            roles_of,
            (n - 1) as nat,
        ),
        _ => search,
    }
}

/// Once every question has been answered the search ends with exactly the roles that the user
/// has directly or through a group.
pub proof fn search_finds_direct_and_inherited_roles(
    own: Set<Seq<char>>,
    groups: Seq<Seq<char>>,
    roles_of: spec_fn(Seq<char>) -> Set<Seq<char>>,
)
    ensures
        ({
            let asked = roles_advanced(
                roles_advanced(EffectiveRolesView::Own, RolesReplyView::Roles(Ok(own))),
                RolesReplyView::Groups(Ok(groups)),
            );
            roles_answered(asked, roles_of, groups.len()) == EffectiveRolesView::Ended(
                Ok(effective_roles(own, groups, roles_of)),
            )
        }),
{
    lemma_gathered(own, groups, roles_of);
}

/// Handing over the roles of the groups one by one adds them all.
proof fn lemma_gathered(
    own: Set<Seq<char>>,
    groups: Seq<Seq<char>>,
    roles_of: spec_fn(Seq<char>) -> Set<Seq<char>>,
)
    ensures
        roles_answered(roles_gathered(own, groups), roles_of, groups.len())
            == EffectiveRolesView::Ended(Ok(effective_roles(own, groups, roles_of))),
    decreases groups.len(),
{
    if groups.len() == 0 {
        assert(effective_roles(own, groups, roles_of) =~= own);
    } else {
        let rest = groups.skip(1);
        let more = own.union(roles_of(groups[0]));
        lemma_gathered(more, rest, roles_of);
        assert forall|role: Seq<char>| #[trigger]
            effective_roles(own, groups, roles_of).contains(role) == effective_roles(
                more,
                rest,
                roles_of,
            ).contains(role) by {
            if exists|i: int| 0 <= i < groups.len() && roles_of(#[trigger] groups[i]).contains(role) {
                let i = choose|i: int|
                    0 <= i < groups.len() && roles_of(#[trigger] groups[i]).contains(role);
                if i > 0 {
                    assert(rest[i - 1] == groups[i]);
                }
            }
            if exists|i: int| 0 <= i < rest.len() && roles_of(#[trigger] rest[i]).contains(role) {
                let i = choose|i: int|
                    0 <= i < rest.len() && roles_of(#[trigger] rest[i]).contains(role);
                assert(groups[i + 1] == rest[i]);
            }
        }
        assert(effective_roles(own, groups, roles_of) =~= effective_roles(more, rest, roles_of));
    }
}

/// A token is used exactly as long as more than half a minute of its life is left.
pub proof fn tokens_are_renewed_in_time(now: u64, expires_in: u64, later: u64)
    requires
        now <= later,
    ensures
        (later < token_deadline(now, expires_in)) == (later + 30 * 1_000_000_000 < now + expires_in
            * 1_000_000_000),
{
}

/// The URL of a realm begins with the server and ends with the realm, and between them stands
/// the path of the Admin API.
pub proof fn realm_urls_hold_server_and_realm(admin_url: Seq<char>, realm: Seq<char>)
    ensures
        ({
            let url = realm_url_of(admin_url, realm);
            let path = "/admin/realms/"@;
            &&& url.len() == admin_url.len() + path.len() + realm.len()
            &&& url.take(admin_url.len() as int) == admin_url
            &&& url.skip((admin_url.len() + path.len()) as int) == realm
            &&& url.subrange(admin_url.len() as int, (admin_url.len() + path.len()) as int) == path
        }),
{
    let url = realm_url_of(admin_url, realm);
    let path = "/admin/realms/"@;
    assert(url.take(admin_url.len() as int) =~= admin_url);
    assert(url.skip((admin_url.len() + path.len()) as int) =~= realm);
    assert(url.subrange(admin_url.len() as int, (admin_url.len() + path.len()) as int) =~= path);
}

/// The fields of a form keep their places.
pub proof fn form_fields_keep_their_places(form: Seq<(String, String)>, i: int)
    ensures
        form_view(form).len() == form.len(),
        0 <= i < form.len() ==> form_view(form)[i] == (form[i].0@, form[i].1@),
{
}

/// A name is among the names of some roles exactly where one of them has it.
pub proof fn role_names_are_those_of_the_roles(roles: Seq<KcRole>, name: Seq<char>)
    ensures
        names_of(roles).contains(name) == exists|i: int|
            0 <= i < roles.len() && (#[trigger] roles[i]).name@ == name,
{
    let names = roles.map_values(|role: KcRole| role.name@);
    if names.contains(name) {
        let i = names.index_of(name);
        assert(roles[i].name@ == name);
    }
    if exists|i: int| 0 <= i < roles.len() && (#[trigger] roles[i]).name@ == name {
        let i = choose|i: int| 0 <= i < roles.len() && (#[trigger] roles[i]).name@ == name;
        assert(names[i] == name);
    }
}

/// A user keeps the texts and the state that Keycloak reported.
pub proof fn users_show_what_was_reported(user: KcUser)
    ensures
        user@.id == user.id@,
        user@.username == user.username@,
        user@.enabled == user.enabled,
        user.email is None ==> user@.email is None,
        user.email matches Some(email) ==> user@.email == Some(email@),
{
}

/// A role is among those that the search ends with exactly where it is one of the user's own or
/// one of the roles of a group of the user.
pub proof fn effective_roles_are_own_and_inherited(
    own: Seq<KcRole>,
    groups: Seq<KcGroup>,
    roles_of: spec_fn(Seq<char>) -> Set<Seq<char>>,
    role: Seq<char>,
)
    ensures
        ({
            let asked = roles_advanced(
                roles_advanced(
                    EffectiveRolesView::Own,
                    RolesReplyView::Roles(Ok(names_of(own))),
                ),
                RolesReplyView::Groups(Ok(group_ids(groups))),
            );
            &&& roles_answered(asked, roles_of, groups.len()) matches EffectiveRolesView::Ended(
                Ok(found),
            )
            &&& found.contains(role) == ((exists|i: int|
                0 <= i < own.len() && (#[trigger] own[i]).name@ == role) || (exists|i: int|
                0 <= i < groups.len() && roles_of((#[trigger] groups[i]).id@).contains(role)))
        }),
{
    let ids = group_ids(groups);
    search_finds_direct_and_inherited_roles(names_of(own), ids, roles_of);
    role_names_are_those_of_the_roles(own, role);
    if exists|i: int| 0 <= i < ids.len() && roles_of(#[trigger] ids[i]).contains(role) {
        let i = choose|i: int| 0 <= i < ids.len() && roles_of(#[trigger] ids[i]).contains(role);
        assert(roles_of(groups[i].id@).contains(role));
    }
    if exists|i: int| 0 <= i < groups.len() && roles_of((#[trigger] groups[i]).id@).contains(role) {
        let i = choose|i: int|
            0 <= i < groups.len() && roles_of((#[trigger] groups[i]).id@).contains(role);
        assert(ids[i] == groups[i].id@);
    }
}

/// Where a question of the search is answered with a failure, the search ends with it, and an
/// answer to something that was not asked changes nothing.
pub proof fn failed_searches_end(search: EffectiveRolesView, e: CambiumError, reply: RolesReplyView)
    requires
        !(search is Ended),
    ensures
        search is Groups ==> {
            &&& roles_advanced(search, RolesReply::Groups(Err(e))@) == EffectiveRolesView::Ended(
                Err(e@),
            )
            &&& reply is Roles ==> roles_advanced(search, reply) == search
        },
        !(search is Groups) ==> {
            &&& roles_advanced(search, RolesReply::Roles(Err(e))@) == EffectiveRolesView::Ended(
                Err(e@),
            )
            &&& reply is Groups ==> roles_advanced(search, reply) == search
        },
        forall|result: Result<Set<Seq<char>>, CambiumErrorView>| #[trigger]
            roles_advanced(EffectiveRolesView::Ended(result), reply) == EffectiveRolesView::Ended(
                result,
            ),
{
}

/// Every request about a realm goes to the realm's URL, and there to the resource of the group,
/// role or user that it is about.
pub proof fn requests_go_to_their_resources(
    client: KeycloakClient,
    realm: &str,
    item: &str,
    url: String,
)
    ensures
        ({
            let base = client@.admin_url + "/admin/realms/"@ + realm@;
            &&& call_ensures(KeycloakClient::realm_url, (&client, realm), url) ==> url@ == base
            &&& call_ensures(KeycloakClient::list_groups_url, (&client, realm), url) ==> url@
                == base + "/groups?briefRepresentation=false"@
            &&& call_ensures(KeycloakClient::group_children_url, (&client, realm, item), url)
                ==> url@ == base + "/groups/"@ + item@ + "/children"@
            &&& call_ensures(KeycloakClient::group_members_url, (&client, realm, item), url)
                ==> url@ == base + "/groups/"@ + item@ + "/members?max=1000"@
            &&& call_ensures(
                KeycloakClient::group_composite_realm_roles_url,
                (&client, realm, item),
                url,
            ) ==> url@ == base + "/groups/"@ + item@ + "/role-mappings/realm/composite"@
            &&& call_ensures(KeycloakClient::role_users_url, (&client, realm, item), url) ==> url@
                == base + "/roles/"@ + item@ + "/users"@
            &&& call_ensures(KeycloakClient::user_groups_url, (&client, realm, item), url)
                ==> url@ == base + "/users/"@ + item@ + "/groups"@
            &&& call_ensures(
                KeycloakClient::user_composite_realm_roles_url,
                (&client, realm, item),
                url,
            ) ==> url@ == base + "/users/"@ + item@ + "/role-mappings/realm/composite"@
        }),
{
}

/// An answer of the Admin API is refused exactly where its status does not begin with a two. Only
/// a status of 404 says that something does not exist, and only to the Admin API; any other
/// refusal keeps the status and the body.
pub proof fn refusals_keep_status_and_body(
    status: u16,
    body: String,
    answer: Option<CambiumError>,
    token_answer: Option<CambiumError>,
)
    requires
        call_ensures(refusal, (status, body), answer),
        call_ensures(token_refusal, (status, body), token_answer),
    ensures
        answer is None == (status as int / 100 == 2),
        token_answer is None == (status as int / 100 == 2),
        answer matches Some(e) ==> (e is NotFound) == (status == 404),
        token_answer matches Some(e) ==> !(e is NotFound),
        forall|e: CambiumError|
            (answer == Some(e) && status != 404) || token_answer == Some(e) ==> #[trigger] e@ == (
            CambiumErrorView::KeycloakUnexpected { status, body: body@ }),
{
}

/// The search asks for what it still lacks: the user's own roles, then the user's groups, then
/// the roles of the first group that is left. It has nothing to ask exactly where it is over.
pub proof fn searches_ask_for_what_they_lack(search: EffectiveRoles, step: RolesStep)
    requires
        call_ensures(EffectiveRoles::next, (&search,), step),
        search@ is Inherited ==> search@->groups.len() > 0,
    ensures
        step is Finished == search@ is Ended,
        step is OwnRoles == search@ is Own,
        step is UserGroups == search@ is Groups,
        step matches RolesStep::GroupRoles(id) ==> search@ is Inherited && search@->groups[0] == id@,
{
}

} // verus!
