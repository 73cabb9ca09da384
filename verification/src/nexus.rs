//! The Nexus REST API under `/service/rest/v1/security`: what is asked of it, and how its
//! answers are read. Nexus replaces a user's whole role list at once, searches users only by a
//! part of their id, and reports a duplicate user as a failure of its own.

use crate::error::{CambiumError, CambiumErrorView};
use crate::http::{is_success, success};
use crate::outside::{percent_encode, percent_encoded};
use crate::string_set::clone_strings;
use crate::text::{contains_text, has_text, holding_a_text, join3, same_text, views};
use vstd::prelude::*;
use vstd::utf8::encode_utf8;

verus! {

/// A user as Nexus reports it.
#[derive(Debug, Clone)]
pub struct NexusUser {
    pub user_id: String,
    pub first_name: String,
    pub last_name: String,
    pub email_address: String,
    pub source: String,
    pub status: String,
    pub roles: Vec<String>,
    pub external_roles: Vec<String>,
}

/// A `NexusUser` with its texts.
pub struct NexusUserView {
    pub user_id: Seq<char>,
    pub first_name: Seq<char>,
    pub last_name: Seq<char>,
    pub email_address: Seq<char>,
    pub source: Seq<char>,
    pub status: Seq<char>,
    pub roles: Seq<Seq<char>>,
    pub external_roles: Seq<Seq<char>>,
}

impl View for NexusUser {
    type V = NexusUserView;

    open spec fn view(&self) -> NexusUserView {
        NexusUserView {
            user_id: self.user_id@,
            first_name: self.first_name@,
            last_name: self.last_name@,
            email_address: self.email_address@,
            source: self.source@,
            status: self.status@,
            roles: views(self.roles@),
            external_roles: views(self.external_roles@),
        }
    }
}

/// A user to be created.
#[derive(Debug)]
pub struct NewNexusUser {
    pub user_id: String,
    pub first_name: String,
    pub last_name: String,
    pub email_address: String,
    pub password: String,
    pub roles: Vec<String>,
}

/// The body of the request that creates a user, together with the status the user starts with.
#[derive(Debug)]
pub struct CreateBody {
    pub user: NewNexusUser,
    pub status: String,
}

/// The body of the request that replaces a user. Nexus demands every field, `source` included,
/// though only the roles change.
#[derive(Debug)]
pub struct UpdateBody {
    pub user_id: String,
    pub first_name: String,
    pub last_name: String,
    pub email_address: String,
    pub source: String,
    pub status: String,
    pub roles: Vec<String>,
}

/// An `UpdateBody` with its texts.
pub struct UpdateBodyView {
    pub user_id: Seq<char>,
    pub first_name: Seq<char>,
    pub last_name: Seq<char>,
    pub email_address: Seq<char>,
    pub source: Seq<char>,
    pub status: Seq<char>,
    pub roles: Seq<Seq<char>>,
}

impl View for UpdateBody {
    type V = UpdateBodyView;

    open spec fn view(&self) -> UpdateBodyView {
        UpdateBodyView {
            user_id: self.user_id@,
            first_name: self.first_name@,
            last_name: self.last_name@,
            email_address: self.email_address@,
            source: self.source@,
            status: self.status@,
            roles: views(self.roles@),
        }
    }
}

/// One entry of the list by which Nexus explains a rejected request.
#[derive(Debug)]
pub struct NexusValidationEntry {
    pub id: String,
    pub message: String,
}

/// A `NexusValidationEntry` with its texts.
pub struct NexusValidationEntryView {
    pub id: Seq<char>,
    pub message: Seq<char>,
}

impl View for NexusValidationEntry {
    type V = NexusValidationEntryView;

    open spec fn view(&self) -> NexusValidationEntryView {
        NexusValidationEntryView { id: self.id@, message: self.message@ }
    }
}

/// Where Nexus is, and the account that administers it.
pub struct NexusClient {
    base_url: String,
    username: String,
    password: String,
}

impl NexusClient {
    pub closed spec fn base(&self) -> Seq<char> {
        self.base_url@
    }

    pub closed spec fn account(&self) -> (Seq<char>, Seq<char>) {
        (self.username@, self.password@)
    }

    pub fn new(base_url: String, username: String, password: String) -> (r: NexusClient)
        ensures
            r.base() == base_url@,
            r.account() == (username@, password@),
    {
        NexusClient { base_url, username, password }
    }

    /// The name and password to authenticate with.
    pub fn basic_auth(&self) -> (r: (&str, &str))
        ensures
            (r.0@, r.1@) == self.account(),
    {
        (self.username.as_str(), self.password.as_str())
    }

    /// The URL of a resource of the security API.
    pub fn security_url(&self, path: &str) -> (r: String)
        ensures
            r@ == self.base() + "/service/rest/v1/security"@ + path@,
    {
        join3(self.base_url.as_str(), "/service/rest/v1/security", path)
    }

    /// The URL under which users are created.
    pub fn create_user_url(&self) -> (r: String)
        ensures
            r@ == self.base() + "/service/rest/v1/security"@ + "/users"@,
    {
        self.security_url("/users")
    }

    /// The URL of the search for a user. Nexus also reports users whose id only contains the
    /// text.
    pub fn get_user_url(&self, user_id: &str) -> (r: String)
        ensures
            r@ == self.base() + "/service/rest/v1/security"@ + "/users"@ + "?userId="@
                + percent_encoded(encode_utf8(user_id@)),
    {
        join3(
            self.security_url("/users").as_str(),
            "?userId=",
            percent_encode(user_id).as_str(),
        )
    }

    /// The URL under which a user is replaced.
    pub fn set_user_roles_url(&self, user_id: &str) -> (r: String)
        ensures
            r@ == self.base() + "/service/rest/v1/security"@ + "/users"@ + "/"@ + user_id@,
    {
        join3(self.security_url("/users").as_str(), "/", user_id)
    }
}

/// The first of some users that has exactly this id.
pub open spec fn first_with_id(users: Seq<NexusUserView>, user_id: Seq<char>) -> Option<
    NexusUserView,
>
    decreases users.len(),
{
    if users.len() == 0 {
        None
    } else if users[0].user_id == user_id {
        Some(users[0])
    } else {
        first_with_id(users.skip(1), user_id)
    }
}

/// Picks the user with exactly this id out of what a search for it returned.
pub fn exact_match(users: Vec<NexusUser>, user_id: &str) -> (r: Option<NexusUser>)
    ensures
        match r {
            Some(user) => first_with_id(views(users@), user_id@) == Some(user@),
            None => first_with_id(views(users@), user_id@) is None,
        },
{
    let ghost all = views(users@);
    let mut rest = users;
    while rest.len() > 0
        invariant
            all == views(users@),
            first_with_id(views(rest@), user_id@) == first_with_id(all, user_id@),
        decreases rest.len(),
    {
        let ghost before = rest@;
        let user = rest.remove(0);
        proof {
            assert(views(before)[0] == user@);
            assert(views(rest@) =~= views(before).skip(1));
        }
        if same_text(user.user_id.as_str(), user_id) {
            return Some(user);
        }
    }
    None
}

/// The body that creates a user: the account starts out active.
pub fn create_body(user: NewNexusUser) -> (r: CreateBody)
    ensures
        r.user == user,
        r.status@ == "active"@,
{
    CreateBody { user, status: "active".to_owned() }
}

/// The body that gives `current` the roles `roles` and changes nothing else.
pub open spec fn with_roles(current: NexusUserView, roles: Seq<Seq<char>>) -> UpdateBodyView {
    UpdateBodyView {
        user_id: current.user_id,
        first_name: current.first_name,
        last_name: current.last_name,
        email_address: current.email_address,
        source: current.source,
        status: current.status,
        roles,
    }
}

/// The body that replaces the roles of a user.
pub fn update_body(current: &NexusUser, desired_roles: Vec<String>) -> (r: UpdateBody)
    ensures
        r@ == with_roles(current@, views(desired_roles@)),
{
    UpdateBody {
        user_id: current.user_id.clone(),
        first_name: current.first_name.clone(),
        last_name: current.last_name.clone(),
        email_address: current.email_address.clone(),
        source: current.source.clone(),
        status: current.status.clone(),
        roles: clone_strings(&desired_roles),
    }
}

/// Reads the status of an answer to a search or a replacement: any but a success is an error
/// with the body as its text.
pub fn refusal(status: u16, body: String) -> (r: Option<CambiumError>)
    ensures
        match r {
            Some(e) => !success(status) && e@ == (CambiumErrorView::NexusUnexpected {
                status,
                body: body@,
            }),
            None => success(status),
        },
{
    if is_success(status) {
        None
    } else {
        Some(CambiumError::NexusUnexpected { status, body })
    }
}

/// What a refused creation means. A duplicate user is reported with status 500 and the name of
/// the exception in the body; a rejected field with status 400 and a list of entries.
pub open spec fn create_failure(
    user_id: Seq<char>,
    status: u16,
    body: Seq<char>,
    entries: Option<Seq<NexusValidationEntryView>>,
) -> CambiumErrorView {
    if status == 500 && has_text(body, "DuplicateUserException"@) {
        CambiumErrorView::NexusUserAlreadyExists(user_id)
    } else {
        match entries {
            Some(list) if status == 400 && list.len() > 0 => CambiumErrorView::NexusValidation {
                field: Some(list[0].id),
                message: list[0].message,
            },
            _ => CambiumErrorView::NexusUnexpected { status, body },
        }
    }
}

/// Reads the status of an answer to a creation. `entries` is the body read as a list of
/// validation entries, where it is one.
pub fn create_refusal(
    user_id: &str,
    status: u16,
    body: String,
    entries: Option<Vec<NexusValidationEntry>>,
) -> (r: Option<CambiumError>)
    ensures
        match r {
            Some(e) => !success(status) && e@ == create_failure(
                user_id@,
                status,
                body@,
                match entries {
                    Some(list) => Some(views(list@)),
                    None => None,
                },
            ),
            None => success(status),
        },
{
    if is_success(status) {
        return None;
    }
    if status == 500 && contains_text(body.as_str(), "DuplicateUserException") {
        return Some(CambiumError::NexusUserAlreadyExists(user_id.to_owned()));
    }
    if status == 400 {
        match entries {
            Some(list) => {
                if list.len() > 0 {
                    return Some(
                        CambiumError::NexusValidation {
                            field: Some(list[0].id.clone()),
                            message: list[0].message.clone(),
                        },
                    );
                }
            },
            None => {},
        }
    }
    Some(CambiumError::NexusUnexpected { status, body })
}

/// Whatever a search returns, the user picked has exactly the id that was asked for.
pub proof fn exact_match_has_the_id(users: Seq<NexusUserView>, user_id: Seq<char>)
    ensures
        match first_with_id(users, user_id) {
            Some(user) => user.user_id == user_id && users.contains(user),
            None => forall|i: int| 0 <= i < users.len() ==> (#[trigger] users[i]).user_id
                != user_id,
        },
    decreases users.len(),
{
    if users.len() > 0 && users[0].user_id != user_id {
        let rest = users.skip(1);
        exact_match_has_the_id(rest, user_id);
        match first_with_id(users, user_id) {
            Some(user) => {
                let i = rest.index_of(user);
                assert(users[i + 1] == user);
            },
            None => {
                assert forall|i: int| 0 <= i < users.len() implies (#[trigger] users[i]).user_id
                    != user_id by {
                    if i > 0 {
                        assert(rest[i - 1] == users[i]);
                    }
                }
            },
        }
    }
}

/// Of several users with one id the first one is picked.
pub proof fn first_exact_match_is_picked(users: Seq<NexusUser>, i: int)
    requires
        0 <= i < users.len(),
        forall|j: int| 0 <= j < i ==> (#[trigger] users[j]).user_id@ != users[i].user_id@,
    ensures
        first_with_id(views(users), users[i].user_id@) == Some(users[i]@),
    decreases users.len(),
{
    let all = views(users);
    assert(all[0] == users[0]@);
    if i > 0 {
        let rest = users.skip(1);
        assert(all[0].user_id != users[i].user_id@);
        assert(rest[i - 1] == users[i]);
        assert forall|j: int| 0 <= j < i - 1 implies (#[trigger] rest[j]).user_id@ != rest[i
            - 1].user_id@ by {
            assert(rest[j] == users[j + 1]);
        }
        first_exact_match_is_picked(rest, i - 1);
        assert(all.skip(1) =~= views(rest));
    }
}

/// Where no user has the id, none is picked.
pub proof fn partial_matches_are_not_picked(users: Seq<NexusUser>, user_id: Seq<char>)
    requires
        forall|j: int| 0 <= j < users.len() ==> (#[trigger] users[j]).user_id@ != user_id,
    ensures
        first_with_id(views(users), user_id) is None,
{
    exact_match_has_the_id(views(users), user_id);
    match first_with_id(views(users), user_id) {
        Some(user) => {
            let i = views(users).index_of(user);
            assert(views(users)[i] == users[i]@);
        },
        None => {},
    }
}

/// An update replaces the roles of a user by the given ones, in their order, and leaves
/// everything else as Nexus reported it.
pub proof fn updates_replace_the_roles_only(current: NexusUser, roles: Seq<Seq<char>>)
    ensures
        with_roles(current@, roles).user_id == current.user_id@,
        with_roles(current@, roles).first_name == current.first_name@,
        with_roles(current@, roles).last_name == current.last_name@,
        with_roles(current@, roles).email_address == current.email_address@,
        with_roles(current@, roles).source == current.source@,
        with_roles(current@, roles).status == current.status@,
        with_roles(current@, roles).roles == roles,
{
}

/// A user and an update show their texts, and the roles keep their places.
pub proof fn users_show_their_texts(user: NexusUser, body: UpdateBody, i: int)
    ensures
        user@.user_id == user.user_id@,
        user@.roles.len() == user.roles@.len(),
        0 <= i < user.roles@.len() ==> user@.roles[i] == user.roles@[i]@,
        user@.external_roles.len() == user.external_roles@.len(),
        0 <= i < user.external_roles@.len() ==> user@.external_roles[i]
            == user.external_roles@[i]@,
        body@.user_id == body.user_id@,
        body@.first_name == body.first_name@,
        body@.last_name == body.last_name@,
        body@.email_address == body.email_address@,
        body@.source == body.source@,
        body@.status == body.status@,
        body@.roles.len() == body.roles@.len(),
        0 <= i < body.roles@.len() ==> body@.roles[i] == body.roles@[i]@,
{
}

/// A refused creation is a duplicate exactly where its status is 500 and the name of the
/// exception stands anywhere in its body, a rejected field exactly where its status is 400 and it
/// lists at least one entry, of which the first is reported, and otherwise unexpected, with its
/// status and body.
pub proof fn refused_creations_are_told_apart(
    user_id: Seq<char>,
    status: u16,
    before: Seq<char>,
    after: Seq<char>,
    body: Seq<char>,
    entries: Seq<NexusValidationEntry>,
)
    ensures
        create_failure(user_id, 500, before + "DuplicateUserException"@ + after, None)
            == CambiumErrorView::NexusUserAlreadyExists(user_id),
        create_failure(user_id, 500, before + "DuplicateUserException"@ + after, Some(views(entries)))
            == CambiumErrorView::NexusUserAlreadyExists(user_id),
        entries.len() > 0 ==> create_failure(user_id, 400, body, Some(views(entries))) == (
        CambiumErrorView::NexusValidation {
            field: Some(entries[0].id@),
            message: entries[0].message@,
        }),
        create_failure(user_id, status, body, None) is NexusUserAlreadyExists ==> status == 500
            && has_text(body, "DuplicateUserException"@),
        !has_text(body, "DuplicateUserException"@) || status != 500 ==> create_failure(
            user_id,
            status,
            body,
            None,
        ) == (CambiumErrorView::NexusUnexpected { status, body }),
        status != 400 && (!has_text(body, "DuplicateUserException"@) || status != 500)
            || entries.len() == 0 && status == 400 ==> create_failure(
            user_id,
            status,
            body,
            Some(views(entries)),
        ) == (CambiumErrorView::NexusUnexpected { status, body }),
{
    holding_a_text(before, "DuplicateUserException"@, after);
    if entries.len() > 0 {
        assert(views(entries)[0] == entries[0]@);
    }
}

/// Users are created at the list of users, searched there by their percent-encoded id, and
/// replaced below it.
pub proof fn requests_go_to_the_users(client: NexusClient, user_id: &str, url: String)
    ensures
        ({
            let users = client.base() + "/service/rest/v1/security"@ + "/users"@;
            &&& call_ensures(NexusClient::create_user_url, (&client,), url) ==> url@ == users
            &&& call_ensures(NexusClient::get_user_url, (&client, user_id), url) ==> url@ == users
                + "?userId="@ + percent_encoded(encode_utf8(user_id@))
            &&& call_ensures(NexusClient::set_user_roles_url, (&client, user_id), url) ==> url@
                == users + "/"@ + user_id@
        }),
{
}

/// An answer is refused exactly where its status does not begin with a two. A refused search or
/// replacement keeps its status and body, and a refused creation is one of three failures.
pub proof fn refusals_are_reported(
    user_id: &str,
    status: u16,
    body: String,
    entries: Option<Vec<NexusValidationEntry>>,
    answer: Option<CambiumError>,
    create_answer: Option<CambiumError>,
)
    requires
        call_ensures(refusal, (status, body), answer),
        call_ensures(create_refusal, (user_id, status, body, entries), create_answer),
    ensures
        answer is None == (status as int / 100 == 2),
        create_answer is None == (status as int / 100 == 2),
        answer matches Some(e) ==> e@ == (CambiumErrorView::NexusUnexpected {
            status,
            body: body@,
        }),
        create_answer matches Some(e) ==> {
            &&& e is NexusUserAlreadyExists == (status == 500 && has_text(
                body@,
                "DuplicateUserException"@,
            ))
            &&& e is NexusValidation == (status == 400 && entries is Some && entries->0@.len() > 0)
            &&& e is NexusUserAlreadyExists || e is NexusValidation || e is NexusUnexpected
        },
{
}

} // verus!
