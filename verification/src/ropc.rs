//! Authenticating a client of the proxy: reading its credentials, having Keycloak check them,
//! and reading who it is out of the token that Keycloak returns.

use crate::error::opt_text;
use crate::keycloak::form_view;
use crate::outside::{
    base64_standard, base64_url_no_pad, decode_base64_standard, decode_base64_url_no_pad,
    json_document, members_view, parse_json, quoted, text_from_utf8, to_quoted,
};
use crate::text::{
    after_prefix, cut_once, cutting_loses_only_the_separator, has_prefix, has_text, holding_a_text,
    join, joined_parts_are_cut_apart, lemma_position, same_text, split_once, trim, trim_end_char,
    trimmed, trimmed_end_char,
};
use vstd::prelude::*;
use vstd::utf8::{
    decode_utf8, encode_utf8, encode_utf8_decode_utf8, encode_utf8_valid_utf8, valid_utf8,
};

verus! {

/// Why a request is not served.
#[derive(Debug, PartialEq, Eq)]
pub enum RopcError {
    InvalidCredentials,
    KeycloakUpstream(String),
    ClaimMissing(String),
    TokenDecodeError,
    UpstreamRequest(String),
    IdentityNotHeaderSafe(String),
}

/// A `RopcError` with its texts.
pub enum RopcErrorView {
    InvalidCredentials,
    KeycloakUpstream(Seq<char>),
    ClaimMissing(Seq<char>),
    TokenDecodeError,
    UpstreamRequest(Seq<char>),
    IdentityNotHeaderSafe(Seq<char>),
}

impl View for RopcError {
    type V = RopcErrorView;

    open spec fn view(&self) -> RopcErrorView {
        match *self {
            RopcError::InvalidCredentials => RopcErrorView::InvalidCredentials,
            RopcError::KeycloakUpstream(e) => RopcErrorView::KeycloakUpstream(e@),
            RopcError::ClaimMissing(claim) => RopcErrorView::ClaimMissing(claim@),
            RopcError::TokenDecodeError => RopcErrorView::TokenDecodeError,
            RopcError::UpstreamRequest(e) => RopcErrorView::UpstreamRequest(e@),
            RopcError::IdentityNotHeaderSafe(identity) => {
                RopcErrorView::IdentityNotHeaderSafe(identity@)
            },
        }
    }
}

/// The message of an error, as it stands in the log.
pub open spec fn ropc_error_message(e: RopcErrorView) -> Seq<char> {
    match e {
        RopcErrorView::InvalidCredentials => "invalid credentials"@,
        RopcErrorView::KeycloakUpstream(e) => "upstream Keycloak error: "@ + e,
        RopcErrorView::ClaimMissing(claim) => {
            "token response did not contain claim "@ + quoted(claim)
        },
        RopcErrorView::TokenDecodeError => "failed to decode token"@,
        RopcErrorView::UpstreamRequest(e) => "upstream Nexus request failed: "@ + e,
        RopcErrorView::IdentityNotHeaderSafe(identity) => {
            "identity claim value is not a valid HTTP header value: "@ + quoted(identity)
        },
    }
}

impl RopcError {
    /// The message of the error.
    pub fn message(&self) -> (r: String)
        ensures
            r@ == ropc_error_message(self@),
    {
        match self {
            RopcError::InvalidCredentials => "invalid credentials".to_owned(),
            RopcError::KeycloakUpstream(e) => join("upstream Keycloak error: ", e.as_str()),
            RopcError::ClaimMissing(claim) => join(
                "token response did not contain claim ",
                to_quoted(claim.as_str()).as_str(),
            ),
            RopcError::TokenDecodeError => "failed to decode token".to_owned(),
            RopcError::UpstreamRequest(e) => join("upstream Nexus request failed: ", e.as_str()),
            RopcError::IdentityNotHeaderSafe(identity) => join(
                "identity claim value is not a valid HTTP header value: ",
                to_quoted(identity.as_str()).as_str(),
            ),
        }
    }
}

/// The username and password that decoded credentials hold: what stands before and behind the
/// first colon of their text. The username must not be empty.
pub open spec fn credentials_of(decoded: Seq<u8>) -> Option<(Seq<char>, Seq<char>)> {
    if valid_utf8(decoded) {
        match split_once(decode_utf8(decoded), ':') {
            Some((user, pass)) => if user.len() > 0 {
                Some((user, pass))
            } else {
                None
            },
            None => None,
        }
    } else {
        None
    }
}

/// Reads decoded credentials.
pub fn read_credentials(decoded: Vec<u8>) -> (r: Option<(String, String)>)
    ensures
        match r {
            Some(pair) => credentials_of(decoded@) == Some((pair.0@, pair.1@)),
            None => credentials_of(decoded@) is None,
        },
{
    match text_from_utf8(decoded) {
        Some(text) => match cut_once(text.as_str(), ':') {
            Some((user, pass)) => if user.as_str().is_empty() {
                None
            } else {
                Some((user, pass))
            },
            None => None,
        },
        None => None,
    }
}

/// The credentials in the value of an `Authorization` header: those behind `Basic `, in base64
/// with or without white space around it.
pub open spec fn basic_auth(header_value: Seq<char>) -> Option<(Seq<char>, Seq<char>)> {
    if has_prefix(header_value, "Basic "@) {
        match base64_standard(trim(header_value.skip("Basic "@.len() as int))) {
            Some(decoded) => credentials_of(decoded),
            None => None,
        }
    } else {
        None
    }
}

/// Reads the value of an `Authorization` header. Anything but well-formed Basic credentials is
/// none.
pub fn parse_basic_auth(header_value: &str) -> (r: Option<(String, String)>)
    ensures
        match r {
            Some(pair) => basic_auth(header_value@) == Some((pair.0@, pair.1@)),
            None => basic_auth(header_value@) is None,
        },
{
    match after_prefix(header_value, "Basic ") {
        Some(encoded) => match decode_base64_standard(trimmed(encoded.as_str()).as_str()) {
            Some(decoded) => read_credentials(decoded),
            None => None,
        },
        None => None,
    }
}

/// What the proxy uses of a token response.
#[derive(Debug, Clone)]
pub struct TokenResponse {
    pub access_token: String,
    pub id_token: Option<String>,
}

/// A `TokenResponse` with its texts.
pub struct TokenResponseView {
    pub access_token: Seq<char>,
    pub id_token: Option<Seq<char>>,
}

impl View for TokenResponse {
    type V = TokenResponseView;

    open spec fn view(&self) -> TokenResponseView {
        TokenResponseView { access_token: self.access_token@, id_token: opt_text(self.id_token) }
    }
}

/// Something that exchanges credentials for a token. A failure says that the credentials are
/// invalid unless the exchange itself could not take place.
pub trait TokenExchanger {
    fn exchange(&self, username: &str, password: &str) -> Result<TokenResponse, RopcError>;
}

/// Where Keycloak's token endpoint is, and the client on whose behalf it is asked.
pub struct KeycloakTokenExchanger {
    issuer: String,
    client_id: String,
    client_secret: String,
}

impl KeycloakTokenExchanger {
    pub closed spec fn issuer(&self) -> Seq<char> {
        self.issuer@
    }

    pub closed spec fn client(&self) -> (Seq<char>, Seq<char>) {
        (self.client_id@, self.client_secret@)
    }

    pub fn new(issuer: String, client_id: String, client_secret: String) -> (r:
        KeycloakTokenExchanger)
        ensures
            r.issuer() == issuer@,
            r.client() == (client_id@, client_secret@),
    {
        KeycloakTokenExchanger { issuer, client_id, client_secret }
    }

    /// The URL of the token endpoint.
    pub fn token_url(&self) -> (r: String)
        ensures
            r@ == trim_end_char(self.issuer(), '/') + "/protocol/openid-connect/token"@,
    {
        join(
            trimmed_end_char(self.issuer.as_str(), '/').as_str(),
            "/protocol/openid-connect/token",
        )
    }

    /// The form that asks the token endpoint to check a password.
    pub fn token_form(&self, username: &str, password: &str) -> (r: Vec<(String, String)>)
        ensures
            form_view(r@) == seq![
                ("grant_type"@, "password"@),
                ("client_id"@, self.client().0),
                ("client_secret"@, self.client().1),
                ("username"@, username@),
                ("password"@, password@),
                ("scope"@, "openid"@),
            ],
    {
        let mut form: Vec<(String, String)> = Vec::new();
        form.push(("grant_type".to_owned(), "password".to_owned()));
        form.push(("client_id".to_owned(), self.client_id.clone()));
        form.push(("client_secret".to_owned(), self.client_secret.clone()));
        form.push(("username".to_owned(), username.to_owned()));
        form.push(("password".to_owned(), password.to_owned()));
        form.push(("scope".to_owned(), "openid".to_owned()));
        assert(form_view(form@) =~= seq![
            ("grant_type"@, "password"@),
            ("client_id"@, self.client().0),
            ("client_secret"@, self.client().1),
            ("username"@, username@),
            ("password"@, password@),
            ("scope"@, "openid"@),
        ]);
        form
    }
}

/// Whether a JSON document is an object with a member of this name.
pub open spec fn has_member(
    document: Option<Option<Seq<(Seq<char>, Option<Seq<char>>)>>>,
    name: Seq<char>,
) -> bool {
    match document {
        Some(Some(members)) => names_member(members, name),
        _ => false,
    }
}

/// Whether some members of a JSON object have this name.
pub open spec fn names_member(
    members: Seq<(Seq<char>, Option<Seq<char>>)>,
    name: Seq<char>,
) -> bool {
    exists|i: int| 0 <= i < members.len() && (#[trigger] members[i]).0 == name
}

/// The text of the first member of this name, where its value is a string.
pub open spec fn member_text(
    members: Seq<(Seq<char>, Option<Seq<char>>)>,
    name: Seq<char>,
) -> Option<Seq<char>>
    decreases members.len(),
{
    if members.len() == 0 {
        None
    } else if members[0].0 == name {
        members[0].1
    } else {
        member_text(members.skip(1), name)
    }
}

/// The texts of a JSON document that was read.
pub open spec fn document_view(
    document: Option<Option<Vec<(String, Option<String>)>>>,
) -> Option<Option<Seq<(Seq<char>, Option<Seq<char>>)>>> {
    match document {
        Some(Some(members)) => Some(Some(members_view(members@))),
        Some(None) => Some(None),
        None => None,
    }
}

/// Finds the first member of this name, or the number of members where there is none.
fn find_member(members: &Vec<(String, Option<String>)>, name: &str) -> (r: usize)
    ensures
        r <= members.len(),
        r < members.len() ==> members_view(members@)[r as int].0 == name@ && member_text(
            members_view(members@),
            name@,
        ) == members_view(members@)[r as int].1,
        r == members.len() ==> member_text(members_view(members@), name@) is None && forall|i: int|
            0 <= i < members.len() ==> (#[trigger] members_view(members@)[i]).0 != name@,
{
    let ghost all = members_view(members@);
    let mut i: usize = 0;
    assert(all.skip(0) =~= all);
    while i < members.len()
        invariant
            i <= members.len(),
            all == members_view(members@),
            member_text(all.skip(i as int), name@) == member_text(all, name@),
            forall|j: int| 0 <= j < i ==> (#[trigger] all[j]).0 != name@,
        decreases members.len() - i,
    {
        let ghost rest = all.skip(i as int);
        assert(rest[0] == all[i as int]);
        assert(all[i as int].0 == members@[i as int].0@);
        if same_text(members[i].0.as_str(), name) {
            return i;
        }
        assert(rest.skip(1) =~= all.skip(i + 1));
        i = i + 1;
    }
    i
}

/// What the answer of the token endpoint means. Only status 200 says that the credentials are
/// valid, and only where the body does not report an error all the same.
pub open spec fn token_outcome(
    status: u16,
    document: Option<Option<Seq<(Seq<char>, Option<Seq<char>>)>>>,
    token: Option<TokenResponseView>,
) -> Result<TokenResponseView, RopcErrorView> {
    if status != 200 || has_member(document, "error"@) {
        Err(RopcErrorView::InvalidCredentials)
    } else {
        match token {
            Some(token) => Ok(token),
            None => Err(RopcErrorView::TokenDecodeError),
        }
    }
}

/// A token response with its texts, where there is one.
pub open spec fn token_view(token: Option<TokenResponse>) -> Option<TokenResponseView> {
    match token {
        Some(token) => Some(token@),
        None => None,
    }
}

/// The result of an exchange with its texts.
pub open spec fn exchange_view(outcome: Result<TokenResponse, RopcError>) -> Result<
    TokenResponseView,
    RopcErrorView,
> {
    match outcome {
        Ok(token) => Ok(token@),
        Err(e) => Err(e@),
    }
}

/// The result of an authentication with its texts.
pub open spec fn identity_view(outcome: Result<String, RopcError>) -> Result<
    Seq<char>,
    RopcErrorView,
> {
    match outcome {
        Ok(identity) => Ok(identity@),
        Err(e) => Err(e@),
    }
}

/// Decides on an answer of the token endpoint whose body was read as the given document and, as
/// far as it is one, as the given token response.
pub fn judge_token_reply(
    status: u16,
    document: Option<Option<Vec<(String, Option<String>)>>>,
    token: Option<TokenResponse>,
) -> (r: Result<TokenResponse, RopcError>)
    ensures
        exchange_view(r) == token_outcome(status, document_view(document), token_view(token)),
{
    if status != 200 {
        return Err(RopcError::InvalidCredentials);
    }
    match &document {
        Some(Some(members)) => {
            let i = find_member(members, "error");
            if i < members.len() {
                assert(names_member(members_view(members@), "error"@));
                return Err(RopcError::InvalidCredentials);
            }
        },
        _ => {},
    }
    match token {
        Some(token) => Ok(token),
        None => Err(RopcError::TokenDecodeError),
    }
}

/// Decides on an answer of the token endpoint. `token` is its body read as a token response,
/// where it is one.
pub fn read_token_reply(status: u16, body: &str, token: Option<TokenResponse>) -> (r: Result<
    TokenResponse,
    RopcError,
>)
    ensures
        exchange_view(r) == token_outcome(
            status,
            json_document(encode_utf8(body@)),
            token_view(token),
        ),
{
    let document = parse_json(body.as_bytes());
    judge_token_reply(status, document, token)
}

/// The second of the parts of a token that dots separate.
pub open spec fn payload_of(jwt: Seq<char>) -> Option<Seq<char>> {
    match split_once(jwt, '.') {
        Some((header, rest)) => match split_once(rest, '.') {
            Some((payload, signature)) => Some(payload),
            None => Some(rest),
        },
        None => None,
    }
}

/// The claims of a token: its payload in unpadded URL-safe base64, read as JSON.
pub open spec fn claims_of(jwt: Seq<char>) -> Option<Option<Seq<(Seq<char>, Option<Seq<char>>)>>> {
    match payload_of(jwt) {
        Some(payload) => match base64_url_no_pad(payload) {
            Some(decoded) => json_document(decoded),
            None => None,
        },
        None => None,
    }
}

/// Reads the second of the parts of a token.
pub fn jwt_payload(jwt: &str) -> (r: Option<String>)
    ensures
        match r {
            Some(payload) => payload_of(jwt@) == Some(payload@),
            None => payload_of(jwt@) is None,
        },
{
    match cut_once(jwt, '.') {
        Some((_, rest)) => match cut_once(rest.as_str(), '.') {
            Some((payload, _)) => Some(payload),
            None => Some(rest),
        },
        None => None,
    }
}

/// Reads the claims of a token. The signature is not looked at: the token comes straight from
/// Keycloak, which has just checked the password.
fn decode_jwt_claims(jwt: &str) -> (r: Option<Option<Vec<(String, Option<String>)>>>)
    ensures
        document_view(r) == claims_of(jwt@),
{
    match jwt_payload(jwt) {
        Some(payload) => match decode_base64_url_no_pad(payload.as_str()) {
            Some(decoded) => parse_json(decoded.as_slice()),
            None => None,
        },
        None => None,
    }
}

/// The text of a claim. Claims that could not be read are one error; a claim that is missing or
/// is no string is another.
pub open spec fn claim_of(
    claims: Option<Option<Seq<(Seq<char>, Option<Seq<char>>)>>>,
    claim: Seq<char>,
) -> Result<Seq<char>, RopcErrorView> {
    match claims {
        None => Err(RopcErrorView::TokenDecodeError),
        Some(None) => Err(RopcErrorView::ClaimMissing(claim)),
        Some(Some(members)) => match member_text(members, claim) {
            Some(text) => Ok(text),
            None => Err(RopcErrorView::ClaimMissing(claim)),
        },
    }
}

/// Picks a claim out of claims that were read.
pub fn pick_claim(
    claims: Option<Option<Vec<(String, Option<String>)>>>,
    claim: &str,
) -> (r: Result<String, RopcError>)
    ensures
        identity_view(r) == claim_of(document_view(claims), claim@),
{
    match claims {
        None => Err(RopcError::TokenDecodeError),
        Some(None) => Err(RopcError::ClaimMissing(claim.to_owned())),
        Some(Some(members)) => {
            let i = find_member(&members, claim);
            if i < members.len() {
                assert(members_view(members@)[i as int].1 == opt_text(members@[i as int].1));
                match &members[i].1 {
                    Some(text) => {
                        return Ok(text.clone());
                    },
                    None => {},
                }
            }
            Err(RopcError::ClaimMissing(claim.to_owned()))
        },
    }
}

/// The identity that a token response states: the given claim of its ID token, or of its access
/// token where it has no ID token.
pub open spec fn identity_of(token: TokenResponseView, claim: Seq<char>) -> Result<
    Seq<char>,
    RopcErrorView,
> {
    claim_of(
        claims_of(
            match token.id_token {
                Some(id_token) => id_token,
                None => token.access_token,
            },
        ),
        claim,
    )
}

/// Reads the identity out of a token response. The ID token is the one that is meant to carry
/// it; the access token stands in where there is none.
pub fn extract_identity_claim(token: &TokenResponse, claim: &str) -> (r: Result<String, RopcError>)
    ensures
        identity_view(r) == identity_of(token@, claim@),
{
    let claims = match &token.id_token {
        Some(id_token) => decode_jwt_claims(id_token.as_str()),
        None => decode_jwt_claims(token.access_token.as_str()),
    };
    pick_claim(claims, claim)
}

/// The ID token decides where there is one, whatever the access token holds.
pub proof fn id_token_decides(
    id_token: Seq<char>,
    access_token: Seq<char>,
    other_access_token: Seq<char>,
    claim: Seq<char>,
)
    ensures
        identity_of(
            TokenResponseView { access_token, id_token: Some(id_token) },
            claim,
        ) == identity_of(
            TokenResponseView { access_token: other_access_token, id_token: Some(id_token) },
            claim,
        ),
{
}

/// Credentials never have an empty username, and the username never holds a colon, so the
/// password is everything behind the first colon.
pub proof fn username_ends_at_the_first_colon(decoded: Seq<u8>)
    ensures
        credentials_of(decoded) matches Some((user, pass)) ==> user.len() > 0 && !user.contains(
            ':',
        ) && decode_utf8(decoded) == user + seq![':'] + pass,
{
    let text = decode_utf8(decoded);
    lemma_position(text, ':');
    match credentials_of(decoded) {
        Some((user, pass)) => {
            assert(text =~= user + seq![':'] + pass);
            assert forall|i: int| 0 <= i < user.len() implies user[i] != ':' by {
                assert(user[i] == text[i]);
            }
        },
        None => {},
    }
}

/// An answer of the token endpoint other than 200 is an authentication failure whatever else it
/// holds.
pub proof fn refused_exchange_is_invalid_credentials(
    status: u16,
    document: Option<Option<Seq<(Seq<char>, Option<Seq<char>>)>>>,
    token: Option<TokenResponseView>,
)
    requires
        status != 200 || has_member(document, "error"@),
    ensures
        token_outcome(status, document, token) == Err::<TokenResponseView, _>(
            RopcErrorView::InvalidCredentials,
        ),
{
}

/// Credentials that were sent are read: a username without a colon, and any password.
pub proof fn sent_credentials_are_read(
    encoded: Seq<char>,
    username: Seq<char>,
    password: Seq<char>,
)
    requires
        !username.contains(':'),
    ensures
        ({
            let sent = encode_utf8(username + seq![':'] + password);
            &&& username.len() > 0 ==> credentials_of(sent) == Some((username, password))
            &&& username.len() == 0 ==> credentials_of(sent) is None
            &&& credentials_of(encode_utf8(username)) is None
            &&& base64_standard(trim(encoded)) == Some(sent) ==> basic_auth("Basic "@ + encoded)
                == credentials_of(sent)
            &&& base64_standard(trim(encoded)) is None ==> basic_auth("Basic "@ + encoded) is None
        }),
{
    let text = username + seq![':'] + password;
    encode_utf8_valid_utf8(text);
    encode_utf8_decode_utf8(text);
    encode_utf8_valid_utf8(username);
    encode_utf8_decode_utf8(username);
    joined_parts_are_cut_apart(username, ':', password);
    cutting_loses_only_the_separator(username, ':');
    let n = "Basic "@.len() as int;
    assert(("Basic "@ + encoded).take(n) =~= "Basic "@);
    assert(("Basic "@ + encoded).skip(n) =~= encoded);
}

/// Any other scheme carries no credentials.
pub proof fn other_schemes_are_not_read(header_value: Seq<char>)
    requires
        header_value.len() < 6 || header_value.take(6) != seq!['B', 'a', 's', 'i', 'c', ' '],
    ensures
        basic_auth(header_value) is None,
{
    reveal_strlit("Basic ");
    assert("Basic "@ =~= seq!['B', 'a', 's', 'i', 'c', ' ']);
}

/// An answer of the token endpoint is a success exactly where it has status 200, reports no error
/// and holds a token, and then it is that token.
pub proof fn granted_tokens_are_taken(
    status: u16,
    members: Seq<(Seq<char>, Option<Seq<char>>)>,
    token: TokenResponse,
)
    ensures
        ({
            let document = Some(Some(members));
            let reports_error = exists|i: int|
                0 <= i < members.len() && (#[trigger] members[i]).0 == "error"@;
            let view = TokenResponseView {
                access_token: token.access_token@,
                id_token: match token.id_token {
                    Some(text) => Some(text@),
                    None => None,
                },
            };
            &&& status == 200 && !reports_error ==> token_outcome(
                status,
                document,
                token_view(Some(token)),
            ) == Ok::<_, RopcErrorView>(view) && token_outcome(status, document, token_view(None))
                == Err::<TokenResponseView, _>(RopcErrorView::TokenDecodeError)
            &&& status != 200 || reports_error ==> token_outcome(
                status,
                document,
                token_view(Some(token)),
            ) == Err::<TokenResponseView, _>(RopcErrorView::InvalidCredentials)
            &&& status == 200 ==> token_outcome(status, None, token_view(Some(token))) == Ok::<
                _,
                RopcErrorView,
            >(view) && token_outcome(status, Some(None), token_view(Some(token))) == Ok::<
                _,
                RopcErrorView,
            >(view)
        }),
{
}

/// The payload of a token stands between its first two dots, or behind the only one. A text
/// without a dot has none.
pub proof fn payload_stands_between_the_dots(
    header: Seq<char>,
    payload: Seq<char>,
    signature: Seq<char>,
)
    requires
        !header.contains('.'),
        !payload.contains('.'),
    ensures
        payload_of(header + seq!['.'] + payload + seq!['.'] + signature) == Some(payload),
        payload_of(header + seq!['.'] + payload) == Some(payload),
        payload_of(header) is None,
{
    let rest = payload + seq!['.'] + signature;
    joined_parts_are_cut_apart(header, '.', rest);
    joined_parts_are_cut_apart(payload, '.', signature);
    joined_parts_are_cut_apart(header, '.', payload);
    cutting_loses_only_the_separator(header, '.');
    cutting_loses_only_the_separator(payload, '.');
    assert(header + seq!['.'] + payload + seq!['.'] + signature =~= header + seq!['.'] + rest);
}

/// Of several members of one name the first counts, and only a string is a text.
pub proof fn first_member_counts(
    before: Seq<(Seq<char>, Option<Seq<char>>)>,
    member: (Seq<char>, Option<Seq<char>>),
    after: Seq<(Seq<char>, Option<Seq<char>>)>,
)
    requires
        forall|i: int| 0 <= i < before.len() ==> (#[trigger] before[i]).0 != member.0,
    ensures
        member_text(before + seq![member] + after, member.0) == member.1,
        member_text(before, member.0) is None,
    decreases before.len(),
{
    let all = before + seq![member] + after;
    if before.len() == 0 {
        assert(all[0] == member);
    } else {
        assert(all[0] == before[0]);
        assert(all.skip(1) =~= before.skip(1) + seq![member] + after);
        assert forall|i: int| 0 <= i < before.skip(1).len() implies (
        #[trigger] before.skip(1)[i]).0 != member.0 by {
            assert(before.skip(1)[i] == before[i + 1]);
        }
        first_member_counts(before.skip(1), member, after);
    }
}

/// The identity of a client is the text of the claim in the payload of its ID token, or of its
/// access token where it has no ID token. A claim that is missing or no text is named, and a
/// payload that cannot be read is a failure of its own.
pub proof fn identity_is_the_claim(
    token: TokenResponse,
    header: Seq<char>,
    payload: Seq<char>,
    signature: Seq<char>,
    before: Seq<(Seq<char>, Option<Seq<char>>)>,
    claim: Seq<char>,
    value: Option<Seq<char>>,
    after: Seq<(Seq<char>, Option<Seq<char>>)>,
)
    requires
        (match token.id_token {
            Some(id_token) => id_token@,
            None => token.access_token@,
        }) == header + seq!['.'] + payload + seq!['.'] + signature,
        !header.contains('.'),
        !payload.contains('.'),
        forall|i: int| 0 <= i < before.len() ==> (#[trigger] before[i]).0 != claim,
    ensures
        base64_url_no_pad(payload) matches Some(decoded) ==> {
            &&& json_document(decoded) == Some(Some(before + seq![(claim, value)] + after))
                ==> identity_of(token@, claim) == match value {
                Some(text) => Ok(text),
                None => Err(RopcErrorView::ClaimMissing(claim)),
            }
            &&& json_document(decoded) == Some(Some(before)) || json_document(decoded) == Some(
                None::<Seq<(Seq<char>, Option<Seq<char>>)>>,
            ) ==> identity_of(token@, claim) == Err::<Seq<char>, _>(
                RopcErrorView::ClaimMissing(claim),
            )
            &&& json_document(decoded) is None ==> identity_of(token@, claim) == Err::<
                Seq<char>,
                _,
            >(RopcErrorView::TokenDecodeError)
        },
        base64_url_no_pad(payload) is None ==> identity_of(token@, claim) == Err::<Seq<char>, _>(
            RopcErrorView::TokenDecodeError,
        ),
{
    payload_stands_between_the_dots(header, payload, signature);
    first_member_counts(before, (claim, value), after);
}

/// The message of an error holds what the error carries, and an error shows its texts.
pub proof fn ropc_messages_hold_the_details(e: RopcError)
    ensures
        match e {
            RopcError::InvalidCredentials => e@ is InvalidCredentials && ropc_error_message(e@)
                == "invalid credentials"@,
            RopcError::KeycloakUpstream(text) => e@ == RopcErrorView::KeycloakUpstream(text@)
                && has_text(ropc_error_message(e@), text@),
            RopcError::ClaimMissing(claim) => e@ == RopcErrorView::ClaimMissing(claim@) && has_text(
                ropc_error_message(e@),
                quoted(claim@),
            ),
            RopcError::TokenDecodeError => e@ is TokenDecodeError && ropc_error_message(e@)
                == "failed to decode token"@,
            RopcError::UpstreamRequest(text) => e@ == RopcErrorView::UpstreamRequest(text@)
                && has_text(ropc_error_message(e@), text@),
            RopcError::IdentityNotHeaderSafe(identity) => e@ == RopcErrorView::IdentityNotHeaderSafe(
                identity@,
            ) && has_text(ropc_error_message(e@), quoted(identity@)),
        },
{
    let message = ropc_error_message(e@);
    let none = Seq::<char>::empty();
    match e {
        RopcError::KeycloakUpstream(text) => {
            holding_a_text("upstream Keycloak error: "@, text@, none);
            assert(message =~= "upstream Keycloak error: "@ + text@ + none);
        },
        RopcError::ClaimMissing(claim) => {
            holding_a_text("token response did not contain claim "@, quoted(claim@), none);
            assert(message =~= "token response did not contain claim "@ + quoted(claim@) + none);
        },
        RopcError::UpstreamRequest(text) => {
            holding_a_text("upstream Nexus request failed: "@, text@, none);
            assert(message =~= "upstream Nexus request failed: "@ + text@ + none);
        },
        RopcError::IdentityNotHeaderSafe(identity) => {
            let head = "identity claim value is not a valid HTTP header value: "@;
            holding_a_text(head, quoted(identity@), none);
            assert(message =~= head + quoted(identity@) + none);
        },
        _ => {},
    }
}

} // verus!
