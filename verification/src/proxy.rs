//! The proxy in front of Nexus: what it forwards, with which headers, and how it answers a
//! request that it does not forward.

use crate::config::RopcConfig;
use crate::error::opt_text;
use crate::outside::{
    base64_standard, header_value_accepts, header_value_text, is_header_name, is_header_value,
    is_visible_byte, normalize_header_name, quoted, to_quoted,
};
use crate::ropc::{
    basic_auth, identity_view, parse_basic_auth, sent_credentials_are_read, RopcError,
    RopcErrorView,
};
use crate::text::{
    ascii_lower, has_prefix, join, join3, lower_is, push_bytes, same_lower, trim,
    trim_end_char, trimmed_end_char,
};
use vstd::prelude::*;
use vstd::utf8::encode_utf8;

verus! {

/// The names and values of some headers, in order.
pub open spec fn header_views(headers: Seq<(String, Vec<u8>)>) -> Seq<(Seq<char>, Seq<u8>)> {
    headers.map_values(|header: (String, Vec<u8>)| (header.0@, header.1@))
}

/// Whether a header, its name in lower case, concerns one connection only and is therefore never
/// forwarded.
pub open spec fn is_hop_by_hop(name: Seq<char>) -> bool {
    ||| name == "connection"@
    ||| name == "keep-alive"@
    ||| name == "proxy-authenticate"@
    ||| name == "proxy-authorization"@
    ||| name == "te"@
    ||| name == "trailers"@
    ||| name == "transfer-encoding"@
    ||| name == "upgrade"@
}

/// Whether a request header of this name is forwarded.
pub open spec fn forwards_request_header(name: Seq<char>) -> bool {
    let lower = ascii_lower(name);
    lower != "authorization"@ && lower != "host"@ && !is_hop_by_hop(lower)
}

/// Whether a response header of this name is passed on.
pub open spec fn forwards_response_header(name: Seq<char>) -> bool {
    !is_hop_by_hop(ascii_lower(name))
}

fn hop_by_hop(name: &str) -> (r: bool)
    ensures
        r == is_hop_by_hop(ascii_lower(name@)),
{
    lower_is(name, "connection") || lower_is(name, "keep-alive") || lower_is(
        name,
        "proxy-authenticate",
    ) || lower_is(name, "proxy-authorization") || lower_is(name, "te") || lower_is(
        name,
        "trailers",
    ) || lower_is(name, "transfer-encoding") || lower_is(name, "upgrade")
}

/// Whether a request header of this name is forwarded to Nexus.
pub fn is_forwardable_request_header(name: &str) -> (r: bool)
    ensures
        r == forwards_request_header(name@),
{
    !lower_is(name, "authorization") && !lower_is(name, "host") && !hop_by_hop(name)
}

/// Whether a response header of this name is passed on to the client.
pub fn is_forwardable_response_header(name: &str) -> (r: bool)
    ensures
        r == forwards_response_header(name@),
{
    !hop_by_hop(name)
}

/// The headers whose names satisfy `keep`, in order.
pub open spec fn kept(
    headers: Seq<(Seq<char>, Seq<u8>)>,
    keep: spec_fn(Seq<char>) -> bool,
) -> Seq<(Seq<char>, Seq<u8>)>
    decreases headers.len(),
{
    if headers.len() == 0 {
        headers
    } else {
        let rest = kept(headers.drop_last(), keep);
        if keep(headers.last().0) {
            rest.push(headers.last())
        } else {
            rest
        }
    }
}

/// Whether two header names are the same, whatever their case.
pub open spec fn same_header(a: Seq<char>, b: Seq<char>) -> bool {
    ascii_lower(a) == ascii_lower(b)
}

/// The headers that go to Nexus: those of the client that are forwarded, but for any by the name
/// of the identity header, and then that header with the identity.
pub open spec fn forwarded(
    headers: Seq<(Seq<char>, Seq<u8>)>,
    identity_header: Seq<char>,
    identity: Seq<char>,
) -> Seq<(Seq<char>, Seq<u8>)> {
    kept(
        headers,
        |name: Seq<char>| forwards_request_header(name) && !same_header(name, identity_header),
    ).push((identity_header, encode_utf8(identity)))
}

/// A copy of some bytes.
fn clone_bytes(bytes: &Vec<u8>) -> (r: Vec<u8>)
    ensures
        r@ == bytes@,
{
    let mut r: Vec<u8> = Vec::new();
    let mut i: usize = 0;
    while i < bytes.len()
        invariant
            i <= bytes.len(),
            r@ =~= bytes@.take(i as int),
        decreases bytes.len() - i,
    {
        r.push(bytes[i]);
        i = i + 1;
    }
    assert(bytes@.take(bytes.len() as int) =~= bytes@);
    r
}

/// Makes the headers that go to Nexus. An identity that cannot stand in a header is an error:
/// without it Nexus would be told nobody.
pub fn forward_headers(
    headers: &Vec<(String, Vec<u8>)>,
    identity_header: &str,
    identity: &str,
) -> (r: Result<Vec<(String, Vec<u8>)>, RopcError>)
    ensures
        match r {
            Ok(shown) => is_header_value(identity@) && header_views(shown@) == forwarded(
                header_views(headers@),
                identity_header@,
                identity@,
            ),
            Err(e) => !is_header_value(identity@) && e@ == RopcErrorView::IdentityNotHeaderSafe(
                identity@,
            ),
        },
{
    if !header_value_accepts(identity) {
        return Err(RopcError::IdentityNotHeaderSafe(identity.to_owned()));
    }
    let ghost all = header_views(headers@);
    let ghost keep = |name: Seq<char>|
        forwards_request_header(name) && !same_header(name, identity_header@);
    let mut shown: Vec<(String, Vec<u8>)> = Vec::new();
    let mut i: usize = 0;
    assert(header_views(shown@) =~= kept(all.take(0), keep));
    while i < headers.len()
        invariant
            i <= headers.len(),
            all == header_views(headers@),
            keep == (|name: Seq<char>|
                forwards_request_header(name) && !same_header(name, identity_header@)),
            header_views(shown@) == kept(all.take(i as int), keep),
        decreases headers.len() - i,
    {
        let ghost before = shown@;
        let name = headers[i].0.as_str();
        proof {
            assert(all.take(i + 1).drop_last() =~= all.take(i as int));
            assert(all.take(i + 1).last() == all[i as int]);
        }
        if is_forwardable_request_header(name) && !same_lower(name, identity_header) {
            let header = (headers[i].0.clone(), clone_bytes(&headers[i].1));
            shown.push(header);
            assert(header_views(shown@) =~= header_views(before).push((header.0@, header.1@)));
        }
        i = i + 1;
    }
    assert(all.take(headers.len() as int) =~= all);
    let ghost before = shown@;
    let mut value: Vec<u8> = Vec::new();
    push_bytes(&mut value, identity);
    assert(value@ =~= encode_utf8(identity@));
    let header = (identity_header.to_owned(), value);
    shown.push(header);
    assert(header_views(shown@) =~= header_views(before).push((header.0@, header.1@)));
    Ok(shown)
}

/// Makes the headers that go back to the client.
pub fn response_headers(headers: &Vec<(String, Vec<u8>)>) -> (r: Vec<(String, Vec<u8>)>)
    ensures
        header_views(r@) == kept(
            header_views(headers@),
            |name: Seq<char>| forwards_response_header(name),
        ),
{
    let ghost all = header_views(headers@);
    let ghost keep = |name: Seq<char>| forwards_response_header(name);
    let mut shown: Vec<(String, Vec<u8>)> = Vec::new();
    let mut i: usize = 0;
    assert(header_views(shown@) =~= kept(all.take(0), keep));
    while i < headers.len()
        invariant
            i <= headers.len(),
            all == header_views(headers@),
            keep == (|name: Seq<char>| forwards_response_header(name)),
            header_views(shown@) == kept(all.take(i as int), keep),
        decreases headers.len() - i,
    {
        let ghost before = shown@;
        proof {
            assert(all.take(i + 1).drop_last() =~= all.take(i as int));
            assert(all.take(i + 1).last() == all[i as int]);
        }
        if is_forwardable_response_header(headers[i].0.as_str()) {
            let header = (headers[i].0.clone(), clone_bytes(&headers[i].1));
            shown.push(header);
            assert(header_views(shown@) =~= header_views(before).push((header.0@, header.1@)));
        }
        i = i + 1;
    }
    assert(all.take(headers.len() as int) =~= all);
    shown
}

/// The URL that a request goes to: the path and query it came with, at the upstream. A request
/// without a path goes to the root.
pub open spec fn upstream_url(base: Seq<char>, path_and_query: Option<Seq<char>>) -> Seq<char> {
    trim_end_char(base, '/') + match path_and_query {
        Some(path) => path,
        None => "/"@,
    }
}

/// Makes the URL that a request goes to.
pub fn build_upstream_url(base: &str, path_and_query: Option<&str>) -> (r: String)
    ensures
        r@ == upstream_url(
            base@,
            match path_and_query {
                Some(path) => Some(path@),
                None => None,
            },
        ),
{
    let base = trimmed_end_char(base, '/');
    match path_and_query {
        Some(path) => join(base.as_str(), path),
        None => join(base.as_str(), "/"),
    }
}

/// The value of the first header of this name.
pub open spec fn first_value(headers: Seq<(Seq<char>, Seq<u8>)>, name: Seq<char>) -> Option<
    Seq<u8>,
>
    decreases headers.len(),
{
    if headers.len() == 0 {
        None
    } else if ascii_lower(headers[0].0) == name {
        Some(headers[0].1)
    } else {
        first_value(headers.skip(1), name)
    }
}

/// The text of a header value; none where it holds anything but visible ASCII characters,
/// spaces and tabs.
pub open spec fn value_text(value: Seq<u8>) -> Option<Seq<char>> {
    if forall|i: int| 0 <= i < value.len() ==> is_visible_byte(value[i]) {
        Some(value.map_values(|b: u8| b as char))
    } else {
        None
    }
}

/// The credentials that a request carries.
pub open spec fn request_credentials(headers: Seq<(Seq<char>, Seq<u8>)>) -> Option<
    (Seq<char>, Seq<char>),
> {
    match first_value(headers, "authorization"@) {
        Some(value) => match value_text(value) {
            Some(text) => basic_auth(text),
            None => None,
        },
        None => None,
    }
}

/// The text of the first `Authorization` header.
pub fn authorization(headers: &Vec<(String, Vec<u8>)>) -> (r: Option<String>)
    ensures
        match first_value(header_views(headers@), "authorization"@) {
            Some(value) => match r {
                Some(text) => value_text(value) == Some(text@),
                None => value_text(value) is None,
            },
            None => r is None,
        },
{
    let ghost all = header_views(headers@);
    let mut i: usize = 0;
    assert(all.skip(0) =~= all);
    while i < headers.len()
        invariant
            i <= headers.len(),
            all == header_views(headers@),
            first_value(all.skip(i as int), "authorization"@) == first_value(
                all,
                "authorization"@,
            ),
        decreases headers.len() - i,
    {
        let ghost rest = all.skip(i as int);
        assert(rest[0] == all[i as int]);
        assert(rest.skip(1) =~= all.skip(i + 1));
        if lower_is(headers[i].0.as_str(), "authorization") {
            let text = header_value_text(headers[i].1.as_slice());
            return text;
        }
        i = i + 1;
    }
    None
}

/// Reads the credentials that a request carries.
pub fn credentials(headers: &Vec<(String, Vec<u8>)>) -> (r: Option<(String, String)>)
    ensures
        match r {
            Some(pair) => request_credentials(header_views(headers@)) == Some(
                (pair.0@, pair.1@),
            ),
            None => request_credentials(header_views(headers@)) is None,
        },
{
    match authorization(headers) {
        Some(text) => parse_basic_auth(text.as_str()),
        None => None,
    }
}

/// An answer that the proxy gives by itself.
#[derive(Debug, PartialEq, Eq)]
pub struct Answer {
    pub status: u16,
    /// The value of the `WWW-Authenticate` header, where there is one.
    pub www_authenticate: Option<String>,
    pub body: String,
}

/// An `Answer` with its texts.
pub struct AnswerView {
    pub status: u16,
    pub www_authenticate: Option<Seq<char>>,
    pub body: Seq<char>,
}

impl View for Answer {
    type V = AnswerView;

    open spec fn view(&self) -> AnswerView {
        AnswerView {
            status: self.status,
            www_authenticate: opt_text(self.www_authenticate),
            body: self.body@,
        }
    }
}

/// The answer that asks for credentials.
pub open spec fn challenge() -> AnswerView {
    AnswerView {
        status: 401,
        www_authenticate: Some("Basic realm=\"Nexus\""@),
        body: ""@,
    }
}

/// The answer to a request that is not authenticated, whatever the reason.
pub fn unauthorized() -> (r: Answer)
    ensures
        r@ == challenge(),
{
    Answer {
        status: 401,
        www_authenticate: Some("Basic realm=\"Nexus\"".to_owned()),
        body: "".to_owned(),
    }
}

/// The answer to a request that could not be forwarded.
pub open spec fn forward_answer(e: RopcErrorView) -> AnswerView {
    if e is IdentityNotHeaderSafe {
        AnswerView {
            status: 500,
            www_authenticate: None,
            body: "identity claim could not be forwarded"@,
        }
    } else {
        AnswerView { status: 502, www_authenticate: None, body: "upstream request failed"@ }
    }
}

/// Answers a request that could not be forwarded.
pub fn forward_failure(e: &RopcError) -> (r: Answer)
    ensures
        r@ == forward_answer(e@),
{
    match e {
        RopcError::IdentityNotHeaderSafe(_) => Answer {
            status: 500,
            www_authenticate: None,
            body: "identity claim could not be forwarded".to_owned(),
        },
        _ => Answer {
            status: 502,
            www_authenticate: None,
            body: "upstream request failed".to_owned(),
        },
    }
}

/// What the proxy needs to know to forward a request.
#[derive(Debug)]
pub struct RopcState {
    pub identity_claim: String,
    pub rutauth_header: String,
    pub nexus_upstream: String,
}

impl RopcState {
    /// Takes what is needed from the settings. The name of the identity header must be one, and
    /// is put in lower case.
    pub fn new(config: &RopcConfig) -> (r: Result<RopcState, String>)
        ensures
            match r {
                Ok(state) => is_header_name(config@.rutauth_header) && state.rutauth_header@
                    == ascii_lower(config@.rutauth_header) && state.identity_claim@
                    == config@.identity_claim && state.nexus_upstream@ == config@.nexus_upstream,
                Err(message) => !is_header_name(config@.rutauth_header) && message@
                    == "invalid RUTAUTH_HEADER "@ + quoted(config@.rutauth_header)
                    + ": invalid HTTP header name"@,
            },
    {
        match normalize_header_name(config.rutauth_header.as_str()) {
            Some(rutauth_header) => Ok(
                RopcState {
                    identity_claim: config.identity_claim.clone(),
                    rutauth_header,
                    nexus_upstream: config.nexus_upstream.clone(),
                },
            ),
            None => Err(
                join3(
                    "invalid RUTAUTH_HEADER ",
                    to_quoted(config.rutauth_header.as_str()).as_str(),
                    ": invalid HTTP header name",
                ),
            ),
        }
    }

    /// The URL and the headers with which a request of the client with this identity goes to
    /// Nexus, or the answer where it cannot go there.
    pub fn prepare(
        &self,
        identity: &str,
        path_and_query: Option<&str>,
        headers: &Vec<(String, Vec<u8>)>,
    ) -> (r: Result<(String, Vec<(String, Vec<u8>)>), RopcError>)
        ensures
            match r {
                Ok((url, shown)) => is_header_value(identity@) && url@ == upstream_url(
                    self.nexus_upstream@,
                    match path_and_query {
                        Some(path) => Some(path@),
                        None => None,
                    },
                ) && header_views(shown@) == forwarded(
                    header_views(headers@),
                    self.rutauth_header@,
                    identity@,
                ),
                Err(e) => !is_header_value(identity@) && e@
                    == RopcErrorView::IdentityNotHeaderSafe(identity@),
            },
    {
        let url = build_upstream_url(self.nexus_upstream.as_str(), path_and_query);
        match forward_headers(headers, self.rutauth_header.as_str(), identity) {
            Ok(shown) => Ok((url, shown)),
            Err(e) => Err(e),
        }
    }
}

/// What to do with a request next.
#[derive(Debug)]
pub enum ProxyStep {
    /// Find out who the client is.
    Authenticate { username: String, password: String },
    /// Send the request on.
    Forward { url: String, headers: Vec<(String, Vec<u8>)> },
    /// Answer it without sending it on.
    Answer(Answer),
}

/// A `ProxyStep` with its texts.
pub enum ProxyStepView {
    Authenticate { username: Seq<char>, password: Seq<char> },
    Forward { url: Seq<char>, headers: Seq<(Seq<char>, Seq<u8>)> },
    Answer(AnswerView),
}

impl View for ProxyStep {
    type V = ProxyStepView;

    open spec fn view(&self) -> ProxyStepView {
        match *self {
            ProxyStep::Authenticate { username, password } => ProxyStepView::Authenticate {
                username: username@,
                password: password@,
            },
            ProxyStep::Forward { url, headers } => ProxyStepView::Forward {
                url: url@,
                headers: header_views(headers@),
            },
            ProxyStep::Answer(answer) => ProxyStepView::Answer(answer@),
        }
    }
}

/// What is done with a request that has just arrived: one without well-formed credentials is
/// asked for them.
pub open spec fn arrived(headers: Seq<(Seq<char>, Seq<u8>)>) -> ProxyStepView {
    match request_credentials(headers) {
        Some((username, password)) => ProxyStepView::Authenticate { username, password },
        None => ProxyStepView::Answer(challenge()),
    }
}

/// What is done with a request once it is known who sent it. Whatever the reason for which that
/// could not be found out, the client is only asked for credentials.
pub open spec fn identified(
    nexus_upstream: Seq<char>,
    rutauth_header: Seq<char>,
    outcome: Result<Seq<char>, RopcErrorView>,
    path_and_query: Option<Seq<char>>,
    headers: Seq<(Seq<char>, Seq<u8>)>,
) -> ProxyStepView {
    match outcome {
        Err(e) => ProxyStepView::Answer(challenge()),
        Ok(identity) => if is_header_value(identity) {
            ProxyStepView::Forward {
                url: upstream_url(nexus_upstream, path_and_query),
                headers: forwarded(headers, rutauth_header, identity),
            }
        } else {
            ProxyStepView::Answer(
                forward_answer(RopcErrorView::IdentityNotHeaderSafe(identity)),
            )
        },
    }
}

/// Decides what to do with a request that has just arrived.
pub fn receive(headers: &Vec<(String, Vec<u8>)>) -> (r: ProxyStep)
    ensures
        r@ == arrived(header_views(headers@)),
{
    match credentials(headers) {
        Some((username, password)) => ProxyStep::Authenticate { username, password },
        None => ProxyStep::Answer(unauthorized()),
    }
}

impl RopcState {
    /// Decides what to do with a request once it is known who sent it.
    pub fn dispatch(
        &self,
        outcome: Result<String, RopcError>,
        path_and_query: Option<&str>,
        headers: &Vec<(String, Vec<u8>)>,
    ) -> (r: ProxyStep)
        ensures
            r@ == identified(
                self.nexus_upstream@,
                self.rutauth_header@,
                identity_view(outcome),
                match path_and_query {
                    Some(path) => Some(path@),
                    None => None,
                },
                header_views(headers@),
            ),
    {
        match outcome {
            Err(_) => ProxyStep::Answer(unauthorized()),
            Ok(identity) => match self.prepare(identity.as_str(), path_and_query, headers) {
                Ok((url, headers)) => ProxyStep::Forward { url, headers },
                Err(e) => ProxyStep::Answer(forward_failure(&e)),
            },
        }
    }
}

/// Every way of not being authenticated gets the same answer, so that a client learns nothing
/// from it.
pub proof fn rejections_are_uniform(
    nexus_upstream: Seq<char>,
    rutauth_header: Seq<char>,
    error: RopcErrorView,
    path_and_query: Option<Seq<char>>,
    headers: Seq<(Seq<char>, Seq<u8>)>,
    bare_headers: Seq<(Seq<char>, Seq<u8>)>,
)
    requires
        request_credentials(bare_headers) is None,
    ensures
        identified(nexus_upstream, rutauth_header, Err(error), path_and_query, headers) == arrived(
            bare_headers,
        ),
        arrived(bare_headers) == ProxyStepView::Answer(challenge()),
{
}

/// Nothing goes to Nexus on behalf of a client that is not authenticated or whose identity
/// cannot stand in a header.
pub proof fn nothing_is_forwarded_without_an_identity(
    nexus_upstream: Seq<char>,
    rutauth_header: Seq<char>,
    outcome: Result<Seq<char>, RopcErrorView>,
    path_and_query: Option<Seq<char>>,
    headers: Seq<(Seq<char>, Seq<u8>)>,
)
    ensures
        !(arrived(headers) is Forward),
        identified(nexus_upstream, rutauth_header, outcome, path_and_query, headers) is Forward
            ==> outcome is Ok && is_header_value(outcome->Ok_0),
{
}

/// Every kept header was there before, and its name satisfies the condition.
proof fn lemma_kept(headers: Seq<(Seq<char>, Seq<u8>)>, keep: spec_fn(Seq<char>) -> bool, i: int)
    requires
        0 <= i < kept(headers, keep).len(),
    ensures
        keep(kept(headers, keep)[i].0),
        headers.contains(kept(headers, keep)[i]),
    decreases headers.len(),
{
    let rest = headers.drop_last();
    assert(headers[headers.len() - 1] == headers.last());
    if i < kept(rest, keep).len() {
        lemma_kept(rest, keep, i);
        let j = rest.index_of(kept(rest, keep)[i]);
        assert(headers[j] == rest[j]);
    }
}

/// Every header whose name satisfies the condition is kept.
proof fn lemma_keeps(headers: Seq<(Seq<char>, Seq<u8>)>, keep: spec_fn(Seq<char>) -> bool, i: int)
    requires
        0 <= i < headers.len(),
        keep(headers[i].0),
    ensures
        kept(headers, keep).contains(headers[i]),
    decreases headers.len(),
{
    let rest = headers.drop_last();
    let all = kept(headers, keep);
    if i == headers.len() - 1 {
        assert(all[all.len() - 1] == headers[i]);
    } else {
        assert(rest[i] == headers[i]);
        lemma_keeps(rest, keep, i);
        let j = kept(rest, keep).index_of(headers[i]);
        assert(all[j] == headers[i]);
    }
}

/// The client's credentials never reach Nexus, nor do the headers of the connection, unless the
/// operator made one of them the identity header.
pub proof fn credentials_are_never_forwarded(
    headers: Seq<(Seq<char>, Seq<u8>)>,
    identity_header: Seq<char>,
    identity: Seq<char>,
    i: int,
)
    requires
        0 <= i < forwarded(headers, identity_header, identity).len(),
        !forwards_request_header(forwarded(headers, identity_header, identity)[i].0),
    ensures
        i == forwarded(headers, identity_header, identity).len() - 1,
        same_header(forwarded(headers, identity_header, identity)[i].0, identity_header),
{
    let keep = |name: Seq<char>|
        forwards_request_header(name) && !same_header(name, identity_header);
    if i < kept(headers, keep).len() {
        lemma_kept(headers, keep, i);
    }
}

/// Nexus is told exactly one identity, and it is the authenticated one: whatever the client sent
/// under the name of the identity header, in any case, is dropped.
pub proof fn exactly_one_identity_is_forwarded(
    headers: Seq<(Seq<char>, Seq<u8>)>,
    identity_header: Seq<char>,
    identity: Seq<char>,
    i: int,
)
    requires
        0 <= i < forwarded(headers, identity_header, identity).len(),
    ensures
        same_header(forwarded(headers, identity_header, identity)[i].0, identity_header) == (i
            == forwarded(headers, identity_header, identity).len() - 1),
        forwarded(headers, identity_header, identity).last() == (
            identity_header,
            encode_utf8(identity),
        ),
{
    let keep = |name: Seq<char>|
        forwards_request_header(name) && !same_header(name, identity_header);
    if i < kept(headers, keep).len() {
        lemma_kept(headers, keep, i);
    }
}

/// Every other header of the client is forwarded as it came.
pub proof fn other_headers_are_forwarded(
    headers: Seq<(Seq<char>, Seq<u8>)>,
    identity_header: Seq<char>,
    identity: Seq<char>,
    i: int,
)
    requires
        0 <= i < headers.len(),
        forwards_request_header(headers[i].0),
        !same_header(headers[i].0, identity_header),
    ensures
        forwarded(headers, identity_header, identity).contains(headers[i]),
{
    let keep = |name: Seq<char>|
        forwards_request_header(name) && !same_header(name, identity_header);
    lemma_keeps(headers, keep, i);
    let j = kept(headers, keep).index_of(headers[i]);
    assert(forwarded(headers, identity_header, identity)[j] == headers[i]);
}

/// A request cannot choose where it goes: the URL begins with the upstream, whatever path the
/// request came with.
pub proof fn upstream_cannot_be_overridden(base: Seq<char>, path_and_query: Option<Seq<char>>)
    ensures
        has_prefix(upstream_url(base, path_and_query), trim_end_char(base, '/')),
{
    let head = trim_end_char(base, '/');
    assert(upstream_url(base, path_and_query).take(head.len() as int) =~= head);
}

/// A request goes to its own path at the upstream: behind the upstream without its final slashes
/// stands the whole path and query, and nothing else. A request without one goes to the root.
pub proof fn whole_path_is_requested(base: Seq<char>, path: Seq<char>)
    ensures
        ({
            let head = trim_end_char(base, '/');
            let url = upstream_url(base, Some(path));
            &&& url.len() == head.len() + path.len()
            &&& url.take(head.len() as int) == head
            &&& url.skip(head.len() as int) == path
            &&& upstream_url(base, None) == head + seq!['/']
        }),
{
    let head = trim_end_char(base, '/');
    let url = upstream_url(base, Some(path));
    assert(url.take(head.len() as int) =~= head);
    assert(url.skip(head.len() as int) =~= path);
    reveal_strlit("/");
    assert("/"@ =~= seq!['/']);
}

/// Headers keep their places when their texts are taken.
pub proof fn header_texts_keep_their_places(headers: Seq<(String, Vec<u8>)>, i: int)
    ensures
        header_views(headers).len() == headers.len(),
        0 <= i < headers.len() ==> header_views(headers)[i] == (headers[i].0@, headers[i].1@),
{
}

/// Exactly the headers that concern one connection only go no further, in whatever case they are
/// written; of a request, its credentials and its host stay here as well.
pub proof fn connection_headers_go_no_further(name: Seq<char>)
    ensures
        forwards_response_header(name) == !seq![
            "connection"@,
            "keep-alive"@,
            "proxy-authenticate"@,
            "proxy-authorization"@,
            "te"@,
            "trailers"@,
            "transfer-encoding"@,
            "upgrade"@,
        ].contains(ascii_lower(name)),
        forwards_request_header(name) == (forwards_response_header(name) && !seq![
            "authorization"@,
            "host"@,
        ].contains(ascii_lower(name))),
{
    let hops = seq![
        "connection"@,
        "keep-alive"@,
        "proxy-authenticate"@,
        "proxy-authorization"@,
        "te"@,
        "trailers"@,
        "transfer-encoding"@,
        "upgrade"@,
    ];
    let own = seq!["authorization"@, "host"@];
    assert(hops[0] == "connection"@ && hops[1] == "keep-alive"@ && hops[2] == "proxy-authenticate"@
        && hops[3] == "proxy-authorization"@ && hops[4] == "te"@ && hops[5] == "trailers"@
        && hops[6] == "transfer-encoding"@ && hops[7] == "upgrade"@);
    assert(own[0] == "authorization"@ && own[1] == "host"@);
}

/// Each header is kept or dropped by its own name alone, and those that are kept stay in order:
/// what is kept of two lists is kept of the one and then of the other.
pub proof fn headers_are_kept_one_by_one(
    before: Seq<(Seq<char>, Seq<u8>)>,
    header: (Seq<char>, Seq<u8>),
    after: Seq<(Seq<char>, Seq<u8>)>,
    keep: spec_fn(Seq<char>) -> bool,
)
    ensures
        kept(before + after, keep) == kept(before, keep) + kept(after, keep),
        keep(header.0) ==> kept(seq![header], keep) == seq![header],
        !keep(header.0) ==> kept(seq![header], keep).len() == 0,
    decreases after.len(),
{
    let one = seq![header];
    assert(one.drop_last().len() == 0);
    assert(kept(one.drop_last(), keep).len() == 0);
    assert(keep(header.0) ==> kept(one, keep) =~= one);
    if after.len() == 0 {
        assert(before + after =~= before);
        assert(kept(before, keep) + kept(after, keep) =~= kept(before, keep));
    } else {
        headers_are_kept_one_by_one(before, header, after.drop_last(), keep);
        assert((before + after).drop_last() =~= before + after.drop_last());
        assert((before + after).last() == after.last());
        assert(kept(before + after, keep) =~= kept(before, keep) + kept(after, keep));
    }
}

/// What goes to Nexus of two lists of headers is what goes of the one and then what goes of the
/// other, and the identity once, at the end. A header goes exactly where its name is neither the
/// identity header's nor one of those that stay here.
pub proof fn headers_are_forwarded_one_by_one(
    before: Seq<(Seq<char>, Seq<u8>)>,
    header: (Seq<char>, Seq<u8>),
    after: Seq<(Seq<char>, Seq<u8>)>,
    identity_header: Seq<char>,
    identity: Seq<char>,
)
    ensures
        forwarded(before + after, identity_header, identity) == forwarded(
            before,
            identity_header,
            identity,
        ).drop_last() + forwarded(after, identity_header, identity),
        forwarded(Seq::empty(), identity_header, identity) == seq![
            (identity_header, encode_utf8(identity)),
        ],
        forwarded(seq![header], identity_header, identity) == if forwards_request_header(header.0)
            && ascii_lower(header.0) != ascii_lower(identity_header) {
            seq![header, (identity_header, encode_utf8(identity))]
        } else {
            seq![(identity_header, encode_utf8(identity))]
        },
{
    let keep = |name: Seq<char>|
        forwards_request_header(name) && !same_header(name, identity_header);
    let end = (identity_header, encode_utf8(identity));
    headers_are_kept_one_by_one(before, header, after, keep);
    assert(forwarded(before + after, identity_header, identity) =~= forwarded(
        before,
        identity_header,
        identity,
    ).drop_last() + forwarded(after, identity_header, identity));
    assert(forwarded(Seq::empty(), identity_header, identity) =~= seq![end]);
    if keep(header.0) {
        assert(forwarded(seq![header], identity_header, identity) =~= seq![header, end]);
    } else {
        assert(forwarded(seq![header], identity_header, identity) =~= seq![end]);
    }
}

/// Of several headers of one name the first counts, whatever the case in which it is written.
pub proof fn first_header_counts(
    before: Seq<(Seq<char>, Seq<u8>)>,
    header: (Seq<char>, Seq<u8>),
    after: Seq<(Seq<char>, Seq<u8>)>,
    name: Seq<char>,
)
    requires
        forall|i: int| 0 <= i < before.len() ==> ascii_lower((#[trigger] before[i]).0) != name,
    ensures
        ascii_lower(header.0) == name ==> first_value(before + seq![header] + after, name) == Some(
            header.1,
        ),
        first_value(before, name) is None,
    decreases before.len(),
{
    let all = before + seq![header] + after;
    if before.len() == 0 {
        assert(all[0] == header);
    } else {
        assert(all[0] == before[0]);
        assert(all.skip(1) =~= before.skip(1) + seq![header] + after);
        assert forall|i: int| 0 <= i < before.skip(1).len() implies ascii_lower(
            (#[trigger] before.skip(1)[i]).0,
        ) != name by {
            assert(before.skip(1)[i] == before[i + 1]);
        }
        first_header_counts(before.skip(1), header, after, name);
    }
}

/// A header value is read as a text exactly where every byte is a tab or from the space to the
/// tilde, and each byte is one character.
pub proof fn visible_values_are_read(value: Seq<u8>)
    ensures
        value_text(value) is Some == forall|i: int|
            0 <= i < value.len() ==> #[trigger] value[i] == 9 || 32 <= value[i] <= 126,
        value_text(value) matches Some(text) ==> text.len() == value.len() && forall|i: int|
            0 <= i < text.len() ==> #[trigger] text[i] as int == value[i],
{
    if value_text(value) is Some {
        assert forall|i: int| 0 <= i < value.len() implies #[trigger] value[i] == 9 || 32
            <= value[i] <= 126 by {
            assert(is_visible_byte(value[i]));
        }
    }
}

/// A request whose first `Authorization` header holds Basic credentials is authenticated with
/// them: the username that stands before the first colon and the password behind it.
pub proof fn sent_credentials_are_checked(
    before: Seq<(Seq<char>, Seq<u8>)>,
    header: (Seq<char>, Seq<u8>),
    after: Seq<(Seq<char>, Seq<u8>)>,
    encoded: Seq<char>,
    username: Seq<char>,
    password: Seq<char>,
)
    requires
        forall|i: int|
            0 <= i < before.len() ==> ascii_lower((#[trigger] before[i]).0) != "authorization"@,
        ascii_lower(header.0) == "authorization"@,
        value_text(header.1) == Some("Basic "@ + encoded),
        username.len() > 0,
        !username.contains(':'),
    ensures
        base64_standard(trim(encoded)) == Some(encode_utf8(username + seq![':'] + password))
            ==> arrived(before + seq![header] + after) == (ProxyStepView::Authenticate {
            username,
            password,
        }),
{
    first_header_counts(before, header, after, "authorization"@);
    sent_credentials_are_read(encoded, username, password);
}

/// A request that carries no `Authorization` header is answered with 401 and asked for Basic
/// credentials.
pub proof fn bare_requests_are_challenged(headers: Seq<(Seq<char>, Seq<u8>)>)
    requires
        forall|i: int|
            0 <= i < headers.len() ==> ascii_lower((#[trigger] headers[i]).0) != "authorization"@,
    ensures
        arrived(headers) == ProxyStepView::Answer(
            (AnswerView {
                status: 401,
                www_authenticate: Some("Basic realm=\"Nexus\""@),
                body: Seq::empty(),
            }),
        ),
{
    first_header_counts(headers, (Seq::empty(), Seq::empty()), Seq::empty(), "authorization"@);
    reveal_strlit("");
    assert(""@ =~= Seq::<char>::empty());
}

/// Once it is known who sent a request, it is forwarded where the identity can stand in a header,
/// and otherwise answered with 500. Where it is not known it is answered with 401. A request that
/// could not be forwarded for any other reason is answered with 502.
pub proof fn known_clients_are_served(
    nexus_upstream: Seq<char>,
    rutauth_header: Seq<char>,
    identity: Seq<char>,
    path_and_query: Option<Seq<char>>,
    headers: Seq<(Seq<char>, Seq<u8>)>,
    error: RopcErrorView,
)
    ensures
        (forall|i: int|
            0 <= i < encode_utf8(identity).len() ==> #[trigger] encode_utf8(identity)[i] == 9 || (
            encode_utf8(identity)[i] >= 32 && encode_utf8(identity)[i] != 127)) ==> identified(
            nexus_upstream,
            rutauth_header,
            Ok(identity),
            path_and_query,
            headers,
        ) == (ProxyStepView::Forward {
            url: upstream_url(nexus_upstream, path_and_query),
            headers: forwarded(headers, rutauth_header, identity),
        }),
        !is_header_value(identity) ==> identified(
            nexus_upstream,
            rutauth_header,
            Ok(identity),
            path_and_query,
            headers,
        ) == ProxyStepView::Answer(
            forward_answer(RopcErrorView::IdentityNotHeaderSafe(identity)),
        ),
        (identified(
            nexus_upstream,
            rutauth_header,
            Err(error),
            path_and_query,
            headers,
        )->Answer_0).status == 401,
        forward_answer(error).status == if error is IdentityNotHeaderSafe {
            500int
        } else {
            502int
        },
        forward_answer(error).www_authenticate is None,
{
}

/// A step shows its texts.
pub proof fn steps_show_their_texts(step: ProxyStep)
    ensures
        match step {
            ProxyStep::Authenticate { username, password } => {
                step@ is Authenticate && step@->username == username@ && step@->password
                    == password@
            },
            ProxyStep::Forward { url, headers } => {
                step@ is Forward && step@->url == url@ && step@->headers == header_views(headers@)
            },
            ProxyStep::Answer(answer) => {
                step@ is Answer && (step@->Answer_0).status == answer.status && (
                step@->Answer_0).body == answer.body@ && match answer.www_authenticate {
                    Some(text) => (step@->Answer_0).www_authenticate == Some(text@),
                    None => (step@->Answer_0).www_authenticate is None,
                }
            },
        },
{
}

/// A request whose first `Authorization` header does not hold well-formed Basic credentials is
/// asked for them, whatever other headers it carries.
pub proof fn malformed_credentials_are_challenged(
    before: Seq<(Seq<char>, Seq<u8>)>,
    header: (Seq<char>, Seq<u8>),
    after: Seq<(Seq<char>, Seq<u8>)>,
)
    requires
        forall|i: int|
            0 <= i < before.len() ==> ascii_lower((#[trigger] before[i]).0) != "authorization"@,
        ascii_lower(header.0) == "authorization"@,
    ensures
        value_text(header.1) is None ==> arrived(before + seq![header] + after)
            == ProxyStepView::Answer(challenge()),
        value_text(header.1) matches Some(text) ==> basic_auth(text) is None ==> arrived(
            before + seq![header] + after,
        ) == ProxyStepView::Answer(challenge()),
{
    first_header_counts(before, header, after, "authorization"@);
}

/// A request of a client whose identity can stand in a header goes to its own path at the
/// upstream and ends with that identity, and no other header has the name of the identity header
/// or carries the client's credentials to Nexus.
pub proof fn authenticated_requests_reach_the_upstream(
    state: RopcState,
    identity: String,
    path: &str,
    headers: &Vec<(String, Vec<u8>)>,
    step: ProxyStep,
    i: int,
)
    requires
        call_ensures(RopcState::dispatch, (&state, Ok(identity), Some(path), headers), step),
        forall|k: int|
            0 <= k < encode_utf8(identity@).len() ==> #[trigger] encode_utf8(identity@)[k] == 9 || (
            encode_utf8(identity@)[k] >= 32 && encode_utf8(identity@)[k] != 127),
    ensures
        step matches ProxyStep::Forward { url, headers: shown } && {
            &&& url@ == trim_end_char(state.nexus_upstream@, '/') + path@
            &&& shown@.len() > 0
            &&& shown@.last().0@ == state.rutauth_header@
            &&& shown@.last().1@ == encode_utf8(identity@)
            &&& 0 <= i < shown@.len() - 1 ==> {
                &&& ascii_lower(shown@[i].0@) != ascii_lower(state.rutauth_header@)
                &&& ascii_lower(shown@[i].0@) != "authorization"@
                &&& exists|j: int|
                    0 <= j < headers@.len() && (#[trigger] headers@[j]).0@ == shown@[i].0@
                        && headers@[j].1@ == shown@[i].1@
            }
        },
{
    let all = header_views(headers@);
    let told = forwarded(all, state.rutauth_header@, identity@);
    match step {
        ProxyStep::Forward { url, headers: shown } => {
            assert(header_views(shown@) == told);
            assert(header_views(shown@).len() == shown@.len());
            let last = shown@.len() - 1;
            assert(told[last] == (shown@[last].0@, shown@[last].1@));
            if 0 <= i < last {
                let keep = |name: Seq<char>|
                    forwards_request_header(name) && !same_header(name, state.rutauth_header@);
                assert(told[i] == (shown@[i].0@, shown@[i].1@));
                assert(told[i] == kept(all, keep)[i]);
                lemma_kept(all, keep, i);
                let j = all.index_of(told[i]);
                assert(all[j] == (headers@[j].0@, headers@[j].1@));
            }
        },
        _ => {},
    }
}

/// The proxy starts exactly where the identity header has a valid name, and then works with the
/// claim and the upstream of its settings.
pub proof fn proxy_starts_with_its_settings(config: RopcConfig, started: Result<RopcState, String>)
    requires
        call_ensures(RopcState::new, (&config,), started),
    ensures
        started is Ok == is_header_name(config.rutauth_header@),
        started matches Ok(state) ==> {
            &&& state.identity_claim@ == config.identity_claim@
            &&& state.nexus_upstream@ == config.nexus_upstream@
            &&& same_header(state.rutauth_header@, config.rutauth_header@)
        },
{
    match started {
        Ok(state) => {
            let name = config.rutauth_header@;
            assert(ascii_lower(ascii_lower(name)) =~= ascii_lower(name));
        },
        Err(_) => {},
    }
}

} // verus!
