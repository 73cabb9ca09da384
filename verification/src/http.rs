//! The deadlines of the HTTP clients, and the reading of status codes.

use crate::outside::{build_client_with_read_timeout, build_client_with_timeout};
use vstd::prelude::*;

verus! {

/// How long the connect phase may take, in seconds, so that an unreachable upstream fails fast.
pub const CONNECT_TIMEOUT_SECONDS: u64 = 5;

/// How long a call of a REST API may take in all, in seconds.
pub const API_TIMEOUT_SECONDS: u64 = 30;

/// How long proxied traffic may stall, in seconds. Every successful read starts the time anew.
pub const STREAM_READ_TIMEOUT_SECONDS: u64 = 60;

/// When an HTTP client gives up on a call, in seconds.
#[derive(Debug, Clone, Copy, PartialEq, Eq, Structural)]
pub enum Deadline {
    /// Once the call has taken this long in all.
    Total(u64),
    /// Once nothing has been read for this long. A call that makes progress is never given up.
    Stall(u64),
}

/// The deadlines of an HTTP client.
#[derive(Debug, Clone, Copy, PartialEq, Eq, Structural)]
pub struct ClientSettings {
    /// How long the connect phase may take, in seconds.
    pub connect_timeout: u64,
    pub deadline: Deadline,
}

/// The deadlines of calls that send a request and wait for a bounded response: there is a total
/// deadline.
pub fn api_settings() -> (r: ClientSettings)
    ensures
        r == (ClientSettings { connect_timeout: 5, deadline: Deadline::Total(30) }),
{
    ClientSettings {
        connect_timeout: CONNECT_TIMEOUT_SECONDS,
        deadline: Deadline::Total(API_TIMEOUT_SECONDS),
    }
}

/// The deadlines of forwarded traffic, whose bodies may be arbitrarily large: there is no total
/// deadline, which would cap the size of a transfer, but one for a transfer that stalls.
pub fn streaming_settings() -> (r: ClientSettings)
    ensures
        r == (ClientSettings { connect_timeout: 5, deadline: Deadline::Stall(60) }),
{
    ClientSettings {
        connect_timeout: CONNECT_TIMEOUT_SECONDS,
        deadline: Deadline::Stall(STREAM_READ_TIMEOUT_SECONDS),
    }
}

/// An HTTP client, with the deadlines it was built with.
#[derive(Debug)]
pub struct HttpClient {
    settings: ClientSettings,
    client: reqwest::Client,
}

impl View for HttpClient {
    type V = ClientSettings;

    closed spec fn view(&self) -> ClientSettings {
        self.settings
    }
}

/// Whether building a client with exactly these deadlines may come to `built`.
pub closed spec fn may_be_built(
    settings: ClientSettings,
    built: Result<reqwest::Client, String>,
) -> bool {
    match settings.deadline {
        Deadline::Total(seconds) => call_ensures(
            build_client_with_timeout,
            (settings.connect_timeout, seconds),
            built,
        ),
        Deadline::Stall(seconds) => call_ensures(
            build_client_with_read_timeout,
            (settings.connect_timeout, seconds),
            built,
        ),
    }
}

/// Whether `r` is the client that was built, with its deadlines, or the reason why there is none.
pub open spec fn is_configured(
    settings: ClientSettings,
    built: Result<reqwest::Client, String>,
    r: Result<HttpClient, String>,
) -> bool {
    match (built, r) {
        (Ok(client), Ok(configured)) => configured@ == settings && configured.inner() == client,
        (Err(reason), Err(shown)) => shown@ == reason@,
        _ => false,
    }
}

impl HttpClient {
    /// Builds a client with the given deadlines. What comes back is what came of building one
    /// with exactly these deadlines: the client, or the reason why there is none.
    pub fn new(settings: ClientSettings) -> (r: Result<HttpClient, String>)
        ensures
            exists|built: Result<reqwest::Client, String>| #[trigger]
                may_be_built(settings, built) && is_configured(settings, built, r),
    {
        let built = match settings.deadline {
            Deadline::Total(seconds) => build_client_with_timeout(
                settings.connect_timeout,
                seconds,
            ),
            Deadline::Stall(seconds) => build_client_with_read_timeout(
                settings.connect_timeout,
                seconds,
            ),
        };
        assert(may_be_built(settings, built));
        HttpClient::from_built(settings, built)
    }

    /// Takes what came of building a client with the given deadlines.
    pub fn from_built(
        settings: ClientSettings,
        built: Result<reqwest::Client, String>,
    ) -> (r: Result<HttpClient, String>)
        ensures
            is_configured(settings, built, r),
    {
        match built {
            Ok(client) => Ok(HttpClient { settings, client }),
            Err(reason) => Err(reason),
        }
    }

    /// The deadlines of the client.
    pub fn settings(&self) -> (r: ClientSettings)
        ensures
            r == self@,
    {
        self.settings
    }

    /// The client itself.
    pub closed spec fn inner(&self) -> reqwest::Client {
        self.client
    }

    /// The client itself.
    pub fn client(&self) -> (r: &reqwest::Client)
        ensures
            *r == self.inner(),
    {
        &self.client
    }
}

/// The client for the APIs of Keycloak and Nexus and for the token endpoint.
pub fn api_client() -> (r: Result<HttpClient, String>)
    ensures
        ({
            let settings = ClientSettings { connect_timeout: 5, deadline: Deadline::Total(30) };
            exists|built: Result<reqwest::Client, String>| #[trigger]
                may_be_built(settings, built) && is_configured(settings, built, r)
        }),
{
    HttpClient::new(api_settings())
}

/// The client for forwarded traffic.
pub fn streaming_client() -> (r: Result<HttpClient, String>)
    ensures
        ({
            let settings = ClientSettings { connect_timeout: 5, deadline: Deadline::Stall(60) };
            exists|built: Result<reqwest::Client, String>| #[trigger]
                may_be_built(settings, built) && is_configured(settings, built, r)
        }),
{
    HttpClient::new(streaming_settings())
}

/// Whether a status code reports success.
pub open spec fn success(status: u16) -> bool {
    200 <= status < 300
}

/// Whether a status code reports success.
pub fn is_success(status: u16) -> (r: bool)
    ensures
        r == success(status),
{
    200 <= status && status < 300
}

/// The status codes that report success are those whose first digit is a two.
pub proof fn success_begins_with_two(status: u16)
    ensures
        success(status) == (status as int / 100 == 2),
{
}

} // verus!
