//! The settings, read from environment variables.

use crate::error::{error_message, CambiumError, CambiumErrorView, CambiumResult};
use crate::outside::{parse_url, quoted, to_quoted, to_unicode_lower, unicode_lower, url_parsed};
use crate::string_map::StringMap;
use crate::string_set::StringSet;
use crate::text::{
    ascii_lower, cut_all, cut_once, cutting_loses_only_the_separator, decimal, has_text,
    holding_a_text, is_white, join, joined_parts_are_cut_apart, lemma_position,
    lemma_split_adds_nothing, lemma_trim_adds_nothing, number_of, parse_number, position, same_text,
    split, split_once, trim, trimmed, trimming_takes_white_space_only, views,
    written_numbers_are_read_back,
};
use vstd::prelude::*;
use vstd::utf8::is_ascii_chars;

verus! {

/// Nexus's own local accounts.
pub const DEFAULT_RESERVED_USERNAMES: &'static str = "admin,anonymous";

/// The names that a comma-separated list reserves: every item that is not blank, without the
/// white space around it and in lower case.
pub open spec fn reserved_of(raw: Seq<char>) -> Set<Seq<char>> {
    names_in(split(raw, ','), |name: Seq<char>| unicode_lower(name))
}

/// The names that a comma-separated list in ASCII reserves.
pub open spec fn ascii_reserved_of(raw: Seq<char>) -> Set<Seq<char>> {
    names_in(split(raw, ','), |name: Seq<char>| ascii_lower(name))
}

/// The names that some items reserve, `lower` putting them in lower case.
pub open spec fn names_in(
    items: Seq<Seq<char>>,
    lower: spec_fn(Seq<char>) -> Seq<char>,
) -> Set<Seq<char>> {
    Set::new(
        |name: Seq<char>|
            exists|i: int|
                0 <= i < items.len() && trim(#[trigger] items[i]).len() > 0 && lower(
                    trim(items[i]),
                ) == name,
    )
}

/// Reads the list of Nexus accounts that are never touched. They are kept in lower case because
/// Nexus looks accounts up without regard to case.
pub fn parse_reserved_usernames(raw: &str) -> (r: StringSet)
    ensures
        r@ == reserved_of(raw@),
        is_ascii_chars(raw@) ==> r@ == ascii_reserved_of(raw@),
{
    let ghost unicode = |name: Seq<char>| unicode_lower(name);
    let ghost ascii = |name: Seq<char>| ascii_lower(name);
    let items = cut_all(raw, ',');
    let mut names = StringSet::new();
    let mut i: usize = 0;
    proof {
        lemma_split_adds_nothing(raw@, ',');
        assert(names@ =~= names_in(views(items@).take(0), unicode));
        assert(names@ =~= names_in(views(items@).take(0), ascii));
    }
    while i < items.len()
        invariant
            i <= items.len(),
            unicode == (|name: Seq<char>| unicode_lower(name)),
            ascii == (|name: Seq<char>| ascii_lower(name)),
            forall|k: int, j: int|
                0 <= k < items.len() && 0 <= j < views(items@)[k].len() ==> raw@.contains(
                    #[trigger] views(items@)[k][j],
                ),
            names@ == names_in(views(items@).take(i as int), unicode),
            is_ascii_chars(raw@) ==> names@ == names_in(views(items@).take(i as int), ascii),
        decreases items.len() - i,
    {
        let name = trimmed(items[i].as_str());
        proof {
            let item = views(items@)[i as int];
            assert(item == items@[i as int]@);
            lemma_trim_adds_nothing(item);
            if is_ascii_chars(raw@) {
                assert forall|j: int| 0 <= j < name@.len() implies '\0' <= #[trigger] name@[j]
                    <= '\u{7f}' by {
                    let k = item.index_of(name@[j]);
                    assert(raw@.contains(views(items@)[i as int][k]));
                }
            }
            lemma_one_more_name(views(items@), i as int, unicode);
            lemma_one_more_name(views(items@), i as int, ascii);
        }
        if !name.as_str().is_empty() {
            names.insert(to_unicode_lower(name.as_str()));
        }
        i = i + 1;
    }
    assert(views(items@).take(items.len() as int) =~= views(items@));
    names
}

/// One more item adds its name, unless it is blank.
proof fn lemma_one_more_name(
    items: Seq<Seq<char>>,
    i: int,
    lower: spec_fn(Seq<char>) -> Seq<char>,
)
    requires
        0 <= i < items.len(),
    ensures
        names_in(items.take(i + 1), lower) == if trim(items[i]).len() > 0 {
            names_in(items.take(i), lower).insert(lower(trim(items[i])))
        } else {
            names_in(items.take(i), lower)
        },
{
    let more = items.take(i + 1);
    let fewer = items.take(i);
    assert forall|name: Seq<char>| #[trigger]
        names_in(more, lower).contains(name) == (names_in(fewer, lower).contains(name) || (trim(
            items[i],
        ).len() > 0 && lower(trim(items[i])) == name)) by {
        if names_in(fewer, lower).contains(name) {
            let j = choose|j: int|
                0 <= j < fewer.len() && trim(#[trigger] fewer[j]).len() > 0 && lower(
                    trim(fewer[j]),
                ) == name;
            assert(more[j] == fewer[j]);
        }
        if names_in(more, lower).contains(name) {
            let j = choose|j: int|
                0 <= j < more.len() && trim(#[trigger] more[j]).len() > 0 && lower(trim(more[j]))
                    == name;
            if j < i {
                assert(more[j] == fewer[j]);
            }
        }
        assert(more[i] == items[i]);
    }
    assert(names_in(more, lower) =~= if trim(items[i]).len() > 0 {
        names_in(fewer, lower).insert(lower(trim(items[i])))
    } else {
        names_in(fewer, lower)
    });
}

/// Whatever the case in which an ASCII name is listed and the case in which it is asked about,
/// it is reserved.
pub proof fn reserved_names_ignore_case(raw: Seq<char>, i: int, username: Seq<char>)
    requires
        0 <= i < split(raw, ',').len(),
        trim(split(raw, ',')[i]).len() > 0,
        ascii_lower(username) == ascii_lower(trim(split(raw, ',')[i])),
    ensures
        ascii_reserved_of(raw).contains(ascii_lower(username)),
{
}

/// An empty list reserves nothing.
pub proof fn empty_list_reserves_nothing()
    ensures
        reserved_of(Seq::empty()) == Set::<Seq<char>>::empty(),
{
    let items = split(Seq::<char>::empty(), ',');
    assert(items =~= seq![Seq::<char>::empty()]);
    assert(trim(items[0]).len() == 0);
    assert(reserved_of(Seq::empty()) =~= Set::<Seq<char>>::empty());
}

/// The two roles that an entry of the role map names: what stands before and behind its first
/// colon, without the white space around it. An entry that lacks either is none.
pub open spec fn role_entry(entry: Seq<char>) -> Option<(Seq<char>, Seq<char>)> {
    match split_once(entry, ':') {
        Some((kc_role, nx_role)) => if trim(kc_role).len() > 0 && trim(nx_role).len() > 0 {
            Some((trim(kc_role), trim(nx_role)))
        } else {
            None
        },
        None => None,
    }
}

/// The map that some entries make, or the first that is malformed. Blank entries are skipped; of
/// two entries for one Keycloak role the later one holds.
pub open spec fn role_map_of(entries: Seq<Seq<char>>) -> Result<
    Map<Seq<char>, Seq<char>>,
    Seq<char>,
>
    decreases entries.len(),
{
    if entries.len() == 0 {
        Ok(Map::empty())
    } else {
        let entry = trim(entries.last());
        match role_map_of(entries.drop_last()) {
            Ok(map) => if entry.len() == 0 {
                Ok(map)
            } else {
                match role_entry(entry) {
                    Some((kc_role, nx_role)) => Ok(map.insert(kc_role, nx_role)),
                    None => Err(entry),
                }
            },
            Err(malformed) => Err(malformed),
        }
    }
}

/// Once an entry is malformed, those behind it do not matter.
proof fn lemma_first_malformed(entries: Seq<Seq<char>>, i: int)
    requires
        0 <= i <= entries.len(),
        role_map_of(entries.take(i)) is Err,
    ensures
        role_map_of(entries) == role_map_of(entries.take(i)),
    decreases entries.len() - i,
{
    if i < entries.len() {
        assert(entries.take(i + 1).drop_last() =~= entries.take(i));
        lemma_first_malformed(entries, i + 1);
    } else {
        assert(entries.take(i) =~= entries);
    }
}

/// Reads one entry of the role map.
fn parse_role_entry(entry: &str) -> (r: Option<(String, String)>)
    ensures
        match r {
            Some(roles) => role_entry(entry@) == Some((roles.0@, roles.1@)),
            None => role_entry(entry@) is None,
        },
{
    match cut_once(entry, ':') {
        Some((kc_role, nx_role)) => {
            let kc_role = trimmed(kc_role.as_str());
            let nx_role = trimmed(nx_role.as_str());
            if kc_role.as_str().is_empty() || nx_role.as_str().is_empty() {
                None
            } else {
                Some((kc_role, nx_role))
            }
        },
        None => None,
    }
}

/// Reads a map of Keycloak roles to Nexus roles such as `kc-dev:nx-dev,kc-ops:nx-ops`.
pub fn parse_role_map(raw: &str) -> (r: CambiumResult<StringMap<String>>)
    ensures
        match r {
            Ok(map) => role_map_of(split(raw@, ',')) == Ok::<_, Seq<char>>(map@),
            Err(e) => role_map_of(split(raw@, ',')) is Err && e@
                == CambiumErrorView::InvalidRoleMapEntry(role_map_of(split(raw@, ','))->Err_0),
        },
{
    let entries = cut_all(raw, ',');
    let mut map: StringMap<String> = StringMap::new();
    let mut i: usize = 0;
    while i < entries.len()
        invariant
            i <= entries.len(),
            views(entries@) == split(raw@, ','),
            role_map_of(views(entries@).take(i as int)) == Ok::<_, Seq<char>>(map@),
        decreases entries.len() - i,
    {
        let entry = trimmed(entries[i].as_str());
        proof {
            let more = views(entries@).take(i + 1);
            assert(more.drop_last() =~= views(entries@).take(i as int));
            assert(more.last() == entries@[i as int]@);
        }
        if !entry.as_str().is_empty() {
            match parse_role_entry(entry.as_str()) {
                Some((kc_role, nx_role)) => {
                    map.insert(kc_role, nx_role);
                },
                None => {
                    proof {
                        lemma_first_malformed(views(entries@), i + 1);
                    }
                    return Err(CambiumError::InvalidRoleMapEntry(entry));
                },
            }
        }
        i = i + 1;
    }
    assert(views(entries@).take(entries.len() as int) =~= views(entries@));
    Ok(map)
}

/// Why an upstream URL with this scheme and host is refused; `None` where it is not. `parsed` is
/// what a URL parser makes of it.
pub open spec fn upstream_objection(
    parsed: Result<(Seq<char>, Option<Seq<char>>), Seq<char>>,
    allow_insecure: bool,
) -> Option<Seq<char>> {
    match parsed {
        Err(message) => Some(message),
        Ok((scheme, host)) => if scheme != "https"@ && scheme != "http"@ {
            Some("scheme must be http or https, got "@ + quoted(scheme))
        } else if host is None || host->0.len() == 0 {
            Some("no host"@)
        } else if scheme == "http"@ && !allow_insecure {
            Some(
                "plaintext http:// carries credentials in the clear; use https://, or set ALLOW_INSECURE_HTTP=1 to accept it deliberately (same-pod loopback, dev)"@,
            )
        } else {
            None
        },
    }
}

/// The texts of what a URL parser returned.
pub open spec fn parsed_view(parsed: Result<(String, Option<String>), String>) -> Result<
    (Seq<char>, Option<Seq<char>>),
    Seq<char>,
> {
    match parsed {
        Ok((scheme, Some(host))) => Ok((scheme@, Some(host@))),
        Ok((scheme, None)) => Ok((scheme@, None)),
        Err(message) => Err(message@),
    }
}

/// Decides on an upstream URL, given what a URL parser makes of it, and returns it unchanged.
pub fn check_upstream_url(
    var_name: &str,
    raw: &str,
    parsed: Result<(String, Option<String>), String>,
    allow_insecure: bool,
) -> (r: CambiumResult<String>)
    ensures
        match (upstream_objection(parsed_view(parsed), allow_insecure), r) {
            (None, Ok(url)) => url@ == raw@,
            (Some(reason), Err(e)) => e@ == (CambiumErrorView::InvalidUpstreamUrl {
                var: var_name@,
                value: raw@,
                reason,
            }),
            _ => false,
        },
{
    let reason = match parsed {
        Err(message) => message,
        Ok((scheme, host)) => {
            let secure = same_text(scheme.as_str(), "https");
            let plaintext = same_text(scheme.as_str(), "http");
            let has_host = match &host {
                Some(host) => !host.as_str().is_empty(),
                None => false,
            };
            if !secure && !plaintext {
                join(
                    "scheme must be http or https, got ",
                    to_quoted(scheme.as_str()).as_str(),
                )
            } else if !has_host {
                "no host".to_owned()
            } else if plaintext && !allow_insecure {
                "plaintext http:// carries credentials in the clear; use https://, or set ALLOW_INSECURE_HTTP=1 to accept it deliberately (same-pod loopback, dev)".to_owned()
            } else {
                return Ok(raw.to_owned());
            }
        },
    };
    Err(
        CambiumError::InvalidUpstreamUrl {
            var: var_name.to_owned(),
            value: raw.to_owned(),
            reason,
        },
    )
}

/// Checks an upstream URL: it must parse, be HTTP or HTTPS and have a host, and it must not be
/// plaintext unless that was asked for. It is returned as it was written, because paths are
/// appended to it.
pub fn validate_upstream_url(var_name: &str, raw: &str, allow_insecure: bool) -> (r: CambiumResult<
    String,
>)
    ensures
        match (upstream_objection(url_parsed(raw@), allow_insecure), r) {
            (None, Ok(url)) => url@ == raw@,
            (Some(reason), Err(e)) => e@ == (CambiumErrorView::InvalidUpstreamUrl {
                var: var_name@,
                value: raw@,
                reason,
            }),
            _ => false,
        },
{
    check_upstream_url(var_name, raw, parse_url(raw), allow_insecure)
}

/// Whether a setting says yes: `1`, `true` or `yes`, in any case and with any white space
/// around it.
pub open spec fn says_yes(raw: Seq<char>) -> bool {
    let word = unicode_lower(trim(raw));
    word == "1"@ || word == "true"@ || word == "yes"@
}

/// Whether a setting in ASCII says yes.
pub open spec fn ascii_says_yes(raw: Seq<char>) -> bool {
    let word = ascii_lower(trim(raw));
    word == "1"@ || word == "true"@ || word == "yes"@
}

/// Whether plaintext upstreams are accepted, given the text of that setting.
pub fn parse_allow_insecure(raw: &str) -> (r: bool)
    ensures
        r == says_yes(raw@),
        is_ascii_chars(raw@) ==> r == ascii_says_yes(raw@),
{
    let trimmed_raw = trimmed(raw);
    proof {
        lemma_trim_adds_nothing(raw@);
        if is_ascii_chars(raw@) {
            assert forall|i: int| 0 <= i < trimmed_raw@.len() implies '\0' <= #[trigger]
                trimmed_raw@[i] <= '\u{7f}' by {
                let k = raw@.index_of(trimmed_raw@[i]);
                assert('\0' <= raw@[k] <= '\u{7f}');
            }
        }
    }
    let word = to_unicode_lower(trimmed_raw.as_str());
    same_text(word.as_str(), "1") || same_text(word.as_str(), "true") || same_text(
        word.as_str(),
        "yes",
    )
}

/// Why the settings cannot be read.
#[derive(Debug)]
pub enum ConfigError {
    /// A variable that has no default is not set.
    Missing(String),
    /// The role map is malformed.
    RoleMap(CambiumError),
    /// An upstream URL is refused.
    Upstream(CambiumError),
    /// A variable is no number.
    NotANumber(String),
}

/// A `ConfigError` with its texts.
pub enum ConfigErrorView {
    Missing(Seq<char>),
    RoleMap(CambiumErrorView),
    Upstream(CambiumErrorView),
    NotANumber(Seq<char>),
}

impl View for ConfigError {
    type V = ConfigErrorView;

    open spec fn view(&self) -> ConfigErrorView {
        match *self {
            ConfigError::Missing(key) => ConfigErrorView::Missing(key@),
            ConfigError::RoleMap(e) => ConfigErrorView::RoleMap(e@),
            ConfigError::Upstream(e) => ConfigErrorView::Upstream(e@),
            ConfigError::NotANumber(key) => ConfigErrorView::NotANumber(key@),
        }
    }
}

/// The message of a failure to read the settings.
pub open spec fn config_error_message(e: ConfigErrorView) -> Seq<char> {
    match e {
        ConfigErrorView::Missing(key) => "missing required env var: "@ + key,
        ConfigErrorView::RoleMap(e) => "invalid ROLE_MAP: "@ + error_message(e),
        ConfigErrorView::Upstream(e) => error_message(e),
        ConfigErrorView::NotANumber(key) => key + " must be a number"@,
    }
}

impl ConfigError {
    /// The message of the error.
    pub fn message(&self) -> (r: String)
        ensures
            r@ == config_error_message(self@),
    {
        match self {
            ConfigError::Missing(key) => join("missing required env var: ", key.as_str()),
            ConfigError::RoleMap(e) => join("invalid ROLE_MAP: ", e.message().as_str()),
            ConfigError::Upstream(e) => e.message(),
            ConfigError::NotANumber(key) => join(key.as_str(), " must be a number"),
        }
    }
}

/// A variable that must be set.
pub open spec fn required(env: Map<Seq<char>, Seq<char>>, key: Seq<char>) -> Result<
    Seq<char>,
    ConfigErrorView,
> {
    if env.contains_key(key) {
        Ok(env[key])
    } else {
        Err(ConfigErrorView::Missing(key))
    }
}

/// A variable with a default.
pub open spec fn or_default(
    env: Map<Seq<char>, Seq<char>>,
    key: Seq<char>,
    default: Seq<char>,
) -> Seq<char> {
    if env.contains_key(key) {
        env[key]
    } else {
        default
    }
}

/// Whether the environment accepts plaintext upstreams.
pub open spec fn insecure_allowed(env: Map<Seq<char>, Seq<char>>) -> bool {
    says_yes(or_default(env, "ALLOW_INSECURE_HTTP"@, "false"@))
}

/// How the consent to plaintext upstreams is read: without the variable there is none, and with
/// one in ASCII there is consent where it is one of the three words.
pub open spec fn consent_is_read_from(env: Map<Seq<char>, Seq<char>>) -> bool {
    &&& !env.contains_key("ALLOW_INSECURE_HTTP"@) ==> !insecure_allowed(env)
    &&& env.contains_key("ALLOW_INSECURE_HTTP"@) && is_ascii_chars(env["ALLOW_INSECURE_HTTP"@])
        ==> insecure_allowed(env) == ascii_says_yes(env["ALLOW_INSECURE_HTTP"@])
}

/// Whether a text is an HTTPS URL.
pub open spec fn is_https(url: Seq<char>) -> bool {
    url_parsed(url) matches Ok((scheme, host)) && scheme == "https"@
}

/// A variable that must hold an upstream URL.
pub open spec fn required_url(env: Map<Seq<char>, Seq<char>>, key: Seq<char>) -> Result<
    Seq<char>,
    ConfigErrorView,
> {
    match required(env, key) {
        Err(e) => Err(e),
        Ok(raw) => match upstream_objection(url_parsed(raw), insecure_allowed(env)) {
            Some(reason) => Err(
                ConfigErrorView::Upstream(
                    CambiumErrorView::InvalidUpstreamUrl { var: key, value: raw, reason },
                ),
            ),
            None => Ok(raw),
        },
    }
}

/// The role map of an environment.
pub open spec fn required_role_map(env: Map<Seq<char>, Seq<char>>) -> Result<
    Map<Seq<char>, Seq<char>>,
    ConfigErrorView,
> {
    match required(env, "ROLE_MAP"@) {
        Err(e) => Err(e),
        Ok(raw) => match role_map_of(split(raw, ',')) {
            Ok(map) => Ok(map),
            Err(entry) => Err(
                ConfigErrorView::RoleMap(CambiumErrorView::InvalidRoleMapEntry(entry)),
            ),
        },
    }
}

/// A number with a default.
pub open spec fn number_or_default(
    env: Map<Seq<char>, Seq<char>>,
    key: Seq<char>,
    default: Seq<char>,
) -> Result<int, ConfigErrorView> {
    match number_of(or_default(env, key, default)) {
        Some(n) => Ok(n),
        None => Err(ConfigErrorView::NotANumber(key)),
    }
}

/// Reads a variable that must be set.
fn env_require(env: &StringMap<String>, key: &str) -> (r: Result<String, ConfigError>)
    ensures
        match r {
            Ok(value) => required(env@, key@) == Ok::<_, ConfigErrorView>(value@),
            Err(e) => required(env@, key@) == Err::<Seq<char>, _>(e@),
        },
{
    match env.get(key) {
        Some(value) => Ok(value.clone()),
        None => Err(ConfigError::Missing(key.to_owned())),
    }
}

/// Reads a variable with a default.
fn env_or(env: &StringMap<String>, key: &str, default: &str) -> (r: String)
    ensures
        r@ == or_default(env@, key@, default@),
{
    match env.get(key) {
        Some(value) => value.clone(),
        None => default.to_owned(),
    }
}

/// Whether plaintext upstreams are accepted. They are not unless someone asks for it, so that no
/// deployment ends up with them by default.
fn allow_insecure_http(env: &StringMap<String>) -> (r: bool)
    ensures
        r == insecure_allowed(env@),
        consent_is_read_from(env@),
{
    let raw = env_or(env, "ALLOW_INSECURE_HTTP", "false");
    let r = parse_allow_insecure(raw.as_str());
    proof {
        if !env@.contains_key("ALLOW_INSECURE_HTTP"@) {
            reveal_strlit("false");
            reveal_strlit("true");
            reveal_strlit("yes");
            reveal_strlit("1");
            let no = "false"@;
            assert(is_ascii_chars(no));
            assert(trim(no) == no);
            assert(ascii_lower(no).len() == 5);
        }
    }
    r
}

/// Reads a variable that must hold an upstream URL.
fn require_url(env: &StringMap<String>, var_name: &str, allow_insecure: bool) -> (r: Result<
    String,
    ConfigError,
>)
    requires
        allow_insecure == insecure_allowed(env@),
    ensures
        match r {
            Ok(value) => required_url(env@, var_name@) == Ok::<_, ConfigErrorView>(value@),
            Err(e) => required_url(env@, var_name@) == Err::<Seq<char>, _>(e@),
        },
{
    match env_require(env, var_name) {
        Err(e) => Err(e),
        Ok(raw) => match validate_upstream_url(var_name, raw.as_str(), allow_insecure) {
            Ok(url) => Ok(url),
            Err(e) => Err(ConfigError::Upstream(e)),
        },
    }
}

/// Reads a number with a default.
fn env_number(env: &StringMap<String>, key: &str, default: &str) -> (r: Result<u64, ConfigError>)
    ensures
        match r {
            Ok(n) => number_or_default(env@, key@, default@) == Ok::<_, ConfigErrorView>(n as int),
            Err(e) => number_or_default(env@, key@, default@) == Err::<int, _>(e@),
        },
{
    match parse_number(env_or(env, key, default).as_str()) {
        Some(n) => Ok(n),
        None => Err(ConfigError::NotANumber(key.to_owned())),
    }
}

/// Reads the role map.
fn env_role_map(env: &StringMap<String>) -> (r: Result<StringMap<String>, ConfigError>)
    ensures
        match r {
            Ok(map) => required_role_map(env@) == Ok::<_, ConfigErrorView>(map@),
            Err(e) => required_role_map(env@) == Err::<Map<Seq<char>, Seq<char>>, _>(e@),
        },
{
    match env_require(env, "ROLE_MAP") {
        Err(e) => Err(e),
        Ok(raw) => match parse_role_map(raw.as_str()) {
            Ok(map) => Ok(map),
            Err(e) => Err(ConfigError::RoleMap(e)),
        },
    }
}

/// The settings of the synchronisation.
#[derive(Debug)]
pub struct Config {
    pub keycloak_url: String,
    pub keycloak_realm: String,
    pub keycloak_client_id: String,
    pub keycloak_client_secret: String,
    pub nexus_url: String,
    pub nexus_username: String,
    pub nexus_password: String,
    /// The Nexus role of every Keycloak role that has one.
    pub role_map: StringMap<String>,
    pub poll_interval_seconds: u64,
    pub state_file: String,
    pub fallback_email_domain: String,
    /// The Nexus accounts that are never touched, in lower case.
    pub reserved_usernames: StringSet,
    pub lock_file: String,
}

/// `Config` with its texts and collections.
pub struct ConfigView {
    pub keycloak_url: Seq<char>,
    pub keycloak_realm: Seq<char>,
    pub keycloak_client_id: Seq<char>,
    pub keycloak_client_secret: Seq<char>,
    pub nexus_url: Seq<char>,
    pub nexus_username: Seq<char>,
    pub nexus_password: Seq<char>,
    pub role_map: Map<Seq<char>, Seq<char>>,
    pub poll_interval_seconds: int,
    pub state_file: Seq<char>,
    pub fallback_email_domain: Seq<char>,
    pub reserved_usernames: Set<Seq<char>>,
    pub lock_file: Seq<char>,
}

impl View for Config {
    type V = ConfigView;

    open spec fn view(&self) -> ConfigView {
        ConfigView {
            keycloak_url: self.keycloak_url@,
            keycloak_realm: self.keycloak_realm@,
            keycloak_client_id: self.keycloak_client_id@,
            keycloak_client_secret: self.keycloak_client_secret@,
            nexus_url: self.nexus_url@,
            nexus_username: self.nexus_username@,
            nexus_password: self.nexus_password@,
            role_map: self.role_map@,
            poll_interval_seconds: self.poll_interval_seconds as int,
            state_file: self.state_file@,
            fallback_email_domain: self.fallback_email_domain@,
            reserved_usernames: self.reserved_usernames@,
            lock_file: self.lock_file@,
        }
    }
}

impl Clone for Config {
    fn clone(&self) -> (r: Config)
        ensures
            r@ == self@,
    {
        Config {
            keycloak_url: self.keycloak_url.clone(),
            keycloak_realm: self.keycloak_realm.clone(),
            keycloak_client_id: self.keycloak_client_id.clone(),
            keycloak_client_secret: self.keycloak_client_secret.clone(),
            nexus_url: self.nexus_url.clone(),
            nexus_username: self.nexus_username.clone(),
            nexus_password: self.nexus_password.clone(),
            role_map: self.role_map.clone(),
            poll_interval_seconds: self.poll_interval_seconds,
            state_file: self.state_file.clone(),
            fallback_email_domain: self.fallback_email_domain.clone(),
            reserved_usernames: self.reserved_usernames.clone(),
            lock_file: self.lock_file.clone(),
        }
    }
}

/// The settings of the synchronisation that an environment makes, where none is amiss.
pub open spec fn config_of(env: Map<Seq<char>, Seq<char>>) -> ConfigView {
    ConfigView {
        keycloak_url: env["KEYCLOAK_URL"@],
        keycloak_realm: env["KEYCLOAK_REALM"@],
        keycloak_client_id: env["KEYCLOAK_CLIENT_ID"@],
        keycloak_client_secret: env["KEYCLOAK_CLIENT_SECRET"@],
        nexus_url: env["NEXUS_URL"@],
        nexus_username: env["NEXUS_USERNAME"@],
        nexus_password: env["NEXUS_PASSWORD"@],
        role_map: required_role_map(env)->Ok_0,
        poll_interval_seconds: number_or_default(env, "POLL_INTERVAL_SECONDS"@, "60"@)->Ok_0,
        state_file: or_default(env, "STATE_FILE"@, "/var/lib/cambium/state.json"@),
        fallback_email_domain: or_default(env, "FALLBACK_EMAIL_DOMAIN"@, "cambium.invalid"@),
        reserved_usernames: reserved_of(
            or_default(env, "RESERVED_USERNAMES"@, "admin,anonymous"@),
        ),
        lock_file: or_default(env, "LOCK_FILE"@, "/var/lib/cambium/cambium.lock"@),
    }
}

/// How the reserved names are read: without the variable they are `admin` and `anonymous`, and a
/// list in ASCII reserves its names in lower case.
pub open spec fn reserved_names_are_read_from(
    env: Map<Seq<char>, Seq<char>>,
    names: Set<Seq<char>>,
) -> bool {
    let raw = or_default(env, "RESERVED_USERNAMES"@, "admin,anonymous"@);
    &&& is_ascii_chars(raw) ==> names == ascii_reserved_of(raw)
    &&& !env.contains_key("RESERVED_USERNAMES"@) ==> names == set!["admin"@, "anonymous"@]
}

/// The list of Nexus's own accounts reserves exactly those two.
proof fn lemma_default_names()
    ensures
        is_ascii_chars("admin,anonymous"@),
        ascii_reserved_of("admin,anonymous"@) == set!["admin"@, "anonymous"@],
{
    reveal_strlit("admin,anonymous");
    reveal_strlit("admin");
    reveal_strlit("anonymous");
    let raw = "admin,anonymous"@;
    let first = "admin"@;
    let second = "anonymous"@;
    lemma_position(raw, ',');
    lemma_position(second, ',');
    assert(raw[5] == ',');
    assert(position(raw, ',') == 5);
    assert(position(second, ',') == second.len());
    assert(raw.take(5) =~= first);
    assert(raw.skip(6) =~= second);
    assert(split(second, ',') =~= seq![second]);
    let items = split(raw, ',');
    assert(items =~= seq![first, second]);
    assert(trim(first) == first && trim(second) == second);
    assert(ascii_lower(first) =~= first && ascii_lower(second) =~= second);
    let names = ascii_reserved_of(raw);
    assert(items[0] == first && items[1] == second);
    assert forall|name: Seq<char>| #[trigger] names.contains(name) == (name == first || name
        == second) by {
        if name == first {
            assert(trim(items[0]).len() > 0 && ascii_lower(trim(items[0])) == name);
        }
        if name == second {
            assert(trim(items[1]).len() > 0 && ascii_lower(trim(items[1])) == name);
        }
    }
    assert(names =~= set![first, second]);
}

/// What is wrong with an environment for the synchronisation, in the order in which it is looked
/// at; `None` where nothing is.
pub open spec fn config_objection(env: Map<Seq<char>, Seq<char>>) -> Option<ConfigErrorView> {
    if required_role_map(env) is Err {
        Some(required_role_map(env)->Err_0)
    } else if required_url(env, "KEYCLOAK_URL"@) is Err {
        Some(required_url(env, "KEYCLOAK_URL"@)->Err_0)
    } else if required(env, "KEYCLOAK_REALM"@) is Err {
        Some(required(env, "KEYCLOAK_REALM"@)->Err_0)
    } else if required(env, "KEYCLOAK_CLIENT_ID"@) is Err {
        Some(required(env, "KEYCLOAK_CLIENT_ID"@)->Err_0)
    } else if required(env, "KEYCLOAK_CLIENT_SECRET"@) is Err {
        Some(required(env, "KEYCLOAK_CLIENT_SECRET"@)->Err_0)
    } else if required_url(env, "NEXUS_URL"@) is Err {
        Some(required_url(env, "NEXUS_URL"@)->Err_0)
    } else if required(env, "NEXUS_USERNAME"@) is Err {
        Some(required(env, "NEXUS_USERNAME"@)->Err_0)
    } else if required(env, "NEXUS_PASSWORD"@) is Err {
        Some(required(env, "NEXUS_PASSWORD"@)->Err_0)
    } else if number_or_default(env, "POLL_INTERVAL_SECONDS"@, "60"@) is Err {
        Some(number_or_default(env, "POLL_INTERVAL_SECONDS"@, "60"@)->Err_0)
    } else {
        None
    }
}

impl Config {
    /// Reads the settings from the given environment variables.
    pub fn from_env(env: &StringMap<String>) -> (r: Result<Config, ConfigError>)
        ensures
            consent_is_read_from(env@),
            match (config_objection(env@), r) {
                (None, Ok(config)) => config@ == config_of(env@),
                (Some(objection), Err(e)) => e@ == objection,
                _ => false,
            },
            r matches Ok(config) ==> !env@.contains_key("ALLOW_INSECURE_HTTP"@) ==> is_https(
                config@.keycloak_url,
            ) && is_https(config@.nexus_url),
            r matches Ok(config) ==> reserved_names_are_read_from(
                env@,
                config@.reserved_usernames,
            ),
    {
        let allow_insecure = allow_insecure_http(env);
        let role_map = match env_role_map(env) {
            Ok(map) => map,
            Err(e) => return Err(e),
        };
        let keycloak_url = match require_url(env, "KEYCLOAK_URL", allow_insecure) {
            Ok(value) => value,
            Err(e) => return Err(e),
        };
        let keycloak_realm = match env_require(env, "KEYCLOAK_REALM") {
            Ok(value) => value,
            Err(e) => return Err(e),
        };
        let keycloak_client_id = match env_require(env, "KEYCLOAK_CLIENT_ID") {
            Ok(value) => value,
            Err(e) => return Err(e),
        };
        let keycloak_client_secret = match env_require(env, "KEYCLOAK_CLIENT_SECRET") {
            Ok(value) => value,
            Err(e) => return Err(e),
        };
        let nexus_url = match require_url(env, "NEXUS_URL", allow_insecure) {
            Ok(value) => value,
            Err(e) => return Err(e),
        };
        let nexus_username = match env_require(env, "NEXUS_USERNAME") {
            Ok(value) => value,
            Err(e) => return Err(e),
        };
        let nexus_password = match env_require(env, "NEXUS_PASSWORD") {
            Ok(value) => value,
            Err(e) => return Err(e),
        };
        let poll_interval_seconds = match env_number(env, "POLL_INTERVAL_SECONDS", "60") {
            Ok(n) => n,
            Err(e) => return Err(e),
        };
        proof {
            lemma_default_names();
        }
        Ok(
            Config {
                keycloak_url,
                keycloak_realm,
                keycloak_client_id,
                keycloak_client_secret,
                nexus_url,
                nexus_username,
                nexus_password,
                role_map,
                poll_interval_seconds,
                state_file: env_or(env, "STATE_FILE", "/var/lib/cambium/state.json"),
                fallback_email_domain: env_or(env, "FALLBACK_EMAIL_DOMAIN", "cambium.invalid"),
                reserved_usernames: parse_reserved_usernames(
                    env_or(env, "RESERVED_USERNAMES", DEFAULT_RESERVED_USERNAMES).as_str(),
                ),
                lock_file: env_or(env, "LOCK_FILE", "/var/lib/cambium/cambium.lock"),
            },
        )
    }
}

/// The settings of the proxy.
#[derive(Debug, Clone)]
pub struct RopcConfig {
    /// The issuer of the Keycloak realm, below which its token endpoint is.
    pub keycloak_issuer: String,
    pub keycloak_ropc_client_id: String,
    pub keycloak_ropc_client_secret: String,
    /// The claim that names the user to Nexus.
    pub identity_claim: String,
    /// Where the Nexus is that the proxy stands in front of.
    pub nexus_upstream: String,
    /// The header by which Nexus is told the user.
    pub rutauth_header: String,
    pub cache_ttl_seconds: u64,
    pub listen_addr: String,
}

/// `RopcConfig` with its texts.
pub struct RopcConfigView {
    pub keycloak_issuer: Seq<char>,
    pub keycloak_ropc_client_id: Seq<char>,
    pub keycloak_ropc_client_secret: Seq<char>,
    pub identity_claim: Seq<char>,
    pub nexus_upstream: Seq<char>,
    pub rutauth_header: Seq<char>,
    pub cache_ttl_seconds: int,
    pub listen_addr: Seq<char>,
}

impl View for RopcConfig {
    type V = RopcConfigView;

    open spec fn view(&self) -> RopcConfigView {
        RopcConfigView {
            keycloak_issuer: self.keycloak_issuer@,
            keycloak_ropc_client_id: self.keycloak_ropc_client_id@,
            keycloak_ropc_client_secret: self.keycloak_ropc_client_secret@,
            identity_claim: self.identity_claim@,
            nexus_upstream: self.nexus_upstream@,
            rutauth_header: self.rutauth_header@,
            cache_ttl_seconds: self.cache_ttl_seconds as int,
            listen_addr: self.listen_addr@,
        }
    }
}

/// The settings of the proxy that an environment makes, where none is amiss.
pub open spec fn ropc_config_of(env: Map<Seq<char>, Seq<char>>) -> RopcConfigView {
    RopcConfigView {
        keycloak_issuer: env["KEYCLOAK_ISSUER"@],
        keycloak_ropc_client_id: env["KEYCLOAK_ROPC_CLIENT_ID"@],
        keycloak_ropc_client_secret: env["KEYCLOAK_ROPC_CLIENT_SECRET"@],
        identity_claim: or_default(env, "IDENTITY_CLAIM"@, "preferred_username"@),
        nexus_upstream: env["NEXUS_UPSTREAM"@],
        rutauth_header: env["RUTAUTH_HEADER"@],
        cache_ttl_seconds: number_or_default(env, "CACHE_TTL_SECONDS"@, "60"@)->Ok_0,
        listen_addr: or_default(env, "LISTEN_ADDR"@, "0.0.0.0:8090"@),
    }
}

/// What is wrong with an environment for the proxy, in the order in which it is looked at;
/// `None` where nothing is.
pub open spec fn ropc_config_objection(env: Map<Seq<char>, Seq<char>>) -> Option<
    ConfigErrorView,
> {
    if required_url(env, "KEYCLOAK_ISSUER"@) is Err {
        Some(required_url(env, "KEYCLOAK_ISSUER"@)->Err_0)
    } else if required(env, "KEYCLOAK_ROPC_CLIENT_ID"@) is Err {
        Some(required(env, "KEYCLOAK_ROPC_CLIENT_ID"@)->Err_0)
    } else if required(env, "KEYCLOAK_ROPC_CLIENT_SECRET"@) is Err {
        Some(required(env, "KEYCLOAK_ROPC_CLIENT_SECRET"@)->Err_0)
    } else if required_url(env, "NEXUS_UPSTREAM"@) is Err {
        Some(required_url(env, "NEXUS_UPSTREAM"@)->Err_0)
    } else if required(env, "RUTAUTH_HEADER"@) is Err {
        Some(required(env, "RUTAUTH_HEADER"@)->Err_0)
    } else if number_or_default(env, "CACHE_TTL_SECONDS"@, "60"@) is Err {
        Some(number_or_default(env, "CACHE_TTL_SECONDS"@, "60"@)->Err_0)
    } else {
        None
    }
}

impl RopcConfig {
    /// Reads the settings from the given environment variables.
    pub fn from_env(env: &StringMap<String>) -> (r: Result<RopcConfig, ConfigError>)
        ensures
            consent_is_read_from(env@),
            match (ropc_config_objection(env@), r) {
                (None, Ok(config)) => config@ == ropc_config_of(env@),
                (Some(objection), Err(e)) => e@ == objection,
                _ => false,
            },
            r matches Ok(config) ==> !env@.contains_key("ALLOW_INSECURE_HTTP"@) ==> is_https(
                config@.keycloak_issuer,
            ) && is_https(config@.nexus_upstream),
    {
        let allow_insecure = allow_insecure_http(env);
        let keycloak_issuer = match require_url(env, "KEYCLOAK_ISSUER", allow_insecure) {
            Ok(value) => value,
            Err(e) => return Err(e),
        };
        let keycloak_ropc_client_id = match env_require(env, "KEYCLOAK_ROPC_CLIENT_ID") {
            Ok(value) => value,
            Err(e) => return Err(e),
        };
        let keycloak_ropc_client_secret = match env_require(env, "KEYCLOAK_ROPC_CLIENT_SECRET") {
            Ok(value) => value,
            Err(e) => return Err(e),
        };
        let nexus_upstream = match require_url(env, "NEXUS_UPSTREAM", allow_insecure) {
            Ok(value) => value,
            Err(e) => return Err(e),
        };
        let rutauth_header = match env_require(env, "RUTAUTH_HEADER") {
            Ok(value) => value,
            Err(e) => return Err(e),
        };
        let cache_ttl_seconds = match env_number(env, "CACHE_TTL_SECONDS", "60") {
            Ok(n) => n,
            Err(e) => return Err(e),
        };
        Ok(
            RopcConfig {
                keycloak_issuer,
                keycloak_ropc_client_id,
                keycloak_ropc_client_secret,
                identity_claim: env_or(env, "IDENTITY_CLAIM", "preferred_username"),
                nexus_upstream,
                rutauth_header,
                cache_ttl_seconds,
                listen_addr: env_or(env, "LISTEN_ADDR", "0.0.0.0:8090"),
            },
        )
    }
}

/// Without the explicit consent, no plaintext URL is accepted, and with it nothing but HTTP and
/// HTTPS is.
pub proof fn plaintext_needs_consent(
    parsed: Result<(Seq<char>, Option<Seq<char>>), Seq<char>>,
    allow_insecure: bool,
)
    requires
        upstream_objection(parsed, allow_insecure) is None,
    ensures
        parsed is Ok,
        (parsed->Ok_0).0 == "https"@ || (allow_insecure && (parsed->Ok_0).0 == "http"@),
        (parsed->Ok_0).1 matches Some(host) && host.len() > 0,
{
}

/// Consent to plaintext never makes an acceptable URL unacceptable.
pub proof fn consent_only_widens(parsed: Result<(Seq<char>, Option<Seq<char>>), Seq<char>>)
    requires
        upstream_objection(parsed, false) is None,
    ensures
        upstream_objection(parsed, true) is None,
{
}

/// A role map is read exactly where every entry that is not blank names two roles.
pub proof fn role_map_is_read_where_entries_are_well_formed(entries: Seq<Seq<char>>)
    ensures
        role_map_of(entries) is Ok == (forall|i: int|
            0 <= i < entries.len() && trim(#[trigger] entries[i]).len() > 0 ==> role_entry(
                trim(entries[i]),
            ) is Some),
    decreases entries.len(),
{
    if entries.len() > 0 {
        let rest = entries.drop_last();
        role_map_is_read_where_entries_are_well_formed(rest);
        assert(entries[entries.len() - 1] == entries.last());
        assert forall|i: int| 0 <= i < rest.len() implies #[trigger] entries[i] == rest[i] by {}
        if role_map_of(rest) is Err {
            let i = choose|i: int|
                0 <= i < rest.len() && trim(#[trigger] rest[i]).len() > 0 && role_entry(
                    trim(rest[i]),
                ) is None;
            assert(entries[i] == rest[i]);
        }
    }
}

/// Every role in a role map that was read is named by an entry and is not blank.
pub proof fn role_map_holds_what_entries_name(entries: Seq<Seq<char>>, kc_role: Seq<char>)
    requires
        role_map_of(entries) is Ok,
        role_map_of(entries)->Ok_0.contains_key(kc_role),
    ensures
        kc_role.len() > 0,
        role_map_of(entries)->Ok_0[kc_role].len() > 0,
        exists|i: int|
            0 <= i < entries.len() && role_entry(trim(#[trigger] entries[i])) == Some(
                (kc_role, role_map_of(entries)->Ok_0[kc_role]),
            ),
    decreases entries.len(),
{
    let rest = entries.drop_last();
    let entry = trim(entries.last());
    assert(entries[entries.len() - 1] == entries.last());
    if entry.len() > 0 && (role_entry(entry)->0).0 == kc_role {
        assert(role_entry(trim(entries[entries.len() - 1])) == role_entry(entry));
    } else {
        role_map_holds_what_entries_name(rest, kc_role);
        let i = choose|i: int|
            0 <= i < rest.len() && role_entry(trim(#[trigger] rest[i])) == Some(
                (kc_role, role_map_of(rest)->Ok_0[kc_role]),
            );
        assert(entries[i] == rest[i]);
    }
}

/// Every entry of a role map that was read counts: the role it names stands in the map, with the
/// Nexus role of the last entry that names it.
pub proof fn every_entry_stands_in_the_role_map(
    entries: Seq<Seq<char>>,
    i: int,
    kc_role: Seq<char>,
    nx_role: Seq<char>,
)
    requires
        role_map_of(entries) is Ok,
        0 <= i < entries.len(),
        role_entry(trim(entries[i])) == Some((kc_role, nx_role)),
        forall|j: int|
            i < j < entries.len() ==> match role_entry(trim(#[trigger] entries[j])) {
                Some((other, value)) => other != kc_role,
                None => true,
            },
    ensures
        role_map_of(entries)->Ok_0.contains_key(kc_role),
        role_map_of(entries)->Ok_0[kc_role] == nx_role,
    decreases entries.len(),
{
    let rest = entries.drop_last();
    let last = entries.len() - 1;
    assert(entries[last] == entries.last());
    if i < last {
        assert(rest[i] == entries[i]);
        assert forall|j: int| i < j < rest.len() implies match role_entry(
            trim(#[trigger] rest[j]),
        ) {
            Some((other, value)) => other != kc_role,
            None => true,
        } by {
            assert(rest[j] == entries[j]);
        }
        every_entry_stands_in_the_role_map(rest, i, kc_role, nx_role);
        assert(match role_entry(trim(entries[last])) {
            Some((other, value)) => other != kc_role,
            None => true,
        });
    } else {
        lemma_entry_is_not_blank(trim(entries[i]));
    }
}

/// An entry that names two roles is not blank.
proof fn lemma_entry_is_not_blank(entry: Seq<char>)
    ensures
        role_entry(entry) is Some ==> entry.len() > 0,
{
    lemma_position(entry, ':');
}

/// What stands before and behind the first colon of an entry are its roles, without the white
/// space around them. Where either is blank, or there is no colon, the entry names none.
pub proof fn entries_name_what_stands_around_the_colon(kc_role: Seq<char>, nx_role: Seq<char>)
    requires
        !kc_role.contains(':'),
    ensures
        role_entry(kc_role) is None,
        trim(kc_role).len() > 0 && trim(nx_role).len() > 0 ==> role_entry(
            kc_role + seq![':'] + nx_role,
        ) == Some((trim(kc_role), trim(nx_role))),
        trim(kc_role).len() == 0 || trim(nx_role).len() == 0 ==> role_entry(
            kc_role + seq![':'] + nx_role,
        ) is None,
{
    joined_parts_are_cut_apart(kc_role, ':', nx_role);
    cutting_loses_only_the_separator(kc_role, ':');
}

/// Where a role map is refused, the first malformed entry is named.
pub proof fn first_malformed_entry_is_named(entries: Seq<Seq<char>>)
    requires
        role_map_of(entries) is Err,
    ensures
        exists|i: int|
            {
                &&& 0 <= i < entries.len()
                &&& role_map_of(entries)->Err_0 == trim(#[trigger] entries[i])
                &&& trim(entries[i]).len() > 0
                &&& role_entry(trim(entries[i])) is None
                &&& forall|j: int|
                    0 <= j < i && trim(#[trigger] entries[j]).len() > 0 ==> role_entry(
                        trim(entries[j]),
                    ) is Some
            },
    decreases entries.len(),
{
    let rest = entries.drop_last();
    if role_map_of(rest) is Err {
        first_malformed_entry_is_named(rest);
        let i = choose|i: int|
            {
                &&& 0 <= i < rest.len()
                &&& role_map_of(rest)->Err_0 == trim(#[trigger] rest[i])
                &&& trim(rest[i]).len() > 0
                &&& role_entry(trim(rest[i])) is None
                &&& forall|j: int|
                    0 <= j < i && trim(#[trigger] rest[j]).len() > 0 ==> role_entry(
                        trim(rest[j]),
                    ) is Some
            };
        assert(entries[i] == rest[i]);
        assert forall|j: int|
            0 <= j < i && trim(#[trigger] entries[j]).len() > 0 implies role_entry(
            trim(entries[j]),
        ) is Some by {
            assert(rest[j] == entries[j]);
        }
    } else {
        let last = entries.len() - 1;
        assert(entries[last] == entries.last());
        role_map_is_read_where_entries_are_well_formed(rest);
        assert forall|j: int|
            0 <= j < last && trim(#[trigger] entries[j]).len() > 0 implies role_entry(
            trim(entries[j]),
        ) is Some by {
            assert(rest[j] == entries[j]);
        }
    }
}

/// Exactly the names of a list are reserved: every item that is not blank, without the white
/// space around it and in lower case.
pub proof fn exactly_the_listed_names_are_reserved(raw: Seq<char>, name: Seq<char>)
    ensures
        reserved_of(raw).contains(name) == exists|i: int|
            0 <= i < split(raw, ',').len() && trim(#[trigger] split(raw, ',')[i]).len() > 0
                && unicode_lower(trim(split(raw, ',')[i])) == name,
        ascii_reserved_of(raw).contains(name) == exists|i: int|
            0 <= i < split(raw, ',').len() && trim(#[trigger] split(raw, ',')[i]).len() > 0
                && ascii_lower(trim(split(raw, ',')[i])) == name,
{
}

/// A URL is accepted exactly where it parses, has a host, and is HTTPS, or HTTP with consent. A
/// text that does not parse is refused for the parser's reason.
pub proof fn exactly_usable_urls_are_accepted(
    scheme: Seq<char>,
    host: Option<Seq<char>>,
    reason: Seq<char>,
    allow_insecure: bool,
)
    ensures
        upstream_objection(Ok((scheme, host)), allow_insecure) is None == ((scheme == "https"@ || (
        allow_insecure && scheme == "http"@)) && host is Some && host->0.len() > 0),
        upstream_objection(Err(reason), allow_insecure) == Some(reason),
{
    reveal_strlit("http");
    reveal_strlit("https");
    assert("http"@.len() != "https"@.len());
}

/// Consent is one of three words in any case, with any white space around it.
pub proof fn consent_is_one_of_three_words(
    before: Seq<char>,
    word: Seq<char>,
    after: Seq<char>,
)
    requires
        forall|i: int| 0 <= i < before.len() ==> is_white(#[trigger] before[i]),
        forall|i: int| 0 <= i < after.len() ==> is_white(#[trigger] after[i]),
        word.len() > 0 ==> !is_white(word[0]) && !is_white(word.last()),
    ensures
        ascii_says_yes(before + word + after) == (ascii_lower(word) == "1"@ || ascii_lower(word)
            == "true"@ || ascii_lower(word) == "yes"@),
        says_yes(before + word + after) == (unicode_lower(word) == "1"@ || unicode_lower(word)
            == "true"@ || unicode_lower(word) == "yes"@),
{
    trimming_takes_white_space_only(before, word, after);
}


/// The variables of the synchronisation have different names.
proof fn lemma_sync_names()
    ensures
        "ROLE_MAP"@.len() == 8,
        "KEYCLOAK_URL"@.len() == 12,
        "KEYCLOAK_REALM"@.len() == 14,
        "KEYCLOAK_CLIENT_ID"@.len() == 18,
        "KEYCLOAK_CLIENT_SECRET"@.len() == 22,
        "NEXUS_URL"@.len() == 9,
        "NEXUS_USERNAME"@.len() == 14,
        "NEXUS_PASSWORD"@.len() == 14,
        "POLL_INTERVAL_SECONDS"@.len() == 21,
        "STATE_FILE"@.len() == 10,
        "FALLBACK_EMAIL_DOMAIN"@.len() == 21,
        "LOCK_FILE"@.len() == 9,
        "RESERVED_USERNAMES"@.len() == 18,
        "ALLOW_INSECURE_HTTP"@.len() == 19,
        "KEYCLOAK_REALM"@ != "NEXUS_USERNAME"@,
        "KEYCLOAK_REALM"@ != "NEXUS_PASSWORD"@,
        "KEYCLOAK_CLIENT_ID"@ != "RESERVED_USERNAMES"@,
        "NEXUS_URL"@ != "LOCK_FILE"@,
        "NEXUS_USERNAME"@ != "NEXUS_PASSWORD"@,
        "POLL_INTERVAL_SECONDS"@ != "FALLBACK_EMAIL_DOMAIN"@,
{
    reveal_strlit("ROLE_MAP");
    reveal_strlit("KEYCLOAK_URL");
    reveal_strlit("KEYCLOAK_REALM");
    reveal_strlit("KEYCLOAK_CLIENT_ID");
    reveal_strlit("KEYCLOAK_CLIENT_SECRET");
    reveal_strlit("NEXUS_URL");
    reveal_strlit("NEXUS_USERNAME");
    reveal_strlit("NEXUS_PASSWORD");
    reveal_strlit("POLL_INTERVAL_SECONDS");
    reveal_strlit("STATE_FILE");
    reveal_strlit("FALLBACK_EMAIL_DOMAIN");
    reveal_strlit("LOCK_FILE");
    reveal_strlit("RESERVED_USERNAMES");
    reveal_strlit("ALLOW_INSECURE_HTTP");
    assert("KEYCLOAK_REALM"@[0] != "NEXUS_USERNAME"@[0]);
    assert("KEYCLOAK_REALM"@[0] != "NEXUS_PASSWORD"@[0]);
    assert("KEYCLOAK_CLIENT_ID"@[0] != "RESERVED_USERNAMES"@[0]);
    assert("NEXUS_URL"@[0] != "LOCK_FILE"@[0]);
    assert("NEXUS_USERNAME"@[6] != "NEXUS_PASSWORD"@[6]);
    assert("POLL_INTERVAL_SECONDS"@[0] != "FALLBACK_EMAIL_DOMAIN"@[0]);
}

/// The variables of the proxy have different names.
proof fn lemma_proxy_names()
    ensures
        "KEYCLOAK_ISSUER"@.len() == 15,
        "KEYCLOAK_ROPC_CLIENT_ID"@.len() == 23,
        "KEYCLOAK_ROPC_CLIENT_SECRET"@.len() == 27,
        "NEXUS_UPSTREAM"@.len() == 14,
        "RUTAUTH_HEADER"@.len() == 14,
        "CACHE_TTL_SECONDS"@.len() == 17,
        "IDENTITY_CLAIM"@.len() == 14,
        "LISTEN_ADDR"@.len() == 11,
        "ALLOW_INSECURE_HTTP"@.len() == 19,
        "NEXUS_UPSTREAM"@ != "RUTAUTH_HEADER"@,
        "NEXUS_UPSTREAM"@ != "IDENTITY_CLAIM"@,
        "RUTAUTH_HEADER"@ != "IDENTITY_CLAIM"@,
{
    reveal_strlit("KEYCLOAK_ISSUER");
    reveal_strlit("KEYCLOAK_ROPC_CLIENT_ID");
    reveal_strlit("KEYCLOAK_ROPC_CLIENT_SECRET");
    reveal_strlit("NEXUS_UPSTREAM");
    reveal_strlit("RUTAUTH_HEADER");
    reveal_strlit("CACHE_TTL_SECONDS");
    reveal_strlit("IDENTITY_CLAIM");
    reveal_strlit("LISTEN_ADDR");
    reveal_strlit("ALLOW_INSECURE_HTTP");
    assert("NEXUS_UPSTREAM"@[0] != "RUTAUTH_HEADER"@[0]);
    assert("NEXUS_UPSTREAM"@[0] != "IDENTITY_CLAIM"@[0]);
    assert("RUTAUTH_HEADER"@[0] != "IDENTITY_CLAIM"@[0]);
}

/// A setting of the synchronisation is what its variable says, whatever the others say, and the
/// default where the variable is not set.
pub proof fn sync_settings_are_those_of_their_variables(
    env: Map<Seq<char>, Seq<char>>,
    value: Seq<char>,
)
    ensures
        config_of(env.insert("KEYCLOAK_URL"@, value)).keycloak_url == value,
        config_of(env.insert("KEYCLOAK_REALM"@, value)).keycloak_realm == value,
        config_of(env.insert("KEYCLOAK_CLIENT_ID"@, value)).keycloak_client_id == value,
        config_of(env.insert("KEYCLOAK_CLIENT_SECRET"@, value)).keycloak_client_secret == value,
        config_of(env.insert("NEXUS_URL"@, value)).nexus_url == value,
        config_of(env.insert("NEXUS_USERNAME"@, value)).nexus_username == value,
        config_of(env.insert("NEXUS_PASSWORD"@, value)).nexus_password == value,
        config_of(env.insert("STATE_FILE"@, value)).state_file == value,
        config_of(env.remove("STATE_FILE"@)).state_file == "/var/lib/cambium/state.json"@,
        config_of(env.insert("FALLBACK_EMAIL_DOMAIN"@, value)).fallback_email_domain == value,
        config_of(env.remove("FALLBACK_EMAIL_DOMAIN"@)).fallback_email_domain == "cambium.invalid"@,
        config_of(env.insert("LOCK_FILE"@, value)).lock_file == value,
        config_of(env.remove("LOCK_FILE"@)).lock_file == "/var/lib/cambium/cambium.lock"@,
        number_of(value) matches Some(n) ==> config_of(
            env.insert("POLL_INTERVAL_SECONDS"@, value),
        ).poll_interval_seconds == n,
        config_of(env.remove("POLL_INTERVAL_SECONDS"@)).poll_interval_seconds == 60,
        role_map_of(split(value, ',')) matches Ok(map) ==> config_of(
            env.insert("ROLE_MAP"@, value),
        ).role_map == map,
        config_of(env.insert("RESERVED_USERNAMES"@, value)).reserved_usernames == reserved_of(
            value,
        ),
        config_of(env.remove("RESERVED_USERNAMES"@)).reserved_usernames == reserved_of(
            "admin,anonymous"@,
        ),
        insecure_allowed(env.insert("ALLOW_INSECURE_HTTP"@, value)) == says_yes(value),
{
    lemma_sixty();
}

/// A setting of the proxy is what its variable says, whatever the others say, and the default
/// where the variable is not set.
pub proof fn proxy_settings_are_those_of_their_variables(
    env: Map<Seq<char>, Seq<char>>,
    value: Seq<char>,
)
    ensures
        ropc_config_of(env.insert("KEYCLOAK_ISSUER"@, value)).keycloak_issuer == value,
        ropc_config_of(env.insert("KEYCLOAK_ROPC_CLIENT_ID"@, value)).keycloak_ropc_client_id == value,
        ropc_config_of(env.insert("KEYCLOAK_ROPC_CLIENT_SECRET"@, value)).keycloak_ropc_client_secret == value,
        ropc_config_of(env.insert("NEXUS_UPSTREAM"@, value)).nexus_upstream == value,
        ropc_config_of(env.insert("RUTAUTH_HEADER"@, value)).rutauth_header == value,
        ropc_config_of(env.insert("IDENTITY_CLAIM"@, value)).identity_claim == value,
        ropc_config_of(env.remove("IDENTITY_CLAIM"@)).identity_claim == "preferred_username"@,
        ropc_config_of(env.insert("LISTEN_ADDR"@, value)).listen_addr == value,
        ropc_config_of(env.remove("LISTEN_ADDR"@)).listen_addr == "0.0.0.0:8090"@,
        number_of(value) matches Some(n) ==> ropc_config_of(
            env.insert("CACHE_TTL_SECONDS"@, value),
        ).cache_ttl_seconds == n,
        ropc_config_of(env.remove("CACHE_TTL_SECONDS"@)).cache_ttl_seconds == 60,
{
    lemma_sixty();
}

/// The default of the two numbers.
proof fn lemma_sixty()
    ensures
        number_of("60"@) == Some(60int),
{
    reveal_strlit("60");
    assert("60"@ =~= seq!['6', '0']);
    written_numbers_are_read_back(60, 0);
    assert(decimal(6) =~= seq!['6']);
    assert(decimal(60) =~= seq!['6', '0']);
    assert(Seq::new(0, |i: int| '0') + decimal(60) =~= "60"@);
}

/// The synchronisation does not start without any of its required variables, and where one alone
/// is missing, that one is named.
pub proof fn missing_sync_variables_are_named(env: Map<Seq<char>, Seq<char>>, key: Seq<char>)
    requires
        ({
            ||| key == "ROLE_MAP"@
            ||| key == "KEYCLOAK_URL"@
            ||| key == "KEYCLOAK_REALM"@
            ||| key == "KEYCLOAK_CLIENT_ID"@
            ||| key == "KEYCLOAK_CLIENT_SECRET"@
            ||| key == "NEXUS_URL"@
            ||| key == "NEXUS_USERNAME"@
            ||| key == "NEXUS_PASSWORD"@
        }),
    ensures
        !env.contains_key(key) ==> config_objection(env) is Some,
        config_objection(env) is None ==> config_objection(env.remove(key)) == Some(
            ConfigErrorView::Missing(key),
        ),
{
    lemma_sync_names();
}

/// The proxy does not start without any of its required variables, and where one alone is
/// missing, that one is named.
pub proof fn missing_proxy_variables_are_named(env: Map<Seq<char>, Seq<char>>, key: Seq<char>)
    requires
        ({
            ||| key == "KEYCLOAK_ISSUER"@
            ||| key == "KEYCLOAK_ROPC_CLIENT_ID"@
            ||| key == "KEYCLOAK_ROPC_CLIENT_SECRET"@
            ||| key == "NEXUS_UPSTREAM"@
            ||| key == "RUTAUTH_HEADER"@
        }),
    ensures
        !env.contains_key(key) ==> ropc_config_objection(env) is Some,
        ropc_config_objection(env) is None ==> ropc_config_objection(env.remove(key)) == Some(
            ConfigErrorView::Missing(key),
        ),
{
    lemma_proxy_names();
}

/// Where one variable of the synchronisation is changed, it alone decides: a malformed number,
/// role map or URL is refused under its name, and any other text is accepted.
pub proof fn malformed_sync_variables_are_named(env: Map<Seq<char>, Seq<char>>, value: Seq<char>)
    requires
        config_objection(env) is None,
    ensures
        config_objection(env.insert("POLL_INTERVAL_SECONDS"@, value)) == if number_of(value) is Some {
            None
        } else {
            Some(ConfigErrorView::NotANumber("POLL_INTERVAL_SECONDS"@))
        },
        config_objection(env.insert("ROLE_MAP"@, value)) == match role_map_of(split(value, ',')) {
            Ok(map) => None,
            Err(entry) => Some(
                ConfigErrorView::RoleMap(CambiumErrorView::InvalidRoleMapEntry(entry)),
            ),
        },
        config_objection(env.insert("KEYCLOAK_URL"@, value)) == match upstream_objection(
            url_parsed(value),
            insecure_allowed(env),
        ) {
            None => None,
            Some(reason) => Some(
                ConfigErrorView::Upstream(
                    CambiumErrorView::InvalidUpstreamUrl { var: "KEYCLOAK_URL"@, value, reason },
                ),
            ),
        },
        config_objection(env.insert("NEXUS_URL"@, value)) == match upstream_objection(
            url_parsed(value),
            insecure_allowed(env),
        ) {
            None => None,
            Some(reason) => Some(
                ConfigErrorView::Upstream(
                    CambiumErrorView::InvalidUpstreamUrl { var: "NEXUS_URL"@, value, reason },
                ),
            ),
        },
        config_objection(env.insert("KEYCLOAK_REALM"@, value)) is None,
        config_objection(env.insert("KEYCLOAK_CLIENT_ID"@, value)) is None,
        config_objection(env.insert("KEYCLOAK_CLIENT_SECRET"@, value)) is None,
        config_objection(env.insert("NEXUS_USERNAME"@, value)) is None,
        config_objection(env.insert("NEXUS_PASSWORD"@, value)) is None,
        config_objection(env.insert("STATE_FILE"@, value)) is None,
        config_objection(env.insert("FALLBACK_EMAIL_DOMAIN"@, value)) is None,
        config_objection(env.insert("LOCK_FILE"@, value)) is None,
        config_objection(env.insert("RESERVED_USERNAMES"@, value)) is None,
{
    lemma_sync_names();
}

/// Where one variable of the proxy is changed, it alone decides: a malformed number or URL is
/// refused under its name, and any other text is accepted.
pub proof fn malformed_proxy_variables_are_named(env: Map<Seq<char>, Seq<char>>, value: Seq<char>)
    requires
        ropc_config_objection(env) is None,
    ensures
        ropc_config_objection(env.insert("CACHE_TTL_SECONDS"@, value)) == if number_of(value) is Some {
            None
        } else {
            Some(ConfigErrorView::NotANumber("CACHE_TTL_SECONDS"@))
        },
        ropc_config_objection(env.insert("KEYCLOAK_ISSUER"@, value)) == match upstream_objection(
            url_parsed(value),
            insecure_allowed(env),
        ) {
            None => None,
            Some(reason) => Some(
                ConfigErrorView::Upstream(
                    CambiumErrorView::InvalidUpstreamUrl { var: "KEYCLOAK_ISSUER"@, value, reason },
                ),
            ),
        },
        ropc_config_objection(env.insert("NEXUS_UPSTREAM"@, value)) == match upstream_objection(
            url_parsed(value),
            insecure_allowed(env),
        ) {
            None => None,
            Some(reason) => Some(
                ConfigErrorView::Upstream(
                    CambiumErrorView::InvalidUpstreamUrl { var: "NEXUS_UPSTREAM"@, value, reason },
                ),
            ),
        },
        ropc_config_objection(env.insert("KEYCLOAK_ROPC_CLIENT_ID"@, value)) is None,
        ropc_config_objection(env.insert("KEYCLOAK_ROPC_CLIENT_SECRET"@, value)) is None,
        ropc_config_objection(env.insert("RUTAUTH_HEADER"@, value)) is None,
        ropc_config_objection(env.insert("IDENTITY_CLAIM"@, value)) is None,
        ropc_config_objection(env.insert("LISTEN_ADDR"@, value)) is None,
{
    lemma_proxy_names();
}

/// The variables of the synchronisation in the order in which they are looked at.
pub open spec fn sync_order() -> Seq<Seq<char>> {
    seq![
        "ROLE_MAP"@,
        "KEYCLOAK_URL"@,
        "KEYCLOAK_REALM"@,
        "KEYCLOAK_CLIENT_ID"@,
        "KEYCLOAK_CLIENT_SECRET"@,
        "NEXUS_URL"@,
        "NEXUS_USERNAME"@,
        "NEXUS_PASSWORD"@,
        "POLL_INTERVAL_SECONDS"@,
    ]
}

/// The variables of the proxy in the order in which they are looked at.
pub open spec fn proxy_order() -> Seq<Seq<char>> {
    seq![
        "KEYCLOAK_ISSUER"@,
        "KEYCLOAK_ROPC_CLIENT_ID"@,
        "KEYCLOAK_ROPC_CLIENT_SECRET"@,
        "NEXUS_UPSTREAM"@,
        "RUTAUTH_HEADER"@,
        "CACHE_TTL_SECONDS"@,
    ]
}

/// The variable that an objection is about.
pub open spec fn variable_of(objection: ConfigErrorView) -> Seq<char> {
    match objection {
        ConfigErrorView::Missing(key) => key,
        ConfigErrorView::RoleMap(e) => "ROLE_MAP"@,
        ConfigErrorView::Upstream(e) => e->var,
        ConfigErrorView::NotANumber(key) => key,
    }
}

/// The first variable that is amiss is the one that is reported: whatever becomes of a variable
/// that is looked at later does not matter.
pub proof fn first_sync_objection_is_reported(
    env: Map<Seq<char>, Seq<char>>,
    i: int,
    j: int,
    value: Seq<char>,
)
    requires
        0 <= i < j < sync_order().len(),
        config_objection(env) matches Some(objection) && variable_of(objection) == sync_order()[i],
    ensures
        config_objection(env.remove(sync_order()[j])) == config_objection(env),
        config_objection(env.insert(sync_order()[j], value)) == config_objection(env),
{
    lemma_sync_names();
}

/// The first variable that is amiss is the one that is reported: whatever becomes of a variable
/// that is looked at later does not matter.
pub proof fn first_proxy_objection_is_reported(
    env: Map<Seq<char>, Seq<char>>,
    i: int,
    j: int,
    value: Seq<char>,
)
    requires
        0 <= i < j < proxy_order().len(),
        ropc_config_objection(env) matches Some(objection) && variable_of(objection)
            == proxy_order()[i],
    ensures
        ropc_config_objection(env.remove(proxy_order()[j])) == ropc_config_objection(env),
        ropc_config_objection(env.insert(proxy_order()[j], value)) == ropc_config_objection(env),
{
    lemma_proxy_names();
}

/// The settings show their texts, numbers and collections.
pub proof fn settings_show_their_texts(config: Config, ropc: RopcConfig)
    ensures
        config@.keycloak_url == config.keycloak_url@,
        config@.keycloak_realm == config.keycloak_realm@,
        config@.keycloak_client_id == config.keycloak_client_id@,
        config@.keycloak_client_secret == config.keycloak_client_secret@,
        config@.nexus_url == config.nexus_url@,
        config@.nexus_username == config.nexus_username@,
        config@.nexus_password == config.nexus_password@,
        config@.role_map == config.role_map@,
        config@.poll_interval_seconds == config.poll_interval_seconds,
        config@.state_file == config.state_file@,
        config@.fallback_email_domain == config.fallback_email_domain@,
        config@.reserved_usernames == config.reserved_usernames@,
        config@.lock_file == config.lock_file@,
        ropc@.keycloak_issuer == ropc.keycloak_issuer@,
        ropc@.keycloak_ropc_client_id == ropc.keycloak_ropc_client_id@,
        ropc@.keycloak_ropc_client_secret == ropc.keycloak_ropc_client_secret@,
        ropc@.identity_claim == ropc.identity_claim@,
        ropc@.nexus_upstream == ropc.nexus_upstream@,
        ropc@.rutauth_header == ropc.rutauth_header@,
        ropc@.cache_ttl_seconds == ropc.cache_ttl_seconds,
        ropc@.listen_addr == ropc.listen_addr@,
{
}

/// What a URL parser returned is taken as it came.
pub proof fn parsed_urls_show_their_texts(
    scheme: String,
    host: String,
    message: String,
)
    ensures
        parsed_view(Ok((scheme, Some(host)))) == Ok::<_, Seq<char>>((scheme@, Some(host@))),
        parsed_view(Ok((scheme, None))) == Ok::<_, Seq<char>>((scheme@, None::<Seq<char>>)),
        parsed_view(Err(message)) == Err::<(Seq<char>, Option<Seq<char>>), _>(message@),
{
}

/// The message of an objection holds the name of the variable, or the message of the underlying
/// error.
pub proof fn objections_hold_the_details(e: ConfigError)
    ensures
        match e {
            ConfigError::Missing(key) => has_text(config_error_message(e@), key@),
            ConfigError::RoleMap(cause) => has_text(
                config_error_message(e@),
                error_message(cause@),
            ),
            ConfigError::Upstream(cause) => config_error_message(e@) == error_message(cause@),
            ConfigError::NotANumber(key) => has_text(config_error_message(e@), key@),
        },
{
    let message = config_error_message(e@);
    let none = Seq::<char>::empty();
    match e {
        ConfigError::Missing(key) => {
            holding_a_text("missing required env var: "@, key@, none);
            assert(message =~= "missing required env var: "@ + key@ + none);
        },
        ConfigError::RoleMap(cause) => {
            holding_a_text("invalid ROLE_MAP: "@, error_message(cause@), none);
            assert(message =~= "invalid ROLE_MAP: "@ + error_message(cause@) + none);
        },
        ConfigError::Upstream(cause) => {},
        ConfigError::NotANumber(key) => {
            holding_a_text(none, key@, " must be a number"@);
            assert(message =~= none + key@ + " must be a number"@);
        },
    }
}

} // verus!
