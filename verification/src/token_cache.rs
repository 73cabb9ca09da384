//! The proxy's memory of who has just been authenticated, so that a client that sends many
//! requests is not checked by Keycloak for each of them.

use crate::outside::{
    digest_sha256, encode_hex, hex_lower, hex_text, instant_now, nanos_since, sha256,
};
use crate::ropc::{
    exchange_view, extract_identity_claim, identity_of, identity_view, RopcError, RopcErrorView,
    TokenExchanger, TokenResponse, TokenResponseView,
};
use crate::string_map::StringMap;
use crate::text::{has_text, push_bytes};
use vstd::prelude::*;
use vstd::utf8::{
    char_is_scalar, char_u32_cast, encode_scalar, encode_utf8, encode_utf8_decode_utf8,
};

verus! {

/// The bytes whose digest names some credentials: a zero byte stands between username and
/// password, so that no two ways of cutting one text give the same bytes.
pub open spec fn credential_bytes(username: Seq<char>, password: Seq<char>) -> Seq<u8> {
    encode_utf8(username) + seq![0u8] + encode_utf8(password)
}

/// The name under which credentials are remembered: their digest in hexadecimal.
pub open spec fn cache_key_of(username: Seq<char>, password: Seq<char>) -> Seq<char> {
    hex_text(sha256(credential_bytes(username, password)))
}

/// Whether a character is a hexadecimal digit in lower case.
pub open spec fn is_hex_digit(c: char) -> bool {
    '0' <= c <= '9' || 'a' <= c <= 'f'
}

/// The name under which credentials are remembered. It does not hold the credentials, only
/// their digest.
pub fn cache_key(username: &str, password: &str) -> (r: String)
    ensures
        r@ == cache_key_of(username@, password@),
        r@.len() == 64,
        forall|i: int| 0 <= i < 64 ==> is_hex_digit(#[trigger] r@[i]),
{
    let mut bytes: Vec<u8> = Vec::new();
    push_bytes(&mut bytes, username);
    bytes.push(0u8);
    push_bytes(&mut bytes, password);
    assert(bytes@ =~= credential_bytes(username@, password@));
    let digest = digest_sha256(bytes.as_slice());
    let key = encode_hex(digest.as_slice());
    proof {
        assert forall|i: int| 0 <= i < 64 implies is_hex_digit(#[trigger] key@[i]) by {
            let byte = digest@[i / 2] as int;
            assert(is_hex_digit(hex_lower(byte / 16)));
            assert(is_hex_digit(hex_lower(byte % 16)));
        }
    }
    key
}

/// A clock. Times are nanoseconds since a moment of the clock's own.
pub trait Clock {
    fn now(&self) -> u64;
}

/// The machine's monotonic clock.
pub struct SystemClock {
    origin: std::time::Instant,
}

impl SystemClock {
    /// The moment that the clock counts from.
    pub closed spec fn counts_from(&self) -> std::time::Instant {
        self.origin
    }

    /// A clock that counts from the moment at which it is made.
    pub fn new() -> (r: SystemClock)
        ensures
            may_be_now(r.counts_from()),
    {
        SystemClock { origin: instant_now() }
    }
}

/// Whether a moment is one that the machine's monotonic clock may show when it is read.
pub closed spec fn may_be_now(moment: std::time::Instant) -> bool {
    call_ensures(instant_now, (), moment)
}

/// Whether the machine's monotonic clock may have counted this many nanoseconds since a moment
/// when it is read.
pub closed spec fn may_have_passed(since: std::time::Instant, nanoseconds: u64) -> bool {
    call_ensures(nanos_since, (&since,), nanoseconds)
}

impl Clock for SystemClock {
    /// The nanoseconds that have passed since the moment that the clock counts from.
    fn now(&self) -> (r: u64)
        ensures
            may_have_passed(self.counts_from(), r),
    {
        nanos_since(&self.origin)
    }
}

/// A clock that stands still until it is told to move.
#[derive(Debug, Clone, Copy)]
pub struct FakeClock {
    now: u64,
}

impl View for FakeClock {
    type V = int;

    closed spec fn view(&self) -> int {
        self.now as int
    }
}

impl FakeClock {
    /// A clock at its first moment.
    pub fn new() -> (r: FakeClock)
        ensures
            r@ == 0,
    {
        FakeClock { now: 0 }
    }

    /// Moves the clock forward.
    pub fn advance(&mut self, seconds: u64)
        requires
            old(self)@ + seconds * 1_000_000_000 <= u64::MAX,
        ensures
            final(self)@ == old(self)@ + seconds * 1_000_000_000,
    {
        self.now = self.now + seconds * 1_000_000_000;
    }
}

impl Clock for FakeClock {
    fn now(&self) -> (r: u64)
        ensures
            r == self@,
    {
        self.now
    }
}

/// An identity, and the nanosecond from which it is forgotten.
#[derive(Debug)]
struct CacheEntry {
    identity: String,
    expires_at: u128,
}

impl View for CacheEntry {
    type V = (Seq<char>, int);

    closed spec fn view(&self) -> (Seq<char>, int) {
        (self.identity@, self.expires_at as int)
    }
}

/// Identities by the digest of the credentials, each for a limited time and in memory only.
#[derive(Debug)]
pub struct TokenCache<C: Clock> {
    entries: StringMap<CacheEntry>,
    ttl_seconds: u64,
    clock: C,
}

/// The contents of a cache and the lifetime of its entries in seconds.
pub struct CacheView {
    pub entries: Map<Seq<char>, (Seq<char>, int)>,
    pub ttl_seconds: int,
}

impl<C: Clock> View for TokenCache<C> {
    type V = CacheView;

    closed spec fn view(&self) -> CacheView {
        CacheView { entries: self.entries@, ttl_seconds: self.ttl_seconds as int }
    }
}

/// The identity that a cache knows for some credentials at a nanosecond.
pub open spec fn cached(
    cache: CacheView,
    username: Seq<char>,
    password: Seq<char>,
    now: u64,
) -> Option<Seq<char>> {
    let key = cache_key_of(username, password);
    if cache.entries.contains_key(key) && now < cache.entries[key].1 {
        Some(cache.entries[key].0)
    } else {
        None
    }
}

/// A cache that is told the identity for some credentials at a nanosecond.
pub open spec fn with_identity(
    cache: CacheView,
    username: Seq<char>,
    password: Seq<char>,
    identity: Seq<char>,
    now: u64,
) -> CacheView {
    CacheView {
        entries: cache.entries.insert(
            cache_key_of(username, password),
            (identity, now + cache.ttl_seconds * 1_000_000_000),
        ),
        ttl_seconds: cache.ttl_seconds,
    }
}

impl<C: Clock> TokenCache<C> {
    /// The clock of the cache.
    pub closed spec fn its_clock(&self) -> C {
        self.clock
    }

    /// Whether the clock of the cache may show this nanosecond.
    pub open spec fn may_show(&self, now: u64) -> bool {
        call_ensures(C::now, (&self.its_clock(),), now)
    }

    /// An empty cache whose entries live for `ttl_seconds`.
    pub fn new(ttl_seconds: u64, clock: C) -> (r: TokenCache<C>)
        ensures
            r@.entries == Map::<Seq<char>, (Seq<char>, int)>::empty(),
            r@.ttl_seconds == ttl_seconds,
            r.its_clock() == clock,
    {
        TokenCache { entries: StringMap::new(), ttl_seconds, clock }
    }

    /// The clock of the cache.
    pub fn clock(&self) -> (r: &C)
        ensures
            *r == self.its_clock(),
    {
        &self.clock
    }

    /// Replaces the clock of the cache.
    pub fn set_clock(&mut self, clock: C)
        ensures
            final(self)@ == old(self)@,
            final(self).its_clock() == clock,
    {
        self.clock = clock;
    }

    /// The identity known for some credentials at the given nanosecond.
    pub fn get_at(&self, username: &str, password: &str, now: u64) -> (r: Option<String>)
        ensures
            match r {
                Some(identity) => cached(self@, username@, password@, now) == Some(identity@),
                None => cached(self@, username@, password@, now) is None,
            },
    {
        let key = cache_key(username, password);
        match self.entries.get(key.as_str()) {
            Some(entry) => if (now as u128) < entry.expires_at {
                Some(entry.identity.clone())
            } else {
                None
            },
            None => None,
        }
    }

    /// Remembers the identity for some credentials from the given nanosecond on.
    pub fn put_at(&mut self, username: &str, password: &str, identity: &str, now: u64)
        ensures
            final(self)@ == with_identity(old(self)@, username@, password@, identity@, now),
            final(self).its_clock() == old(self).its_clock(),
    {
        let key = cache_key(username, password);
        let expires_at: u128 = now as u128 + self.ttl_seconds as u128 * 1_000_000_000;
        self.entries.insert(key, CacheEntry { identity: identity.to_owned(), expires_at });
    }

    /// The identity known for some credentials now.
    pub fn get(&self, username: &str, password: &str) -> (r: Option<String>)
        ensures
            exists|now: u64|
                {
                    &&& #[trigger] self.may_show(now)
                    &&& match r {
                        Some(identity) => cached(self@, username@, password@, now) == Some(
                            identity@,
                        ),
                        None => cached(self@, username@, password@, now) is None,
                    }
                },
    {
        let now = self.clock.now();
        assert(self.may_show(now));
        self.get_at(username, password, now)
    }

    /// Remembers the identity for some credentials from now on.
    pub fn put(&mut self, username: &str, password: &str, identity: &str)
        ensures
            exists|now: u64|
                {
                    &&& #[trigger] old(self).may_show(now)
                    &&& final(self)@ == with_identity(
                        old(self)@,
                        username@,
                        password@,
                        identity@,
                        now,
                    )
                },
            final(self).its_clock() == old(self).its_clock(),
    {
        let now = self.clock.now();
        assert(self.may_show(now));
        self.put_at(username, password, identity, now);
    }
}

/// What an exchange leads to at a nanosecond: the identity in the token, which is then
/// remembered, or a failure, which never is.
pub open spec fn exchanged(
    cache: CacheView,
    username: Seq<char>,
    password: Seq<char>,
    outcome: Result<TokenResponseView, RopcErrorView>,
    identity_claim: Seq<char>,
    now: u64,
) -> (CacheView, Result<Seq<char>, RopcErrorView>) {
    match outcome {
        Err(e) => (cache, Err(e)),
        Ok(token) => match identity_of(token, identity_claim) {
            Err(e) => (cache, Err(e)),
            Ok(identity) => (
                with_identity(cache, username, password, identity, now),
                Ok(identity),
            ),
        },
    }
}

/// Takes the result of an exchange of some credentials.
pub fn accept_exchange<C: Clock>(
    username: &str,
    password: &str,
    outcome: Result<TokenResponse, RopcError>,
    cache: &mut TokenCache<C>,
    identity_claim: &str,
) -> (r: Result<String, RopcError>)
    ensures
        exists|now: u64|
            {
                &&& #[trigger] old(cache).may_show(now)
                &&& (final(cache)@, identity_view(r)) == exchanged(
                    old(cache)@,
                    username@,
                    password@,
                    exchange_view(outcome),
                    identity_claim@,
                    now,
                )
            },
        final(cache).its_clock() == old(cache).its_clock(),
{
    let now = cache.clock().now();
    assert(cache.may_show(now));
    match outcome {
        Err(e) => Err(e),
        Ok(token) => match extract_identity_claim(&token, identity_claim) {
            Err(e) => Err(e),
            Ok(identity) => {
                cache.put_at(username, password, identity.as_str(), now);
                Ok(identity)
            },
        },
    }
}

/// How it is found out who a client is.
#[derive(Debug)]
pub enum AuthStep {
    /// It is known.
    Known(String),
    /// Its credentials are to be exchanged.
    Exchange,
}

/// Decides how to find out who a client is: Keycloak is asked exactly where the cache does not
/// know.
pub fn begin_authentication<C: Clock>(
    username: &str,
    password: &str,
    cache: &TokenCache<C>,
) -> (r: AuthStep)
    ensures
        exists|now: u64|
            {
                &&& #[trigger] cache.may_show(now)
                &&& match r {
                    AuthStep::Known(identity) => cached(cache@, username@, password@, now) == Some(
                        identity@,
                    ),
                    AuthStep::Exchange => cached(cache@, username@, password@, now) is None,
                }
            },
{
    match cache.get(username, password) {
        Some(identity) => AuthStep::Known(identity),
        None => AuthStep::Exchange,
    }
}

/// Finds out who a client is: from the cache, or by an exchange of its credentials.
pub fn authenticate<C: Clock, E: TokenExchanger>(
    username: &str,
    password: &str,
    exchanger: &E,
    cache: &mut TokenCache<C>,
    identity_claim: &str,
) -> (r: Result<String, RopcError>)
    ensures
        exists|now: u64|
            {
                &&& #[trigger] old(cache).may_show(now)
                &&& match cached(old(cache)@, username@, password@, now) {
                    Some(identity) => final(cache)@ == old(cache)@ && identity_view(r) == Ok::<
                        _,
                        RopcErrorView,
                    >(identity),
                    None => exists|outcome: Result<TokenResponse, RopcError>, later: u64|
                        {
                            &&& #[trigger] call_ensures(
                                E::exchange,
                                (exchanger, username, password),
                                outcome,
                            )
                            &&& #[trigger] old(cache).may_show(later)
                            &&& (final(cache)@, identity_view(r)) == exchanged(
                                old(cache)@,
                                username@,
                                password@,
                                exchange_view(outcome),
                                identity_claim@,
                                later,
                            )
                        },
                }
            },
        final(cache).its_clock() == old(cache).its_clock(),
{
    match begin_authentication(username, password, cache) {
        AuthStep::Known(identity) => Ok(identity),
        AuthStep::Exchange => {
            let outcome = exchanger.exchange(username, password);
            accept_exchange(username, password, outcome, cache, identity_claim)
        },
    }
}

/// A key gives no credential away: a text with any character that is not a lower-case hexadecimal
/// digit does not occur in it.
pub proof fn keys_hold_no_credentials(key: Seq<char>, text: Seq<char>, i: int)
    requires
        forall|j: int| 0 <= j < key.len() ==> is_hex_digit(#[trigger] key[j]),
        0 <= i < text.len(),
        !is_hex_digit(text[i]),
    ensures
        !has_text(key, text),
{
    if has_text(key, text) {
        let at = choose|at: int|
            0 <= at <= key.len() - text.len() && #[trigger] key.subrange(at, at + text.len())
                == text;
        assert(key.subrange(at, at + text.len())[i] == key[at + i]);
    }
}

/// An identity that was remembered is known until its time is up.
pub proof fn identity_is_known_within_its_time(
    cache: CacheView,
    username: Seq<char>,
    password: Seq<char>,
    identity: Seq<char>,
    now: u64,
    later: u64,
)
    requires
        later < now + cache.ttl_seconds * 1_000_000_000,
    ensures
        cached(
            with_identity(cache, username, password, identity, now),
            username,
            password,
            later,
        ) == Some(identity),
{
}

/// Once its time is up an identity is no longer known, so that Keycloak is asked again.
pub proof fn identity_is_forgotten_in_time(
    cache: CacheView,
    username: Seq<char>,
    password: Seq<char>,
    identity: Seq<char>,
    now: u64,
    later: u64,
)
    requires
        later >= now + cache.ttl_seconds * 1_000_000_000,
    ensures
        cached(
            with_identity(cache, username, password, identity, now),
            username,
            password,
            later,
        ) is None,
{
}

/// Remembering one identity does not touch what is known under any other key.
pub proof fn other_keys_are_not_touched(
    cache: CacheView,
    username: Seq<char>,
    password: Seq<char>,
    identity: Seq<char>,
    other_username: Seq<char>,
    other_password: Seq<char>,
    now: u64,
    later: u64,
)
    requires
        cache_key_of(username, password) != cache_key_of(other_username, other_password),
    ensures
        cached(
            with_identity(cache, username, password, identity, now),
            other_username,
            other_password,
            later,
        ) == cached(cache, other_username, other_password, later),
{
}

/// A failure is never remembered: neither a refused exchange nor a token without the claim
/// changes the cache.
pub proof fn failures_are_never_remembered(
    cache: CacheView,
    username: Seq<char>,
    password: Seq<char>,
    outcome: Result<TokenResponseView, RopcErrorView>,
    identity_claim: Seq<char>,
    now: u64,
)
    requires
        exchanged(cache, username, password, outcome, identity_claim, now).1 is Err,
    ensures
        exchanged(cache, username, password, outcome, identity_claim, now).0 == cache,
{
}

/// A successful exchange is answered from the cache until its time is up.
pub proof fn success_is_remembered(
    cache: CacheView,
    username: Seq<char>,
    password: Seq<char>,
    outcome: Result<TokenResponseView, RopcErrorView>,
    identity_claim: Seq<char>,
    now: u64,
    later: u64,
)
    requires
        exchanged(cache, username, password, outcome, identity_claim, now).1 is Ok,
        later < now + cache.ttl_seconds * 1_000_000_000,
    ensures
        cached(
            exchanged(cache, username, password, outcome, identity_claim, now).0,
            username,
            password,
            later,
        ) == Some(exchanged(cache, username, password, outcome, identity_claim, now).1->Ok_0),
{
}

/// Different credentials give different bytes to digest, wherever the usernames hold no zero
/// character.
pub proof fn credentials_are_told_apart(
    username: Seq<char>,
    password: Seq<char>,
    other_username: Seq<char>,
    other_password: Seq<char>,
)
    requires
        !username.contains('\0'),
        !other_username.contains('\0'),
        username != other_username || password != other_password,
    ensures
        credential_bytes(username, password) != credential_bytes(other_username, other_password),
{
    let a = encode_utf8(username);
    let b = encode_utf8(other_username);
    let x = credential_bytes(username, password);
    let y = credential_bytes(other_username, other_password);
    if x == y {
        lemma_no_zero_byte(username);
        lemma_no_zero_byte(other_username);
        assert(x[a.len() as int] == 0);
        assert(y[b.len() as int] == 0);
        if a.len() < b.len() {
            assert(y[a.len() as int] == b[a.len() as int]);
        } else if b.len() < a.len() {
            assert(x[b.len() as int] == a[b.len() as int]);
        }
        assert(a =~= x.take(a.len() as int));
        assert(b =~= y.take(b.len() as int));
        assert(encode_utf8(password) =~= x.skip(a.len() as int + 1));
        assert(encode_utf8(other_password) =~= y.skip(b.len() as int + 1));
        encode_utf8_decode_utf8(username);
        encode_utf8_decode_utf8(other_username);
        encode_utf8_decode_utf8(password);
        encode_utf8_decode_utf8(other_password);
    }
}

/// A text without the zero character has no zero byte.
proof fn lemma_no_zero_byte(text: Seq<char>)
    requires
        !text.contains('\0'),
    ensures
        forall|i: int| 0 <= i < encode_utf8(text).len() ==> encode_utf8(text)[i] != 0,
    decreases text.len(),
{
    if text.len() > 0 {
        let rest = text.drop_first();
        assert(text[0] != '\0');
        assert forall|i: int| 0 <= i < rest.len() implies rest[i] != '\0' by {
            assert(rest[i] == text[i + 1]);
        }
        lemma_no_zero_byte(rest);
        let c = text[0] as u32;
        char_is_scalar(text[0]);
        char_u32_cast(text[0], c);
        assert(c != 0);
        assert(c != 0 && c <= 0x7f ==> (c & 0x7f) as u8 != 0) by (bit_vector);
        assert(0xc0u8 | ((c >> 6) & 0x1f) as u8 != 0) by (bit_vector);
        assert(0xe0u8 | ((c >> 12) & 0x0f) as u8 != 0) by (bit_vector);
        assert(0xf0u8 | ((c >> 18) & 0x7) as u8 != 0) by (bit_vector);
        assert(0x80u8 | (c & 0x3f) as u8 != 0) by (bit_vector);
        assert(0x80u8 | ((c >> 6) & 0x3f) as u8 != 0) by (bit_vector);
        assert(0x80u8 | ((c >> 12) & 0x3f) as u8 != 0) by (bit_vector);
        let first = encode_scalar(c);
        assert forall|i: int| 0 <= i < encode_utf8(text).len() implies encode_utf8(text)[i]
            != 0 by {
            if i < first.len() {
                assert(encode_utf8(text)[i] == first[i]);
            } else {
                assert(encode_utf8(text)[i] == encode_utf8(rest)[i - first.len()]);
            }
        }
    }
}

/// Who a client is, is what its token says, whatever username it gave: the outcome of an exchange
/// is the claim of the token or the failure to read it, and it is this claim that is remembered.
pub proof fn token_says_who_the_client_is(
    cache: CacheView,
    username: Seq<char>,
    password: Seq<char>,
    token: TokenResponse,
    identity_claim: Seq<char>,
    now: u64,
    later: u64,
)
    requires
        now <= later,
    ensures
        ({
            let (after, answer) = exchanged(
                cache,
                username,
                password,
                exchange_view(Ok(token)),
                identity_claim,
                now,
            );
            &&& answer == identity_of(token@, identity_claim)
            &&& answer is Ok ==> cached(after, username, password, later) == if later - now
                < cache.ttl_seconds * 1_000_000_000 {
                Some(identity_of(token@, identity_claim)->Ok_0)
            } else {
                None
            }
            &&& after.ttl_seconds == cache.ttl_seconds
        }),
{
}

/// An exchange that failed fails the client for the same reason, and what was known is still
/// known.
pub proof fn failed_exchanges_fail_the_client(
    cache: CacheView,
    username: Seq<char>,
    password: Seq<char>,
    error: RopcError,
    identity_claim: Seq<char>,
    now: u64,
)
    ensures
        exchanged(cache, username, password, exchange_view(Err(error)), identity_claim, now) == (
            cache,
            Err::<Seq<char>, _>(error@),
        ),
{
}

/// An exchange touches nothing that is known under any other key, and of what was known under
/// its own key nothing is left.
pub proof fn exchanges_replace_one_entry(
    cache: CacheView,
    other_cache: CacheView,
    username: Seq<char>,
    password: Seq<char>,
    outcome: Result<TokenResponseView, RopcErrorView>,
    identity_claim: Seq<char>,
    now: u64,
    key: Seq<char>,
)
    requires
        cache.ttl_seconds == other_cache.ttl_seconds,
    ensures
        ({
            let (after, answer) = exchanged(
                cache,
                username,
                password,
                outcome,
                identity_claim,
                now,
            );
            let (other_after, other_answer) = exchanged(
                other_cache,
                username,
                password,
                outcome,
                identity_claim,
                now,
            );
            &&& answer == other_answer
            &&& key != cache_key_of(username, password) ==> after.entries.contains_key(key)
                == cache.entries.contains_key(key) && after.entries[key] == cache.entries[key]
            &&& answer is Ok ==> after.entries.contains_key(cache_key_of(username, password))
                && after.entries[cache_key_of(username, password)]
                == other_after.entries[cache_key_of(username, password)]
        }),
{
}

/// Two different credentials are remembered under one name only where two different byte strings
/// have the same SHA-256 digest, wherever the usernames hold no zero character.
pub proof fn shared_keys_are_shared_digests(
    username: Seq<char>,
    password: Seq<char>,
    other_username: Seq<char>,
    other_password: Seq<char>,
)
    requires
        !username.contains('\0'),
        !other_username.contains('\0'),
        username != other_username || password != other_password,
    ensures
        cache_key_of(username, password) == cache_key_of(other_username, other_password)
            ==> exists|x: Seq<u8>, y: Seq<u8>| x != y && #[trigger] sha256(x) == #[trigger] sha256(y),
{
    credentials_are_told_apart(username, password, other_username, other_password);
    let x = credential_bytes(username, password);
    let y = credential_bytes(other_username, other_password);
    if hex_text(sha256(x)) == hex_text(sha256(y)) {
        digests_are_told_apart(sha256(x), sha256(y));
    }
}

/// Different bytes have different hexadecimal texts.
pub proof fn digests_are_told_apart(bytes: Seq<u8>, other: Seq<u8>)
    requires
        hex_text(bytes) == hex_text(other),
    ensures
        bytes == other,
{
    assert(hex_text(bytes).len() == 2 * bytes.len());
    assert(hex_text(other).len() == 2 * other.len());
    assert forall|i: int| 0 <= i < bytes.len() implies bytes[i] == other[i] by {
        lemma_hex_digits(bytes, i);
        lemma_hex_digits(other, i);
        lemma_hex_lower(bytes[i] as int / 16, other[i] as int / 16);
        lemma_hex_lower(bytes[i] as int % 16, other[i] as int % 16);
    }
    assert(bytes =~= other);
}

/// The two digits of a byte stand in its place.
proof fn lemma_hex_digits(bytes: Seq<u8>, i: int)
    requires
        0 <= i < bytes.len(),
    ensures
        hex_text(bytes)[2 * i] == hex_lower(bytes[i] as int / 16),
        hex_text(bytes)[2 * i + 1] == hex_lower(bytes[i] as int % 16),
{
    assert((2 * i) / 2 == i && (2 * i) % 2 == 0);
    assert((2 * i + 1) / 2 == i && (2 * i + 1) % 2 == 1);
}

/// Different values have different hexadecimal digits.
proof fn lemma_hex_lower(m: int, n: int)
    requires
        0 <= m < 16,
        0 <= n < 16,
        hex_lower(m) == hex_lower(n),
    ensures
        m == n,
{
    assert(hex_lower(m) as int == if m < 10 { 48 + m } else { 87 + m });
    assert(hex_lower(n) as int == if n < 10 { 48 + n } else { 87 + n });
}

} // verus!
