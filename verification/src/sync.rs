//! What a user's Nexus roles should be: the pure decisions of the role synchronisation.

use crate::outside::{encode_hex, hex_text, random_bytes, to_unicode_lower, unicode_lower};
use crate::string_map::StringMap;
use crate::string_set::{lemma_take_insert, StringSet};
use crate::text::{
    ascii_lower, cut_once, cutting_loses_only_the_separator, find_char, join3,
    joined_parts_are_cut_apart, lemma_position, split_once, views,
};
use crate::token_cache::digests_are_told_apart;
use vstd::prelude::*;
use vstd::utf8::is_ascii_chars;

verus! {

/// What is known of one user when their roles are decided.
#[derive(Debug, Clone, PartialEq, Eq)]
pub struct ReconcileInput {
    /// The Nexus roles that Keycloak justifies right now.
    pub desired_managed_roles: StringSet,
    /// The roles that Cambium itself granted on the last successful pass.
    pub last_synced_roles: StringSet,
    /// The roles that the user has in Nexus right now.
    pub current_nexus_roles: StringSet,
}

/// What the user's roles become.
#[derive(Debug, Clone, PartialEq, Eq)]
pub struct ReconcileOutcome {
    /// The complete set of roles the user should end up with.
    pub new_roles: StringSet,
    /// Whether that set differs from the one the user has.
    pub changed: bool,
}

/// The roles a user ends up with: those present that Cambium did not grant, and those that are
/// justified now.
pub open spec fn reconciled(
    desired: Set<Seq<char>>,
    last_synced: Set<Seq<char>>,
    current: Set<Seq<char>>,
) -> Set<Seq<char>> {
    current.difference(last_synced).union(desired)
}

/// Decides the roles of one user. Nexus only replaces a user's whole role list, so whatever
/// Cambium did not put there last time is kept and what Keycloak justifies now is added.
pub fn reconcile_roles(input: &ReconcileInput) -> (r: ReconcileOutcome)
    ensures
        r.new_roles@ == reconciled(
            input.desired_managed_roles@,
            input.last_synced_roles@,
            input.current_nexus_roles@,
        ),
        r.changed == (r.new_roles@ != input.current_nexus_roles@),
{
    let mut new_roles = input.current_nexus_roles.difference(&input.last_synced_roles);
    new_roles.extend(&input.desired_managed_roles);
    let changed = !new_roles.same(&input.current_nexus_roles);
    ReconcileOutcome { new_roles, changed }
}

/// Whether `username` names a Nexus account that Cambium must not touch. `reserved` holds names
/// in lower case, because Nexus looks accounts up without regard to case.
pub fn is_reserved_username(username: &str, reserved: &StringSet) -> (r: bool)
    ensures
        r == reserved@.contains(unicode_lower(username@)),
        is_ascii_chars(username@) ==> r == reserved@.contains(ascii_lower(username@)),
{
    reserved.contains(to_unicode_lower(username).as_str())
}

/// The Nexus roles that a role map gives for a set of Keycloak roles.
pub open spec fn mapped_roles(
    effective: Set<Seq<char>>,
    role_map: Map<Seq<char>, Seq<char>>,
) -> Set<Seq<char>> {
    Set::new(
        |nexus_role: Seq<char>|
            exists|kc_role: Seq<char>| #[trigger]
                effective.contains(kc_role) && role_map.contains_key(kc_role) && role_map[kc_role]
                    == nexus_role,
    )
}

/// The Nexus roles of a set of Keycloak roles. A role without a mapping is ignored.
pub fn map_to_nexus_roles(
    effective_kc_roles: &StringSet,
    role_map: &StringMap<String>,
) -> (r: StringSet)
    ensures
        r@ == mapped_roles(effective_kc_roles@, role_map@),
{
    let names = effective_kc_roles.to_vec();
    let mut r = StringSet::new();
    let mut i: usize = 0;
    assert(r@ =~= mapped_roles(views(names@).take(0).to_set(), role_map@));
    while i < names.len()
        invariant
            i <= names.len(),
            r@ == mapped_roles(views(names@).take(i as int).to_set(), role_map@),
        decreases names.len() - i,
    {
        let ghost before = views(names@).take(i as int).to_set();
        let ghost name = views(names@)[i as int];
        let ghost old_r = r@;
        match role_map.get(names[i].as_str()) {
            Some(nexus_role) => {
                r.insert(nexus_role.clone());
            },
            None => {},
        }
        proof {
            lemma_take_insert(views(names@), i as int);
            lemma_map_one_more(before, role_map@, name);
            assert(name == names@[i as int]@);
        }
        i = i + 1;
    }
    assert(views(names@).take(names.len() as int) == views(names@));
    r
}

/// One more Keycloak role adds the Nexus role it maps to, if any.
proof fn lemma_map_one_more(
    effective: Set<Seq<char>>,
    role_map: Map<Seq<char>, Seq<char>>,
    name: Seq<char>,
)
    ensures
        mapped_roles(effective.insert(name), role_map) == if role_map.contains_key(name) {
            mapped_roles(effective, role_map).insert(role_map[name])
        } else {
            mapped_roles(effective, role_map)
        },
{
    let more = effective.insert(name);
    assert forall|n: Seq<char>| #[trigger]
        mapped_roles(more, role_map).contains(n) == (mapped_roles(effective, role_map).contains(n)
            || (role_map.contains_key(name) && n == role_map[name])) by {
        if mapped_roles(effective, role_map).contains(n) {
            let k = choose|k: Seq<char>| #[trigger]
                effective.contains(k) && role_map.contains_key(k) && role_map[k] == n;
            assert(more.contains(k));
        }
        if role_map.contains_key(name) && n == role_map[name] {
            assert(more.contains(name));
        }
        if mapped_roles(more, role_map).contains(n) {
            let k = choose|k: Seq<char>| #[trigger]
                more.contains(k) && role_map.contains_key(k) && role_map[k] == n;
            if k != name {
                assert(effective.contains(k));
            }
        }
    }
    assert(mapped_roles(more, role_map) =~= if role_map.contains_key(name) {
        mapped_roles(effective, role_map).insert(role_map[name])
    } else {
        mapped_roles(effective, role_map)
    });
}

/// Whether a username has exactly one `@`, with text on both sides of it.
pub open spec fn looks_like_email(username: Seq<char>) -> bool {
    match split_once(username, '@') {
        Some((local, domain)) => local.len() > 0 && domain.len() > 0 && !domain.contains('@'),
        None => false,
    }
}

/// The e-mail address a user gets in Nexus.
pub open spec fn email_address(username: Seq<char>, domain: Seq<char>) -> Seq<char> {
    if looks_like_email(username) {
        username
    } else {
        username + "@"@ + domain
    }
}

/// The e-mail address of a new Nexus user: the username where it already is one, and otherwise
/// the username at the fallback domain.
pub fn resolve_email_address(username: &str, fallback_email_domain: &str) -> (r: String)
    ensures
        r@ == email_address(username@, fallback_email_domain@),
{
    match cut_once(username, '@') {
        Some((local, domain)) => {
            let next = find_char(domain.as_str(), '@');
            let single = next == domain.as_str().unicode_len();
            proof {
                lemma_position(domain@, '@');
                if !single {
                    assert(domain@[next as int] == '@');
                }
                assert(single == !domain@.contains('@'));
            }
            if !local.as_str().is_empty() && !domain.as_str().is_empty() && single {
                return username.to_owned();
            }
        },
        None => {},
    }
    join3(username, "@", fallback_email_domain)
}

/// How many random bytes a placeholder password is made of.
pub const PLACEHOLDER_BYTES: usize = 32;

/// Whether drawing the bytes of a placeholder password at random may give these.
pub closed spec fn may_be_drawn(bytes: Vec<u8>) -> bool {
    call_ensures(random_bytes, (PLACEHOLDER_BYTES,), bytes)
}

/// Whether a text is the hexadecimal form of 32 bytes that were drawn at random.
pub open spec fn is_placeholder_password(text: Seq<char>) -> bool {
    exists|bytes: Vec<u8>| #[trigger]
        may_be_drawn(bytes) && bytes@.len() == 32 && text == hex_text(bytes@)
}

/// The placeholder password made of the given random bytes.
pub fn placeholder_password(bytes: &[u8]) -> (r: String)
    ensures
        r@ == hex_text(bytes@),
{
    encode_hex(bytes)
}

/// A password for a new Nexus account, drawn at random. Nobody signs in with it: it only fills
/// a field that Nexus requires. It has 256 random bits, written in hexadecimal.
pub fn random_placeholder_password() -> (r: String)
    ensures
        is_placeholder_password(r@),
{
    let bytes = random_bytes(PLACEHOLDER_BYTES);
    assert(may_be_drawn(bytes));
    placeholder_password(bytes.as_slice())
}

/// A role that Cambium did not grant on the last pass is never removed.
pub proof fn foreign_roles_are_kept(
    desired: Set<Seq<char>>,
    last_synced: Set<Seq<char>>,
    current: Set<Seq<char>>,
    role: Seq<char>,
)
    requires
        current.contains(role),
        !last_synced.contains(role),
    ensures
        reconciled(desired, last_synced, current).contains(role),
{
}

/// A role that Keycloak justifies is always granted.
pub proof fn desired_roles_are_granted(
    desired: Set<Seq<char>>,
    last_synced: Set<Seq<char>>,
    current: Set<Seq<char>>,
)
    ensures
        desired.subset_of(reconciled(desired, last_synced, current)),
{
}

/// A role that Cambium granted and that nothing justifies any more is revoked.
pub proof fn unjustified_roles_are_revoked(
    desired: Set<Seq<char>>,
    last_synced: Set<Seq<char>>,
    current: Set<Seq<char>>,
    role: Seq<char>,
)
    requires
        last_synced.contains(role),
        !desired.contains(role),
    ensures
        !reconciled(desired, last_synced, current).contains(role),
{
}

/// Roles only appear because Keycloak justifies them, and only disappear because Cambium had
/// granted them and Keycloak no longer does.
pub proof fn every_role_change_has_a_reason(
    desired: Set<Seq<char>>,
    last_synced: Set<Seq<char>>,
    current: Set<Seq<char>>,
    role: Seq<char>,
)
    ensures
        reconciled(desired, last_synced, current).contains(role) && !current.contains(role)
            ==> desired.contains(role),
        current.contains(role) && !reconciled(desired, last_synced, current).contains(role)
            ==> last_synced.contains(role) && !desired.contains(role),
{
}

/// With nothing on record, every role a user has is kept and roles are only added.
pub proof fn lost_record_never_revokes(desired: Set<Seq<char>>, current: Set<Seq<char>>)
    ensures
        reconciled(desired, Set::empty(), current) == current.union(desired),
{
    assert(reconciled(desired, Set::empty(), current) =~= current.union(desired));
}

/// A user who justifies nothing loses exactly the roles on record.
pub proof fn nothing_desired_revokes_what_was_granted(
    last_synced: Set<Seq<char>>,
    current: Set<Seq<char>>,
)
    ensures
        reconciled(Set::empty(), last_synced, current) == current.difference(last_synced),
{
    assert(reconciled(Set::empty(), last_synced, current) =~= current.difference(last_synced));
}

/// Once a pass has been applied and recorded, another pass with the same justification changes
/// nothing.
pub proof fn reconciling_twice_changes_nothing(
    desired: Set<Seq<char>>,
    last_synced: Set<Seq<char>>,
    current: Set<Seq<char>>,
)
    ensures
        ({
            let applied = reconciled(desired, last_synced, current);
            reconciled(desired, desired, applied) == applied
        }),
{
    let applied = reconciled(desired, last_synced, current);
    assert(reconciled(desired, desired, applied) =~= applied);
}

/// Granting roles that a user did not have, and withdrawing them again, gives back the roles that
/// were there before.
pub proof fn granting_then_withdrawing_restores(
    desired: Set<Seq<char>>,
    current: Set<Seq<char>>,
)
    requires
        desired.disjoint(current),
    ensures
        ({
            let granted = reconciled(desired, Set::empty(), current);
            reconciled(Set::empty(), desired, granted) == current
        }),
{
    let granted = reconciled(desired, Set::empty(), current);
    assert(reconciled(Set::empty(), desired, granted) =~= current);
}

/// Every Nexus role that is granted stands in the role map.
pub proof fn only_mapped_roles_are_granted(
    effective: Set<Seq<char>>,
    role_map: Map<Seq<char>, Seq<char>>,
    nexus_role: Seq<char>,
)
    requires
        mapped_roles(effective, role_map).contains(nexus_role),
    ensures
        exists|kc_role: Seq<char>| #[trigger]
            role_map.contains_key(kc_role) && effective.contains(kc_role) && role_map[kc_role]
                == nexus_role,
{
    let k = choose|k: Seq<char>| #[trigger]
        effective.contains(k) && role_map.contains_key(k) && role_map[k] == nexus_role;
    assert(role_map.contains_key(k));
}

/// Every Keycloak role that stands in the role map grants its Nexus role.
pub proof fn every_mapped_role_is_granted(
    effective: Set<Seq<char>>,
    role_map: Map<Seq<char>, Seq<char>>,
    kc_role: Seq<char>,
)
    requires
        effective.contains(kc_role),
        role_map.contains_key(kc_role),
    ensures
        mapped_roles(effective, role_map).contains(role_map[kc_role]),
{
}

/// A username with exactly one `@` and text on both sides of it is the e-mail address as it
/// stands, whatever else it holds.
pub proof fn email_usernames_are_the_address(
    local: Seq<char>,
    domain: Seq<char>,
    fallback: Seq<char>,
)
    requires
        local.len() > 0,
        domain.len() > 0,
        !local.contains('@'),
        !domain.contains('@'),
    ensures
        email_address(local + seq!['@'] + domain, fallback) == local + seq!['@'] + domain,
{
    joined_parts_are_cut_apart(local, '@', domain);
}

/// A username without `@`, with one at either end or with several gets the fallback domain
/// behind it, and is kept in full before that.
pub proof fn other_usernames_get_the_fallback_domain(
    username: Seq<char>,
    fallback: Seq<char>,
    i: int,
    j: int,
)
    requires
        ({
            ||| !username.contains('@')
            ||| username.len() > 0 && username[0] == '@'
            ||| username.len() > 0 && username.last() == '@'
            ||| 0 <= i < j < username.len() && username[i] == '@' && username[j] == '@'
        }),
    ensures
        email_address(username, fallback) == username + seq!['@'] + fallback,
{
    reveal_strlit("@");
    assert("@"@ =~= seq!['@']);
    cutting_loses_only_the_separator(username, '@');
    match split_once(username, '@') {
        Some((local, domain)) => {
            let n = local.len() as int;
            assert(username[n] == '@');
            assert forall|k: int| 0 <= k < n implies username[k] != '@' by {
                assert(local[k] == username[k]);
                assert(local.contains(local[k]));
            }
            assert forall|k: int|
                n < k < username.len() && username[k] == '@' implies domain.contains('@') by {
                assert(domain[k - n - 1] == username[k]);
            }
            let last = username.len() - 1;
            assert(username.contains(username[n]));
            assert(username[last] == '@' ==> last == n || domain.contains('@'));
        },
        None => {},
    }
}

/// A placeholder password has 64 lower-case hexadecimal digits, and different random bytes make
/// different passwords, so that none of the drawn bits is lost.
pub proof fn placeholder_passwords_keep_every_bit(bytes: Seq<u8>, others: Seq<u8>)
    requires
        bytes.len() == others.len(),
        bytes != others,
    ensures
        hex_text(bytes) != hex_text(others),
        forall|text: Seq<char>| #[trigger] is_placeholder_password(text) ==> text.len() == 64,
{
    if hex_text(bytes) == hex_text(others) {
        digests_are_told_apart(bytes, others);
    }
}

} // verus!
