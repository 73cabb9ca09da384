//! The record of which Nexus roles Cambium itself granted to each user. Nexus cannot tell who
//! assigned a role, so this record is what makes it safe to take roles away again.

use crate::error::{CambiumError, CambiumErrorView, CambiumResult};
use crate::string_map::StringMap;
use crate::string_set::{lemma_take_insert, StringSet};
use crate::text::{
    join3, joined_parts_are_cut_apart, lemma_position, position, split_once, views,
};
use vstd::prelude::*;

verus! {

/// What was granted, by realm and username.
#[derive(Debug)]
pub struct Manifest {
    entries: StringMap<StringSet>,
}

impl View for Manifest {
    type V = Map<Seq<char>, Set<Seq<char>>>;

    closed spec fn view(&self) -> Map<Seq<char>, Set<Seq<char>>> {
        self.entries@
    }
}

/// The key of a user in a realm.
pub open spec fn manifest_key(realm: Seq<char>, username: Seq<char>) -> Seq<char> {
    realm + "/"@ + username
}

/// What a record says of a user: nothing granted where there is no entry.
pub open spec fn recorded(
    entries: Map<Seq<char>, Set<Seq<char>>>,
    realm: Seq<char>,
    username: Seq<char>,
) -> Set<Seq<char>> {
    if entries.contains_key(manifest_key(realm, username)) {
        entries[manifest_key(realm, username)]
    } else {
        Set::empty()
    }
}

/// A record with one user's roles replaced.
pub open spec fn with_record(
    entries: Map<Seq<char>, Set<Seq<char>>>,
    realm: Seq<char>,
    username: Seq<char>,
    roles: Set<Seq<char>>,
) -> Map<Seq<char>, Set<Seq<char>>> {
    entries.insert(manifest_key(realm, username), roles)
}

/// The texts of a list of keys and roles.
pub open spec fn entry_views(entries: Seq<(String, Vec<String>)>) -> Seq<
    (Seq<char>, Set<Seq<char>>),
> {
    entries.map_values(|e: (String, Vec<String>)| (e.0@, views(e.1@).to_set()))
}

/// The record that a list of keys and roles stands for. Of two entries for one key the later
/// one holds.
pub open spec fn manifest_of(entries: Seq<(Seq<char>, Set<Seq<char>>)>) -> Map<
    Seq<char>,
    Set<Seq<char>>,
>
    decreases entries.len(),
{
    if entries.len() == 0 {
        Map::empty()
    } else {
        manifest_of(entries.drop_last()).insert(entries.last().0, entries.last().1)
    }
}

/// What was found where the record is kept.
#[derive(Debug)]
pub enum ManifestFile {
    /// There is no such file.
    Missing,
    /// The file could not be read, for the reason given.
    Unreadable(String),
    /// The file holds no record, for the reason given.
    Malformed(String),
    /// The keys and roles in the file.
    Entries(Vec<(String, Vec<String>)>),
}

impl Default for Manifest {
    /// The record in which nothing was granted.
    fn default() -> (r: Manifest)
        ensures
            r@ == Map::<Seq<char>, Set<Seq<char>>>::empty(),
    {
        Manifest { entries: StringMap::new() }
    }
}

impl Manifest {
    /// The record kept under `path`. A missing file is an empty record; a file that cannot be
    /// read, or that holds something else, is an error.
    pub fn load(path: &str, file: ManifestFile) -> (r: CambiumResult<Manifest>)
        ensures
            match (file, r) {
                (ManifestFile::Missing, Ok(m)) => m@ == Map::<
                    Seq<char>,
                    Set<Seq<char>>,
                >::empty(),
                (ManifestFile::Entries(entries), Ok(m)) => m@ == manifest_of(
                    entry_views(entries@),
                ),
                (ManifestFile::Unreadable(reason), Err(e)) => e@ == (
                CambiumErrorView::ManifestIo { path: path@, source: reason@ }),
                (ManifestFile::Malformed(reason), Err(e)) => e@ == CambiumErrorView::Json(reason@),
                _ => false,
            },
    {
        match file {
            ManifestFile::Missing => Ok(Manifest::default()),
            ManifestFile::Unreadable(source) => Err(
                CambiumError::ManifestIo { path: path.to_owned(), source },
            ),
            ManifestFile::Malformed(reason) => Err(CambiumError::Json(reason)),
            ManifestFile::Entries(entries) => Ok(Manifest::from_entries(&entries)),
        }
    }

    /// The record that a list of keys and roles stands for.
    pub fn from_entries(entries: &Vec<(String, Vec<String>)>) -> (r: Manifest)
        ensures
            r@ == manifest_of(entry_views(entries@)),
    {
        let mut held: StringMap<StringSet> = StringMap::new();
        let mut i: usize = 0;
        while i < entries.len()
            invariant
                i <= entries.len(),
                held@ == manifest_of(entry_views(entries@).take(i as int)),
            decreases entries.len() - i,
        {
            held.insert(entries[i].0.clone(), StringSet::from_vec(&entries[i].1));
            proof {
                let more = entry_views(entries@).take(i + 1);
                assert(more.drop_last() == entry_views(entries@).take(i as int));
                assert(more.last() == entry_views(entries@)[i as int]);
            }
            i = i + 1;
        }
        assert(entry_views(entries@).take(entries.len() as int) == entry_views(entries@));
        Manifest { entries: held }
    }

    /// The keys and roles of the record, to be written down: each key once, and of each key each
    /// role once.
    pub fn to_entries(&self) -> (r: Vec<(String, Vec<String>)>)
        ensures
            manifest_of(entry_views(r@)) == self@,
            forall|i: int, j: int| 0 <= i < j < r@.len() ==> r@[i].0@ != r@[j].0@,
            forall|i: int| 0 <= i < r@.len() ==> views((#[trigger] r@[i]).1@).no_duplicates(),
    {
        let keys = self.entries.keys();
        let mut r: Vec<(String, Vec<String>)> = Vec::new();
        let mut i: usize = 0;
        proof {
            assert(views(keys@).take(0).to_set() =~= Set::empty());
            assert(self@.restrict(Set::empty()) =~= Map::empty());
            assert(entry_views(r@).len() == 0);
        }
        while i < keys.len()
            invariant
                i <= keys.len(),
                views(keys@).to_set() == self@.dom(),
                r.len() == i,
                forall|j: int| 0 <= j < i ==> (#[trigger] r@[j]).0@ == views(keys@)[j],
                forall|j: int| 0 <= j < i ==> views((#[trigger] r@[j]).1@).no_duplicates(),
                manifest_of(entry_views(r@)) == self@.restrict(
                    views(keys@).take(i as int).to_set(),
                ),
            decreases keys.len() - i,
        {
            let ghost before = r@;
            let ghost key = views(keys@)[i as int];
            assert(key == keys@[i as int]@);
            assert(views(keys@).to_set().contains(key));
            match self.entries.get(keys[i].as_str()) {
                Some(roles) => {
                    let pair = (keys[i].clone(), roles.to_vec());
                    r.push(pair);
                    proof {
                        assert(entry_views(r@).drop_last() =~= entry_views(before));
                        assert(entry_views(r@).last() == (key, self@[key]));
                    }
                },
                None => {
                    assert(false);
                },
            }
            proof {
                lemma_take_insert(views(keys@), i as int);
                let seen = views(keys@).take(i as int).to_set();
                assert(self@.restrict(seen.insert(key)) =~= self@.restrict(seen).insert(
                    key,
                    self@[key],
                ));
            }
            i = i + 1;
        }
        proof {
            assert(views(keys@).take(keys.len() as int) =~= views(keys@));
            assert(self@.restrict(self@.dom()) =~= self@);
        }
        r
    }

    /// What Cambium itself granted this user last time; nothing where there is no record.
    pub fn last_synced(&self, realm: &str, username: &str) -> (r: StringSet)
        ensures
            r@ == recorded(self@, realm@, username@),
    {
        let key = join3(realm, "/", username);
        match self.entries.get(key.as_str()) {
            Some(roles) => roles.clone(),
            None => StringSet::new(),
        }
    }

    /// Records what Cambium granted this user.
    pub fn set_synced(&mut self, realm: &str, username: &str, roles: &StringSet)
        ensures
            final(self)@ == with_record(old(self)@, realm@, username@, roles@),
    {
        let key = join3(realm, "/", username);
        self.entries.insert(key, roles.clone());
    }
}

/// What was recorded for a user is what is read back for that user.
pub proof fn recording_then_reading_round_trips(
    entries: Map<Seq<char>, Set<Seq<char>>>,
    realm: Seq<char>,
    username: Seq<char>,
    roles: Set<Seq<char>>,
)
    ensures
        recorded(with_record(entries, realm, username, roles), realm, username) == roles,
{
}

/// Recording one user leaves every other key as it was.
pub proof fn recording_touches_one_key(
    entries: Map<Seq<char>, Set<Seq<char>>>,
    realm: Seq<char>,
    username: Seq<char>,
    roles: Set<Seq<char>>,
    other_realm: Seq<char>,
    other_username: Seq<char>,
)
    requires
        manifest_key(realm, username) != manifest_key(other_realm, other_username),
    ensures
        recorded(with_record(entries, realm, username, roles), other_realm, other_username)
            == recorded(entries, other_realm, other_username),
{
}

/// Two users of one realm, or of two realms whose names hold no slash, have different keys.
pub proof fn keys_tell_users_apart(
    realm: Seq<char>,
    username: Seq<char>,
    other_realm: Seq<char>,
    other_username: Seq<char>,
)
    requires
        realm == other_realm || (!realm.contains('/') && !other_realm.contains('/')),
        realm != other_realm || username != other_username,
    ensures
        manifest_key(realm, username) != manifest_key(other_realm, other_username),
{
    reveal_strlit("/");
    let a = manifest_key(realm, username);
    let b = manifest_key(other_realm, other_username);
    if a == b {
        if realm == other_realm {
            assert(username =~= a.skip(realm.len() as int + 1));
            assert(other_username =~= b.skip(realm.len() as int + 1));
        } else {
            lemma_first_slash(realm, username);
            lemma_first_slash(other_realm, other_username);
            assert(realm =~= a.take(position(a, '/')));
            assert(other_realm =~= b.take(position(b, '/')));
        }
    }
}

/// The first slash of a key stands behind a realm that holds none.
proof fn lemma_first_slash(realm: Seq<char>, username: Seq<char>)
    requires
        !realm.contains('/'),
    ensures
        position(manifest_key(realm, username), '/') == realm.len(),
{
    reveal_strlit("/");
    let key = manifest_key(realm, username);
    lemma_position(key, '/');
    assert(key[realm.len() as int] == '/');
    let p = position(key, '/');
    if p < realm.len() {
        assert(realm[p] == key[p]);
        assert(realm.contains('/'));
    }
}

/// Nothing is on record for anybody in an empty record, nor for a user without an entry.
pub proof fn nothing_is_recorded_at_first(
    entries: Map<Seq<char>, Set<Seq<char>>>,
    realm: Seq<char>,
    username: Seq<char>,
    role: Seq<char>,
)
    ensures
        !recorded(Map::empty(), realm, username).contains(role),
        recorded(entries, realm, username).contains(role) ==> entries.contains_key(
            realm + seq!['/'] + username,
        ) && entries[realm + seq!['/'] + username].contains(role),
        entries.contains_key(realm + seq!['/'] + username) ==> recorded(entries, realm, username)
            == entries[realm + seq!['/'] + username],
{
    reveal_strlit("/");
    assert("/"@ =~= seq!['/']);
}

/// A key is cut apart into the realm and the username, where the realm holds no slash.
pub proof fn keys_hold_realm_and_username(realm: Seq<char>, username: Seq<char>)
    requires
        !realm.contains('/'),
    ensures
        split_once(manifest_key(realm, username), '/') == Some((realm, username)),
{
    reveal_strlit("/");
    assert("/"@ =~= seq!['/']);
    joined_parts_are_cut_apart(realm, '/', username);
}

/// The record that a list stands for has an entry for exactly the keys of the list, with the
/// roles of the last one under that key.
pub proof fn last_entry_of_a_key_holds(entries: Seq<(String, Vec<String>)>, i: int, role: Seq<char>)
    requires
        0 <= i < entries.len(),
        forall|j: int| i < j < entries.len() ==> (#[trigger] entries[j]).0@ != entries[i].0@,
    ensures
        manifest_of(entry_views(entries)).contains_key(entries[i].0@),
        manifest_of(entry_views(entries))[entries[i].0@].contains(role) == exists|j: int|
            0 <= j < entries[i].1@.len() && #[trigger] entries[i].1@[j]@ == role,
    decreases entries.len(),
{
    let rest = entries.drop_last();
    let last = entries.len() - 1;
    assert(entry_views(entries).drop_last() =~= entry_views(rest));
    assert(entry_views(entries).last() == (entries[last].0@, views(entries[last].1@).to_set()));
    if i < last {
        assert forall|j: int| i < j < rest.len() implies (#[trigger] rest[j]).0@ != rest[i].0@ by {
            assert(rest[j] == entries[j]);
        }
        last_entry_of_a_key_holds(rest, i, role);
        assert(entries[last].0@ != entries[i].0@);
    } else {
        let roles = views(entries[i].1@);
        assert(manifest_of(entry_views(entries))[entries[i].0@] == roles.to_set());
        if roles.contains(role) {
            let j = roles.index_of(role);
            assert(entries[i].1@[j]@ == role);
        }
        if exists|j: int| 0 <= j < entries[i].1@.len() && #[trigger] entries[i].1@[j]@ == role {
            let j = choose|j: int|
                0 <= j < entries[i].1@.len() && #[trigger] entries[i].1@[j]@ == role;
            assert(roles[j] == role);
        }
    }
}

/// Where no entry of a list has a key, the record that the list stands for has none either.
pub proof fn other_keys_are_not_recorded(entries: Seq<(String, Vec<String>)>, key: Seq<char>)
    requires
        forall|j: int| 0 <= j < entries.len() ==> (#[trigger] entries[j]).0@ != key,
    ensures
        !manifest_of(entry_views(entries)).contains_key(key),
    decreases entries.len(),
{
    if entries.len() > 0 {
        let rest = entries.drop_last();
        let last = entries.len() - 1;
        assert(entry_views(entries).drop_last() =~= entry_views(rest));
        assert(entry_views(entries).last().0 == entries[last].0@);
        assert forall|j: int| 0 <= j < rest.len() implies (#[trigger] rest[j]).0@ != key by {
            assert(rest[j] == entries[j]);
        }
        other_keys_are_not_recorded(rest, key);
    }
}

/// Only a missing file is read as an empty record: whatever else keeps the record from being read
/// is an error, so that nothing is forgotten by mistake.
pub proof fn only_a_missing_file_is_an_empty_record(
    path: &str,
    file: ManifestFile,
    loaded: CambiumResult<Manifest>,
)
    requires
        call_ensures(Manifest::load, (path, file), loaded),
    ensures
        loaded is Ok == (file is Missing || file is Entries),
        file is Missing ==> forall|key: Seq<char>| !(#[trigger] loaded->Ok_0@.contains_key(key)),
        file matches ManifestFile::Entries(entries) ==> forall|i: int|
            0 <= i < entries@.len() ==> #[trigger] loaded->Ok_0@.contains_key(entries@[i].0@),
        file matches ManifestFile::Unreadable(reason) ==> loaded->Err_0@ == (
        CambiumErrorView::ManifestIo { path: path@, source: reason@ }),
        file matches ManifestFile::Malformed(reason) ==> loaded->Err_0@ == CambiumErrorView::Json(
            reason@,
        ),
{
    match file {
        ManifestFile::Entries(entries) => {
            assert forall|i: int| 0 <= i < entries@.len() implies #[trigger] manifest_of(
                entry_views(entries@),
            ).contains_key(entries@[i].0@) by {
                lemma_every_key_is_recorded(entries@, i);
            }
        },
        _ => {},
    }
}

/// Every key of a list has an entry in the record that the list stands for.
proof fn lemma_every_key_is_recorded(entries: Seq<(String, Vec<String>)>, i: int)
    requires
        0 <= i < entries.len(),
    ensures
        manifest_of(entry_views(entries)).contains_key(entries[i].0@),
    decreases entries.len(),
{
    let rest = entries.drop_last();
    let last = entries.len() - 1;
    assert(entry_views(entries).drop_last() =~= entry_views(rest));
    assert(entry_views(entries).last().0 == entries[last].0@);
    if i < last {
        assert(rest[i] == entries[i]);
        lemma_every_key_is_recorded(rest, i);
    }
}

} // verus!
