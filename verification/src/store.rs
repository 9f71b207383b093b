//! The live login and the saved profiles, as they were read.
use crate::identity::{
    identity_from_auth, identity_of, opt_identity, user_from_auth, user_of, AuthIdentity, Identity,
};
use crate::json::{opt_text, Json, JsonTree};
use crate::names::{name_error, validate_profile_name};
use crate::order::{increasing, lemma_insert_text, lemma_ordered, ordered, SortedSet};
use crate::text::{lemma_trimmed_twice, owned, push_line, same_text, texts, trim, trimmed};
use vstd::prelude::*;

verus! {

/// An authentication file.
#[derive(Debug, PartialEq, Eq)]
pub enum AuthFile {
    Missing,
    /// It is there but cannot be read; what is said of that.
    Unreadable(String),
    Present(Json),
}

/// What an authentication file is.
#[verifier::ext_equal]
pub enum AuthTree {
    Missing,
    Unreadable(Seq<char>),
    Present(JsonTree),
}

impl View for AuthFile {
    type V = AuthTree;

    open spec fn view(&self) -> AuthTree {
        match *self {
            AuthFile::Missing => AuthTree::Missing,
            AuthFile::Unreadable(why) => AuthTree::Unreadable(why@),
            AuthFile::Present(v) => AuthTree::Present(v@),
        }
    }
}

/// The file that names the current profile.
#[derive(Debug, PartialEq, Eq)]
pub enum CurrentFile {
    Missing,
    /// It is there but cannot be read; what is said of that.
    Unreadable(String),
    Text(String),
}

/// An entry of the directory of the profiles.
#[derive(Debug, PartialEq, Eq)]
pub struct DirEntry {
    pub name: String,
    pub is_dir: bool,
    /// There is an authentication file in it.
    pub has_auth: bool,
}

/// The directory of the profiles.
#[derive(Debug, PartialEq, Eq)]
pub enum Listing {
    /// It is there but cannot be read; what is said of that.
    Unreadable(String),
    /// Its entries; none where there is no directory.
    Entries(Vec<DirEntry>),
}

/// The files of a profile.
#[derive(Debug, PartialEq, Eq)]
pub struct ProfileFiles {
    pub name: String,
    pub auth: AuthFile,
    /// The limit that was stored last, where it can be read.
    pub limit: Option<Json>,
}

/// The live login and the saved profiles, as they were read.
#[derive(Debug, PartialEq, Eq)]
pub struct AccountStore {
    pub live: AuthFile,
    pub current: CurrentFile,
    pub listing: Listing,
    /// The files of every profile that the directory or the current file names.
    pub files: Vec<ProfileFiles>,
}

/// What the files of a profile are.
#[verifier::ext_equal]
pub struct ProfileTree {
    pub name: Seq<char>,
    pub auth: AuthTree,
    pub limit: Option<JsonTree>,
}

/// What a store is.
#[verifier::ext_equal]
pub struct StoreTree {
    pub live: AuthTree,
    /// The name of the current profile; what is said where it cannot be read.
    pub current: Result<Option<Seq<char>>, Seq<char>>,
    /// The names of the saved profiles in order; what is said where they cannot be read.
    pub names: Result<Seq<Seq<char>>, Seq<char>>,
    pub files: Seq<ProfileTree>,
}

/// The name that the text of the current file gives.
pub open spec fn named(text: Seq<char>) -> Option<Seq<char>> {
    if trimmed(text).len() == 0 {
        None
    } else {
        Some(trimmed(text))
    }
}

/// An entry of the directory that is a saved profile: a directory with a name and an
/// authentication file.
pub open spec fn is_profile(e: DirEntry) -> bool {
    e.is_dir && name_error(e.name@) is None && e.has_auth
}

/// The names of the saved profiles.
pub open spec fn profile_names(entries: Seq<DirEntry>) -> Set<Seq<char>>
    decreases entries.len(),
{
    if entries.len() == 0 {
        Set::empty()
    } else if is_profile(entries.last()) {
        profile_names(entries.drop_last()).insert(entries.last().name@)
    } else {
        profile_names(entries.drop_last())
    }
}

/// What some profile files are.
pub open spec fn file_trees(files: Seq<ProfileFiles>) -> Seq<ProfileTree> {
    Seq::new(
        files.len(),
        |i: int|
            ProfileTree {
                name: files[i].name@,
                auth: files[i].auth@,
                limit: match files[i].limit {
                    Some(v) => Some(v@),
                    None => None,
                },
            },
    )
}

impl View for AccountStore {
    type V = StoreTree;

    open spec fn view(&self) -> StoreTree {
        StoreTree {
            live: self.live@,
            current: match self.current {
                CurrentFile::Missing => Ok(None),
                CurrentFile::Unreadable(why) => Err(why@),
                CurrentFile::Text(s) => Ok(named(s@)),
            },
            names: match self.listing {
                Listing::Unreadable(why) => Err(why@),
                Listing::Entries(entries) => Ok(ordered(profile_names(entries@))),
            },
            files: file_trees(self.files@),
        }
    }
}

/// The files of the profile `name`; none where they are not there.
pub open spec fn files_of(files: Seq<ProfileTree>, name: Seq<char>) -> ProfileTree
    decreases files.len(),
{
    if files.len() == 0 {
        ProfileTree { name, auth: AuthTree::Missing, limit: None }
    } else if files[0].name == name {
        files[0]
    } else {
        files_of(files.skip(1), name)
    }
}

impl StoreTree {
    /// The authentication file of the profile `name`.
    pub open spec fn auth_of(self, name: Seq<char>) -> AuthTree {
        files_of(self.files, name).auth
    }

    /// The stored limit of the profile `name`.
    pub open spec fn limit_of(self, name: Seq<char>) -> Option<JsonTree> {
        files_of(self.files, name).limit
    }

    /// The user of the profile `name`.
    pub open spec fn user_at(self, name: Seq<char>) -> Option<Seq<char>> {
        match self.auth_of(name) {
            AuthTree::Present(t) => user_of(t),
            _ => None,
        }
    }

    /// The identity of the profile `name`.
    pub open spec fn identity_at(self, name: Seq<char>) -> Option<Identity> {
        match self.auth_of(name) {
            AuthTree::Present(t) => identity_of(t),
            _ => None,
        }
    }

    /// The identity of the live login.
    pub open spec fn live_identity(self) -> Option<Identity> {
        match self.live {
            AuthTree::Present(t) => identity_of(t),
            _ => None,
        }
    }
}

proof fn lemma_files_of(files: Seq<ProfileTree>, name: Seq<char>, k: int)
    requires
        0 <= k <= files.len(),
        forall|j: int| 0 <= j < k ==> (#[trigger] files[j]).name != name,
        k < files.len() ==> files[k].name == name,
    ensures
        files_of(files, name) == (if k < files.len() {
            files[k]
        } else {
            ProfileTree { name, auth: AuthTree::Missing, limit: None }
        }),
    decreases k,
{
    if k > 0 {
        assert(files[0].name != name);
        assert forall|j: int| 0 <= j < k - 1 implies (#[trigger] files.skip(1)[j]).name
            != name by {
            assert(files[j + 1].name != name);
        }
        lemma_files_of(files.skip(1), name, k - 1);
    }
}

/// The names of the saved profiles among the entries of a directory, in order.
pub fn list_profile_names(entries: &Vec<DirEntry>) -> (r: Vec<String>)
    ensures
        texts(r@) == ordered(profile_names(entries@)),
{
    let mut names: SortedSet<String> = SortedSet::new();
    assert(names.keys().to_set() =~= profile_names(entries@.take(0)));
    for i in 0..entries.len()
        invariant
            names.wf(),
            names.keys().to_set() == profile_names(entries@.take(i as int)),
    {
        assert(entries@.take(i as int + 1).drop_last() =~= entries@.take(i as int));
        let e = &entries[i];
        if e.is_dir && validate_profile_name(e.name.as_str()).is_ok() && e.has_auth {
            names.insert(owned(e.name.as_str()));
        }
    }
    assert(entries@.take(entries@.len() as int) =~= entries@);
    proof {
        lemma_ordered(names.keys(), profile_names(entries@));
        assert(texts(names.items@) =~= names.keys());
    }
    names.items
}

proof fn lemma_names_in_order(entries: Seq<DirEntry>) -> (r: Seq<Seq<char>>)
    ensures
        increasing::<String>(r),
        r.to_set() == profile_names(entries),
        forall|i: int| 0 <= i < r.len() ==> name_error(#[trigger] r[i]) is None,
    decreases entries.len(),
{
    if entries.len() == 0 {
        let r = Seq::<Seq<char>>::empty();
        assert(r.to_set() =~= profile_names(entries));
        r
    } else {
        let a = lemma_names_in_order(entries.drop_last());
        if is_profile(entries.last()) {
            let x = entries.last().name@;
            let r = lemma_insert_text(a, x);
            assert forall|i: int| 0 <= i < r.len() implies name_error(#[trigger] r[i]) is None by {
                assert(r.to_set().contains(r[i]));
                if r[i] != x {
                    assert(a.to_set().contains(r[i]));
                    let k = choose|k: int| 0 <= k < a.len() && a[k] == r[i];
                    assert(name_error(a[k]) is None);
                }
            }
            r
        } else {
            a
        }
    }
}

/// The saved profiles have names, and the current one has a text without white space at its ends.
pub proof fn lemma_store_names(store: AccountStore)
    ensures
        store@.names matches Ok(names) ==> forall|i: int|
            0 <= i < names.len() ==> name_error(#[trigger] names[i]) is None,
        store@.current matches Ok(Some(c)) ==> c.len() > 0 && trimmed(c) == c,
{
    if let Listing::Entries(entries) = store.listing {
        let r = lemma_names_in_order(entries@);
        lemma_ordered(r, profile_names(entries@));
    }
    if let CurrentFile::Text(s) = store.current {
        lemma_trimmed_twice(s@);
    }
}

/// A file cannot be read; what is said of that.
#[derive(Debug, PartialEq, Eq)]
pub struct FileError {
    pub why: String,
}

/// What a name or the failure to read it is.
pub open spec fn name_result(r: Result<Option<String>, FileError>) -> Result<
    Option<Seq<char>>,
    Seq<char>,
> {
    match r {
        Ok(n) => Ok(opt_text(n)),
        Err(e) => Err(e.why@),
    }
}

/// What names or the failure to read them are.
pub open spec fn names_result(r: Result<Vec<String>, FileError>) -> Result<
    Seq<Seq<char>>,
    Seq<char>,
> {
    match r {
        Ok(v) => Ok(texts(v@)),
        Err(e) => Err(e.why@),
    }
}

impl AccountStore {
    /// The name of the current profile.
    pub fn read_current_profile(&self) -> (r: Result<Option<String>, FileError>)
        ensures
            name_result(r) == self@.current,
    {
        match &self.current {
            CurrentFile::Missing => Ok(None),
            CurrentFile::Unreadable(why) => Err(FileError { why: owned(why.as_str()) }),
            CurrentFile::Text(s) => {
                let name = trim(s.as_str());
                if name.as_str().is_empty() {
                    Ok(None)
                } else {
                    Ok(Some(name))
                }
            },
        }
    }

    /// The names of the saved profiles in order.
    pub fn profiles(&self) -> (r: Result<Vec<String>, FileError>)
        ensures
            names_result(r) == self@.names,
    {
        match &self.listing {
            Listing::Unreadable(why) => Err(FileError { why: owned(why.as_str()) }),
            Listing::Entries(entries) => Ok(list_profile_names(entries)),
        }
    }

    /// The files of the profile `name`.
    fn find(&self, name: &str) -> (r: Option<&ProfileFiles>)
        ensures
            r is None ==> files_of(self@.files, name@).auth is Missing && files_of(
                self@.files,
                name@,
            ).limit is None,
            r matches Some(f) ==> {
                &&& files_of(self@.files, name@).auth == f.auth@
                &&& files_of(self@.files, name@).limit == (match f.limit {
                    Some(v) => Some(v@),
                    None => None,
                })
            },
    {
        let ghost all = file_trees(self.files@);
        for i in 0..self.files.len()
            invariant
                all == file_trees(self.files@),
                forall|j: int| 0 <= j < i ==> (#[trigger] all[j]).name != name@,
        {
            assert(all[i as int].name == self.files@[i as int].name@);
            if same_text(self.files[i].name.as_str(), name) {
                proof {
                    lemma_files_of(all, name@, i as int);
                }
                return Some(&self.files[i]);
            }
        }
        proof {
            lemma_files_of(all, name@, all.len() as int);
        }
        None
    }

    /// The authentication file of the profile `name`.
    pub fn auth_of(&self, name: &str) -> (r: &AuthFile)
        ensures
            r@ == self@.auth_of(name@),
    {
        match self.find(name) {
            Some(f) => &f.auth,
            None => &AuthFile::Missing,
        }
    }

    /// The stored limit of the profile `name`.
    pub fn limit_of(&self, name: &str) -> (r: Option<&Json>)
        ensures
            r is Some <==> self@.limit_of(name@) is Some,
            r matches Some(v) ==> self@.limit_of(name@) == Some(v@),
    {
        match self.find(name) {
            Some(f) => match &f.limit {
                Some(v) => Some(v),
                None => None,
            },
            None => None,
        }
    }

    /// The user of the profile `name`.
    pub fn user_at(&self, name: &str) -> (r: Option<String>)
        ensures
            opt_text(r) == self@.user_at(name@),
    {
        match self.auth_of(name) {
            AuthFile::Present(v) => user_from_auth(v),
            _ => None,
        }
    }

    /// The identity of the profile `name`.
    pub fn identity_at(&self, name: &str) -> (r: Option<AuthIdentity>)
        ensures
            opt_identity(r) == self@.identity_at(name@),
    {
        match self.auth_of(name) {
            AuthFile::Present(v) => identity_from_auth(v),
            _ => None,
        }
    }
}

/// The identity of the live login, where there is one.
pub fn live_identity(store: &AccountStore) -> (r: Option<AuthIdentity>)
    ensures
        opt_identity(r) == store@.live_identity(),
{
    match &store.live {
        AuthFile::Present(v) => identity_from_auth(v),
        _ => None,
    }
}

/// `base` with those of `names` behind it that are not there yet.
pub open spec fn with_names(base: Seq<Seq<char>>, names: Seq<Seq<char>>) -> Seq<Seq<char>>
    decreases names.len(),
{
    if names.len() == 0 {
        base
    } else {
        let a = with_names(base, names.drop_last());
        if a.contains(names.last()) {
            a
        } else {
            a.push(names.last())
        }
    }
}

/// The profiles that the live login may belong to: the current one, then the others.
pub open spec fn candidates(current: Option<Seq<char>>, names: Seq<Seq<char>>) -> Seq<Seq<char>> {
    match current {
        Some(c) => with_names(Seq::empty().push(c), names),
        None => with_names(Seq::empty(), names),
    }
}

/// The first of the profiles `among` with the user `user`; what is said of a file in front of it
/// that cannot be read.
pub open spec fn first_with_user(
    s: StoreTree,
    user: Option<Seq<char>>,
    among: Seq<Seq<char>>,
) -> Result<Option<Seq<char>>, Seq<char>>
    decreases among.len(),
{
    if among.len() == 0 {
        Ok(None)
    } else {
        match s.auth_of(among[0]) {
            AuthTree::Missing => first_with_user(s, user, among.skip(1)),
            AuthTree::Unreadable(why) => Err(why),
            AuthTree::Present(t) => if user is Some && user_of(t) == user {
                Ok(Some(among[0]))
            } else {
                first_with_user(s, user, among.skip(1))
            },
        }
    }
}

/// The profile that the live login is written back to: one with the same user.
pub open spec fn persisted(s: StoreTree) -> Result<Option<Seq<char>>, Seq<char>> {
    match s.live {
        AuthTree::Missing => Ok(None),
        AuthTree::Unreadable(why) => Err(why),
        AuthTree::Present(live) => match s.current {
            Err(why) => Err(why),
            Ok(current) => match s.names {
                Err(why) => Err(why),
                Ok(names) => first_with_user(s, user_of(live), candidates(current, names)),
            },
        },
    }
}

fn has_text(v: &Vec<String>, s: &str) -> (r: bool)
    ensures
        r == texts(v@).contains(s@),
{
    for i in 0..v.len()
        invariant
            forall|j: int| 0 <= j < i ==> #[trigger] texts(v@)[j] != s@,
    {
        assert(texts(v@)[i as int] == v@[i as int]@);
        if same_text(v[i].as_str(), s) {
            return true;
        }
    }
    false
}

fn candidate_names(current: &Option<String>, names: &Vec<String>) -> (r: Vec<String>)
    ensures
        texts(r@) == candidates(opt_text(*current), texts(names@)),
{
    let ghost all = texts(names@);
    let mut out: Vec<String> = Vec::new();
    assert(texts(out@) =~= Seq::<Seq<char>>::empty());
    if let Some(c) = current {
        push_line(&mut out, owned(c.as_str()));
    }
    let ghost base = texts(out@);
    for i in 0..names.len()
        invariant
            all == texts(names@),
            texts(out@) == with_names(base, all.take(i as int)),
    {
        assert(all.take(i as int + 1).drop_last() =~= all.take(i as int));
        if !has_text(&out, names[i].as_str()) {
            push_line(&mut out, owned(names[i].as_str()));
        }
    }
    assert(all.take(names@.len() as int) =~= all);
    out
}

/// Whether there are two users and they are the same.
fn same_user(a: &Option<String>, b: &Option<String>) -> (r: bool)
    ensures
        r == (opt_text(*a) is Some && opt_text(*b) == opt_text(*a)),
{
    match (a, b) {
        (Some(a), Some(b)) => same_text(a.as_str(), b.as_str()),
        _ => false,
    }
}

/// The profile that the live login is written back to, so that a refreshed login is not lost: the
/// current one or else the first with the same user.
pub fn persist_live_auth(store: &AccountStore) -> (r: Result<Option<String>, FileError>)
    ensures
        name_result(r) == persisted(store@),
{
    let live = match &store.live {
        AuthFile::Missing => {
            return Ok(None);
        },
        AuthFile::Unreadable(why) => {
            return Err(FileError { why: owned(why.as_str()) });
        },
        AuthFile::Present(live) => live,
    };
    let user = user_from_auth(live);
    let current = match store.read_current_profile() {
        Ok(c) => c,
        Err(e) => {
            return Err(e);
        },
    };
    let names = match store.profiles() {
        Ok(names) => names,
        Err(e) => {
            return Err(e);
        },
    };
    let among = candidate_names(&current, &names);
    let ghost all = texts(among@);
    assert(all.skip(0) =~= all);
    for i in 0..among.len()
        invariant
            all == texts(among@),
            persisted(store@) == first_with_user(store@, opt_text(user), all.skip(i as int)),
    {
        assert(all.skip(i as int).skip(1) =~= all.skip(i as int + 1));
        assert(all.skip(i as int)[0] == among@[i as int]@);
        match store.auth_of(among[i].as_str()) {
            AuthFile::Missing => {},
            AuthFile::Unreadable(why) => {
                return Err(FileError { why: owned(why.as_str()) });
            },
            AuthFile::Present(v) => {
                if same_user(&user, &user_from_auth(v)) {
                    return Ok(Some(owned(among[i].as_str())));
                }
            },
        }
    }
    Ok(None)
}

/// The first of the profiles `among` whose user is `user`.
pub open spec fn first_of_user(
    s: StoreTree,
    user: Seq<char>,
    among: Seq<Seq<char>>,
) -> Option<Seq<char>>
    decreases among.len(),
{
    if among.len() == 0 {
        None
    } else if s.user_at(among[0]) == Some(user) {
        Some(among[0])
    } else {
        first_of_user(s, user, among.skip(1))
    }
}

/// The profile that an identity belongs to: the current one or else the first with the same user;
/// the current one where the identity names no user.
pub open spec fn matching(s: StoreTree, id: Identity) -> Result<Option<Seq<char>>, Seq<char>> {
    match id.user_id {
        None => s.current,
        Some(user) => match s.current {
            Err(why) => Err(why),
            Ok(current) => if current is Some && s.user_at(current->0) == Some(user) {
                Ok(current)
            } else {
                match s.names {
                    Err(why) => Err(why),
                    Ok(names) => Ok(first_of_user(s, user, names)),
                }
            },
        },
    }
}

/// The profile that an identity belongs to.
pub fn matching_profile(store: &AccountStore, id: &AuthIdentity) -> (r: Result<
    Option<String>,
    FileError,
>)
    ensures
        name_result(r) == matching(store@, id@),
{
    let user = match &id.user_id {
        None => {
            return store.read_current_profile();
        },
        Some(user) => user,
    };
    let current = match store.read_current_profile() {
        Ok(c) => c,
        Err(e) => {
            return Err(e);
        },
    };
    if let Some(c) = &current {
        if is_user(&store.user_at(c.as_str()), user.as_str()) {
            return Ok(current);
        }
    }
    let names = match store.profiles() {
        Ok(names) => names,
        Err(e) => {
            return Err(e);
        },
    };
    let ghost all = texts(names@);
    assert(all.skip(0) =~= all);
    for i in 0..names.len()
        invariant
            all == texts(names@),
            id@.user_id == Some(user@),
            matching(store@, id@) == Ok::<Option<Seq<char>>, Seq<char>>(
                first_of_user(store@, user@, all.skip(i as int)),
            ),
    {
        assert(all.skip(i as int).skip(1) =~= all.skip(i as int + 1));
        assert(all.skip(i as int)[0] == names@[i as int]@);
        if is_user(&store.user_at(names[i].as_str()), user.as_str()) {
            return Ok(Some(owned(names[i].as_str())));
        }
    }
    Ok(None)
}

fn is_user(found: &Option<String>, user: &str) -> (r: bool)
    ensures
        r == (opt_text(*found) == Some(user@)),
{
    match found {
        Some(s) => same_text(s.as_str(), user),
        None => false,
    }
}

/// A login is written back only to a profile of the same user.
pub proof fn law_persisted_same_user(s: StoreTree)
    ensures
        persisted(s) matches Ok(Some(name)) ==> {
            &&& s.live is Present
            &&& user_of(s.live->Present_0) is Some
            &&& s.user_at(name) == user_of(s.live->Present_0)
        },
{
    if s.live is Present && s.current is Ok && s.names is Ok {
        lemma_first_with_user(
            s,
            user_of(s.live->Present_0),
            candidates(s.current->Ok_0, s.names->Ok_0),
        );
    }
}

proof fn lemma_first_with_user(s: StoreTree, user: Option<Seq<char>>, among: Seq<Seq<char>>)
    ensures
        first_with_user(s, user, among) matches Ok(Some(name)) ==> user is Some && s.user_at(name)
            == user,
    decreases among.len(),
{
    if among.len() > 0 {
        lemma_first_with_user(s, user, among.skip(1));
    }
}

/// An identity with a user belongs only to a profile of that user.
pub proof fn law_matching_same_user(s: StoreTree, id: Identity)
    requires
        id.user_id is Some,
    ensures
        matching(s, id) matches Ok(Some(name)) ==> s.user_at(name) == id.user_id,
{
    if s.names is Ok {
        lemma_first_of_user(s, id.user_id->0, s.names->Ok_0);
    }
}

proof fn lemma_first_of_user(s: StoreTree, user: Seq<char>, among: Seq<Seq<char>>)
    ensures
        first_of_user(s, user, among) matches Some(name) ==> s.user_at(name) == Some(user),
    decreases among.len(),
{
    if among.len() > 0 {
        lemma_first_of_user(s, user, among.skip(1));
    }
}

} // verus!
