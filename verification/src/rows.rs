//! The accounts that are known: the saved profiles and the live login.
use crate::accounts::{
    kept_limit, opt_step, read_profile_limit, ref_limit, require_live_auth, signed_in, stamped,
    AccountError, Refusal, Step, StepTree,
};
use crate::identity::{opt_identity, AuthIdentity, Identity};
use crate::json::{copy_opt, opt_text};
use crate::limit::{opt_limit, AccountLimit, Limit};
use crate::names::{address_only, default_name, default_profile_name_from_email};
use crate::store::{live_identity, matching, matching_profile, AccountStore, StoreTree};
use crate::text::{owned, same_text, texts};
use vstd::prelude::*;

verus! {

/// An account that is known.
#[derive(Debug, PartialEq, Eq)]
pub struct AccountRow {
    pub name: String,
    pub email: Option<String>,
    pub user_id: Option<String>,
    /// It is that of the live login.
    pub active: bool,
    /// There is no profile of it.
    pub unsaved: bool,
    pub limit: Option<AccountLimit>,
}

/// What an account is.
#[verifier::ext_equal]
pub struct RowTree {
    pub name: Seq<char>,
    pub email: Option<Seq<char>>,
    pub user_id: Option<Seq<char>>,
    pub active: bool,
    pub unsaved: bool,
    pub limit: Option<Limit>,
}

impl View for AccountRow {
    type V = RowTree;

    open spec fn view(&self) -> RowTree {
        RowTree {
            name: self.name@,
            email: opt_text(self.email),
            user_id: opt_text(self.user_id),
            active: self.active,
            unsaved: self.unsaved,
            limit: opt_limit(self.limit),
        }
    }
}

/// What some accounts are.
pub open spec fn row_trees(v: Seq<AccountRow>) -> Seq<RowTree> {
    Seq::new(v.len(), |i: int| v[i]@)
}

/// The user of an identity.
pub open spec fn user_in(id: Option<Identity>) -> Option<Seq<char>> {
    match id {
        Some(id) => id.user_id,
        None => None,
    }
}

/// The address of an identity.
pub open spec fn email_in(id: Option<Identity>) -> Option<Seq<char>> {
    match id {
        Some(id) => id.email,
        None => None,
    }
}

/// A text, where there is one; else the other.
pub open spec fn first_text(a: Option<Seq<char>>, b: Option<Seq<char>>) -> Option<Seq<char>> {
    match a {
        Some(s) => Some(s),
        None => b,
    }
}

/// The profile `name` as an account: with the limit of the live login where that has the same
/// user, else with the stored one.
pub open spec fn profile_row(s: StoreTree, name: Seq<char>, live_limit: Option<Limit>) -> RowTree {
    let id = s.identity_at(name);
    let user = user_in(id);
    let active = user is Some && user_in(s.live_identity()) == user;
    RowTree {
        name,
        email: email_in(id),
        user_id: user,
        active,
        unsaved: false,
        limit: if active {
            live_limit
        } else {
            match kept_limit(s, name) {
                Some(l) => Some(
                    Limit {
                        email: first_text(l.email, email_in(id)),
                        profile: first_text(l.profile, Some(name)),
                        ..l
                    },
                ),
                None => None,
            }
        },
    }
}

/// The saved profiles as accounts.
pub open spec fn profile_rows(
    s: StoreTree,
    names: Seq<Seq<char>>,
    live_limit: Option<Limit>,
) -> Seq<RowTree> {
    Seq::new(names.len(), |i: int| profile_row(s, names[i], live_limit))
}

/// One of the profiles has the user `user`.
pub open spec fn is_saved(s: StoreTree, names: Seq<Seq<char>>, user: Option<Seq<char>>) -> bool {
    user is Some && exists|i: int|
        0 <= i < names.len() && user_in(s.identity_at(#[trigger] names[i])) == user
}

/// The live login as an account that no profile has.
pub open spec fn unsaved_row(id: Identity, live_limit: Option<Limit>) -> RowTree {
    RowTree {
        name: match id.email {
            Some(email) => default_name(address_only(email)),
            None => "(current)"@,
        },
        email: id.email,
        user_id: id.user_id,
        active: true,
        unsaved: true,
        limit: live_limit,
    }
}

/// The names of the saved profiles; none where they cannot be read.
pub open spec fn known_names(s: StoreTree) -> Seq<Seq<char>> {
    match s.names {
        Ok(names) => names,
        Err(_) => Seq::empty(),
    }
}

/// The accounts that are known: the live login where no profile has its user, then the saved
/// profiles.
pub open spec fn account_rows(s: StoreTree, live_limit: Option<Limit>) -> Seq<RowTree> {
    let names = known_names(s);
    let saved = profile_rows(s, names, live_limit);
    match s.live_identity() {
        Some(id) => if is_saved(s, names, id.user_id) {
            saved
        } else {
            Seq::empty().push(unsaved_row(id, live_limit)) + saved
        },
        None => saved,
    }
}

fn copy_limit(l: Option<&AccountLimit>) -> (r: Option<AccountLimit>)
    ensures
        opt_limit(r) == ref_limit(l),
{
    match l {
        Some(l) => Some(l.copy()),
        None => None,
    }
}

fn same_opt(a: &Option<String>, b: &Option<String>) -> (r: bool)
    ensures
        r == (opt_text(*a) == opt_text(*b)),
{
    match (a, b) {
        (Some(a), Some(b)) => same_text(a.as_str(), b.as_str()),
        (None, None) => true,
        _ => false,
    }
}

fn row_of_profile(
    store: &AccountStore,
    name: &str,
    live_user: &Option<String>,
    live_limit: Option<&AccountLimit>,
) -> (r: AccountRow)
    requires
        opt_text(*live_user) == user_in(store@.live_identity()),
    ensures
        r@ == profile_row(store@, name@, ref_limit(live_limit)),
{
    let (email, user_id) = match store.identity_at(name) {
        Some(id) => (id.email, id.user_id),
        None => (None, None),
    };
    let active = user_id.is_some() && same_opt(live_user, &user_id);
    let limit = if active {
        copy_limit(live_limit)
    } else {
        match read_profile_limit(store, name) {
            Some(l) => {
                let mut l = l;
                if l.email.is_none() {
                    l.email = copy_opt(&email);
                }
                if l.profile.is_none() {
                    l.profile = Some(owned(name));
                }
                Some(l)
            },
            None => None,
        }
    };
    AccountRow { name: owned(name), email, user_id, active, unsaved: false, limit }
}

/// The accounts that are known: the live login where no profile has its user, then the saved
/// profiles. `live_limit` is the limit of the live account.
pub fn collect_account_rows(
    store: &AccountStore,
    live_limit: Option<&AccountLimit>,
) -> (r: Vec<AccountRow>)
    ensures
        row_trees(r@) == account_rows(store@, ref_limit(live_limit)),
{
    let live = live_identity(store);
    let live_user = match &live {
        Some(id) => copy_opt(&id.user_id),
        None => None,
    };
    let names = match store.profiles() {
        Ok(names) => names,
        Err(_) => Vec::new(),
    };
    let ghost all = texts(names@);
    assert(all =~= known_names(store@));
    let ghost saved = profile_rows(store@, all, ref_limit(live_limit));
    let mut rows: Vec<AccountRow> = Vec::new();
    let mut seen = false;
    for i in 0..names.len()
        invariant
            all == texts(names@),
            opt_text(live_user) == user_in(store@.live_identity()),
            saved == profile_rows(store@, all, ref_limit(live_limit)),
            row_trees(rows@) == saved.take(i as int),
            seen ==> is_saved(store@, all, opt_text(live_user)),
            !seen ==> forall|j: int|
                0 <= j < i && opt_text(live_user) is Some ==> user_in(
                    store@.identity_at(#[trigger] all[j]),
                ) != opt_text(live_user),
    {
        let ghost prev = rows@;
        let row = row_of_profile(store, names[i].as_str(), &live_user, live_limit);
        let ghost t = row@;
        assert(all[i as int] == names@[i as int]@);
        if row.active {
            seen = true;
        }
        rows.push(row);
        assert(row_trees(rows@) =~= row_trees(prev).push(t));
        assert(row_trees(rows@) =~= saved.take(i as int + 1));
    }
    assert(row_trees(rows@) =~= saved);
    if let Some(id) = live {
        if !seen {
            let name = match &id.email {
                Some(email) => default_profile_name_from_email(email.as_str()),
                None => owned("(current)"),
            };
            let row = AccountRow {
                name,
                email: id.email,
                user_id: id.user_id,
                active: true,
                unsaved: true,
                limit: copy_limit(live_limit),
            };
            let ghost t = row@;
            let ghost prev = rows@;
            rows.insert(0, row);
            assert(row_trees(rows@) =~= Seq::empty().push(t) + row_trees(prev));
        }
    }
    rows
}

/// The limit of the live account with whom it belongs to, and the change that stores it: with the
/// profile of the live login.
pub open spec fn enriched(s: StoreTree, l: Limit) -> (Limit, Option<StepTree>) {
    match s.live_identity() {
        Some(id) => {
            let profile = match matching(s, id) {
                Ok(found) => found,
                Err(_) => None,
            };
            let l = stamped(l, id.email, id.user_id, profile);
            (
                l,
                match profile {
                    Some(name) => Some(StepTree::TryWriteLimit(name, l)),
                    None => None,
                },
            )
        },
        None => (l, None),
    }
}

/// The limit of the live account with whom it belongs to, and the change that stores it.
pub fn enrich_limit(store: &AccountStore, limit: AccountLimit) -> (r: (AccountLimit, Option<Step>))
    ensures
        (r.0@, opt_step(r.1)) == enriched(store@, limit@),
{
    let id = match live_identity(store) {
        Some(id) => id,
        None => {
            return (limit, None);
        },
    };
    let profile = match matching_profile(store, &id) {
        Ok(found) => found,
        Err(_) => None,
    };
    let mut limit = limit;
    limit.email = id.email;
    limit.user_id = id.user_id;
    limit.profile = copy_opt(&profile);
    let step = match profile {
        Some(name) => Some(Step::TryWriteLimit(name, limit.copy())),
        None => None,
    };
    (limit, step)
}

/// The signed-in account and its profile.
pub open spec fn whoami(s: StoreTree) -> Result<(Identity, Option<Seq<char>>), Refusal> {
    match signed_in(s) {
        Err(e) => Err(e),
        Ok((_, id)) => match matching(s, id) {
            Err(why) => Err(Refusal::File(why)),
            Ok(profile) => Ok((id, profile)),
        },
    }
}

/// What the signed-in account or the failure to read it is.
pub open spec fn whoami_result(r: Result<(AuthIdentity, Option<String>), AccountError>) -> Result<
    (Identity, Option<Seq<char>>),
    Refusal,
> {
    match r {
        Ok((id, profile)) => Ok((id@, opt_text(profile))),
        Err(e) => Err(e@),
    }
}

/// The signed-in account and its profile.
pub fn account_whoami(store: &AccountStore) -> (r: Result<
    (AuthIdentity, Option<String>),
    AccountError,
>)
    ensures
        whoami_result(r) == whoami(store@),
{
    match require_live_auth(store) {
        Ok((_, id)) => match matching_profile(store, &id) {
            Ok(profile) => Ok((id, profile)),
            Err(e) => Err(AccountError::File(e.why)),
        },
        Err(e) => Err(e),
    }
}

/// A saved profile in the list.
#[derive(Debug, PartialEq, Eq)]
pub struct ListRow {
    pub name: String,
    pub id: Option<AuthIdentity>,
    /// It is that of the live login.
    pub active: bool,
}

/// The saved profiles.
#[derive(Debug, PartialEq, Eq)]
pub struct ProfileList {
    pub current: Option<String>,
    pub live: Option<AuthIdentity>,
    pub rows: Vec<ListRow>,
}

/// What a saved profile in the list is.
#[verifier::ext_equal]
pub struct ListRowTree {
    pub name: Seq<char>,
    pub id: Option<Identity>,
    pub active: bool,
}

impl View for ListRow {
    type V = ListRowTree;

    open spec fn view(&self) -> ListRowTree {
        ListRowTree { name: self.name@, id: opt_identity(self.id), active: self.active }
    }
}

/// What the saved profiles are.
#[verifier::ext_equal]
pub struct ListTree {
    pub current: Option<Seq<char>>,
    pub live: Option<Identity>,
    pub rows: Seq<ListRowTree>,
}

/// What some rows of the list are.
pub open spec fn list_rows(v: Seq<ListRow>) -> Seq<ListRowTree> {
    Seq::new(v.len(), |i: int| v[i]@)
}

impl View for ProfileList {
    type V = ListTree;

    open spec fn view(&self) -> ListTree {
        ListTree {
            current: opt_text(self.current),
            live: opt_identity(self.live),
            rows: list_rows(self.rows@),
        }
    }
}

/// A profile in the list. It is active where somebody is signed in and the profile has the user of
/// the live login; where either has none, where it is the current one.
pub open spec fn list_row(
    s: StoreTree,
    name: Seq<char>,
    current: Option<Seq<char>>,
) -> ListRowTree {
    let id = s.identity_at(name);
    let live_user = user_in(s.live_identity());
    ListRowTree {
        name,
        id,
        active: s.live_identity() is Some && if live_user is Some && user_in(id) is Some {
            live_user == user_in(id)
        } else {
            current == Some(name)
        },
    }
}

/// The saved profiles, in the order of their names.
pub open spec fn profile_list(s: StoreTree) -> Result<ListTree, Refusal> {
    match s.names {
        Err(why) => Err(Refusal::File(why)),
        Ok(names) => match s.current {
            Err(why) => Err(Refusal::File(why)),
            Ok(current) => Ok(
                ListTree {
                    current,
                    live: s.live_identity(),
                    rows: Seq::new(names.len(), |i: int| list_row(s, names[i], current)),
                },
            ),
        },
    }
}

/// What the saved profiles or the failure to read them are.
pub open spec fn list_result(r: Result<ProfileList, AccountError>) -> Result<ListTree, Refusal> {
    match r {
        Ok(l) => Ok(l@),
        Err(e) => Err(e@),
    }
}

/// The saved profiles, in the order of their names.
pub fn account_list(store: &AccountStore) -> (r: Result<ProfileList, AccountError>)
    ensures
        list_result(r) == profile_list(store@),
{
    let names = match store.profiles() {
        Ok(names) => names,
        Err(e) => {
            return Err(AccountError::File(e.why));
        },
    };
    let live = live_identity(store);
    let live_user = match &live {
        Some(id) => copy_opt(&id.user_id),
        None => None,
    };
    let current = match store.read_current_profile() {
        Ok(c) => c,
        Err(e) => {
            return Err(AccountError::File(e.why));
        },
    };
    let ghost all = texts(names@);
    let ghost want = Seq::new(
        all.len(),
        |i: int| list_row(store@, all[i], opt_text(current)),
    );
    let mut rows: Vec<ListRow> = Vec::new();
    for i in 0..names.len()
        invariant
            all == texts(names@),
            opt_identity(live) == store@.live_identity(),
            opt_text(live_user) == user_in(store@.live_identity()),
            want == Seq::new(
                all.len(),
                |i: int| list_row(store@, all[i], opt_text(current)),
            ),
            list_rows(rows@) == want.take(i as int),
    {
        let name = names[i].as_str();
        assert(all[i as int] == name@);
        let id = store.identity_at(name);
        let user = match &id {
            Some(id) => copy_opt(&id.user_id),
            None => None,
        };
        let active = if live.is_none() {
            false
        } else if live_user.is_some() && user.is_some() {
            same_opt(&live_user, &user)
        } else {
            match &current {
                Some(c) => same_text(c.as_str(), name),
                None => false,
            }
        };
        let ghost prev = rows@;
        let row = ListRow { name: owned(name), id, active };
        let ghost t = row@;
        rows.push(row);
        assert(list_rows(rows@) =~= list_rows(prev).push(t));
        assert(list_rows(rows@) =~= want.take(i as int + 1));
    }
    assert(list_rows(rows@) =~= want);
    Ok(ProfileList { current, live, rows })
}

/// Where somebody is signed in, one of the accounts is the active one; where nobody is, none is.
pub proof fn law_signed_in_is_active(s: StoreTree, live_limit: Option<Limit>)
    ensures
        s.live_identity() is Some <==> exists|i: int|
            0 <= i < account_rows(s, live_limit).len() && (#[trigger] account_rows(
                s,
                live_limit,
            )[i]).active,
{
    let names = known_names(s);
    let rows = account_rows(s, live_limit);
    if let Some(id) = s.live_identity() {
        if is_saved(s, names, id.user_id) {
            let i = choose|i: int|
                0 <= i < names.len() && user_in(s.identity_at(#[trigger] names[i])) == id.user_id;
            assert(rows[i] == profile_row(s, names[i], live_limit));
            assert(rows[i].active);
        } else {
            assert(rows[0].active);
        }
    } else {
        assert forall|i: int| 0 <= i < rows.len() implies !(#[trigger] rows[i]).active by {
            assert(rows[i] == profile_row(s, names[i], live_limit));
        }
    }
}

} // verus!
