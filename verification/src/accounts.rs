//! What the account commands do to the live login and the saved profiles.
use crate::identity::{identity_from_auth, identity_of, AuthIdentity, Identity};
use crate::json::{
    copy_opt, count_json, json_opt_str, no_entries, object, opt_json, opt_str, opt_text, opt_tree,
    put, ref_text, start_entries, text_json, text_or, Json, JsonTree, NumTree,
};
use crate::limit::{
    account_limit_from_stored, opt_gauge, opt_limit, public_limit, stored_limit, AccountLimit,
    Gauge, GaugeTree, Limit,
};
use crate::names::{
    default_name, default_profile_name, name_error, name_message, validate_profile_name, NameError,
};
use crate::store::{
    live_identity, matching, matching_profile, persist_live_auth, persisted, AccountStore, AuthFile,
    AuthTree, StoreTree,
};
use crate::text::{concat2, concat3, concat4, concat5, join, joined, owned, same_text, texts};
use vstd::prelude::*;

verus! {

/// A command that puts a login under a name.
#[derive(Debug, Clone, Copy, PartialEq, Eq)]
pub enum Task {
    Save,
    Import,
}

/// Why an account command fails.
#[derive(Debug, PartialEq, Eq)]
pub enum AccountError {
    /// A file cannot be read; what is said of that.
    File(String),
    NotSignedIn,
    NoLiveIdentity,
    /// A text that is no name.
    BadName(NameError, String),
    /// There is no profile to switch to; the saved ones.
    NoProfile(String, Vec<String>),
    NothingToRemove(String),
    NothingToExport(String),
    NoIdentity(String),
    /// The name of a profile, and whom the profile belongs to.
    Taken(String, String, Task),
    ToStdout,
    BundleWithoutAuth,
    BundleWithoutIdentity,
    NotABundle,
}

/// What a failure is.
#[verifier::ext_equal]
pub enum Refusal {
    File(Seq<char>),
    NotSignedIn,
    NoLiveIdentity,
    BadName(NameError, Seq<char>),
    NoProfile(Seq<char>, Seq<Seq<char>>),
    NothingToRemove(Seq<char>),
    NothingToExport(Seq<char>),
    NoIdentity(Seq<char>),
    Taken(Seq<char>, Seq<char>, Task),
    ToStdout,
    BundleWithoutAuth,
    BundleWithoutIdentity,
    NotABundle,
}

impl View for AccountError {
    type V = Refusal;

    open spec fn view(&self) -> Refusal {
        match *self {
            AccountError::File(why) => Refusal::File(why@),
            AccountError::NotSignedIn => Refusal::NotSignedIn,
            AccountError::NoLiveIdentity => Refusal::NoLiveIdentity,
            AccountError::BadName(e, name) => Refusal::BadName(e, name@),
            AccountError::NoProfile(name, saved) => Refusal::NoProfile(name@, texts(saved@)),
            AccountError::NothingToRemove(name) => Refusal::NothingToRemove(name@),
            AccountError::NothingToExport(name) => Refusal::NothingToExport(name@),
            AccountError::NoIdentity(name) => Refusal::NoIdentity(name@),
            AccountError::Taken(name, owner, task) => Refusal::Taken(name@, owner@, task),
            AccountError::ToStdout => Refusal::ToStdout,
            AccountError::BundleWithoutAuth => Refusal::BundleWithoutAuth,
            AccountError::BundleWithoutIdentity => Refusal::BundleWithoutIdentity,
            AccountError::NotABundle => Refusal::NotABundle,
        }
    }
}

/// What is said of a failure; `auth_path` is where the live login lies.
pub open spec fn refusal_text(e: Refusal, auth_path: Seq<char>) -> Seq<char> {
    match e {
        Refusal::File(why) => why,
        Refusal::NotSignedIn => "not signed in (no "@ + auth_path + ")\nRun: grok login"@,
        Refusal::NoLiveIdentity => "could not read account identity from "@ + auth_path,
        Refusal::BadName(e, name) => name_message(e, name),
        Refusal::NoProfile(name, saved) => "no profile '"@ + name + "'\nSaved: "@ + joined(
            saved,
            ", "@,
        ) + "\nList:  grok-tokens account list"@,
        Refusal::NothingToRemove(name) => "no profile '"@ + name + "'"@,
        Refusal::NothingToExport(name) => "no profile '"@ + name
            + "' — save it first: grok-tokens account save "@ + name,
        Refusal::NoIdentity(name) => "profile '"@ + name + "' has no account identity"@,
        Refusal::Taken(name, owner, task) => "profile '"@ + name + "' already belongs to "@ + owner
            + (match task {
            Task::Save => "\nPick another name or: grok-tokens account remove "@,
            Task::Import => "\nPick --name or: grok-tokens account remove "@,
        }) + name,
        Refusal::ToStdout => "refusing to write credentials to stdout; pass --out FILE"@,
        Refusal::BundleWithoutAuth => "export file is missing auth"@,
        Refusal::BundleWithoutIdentity => "export file auth has no account identity"@,
        Refusal::NotABundle => "file is not a grok-tokens export or Grok auth.json"@,
    }
}

impl AccountError {
    /// What is said of the failure; `auth_path` is where the live login lies.
    pub fn message(&self, auth_path: &str) -> (r: String)
        ensures
            r@ == refusal_text(self@, auth_path@),
    {
        match self {
            AccountError::File(why) => owned(why.as_str()),
            AccountError::NotSignedIn => concat3(
                "not signed in (no ",
                auth_path,
                ")\nRun: grok login",
            ),
            AccountError::NoLiveIdentity => concat2(
                "could not read account identity from ",
                auth_path,
            ),
            AccountError::BadName(e, name) => e.message(name.as_str()),
            AccountError::NoProfile(name, saved) => concat5(
                "no profile '",
                name.as_str(),
                "'\nSaved: ",
                join(saved, ", ").as_str(),
                "\nList:  grok-tokens account list",
            ),
            AccountError::NothingToRemove(name) => concat3("no profile '", name.as_str(), "'"),
            AccountError::NothingToExport(name) => concat4(
                "no profile '",
                name.as_str(),
                "' — save it first: grok-tokens account save ",
                name.as_str(),
            ),
            AccountError::NoIdentity(name) => concat3(
                "profile '",
                name.as_str(),
                "' has no account identity",
            ),
            AccountError::Taken(name, owner, task) => {
                let front = concat4(
                    "profile '",
                    name.as_str(),
                    "' already belongs to ",
                    owner.as_str(),
                );
                let advice = match task {
                    Task::Save => "\nPick another name or: grok-tokens account remove ",
                    Task::Import => "\nPick --name or: grok-tokens account remove ",
                };
                concat3(front.as_str(), advice, name.as_str())
            },
            AccountError::ToStdout => owned(
                "refusing to write credentials to stdout; pass --out FILE",
            ),
            AccountError::BundleWithoutAuth => owned("export file is missing auth"),
            AccountError::BundleWithoutIdentity => owned(
                "export file auth has no account identity",
            ),
            AccountError::NotABundle => owned("file is not a grok-tokens export or Grok auth.json"),
        }
    }
}

/// One change of the files.
#[derive(Debug, PartialEq, Eq)]
pub enum Step {
    /// Replaces the live login.
    WriteAuth(Json),
    /// Replaces the login of a profile.
    WriteProfile(String, Json),
    /// Replaces the login of a profile, where that can be done.
    TryWriteProfile(String, Json),
    /// Replaces the stored limit of a profile, where that can be done.
    TryWriteLimit(String, AccountLimit),
    WriteCurrent(String),
    ClearCurrent,
    RemoveProfile(String),
}

/// What a change is.
#[verifier::ext_equal]
pub enum StepTree {
    WriteAuth(JsonTree),
    WriteProfile(Seq<char>, JsonTree),
    TryWriteProfile(Seq<char>, JsonTree),
    TryWriteLimit(Seq<char>, Limit),
    WriteCurrent(Seq<char>),
    ClearCurrent,
    RemoveProfile(Seq<char>),
}

impl View for Step {
    type V = StepTree;

    open spec fn view(&self) -> StepTree {
        match *self {
            Step::WriteAuth(v) => StepTree::WriteAuth(v@),
            Step::WriteProfile(name, v) => StepTree::WriteProfile(name@, v@),
            Step::TryWriteProfile(name, v) => StepTree::TryWriteProfile(name@, v@),
            Step::TryWriteLimit(name, l) => StepTree::TryWriteLimit(name@, l@),
            Step::WriteCurrent(name) => StepTree::WriteCurrent(name@),
            Step::ClearCurrent => StepTree::ClearCurrent,
            Step::RemoveProfile(name) => StepTree::RemoveProfile(name@),
        }
    }
}

/// What some changes are.
pub open spec fn step_trees(v: Seq<Step>) -> Seq<StepTree> {
    Seq::new(v.len(), |i: int| v[i]@)
}

/// No changes.
pub open spec fn no_steps() -> Seq<StepTree> {
    Seq::empty()
}

fn start_steps() -> (r: Vec<Step>)
    ensures
        step_trees(r@) == no_steps(),
{
    let r: Vec<Step> = Vec::new();
    assert(step_trees(r@) =~= no_steps());
    r
}

fn push_step(steps: &mut Vec<Step>, step: Step)
    ensures
        step_trees(final(steps)@) == step_trees(old(steps)@).push(step@),
{
    let ghost before = steps@;
    let ghost t = step@;
    steps.push(step);
    assert(step_trees(steps@) =~= step_trees(before).push(t));
}

/// What a command has to do: for whom, under which name, and the changes in their order.
#[derive(Debug, PartialEq, Eq)]
pub struct Change {
    pub name: String,
    pub id: AuthIdentity,
    /// The profile that the live login is written back to.
    pub persisted: Option<String>,
    pub steps: Vec<Step>,
}

/// What a change is.
#[verifier::ext_equal]
pub struct ChangeTree {
    pub name: Seq<char>,
    pub id: Identity,
    pub persisted: Option<Seq<char>>,
    pub steps: Seq<StepTree>,
}

impl View for Change {
    type V = ChangeTree;

    open spec fn view(&self) -> ChangeTree {
        ChangeTree {
            name: self.name@,
            id: self.id@,
            persisted: opt_text(self.persisted),
            steps: step_trees(self.steps@),
        }
    }
}

/// What a change or the failure of a command is.
pub open spec fn change_result(r: Result<Change, AccountError>) -> Result<ChangeTree, Refusal> {
    match r {
        Ok(c) => Ok(c@),
        Err(e) => Err(e@),
    }
}

/// The live login and its identity, or why there is none.
pub open spec fn signed_in(s: StoreTree) -> Result<(JsonTree, Identity), Refusal> {
    match s.live {
        AuthTree::Missing => Err(Refusal::NotSignedIn),
        AuthTree::Unreadable(why) => Err(Refusal::File(why)),
        AuthTree::Present(t) => match identity_of(t) {
            Some(id) => Ok((t, id)),
            None => Err(Refusal::NoLiveIdentity),
        },
    }
}

/// What the live login or the failure to read it is.
pub open spec fn login_result(r: Result<(&Json, AuthIdentity), AccountError>) -> Result<
    (JsonTree, Identity),
    Refusal,
> {
    match r {
        Ok((v, id)) => Ok((v@, id@)),
        Err(e) => Err(e@),
    }
}

/// The live login and its identity.
pub fn require_live_auth(store: &AccountStore) -> (r: Result<(&Json, AuthIdentity), AccountError>)
    ensures
        login_result(r) == signed_in(store@),
{
    match &store.live {
        AuthFile::Missing => Err(AccountError::NotSignedIn),
        AuthFile::Unreadable(why) => Err(AccountError::File(owned(why.as_str()))),
        AuthFile::Present(v) => match identity_from_auth(v) {
            Some(id) => Ok((v, id)),
            None => Err(AccountError::NoLiveIdentity),
        },
    }
}

/// The name `name`, where it is one.
pub open spec fn checked(name: Seq<char>) -> Result<Seq<char>, Refusal> {
    match name_error(name) {
        Some(e) => Err(Refusal::BadName(e, name)),
        None => Ok(name),
    }
}

fn check_name(name: &str) -> (r: Result<(), AccountError>)
    ensures
        r is Ok <==> checked(name@) is Ok,
        r matches Err(e) ==> checked(name@) == Err::<Seq<char>, Refusal>(e@),
{
    match validate_profile_name(name) {
        Ok(_) => Ok(()),
        Err(e) => Err(AccountError::BadName(e, owned(name))),
    }
}

/// Whom the profile `name` belongs to, where that is another user than that of `id`.
pub open spec fn other_owner(s: StoreTree, name: Seq<char>, id: Identity) -> Option<Seq<char>> {
    match s.identity_at(name) {
        Some(stored) => match (id.user_id, stored.user_id) {
            (Some(a), Some(b)) => if a != b {
                Some(text_or(stored.email, b))
            } else {
                None
            },
            _ => None,
        },
        None => None,
    }
}

fn find_other_owner(store: &AccountStore, name: &str, id: &AuthIdentity) -> (r: Option<String>)
    ensures
        opt_text(r) == other_owner(store@, name@, id@),
{
    match store.identity_at(name) {
        Some(stored) => match (&id.user_id, stored.user_id) {
            (Some(a), Some(b)) => if !same_text(a.as_str(), b.as_str()) {
                match stored.email {
                    Some(email) => Some(email),
                    None => Some(b),
                }
            } else {
                None
            },
            _ => None,
        },
        None => None,
    }
}

/// A limit with whom it belongs to.
pub open spec fn stamped(
    l: Limit,
    email: Option<Seq<char>>,
    user_id: Option<Seq<char>>,
    profile: Option<Seq<char>>,
) -> Limit {
    Limit { email, user_id, profile, ..l }
}

fn stamp_limit(
    limit: &AccountLimit,
    email: &Option<String>,
    user_id: &Option<String>,
    profile: Option<String>,
) -> (r: AccountLimit)
    ensures
        r@ == stamped(limit@, opt_text(*email), opt_text(*user_id), opt_text(profile)),
{
    let mut l = limit.copy();
    l.email = copy_opt(email);
    l.user_id = copy_opt(user_id);
    l.profile = profile;
    l
}

/// What an optional reference to a limit holds.
pub open spec fn ref_limit(l: Option<&AccountLimit>) -> Option<Limit> {
    match l {
        Some(l) => Some(l@),
        None => None,
    }
}

/// What saving the live login does, under the name `given` or else by default: the profile becomes
/// the login, is made the current one, and gets the limit.
pub open spec fn save(
    s: StoreTree,
    given: Option<Seq<char>>,
    limit: Option<Limit>,
) -> Result<ChangeTree, Refusal> {
    match signed_in(s) {
        Err(e) => Err(e),
        Ok((login, id)) => match checked(text_or(given, default_name(id))) {
            Err(e) => Err(e),
            Ok(name) => match other_owner(s, name, id) {
                Some(owner) => Err(Refusal::Taken(name, owner, Task::Save)),
                None => {
                    let steps = no_steps().push(StepTree::WriteProfile(name, login)).push(
                        StepTree::WriteCurrent(name),
                    );
                    Ok(
                        ChangeTree {
                            name,
                            id,
                            persisted: None,
                            steps: match limit {
                                Some(l) => steps.push(
                                    StepTree::TryWriteLimit(
                                        name,
                                        stamped(l, id.email, id.user_id, Some(name)),
                                    ),
                                ),
                                None => steps,
                            },
                        },
                    )
                },
            },
        },
    }
}

/// What saving the live login does; `limit` is the limit of the account.
pub fn account_save(
    store: &AccountStore,
    given: Option<&str>,
    limit: Option<&AccountLimit>,
) -> (r: Result<Change, AccountError>)
    ensures
        change_result(r) == save(store@, ref_text(given), ref_limit(limit)),
{
    let (login, id) = match require_live_auth(store) {
        Ok(p) => p,
        Err(e) => {
            return Err(e);
        },
    };
    let name = match given {
        Some(n) => owned(n),
        None => default_profile_name(&id),
    };
    if let Err(e) = check_name(name.as_str()) {
        return Err(e);
    }
    if let Some(owner) = find_other_owner(store, name.as_str(), &id) {
        return Err(AccountError::Taken(name, owner, Task::Save));
    }
    let mut steps = start_steps();
    push_step(&mut steps, Step::WriteProfile(owned(name.as_str()), login.copy()));
    push_step(&mut steps, Step::WriteCurrent(owned(name.as_str())));
    if let Some(l) = limit {
        let l = stamp_limit(l, &id.email, &id.user_id, Some(owned(name.as_str())));
        push_step(&mut steps, Step::TryWriteLimit(owned(name.as_str()), l));
    }
    Ok(Change { name, id, persisted: None, steps })
}

/// The changes that write the live login back to the profile `to`, with the limit that belongs to
/// it.
pub open spec fn write_back(
    s: StoreTree,
    to: Option<Seq<char>>,
    limit: Option<Limit>,
) -> Seq<StepTree> {
    match to {
        Some(p) => {
            let steps = no_steps().push(StepTree::WriteProfile(p, s.live->Present_0));
            match limit {
                Some(l) => match s.live_identity() {
                    Some(id) => steps.push(
                        StepTree::TryWriteLimit(p, stamped(l, id.email, id.user_id, Some(p))),
                    ),
                    None => steps.push(
                        StepTree::TryWriteLimit(p, stamped(l, l.email, l.user_id, Some(p))),
                    ),
                },
                None => steps,
            }
        },
        None => no_steps(),
    }
}

/// What becomes the live login with a switch to the profile `name`, which holds `login`: that login,
/// unless the live login has just been written back to the profile.
pub open spec fn switched_login(
    s: StoreTree,
    name: Seq<char>,
    login: JsonTree,
    to: Option<Seq<char>>,
) -> JsonTree {
    if to == Some(name) {
        s.live->Present_0
    } else {
        login
    }
}

/// What switching to the profile `name` does: the live login is written back to the profile of its
/// user, then it is replaced by what the profile holds, and the profile becomes the current one.
pub open spec fn switch(
    s: StoreTree,
    name: Seq<char>,
    limit: Option<Limit>,
) -> Result<ChangeTree, Refusal> {
    match checked(name) {
        Err(e) => Err(e),
        Ok(_) => match s.auth_of(name) {
            AuthTree::Missing => match s.names {
                Err(why) => Err(Refusal::File(why)),
                Ok(saved) => Err(Refusal::NoProfile(name, saved)),
            },
            AuthTree::Unreadable(why) => Err(Refusal::File(why)),
            AuthTree::Present(login) => match identity_of(login) {
                None => Err(Refusal::NoIdentity(name)),
                Some(id) => match persisted(s) {
                    Err(why) => Err(Refusal::File(why)),
                    Ok(to) => Ok(
                        ChangeTree {
                            name,
                            id,
                            persisted: to,
                            steps: write_back(s, to, limit).push(
                                StepTree::WriteAuth(switched_login(s, name, login, to)),
                            ).push(StepTree::WriteCurrent(name)),
                        },
                    ),
                },
            },
        },
    }
}

fn write_back_steps(
    store: &AccountStore,
    to: &Option<String>,
    limit: Option<&AccountLimit>,
) -> (r: Vec<Step>)
    requires
        opt_text(*to) is Some ==> store@.live is Present,
    ensures
        step_trees(r@) == write_back(store@, opt_text(*to), ref_limit(limit)),
{
    let mut steps = start_steps();
    if let Some(p) = to {
        if let AuthFile::Present(live) = &store.live {
            push_step(&mut steps, Step::WriteProfile(owned(p.as_str()), live.copy()));
            if let Some(l) = limit {
                let l = match live_identity(store) {
                    Some(id) => stamp_limit(l, &id.email, &id.user_id, Some(owned(p.as_str()))),
                    None => stamp_limit(l, &l.email, &l.user_id, Some(owned(p.as_str()))),
                };
                push_step(&mut steps, Step::TryWriteLimit(owned(p.as_str()), l));
            }
        }
    }
    steps
}

/// What switching to the profile `name` does; `limit` is the limit of the live account.
pub fn account_switch(
    store: &AccountStore,
    name: &str,
    limit: Option<&AccountLimit>,
) -> (r: Result<Change, AccountError>)
    ensures
        change_result(r) == switch(store@, name@, ref_limit(limit)),
{
    if let Err(e) = check_name(name) {
        return Err(e);
    }
    let login = match store.auth_of(name) {
        AuthFile::Missing => {
            return match store.profiles() {
                Ok(saved) => Err(AccountError::NoProfile(owned(name), saved)),
                Err(e) => Err(AccountError::File(e.why)),
            };
        },
        AuthFile::Unreadable(why) => {
            return Err(AccountError::File(owned(why.as_str())));
        },
        AuthFile::Present(login) => login,
    };
    let id = match identity_from_auth(login) {
        Some(id) => id,
        None => {
            return Err(AccountError::NoIdentity(owned(name)));
        },
    };
    let to = match persist_live_auth(store) {
        Ok(to) => to,
        Err(e) => {
            return Err(AccountError::File(e.why));
        },
    };
    let mut steps = write_back_steps(store, &to, limit);
    let own = match &to {
        Some(p) => same_text(p.as_str(), name),
        None => false,
    };
    let next = match &store.live {
        AuthFile::Present(live) => if own {
            live
        } else {
            login
        },
        _ => login,
    };
    push_step(&mut steps, Step::WriteAuth(next.copy()));
    push_step(&mut steps, Step::WriteCurrent(owned(name)));
    Ok(Change { name: owned(name), id, persisted: to, steps })
}

/// What removing a profile does: the changes, and what fails behind them.
#[derive(Debug, PartialEq, Eq)]
pub struct Removal {
    pub steps: Vec<Step>,
    pub failure: Option<String>,
}

/// What a removal or the failure of the command is.
pub open spec fn removal_result(r: Result<Removal, AccountError>) -> Result<
    (Seq<StepTree>, Option<Seq<char>>),
    Refusal,
> {
    match r {
        Ok(x) => Ok((step_trees(x.steps@), opt_text(x.failure))),
        Err(e) => Err(e@),
    }
}

/// What removing the profile `name` does: it is removed, and no profile is the current one where
/// it was. It fails behind the removal where the current one cannot be read.
pub open spec fn remove(s: StoreTree, name: Seq<char>) -> Result<
    (Seq<StepTree>, Option<Seq<char>>),
    Refusal,
> {
    match checked(name) {
        Err(e) => Err(e),
        Ok(_) => if s.auth_of(name) is Missing {
            Err(Refusal::NothingToRemove(name))
        } else {
            let steps = no_steps().push(StepTree::RemoveProfile(name));
            match s.current {
                Err(why) => Ok((steps, Some(why))),
                Ok(current) => if current == Some(name) {
                    Ok((steps.push(StepTree::ClearCurrent), None))
                } else {
                    Ok((steps, None))
                },
            }
        },
    }
}

/// What removing the profile `name` does.
pub fn account_remove(store: &AccountStore, name: &str) -> (r: Result<Removal, AccountError>)
    ensures
        removal_result(r) == remove(store@, name@),
{
    if let Err(e) = check_name(name) {
        return Err(e);
    }
    if let AuthFile::Missing = store.auth_of(name) {
        return Err(AccountError::NothingToRemove(owned(name)));
    }
    let mut steps = start_steps();
    push_step(&mut steps, Step::RemoveProfile(owned(name)));
    match store.read_current_profile() {
        Ok(current) => {
            if let Some(c) = &current {
                if same_text(c.as_str(), name) {
                    push_step(&mut steps, Step::ClearCurrent);
                }
            }
            Ok(Removal { steps, failure: None })
        },
        Err(e) => Ok(Removal { steps, failure: Some(e.why) }),
    }
}

/// The format that an export file names.
pub open spec fn bundle_format() -> Seq<char> {
    "grok-tokens-account"@
}

/// The login and the name that an export file or a bare authentication file holds.
pub open spec fn bundle_parts(t: JsonTree) -> Result<(JsonTree, Option<Seq<char>>), Refusal> {
    if t.text_at("format"@) == Some(bundle_format()) {
        match t.field("auth"@) {
            None => Err(Refusal::BundleWithoutAuth),
            Some(auth) => if identity_of(auth) is None {
                Err(Refusal::BundleWithoutIdentity)
            } else {
                Ok((auth, opt_str(t, "name"@)))
            },
        }
    } else if identity_of(t) is Some {
        Ok((t, None))
    } else {
        Err(Refusal::NotABundle)
    }
}

/// What the parts of an export file or the failure to read them are.
pub open spec fn parts_result(r: Result<(Json, Option<String>), AccountError>) -> Result<
    (JsonTree, Option<Seq<char>>),
    Refusal,
> {
    match r {
        Ok((v, name)) => Ok((v@, opt_text(name))),
        Err(e) => Err(e@),
    }
}

/// The login and the name that an export file or a bare authentication file holds.
pub fn parse_account_bundle(v: &Json) -> (r: Result<(Json, Option<String>), AccountError>)
    ensures
        parts_result(r) == bundle_parts(v@),
{
    let is_bundle = match v.get_str("format") {
        Some(f) => same_text(f, "grok-tokens-account"),
        None => false,
    };
    if is_bundle {
        let auth = match v.get("auth") {
            Some(auth) => auth,
            None => {
                return Err(AccountError::BundleWithoutAuth);
            },
        };
        if identity_from_auth(auth).is_none() {
            return Err(AccountError::BundleWithoutIdentity);
        }
        return Ok((auth.copy(), json_opt_str(v, "name")));
    }
    if identity_from_auth(v).is_some() {
        return Ok((v.copy(), None));
    }
    Err(AccountError::NotABundle)
}

/// What is exported.
#[derive(Debug, PartialEq, Eq)]
pub struct Export {
    pub name: String,
    pub id: AuthIdentity,
    pub auth: Json,
    /// The limit that was stored last for the profile.
    pub limit: Option<AccountLimit>,
}

/// What is exported.
#[verifier::ext_equal]
pub struct ExportTree {
    pub name: Seq<char>,
    pub id: Identity,
    pub auth: JsonTree,
    pub limit: Option<Limit>,
}

impl View for Export {
    type V = ExportTree;

    open spec fn view(&self) -> ExportTree {
        ExportTree {
            name: self.name@,
            id: self.id@,
            auth: self.auth@,
            limit: opt_limit(self.limit),
        }
    }
}

/// What an export or its failure is.
pub open spec fn export_result(r: Result<Export, AccountError>) -> Result<ExportTree, Refusal> {
    match r {
        Ok(x) => Ok(x@),
        Err(e) => Err(e@),
    }
}

/// The limit that was stored last for the profile `name`.
pub open spec fn kept_limit(s: StoreTree, name: Seq<char>) -> Option<Limit> {
    match s.limit_of(name) {
        Some(t) => Some(stored_limit(t)),
        None => None,
    }
}

/// The limit that was stored last for the profile `name`.
pub fn read_profile_limit(store: &AccountStore, name: &str) -> (r: Option<AccountLimit>)
    ensures
        opt_limit(r) == kept_limit(store@, name@),
{
    match store.limit_of(name) {
        Some(v) => Some(account_limit_from_stored(v)),
        None => None,
    }
}

/// What exporting does: the profile `given`, else the live login under the name of its profile or
/// else a default one.
pub open spec fn export(s: StoreTree, given: Option<Seq<char>>) -> Result<ExportTree, Refusal> {
    match given {
        Some(name) => match checked(name) {
            Err(e) => Err(e),
            Ok(_) => match s.auth_of(name) {
                AuthTree::Missing => Err(Refusal::NothingToExport(name)),
                AuthTree::Unreadable(why) => Err(Refusal::File(why)),
                AuthTree::Present(auth) => match identity_of(auth) {
                    None => Err(Refusal::NoIdentity(name)),
                    Some(id) => Ok(ExportTree { name, id, auth, limit: kept_limit(s, name) }),
                },
            },
        },
        None => match signed_in(s) {
            Err(e) => Err(e),
            Ok((auth, id)) => match matching(s, id) {
                Err(why) => Err(Refusal::File(why)),
                Ok(found) => {
                    let name = text_or(found, default_name(id));
                    Ok(ExportTree { name, id, auth, limit: kept_limit(s, name) })
                },
            },
        },
    }
}

/// What is exported: the profile `given`, else the live login.
pub fn account_export(store: &AccountStore, given: Option<&str>) -> (r: Result<
    Export,
    AccountError,
>)
    ensures
        export_result(r) == export(store@, ref_text(given)),
{
    match given {
        Some(name) => {
            if let Err(e) = check_name(name) {
                return Err(e);
            }
            match store.auth_of(name) {
                AuthFile::Missing => Err(AccountError::NothingToExport(owned(name))),
                AuthFile::Unreadable(why) => Err(AccountError::File(owned(why.as_str()))),
                AuthFile::Present(auth) => match identity_from_auth(auth) {
                    None => Err(AccountError::NoIdentity(owned(name))),
                    Some(id) => Ok(
                        Export {
                            name: owned(name),
                            id,
                            auth: auth.copy(),
                            limit: read_profile_limit(store, name),
                        },
                    ),
                },
            }
        },
        None => {
            let (auth, id) = match require_live_auth(store) {
                Ok(p) => p,
                Err(e) => {
                    return Err(e);
                },
            };
            let name = match matching_profile(store, &id) {
                Ok(Some(name)) => name,
                Ok(None) => default_profile_name(&id),
                Err(e) => {
                    return Err(AccountError::File(e.why));
                },
            };
            let limit = read_profile_limit(store, name.as_str());
            Ok(Export { name, id, auth: auth.copy(), limit })
        },
    }
}

/// The file that an export is written to, where none was given; refuses the standard output.
pub fn export_file(dash: bool, given: bool, name: &str) -> (r: Result<
    Option<String>,
    AccountError,
>)
    ensures
        dash ==> (r matches Err(e) && e@ == Refusal::ToStdout),
        !dash && given ==> (r matches Ok(f) && f is None),
        !dash && !given ==> (r matches Ok(Some(f)) && f@ == "grok-account-"@ + name@ + ".json"@),
{
    if dash {
        return Err(AccountError::ToStdout);
    }
    if given {
        return Ok(None);
    }
    Ok(Some(concat3("grok-account-", name, ".json")))
}

/// An export file.
pub open spec fn bundle_tree(
    x: ExportTree,
    exported_at: Seq<char>,
    g: Option<GaugeTree>,
) -> JsonTree {
    JsonTree::Object(
        no_entries()
            .push(("auth"@, x.auth))
            .push(("email"@, opt_tree(x.id.email)))
            .push(("exported_at"@, JsonTree::Text(exported_at)))
            .push(("format"@, JsonTree::Text(bundle_format())))
            .push((
                "limit"@,
                match x.limit {
                    Some(l) => public_limit(l, g),
                    None => JsonTree::Null,
                },
            ))
            .push(("name"@, JsonTree::Text(x.name)))
            .push(("user_id"@, opt_tree(x.id.user_id)))
            .push(("version"@, JsonTree::Num(NumTree::PosInt(1)))),
    )
}

impl Export {
    /// The export file; `gauge` is the percentage of the limit as a double.
    pub fn bundle(&self, exported_at: &str, gauge: Option<&Gauge>) -> (r: Json)
        ensures
            r@ == bundle_tree(self@, exported_at@, opt_gauge(gauge)),
    {
        let mut e = start_entries();
        put(&mut e, "auth", self.auth.copy());
        put(&mut e, "email", opt_json(&self.id.email));
        put(&mut e, "exported_at", text_json(exported_at));
        put(&mut e, "format", text_json("grok-tokens-account"));
        put(
            &mut e,
            "limit",
            match &self.limit {
                Some(l) => l.as_public(gauge),
                None => Json::Null,
            },
        );
        put(&mut e, "name", text_json(self.name.as_str()));
        put(&mut e, "user_id", opt_json(&self.id.user_id));
        put(&mut e, "version", count_json(1));
        object(e)
    }
}

/// What an optional change is.
pub open spec fn opt_step(s: Option<Step>) -> Option<StepTree> {
    match s {
        Some(s) => Some(s@),
        None => None,
    }
}

/// The change that writes the live login back to the profile of its user, where that can be done;
/// nothing where there is no such profile, or where none can be found.
pub open spec fn back_step(s: StoreTree) -> Option<StepTree> {
    match persisted(s) {
        Ok(Some(p)) => Some(StepTree::TryWriteProfile(p, s.live->Present_0)),
        _ => None,
    }
}

/// The change that writes the live login back to the profile of its user, where that can be done.
/// It comes in front of an export, and of an import that replaces the live login.
pub fn write_back_step(store: &AccountStore) -> (r: Option<Step>)
    ensures
        opt_step(r) == back_step(store@),
{
    match persist_live_auth(store) {
        Ok(Some(p)) => match &store.live {
            AuthFile::Present(live) => Some(Step::TryWriteProfile(p, live.copy())),
            _ => None,
        },
        _ => None,
    }
}

/// The changes that an import makes: the live login is written back where it is to be replaced;
/// then the profile becomes the imported login and gets the limit of the file. Where the live login
/// is to be replaced, the profile is made the current one and its login the live one.
pub open spec fn import_steps(
    s: StoreTree,
    raw: JsonTree,
    name: Seq<char>,
    auth: JsonTree,
    id: Identity,
    no_switch: bool,
) -> Seq<StepTree> {
    let a = match back_step(s) {
        Some(step) => if no_switch {
            no_steps()
        } else {
            no_steps().push(step)
        },
        None => no_steps(),
    };
    let b = a.push(StepTree::WriteProfile(name, auth));
    let c = match raw.field("limit"@) {
        Some(l) => b.push(
            StepTree::TryWriteLimit(
                name,
                stamped(stored_limit(l), id.email, id.user_id, Some(name)),
            ),
        ),
        None => b,
    };
    if no_switch {
        c
    } else {
        c.push(StepTree::WriteCurrent(name)).push(StepTree::WriteAuth(auth))
    }
}

/// What importing the file `raw` does, under the name `given`, else that of the file, else by
/// default.
pub open spec fn import(
    s: StoreTree,
    raw: JsonTree,
    given: Option<Seq<char>>,
    no_switch: bool,
) -> Result<ChangeTree, Refusal> {
    match bundle_parts(raw) {
        Err(e) => Err(e),
        Ok((auth, bundle_name)) => {
            let id = identity_of(auth)->0;
            match checked(text_or(given, text_or(bundle_name, default_name(id)))) {
                Err(e) => Err(e),
                Ok(name) => match other_owner(s, name, id) {
                    Some(owner) => Err(Refusal::Taken(name, owner, Task::Import)),
                    None => Ok(
                        ChangeTree {
                            name,
                            id,
                            persisted: None,
                            steps: import_steps(s, raw, name, auth, id, no_switch),
                        },
                    ),
                },
            }
        },
    }
}

/// What importing the file `raw` does.
pub fn account_import(
    store: &AccountStore,
    raw: &Json,
    given: Option<&str>,
    no_switch: bool,
) -> (r: Result<Change, AccountError>)
    ensures
        change_result(r) == import(store@, raw@, ref_text(given), no_switch),
{
    let (auth, bundle_name) = match parse_account_bundle(raw) {
        Ok(p) => p,
        Err(e) => {
            return Err(e);
        },
    };
    let id = match identity_from_auth(&auth) {
        Some(id) => id,
        None => {
            return Err(AccountError::NotABundle);
        },
    };
    let name = match given {
        Some(n) => owned(n),
        None => match bundle_name {
            Some(n) => n,
            None => default_profile_name(&id),
        },
    };
    if let Err(e) = check_name(name.as_str()) {
        return Err(e);
    }
    if let Some(owner) = find_other_owner(store, name.as_str(), &id) {
        return Err(AccountError::Taken(name, owner, Task::Import));
    }
    let mut steps = start_steps();
    if !no_switch {
        if let Some(step) = write_back_step(store) {
            push_step(&mut steps, step);
        }
    }
    push_step(&mut steps, Step::WriteProfile(owned(name.as_str()), auth.copy()));
    if let Some(l) = raw.get("limit") {
        let l = account_limit_from_stored(l);
        let l = stamp_limit(&l, &id.email, &id.user_id, Some(owned(name.as_str())));
        push_step(&mut steps, Step::TryWriteLimit(owned(name.as_str()), l));
    }
    if !no_switch {
        push_step(&mut steps, Step::WriteCurrent(owned(name.as_str())));
        push_step(&mut steps, Step::WriteAuth(auth));
    }
    Ok(Change { name, id, persisted: None, steps })
}

/// The profile that saving puts the live login under.
pub open spec fn saved_as(s: StoreTree, given: Option<Seq<char>>) -> Option<Seq<char>> {
    match signed_in(s) {
        Ok((_, id)) => Some(text_or(given, default_name(id))),
        Err(_) => None,
    }
}

/// The profile that saving puts the live login under.
pub fn save_name(store: &AccountStore, given: Option<&str>) -> (r: Option<String>)
    ensures
        opt_text(r) == saved_as(store@, ref_text(given)),
{
    match require_live_auth(store) {
        Ok((_, id)) => match given {
            Some(n) => Some(owned(n)),
            None => Some(default_profile_name(&id)),
        },
        Err(_) => None,
    }
}

/// The profile whose limit is exported.
pub open spec fn exported_as(s: StoreTree, given: Option<Seq<char>>) -> Option<Seq<char>> {
    match given {
        Some(n) => Some(n),
        None => match signed_in(s) {
            Ok((_, id)) => match matching(s, id) {
                Ok(found) => Some(text_or(found, default_name(id))),
                Err(_) => None,
            },
            Err(_) => None,
        },
    }
}

/// The profile whose limit is exported.
pub fn export_name(store: &AccountStore, given: Option<&str>) -> (r: Option<String>)
    ensures
        opt_text(r) == exported_as(store@, ref_text(given)),
{
    if let Some(n) = given {
        return Some(owned(n));
    }
    match require_live_auth(store) {
        Ok((_, id)) => match matching_profile(store, &id) {
            Ok(Some(n)) => Some(n),
            Ok(None) => Some(default_profile_name(&id)),
            Err(_) => None,
        },
        Err(_) => None,
    }
}

/// The profile that an import puts the login of the file `raw` under.
pub open spec fn imported_as(raw: JsonTree, given: Option<Seq<char>>) -> Option<Seq<char>> {
    match bundle_parts(raw) {
        Ok((auth, n)) => Some(text_or(given, text_or(n, default_name(identity_of(auth)->0)))),
        Err(_) => None,
    }
}

/// The profile that an import puts the login of the file `raw` under.
pub fn import_name(raw: &Json, given: Option<&str>) -> (r: Option<String>)
    ensures
        opt_text(r) == imported_as(raw@, ref_text(given)),
{
    match parse_account_bundle(raw) {
        Ok((auth, bundle_name)) => match given {
            Some(n) => Some(owned(n)),
            None => match bundle_name {
                Some(n) => Some(n),
                None => match identity_from_auth(&auth) {
                    Some(id) => Some(default_profile_name(&id)),
                    None => None,
                },
            },
        },
        Err(_) => None,
    }
}

} // verus!
