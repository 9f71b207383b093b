//! What holds of when the work on profiles is done and when it is refused.
use crate::accounts::{
    bundle_parts, export, exported_as, import, imported_as, other_owner, refusal_text, remove, save,
    saved_as, stamped, switch, Refusal, StepTree, Task,
};
use crate::identity::{identity_of, Identity};
use crate::json::{opt_str, JsonTree};
use crate::limit::{stored_limit, Limit};
use crate::names::{default_name, name_error};
use crate::rows::{enriched, whoami};
use crate::store::{matching, persisted, AuthTree, StoreTree};
use crate::text::{has_part, joined};
use crate::text_laws::law_parts;
use vstd::prelude::*;

verus! {

/// The work is refused for the reason `why`.
pub open spec fn refused<T>(r: Result<T, Refusal>, why: Refusal) -> bool {
    r matches Err(e) && e == why
}

/// The work gives `v`.
pub open spec fn gives<T>(r: Result<T, Refusal>, v: T) -> bool {
    r matches Ok(x) && x == v
}

/// The profile `name` holds the login of another user than `id`: both are known, and they differ.
pub open spec fn of_another(s: StoreTree, name: Seq<char>, id: Identity) -> bool {
    s.identity_at(name) matches Some(there) && there.user_id is Some && id.user_id is Some
        && there.user_id != id.user_id
}

/// The live login is saved if and only if there is one with an identity, the name is accepted, and
/// the profile of that name is not another user's. No profile of another user is ever overwritten.
pub proof fn law_when_saved(
    s: StoreTree,
    given: Option<Seq<char>>,
    limit: Option<Limit>,
    login: JsonTree,
    id: Identity,
)
    ensures
        s.live is Missing ==> refused(save(s, given, limit), Refusal::NotSignedIn),
        s.live == AuthTree::Present(login) && identity_of(login) is None
            ==> refused(save(s, given, limit), Refusal::NoLiveIdentity),
        s.live == AuthTree::Present(login) && identity_of(login) == Some(id) ==> {
            let name = match given {
                Some(n) => n,
                None => default_name(id),
            };
            &&& save(s, given, limit) is Ok
                <==> name_error(name) is None && !of_another(s, name, id)
            &&& save(s, given, limit) matches Ok(c) ==> c.name == name && c.id == id
            &&& name_error(name) matches Some(e)
                ==> refused(save(s, given, limit), Refusal::BadName(e, name))
            &&& name_error(name) is None && of_another(s, name, id) ==> (save(
                s,
                given,
                limit,
            ) matches Err(e) && (e matches Refusal::Taken(n, owner, task) && n == name && task
                == Task::Save))
        },
{
}

/// A profile is switched to if and only if its name is accepted, it holds a login with an identity,
/// and the live login can be looked after.
pub proof fn law_when_switched(s: StoreTree, name: Seq<char>, limit: Option<Limit>)
    ensures
        switch(s, name, limit) is Ok <==> name_error(name) is None && (s.auth_of(
            name,
        ) matches AuthTree::Present(t) && identity_of(t) is Some) && persisted(s) is Ok,
        switch(s, name, limit) matches Ok(c) ==> c.name == name && s.identity_at(name) == Some(c.id)
            && persisted(s) == Ok::<Option<Seq<char>>, Seq<char>>(c.persisted),
        name_error(name) matches Some(e)
            ==> refused(switch(s, name, limit), Refusal::BadName(e, name)),
        name_error(name) is None && s.auth_of(name) is Missing ==> (s.names matches Ok(saved)
            ==> refused(switch(s, name, limit), Refusal::NoProfile(name, saved))),
{
}

/// A profile is removed if and only if its name is accepted and there is one of that name.
pub proof fn law_when_removed(s: StoreTree, name: Seq<char>)
    ensures
        remove(s, name) is Ok <==> name_error(name) is None && !(s.auth_of(name) is Missing),
        name_error(name) matches Some(e) ==> refused(remove(s, name), Refusal::BadName(e, name)),
        name_error(name) is None && s.auth_of(name) is Missing
            ==> refused(remove(s, name), Refusal::NothingToRemove(name)),
{
}

/// What is exported under a name is the login, the identity and the limit of that profile; without
/// a name it is the live login, under the name of the profile that it belongs to, else under its
/// own.
pub proof fn law_what_is_exported(s: StoreTree, name: Seq<char>, login: JsonTree, id: Identity)
    ensures
        export(s, Some(name)) is Ok <==> name_error(name) is None && (s.auth_of(
            name,
        ) matches AuthTree::Present(t) && identity_of(t) is Some),
        export(s, Some(name)) matches Ok(x) ==> x.name == name && s.auth_of(name)
            == AuthTree::Present(x.auth) && identity_of(x.auth) == Some(x.id) && (x.limit is Some
            <==> s.limit_of(name) is Some),
        s.live is Missing ==> refused(export(s, None), Refusal::NotSignedIn),
        s.live == AuthTree::Present(login) && identity_of(login) == Some(id) ==> {
            &&& export(s, None) is Ok <==> matching(s, id) is Ok
            &&& export(s, None) matches Ok(x) ==> x.auth == login && x.id == id && (matching(
                s,
                id,
            ) matches Ok(found) && (found matches Some(n) ==> x.name == n) && (found is None
                ==> x.name == default_name(id)))
        },
{
}

/// A bundle is known by its mark, and holds a login with an identity; a bare login is taken as it
/// is. Anything else is refused.
pub proof fn law_what_is_imported(t: JsonTree, auth: JsonTree)
    ensures
        t.field("format"@) == Some(JsonTree::Text("grok-tokens-account"@)) ==> {
            &&& t.field("auth"@) is None ==> refused(bundle_parts(t), Refusal::BundleWithoutAuth)
            &&& t.field("auth"@) == Some(auth) && identity_of(auth) is None
                ==> refused(bundle_parts(t), Refusal::BundleWithoutIdentity)
            &&& t.field("auth"@) == Some(auth) && identity_of(auth) is Some
                ==> gives(bundle_parts(t), (auth, opt_str(t, "name"@)))
        },
        t.text_at("format"@) is None && identity_of(t) is Some
            ==> gives(bundle_parts(t), (t, None)),
        t.text_at("format"@) is None && identity_of(t) is None
            ==> refused(bundle_parts(t), Refusal::NotABundle),
{
}

/// A login is imported if and only if it can be read from the file, the name is accepted, and the
/// profile of that name is not another user's. The name that is given counts first, then the one of
/// the bundle, then the one that the account gets on its own.
pub proof fn law_when_imported(
    s: StoreTree,
    raw: JsonTree,
    given: Option<Seq<char>>,
    no_switch: bool,
    auth: JsonTree,
    bundle_name: Option<Seq<char>>,
    id: Identity,
)
    ensures
        bundle_parts(raw) matches Err(e) ==> refused(import(s, raw, given, no_switch), e),
        gives(bundle_parts(raw), (auth, bundle_name)) && identity_of(auth) == Some(id)
            ==> {
            let name = match given {
                Some(n) => n,
                None => match bundle_name {
                    Some(n) => n,
                    None => default_name(id),
                },
            };
            &&& import(s, raw, given, no_switch) is Ok <==> name_error(name) is None && !of_another(
                s,
                name,
                id,
            )
            &&& import(s, raw, given, no_switch) matches Ok(c) ==> c.name == name && c.id == id
            &&& name_error(name) is None && of_another(s, name, id) ==> (import(
                s,
                raw,
                given,
                no_switch,
            ) matches Err(e) && (e matches Refusal::Taken(n, owner, task) && n == name && task
                == Task::Import))
        },
{
}

/// A limit that is stored for a profile names the account and the profile, and is otherwise what it
/// was.
pub proof fn law_stamped(
    l: Limit,
    email: Option<Seq<char>>,
    user_id: Option<Seq<char>>,
    profile: Option<Seq<char>>,
)
    ensures
        ({
            let m = stamped(l, email, user_id, profile);
            &&& m.email == email && m.user_id == user_id && m.profile == profile
            &&& m.percent == l.percent && m.period_label == l.period_label && m.period_type
                == l.period_type
            &&& m.period_start == l.period_start && m.period_end == l.period_end
            &&& m.subscription == l.subscription && m.fetched_at == l.fetched_at && m.source
                == l.source
        }),
{
}

/// The limit that is read belongs to the live login: it gets that login's address and user, and the
/// profile that the login belongs to, where it is stored too. Without a login it stays as it is.
pub proof fn law_limit_of_the_login(s: StoreTree, l: Limit, id: Identity, name: Seq<char>)
    ensures
        s.live_identity() == Some(id) ==> {
            let (m, step) = enriched(s, l);
            &&& m.email == id.email && m.user_id == id.user_id && m.percent == l.percent
                && m.period_label == l.period_label && m.period_end == l.period_end
            &&& matching(s, id) == Ok::<Option<Seq<char>>, Seq<char>>(Some(name)) ==> m.profile
                == Some(name) && step == Some(StepTree::TryWriteLimit(name, m))
            &&& matching(s, id) == Ok::<Option<Seq<char>>, Seq<char>>(None) ==> m.profile is None
                && step is None
            &&& matching(s, id) is Err ==> m.profile is None && step is None
            &&& m == stamped(l, id.email, id.user_id, m.profile)
        },
        s.live_identity() is None ==> enriched(s, l) == (l, None::<StepTree>),
{
}

/// Who is signed in is the identity of the live login, with the profile that it belongs to.
pub proof fn law_who_is_signed_in(s: StoreTree, login: JsonTree, id: Identity)
    ensures
        s.live is Missing ==> refused(whoami(s), Refusal::NotSignedIn),
        s.live == AuthTree::Present(login) && identity_of(login) is None
            ==> refused(whoami(s), Refusal::NoLiveIdentity),
        s.live == AuthTree::Present(login) && identity_of(login) == Some(id) ==> (matching(
            s,
            id,
        ) matches Ok(found) ==> gives(whoami(s), (id, found))),
{
}

/// What is said of a refusal names the profile that it is about, and for one that is taken the
/// owner too.
pub proof fn law_refusals_name_the_profile(
    name: Seq<char>,
    owner: Seq<char>,
    saved: Seq<Seq<char>>,
    task: Task,
    path: Seq<char>,
)
    ensures
        has_part(refusal_text(Refusal::NoProfile(name, saved), path), name),
        has_part(refusal_text(Refusal::NothingToRemove(name), path), name),
        has_part(refusal_text(Refusal::NothingToExport(name), path), name),
        has_part(refusal_text(Refusal::NoIdentity(name), path), name),
        has_part(refusal_text(Refusal::Taken(name, owner, task), path), name),
        has_part(refusal_text(Refusal::Taken(name, owner, task), path), owner),
        has_part(refusal_text(Refusal::NotSignedIn, path), path),
        has_part(refusal_text(Refusal::NoLiveIdentity, path), path),
{
    let a = "no profile '"@;
    let none = Seq::<char>::empty();
    let behind = "'\nSaved: "@ + joined(saved, ", "@)
        + "\nList:  grok-tokens account list"@;
    law_parts(none, a, name, behind);
    assert(a + name + behind =~= refusal_text(Refusal::NoProfile(name, saved), path));
    law_parts(none, a, name, "'"@);
    let unsaved = "' — save it first: grok-tokens account save "@ + name;
    law_parts(none, a, name, unsaved);
    assert(a + name + unsaved =~= refusal_text(Refusal::NothingToExport(name), path));
    law_parts(none, "profile '"@, name, "' has no account identity"@);
    let hint = match task {
        Task::Save => "\nPick another name or: grok-tokens account remove "@,
        Task::Import => "\nPick --name or: grok-tokens account remove "@,
    };
    let taken = "' already belongs to "@ + owner + hint + name;
    law_parts(none, "profile '"@, name, taken);
    assert("profile '"@ + name + taken =~= refusal_text(Refusal::Taken(name, owner, task), path));
    let front = "profile '"@ + name + "' already belongs to "@;
    law_parts(none, front, owner, hint + name);
    assert(front + owner + (hint + name) =~= refusal_text(
        Refusal::Taken(name, owner, task),
        path,
    ));
    law_parts(none, "not signed in (no "@, path, ")\nRun: grok login"@);
    law_parts(none, "could not read account identity from "@, path, none);
    assert("could not read account identity from "@ + path + none =~= refusal_text(
        Refusal::NoLiveIdentity,
        path,
    ));
}

/// The name under which a login is saved, exported or imported is known in front, and is the one
/// that the work then says.
pub proof fn law_names_are_known(
    s: StoreTree,
    given: Option<Seq<char>>,
    limit: Option<Limit>,
    raw: JsonTree,
    no_switch: bool,
)
    ensures
        save(s, given, limit) matches Ok(c) ==> saved_as(s, given) == Some(c.name),
        export(s, given) matches Ok(x) ==> exported_as(s, given) == Some(x.name),
        import(s, raw, given, no_switch) matches Ok(c) ==> imported_as(raw, given) == Some(c.name),
{
}

/// A profile that is another user's is said to belong to the address that it holds, else to that
/// user.
pub proof fn law_owner_of_a_profile(s: StoreTree, name: Seq<char>, id: Identity, there: Identity)
    requires
        s.identity_at(name) == Some(there),
        of_another(s, name, id),
    ensures
        there.email matches Some(a) ==> other_owner(s, name, id) == Some(a),
        there.email is None ==> other_owner(s, name, id) == there.user_id,
{
}

/// The limit that is exported is the one that is stored for the profile of that name.
pub proof fn law_exported_limit(s: StoreTree, given: Option<Seq<char>>, t: JsonTree)
    ensures
        export(s, given) matches Ok(x) ==> {
            &&& s.limit_of(x.name) is None ==> x.limit is None
            &&& s.limit_of(x.name) == Some(t) ==> x.limit == Some(stored_limit(t))
        },
{
}

/// What is said of a profile that there is none of lists those that are saved.
pub proof fn law_saved_profiles_are_said(name: Seq<char>, saved: Seq<Seq<char>>, path: Seq<char>)
    ensures
        has_part(refusal_text(Refusal::NoProfile(name, saved), path), joined(saved, ", "@)),
{
    let front = "no profile '"@ + name + "'\nSaved: "@;
    let list = joined(saved, ", "@);
    law_parts(Seq::empty(), front, list, "\nList:  grok-tokens account list"@);
}

} // verus!
