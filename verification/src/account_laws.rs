//! What the account commands keep, and what one of them undoes of another.
use crate::accounts::{
    back_step, bundle_format, bundle_parts, bundle_tree, export, import, no_steps, other_owner,
    remove, save, stamped, switch, switched_login, write_back, Refusal, StepTree,
};
use crate::identity::{identity_of, user_of};
use crate::json::{lemma_entry_push, JsonTree};
use crate::limit::{public_limit, stored_limit, GaugeTree, Limit};
use crate::names::{lemma_default_name, name_char, name_error};
use crate::order::{lemma_filter_members, lemma_ordered_with, ordered};
use crate::store::{
    first_of_user, law_persisted_same_user, lemma_store_names, matching, named, persisted,
    with_names, AccountStore, AuthTree, ProfileTree, StoreTree,
};
use crate::text::{lemma_back_is, lemma_front_is, lemma_trimmed_is, trimmed, white_space};
use vstd::prelude::*;

verus! {

/// How the percentage of a limit is written as a double.
pub type Gauging = spec_fn(Limit) -> Option<GaugeTree>;

/// The store after a step.
pub open spec fn apply(s: StoreTree, step: StepTree, g: Gauging) -> StoreTree {
    match step {
        StepTree::WriteAuth(v) => StoreTree { live: AuthTree::Present(v), ..s },
        StepTree::WriteProfile(name, v) => with_profile(s, name, v),
        StepTree::TryWriteProfile(name, v) => with_profile(s, name, v),
        StepTree::TryWriteLimit(name, l) => with_limit(s, name, public_limit(l, g(l))),
        StepTree::WriteCurrent(name) => StoreTree { current: Ok(Some(name)), ..s },
        StepTree::ClearCurrent => StoreTree { current: Ok(None), ..s },
        StepTree::RemoveProfile(name) => StoreTree {
            names: names_without(s.names, name),
            ..with_auth(s, name, AuthTree::Missing)
        },
    }
}

/// The store in which the profile `name` has the authentication file `auth`.
pub open spec fn with_auth(s: StoreTree, name: Seq<char>, auth: AuthTree) -> StoreTree {
    StoreTree {
        files: Seq::empty().push(ProfileTree { name, auth, limit: s.limit_of(name) }) + s.files,
        ..s
    }
}

/// The store in which the profile `name` has the stored limit `limit`.
pub open spec fn with_limit(s: StoreTree, name: Seq<char>, limit: JsonTree) -> StoreTree {
    StoreTree {
        files: Seq::empty().push(
            ProfileTree { name, auth: s.auth_of(name), limit: Some(limit) },
        ) + s.files,
        ..s
    }
}

/// The store in which the profile `name` holds the login `v`, and is listed.
pub open spec fn with_profile(s: StoreTree, name: Seq<char>, v: JsonTree) -> StoreTree {
    StoreTree {
        names: names_with(s.names, name),
        ..with_auth(s, name, AuthTree::Present(v))
    }
}

/// The names of the saved profiles with one more, where it is a name.
pub open spec fn names_with(
    names: Result<Seq<Seq<char>>, Seq<char>>,
    name: Seq<char>,
) -> Result<Seq<Seq<char>>, Seq<char>> {
    match names {
        Ok(ns) => Ok(
            if name_error(name) is None {
                ordered(ns.to_set().insert(name))
            } else {
                ns
            },
        ),
        Err(why) => Err(why),
    }
}

/// What tells other names from `name`.
pub open spec fn other_than(name: Seq<char>) -> spec_fn(Seq<char>) -> bool {
    |n: Seq<char>| n != name
}

/// The names of the saved profiles without one.
pub open spec fn names_without(
    names: Result<Seq<Seq<char>>, Seq<char>>,
    name: Seq<char>,
) -> Result<Seq<Seq<char>>, Seq<char>> {
    match names {
        Ok(ns) => Ok(ns.filter(other_than(name))),
        Err(why) => Err(why),
    }
}

/// The directory lists the profile `name`.
pub open spec fn is_listed(s: StoreTree, name: Seq<char>) -> bool {
    s.names is Ok && s.names->Ok_0.contains(name)
}

/// The store after some steps, each of which succeeds.
pub open spec fn apply_all(s: StoreTree, steps: Seq<StepTree>, g: Gauging) -> StoreTree
    decreases steps.len(),
{
    if steps.len() == 0 {
        s
    } else {
        apply(apply_all(s, steps.drop_last(), g), steps.last(), g)
    }
}

proof fn lemma_apply_push(s: StoreTree, steps: Seq<StepTree>, step: StepTree, g: Gauging)
    ensures
        apply_all(s, steps.push(step), g) == apply(apply_all(s, steps, g), step, g),
{
    assert(steps.push(step).drop_last() =~= steps);
}

/// Two stores have the same files for the profile `name`.
pub open spec fn same_files(s: StoreTree, t: StoreTree, name: Seq<char>) -> bool {
    s.auth_of(name) == t.auth_of(name) && s.limit_of(name) == t.limit_of(name)
}

proof fn lemma_with_auth(s: StoreTree, name: Seq<char>, auth: AuthTree)
    ensures
        with_auth(s, name, auth).auth_of(name) == auth,
        with_auth(s, name, auth).limit_of(name) == s.limit_of(name),
        forall|n: Seq<char>| n != name ==> #[trigger] same_files(with_auth(s, name, auth), s, n),
{
    let t = with_auth(s, name, auth);
    assert forall|n: Seq<char>| n != name implies #[trigger] same_files(t, s, n) by {
        assert(t.files.skip(1) =~= s.files);
    }
}

proof fn lemma_with_limit(s: StoreTree, name: Seq<char>, limit: JsonTree)
    ensures
        with_limit(s, name, limit).auth_of(name) == s.auth_of(name),
        with_limit(s, name, limit).limit_of(name) == Some(limit),
        forall|n: Seq<char>| n != name ==> #[trigger] same_files(with_limit(s, name, limit), s, n),
{
    let t = with_limit(s, name, limit);
    assert forall|n: Seq<char>| n != name implies #[trigger] same_files(t, s, n) by {
        assert(t.files.skip(1) =~= s.files);
    }
}

proof fn lemma_with_profile(s: StoreTree, name: Seq<char>, v: JsonTree)
    ensures
        with_profile(s, name, v).auth_of(name) == AuthTree::Present(v),
        with_profile(s, name, v).limit_of(name) == s.limit_of(name),
        with_profile(s, name, v).names is Ok <==> s.names is Ok,
        s.names is Ok && name_error(name) is None ==> is_listed(with_profile(s, name, v), name),
        forall|n: Seq<char>|
            n != name ==> #[trigger] same_files(with_profile(s, name, v), s, n),
        forall|n: Seq<char>|
            n != name ==> #[trigger] is_listed(with_profile(s, name, v), n) == is_listed(s, n),
{
    let t = with_profile(s, name, v);
    let w = with_auth(s, name, AuthTree::Present(v));
    lemma_with_auth(s, name, AuthTree::Present(v));
    assert(t.files == w.files);
    assert forall|n: Seq<char>| n != name implies #[trigger] same_files(t, s, n) by {
        assert(same_files(w, s, n));
    }
    if let Ok(ns) = s.names {
        lemma_ordered_with(ns, name);
    }
}

proof fn lemma_names_without(s: StoreTree, t: StoreTree, name: Seq<char>)
    requires
        t.names == names_without(s.names, name),
    ensures
        !is_listed(t, name),
        forall|n: Seq<char>| n != name ==> #[trigger] is_listed(t, n) == is_listed(s, n),
{
    if let Ok(ns) = s.names {
        let p = other_than(name);
        lemma_filter_members(ns, p);
        let f = ns.filter(p);
        if f.contains(name) {
            let i = choose|i: int| 0 <= i < f.len() && f[i] == name;
            assert(p(f[i]));
        }
        assert forall|n: Seq<char>| n != name implies #[trigger] is_listed(t, n) == is_listed(
            s,
            n,
        ) by {
            if f.contains(n) {
                let i = choose|i: int| 0 <= i < f.len() && f[i] == n;
                assert(p(f[i]) && ns.contains(f[i]));
            }
            if ns.contains(n) {
                let i = choose|i: int| 0 <= i < ns.len() && ns[i] == n;
                assert(p(ns[i]));
                assert(f.contains(ns[i]));
            }
            assert(f.contains(n) == ns.contains(n));
        }
    }
}

/// The text that is written for the current profile names that profile.
pub proof fn law_current_is_read_back(name: Seq<char>)
    requires
        name_error(name) is None,
    ensures
        named(name + "\n"@) == Some(name),
{
    let s = name + "\n"@;
    let p = |c: char| white_space(c);
    reveal_strlit("\n");
    assert(name_char(name[0]));
    assert(name_char(name[name.len() - 1]));
    lemma_front_is(s, p, 0);
    assert(s.skip(0) =~= s);
    lemma_back_is(s, p, name.len() as int);
    assert(s.take(name.len() as int) =~= name);
}

/// The stored limit of the profile that the live login is written back to.
pub open spec fn written_limit(
    s: StoreTree,
    p: Seq<char>,
    limit: Option<Limit>,
    g: Gauging,
) -> Option<JsonTree> {
    match limit {
        Some(l) => {
            let id = s.live_identity()->0;
            let l = stamped(l, id.email, id.user_id, Some(p));
            Some(public_limit(l, g(l)))
        },
        None => s.limit_of(p),
    }
}

/// What writing the live login back does: the profile holds the live login and, where there is a
/// limit, the limit; all else stays.
proof fn lemma_write_back(
    s: StoreTree,
    to: Option<Seq<char>>,
    limit: Option<Limit>,
    g: Gauging,
) -> (t: StoreTree)
    requires
        to is Some ==> s.live_identity() is Some,
    ensures
        t == apply_all(s, write_back(s, to, limit), g),
        t.live == s.live,
        t.current == s.current,
        t.names is Ok <==> s.names is Ok,
        to matches Some(p) ==> t.auth_of(p) == s.live && t.limit_of(p) == written_limit(
            s,
            p,
            limit,
            g,
        ),
        forall|n: Seq<char>| to != Some(n) ==> #[trigger] same_files(t, s, n),
        forall|n: Seq<char>| to != Some(n) ==> #[trigger] is_listed(t, n) == is_listed(s, n),
{
    let none = no_steps();
    let back = write_back(s, to, limit);
    let t = apply_all(s, back, g);
    assert(apply_all(s, none, g) == s);
    if let Some(p) = to {
        let write = StepTree::WriteProfile(p, s.live->Present_0);
        let w = with_profile(s, p, s.live->Present_0);
        lemma_apply_push(s, none, write, g);
        lemma_with_profile(s, p, s.live->Present_0);
        if limit is Some {
            lemma_apply_push(s, none.push(write), back.last(), g);
            assert(back =~= none.push(write).push(back.last()));
            let l = back.last()->TryWriteLimit_1;
            lemma_with_limit(w, p, public_limit(l, g(l)));
            assert forall|n: Seq<char>| to != Some(n) implies #[trigger] same_files(t, s, n) by {
                assert(same_files(t, w, n));
                assert(same_files(w, s, n));
            }
            assert forall|n: Seq<char>| to != Some(n) implies #[trigger] is_listed(t, n)
                == is_listed(s, n) by {
                assert(is_listed(w, n) == is_listed(s, n));
            }
        }
    }
    t
}

/// Switching first writes the live login back to the profile of its user, so that a refreshed
/// login is not lost. Then the live login is the one that the profile holds: the live one where it
/// has just been written there, else the one that the profile had. The profile is the current one,
/// the live login belongs to it, and no other profile has changed.
pub proof fn law_switch(s: StoreTree, name: Seq<char>, limit: Option<Limit>, g: Gauging)
    requires
        switch(s, name, limit) is Ok,
    ensures
        ({
            let t = apply_all(s, switch(s, name, limit)->Ok_0.steps, g);
            &&& t.live == (if persisted(s) == Ok::<Option<Seq<char>>, Seq<char>>(Some(name)) {
                s.live
            } else {
                s.auth_of(name)
            })
            &&& t.live == t.auth_of(name)
            &&& t.current == Ok::<Option<Seq<char>>, Seq<char>>(Some(name))
            &&& persisted(s) matches Ok(Some(p)) ==> t.auth_of(p) == s.live && t.limit_of(p)
                == written_limit(s, p, limit, g)
            &&& switch(s, name, limit)->Ok_0.id.user_id is Some ==> matching(
                t,
                switch(s, name, limit)->Ok_0.id,
            ) == Ok::<Option<Seq<char>>, Seq<char>>(Some(name))
            &&& t.names is Ok <==> s.names is Ok
            &&& forall|n: Seq<char>|
                persisted(s) != Ok::<Option<Seq<char>>, Seq<char>>(Some(n))
                    ==> #[trigger] same_files(t, s, n)
            &&& forall|n: Seq<char>|
                persisted(s) != Ok::<Option<Seq<char>>, Seq<char>>(Some(n))
                    ==> #[trigger] is_listed(t, n) == is_listed(s, n)
        }),
{
    let to = persisted(s)->Ok_0;
    let login = s.auth_of(name)->Present_0;
    let back = write_back(s, to, limit);
    let write = StepTree::WriteAuth(switched_login(s, name, login, to));
    law_persisted_same_user(s);
    let mid = lemma_write_back(s, to, limit, g);
    lemma_apply_push(s, back, write, g);
    lemma_apply_push(s, back.push(write), StepTree::WriteCurrent(name), g);
    let t = apply_all(s, switch(s, name, limit)->Ok_0.steps, g);
    assert(t.files == mid.files && t.names == mid.names);
    assert forall|n: Seq<char>| #[trigger] same_files(t, mid, n) by {}
    assert(same_files(t, mid, name));
    assert forall|n: Seq<char>|
        persisted(s) != Ok::<Option<Seq<char>>, Seq<char>>(Some(n)) implies #[trigger] same_files(
        t,
        s,
        n,
    ) by {
        assert(same_files(mid, s, n));
    }
    assert forall|n: Seq<char>|
        persisted(s) != Ok::<Option<Seq<char>>, Seq<char>>(Some(n)) implies #[trigger] is_listed(
        t,
        n,
    ) == is_listed(s, n) by {
        assert(is_listed(mid, n) == is_listed(s, n));
    }
    if to is Some {
        assert(same_files(t, mid, to->0));
    }
    if to != Some(name) {
        assert(same_files(t, s, name));
    }
    assert(s.user_at(name) == user_of(login));
    assert(t.user_at(name) == user_of(login));
}

/// Saving makes the profile the live login and the current profile, with the limit where there is
/// one; the live login and all other profiles stay as they are. From then on the profile is listed,
/// and the live login belongs to it.
pub proof fn law_save(s: StoreTree, given: Option<Seq<char>>, limit: Option<Limit>, g: Gauging)
    requires
        save(s, given, limit) is Ok,
    ensures
        ({
            let c = save(s, given, limit)->Ok_0;
            let t = apply_all(s, c.steps, g);
            &&& t.live == s.live
            &&& t.auth_of(c.name) == s.live
            &&& t.current == Ok::<Option<Seq<char>>, Seq<char>>(Some(c.name))
            &&& t.limit_of(c.name) == (match limit {
                Some(l) => {
                    let l = stamped(l, c.id.email, c.id.user_id, Some(c.name));
                    Some(public_limit(l, g(l)))
                },
                None => s.limit_of(c.name),
            })
            &&& s.names is Ok ==> is_listed(t, c.name)
            &&& forall|n: Seq<char>| n != c.name ==> #[trigger] same_files(t, s, n)
            &&& forall|n: Seq<char>| n != c.name ==> #[trigger] is_listed(t, n) == is_listed(s, n)
            &&& c.id.user_id is Some ==> matching(t, c.id) == Ok::<Option<Seq<char>>, Seq<char>>(
                Some(c.name),
            )
        }),
{
    let c = save(s, given, limit)->Ok_0;
    let none = no_steps();
    let write = StepTree::WriteProfile(c.name, s.live->Present_0);
    let current = StepTree::WriteCurrent(c.name);
    let w = with_profile(s, c.name, s.live->Present_0);
    let u = StoreTree { current: Ok(Some(c.name)), ..w };
    assert(apply_all(s, none, g) == s);
    lemma_apply_push(s, none, write, g);
    lemma_apply_push(s, none.push(write), current, g);
    lemma_with_profile(s, c.name, s.live->Present_0);
    assert forall|n: Seq<char>| #[trigger] same_files(u, w, n) by {}
    assert(same_files(u, w, c.name));
    let t = apply_all(s, c.steps, g);
    if limit is Some {
        lemma_apply_push(s, none.push(write).push(current), c.steps.last(), g);
        assert(c.steps =~= none.push(write).push(current).push(c.steps.last()));
        let l = c.steps.last()->TryWriteLimit_1;
        lemma_with_limit(u, c.name, public_limit(l, g(l)));
    }
    assert forall|n: Seq<char>| n != c.name implies #[trigger] same_files(t, s, n) by {
        if limit is Some {
            assert(same_files(t, u, n));
        }
        assert(same_files(u, w, n));
        assert(same_files(w, s, n));
    }
    assert forall|n: Seq<char>| n != c.name implies #[trigger] is_listed(t, n) == is_listed(
        s,
        n,
    ) by {
        assert(is_listed(w, n) == is_listed(s, n));
    }
    assert(is_listed(w, c.name) == is_listed(t, c.name));
}

/// Removing a profile takes away its login and leaves the live login and all other profiles as
/// they are. The profile is then neither listed nor the current one, and all others are listed as
/// before.
pub proof fn law_remove(s: StoreTree, name: Seq<char>, g: Gauging)
    requires
        remove(s, name) is Ok,
    ensures
        ({
            let t = apply_all(s, remove(s, name)->Ok_0.0, g);
            &&& t.live == s.live
            &&& t.auth_of(name) is Missing
            &&& !is_listed(t, name)
            &&& t.names is Ok <==> s.names is Ok
            &&& forall|n: Seq<char>| n != name ==> #[trigger] same_files(t, s, n)
            &&& forall|n: Seq<char>| n != name ==> #[trigger] is_listed(t, n) == is_listed(s, n)
            &&& t.current != Ok::<Option<Seq<char>>, Seq<char>>(Some(name))
            &&& s.current != Ok::<Option<Seq<char>>, Seq<char>>(Some(name)) ==> t.current
                == s.current
        }),
{
    let none = no_steps();
    let step = StepTree::RemoveProfile(name);
    assert(apply_all(s, none, g) == s);
    lemma_apply_push(s, none, step, g);
    lemma_apply_push(s, none.push(step), StepTree::ClearCurrent, g);
    lemma_with_auth(s, name, AuthTree::Missing);
    let t = apply_all(s, remove(s, name)->Ok_0.0, g);
    let w = with_auth(s, name, AuthTree::Missing);
    assert(t.files == w.files);
    lemma_names_without(s, t, name);
    assert forall|n: Seq<char>| n != name implies #[trigger] same_files(t, s, n) by {
        assert(same_files(w, s, n));
    }
    assert(t.auth_of(name) == w.auth_of(name));
}

/// Importing makes the profile the imported login, which is then listed. With `no_switch` that is
/// all: the live login, the current profile and all other profiles stay as they are. Else the live
/// login is written back to the profile of its user and then is the imported one, and the profile
/// is the current one.
pub proof fn law_import(
    s: StoreTree,
    raw: JsonTree,
    given: Option<Seq<char>>,
    no_switch: bool,
    g: Gauging,
)
    requires
        import(s, raw, given, no_switch) is Ok,
    ensures
        ({
            let c = import(s, raw, given, no_switch)->Ok_0;
            let auth = bundle_parts(raw)->Ok_0.0;
            let t = apply_all(s, c.steps, g);
            &&& t.auth_of(c.name) == AuthTree::Present(auth)
            &&& s.names is Ok ==> is_listed(t, c.name)
            &&& no_switch ==> t.current == s.current && t.live == s.live
            &&& !no_switch ==> t.current == Ok::<Option<Seq<char>>, Seq<char>>(Some(c.name))
            &&& !no_switch ==> t.live == AuthTree::Present(auth)
            &&& !no_switch && c.id.user_id is Some ==> matching(t, c.id) == Ok::<
                Option<Seq<char>>,
                Seq<char>,
            >(Some(c.name))
            &&& !no_switch ==> (persisted(s) matches Ok(Some(p)) ==> p != c.name ==> t.auth_of(p)
                == s.live)
            &&& raw.field("limit"@) matches Some(l) ==> {
                let l = stamped(stored_limit(l), c.id.email, c.id.user_id, Some(c.name));
                t.limit_of(c.name) == Some(public_limit(l, g(l)))
            }
            &&& forall|n: Seq<char>|
                n != c.name && (no_switch || persisted(s) != Ok::<Option<Seq<char>>, Seq<char>>(
                    Some(n),
                )) ==> #[trigger] same_files(t, s, n)
            &&& forall|n: Seq<char>|
                n != c.name && (no_switch || persisted(s) != Ok::<Option<Seq<char>>, Seq<char>>(
                    Some(n),
                )) ==> #[trigger] is_listed(t, n) == is_listed(s, n)
        }),
{
    let c = import(s, raw, given, no_switch)->Ok_0;
    let auth = bundle_parts(raw)->Ok_0.0;
    let none = no_steps();
    assert(apply_all(s, none, g) == s);
    law_persisted_same_user(s);
    let back = !no_switch && back_step(s) is Some;
    let a = if back {
        none.push(back_step(s)->0)
    } else {
        none
    };
    let ta = apply_all(s, a, g);
    if back {
        let p = persisted(s)->Ok_0->0;
        lemma_apply_push(s, none, back_step(s)->0, g);
        lemma_with_profile(s, p, s.live->Present_0);
    }
    let write = StepTree::WriteProfile(c.name, auth);
    let b = a.push(write);
    lemma_apply_push(s, a, write, g);
    lemma_with_profile(ta, c.name, auth);
    let tb = with_profile(ta, c.name, auth);
    let l = match raw.field("limit"@) {
        Some(l) => b.push(
            StepTree::TryWriteLimit(
                c.name,
                stamped(stored_limit(l), c.id.email, c.id.user_id, Some(c.name)),
            ),
        ),
        None => b,
    };
    let tl = apply_all(s, l, g);
    if raw.field("limit"@) is Some {
        lemma_apply_push(s, b, l.last(), g);
        assert(l =~= b.push(l.last()));
        let lim = l.last()->TryWriteLimit_1;
        lemma_with_limit(tb, c.name, public_limit(lim, g(lim)));
    }
    let d = l.push(StepTree::WriteCurrent(c.name));
    lemma_apply_push(s, l, StepTree::WriteCurrent(c.name), g);
    lemma_apply_push(s, d, StepTree::WriteAuth(auth), g);
    let t = apply_all(s, c.steps, g);
    assert(c.steps == if no_switch {
        l
    } else {
        d.push(StepTree::WriteAuth(auth))
    });
    assert(t.files == tl.files && t.names == tl.names);
    assert forall|n: Seq<char>| #[trigger] same_files(t, tl, n) by {}
    assert(same_files(t, tl, c.name));
    assert(is_listed(tb, c.name) == is_listed(t, c.name));
    assert forall|n: Seq<char>|
        n != c.name && (no_switch || persisted(s) != Ok::<Option<Seq<char>>, Seq<char>>(
            Some(n),
        )) implies #[trigger] same_files(t, s, n) by {
        assert(same_files(t, tl, n));
        if raw.field("limit"@) is Some {
            assert(same_files(tl, tb, n));
        }
        assert(same_files(tb, ta, n));
        if back {
            assert(same_files(ta, s, n));
        }
    }
    assert forall|n: Seq<char>|
        n != c.name && (no_switch || persisted(s) != Ok::<Option<Seq<char>>, Seq<char>>(
            Some(n),
        )) implies #[trigger] is_listed(t, n) == is_listed(s, n) by {
        assert(is_listed(tb, n) == is_listed(ta, n));
        if back {
            assert(is_listed(ta, n) == is_listed(s, n));
        }
    }
    if back {
        let p = persisted(s)->Ok_0->0;
        if p != c.name {
            assert(same_files(t, tl, p));
            if raw.field("limit"@) is Some {
                assert(same_files(tl, tb, p));
            }
            assert(same_files(tb, ta, p));
        }
    }
    assert(t.user_at(c.name) == user_of(auth));
}

proof fn lemma_bundle_keys()
    ensures
        "auth"@.len() == 4,
        "email"@.len() == 5,
        "exported_at"@.len() == 11,
        "format"@.len() == 6,
        "limit"@.len() == 5,
        "name"@.len() == 4,
        "user_id"@.len() == 7,
        "version"@.len() == 7,
        "auth"@ != "name"@,
        "email"@ != "limit"@,
        "user_id"@ != "version"@,
{
    reveal_strlit("auth");
    reveal_strlit("email");
    reveal_strlit("exported_at");
    reveal_strlit("format");
    reveal_strlit("limit");
    reveal_strlit("name");
    reveal_strlit("user_id");
    reveal_strlit("version");
    assert("auth"@[0] != "name"@[0]);
    assert("email"@[0] != "limit"@[0]);
    assert("user_id"@[0] != "version"@[0]);
}

/// What is exported is what an import reads: the same login, under the same name.
pub proof fn law_export_is_imported(
    store: AccountStore,
    given: Option<Seq<char>>,
    exported_at: Seq<char>,
    g: Option<GaugeTree>,
)
    requires
        export(store@, given) is Ok,
    ensures
        ({
            let x = export(store@, given)->Ok_0;
            bundle_parts(bundle_tree(x, exported_at, g)) == Ok::<
                (JsonTree, Option<Seq<char>>),
                Refusal,
            >((x.auth, Some(x.name)))
        }),
{
    broadcast use lemma_entry_push;

    let x = export(store@, given)->Ok_0;
    let t = bundle_tree(x, exported_at, g);
    lemma_bundle_keys();
    assert(t.field("format"@) == Some(JsonTree::Text(bundle_format())));
    assert(t.field("auth"@) == Some(x.auth));
    assert(t.field("name"@) == Some(JsonTree::Text(x.name)));
    assert(identity_of(x.auth) == Some(x.id));
    lemma_export_name(store, given);
}

/// An export has a name without white space at its ends.
proof fn lemma_export_name(store: AccountStore, given: Option<Seq<char>>)
    requires
        export(store@, given) is Ok,
    ensures
        export(store@, given)->Ok_0.name.len() > 0,
        trimmed(export(store@, given)->Ok_0.name) == export(store@, given)->Ok_0.name,
{
    let s = store@;
    let x = export(s, given)->Ok_0;
    lemma_store_names(store);
    if given is Some {
        lemma_name_is_trimmed(x.name);
    } else {
        match matching(s, x.id)->Ok_0 {
            Some(name) => {
                if s.current != Ok::<Option<Seq<char>>, Seq<char>>(Some(name)) {
                    lemma_first_is_among(s, x.id.user_id->0, s.names->Ok_0);
                    lemma_name_is_trimmed(x.name);
                }
            },
            None => {
                lemma_default_name(x.id);
                lemma_name_chars_trimmed(x.name);
            },
        }
    }
}

proof fn lemma_first_is_among(s: StoreTree, user: Seq<char>, among: Seq<Seq<char>>)
    ensures
        first_of_user(s, user, among) matches Some(name) ==> exists|i: int|
            0 <= i < among.len() && #[trigger] among[i] == name,
    decreases among.len(),
{
    if among.len() > 0 {
        let rest = among.skip(1);
        lemma_first_is_among(s, user, rest);
        if s.user_at(among[0]) == Some(user) {
            assert(among[0] == among[0]);
        } else if let Some(name) = first_of_user(s, user, rest) {
            let i = choose|i: int| 0 <= i < rest.len() && #[trigger] rest[i] == name;
            assert(among[i + 1] == name);
        }
    }
}

/// An export carries a login to another place: importing the file there, where its name is free or
/// belongs to the same user, makes the exported login the live one and saves it under its name.
pub proof fn law_export_then_import(
    store: AccountStore,
    given: Option<Seq<char>>,
    exported_at: Seq<char>,
    g: Option<GaugeTree>,
    there: StoreTree,
    gauging: Gauging,
)
    requires
        export(store@, given) is Ok,
        name_error(export(store@, given)->Ok_0.name) is None,
        other_owner(
            there,
            export(store@, given)->Ok_0.name,
            export(store@, given)->Ok_0.id,
        ) is None,
    ensures
        ({
            let x = export(store@, given)->Ok_0;
            let r = import(there, bundle_tree(x, exported_at, g), None, false);
            let t = apply_all(there, r->Ok_0.steps, gauging);
            &&& r is Ok
            &&& r->Ok_0.name == x.name
            &&& r->Ok_0.id == x.id
            &&& t.live == AuthTree::Present(x.auth)
            &&& t.auth_of(x.name) == AuthTree::Present(x.auth)
            &&& t.current == Ok::<Option<Seq<char>>, Seq<char>>(Some(x.name))
        }),
{
    let x = export(store@, given)->Ok_0;
    law_export_is_imported(store, given, exported_at, g);
    assert(identity_of(x.auth) == Some(x.id));
    law_import(there, bundle_tree(x, exported_at, g), None, false, gauging);
}

/// Once the live login has been written back, an export of the profile of its user holds the live
/// login.
pub proof fn law_export_is_fresh(s: StoreTree, name: Seq<char>, g: Gauging)
    requires
        persisted(s) == Ok::<Option<Seq<char>>, Seq<char>>(Some(name)),
        name_error(name) is None,
    ensures
        back_step(s) is Some,
        export(apply(s, back_step(s)->0, g), Some(name)) is Ok,
        AuthTree::Present(export(apply(s, back_step(s)->0, g), Some(name))->Ok_0.auth) == s.live,
{
    law_persisted_same_user(s);
    lemma_with_profile(s, name, s.live->Present_0);
}

/// A login that was saved comes back with a switch to its profile, as long as that profile has not
/// been written since. Where the live login has just been written there, that is newer and stays.
pub proof fn law_saved_login_comes_back(
    s: StoreTree,
    given: Option<Seq<char>>,
    limit: Option<Limit>,
    later: StoreTree,
    later_limit: Option<Limit>,
    g: Gauging,
)
    requires
        save(s, given, limit) is Ok,
        later.auth_of(save(s, given, limit)->Ok_0.name) == apply_all(
            s,
            save(s, given, limit)->Ok_0.steps,
            g,
        ).auth_of(save(s, given, limit)->Ok_0.name),
        persisted(later) is Ok,
    ensures
        ({
            let name = save(s, given, limit)->Ok_0.name;
            let r = switch(later, name, later_limit);
            &&& r is Ok
            &&& apply_all(later, r->Ok_0.steps, g).live == (if persisted(later) == Ok::<
                Option<Seq<char>>,
                Seq<char>,
            >(Some(name)) {
                later.live
            } else {
                s.live
            })
        }),
{
    let c = save(s, given, limit)->Ok_0;
    law_save(s, given, limit, g);
    law_switch(later, c.name, later_limit, g);
}

proof fn lemma_with_names_front(base: Seq<Seq<char>>, names: Seq<Seq<char>>)
    requires
        base.len() > 0,
    ensures
        with_names(base, names).len() > 0,
        with_names(base, names)[0] == base[0],
    decreases names.len(),
{
    if names.len() > 0 {
        lemma_with_names_front(base, names.drop_last());
    }
}

/// A login that was live is not lost by a switch: switching back to the profile of its user makes
/// it the live one again.
pub proof fn law_switch_back(
    s: StoreTree,
    name: Seq<char>,
    limit: Option<Limit>,
    back: Seq<char>,
    back_limit: Option<Limit>,
    g: Gauging,
)
    requires
        switch(s, name, limit) is Ok,
        persisted(s) == Ok::<Option<Seq<char>>, Seq<char>>(Some(back)),
        name_error(back) is None,
        persisted(apply_all(s, switch(s, name, limit)->Ok_0.steps, g)) is Ok,
    ensures
        ({
            let t = apply_all(s, switch(s, name, limit)->Ok_0.steps, g);
            let r = switch(t, back, back_limit);
            &&& r is Ok
            &&& apply_all(t, r->Ok_0.steps, g).live == s.live
        }),
{
    let t = apply_all(s, switch(s, name, limit)->Ok_0.steps, g);
    law_switch(s, name, limit, g);
    law_persisted_same_user(s);
    assert(t.auth_of(back) == s.live);
    let first = Seq::empty().push(name);
    lemma_with_names_front(first, t.names->Ok_0);
    law_switch(t, back, back_limit, g);
    law_persisted_same_user(t);
}

/// A text of characters that a name may hold has no white space at its ends.
proof fn lemma_name_chars_trimmed(name: Seq<char>)
    requires
        forall|i: int| 0 <= i < name.len() ==> name_char(#[trigger] name[i]),
    ensures
        trimmed(name) == name,
{
    if name.len() > 0 {
        assert(name_char(name[0]));
        assert(name_char(name[name.len() - 1]));
    }
    lemma_trimmed_is(name);
}

proof fn lemma_name_is_trimmed(name: Seq<char>)
    requires
        name_error(name) is None,
    ensures
        name.len() > 0,
        trimmed(name) == name,
{
    lemma_name_chars_trimmed(name);
}

/// A bare authentication file can be imported as it is.
pub proof fn law_bare_auth_is_imported(t: JsonTree)
    requires
        identity_of(t) is Some,
        t.text_at("format"@) != Some(bundle_format()),
    ensures
        bundle_parts(t) == Ok::<(JsonTree, Option<Seq<char>>), Refusal>((t, None)),
{
}

} // verus!
